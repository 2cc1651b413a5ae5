//! Segmentation: splitting a string into delimiter-bounded segments and
//! reassembling the transformed segments around the original delimiters.
//!
//! The delimiter set is fixed: space and hyphen.  Scanning left to right,
//! every delimiter ends the current segment (which may be empty) and is
//! recorded; a trailing non-empty run of non-delimiters becomes a final
//! segment with no delimiter after it.

use vstd::prelude::*;

use crate::text::chars_to_string;
use crate::text::str_chars;

verus! {

/// The two segment delimiters: space and hyphen.
pub open spec fn is_delim_char(c: char) -> bool {
    c == ' ' || c == '-'
}

/// Executable delimiter test.
pub fn is_delim(c: char) -> (r: bool)
    ensures
        r == is_delim_char(c),
{
    c == ' ' || c == '-'
}

/// Index of the first delimiter in `s`, or `s.len()` if there is none.
pub open spec fn first_delim(s: Seq<char>) -> int
    decreases s.len(),
{
    if s.len() == 0 {
        0
    } else if is_delim_char(s[0]) {
        0
    } else {
        1 + first_delim(s.drop_first())
    }
}

proof fn lemma_first_delim_bounds(s: Seq<char>)
    ensures
        0 <= first_delim(s) <= s.len(),
        forall|j: int| 0 <= j < first_delim(s) ==> !is_delim_char(s[j]),
        first_delim(s) < s.len() ==> is_delim_char(s[first_delim(s)]),
    decreases s.len(),
{
    if s.len() == 0 {
    } else if is_delim_char(s[0]) {
    } else {
        lemma_first_delim_bounds(s.drop_first());
        assert forall|j: int| 0 <= j < first_delim(s) implies !is_delim_char(s[j]) by {
            if j > 0 {
                assert(s.drop_first()[j - 1] == s[j]);
            }
        }
        if first_delim(s) < s.len() {
            assert(s.drop_first()[first_delim(s.drop_first())] == s[first_delim(s)]);
        }
    }
}

/// The segments of `s`, in order.
pub open spec fn segments_of(s: Seq<char>) -> Seq<Seq<char>>
    decreases s.len(),
    via segments_of_dec
{
    let d = first_delim(s);
    if d < s.len() {
        seq![s.subrange(0, d)] + segments_of(s.subrange(d + 1, s.len() as int))
    } else if s.len() > 0 {
        seq![s]
    } else {
        Seq::empty()
    }
}

#[via_fn]
proof fn segments_of_dec(s: Seq<char>) {
    lemma_first_delim_bounds(s);
}

/// The delimiters of `s`, in order.
pub open spec fn delims_of(s: Seq<char>) -> Seq<char>
    decreases s.len(),
    via delims_of_dec
{
    let d = first_delim(s);
    if d < s.len() {
        seq![s[d]] + delims_of(s.subrange(d + 1, s.len() as int))
    } else {
        Seq::empty()
    }
}

#[via_fn]
proof fn delims_of_dec(s: Seq<char>) {
    lemma_first_delim_bounds(s);
}

/// The reassembly of the first `k` segments: segment 0, then for each later
/// segment the delimiter recorded before it followed by the segment.
pub open spec fn deseg_prefix(segs: Seq<Seq<char>>, delims: Seq<char>, k: int) -> Seq<char>
    decreases k,
{
    if k <= 0 {
        Seq::empty()
    } else if k == 1 {
        segs[0]
    } else {
        deseg_prefix(segs, delims, k - 1) + seq![delims[k - 2]] + segs[k - 1]
    }
}

/// The full reassembly of `segs` around `delims`.
pub open spec fn desegmentize_spec(segs: Seq<Seq<char>>, delims: Seq<char>) -> Seq<char> {
    deseg_prefix(segs, delims, segs.len() as int)
}

proof fn lemma_first_delim_concat(x: Seq<char>, y: Seq<char>)
    requires
        forall|j: int| 0 <= j < x.len() ==> !is_delim_char(x[j]),
        y.len() > 0,
        is_delim_char(y[0]),
    ensures
        first_delim(x + y) == x.len(),
    decreases x.len(),
{
    if x.len() == 0 {
        assert(x + y =~= y);
    } else {
        lemma_first_delim_concat(x.drop_first(), y);
        assert((x + y)[0] == x[0]);
        assert((x + y).drop_first() =~= x.drop_first() + y);
    }
}

proof fn lemma_first_delim_none(x: Seq<char>)
    requires
        forall|j: int| 0 <= j < x.len() ==> !is_delim_char(x[j]),
    ensures
        first_delim(x) == x.len(),
    decreases x.len(),
{
    if x.len() > 0 {
        lemma_first_delim_none(x.drop_first());
    }
}

/// A delimiter-free run followed by a delimiter splits off as one segment.
proof fn lemma_seg_split(x: Seq<char>, d: char, rest: Seq<char>)
    requires
        forall|j: int| 0 <= j < x.len() ==> !is_delim_char(x[j]),
        is_delim_char(d),
    ensures
        segments_of(x + seq![d] + rest) == seq![x] + segments_of(rest),
        delims_of(x + seq![d] + rest) == seq![d] + delims_of(rest),
{
    let s = x + seq![d] + rest;
    assert((seq![d] + rest)[0] == d);
    lemma_first_delim_concat(x, seq![d] + rest);
    assert(s =~= x + (seq![d] + rest));
    assert(first_delim(s) == x.len());
    assert(s.subrange(0, x.len() as int) =~= x);
    assert(s.subrange(x.len() as int + 1, s.len() as int) =~= rest);
    assert(s[x.len() as int] == d);
}

/// A non-empty delimiter-free string is a single segment.
proof fn lemma_seg_nodelim(x: Seq<char>)
    requires
        x.len() > 0,
        forall|j: int| 0 <= j < x.len() ==> !is_delim_char(x[j]),
    ensures
        segments_of(x) == seq![x],
        delims_of(x) == Seq::<char>::empty(),
{
    lemma_first_delim_none(x);
}

proof fn lemma_segments_nonempty(s: Seq<char>)
    requires
        s.len() > 0,
    ensures
        segments_of(s).len() >= 1,
{
    lemma_first_delim_bounds(s);
}

/// A string never has more segments than delimiters plus one.
pub(crate) proof fn lemma_segment_count(s: Seq<char>)
    ensures
        segments_of(s).len() <= delims_of(s).len() + 1,
    decreases s.len(),
{
    lemma_first_delim_bounds(s);
    let d = first_delim(s);
    if d < s.len() {
        lemma_segment_count(s.subrange(d + 1, s.len() as int));
    }
}

proof fn lemma_deseg_prefix_cons(x: Seq<char>, c: char, segs: Seq<Seq<char>>, delims: Seq<char>, k: int)
    requires
        1 <= k <= segs.len(),
        delims.len() >= k - 1,
    ensures
        deseg_prefix(seq![x] + segs, seq![c] + delims, k + 1) == x + seq![c] + deseg_prefix(
            segs,
            delims,
            k,
        ),
    decreases k,
{
    let ss = seq![x] + segs;
    let dd = seq![c] + delims;
    assert(deseg_prefix(ss, dd, k + 1) == deseg_prefix(ss, dd, k) + seq![dd[k - 1]] + ss[k]);
    if k == 1 {
        assert(deseg_prefix(ss, dd, 1) == ss[0]);
        assert(deseg_prefix(segs, delims, 1) == segs[0]);
        assert(ss[0] == x);
        assert(dd[0] == c);
        assert(ss[1] == segs[0]);
        assert(x + seq![dd[0]] + ss[1] =~= x + seq![c] + segs[0]);
    } else {
        lemma_deseg_prefix_cons(x, c, segs, delims, k - 1);
        assert(deseg_prefix(segs, delims, k) == deseg_prefix(segs, delims, k - 1) + seq![delims[k
            - 2]] + segs[k - 1]);
        assert(dd[k - 1] == delims[k - 2]);
        assert(ss[k] == segs[k - 1]);
        assert((x + seq![c] + deseg_prefix(segs, delims, k - 1)) + seq![delims[k - 2]] + segs[k - 1]
            =~= x + seq![c] + (deseg_prefix(segs, delims, k - 1) + seq![delims[k - 2]] + segs[k
            - 1]));
    }
}

/// Splitting a string into segments and delimiters and reassembling them
/// reproduces the string, provided the string does not end in a delimiter
/// (a trailing delimiter is recorded but has no segment after it, so the
/// reassembly drops it).
pub proof fn lemma_segmentation_round_trip(s: Seq<char>)
    requires
        s.len() == 0 || !is_delim_char(s[s.len() - 1]),
    ensures
        desegmentize_spec(segments_of(s), delims_of(s)) == s,
        segments_of(s).len() == if s.len() == 0 {
            0int
        } else {
            delims_of(s).len() + 1int
        },
    decreases s.len(),
{
    lemma_first_delim_bounds(s);
    let d = first_delim(s);
    if s.len() == 0 {
    } else if d == s.len() {
        assert(segments_of(s) == seq![s]);
        assert(deseg_prefix(seq![s], delims_of(s), 1) == seq![s][0]);
    } else {
        let x = s.subrange(0, d);
        let c = s[d];
        let rest = s.subrange(d + 1, s.len() as int);
        assert(d != s.len() - 1);
        assert(rest.len() > 0);
        assert(rest[rest.len() - 1] == s[s.len() - 1]);
        lemma_segmentation_round_trip(rest);
        assert(s =~= x + seq![c] + rest);
        lemma_seg_split(x, c, rest);
        lemma_segments_nonempty(rest);
        let segs = segments_of(rest);
        let delims = delims_of(rest);
        lemma_deseg_prefix_cons(x, c, segs, delims, segs.len() as int);
        assert((seq![x] + segs).len() == segs.len() + 1);
        assert(x + seq![c] + rest =~= s);
    }
}

/// Split `s` into its segments and the delimiters between them.
pub fn segmentize(s: &str) -> (r: (Vec<String>, Vec<char>))
    ensures
        r.0.deep_view() == segments_of(s@),
        r.1@ == delims_of(s@),
{
    let cs = str_chars(s);
    let n = cs.len();
    let mut segs: Vec<String> = Vec::new();
    let mut delims: Vec<char> = Vec::new();
    let mut buf: Vec<char> = Vec::new();
    let mut i: usize = 0;
    proof {
        assert(buf@ + s@.subrange(0, n as int) =~= s@);
        assert(segs.deep_view() + segments_of(s@) =~= segments_of(s@));
        assert(delims@ + delims_of(s@) =~= delims_of(s@));
    }
    while i < n
        invariant
            n == cs@.len(),
            cs@ == s@,
            i <= n,
            forall|j: int| 0 <= j < buf@.len() ==> !is_delim_char(buf@[j]),
            segments_of(s@) == segs.deep_view() + segments_of(
                buf@ + s@.subrange(i as int, n as int),
            ),
            delims_of(s@) == delims@ + delims_of(buf@ + s@.subrange(i as int, n as int)),
        decreases n - i,
    {
        let c = cs[i];
        proof {
            assert(s@.subrange(i as int, n as int) =~= seq![c] + s@.subrange(i + 1, n as int));
        }
        if is_delim(c) {
            proof {
                assert(buf@ + s@.subrange(i as int, n as int) =~= buf@ + seq![c] + s@.subrange(
                    i + 1,
                    n as int,
                ));
                lemma_seg_split(buf@, c, s@.subrange(i + 1, n as int));
            }
            let seg = chars_to_string(&buf);
            let ghost old_segs = segs.deep_view();
            let ghost old_delims = delims@;
            segs.push(seg);
            delims.push(c);
            buf = Vec::new();
            proof {
                assert(segs.deep_view() =~= old_segs.push(seg@));
                assert(old_segs + (seq![seg@] + segments_of(s@.subrange(i + 1, n as int)))
                    =~= (old_segs.push(seg@)) + segments_of(s@.subrange(i + 1, n as int)));
                assert(old_delims + (seq![c] + delims_of(s@.subrange(i + 1, n as int)))
                    =~= (old_delims.push(c)) + delims_of(s@.subrange(i + 1, n as int)));
                assert(buf@ + s@.subrange(i + 1, n as int) =~= s@.subrange(i + 1, n as int));
            }
        } else {
            let ghost old_buf = buf@;
            buf.push(c);
            proof {
                assert(buf@ + s@.subrange(i + 1, n as int) =~= old_buf + s@.subrange(
                    i as int,
                    n as int,
                ));
            }
        }
        i = i + 1;
    }
    proof {
        assert(buf@ + s@.subrange(n as int, n as int) =~= buf@);
    }
    if buf.len() > 0 {
        proof {
            lemma_seg_nodelim(buf@);
        }
        let seg = chars_to_string(&buf);
        let ghost old_segs = segs.deep_view();
        segs.push(seg);
        proof {
            assert(segs.deep_view() =~= old_segs.push(seg@));
            assert(old_segs + seq![buf@] =~= old_segs.push(buf@));
            assert(segs.deep_view() =~= segments_of(s@));
            assert(delims@ + delims_of(buf@) =~= delims@);
        }
    } else {
        proof {
            assert(segments_of(buf@) =~= Seq::<Seq<char>>::empty());
            assert(segs.deep_view() + segments_of(buf@) =~= segs.deep_view());
            assert(delims@ + delims_of(buf@) =~= delims@);
        }
    }
    (segs, delims)
}

/// Reassemble segments around delimiters: segment 0, then for each later
/// segment `i` the delimiter at index `i - 1` followed by segment `i`.
pub fn desegmentize(segs: Vec<String>, seg_delims: Vec<char>) -> (r: String)
    requires
        segs@.len() == 0 || seg_delims@.len() >= segs@.len() - 1,
    ensures
        r@ == desegmentize_spec(segs.deep_view(), seg_delims@),
{
    let mut out: Vec<char> = Vec::new();
    let mut i: usize = 0;
    while i < segs.len()
        invariant
            segs@.len() == 0 || seg_delims@.len() >= segs@.len() - 1,
            i <= segs@.len(),
            out@ == deseg_prefix(segs.deep_view(), seg_delims@, i as int),
        decreases segs@.len() - i,
    {
        let ghost old_out = out@;
        if i > 0 {
            out.push(seg_delims[i - 1]);
        }
        let mut sc = str_chars(segs[i].as_str());
        proof {
            assert(sc@ == segs.deep_view()[i as int]);
        }
        out.append(&mut sc);
        proof {
            if i == 0 {
                assert(out@ =~= segs.deep_view()[0]);
            } else {
                assert(out@ =~= (old_out + seq![seg_delims@[i - 1]]) + segs.deep_view()[i as int]);
                assert(out@ =~= deseg_prefix(segs.deep_view(), seg_delims@, i + 1));
            }
        }
        i = i + 1;
    }
    chars_to_string(&out)
}

} // verus!
