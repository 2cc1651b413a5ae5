use langmangler::casing::CharCase;
use langmangler::casing::apply_casing;
use langmangler::reject::RejectionCriterion;
use langmangler::reject::should_reject;
use langmangler::segment::desegmentize;
use langmangler::segment::segmentize;

#[test]
fn segmentize_splits_on_space_and_hyphen() {
    let (segs, delims) = segmentize("apple a-apple");
    assert_eq!(segs, vec!["apple".to_string(), "a".to_string(), "apple".to_string()]);
    assert_eq!(delims, vec![' ', '-']);
}

#[test]
fn segmentize_empty_string() {
    let (segs, delims) = segmentize("");
    assert!(segs.is_empty());
    assert!(delims.is_empty());
}

#[test]
fn segmentize_adjacent_delimiters_make_empty_segment() {
    let (segs, delims) = segmentize("a--b");
    assert_eq!(segs, vec!["a".to_string(), "".to_string(), "b".to_string()]);
    assert_eq!(delims, vec!['-', '-']);
}

#[test]
fn segmentation_round_trip() {
    for s in ["", "word", "a b-c", "a--b", "-x", " - a"] {
        let (segs, delims) = segmentize(s);
        assert_eq!(desegmentize(segs, delims), s);
    }
}

#[test]
fn trailing_delimiter_is_dropped_on_reassembly() {
    let (segs, delims) = segmentize("a-");
    assert_eq!(segs, vec!["a".to_string()]);
    assert_eq!(delims, vec!['-']);
    assert_eq!(desegmentize(segs, delims), "a");
}

#[test]
fn apply_casing_all_lower_is_identity() {
    let tags = vec![CharCase::Lower, CharCase::Lower, CharCase::Lower, CharCase::Lower];
    assert_eq!(apply_casing("asdf", &tags), "asdf");
}

#[test]
fn apply_casing_all_upper_uppercases() {
    let tags = vec![CharCase::Upper, CharCase::Upper, CharCase::Upper, CharCase::Upper];
    assert_eq!(apply_casing("asdf", &tags), "ASDF");
}

#[test]
fn apply_casing_mixed_tags() {
    let tags = vec![CharCase::Lower, CharCase::Upper, CharCase::Upper];
    assert_eq!(apply_casing("asdf", &tags), "aSDf");
}

#[test]
fn apply_casing_extra_tags_are_ignored() {
    let tags = vec![CharCase::Upper, CharCase::Lower];
    assert_eq!(apply_casing("f", &tags), "F");
}

#[test]
fn apply_casing_empty_replacement() {
    let tags = vec![CharCase::Upper];
    assert_eq!(apply_casing("", &tags), "");
}

#[test]
fn reject_unchanged_compares_exactly() {
    assert!(should_reject(&RejectionCriterion::Unchanged, "abc", "abc"));
    assert!(!should_reject(&RejectionCriterion::Unchanged, "abc", "abd"));
    assert!(!should_reject(&RejectionCriterion::Unchanged, "cafe", "caf\u{e9}"));
}

#[test]
fn reject_ascii_unchanged_compares_transliterations() {
    assert!(should_reject(&RejectionCriterion::AsciiUnchanged, "cafe", "caf\u{e9}"));
    assert!(should_reject(&RejectionCriterion::AsciiUnchanged, "abc", "abc"));
    assert!(!should_reject(&RejectionCriterion::AsciiUnchanged, "foto", "photo"));
}
