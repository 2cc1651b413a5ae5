//! The pipeline: the ordered pass list built once from a rules file and
//! folded over each input line, each pass's output feeding the next pass.

use vstd::prelude::*;

use crate::parse::build_passes;
use crate::parse::build_passes_spec;
use crate::pass::pass_output;
use crate::rules::ParseError;
use crate::rules::PassModel;
use crate::rules::TransformPass;
use crate::rules::pass_wf;

verus! {

/// The output of a pass list folded left over one input line.
pub open spec fn pipeline_output(passes: Seq<PassModel>, input: Seq<char>) -> Seq<char>
    decreases passes.len(),
{
    if passes.len() == 0 {
        input
    } else {
        pipeline_output(passes.drop_first(), pass_output(passes[0], input))
    }
}

/// An ordered list of well-formed passes, built once from a rules file and
/// read-only thereafter.
pub struct Pipeline {
    passes: Vec<TransformPass>,
}

impl View for Pipeline {
    type V = Seq<PassModel>;

    closed spec fn view(&self) -> Seq<PassModel> {
        self.passes.deep_view()
    }
}

impl Pipeline {
    /// Every pattern of every pass compiles, so pipeline execution is total.
    #[verifier::type_invariant]
    closed spec fn wf(&self) -> bool {
        forall|q: int|
            0 <= q < self.passes.deep_view().len() ==> pass_wf(#[trigger] self.passes.deep_view()[q])
    }

    /// The number of passes.
    pub fn len(&self) -> (r: usize)
        ensures
            r == self@.len(),
    {
        self.passes.len()
    }

    /// Build the pipeline from the raw lines of a rules file.
    pub fn build(lines: &Vec<String>) -> (r: Result<Pipeline, ParseError>)
        ensures
            r is Ok <==> build_passes_spec(lines.deep_view()) is Ok,
            r is Ok ==> r->Ok_0@ == build_passes_spec(lines.deep_view())->Ok_0,
            r is Err ==> r->Err_0@ == build_passes_spec(lines.deep_view())->Err_0,
    {
        match build_passes(lines) {
            Ok(passes) => Ok(Pipeline { passes }),
            Err(e) => Err(e),
        }
    }

    /// Run every pass over one line, in order.  Execution is total: once the
    /// pipeline is built, no input line can make it fail.
    pub fn run(&self, line: &str) -> (r: String)
        ensures
            r@ == pipeline_output(self@, line@),
    {
        proof {
            use_type_invariant(self);
        }
        let n = self.passes.len();
        let mut cur = String::from_str(line);
        let mut k: usize = 0;
        proof {
            assert(self@.subrange(0, n as int) =~= self@);
        }
        while k < n
            invariant
                n == self@.len(),
                self.wf(),
                k <= n,
                pipeline_output(self@, line@) == pipeline_output(
                    self@.subrange(k as int, n as int),
                    cur@,
                ),
            decreases n - k,
        {
            let ghost suffix = self@.subrange(k as int, n as int);
            proof {
                assert(suffix[0] == self@[k as int]);
                assert(suffix.drop_first() =~= self@.subrange(k + 1, n as int));
                assert(pass_wf(self@[k as int]));
            }
            cur = self.passes[k].execute(cur.as_str());
            k = k + 1;
        }
        proof {
            assert(self@.subrange(n as int, n as int).len() == 0);
        }
        cur
    }
}

/// Build a pipeline from rule-file lines and run it over every input line.
pub fn transform_lines(rule_lines: &Vec<String>, input_lines: &Vec<String>) -> (r: Result<
    Vec<String>,
    ParseError,
>)
    ensures
        r is Ok <==> build_passes_spec(rule_lines.deep_view()) is Ok,
        r is Ok ==> r->Ok_0.deep_view().len() == input_lines.deep_view().len(),
        r is Ok ==> forall|q: int|
            0 <= q < input_lines.deep_view().len() ==> r->Ok_0.deep_view()[q] == pipeline_output(
                build_passes_spec(rule_lines.deep_view())->Ok_0,
                #[trigger] input_lines.deep_view()[q],
            ),
        r is Err ==> r->Err_0@ == build_passes_spec(rule_lines.deep_view())->Err_0,
{
    let pipeline = match Pipeline::build(rule_lines) {
        Ok(p) => p,
        Err(e) => {
            return Err(e);
        },
    };
    let mut out: Vec<String> = Vec::new();
    let mut q: usize = 0;
    while q < input_lines.len()
        invariant
            pipeline@ == build_passes_spec(rule_lines.deep_view())->Ok_0,
            q <= input_lines@.len(),
            out@.len() == q,
            forall|w: int|
                0 <= w < q ==> out.deep_view()[w] == pipeline_output(
                    pipeline@,
                    #[trigger] input_lines.deep_view()[w],
                ),
        decreases input_lines@.len() - q,
    {
        let line_out = pipeline.run(input_lines[q].as_str());
        out.push(line_out);
        q = q + 1;
    }
    Ok(out)
}

} // verus!
