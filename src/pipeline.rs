use vstd::prelude::*;
use crate::error::Error;
use crate::kind::ShaderKind;
use crate::discover::CompilationCandidate;

verus! {

/// What one run is asked to do.
pub struct Instructions {
    /// The kinds of shaders to search for and compile.
    pub to_compile: Vec<ShaderKind>,
    /// The directory searched, recursively, for sources.
    pub search_root: &'static str,
    /// The directory below which compiled outputs are written.
    pub output_root: &'static str,
    /// The file that holds the change record between runs.
    pub record_path: &'static str,
    /// Whether a run in which some source fails to compile reports failure.
    pub compilation_error_terminates: bool,
}

/// A source that compiled, with what it compiled to.
pub struct CompileOutput {
    pub location: String,
    pub shader_kind: ShaderKind,
    pub artifact: Vec<u8>,
}

/// Whether `out` is the outcome for candidate `c` whose compilation gave `res`.
pub open spec fn outcome_of(
    c: (Seq<char>, ShaderKind),
    res: Result<Vec<u8>, Error>,
    out: Result<CompileOutput, Error>,
) -> bool {
    match res {
        Ok(b) => out matches Ok(o) && o.location@ == c.0 && o.shader_kind == c.1 && o.artifact@ == b@,
        Err(e) => out == Err::<CompileOutput, Error>(e),
    }
}

/// One outcome per candidate, in order: `results[i]` is what reading and
/// compiling `to_compile[i]` gave, and a failure stays that candidate's own.
pub fn compile_outcomes(
    to_compile: &Vec<CompilationCandidate>,
    results: Vec<Result<Vec<u8>, Error>>,
) -> (r: Vec<Result<CompileOutput, Error>>)
    requires
        to_compile@.len() == results@.len(),
    ensures
        r@.len() == to_compile@.len(),
        forall|i: int| 0 <= i < r@.len() ==> outcome_of(to_compile@[i]@, results@[i], #[trigger] r@[i]),
{
    let ghost all = results@;
    let mut rest = results;
    let mut out: Vec<Result<CompileOutput, Error>> = Vec::new();
    let mut i: usize = 0;
    while i < to_compile.len()
        invariant
            to_compile@.len() == all.len(),
            i <= to_compile@.len(),
            out@.len() == i,
            rest@ == all.subrange(i as int, all.len() as int),
            forall|a: int| 0 <= a < i ==> outcome_of(to_compile@[a]@, all[a], #[trigger] out@[a]),
        decreases to_compile@.len() - i,
    {
        let res = rest.remove(0);
        let cand = &to_compile[i];
        let outcome = match res {
            Ok(artifact) => Ok(CompileOutput {
                location: cand.location.clone(),
                shader_kind: cand.shader_kind,
                artifact,
            }),
            Err(e) => Err(e),
        };
        out.push(outcome);
        proof {
            assert(rest@ =~= all.subrange(i + 1, all.len() as int));
        }
        i = i + 1;
    }
    out
}

/// The failures among `s`, in order.
pub open spec fn failures_of(s: Seq<Result<CompileOutput, Error>>) -> Seq<Error>
    decreases s.len(),
{
    if s.len() == 0 {
        Seq::empty()
    } else {
        match s.last() {
            Ok(_) => failures_of(s.drop_last()),
            Err(e) => failures_of(s.drop_last()).push(e),
        }
    }
}

/// What a run whose outputs were all written reports: a batch failure that
/// carries every compilation failure, in order, where failures terminate and
/// there was one; success otherwise.
pub fn run_verdict(outcomes: Vec<Result<CompileOutput, Error>>, compilation_error_terminates: bool) -> (r: Result<(), Error>)
    ensures
        (compilation_error_terminates && failures_of(outcomes@).len() > 0) ==> (r matches Err(Error::BatchError(v))
            && v@ == failures_of(outcomes@)),
        !(compilation_error_terminates && failures_of(outcomes@).len() > 0) ==> r is Ok,
{
    let ghost all = outcomes@;
    let mut rest = outcomes;
    let mut errors: Vec<Error> = Vec::new();
    let mut i: usize = 0;
    let n = rest.len();
    while i < n
        invariant
            n == all.len(),
            i <= n,
            rest@ == all.subrange(i as int, n as int),
            errors@ == failures_of(all.take(i as int)),
        decreases n - i,
    {
        let outcome = rest.remove(0);
        proof {
            assert(all.take(i + 1).drop_last() =~= all.take(i as int));
            assert(all.take(i + 1).last() == all[i as int]);
            assert(rest@ =~= all.subrange(i + 1, n as int));
        }
        match outcome {
            Ok(_) => {},
            Err(e) => errors.push(e),
        }
        i = i + 1;
    }
    proof { assert(all.take(n as int) =~= all); }
    if compilation_error_terminates && errors.len() > 0 {
        Err(Error::BatchError(errors))
    } else {
        Ok(())
    }
}

} // verus!
