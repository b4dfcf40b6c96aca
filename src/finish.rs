use vstd::prelude::*;
use vstd::string::StringExecFns;
use crate::error::Error;
use crate::record::{Record, Timestamp, map_of_pairs, pairs_of_triples, msgpack_of_triples, triples_of_msgpack};
use crate::output::{output_path, output_path_of};
use crate::pipeline::{CompileOutput, failures_of, run_verdict};

verus! {

/// The paths of the sources among the first `n` outcomes that compiled, in order.
pub open spec fn successes_before(outs: Seq<Result<CompileOutput, Error>>, n: int) -> Seq<Seq<char>>
    decreases n,
{
    if n <= 0 || outs.len() < n {
        Seq::empty()
    } else {
        match outs[n - 1] {
            Ok(o) => successes_before(outs, n - 1).push(o.location@),
            Err(_) => successes_before(outs, n - 1),
        }
    }
}

/// `rec` with each (path, time) of `log` inserted in turn.
pub open spec fn apply_log(rec: Map<Seq<char>, Timestamp>, log: Seq<(Seq<char>, Timestamp)>) -> Map<Seq<char>, Timestamp>
    decreases log.len(),
{
    if log.len() == 0 {
        rec
    } else {
        apply_log(rec, log.drop_last()).insert(log.last().0, log.last().1)
    }
}

/// The first outcome at or after `from` that compiled, or the number of
/// outcomes where none did.
pub open spec fn next_success(outs: Seq<Result<CompileOutput, Error>>, from: int) -> int
    decreases outs.len() - from,
{
    if from >= outs.len() || from < 0 {
        outs.len() as int
    } else if outs[from] is Ok {
        from
    } else {
        next_success(outs, from + 1)
    }
}

proof fn lemma_skip_failures(outs: Seq<Result<CompileOutput, Error>>, from: int, to: int)
    requires
        0 <= from <= to <= outs.len(),
        forall|k: int| from <= k < to ==> (#[trigger] outs[k]) is Err,
    ensures
        successes_before(outs, to) == successes_before(outs, from),
        next_success(outs, from) == next_success(outs, to),
    decreases to - from,
{
    if from < to {
        lemma_skip_failures(outs, from + 1, to);
        assert(outs[from] is Err);
        lemma_skip_back(outs, from, to);
    }
}

proof fn lemma_skip_back(outs: Seq<Result<CompileOutput, Error>>, from: int, to: int)
    requires
        0 <= from <= to <= outs.len(),
        forall|k: int| from <= k < to ==> (#[trigger] outs[k]) is Err,
    ensures
        successes_before(outs, to) == successes_before(outs, from),
    decreases to - from,
{
    if from < to {
        assert(outs[to - 1] is Err);
        lemma_skip_back(outs, from, to - 1);
    }
}

/// Whether `bytes` is a record file that holds exactly the record `rec`:
/// the encoding of a list that decodes back to itself and maps to `rec`.
pub open spec fn persisted_as(bytes: Seq<u8>, rec: Map<Seq<char>, Timestamp>) -> bool {
    exists|t: Seq<(Seq<char>, i64, u32)>|
        bytes == msgpack_of_triples(t) && triples_of_msgpack(bytes) == Some(t)
            && map_of_pairs(pairs_of_triples(t)) == rec
}

/// Where the last part of a run stands.
#[derive(Clone, Copy, Debug, PartialEq, Eq, Structural)]
pub enum Phase {
    /// Outputs remain to be written.
    Writing,
    /// An output is being written; its outcome is awaited.
    Awaiting,
    /// The record is to be persisted next.
    Persisting,
    /// The record was handed out for persisting; the run's result remains.
    Reporting,
}

/// What the caller is to do next.
pub enum Action {
    /// Write the artifact of outcome `index` to `dest`, then read the
    /// modification time of its source, and report it with `written`.
    Write { index: usize, dest: String },
    /// Write these bytes to the record file, then call `finish`.
    Persist { bytes: Vec<u8> },
}

/// The last part of a run: writes each compiled output in order, logs each
/// one written, persists the record whatever happened, and gives the run's
/// result.
pub struct Finisher {
    outcomes: Vec<Result<CompileOutput, Error>>,
    record: Record,
    search_root: &'static str,
    output_root: &'static str,
    terminates: bool,
    pos: usize,
    phase: Phase,
    write_error: Option<Error>,
    initial: Ghost<Map<Seq<char>, Timestamp>>,
    log: Ghost<Seq<(Seq<char>, Timestamp)>>,
}

impl Finisher {
    pub closed spec fn outcomes(&self) -> Seq<Result<CompileOutput, Error>> {
        self.outcomes@
    }

    pub closed spec fn phase(&self) -> Phase {
        self.phase
    }

    /// The record as it stood when the run began.
    pub closed spec fn initial(&self) -> Map<Seq<char>, Timestamp> {
        self.initial@
    }

    /// Each output written so far, with the time its source had then.
    pub closed spec fn log(&self) -> Seq<(Seq<char>, Timestamp)> {
        self.log@
    }

    /// The record now: the initial one with every logged output.
    pub closed spec fn record_view(&self) -> Map<Seq<char>, Timestamp> {
        self.record@
    }

    pub closed spec fn write_error(&self) -> Option<Error> {
        self.write_error
    }

    pub closed spec fn pos(&self) -> int {
        self.pos as int
    }

    pub closed spec fn roots(&self) -> (Seq<char>, Seq<char>) {
        (self.search_root@, self.output_root@)
    }

    pub closed spec fn terminates(&self) -> bool {
        self.terminates
    }

    pub closed spec fn wf(&self) -> bool {
        &&& self.record.wf()
        &&& self.pos <= self.outcomes@.len()
        &&& self.record@ == apply_log(self.initial@, self.log@)
        &&& self.log@.len() == successes_before(self.outcomes@, self.pos as int).len()
        &&& forall|i: int| 0 <= i < self.log@.len() ==> (#[trigger] self.log@[i]).0 == successes_before(self.outcomes@, self.pos as int)[i]
        &&& self.phase == Phase::Awaiting ==> self.pos < self.outcomes@.len() && self.outcomes@[self.pos as int] is Ok
        &&& self.write_error is Some ==> self.phase == Phase::Persisting || self.phase == Phase::Reporting
    }

    pub fn new(
        record: Record,
        outcomes: Vec<Result<CompileOutput, Error>>,
        search_root: &'static str,
        output_root: &'static str,
        compilation_error_terminates: bool,
    ) -> (r: Finisher)
        requires
            record.wf(),
        ensures
            r.wf(),
            r.phase() == Phase::Writing,
            r.initial() == record@,
            r.log() == Seq::<(Seq<char>, Timestamp)>::empty(),
            r.outcomes() == outcomes@,
            r.pos() == 0,
            r.write_error() is None,
            r.roots() == (search_root@, output_root@),
            r.terminates() == compilation_error_terminates,
    {
        Finisher {
            outcomes,
            initial: Ghost(record@),
            record,
            search_root,
            output_root,
            terminates: compilation_error_terminates,
            pos: 0,
            phase: Phase::Writing,
            write_error: None,
            log: Ghost(Seq::empty()),
        }
    }

    /// The compiled output of outcome `index`, where that source compiled.
    pub fn output(&self, index: usize) -> (r: Option<&CompileOutput>)
        ensures
            match r {
                Some(o) => index < self.outcomes().len() && self.outcomes()[index as int] == Ok::<CompileOutput, Error>(*o),
                None => !(index < self.outcomes().len() && self.outcomes()[index as int] is Ok),
            },
    {
        if index < self.outcomes.len() {
            match &self.outcomes[index] {
                Ok(o) => Some(o),
                Err(_) => None,
            }
        } else {
            None
        }
    }

    fn persist_action(&mut self) -> (r: Action)
        requires
            old(self).wf(),
            old(self).phase == Phase::Persisting,
        ensures
            final(self).wf(),
            *final(self) == (Finisher { phase: Phase::Reporting, ..*old(self) }),
            r matches Action::Persist { bytes } && persisted_as(bytes@, apply_log(old(self).initial(), old(self).log())),
    {
        let bytes = self.record.to_bytes();
        proof {
            let t = self.record.triples();
            assert(bytes@ == msgpack_of_triples(t) && triples_of_msgpack(bytes@) == Some(t)
                && map_of_pairs(pairs_of_triples(t)) == self.record@);
        }
        self.phase = Phase::Reporting;
        Action::Persist { bytes }
    }

    /// The next thing to do: write the next compiled output, or, once every
    /// output was written or a write failed, persist the record.
    pub fn step(&mut self) -> (r: Action)
        requires
            old(self).wf(),
            old(self).phase() == Phase::Writing || old(self).phase() == Phase::Persisting,
        ensures
            final(self).wf(),
            final(self).outcomes() == old(self).outcomes(),
            final(self).initial() == old(self).initial(),
            final(self).log() == old(self).log(),
            final(self).roots() == old(self).roots(),
            final(self).terminates() == old(self).terminates(),
            r matches Action::Persist { bytes } ==> final(self).phase() == Phase::Reporting
                && persisted_as(bytes@, apply_log(old(self).initial(), old(self).log())),
            old(self).phase() == Phase::Persisting ==> r is Persist && final(self).write_error() == old(self).write_error()
                && final(self).pos() == old(self).pos(),
            old(self).phase() == Phase::Writing ==> final(self).pos() == next_success(old(self).outcomes(), old(self).pos()),
            old(self).phase() == Phase::Writing && final(self).pos() == old(self).outcomes().len() ==>
                r is Persist && final(self).write_error() is None,
            old(self).phase() == Phase::Writing && final(self).pos() < old(self).outcomes().len() ==>
                (old(self).outcomes()[final(self).pos()] matches Ok(o) && (match output_path_of(old(self).roots().0, old(self).roots().1, o.location@, o.shader_kind) {
                    Some(d) => r matches Action::Write { index, dest } && index == final(self).pos() && dest@ == d
                        && final(self).phase() == Phase::Awaiting && final(self).write_error() is None,
                    None => r is Persist && (final(self).write_error() matches Some(Error::Io(_))),
                })),
    {
        if self.phase == Phase::Persisting {
            return self.persist_action();
        }
        let mut i: usize = self.pos;
        let mut found = false;
        while i < self.outcomes.len() && !found
            invariant
                self.wf(),
                self.phase == Phase::Writing,
                self.pos <= i <= self.outcomes@.len(),
                forall|k: int| self.pos <= k < i ==> (#[trigger] self.outcomes@[k]) is Err,
                found ==> i < self.outcomes@.len() && self.outcomes@[i as int] is Ok,
                !found ==> next_success(self.outcomes@, self.pos as int) == next_success(self.outcomes@, i as int),
            decreases self.outcomes@.len() - i, if found { 0int } else { 1int },
        {
            match &self.outcomes[i] {
                Ok(_) => {
                    found = true;
                },
                Err(_) => {
                    proof { lemma_skip_failures(self.outcomes@, self.pos as int, i + 1); }
                    i = i + 1;
                },
            }
        }
        proof {
            lemma_skip_failures(self.outcomes@, self.pos as int, i as int);
        }
        self.pos = i;
        if !found {
            self.phase = Phase::Persisting;
            return self.persist_action();
        }
        let dest = match &self.outcomes[i] {
            Ok(o) => output_path(self.search_root, self.output_root, &o.location, &o.shader_kind),
            Err(_) => None,
        };
        match dest {
            Some(dest) => {
                self.phase = Phase::Awaiting;
                Action::Write { index: i, dest }
            },
            None => {
                self.write_error = Some(Error::Io(String::from_str("a source lies outside the search root")));
                self.phase = Phase::Persisting;
                self.persist_action()
            },
        }
    }

    /// Reports how writing the output that `step` asked for went: the
    /// modification time its source had after the write, or the error.
    pub fn written(&mut self, result: Result<Timestamp, Error>)
        requires
            old(self).wf(),
            old(self).phase() == Phase::Awaiting,
        ensures
            final(self).wf(),
            final(self).outcomes() == old(self).outcomes(),
            final(self).initial() == old(self).initial(),
            final(self).roots() == old(self).roots(),
            final(self).terminates() == old(self).terminates(),
            old(self).outcomes()[old(self).pos()] matches Ok(o) && (match result {
                Ok(t) => final(self).log() == old(self).log().push((o.location@, t))
                    && final(self).record_view() == old(self).record_view().insert(o.location@, t)
                    && final(self).pos() == old(self).pos() + 1 && final(self).phase() == Phase::Writing
                    && final(self).write_error() is None,
                Err(e) => final(self).log() == old(self).log() && final(self).pos() == old(self).pos()
                    && final(self).phase() == Phase::Persisting && final(self).write_error() == Some(e),
            }),
    {
        let n = self.outcomes.len();
        assert(self.pos < n);
        match result {
            Ok(t) => {
                let path = match &self.outcomes[self.pos] {
                    Ok(o) => o.location.clone(),
                    Err(_) => String::new(),
                };
                self.record.log(path, t);
                let ghost old_log = self.log@;
                self.log = Ghost(self.log@.push((path@, t)));
                proof {
                    assert(self.log@.drop_last() == old_log);
                    let s = successes_before(self.outcomes@, self.pos as int);
                    assert(successes_before(self.outcomes@, self.pos + 1) == s.push(path@));
                    assert forall|i: int| 0 <= i < self.log@.len() implies
                        (#[trigger] self.log@[i]).0 == s.push(path@)[i] by {
                        if i < old_log.len() {
                            assert(self.log@[i] == old_log[i]);
                        }
                    }
                }
                self.pos = self.pos + 1;
                self.phase = Phase::Writing;
            },
            Err(e) => {
                self.write_error = Some(e);
                self.phase = Phase::Persisting;
            },
        }
    }

    /// The run's result, once the record was persisted with outcome
    /// `persisted`: a failed persist, else a failed write, else the verdict
    /// on the compilation failures.
    pub fn finish(self, persisted: Result<(), Error>) -> (r: Result<(), Error>)
        requires
            self.wf(),
            self.phase() == Phase::Reporting,
        ensures
            persisted matches Err(e) ==> r == Err::<(), Error>(e),
            persisted is Ok ==> (self.write_error() matches Some(e) ==> r == Err::<(), Error>(e)),
            persisted is Ok && self.write_error() is None ==> (
                ((self.terminates() && failures_of(self.outcomes()).len() > 0) ==> (r matches Err(Error::BatchError(v))
                    && v@ == failures_of(self.outcomes())))
                && (!(self.terminates() && failures_of(self.outcomes()).len() > 0) ==> r is Ok)),
    {
        match persisted {
            Err(e) => Err(e),
            Ok(()) => match self.write_error {
                Some(e) => Err(e),
                None => run_verdict(self.outcomes, self.terminates),
            },
        }
    }
}

} // verus!
