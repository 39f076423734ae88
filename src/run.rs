use vstd::prelude::*;

use crate::error::RemapError;

verus! {

/// The progress of a remap run: how many entries the bundle has, how many
/// were processed without error, and the error that ended the run, if any.
pub struct RunView {
    pub total: nat,
    pub done: nat,
    pub failure: Option<RemapError>,
}

/// The position of the entry to process next, if the run goes on.
pub open spec fn next_of(v: RunView) -> Option<nat> {
    if v.failure is None && v.done < v.total {
        Some(v.done)
    } else {
        None
    }
}

/// The run after the current entry was processed with `result`.
pub open spec fn step(v: RunView, result: Result<(), RemapError>) -> RunView {
    match result {
        Ok(()) => RunView { done: v.done + 1, ..v },
        Err(e) => RunView { failure: Some(e), ..v },
    }
}

/// What a run reports to its caller.
pub open spec fn outcome_of(v: RunView) -> Result<(), RemapError> {
    match v.failure {
        Some(e) => Err(e),
        None => Ok(()),
    }
}

/// The run after its entries were processed, one result each, for as long
/// as it asks for another entry.
pub open spec fn drive(v: RunView, results: Seq<Result<(), RemapError>>) -> RunView
    decreases results.len(),
{
    if results.len() == 0 || next_of(v) is None {
        v
    } else {
        drive(step(v, results[0]), results.drop_first())
    }
}

/// One remap run over a bundle, taken in bundle order. The program that does
/// the filesystem work asks for the next entry, processes it, and reports
/// how that went; the first failure ends the run.
pub struct RemapRun {
    total: usize,
    done: usize,
    failure: Option<RemapError>,
}

impl View for RemapRun {
    type V = RunView;

    closed spec fn view(&self) -> RunView {
        RunView { total: self.total as nat, done: self.done as nat, failure: self.failure }
    }
}

impl RemapRun {
    pub closed spec fn wf(&self) -> bool {
        self.done <= self.total
    }

    /// A run over `total` entries, none processed yet.
    pub fn new(total: usize) -> (r: Self)
        ensures
            r.wf(),
            r@ == (RunView { total: total as nat, done: 0, failure: None }),
    {
        RemapRun { total, done: 0, failure: None }
    }

    /// The position of the entry to process next: none once every entry is
    /// done or an entry has failed.
    pub fn next_entry(&self) -> (r: Option<usize>)
        requires
            self.wf(),
        ensures
            match r {
                Some(i) => next_of(self@) == Some(i as nat),
                None => next_of(self@) is None,
            },
    {
        if self.failure.is_none() && self.done < self.total {
            Some(self.done)
        } else {
            None
        }
    }

    /// Records how processing the entry that `next_entry` gave went.
    pub fn finish_entry(&mut self, result: Result<(), RemapError>)
        requires
            old(self).wf(),
            next_of(old(self)@) is Some,
        ensures
            final(self).wf(),
            final(self)@ == step(old(self)@, result),
    {
        match result {
            Ok(()) => self.done = self.done + 1,
            Err(e) => self.failure = Some(e),
        }
    }

    /// How the run ended: the error that stopped it, or success.
    pub fn outcome(self) -> (r: Result<(), RemapError>)
        ensures
            r == outcome_of(self@),
    {
        match self.failure {
            Some(e) => Err(e),
            None => Ok(()),
        }
    }
}

/// When the entry at position `v.done + j` is the first to fail, the run
/// stops there: the entries after it are never processed, and the run ends
/// with that entry's error.
pub proof fn lemma_first_failure_halts(
    v: RunView,
    results: Seq<Result<(), RemapError>>,
    j: int,
)
    requires
        v.failure is None,
        0 <= j < results.len(),
        v.done + j < v.total,
        forall|i: int| 0 <= i < j ==> results[i] is Ok,
        results[j] is Err,
    ensures
        drive(v, results).done == v.done + j,
        next_of(drive(v, results)) is None,
        outcome_of(drive(v, results)) == Err::<(), RemapError>(results[j]->Err_0),
    decreases j,
{
    if j > 0 {
        let rest = results.drop_first();
        assert forall|i: int| 0 <= i < j - 1 implies rest[i] is Ok by {
            assert(rest[i] == results[i + 1]);
        }
        lemma_first_failure_halts(step(v, results[0]), rest, j - 1);
    } else {
        let w = step(v, results[0]);
        assert(next_of(w) is None);
        assert(drive(w, results.drop_first()) == w);
    }
}

/// When no entry fails, the run processes every entry and succeeds.
pub proof fn lemma_all_ok_completes(v: RunView, results: Seq<Result<(), RemapError>>)
    requires
        v.failure is None,
        v.done + results.len() == v.total,
        forall|i: int| 0 <= i < results.len() ==> results[i] is Ok,
    ensures
        drive(v, results).done == v.total,
        outcome_of(drive(v, results)) is Ok,
    decreases results.len(),
{
    if results.len() > 0 {
        let rest = results.drop_first();
        assert forall|i: int| 0 <= i < rest.len() implies rest[i] is Ok by {
            assert(rest[i] == results[i + 1]);
        }
        lemma_all_ok_completes(step(v, results[0]), rest);
    }
}

} // verus!
