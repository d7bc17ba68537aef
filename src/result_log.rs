//! The record of a run: the best ant of each iteration, in order, with the
//! position of the best one so far.

use crate::ant::Ant;
use core::time::Duration;
use vstd::prelude::*;

verus! {

/// The best ant of one iteration, when it was found, and whether it beat
/// every ant recorded before it.
#[derive(Debug)]
pub struct TimestampedResult {
    pub result: Ant,
    pub iteration: usize,
    pub timestamp: Duration,
    pub is_new_best: bool,
}

impl TimestampedResult {
    pub fn new(result: Ant, iteration: usize, timestamp: Duration, is_new_best: bool) -> (r: Self)
        ensures
            r.result == result,
            r.iteration == iteration,
            r.timestamp == timestamp,
            r.is_new_best == is_new_best,
    {
        TimestampedResult { result, iteration, timestamp, is_new_best }
    }

    pub fn length(&self) -> (r: u32)
        ensures
            r == self.result.length,
    {
        self.result.length
    }
}

/// The entries of a run in the order they were pushed, and the index of the
/// best one.
#[derive(Debug)]
pub struct ResultLog {
    pub log: Vec<TimestampedResult>,
    pub best_so_far: usize,
}

impl ResultLog {
    /// The length of the ant of entry `k`.
    pub open spec fn entry_length(&self, k: int) -> int {
        self.log@[k].result.length as int
    }

    /// An entry is flagged as a new best exactly when it is the first one or
    /// shorter than every entry before it; `best_so_far` is the last flagged
    /// entry, and no entry is shorter than it.
    pub open spec fn wf(&self) -> bool {
        &&& forall|k: int|
            0 <= k < self.log.len() ==> (#[trigger] self.log@[k]).is_new_best == (k == 0 || forall|
                j: int,
            |
                0 <= j < k ==> self.entry_length(k) < #[trigger] self.entry_length(j))
        &&& self.log.len() == 0 ==> self.best_so_far == 0
        &&& self.log.len() > 0 ==> {
            &&& self.best_so_far < self.log.len()
            &&& self.log@[self.best_so_far as int].is_new_best
            &&& forall|k: int|
                self.best_so_far < k < self.log.len() ==> !(#[trigger] self.log@[k]).is_new_best
            &&& forall|k: int|
                0 <= k < self.log.len() ==> self.entry_length(self.best_so_far as int)
                    <= #[trigger] self.entry_length(k)
        }
    }

    /// The length of the best entry.
    pub open spec fn best_length_spec(&self) -> int {
        self.entry_length(self.best_so_far as int)
    }

    /// An empty log; `max_iters` is the number of entries the run may push.
    pub fn new(max_iters: usize) -> (r: Self)
        ensures
            r.wf(),
            r.log@ == Seq::<TimestampedResult>::empty(),
    {
        let _ = max_iters;
        ResultLog { log: Vec::new(), best_so_far: 0 }
    }

    /// The ant of the last entry.
    pub fn latest_tour(&self) -> (r: &Ant)
        requires
            self.log.len() > 0,
        ensures
            *r == self.log@[self.log.len() - 1].result,
    {
        &self.log[self.log.len() - 1].result
    }

    /// The ant of the best entry.
    pub fn best_tour(&self) -> (r: &Ant)
        requires
            self.wf(),
            self.log.len() > 0,
        ensures
            *r == self.log@[self.best_so_far as int].result,
    {
        &self.log[self.best_so_far].result
    }

    /// The best entry.
    pub fn best_timestamped(&self) -> (r: &TimestampedResult)
        requires
            self.wf(),
            self.log.len() > 0,
        ensures
            *r == self.log@[self.best_so_far as int],
    {
        &self.log[self.best_so_far]
    }

    /// The length of the best entry, the shortest of the log.
    pub fn best_length(&self) -> (r: u32)
        requires
            self.wf(),
            self.log.len() > 0,
        ensures
            r == self.best_length_spec(),
            forall|k: int| 0 <= k < self.log.len() ==> r <= #[trigger] self.entry_length(k),
    {
        self.log[self.best_so_far].length()
    }

    /// Appends the best ant of `iteration`, found at `timestamp` into the
    /// run; it is a new best when the log is empty or it is shorter than the
    /// best entry.
    pub fn push(&mut self, new: Ant, iteration: usize, timestamp: Duration)
        requires
            old(self).wf(),
        ensures
            final(self).wf(),
            final(self).log@ == old(self).log@.push(
                TimestampedResult {
                    result: new,
                    iteration,
                    timestamp,
                    is_new_best: old(self).log.len() == 0 || new.length
                        < old(self).best_length_spec(),
                },
            ),
            final(self).best_so_far == if final(self).log@.last().is_new_best {
                old(self).log.len()
            } else {
                old(self).best_so_far
            },
            old(self).log.len() > 0 ==> final(self).best_length_spec()
                <= old(self).best_length_spec(),
    {
        let is_new_best = self.log.len() == 0 || new.length < self.best_length();
        let timestamped = TimestampedResult::new(new, iteration, timestamp, is_new_best);
        let ghost before = *self;
        self.log.push(timestamped);
        if is_new_best {
            self.best_so_far = self.log.len() - 1;
        }
        proof {
            let n = before.log.len() as int;
            assert(self.log@[n].is_new_best == (n == 0 || forall|j: int|
                0 <= j < n ==> self.entry_length(n) < #[trigger] self.entry_length(j))) by {
                if n > 0 {
                    if !is_new_best {
                        assert(!(self.entry_length(n) < self.entry_length(before.best_so_far as int)));
                    }
                }
            }
            assert forall|k: int| 0 <= k < n implies (#[trigger] self.log@[k]).is_new_best == (k == 0
                || forall|j: int| 0 <= j < k ==> self.entry_length(k) < #[trigger] self.entry_length(j)) by {
                assert(before.log@[k].is_new_best == (k == 0 || forall|j: int|
                    0 <= j < k ==> before.entry_length(k) < #[trigger] before.entry_length(j)));
                assert forall|j: int| 0 <= j < k implies #[trigger] self.entry_length(j) == before.entry_length(j) by {
                    assert(self.log@[j] == before.log@[j]);
                }
                assert(self.log@[k] == before.log@[k]);
                if forall|j: int| 0 <= j < k ==> before.entry_length(k) < #[trigger] before.entry_length(j) {
                    assert forall|j: int| 0 <= j < k implies self.entry_length(k) < #[trigger] self.entry_length(j) by {
                        assert(before.entry_length(k) < before.entry_length(j));
                    }
                } else {
                    let j = choose|j: int| 0 <= j < k && !(before.entry_length(k) < #[trigger] before.entry_length(j));
                    assert(!(self.entry_length(k) < self.entry_length(j)));
                }
            }
            assert forall|k: int| 0 <= k < self.log.len() implies self.entry_length(self.best_so_far as int)
                <= #[trigger] self.entry_length(k) by {
                if k < n && n > 0 {
                    assert(before.entry_length(before.best_so_far as int) <= before.entry_length(k));
                }
            }
        }
    }
}

/// Along a well-formed log, the entries flagged as new bests are strictly
/// shorter than every flagged entry before them.
pub proof fn lemma_new_bests_decrease(log: &ResultLog, a: int, b: int)
    requires
        log.wf(),
        0 <= a < b < log.log.len(),
        log.log@[a].is_new_best,
        log.log@[b].is_new_best,
    ensures
        log.entry_length(b) < log.entry_length(a),
{
}

} // verus!
