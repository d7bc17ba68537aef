//! The decisions of the loop that runs a colony: when it stops, and when a
//! Min-Max Ant System colony restarts its trails.

use crate::ant::Ant;
use vstd::prelude::*;

verus! {

/// Iterations without a better iteration-best ant after which the trails
/// of a Min-Max Ant System colony are reset.
pub const RESTART_WINDOW: usize = 150;

/// Every this many iterations the restart ant, not the iteration-best one,
/// reinforces the trails.
pub const RESTART_ANT_PERIOD: usize = 25;

/// A run stops once `max_iterations` iterations are done or `time_limit`
/// seconds have passed.
pub open spec fn run_stops(iteration: int, max_iterations: int, elapsed_secs: int, time_limit: int) -> bool {
    iteration >= max_iterations || elapsed_secs >= time_limit
}

/// Whether a run that has done `iteration` iterations in `elapsed_secs`
/// seconds stops.
pub fn check_termination(iteration: usize, max_iterations: usize, elapsed_secs: u64, time_limit: usize) -> (r: bool)
    ensures
        r == run_stops(iteration as int, max_iterations as int, elapsed_secs as int, time_limit as int),
{
    iteration >= max_iterations || elapsed_secs >= time_limit as u64
}

/// A run whose iteration counter goes up by one each time round stops
/// after at most `max_iterations` rounds, whatever the time and the random
/// draws: from round `max_iterations` on it stops at every check.
pub proof fn lemma_run_halts(max_iterations: int, iteration: int, elapsed_secs: int, time_limit: int)
    requires
        iteration >= max_iterations,
    ensures
        run_stops(iteration, max_iterations, elapsed_secs, time_limit),
{
}

/// The stagnation bookkeeping of a Min-Max Ant System colony: the best
/// iteration-best ant since the last restart, and the iteration at which it
/// was found (or at which the trails were last reset).
pub struct RestartTracker {
    pub restart_ant: Option<Ant>,
    pub restart_iter: usize,
}

impl RestartTracker {
    pub fn new() -> (r: Self)
        ensures
            r.restart_ant is None,
            r.restart_iter == 1,
    {
        RestartTracker { restart_ant: None, restart_iter: 1 }
    }

    /// At the start of `iteration`: whether the trails are to be reset,
    /// which is when `RESTART_WINDOW` iterations have passed since the
    /// restart ant was found; the restart ant is then dropped.
    pub fn new_iteration(&mut self, iteration: usize) -> (restart: bool)
        ensures
            restart == (iteration >= old(self).restart_iter + RESTART_WINDOW),
            restart ==> final(self).restart_ant is None && final(self).restart_iter == iteration,
            !restart ==> final(self).restart_ant == old(self).restart_ant && final(self).restart_iter
                == old(self).restart_iter,
    {
        if iteration >= self.restart_iter && iteration - self.restart_iter >= RESTART_WINDOW {
            self.restart_ant = None;
            self.restart_iter = iteration;
            true
        } else {
            false
        }
    }

    /// Records the iteration-best ant of `iteration`: it becomes the restart
    /// ant when there is none or it is shorter.
    pub fn record(&mut self, best_this_iter: &Ant, iteration: usize)
        ensures
            ({
                let improves = old(self).restart_ant is None || best_this_iter.length < old(
                    self,
                ).restart_ant->Some_0.length;
                &&& improves ==> {
                    &&& final(self).restart_ant is Some
                    &&& final(self).restart_ant->Some_0.cities() == best_this_iter.cities()
                    &&& final(self).restart_ant->Some_0.length == best_this_iter.length
                    &&& final(self).restart_ant->Some_0.curr_city == best_this_iter.curr_city
                    &&& final(self).restart_iter == iteration
                }
                &&& !improves ==> final(self).restart_ant == old(self).restart_ant
                    && final(self).restart_iter == old(self).restart_iter
            }),
    {
        let improves = match &self.restart_ant {
            None => true,
            Some(a) => best_this_iter.length < a.length,
        };
        if improves {
            self.restart_ant = Some(best_this_iter.clone());
            self.restart_iter = iteration;
        }
    }

    /// The ant whose edges reinforce the trails after `iteration`: every
    /// `RESTART_ANT_PERIOD` iterations the restart ant (or the best so far
    /// when there is none), else the iteration-best ant.
    pub fn ant_to_reinforce<'a>(
        &'a self,
        iteration: usize,
        best_this_iter: &'a Ant,
        best_so_far: &'a Ant,
    ) -> (r: &'a Ant)
        ensures
            iteration % RESTART_ANT_PERIOD != 0 ==> r == best_this_iter,
            iteration % RESTART_ANT_PERIOD == 0 ==> r == match self.restart_ant {
                Some(a) => a,
                None => *best_so_far,
            },
    {
        if iteration % RESTART_ANT_PERIOD == 0 {
            match &self.restart_ant {
                Some(a) => a,
                None => best_so_far,
            }
        } else {
            best_this_iter
        }
    }
}

} // verus!
