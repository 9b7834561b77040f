//! Pluggable continuation decisions for iterative search.
//!
//! A criterion is consulted once after every completed repetition with the
//! best objective observed so far and decides whether the search continues.
//! So that any loop driven by a criterion provably terminates, each
//! criterion exposes a two-part rank that strictly decreases (in
//! lexicographic order) every time it answers "continue".

use crate::ConfigurationError;
use vstd::prelude::*;

verus! {

/// A stop criterion.  `rank1` and `rank2` form a lexicographic termination
/// measure; `ok_input` restricts the objectives the criterion may be asked
/// about (the best-so-far value never increases between consultations); a
/// `fresh` criterion has not been consulted yet.
pub trait StopCriterion: Sized {
    /// The criterion's internal consistency.
    spec fn inv(&self) -> bool;

    /// True until the first consultation.
    spec fn fresh(&self) -> bool;

    /// Which best-so-far values the next consultation accepts.
    spec fn ok_input(&self, best: int) -> bool;

    /// Major component of the termination rank.
    spec fn rank1(&self) -> int;

    /// Minor component of the termination rank.
    spec fn rank2(&self) -> int;

    /// A fresh criterion accepts any initial best value.
    proof fn fresh_ok(&self, best: int)
        requires
            self.fresh(),
        ensures
            self.ok_input(best),
    ;

    /// Records one completed repetition with best objective `best_tct` and
    /// decides whether to continue.  Every "continue" answer after the first
    /// consultation strictly decreases the lexicographic rank, so a search
    /// loop driven by this decision terminates.
    fn should_continue(&mut self, best_tct: usize) -> (r: bool)
        requires
            old(self).inv(),
            old(self).ok_input(best_tct as int),
        ensures
            final(self).inv(),
            !final(self).fresh(),
            forall|b: int| b <= best_tct as int ==> final(self).ok_input(b),
            final(self).rank1() >= 0,
            final(self).rank2() >= 0,
            r && !old(self).fresh() ==> final(self).rank1() < old(self).rank1() || (final(self).rank1()
                == old(self).rank1() && final(self).rank2() < old(self).rank2()),
    ;
}

/// Continue while the number of executed repetitions is below a fixed,
/// positive budget.
pub struct TotalIterations {
    pub iterations: usize,
    pub executed: usize,
}

impl TotalIterations {
    /// Creates the criterion, failing with a [`ConfigurationError`] exactly
    /// when the budget is zero.
    pub fn new(iterations: usize) -> (r: Result<Self, ConfigurationError>)
        ensures
            iterations >= 1 <==> r is Ok,
            r is Ok ==> r->Ok_0.inv() && r->Ok_0.fresh() && r->Ok_0.iterations == iterations,
    {
        if iterations == 0 {
            Err(ConfigurationError)
        } else {
            Ok(TotalIterations { iterations, executed: 0 })
        }
    }
}

impl StopCriterion for TotalIterations {
    open spec fn inv(&self) -> bool {
        self.executed <= self.iterations && self.iterations >= 1
    }

    open spec fn fresh(&self) -> bool {
        self.executed == 0
    }

    open spec fn ok_input(&self, best: int) -> bool {
        true
    }

    open spec fn rank1(&self) -> int {
        0
    }

    open spec fn rank2(&self) -> int {
        self.iterations - self.executed
    }

    proof fn fresh_ok(&self, best: int) {
    }

    fn should_continue(&mut self, best_tct: usize) -> (r: bool)
        ensures
            final(self).iterations == old(self).iterations,
            final(self).executed == if old(self).executed < old(self).iterations {
                old(self).executed + 1
            } else {
                old(self).executed as int
            },
            r <==> final(self).executed < final(self).iterations,
    {
        if self.executed < self.iterations {
            self.executed = self.executed + 1;
        }
        self.executed < self.iterations
    }
}

/// Continue until a positive number of consecutive repetitions have passed
/// without a strict improvement of the best objective; the counter resets to
/// zero on every strict improvement.
pub struct IterationsWithoutChange {
    pub threshold: usize,
    pub counter: usize,
    pub best_seen: Option<usize>,
}

impl IterationsWithoutChange {
    /// Creates the criterion, failing with a [`ConfigurationError`] exactly
    /// when the threshold is zero.
    pub fn new(threshold: usize) -> (r: Result<Self, ConfigurationError>)
        ensures
            threshold >= 1 <==> r is Ok,
            r is Ok ==> r->Ok_0.inv() && r->Ok_0.fresh() && r->Ok_0.threshold == threshold,
    {
        if threshold == 0 {
            Err(ConfigurationError)
        } else {
            Ok(IterationsWithoutChange { threshold, counter: 0, best_seen: None })
        }
    }
}

impl StopCriterion for IterationsWithoutChange {
    open spec fn inv(&self) -> bool {
        &&& self.counter <= self.threshold
        &&& self.threshold >= 1
        &&& self.best_seen is None ==> self.counter == 0
    }

    open spec fn fresh(&self) -> bool {
        self.best_seen is None
    }

    open spec fn ok_input(&self, best: int) -> bool {
        match self.best_seen {
            None => true,
            Some(v) => best <= v as int,
        }
    }

    open spec fn rank1(&self) -> int {
        match self.best_seen {
            None => 0,
            Some(v) => v as int,
        }
    }

    open spec fn rank2(&self) -> int {
        self.threshold - self.counter
    }

    proof fn fresh_ok(&self, best: int) {
    }

    fn should_continue(&mut self, best_tct: usize) -> (r: bool)
        ensures
            final(self).threshold == old(self).threshold,
            old(self).best_seen is None || best_tct < old(self).best_seen->0
                ==> final(self).best_seen == Some(best_tct) && final(self).counter == 0,
            !(old(self).best_seen is None || best_tct < old(self).best_seen->0)
                ==> final(self).best_seen == old(self).best_seen && final(self).counter
                == if old(self).counter < old(self).threshold {
                old(self).counter + 1
            } else {
                old(self).counter as int
            },
            r <==> final(self).counter < final(self).threshold,
    {
        match self.best_seen {
            None => {
                self.best_seen = Some(best_tct);
                self.counter = 0;
            },
            Some(v) => {
                if best_tct < v {
                    self.best_seen = Some(best_tct);
                    self.counter = 0;
                } else {
                    if self.counter < self.threshold {
                        self.counter = self.counter + 1;
                    }
                }
            },
        }
        self.counter < self.threshold
    }
}

} // verus!
