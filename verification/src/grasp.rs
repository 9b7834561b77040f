//! The GRASP metaheuristic: repeatedly build a randomized greedy candidate,
//! improve it with a local-search strategy, and keep the best solution found,
//! until the stop criterion signals stop.

use crate::local_search::LocalSearch;
use crate::problem_instance::ProblemInstance;
use crate::problem_solution::{lemma_total_fits, ProblemSolution};
use crate::randomized_greedy_solver::{RandomizedGreedySolver, DEFAULT_SEED};
use crate::stop_criterion::StopCriterion;
use crate::ConfigurationError;
use vstd::prelude::*;

verus! {

/// The GRASP solver, composed of a randomized greedy constructor with
/// candidate-list size `k`, one local-search strategy, and one stop
/// criterion.
pub struct GRASP<L: LocalSearch, S: StopCriterion> {
    pub size_to_choose_from: usize,
    pub seed: u64,
    pub local_search: L,
    pub stop_criterion: S,
}

impl<L: LocalSearch, S: StopCriterion> GRASP<L, S> {
    /// Creates a GRASP solver, failing with a [`ConfigurationError`] exactly
    /// when `k == 0`.
    pub fn new(size_to_choose_from: usize, local_search: L, stop_criterion: S) -> (r: Result<
        Self,
        ConfigurationError,
    >)
        ensures
            size_to_choose_from >= 1 <==> r is Ok,
            r is Ok ==> r->Ok_0.size_to_choose_from == size_to_choose_from
                && r->Ok_0.local_search == local_search && r->Ok_0.stop_criterion
                == stop_criterion,
    {
        Self::with_seed(size_to_choose_from, DEFAULT_SEED, local_search, stop_criterion)
    }

    /// Creates a GRASP solver with an explicit generator seed, failing with
    /// a [`ConfigurationError`] exactly when `k == 0`.  Fixing the seed makes
    /// the whole search reproducible.
    pub fn with_seed(
        size_to_choose_from: usize,
        seed: u64,
        local_search: L,
        stop_criterion: S,
    ) -> (r: Result<Self, ConfigurationError>)
        ensures
            size_to_choose_from >= 1 <==> r is Ok,
            r is Ok ==> r->Ok_0.size_to_choose_from == size_to_choose_from && r->Ok_0.seed == seed
                && r->Ok_0.local_search == local_search && r->Ok_0.stop_criterion
                == stop_criterion,
    {
        if size_to_choose_from == 0 {
            Err(ConfigurationError)
        } else {
            Ok(GRASP { size_to_choose_from, seed, local_search, stop_criterion })
        }
    }

    /// Runs the search: at least one repetition, then as many more as the
    /// stop criterion allows.  Each repetition builds a randomized candidate,
    /// improves it once with the local-search strategy, and replaces the
    /// best solution only when the candidate's objective is strictly lower —
    /// ties never replace the incumbent.  The result is always a well-formed
    /// solution: a partition of the tasks with exact caches.
    /// [`GRASP::solve_with_candidates`] carries the full contract tying the result
    /// to the candidates the run examined.
    pub fn solve(&mut self, instance: &ProblemInstance) -> (r: ProblemSolution)
        requires
            instance.wf(),
            instance.fits(),
            old(self).size_to_choose_from >= 1,
            old(self).stop_criterion.inv(),
            old(self).stop_criterion.fresh(),
        ensures
            r.wf(*instance),
    {
        let result = self.solve_with_candidates(instance);
        result.0
    }

    /// Runs the search and also returns, as ghost information, the sequence
    /// of improved candidates the repetitions examined.  The returned
    /// solution is the first candidate attaining the minimum objective over
    /// that sequence — ties never replace the incumbent — so its objective
    /// equals [`prefix_min`] over the whole candidate-objective sequence,
    /// which is what [`lemma_budget_monotone`] speaks about.
    pub fn solve_with_candidates(&mut self, instance: &ProblemInstance) -> (r: (
        ProblemSolution,
        Ghost<Seq<ProblemSolution>>,
    ))
        requires
            instance.wf(),
            instance.fits(),
            old(self).size_to_choose_from >= 1,
            old(self).stop_criterion.inv(),
            old(self).stop_criterion.fresh(),
        ensures
            r.0.wf(*instance),
            r.1@.len() >= 1,
            forall|i: int| 0 <= i < r.1@.len() ==> #[trigger] r.1@[i].wf(*instance),
            r.0.total_tct() == prefix_min(objectives_of(r.1@), r.1@.len() as int),
            first_best_of(r.1@, r.0),
    {
        let mut rg = RandomizedGreedySolver::new_unchecked(self.size_to_choose_from, self.seed);
        let first = rg.solve(instance);
        let mut best = self.local_search.improve(instance, first);
        proof {
            lemma_total_fits(*instance, best);
        }
        let mut best_tct = best.get_total_completion_time();
        // The improved candidates examined so far; the incumbent is the
        // first of them attaining their least objective.
        let ghost mut cands: Seq<ProblemSolution> = seq![best];
        let ghost mut bj: int = 0;
        proof {
            assert(objectives_of(cands)[0] == best.total_tct());
            self.stop_criterion.fresh_ok(best_tct as int);
        }
        let go = self.stop_criterion.should_continue(best_tct);
        if go {
            loop
                invariant_except_break
                    instance.wf(),
                    instance.fits(),
                    rg.size_to_choose_from >= 1,
                    best.wf(*instance),
                    best_tct == best.total_tct(),
                    self.stop_criterion.inv(),
                    !self.stop_criterion.fresh(),
                    self.stop_criterion.rank1() >= 0,
                    self.stop_criterion.rank2() >= 0,
                    forall|b: int| b <= best_tct as int ==> self.stop_criterion.ok_input(b),
                    cands.len() >= 1,
                    forall|i: int| 0 <= i < cands.len() ==> #[trigger] cands[i].wf(*instance),
                    0 <= bj < cands.len(),
                    best == cands[bj],
                    best_tct as int == prefix_min(objectives_of(cands), cands.len() as int),
                    forall|i: int| 0 <= i < bj ==> #[trigger] cands[i].total_tct() > best_tct as int,
                ensures
                    best.wf(*instance),
                    cands.len() >= 1,
                    forall|i: int| 0 <= i < cands.len() ==> #[trigger] cands[i].wf(*instance),
                    0 <= bj < cands.len(),
                    best == cands[bj],
                    best_tct == best.total_tct(),
                    best_tct as int == prefix_min(objectives_of(cands), cands.len() as int),
                    forall|i: int| 0 <= i < bj ==> #[trigger] cands[i].total_tct() > best_tct as int,
                decreases self.stop_criterion.rank1(), self.stop_criterion.rank2(),
            {
                let candidate = rg.solve(instance);
                let candidate = self.local_search.improve(instance, candidate);
                proof {
                    lemma_total_fits(*instance, candidate);
                }
                let candidate_tct = candidate.get_total_completion_time();
                proof {
                    lemma_objectives_push(cands, candidate);
                    lemma_prefix_min_push(objectives_of(cands), candidate_tct as int);
                    if candidate_tct < best_tct {
                        assert forall|i: int| 0 <= i < cands.len() implies #[trigger] cands[i].total_tct()
                            > candidate_tct as int by {
                            lemma_prefix_min_le(objectives_of(cands), i, cands.len() as int);
                            assert(objectives_of(cands)[i] == cands[i].total_tct());
                        }
                    }
                    cands = cands.push(candidate);
                }
                if candidate_tct < best_tct {
                    proof {
                        bj = cands.len() - 1;
                    }
                    best = candidate;
                    best_tct = candidate_tct;
                }
                if !self.stop_criterion.should_continue(best_tct) {
                    break ;
                }
            }
        }
        proof {
            assert(first_best_of(cands, best));
        }
        (best, Ghost(cands))
    }
}

/// The least objective among the first `b` entries of a candidate-objective
/// sequence.  [`GRASP::solve_with_candidates`] ensures that the objective it returns
/// equals `prefix_min` over the objectives of all the candidates its run
/// examined.
pub open spec fn prefix_min(objs: Seq<int>, b: int) -> int
    decreases b,
{
    if b <= 1 {
        objs[0]
    } else {
        let rest = prefix_min(objs, b - 1);
        if objs[b - 1] < rest {
            objs[b - 1]
        } else {
            rest
        }
    }
}

/// The objectives of a sequence of candidate solutions.
pub open spec fn objectives_of(cands: Seq<ProblemSolution>) -> Seq<int> {
    Seq::new(cands.len(), |i: int| cands[i].total_tct())
}

/// `r` is the first candidate attaining the least objective of the
/// sequence: every earlier candidate's objective is strictly larger.
pub open spec fn first_best_of(cands: Seq<ProblemSolution>, r: ProblemSolution) -> bool {
    exists|j: int|
        0 <= j < cands.len() && r == #[trigger] cands[j] && r.total_tct() == prefix_min(
            objectives_of(cands),
            cands.len() as int,
        ) && (forall|i: int| 0 <= i < j ==> #[trigger] cands[i].total_tct() > r.total_tct())
}

/// The prefix minimum is a lower bound on every entry of the prefix.
pub proof fn lemma_prefix_min_le(objs: Seq<int>, i: int, b: int)
    requires
        0 <= i < b,
    ensures
        prefix_min(objs, b) <= objs[i],
    decreases b,
{
    if b > 1 && i < b - 1 {
        lemma_prefix_min_le(objs, i, b - 1);
    }
}

pub proof fn lemma_objectives_push(cands: Seq<ProblemSolution>, c: ProblemSolution)
    ensures
        objectives_of(cands.push(c)) == objectives_of(cands).push(c.total_tct()),
{
    assert(objectives_of(cands.push(c)) =~= objectives_of(cands).push(c.total_tct()));
}

/// Appending one more candidate objective turns the running minimum into
/// the minimum of itself and the newcomer: exactly the strict-improvement
/// replacement [`GRASP::solve`] performs.
pub proof fn lemma_prefix_min_push(objs: Seq<int>, x: int)
    requires
        objs.len() >= 1,
    ensures
        prefix_min(objs.push(x), objs.len() as int + 1) == if x < prefix_min(
            objs,
            objs.len() as int,
        ) {
            x
        } else {
            prefix_min(objs, objs.len() as int)
        },
{
    lemma_prefix_min_stable(objs, x, objs.len() as int);
}

/// A prefix minimum does not depend on entries past the prefix.
proof fn lemma_prefix_min_stable(objs: Seq<int>, x: int, b: int)
    requires
        1 <= b <= objs.len(),
    ensures
        prefix_min(objs.push(x), b) == prefix_min(objs, b),
    decreases b,
{
    if b > 1 {
        lemma_prefix_min_stable(objs, x, b - 1);
    }
}

/// The law that a larger iteration budget cannot make GRASP's result worse.
/// For a fixed instance, a fixed `k` and a fixed generator seed, the
/// sequence of candidate objectives that successive repetitions produce is
/// one fixed sequence (the generator is fully specified, and each candidate
/// depends only on the instance and the draws); GRASP under a total-
/// iteration budget `b` returns the least objective among the first `b`
/// candidates, because the incumbent is replaced exactly on strict
/// improvement.  Over that shared sequence, the minimum over a longer prefix
/// is never larger than over a shorter one.
pub proof fn lemma_budget_monotone(objs: Seq<int>, b1: int, b2: int)
    requires
        1 <= b1 <= b2,
    ensures
        prefix_min(objs, b2) <= prefix_min(objs, b1),
    decreases b2,
{
    if b2 > b1 {
        lemma_budget_monotone(objs, b1, b2 - 1);
    }
}

} // verus!
