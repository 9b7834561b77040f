//! The randomized greedy construction heuristic (parameter `k >= 1`).
//!
//! The seeding phase is identical to the deterministic heuristic.  In the
//! growth phase the solver collects the best `min(k, number of candidates)`
//! moves by completion-time increment and chooses uniformly at random among
//! them, drawing from its own seeded generator.  With `k == 1` the choice
//! degenerates to the deterministic heuristic's move, so the solver is
//! proved to return exactly the deterministic greedy solution in that case.

use crate::greedy_solver::{
    building, count_true, greedy_rows, grow_state, lemma_building_done, lemma_count_true_all,
    make_unassigned, step_state, GreedySolver, NewTask,
};
use crate::problem_instance::ProblemInstance;
use crate::problem_solution::ProblemSolution;
use crate::rng::Prng;
use crate::ConfigurationError;
use vstd::prelude::*;

verus! {

/// The default seed for solvers constructed without an explicit one.
pub const DEFAULT_SEED: u64 = 0x5eed;

/// Whether (`mi`, `t`, `p`) names a growth move open to the construction:
/// insert the unassigned task `t` at position `p` of machine `mi`.
pub open spec fn open_move(
    inst: ProblemInstance,
    rows: Seq<Seq<usize>>,
    asg: Seq<bool>,
    mi: int,
    t: int,
    p: int,
) -> bool {
    &&& 0 <= mi < rows.len()
    &&& 0 <= t < inst.n()
    &&& t < asg.len()
    &&& !asg[t]
    &&& 0 <= p <= rows[mi].len()
}

/// The completion-time increment of a growth move.
pub open spec fn open_move_cost(
    inst: ProblemInstance,
    rows: Seq<Seq<usize>>,
    mi: int,
    t: int,
    p: int,
) -> int {
    crate::greedy_solver::ins_tct(inst, rows[mi], t, p) - inst.seq_tct(rows[mi])
}

/// The candidate list is ordered by nondecreasing completion-time
/// increment.
pub open spec fn sorted_by_cost(cands: Seq<NewTask>) -> bool {
    forall|i: int, j: int|
        #![trigger cands[i], cands[j]]
        0 <= i <= j < cands.len() ==> cands[i].cost <= cands[j].cost
}

/// The candidate list holds an entry for the move (`mi`, `t`, `p`).
pub open spec fn lists_move(cands: Seq<NewTask>, mi: int, t: int, p: int) -> bool {
    exists|i: int|
        0 <= i < cands.len() && (#[trigger] cands[i]).machine == mi && cands[i].task == t
            && cands[i].position == p
}

/// Every move listed in `cands0` is still listed in `cands1`, or its
/// completion-time increment is no smaller than `cands1`'s most expensive
/// entry (it was priced out of a full list).
pub(crate) open spec fn keeps_or_prices_out(
    inst: ProblemInstance,
    rows: Seq<Seq<usize>>,
    cands0: Seq<NewTask>,
    cands1: Seq<NewTask>,
) -> bool {
    forall|mi: int, t2: int, p2: int|
        lists_move(cands0, mi, t2, p2) ==> lists_move(cands1, mi, t2, p2)
            || #[trigger] open_move_cost(inst, rows, mi, t2, p2) >= cands1.last().cost as int
}

/// Every move listed in `cands0` is still listed in `cands1`.
pub(crate) open spec fn keeps_all(cands0: Seq<NewTask>, cands1: Seq<NewTask>) -> bool {
    forall|mi: int, t2: int, p2: int|
        #[trigger] lists_move(cands0, mi, t2, p2) ==> lists_move(cands1, mi, t2, p2)
}

/// Every open move of `machine` scanned strictly before (`ct`, `cp`) is
/// listed or priced out.
pub(crate) open spec fn covers_machine_prefix(
    inst: ProblemInstance,
    rows: Seq<Seq<usize>>,
    asg: Seq<bool>,
    cands: Seq<NewTask>,
    machine: int,
    ct: int,
    cp: int,
) -> bool {
    forall|t2: int, p2: int|
        open_move(inst, rows, asg, machine, t2, p2) && (t2 < ct || (t2 == ct && p2 < cp))
            ==> lists_move(cands, machine, t2, p2) || #[trigger] open_move_cost(
            inst,
            rows,
            machine,
            t2,
            p2,
        ) >= cands.last().cost as int
}

/// Every open move of `machine` scanned strictly before (`ct`, `cp`) is
/// listed.
pub(crate) open spec fn lists_machine_prefix(
    inst: ProblemInstance,
    rows: Seq<Seq<usize>>,
    asg: Seq<bool>,
    cands: Seq<NewTask>,
    machine: int,
    ct: int,
    cp: int,
) -> bool {
    forall|t2: int, p2: int|
        open_move(inst, rows, asg, machine, t2, p2) && (t2 < ct || (t2 == ct && p2 < cp))
            ==> #[trigger] lists_move(cands, machine, t2, p2)
}

/// Every open move of a machine below `cm` is listed or priced out.
pub open spec fn covers_machines_below(
    inst: ProblemInstance,
    rows: Seq<Seq<usize>>,
    asg: Seq<bool>,
    cands: Seq<NewTask>,
    cm: int,
) -> bool {
    forall|mi: int, t2: int, p2: int|
        open_move(inst, rows, asg, mi, t2, p2) && mi < cm ==> lists_move(cands, mi, t2, p2)
            || #[trigger] open_move_cost(inst, rows, mi, t2, p2) >= cands.last().cost as int
}

/// Every open move of a machine below `cm` is listed.
pub open spec fn lists_machines_below(
    inst: ProblemInstance,
    rows: Seq<Seq<usize>>,
    asg: Seq<bool>,
    cands: Seq<NewTask>,
    cm: int,
) -> bool {
    forall|mi: int, t2: int, p2: int|
        open_move(inst, rows, asg, mi, t2, p2) && mi < cm ==> #[trigger] lists_move(
            cands,
            mi,
            t2,
            p2,
        )
}

/// A greedy solver that, at every growth step, chooses uniformly at random
/// among the `k` cheapest moves.
pub struct RandomizedGreedySolver {
    pub size_to_choose_from: usize,
    pub rng: Prng,
}

impl RandomizedGreedySolver {
    /// Creates a solver with candidate-list size `k`, failing with a
    /// [`ConfigurationError`] exactly when `k == 0`.
    pub fn new(size_to_choose_from: usize) -> (r: Result<Self, ConfigurationError>)
        ensures
            size_to_choose_from >= 1 <==> r is Ok,
            r is Ok ==> r->Ok_0.size_to_choose_from == size_to_choose_from,
    {
        Self::with_seed(size_to_choose_from, DEFAULT_SEED)
    }

    /// Creates a solver with candidate-list size `k` and an explicit
    /// generator seed, failing with a [`ConfigurationError`] exactly when
    /// `k == 0`.
    pub fn with_seed(size_to_choose_from: usize, seed: u64) -> (r: Result<
        Self,
        ConfigurationError,
    >)
        ensures
            size_to_choose_from >= 1 <==> r is Ok,
            r is Ok ==> r->Ok_0.size_to_choose_from == size_to_choose_from
                && r->Ok_0.rng.state == seed,
    {
        if size_to_choose_from == 0 {
            Err(ConfigurationError)
        } else {
            Ok(Self::new_unchecked(size_to_choose_from, seed))
        }
    }

    /// The validated constructor.
    pub(crate) fn new_unchecked(size_to_choose_from: usize, seed: u64) -> (r: Self)
        requires
            size_to_choose_from >= 1,
        ensures
            r.size_to_choose_from == size_to_choose_from,
            r.rng.state == seed,
    {
        RandomizedGreedySolver { size_to_choose_from, rng: Prng::new(seed) }
    }

    /// Builds one stochastic solution.  Whatever the draws, the result is a
    /// well-formed solution (a partition of the tasks with exact caches);
    /// with `k == 1` it is exactly the deterministic greedy solution.  Each
    /// growth step draws from the list [`RandomizedGreedySolver::get_candidates`]
    /// builds, whose contract confines every listed move — hence every
    /// applied move — to the `k` cheapest open moves of that step.
    pub fn solve(&mut self, instance: &ProblemInstance) -> (r: ProblemSolution)
        requires
            instance.wf(),
            instance.fits(),
            old(self).size_to_choose_from >= 1,
        ensures
            r.wf(*instance),
            final(self).size_to_choose_from == old(self).size_to_choose_from,
            old(self).size_to_choose_from == 1 ==> r.rows() == greedy_rows(*instance),
    {
        let n = instance.number_of_tasks();
        let k = self.size_to_choose_from;
        let mut solution = ProblemSolution::empty();
        let mut assigned = make_unassigned(n);
        let mut num_assigned: usize = 0;
        GreedySolver::choose_initial_tasks(&mut solution, instance, &mut assigned, &mut num_assigned);
        while num_assigned < n
            invariant
                instance.wf(),
                instance.fits(),
                n == instance.n(),
                k == self.size_to_choose_from,
                k >= 1,
                building(*instance, solution, assigned@),
                num_assigned == count_true(assigned@),
                num_assigned <= n,
                k == 1 ==> grow_state(*instance, solution.rows(), assigned@, n - num_assigned).0
                    == greedy_rows(*instance),
            decreases n - num_assigned,
        {
            let ghost rows0 = solution.rows();
            let ghost asg0 = assigned@;
            let ghost rem0 = n - num_assigned;
            if k == 1 {
                GreedySolver::add_task(&mut solution, instance, &mut assigned, &mut num_assigned);
                proof {
                    assert(grow_state(*instance, rows0, asg0, rem0) == grow_state(
                        *instance,
                        step_state(*instance, rows0, asg0).0,
                        step_state(*instance, rows0, asg0).1,
                        rem0 - 1,
                    ));
                }
            } else {
                let cands = Self::get_candidates(&solution, instance, &assigned, k);
                let idx = self.rng.next_below(cands.len());
                let nt = cands[idx];
                GreedySolver::apply_valid_move(
                    &mut solution,
                    instance,
                    &mut assigned,
                    &mut num_assigned,
                    &nt,
                );
            }
        }
        proof {
            lemma_building_done(*instance, solution, assigned@);
        }
        solution
    }

    /// Collects the `min(k, number of open moves)` cheapest moves over every
    /// machine, every unassigned task and every insertion position, scanned
    /// in ascending (machine, task, position) order.  The returned list is
    /// ordered by cost, its head is no dearer than any open move, every open
    /// move missing from it costs at least the list's most expensive entry,
    /// and while fewer than `k` moves exist they are all listed — so every
    /// entry, hence every move a draw can apply, is within the `k` cheapest
    /// open moves of the step.
    pub fn get_candidates(
        solution: &ProblemSolution,
        instance: &ProblemInstance,
        assigned: &Vec<bool>,
        k: usize,
    ) -> (r: Vec<NewTask>)
        requires
            instance.wf(),
            instance.fits(),
            building(*instance, *solution, assigned@),
            count_true(assigned@) < instance.n(),
            k >= 1,
        ensures
            1 <= r@.len() <= k,
            sorted_by_cost(r@),
            forall|i: int|
                0 <= i < r@.len() ==> #[trigger] r@[i].valid(
                    *instance,
                    solution.rows(),
                    assigned@,
                ),
            forall|mi: int, t: int, p: int|
                open_move(*instance, solution.rows(), assigned@, mi, t, p) ==> r@[0].cost as int
                    <= #[trigger] open_move_cost(*instance, solution.rows(), mi, t, p),
            covers_machines_below(*instance, solution.rows(), assigned@, r@, instance.m()),
            r@.len() == k || lists_machines_below(
                *instance,
                solution.rows(),
                assigned@,
                r@,
                instance.m(),
            ),
    {
        let m = instance.number_of_machines();
        let n = instance.number_of_tasks();
        proof {
            crate::greedy_solver::lemma_count_true_le(assigned@);
            if forall|i: int| 0 <= i < assigned@.len() ==> assigned@[i] {
                lemma_count_true_all(assigned@);
                assert(false);
            }
        }
        let mut cands: Vec<NewTask> = Vec::new();
        let mut machine: usize = 0;
        while machine < m
            invariant
                instance.wf(),
                instance.fits(),
                building(*instance, *solution, assigned@),
                count_true(assigned@) < instance.n(),
                k >= 1,
                m == instance.m(),
                n == instance.n(),
                machine <= m,
                cands@.len() <= k,
                sorted_by_cost(cands@),
                forall|i: int|
                    0 <= i < cands@.len() ==> #[trigger] cands@[i].valid(
                        *instance,
                        solution.rows(),
                        assigned@,
                    ),
                machine >= 1 ==> cands@.len() >= 1,
                forall|mi: int, t: int, p: int|
                    open_move(*instance, solution.rows(), assigned@, mi, t, p) && mi
                        < machine as int ==> cands@[0].cost as int <= #[trigger] open_move_cost(
                        *instance,
                        solution.rows(),
                        mi,
                        t,
                        p,
                    ),
                covers_machines_below(*instance, solution.rows(), assigned@, cands@, machine as int),
                cands@.len() < k ==> lists_machines_below(
                    *instance,
                    solution.rows(),
                    assigned@,
                    cands@,
                    machine as int,
                ),
            decreases m - machine,
        {
            let ghost head0 = cands@;
            Self::collect_for_machine(solution, instance, assigned, machine, k, &mut cands);
            proof {
                if cands@.len() < k {
                    assert(head0.len() < k);
                    assert forall|mi: int, t2: int, p2: int|
                        open_move(*instance, solution.rows(), assigned@, mi, t2, p2) && mi
                            < machine as int + 1 implies #[trigger] lists_move(
                        cands@,
                        mi,
                        t2,
                        p2,
                    ) by {
                        if mi < machine as int {
                            assert(lists_move(head0, mi, t2, p2));
                            assert(lists_move(cands@, mi, t2, p2));
                        } else {
                            assert(lists_move(cands@, machine as int, t2, p2));
                        }
                    }
                }
            }
            machine = machine + 1;
        }
        proof {
            assert(m >= 1);
        }
        cands
    }

    /// Scans one machine's tasks and positions, keeping the candidate list
    /// at the `k` cheapest moves seen so far.
    fn collect_for_machine(
        solution: &ProblemSolution,
        instance: &ProblemInstance,
        assigned: &Vec<bool>,
        machine: usize,
        k: usize,
        cands: &mut Vec<NewTask>,
    )
        requires
            instance.wf(),
            instance.fits(),
            building(*instance, *solution, assigned@),
            count_true(assigned@) < instance.n(),
            (machine as int) < instance.m(),
            k >= 1,
            old(cands)@.len() <= k,
            sorted_by_cost(old(cands)@),
            forall|i: int|
                0 <= i < old(cands)@.len() ==> #[trigger] old(cands)@[i].valid(
                    *instance,
                    solution.rows(),
                    assigned@,
                ),
        ensures
            1 <= final(cands)@.len() <= k,
            final(cands)@.len() >= old(cands)@.len(),
            sorted_by_cost(final(cands)@),
            forall|i: int|
                0 <= i < final(cands)@.len() ==> #[trigger] final(cands)@[i].valid(
                    *instance,
                    solution.rows(),
                    assigned@,
                ),
            old(cands)@.len() >= 1 ==> final(cands)@[0].cost <= old(cands)@[0].cost,
            forall|t: int, p: int|
                open_move(*instance, solution.rows(), assigned@, machine as int, t, p)
                    ==> final(cands)@[0].cost as int <= #[trigger] open_move_cost(
                    *instance,
                    solution.rows(),
                    machine as int,
                    t,
                    p,
                ),
            old(cands)@.len() == k ==> final(cands)@.last().cost <= old(cands)@.last().cost,
            keeps_or_prices_out(*instance, solution.rows(), old(cands)@, final(cands)@),
            final(cands)@.len() < k ==> keeps_all(old(cands)@, final(cands)@),
            covers_machine_prefix(
                *instance,
                solution.rows(),
                assigned@,
                final(cands)@,
                machine as int,
                instance.n(),
                0,
            ),
            final(cands)@.len() < k ==> lists_machine_prefix(
                *instance,
                solution.rows(),
                assigned@,
                final(cands)@,
                machine as int,
                instance.n(),
                0,
            ),
    {
        let ghost row = solution.rows()[machine as int];
        proof {
            crate::problem_solution::lemma_row_len_le_total(solution.rows(), machine as int);
            crate::greedy_solver::lemma_count_true_le(assigned@);
            if forall|i: int| 0 <= i < assigned@.len() ==> assigned@[i] {
                lemma_count_true_all(assigned@);
                assert(false);
            }
        }
        let n = instance.number_of_tasks();
        let base = solution.tcts_by_machine[machine];
        let row_len = solution.task_assignment_matrix[machine].len();
        let mut t: usize = 0;
        while t < n
            invariant
                instance.wf(),
                instance.fits(),
                building(*instance, *solution, assigned@),
                count_true(assigned@) < instance.n(),
                (machine as int) < instance.m(),
                row == solution.rows()[machine as int],
                row.len() < instance.n(),
                row_len == row.len(),
                base == solution.tcts()[machine as int],
                k >= 1,
                n == instance.n(),
                t <= n,
                cands@.len() <= k,
                sorted_by_cost(cands@),
                forall|i: int|
                    0 <= i < cands@.len() ==> #[trigger] cands@[i].valid(
                        *instance,
                        solution.rows(),
                        assigned@,
                    ),
                old(cands)@.len() >= 1 ==> cands@.len() >= 1 && cands@[0].cost <= old(cands)@[0].cost,
                (exists|j: int| 0 <= j < t && !assigned@[j]) ==> cands@.len() >= 1,
                forall|t2: int, p2: int|
                    open_move(*instance, solution.rows(), assigned@, machine as int, t2, p2) && t2
                        < t as int ==> cands@[0].cost as int <= #[trigger] open_move_cost(
                        *instance,
                        solution.rows(),
                        machine as int,
                        t2,
                        p2,
                    ),
                cands@.len() >= old(cands)@.len(),
                old(cands)@.len() == k ==> cands@.last().cost <= old(cands)@.last().cost,
                keeps_or_prices_out(*instance, solution.rows(), old(cands)@, cands@),
                cands@.len() < k ==> keeps_all(old(cands)@, cands@),
                covers_machine_prefix(
                    *instance,
                    solution.rows(),
                    assigned@,
                    cands@,
                    machine as int,
                    t as int,
                    0,
                ),
                cands@.len() < k ==> lists_machine_prefix(
                    *instance,
                    solution.rows(),
                    assigned@,
                    cands@,
                    machine as int,
                    t as int,
                    0,
                ),
            decreases n - t,
        {
            if !assigned[t] {
                let mut p: usize = 0;
                while p <= row_len
                    invariant
                        instance.wf(),
                        instance.fits(),
                        building(*instance, *solution, assigned@),
                        count_true(assigned@) < instance.n(),
                        (machine as int) < instance.m(),
                        row == solution.rows()[machine as int],
                        row.len() < instance.n(),
                        row_len == row.len(),
                        base == solution.tcts()[machine as int],
                        k >= 1,
                        n == instance.n(),
                        (t as int) < instance.n(),
                        !assigned@[t as int],
                        p <= row_len + 1,
                        cands@.len() <= k,
                        sorted_by_cost(cands@),
                        forall|i: int|
                            0 <= i < cands@.len() ==> #[trigger] cands@[i].valid(
                                *instance,
                                solution.rows(),
                                assigned@,
                            ),
                        p >= 1 ==> cands@.len() >= 1,
                        (exists|j: int| 0 <= j < t && !assigned@[j]) ==> cands@.len() >= 1,
                        old(cands)@.len() >= 1 ==> cands@.len() >= 1 && cands@[0].cost <= old(
                            cands,
                        )@[0].cost,
                        cands@.len() >= old(cands)@.len(),
                        old(cands)@.len() == k ==> cands@.last().cost <= old(cands)@.last().cost,
                        keeps_or_prices_out(*instance, solution.rows(), old(cands)@, cands@),
                        cands@.len() < k ==> keeps_all(old(cands)@, cands@),
                        covers_machine_prefix(
                            *instance,
                            solution.rows(),
                            assigned@,
                            cands@,
                            machine as int,
                            t as int,
                            p as int,
                        ),
                        cands@.len() < k ==> lists_machine_prefix(
                            *instance,
                            solution.rows(),
                            assigned@,
                            cands@,
                            machine as int,
                            t as int,
                            p as int,
                        ),
                        forall|t2: int, p2: int|
                            open_move(*instance, solution.rows(), assigned@, machine as int, t2, p2)
                                && (t2 < t as int || (t2 == t as int && p2 < p as int))
                                ==> cands@[0].cost as int <= #[trigger] open_move_cost(
                                *instance,
                                solution.rows(),
                                machine as int,
                                t2,
                                p2,
                            ),
                    decreases row_len + 1 - p,
                {
                    let tct = GreedySolver::eval_insertion(
                        instance,
                        &solution.task_assignment_matrix[machine],
                        p,
                        t,
                        Ghost(row),
                    );
                    let nt = NewTask {
                        machine,
                        task: t,
                        position: p,
                        new_tct: tct,
                        cost: tct as i128 - base as i128,
                    };
                    let ghost pre = cands@;
                    Self::insert_candidate(cands, nt, k, instance, Ghost(solution.rows()), Ghost(assigned@));
                    proof {
                        assert(nt.cost as int == open_move_cost(
                            *instance,
                            solution.rows(),
                            machine as int,
                            t as int,
                            p as int,
                        ));
                        assert forall|t2: int, p2: int|
                            open_move(*instance, solution.rows(), assigned@, machine as int, t2, p2)
                                && (t2 < t as int || (t2 == t as int && p2 < p as int
                                + 1)) implies cands@[0].cost as int <= #[trigger] open_move_cost(
                            *instance,
                            solution.rows(),
                            machine as int,
                            t2,
                            p2,
                        ) by {
                            if t2 == t as int && p2 == p as int {
                            } else {
                                if t2 < t as int {
                                    assert(!assigned@[t2]);
                                    assert(exists|j: int| 0 <= j < t && !assigned@[j]);
                                }
                                assert(pre.len() >= 1);
                                assert(cands@[0].cost <= pre[0].cost);
                            }
                        }
                        // A move listed at function entry is still listed or
                        // was priced out of a full list.
                        assert forall|mi: int, t2: int, p2: int|
                            lists_move(old(cands)@, mi, t2, p2) implies lists_move(
                            cands@,
                            mi,
                            t2,
                            p2,
                        ) || #[trigger] open_move_cost(*instance, solution.rows(), mi, t2, p2)
                            >= cands@.last().cost as int by {
                            if lists_move(pre, mi, t2, p2) {
                                if !lists_move(cands@, mi, t2, p2) {
                                    let j = choose|j: int|
                                        0 <= j < pre.len() && (#[trigger] pre[j]).machine == mi
                                            && pre[j].task == t2 && pre[j].position == p2;
                                    assert(pre[j].valid(*instance, solution.rows(), assigned@));
                                    assert(pre[j].cost as int == open_move_cost(
                                        *instance,
                                        solution.rows(),
                                        mi,
                                        t2,
                                        p2,
                                    ));
                                    assert(pre[j].cost >= cands@.last().cost);
                                }
                            } else {
                                if pre.len() < k {
                                    assert(lists_move(pre, mi, t2, p2));
                                }
                                assert(pre.len() == k);
                                assert(cands@.last().cost <= pre.last().cost);
                            }
                        }
                        // The machine prefix scanned so far, now including
                        // the move just evaluated, is listed or priced out.
                        assert forall|t2: int, p2: int|
                            open_move(*instance, solution.rows(), assigned@, machine as int, t2, p2)
                                && (t2 < t as int || (t2 == t as int && p2 < p as int
                                + 1)) implies lists_move(cands@, machine as int, t2, p2)
                            || #[trigger] open_move_cost(
                            *instance,
                            solution.rows(),
                            machine as int,
                            t2,
                            p2,
                        ) >= cands@.last().cost as int by {
                            if t2 == t as int && p2 == p as int {
                                assert(nt.machine == machine && nt.task == t && nt.position == p);
                            } else {
                                if !lists_move(pre, machine as int, t2, p2) {
                                    if pre.len() < k {
                                        assert(lists_move(pre, machine as int, t2, p2));
                                    }
                                    assert(cands@.last().cost <= pre.last().cost);
                                } else if !lists_move(cands@, machine as int, t2, p2) {
                                    let j = choose|j: int|
                                        0 <= j < pre.len() && (#[trigger] pre[j]).machine
                                            == machine as int && pre[j].task == t2 && pre[j].position
                                            == p2;
                                    assert(pre[j].valid(*instance, solution.rows(), assigned@));
                                    assert(pre[j].cost as int == open_move_cost(
                                        *instance,
                                        solution.rows(),
                                        machine as int,
                                        t2,
                                        p2,
                                    ));
                                    assert(pre[j].cost >= cands@.last().cost);
                                }
                            }
                        }
                        // While the list is not full nothing has been
                        // dropped: everything scanned is listed.
                        if cands@.len() < k {
                            assert(pre.len() < k);
                            assert forall|t2: int, p2: int|
                                open_move(
                                    *instance,
                                    solution.rows(),
                                    assigned@,
                                    machine as int,
                                    t2,
                                    p2,
                                ) && (t2 < t as int || (t2 == t as int && p2 < p as int
                                    + 1)) implies #[trigger] lists_move(
                                cands@,
                                machine as int,
                                t2,
                                p2,
                            ) by {
                                if t2 == t as int && p2 == p as int {
                                    assert(nt.machine == machine && nt.task == t && nt.position
                                        == p);
                                } else {
                                    assert(lists_move(pre, machine as int, t2, p2));
                                    let j = choose|j: int|
                                        0 <= j < pre.len() && (#[trigger] pre[j]).machine
                                            == machine as int && pre[j].task == t2 && pre[j].position
                                            == p2;
                                    assert(lists_move(cands@, machine as int, t2, p2));
                                }
                            }
                        }
                    }
                    p = p + 1;
                }
            }
            t = t + 1;
        }
    }

    /// Inserts a move into the cost-ordered candidate list (after any moves
    /// of equal cost, so earlier-scanned moves win ties) and drops the most
    /// expensive overflow beyond `k`.
    fn insert_candidate(
        cands: &mut Vec<NewTask>,
        nt: NewTask,
        k: usize,
        instance: &ProblemInstance,
        rows: Ghost<Seq<Seq<usize>>>,
        asg: Ghost<Seq<bool>>,
    )
        requires
            k >= 1,
            old(cands)@.len() <= k,
            nt.valid(*instance, rows@, asg@),
            sorted_by_cost(old(cands)@),
            forall|i: int|
                0 <= i < old(cands)@.len() ==> #[trigger] old(cands)@[i].valid(
                    *instance,
                    rows@,
                    asg@,
                ),
        ensures
            1 <= final(cands)@.len() <= k,
            final(cands)@.len() == if old(cands)@.len() < k {
                old(cands)@.len() as int + 1
            } else {
                k as int
            },
            sorted_by_cost(final(cands)@),
            forall|i: int|
                0 <= i < final(cands)@.len() ==> #[trigger] final(cands)@[i].valid(
                    *instance,
                    rows@,
                    asg@,
                ),
            final(cands)@[0].cost <= nt.cost,
            old(cands)@.len() >= 1 ==> final(cands)@[0].cost <= old(cands)@[0].cost,
            old(cands)@.len() == k ==> final(cands)@.last().cost <= old(cands)@.last().cost,
            lists_move(final(cands)@, nt.machine as int, nt.task as int, nt.position as int)
                || nt.cost >= final(cands)@.last().cost,
            forall|j: int|
                0 <= j < old(cands)@.len() ==> lists_move(
                    final(cands)@,
                    (#[trigger] old(cands)@[j]).machine as int,
                    old(cands)@[j].task as int,
                    old(cands)@[j].position as int,
                ) || old(cands)@[j].cost >= final(cands)@.last().cost,
            old(cands)@.len() < k ==> lists_move(
                final(cands)@,
                nt.machine as int,
                nt.task as int,
                nt.position as int,
            ) && (forall|j: int|
                0 <= j < old(cands)@.len() ==> lists_move(
                    final(cands)@,
                    (#[trigger] old(cands)@[j]).machine as int,
                    old(cands)@[j].task as int,
                    old(cands)@[j].position as int,
                )),
    {
        let len = cands.len();
        let ghost c0 = cands@;
        let mut at: usize = 0;
        while at < len && cands[at].cost <= nt.cost
            invariant
                at <= len,
                len == cands@.len(),
                cands@ == c0,
                forall|j: int| 0 <= j < at ==> (#[trigger] c0[j]).cost <= nt.cost,
            decreases len - at,
        {
            at = at + 1;
        }
        cands.insert(at, nt);
        let ghost ins = cands@;
        proof {
            c0.insert_ensures(at as int, nt);
            assert forall|i: int| 0 <= i < ins.len() implies #[trigger] ins[i].valid(
                *instance,
                rows@,
                asg@,
            ) by {
                if i < at as int {
                    assert(ins[i] == c0[i]);
                } else if i == at as int {
                    assert(ins[i] == nt);
                } else {
                    assert(ins[i] == c0[i - 1]);
                }
            }
            assert forall|i: int, j: int|
                #![trigger ins[i], ins[j]]
                0 <= i <= j < ins.len() implies ins[i].cost <= ins[j].cost by {
                if i < at as int {
                    assert(ins[i] == c0[i]);
                }
                if j < at as int {
                    assert(ins[j] == c0[j]);
                }
                if i > at as int {
                    assert(ins[i] == c0[i - 1]);
                }
                if j > at as int {
                    assert(ins[j] == c0[j - 1]);
                }
                if (at as int) < len as int {
                    assert(c0[at as int].cost > nt.cost);
                    assert(c0[at as int] == c0[at as int]);
                }
            }
            // Every earlier entry and the newcomer sit somewhere in `ins`.
            assert(ins[at as int] == nt);
            assert forall|j: int| 0 <= j < c0.len() implies lists_move(
                ins,
                (#[trigger] c0[j]).machine as int,
                c0[j].task as int,
                c0[j].position as int,
            ) by {
                if j < at as int {
                    assert(ins[j] == c0[j]);
                } else {
                    assert(ins[j + 1] == c0[j]);
                }
            }
            assert(lists_move(ins, nt.machine as int, nt.task as int, nt.position as int));
        }
        if cands.len() > k {
            cands.truncate(k);
            proof {
                let fin = cands@;
                assert(fin == ins.subrange(0, k as int));
                assert(fin.last() == ins[k as int - 1]);
                assert(ins[k as int - 1].cost <= ins[k as int].cost);
                // An entry of `ins` is either kept at its index or is the
                // dropped maximum, whose cost the new last cannot exceed.
                assert forall|j: int| 0 <= j < c0.len() implies lists_move(
                    fin,
                    (#[trigger] c0[j]).machine as int,
                    c0[j].task as int,
                    c0[j].position as int,
                ) || c0[j].cost >= fin.last().cost by {
                    let idx: int = if j < at as int {
                        j
                    } else {
                        j + 1
                    };
                    assert(ins[idx] == c0[j]);
                    if idx < k as int {
                        assert(fin[idx] == c0[j]);
                    } else {
                        assert(idx == k as int);
                        assert(c0[j].cost >= ins[k as int - 1].cost);
                    }
                }
                if (at as int) < k as int {
                    assert(fin[at as int] == nt);
                } else {
                    assert(at as int == k as int);
                    assert(nt.cost >= ins[k as int - 1].cost);
                }
            }
        }
    }
}

} // verus!
