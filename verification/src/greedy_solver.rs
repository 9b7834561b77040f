//! The deterministic greedy construction heuristic.
//!
//! The heuristic is specified twice: once as executable code, and once as the
//! spec functions [`seed_state`], [`step_state`] and [`greedy_rows`], which
//! pin the unique solution the heuristic returns for a given instance.  The
//! executable solver is proved to return exactly that solution, which makes
//! the construction a mathematical function of the instance alone.

use crate::problem_instance::ProblemInstance;
use crate::problem_solution::{
    cnt_all, lemma_cnt_all_push, lemma_cnt_all_update, lemma_cnt_in_insert,
    lemma_cnt_in_singleton, lemma_row_len_le_total, total_len, ProblemSolution,
};
use vstd::pervasive::VecAdditionalExecFns;
use vstd::prelude::*;

verus! {

/// Number of `true` entries: how many tasks have been assigned so far.
pub open spec fn count_true(s: Seq<bool>) -> int
    decreases s.len(),
{
    if s.len() == 0 {
        0
    } else {
        count_true(s.drop_last()) + if s.last() {
            1int
        } else {
            0int
        }
    }
}

pub proof fn lemma_count_true_le(s: Seq<bool>)
    ensures
        0 <= count_true(s) <= s.len(),
    decreases s.len(),
{
    if s.len() > 0 {
        lemma_count_true_le(s.drop_last());
    }
}

/// A working set with every task assigned has no `false` entry.
pub proof fn lemma_count_true_full(s: Seq<bool>)
    requires
        count_true(s) == s.len(),
    ensures
        forall|i: int| 0 <= i < s.len() ==> s[i],
    decreases s.len(),
{
    if s.len() > 0 {
        lemma_count_true_le(s.drop_last());
        lemma_count_true_full(s.drop_last());
        assert(forall|i: int| 0 <= i < s.len() - 1 ==> s[i] == s.drop_last()[i]);
        assert(s[s.len() - 1] == s.last());
    }
}

/// An unassigned task keeps the count strictly below the length.
pub proof fn lemma_count_true_partial(s: Seq<bool>, i: int)
    requires
        0 <= i < s.len(),
        !s[i],
    ensures
        count_true(s) < s.len(),
{
    lemma_count_true_le(s);
    if count_true(s) == s.len() {
        lemma_count_true_full(s);
    }
}

pub proof fn lemma_count_true_zero(s: Seq<bool>)
    requires
        forall|i: int| 0 <= i < s.len() ==> !s[i],
    ensures
        count_true(s) == 0,
    decreases s.len(),
{
    if s.len() > 0 {
        assert(forall|i: int| 0 <= i < s.len() - 1 ==> s.drop_last()[i] == s[i]);
        lemma_count_true_zero(s.drop_last());
        assert(s.last() == s[s.len() - 1]);
    }
}

/// Marking an unassigned task raises the count by one.
pub proof fn lemma_count_true_update(s: Seq<bool>, i: int)
    requires
        0 <= i < s.len(),
        !s[i],
    ensures
        count_true(s.update(i, true)) == count_true(s) + 1,
    decreases s.len(),
{
    if i == s.len() - 1 {
        assert(s.update(i, true).drop_last() =~= s.drop_last());
        assert(s.update(i, true).last());
        assert(!s.last());
    } else {
        assert(s.update(i, true).drop_last() =~= s.drop_last().update(i, true));
        assert(s.update(i, true).last() == s.last());
        assert(s.drop_last()[i] == s[i]);
        lemma_count_true_update(s.drop_last(), i);
    }
}

/// Cost of placing task `t` alone on an idle machine.
pub open spec fn seed_cost(inst: ProblemInstance, t: int) -> int {
    inst.su(0, t + 1) + inst.dur(t)
}

/// The seeding-phase choice: the unassigned task in `[0, t)` of minimum
/// [`seed_cost`], ties broken by the lowest task index; `-1` when every task
/// in `[0, t)` is assigned.
pub open spec fn best_seed(inst: ProblemInstance, asg: Seq<bool>, t: int) -> int
    decreases t,
{
    if t <= 0 {
        -1
    } else {
        let rest = best_seed(inst, asg, t - 1);
        if asg[t - 1] {
            rest
        } else if rest == -1 {
            t - 1
        } else if seed_cost(inst, t - 1) < seed_cost(inst, rest) {
            t - 1
        } else {
            rest
        }
    }
}

pub proof fn lemma_best_seed_props(inst: ProblemInstance, asg: Seq<bool>, t: int)
    requires
        t <= asg.len(),
    ensures
        best_seed(inst, asg, t) == -1 ==> forall|i: int| 0 <= i < t ==> asg[i],
        best_seed(inst, asg, t) != -1 ==> 0 <= best_seed(inst, asg, t) < t && !asg[best_seed(
            inst,
            asg,
            t,
        )],
    decreases t,
{
    if t > 0 {
        lemma_best_seed_props(inst, asg, t - 1);
    }
}

/// The machine sequences and the working set after the first `i` machines
/// have been seeded.  A machine whose turn finds no unassigned task is left
/// empty.
pub open spec fn seed_state(inst: ProblemInstance, i: int) -> (Seq<Seq<usize>>, Seq<bool>)
    decreases i,
{
    if i <= 0 {
        (Seq::<Seq<usize>>::empty(), Seq::new(inst.n() as nat, |t: int| false))
    } else {
        let prev = seed_state(inst, i - 1);
        let t = best_seed(inst, prev.1, inst.n());
        if t == -1 {
            (prev.0.push(Seq::<usize>::empty()), prev.1)
        } else {
            (prev.0.push(seq![t as usize]), prev.1.update(t, true))
        }
    }
}

/// Evaluator value of `row` with `task` inserted at position `p`.
pub open spec fn ins_tct(inst: ProblemInstance, row: Seq<usize>, task: int, p: int) -> int {
    inst.seq_tct(row.insert(p, task as usize))
}

/// The insertion position in `[0, p)` minimizing the machine's new
/// completion time, ties broken by the lowest position.
pub open spec fn best_pos(inst: ProblemInstance, row: Seq<usize>, task: int, p: int) -> int
    decreases p,
{
    if p <= 1 {
        0
    } else {
        let rest = best_pos(inst, row, task, p - 1);
        if ins_tct(inst, row, task, p - 1) < ins_tct(inst, row, task, rest) {
            p - 1
        } else {
            rest
        }
    }
}

/// The machine's best new completion time when it must take `task`.
pub open spec fn task_best_tct(inst: ProblemInstance, row: Seq<usize>, task: int) -> int {
    ins_tct(inst, row, task, best_pos(inst, row, task, row.len() as int + 1))
}

/// The unassigned task in `[0, t)` whose best insertion into `row` yields the
/// smallest new completion time, ties broken by the lowest task index; `-1`
/// when every task in `[0, t)` is assigned.
pub open spec fn best_task(inst: ProblemInstance, row: Seq<usize>, asg: Seq<bool>, t: int) -> int
    decreases t,
{
    if t <= 0 {
        -1
    } else {
        let rest = best_task(inst, row, asg, t - 1);
        if asg[t - 1] {
            rest
        } else if rest == -1 {
            t - 1
        } else if task_best_tct(inst, row, t - 1) < task_best_tct(inst, row, rest) {
            t - 1
        } else {
            rest
        }
    }
}

pub proof fn lemma_best_task_props(inst: ProblemInstance, row: Seq<usize>, asg: Seq<bool>, t: int)
    requires
        t <= asg.len(),
    ensures
        best_task(inst, row, asg, t) == -1 ==> forall|i: int| 0 <= i < t ==> asg[i],
        best_task(inst, row, asg, t) != -1 ==> 0 <= best_task(inst, row, asg, t) < t && !asg[
            best_task(inst, row, asg, t)],
    decreases t,
{
    if t > 0 {
        lemma_best_task_props(inst, row, asg, t - 1);
    }
}

/// The completion-time increment machine `m` offers for its best task at its
/// best position.
pub open spec fn machine_cost(
    inst: ProblemInstance,
    rows: Seq<Seq<usize>>,
    asg: Seq<bool>,
    m: int,
) -> int {
    task_best_tct(inst, rows[m], best_task(inst, rows[m], asg, inst.n())) - inst.seq_tct(rows[m])
}

/// The machine in `[0, mi)` offering the smallest completion-time increment,
/// ties broken by the lowest machine index.
pub open spec fn best_machine(
    inst: ProblemInstance,
    rows: Seq<Seq<usize>>,
    asg: Seq<bool>,
    mi: int,
) -> int
    decreases mi,
{
    if mi <= 1 {
        0
    } else {
        let rest = best_machine(inst, rows, asg, mi - 1);
        if machine_cost(inst, rows, asg, mi - 1) < machine_cost(inst, rows, asg, rest) {
            mi - 1
        } else {
            rest
        }
    }
}

/// One growth step: insert the globally cheapest (machine, task, position)
/// triple, ties broken by the first triple in ascending (machine, task,
/// position) order.
pub open spec fn step_state(inst: ProblemInstance, rows: Seq<Seq<usize>>, asg: Seq<bool>) -> (
    Seq<Seq<usize>>,
    Seq<bool>,
) {
    let m = best_machine(inst, rows, asg, rows.len() as int);
    let t = best_task(inst, rows[m], asg, inst.n());
    let p = best_pos(inst, rows[m], t, rows[m].len() as int + 1);
    (rows.update(m, rows[m].insert(p, t as usize)), asg.update(t, true))
}

/// `rem` growth steps in sequence.
pub open spec fn grow_state(
    inst: ProblemInstance,
    rows: Seq<Seq<usize>>,
    asg: Seq<bool>,
    rem: int,
) -> (Seq<Seq<usize>>, Seq<bool>)
    decreases rem,
{
    if rem <= 0 {
        (rows, asg)
    } else {
        let s = step_state(inst, rows, asg);
        grow_state(inst, s.0, s.1, rem - 1)
    }
}

/// The machine sequences of the deterministic greedy solution: seed every
/// machine, then grow until every task is assigned.
pub open spec fn greedy_rows(inst: ProblemInstance) -> Seq<Seq<usize>> {
    let s = seed_state(inst, inst.m());
    let rem = if inst.n() > inst.m() {
        inst.n() - inst.m()
    } else {
        0int
    };
    grow_state(inst, s.0, s.1, rem).0
}

/// The invariant of a solution under construction: one sequence and cache
/// per machine, valid entries, exact caches, and the working set `asg`
/// recording exactly which tasks are placed (each at most once).
pub open spec fn building(inst: ProblemInstance, sol: ProblemSolution, asg: Seq<bool>) -> bool {
    &&& sol.rows().len() == inst.m()
    &&& sol.tcts().len() == inst.m()
    &&& asg.len() == inst.n()
    &&& forall|mi: int| 0 <= mi < inst.m() ==> inst.valid_tasks(#[trigger] sol.rows()[mi])
    &&& forall|mi: int|
        0 <= mi < inst.m() ==> #[trigger] sol.tcts()[mi] == inst.seq_tct(sol.rows()[mi])
    &&& forall|t: int|
        0 <= t < inst.n() ==> #[trigger] cnt_all(sol.rows(), t) == if asg[t] {
            1int
        } else {
            0int
        }
    &&& total_len(sol.rows()) == count_true(asg)
}

/// A fully built solution is well formed.
pub proof fn lemma_building_done(inst: ProblemInstance, sol: ProblemSolution, asg: Seq<bool>)
    requires
        building(inst, sol, asg),
        count_true(asg) == inst.n(),
    ensures
        sol.wf(inst),
{
    lemma_count_true_full(asg);
}

/// A selected move, as a candidate for extending a solution under
/// construction: the target machine, the task, the insertion position, the
/// machine's resulting completion time, and the completion-time increment
/// used to compare moves across machines.
#[derive(Clone, Copy)]
pub struct NewTask {
    pub machine: usize,
    pub task: usize,
    pub position: usize,
    pub new_tct: usize,
    pub cost: i128,
}

impl NewTask {
    /// The move is applicable to the given construction state and its
    /// `new_tct` is the evaluator's value for the extended machine sequence.
    pub open spec fn valid(&self, inst: ProblemInstance, rows: Seq<Seq<usize>>, asg: Seq<bool>) -> bool {
        &&& (self.machine as int) < rows.len()
        &&& (self.task as int) < inst.n()
        &&& 0 <= (self.task as int) < asg.len()
        &&& !asg[self.task as int]
        &&& (self.position as int) <= rows[self.machine as int].len()
        &&& self.new_tct as int == ins_tct(
            inst,
            rows[self.machine as int],
            self.task as int,
            self.position as int,
        )
        &&& self.cost as int == self.new_tct as int - inst.seq_tct(rows[self.machine as int])
    }
}

/// A greedy solver: builds one solution by repeatedly inserting the task
/// whose best insertion point increases the objective the least.
pub struct GreedySolver {}

impl GreedySolver {
    /// Creates a new solver.
    pub fn new() -> (r: Self) {
        GreedySolver {}
    }

    /// Builds the deterministic greedy solution: seed every machine with its
    /// cheapest opening task, then insert the remaining tasks one at a time,
    /// each at the globally cheapest (machine, task, position) triple.  The
    /// result is exactly [`greedy_rows`], a function of the instance alone,
    /// so repeated runs return identical solutions.
    pub fn solve(&mut self, instance: &ProblemInstance) -> (r: ProblemSolution)
        requires
            instance.wf(),
            instance.fits(),
        ensures
            r.wf(*instance),
            r.rows() == greedy_rows(*instance),
    {
        let n = instance.number_of_tasks();
        let mut solution = ProblemSolution::empty();
        let mut assigned = make_unassigned(n);
        let mut num_assigned: usize = 0;
        GreedySolver::choose_initial_tasks(&mut solution, instance, &mut assigned, &mut num_assigned);
        while num_assigned < n
            invariant
                instance.wf(),
                instance.fits(),
                n == instance.n(),
                building(*instance, solution, assigned@),
                num_assigned == count_true(assigned@),
                num_assigned <= n,
                grow_state(*instance, solution.rows(), assigned@, n - num_assigned).0
                    == greedy_rows(*instance),
            decreases n - num_assigned,
        {
            let ghost rows0 = solution.rows();
            let ghost asg0 = assigned@;
            let ghost rem0 = n - num_assigned;
            GreedySolver::add_task(&mut solution, instance, &mut assigned, &mut num_assigned);
            proof {
                assert(grow_state(*instance, rows0, asg0, rem0) == grow_state(
                    *instance,
                    step_state(*instance, rows0, asg0).0,
                    step_state(*instance, rows0, asg0).1,
                    rem0 - 1,
                ));
            }
        }
        proof {
            lemma_building_done(*instance, solution, assigned@);
        }
        solution
    }

    /// Seeding phase: each machine in turn takes the unassigned task of
    /// minimum idle-setup-plus-duration cost (lowest index on ties); a
    /// machine whose turn finds no unassigned task is left empty.
    pub(crate) fn choose_initial_tasks(
        solution: &mut ProblemSolution,
        instance: &ProblemInstance,
        assigned: &mut Vec<bool>,
        num_assigned: &mut usize,
    )
        requires
            instance.wf(),
            instance.fits(),
            old(solution).rows() == Seq::<Seq<usize>>::empty(),
            old(solution).tcts() == Seq::<usize>::empty(),
            old(assigned)@.len() == instance.n(),
            forall|i: int| 0 <= i < instance.n() ==> !old(assigned)@[i],
            *old(num_assigned) == 0,
        ensures
            final(solution).rows() == seed_state(*instance, instance.m()).0,
            final(assigned)@ == seed_state(*instance, instance.m()).1,
            building(*instance, *final(solution), final(assigned)@),
            *final(num_assigned) == count_true(final(assigned)@),
            instance.n() <= instance.m() ==> *final(num_assigned) == instance.n(),
            instance.n() > instance.m() ==> *final(num_assigned) == instance.m(),
    {
        let m = instance.number_of_machines();
        let mut machine: usize = 0;
        proof {
            assert(seed_state(*instance, 0).0 =~= Seq::<Seq<usize>>::empty());
            assert(seed_state(*instance, 0).1 =~= old(assigned)@);
            lemma_count_true_zero(old(assigned)@);
        }
        while machine < m
            invariant
                instance.wf(),
                instance.fits(),
                m == instance.m(),
                machine <= m,
                solution.rows() == seed_state(*instance, machine as int).0,
                assigned@ == seed_state(*instance, machine as int).1,
                solution.rows().len() == machine,
                solution.tcts().len() == machine,
                assigned@.len() == instance.n(),
                forall|mi: int|
                    0 <= mi < machine ==> instance.valid_tasks(#[trigger] solution.rows()[mi]),
                forall|mi: int|
                    0 <= mi < machine ==> #[trigger] solution.tcts()[mi] == instance.seq_tct(
                        solution.rows()[mi],
                    ),
                forall|t: int|
                    0 <= t < instance.n() ==> #[trigger] cnt_all(solution.rows(), t) == if assigned@[t] {
                        1int
                    } else {
                        0int
                    },
                total_len(solution.rows()) == count_true(assigned@),
                *num_assigned == count_true(assigned@),
                machine <= instance.n() ==> *num_assigned == machine,
                machine > instance.n() ==> *num_assigned == instance.n(),
            decreases m - machine,
        {
            let ghost rows0 = solution.rows();
            let ghost asg0 = assigned@;
            match GreedySolver::get_best_seed_task(instance, assigned) {
                Some((task, cost)) => {
                    proof {
                        lemma_count_true_partial(asg0, task as int);
                        instance.lemma_tct_singleton(task);
                    }
                    let mut row: Vec<usize> = Vec::new();
                    row.push(task);
                    proof {
                        assert(row@ =~= seq![task]);
                    }
                    solution.push_row(row, cost);
                    assigned.set(task, true);
                    *num_assigned = *num_assigned + 1;
                    proof {
                        lemma_count_true_update(asg0, task as int);
                        assert(solution.rows() == rows0.push(seq![task]));
                        assert forall|t: int| 0 <= t < instance.n() implies #[trigger] cnt_all(
                            solution.rows(),
                            t,
                        ) == cnt_all(rows0, t) + if task as int == t {
                            1int
                        } else {
                            0int
                        } by {
                            lemma_cnt_all_push(rows0, seq![task], t);
                            lemma_cnt_in_singleton(task, t);
                        }
                        lemma_cnt_all_push(rows0, seq![task], 0);
                        lemma_cnt_in_singleton(task, 0);
                        assert(total_len(solution.rows()) == total_len(rows0) + 1);
                    }
                },
                None => {
                    proof {
                        lemma_best_seed_props(*instance, asg0, instance.n());
                        if (machine as int) < instance.n() {
                            assert(count_true(asg0) < instance.n());
                            lemma_count_true_all(asg0);
                            assert(false);
                        }
                    }
                    solution.push_row(Vec::new(), 0);
                    proof {
                        assert(solution.rows() == rows0.push(Seq::<usize>::empty()));
                        assert forall|t: int| 0 <= t < instance.n() implies #[trigger] cnt_all(
                            solution.rows(),
                            t,
                        ) == cnt_all(rows0, t) by {
                            lemma_cnt_all_push(rows0, Seq::<usize>::empty(), t);
                        }
                        lemma_cnt_all_push(rows0, Seq::<usize>::empty(), 0);
                        assert(instance.seq_tct(Seq::<usize>::empty()) == 0);
                    }
                },
            }
            machine = machine + 1;
        }
    }

    /// The unassigned task of minimum idle-setup-plus-duration cost, with
    /// that cost; `None` when every task is assigned.
    fn get_best_seed_task(instance: &ProblemInstance, assigned: &Vec<bool>) -> (r: Option<
        (usize, usize),
    >)
        requires
            instance.wf(),
            instance.fits(),
            assigned@.len() == instance.n(),
        ensures
            match r {
                Some(tc) => {
                    &&& tc.0 as int == best_seed(*instance, assigned@, instance.n())
                    &&& (tc.0 as int) < instance.n()
                    &&& !assigned@[tc.0 as int]
                    &&& tc.1 as int == seed_cost(*instance, tc.0 as int)
                },
                None => best_seed(*instance, assigned@, instance.n()) == -1,
            },
    {
        let n = instance.number_of_tasks();
        let mut best: Option<(usize, usize)> = None;
        let mut t: usize = 0;
        while t < n
            invariant
                instance.wf(),
                instance.fits(),
                assigned@.len() == instance.n(),
                n == instance.n(),
                t <= n,
                match best {
                    Some(tc) => {
                        &&& tc.0 as int == best_seed(*instance, assigned@, t as int)
                        &&& (tc.0 as int) < t as int
                        &&& !assigned@[tc.0 as int]
                        &&& tc.1 as int == seed_cost(*instance, tc.0 as int)
                    },
                    None => best_seed(*instance, assigned@, t as int) == -1,
                },
            decreases n - t,
        {
            if !assigned[t] {
                proof {
                    instance.lemma_seed_cost_fits(t as int);
                }
                let c = instance.setup_times[0][t + 1] + instance.task_times[t];
                match best {
                    Some(tc) => {
                        if c < tc.1 {
                            best = Some((t, c));
                        }
                    },
                    None => {
                        best = Some((t, c));
                    },
                }
            }
            t = t + 1;
        }
        best
    }

    /// The globally cheapest move over every machine, every unassigned task
    /// and every insertion position, in ascending (machine, task, position)
    /// order with the first-encountered triple winning ties.
    pub(crate) fn get_best_new_task(
        solution: &ProblemSolution,
        instance: &ProblemInstance,
        assigned: &Vec<bool>,
    ) -> (r: NewTask)
        requires
            instance.wf(),
            instance.fits(),
            building(*instance, *solution, assigned@),
            count_true(assigned@) < instance.n(),
        ensures
            r.valid(*instance, solution.rows(), assigned@),
            r.machine as int == best_machine(*instance, solution.rows(), assigned@, instance.m()),
            r.task as int == best_task(
                *instance,
                solution.rows()[r.machine as int],
                assigned@,
                instance.n(),
            ),
            r.position as int == best_pos(
                *instance,
                solution.rows()[r.machine as int],
                r.task as int,
                solution.rows()[r.machine as int].len() as int + 1,
            ),
            r.new_tct as int == task_best_tct(
                *instance,
                solution.rows()[r.machine as int],
                r.task as int,
            ),
    {
        proof {
            lemma_count_true_le(assigned@);
        }
        let m = instance.number_of_machines();
        let mut best = GreedySolver::get_best_next_task_for_machine(solution, instance, assigned, 0);
        let mut machine: usize = 1;
        while machine < m
            invariant
                instance.wf(),
                instance.fits(),
                building(*instance, *solution, assigned@),
                count_true(assigned@) < instance.n(),
                m == instance.m(),
                1 <= machine <= m,
                best.valid(*instance, solution.rows(), assigned@),
                best.machine as int == best_machine(
                    *instance,
                    solution.rows(),
                    assigned@,
                    machine as int,
                ),
                best.task as int == best_task(
                    *instance,
                    solution.rows()[best.machine as int],
                    assigned@,
                    instance.n(),
                ),
                best.position as int == best_pos(
                    *instance,
                    solution.rows()[best.machine as int],
                    best.task as int,
                    solution.rows()[best.machine as int].len() as int + 1,
                ),
                best.new_tct as int == task_best_tct(
                    *instance,
                    solution.rows()[best.machine as int],
                    best.task as int,
                ),
                best.cost as int == machine_cost(
                    *instance,
                    solution.rows(),
                    assigned@,
                    best.machine as int,
                ),
            decreases m - machine,
        {
            let cand = GreedySolver::get_best_next_task_for_machine(
                solution,
                instance,
                assigned,
                machine,
            );
            if cand.cost < best.cost {
                best = cand;
            }
            machine = machine + 1;
        }
        best
    }

    /// The cheapest insertion this machine offers: over every unassigned
    /// task, the task whose best position yields the smallest new machine
    /// completion time, ties broken by the lowest task index.
    fn get_best_next_task_for_machine(
        solution: &ProblemSolution,
        instance: &ProblemInstance,
        assigned: &Vec<bool>,
        machine: usize,
    ) -> (r: NewTask)
        requires
            instance.wf(),
            instance.fits(),
            building(*instance, *solution, assigned@),
            (machine as int) < instance.m(),
            count_true(assigned@) < instance.n(),
        ensures
            r.valid(*instance, solution.rows(), assigned@),
            r.machine == machine,
            r.task as int == best_task(
                *instance,
                solution.rows()[machine as int],
                assigned@,
                instance.n(),
            ),
            r.position as int == best_pos(
                *instance,
                solution.rows()[machine as int],
                r.task as int,
                solution.rows()[machine as int].len() as int + 1,
            ),
            r.new_tct as int == task_best_tct(
                *instance,
                solution.rows()[machine as int],
                r.task as int,
            ),
            r.cost as int == machine_cost(*instance, solution.rows(), assigned@, machine as int),
    {
        let ghost row = solution.rows()[machine as int];
        proof {
            lemma_row_len_le_total(solution.rows(), machine as int);
            lemma_count_true_le(assigned@);
        }
        let n = instance.number_of_tasks();
        let mut best: Option<(usize, usize, usize)> = None;
        let mut t: usize = 0;
        while t < n
            invariant
                instance.wf(),
                instance.fits(),
                building(*instance, *solution, assigned@),
                (machine as int) < instance.m(),
                count_true(assigned@) < instance.n(),
                row == solution.rows()[machine as int],
                row.len() < instance.n(),
                n == instance.n(),
                t <= n,
                match best {
                    Some(b) => {
                        &&& b.0 as int == best_task(*instance, row, assigned@, t as int)
                        &&& (b.0 as int) < t as int
                        &&& !assigned@[b.0 as int]
                        &&& b.1 as int == best_pos(*instance, row, b.0 as int, row.len() as int + 1)
                        &&& b.1 <= row.len()
                        &&& b.2 as int == task_best_tct(*instance, row, b.0 as int)
                    },
                    None => best_task(*instance, row, assigned@, t as int) == -1,
                },
            decreases n - t,
        {
            if !assigned[t] {
                let pt = GreedySolver::get_best_pos_for_task_in_machine(
                    solution,
                    instance,
                    machine,
                    t,
                );
                match best {
                    Some(b) => {
                        if pt.1 < b.2 {
                            best = Some((t, pt.0, pt.1));
                        }
                    },
                    None => {
                        best = Some((t, pt.0, pt.1));
                    },
                }
            }
            t = t + 1;
        }
        match best {
            Some(b) => {
                let base = solution.tcts_by_machine[machine];
                NewTask {
                    machine,
                    task: b.0,
                    position: b.1,
                    new_tct: b.2,
                    cost: b.2 as i128 - base as i128,
                }
            },
            None => {
                proof {
                    lemma_best_task_props(*instance, row, assigned@, instance.n());
                    lemma_count_true_all(assigned@);
                    assert(false);
                }
                vstd::pervasive::unreached()
            },
        }
    }

    /// The machine's best new completion time for inserting `task`, over
    /// every position of its current sequence, ties broken by the lowest
    /// position.
    fn get_best_pos_for_task_in_machine(
        solution: &ProblemSolution,
        instance: &ProblemInstance,
        machine: usize,
        task: usize,
    ) -> (r: (usize, usize))
        requires
            instance.wf(),
            instance.fits(),
            (machine as int) < solution.rows().len(),
            instance.valid_tasks(solution.rows()[machine as int]),
            (task as int) < instance.n(),
            solution.rows()[machine as int].len() < instance.n(),
        ensures
            r.0 as int == best_pos(
                *instance,
                solution.rows()[machine as int],
                task as int,
                solution.rows()[machine as int].len() as int + 1,
            ),
            r.0 as int <= solution.rows()[machine as int].len(),
            r.1 as int == ins_tct(*instance, solution.rows()[machine as int], task as int, r.0 as int),
    {
        let ghost row = solution.rows()[machine as int];
        let nn = instance.number_of_tasks();
        let row_ref = &solution.task_assignment_matrix[machine];
        let len = row_ref.len();
        let tct0 = GreedySolver::eval_insertion(instance, row_ref, 0, task, Ghost(row));
        let mut best_p: usize = 0;
        let mut best_tct: usize = tct0;
        let mut p: usize = 1;
        while p <= len
            invariant
                instance.wf(),
                instance.fits(),
                (machine as int) < solution.rows().len(),
                row == solution.rows()[machine as int],
                row_ref@ == row,
                instance.valid_tasks(row),
                (task as int) < instance.n(),
                row.len() < instance.n(),
                nn == instance.n(),
                len == row.len(),
                len < nn,
                1 <= p <= len + 1,
                (best_p as int) < p as int,
                best_p as int == best_pos(*instance, row, task as int, p as int),
                best_tct as int == ins_tct(*instance, row, task as int, best_p as int),
            decreases len + 1 - p,
        {
            let cand_tct = GreedySolver::eval_insertion(instance, row_ref, p, task, Ghost(row));
            if cand_tct < best_tct {
                best_p = p;
                best_tct = cand_tct;
            }
            p = p + 1;
        }
        (best_p, best_tct)
    }

    /// Evaluates the machine completion time with `task` inserted at `pos`.
    pub(crate) fn eval_insertion(
        instance: &ProblemInstance,
        row_ref: &Vec<usize>,
        pos: usize,
        task: usize,
        row: Ghost<Seq<usize>>,
    ) -> (r: usize)
        requires
            instance.wf(),
            instance.fits(),
            row_ref@ == row@,
            instance.valid_tasks(row@),
            (task as int) < instance.n(),
            row@.len() < instance.n(),
            pos as int <= row@.len(),
        ensures
            r as int == ins_tct(*instance, row@, task as int, pos as int),
    {
        let mut cand = crate::problem_solution::copy_row(row_ref);
        cand.insert(pos, task);
        proof {
            row@.insert_ensures(pos as int, task);
            assert(cand@ == row@.insert(pos as int, task));
            assert forall|i: int| 0 <= i < cand@.len() implies #[trigger] cand@[i] < instance.n() by {
                if i < pos as int {
                    assert(cand@[i] == row@[i]);
                } else if i == pos as int {
                    assert(cand@[i] == task);
                } else {
                    assert(cand@[i] == row@[i - 1]);
                }
            }
            instance.lemma_fits_len(cand@);
        }
        instance.calculate_total_completion_time(&cand)
    }

    /// One growth step: apply the globally cheapest move and keep the
    /// working set, the caches and the assignment counts in sync.
    pub(crate) fn add_task(
        solution: &mut ProblemSolution,
        instance: &ProblemInstance,
        assigned: &mut Vec<bool>,
        num_assigned: &mut usize,
    )
        requires
            instance.wf(),
            instance.fits(),
            building(*instance, *old(solution), old(assigned)@),
            *old(num_assigned) == count_true(old(assigned)@),
            count_true(old(assigned)@) < instance.n(),
        ensures
            building(*instance, *final(solution), final(assigned)@),
            final(solution).rows() == step_state(*instance, old(solution).rows(), old(assigned)@).0,
            final(assigned)@ == step_state(*instance, old(solution).rows(), old(assigned)@).1,
            *final(num_assigned) == *old(num_assigned) + 1,
            *final(num_assigned) == count_true(final(assigned)@),
    {
        let nt = GreedySolver::get_best_new_task(solution, instance, assigned);
        let ghost rows0 = solution.rows();
        let ghost asg0 = assigned@;
        GreedySolver::apply_valid_move(solution, instance, assigned, num_assigned, &nt);
        proof {
            let mi = nt.machine as int;
            let n = instance.n();
            assert(mi == best_machine(*instance, rows0, asg0, rows0.len() as int));
            assert(nt.task as int == best_task(*instance, rows0[mi], asg0, n));
            assert((best_task(*instance, rows0[mi], asg0, n) as usize) == nt.task);
            assert(nt.position as int == best_pos(
                *instance,
                rows0[mi],
                nt.task as int,
                rows0[mi].len() as int + 1,
            ));
            assert(solution.rows() == step_state(*instance, rows0, asg0).0);
            assert(assigned@ == step_state(*instance, rows0, asg0).1);
        }
    }

    /// Applies any valid move: inserts the task, refreshes the one cache,
    /// marks the task assigned, and re-establishes the construction
    /// invariant.
    pub(crate) fn apply_valid_move(
        solution: &mut ProblemSolution,
        instance: &ProblemInstance,
        assigned: &mut Vec<bool>,
        num_assigned: &mut usize,
        nt: &NewTask,
    )
        requires
            instance.wf(),
            instance.fits(),
            building(*instance, *old(solution), old(assigned)@),
            nt.valid(*instance, old(solution).rows(), old(assigned)@),
            *old(num_assigned) == count_true(old(assigned)@),
            count_true(old(assigned)@) < instance.n(),
        ensures
            building(*instance, *final(solution), final(assigned)@),
            final(solution).rows() == old(solution).rows().update(
                nt.machine as int,
                old(solution).rows()[nt.machine as int].insert(nt.position as int, nt.task),
            ),
            final(assigned)@ == old(assigned)@.update(nt.task as int, true),
            *final(num_assigned) == *old(num_assigned) + 1,
            *final(num_assigned) == count_true(final(assigned)@),
    {
        let ghost rows0 = solution.rows();
        let ghost asg0 = assigned@;
        let ghost new_row = rows0[nt.machine as int].insert(nt.position as int, nt.task);
        proof {
            rows0[nt.machine as int].insert_ensures(nt.position as int, nt.task);
            lemma_count_true_partial(asg0, nt.task as int);
        }
        GreedySolver::apply_move(solution, assigned, num_assigned, nt, Ghost(rows0), Ghost(asg0));
        proof {
            let mi = nt.machine as int;
            let n = instance.n();
            // The new row holds only task indices.
            assert forall|i: int| 0 <= i < new_row.len() implies #[trigger] new_row[i] < n by {
                if i < nt.position as int {
                    assert(new_row[i] == rows0[mi][i]);
                } else if i == nt.position as int {
                    assert(new_row[i] == nt.task);
                } else {
                    assert(new_row[i] == rows0[mi][i - 1]);
                }
            }
            // The working set still counts placements exactly.
            assert forall|t: int| 0 <= t < n implies #[trigger] cnt_all(solution.rows(), t)
                == if assigned@[t] {
                1int
            } else {
                0int
            } by {
                lemma_cnt_all_update(rows0, mi, new_row, t);
                lemma_cnt_in_insert(rows0[mi], nt.position as int, nt.task, t);
            }
            lemma_cnt_all_update(rows0, mi, new_row, 0);
            lemma_count_true_update(asg0, nt.task as int);
        }
    }

    /// Applies a selected move to the construction state.
    fn apply_move(
        solution: &mut ProblemSolution,
        assigned: &mut Vec<bool>,
        num_assigned: &mut usize,
        nt: &NewTask,
        rows0: Ghost<Seq<Seq<usize>>>,
        asg0: Ghost<Seq<bool>>,
    )
        requires
            old(solution).rows() == rows0@,
            old(assigned)@ == asg0@,
            old(solution).tcts().len() == rows0@.len(),
            (nt.machine as int) < rows0@.len(),
            (nt.task as int) < asg0@.len(),
            (nt.position as int) <= rows0@[nt.machine as int].len(),
            !asg0@[nt.task as int],
            *old(num_assigned) == count_true(asg0@),
            count_true(asg0@) < asg0@.len(),
        ensures
            final(solution).rows() == rows0@.update(
                nt.machine as int,
                rows0@[nt.machine as int].insert(nt.position as int, nt.task),
            ),
            final(solution).tcts() == old(solution).tcts().update(nt.machine as int, nt.new_tct),
            final(assigned)@ == asg0@.update(nt.task as int, true),
            *final(num_assigned) == count_true(asg0@) + 1,
            *final(num_assigned) == count_true(final(assigned)@),
    {
        let nb = assigned.len();
        proof {
            lemma_count_true_le(asg0@);
            lemma_count_true_update(asg0@, nt.task as int);
            assert(count_true(asg0@) < nb);
        }
        solution.insert_task(nt.machine, nt.position, nt.task, nt.new_tct);
        assigned.set(nt.task, true);
        *num_assigned = *num_assigned + 1;
    }
}

/// The law that the deterministic greedy heuristic is a function of the
/// instance alone: any two well-formed solutions whose machine sequences are
/// the specified greedy result (as every solution returned by
/// [`GreedySolver::solve`] is) agree byte for byte, caches included.  Two
/// runs on the same instance therefore return identical solutions.
pub proof fn lemma_greedy_deterministic(
    inst: ProblemInstance,
    a: ProblemSolution,
    b: ProblemSolution,
)
    requires
        a.wf(inst),
        b.wf(inst),
        a.rows() == greedy_rows(inst),
        b.rows() == greedy_rows(inst),
    ensures
        a.rows() == b.rows(),
        a.tcts() == b.tcts(),
{
    assert(a.tcts() =~= b.tcts());
}

pub proof fn lemma_count_true_all(s: Seq<bool>)
    requires
        forall|i: int| 0 <= i < s.len() ==> s[i],
    ensures
        count_true(s) == s.len(),
    decreases s.len(),
{
    if s.len() > 0 {
        assert(forall|i: int| 0 <= i < s.len() - 1 ==> s.drop_last()[i] == s[i]);
        lemma_count_true_all(s.drop_last());
        assert(s.last() == s[s.len() - 1]);
    }
}

/// A working set of `n` entries, all unassigned.
pub(crate) fn make_unassigned(n: usize) -> (r: Vec<bool>)
    ensures
        r@.len() == n,
        forall|i: int| 0 <= i < n ==> !r@[i],
{
    let mut v: Vec<bool> = Vec::new();
    let mut i: usize = 0;
    while i < n
        invariant
            i <= n,
            v@.len() == i,
            forall|j: int| 0 <= j < i ==> !v@[j],
        decreases n - i,
    {
        v.push(false);
        i = i + 1;
    }
    v
}

} // verus!
