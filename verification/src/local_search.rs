//! Pluggable local-search improvement strategies.
//!
//! Every strategy satisfies the same capability contract: given an instance
//! and a well-formed candidate solution, it returns a well-formed solution
//! that is no worse.  Each strategy additionally guarantees its own
//! relationship between input and output through [`LocalSearch::strategy_spec`].

use crate::problem_instance::ProblemInstance;
use crate::problem_solution::{
    cnt_all, lemma_cnt_all_update, lemma_cnt_in_insert, lemma_cnt_in_remove,
    lemma_cache_matches_evaluator, lemma_row_len_le_total, lemma_total_fits,
    lemma_two_rows_le_total, tct_sum, ProblemSolution,
};
use vstd::prelude::*;

verus! {

/// A local-search strategy: "given an instance and a candidate solution,
/// produce a (possibly identical) solution that is no worse."  The engine is
/// open to further strategies: anything meeting this contract plugs in.
pub trait LocalSearch: Sized {
    /// The strategy's own guarantee relating the returned solution to the
    /// input solution.
    spec fn strategy_spec(
        &self,
        inst: ProblemInstance,
        before: ProblemSolution,
        after: ProblemSolution,
    ) -> bool;

    /// Returns a well-formed solution whose total completion time does not
    /// exceed the input's.
    fn improve(&self, instance: &ProblemInstance, solution: ProblemSolution) -> (r:
        ProblemSolution)
        requires
            instance.wf(),
            instance.fits(),
            solution.wf(*instance),
        ensures
            r.wf(*instance),
            r.total_tct() <= solution.total_tct(),
            self.strategy_spec(*instance, solution, r),
    ;
}

/// The no-op strategy: returns the input solution unchanged; used to measure
/// raw construction-heuristic quality.
pub struct NoSearch {}

impl NoSearch {
    /// Creates the no-op strategy.
    pub fn new() -> (r: Self) {
        NoSearch {}
    }
}

impl LocalSearch for NoSearch {
    /// The output is identical to the input: same machine sequences, same
    /// caches, hence the same objective.
    open spec fn strategy_spec(
        &self,
        inst: ProblemInstance,
        before: ProblemSolution,
        after: ProblemSolution,
    ) -> bool {
        after.rows() == before.rows() && after.tcts() == before.tcts()
    }

    fn improve(&self, instance: &ProblemInstance, solution: ProblemSolution) -> (r:
        ProblemSolution) {
        solution
    }
}

/// Whether (`mach`, `ti`, `tgt`) names a move of the intra-machine
/// neighborhood: take the task at position `ti` of machine `mach` and
/// reinsert it at position `tgt` of the shortened sequence, the no-op move
/// excluded.
pub open spec fn valid_intra_move(rows: Seq<Seq<usize>>, mach: int, ti: int, tgt: int) -> bool {
    &&& 0 <= mach < rows.len()
    &&& 0 <= ti < rows[mach].len()
    &&& 0 <= tgt < rows[mach].len()
    &&& tgt != ti
}

/// The machine sequences after an intra-machine move.
pub open spec fn intra_moved_rows(rows: Seq<Seq<usize>>, mach: int, ti: int, tgt: int) -> Seq<
    Seq<usize>,
> {
    rows.update(mach, rows[mach].remove(ti).insert(tgt, rows[mach][ti]))
}

/// The ground-truth total objective after an intra-machine move.
pub open spec fn intra_move_total(
    inst: ProblemInstance,
    rows: Seq<Seq<usize>>,
    mach: int,
    ti: int,
    tgt: int,
) -> int {
    tct_sum(inst, intra_moved_rows(rows, mach, ti, tgt))
}

/// Every intra-machine move scanned strictly before the enumeration position
/// (`cm`, `cti`, `ctgt`) fails to improve on `total`.
pub open spec fn no_improvement_scanned(
    inst: ProblemInstance,
    rows: Seq<Seq<usize>>,
    total: int,
    cm: int,
    cti: int,
    ctgt: int,
) -> bool {
    forall|mach: int, ti: int, tgt: int|
        valid_intra_move(rows, mach, ti, tgt) && (mach < cm || (mach == cm && ti < cti) || (mach
            == cm && ti == cti && tgt < ctgt)) ==> #[trigger] intra_move_total(
            inst,
            rows,
            mach,
            ti,
            tgt,
        ) >= total
}

/// The rows `after_rows` are the input rows with exactly one strictly
/// improving intra-machine move applied — and that move is the first
/// improving one in ascending (machine, source position, target position)
/// scan order: every move scanned before it fails to improve.
pub open spec fn applied_first_improvement(
    inst: ProblemInstance,
    before_rows: Seq<Seq<usize>>,
    before_total: int,
    after_rows: Seq<Seq<usize>>,
) -> bool {
    exists|mach: int, ti: int, tgt: int|
        valid_intra_move(before_rows, mach, ti, tgt) && intra_move_total(
            inst,
            before_rows,
            mach,
            ti,
            tgt,
        ) < before_total && no_improvement_scanned(inst, before_rows, before_total, mach, ti, tgt)
            && after_rows == #[trigger] intra_moved_rows(before_rows, mach, ti, tgt)
}

/// First-improvement reinsertion of one task within its own machine: the
/// first move that strictly lowers the objective is applied; if none exists
/// the input is returned unchanged.  One improving move per invocation.
pub struct IntraMachineReinsertionAnxious {}

impl IntraMachineReinsertionAnxious {
    /// Creates the strategy.
    pub fn new() -> (r: Self) {
        IntraMachineReinsertionAnxious {}
    }

    /// The solution with the task at `task_index` of `machine` reinserted at
    /// `target` within the same machine (indices over the sequence with the
    /// task removed), and that machine's cache recomputed.
    fn get_solution(
        instance: &ProblemInstance,
        solution: &ProblemSolution,
        machine: usize,
        task_index: usize,
        target: usize,
    ) -> (r: ProblemSolution)
        requires
            instance.wf(),
            instance.fits(),
            solution.wf(*instance),
            (machine as int) < instance.m(),
            (task_index as int) < solution.rows()[machine as int].len(),
            (target as int) <= solution.rows()[machine as int].len() - 1,
        ensures
            r.wf(*instance),
            r.rows() == intra_moved_rows(
                solution.rows(),
                machine as int,
                task_index as int,
                target as int,
            ),
    {
        let ghost rows0 = solution.rows();
        let ghost row = rows0[machine as int];
        proof {
            lemma_row_len_le_total(rows0, machine as int);
        }
        let mut new_row = crate::problem_solution::copy_row(
            &solution.task_assignment_matrix[machine],
        );
        let task = new_row.remove(task_index);
        new_row.insert(target, task);
        let ghost mid = row.remove(task_index as int);
        proof {
            mid.insert_ensures(target as int, task);
            assert(new_row@ == mid.insert(target as int, task));
            assert forall|i: int| 0 <= i < new_row@.len() implies #[trigger] new_row@[i]
                < instance.n() by {
                if i < target as int {
                    assert(new_row@[i] == mid[i]);
                } else if i == target as int {
                    assert(new_row@[i] == task);
                } else {
                    assert(new_row@[i] == mid[i - 1]);
                }
                assert(forall|j: int| 0 <= j < mid.len() ==> #[trigger] mid[j] == row[j] || mid[j]
                    == row[j + 1]);
            }
            instance.lemma_fits_len(new_row@);
        }
        let tct = instance.calculate_total_completion_time(&new_row);
        let mut result = solution.duplicate();
        let ghost new_row_view = new_row@;
        result.replace_row(machine, new_row, tct);
        proof {
            assert(result.rows() == rows0.update(machine as int, new_row_view));
            assert forall|t: int| 0 <= t < instance.n() implies #[trigger] cnt_all(
                result.rows(),
                t,
            ) == 1 by {
                lemma_cnt_all_update(rows0, machine as int, new_row_view, t);
                lemma_cnt_in_remove(row, task_index as int, t);
                lemma_cnt_in_insert(mid, target as int, task, t);
            }
            lemma_cnt_all_update(rows0, machine as int, new_row_view, 0);
        }
        result
    }

    /// Scans machines, task positions and target positions in ascending
    /// order and returns the first strictly improving reinsertion (and
    /// nothing else moved), or the input unchanged when no move improves.
    pub fn perform_search(instance: &ProblemInstance, solution: ProblemSolution) -> (r:
        ProblemSolution)
        requires
            instance.wf(),
            instance.fits(),
            solution.wf(*instance),
        ensures
            r.wf(*instance),
            r.total_tct() < solution.total_tct() ==> applied_first_improvement(
                *instance,
                solution.rows(),
                solution.total_tct(),
                r.rows(),
            ),
            r.total_tct() < solution.total_tct() || (r.rows() == solution.rows() && r.tcts()
                == solution.tcts() && no_improvement_scanned(
                *instance,
                solution.rows(),
                solution.total_tct(),
                instance.m(),
                0,
                0,
            )),
    {
        proof {
            lemma_total_fits(*instance, solution);
        }
        let solution_tct = solution.get_total_completion_time();
        let m = instance.number_of_machines();
        let mut machine: usize = 0;
        while machine < m
            invariant
                instance.wf(),
                instance.fits(),
                solution.wf(*instance),
                m == instance.m(),
                machine <= m,
                solution_tct == solution.total_tct(),
                no_improvement_scanned(
                    *instance,
                    solution.rows(),
                    solution.total_tct(),
                    machine as int,
                    0,
                    0,
                ),
            decreases m - machine,
        {
            let len = solution.task_assignment_matrix[machine].len();
            if len >= 2 {
                let mut task_index: usize = 0;
                while task_index < len
                    invariant
                        instance.wf(),
                        instance.fits(),
                        solution.wf(*instance),
                        (machine as int) < instance.m(),
                        len == solution.rows()[machine as int].len(),
                        task_index <= len,
                        solution_tct == solution.total_tct(),
                        no_improvement_scanned(
                            *instance,
                            solution.rows(),
                            solution.total_tct(),
                            machine as int,
                            task_index as int,
                            0,
                        ),
                    decreases len - task_index,
                {
                    let mut target: usize = 0;
                    while target < len
                        invariant
                            instance.wf(),
                            instance.fits(),
                            solution.wf(*instance),
                            (machine as int) < instance.m(),
                            len == solution.rows()[machine as int].len(),
                            (task_index as int) < len,
                            target <= len,
                            solution_tct == solution.total_tct(),
                            no_improvement_scanned(
                                *instance,
                                solution.rows(),
                                solution.total_tct(),
                                machine as int,
                                task_index as int,
                                target as int,
                            ),
                        decreases len - target,
                    {
                        if target != task_index {
                            let candidate = Self::get_solution(
                                instance,
                                &solution,
                                machine,
                                task_index,
                                target,
                            );
                            proof {
                                lemma_total_fits(*instance, candidate);
                            }
                            let candidate_tct = candidate.get_total_completion_time();
                            proof {
                                lemma_cache_matches_evaluator(*instance, candidate);
                                assert(candidate_tct as int == intra_move_total(
                                    *instance,
                                    solution.rows(),
                                    machine as int,
                                    task_index as int,
                                    target as int,
                                ));
                            }
                            if candidate_tct < solution_tct {
                                proof {
                                    assert(valid_intra_move(
                                        solution.rows(),
                                        machine as int,
                                        task_index as int,
                                        target as int,
                                    ));
                                    assert(candidate.rows() == intra_moved_rows(
                                        solution.rows(),
                                        machine as int,
                                        task_index as int,
                                        target as int,
                                    ));
                                    assert(applied_first_improvement(
                                        *instance,
                                        solution.rows(),
                                        solution.total_tct(),
                                        candidate.rows(),
                                    ));
                                }
                                return candidate;
                            }
                        }
                        target = target + 1;
                    }
                    task_index = task_index + 1;
                }
            }
            machine = machine + 1;
        }
        solution
    }
}

impl LocalSearch for IntraMachineReinsertionAnxious {
    /// Either exactly the first strictly improving reinsertion in scan order
    /// was applied (one task relocated within one machine, nothing else
    /// touched), or the input is returned unchanged and no move of the
    /// intra-machine neighborhood improves on it.
    open spec fn strategy_spec(
        &self,
        inst: ProblemInstance,
        before: ProblemSolution,
        after: ProblemSolution,
    ) -> bool {
        &&& after.total_tct() < before.total_tct() ==> applied_first_improvement(
            inst,
            before.rows(),
            before.total_tct(),
            after.rows(),
        )
        &&& after.total_tct() < before.total_tct() || (after.rows() == before.rows()
            && after.tcts() == before.tcts() && no_improvement_scanned(
            inst,
            before.rows(),
            before.total_tct(),
            before.rows().len() as int,
            0,
            0,
        ))
    }

    fn improve(&self, instance: &ProblemInstance, solution: ProblemSolution) -> (r:
        ProblemSolution) {
        Self::perform_search(instance, solution)
    }
}

/// Whether (`f`, `ti`, `to`, `p`) names a move of the inter-machine
/// neighborhood: take the task at position `ti` of machine `f` and insert it
/// at position `p` of a different machine `to`.
pub open spec fn valid_inter_move(rows: Seq<Seq<usize>>, f: int, ti: int, to: int, p: int) -> bool {
    &&& 0 <= f < rows.len()
    &&& 0 <= to < rows.len()
    &&& f != to
    &&& 0 <= ti < rows[f].len()
    &&& 0 <= p <= rows[to].len()
}

/// The machine sequences after an inter-machine move.
pub open spec fn moved_rows(rows: Seq<Seq<usize>>, f: int, ti: int, to: int, p: int) -> Seq<
    Seq<usize>,
> {
    let task = rows[f][ti];
    rows.update(f, rows[f].remove(ti)).update(to, rows[to].insert(p, task))
}

/// The ground-truth total objective after an inter-machine move.
pub open spec fn move_total(
    inst: ProblemInstance,
    rows: Seq<Seq<usize>>,
    f: int,
    ti: int,
    to: int,
    p: int,
) -> int {
    tct_sum(inst, moved_rows(rows, f, ti, to, p))
}

/// Whether the move (`f`, `ti`, `to`, `p`) is scanned strictly before the
/// enumeration position (`cf`, `cti`, `cto`, `cp`) in ascending
/// (from-machine, task position, to-machine, insertion position) order.
pub open spec fn scanned_before(
    f: int,
    ti: int,
    to: int,
    p: int,
    cf: int,
    cti: int,
    cto: int,
    cp: int,
) -> bool {
    ||| f < cf
    ||| (f == cf && ti < cti)
    ||| (f == cf && ti == cti && to < cto)
    ||| (f == cf && ti == cti && to == cto && p < cp)
}

/// The running best is no worse than every already-scanned move, and absent
/// only while every already-scanned position named no move.
pub open spec fn best_covers_scanned(
    inst: ProblemInstance,
    rows: Seq<Seq<usize>>,
    best: Option<(ProblemSolution, usize)>,
    cf: int,
    cti: int,
    cto: int,
    cp: int,
) -> bool {
    match best {
        Some(b) => {
            &&& b.0.wf(inst)
            &&& b.1 == b.0.total_tct()
            &&& forall|f: int, ti: int, to: int, p: int|
                valid_inter_move(rows, f, ti, to, p) && scanned_before(f, ti, to, p, cf, cti, cto, cp)
                    ==> b.1 as int <= #[trigger] move_total(inst, rows, f, ti, to, p)
        },
        None => forall|f: int, ti: int, to: int, p: int|
            !(#[trigger] valid_inter_move(rows, f, ti, to, p) && scanned_before(
                f,
                ti,
                to,
                p,
                cf,
                cti,
                cto,
                cp,
            )),
    }
}

/// `after_rows` are the input rows with one inter-machine move applied whose
/// resulting total is minimal over the whole neighborhood, and which is the
/// first such move in ascending (source machine, source position, target
/// machine, insertion position) scan order: every move scanned before it has
/// a strictly larger resulting total.
pub open spec fn applied_first_best_inter(
    inst: ProblemInstance,
    before_rows: Seq<Seq<usize>>,
    after_rows: Seq<Seq<usize>>,
) -> bool {
    exists|f: int, ti: int, to: int, p: int|
        valid_inter_move(before_rows, f, ti, to, p) && (forall|f2: int, ti2: int, to2: int, p2: int|
            valid_inter_move(before_rows, f2, ti2, to2, p2) ==> move_total(
                inst,
                before_rows,
                f,
                ti,
                to,
                p,
            ) <= #[trigger] move_total(inst, before_rows, f2, ti2, to2, p2)) && (forall|
            f2: int,
            ti2: int,
            to2: int,
            p2: int,
        |
            valid_inter_move(before_rows, f2, ti2, to2, p2) && scanned_before(
                f2,
                ti2,
                to2,
                p2,
                f,
                ti,
                to,
                p,
            ) ==> #[trigger] move_total(inst, before_rows, f2, ti2, to2, p2) > move_total(
                inst,
                before_rows,
                f,
                ti,
                to,
                p,
            )) && after_rows == #[trigger] moved_rows(before_rows, f, ti, to, p)
}

/// The running best, when present, is the result of the move at the ghost
/// coordinates (`bf`, `bti`, `bto`, `bp`): an already-scanned move whose
/// resulting total every move scanned before it strictly exceeds.
pub open spec fn best_is_first_min(
    inst: ProblemInstance,
    rows: Seq<Seq<usize>>,
    best: Option<(ProblemSolution, usize)>,
    bf: int,
    bti: int,
    bto: int,
    bp: int,
    cf: int,
    cti: int,
    cto: int,
    cp: int,
) -> bool {
    match best {
        Some(b) => {
            &&& valid_inter_move(rows, bf, bti, bto, bp)
            &&& scanned_before(bf, bti, bto, bp, cf, cti, cto, cp)
            &&& b.0.rows() == moved_rows(rows, bf, bti, bto, bp)
            &&& b.1 as int == move_total(inst, rows, bf, bti, bto, bp)
            &&& forall|f: int, ti: int, to: int, p: int|
                valid_inter_move(rows, f, ti, to, p) && scanned_before(f, ti, to, p, bf, bti, bto, bp)
                    ==> #[trigger] move_total(inst, rows, f, ti, to, p) > b.1 as int
        },
        None => true,
    }
}

/// Best-improvement reinsertion of one task into another machine: the whole
/// neighborhood is enumerated and the best move is applied when it strictly
/// improves the objective; otherwise the input is returned unchanged.
pub struct InterMachineReinsertion {}

impl InterMachineReinsertion {
    /// Creates the strategy.
    pub fn new() -> (r: Self) {
        InterMachineReinsertion {}
    }

    /// The solution with the task at `task_index` of `from_machine` moved to
    /// position `target` of `to_machine`, with both machines' caches
    /// recomputed.
    fn get_solution(
        instance: &ProblemInstance,
        solution: &ProblemSolution,
        from_machine: usize,
        task_index: usize,
        to_machine: usize,
        target: usize,
    ) -> (r: ProblemSolution)
        requires
            instance.wf(),
            instance.fits(),
            solution.wf(*instance),
            (from_machine as int) < instance.m(),
            (to_machine as int) < instance.m(),
            from_machine != to_machine,
            (task_index as int) < solution.rows()[from_machine as int].len(),
            (target as int) <= solution.rows()[to_machine as int].len(),
        ensures
            r.wf(*instance),
            r.rows() == moved_rows(
                solution.rows(),
                from_machine as int,
                task_index as int,
                to_machine as int,
                target as int,
            ),
    {
        let ghost rows0 = solution.rows();
        let ghost from_row = rows0[from_machine as int];
        let ghost to_row = rows0[to_machine as int];
        proof {
            lemma_row_len_le_total(rows0, from_machine as int);
            lemma_two_rows_le_total(rows0, from_machine as int, to_machine as int);
        }
        let mut new_from = crate::problem_solution::copy_row(
            &solution.task_assignment_matrix[from_machine],
        );
        let task = new_from.remove(task_index);
        let mut new_to = crate::problem_solution::copy_row(
            &solution.task_assignment_matrix[to_machine],
        );
        new_to.insert(target, task);
        let ghost mid = from_row.remove(task_index as int);
        proof {
            assert(new_from@ == mid);
            assert(forall|j: int| 0 <= j < mid.len() ==> #[trigger] mid[j] == from_row[j] || mid[j]
                == from_row[j + 1]);
            to_row.insert_ensures(target as int, task);
            assert(new_to@ == to_row.insert(target as int, task));
            assert forall|i: int| 0 <= i < new_to@.len() implies #[trigger] new_to@[i]
                < instance.n() by {
                if i < target as int {
                    assert(new_to@[i] == to_row[i]);
                } else if i == target as int {
                    assert(new_to@[i] == task);
                } else {
                    assert(new_to@[i] == to_row[i - 1]);
                }
            }
            instance.lemma_fits_len(new_from@);
            instance.lemma_fits_len(new_to@);
        }
        let from_tct = instance.calculate_total_completion_time(&new_from);
        let to_tct = instance.calculate_total_completion_time(&new_to);
        let mut result = solution.duplicate();
        let ghost new_from_view = new_from@;
        let ghost new_to_view = new_to@;
        result.replace_row(from_machine, new_from, from_tct);
        result.replace_row(to_machine, new_to, to_tct);
        proof {
            let rows1 = rows0.update(from_machine as int, new_from_view);
            let rows2 = rows1.update(to_machine as int, new_to_view);
            assert(result.rows() == rows2);
            assert(rows1[to_machine as int] == to_row);
            assert forall|t: int| 0 <= t < instance.n() implies #[trigger] cnt_all(
                result.rows(),
                t,
            ) == 1 by {
                lemma_cnt_all_update(rows0, from_machine as int, new_from_view, t);
                lemma_cnt_in_remove(from_row, task_index as int, t);
                lemma_cnt_all_update(rows1, to_machine as int, new_to_view, t);
                lemma_cnt_in_insert(to_row, target as int, task, t);
            }
            lemma_cnt_all_update(rows0, from_machine as int, new_from_view, 0);
            lemma_cnt_all_update(rows1, to_machine as int, new_to_view, 0);
        }
        result
    }

    /// Enumerates every move of a single task from its machine to every
    /// position of every other machine and returns the best candidate found
    /// (the first one in scan order on ties), or `None` when the
    /// neighborhood is empty.
    pub fn perform_search(instance: &ProblemInstance, solution: &ProblemSolution) -> (r: Option<
        (ProblemSolution, usize),
    >)
        requires
            instance.wf(),
            instance.fits(),
            solution.wf(*instance),
        ensures
            match r {
                Some(b) => {
                    &&& b.0.wf(*instance)
                    &&& b.1 == b.0.total_tct()
                    &&& forall|f: int, ti: int, to: int, p: int|
                        valid_inter_move(solution.rows(), f, ti, to, p) ==> b.1 as int
                            <= #[trigger] move_total(*instance, solution.rows(), f, ti, to, p)
                    &&& applied_first_best_inter(*instance, solution.rows(), b.0.rows())
                },
                None => forall|f: int, ti: int, to: int, p: int|
                    !valid_inter_move(solution.rows(), f, ti, to, p),
            },
    {
        let ghost rows = solution.rows();
        let m = instance.number_of_machines();
        let nn = instance.number_of_tasks();
        let mut best: Option<(ProblemSolution, usize)> = None;
        let ghost mut bf: int = 0;
        let ghost mut bti: int = 0;
        let ghost mut bto: int = 0;
        let ghost mut bp: int = 0;
        let mut from_machine: usize = 0;
        while from_machine < m
            invariant
                instance.wf(),
                instance.fits(),
                solution.wf(*instance),
                m == instance.m(),
                nn == instance.n(),
                from_machine <= m,
                best_covers_scanned(
                    *instance,
                    solution.rows(),
                    best,
                    from_machine as int,
                    0,
                    0,
                    0,
                ),
                best_is_first_min(
                    *instance,
                    solution.rows(),
                    best,
                    bf,
                    bti,
                    bto,
                    bp,
                    from_machine as int,
                    0,
                    0,
                    0,
                ),
            decreases m - from_machine,
        {
            let from_len = solution.task_assignment_matrix[from_machine].len();
            let mut task_index: usize = 0;
            while task_index < from_len
                invariant
                    instance.wf(),
                    instance.fits(),
                    solution.wf(*instance),
                    m == instance.m(),
                    nn == instance.n(),
                    (from_machine as int) < m as int,
                    from_len == solution.rows()[from_machine as int].len(),
                    task_index <= from_len,
                    best_covers_scanned(
                        *instance,
                        solution.rows(),
                        best,
                        from_machine as int,
                        task_index as int,
                        0,
                        0,
                    ),
                    best_is_first_min(
                        *instance,
                        solution.rows(),
                        best,
                        bf,
                        bti,
                        bto,
                        bp,
                        from_machine as int,
                        task_index as int,
                        0,
                        0,
                    ),
                decreases from_len - task_index,
            {
                let mut to_machine: usize = 0;
                while to_machine < m
                    invariant
                        instance.wf(),
                        instance.fits(),
                        solution.wf(*instance),
                        m == instance.m(),
                        nn == instance.n(),
                        (from_machine as int) < m as int,
                        from_len == solution.rows()[from_machine as int].len(),
                        (task_index as int) < from_len,
                        to_machine <= m,
                        best_covers_scanned(
                            *instance,
                            solution.rows(),
                            best,
                            from_machine as int,
                            task_index as int,
                            to_machine as int,
                            0,
                        ),
                        best_is_first_min(
                            *instance,
                            solution.rows(),
                            best,
                            bf,
                            bti,
                            bto,
                            bp,
                            from_machine as int,
                            task_index as int,
                            to_machine as int,
                            0,
                        ),
                    decreases m - to_machine,
                {
                    if to_machine != from_machine {
                        let to_len = solution.task_assignment_matrix[to_machine].len();
                        proof {
                            lemma_two_rows_le_total(
                                solution.rows(),
                                from_machine as int,
                                to_machine as int,
                            );
                        }
                        let mut target: usize = 0;
                        while target <= to_len
                            invariant
                                instance.wf(),
                                instance.fits(),
                                solution.wf(*instance),
                                m == instance.m(),
                                (from_machine as int) < m as int,
                                (to_machine as int) < m as int,
                                from_machine != to_machine,
                                from_len == solution.rows()[from_machine as int].len(),
                                to_len == solution.rows()[to_machine as int].len(),
                                (task_index as int) < from_len,
                                nn == instance.n(),
                                to_len < nn,
                                target <= to_len + 1,
                                best_covers_scanned(
                                    *instance,
                                    solution.rows(),
                                    best,
                                    from_machine as int,
                                    task_index as int,
                                    to_machine as int,
                                    target as int,
                                ),
                                best_is_first_min(
                                    *instance,
                                    solution.rows(),
                                    best,
                                    bf,
                                    bti,
                                    bto,
                                    bp,
                                    from_machine as int,
                                    task_index as int,
                                    to_machine as int,
                                    target as int,
                                ),
                            decreases to_len + 1 - target,
                        {
                            let candidate = Self::get_solution(
                                instance,
                                solution,
                                from_machine,
                                task_index,
                                to_machine,
                                target,
                            );
                            proof {
                                lemma_total_fits(*instance, candidate);
                            }
                            let candidate_tct = candidate.get_total_completion_time();
                            proof {
                                lemma_cache_matches_evaluator(*instance, candidate);
                                assert(candidate_tct as int == move_total(
                                    *instance,
                                    solution.rows(),
                                    from_machine as int,
                                    task_index as int,
                                    to_machine as int,
                                    target as int,
                                ));
                            }
                            let better = match &best {
                                Some(b) => candidate_tct < b.1,
                                None => true,
                            };
                            if better {
                                best = Some((candidate, candidate_tct));
                                proof {
                                    bf = from_machine as int;
                                    bti = task_index as int;
                                    bto = to_machine as int;
                                    bp = target as int;
                                }
                            }
                            target = target + 1;
                        }
                    }
                    to_machine = to_machine + 1;
                }
                task_index = task_index + 1;
            }
            from_machine = from_machine + 1;
        }
        proof {
            if best is Some {
                assert(applied_first_best_inter(
                    *instance,
                    solution.rows(),
                    best->Some_0.0.rows(),
                ));
            }
        }
        best
    }
}

impl LocalSearch for InterMachineReinsertion {
    /// Best improvement: the result is no worse than every single move of
    /// the inter-machine reinsertion neighborhood of the input; when it
    /// improves on the input it is exactly the first minimum-total move of
    /// that neighborhood applied, and otherwise it is the input unchanged.
    open spec fn strategy_spec(
        &self,
        inst: ProblemInstance,
        before: ProblemSolution,
        after: ProblemSolution,
    ) -> bool {
        &&& forall|f: int, ti: int, to: int, p: int|
            valid_inter_move(before.rows(), f, ti, to, p) ==> after.total_tct()
                <= #[trigger] move_total(inst, before.rows(), f, ti, to, p)
        &&& after.total_tct() < before.total_tct() ==> applied_first_best_inter(
            inst,
            before.rows(),
            after.rows(),
        )
        &&& after.total_tct() < before.total_tct() || (after.rows() == before.rows()
            && after.tcts() == before.tcts())
    }

    fn improve(&self, instance: &ProblemInstance, solution: ProblemSolution) -> (r:
        ProblemSolution) {
        proof {
            lemma_total_fits(*instance, solution);
        }
        let solution_tct = solution.get_total_completion_time();
        match Self::perform_search(instance, &solution) {
            Some(b) => {
                if b.1 < solution_tct {
                    b.0
                } else {
                    solution
                }
            },
            None => solution,
        }
    }
}

} // verus!
