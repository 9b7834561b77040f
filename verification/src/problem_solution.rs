//! The assignment representation and its cached objective values.

use crate::problem_instance::ProblemInstance;
use vstd::prelude::*;

verus! {

/// How many times task `t` occurs in the single machine sequence `s`.
pub open spec fn cnt_in(s: Seq<usize>, t: int) -> int
    decreases s.len(),
{
    if s.len() == 0 {
        0
    } else {
        cnt_in(s.drop_last(), t) + if s.last() as int == t {
            1int
        } else {
            0int
        }
    }
}

/// How many times task `t` occurs over all machine sequences.
pub open spec fn cnt_all(rows: Seq<Seq<usize>>, t: int) -> int
    decreases rows.len(),
{
    if rows.len() == 0 {
        0
    } else {
        cnt_all(rows.drop_last(), t) + cnt_in(rows.last(), t)
    }
}

/// Total number of task occurrences over all machine sequences.
pub open spec fn total_len(rows: Seq<Seq<usize>>) -> int
    decreases rows.len(),
{
    if rows.len() == 0 {
        0
    } else {
        total_len(rows.drop_last()) + rows.last().len()
    }
}

/// Sum of the cached per-machine completion times.
pub open spec fn sum_usize(s: Seq<usize>) -> int
    decreases s.len(),
{
    if s.len() == 0 {
        0
    } else {
        sum_usize(s.drop_last()) + s.last()
    }
}

/// Sum of the evaluator's ground-truth completion time over all machine
/// sequences.
pub open spec fn tct_sum(inst: ProblemInstance, rows: Seq<Seq<usize>>) -> int
    decreases rows.len(),
{
    if rows.len() == 0 {
        0
    } else {
        tct_sum(inst, rows.drop_last()) + inst.seq_tct(rows.last())
    }
}

/// A candidate solution: one ordered task sequence per machine, and the
/// cached total completion time contributed by each machine.
pub struct ProblemSolution {
    pub tcts_by_machine: Vec<usize>,
    pub task_assignment_matrix: Vec<Vec<usize>>,
}

impl ProblemSolution {
    /// The machine sequences as a sequence of sequences of task indices.
    pub open spec fn rows(&self) -> Seq<Seq<usize>> {
        Seq::new(self.task_assignment_matrix@.len(), |i: int| self.task_assignment_matrix@[i]@)
    }

    /// The cached per-machine completion times.
    pub open spec fn tcts(&self) -> Seq<usize> {
        self.tcts_by_machine@
    }

    /// The total objective value, as a mathematical integer.
    pub open spec fn total_tct(&self) -> int {
        sum_usize(self.tcts())
    }

    /// The invariant of every solution handed to a caller: one sequence and
    /// one cache entry per machine, every entry a task index, every task
    /// placed exactly once, and every cache entry exactly the evaluator's
    /// result for its machine's sequence.
    pub open spec fn wf(&self, inst: ProblemInstance) -> bool {
        &&& self.rows().len() == inst.m()
        &&& self.tcts().len() == inst.m()
        &&& forall|mi: int| 0 <= mi < inst.m() ==> inst.valid_tasks(#[trigger] self.rows()[mi])
        &&& forall|mi: int|
            0 <= mi < inst.m() ==> #[trigger] self.tcts()[mi] == inst.seq_tct(self.rows()[mi])
        &&& forall|t: int| 0 <= t < inst.n() ==> #[trigger] cnt_all(self.rows(), t) == 1
        &&& total_len(self.rows()) == inst.n()
    }

    /// The total completion time of the solution: the sum of the cached
    /// per-machine completion times.
    pub fn get_total_completion_time(&self) -> (r: usize)
        requires
            self.total_tct() <= usize::MAX,
        ensures
            r == self.total_tct(),
    {
        let mut total: usize = 0;
        let mut i: usize = 0;
        let len = self.tcts_by_machine.len();
        proof {
            assert(self.tcts().take(0) =~= Seq::<usize>::empty());
        }
        while i < len
            invariant
                i <= len,
                len == self.tcts().len(),
                self.total_tct() <= usize::MAX,
                total == sum_usize(self.tcts().take(i as int)),
            decreases len - i,
        {
            proof {
                lemma_sum_take_step(self.tcts(), i as int);
                lemma_sum_take_le(self.tcts(), i + 1);
            }
            total = total + self.tcts_by_machine[i];
            i = i + 1;
        }
        proof {
            assert(self.tcts().take(len as int) =~= self.tcts());
        }
        total
    }

    /// The cached completion time of each machine.
    pub fn get_tcts_by_machine(&self) -> (r: &Vec<usize>)
        ensures
            r@ == self.tcts(),
    {
        &self.tcts_by_machine
    }

    /// The ordered task sequence of each machine.
    pub fn get_tasks_by_machine(&self) -> (r: &Vec<Vec<usize>>)
        ensures
            r@.len() == self.rows().len(),
            forall|i: int| 0 <= i < r@.len() ==> #[trigger] r@[i]@ == self.rows()[i],
    {
        &self.task_assignment_matrix
    }

    /// An empty solution under construction: no machines yet.
    pub(crate) fn empty() -> (r: Self)
        ensures
            r.rows() =~= Seq::<Seq<usize>>::empty(),
            r.tcts() =~= Seq::<usize>::empty(),
    {
        ProblemSolution { tcts_by_machine: Vec::new(), task_assignment_matrix: Vec::new() }
    }

    /// Appends a machine with sequence `row` and cached completion time
    /// `tct`.
    pub(crate) fn push_row(&mut self, row: Vec<usize>, tct: usize)
        ensures
            final(self).rows() =~= old(self).rows().push(row@),
            final(self).tcts() =~= old(self).tcts().push(tct),
    {
        self.task_assignment_matrix.push(row);
        self.tcts_by_machine.push(tct);
    }

    /// Inserts `task` at `pos` in `machine`'s sequence and overwrites that
    /// machine's cache with `tct`.
    pub(crate) fn insert_task(&mut self, machine: usize, pos: usize, task: usize, tct: usize)
        requires
            machine < old(self).rows().len(),
            machine < old(self).tcts().len(),
            pos <= old(self).rows()[machine as int].len(),
        ensures
            final(self).rows() =~= old(self).rows().update(
                machine as int,
                old(self).rows()[machine as int].insert(pos as int, task),
            ),
            final(self).tcts() =~= old(self).tcts().update(machine as int, tct),
    {
        self.task_assignment_matrix[machine].insert(pos, task);
        self.tcts_by_machine[machine] = tct;
        proof {
            assert forall|i: int| 0 <= i < final(self).rows().len() implies final(self).rows()[i]
                == old(self).rows().update(
                machine as int,
                old(self).rows()[machine as int].insert(pos as int, task),
            )[i] by {}
        }
    }

    /// Replaces `machine`'s sequence with `row` and its cache with `tct`.
    pub(crate) fn replace_row(&mut self, machine: usize, row: Vec<usize>, tct: usize)
        requires
            machine < old(self).rows().len(),
            machine < old(self).tcts().len(),
        ensures
            final(self).rows() =~= old(self).rows().update(machine as int, row@),
            final(self).tcts() =~= old(self).tcts().update(machine as int, tct),
    {
        self.task_assignment_matrix[machine] = row;
        self.tcts_by_machine[machine] = tct;
        proof {
            assert forall|i: int| 0 <= i < final(self).rows().len() implies final(self).rows()[i]
                == old(self).rows().update(machine as int, row@)[i] by {}
        }
    }

    /// A deep copy with identical machine sequences and caches.
    pub fn duplicate(&self) -> (r: Self)
        ensures
            r.rows() =~= self.rows(),
            r.tcts() =~= self.tcts(),
    {
        let mut matrix: Vec<Vec<usize>> = Vec::new();
        let mut i: usize = 0;
        let len = self.task_assignment_matrix.len();
        while i < len
            invariant
                i <= len,
                len == self.rows().len(),
                matrix@.len() == i,
                forall|j: int| 0 <= j < i ==> #[trigger] matrix@[j]@ == self.rows()[j],
            decreases len - i,
        {
            matrix.push(copy_row(&self.task_assignment_matrix[i]));
            i = i + 1;
        }
        let mut tcts: Vec<usize> = Vec::new();
        let mut k: usize = 0;
        let tlen = self.tcts_by_machine.len();
        while k < tlen
            invariant
                k <= tlen,
                tlen == self.tcts().len(),
                tcts@ =~= self.tcts().take(k as int),
            decreases tlen - k,
        {
            tcts.push(self.tcts_by_machine[k]);
            k = k + 1;
        }
        proof {
            assert(tcts@ =~= self.tcts());
        }
        ProblemSolution { tcts_by_machine: tcts, task_assignment_matrix: matrix }
    }
}

/// An element-by-element copy of one machine sequence.
pub(crate) fn copy_row(row: &Vec<usize>) -> (r: Vec<usize>)
    ensures
        r@ =~= row@,
{
    let mut out: Vec<usize> = Vec::new();
    let mut i: usize = 0;
    let len = row.len();
    while i < len
        invariant
            i <= len,
            len == row@.len(),
            out@ =~= row@.take(i as int),
        decreases len - i,
    {
        out.push(row[i]);
        i = i + 1;
    }
    out
}

/// Prefix sums of the caches never exceed the full sum.
pub proof fn lemma_sum_take_le(s: Seq<usize>, i: int)
    requires
        0 <= i <= s.len(),
    ensures
        sum_usize(s.take(i)) <= sum_usize(s),
    decreases s.len(),
{
    if i < s.len() {
        assert(s.take(i) =~= s.drop_last().take(i));
        lemma_sum_take_le(s.drop_last(), i);
        lemma_sum_nonneg(s.drop_last());
        assert(sum_usize(s) == sum_usize(s.drop_last()) + s.last());
    } else {
        assert(s.take(i) =~= s);
    }
}

pub proof fn lemma_sum_nonneg(s: Seq<usize>)
    ensures
        sum_usize(s) >= 0,
    decreases s.len(),
{
    if s.len() > 0 {
        lemma_sum_nonneg(s.drop_last());
    }
}

/// `sum(take(i + 1)) == sum(take(i)) + s[i]`.
pub proof fn lemma_sum_take_step(s: Seq<usize>, i: int)
    requires
        0 <= i < s.len(),
    ensures
        sum_usize(s.take(i + 1)) == sum_usize(s.take(i)) + s[i],
{
    assert(s.take(i + 1).drop_last() =~= s.take(i));
    assert(s.take(i + 1).last() == s[i]);
}

/// Inserting `x` anywhere in a sequence raises the count of `x` by one and
/// leaves every other count unchanged.
pub proof fn lemma_cnt_in_insert(s: Seq<usize>, p: int, x: usize, t: int)
    requires
        0 <= p <= s.len(),
    ensures
        cnt_in(s.insert(p, x), t) == cnt_in(s, t) + if x as int == t {
            1int
        } else {
            0int
        },
    decreases s.len(),
{
    if p == s.len() {
        assert(s.insert(p, x).drop_last() =~= s);
        assert(s.insert(p, x).last() == x);
    } else {
        assert(s.insert(p, x).drop_last() =~= s.drop_last().insert(p, x));
        assert(s.insert(p, x).last() == s.last());
        lemma_cnt_in_insert(s.drop_last(), p, x, t);
    }
}

/// Removing position `i` lowers the count of the removed task by one and
/// leaves every other count unchanged.
pub proof fn lemma_cnt_in_remove(s: Seq<usize>, i: int, t: int)
    requires
        0 <= i < s.len(),
    ensures
        cnt_in(s.remove(i), t) == cnt_in(s, t) - if s[i] as int == t {
            1int
        } else {
            0int
        },
    decreases s.len(),
{
    if i == s.len() - 1 {
        assert(s.remove(i) =~= s.drop_last());
    } else {
        assert(s.remove(i).drop_last() =~= s.drop_last().remove(i));
        assert(s.remove(i).last() == s.last());
        lemma_cnt_in_remove(s.drop_last(), i, t);
    }
}

pub proof fn lemma_cnt_in_singleton(x: usize, t: int)
    ensures
        cnt_in(seq![x], t) == if x as int == t {
            1int
        } else {
            0int
        },
{
    let s = seq![x];
    assert(s.len() == 1);
    assert(s.drop_last() =~= Seq::<usize>::empty());
    assert(s.last() == x);
    assert(cnt_in(s, t) == cnt_in(s.drop_last(), t) + if x as int == t { 1int } else { 0int });
}

pub proof fn lemma_cnt_all_push(rows: Seq<Seq<usize>>, r: Seq<usize>, t: int)
    ensures
        cnt_all(rows.push(r), t) == cnt_all(rows, t) + cnt_in(r, t),
        total_len(rows.push(r)) == total_len(rows) + r.len(),
{
    assert(rows.push(r).drop_last() =~= rows);
    assert(rows.push(r).last() == r);
}

/// Replacing one machine's sequence changes the global counts by exactly the
/// difference between the new and the old sequence's counts.
pub proof fn lemma_cnt_all_update(rows: Seq<Seq<usize>>, m: int, r: Seq<usize>, t: int)
    requires
        0 <= m < rows.len(),
    ensures
        cnt_all(rows.update(m, r), t) == cnt_all(rows, t) - cnt_in(rows[m], t) + cnt_in(r, t),
        total_len(rows.update(m, r)) == total_len(rows) - rows[m].len() + r.len(),
    decreases rows.len(),
{
    if m == rows.len() - 1 {
        assert(rows.update(m, r).drop_last() =~= rows.drop_last());
        assert(rows.update(m, r).last() == r);
        assert(rows.last() == rows[m]);
    } else {
        assert(rows.update(m, r).drop_last() =~= rows.drop_last().update(m, r));
        assert(rows.update(m, r).last() == rows.last());
        assert(rows.drop_last()[m] == rows[m]);
        lemma_cnt_all_update(rows.drop_last(), m, r, t);
    }
}

pub proof fn lemma_total_len_nonneg(rows: Seq<Seq<usize>>)
    ensures
        total_len(rows) >= 0,
    decreases rows.len(),
{
    if rows.len() > 0 {
        lemma_total_len_nonneg(rows.drop_last());
    }
}

/// No single machine holds more task occurrences than all machines together.
pub proof fn lemma_row_len_le_total(rows: Seq<Seq<usize>>, m: int)
    requires
        0 <= m < rows.len(),
    ensures
        rows[m].len() <= total_len(rows),
    decreases rows.len(),
{
    if m == rows.len() - 1 {
        lemma_total_len_nonneg(rows.drop_last());
    } else {
        assert(rows.drop_last()[m] == rows[m]);
        lemma_row_len_le_total(rows.drop_last(), m);
    }
}

/// Two different machines together hold no more task occurrences than all
/// machines.
pub proof fn lemma_two_rows_le_total(rows: Seq<Seq<usize>>, a: int, b: int)
    requires
        0 <= a < rows.len(),
        0 <= b < rows.len(),
        a != b,
    ensures
        rows[a].len() + rows[b].len() <= total_len(rows),
    decreases rows.len(),
{
    if a == rows.len() - 1 {
        lemma_row_len_le_total(rows.drop_last(), b);
        assert(rows.drop_last()[b] == rows[b]);
    } else if b == rows.len() - 1 {
        lemma_row_len_le_total(rows.drop_last(), a);
        assert(rows.drop_last()[a] == rows[a]);
    } else {
        assert(rows.drop_last()[a] == rows[a]);
        assert(rows.drop_last()[b] == rows[b]);
        lemma_two_rows_le_total(rows.drop_last(), a, b);
    }
}

/// The ground-truth objective of any family of valid machine sequences is
/// bounded by `vmax * L * (L + 1)` where `L` is the number of placed task
/// occurrences; machine by machine the bound is superadditive.
pub proof fn lemma_tct_sum_bound(inst: ProblemInstance, rows: Seq<Seq<usize>>)
    requires
        inst.wf(),
        forall|mi: int| 0 <= mi < rows.len() ==> inst.valid_tasks(#[trigger] rows[mi]),
    ensures
        tct_sum(inst, rows) <= inst.vmax() * total_len(rows) * (total_len(rows) + 1),
    decreases rows.len(),
{
    crate::problem_instance::lemma_seq_max_nonneg(inst.task_times@);
    crate::problem_instance::lemma_mat_max_nonneg(inst.setup_times@);
    if rows.len() == 0 {
        assert(inst.vmax() * 0 * 1 == 0) by (nonlinear_arith);
    } else {
        let front = rows.drop_last();
        let last = rows.last();
        assert(forall|mi: int| 0 <= mi < front.len() ==> front[mi] == rows[mi]);
        lemma_tct_sum_bound(inst, front);
        assert(rows[rows.len() - 1] == last);
        inst.lemma_tct_bound(0, last);
        lemma_total_len_nonneg(front);
        let a = total_len(front);
        let b = last.len() as int;
        let v = inst.vmax();
        assert(v * a * (a + 1) + v * b * (b + 1) <= v * (a + b) * (a + b + 1))
            by (nonlinear_arith)
            requires
                v >= 0,
                a >= 0,
                b >= 0,
        ;
    }
}

/// A well-formed solution's total objective fits in `usize` whenever the
/// instance satisfies the machine-word bound.
pub proof fn lemma_total_fits(inst: ProblemInstance, sol: ProblemSolution)
    requires
        inst.wf(),
        inst.fits(),
        sol.wf(inst),
    ensures
        sol.total_tct() <= usize::MAX,
        sol.total_tct() >= 0,
{
    lemma_cache_matches_evaluator(inst, sol);
    lemma_tct_sum_bound(inst, sol.rows());
    lemma_sum_nonneg(sol.tcts());
}

/// The law that the caches never drift from ground truth: on any well-formed
/// solution, the sum of the cached per-machine completion times equals the
/// evaluator's result recomputed independently over every machine's sequence.
pub proof fn lemma_cache_matches_evaluator(inst: ProblemInstance, sol: ProblemSolution)
    requires
        sol.wf(inst),
    ensures
        sol.total_tct() == tct_sum(inst, sol.rows()),
{
    lemma_sum_eq_tct_sum(inst, sol.tcts(), sol.rows());
}

proof fn lemma_sum_eq_tct_sum(inst: ProblemInstance, tcts: Seq<usize>, rows: Seq<Seq<usize>>)
    requires
        tcts.len() == rows.len(),
        forall|mi: int| 0 <= mi < rows.len() ==> #[trigger] tcts[mi] == inst.seq_tct(rows[mi]),
    ensures
        sum_usize(tcts) == tct_sum(inst, rows),
    decreases rows.len(),
{
    if rows.len() > 0 {
        assert(forall|mi: int|
            0 <= mi < rows.len() - 1 ==> #[trigger] tcts.drop_last()[mi] == tcts[mi]);
        assert(forall|mi: int|
            0 <= mi < rows.len() - 1 ==> #[trigger] rows.drop_last()[mi] == rows[mi]);
        lemma_sum_eq_tct_sum(inst, tcts.drop_last(), rows.drop_last());
        assert(tcts.last() == tcts[rows.len() - 1]);
        assert(rows.last() == rows[rows.len() - 1]);
    }
}

/// The law that every returned assignment is a partition of the task set:
/// well-formedness pins every task index below `n` to exactly one occurrence
/// over all machines, and any value at or above `n` to none.
pub proof fn lemma_solution_is_partition(inst: ProblemInstance, sol: ProblemSolution)
    requires
        sol.wf(inst),
    ensures
        forall|t: int| 0 <= t < inst.n() ==> #[trigger] cnt_all(sol.rows(), t) == 1,
        forall|t: int| !(0 <= t < inst.n()) ==> #[trigger] cnt_all(sol.rows(), t) == 0,
{
    assert forall|t: int| !(0 <= t < inst.n()) implies #[trigger] cnt_all(sol.rows(), t) == 0 by {
        lemma_cnt_all_out_of_range(inst, sol.rows(), t);
    }
}

proof fn lemma_cnt_all_out_of_range(inst: ProblemInstance, rows: Seq<Seq<usize>>, t: int)
    requires
        forall|mi: int| 0 <= mi < rows.len() ==> inst.valid_tasks(#[trigger] rows[mi]),
        !(0 <= t < inst.n()),
    ensures
        cnt_all(rows, t) == 0,
    decreases rows.len(),
{
    if rows.len() > 0 {
        assert(forall|mi: int|
            0 <= mi < rows.len() - 1 ==> #[trigger] rows.drop_last()[mi] == rows[mi]);
        lemma_cnt_all_out_of_range(inst, rows.drop_last(), t);
        assert(rows.last() == rows[rows.len() - 1]);
        lemma_cnt_in_out_of_range(inst, rows.last(), t);
    }
}

proof fn lemma_cnt_in_out_of_range(inst: ProblemInstance, s: Seq<usize>, t: int)
    requires
        inst.valid_tasks(s),
        !(0 <= t < inst.n()),
    ensures
        cnt_in(s, t) == 0,
    decreases s.len(),
{
    if s.len() > 0 {
        assert(forall|i: int| 0 <= i < s.len() - 1 ==> #[trigger] s.drop_last()[i] == s[i]);
        lemma_cnt_in_out_of_range(inst, s.drop_last(), t);
        assert(s.last() == s[s.len() - 1]);
    }
}

} // verus!
