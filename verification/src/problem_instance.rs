//! The immutable problem data and the completion-time evaluator.

use crate::ValidationError;
use vstd::prelude::*;

verus! {

/// Immutable problem data: the number of machines, one processing time per
/// task, and an `(n+1) x (n+1)` setup-time matrix whose row and column `0`
/// stand for the idle (start) state.  Task `t` corresponds to matrix state
/// `t + 1`.
pub struct ProblemInstance {
    pub machines: usize,
    pub task_times: Vec<usize>,
    pub setup_times: Vec<Vec<usize>>,
}

impl ProblemInstance {
    /// Number of tasks.
    pub open spec fn n(&self) -> int {
        self.task_times@.len() as int
    }

    /// Number of machines.
    pub open spec fn m(&self) -> int {
        self.machines as int
    }

    /// Processing time of task `t`.
    pub open spec fn dur(&self, t: int) -> int {
        self.task_times@[t] as int
    }

    /// Setup time for the transition between matrix states `a` and `b`
    /// (state `0` is idle, task `t` is state `t + 1`).
    pub open spec fn su(&self, a: int, b: int) -> int {
        self.setup_times@[a]@[b] as int
    }

    /// Dimensional consistency: the setup matrix is square of size `n + 1`,
    /// and a positive number of tasks requires at least one machine.
    pub open spec fn wf(&self) -> bool {
        &&& self.setup_times@.len() == self.n() + 1
        &&& forall|i: int|
            0 <= i < self.setup_times@.len() ==> #[trigger] self.setup_times@[i]@.len() == self.n()
                + 1
        &&& self.n() > 0 ==> self.m() > 0
    }

    /// Every entry of `s` is a task index.
    pub open spec fn valid_tasks(&self, s: Seq<usize>) -> bool {
        forall|i: int| 0 <= i < s.len() ==> #[trigger] s[i] < self.n()
    }

    /// Total completion time of the ordered task sequence `s`, started from
    /// matrix state `prev`: the first task's setup-plus-duration delays the
    /// finish times of all `s.len()` tasks, and the rest of the sequence is
    /// accounted recursively from the first task's state.
    pub open spec fn tct_from(&self, prev: int, s: Seq<usize>) -> int
        decreases s.len(),
    {
        if s.len() == 0 {
            0
        } else {
            let step = self.su(prev, s[0] + 1) + self.dur(s[0] as int);
            step * s.len() + self.tct_from(s[0] + 1, s.skip(1))
        }
    }

    /// Total completion time of a machine that starts idle and processes `s`
    /// in order: the sum of every task's finish time.
    pub open spec fn seq_tct(&self, s: Seq<usize>) -> int {
        self.tct_from(0, s)
    }

    /// Largest value occurring among the task durations and setup times.
    pub open spec fn vmax(&self) -> int {
        if seq_max(self.task_times@) > mat_max(self.setup_times@) {
            seq_max(self.task_times@)
        } else {
            mat_max(self.setup_times@)
        }
    }

    /// The machine-word precondition for running the solvers: the total
    /// completion time of any arrangement of the tasks fits in `usize`.
    pub open spec fn fits(&self) -> bool {
        self.vmax() * self.n() * (self.n() + 1) <= usize::MAX
    }

    /// A finish time is never negative.
    pub proof fn lemma_tct_nonneg(&self, prev: int, s: Seq<usize>)
        ensures
            self.tct_from(prev, s) >= 0,
        decreases s.len(),
    {
        if s.len() > 0 {
            let step = self.su(prev, s[0] + 1) + self.dur(s[0] as int);
            assert(step >= 0);
            assert(step * s.len() >= 0) by (nonlinear_arith)
                requires
                    step >= 0,
                    s.len() >= 0,
            ;
            self.lemma_tct_nonneg(s[0] + 1, s.skip(1));
        }
    }

    /// Every single step of a valid sequence costs at most `2 * vmax`, so the
    /// total completion time is at most `vmax * len * (len + 1)`.
    pub proof fn lemma_tct_bound(&self, prev: int, s: Seq<usize>)
        requires
            self.wf(),
            0 <= prev <= self.n(),
            self.valid_tasks(s),
        ensures
            self.tct_from(prev, s) <= self.vmax() * s.len() * (s.len() + 1),
        decreases s.len(),
    {
        lemma_seq_max_nonneg(self.task_times@);
        lemma_mat_max_nonneg(self.setup_times@);
        if s.len() == 0 {
            assert(self.vmax() * s.len() * (s.len() + 1) == 0) by (nonlinear_arith)
                requires
                    s.len() == 0,
            ;
        } else {
            let len = s.len() as int;
            let v = self.vmax();
            let step = self.su(prev, s[0] + 1) + self.dur(s[0] as int);
            assert(s[0] < self.n());
            lemma_mat_max_ge(self.setup_times@, prev, s[0] + 1);
            lemma_seq_max_ge(self.task_times@, s[0] as int);
            assert(step <= 2 * v);
            self.lemma_tct_bound(s[0] + 1, s.skip(1));
            assert(s.skip(1).len() == len - 1);
            assert(step * len + v * (len - 1) * len <= v * len * (len + 1)) by (nonlinear_arith)
                requires
                    step <= 2 * v,
                    len >= 1,
                    v >= 0,
            ;
        }
    }

    /// Any valid sequence of at most `n` tasks has an evaluator value that
    /// fits in the machine word, given the instance bound.
    pub proof fn lemma_fits_len(&self, s: Seq<usize>)
        requires
            self.wf(),
            self.fits(),
            self.valid_tasks(s),
            s.len() <= self.n(),
        ensures
            0 <= self.seq_tct(s) <= usize::MAX,
    {
        self.lemma_tct_nonneg(0, s);
        self.lemma_tct_bound(0, s);
        lemma_seq_max_nonneg(self.task_times@);
        lemma_mat_max_nonneg(self.setup_times@);
        let v = self.vmax();
        let a = s.len() as int;
        let n = self.n();
        assert(v * a * (a + 1) <= v * n * (n + 1)) by (nonlinear_arith)
            requires
                v >= 0,
                0 <= a <= n,
        ;
    }

    /// The cost of seeding a machine with task `t` fits in the machine word.
    pub proof fn lemma_seed_cost_fits(&self, t: int)
        requires
            self.wf(),
            self.fits(),
            0 <= t < self.n(),
        ensures
            0 <= self.su(0, t + 1) + self.dur(t) <= usize::MAX,
    {
        lemma_seq_max_nonneg(self.task_times@);
        lemma_mat_max_nonneg(self.setup_times@);
        lemma_mat_max_ge(self.setup_times@, 0, t + 1);
        lemma_seq_max_ge(self.task_times@, t);
        let v = self.vmax();
        let n = self.n();
        assert(2 * v <= v * n * (n + 1)) by (nonlinear_arith)
            requires
                v >= 0,
                n >= 1,
        ;
    }

    /// A machine holding a single task finishes it after the idle setup plus
    /// its duration.
    pub proof fn lemma_tct_singleton(&self, t: usize)
        ensures
            self.seq_tct(seq![t]) == self.su(0, t + 1) + self.dur(t as int),
    {
        let s = seq![t];
        assert(s.len() == 1);
        assert(s[0] == t);
        assert(s.skip(1) =~= Seq::<usize>::empty());
        assert(self.tct_from(t + 1, s.skip(1)) == 0);
        assert(self.tct_from(0, s) == (self.su(0, t + 1) + self.dur(t as int)) * 1 + 0);
    }

    /// Creates a validated instance.  `n` is the declared number of tasks;
    /// construction fails with a [`ValidationError`] when `task_times` does
    /// not have length `n`, when `setup_times` is not a square matrix of size
    /// `n + 1`, or when `n > 0` tasks come with `machines == 0`.
    pub fn new(n: usize, machines: usize, task_times: Vec<usize>, setup_times: Vec<Vec<usize>>) -> (
        r: Result<ProblemInstance, ValidationError>)
        ensures
            match r {
                Ok(inst) => {
                    &&& inst.wf()
                    &&& inst.machines == machines
                    &&& inst.task_times@ == task_times@
                    &&& inst.setup_times@ == setup_times@
                    &&& task_times@.len() == n
                },
                Err(_) => !{
                    &&& task_times@.len() == n
                    &&& setup_times@.len() == n + 1
                    &&& forall|i: int|
                        0 <= i < setup_times@.len() ==> #[trigger] setup_times@[i]@.len() == n + 1
                    &&& n > 0 ==> machines > 0
                },
            },
    {
        if task_times.len() != n {
            return Err(ValidationError);
        }
        let rows = setup_times.len();
        if n == usize::MAX || rows != n + 1 {
            return Err(ValidationError);
        }
        if n > 0 && machines == 0 {
            return Err(ValidationError);
        }
        let mut i: usize = 0;
        while i < setup_times.len()
            invariant
                i <= setup_times@.len(),
                setup_times@.len() == n + 1,
                n + 1 <= usize::MAX,
                forall|j: int| 0 <= j < i ==> #[trigger] setup_times@[j]@.len() == n + 1,
            decreases setup_times@.len() - i,
        {
            if setup_times[i].len() != n + 1 {
                return Err(ValidationError);
            }
            i = i + 1;
        }
        Ok(ProblemInstance { machines, task_times, setup_times })
    }

    /// The per-task processing times.
    pub fn task_times(&self) -> (r: &Vec<usize>)
        ensures
            r@ == self.task_times@,
            r@.len() == self.n(),
    {
        &self.task_times
    }

    /// The setup-time matrix, row and column `0` standing for the idle state.
    pub fn setup_times(&self) -> (r: &Vec<Vec<usize>>)
        ensures
            r@ == self.setup_times@,
    {
        &self.setup_times
    }

    /// The number of machines.
    pub fn number_of_machines(&self) -> (r: usize)
        ensures
            r == self.machines,
    {
        self.machines
    }

    /// The number of tasks.
    pub fn number_of_tasks(&self) -> (r: usize)
        ensures
            r == self.n(),
    {
        self.task_times.len()
    }

    /// Evaluates the total completion time of the ordered task sequence
    /// `tasks` on a machine that starts idle: the sum of every task's finish
    /// time (a flow-time objective, not a makespan).
    pub fn calculate_total_completion_time(&self, tasks: &Vec<usize>) -> (r: usize)
        requires
            self.wf(),
            self.valid_tasks(tasks@),
            self.seq_tct(tasks@) <= usize::MAX,
        ensures
            r == self.seq_tct(tasks@),
    {
        let s = Ghost(tasks@);
        let len = tasks.len();
        let nn = self.task_times.len();
        let mut total: usize = 0;
        let mut clock: usize = 0;
        let mut prev: usize = 0;
        let mut i: usize = 0;
        proof {
            assert(s@.skip(0) =~= s@);
        }
        while i < len
            invariant
                self.wf(),
                nn == self.n(),
                self.valid_tasks(s@),
                s@ == tasks@,
                len == s@.len(),
                0 <= i <= len,
                prev == if i == 0 {
                    0int
                } else {
                    s@[i - 1] + 1
                },
                0 <= prev <= self.n(),
                self.seq_tct(s@) <= usize::MAX,
                self.seq_tct(s@) == total + clock * (len - i) + self.tct_from(
                    prev as int,
                    s@.skip(i as int),
                ),
            decreases len - i,
        {
            let t = tasks[i];
            let tail = Ghost(s@.skip(i as int));
            assert(tail@[0] == s@[i as int]);
            assert(tail@.len() == len - i);
            let step_g = Ghost(self.su(prev as int, t + 1) + self.dur(t as int));
            proof {
                assert(tail@.skip(1) =~= s@.skip(i + 1));
                assert(self.tct_from(prev as int, tail@) == step_g@ * tail@.len() + self.tct_from(
                    t + 1,
                    s@.skip(i + 1),
                ));
                self.lemma_tct_nonneg(t + 1, s@.skip(i + 1));
                self.lemma_tct_nonneg(prev as int, tail@);
                // The next finish time clock + step is bounded by the
                // objective value, because every remaining finish time
                // includes it.
                assert(clock + step_g@ <= clock * (len - i) + step_g@ * (len - i))
                    by (nonlinear_arith)
                    requires
                        clock >= 0,
                        step_g@ >= 0,
                        len - i >= 1,
                ;
            }
            let su = self.setup_times[prev][t + 1];
            let step = su + self.task_times[t];
            assert(step == step_g@);
            clock = clock + step;
            proof {
                assert(total + clock * (len - i - 1) + self.tct_from(t + 1, s@.skip(i + 1)) + clock
                    == self.seq_tct(s@)) by (nonlinear_arith)
                    requires
                        self.seq_tct(s@) == total + (clock - step) * (len - i) + step * (len - i)
                            + self.tct_from(t + 1, s@.skip(i + 1)),
                        clock == (clock - step) + step,
                        len - i >= 1,
                ;
                self.lemma_tct_nonneg(t + 1, s@.skip(i + 1));
                assert(clock * (len - i - 1) >= 0) by (nonlinear_arith)
                    requires
                        clock >= 0,
                        len - i - 1 >= 0,
                ;
            }
            total = total + clock;
            prev = t + 1;
            i = i + 1;
        }
        proof {
            assert(s@.skip(len as int) =~= Seq::<usize>::empty());
            assert(self.tct_from(prev as int, s@.skip(len as int)) == 0);
            assert(clock * (len - len) == 0) by (nonlinear_arith);
        }
        total
    }
}

/// Largest element of `s`, or `0` when `s` is empty.
pub open spec fn seq_max(s: Seq<usize>) -> int
    decreases s.len(),
{
    if s.len() == 0 {
        0
    } else {
        let rest = seq_max(s.drop_last());
        if s.last() as int > rest {
            s.last() as int
        } else {
            rest
        }
    }
}

/// Largest element of the matrix `rows`, or `0` when it is empty.
pub open spec fn mat_max(rows: Seq<Vec<usize>>) -> int
    decreases rows.len(),
{
    if rows.len() == 0 {
        0
    } else {
        let rest = mat_max(rows.drop_last());
        if seq_max(rows.last()@) > rest {
            seq_max(rows.last()@)
        } else {
            rest
        }
    }
}

pub proof fn lemma_seq_max_nonneg(s: Seq<usize>)
    ensures
        seq_max(s) >= 0,
    decreases s.len(),
{
    if s.len() > 0 {
        lemma_seq_max_nonneg(s.drop_last());
    }
}

pub proof fn lemma_mat_max_nonneg(rows: Seq<Vec<usize>>)
    ensures
        mat_max(rows) >= 0,
    decreases rows.len(),
{
    if rows.len() > 0 {
        lemma_mat_max_nonneg(rows.drop_last());
    }
}

pub proof fn lemma_seq_max_ge(s: Seq<usize>, i: int)
    requires
        0 <= i < s.len(),
    ensures
        s[i] <= seq_max(s),
    decreases s.len(),
{
    if i < s.len() - 1 {
        lemma_seq_max_ge(s.drop_last(), i);
    }
}

pub proof fn lemma_mat_max_ge(rows: Seq<Vec<usize>>, i: int, j: int)
    requires
        0 <= i < rows.len(),
        0 <= j < rows[i]@.len(),
    ensures
        rows[i]@[j] <= mat_max(rows),
    decreases rows.len(),
{
    if i < rows.len() - 1 {
        lemma_mat_max_ge(rows.drop_last(), i, j);
    } else {
        lemma_seq_max_ge(rows[i]@, j);
    }
}

} // verus!
