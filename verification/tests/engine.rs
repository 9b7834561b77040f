use daap7::grasp::GRASP;
use daap7::greedy_solver::GreedySolver;
use daap7::local_search::{
    InterMachineReinsertion, IntraMachineReinsertionAnxious, LocalSearch, NoSearch,
};
use daap7::problem_instance::ProblemInstance;
use daap7::randomized_greedy_solver::RandomizedGreedySolver;
use daap7::rng::Prng;
use daap7::stop_criterion::{IterationsWithoutChange, StopCriterion, TotalIterations};
use daap7::{ConfigurationError, ValidationError};

fn small_instance() -> ProblemInstance {
    // n = 3 tasks with durations [4, 2, 5], one machine, setup row 0 =
    // [-, 1, 3, 2] and every task-to-task setup = 1.
    ProblemInstance::new(
        3,
        1,
        vec![4, 2, 5],
        vec![
            vec![0, 1, 3, 2],
            vec![0, 1, 1, 1],
            vec![0, 1, 1, 1],
            vec![0, 1, 1, 1],
        ],
    )
    .unwrap()
}

fn two_machine_instance() -> ProblemInstance {
    // n = 5 tasks over 2 machines with asymmetric setups.
    ProblemInstance::new(
        5,
        2,
        vec![3, 7, 2, 9, 4],
        vec![
            vec![0, 2, 1, 4, 3, 2],
            vec![0, 1, 5, 2, 8, 1],
            vec![0, 3, 1, 7, 2, 2],
            vec![0, 2, 2, 1, 1, 6],
            vec![0, 9, 1, 3, 1, 4],
            vec![0, 4, 2, 2, 5, 1],
        ],
    )
    .unwrap()
}

#[test]
fn validation_accepts_consistent_data() {
    let r = ProblemInstance::new(2, 1, vec![1, 2], vec![vec![0, 1, 2], vec![0, 1, 1], vec![0, 2, 2]]);
    assert!(r.is_ok());
}

#[test]
fn validation_rejects_wrong_duration_count() {
    let r = ProblemInstance::new(3, 1, vec![1, 2], vec![vec![0; 4], vec![0; 4], vec![0; 4], vec![0; 4]]);
    assert_eq!(r.err().unwrap(), ValidationError);
}

#[test]
fn validation_rejects_non_square_setup_matrix() {
    // Too few rows.
    let r = ProblemInstance::new(2, 1, vec![1, 2], vec![vec![0, 1, 2], vec![0, 1, 1]]);
    assert_eq!(r.err().unwrap(), ValidationError);
    // A row of the wrong width.
    let r = ProblemInstance::new(2, 1, vec![1, 2], vec![vec![0, 1, 2], vec![0, 1], vec![0, 2, 2]]);
    assert_eq!(r.err().unwrap(), ValidationError);
}

#[test]
fn validation_rejects_tasks_without_machines() {
    let r = ProblemInstance::new(1, 0, vec![5], vec![vec![0, 1], vec![0, 0]]);
    assert_eq!(r.err().unwrap(), ValidationError);
}

#[test]
fn evaluator_empty_sequence_is_zero() {
    let inst = small_instance();
    assert_eq!(inst.calculate_total_completion_time(&vec![]), 0);
}

#[test]
fn evaluator_sums_finish_times() {
    let inst = small_instance();
    // [0, 1, 2]: finishes at 1+4 = 5, 5+1+2 = 8, 8+1+5 = 14; total 27.
    assert_eq!(inst.calculate_total_completion_time(&vec![0, 1, 2]), 27);
    // [1, 0]: finishes at 3+2 = 5 and 5+1+4 = 10; total 15.
    assert_eq!(inst.calculate_total_completion_time(&vec![1, 0]), 15);
    // A single task pays the idle setup: 2+5 = 7.
    assert_eq!(inst.calculate_total_completion_time(&vec![2]), 7);
}

#[test]
fn instance_accessors() {
    let inst = two_machine_instance();
    assert_eq!(inst.number_of_machines(), 2);
    assert_eq!(inst.number_of_tasks(), 5);
    assert_eq!(inst.task_times(), &vec![3, 7, 2, 9, 4]);
    assert_eq!(inst.setup_times()[0], vec![0, 2, 1, 4, 3, 2]);
}

#[test]
fn greedy_matches_hand_computation() {
    // Seeding takes task 0 (cost 1+4 = 5, tied with task 1 at 3+2 = 5;
    // the lower index wins).  Task 1 then inserts at the tail (increment 8),
    // task 2 at the tail (increment 14): sequence [0, 1, 2], objective 27.
    let inst = small_instance();
    let solution = GreedySolver::new().solve(&inst);
    assert_eq!(solution.get_tasks_by_machine(), &vec![vec![0, 1, 2]]);
    assert_eq!(solution.get_tcts_by_machine(), &vec![27]);
    assert_eq!(solution.get_total_completion_time(), 27);
}

#[test]
fn greedy_zero_tasks_two_machines() {
    let inst = ProblemInstance::new(0, 2, vec![], vec![vec![0]]).unwrap();
    let solution = GreedySolver::new().solve(&inst);
    assert_eq!(solution.get_total_completion_time(), 0);
    assert_eq!(solution.get_tasks_by_machine(), &vec![Vec::<usize>::new(), Vec::<usize>::new()]);
}

#[test]
fn greedy_is_deterministic_across_runs() {
    let inst = two_machine_instance();
    let a = GreedySolver::new().solve(&inst);
    let b = GreedySolver::new().solve(&inst);
    assert_eq!(a.get_tasks_by_machine(), b.get_tasks_by_machine());
    assert_eq!(a.get_tcts_by_machine(), b.get_tcts_by_machine());
    assert_eq!(a.get_total_completion_time(), b.get_total_completion_time());
}

#[test]
fn greedy_assignment_is_a_partition() {
    let inst = two_machine_instance();
    let solution = GreedySolver::new().solve(&inst);
    let rows = solution.get_tasks_by_machine();
    assert_eq!(rows.len(), 2);
    let mut seen = vec![0usize; 5];
    for row in rows.iter() {
        for &t in row.iter() {
            assert!(t < 5);
            seen[t] += 1;
        }
    }
    assert_eq!(seen, vec![1, 1, 1, 1, 1]);
}

#[test]
fn caches_match_recomputed_evaluator() {
    let inst = two_machine_instance();
    let solution = GreedySolver::new().solve(&inst);
    let rows = solution.get_tasks_by_machine();
    let tcts = solution.get_tcts_by_machine();
    let mut total = 0;
    for (row, &cached) in rows.iter().zip(tcts.iter()) {
        assert_eq!(cached, inst.calculate_total_completion_time(row));
        total += cached;
    }
    assert_eq!(total, solution.get_total_completion_time());
}

#[test]
fn randomized_rejects_zero_k() {
    assert_eq!(RandomizedGreedySolver::new(0).err().unwrap(), ConfigurationError);
}

#[test]
fn randomized_with_k_one_equals_deterministic() {
    let inst = two_machine_instance();
    let deterministic = GreedySolver::new().solve(&inst);
    let mut solver = RandomizedGreedySolver::with_seed(1, 12345).unwrap();
    let randomized = solver.solve(&inst);
    assert_eq!(deterministic.get_tasks_by_machine(), randomized.get_tasks_by_machine());
    assert_eq!(deterministic.get_tcts_by_machine(), randomized.get_tcts_by_machine());
}

#[test]
fn randomized_solution_is_a_partition() {
    let inst = two_machine_instance();
    let mut solver = RandomizedGreedySolver::with_seed(3, 99).unwrap();
    let solution = solver.solve(&inst);
    let mut seen = vec![0usize; 5];
    for row in solution.get_tasks_by_machine().iter() {
        for &t in row.iter() {
            seen[t] += 1;
        }
    }
    assert_eq!(seen, vec![1, 1, 1, 1, 1]);
    let mut total = 0;
    for (row, &cached) in solution
        .get_tasks_by_machine()
        .iter()
        .zip(solution.get_tcts_by_machine().iter())
    {
        assert_eq!(cached, inst.calculate_total_completion_time(row));
        total += cached;
    }
    assert_eq!(total, solution.get_total_completion_time());
}

#[test]
fn randomized_is_reproducible_under_seeding() {
    let inst = two_machine_instance();
    let a = RandomizedGreedySolver::with_seed(3, 42).unwrap().solve(&inst);
    let b = RandomizedGreedySolver::with_seed(3, 42).unwrap().solve(&inst);
    assert_eq!(a.get_tasks_by_machine(), b.get_tasks_by_machine());
    assert_eq!(a.get_tcts_by_machine(), b.get_tcts_by_machine());
}

#[test]
fn no_search_returns_identical_solution() {
    let inst = two_machine_instance();
    let solution = GreedySolver::new().solve(&inst);
    let rows = solution.get_tasks_by_machine().clone();
    let tcts = solution.get_tcts_by_machine().clone();
    let objective = solution.get_total_completion_time();
    let improved = NoSearch::new().improve(&inst, solution);
    assert_eq!(improved.get_tasks_by_machine(), &rows);
    assert_eq!(improved.get_tcts_by_machine(), &tcts);
    assert_eq!(improved.get_total_completion_time(), objective);
}

#[test]
fn intra_machine_reinsertion_never_worsens() {
    let inst = small_instance();
    let solution = GreedySolver::new().solve(&inst);
    let before = solution.get_total_completion_time();
    let improved = IntraMachineReinsertionAnxious::new().improve(&inst, solution);
    let after = improved.get_total_completion_time();
    assert!(after <= before);
    assert_eq!(inst.calculate_total_completion_time(&improved.get_tasks_by_machine()[0]), after);
}

#[test]
fn intra_machine_reinsertion_applies_a_strict_improvement() {
    // One machine, a sequence built greedily that a reinsertion improves:
    // durations [1, 1, 10]; moving away from the greedy order changes setup
    // costs.  Whatever the move, the contract is: strictly better or
    // unchanged.
    let inst = ProblemInstance::new(
        3,
        1,
        vec![1, 1, 10],
        vec![
            vec![0, 1, 1, 1],
            vec![0, 9, 9, 1],
            vec![0, 9, 9, 9],
            vec![0, 1, 9, 9],
        ],
    )
    .unwrap();
    let solution = GreedySolver::new().solve(&inst);
    let before = solution.get_total_completion_time();
    let rows_before = solution.get_tasks_by_machine().clone();
    let improved = IntraMachineReinsertionAnxious::new().improve(&inst, solution);
    let after = improved.get_total_completion_time();
    assert!(after < before || improved.get_tasks_by_machine() == &rows_before);
}

#[test]
fn inter_machine_reinsertion_never_worsens() {
    let inst = two_machine_instance();
    let solution = GreedySolver::new().solve(&inst);
    let before = solution.get_total_completion_time();
    let improved = InterMachineReinsertion::new().improve(&inst, solution);
    let after = improved.get_total_completion_time();
    assert!(after <= before);
    // Both touched caches are exact.
    for (row, &cached) in improved
        .get_tasks_by_machine()
        .iter()
        .zip(improved.get_tcts_by_machine().iter())
    {
        assert_eq!(cached, inst.calculate_total_completion_time(row));
    }
}

#[test]
fn grasp_rejects_zero_k() {
    let r = GRASP::new(0, NoSearch::new(), TotalIterations::new(5).unwrap());
    assert_eq!(r.err().unwrap(), ConfigurationError);
}

#[test]
fn stop_criteria_reject_zero_budgets() {
    assert_eq!(TotalIterations::new(0).err().unwrap(), ConfigurationError);
    assert_eq!(IterationsWithoutChange::new(0).err().unwrap(), ConfigurationError);
}

#[test]
fn grasp_is_reproducible_under_seeding() {
    // GRASP with k = 2, a fixed seed and a budget of 5 total iterations
    // returns the same solution in every run.
    let inst = two_machine_instance();
    let mut g1 = GRASP::with_seed(2, 2024, NoSearch::new(), TotalIterations::new(5).unwrap())
        .unwrap();
    let mut g2 = GRASP::with_seed(2, 2024, NoSearch::new(), TotalIterations::new(5).unwrap())
        .unwrap();
    let a = g1.solve(&inst);
    let b = g2.solve(&inst);
    assert_eq!(a.get_tasks_by_machine(), b.get_tasks_by_machine());
    assert_eq!(a.get_tcts_by_machine(), b.get_tcts_by_machine());
    assert_eq!(a.get_total_completion_time(), b.get_total_completion_time());
}

#[test]
fn grasp_budget_cannot_worsen_the_objective() {
    // Same instance, same seed, same k: a larger total-iteration budget sees
    // the shorter run's candidates first, so its best objective is no worse.
    let inst = two_machine_instance();
    let mut previous = usize::MAX;
    for budget in [1, 2, 5, 10, 20] {
        let mut g = GRASP::with_seed(
            2,
            7,
            IntraMachineReinsertionAnxious::new(),
            TotalIterations::new(budget).unwrap(),
        )
        .unwrap();
        let objective = g.solve(&inst).get_total_completion_time();
        assert!(objective <= previous);
        previous = objective;
    }
}

#[test]
fn grasp_with_iterations_without_change_terminates_and_is_valid() {
    let inst = two_machine_instance();
    let mut g = GRASP::with_seed(
        3,
        11,
        InterMachineReinsertion::new(),
        IterationsWithoutChange::new(4).unwrap(),
    )
    .unwrap();
    let solution = g.solve(&inst);
    let mut seen = vec![0usize; 5];
    for row in solution.get_tasks_by_machine().iter() {
        for &t in row.iter() {
            seen[t] += 1;
        }
    }
    assert_eq!(seen, vec![1, 1, 1, 1, 1]);
}

#[test]
fn grasp_objective_never_exceeds_its_construction() {
    // GRASP keeps the best over repetitions, so it is at least as good as a
    // single deterministic construction improved once (k = 1 draws are the
    // deterministic solution).
    let inst = two_machine_instance();
    let greedy_objective = GreedySolver::new().solve(&inst).get_total_completion_time();
    let mut g = GRASP::with_seed(1, 5, NoSearch::new(), TotalIterations::new(3).unwrap()).unwrap();
    let objective = g.solve(&inst).get_total_completion_time();
    assert!(objective <= greedy_objective);
}

#[test]
fn solution_duplicate_is_deep_and_equal() {
    let inst = small_instance();
    let solution = GreedySolver::new().solve(&inst);
    let copy = solution.duplicate();
    assert_eq!(copy.get_tasks_by_machine(), solution.get_tasks_by_machine());
    assert_eq!(copy.get_tcts_by_machine(), solution.get_tcts_by_machine());
}

#[test]
fn generator_draws_below_bound_and_reproduces() {
    let mut a = Prng::new(99);
    let mut b = Prng::new(99);
    for bound in [1, 2, 3, 10, 1000] {
        let x = a.next_below(bound);
        assert!(x < bound);
        assert_eq!(x, b.next_below(bound));
    }
    let mut c = Prng::new(100);
    let drew: Vec<usize> = (0..8).map(|_| c.next_below(1000)).collect();
    let mut d = Prng::new(100);
    let again: Vec<usize> = (0..8).map(|_| d.next_below(1000)).collect();
    assert_eq!(drew, again);
}

#[test]
fn total_iterations_counts_exactly_the_budget() {
    let mut crit = TotalIterations::new(3).unwrap();
    // Consulted after each repetition: continue twice, then stop for good.
    assert!(crit.should_continue(10));
    assert!(crit.should_continue(10));
    assert!(!crit.should_continue(10));
    assert!(!crit.should_continue(10));
}

#[test]
fn iterations_without_change_resets_on_improvement() {
    let mut crit = IterationsWithoutChange::new(2).unwrap();
    assert!(crit.should_continue(100)); // first consultation records 100
    assert!(crit.should_continue(100)); // no change: counter 1 of 2
    assert!(crit.should_continue(90)); // strict improvement resets
    assert!(crit.should_continue(90)); // counter 1 of 2
    assert!(!crit.should_continue(90)); // counter reaches 2: stop
}

#[test]
fn grasp_candidate_run_agrees_with_solve() {
    let inst = two_machine_instance();
    let mut g1 = GRASP::with_seed(2, 77, NoSearch::new(), TotalIterations::new(4).unwrap())
        .unwrap();
    let mut g2 = GRASP::with_seed(2, 77, NoSearch::new(), TotalIterations::new(4).unwrap())
        .unwrap();
    let plain = g1.solve(&inst);
    let with_cands = g2.solve_with_candidates(&inst);
    assert_eq!(plain.get_tasks_by_machine(), with_cands.0.get_tasks_by_machine());
    assert_eq!(plain.get_total_completion_time(), with_cands.0.get_total_completion_time());
}

#[test]
fn intra_improvement_moves_at_most_one_task() {
    // Whatever the instance, a strictly improving intra pass changes only
    // one machine's sequence, and that sequence is a permutation of its
    // input.
    let inst = two_machine_instance();
    let solution = GreedySolver::new().solve(&inst);
    let rows_before = solution.get_tasks_by_machine().clone();
    let before = solution.get_total_completion_time();
    let improved = IntraMachineReinsertionAnxious::new().improve(&inst, solution);
    let rows_after = improved.get_tasks_by_machine();
    if improved.get_total_completion_time() < before {
        let mut changed = 0;
        for (a, b) in rows_before.iter().zip(rows_after.iter()) {
            if a != b {
                changed += 1;
                let mut sa = a.clone();
                let mut sb = b.clone();
                sa.sort();
                sb.sort();
                assert_eq!(sa, sb);
            }
        }
        assert_eq!(changed, 1);
    } else {
        assert_eq!(&rows_before, rows_after);
    }
}
