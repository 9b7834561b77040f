//! A solver engine for the unrelated-parallel-machine scheduling problem with
//! sequence-dependent setup times: `n` tasks must be assigned to `m` machines,
//! each machine processing its tasks in order, where switching from one task
//! (or from the idle state) to another costs a setup time.  The objective is
//! the total completion time (TCT): the sum over all tasks of the time at
//! which each task finishes on its machine.
//!
//! The engine offers a deterministic greedy construction heuristic, a
//! randomized greedy construction heuristic, pluggable local-search
//! improvement strategies, pluggable stop criteria, and a GRASP metaheuristic
//! composing them.  Every solver follows one ownership contract: a solve
//! operation takes the instance by shared reference and returns a fresh
//! solution; the solver itself is reusable, owning nothing but its
//! configuration and, where it draws at random, its own seeded generator.

use vstd::prelude::*;

pub mod grasp;
pub mod greedy_solver;
pub mod local_search;
pub mod problem_instance;
pub mod problem_solution;
pub mod randomized_greedy_solver;
pub mod rng;
pub mod stop_criterion;

verus! {

/// Returned when the data handed to [`problem_instance::ProblemInstance::new`]
/// is dimensionally inconsistent, or when a positive number of tasks comes
/// with no machine to hold them.
#[derive(Clone, Copy, Debug, PartialEq, Eq, Structural)]
pub struct ValidationError;

/// Returned when a solver is configured with a parameter that must be
/// positive (candidate-list size `k`, iteration budget, improvement
/// threshold) but is zero.
#[derive(Clone, Copy, Debug, PartialEq, Eq, Structural)]
pub struct ConfigurationError;

} // verus!
