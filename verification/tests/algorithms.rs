//! End-to-end tests for the cancellable symbolic algorithms.

use aeon_algorithms::cancellation::CancelToken;
use aeon_algorithms::fixed_points::{FixedPoints, FixedPointsConfig, FixedPointsError};
use aeon_algorithms::percolation::Percolation;
use biodivine_lib_param_bn::symbolic_async_graph::SymbolicAsyncGraph;
use biodivine_lib_param_bn::BooleanNetwork;
use biodivine_lib_param_bn::VariableId;

fn graph(model: &str) -> SymbolicAsyncGraph {
    let bn = BooleanNetwork::try_from(model).unwrap();
    SymbolicAsyncGraph::new(&bn).unwrap()
}

const CHAIN: &str = "a -> b\na -> c\nb -> c\n$a: true\n$b: a\n$c: a & b\n";

#[test]
fn percolation_empty_subspace_chain() {
    let g = graph(CHAIN);
    let p = Percolation::with_graph(g);
    let out = match p.percolate_subspace(Vec::new()) {
        Ok(out) => out,
        Err(_) => panic!("unexpected cancellation"),
    };
    assert_eq!(out.len(), 3);
    assert!(out.iter().all(|(_, value)| *value));
}

#[test]
fn percolation_is_idempotent() {
    let g = graph(CHAIN);
    let p = Percolation::with_graph(g);
    let out1 = p.percolate_subspace(Vec::new()).ok().unwrap();
    let out2 = p.percolate_subspace(out1.clone()).ok().unwrap();
    assert_eq!(out1, out2);
}

#[test]
fn percolation_keeps_input_assignments() {
    let g = graph(CHAIN);
    let p = Percolation::with_graph(g);
    // Fix the last variable to false; propagation would derive true for it,
    // but input-fixed values are ground truth and are never overwritten.
    let c = VariableId::from_index(2);
    let out = p.percolate_subspace(vec![(c, false)]).ok().unwrap();
    assert_eq!(out.len(), 3);
    assert!(out.contains(&(c, false)));
    assert!(out.contains(&(VariableId::from_index(0), true)));
    assert!(out.contains(&(VariableId::from_index(1), true)));
}

#[test]
fn percolation_cancelled_by_zero_timer() {
    let g = graph(CHAIN);
    let p = Percolation::with_config(
        aeon_algorithms::percolation::PercolationConfig::with_graph(g).with_time_limit(0),
    );
    match p.percolate_subspace(Vec::new()) {
        Err(aeon_algorithms::percolation::PercolationError::Cancelled(_)) => {},
        _ => panic!("expected a cancelled run"),
    }
}

#[test]
fn fixed_points_of_chain() {
    let g = graph(CHAIN);
    let fp = FixedPoints::with_config(FixedPointsConfig::with_graph(g.clone()));
    let result = match fp.naive_symbolic(g.unit_colored_vertices()) {
        Ok(set) => set,
        Err(_) => panic!("unexpected error"),
    };
    // The only fixed point of the chain is all-true.
    assert!(!biodivine_lib_param_bn::biodivine_std::traits::Set::is_empty(&result));
    assert_eq!(result.exact_cardinality(), 1u32.into());
}

#[test]
fn fixed_points_negation_is_empty_set() {
    let g = graph("a -| a\n$a: !a\n");
    let fp = FixedPoints::with_config(FixedPointsConfig::with_graph(g.clone()));
    let result = match fp.naive_symbolic(g.unit_colored_vertices()) {
        Ok(set) => set,
        Err(_) => panic!("expected the empty set, not an error"),
    };
    assert!(biodivine_lib_param_bn::biodivine_std::traits::Set::is_empty(&result));
}

#[test]
fn fixed_points_cancelled_partial_result() {
    let g = graph(CHAIN);
    let config = FixedPointsConfig::with_graph(g.clone()).with_time_limit(0);
    let fp = FixedPoints::with_config(config);
    match fp.naive_symbolic(g.unit_colored_vertices()) {
        Err(FixedPointsError::Cancelled(partial)) => {
            // The partial accumulator is a superset of the exact answer, and
            // the chain has a fixed point, so it is not empty.
            assert!(!biodivine_lib_param_bn::biodivine_std::traits::Set::is_empty(&partial));
        },
        _ => panic!("expected a cancelled run"),
    }
}

#[test]
fn with_time_limit_uses_latest_limit() {
    let g = graph(CHAIN);
    let base = FixedPointsConfig::with_graph(g.clone());
    // The second limit replaces the first; a generous limit lets the run end.
    let generous = base.with_time_limit(0).with_time_limit(100_000);
    let fp = FixedPoints::with_config(generous);
    assert!(fp.naive_symbolic(g.unit_colored_vertices()).is_ok());
    // The original strict configuration is untouched by the update.
    let strict = FixedPointsConfig::with_graph(g.clone()).with_time_limit(0);
    let copy = strict.with_time_limit(100_000);
    let fp_strict = FixedPoints::with_config(strict);
    assert!(fp_strict.naive_symbolic(g.unit_colored_vertices()).is_err());
    let fp_copy = FixedPoints::with_config(copy);
    assert!(fp_copy.naive_symbolic(g.unit_colored_vertices()).is_ok());
}

#[test]
fn percolation_is_deterministic() {
    let g = graph(CHAIN);
    let p1 = Percolation::with_graph(g.clone());
    let p2 = Percolation::with_graph(g);
    let out1 = p1.percolate_subspace(Vec::new()).ok().unwrap();
    let out2 = p2.percolate_subspace(Vec::new()).ok().unwrap();
    assert_eq!(out1, out2);
}

#[test]
fn with_restriction_accepts_subset_of_unit() {
    let g = graph(CHAIN);
    let restriction = g.unit_colored_vertices().fix_network_variable(VariableId::from_index(0), true);
    let config = FixedPointsConfig::with_graph(g.clone());
    let config = match config.with_restriction(restriction.clone()) {
        Ok(config) => config,
        Err(_) => panic!("a subset of the unit set must be accepted"),
    };
    let fp = FixedPoints::with_config(config);
    assert!(fp.naive_symbolic(&restriction).is_ok());
}

#[test]
fn with_restriction_rejects_foreign_set() {
    let g = graph(CHAIN);
    let other = graph("a -| a\n$a: !a\n");
    let config = FixedPointsConfig::with_graph(g);
    match config.with_restriction(other.unit_colored_vertices().clone()) {
        Err(FixedPointsError::CreationFailed(_)) => {},
        _ => panic!("a set from another network must be rejected at construction"),
    }
}

#[test]
fn reachability_config_defaults() {
    let g = graph(CHAIN);
    let config = aeon_algorithms::reachability::ReachabilityConfig::with_graph(g);
    assert!(config.subgraph.is_none());
    assert_eq!(config.variables, vec![0, 1, 2]);
    assert_eq!(config.bdd_size_limit, usize::MAX);
    assert_eq!(config.steps_limit, usize::MAX);
}

#[test]
fn reachability_sorted_variables_sorts_and_dedups() {
    let g = graph(CHAIN);
    let mut config = aeon_algorithms::reachability::ReachabilityConfig::with_graph(g);
    config.variables = vec![2, 0, 2, 1, 0];
    assert_eq!(config.sorted_variables(), vec![0, 1, 2]);
    config.set_cancellation(CancelToken::never());
}

#[test]
fn timer_cancellation_is_monotone() {
    let token = CancelToken::timer(0).start_timer();
    let (token, first) = token.check_cancelled();
    assert!(first);
    let (_, second) = token.check_cancelled();
    assert!(second);
}

#[test]
fn never_token_never_cancels() {
    let token = CancelToken::never().start_timer();
    let (token, cancelled) = token.check_cancelled();
    assert!(!cancelled);
    let (_, again) = token.check_cancelled();
    assert!(!again);
}

#[test]
fn fixed_points_empty_network_reports_no_fixed_points() {
    let rg = biodivine_lib_param_bn::RegulatoryGraph::new(Vec::new());
    let bn = biodivine_lib_param_bn::BooleanNetwork::new(rg);
    let g = SymbolicAsyncGraph::new(&bn).unwrap();
    let fp = FixedPoints::with_config(FixedPointsConfig::with_graph(g.clone()));
    match fp.naive_symbolic(g.unit_colored_vertices()) {
        Err(FixedPointsError::NoFixedPointsFound) => {},
        _ => panic!("a variable-free network has no per-variable stable set"),
    }
}

#[test]
fn percolation_from_boolean_network() {
    let bn = BooleanNetwork::try_from(CHAIN).unwrap();
    let p = match Percolation::from_boolean_network(&bn) {
        Ok(p) => p,
        Err(_) => panic!("construction of a small network must succeed"),
    };
    let out = p.percolate_subspace(Vec::new()).ok().unwrap();
    assert_eq!(out.len(), 3);
}
