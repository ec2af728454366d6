//! Configuration and error taxonomy for symbolic reachability analyses.
//!
//! Reachability follows the same checkpointed-loop pattern as percolation and
//! fixed-point search, with two extra numeric ceilings: a step-count limit
//! and a diagram-size limit.  This module holds the shared configuration
//! shape and the error kinds of that family.

use crate::cancellation::CancelToken;
use biodivine_lib_param_bn::symbolic_async_graph::{GraphColoredVertices, SymbolicAsyncGraph};
use vstd::prelude::*;

verus! {

/// An error returned by a reachability procedure.
pub enum ReachabilityError {
    /// The run was cancelled; carries the reachable set accumulated up to the
    /// last checkpoint.
    Cancelled(GraphColoredVertices),
    /// A configuration invariant was violated at construction time.
    CreationFailed(String),
    /// The configured step ceiling was hit; carries the partial result.
    StepsLimitExceeded(GraphColoredVertices),
    /// The configured diagram-size ceiling was hit; carries the partial
    /// result.
    BddSizeLimitExceeded(GraphColoredVertices),
    /// The supplied subgraph is not compatible with the graph or the initial
    /// states; no computation validly started, so there is no partial result.
    InvalidSubgraph,
}

impl ReachabilityError {
    /// A short human-readable description of the error.
    pub fn message(&self) -> &'static str {
        match self {
            ReachabilityError::Cancelled(_) => "operation cancelled",
            ReachabilityError::CreationFailed(_) => "config creation failed",
            ReachabilityError::StepsLimitExceeded(_) => "steps limit exceeded",
            ReachabilityError::BddSizeLimitExceeded(_) => "BDD size limit exceeded",
            ReachabilityError::InvalidSubgraph => {
                "subgraph set not compatible with the given graph or initial states"
            },
        }
    }
}

/// Configuration of a reachability analysis: the symbolic graph, an optional
/// subgraph restriction, the set of variables the process may update (held as
/// their numeric indices), a cancellation strategy, and the two numeric
/// ceilings.
pub struct ReachabilityConfig {
    /// The symbolic graph that yields the successors and predecessors of
    /// individual states.
    pub graph: SymbolicAsyncGraph,
    /// Restricts the analysis, edges included, to the given set of vertices.
    pub subgraph: Option<GraphColoredVertices>,
    /// The indices of the network variables the analysis may update; the
    /// remaining variables stay constant.
    pub variables: Vec<usize>,
    /// The cancellation strategy polled at the checkpoints.
    pub cancellation: CancelToken,
    /// The maximum diagram node count of the reachable set.
    pub bdd_size_limit: usize,
    /// The maximum number of steps before the analysis gives up.
    pub steps_limit: usize,
}

/// Inserts a value into a strictly sorted list, keeping it strictly sorted;
/// a value already present is left alone.
fn insert_unique_sorted(v: &mut Vec<usize>, x: usize)
    requires
        forall|k: int, l: int| 0 <= k < l < old(v)@.len() ==> old(v)@[k] < old(v)@[l],
    ensures
        forall|k: int, l: int| 0 <= k < l < final(v)@.len() ==> final(v)@[k] < final(v)@[l],
        final(v)@.to_set() == old(v)@.to_set().insert(x),
{
    let mut i: usize = 0;
    while i < v.len() && v[i] < x
        invariant
            i <= v@.len(),
            forall|k: int, l: int| 0 <= k < l < v@.len() ==> v@[k] < v@[l],
            forall|l: int| 0 <= l < i ==> #[trigger] v@[l] < x,
            v@ == old(v)@,
        decreases v@.len() - i,
    {
        i = i + 1;
    }
    if i < v.len() {
        let found = v[i];
        if found == x {
            proof {
                assert(v@.contains(x)) by {
                    assert(v@[i as int] == x);
                }
                assert(v@.to_set() =~= old(v)@.to_set().insert(x));
            }
            return ;
        }
    }
    let ghost v0 = v@;
    v.insert(i, x);
    proof {
        assert(v@ == v0.insert(i as int, x));
        assert(v@[i as int] == x);
        assert forall|k: int, l: int| 0 <= k < l < v@.len() implies v@[k] < v@[l] by {
            if k < i && l == i {
                assert(v@[k] == v0[k]);
            } else if k == i && l > i {
                assert(v@[l] == v0[l - 1]);
                assert(v0[i as int] > x || i >= v0.len());
                if l - 1 > i {
                    assert(v0[i as int] <= v0[l - 1]);
                }
            } else if k < i && l > i {
                assert(v@[k] == v0[k]);
                assert(v@[l] == v0[l - 1]);
            } else if l < i {
                assert(v@[k] == v0[k]);
                assert(v@[l] == v0[l]);
            } else if k > i {
                assert(v@[k] == v0[k - 1]);
                assert(v@[l] == v0[l - 1]);
            }
        }
        assert forall|y: usize| #[trigger] v@.to_set().contains(y) implies v0.to_set().insert(
            x,
        ).contains(y) by {
            let k = choose|k: int| 0 <= k < v@.len() && v@[k] == y;
            if k < i {
                assert(v0[k] == y);
            } else if k > i {
                assert(v0[k - 1] == y);
            }
        }
        assert forall|y: usize| v0.to_set().insert(x).contains(y) implies #[trigger] v@.to_set().contains(
            y,
        ) by {
            if y == x {
                assert(v@[i as int] == y);
            } else {
                let k = choose|k: int| 0 <= k < v0.len() && v0[k] == y;
                if k < i {
                    assert(v@[k] == y);
                } else {
                    assert(v@[k + 1] == y);
                }
            }
        }
        assert(v@.to_set() =~= v0.to_set().insert(x));
    }
}

impl ReachabilityConfig {
    /// A default configuration for the given graph: every network variable
    /// may be updated, there is no subgraph restriction, the run is never
    /// cancelled, and both ceilings are unlimited.
    pub fn with_graph(graph: SymbolicAsyncGraph) -> (r: ReachabilityConfig)
        ensures
            r.graph == graph,
            r.subgraph is None,
            r.variables@.len() == crate::symbolic::graph_var_count(graph),
            forall|j: int| 0 <= j < r.variables@.len() ==> #[trigger] r.variables@[j] == j,
            r.cancellation == CancelToken::Never,
            r.bdd_size_limit == usize::MAX,
            r.steps_limit == usize::MAX,
    {
        let n = crate::symbolic::graph_num_vars(&graph);
        let mut variables: Vec<usize> = Vec::new();
        let mut j: usize = 0;
        while j < n
            invariant
                j <= n,
                variables@.len() == j,
                forall|l: int| 0 <= l < j ==> #[trigger] variables@[l] == l,
            decreases n - j,
        {
            variables.push(j);
            j = j + 1;
        }
        ReachabilityConfig {
            graph,
            subgraph: None,
            variables,
            cancellation: CancelToken::Never,
            bdd_size_limit: usize::MAX,
            steps_limit: usize::MAX,
        }
    }

    /// The set of updatable variables, sorted strictly ascending: the same
    /// indices as the `variables` field, each listed once.
    pub fn sorted_variables(&self) -> (r: Vec<usize>)
        ensures
            forall|k: int, l: int| 0 <= k < l < r@.len() ==> r@[k] < r@[l],
            r@.to_set() == self.variables@.to_set(),
    {
        let mut result: Vec<usize> = Vec::new();
        proof {
            assert(self.variables@.take(0) =~= Seq::<usize>::empty());
            assert(result@.to_set() =~= self.variables@.take(0).to_set());
        }
        let mut k: usize = 0;
        while k < self.variables.len()
            invariant
                k <= self.variables@.len(),
                forall|k1: int, l1: int| 0 <= k1 < l1 < result@.len() ==> result@[k1] < result@[l1],
                result@.to_set() == self.variables@.take(k as int).to_set(),
            decreases self.variables@.len() - k,
        {
            let x = self.variables[k];
            let ghost before = result@;
            insert_unique_sorted(&mut result, x);
            proof {
                let taken = self.variables@.take(k as int);
                let taken2 = self.variables@.take(k + 1);
                assert(taken2 =~= taken.push(x));
                assert forall|y: usize| #[trigger] taken2.to_set().contains(y) implies taken.to_set().insert(
                    x,
                ).contains(y) by {
                    let l = choose|l: int| 0 <= l < taken2.len() && taken2[l] == y;
                    if l < taken.len() {
                        assert(taken[l] == y);
                    }
                }
                assert forall|y: usize| taken.to_set().insert(x).contains(y) implies #[trigger] taken2.to_set().contains(
                    y,
                ) by {
                    if y == x {
                        assert(taken2[taken2.len() - 1] == y);
                    } else {
                        let l = choose|l: int| 0 <= l < taken.len() && taken[l] == y;
                        assert(taken2[l] == y);
                    }
                }
                assert(taken2.to_set() =~= taken.to_set().insert(x));
            }
            k = k + 1;
        }
        proof {
            assert(self.variables@.take(self.variables@.len() as int) =~= self.variables@);
        }
        result
    }

    /// Replaces the cancellation strategy in place.
    pub fn set_cancellation(&mut self, cancellation: CancelToken)
        ensures
            final(self).graph == old(self).graph,
            final(self).subgraph == old(self).subgraph,
            final(self).variables == old(self).variables,
            final(self).cancellation == cancellation,
            final(self).bdd_size_limit == old(self).bdd_size_limit,
            final(self).steps_limit == old(self).steps_limit,
    {
        self.cancellation = cancellation;
    }

    /// The same configuration with the cancellation strategy replaced.
    pub fn with_cancellation(self, cancellation: CancelToken) -> (r: ReachabilityConfig)
        ensures
            r.graph == self.graph,
            r.subgraph == self.subgraph,
            r.variables == self.variables,
            r.cancellation == cancellation,
            r.bdd_size_limit == self.bdd_size_limit,
            r.steps_limit == self.steps_limit,
    {
        ReachabilityConfig {
            cancellation,
            graph: self.graph,
            subgraph: self.subgraph,
            variables: self.variables,
            bdd_size_limit: self.bdd_size_limit,
            steps_limit: self.steps_limit,
        }
    }
}

} // verus!
