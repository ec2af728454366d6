//! Symbolic fixed-point search by smallest-first intersection folding.
//!
//! A fixed point of a Boolean network is a state with no enabled outgoing
//! transition.  For every network variable the algorithm computes the
//! symbolic set of candidate states in which that variable cannot change (its
//! "stable" set), and then folds all per-variable sets into one intersection.
//! The fold always intersects the two smallest sets (by diagram node count)
//! first, which empirically keeps intermediate diagram sizes down.

use crate::cancellation::CancelToken;
use crate::symbolic::{
    can_step_of, gcv_bdd_num_vars, gcv_clone, gcv_contents, gcv_intersect, gcv_is_subset,
    gcv_minus, gcv_size, gcv_symbolic_size, gcv_width, graph_bdd_num_vars, graph_bdd_var_count,
    graph_num_vars, graph_unit, graph_var_can_post, graph_var_count, unit_contents,
};
use biodivine_lib_bdd::Bdd;
use biodivine_lib_param_bn::symbolic_async_graph::{GraphColoredVertices, SymbolicAsyncGraph};
use vstd::prelude::*;

verus! {

/// An error returned by a fixed-point search.
pub enum FixedPointsError {
    /// A configuration invariant was violated at construction time.
    CreationFailed(String),
    /// The run was cancelled; carries the partial fold accumulator computed
    /// up to the last checkpoint.
    Cancelled(GraphColoredVertices),
    /// The run was cancelled while only a raw diagram was at hand.
    CancelledBdd(Bdd),
    /// The network has no variables, so there is no per-variable stable set
    /// to fold.
    NoFixedPointsFound,
}

impl FixedPointsError {
    /// A short human-readable description of the error.
    pub fn message(&self) -> &'static str {
        match self {
            FixedPointsError::CreationFailed(_) => "config creation failed",
            FixedPointsError::Cancelled(_) => "operation cancelled",
            FixedPointsError::CancelledBdd(_) => "operation cancelled",
            FixedPointsError::NoFixedPointsFound => "no fixed points found",
        }
    }
}

/// Configuration of a fixed-point search: the symbolic graph, a restriction
/// set, and a cancellation strategy.
pub struct FixedPointsConfig {
    pub graph: SymbolicAsyncGraph,
    pub restriction: GraphColoredVertices,
    pub cancellation: CancelToken,
}

impl FixedPointsConfig {
    /// A default configuration for the given graph: the restriction is the
    /// universal set and the run is never cancelled.
    pub fn with_graph(graph: SymbolicAsyncGraph) -> (r: FixedPointsConfig)
        ensures
            r.graph == graph,
            gcv_contents(r.restriction) == unit_contents(graph),
            gcv_width(r.restriction) == graph_bdd_var_count(graph),
            r.cancellation == CancelToken::Never,
    {
        FixedPointsConfig {
            restriction: graph_unit(&graph),
            cancellation: CancelToken::Never,
            graph,
        }
    }

    /// The same configuration with the restriction replaced.
    ///
    /// The replacement is validated at construction, never mid-run: the new
    /// restriction must be built in the graph's own symbolic encoding and be
    /// a subset of the graph's universal set.  A violation yields a typed
    /// `CreationFailed` error, exactly when one of the two conditions fails.
    pub fn with_restriction(self, restriction: GraphColoredVertices) -> (res: Result<
        FixedPointsConfig,
        FixedPointsError,
    >)
        ensures
            res matches Ok(c) ==> {
                &&& c.graph == self.graph
                &&& c.restriction == restriction
                &&& c.cancellation == self.cancellation
            },
            res matches Err(e) ==> e matches FixedPointsError::CreationFailed(_),
            (res matches Ok(_)) <==> (gcv_width(restriction) == graph_bdd_var_count(self.graph)
                && gcv_contents(restriction).subset_of(unit_contents(self.graph))),
    {
        let width = gcv_bdd_num_vars(&restriction);
        let graph_width = graph_bdd_num_vars(&self.graph);
        if width != graph_width {
            return Err(FixedPointsError::CreationFailed(
                "restriction was not built in the graph's symbolic encoding".to_string(),
            ));
        }
        let unit = graph_unit(&self.graph);
        if !gcv_is_subset(&restriction, &unit) {
            return Err(FixedPointsError::CreationFailed(
                "restriction is not a subset of the graph's unit set".to_string(),
            ));
        }
        Ok(FixedPointsConfig { restriction, graph: self.graph, cancellation: self.cancellation })
    }

    /// The same configuration with the cancellation strategy replaced.
    pub fn with_cancellation(self, cancellation: CancelToken) -> (r: FixedPointsConfig)
        ensures
            r.graph == self.graph,
            r.restriction == self.restriction,
            r.cancellation == cancellation,
    {
        FixedPointsConfig { cancellation, graph: self.graph, restriction: self.restriction }
    }

    /// A copy of the configuration whose cancellation strategy is a fresh,
    /// not yet armed timer with the given deadline.  The original
    /// configuration is left untouched, so calling this twice in a row yields
    /// a configuration that uses only the latest limit.
    pub fn with_time_limit(&self, duration_ms: u64) -> (r: FixedPointsConfig)
        ensures
            r.graph == self.graph,
            r.restriction == self.restriction,
            r.cancellation == CancelToken::Timer(
                crate::cancellation::CancelTokenTimer {
                    duration_ms,
                    started: None,
                    fired: false,
                },
            ),
    {
        FixedPointsConfig {
            graph: crate::symbolic::graph_clone(&self.graph),
            restriction: gcv_clone(&self.restriction),
            cancellation: CancelToken::timer(duration_ms),
        }
    }
}

/// The symbolic set of candidate states (within `restriction`) in which the
/// network variable `j` cannot change its value.
pub open spec fn stable_set(g: SymbolicAsyncGraph, restriction: Set<int>, j: int) -> Set<int> {
    restriction.difference(unit_contents(g).intersect(can_step_of(g, j)))
}

/// A candidate state is a fixed point when no network variable can change in
/// it: it lies in every per-variable stable set.
pub open spec fn is_network_fixed_point(
    g: SymbolicAsyncGraph,
    restriction: Set<int>,
    x: int,
) -> bool {
    &&& restriction.contains(x)
    &&& forall|j: int|
        0 <= j < graph_var_count(g) ==> stable_set(g, restriction, j).contains(x)
}

/// Membership in every set of a sequence of symbolic sets.
pub open spec fn mem_all(s: Seq<GraphColoredVertices>, x: int) -> bool {
    forall|k: int| 0 <= k < s.len() ==> gcv_contents(#[trigger] s[k]).contains(x)
}

/// The set of valid network-variable indices of a graph.
pub open spec fn variable_range(g: SymbolicAsyncGraph) -> Set<int> {
    Set::new(|j: int| 0 <= j < graph_var_count(g))
}

/// The set holds at least one element.
pub open spec fn has_member(vs: Set<int>) -> bool {
    exists|j: int| vs.contains(j)
}

/// Membership in the intersection of the candidate set with the stable sets
/// of the variables in `vs`.
pub open spec fn stable_inter(
    g: SymbolicAsyncGraph,
    restriction: Set<int>,
    vs: Set<int>,
    x: int,
) -> bool {
    &&& restriction.contains(x)
    &&& forall|j: int| vs.contains(j) ==> stable_set(g, restriction, j).contains(x)
}

/// The shape of the partial accumulator handed out by a cancelled fold: an
/// intersection of the candidate set with the stable sets of a nonempty
/// collection of network variables, so an incomplete but honest fragment of
/// the full intersection.
pub open spec fn partial_fold_shape(
    g: SymbolicAsyncGraph,
    restriction: Set<int>,
    vs: Set<int>,
    p: GraphColoredVertices,
) -> bool {
    &&& vs.subset_of(variable_range(g))
    &&& has_member(vs)
    &&& forall|x: int|
        #[trigger] gcv_contents(p).contains(x) <==> stable_inter(g, restriction, vs, x)
}

/// The index of a set with the smallest diagram among a non-empty collection.
fn smallest_index(v: &Vec<GraphColoredVertices>) -> (i: usize)
    requires
        v@.len() >= 1,
    ensures
        i < v@.len(),
        forall|k: int| 0 <= k < v@.len() ==> gcv_size(v@[i as int]) <= gcv_size(#[trigger] v@[k]),
{
    let mut best: usize = 0;
    let mut best_size = gcv_symbolic_size(&v[0]);
    let mut k: usize = 1;
    while k < v.len()
        invariant
            1 <= k <= v@.len(),
            best < k,
            best_size == gcv_size(v@[best as int]),
            forall|l: int| 0 <= l < k ==> best_size <= gcv_size(#[trigger] v@[l]),
        decreases v@.len() - k,
    {
        let size = gcv_symbolic_size(&v[k]);
        if size < best_size {
            best = k;
            best_size = size;
        }
        k = k + 1;
    }
    best
}

/// The fixed-point search algorithm over a configuration.
pub struct FixedPoints(pub FixedPointsConfig);

impl FixedPoints {
    /// The internal configuration of this instance.
    pub fn config(&self) -> (r: &FixedPointsConfig)
        ensures
            r == &self.0,
    {
        &self.0
    }

    /// Wraps a configuration into an algorithm instance.
    pub fn with_config(config: FixedPointsConfig) -> (r: FixedPoints)
        ensures
            r.0 == config,
    {
        FixedPoints(config)
    }

    /// Computes the symbolic set of fixed points of the network inside the
    /// candidate set `restriction`.
    ///
    /// The returned set holds exactly the candidates in which no network
    /// variable can change its value.  A network without variables yields
    /// `NoFixedPointsFound`; a cancelled run yields `Cancelled` carrying a
    /// partial fold accumulator, which is always a superset of the exact
    /// answer and a subset of the candidates.
    pub fn naive_symbolic(&self, restriction: &GraphColoredVertices) -> (res: Result<
        GraphColoredVertices,
        FixedPointsError,
    >)
        requires
            gcv_width(*restriction) == graph_bdd_var_count(self.0.graph),
        ensures
            (res matches Err(FixedPointsError::NoFixedPointsFound)) <==> graph_var_count(
                self.0.graph,
            ) == 0,
            res matches Ok(r) ==> forall|x: int|
                gcv_contents(r).contains(x) <==> is_network_fixed_point(
                    self.0.graph,
                    gcv_contents(*restriction),
                    x,
                ),
            self.0.cancellation.never_cancels() && graph_var_count(self.0.graph) > 0
                ==> res matches Ok(_),
            res matches Err(FixedPointsError::Cancelled(p)) ==> {
                &&& forall|x: int|
                    is_network_fixed_point(self.0.graph, gcv_contents(*restriction), x)
                        ==> gcv_contents(p).contains(x)
                &&& gcv_contents(p).subset_of(gcv_contents(*restriction))
                &&& exists|vs: Set<int>|
                    partial_fold_shape(self.0.graph, gcv_contents(*restriction), vs, p)
            },
            !(res matches Err(FixedPointsError::CancelledBdd(_))),
            !(res matches Err(FixedPointsError::CreationFailed(_))),
            self.0.cancellation.sure_cancel() && graph_var_count(self.0.graph) >= 2
                ==> res matches Err(FixedPointsError::Cancelled(_)),
    {
        let graph = &self.0.graph;
        let n = graph_num_vars(graph);
        let mut token = self.0.cancellation.duplicate();
        token = token.start_timer();
        proof {
            self.0.cancellation.lemma_arms_to_properties(token);
        }

        let unit = graph_unit(graph);
        let mut to_merge: Vec<GraphColoredVertices> = Vec::new();
        let mut var: usize = 0;
        while var < n
            invariant
                graph == &self.0.graph,
                var <= n,
                n == graph_var_count(self.0.graph),
                gcv_contents(unit) == unit_contents(self.0.graph),
                gcv_width(unit) == graph_bdd_var_count(self.0.graph),
                gcv_width(*restriction) == graph_bdd_var_count(self.0.graph),
                to_merge@.len() == var,
                forall|k: int|
                    0 <= k < var ==> gcv_contents(#[trigger] to_merge@[k]) == stable_set(
                        self.0.graph,
                        gcv_contents(*restriction),
                        k,
                    ),
                forall|k: int|
                    0 <= k < var ==> gcv_width(#[trigger] to_merge@[k]) == graph_bdd_var_count(
                        self.0.graph,
                    ),
            decreases n - var,
        {
            let can_step = graph_var_can_post(graph, var, &unit);
            let is_stable = gcv_minus(restriction, &can_step);
            to_merge.push(is_stable);
            var = var + 1;
        }

        let ghost init = to_merge@;
        let ghost mut vsets: Seq<Set<int>> = Seq::new(init.len(), |k: int| Set::new(|j: int| j == k));
        proof {
            assert forall|k: int| 0 <= k < init.len() implies gcv_contents(
                #[trigger] init[k],
            ).subset_of(gcv_contents(*restriction)) by {
                assert(gcv_contents(init[k]) == stable_set(
                    self.0.graph,
                    gcv_contents(*restriction),
                    k,
                ));
            }
            assert forall|k: int, x: int| #![trigger gcv_contents(to_merge@[k]).contains(x)]
                0 <= k < to_merge@.len() implies (gcv_contents(to_merge@[k]).contains(x)
                <==> stable_inter(
                self.0.graph,
                gcv_contents(*restriction),
                vsets[k],
                x,
            )) by {
                assert(gcv_contents(init[k]) == stable_set(
                    self.0.graph,
                    gcv_contents(*restriction),
                    k,
                ));
                assert(vsets[k].contains(k));
            }
            assert forall|k: int| 0 <= k < to_merge@.len() implies has_member(
                #[trigger] vsets[k],
            ) by {
                assert(vsets[k].contains(k));
            }
            assert forall|k: int|
                0 <= k < to_merge@.len() implies (#[trigger] vsets[k]).subset_of(
                variable_range(self.0.graph),
            ) by {
                assert forall|j: int|
                    vsets[k].contains(j) implies variable_range(self.0.graph).contains(j) by {
                    assert(j == k);
                }
            }
        }

        while to_merge.len() > 1
            invariant
                n == graph_var_count(self.0.graph),
                init.len() == n,
                forall|k: int|
                    0 <= k < init.len() ==> gcv_contents(#[trigger] init[k]) == stable_set(
                        self.0.graph,
                        gcv_contents(*restriction),
                        k,
                    ),
                n >= 1 ==> to_merge@.len() >= 1,
                n == 0 ==> to_merge@.len() == 0,
                forall|x: int| mem_all(to_merge@, x) <==> mem_all(init, x),
                forall|k: int|
                    0 <= k < to_merge@.len() ==> gcv_contents(
                        #[trigger] to_merge@[k],
                    ).subset_of(gcv_contents(*restriction)),
                forall|k: int|
                    0 <= k < to_merge@.len() ==> gcv_width(#[trigger] to_merge@[k])
                        == graph_bdd_var_count(self.0.graph),
                vsets.len() == to_merge@.len(),
                forall|k: int|
                    0 <= k < to_merge@.len() ==> (#[trigger] vsets[k]).subset_of(
                        variable_range(self.0.graph),
                    ),
                forall|k: int| 0 <= k < to_merge@.len() ==> has_member(#[trigger] vsets[k]),
                forall|k: int, x: int| #![trigger gcv_contents(to_merge@[k]).contains(x)]
                    0 <= k < to_merge@.len() ==> (gcv_contents(to_merge@[k]).contains(x)
                        <==> stable_inter(
                        self.0.graph,
                        gcv_contents(*restriction),
                        vsets[k],
                        x,
                    )),
                token.armed(),
                token.never_cancels() == self.0.cancellation.never_cancels(),
                self.0.cancellation.sure_cancel() ==> token.sure_cancel(),
                self.0.cancellation.sure_cancel() ==> to_merge@.len() == n,
            decreases to_merge@.len(),
        {
            let checked = token.check_cancelled();
            token = checked.0;
            if checked.1 {
                proof {
                    token.lemma_never_not_latched();
                    assert(!self.0.cancellation.never_cancels());
                }
                let partial = to_merge.pop().unwrap();
                proof {
                    let s = to_merge@.push(partial);
                    assert forall|x: int|
                        is_network_fixed_point(
                            self.0.graph,
                            gcv_contents(*restriction),
                            x,
                        ) implies gcv_contents(partial).contains(x) by {
                        assert(mem_all(init, x));
                        assert(mem_all(s, x));
                        assert(s[s.len() - 1] == partial);
                    }
                    let vs = vsets[vsets.len() - 1];
                    assert(partial_fold_shape(
                        self.0.graph,
                        gcv_contents(*restriction),
                        vs,
                        partial,
                    )) by {
                        assert(s[s.len() - 1] == partial);
                        assert forall|x: int|
                            #[trigger] gcv_contents(partial).contains(x) <==> stable_inter(
                            self.0.graph,
                            gcv_contents(*restriction),
                            vs,
                            x,
                        ) by {
                            assert(gcv_contents(s[s.len() - 1]).contains(x) <==> stable_inter(
                                self.0.graph,
                                gcv_contents(*restriction),
                                vsets[s.len() - 1],
                                x,
                            ));
                        }
                    }
                }
                return Err(FixedPointsError::Cancelled(partial));
            }
            let ghost s0 = to_merge@;
            let ghost v0 = vsets;
            let i = smallest_index(&to_merge);
            let x = to_merge.remove(i);
            let ghost s1 = to_merge@;
            let j = smallest_index(&to_merge);
            let y = to_merge.remove(j);
            let ghost s2 = to_merge@;
            let merged = gcv_intersect(&x, &y);
            to_merge.push(merged);
            proof {
                let vs_x = v0[i as int];
                let j0 = if j < i { j as int } else { j + 1 };
                let vs_y = v0[j0];
                let v1 = v0.remove(i as int);
                let v2 = v1.remove(j as int);
                vsets = v2.push(vs_x.union(vs_y));
                assert(vs_y == v1[j as int]);
                let s3 = to_merge@;
                assert forall|z: int| mem_all(s3, z) == mem_all(s0, z) by {
                    if mem_all(s0, z) {
                        assert forall|k: int| 0 <= k < s3.len() implies gcv_contents(
                            #[trigger] s3[k],
                        ).contains(z) by {
                            if k < s3.len() - 1 {
                                let k1 = if k < j { k } else { k + 1 };
                                let k0 = if k1 < i { k1 } else { k1 + 1 };
                                assert(s3[k] == s2[k]);
                                assert(s2[k] == s1[k1]);
                                assert(s1[k1] == s0[k0]);
                            } else {
                                assert(gcv_contents(x).contains(z) && gcv_contents(y).contains(
                                    z,
                                )) by {
                                    assert(x == s0[i as int]);
                                    let j0 = if j < i { j as int } else { j + 1 };
                                    assert(y == s0[j0]);
                                }
                            }
                        }
                        assert(mem_all(s3, z));
                    }
                    if mem_all(s3, z) {
                        assert forall|k: int| 0 <= k < s0.len() implies gcv_contents(
                            #[trigger] s0[k],
                        ).contains(z) by {
                            let j0 = if j < i { j as int } else { j + 1 };
                            assert(gcv_contents(s3[s3.len() - 1]).contains(z));
                            if k == i {
                                assert(s0[k] == x);
                            } else if k == j0 {
                                assert(s0[k] == y);
                            } else {
                                let k1 = if k < i { k } else { k - 1 };
                                let k2 = if k1 < j { k1 } else { k1 - 1 };
                                assert(s1[k1] == s0[k]);
                                assert(s2[k2] == s1[k1]);
                                assert(s3[k2] == s2[k2]);
                                assert(gcv_contents(s3[k2]).contains(z));
                            }
                        }
                        assert(mem_all(s0, z));
                    }
                }
                let rs = gcv_contents(*restriction);
                assert forall|k: int, z: int| #![trigger gcv_contents(s3[k]).contains(z)]
                    0 <= k < s3.len() implies (gcv_contents(s3[k]).contains(z) <==> stable_inter(
                    self.0.graph,
                    rs,
                    vsets[k],
                    z,
                )) by {
                    if k < s3.len() - 1 {
                        let k1 = if k < j { k } else { k + 1 };
                        let k0 = if k1 < i { k1 } else { k1 + 1 };
                        assert(s3[k] == s2[k]);
                        assert(s2[k] == s1[k1]);
                        assert(s1[k1] == s0[k0]);
                        assert(vsets[k] == v2[k]);
                        assert(v2[k] == v1[k1]);
                        assert(v1[k1] == v0[k0]);
                        assert(gcv_contents(s0[k0]).contains(z) <==> stable_inter(
                            self.0.graph,
                            rs,
                            v0[k0],
                            z,
                        ));
                    } else {
                        assert(s3[k] == merged);
                        assert(vsets[k] == vs_x.union(vs_y));
                        assert(x == s0[i as int]);
                        assert(y == s0[j0]);
                        assert(gcv_contents(s0[i as int]).contains(z) <==> stable_inter(
                            self.0.graph,
                            rs,
                            v0[i as int],
                            z,
                        ));
                        assert(gcv_contents(s0[j0]).contains(z) <==> stable_inter(
                            self.0.graph,
                            rs,
                            v0[j0],
                            z,
                        ));
                        if stable_inter(self.0.graph, rs, vs_x.union(vs_y), z) {
                            assert forall|jj: int| vs_x.contains(jj) implies stable_set(
                                self.0.graph,
                                rs,
                                jj,
                            ).contains(z) by {
                                assert(vs_x.union(vs_y).contains(jj));
                            }
                            assert forall|jj: int| vs_y.contains(jj) implies stable_set(
                                self.0.graph,
                                rs,
                                jj,
                            ).contains(z) by {
                                assert(vs_x.union(vs_y).contains(jj));
                            }
                        }
                        if stable_inter(self.0.graph, rs, vs_x, z) && stable_inter(
                            self.0.graph,
                            rs,
                            vs_y,
                            z,
                        ) {
                            assert forall|jj: int|
                                vs_x.union(vs_y).contains(jj) implies stable_set(
                                self.0.graph,
                                rs,
                                jj,
                            ).contains(z) by {}
                        }
                    }
                }
                assert forall|k: int|
                    0 <= k < s3.len() implies (#[trigger] vsets[k]).subset_of(
                    variable_range(self.0.graph),
                ) by {
                    if k < s3.len() - 1 {
                        let k1 = if k < j { k } else { k + 1 };
                        let k0 = if k1 < i { k1 } else { k1 + 1 };
                        assert(vsets[k] == v2[k]);
                        assert(v2[k] == v1[k1]);
                        assert(v1[k1] == v0[k0]);
                        assert(v0[k0].subset_of(variable_range(self.0.graph)));
                    } else {
                        assert(vsets[k] == vs_x.union(vs_y));
                        assert(v0[i as int].subset_of(variable_range(self.0.graph)));
                        assert(v0[j0].subset_of(variable_range(self.0.graph)));
                        assert forall|jj: int|
                            vs_x.union(vs_y).contains(jj) implies variable_range(
                            self.0.graph,
                        ).contains(jj) by {}
                    }
                }
                assert forall|k: int| 0 <= k < s3.len() implies has_member(
                    #[trigger] vsets[k],
                ) by {
                    if k < s3.len() - 1 {
                        let k1 = if k < j { k } else { k + 1 };
                        let k0 = if k1 < i { k1 } else { k1 + 1 };
                        assert(vsets[k] == v2[k]);
                        assert(v2[k] == v1[k1]);
                        assert(v1[k1] == v0[k0]);
                        assert(has_member(v0[k0]));
                    } else {
                        assert(vsets[k] == vs_x.union(vs_y));
                        assert(has_member(v0[i as int]));
                        let jj = choose|jj: int| #[trigger] v0[i as int].contains(jj);
                        assert(vs_x.union(vs_y).contains(jj));
                        assert(vsets[k].contains(jj));
                    }
                }
            }
        }

        match to_merge.pop() {
            Some(fixed_points) => {
                proof {
                    let s = to_merge@.push(fixed_points);
                    assert(s.len() == 1);
                    assert forall|x: int|
                        gcv_contents(fixed_points).contains(x) <==> is_network_fixed_point(
                            self.0.graph,
                            gcv_contents(*restriction),
                            x,
                        ) by {
                        assert(s[0] == fixed_points);
                        if gcv_contents(fixed_points).contains(x) {
                            assert(mem_all(s, x));
                            assert(mem_all(init, x));
                            assert(gcv_contents(init[0]).contains(x));
                            assert forall|j: int|
                                0 <= j < graph_var_count(self.0.graph) implies stable_set(
                                self.0.graph,
                                gcv_contents(*restriction),
                                j,
                            ).contains(x) by {
                                assert(gcv_contents(init[j]).contains(x));
                            }
                        }
                        if is_network_fixed_point(self.0.graph, gcv_contents(*restriction), x) {
                            assert(mem_all(init, x));
                            assert(mem_all(s, x));
                        }
                    }
                }
                Ok(fixed_points)
            },
            None => Err(FixedPointsError::NoFixedPointsFound),
        }
    }
}

} // verus!
