//! Constant-propagation percolation of a subspace.
//!
//! A subspace is a partial assignment of the network variables.  Percolation
//! repeatedly fixes every variable whose update function is forced to a
//! constant by the values fixed so far, until a full pass derives nothing
//! new.  Values fixed by the input are ground truth: they are never
//! overwritten, even if propagation would derive a conflicting value.

use crate::cancellation::CancelToken;
use crate::symbolic::{
    bdd_is_false, bdd_is_true, bdd_nvars_of, bdd_restrict, bdd_sat, bdd_support, bdd_support_of,
    graph_bdd_num_vars, graph_bdd_var_count, graph_clone, graph_fn_update, graph_new,
    graph_new_of, graph_new_ok, graph_num_vars, graph_state_variables, graph_state_vars,
    graph_var_count, override_pairs, support_flip, update_sat, varid_index,
};
use biodivine_lib_bdd::Bdd;
use biodivine_lib_param_bn::symbolic_async_graph::SymbolicAsyncGraph;
use biodivine_lib_param_bn::BooleanNetwork;
use biodivine_lib_param_bn::VariableId;
use vstd::prelude::*;

verus! {

/// An error returned by a percolation run.
pub enum PercolationError {
    /// The symbolic graph of the network could not be built.
    CreationFailed(String),
    /// The run was cancelled; carries the assignments fixed up to the last
    /// checkpoint.
    Cancelled(Vec<(VariableId, bool)>),
}

impl PercolationError {
    /// A short human-readable description of the error.
    pub fn message(&self) -> &'static str {
        match self {
            PercolationError::CreationFailed(_) => "config creation failed",
            PercolationError::Cancelled(_) => "operation cancelled",
        }
    }
}

/// Configuration of a percolation run: the symbolic graph whose variables are
/// percolated, and a cancellation strategy.
pub struct PercolationConfig {
    pub graph: SymbolicAsyncGraph,
    pub cancellation: CancelToken,
}

impl PercolationConfig {
    /// A default configuration built from a Boolean network.  Fails with
    /// `CreationFailed` exactly when the symbolic graph cannot be built;
    /// validation is eager, a successful construction never fails later.
    pub fn from_boolean_network(bn: &BooleanNetwork) -> (res: Result<
        PercolationConfig,
        PercolationError,
    >)
        ensures
            (res matches Ok(_)) <==> graph_new_ok(*bn),
            res matches Ok(c) ==> c.graph == graph_new_of(*bn) && c.cancellation
                == CancelToken::Never,
            res matches Err(e) ==> e matches PercolationError::CreationFailed(_),
    {
        match graph_new(bn) {
            Ok(graph) => Ok(PercolationConfig { graph, cancellation: CancelToken::Never }),
            Err(reason) => Err(PercolationError::CreationFailed(reason)),
        }
    }

    /// A default configuration for the given graph: the run is never
    /// cancelled.
    pub fn with_graph(graph: SymbolicAsyncGraph) -> (r: PercolationConfig)
        ensures
            r.graph == graph,
            r.cancellation == CancelToken::Never,
    {
        PercolationConfig { graph, cancellation: CancelToken::Never }
    }

    /// The same configuration with the cancellation strategy replaced.
    pub fn with_cancellation(self, cancellation: CancelToken) -> (r: PercolationConfig)
        ensures
            r.graph == self.graph,
            r.cancellation == cancellation,
    {
        PercolationConfig { cancellation, graph: self.graph }
    }

    /// A copy of the configuration whose cancellation strategy is a fresh,
    /// not yet armed timer with the given deadline.  The original
    /// configuration is left untouched, so calling this twice in a row yields
    /// a configuration that uses only the latest limit.
    pub fn with_time_limit(&self, duration_ms: u64) -> (r: PercolationConfig)
        ensures
            r.graph == self.graph,
            r.cancellation == CancelToken::Timer(
                crate::cancellation::CancelTokenTimer {
                    duration_ms,
                    started: None,
                    fired: false,
                },
            ),
    {
        PercolationConfig {
            graph: graph_clone(&self.graph),
            cancellation: CancelToken::timer(duration_ms),
        }
    }
}

/// The partial assignment described by a list of `(variable, value)` pairs;
/// later pairs overwrite earlier ones, as in the imperative initialization.
pub open spec fn subspace_map(s: Seq<(VariableId, bool)>) -> Map<int, bool>
    decreases s.len(),
{
    if s.len() == 0 {
        Map::empty()
    } else {
        subspace_map(s.drop_last()).insert(varid_index(s.last().0), s.last().1)
    }
}

/// The partial assignment held by a fixed-value array.
pub open spec fn fixed_map(f: Seq<Option<bool>>) -> Map<int, bool> {
    Map::new(|j: int| 0 <= j < f.len() && f[j] is Some, |j: int| f[j].unwrap())
}

/// Every key of the partial assignment is a valid index below `n`.
pub open spec fn map_wf(m: Map<int, bool>, n: int) -> bool {
    forall|x: int| m.dom().contains(x) ==> 0 <= x < n
}

/// The valuation `v` agrees with the partial assignment `m` on the domain of
/// `m`.
pub open spec fn agrees(v: Seq<bool>, m: Map<int, bool>) -> bool {
    forall|x: int| m.dom().contains(x) && 0 <= x < v.len() ==> v[x] == m[x]
}

/// The update function with satisfying valuations `us` is forced to the
/// constant `c` by the partial assignment `m` over `nv` diagram variables:
/// every valuation that agrees with `m` evaluates to `c`.
pub open spec fn forced_to(us: Set<Seq<bool>>, m: Map<int, bool>, nv: nat, c: bool) -> bool {
    forall|v: Seq<bool>| v.len() == nv && agrees(v, m) ==> us.contains(v) == c
}

/// The valuation `v` with the positions in the domain of `m` overwritten by
/// the values of `m`.
pub open spec fn override_map(v: Seq<bool>, m: Map<int, bool>) -> Seq<bool> {
    Seq::new(v.len(), |x: int| if m.dom().contains(x) { m[x] } else { v[x] })
}

/// The network-level partial assignment translated to the diagram level:
/// network variable `j` fixed to `c` becomes diagram variable `sv[j]` fixed
/// to `c`.
pub open spec fn bdd_fix(m: Map<int, bool>, sv: Seq<int>) -> Map<int, bool> {
    Map::new(
        |x: int| exists|j: int| 0 <= j < sv.len() && #[trigger] sv[j] == x && m.dom().contains(j),
        |x: int| m[choose|j: int| 0 <= j < sv.len() && #[trigger] sv[j] == x && m.dom().contains(j)],
    )
}

/// The diagram variables of a graph's state encoding are pairwise distinct.
pub open spec fn sv_inj(sv: Seq<int>) -> bool {
    forall|j: int, l: int| 0 <= j < l < sv.len() ==> sv[j] != sv[l]
}

/// The partial assignment `base` extended by the derivation steps `os`, in
/// order.
pub open spec fn map_with(base: Map<int, bool>, os: Seq<(int, bool)>) -> Map<int, bool>
    decreases os.len(),
{
    if os.len() == 0 {
        base
    } else {
        map_with(base, os.drop_last()).insert(os.last().0, os.last().1)
    }
}

/// The partial assignment described by diagram-level restriction pairs.
pub open spec fn pairs_to_map(ps: Seq<(usize, bool)>) -> Map<int, bool>
    decreases ps.len(),
{
    if ps.len() == 0 {
        Map::empty()
    } else {
        pairs_to_map(ps.drop_last()).insert(ps.last().0 as int, ps.last().1)
    }
}

/// The derivation steps `os` are a valid percolation of `base` in the graph
/// `g`: each step fixes a network variable that is not fixed yet and whose
/// update function is forced to the derived constant by everything fixed
/// before that step.
pub open spec fn derivation_ok(g: SymbolicAsyncGraph, base: Map<int, bool>, os: Seq<(int, bool)>) -> bool {
    forall|k: int| 0 <= k < os.len() ==> {
        &&& 0 <= (#[trigger] os[k]).0 < graph_var_count(g)
        &&& !map_with(base, os.take(k)).dom().contains(os[k].0)
        &&& forced_to(
            update_sat(g, os[k].0),
            bdd_fix(map_with(base, os.take(k)), graph_state_vars(g)),
            graph_bdd_var_count(g),
            os[k].1,
        )
    }
}

/// Soundness of a percolation output `out` for the input `base`: every input
/// assignment is kept with its input value, every key is a network variable,
/// and everything else was derived by a valid sequence of forced-constant
/// propagation steps.
pub open spec fn percolation_sound(
    g: SymbolicAsyncGraph,
    base: Map<int, bool>,
    out: Map<int, bool>,
) -> bool {
    &&& forall|j: int|
        base.dom().contains(j) ==> #[trigger] out.dom().contains(j) && out[j] == base[j]
    &&& map_wf(out, graph_var_count(g) as int)
    &&& exists|os: Seq<(int, bool)>|
        derivation_ok(g, base, os) && out == #[trigger] map_with(base, os)
}

/// Completeness of a percolation output `out`: no further variable can be
/// derived, because no unfixed variable's update function is forced to a
/// constant by `out`.
pub open spec fn percolation_complete(g: SymbolicAsyncGraph, out: Map<int, bool>) -> bool {
    forall|j: int, c: bool|
        0 <= j < graph_var_count(g) && !out.dom().contains(j)
            ==> !#[trigger] forced_to(
            update_sat(g, j),
            bdd_fix(out, graph_state_vars(g)),
            graph_bdd_var_count(g),
            c,
        )
}

/// The assignment list is strictly sorted by variable index, so each variable
/// appears at most once.
pub open spec fn sorted_distinct(s: Seq<(VariableId, bool)>) -> bool {
    forall|k: int, l: int|
        0 <= k < l < s.len() ==> varid_index(s[k].0) < varid_index(s[l].0)
}

/// Every variable in the list is the canonical identifier of its index.  The
/// diagram engine's variable identifiers are plain newtypes over indices, so
/// together with sorting this pins the returned list down to its values: two
/// runs over equal inputs return equal lists.
pub open spec fn canonical_vars(s: Seq<(VariableId, bool)>) -> bool {
    forall|k: int, v: VariableId| #![trigger s[k], varid_index(v)]
        0 <= k < s.len() && varid_index(v) == varid_index(s[k].0) ==> v == s[k].0
}

/// The keys of the assignment described by a list are exactly the indices of
/// its entries.
pub proof fn lemma_subspace_map_dom(s: Seq<(VariableId, bool)>)
    ensures
        forall|j: int|
            #[trigger] subspace_map(s).dom().contains(j) <==> exists|k: int|
                0 <= k < s.len() && varid_index((#[trigger] s[k]).0) == j,
    decreases s.len(),
{
    if s.len() > 0 {
        let prev = s.drop_last();
        lemma_subspace_map_dom(prev);
        assert forall|j: int|
            #[trigger] subspace_map(s).dom().contains(j) implies exists|k: int|
            0 <= k < s.len() && varid_index((#[trigger] s[k]).0) == j by {
            if j == varid_index(s.last().0) {
                assert(varid_index((s[s.len() - 1]).0) == j);
            } else {
                assert(subspace_map(prev).dom().contains(j));
                let k = choose|k: int| 0 <= k < prev.len() && varid_index((#[trigger] prev[k]).0) == j;
                assert(prev[k] == s[k]);
                assert(varid_index((s[k]).0) == j);
            }
        }
        assert forall|j: int|
            (exists|k: int| 0 <= k < s.len() && varid_index((#[trigger] s[k]).0) == j)
                implies subspace_map(s).dom().contains(j) by {
            let k = choose|k: int| 0 <= k < s.len() && varid_index((#[trigger] s[k]).0) == j;
            if k < s.len() - 1 {
                assert(prev[k] == s[k]);
                assert(varid_index((prev[k]).0) == j);
                assert(subspace_map(prev).dom().contains(j));
            }
        }
    }
}

/// Percolation outputs are canonical: two strictly sorted lists of canonical
/// variables that describe the same assignment are the same list.  Together
/// with soundness and completeness, which pin the assignment, this makes the
/// returned list a function of the graph and the input subspace alone, so
/// two runs with a never-cancelling strategy return equal results.
pub proof fn lemma_output_unique(s1: Seq<(VariableId, bool)>, s2: Seq<(VariableId, bool)>)
    requires
        sorted_distinct(s1),
        sorted_distinct(s2),
        canonical_vars(s1),
        canonical_vars(s2),
        subspace_map(s1) == subspace_map(s2),
    ensures
        s1 == s2,
    decreases s1.len(),
{
    lemma_subspace_map_dom(s1);
    lemma_subspace_map_dom(s2);
    if s1.len() == 0 && s2.len() == 0 {
        assert(s1 =~= s2);
    } else if s2.len() == 0 {
        assert(subspace_map(s1).dom().contains(varid_index(s1.last().0))) by {
            assert(varid_index((s1[s1.len() - 1]).0) == varid_index(s1.last().0));
        }
        let k = choose|k: int|
            0 <= k < s2.len() && varid_index((#[trigger] s2[k]).0) == varid_index(s1.last().0);
        assert(false);
    } else if s1.len() == 0 {
        assert(subspace_map(s2).dom().contains(varid_index(s2.last().0))) by {
            assert(varid_index((s2[s2.len() - 1]).0) == varid_index(s2.last().0));
        }
        let k = choose|k: int|
            0 <= k < s1.len() && varid_index((#[trigger] s1[k]).0) == varid_index(s2.last().0);
        assert(false);
    } else {
        let j1 = varid_index(s1.last().0);
        let j2 = varid_index(s2.last().0);
        assert(subspace_map(s1).dom().contains(j1)) by {
            assert(varid_index((s1[s1.len() - 1]).0) == j1);
        }
        assert(subspace_map(s2).dom().contains(j2)) by {
            assert(varid_index((s2[s2.len() - 1]).0) == j2);
        }
        let k2 = choose|k: int| 0 <= k < s1.len() && varid_index((#[trigger] s1[k]).0) == j2;
        assert(j2 <= j1) by {
            if k2 < s1.len() - 1 {
                assert(varid_index((s1[k2]).0) < varid_index((s1[s1.len() - 1]).0));
            }
        }
        let k1 = choose|k: int| 0 <= k < s2.len() && varid_index((#[trigger] s2[k]).0) == j1;
        assert(j1 <= j2) by {
            if k1 < s2.len() - 1 {
                assert(varid_index((s2[k1]).0) < varid_index((s2[s2.len() - 1]).0));
            }
        }
        assert(j1 == j2);
        assert(s1.last().0 == s2.last().0) by {
            assert(varid_index(s2.last().0) == varid_index((s1[s1.len() - 1]).0));
        }
        assert(subspace_map(s1)[j1] == s1.last().1);
        assert(subspace_map(s2)[j2] == s2.last().1);
        assert(s1.last() == s2.last());
        let prev1 = s1.drop_last();
        let prev2 = s2.drop_last();
        lemma_subspace_map_dom(prev1);
        lemma_subspace_map_dom(prev2);
        assert(!subspace_map(prev1).dom().contains(j1)) by {
            if subspace_map(prev1).dom().contains(j1) {
                let k = choose|k: int|
                    0 <= k < prev1.len() && varid_index((#[trigger] prev1[k]).0) == j1;
                assert(prev1[k] == s1[k]);
                assert(varid_index((s1[k]).0) < varid_index((s1[s1.len() - 1]).0));
            }
        }
        assert(!subspace_map(prev2).dom().contains(j2)) by {
            if subspace_map(prev2).dom().contains(j2) {
                let k = choose|k: int|
                    0 <= k < prev2.len() && varid_index((#[trigger] prev2[k]).0) == j2;
                assert(prev2[k] == s2[k]);
                assert(varid_index((s2[k]).0) < varid_index((s2[s2.len() - 1]).0));
            }
        }
        assert(subspace_map(prev1) =~= subspace_map(s1).remove(j1));
        assert(subspace_map(prev2) =~= subspace_map(s2).remove(j2));
        assert(sorted_distinct(prev1)) by {
            assert forall|k: int, l: int|
                0 <= k < l < prev1.len() implies varid_index((prev1[k]).0) < varid_index(
                (prev1[l]).0,
            ) by {
                assert(prev1[k] == s1[k]);
                assert(prev1[l] == s1[l]);
            }
        }
        assert(sorted_distinct(prev2)) by {
            assert forall|k: int, l: int|
                0 <= k < l < prev2.len() implies varid_index((prev2[k]).0) < varid_index(
                (prev2[l]).0,
            ) by {
                assert(prev2[k] == s2[k]);
                assert(prev2[l] == s2[l]);
            }
        }
        assert(canonical_vars(prev1)) by {
            assert forall|k: int, v: VariableId| #![trigger prev1[k], varid_index(v)]
                0 <= k < prev1.len() && varid_index(v) == varid_index((prev1[k]).0) implies v
                == (prev1[k]).0 by {
                assert(prev1[k] == s1[k]);
            }
        }
        assert(canonical_vars(prev2)) by {
            assert forall|k: int, v: VariableId| #![trigger prev2[k], varid_index(v)]
                0 <= k < prev2.len() && varid_index(v) == varid_index((prev2[k]).0) implies v
                == (prev2[k]).0 by {
                assert(prev2[k] == s2[k]);
            }
        }
        lemma_output_unique(prev1, prev2);
        assert(s1.len() == s2.len());
        assert forall|k: int| 0 <= k < s1.len() implies s1[k] == s2[k] by {
            if k < s1.len() - 1 {
                assert(prev1[k] == s1[k]);
                assert(prev2[k] == s2[k]);
            }
        }
        assert(s1 =~= s2);
    }
}

/// Percolation is idempotent: an output that is both sound and complete for
/// some input cannot be extended further, so percolating it again returns it
/// unchanged.
pub proof fn lemma_percolation_idempotent(
    g: SymbolicAsyncGraph,
    m1: Map<int, bool>,
    m2: Map<int, bool>,
    m3: Map<int, bool>,
)
    requires
        percolation_sound(g, m1, m2),
        percolation_complete(g, m2),
        percolation_sound(g, m2, m3),
    ensures
        m3 == m2,
{
    let os = choose|os: Seq<(int, bool)>|
        derivation_ok(g, m2, os) && m3 == #[trigger] map_with(m2, os);
    if os.len() > 0 {
        assert(os.take(0) =~= Seq::<(int, bool)>::empty());
        assert(map_with(m2, os.take(0)) == m2);
        assert(!m2.dom().contains(os[0].0));
        assert(forced_to(
            update_sat(g, os[0].0),
            bdd_fix(m2, graph_state_vars(g)),
            graph_bdd_var_count(g),
            os[0].1,
        ));
        assert(false);
    }
    assert(m3 == map_with(m2, os));
}

/// The number of fixed entries in a fixed-value array.
pub open spec fn count_somes(f: Seq<Option<bool>>) -> nat
    decreases f.len(),
{
    if f.len() == 0 {
        0
    } else {
        count_somes(f.drop_last()) + if f.last() is Some {
            1nat
        } else {
            0nat
        }
    }
}

/// There are never more fixed entries than entries.
pub proof fn lemma_count_somes_le_len(f: Seq<Option<bool>>)
    ensures
        count_somes(f) <= f.len(),
    decreases f.len(),
{
    if f.len() > 0 {
        lemma_count_somes_le_len(f.drop_last());
    }
}

/// Fixing one unfixed entry raises the count by one.
pub proof fn lemma_count_somes_update(f: Seq<Option<bool>>, i: int, c: bool)
    requires
        0 <= i < f.len(),
        f[i] is None,
    ensures
        count_somes(f.update(i, Some(c))) == count_somes(f) + 1,
    decreases f.len(),
{
    let g = f.update(i, Some(c));
    if i == f.len() - 1 {
        assert(g.drop_last() =~= f.drop_last());
    } else {
        assert(g.drop_last() =~= f.drop_last().update(i, Some(c)));
        lemma_count_somes_update(f.drop_last(), i, c);
    }
}

/// Extending a partial assignment keeps every forced constant forced.
pub proof fn lemma_forced_monotone(
    us: Set<Seq<bool>>,
    m1: Map<int, bool>,
    m2: Map<int, bool>,
    nv: nat,
    c: bool,
)
    requires
        m1.submap_of(m2),
        forced_to(us, m1, nv, c),
    ensures
        forced_to(us, m2, nv, c),
{
    assert forall|v: Seq<bool>| v.len() == nv && agrees(v, m2) implies us.contains(v) == c by {
        assert(agrees(v, m1));
    }
}

/// A diagram that is constantly `c` after overriding with `m` is forced to
/// `c` by `m`.
pub proof fn lemma_constant_forced(us: Set<Seq<bool>>, m: Map<int, bool>, nv: nat, c: bool)
    requires
        map_wf(m, nv as int),
        forall|v: Seq<bool>| v.len() == nv ==> us.contains(#[trigger] override_map(v, m)) == c,
    ensures
        forced_to(us, m, nv, c),
{
    assert forall|v: Seq<bool>| v.len() == nv && agrees(v, m) implies us.contains(v) == c by {
        assert(override_map(v, m) =~= v);
        assert(us.contains(override_map(v, m)) == c);
    }
}

/// Overriding with the empty assignment changes nothing.
pub proof fn lemma_override_empty(v: Seq<bool>)
    ensures
        override_map(v, Map::empty()) == v,
{
    assert(override_map(v, Map::<int, bool>::empty()) =~= v);
}

/// Restriction pairs act on a valuation like the assignment they describe,
/// as long as their variables are pairwise distinct.
pub proof fn lemma_override_pairs_to_map(v: Seq<bool>, ps: Seq<(usize, bool)>)
    requires
        forall|k: int, l: int| 0 <= k < l < ps.len() ==> (#[trigger] ps[k]).0 != (#[trigger] ps[l]).0,
        forall|k: int| 0 <= k < ps.len() ==> (#[trigger] ps[k]).0 < v.len(),
    ensures
        override_pairs(v, ps) == override_map(v, pairs_to_map(ps)),
    decreases ps.len(),
{
    if ps.len() == 0 {
        lemma_override_empty(v);
    } else {
        lemma_override_pairs_to_map(v, ps.drop_last());
        let prev = pairs_to_map(ps.drop_last());
        lemma_pairs_to_map_dom(ps.drop_last());
        assert(override_pairs(v, ps) =~= override_map(v, pairs_to_map(ps)));
    }
}

/// The domain of the assignment described by restriction pairs is exactly the
/// set of their variables.
pub proof fn lemma_pairs_to_map_dom(ps: Seq<(usize, bool)>)
    ensures
        forall|x: int|
            #[trigger] pairs_to_map(ps).dom().contains(x) <==> exists|k: int|
                0 <= k < ps.len() && (#[trigger] ps[k]).0 as int == x,
    decreases ps.len(),
{
    if ps.len() > 0 {
        let prev = ps.drop_last();
        lemma_pairs_to_map_dom(prev);
        assert forall|x: int|
            #[trigger] pairs_to_map(ps).dom().contains(x) implies exists|k: int|
            0 <= k < ps.len() && (#[trigger] ps[k]).0 as int == x by {
            if x == ps.last().0 as int {
                assert((ps[ps.len() - 1]).0 as int == x);
            } else {
                assert(pairs_to_map(prev).dom().contains(x));
                let k = choose|k: int| 0 <= k < prev.len() && (#[trigger] prev[k]).0 as int == x;
                assert(prev[k] == ps[k]);
                assert((ps[k]).0 as int == x);
            }
        }
        assert forall|x: int|
            (exists|k: int| 0 <= k < ps.len() && (#[trigger] ps[k]).0 as int == x)
                implies pairs_to_map(ps).dom().contains(x) by {
            let k = choose|k: int| 0 <= k < ps.len() && (#[trigger] ps[k]).0 as int == x;
            if k < ps.len() - 1 {
                assert(prev[k] == ps[k]);
                assert((prev[k]).0 as int == x);
                assert(pairs_to_map(prev).dom().contains(x));
            }
        }
    }
}

/// The value of the assignment described by restriction pairs at one of the
/// pair variables, as long as the variables are pairwise distinct.
pub proof fn lemma_pairs_to_map_at(ps: Seq<(usize, bool)>, k: int)
    requires
        forall|k1: int, l: int|
            0 <= k1 < l < ps.len() ==> (#[trigger] ps[k1]).0 != (#[trigger] ps[l]).0,
        0 <= k < ps.len(),
    ensures
        pairs_to_map(ps).dom().contains(ps[k].0 as int),
        pairs_to_map(ps)[ps[k].0 as int] == ps[k].1,
    decreases ps.len(),
{
    lemma_pairs_to_map_dom(ps);
    if k == ps.len() - 1 {
    } else {
        lemma_pairs_to_map_at(ps.drop_last(), k);
        assert(ps.drop_last()[k] == ps[k]);
        assert(ps[k].0 != ps.last().0);
    }
}

/// Extending the derivation list by one inserted pair extends the assignment
/// it builds by that pair.
pub proof fn lemma_map_with_push(base: Map<int, bool>, os: Seq<(int, bool)>, p: (int, bool))
    ensures
        map_with(base, os.push(p)) == map_with(base, os).insert(p.0, p.1),
{
    assert(os.push(p).drop_last() =~= os);
    assert(os.push(p).last() == p);
}

/// A valid derivation never overwrites an assignment of the base: the built
/// assignment keeps every base entry.
pub proof fn lemma_map_with_base(base: Map<int, bool>, os: Seq<(int, bool)>)
    requires
        forall|k: int|
            0 <= k < os.len() ==> !map_with(base, os.take(k)).dom().contains(
                (#[trigger] os[k]).0,
            ),
    ensures
        forall|j: int|
            #[trigger] base.dom().contains(j) ==> map_with(base, os).dom().contains(j)
                && map_with(base, os)[j] == base[j],
    decreases os.len(),
{
    if os.len() > 0 {
        let prev = os.drop_last();
        assert forall|k: int|
            0 <= k < prev.len() implies !map_with(base, prev.take(k)).dom().contains(
            (#[trigger] prev[k]).0,
        ) by {
            assert(prev.take(k) =~= os.take(k));
            assert(prev[k] == os[k]);
        }
        lemma_map_with_base(base, prev);
        assert(os.take(os.len() - 1) =~= prev);
        assert(!map_with(base, prev).dom().contains(os[os.len() - 1].0));
    }
}

/// Appending one more valid derivation step keeps the derivation valid.
pub proof fn lemma_derivation_push(
    g: SymbolicAsyncGraph,
    base: Map<int, bool>,
    os: Seq<(int, bool)>,
    p: (int, bool),
)
    requires
        derivation_ok(g, base, os),
        0 <= p.0 < graph_var_count(g),
        !map_with(base, os).dom().contains(p.0),
        forced_to(
            update_sat(g, p.0),
            bdd_fix(map_with(base, os), graph_state_vars(g)),
            graph_bdd_var_count(g),
            p.1,
        ),
    ensures
        derivation_ok(g, base, os.push(p)),
{
    let os2 = os.push(p);
    assert forall|k: int| 0 <= k < os2.len() implies {
        &&& 0 <= (#[trigger] os2[k]).0 < graph_var_count(g)
        &&& !map_with(base, os2.take(k)).dom().contains(os2[k].0)
        &&& forced_to(
            update_sat(g, os2[k].0),
            bdd_fix(map_with(base, os2.take(k)), graph_state_vars(g)),
            graph_bdd_var_count(g),
            os2[k].1,
        )
    } by {
        if k < os.len() {
            assert(os2.take(k) =~= os.take(k));
            assert(os2[k] == os[k]);
        } else {
            assert(os2.take(k) =~= os);
            assert(os2[k] == p);
        }
    }
}

/// Every key of a subspace list below `n` gives a well-formed assignment.
pub proof fn lemma_subspace_map_wf(s: Seq<(VariableId, bool)>, n: int)
    requires
        forall|k: int| 0 <= k < s.len() ==> 0 <= varid_index((#[trigger] s[k]).0) < n,
    ensures
        map_wf(subspace_map(s), n),
    decreases s.len(),
{
    if s.len() > 0 {
        assert forall|k: int|
            0 <= k < s.drop_last().len() implies 0 <= varid_index(
            (#[trigger] s.drop_last()[k]).0,
        ) < n by {
            assert(s.drop_last()[k] == s[k]);
        }
        lemma_subspace_map_wf(s.drop_last(), n);
    }
}

/// Appending one assignment to a subspace list inserts it into the described
/// assignment.
pub proof fn lemma_subspace_push(s: Seq<(VariableId, bool)>, p: (VariableId, bool))
    ensures
        subspace_map(s.push(p)) == subspace_map(s).insert(varid_index(p.0), p.1),
{
    assert(s.push(p).drop_last() =~= s);
    assert(s.push(p).last() == p);
}

/// One initialization step: writing the `k`-th subspace pair extends the
/// assignment described by the first `k` pairs.
pub proof fn lemma_subspace_take_step(s: Seq<(VariableId, bool)>, k: int)
    requires
        0 <= k < s.len(),
    ensures
        subspace_map(s.take(k + 1)) == subspace_map(s.take(k)).insert(
            varid_index(s[k].0),
            s[k].1,
        ),
{
    assert(s.take(k + 1).drop_last() =~= s.take(k));
    assert(s.take(k + 1).last() == s[k]);
}

/// Fixing one entry of the fixed-value array inserts it into the held
/// assignment.
pub proof fn lemma_fixed_map_update(f: Seq<Option<bool>>, i: int, c: bool)
    requires
        0 <= i < f.len(),
    ensures
        fixed_map(f.update(i, Some(c))) == fixed_map(f).insert(i, c),
{
    assert(fixed_map(f.update(i, Some(c))) =~= fixed_map(f).insert(i, c));
}

/// Every key of the diagram-level assignment is a valid diagram variable.
pub proof fn lemma_bdd_fix_wf(m: Map<int, bool>, sv: Seq<int>, nv: int)
    requires
        forall|j: int| 0 <= j < sv.len() ==> 0 <= #[trigger] sv[j] < nv,
    ensures
        map_wf(bdd_fix(m, sv), nv),
{
    assert forall|x: int| bdd_fix(m, sv).dom().contains(x) implies 0 <= x < nv by {
        let j = choose|j: int|
            0 <= j < sv.len() && #[trigger] sv[j] == x && m.dom().contains(j);
        assert(sv[j] == x);
    }
}

/// The diagram-level assignment at the state variable of a fixed network
/// variable is the fixed value.
pub proof fn lemma_bdd_fix_at(m: Map<int, bool>, sv: Seq<int>, j: int)
    requires
        sv_inj(sv),
        0 <= j < sv.len(),
        m.dom().contains(j),
    ensures
        bdd_fix(m, sv).dom().contains(sv[j]),
        bdd_fix(m, sv)[sv[j]] == m[j],
{
    let x = sv[j];
    assert(0 <= j < sv.len() && sv[j] == x && m.dom().contains(j));
    let j2 = choose|j2: int| 0 <= j2 < sv.len() && #[trigger] sv[j2] == x && m.dom().contains(j2);
    if j2 != j {
        if j2 < j {
            assert(sv[j2] != sv[j]);
        } else {
            assert(sv[j] != sv[j2]);
        }
        assert(false);
    }
}

/// Extending the network-level assignment extends the diagram-level one.
pub proof fn lemma_bdd_fix_submap(m1: Map<int, bool>, m2: Map<int, bool>, sv: Seq<int>)
    requires
        sv_inj(sv),
        m1.submap_of(m2),
    ensures
        bdd_fix(m1, sv).submap_of(bdd_fix(m2, sv)),
{
    assert forall|x: int| bdd_fix(m1, sv).dom().contains(x) implies bdd_fix(m2, sv).dom().contains(
        x,
    ) && bdd_fix(m1, sv)[x] == bdd_fix(m2, sv)[x] by {
        let j = choose|j: int|
            0 <= j < sv.len() && #[trigger] sv[j] == x && m1.dom().contains(j);
        lemma_bdd_fix_at(m1, sv, j);
        lemma_bdd_fix_at(m2, sv, j);
    }
}

/// The valuation `v` with its first `k` positions replaced by those of `w`.
pub open spec fn flip_prefix_seq(v: Seq<bool>, w: Seq<bool>, k: int) -> Seq<bool> {
    Seq::new(v.len(), |x: int| if x < k { w[x] } else { v[x] })
}

/// Replacing a prefix of positions outside the support of a diagram does not
/// change membership in its satisfying valuations.
pub proof fn lemma_flip_prefix(b: Bdd, v: Seq<bool>, w: Seq<bool>, k: int)
    requires
        support_flip(b),
        v.len() == bdd_nvars_of(b),
        w.len() == v.len(),
        forall|x: int| 0 <= x < v.len() && v[x] != w[x] ==> !bdd_support_of(b).contains(x),
        0 <= k <= v.len(),
    ensures
        bdd_sat(b).contains(flip_prefix_seq(v, w, k)) == bdd_sat(b).contains(v),
    decreases k,
{
    if k == 0 {
        assert(flip_prefix_seq(v, w, 0) =~= v);
    } else {
        lemma_flip_prefix(b, v, w, k - 1);
        let m0 = flip_prefix_seq(v, w, k - 1);
        let m1 = flip_prefix_seq(v, w, k);
        if v[k - 1] == w[k - 1] {
            assert(m1 =~= m0);
        } else {
            assert(!bdd_support_of(b).contains(k - 1));
            assert(m1 =~= m0.update(k - 1, w[k - 1]));
            assert(m0.len() == bdd_nvars_of(b));
            assert(bdd_sat(b).contains(m0.update(k - 1, w[k - 1])) == bdd_sat(b).contains(m0));
        }
    }
}

/// Two valuations that differ only outside the support of a diagram are both
/// satisfying or both falsifying.
pub proof fn lemma_flip_many(b: Bdd, v: Seq<bool>, w: Seq<bool>)
    requires
        support_flip(b),
        v.len() == bdd_nvars_of(b),
        w.len() == v.len(),
        forall|x: int| 0 <= x < v.len() && v[x] != w[x] ==> !bdd_support_of(b).contains(x),
    ensures
        bdd_sat(b).contains(w) == bdd_sat(b).contains(v),
{
    lemma_flip_prefix(b, v, w, v.len() as int);
    assert(flip_prefix_seq(v, w, v.len() as int) =~= w);
}

/// Overriding by two assignments with disjoint domains is overriding by their
/// union.
pub proof fn lemma_override_compose(v: Seq<bool>, rm: Map<int, bool>, pm: Map<int, bool>)
    requires
        forall|x: int| #[trigger] pm.dom().contains(x) ==> !rm.dom().contains(x),
    ensures
        override_map(override_map(v, pm), rm) == override_map(v, rm.union_prefer_right(pm)),
{
    assert(override_map(override_map(v, pm), rm) =~= override_map(v, rm.union_prefer_right(pm)));
}

/// A cached diagram that is not a constant shows that its update function is
/// not forced to any constant by the current assignment, as long as the
/// assignment avoids the diagram's support.
pub proof fn lemma_unforced(
    g: SymbolicAsyncGraph,
    i: int,
    b: Bdd,
    rm: Map<int, bool>,
    bm: Map<int, bool>,
)
    requires
        support_flip(b),
        bdd_nvars_of(b) == graph_bdd_var_count(g),
        map_wf(rm, graph_bdd_var_count(g) as int),
        map_wf(bm, graph_bdd_var_count(g) as int),
        rm.submap_of(bm),
        forall|x: int| #[trigger] bdd_support_of(b).contains(x) ==> !bm.dom().contains(x),
        forall|v: Seq<bool>|
            v.len() == graph_bdd_var_count(g) ==> (#[trigger] bdd_sat(b).contains(v)
                <==> update_sat(g, i).contains(override_map(v, rm))),
        exists|v: Seq<bool>|
            v.len() == graph_bdd_var_count(g) && #[trigger] bdd_sat(b).contains(v),
        exists|v: Seq<bool>|
            v.len() == graph_bdd_var_count(g) && !(#[trigger] bdd_sat(b).contains(v)),
    ensures
        !forced_to(update_sat(g, i), bm, graph_bdd_var_count(g), true),
        !forced_to(update_sat(g, i), bm, graph_bdd_var_count(g), false),
{
    let nv = graph_bdd_var_count(g);
    let us = update_sat(g, i);
    let vt = choose|v: Seq<bool>| v.len() == nv && #[trigger] bdd_sat(b).contains(v);
    let vf = choose|v: Seq<bool>| v.len() == nv && !(#[trigger] bdd_sat(b).contains(v));

    let vt2 = override_map(vt, bm);
    assert(vt2.len() == nv);
    assert forall|x: int| 0 <= x < vt.len() && vt[x] != vt2[x] implies !bdd_support_of(b).contains(
        x,
    ) by {
        assert(bm.dom().contains(x));
    }
    lemma_flip_many(b, vt, vt2);
    assert(bdd_sat(b).contains(vt2));
    assert(override_map(vt2, rm) =~= vt2);
    assert(us.contains(vt2));
    assert(agrees(vt2, bm));
    assert(!forced_to(us, bm, nv, false)) by {
        if forced_to(us, bm, nv, false) {
            assert(us.contains(vt2) == false);
        }
    }

    let vf2 = override_map(vf, bm);
    assert(vf2.len() == nv);
    assert forall|x: int| 0 <= x < vf.len() && vf[x] != vf2[x] implies !bdd_support_of(b).contains(
        x,
    ) by {
        assert(bm.dom().contains(x));
    }
    lemma_flip_many(b, vf, vf2);
    assert(!bdd_sat(b).contains(vf2));
    assert(override_map(vf2, rm) =~= vf2);
    assert(!us.contains(vf2));
    assert(agrees(vf2, bm));
    assert(!forced_to(us, bm, nv, true)) by {
        if forced_to(us, bm, nv, true) {
            assert(us.contains(vf2) == true);
        }
    }
}

/// A vector of `n` unfixed slots.
fn none_vec<T>(n: usize) -> (v: Vec<Option<T>>)
    ensures
        v@.len() == n,
        forall|k: int| 0 <= k < v@.len() ==> (#[trigger] v@[k]) is None,
{
    let mut v: Vec<Option<T>> = Vec::new();
    let mut i: usize = 0;
    while i < n
        invariant
            v@.len() == i,
            i <= n,
            forall|k: int| 0 <= k < v@.len() ==> (#[trigger] v@[k]) is None,
        decreases n - i,
    {
        v.push(None);
        i = i + 1;
    }
    v
}

/// The assignment restricted to keys below `i`.
spec fn restrict_below(m: Map<int, bool>, i: int) -> Map<int, bool> {
    Map::new(|j: int| m.dom().contains(j) && j < i, |j: int| m[j])
}

/// Reads the fixed-value array off into an assignment list sorted by
/// variable index.
#[verifier::loop_isolation(false)]
fn collect_fixed(fixed: &Vec<Option<bool>>) -> (out: Vec<(VariableId, bool)>)
    ensures
        sorted_distinct(out@),
        canonical_vars(out@),
        subspace_map(out@) == fixed_map(fixed@),
{
    let mut out: Vec<(VariableId, bool)> = Vec::new();
    proof {
        assert(subspace_map(out@) =~= restrict_below(fixed_map(fixed@), 0));
    }
    let mut i: usize = 0;
    while i < fixed.len()
        invariant
            i <= fixed@.len(),
            forall|k: int|
                0 <= k < out@.len() ==> 0 <= varid_index((#[trigger] out@[k]).0) < i,
            sorted_distinct(out@),
            canonical_vars(out@),
            subspace_map(out@) == restrict_below(fixed_map(fixed@), i as int),
        decreases fixed@.len() - i,
    {
        let ghost out0 = out@;
        match fixed[i] {
            Some(val) => {
                let var = VariableId::from_index(i);
                out.push((var, val));
                proof {
                    lemma_subspace_push(out0, (var, val));
                    assert(restrict_below(fixed_map(fixed@), i + 1) =~= restrict_below(
                        fixed_map(fixed@),
                        i as int,
                    ).insert(i as int, val));
                }
            },
            None => {
                proof {
                    assert(restrict_below(fixed_map(fixed@), i + 1) =~= restrict_below(
                        fixed_map(fixed@),
                        i as int,
                    ));
                }
            },
        }
        i = i + 1;
    }
    proof {
        assert(restrict_below(fixed_map(fixed@), fixed@.len() as int) =~= fixed_map(fixed@));
    }
    out
}

/// Health of a cached, possibly restricted update diagram of variable `i`:
/// its satisfying valuations are those of the update function with the
/// restriction map `rm` substituted in, `rm` only restricts currently fixed
/// diagram variables, and the diagram's support avoids everything restricted.
spec fn fns_ok_at(
    g: SymbolicAsyncGraph,
    b: Bdd,
    rm: Map<int, bool>,
    i: int,
    fixed: Seq<Option<bool>>,
) -> bool {
    &&& bdd_nvars_of(b) == graph_bdd_var_count(g)
    &&& support_flip(b)
    &&& (forall|x: int|
        #[trigger] bdd_support_of(b).contains(x) ==> 0 <= x < graph_bdd_var_count(g)
            && !rm.dom().contains(x))
    &&& map_wf(rm, graph_bdd_var_count(g) as int)
    &&& rm.submap_of(bdd_fix(fixed_map(fixed), graph_state_vars(g)))
    &&& (forall|v: Seq<bool>|
        v.len() == graph_bdd_var_count(g) ==> (#[trigger] bdd_sat(b).contains(v)
            <==> update_sat(g, i).contains(override_map(v, rm))))
}

/// A diagram with at least one satisfying and one falsifying valuation.
spec fn bdd_nonconstant(g: SymbolicAsyncGraph, b: Bdd) -> bool {
    &&& (exists|v: Seq<bool>|
        v.len() == graph_bdd_var_count(g) && #[trigger] bdd_sat(b).contains(v))
    &&& (exists|v: Seq<bool>|
        v.len() == graph_bdd_var_count(g) && !(#[trigger] bdd_sat(b).contains(v)))
}

/// Health of a cached support list: it covers the diagram's support and lists
/// valid, distinct diagram variables that avoid everything restricted so far.
spec fn sups_ok_at(g: SymbolicAsyncGraph, w: Seq<usize>, b: Bdd, rm: Map<int, bool>) -> bool {
    &&& (forall|x: int|
        #[trigger] bdd_support_of(b).contains(x) ==> exists|k: int|
            0 <= k < w.len() && #[trigger] w[k] as int == x)
    &&& (forall|k: int| 0 <= k < w.len() ==> (#[trigger] w[k] as int) < graph_bdd_var_count(g))
    &&& (forall|k: int, l: int| 0 <= k < l < w.len() ==> w[k] != w[l])
    &&& (forall|k: int| 0 <= k < w.len() ==> !rm.dom().contains(#[trigger] w[k] as int))
}

/// After a pass that changed nothing, every unfixed variable has a cached
/// diagram none of whose support variables is currently fixed.
spec fn pass_checked(
    g: SymbolicAsyncGraph,
    fixed: Seq<Option<bool>>,
    fns: Seq<Option<Bdd>>,
    i: int,
) -> bool {
    fixed[i] is None ==> {
        &&& fns[i] is Some
        &&& forall|x: int|
            #[trigger] bdd_support_of(fns[i].unwrap()).contains(x) ==> !bdd_fix(
                fixed_map(fixed),
                graph_state_vars(g),
            ).dom().contains(x)
    }
}

/// Extending the restriction pairs by one pair inserts it into the assignment
/// they describe.
pub proof fn lemma_pairs_to_map_push(ps: Seq<(usize, bool)>, p: (usize, bool))
    ensures
        pairs_to_map(ps.push(p)) == pairs_to_map(ps).insert(p.0 as int, p.1),
{
    assert(ps.push(p).drop_last() =~= ps);
    assert(ps.push(p).last() == p);
}

/// Collects the restriction pairs for the support entries whose network
/// variable is currently fixed: each pair fixes a diagram variable to the
/// value the diagram-level assignment gives it, and every support entry that
/// the pairs leave out is not currently fixed.
#[verifier::loop_isolation(false)]
fn collect_restriction(
    w: &Vec<usize>,
    inv: &Vec<Option<usize>>,
    sv: &Vec<usize>,
    fixed: &Vec<Option<bool>>,
    Ghost(g): Ghost<SymbolicAsyncGraph>,
    Ghost(rm): Ghost<Map<int, bool>>,
) -> (pairs: Vec<(usize, bool)>)
    requires
        fixed@.len() == graph_var_count(g),
        sv@.len() == graph_var_count(g),
        graph_state_vars(g).len() == graph_var_count(g),
        forall|j1: int|
            0 <= j1 < sv@.len() ==> graph_state_vars(g)[j1] == #[trigger] sv@[j1] as int,
        sv_inj(graph_state_vars(g)),
        inv@.len() == graph_bdd_var_count(g),
        forall|x: int|
            0 <= x < inv@.len() && (#[trigger] inv@[x]) is Some ==> inv@[x].unwrap()
                < graph_var_count(g) && sv@[inv@[x].unwrap() as int] as int == x,
        forall|jj: int|
            0 <= jj < graph_var_count(g) ==> (#[trigger] inv@[sv@[jj] as int]) is Some
                && inv@[sv@[jj] as int].unwrap() == jj,
        forall|k: int| 0 <= k < w@.len() ==> (#[trigger] w@[k] as int) < graph_bdd_var_count(g),
        forall|k: int, l: int| 0 <= k < l < w@.len() ==> w@[k] != w@[l],
        forall|k: int| 0 <= k < w@.len() ==> !rm.dom().contains(#[trigger] w@[k] as int),
    ensures
        forall|l1: int, l2: int|
            0 <= l1 < l2 < pairs@.len() ==> (#[trigger] pairs@[l1]).0 != (#[trigger] pairs@[l2]).0,
        forall|l: int|
            0 <= l < pairs@.len() ==> bdd_fix(fixed_map(fixed@), graph_state_vars(g)).dom().contains(
                (#[trigger] pairs@[l]).0 as int,
            ) && bdd_fix(fixed_map(fixed@), graph_state_vars(g))[pairs@[l].0 as int]
                == pairs@[l].1,
        forall|l: int|
            0 <= l < pairs@.len() ==> ((#[trigger] pairs@[l]).0 as int) < graph_bdd_var_count(g),
        forall|l: int|
            0 <= l < pairs@.len() ==> !rm.dom().contains((#[trigger] pairs@[l]).0 as int),
        forall|kk: int|
            0 <= kk < w@.len() && !pairs_to_map(pairs@).dom().contains(#[trigger] w@[kk] as int)
                ==> !bdd_fix(fixed_map(fixed@), graph_state_vars(g)).dom().contains(
                w@[kk] as int,
            ),
{
    let ghost fm = fixed_map(fixed@);
    let ghost bm = bdd_fix(fm, graph_state_vars(g));
    let mut pairs: Vec<(usize, bool)> = Vec::new();
    let mut k2: usize = 0;
    while k2 < w.len()
        invariant
            k2 <= w@.len(),
            forall|l1: int, l2: int|
                0 <= l1 < l2 < pairs@.len() ==> (#[trigger] pairs@[l1]).0 != (
                #[trigger] pairs@[l2]).0,
            forall|l: int|
                0 <= l < pairs@.len() ==> bm.dom().contains((#[trigger] pairs@[l]).0 as int)
                    && bm[pairs@[l].0 as int] == pairs@[l].1,
            forall|l: int|
                0 <= l < pairs@.len() ==> ((#[trigger] pairs@[l]).0 as int)
                    < graph_bdd_var_count(g),
            forall|l: int|
                0 <= l < pairs@.len() ==> !rm.dom().contains((#[trigger] pairs@[l]).0 as int),
            forall|kk: int|
                0 <= kk < k2 && !pairs_to_map(pairs@).dom().contains(#[trigger] w@[kk] as int)
                    ==> !bm.dom().contains(w@[kk] as int),
            forall|kk: int|
                k2 <= kk < w@.len() ==> !pairs_to_map(pairs@).dom().contains(
                    #[trigger] w@[kk] as int,
                ),
        decreases w@.len() - k2,
    {
        let x = w[k2];
        let ghost pairs0 = pairs@;
        let mut fixed_value: Option<bool> = None;
        match inv[x] {
            Some(jj) => {
                match fixed[jj] {
                    Some(val) => {
                        proof {
                            lemma_bdd_fix_at(fm, graph_state_vars(g), jj as int);
                        }
                        fixed_value = Some(val);
                    },
                    None => {
                        proof {
                            assert(!bm.dom().contains(x as int)) by {
                                if bm.dom().contains(x as int) {
                                    let j3 = choose|j3: int|
                                        0 <= j3 < graph_state_vars(g).len()
                                            && #[trigger] graph_state_vars(g)[j3] == x as int
                                            && fm.dom().contains(j3);
                                    assert(sv@[j3] as int == x as int);
                                    assert(inv@[sv@[j3] as int] is Some && inv@[sv@[j3]
                                        as int].unwrap() == j3);
                                    assert(fixed@[jj as int] is Some);
                                }
                            }
                        }
                    },
                }
            },
            None => {
                proof {
                    assert(!bm.dom().contains(x as int)) by {
                        if bm.dom().contains(x as int) {
                            let j3 = choose|j3: int|
                                0 <= j3 < graph_state_vars(g).len()
                                    && #[trigger] graph_state_vars(g)[j3] == x as int
                                    && fm.dom().contains(j3);
                            assert(sv@[j3] as int == x as int);
                            assert(inv@[sv@[j3] as int] is Some);
                        }
                    }
                }
            },
        }
        match fixed_value {
            Some(val) => {
                pairs.push((x, val));
                proof {
                    lemma_pairs_to_map_push(pairs0, (x, val));
                    assert(pairs@ == pairs0.push((x, val)));
                    assert(pairs@[pairs@.len() - 1] == (x, val));
                    assert forall|l: int|
                        0 <= l < pairs0.len() implies pairs@[l] == pairs0[l] by {}
                    assert forall|l1: int, l2: int|
                        0 <= l1 < l2 < pairs@.len() implies (#[trigger] pairs@[l1]).0 != (
                    #[trigger] pairs@[l2]).0 by {
                        if l2 == pairs@.len() - 1 {
                            lemma_pairs_to_map_at(pairs0, l1);
                            assert(pairs_to_map(pairs0).dom().contains(pairs0[l1].0 as int));
                            assert(!pairs_to_map(pairs0).dom().contains(w@[k2 as int] as int));
                        }
                    }
                    assert forall|kk: int|
                        k2 + 1 <= kk < w@.len() implies !pairs_to_map(pairs@).dom().contains(
                        #[trigger] w@[kk] as int,
                    ) by {
                        assert(w@[kk] != w@[k2 as int]);
                    }
                }
            },
            None => {
                proof {
                    assert(!bm.dom().contains(w@[k2 as int] as int));
                }
            },
        }
        k2 = k2 + 1;
    }
    pairs
}

/// Replaces the cached diagram of variable `i` by its restriction under the
/// given pairs, recomputes its support list, and reports whether the
/// restricted diagram became the constant true or false.
#[verifier::loop_isolation(false)]
#[verifier::rlimit(100)]
fn apply_restriction(
    i: usize,
    n: usize,
    nv: usize,
    fns: &mut Vec<Option<Bdd>>,
    sups: &mut Vec<Option<Vec<usize>>>,
    pairs: &Vec<(usize, bool)>,
    Ghost(g): Ghost<SymbolicAsyncGraph>,
    Ghost(rms0): Ghost<Seq<Map<int, bool>>>,
    Ghost(fixedv): Ghost<Seq<Option<bool>>>,
) -> (r: (Option<bool>, Ghost<Seq<Map<int, bool>>>))
    requires
        i < n,
        n == graph_var_count(g),
        nv == graph_bdd_var_count(g),
        old(fns)@.len() == n,
        old(sups)@.len() == n,
        rms0.len() == n,
        old(fns)@[i as int] is Some,
        old(sups)@[i as int] is Some,
        fns_ok_at(g, old(fns)@[i as int].unwrap(), rms0[i as int], i as int, fixedv),
        sups_ok_at(
            g,
            old(sups)@[i as int].unwrap()@,
            old(fns)@[i as int].unwrap(),
            rms0[i as int],
        ),
        forall|l1: int, l2: int|
            0 <= l1 < l2 < pairs@.len() ==> (#[trigger] pairs@[l1]).0 != (#[trigger] pairs@[l2]).0,
        forall|l: int|
            0 <= l < pairs@.len() ==> bdd_fix(fixed_map(fixedv), graph_state_vars(g)).dom().contains(
                (#[trigger] pairs@[l]).0 as int,
            ) && bdd_fix(fixed_map(fixedv), graph_state_vars(g))[pairs@[l].0 as int]
                == pairs@[l].1,
        forall|l: int|
            0 <= l < pairs@.len() ==> ((#[trigger] pairs@[l]).0 as int) < graph_bdd_var_count(g),
        forall|l: int|
            0 <= l < pairs@.len() ==> !rms0[i as int].dom().contains(
                (#[trigger] pairs@[l]).0 as int,
            ),
        forall|kk: int|
            0 <= kk < old(sups)@[i as int].unwrap()@.len() && !pairs_to_map(pairs@).dom().contains(
                #[trigger] old(sups)@[i as int].unwrap()@[kk] as int,
            ) ==> !bdd_fix(fixed_map(fixedv), graph_state_vars(g)).dom().contains(
                old(sups)@[i as int].unwrap()@[kk] as int,
            ),
    ensures
        final(fns)@.len() == n,
        final(sups)@.len() == n,
        r.1@.len() == n,
        forall|i2: int| 0 <= i2 < n && i2 != i ==> (#[trigger] final(fns)@[i2]) == old(fns)@[i2],
        forall|i2: int| 0 <= i2 < n && i2 != i ==> (#[trigger] final(sups)@[i2]) == old(sups)@[i2],
        forall|i2: int| 0 <= i2 < n && i2 != i ==> (#[trigger] r.1@[i2]) == rms0[i2],
        final(fns)@[i as int] is Some,
        final(sups)@[i as int] is Some,
        fns_ok_at(g, final(fns)@[i as int].unwrap(), r.1@[i as int], i as int, fixedv),
        sups_ok_at(
            g,
            final(sups)@[i as int].unwrap()@,
            final(fns)@[i as int].unwrap(),
            r.1@[i as int],
        ),
        forall|x: int|
            #[trigger] bdd_support_of(final(fns)@[i as int].unwrap()).contains(x) ==> !bdd_fix(
                fixed_map(fixedv),
                graph_state_vars(g),
            ).dom().contains(x),
        r.0 matches Some(c) ==> forced_to(
            update_sat(g, i as int),
            r.1@[i as int],
            graph_bdd_var_count(g),
            c,
        ),
        r.0 is None ==> bdd_nonconstant(g, final(fns)@[i as int].unwrap()),
{
    let ghost w_seq = sups@[i as int].unwrap()@;
    let ghost fm = fixed_map(fixedv);
    let ghost bm = bdd_fix(fm, graph_state_vars(g));
    let ghost b_old = fns@[i as int].unwrap();
    let ghost rm_old = rms0[i as int];
    let ghost pm = pairs_to_map(pairs@);
    let ghost rm_new = rm_old.union_prefer_right(pm);
    let ghost rms1 = rms0.update(i as int, rm_new);
    let b_new = bdd_restrict(fns[i].as_ref().unwrap(), pairs);
    let t1 = bdd_is_true(&b_new);
    let f1 = bdd_is_false(&b_new);
    proof {
        lemma_pairs_to_map_dom(pairs@);
        assert forall|x: int|
            #[trigger] pm.dom().contains(x) implies bm.dom().contains(x) && pm[x] == bm[x]
            && !rm_old.dom().contains(x) by {
            let l = choose|l: int| 0 <= l < pairs@.len() && (#[trigger] pairs@[l]).0 as int == x;
            lemma_pairs_to_map_at(pairs@, l);
        }
        assert(rm_new.submap_of(bm));
        assert(map_wf(rm_new, graph_bdd_var_count(g) as int));
        assert forall|v: Seq<bool>|
            v.len() == graph_bdd_var_count(g) implies (#[trigger] bdd_sat(b_new).contains(v)
            <==> update_sat(g, i as int).contains(override_map(v, rm_new))) by {
            lemma_override_pairs_to_map(v, pairs@);
            let ov = override_map(v, pm);
            assert(bdd_sat(b_new).contains(v) <==> bdd_sat(b_old).contains(ov));
            assert(ov.len() == graph_bdd_var_count(g));
            assert(bdd_sat(b_old).contains(ov) <==> update_sat(g, i as int).contains(
                override_map(ov, rm_old),
            ));
            lemma_override_compose(v, rm_old, pm);
        }
        assert forall|x: int|
            #[trigger] bdd_support_of(b_new).contains(x) implies 0 <= x < graph_bdd_var_count(g)
            && !rm_new.dom().contains(x) && !bm.dom().contains(x) by {
            assert(bdd_support_of(b_old).contains(x));
            assert(!pm.dom().contains(x)) by {
                if pm.dom().contains(x) {
                    let l = choose|l: int|
                        0 <= l < pairs@.len() && (#[trigger] pairs@[l]).0 as int == x;
                    assert(!bdd_support_of(b_new).contains(pairs@[l].0 as int));
                }
            }
            let kk = choose|kk: int| 0 <= kk < w_seq.len() && #[trigger] w_seq[kk] as int == x;
            assert(!pairs_to_map(pairs@).dom().contains(w_seq[kk] as int));
            assert(!bm.dom().contains(w_seq[kk] as int));
        }
        assert(fns_ok_at(g, b_new, rm_new, i as int, fixedv));
    }
    let w_new = bdd_support(&b_new);
    proof {
        assert(sups_ok_at(g, w_new@, b_new, rm_new)) by {
            assert forall|k: int| 0 <= k < w_new@.len() implies !rm_new.dom().contains(
                #[trigger] w_new@[k] as int,
            ) by {
                assert(bdd_support_of(b_new).contains(w_new@[k] as int));
            }
        }
    }
    fns[i] = Some(b_new);
    sups[i] = Some(w_new);
    if t1 || f1 {
        proof {
            let us = update_sat(g, i as int);
            assert forall|v: Seq<bool>|
                v.len() == graph_bdd_var_count(g) implies us.contains(
                #[trigger] override_map(v, rm_new),
            ) == t1 by {
                assert(bdd_sat(b_new).contains(v) == t1);
                assert(override_map(v, rm_new).len() == graph_bdd_var_count(g));
            }
            lemma_constant_forced(us, rm_new, graph_bdd_var_count(g), t1);
        }
        (Some(t1), Ghost(rms1))
    } else {
        proof {
            assert(bdd_nonconstant(g, b_new)) by {
                let vt = choose|v: Seq<bool>|
                    v.len() == bdd_nvars_of(b_new) && !(#[trigger] bdd_sat(b_new).contains(v));
                let vf = choose|v: Seq<bool>|
                    v.len() == bdd_nvars_of(b_new) && #[trigger] bdd_sat(b_new).contains(v);
                assert(vt.len() == graph_bdd_var_count(g));
                assert(vf.len() == graph_bdd_var_count(g));
            }
        }
        (None, Ghost(rms1))
    }
}

/// Writes a newly derived constant into the fixed-value array and extends the
/// derivation record by the corresponding step.
#[verifier::loop_isolation(false)]
#[verifier::rlimit(100)]
fn commit_fix(
    i: usize,
    n: usize,
    fixed: &mut Vec<Option<bool>>,
    value: bool,
    Ghost(g): Ghost<SymbolicAsyncGraph>,
    Ghost(input_m): Ghost<Map<int, bool>>,
    Ghost(rms): Ghost<Seq<Map<int, bool>>>,
    Ghost(os0): Ghost<Seq<(int, bool)>>,
    Ghost(fnsv): Ghost<Seq<Option<Bdd>>>,
) -> (r: Ghost<Seq<(int, bool)>>)
    requires
        i < n,
        n == graph_var_count(g),
        old(fixed)@.len() == n,
        fnsv.len() == n,
        rms.len() == n,
        old(fixed)@[i as int] is None,
        fixed_map(old(fixed)@) == map_with(input_m, os0),
        derivation_ok(g, input_m, os0),
        sv_inj(graph_state_vars(g)),
        forced_to(update_sat(g, i as int), rms[i as int], graph_bdd_var_count(g), value),
        rms[i as int].submap_of(bdd_fix(fixed_map(old(fixed)@), graph_state_vars(g))),
        forall|i2: int|
            0 <= i2 < n && (#[trigger] fnsv[i2]) is Some ==> fns_ok_at(
                g,
                fnsv[i2].unwrap(),
                rms[i2],
                i2,
                old(fixed)@,
            ),
    ensures
        final(fixed)@.len() == n,
        final(fixed)@ == old(fixed)@.update(i as int, Some(value)),
        fixed_map(final(fixed)@) == map_with(input_m, r@),
        derivation_ok(g, input_m, r@),
        count_somes(final(fixed)@) == count_somes(old(fixed)@) + 1,
        forall|i2: int|
            0 <= i2 < n && (#[trigger] fnsv[i2]) is Some ==> fns_ok_at(
                g,
                fnsv[i2].unwrap(),
                rms[i2],
                i2,
                final(fixed)@,
            ),
{
    let ghost fixed0 = fixed@;
    let ghost fm0 = fixed_map(fixed0);
    let ghost bm0 = bdd_fix(fm0, graph_state_vars(g));
    let ghost os1 = os0.push((i as int, value));
    proof {
        let us = update_sat(g, i as int);
        lemma_forced_monotone(
            us,
            rms[i as int],
            bm0,
            graph_bdd_var_count(g),
            value,
        );
        lemma_derivation_push(g, input_m, os0, (i as int, value));
        lemma_map_with_push(input_m, os0, (i as int, value));
        lemma_fixed_map_update(fixed@, i as int, value);
        lemma_count_somes_update(fixed@, i as int, value);
    }
    fixed[i] = Some(value);
    proof {
        assert(fm0.submap_of(fixed_map(fixed@)));
        lemma_bdd_fix_submap(fm0, fixed_map(fixed@), graph_state_vars(g));
        assert forall|i2: int|
            0 <= i2 < n && (#[trigger] fnsv[i2]) is Some implies fns_ok_at(
            g,
            fnsv[i2].unwrap(),
            rms[i2],
            i2,
            fixed@,
        ) by {
            assert(fns_ok_at(g, fnsv[i2].unwrap(), rms[i2], i2, fixed0));
            assert(rms[i2].submap_of(bdd_fix(fm0, graph_state_vars(g))));
            assert(rms[i2].submap_of(bdd_fix(fixed_map(fixed@), graph_state_vars(g)))) by {
                assert forall|x: int|
                    #[trigger] rms[i2].dom().contains(x) implies bdd_fix(
                    fixed_map(fixed@),
                    graph_state_vars(g),
                ).dom().contains(x) && rms[i2][x] == bdd_fix(
                    fixed_map(fixed@),
                    graph_state_vars(g),
                )[x] by {
                    assert(bdd_fix(fm0, graph_state_vars(g)).dom().contains(x));
                    assert(rms[i2][x] == bdd_fix(fm0, graph_state_vars(g))[x]);
                    assert(bdd_fix(fm0, graph_state_vars(g)).submap_of(
                        bdd_fix(fixed_map(fixed@), graph_state_vars(g)),
                    ));
                }
            }
        }
    }
    Ghost(os1)
}

/// Restores the per-variable health invariants after an update that touched
/// only variable `i`: every other variable's cached state is unchanged, and
/// the touched variable's new state is assumed healthy.
proof fn lemma_state_frame(
    g: SymbolicAsyncGraph,
    n: int,
    i: int,
    fixed: Seq<Option<bool>>,
    fns_old: Seq<Option<Bdd>>,
    fns_new: Seq<Option<Bdd>>,
    sups_old: Seq<Option<Vec<usize>>>,
    sups_new: Seq<Option<Vec<usize>>>,
    rms_old: Seq<Map<int, bool>>,
    rms_new: Seq<Map<int, bool>>,
)
    requires
        0 <= i < n,
        fns_old.len() == n,
        fns_new.len() == n,
        sups_old.len() == n,
        sups_new.len() == n,
        rms_old.len() == n,
        rms_new.len() == n,
        forall|i2: int| 0 <= i2 < n && i2 != i ==> (#[trigger] fns_new[i2]) == fns_old[i2],
        forall|i2: int| 0 <= i2 < n && i2 != i ==> (#[trigger] sups_new[i2]) == sups_old[i2],
        forall|i2: int| 0 <= i2 < n && i2 != i ==> (#[trigger] rms_new[i2]) == rms_old[i2],
        forall|i2: int|
            0 <= i2 < n && (#[trigger] fns_old[i2]) is Some ==> fns_ok_at(
                g,
                fns_old[i2].unwrap(),
                rms_old[i2],
                i2,
                fixed,
            ),
        forall|i2: int|
            0 <= i2 < n && (#[trigger] sups_old[i2]) is Some ==> fns_old[i2] is Some
                && sups_ok_at(
                g,
                sups_old[i2].unwrap()@,
                fns_old[i2].unwrap(),
                rms_old[i2],
            ),
        fns_new[i] is Some ==> fns_ok_at(g, fns_new[i].unwrap(), rms_new[i], i, fixed),
        sups_new[i] is Some ==> fns_new[i] is Some && sups_ok_at(
            g,
            sups_new[i].unwrap()@,
            fns_new[i].unwrap(),
            rms_new[i],
        ),
    ensures
        forall|i2: int|
            0 <= i2 < n && (#[trigger] fns_new[i2]) is Some ==> fns_ok_at(
                g,
                fns_new[i2].unwrap(),
                rms_new[i2],
                i2,
                fixed,
            ),
        forall|i2: int|
            0 <= i2 < n && (#[trigger] sups_new[i2]) is Some ==> fns_new[i2] is Some
                && sups_ok_at(
                g,
                sups_new[i2].unwrap()@,
                fns_new[i2].unwrap(),
                rms_new[i2],
            ),
{
    assert forall|i2: int|
        0 <= i2 < n && (#[trigger] fns_new[i2]) is Some implies fns_ok_at(
        g,
        fns_new[i2].unwrap(),
        rms_new[i2],
        i2,
        fixed,
    ) by {
        if i2 != i {
            assert(fns_new[i2] == fns_old[i2]);
            assert(rms_new[i2] == rms_old[i2]);
        }
    }
    assert forall|i2: int|
        0 <= i2 < n && (#[trigger] sups_new[i2]) is Some implies fns_new[i2] is Some
        && sups_ok_at(g, sups_new[i2].unwrap()@, fns_new[i2].unwrap(), rms_new[i2]) by {
        if i2 != i {
            assert(sups_new[i2] == sups_old[i2]);
            assert(fns_new[i2] == fns_old[i2]);
            assert(rms_new[i2] == rms_old[i2]);
        }
    }
}

/// Examines one unfixed variable of a percolation pass: caches its update
/// diagram and support list on first need, substitutes the currently fixed
/// variables into the diagram, and reports the constant the variable is now
/// forced to, if the diagram has become constant.  The fixed-value array is
/// only read; when no constant is reported, the variable counts as checked
/// for this pass.
#[verifier::loop_isolation(false)]
#[verifier::rlimit(100)]
fn examine_variable(
    graph: &SymbolicAsyncGraph,
    i: usize,
    n: usize,
    nv: usize,
    sv: &Vec<usize>,
    inv: &Vec<Option<usize>>,
    fixed: &Vec<Option<bool>>,
    fns: &mut Vec<Option<Bdd>>,
    sups: &mut Vec<Option<Vec<usize>>>,
    Ghost(rms0): Ghost<Seq<Map<int, bool>>>,
) -> (r: (Option<bool>, Ghost<Seq<Map<int, bool>>>))
    requires
        i < n,
        n == graph_var_count(*graph),
        nv == graph_bdd_var_count(*graph),
        sv@.len() == n,
        graph_state_vars(*graph).len() == n,
        forall|j1: int|
            0 <= j1 < sv@.len() ==> graph_state_vars(*graph)[j1] == #[trigger] sv@[j1] as int,
        forall|j1: int| 0 <= j1 < sv@.len() ==> #[trigger] sv@[j1] < nv,
        sv_inj(graph_state_vars(*graph)),
        inv@.len() == nv,
        forall|x: int|
            0 <= x < nv && (#[trigger] inv@[x]) is Some ==> inv@[x].unwrap() < n
                && sv@[inv@[x].unwrap() as int] as int == x,
        forall|jj: int|
            0 <= jj < n ==> (#[trigger] inv@[sv@[jj] as int]) is Some
                && inv@[sv@[jj] as int].unwrap() == jj,
        fixed@.len() == n,
        old(fns)@.len() == n,
        old(sups)@.len() == n,
        rms0.len() == n,
        fixed@[i as int] is None,
        forall|i2: int|
            0 <= i2 < n && (#[trigger] old(fns)@[i2]) is Some ==> fns_ok_at(
                *graph,
                old(fns)@[i2].unwrap(),
                rms0[i2],
                i2,
                fixed@,
            ),
        forall|i2: int|
            0 <= i2 < n && (#[trigger] old(fns)@[i2]) is Some && fixed@[i2] is None
                ==> bdd_nonconstant(*graph, old(fns)@[i2].unwrap()),
        forall|i2: int|
            0 <= i2 < n && (#[trigger] old(sups)@[i2]) is Some ==> old(fns)@[i2] is Some
                && sups_ok_at(
                *graph,
                old(sups)@[i2].unwrap()@,
                old(fns)@[i2].unwrap(),
                rms0[i2],
            ),
    ensures
        final(fns)@.len() == n,
        final(sups)@.len() == n,
        r.1@.len() == n,
        final(fns)@[i as int] is Some,
        forall|i2: int|
            0 <= i2 < n && (#[trigger] final(fns)@[i2]) is Some ==> fns_ok_at(
                *graph,
                final(fns)@[i2].unwrap(),
                r.1@[i2],
                i2,
                fixed@,
            ),
        forall|i2: int|
            0 <= i2 < n && (#[trigger] final(fns)@[i2]) is Some && fixed@[i2] is None && (r.0
                matches Some(_) ==> i2 != i) ==> bdd_nonconstant(*graph, final(fns)@[i2].unwrap()),
        forall|i2: int|
            0 <= i2 < n && (#[trigger] final(sups)@[i2]) is Some ==> final(fns)@[i2] is Some
                && sups_ok_at(
                *graph,
                final(sups)@[i2].unwrap()@,
                final(fns)@[i2].unwrap(),
                r.1@[i2],
            ),
        forall|i2: int| 0 <= i2 < n && i2 != i ==> (#[trigger] final(sups)@[i2]) == old(sups)@[i2],
        forall|i2: int| 0 <= i2 < n && i2 != i ==> (#[trigger] final(fns)@[i2]) == old(fns)@[i2],
        r.0 matches Some(c) ==> forced_to(
            update_sat(*graph, i as int),
            r.1@[i as int],
            graph_bdd_var_count(*graph),
            c,
        ),
        r.0 is None ==> pass_checked(*graph, fixed@, final(fns)@, i as int),
{
    let ghost g = *graph;
    let ghost mut rms = rms0;

    if fns[i].is_none() {
        let b = graph_fn_update(graph, i);
        proof {
            rms = rms.update(i as int, Map::<int, bool>::empty());
            assert forall|v: Seq<bool>|
                v.len() == graph_bdd_var_count(g) implies (#[trigger] bdd_sat(b).contains(v)
                <==> update_sat(g, i as int).contains(
                override_map(v, Map::<int, bool>::empty()),
            )) by {
                lemma_override_empty(v);
            }
            assert(fns_ok_at(g, b, rms[i as int], i as int, fixed@));
        }
        fns[i] = Some(b);
    }
    let t0 = bdd_is_true(fns[i].as_ref().unwrap());
    let f0 = bdd_is_false(fns[i].as_ref().unwrap());
    if t0 || f0 {
        proof {
            let b = fns@[i as int].unwrap();
            let rm = rms[i as int];
            let us = update_sat(g, i as int);
            assert forall|v: Seq<bool>|
                v.len() == graph_bdd_var_count(g) implies us.contains(
                #[trigger] override_map(v, rm),
            ) == t0 by {
                assert(bdd_sat(b).contains(v) == t0);
                assert(override_map(v, rm).len() == graph_bdd_var_count(g));
            }
            lemma_constant_forced(us, rm, graph_bdd_var_count(g), t0);
        }
        proof {
            lemma_state_frame(
                g,
                n as int,
                i as int,
                fixed@,
                old(fns)@,
                fns@,
                old(sups)@,
                sups@,
                rms0,
                rms,
            );
        }
        return (Some(t0), Ghost(rms));
    }
    proof {
        assert(bdd_nonconstant(g, fns@[i as int].unwrap()));
    }
    if sups[i].is_none() {
        let w = bdd_support(fns[i].as_ref().unwrap());
        proof {
            let b = fns@[i as int].unwrap();
            assert(sups_ok_at(g, w@, b, rms[i as int])) by {
                assert forall|k: int|
                    0 <= k < w@.len() implies ((#[trigger] w@[k] as int) < graph_bdd_var_count(g)
                    && !rms[i as int].dom().contains(w@[k] as int)) by {
                    assert(bdd_support_of(b).contains(w@[k] as int));
                }
            }
        }
        sups[i] = Some(w);
    }
    let ghost w_seq = sups@[i as int].unwrap()@;
    let ghost bm = bdd_fix(fixed_map(fixed@), graph_state_vars(g));
    let pairs = collect_restriction(
        sups[i].as_ref().unwrap(),
        inv,
        sv,
        fixed,
        Ghost(g),
        Ghost(rms[i as int]),
    );
    if pairs.len() > 0 {
        let outcome = apply_restriction(
            i,
            n,
            nv,
            fns,
            sups,
            &pairs,
            Ghost(g),
            Ghost(rms),
            Ghost(fixed@),
        );
        proof {
            rms = outcome.1@;
        }

        proof {
            lemma_state_frame(
                g,
                n as int,
                i as int,
                fixed@,
                old(fns)@,
                fns@,
                old(sups)@,
                sups@,
                rms0,
                rms,
            );
        }
        match outcome.0 {
            Some(c) => (Some(c), Ghost(rms)),
            None => {
                proof {
                    assert(pass_checked(g, fixed@, fns@, i as int));
                }
                (None, Ghost(rms))
            },
        }
    } else {
        proof {
            assert(pairs@.len() == 0);
            assert(pairs_to_map(pairs@) =~= Map::<int, bool>::empty());
            assert(pass_checked(g, fixed@, fns@, i as int)) by {
                let b = fns@[i as int].unwrap();
                assert forall|x: int|
                    #[trigger] bdd_support_of(b).contains(x) implies !bdd_fix(
                    fixed_map(fixed@),
                    graph_state_vars(g),
                ).dom().contains(x) by {
                    let kk = choose|kk: int|
                        0 <= kk < w_seq.len() && #[trigger] w_seq[kk] as int == x;
                    assert(!pairs_to_map(pairs@).dom().contains(w_seq[kk] as int));
                    assert(!bm.dom().contains(w_seq[kk] as int));
                }
            }
        }
        proof {
            lemma_state_frame(
                g,
                n as int,
                i as int,
                fixed@,
                old(fns)@,
                fns@,
                old(sups)@,
                sups@,
                rms0,
                rms,
            );
        }
        (None, Ghost(rms))
    }
}

/// The percolation algorithm over a configuration.
pub struct Percolation(pub PercolationConfig);

impl Percolation {
    /// The internal configuration of this instance.
    pub fn config(&self) -> (r: &PercolationConfig)
        ensures
            r == &self.0,
    {
        &self.0
    }

    /// An instance with a default configuration built from a Boolean network.
    /// Succeeds exactly when the symbolic graph of the network can be built.
    pub fn from_boolean_network(bn: &BooleanNetwork) -> (res: Result<
        Percolation,
        PercolationError,
    >)
        ensures
            (res matches Ok(_)) <==> graph_new_ok(*bn),
            res matches Ok(p) ==> p.0.graph == graph_new_of(*bn) && p.0.cancellation
                == CancelToken::Never,
            res matches Err(e) ==> e matches PercolationError::CreationFailed(_),
    {
        match PercolationConfig::from_boolean_network(bn) {
            Ok(config) => Ok(Percolation(config)),
            Err(e) => Err(e),
        }
    }

    /// An instance with a default configuration for the given graph.
    pub fn with_graph(graph: SymbolicAsyncGraph) -> (r: Percolation)
        ensures
            r.0.graph == graph,
            r.0.cancellation == CancelToken::Never,
    {
        Percolation(PercolationConfig::with_graph(graph))
    }

    /// Wraps a configuration into an algorithm instance.
    pub fn with_config(config: PercolationConfig) -> (r: Percolation)
        ensures
            r.0 == config,
    {
        Percolation(config)
    }

    /// Percolates a single subspace.
    ///
    /// Propagates the values of variables that are forced to a constant in
    /// the given subspace, until no further variable can be derived.  Values
    /// fixed in the input are never overwritten, even if propagation would
    /// derive a conflicting value, and the result contains them together with
    /// every newly derived assignment, sorted by variable index.
    ///
    /// On parametrized networks the constant test ranges over all parameter
    /// interpretations, so far fewer variables percolate; this is a
    /// documented precision limitation.
    #[verifier::loop_isolation(false)]
    #[verifier::rlimit(100)]
    pub fn percolate_subspace(&self, subspace: Vec<(VariableId, bool)>) -> (res: Result<
        Vec<(VariableId, bool)>,
        PercolationError,
    >)
        requires
            forall|k: int|
                0 <= k < subspace@.len() ==> 0 <= varid_index((#[trigger] subspace@[k]).0)
                    < graph_var_count(self.0.graph),
        ensures
            res matches Ok(out) ==> {
                &&& sorted_distinct(out@)
                &&& canonical_vars(out@)
                &&& percolation_sound(self.0.graph, subspace_map(subspace@), subspace_map(out@))
                &&& percolation_complete(self.0.graph, subspace_map(out@))
            },
            res matches Err(e) ==> {
                &&& e matches PercolationError::Cancelled(p)
                &&& sorted_distinct(p@)
                &&& canonical_vars(p@)
                &&& percolation_sound(self.0.graph, subspace_map(subspace@), subspace_map(p@))
            },
            self.0.cancellation.never_cancels() ==> res matches Ok(_),
            self.0.cancellation.sure_cancel() ==> res matches Err(_),
    {
        let graph = &self.0.graph;
        let ghost g = self.0.graph;
        let ghost input_m = subspace_map(subspace@);

        let n = graph_num_vars(graph);
        let nv = graph_bdd_num_vars(graph);
        let sv = graph_state_variables(graph);
        proof {
            lemma_subspace_map_wf(subspace@, n as int);
            assert forall|j1: int, l1: int|
                0 <= j1 < l1 < graph_state_vars(g).len() implies graph_state_vars(g)[j1]
                != graph_state_vars(g)[l1] by {
                assert(graph_state_vars(g)[j1] == sv@[j1] as int);
                assert(graph_state_vars(g)[l1] == sv@[l1] as int);
            }
            assert(sv_inj(graph_state_vars(g)));
        }

        let mut token = self.0.cancellation.duplicate();
        token = token.start_timer();
        proof {
            self.0.cancellation.lemma_arms_to_properties(token);
        }

        // The inverse of the state-variable mapping: for each diagram
        // variable, the network variable it encodes, where one exists.
        let mut inv: Vec<Option<usize>> = none_vec(nv);
        let mut j: usize = 0;
        while j < n
            invariant
                j <= n,
                inv@.len() == nv,
                forall|x: int|
                    0 <= x < nv && (#[trigger] inv@[x]) is Some ==> inv@[x].unwrap() < j
                        && sv@[inv@[x].unwrap() as int] as int == x,
                forall|jj: int|
                    0 <= jj < j ==> (#[trigger] inv@[sv@[jj] as int]) is Some
                        && inv@[sv@[jj] as int].unwrap() == jj,
            decreases n - j,
        {
            let x = sv[j];
            inv[x] = Some(j);
            j = j + 1;
        }

        // The input subspace becomes the initial fixed-value array; a later
        // pair for the same variable overwrites an earlier one.
        let mut fixed: Vec<Option<bool>> = none_vec(n);
        proof {
            assert(fixed_map(fixed@) =~= Map::<int, bool>::empty());
            assert(subspace@.take(0) =~= Seq::<(VariableId, bool)>::empty());
        }
        let mut k: usize = 0;
        while k < subspace.len()
            invariant
                k <= subspace@.len(),
                fixed@.len() == n,
                fixed_map(fixed@) == subspace_map(subspace@.take(k as int)),
            decreases subspace@.len() - k,
        {
            let (var, val) = subspace[k];
            let idx = var.to_index();
            proof {
                lemma_subspace_take_step(subspace@, k as int);
                lemma_fixed_map_update(fixed@, idx as int, val);
            }
            fixed[idx] = Some(val);
            k = k + 1;
        }
        proof {
            assert(subspace@.take(subspace@.len() as int) =~= subspace@);
        }

        let mut fns: Vec<Option<Bdd>> = none_vec(n);
        let mut sups: Vec<Option<Vec<usize>>> = none_vec(n);
        let ghost mut rms: Seq<Map<int, bool>> = Seq::new(n as nat, |i: int| Map::empty());
        let ghost mut os: Seq<(int, bool)> = Seq::empty();
        proof {
            assert(map_with(input_m, os) == input_m);
        }

        let mut fixed_count: usize = 0;
        let mut c: usize = 0;
        proof {
            assert(fixed@.take(0) =~= Seq::<Option<bool>>::empty());
        }
        while c < n
            invariant
                c <= n,
                fixed_count == count_somes(fixed@.take(c as int)),
                fixed_count <= c,
            decreases n - c,
        {
            proof {
                assert(fixed@.take(c + 1).drop_last() =~= fixed@.take(c as int));
                assert(fixed@.take(c + 1).last() == fixed@[c as int]);
            }
            if fixed[c].is_some() {
                fixed_count = fixed_count + 1;
            }
            c = c + 1;
        }
        proof {
            assert(fixed@.take(n as int) =~= fixed@);
        }

        let mut done = false;
        while !done
            invariant
                fixed@.len() == n,
                fns@.len() == n,
                sups@.len() == n,
                rms.len() == n,
                fixed_map(fixed@) == map_with(input_m, os),
                derivation_ok(g, input_m, os),
                forall|i2: int|
                    0 <= i2 < n && (#[trigger] fns@[i2]) is Some ==> fns_ok_at(
                        g,
                        fns@[i2].unwrap(),
                        rms[i2],
                        i2,
                        fixed@,
                    ),
                forall|i2: int|
                    0 <= i2 < n && (#[trigger] fns@[i2]) is Some && fixed@[i2] is None
                        ==> bdd_nonconstant(g, fns@[i2].unwrap()),
                forall|i2: int|
                    0 <= i2 < n && (#[trigger] sups@[i2]) is Some ==> fns@[i2] is Some
                        && sups_ok_at(g, sups@[i2].unwrap()@, fns@[i2].unwrap(), rms[i2]),
                fixed_count == count_somes(fixed@),
                fixed_count <= n,
                token.armed(),
                token.never_cancels() == self.0.cancellation.never_cancels(),
                self.0.cancellation.sure_cancel() ==> token.sure_cancel(),
                done ==> forall|i2: int| 0 <= i2 < n ==> pass_checked(g, fixed@, fns@, i2),
                done ==> !self.0.cancellation.sure_cancel(),
            decreases n - fixed_count + (if done {
                0int
            } else {
                1int
            }),
        {
            let checked = token.check_cancelled();
            token = checked.0;
            if checked.1 {
                proof {
                    token.lemma_never_not_latched();
                }
                let partial = collect_fixed(&fixed);
                proof {
                    lemma_map_with_base(input_m, os);
                    assert(subspace_map(partial@) == map_with(input_m, os));
                }
                return Err(PercolationError::Cancelled(partial));
            }
            proof {
                assert(!self.0.cancellation.sure_cancel());
            }
            done = true;
            let ghost count0 = fixed_count;
            let mut i: usize = 0;
            #[verifier::loop_isolation(true)]
            while i < n
                invariant
                    graph == &self.0.graph,
                    g == self.0.graph,
                    input_m == subspace_map(subspace@),
                    map_wf(input_m, n as int),
                    n == graph_var_count(g),
                    nv == graph_bdd_var_count(g),
                    sv@.len() == n,
                    graph_state_vars(g).len() == n,
                    forall|j1: int|
                        0 <= j1 < sv@.len() ==> graph_state_vars(g)[j1] == #[trigger] sv@[j1]
                            as int,
                    forall|j1: int| 0 <= j1 < sv@.len() ==> #[trigger] sv@[j1] < nv,
                    sv_inj(graph_state_vars(g)),
                    inv@.len() == nv,
                    forall|x: int|
                        0 <= x < nv && (#[trigger] inv@[x]) is Some ==> inv@[x].unwrap() < n
                            && sv@[inv@[x].unwrap() as int] as int == x,
                    forall|jj: int|
                        0 <= jj < n ==> (#[trigger] inv@[sv@[jj] as int]) is Some
                            && inv@[sv@[jj] as int].unwrap() == jj,
                    i <= n,
                    fixed@.len() == n,
                    fns@.len() == n,
                    sups@.len() == n,
                    rms.len() == n,
                    fixed_map(fixed@) == map_with(input_m, os),
                    derivation_ok(g, input_m, os),
                    forall|i2: int|
                        0 <= i2 < n && (#[trigger] fns@[i2]) is Some ==> fns_ok_at(
                            g,
                            fns@[i2].unwrap(),
                            rms[i2],
                            i2,
                            fixed@,
                        ),
                    forall|i2: int|
                        0 <= i2 < n && (#[trigger] fns@[i2]) is Some && fixed@[i2] is None
                            ==> bdd_nonconstant(g, fns@[i2].unwrap()),
                    forall|i2: int|
                        0 <= i2 < n && (#[trigger] sups@[i2]) is Some ==> fns@[i2] is Some
                            && sups_ok_at(g, sups@[i2].unwrap()@, fns@[i2].unwrap(), rms[i2]),
                    fixed_count == count_somes(fixed@),
                    fixed_count <= n,
                    count0 <= fixed_count,
                    done ==> fixed_count == count0,
                    !done ==> fixed_count > count0,
                    done ==> forall|i2: int| 0 <= i2 < i ==> pass_checked(g, fixed@, fns@, i2),
                decreases n - i,
            {
                if fixed[i].is_none() {
                    let ghost fixed_pre = fixed@;
                    let ghost fns_pre = fns@;
                    let outcome = examine_variable(
                        graph,
                        i,
                        n,
                        nv,
                        &sv,
                        &inv,
                        &fixed,
                        &mut fns,
                        &mut sups,
                        Ghost(rms),
                    );
                    proof {
                        rms = outcome.1@;
                    }
                    match outcome.0 {
                        Some(value) => {
                            let committed = commit_fix(
                                i,
                                n,
                                &mut fixed,
                                value,
                                Ghost(g),
                                Ghost(input_m),
                                Ghost(rms),
                                Ghost(os),
                                Ghost(fns@),
                            );
                            proof {
                                os = committed@;
                                lemma_count_somes_le_len(fixed@);
                                assert forall|i2: int|
                                    0 <= i2 < n && (#[trigger] fns@[i2]) is Some && fixed@[i2]
                                        is None implies bdd_nonconstant(
                                    g,
                                    fns@[i2].unwrap(),
                                ) by {
                                    assert(fixed@ == fixed_pre.update(i as int, Some(value)));
                                    assert(i2 != i);
                                    assert(fixed_pre[i2] is None);
                                }
                            }
                            fixed_count = fixed_count + 1;
                            done = false;
                        },
                        None => {
                            proof {
                                if done {
                                    assert forall|i2: int|
                                        0 <= i2 < i + 1 implies pass_checked(
                                        g,
                                        fixed@,
                                        fns@,
                                        i2,
                                    ) by {
                                        if i2 < i {
                                            assert(pass_checked(g, fixed_pre, fns_pre, i2));
                                            assert(fns@[i2] == fns_pre[i2]);
                                            assert(fixed@ == fixed_pre);
                                        } else {
                                            assert(pass_checked(g, fixed@, fns@, i as int));
                                        }
                                    }
                                }
                            }
                        },
                    }
                }
                i = i + 1;
            }
        }

        let out = collect_fixed(&fixed);
        proof {
            lemma_map_with_base(input_m, os);
            assert(subspace_map(out@) == map_with(input_m, os));
            let out_m = subspace_map(out@);
            let bm = bdd_fix(out_m, graph_state_vars(g));
            assert forall|j2: int, c2: bool|
                0 <= j2 < graph_var_count(g) && !out_m.dom().contains(j2)
                    implies !#[trigger] forced_to(
                update_sat(g, j2),
                bdd_fix(out_m, graph_state_vars(g)),
                graph_bdd_var_count(g),
                c2,
            ) by {
                assert(fixed@[j2] is None);
                assert(pass_checked(g, fixed@, fns@, j2));
                let b = fns@[j2].unwrap();
                assert forall|x: int|
                    #[trigger] bdd_support_of(b).contains(x) implies !bm.dom().contains(x) by {
                    assert(!bdd_fix(fixed_map(fixed@), graph_state_vars(g)).dom().contains(x));
                }
                assert forall|j1: int|
                    0 <= j1 < graph_state_vars(g).len() implies 0 <= #[trigger] graph_state_vars(
                    g,
                )[j1] < graph_bdd_var_count(g) by {
                    assert(graph_state_vars(g)[j1] == sv@[j1] as int);
                    assert(sv@[j1] < nv);
                }
                lemma_bdd_fix_wf(out_m, graph_state_vars(g), graph_bdd_var_count(g) as int);
                lemma_unforced(g, j2, b, rms[j2], bm);
            }
            assert(percolation_complete(g, out_m));
        }
        Ok(out)
    }
}

} // verus!
