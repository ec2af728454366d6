//! Trusted view of the symbolic transition-system collaborator.
//!
//! The decision-diagram engine and the symbolic graph live in the
//! `biodivine-lib-bdd` and `biodivine-lib-param-bn` crates.  This module
//! declares their types, gives their values mathematical views (an abstract
//! set of colored vertices, the set of satisfying valuations of a diagram,
//! a diagram's support variables), and wraps the operations the algorithms
//! need behind contracts stated over those views.  Everything else in the
//! crate is verified against these contracts.

use biodivine_lib_bdd::Bdd;
use biodivine_lib_bdd::BddVariable;
use biodivine_lib_param_bn::symbolic_async_graph::{GraphColoredVertices, SymbolicAsyncGraph};
use biodivine_lib_param_bn::BooleanNetwork;
use biodivine_lib_param_bn::VariableId;
use vstd::prelude::*;

verus! {

#[verifier::external_type_specification]
#[verifier::external_body]
pub struct ExSymbolicAsyncGraph(SymbolicAsyncGraph);

#[verifier::external_type_specification]
#[verifier::external_body]
pub struct ExGraphColoredVertices(GraphColoredVertices);

#[verifier::external_type_specification]
#[verifier::external_body]
pub struct ExBooleanNetwork(BooleanNetwork);

#[verifier::external_type_specification]
#[verifier::external_body]
pub struct ExBdd(Bdd);

#[verifier::external_type_specification]
#[verifier::external_body]
pub struct ExVariableId(VariableId);

/// The numeric index of a network variable; what `VariableId::to_index`
/// returns.
pub uninterp spec fn varid_index(v: VariableId) -> int;

/// Whether the symbolic graph of a Boolean network can be built; exactly when
/// `SymbolicAsyncGraph::new` returns `Ok`.  Construction is a deterministic
/// function of the network alone.
pub uninterp spec fn graph_new_ok(bn: BooleanNetwork) -> bool;

/// The symbolic graph that `SymbolicAsyncGraph::new` builds for a Boolean
/// network, where construction succeeds.
pub uninterp spec fn graph_new_of(bn: BooleanNetwork) -> SymbolicAsyncGraph;

/// The number of network variables of a graph; what
/// `SymbolicAsyncGraph::num_vars` returns.
pub uninterp spec fn graph_var_count(g: SymbolicAsyncGraph) -> nat;

/// The number of symbolic (diagram) variables of a graph's encoding; what
/// the graph's `BddVariableSet::num_vars` returns.
pub uninterp spec fn graph_bdd_var_count(g: SymbolicAsyncGraph) -> nat;

/// For each network variable, the index of the diagram variable that encodes
/// its state; what `SymbolicContext::state_variables` returns.
pub uninterp spec fn graph_state_vars(g: SymbolicAsyncGraph) -> Seq<int>;

/// The abstract contents of the universal colored-vertex set of a graph;
/// what `SymbolicAsyncGraph::unit_colored_vertices` holds.
pub uninterp spec fn unit_contents(g: SymbolicAsyncGraph) -> Set<int>;

/// The abstract set of colored vertices from which the given network variable
/// can change its value; `SymbolicAsyncGraph::var_can_post` returns the
/// intersection of its argument set with this set.
pub uninterp spec fn can_step_of(g: SymbolicAsyncGraph, var: int) -> Set<int>;

/// The satisfying valuations of the update function of the given network
/// variable; what `SymbolicAsyncGraph::get_symbolic_fn_update` holds.  A
/// valuation assigns one Boolean to each of the graph's diagram variables.
pub uninterp spec fn update_sat(g: SymbolicAsyncGraph, var: int) -> Set<Seq<bool>>;

/// The abstract contents of a colored-vertex set.
pub uninterp spec fn gcv_contents(s: GraphColoredVertices) -> Set<int>;

/// The number of diagram variables of the encoding a colored-vertex set was
/// built in; what `Bdd::num_vars` of the set's diagram returns.  Binary set
/// operations of the diagram engine abort on operands of different widths,
/// so the wrappers below demand equal widths.
pub uninterp spec fn gcv_width(s: GraphColoredVertices) -> nat;

/// The number of diagram nodes of a colored-vertex set; what
/// `GraphColoredVertices::symbolic_size` returns.
pub uninterp spec fn gcv_size(s: GraphColoredVertices) -> nat;

/// The satisfying valuations of a decision diagram, each of length
/// `bdd_nvars_of` of that diagram.
pub uninterp spec fn bdd_sat(b: Bdd) -> Set<Seq<bool>>;

/// The number of diagram variables of a decision diagram; what
/// `Bdd::num_vars` returns.
pub uninterp spec fn bdd_nvars_of(b: Bdd) -> nat;

/// The set of decision variables a diagram actually depends on; what
/// `Bdd::support_set` returns.
pub uninterp spec fn bdd_support_of(b: Bdd) -> Set<int>;

/// A diagram's value is independent of the variables outside its support:
/// flipping such a variable in a valuation does not change membership in the
/// diagram's satisfying valuations.
pub open spec fn support_flip(b: Bdd) -> bool {
    forall|v: Seq<bool>, x: int, c: bool|
        v.len() == bdd_nvars_of(b) && 0 <= x < v.len() && !bdd_support_of(b).contains(x)
            ==> bdd_sat(b).contains(v) == bdd_sat(b).contains(#[trigger] v.update(x, c))
}

/// The valuation `v` with the given diagram variables overwritten by the
/// given constants, later pairs last.
pub open spec fn override_pairs(v: Seq<bool>, ps: Seq<(usize, bool)>) -> Seq<bool>
    decreases ps.len(),
{
    if ps.len() == 0 {
        v
    } else {
        override_pairs(v, ps.drop_last()).update(ps.last().0 as int, ps.last().1)
    }
}

/// Relies on `VariableId::to_index`: the numeric index of the variable.
pub assume_specification[ VariableId::to_index ](v: VariableId) -> (r: usize)
    ensures
        r == varid_index(v),
;

/// Relies on `VariableId::from_index`: builds the variable of the given
/// numeric index.  A variable is a plain newtype over its index, so the
/// result is the unique variable with that index.
pub assume_specification[ VariableId::from_index ](value: usize) -> (r: VariableId)
    ensures
        varid_index(r) == value as int,
        forall|v: VariableId| varid_index(v) == value as int ==> v == r,
;

/// Relies on `SymbolicAsyncGraph::new`: builds the symbolic graph of a
/// Boolean network, or reports why it cannot be built.  Construction is a
/// deterministic function of the network alone; the engine checks its own
/// 16-bit symbolic-variable limit and reports oversized networks as an
/// error.
#[verifier::external_body]
pub(crate) fn graph_new(bn: &BooleanNetwork) -> (res: Result<SymbolicAsyncGraph, String>)
    ensures
        (res matches Ok(g)) <==> graph_new_ok(*bn),
        res matches Ok(g) ==> g == graph_new_of(*bn),
{
    SymbolicAsyncGraph::new(bn)
}

/// Relies on `SymbolicAsyncGraph::num_vars`: the number of network variables.
#[verifier::external_body]
pub(crate) fn graph_num_vars(g: &SymbolicAsyncGraph) -> (r: usize)
    ensures
        r == graph_var_count(*g),
{
    g.num_vars()
}

/// Relies on `BddVariableSet::num_vars` of the graph's symbolic context: the
/// number of diagram variables of the encoding.  The count is a `u16` in the
/// diagram engine, so it is at most `u16::MAX`.
#[verifier::external_body]
pub(crate) fn graph_bdd_num_vars(g: &SymbolicAsyncGraph) -> (r: usize)
    ensures
        r == graph_bdd_var_count(*g),
        r <= u16::MAX,
{
    g.symbolic_context().bdd_variable_set().num_vars() as usize
}

/// Relies on `SymbolicContext::state_variables`: one distinct diagram
/// variable per network variable, in network-variable order.
#[verifier::external_body]
pub(crate) fn graph_state_variables(g: &SymbolicAsyncGraph) -> (r: Vec<usize>)
    ensures
        r@.len() == graph_var_count(*g),
        r@.len() == graph_state_vars(*g).len(),
        forall|j: int| 0 <= j < r@.len() ==> graph_state_vars(*g)[j] == #[trigger] r@[j] as int,
        forall|j: int| 0 <= j < r@.len() ==> #[trigger] r@[j] < graph_bdd_var_count(*g),
        forall|j: int, l: int| 0 <= j < l < r@.len() ==> r@[j] != r@[l],
{
    g.symbolic_context().state_variables().iter().map(|x| x.to_index()).collect()
}

/// Relies on `SymbolicAsyncGraph::get_symbolic_fn_update`: the update
/// function of the given network variable, as a diagram over the graph's
/// symbolic variables.
#[verifier::external_body]
pub(crate) fn graph_fn_update(g: &SymbolicAsyncGraph, var: usize) -> (r: Bdd)
    requires
        var < graph_var_count(*g),
    ensures
        bdd_sat(r) == update_sat(*g, var as int),
        bdd_nvars_of(r) == graph_bdd_var_count(*g),
        forall|x: int| bdd_support_of(r).contains(x) ==> 0 <= x < graph_bdd_var_count(*g),
        support_flip(r),
{
    g.get_symbolic_fn_update(VariableId::from_index(var)).clone()
}

/// Relies on `SymbolicAsyncGraph::unit_colored_vertices`: the universal
/// colored-vertex set of the graph, built in the graph's own encoding.
#[verifier::external_body]
pub(crate) fn graph_unit(g: &SymbolicAsyncGraph) -> (r: GraphColoredVertices)
    ensures
        gcv_contents(r) == unit_contents(*g),
        gcv_width(r) == graph_bdd_var_count(*g),
{
    g.unit_colored_vertices().clone()
}

/// Relies on `SymbolicAsyncGraph::var_can_post`: the subset of `set` from
/// which the given network variable can change its value.  The argument set
/// must come from the graph's own encoding, since the underlying diagram
/// conjunction aborts on operands of different widths.
#[verifier::external_body]
pub(crate) fn graph_var_can_post(
    g: &SymbolicAsyncGraph,
    var: usize,
    set: &GraphColoredVertices,
) -> (r: GraphColoredVertices)
    requires
        var < graph_var_count(*g),
        gcv_width(*set) == graph_bdd_var_count(*g),
    ensures
        gcv_contents(r) == gcv_contents(*set).intersect(can_step_of(*g, var as int)),
        gcv_width(r) == graph_bdd_var_count(*g),
{
    g.var_can_post(VariableId::from_index(var), set)
}

/// Relies on the `Clone` implementation of `SymbolicAsyncGraph`: a clone is
/// the same graph.
#[verifier::external_body]
pub(crate) fn graph_clone(g: &SymbolicAsyncGraph) -> (r: SymbolicAsyncGraph)
    ensures
        r == *g,
{
    g.clone()
}

/// Relies on the `Clone` implementation of `GraphColoredVertices`: a clone is
/// the same set.
#[verifier::external_body]
pub(crate) fn gcv_clone(s: &GraphColoredVertices) -> (r: GraphColoredVertices)
    ensures
        r == *s,
{
    s.clone()
}

/// Relies on `Set::intersect` for `GraphColoredVertices` (conjunction of the
/// underlying diagrams); the diagram engine aborts on operands of different
/// widths, so equal widths are demanded.
#[verifier::external_body]
pub(crate) fn gcv_intersect(
    a: &GraphColoredVertices,
    b: &GraphColoredVertices,
) -> (r: GraphColoredVertices)
    requires
        gcv_width(*a) == gcv_width(*b),
    ensures
        gcv_contents(r) == gcv_contents(*a).intersect(gcv_contents(*b)),
        gcv_width(r) == gcv_width(*a),
{
    biodivine_lib_param_bn::biodivine_std::traits::Set::intersect(a, b)
}

/// Relies on `Set::minus` for `GraphColoredVertices` (difference of the
/// underlying diagrams); the diagram engine aborts on operands of different
/// widths, so equal widths are demanded.
#[verifier::external_body]
pub(crate) fn gcv_minus(
    a: &GraphColoredVertices,
    b: &GraphColoredVertices,
) -> (r: GraphColoredVertices)
    requires
        gcv_width(*a) == gcv_width(*b),
    ensures
        gcv_contents(r) == gcv_contents(*a).difference(gcv_contents(*b)),
        gcv_width(r) == gcv_width(*a),
{
    biodivine_lib_param_bn::biodivine_std::traits::Set::minus(a, b)
}

/// Relies on `Bdd::num_vars` of a set's diagram: the width of the encoding
/// the set was built in.
#[verifier::external_body]
pub(crate) fn gcv_bdd_num_vars(s: &GraphColoredVertices) -> (r: usize)
    ensures
        r == gcv_width(*s),
{
    s.as_bdd().num_vars() as usize
}

/// Relies on `Set::is_subset` for `GraphColoredVertices` (a bounded diagram
/// conjunction with the complement); the diagram engine aborts on operands of
/// different widths, so equal widths are demanded.
#[verifier::external_body]
pub(crate) fn gcv_is_subset(a: &GraphColoredVertices, b: &GraphColoredVertices) -> (r: bool)
    requires
        gcv_width(*a) == gcv_width(*b),
    ensures
        r <==> gcv_contents(*a).subset_of(gcv_contents(*b)),
{
    biodivine_lib_param_bn::biodivine_std::traits::Set::is_subset(a, b)
}

/// Relies on `Set::is_empty` for `GraphColoredVertices` (the underlying
/// diagram is the false constant).
#[verifier::external_body]
pub(crate) fn gcv_is_empty(a: &GraphColoredVertices) -> (r: bool)
    ensures
        r <==> (forall|x: int| !gcv_contents(*a).contains(x)),
{
    biodivine_lib_param_bn::biodivine_std::traits::Set::is_empty(a)
}

/// Relies on `GraphColoredVertices::symbolic_size`: the node count of the
/// underlying diagram.
#[verifier::external_body]
pub(crate) fn gcv_symbolic_size(a: &GraphColoredVertices) -> (r: usize)
    ensures
        r == gcv_size(*a),
{
    a.symbolic_size()
}

/// Relies on `Bdd::is_true`: the diagram is the true constant, satisfied by
/// every valuation.
#[verifier::external_body]
pub(crate) fn bdd_is_true(b: &Bdd) -> (r: bool)
    ensures
        r <==> (forall|v: Seq<bool>|
            v.len() == bdd_nvars_of(*b) ==> bdd_sat(*b).contains(v)),
{
    b.is_true()
}

/// Relies on `Bdd::is_false`: the diagram is the false constant, satisfied by
/// no valuation.
#[verifier::external_body]
pub(crate) fn bdd_is_false(b: &Bdd) -> (r: bool)
    ensures
        r <==> (forall|v: Seq<bool>|
            v.len() == bdd_nvars_of(*b) ==> !bdd_sat(*b).contains(v)),
{
    b.is_false()
}

/// Relies on `Bdd::support_set`: the decision variables the diagram actually
/// depends on, handed out as their numeric indices in arbitrary order.
#[verifier::external_body]
pub(crate) fn bdd_support(b: &Bdd) -> (r: Vec<usize>)
    ensures
        forall|k: int| 0 <= k < r@.len() ==> bdd_support_of(*b).contains(#[trigger] r@[k] as int),
        forall|x: int| bdd_support_of(*b).contains(x)
            ==> exists|k: int| 0 <= k < r@.len() && #[trigger] r@[k] as int == x,
        forall|k: int, l: int| 0 <= k < l < r@.len() ==> r@[k] != r@[l],
        forall|k: int| 0 <= k < r@.len() ==> #[trigger] r@[k] < bdd_nvars_of(*b),
{
    b.support_set().into_iter().map(|x| x.to_index()).collect()
}

/// Relies on `Bdd::restrict`: fixes the given decision variables to the given
/// constants and eliminates them.  A valuation satisfies the result exactly
/// when the valuation with the given variables overwritten satisfies the
/// original diagram; the eliminated variables leave the support.
#[verifier::external_body]
pub(crate) fn bdd_restrict(b: &Bdd, pairs: &Vec<(usize, bool)>) -> (r: Bdd)
    requires
        forall|k: int| 0 <= k < pairs@.len() ==> (#[trigger] pairs@[k]).0 < bdd_nvars_of(*b),
        forall|k: int, l: int| 0 <= k < l < pairs@.len() ==> pairs@[k].0 != pairs@[l].0,
    ensures
        bdd_nvars_of(r) == bdd_nvars_of(*b),
        forall|v: Seq<bool>|
            v.len() == bdd_nvars_of(*b)
                ==> (bdd_sat(r).contains(v) <==> bdd_sat(*b).contains(
                    #[trigger] override_pairs(v, pairs@),
                )),
        forall|x: int| bdd_support_of(r).contains(x) ==> bdd_support_of(*b).contains(x),
        forall|k: int| 0 <= k < pairs@.len()
            ==> !bdd_support_of(r).contains((#[trigger] pairs@[k]).0 as int),
        support_flip(r),
{
    let converted: Vec<(BddVariable, bool)> =
        pairs.iter().map(|(x, c)| (BddVariable::from_index(*x), *c)).collect();
    b.restrict(&converted)
}

} // verus!
