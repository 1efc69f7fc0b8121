//! The order of body atoms carries no meaning for the structural families that
//! join a table with a union-find table under an inequality.

use vstd::prelude::*;

#[allow(unused_imports)]
use crate::authority::AuthorityRegistries;
#[allow(unused_imports)]
use crate::catalog::Catalog;
#[allow(unused_imports)]
use crate::ir::RuleSpec;
#[allow(unused_imports)]
use crate::marker_rekey::{
    marker_check, marker_head_shape, marker_plan, marker_rekey, marker_selection, marker_vars,
    MarkerRoles,
};
#[allow(unused_imports)]
use crate::rebuild::{
    rebuild_body_check, rebuild_check, rebuild_head_check, rebuild_outer, rebuild_plan,
    rebuild_selection, rebuild_tables_check, rebuild_unions_check, rebuild_vars, standard_rebuild,
    RebuildRoles,
};
#[allow(unused_imports)]
use crate::shape::{atom_table, body_split};

verus! {

/// The atoms of `right` are the three atoms of `left`, in the order that
/// `order` gives; the rules agree on everything else but their names.
pub open spec fn reordered(left: RuleSpec, right: RuleSpec, order: (int, int, int)) -> bool {
    &&& left.body@.len() == 3 && right.body@.len() == 3
    &&& 0 <= order.0 < 3 && 0 <= order.1 < 3 && 0 <= order.2 < 3
    &&& order.0 != order.1 && order.0 != order.2 && order.1 != order.2
    &&& right.body@[0] == left.body@[order.0]
    &&& right.body@[1] == left.body@[order.1]
    &&& right.body@[2] == left.body@[order.2]
    &&& right.head@ == left.head@
    &&& right.seminaive == left.seminaive
    &&& right.no_decomp == left.no_decomp
}

/// Two different tables of a body are both unknown. The refusal names the one
/// that comes first.
pub open spec fn both_unknown(catalog: Catalog, rule: RuleSpec) -> bool {
    match body_split(rule.body@) {
        Some((first, second, _)) => {
            &&& atom_table(rule.body@[first]).rep >= catalog.tables@.len()
            &&& atom_table(rule.body@[second]).rep >= catalog.tables@.len()
            &&& atom_table(rule.body@[first]) != atom_table(rule.body@[second])
        },
        None => false,
    }
}

proof fn lemma_marker_roles(
    catalog: Catalog,
    registries: AuthorityRegistries,
    left: RuleSpec,
    right: RuleSpec,
    at: MarkerRoles,
    to: MarkerRoles,
)
    requires
        right.head@ == left.head@,
        right.seminaive == left.seminaive,
        right.no_decomp == left.no_decomp,
        right.body@[to.marker] == left.body@[at.marker],
        right.body@[to.union_find] == left.body@[at.union_find],
        right.body@[to.guard] == left.body@[at.guard],
    ensures
        marker_check(catalog, registries, left, at) == marker_check(
            catalog,
            registries,
            right,
            to,
        ),
        marker_plan(catalog, left, at) == marker_plan(catalog, right, to),
{
    assert(marker_vars(catalog, left, at) == marker_vars(catalog, right, to));
}

/// The order of its atoms does not influence whether a rule is a marker rule,
/// nor its plan, nor the reason of a refusal.
pub proof fn law_body_order_carries_no_meaning_for_markers(
    catalog: Catalog,
    registries: AuthorityRegistries,
    left: RuleSpec,
    right: RuleSpec,
    order: (int, int, int),
)
    requires
        reordered(left, right, order),
        !(marker_head_shape(left.head@) && both_unknown(catalog, left)),
    ensures
        marker_rekey(catalog, registries, left) == marker_rekey(catalog, registries, right),
{
    reveal(marker_rekey);
    match (marker_selection(catalog, left), marker_selection(catalog, right)) {
        (Ok(Some(at)), Ok(Some(to))) => {
            lemma_marker_roles(catalog, registries, left, right, at, to);
        },
        _ => {},
    }
}

proof fn lemma_rebuild_roles(
    catalog: Catalog,
    left: RuleSpec,
    right: RuleSpec,
    at: RebuildRoles,
    to: RebuildRoles,
)
    requires
        right.head@ == left.head@,
        right.seminaive == left.seminaive,
        right.no_decomp == left.no_decomp,
        right.body@[to.view] == left.body@[at.view],
        right.body@[to.union_find] == left.body@[at.union_find],
        right.body@[to.guard] == left.body@[at.guard],
        to.shape == at.shape,
        to.displaced == at.displaced,
    ensures
        rebuild_check(catalog, left, at) == rebuild_check(catalog, right, to),
        rebuild_plan(catalog, left, at) == rebuild_plan(catalog, right, to),
{
    assert(rebuild_vars(catalog, left, at) == rebuild_vars(catalog, right, to));
    assert(rebuild_tables_check(catalog, left, at) == rebuild_tables_check(catalog, right, to));
    assert(rebuild_body_check(catalog, left, at) == rebuild_body_check(catalog, right, to));
    assert(rebuild_unions_check(catalog, left, at) == rebuild_unions_check(catalog, right, to));
    assert(rebuild_head_check(catalog, left, at) == rebuild_head_check(catalog, right, to));
}

/// The order of its atoms does not influence whether a rule is a standard
/// rebuild rule, nor its plan, nor the reason of a refusal.
pub proof fn law_body_order_carries_no_meaning_for_rebuilds(
    catalog: Catalog,
    left: RuleSpec,
    right: RuleSpec,
    order: (int, int, int),
)
    requires
        reordered(left, right, order),
        !(rebuild_outer(left) is Some && both_unknown(catalog, left)),
    ensures
        standard_rebuild(catalog, left) == standard_rebuild(catalog, right),
{
    reveal(standard_rebuild);
    match (rebuild_selection(catalog, left), rebuild_selection(catalog, right)) {
        (Ok(Some(at)), Ok(Some(to))) => {
            lemma_rebuild_roles(catalog, left, right, at, to);
        },
        _ => {},
    }
}

} // verus!
