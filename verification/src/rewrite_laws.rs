//! What the heads of admitted path and rebuild rules say: which rows they write and
//! delete, in the terms of the rule's body.

use vstd::prelude::*;

#[allow(unused_imports)]
use crate::authority::AuthorityRegistries;
#[allow(unused_imports)]
use crate::catalog::Catalog;
#[allow(unused_imports)]
use crate::ir::{
    AtomTerm, Change, CoreAction, FunctionId, RuleActionCall, RuleSpec, RuleValue, RuleVar,
};
#[allow(unused_imports)]
use crate::path_compress::{path_check, path_plan, path_roles};
#[allow(unused_imports)]
use crate::rebuild::{
    eq_key_check, rebuild_check, rebuild_plan, rebuild_selection, rebuild_vars, stale_column,
    stale_key, standard_rebuild, union_label, OuterShape, RebuildRoles, RebuildVars,
    StandardRebuildKindView, StandardRebuildView,
};
#[allow(unused_imports)]
use crate::rejection::{RejectionView, Scope};
#[allow(unused_imports)]
use crate::shape::{atom_table, bound_var, lemma_positions, set_table, table_of};
#[allow(unused_imports)]
use crate::staging_laws::{lemma_rebuild_redirects, lemma_same_vars};

verus! {

/// An action sets a row of a table.
pub open spec fn sets(action: CoreAction, table: FunctionId, row: Seq<AtomTerm>) -> bool {
    match action {
        CoreAction::SetRow(RuleActionCall::Table { id }, args, values) => id == table && args@
            + values@ == row,
        _ => false,
    }
}

/// An action sets a row of a proof table, whose last column is a constant.
pub open spec fn proves_by(
    action: CoreAction,
    table: FunctionId,
    keys: Seq<AtomTerm>,
) -> bool {
    match action {
        CoreAction::SetRow(RuleActionCall::Table { id }, args, values) => id == table && args@
            == keys && values@.len() == 1 && values@[0] is Literal,
        _ => false,
    }
}

/// An action deletes the row under some keys.
pub open spec fn deletes_under(
    action: CoreAction,
    table: FunctionId,
    keys: Seq<AtomTerm>,
) -> bool {
    match action {
        CoreAction::Change(Change::Delete, RuleActionCall::Table { id }, args) => id == table
            && args@ == keys,
        _ => false,
    }
}

/// Two actions allocate an id and rename it.
pub open spec fn allocates(allocation: CoreAction, alias: CoreAction, name: AtomTerm) -> bool {
    match (allocation, alias) {
        (
            CoreAction::Let(fresh, RuleActionCall::Primitive { .. }, args),
            CoreAction::LetAtomTerm(renamed, AtomTerm::Var(source)),
        ) => source == fresh && name == AtomTerm::Var(renamed) && args@.len() == 1 && args@[0]
            is Literal,
        _ => false,
    }
}

/// An admitted path rule replaces the end of its first edge by the end of the
/// second one: the new edge starts where the first one starts, ends where the second
/// one ends, and carries a fresh proof, which is recorded as the composition of the
/// proofs of the two edges, in this order. The rule applies where the two ends
/// differ.
pub proof fn law_paths_write_the_shortened_edge(
    catalog: Catalog,
    registries: AuthorityRegistries,
    rule: RuleSpec,
)
    requires
        rule.body@.len() == 3,
        rule.head@.len() == 4,
        path_check(catalog, registries, rule).fault is None,
    ensures
        ({
            let plan = path_plan(catalog, rule);
            let first = rule.body@[0].args@;
            let second = rule.body@[1].args@;
            let guard = rule.body@[2].args@;
            exists|composed: AtomTerm| #[trigger]
                allocates(rule.head@[0], rule.head@[1], composed) && {
                    &&& atom_table(rule.body@[0]) == plan.union_find
                    &&& atom_table(rule.body@[1]) == plan.union_find
                    &&& guard[0] == first[1] && guard[1] == second[1]
                    &&& proves_by(rule.head@[2], plan.trans, seq![first[2], second[2], composed])
                    &&& sets(rule.head@[3], plan.union_find, seq![first[0], second[1], composed])
                }
        }),
{
    reveal(path_check);
    let first = rule.body@[0].args@;
    let second = rule.body@[1].args@;
    let plan = path_plan(catalog, rule);
    let roles = path_roles(rule);
    let composed = AtomTerm::Var(roles[7]);
    assert(allocates(rule.head@[0], rule.head@[1], composed));
    match rule.head@[2] {
        CoreAction::SetRow(call, args, values) => {
            assert(args@ =~= seq![first[2], second[2], composed]);
        },
        _ => {},
    }
    match rule.head@[3] {
        CoreAction::SetRow(call, args, values) => {
            assert(args@ + values@ =~= seq![first[0], second[1], composed]);
        },
        _ => {},
    }
}

/// The View atom, the edge atom and the inequality of an admitted rebuild rule.
proof fn lemma_rebuild_roles(catalog: Catalog, rule: RuleSpec, plan: StandardRebuildView) -> (roles:
    RebuildRoles)
    requires
        standard_rebuild(catalog, rule) == Ok::<Option<StandardRebuildView>, RejectionView>(
            Some(plan),
        ),
    ensures
        rebuild_selection(catalog, rule) == Ok::<Option<RebuildRoles>, RejectionView>(Some(roles)),
        rebuild_check(catalog, rule, roles).fault is None,
        plan == rebuild_plan(catalog, rule, roles),
        plan.view.target != plan.union_find.target,
        plan.view.n_keys == table_of(catalog, atom_table(rule.body@[roles.view])).n_keys,
        plan.view.target == atom_table(rule.body@[roles.view]),
        plan.union_find.target == atom_table(rule.body@[roles.union_find]),
{
    reveal(standard_rebuild);
    match rebuild_selection(catalog, rule) {
        Ok(Some(roles)) => roles,
        _ => arbitrary(),
    }
}

/// The actions of an admitted key rebuild, by the roles of its atoms.
proof fn lemma_key_rebuild(catalog: Catalog, rule: RuleSpec, roles: RebuildRoles)
    requires
        rebuild_selection(catalog, rule) == Ok::<Option<RebuildRoles>, RejectionView>(Some(roles)),
        rebuild_check(catalog, rule, roles).fault is None,
        roles.shape == OuterShape::EqKey,
    ensures
        ({
            let view = rule.body@[roles.view].args@;
            let edge = rule.body@[roles.union_find].args@;
            let table = atom_table(rule.body@[roles.view]);
            let n_keys = table_of(catalog, table).n_keys as int;
            let plan = rebuild_plan(catalog, rule, roles);
            let stale = stale_column(plan) as int;
            let proof_term = AtomTerm::Var(bound_var(rule.head@[1]));
            &&& 0 <= stale < n_keys
            &&& allocates(rule.head@[0], rule.head@[1], proof_term)
            &&& sets(
                rule.head@[3],
                table,
                view.take(n_keys).update(stale, edge[1]) + seq![view[n_keys], proof_term],
            )
            &&& deletes_under(rule.head@[4], table, view.take(n_keys))
            &&& rule.head@[2] matches CoreAction::SetRow(RuleActionCall::Table { id }, args, values)
                && (plan.kind matches StandardRebuildKindView::EqKey { congr, .. } && id == congr)
                && args@.len() == 4 && args@[0] == view[n_keys + 1] && args@[1] is Literal
                && args@[2] == edge[2] && args@[3] == proof_term
        }),
{
    lemma_rebuild_redirects(catalog, rule, roles);
    let view = rule.body@[roles.view].args@;
    let edge = rule.body@[roles.union_find].args@;
    let vars = rebuild_vars(catalog, rule, roles);
    let bound = vars.bound();
    let table = atom_table(rule.body@[roles.view]);
    let n_keys = table_of(catalog, table).n_keys as int;
    let stale = stale_column(rebuild_plan(catalog, rule, roles)) as int;
    let alias = bound_var(rule.head@[1]);
    lemma_positions(vars.keys, vars.edge_key, vars.keys.len());
    assert(0 <= stale < n_keys);
    lemma_key_head(catalog, rule.head@, table, vars, union_label(table_of(catalog, table).merge));
    assert forall|i: int| 0 <= i < n_keys implies view[i] == AtomTerm::Var(vars.keys[i]) by {
        assert(bound[i] == vars.keys[i]);
    }
    assert(bound[n_keys] == vars.identity && bound[n_keys + 1] == vars.payload);
    assert(bound[n_keys + 2] == vars.canonical && bound[n_keys + 3] == vars.edge_payload);
    let keys = var_terms(vars.keys);
    assert(keys =~= view.take(n_keys));
    assert(var_terms(vars.keys.update(stale, vars.canonical)) =~= view.take(n_keys).update(
        stale,
        edge[1],
    ));
}

/// Variables as terms.
spec fn var_terms(vars: Seq<RuleVar>) -> Seq<AtomTerm> {
    vars.map_values(|v: RuleVar| AtomTerm::Var(v))
}

/// The actions of an admitted key rebuild, by the roles of its variables.
proof fn lemma_key_head(
    catalog: Catalog,
    head: Seq<CoreAction>,
    table: FunctionId,
    vars: RebuildVars,
    label: RuleValue,
)
    requires
        eq_key_check(catalog, head, table, vars, label).fault is None,
        head[0] is Let && head[1] is LetAtomTerm && head[2] is SetRow && head[3] is SetRow
            && head[4] is Change,
    ensures
        ({
            let stale = stale_key(vars) as int;
            let proof_term = AtomTerm::Var(bound_var(head[1]));
            &&& allocates(head[0], head[1], proof_term)
            &&& sets(
                head[3],
                table,
                var_terms(vars.keys.update(stale, vars.canonical)) + seq![
                    AtomTerm::Var(vars.identity),
                    proof_term,
                ],
            )
            &&& deletes_under(head[4], table, var_terms(vars.keys))
            &&& head[2] matches CoreAction::SetRow(RuleActionCall::Table { id }, args, values)
                && id == set_table(head[2]) && args@.len() == 4 && args@[0] == AtomTerm::Var(
                vars.payload,
            ) && args@[1] is Literal && args@[2] == AtomTerm::Var(vars.edge_payload) && args@[3]
                == proof_term
        }),
{
    let stale = stale_key(vars) as int;
    let alias = bound_var(head[1]);
    let rekeyed = vars.keys.update(stale, vars.canonical);
    match head[3] {
        CoreAction::SetRow(call, args, values) => {
            lemma_same_vars(
                Scope::StandardRebuild,
                rekeyed,
                args@,
                "canonical View key"@,
                rekeyed.len(),
            );
            assert(args@ =~= var_terms(rekeyed));
            assert(values@ =~= seq![AtomTerm::Var(vars.identity), AtomTerm::Var(alias)]);
        },
        _ => {},
    }
    match head[4] {
        CoreAction::Change(change, call, args) => {
            lemma_same_vars(
                Scope::StandardRebuild,
                vars.keys,
                args@,
                "stale View key"@,
                vars.keys.len(),
            );
            assert(args@ =~= var_terms(vars.keys));
        },
        _ => {},
    }
}

/// The actions of an admitted output rebuild, by the roles of its atoms.
proof fn lemma_output_rebuild(catalog: Catalog, rule: RuleSpec, roles: RebuildRoles)
    requires
        rebuild_selection(catalog, rule) == Ok::<Option<RebuildRoles>, RejectionView>(Some(roles)),
        rebuild_check(catalog, rule, roles).fault is None,
        roles.shape == OuterShape::EclassOutput,
    ensures
        ({
            let view = rule.body@[roles.view].args@;
            let edge = rule.body@[roles.union_find].args@;
            let table = atom_table(rule.body@[roles.view]);
            let n_keys = table_of(catalog, table).n_keys as int;
            let plan = rebuild_plan(catalog, rule, roles);
            let flipped = AtomTerm::Var(bound_var(rule.head@[1]));
            let chained = AtomTerm::Var(bound_var(rule.head@[4]));
            &&& plan.kind matches StandardRebuildKindView::EclassOutput { sym, trans } && {
                &&& proves_by(rule.head@[2], sym, seq![edge[2], flipped])
                &&& proves_by(rule.head@[5], trans, seq![flipped, view[n_keys + 1], chained])
            }
            &&& allocates(rule.head@[0], rule.head@[1], flipped)
            &&& allocates(rule.head@[3], rule.head@[4], chained)
            &&& sets(rule.head@[6], table, view.take(n_keys) + seq![edge[1], chained])
        }),
{
    lemma_rebuild_redirects(catalog, rule, roles);
    let view = rule.body@[roles.view].args@;
    let edge = rule.body@[roles.union_find].args@;
    let vars = rebuild_vars(catalog, rule, roles);
    let bound = vars.bound();
    let table = atom_table(rule.body@[roles.view]);
    let n_keys = table_of(catalog, table).n_keys as int;
    let sym_alias = bound_var(rule.head@[1]);
    let trans_alias = bound_var(rule.head@[4]);
    assert forall|i: int| 0 <= i < n_keys implies view[i] == AtomTerm::Var(vars.keys[i]) by {
        assert(bound[i] == vars.keys[i]);
    }
    assert(bound[n_keys] == vars.identity && bound[n_keys + 1] == vars.payload);
    assert(bound[n_keys + 2] == vars.canonical && bound[n_keys + 3] == vars.edge_payload);
    match rule.head@[2] {
        CoreAction::SetRow(call, args, values) => {
            let expected = seq![vars.edge_payload, sym_alias];
            lemma_same_vars(
                Scope::StandardRebuild,
                expected,
                args@,
                "proof Set argument"@,
                2,
            );
            assert(args@ =~= seq![edge[2], AtomTerm::Var(sym_alias)]);
        },
        _ => {},
    }
    match rule.head@[5] {
        CoreAction::SetRow(call, args, values) => {
            let expected = seq![sym_alias, vars.payload, trans_alias];
            lemma_same_vars(
                Scope::StandardRebuild,
                expected,
                args@,
                "proof Set argument"@,
                3,
            );
            assert(args@ =~= seq![
                AtomTerm::Var(sym_alias),
                view[n_keys + 1],
                AtomTerm::Var(trans_alias),
            ]);
        },
        _ => {},
    }
    match rule.head@[6] {
        CoreAction::SetRow(call, args, values) => {
            lemma_same_vars(
                Scope::StandardRebuild,
                vars.keys,
                args@,
                "canonical View key"@,
                vars.keys.len(),
            );
            assert(args@ + values@ =~= view.take(n_keys) + seq![
                edge[1],
                AtomTerm::Var(trans_alias),
            ]);
        },
        _ => {},
    }
}

/// An admitted rebuild rule writes the View's row with the end of the edge in place
/// of its start, and a fresh proof.
///
/// For a key, the identity stays, the row under the old keys is deleted, and the
/// proof is recorded as a congruence of the row's proof and the edge's. For the
/// output, the keys stay, and the proof is recorded as the edge's proof the other
/// way round, followed by the row's proof.
pub proof fn law_rebuilds_write_the_redirected_row(
    catalog: Catalog,
    rule: RuleSpec,
    plan: StandardRebuildView,
    view: int,
    edge: int,
)
    requires
        standard_rebuild(catalog, rule) == Ok::<Option<StandardRebuildView>, RejectionView>(
            Some(plan),
        ),
        0 <= view < rule.body@.len(),
        0 <= edge < rule.body@.len(),
        rule.body@[view].head is Table && atom_table(rule.body@[view]) == plan.view.target,
        rule.body@[edge].head is Table && atom_table(rule.body@[edge]) == plan.union_find.target,
    ensures
        ({
            let row = rule.body@[view].args@;
            let redirection = rule.body@[edge].args@;
            let n_keys = plan.view.n_keys as int;
            let head = rule.head@;
            let table = plan.view.target;
            match plan.kind {
                StandardRebuildKindView::EqKey { key_index, congr, .. } => exists|
                    congruent: AtomTerm,
                | #[trigger]
                    allocates(head[0], head[1], congruent) && {
                        &&& key_index < n_keys
                        &&& row[key_index as int] == redirection[0]
                        &&& sets(
                            head[3],
                            table,
                            row.take(n_keys).update(key_index as int, redirection[1]) + seq![
                                row[n_keys],
                                congruent,
                            ],
                        )
                        &&& deletes_under(head[4], table, row.take(n_keys))
                        &&& head[2] matches CoreAction::SetRow(
                            RuleActionCall::Table { id },
                            args,
                            values,
                        ) && id == congr && args@.len() == 4 && args@[0] == row[n_keys + 1]
                            && args@[1] is Literal && args@[2] == redirection[2] && args@[3]
                            == congruent
                    },
                StandardRebuildKindView::EclassOutput { sym, trans } => exists|
                    flipped: AtomTerm,
                    chained: AtomTerm,
                |
                    #![trigger allocates(head[0], head[1], flipped), allocates(head[3], head[4], chained)]
                    allocates(head[0], head[1], flipped) && allocates(head[3], head[4], chained) && {
                        &&& row[n_keys] == redirection[0]
                        &&& sets(head[6], table, row.take(n_keys) + seq![redirection[1], chained])
                        &&& proves_by(head[2], sym, seq![redirection[2], flipped])
                        &&& proves_by(head[5], trans, seq![flipped, row[n_keys + 1], chained])
                    },
            }
        }),
{
    let roles = lemma_rebuild_roles(catalog, rule, plan);
    lemma_rebuild_redirects(catalog, rule, roles);
    assert(view == roles.view && edge == roles.union_find);
    let row = rule.body@[view].args@;
    let redirection = rule.body@[edge].args@;
    let bound = rebuild_vars(catalog, rule, roles).bound();
    assert(row[stale_column(plan) as int] == AtomTerm::Var(bound[stale_column(plan) as int]));
    match roles.shape {
        OuterShape::EqKey => {
            lemma_key_rebuild(catalog, rule, roles);
        },
        OuterShape::EclassOutput => {
            lemma_output_rebuild(catalog, rule, roles);
            assert(allocates(
                rule.head@[0],
                rule.head@[1],
                AtomTerm::Var(bound_var(rule.head@[1])),
            ));
            assert(allocates(
                rule.head@[3],
                rule.head@[4],
                AtomTerm::Var(bound_var(rule.head@[4])),
            ));
        },
    }
}

} // verus!
