//! What structural admission promises: generated names carry no meaning, the
//! families do not overlap, and admitted plans are coherent.

use vstd::prelude::*;

#[allow(unused_imports)]
use crate::action_body::{
    all_reached, atom_step, atom_steps, empty_body, lemma_sweep_progress, prebind, prebind_row,
    prebind_tables, reach_index, saturate, scalar_body, sweep, unmarked, BodyView, Reach,
};
#[allow(unused_imports)]
use crate::action_plan::ValueRefView;
#[allow(unused_imports)]
use crate::action_rule::{
    action_step, action_steps, owned, scalar_action, scalar_plan, stream_of, StreamView,
};
#[allow(unused_imports)]
use crate::authority::{AuthorityRegistries, NativePrimitive};
#[allow(unused_imports)]
use crate::base::ScalarSqlType;
#[allow(unused_imports)]
use crate::catalog::{table_at, typed_literal, Catalog, TableInfo};
#[allow(unused_imports)]
use crate::egraph::compiled_rule;
#[allow(unused_imports)]
use crate::ir::{
    Atom, AtomTerm, ColumnTy, CoreAction, FunctionId, MergeAction, MergeFn, RuleActionCall,
    RuleBodyCall, RuleSpec, RuleValue, RuleVar,
};
#[allow(unused_imports)]
use crate::marker_rekey::{
    marker_check, marker_plan, marker_rekey, marker_selection, marker_vars, MarkerRekeyView,
};
#[allow(unused_imports)]
use crate::path_compress::{
    path_body_check, path_check, path_head_check, path_let_check, path_merge_check, path_outer,
    path_plan, path_primitive_check, path_proof_check, path_proof_set_check, path_result_check,
    path_steps_check,
};
#[allow(unused_imports)]
use crate::rebuild::{
    assert_eq_check, congr_check, congr_sql, congr_types, eclass_check, eq_key_check,
    head_proof_check, id_types, marker_union_find_check, named_let_check, named_primitive_check,
    rebuild_body_check, rebuild_check, rebuild_head_check, rebuild_kind, rebuild_plan,
    rebuild_selection, rebuild_tables_check, rebuild_unions_check, rebuild_vars, stale_key,
    standard_rebuild, sym_patterns, trans_patterns, union_check, union_label, union_proof_check,
    union_result_check, union_steps_check, union_view, OrderedUnionOrientation, OrderedUnionView,
    OuterShape, RebuildRoles, RebuildVars, StandardRebuildKindView, StandardRebuildView,
};
#[allow(unused_imports)]
use crate::rejection::{RejectionView, Scope};
#[allow(unused_imports)]
use crate::shape::{
    atom_table, body_split, bound_var, called_table, columns_check, identity_patterns,
    lemma_positions, patterns_check, payload_patterns, proof_column_types, scalars_check,
    table_check, table_of, MergePattern,
};

verus! {

// ---------------------------------------------------------------------------
// Rule names.

/// Two rules differ at most in their names.
pub open spec fn renamed(left: RuleSpec, right: RuleSpec) -> bool {
    right == (RuleSpec { name: right.name, ..left })
}

proof fn lemma_path_rule_name(
    catalog: Catalog,
    registries: AuthorityRegistries,
    left: RuleSpec,
    right: RuleSpec,
)
    requires
        renamed(left, right),
    ensures
        path_outer(left) == path_outer(right),
        path_check(catalog, registries, left) == path_check(catalog, registries, right),
        path_plan(catalog, left) == path_plan(catalog, right),
{
    reveal(path_check);
}

proof fn lemma_rebuild_rule_name(catalog: Catalog, left: RuleSpec, right: RuleSpec)
    requires
        renamed(left, right),
    ensures
        standard_rebuild(catalog, left) == standard_rebuild(catalog, right),
{
    reveal(standard_rebuild);
    assert(rebuild_selection(catalog, left) == rebuild_selection(catalog, right));
    match rebuild_selection(catalog, left) {
        Ok(Some(roles)) => {
            assert(rebuild_vars(catalog, left, roles) == rebuild_vars(catalog, right, roles));
            assert(rebuild_check(catalog, left, roles) == rebuild_check(catalog, right, roles));
            assert(rebuild_plan(catalog, left, roles) == rebuild_plan(catalog, right, roles));
        },
        _ => {},
    }
}

proof fn lemma_marker_rule_name(
    catalog: Catalog,
    registries: AuthorityRegistries,
    left: RuleSpec,
    right: RuleSpec,
)
    requires
        renamed(left, right),
    ensures
        marker_rekey(catalog, registries, left) == marker_rekey(catalog, registries, right),
{
    reveal(marker_rekey);
    assert(marker_selection(catalog, left) == marker_selection(catalog, right));
    match marker_selection(catalog, left) {
        Ok(Some(roles)) => {
            assert(marker_vars(catalog, left, roles) == marker_vars(catalog, right, roles));
            assert(marker_check(catalog, registries, left, roles) == marker_check(
                catalog,
                registries,
                right,
                roles,
            ));
            assert(marker_plan(catalog, left, roles) == marker_plan(catalog, right, roles));
        },
        _ => {},
    }
}

/// The name of a rule never influences its admission: neither whether a family
/// owns it, nor the plan, nor the reason of a refusal.
pub proof fn law_rule_names_carry_no_meaning(
    catalog: Catalog,
    registries: AuthorityRegistries,
    left: RuleSpec,
    right: RuleSpec,
)
    requires
        renamed(left, right),
    ensures
        compiled_rule(catalog, registries, left) == compiled_rule(catalog, registries, right),
{
    lemma_path_rule_name(catalog, registries, left, right);
    lemma_rebuild_rule_name(catalog, left, right);
    lemma_marker_rule_name(catalog, registries, left, right);
}

// ---------------------------------------------------------------------------
// Display names of primitives.

/// Two body calls differ at most in the display name of a primitive.
pub open spec fn same_body_call(left: RuleBodyCall, right: RuleBodyCall) -> bool {
    match (left, right) {
        (
            RuleBodyCall::Table { id: a, read: b },
            RuleBodyCall::Table { id: x, read: y },
        ) => a == x && b == y,
        (
            RuleBodyCall::IndexTable { id: a, any_of: b, read: c },
            RuleBodyCall::IndexTable { id: x, any_of: y, read: z },
        ) => a == x && b@ == y@ && c == z,
        (
            RuleBodyCall::Primitive { id: a, output: b, .. },
            RuleBodyCall::Primitive { id: x, output: y, .. },
        ) => a == x && b == y,
        _ => false,
    }
}

/// Two head calls differ at most in the display name of a primitive.
pub open spec fn same_action_call(left: RuleActionCall, right: RuleActionCall) -> bool {
    match (left, right) {
        (RuleActionCall::Table { id: a }, RuleActionCall::Table { id: x }) => a == x,
        (
            RuleActionCall::Primitive { id: a, output: b, .. },
            RuleActionCall::Primitive { id: x, output: y, .. },
        ) => a == x && b == y,
        _ => false,
    }
}

/// Two actions differ at most in the display name of a primitive.
pub open spec fn same_action(left: CoreAction, right: CoreAction) -> bool {
    match (left, right) {
        (CoreAction::Let(a, b, c), CoreAction::Let(x, y, z)) => a == x && same_action_call(b, y)
            && c@ == z@,
        (CoreAction::LetAtomTerm(a, b), CoreAction::LetAtomTerm(x, y)) => a == x && b == y,
        (CoreAction::SetRow(a, b, c), CoreAction::SetRow(x, y, z)) => same_action_call(a, x) && b@
            == y@ && c@ == z@,
        (CoreAction::Change(a, b, c), CoreAction::Change(x, y, z)) => a == x && same_action_call(
            b,
            y,
        ) && c@ == z@,
        (CoreAction::Union(a, b), CoreAction::Union(x, y)) => a == x && b == y,
        (CoreAction::Panic(a), CoreAction::Panic(x)) => a@ == x@,
        _ => false,
    }
}

/// Two bodies differ at most in display names.
pub open spec fn same_body(left: Seq<Atom>, right: Seq<Atom>) -> bool {
    &&& left.len() == right.len()
    &&& forall|i: int|
        0 <= i < left.len() ==> same_body_call((#[trigger] left[i]).head, right[i].head)
            && left[i].args@ == right[i].args@
}

/// Two heads differ at most in display names.
pub open spec fn same_head(left: Seq<CoreAction>, right: Seq<CoreAction>) -> bool {
    &&& left.len() == right.len()
    &&& forall|i: int| 0 <= i < left.len() ==> same_action(#[trigger] left[i], right[i])
}

/// Two rules differ at most in their names and the display names of primitives.
pub open spec fn relabelled(left: RuleSpec, right: RuleSpec) -> bool {
    &&& left.seminaive == right.seminaive
    &&& left.no_decomp == right.no_decomp
    &&& same_body(left.body@, right.body@)
    &&& same_head(left.head@, right.head@)
}

/// The display names of primitives never influence whether a path rule is
/// admitted, nor its plan. They are quoted in refusals only.
pub proof fn law_display_names_carry_no_meaning_for_paths(
    catalog: Catalog,
    registries: AuthorityRegistries,
    left: RuleSpec,
    right: RuleSpec,
)
    requires
        relabelled(left, right),
        left.body@.len() == 3,
        left.head@.len() == 4,
    ensures
        path_outer(left) == path_outer(right),
        path_check(catalog, registries, left).fault is None <==> path_check(
            catalog,
            registries,
            right,
        ).fault is None,
        path_check(catalog, registries, left).fault is None ==> path_plan(catalog, left)
            == path_plan(catalog, right),
{
    reveal(path_check);
    assert(same_body_call(left.body@[0].head, right.body@[0].head));
    assert(same_body_call(left.body@[1].head, right.body@[1].head));
    assert(same_body_call(left.body@[2].head, right.body@[2].head));
    assert(same_action(left.head@[0], right.head@[0]));
    assert(same_action(left.head@[1], right.head@[1]));
    assert(same_action(left.head@[2], right.head@[2]));
    assert(same_action(left.head@[3], right.head@[3]));
}

/// The display names of primitives never influence whether a marker rule is
/// admitted, nor its plan. They are quoted in refusals only.
pub proof fn law_display_names_carry_no_meaning_for_markers(
    catalog: Catalog,
    registries: AuthorityRegistries,
    left: RuleSpec,
    right: RuleSpec,
)
    requires
        relabelled(left, right),
    ensures
        marker_rekey(catalog, registries, left) is Ok <==> marker_rekey(
            catalog,
            registries,
            right,
        ) is Ok,
        marker_rekey(catalog, registries, left) is Ok ==> marker_rekey(catalog, registries, left)
            == marker_rekey(catalog, registries, right),
{
    reveal(marker_rekey);
    if left.body@.len() == 3 && left.head@.len() == 2 {
        assert(same_body_call(left.body@[0].head, right.body@[0].head));
        assert(same_body_call(left.body@[1].head, right.body@[1].head));
        assert(same_body_call(left.body@[2].head, right.body@[2].head));
        assert(same_action(left.head@[0], right.head@[0]));
        assert(same_action(left.head@[1], right.head@[1]));
        assert(marker_selection(catalog, left) == marker_selection(catalog, right));
        match marker_selection(catalog, left) {
            Ok(Some(roles)) => {
                assert(marker_vars(catalog, left, roles) == marker_vars(catalog, right, roles));
                assert(marker_check(catalog, registries, left, roles).fault is None
                    <==> marker_check(catalog, registries, right, roles).fault is None);
                assert(marker_plan(catalog, left, roles) == marker_plan(catalog, right, roles));
            },
            _ => {},
        }
    }
}

proof fn lemma_prebind_tables_relabelled(
    catalog: Catalog,
    plan: BodyView,
    left: Seq<Atom>,
    right: Seq<Atom>,
    from: int,
)
    requires
        same_body(left, right),
    ensures
        prebind_tables(catalog, plan, left, from) == prebind_tables(catalog, plan, right, from),
    decreases left.len() - from,
{
    if 0 <= from < left.len() {
        assert(same_body_call(left[from].head, right[from].head));
        match left[from].head {
            RuleBodyCall::Table { id, .. } => match table_at(catalog, id) {
                Ok(info) => match prebind_row(
                    plan,
                    left[from].args@,
                    info.schema@,
                    from as nat,
                    0,
                ) {
                    Ok(after) => lemma_prebind_tables_relabelled(
                        catalog,
                        after,
                        left,
                        right,
                        from + 1,
                    ),
                    Err(_) => {},
                },
                Err(_) => {},
            },
            _ => lemma_prebind_tables_relabelled(catalog, plan, left, right, from + 1),
        }
    }
}

proof fn lemma_sweep_relabelled(
    catalog: Catalog,
    reach: Reach,
    left: Seq<Atom>,
    right: Seq<Atom>,
    from: int,
)
    requires
        same_body(left, right),
    ensures
        sweep(catalog, reach, left, from) == sweep(catalog, reach, right, from),
    decreases left.len() - from,
{
    if 0 <= from < left.len() {
        assert(same_body_call(left[from].head, right[from].head));
        match left[from].head {
            RuleBodyCall::IndexTable { id, any_of, .. } => {
                if reach.admitted[from] {
                    lemma_sweep_relabelled(catalog, reach, left, right, from + 1);
                } else {
                    match table_at(catalog, id) {
                        Ok(info) => match reach_index(
                            reach,
                            from,
                            left[from].args@,
                            any_of@,
                            info.schema@,
                        ) {
                            Ok(after) => lemma_sweep_relabelled(
                                catalog,
                                after,
                                left,
                                right,
                                from + 1,
                            ),
                            Err(_) => {},
                        },
                        Err(_) => {},
                    }
                }
            },
            _ => lemma_sweep_relabelled(catalog, reach, left, right, from + 1),
        }
    }
}

proof fn lemma_saturate_relabelled(
    catalog: Catalog,
    plan: BodyView,
    admitted: Seq<bool>,
    left: Seq<Atom>,
    right: Seq<Atom>,
)
    requires
        same_body(left, right),
        admitted.len() == left.len(),
    ensures
        saturate(catalog, plan, admitted, left) == saturate(catalog, plan, admitted, right),
    decreases unmarked(admitted, left.len()),
{
    let start = Reach { plan, admitted, changed: false };
    lemma_sweep_relabelled(catalog, start, left, right, 0);
    match sweep(catalog, start, left, 0) {
        Ok(after) => {
            lemma_sweep_progress(catalog, start, left, 0);
            if after.changed {
                lemma_saturate_relabelled(catalog, after.plan, after.admitted, left, right);
            }
        },
        Err(_) => {},
    }
}

proof fn lemma_atom_steps_relabelled(
    catalog: Catalog,
    registries: AuthorityRegistries,
    plan: BodyView,
    left: Seq<Atom>,
    right: Seq<Atom>,
    from: int,
)
    requires
        same_body(left, right),
    ensures
        atom_steps(catalog, registries, plan, left, from) == atom_steps(
            catalog,
            registries,
            plan,
            right,
            from,
        ),
    decreases left.len() - from,
{
    if 0 <= from < left.len() {
        assert(same_body_call(left[from].head, right[from].head));
        match atom_step(catalog, registries, plan, left[from], from as nat) {
            Ok(after) => lemma_atom_steps_relabelled(
                catalog,
                registries,
                after,
                left,
                right,
                from + 1,
            ),
            Err(_) => {},
        }
    }
}

proof fn lemma_scalar_body_relabelled(
    catalog: Catalog,
    registries: AuthorityRegistries,
    left: Seq<Atom>,
    right: Seq<Atom>,
)
    requires
        same_body(left, right),
    ensures
        scalar_body(catalog, registries, left) == scalar_body(catalog, registries, right),
{
    lemma_prebind_tables_relabelled(catalog, empty_body(), left, right, 0);
    match prebind_tables(catalog, empty_body(), left, 0) {
        Ok(seeded) => {
            let none = Seq::new(left.len(), |i: int| false);
            lemma_saturate_relabelled(catalog, seeded, none, left, right);
            match saturate(catalog, seeded, none, left) {
                Ok((_, admitted)) => {
                    assert forall|i: int| 0 <= i < left.len() implies (
                    #[trigger] left[i]).head is IndexTable == right[i].head is IndexTable by {
                        assert(same_body_call(left[i].head, right[i].head));
                    }
                    assert(all_reached(left, admitted) == all_reached(right, admitted)) by {
                        if all_reached(left, admitted) {
                            assert forall|i: int|
                                0 <= i < right.len() && (
                                #[trigger] right[i]).head is IndexTable implies admitted[i] by {
                                assert(left[i].head is IndexTable);
                            }
                        }
                        if all_reached(right, admitted) {
                            assert forall|i: int|
                                0 <= i < left.len() && (
                                #[trigger] left[i]).head is IndexTable implies admitted[i] by {
                                assert(right[i].head is IndexTable);
                            }
                        }
                    }
                },
                Err(_) => {},
            }
        },
        Err(_) => {},
    }
    match prebind(catalog, left) {
        Ok(plan) => lemma_atom_steps_relabelled(catalog, registries, plan, left, right, 0),
        Err(_) => {},
    }
}

/// A term is a String literal whose SQL text is known.
pub open spec fn string_label(catalog: Catalog, term: AtomTerm) -> bool {
    match term {
        AtomTerm::Literal(literal) => match typed_literal(catalog, literal.ty, literal.value) {
            Ok((scalar, _)) => scalar == ScalarSqlType::String,
            Err(_) => false,
        },
        _ => false,
    }
}

/// Two actions allocate an id for the same variable under the same live fresh
/// token. Their labels may differ, and so may the display names.
pub open spec fn same_allocation(
    catalog: Catalog,
    registries: AuthorityRegistries,
    left: CoreAction,
    right: CoreAction,
) -> bool {
    match (left, right) {
        (
            CoreAction::Let(a, RuleActionCall::Primitive { id: b, output: c, .. }, d),
            CoreAction::Let(x, RuleActionCall::Primitive { id: y, output: z, .. }, w),
        ) => {
            &&& a == x && b == y && c == z
            &&& registries.fresh_tokens@.contains(b.rep)
            &&& d@.len() == 1 && string_label(catalog, d@[0])
            &&& w@.len() == 1 && string_label(catalog, w@[0])
        },
        _ => false,
    }
}

/// Two heads differ at most in display names and in the labels of fresh ids.
pub open spec fn same_head_but_labels(
    catalog: Catalog,
    registries: AuthorityRegistries,
    left: Seq<CoreAction>,
    right: Seq<CoreAction>,
) -> bool {
    &&& left.len() == right.len()
    &&& forall|i: int|
        0 <= i < left.len() ==> same_action(#[trigger] left[i], right[i]) || same_allocation(
            catalog,
            registries,
            left[i],
            right[i],
        )
}

proof fn lemma_action_steps_relabelled(
    catalog: Catalog,
    registries: AuthorityRegistries,
    rows: Seq<(FunctionId, Seq<ValueRefView>)>,
    stream: StreamView,
    left: Seq<CoreAction>,
    right: Seq<CoreAction>,
    from: int,
)
    requires
        same_head_but_labels(catalog, registries, left, right),
    ensures
        action_steps(catalog, registries, rows, stream, left, from) == action_steps(
            catalog,
            registries,
            rows,
            stream,
            right,
            from,
        ),
    decreases left.len() - from,
{
    if 0 <= from < left.len() {
        assert(same_action(left[from], right[from]) || same_allocation(
            catalog,
            registries,
            left[from],
            right[from],
        ));
        assert(action_step(catalog, registries, rows, stream, from as usize, left[from])
            == action_step(catalog, registries, rows, stream, from as usize, right[from]));
        match action_step(catalog, registries, rows, stream, from as usize, left[from]) {
            Ok(after) => lemma_action_steps_relabelled(
                catalog,
                registries,
                rows,
                after,
                left,
                right,
                from + 1,
            ),
            Err(_) => {},
        }
    }
}

/// The labels of fresh ids never influence the scalar compiler, and neither do
/// the display names of primitives: it gives the same plan or the same refusal.
pub proof fn law_fresh_labels_carry_no_meaning_for_scalars(
    catalog: Catalog,
    registries: AuthorityRegistries,
    left: RuleSpec,
    right: RuleSpec,
)
    requires
        left.seminaive == right.seminaive,
        same_body(left.body@, right.body@),
        same_head_but_labels(catalog, registries, left.head@, right.head@),
    ensures
        scalar_plan(catalog, registries, left.seminaive, left.body@, left.head@) == scalar_plan(
            catalog,
            registries,
            right.seminaive,
            right.body@,
            right.head@,
        ),
{
    reveal(scalar_plan);
    assert(owned(left.head@) == owned(right.head@)) by {
        assert forall|i: int| 0 <= i < left.head@.len() implies scalar_action(
            #[trigger] left.head@[i],
        ) == scalar_action(right.head@[i]) by {
            assert(same_action(left.head@[i], right.head@[i]) || same_allocation(
                catalog,
                registries,
                left.head@[i],
                right.head@[i],
            ));
        }
        if owned(left.head@) {
            assert forall|i: int| 0 <= i < right.head@.len() implies scalar_action(
                #[trigger] right.head@[i],
            ) by {
                assert(scalar_action(left.head@[i]));
            }
        }
        if owned(right.head@) {
            assert forall|i: int| 0 <= i < left.head@.len() implies scalar_action(
                #[trigger] left.head@[i],
            ) by {
                assert(scalar_action(right.head@[i]));
            }
        }
    }
    lemma_scalar_body_relabelled(catalog, registries, left.body@, right.body@);
    match scalar_body(catalog, registries, left.body@) {
        Ok(matched) => lemma_action_steps_relabelled(
            catalog,
            registries,
            matched.rows,
            stream_of(matched),
            left.head@,
            right.head@,
            0,
        ),
        Err(_) => {},
    }
}

/// The display names of primitives never influence the scalar compiler: it
/// gives the same plan or the same refusal.
pub proof fn law_display_names_carry_no_meaning_for_scalars(
    catalog: Catalog,
    registries: AuthorityRegistries,
    left: RuleSpec,
    right: RuleSpec,
)
    requires
        relabelled(left, right),
    ensures
        scalar_plan(catalog, registries, left.seminaive, left.body@, left.head@) == scalar_plan(
            catalog,
            registries,
            right.seminaive,
            right.body@,
            right.head@,
        ),
{
    law_fresh_labels_carry_no_meaning_for_scalars(catalog, registries, left, right);
}

// ---------------------------------------------------------------------------
// Table names.

/// Two catalogs differ at most in the names of their tables.
pub open spec fn retitled(left: Catalog, right: Catalog) -> bool {
    &&& left.types == right.types
    &&& left.literals@ == right.literals@
    &&& left.tables@.len() == right.tables@.len()
    &&& forall|i: int|
        0 <= i < left.tables@.len() ==> right.tables@[i] == (TableInfo {
            name: right.tables@[i].name,
            ..#[trigger] left.tables@[i]
        })
}

proof fn lemma_scalars_retitled(
    left: Catalog,
    right: Catalog,
    schema: Seq<ColumnTy>,
    count: nat,
)
    requires
        left.types == right.types,
    ensures
        scalars_check(left, schema, count) == scalars_check(right, schema, count),
    decreases count,
{
    if count > 0 {
        lemma_scalars_retitled(left, right, schema, (count - 1) as nat);
    }
}

proof fn lemma_columns_retitled(
    left: Catalog,
    right: Catalog,
    schema: Seq<ColumnTy>,
    expected: Seq<ScalarSqlType>,
    condition: Seq<char>,
    count: nat,
)
    requires
        left.types == right.types,
    ensures
        columns_check(left, schema, expected, condition, count) == columns_check(
            right,
            schema,
            expected,
            condition,
            count,
        ),
    decreases count,
{
    if count > 0 {
        lemma_columns_retitled(left, right, schema, expected, condition, (count - 1) as nat);
    }
}

proof fn lemma_patterns_retitled(
    left: Catalog,
    right: Catalog,
    scope: Scope,
    merges: Seq<MergeFn>,
    patterns: Seq<MergePattern>,
    count: nat,
)
    requires
        left.types == right.types,
    ensures
        patterns_check(left, scope, merges, patterns, count) == patterns_check(
            right,
            scope,
            merges,
            patterns,
            count,
        ),
    decreases count,
{
    if count > 0 {
        lemma_patterns_retitled(left, right, scope, merges, patterns, (count - 1) as nat);
    }
}

proof fn lemma_path_proof_retitled(
    left: Catalog,
    right: Catalog,
    target: FunctionId,
    n_keys: nat,
)
    requires
        retitled(left, right),
    ensures
        path_proof_check(left, target, n_keys) == path_proof_check(right, target, n_keys),
{
    if target.rep < left.tables@.len() {
        let info = left.tables@[target.rep as int];
        lemma_columns_retitled(
            left,
            right,
            info.schema@,
            proof_column_types(n_keys),
            "scalar(base_values, *ty)? == expected"@,
            n_keys + 1,
        );
    }
}

proof fn lemma_path_primitive_retitled(
    left: Catalog,
    right: Catalog,
    registries: AuthorityRegistries,
    merge: MergeFn,
    expected: NativePrimitive,
    patterns: Seq<MergePattern>,
)
    requires
        retitled(left, right),
    ensures
        path_primitive_check(left, registries, merge, expected, patterns) == path_primitive_check(
            right,
            registries,
            merge,
            expected,
            patterns,
        ),
{
    match merge {
        MergeFn::Primitive { args, .. } => lemma_patterns_retitled(
            left,
            right,
            Scope::Path,
            args@,
            patterns,
            patterns.len(),
        ),
        _ => {},
    }
}

proof fn lemma_path_let_retitled(
    left: Catalog,
    right: Catalog,
    registries: AuthorityRegistries,
    action: MergeAction,
    slot: usize,
    expected: NativePrimitive,
    patterns: Seq<MergePattern>,
)
    requires
        retitled(left, right),
    ensures
        path_let_check(left, registries, action, slot, expected, patterns) == path_let_check(
            right,
            registries,
            action,
            slot,
            expected,
            patterns,
        ),
{
    match action {
        MergeAction::Let { value, .. } => lemma_path_primitive_retitled(
            left,
            right,
            registries,
            value,
            expected,
            patterns,
        ),
        _ => {},
    }
}

proof fn lemma_path_proof_set_retitled(
    left: Catalog,
    right: Catalog,
    action: MergeAction,
    patterns: Seq<MergePattern>,
    n_keys: nat,
)
    requires
        retitled(left, right),
    ensures
        path_proof_set_check(left, action, patterns, n_keys) == path_proof_set_check(
            right,
            action,
            patterns,
            n_keys,
        ),
{
    match action {
        MergeAction::SetRow(target, args) => {
            lemma_patterns_retitled(left, right, Scope::Path, args@, patterns, patterns.len());
            lemma_path_proof_retitled(left, right, target, n_keys);
        },
        _ => {},
    }
}

proof fn lemma_path_merge_retitled(
    left: Catalog,
    right: Catalog,
    registries: AuthorityRegistries,
    union_find: FunctionId,
    merge: MergeFn,
)
    requires
        retitled(left, right),
    ensures
        path_merge_check(left, registries, union_find, merge) == path_merge_check(
            right,
            registries,
            union_find,
            merge,
        ),
{
    match merge {
        MergeFn::Block { actions, result } => {
            let steps = actions@;
            let max = NativePrimitive::SelectMaxPayload;
            let min = NativePrimitive::SelectMinPayload;
            lemma_path_let_retitled(left, right, registries, steps[0], 0, max, payload_patterns());
            lemma_path_let_retitled(left, right, registries, steps[1], 1, min, payload_patterns());
            lemma_path_proof_set_retitled(
                left,
                right,
                steps[3],
                seq![MergePattern::Let(0), MergePattern::Let(2), MergePattern::Unit],
                2,
            );
            lemma_path_proof_set_retitled(
                left,
                right,
                steps[5],
                seq![
                    MergePattern::Let(2),
                    MergePattern::Let(1),
                    MergePattern::Let(3),
                    MergePattern::Unit,
                ],
                3,
            );
            match steps[6] {
                MergeAction::SetRow(_, args) => {
                    lemma_path_primitive_retitled(
                        left,
                        right,
                        registries,
                        args@[0],
                        NativePrimitive::OrderingMax,
                        identity_patterns(),
                    );
                    lemma_path_primitive_retitled(
                        left,
                        right,
                        registries,
                        args@[1],
                        NativePrimitive::OrderingMin,
                        identity_patterns(),
                    );
                },
                _ => {},
            }
            match *result {
                MergeFn::Columns(columns) => lemma_path_primitive_retitled(
                    left,
                    right,
                    registries,
                    columns@[0],
                    NativePrimitive::OrderingMin,
                    identity_patterns(),
                ),
                _ => {},
            }
            assert(path_steps_check(left, registries, union_find, steps) == path_steps_check(
                right,
                registries,
                union_find,
                steps,
            ));
            assert(path_result_check(left, registries, *result) == path_result_check(
                right,
                registries,
                *result,
            ));
        },
        _ => {},
    }
}

/// The names of tables never influence path admission: it gives the same plan
/// or the same refusal.
pub proof fn law_table_names_carry_no_meaning_for_paths(
    left: Catalog,
    right: Catalog,
    registries: AuthorityRegistries,
    rule: RuleSpec,
)
    requires
        retitled(left, right),
        rule.body@.len() == 3,
        rule.head@.len() == 4,
    ensures
        path_check(left, registries, rule) == path_check(right, registries, rule),
        path_check(left, registries, rule).fault is None ==> path_plan(left, rule) == path_plan(
            right,
            rule,
        ),
{
    reveal(path_check);
    let union_find = atom_table(rule.body@[0]);
    assert(table_check(left, union_find) == table_check(right, union_find));
    match rule.head@[2] {
        CoreAction::SetRow(RuleActionCall::Table { id }, _, _) => {
            lemma_path_proof_retitled(left, right, id, 3);
        },
        _ => {},
    }
    if union_find.rep < left.tables@.len() {
        let info = left.tables@[union_find.rep as int];
        assert(right.tables@[union_find.rep as int].merge == info.merge);
        lemma_path_merge_retitled(left, right, registries, union_find, info.merge);
        assert(path_body_check(left, registries, rule) == path_body_check(right, registries, rule));
        assert(path_head_check(left, registries, rule) == path_head_check(right, registries, rule));
    } else {
        assert(path_body_check(left, registries, rule).fault is Some);
        assert(path_body_check(left, registries, rule) == path_body_check(right, registries, rule));
    }
}

proof fn lemma_marker_union_find_retitled(
    left: Catalog,
    right: Catalog,
    registries: AuthorityRegistries,
    target: FunctionId,
)
    requires
        retitled(left, right),
    ensures
        marker_union_find_check(left, registries, target) == marker_union_find_check(
            right,
            registries,
            target,
        ),
{
    if target.rep < left.tables@.len() {
        let info = left.tables@[target.rep as int];
        lemma_path_merge_retitled(left, right, registries, target, info.merge);
    }
}

/// The names of tables never influence marker admission: it gives the same
/// plan or the same refusal.
pub proof fn law_table_names_carry_no_meaning_for_markers(
    left: Catalog,
    right: Catalog,
    registries: AuthorityRegistries,
    rule: RuleSpec,
)
    requires
        retitled(left, right),
    ensures
        marker_rekey(left, registries, rule) == marker_rekey(right, registries, rule),
{
    reveal(marker_rekey);
    assert(marker_selection(left, rule) == marker_selection(right, rule)) by {
        match body_split(rule.body@) {
            Some((first, second, _)) => {
                let a = atom_table(rule.body@[first]);
                let b = atom_table(rule.body@[second]);
                if a.rep < left.tables@.len() {
                    assert(right.tables@[a.rep as int].merge == left.tables@[a.rep as int].merge);
                }
                if b.rep < left.tables@.len() {
                    assert(right.tables@[b.rep as int].merge == left.tables@[b.rep as int].merge);
                }
            },
            None => {},
        }
    }
    match marker_selection(left, rule) {
        Ok(Some(roles)) => {
            let marker = atom_table(rule.body@[roles.marker]);
            let union_find = atom_table(rule.body@[roles.union_find]);
            let info = left.tables@[marker.rep as int];
            let other = left.tables@[union_find.rep as int];
            assert(right.tables@[marker.rep as int].schema == info.schema);
            assert(right.tables@[union_find.rep as int].merge == other.merge);
            lemma_scalars_retitled(left, right, info.schema@, info.n_keys as nat);
            lemma_marker_union_find_retitled(left, right, registries, union_find);
            assert(marker_vars(left, rule, roles) == marker_vars(right, rule, roles));
            assert(marker_check(left, registries, rule, roles) == marker_check(
                right,
                registries,
                rule,
                roles,
            ));
            assert(marker_plan(left, rule, roles) == marker_plan(right, rule, roles));
        },
        _ => {},
    }
}

proof fn lemma_assert_eq_retitled(
    left: Catalog,
    right: Catalog,
    target: FunctionId,
    key_types: Seq<ScalarSqlType>,
)
    requires
        retitled(left, right),
    ensures
        assert_eq_check(left, target, key_types) == assert_eq_check(right, target, key_types),
{
    if target.rep < left.tables@.len() {
        let info = left.tables@[target.rep as int];
        lemma_columns_retitled(
            left,
            right,
            info.schema@,
            key_types,
            "ScalarSqlType::from_column(base_values, ty)? == expected"@,
            key_types.len(),
        );
    }
}

proof fn lemma_named_primitive_retitled(
    left: Catalog,
    right: Catalog,
    merge: MergeFn,
    expected: Seq<char>,
    patterns: Seq<MergePattern>,
)
    requires
        retitled(left, right),
    ensures
        named_primitive_check(left, merge, expected, patterns) == named_primitive_check(
            right,
            merge,
            expected,
            patterns,
        ),
{
    match merge {
        MergeFn::Primitive { args, .. } => lemma_patterns_retitled(
            left,
            right,
            Scope::StandardRebuild,
            args@,
            patterns,
            patterns.len(),
        ),
        _ => {},
    }
}

proof fn lemma_named_let_retitled(
    left: Catalog,
    right: Catalog,
    action: MergeAction,
    slot: usize,
    expected: Seq<char>,
    patterns: Seq<MergePattern>,
)
    requires
        retitled(left, right),
    ensures
        named_let_check(left, action, slot, expected, patterns) == named_let_check(
            right,
            action,
            slot,
            expected,
            patterns,
        ),
{
    match action {
        MergeAction::Let { value, .. } => lemma_named_primitive_retitled(
            left,
            right,
            value,
            expected,
            patterns,
        ),
        _ => {},
    }
}

proof fn lemma_union_proof_retitled(
    left: Catalog,
    right: Catalog,
    action: MergeAction,
    patterns: Seq<MergePattern>,
    key_types: Seq<ScalarSqlType>,
)
    requires
        retitled(left, right),
    ensures
        union_proof_check(left, action, patterns, key_types) == union_proof_check(
            right,
            action,
            patterns,
            key_types,
        ),
{
    match action {
        MergeAction::SetRow(target, args) => {
            lemma_patterns_retitled(
                left,
                right,
                Scope::StandardRebuild,
                args@,
                patterns,
                patterns.len(),
            );
            lemma_assert_eq_retitled(left, right, target, key_types);
        },
        _ => {},
    }
}

proof fn lemma_union_retitled(
    left: Catalog,
    right: Catalog,
    merge: MergeFn,
    expected: Option<FunctionId>,
    orientation: OrderedUnionOrientation,
)
    requires
        retitled(left, right),
    ensures
        union_check(left, merge, expected, orientation) == union_check(
            right,
            merge,
            expected,
            orientation,
        ),
{
    match merge {
        MergeFn::Block { actions, result } => {
            let steps = actions@;
            let payloads = payload_patterns();
            let identities = identity_patterns();
            lemma_named_let_retitled(left, right, steps[0], 0, "proof-of-max"@, payloads);
            lemma_named_let_retitled(left, right, steps[1], 1, "proof-of-min"@, payloads);
            lemma_union_proof_retitled(
                left,
                right,
                steps[3],
                sym_patterns(orientation),
                id_types(2),
            );
            lemma_union_proof_retitled(
                left,
                right,
                steps[5],
                trans_patterns(orientation),
                id_types(3),
            );
            match steps[6] {
                MergeAction::SetRow(_, args) => {
                    lemma_named_primitive_retitled(
                        left,
                        right,
                        args@[0],
                        "ordering-max"@,
                        identities,
                    );
                    lemma_named_primitive_retitled(
                        left,
                        right,
                        args@[1],
                        "ordering-min"@,
                        identities,
                    );
                },
                _ => {},
            }
            match *result {
                MergeFn::Columns(columns) => lemma_named_primitive_retitled(
                    left,
                    right,
                    columns@[0],
                    "ordering-min"@,
                    identities,
                ),
                _ => {},
            }
            assert(union_steps_check(left, steps, expected, orientation) == union_steps_check(
                right,
                steps,
                expected,
                orientation,
            ));
            assert(union_result_check(left, *result) == union_result_check(right, *result));
        },
        _ => {},
    }
}

proof fn lemma_congr_retitled(
    left: Catalog,
    right: Catalog,
    action: CoreAction,
    n_keys: usize,
    key_index: usize,
    payload: RuleVar,
    edge_payload: RuleVar,
    alias: RuleVar,
)
    requires
        retitled(left, right),
    ensures
        congr_check(left, action, n_keys, key_index, payload, edge_payload, alias) == congr_check(
            right,
            action,
            n_keys,
            key_index,
            payload,
            edge_payload,
            alias,
        ),
        congr_sql(left, action) == congr_sql(right, action),
{
    match action {
        CoreAction::SetRow(call, _, _) => {
            lemma_assert_eq_retitled(left, right, called_table(call), congr_types());
        },
        _ => {},
    }
}

proof fn lemma_head_proof_retitled(
    left: Catalog,
    right: Catalog,
    action: CoreAction,
    expected: Seq<RuleVar>,
)
    requires
        retitled(left, right),
    ensures
        head_proof_check(left, action, expected) == head_proof_check(right, action, expected),
{
    match action {
        CoreAction::SetRow(call, _, _) => {
            lemma_assert_eq_retitled(left, right, called_table(call), id_types(expected.len()));
        },
        _ => {},
    }
}

proof fn lemma_eq_key_retitled(
    left: Catalog,
    right: Catalog,
    head: Seq<CoreAction>,
    view: FunctionId,
    vars: RebuildVars,
    label: RuleValue,
)
    requires
        retitled(left, right),
        view.rep < left.tables@.len(),
    ensures
        eq_key_check(left, head, view, vars, label) == eq_key_check(
            right,
            head,
            view,
            vars,
            label,
        ),
{
    let n_keys = left.tables@[view.rep as int].n_keys;
    assert(right.tables@[view.rep as int].n_keys == n_keys);
    lemma_congr_retitled(
        left,
        right,
        head[2],
        n_keys,
        stale_key(vars),
        vars.payload,
        vars.edge_payload,
        bound_var(head[1]),
    );
}

proof fn lemma_eclass_retitled(
    left: Catalog,
    right: Catalog,
    head: Seq<CoreAction>,
    view: FunctionId,
    vars: RebuildVars,
    view_union: OrderedUnionView,
    label: RuleValue,
)
    requires
        retitled(left, right),
    ensures
        eclass_check(left, head, view, vars, view_union, label) == eclass_check(
            right,
            head,
            view,
            vars,
            view_union,
            label,
        ),
{
    let sym_alias = bound_var(head[1]);
    let trans_alias = bound_var(head[4]);
    lemma_head_proof_retitled(left, right, head[2], seq![vars.edge_payload, sym_alias]);
    lemma_head_proof_retitled(left, right, head[5], seq![sym_alias, vars.payload, trans_alias]);
}

proof fn lemma_rebuild_head_retitled(
    left: Catalog,
    right: Catalog,
    rule: RuleSpec,
    roles: RebuildRoles,
)
    requires
        retitled(left, right),
        atom_table(rule.body@[roles.view]).rep < left.tables@.len(),
    ensures
        rebuild_vars(left, rule, roles) == rebuild_vars(right, rule, roles),
        rebuild_head_check(left, rule, roles) == rebuild_head_check(right, rule, roles),
        rebuild_kind(left, roles.shape, rule.head@, rebuild_vars(left, rule, roles))
            == rebuild_kind(right, roles.shape, rule.head@, rebuild_vars(right, rule, roles)),
{
    let view = atom_table(rule.body@[roles.view]);
    let info = left.tables@[view.rep as int];
    assert(right.tables@[view.rep as int].merge == info.merge);
    let vars = rebuild_vars(left, rule, roles);
    assert(rebuild_vars(right, rule, roles) == vars);
    let label = union_label(info.merge);
    let view_union = union_view(left, view, OrderedUnionOrientation::EclassToTerm);
    assert(union_view(right, view, OrderedUnionOrientation::EclassToTerm) == view_union);
    match roles.shape {
        OuterShape::EqKey => {
            lemma_eq_key_retitled(left, right, rule.head@, view, vars, label);
            lemma_congr_retitled(
                left,
                right,
                rule.head@[2],
                info.n_keys,
                stale_key(vars),
                vars.payload,
                vars.edge_payload,
                bound_var(rule.head@[1]),
            );
        },
        OuterShape::EclassOutput => {
            lemma_eclass_retitled(left, right, rule.head@, view, vars, view_union, label);
        },
    }
}

/// The names of tables never influence rebuild admission: it gives the same
/// plan or the same refusal.
pub proof fn law_table_names_carry_no_meaning_for_rebuilds(
    left: Catalog,
    right: Catalog,
    rule: RuleSpec,
)
    requires
        retitled(left, right),
    ensures
        standard_rebuild(left, rule) == standard_rebuild(right, rule),
{
    reveal(standard_rebuild);
    assert forall|id: FunctionId| #![trigger table_at(left, id)]
        id.rep < left.tables@.len() implies table_of(left, id).merge == table_of(right, id).merge
        && table_of(left, id).can_subsume == table_of(right, id).can_subsume by {
        assert(right.tables@[id.rep as int].merge == left.tables@[id.rep as int].merge);
    }
    assert(rebuild_selection(left, rule) == rebuild_selection(right, rule));
    match rebuild_selection(left, rule) {
        Ok(Some(roles)) => {
            let view = atom_table(rule.body@[roles.view]);
            let union_find = atom_table(rule.body@[roles.union_find]);
            let info = left.tables@[view.rep as int];
            let edge = left.tables@[union_find.rep as int];
            let displaced = left.tables@[roles.displaced.rep as int];
            assert(right.tables@[view.rep as int].merge == info.merge);
            assert(right.tables@[union_find.rep as int].merge == edge.merge);
            assert(right.tables@[roles.displaced.rep as int].merge == displaced.merge);
            lemma_scalars_retitled(left, right, info.schema@, info.n_keys as nat);
            lemma_union_retitled(
                left,
                right,
                info.merge,
                None,
                OrderedUnionOrientation::EclassToTerm,
            );
            lemma_union_retitled(
                left,
                right,
                edge.merge,
                Some(union_find),
                OrderedUnionOrientation::KeyToParent,
            );
            lemma_union_retitled(
                left,
                right,
                displaced.merge,
                Some(roles.displaced),
                OrderedUnionOrientation::KeyToParent,
            );
            lemma_rebuild_head_retitled(left, right, rule, roles);
            assert(rebuild_tables_check(left, rule, roles) == rebuild_tables_check(
                right,
                rule,
                roles,
            ));
            assert(rebuild_body_check(left, rule, roles) == rebuild_body_check(right, rule, roles));
            assert(rebuild_unions_check(left, rule, roles) == rebuild_unions_check(
                right,
                rule,
                roles,
            ));
            assert(rebuild_plan(left, rule, roles) == rebuild_plan(right, rule, roles));
        },
        _ => {},
    }
}

// ---------------------------------------------------------------------------
// Families.

/// No rule has the outer topology of two structural families.
pub proof fn law_structural_families_are_disjoint(
    catalog: Catalog,
    registries: AuthorityRegistries,
    rule: RuleSpec,
)
    ensures
        path_outer(rule) ==> standard_rebuild(catalog, rule) == Ok::<
            Option<StandardRebuildView>,
            RejectionView,
        >(None),
        path_outer(rule) ==> marker_rekey(catalog, registries, rule) == Ok::<
            Option<MarkerRekeyView>,
            RejectionView,
        >(None),
        standard_rebuild(catalog, rule) != Ok::<Option<StandardRebuildView>, RejectionView>(None)
            ==> marker_rekey(catalog, registries, rule) == Ok::<
            Option<MarkerRekeyView>,
            RejectionView,
        >(None),
{
    reveal(standard_rebuild);
    reveal(marker_rekey);
}

// ---------------------------------------------------------------------------
// Plans.

/// The tables of an admitted path rule are three different tables: the
/// union-find table, the symmetry proofs and the transitivity proofs.
pub proof fn law_path_plans_are_coherent(
    catalog: Catalog,
    registries: AuthorityRegistries,
    rule: RuleSpec,
)
    requires
        path_check(catalog, registries, rule).fault is None,
    ensures
        ({
            let plan = path_plan(catalog, rule);
            &&& plan.seminaive
            &&& plan.union_find.rep < catalog.tables@.len()
            &&& plan.sym.rep < catalog.tables@.len()
            &&& plan.trans.rep < catalog.tables@.len()
            &&& plan.sym != plan.trans
            &&& plan.union_find != plan.sym
            &&& plan.union_find != plan.trans
            &&& table_of(catalog, plan.sym).n_keys == 2
            &&& table_of(catalog, plan.trans).n_keys == 3
        }),
{
    reveal(path_check);
}

/// In an admitted rebuild plan the redirected column is a column of the View,
/// the View displaces into the output union-find table, each union-find table
/// displaces into itself, and all three share their proof tables. The two
/// union-find tables of an output rebuild are one.
pub proof fn law_rebuild_plans_are_coherent(
    catalog: Catalog,
    rule: RuleSpec,
    plan: StandardRebuildView,
)
    requires
        catalog.well_formed(),
        standard_rebuild(catalog, rule) == Ok::<Option<StandardRebuildView>, RejectionView>(
            Some(plan),
        ),
    ensures
        plan.seminaive,
        plan.view.columns.len() == plan.view.n_keys + 2,
        plan.view.n_keys <= 27,
        plan.union_find.n_keys == 1,
        plan.union_find.columns.len() == 3,
        plan.displaced_union_find.n_keys == 1,
        plan.displaced_union_find.columns.len() == 3,
        plan.view.target != plan.union_find.target,
        plan.view.displaced_target == plan.displaced_union_find.target,
        plan.union_find.displaced_target == plan.union_find.target,
        plan.displaced_union_find.displaced_target == plan.displaced_union_find.target,
        plan.view.sym == plan.union_find.sym && plan.view.sym == plan.displaced_union_find.sym,
        plan.view.trans == plan.union_find.trans && plan.view.trans
            == plan.displaced_union_find.trans,
        plan.view.orientation == OrderedUnionOrientation::EclassToTerm,
        plan.union_find.orientation == OrderedUnionOrientation::KeyToParent,
        plan.displaced_union_find.orientation == OrderedUnionOrientation::KeyToParent,
        match plan.kind {
            StandardRebuildKindView::EqKey { key_index, .. } => key_index < plan.view.n_keys,
            StandardRebuildKindView::EclassOutput { sym, trans } => {
                &&& plan.union_find == plan.displaced_union_find
                &&& sym == plan.view.sym
                &&& trans == plan.view.trans
            },
        },
{
    reveal(standard_rebuild);
    match rebuild_selection(catalog, rule) {
        Ok(Some(roles)) => {
            let vars = rebuild_vars(catalog, rule, roles);
            lemma_positions(vars.keys, vars.edge_key, vars.keys.len());
            let view = atom_table(rule.body@[roles.view]);
            let union_find = atom_table(rule.body@[roles.union_find]);
            assert(table_of(catalog, view).well_formed());
            assert(table_of(catalog, union_find).well_formed());
            assert(table_of(catalog, roles.displaced).well_formed());
        },
        _ => {},
    }
}

/// One match of an admitted rebuild head allocates as many fresh ids as the
/// head has fresh bindings: one for a key, two for an output.
pub proof fn law_rebuild_heads_allocate_per_binding(
    catalog: Catalog,
    rule: RuleSpec,
    plan: StandardRebuildView,
)
    requires
        standard_rebuild(catalog, rule) == Ok::<Option<StandardRebuildView>, RejectionView>(
            Some(plan),
        ),
    ensures
        rule.head@.filter(|action: CoreAction| action is Let).len() == (if plan.kind is EqKey {
            1nat
        } else {
            2nat
        }),
{
    reveal(standard_rebuild);
    reveal_with_fuel(lets, 8);
    lemma_lets(rule.head@, rule.head@.len());
    assert(rule.head@.take(rule.head@.len() as int) =~= rule.head@);
}

/// The number of bindings among the first `count` actions.
spec fn lets(head: Seq<CoreAction>, count: nat) -> nat
    decreases count,
{
    if count == 0 {
        0
    } else {
        lets(head, (count - 1) as nat) + (if head[count - 1] is Let {
            1nat
        } else {
            0nat
        })
    }
}

proof fn lemma_lets(head: Seq<CoreAction>, count: nat)
    requires
        count <= head.len(),
    ensures
        head.take(count as int).filter(|action: CoreAction| action is Let).len() == lets(
            head,
            count,
        ),
    decreases count,
{
    reveal(Seq::filter);
    if count > 0 {
        lemma_lets(head, (count - 1) as nat);
        assert(head.take(count as int).drop_last() =~= head.take(count - 1));
    }
}

/// In an admitted marker plan the redirected key is a key of the marker, the
/// marker has one value behind its keys, and the union-find table displaces
/// into itself.
pub proof fn law_marker_plans_are_coherent(
    catalog: Catalog,
    registries: AuthorityRegistries,
    rule: RuleSpec,
    plan: MarkerRekeyView,
)
    requires
        catalog.well_formed(),
        marker_rekey(catalog, registries, rule) == Ok::<Option<MarkerRekeyView>, RejectionView>(
            Some(plan),
        ),
    ensures
        plan.seminaive,
        plan.n_keys >= 1,
        plan.key_index < plan.n_keys,
        plan.marker_columns.len() == plan.n_keys + 1,
        plan.marker != plan.union_find.target,
        plan.union_find.displaced_target == plan.union_find.target,
        plan.union_find.n_keys == 1,
        plan.union_find.columns.len() == 3,
        plan.union_find.sym != plan.union_find.trans,
{
    reveal(marker_rekey);
    match marker_selection(catalog, rule) {
        Ok(Some(roles)) => {
            let vars = marker_vars(catalog, rule, roles);
            lemma_positions(vars.keys, vars.edge_key, vars.keys.len());
            assert(table_of(catalog, atom_table(rule.body@[roles.marker])).well_formed());
            assert(table_of(catalog, atom_table(rule.body@[roles.union_find])).well_formed());
        },
        _ => {},
    }
}

} // verus!
