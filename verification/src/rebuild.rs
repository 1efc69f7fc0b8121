//! Closed lowering for the two standard scalar term/proof rebuild rules.
//!
//! Admission is structural. Generated rule, function, table, sort, variable and
//! proof names play no part. A matching outer topology is either accepted in
//! full or refused as malformed; unrelated marker, container and custom-merge
//! topologies fall through to the ordinary closed rule compiler.

use vstd::prelude::*;

use crate::authority::AuthorityRegistries;
use crate::base::{small_integer, ScalarSqlType};
use crate::catalog::{Catalog, TableInfo};
use crate::ir::{
    Atom, AtomTerm, Change, ColumnTy, CoreAction, DefaultVal, FunctionId, MergeAction, MergeFn,
    ReadMode, RuleActionCall, RuleBodyCall, RuleSpec, RuleValue, RuleVar,
};
use crate::path_compress::validate_union_find_merge;
use crate::rejection::{reject, reject_because, reject_with, Rejection, Scope};
use crate::shape::{
    are_ids, copy_vars, distinct_vars, expect_pattern, expect_patterns, failed, find_only_position,
    id_var, identity_arguments, is_proof_config, is_union_find_config, is_var, let_var,
    payload_arguments, require, require_column_type, require_columns, require_delete,
    require_id_type, require_same_number, require_same_table, require_scalar, require_scalars,
    require_stated, same_var, same_vars, split_body, table_action, table_atom_parts, typed_vars,
    unit, MergePattern,
};
use crate::staging::{render_row_columns, render_stale_rows};
use crate::text::{append_number, assert_scratch_name, same_text};
use egglog_core_relations::BaseValues;
#[allow(unused_imports)]
use crate::base::in_place_integer;
#[allow(unused_imports)]
use crate::catalog::table_at;
#[allow(unused_imports)]
use crate::path_compress::path_merge_check;
#[allow(unused_imports)]
use crate::rejection::{agrees_if_owned, rejected_because, RejectionView};
#[allow(unused_imports)]
use crate::shape::{
    all_ids, atom_read, atom_table, body_split, bound_var, called_table, column_type_check,
    columns_check, delete_check, distinct_check, failed_text, fresh_label, holds, id_type_check,
    id_var_check, identity_patterns, is_var_check, literal_check, literal_of, literal_sql,
    merge_fresh, merge_target, only_position, pattern_check, patterns_check, payload_patterns,
    proof_config, same_number_check, same_table_check, same_var_check, scalar_check, scalars_check,
    set_table, stated, table_action_check, table_check, table_of, typed_vars_check,
    union_find_config, var_of, vars_check, vars_of, yields, yields_view, Check,
};
#[allow(unused_imports)]
use crate::staging::{row_columns, stale_rows_sql};
#[allow(unused_imports)]
use crate::text::{decimal, scratch_name, texts};

verus! {

/// Which way a carried payload proves its equality.
#[derive(Clone, Copy, Debug, PartialEq, Eq, Structural)]
pub enum OrderedUnionOrientation {
    /// The carried payload proves `key = parent`.
    KeyToParent,
    /// The carried payload proves `eclass = term`.
    EclassToTerm,
}

/// A table whose merge keeps the smaller identity and displaces the larger one.
#[derive(Debug)]
pub struct OrderedUnionPlan {
    pub target: FunctionId,
    pub displaced_target: FunctionId,
    pub sym: FunctionId,
    pub trans: FunctionId,
    pub orientation: OrderedUnionOrientation,
    pub columns: Vec<ScalarSqlType>,
    pub n_keys: usize,
}

/// What an [`OrderedUnionPlan`] says.
pub struct OrderedUnionView {
    pub target: FunctionId,
    pub displaced_target: FunctionId,
    pub sym: FunctionId,
    pub trans: FunctionId,
    pub orientation: OrderedUnionOrientation,
    pub columns: Seq<ScalarSqlType>,
    pub n_keys: usize,
}

impl View for OrderedUnionPlan {
    type V = OrderedUnionView;

    open spec fn view(&self) -> OrderedUnionView {
        OrderedUnionView {
            target: self.target,
            displaced_target: self.displaced_target,
            sym: self.sym,
            trans: self.trans,
            orientation: self.orientation,
            columns: self.columns@,
            n_keys: self.n_keys,
        }
    }
}

impl OrderedUnionPlan {
    /// The number of columns.
    pub fn arity(&self) -> (arity: usize)
        ensures
            arity == self@.columns.len(),
    {
        self.columns.len()
    }
}

/// Which of the two standard rebuild rules a plan is.
#[derive(Debug)]
pub enum StandardRebuildKind {
    EqKey { key_index: usize, child_index_sql: String, congr: FunctionId },
    EclassOutput { sym: FunctionId, trans: FunctionId },
}

/// What a [`StandardRebuildKind`] says.
pub enum StandardRebuildKindView {
    EqKey { key_index: usize, child_index_sql: Seq<char>, congr: FunctionId },
    EclassOutput { sym: FunctionId, trans: FunctionId },
}

impl View for StandardRebuildKind {
    type V = StandardRebuildKindView;

    open spec fn view(&self) -> StandardRebuildKindView {
        match *self {
            StandardRebuildKind::EqKey { key_index, child_index_sql, congr } => {
                StandardRebuildKindView::EqKey {
                    key_index,
                    child_index_sql: child_index_sql@,
                    congr,
                }
            },
            StandardRebuildKind::EclassOutput { sym, trans } => {
                StandardRebuildKindView::EclassOutput { sym, trans }
            },
        }
    }
}

impl StandardRebuildKind {
    /// How many fresh ids one match of the head allocates.
    pub fn head_fresh_slots(&self) -> (slots: u64)
        ensures
            slots == (if self@ is EqKey {
                1u64
            } else {
                2u64
            }),
    {
        match self {
            StandardRebuildKind::EqKey { .. } => 1,
            StandardRebuildKind::EclassOutput { .. } => 2,
        }
    }
}

/// A fully validated standard scalar rebuild rule.
#[derive(Debug)]
pub struct StandardRebuildPlan {
    pub seminaive: bool,
    pub view: OrderedUnionPlan,
    /// The union-find table that the rule body joins to find the canonical id.
    pub union_find: OrderedUnionPlan,
    /// The union-find table of the output sort, which receives what the View
    /// displaces. It differs from `union_find` when the rebuilt key is of
    /// another sort than the View's output.
    pub displaced_union_find: OrderedUnionPlan,
    pub kind: StandardRebuildKind,
}

/// What a [`StandardRebuildPlan`] says.
pub struct StandardRebuildView {
    pub seminaive: bool,
    pub view: OrderedUnionView,
    pub union_find: OrderedUnionView,
    pub displaced_union_find: OrderedUnionView,
    pub kind: StandardRebuildKindView,
}

impl View for StandardRebuildPlan {
    type V = StandardRebuildView;

    open spec fn view(&self) -> StandardRebuildView {
        StandardRebuildView {
            seminaive: self.seminaive,
            view: self.view@,
            union_find: self.union_find@,
            displaced_union_find: self.displaced_union_find@,
            kind: self.kind@,
        }
    }
}

/// The column of the View that the union-find table redirects.
pub open spec fn stale_column(plan: StandardRebuildView) -> usize {
    match plan.kind {
        StandardRebuildKindView::EqKey { key_index, .. } => key_index,
        StandardRebuildKindView::EclassOutput { .. } => plan.view.n_keys,
    }
}

/// The staged columns: the View row, the canonical id and the edge's payload.
pub open spec fn rebuild_bindings(arity: nat) -> Seq<Seq<char>> {
    row_columns("view_row"@, arity).push("uf_row.c1 AS c"@ + decimal(arity)).push(
        "uf_row.c2 AS c"@ + decimal(arity + 1),
    )
}

/// The statement that stages the matches of a rebuild rule.
pub open spec fn rebuild_sql(
    plan: StandardRebuildView,
    stage: Seq<char>,
    watermark: u64,
) -> Seq<char> {
    stale_rows_sql(
        stage,
        plan.view.target,
        "view_row"@,
        plan.union_find.target,
        stale_column(plan) as nat,
        rebuild_bindings(plan.view.columns.len()),
        plan.seminaive,
        watermark,
    )
}

impl StandardRebuildPlan {
    /// Renders the statement that stages the matches.
    pub fn materialize_sql(&self, stage: &str, watermark: u64) -> (sql: String)
        requires
            scratch_name(stage@),
            self@.view.columns.len() < u64::MAX,
        ensures
            sql@ == rebuild_sql(self@, stage@, watermark),
    {
        assert_scratch_name(stage);
        let arity = self.view.arity();
        let stale = match &self.kind {
            StandardRebuildKind::EqKey { key_index, .. } => *key_index,
            StandardRebuildKind::EclassOutput { .. } => self.view.n_keys,
        };
        let mut bindings = render_row_columns("view_row", arity);
        let mut canonical = "uf_row.c1 AS c".to_owned();
        append_number(&mut canonical, arity as u64);
        bindings.push(canonical);
        let mut payload = "uf_row.c2 AS c".to_owned();
        append_number(&mut payload, arity as u64 + 1);
        bindings.push(payload);
        assert(texts(bindings@) =~= rebuild_bindings(arity as nat));
        render_stale_rows(
            stage,
            self.view.target,
            "view_row",
            self.union_find.target,
            stale,
            &bindings,
            self.seminaive,
            watermark,
        )
    }
}

// ---------------------------------------------------------------------------
// Selection.

/// The outer topologies of the two standard rebuild rules.
#[derive(Clone, Copy, Debug, PartialEq, Eq, Structural)]
pub enum OuterShape {
    EqKey,
    EclassOutput,
}

/// The outer topology of a head.
pub open spec fn head_shape(head: Seq<CoreAction>) -> Option<OuterShape> {
    if head.len() == 5 && head[0] is Let && head[1] is LetAtomTerm && head[2] is SetRow
        && head[3] is SetRow && head[4] is Change {
        Some(OuterShape::EqKey)
    } else if head.len() == 7 && head[0] is Let && head[1] is LetAtomTerm && head[2] is SetRow
        && head[3] is Let && head[4] is LetAtomTerm && head[5] is SetRow && head[6] is SetRow {
        Some(OuterShape::EclassOutput)
    } else {
        None
    }
}

fn is_let(action: &CoreAction) -> (result: bool)
    ensures
        result == (action is Let),
{
    match action {
        CoreAction::Let(_, _, _) => true,
        _ => false,
    }
}

fn is_alias(action: &CoreAction) -> (result: bool)
    ensures
        result == (action is LetAtomTerm),
{
    match action {
        CoreAction::LetAtomTerm(_, _) => true,
        _ => false,
    }
}

/// Whether an action writes a row.
pub fn is_set(action: &CoreAction) -> (result: bool)
    ensures
        result == (action is SetRow),
{
    match action {
        CoreAction::SetRow(_, _, _) => true,
        _ => false,
    }
}

/// Whether an action deletes or subsumes a row.
pub fn is_change(action: &CoreAction) -> (result: bool)
    ensures
        result == (action is Change),
{
    match action {
        CoreAction::Change(_, _, _) => true,
        _ => false,
    }
}

/// The outer topology of a rule.
pub open spec fn rebuild_outer(rule: RuleSpec) -> Option<OuterShape> {
    if body_split(rule.body@) is None {
        None
    } else {
        head_shape(rule.head@)
    }
}

fn outer_shape(rule: &RuleSpec) -> (shape: Option<OuterShape>)
    ensures
        shape == rebuild_outer(*rule),
{
    if split_body(&rule.body).is_none() {
        return None;
    }
    let head = &rule.head;
    if head.len() == 5 {
        if is_let(&head[0]) && is_alias(&head[1]) && is_set(&head[2]) && is_set(&head[3])
            && is_change(&head[4]) {
            return Some(OuterShape::EqKey);
        }
    }
    if head.len() == 7 {
        if is_let(&head[0]) && is_alias(&head[1]) && is_set(&head[2]) && is_let(&head[3])
            && is_alias(&head[4]) && is_set(&head[5]) && is_set(&head[6]) {
            return Some(OuterShape::EclassOutput);
        }
    }
    None
}

/// The steps of a merge block have the kinds of an ordered union.
pub open spec fn union_steps(actions: Seq<MergeAction>) -> bool {
    &&& actions.len() == 7
    &&& actions[0] is Let
    &&& actions[1] is Let
    &&& actions[2] is Let
    &&& actions[3] is SetRow
    &&& actions[4] is Let
    &&& actions[5] is SetRow
    &&& actions[6] matches MergeAction::SetRow(_, args)
    &&& args@.len() == 3
}

/// The table that a merge displaces into, when the merge has the outer
/// topology of an ordered union.
pub open spec fn union_outer(merge: MergeFn) -> Option<FunctionId> {
    match merge {
        MergeFn::Block { actions, result } => match *result {
            MergeFn::Columns(columns) => if union_steps(actions@) && columns@.len() == 2 {
                Some(merge_target(actions@[6]))
            } else {
                None
            },
            _ => None,
        },
        _ => None,
    }
}

fn is_merge_let(action: &MergeAction) -> (result: bool)
    ensures
        result == (action is Let),
{
    match action {
        MergeAction::Let { .. } => true,
        _ => false,
    }
}

fn is_merge_set(action: &MergeAction) -> (result: bool)
    ensures
        result == (action is SetRow),
{
    match action {
        MergeAction::SetRow(_, _) => true,
        _ => false,
    }
}

/// The cheap discriminator for an ordered-union merge. Once it matches, the
/// validator checks every primitive, type, slot, argument, target and result.
pub fn ordered_union_outer(merge: &MergeFn) -> (displaced: Option<FunctionId>)
    ensures
        displaced == union_outer(*merge),
{
    match merge {
        MergeFn::Block { actions, result } => {
            let columns = match &**result {
                MergeFn::Columns(columns) => columns.len(),
                _ => {
                    return None;
                },
            };
            if actions.len() != 7 {
                return None;
            }
            let steps = is_merge_let(&actions[0]) && is_merge_let(&actions[1]) && is_merge_let(
                &actions[2],
            ) && is_merge_set(&actions[3]) && is_merge_let(&actions[4]) && is_merge_set(
                &actions[5],
            );
            if !steps {
                return None;
            }
            match &actions[6] {
                MergeAction::SetRow(displaced, args) => if args.len() == 3 && columns == 2 {
                    Some(*displaced)
                } else {
                    None
                },
                _ => None,
            }
        },
        _ => None,
    }
}

/// The atoms that a rebuild rule assigns to its roles.
pub struct RebuildRoles {
    pub shape: OuterShape,
    pub view: int,
    pub union_find: int,
    pub guard: int,
    pub displaced: FunctionId,
}

/// Which rules the standard rebuild language owns: the View is the table that
/// can be subsumed, and View, union-find and displaced table all have
/// ordered-union merges.
pub open spec fn rebuild_selection(catalog: Catalog, rule: RuleSpec) -> Result<
    Option<RebuildRoles>,
    RejectionView,
> {
    match (rebuild_outer(rule), body_split(rule.body@)) {
        (Some(shape), Some((first, second, guard))) => {
            match table_at(catalog, atom_table(rule.body@[first])) {
                Err(error) => Err(error),
                Ok(first_info) => match table_at(catalog, atom_table(rule.body@[second])) {
                    Err(error) => Err(error),
                    Ok(second_info) => if first_info.can_subsume && !second_info.can_subsume {
                        rebuild_family(catalog, shape, rule, first, second, guard)
                    } else if !first_info.can_subsume && second_info.can_subsume {
                        rebuild_family(catalog, shape, rule, second, first, guard)
                    } else {
                        Ok(None)
                    },
                },
            }
        },
        _ => Ok(None),
    }
}

/// The tables of the roles all have ordered-union merges.
pub open spec fn rebuild_family(
    catalog: Catalog,
    shape: OuterShape,
    rule: RuleSpec,
    view: int,
    union_find: int,
    guard: int,
) -> Result<Option<RebuildRoles>, RejectionView> {
    match union_outer(table_of(catalog, atom_table(rule.body@[view])).merge) {
        None => Ok(None),
        Some(displaced) => if union_outer(
            table_of(catalog, atom_table(rule.body@[union_find])).merge,
        ) is None {
            Ok(None)
        } else {
            match table_at(catalog, displaced) {
                Err(error) => Err(error),
                Ok(info) => if union_outer(info.merge) is None {
                    Ok(None)
                } else {
                    Ok(Some(RebuildRoles { shape, view, union_find, guard, displaced }))
                },
            }
        },
    }
}

// ---------------------------------------------------------------------------
// Tables.

/// A table is a View: keys, an identity and a payload.
pub open spec fn view_table_check(catalog: Catalog, info: TableInfo) -> Check {
    let keys = info.n_keys as int;
    holds(
        info.n_vals == 2 && info.schema@.len() == info.n_keys + 2 && info.n_keys <= 27
            && info.n_identity_vals == Some(1usize) && info.default == DefaultVal::Fail
            && info.can_subsume,
        Scope::StandardRebuild,
        "View has an incompatible configuration"@,
    ).and(scalars_check(catalog, info.schema@, info.n_keys as nat)).and(
        holds(
            info.schema@[keys] == ColumnTy::Id && info.schema@[keys + 1] == ColumnTy::Id,
            Scope::StandardRebuild,
            "View must end in two Id values"@,
        ),
    )
}

fn validate_view_table(catalog: &Catalog, info: &TableInfo) -> (checked: Result<(), Rejection>)
    ensures
        yields(checked, view_table_check(*catalog, *info), ()),
{
    let identity = match info.n_identity_vals {
        Some(count) => count == 1,
        None => false,
    };
    require(
        info.n_keys <= 27 && info.n_vals == 2 && info.arity() == info.n_keys + 2 && identity
            && info.default == DefaultVal::Fail && info.can_subsume,
        Scope::StandardRebuild,
        "View has an incompatible configuration",
    )?;
    require_scalars(catalog, &info.schema, info.n_keys)?;
    require(
        info.schema[info.n_keys] == ColumnTy::Id && info.schema[info.n_keys + 1] == ColumnTy::Id,
        Scope::StandardRebuild,
        "View must end in two Id values",
    )
}

/// A table is a union-find table.
pub open spec fn rebuild_union_find_check(info: TableInfo) -> Check {
    holds(
        union_find_config(info),
        Scope::StandardRebuild,
        "UF has an incompatible configuration"@,
    )
}

fn validate_union_find_table(info: &TableInfo) -> (checked: Result<(), Rejection>)
    ensures
        yields(checked, rebuild_union_find_check(*info), ()),
{
    require(
        is_union_find_config(info),
        Scope::StandardRebuild,
        "UF has an incompatible configuration",
    )
}

/// A table is a proof relation with the given key types.
pub open spec fn assert_eq_check(
    catalog: Catalog,
    target: FunctionId,
    key_types: Seq<ScalarSqlType>,
) -> Check {
    let schema = table_of(catalog, target).schema@;
    table_check(catalog, target).and(
        holds(
            proof_config(table_of(catalog, target), key_types.len()),
            Scope::StandardRebuild,
            "proof target is not the exact one-output AssertEq shape"@,
        ),
    ).and(
        columns_check(
            catalog,
            schema,
            key_types,
            "ScalarSqlType::from_column(base_values, ty)? == expected"@,
            key_types.len(),
        ),
    ).and(
        column_type_check(
            catalog,
            schema[key_types.len() as int],
            ScalarSqlType::Unit,
            "ScalarSqlType::from_column(base_values, info.schema[info.n_keys])? == ScalarSqlType::Unit"@,
        ),
    )
}

fn validate_assert_eq_table(
    catalog: &Catalog,
    target: FunctionId,
    key_types: Vec<ScalarSqlType>,
) -> (checked: Result<(), Rejection>)
    requires
        key_types@.len() < usize::MAX,
    ensures
        yields(checked, assert_eq_check(*catalog, target, key_types@), ()),
{
    let info = catalog.table_info(target)?;
    require(
        is_proof_config(info, key_types.len()),
        Scope::StandardRebuild,
        "proof target is not the exact one-output AssertEq shape",
    )?;
    require_columns(
        catalog,
        &info.schema,
        &key_types,
        "ScalarSqlType::from_column(base_values, ty)? == expected",
    )?;
    require_column_type(
        catalog,
        info.schema[key_types.len()],
        ScalarSqlType::Unit,
        "ScalarSqlType::from_column(base_values, info.schema[info.n_keys])? == ScalarSqlType::Unit",
    )
}

// ---------------------------------------------------------------------------
// The ordered-union merge.

/// A merge expression applies a named primitive to the given arguments.
pub open spec fn named_primitive_check(
    catalog: Catalog,
    merge: MergeFn,
    expected: Seq<char>,
    patterns: Seq<MergePattern>,
) -> Check {
    match merge {
        MergeFn::Primitive { name, input, output, args, .. } => holds(
            name@ == expected && input@.len() == patterns.len() && all_ids(input@) && output
                == ColumnTy::Id && args@.len() == patterns.len(),
            Scope::StandardRebuild,
            "primitive `"@ + expected + "` has an incompatible signature"@,
        ).and(patterns_check(catalog, Scope::StandardRebuild, args@, patterns, patterns.len())),
        _ => holds(
            false,
            Scope::StandardRebuild,
            "merge requires primitive `"@ + expected + "`"@,
        ),
    }
}

fn expect_primitive(
    catalog: &Catalog,
    merge: &MergeFn,
    expected: &str,
    patterns: &Vec<MergePattern>,
) -> (checked: Result<(), Rejection>)
    ensures
        yields(checked, named_primitive_check(*catalog, *merge, expected@, patterns@), ()),
{
    match merge {
        MergeFn::Primitive { name, input, output, args, .. } => {
            let compatible = same_text(name.as_str(), expected) && input.len() == patterns.len()
                && are_ids(input) && *output == ColumnTy::Id && args.len() == patterns.len();
            if !compatible {
                let mut text = "primitive `".to_owned();
                text.append(expected);
                text.append("` has an incompatible signature");
                return Err(reject_with(Scope::StandardRebuild, text));
            }
            expect_patterns(catalog, Scope::StandardRebuild, args, patterns)
        },
        _ => {
            let mut text = "merge requires primitive `".to_owned();
            text.append(expected);
            text.append("`");
            Err(reject_with(Scope::StandardRebuild, text))
        },
    }
}

/// A merge step binds a slot to a named primitive.
pub open spec fn named_let_check(
    catalog: Catalog,
    action: MergeAction,
    slot: usize,
    expected: Seq<char>,
    patterns: Seq<MergePattern>,
) -> Check {
    match action {
        MergeAction::Let { slot: actual, value } => same_number_check(
            "*actual == slot"@,
            actual as nat,
            slot as nat,
        ).and(named_primitive_check(catalog, value, expected, patterns)),
        _ => holds(
            false,
            Scope::StandardRebuild,
            "merge slot "@ + decimal(slot as nat) + " must be a Let"@,
        ),
    }
}

fn expect_let_primitive(
    catalog: &Catalog,
    action: &MergeAction,
    slot: usize,
    expected: &str,
    patterns: &Vec<MergePattern>,
) -> (checked: Result<(), Rejection>)
    ensures
        yields(checked, named_let_check(*catalog, *action, slot, expected@, patterns@), ()),
{
    match action {
        MergeAction::Let { slot: actual, value } => {
            require_same_number("*actual == slot", *actual, slot)?;
            expect_primitive(catalog, value, expected, patterns)
        },
        _ => {
            let mut text = "merge slot ".to_owned();
            append_number(&mut text, slot as u64);
            text.append(" must be a Let");
            Err(reject_with(Scope::StandardRebuild, text))
        },
    }
}

/// What the call of `get-fresh!` in a merge has to be, as it is reported.
pub open spec fn fresh_condition() -> Seq<char> {
    "name == \"get-fresh!\" && input.len() == 1 && ScalarSqlType::from_column(base_values, input[0])? == ScalarSqlType::String && *output == ColumnTy::Id && args.len() == 1"@
}

fn fresh_condition_str() -> (condition: &'static str)
    ensures
        condition@ == fresh_condition(),
{
    "name == \"get-fresh!\" && input.len() == 1 && ScalarSqlType::from_column(base_values, input[0])? == ScalarSqlType::String && *output == ColumnTy::Id && args.len() == 1"
}

/// A merge expression calls `get-fresh!` with a string constant.
pub open spec fn named_fresh_check(catalog: Catalog, value: MergeFn) -> Check {
    match value {
        MergeFn::Primitive { name, input, output, args, .. } => {
            let condition = fresh_condition();
            stated(name@ == "get-fresh!"@ && input@.len() == 1, condition).and(
                scalar_check(
                    catalog,
                    input@[0],
                    ScalarSqlType::String,
                    Scope::Bare,
                    failed_text(condition),
                ),
            ).and(
                stated(output == ColumnTy::Id && args@.len() == 1, condition),
            ).and(
                match args@[0] {
                    MergeFn::Const { ty, .. } => column_type_check(
                        catalog,
                        ty,
                        ScalarSqlType::String,
                        "ScalarSqlType::from_column(base_values, *ty)? == ScalarSqlType::String"@,
                    ),
                    _ => holds(
                        false,
                        Scope::StandardRebuild,
                        "merge get-fresh! requires a typed constant"@,
                    ),
                },
            )
        },
        _ => holds(
            false,
            Scope::StandardRebuild,
            "merge fresh slot must call a primitive"@,
        ),
    }
}

/// A merge step allocates a labelled id.
pub open spec fn fresh_step_check(catalog: Catalog, action: MergeAction, slot: usize) -> Check {
    match action {
        MergeAction::Let { slot: actual, value } => same_number_check(
            "*actual == slot"@,
            actual as nat,
            slot as nat,
        ).and(named_fresh_check(catalog, value)),
        _ => holds(
            false,
            Scope::StandardRebuild,
            "merge fresh slot "@ + decimal(slot as nat) + " must be a Let"@,
        ),
    }
}

fn expect_fresh_merge(catalog: &Catalog, action: &MergeAction, slot: usize) -> (label: Result<
    RuleValue,
    Rejection,
>)
    ensures
        yields(label, fresh_step_check(*catalog, *action, slot), merge_fresh(*action).1),
{
    match action {
        MergeAction::Let { slot: actual, value } => {
            require_same_number("*actual == slot", *actual, slot)?;
            match value {
                MergeFn::Primitive { name, input, output, args, .. } => {
                    let condition = fresh_condition_str();
                    let text = failed(condition);
                    require_stated(
                        same_text(name.as_str(), "get-fresh!") && input.len() == 1,
                        condition,
                    )?;
                    require_scalar(
                        catalog,
                        input[0],
                        ScalarSqlType::String,
                        Scope::Bare,
                        text.as_str(),
                    )?;
                    require_stated(*output == ColumnTy::Id && args.len() == 1, condition)?;
                    match &args[0] {
                        MergeFn::Const { value, ty } => {
                            require_column_type(
                                catalog,
                                *ty,
                                ScalarSqlType::String,
                                "ScalarSqlType::from_column(base_values, *ty)? == ScalarSqlType::String",
                            )?;
                            Ok(RuleValue { value: *value, ty: *ty })
                        },
                        _ => Err(
                            reject(
                                Scope::StandardRebuild,
                                "merge get-fresh! requires a typed constant",
                            ),
                        ),
                    }
                },
                _ => Err(reject(Scope::StandardRebuild, "merge fresh slot must call a primitive")),
            }
        },
        _ => {
            let mut text = "merge fresh slot ".to_owned();
            append_number(&mut text, slot as u64);
            text.append(" must be a Let");
            Err(reject_with(Scope::StandardRebuild, text))
        },
    }
}

/// A merge step records a proof row.
pub open spec fn union_proof_check(
    catalog: Catalog,
    action: MergeAction,
    patterns: Seq<MergePattern>,
    key_types: Seq<ScalarSqlType>,
) -> Check {
    match action {
        MergeAction::SetRow(target, args) => same_number_check(
            "arguments.len() == expected.len()"@,
            args@.len(),
            patterns.len(),
        ).and(
            patterns_check(catalog, Scope::StandardRebuild, args@, patterns, patterns.len()),
        ).and(assert_eq_check(catalog, target, key_types)),
        _ => holds(false, Scope::StandardRebuild, "merge proof action must be a Set"@),
    }
}

fn expect_merge_proof_set(
    catalog: &Catalog,
    action: &MergeAction,
    patterns: &Vec<MergePattern>,
    key_types: Vec<ScalarSqlType>,
) -> (target: Result<FunctionId, Rejection>)
    requires
        key_types@.len() < usize::MAX,
    ensures
        yields(
            target,
            union_proof_check(*catalog, *action, patterns@, key_types@),
            merge_target(*action),
        ),
{
    match action {
        MergeAction::SetRow(target, args) => {
            require_same_number(
                "arguments.len() == expected.len()",
                args.len(),
                patterns.len(),
            )?;
            expect_patterns(catalog, Scope::StandardRebuild, args, patterns)?;
            validate_assert_eq_table(catalog, *target, key_types)?;
            Ok(*target)
        },
        _ => Err(reject(Scope::StandardRebuild, "merge proof action must be a Set")),
    }
}

/// What the symmetry step proves from.
pub open spec fn sym_patterns(orientation: OrderedUnionOrientation) -> Seq<MergePattern> {
    match orientation {
        OrderedUnionOrientation::KeyToParent => seq![
            MergePattern::Let(0),
            MergePattern::Let(2),
            MergePattern::Unit,
        ],
        OrderedUnionOrientation::EclassToTerm => seq![
            MergePattern::Let(1),
            MergePattern::Let(2),
            MergePattern::Unit,
        ],
    }
}

/// What the transitivity step proves from.
pub open spec fn trans_patterns(orientation: OrderedUnionOrientation) -> Seq<MergePattern> {
    match orientation {
        OrderedUnionOrientation::KeyToParent => seq![
            MergePattern::Let(2),
            MergePattern::Let(1),
            MergePattern::Let(3),
            MergePattern::Unit,
        ],
        OrderedUnionOrientation::EclassToTerm => seq![
            MergePattern::Let(0),
            MergePattern::Let(2),
            MergePattern::Let(3),
            MergePattern::Unit,
        ],
    }
}

/// Id keys.
pub open spec fn id_types(count: nat) -> Seq<ScalarSqlType> {
    Seq::new(count, |i: int| ScalarSqlType::Id)
}

/// The last step moves the displaced identity into a union-find table.
pub open spec fn displace_check(
    catalog: Catalog,
    action: MergeAction,
    expected: Option<FunctionId>,
) -> Check {
    match action {
        MergeAction::SetRow(target, args) => holds(
            args@.len() == 3,
            Scope::StandardRebuild,
            "ordered-union UF Set must have three arguments"@,
        ).and(
            holds(
                expected is None || expected == Some(target),
                Scope::StandardRebuild,
                "UF ordered union must displace into itself"@,
            ),
        ).and(named_primitive_check(catalog, args@[0], "ordering-max"@, identity_patterns())).and(
            named_primitive_check(catalog, args@[1], "ordering-min"@, identity_patterns()),
        ).and(pattern_check(catalog, Scope::StandardRebuild, args@[2], MergePattern::Let(3))),
        _ => holds(false, Scope::StandardRebuild, "ordered union must Set its UF target"@),
    }
}

fn displaced_identity(
    catalog: &Catalog,
    action: &MergeAction,
    expected: Option<FunctionId>,
) -> (target: Result<FunctionId, Rejection>)
    ensures
        yields(target, displace_check(*catalog, *action, expected), merge_target(*action)),
{
    match action {
        MergeAction::SetRow(target, args) => {
            require(
                args.len() == 3,
                Scope::StandardRebuild,
                "ordered-union UF Set must have three arguments",
            )?;
            match expected {
                Some(own) => {
                    require(
                        *target == own,
                        Scope::StandardRebuild,
                        "UF ordered union must displace into itself",
                    )?;
                },
                None => {},
            }
            expect_primitive(catalog, &args[0], "ordering-max", &identity_arguments())?;
            expect_primitive(catalog, &args[1], "ordering-min", &identity_arguments())?;
            expect_pattern(catalog, Scope::StandardRebuild, &args[2], let_var(3))?;
            Ok(*target)
        },
        _ => Err(reject(Scope::StandardRebuild, "ordered union must Set its UF target")),
    }
}

/// The merge keeps the smaller identity and its payload.
pub open spec fn union_result_check(catalog: Catalog, result: MergeFn) -> Check {
    match result {
        MergeFn::Columns(columns) => holds(
            columns@.len() == 2,
            Scope::StandardRebuild,
            "ordered-union result must have two columns"@,
        ).and(named_primitive_check(catalog, columns@[0], "ordering-min"@, identity_patterns())).and(
            pattern_check(catalog, Scope::StandardRebuild, columns@[1], MergePattern::Let(1)),
        ),
        _ => holds(false, Scope::StandardRebuild, "ordered-union result must be Columns"@),
    }
}

fn union_result(catalog: &Catalog, result: &MergeFn) -> (checked: Result<(), Rejection>)
    ensures
        yields(checked, union_result_check(*catalog, *result), ()),
{
    match result {
        MergeFn::Columns(columns) => {
            require(
                columns.len() == 2,
                Scope::StandardRebuild,
                "ordered-union result must have two columns",
            )?;
            expect_primitive(catalog, &columns[0], "ordering-min", &identity_arguments())?;
            expect_pattern(catalog, Scope::StandardRebuild, &columns[1], let_var(1))
        },
        _ => Err(reject(Scope::StandardRebuild, "ordered-union result must be Columns")),
    }
}

/// The steps of an ordered union, in order.
pub open spec fn union_steps_check(
    catalog: Catalog,
    actions: Seq<MergeAction>,
    expected: Option<FunctionId>,
    orientation: OrderedUnionOrientation,
) -> Check {
    named_let_check(catalog, actions[0], 0, "proof-of-max"@, payload_patterns()).and(
        named_let_check(catalog, actions[1], 1, "proof-of-min"@, payload_patterns()),
    ).and(fresh_step_check(catalog, actions[2], 2)).and(
        union_proof_check(catalog, actions[3], sym_patterns(orientation), id_types(2)),
    ).and(fresh_step_check(catalog, actions[4], 3)).and(
        stated(
            merge_fresh(actions[2]).1 == merge_fresh(actions[4]).1,
            "sym_label == trans_label"@,
        ),
    ).and(
        union_proof_check(catalog, actions[5], trans_patterns(orientation), id_types(3)),
    ).and(displace_check(catalog, actions[6], expected))
}

/// A merge is the ordered union of its table.
pub open spec fn union_check(
    catalog: Catalog,
    merge: MergeFn,
    expected: Option<FunctionId>,
    orientation: OrderedUnionOrientation,
) -> Check {
    match merge {
        MergeFn::Block { actions, result } => holds(
            actions@.len() == 7,
            Scope::StandardRebuild,
            "ordered-union Block must have seven actions"@,
        ).and(union_steps_check(catalog, actions@, expected, orientation)).and(
            union_result_check(catalog, *result),
        ),
        _ => holds(false, Scope::StandardRebuild, "target requires an ordered-union Block"@),
    }
}

/// The plan of a table whose merge is an ordered union.
pub open spec fn union_view(
    catalog: Catalog,
    target: FunctionId,
    orientation: OrderedUnionOrientation,
) -> OrderedUnionView {
    let info = table_of(catalog, target);
    match info.merge {
        MergeFn::Block { actions, .. } => OrderedUnionView {
            target,
            displaced_target: merge_target(actions@[6]),
            sym: merge_target(actions@[3]),
            trans: merge_target(actions@[5]),
            orientation,
            columns: info.columns@,
            n_keys: info.n_keys,
        },
        _ => arbitrary(),
    }
}

/// The constant that the fresh ids of a merge are labelled with.
pub open spec fn union_label(merge: MergeFn) -> RuleValue {
    match merge {
        MergeFn::Block { actions, .. } => merge_fresh(actions@[2]).1,
        _ => arbitrary(),
    }
}

/// A validated ordered union and its fresh label.
pub struct ValidatedOrderedUnion {
    pub plan: OrderedUnionPlan,
    pub label: RuleValue,
}

impl View for ValidatedOrderedUnion {
    type V = (OrderedUnionView, RuleValue);

    open spec fn view(&self) -> (OrderedUnionView, RuleValue) {
        (self.plan@, self.label)
    }
}

fn sym_arguments(orientation: OrderedUnionOrientation) -> (patterns: Vec<MergePattern>)
    ensures
        patterns@ == sym_patterns(orientation),
{
    let first = match orientation {
        OrderedUnionOrientation::KeyToParent => let_var(0),
        OrderedUnionOrientation::EclassToTerm => let_var(1),
    };
    let patterns = vec![first, let_var(2), unit()];
    assert(patterns@ =~= sym_patterns(orientation));
    patterns
}

fn trans_arguments(orientation: OrderedUnionOrientation) -> (patterns: Vec<MergePattern>)
    ensures
        patterns@ == trans_patterns(orientation),
{
    let patterns = match orientation {
        OrderedUnionOrientation::KeyToParent => vec![let_var(2), let_var(1), let_var(3), unit()],
        OrderedUnionOrientation::EclassToTerm => vec![let_var(0), let_var(2), let_var(3), unit()],
    };
    assert(patterns@ =~= trans_patterns(orientation));
    patterns
}

fn id_keys(count: usize) -> (types: Vec<ScalarSqlType>)
    ensures
        types@ == id_types(count as nat),
{
    let mut types: Vec<ScalarSqlType> = Vec::new();
    while types.len() < count
        invariant
            types.len() <= count,
            forall|i: int| 0 <= i < types.len() ==> types@[i] == ScalarSqlType::Id,
        decreases count - types.len(),
    {
        types.push(ScalarSqlType::Id);
    }
    assert(types@ =~= id_types(count as nat));
    types
}

/// A copy of a list of scalar types.
pub fn copy_columns(columns: &Vec<ScalarSqlType>) -> (copy: Vec<ScalarSqlType>)
    ensures
        copy@ == columns@,
{
    let mut copy: Vec<ScalarSqlType> = Vec::new();
    let mut i: usize = 0;
    while i < columns.len()
        invariant
            i <= columns.len(),
            copy@ == columns@.take(i as int),
        decreases columns.len() - i,
    {
        copy.push(columns[i]);
        i += 1;
        assert(copy@ =~= columns@.take(i as int));
    }
    assert(columns@.take(columns.len() as int) =~= columns@);
    copy
}

/// Validates the ordered-union merge of a table.
pub fn validate_ordered_union(
    catalog: &Catalog,
    target: FunctionId,
    info: &TableInfo,
    expected: Option<FunctionId>,
    orientation: OrderedUnionOrientation,
) -> (validated: Result<ValidatedOrderedUnion, Rejection>)
    requires
        table_at(*catalog, target) == Ok::<TableInfo, RejectionView>(*info),
    ensures
        yields_view(
            validated,
            union_check(*catalog, info.merge, expected, orientation),
            (union_view(*catalog, target, orientation), union_label(info.merge)),
        ),
{
    match &info.merge {
        MergeFn::Block { actions, result } => {
            require(
                actions.len() == 7,
                Scope::StandardRebuild,
                "ordered-union Block must have seven actions",
            )?;
            expect_let_primitive(catalog, &actions[0], 0, "proof-of-max", &payload_arguments())?;
            expect_let_primitive(catalog, &actions[1], 1, "proof-of-min", &payload_arguments())?;
            let label = expect_fresh_merge(catalog, &actions[2], 2)?;
            let sym = expect_merge_proof_set(
                catalog,
                &actions[3],
                &sym_arguments(orientation),
                id_keys(2),
            )?;
            let trans_label = expect_fresh_merge(catalog, &actions[4], 3)?;
            require_stated(label == trans_label, "sym_label == trans_label")?;
            let trans = expect_merge_proof_set(
                catalog,
                &actions[5],
                &trans_arguments(orientation),
                id_keys(3),
            )?;
            let displaced_target = displaced_identity(catalog, &actions[6], expected)?;
            union_result(catalog, result)?;
            let plan = OrderedUnionPlan {
                target,
                displaced_target,
                sym,
                trans,
                orientation,
                columns: copy_columns(&info.columns),
                n_keys: info.n_keys,
            };
            Ok(ValidatedOrderedUnion { plan, label })
        },
        _ => Err(reject(Scope::StandardRebuild, "target requires an ordered-union Block")),
    }
}

/// Validates the union-find table that a marker rule joins: its configuration,
/// and its union-find merge under authenticated tokens.
pub open spec fn marker_union_find_check(
    catalog: Catalog,
    registries: AuthorityRegistries,
    target: FunctionId,
) -> Check {
    let merge = table_of(catalog, target).merge;
    table_check(catalog, target).and(
        holds(
            union_find_config(table_of(catalog, target)),
            Scope::Marker,
            "has an incompatible UF configuration"@,
        ),
    ).and(
        match path_merge_check(catalog, registries, target, merge).fault {
            Some(cause) => Check {
                fault: Some(
                    rejected_because(Scope::Marker, "has an incompatible UF merge"@, cause.text),
                ),
            },
            None => Check { fault: None },
        },
    )
}

/// Validates the union-find table that a marker rule joins.
pub fn validate_marker_union_find(
    catalog: &Catalog,
    registries: &AuthorityRegistries,
    target: FunctionId,
) -> (plan: Result<OrderedUnionPlan, Rejection>)
    ensures
        yields_view(
            plan,
            marker_union_find_check(*catalog, *registries, target),
            union_view(*catalog, target, OrderedUnionOrientation::KeyToParent),
        ),
{
    let info = catalog.table_info(target)?;
    require(
        is_union_find_config(info),
        Scope::Marker,
        "has an incompatible UF configuration",
    )?;
    match validate_union_find_merge(catalog, registries, target, &info.merge) {
        Ok((sym, trans, _)) => Ok(
            OrderedUnionPlan {
                target,
                displaced_target: target,
                sym,
                trans,
                orientation: OrderedUnionOrientation::KeyToParent,
                columns: copy_columns(&info.columns),
                n_keys: info.n_keys,
            },
        ),
        Err(cause) => Err(
            reject_because(Scope::Marker, "has an incompatible UF merge".to_owned(), cause),
        ),
    }
}

// ---------------------------------------------------------------------------
// The body.

/// The variables that the body of a rebuild rule binds.
pub struct RebuildVars {
    pub keys: Seq<RuleVar>,
    pub identity: RuleVar,
    pub payload: RuleVar,
    pub edge_key: RuleVar,
    pub canonical: RuleVar,
    pub edge_payload: RuleVar,
    pub result: RuleVar,
}

/// The variables of the body, by role.
pub open spec fn rebuild_vars(catalog: Catalog, rule: RuleSpec, roles: RebuildRoles) -> RebuildVars {
    let view = rule.body@[roles.view].args@;
    let edge = rule.body@[roles.union_find].args@;
    let n_keys = table_of(catalog, atom_table(rule.body@[roles.view])).n_keys;
    RebuildVars {
        keys: vars_of(view, n_keys as nat),
        identity: var_of(view[n_keys as int]),
        payload: var_of(view[n_keys + 1]),
        edge_key: var_of(edge[0]),
        canonical: var_of(edge[1]),
        edge_payload: var_of(edge[2]),
        result: var_of(rule.body@[roles.guard].args@[2]),
    }
}

impl RebuildVars {
    /// The binding roles of the body. The edge's key is one of the others.
    pub open spec fn bound(self) -> Seq<RuleVar> {
        self.keys + seq![
            self.identity,
            self.payload,
            self.canonical,
            self.edge_payload,
            self.result,
        ]
    }
}

/// The View atom and the edge atom consist of variables of the right types.
pub open spec fn rebuild_atoms_check(
    info: TableInfo,
    view: Seq<AtomTerm>,
    edge: Seq<AtomTerm>,
) -> Check {
    let n_keys = info.n_keys as int;
    holds(
        view.len() == info.schema@.len(),
        Scope::StandardRebuild,
        "View atom has the wrong arity"@,
    ).and(typed_vars_check(Scope::StandardRebuild, view, info.schema@, info.n_keys as nat)).and(
        id_var_check(Scope::StandardRebuild, view[n_keys]),
    ).and(id_var_check(Scope::StandardRebuild, view[n_keys + 1])).and(
        holds(
            edge.len() == 3,
            Scope::StandardRebuild,
            "UF atom must have three Id variables"@,
        ),
    ).and(id_var_check(Scope::StandardRebuild, edge[0])).and(
        id_var_check(Scope::StandardRebuild, edge[1]),
    ).and(id_var_check(Scope::StandardRebuild, edge[2]))
}

/// The variables of the View atom and the edge atom.
struct AtomVars {
    keys: Vec<RuleVar>,
    identity: RuleVar,
    payload: RuleVar,
    edge_key: RuleVar,
    canonical: RuleVar,
    edge_payload: RuleVar,
}

impl AtomVars {
    /// These are the variables of the body, by role.
    spec fn matches(self, vars: RebuildVars) -> bool {
        &&& self.keys@ == vars.keys
        &&& self.identity == vars.identity
        &&& self.payload == vars.payload
        &&& self.edge_key == vars.edge_key
        &&& self.canonical == vars.canonical
        &&& self.edge_payload == vars.edge_payload
    }
}

fn rebuild_atoms(info: &TableInfo, view: &Vec<AtomTerm>, edge: &Vec<AtomTerm>) -> (vars: Result<
    AtomVars,
    Rejection,
>)
    requires
        info.schema@.len() == info.n_keys + 2,
    ensures
        match vars {
            Ok(found) => {
                &&& rebuild_atoms_check(*info, view@, edge@).fault is None
                &&& found.keys@ == vars_of(view@, info.n_keys as nat)
                &&& found.identity == var_of(view@[info.n_keys as int])
                &&& found.payload == var_of(view@[info.n_keys + 1])
                &&& found.edge_key == var_of(edge@[0])
                &&& found.canonical == var_of(edge@[1])
                &&& found.edge_payload == var_of(edge@[2])
            },
            Err(error) => rebuild_atoms_check(*info, view@, edge@).fault == Some(error@),
        },
{
    require(
        view.len() == info.schema.len(),
        Scope::StandardRebuild,
        "View atom has the wrong arity",
    )?;
    let keys = typed_vars(Scope::StandardRebuild, view, &info.schema, info.n_keys)?;
    let identity = id_var(Scope::StandardRebuild, &view[info.n_keys])?;
    let payload = id_var(Scope::StandardRebuild, &view[info.n_keys + 1])?;
    require(
        edge.len() == 3,
        Scope::StandardRebuild,
        "UF atom must have three Id variables",
    )?;
    let edge_key = id_var(Scope::StandardRebuild, &edge[0])?;
    let canonical = id_var(Scope::StandardRebuild, &edge[1])?;
    let edge_payload = id_var(Scope::StandardRebuild, &edge[2])?;
    Ok(AtomVars { keys, identity, payload, edge_key, canonical, edge_payload })
}

/// The edge redirects one key of the View, or its identity.
pub open spec fn stale_check(shape: OuterShape, vars: RebuildVars) -> Check {
    match shape {
        OuterShape::EqKey => holds(
            only_position(vars.keys, vars.edge_key) is Some,
            Scope::EqKeyRebuild,
            "UF key must be exactly one View key"@,
        ),
        OuterShape::EclassOutput => same_var_check(
            Scope::StandardRebuild,
            vars.identity,
            vars.edge_key,
            "value-to-UF join"@,
        ),
    }
}

/// The position of the redirected key.
pub open spec fn stale_key(vars: RebuildVars) -> usize {
    match only_position(vars.keys, vars.edge_key) {
        Some(position) => position as usize,
        None => arbitrary(),
    }
}

/// The primitive atom states that the stale id is not canonical.
pub open spec fn rebuild_guard_check(
    catalog: Catalog,
    atom: Atom,
    stale: RuleVar,
    canonical: RuleVar,
) -> Check {
    match atom.head {
        RuleBodyCall::Primitive { name, output, .. } => {
            let args = atom.args@;
            let text = "requires `!= (Id, Id) -> Unit`"@;
            holds(name@ == "!="@, Scope::StandardRebuild, text).and(
                scalar_check(catalog, output, ScalarSqlType::Unit, Scope::StandardRebuild, text),
            ).and(
                holds(
                    args.len() == 3,
                    Scope::StandardRebuild,
                    "inequality has the wrong arity"@,
                ),
            ).and(
                is_var_check(
                    Scope::StandardRebuild,
                    stale,
                    args[0],
                    ColumnTy::Id,
                    "inequality lhs"@,
                ),
            ).and(
                is_var_check(
                    Scope::StandardRebuild,
                    canonical,
                    args[1],
                    ColumnTy::Id,
                    "inequality rhs"@,
                ),
            ).and(
                holds(
                    args[2] is Var,
                    Scope::StandardRebuild,
                    "inequality output must be a variable"@,
                ),
            ).and(
                scalar_check(
                    catalog,
                    var_of(args[2]).ty,
                    ScalarSqlType::Unit,
                    Scope::StandardRebuild,
                    "inequality output must have Unit type"@,
                ),
            )
        },
        _ => holds(false, Scope::StandardRebuild, "requires a typed inequality atom"@),
    }
}

fn validate_inequality(
    catalog: &Catalog,
    atom: &Atom,
    stale: RuleVar,
    canonical: RuleVar,
) -> (result: Result<RuleVar, Rejection>)
    ensures
        yields(
            result,
            rebuild_guard_check(*catalog, *atom, stale, canonical),
            var_of(atom.args@[2]),
        ),
{
    match &atom.head {
        RuleBodyCall::Primitive { name, output, .. } => {
            let text = "requires `!= (Id, Id) -> Unit`";
            require(same_text(name.as_str(), "!="), Scope::StandardRebuild, text)?;
            require_scalar(catalog, *output, ScalarSqlType::Unit, Scope::StandardRebuild, text)?;
            require(
                atom.args.len() == 3,
                Scope::StandardRebuild,
                "inequality has the wrong arity",
            )?;
            is_var(
                Scope::StandardRebuild,
                stale,
                &atom.args[0],
                ColumnTy::Id,
                "inequality lhs",
            )?;
            is_var(
                Scope::StandardRebuild,
                canonical,
                &atom.args[1],
                ColumnTy::Id,
                "inequality rhs",
            )?;
            match &atom.args[2] {
                AtomTerm::Var(variable) => {
                    require_scalar(
                        catalog,
                        variable.ty,
                        ScalarSqlType::Unit,
                        Scope::StandardRebuild,
                        "inequality output must have Unit type",
                    )?;
                    Ok(*variable)
                },
                _ => Err(reject(Scope::StandardRebuild, "inequality output must be a variable")),
            }
        },
        _ => Err(reject(Scope::StandardRebuild, "requires a typed inequality atom")),
    }
}

// ---------------------------------------------------------------------------
// The heads.

/// An action allocates a labelled id.
pub open spec fn rebuild_fresh_check(catalog: Catalog, action: CoreAction) -> Check {
    match action {
        CoreAction::Let(binding, call, args) => match call {
            RuleActionCall::Primitive { name, output, .. } => holds(
                name@ == "get-fresh!"@ && output == ColumnTy::Id && binding.ty == ColumnTy::Id,
                Scope::StandardRebuild,
                "requires get-fresh! (String) -> Id"@,
            ).and(
                holds(
                    args@.len() == 1,
                    Scope::StandardRebuild,
                    "get-fresh! must have one argument"@,
                ),
            ).and(
                holds(
                    args@[0] is Literal,
                    Scope::StandardRebuild,
                    "fresh label must be a literal"@,
                ),
            ).and(
                scalar_check(
                    catalog,
                    literal_of(args@[0]).ty,
                    ScalarSqlType::String,
                    Scope::StandardRebuild,
                    "fresh label must have String type"@,
                ),
            ),
            _ => holds(false, Scope::StandardRebuild, "fresh action must call a primitive"@),
        },
        _ => holds(false, Scope::StandardRebuild, "fresh action must be a Let"@),
    }
}

fn head_fresh(catalog: &Catalog, action: &CoreAction) -> (fresh: Result<
    (RuleVar, RuleValue),
    Rejection,
>)
    ensures
        yields(
            fresh,
            rebuild_fresh_check(*catalog, *action),
            (bound_var(*action), fresh_label(*action)),
        ),
{
    match action {
        CoreAction::Let(binding, call, args) => match call {
            RuleActionCall::Primitive { name, output, .. } => {
                require(
                    same_text(name.as_str(), "get-fresh!") && *output == ColumnTy::Id && binding.ty
                        == ColumnTy::Id,
                    Scope::StandardRebuild,
                    "requires get-fresh! (String) -> Id",
                )?;
                require(
                    args.len() == 1,
                    Scope::StandardRebuild,
                    "get-fresh! must have one argument",
                )?;
                match &args[0] {
                    AtomTerm::Literal(label) => {
                        require_scalar(
                            catalog,
                            label.ty,
                            ScalarSqlType::String,
                            Scope::StandardRebuild,
                            "fresh label must have String type",
                        )?;
                        Ok((*binding, *label))
                    },
                    _ => Err(reject(Scope::StandardRebuild, "fresh label must be a literal")),
                }
            },
            _ => Err(reject(Scope::StandardRebuild, "fresh action must call a primitive")),
        },
        _ => Err(reject(Scope::StandardRebuild, "fresh action must be a Let")),
    }
}

/// An action renames a fresh id.
pub open spec fn rebuild_alias_check(action: CoreAction, fresh: RuleVar) -> Check {
    match action {
        CoreAction::LetAtomTerm(alias, source) => id_type_check(
            "alias.ty == ColumnTy::Id"@,
            alias.ty,
        ).and(
            is_var_check(
                Scope::StandardRebuild,
                fresh,
                source,
                ColumnTy::Id,
                "fresh alias source"@,
            ),
        ),
        _ => holds(
            false,
            Scope::StandardRebuild,
            "fresh result must have one SSA alias"@,
        ),
    }
}

fn head_alias(action: &CoreAction, fresh: RuleVar) -> (alias: Result<RuleVar, Rejection>)
    ensures
        yields(alias, rebuild_alias_check(*action, fresh), bound_var(*action)),
{
    match action {
        CoreAction::LetAtomTerm(alias, source) => {
            require_id_type("alias.ty == ColumnTy::Id", alias.ty)?;
            is_var(
                Scope::StandardRebuild,
                fresh,
                source,
                ColumnTy::Id,
                "fresh alias source",
            )?;
            Ok(*alias)
        },
        _ => Err(reject(Scope::StandardRebuild, "fresh result must have one SSA alias")),
    }
}

/// The only value of a proof row is the unit constant.
pub open spec fn rebuild_unit_check(catalog: Catalog, values: Seq<AtomTerm>) -> Check {
    holds(
        values.len() == 1,
        Scope::StandardRebuild,
        "proof Set must have one Unit value"@,
    ).and(
        holds(values[0] is Literal, Scope::StandardRebuild, "proof value must be a literal"@),
    ).and(
        column_type_check(
            catalog,
            literal_of(values[0]).ty,
            ScalarSqlType::Unit,
            "ScalarSqlType::from_column(base_values, value.ty)? == ScalarSqlType::Unit"@,
        ),
    ).and(literal_check(catalog, ScalarSqlType::Unit, literal_of(values[0]).value))
}

fn unit_value(catalog: &Catalog, values: &Vec<AtomTerm>) -> (checked: Result<(), Rejection>)
    ensures
        yields(checked, rebuild_unit_check(*catalog, values@), ()),
{
    require(
        values.len() == 1,
        Scope::StandardRebuild,
        "proof Set must have one Unit value",
    )?;
    match &values[0] {
        AtomTerm::Literal(value) => {
            require_column_type(
                catalog,
                value.ty,
                ScalarSqlType::Unit,
                "ScalarSqlType::from_column(base_values, value.ty)? == ScalarSqlType::Unit",
            )?;
            match catalog.sql_literal(ScalarSqlType::Unit, value.value) {
                Ok(_) => Ok(()),
                Err(error) => Err(error),
            }
        },
        _ => Err(reject(Scope::StandardRebuild, "proof value must be a literal")),
    }
}

/// An action records a proof row.
pub open spec fn head_proof_check(
    catalog: Catalog,
    action: CoreAction,
    expected: Seq<RuleVar>,
) -> Check {
    match action {
        CoreAction::SetRow(call, args, values) => table_action_check(
            Scope::StandardRebuild,
            call,
            "proof Set"@,
        ).and(assert_eq_check(catalog, called_table(call), id_types(expected.len()))).and(
            same_number_check(
                "arguments.len() == expected_vars.len()"@,
                args@.len(),
                expected.len(),
            ),
        ).and(
            vars_check(
                Scope::StandardRebuild,
                expected,
                args@,
                "proof Set argument"@,
                expected.len(),
            ),
        ).and(rebuild_unit_check(catalog, values@)),
        _ => holds(false, Scope::StandardRebuild, "proof action must be a Set"@),
    }
}

fn validate_head_proof_set(catalog: &Catalog, action: &CoreAction, expected: Vec<RuleVar>) -> (
    target: Result<FunctionId, Rejection>)
    requires
        expected@.len() < usize::MAX,
    ensures
        yields(target, head_proof_check(*catalog, *action, expected@), set_table(*action)),
{
    match action {
        CoreAction::SetRow(call, args, values) => {
            let target = table_action(Scope::StandardRebuild, call, "proof Set")?;
            validate_assert_eq_table(catalog, target, id_keys(expected.len()))?;
            require_same_number(
                "arguments.len() == expected_vars.len()",
                args.len(),
                expected.len(),
            )?;
            same_vars(Scope::StandardRebuild, &expected, args, "proof Set argument")?;
            unit_value(catalog, values)?;
            Ok(target)
        },
        _ => Err(reject(Scope::StandardRebuild, "proof action must be a Set")),
    }
}

/// The View keys, with the stale one replaced.
pub open spec fn canonical_keys(
    keys: Seq<RuleVar>,
    replacement: Option<(usize, RuleVar)>,
) -> Seq<RuleVar> {
    match replacement {
        Some((index, canonical)) => keys.update(index as int, canonical),
        None => keys,
    }
}

/// An action writes the canonical View row.
pub open spec fn view_set_check(
    action: CoreAction,
    view: FunctionId,
    keys: Seq<RuleVar>,
    identity: RuleVar,
    payload: RuleVar,
) -> Check {
    match action {
        CoreAction::SetRow(call, args, values) => table_action_check(
            Scope::StandardRebuild,
            call,
            "canonical View Set"@,
        ).and(
            same_table_check(
                "table_action(rule_name, call, \"canonical View Set\")? == view"@,
                called_table(call),
                view,
            ),
        ).and(
            same_number_check("arguments.len() == key_vars.len()"@, args@.len(), keys.len()),
        ).and(
            vars_check(
                Scope::StandardRebuild,
                keys,
                args@,
                "canonical View key"@,
                keys.len(),
            ),
        ).and(
            holds(
                values@.len() == 2,
                Scope::StandardRebuild,
                "View Set must have two Id values"@,
            ),
        ).and(
            is_var_check(
                Scope::StandardRebuild,
                identity,
                values@[0],
                ColumnTy::Id,
                "canonical View identity"@,
            ),
        ).and(
            is_var_check(
                Scope::StandardRebuild,
                payload,
                values@[1],
                ColumnTy::Id,
                "canonical View payload"@,
            ),
        ),
        _ => holds(
            false,
            Scope::StandardRebuild,
            "canonical View action must be a Set"@,
        ),
    }
}

fn validate_view_set(
    action: &CoreAction,
    view: FunctionId,
    keys: &Vec<RuleVar>,
    identity: RuleVar,
    payload: RuleVar,
) -> (checked: Result<(), Rejection>)
    ensures
        yields(checked, view_set_check(*action, view, keys@, identity, payload), ()),
{
    match action {
        CoreAction::SetRow(call, args, values) => {
            let target = table_action(Scope::StandardRebuild, call, "canonical View Set")?;
            require_same_table(
                "table_action(rule_name, call, \"canonical View Set\")? == view",
                target,
                view,
            )?;
            require_same_number("arguments.len() == key_vars.len()", args.len(), keys.len())?;
            same_vars(Scope::StandardRebuild, keys, args, "canonical View key")?;
            require(
                values.len() == 2,
                Scope::StandardRebuild,
                "View Set must have two Id values",
            )?;
            is_var(
                Scope::StandardRebuild,
                identity,
                &values[0],
                ColumnTy::Id,
                "canonical View identity",
            )?;
            is_var(
                Scope::StandardRebuild,
                payload,
                &values[1],
                ColumnTy::Id,
                "canonical View payload",
            )
        },
        _ => Err(reject(Scope::StandardRebuild, "canonical View action must be a Set")),
    }
}

/// An action deletes the stale View row.
pub open spec fn view_delete_check(
    action: CoreAction,
    view: FunctionId,
    keys: Seq<RuleVar>,
) -> Check {
    match action {
        CoreAction::Change(change, call, args) => delete_check(
            "*change == Change::Delete"@,
            change,
        ).and(table_action_check(Scope::StandardRebuild, call, "stale View Delete"@)).and(
            same_table_check(
                "table_action(rule_name, call, \"stale View Delete\")? == view"@,
                called_table(call),
                view,
            ),
        ).and(
            same_number_check("arguments.len() == key_vars.len()"@, args@.len(), keys.len()),
        ).and(vars_check(Scope::StandardRebuild, keys, args@, "stale View key"@, keys.len())),
        _ => holds(false, Scope::EqKeyRebuild, "final action must be Delete"@),
    }
}

fn validate_view_delete(action: &CoreAction, view: FunctionId, keys: &Vec<RuleVar>) -> (checked:
    Result<(), Rejection>)
    ensures
        yields(checked, view_delete_check(*action, view, keys@), ()),
{
    match action {
        CoreAction::Change(change, call, args) => {
            require_delete("*change == Change::Delete", *change)?;
            let target = table_action(Scope::StandardRebuild, call, "stale View Delete")?;
            require_same_table(
                "table_action(rule_name, call, \"stale View Delete\")? == view",
                target,
                view,
            )?;
            require_same_number("arguments.len() == key_vars.len()", args.len(), keys.len())?;
            same_vars(Scope::StandardRebuild, keys, args, "stale View key")
        },
        _ => Err(reject(Scope::EqKeyRebuild, "final action must be Delete")),
    }
}

/// The key types of a congruence proof: row proof, child index, edge proof and
/// result.
pub open spec fn congr_types() -> Seq<ScalarSqlType> {
    seq![ScalarSqlType::Id, ScalarSqlType::I64, ScalarSqlType::Id, ScalarSqlType::Id]
}

/// An action records the congruence proof of the rebuilt key.
pub open spec fn congr_check(
    catalog: Catalog,
    action: CoreAction,
    n_keys: usize,
    key_index: usize,
    payload: RuleVar,
    edge_payload: RuleVar,
    alias: RuleVar,
) -> Check {
    match action {
        CoreAction::SetRow(call, args, values) => {
            let child = literal_of(args@[1]);
            table_action_check(Scope::StandardRebuild, call, "Congr proof Set"@).and(
                assert_eq_check(catalog, called_table(call), congr_types()),
            ).and(
                holds(args@.len() == 4, Scope::EqKeyRebuild, "Congr Set must have four keys"@),
            ).and(
                is_var_check(
                    Scope::StandardRebuild,
                    payload,
                    args@[0],
                    ColumnTy::Id,
                    "Congr row proof"@,
                ),
            ).and(
                holds(
                    args@[1] is Literal,
                    Scope::EqKeyRebuild,
                    "child index must be a typed literal"@,
                ),
            ).and(
                scalar_check(
                    catalog,
                    child.ty,
                    ScalarSqlType::I64,
                    Scope::EqKeyRebuild,
                    "child index must have i64 type"@,
                ),
            ).and(
                holds(
                    in_place_integer(child.value) == Some(key_index as int) && key_index < n_keys,
                    Scope::EqKeyRebuild,
                    "child index does not name its rebuilt key"@,
                ),
            ).and(literal_check(catalog, ScalarSqlType::I64, child.value)).and(
                is_var_check(
                    Scope::StandardRebuild,
                    edge_payload,
                    args@[2],
                    ColumnTy::Id,
                    "Congr UF proof"@,
                ),
            ).and(
                is_var_check(
                    Scope::StandardRebuild,
                    alias,
                    args@[3],
                    ColumnTy::Id,
                    "Congr result proof"@,
                ),
            ).and(rebuild_unit_check(catalog, values@))
        },
        _ => holds(false, Scope::StandardRebuild, "proof action must be a Set"@),
    }
}

/// The SQL text of the child index in a congruence proof.
pub open spec fn congr_sql(catalog: Catalog, action: CoreAction) -> Seq<char> {
    match action {
        CoreAction::SetRow(_, args, _) => literal_sql(
            catalog,
            ScalarSqlType::I64,
            literal_of(args@[1]).value,
        ),
        _ => arbitrary(),
    }
}

fn validate_congr_set(
    catalog: &Catalog,
    base_values: &BaseValues,
    action: &CoreAction,
    n_keys: usize,
    key_index: usize,
    payload: RuleVar,
    edge_payload: RuleVar,
    alias: RuleVar,
) -> (congr: Result<(FunctionId, String), Rejection>)
    ensures
        match congr {
            Ok((target, sql)) => {
                &&& congr_check(
                    *catalog,
                    *action,
                    n_keys,
                    key_index,
                    payload,
                    edge_payload,
                    alias,
                ).fault is None
                &&& target == set_table(*action)
                &&& sql@ == congr_sql(*catalog, *action)
            },
            Err(error) => congr_check(
                *catalog,
                *action,
                n_keys,
                key_index,
                payload,
                edge_payload,
                alias,
            ).fault == Some(error@),
        },
{
    match action {
        CoreAction::SetRow(call, args, values) => {
            let target = table_action(Scope::StandardRebuild, call, "Congr proof Set")?;
            let types = vec![
                ScalarSqlType::Id,
                ScalarSqlType::I64,
                ScalarSqlType::Id,
                ScalarSqlType::Id,
            ];
            assert(types@ =~= congr_types());
            validate_assert_eq_table(catalog, target, types)?;
            require(args.len() == 4, Scope::EqKeyRebuild, "Congr Set must have four keys")?;
            is_var(
                Scope::StandardRebuild,
                payload,
                &args[0],
                ColumnTy::Id,
                "Congr row proof",
            )?;
            let child = match &args[1] {
                AtomTerm::Literal(value) => *value,
                _ => {
                    return Err(
                        reject(Scope::EqKeyRebuild, "child index must be a typed literal"),
                    );
                },
            };
            require_scalar(
                catalog,
                child.ty,
                ScalarSqlType::I64,
                Scope::EqKeyRebuild,
                "child index must have i64 type",
            )?;
            let names_key = match small_integer(base_values, child.value) {
                Some(number) => number as u64 == key_index as u64,
                None => false,
            };
            require(
                names_key && key_index < n_keys,
                Scope::EqKeyRebuild,
                "child index does not name its rebuilt key",
            )?;
            let sql = catalog.sql_literal(ScalarSqlType::I64, child.value)?;
            is_var(
                Scope::StandardRebuild,
                edge_payload,
                &args[2],
                ColumnTy::Id,
                "Congr UF proof",
            )?;
            is_var(
                Scope::StandardRebuild,
                alias,
                &args[3],
                ColumnTy::Id,
                "Congr result proof",
            )?;
            unit_value(catalog, values)?;
            Ok((target, sql))
        },
        _ => Err(reject(Scope::StandardRebuild, "proof action must be a Set")),
    }
}

/// The head that rebuilds one key.
pub open spec fn eq_key_check(
    catalog: Catalog,
    head: Seq<CoreAction>,
    view: FunctionId,
    vars: RebuildVars,
    label: RuleValue,
) -> Check {
    let fresh = bound_var(head[0]);
    let alias = bound_var(head[1]);
    let key_index = stale_key(vars);
    rebuild_fresh_check(catalog, head[0]).and(rebuild_alias_check(head[1], fresh)).and(
        holds(
            fresh_label(head[0]) == label,
            Scope::EqKeyRebuild,
            "uses a different fresh label than its ordered unions"@,
        ),
    ).and(
        congr_check(
            catalog,
            head[2],
            table_of(catalog, view).n_keys,
            key_index,
            vars.payload,
            vars.edge_payload,
            alias,
        ),
    ).and(
        view_set_check(
            head[3],
            view,
            canonical_keys(vars.keys, Some((key_index, vars.canonical))),
            vars.identity,
            alias,
        ),
    ).and(view_delete_check(head[4], view, vars.keys)).and(
        distinct_check(Scope::StandardRebuild, vars.bound() + seq![fresh, alias]),
    )
}

/// The head that rebuilds the identity.
pub open spec fn eclass_check(
    catalog: Catalog,
    head: Seq<CoreAction>,
    view: FunctionId,
    vars: RebuildVars,
    view_union: OrderedUnionView,
    label: RuleValue,
) -> Check {
    let sym_fresh = bound_var(head[0]);
    let sym_alias = bound_var(head[1]);
    let trans_fresh = bound_var(head[3]);
    let trans_alias = bound_var(head[4]);
    rebuild_fresh_check(catalog, head[0]).and(rebuild_alias_check(head[1], sym_fresh)).and(
        rebuild_fresh_check(catalog, head[3]),
    ).and(rebuild_alias_check(head[4], trans_fresh)).and(
        holds(
            fresh_label(head[0]) == fresh_label(head[3]) && fresh_label(head[0]) == label,
            Scope::EclassRebuild,
            "fresh labels disagree"@,
        ),
    ).and(head_proof_check(catalog, head[2], seq![vars.edge_payload, sym_alias])).and(
        head_proof_check(catalog, head[5], seq![sym_alias, vars.payload, trans_alias]),
    ).and(
        holds(
            set_table(head[2]) == view_union.sym && set_table(head[5]) == view_union.trans,
            Scope::EclassRebuild,
            "proof targets disagree with its ordered unions"@,
        ),
    ).and(view_set_check(head[6], view, vars.keys, vars.canonical, trans_alias)).and(
        distinct_check(
            Scope::StandardRebuild,
            vars.bound() + seq![sym_fresh, sym_alias, trans_fresh, trans_alias],
        ),
    )
}

/// What a head contributes to the plan.
pub open spec fn rebuild_kind(
    catalog: Catalog,
    shape: OuterShape,
    head: Seq<CoreAction>,
    vars: RebuildVars,
) -> StandardRebuildKindView {
    match shape {
        OuterShape::EqKey => StandardRebuildKindView::EqKey {
            key_index: stale_key(vars),
            child_index_sql: congr_sql(catalog, head[2]),
            congr: set_table(head[2]),
        },
        OuterShape::EclassOutput => StandardRebuildKindView::EclassOutput {
            sym: set_table(head[2]),
            trans: set_table(head[5]),
        },
    }
}

fn compile_eq_key_head(
    catalog: &Catalog,
    base_values: &BaseValues,
    head: &Vec<CoreAction>,
    view: FunctionId,
    n_keys: usize,
    key_index: usize,
    found: &AtomVars,
    bound: &Vec<RuleVar>,
    label: RuleValue,
    vars: Ghost<RebuildVars>,
) -> (kind: Result<StandardRebuildKind, Rejection>)
    requires
        head@.len() == 5,
        n_keys == table_of(*catalog, view).n_keys,
        found.matches(vars@),
        key_index == stale_key(vars@),
        key_index < vars@.keys.len(),
        bound@ == vars@.bound(),
    ensures
        yields_view(
            kind,
            eq_key_check(*catalog, head@, view, vars@, label),
            rebuild_kind(*catalog, OuterShape::EqKey, head@, vars@),
        ),
{
    let (fresh, fresh_label) = head_fresh(catalog, &head[0])?;
    let alias = head_alias(&head[1], fresh)?;
    require(
        fresh_label == label,
        Scope::EqKeyRebuild,
        "uses a different fresh label than its ordered unions",
    )?;
    let (congr, child_index_sql) = validate_congr_set(
        catalog,
        base_values,
        &head[2],
        n_keys,
        key_index,
        found.payload,
        found.edge_payload,
        alias,
    )?;
    let mut canonical = copy_vars(&found.keys);
    canonical.set(key_index, found.canonical);
    validate_view_set(&head[3], view, &canonical, found.identity, alias)?;
    validate_view_delete(&head[4], view, &found.keys)?;
    let mut all = copy_vars(bound);
    all.push(fresh);
    all.push(alias);
    assert(all@ =~= vars@.bound() + seq![fresh, alias]);
    distinct_vars(Scope::StandardRebuild, &all)?;
    Ok(StandardRebuildKind::EqKey { key_index, child_index_sql, congr })
}

fn compile_eclass_head(
    catalog: &Catalog,
    head: &Vec<CoreAction>,
    view: FunctionId,
    found: &AtomVars,
    bound: &Vec<RuleVar>,
    view_union: &ValidatedOrderedUnion,
    vars: Ghost<RebuildVars>,
) -> (kind: Result<StandardRebuildKind, Rejection>)
    requires
        head@.len() == 7,
        found.matches(vars@),
        bound@ == vars@.bound(),
    ensures
        yields_view(
            kind,
            eclass_check(*catalog, head@, view, vars@, view_union@.0, view_union@.1),
            rebuild_kind(*catalog, OuterShape::EclassOutput, head@, vars@),
        ),
{
    let (sym_fresh, sym_label) = head_fresh(catalog, &head[0])?;
    let sym_alias = head_alias(&head[1], sym_fresh)?;
    let (trans_fresh, trans_label) = head_fresh(catalog, &head[3])?;
    let trans_alias = head_alias(&head[4], trans_fresh)?;
    require(
        sym_label == trans_label && sym_label == view_union.label,
        Scope::EclassRebuild,
        "fresh labels disagree",
    )?;
    let sym_keys = vec![found.edge_payload, sym_alias];
    assert(sym_keys@ =~= seq![vars@.edge_payload, sym_alias]);
    let sym = validate_head_proof_set(catalog, &head[2], sym_keys)?;
    let trans_keys = vec![sym_alias, found.payload, trans_alias];
    assert(trans_keys@ =~= seq![sym_alias, vars@.payload, trans_alias]);
    let trans = validate_head_proof_set(catalog, &head[5], trans_keys)?;
    require(
        sym == view_union.plan.sym && trans == view_union.plan.trans,
        Scope::EclassRebuild,
        "proof targets disagree with its ordered unions",
    )?;
    validate_view_set(&head[6], view, &found.keys, found.canonical, trans_alias)?;
    let mut all = copy_vars(bound);
    all.push(sym_fresh);
    all.push(sym_alias);
    all.push(trans_fresh);
    all.push(trans_alias);
    assert(all@ =~= vars@.bound() + seq![sym_fresh, sym_alias, trans_fresh, trans_alias]);
    distinct_vars(Scope::StandardRebuild, &all)?;
    Ok(StandardRebuildKind::EclassOutput { sym, trans })
}

// ---------------------------------------------------------------------------
// Admission.

/// What has to hold before the atoms are read.
pub open spec fn rebuild_tables_check(
    catalog: Catalog,
    rule: RuleSpec,
    roles: RebuildRoles,
) -> Check {
    let view = atom_table(rule.body@[roles.view]);
    let union_find = atom_table(rule.body@[roles.union_find]);
    holds(
        rule.seminaive && !rule.no_decomp,
        Scope::StandardRebuild,
        "must be seminaive and decomposed"@,
    ).and(
        holds(view != union_find, Scope::StandardRebuild, "aliases its View and UF tables"@),
    ).and(
        holds(
            atom_read(rule.body@[roles.view]) == ReadMode::All && atom_read(
                rule.body@[roles.union_find],
            ) == ReadMode::All,
            Scope::StandardRebuild,
            "requires All table atoms"@,
        ),
    ).and(
        holds(
            roles.shape == OuterShape::EclassOutput ==> union_find == roles.displaced,
            Scope::EclassRebuild,
            "must join the View output UF"@,
        ),
    ).and(view_table_check(catalog, table_of(catalog, view))).and(
        rebuild_union_find_check(table_of(catalog, union_find)),
    ).and(rebuild_union_find_check(table_of(catalog, roles.displaced)))
}

/// The body of a rebuild rule.
pub open spec fn rebuild_body_check(
    catalog: Catalog,
    rule: RuleSpec,
    roles: RebuildRoles,
) -> Check {
    let vars = rebuild_vars(catalog, rule, roles);
    rebuild_atoms_check(
        table_of(catalog, atom_table(rule.body@[roles.view])),
        rule.body@[roles.view].args@,
        rule.body@[roles.union_find].args@,
    ).and(stale_check(roles.shape, vars)).and(
        rebuild_guard_check(catalog, rule.body@[roles.guard], vars.edge_key, vars.canonical),
    ).and(distinct_check(Scope::StandardRebuild, vars.bound()))
}

/// The merges of a rebuild rule's tables are ordered unions of one proof
/// language.
pub open spec fn rebuild_unions_check(
    catalog: Catalog,
    rule: RuleSpec,
    roles: RebuildRoles,
) -> Check {
    let view = atom_table(rule.body@[roles.view]);
    let union_find = atom_table(rule.body@[roles.union_find]);
    let view_merge = table_of(catalog, view).merge;
    let union_find_merge = table_of(catalog, union_find).merge;
    let displaced_merge = table_of(catalog, roles.displaced).merge;
    let view_union = union_view(catalog, view, OrderedUnionOrientation::EclassToTerm);
    let edge_union = union_view(catalog, union_find, OrderedUnionOrientation::KeyToParent);
    let displaced = union_view(catalog, roles.displaced, OrderedUnionOrientation::KeyToParent);
    union_check(catalog, view_merge, None, OrderedUnionOrientation::EclassToTerm).and(
        union_check(
            catalog,
            union_find_merge,
            Some(union_find),
            OrderedUnionOrientation::KeyToParent,
        ),
    ).and(
        union_check(
            catalog,
            displaced_merge,
            Some(roles.displaced),
            OrderedUnionOrientation::KeyToParent,
        ),
    ).and(
        holds(
            view_union.sym == edge_union.sym && view_union.trans == edge_union.trans
                && union_label(view_merge) == union_label(union_find_merge) && view_union.sym
                == displaced.sym && view_union.trans == displaced.trans && union_label(view_merge)
                == union_label(displaced_merge),
            Scope::StandardRebuild,
            "View and UF ordered-union blocks disagree"@,
        ),
    )
}

/// The head of a rebuild rule.
pub open spec fn rebuild_head_check(
    catalog: Catalog,
    rule: RuleSpec,
    roles: RebuildRoles,
) -> Check {
    let view = atom_table(rule.body@[roles.view]);
    let vars = rebuild_vars(catalog, rule, roles);
    let label = union_label(table_of(catalog, view).merge);
    match roles.shape {
        OuterShape::EqKey => eq_key_check(catalog, rule.head@, view, vars, label),
        OuterShape::EclassOutput => eclass_check(
            catalog,
            rule.head@,
            view,
            vars,
            union_view(catalog, view, OrderedUnionOrientation::EclassToTerm),
            label,
        ),
    }
}

/// Everything that an owned rebuild rule has to be.
pub open spec fn rebuild_check(catalog: Catalog, rule: RuleSpec, roles: RebuildRoles) -> Check {
    rebuild_tables_check(catalog, rule, roles).and(
        rebuild_body_check(catalog, rule, roles),
    ).and(rebuild_unions_check(catalog, rule, roles)).and(
        rebuild_head_check(catalog, rule, roles),
    )
}

/// The plan of a rebuild rule.
pub open spec fn rebuild_plan(
    catalog: Catalog,
    rule: RuleSpec,
    roles: RebuildRoles,
) -> StandardRebuildView {
    StandardRebuildView {
        seminaive: rule.seminaive,
        view: union_view(
            catalog,
            atom_table(rule.body@[roles.view]),
            OrderedUnionOrientation::EclassToTerm,
        ),
        union_find: union_view(
            catalog,
            atom_table(rule.body@[roles.union_find]),
            OrderedUnionOrientation::KeyToParent,
        ),
        displaced_union_find: union_view(
            catalog,
            roles.displaced,
            OrderedUnionOrientation::KeyToParent,
        ),
        kind: rebuild_kind(
            catalog,
            roles.shape,
            rule.head@,
            rebuild_vars(catalog, rule, roles),
        ),
    }
}

/// The outcome of rebuild admission: nothing for a rule of another topology, a
/// plan, or the first fault of an owned rule.
#[verifier::opaque]
pub open spec fn standard_rebuild(catalog: Catalog, rule: RuleSpec) -> Result<
    Option<StandardRebuildView>,
    RejectionView,
> {
    match rebuild_selection(catalog, rule) {
        Err(error) => Err(error),
        Ok(None) => Ok(None),
        Ok(Some(roles)) => rebuild_check(catalog, rule, roles).gives(
            Some(rebuild_plan(catalog, rule, roles)),
        ),
    }
}

/// The roles of an owned rule's atoms, by position.
struct Selected {
    shape: OuterShape,
    view: usize,
    union_find: usize,
    guard: usize,
    displaced: FunctionId,
}

impl Selected {
    spec fn roles(self) -> RebuildRoles {
        RebuildRoles {
            shape: self.shape,
            view: self.view as int,
            union_find: self.union_find as int,
            guard: self.guard as int,
            displaced: self.displaced,
        }
    }
}

fn select_rebuild(catalog: &Catalog, rule: &RuleSpec) -> (selected: Result<
    Option<Selected>,
    Rejection,
>)
    ensures
        match (selected, rebuild_selection(*catalog, *rule)) {
            (Ok(Some(found)), Ok(Some(roles))) => {
                &&& found.roles() == roles
                &&& body_split(rule.body@) == Some((roles.view, roles.union_find, roles.guard))
                    || body_split(rule.body@) == Some((roles.union_find, roles.view, roles.guard))
                &&& head_shape(rule.head@) == Some(found.shape)
                &&& atom_table(rule.body@[roles.view]).rep < catalog.tables@.len()
                &&& atom_table(rule.body@[roles.union_find]).rep < catalog.tables@.len()
                &&& found.displaced.rep < catalog.tables@.len()
            },
            (Ok(None), Ok(None)) => true,
            (Err(error), Err(model)) => error@ == model,
            _ => false,
        },
{
    let shape = match outer_shape(rule) {
        Some(shape) => shape,
        None => {
            return Ok(None);
        },
    };
    let (first, second, guard) = match split_body(&rule.body) {
        Some(split) => split,
        None => {
            return Ok(None);
        },
    };
    let (first_id, _) = table_atom_parts(&rule.body[first]);
    let (second_id, _) = table_atom_parts(&rule.body[second]);
    let first_info = catalog.table_info(first_id)?;
    let second_info = catalog.table_info(second_id)?;
    let (view, union_find, view_info, union_find_info) = if first_info.can_subsume
        && !second_info.can_subsume {
        (first, second, first_info, second_info)
    } else if !first_info.can_subsume && second_info.can_subsume {
        (second, first, second_info, first_info)
    } else {
        return Ok(None);
    };
    let displaced = match ordered_union_outer(&view_info.merge) {
        Some(displaced) => displaced,
        None => {
            return Ok(None);
        },
    };
    if ordered_union_outer(&union_find_info.merge).is_none() {
        return Ok(None);
    }
    let displaced_info = catalog.table_info(displaced)?;
    if ordered_union_outer(&displaced_info.merge).is_none() {
        return Ok(None);
    }
    Ok(Some(Selected { shape, view, union_find, guard, displaced }))
}

fn compile_selected(
    catalog: &Catalog,
    base_values: &BaseValues,
    rule: &RuleSpec,
    selected: Selected,
) -> (plan: Result<StandardRebuildPlan, Rejection>)
    requires
        body_split(rule.body@) == Some(
            (selected.view as int, selected.union_find as int, selected.guard as int),
        ) || body_split(rule.body@) == Some(
            (selected.union_find as int, selected.view as int, selected.guard as int),
        ),
        head_shape(rule.head@) == Some(selected.shape),
        atom_table(rule.body@[selected.view as int]).rep < catalog.tables@.len(),
        atom_table(rule.body@[selected.union_find as int]).rep < catalog.tables@.len(),
        selected.displaced.rep < catalog.tables@.len(),
    ensures
        yields_view(
            plan,
            rebuild_check(*catalog, *rule, selected.roles()),
            rebuild_plan(*catalog, *rule, selected.roles()),
        ),
{
    let ghost roles = selected.roles();
    let ghost vars = rebuild_vars(*catalog, *rule, roles);
    let (view, view_read) = table_atom_parts(&rule.body[selected.view]);
    let (union_find, union_find_read) = table_atom_parts(&rule.body[selected.union_find]);
    let view_info = catalog.table_info(view)?;
    let union_find_info = catalog.table_info(union_find)?;
    let displaced_info = catalog.table_info(selected.displaced)?;
    require(
        rule.seminaive && !rule.no_decomp,
        Scope::StandardRebuild,
        "must be seminaive and decomposed",
    )?;
    require(view != union_find, Scope::StandardRebuild, "aliases its View and UF tables")?;
    require(
        view_read == ReadMode::All && union_find_read == ReadMode::All,
        Scope::StandardRebuild,
        "requires All table atoms",
    )?;
    require(
        selected.shape != OuterShape::EclassOutput || union_find == selected.displaced,
        Scope::EclassRebuild,
        "must join the View output UF",
    )?;
    validate_view_table(catalog, view_info)?;
    validate_union_find_table(union_find_info)?;
    validate_union_find_table(displaced_info)?;

    let found = rebuild_atoms(
        view_info,
        &rule.body[selected.view].args,
        &rule.body[selected.union_find].args,
    )?;
    let mut key_index: usize = 0;
    match selected.shape {
        OuterShape::EqKey => match find_only_position(&found.keys, found.edge_key) {
            Some(position) => {
                key_index = position;
            },
            None => {
                return Err(
                    reject(Scope::EqKeyRebuild, "UF key must be exactly one View key"),
                );
            },
        },
        OuterShape::EclassOutput => {
            same_var(
                Scope::StandardRebuild,
                found.identity,
                found.edge_key,
                "value-to-UF join",
            )?;
        },
    }
    let result = validate_inequality(
        catalog,
        &rule.body[selected.guard],
        found.edge_key,
        found.canonical,
    )?;
    assert(found.matches(vars));
    let mut bound = copy_vars(&found.keys);
    bound.push(found.identity);
    bound.push(found.payload);
    bound.push(found.canonical);
    bound.push(found.edge_payload);
    bound.push(result);
    assert(bound@ =~= vars.bound());
    distinct_vars(Scope::StandardRebuild, &bound)?;

    let view_union = validate_ordered_union(
        catalog,
        view,
        view_info,
        None,
        OrderedUnionOrientation::EclassToTerm,
    )?;
    let edge_union = validate_ordered_union(
        catalog,
        union_find,
        union_find_info,
        Some(union_find),
        OrderedUnionOrientation::KeyToParent,
    )?;
    let displaced_union = validate_ordered_union(
        catalog,
        selected.displaced,
        displaced_info,
        Some(selected.displaced),
        OrderedUnionOrientation::KeyToParent,
    )?;
    require(
        view_union.plan.sym == edge_union.plan.sym && view_union.plan.trans
            == edge_union.plan.trans && view_union.label == edge_union.label && view_union.plan.sym
            == displaced_union.plan.sym && view_union.plan.trans == displaced_union.plan.trans
            && view_union.label == displaced_union.label,
        Scope::StandardRebuild,
        "View and UF ordered-union blocks disagree",
    )?;
    let kind = match selected.shape {
        OuterShape::EqKey => compile_eq_key_head(
            catalog,
            base_values,
            &rule.head,
            view,
            view_info.n_keys,
            key_index,
            &found,
            &bound,
            view_union.label,
            Ghost(vars),
        )?,
        OuterShape::EclassOutput => compile_eclass_head(
            catalog,
            &rule.head,
            view,
            &found,
            &bound,
            &view_union,
            Ghost(vars),
        )?,
    };
    Ok(
        StandardRebuildPlan {
            seminaive: rule.seminaive,
            view: view_union.plan,
            union_find: edge_union.plan,
            displaced_union_find: displaced_union.plan,
            kind,
        },
    )
}

/// Admits a standard rebuild rule: nothing for a different outer topology, a
/// plan for a completely validated rule, and an error for a malformed instance
/// of one of the two standard topologies.
pub fn compile_standard_rebuild(catalog: &Catalog, base_values: &BaseValues, rule: &RuleSpec) -> (
    plan: Result<Option<StandardRebuildPlan>, Rejection>)
    ensures
        agrees_if_owned(plan, standard_rebuild(*catalog, *rule)),
{
    reveal(standard_rebuild);
    match select_rebuild(catalog, rule)? {
        None => Ok(None),
        Some(selected) => {
            let plan = compile_selected(catalog, base_values, rule, selected)?;
            Ok(Some(plan))
        },
    }
}

} // verus!
