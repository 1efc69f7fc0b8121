//! The closed plan of a scalar rule and the SQL that runs it.
//!
//! Rows stay in scratch relations inside the engine. A plan holds only schema
//! level expressions and scheduling data, and renders every statement from
//! them.

use std::collections::{BTreeMap, BTreeSet};

use vstd::prelude::*;

use crate::authority::{AuthorityRegistries, FdDescriptor, NativePrimitive, NativeScalarPrimitive};
use crate::base::ScalarSqlType;
use crate::catalog::sql_table;
use crate::ir::{ColumnTy, FunctionId, RuleValue};
use crate::keys::{map_keys, set_keys};
use crate::rejection::{reject_with, Rejection, Scope};
use crate::scalar_expr::ScalarExpression;
use crate::text::{append_number, assert_scratch_name, copy_strings, join_strings, same_text};
#[allow(unused_imports)]
use crate::authority::{entry, fd_views, FdDescriptorView};
#[allow(unused_imports)]
use crate::catalog::table_text;
#[allow(unused_imports)]
use crate::keys::lists;
#[allow(unused_imports)]
use crate::rejection::{rejected, RejectionView};
#[allow(unused_imports)]
use crate::scalar_expr::{defined_text, form_text, ScalarExpressionView};
#[allow(unused_imports)]
use crate::text::{decimal, join, scratch_name, texts};

verus! {

/// A typed constant with its SQL text.
#[derive(Debug)]
pub struct ScalarLiteral {
    pub value: RuleValue,
    pub scalar: ScalarSqlType,
    pub sql: String,
}

/// A value that a statement can name.
#[derive(Debug)]
pub enum ScalarValueRef {
    /// A column of the match relation.
    Body(usize),
    /// The result of an earlier action.
    Slot(usize),
    Literal(ScalarLiteral),
}

/// What a [`ScalarValueRef`] says.
pub enum ValueRefView {
    Body(usize),
    Slot(usize),
    Literal { value: RuleValue, scalar: ScalarSqlType, sql: Seq<char> },
}

impl View for ScalarValueRef {
    type V = ValueRefView;

    open spec fn view(&self) -> ValueRefView {
        match *self {
            ScalarValueRef::Body(column) => ValueRefView::Body(column),
            ScalarValueRef::Slot(slot) => ValueRefView::Slot(slot),
            ScalarValueRef::Literal(literal) => ValueRefView::Literal {
                value: literal.value,
                scalar: literal.scalar,
                sql: literal.sql@,
            },
        }
    }
}

impl ScalarValueRef {
    /// A copy of the reference.
    pub fn copy(&self) -> (copy: ScalarValueRef)
        ensures
            copy@ == self@,
    {
        match self {
            ScalarValueRef::Body(column) => ScalarValueRef::Body(*column),
            ScalarValueRef::Slot(slot) => ScalarValueRef::Slot(*slot),
            ScalarValueRef::Literal(literal) => ScalarValueRef::Literal(
                ScalarLiteral {
                    value: literal.value,
                    scalar: literal.scalar,
                    sql: literal.sql.clone(),
                },
            ),
        }
    }

    /// Whether two references name the same value.
    pub fn same(&self, other: &ScalarValueRef) -> (same: bool)
        ensures
            same == (self@ == other@),
    {
        match (self, other) {
            (ScalarValueRef::Body(a), ScalarValueRef::Body(b)) => *a == *b,
            (ScalarValueRef::Slot(a), ScalarValueRef::Slot(b)) => *a == *b,
            (ScalarValueRef::Literal(a), ScalarValueRef::Literal(b)) => a.value == b.value
                && a.scalar == b.scalar && same_text(a.sql.as_str(), b.sql.as_str()),
            _ => false,
        }
    }
}

/// References, through their views.
pub open spec fn ref_views(refs: Seq<ScalarValueRef>) -> Seq<ValueRefView> {
    refs.map_values(|r: ScalarValueRef| r@)
}

/// A copy of the references from `from` up to `to`.
pub fn copy_refs(refs: &Vec<ScalarValueRef>, from: usize, to: usize) -> (copy: Vec<ScalarValueRef>)
    requires
        from <= to <= refs@.len(),
    ensures
        ref_views(copy@) == ref_views(refs@).subrange(from as int, to as int),
{
    let mut copy: Vec<ScalarValueRef> = Vec::new();
    let mut i: usize = from;
    while i < to
        invariant
            from <= i <= to <= refs@.len(),
            copy.len() == i - from,
            forall|j: int| 0 <= j < i - from ==> copy@[j]@ == refs@[from + j]@,
        decreases to - i,
    {
        copy.push(refs[i].copy());
        i += 1;
    }
    assert(ref_views(copy@) =~= ref_views(refs@).subrange(from as int, to as int));
    copy
}

/// What an effect does to its target.
#[derive(Clone, Copy, Debug, PartialEq, Eq, Structural)]
pub enum ScalarEffectKind {
    AssertEq,
    KeepOld,
    GenericMerge,
    Delete,
    Subsume,
}

/// One durable effect of a rule.
#[derive(Debug)]
pub struct ScalarEffectPlan {
    pub event_ordinal: u64,
    pub target: FunctionId,
    pub arity: usize,
    pub n_keys: usize,
    pub kind: ScalarEffectKind,
    pub arguments: Vec<ScalarValueRef>,
    pub values: Vec<ScalarValueRef>,
    pub condition_slot: Option<usize>,
}

/// What a [`ScalarEffectPlan`] says.
pub struct EffectView {
    pub event_ordinal: u64,
    pub target: FunctionId,
    pub arity: usize,
    pub n_keys: usize,
    pub kind: ScalarEffectKind,
    pub arguments: Seq<ValueRefView>,
    pub values: Seq<ValueRefView>,
    pub condition_slot: Option<usize>,
}

impl View for ScalarEffectPlan {
    type V = EffectView;

    open spec fn view(&self) -> EffectView {
        EffectView {
            event_ordinal: self.event_ordinal,
            target: self.target,
            arity: self.arity,
            n_keys: self.n_keys,
            kind: self.kind,
            arguments: ref_views(self.arguments@),
            values: ref_views(self.values@),
            condition_slot: self.condition_slot,
        }
    }
}

/// A read of durable rows.
#[derive(Debug)]
pub enum ScalarActionRead {
    /// Exactly one owner must exist.
    Table { target: FunctionId, n_keys: usize, result_column: usize, keys: Vec<ScalarValueRef> },
    /// The owner, or else the first prediction for the keys.
    SetIfEmpty {
        target: FunctionId,
        n_keys: usize,
        keys: Vec<ScalarValueRef>,
        defaults: Vec<ScalarValueRef>,
    },
    /// The owner, or else a fallback.
    ViewColumn {
        target: FunctionId,
        n_keys: usize,
        result_column: usize,
        keys: Vec<ScalarValueRef>,
        fallback: ScalarValueRef,
    },
}

/// What a [`ScalarActionRead`] says.
pub enum ReadView {
    Table { target: FunctionId, n_keys: usize, result_column: usize, keys: Seq<ValueRefView> },
    SetIfEmpty {
        target: FunctionId,
        n_keys: usize,
        keys: Seq<ValueRefView>,
        defaults: Seq<ValueRefView>,
    },
    ViewColumn {
        target: FunctionId,
        n_keys: usize,
        result_column: usize,
        keys: Seq<ValueRefView>,
        fallback: ValueRefView,
    },
}

impl View for ScalarActionRead {
    type V = ReadView;

    open spec fn view(&self) -> ReadView {
        match *self {
            ScalarActionRead::Table { target, n_keys, result_column, keys } => ReadView::Table {
                target,
                n_keys,
                result_column,
                keys: ref_views(keys@),
            },
            ScalarActionRead::SetIfEmpty { target, n_keys, keys, defaults } => {
                ReadView::SetIfEmpty {
                    target,
                    n_keys,
                    keys: ref_views(keys@),
                    defaults: ref_views(defaults@),
                }
            },
            ScalarActionRead::ViewColumn { target, n_keys, result_column, keys, fallback } => {
                ReadView::ViewColumn {
                    target,
                    n_keys,
                    result_column,
                    keys: ref_views(keys@),
                    fallback: fallback@,
                }
            },
        }
    }
}

/// How an action result comes about.
#[derive(Debug)]
pub enum ScalarActionSlotSource {
    Fresh { rank: u64 },
    Read(ScalarActionRead),
    Expression { expression: ScalarExpression, inputs: Vec<ScalarValueRef> },
}

/// What a [`ScalarActionSlotSource`] says.
pub enum SlotSourceView {
    Fresh { rank: u64 },
    Read(ReadView),
    Expression { expression: ScalarExpressionView, inputs: Seq<ValueRefView> },
}

impl View for ScalarActionSlotSource {
    type V = SlotSourceView;

    open spec fn view(&self) -> SlotSourceView {
        match *self {
            ScalarActionSlotSource::Fresh { rank } => SlotSourceView::Fresh { rank },
            ScalarActionSlotSource::Read(read) => SlotSourceView::Read(read@),
            ScalarActionSlotSource::Expression { expression, inputs } => {
                SlotSourceView::Expression { expression: expression@, inputs: ref_views(inputs@) }
            },
        }
    }
}

/// One action result.
#[derive(Debug)]
pub struct ScalarActionSlot {
    pub raw_action_ordinal: usize,
    pub runtime_ordinal: u64,
    pub ty: ColumnTy,
    pub source: ScalarActionSlotSource,
}

/// What a [`ScalarActionSlot`] says.
pub struct SlotView {
    pub raw_action_ordinal: usize,
    pub runtime_ordinal: u64,
    pub ty: ColumnTy,
    pub source: SlotSourceView,
}

impl View for ScalarActionSlot {
    type V = SlotView;

    open spec fn view(&self) -> SlotView {
        SlotView {
            raw_action_ordinal: self.raw_action_ordinal,
            runtime_ordinal: self.runtime_ordinal,
            ty: self.ty,
            source: self.source@,
        }
    }
}

/// Slots, through their views.
pub open spec fn slot_views(slots: Seq<ScalarActionSlot>) -> Seq<SlotView> {
    slots.map_values(|s: ScalarActionSlot| s@)
}

/// Effects, through their views.
pub open spec fn effect_views(effects: Seq<ScalarEffectPlan>) -> Seq<EffectView> {
    effects.map_values(|e: ScalarEffectPlan| e@)
}

/// A closed typed scalar program.
#[derive(Debug)]
pub struct ScalarActionPlan {
    pub seminaive: bool,
    pub match_projection: Vec<String>,
    pub match_from: Vec<String>,
    pub match_predicates: Vec<String>,
    pub freshness_columns: Vec<String>,
    pub order_columns: Vec<String>,
    pub slots: Vec<ScalarActionSlot>,
    pub effects: Vec<ScalarEffectPlan>,
    pub fresh_slots: u64,
    pub action_count: u64,
    pub required_fresh_tokens: BTreeSet<u32>,
    pub required_fd_descriptors: BTreeMap<u32, FdDescriptor>,
    pub required_native_primitives: BTreeMap<u32, NativePrimitive>,
    pub required_native_scalar_primitives: BTreeMap<u32, NativeScalarPrimitive>,
    pub required_authority_epochs: BTreeMap<u32, u64>,
}

/// What a [`ScalarActionPlan`] says.
pub struct PlanView {
    pub seminaive: bool,
    pub match_projection: Seq<Seq<char>>,
    pub match_from: Seq<Seq<char>>,
    pub match_predicates: Seq<Seq<char>>,
    pub freshness_columns: Seq<Seq<char>>,
    pub order_columns: Seq<Seq<char>>,
    pub slots: Seq<SlotView>,
    pub effects: Seq<EffectView>,
    pub fresh_slots: u64,
    pub action_count: u64,
    pub required_fresh_tokens: Set<u32>,
    pub required_fd_descriptors: Map<u32, FdDescriptorView>,
    pub required_native_primitives: Map<u32, NativePrimitive>,
    pub required_native_scalar_primitives: Map<u32, NativeScalarPrimitive>,
    pub required_authority_epochs: Map<u32, u64>,
}

impl View for ScalarActionPlan {
    type V = PlanView;

    open spec fn view(&self) -> PlanView {
        PlanView {
            seminaive: self.seminaive,
            match_projection: texts(self.match_projection@),
            match_from: texts(self.match_from@),
            match_predicates: texts(self.match_predicates@),
            freshness_columns: texts(self.freshness_columns@),
            order_columns: texts(self.order_columns@),
            slots: slot_views(self.slots@),
            effects: effect_views(self.effects@),
            fresh_slots: self.fresh_slots,
            action_count: self.action_count,
            required_fresh_tokens: self.required_fresh_tokens@,
            required_fd_descriptors: fd_views(self.required_fd_descriptors@),
            required_native_primitives: self.required_native_primitives@,
            required_native_scalar_primitives: self.required_native_scalar_primitives@,
            required_authority_epochs: self.required_authority_epochs@,
        }
    }
}

/// The table whose rows a set-if-empty slot predicts.
pub open spec fn predicted_target(slot: SlotView) -> Option<FunctionId> {
    match slot.source {
        SlotSourceView::Read(ReadView::SetIfEmpty { target, .. }) => Some(target),
        _ => None,
    }
}

// ---------------------------------------------------------------------------
// Rendering.

/// A value as seen through a relation alias.
pub open spec fn ref_text(value: ValueRefView, alias: Seq<char>) -> Seq<char> {
    match value {
        ValueRefView::Body(column) => alias + ".b"@ + decimal(column as nat),
        ValueRefView::Slot(slot) => alias + ".s"@ + decimal(slot as nat),
        ValueRefView::Literal { sql, .. } => sql,
    }
}

/// Values as seen through a relation alias.
pub open spec fn ref_texts(values: Seq<ValueRefView>, alias: Seq<char>) -> Seq<Seq<char>> {
    values.map_values(|v: ValueRefView| ref_text(v, alias))
}

/// One null-safe comparison per key, of the columns of `left` with the values.
pub open spec fn key_tests(
    left: Seq<char>,
    keys: Seq<ValueRefView>,
    alias: Seq<char>,
) -> Seq<Seq<char>> {
    Seq::new(
        keys.len(),
        |i: int|
            left + ".c"@ + decimal(i as nat) + " IS NOT DISTINCT FROM "@ + ref_text(keys[i], alias),
    )
}

/// The columns of `left` hold the keys. A nullary key is always held.
pub open spec fn key_match_text(
    left: Seq<char>,
    keys: Seq<ValueRefView>,
    n_keys: nat,
    alias: Seq<char>,
) -> Seq<char> {
    if n_keys == 0 {
        "TRUE"@
    } else {
        join(key_tests(left, keys, alias), " AND "@)
    }
}

/// One null-safe comparison per key column of two rows.
pub open spec fn row_tests(left: Seq<char>, right: Seq<char>, n_keys: nat) -> Seq<Seq<char>> {
    Seq::new(
        n_keys,
        |i: int|
            left + ".c"@ + decimal(i as nat) + " IS NOT DISTINCT FROM "@ + right + ".c"@ + decimal(
                i as nat,
            ),
    )
}

/// Two rows agree on their keys. Rows without keys always do.
pub open spec fn row_match_text(left: Seq<char>, right: Seq<char>, n_keys: nat) -> Seq<char> {
    if n_keys == 0 {
        "TRUE"@
    } else {
        join(row_tests(left, right, n_keys), " AND "@)
    }
}

/// Renders a value as seen through a relation alias.
pub fn render_general_ref(value: &ScalarValueRef, alias: &str) -> (text: String)
    ensures
        text@ == ref_text(value@, alias@),
{
    match value {
        ScalarValueRef::Body(column) => {
            let mut text = alias.to_owned();
            text.append(".b");
            append_number(&mut text, *column as u64);
            text
        },
        ScalarValueRef::Slot(slot) => {
            let mut text = alias.to_owned();
            text.append(".s");
            append_number(&mut text, *slot as u64);
            text
        },
        ScalarValueRef::Literal(literal) => literal.sql.clone(),
    }
}

fn render_refs(values: &Vec<ScalarValueRef>, alias: &str) -> (rendered: Vec<String>)
    ensures
        texts(rendered@) == ref_texts(ref_views(values@), alias@),
{
    let mut rendered: Vec<String> = Vec::new();
    let mut i: usize = 0;
    while i < values.len()
        invariant
            i <= values.len(),
            rendered.len() == i,
            forall|j: int| 0 <= j < i ==> rendered@[j]@ == ref_text(values@[j]@, alias@),
        decreases values.len() - i,
    {
        rendered.push(render_general_ref(&values[i], alias));
        i += 1;
    }
    assert(texts(rendered@) =~= ref_texts(ref_views(values@), alias@));
    rendered
}

/// Renders the condition that a scratch row holds the requested keys.
pub fn render_scratch_key_equality(
    requested_keys: &Vec<ScalarValueRef>,
    n_keys: usize,
    scratch_alias: &str,
    requested_alias: &str,
) -> (text: String)
    ensures
        text@ == key_match_text(
            scratch_alias@,
            ref_views(requested_keys@),
            n_keys as nat,
            requested_alias@,
        ),
{
    if n_keys == 0 {
        return "TRUE".to_owned();
    }
    let mut tests: Vec<String> = Vec::new();
    let mut i: usize = 0;
    while i < requested_keys.len()
        invariant
            i <= requested_keys.len(),
            tests.len() == i,
            forall|j: int|
                0 <= j < i ==> tests@[j]@ == scratch_alias@ + ".c"@ + decimal(j as nat)
                    + " IS NOT DISTINCT FROM "@ + ref_text(requested_keys@[j]@, requested_alias@),
        decreases requested_keys.len() - i,
    {
        let mut test = scratch_alias.to_owned();
        test.append(".c");
        append_number(&mut test, i as u64);
        test.append(" IS NOT DISTINCT FROM ");
        let value = render_general_ref(&requested_keys[i], requested_alias);
        test.append(value.as_str());
        tests.push(test);
        i += 1;
    }
    assert(texts(tests@) =~= key_tests(
        scratch_alias@,
        ref_views(requested_keys@),
        requested_alias@,
    ));
    join_strings(&tests, " AND ")
}

/// Renders the condition that a durable row holds the requested keys.
pub fn render_read_equality(keys: &Vec<ScalarValueRef>, n_keys: usize, alias: &str) -> (text:
    String)
    ensures
        text@ == key_match_text("existing"@, ref_views(keys@), n_keys as nat, alias@),
{
    render_scratch_key_equality(keys, n_keys, "existing", alias)
}

/// Renders the condition that two rows agree on their keys.
pub fn render_row_key_equality(n_keys: usize, left: &str, right: &str) -> (text: String)
    ensures
        text@ == row_match_text(left@, right@, n_keys as nat),
{
    if n_keys == 0 {
        return "TRUE".to_owned();
    }
    let mut tests: Vec<String> = Vec::new();
    let mut i: usize = 0;
    while i < n_keys
        invariant
            i <= n_keys,
            tests.len() == i,
            forall|j: int|
                0 <= j < i ==> tests@[j]@ == left@ + ".c"@ + decimal(j as nat)
                    + " IS NOT DISTINCT FROM "@ + right@ + ".c"@ + decimal(j as nat),
        decreases n_keys - i,
    {
        let mut test = left.to_owned();
        test.append(".c");
        append_number(&mut test, i as u64);
        test.append(" IS NOT DISTINCT FROM ");
        test.append(right);
        test.append(".c");
        append_number(&mut test, i as u64);
        tests.push(test);
        i += 1;
    }
    assert(texts(tests@) =~= row_tests(left@, right@, n_keys as nat));
    join_strings(&tests, " AND ")
}

/// Expressions named by position: `<expression> AS <prefix><position>`.
pub open spec fn aliased(expressions: Seq<Seq<char>>, prefix: Seq<char>) -> Seq<Seq<char>> {
    Seq::new(
        expressions.len(),
        |i: int| expressions[i] + " AS "@ + prefix + decimal(i as nat),
    )
}

fn alias_strings(expressions: &Vec<String>, prefix: &str) -> (named: Vec<String>)
    ensures
        texts(named@) == aliased(texts(expressions@), prefix@),
{
    let mut named: Vec<String> = Vec::new();
    let mut i: usize = 0;
    while i < expressions.len()
        invariant
            i <= expressions.len(),
            named.len() == i,
            forall|j: int|
                0 <= j < i ==> named@[j]@ == expressions@[j]@ + " AS "@ + prefix@ + decimal(
                    j as nat,
                ),
        decreases expressions.len() - i,
    {
        let mut text = expressions[i].clone();
        text.append(" AS ");
        text.append(prefix);
        append_number(&mut text, i as u64);
        named.push(text);
        i += 1;
    }
    assert(texts(named@) =~= aliased(texts(expressions@), prefix@));
    named
}

/// A vector of strings grows by one text.
proof fn lemma_texts_push(strings: Seq<String>, string: String)
    ensures
        texts(strings.push(string)) == texts(strings).push(string@),
{
    assert(texts(strings.push(string)) =~= texts(strings).push(string@));
}

/// The rows are new since the watermark in at least one of the columns.
pub open spec fn freshness_tests(columns: Seq<Seq<char>>, watermark: u64) -> Seq<Seq<char>> {
    Seq::new(
        columns.len(),
        |i: int| columns[i] + " >= CAST('"@ + decimal(watermark as nat) + "' AS UBIGINT)"@,
    )
}

/// The statement that materializes the matches of a rule.
///
/// A rule without a table atom matches once; when it is seminaive, it matches
/// only before its first run.
pub open spec fn match_sql(plan: PlanView, stage: Seq<char>, watermark: u64) -> Seq<char> {
    if plan.match_from.len() == 0 {
        let run = !plan.seminaive || watermark == 0;
        let predicates = plan.match_predicates.push(if run { "TRUE"@ } else { "FALSE"@ });
        let projection = aliased(plan.match_projection, "b"@).push(
            "CAST('1' AS UBIGINT) AS __match_ordinal"@,
        );
        "CREATE TEMP TABLE "@
            + stage
            + " AS\n                 SELECT "@
            + join(projection, ", "@)
            + "\n                 WHERE "@
            + join(predicates, " AND "@)
    } else {
        let predicates = if plan.seminaive {
            plan.match_predicates.push(
                "("@ + join(freshness_tests(plan.freshness_columns, watermark), " OR "@) + ")"@,
            )
        } else {
            plan.match_predicates
        };
        let projection = aliased(plan.match_projection, "b"@).push(
            "row_number() OVER (ORDER BY "@ + join(plan.order_columns, ", "@)
                + ") AS __match_ordinal"@,
        );
        "CREATE TEMP TABLE "@
            + stage
            + " AS\n             SELECT "@
            + join(projection, ", "@)
            + "\n             FROM "@
            + join(plan.match_from, " CROSS JOIN "@)
            + "\n             WHERE "@
            + join(predicates, " AND "@)
    }
}

/// The statement that adds the result of a slot to every match.
///
/// Fresh ids are handed out action by action: all matches of one action come
/// before those of the next. A set-if-empty reads the durable owner before the
/// prediction `ledger`; a view-column read prefers it to its fallback.
pub open spec fn slot_sql(
    slot: SlotView,
    input_stage: Seq<char>,
    output_stage: Seq<char>,
    slot_index: nat,
    first_fresh: u64,
    match_count: u64,
    ledger: Seq<char>,
) -> Seq<char> {
    match slot.source {
        SlotSourceView::Fresh { rank } => {
            "CREATE TEMP TABLE "@
                + output_stage
                + " AS\n                 SELECT prior.*,\n                        CAST('"@
                + decimal(first_fresh as nat)
                + "' AS UBIGINT)\n                            + CAST('"@
                + decimal(rank as nat)
                + "' AS UBIGINT) * CAST('"@
                + decimal(match_count as nat)
                + "' AS UBIGINT)\n                            + prior.__match_ordinal - 1 AS s"@
                + decimal(slot_index)
                + "\n                 FROM "@
                + input_stage
                + " AS prior"@
        },
        SlotSourceView::Expression { expression, inputs } => {
            "CREATE TEMP TABLE "@
                + output_stage
                + " AS\n                     SELECT prior.*, "@
                + form_text(expression.value, ref_texts(inputs, "prior"@))
                + " AS s"@
                + decimal(slot_index)
                + "\n                     FROM "@
                + input_stage
                + " AS prior"@
        },
        SlotSourceView::Read(ReadView::Table { target, n_keys, result_column, keys }) => {
            "CREATE TEMP TABLE "@
                + output_stage
                + " AS\n                     SELECT prior.*,\n                            existing.c"@
                + decimal(result_column as nat)
                + " AS s"@
                + decimal(slot_index)
                + "\n                     FROM "@
                + input_stage
                + " AS prior\n                     JOIN "@
                + table_text(target)
                + " AS existing ON "@
                + key_match_text("existing"@, keys, n_keys as nat, "prior"@)
        },
        SlotSourceView::Read(ReadView::SetIfEmpty { target, n_keys, keys, .. }) => {
            "CREATE TEMP TABLE "@
                + output_stage
                + " AS\n                     SELECT prior.*,\n                            choice.__value AS s"@
                + decimal(slot_index)
                + "\n                     FROM "@
                + input_stage
                + " AS prior\n                     JOIN LATERAL (\n                         SELECT alternatives.__value\n                         FROM (\n                             SELECT existing.c"@
                + decimal(n_keys as nat)
                + " AS __value,\n                                    CAST('0' AS UTINYINT) AS __source\n                             FROM "@
                + table_text(target)
                + " AS existing\n                             WHERE "@
                + key_match_text("existing"@, keys, n_keys as nat, "prior"@)
                + "\n                             UNION ALL\n                             SELECT predicted.c"@
                + decimal(n_keys as nat)
                + " AS __value,\n                                    CAST('1' AS UTINYINT) AS __source\n                             FROM "@
                + ledger
                + " AS predicted\n                             WHERE "@
                + key_match_text("predicted"@, keys, n_keys as nat, "prior"@)
                + "\n                         ) AS alternatives\n                         ORDER BY alternatives.__source\n                         LIMIT 1\n                     ) AS choice ON TRUE"@
        },
        SlotSourceView::Read(
            ReadView::ViewColumn { target, n_keys, result_column, keys, fallback },
        ) => {
            "CREATE TEMP TABLE "@
                + output_stage
                + " AS\n                     SELECT prior.*,\n                            choice.__value AS s"@
                + decimal(slot_index)
                + "\n                     FROM "@
                + input_stage
                + " AS prior\n                     JOIN LATERAL (\n                         SELECT alternatives.__value\n                         FROM (\n                             SELECT existing.c"@
                + decimal(result_column as nat)
                + " AS __value,\n                                    CAST('0' AS UTINYINT) AS __source\n                             FROM "@
                + table_text(target)
                + " AS existing\n                             WHERE "@
                + key_match_text("existing"@, keys, n_keys as nat, "prior"@)
                + "\n                             UNION ALL\n                             SELECT "@
                + ref_text(fallback, "prior"@)
                + " AS __value,\n                                    CAST('1' AS UTINYINT) AS __source\n                         ) AS alternatives\n                         ORDER BY alternatives.__source\n                         LIMIT 1\n                     ) AS choice ON TRUE"@
        },
    }
}

/// How the candidates of a set-if-empty are grouped: by key, in match order.
pub open spec fn partition_text(keys: Seq<ValueRefView>, n_keys: nat) -> Seq<char> {
    if n_keys == 0 {
        ""@
    } else {
        "PARTITION BY "@ + join(ref_texts(keys, "prior"@), ", "@) + " "@
    }
}

/// The event of a candidate: actions in order, and matches in order within one.
pub open spec fn event_text(slot: SlotView, match_count: u64, event_offset: u64) -> Seq<char> {
    "CAST('"@
        + decimal(event_offset as nat)
        + "' AS UBIGINT)\n             + CAST('"@
        + decimal(slot.runtime_ordinal as nat)
        + "' AS UBIGINT) * CAST('"@
        + decimal(match_count as nat)
        + "' AS UBIGINT)\n             + prior.__match_ordinal AS __event"@
}

/// The statement that keeps, per key, the first candidate of a set-if-empty that
/// neither a durable row nor an earlier prediction forestalls.
pub open spec fn winner_sql(
    slot: SlotView,
    input_stage: Seq<char>,
    winner_stage: Seq<char>,
    ledger: Seq<char>,
    match_count: u64,
    event_offset: u64,
) -> Option<Seq<char>> {
    match slot.source {
        SlotSourceView::Read(ReadView::SetIfEmpty { target, n_keys, keys, defaults }) => {
            let projection = aliased(ref_texts(keys + defaults, "prior"@), "c"@).push(
                event_text(slot, match_count, event_offset),
            ).push(
                "row_number() OVER ("@ + partition_text(keys, n_keys as nat)
                    + "ORDER BY prior.__match_ordinal) AS __site_rank"@,
            );
            Some(
                "CREATE TEMP TABLE "@
                    + winner_stage
                    + " AS\n             SELECT candidate.* EXCLUDE (__site_rank)\n             FROM (\n                 SELECT "@
                    + join(projection, ", "@)
                    + "\n                 FROM "@
                    + input_stage
                    + " AS prior\n             ) AS candidate\n             WHERE candidate.__site_rank = 1\n               AND NOT EXISTS (\n                   SELECT 1 FROM "@
                    + table_text(target)
                    + " AS existing WHERE "@
                    + row_match_text("existing"@, "candidate"@, n_keys as nat)
                    + "\n               )\n               AND NOT EXISTS (\n                   SELECT 1 FROM "@
                    + ledger
                    + " AS predicted WHERE "@
                    + row_match_text("predicted"@, "candidate"@, n_keys as nat)
                    + "\n               )"@,
            )
        },
        _ => None,
    }
}

/// The columns of a winner that become the row of its effect.
pub open spec fn winner_columns(arity: nat) -> Seq<Seq<char>> {
    Seq::new(arity, |i: int| "winner.c"@ + decimal(i as nat))
}

/// The statement that turns winners into effect rows, in event order.
pub open spec fn prediction_effect_sql(
    effect: EffectView,
    winner_stage: Seq<char>,
    effect_stage: Seq<char>,
) -> Seq<char> {
    let projection = winner_columns(effect.arity as nat).push("winner.__event AS __ordinal"@);
    "CREATE TEMP TABLE "@
        + effect_stage
        + " AS\n             SELECT "@
        + join(projection, ", "@)
        + "\n             FROM "@
        + winner_stage
        + " AS winner\n             ORDER BY winner.__event"@
}

/// The query that must answer no before a slot may be materialized: a lookup
/// demands exactly one owner for every match, and a partial expression demands
/// that it is defined.
pub open spec fn preflight_sql(slot: SlotView, input_stage: Seq<char>) -> Option<Seq<char>> {
    match slot.source {
        SlotSourceView::Read(ReadView::Table { target, n_keys, keys, .. }) => Some(
            "SELECT EXISTS (\n                         SELECT 1\n                         FROM "@
                + input_stage
                + " AS prior\n                         LEFT JOIN LATERAL (\n                             SELECT count(existing.__generation) AS __owners\n                             FROM "@
                + table_text(target)
                + " AS existing\n                             WHERE "@
                + key_match_text("existing"@, keys, n_keys as nat, "prior"@)
                + "\n                         ) AS lookup ON TRUE\n                         WHERE lookup.__owners <> 1\n                     )"@,
        ),
        SlotSourceView::Expression { expression, inputs } => match defined_text(
            expression,
            ref_texts(inputs, "prior"@),
        ) {
            Some(defined) => Some(
                "SELECT EXISTS (SELECT 1 FROM "@
                    + input_stage
                    + " AS prior WHERE NOT ("@
                    + defined
                    + "))"@,
            ),
            None => None,
        },
        _ => None,
    }
}

/// A column type as diagnostics show it.
pub open spec fn ty_text(ty: ColumnTy) -> Seq<char> {
    match ty {
        ColumnTy::Id => "Id"@,
        ColumnTy::Base(id) => "Base(BaseValueId("@ + decimal(id.rep as nat) + "))"@,
    }
}

/// How a diagnostic names the action of a slot.
pub open spec fn slot_label(slot: SlotView) -> Seq<char> {
    "DuckDB scalar action "@ + decimal(slot.raw_action_ordinal as nat) + " (runtime "@ + decimal(
        slot.runtime_ordinal as nat,
    ) + ", result "@ + ty_text(slot.ty) + ") "@
}

/// What a failed check of a slot is reported as. Fresh slots have no check.
pub open spec fn slot_error_text(slot: SlotView) -> Seq<char> {
    match slot.source {
        SlotSourceView::Read(ReadView::Table { target, .. }) => slot_label(slot)
            + "Fail lookup for function "@ + decimal(target.rep as nat)
            + " did not have exactly one pre-wave owner"@,
        SlotSourceView::Expression { expression, .. } => slot_label(slot)
            + "evaluated undefined for authenticated token "@ + decimal(
            expression.token.rep as nat,
        ),
        _ => slot_label(slot) + "has duplicate durable pre-wave owners"@,
    }
}

/// The statement that turns head rows into the rows of an effect, numbered from
/// `first_event` in match order.
pub open spec fn effect_sql(
    effect: EffectView,
    head_stage: Seq<char>,
    effect_stage: Seq<char>,
    first_event: u64,
) -> Seq<char> {
    let projection = aliased(ref_texts(effect.arguments + effect.values, "head"@), "c"@).push(
        "CAST('"@ + decimal(first_event as nat)
            + "' AS UBIGINT) + head.__match_ordinal - 1 AS __ordinal"@,
    );
    let predicate = match effect.condition_slot {
        Some(slot) => "head.__missing_s"@ + decimal(slot as nat),
        None => "TRUE"@,
    };
    "CREATE TEMP TABLE "@
        + effect_stage
        + " AS\n             SELECT "@
        + join(projection, ", "@)
        + "\n             FROM "@
        + head_stage
        + " AS head\n             WHERE "@
        + predicate
        + "\n             ORDER BY head.__match_ordinal"@
}

/// The owner checks of a plan: one per read, then one per effect.
pub open spec fn read_check(slot: SlotView) -> Option<(FunctionId, usize, bool)> {
    match slot.source {
        SlotSourceView::Read(ReadView::Table { target, n_keys, .. }) => Some(
            (target, n_keys, false),
        ),
        SlotSourceView::Read(ReadView::SetIfEmpty { target, n_keys, .. }) => Some(
            (target, n_keys, false),
        ),
        SlotSourceView::Read(ReadView::ViewColumn { target, n_keys, .. }) => Some(
            (target, n_keys, false),
        ),
        _ => None,
    }
}

/// The owner checks of the slots, in slot order.
pub open spec fn read_checks(slots: Seq<SlotView>) -> Seq<(FunctionId, usize, bool)>
    decreases slots.len(),
{
    if slots.len() == 0 {
        Seq::empty()
    } else {
        match read_check(slots.last()) {
            Some(check) => read_checks(slots.drop_last()).push(check),
            None => read_checks(slots.drop_last()),
        }
    }
}

/// The owner checks of the effects, in effect order.
pub open spec fn effect_checks(effects: Seq<EffectView>) -> Seq<(FunctionId, usize, bool)> {
    effects.map_values(|e: EffectView| (e.target, e.n_keys, false))
}

/// The tables that some set-if-empty slot predicts.
pub open spec fn prediction_set(slots: Seq<SlotView>) -> Set<u32> {
    Set::new(
        |id: u32|
            exists|i: int|
                0 <= i < slots.len() && #[trigger] predicted_target(slots[i]) == Some(
                    FunctionId { rep: id },
                ),
    )
}

// ---------------------------------------------------------------------------
// Authorization.

/// The least key of `required` under which `live` has another entry or none.
pub open spec fn first_stale<V>(required: Map<u32, V>, live: Map<u32, V>, key: u32) -> bool {
    &&& required.contains_key(key)
    &&& entry(live, key) != Some(required[key])
    &&& forall|other: u32| #[trigger]
        required.contains_key(other) && other < key ==> entry(live, other) == Some(
            required[other],
        )
}

/// Every required entry is live.
pub open spec fn all_live<V>(required: Map<u32, V>, live: Map<u32, V>) -> bool {
    forall|key: u32| #[trigger]
        required.contains_key(key) ==> entry(live, key) == Some(required[key])
}

/// The least required token that is not live.
pub open spec fn first_absent(required: Set<u32>, live: Set<u32>, key: u32) -> bool {
    &&& required.contains(key)
    &&& !live.contains(key)
    &&& forall|other: u32| #[trigger]
        required.contains(other) && other < key ==> live.contains(other)
}

/// The refusal of a plan whose token lost its authority.
pub open spec fn stale(what: Seq<char>, token: u32) -> RejectionView {
    rejected(
        Scope::Bare,
        "DuckDB scalar action plan references a freed or reused "@ + what + decimal(token as nat),
    )
}

/// Every authority that a plan was admitted with is still live, epochs included.
pub open spec fn authorized(plan: PlanView, live: AuthorityRegistries) -> bool {
    &&& all_live(plan.required_native_primitives, live.native_primitives@)
    &&& all_live(plan.required_native_scalar_primitives, live.native_scalar_primitives@)
    &&& plan.required_fresh_tokens.subset_of(live.fresh_tokens@)
    &&& all_live(plan.required_fd_descriptors, fd_views(live.fd_descriptors@))
    &&& all_live(plan.required_authority_epochs, live.authority_epochs@)
}

/// Why a plan is not authorized. Kinds are checked before epochs, and tokens in
/// ascending order, so a diagnostic is as specific as it can be.
pub open spec fn unauthorized(
    plan: PlanView,
    live: AuthorityRegistries,
    error: RejectionView,
) -> bool {
    let native = all_live(plan.required_native_primitives, live.native_primitives@);
    let typed = all_live(
        plan.required_native_scalar_primitives,
        live.native_scalar_primitives@,
    );
    let fresh = plan.required_fresh_tokens.subset_of(live.fresh_tokens@);
    let fd = all_live(plan.required_fd_descriptors, fd_views(live.fd_descriptors@));
    if !native {
        exists|token: u32| #[trigger]
            first_stale(plan.required_native_primitives, live.native_primitives@, token) && error
                == stale("native token "@, token)
    } else if !typed {
        exists|token: u32| #[trigger]
            first_stale(
                plan.required_native_scalar_primitives,
                live.native_scalar_primitives@,
                token,
            ) && error == stale("native scalar token "@, token)
    } else if !fresh {
        exists|token: u32| #[trigger]
            first_absent(plan.required_fresh_tokens, live.fresh_tokens@, token) && error == stale(
                "get-fresh token "@,
                token,
            )
    } else if !fd {
        exists|token: u32| #[trigger]
            first_stale(
                plan.required_fd_descriptors,
                fd_views(live.fd_descriptors@),
                token,
            ) && error == stale("FD token "@, token)
    } else {
        exists|token: u32| #[trigger]
            first_stale(plan.required_authority_epochs, live.authority_epochs@, token) && error
                == stale("authority token "@, token)
    }
}


/// An authority that can be compared with a live one.
pub trait Comparable: View + Sized {
    fn same_authority(&self, other: &Self) -> (same: bool)
        ensures
            same == (self@ == other@),
    ;
}

impl View for NativePrimitive {
    type V = NativePrimitive;

    open spec fn view(&self) -> NativePrimitive {
        *self
    }
}

impl View for NativeScalarPrimitive {
    type V = NativeScalarPrimitive;

    open spec fn view(&self) -> NativeScalarPrimitive {
        *self
    }
}

impl Comparable for NativePrimitive {
    fn same_authority(&self, other: &Self) -> (same: bool) {
        *self == *other
    }
}

impl Comparable for NativeScalarPrimitive {
    fn same_authority(&self, other: &Self) -> (same: bool) {
        *self == *other
    }
}

impl Comparable for FdDescriptor {
    fn same_authority(&self, other: &Self) -> (same: bool) {
        self.same(other)
    }
}

impl Comparable for u64 {
    fn same_authority(&self, other: &Self) -> (same: bool) {
        *self == *other
    }
}

/// A map, through the views of its values.
pub open spec fn value_views<V: View>(map: Map<u32, V>) -> Map<u32, V::V> {
    map.map_values(|v: V| v@)
}

/// Finds the least required token whose authority is not live.
pub(crate) fn stale_token<V: Comparable>(required: &BTreeMap<u32, V>, live: &BTreeMap<u32, V>) -> (found:
    Option<u32>)
    ensures
        match found {
            Some(token) => first_stale(value_views(required@), value_views(live@), token),
            None => all_live(value_views(required@), value_views(live@)),
        },
{
    let keys = map_keys(required);
    let ghost wanted = value_views(required@);
    let ghost present = value_views(live@);
    let mut found: Option<u32> = None;
    let mut i: usize = 0;
    while i < keys.len()
        invariant
            i <= keys.len(),
            lists(keys@, required@.dom()),
            wanted == value_views(required@),
            present == value_views(live@),
            match found {
                Some(token) => {
                    &&& wanted.contains_key(token)
                    &&& entry(present, token) != Some(wanted[token])
                    &&& forall|j: int|
                        0 <= j < i && #[trigger] keys@[j] < token ==> entry(present, keys@[j])
                            == Some(wanted[keys@[j]])
                },
                None => forall|j: int|
                    0 <= j < i ==> entry(present, #[trigger] keys@[j]) == Some(wanted[keys@[j]]),
            },
        decreases keys.len() - i,
    {
        let key: u32 = keys[i];
        assert(required@.contains_key(key));
        let fits = match (required.get(&key), live.get(&key)) {
            (Some(descriptor), Some(current)) => current.same_authority(descriptor),
            _ => false,
        };
        if !fits {
            match found {
                Some(token) => {
                    if key < token {
                        found = Some(key);
                    }
                },
                None => {
                    found = Some(key);
                },
            }
        }
        i += 1;
    }
    proof {
        assert forall|key: u32| #[trigger] wanted.contains_key(key) implies exists|j: int|
            0 <= j < keys@.len() && keys@[j] == key by {
            assert(required@.dom().contains(key));
            assert(keys@.contains(key));
        }
        if found is None {
            assert forall|key: u32| #[trigger] wanted.contains_key(key) implies entry(present, key)
                == Some(wanted[key]) by {
                let j = choose|j: int| 0 <= j < keys@.len() && keys@[j] == key;
                assert(keys@[j] == key);
            }
        } else {
            let token = found->0;
            assert forall|other: u32| #[trigger]
                wanted.contains_key(other) && other < token implies entry(present, other) == Some(
                wanted[other],
            ) by {
                let j = choose|j: int| 0 <= j < keys@.len() && keys@[j] == other;
                assert(keys@[j] == other);
            }
        }
    }
    found
}

/// Finds the least required token that is not live.
fn absent_token(required: &BTreeSet<u32>, live: &BTreeSet<u32>) -> (found: Option<u32>)
    ensures
        match found {
            Some(token) => first_absent(required@, live@, token),
            None => required@.subset_of(live@),
        },
{
    let keys = set_keys(required);
    let mut found: Option<u32> = None;
    let mut i: usize = 0;
    while i < keys.len()
        invariant
            i <= keys.len(),
            lists(keys@, required@),
            match found {
                Some(token) => {
                    &&& required@.contains(token)
                    &&& !live@.contains(token)
                    &&& forall|j: int|
                        0 <= j < i && #[trigger] keys@[j] < token ==> live@.contains(keys@[j])
                },
                None => forall|j: int| 0 <= j < i ==> live@.contains(#[trigger] keys@[j]),
            },
        decreases keys.len() - i,
    {
        let key: u32 = keys[i];
        assert(required@.contains(key));
        if !live.contains(&key) {
            match found {
                Some(token) => {
                    if key < token {
                        found = Some(key);
                    }
                },
                None => {
                    found = Some(key);
                },
            }
        }
        i += 1;
    }
    proof {
        assert forall|key: u32| #[trigger] required@.contains(key) implies exists|j: int|
            0 <= j < keys@.len() && keys@[j] == key by {
            assert(keys@.contains(key));
        }
        if found is None {
            assert forall|key: u32| #[trigger] required@.contains(key) implies live@.contains(
                key,
            ) by {
                let j = choose|j: int| 0 <= j < keys@.len() && keys@[j] == key;
                assert(keys@[j] == key);
            }
        } else {
            let token = found->0;
            assert forall|other: u32| #[trigger]
                required@.contains(other) && other < token implies live@.contains(other) by {
                let j = choose|j: int| 0 <= j < keys@.len() && keys@[j] == other;
                assert(keys@[j] == other);
            }
        }
    }
    found
}

fn reject_stale(what: &str, token: u32) -> (rejection: Rejection)
    ensures
        rejection@ == stale(what@, token),
{
    let mut text = "DuckDB scalar action plan references a freed or reused ".to_owned();
    text.append(what);
    append_number(&mut text, token as u64);
    reject_with(Scope::Bare, text)
}

fn append_ty(text: &mut String, ty: ColumnTy)
    ensures
        final(text)@ == old(text)@ + ty_text(ty),
{
    match ty {
        ColumnTy::Id => {
            text.append("Id");
        },
        ColumnTy::Base(id) => {
            let mut shown = "Base(BaseValueId(".to_owned();
            append_number(&mut shown, id.rep as u64);
            shown.append("))");
            text.append(shown.as_str());
        },
    }
}

impl ScalarActionSlot {
    fn label(&self) -> (text: String)
        ensures
            text@ == slot_label(self@),
    {
        let mut text = "DuckDB scalar action ".to_owned();
        append_number(&mut text, self.raw_action_ordinal as u64);
        text.append(" (runtime ");
        append_number(&mut text, self.runtime_ordinal);
        text.append(", result ");
        append_ty(&mut text, self.ty);
        text.append(") ");
        text
    }

    /// The table whose rows the slot predicts.
    fn predicted(&self) -> (target: Option<FunctionId>)
        ensures
            target == predicted_target(self@),
    {
        match &self.source {
            ScalarActionSlotSource::Read(ScalarActionRead::SetIfEmpty { target, .. }) => Some(
                *target,
            ),
            _ => None,
        }
    }
}

impl ScalarActionPlan {
    /// Checks that every authority the plan was admitted with is still live.
    pub fn authorize(&self, live: &AuthorityRegistries) -> (checked: Result<(), Rejection>)
        ensures
            checked is Ok <==> authorized(self@, *live),
            checked is Err ==> unauthorized(self@, *live, checked->Err_0@),
    {
        proof {
            assert(value_views(self.required_native_primitives@)
                =~= self.required_native_primitives@);
            assert(value_views(live.native_primitives@) =~= live.native_primitives@);
            assert(value_views(self.required_native_scalar_primitives@)
                =~= self.required_native_scalar_primitives@);
            assert(value_views(live.native_scalar_primitives@) =~= live.native_scalar_primitives@);
            assert(value_views(self.required_authority_epochs@)
                =~= self.required_authority_epochs@);
            assert(value_views(live.authority_epochs@) =~= live.authority_epochs@);
            assert(value_views(self.required_fd_descriptors@) =~= fd_views(
                self.required_fd_descriptors@,
            ));
            assert(value_views(live.fd_descriptors@) =~= fd_views(live.fd_descriptors@));
        }
        match stale_token(&self.required_native_primitives, &live.native_primitives) {
            Some(token) => {
                return Err(reject_stale("native token ", token));
            },
            None => {},
        }
        match stale_token(&self.required_native_scalar_primitives, &live.native_scalar_primitives) {
            Some(token) => {
                return Err(reject_stale("native scalar token ", token));
            },
            None => {},
        }
        match absent_token(&self.required_fresh_tokens, &live.fresh_tokens) {
            Some(token) => {
                return Err(reject_stale("get-fresh token ", token));
            },
            None => {},
        }
        match stale_token(&self.required_fd_descriptors, &live.fd_descriptors) {
            Some(token) => {
                return Err(reject_stale("FD token ", token));
            },
            None => {},
        }
        match stale_token(&self.required_authority_epochs, &live.authority_epochs) {
            Some(token) => {
                return Err(reject_stale("authority token ", token));
            },
            None => {},
        }
        Ok(())
    }

    /// The number of fresh ids that each match consumes.
    pub fn fresh_slots(&self) -> (count: u64)
        ensures
            count == self@.fresh_slots,
    {
        self.fresh_slots
    }

    /// The number of actions that take part in event order.
    pub fn action_count(&self) -> (count: u64)
        ensures
            count == self@.action_count,
    {
        self.action_count
    }

    /// The action results, in order.
    pub fn slots(&self) -> (slots: &Vec<ScalarActionSlot>)
        ensures
            slot_views(slots@) == self@.slots,
    {
        &self.slots
    }

    /// The durable effects, in order.
    pub fn effects(&self) -> (effects: &Vec<ScalarEffectPlan>)
        ensures
            effect_views(effects@) == self@.effects,
    {
        &self.effects
    }

    /// The tables that need a prediction ledger.
    pub fn prediction_targets(&self) -> (targets: BTreeSet<u32>)
        ensures
            targets@ == prediction_set(self@.slots),
    {
        let mut targets: BTreeSet<u32> = BTreeSet::new();
        let mut i: usize = 0;
        while i < self.slots.len()
            invariant
                i <= self.slots.len(),
                forall|id: u32|
                    targets@.contains(id) <==> exists|j: int|
                        0 <= j < i && #[trigger] predicted_target(self@.slots[j]) == Some(
                            FunctionId { rep: id },
                        ),
            decreases self.slots.len() - i,
        {
            let ghost before = targets@;
            assert(self@.slots[i as int] == self.slots@[i as int]@);
            match self.slots[i].predicted() {
                Some(target) => {
                    targets.insert(target.rep);
                    assert(predicted_target(self@.slots[i as int]) == Some(
                        FunctionId { rep: target.rep },
                    ));
                },
                None => {},
            }
            assert forall|id: u32|
                targets@.contains(id) <==> exists|j: int|
                    0 <= j < i + 1 && #[trigger] predicted_target(self@.slots[j]) == Some(
                        FunctionId { rep: id },
                    ) by {
                if before.contains(id) {
                    let j = choose|j: int|
                        0 <= j < i && #[trigger] predicted_target(self@.slots[j]) == Some(
                            FunctionId { rep: id },
                        );
                    assert(predicted_target(self@.slots[j]) == Some(FunctionId { rep: id }));
                }
            }
            i += 1;
        }
        assert(targets@ =~= prediction_set(self@.slots));
        targets
    }

    /// The table that a slot predicts rows of.
    pub fn set_if_empty_target(&self, slot_index: usize) -> (target: Option<FunctionId>)
        requires
            slot_index < self.slots@.len(),
        ensures
            target == predicted_target(self@.slots[slot_index as int]),
    {
        self.slots[slot_index].predicted()
    }

    /// The owner checks to run before the plan: the reads, then the effects.
    pub fn owner_checks(&self) -> (checks: Vec<(FunctionId, usize, bool)>)
        ensures
            checks@ == read_checks(self@.slots) + effect_checks(self@.effects),
    {
        let mut checks: Vec<(FunctionId, usize, bool)> = Vec::new();
        let mut i: usize = 0;
        while i < self.slots.len()
            invariant
                i <= self.slots.len(),
                checks@ == read_checks(self@.slots.take(i as int)),
            decreases self.slots.len() - i,
        {
            let ghost shown = self@.slots.take(i as int + 1);
            assert(shown.drop_last() =~= self@.slots.take(i as int));
            assert(shown.last() == self.slots@[i as int]@);
            match &self.slots[i].source {
                ScalarActionSlotSource::Read(read) => {
                    let check = match read {
                        ScalarActionRead::Table { target, n_keys, .. } => (*target, *n_keys, false),
                        ScalarActionRead::SetIfEmpty { target, n_keys, .. } => (
                            *target,
                            *n_keys,
                            false,
                        ),
                        ScalarActionRead::ViewColumn { target, n_keys, .. } => (
                            *target,
                            *n_keys,
                            false,
                        ),
                    };
                    checks.push(check);
                },
                _ => {},
            }
            i += 1;
        }
        assert(self@.slots.take(self.slots@.len() as int) =~= self@.slots);
        let ghost reads = checks@;
        let mut k: usize = 0;
        while k < self.effects.len()
            invariant
                k <= self.effects.len(),
                checks@ =~= reads + effect_checks(self@.effects).take(k as int),
            decreases self.effects.len() - k,
        {
            let effect = &self.effects[k];
            checks.push((effect.target, effect.n_keys, false));
            k += 1;
        }
        assert(effect_checks(self@.effects).take(self.effects@.len() as int) =~= effect_checks(
            self@.effects,
        ));
        checks
    }

    /// Renders the statement that materializes the matches.
    pub fn materialize_match_sql(&self, stage: &str, watermark: u64) -> (sql: String)
        requires
            scratch_name(stage@),
        ensures
            sql@ == match_sql(self@, stage@, watermark),
    {
        assert_scratch_name(stage);
        let mut predicates = copy_strings(&self.match_predicates);
        let mut projection = alias_strings(&self.match_projection, "b");
        let ghost tests = predicates@;
        let ghost named = projection@;
        if self.match_from.len() == 0 {
            let run = !self.seminaive || watermark == 0;
            let gate = if run {
                "TRUE".to_owned()
            } else {
                "FALSE".to_owned()
            };
            predicates.push(gate);
            let ordinal = "CAST('1' AS UBIGINT) AS __match_ordinal".to_owned();
            projection.push(ordinal);
            proof {
                lemma_texts_push(tests, gate);
                lemma_texts_push(named, ordinal);
            }
            let columns = join_strings(&projection, ", ");
            let condition = join_strings(&predicates, " AND ");
            let mut sql = "CREATE TEMP TABLE ".to_owned();
            sql.append(stage);
            sql.append(" AS\n                 SELECT ");
            sql.append(columns.as_str());
            sql.append("\n                 WHERE ");
            sql.append(condition.as_str());
            return sql;
        }
        if self.seminaive {
            let mut fresh: Vec<String> = Vec::new();
            let mut i: usize = 0;
            while i < self.freshness_columns.len()
                invariant
                    i <= self.freshness_columns.len(),
                    fresh.len() == i,
                    forall|j: int|
                        0 <= j < i ==> fresh@[j]@ == self.freshness_columns@[j]@ + " >= CAST('"@
                            + decimal(watermark as nat) + "' AS UBIGINT)"@,
                decreases self.freshness_columns.len() - i,
            {
                let mut test = self.freshness_columns[i].clone();
                test.append(" >= CAST('");
                append_number(&mut test, watermark);
                test.append("' AS UBIGINT)");
                fresh.push(test);
                i += 1;
            }
            assert(texts(fresh@) =~= freshness_tests(texts(self.freshness_columns@), watermark));
            let any = join_strings(&fresh, " OR ");
            let mut test = "(".to_owned();
            test.append(any.as_str());
            test.append(")");
            predicates.push(test);
            proof {
                lemma_texts_push(tests, test);
            }
        }
        let order = join_strings(&self.order_columns, ", ");
        let mut ordinal = "row_number() OVER (ORDER BY ".to_owned();
        ordinal.append(order.as_str());
        ordinal.append(") AS __match_ordinal");
        projection.push(ordinal);
        proof {
            lemma_texts_push(named, ordinal);
        }
        let columns = join_strings(&projection, ", ");
        let tables = join_strings(&self.match_from, " CROSS JOIN ");
        let condition = join_strings(&predicates, " AND ");
        let mut sql = "CREATE TEMP TABLE ".to_owned();
        sql.append(stage);
        sql.append(" AS\n             SELECT ");
        sql.append(columns.as_str());
        sql.append("\n             FROM ");
        sql.append(tables.as_str());
        sql.append("\n             WHERE ");
        sql.append(condition.as_str());
        sql
    }

    /// Renders the statement that adds the result of a slot to every match. A
    /// set-if-empty slot needs the prediction ledger of its table.
    pub fn materialize_slot_sql(
        &self,
        input_stage: &str,
        output_stage: &str,
        slot_index: usize,
        first_fresh: u64,
        match_count: u64,
        prediction_ledger: Option<&str>,
    ) -> (sql: String)
        requires
            slot_index < self.slots@.len(),
            scratch_name(input_stage@),
            scratch_name(output_stage@),
            prediction_ledger is Some ==> scratch_name(prediction_ledger->0@),
            predicted_target(self@.slots[slot_index as int]) is Some ==> prediction_ledger is Some,
        ensures
            sql@ == slot_sql(
                self@.slots[slot_index as int],
                input_stage@,
                output_stage@,
                slot_index as nat,
                first_fresh,
                match_count,
                match prediction_ledger {
                    Some(ledger) => ledger@,
                    None => ""@,
                },
            ),
    {
        assert_scratch_name(input_stage);
        assert_scratch_name(output_stage);
        let slot = &self.slots[slot_index];
        match &slot.source {
            ScalarActionSlotSource::Fresh { rank } => {
                let mut sql = "CREATE TEMP TABLE ".to_owned();
                sql.append(output_stage);
                sql.append(" AS\n                 SELECT prior.*,\n                        CAST('");
                append_number(&mut sql, first_fresh);
                sql.append("' AS UBIGINT)\n                            + CAST('");
                append_number(&mut sql, *rank);
                sql.append("' AS UBIGINT) * CAST('");
                append_number(&mut sql, match_count);
                sql.append("' AS UBIGINT)\n                            + prior.__match_ordinal - 1 AS s");
                append_number(&mut sql, slot_index as u64);
                sql.append("\n                 FROM ");
                sql.append(input_stage);
                sql.append(" AS prior");
                sql
            },
            ScalarActionSlotSource::Expression { expression, inputs } => {
                let arguments = render_refs(inputs, "prior");
                let rendered = expression.render(&arguments);
                let mut sql = "CREATE TEMP TABLE ".to_owned();
                sql.append(output_stage);
                sql.append(" AS\n                     SELECT prior.*, ");
                sql.append(rendered.value.as_str());
                sql.append(" AS s");
                append_number(&mut sql, slot_index as u64);
                sql.append("\n                     FROM ");
                sql.append(input_stage);
                sql.append(" AS prior");
                sql
            },
            ScalarActionSlotSource::Read(
                ScalarActionRead::Table { target, n_keys, result_column, keys },
            ) => {
                let equality = render_read_equality(keys, *n_keys, "prior");
                let table = sql_table(*target);
                let mut sql = "CREATE TEMP TABLE ".to_owned();
                sql.append(output_stage);
                sql.append(" AS\n                     SELECT prior.*,\n                            existing.c");
                append_number(&mut sql, *result_column as u64);
                sql.append(" AS s");
                append_number(&mut sql, slot_index as u64);
                sql.append("\n                     FROM ");
                sql.append(input_stage);
                sql.append(" AS prior\n                     JOIN ");
                sql.append(table.as_str());
                sql.append(" AS existing ON ");
                sql.append(equality.as_str());
                sql
            },
            ScalarActionSlotSource::Read(
                ScalarActionRead::SetIfEmpty { target, n_keys, keys, .. },
            ) => {
                let ledger = match prediction_ledger {
                    Some(ledger) => ledger,
                    None => "",
                };
                assert_scratch_name(ledger);
                let durable_equality = render_read_equality(keys, *n_keys, "prior");
                let ledger_equality = render_scratch_key_equality(
                    keys,
                    *n_keys,
                    "predicted",
                    "prior",
                );
                let table = sql_table(*target);
                let mut sql = "CREATE TEMP TABLE ".to_owned();
                sql.append(output_stage);
                sql.append(" AS\n                     SELECT prior.*,\n                            choice.__value AS s");
                append_number(&mut sql, slot_index as u64);
                sql.append("\n                     FROM ");
                sql.append(input_stage);
                sql.append(" AS prior\n                     JOIN LATERAL (\n                         SELECT alternatives.__value\n                         FROM (\n                             SELECT existing.c");
                append_number(&mut sql, *n_keys as u64);
                sql.append(" AS __value,\n                                    CAST('0' AS UTINYINT) AS __source\n                             FROM ");
                sql.append(table.as_str());
                sql.append(" AS existing\n                             WHERE ");
                sql.append(durable_equality.as_str());
                sql.append("\n                             UNION ALL\n                             SELECT predicted.c");
                append_number(&mut sql, *n_keys as u64);
                sql.append(" AS __value,\n                                    CAST('1' AS UTINYINT) AS __source\n                             FROM ");
                sql.append(ledger);
                sql.append(" AS predicted\n                             WHERE ");
                sql.append(ledger_equality.as_str());
                sql.append("\n                         ) AS alternatives\n                         ORDER BY alternatives.__source\n                         LIMIT 1\n                     ) AS choice ON TRUE");
                sql
            },
            ScalarActionSlotSource::Read(
                ScalarActionRead::ViewColumn { target, n_keys, result_column, keys, fallback },
            ) => {
                let equality = render_read_equality(keys, *n_keys, "prior");
                let table = sql_table(*target);
                let fallback = render_general_ref(fallback, "prior");
                let mut sql = "CREATE TEMP TABLE ".to_owned();
                sql.append(output_stage);
                sql.append(" AS\n                     SELECT prior.*,\n                            choice.__value AS s");
                append_number(&mut sql, slot_index as u64);
                sql.append("\n                     FROM ");
                sql.append(input_stage);
                sql.append(" AS prior\n                     JOIN LATERAL (\n                         SELECT alternatives.__value\n                         FROM (\n                             SELECT existing.c");
                append_number(&mut sql, *result_column as u64);
                sql.append(" AS __value,\n                                    CAST('0' AS UTINYINT) AS __source\n                             FROM ");
                sql.append(table.as_str());
                sql.append(" AS existing\n                             WHERE ");
                sql.append(equality.as_str());
                sql.append("\n                             UNION ALL\n                             SELECT ");
                sql.append(fallback.as_str());
                sql.append(" AS __value,\n                                    CAST('1' AS UTINYINT) AS __source\n                         ) AS alternatives\n                         ORDER BY alternatives.__source\n                         LIMIT 1\n                     ) AS choice ON TRUE");
                sql
            },
        }
    }

    /// Renders the statement that picks the winning predictions of a
    /// set-if-empty slot; other slots make none.
    pub fn materialize_prediction_winner_sql(
        &self,
        input_stage: &str,
        winner_stage: &str,
        ledger: &str,
        slot_index: usize,
        match_count: u64,
        event_offset: u64,
    ) -> (sql: Option<String>)
        requires
            slot_index < self.slots@.len(),
            scratch_name(input_stage@),
            scratch_name(winner_stage@),
            scratch_name(ledger@),
        ensures
            match (
                sql,
                winner_sql(
                    self@.slots[slot_index as int],
                    input_stage@,
                    winner_stage@,
                    ledger@,
                    match_count,
                    event_offset,
                ),
            ) {
                (Some(text), Some(model)) => text@ == model,
                (None, None) => true,
                _ => false,
            },
    {
        assert_scratch_name(input_stage);
        assert_scratch_name(winner_stage);
        assert_scratch_name(ledger);
        let slot = &self.slots[slot_index];
        match &slot.source {
            ScalarActionSlotSource::Read(
                ScalarActionRead::SetIfEmpty { target, n_keys, keys, defaults },
            ) => {
                let mut values = render_refs(keys, "prior");
                let mut rest = render_refs(defaults, "prior");
                let ghost key_texts = values@;
                let ghost default_texts = rest@;
                values.append(&mut rest);
                proof {
                    let all = ref_views(keys@) + ref_views(defaults@);
                    assert(texts(values@) =~= texts(key_texts) + texts(default_texts));
                    assert(texts(values@) =~= ref_texts(all, "prior"@));
                }
                let mut projection = alias_strings(&values, "c");
                let ghost named = projection@;
                let mut event = "CAST('".to_owned();
                append_number(&mut event, event_offset);
                event.append("' AS UBIGINT)\n             + CAST('");
                append_number(&mut event, slot.runtime_ordinal);
                event.append("' AS UBIGINT) * CAST('");
                append_number(&mut event, match_count);
                event.append("' AS UBIGINT)\n             + prior.__match_ordinal AS __event");
                projection.push(event);
                let ghost with_event = projection@;
                let partition = if *n_keys == 0 {
                    "".to_owned()
                } else {
                    let grouped = render_refs(keys, "prior");
                    let columns = join_strings(&grouped, ", ");
                    let mut text = "PARTITION BY ".to_owned();
                    text.append(columns.as_str());
                    text.append(" ");
                    text
                };
                let mut rank = "row_number() OVER (".to_owned();
                rank.append(partition.as_str());
                rank.append("ORDER BY prior.__match_ordinal) AS __site_rank");
                projection.push(rank);
                proof {
                    lemma_texts_push(named, event);
                    lemma_texts_push(with_event, rank);
                }
                let columns = join_strings(&projection, ", ");
                let durable_equality = render_row_key_equality(*n_keys, "existing", "candidate");
                let ledger_equality = render_row_key_equality(*n_keys, "predicted", "candidate");
                let table = sql_table(*target);
                let mut sql = "CREATE TEMP TABLE ".to_owned();
                sql.append(winner_stage);
                sql.append(" AS\n             SELECT candidate.* EXCLUDE (__site_rank)\n             FROM (\n                 SELECT ");
                sql.append(columns.as_str());
                sql.append("\n                 FROM ");
                sql.append(input_stage);
                sql.append(" AS prior\n             ) AS candidate\n             WHERE candidate.__site_rank = 1\n               AND NOT EXISTS (\n                   SELECT 1 FROM ");
                sql.append(table.as_str());
                sql.append(" AS existing WHERE ");
                sql.append(durable_equality.as_str());
                sql.append("\n               )\n               AND NOT EXISTS (\n                   SELECT 1 FROM ");
                sql.append(ledger);
                sql.append(" AS predicted WHERE ");
                sql.append(ledger_equality.as_str());
                sql.append("\n               )");
                Some(sql)
            },
            _ => None,
        }
    }

    /// The set-if-empty slot whose winners are the rows of an effect.
    pub fn prediction_effect_slot(&self, effect: &ScalarEffectPlan) -> (slot: Option<usize>)
        requires
            effect.condition_slot is Some ==> effect.condition_slot->0 < self.slots@.len(),
        ensures
            slot == match effect@.condition_slot {
                Some(index) => if predicted_target(self@.slots[index as int]) is Some {
                    Some(index)
                } else {
                    None
                },
                None => None,
            },
    {
        match effect.condition_slot {
            Some(index) => {
                if self.slots[index].predicted().is_some() {
                    Some(index)
                } else {
                    None
                }
            },
            None => None,
        }
    }

    /// Renders the statement that turns winners into effect rows.
    pub fn materialize_prediction_effect_sql(
        &self,
        winner_stage: &str,
        effect_stage: &str,
        effect: &ScalarEffectPlan,
    ) -> (sql: String)
        requires
            scratch_name(winner_stage@),
            scratch_name(effect_stage@),
        ensures
            sql@ == prediction_effect_sql(effect@, winner_stage@, effect_stage@),
    {
        assert_scratch_name(winner_stage);
        assert_scratch_name(effect_stage);
        let mut projection: Vec<String> = Vec::new();
        let mut i: usize = 0;
        while i < effect.arity
            invariant
                i <= effect.arity,
                projection.len() == i,
                forall|j: int|
                    0 <= j < i ==> projection@[j]@ == "winner.c"@ + decimal(j as nat),
            decreases effect.arity - i,
        {
            let mut column = "winner.c".to_owned();
            append_number(&mut column, i as u64);
            projection.push(column);
            i += 1;
        }
        assert(texts(projection@) =~= winner_columns(effect.arity as nat));
        let ghost named = projection@;
        let event = "winner.__event AS __ordinal".to_owned();
        projection.push(event);
        proof {
            lemma_texts_push(named, event);
        }
        let columns = join_strings(&projection, ", ");
        let mut sql = "CREATE TEMP TABLE ".to_owned();
        sql.append(effect_stage);
        sql.append(" AS\n             SELECT ");
        sql.append(columns.as_str());
        sql.append("\n             FROM ");
        sql.append(winner_stage);
        sql.append(" AS winner\n             ORDER BY winner.__event");
        sql
    }

    /// Renders the query that must answer no before a slot is materialized. It
    /// runs against the durable rows from before the wave, so no scratch
    /// relation with a result can exist by the time it fails.
    pub fn slot_preflight_sql(&self, input_stage: &str, slot_index: usize) -> (sql: Option<String>)
        requires
            slot_index < self.slots@.len(),
            scratch_name(input_stage@),
        ensures
            match (sql, preflight_sql(self@.slots[slot_index as int], input_stage@)) {
                (Some(text), Some(model)) => text@ == model,
                (None, None) => true,
                _ => false,
            },
    {
        assert_scratch_name(input_stage);
        match &self.slots[slot_index].source {
            ScalarActionSlotSource::Read(
                ScalarActionRead::Table { target, n_keys, keys, .. },
            ) => {
                let equality = render_read_equality(keys, *n_keys, "prior");
                let table = sql_table(*target);
                let mut sql = "SELECT EXISTS (\n                         SELECT 1\n                         FROM ".to_owned();
                sql.append(input_stage);
                sql.append(" AS prior\n                         LEFT JOIN LATERAL (\n                             SELECT count(existing.__generation) AS __owners\n                             FROM ");
                sql.append(table.as_str());
                sql.append(" AS existing\n                             WHERE ");
                sql.append(equality.as_str());
                sql.append("\n                         ) AS lookup ON TRUE\n                         WHERE lookup.__owners <> 1\n                     )");
                Some(sql)
            },
            ScalarActionSlotSource::Expression { expression, inputs } => {
                let arguments = render_refs(inputs, "prior");
                let rendered = expression.render(&arguments);
                match rendered.defined {
                    Some(defined) => {
                        let mut sql = "SELECT EXISTS (SELECT 1 FROM ".to_owned();
                        sql.append(input_stage);
                        sql.append(" AS prior WHERE NOT (");
                        sql.append(defined.as_str());
                        sql.append("))");
                        Some(sql)
                    },
                    None => None,
                }
            },
            _ => None,
        }
    }

    /// No check remains once a slot is materialized, whatever the slot.
    pub fn slot_invalid_sql(&self, stage: &str, slot_index: usize) -> (sql: Option<String>)
        requires
            scratch_name(stage@),
        ensures
            sql is None,
    {
        assert_scratch_name(stage);
        let _ = slot_index;
        None
    }

    /// Renders what a failed check of a slot means.
    pub fn slot_error(&self, slot_index: usize) -> (text: String)
        requires
            slot_index < self.slots@.len(),
            !(self@.slots[slot_index as int].source is Fresh),
        ensures
            text@ == slot_error_text(self@.slots[slot_index as int]),
    {
        let slot = &self.slots[slot_index];
        let mut text = slot.label();
        match &slot.source {
            ScalarActionSlotSource::Read(ScalarActionRead::Table { target, .. }) => {
                text.append("Fail lookup for function ");
                append_number(&mut text, target.rep as u64);
                text.append(" did not have exactly one pre-wave owner");
            },
            ScalarActionSlotSource::Expression { expression, .. } => {
                text.append("evaluated undefined for authenticated token ");
                append_number(&mut text, expression.token().rep as u64);
            },
            _ => {
                text.append("has duplicate durable pre-wave owners");
            },
        }
        text
    }

    /// Renders the statement that turns head rows into effect rows.
    pub fn materialize_effect_sql(
        &self,
        head_stage: &str,
        effect_stage: &str,
        effect: &ScalarEffectPlan,
        first_event: u64,
    ) -> (sql: String)
        requires
            scratch_name(head_stage@),
            scratch_name(effect_stage@),
        ensures
            sql@ == effect_sql(effect@, head_stage@, effect_stage@, first_event),
    {
        assert_scratch_name(head_stage);
        assert_scratch_name(effect_stage);
        let mut values = render_refs(&effect.arguments, "head");
        let mut rest = render_refs(&effect.values, "head");
        let ghost argument_texts = values@;
        let ghost value_texts = rest@;
        values.append(&mut rest);
        proof {
            let all = effect@.arguments + effect@.values;
            assert(texts(values@) =~= texts(argument_texts) + texts(value_texts));
            assert(texts(values@) =~= ref_texts(all, "head"@));
        }
        let mut projection = alias_strings(&values, "c");
        let ghost named = projection@;
        let mut ordinal = "CAST('".to_owned();
        append_number(&mut ordinal, first_event);
        ordinal.append("' AS UBIGINT) + head.__match_ordinal - 1 AS __ordinal");
        projection.push(ordinal);
        proof {
            lemma_texts_push(named, ordinal);
        }
        let columns = join_strings(&projection, ", ");
        let predicate = match effect.condition_slot {
            Some(slot) => {
                let mut text = "head.__missing_s".to_owned();
                append_number(&mut text, slot as u64);
                text
            },
            None => "TRUE".to_owned(),
        };
        let mut sql = "CREATE TEMP TABLE ".to_owned();
        sql.append(effect_stage);
        sql.append(" AS\n             SELECT ");
        sql.append(columns.as_str());
        sql.append("\n             FROM ");
        sql.append(head_stage);
        sql.append(" AS head\n             WHERE ");
        sql.append(predicate.as_str());
        sql.append("\n             ORDER BY head.__match_ordinal");
        sql
    }
}

} // verus!
