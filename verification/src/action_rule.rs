//! Lowering of scalar rules: one match relation, then a stream of actions.
//!
//! Admission records one closed, typed SQL plan. Once a rule lies inside the
//! supported vocabulary, every operation in it is validated before the rule
//! can get an id.

use std::collections::{BTreeMap, BTreeSet};

use vstd::prelude::*;

use crate::action_body::{compile_scalar_body, ScalarBodyPlan};
use crate::action_plan::{
    copy_refs, stale_token, ScalarActionPlan, ScalarActionRead, ScalarActionSlot,
    ScalarActionSlotSource, ScalarEffectKind, ScalarEffectPlan, ScalarLiteral, ScalarValueRef,
};
use crate::authority::{AuthorityRegistries, FdDescriptor, NativePrimitive, NativeScalarPrimitive};
use crate::base::ScalarSqlType;
use crate::catalog::{Catalog, TableInfo, WriteCapability};
use crate::ir::{
    argument_ty, argument_tys, AtomTerm, Change, ColumnTy, CoreAction, DefaultVal,
    ExternalFunctionId, FunctionId, RuleActionCall, RuleSpec, RuleVar,
};
use crate::keys::{map_keys, set_keys};
use crate::merge_program::{MergeOp, MergeOpKind, MergePrimitive};
use crate::rejection::{reject, reject_because, reject_with, Rejection, Scope};
use crate::scalar_expr::{ScalarAuthority, ScalarExpression};
use crate::text::append_number;
#[allow(unused_imports)]
use crate::action_body::{
    lemma_mark, refused, retyped, row_views, scalar_body, unmarked, BodyBindingView, BodyView,
};
#[allow(unused_imports)]
use crate::action_plan::{
    all_live, effect_views, first_stale, ref_views, slot_views, value_views, EffectView, PlanView,
    ReadView, SlotSourceView, SlotView, ValueRefView,
};
#[allow(unused_imports)]
use crate::authority::{entry, fd_view_name, fd_views, FdDescriptorView};
#[allow(unused_imports)]
use crate::catalog::{table_at, table_named, typed_literal};
#[allow(unused_imports)]
use crate::ir::{term_ty, Atom};
#[allow(unused_imports)]
use crate::keys::lists;
#[allow(unused_imports)]
use crate::merge_program::{op_views, supported, MergeOpKindView, MergeOpView, MergePrimitiveView};
#[allow(unused_imports)]
use crate::rejection::{
    agrees, agrees_if_owned, rejected, rejected_because, steps_to, RejectionView,
};
#[allow(unused_imports)]
use crate::scalar_expr::authenticated;
#[allow(unused_imports)]
use crate::text::decimal;
use egglog_core_relations::BaseValues;

verus! {

/// A variable with its value.
#[derive(Debug)]
pub struct BoundValue {
    pub ty: ColumnTy,
    pub value: ScalarValueRef,
}

/// What a bound variable says.
pub struct BoundView {
    pub ty: ColumnTy,
    pub value: ValueRefView,
}

impl View for BoundValue {
    type V = BoundView;

    open spec fn view(&self) -> BoundView {
        BoundView { ty: self.ty, value: self.value@ }
    }
}

/// A partly compiled action stream.
pub struct StreamView {
    pub bindings: Map<u32, BoundView>,
    pub slots: Seq<SlotView>,
    pub effects: Seq<EffectView>,
    pub fresh_rank: u64,
    pub runtime_ordinal: u64,
    pub required_fresh_tokens: Set<u32>,
    pub required_fd_descriptors: Map<u32, FdDescriptorView>,
    pub required_native_primitives: Map<u32, NativePrimitive>,
    pub required_native_scalar_primitives: Map<u32, NativeScalarPrimitive>,
    pub required_authority_epochs: Map<u32, u64>,
}

/// A term as a value of the expected type.
pub open spec fn term_value(
    catalog: Catalog,
    bindings: Map<u32, BoundView>,
    term: AtomTerm,
    expected: ColumnTy,
    context: Seq<char>,
) -> Result<ValueRefView, RejectionView> {
    match term {
        AtomTerm::Var(variable) => if variable.ty != expected {
            Err(refused(context + " has a mistyped variable"@))
        } else if !bindings.contains_key(variable.id) {
            Err(
                refused(
                    context + " uses variable id "@ + decimal(variable.id as nat)
                        + " before binding"@,
                ),
            )
        } else if bindings[variable.id].ty != variable.ty {
            Err(retyped(variable))
        } else {
            Ok(bindings[variable.id].value)
        },
        AtomTerm::Literal(literal) => if literal.ty != expected {
            Err(refused(context + " has a mistyped literal"@))
        } else {
            match typed_literal(catalog, expected, literal.value) {
                Err(error) => Err(error),
                Ok((scalar, sql)) => Ok(ValueRefView::Literal { value: literal, scalar, sql }),
            }
        },
        AtomTerm::Global(_) => Err(refused(context + " contains an unsupported global"@)),
    }
}

/// Terms as values of the types at their positions, from `from` on.
pub open spec fn term_values(
    catalog: Catalog,
    bindings: Map<u32, BoundView>,
    terms: Seq<AtomTerm>,
    tys: Seq<ColumnTy>,
    context: Seq<char>,
    from: int,
    done: Seq<ValueRefView>,
) -> Result<Seq<ValueRefView>, RejectionView>
    decreases terms.len() - from,
{
    if from < 0 || from >= terms.len() {
        Ok(done)
    } else {
        match term_value(catalog, bindings, terms[from], tys[from], context) {
            Err(error) => Err(error),
            Ok(value) => term_values(
                catalog,
                bindings,
                terms,
                tys,
                context,
                from + 1,
                done.push(value),
            ),
        }
    }
}

/// Binds a variable that has no value yet.
pub open spec fn bind_value(
    stream: StreamView,
    variable: RuleVar,
    value: ValueRefView,
    context: Seq<char>,
) -> Result<StreamView, RejectionView> {
    if stream.bindings.contains_key(variable.id) {
        Err(refused(context + " rebinds SSA variable id "@ + decimal(variable.id as nat)))
    } else {
        Ok(
            StreamView {
                bindings: stream.bindings.insert(
                    variable.id,
                    BoundView { ty: variable.ty, value },
                ),
                ..stream
            },
        )
    }
}

/// Binds a variable to the result of an action.
pub open spec fn bind_slot(
    stream: StreamView,
    raw: usize,
    variable: RuleVar,
    source: SlotSourceView,
) -> Result<StreamView, RejectionView> {
    match bind_value(
        stream,
        variable,
        ValueRefView::Slot(stream.slots.len() as usize),
        "Let"@,
    ) {
        Err(error) => Err(error),
        Ok(bound) => Ok(
            StreamView {
                slots: stream.slots.push(
                    SlotView {
                        raw_action_ordinal: raw,
                        runtime_ordinal: stream.runtime_ordinal,
                        ty: variable.ty,
                        source,
                    },
                ),
                ..bound
            },
        ),
    }
}

/// How a diagnostic names an action.
pub open spec fn action_text(raw: usize) -> Seq<char> {
    "action "@ + decimal(raw as nat)
}

/// A refusal of one action.
pub open spec fn refused_action(raw: usize, tail: Seq<char>) -> RejectionView {
    refused("action "@ + decimal(raw as nat) + tail)
}

// ---------------------------------------------------------------------------
// Merge programs behind generic writes.

/// Remembers the authority of one merge operation.
pub open spec fn retain_op(stream: StreamView, target: FunctionId, op: MergeOpView) -> Result<
    StreamView,
    RejectionView,
> {
    match op.kind {
        MergeOpKindView::Primitive { primitive, .. } => match primitive {
            MergePrimitiveView::Fresh { token } => Ok(
                StreamView {
                    required_fresh_tokens: stream.required_fresh_tokens.insert(token.rep),
                    ..stream
                },
            ),
            MergePrimitiveView::Fd { token, descriptor } => Ok(
                StreamView {
                    required_fd_descriptors: stream.required_fd_descriptors.insert(
                        token.rep,
                        descriptor,
                    ),
                    ..stream
                },
            ),
            MergePrimitiveView::Scalar(expression) => Ok(
                retain_authority(stream, expression.token, expression.authority),
            ),
            MergePrimitiveView::Unauthenticated { token } => Err(
                refused(
                    "target "@ + decimal(target.rep as nat) + " has unauthenticated merge token "@
                        + decimal(token.rep as nat),
                ),
            ),
        },
        _ => Ok(stream),
    }
}

/// Remembers the authority of an expression.
pub open spec fn retain_authority(
    stream: StreamView,
    token: ExternalFunctionId,
    authority: ScalarAuthority,
) -> StreamView {
    match authority {
        ScalarAuthority::Native(descriptor) => StreamView {
            required_native_primitives: stream.required_native_primitives.insert(
                token.rep,
                descriptor,
            ),
            ..stream
        },
        ScalarAuthority::Typed(descriptor) => StreamView {
            required_native_scalar_primitives: stream.required_native_scalar_primitives.insert(
                token.rep,
                descriptor,
            ),
            ..stream
        },
    }
}

/// Remembers the authorities of the operations from `from` on.
pub open spec fn retain_ops(
    stream: StreamView,
    target: FunctionId,
    ops: Seq<MergeOpView>,
    from: int,
) -> Result<StreamView, RejectionView>
    decreases ops.len() - from,
{
    if from < 0 || from >= ops.len() {
        Ok(stream)
    } else {
        match retain_op(stream, target, ops[from]) {
            Err(error) => Err(error),
            Ok(after) => retain_ops(after, target, ops, from + 1),
        }
    }
}

/// Checks and remembers everything that the merge of one table rests on: it can
/// run, and its tokens still have the epochs of its registration.
pub open spec fn retain_table(
    live_epochs: Map<u32, u64>,
    stream: StreamView,
    target: FunctionId,
    info: TableInfo,
) -> Result<StreamView, RejectionView> {
    let program = info.merge_program@;
    match supported(program, info.name@) {
        Err(error) => Err(error),
        Ok(_) => if !all_live(program.required_authorities, live_epochs) {
            let token = choose|token: u32| first_stale(
                program.required_authorities,
                live_epochs,
                token,
            );
            Err(
                refused(
                    "target "@ + decimal(target.rep as nat)
                        + " has a stale registration authority token "@ + decimal(token as nat),
                ),
            )
        } else {
            let remembered = StreamView {
                required_authority_epochs: stream.required_authority_epochs.union_prefer_right(
                    program.required_authorities,
                ),
                ..stream
            };
            retain_ops(remembered, target, program.ops, 0)
        },
    }
}

/// The members of a set below `count`, ascending.
pub open spec fn ascending(set: Set<u32>, count: nat) -> Seq<u32>
    decreases count,
{
    if count == 0 {
        Seq::empty()
    } else {
        let earlier = ascending(set, (count - 1) as nat);
        if set.contains((count - 1) as u32) {
            earlier.push((count - 1) as u32)
        } else {
            earlier
        }
    }
}

/// Retains every table that a merge can reach through its writes. The table at
/// the end of `pending` comes first.
pub open spec fn retain_closure(
    catalog: Catalog,
    live_epochs: Map<u32, u64>,
    stream: StreamView,
    pending: Seq<u32>,
    visited: Seq<bool>,
) -> Result<StreamView, RejectionView>
    decreases unmarked(visited, catalog.tables@.len()), pending.len(),
    when visited.len() == catalog.tables@.len()
    via retain_closure_decreases
{
    if pending.len() == 0 {
        Ok(stream)
    } else {
        let target = FunctionId { rep: pending.last() };
        match table_at(catalog, target) {
            Err(error) => Err(error),
            Ok(info) => if visited[target.rep as int] {
                retain_closure(catalog, live_epochs, stream, pending.drop_last(), visited)
            } else {
                match retain_table(live_epochs, stream, target, info) {
                    Err(error) => Err(error),
                    Ok(after) => retain_closure(
                        catalog,
                        live_epochs,
                        after,
                        pending.drop_last() + ascending(
                            info.merge_program.write_targets@,
                            catalog.tables@.len(),
                        ),
                        visited.update(target.rep as int, true),
                    ),
                }
            },
        }
    }
}

#[via_fn]
proof fn retain_closure_decreases(
    catalog: Catalog,
    live_epochs: Map<u32, u64>,
    stream: StreamView,
    pending: Seq<u32>,
    visited: Seq<bool>,
) {
    if pending.len() > 0 && pending.last() < catalog.tables@.len() {
        if !visited[pending.last() as int] {
            lemma_mark(visited, pending.last() as int, catalog.tables@.len());
        }
    }
}

/// What a write to a table is, and what it rests on.
pub open spec fn classify(
    catalog: Catalog,
    live_epochs: Map<u32, u64>,
    stream: StreamView,
    target: FunctionId,
    info: TableInfo,
) -> Result<(StreamView, ScalarEffectKind), RejectionView> {
    match info.write_capability {
        WriteCapability::AssertEq => Ok((stream, ScalarEffectKind::AssertEq)),
        WriteCapability::KeepOld => Ok((stream, ScalarEffectKind::KeepOld)),
        WriteCapability::Deferred => match retain_closure(
            catalog,
            live_epochs,
            stream,
            seq![target.rep],
            Seq::new(catalog.tables@.len(), |i: int| false),
        ) {
            Err(error) => Err(error),
            Ok(after) => Ok((after, ScalarEffectKind::GenericMerge)),
        },
    }
}

/// Two least stale tokens are the same.
proof fn lemma_first_stale_unique<V>(required: Map<u32, V>, live: Map<u32, V>, a: u32, b: u32)
    requires
        first_stale(required, live, a),
        first_stale(required, live, b),
    ensures
        a == b,
{
    if a < b {
        assert(required.contains_key(a));
    } else if b < a {
        assert(required.contains_key(b));
    }
}

// ---------------------------------------------------------------------------
// Actions.

/// Writes one complete row.
pub open spec fn set_step(
    catalog: Catalog,
    live_epochs: Map<u32, u64>,
    stream: StreamView,
    raw: usize,
    call: RuleActionCall,
    arguments: Seq<AtomTerm>,
    values: Seq<AtomTerm>,
) -> Result<StreamView, RejectionView> {
    match call {
        RuleActionCall::Primitive { .. } => Err(refused_action(raw, " cannot Set a primitive"@)),
        RuleActionCall::Table { id: target } => match table_at(catalog, target) {
            Err(error) => Err(
                rejected_because(
                    Scope::Scalar,
                    "action "@ + decimal(raw as nat) + " has an invalid target"@,
                    error.text,
                ),
            ),
            Ok(info) => if arguments.len() != info.n_keys || values.len() != info.n_vals {
                Err(refused_action(raw, " has the wrong complete-row Set arity"@))
            } else {
                match term_values(
                    catalog,
                    stream.bindings,
                    arguments,
                    info.schema@.take(info.n_keys as int),
                    "Set key"@,
                    0,
                    Seq::empty(),
                ) {
                    Err(error) => Err(error),
                    Ok(keys) => match term_values(
                        catalog,
                        stream.bindings,
                        values,
                        info.schema@.skip(info.n_keys as int),
                        "Set value"@,
                        0,
                        Seq::empty(),
                    ) {
                        Err(error) => Err(error),
                        Ok(row) => match classify(catalog, live_epochs, stream, target, info) {
                            Err(error) => Err(error),
                            Ok((after, kind)) => Ok(
                                with_effect(
                                    after,
                                    EffectView {
                                        event_ordinal: stream.runtime_ordinal,
                                        target,
                                        arity: info.schema@.len() as usize,
                                        n_keys: info.n_keys,
                                        kind,
                                        arguments: keys,
                                        values: row,
                                        condition_slot: None,
                                    },
                                ),
                            ),
                        },
                    },
                }
            },
        },
    }
}

/// Adds one effect.
pub open spec fn with_effect(stream: StreamView, effect: EffectView) -> StreamView {
    StreamView { effects: stream.effects.push(effect), ..stream }
}

/// A matched row of a table with the given keys.
pub open spec fn row_matches(
    row: (FunctionId, Seq<ValueRefView>),
    target: FunctionId,
    arity: nat,
    keys: Seq<ValueRefView>,
) -> bool {
    row.0 == target && row.1.len() == arity && row.1.take(keys.len() as int) == keys
}

/// The positions of the matching rows among the first `count`.
pub open spec fn matching_rows(
    rows: Seq<(FunctionId, Seq<ValueRefView>)>,
    target: FunctionId,
    arity: nat,
    keys: Seq<ValueRefView>,
    count: nat,
) -> Seq<int>
    decreases count,
{
    if count == 0 {
        Seq::empty()
    } else {
        let earlier = matching_rows(rows, target, arity, keys, (count - 1) as nat);
        if row_matches(rows[count - 1], target, arity, keys) {
            earlier.push(count - 1)
        } else {
            earlier
        }
    }
}

/// The effect of a cleanup action and the values of the row it names. A row may
/// only be subsumed when exactly one matched row has its keys.
pub open spec fn change_effect(
    rows: Seq<(FunctionId, Seq<ValueRefView>)>,
    change: Change,
    target: FunctionId,
    info: TableInfo,
    keys: Seq<ValueRefView>,
) -> Result<(ScalarEffectKind, Seq<ValueRefView>), RejectionView> {
    match change {
        Change::Delete => Ok((ScalarEffectKind::Delete, Seq::empty())),
        Change::Subsume => if !info.can_subsume {
            Err(refused("cannot subsume a nonsubsumable table"@))
        } else {
            let found = matching_rows(rows, target, info.schema@.len(), keys, rows.len());
            if found.len() == 0 {
                Err(refused("Subsume does not identify a complete pre-wave body row"@))
            } else if found.len() > 1 {
                Err(refused("Subsume ambiguously identifies multiple body rows"@))
            } else {
                Ok((ScalarEffectKind::Subsume, rows[found[0]].1.skip(keys.len() as int)))
            }
        },
    }
}

/// Deletes or subsumes one row.
pub open spec fn change_step(
    catalog: Catalog,
    rows: Seq<(FunctionId, Seq<ValueRefView>)>,
    stream: StreamView,
    raw: usize,
    change: Change,
    call: RuleActionCall,
    arguments: Seq<AtomTerm>,
) -> Result<StreamView, RejectionView> {
    match call {
        RuleActionCall::Primitive { .. } => Err(
            refused_action(raw, " cannot change a primitive"@),
        ),
        RuleActionCall::Table { id: target } => match table_at(catalog, target) {
            Err(error) => Err(error),
            Ok(info) => if arguments.len() != info.n_keys {
                Err(refused_action(raw, " has the wrong change key arity"@))
            } else {
                match term_values(
                    catalog,
                    stream.bindings,
                    arguments,
                    info.schema@.take(info.n_keys as int),
                    "change key"@,
                    0,
                    Seq::empty(),
                ) {
                    Err(error) => Err(error),
                    Ok(keys) => match change_effect(rows, change, target, info, keys) {
                        Err(error) => Err(error),
                        Ok((kind, values)) => Ok(
                            with_effect(
                                stream,
                                EffectView {
                                    event_ordinal: stream.runtime_ordinal,
                                    target,
                                    arity: info.schema@.len() as usize,
                                    n_keys: info.n_keys,
                                    kind,
                                    arguments: keys,
                                    values,
                                    condition_slot: None,
                                },
                            ),
                        ),
                    },
                }
            },
        },
    }
}

/// Looks a row up that must exist.
pub open spec fn table_let(
    catalog: Catalog,
    stream: StreamView,
    raw: usize,
    variable: RuleVar,
    target: FunctionId,
    arguments: Seq<AtomTerm>,
) -> Result<StreamView, RejectionView> {
    match table_at(catalog, target) {
        Err(error) => Err(error),
        Ok(info) => if info.n_vals != 1 || info.default != DefaultVal::Fail {
            Err(
                refused_action(
                    raw,
                    " table Let requires exactly one output and DefaultVal::Fail"@,
                ),
            )
        } else if arguments.len() != info.n_keys || variable.ty
            != info.schema@[info.n_keys as int] {
            Err(refused_action(raw, " table Let has the wrong signature"@))
        } else {
            match term_values(
                catalog,
                stream.bindings,
                arguments,
                info.schema@.take(info.n_keys as int),
                "table Let key"@,
                0,
                Seq::empty(),
            ) {
                Err(error) => Err(error),
                Ok(keys) => bind_slot(
                    stream,
                    raw,
                    variable,
                    SlotSourceView::Read(
                        ReadView::Table {
                            target,
                            n_keys: info.n_keys,
                            result_column: info.n_keys,
                            keys,
                        },
                    ),
                ),
            }
        },
    }
}

/// Allocates one fresh id per match.
pub open spec fn fresh_let(
    catalog: Catalog,
    stream: StreamView,
    raw: usize,
    variable: RuleVar,
    token: ExternalFunctionId,
    arguments: Seq<AtomTerm>,
) -> Result<StreamView, RejectionView> {
    if variable.ty != ColumnTy::Id {
        Err(refused_action(raw, " get-fresh result must be Id"@))
    } else if arguments.len() != 1 {
        Err(refused_action(raw, " get-fresh requires one String literal"@))
    } else {
        match term_value(
            catalog,
            stream.bindings,
            arguments[0],
            term_ty(arguments[0]),
            "fresh label"@,
        ) {
            Err(error) => Err(error),
            Ok(ValueRefView::Literal { scalar, .. }) => if scalar != ScalarSqlType::String {
                Err(refused_action(raw, " fresh label must be String"@))
            } else if stream.fresh_rank == u64::MAX {
                Err(rejected(Scope::Bare, "DuckDB scalar fresh-site count overflow"@))
            } else {
                bind_slot(
                    StreamView {
                        required_fresh_tokens: stream.required_fresh_tokens.insert(token.rep),
                        fresh_rank: (stream.fresh_rank + 1) as u64,
                        ..stream
                    },
                    raw,
                    variable,
                    SlotSourceView::Fresh { rank: stream.fresh_rank },
                )
            },
            Ok(_) => Err(refused_action(raw, " fresh label must be a literal"@)),
        }
    }
}

/// Reads a row of the resolved view, or predicts it when there is none.
pub open spec fn set_if_empty_let(
    catalog: Catalog,
    live_epochs: Map<u32, u64>,
    stream: StreamView,
    raw: usize,
    variable: RuleVar,
    target: FunctionId,
    info: TableInfo,
    n_keys: usize,
    out_arity: usize,
    arguments: Seq<AtomTerm>,
) -> Result<StreamView, RejectionView> {
    if info.n_keys != n_keys || info.n_vals != out_arity || arguments.len() != n_keys + out_arity
        || out_arity == 0 || variable.ty != info.schema@[n_keys as int] {
        Err(
            refused_action(
                raw,
                " set-if-empty descriptor disagrees with the resolved view schema"@,
            ),
        )
    } else {
        match term_values(
            catalog,
            stream.bindings,
            arguments.take(n_keys as int),
            info.schema@.take(n_keys as int),
            "set-if-empty key"@,
            0,
            Seq::empty(),
        ) {
            Err(error) => Err(error),
            Ok(keys) => match term_values(
                catalog,
                stream.bindings,
                arguments.skip(n_keys as int),
                info.schema@.skip(n_keys as int),
                "set-if-empty default"@,
                0,
                Seq::empty(),
            ) {
                Err(error) => Err(error),
                Ok(defaults) => match bind_slot(
                    stream,
                    raw,
                    variable,
                    SlotSourceView::Read(
                        ReadView::SetIfEmpty { target, n_keys, keys, defaults },
                    ),
                ) {
                    Err(error) => Err(error),
                    Ok(bound) => match classify(catalog, live_epochs, bound, target, info) {
                        Err(error) => Err(error),
                        Ok((after, kind)) => Ok(
                            with_effect(
                                after,
                                EffectView {
                                    event_ordinal: stream.runtime_ordinal,
                                    target,
                                    arity: info.schema@.len() as usize,
                                    n_keys,
                                    kind,
                                    arguments: keys,
                                    values: defaults,
                                    condition_slot: Some(stream.slots.len() as usize),
                                },
                            ),
                        ),
                    },
                },
            },
        }
    }
}

/// Reads one value column of the resolved view, with a fallback.
pub open spec fn view_column_let(
    catalog: Catalog,
    stream: StreamView,
    raw: usize,
    variable: RuleVar,
    target: FunctionId,
    info: TableInfo,
    n_keys: usize,
    col_idx: usize,
    arguments: Seq<AtomTerm>,
) -> Result<StreamView, RejectionView> {
    if info.n_keys != n_keys || col_idx >= info.n_vals || arguments.len() != n_keys + 1
        || variable.ty != info.schema@[n_keys + col_idx] {
        Err(
            refused_action(
                raw,
                " view-column descriptor disagrees with the resolved view schema"@,
            ),
        )
    } else {
        match term_values(
            catalog,
            stream.bindings,
            arguments.take(n_keys as int),
            info.schema@.take(n_keys as int),
            "view-column key"@,
            0,
            Seq::empty(),
        ) {
            Err(error) => Err(error),
            Ok(keys) => match term_value(
                catalog,
                stream.bindings,
                arguments[n_keys as int],
                info.schema@[n_keys + col_idx],
                "view-column fallback"@,
            ) {
                Err(error) => Err(error),
                Ok(fallback) => bind_slot(
                    stream,
                    raw,
                    variable,
                    SlotSourceView::Read(
                        ReadView::ViewColumn {
                            target,
                            n_keys,
                            result_column: (n_keys + col_idx) as usize,
                            keys,
                            fallback,
                        },
                    ),
                ),
            },
        }
    }
}

/// Runs a functional-dependency operation on the view that its descriptor names.
pub open spec fn fd_let(
    catalog: Catalog,
    live_epochs: Map<u32, u64>,
    stream: StreamView,
    raw: usize,
    variable: RuleVar,
    token: ExternalFunctionId,
    descriptor: FdDescriptorView,
    arguments: Seq<AtomTerm>,
) -> Result<StreamView, RejectionView> {
    match table_named(catalog, fd_view_name(descriptor)) {
        Err(error) => Err(
            rejected_because(Scope::Scalar, "cannot resolve FD view"@, error.text),
        ),
        Ok(target) => {
            let info = catalog.tables@[target.rep as int];
            if info.default != DefaultVal::Fail {
                Err(refused_action(raw, " FD view must use DefaultVal::Fail"@))
            } else {
                let remembered = StreamView {
                    required_fd_descriptors: stream.required_fd_descriptors.insert(
                        token.rep,
                        descriptor,
                    ),
                    ..stream
                };
                match descriptor {
                    FdDescriptorView::SetIfEmpty { n_keys, out_arity, .. } => set_if_empty_let(
                        catalog,
                        live_epochs,
                        remembered,
                        raw,
                        variable,
                        target,
                        info,
                        n_keys,
                        out_arity,
                        arguments,
                    ),
                    FdDescriptorView::ViewColumnRead { n_keys, col_idx, .. } => view_column_let(
                        catalog,
                        remembered,
                        raw,
                        variable,
                        target,
                        info,
                        n_keys,
                        col_idx,
                        arguments,
                    ),
                }
            }
        },
    }
}

/// Evaluates an authenticated scalar expression.
pub open spec fn expression_let(
    catalog: Catalog,
    registries: AuthorityRegistries,
    stream: StreamView,
    raw: usize,
    variable: RuleVar,
    token: ExternalFunctionId,
    arguments: Seq<AtomTerm>,
) -> Result<StreamView, RejectionView> {
    let tys = arguments.map_values(|t: AtomTerm| term_ty(t));
    match authenticated(catalog.forms@, registries, token, tys, variable.ty) {
        Err(error) => Err(
            rejected_because(
                Scope::Scalar,
                "action "@ + decimal(raw as nat) + " has an invalid scalar expression"@,
                error.text,
            ),
        ),
        Ok(expression) => match term_values(
            catalog,
            stream.bindings,
            arguments,
            tys,
            "scalar expression input"@,
            0,
            Seq::empty(),
        ) {
            Err(error) => Err(error),
            Ok(inputs) => bind_slot(
                retain_authority(stream, token, expression.authority),
                raw,
                variable,
                SlotSourceView::Expression { expression, inputs },
            ),
        },
    }
}

/// Binds the result of a call. A token is read as a fresh allocator, as a
/// functional-dependency operation or as a scalar expression, in this order.
pub open spec fn let_step(
    catalog: Catalog,
    registries: AuthorityRegistries,
    stream: StreamView,
    raw: usize,
    variable: RuleVar,
    call: RuleActionCall,
    arguments: Seq<AtomTerm>,
) -> Result<StreamView, RejectionView> {
    match call {
        RuleActionCall::Table { id } => table_let(catalog, stream, raw, variable, id, arguments),
        RuleActionCall::Primitive { id, output, .. } => if output != variable.ty {
            Err(refused_action(raw, " primitive result type disagrees with its binding"@))
        } else if registries.fresh_tokens@.contains(id.rep) {
            fresh_let(catalog, stream, raw, variable, id, arguments)
        } else {
            match entry(fd_views(registries.fd_descriptors@), id.rep) {
                Some(descriptor) => fd_let(
                    catalog,
                    registries.authority_epochs@,
                    stream,
                    raw,
                    variable,
                    id,
                    descriptor,
                    arguments,
                ),
                None => expression_let(
                    catalog,
                    registries,
                    stream,
                    raw,
                    variable,
                    id,
                    arguments,
                ),
            }
        },
    }
}

/// The next event.
pub open spec fn advanced(stream: StreamView) -> Result<StreamView, RejectionView> {
    if stream.runtime_ordinal == u64::MAX {
        Err(rejected(Scope::Bare, "DuckDB scalar runtime action count overflow"@))
    } else {
        Ok(StreamView { runtime_ordinal: (stream.runtime_ordinal + 1) as u64, ..stream })
    }
}

/// A step followed by the next event.
pub open spec fn then_advanced(step: Result<StreamView, RejectionView>) -> Result<
    StreamView,
    RejectionView,
> {
    match step {
        Err(error) => Err(error),
        Ok(stream) => advanced(stream),
    }
}

/// Compiles one action. Aliases take no part in event order.
pub open spec fn action_step(
    catalog: Catalog,
    registries: AuthorityRegistries,
    rows: Seq<(FunctionId, Seq<ValueRefView>)>,
    stream: StreamView,
    raw: usize,
    action: CoreAction,
) -> Result<StreamView, RejectionView> {
    match action {
        CoreAction::Let(variable, call, arguments) => then_advanced(
            let_step(catalog, registries, stream, raw, variable, call, arguments@),
        ),
        CoreAction::LetAtomTerm(variable, source) => {
            let context = action_text(raw) + " LetAtomTerm"@;
            match term_value(catalog, stream.bindings, source, variable.ty, context) {
                Err(error) => Err(error),
                Ok(value) => bind_value(stream, variable, value, context),
            }
        },
        CoreAction::SetRow(call, arguments, values) => then_advanced(
            set_step(
                catalog,
                registries.authority_epochs@,
                stream,
                raw,
                call,
                arguments@,
                values@,
            ),
        ),
        CoreAction::Change(change, call, arguments) => then_advanced(
            change_step(catalog, rows, stream, raw, change, call, arguments@),
        ),
        CoreAction::Union(_, _) | CoreAction::Panic(_) => Ok(stream),
    }
}

/// Compiles the actions from `from` on.
pub open spec fn action_steps(
    catalog: Catalog,
    registries: AuthorityRegistries,
    rows: Seq<(FunctionId, Seq<ValueRefView>)>,
    stream: StreamView,
    actions: Seq<CoreAction>,
    from: int,
) -> Result<StreamView, RejectionView>
    decreases actions.len() - from,
{
    if from < 0 || from >= actions.len() {
        Ok(stream)
    } else {
        match action_step(catalog, registries, rows, stream, from as usize, actions[from]) {
            Err(error) => Err(error),
            Ok(after) => action_steps(catalog, registries, rows, after, actions, from + 1),
        }
    }
}

/// An action of the scalar vocabulary.
pub open spec fn scalar_action(action: CoreAction) -> bool {
    action is Let || action is LetAtomTerm || action is SetRow || action is Change
}

/// The scalar compiler owns a rule whose head is not empty and only binds,
/// writes, deletes and subsumes.
pub open spec fn owned(head: Seq<CoreAction>) -> bool {
    head.len() > 0 && forall|i: int| 0 <= i < head.len() ==> scalar_action(#[trigger] head[i])
}

/// Body variables are bound to the columns of the match relation.
pub open spec fn body_bindings(bindings: Map<u32, BodyBindingView>) -> Map<u32, BoundView> {
    bindings.map_values(
        |b: BodyBindingView| BoundView { ty: b.ty, value: ValueRefView::Body(b.stage_column) },
    )
}

/// The stream before its first action.
pub open spec fn stream_of(body: BodyView) -> StreamView {
    StreamView {
        bindings: body_bindings(body.bindings),
        slots: Seq::empty(),
        effects: Seq::empty(),
        fresh_rank: 0,
        runtime_ordinal: 0,
        required_fresh_tokens: Set::empty(),
        required_fd_descriptors: Map::empty(),
        required_native_primitives: body.required_native_primitives,
        required_native_scalar_primitives: body.required_native_scalar_primitives,
        required_authority_epochs: Map::empty(),
    }
}

/// Every token that a stream rests on.
pub open spec fn required_tokens(stream: StreamView) -> Set<u32> {
    stream.required_native_primitives.dom().union(
        stream.required_native_scalar_primitives.dom(),
    ).union(stream.required_fresh_tokens).union(stream.required_fd_descriptors.dom())
}

/// A token has no live epoch, or not the one that a table was registered with.
pub open spec fn epoch_fault(
    stream: StreamView,
    live_epochs: Map<u32, u64>,
    token: u32,
) -> Option<RejectionView> {
    match entry(live_epochs, token) {
        None => Some(
            refused("has no live authority epoch for token "@ + decimal(token as nat)),
        ),
        Some(epoch) => match entry(stream.required_authority_epochs, token) {
            Some(required) => if required == epoch {
                None
            } else {
                Some(
                    refused(
                        "token "@ + decimal(token as nat)
                            + " changed authority epoch after table registration"@,
                    ),
                )
            },
            None => None,
        },
    }
}

/// The least required token with an epoch fault.
pub open spec fn first_fault(
    stream: StreamView,
    live_epochs: Map<u32, u64>,
    token: u32,
) -> bool {
    &&& required_tokens(stream).contains(token)
    &&& epoch_fault(stream, live_epochs, token) is Some
    &&& forall|other: u32| #[trigger]
        required_tokens(stream).contains(other) && other < token ==> epoch_fault(
            stream,
            live_epochs,
            other,
        ) is None
}

/// No required token has an epoch fault.
pub open spec fn epochs_fit(stream: StreamView, live_epochs: Map<u32, u64>) -> bool {
    forall|token: u32| #[trigger]
        required_tokens(stream).contains(token) ==> epoch_fault(stream, live_epochs, token) is None
}

/// The epochs that a stream rests on, those of its own tokens included.
pub open spec fn pinned_epochs(stream: StreamView, live_epochs: Map<u32, u64>) -> Map<u32, u64> {
    stream.required_authority_epochs.union_prefer_right(
        live_epochs.restrict(required_tokens(stream)),
    )
}

/// The plan of a compiled stream.
pub open spec fn plan_of(
    seminaive: bool,
    live_epochs: Map<u32, u64>,
    body: BodyView,
    stream: StreamView,
) -> Result<PlanView, RejectionView> {
    if stream.effects.len() == 0 {
        Err(refused("has no durable Set effect"@))
    } else if !epochs_fit(stream, live_epochs) {
        let token = choose|token: u32| first_fault(stream, live_epochs, token);
        Err(epoch_fault(stream, live_epochs, token)->0)
    } else {
        Ok(
            PlanView {
                seminaive,
                match_projection: body.match_projection,
                match_from: body.match_from,
                match_predicates: body.match_predicates,
                freshness_columns: body.freshness_columns,
                order_columns: body.order_columns,
                slots: stream.slots,
                effects: stream.effects,
                fresh_slots: stream.fresh_rank,
                action_count: stream.runtime_ordinal,
                required_fresh_tokens: stream.required_fresh_tokens,
                required_fd_descriptors: stream.required_fd_descriptors,
                required_native_primitives: stream.required_native_primitives,
                required_native_scalar_primitives: stream.required_native_scalar_primitives,
                required_authority_epochs: pinned_epochs(stream, live_epochs),
            },
        )
    }
}

/// The scalar plan of a rule: none when the compiler does not own the rule, and
/// a refusal when it owns it and cannot lower it.
#[verifier::opaque]
pub open spec fn scalar_plan(
    catalog: Catalog,
    registries: AuthorityRegistries,
    seminaive: bool,
    body: Seq<Atom>,
    head: Seq<CoreAction>,
) -> Result<Option<PlanView>, RejectionView> {
    if !owned(head) {
        Ok(None)
    } else {
        match scalar_body(catalog, registries, body) {
            Err(error) => Err(error),
            Ok(matched) => match action_steps(
                catalog,
                registries,
                matched.rows,
                stream_of(matched),
                head,
                0,
            ) {
                Err(error) => Err(error),
                Ok(stream) => match plan_of(
                    seminaive,
                    registries.authority_epochs@,
                    matched,
                    stream,
                ) {
                    Err(error) => Err(error),
                    Ok(plan) => Ok(Some(plan)),
                },
            },
        }
    }
}

// ---------------------------------------------------------------------------
// The compiler.

struct GeneralScalarCompiler<'a> {
    catalog: &'a Catalog,
    registries: &'a AuthorityRegistries,
    body_rows: Vec<(FunctionId, Vec<ScalarValueRef>)>,
    bindings: BTreeMap<u32, BoundValue>,
    slots: Vec<ScalarActionSlot>,
    effects: Vec<ScalarEffectPlan>,
    fresh_rank: u64,
    runtime_ordinal: u64,
    required_fresh_tokens: BTreeSet<u32>,
    required_fd_descriptors: BTreeMap<u32, FdDescriptor>,
    required_native_primitives: BTreeMap<u32, NativePrimitive>,
    required_native_scalar_primitives: BTreeMap<u32, NativeScalarPrimitive>,
    required_authority_epochs: BTreeMap<u32, u64>,
}

fn reject_action(raw: usize, tail: &str) -> (rejection: Rejection)
    ensures
        rejection@ == refused_action(raw, tail@),
{
    let mut text = "action ".to_owned();
    append_number(&mut text, raw as u64);
    text.append(tail);
    reject_with(Scope::Scalar, text)
}

fn reject_context(context: &str, tail: &str) -> (rejection: Rejection)
    ensures
        rejection@ == refused(context@ + tail@),
{
    let mut text = context.to_owned();
    text.append(tail);
    reject_with(Scope::Scalar, text)
}

impl<'a> GeneralScalarCompiler<'a> {
    spec fn stream(&self) -> StreamView {
        StreamView {
            bindings: value_views(self.bindings@),
            slots: slot_views(self.slots@),
            effects: effect_views(self.effects@),
            fresh_rank: self.fresh_rank,
            runtime_ordinal: self.runtime_ordinal,
            required_fresh_tokens: self.required_fresh_tokens@,
            required_fd_descriptors: fd_views(self.required_fd_descriptors@),
            required_native_primitives: self.required_native_primitives@,
            required_native_scalar_primitives: self.required_native_scalar_primitives@,
            required_authority_epochs: self.required_authority_epochs@,
        }
    }

    spec fn rows(&self) -> Seq<(FunctionId, Seq<ValueRefView>)> {
        row_views(self.body_rows@)
    }

    /// What no step changes.
    spec fn fixed(&self) -> (Catalog, AuthorityRegistries, Seq<(FunctionId, Seq<ValueRefView>)>) {
        (*self.catalog, *self.registries, self.rows())
    }

    spec fn live_epochs(&self) -> Map<u32, u64> {
        self.registries.authority_epochs@
    }

    fn add_fresh_token(&mut self, token: ExternalFunctionId)
        ensures
            final(self).stream() == (StreamView {
                required_fresh_tokens: old(self).stream().required_fresh_tokens.insert(token.rep),
                ..old(self).stream()
            }),
            final(self).fixed() == old(self).fixed(),
    {
        self.required_fresh_tokens.insert(token.rep);
    }

    fn add_fd_descriptor(&mut self, token: ExternalFunctionId, descriptor: FdDescriptor)
        ensures
            final(self).stream() == (StreamView {
                required_fd_descriptors: old(self).stream().required_fd_descriptors.insert(
                    token.rep,
                    descriptor@,
                ),
                ..old(self).stream()
            }),
            final(self).fixed() == old(self).fixed(),
    {
        let ghost before = self.required_fd_descriptors@;
        self.required_fd_descriptors.insert(token.rep, descriptor);
        assert(fd_views(self.required_fd_descriptors@) =~= fd_views(before).insert(
            token.rep,
            descriptor@,
        ));
    }

    fn add_authority(&mut self, token: ExternalFunctionId, authority: ScalarAuthority)
        ensures
            final(self).stream() == retain_authority(old(self).stream(), token, authority),
            final(self).fixed() == old(self).fixed(),
    {
        match authority {
            ScalarAuthority::Native(descriptor) => {
                self.required_native_primitives.insert(token.rep, descriptor);
            },
            ScalarAuthority::Typed(descriptor) => {
                self.required_native_scalar_primitives.insert(token.rep, descriptor);
            },
        }
    }

    fn add_effect(&mut self, effect: ScalarEffectPlan)
        ensures
            final(self).stream() == with_effect(old(self).stream(), effect@),
            final(self).fixed() == old(self).fixed(),
    {
        let ghost before = self.effects@;
        self.effects.push(effect);
        assert(effect_views(self.effects@) =~= effect_views(before).push(effect@));
    }

    fn retain_merge_ops(&mut self, target: FunctionId, ops: &Vec<MergeOp>) -> (done: Result<
        (),
        Rejection,
    >)
        ensures
            steps_to(
                done,
                final(self).stream(),
                retain_ops(old(self).stream(), target, op_views(ops@), 0),
            ),
            final(self).fixed() == old(self).fixed(),
    {
        let ghost model = op_views(ops@);
        let mut i: usize = 0;
        while i < ops.len()
            invariant
                i <= ops.len(),
                model == op_views(ops@),
                self.fixed() == old(self).fixed(),
                retain_ops(old(self).stream(), target, model, 0) == retain_ops(
                    self.stream(),
                    target,
                    model,
                    i as int,
                ),
            decreases ops.len() - i,
        {
            assert(model[i as int] == ops@[i as int]@);
            match &ops[i].kind {
                MergeOpKind::Primitive { primitive, .. } => match primitive {
                    MergePrimitive::Fresh { token } => {
                        self.add_fresh_token(*token);
                    },
                    MergePrimitive::Fd { token, descriptor } => {
                        self.add_fd_descriptor(*token, descriptor.copy());
                    },
                    MergePrimitive::Scalar(expression) => {
                        self.add_authority(expression.token(), expression.authority());
                    },
                    MergePrimitive::Unauthenticated { token } => {
                        let mut text = "target ".to_owned();
                        append_number(&mut text, target.rep as u64);
                        text.append(" has unauthenticated merge token ");
                        append_number(&mut text, token.rep as u64);
                        return Err(reject_with(Scope::Scalar, text));
                    },
                },
                _ => {},
            }
            i += 1;
        }
        Ok(())
    }

    fn add_epochs(&mut self, epochs: &BTreeMap<u32, u64>)
        ensures
            final(self).stream() == (StreamView {
                required_authority_epochs: old(
                    self,
                ).stream().required_authority_epochs.union_prefer_right(epochs@),
                ..old(self).stream()
            }),
            final(self).fixed() == old(self).fixed(),
    {
        let keys = map_keys(epochs);
        let ghost start = self.required_authority_epochs@;
        let ghost mut seen = Set::<u32>::empty();
        let mut i: usize = 0;
        assert(start =~= start.union_prefer_right(epochs@.restrict(seen)));
        while i < keys.len()
            invariant
                i <= keys.len(),
                lists(keys@, epochs@.dom()),
                self.fixed() == old(self).fixed(),
                self.stream() == (StreamView {
                    required_authority_epochs: self.required_authority_epochs@,
                    ..old(self).stream()
                }),
                forall|j: int| 0 <= j < i ==> seen.contains(#[trigger] keys@[j]),
                self.required_authority_epochs@ == start.union_prefer_right(epochs@.restrict(seen)),
            decreases keys.len() - i,
        {
            let key: u32 = keys[i];
            assert(epochs@.dom().contains(keys@[i as int]));
            let ghost before = self.required_authority_epochs@;
            match epochs.get(&key) {
                Some(epoch) => {
                    self.required_authority_epochs.insert(key, *epoch);
                },
                None => {},
            }
            proof {
                seen = seen.insert(key);
                assert(before.insert(key, epochs@[key]) =~= start.union_prefer_right(
                    epochs@.restrict(seen),
                ));
            }
            i += 1;
        }
        proof {
            assert forall|key: u32| epochs@.contains_key(key) implies seen.contains(key) by {
                assert(epochs@.dom().contains(key));
                assert(keys@.contains(key));
                let j = choose|j: int| 0 <= j < keys@.len() && keys@[j] == key;
                assert(seen.contains(keys@[j]));
            }
            assert(epochs@.restrict(seen) =~= epochs@);
        }
    }

    fn retain_merge_table(&mut self, target: FunctionId, info: &TableInfo) -> (done: Result<
        (),
        Rejection,
    >)
        ensures
            steps_to(
                done,
                final(self).stream(),
                retain_table(old(self).live_epochs(), old(self).stream(), target, *info),
            ),
            final(self).fixed() == old(self).fixed(),
    {
        info.merge_program.ensure_proof_supported(info.name.as_str())?;
        let required = &info.merge_program.required_authorities;
        let found = stale_token(required, &self.registries.authority_epochs);
        proof {
            assert(value_views(required@) =~= required@);
            assert(value_views(self.live_epochs()) =~= self.live_epochs());
        }
        match found {
            Some(token) => {
                proof {
                    assert(!all_live(required@, self.live_epochs()));
                    let chosen = choose|other: u32| first_stale(
                        required@,
                        self.live_epochs(),
                        other,
                    );
                    lemma_first_stale_unique(required@, self.live_epochs(), chosen, token);
                }
                let mut text = "target ".to_owned();
                append_number(&mut text, target.rep as u64);
                text.append(" has a stale registration authority token ");
                append_number(&mut text, token as u64);
                return Err(reject_with(Scope::Scalar, text));
            },
            None => {},
        }
        self.add_epochs(required);
        self.retain_merge_ops(target, &info.merge_program.ops)
    }

    fn retain_merge_program_closure(&mut self, root: FunctionId) -> (done: Result<(), Rejection>)
        requires
            old(self).catalog.well_formed(),
        ensures
            steps_to(
                done,
                final(self).stream(),
                retain_closure(
                    *old(self).catalog,
                    old(self).live_epochs(),
                    old(self).stream(),
                    seq![root.rep],
                    Seq::new(old(self).catalog.tables@.len(), |i: int| false),
                ),
            ),
            final(self).fixed() == old(self).fixed(),
    {
        let catalog = self.catalog;
        let mut pending: Vec<u32> = Vec::new();
        pending.push(root.rep);
        let mut visited: Vec<bool> = Vec::new();
        let mut k: usize = 0;
        while k < catalog.tables.len()
            invariant
                k <= catalog.tables.len(),
                visited@ =~= Seq::new(k as nat, |i: int| false),
            decreases catalog.tables.len() - k,
        {
            visited.push(false);
            k += 1;
        }
        assert(pending@ =~= seq![root.rep]);
        assert(visited@ =~= Seq::new(catalog.tables@.len(), |i: int| false));
        let ghost whole = retain_closure(
            *catalog,
            self.live_epochs(),
            self.stream(),
            pending@,
            visited@,
        );
        while pending.len() > 0
            invariant
                self.fixed() == old(self).fixed(),
                self.catalog == catalog,
                catalog.well_formed(),
                visited@.len() == catalog.tables@.len(),
                whole == retain_closure(
                    *catalog,
                    self.live_epochs(),
                    self.stream(),
                    pending@,
                    visited@,
                ),
                whole == retain_closure(
                    *old(self).catalog,
                    old(self).live_epochs(),
                    old(self).stream(),
                    seq![root.rep],
                    Seq::new(old(self).catalog.tables@.len(), |i: int| false),
                ),
            decreases unmarked(visited@, catalog.tables@.len()), pending@.len(),
        {
            let ghost before = pending@;
            let rep: u32 = pending[pending.len() - 1];
            pending.pop();
            assert(pending@ =~= before.drop_last());
            let target = FunctionId { rep };
            let info = catalog.table_info(target)?;
            if !visited[rep as usize] {
                proof {
                    lemma_mark(
                        visited@,
                        rep as int,
                        catalog.tables@.len(),
                    );
                }
                self.retain_merge_table(target, info)?;
                visited.set(rep as usize, true);
                let ghost rest = pending@;
                let targets = &info.merge_program.write_targets;
                let mut i: usize = 0;
                while i < catalog.tables.len()
                    invariant
                        i <= catalog.tables.len() <= u32::MAX,
                        pending@ =~= rest + ascending(targets@, i as nat),
                    decreases catalog.tables.len() - i,
                {
                    if targets.contains(&(i as u32)) {
                        pending.push(i as u32);
                    }
                    i += 1;
                }
            }
        }
        Ok(())
    }

    fn compile_term(&self, term: AtomTerm, expected: ColumnTy, context: &str) -> (value: Result<
        ScalarValueRef,
        Rejection,
    >)
        ensures
            agrees(
                value,
                term_value(*self.catalog, self.stream().bindings, term, expected, context@),
            ),
    {
        match term {
            AtomTerm::Var(variable) => {
                if variable.ty != expected {
                    return Err(reject_context(context, " has a mistyped variable"));
                }
                match self.bindings.get(&variable.id) {
                    None => {
                        let mut text = context.to_owned();
                        text.append(" uses variable id ");
                        append_number(&mut text, variable.id as u64);
                        text.append(" before binding");
                        Err(reject_with(Scope::Scalar, text))
                    },
                    Some(binding) => {
                        if binding.ty != variable.ty {
                            let mut text = "reuses variable id ".to_owned();
                            append_number(&mut text, variable.id as u64);
                            text.append(" with inconsistent type metadata");
                            return Err(reject_with(Scope::Scalar, text));
                        }
                        Ok(binding.value.copy())
                    },
                }
            },
            AtomTerm::Literal(literal) => {
                if literal.ty != expected {
                    return Err(reject_context(context, " has a mistyped literal"));
                }
                let (scalar, sql) = self.catalog.typed_sql_literal(expected, literal.value)?;
                Ok(ScalarValueRef::Literal(ScalarLiteral { value: literal, scalar, sql }))
            },
            AtomTerm::Global(_) => Err(reject_context(context, " contains an unsupported global")),
        }
    }

    /// Compiles `count` terms at `offset`, typed by the columns at `column`.
    fn compile_terms(
        &self,
        terms: &Vec<AtomTerm>,
        offset: usize,
        count: usize,
        tys: &Vec<ColumnTy>,
        column: usize,
        context: &str,
    ) -> (values: Result<Vec<ScalarValueRef>, Rejection>)
        requires
            offset + count <= terms@.len(),
            column + count <= tys@.len(),
        ensures
            match (
                values,
                term_values(
                    *self.catalog,
                    self.stream().bindings,
                    terms@.subrange(offset as int, offset + count),
                    tys@.subrange(column as int, column + count),
                    context@,
                    0,
                    Seq::empty(),
                ),
            ) {
                (Ok(list), Ok(model)) => ref_views(list@) == model && list@.len() == count,
                (Err(error), Err(model)) => error@ == model,
                _ => false,
            },
    {
        let ghost shown = terms@.subrange(offset as int, offset + count);
        let ghost expected = tys@.subrange(column as int, column + count);
        let mut values: Vec<ScalarValueRef> = Vec::new();
        let mut i: usize = 0;
        assert(ref_views(values@) =~= Seq::<ValueRefView>::empty());
        while i < count
            invariant
                i <= count,
                offset + count <= terms.len(),
                column + count <= tys.len(),
                values@.len() == i,
                shown == terms@.subrange(offset as int, offset + count),
                expected == tys@.subrange(column as int, column + count),
                term_values(
                    *self.catalog,
                    self.stream().bindings,
                    shown,
                    expected,
                    context@,
                    0,
                    Seq::empty(),
                ) == term_values(
                    *self.catalog,
                    self.stream().bindings,
                    shown,
                    expected,
                    context@,
                    i as int,
                    ref_views(values@),
                ),
            decreases count - i,
        {
            assert(shown[i as int] == terms@[offset + i]);
            assert(expected[i as int] == tys@[column + i]);
            let ghost before = values@;
            let value = self.compile_term(terms[offset + i], tys[column + i], context)?;
            values.push(value);
            assert(ref_views(values@) =~= ref_views(before).push(value@));
            i += 1;
        }
        Ok(values)
    }

    fn bind_value(&mut self, variable: RuleVar, value: ScalarValueRef, context: &str) -> (done:
        Result<(), Rejection>)
        ensures
            steps_to(
                done,
                final(self).stream(),
                bind_value(old(self).stream(), variable, value@, context@),
            ),
            final(self).fixed() == old(self).fixed(),
            final(self).slots@ == old(self).slots@,
    {
        if self.bindings.contains_key(&variable.id) {
            let mut text = context.to_owned();
            text.append(" rebinds SSA variable id ");
            append_number(&mut text, variable.id as u64);
            return Err(reject_with(Scope::Scalar, text));
        }
        let ghost before = self.bindings@;
        let binding = BoundValue { ty: variable.ty, value };
        self.bindings.insert(variable.id, binding);
        assert(value_views(self.bindings@) =~= value_views(before).insert(variable.id, binding@));
        Ok(())
    }

    fn bind_slot(&mut self, raw: usize, variable: RuleVar, source: ScalarActionSlotSource) -> (slot:
        Result<usize, Rejection>)
        ensures
            match (slot, bind_slot(old(self).stream(), raw, variable, source@)) {
                (Ok(index), Ok(model)) => final(self).stream() == model && index == old(
                    self,
                ).slots@.len(),
                (Err(error), Err(model)) => error@ == model,
                _ => false,
            },
            final(self).fixed() == old(self).fixed(),
    {
        let slot: usize = self.slots.len();
        self.bind_value(variable, ScalarValueRef::Slot(slot), "Let")?;
        let ghost before = self.slots@;
        let added = ScalarActionSlot {
            raw_action_ordinal: raw,
            runtime_ordinal: self.runtime_ordinal,
            ty: variable.ty,
            source,
        };
        self.slots.push(added);
        assert(slot_views(self.slots@) =~= slot_views(before).push(added@));
        Ok(slot)
    }

    fn classify_effect(&mut self, target: FunctionId, info: &TableInfo) -> (kind: Result<
        ScalarEffectKind,
        Rejection,
    >)
        requires
            old(self).catalog.well_formed(),
        ensures
            match (
                kind,
                classify(
                    *old(self).catalog,
                    old(self).live_epochs(),
                    old(self).stream(),
                    target,
                    *info,
                ),
            ) {
                (Ok(value), Ok((stream, model))) => value == model && final(self).stream()
                    == stream,
                (Err(error), Err(model)) => error@ == model,
                _ => false,
            },
            final(self).fixed() == old(self).fixed(),
    {
        match info.write_capability {
            WriteCapability::AssertEq => Ok(ScalarEffectKind::AssertEq),
            WriteCapability::KeepOld => Ok(ScalarEffectKind::KeepOld),
            WriteCapability::Deferred => {
                self.retain_merge_program_closure(target)?;
                Ok(ScalarEffectKind::GenericMerge)
            },
        }
    }

    fn compile_set(
        &mut self,
        raw: usize,
        call: &RuleActionCall,
        arguments: &Vec<AtomTerm>,
        values: &Vec<AtomTerm>,
    ) -> (done: Result<(), Rejection>)
        requires
            old(self).catalog.well_formed(),
        ensures
            steps_to(
                done,
                final(self).stream(),
                set_step(
                    *old(self).catalog,
                    old(self).live_epochs(),
                    old(self).stream(),
                    raw,
                    *call,
                    arguments@,
                    values@,
                ),
            ),
            final(self).fixed() == old(self).fixed(),
    {
        let target = match call {
            RuleActionCall::Table { id } => *id,
            RuleActionCall::Primitive { .. } => {
                return Err(reject_action(raw, " cannot Set a primitive"));
            },
        };
        let info = match self.catalog.table_info(target) {
            Ok(info) => info,
            Err(error) => {
                let mut text = "action ".to_owned();
                append_number(&mut text, raw as u64);
                text.append(" has an invalid target");
                return Err(reject_because(Scope::Scalar, text, error));
            },
        };
        if arguments.len() != info.n_keys || values.len() != info.n_vals {
            return Err(reject_action(raw, " has the wrong complete-row Set arity"));
        }
        proof {
            assert(arguments@.subrange(0, 0 + info.n_keys) =~= arguments@);
            assert(values@.subrange(0, 0 + info.n_vals) =~= values@);
            assert(info.schema@.subrange(0, 0 + info.n_keys) =~= info.schema@.take(
                info.n_keys as int,
            ));
            assert(info.schema@.subrange(info.n_keys as int, info.n_keys + info.n_vals)
                =~= info.schema@.skip(info.n_keys as int));
        }
        let keys = self.compile_terms(arguments, 0, info.n_keys, &info.schema, 0, "Set key")?;
        let row = self.compile_terms(
            values,
            0,
            info.n_vals,
            &info.schema,
            info.n_keys,
            "Set value",
        )?;
        let event_ordinal: u64 = self.runtime_ordinal;
        let kind = self.classify_effect(target, info)?;
        self.add_effect(
            ScalarEffectPlan {
                event_ordinal,
                target,
                arity: info.arity(),
                n_keys: info.n_keys,
                kind,
                arguments: keys,
                values: row,
                condition_slot: None,
            },
        );
        Ok(())
    }

    /// Whether a matched row belongs to the target and has the keys.
    fn row_has_keys(
        &self,
        index: usize,
        target: FunctionId,
        arity: usize,
        keys: &Vec<ScalarValueRef>,
    ) -> (found: bool)
        requires
            index < self.body_rows@.len(),
            keys@.len() <= arity,
        ensures
            found == row_matches(
                self.rows()[index as int],
                target,
                arity as nat,
                ref_views(keys@),
            ),
    {
        let row = &self.body_rows[index].1;
        let ghost model = self.rows()[index as int];
        assert(model.1 == ref_views(row@));
        if self.body_rows[index].0 != target || row.len() != arity {
            return false;
        }
        let mut i: usize = 0;
        while i < keys.len()
            invariant
                i <= keys.len() <= arity == row.len(),
                model == self.rows()[index as int],
                model.1 == ref_views(row@),
                forall|j: int| 0 <= j < i ==> row@[j]@ == keys@[j]@,
            decreases keys.len() - i,
        {
            if !row[i].same(&keys[i]) {
                proof {
                    let head = model.1.take(keys@.len() as int);
                    assert(head[i as int] == row@[i as int]@);
                    assert(ref_views(keys@)[i as int] == keys@[i as int]@);
                }
                return false;
            }
            i += 1;
        }
        assert(model.1.take(keys@.len() as int) =~= ref_views(keys@));
        true
    }

    fn compile_change(
        &mut self,
        raw: usize,
        change: Change,
        call: &RuleActionCall,
        arguments: &Vec<AtomTerm>,
    ) -> (done: Result<(), Rejection>)
        requires
            old(self).catalog.well_formed(),
        ensures
            steps_to(
                done,
                final(self).stream(),
                change_step(
                    *old(self).catalog,
                    old(self).rows(),
                    old(self).stream(),
                    raw,
                    change,
                    *call,
                    arguments@,
                ),
            ),
            final(self).fixed() == old(self).fixed(),
    {
        let target = match call {
            RuleActionCall::Table { id } => *id,
            RuleActionCall::Primitive { .. } => {
                return Err(reject_action(raw, " cannot change a primitive"));
            },
        };
        let info = self.catalog.table_info(target)?;
        if arguments.len() != info.n_keys {
            return Err(reject_action(raw, " has the wrong change key arity"));
        }
        proof {
            assert(arguments@.subrange(0, 0 + info.n_keys) =~= arguments@);
            assert(info.schema@.subrange(0, 0 + info.n_keys) =~= info.schema@.take(
                info.n_keys as int,
            ));
        }
        let keys = self.compile_terms(arguments, 0, info.n_keys, &info.schema, 0, "change key")?;
        let (kind, values) = self.change_values(change, target, info, &keys)?;
        self.add_effect(
            ScalarEffectPlan {
                event_ordinal: self.runtime_ordinal,
                target,
                arity: info.arity(),
                n_keys: info.n_keys,
                kind,
                arguments: keys,
                values,
                condition_slot: None,
            },
        );
        Ok(())
    }

    fn change_values(
        &self,
        change: Change,
        target: FunctionId,
        info: &TableInfo,
        keys: &Vec<ScalarValueRef>,
    ) -> (effect: Result<(ScalarEffectKind, Vec<ScalarValueRef>), Rejection>)
        requires
            info.well_formed(),
            keys@.len() == info.n_keys,
        ensures
            match (
                effect,
                change_effect(self.rows(), change, target, *info, ref_views(keys@)),
            ) {
                (Ok((kind, values)), Ok((model, row))) => kind == model && ref_views(values@)
                    == row,
                (Err(error), Err(model)) => error@ == model,
                _ => false,
            },
    {
        match change {
            Change::Delete => {
                let values: Vec<ScalarValueRef> = Vec::new();
                assert(ref_views(values@) =~= Seq::<ValueRefView>::empty());
                Ok((ScalarEffectKind::Delete, values))
            },
            Change::Subsume => {
                if !info.can_subsume {
                    return Err(reject(Scope::Scalar, "cannot subsume a nonsubsumable table"));
                }
                let arity: usize = info.arity();
                let ghost model = ref_views(keys@);
                let mut found: Option<usize> = None;
                let mut several = false;
                let mut i: usize = 0;
                while i < self.body_rows.len()
                    invariant
                        i <= self.body_rows.len(),
                        model == ref_views(keys@),
                        keys@.len() <= arity,
                        match found {
                            None => !several && matching_rows(
                                self.rows(),
                                target,
                                arity as nat,
                                model,
                                i as nat,
                            ).len() == 0,
                            Some(first) => {
                                let rows = matching_rows(
                                    self.rows(),
                                    target,
                                    arity as nat,
                                    model,
                                    i as nat,
                                );
                                &&& first < i
                                &&& row_matches(
                                    self.rows()[first as int],
                                    target,
                                    arity as nat,
                                    model,
                                )
                                &&& rows.len() >= 1
                                &&& rows[0] == first
                                &&& several == (rows.len() > 1)
                            },
                        },
                    decreases self.body_rows.len() - i,
                {
                    if self.row_has_keys(i, target, arity, keys) {
                        if found.is_some() {
                            several = true;
                        } else {
                            found = Some(i);
                        }
                    }
                    i += 1;
                }
                match found {
                    None => Err(
                        reject(
                            Scope::Scalar,
                            "Subsume does not identify a complete pre-wave body row",
                        ),
                    ),
                    Some(first) => {
                        if several {
                            return Err(
                                reject(
                                    Scope::Scalar,
                                    "Subsume ambiguously identifies multiple body rows",
                                ),
                            );
                        }
                        let row = &self.body_rows[first].1;
                        assert(self.rows()[first as int].1 == ref_views(row@));
                        let values = copy_refs(row, info.n_keys, row.len());
                        assert(ref_views(values@) =~= self.rows()[first as int].1.skip(
                            keys@.len() as int,
                        ));
                        Ok((ScalarEffectKind::Subsume, values))
                    },
                }
            },
        }
    }

    fn compile_table_let(
        &mut self,
        raw: usize,
        variable: RuleVar,
        target: FunctionId,
        arguments: &Vec<AtomTerm>,
    ) -> (done: Result<(), Rejection>)
        requires
            old(self).catalog.well_formed(),
        ensures
            steps_to(
                done,
                final(self).stream(),
                table_let(
                    *old(self).catalog,
                    old(self).stream(),
                    raw,
                    variable,
                    target,
                    arguments@,
                ),
            ),
            final(self).fixed() == old(self).fixed(),
    {
        let info = self.catalog.table_info(target)?;
        if info.n_vals != 1 || info.default != DefaultVal::Fail {
            return Err(
                reject_action(raw, " table Let requires exactly one output and DefaultVal::Fail"),
            );
        }
        if arguments.len() != info.n_keys || variable.ty != info.schema[info.n_keys] {
            return Err(reject_action(raw, " table Let has the wrong signature"));
        }
        proof {
            assert(arguments@.subrange(0, 0 + info.n_keys) =~= arguments@);
            assert(info.schema@.subrange(0, 0 + info.n_keys) =~= info.schema@.take(
                info.n_keys as int,
            ));
        }
        let keys = self.compile_terms(
            arguments,
            0,
            info.n_keys,
            &info.schema,
            0,
            "table Let key",
        )?;
        self.bind_slot(
            raw,
            variable,
            ScalarActionSlotSource::Read(
                ScalarActionRead::Table {
                    target,
                    n_keys: info.n_keys,
                    result_column: info.n_keys,
                    keys,
                },
            ),
        )?;
        Ok(())
    }

    fn compile_fresh_let(
        &mut self,
        raw: usize,
        variable: RuleVar,
        token: ExternalFunctionId,
        arguments: &Vec<AtomTerm>,
    ) -> (done: Result<(), Rejection>)
        ensures
            steps_to(
                done,
                final(self).stream(),
                fresh_let(
                    *old(self).catalog,
                    old(self).stream(),
                    raw,
                    variable,
                    token,
                    arguments@,
                ),
            ),
            final(self).fixed() == old(self).fixed(),
    {
        if variable.ty != ColumnTy::Id {
            return Err(reject_action(raw, " get-fresh result must be Id"));
        }
        if arguments.len() != 1 {
            return Err(reject_action(raw, " get-fresh requires one String literal"));
        }
        let label = self.compile_term(arguments[0], argument_ty(&arguments[0]), "fresh label")?;
        match label {
            ScalarValueRef::Literal(literal) => {
                if literal.scalar != ScalarSqlType::String {
                    return Err(reject_action(raw, " fresh label must be String"));
                }
            },
            _ => {
                return Err(reject_action(raw, " fresh label must be a literal"));
            },
        }
        if self.fresh_rank == u64::MAX {
            return Err(reject(Scope::Bare, "DuckDB scalar fresh-site count overflow"));
        }
        self.add_fresh_token(token);
        let rank: u64 = self.fresh_rank;
        self.fresh_rank = rank + 1;
        self.bind_slot(raw, variable, ScalarActionSlotSource::Fresh { rank })?;
        Ok(())
    }

    fn compile_set_if_empty(
        &mut self,
        raw: usize,
        variable: RuleVar,
        target: FunctionId,
        info: &TableInfo,
        n_keys: usize,
        out_arity: usize,
        arguments: &Vec<AtomTerm>,
    ) -> (done: Result<(), Rejection>)
        requires
            old(self).catalog.well_formed(),
            info.well_formed(),
        ensures
            steps_to(
                done,
                final(self).stream(),
                set_if_empty_let(
                    *old(self).catalog,
                    old(self).live_epochs(),
                    old(self).stream(),
                    raw,
                    variable,
                    target,
                    *info,
                    n_keys,
                    out_arity,
                    arguments@,
                ),
            ),
            final(self).fixed() == old(self).fixed(),
    {
        let fits = info.n_keys == n_keys && info.n_vals == out_arity && out_arity > 0
            && arguments.len() == info.schema.len() && variable.ty == info.schema[n_keys];
        if !fits {
            return Err(
                reject_action(
                    raw,
                    " set-if-empty descriptor disagrees with the resolved view schema",
                ),
            );
        }
        proof {
            assert(arguments@.subrange(0, 0 + n_keys) =~= arguments@.take(n_keys as int));
            assert(info.schema@.subrange(0, 0 + n_keys) =~= info.schema@.take(n_keys as int));
            assert(arguments@.subrange(n_keys as int, n_keys + out_arity) =~= arguments@.skip(
                n_keys as int,
            ));
            assert(info.schema@.subrange(n_keys as int, n_keys + out_arity) =~= info.schema@.skip(
                n_keys as int,
            ));
        }
        let keys = self.compile_terms(arguments, 0, n_keys, &info.schema, 0, "set-if-empty key")?;
        let defaults = self.compile_terms(
            arguments,
            n_keys,
            out_arity,
            &info.schema,
            n_keys,
            "set-if-empty default",
        )?;
        let key_copy = copy_refs(&keys, 0, keys.len());
        let default_copy = copy_refs(&defaults, 0, defaults.len());
        proof {
            assert(ref_views(key_copy@) =~= ref_views(keys@));
            assert(ref_views(default_copy@) =~= ref_views(defaults@));
        }
        let event_ordinal: u64 = self.runtime_ordinal;
        let slot: usize = self.bind_slot(
            raw,
            variable,
            ScalarActionSlotSource::Read(
                ScalarActionRead::SetIfEmpty {
                    target,
                    n_keys,
                    keys: key_copy,
                    defaults: default_copy,
                },
            ),
        )?;
        let kind = self.classify_effect(target, info)?;
        self.add_effect(
            ScalarEffectPlan {
                event_ordinal,
                target,
                arity: info.arity(),
                n_keys,
                kind,
                arguments: keys,
                values: defaults,
                condition_slot: Some(slot),
            },
        );
        Ok(())
    }

    fn compile_view_column(
        &mut self,
        raw: usize,
        variable: RuleVar,
        target: FunctionId,
        info: &TableInfo,
        n_keys: usize,
        col_idx: usize,
        arguments: &Vec<AtomTerm>,
    ) -> (done: Result<(), Rejection>)
        requires
            info.well_formed(),
        ensures
            steps_to(
                done,
                final(self).stream(),
                view_column_let(
                    *old(self).catalog,
                    old(self).stream(),
                    raw,
                    variable,
                    target,
                    *info,
                    n_keys,
                    col_idx,
                    arguments@,
                ),
            ),
            final(self).fixed() == old(self).fixed(),
    {
        let total: usize = info.schema.len();
        let fits = info.n_keys == n_keys && col_idx < info.n_vals && arguments.len() == n_keys + 1
            && variable.ty == info.schema[n_keys + col_idx];
        if !fits {
            return Err(
                reject_action(
                    raw,
                    " view-column descriptor disagrees with the resolved view schema",
                ),
            );
        }
        proof {
            assert(arguments@.subrange(0, 0 + n_keys) =~= arguments@.take(n_keys as int));
            assert(info.schema@.subrange(0, 0 + n_keys) =~= info.schema@.take(n_keys as int));
        }
        let keys = self.compile_terms(arguments, 0, n_keys, &info.schema, 0, "view-column key")?;
        let fallback = self.compile_term(
            arguments[n_keys],
            info.schema[n_keys + col_idx],
            "view-column fallback",
        )?;
        self.bind_slot(
            raw,
            variable,
            ScalarActionSlotSource::Read(
                ScalarActionRead::ViewColumn {
                    target,
                    n_keys,
                    result_column: n_keys + col_idx,
                    keys,
                    fallback,
                },
            ),
        )?;
        Ok(())
    }

    /// The view that a descriptor names.
    fn resolve_fd_view(&self, descriptor: &FdDescriptor) -> (target: Result<FunctionId, Rejection>)
        requires
            self.catalog.well_formed(),
        ensures
            match (target, table_named(*self.catalog, fd_view_name(descriptor@))) {
                (Ok(id), Ok(model)) => id == model && id.rep < self.catalog.tables@.len(),
                (Err(error), Err(cause)) => error@ == rejected_because(
                    Scope::Scalar,
                    "cannot resolve FD view"@,
                    cause.text,
                ),
                _ => false,
            },
    {
        match self.catalog.table_by_exact_name(descriptor.view_name()) {
            Ok(id) => Ok(id),
            Err(error) => Err(
                reject_because(Scope::Scalar, "cannot resolve FD view".to_owned(), error),
            ),
        }
    }

    fn compile_fd_let(
        &mut self,
        raw: usize,
        variable: RuleVar,
        token: ExternalFunctionId,
        descriptor: &FdDescriptor,
        arguments: &Vec<AtomTerm>,
    ) -> (done: Result<(), Rejection>)
        requires
            old(self).catalog.well_formed(),
        ensures
            steps_to(
                done,
                final(self).stream(),
                fd_let(
                    *old(self).catalog,
                    old(self).live_epochs(),
                    old(self).stream(),
                    raw,
                    variable,
                    token,
                    descriptor@,
                    arguments@,
                ),
            ),
            final(self).fixed() == old(self).fixed(),
    {
        let target = self.resolve_fd_view(descriptor)?;
        let catalog = self.catalog;
        let info = &catalog.tables[target.rep as usize];
        assert(info.well_formed());
        if info.default != DefaultVal::Fail {
            return Err(reject_action(raw, " FD view must use DefaultVal::Fail"));
        }
        self.add_fd_descriptor(token, descriptor.copy());
        match descriptor {
            FdDescriptor::SetIfEmpty { n_keys, out_arity, .. } => self.compile_set_if_empty(
                raw,
                variable,
                target,
                info,
                *n_keys,
                *out_arity,
                arguments,
            ),
            FdDescriptor::ViewColumnRead { n_keys, col_idx, .. } => self.compile_view_column(
                raw,
                variable,
                target,
                info,
                *n_keys,
                *col_idx,
                arguments,
            ),
        }
    }

    fn compile_expression_let(
        &mut self,
        raw: usize,
        variable: RuleVar,
        token: ExternalFunctionId,
        arguments: &Vec<AtomTerm>,
    ) -> (done: Result<(), Rejection>)
        ensures
            steps_to(
                done,
                final(self).stream(),
                expression_let(
                    *old(self).catalog,
                    *old(self).registries,
                    old(self).stream(),
                    raw,
                    variable,
                    token,
                    arguments@,
                ),
            ),
            final(self).fixed() == old(self).fixed(),
    {
        let tys = argument_tys(arguments, arguments.len());
        proof {
            assert(arguments@.take(arguments@.len() as int) =~= arguments@);
            assert(arguments@.subrange(0, arguments@.len() as int) =~= arguments@);
            assert(tys@.subrange(0, arguments@.len() as int) =~= tys@);
        }
        let expression = match ScalarExpression::authenticate(
            &self.catalog.forms,
            self.registries,
            token,
            &tys,
            variable.ty,
        ) {
            Ok(expression) => expression,
            Err(error) => {
                let mut text = "action ".to_owned();
                append_number(&mut text, raw as u64);
                text.append(" has an invalid scalar expression");
                return Err(reject_because(Scope::Scalar, text, error));
            },
        };
        let inputs = self.compile_terms(
            arguments,
            0,
            arguments.len(),
            &tys,
            0,
            "scalar expression input",
        )?;
        self.add_authority(token, expression.authority());
        self.bind_slot(raw, variable, ScalarActionSlotSource::Expression { expression, inputs })?;
        Ok(())
    }

    fn compile_let(
        &mut self,
        raw: usize,
        variable: RuleVar,
        call: &RuleActionCall,
        arguments: &Vec<AtomTerm>,
    ) -> (done: Result<(), Rejection>)
        requires
            old(self).catalog.well_formed(),
        ensures
            steps_to(
                done,
                final(self).stream(),
                let_step(
                    *old(self).catalog,
                    *old(self).registries,
                    old(self).stream(),
                    raw,
                    variable,
                    *call,
                    arguments@,
                ),
            ),
            final(self).fixed() == old(self).fixed(),
    {
        match call {
            RuleActionCall::Table { id } => self.compile_table_let(raw, variable, *id, arguments),
            RuleActionCall::Primitive { id, output, .. } => {
                if *output != variable.ty {
                    return Err(
                        reject_action(raw, " primitive result type disagrees with its binding"),
                    );
                }
                let registries = self.registries;
                if registries.is_fresh(*id) {
                    return self.compile_fresh_let(raw, variable, *id, arguments);
                }
                match registries.fd(*id) {
                    Some(descriptor) => self.compile_fd_let(
                        raw,
                        variable,
                        *id,
                        descriptor,
                        arguments,
                    ),
                    None => self.compile_expression_let(raw, variable, *id, arguments),
                }
            },
        }
    }

    /// Moves on to the next event.
    fn advance(&mut self) -> (done: Result<(), Rejection>)
        ensures
            steps_to(done, final(self).stream(), advanced(old(self).stream())),
            final(self).fixed() == old(self).fixed(),
    {
        if self.runtime_ordinal == u64::MAX {
            return Err(reject(Scope::Bare, "DuckDB scalar runtime action count overflow"));
        }
        self.runtime_ordinal = self.runtime_ordinal + 1;
        Ok(())
    }

    fn compile_action(&mut self, raw: usize, action: &CoreAction) -> (done: Result<(), Rejection>)
        requires
            old(self).catalog.well_formed(),
        ensures
            steps_to(
                done,
                final(self).stream(),
                action_step(
                    *old(self).catalog,
                    *old(self).registries,
                    old(self).rows(),
                    old(self).stream(),
                    raw,
                    *action,
                ),
            ),
            final(self).fixed() == old(self).fixed(),
    {
        match action {
            CoreAction::Let(variable, call, arguments) => {
                self.compile_let(raw, *variable, call, arguments)?;
                self.advance()
            },
            CoreAction::LetAtomTerm(variable, source) => {
                let mut context = "action ".to_owned();
                append_number(&mut context, raw as u64);
                context.append(" LetAtomTerm");
                let value = self.compile_term(*source, variable.ty, context.as_str())?;
                self.bind_value(*variable, value, context.as_str())
            },
            CoreAction::SetRow(call, arguments, values) => {
                self.compile_set(raw, call, arguments, values)?;
                self.advance()
            },
            CoreAction::Change(change, call, arguments) => {
                self.compile_change(raw, *change, call, arguments)?;
                self.advance()
            },
            CoreAction::Union(_, _) | CoreAction::Panic(_) => Ok(()),
        }
    }

    fn compile_actions(&mut self, actions: &Vec<CoreAction>) -> (done: Result<(), Rejection>)
        requires
            old(self).catalog.well_formed(),
        ensures
            steps_to(
                done,
                final(self).stream(),
                action_steps(
                    *old(self).catalog,
                    *old(self).registries,
                    old(self).rows(),
                    old(self).stream(),
                    actions@,
                    0,
                ),
            ),
            final(self).fixed() == old(self).fixed(),
    {
        let ghost whole = action_steps(
            *self.catalog,
            *self.registries,
            self.rows(),
            self.stream(),
            actions@,
            0,
        );
        let mut i: usize = 0;
        while i < actions.len()
            invariant
                i <= actions.len(),
                self.catalog.well_formed(),
                self.fixed() == old(self).fixed(),
                whole == action_steps(
                    *old(self).catalog,
                    *old(self).registries,
                    old(self).rows(),
                    old(self).stream(),
                    actions@,
                    0,
                ),
                whole == action_steps(
                    *self.catalog,
                    *self.registries,
                    self.rows(),
                    self.stream(),
                    actions@,
                    i as int,
                ),
            decreases actions.len() - i,
        {
            self.compile_action(i, &actions[i])?;
            i += 1;
        }
        Ok(())
    }

    /// The epoch fault of one token.
    fn token_fault(&self, token: u32) -> (fault: Option<Rejection>)
        ensures
            match (fault, epoch_fault(self.stream(), self.live_epochs(), token)) {
                (Some(error), Some(model)) => error@ == model,
                (None, None) => true,
                _ => false,
            },
    {
        match self.registries.authority_epochs.get(&token) {
            None => {
                let mut text = "has no live authority epoch for token ".to_owned();
                append_number(&mut text, token as u64);
                Some(reject_with(Scope::Scalar, text))
            },
            Some(epoch) => match self.required_authority_epochs.get(&token) {
                Some(required) => {
                    if *required == *epoch {
                        None
                    } else {
                        let mut text = "token ".to_owned();
                        append_number(&mut text, token as u64);
                        text.append(" changed authority epoch after table registration");
                        Some(reject_with(Scope::Scalar, text))
                    }
                },
                None => None,
            },
        }
    }

    /// Every token that the stream rests on, with repetitions.
    fn token_list(&self) -> (tokens: Vec<u32>)
        ensures
            lists(tokens@, required_tokens(self.stream())),
    {
        let native = map_keys(&self.required_native_primitives);
        let typed = map_keys(&self.required_native_scalar_primitives);
        let fresh = set_keys(&self.required_fresh_tokens);
        let fd = map_keys(&self.required_fd_descriptors);
        let ghost a = native@;
        let ghost b = typed@;
        let ghost c = fresh@;
        let ghost d = fd@;
        let mut tokens = native;
        let mut typed = typed;
        let mut fresh = fresh;
        let mut fd = fd;
        tokens.append(&mut typed);
        tokens.append(&mut fresh);
        tokens.append(&mut fd);
        proof {
            let all = required_tokens(self.stream());
            assert(tokens@ =~= a + b + c + d);
            assert(self.stream().required_fd_descriptors.dom()
                =~= self.required_fd_descriptors@.dom());
            assert forall|i: int| 0 <= i < tokens@.len() implies all.contains(
                #[trigger] tokens@[i],
            ) by {
                if i < a.len() {
                    assert(tokens@[i] == a[i]);
                } else if i < a.len() + b.len() {
                    assert(tokens@[i] == b[i - a.len()]);
                } else if i < a.len() + b.len() + c.len() {
                    assert(tokens@[i] == c[i - a.len() - b.len()]);
                } else {
                    assert(tokens@[i] == d[i - a.len() - b.len() - c.len()]);
                }
            }
            assert forall|key: u32| #[trigger] all.contains(key) implies tokens@.contains(key) by {
                if self.required_native_primitives@.dom().contains(key) {
                    let j = choose|j: int| 0 <= j < a.len() && a[j] == key;
                    assert(a.contains(key));
                    assert(tokens@[j] == key);
                } else if self.required_native_scalar_primitives@.dom().contains(key) {
                    let j = choose|j: int| 0 <= j < b.len() && b[j] == key;
                    assert(b.contains(key));
                    assert(tokens@[a.len() + j] == key);
                } else if self.required_fresh_tokens@.contains(key) {
                    let j = choose|j: int| 0 <= j < c.len() && c[j] == key;
                    assert(c.contains(key));
                    assert(tokens@[a.len() + b.len() + j] == key);
                } else {
                    let j = choose|j: int| 0 <= j < d.len() && d[j] == key;
                    assert(d.contains(key));
                    assert(tokens@[a.len() + b.len() + c.len() + j] == key);
                }
            }
        }
        tokens
    }

    /// Checks the epochs of all required tokens and pins them.
    fn pin_epochs(&mut self) -> (done: Result<(), Rejection>)
        ensures
            match done {
                Ok(_) => {
                    &&& epochs_fit(old(self).stream(), old(self).live_epochs())
                    &&& final(self).stream() == (StreamView {
                        required_authority_epochs: pinned_epochs(
                            old(self).stream(),
                            old(self).live_epochs(),
                        ),
                        ..old(self).stream()
                    })
                },
                Err(error) => {
                    &&& !epochs_fit(old(self).stream(), old(self).live_epochs())
                    &&& error@ == epoch_fault(
                        old(self).stream(),
                        old(self).live_epochs(),
                        choose|token: u32| first_fault(
                            old(self).stream(),
                            old(self).live_epochs(),
                            token,
                        ),
                    )->0
                },
            },
            final(self).fixed() == old(self).fixed(),
    {
        let tokens = self.token_list();
        let ghost stream = self.stream();
        let ghost live = self.live_epochs();
        let ghost all = required_tokens(stream);
        let mut found: Option<u32> = None;
        let mut i: usize = 0;
        while i < tokens.len()
            invariant
                i <= tokens.len(),
                *self == *old(self),
                stream == self.stream(),
                live == self.live_epochs(),
                all == required_tokens(stream),
                lists(tokens@, all),
                match found {
                    Some(token) => {
                        &&& all.contains(token)
                        &&& epoch_fault(stream, live, token) is Some
                        &&& forall|j: int|
                            0 <= j < i && #[trigger] tokens@[j] < token ==> epoch_fault(
                                stream,
                                live,
                                tokens@[j],
                            ) is None
                    },
                    None => forall|j: int|
                        0 <= j < i ==> epoch_fault(stream, live, #[trigger] tokens@[j]) is None,
                },
            decreases tokens.len() - i,
        {
            let token: u32 = tokens[i];
            assert(all.contains(tokens@[i as int]));
            if self.token_fault(token).is_some() {
                match found {
                    Some(least) => {
                        if token < least {
                            found = Some(token);
                        }
                    },
                    None => {
                        found = Some(token);
                    },
                }
            }
            i += 1;
        }
        proof {
            assert forall|key: u32| #[trigger] all.contains(key) implies exists|j: int|
                0 <= j < tokens@.len() && tokens@[j] == key by {
                assert(tokens@.contains(key));
            }
        }
        match found {
            Some(token) => {
                proof {
                    assert forall|other: u32| #[trigger]
                        all.contains(other) && other < token implies epoch_fault(
                        stream,
                        live,
                        other,
                    ) is None by {
                        let j = choose|j: int| 0 <= j < tokens@.len() && tokens@[j] == other;
                        assert(tokens@[j] == other);
                    }
                    assert(first_fault(stream, live, token));
                    let chosen = choose|other: u32| first_fault(stream, live, other);
                    assert(first_fault(stream, live, chosen));
                    assert(chosen == token) by {
                        if chosen < token {
                            assert(all.contains(chosen));
                        } else if token < chosen {
                            assert(all.contains(token));
                        }
                    }
                    assert(!epochs_fit(stream, live));
                }
                match self.token_fault(token) {
                    Some(error) => {
                        return Err(error);
                    },
                    None => {},
                }
            },
            None => {},
        }
        proof {
            assert(found is None);
            assert forall|key: u32| #[trigger] all.contains(key) implies epoch_fault(
                stream,
                live,
                key,
            ) is None by {
                let j = choose|j: int| 0 <= j < tokens@.len() && tokens@[j] == key;
                assert(tokens@[j] == key);
            }
        }
        let ghost start = self.required_authority_epochs@;
        let ghost mut seen = Set::<u32>::empty();
        let mut k: usize = 0;
        assert(start =~= start.union_prefer_right(live.restrict(seen)));
        while k < tokens.len()
            invariant
                k <= tokens.len(),
                lists(tokens@, all),
                all == required_tokens(stream),
                stream == old(self).stream(),
                live == old(self).live_epochs(),
                self.fixed() == old(self).fixed(),
                epochs_fit(stream, live),
                start == stream.required_authority_epochs,
                self.stream() == (StreamView {
                    required_authority_epochs: self.required_authority_epochs@,
                    ..stream
                }),
                seen.subset_of(all),
                forall|j: int| 0 <= j < k ==> seen.contains(#[trigger] tokens@[j]),
                self.required_authority_epochs@ == start.union_prefer_right(live.restrict(seen)),
            decreases tokens.len() - k,
        {
            let token: u32 = tokens[k];
            assert(all.contains(tokens@[k as int]));
            let ghost before = self.required_authority_epochs@;
            match self.registries.authority_epochs.get(&token) {
                Some(epoch) => {
                    self.required_authority_epochs.insert(token, *epoch);
                },
                None => {},
            }
            proof {
                assert(epoch_fault(stream, live, token) is None);
                seen = seen.insert(token);
                assert(before.insert(token, live[token]) =~= start.union_prefer_right(
                    live.restrict(seen),
                ));
            }
            k += 1;
        }
        proof {
            assert forall|key: u32| #[trigger] all.contains(key) implies seen.contains(key) by {
                assert(tokens@.contains(key));
                let j = choose|j: int| 0 <= j < tokens@.len() && tokens@[j] == key;
                assert(seen.contains(tokens@[j]));
            }
            assert(seen =~= all);
        }
        Ok(())
    }
}

/// Binds the variables of a compiled body.
fn bind_body(body: &ScalarBodyPlan) -> (bindings: BTreeMap<u32, BoundValue>)
    ensures
        value_views(bindings@) == body_bindings(body@.bindings),
{
    let keys = map_keys(&body.bindings);
    let mut bindings: BTreeMap<u32, BoundValue> = BTreeMap::new();
    let ghost goal = body_bindings(body@.bindings);
    let ghost mut seen = Set::<u32>::empty();
    let mut i: usize = 0;
    assert(value_views(bindings@) =~= goal.restrict(seen));
    while i < keys.len()
        invariant
            i <= keys.len(),
            lists(keys@, body.bindings@.dom()),
            goal == body_bindings(body@.bindings),
            forall|j: int| 0 <= j < i ==> seen.contains(#[trigger] keys@[j]),
            value_views(bindings@) == goal.restrict(seen),
        decreases keys.len() - i,
    {
        let key: u32 = keys[i];
        assert(body.bindings@.dom().contains(keys@[i as int]));
        let ghost before = bindings@;
        match body.bindings.get(&key) {
            Some(binding) => {
                let added = BoundValue {
                    ty: binding.ty,
                    value: ScalarValueRef::Body(binding.stage_column),
                };
                bindings.insert(key, added);
                proof {
                    seen = seen.insert(key);
                    assert(value_views(bindings@) =~= value_views(before).insert(key, added@));
                    assert(value_views(before).insert(key, added@) =~= goal.restrict(seen));
                }
            },
            None => {},
        }
        i += 1;
    }
    proof {
        assert forall|key: u32| goal.contains_key(key) implies seen.contains(key) by {
            assert(body.bindings@.dom().contains(key));
            assert(keys@.contains(key));
            let j = choose|j: int| 0 <= j < keys@.len() && keys@[j] == key;
            assert(seen.contains(keys@[j]));
        }
        assert(goal.restrict(seen) =~= goal);
    }
    bindings
}

/// Whether the scalar compiler owns a head.
fn owns_head(head: &Vec<CoreAction>) -> (result: bool)
    ensures
        result == owned(head@),
{
    if head.len() == 0 {
        return false;
    }
    let mut i: usize = 0;
    while i < head.len()
        invariant
            i <= head.len(),
            forall|j: int| 0 <= j < i ==> scalar_action(#[trigger] head@[j]),
        decreases head.len() - i,
    {
        match &head[i] {
            CoreAction::Union(_, _) | CoreAction::Panic(_) => {
                assert(!scalar_action(head@[i as int]));
                return false;
            },
            _ => {},
        }
        i += 1;
    }
    true
}

/// Compiles a rule to a scalar plan. `Ok(None)` leaves the rule to others; once
/// a rule lies inside the scalar vocabulary, a failure is final.
pub fn compile_scalar_action(
    catalog: &Catalog,
    base_values: &BaseValues,
    registries: &AuthorityRegistries,
    rule: &RuleSpec,
) -> (plan: Result<Option<ScalarActionPlan>, Rejection>)
    requires
        catalog.well_formed(),
    ensures
        agrees_if_owned(
            plan,
            scalar_plan(*catalog, *registries, rule.seminaive, rule.body@, rule.head@),
        ),
{
    reveal(scalar_plan);
    if !owns_head(&rule.head) {
        return Ok(None);
    }
    let body = compile_scalar_body(catalog, base_values, registries, &rule.body)?;
    let bindings = bind_body(&body);
    let mut compiler = GeneralScalarCompiler {
        catalog,
        registries,
        body_rows: body.rows,
        bindings,
        slots: Vec::new(),
        effects: Vec::new(),
        fresh_rank: 0,
        runtime_ordinal: 0,
        required_fresh_tokens: BTreeSet::new(),
        required_fd_descriptors: BTreeMap::new(),
        required_native_primitives: body.required_native_primitives,
        required_native_scalar_primitives: body.required_native_scalar_primitives,
        required_authority_epochs: BTreeMap::new(),
    };
    proof {
        assert(compiler.stream().slots =~= Seq::<SlotView>::empty());
        assert(compiler.stream().effects =~= Seq::<EffectView>::empty());
        assert(compiler.stream().required_fd_descriptors
            =~= Map::<u32, FdDescriptorView>::empty());
        assert(compiler.stream() == stream_of(body@));
    }
    compiler.compile_actions(&rule.head)?;
    if compiler.effects.len() == 0 {
        return Err(reject(Scope::Scalar, "has no durable Set effect"));
    }
    compiler.pin_epochs()?;
    Ok(
        Some(
            ScalarActionPlan {
                seminaive: rule.seminaive,
                match_projection: body.match_projection,
                match_from: body.match_from,
                match_predicates: body.match_predicates,
                freshness_columns: body.freshness_columns,
                order_columns: body.order_columns,
                slots: compiler.slots,
                effects: compiler.effects,
                fresh_slots: compiler.fresh_rank,
                action_count: compiler.runtime_ordinal,
                required_fresh_tokens: compiler.required_fresh_tokens,
                required_fd_descriptors: compiler.required_fd_descriptors,
                required_native_primitives: compiler.required_native_primitives,
                required_native_scalar_primitives: compiler.required_native_scalar_primitives,
                required_authority_epochs: compiler.required_authority_epochs,
            },
        ),
    )
}

} // verus!
