//! Straight-line programs for generic row merges.

use std::collections::{BTreeMap, BTreeSet};

use vstd::prelude::*;

use crate::authority::{AuthorityRegistries, FdDescriptor};
use crate::base::ScalarSqlType;
use crate::catalog::Catalog;
use crate::ir::{
    copy_tys, ColumnTy, ExternalFunctionId, FunctionConfig, FunctionId, MergeAction, MergeFn, Value,
};
use crate::rejection::{reject, reject_with, Rejection, Scope};
use crate::scalar_expr::ScalarExpression;
use crate::text::append_number;
#[allow(unused_imports)]
use crate::authority::{entry, fd_views, FdDescriptorView};
#[allow(unused_imports)]
use crate::base::scalar_of;
#[allow(unused_imports)]
use crate::catalog::typed_literal;
#[allow(unused_imports)]
use crate::rejection::{agrees, rejected, same_outcome, RejectionView};
#[allow(unused_imports)]
use crate::scalar_expr::{authenticated, ScalarExpressionView};
#[allow(unused_imports)]
use crate::text::decimal;

verus! {

/// A compiled merge. Operations are in evaluation order, and every value id
/// names an earlier operation.
#[derive(Debug)]
pub struct MergeProgram {
    pub owner: FunctionId,
    pub n_keys: usize,
    pub n_vals: usize,
    pub n_identity_vals: Option<usize>,
    pub dependency_level: usize,
    pub ops: Vec<MergeOp>,
    pub actions: Vec<MergeProgramAction>,
    pub results: Vec<usize>,
    pub read_deps: BTreeSet<u32>,
    pub write_targets: BTreeSet<u32>,
    pub required_authorities: BTreeMap<u32, u64>,
}

/// One typed operation.
#[derive(Debug)]
pub struct MergeOp {
    pub ty: ColumnTy,
    pub kind: MergeOpKind,
}

/// What an operation computes.
#[derive(Debug)]
pub enum MergeOpKind {
    OldCol(usize),
    NewCol(usize),
    Const { value: Value, sql: String },
    AssertEq { old: usize, new: usize },
    Primitive { primitive: MergePrimitive, arguments: Vec<usize> },
    Function { target: FunctionId, arguments: Vec<usize> },
    Lookup { target: FunctionId, arguments: Vec<usize> },
    UnsupportedUnionId,
}

/// The authority behind a primitive operation.
#[derive(Debug)]
pub enum MergePrimitive {
    Fresh { token: ExternalFunctionId },
    Fd { token: ExternalFunctionId, descriptor: FdDescriptor },
    Scalar(ScalarExpression),
    Unauthenticated { token: ExternalFunctionId },
}

/// One ordered effect of a merge.
#[derive(Debug)]
pub enum MergeProgramAction {
    Bind { slot: usize, value: usize },
    SetRow { target: FunctionId, row: Vec<usize> },
    UnsupportedUnion,
}

/// What a [`MergeOp`] says.
pub struct MergeOpView {
    pub ty: ColumnTy,
    pub kind: MergeOpKindView,
}

/// What a [`MergeOpKind`] says.
pub enum MergeOpKindView {
    OldCol(usize),
    NewCol(usize),
    Const { value: Value, sql: Seq<char> },
    AssertEq { old: usize, new: usize },
    Primitive { primitive: MergePrimitiveView, arguments: Seq<usize> },
    Function { target: FunctionId, arguments: Seq<usize> },
    Lookup { target: FunctionId, arguments: Seq<usize> },
    UnsupportedUnionId,
}

/// What a [`MergePrimitive`] says.
pub enum MergePrimitiveView {
    Fresh { token: ExternalFunctionId },
    Fd { token: ExternalFunctionId, descriptor: FdDescriptorView },
    Scalar(ScalarExpressionView),
    Unauthenticated { token: ExternalFunctionId },
}

/// What a [`MergeProgramAction`] says.
pub enum MergeProgramActionView {
    Bind { slot: usize, value: usize },
    SetRow { target: FunctionId, row: Seq<usize> },
    UnsupportedUnion,
}

/// What a [`MergeProgram`] says.
pub struct MergeProgramView {
    pub owner: FunctionId,
    pub n_keys: usize,
    pub n_vals: usize,
    pub n_identity_vals: Option<usize>,
    pub dependency_level: usize,
    pub ops: Seq<MergeOpView>,
    pub actions: Seq<MergeProgramActionView>,
    pub results: Seq<usize>,
    pub read_deps: Set<u32>,
    pub write_targets: Set<u32>,
    pub required_authorities: Map<u32, u64>,
}

impl View for MergePrimitive {
    type V = MergePrimitiveView;

    open spec fn view(&self) -> MergePrimitiveView {
        match *self {
            MergePrimitive::Fresh { token } => MergePrimitiveView::Fresh { token },
            MergePrimitive::Fd { token, descriptor } => MergePrimitiveView::Fd {
                token,
                descriptor: descriptor@,
            },
            MergePrimitive::Scalar(expression) => MergePrimitiveView::Scalar(expression@),
            MergePrimitive::Unauthenticated { token } => MergePrimitiveView::Unauthenticated {
                token,
            },
        }
    }
}

impl View for MergeOpKind {
    type V = MergeOpKindView;

    open spec fn view(&self) -> MergeOpKindView {
        match *self {
            MergeOpKind::OldCol(column) => MergeOpKindView::OldCol(column),
            MergeOpKind::NewCol(column) => MergeOpKindView::NewCol(column),
            MergeOpKind::Const { value, sql } => MergeOpKindView::Const { value, sql: sql@ },
            MergeOpKind::AssertEq { old, new } => MergeOpKindView::AssertEq { old, new },
            MergeOpKind::Primitive { primitive, arguments } => MergeOpKindView::Primitive {
                primitive: primitive@,
                arguments: arguments@,
            },
            MergeOpKind::Function { target, arguments } => MergeOpKindView::Function {
                target,
                arguments: arguments@,
            },
            MergeOpKind::Lookup { target, arguments } => MergeOpKindView::Lookup {
                target,
                arguments: arguments@,
            },
            MergeOpKind::UnsupportedUnionId => MergeOpKindView::UnsupportedUnionId,
        }
    }
}

impl View for MergeOp {
    type V = MergeOpView;

    open spec fn view(&self) -> MergeOpView {
        MergeOpView { ty: self.ty, kind: self.kind@ }
    }
}

impl View for MergeProgramAction {
    type V = MergeProgramActionView;

    open spec fn view(&self) -> MergeProgramActionView {
        match *self {
            MergeProgramAction::Bind { slot, value } => MergeProgramActionView::Bind {
                slot,
                value,
            },
            MergeProgramAction::SetRow { target, row } => MergeProgramActionView::SetRow {
                target,
                row: row@,
            },
            MergeProgramAction::UnsupportedUnion => MergeProgramActionView::UnsupportedUnion,
        }
    }
}

/// Operations, through their views.
pub open spec fn op_views(ops: Seq<MergeOp>) -> Seq<MergeOpView> {
    ops.map_values(|op: MergeOp| op@)
}

/// Actions, through their views.
pub open spec fn action_views(actions: Seq<MergeProgramAction>) -> Seq<MergeProgramActionView> {
    actions.map_values(|action: MergeProgramAction| action@)
}

impl View for MergeProgram {
    type V = MergeProgramView;

    open spec fn view(&self) -> MergeProgramView {
        MergeProgramView {
            owner: self.owner,
            n_keys: self.n_keys,
            n_vals: self.n_vals,
            n_identity_vals: self.n_identity_vals,
            dependency_level: self.dependency_level,
            ops: op_views(self.ops@),
            actions: action_views(self.actions@),
            results: self.results@,
            read_deps: self.read_deps@,
            write_targets: self.write_targets@,
            required_authorities: self.required_authorities@,
        }
    }
}

/// What a merge is compiled against.
pub struct MergeContext {
    pub catalog: Catalog,
    pub owner: FunctionId,
    pub schema: Seq<ColumnTy>,
    pub n_vals: nat,
    pub authorities: Option<AuthorityRegistries>,
}

/// A partly compiled merge.
pub struct MergeState {
    pub ops: Seq<MergeOpView>,
    pub actions: Seq<MergeProgramActionView>,
    pub environment: Seq<usize>,
    pub read_deps: Set<u32>,
    pub write_targets: Set<u32>,
    pub required_authorities: Map<u32, u64>,
}

/// A refusal of a merge.
pub open spec fn refused(text: Seq<char>) -> RejectionView {
    rejected(Scope::Bare, text)
}

/// The type of an owner value column.
pub open spec fn value_ty(context: MergeContext, column: int) -> Option<ColumnTy> {
    if 0 <= column < context.n_vals {
        Some(context.schema[context.schema.len() - context.n_vals + column])
    } else {
        None
    }
}

/// The columns of a table that a merge names. The owner need not be registered.
pub open spec fn target_columns(context: MergeContext, target: FunctionId) -> Result<
    Seq<ColumnTy>,
    RejectionView,
> {
    if target == context.owner {
        Ok(context.schema)
    } else if target.rep < context.catalog.tables@.len() {
        Ok(context.catalog.tables@[target.rep as int].schema@)
    } else {
        Err(refused("generic merge references unknown target "@ + decimal(target.rep as nat)))
    }
}

/// The number of key columns of a table that a merge names.
pub open spec fn target_keys(context: MergeContext, target: FunctionId) -> int {
    if target == context.owner {
        context.schema.len() - context.n_vals
    } else {
        context.catalog.tables@[target.rep as int].n_keys as int
    }
}

/// `state` with one more operation, and the id of its value.
pub open spec fn with_op(state: MergeState, ty: ColumnTy, kind: MergeOpKindView) -> (
    MergeState,
    usize,
) {
    (
        MergeState { ops: state.ops.push(MergeOpView { ty, kind }), ..state },
        state.ops.len() as usize,
    )
}

/// The type of an expression, as far as it can be told before compiling it.
pub open spec fn expr_ty(
    context: MergeContext,
    state: MergeState,
    expression: MergeFn,
    self_col: int,
) -> Result<ColumnTy, RejectionView> {
    let missing = refused("merge expression references a missing owner value column"@);
    match expression {
        MergeFn::Old | MergeFn::New | MergeFn::AssertEq => match value_ty(context, self_col) {
            Some(ty) => Ok(ty),
            None => Err(missing),
        },
        MergeFn::OldCol(column) | MergeFn::NewCol(column) => match value_ty(
            context,
            column as int,
        ) {
            Some(ty) => Ok(ty),
            None => Err(missing),
        },
        MergeFn::LetVar(slot) => if slot < state.environment.len() {
            Ok(state.ops[state.environment[slot as int] as int].ty)
        } else {
            Err(refused("merge LetVar is unbound"@))
        },
        MergeFn::Const { ty, .. } => Ok(ty),
        MergeFn::Primitive { output, .. } => Ok(output),
        MergeFn::Function(target, _) => match target_columns(context, target) {
            Err(error) => Err(error),
            Ok(columns) => if columns.len() == 0 {
                Err(refused("merge Function target has no output column"@))
            } else {
                Ok(columns.last())
            },
        },
        MergeFn::Lookup(target, _) => match target_columns(context, target) {
            Err(error) => Err(error),
            Ok(columns) => if target_keys(context, target) < columns.len() {
                Ok(columns[target_keys(context, target)])
            } else {
                Err(refused("merge Lookup target has no value column"@))
            },
        },
        MergeFn::UnionId => Ok(ColumnTy::Id),
        MergeFn::Columns(_) | MergeFn::Block { .. } => {
            Err(refused("nested merge aggregate in generic program"@))
        },
    }
}

/// A column of the owner's old or new row, of the expected type.
pub open spec fn column_value(
    context: MergeContext,
    state: MergeState,
    column: int,
    expected: ColumnTy,
    kind: MergeOpKindView,
    mistyped: Seq<char>,
) -> Result<(MergeState, usize), RejectionView> {
    match value_ty(context, column) {
        None => Err(refused("merge expression references a missing owner value column"@)),
        Some(ty) => if ty == expected {
            Ok(with_op(state, expected, kind))
        } else {
            Err(refused(mistyped))
        },
    }
}

/// What a primitive token means in a merge. A token without a live epoch stays
/// unauthenticated; one with an epoch is remembered together with it.
pub open spec fn merge_primitive(
    context: MergeContext,
    state: MergeState,
    token: ExternalFunctionId,
    input: Seq<ColumnTy>,
    output: ColumnTy,
) -> Result<(MergeState, MergePrimitiveView), RejectionView> {
    let unauthenticated = MergePrimitiveView::Unauthenticated { token };
    match context.authorities {
        None => Ok((state, unauthenticated)),
        Some(authorities) => match entry(authorities.authority_epochs@, token.rep) {
            None => Ok((state, unauthenticated)),
            Some(epoch) => {
                let remembered = MergeState {
                    required_authorities: state.required_authorities.insert(token.rep, epoch),
                    ..state
                };
                if authorities.fresh_tokens@.contains(token.rep) {
                    let unfit = refused("generic merge Fresh requires (String) -> Id"@);
                    if output != ColumnTy::Id || input.len() != 1 {
                        Err(unfit)
                    } else {
                        match scalar_of(context.catalog.types, input[0]) {
                            Err(error) => Err(error),
                            Ok(scalar) => if scalar == ScalarSqlType::String {
                                Ok((remembered, MergePrimitiveView::Fresh { token }))
                            } else {
                                Err(unfit)
                            },
                        }
                    }
                } else {
                    match entry(fd_views(authorities.fd_descriptors@), token.rep) {
                        Some(descriptor) => Ok(
                            (remembered, MergePrimitiveView::Fd { token, descriptor }),
                        ),
                        None => match authenticated(
                            context.catalog.forms@,
                            authorities,
                            token,
                            input,
                            output,
                        ) {
                            Err(error) => Err(error),
                            Ok(expression) => Ok(
                                (remembered, MergePrimitiveView::Scalar(expression)),
                            ),
                        },
                    }
                }
            },
        },
    }
}

/// The arguments of an expression that calls a primitive or a function. Every
/// other expression either adds all its operations or none.
pub open spec fn calls(expression: MergeFn) -> Option<Seq<MergeFn>> {
    match expression {
        MergeFn::Primitive { args, .. } => Some(args@),
        MergeFn::Function(_, args) => Some(args@),
        MergeFn::Lookup(_, args) => Some(args@),
        _ => None,
    }
}

/// Compiles an expression to a value of the expected type: the operations it
/// adds, and the id of its value.
pub open spec fn expr_value(
    context: MergeContext,
    state: MergeState,
    expression: MergeFn,
    expected: ColumnTy,
    self_col: usize,
) -> Result<(MergeState, usize), RejectionView>
    decreases expression, 0int,
{
    match expression {
        MergeFn::Old => if value_ty(context, self_col as int) == Some(expected) {
            Ok(with_op(state, expected, MergeOpKindView::OldCol(self_col)))
        } else {
            Err(refused("mistyped Old in merge program"@))
        },
        MergeFn::New => if value_ty(context, self_col as int) == Some(expected) {
            Ok(with_op(state, expected, MergeOpKindView::NewCol(self_col)))
        } else {
            Err(refused("mistyped New in merge program"@))
        },
        MergeFn::OldCol(column) => column_value(
            context,
            state,
            column as int,
            expected,
            MergeOpKindView::OldCol(column),
            "mistyped OldCol in merge program"@,
        ),
        MergeFn::NewCol(column) => column_value(
            context,
            state,
            column as int,
            expected,
            MergeOpKindView::NewCol(column),
            "mistyped NewCol in merge program"@,
        ),
        MergeFn::LetVar(slot) => if slot < state.environment.len() {
            let id = state.environment[slot as int];
            if state.ops[id as int].ty == expected {
                Ok((state, id))
            } else {
                Err(refused("mistyped LetVar in merge program"@))
            }
        } else {
            Err(refused("merge LetVar is unbound"@))
        },
        MergeFn::Const { value, ty } => if ty == expected {
            match typed_literal(context.catalog, expected, value) {
                Err(error) => Err(error),
                Ok((_, sql)) => Ok(
                    with_op(state, expected, MergeOpKindView::Const { value, sql }),
                ),
            }
        } else {
            Err(refused("mistyped Const in merge program"@))
        },
        MergeFn::AssertEq => if value_ty(context, self_col as int) == Some(expected) {
            let (with_old, old_id) = with_op(state, expected, MergeOpKindView::OldCol(self_col));
            let (with_new, new_id) = with_op(with_old, expected, MergeOpKindView::NewCol(self_col));
            Ok(
                with_op(
                    with_new,
                    expected,
                    MergeOpKindView::AssertEq { old: old_id, new: new_id },
                ),
            )
        } else {
            Err(refused("mistyped AssertEq in merge program"@))
        },
        MergeFn::UnionId => Ok(with_op(state, expected, MergeOpKindView::UnsupportedUnionId)),
        MergeFn::Primitive { id, input, output, args, .. } => primitive_value(
            context,
            state,
            id,
            input@,
            output,
            args@,
            expected,
            self_col,
        ),
        MergeFn::Function(target, args) => function_value(
            context,
            state,
            target,
            args@,
            expected,
            self_col,
        ),
        MergeFn::Lookup(target, args) => lookup_value(
            context,
            state,
            target,
            args@,
            expected,
            self_col,
        ),
        MergeFn::Columns(_) | MergeFn::Block { .. } => {
            Err(refused("nested merge aggregate in generic program"@))
        },
    }
}

/// Compiles a primitive call.
pub open spec fn primitive_value(
    context: MergeContext,
    state: MergeState,
    token: ExternalFunctionId,
    input: Seq<ColumnTy>,
    output: ColumnTy,
    args: Seq<MergeFn>,
    expected: ColumnTy,
    self_col: usize,
) -> Result<(MergeState, usize), RejectionView>
    decreases args, args.len() + 1,
{
    if output == expected && input.len() == args.len() {
        match arg_values(context, state, args, input, self_col, 0, Seq::empty()) {
            Err(error) => Err(error),
            Ok((after, arguments)) => match merge_primitive(context, after, token, input, output) {
                Err(error) => Err(error),
                Ok((remembered, primitive)) => Ok(
                    with_op(
                        remembered,
                        expected,
                        MergeOpKindView::Primitive { primitive, arguments },
                    ),
                ),
            },
        }
    } else {
        Err(refused("mistyped primitive in merge program"@))
    }
}

/// Compiles a call of another function: its last column, under all the others.
pub open spec fn function_value(
    context: MergeContext,
    state: MergeState,
    target: FunctionId,
    args: Seq<MergeFn>,
    expected: ColumnTy,
    self_col: usize,
) -> Result<(MergeState, usize), RejectionView>
    decreases args, args.len() + 1,
{
    match target_columns(context, target) {
        Err(error) => Err(error),
        Ok(columns) => if columns.len() == 0 {
            Err(refused("merge Function target has no output column"@))
        } else if columns.last() != expected {
            Err(refused("mistyped function result in merge program"@))
        } else if args.len() != columns.len() - 1 {
            Err(refused("merge Function arity changed after validation"@))
        } else {
            match arg_values(context, state, args, columns, self_col, 0, Seq::empty()) {
                Err(error) => Err(error),
                Ok((after, arguments)) => Ok(
                    with_op(
                        MergeState { read_deps: after.read_deps.insert(target.rep), ..after },
                        expected,
                        MergeOpKindView::Function { target, arguments },
                    ),
                ),
            }
        },
    }
}

/// Compiles a lookup: the first value column, under the keys. An absent row may
/// be filled in, so the table counts as written too.
pub open spec fn lookup_value(
    context: MergeContext,
    state: MergeState,
    target: FunctionId,
    args: Seq<MergeFn>,
    expected: ColumnTy,
    self_col: usize,
) -> Result<(MergeState, usize), RejectionView>
    decreases args, args.len() + 1,
{
    match target_columns(context, target) {
        Err(error) => Err(error),
        Ok(columns) => {
            let n_keys = target_keys(context, target);
            if n_keys >= columns.len() {
                Err(refused("merge Lookup target has no value column"@))
            } else if columns[n_keys] != expected {
                Err(refused("mistyped lookup result in merge program"@))
            } else if args.len() != n_keys {
                Err(refused("merge Lookup key arity changed after validation"@))
            } else {
                match arg_values(context, state, args, columns, self_col, 0, Seq::empty()) {
                    Err(error) => Err(error),
                    Ok((after, arguments)) => Ok(
                        with_op(
                            MergeState {
                                read_deps: after.read_deps.insert(target.rep),
                                write_targets: after.write_targets.insert(target.rep),
                                ..after
                            },
                            expected,
                            MergeOpKindView::Lookup { target, arguments },
                        ),
                    ),
                }
            }
        },
    }
}

/// Compiles arguments from position `from` on, after those already `done`. Each
/// argument has the type at its own position.
pub open spec fn arg_values(
    context: MergeContext,
    state: MergeState,
    args: Seq<MergeFn>,
    tys: Seq<ColumnTy>,
    self_col: usize,
    from: int,
    done: Seq<usize>,
) -> Result<(MergeState, Seq<usize>), RejectionView>
    decreases args, args.len() - from,
{
    if from < 0 || from >= args.len() {
        Ok((state, done))
    } else {
        match expr_value(context, state, args[from], tys[from], self_col) {
            Err(error) => Err(error),
            Ok((after, id)) => arg_values(
                context,
                after,
                args,
                tys,
                self_col,
                from + 1,
                done.push(id),
            ),
        }
    }
}

/// Compiles one ordered step. A `Let` takes the next slot.
pub open spec fn action_step(
    context: MergeContext,
    state: MergeState,
    action: MergeAction,
) -> Result<MergeState, RejectionView> {
    match action {
        MergeAction::Let { slot, value } => if slot != state.environment.len() {
            Err(refused("merge Let slots must be ordered"@))
        } else {
            match expr_ty(context, state, value, 0) {
                Err(error) => Err(error),
                Ok(expected) => match expr_value(context, state, value, expected, 0) {
                    Err(error) => Err(error),
                    Ok((after, id)) => Ok(
                        MergeState {
                            environment: after.environment.push(id),
                            actions: after.actions.push(
                                MergeProgramActionView::Bind { slot, value: id },
                            ),
                            ..after
                        },
                    ),
                },
            }
        },
        MergeAction::SetRow(target, arguments) => match target_columns(context, target) {
            Err(error) => Err(error),
            Ok(columns) => if arguments@.len() != columns.len() {
                Err(refused("merge Set arity changed after validation"@))
            } else {
                match arg_values(context, state, arguments@, columns, 0, 0, Seq::empty()) {
                    Err(error) => Err(error),
                    Ok((after, row)) => Ok(
                        MergeState {
                            write_targets: after.write_targets.insert(target.rep),
                            actions: after.actions.push(
                                MergeProgramActionView::SetRow { target, row },
                            ),
                            ..after
                        },
                    ),
                }
            },
        },
        MergeAction::Union(_, _) => Ok(
            MergeState {
                actions: state.actions.push(MergeProgramActionView::UnsupportedUnion),
                ..state
            },
        ),
    }
}

/// Compiles the steps from position `from` on.
pub open spec fn action_steps(
    context: MergeContext,
    state: MergeState,
    actions: Seq<MergeAction>,
    from: int,
) -> Result<MergeState, RejectionView>
    decreases actions.len() - from,
{
    if from < 0 || from >= actions.len() {
        Ok(state)
    } else {
        match action_step(context, state, actions[from]) {
            Err(error) => Err(error),
            Ok(after) => action_steps(context, after, actions, from + 1),
        }
    }
}

/// Compiles the result columns from position `from` on, after those `done`.
pub open spec fn result_values(
    context: MergeContext,
    state: MergeState,
    columns: Seq<MergeFn>,
    from: int,
    done: Seq<usize>,
) -> Result<(MergeState, Seq<usize>), RejectionView>
    decreases columns.len() - from,
{
    if from < 0 || from >= columns.len() {
        Ok((state, done))
    } else {
        match expr_value(
            context,
            state,
            columns[from],
            context.schema[context.schema.len() - context.n_vals + from],
            from as usize,
        ) {
            Err(error) => Err(error),
            Ok((after, id)) => result_values(context, after, columns, from + 1, done.push(id)),
        }
    }
}

/// The ordered steps of a merge.
pub open spec fn merge_steps(merge: MergeFn) -> Seq<MergeAction> {
    match merge {
        MergeFn::Block { actions, .. } => actions@,
        _ => Seq::empty(),
    }
}

/// The expression for the merged row.
pub open spec fn merge_result(merge: MergeFn) -> MergeFn {
    match merge {
        MergeFn::Block { result, .. } => *result,
        _ => merge,
    }
}

/// The expressions for the merged value columns.
pub open spec fn result_columns(result: MergeFn) -> Seq<MergeFn> {
    match result {
        MergeFn::Columns(columns) => columns@,
        _ => seq![result],
    }
}

/// The highest dependency level among the first `count` tables that are read,
/// the owner left out.
pub open spec fn read_level(context: MergeContext, read_deps: Set<u32>, count: nat) -> nat
    decreases count,
{
    if count == 0 {
        0
    } else {
        let earlier = read_level(context, read_deps, (count - 1) as nat);
        let id = (count - 1) as u32;
        let level = context.catalog.tables@[count - 1].merge_program.dependency_level as nat;
        if read_deps.contains(id) && id != context.owner.rep && level > earlier {
            level
        } else {
            earlier
        }
    }
}

/// No table that is read has a higher level than the highest one.
pub proof fn lemma_read_level(
    context: MergeContext,
    read_deps: Set<u32>,
    source: u32,
    count: nat,
)
    requires
        read_deps.contains(source),
        source != context.owner.rep,
        source < count,
        count <= u32::MAX,
    ensures
        context.catalog.tables@[source as int].merge_program.dependency_level <= read_level(
            context,
            read_deps,
            count,
        ),
    decreases count,
{
    if source < count - 1 {
        lemma_read_level(context, read_deps, source, (count - 1) as nat);
    }
}

/// A merge before anything is compiled.
pub open spec fn empty_state() -> MergeState {
    MergeState {
        ops: Seq::empty(),
        actions: Seq::empty(),
        environment: Seq::empty(),
        read_deps: Set::empty(),
        write_targets: Set::empty(),
        required_authorities: Map::empty(),
    }
}

/// The program of a merge: its steps, then one value per value column. Its
/// level is above that of every other table it reads.
pub open spec fn program_of(
    context: MergeContext,
    merge: MergeFn,
    n_identity_vals: Option<usize>,
) -> Result<MergeProgramView, RejectionView> {
    match action_steps(context, empty_state(), merge_steps(merge), 0) {
        Err(error) => Err(error),
        Ok(stepped) => {
            let columns = result_columns(merge_result(merge));
            if columns.len() != context.n_vals {
                Err(refused("merge result arity changed after validation"@))
            } else {
                match result_values(context, stepped, columns, 0, Seq::empty()) {
                    Err(error) => Err(error),
                    Ok((state, results)) => {
                        let below = read_level(
                            context,
                            state.read_deps,
                            context.catalog.tables@.len(),
                        );
                        if below >= usize::MAX {
                            Err(refused("generic merge dependency level overflow"@))
                        } else {
                            Ok(
                                MergeProgramView {
                                    owner: context.owner,
                                    n_keys: (context.schema.len() - context.n_vals) as usize,
                                    n_vals: context.n_vals as usize,
                                    n_identity_vals,
                                    dependency_level: (below + 1) as usize,
                                    ops: state.ops,
                                    actions: state.actions,
                                    results,
                                    read_deps: state.read_deps,
                                    write_targets: state.write_targets,
                                    required_authorities: state.required_authorities,
                                },
                            )
                        }
                    },
                }
            }
        },
    }
}

/// What the program of a table is compiled against.
pub open spec fn table_context(
    catalog: Catalog,
    owner: FunctionId,
    config: FunctionConfig,
    authorities: Option<AuthorityRegistries>,
) -> MergeContext {
    MergeContext {
        catalog,
        owner,
        schema: config.schema@,
        n_vals: config.n_vals as nat,
        authorities,
    }
}

/// An operation reads another table.
pub open spec fn reads_table(op: MergeOpView) -> bool {
    op.kind is Function || op.kind is Lookup
}

/// An operation uses a functional-dependency primitive.
pub open spec fn uses_fd(op: MergeOpView) -> bool {
    op.kind matches MergeOpKindView::Primitive { primitive, .. } && primitive is Fd
}

/// Whether the generic executor can run a program, or why it cannot.
pub open spec fn supported(program: MergeProgramView, name: Seq<char>) -> Result<
    (),
    RejectionView,
> {
    if exists|i: int| 0 <= i < program.ops.len() && reads_table(#[trigger] program.ops[i]) {
        Err(
            refused(
                "DuckDB checkpoint-0 generic merge for `"@ + name
                    + "` does not support Function or Lookup operations"@,
            ),
        )
    } else if exists|i: int| 0 <= i < program.ops.len() && uses_fd(#[trigger] program.ops[i]) {
        Err(
            refused(
                "DuckDB checkpoint-0 generic merge for `"@ + name
                    + "` does not support FD operations"@,
            ),
        )
    } else if exists|i: int|
        0 <= i < program.ops.len() && (#[trigger] program.ops[i]).kind is UnsupportedUnionId {
        Err(
            refused(
                "DuckDB generic merge for `"@ + name + "` does not support MergeFn::UnionId"@,
            ),
        )
    } else if exists|i: int|
        0 <= i < program.actions.len() && #[trigger] program.actions[i] is UnsupportedUnion {
        Err(
            refused(
                "DuckDB generic merge for `"@ + name + "` does not support MergeAction::Union"@,
            ),
        )
    } else {
        Ok(())
    }
}

/// Every value that an operation reads has an id below `bound`.
pub open spec fn reads_below(kind: MergeOpKindView, bound: int) -> bool {
    match kind {
        MergeOpKindView::AssertEq { old, new } => old < bound && new < bound,
        MergeOpKindView::Primitive { arguments, .. }
        | MergeOpKindView::Function { arguments, .. }
        | MergeOpKindView::Lookup { arguments, .. } => ids_below(arguments, bound),
        _ => true,
    }
}

/// Every id of a list is below `bound`.
pub open spec fn ids_below(ids: Seq<usize>, bound: int) -> bool {
    forall|i: int| 0 <= i < ids.len() ==> #[trigger] ids[i] < bound
}

/// Operations only read the values of earlier operations.
pub open spec fn straight_line(ops: Seq<MergeOpView>) -> bool {
    forall|k: int| 0 <= k < ops.len() ==> reads_below(#[trigger] ops[k].kind, k)
}

/// An effect only uses values of the program's operations.
pub open spec fn uses_below(action: MergeProgramActionView, bound: int) -> bool {
    match action {
        MergeProgramActionView::Bind { value, .. } => value < bound,
        MergeProgramActionView::SetRow { row, .. } => ids_below(row, bound),
        MergeProgramActionView::UnsupportedUnion => true,
    }
}

/// Every effect only uses values of the program's operations.
pub open spec fn effects_below(actions: Seq<MergeProgramActionView>, bound: int) -> bool {
    forall|k: int| 0 <= k < actions.len() ==> uses_below(#[trigger] actions[k], bound)
}

/// The slots that a list of effects binds, in order.
pub open spec fn bound_values(actions: Seq<MergeProgramActionView>) -> Seq<usize>
    decreases actions.len(),
{
    if actions.len() == 0 {
        Seq::empty()
    } else {
        let earlier = bound_values(actions.drop_last());
        match actions.last() {
            MergeProgramActionView::Bind { value, .. } => earlier.push(value),
            _ => earlier,
        }
    }
}

/// A table that a merge may name: its own, or a registered one.
pub open spec fn known_table(context: MergeContext, id: u32) -> bool {
    id == context.owner.rep || id < context.catalog.tables@.len()
}

/// Every listed table is known.
pub open spec fn known_tables(context: MergeContext, ids: Set<u32>) -> bool {
    forall|id: u32| #[trigger] ids.contains(id) ==> known_table(context, id)
}

impl MergeState {
    /// Operations read earlier values only, and so do effects and `Let` slots.
    pub open spec fn ordered(self) -> bool {
        &&& straight_line(self.ops)
        &&& ids_below(self.environment, self.ops.len() as int)
        &&& effects_below(self.actions, self.ops.len() as int)
        &&& self.environment == bound_values(self.actions)
    }
}

impl MergeProgramView {
    /// Operations read earlier values only, and effects and results use values
    /// of the program's own operations.
    pub open spec fn ordered(self) -> bool {
        &&& straight_line(self.ops)
        &&& effects_below(self.actions, self.ops.len() as int)
        &&& ids_below(self.results, self.ops.len() as int)
    }
}

struct Compiler<'a> {
    catalog: &'a Catalog,
    owner: FunctionId,
    config: &'a FunctionConfig,
    authorities: Option<&'a AuthorityRegistries>,
    ops: Vec<MergeOp>,
    actions: Vec<MergeProgramAction>,
    environment: Vec<usize>,
    read_deps: BTreeSet<u32>,
    write_targets: BTreeSet<u32>,
    required_authorities: BTreeMap<u32, u64>,
}

impl Compiler<'_> {
    spec fn context(&self) -> MergeContext {
        MergeContext {
            catalog: *self.catalog,
            owner: self.owner,
            schema: self.config.schema@,
            n_vals: self.config.n_vals as nat,
            authorities: match self.authorities {
                Some(authorities) => Some(*authorities),
                None => None,
            },
        }
    }

    spec fn state(&self) -> MergeState {
        MergeState {
            ops: op_views(self.ops@),
            actions: action_views(self.actions@),
            environment: self.environment@,
            read_deps: self.read_deps@,
            write_targets: self.write_targets@,
            required_authorities: self.required_authorities@,
        }
    }

    #[verifier::opaque]
    spec fn ready(&self) -> bool {
        &&& self.catalog.well_formed()
        &&& self.config.n_vals <= self.config.schema@.len()
        &&& self.state().ordered()
        &&& known_tables(self.context(), self.read_deps@)
        &&& known_tables(self.context(), self.write_targets@)
    }

    /// The type of an owner value column.
    fn value_schema(&self, column: usize) -> (ty: Option<ColumnTy>)
        requires
            self.ready(),
        ensures
            ty == value_ty(self.context(), column as int),
    {
        reveal(Compiler::ready);
        if column < self.config.n_vals {
            Some(self.config.schema[self.config.schema.len() - self.config.n_vals + column])
        } else {
            None
        }
    }

    fn target_schema(&self, target: FunctionId) -> (schema: Result<Vec<ColumnTy>, Rejection>)
        ensures
            agrees(schema, target_columns(self.context(), target)),
    {
        if target == self.owner {
            Ok(copy_tys(&self.config.schema))
        } else if (target.rep as usize) < self.catalog.tables.len() {
            Ok(copy_tys(&self.catalog.tables[target.rep as usize].schema))
        } else {
            let mut text = "generic merge references unknown target ".to_owned();
            append_number(&mut text, target.rep as u64);
            Err(reject_with(Scope::Bare, text))
        }
    }

    fn target_n_keys(&self, target: FunctionId) -> (n_keys: usize)
        requires
            self.ready(),
            target_columns(self.context(), target) is Ok,
        ensures
            n_keys == target_keys(self.context(), target),
    {
        reveal(Compiler::ready);
        if target == self.owner {
            self.config.schema.len() - self.config.n_vals
        } else {
            self.catalog.tables[target.rep as usize].n_keys
        }
    }

    fn push(&mut self, ty: ColumnTy, kind: MergeOpKind) -> (id: usize)
        requires
            old(self).ready(),
            reads_below(kind@, old(self).ops@.len() as int),
        ensures
            (final(self).state(), id) == with_op(old(self).state(), ty, kind@),
            final(self).context() == old(self).context(),
            final(self).ready(),
            id < final(self).ops@.len(),
            final(self).ops@.len() == old(self).ops@.len() + 1,
    {
        reveal(Compiler::ready);
        let id: usize = self.ops.len();
        let ghost before = self.state();
        let ghost op = MergeOp { ty, kind };
        self.ops.push(MergeOp { ty, kind });
        proof {
            let after = self.state();
            assert(after.ops =~= before.ops.push(op@));
            assert forall|k: int| 0 <= k < after.ops.len() implies reads_below(
                #[trigger] after.ops[k].kind,
                k,
            ) by {
                if k < before.ops.len() {
                    assert(after.ops[k] == before.ops[k]);
                }
            }
            assert forall|k: int| 0 <= k < after.actions.len() implies uses_below(
                #[trigger] after.actions[k],
                after.ops.len() as int,
            ) by {
                assert(uses_below(before.actions[k], before.ops.len() as int));
            }
        }
        id
    }

    /// The value bound to a `Let` slot, and its type.
    fn let_value(&self, slot: usize) -> (bound: Option<(usize, ColumnTy)>)
        requires
            self.ready(),
        ensures
            match bound {
                Some((id, ty)) => {
                    &&& slot < self.environment@.len()
                    &&& id == self.state().environment[slot as int]
                    &&& id < self.ops@.len()
                    &&& ty == self.state().ops[id as int].ty
                },
                None => slot >= self.environment@.len(),
            },
    {
        reveal(Compiler::ready);
        if slot < self.environment.len() {
            let id: usize = self.environment[slot];
            assert(self.state().environment[slot as int] < self.state().ops.len());
            Some((id, self.ops[id].ty))
        } else {
            None
        }
    }

    fn note_read(&mut self, target: FunctionId)
        requires
            old(self).ready(),
            known_table(old(self).context(), target.rep),
        ensures
            final(self).state() == (MergeState {
                read_deps: old(self).state().read_deps.insert(target.rep),
                ..old(self).state()
            }),
            final(self).context() == old(self).context(),
            final(self).ready(),
            final(self).ops@ == old(self).ops@,
    {
        reveal(Compiler::ready);
        self.read_deps.insert(target.rep);
    }

    fn note_write(&mut self, target: FunctionId)
        requires
            old(self).ready(),
            known_table(old(self).context(), target.rep),
        ensures
            final(self).state() == (MergeState {
                write_targets: old(self).state().write_targets.insert(target.rep),
                ..old(self).state()
            }),
            final(self).context() == old(self).context(),
            final(self).ready(),
            final(self).ops@ == old(self).ops@,
    {
        reveal(Compiler::ready);
        self.write_targets.insert(target.rep);
    }

    fn infer_expr_ty(&self, expression: &MergeFn, self_col: usize) -> (ty: Result<
        ColumnTy,
        Rejection,
    >)
        requires
            self.ready(),
        ensures
            same_outcome(ty, expr_ty(self.context(), self.state(), *expression, self_col as int)),
    {
        let missing = "merge expression references a missing owner value column";
        match expression {
            MergeFn::Old | MergeFn::New | MergeFn::AssertEq => match self.value_schema(self_col) {
                Some(ty) => Ok(ty),
                None => Err(reject(Scope::Bare, missing)),
            },
            MergeFn::OldCol(column) | MergeFn::NewCol(column) => match self.value_schema(*column) {
                Some(ty) => Ok(ty),
                None => Err(reject(Scope::Bare, missing)),
            },
            MergeFn::LetVar(slot) => {
                match self.let_value(*slot) {
                    Some((_, ty)) => Ok(ty),
                    None => Err(reject(Scope::Bare, "merge LetVar is unbound")),
                }
            },
            MergeFn::Const { ty, .. } => Ok(*ty),
            MergeFn::Primitive { output, .. } => Ok(*output),
            MergeFn::Function(target, _) => {
                let schema = self.target_schema(*target)?;
                if schema.len() == 0 {
                    Err(reject(Scope::Bare, "merge Function target has no output column"))
                } else {
                    Ok(schema[schema.len() - 1])
                }
            },
            MergeFn::Lookup(target, _) => {
                let schema = self.target_schema(*target)?;
                let n_keys: usize = self.target_n_keys(*target);
                if n_keys < schema.len() {
                    Ok(schema[n_keys])
                } else {
                    Err(reject(Scope::Bare, "merge Lookup target has no value column"))
                }
            },
            MergeFn::UnionId => Ok(ColumnTy::Id),
            MergeFn::Columns(_) | MergeFn::Block { .. } => Err(
                reject(Scope::Bare, "nested merge aggregate in generic program"),
            ),
        }
    }

    fn authenticate_primitive(
        &mut self,
        token: ExternalFunctionId,
        input: &Vec<ColumnTy>,
        output: ColumnTy,
    ) -> (primitive: Result<MergePrimitive, Rejection>)
        requires
            old(self).ready(),
        ensures
            match (
                primitive,
                merge_primitive(old(self).context(), old(self).state(), token, input@, output),
            ) {
                (Ok(value), Ok((state, model))) => value@ == model && final(self).state() == state,
                (Err(error), Err(model)) => error@ == model,
                _ => false,
            },
            final(self).context() == old(self).context(),
            final(self).ready(),
            final(self).ops@.len() == old(self).ops@.len(),
    {
        reveal(Compiler::ready);
        let authorities = match self.authorities {
            None => {
                return Ok(MergePrimitive::Unauthenticated { token });
            },
            Some(authorities) => authorities,
        };
        let epoch: u64 = match authorities.epoch(token) {
            None => {
                return Ok(MergePrimitive::Unauthenticated { token });
            },
            Some(epoch) => epoch,
        };
        self.required_authorities.insert(token.rep, epoch);
        if authorities.is_fresh(token) {
            if output == ColumnTy::Id && input.len() == 1 && self.catalog.types.from_column(
                input[0],
            )? == ScalarSqlType::String {
                Ok(MergePrimitive::Fresh { token })
            } else {
                Err(reject(Scope::Bare, "generic merge Fresh requires (String) -> Id"))
            }
        } else {
            match authorities.fd(token) {
                Some(descriptor) => Ok(
                    MergePrimitive::Fd { token, descriptor: descriptor.copy() },
                ),
                None => {
                    let expression = ScalarExpression::authenticate(
                        &self.catalog.forms,
                        authorities,
                        token,
                        input,
                        output,
                    )?;
                    Ok(MergePrimitive::Scalar(expression))
                },
            }
        }
    }

    fn compile_args(&mut self, args: &Vec<MergeFn>, tys: &Vec<ColumnTy>, self_col: usize) -> (ids:
        Result<Vec<usize>, Rejection>)
        requires
            old(self).ready(),
            args@.len() <= tys@.len(),
        ensures
            match (
                ids,
                arg_values(
                    old(self).context(),
                    old(self).state(),
                    args@,
                    tys@,
                    self_col,
                    0,
                    Seq::empty(),
                ),
            ) {
                (Ok(values), Ok((state, model))) => {
                    &&& values@ == model
                    &&& final(self).state() == state
                    &&& final(self).ready()
                    &&& ids_below(values@, final(self).ops@.len() as int)
                    &&& final(self).ops@.len() >= old(self).ops@.len()
                },
                (Err(error), Err(model)) => error@ == model,
                _ => false,
            },
            final(self).context() == old(self).context(),
        decreases args@, 0int,
    {
        let mut ids: Vec<usize> = Vec::new();
        let mut i: usize = 0;
        let ghost context = self.context();
        let ghost start = self.state();
        assert(ids@ =~= Seq::<usize>::empty());
        while i < args.len()
            invariant
                i <= args.len() <= tys.len(),
                self.ready(),
                self.context() == context,
                context == old(self).context(),
                start == old(self).state(),
                self.ops@.len() >= start.ops.len(),
                ids_below(ids@, self.ops@.len() as int),
                arg_values(context, start, args@, tys@, self_col, 0, Seq::empty()) == arg_values(
                    context,
                    self.state(),
                    args@,
                    tys@,
                    self_col,
                    i as int,
                    ids@,
                ),
            decreases args.len() - i,
        {
            let id: usize = self.compile_expr(&args[i], tys[i], self_col)?;
            ids.push(id);
            i += 1;
        }
        Ok(ids)
    }

    fn compile_primitive(
        &mut self,
        token: ExternalFunctionId,
        input: &Vec<ColumnTy>,
        output: ColumnTy,
        args: &Vec<MergeFn>,
        expected: ColumnTy,
        self_col: usize,
    ) -> (id: Result<usize, Rejection>)
        requires
            old(self).ready(),
        ensures
            match (
                id,
                primitive_value(
                    old(self).context(),
                    old(self).state(),
                    token,
                    input@,
                    output,
                    args@,
                    expected,
                    self_col,
                ),
            ) {
                (Ok(value), Ok((state, model))) => {
                    &&& value == model
                    &&& final(self).state() == state
                    &&& final(self).ready()
                    &&& value < final(self).ops@.len()
                    &&& final(self).ops@.len() >= old(self).ops@.len()
                },
                (Err(error), Err(model)) => error@ == model,
                _ => false,
            },
            final(self).context() == old(self).context(),
        decreases args@, 1int,
    {
        if output != expected || input.len() != args.len() {
            return Err(reject(Scope::Bare, "mistyped primitive in merge program"));
        }
        let arguments = self.compile_args(args, input, self_col)?;
        let primitive = self.authenticate_primitive(token, input, output)?;
        Ok(self.push(expected, MergeOpKind::Primitive { primitive, arguments }))
    }

    fn compile_function(
        &mut self,
        target: FunctionId,
        args: &Vec<MergeFn>,
        expected: ColumnTy,
        self_col: usize,
    ) -> (id: Result<usize, Rejection>)
        requires
            old(self).ready(),
        ensures
            match (
                id,
                function_value(
                    old(self).context(),
                    old(self).state(),
                    target,
                    args@,
                    expected,
                    self_col,
                ),
            ) {
                (Ok(value), Ok((state, model))) => {
                    &&& value == model
                    &&& final(self).state() == state
                    &&& final(self).ready()
                    &&& value < final(self).ops@.len()
                    &&& final(self).ops@.len() >= old(self).ops@.len()
                },
                (Err(error), Err(model)) => error@ == model,
                _ => false,
            },
            final(self).context() == old(self).context(),
        decreases args@, 1int,
    {
        let schema = self.target_schema(target)?;
        if schema.len() == 0 {
            return Err(reject(Scope::Bare, "merge Function target has no output column"));
        }
        if schema[schema.len() - 1] != expected {
            return Err(reject(Scope::Bare, "mistyped function result in merge program"));
        }
        if args.len() != schema.len() - 1 {
            return Err(reject(Scope::Bare, "merge Function arity changed after validation"));
        }
        let arguments = self.compile_args(args, &schema, self_col)?;
        self.note_read(target);
        Ok(self.push(expected, MergeOpKind::Function { target, arguments }))
    }

    fn compile_lookup(
        &mut self,
        target: FunctionId,
        args: &Vec<MergeFn>,
        expected: ColumnTy,
        self_col: usize,
    ) -> (id: Result<usize, Rejection>)
        requires
            old(self).ready(),
        ensures
            match (
                id,
                lookup_value(
                    old(self).context(),
                    old(self).state(),
                    target,
                    args@,
                    expected,
                    self_col,
                ),
            ) {
                (Ok(value), Ok((state, model))) => {
                    &&& value == model
                    &&& final(self).state() == state
                    &&& final(self).ready()
                    &&& value < final(self).ops@.len()
                    &&& final(self).ops@.len() >= old(self).ops@.len()
                },
                (Err(error), Err(model)) => error@ == model,
                _ => false,
            },
            final(self).context() == old(self).context(),
        decreases args@, 1int,
    {
        let schema = self.target_schema(target)?;
        let n_keys: usize = self.target_n_keys(target);
        if n_keys >= schema.len() {
            return Err(reject(Scope::Bare, "merge Lookup target has no value column"));
        }
        if schema[n_keys] != expected {
            return Err(reject(Scope::Bare, "mistyped lookup result in merge program"));
        }
        if args.len() != n_keys {
            return Err(reject(Scope::Bare, "merge Lookup key arity changed after validation"));
        }
        let arguments = self.compile_args(args, &schema, self_col)?;
        self.note_read(target);
        self.note_write(target);
        Ok(self.push(expected, MergeOpKind::Lookup { target, arguments }))
    }

    fn compile_expr(&mut self, expression: &MergeFn, expected: ColumnTy, self_col: usize) -> (id:
        Result<usize, Rejection>)
        requires
            old(self).ready(),
        ensures
            match (
                id,
                expr_value(
                    old(self).context(),
                    old(self).state(),
                    *expression,
                    expected,
                    self_col,
                ),
            ) {
                (Ok(value), Ok((state, model))) => {
                    &&& value == model
                    &&& final(self).state() == state
                    &&& final(self).ready()
                    &&& value < final(self).ops@.len()
                    &&& final(self).ops@.len() >= old(self).ops@.len()
                },
                (Err(error), Err(model)) => error@ == model,
                _ => false,
            },
            final(self).context() == old(self).context(),
            id is Err && calls(*expression) is None ==> final(self).state() == old(self).state(),
        decreases *expression, 0int,
    {
        match expression {
            MergeFn::Old => {
                if self.value_schema(self_col) != Some(expected) {
                    return Err(reject(Scope::Bare, "mistyped Old in merge program"));
                }
                Ok(self.push(expected, MergeOpKind::OldCol(self_col)))
            },
            MergeFn::New => {
                if self.value_schema(self_col) != Some(expected) {
                    return Err(reject(Scope::Bare, "mistyped New in merge program"));
                }
                Ok(self.push(expected, MergeOpKind::NewCol(self_col)))
            },
            MergeFn::OldCol(column) => match self.value_schema(*column) {
                None => Err(
                    reject(
                        Scope::Bare,
                        "merge expression references a missing owner value column",
                    ),
                ),
                Some(ty) => {
                    if ty != expected {
                        return Err(reject(Scope::Bare, "mistyped OldCol in merge program"));
                    }
                    Ok(self.push(expected, MergeOpKind::OldCol(*column)))
                },
            },
            MergeFn::NewCol(column) => match self.value_schema(*column) {
                None => Err(
                    reject(
                        Scope::Bare,
                        "merge expression references a missing owner value column",
                    ),
                ),
                Some(ty) => {
                    if ty != expected {
                        return Err(reject(Scope::Bare, "mistyped NewCol in merge program"));
                    }
                    Ok(self.push(expected, MergeOpKind::NewCol(*column)))
                },
            },
            MergeFn::LetVar(slot) => match self.let_value(*slot) {
                None => Err(reject(Scope::Bare, "merge LetVar is unbound")),
                Some((id, ty)) => {
                    if ty != expected {
                        return Err(reject(Scope::Bare, "mistyped LetVar in merge program"));
                    }
                    Ok(id)
                },
            },
            MergeFn::Const { value, ty } => {
                if *ty != expected {
                    return Err(reject(Scope::Bare, "mistyped Const in merge program"));
                }
                let scalar = self.catalog.types.from_column(expected)?;
                let sql = self.catalog.sql_literal(scalar, *value)?;
                Ok(self.push(expected, MergeOpKind::Const { value: *value, sql }))
            },
            MergeFn::AssertEq => {
                if self.value_schema(self_col) != Some(expected) {
                    return Err(reject(Scope::Bare, "mistyped AssertEq in merge program"));
                }
                let old_id: usize = self.push(expected, MergeOpKind::OldCol(self_col));
                let new_id: usize = self.push(expected, MergeOpKind::NewCol(self_col));
                Ok(self.push(expected, MergeOpKind::AssertEq { old: old_id, new: new_id }))
            },
            MergeFn::UnionId => Ok(self.push(expected, MergeOpKind::UnsupportedUnionId)),
            MergeFn::Primitive { id, input, output, args, .. } => self.compile_primitive(
                *id,
                input,
                *output,
                args,
                expected,
                self_col,
            ),
            MergeFn::Function(target, args) => self.compile_function(
                *target,
                args,
                expected,
                self_col,
            ),
            MergeFn::Lookup(target, args) => self.compile_lookup(
                *target,
                args,
                expected,
                self_col,
            ),
            MergeFn::Columns(_) | MergeFn::Block { .. } => Err(
                reject(Scope::Bare, "nested merge aggregate in generic program"),
            ),
        }
    }

    fn compile_action(&mut self, action: &MergeAction) -> (done: Result<(), Rejection>)
        requires
            old(self).ready(),
        ensures
            match (done, action_step(old(self).context(), old(self).state(), *action)) {
                (Ok(_), Ok(state)) => final(self).state() == state && final(self).ready(),
                (Err(error), Err(model)) => error@ == model,
                _ => false,
            },
            final(self).context() == old(self).context(),
    {
        match action {
            MergeAction::Let { slot, value } => {
                if *slot != self.environment.len() {
                    return Err(reject(Scope::Bare, "merge Let slots must be ordered"));
                }
                let expected = self.infer_expr_ty(value, 0)?;
                let id: usize = self.compile_expr(value, expected, 0)?;
                self.bind(*slot, id);
            },
            MergeAction::SetRow(target, arguments) => {
                let schema = self.target_schema(*target)?;
                if arguments.len() != schema.len() {
                    return Err(reject(Scope::Bare, "merge Set arity changed after validation"));
                }
                let row = self.compile_args(arguments, &schema, 0)?;
                self.note_write(*target);
                self.record(MergeProgramAction::SetRow { target: *target, row });
            },
            MergeAction::Union(_, _) => {
                self.record(MergeProgramAction::UnsupportedUnion);
            },
        }
        Ok(())
    }

    fn bind(&mut self, slot: usize, id: usize)
        requires
            old(self).ready(),
            id < old(self).ops@.len(),
        ensures
            final(self).state() == (MergeState {
                environment: old(self).state().environment.push(id),
                actions: old(self).state().actions.push(
                    MergeProgramActionView::Bind { slot, value: id },
                ),
                ..old(self).state()
            }),
            final(self).context() == old(self).context(),
            final(self).ready(),
    {
        reveal(Compiler::ready);
        let ghost before = self.state();
        self.environment.push(id);
        self.actions.push(MergeProgramAction::Bind { slot, value: id });
        proof {
            let bound = MergeProgramActionView::Bind { slot, value: id };
            assert(self.state().actions =~= before.actions.push(bound));
            assert(self.state().actions.drop_last() =~= before.actions);
            assert forall|k: int| 0 <= k < self.state().actions.len() implies uses_below(
                #[trigger] self.state().actions[k],
                self.state().ops.len() as int,
            ) by {
                if k < before.actions.len() {
                    assert(uses_below(before.actions[k], before.ops.len() as int));
                }
            }
        }
    }

    fn record(&mut self, action: MergeProgramAction)
        requires
            old(self).ready(),
            !(action is Bind),
            uses_below(action@, old(self).ops@.len() as int),
        ensures
            final(self).state() == (MergeState {
                actions: old(self).state().actions.push(action@),
                ..old(self).state()
            }),
            final(self).context() == old(self).context(),
            final(self).ready(),
    {
        reveal(Compiler::ready);
        let ghost before = self.state();
        self.actions.push(action);
        proof {
            assert(self.state().actions =~= before.actions.push(action@));
            assert(self.state().actions.drop_last() =~= before.actions);
            assert forall|k: int| 0 <= k < self.state().actions.len() implies uses_below(
                #[trigger] self.state().actions[k],
                self.state().ops.len() as int,
            ) by {
                if k < before.actions.len() {
                    assert(uses_below(before.actions[k], before.ops.len() as int));
                }
            }
        }
    }

    fn compile_actions(&mut self, actions: &Vec<MergeAction>) -> (done: Result<(), Rejection>)
        requires
            old(self).ready(),
        ensures
            match (done, action_steps(old(self).context(), old(self).state(), actions@, 0)) {
                (Ok(_), Ok(state)) => final(self).state() == state && final(self).ready(),
                (Err(error), Err(model)) => error@ == model,
                _ => false,
            },
            final(self).context() == old(self).context(),
    {
        let mut i: usize = 0;
        while i < actions.len()
            invariant
                i <= actions.len(),
                self.ready(),
                self.context() == old(self).context(),
                action_steps(old(self).context(), old(self).state(), actions@, 0) == action_steps(
                    self.context(),
                    self.state(),
                    actions@,
                    i as int,
                ),
            decreases actions.len() - i,
        {
            self.compile_action(&actions[i])?;
            i += 1;
        }
        Ok(())
    }

    fn compile_columns(&mut self, columns: &Vec<MergeFn>) -> (ids: Result<Vec<usize>, Rejection>)
        requires
            old(self).ready(),
            columns@.len() == old(self).context().n_vals,
        ensures
            match (
                ids,
                result_values(
                    old(self).context(),
                    old(self).state(),
                    columns@,
                    0,
                    Seq::empty(),
                ),
            ) {
                (Ok(values), Ok((state, model))) => {
                    &&& values@ == model
                    &&& final(self).state() == state
                    &&& final(self).ready()
                    &&& ids_below(values@, final(self).ops@.len() as int)
                },
                (Err(error), Err(model)) => error@ == model,
                _ => false,
            },
            final(self).context() == old(self).context(),
    {
        let mut ids: Vec<usize> = Vec::new();
        let mut i: usize = 0;
        assert(ids@ =~= Seq::<usize>::empty());
        while i < columns.len()
            invariant
                i <= columns.len(),
                columns@.len() == old(self).context().n_vals,
                self.ready(),
                self.context() == old(self).context(),
                ids_below(ids@, self.ops@.len() as int),
                result_values(
                    old(self).context(),
                    old(self).state(),
                    columns@,
                    0,
                    Seq::empty(),
                ) == result_values(self.context(), self.state(), columns@, i as int, ids@),
            decreases columns.len() - i,
        {
            let ty = self.value_column(i);
            let id: usize = self.compile_expr(&columns[i], ty, i)?;
            ids.push(id);
            i += 1;
        }
        Ok(ids)
    }

    fn value_column(&self, column: usize) -> (ty: ColumnTy)
        requires
            self.ready(),
            column < self.context().n_vals,
        ensures
            ty == self.context().schema[self.context().schema.len() - self.context().n_vals
                + column],
    {
        reveal(Compiler::ready);
        self.config.schema[self.config.schema.len() - self.config.n_vals + column]
    }

    fn compile_result(&mut self, result: &MergeFn) -> (ids: Result<Vec<usize>, Rejection>)
        requires
            old(self).ready(),
        ensures
            match (
                ids,
                result_values(
                    old(self).context(),
                    old(self).state(),
                    result_columns(*result),
                    0,
                    Seq::empty(),
                ),
            ) {
                (Ok(values), Ok((state, model))) => {
                    &&& result_columns(*result).len() == old(self).context().n_vals
                    &&& values@ == model
                    &&& final(self).state() == state
                    &&& final(self).ready()
                    &&& ids_below(values@, final(self).ops@.len() as int)
                },
                (Err(error), model) => if result_columns(*result).len() != old(
                    self,
                ).context().n_vals {
                    error@ == refused("merge result arity changed after validation"@)
                } else {
                    model matches Err(model) && error@ == model
                },
                _ => false,
            },
            final(self).context() == old(self).context(),
    {
        match result {
            MergeFn::Columns(columns) => {
                if columns.len() != self.config.n_vals {
                    return Err(reject(Scope::Bare, "merge result arity changed after validation"));
                }
                self.compile_columns(columns)
            },
            _ => {
                if self.config.n_vals != 1 {
                    return Err(reject(Scope::Bare, "merge result arity changed after validation"));
                }
                proof {
                    reveal_with_fuel(result_values, 2);
                }
                let ty = self.value_column(0);
                let id: usize = self.compile_expr(result, ty, 0)?;
                let mut ids: Vec<usize> = Vec::new();
                ids.push(id);
                assert(ids@ =~= Seq::<usize>::empty().push(id));
                Ok(ids)
            },
        }
    }

    fn level_below(&self) -> (level: usize)
        ensures
            level == read_level(
                self.context(),
                self.state().read_deps,
                self.context().catalog.tables@.len(),
            ),
    {
        let mut level: usize = 0;
        let mut i: usize = 0;
        while i < self.catalog.tables.len()
            invariant
                i <= self.catalog.tables.len(),
                level == read_level(self.context(), self.state().read_deps, i as nat),
            decreases self.catalog.tables.len() - i,
        {
            let candidate: usize = self.catalog.tables[i].merge_program.dependency_level;
            if self.read_deps.contains(&(i as u32)) && i as u32 != self.owner.rep && candidate
                > level {
                level = candidate;
            }
            i += 1;
        }
        level
    }
}

/// Compiles the merge of a table. `owner` is the id that the table has or will
/// get; without `authorities` every primitive stays unauthenticated.
pub fn compile_merge_program(
    catalog: &Catalog,
    owner: FunctionId,
    config: &FunctionConfig,
    authorities: Option<&AuthorityRegistries>,
) -> (program: Result<MergeProgram, Rejection>)
    requires
        catalog.well_formed(),
        config.n_vals <= config.schema@.len(),
    ensures
        agrees(
            program,
            program_of(
                table_context(
                    *catalog,
                    owner,
                    *config,
                    match authorities {
                        Some(registries) => Some(*registries),
                        None => None,
                    },
                ),
                config.merge,
                config.n_identity_vals,
            ),
        ),
        program is Ok ==> program->Ok_0@.ordered(),
        program is Ok ==> forall|id: u32| #[trigger]
            program->Ok_0.read_deps@.contains(id) ==> id == owner.rep || id < catalog.tables@.len(),
        program is Ok ==> forall|id: u32| #[trigger]
            program->Ok_0.write_targets@.contains(id) ==> id == owner.rep || id
                < catalog.tables@.len(),
{
    let mut compiler = Compiler {
        catalog,
        owner,
        config,
        authorities,
        ops: Vec::new(),
        actions: Vec::new(),
        environment: Vec::new(),
        read_deps: BTreeSet::new(),
        write_targets: BTreeSet::new(),
        required_authorities: BTreeMap::new(),
    };
    proof {
        assert(compiler.state().ops =~= Seq::<MergeOpView>::empty());
        assert(compiler.state().actions =~= Seq::<MergeProgramActionView>::empty());
        assert(compiler.state().environment =~= Seq::<usize>::empty());
        assert(compiler.state() == empty_state());
        reveal(Compiler::ready);
    }
    let results = match &config.merge {
        MergeFn::Block { actions, result } => {
            compiler.compile_actions(actions)?;
            compiler.compile_result(result)?
        },
        result => compiler.compile_result(result)?,
    };
    let below: usize = compiler.level_below();
    if below == usize::MAX {
        return Err(reject(Scope::Bare, "generic merge dependency level overflow"));
    }
    reveal(Compiler::ready);
    Ok(
        MergeProgram {
            owner,
            n_keys: config.schema.len() - config.n_vals,
            n_vals: config.n_vals,
            n_identity_vals: config.n_identity_vals,
            dependency_level: below + 1,
            ops: compiler.ops,
            actions: compiler.actions,
            results,
            read_deps: compiler.read_deps,
            write_targets: compiler.write_targets,
            required_authorities: compiler.required_authorities,
        },
    )
}

impl MergeProgram {
    fn any_op(&self, kind: OpQuery) -> (found: bool)
        ensures
            found == exists|i: int|
                0 <= i < self@.ops.len() && op_answers(#[trigger] self@.ops[i], kind),
    {
        let mut i: usize = 0;
        while i < self.ops.len()
            invariant
                i <= self.ops.len(),
                forall|j: int| 0 <= j < i ==> !op_answers(#[trigger] self@.ops[j], kind),
            decreases self.ops.len() - i,
        {
            let found = match (&self.ops[i].kind, kind) {
                (MergeOpKind::Function { .. }, OpQuery::ReadsTable) => true,
                (MergeOpKind::Lookup { .. }, OpQuery::ReadsTable) => true,
                (
                    MergeOpKind::Primitive { primitive: MergePrimitive::Fd { .. }, .. },
                    OpQuery::UsesFd,
                ) => true,
                (MergeOpKind::UnsupportedUnionId, OpQuery::UnionId) => true,
                _ => false,
            };
            assert(self@.ops[i as int] == self.ops@[i as int]@);
            if found {
                assert(op_answers(self@.ops[i as int], kind));
                return true;
            }
            i += 1;
        }
        false
    }

    fn any_union(&self) -> (found: bool)
        ensures
            found == exists|i: int|
                0 <= i < self@.actions.len() && #[trigger] self@.actions[i] is UnsupportedUnion,
    {
        let mut i: usize = 0;
        while i < self.actions.len()
            invariant
                i <= self.actions.len(),
                forall|j: int| 0 <= j < i ==> !(#[trigger] self@.actions[j] is UnsupportedUnion),
            decreases self.actions.len() - i,
        {
            assert(self@.actions[i as int] == self.actions@[i as int]@);
            match &self.actions[i] {
                MergeProgramAction::UnsupportedUnion => {
                    return true;
                },
                _ => {},
            }
            i += 1;
        }
        false
    }

    /// Checks that the generic executor can run the program of the table with
    /// the given name.
    pub fn ensure_proof_supported(&self, name: &str) -> (checked: Result<(), Rejection>)
        ensures
            same_outcome(checked, supported(self@, name@)),
    {
        proof {
            assert forall|i: int| 0 <= i < self@.ops.len() implies {
                &&& op_answers(#[trigger] self@.ops[i], OpQuery::ReadsTable) == reads_table(
                    self@.ops[i],
                )
                &&& op_answers(self@.ops[i], OpQuery::UsesFd) == uses_fd(self@.ops[i])
                &&& op_answers(self@.ops[i], OpQuery::UnionId)
                    == self@.ops[i].kind is UnsupportedUnionId
            } by {}
        }
        if self.any_op(OpQuery::ReadsTable) {
            let mut text = "DuckDB checkpoint-0 generic merge for `".to_owned();
            text.append(name);
            text.append("` does not support Function or Lookup operations");
            return Err(reject_with(Scope::Bare, text));
        }
        if self.any_op(OpQuery::UsesFd) {
            let mut text = "DuckDB checkpoint-0 generic merge for `".to_owned();
            text.append(name);
            text.append("` does not support FD operations");
            return Err(reject_with(Scope::Bare, text));
        }
        if self.any_op(OpQuery::UnionId) {
            let mut text = "DuckDB generic merge for `".to_owned();
            text.append(name);
            text.append("` does not support MergeFn::UnionId");
            return Err(reject_with(Scope::Bare, text));
        }
        if self.any_union() {
            let mut text = "DuckDB generic merge for `".to_owned();
            text.append(name);
            text.append("` does not support MergeAction::Union");
            return Err(reject_with(Scope::Bare, text));
        }
        Ok(())
    }
}

/// A question about one operation.
#[derive(Clone, Copy)]
enum OpQuery {
    ReadsTable,
    UsesFd,
    UnionId,
}

spec fn op_answers(op: MergeOpView, query: OpQuery) -> bool {
    match query {
        OpQuery::ReadsTable => reads_table(op),
        OpQuery::UsesFd => uses_fd(op),
        OpQuery::UnionId => op.kind is UnsupportedUnionId,
    }
}

} // verus!
