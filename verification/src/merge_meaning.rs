//! What merges mean. A merge expression is evaluated over the old and the new
//! row of its owner, and a merge program over the same rows, operation by
//! operation; the program of a merge gives what the merge gives.

use vstd::prelude::*;

#[allow(unused_imports)]
use crate::catalog::{typed_literal, Catalog};
#[allow(unused_imports)]
use crate::ir::{ColumnTy, ExternalFunctionId, FunctionId, MergeAction, MergeFn, Value};
#[allow(unused_imports)]
use crate::merge_laws::{
    adds_ops, lemma_args_typed, lemma_expr_typed, lemma_results_typed, lemma_step_typed,
    slots_bound, value_typed,
};
#[allow(unused_imports)]
use crate::merge_program::{
    action_step, action_steps, arg_values, empty_state, expr_ty, expr_value, ids_below,
    merge_result, merge_steps, program_of, result_columns, result_values, target_columns,
    MergeContext, MergeOpKindView, MergeOpView, MergePrimitiveView, MergeProgramActionView,
    MergeProgramView, MergeState,
};
#[allow(unused_imports)]
use crate::rejection::RejectionView;

verus! {

/// What stands around a merge: the meaning of constants, of SQL texts, of
/// primitives and of other tables. Calls are numbered, because two calls with
/// the same arguments may give different values.
pub struct MergeWorld {
    pub constant: spec_fn(ColumnTy, Value) -> int,
    pub text: spec_fn(Seq<char>) -> int,
    pub same: spec_fn(int, int) -> int,
    pub union_id: int,
    pub primitive: spec_fn(ExternalFunctionId, Seq<int>, nat) -> int,
    pub function: spec_fn(FunctionId, Seq<int>, nat) -> int,
    pub lookup: spec_fn(FunctionId, Seq<int>, nat) -> int,
}

/// The SQL texts of the catalog's literals mean the literals.
pub open spec fn texts_faithful(world: MergeWorld, catalog: Catalog) -> bool {
    forall|ty: ColumnTy, value: Value|
        (#[trigger] typed_literal(catalog, ty, value)) matches Ok((_, sql)) ==> (world.text)(sql)
            == (world.constant)(ty, value)
}

// ---------------------------------------------------------------------------
// Merge expressions.

/// The value of a merge expression for one value column, and the number of calls
/// made by then. Arguments are evaluated first, from left to right.
pub open spec fn merge_value(
    world: MergeWorld,
    expression: MergeFn,
    column: usize,
    old_row: Seq<int>,
    new_row: Seq<int>,
    lets: Seq<int>,
    calls: nat,
) -> (int, nat)
    decreases expression, 0int,
{
    match expression {
        MergeFn::Old => (old_row[column as int], calls),
        MergeFn::New => (new_row[column as int], calls),
        MergeFn::OldCol(other) => (old_row[other as int], calls),
        MergeFn::NewCol(other) => (new_row[other as int], calls),
        MergeFn::LetVar(slot) => (lets[slot as int], calls),
        MergeFn::Const { value, ty } => ((world.constant)(ty, value), calls),
        MergeFn::AssertEq => (
            (world.same)(old_row[column as int], new_row[column as int]),
            calls,
        ),
        MergeFn::UnionId => (world.union_id, calls),
        MergeFn::Primitive { id, args, .. } => {
            let (values, made) = merge_values(
                world,
                args@,
                0,
                column,
                old_row,
                new_row,
                lets,
                calls,
            );
            ((world.primitive)(id, values, made), made + 1)
        },
        MergeFn::Function(target, args) => {
            let (values, made) = merge_values(
                world,
                args@,
                0,
                column,
                old_row,
                new_row,
                lets,
                calls,
            );
            ((world.function)(target, values, made), made + 1)
        },
        MergeFn::Lookup(target, args) => {
            let (values, made) = merge_values(
                world,
                args@,
                0,
                column,
                old_row,
                new_row,
                lets,
                calls,
            );
            ((world.lookup)(target, values, made), made + 1)
        },
        MergeFn::Columns(_) | MergeFn::Block { .. } => (0, calls),
    }
}

/// The values of expressions from position `from` on, in order.
pub open spec fn merge_values(
    world: MergeWorld,
    expressions: Seq<MergeFn>,
    from: int,
    column: usize,
    old_row: Seq<int>,
    new_row: Seq<int>,
    lets: Seq<int>,
    calls: nat,
) -> (Seq<int>, nat)
    decreases expressions, expressions.len() - from,
{
    if from < 0 || from >= expressions.len() {
        (Seq::empty(), calls)
    } else {
        let (value, made) = merge_value(
            world,
            expressions[from],
            column,
            old_row,
            new_row,
            lets,
            calls,
        );
        let (rest, all) = merge_values(
            world,
            expressions,
            from + 1,
            column,
            old_row,
            new_row,
            lets,
            made,
        );
        (seq![value] + rest, all)
    }
}

/// What a merge does: the rows it writes, in order, and the merged value columns.
pub struct MergeOutcome {
    pub writes: Seq<(FunctionId, Seq<int>)>,
    pub values: Seq<int>,
}

/// How far a merge has come: its bound slots, its writes, its calls.
pub struct MergeProgress {
    pub lets: Seq<int>,
    pub writes: Seq<(FunctionId, Seq<int>)>,
    pub calls: nat,
}

/// One step of a merge block.
pub open spec fn merge_step_meaning(
    world: MergeWorld,
    step: MergeAction,
    old_row: Seq<int>,
    new_row: Seq<int>,
    before: MergeProgress,
) -> MergeProgress {
    match step {
        MergeAction::Let { value, .. } => {
            let (result, calls) = merge_value(
                world,
                value,
                0,
                old_row,
                new_row,
                before.lets,
                before.calls,
            );
            MergeProgress { lets: before.lets.push(result), calls, ..before }
        },
        MergeAction::SetRow(target, arguments) => {
            let (row, calls) = merge_values(
                world,
                arguments@,
                0,
                0,
                old_row,
                new_row,
                before.lets,
                before.calls,
            );
            MergeProgress { writes: before.writes.push((target, row)), calls, ..before }
        },
        MergeAction::Union(_, _) => before,
    }
}

/// The steps of a merge block from `from` on, in order.
pub open spec fn merge_steps_meaning(
    world: MergeWorld,
    steps: Seq<MergeAction>,
    from: int,
    old_row: Seq<int>,
    new_row: Seq<int>,
    before: MergeProgress,
) -> MergeProgress
    decreases steps.len() - from,
{
    if from < 0 || from >= steps.len() {
        before
    } else {
        merge_steps_meaning(
            world,
            steps,
            from + 1,
            old_row,
            new_row,
            merge_step_meaning(world, steps[from], old_row, new_row, before),
        )
    }
}

/// The values of the merged columns from `from` on: each expression is evaluated
/// for its own column.
pub open spec fn merge_columns_meaning(
    world: MergeWorld,
    columns: Seq<MergeFn>,
    from: int,
    old_row: Seq<int>,
    new_row: Seq<int>,
    lets: Seq<int>,
    calls: nat,
) -> Seq<int>
    decreases columns.len() - from,
{
    if from < 0 || from >= columns.len() {
        Seq::empty()
    } else {
        let (value, made) = merge_value(
            world,
            columns[from],
            from as usize,
            old_row,
            new_row,
            lets,
            calls,
        );
        seq![value] + merge_columns_meaning(
            world,
            columns,
            from + 1,
            old_row,
            new_row,
            lets,
            made,
        )
    }
}

/// What a merge does to an old and a new row.
pub open spec fn merge_meaning(
    world: MergeWorld,
    merge: MergeFn,
    old_row: Seq<int>,
    new_row: Seq<int>,
) -> MergeOutcome {
    let start = MergeProgress { lets: Seq::empty(), writes: Seq::empty(), calls: 0 };
    let (steps, result) = match merge {
        MergeFn::Block { actions, result } => (actions@, *result),
        _ => (Seq::empty(), merge),
    };
    let columns = match result {
        MergeFn::Columns(columns) => columns@,
        _ => seq![result],
    };
    let stepped = merge_steps_meaning(world, steps, 0, old_row, new_row, start);
    MergeOutcome {
        writes: stepped.writes,
        values: merge_columns_meaning(
            world,
            columns,
            0,
            old_row,
            new_row,
            stepped.lets,
            stepped.calls,
        ),
    }
}

// ---------------------------------------------------------------------------
// Merge programs.

/// An operation that calls a primitive or another table.
pub open spec fn is_call(op: MergeOpView) -> bool {
    op.kind is Primitive || op.kind is Function || op.kind is Lookup
}

/// The number of calls among operations.
pub open spec fn call_count(ops: Seq<MergeOpView>) -> nat
    decreases ops.len(),
{
    if ops.len() == 0 {
        0
    } else {
        call_count(ops.drop_last()) + (if is_call(ops.last()) {
            1nat
        } else {
            0nat
        })
    }
}

/// The token of a primitive operation.
pub open spec fn primitive_token(primitive: MergePrimitiveView) -> ExternalFunctionId {
    match primitive {
        MergePrimitiveView::Fresh { token } => token,
        MergePrimitiveView::Fd { token, .. } => token,
        MergePrimitiveView::Scalar(expression) => expression.token,
        MergePrimitiveView::Unauthenticated { token } => token,
    }
}

/// The values with the given ids.
pub open spec fn picked(values: Seq<int>, ids: Seq<usize>) -> Seq<int> {
    Seq::new(ids.len(), |i: int| values[ids[i] as int])
}

/// The value of one operation, over the values of the earlier ones.
pub open spec fn op_meaning(
    world: MergeWorld,
    op: MergeOpView,
    values: Seq<int>,
    calls: nat,
    old_row: Seq<int>,
    new_row: Seq<int>,
) -> int {
    match op.kind {
        MergeOpKindView::OldCol(column) => old_row[column as int],
        MergeOpKindView::NewCol(column) => new_row[column as int],
        MergeOpKindView::Const { sql, .. } => (world.text)(sql),
        MergeOpKindView::AssertEq { old: left, new: right } => (world.same)(
            values[left as int],
            values[right as int],
        ),
        MergeOpKindView::Primitive { primitive, arguments } => (world.primitive)(
            primitive_token(primitive),
            picked(values, arguments),
            calls,
        ),
        MergeOpKindView::Function { target, arguments } => (world.function)(
            target,
            picked(values, arguments),
            calls,
        ),
        MergeOpKindView::Lookup { target, arguments } => (world.lookup)(
            target,
            picked(values, arguments),
            calls,
        ),
        MergeOpKindView::UnsupportedUnionId => world.union_id,
    }
}

/// The values of operations, evaluated in order.
pub open spec fn op_values(
    world: MergeWorld,
    ops: Seq<MergeOpView>,
    old_row: Seq<int>,
    new_row: Seq<int>,
) -> Seq<int>
    decreases ops.len(),
{
    if ops.len() == 0 {
        Seq::empty()
    } else {
        let earlier = op_values(world, ops.drop_last(), old_row, new_row);
        earlier.push(
            op_meaning(
                world,
                ops.last(),
                earlier,
                call_count(ops.drop_last()),
                old_row,
                new_row,
            ),
        )
    }
}

/// The rows that the effects of a program write, in order.
pub open spec fn program_writes(
    actions: Seq<MergeProgramActionView>,
    values: Seq<int>,
) -> Seq<(FunctionId, Seq<int>)>
    decreases actions.len(),
{
    if actions.len() == 0 {
        Seq::empty()
    } else {
        let earlier = program_writes(actions.drop_last(), values);
        match actions.last() {
            MergeProgramActionView::SetRow { target, row } => earlier.push(
                (target, picked(values, row)),
            ),
            _ => earlier,
        }
    }
}

/// What a program does to an old and a new row.
pub open spec fn program_meaning(
    world: MergeWorld,
    program: MergeProgramView,
    old_row: Seq<int>,
    new_row: Seq<int>,
) -> MergeOutcome {
    let values = op_values(world, program.ops, old_row, new_row);
    MergeOutcome {
        writes: program_writes(program.actions, values),
        values: picked(values, program.results),
    }
}

// ---------------------------------------------------------------------------
// They agree.

proof fn lemma_values_length(
    world: MergeWorld,
    ops: Seq<MergeOpView>,
    old_row: Seq<int>,
    new_row: Seq<int>,
)
    ensures
        op_values(world, ops, old_row, new_row).len() == ops.len(),
    decreases ops.len(),
{
    if ops.len() > 0 {
        lemma_values_length(world, ops.drop_last(), old_row, new_row);
    }
}

/// Adding operations leaves the values of the earlier ones.
proof fn lemma_values_stay(
    world: MergeWorld,
    before: Seq<MergeOpView>,
    after: Seq<MergeOpView>,
    old_row: Seq<int>,
    new_row: Seq<int>,
)
    requires
        before.len() <= after.len(),
        forall|k: int| 0 <= k < before.len() ==> #[trigger] after[k] == before[k],
    ensures
        op_values(world, after, old_row, new_row).len() == after.len(),
        forall|k: int|
            0 <= k < before.len() ==> #[trigger] op_values(world, after, old_row, new_row)[k]
                == op_values(world, before, old_row, new_row)[k],
    decreases after.len(),
{
    lemma_values_length(world, after, old_row, new_row);
    lemma_values_length(world, before, old_row, new_row);
    if before.len() == after.len() {
        assert(before =~= after);
    } else {
        let shorter = after.drop_last();
        lemma_values_stay(world, before, shorter, old_row, new_row);
    }
}

/// The slots hold the values that the bound ids have.
pub open spec fn slots_hold(
    world: MergeWorld,
    state: MergeState,
    old_row: Seq<int>,
    new_row: Seq<int>,
    lets: Seq<int>,
) -> bool {
    &&& slots_bound(state)
    &&& lets == picked(op_values(world, state.ops, old_row, new_row), state.environment)
}

proof fn lemma_slots_stay(
    world: MergeWorld,
    before: MergeState,
    after: MergeState,
    old_row: Seq<int>,
    new_row: Seq<int>,
    lets: Seq<int>,
)
    requires
        adds_ops(before, after),
        slots_hold(world, before, old_row, new_row, lets),
    ensures
        slots_hold(world, after, old_row, new_row, lets),
{
    lemma_values_stay(world, before.ops, after.ops, old_row, new_row);
    assert(lets =~= picked(op_values(world, after.ops, old_row, new_row), after.environment));
}

/// A pushed operation has its own meaning over the values before it.
proof fn lemma_pushed(
    world: MergeWorld,
    ops: Seq<MergeOpView>,
    op: MergeOpView,
    old_row: Seq<int>,
    new_row: Seq<int>,
)
    ensures
        op_values(world, ops.push(op), old_row, new_row) == op_values(
            world,
            ops,
            old_row,
            new_row,
        ).push(
            op_meaning(
                world,
                op,
                op_values(world, ops, old_row, new_row),
                call_count(ops),
                old_row,
                new_row,
            ),
        ),
        op_values(world, ops, old_row, new_row).len() == ops.len(),
        call_count(ops.push(op)) == call_count(ops) + (if is_call(op) {
            1nat
        } else {
            0nat
        }),
{
    assert(ops.push(op).drop_last() =~= ops);
    lemma_values_length(world, ops, old_row, new_row);
}

proof fn lemma_expr_means(
    context: MergeContext,
    world: MergeWorld,
    state: MergeState,
    expression: MergeFn,
    expected: ColumnTy,
    column: usize,
    old_row: Seq<int>,
    new_row: Seq<int>,
    lets: Seq<int>,
)
    requires
        texts_faithful(world, context.catalog),
        slots_hold(world, state, old_row, new_row, lets),
    ensures
        expr_value(context, state, expression, expected, column) matches Ok((after, id)) ==> (
        after.ops.len() <= usize::MAX ==> ({
            let (value, calls) = merge_value(
                world,
                expression,
                column,
                old_row,
                new_row,
                lets,
                call_count(state.ops),
            );
            &&& op_values(world, after.ops, old_row, new_row)[id as int] == value
            &&& call_count(after.ops) == calls
        })),
    decreases expression, 0int,
{
    lemma_expr_typed(context, state, expression, expected, column);
    match expr_value(context, state, expression, expected, column) {
        Ok((after, id)) => {
            if after.ops.len() <= usize::MAX {
                match expression {
                    MergeFn::LetVar(_) => {
                        lemma_values_length(world, state.ops, old_row, new_row);
                    },
                    MergeFn::AssertEq => {
                        let left = MergeOpView {
                            ty: expected,
                            kind: MergeOpKindView::OldCol(column),
                        };
                        let right = MergeOpView {
                            ty: expected,
                            kind: MergeOpKindView::NewCol(column),
                        };
                        lemma_pushed(world, state.ops, left, old_row, new_row);
                        lemma_pushed(world, state.ops.push(left), right, old_row, new_row);
                        lemma_pushed(
                            world,
                            state.ops.push(left).push(right),
                            after.ops.last(),
                            old_row,
                            new_row,
                        );
                    },
                    MergeFn::Primitive { input, args, .. } => {
                        let before = arg_values(
                            context,
                            state,
                            args@,
                            input@,
                            column,
                            0,
                            Seq::empty(),
                        )->Ok_0.0;
                        assert(after.ops.drop_last() =~= before.ops);
                        lemma_call_means(
                            context,
                            world,
                            state,
                            args@,
                            input@,
                            column,
                            old_row,
                            new_row,
                            lets,
                            after,
                        );
                    },
                    MergeFn::Function(target, args) => {
                        let columns = target_columns(context, target)->Ok_0;
                        let before = arg_values(
                            context,
                            state,
                            args@,
                            columns,
                            column,
                            0,
                            Seq::empty(),
                        )->Ok_0.0;
                        assert(after.ops.drop_last() =~= before.ops);
                        lemma_call_means(
                            context,
                            world,
                            state,
                            args@,
                            columns,
                            column,
                            old_row,
                            new_row,
                            lets,
                            after,
                        );
                    },
                    MergeFn::Lookup(target, args) => {
                        let columns = target_columns(context, target)->Ok_0;
                        let before = arg_values(
                            context,
                            state,
                            args@,
                            columns,
                            column,
                            0,
                            Seq::empty(),
                        )->Ok_0.0;
                        assert(after.ops.drop_last() =~= before.ops);
                        lemma_call_means(
                            context,
                            world,
                            state,
                            args@,
                            columns,
                            column,
                            old_row,
                            new_row,
                            lets,
                            after,
                        );
                    },
                    _ => {
                        lemma_pushed(world, state.ops, after.ops.last(), old_row, new_row);
                    },
                }
            }
        },
        Err(_) => {},
    }
}

/// The last operation of a call has the values of the arguments.
proof fn lemma_call_means(
    context: MergeContext,
    world: MergeWorld,
    state: MergeState,
    args: Seq<MergeFn>,
    tys: Seq<ColumnTy>,
    column: usize,
    old_row: Seq<int>,
    new_row: Seq<int>,
    lets: Seq<int>,
    after: MergeState,
)
    requires
        texts_faithful(world, context.catalog),
        slots_hold(world, state, old_row, new_row, lets),
        arg_values(context, state, args, tys, column, 0, Seq::empty()) is Ok,
        after.ops.len() > 0,
        after.ops.len() <= usize::MAX,
        after.ops.drop_last() == arg_values(
            context,
            state,
            args,
            tys,
            column,
            0,
            Seq::empty(),
        )->Ok_0.0.ops,
    ensures
        ({
            let (before, ids) = arg_values(
                context,
                state,
                args,
                tys,
                column,
                0,
                Seq::empty(),
            )->Ok_0;
            let (values, calls) = merge_values(
                world,
                args,
                0,
                column,
                old_row,
                new_row,
                lets,
                call_count(state.ops),
            );
            &&& picked(op_values(world, before.ops, old_row, new_row), ids) == values
            &&& call_count(before.ops) == calls
            &&& op_values(world, after.ops, old_row, new_row).last() == op_meaning(
                world,
                after.ops.last(),
                op_values(world, before.ops, old_row, new_row),
                calls,
                old_row,
                new_row,
            )
            &&& op_values(world, after.ops, old_row, new_row).len() == after.ops.len()
            &&& call_count(after.ops) == calls + (if is_call(after.ops.last()) {
                1nat
            } else {
                0nat
            })
        }),
    decreases args, args.len() + 1,
{
    lemma_args_mean(
        context,
        world,
        state,
        args,
        tys,
        column,
        0,
        Seq::empty(),
        old_row,
        new_row,
        lets,
    );
    let (before, ids) = arg_values(context, state, args, tys, column, 0, Seq::empty())->Ok_0;
    assert(after.ops =~= before.ops.push(after.ops.last()));
    lemma_pushed(world, before.ops, after.ops.last(), old_row, new_row);
    assert(ids.skip(0) =~= ids);
}

proof fn lemma_args_mean(
    context: MergeContext,
    world: MergeWorld,
    state: MergeState,
    args: Seq<MergeFn>,
    tys: Seq<ColumnTy>,
    column: usize,
    from: int,
    done: Seq<usize>,
    old_row: Seq<int>,
    new_row: Seq<int>,
    lets: Seq<int>,
)
    requires
        texts_faithful(world, context.catalog),
        slots_hold(world, state, old_row, new_row, lets),
        0 <= from <= args.len(),
        done.len() == from,
    ensures
        arg_values(context, state, args, tys, column, from, done) matches Ok((after, ids)) ==> (
        after.ops.len() <= usize::MAX ==> ({
            let (values, calls) = merge_values(
                world,
                args,
                from,
                column,
                old_row,
                new_row,
                lets,
                call_count(state.ops),
            );
            &&& ids.len() == args.len()
            &&& ids.take(from) == done
            &&& picked(op_values(world, after.ops, old_row, new_row), ids.skip(from)) == values
            &&& call_count(after.ops) == calls
        })),
    decreases args, args.len() - from,
{
    lemma_args_typed(context, state, args, tys, column, from, done);
    if from < args.len() {
        lemma_expr_means(
            context,
            world,
            state,
            args[from],
            tys[from],
            column,
            old_row,
            new_row,
            lets,
        );
        lemma_expr_typed(context, state, args[from], tys[from], column);
        match expr_value(context, state, args[from], tys[from], column) {
            Ok((next, id)) => {
                let more = done.push(id);
                lemma_slots_stay(world, state, next, old_row, new_row, lets);
                lemma_args_typed(context, next, args, tys, column, from + 1, more);
                lemma_args_mean(
                    context,
                    world,
                    next,
                    args,
                    tys,
                    column,
                    from + 1,
                    more,
                    old_row,
                    new_row,
                    lets,
                );
                match arg_values(context, next, args, tys, column, from + 1, more) {
                    Ok((after, ids)) => {
                        if after.ops.len() <= usize::MAX {
                            lemma_values_stay(world, next.ops, after.ops, old_row, new_row);
                            let values = op_values(world, after.ops, old_row, new_row);
                            assert(ids.take(from + 1)[from] == id);
                            assert(ids[from] == id);
                            assert(ids.take(from) =~= done) by {
                                assert(ids.take(from) =~= ids.take(from + 1).take(from));
                                assert(more.take(from) =~= done);
                            }
                            assert(ids.skip(from) =~= seq![id] + ids.skip(from + 1));
                            assert(picked(values, ids.skip(from)) =~= seq![values[id as int]]
                                + picked(values, ids.skip(from + 1)));
                        }
                    },
                    Err(_) => {},
                }
            },
            Err(_) => {},
        }
    } else {
        assert(done.take(from) =~= done);
        assert(picked(op_values(world, state.ops, old_row, new_row), done.skip(from))
            =~= Seq::<int>::empty());
    }
}

/// A partly compiled merge has done what the steps so far mean.
pub open spec fn state_means(
    world: MergeWorld,
    state: MergeState,
    old_row: Seq<int>,
    new_row: Seq<int>,
    progress: MergeProgress,
) -> bool {
    &&& slots_hold(world, state, old_row, new_row, progress.lets)
    &&& effects_within(state.actions, state.ops.len())
    &&& program_writes(state.actions, op_values(world, state.ops, old_row, new_row))
        == progress.writes
    &&& call_count(state.ops) == progress.calls
}

/// Every row that is written consists of values that are there.
pub open spec fn effects_within(actions: Seq<MergeProgramActionView>, count: nat) -> bool {
    forall|k: int|
        0 <= k < actions.len() ==> (#[trigger] actions[k] matches MergeProgramActionView::SetRow {
            row,
            ..
        } ==> ids_below(row, count as int))
}

proof fn lemma_writes_stay(
    actions: Seq<MergeProgramActionView>,
    before: Seq<int>,
    after: Seq<int>,
)
    requires
        effects_within(actions, before.len()),
        before.len() <= after.len(),
        forall|k: int| 0 <= k < before.len() ==> #[trigger] after[k] == before[k],
    ensures
        program_writes(actions, after) == program_writes(actions, before),
    decreases actions.len(),
{
    if actions.len() > 0 {
        let earlier = actions.drop_last();
        assert forall|k: int| 0 <= k < earlier.len() implies (
        #[trigger] earlier[k] matches MergeProgramActionView::SetRow { row, .. } ==> ids_below(
            row,
            before.len() as int,
        )) by {
            assert(earlier[k] == actions[k]);
        }
        lemma_writes_stay(earlier, before, after);
        match actions.last() {
            MergeProgramActionView::SetRow { row, .. } => {
                assert(actions[actions.len() - 1] == actions.last());
                assert(picked(after, row) =~= picked(before, row));
            },
            _ => {},
        }
    }
}

/// Adding operations leaves what a merge has done.
proof fn lemma_progress_stays(
    world: MergeWorld,
    before: MergeState,
    after: MergeState,
    old_row: Seq<int>,
    new_row: Seq<int>,
    progress: MergeProgress,
)
    requires
        adds_ops(before, after),
        state_means(world, before, old_row, new_row, progress),
    ensures
        slots_hold(world, after, old_row, new_row, progress.lets),
        effects_within(after.actions, after.ops.len()),
        program_writes(after.actions, op_values(world, after.ops, old_row, new_row))
            == progress.writes,
{
    lemma_values_stay(world, before.ops, after.ops, old_row, new_row);
    lemma_values_length(world, before.ops, old_row, new_row);
    lemma_slots_stay(world, before, after, old_row, new_row, progress.lets);
    lemma_writes_stay(
        before.actions,
        op_values(world, before.ops, old_row, new_row),
        op_values(world, after.ops, old_row, new_row),
    );
    assert forall|k: int| 0 <= k < after.actions.len() implies (
    #[trigger] after.actions[k] matches MergeProgramActionView::SetRow { row, .. } ==> ids_below(
        row,
        after.ops.len() as int,
    )) by {
        assert(before.actions[k] == after.actions[k]);
    }
}

proof fn lemma_step_means(
    context: MergeContext,
    world: MergeWorld,
    state: MergeState,
    step: MergeAction,
    old_row: Seq<int>,
    new_row: Seq<int>,
    progress: MergeProgress,
)
    requires
        texts_faithful(world, context.catalog),
        state_means(world, state, old_row, new_row, progress),
    ensures
        action_step(context, state, step) matches Ok(after) ==> {
            &&& state.ops.len() <= after.ops.len()
            &&& after.ops.len() <= usize::MAX ==> state_means(
                world,
                after,
                old_row,
                new_row,
                merge_step_meaning(world, step, old_row, new_row, progress),
            )
        },
{
    match step {
        MergeAction::Let { value, .. } => match expr_ty(context, state, value, 0) {
            Ok(expected) => {
                lemma_expr_typed(context, state, value, expected, 0);
                lemma_expr_means(
                    context,
                    world,
                    state,
                    value,
                    expected,
                    0,
                    old_row,
                    new_row,
                    progress.lets,
                );
                match (action_step(context, state, step), expr_value(context, state, value, expected, 0)) {
                    (Ok(after), Ok((next, id))) => {
                        if after.ops.len() <= usize::MAX {
                            lemma_progress_stays(world, state, next, old_row, new_row, progress);
                            let values = op_values(world, next.ops, old_row, new_row);
                            lemma_values_length(world, next.ops, old_row, new_row);
                            assert(picked(values, next.environment.push(id)) =~= picked(
                                values,
                                next.environment,
                            ).push(values[id as int]));
                            assert(after.actions.drop_last() =~= next.actions);
                            assert forall|k: int| 0 <= k < after.actions.len() implies (
                            #[trigger] after.actions[k] matches MergeProgramActionView::SetRow {
                                row,
                                ..
                            } ==> ids_below(row, after.ops.len() as int)) by {
                                if k < next.actions.len() {
                                    assert(after.actions[k] == next.actions[k]);
                                }
                            }
                        }
                    },
                    _ => {},
                }
            },
            Err(_) => {},
        },
        MergeAction::SetRow(target, arguments) => match target_columns(context, target) {
            Ok(columns) => {
                let args = arguments@;
                lemma_args_typed(context, state, args, columns, 0, 0, Seq::empty());
                lemma_args_mean(
                    context,
                    world,
                    state,
                    args,
                    columns,
                    0,
                    0,
                    Seq::empty(),
                    old_row,
                    new_row,
                    progress.lets,
                );
                match (
                    action_step(context, state, step),
                    arg_values(context, state, args, columns, 0, 0, Seq::empty()),
                ) {
                    (Ok(after), Ok((next, row))) => {
                        if after.ops.len() <= usize::MAX {
                            lemma_progress_stays(world, state, next, old_row, new_row, progress);
                            assert(row.skip(0) =~= row);
                            assert(after.actions.drop_last() =~= next.actions);
                            assert forall|j: int| 0 <= j < row.len() implies #[trigger] row[j]
                                < next.ops.len() by {
                                assert(value_typed(next.ops, row[j], columns[j]));
                            }
                            assert forall|k: int| 0 <= k < after.actions.len() implies (
                            #[trigger] after.actions[k] matches MergeProgramActionView::SetRow {
                                row,
                                ..
                            } ==> ids_below(row, after.ops.len() as int)) by {
                                if k < next.actions.len() {
                                    assert(after.actions[k] == next.actions[k]);
                                }
                            }
                        }
                    },
                    _ => {},
                }
            },
            Err(_) => {},
        },
        MergeAction::Union(_, _) => {
            match action_step(context, state, step) {
                Ok(after) => {
                    assert(after.actions.drop_last() =~= state.actions);
                    assert forall|k: int| 0 <= k < after.actions.len() implies (
                    #[trigger] after.actions[k] matches MergeProgramActionView::SetRow { row, .. }
                        ==> ids_below(row, after.ops.len() as int)) by {
                        if k < state.actions.len() {
                            assert(after.actions[k] == state.actions[k]);
                        }
                    }
                },
                Err(_) => {},
            }
        },
    }
}

proof fn lemma_ops_grow(
    context: MergeContext,
    state: MergeState,
    steps: Seq<MergeAction>,
    from: int,
)
    ensures
        action_steps(context, state, steps, from) matches Ok(after) ==> state.ops.len()
            <= after.ops.len(),
    decreases steps.len() - from,
{
    if 0 <= from < steps.len() {
        lemma_step_typed(context, state, steps[from]);
        match action_step(context, state, steps[from]) {
            Ok(after) => lemma_ops_grow(context, after, steps, from + 1),
            Err(_) => {},
        }
    }
}

proof fn lemma_steps_mean(
    context: MergeContext,
    world: MergeWorld,
    state: MergeState,
    steps: Seq<MergeAction>,
    from: int,
    old_row: Seq<int>,
    new_row: Seq<int>,
    progress: MergeProgress,
)
    requires
        texts_faithful(world, context.catalog),
        state_means(world, state, old_row, new_row, progress),
    ensures
        action_steps(context, state, steps, from) matches Ok(after) ==> (after.ops.len()
            <= usize::MAX ==> state_means(
            world,
            after,
            old_row,
            new_row,
            merge_steps_meaning(world, steps, from, old_row, new_row, progress),
        )),
    decreases steps.len() - from,
{
    if 0 <= from < steps.len() {
        lemma_step_means(context, world, state, steps[from], old_row, new_row, progress);
        match action_step(context, state, steps[from]) {
            Ok(after) => {
                lemma_ops_grow(context, after, steps, from + 1);
                if after.ops.len() <= usize::MAX {
                    lemma_steps_mean(
                        context,
                        world,
                        after,
                        steps,
                        from + 1,
                        old_row,
                        new_row,
                        merge_step_meaning(world, steps[from], old_row, new_row, progress),
                    );
                }
            },
            Err(_) => {},
        }
    }
}

proof fn lemma_columns_mean(
    context: MergeContext,
    world: MergeWorld,
    state: MergeState,
    columns: Seq<MergeFn>,
    from: int,
    done: Seq<usize>,
    old_row: Seq<int>,
    new_row: Seq<int>,
    lets: Seq<int>,
)
    requires
        texts_faithful(world, context.catalog),
        slots_hold(world, state, old_row, new_row, lets),
        0 <= from <= columns.len(),
        columns.len() == context.n_vals <= context.schema.len(),
        done.len() == from,
    ensures
        result_values(context, state, columns, from, done) matches Ok((after, ids)) ==> {
            &&& adds_ops(state, after)
            &&& ids.len() == columns.len()
            &&& after.ops.len() <= usize::MAX ==> {
                &&& ids.take(from) == done
                &&& picked(op_values(world, after.ops, old_row, new_row), ids.skip(from))
                    == merge_columns_meaning(
                    world,
                    columns,
                    from,
                    old_row,
                    new_row,
                    lets,
                    call_count(state.ops),
                )
            }
        },
    decreases columns.len() - from,
{
    lemma_results_typed(context, state, columns, from, done);
    if from < columns.len() {
        let expected = context.schema[context.schema.len() - context.n_vals + from];
        let column = from as usize;
        lemma_expr_means(
            context,
            world,
            state,
            columns[from],
            expected,
            column,
            old_row,
            new_row,
            lets,
        );
        lemma_expr_typed(context, state, columns[from], expected, column);
        match expr_value(context, state, columns[from], expected, column) {
            Ok((next, id)) => {
                let more = done.push(id);
                lemma_slots_stay(world, state, next, old_row, new_row, lets);
                lemma_columns_mean(
                    context,
                    world,
                    next,
                    columns,
                    from + 1,
                    more,
                    old_row,
                    new_row,
                    lets,
                );
                match result_values(context, next, columns, from + 1, more) {
                    Ok((after, ids)) => {
                        if after.ops.len() <= usize::MAX {
                            lemma_values_stay(world, next.ops, after.ops, old_row, new_row);
                            let values = op_values(world, after.ops, old_row, new_row);
                            assert(ids.take(from + 1)[from] == id);
                            assert(ids[from] == id);
                            assert(ids.take(from) =~= done) by {
                                assert(ids.take(from) =~= ids.take(from + 1).take(from));
                                assert(more.take(from) =~= done);
                            }
                            assert(ids.skip(from) =~= seq![id] + ids.skip(from + 1));
                            assert(picked(values, ids.skip(from)) =~= seq![values[id as int]]
                                + picked(values, ids.skip(from + 1)));
                        }
                    },
                    Err(_) => {},
                }
            },
            Err(_) => {},
        }
    } else {
        assert(done.take(from) =~= done);
        assert(picked(op_values(world, state.ops, old_row, new_row), done.skip(from))
            =~= Seq::<int>::empty());
    }
}

/// The program of a merge does what the merge does: for every old and new row it
/// writes the same rows in the same order and gives the same merged columns,
/// whatever primitives and other tables answer.
pub proof fn law_programs_mean_their_merges(
    context: MergeContext,
    world: MergeWorld,
    merge: MergeFn,
    n_identity_vals: Option<usize>,
    program: MergeProgramView,
    old_row: Seq<int>,
    new_row: Seq<int>,
)
    requires
        context.n_vals <= context.schema.len() <= usize::MAX,
        texts_faithful(world, context.catalog),
        program_of(context, merge, n_identity_vals) == Ok::<MergeProgramView, RejectionView>(
            program,
        ),
        program.ops.len() <= usize::MAX,
    ensures
        program_meaning(world, program, old_row, new_row) == merge_meaning(
            world,
            merge,
            old_row,
            new_row,
        ),
{
    let start = MergeProgress { lets: Seq::empty(), writes: Seq::empty(), calls: 0 };
    let steps = merge_steps(merge);
    let columns = result_columns(merge_result(merge));
    assert(picked(op_values(world, empty_state().ops, old_row, new_row), Seq::empty())
        =~= Seq::<int>::empty());
    assert(state_means(world, empty_state(), old_row, new_row, start));
    lemma_steps_mean(context, world, empty_state(), steps, 0, old_row, new_row, start);
    let stepped = action_steps(context, empty_state(), steps, 0)->Ok_0;
    let progress = merge_steps_meaning(world, steps, 0, old_row, new_row, start);
    let (after, results) = result_values(context, stepped, columns, 0, Seq::empty())->Ok_0;
    lemma_results_typed(context, stepped, columns, 0, Seq::empty());
    lemma_columns_mean(
        context,
        world,
        stepped,
        columns,
        0,
        Seq::empty(),
        old_row,
        new_row,
        progress.lets,
    );
    lemma_progress_stays(world, stepped, after, old_row, new_row, progress);
    assert(results.skip(0) =~= results);
}

} // verus!
