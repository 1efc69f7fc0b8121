//! Merge programs are typed: every value they write or return has the type of
//! the column it goes to.

use vstd::prelude::*;

#[allow(unused_imports)]
use crate::ir::{ColumnTy, ExternalFunctionId, FunctionId, MergeAction, MergeFn};
#[allow(unused_imports)]
use crate::merge_program::{
    action_step, action_steps, arg_values, empty_state, expr_ty, expr_value, ids_below,
    merge_result, merge_steps, primitive_value, program_of, result_columns, result_values,
    target_columns, MergeContext, MergeOpView, MergeProgramActionView, MergeProgramView, MergeState,
};
#[allow(unused_imports)]
use crate::rejection::RejectionView;

verus! {

/// A value of a program is the result of an operation of a type.
pub open spec fn value_typed(ops: Seq<MergeOpView>, id: usize, ty: ColumnTy) -> bool {
    id < ops.len() && ops[id as int].ty == ty
}

/// The first values of a list have the types of the first columns.
pub open spec fn values_typed(
    ops: Seq<MergeOpView>,
    ids: Seq<usize>,
    tys: Seq<ColumnTy>,
    count: int,
) -> bool {
    forall|j: int| 0 <= j < count ==> value_typed(ops, #[trigger] ids[j], tys[j])
}

/// A row is complete, and each of its values has the type of its column.
pub open spec fn row_typed(
    context: MergeContext,
    ops: Seq<MergeOpView>,
    target: FunctionId,
    row: Seq<usize>,
) -> bool {
    match target_columns(context, target) {
        Ok(columns) => row.len() == columns.len() && values_typed(
            ops,
            row,
            columns,
            row.len() as int,
        ),
        Err(_) => false,
    }
}

/// Every row that a program writes is complete and typed.
pub open spec fn writes_typed(
    context: MergeContext,
    ops: Seq<MergeOpView>,
    actions: Seq<MergeProgramActionView>,
) -> bool {
    forall|k: int|
        0 <= k < actions.len() ==> (#[trigger] actions[k] matches MergeProgramActionView::SetRow {
            target,
            row,
        } ==> row_typed(context, ops, target, row))
}

/// Operations are only added, and nothing else is touched.
pub open spec fn adds_ops(before: MergeState, after: MergeState) -> bool {
    &&& before.ops.len() <= after.ops.len()
    &&& forall|k: int| 0 <= k < before.ops.len() ==> #[trigger] after.ops[k] == before.ops[k]
    &&& after.actions == before.actions
    &&& after.environment == before.environment
}

/// Every slot is bound to a value that is there.
pub open spec fn slots_bound(state: MergeState) -> bool {
    ids_below(state.environment, state.ops.len() as int)
}

/// What is typed stays typed when operations are added.
proof fn lemma_typed_stays(
    before: Seq<MergeOpView>,
    after: Seq<MergeOpView>,
    ids: Seq<usize>,
    tys: Seq<ColumnTy>,
    count: int,
)
    requires
        before.len() <= after.len(),
        forall|k: int| 0 <= k < before.len() ==> #[trigger] after[k] == before[k],
        values_typed(before, ids, tys, count),
    ensures
        values_typed(after, ids, tys, count),
{
    assert forall|j: int| 0 <= j < count implies value_typed(after, #[trigger] ids[j], tys[j]) by {
        assert(value_typed(before, ids[j], tys[j]));
        assert(after[ids[j] as int] == before[ids[j] as int]);
    }
}

/// An expression becomes a value of its type, and operations are only added.
pub proof fn lemma_expr_typed(
    context: MergeContext,
    state: MergeState,
    expression: MergeFn,
    expected: ColumnTy,
    self_col: usize,
)
    ensures
        expr_value(context, state, expression, expected, self_col) matches Ok((after, id)) ==> {
            &&& adds_ops(state, after)
            &&& slots_bound(state) && after.ops.len() <= usize::MAX ==> value_typed(
                after.ops,
                id,
                expected,
            )
        },
    decreases expression, 0int,
{
    match expression {
        MergeFn::Primitive { id, input, output, args, .. } => lemma_primitive_typed(
            context,
            state,
            id,
            input@,
            output,
            args@,
            expected,
            self_col,
        ),
        MergeFn::Function(target, args) => match target_columns(context, target) {
            Ok(columns) => lemma_args_typed(
                context,
                state,
                args@,
                columns,
                self_col,
                0,
                Seq::empty(),
            ),
            Err(_) => {},
        },
        MergeFn::Lookup(target, args) => match target_columns(context, target) {
            Ok(columns) => lemma_args_typed(
                context,
                state,
                args@,
                columns,
                self_col,
                0,
                Seq::empty(),
            ),
            Err(_) => {},
        },
        _ => {},
    }
}

proof fn lemma_primitive_typed(
    context: MergeContext,
    state: MergeState,
    token: ExternalFunctionId,
    input: Seq<ColumnTy>,
    output: ColumnTy,
    args: Seq<MergeFn>,
    expected: ColumnTy,
    self_col: usize,
)
    ensures
        primitive_value(
            context,
            state,
            token,
            input,
            output,
            args,
            expected,
            self_col,
        ) matches Ok((after, id)) ==> {
            &&& adds_ops(state, after)
            &&& slots_bound(state) && after.ops.len() <= usize::MAX ==> value_typed(
                after.ops,
                id,
                expected,
            )
        },
    decreases args, args.len() + 1,
{
    lemma_args_typed(context, state, args, input, self_col, 0, Seq::empty());
}

/// Arguments become values of their types, and operations are only added.
pub proof fn lemma_args_typed(
    context: MergeContext,
    state: MergeState,
    args: Seq<MergeFn>,
    tys: Seq<ColumnTy>,
    self_col: usize,
    from: int,
    done: Seq<usize>,
)
    requires
        0 <= from <= args.len(),
        done.len() == from,
    ensures
        arg_values(context, state, args, tys, self_col, from, done) matches Ok((after, ids)) ==> {
            &&& adds_ops(state, after)
            &&& ids.len() == args.len()
            &&& slots_bound(state) && values_typed(state.ops, done, tys, from) && after.ops.len()
                <= usize::MAX ==> values_typed(after.ops, ids, tys, args.len() as int)
        },
    decreases args, args.len() - from,
{
    if from < args.len() {
        lemma_expr_typed(context, state, args[from], tys[from], self_col);
        match expr_value(context, state, args[from], tys[from], self_col) {
            Ok((after, id)) => {
                if slots_bound(state) && values_typed(state.ops, done, tys, from)
                    && after.ops.len() <= usize::MAX {
                    lemma_typed_stays(state.ops, after.ops, done, tys, from);
                    let more = done.push(id);
                    assert forall|j: int| 0 <= j < from + 1 implies value_typed(
                        after.ops,
                        #[trigger] more[j],
                        tys[j],
                    ) by {
                        if j < from {
                            assert(more[j] == done[j]);
                        }
                    }
                }
                lemma_args_typed(
                    context,
                    after,
                    args,
                    tys,
                    self_col,
                    from + 1,
                    done.push(id),
                );
            },
            Err(_) => {},
        }
    }
}

/// A partly compiled merge writes typed rows, and its slots are bound to values.
pub open spec fn state_typed(context: MergeContext, state: MergeState) -> bool {
    &&& slots_bound(state)
    &&& writes_typed(context, state.ops, state.actions)
}

proof fn lemma_writes_stay(context: MergeContext, before: MergeState, after: MergeState)
    requires
        state_typed(context, before),
        adds_ops(before, after),
    ensures
        state_typed(context, after),
{
    assert forall|k: int| 0 <= k < after.actions.len() implies (
    #[trigger] after.actions[k] matches MergeProgramActionView::SetRow { target, row }
        ==> row_typed(context, after.ops, target, row)) by {
        match after.actions[k] {
            MergeProgramActionView::SetRow { target, row } => {
                assert(row_typed(context, before.ops, target, row));
                let columns = target_columns(context, target)->Ok_0;
                lemma_typed_stays(before.ops, after.ops, row, columns, row.len() as int);
            },
            _ => {},
        }
    }
}

/// A step only adds operations, and keeps what is typed.
pub proof fn lemma_step_typed(context: MergeContext, state: MergeState, action: MergeAction)
    ensures
        action_step(context, state, action) matches Ok(after) ==> {
            &&& state.ops.len() <= after.ops.len()
            &&& state_typed(context, state) && after.ops.len() <= usize::MAX ==> state_typed(
                context,
                after,
            )
        },
{
    match action {
        MergeAction::Let { value, .. } => match expr_ty(context, state, value, 0) {
            Ok(expected) => {
                lemma_expr_typed(context, state, value, expected, 0);
                match expr_value(context, state, value, expected, 0) {
                    Ok((after, _)) => if state_typed(context, state) {
                        lemma_writes_stay(context, state, after);
                    },
                    Err(_) => {},
                }
            },
            Err(_) => {},
        },
        MergeAction::SetRow(target, arguments) => match target_columns(context, target) {
            Ok(columns) => {
                if arguments@.len() == columns.len() {
                    lemma_args_typed(context, state, arguments@, columns, 0, 0, Seq::empty());
                    match arg_values(context, state, arguments@, columns, 0, 0, Seq::empty()) {
                        Ok((after, _)) => if state_typed(context, state) {
                            lemma_writes_stay(context, state, after);
                        },
                        Err(_) => {},
                    }
                }
            },
            Err(_) => {},
        },
        MergeAction::Union(_, _) => {},
    }
}

proof fn lemma_steps_typed(
    context: MergeContext,
    state: MergeState,
    actions: Seq<MergeAction>,
    from: int,
)
    ensures
        action_steps(context, state, actions, from) matches Ok(after) ==> {
            &&& state.ops.len() <= after.ops.len()
            &&& state_typed(context, state) && after.ops.len() <= usize::MAX ==> state_typed(
                context,
                after,
            )
        },
    decreases actions.len() - from,
{
    if 0 <= from < actions.len() {
        lemma_step_typed(context, state, actions[from]);
        match action_step(context, state, actions[from]) {
            Ok(after) => lemma_steps_typed(context, after, actions, from + 1),
            Err(_) => {},
        }
    }
}

/// Result columns become values of their types.
pub proof fn lemma_results_typed(
    context: MergeContext,
    state: MergeState,
    columns: Seq<MergeFn>,
    from: int,
    done: Seq<usize>,
)
    requires
        0 <= from <= columns.len(),
        columns.len() == context.n_vals <= context.schema.len(),
        done.len() == from,
    ensures
        result_values(context, state, columns, from, done) matches Ok((after, ids)) ==> {
            &&& adds_ops(state, after)
            &&& ids.len() == columns.len()
            &&& slots_bound(state) && values_typed(state.ops, done, value_columns(context), from)
                && after.ops.len() <= usize::MAX ==> values_typed(
                after.ops,
                ids,
                value_columns(context),
                columns.len() as int,
            )
        },
    decreases columns.len() - from,
{
    if from < columns.len() {
        let tys = value_columns(context);
        let expected = context.schema[context.schema.len() - context.n_vals + from];
        lemma_expr_typed(context, state, columns[from], expected, from as usize);
        match expr_value(context, state, columns[from], expected, from as usize) {
            Ok((after, id)) => {
                if slots_bound(state) && values_typed(state.ops, done, tys, from)
                    && after.ops.len() <= usize::MAX {
                    lemma_typed_stays(state.ops, after.ops, done, tys, from);
                    let more = done.push(id);
                    assert forall|j: int| 0 <= j < from + 1 implies value_typed(
                        after.ops,
                        #[trigger] more[j],
                        tys[j],
                    ) by {
                        if j < from {
                            assert(more[j] == done[j]);
                        }
                    }
                }
                lemma_results_typed(context, after, columns, from + 1, done.push(id));
            },
            Err(_) => {},
        }
    }
}

/// The types of the owner's value columns.
pub open spec fn value_columns(context: MergeContext) -> Seq<ColumnTy> {
    context.schema.skip(context.schema.len() - context.n_vals)
}

/// The program of a merge returns one value for each value column of its owner,
/// of that column's type, and every row it writes is complete and has the types
/// of its table's columns.
pub proof fn law_merge_programs_are_typed(
    context: MergeContext,
    merge: MergeFn,
    n_identity_vals: Option<usize>,
    program: MergeProgramView,
)
    requires
        context.n_vals <= context.schema.len() <= usize::MAX,
        program_of(context, merge, n_identity_vals) == Ok::<MergeProgramView, RejectionView>(
            program,
        ),
        program.ops.len() <= usize::MAX,
    ensures
        program.n_vals == context.n_vals,
        program.results.len() == program.n_vals,
        values_typed(
            program.ops,
            program.results,
            value_columns(context),
            program.results.len() as int,
        ),
        writes_typed(context, program.ops, program.actions),
{
    let steps = merge_steps(merge);
    lemma_steps_typed(context, empty_state(), steps, 0);
    match action_steps(context, empty_state(), steps, 0) {
        Ok(stepped) => {
            let columns = result_columns(merge_result(merge));
            if columns.len() == context.n_vals {
                lemma_results_typed(context, stepped, columns, 0, Seq::empty());
                match result_values(context, stepped, columns, 0, Seq::empty()) {
                    Ok((after, _)) => lemma_writes_stay(context, stepped, after),
                    Err(_) => {},
                }
            }
        },
        Err(_) => {},
    }
}

} // verus!
