//! What a merge program touches: the tables that it reads and writes and the tokens
//! that it rests on are exactly those of its operations and steps, and it stands one
//! level above what it reads.

use vstd::prelude::*;

#[allow(unused_imports)]
use crate::authority::entry;
#[allow(unused_imports)]
use crate::catalog::typed_literal;
#[allow(unused_imports)]
use crate::ir::{ColumnTy, ExternalFunctionId, MergeAction, MergeFn};
#[allow(unused_imports)]
use crate::merge_meaning::primitive_token;
#[allow(unused_imports)]
use crate::merge_program::{
    action_step, action_steps, arg_values, empty_state, expr_ty, expr_value, lemma_read_level,
    merge_primitive, merge_result, merge_steps, primitive_value, program_of, read_level,
    result_columns, result_values, target_columns, with_op, MergeContext, MergeOpKindView,
    MergeOpView, MergeProgramActionView, MergeProgramView, MergeState,
};
#[allow(unused_imports)]
use crate::rejection::RejectionView;

verus! {

/// An operation reads a table.
pub open spec fn reads(op: MergeOpView, id: u32) -> bool {
    match op.kind {
        MergeOpKindView::Function { target, .. } => target.rep == id,
        MergeOpKindView::Lookup { target, .. } => target.rep == id,
        _ => false,
    }
}

/// An operation may fill in a row of a table.
pub open spec fn fills(op: MergeOpView, id: u32) -> bool {
    match op.kind {
        MergeOpKindView::Lookup { target, .. } => target.rep == id,
        _ => false,
    }
}

/// A step writes a table.
pub open spec fn writes(action: MergeProgramActionView, id: u32) -> bool {
    match action {
        MergeProgramActionView::SetRow { target, .. } => target.rep == id,
        _ => false,
    }
}

/// An operation rests on a token.
pub open spec fn rests_on(op: MergeOpView, token: u32) -> bool {
    match op.kind {
        MergeOpKindView::Primitive { primitive, .. } => !(primitive is Unauthenticated)
            && primitive_token(primitive).rep == token,
        _ => false,
    }
}

/// Some operation reads a table.
pub open spec fn some_reads(ops: Seq<MergeOpView>, id: u32) -> bool {
    exists|i: int| 0 <= i < ops.len() && reads(#[trigger] ops[i], id)
}

/// Some operation may fill in a row of a table.
pub open spec fn some_fills(ops: Seq<MergeOpView>, id: u32) -> bool {
    exists|i: int| 0 <= i < ops.len() && fills(#[trigger] ops[i], id)
}

/// Some step writes a table.
pub open spec fn some_writes(actions: Seq<MergeProgramActionView>, id: u32) -> bool {
    exists|i: int| 0 <= i < actions.len() && writes(#[trigger] actions[i], id)
}

/// Some operation rests on a token.
pub open spec fn some_rests(ops: Seq<MergeOpView>, token: u32) -> bool {
    exists|i: int| 0 <= i < ops.len() && rests_on(#[trigger] ops[i], token)
}

/// The live epoch of a token.
pub open spec fn live_epoch(context: MergeContext, token: u32) -> Option<u64> {
    match context.authorities {
        Some(authorities) => entry(authorities.authority_epochs@, token),
        None => None,
    }
}

/// What is noted is what the operations and steps touch.
pub open spec fn accounts(
    context: MergeContext,
    ops: Seq<MergeOpView>,
    actions: Seq<MergeProgramActionView>,
    read_deps: Set<u32>,
    write_targets: Set<u32>,
    required: Map<u32, u64>,
) -> bool {
    &&& forall|id: u32| #[trigger] read_deps.contains(id) <==> some_reads(ops, id)
    &&& forall|id: u32| #[trigger]
        write_targets.contains(id) <==> some_fills(ops, id) || some_writes(actions, id)
    &&& forall|token: u32| #[trigger] required.contains_key(token) <==> some_rests(ops, token)
    &&& forall|token: u32| #[trigger]
        required.contains_key(token) ==> live_epoch(context, token) == Some(required[token])
}

spec fn state_accounts(context: MergeContext, state: MergeState) -> bool {
    accounts(
        context,
        state.ops,
        state.actions,
        state.read_deps,
        state.write_targets,
        state.required_authorities,
    )
}

proof fn lemma_more_ops(ops: Seq<MergeOpView>, op: MergeOpView, id: u32)
    ensures
        some_reads(ops.push(op), id) <==> some_reads(ops, id) || reads(op, id),
        some_fills(ops.push(op), id) <==> some_fills(ops, id) || fills(op, id),
        some_rests(ops.push(op), id) <==> some_rests(ops, id) || rests_on(op, id),
{
    let all = ops.push(op);
    assert(all[ops.len() as int] == op);
    if some_reads(ops, id) {
        let i = choose|i: int| 0 <= i < ops.len() && reads(#[trigger] ops[i], id);
        assert(reads(all[i], id));
    }
    if some_fills(ops, id) {
        let i = choose|i: int| 0 <= i < ops.len() && fills(#[trigger] ops[i], id);
        assert(fills(all[i], id));
    }
    if some_rests(ops, id) {
        let i = choose|i: int| 0 <= i < ops.len() && rests_on(#[trigger] ops[i], id);
        assert(rests_on(all[i], id));
    }
    if some_reads(all, id) {
        let i = choose|i: int| 0 <= i < all.len() && reads(#[trigger] all[i], id);
        if i < ops.len() {
            assert(reads(ops[i], id));
        }
    }
    if some_fills(all, id) {
        let i = choose|i: int| 0 <= i < all.len() && fills(#[trigger] all[i], id);
        if i < ops.len() {
            assert(fills(ops[i], id));
        }
    }
    if some_rests(all, id) {
        let i = choose|i: int| 0 <= i < all.len() && rests_on(#[trigger] all[i], id);
        if i < ops.len() {
            assert(rests_on(ops[i], id));
        }
    }
}

proof fn lemma_more_actions(
    actions: Seq<MergeProgramActionView>,
    action: MergeProgramActionView,
    id: u32,
)
    ensures
        some_writes(actions.push(action), id) <==> some_writes(actions, id) || writes(action, id),
{
    let all = actions.push(action);
    assert(all[actions.len() as int] == action);
    if some_writes(actions, id) {
        let i = choose|i: int| 0 <= i < actions.len() && writes(#[trigger] actions[i], id);
        assert(writes(all[i], id));
    }
    if some_writes(all, id) {
        let i = choose|i: int| 0 <= i < all.len() && writes(#[trigger] all[i], id);
        if i < actions.len() {
            assert(writes(actions[i], id));
        }
    }
}

/// An operation that is noted with what it touches.
proof fn lemma_op_accounts(
    context: MergeContext,
    before: MergeState,
    state: MergeState,
    ty: ColumnTy,
    kind: MergeOpKindView,
)
    requires
        state_accounts(context, before),
        state.ops == before.ops,
        state.actions == before.actions,
        forall|id: u32| #[trigger]
            state.read_deps.contains(id) <==> before.read_deps.contains(id) || reads(
                MergeOpView { ty, kind },
                id,
            ),
        forall|id: u32| #[trigger]
            state.write_targets.contains(id) <==> before.write_targets.contains(id) || fills(
                MergeOpView { ty, kind },
                id,
            ),
        forall|token: u32| #[trigger]
            state.required_authorities.contains_key(token)
                <==> before.required_authorities.contains_key(token) || rests_on(
                MergeOpView { ty, kind },
                token,
            ),
        forall|token: u32| #[trigger]
            state.required_authorities.contains_key(token) ==> live_epoch(context, token) == Some(
                state.required_authorities[token],
            ),
    ensures
        state_accounts(context, with_op(state, ty, kind).0),
{
    let op = MergeOpView { ty, kind };
    let after = with_op(state, ty, kind).0;
    assert(after.ops == before.ops.push(op));
    assert forall|id: u32| #[trigger] after.read_deps.contains(id) <==> some_reads(after.ops, id) by {
        lemma_more_ops(before.ops, op, id);
        assert(state.read_deps.contains(id) == after.read_deps.contains(id));
        assert(before.read_deps.contains(id) <==> some_reads(before.ops, id));
    }
    assert forall|id: u32| #[trigger] after.write_targets.contains(id) <==> some_fills(
        after.ops,
        id,
    ) || some_writes(after.actions, id) by {
        lemma_more_ops(before.ops, op, id);
        assert(state.write_targets.contains(id) == after.write_targets.contains(id));
        assert(before.write_targets.contains(id) <==> some_fills(before.ops, id) || some_writes(
            before.actions,
            id,
        ));
    }
    assert forall|token: u32| #[trigger] after.required_authorities.contains_key(token)
        <==> some_rests(after.ops, token) by {
        lemma_more_ops(before.ops, op, token);
        assert(state.required_authorities.contains_key(token)
            == after.required_authorities.contains_key(token));
        assert(before.required_authorities.contains_key(token) <==> some_rests(before.ops, token));
    }
}

proof fn lemma_expr_accounts(
    context: MergeContext,
    state: MergeState,
    expression: MergeFn,
    expected: ColumnTy,
    self_col: usize,
)
    requires
        state_accounts(context, state),
    ensures
        expr_value(context, state, expression, expected, self_col) matches Ok((after, _))
            ==> state_accounts(context, after),
    decreases expression, 0int,
{
    match expression {
        MergeFn::Old => lemma_op_accounts(
            context,
            state,
            state,
            expected,
            MergeOpKindView::OldCol(self_col),
        ),
        MergeFn::New => lemma_op_accounts(
            context,
            state,
            state,
            expected,
            MergeOpKindView::NewCol(self_col),
        ),
        MergeFn::OldCol(column) => lemma_op_accounts(
            context,
            state,
            state,
            expected,
            MergeOpKindView::OldCol(column),
        ),
        MergeFn::NewCol(column) => lemma_op_accounts(
            context,
            state,
            state,
            expected,
            MergeOpKindView::NewCol(column),
        ),
        MergeFn::LetVar(_) => {},
        MergeFn::Const { value, ty } => {
            match typed_literal(context.catalog, expected, value) {
                Ok((_, sql)) => lemma_op_accounts(
                    context,
                    state,
                    state,
                    expected,
                    MergeOpKindView::Const { value, sql },
                ),
                Err(_) => {},
            }
        },
        MergeFn::AssertEq => {
            let old_kind = MergeOpKindView::OldCol(self_col);
            let new_kind = MergeOpKindView::NewCol(self_col);
            let (with_old, old_id) = with_op(state, expected, old_kind);
            let (with_new, new_id) = with_op(with_old, expected, new_kind);
            lemma_op_accounts(context, state, state, expected, old_kind);
            lemma_op_accounts(context, with_old, with_old, expected, new_kind);
            lemma_op_accounts(
                context,
                with_new,
                with_new,
                expected,
                MergeOpKindView::AssertEq { old: old_id, new: new_id },
            );
        },
        MergeFn::UnionId => lemma_op_accounts(
            context,
            state,
            state,
            expected,
            MergeOpKindView::UnsupportedUnionId,
        ),
        MergeFn::Primitive { id, input, output, args, .. } => {
            lemma_primitive_accounts(
                context,
                state,
                id,
                input@,
                output,
                args@,
                expected,
                self_col,
            );
        },
        MergeFn::Function(target, args) => match target_columns(context, target) {
            Ok(columns) => {
                lemma_args_accounts(context, state, args@, columns, self_col, 0, Seq::empty());
                match arg_values(context, state, args@, columns, self_col, 0, Seq::empty()) {
                    Ok((after, arguments)) => lemma_op_accounts(
                        context,
                        after,
                        MergeState { read_deps: after.read_deps.insert(target.rep), ..after },
                        expected,
                        MergeOpKindView::Function { target, arguments },
                    ),
                    Err(_) => {},
                }
            },
            Err(_) => {},
        },
        MergeFn::Lookup(target, args) => match target_columns(context, target) {
            Ok(columns) => {
                lemma_args_accounts(context, state, args@, columns, self_col, 0, Seq::empty());
                match arg_values(context, state, args@, columns, self_col, 0, Seq::empty()) {
                    Ok((after, arguments)) => lemma_op_accounts(
                        context,
                        after,
                        MergeState {
                            read_deps: after.read_deps.insert(target.rep),
                            write_targets: after.write_targets.insert(target.rep),
                            ..after
                        },
                        expected,
                        MergeOpKindView::Lookup { target, arguments },
                    ),
                    Err(_) => {},
                }
            },
            Err(_) => {},
        },
        MergeFn::Columns(_) | MergeFn::Block { .. } => {},
    }
}

proof fn lemma_primitive_accounts(
    context: MergeContext,
    state: MergeState,
    token: ExternalFunctionId,
    input: Seq<ColumnTy>,
    output: ColumnTy,
    args: Seq<MergeFn>,
    expected: ColumnTy,
    self_col: usize,
)
    requires
        state_accounts(context, state),
    ensures
        primitive_value(
            context,
            state,
            token,
            input,
            output,
            args,
            expected,
            self_col,
        ) matches Ok((after, _)) ==> state_accounts(context, after),
    decreases args, args.len() + 1,
{
    lemma_args_accounts(context, state, args, input, self_col, 0, Seq::empty());
    match arg_values(context, state, args, input, self_col, 0, Seq::empty()) {
        Ok((after, arguments)) => match merge_primitive(context, after, token, input, output) {
            Ok((remembered, primitive)) => {
                lemma_op_accounts(
                    context,
                    after,
                    remembered,
                    expected,
                    MergeOpKindView::Primitive { primitive, arguments },
                );
            },
            Err(_) => {},
        },
        Err(_) => {},
    }
}

proof fn lemma_args_accounts(
    context: MergeContext,
    state: MergeState,
    args: Seq<MergeFn>,
    tys: Seq<ColumnTy>,
    self_col: usize,
    from: int,
    done: Seq<usize>,
)
    requires
        state_accounts(context, state),
    ensures
        arg_values(context, state, args, tys, self_col, from, done) matches Ok((after, _))
            ==> state_accounts(context, after),
    decreases args, args.len() - from,
{
    if 0 <= from < args.len() {
        lemma_expr_accounts(context, state, args[from], tys[from], self_col);
        match expr_value(context, state, args[from], tys[from], self_col) {
            Ok((after, id)) => lemma_args_accounts(
                context,
                after,
                args,
                tys,
                self_col,
                from + 1,
                done.push(id),
            ),
            Err(_) => {},
        }
    }
}

/// A step that is noted with what it writes.
proof fn lemma_action_accounts(
    context: MergeContext,
    before: MergeState,
    after: MergeState,
    action: MergeProgramActionView,
)
    requires
        state_accounts(context, before),
        after.ops == before.ops,
        after.actions == before.actions.push(action),
        after.read_deps == before.read_deps,
        after.required_authorities == before.required_authorities,
        forall|id: u32| #[trigger]
            after.write_targets.contains(id) <==> before.write_targets.contains(id) || writes(
                action,
                id,
            ),
    ensures
        state_accounts(context, after),
{
    assert forall|id: u32| #[trigger] after.write_targets.contains(id) <==> some_fills(
        after.ops,
        id,
    ) || some_writes(after.actions, id) by {
        lemma_more_actions(before.actions, action, id);
        assert(before.write_targets.contains(id) <==> some_fills(before.ops, id) || some_writes(
            before.actions,
            id,
        ));
    }
}

proof fn lemma_steps_account(
    context: MergeContext,
    state: MergeState,
    actions: Seq<MergeAction>,
    from: int,
)
    requires
        state_accounts(context, state),
    ensures
        action_steps(context, state, actions, from) matches Ok(after) ==> state_accounts(
            context,
            after,
        ),
    decreases actions.len() - from,
{
    if 0 <= from < actions.len() {
        match actions[from] {
            MergeAction::Let { slot, value } => match expr_ty(context, state, value, 0) {
                Ok(expected) => {
                    lemma_expr_accounts(context, state, value, expected, 0);
                    match (
                        expr_value(context, state, value, expected, 0),
                        action_step(context, state, actions[from]),
                    ) {
                        (Ok((before, id)), Ok(after)) => lemma_action_accounts(
                            context,
                            before,
                            after,
                            MergeProgramActionView::Bind { slot, value: id },
                        ),
                        _ => {},
                    }
                },
                Err(_) => {},
            },
            MergeAction::SetRow(target, arguments) => match target_columns(context, target) {
                Ok(columns) => {
                    lemma_args_accounts(context, state, arguments@, columns, 0, 0, Seq::empty());
                    match (
                        arg_values(context, state, arguments@, columns, 0, 0, Seq::empty()),
                        action_step(context, state, actions[from]),
                    ) {
                        (Ok((before, row)), Ok(after)) => lemma_action_accounts(
                            context,
                            before,
                            after,
                            MergeProgramActionView::SetRow { target, row },
                        ),
                        _ => {},
                    }
                },
                Err(_) => {},
            },
            MergeAction::Union(_, _) => {
                lemma_action_accounts(
                    context,
                    state,
                    action_step(context, state, actions[from])->Ok_0,
                    MergeProgramActionView::UnsupportedUnion,
                );
            },
        }
        match action_step(context, state, actions[from]) {
            Ok(after) => lemma_steps_account(context, after, actions, from + 1),
            Err(_) => {},
        }
    }
}

proof fn lemma_results_account(
    context: MergeContext,
    state: MergeState,
    columns: Seq<MergeFn>,
    from: int,
    done: Seq<usize>,
)
    requires
        state_accounts(context, state),
    ensures
        result_values(context, state, columns, from, done) matches Ok((after, _))
            ==> state_accounts(context, after),
    decreases columns.len() - from,
{
    if 0 <= from < columns.len() {
        let ty = context.schema[context.schema.len() - context.n_vals + from];
        lemma_expr_accounts(context, state, columns[from], ty, from as usize);
        match expr_value(context, state, columns[from], ty, from as usize) {
            Ok((after, id)) => lemma_results_account(
                context,
                after,
                columns,
                from + 1,
                done.push(id),
            ),
            Err(_) => {},
        }
    }
}

/// The level of a table.
pub open spec fn level_of(context: MergeContext, id: u32) -> nat {
    context.catalog.tables@[id as int].merge_program.dependency_level as nat
}

proof fn lemma_level_reached(context: MergeContext, read_deps: Set<u32>, count: nat)
    requires
        count <= u32::MAX,
    ensures
        read_level(context, read_deps, count) > 0 ==> exists|id: u32|
            id < count && id != context.owner.rep && #[trigger] read_deps.contains(id)
                && level_of(context, id) == read_level(context, read_deps, count),
    decreases count,
{
    if count > 0 {
        lemma_level_reached(context, read_deps, (count - 1) as nat);
        let last = (count - 1) as u32;
        if read_level(context, read_deps, count) != read_level(
            context,
            read_deps,
            (count - 1) as nat,
        ) {
            assert(read_deps.contains(last));
        }
    }
}

/// A merge program notes exactly what it touches: a table is read when an operation
/// calls or looks it up, and written when a step sets a row of it or a lookup may
/// fill one in; a token is required when an operation uses it with a live epoch, at
/// that epoch. The program stands one level above the highest table that it reads
/// besides its own, and on the first level when there is none.
pub proof fn law_programs_note_what_they_touch(
    context: MergeContext,
    merge: MergeFn,
    n_identity_vals: Option<usize>,
    program: MergeProgramView,
)
    requires
        context.catalog.tables@.len() <= u32::MAX,
        program_of(context, merge, n_identity_vals) == Ok::<MergeProgramView, RejectionView>(
            program,
        ),
    ensures
        accounts(
            context,
            program.ops,
            program.actions,
            program.read_deps,
            program.write_targets,
            program.required_authorities,
        ),
        forall|id: u32| #[trigger]
            program.read_deps.contains(id) && id != context.owner.rep && id
                < context.catalog.tables@.len() ==> level_of(context, id)
                < program.dependency_level,
        program.dependency_level > 1 ==> exists|id: u32|
            id < context.catalog.tables@.len() && id != context.owner.rep
                && #[trigger] program.read_deps.contains(id) && level_of(context, id) + 1
                == program.dependency_level,
        program.dependency_level >= 1,
{
    let start = empty_state();
    assert(state_accounts(context, start));
    let steps = merge_steps(merge);
    lemma_steps_account(context, start, steps, 0);
    let stepped = action_steps(context, start, steps, 0)->Ok_0;
    let columns = result_columns(merge_result(merge));
    lemma_results_account(context, stepped, columns, 0, Seq::empty());
    let count = context.catalog.tables@.len();
    lemma_level_reached(context, program.read_deps, count);
    assert forall|id: u32| #[trigger]
        program.read_deps.contains(id) && id != context.owner.rep && id < count implies level_of(
        context,
        id,
    ) < program.dependency_level by {
        lemma_read_level(context, program.read_deps, id, count);
    }
}

} // verus!
