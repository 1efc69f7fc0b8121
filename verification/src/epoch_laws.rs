//! What authorities keep over time: an epoch is given once, what a merge was
//! registered under stays what it means, and authority that was lost never
//! comes back.

use vstd::prelude::*;

#[allow(unused_imports)]
use crate::action_plan::{all_live, authorized, PlanView};
#[allow(unused_imports)]
use crate::action_rule::scalar_plan;
#[allow(unused_imports)]
use crate::authority::{entry, fd_views, later, same_token, AuthorityRegistries};
#[allow(unused_imports)]
use crate::authority_laws::{
    law_admission_pins_live_epochs, law_admitted_plans_are_authorized, op_live, plan_tokens,
    registration_live,
};
#[allow(unused_imports)]
use crate::catalog::Catalog;
#[allow(unused_imports)]
use crate::closure_laws::op_token;
#[allow(unused_imports)]
use crate::egraph::retains;
#[allow(unused_imports)]
use crate::ir::{
    Atom, ColumnTy, CoreAction, ExternalFunctionId, FunctionConfig, FunctionId, MergeAction,
    MergeFn,
};
#[allow(unused_imports)]
use crate::merge_program::{
    action_step, action_steps, arg_values, empty_state, expr_ty, expr_value, merge_result,
    merge_steps, primitive_value, result_columns, result_values, table_context, target_columns,
    MergeContext, MergeOpView, MergeProgramView, MergeState,
};
#[allow(unused_imports)]
use crate::rejection::RejectionView;

verus! {

/// An epoch that a token lost is never its epoch again.
pub proof fn law_epochs_are_given_once(
    before: AuthorityRegistries,
    after: AuthorityRegistries,
    token: u32,
    epoch: u64,
)
    requires
        later(before, after),
        epoch <= before.last_epoch,
        entry(before.authority_epochs@, token) != Some(epoch),
    ensures
        entry(after.authority_epochs@, token) != Some(epoch),
{
    assert(same_token(before, after, token) || entry(after.authority_epochs@, token) != Some(
        epoch,
    ));
}

/// Registries may become what they are already.
pub proof fn law_later_is_reflexive(registries: AuthorityRegistries)
    ensures
        later(registries, registries),
{
}

/// What may become of registries in two stretches may become of them in one.
pub proof fn law_later_is_transitive(
    first: AuthorityRegistries,
    second: AuthorityRegistries,
    third: AuthorityRegistries,
)
    requires
        later(first, second),
        later(second, third),
    ensures
        later(first, third),
{
    assert forall|token: u32| #[trigger]
        same_token(first, third, token) || (entry(third.authority_epochs@, token) matches Some(
            epoch,
        ) ==> epoch > first.last_epoch) by {
        assert(same_token(first, second, token) || (entry(
            second.authority_epochs@,
            token,
        ) matches Some(epoch) ==> epoch > first.last_epoch));
        assert(same_token(second, third, token) || (entry(
            third.authority_epochs@,
            token,
        ) matches Some(epoch) ==> epoch > second.last_epoch));
    }
}

/// The epochs under which a merge was registered were given, the tokens of its
/// operations are among those, and while those epochs are live the operations
/// mean what the registries hold.
pub open spec fn merge_authentic(
    program: MergeProgramView,
    registries: AuthorityRegistries,
) -> bool {
    &&& forall|token: u32| #[trigger]
        program.required_authorities.contains_key(token) ==> program.required_authorities[token]
            <= registries.last_epoch
    &&& ops_covered(program.ops, program.required_authorities)
    &&& registration_live(program, registries) ==> ops_live(program.ops, registries)
}

/// The token of each operation has an epoch.
pub open spec fn ops_covered(ops: Seq<MergeOpView>, epochs: Map<u32, u64>) -> bool {
    forall|k: int|
        0 <= k < ops.len() ==> (op_token(#[trigger] ops[k]) matches Some(token)
            ==> epochs.contains_key(token))
}

/// Each operation means what the registries hold.
pub open spec fn ops_live(ops: Seq<MergeOpView>, registries: AuthorityRegistries) -> bool {
    forall|k: int| 0 <= k < ops.len() ==> op_live(registries, #[trigger] ops[k])
}

/// The merges of a catalog are authentic.
pub open spec fn merges_authentic(catalog: Catalog, registries: AuthorityRegistries) -> bool {
    forall|i: int|
        0 <= i < catalog.tables@.len() ==> merge_authentic(
            (#[trigger] catalog.tables@[i]).merge_program@,
            registries,
        )
}

/// A partly compiled merge rests on live epochs, and on nothing else.
spec fn state_authentic(state: MergeState, registries: AuthorityRegistries) -> bool {
    &&& all_live(state.required_authorities, registries.authority_epochs@)
    &&& ops_covered(state.ops, state.required_authorities)
    &&& ops_live(state.ops, registries)
}

/// A merge is compiled against the registries, or against none.
spec fn compiled_under(context: MergeContext, registries: AuthorityRegistries) -> bool {
    context.authorities matches Some(authorities) ==> authorities == registries
}

proof fn lemma_expr_authentic(
    context: MergeContext,
    registries: AuthorityRegistries,
    state: MergeState,
    expression: MergeFn,
    expected: ColumnTy,
    self_col: usize,
)
    requires
        compiled_under(context, registries),
        state_authentic(state, registries),
    ensures
        expr_value(context, state, expression, expected, self_col) matches Ok((after, _))
            ==> state_authentic(after, registries),
    decreases expression, 0int,
{
    match expression {
        MergeFn::Primitive { id, input, output, args, .. } => lemma_primitive_authentic(
            context,
            registries,
            state,
            id,
            input@,
            output,
            args@,
            expected,
            self_col,
        ),
        MergeFn::Function(target, args) => match target_columns(context, target) {
            Ok(columns) => lemma_args_authentic(
                context,
                registries,
                state,
                args@,
                columns,
                self_col,
                0,
                Seq::empty(),
            ),
            Err(_) => {},
        },
        MergeFn::Lookup(target, args) => match target_columns(context, target) {
            Ok(columns) => lemma_args_authentic(
                context,
                registries,
                state,
                args@,
                columns,
                self_col,
                0,
                Seq::empty(),
            ),
            Err(_) => {},
        },
        _ => {},
    }
}

proof fn lemma_primitive_authentic(
    context: MergeContext,
    registries: AuthorityRegistries,
    state: MergeState,
    token: ExternalFunctionId,
    input: Seq<ColumnTy>,
    output: ColumnTy,
    args: Seq<MergeFn>,
    expected: ColumnTy,
    self_col: usize,
)
    requires
        compiled_under(context, registries),
        state_authentic(state, registries),
    ensures
        primitive_value(
            context,
            state,
            token,
            input,
            output,
            args,
            expected,
            self_col,
        ) matches Ok((after, _)) ==> state_authentic(after, registries),
    decreases args, args.len() + 1,
{
    lemma_args_authentic(context, registries, state, args, input, self_col, 0, Seq::empty());
}

proof fn lemma_args_authentic(
    context: MergeContext,
    registries: AuthorityRegistries,
    state: MergeState,
    args: Seq<MergeFn>,
    tys: Seq<ColumnTy>,
    self_col: usize,
    from: int,
    done: Seq<usize>,
)
    requires
        compiled_under(context, registries),
        state_authentic(state, registries),
    ensures
        arg_values(context, state, args, tys, self_col, from, done) matches Ok((after, _))
            ==> state_authentic(after, registries),
    decreases args, args.len() - from,
{
    if 0 <= from < args.len() {
        lemma_expr_authentic(context, registries, state, args[from], tys[from], self_col);
        match expr_value(context, state, args[from], tys[from], self_col) {
            Ok((after, id)) => lemma_args_authentic(
                context,
                registries,
                after,
                args,
                tys,
                self_col,
                from + 1,
                done.push(id),
            ),
            Err(_) => {},
        }
    }
}

proof fn lemma_step_authentic(
    context: MergeContext,
    registries: AuthorityRegistries,
    state: MergeState,
    action: MergeAction,
)
    requires
        compiled_under(context, registries),
        state_authentic(state, registries),
    ensures
        action_step(context, state, action) matches Ok(after) ==> state_authentic(
            after,
            registries,
        ),
{
    match action {
        MergeAction::Let { value, .. } => match expr_ty(context, state, value, 0) {
            Ok(expected) => lemma_expr_authentic(context, registries, state, value, expected, 0),
            Err(_) => {},
        },
        MergeAction::SetRow(target, arguments) => match target_columns(context, target) {
            Ok(columns) => lemma_args_authentic(
                context,
                registries,
                state,
                arguments@,
                columns,
                0,
                0,
                Seq::empty(),
            ),
            Err(_) => {},
        },
        MergeAction::Union(_, _) => {},
    }
}

proof fn lemma_steps_authentic(
    context: MergeContext,
    registries: AuthorityRegistries,
    state: MergeState,
    actions: Seq<MergeAction>,
    from: int,
)
    requires
        compiled_under(context, registries),
        state_authentic(state, registries),
    ensures
        action_steps(context, state, actions, from) matches Ok(after) ==> state_authentic(
            after,
            registries,
        ),
    decreases actions.len() - from,
{
    if 0 <= from < actions.len() {
        lemma_step_authentic(context, registries, state, actions[from]);
        match action_step(context, state, actions[from]) {
            Ok(after) => lemma_steps_authentic(context, registries, after, actions, from + 1),
            Err(_) => {},
        }
    }
}

proof fn lemma_results_authentic(
    context: MergeContext,
    registries: AuthorityRegistries,
    state: MergeState,
    columns: Seq<MergeFn>,
    from: int,
    done: Seq<usize>,
)
    requires
        compiled_under(context, registries),
        state_authentic(state, registries),
    ensures
        result_values(context, state, columns, from, done) matches Ok((after, _))
            ==> state_authentic(after, registries),
    decreases columns.len() - from,
{
    if 0 <= from < columns.len() {
        let expected = context.schema[context.schema.len() - context.n_vals + from];
        lemma_expr_authentic(
            context,
            registries,
            state,
            columns[from],
            expected,
            from as usize,
        );
        match expr_value(context, state, columns[from], expected, from as usize) {
            Ok((after, id)) => lemma_results_authentic(
                context,
                registries,
                after,
                columns,
                from + 1,
                done.push(id),
            ),
            Err(_) => {},
        }
    }
}

/// Registering a table under the live registries, or under none, keeps the
/// merges authentic. A catalog without tables has none to keep.
pub proof fn law_registration_keeps_merges_authentic(
    before: Catalog,
    after: Catalog,
    config: FunctionConfig,
    authorities: Option<AuthorityRegistries>,
    registries: AuthorityRegistries,
)
    requires
        registries.well_formed(),
        authorities matches Some(live) ==> live == registries,
        merges_authentic(before, registries),
        after.tables@.len() == before.tables@.len() + 1,
        after.tables@.drop_last() == before.tables@,
        retains(after.tables@.last(), before, config, authorities),
    ensures
        merges_authentic(after, registries),
{
    let context = table_context(
        before,
        FunctionId { rep: before.tables@.len() as u32 },
        config,
        authorities,
    );
    let steps = merge_steps(config.merge);
    lemma_steps_authentic(context, registries, empty_state(), steps, 0);
    match action_steps(context, empty_state(), steps, 0) {
        Ok(stepped) => lemma_results_authentic(
            context,
            registries,
            stepped,
            result_columns(merge_result(config.merge)),
            0,
            Seq::empty(),
        ),
        Err(_) => {},
    }
    assert forall|i: int| 0 <= i < after.tables@.len() implies merge_authentic(
        (#[trigger] after.tables@[i]).merge_program@,
        registries,
    ) by {
        if i < before.tables@.len() {
            assert(after.tables@[i] == after.tables@.drop_last()[i]);
            assert(after.tables@[i] == before.tables@[i]);
        } else {
            let program = after.tables@.last().merge_program@;
            assert forall|token: u32| #[trigger]
                program.required_authorities.contains_key(
                token,
            ) implies program.required_authorities[token] <= registries.last_epoch by {
                assert(registries.authority_epochs@.contains_key(token));
            }
        }
    }
}

/// Minting and freeing tokens keeps the merges authentic.
pub proof fn law_minting_and_freeing_keep_merges_authentic(
    catalog: Catalog,
    before: AuthorityRegistries,
    after: AuthorityRegistries,
)
    requires
        merges_authentic(catalog, before),
        later(before, after),
    ensures
        merges_authentic(catalog, after),
{
    assert forall|i: int| 0 <= i < catalog.tables@.len() implies merge_authentic(
        (#[trigger] catalog.tables@[i]).merge_program@,
        after,
    ) by {
        let program = catalog.tables@[i].merge_program@;
        if registration_live(program, after) {
            assert forall|token: u32| #[trigger]
                program.required_authorities.contains_key(token) implies same_token(
                before,
                after,
                token,
            ) by {
                assert(same_token(before, after, token) || (entry(
                    after.authority_epochs@,
                    token,
                ) matches Some(epoch) ==> epoch > before.last_epoch));
            }
            assert(registration_live(program, before));
            assert forall|k: int| 0 <= k < program.ops.len() implies op_live(
                after,
                #[trigger] program.ops[k],
            ) by {
                assert(op_live(before, program.ops[k]));
                match op_token(program.ops[k]) {
                    Some(token) => {
                        assert(program.required_authorities.contains_key(token));
                        assert(same_token(before, after, token));
                    },
                    None => {},
                }
            }
        }
    }
}

/// A table was registered, under the live registries or under none.
pub open spec fn registers(
    before: Catalog,
    after: Catalog,
    registries: AuthorityRegistries,
) -> bool {
    &&& after.tables@.len() == before.tables@.len() + 1
    &&& after.tables@.drop_last() == before.tables@
    &&& exists|config: FunctionConfig, authorities: Option<AuthorityRegistries>| #[trigger]
        retains(after.tables@.last(), before, config, authorities) && (authorities matches Some(
            live,
        ) ==> live == registries)
}

/// A table was registered, or tokens were minted and freed. Literals and forms
/// may have become known.
pub open spec fn host_step(
    before: Catalog,
    before_registries: AuthorityRegistries,
    after: Catalog,
    after_registries: AuthorityRegistries,
) -> bool {
    ||| registers(before, after, before_registries) && after_registries == before_registries
    ||| before.tables@ == after.tables@ && later(before_registries, after_registries)
        && after_registries.well_formed()
}

/// A catalog and the live registries after a number of steps from a catalog
/// without tables.
pub open spec fn reachable(
    catalog: Catalog,
    registries: AuthorityRegistries,
    steps: nat,
) -> bool
    decreases steps,
{
    if steps == 0 {
        catalog.tables@.len() == 0 && registries.well_formed()
    } else {
        exists|before: Catalog, live: AuthorityRegistries|
            reachable(before, live, (steps - 1) as nat) && #[trigger] host_step(
                before,
                live,
                catalog,
                registries,
            )
    }
}

/// The merges of a catalog are authentic, however it came about.
pub proof fn law_reachable_merges_are_authentic(
    catalog: Catalog,
    registries: AuthorityRegistries,
    steps: nat,
)
    requires
        reachable(catalog, registries, steps),
    ensures
        registries.well_formed(),
        merges_authentic(catalog, registries),
    decreases steps,
{
    if steps > 0 {
        let (before, live) = choose|before: Catalog, live: AuthorityRegistries|
            reachable(before, live, (steps - 1) as nat) && #[trigger] host_step(
                before,
                live,
                catalog,
                registries,
            );
        law_reachable_merges_are_authentic(before, live, (steps - 1) as nat);
        if registers(before, catalog, live) && registries == live {
            let (config, authorities) = choose|
                config: FunctionConfig,
                authorities: Option<AuthorityRegistries>,
            | #[trigger]
                retains(catalog.tables@.last(), before, config, authorities) && (
                authorities matches Some(registered) ==> registered == live);
            law_registration_keeps_merges_authentic(before, catalog, config, authorities, live);
        } else {
            law_minting_and_freeing_keep_merges_authentic(before, live, registries);
        }
    }
}

/// A plan may run in the state that admitted it: whatever tables were registered
/// and whatever tokens were minted and freed before, the live registries
/// authorize it.
pub proof fn law_admission_authorizes(
    catalog: Catalog,
    registries: AuthorityRegistries,
    steps: nat,
    seminaive: bool,
    body: Seq<Atom>,
    head: Seq<CoreAction>,
    plan: PlanView,
)
    requires
        reachable(catalog, registries, steps),
        scalar_plan(catalog, registries, seminaive, body, head) == Ok::<
            Option<PlanView>,
            RejectionView,
        >(Some(plan)),
    ensures
        authorized(plan, registries),
{
    law_reachable_merges_are_authentic(catalog, registries, steps);
    assert forall|i: int, k: int|
        0 <= i < catalog.tables@.len() && 0 <= k < catalog.tables@[i].merge_program@.ops.len()
            && registration_live(catalog.tables@[i].merge_program@, registries) implies op_live(
        registries,
        #[trigger] catalog.tables@[i].merge_program@.ops[k],
    ) by {
        assert(merge_authentic(catalog.tables@[i].merge_program@, registries));
    }
    law_admitted_plans_are_authorized(catalog, registries, seminaive, body, head, plan);
}

/// A plan that lost its authority after it was admitted never regains it.
pub proof fn law_lost_authority_never_returns(
    catalog: Catalog,
    admitted: AuthorityRegistries,
    seminaive: bool,
    body: Seq<Atom>,
    head: Seq<CoreAction>,
    plan: PlanView,
    lost: AuthorityRegistries,
    live: AuthorityRegistries,
)
    requires
        admitted.well_formed(),
        scalar_plan(catalog, admitted, seminaive, body, head) == Ok::<
            Option<PlanView>,
            RejectionView,
        >(Some(plan)),
        later(admitted, lost),
        !authorized(plan, lost),
        later(lost, live),
    ensures
        !authorized(plan, live),
{
    law_admission_pins_live_epochs(catalog, admitted, seminaive, body, head, plan);
    if authorized(plan, live) {
        assert forall|token: u32| #[trigger]
            plan.required_authority_epochs.contains_key(token) implies same_token(
            lost,
            live,
            token,
        ) by {
            assert(admitted.authority_epochs@.contains_key(token));
            assert(same_token(lost, live, token) || (entry(
                live.authority_epochs@,
                token,
            ) matches Some(epoch) ==> epoch > lost.last_epoch));
        }
        assert forall|token: u32| #[trigger] plan_tokens(plan).contains(token) implies same_token(
            lost,
            live,
            token,
        ) by {
            assert(plan.required_authority_epochs.dom().contains(token));
        }
        assert(all_live(plan.required_native_primitives, lost.native_primitives@)) by {
            assert forall|token: u32| #[trigger]
                plan.required_native_primitives.contains_key(token) implies entry(
                lost.native_primitives@,
                token,
            ) == Some(plan.required_native_primitives[token]) by {
                assert(plan_tokens(plan).contains(token));
            }
        }
        assert(all_live(
            plan.required_native_scalar_primitives,
            lost.native_scalar_primitives@,
        )) by {
            assert forall|token: u32| #[trigger]
                plan.required_native_scalar_primitives.contains_key(token) implies entry(
                lost.native_scalar_primitives@,
                token,
            ) == Some(plan.required_native_scalar_primitives[token]) by {
                assert(plan_tokens(plan).contains(token));
            }
        }
        assert(all_live(plan.required_fd_descriptors, fd_views(lost.fd_descriptors@))) by {
            assert forall|token: u32| #[trigger]
                plan.required_fd_descriptors.contains_key(token) implies entry(
                fd_views(lost.fd_descriptors@),
                token,
            ) == Some(plan.required_fd_descriptors[token]) by {
                assert(plan_tokens(plan).contains(token));
            }
        }
        assert forall|token: u32| #[trigger]
            plan.required_fresh_tokens.contains(token) implies lost.fresh_tokens@.contains(
            token,
        ) by {
            assert(plan_tokens(plan).contains(token));
        }
    }
}

} // verus!
