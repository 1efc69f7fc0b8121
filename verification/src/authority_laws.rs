//! What admission promises of authorities: a plan is authorized when it is
//! admitted, and stops being so as soon as one of its tokens is minted anew.

use vstd::prelude::*;

#[allow(unused_imports)]
use crate::action_body::{lemma_mark, scalar_body, unmarked};
#[allow(unused_imports)]
use crate::action_plan::{all_live, authorized, PlanView, ReadView, SlotSourceView, ValueRefView};
#[allow(unused_imports)]
use crate::action_rule::{
    action_step, action_steps, ascending, bind_slot, classify, epoch_fault, epochs_fit, fd_let,
    let_step, required_tokens, retain_closure, retain_op, retain_ops, retain_table, scalar_plan,
    set_if_empty_let, term_values, stream_of, StreamView,
};
#[allow(unused_imports)]
use crate::authority::{entry, fd_view_name, fd_views, AuthorityRegistries, FdDescriptorView};
#[allow(unused_imports)]
use crate::body_laws::law_body_authorities_are_live;
#[allow(unused_imports)]
use crate::catalog::{table_at, table_named, Catalog, TableInfo};
#[allow(unused_imports)]
use crate::ir::{
    Atom, AtomTerm, CoreAction, ExternalFunctionId, FunctionId, RuleActionCall, RuleVar,
};
#[allow(unused_imports)]
use crate::merge_program::{MergeOpKindView, MergeOpView, MergePrimitiveView, MergeProgramView};
#[allow(unused_imports)]
use crate::rejection::RejectionView;
#[allow(unused_imports)]
use crate::scalar_expr::ScalarAuthority;

verus! {

/// The authority of an expression is what the registries hold for its token.
pub open spec fn authority_live(
    registries: AuthorityRegistries,
    token: ExternalFunctionId,
    authority: ScalarAuthority,
) -> bool {
    match authority {
        ScalarAuthority::Native(tag) => entry(registries.native_primitives@, token.rep) == Some(
            tag,
        ),
        ScalarAuthority::Typed(descriptor) => entry(
            registries.native_scalar_primitives@,
            token.rep,
        ) == Some(descriptor),
    }
}

/// The authority of a merge operation is what the registries hold for its
/// token.
pub open spec fn op_live(registries: AuthorityRegistries, op: MergeOpView) -> bool {
    match op.kind {
        MergeOpKindView::Primitive { primitive, .. } => match primitive {
            MergePrimitiveView::Fresh { token } => registries.fresh_tokens@.contains(token.rep),
            MergePrimitiveView::Fd { token, descriptor } => entry(
                fd_views(registries.fd_descriptors@),
                token.rep,
            ) == Some(descriptor),
            MergePrimitiveView::Scalar(expression) => authority_live(
                registries,
                expression.token,
                expression.authority,
            ),
            MergePrimitiveView::Unauthenticated { .. } => true,
        },
        _ => true,
    }
}

/// The epochs under which a merge was registered are live.
pub open spec fn registration_live(
    program: MergeProgramView,
    registries: AuthorityRegistries,
) -> bool {
    all_live(program.required_authorities, registries.authority_epochs@)
}

/// The authorities of every merge whose registration is live are what the
/// registries hold.
pub open spec fn merges_live(catalog: Catalog, registries: AuthorityRegistries) -> bool {
    forall|i: int, k: int|
        0 <= i < catalog.tables@.len() && 0 <= k < catalog.tables@[i].merge_program@.ops.len()
            && registration_live(catalog.tables@[i].merge_program@, registries) ==> op_live(
            registries,
            #[trigger] catalog.tables@[i].merge_program@.ops[k],
        )
}

/// The epochs that a stream rests on are live.
pub open spec fn epochs_live(stream: StreamView, registries: AuthorityRegistries) -> bool {
    all_live(stream.required_authority_epochs, registries.authority_epochs@)
}

/// The authorities that a stream rests on are live.
pub open spec fn stream_live(stream: StreamView, registries: AuthorityRegistries) -> bool {
    &&& all_live(stream.required_native_primitives, registries.native_primitives@)
    &&& all_live(stream.required_native_scalar_primitives, registries.native_scalar_primitives@)
    &&& stream.required_fresh_tokens.subset_of(registries.fresh_tokens@)
    &&& all_live(stream.required_fd_descriptors, fd_views(registries.fd_descriptors@))
}

/// A step keeps epochs live and, over live merges, all authorities.
pub open spec fn keeps_live(
    before: StreamView,
    after: StreamView,
    registries: AuthorityRegistries,
    merges: bool,
) -> bool {
    &&& epochs_live(before, registries) ==> epochs_live(after, registries)
    &&& merges && stream_live(before, registries) ==> stream_live(after, registries)
}

proof fn lemma_retain_ops(
    registries: AuthorityRegistries,
    stream: StreamView,
    target: FunctionId,
    ops: Seq<MergeOpView>,
    from: int,
    live: bool,
)
    requires
        0 <= from <= ops.len(),
        live ==> forall|k: int| 0 <= k < ops.len() ==> op_live(registries, #[trigger] ops[k]),
    ensures
        retain_ops(stream, target, ops, from) matches Ok(after) ==> keeps_live(
            stream,
            after,
            registries,
            live,
        ) && after.required_authority_epochs == stream.required_authority_epochs,
    decreases ops.len() - from,
{
    if from < ops.len() {
        match retain_op(stream, target, ops[from]) {
            Ok(after) => {
                if live {
                    assert(op_live(registries, ops[from]));
                }
                lemma_retain_ops(registries, after, target, ops, from + 1, live);
            },
            Err(_) => {},
        }
    }
}

proof fn lemma_retain_table(
    registries: AuthorityRegistries,
    stream: StreamView,
    target: FunctionId,
    info: TableInfo,
    live: bool,
)
    requires
        live && registration_live(info.merge_program@, registries) ==> forall|k: int|
            0 <= k < info.merge_program@.ops.len() ==> op_live(
                registries,
                #[trigger] info.merge_program@.ops[k],
            ),
    ensures
        retain_table(registries.authority_epochs@, stream, target, info) matches Ok(after)
            ==> keeps_live(stream, after, registries, live),
{
    let program = info.merge_program@;
    let remembered = StreamView {
        required_authority_epochs: stream.required_authority_epochs.union_prefer_right(
            program.required_authorities,
        ),
        ..stream
    };
    let live_ops = live && registration_live(program, registries);
    lemma_retain_ops(registries, remembered, target, program.ops, 0, live_ops);
    if all_live(program.required_authorities, registries.authority_epochs@) && epochs_live(
        stream,
        registries,
    ) {
        assert forall|key: u32| #[trigger]
            remembered.required_authority_epochs.contains_key(key) implies entry(
            registries.authority_epochs@,
            key,
        ) == Some(remembered.required_authority_epochs[key]) by {
            if program.required_authorities.contains_key(key) {
            } else {
                assert(stream.required_authority_epochs.contains_key(key));
            }
        }
    }
}

proof fn lemma_retain_closure(
    catalog: Catalog,
    registries: AuthorityRegistries,
    stream: StreamView,
    pending: Seq<u32>,
    visited: Seq<bool>,
)
    requires
        visited.len() == catalog.tables@.len(),
    ensures
        retain_closure(
            catalog,
            registries.authority_epochs@,
            stream,
            pending,
            visited,
        ) matches Ok(after) ==> keeps_live(
            stream,
            after,
            registries,
            merges_live(catalog, registries),
        ),
    decreases unmarked(visited, catalog.tables@.len()), pending.len(),
{
    let live_epochs = registries.authority_epochs@;
    if pending.len() > 0 {
        let target = FunctionId { rep: pending.last() };
        match table_at(catalog, target) {
            Ok(info) => {
                if visited[target.rep as int] {
                    lemma_retain_closure(
                        catalog,
                        registries,
                        stream,
                        pending.drop_last(),
                        visited,
                    );
                } else {
                    let live = merges_live(catalog, registries);
                    if live && registration_live(info.merge_program@, registries) {
                        assert forall|k: int|
                            0 <= k < info.merge_program@.ops.len() implies op_live(
                            registries,
                            #[trigger] info.merge_program@.ops[k],
                        ) by {
                            let table = catalog.tables@[target.rep as int];
                            assert(op_live(registries, table.merge_program@.ops[k]));
                        }
                    }
                    lemma_retain_table(registries, stream, target, info, live);
                    lemma_mark(visited, target.rep as int, catalog.tables@.len());
                    match retain_table(live_epochs, stream, target, info) {
                        Ok(after) => lemma_retain_closure(
                            catalog,
                            registries,
                            after,
                            pending.drop_last() + ascending(
                                info.merge_program.write_targets@,
                                catalog.tables@.len(),
                            ),
                            visited.update(target.rep as int, true),
                        ),
                        Err(_) => {},
                    }
                }
            },
            Err(_) => {},
        }
    }
}

proof fn lemma_classify(
    catalog: Catalog,
    registries: AuthorityRegistries,
    stream: StreamView,
    target: FunctionId,
    info: TableInfo,
)
    ensures
        classify(catalog, registries.authority_epochs@, stream, target, info) matches Ok(
            (after, _),
        ) ==> keeps_live(stream, after, registries, merges_live(catalog, registries)),
{
    lemma_retain_closure(
        catalog,
        registries,
        stream,
        seq![target.rep],
        Seq::new(catalog.tables@.len(), |i: int| false),
    );
}

proof fn lemma_let_step(
    catalog: Catalog,
    registries: AuthorityRegistries,
    stream: StreamView,
    raw: usize,
    variable: RuleVar,
    call: RuleActionCall,
    arguments: Seq<AtomTerm>,
)
    ensures
        let_step(catalog, registries, stream, raw, variable, call, arguments) matches Ok(after)
            ==> keeps_live(stream, after, registries, merges_live(catalog, registries)),
{
    match call {
        RuleActionCall::Table { .. } => {},
        RuleActionCall::Primitive { id, .. } => {
            match entry(fd_views(registries.fd_descriptors@), id.rep) {
                Some(descriptor) => lemma_fd_let(
                    catalog,
                    registries,
                    stream,
                    raw,
                    variable,
                    id,
                    descriptor,
                    arguments,
                ),
                None => {},
            }
        },
    }
}

proof fn lemma_fd_let(
    catalog: Catalog,
    registries: AuthorityRegistries,
    stream: StreamView,
    raw: usize,
    variable: RuleVar,
    token: ExternalFunctionId,
    descriptor: FdDescriptorView,
    arguments: Seq<AtomTerm>,
)
    requires
        entry(fd_views(registries.fd_descriptors@), token.rep) == Some(descriptor),
    ensures
        fd_let(
            catalog,
            registries.authority_epochs@,
            stream,
            raw,
            variable,
            token,
            descriptor,
            arguments,
        ) matches Ok(after) ==> keeps_live(
            stream,
            after,
            registries,
            merges_live(catalog, registries),
        ),
{
    let remembered = StreamView {
        required_fd_descriptors: stream.required_fd_descriptors.insert(token.rep, descriptor),
        ..stream
    };
    assert(keeps_live(stream, remembered, registries, merges_live(catalog, registries)));
    match table_named(catalog, fd_view_name(descriptor)) {
        Ok(target) => {
            let info = catalog.tables@[target.rep as int];
            match descriptor {
                FdDescriptorView::SetIfEmpty { n_keys, out_arity, .. } => lemma_set_if_empty_let(
                    catalog,
                    registries,
                    remembered,
                    raw,
                    variable,
                    target,
                    info,
                    n_keys,
                    out_arity,
                    arguments,
                ),
                _ => {},
            }
        },
        Err(_) => {},
    }
}

proof fn lemma_set_if_empty_let(
    catalog: Catalog,
    registries: AuthorityRegistries,
    stream: StreamView,
    raw: usize,
    variable: RuleVar,
    target: FunctionId,
    info: TableInfo,
    n_keys: usize,
    out_arity: usize,
    arguments: Seq<AtomTerm>,
)
    ensures
        set_if_empty_let(
            catalog,
            registries.authority_epochs@,
            stream,
            raw,
            variable,
            target,
            info,
            n_keys,
            out_arity,
            arguments,
        ) matches Ok(after) ==> keeps_live(
            stream,
            after,
            registries,
            merges_live(catalog, registries),
        ),
{
    match term_values(
        catalog,
        stream.bindings,
        arguments.take(n_keys as int),
        info.schema@.take(n_keys as int),
        "set-if-empty key"@,
        0,
        Seq::empty(),
    ) {
        Ok(keys) => match term_values(
            catalog,
            stream.bindings,
            arguments.skip(n_keys as int),
            info.schema@.skip(n_keys as int),
            "set-if-empty default"@,
            0,
            Seq::empty(),
        ) {
            Ok(defaults) => match bind_slot(
                stream,
                raw,
                variable,
                SlotSourceView::Read(
                    ReadView::SetIfEmpty { target, n_keys, keys, defaults },
                ),
            ) {
                Ok(bound) => lemma_classify(catalog, registries, bound, target, info),
                Err(_) => {},
            },
            Err(_) => {},
        },
        Err(_) => {},
    }
}

proof fn lemma_action_step(
    catalog: Catalog,
    registries: AuthorityRegistries,
    rows: Seq<(FunctionId, Seq<ValueRefView>)>,
    stream: StreamView,
    raw: usize,
    action: CoreAction,
)
    ensures
        action_step(catalog, registries, rows, stream, raw, action) matches Ok(after)
            ==> keeps_live(stream, after, registries, merges_live(catalog, registries)),
{
    match action {
        CoreAction::Let(variable, call, arguments) => lemma_let_step(
            catalog,
            registries,
            stream,
            raw,
            variable,
            call,
            arguments@,
        ),
        CoreAction::SetRow(call, _, _) => match call {
            RuleActionCall::Table { id } => match table_at(catalog, id) {
                Ok(info) => lemma_classify(catalog, registries, stream, id, info),
                Err(_) => {},
            },
            _ => {},
        },
        _ => {},
    }
}

proof fn lemma_action_steps(
    catalog: Catalog,
    registries: AuthorityRegistries,
    rows: Seq<(FunctionId, Seq<ValueRefView>)>,
    stream: StreamView,
    actions: Seq<CoreAction>,
    from: int,
)
    ensures
        action_steps(catalog, registries, rows, stream, actions, from) matches Ok(after)
            ==> keeps_live(stream, after, registries, merges_live(catalog, registries)),
    decreases actions.len() - from,
{
    if 0 <= from < actions.len() {
        lemma_action_step(catalog, registries, rows, stream, from as usize, actions[from]);
        match action_step(catalog, registries, rows, stream, from as usize, actions[from]) {
            Ok(after) => lemma_action_steps(
                catalog,
                registries,
                rows,
                after,
                actions,
                from + 1,
            ),
            Err(_) => {},
        }
    }
}

/// Every token that a plan rests on.
pub open spec fn plan_tokens(plan: PlanView) -> Set<u32> {
    plan.required_native_primitives.dom().union(
        plan.required_native_scalar_primitives.dom(),
    ).union(plan.required_fresh_tokens).union(plan.required_fd_descriptors.dom())
}

/// Admission pins the epoch of every token that the plan rests on, and every
/// pinned epoch is live.
pub proof fn law_admission_pins_live_epochs(
    catalog: Catalog,
    registries: AuthorityRegistries,
    seminaive: bool,
    body: Seq<Atom>,
    head: Seq<CoreAction>,
    plan: PlanView,
)
    requires
        scalar_plan(catalog, registries, seminaive, body, head) == Ok::<
            Option<PlanView>,
            RejectionView,
        >(Some(plan)),
    ensures
        all_live(plan.required_authority_epochs, registries.authority_epochs@),
        plan_tokens(plan).subset_of(plan.required_authority_epochs.dom()),
{
    reveal(scalar_plan);
    match scalar_body(catalog, registries, body) {
        Ok(matched) => {
            let start = stream_of(matched);
            lemma_action_steps(catalog, registries, matched.rows, start, head, 0);
            match action_steps(catalog, registries, matched.rows, start, head, 0) {
                Ok(stream) => {
                    let live = registries.authority_epochs@;
                    assert(epochs_live(stream, registries));
                    assert(epochs_fit(stream, live));
                    assert(plan_tokens(plan) =~= required_tokens(stream));
                    assert forall|key: u32| #[trigger]
                        plan.required_authority_epochs.contains_key(key) implies entry(live, key)
                        == Some(plan.required_authority_epochs[key]) by {
                        if live.restrict(required_tokens(stream)).contains_key(key) {
                        } else {
                            assert(stream.required_authority_epochs.contains_key(key));
                        }
                    }
                    assert forall|token: u32| #[trigger]
                        plan_tokens(plan).contains(
                        token,
                    ) implies plan.required_authority_epochs.dom().contains(token) by {
                        assert(epoch_fault(stream, live, token) is None);
                        assert(live.contains_key(token));
                        assert(live.restrict(required_tokens(stream)).contains_key(token));
                    }
                },
                Err(_) => {},
            }
        },
        Err(_) => {},
    }
}

/// A plan is authorized by the registries it was admitted with, as long as
/// those hold what the merges of live registrations rest on.
pub proof fn law_admitted_plans_are_authorized(
    catalog: Catalog,
    registries: AuthorityRegistries,
    seminaive: bool,
    body: Seq<Atom>,
    head: Seq<CoreAction>,
    plan: PlanView,
)
    requires
        scalar_plan(catalog, registries, seminaive, body, head) == Ok::<
            Option<PlanView>,
            RejectionView,
        >(Some(plan)),
        merges_live(catalog, registries),
    ensures
        authorized(plan, registries),
{
    law_admission_pins_live_epochs(catalog, registries, seminaive, body, head, plan);
    reveal(scalar_plan);
    match scalar_body(catalog, registries, body) {
        Ok(matched) => {
            law_body_authorities_are_live(catalog, registries, body, matched);
            let start = stream_of(matched);
            assert(stream_live(start, registries));
            lemma_action_steps(catalog, registries, matched.rows, start, head, 0);
        },
        Err(_) => {},
    }
}

/// A plan is not authorized once a token that it rests on was freed or minted
/// anew, whatever the token means now.
pub proof fn law_reminted_tokens_lose_authority(
    catalog: Catalog,
    registries: AuthorityRegistries,
    seminaive: bool,
    body: Seq<Atom>,
    head: Seq<CoreAction>,
    plan: PlanView,
    live: AuthorityRegistries,
    token: u32,
)
    requires
        scalar_plan(catalog, registries, seminaive, body, head) == Ok::<
            Option<PlanView>,
            RejectionView,
        >(Some(plan)),
        plan_tokens(plan).contains(token),
        entry(live.authority_epochs@, token) != entry(registries.authority_epochs@, token),
    ensures
        !authorized(plan, live),
{
    law_admission_pins_live_epochs(catalog, registries, seminaive, body, head, plan);
    assert(plan.required_authority_epochs.contains_key(token));
}

} // verus!
