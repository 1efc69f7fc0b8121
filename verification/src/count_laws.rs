//! How many results, events and fresh ids a plan has: as many as its head asks
//! for.

use vstd::prelude::*;

#[allow(unused_imports)]
use crate::action_body::scalar_body;
#[allow(unused_imports)]
use crate::action_plan::{PlanView, ReadView, SlotSourceView, ValueRefView};
#[allow(unused_imports)]
use crate::action_rule::{
    action_step, action_steps, bind_slot, fd_let, let_step, scalar_plan, set_if_empty_let, set_step,
    stream_of, term_values, StreamView,
};
#[allow(unused_imports)]
use crate::authority::{entry, fd_view_name, fd_views, AuthorityRegistries, FdDescriptorView};
#[allow(unused_imports)]
use crate::catalog::{table_at, table_named, Catalog, TableInfo};
#[allow(unused_imports)]
use crate::ir::{
    Atom, AtomTerm, CoreAction, ExternalFunctionId, FunctionId, RuleActionCall, RuleVar,
};
#[allow(unused_imports)]
use crate::plan_laws::lemma_classify_keep;
#[allow(unused_imports)]
use crate::rejection::RejectionView;

verus! {

/// An action that takes part in event order: all but aliases.
pub open spec fn timed(action: CoreAction) -> bool {
    action is Let || action is SetRow || action is Change
}

/// A `Let` of a primitive whose token allocates ids.
pub open spec fn allocating(registries: AuthorityRegistries, action: CoreAction) -> bool {
    match action {
        CoreAction::Let(_, RuleActionCall::Primitive { id, .. }, _) => {
            registries.fresh_tokens@.contains(id.rep)
        },
        _ => false,
    }
}

/// One for a condition that holds, and zero otherwise.
pub open spec fn one_if(condition: bool) -> nat {
    if condition {
        1
    } else {
        0
    }
}

/// The number of `Let` actions from `from` on.
pub open spec fn let_count(head: Seq<CoreAction>, from: int) -> nat
    decreases head.len() - from,
{
    if 0 <= from < head.len() {
        one_if(head[from] is Let) + let_count(head, from + 1)
    } else {
        0
    }
}

/// The number of timed actions from `from` on.
pub open spec fn timed_count(head: Seq<CoreAction>, from: int) -> nat
    decreases head.len() - from,
{
    if 0 <= from < head.len() {
        one_if(timed(head[from])) + timed_count(head, from + 1)
    } else {
        0
    }
}

/// The number of allocations from `from` on.
pub open spec fn allocation_count(
    registries: AuthorityRegistries,
    head: Seq<CoreAction>,
    from: int,
) -> nat
    decreases head.len() - from,
{
    if 0 <= from < head.len() {
        one_if(allocating(registries, head[from])) + allocation_count(registries, head, from + 1)
    } else {
        0
    }
}

/// A stream has so many more results, events and allocations.
pub open spec fn grown(
    before: StreamView,
    after: StreamView,
    slots: nat,
    events: nat,
    fresh: nat,
) -> bool {
    &&& after.slots.len() == before.slots.len() + slots
    &&& after.runtime_ordinal == before.runtime_ordinal + events
    &&& after.fresh_rank == before.fresh_rank + fresh
}

proof fn lemma_set_grows(
    catalog: Catalog,
    live_epochs: Map<u32, u64>,
    stream: StreamView,
    raw: usize,
    call: RuleActionCall,
    arguments: Seq<AtomTerm>,
    values: Seq<AtomTerm>,
)
    ensures
        set_step(catalog, live_epochs, stream, raw, call, arguments, values) matches Ok(after)
            ==> grown(stream, after, 0, 0, 0),
{
    match call {
        RuleActionCall::Table { id } => match table_at(catalog, id) {
            Ok(info) => lemma_classify_keep(catalog, live_epochs, stream, id, info),
            Err(_) => {},
        },
        _ => {},
    }
}

proof fn lemma_set_if_empty_grows(
    catalog: Catalog,
    live_epochs: Map<u32, u64>,
    stream: StreamView,
    raw: usize,
    variable: RuleVar,
    target: FunctionId,
    info: TableInfo,
    n_keys: usize,
    out_arity: usize,
    arguments: Seq<AtomTerm>,
)
    ensures
        set_if_empty_let(
            catalog,
            live_epochs,
            stream,
            raw,
            variable,
            target,
            info,
            n_keys,
            out_arity,
            arguments,
        ) matches Ok(after) ==> grown(stream, after, 1, 0, 0),
{
    match term_values(
        catalog,
        stream.bindings,
        arguments.take(n_keys as int),
        info.schema@.take(n_keys as int),
        "set-if-empty key"@,
        0,
        Seq::empty(),
    ) {
        Ok(keys) => match term_values(
            catalog,
            stream.bindings,
            arguments.skip(n_keys as int),
            info.schema@.skip(n_keys as int),
            "set-if-empty default"@,
            0,
            Seq::empty(),
        ) {
            Ok(defaults) => match bind_slot(
                stream,
                raw,
                variable,
                SlotSourceView::Read(ReadView::SetIfEmpty { target, n_keys, keys, defaults }),
            ) {
                Ok(bound) => lemma_classify_keep(catalog, live_epochs, bound, target, info),
                Err(_) => {},
            },
            Err(_) => {},
        },
        Err(_) => {},
    }
}

proof fn lemma_fd_grows(
    catalog: Catalog,
    live_epochs: Map<u32, u64>,
    stream: StreamView,
    raw: usize,
    variable: RuleVar,
    token: ExternalFunctionId,
    descriptor: FdDescriptorView,
    arguments: Seq<AtomTerm>,
)
    ensures
        fd_let(
            catalog,
            live_epochs,
            stream,
            raw,
            variable,
            token,
            descriptor,
            arguments,
        ) matches Ok(after) ==> grown(stream, after, 1, 0, 0),
{
    let remembered = StreamView {
        required_fd_descriptors: stream.required_fd_descriptors.insert(token.rep, descriptor),
        ..stream
    };
    match (table_named(catalog, fd_view_name(descriptor)), descriptor) {
        (Ok(target), FdDescriptorView::SetIfEmpty { n_keys, out_arity, .. }) => {
            lemma_set_if_empty_grows(
                catalog,
                live_epochs,
                remembered,
                raw,
                variable,
                target,
                catalog.tables@[target.rep as int],
                n_keys,
                out_arity,
                arguments,
            );
        },
        _ => {},
    }
}

proof fn lemma_let_grows(
    catalog: Catalog,
    registries: AuthorityRegistries,
    stream: StreamView,
    raw: usize,
    variable: RuleVar,
    call: RuleActionCall,
    arguments: Seq<AtomTerm>,
)
    ensures
        let_step(catalog, registries, stream, raw, variable, call, arguments) matches Ok(after)
            ==> grown(
            stream,
            after,
            1,
            0,
            one_if(call matches RuleActionCall::Primitive { id, .. }
                && registries.fresh_tokens@.contains(id.rep)),
        ),
{
    match call {
        RuleActionCall::Primitive { id, .. } => match entry(
            fd_views(registries.fd_descriptors@),
            id.rep,
        ) {
            Some(descriptor) => lemma_fd_grows(
                catalog,
                registries.authority_epochs@,
                stream,
                raw,
                variable,
                id,
                descriptor,
                arguments,
            ),
            None => {},
        },
        _ => {},
    }
}

/// One action adds what it asks for.
pub proof fn lemma_step_grows(
    catalog: Catalog,
    registries: AuthorityRegistries,
    rows: Seq<(FunctionId, Seq<ValueRefView>)>,
    stream: StreamView,
    raw: usize,
    action: CoreAction,
)
    ensures
        action_step(catalog, registries, rows, stream, raw, action) matches Ok(after) ==> grown(
            stream,
            after,
            one_if(action is Let),
            one_if(timed(action)),
            one_if(allocating(registries, action)),
        ),
{
    match action {
        CoreAction::Let(variable, call, arguments) => lemma_let_grows(
            catalog,
            registries,
            stream,
            raw,
            variable,
            call,
            arguments@,
        ),
        CoreAction::SetRow(call, arguments, values) => lemma_set_grows(
            catalog,
            registries.authority_epochs@,
            stream,
            raw,
            call,
            arguments@,
            values@,
        ),
        _ => {},
    }
}

/// The actions from `from` on add what they ask for.
pub proof fn lemma_steps_grow(
    catalog: Catalog,
    registries: AuthorityRegistries,
    rows: Seq<(FunctionId, Seq<ValueRefView>)>,
    stream: StreamView,
    head: Seq<CoreAction>,
    from: int,
)
    ensures
        action_steps(catalog, registries, rows, stream, head, from) matches Ok(after) ==> grown(
            stream,
            after,
            let_count(head, from),
            timed_count(head, from),
            allocation_count(registries, head, from),
        ),
    decreases head.len() - from,
{
    if 0 <= from < head.len() {
        lemma_step_grows(catalog, registries, rows, stream, from as usize, head[from]);
        match action_step(catalog, registries, rows, stream, from as usize, head[from]) {
            Ok(after) => lemma_steps_grow(catalog, registries, rows, after, head, from + 1),
            Err(_) => {},
        }
    }
}

/// A plan has one result for each `Let` of its head, one event for each action
/// but the aliases, and one fresh result for each `Let` of a fresh token.
pub proof fn law_plans_count_as_their_heads(
    catalog: Catalog,
    registries: AuthorityRegistries,
    seminaive: bool,
    body: Seq<Atom>,
    head: Seq<CoreAction>,
    plan: PlanView,
)
    requires
        scalar_plan(catalog, registries, seminaive, body, head) == Ok::<
            Option<PlanView>,
            RejectionView,
        >(Some(plan)),
    ensures
        plan.slots.len() == let_count(head, 0),
        plan.action_count == timed_count(head, 0),
        plan.fresh_slots == allocation_count(registries, head, 0),
{
    reveal(scalar_plan);
    match scalar_body(catalog, registries, body) {
        Ok(matched) => lemma_steps_grow(
            catalog,
            registries,
            matched.rows,
            stream_of(matched),
            head,
            0,
        ),
        Err(_) => {},
    }
}

} // verus!
