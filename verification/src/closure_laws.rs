//! What admission promises of generic merges: a plan rests on every merge that
//! its writes can set off, however far down the chain of writes.

use vstd::prelude::*;

#[allow(unused_imports)]
use crate::action_body::{lemma_mark, scalar_body, unmarked};
#[allow(unused_imports)]
use crate::action_plan::{
    all_live, authorized, EffectView, PlanView, ReadView, ScalarEffectKind, SlotSourceView,
    ValueRefView,
};
#[allow(unused_imports)]
use crate::action_rule::{
    action_step, action_steps, ascending, bind_slot, classify, fd_let, let_step, required_tokens,
    retain_closure, retain_op, retain_ops, retain_table, scalar_plan, set_if_empty_let, set_step,
    stream_of, term_values, with_effect, StreamView,
};
#[allow(unused_imports)]
use crate::authority::{entry, fd_view_name, fd_views, AuthorityRegistries, FdDescriptorView};
#[allow(unused_imports)]
use crate::authority_laws::{law_admission_pins_live_epochs, plan_tokens};
#[allow(unused_imports)]
use crate::catalog::{table_named, tables_named, Catalog, TableInfo};
#[allow(unused_imports)]
use crate::ir::{
    Atom, AtomTerm, CoreAction, ExternalFunctionId, FunctionId, RuleActionCall, RuleVar,
};
#[allow(unused_imports)]
use crate::merge_program::{MergeOpKindView, MergeOpView, MergePrimitiveView, MergeProgramView};
#[allow(unused_imports)]
use crate::rejection::RejectionView;

verus! {

/// The merge of one table writes another.
pub open spec fn merge_writes(catalog: Catalog, from: u32, to: u32) -> bool {
    from < catalog.tables@.len() && catalog.tables@[from as int].merge_program.write_targets@.contains(
        to,
    )
}

/// A write to `from` can reach `to` through that many merges.
pub open spec fn merge_reaches(catalog: Catalog, from: u32, to: u32, merges: nat) -> bool
    decreases merges,
{
    if merges == 0 {
        from == to
    } else {
        exists|between: u32|
            merge_reaches(catalog, from, between, (merges - 1) as nat) && #[trigger] merge_writes(
                catalog,
                between,
                to,
            )
    }
}

/// The token of an authenticated primitive operation.
pub open spec fn op_token(op: MergeOpView) -> Option<u32> {
    match op.kind {
        MergeOpKindView::Primitive { primitive, .. } => match primitive {
            MergePrimitiveView::Fresh { token } => Some(token.rep),
            MergePrimitiveView::Fd { token, .. } => Some(token.rep),
            MergePrimitiveView::Scalar(expression) => Some(expression.token.rep),
            MergePrimitiveView::Unauthenticated { .. } => None,
        },
        _ => None,
    }
}

/// An operation that no authority stands behind.
pub open spec fn unauthenticated(op: MergeOpView) -> bool {
    match op.kind {
        MergeOpKindView::Primitive { primitive, .. } => primitive is Unauthenticated,
        _ => false,
    }
}

/// Every operation of a merge is authenticated, its tokens are among `tokens`,
/// and the epochs of its registration are among `epochs`.
pub open spec fn merge_covered(
    program: MergeProgramView,
    tokens: Set<u32>,
    epochs: Map<u32, u64>,
) -> bool {
    &&& all_live(program.required_authorities, epochs)
    &&& forall|k: int|
        0 <= k < program.ops.len() ==> !unauthenticated(#[trigger] program.ops[k]) && (op_token(
            program.ops[k],
        ) matches Some(token) ==> tokens.contains(token))
}

/// What a stream rests on covers the merge of a table.
pub open spec fn table_covered(catalog: Catalog, stream: StreamView, table: u32) -> bool {
    merge_covered(
        catalog.tables@[table as int].merge_program@,
        required_tokens(stream),
        stream.required_authority_epochs,
    )
}

/// A stream only rests on more than before, and its epochs stay live.
spec fn grows(before: StreamView, after: StreamView, live_epochs: Map<u32, u64>) -> bool {
    &&& required_tokens(before).subset_of(required_tokens(after))
    &&& before.required_authority_epochs.dom().subset_of(after.required_authority_epochs.dom())
    &&& all_live(before.required_authority_epochs, live_epochs) ==> all_live(
        after.required_authority_epochs,
        live_epochs,
    )
}

proof fn lemma_grows_transitive(
    a: StreamView,
    b: StreamView,
    c: StreamView,
    live_epochs: Map<u32, u64>,
)
    requires
        grows(a, b, live_epochs),
        grows(b, c, live_epochs),
    ensures
        grows(a, c, live_epochs),
{
}

proof fn lemma_covered_grows(
    catalog: Catalog,
    before: StreamView,
    after: StreamView,
    live_epochs: Map<u32, u64>,
    table: u32,
)
    requires
        grows(before, after, live_epochs),
        all_live(before.required_authority_epochs, live_epochs),
        table_covered(catalog, before, table),
    ensures
        table_covered(catalog, after, table),
{
    let program = catalog.tables@[table as int].merge_program@;
    assert forall|key: u32| #[trigger] program.required_authorities.contains_key(key) implies entry(
        after.required_authority_epochs,
        key,
    ) == Some(program.required_authorities[key]) by {
        assert(before.required_authority_epochs.dom().contains(key));
        assert(after.required_authority_epochs.dom().contains(key));
        assert(before.required_authority_epochs.contains_key(key));
        assert(after.required_authority_epochs.contains_key(key));
    }
    assert forall|k: int| 0 <= k < program.ops.len() implies !unauthenticated(
        #[trigger] program.ops[k],
    ) && (op_token(program.ops[k]) matches Some(token) ==> required_tokens(after).contains(
        token,
    )) by {}
}

proof fn lemma_op_grows(
    stream: StreamView,
    target: FunctionId,
    op: MergeOpView,
    live_epochs: Map<u32, u64>,
)
    ensures
        retain_op(stream, target, op) matches Ok(after) ==> {
            &&& grows(stream, after, live_epochs)
            &&& after.effects == stream.effects
            &&& after.required_authority_epochs == stream.required_authority_epochs
            &&& !unauthenticated(op)
            &&& (op_token(op) matches Some(token) ==> required_tokens(after).contains(token))
        },
{
}

proof fn lemma_ops_grow(
    stream: StreamView,
    target: FunctionId,
    ops: Seq<MergeOpView>,
    from: int,
    live_epochs: Map<u32, u64>,
)
    requires
        0 <= from <= ops.len(),
    ensures
        retain_ops(stream, target, ops, from) matches Ok(after) ==> {
            &&& grows(stream, after, live_epochs)
            &&& after.effects == stream.effects
            &&& after.required_authority_epochs == stream.required_authority_epochs
            &&& forall|k: int|
                from <= k < ops.len() ==> !unauthenticated(#[trigger] ops[k]) && (op_token(
                    ops[k],
                ) matches Some(token) ==> required_tokens(after).contains(token))
        },
    decreases ops.len() - from,
{
    if from < ops.len() {
        lemma_op_grows(stream, target, ops[from], live_epochs);
        match retain_op(stream, target, ops[from]) {
            Ok(after) => {
                lemma_ops_grow(after, target, ops, from + 1, live_epochs);
                match retain_ops(after, target, ops, from + 1) {
                    Ok(last) => lemma_grows_transitive(stream, after, last, live_epochs),
                    Err(_) => {},
                }
            },
            Err(_) => {},
        }
    }
}

proof fn lemma_table_grows(
    catalog: Catalog,
    live_epochs: Map<u32, u64>,
    stream: StreamView,
    target: FunctionId,
)
    requires
        target.rep < catalog.tables@.len(),
        all_live(stream.required_authority_epochs, live_epochs),
    ensures
        retain_table(
            live_epochs,
            stream,
            target,
            catalog.tables@[target.rep as int],
        ) matches Ok(after) ==> {
            &&& grows(stream, after, live_epochs)
            &&& after.effects == stream.effects
            &&& table_covered(catalog, after, target.rep)
        },
{
    let info = catalog.tables@[target.rep as int];
    let program = info.merge_program@;
    let remembered = StreamView {
        required_authority_epochs: stream.required_authority_epochs.union_prefer_right(
            program.required_authorities,
        ),
        ..stream
    };
    lemma_ops_grow(remembered, target, program.ops, 0, live_epochs);
    if retain_table(live_epochs, stream, target, info) is Ok {
        let after = retain_table(live_epochs, stream, target, info)->Ok_0;
        assert(required_tokens(remembered) == required_tokens(stream));
        assert forall|key: u32| #[trigger]
            remembered.required_authority_epochs.contains_key(key) implies entry(live_epochs, key)
            == Some(remembered.required_authority_epochs[key]) by {
            if program.required_authorities.contains_key(key) {
            } else {
                assert(stream.required_authority_epochs.contains_key(key));
            }
        }
        assert(grows(stream, remembered, live_epochs));
        lemma_grows_transitive(stream, remembered, after, live_epochs);
        assert forall|key: u32| #[trigger]
            program.required_authorities.contains_key(key) implies entry(
            after.required_authority_epochs,
            key,
        ) == Some(program.required_authorities[key]) by {}
    }
}

proof fn lemma_ascending(set: Set<u32>, count: nat, member: u32)
    requires
        count <= u32::MAX + 1,
    ensures
        ascending(set, count).contains(member) <==> (member < count && set.contains(member)),
    decreases count,
{
    if count > 0 {
        let earlier = ascending(set, (count - 1) as nat);
        lemma_ascending(set, (count - 1) as nat, member);
        if set.contains((count - 1) as u32) {
            let all = earlier.push((count - 1) as u32);
            if earlier.contains(member) {
                let k = choose|k: int| 0 <= k < earlier.len() && earlier[k] == member;
                assert(all[k] == member);
            }
            if member == count - 1 {
                assert(all[earlier.len() as int] == member);
            }
            if all.contains(member) && member != count - 1 {
                let k = choose|k: int| 0 <= k < all.len() && all[k] == member;
                assert(earlier[k] == member);
            }
        }
    }
}

/// The marked tables are covered, and what they write is marked or pending.
spec fn marked_covered(
    catalog: Catalog,
    stream: StreamView,
    seen: Seq<bool>,
    pending: Seq<u32>,
) -> bool {
    &&& seen.len() == catalog.tables@.len()
    &&& forall|i: u32| i < seen.len() && #[trigger] seen[i as int] ==> table_covered(catalog, stream, i)
    &&& forall|i: u32, to: u32|
        i < seen.len() && seen[i as int] && #[trigger] merge_writes(catalog, i, to) ==> {
            ||| to < seen.len() && seen[to as int]
            ||| pending.contains(to)
        }
}

/// A set of covered tables that holds `root` and what its members write.
pub open spec fn closed_root(
    catalog: Catalog,
    stream: StreamView,
    root: u32,
    seen: Seq<bool>,
) -> bool {
    &&& seen.len() == catalog.tables@.len()
    &&& root < seen.len() && seen[root as int]
    &&& forall|i: u32| i < seen.len() && #[trigger] seen[i as int] ==> table_covered(catalog, stream, i)
    &&& forall|i: u32, to: u32|
        i < seen.len() && seen[i as int] && #[trigger] merge_writes(catalog, i, to) ==> to
            < seen.len() && seen[to as int]
}

proof fn lemma_closure_covers(
    catalog: Catalog,
    live_epochs: Map<u32, u64>,
    stream: StreamView,
    pending: Seq<u32>,
    visited: Seq<bool>,
) -> (seen: Seq<bool>)
    requires
        catalog.well_formed(),
        visited.len() == catalog.tables@.len(),
        marked_covered(catalog, stream, visited, pending),
        all_live(stream.required_authority_epochs, live_epochs),
    ensures
        retain_closure(catalog, live_epochs, stream, pending, visited) matches Ok(after) ==> {
            &&& grows(stream, after, live_epochs)
            &&& after.effects == stream.effects
            &&& marked_covered(catalog, after, seen, Seq::empty())
            &&& forall|i: int| 0 <= i < visited.len() && #[trigger] visited[i] ==> seen[i]
            &&& forall|k: int|
                0 <= k < pending.len() ==> #[trigger] pending[k] < seen.len()
                    && seen[pending[k] as int]
        },
    decreases unmarked(visited, catalog.tables@.len()), pending.len(),
{
    if pending.len() == 0 {
        assert(pending =~= Seq::<u32>::empty());
        visited
    } else {
        let target = FunctionId { rep: pending.last() };
        let rest = pending.drop_last();
        if target.rep >= catalog.tables@.len() {
            visited
        } else if visited[target.rep as int] {
            assert forall|i: u32, to: u32|
                i < visited.len() && visited[i as int] && #[trigger] merge_writes(
                    catalog,
                    i,
                    to,
                ) implies ((to < visited.len() && visited[to as int]) || rest.contains(to)) by {
                if pending.contains(to) && to != pending.last() {
                    let k = choose|k: int| 0 <= k < pending.len() && pending[k] == to;
                    assert(rest[k] == to);
                }
            }
            let seen = lemma_closure_covers(catalog, live_epochs, stream, rest, visited);
            if retain_closure(catalog, live_epochs, stream, pending, visited) is Ok {
                assert forall|k: int| 0 <= k < pending.len() implies #[trigger] pending[k]
                    < seen.len() && seen[pending[k] as int] by {
                    if k < rest.len() {
                        assert(rest[k] == pending[k]);
                    }
                }
            }
            seen
        } else {
            let info = catalog.tables@[target.rep as int];
            let targets = info.merge_program.write_targets@;
            let listed = ascending(targets, catalog.tables@.len());
            let next = rest + listed;
            let marked = visited.update(target.rep as int, true);
            lemma_table_grows(catalog, live_epochs, stream, target);
            lemma_mark(visited, target.rep as int, catalog.tables@.len());
            match retain_table(live_epochs, stream, target, info) {
                Ok(after) => {
                    assert forall|i: u32|
                        i < marked.len() && #[trigger] marked[i as int] implies table_covered(
                        catalog,
                        after,
                        i,
                    ) by {
                        if i != target.rep {
                            assert(visited[i as int]);
                            lemma_covered_grows(catalog, stream, after, live_epochs, i);
                        }
                    }
                    assert forall|i: u32, to: u32|
                        i < marked.len() && marked[i as int] && #[trigger] merge_writes(
                            catalog,
                            i,
                            to,
                        ) implies ((to < marked.len() && marked[to as int]) || next.contains(
                        to,
                    )) by {
                        if i == target.rep {
                            lemma_ascending(targets, catalog.tables@.len(), to);
                            assert(catalog.tables@[i as int].merge_program.write_targets@.contains(
                                to,
                            ));
                            let k = choose|k: int| 0 <= k < listed.len() && listed[k] == to;
                            assert(next[rest.len() + k] == to);
                        } else {
                            assert(visited[i as int]);
                            if pending.contains(to) && to != pending.last() {
                                let k = choose|k: int| 0 <= k < pending.len() && pending[k] == to;
                                assert(next[k] == to);
                            }
                        }
                    }
                    let seen = lemma_closure_covers(catalog, live_epochs, after, next, marked);
                    if retain_closure(catalog, live_epochs, stream, pending, visited) is Ok {
                        let last = retain_closure(
                            catalog,
                            live_epochs,
                            stream,
                            pending,
                            visited,
                        )->Ok_0;
                        lemma_grows_transitive(stream, after, last, live_epochs);
                        assert(marked[target.rep as int]);
                        assert forall|i: int| 0 <= i < visited.len() && #[trigger] visited[i] implies
                            seen[i] by {
                            assert(marked[i]);
                        }
                        assert forall|k: int| 0 <= k < pending.len() implies #[trigger] pending[k]
                            < seen.len() && seen[pending[k] as int] by {
                            if k < rest.len() {
                                assert(next[k] == pending[k]);
                            } else {
                                assert(seen[target.rep as int]);
                            }
                        }
                    }
                    seen
                },
                Err(_) => visited,
            }
        }
    }
}

/// Every generic write of a stream has its merges covered.
spec fn writes_covered(catalog: Catalog, live_epochs: Map<u32, u64>, stream: StreamView) -> bool {
    &&& all_live(stream.required_authority_epochs, live_epochs)
    &&& forall|k: int|
        0 <= k < stream.effects.len() && #[trigger] stream.effects[k].kind
            == ScalarEffectKind::GenericMerge ==> exists|seen: Seq<bool>|
            closed_root(catalog, stream, stream.effects[k].target.rep, seen)
}

proof fn lemma_writes_stay_covered(
    catalog: Catalog,
    live_epochs: Map<u32, u64>,
    before: StreamView,
    after: StreamView,
)
    requires
        writes_covered(catalog, live_epochs, before),
        grows(before, after, live_epochs),
        after.effects == before.effects,
    ensures
        writes_covered(catalog, live_epochs, after),
{
    assert forall|k: int|
        0 <= k < after.effects.len() && #[trigger] after.effects[k].kind
            == ScalarEffectKind::GenericMerge implies exists|seen: Seq<bool>|
        closed_root(catalog, after, after.effects[k].target.rep, seen) by {
        let root = before.effects[k].target.rep;
        assert(before.effects[k].kind == ScalarEffectKind::GenericMerge);
        let seen = choose|seen: Seq<bool>| closed_root(catalog, before, root, seen);
        assert forall|i: u32| i < seen.len() && #[trigger] seen[i as int] implies table_covered(
            catalog,
            after,
            i,
        ) by {
            lemma_covered_grows(catalog, before, after, live_epochs, i);
        }
        assert(closed_root(catalog, after, root, seen));
    }
}

proof fn lemma_write_covered(
    catalog: Catalog,
    live_epochs: Map<u32, u64>,
    stream: StreamView,
    target: FunctionId,
    info: TableInfo,
    effect: EffectView,
)
    requires
        catalog.well_formed(),
        target.rep < catalog.tables@.len(),
        info == catalog.tables@[target.rep as int],
        writes_covered(catalog, live_epochs, stream),
        effect.target == target,
    ensures
        classify(catalog, live_epochs, stream, target, info) matches Ok((after, kind)) ==> (
        effect.kind == kind ==> writes_covered(catalog, live_epochs, with_effect(after, effect))),
{
    match classify(catalog, live_epochs, stream, target, info) {
        Ok((after, kind)) => {
            if effect.kind == kind {
                let done = with_effect(after, effect);
                if kind == ScalarEffectKind::GenericMerge {
                    let none = Seq::new(catalog.tables@.len(), |i: int| false);
                    assert(marked_covered(catalog, stream, none, seq![target.rep]));
                    let seen = lemma_closure_covers(
                        catalog,
                        live_epochs,
                        stream,
                        seq![target.rep],
                        none,
                    );
                    assert(seq![target.rep][0] == target.rep);
                    lemma_writes_stay_covered(catalog, live_epochs, stream, after);
                    assert(closed_root(catalog, after, target.rep, seen)) by {
                        assert forall|i: u32, to: u32|
                            i < seen.len() && seen[i as int] && #[trigger] merge_writes(
                                catalog,
                                i,
                                to,
                            ) implies to < seen.len() && seen[to as int] by {
                            assert(!Seq::<u32>::empty().contains(to));
                        }
                    }
                    lemma_pushed_effect(catalog, live_epochs, after, effect, seen);
                } else {
                    assert(after == stream);
                    lemma_pushed_effect(
                        catalog,
                        live_epochs,
                        after,
                        effect,
                        Seq::empty(),
                    );
                }
                assert(writes_covered(catalog, live_epochs, done));
            }
        },
        Err(_) => {},
    }
}

proof fn lemma_pushed_effect(
    catalog: Catalog,
    live_epochs: Map<u32, u64>,
    stream: StreamView,
    effect: EffectView,
    seen: Seq<bool>,
)
    requires
        writes_covered(catalog, live_epochs, stream),
        effect.kind == ScalarEffectKind::GenericMerge ==> closed_root(
            catalog,
            stream,
            effect.target.rep,
            seen,
        ),
    ensures
        writes_covered(catalog, live_epochs, with_effect(stream, effect)),
{
    let done = with_effect(stream, effect);
    assert(grows(stream, done, live_epochs));
    assert forall|k: int|
        0 <= k < done.effects.len() && #[trigger] done.effects[k].kind
            == ScalarEffectKind::GenericMerge implies exists|all: Seq<bool>|
        closed_root(catalog, done, done.effects[k].target.rep, all) by {
        let root = done.effects[k].target.rep;
        let all = if k < stream.effects.len() {
            assert(stream.effects[k].kind == ScalarEffectKind::GenericMerge);
            choose|all: Seq<bool>| closed_root(catalog, stream, root, all)
        } else {
            seen
        };
        assert(closed_root(catalog, stream, root, all));
        assert forall|i: u32| i < all.len() && #[trigger] all[i as int] implies table_covered(
            catalog,
            done,
            i,
        ) by {
            lemma_covered_grows(catalog, stream, done, live_epochs, i);
        }
        assert(closed_root(catalog, done, root, all));
    }
}

proof fn lemma_set_if_empty_covered(
    catalog: Catalog,
    live_epochs: Map<u32, u64>,
    stream: StreamView,
    raw: usize,
    variable: RuleVar,
    target: FunctionId,
    info: TableInfo,
    n_keys: usize,
    out_arity: usize,
    arguments: Seq<AtomTerm>,
)
    requires
        catalog.well_formed(),
        target.rep < catalog.tables@.len(),
        info == catalog.tables@[target.rep as int],
        writes_covered(catalog, live_epochs, stream),
    ensures
        set_if_empty_let(
            catalog,
            live_epochs,
            stream,
            raw,
            variable,
            target,
            info,
            n_keys,
            out_arity,
            arguments,
        ) matches Ok(after) ==> writes_covered(catalog, live_epochs, after),
{
    match term_values(
        catalog,
        stream.bindings,
        arguments.take(n_keys as int),
        info.schema@.take(n_keys as int),
        "set-if-empty key"@,
        0,
        Seq::empty(),
    ) {
        Ok(keys) => match term_values(
            catalog,
            stream.bindings,
            arguments.skip(n_keys as int),
            info.schema@.skip(n_keys as int),
            "set-if-empty default"@,
            0,
            Seq::empty(),
        ) {
            Ok(defaults) => match bind_slot(
                stream,
                raw,
                variable,
                SlotSourceView::Read(ReadView::SetIfEmpty { target, n_keys, keys, defaults }),
            ) {
                Ok(bound) => {
                    assert(grows(stream, bound, live_epochs));
                    lemma_writes_stay_covered(catalog, live_epochs, stream, bound);
                    match classify(catalog, live_epochs, bound, target, info) {
                        Ok((_, kind)) => {
                            let effect = EffectView {
                                event_ordinal: stream.runtime_ordinal,
                                target,
                                arity: info.schema@.len() as usize,
                                n_keys,
                                kind,
                                arguments: keys,
                                values: defaults,
                                condition_slot: Some(stream.slots.len() as usize),
                            };
                            lemma_write_covered(
                                catalog,
                                live_epochs,
                                bound,
                                target,
                                info,
                                effect,
                            );
                        },
                        Err(_) => {},
                    }
                },
                Err(_) => {},
            },
            Err(_) => {},
        },
        Err(_) => {},
    }
}

proof fn lemma_let_covered(
    catalog: Catalog,
    registries: AuthorityRegistries,
    stream: StreamView,
    raw: usize,
    variable: RuleVar,
    call: RuleActionCall,
    arguments: Seq<AtomTerm>,
)
    requires
        catalog.well_formed(),
        writes_covered(catalog, registries.authority_epochs@, stream),
    ensures
        let_step(catalog, registries, stream, raw, variable, call, arguments) matches Ok(after)
            ==> writes_covered(catalog, registries.authority_epochs@, after),
{
    let live_epochs = registries.authority_epochs@;
    match let_step(catalog, registries, stream, raw, variable, call, arguments) {
        Ok(after) => match call {
            RuleActionCall::Table { .. } => {
                assert(grows(stream, after, live_epochs));
                lemma_writes_stay_covered(catalog, live_epochs, stream, after);
            },
            RuleActionCall::Primitive { id, .. } => {
                if registries.fresh_tokens@.contains(id.rep) {
                    assert(grows(stream, after, live_epochs));
                    lemma_writes_stay_covered(catalog, live_epochs, stream, after);
                } else {
                    match entry(fd_views(registries.fd_descriptors@), id.rep) {
                        Some(descriptor) => {
                            lemma_fd_covered(
                                catalog,
                                live_epochs,
                                stream,
                                raw,
                                variable,
                                id,
                                descriptor,
                                arguments,
                            );
                        },
                        None => {
                            assert(grows(stream, after, live_epochs));
                            lemma_writes_stay_covered(catalog, live_epochs, stream, after);
                        },
                    }
                }
            },
        },
        Err(_) => {},
    }
}

proof fn lemma_fd_covered(
    catalog: Catalog,
    live_epochs: Map<u32, u64>,
    stream: StreamView,
    raw: usize,
    variable: RuleVar,
    token: ExternalFunctionId,
    descriptor: FdDescriptorView,
    arguments: Seq<AtomTerm>,
)
    requires
        catalog.well_formed(),
        writes_covered(catalog, live_epochs, stream),
    ensures
        fd_let(
            catalog,
            live_epochs,
            stream,
            raw,
            variable,
            token,
            descriptor,
            arguments,
        ) matches Ok(after) ==> writes_covered(catalog, live_epochs, after),
{
    let remembered = StreamView {
        required_fd_descriptors: stream.required_fd_descriptors.insert(token.rep, descriptor),
        ..stream
    };
    assert(grows(stream, remembered, live_epochs));
    lemma_writes_stay_covered(catalog, live_epochs, stream, remembered);
    match table_named(catalog, fd_view_name(descriptor)) {
        Ok(target) => {
            lemma_named_table_exists(catalog, fd_view_name(descriptor));
            let info = catalog.tables@[target.rep as int];
            match descriptor {
                FdDescriptorView::SetIfEmpty { n_keys, out_arity, .. } => {
                    lemma_set_if_empty_covered(
                        catalog,
                        live_epochs,
                        remembered,
                        raw,
                        variable,
                        target,
                        info,
                        n_keys,
                        out_arity,
                        arguments,
                    );
                },
                FdDescriptorView::ViewColumnRead { .. } => {
                    match fd_let(
                        catalog,
                        live_epochs,
                        stream,
                        raw,
                        variable,
                        token,
                        descriptor,
                        arguments,
                    ) {
                        Ok(after) => {
                            assert(grows(remembered, after, live_epochs));
                            lemma_writes_stay_covered(catalog, live_epochs, remembered, after);
                        },
                        Err(_) => {},
                    }
                },
            }
        },
        Err(_) => {},
    }
}

proof fn lemma_named_table_exists(catalog: Catalog, name: Seq<char>)
    requires
        catalog.well_formed(),
    ensures
        table_named(catalog, name) matches Ok(id) ==> id.rep < catalog.tables@.len(),
{
    lemma_named_positions(catalog, name, catalog.tables@.len());
}

proof fn lemma_named_positions(catalog: Catalog, name: Seq<char>, count: nat)
    ensures
        forall|k: int|
            0 <= k < tables_named(catalog, name, count).len() ==> 0 <= #[trigger] tables_named(
                catalog,
                name,
                count,
            )[k] < count,
    decreases count,
{
    if count > 0 {
        let earlier = tables_named(catalog, name, (count - 1) as nat);
        let all = tables_named(catalog, name, count);
        lemma_named_positions(catalog, name, (count - 1) as nat);
        assert forall|k: int| 0 <= k < all.len() implies 0 <= #[trigger] all[k] < count by {
            if k < earlier.len() {
                assert(all[k] == earlier[k]);
            }
        }
    }
}

proof fn lemma_action_covered(
    catalog: Catalog,
    registries: AuthorityRegistries,
    rows: Seq<(FunctionId, Seq<ValueRefView>)>,
    stream: StreamView,
    raw: usize,
    action: CoreAction,
)
    requires
        catalog.well_formed(),
        writes_covered(catalog, registries.authority_epochs@, stream),
    ensures
        action_step(catalog, registries, rows, stream, raw, action) matches Ok(after)
            ==> writes_covered(catalog, registries.authority_epochs@, after),
{
    let live_epochs = registries.authority_epochs@;
    match action_step(catalog, registries, rows, stream, raw, action) {
        Ok(after) => match action {
            CoreAction::Let(variable, call, arguments) => {
                lemma_let_covered(
                    catalog,
                    registries,
                    stream,
                    raw,
                    variable,
                    call,
                    arguments@,
                );
                let step = let_step(
                    catalog,
                    registries,
                    stream,
                    raw,
                    variable,
                    call,
                    arguments@,
                )->Ok_0;
                assert(grows(step, after, live_epochs));
                lemma_writes_stay_covered(catalog, live_epochs, step, after);
            },
            CoreAction::SetRow(call, arguments, values) => {
                let step = set_step(
                    catalog,
                    live_epochs,
                    stream,
                    raw,
                    call,
                    arguments@,
                    values@,
                )->Ok_0;
                match call {
                    RuleActionCall::Table { id } => {
                        let info = catalog.tables@[id.rep as int];
                        lemma_write_covered(
                            catalog,
                            live_epochs,
                            stream,
                            id,
                            info,
                            step.effects.last(),
                        );
                        let classified = classify(catalog, live_epochs, stream, id, info)->Ok_0;
                        assert(step == with_effect(classified.0, step.effects.last()));
                    },
                    _ => {},
                }
                assert(grows(step, after, live_epochs));
                lemma_writes_stay_covered(catalog, live_epochs, step, after);
            },
            CoreAction::Change(change, call, arguments) => {
                let effect = after.effects.last();
                let step = with_effect(stream, effect);
                lemma_pushed_effect(catalog, live_epochs, stream, effect, Seq::empty());
                assert(grows(step, after, live_epochs));
                lemma_writes_stay_covered(catalog, live_epochs, step, after);
            },
            _ => {
                assert(grows(stream, after, live_epochs));
                lemma_writes_stay_covered(catalog, live_epochs, stream, after);
            },
        },
        Err(_) => {},
    }
}

proof fn lemma_actions_covered(
    catalog: Catalog,
    registries: AuthorityRegistries,
    rows: Seq<(FunctionId, Seq<ValueRefView>)>,
    stream: StreamView,
    actions: Seq<CoreAction>,
    from: int,
)
    requires
        catalog.well_formed(),
        writes_covered(catalog, registries.authority_epochs@, stream),
    ensures
        action_steps(catalog, registries, rows, stream, actions, from) matches Ok(after)
            ==> writes_covered(catalog, registries.authority_epochs@, after),
    decreases actions.len() - from,
{
    if 0 <= from < actions.len() {
        lemma_action_covered(catalog, registries, rows, stream, from as usize, actions[from]);
        match action_step(catalog, registries, rows, stream, from as usize, actions[from]) {
            Ok(after) => lemma_actions_covered(
                catalog,
                registries,
                rows,
                after,
                actions,
                from + 1,
            ),
            Err(_) => {},
        }
    }
}

proof fn lemma_reached_is_seen(
    catalog: Catalog,
    stream: StreamView,
    root: u32,
    seen: Seq<bool>,
    table: u32,
    merges: nat,
)
    requires
        closed_root(catalog, stream, root, seen),
        merge_reaches(catalog, root, table, merges),
    ensures
        table < seen.len() && seen[table as int],
    decreases merges,
{
    if merges > 0 {
        let between = choose|between: u32|
            merge_reaches(catalog, root, between, (merges - 1) as nat) && #[trigger] merge_writes(
                catalog,
                between,
                table,
            );
        lemma_reached_is_seen(catalog, stream, root, seen, between, (merges - 1) as nat);
    }
}

/// A plan with a generic write rests on every merge that the write can set off,
/// directly or through other merges: the tables exist, each of their operations
/// is authenticated by a token that the plan requires, and the epochs of their
/// registration are among those the plan pins.
pub proof fn law_plans_rest_on_every_reachable_merge(
    catalog: Catalog,
    registries: AuthorityRegistries,
    seminaive: bool,
    body: Seq<Atom>,
    head: Seq<CoreAction>,
    plan: PlanView,
    effect: int,
    table: u32,
    merges: nat,
)
    requires
        catalog.well_formed(),
        scalar_plan(catalog, registries, seminaive, body, head) == Ok::<
            Option<PlanView>,
            RejectionView,
        >(Some(plan)),
        0 <= effect < plan.effects.len(),
        plan.effects[effect].kind == ScalarEffectKind::GenericMerge,
        merge_reaches(catalog, plan.effects[effect].target.rep, table, merges),
    ensures
        table < catalog.tables@.len(),
        merge_covered(
            catalog.tables@[table as int].merge_program@,
            plan_tokens(plan),
            plan.required_authority_epochs,
        ),
{
    law_admission_pins_live_epochs(catalog, registries, seminaive, body, head, plan);
    reveal(scalar_plan);
    let live_epochs = registries.authority_epochs@;
    let matched = scalar_body(catalog, registries, body)->Ok_0;
    let start = stream_of(matched);
    lemma_actions_covered(catalog, registries, matched.rows, start, head, 0);
    let stream = action_steps(catalog, registries, matched.rows, start, head, 0)->Ok_0;
    let root = stream.effects[effect].target.rep;
    assert(stream.effects[effect].kind == ScalarEffectKind::GenericMerge);
    let seen = choose|seen: Seq<bool>| closed_root(catalog, stream, root, seen);
    lemma_reached_is_seen(catalog, stream, root, seen, table, merges);
    assert(table_covered(catalog, stream, table));
    assert(plan_tokens(plan) =~= required_tokens(stream));
    let program = catalog.tables@[table as int].merge_program@;
    assert forall|key: u32| #[trigger] program.required_authorities.contains_key(key) implies entry(
        plan.required_authority_epochs,
        key,
    ) == Some(program.required_authorities[key]) by {
        assert(stream.required_authority_epochs.contains_key(key));
        assert(plan.required_authority_epochs.contains_key(key));
    }
}

/// A plan loses its authority as soon as a table that one of its writes can
/// reach was registered with a token that has been freed or minted anew since.
pub proof fn law_reminted_merge_tokens_lose_authority(
    catalog: Catalog,
    registries: AuthorityRegistries,
    seminaive: bool,
    body: Seq<Atom>,
    head: Seq<CoreAction>,
    plan: PlanView,
    effect: int,
    table: u32,
    merges: nat,
    live: AuthorityRegistries,
    token: u32,
)
    requires
        catalog.well_formed(),
        scalar_plan(catalog, registries, seminaive, body, head) == Ok::<
            Option<PlanView>,
            RejectionView,
        >(Some(plan)),
        0 <= effect < plan.effects.len(),
        plan.effects[effect].kind == ScalarEffectKind::GenericMerge,
        merge_reaches(catalog, plan.effects[effect].target.rep, table, merges),
        catalog.tables@[table as int].merge_program.required_authorities@.contains_key(token),
        entry(live.authority_epochs@, token) != Some(
            catalog.tables@[table as int].merge_program.required_authorities@[token],
        ),
    ensures
        !authorized(plan, live),
{
    law_plans_rest_on_every_reachable_merge(
        catalog,
        registries,
        seminaive,
        body,
        head,
        plan,
        effect,
        table,
        merges,
    );
    let program = catalog.tables@[table as int].merge_program@;
    assert(program.required_authorities.contains_key(token));
    assert(plan.required_authority_epochs.contains_key(token));
}

} // verus!
