//! What every scalar plan keeps: results are used only after they exist, events
//! are ordered, and every authority it rests on is pinned.

use vstd::prelude::*;

#[allow(unused_imports)]
use crate::action_body::{lemma_mark, scalar_body, unmarked};
#[allow(unused_imports)]
use crate::action_plan::{
    EffectView, PlanView, ReadView, ScalarEffectKind, SlotSourceView, SlotView, ValueRefView,
};
#[allow(unused_imports)]
use crate::action_rule::{
    action_step, action_steps, ascending, bind_slot, change_step, classify, expression_let, fd_let,
    fresh_let, matching_rows, retain_closure, retain_op, retain_ops, retain_table, row_matches,
    scalar_plan, set_if_empty_let, set_step, stream_of, table_let, term_value, term_values,
    then_advanced, view_column_let, BoundView, StreamView,
};
#[allow(unused_imports)]
use crate::authority::{entry, fd_view_name, fd_views, AuthorityRegistries, FdDescriptorView};
#[allow(unused_imports)]
use crate::body_laws::{law_body_variables_own_columns, ref_within, refs_within, rows_within};
#[allow(unused_imports)]
use crate::catalog::{table_at, table_named, tables_named, Catalog, TableInfo, WriteCapability};
#[allow(unused_imports)]
use crate::ir::{
    term_ty, Atom, AtomTerm, Change, ColumnTy, CoreAction, ExternalFunctionId, FunctionId,
    RuleActionCall, RuleVar,
};
#[allow(unused_imports)]
use crate::merge_program::MergeOpView;
#[allow(unused_imports)]
use crate::rejection::RejectionView;

verus! {

// ---------------------------------------------------------------------------
// Order.

/// The values that produce a result lie within the columns and earlier results.
pub open spec fn source_within(source: SlotSourceView, columns: nat, slots: nat) -> bool {
    match source {
        SlotSourceView::Fresh { .. } => true,
        SlotSourceView::Read(read) => match read {
            ReadView::Table { keys, .. } => refs_within(keys, columns, slots),
            ReadView::SetIfEmpty { keys, defaults, .. } => refs_within(keys, columns, slots)
                && refs_within(defaults, columns, slots),
            ReadView::ViewColumn { keys, fallback, .. } => refs_within(keys, columns, slots)
                && ref_within(fallback, columns, slots),
        },
        SlotSourceView::Expression { inputs, .. } => refs_within(inputs, columns, slots),
    }
}

/// The number of fresh allocations among the first `count` results.
pub open spec fn fresh_count(slots: Seq<SlotView>, count: nat) -> nat
    decreases count,
{
    if count == 0 {
        0
    } else {
        fresh_count(slots, (count - 1) as nat) + (if slots[count - 1].source is Fresh {
            1nat
        } else {
            0nat
        })
    }
}

/// Each result is computed from columns and earlier results, results come in
/// action order and in event order, and fresh allocations are ranked densely.
pub open spec fn slots_ordered(slots: Seq<SlotView>, columns: nat) -> bool {
    &&& forall|k: int|
        0 <= k < slots.len() ==> source_within(
            (#[trigger] slots[k]).source,
            columns,
            k as nat,
        )
    &&& forall|j: int, k: int|
        0 <= j < k < slots.len() ==> (#[trigger] slots[j]).runtime_ordinal < (
        #[trigger] slots[k]).runtime_ordinal && slots[j].raw_action_ordinal
            < slots[k].raw_action_ordinal
    &&& forall|k: int|
        0 <= k < slots.len() ==> ((#[trigger] slots[k]).source matches SlotSourceView::Fresh { rank }
            ==> rank == fresh_count(slots, k as nat))
}

/// A value is a literal, a column, or the result of an earlier event.
pub open spec fn ref_before(
    value: ValueRefView,
    columns: nat,
    slots: Seq<SlotView>,
    ordinal: u64,
) -> bool {
    match value {
        ValueRefView::Body(column) => column < columns,
        ValueRefView::Slot(slot) => slot < slots.len() && slots[slot as int].runtime_ordinal
            < ordinal,
        ValueRefView::Literal { .. } => true,
    }
}

/// Every value exists before an event.
pub open spec fn refs_before(
    values: Seq<ValueRefView>,
    columns: nat,
    slots: Seq<SlotView>,
    ordinal: u64,
) -> bool {
    forall|i: int|
        0 <= i < values.len() ==> ref_before(#[trigger] values[i], columns, slots, ordinal)
}

/// A conditional effect belongs to the result that predicts its row.
pub open spec fn condition_fits(effect: EffectView, slots: Seq<SlotView>) -> bool {
    match effect.condition_slot {
        None => true,
        Some(slot) => {
            &&& slot < slots.len()
            &&& slots[slot as int].runtime_ordinal == effect.event_ordinal
            &&& slots[slot as int].source matches SlotSourceView::Read(
                ReadView::SetIfEmpty { target, n_keys, keys, defaults },
            )
            &&& target == effect.target
            &&& n_keys == effect.n_keys
            &&& keys == effect.arguments
            &&& defaults == effect.values
        },
    }
}

/// An effect names a complete row or, for a deletion, the keys of a row of its
/// table, in the way that the table allows.
pub open spec fn effect_fits(catalog: Catalog, effect: EffectView) -> bool {
    &&& effect.target.rep < catalog.tables@.len()
    &&& ({
        let info = catalog.tables@[effect.target.rep as int];
        &&& effect.n_keys == info.n_keys
        &&& effect.arity == info.schema@.len()
        &&& effect.arguments.len() == info.n_keys
        &&& match effect.kind {
            ScalarEffectKind::AssertEq => info.write_capability == WriteCapability::AssertEq,
            ScalarEffectKind::KeepOld => info.write_capability == WriteCapability::KeepOld,
            ScalarEffectKind::GenericMerge => info.write_capability == WriteCapability::Deferred,
            ScalarEffectKind::Delete => true,
            ScalarEffectKind::Subsume => info.can_subsume,
        }
        &&& if effect.kind == ScalarEffectKind::Delete {
            effect.values.len() == 0
        } else {
            effect.arguments.len() + effect.values.len() == info.schema@.len()
        }
    })
}

/// Every effect fits its table, uses earlier results only, and comes after the
/// effects before it.
pub open spec fn effects_ordered(
    catalog: Catalog,
    effects: Seq<EffectView>,
    slots: Seq<SlotView>,
    columns: nat,
) -> bool {
    &&& forall|k: int|
        0 <= k < effects.len() ==> {
            let effect = #[trigger] effects[k];
            &&& effect_fits(catalog, effect)
            &&& refs_before(effect.arguments, columns, slots, effect.event_ordinal)
            &&& refs_before(effect.values, columns, slots, effect.event_ordinal)
            &&& condition_fits(effect, slots)
        }
    &&& forall|j: int, k: int|
        0 <= j < k < effects.len() ==> (#[trigger] effects[j]).event_ordinal < (
        #[trigger] effects[k]).event_ordinal
}

/// A partly compiled stream is in order, `from` actions in.
pub open spec fn stream_ordered(
    catalog: Catalog,
    stream: StreamView,
    columns: nat,
    from: int,
) -> bool {
    &&& stream.slots.len() <= from
    &&& slots_ordered(stream.slots, columns)
    &&& effects_ordered(catalog, stream.effects, stream.slots, columns)
    &&& stream.fresh_rank == fresh_count(stream.slots, stream.slots.len())
    &&& forall|k: int|
        0 <= k < stream.slots.len() ==> (#[trigger] stream.slots[k]).runtime_ordinal
            < stream.runtime_ordinal && stream.slots[k].raw_action_ordinal < from
    &&& forall|k: int|
        0 <= k < stream.effects.len() ==> (#[trigger] stream.effects[k]).event_ordinal
            < stream.runtime_ordinal
    &&& forall|id: u32| #[trigger]
        stream.bindings.contains_key(id) ==> ref_within(
            stream.bindings[id].value,
            columns,
            stream.slots.len(),
        )
}

/// Two streams differ at most in the authorities they rest on.
pub open spec fn same_program(before: StreamView, after: StreamView) -> bool {
    &&& after.bindings == before.bindings
    &&& after.slots == before.slots
    &&& after.effects == before.effects
    &&& after.fresh_rank == before.fresh_rank
    &&& after.runtime_ordinal == before.runtime_ordinal
}

proof fn lemma_retain_ops_keep(
    stream: StreamView,
    target: FunctionId,
    ops: Seq<MergeOpView>,
    from: int,
)
    ensures
        retain_ops(stream, target, ops, from) matches Ok(after) ==> same_program(stream, after),
    decreases ops.len() - from,
{
    if 0 <= from < ops.len() {
        match retain_op(stream, target, ops[from]) {
            Ok(after) => lemma_retain_ops_keep(after, target, ops, from + 1),
            Err(_) => {},
        }
    }
}

proof fn lemma_retain_table_keep(
    live_epochs: Map<u32, u64>,
    stream: StreamView,
    target: FunctionId,
    info: TableInfo,
)
    ensures
        retain_table(live_epochs, stream, target, info) matches Ok(after) ==> same_program(
            stream,
            after,
        ),
{
    let program = info.merge_program@;
    let remembered = StreamView {
        required_authority_epochs: stream.required_authority_epochs.union_prefer_right(
            program.required_authorities,
        ),
        ..stream
    };
    lemma_retain_ops_keep(remembered, target, program.ops, 0);
}

proof fn lemma_retain_closure_keep(
    catalog: Catalog,
    live_epochs: Map<u32, u64>,
    stream: StreamView,
    pending: Seq<u32>,
    visited: Seq<bool>,
)
    requires
        visited.len() == catalog.tables@.len(),
    ensures
        retain_closure(catalog, live_epochs, stream, pending, visited) matches Ok(after)
            ==> same_program(stream, after),
    decreases unmarked(visited, catalog.tables@.len()), pending.len(),
{
    if pending.len() > 0 {
        let target = FunctionId { rep: pending.last() };
        match table_at(catalog, target) {
            Ok(info) => {
                if visited[target.rep as int] {
                    lemma_retain_closure_keep(
                        catalog,
                        live_epochs,
                        stream,
                        pending.drop_last(),
                        visited,
                    );
                } else {
                    lemma_retain_table_keep(live_epochs, stream, target, info);
                    lemma_mark(
                        visited,
                        target.rep as int,
                        catalog.tables@.len(),
                    );
                    match retain_table(live_epochs, stream, target, info) {
                        Ok(after) => lemma_retain_closure_keep(
                            catalog,
                            live_epochs,
                            after,
                            pending.drop_last() + ascending(
                                info.merge_program.write_targets@,
                                catalog.tables@.len(),
                            ),
                            visited.update(target.rep as int, true),
                        ),
                        Err(_) => {},
                    }
                }
            },
            Err(_) => {},
        }
    }
}

/// Classifying a write leaves the program as it is.
pub proof fn lemma_classify_keep(
    catalog: Catalog,
    live_epochs: Map<u32, u64>,
    stream: StreamView,
    target: FunctionId,
    info: TableInfo,
)
    ensures
        classify(catalog, live_epochs, stream, target, info) matches Ok((after, kind)) ==> {
            &&& same_program(stream, after)
            &&& match kind {
                ScalarEffectKind::AssertEq => info.write_capability == WriteCapability::AssertEq,
                ScalarEffectKind::KeepOld => info.write_capability == WriteCapability::KeepOld,
                ScalarEffectKind::GenericMerge => info.write_capability
                    == WriteCapability::Deferred,
                _ => false,
            }
        },
{
    lemma_retain_closure_keep(
        catalog,
        live_epochs,
        stream,
        seq![target.rep],
        Seq::new(catalog.tables@.len(), |i: int| false),
    );
}

proof fn lemma_term_values(
    catalog: Catalog,
    bindings: Map<u32, BoundView>,
    terms: Seq<AtomTerm>,
    tys: Seq<ColumnTy>,
    context: Seq<char>,
    from: int,
    done: Seq<ValueRefView>,
    columns: nat,
    slots: nat,
)
    requires
        0 <= from <= terms.len(),
        refs_within(done, columns, slots),
        forall|id: u32| #[trigger]
            bindings.contains_key(id) ==> ref_within(bindings[id].value, columns, slots),
    ensures
        term_values(catalog, bindings, terms, tys, context, from, done) matches Ok(values)
            ==> refs_within(values, columns, slots) && values.len() == done.len() + terms.len()
            - from,
    decreases terms.len() - from,
{
    if from < terms.len() {
        match term_value(catalog, bindings, terms[from], tys[from], context) {
            Ok(value) => {
                assert(ref_within(value, columns, slots));
                lemma_term_values(
                    catalog,
                    bindings,
                    terms,
                    tys,
                    context,
                    from + 1,
                    done.push(value),
                    columns,
                    slots,
                );
            },
            Err(_) => {},
        }
    }
}

/// The values of a step's terms.
proof fn lemma_stream_values(
    catalog: Catalog,
    stream: StreamView,
    terms: Seq<AtomTerm>,
    tys: Seq<ColumnTy>,
    context: Seq<char>,
    columns: nat,
    from: int,
)
    requires
        stream_ordered(catalog, stream, columns, from),
    ensures
        term_values(catalog, stream.bindings, terms, tys, context, 0, Seq::empty()) matches Ok(
            values,
        ) ==> {
            &&& refs_within(values, columns, stream.slots.len())
            &&& refs_before(values, columns, stream.slots, stream.runtime_ordinal)
            &&& values.len() == terms.len()
        },
{
    lemma_term_values(
        catalog,
        stream.bindings,
        terms,
        tys,
        context,
        0,
        Seq::empty(),
        columns,
        stream.slots.len(),
    );
    match term_values(catalog, stream.bindings, terms, tys, context, 0, Seq::empty()) {
        Ok(values) => {
            assert forall|i: int| 0 <= i < values.len() implies ref_before(
                #[trigger] values[i],
                columns,
                stream.slots,
                stream.runtime_ordinal,
            ) by {
                assert(ref_within(values[i], columns, stream.slots.len()));
            }
        },
        Err(_) => {},
    }
}

proof fn lemma_fresh_count_prefix(before: Seq<SlotView>, after: Seq<SlotView>, count: nat)
    requires
        count <= before.len() <= after.len(),
        forall|k: int| 0 <= k < before.len() ==> before[k] == after[k],
    ensures
        fresh_count(before, count) == fresh_count(after, count),
    decreases count,
{
    if count > 0 {
        lemma_fresh_count_prefix(before, after, (count - 1) as nat);
    }
}

/// A stream with one more result.
pub open spec fn with_slot(
    stream: StreamView,
    raw: usize,
    variable: RuleVar,
    source: SlotSourceView,
) -> StreamView {
    StreamView {
        bindings: stream.bindings.insert(
            variable.id,
            BoundView {
                ty: variable.ty,
                value: ValueRefView::Slot(stream.slots.len() as usize),
            },
        ),
        slots: stream.slots.push(
            SlotView {
                raw_action_ordinal: raw,
                runtime_ordinal: stream.runtime_ordinal,
                ty: variable.ty,
                source,
            },
        ),
        ..stream
    }
}

/// A result, and possibly the effect that belongs to it, followed by the next
/// event, keep the order.
proof fn lemma_slot_step(
    catalog: Catalog,
    stream: StreamView,
    after: StreamView,
    variable: RuleVar,
    source: SlotSourceView,
    effect: Option<EffectView>,
    columns: nat,
    from: int,
)
    requires
        stream_ordered(catalog, stream, columns, from),
        0 <= from < usize::MAX,
        stream.runtime_ordinal < u64::MAX,
        source_within(source, columns, stream.slots.len()),
        source matches SlotSourceView::Fresh { rank } ==> rank == stream.fresh_rank,
        after.bindings == with_slot(stream, from as usize, variable, source).bindings,
        after.slots == with_slot(stream, from as usize, variable, source).slots,
        after.effects == (match effect {
            Some(added) => stream.effects.push(added),
            None => stream.effects,
        }),
        after.fresh_rank == stream.fresh_rank + (if source is Fresh {
            1int
        } else {
            0int
        }),
        after.runtime_ordinal == stream.runtime_ordinal + 1,
        effect matches Some(added) ==> {
            &&& added.event_ordinal == stream.runtime_ordinal
            &&& effect_fits(catalog, added)
            &&& refs_before(added.arguments, columns, stream.slots, added.event_ordinal)
            &&& refs_before(added.values, columns, stream.slots, added.event_ordinal)
            &&& added.condition_slot == Some(stream.slots.len() as usize)
            &&& source matches SlotSourceView::Read(
                ReadView::SetIfEmpty { target, n_keys, keys, defaults },
            )
            &&& target == added.target
            &&& n_keys == added.n_keys
            &&& keys == added.arguments
            &&& defaults == added.values
        },
    ensures
        stream_ordered(catalog, after, columns, from + 1),
{
    let before = stream.slots;
    let slots = after.slots;
    assert(forall|k: int| 0 <= k < before.len() ==> before[k] == slots[k]);
    lemma_fresh_count_prefix(before, slots, before.len());
    assert forall|k: int|
        0 <= k < slots.len() implies ((#[trigger] slots[k]).source matches SlotSourceView::Fresh {
        rank,
    } ==> rank == fresh_count(slots, k as nat)) by {
        if k < before.len() {
            lemma_fresh_count_prefix(before, slots, k as nat);
            assert(slots[k] == before[k]);
        }
    }
    assert forall|k: int| 0 <= k < slots.len() implies source_within(
        (#[trigger] slots[k]).source,
        columns,
        k as nat,
    ) by {
        if k < before.len() {
            assert(slots[k] == before[k]);
        }
    }
    assert forall|j: int, k: int| 0 <= j < k < slots.len() implies (
    #[trigger] slots[j]).runtime_ordinal < (#[trigger] slots[k]).runtime_ordinal
        && slots[j].raw_action_ordinal < slots[k].raw_action_ordinal by {
        assert(slots[j] == before[j]);
        if k < before.len() {
            assert(slots[k] == before[k]);
        }
    }
    assert forall|k: int| 0 <= k < slots.len() implies (#[trigger] slots[k]).runtime_ordinal
        < after.runtime_ordinal && slots[k].raw_action_ordinal < from + 1 by {
        if k < before.len() {
            assert(slots[k] == before[k]);
        }
    }
    lemma_effects_keep(catalog, stream.effects, before, slots, columns);
    assert forall|k: int| 0 <= k < after.effects.len() implies {
        let added = #[trigger] after.effects[k];
        &&& effect_fits(catalog, added)
        &&& refs_before(added.arguments, columns, slots, added.event_ordinal)
        &&& refs_before(added.values, columns, slots, added.event_ordinal)
        &&& condition_fits(added, slots)
    } by {
        if k < stream.effects.len() {
            assert(after.effects[k] == stream.effects[k]);
        } else {
            let added = after.effects[k];
            lemma_refs_keep(added.arguments, before, slots, columns, added.event_ordinal);
            lemma_refs_keep(added.values, before, slots, columns, added.event_ordinal);
        }
    }
    assert forall|j: int, k: int| 0 <= j < k < after.effects.len() implies (
    #[trigger] after.effects[j]).event_ordinal < (#[trigger] after.effects[k]).event_ordinal by {
        assert(after.effects[j] == stream.effects[j]);
        if k < stream.effects.len() {
            assert(after.effects[k] == stream.effects[k]);
        }
    }
    assert forall|k: int| 0 <= k < after.effects.len() implies (
    #[trigger] after.effects[k]).event_ordinal < after.runtime_ordinal by {
        if k < stream.effects.len() {
            assert(after.effects[k] == stream.effects[k]);
        }
    }
    assert forall|id: u32| #[trigger] after.bindings.contains_key(id) implies ref_within(
        after.bindings[id].value,
        columns,
        slots.len(),
    ) by {
        if id != variable.id {
            assert(stream.bindings.contains_key(id));
        }
    }
}

/// Values that exist before an event still do when results are added.
proof fn lemma_refs_keep(
    values: Seq<ValueRefView>,
    before: Seq<SlotView>,
    after: Seq<SlotView>,
    columns: nat,
    ordinal: u64,
)
    requires
        refs_before(values, columns, before, ordinal),
        before.len() <= after.len(),
        forall|k: int| 0 <= k < before.len() ==> before[k] == after[k],
    ensures
        refs_before(values, columns, after, ordinal),
{
    assert forall|i: int| 0 <= i < values.len() implies ref_before(
        #[trigger] values[i],
        columns,
        after,
        ordinal,
    ) by {
        assert(ref_before(values[i], columns, before, ordinal));
    }
}

proof fn lemma_effects_keep(
    catalog: Catalog,
    effects: Seq<EffectView>,
    before: Seq<SlotView>,
    after: Seq<SlotView>,
    columns: nat,
)
    requires
        effects_ordered(catalog, effects, before, columns),
        before.len() <= after.len(),
        forall|k: int| 0 <= k < before.len() ==> before[k] == after[k],
    ensures
        effects_ordered(catalog, effects, after, columns),
{
    assert forall|k: int| 0 <= k < effects.len() implies {
        let effect = #[trigger] effects[k];
        &&& effect_fits(catalog, effect)
        &&& refs_before(effect.arguments, columns, after, effect.event_ordinal)
        &&& refs_before(effect.values, columns, after, effect.event_ordinal)
        &&& condition_fits(effect, after)
    } by {
        let effect = effects[k];
        lemma_refs_keep(effect.arguments, before, after, columns, effect.event_ordinal);
        lemma_refs_keep(effect.values, before, after, columns, effect.event_ordinal);
    }
}

/// An unconditional effect followed by the next event keeps the order.
proof fn lemma_effect_step(
    catalog: Catalog,
    stream: StreamView,
    after: StreamView,
    effect: EffectView,
    columns: nat,
    from: int,
)
    requires
        stream_ordered(catalog, stream, columns, from),
        after.bindings == stream.bindings,
        after.slots == stream.slots,
        after.fresh_rank == stream.fresh_rank,
        after.effects == stream.effects.push(effect),
        after.runtime_ordinal == stream.runtime_ordinal + 1,
        effect.event_ordinal == stream.runtime_ordinal,
        effect.condition_slot is None,
        effect_fits(catalog, effect),
        refs_before(effect.arguments, columns, stream.slots, effect.event_ordinal),
        refs_before(effect.values, columns, stream.slots, effect.event_ordinal),
    ensures
        stream_ordered(catalog, after, columns, from + 1),
{
    assert forall|k: int| 0 <= k < after.effects.len() implies {
        let added = #[trigger] after.effects[k];
        &&& effect_fits(catalog, added)
        &&& refs_before(added.arguments, columns, after.slots, added.event_ordinal)
        &&& refs_before(added.values, columns, after.slots, added.event_ordinal)
        &&& condition_fits(added, after.slots)
    } by {
        if k < stream.effects.len() {
            assert(after.effects[k] == stream.effects[k]);
        }
    }
    assert forall|j: int, k: int| 0 <= j < k < after.effects.len() implies (
    #[trigger] after.effects[j]).event_ordinal < (#[trigger] after.effects[k]).event_ordinal by {
        assert(after.effects[j] == stream.effects[j]);
        if k < stream.effects.len() {
            assert(after.effects[k] == stream.effects[k]);
        }
    }
    assert forall|k: int| 0 <= k < after.effects.len() implies (
    #[trigger] after.effects[k]).event_ordinal < after.runtime_ordinal by {
        if k < stream.effects.len() {
            assert(after.effects[k] == stream.effects[k]);
        }
    }
    assert forall|k: int| 0 <= k < after.slots.len() implies (
    #[trigger] after.slots[k]).runtime_ordinal < after.runtime_ordinal
        && after.slots[k].raw_action_ordinal < from + 1 by {
        assert(after.slots[k] == stream.slots[k]);
    }
}

proof fn lemma_set_step(
    catalog: Catalog,
    live_epochs: Map<u32, u64>,
    stream: StreamView,
    call: RuleActionCall,
    arguments: Seq<AtomTerm>,
    values: Seq<AtomTerm>,
    columns: nat,
    from: int,
)
    requires
        catalog.well_formed(),
        0 <= from < usize::MAX,
        stream_ordered(catalog, stream, columns, from),
    ensures
        then_advanced(
            set_step(catalog, live_epochs, stream, from as usize, call, arguments, values),
        ) matches Ok(after) ==> stream_ordered(catalog, after, columns, from + 1),
{
    match call {
        RuleActionCall::Table { id: target } => match table_at(catalog, target) {
            Ok(info) => {
                assert(info.well_formed());
                let length = info.schema.len();
                let key_tys = info.schema@.take(info.n_keys as int);
                let value_tys = info.schema@.skip(info.n_keys as int);
                lemma_stream_values(
                    catalog,
                    stream,
                    arguments,
                    key_tys,
                    "Set key"@,
                    columns,
                    from,
                );
                lemma_stream_values(
                    catalog,
                    stream,
                    values,
                    value_tys,
                    "Set value"@,
                    columns,
                    from,
                );
                lemma_classify_keep(catalog, live_epochs, stream, target, info);
                match then_advanced(
                    set_step(catalog, live_epochs, stream, from as usize, call, arguments, values),
                ) {
                    Ok(after) => lemma_effect_step(
                        catalog,
                        stream,
                        after,
                        after.effects.last(),
                        columns,
                        from,
                    ),
                    Err(_) => {},
                }
            },
            Err(_) => {},
        },
        _ => {},
    }
}

proof fn lemma_matching_rows(
    rows: Seq<(FunctionId, Seq<ValueRefView>)>,
    target: FunctionId,
    arity: nat,
    keys: Seq<ValueRefView>,
    count: nat,
)
    requires
        count <= rows.len(),
    ensures
        forall|k: int|
            0 <= k < matching_rows(rows, target, arity, keys, count).len() ==> {
                let row = #[trigger] matching_rows(rows, target, arity, keys, count)[k];
                0 <= row < count && row_matches(rows[row], target, arity, keys)
            },
    decreases count,
{
    if count > 0 {
        lemma_matching_rows(rows, target, arity, keys, (count - 1) as nat);
        let earlier = matching_rows(rows, target, arity, keys, (count - 1) as nat);
        let found = matching_rows(rows, target, arity, keys, count);
        assert forall|k: int| 0 <= k < found.len() implies {
            let row = #[trigger] found[k];
            0 <= row < count && row_matches(rows[row], target, arity, keys)
        } by {
            if k < earlier.len() {
                assert(found[k] == earlier[k]);
            }
        }
    }
}

proof fn lemma_change_step(
    catalog: Catalog,
    rows: Seq<(FunctionId, Seq<ValueRefView>)>,
    stream: StreamView,
    change: Change,
    call: RuleActionCall,
    arguments: Seq<AtomTerm>,
    columns: nat,
    from: int,
)
    requires
        catalog.well_formed(),
        0 <= from < usize::MAX,
        rows_within(rows, columns),
        stream_ordered(catalog, stream, columns, from),
    ensures
        then_advanced(
            change_step(catalog, rows, stream, from as usize, change, call, arguments),
        ) matches Ok(after) ==> stream_ordered(catalog, after, columns, from + 1),
{
    match call {
        RuleActionCall::Table { id: target } => match table_at(catalog, target) {
            Ok(info) => {
                assert(info.well_formed());
                let length = info.schema.len();
                let key_tys = info.schema@.take(info.n_keys as int);
                lemma_stream_values(
                    catalog,
                    stream,
                    arguments,
                    key_tys,
                    "change key"@,
                    columns,
                    from,
                );
                match term_values(
                    catalog,
                    stream.bindings,
                    arguments,
                    key_tys,
                    "change key"@,
                    0,
                    Seq::empty(),
                ) {
                    Ok(keys) => {
                        let arity = info.schema@.len();
                        lemma_matching_rows(rows, target, arity, keys, rows.len());
                        let found = matching_rows(rows, target, arity, keys, rows.len());
                        match then_advanced(
                            change_step(
                                catalog,
                                rows,
                                stream,
                                from as usize,
                                change,
                                call,
                                arguments,
                            ),
                        ) {
                            Ok(after) => {
                                let effect = after.effects.last();
                                if change == Change::Subsume {
                                    let row = found[0];
                                    assert(row_matches(rows[row], target, arity, keys));
                                    assert forall|i: int|
                                        0 <= i < effect.values.len() implies ref_before(
                                        #[trigger] effect.values[i],
                                        columns,
                                        stream.slots,
                                        effect.event_ordinal,
                                    ) by {
                                        assert(effect.values[i] == rows[row].1[keys.len() + i]);
                                        assert(refs_within(rows[row].1, columns, 0));
                                        assert(ref_within(rows[row].1[keys.len() + i], columns, 0));
                                    }
                                }
                                lemma_effect_step(catalog, stream, after, effect, columns, from);
                            },
                            Err(_) => {},
                        }
                    },
                    Err(_) => {},
                }
            },
            Err(_) => {},
        },
        _ => {},
    }
}

proof fn lemma_table_let(
    catalog: Catalog,
    stream: StreamView,
    variable: RuleVar,
    target: FunctionId,
    arguments: Seq<AtomTerm>,
    columns: nat,
    from: int,
)
    requires
        0 <= from < usize::MAX,
        stream_ordered(catalog, stream, columns, from),
    ensures
        then_advanced(
            table_let(catalog, stream, from as usize, variable, target, arguments),
        ) matches Ok(after) ==> stream_ordered(catalog, after, columns, from + 1),
{
    match table_at(catalog, target) {
        Ok(info) => {
            let key_tys = info.schema@.take(info.n_keys as int);
            lemma_stream_values(
                catalog,
                stream,
                arguments,
                key_tys,
                "table Let key"@,
                columns,
                from,
            );
            match then_advanced(
                table_let(catalog, stream, from as usize, variable, target, arguments),
            ) {
                Ok(after) => lemma_slot_step(
                    catalog,
                    stream,
                    after,
                    variable,
                    after.slots.last().source,
                    None,
                    columns,
                    from,
                ),
                Err(_) => {},
            }
        },
        Err(_) => {},
    }
}

proof fn lemma_fresh_let(
    catalog: Catalog,
    stream: StreamView,
    variable: RuleVar,
    token: ExternalFunctionId,
    arguments: Seq<AtomTerm>,
    columns: nat,
    from: int,
)
    requires
        0 <= from < usize::MAX,
        stream_ordered(catalog, stream, columns, from),
    ensures
        then_advanced(
            fresh_let(catalog, stream, from as usize, variable, token, arguments),
        ) matches Ok(after) ==> stream_ordered(catalog, after, columns, from + 1),
{
    match then_advanced(fresh_let(catalog, stream, from as usize, variable, token, arguments)) {
        Ok(after) => lemma_slot_step(
            catalog,
            stream,
            after,
            variable,
            after.slots.last().source,
            None,
            columns,
            from,
        ),
        Err(_) => {},
    }
}

proof fn lemma_expression_let(
    catalog: Catalog,
    registries: AuthorityRegistries,
    stream: StreamView,
    variable: RuleVar,
    token: ExternalFunctionId,
    arguments: Seq<AtomTerm>,
    columns: nat,
    from: int,
)
    requires
        0 <= from < usize::MAX,
        stream_ordered(catalog, stream, columns, from),
    ensures
        then_advanced(
            expression_let(catalog, registries, stream, from as usize, variable, token, arguments),
        ) matches Ok(after) ==> stream_ordered(catalog, after, columns, from + 1),
{
    let tys = arguments.map_values(|t: AtomTerm| term_ty(t));
    lemma_stream_values(
        catalog,
        stream,
        arguments,
        tys,
        "scalar expression input"@,
        columns,
        from,
    );
    match then_advanced(
        expression_let(catalog, registries, stream, from as usize, variable, token, arguments),
    ) {
        Ok(after) => lemma_slot_step(
            catalog,
            stream,
            after,
            variable,
            after.slots.last().source,
            None,
            columns,
            from,
        ),
        Err(_) => {},
    }
}

proof fn lemma_view_column_let(
    catalog: Catalog,
    stream: StreamView,
    variable: RuleVar,
    target: FunctionId,
    info: TableInfo,
    n_keys: usize,
    col_idx: usize,
    arguments: Seq<AtomTerm>,
    columns: nat,
    from: int,
)
    requires
        0 <= from < usize::MAX,
        stream_ordered(catalog, stream, columns, from),
    ensures
        then_advanced(
            view_column_let(
                catalog,
                stream,
                from as usize,
                variable,
                target,
                info,
                n_keys,
                col_idx,
                arguments,
            ),
        ) matches Ok(after) ==> stream_ordered(catalog, after, columns, from + 1),
{
    lemma_stream_values(
        catalog,
        stream,
        arguments.take(n_keys as int),
        info.schema@.take(n_keys as int),
        "view-column key"@,
        columns,
        from,
    );
    match then_advanced(
        view_column_let(
            catalog,
            stream,
            from as usize,
            variable,
            target,
            info,
            n_keys,
            col_idx,
            arguments,
        ),
    ) {
        Ok(after) => lemma_slot_step(
            catalog,
            stream,
            after,
            variable,
            after.slots.last().source,
            None,
            columns,
            from,
        ),
        Err(_) => {},
    }
}

proof fn lemma_set_if_empty_let(
    catalog: Catalog,
    live_epochs: Map<u32, u64>,
    stream: StreamView,
    variable: RuleVar,
    target: FunctionId,
    info: TableInfo,
    n_keys: usize,
    out_arity: usize,
    arguments: Seq<AtomTerm>,
    columns: nat,
    from: int,
)
    requires
        0 <= from < usize::MAX,
        stream_ordered(catalog, stream, columns, from),
        target.rep < catalog.tables@.len(),
        info == catalog.tables@[target.rep as int],
        info.well_formed(),
    ensures
        then_advanced(
            set_if_empty_let(
                catalog,
                live_epochs,
                stream,
                from as usize,
                variable,
                target,
                info,
                n_keys,
                out_arity,
                arguments,
            ),
        ) matches Ok(after) ==> stream_ordered(catalog, after, columns, from + 1),
{
    let length = info.schema.len();
    let keys_terms = arguments.take(n_keys as int);
    let default_terms = arguments.skip(n_keys as int);
    lemma_stream_values(
        catalog,
        stream,
        keys_terms,
        info.schema@.take(n_keys as int),
        "set-if-empty key"@,
        columns,
        from,
    );
    lemma_stream_values(
        catalog,
        stream,
        default_terms,
        info.schema@.skip(n_keys as int),
        "set-if-empty default"@,
        columns,
        from,
    );
    match term_values(
        catalog,
        stream.bindings,
        keys_terms,
        info.schema@.take(n_keys as int),
        "set-if-empty key"@,
        0,
        Seq::empty(),
    ) {
        Ok(keys) => match term_values(
            catalog,
            stream.bindings,
            default_terms,
            info.schema@.skip(n_keys as int),
            "set-if-empty default"@,
            0,
            Seq::empty(),
        ) {
            Ok(defaults) => {
                let source = SlotSourceView::Read(
                    ReadView::SetIfEmpty { target, n_keys, keys, defaults },
                );
                match bind_slot(stream, from as usize, variable, source) {
                    Ok(bound) => {
                        lemma_classify_keep(catalog, live_epochs, bound, target, info);
                        match then_advanced(
                            set_if_empty_let(
                                catalog,
                                live_epochs,
                                stream,
                                from as usize,
                                variable,
                                target,
                                info,
                                n_keys,
                                out_arity,
                                arguments,
                            ),
                        ) {
                            Ok(after) => lemma_slot_step(
                                catalog,
                                stream,
                                after,
                                variable,
                                source,
                                Some(after.effects.last()),
                                columns,
                                from,
                            ),
                            Err(_) => {},
                        }
                    },
                    Err(_) => {},
                }
            },
            Err(_) => {},
        },
        Err(_) => {},
    }
}

proof fn lemma_tables_named(catalog: Catalog, name: Seq<char>, count: nat)
    requires
        count <= catalog.tables@.len(),
    ensures
        forall|k: int|
            0 <= k < tables_named(catalog, name, count).len() ==> 0
                <= #[trigger] tables_named(catalog, name, count)[k] < count,
    decreases count,
{
    if count > 0 {
        lemma_tables_named(catalog, name, (count - 1) as nat);
        let earlier = tables_named(catalog, name, (count - 1) as nat);
        let found = tables_named(catalog, name, count);
        assert forall|k: int| 0 <= k < found.len() implies 0 <= #[trigger] found[k] < count by {
            if k < earlier.len() {
                assert(found[k] == earlier[k]);
            }
        }
    }
}

proof fn lemma_fd_let(
    catalog: Catalog,
    live_epochs: Map<u32, u64>,
    stream: StreamView,
    variable: RuleVar,
    token: ExternalFunctionId,
    descriptor: FdDescriptorView,
    arguments: Seq<AtomTerm>,
    columns: nat,
    from: int,
)
    requires
        catalog.well_formed(),
        0 <= from < usize::MAX,
        stream_ordered(catalog, stream, columns, from),
    ensures
        then_advanced(
            fd_let(
                catalog,
                live_epochs,
                stream,
                from as usize,
                variable,
                token,
                descriptor,
                arguments,
            ),
        ) matches Ok(after) ==> stream_ordered(catalog, after, columns, from + 1),
{
    let name = fd_view_name(descriptor);
    lemma_tables_named(catalog, name, catalog.tables@.len());
    match table_named(catalog, name) {
        Ok(target) => {
            let found = tables_named(catalog, name, catalog.tables@.len());
            assert(0 <= found[0] < catalog.tables@.len());
            let info = catalog.tables@[target.rep as int];
            assert(info.well_formed());
            let remembered = StreamView {
                required_fd_descriptors: stream.required_fd_descriptors.insert(
                    token.rep,
                    descriptor,
                ),
                ..stream
            };
            assert(stream_ordered(catalog, remembered, columns, from));
            match descriptor {
                FdDescriptorView::SetIfEmpty { n_keys, out_arity, .. } => lemma_set_if_empty_let(
                    catalog,
                    live_epochs,
                    remembered,
                    variable,
                    target,
                    info,
                    n_keys,
                    out_arity,
                    arguments,
                    columns,
                    from,
                ),
                FdDescriptorView::ViewColumnRead { n_keys, col_idx, .. } => lemma_view_column_let(
                    catalog,
                    remembered,
                    variable,
                    target,
                    info,
                    n_keys,
                    col_idx,
                    arguments,
                    columns,
                    from,
                ),
            }
        },
        Err(_) => {},
    }
}

/// One action keeps the order.
proof fn lemma_action_step(
    catalog: Catalog,
    registries: AuthorityRegistries,
    rows: Seq<(FunctionId, Seq<ValueRefView>)>,
    stream: StreamView,
    action: CoreAction,
    columns: nat,
    from: int,
)
    requires
        catalog.well_formed(),
        0 <= from < usize::MAX,
        rows_within(rows, columns),
        stream_ordered(catalog, stream, columns, from),
    ensures
        action_step(catalog, registries, rows, stream, from as usize, action) matches Ok(after)
            ==> stream_ordered(catalog, after, columns, from + 1),
{
    let live_epochs = registries.authority_epochs@;
    match action {
        CoreAction::Let(variable, call, arguments) => match call {
            RuleActionCall::Table { id } => lemma_table_let(
                catalog,
                stream,
                variable,
                id,
                arguments@,
                columns,
                from,
            ),
            RuleActionCall::Primitive { id, .. } => {
                lemma_fresh_let(catalog, stream, variable, id, arguments@, columns, from);
                match entry(fd_views(registries.fd_descriptors@), id.rep) {
                    Some(descriptor) => lemma_fd_let(
                        catalog,
                        live_epochs,
                        stream,
                        variable,
                        id,
                        descriptor,
                        arguments@,
                        columns,
                        from,
                    ),
                    None => lemma_expression_let(
                        catalog,
                        registries,
                        stream,
                        variable,
                        id,
                        arguments@,
                        columns,
                        from,
                    ),
                }
            },
        },
        CoreAction::SetRow(call, arguments, values) => lemma_set_step(
            catalog,
            live_epochs,
            stream,
            call,
            arguments@,
            values@,
            columns,
            from,
        ),
        CoreAction::Change(change, call, arguments) => lemma_change_step(
            catalog,
            rows,
            stream,
            change,
            call,
            arguments@,
            columns,
            from,
        ),
        _ => {},
    }
}

proof fn lemma_action_steps(
    catalog: Catalog,
    registries: AuthorityRegistries,
    rows: Seq<(FunctionId, Seq<ValueRefView>)>,
    stream: StreamView,
    actions: Seq<CoreAction>,
    columns: nat,
    from: int,
)
    requires
        catalog.well_formed(),
        0 <= from <= actions.len() <= usize::MAX,
        rows_within(rows, columns),
        stream_ordered(catalog, stream, columns, from),
    ensures
        action_steps(catalog, registries, rows, stream, actions, from) matches Ok(after)
            ==> stream_ordered(catalog, after, columns, actions.len() as int),
    decreases actions.len() - from,
{
    if from < actions.len() {
        lemma_action_step(catalog, registries, rows, stream, actions[from], columns, from);
        match action_step(catalog, registries, rows, stream, from as usize, actions[from]) {
            Ok(after) => lemma_action_steps(
                catalog,
                registries,
                rows,
                after,
                actions,
                columns,
                from + 1,
            ),
            Err(_) => {},
        }
    }
}

/// A plan is straight-line: each result is computed from matched columns and
/// earlier results; each effect uses results of earlier events only, fits its
/// table and, when conditional, belongs to the result that predicts its row;
/// results, effects and fresh allocations are ordered as their actions are.
pub open spec fn plan_ordered(catalog: Catalog, plan: PlanView) -> bool {
    let columns = plan.match_projection.len();
    &&& slots_ordered(plan.slots, columns)
    &&& effects_ordered(catalog, plan.effects, plan.slots, columns)
    &&& plan.effects.len() > 0
    &&& plan.fresh_slots == fresh_count(plan.slots, plan.slots.len())
    &&& forall|k: int|
        0 <= k < plan.slots.len() ==> (#[trigger] plan.slots[k]).runtime_ordinal
            < plan.action_count
    &&& forall|k: int|
        0 <= k < plan.effects.len() ==> (#[trigger] plan.effects[k]).event_ordinal
            < plan.action_count
}

/// Every admitted scalar plan is straight-line.
pub proof fn law_scalar_plans_are_ordered(
    catalog: Catalog,
    registries: AuthorityRegistries,
    seminaive: bool,
    body: Seq<Atom>,
    head: Seq<CoreAction>,
    plan: PlanView,
)
    requires
        catalog.well_formed(),
        scalar_plan(catalog, registries, seminaive, body, head) == Ok::<
            Option<PlanView>,
            RejectionView,
        >(Some(plan)),
        head.len() <= usize::MAX,
        plan.match_projection.len() <= usize::MAX,
    ensures
        plan_ordered(catalog, plan),
{
    reveal(scalar_plan);
    match scalar_body(catalog, registries, body) {
        Ok(matched) => {
            let columns = matched.match_projection.len();
            assert(plan.match_projection == matched.match_projection);
            law_body_variables_own_columns(catalog, registries, body, matched);
            let start = stream_of(matched);
            assert forall|id: u32| #[trigger] start.bindings.contains_key(id) implies ref_within(
                start.bindings[id].value,
                columns,
                0,
            ) by {
                assert(matched.bindings.contains_key(id));
            }
            assert(stream_ordered(catalog, start, columns, 0));
            lemma_action_steps(catalog, registries, matched.rows, start, head, columns, 0);
        },
        Err(_) => {},
    }
}

/// The id that the statement of a fresh result gives to the match with an
/// ordinal, which counts from one.
pub open spec fn fresh_id(first_fresh: nat, rank: nat, match_count: nat, ordinal: nat) -> int {
    first_fresh + rank * match_count + ordinal - 1
}

/// The id that result `slot` of a plan gives to a match.
pub open spec fn slot_fresh_id(
    plan: PlanView,
    slot: int,
    first_fresh: nat,
    match_count: nat,
    ordinal: nat,
) -> int {
    fresh_id(first_fresh, plan.slots[slot].source->rank as nat, match_count, ordinal)
}

/// Result `slot` of a plan allocates an id for the match with an ordinal.
pub open spec fn allocates(plan: PlanView, slot: int, match_count: nat, ordinal: nat) -> bool {
    &&& 0 <= slot < plan.slots.len()
    &&& plan.slots[slot].source is Fresh
    &&& 1 <= ordinal <= match_count
}

proof fn lemma_fresh_count_grows(slots: Seq<SlotView>, from: nat, to: nat)
    requires
        from <= to <= slots.len(),
    ensures
        fresh_count(slots, from) <= fresh_count(slots, to),
        from < to && slots[from as int].source is Fresh ==> fresh_count(slots, from)
            < fresh_count(slots, to),
    decreases to - from,
{
    if from < to {
        lemma_fresh_count_grows(slots, from + 1, to);
    }
}

proof fn lemma_ranked_slot(slots: Seq<SlotView>, rank: nat, count: nat) -> (slot: int)
    requires
        count <= slots.len(),
        rank < fresh_count(slots, count),
    ensures
        0 <= slot < count,
        slots[slot].source is Fresh,
        fresh_count(slots, slot as nat) == rank,
    decreases count,
{
    let last = (count - 1) as nat;
    if rank < fresh_count(slots, last) {
        lemma_ranked_slot(slots, rank, last)
    } else {
        count - 1
    }
}

/// A run with `match_count` matches takes one block of ids, one for each fresh
/// result and match, and no id outside it. Earlier actions come first and,
/// within an action, earlier matches: no id is given twice.
pub proof fn law_fresh_ids_are_action_major(
    catalog: Catalog,
    plan: PlanView,
    first_fresh: nat,
    match_count: nat,
    slot: int,
    ordinal: nat,
    other_slot: int,
    other_ordinal: nat,
)
    requires
        plan_ordered(catalog, plan),
        allocates(plan, slot, match_count, ordinal),
        allocates(plan, other_slot, match_count, other_ordinal),
    ensures
        first_fresh <= slot_fresh_id(plan, slot, first_fresh, match_count, ordinal) < first_fresh
            + plan.fresh_slots * match_count,
        slot < other_slot || (slot == other_slot && ordinal < other_ordinal) ==> slot_fresh_id(
            plan,
            slot,
            first_fresh,
            match_count,
            ordinal,
        ) < slot_fresh_id(plan, other_slot, first_fresh, match_count, other_ordinal),
        slot_fresh_id(plan, slot, first_fresh, match_count, ordinal) == slot_fresh_id(
            plan,
            other_slot,
            first_fresh,
            match_count,
            other_ordinal,
        ) ==> slot == other_slot && ordinal == other_ordinal,
{
    let rank = plan.slots[slot].source->rank as int;
    let other = plan.slots[other_slot].source->rank as int;
    assert(rank == fresh_count(plan.slots, slot as nat));
    assert(other == fresh_count(plan.slots, other_slot as nat));
    lemma_fresh_count_grows(plan.slots, slot as nat, plan.slots.len());
    let count = match_count as int;
    let fresh_slots = plan.fresh_slots as int;
    assert((rank + 1) * count <= fresh_slots * count) by (nonlinear_arith)
        requires
            rank + 1 <= fresh_slots,
            count >= 0,
    ;
    assert((rank + 1) * count == rank * count + count) by (nonlinear_arith);
    assert(rank * count >= 0) by (nonlinear_arith)
        requires
            rank >= 0,
            count >= 0,
    ;
    if slot < other_slot {
        lemma_fresh_count_grows(plan.slots, slot as nat, other_slot as nat);
        assert((rank + 1) * count <= other * count) by (nonlinear_arith)
            requires
                rank + 1 <= other,
                count >= 0,
        ;
    } else if other_slot < slot {
        lemma_fresh_count_grows(plan.slots, other_slot as nat, slot as nat);
        assert((other + 1) * count <= rank * count) by (nonlinear_arith)
            requires
                other + 1 <= rank,
                count >= 0,
        ;
        assert((other + 1) * count == other * count + count) by (nonlinear_arith);
    }
}

/// Every id of the block that a run takes is given to some match.
pub proof fn law_fresh_ids_leave_no_gap(
    catalog: Catalog,
    plan: PlanView,
    first_fresh: nat,
    match_count: nat,
    id: int,
)
    requires
        plan_ordered(catalog, plan),
        first_fresh <= id < first_fresh + plan.fresh_slots * match_count,
    ensures
        exists|slot: int, ordinal: nat| #[trigger]
            allocates(plan, slot, match_count, ordinal) && slot_fresh_id(
                plan,
                slot,
                first_fresh,
                match_count,
                ordinal,
            ) == id,
{
    let offset = id - first_fresh;
    let count = match_count as int;
    let fresh_slots = plan.fresh_slots as int;
    if count == 0 {
        assert(fresh_slots * count == 0) by (nonlinear_arith)
            requires
                count == 0,
        ;
    }
    let rank = offset / count;
    let ordinal = (offset % count + 1) as nat;
    vstd::arithmetic::div_mod::lemma_fundamental_div_mod(offset, count);
    assert(0 <= offset % count < count) by (nonlinear_arith)
        requires
            count > 0,
    ;
    assert(0 <= rank < fresh_slots) by (nonlinear_arith)
        requires
            rank == offset / count,
            0 <= offset < fresh_slots * count,
            count > 0,
    ;
    let slot = lemma_ranked_slot(plan.slots, rank as nat, plan.slots.len());
    assert(plan.slots[slot].source->rank as int == rank);
    assert(count * rank == rank * count) by (nonlinear_arith);
    assert(allocates(plan, slot, match_count, ordinal));
}

} // verus!
