//! What the head of a rule means: the results and effects of its plan are what its
//! actions say of the variables.

use vstd::prelude::*;

#[allow(unused_imports)]
use crate::action_body::{
    atom_step, atom_steps, bind_row, bind_term, body_ref, body_refs, body_term, column_text, joined,
    occurrence_columns, occurrence_test, prebind, scalar_body, tested, BodyView,
};
#[allow(unused_imports)]
use crate::action_plan::{
    EffectView, PlanView, ReadView, ScalarEffectKind, SlotSourceView, SlotView, ValueRefView,
};
#[allow(unused_imports)]
use crate::action_rule::{
    action_step, action_steps, bind_slot, let_step, matching_rows, row_matches, scalar_action,
    scalar_plan, set_step, stream_of, BoundView, StreamView,
};
#[allow(unused_imports)]
use crate::authority::{entry, fd_view_name, fd_views, AuthorityRegistries, FdDescriptorView};
#[allow(unused_imports)]
use crate::body_laws::lemma_prebind;
#[allow(unused_imports)]
use crate::catalog::{
    table_at, table_named, table_text, tables_named, typed_literal, Catalog, TableInfo,
    WriteCapability,
};
#[allow(unused_imports)]
use crate::count_laws::lemma_steps_grow;
#[allow(unused_imports)]
use crate::ir::{
    term_ty, Atom, AtomTerm, Change, ColumnTy, CoreAction, FunctionId, RuleActionCall, RuleBodyCall,
    RuleValue, RuleVar,
};
#[allow(unused_imports)]
use crate::match_query::{expression_value, faithful, Forms};
#[allow(unused_imports)]
use crate::plan_laws::lemma_classify_keep;
#[allow(unused_imports)]
use crate::rejection::RejectionView;
#[allow(unused_imports)]
use crate::rule_meaning::{term_value, term_values, Assignment, World};
#[allow(unused_imports)]
use crate::scalar_expr::authenticated;
#[allow(unused_imports)]
use crate::slot_laws::{found, has_owner, holds_keys, keys_complete, slot_outcome};
#[allow(unused_imports)]
use crate::sql::{ref_value, Database, Datum, Meaning, Name, Row};
#[allow(unused_imports)]
use crate::variable_laws::{bindings_occur, bindings_stay, lemma_atom_binds, lemma_prebind_occurs};

verus! {

// ---------------------------------------------------------------------------
// What actions say.

/// One match of a rule with its results: the database, the row of the match
/// relation that has a column for every result, and the values of the variables.
pub struct Moment {
    pub catalog: Catalog,
    pub registries: AuthorityRegistries,
    pub database: Database,
    pub ledger: Seq<char>,
    pub first_fresh: nat,
    pub match_count: nat,
    pub matched: Row,
    pub world: World,
    pub forms: Forms,
    pub meaning: Meaning,
    pub assignment: Assignment,
}

/// How far a head has run: its results, timed actions, fresh ids and effects.
pub struct Progress {
    pub slots: nat,
    pub events: nat,
    pub fresh: nat,
    pub effects: nat,
}

/// The values of terms at a moment.
pub open spec fn said(moment: Moment, terms: Seq<AtomTerm>) -> Seq<Datum> {
    term_values(terms, moment.world, moment.assignment)
}

/// Row `k` of a relation starts with values.
pub open spec fn starts_with(
    database: Database,
    relation: Seq<char>,
    k: int,
    keys: Seq<Datum>,
) -> bool {
    &&& 0 <= k < database(relation).len()
    &&& forall|i: int|
        0 <= i < keys.len() ==> database(relation)[k](Name::C(i as nat)) == #[trigger] keys[i]
}

/// Some row of a relation starts with values.
pub open spec fn present(database: Database, relation: Seq<char>, keys: Seq<Datum>) -> bool {
    exists|k: int| #[trigger] starts_with(database, relation, k, keys)
}

/// A column of some row that starts with values.
pub open spec fn stored(
    database: Database,
    relation: Seq<char>,
    keys: Seq<Datum>,
    column: nat,
    value: Datum,
) -> bool {
    exists|k: int| #[trigger]
        starts_with(database, relation, k, keys) && value == database(relation)[k](
            Name::C(column),
        )
}

/// A binding holds. A table call is the value of the row under the arguments. A
/// fresh id is counted on from the first one, by the fresh ids before it. A
/// set-if-empty is the first value of the view's row under its keys, or else of the
/// predicted row. A view column is that value of the view's row, or else the last
/// argument. Any other primitive is what it yields for the arguments.
pub open spec fn binding_holds(
    moment: Moment,
    variable: RuleVar,
    call: RuleActionCall,
    args: Seq<AtomTerm>,
    progress: Progress,
) -> bool {
    let value = (moment.assignment)(variable.id);
    match call {
        RuleActionCall::Table { id } => stored(
            moment.database,
            table_text(id),
            said(moment, args),
            args.len(),
            value,
        ),
        RuleActionCall::Primitive { id, .. } => if moment.registries.fresh_tokens@.contains(id.rep) {
            match (moment.matched)(Name::MatchOrdinal) {
                Datum::Number(ordinal) => value == Datum::Number(
                    moment.first_fresh + progress.fresh * moment.match_count + ordinal - 1,
                ),
                _ => false,
            }
        } else {
            match entry(fd_views(moment.registries.fd_descriptors@), id.rep) {
                Some(FdDescriptorView::SetIfEmpty { view_name, n_keys, .. }) => {
                    let view = table_text(table_named(moment.catalog, view_name)->Ok_0);
                    let keys = said(moment, args.take(n_keys as int));
                    if present(moment.database, view, keys) {
                        stored(moment.database, view, keys, n_keys as nat, value)
                    } else {
                        stored(moment.database, moment.ledger, keys, n_keys as nat, value)
                    }
                },
                Some(FdDescriptorView::ViewColumnRead { view_name, n_keys, col_idx }) => {
                    let view = table_text(table_named(moment.catalog, view_name)->Ok_0);
                    let keys = said(moment, args.take(n_keys as int));
                    if present(moment.database, view, keys) {
                        stored(moment.database, view, keys, (n_keys + col_idx) as nat, value)
                    } else {
                        value == term_value(args.last(), moment.world, moment.assignment)
                    }
                },
                None => match (moment.world.primitive)(id.rep, said(moment, args)) {
                    Some(result) => value == result,
                    None => true,
                },
            }
        },
    }
}

/// How a table is written.
pub open spec fn written_as(info: TableInfo) -> ScalarEffectKind {
    match info.write_capability {
        WriteCapability::AssertEq => ScalarEffectKind::AssertEq,
        WriteCapability::KeepOld => ScalarEffectKind::KeepOld,
        WriteCapability::Deferred => ScalarEffectKind::GenericMerge,
    }
}

/// Planned values have these values at a moment.
pub open spec fn evaluates(moment: Moment, refs: Seq<ValueRefView>, values: Seq<Datum>) -> bool {
    &&& refs.len() == values.len()
    &&& forall|i: int|
        0 <= i < refs.len() ==> ref_value(#[trigger] refs[i], moment.matched, moment.meaning)
            == values[i]
}

/// An effect writes, deletes or subsumes a row of a table at an event.
pub open spec fn effect_is(
    moment: Moment,
    effect: EffectView,
    target: FunctionId,
    kind: ScalarEffectKind,
    event: nat,
    keys: Seq<Datum>,
    values: Seq<Datum>,
    condition: Option<nat>,
) -> bool {
    &&& effect.target == target
    &&& effect.kind == kind
    &&& effect.event_ordinal == event
    &&& effect.n_keys == keys.len()
    &&& effect.arity == table_at(moment.catalog, target)->Ok_0.schema@.len()
    &&& evaluates(moment, effect.arguments, keys)
    &&& evaluates(moment, effect.values, values)
    &&& match (effect.condition_slot, condition) {
        (None, None) => true,
        (Some(slot), Some(wanted)) => slot == wanted,
        _ => false,
    }
}

/// The table that a call names.
pub open spec fn call_target(call: RuleActionCall) -> FunctionId {
    match call {
        RuleActionCall::Table { id } => id,
        _ => arbitrary(),
    }
}

/// The descriptor of a set-if-empty binding.
pub open spec fn predicting(registries: AuthorityRegistries, action: CoreAction) -> Option<
    FdDescriptorView,
> {
    match action {
        CoreAction::Let(_, RuleActionCall::Primitive { id, .. }, _) => {
            if registries.fresh_tokens@.contains(id.rep) {
                None
            } else {
                match entry(fd_views(registries.fd_descriptors@), id.rep) {
                    Some(descriptor) => if descriptor is SetIfEmpty {
                        Some(descriptor)
                    } else {
                        None
                    },
                    None => None,
                }
            }
        },
        _ => None,
    }
}

/// A head runs on by one action.
pub open spec fn run_on(
    registries: AuthorityRegistries,
    action: CoreAction,
    progress: Progress,
) -> Progress {
    Progress {
        slots: if action is Let {
            progress.slots + 1
        } else {
            progress.slots
        },
        events: if action is LetAtomTerm {
            progress.events
        } else {
            progress.events + 1
        },
        fresh: match action {
            CoreAction::Let(_, RuleActionCall::Primitive { id, .. }, _) => {
                if registries.fresh_tokens@.contains(id.rep) {
                    progress.fresh + 1
                } else {
                    progress.fresh
                }
            },
            _ => progress.fresh,
        },
        effects: if action is SetRow || action is Change || predicting(registries, action)
            is Some {
            progress.effects + 1
        } else {
            progress.effects
        },
    }
}

/// One action holds of the results and effects of a plan.
///
/// A binding holds of its result. A set-if-empty also writes its row, under the
/// condition that its result is missing. A write has the row that it names. A
/// deletion has its keys, and a subsumption the whole row of a matched atom.
pub open spec fn action_holds(
    moment: Moment,
    rows: Seq<(FunctionId, Seq<Datum>)>,
    slots: Seq<SlotView>,
    effects: Seq<EffectView>,
    action: CoreAction,
    progress: Progress,
) -> bool {
    let slot = progress.slots as int;
    let effect = effects[progress.effects as int];
    match action {
        CoreAction::Let(variable, call, args) => {
            &&& slot < slots.len()
            &&& slots[slot].ty == variable.ty
            &&& slots[slot].runtime_ordinal == progress.events
            &&& binding_holds(moment, variable, call, args@, progress)
            &&& match predicting(moment.registries, action) {
                Some(FdDescriptorView::SetIfEmpty { view_name, n_keys, .. }) => {
                    let view = table_named(moment.catalog, view_name)->Ok_0;
                    &&& progress.effects < effects.len()
                    &&& effect_is(
                        moment,
                        effect,
                        view,
                        written_as(table_at(moment.catalog, view)->Ok_0),
                        progress.events,
                        said(moment, args@.take(n_keys as int)),
                        said(moment, args@.skip(n_keys as int)),
                        Some(progress.slots),
                    )
                },
                _ => true,
            }
        },
        CoreAction::LetAtomTerm(_, _) => true,
        CoreAction::SetRow(call, args, values) => {
            &&& progress.effects < effects.len()
            &&& effect_is(
                moment,
                effect,
                call_target(call),
                written_as(table_at(moment.catalog, call_target(call))->Ok_0),
                progress.events,
                said(moment, args@),
                said(moment, values@),
                None,
            )
        },
        CoreAction::Change(change, call, args) => {
            &&& progress.effects < effects.len()
            &&& match change {
                Change::Delete => effect_is(
                    moment,
                    effect,
                    call_target(call),
                    ScalarEffectKind::Delete,
                    progress.events,
                    said(moment, args@),
                    Seq::empty(),
                    None,
                ),
                Change::Subsume => exists|r: int|
                    #![trigger rows[r]]
                    0 <= r < rows.len() && rows[r].0 == call_target(call) && rows[r].1.take(
                        args@.len() as int,
                    ) == said(moment, args@) && effect_is(
                        moment,
                        effect,
                        call_target(call),
                        ScalarEffectKind::Subsume,
                        progress.events,
                        said(moment, args@),
                        rows[r].1.skip(args@.len() as int),
                        None,
                    ),
            }
        },
        CoreAction::Union(_, _) | CoreAction::Panic(_) => false,
    }
}

/// The actions from `from` on hold, and the plan has nothing else.
pub open spec fn head_holds(
    moment: Moment,
    rows: Seq<(FunctionId, Seq<Datum>)>,
    slots: Seq<SlotView>,
    effects: Seq<EffectView>,
    head: Seq<CoreAction>,
    from: int,
    progress: Progress,
) -> bool
    decreases head.len() - from,
{
    if 0 <= from < head.len() {
        &&& action_holds(moment, rows, slots, effects, head[from], progress)
        &&& head_holds(
            moment,
            rows,
            slots,
            effects,
            head,
            from + 1,
            run_on(moment.registries, head[from], progress),
        )
    } else {
        slots.len() == progress.slots && effects.len() == progress.effects
    }
}

/// The variables that the actions from `from` on bind have their values: a binding
/// that of its result, and an alias that of its term.
pub open spec fn head_assigned(
    moment: Moment,
    head: Seq<CoreAction>,
    from: int,
    slots: nat,
) -> bool
    decreases head.len() - from,
{
    if 0 <= from < head.len() {
        match head[from] {
            CoreAction::Let(variable, _, _) => (moment.assignment)(variable.id) == (
            moment.matched)(Name::S(slots)) && head_assigned(moment, head, from + 1, slots + 1),
            CoreAction::LetAtomTerm(variable, term) => (moment.assignment)(variable.id)
                == term_value(term, moment.world, moment.assignment) && head_assigned(
                moment,
                head,
                from + 1,
                slots,
            ),
            _ => head_assigned(moment, head, from + 1, slots),
        }
    } else {
        true
    }
}

// ---------------------------------------------------------------------------
// The plan says so.

/// Bound variables have their values.
pub open spec fn realized(moment: Moment, bindings: Map<u32, BoundView>) -> bool {
    forall|id: u32| #[trigger]
        bindings.contains_key(id) ==> ref_value(
            bindings[id].value,
            moment.matched,
            moment.meaning,
        ) == (moment.assignment)(id)
}

/// Constants mean the same in rules and in SQL.
pub open spec fn same_constants(moment: Moment) -> bool {
    forall|literal: RuleValue|
        (#[trigger] typed_literal(moment.catalog, literal.ty, literal.value)) matches Ok(
            (scalar, _),
        ) ==> (moment.meaning)(scalar, literal.value) == (moment.world.constant)(literal)
}

/// Every result has the value that it is for.
pub open spec fn results_hold(moment: Moment, slots: Seq<SlotView>) -> bool {
    forall|s: int|
        0 <= s < slots.len() ==> slot_outcome(
            #[trigger] slots[s],
            moment.first_fresh,
            moment.match_count,
            moment.ledger,
            moment.database,
            moment.matched,
            moment.meaning,
            moment.forms.value,
            (moment.matched)(Name::S(s as nat)),
        )
}

/// The matched rows have their values.
pub open spec fn rows_hold(
    moment: Moment,
    planned: Seq<(FunctionId, Seq<ValueRefView>)>,
    rows: Seq<(FunctionId, Seq<Datum>)>,
) -> bool {
    &&& planned.len() == rows.len()
    &&& forall|r: int|
        0 <= r < rows.len() ==> (#[trigger] rows[r]).0 == planned[r].0 && evaluates(
            moment,
            planned[r].1,
            rows[r].1,
        )
}

proof fn lemma_term(
    moment: Moment,
    bindings: Map<u32, BoundView>,
    term: AtomTerm,
    expected: ColumnTy,
    context: Seq<char>,
)
    requires
        realized(moment, bindings),
        same_constants(moment),
    ensures
        crate::action_rule::term_value(moment.catalog, bindings, term, expected, context) matches Ok(
            value,
        ) ==> ref_value(value, moment.matched, moment.meaning) == term_value(
            term,
            moment.world,
            moment.assignment,
        ),
{
    match term {
        AtomTerm::Var(variable) => {
            if bindings.contains_key(variable.id) {
            }
        },
        AtomTerm::Literal(literal) => {
            assert(typed_literal(moment.catalog, literal.ty, literal.value) == typed_literal(
                moment.catalog,
                literal.ty,
                literal.value,
            ));
        },
        AtomTerm::Global(_) => {},
    }
}

proof fn lemma_terms(
    moment: Moment,
    bindings: Map<u32, BoundView>,
    terms: Seq<AtomTerm>,
    tys: Seq<ColumnTy>,
    context: Seq<char>,
    from: int,
    done: Seq<ValueRefView>,
)
    requires
        realized(moment, bindings),
        same_constants(moment),
        0 <= from <= terms.len(),
        evaluates(moment, done, said(moment, terms.take(from))),
    ensures
        crate::action_rule::term_values(
            moment.catalog,
            bindings,
            terms,
            tys,
            context,
            from,
            done,
        ) matches Ok(values) ==> evaluates(moment, values, said(moment, terms)),
    decreases terms.len() - from,
{
    if from < terms.len() {
        lemma_term(moment, bindings, terms[from], tys[from], context);
        match crate::action_rule::term_value(
            moment.catalog,
            bindings,
            terms[from],
            tys[from],
            context,
        ) {
            Ok(value) => {
                let next = said(moment, terms.take(from + 1));
                assert(next =~= said(moment, terms.take(from)).push(
                    term_value(terms[from], moment.world, moment.assignment),
                ));
                assert(evaluates(moment, done.push(value), next));
                lemma_terms(
                    moment,
                    bindings,
                    terms,
                    tys,
                    context,
                    from + 1,
                    done.push(value),
                );
            },
            Err(_) => {},
        }
    } else {
        assert(terms.take(from) =~= terms);
    }
}

proof fn lemma_all_terms(
    moment: Moment,
    bindings: Map<u32, BoundView>,
    terms: Seq<AtomTerm>,
    tys: Seq<ColumnTy>,
    context: Seq<char>,
)
    requires
        realized(moment, bindings),
        same_constants(moment),
    ensures
        crate::action_rule::term_values(
            moment.catalog,
            bindings,
            terms,
            tys,
            context,
            0,
            Seq::empty(),
        ) matches Ok(values) ==> evaluates(moment, values, said(moment, terms)),
{
    lemma_terms(moment, bindings, terms, tys, context, 0, Seq::empty());
}

/// A row that holds planned keys starts with their values.
proof fn lemma_keys(
    moment: Moment,
    relation: Seq<char>,
    keys: Seq<ValueRefView>,
    data: Seq<Datum>,
    column: nat,
    value: Datum,
)
    requires
        evaluates(moment, keys, data),
    ensures
        found(
            moment.database,
            relation,
            keys,
            column,
            moment.matched,
            moment.meaning,
            value,
        ) <==> stored(moment.database, relation, data, column, value),
        has_owner(moment.database, relation, keys, moment.matched, moment.meaning) <==> present(
            moment.database,
            relation,
            data,
        ),
{
    assert forall|k: int| #[trigger]
        holds_keys(
            moment.database,
            relation,
            k,
            keys,
            moment.matched,
            moment.meaning,
        ) <==> starts_with(moment.database, relation, k, data) by {
        if 0 <= k < (moment.database)(relation).len() {
            let row = (moment.database)(relation)[k];
            if starts_with(moment.database, relation, k, data) {
                assert forall|i: int| 0 <= i < keys.len() implies row(Name::C(i as nat))
                    == ref_value(#[trigger] keys[i], moment.matched, moment.meaning) by {
                    assert(row(Name::C(i as nat)) == data[i]);
                }
            }
            if holds_keys(
                moment.database,
                relation,
                k,
                keys,
                moment.matched,
                moment.meaning,
            ) {
                assert forall|i: int| 0 <= i < data.len() implies row(Name::C(i as nat))
                    == #[trigger] data[i] by {
                    assert(ref_value(keys[i], moment.matched, moment.meaning) == data[i]);
                }
            }
        }
    }
    assert forall|k: int| #[trigger] starts_with(moment.database, relation, k, data) implies holds_keys(
        moment.database,
        relation,
        k,
        keys,
        moment.matched,
        moment.meaning,
    ) by {
        assert(holds_keys(
            moment.database,
            relation,
            k,
            keys,
            moment.matched,
            moment.meaning,
        ) <==> starts_with(moment.database, relation, k, data));
    }
}

/// A list continues another one.
pub open spec fn continues<T>(some: Seq<T>, all: Seq<T>) -> bool {
    some.len() <= all.len() && forall|i: int| 0 <= i < some.len() ==> all[i] == #[trigger] some[i]
}

/// A stream has come this far.
pub open spec fn come_to(stream: StreamView, progress: Progress) -> bool {
    &&& stream.slots.len() == progress.slots
    &&& stream.runtime_ordinal == progress.events
    &&& stream.fresh_rank == progress.fresh
    &&& stream.effects.len() == progress.effects
}

/// A binding adds its result and binds its variable to it.
pub open spec fn adds_result(
    stream: StreamView,
    after: StreamView,
    variable: RuleVar,
    source: SlotSourceView,
) -> bool {
    &&& after.slots.len() == stream.slots.len() + 1
    &&& continues(stream.slots, after.slots)
    &&& after.slots.last().ty == variable.ty
    &&& after.slots.last().runtime_ordinal == stream.runtime_ordinal
    &&& after.slots.last().source == source
    &&& after.bindings == stream.bindings.insert(
        variable.id,
        BoundView {
            ty: variable.ty,
            value: ValueRefView::Slot(stream.slots.len() as usize),
        },
    )
    &&& after.runtime_ordinal == stream.runtime_ordinal
}

proof fn lemma_set_if_empty(
    moment: Moment,
    live_epochs: Map<u32, u64>,
    stream: StreamView,
    raw: usize,
    variable: RuleVar,
    target: FunctionId,
    info: TableInfo,
    n_keys: usize,
    out_arity: usize,
    args: Seq<AtomTerm>,
) -> (keys: (Seq<ValueRefView>, Seq<ValueRefView>))
    requires
        realized(moment, stream.bindings),
        same_constants(moment),
        table_at(moment.catalog, target) == Ok::<TableInfo, RejectionView>(info),
        stream.slots.len() <= usize::MAX,
        crate::action_rule::set_if_empty_let(
            moment.catalog,
            live_epochs,
            stream,
            raw,
            variable,
            target,
            info,
            n_keys,
            out_arity,
            args,
        ) is Ok,
    ensures
        ({
            let after = crate::action_rule::set_if_empty_let(
                moment.catalog,
                live_epochs,
                stream,
                raw,
                variable,
                target,
                info,
                n_keys,
                out_arity,
                args,
            )->Ok_0;
            &&& adds_result(
                stream,
                after,
                variable,
                SlotSourceView::Read(
                    ReadView::SetIfEmpty { target, n_keys, keys: keys.0, defaults: keys.1 },
                ),
            )
            &&& evaluates(moment, keys.0, said(moment, args.take(n_keys as int)))
            &&& after.fresh_rank == stream.fresh_rank
            &&& after.effects.len() == stream.effects.len() + 1
            &&& continues(stream.effects, after.effects)
            &&& effect_is(
                moment,
                after.effects.last(),
                target,
                written_as(info),
                stream.runtime_ordinal as nat,
                said(moment, args.take(n_keys as int)),
                said(moment, args.skip(n_keys as int)),
                Some(stream.slots.len()),
            )
        }),
{
    let catalog = moment.catalog;
    lemma_all_terms(
        moment,
        stream.bindings,
        args.take(n_keys as int),
        info.schema@.take(n_keys as int),
        "set-if-empty key"@,
    );
    lemma_all_terms(
        moment,
        stream.bindings,
        args.skip(n_keys as int),
        info.schema@.skip(n_keys as int),
        "set-if-empty default"@,
    );
    let keys = crate::action_rule::term_values(
        catalog,
        stream.bindings,
        args.take(n_keys as int),
        info.schema@.take(n_keys as int),
        "set-if-empty key"@,
        0,
        Seq::empty(),
    )->Ok_0;
    let defaults = crate::action_rule::term_values(
        catalog,
        stream.bindings,
        args.skip(n_keys as int),
        info.schema@.skip(n_keys as int),
        "set-if-empty default"@,
        0,
        Seq::empty(),
    )->Ok_0;
    let bound = bind_slot(
        stream,
        raw,
        variable,
        SlotSourceView::Read(ReadView::SetIfEmpty { target, n_keys, keys, defaults }),
    )->Ok_0;
    lemma_classify_keep(catalog, live_epochs, bound, target, info);
    assert(info.schema.len() == info.schema@.len());
    (keys, defaults)
}

/// What a binding adds to a stream, and that it holds of it.
proof fn lemma_binding(
    moment: Moment,
    rows: Seq<(FunctionId, Seq<Datum>)>,
    stream: StreamView,
    raw: usize,
    variable: RuleVar,
    call: RuleActionCall,
    args: Vec<AtomTerm>,
    progress: Progress,
    slots: Seq<SlotView>,
    effects: Seq<EffectView>,
)
    requires
        moment.catalog.well_formed(),
        realized(moment, stream.bindings),
        same_constants(moment),
        faithful(moment.world, moment.forms, moment.catalog, moment.registries),
        come_to(stream, progress),
        stream.slots.len() <= usize::MAX,
        let_step(
            moment.catalog,
            moment.registries,
            stream,
            raw,
            variable,
            call,
            args@,
        ) is Ok,
        (moment.assignment)(variable.id) == (moment.matched)(Name::S(progress.slots)),
    ensures
        ({
            let after = let_step(
                moment.catalog,
                moment.registries,
                stream,
                raw,
                variable,
                call,
                args@,
            )->Ok_0;
            let action = CoreAction::Let(variable, call, args);
            let next = run_on(moment.registries, action, progress);
            &&& after.slots.len() == next.slots
            &&& after.fresh_rank == next.fresh
            &&& after.effects.len() == next.effects
            &&& after.runtime_ordinal + 1 == next.events
            &&& continues(stream.slots, after.slots)
            &&& continues(stream.effects, after.effects)
            &&& realized(moment, after.bindings)
            &&& continues(after.slots, slots) && continues(after.effects, effects) && results_hold(
                moment,
                slots,
            ) ==> action_holds(moment, rows, slots, effects, action, progress)
        }),
{
    let catalog = moment.catalog;
    let registries = moment.registries;
    let after = let_step(catalog, registries, stream, raw, variable, call, args@)->Ok_0;
    let action = CoreAction::Let(variable, call, args);
    let s = progress.slots as int;
    let value = (moment.assignment)(variable.id);
    match call {
        RuleActionCall::Table { id } => {
            let info = table_at(catalog, id)->Ok_0;
            lemma_all_terms(
                moment,
                stream.bindings,
                args@,
                info.schema@.take(info.n_keys as int),
                "table Let key"@,
            );
            let keys = crate::action_rule::term_values(
                catalog,
                stream.bindings,
                args@,
                info.schema@.take(info.n_keys as int),
                "table Let key"@,
                0,
                Seq::empty(),
            )->Ok_0;
            let source = SlotSourceView::Read(
                ReadView::Table {
                    target: id,
                    n_keys: info.n_keys,
                    result_column: info.n_keys,
                    keys,
                },
            );
            assert(adds_result(stream, after, variable, source));
            lemma_keys(moment, table_text(id), keys, said(moment, args@), args@.len(), value);
        },
        RuleActionCall::Primitive { id, output, .. } => {
            if registries.fresh_tokens@.contains(id.rep) {
                let source = SlotSourceView::Fresh { rank: stream.fresh_rank };
                assert(adds_result(stream, after, variable, source));
            } else {
                match entry(fd_views(registries.fd_descriptors@), id.rep) {
                    Some(descriptor) => {
                        let target = table_named(catalog, fd_view_name(descriptor))->Ok_0;
                        let info = catalog.tables@[target.rep as int];
                        lemma_named_table(catalog, fd_view_name(descriptor));
                        let remembered = StreamView {
                            required_fd_descriptors: stream.required_fd_descriptors.insert(
                                id.rep,
                                descriptor,
                            ),
                            ..stream
                        };
                        match descriptor {
                            FdDescriptorView::SetIfEmpty { n_keys, out_arity, .. } => {
                                let keys = lemma_set_if_empty(
                                    moment,
                                    registries.authority_epochs@,
                                    remembered,
                                    raw,
                                    variable,
                                    target,
                                    info,
                                    n_keys,
                                    out_arity,
                                    args@,
                                );
                                let data = said(moment, args@.take(n_keys as int));
                                lemma_keys(
                                    moment,
                                    table_text(target),
                                    keys.0,
                                    data,
                                    n_keys as nat,
                                    value,
                                );
                                lemma_keys(
                                    moment,
                                    moment.ledger,
                                    keys.0,
                                    data,
                                    n_keys as nat,
                                    value,
                                );
                                assert(predicting(registries, action) == Some(descriptor));
                            },
                            FdDescriptorView::ViewColumnRead { n_keys, col_idx, .. } => {
                                lemma_all_terms(
                                    moment,
                                    stream.bindings,
                                    args@.take(n_keys as int),
                                    info.schema@.take(n_keys as int),
                                    "view-column key"@,
                                );
                                lemma_term(
                                    moment,
                                    stream.bindings,
                                    args@[n_keys as int],
                                    info.schema@[n_keys + col_idx],
                                    "view-column fallback"@,
                                );
                                let keys = crate::action_rule::term_values(
                                    catalog,
                                    stream.bindings,
                                    args@.take(n_keys as int),
                                    info.schema@.take(n_keys as int),
                                    "view-column key"@,
                                    0,
                                    Seq::empty(),
                                )->Ok_0;
                                let fallback = crate::action_rule::term_value(
                                    catalog,
                                    stream.bindings,
                                    args@[n_keys as int],
                                    info.schema@[n_keys + col_idx],
                                    "view-column fallback"@,
                                )->Ok_0;
                                let source = SlotSourceView::Read(
                                    ReadView::ViewColumn {
                                        target,
                                        n_keys,
                                        result_column: (n_keys + col_idx) as usize,
                                        keys,
                                        fallback,
                                    },
                                );
                                assert(adds_result(stream, after, variable, source));
                                assert(info.well_formed());
                                assert(info.schema.len() == info.schema@.len());
                                lemma_keys(
                                    moment,
                                    table_text(target),
                                    keys,
                                    said(moment, args@.take(n_keys as int)),
                                    (n_keys + col_idx) as nat,
                                    value,
                                );
                            },
                        }
                    },
                    None => {
                        let tys = args@.map_values(|t: AtomTerm| term_ty(t));
                        let expression = authenticated(
                            catalog.forms@,
                            registries,
                            id,
                            tys,
                            variable.ty,
                        )->Ok_0;
                        lemma_all_terms(
                            moment,
                            stream.bindings,
                            args@,
                            tys,
                            "scalar expression input"@,
                        );
                        let inputs = crate::action_rule::term_values(
                            catalog,
                            stream.bindings,
                            args@,
                            tys,
                            "scalar expression input"@,
                            0,
                            Seq::empty(),
                        )->Ok_0;
                        let source = SlotSourceView::Expression { expression, inputs };
                        assert(adds_result(stream, after, variable, source));
                        let data = said(moment, args@);
                        assert(Seq::new(
                            inputs.len(),
                            |i: int| ref_value(inputs[i], moment.matched, moment.meaning),
                        ) =~= data);
                        assert((moment.world.primitive)(id.rep, data) == expression_value(
                            expression,
                            data,
                            moment.forms,
                        ));
                    },
                }
            }
        },
    }
    assert(realized(moment, after.bindings)) by {
        assert forall|v: u32| #[trigger] after.bindings.contains_key(v) implies ref_value(
            after.bindings[v].value,
            moment.matched,
            moment.meaning,
        ) == (moment.assignment)(v) by {
            if v != variable.id {
                assert(stream.bindings.contains_key(v));
            }
        }
    }
    if continues(after.slots, slots) && continues(after.effects, effects) && results_hold(
        moment,
        slots,
    ) {
        assert(slots[s] == after.slots[s]);
        assert(slot_outcome(
            slots[s],
            moment.first_fresh,
            moment.match_count,
            moment.ledger,
            moment.database,
            moment.matched,
            moment.meaning,
            moment.forms.value,
            (moment.matched)(Name::S(s as nat)),
        ));
        if predicting(registries, action) is Some {
            let e = progress.effects as int;
            assert(effects[e] == after.effects[e]);
        }
        assert(binding_holds(moment, variable, call, args@, progress));
    }
}

proof fn lemma_tables_named(catalog: Catalog, name: Seq<char>, count: nat)
    ensures
        forall|k: int|
            0 <= k < tables_named(catalog, name, count).len() ==> 0 <= #[trigger] tables_named(
                catalog,
                name,
                count,
            )[k] < count,
    decreases count,
{
    if count > 0 {
        let earlier = tables_named(catalog, name, (count - 1) as nat);
        let found = tables_named(catalog, name, count);
        lemma_tables_named(catalog, name, (count - 1) as nat);
        assert forall|k: int| 0 <= k < found.len() implies 0 <= #[trigger] found[k] < count by {
            if k < earlier.len() {
                assert(found[k] == earlier[k]);
            }
        }
    }
}

/// A table that a name resolves to exists.
proof fn lemma_named_table(catalog: Catalog, name: Seq<char>)
    ensures
        table_named(catalog, name) matches Ok(id) ==> table_at(catalog, id) == Ok::<
            TableInfo,
            RejectionView,
        >(catalog.tables@[id.rep as int]),
{
    lemma_tables_named(catalog, name, catalog.tables@.len());
    let found = tables_named(catalog, name, catalog.tables@.len());
    if found.len() == 1 {
        assert(0 <= found[0] < catalog.tables@.len());
    }
}

/// What a write adds to a stream, and that it holds of it.
proof fn lemma_write(
    moment: Moment,
    rows: Seq<(FunctionId, Seq<Datum>)>,
    stream: StreamView,
    raw: usize,
    call: RuleActionCall,
    args: Vec<AtomTerm>,
    values: Vec<AtomTerm>,
    progress: Progress,
    slots: Seq<SlotView>,
    effects: Seq<EffectView>,
)
    requires
        realized(moment, stream.bindings),
        same_constants(moment),
        come_to(stream, progress),
        set_step(
            moment.catalog,
            moment.registries.authority_epochs@,
            stream,
            raw,
            call,
            args@,
            values@,
        ) is Ok,
    ensures
        ({
            let after = set_step(
                moment.catalog,
                moment.registries.authority_epochs@,
                stream,
                raw,
                call,
                args@,
                values@,
            )->Ok_0;
            let action = CoreAction::SetRow(call, args, values);
            &&& after.slots == stream.slots
            &&& after.fresh_rank == stream.fresh_rank
            &&& after.runtime_ordinal == stream.runtime_ordinal
            &&& after.bindings == stream.bindings
            &&& after.effects.len() == stream.effects.len() + 1
            &&& continues(stream.effects, after.effects)
            &&& continues(after.effects, effects) ==> action_holds(
                moment,
                rows,
                slots,
                effects,
                action,
                progress,
            )
        }),
{
    match call {
        RuleActionCall::Table { id } => {
            let catalog = moment.catalog;
            let info = table_at(catalog, id)->Ok_0;
            lemma_all_terms(
                moment,
                stream.bindings,
                args@,
                info.schema@.take(info.n_keys as int),
                "Set key"@,
            );
            lemma_all_terms(
                moment,
                stream.bindings,
                values@,
                info.schema@.skip(info.n_keys as int),
                "Set value"@,
            );
            lemma_classify_keep(catalog, moment.registries.authority_epochs@, stream, id, info);
            assert(info.schema.len() == info.schema@.len());
            let after = set_step(
                catalog,
                moment.registries.authority_epochs@,
                stream,
                raw,
                call,
                args@,
                values@,
            )->Ok_0;
            if continues(after.effects, effects) {
                let e = progress.effects as int;
                assert(effects[e] == after.effects[e]);
            }
        },
        _ => {},
    }
}

proof fn lemma_matching_rows(
    rows: Seq<(FunctionId, Seq<ValueRefView>)>,
    target: FunctionId,
    arity: nat,
    keys: Seq<ValueRefView>,
    count: nat,
)
    requires
        count <= rows.len(),
    ensures
        forall|k: int|
            0 <= k < matching_rows(rows, target, arity, keys, count).len() ==> {
                let r = #[trigger] matching_rows(rows, target, arity, keys, count)[k];
                0 <= r < count && row_matches(rows[r], target, arity, keys)
            },
    decreases count,
{
    if count > 0 {
        let earlier = matching_rows(rows, target, arity, keys, (count - 1) as nat);
        let found = matching_rows(rows, target, arity, keys, count);
        lemma_matching_rows(rows, target, arity, keys, (count - 1) as nat);
        assert forall|k: int| 0 <= k < found.len() implies {
            let r = #[trigger] found[k];
            0 <= r < count && row_matches(rows[r], target, arity, keys)
        } by {
            if k < earlier.len() {
                assert(found[k] == earlier[k]);
            }
        }
    }
}

/// What a deletion or a subsumption adds to a stream, and that it holds of it.
proof fn lemma_change(
    moment: Moment,
    planned: Seq<(FunctionId, Seq<ValueRefView>)>,
    rows: Seq<(FunctionId, Seq<Datum>)>,
    stream: StreamView,
    raw: usize,
    change: Change,
    call: RuleActionCall,
    args: Vec<AtomTerm>,
    progress: Progress,
    slots: Seq<SlotView>,
    effects: Seq<EffectView>,
)
    requires
        moment.catalog.well_formed(),
        rows_hold(moment, planned, rows),
        realized(moment, stream.bindings),
        same_constants(moment),
        come_to(stream, progress),
        crate::action_rule::change_step(
            moment.catalog,
            planned,
            stream,
            raw,
            change,
            call,
            args@,
        ) is Ok,
    ensures
        ({
            let after = crate::action_rule::change_step(
                moment.catalog,
                planned,
                stream,
                raw,
                change,
                call,
                args@,
            )->Ok_0;
            let action = CoreAction::Change(change, call, args);
            &&& after.slots == stream.slots
            &&& after.fresh_rank == stream.fresh_rank
            &&& after.runtime_ordinal == stream.runtime_ordinal
            &&& after.bindings == stream.bindings
            &&& after.effects.len() == stream.effects.len() + 1
            &&& continues(stream.effects, after.effects)
            &&& continues(after.effects, effects) ==> action_holds(
                moment,
                rows,
                slots,
                effects,
                action,
                progress,
            )
        }),
{
    match call {
        RuleActionCall::Table { id } => {
            let catalog = moment.catalog;
            let info = table_at(catalog, id)->Ok_0;
            let tys = info.schema@.take(info.n_keys as int);
            lemma_all_terms(moment, stream.bindings, args@, tys, "change key"@);
            let keys = crate::action_rule::term_values(
                catalog,
                stream.bindings,
                args@,
                tys,
                "change key"@,
                0,
                Seq::empty(),
            )->Ok_0;
            let data = said(moment, args@);
            assert(info.schema.len() == info.schema@.len());
            assert(info.well_formed());
            let after = crate::action_rule::change_step(
                catalog,
                planned,
                stream,
                raw,
                change,
                call,
                args@,
            )->Ok_0;
            let e = progress.effects as int;
            if continues(after.effects, effects) {
                assert(effects[e] == after.effects[e]);
                match change {
                    Change::Delete => {},
                    Change::Subsume => {
                        let arity = info.schema@.len();
                        let found = matching_rows(planned, id, arity, keys, planned.len());
                        lemma_matching_rows(planned, id, arity, keys, planned.len());
                        let r = found[0];
                        assert(row_matches(planned[r], id, arity, keys));
                        assert(rows[r].0 == planned[r].0);
                        assert(evaluates(moment, planned[r].1, rows[r].1));
                        assert(rows[r].1.take(args@.len() as int) =~= data) by {
                            assert forall|i: int| 0 <= i < args@.len() implies rows[r].1[i]
                                == data[i] by {
                                assert(planned[r].1.take(keys.len() as int)[i]
                                    == planned[r].1[i]);
                                assert(ref_value(
                                    planned[r].1[i],
                                    moment.matched,
                                    moment.meaning,
                                ) == rows[r].1[i]);
                                assert(ref_value(keys[i], moment.matched, moment.meaning)
                                    == data[i]);
                            }
                        }
                        let rest = planned[r].1.skip(keys.len() as int);
                        let behind = rows[r].1.skip(args@.len() as int);
                        assert(evaluates(moment, rest, behind)) by {
                            assert forall|i: int| 0 <= i < rest.len() implies ref_value(
                                #[trigger] rest[i],
                                moment.matched,
                                moment.meaning,
                            ) == behind[i] by {
                                assert(rest[i] == planned[r].1[i + keys.len()]);
                            }
                        }
                    },
                }
            }
        },
        _ => {},
    }
}

/// The actions from `from` on hold of the plan that they are compiled to.
proof fn lemma_head(
    moment: Moment,
    planned: Seq<(FunctionId, Seq<ValueRefView>)>,
    rows: Seq<(FunctionId, Seq<Datum>)>,
    stream: StreamView,
    head: Seq<CoreAction>,
    from: int,
    progress: Progress,
    slots: Seq<SlotView>,
    effects: Seq<EffectView>,
)
    requires
        moment.catalog.well_formed(),
        rows_hold(moment, planned, rows),
        realized(moment, stream.bindings),
        same_constants(moment),
        faithful(moment.world, moment.forms, moment.catalog, moment.registries),
        come_to(stream, progress),
        0 <= from,
        forall|i: int| 0 <= i < head.len() ==> scalar_action(#[trigger] head[i]),
        head_assigned(moment, head, from, progress.slots),
        slots.len() <= usize::MAX,
        results_hold(moment, slots),
        action_steps(
            moment.catalog,
            moment.registries,
            planned,
            stream,
            head,
            from,
        ) matches Ok(done) && done.slots == slots && done.effects == effects,
    ensures
        head_holds(moment, rows, slots, effects, head, from, progress),
        continues(stream.slots, slots),
        continues(stream.effects, effects),
    decreases head.len() - from,
{
    let catalog = moment.catalog;
    let registries = moment.registries;
    if from < head.len() {
        let action = head[from];
        let raw = from as usize;
        assert(scalar_action(action));
        lemma_steps_grow(catalog, registries, planned, stream, head, from);
        let after = action_step(catalog, registries, planned, stream, raw, action)->Ok_0;
        let next = run_on(registries, action, progress);
        match action {
            CoreAction::Let(variable, call, args) => {
                lemma_binding(
                    moment,
                    rows,
                    stream,
                    raw,
                    variable,
                    call,
                    args,
                    progress,
                    slots,
                    effects,
                );
            },
            CoreAction::LetAtomTerm(variable, term) => {
                let context = crate::action_rule::action_text(raw) + " LetAtomTerm"@;
                lemma_term(moment, stream.bindings, term, variable.ty, context);
                assert forall|v: u32| #[trigger] after.bindings.contains_key(v) implies ref_value(
                    after.bindings[v].value,
                    moment.matched,
                    moment.meaning,
                ) == (moment.assignment)(v) by {
                    if v != variable.id {
                        assert(stream.bindings.contains_key(v));
                    }
                }
            },
            CoreAction::SetRow(call, args, values) => {
                lemma_write(
                    moment,
                    rows,
                    stream,
                    raw,
                    call,
                    args,
                    values,
                    progress,
                    slots,
                    effects,
                );
            },
            CoreAction::Change(change, call, args) => {
                lemma_change(
                    moment,
                    planned,
                    rows,
                    stream,
                    raw,
                    change,
                    call,
                    args,
                    progress,
                    slots,
                    effects,
                );
            },
            _ => {},
        }
        assert(come_to(after, next));
        lemma_head(moment, planned, rows, after, head, from + 1, next, slots, effects);
    }
}

// ---------------------------------------------------------------------------
// Matched rows.

/// The columns of an atom's row.
pub open spec fn row_terms(atom: Atom) -> Seq<AtomTerm> {
    match atom.head {
        RuleBodyCall::IndexTable { .. } => atom.args@.subrange(1, atom.args@.len() - 1),
        _ => atom.args@,
    }
}

/// The rows that the atoms from `from` on match.
pub open spec fn body_rows(moment: Moment, atoms: Seq<Atom>, from: int) -> Seq<
    (FunctionId, Seq<Datum>),
>
    decreases atoms.len() - from,
{
    if 0 <= from < atoms.len() {
        let rest = body_rows(moment, atoms, from + 1);
        match atoms[from].head {
            RuleBodyCall::Table { id, .. } => seq![
                (id, said(moment, row_terms(atoms[from]))),
            ] + rest,
            RuleBodyCall::IndexTable { id, .. } => seq![
                (id, said(moment, row_terms(atoms[from]))),
            ] + rest,
            RuleBodyCall::Primitive { .. } => rest,
        }
    } else {
        Seq::empty()
    }
}

/// The variables of a body have their values in the match relation.
pub open spec fn body_realized(moment: Moment, plan: BodyView) -> bool {
    forall|id: u32| #[trigger]
        plan.bindings.contains_key(id) ==> (moment.matched)(
            Name::B(plan.bindings[id].stage_column as nat),
        ) == (moment.assignment)(id)
}

proof fn lemma_refs(
    moment: Moment,
    plan: BodyView,
    row: Seq<AtomTerm>,
    schema: Seq<ColumnTy>,
    from: int,
    done: Seq<ValueRefView>,
)
    requires
        body_realized(moment, plan),
        same_constants(moment),
        0 <= from <= row.len(),
        evaluates(moment, done, said(moment, row.take(from))),
    ensures
        body_refs(moment.catalog, plan.bindings, row, schema, from, done) matches Ok(values)
            ==> evaluates(moment, values, said(moment, row)),
    decreases row.len() - from,
{
    if from < row.len() {
        match body_ref(moment.catalog, plan.bindings, row[from], schema[from]) {
            Ok(value) => {
                let next = said(moment, row.take(from + 1));
                assert(ref_value(value, moment.matched, moment.meaning) == term_value(
                    row[from],
                    moment.world,
                    moment.assignment,
                )) by {
                    match row[from] {
                        AtomTerm::Var(variable) => {
                            assert(plan.bindings.contains_key(variable.id));
                        },
                        AtomTerm::Literal(literal) => {
                            assert(typed_literal(moment.catalog, literal.ty, literal.value)
                                == typed_literal(moment.catalog, literal.ty, literal.value));
                        },
                        AtomTerm::Global(_) => {},
                    }
                }
                assert(next =~= said(moment, row.take(from)).push(
                    term_value(row[from], moment.world, moment.assignment),
                ));
                assert(evaluates(moment, done.push(value), next));
                lemma_refs(moment, plan, row, schema, from + 1, done.push(value));
            },
            Err(_) => {},
        }
    } else {
        assert(row.take(from) =~= row);
    }
}

proof fn lemma_bind_row_keeps_rows(
    catalog: Catalog,
    plan: BodyView,
    row: Seq<AtomTerm>,
    schema: Seq<ColumnTy>,
    atom_index: nat,
    from: int,
)
    ensures
        bind_row(catalog, plan, row, schema, atom_index, from) matches Ok(after) ==> after.rows
            == plan.rows,
    decreases row.len() - from,
{
    if 0 <= from < row.len() {
        match bind_term(
            catalog,
            plan,
            row[from],
            schema[from],
            column_text(atom_index, from as nat),
        ) {
            Ok(after) => {
                lemma_bind_row_keeps_rows(catalog, after, row, schema, atom_index, from + 1);
            },
            Err(_) => {},
        }
    }
}

/// One atom adds its row, with the values of its terms.
proof fn lemma_atom_row(moment: Moment, plan: BodyView, atom: Atom, atom_index: nat)
    requires
        atom_step(moment.catalog, moment.registries, plan, atom, atom_index) is Ok,
        body_realized(
            moment,
            atom_step(moment.catalog, moment.registries, plan, atom, atom_index)->Ok_0,
        ),
        same_constants(moment),
    ensures
        ({
            let after = atom_step(moment.catalog, moment.registries, plan, atom, atom_index)->Ok_0;
            match atom.head {
                RuleBodyCall::Primitive { .. } => after.rows == plan.rows,
                RuleBodyCall::Table { id, .. } => {
                    &&& after.rows.len() == plan.rows.len() + 1
                    &&& after.rows.drop_last() == plan.rows
                    &&& after.rows.last().0 == id
                    &&& evaluates(moment, after.rows.last().1, said(moment, row_terms(atom)))
                },
                RuleBodyCall::IndexTable { id, .. } => {
                    &&& after.rows.len() == plan.rows.len() + 1
                    &&& after.rows.drop_last() == plan.rows
                    &&& after.rows.last().0 == id
                    &&& evaluates(moment, after.rows.last().1, said(moment, row_terms(atom)))
                },
            }
        }),
{
    let catalog = moment.catalog;
    let args = atom.args@;
    let after = atom_step(catalog, moment.registries, plan, atom, atom_index)->Ok_0;
    match atom.head {
        RuleBodyCall::Table { id, read } => {
            let schema = table_at(catalog, id)->Ok_0.schema@;
            let base = joined(plan, id, read, atom_index, schema.len());
            lemma_bind_row_keeps_rows(catalog, base, args, schema, atom_index, 0);
            let tied = bind_row(catalog, base, args, schema, atom_index, 0)->Ok_0;
            assert(tied.bindings == after.bindings);
            assert(said(moment, args.take(0)) =~= Seq::<Datum>::empty());
            lemma_refs(moment, tied, args, schema, 0, Seq::empty());
            assert(after.rows.drop_last() =~= plan.rows);
        },
        RuleBodyCall::IndexTable { id, any_of, read } => {
            let schema = table_at(catalog, id)->Ok_0.schema@;
            let columns = occurrence_columns(any_of@, schema.len());
            let probe = body_term(
                catalog,
                plan.bindings,
                args[0],
                term_ty(args[0]),
                "index probe"@,
            )->Ok_0;
            let base = tested(
                joined(plan, id, read, atom_index, schema.len()),
                occurrence_test(atom_index, columns, probe),
            );
            let row = args.subrange(1, args.len() - 1);
            lemma_bind_row_keeps_rows(catalog, base, row, schema, atom_index, 0);
            let tied = bind_row(catalog, base, row, schema, atom_index, 0)->Ok_0;
            assert(tied.bindings == after.bindings);
            assert(said(moment, row.take(0)) =~= Seq::<Datum>::empty());
            lemma_refs(moment, tied, row, schema, 0, Seq::empty());
            assert(after.rows.drop_last() =~= plan.rows);
        },
        RuleBodyCall::Primitive { .. } => {},
    }
}

proof fn lemma_stay_realized(moment: Moment, before: BodyView, after: BodyView)
    requires
        bindings_stay(before, after),
        body_realized(moment, after),
    ensures
        body_realized(moment, before),
{
    assert forall|id: u32| #[trigger] before.bindings.contains_key(id) implies (moment.matched)(
        Name::B(before.bindings[id].stage_column as nat),
    ) == (moment.assignment)(id) by {
        assert(after.bindings.contains_key(id));
    }
}

proof fn lemma_atoms_stay(
    catalog: Catalog,
    registries: AuthorityRegistries,
    plan: BodyView,
    atoms: Seq<Atom>,
    from: int,
)
    requires
        0 <= from,
        bindings_occur(plan, atoms),
    ensures
        atom_steps(catalog, registries, plan, atoms, from) matches Ok(after) ==> bindings_stay(
            plan,
            after,
        ),
    decreases atoms.len() - from,
{
    if from < atoms.len() {
        lemma_atom_binds(catalog, registries, plan, atoms, from);
        match atom_step(catalog, registries, plan, atoms[from], from as nat) {
            Ok(between) => {
                lemma_atoms_stay(catalog, registries, between, atoms, from + 1);
                match atom_steps(catalog, registries, between, atoms, from + 1) {
                    Ok(after) => {
                        assert forall|id: u32| #[trigger] plan.bindings.contains_key(
                            id,
                        ) implies after.bindings.contains_key(id) && after.bindings[id]
                            == plan.bindings[id] by {
                            assert(between.bindings.contains_key(id));
                        }
                    },
                    Err(_) => {},
                }
            },
            Err(_) => {},
        }
    }
}

proof fn lemma_body_rows(moment: Moment, plan: BodyView, atoms: Seq<Atom>, from: int, rows: Seq<
    (FunctionId, Seq<Datum>),
>)
    requires
        0 <= from,
        bindings_occur(plan, atoms),
        same_constants(moment),
        rows_hold(moment, plan.rows, rows),
        atom_steps(moment.catalog, moment.registries, plan, atoms, from) is Ok,
        body_realized(
            moment,
            atom_steps(moment.catalog, moment.registries, plan, atoms, from)->Ok_0,
        ),
    ensures
        rows_hold(
            moment,
            atom_steps(moment.catalog, moment.registries, plan, atoms, from)->Ok_0.rows,
            rows + body_rows(moment, atoms, from),
        ),
    decreases atoms.len() - from,
{
    let catalog = moment.catalog;
    let registries = moment.registries;
    if from < atoms.len() {
        let atom = atoms[from];
        let after = atom_step(catalog, registries, plan, atom, from as nat)->Ok_0;
        let done = atom_steps(catalog, registries, after, atoms, from + 1)->Ok_0;
        lemma_atom_binds(catalog, registries, plan, atoms, from);
        lemma_atoms_stay(catalog, registries, after, atoms, from + 1);
        lemma_stay_realized(moment, after, done);
        lemma_atom_row(moment, plan, atom, from as nat);
        let next = match atom.head {
            RuleBodyCall::Table { id, .. } => rows.push((id, said(moment, row_terms(atom)))),
            RuleBodyCall::IndexTable { id, .. } => rows.push((id, said(moment, row_terms(atom)))),
            RuleBodyCall::Primitive { .. } => rows,
        };
        assert(rows_hold(moment, after.rows, next)) by {
            assert forall|r: int| 0 <= r < next.len() implies (#[trigger] next[r]).0
                == after.rows[r].0 && evaluates(moment, after.rows[r].1, next[r].1) by {
                if r < rows.len() {
                    assert(rows[r].0 == plan.rows[r].0);
                    assert(after.rows[r] == plan.rows[r]) by {
                        if !(atom.head is Primitive) {
                            assert(after.rows.drop_last()[r] == after.rows[r]);
                        }
                    }
                }
            }
        }
        lemma_body_rows(moment, after, atoms, from + 1, next);
        assert(next + body_rows(moment, atoms, from + 1) =~= rows + body_rows(
            moment,
            atoms,
            from,
        ));
    } else {
        assert(rows + body_rows(moment, atoms, from) =~= rows);
    }
}

// ---------------------------------------------------------------------------
// The law.

/// Where the match relation holds the body's variables and every result has the
/// value that it is for, each action of an admitted head holds: a binding has the
/// value that its call says of its arguments, and the effects are, in order, the
/// rows that the head sets, deletes and subsumes, at the events of their actions.
/// The plan has no other results and effects.
pub proof fn law_plans_do_what_their_heads_say(
    moment: Moment,
    seminaive: bool,
    atoms: Seq<Atom>,
    head: Seq<CoreAction>,
    plan: PlanView,
    matched: BodyView,
)
    requires
        moment.catalog.well_formed(),
        scalar_plan(moment.catalog, moment.registries, seminaive, atoms, head) == Ok::<
            Option<PlanView>,
            RejectionView,
        >(Some(plan)),
        scalar_body(moment.catalog, moment.registries, atoms) == Ok::<BodyView, RejectionView>(
            matched,
        ),
        plan.slots.len() <= usize::MAX,
        same_constants(moment),
        faithful(moment.world, moment.forms, moment.catalog, moment.registries),
        body_realized(moment, matched),
        head_assigned(moment, head, 0, 0),
        results_hold(moment, plan.slots),
    ensures
        head_holds(
            moment,
            body_rows(moment, atoms, 0),
            plan.slots,
            plan.effects,
            head,
            0,
            Progress { slots: 0, events: 0, fresh: 0, effects: 0 },
        ),
{
    reveal(scalar_plan);
    let start = prebind(moment.catalog, atoms)->Ok_0;
    lemma_prebind_occurs(moment.catalog, atoms);
    lemma_prebind(moment.catalog, atoms);
    assert(start.rows =~= Seq::empty());
    lemma_body_rows(moment, start, atoms, 0, Seq::empty());
    assert(Seq::<(FunctionId, Seq<Datum>)>::empty() + body_rows(moment, atoms, 0) =~= body_rows(
        moment,
        atoms,
        0,
    ));
    let stream = stream_of(matched);
    assert forall|id: u32| #[trigger] stream.bindings.contains_key(id) implies ref_value(
        stream.bindings[id].value,
        moment.matched,
        moment.meaning,
    ) == (moment.assignment)(id) by {
        assert(matched.bindings.contains_key(id));
    }
    lemma_head(
        moment,
        matched.rows,
        body_rows(moment, atoms, 0),
        stream,
        head,
        0,
        Progress { slots: 0, events: 0, fresh: 0, effects: 0 },
        plan.slots,
        plan.effects,
    );
}

// ---------------------------------------------------------------------------
// Keys.

proof fn lemma_terms_count(
    catalog: Catalog,
    bindings: Map<u32, BoundView>,
    terms: Seq<AtomTerm>,
    tys: Seq<ColumnTy>,
    context: Seq<char>,
    from: int,
    done: Seq<ValueRefView>,
)
    requires
        0 <= from <= terms.len(),
        done.len() == from,
    ensures
        crate::action_rule::term_values(
            catalog,
            bindings,
            terms,
            tys,
            context,
            from,
            done,
        ) matches Ok(values) ==> values.len() == terms.len(),
    decreases terms.len() - from,
{
    if from < terms.len() {
        match crate::action_rule::term_value(catalog, bindings, terms[from], tys[from], context) {
            Ok(value) => {
                lemma_terms_count(
                    catalog,
                    bindings,
                    terms,
                    tys,
                    context,
                    from + 1,
                    done.push(value),
                );
            },
            Err(_) => {},
        }
    }
}

/// Every result of a list reads under complete keys.
pub open spec fn all_complete(slots: Seq<SlotView>) -> bool {
    forall|s: int| 0 <= s < slots.len() ==> keys_complete(#[trigger] slots[s])
}

proof fn lemma_set_if_empty_complete(
    catalog: Catalog,
    live_epochs: Map<u32, u64>,
    stream: StreamView,
    raw: usize,
    variable: RuleVar,
    target: FunctionId,
    info: TableInfo,
    n_keys: usize,
    out_arity: usize,
    args: Seq<AtomTerm>,
)
    requires
        all_complete(stream.slots),
    ensures
        crate::action_rule::set_if_empty_let(
            catalog,
            live_epochs,
            stream,
            raw,
            variable,
            target,
            info,
            n_keys,
            out_arity,
            args,
        ) matches Ok(after) ==> all_complete(after.slots),
{
    let keys = args.take(n_keys as int);
    let tys = info.schema@.take(n_keys as int);
    lemma_terms_count(
        catalog,
        stream.bindings,
        keys,
        tys,
        "set-if-empty key"@,
        0,
        Seq::empty(),
    );
    match crate::action_rule::set_if_empty_let(
        catalog,
        live_epochs,
        stream,
        raw,
        variable,
        target,
        info,
        n_keys,
        out_arity,
        args,
    ) {
        Ok(_) => {
            let first = crate::action_rule::term_values(
                catalog,
                stream.bindings,
                keys,
                tys,
                "set-if-empty key"@,
                0,
                Seq::empty(),
            )->Ok_0;
            let second = crate::action_rule::term_values(
                catalog,
                stream.bindings,
                args.skip(n_keys as int),
                info.schema@.skip(n_keys as int),
                "set-if-empty default"@,
                0,
                Seq::empty(),
            )->Ok_0;
            let bound = bind_slot(
                stream,
                raw,
                variable,
                SlotSourceView::Read(
                    ReadView::SetIfEmpty { target, n_keys, keys: first, defaults: second },
                ),
            )->Ok_0;
            lemma_classify_keep(catalog, live_epochs, bound, target, info);
        },
        Err(_) => {},
    }
}

proof fn lemma_let_complete(
    catalog: Catalog,
    registries: AuthorityRegistries,
    stream: StreamView,
    raw: usize,
    variable: RuleVar,
    call: RuleActionCall,
    args: Seq<AtomTerm>,
)
    requires
        all_complete(stream.slots),
    ensures
        let_step(catalog, registries, stream, raw, variable, call, args) matches Ok(after)
            ==> all_complete(after.slots),
{
    match call {
        RuleActionCall::Table { id } => match table_at(catalog, id) {
            Ok(info) => lemma_terms_count(
                catalog,
                stream.bindings,
                args,
                info.schema@.take(info.n_keys as int),
                "table Let key"@,
                0,
                Seq::empty(),
            ),
            Err(_) => {},
        },
        RuleActionCall::Primitive { id, .. } => match entry(
            fd_views(registries.fd_descriptors@),
            id.rep,
        ) {
            Some(descriptor) => match table_named(catalog, fd_view_name(descriptor)) {
                Ok(target) => {
                    let info = catalog.tables@[target.rep as int];
                    let remembered = StreamView {
                        required_fd_descriptors: stream.required_fd_descriptors.insert(
                            id.rep,
                            descriptor,
                        ),
                        ..stream
                    };
                    match descriptor {
                        FdDescriptorView::SetIfEmpty { n_keys, out_arity, .. } => {
                            lemma_set_if_empty_complete(
                                catalog,
                                registries.authority_epochs@,
                                remembered,
                                raw,
                                variable,
                                target,
                                info,
                                n_keys,
                                out_arity,
                                args,
                            );
                        },
                        FdDescriptorView::ViewColumnRead { n_keys, .. } => {
                            lemma_terms_count(
                                catalog,
                                stream.bindings,
                                args.take(n_keys as int),
                                info.schema@.take(n_keys as int),
                                "view-column key"@,
                                0,
                                Seq::empty(),
                            );
                        },
                    }
                },
                Err(_) => {},
            },
            None => {},
        },
    }
}

proof fn lemma_steps_complete(
    catalog: Catalog,
    registries: AuthorityRegistries,
    planned: Seq<(FunctionId, Seq<ValueRefView>)>,
    stream: StreamView,
    head: Seq<CoreAction>,
    from: int,
)
    requires
        all_complete(stream.slots),
    ensures
        action_steps(catalog, registries, planned, stream, head, from) matches Ok(after)
            ==> all_complete(after.slots),
    decreases head.len() - from,
{
    if 0 <= from < head.len() {
        let raw = from as usize;
        match head[from] {
            CoreAction::Let(variable, call, args) => {
                lemma_let_complete(catalog, registries, stream, raw, variable, call, args@);
            },
            CoreAction::SetRow(call, args, values) => {
                match call {
                    RuleActionCall::Table { id } => match table_at(catalog, id) {
                        Ok(info) => {
                            lemma_classify_keep(
                                catalog,
                                registries.authority_epochs@,
                                stream,
                                id,
                                info,
                            );
                        },
                        Err(_) => {},
                    },
                    _ => {},
                }
            },
            _ => {},
        }
        match action_step(catalog, registries, planned, stream, raw, head[from]) {
            Ok(after) => {
                assert(all_complete(after.slots));
                lemma_steps_complete(catalog, registries, planned, after, head, from + 1);
            },
            Err(_) => {},
        }
    }
}

/// Every read of an admitted plan is under as many keys as its table has.
pub proof fn law_reads_are_under_complete_keys(
    catalog: Catalog,
    registries: AuthorityRegistries,
    seminaive: bool,
    atoms: Seq<Atom>,
    head: Seq<CoreAction>,
    plan: PlanView,
)
    requires
        scalar_plan(catalog, registries, seminaive, atoms, head) == Ok::<
            Option<PlanView>,
            RejectionView,
        >(Some(plan)),
    ensures
        all_complete(plan.slots),
{
    reveal(scalar_plan);
    let matched = scalar_body(catalog, registries, atoms)->Ok_0;
    lemma_steps_complete(catalog, registries, matched.rows, stream_of(matched), head, 0);
}

// ---------------------------------------------------------------------------
// Types.

/// Terms are variables and constants of the types at their positions.
pub open spec fn typed(terms: Seq<AtomTerm>, tys: Seq<ColumnTy>) -> bool {
    forall|i: int|
        0 <= i < terms.len() ==> !(#[trigger] terms[i] is Global) && term_ty(terms[i]) == tys[i]
}

/// An action fits the tables and primitives that it names.
///
/// A row that is set has the types of the table's columns, and the keys of a deletion
/// or a subsumption those of its keys. A binding has the type of what is bound: the
/// only value of a looked-up table, an id for a fresh id, a value column of a view, or
/// the result of an expression at the signature of its arguments.
pub open spec fn action_fits(
    catalog: Catalog,
    registries: AuthorityRegistries,
    action: CoreAction,
) -> bool {
    match action {
        CoreAction::Let(variable, RuleActionCall::Table { id }, args) => {
            let info = catalog.tables@[id.rep as int];
            &&& id.rep < catalog.tables@.len()
            &&& info.n_vals == 1
            &&& args@.len() == info.n_keys
            &&& typed(args@, info.schema@)
            &&& variable.ty == info.schema@[info.n_keys as int]
        },
        CoreAction::Let(variable, RuleActionCall::Primitive { id, output, .. }, args) => {
            &&& variable.ty == output
            &&& if registries.fresh_tokens@.contains(id.rep) {
                variable.ty == ColumnTy::Id && args@.len() == 1
            } else {
                match entry(fd_views(registries.fd_descriptors@), id.rep) {
                    Some(FdDescriptorView::SetIfEmpty { view_name, n_keys, out_arity }) => {
                        let view = table_named(catalog, view_name)->Ok_0;
                        let info = catalog.tables@[view.rep as int];
                        &&& table_named(catalog, view_name) is Ok
                        &&& info.n_keys == n_keys && info.n_vals == out_arity
                        &&& args@.len() == n_keys + out_arity
                        &&& typed(args@, info.schema@)
                        &&& variable.ty == info.schema@[n_keys as int]
                    },
                    Some(FdDescriptorView::ViewColumnRead { view_name, n_keys, col_idx }) => {
                        let view = table_named(catalog, view_name)->Ok_0;
                        let info = catalog.tables@[view.rep as int];
                        &&& table_named(catalog, view_name) is Ok
                        &&& info.n_keys == n_keys && col_idx < info.n_vals
                        &&& args@.len() == n_keys + 1
                        &&& typed(args@.drop_last(), info.schema@)
                        &&& term_ty(args@.last()) == info.schema@[n_keys + col_idx]
                        &&& variable.ty == info.schema@[n_keys + col_idx]
                    },
                    None => authenticated(
                        catalog.forms@,
                        registries,
                        id,
                        args@.map_values(|t: AtomTerm| term_ty(t)),
                        variable.ty,
                    ) is Ok,
                }
            }
        },
        CoreAction::LetAtomTerm(variable, term) => term_ty(term) == variable.ty && !(term
            is Global),
        CoreAction::SetRow(RuleActionCall::Table { id }, args, values) => {
            let info = catalog.tables@[id.rep as int];
            &&& id.rep < catalog.tables@.len()
            &&& args@.len() == info.n_keys
            &&& values@.len() == info.n_vals
            &&& typed(args@ + values@, info.schema@)
        },
        CoreAction::Change(change, RuleActionCall::Table { id }, args) => {
            let info = catalog.tables@[id.rep as int];
            &&& id.rep < catalog.tables@.len()
            &&& args@.len() == info.n_keys
            &&& typed(args@, info.schema@)
            &&& change == Change::Subsume ==> info.can_subsume
        },
        _ => false,
    }
}

proof fn lemma_terms_typed(
    catalog: Catalog,
    bindings: Map<u32, BoundView>,
    terms: Seq<AtomTerm>,
    tys: Seq<ColumnTy>,
    context: Seq<char>,
    from: int,
    done: Seq<ValueRefView>,
)
    requires
        0 <= from,
        crate::action_rule::term_values(
            catalog,
            bindings,
            terms,
            tys,
            context,
            from,
            done,
        ) is Ok,
    ensures
        forall|i: int|
            from <= i < terms.len() ==> !(#[trigger] terms[i] is Global) && term_ty(terms[i])
                == tys[i],
    decreases terms.len() - from,
{
    if from < terms.len() {
        let value = crate::action_rule::term_value(
            catalog,
            bindings,
            terms[from],
            tys[from],
            context,
        )->Ok_0;
        lemma_terms_typed(catalog, bindings, terms, tys, context, from + 1, done.push(value));
    }
}

proof fn lemma_let_fits(
    catalog: Catalog,
    registries: AuthorityRegistries,
    stream: StreamView,
    raw: usize,
    variable: RuleVar,
    call: RuleActionCall,
    args: Vec<AtomTerm>,
)
    requires
        catalog.well_formed(),
        let_step(catalog, registries, stream, raw, variable, call, args@) is Ok,
    ensures
        action_fits(catalog, registries, CoreAction::Let(variable, call, args)),
{
    match call {
        RuleActionCall::Table { id } => {
            let info = table_at(catalog, id)->Ok_0;
            let tys = info.schema@.take(info.n_keys as int);
            lemma_terms_typed(
                catalog,
                stream.bindings,
                args@,
                tys,
                "table Let key"@,
                0,
                Seq::empty(),
            );
            assert(info.well_formed());
            assert(typed(args@, info.schema@));
        },
        RuleActionCall::Primitive { id, .. } => {
            if !registries.fresh_tokens@.contains(id.rep) {
                match entry(fd_views(registries.fd_descriptors@), id.rep) {
                    Some(descriptor) => {
                        let name = fd_view_name(descriptor);
                        let target = table_named(catalog, name)->Ok_0;
                        let info = catalog.tables@[target.rep as int];
                        lemma_named_table(catalog, name);
                        assert(info.well_formed());
                        match descriptor {
                            FdDescriptorView::SetIfEmpty { n_keys, out_arity, .. } => {
                                let first = args@.take(n_keys as int);
                                let second = args@.skip(n_keys as int);
                                lemma_terms_typed(
                                    catalog,
                                    stream.bindings,
                                    first,
                                    info.schema@.take(n_keys as int),
                                    "set-if-empty key"@,
                                    0,
                                    Seq::empty(),
                                );
                                lemma_terms_typed(
                                    catalog,
                                    stream.bindings,
                                    second,
                                    info.schema@.skip(n_keys as int),
                                    "set-if-empty default"@,
                                    0,
                                    Seq::empty(),
                                );
                                assert forall|i: int| 0 <= i < args@.len() implies !(
                                #[trigger] args@[i] is Global) && term_ty(args@[i])
                                    == info.schema@[i] by {
                                    if i < n_keys {
                                        assert(first[i] == args@[i]);
                                    } else {
                                        assert(second[i - n_keys] == args@[i]);
                                    }
                                }
                            },
                            FdDescriptorView::ViewColumnRead { n_keys, .. } => {
                                let first = args@.take(n_keys as int);
                                lemma_terms_typed(
                                    catalog,
                                    stream.bindings,
                                    first,
                                    info.schema@.take(n_keys as int),
                                    "view-column key"@,
                                    0,
                                    Seq::empty(),
                                );
                                assert(args@.drop_last() =~= first);
                            },
                        }
                    },
                    None => {},
                }
            }
        },
    }
}

proof fn lemma_steps_fit(
    catalog: Catalog,
    registries: AuthorityRegistries,
    planned: Seq<(FunctionId, Seq<ValueRefView>)>,
    stream: StreamView,
    head: Seq<CoreAction>,
    from: int,
)
    requires
        catalog.well_formed(),
        0 <= from,
        forall|i: int| 0 <= i < head.len() ==> scalar_action(#[trigger] head[i]),
        action_steps(catalog, registries, planned, stream, head, from) is Ok,
    ensures
        forall|i: int|
            from <= i < head.len() ==> action_fits(catalog, registries, #[trigger] head[i]),
    decreases head.len() - from,
{
    if from < head.len() {
        let raw = from as usize;
        assert(scalar_action(head[from]));
        match head[from] {
            CoreAction::Let(variable, call, args) => {
                lemma_let_fits(catalog, registries, stream, raw, variable, call, args);
            },
            CoreAction::SetRow(RuleActionCall::Table { id }, args, values) => {
                let info = table_at(catalog, id)->Ok_0;
                assert(info.well_formed());
                lemma_terms_typed(
                    catalog,
                    stream.bindings,
                    args@,
                    info.schema@.take(info.n_keys as int),
                    "Set key"@,
                    0,
                    Seq::empty(),
                );
                lemma_terms_typed(
                    catalog,
                    stream.bindings,
                    values@,
                    info.schema@.skip(info.n_keys as int),
                    "Set value"@,
                    0,
                    Seq::empty(),
                );
                let row = args@ + values@;
                assert forall|i: int| 0 <= i < row.len() implies !(#[trigger] row[i] is Global)
                    && term_ty(row[i]) == info.schema@[i] by {
                    if i < args@.len() {
                        assert(row[i] == args@[i]);
                    } else {
                        assert(row[i] == values@[i - args@.len()]);
                    }
                }
            },
            CoreAction::Change(change, RuleActionCall::Table { id }, args) => {
                let info = table_at(catalog, id)->Ok_0;
                assert(info.well_formed());
                lemma_terms_typed(
                    catalog,
                    stream.bindings,
                    args@,
                    info.schema@.take(info.n_keys as int),
                    "change key"@,
                    0,
                    Seq::empty(),
                );
            },
            _ => {},
        }
        let after = action_step(catalog, registries, planned, stream, raw, head[from])->Ok_0;
        lemma_steps_fit(catalog, registries, planned, after, head, from + 1);
    }
}

/// Every action of an admitted head fits the tables and primitives that it names.
pub proof fn law_admitted_heads_are_typed(
    catalog: Catalog,
    registries: AuthorityRegistries,
    seminaive: bool,
    atoms: Seq<Atom>,
    head: Seq<CoreAction>,
    plan: PlanView,
    i: int,
)
    requires
        catalog.well_formed(),
        scalar_plan(catalog, registries, seminaive, atoms, head) == Ok::<
            Option<PlanView>,
            RejectionView,
        >(Some(plan)),
        0 <= i < head.len(),
    ensures
        action_fits(catalog, registries, head[i]),
{
    reveal(scalar_plan);
    let matched = scalar_body(catalog, registries, atoms)->Ok_0;
    lemma_steps_fit(catalog, registries, matched.rows, stream_of(matched), head, 0);
}

} // verus!
