//! What every compiled body keeps: each bound variable is one column of the
//! match relation, and rows refer to such columns only.

use vstd::prelude::*;

#[allow(unused_imports)]
use crate::action_body::{
    atom_step, atom_steps, bind_output, bind_row, bind_term, body_ref, body_refs, body_term,
    body_terms, bound, column_text, empty_body, joined, lemma_sweep_progress, match_row,
    occurrence_columns, occurrence_test, prebind, prebind_row, prebind_tables, prebind_variable,
    primitive_atom, probe_column, reach_index, saturate, scalar_body, sweep, tested, unmarked,
    BodyView, Reach,
};
#[allow(unused_imports)]
use crate::action_plan::{all_live, ValueRefView};
#[allow(unused_imports)]
use crate::authority::AuthorityRegistries;
#[allow(unused_imports)]
use crate::catalog::{table_at, Catalog};
#[allow(unused_imports)]
use crate::count_laws::one_if;
#[allow(unused_imports)]
use crate::ir::{
    term_ty, Atom, AtomTerm, ColumnTy, ExternalFunctionId, FunctionId, RuleBodyCall, RuleVar,
};
#[allow(unused_imports)]
use crate::rejection::RejectionView;
#[allow(unused_imports)]
use crate::scalar_expr::{authenticated, defined_text, form_text};

verus! {

/// A value is a literal, a column below `columns`, or a result below `slots`.
pub open spec fn ref_within(value: ValueRefView, columns: nat, slots: nat) -> bool {
    match value {
        ValueRefView::Body(column) => column < columns,
        ValueRefView::Slot(slot) => slot < slots,
        ValueRefView::Literal { .. } => true,
    }
}

/// Every value lies within the columns and results.
pub open spec fn refs_within(values: Seq<ValueRefView>, columns: nat, slots: nat) -> bool {
    forall|i: int| 0 <= i < values.len() ==> ref_within(#[trigger] values[i], columns, slots)
}

/// Every matched row refers to staged columns only.
pub open spec fn rows_within(rows: Seq<(FunctionId, Seq<ValueRefView>)>, columns: nat) -> bool {
    forall|r: int| 0 <= r < rows.len() ==> refs_within((#[trigger] rows[r]).1, columns, 0)
}

/// Every bound variable has a column of its own, which holds its expression, and
/// every column belongs to a variable.
pub open spec fn columns_own(plan: BodyView) -> bool {
    &&& forall|column: int|
        0 <= column < plan.match_projection.len() ==> owned_column(
            plan,
            #[trigger] plan.match_projection[column],
            column,
        )
    &&& forall|id: u32| #[trigger]
        plan.bindings.contains_key(id) ==> {
            let binding = plan.bindings[id];
            binding.stage_column < plan.match_projection.len()
                && plan.match_projection[binding.stage_column as int] == binding.expression
        }
    &&& forall|a: u32, b: u32|
        #[trigger] plan.bindings.contains_key(a) && #[trigger] plan.bindings.contains_key(b) && a
            != b ==> plan.bindings[a].stage_column != plan.bindings[b].stage_column
}

/// Some variable is bound to a column, with the given expression.
pub open spec fn owned_column(plan: BodyView, expression: Seq<char>, column: int) -> bool {
    exists|id: u32| #[trigger]
        plan.bindings.contains_key(id) && plan.bindings[id].stage_column == column
            && plan.bindings[id].expression == expression
}

/// A body whose columns fit the index type is consistently staged.
pub open spec fn staged(plan: BodyView) -> bool {
    plan.match_projection.len() <= usize::MAX ==> columns_own(plan) && rows_within(
        plan.rows,
        plan.match_projection.len(),
    )
}

/// Two bodies rest on the same authorities and join the same relations; the
/// second has so many more rows.
pub open spec fn same_sources(before: BodyView, after: BodyView, added: nat) -> bool {
    &&& after.required_native_primitives == before.required_native_primitives
    &&& after.required_native_scalar_primitives == before.required_native_scalar_primitives
    &&& after.match_from == before.match_from
    &&& after.freshness_columns == before.freshness_columns
    &&& after.rows.len() == before.rows.len() + added
}

/// An atom that matches a row of a table.
pub open spec fn row_atom(atom: Atom) -> bool {
    atom.head is Table || atom.head is IndexTable
}

/// The number of row atoms from atom `from` on.
pub open spec fn row_atoms(atoms: Seq<Atom>, from: int) -> nat
    decreases atoms.len() - from,
{
    if 0 <= from < atoms.len() {
        one_if(row_atom(atoms[from])) + row_atoms(atoms, from + 1)
    } else {
        0
    }
}

/// A body joins so many more relations, each with its freshness and its row.
pub open spec fn joins_more(before: BodyView, after: BodyView, added: nat) -> bool {
    &&& after.match_from.len() == before.match_from.len() + added
    &&& after.freshness_columns.len() == before.freshness_columns.len() + added
    &&& after.rows.len() == before.rows.len() + added
}

/// Every authority that a body rests on is live.
pub open spec fn body_live(plan: BodyView, registries: AuthorityRegistries) -> bool {
    &&& all_live(plan.required_native_primitives, registries.native_primitives@)
    &&& all_live(plan.required_native_scalar_primitives, registries.native_scalar_primitives@)
}

proof fn lemma_bound(plan: BodyView, variable: RuleVar, expression: Seq<char>)
    requires
        staged(plan),
        !plan.bindings.contains_key(variable.id),
    ensures
        staged(bound(plan, variable, expression)),
{
    let after = bound(plan, variable, expression);
    if after.match_projection.len() <= usize::MAX {
        assert(after.match_projection.len() == plan.match_projection.len() + 1);
        assert forall|id: u32| #[trigger] after.bindings.contains_key(id) implies {
            let binding = after.bindings[id];
            binding.stage_column < after.match_projection.len()
                && after.match_projection[binding.stage_column as int] == binding.expression
        } by {
            if id != variable.id {
                assert(plan.bindings.contains_key(id));
            }
        }
        assert forall|column: int| 0 <= column < after.match_projection.len() implies owned_column(
            after,
            #[trigger] after.match_projection[column],
            column,
        ) by {
            if column < plan.match_projection.len() {
                assert(owned_column(plan, plan.match_projection[column], column));
                let id = choose|id: u32| #[trigger]
                    plan.bindings.contains_key(id) && plan.bindings[id].stage_column == column
                        && plan.bindings[id].expression == plan.match_projection[column];
                assert(after.bindings.contains_key(id));
            } else {
                assert(after.bindings.contains_key(variable.id));
            }
        }
        assert forall|a: u32, b: u32|
            #[trigger] after.bindings.contains_key(a) && #[trigger] after.bindings.contains_key(b)
                && a != b implies after.bindings[a].stage_column
            != after.bindings[b].stage_column by {
            if a != variable.id {
                assert(plan.bindings.contains_key(a));
            }
            if b != variable.id {
                assert(plan.bindings.contains_key(b));
            }
        }
        assert forall|r: int| 0 <= r < after.rows.len() implies refs_within(
            (#[trigger] after.rows[r]).1,
            after.match_projection.len(),
            0,
        ) by {
            assert(refs_within(plan.rows[r].1, plan.match_projection.len(), 0));
        }
    }
}

proof fn lemma_prebind_variable(
    plan: BodyView,
    variable: RuleVar,
    expected: ColumnTy,
    expression: Seq<char>,
)
    requires
        staged(plan),
    ensures
        prebind_variable(plan, variable, expected, expression) matches Ok(after)
            ==> staged(after) && same_sources(plan, after, 0),
{
    if !plan.bindings.contains_key(variable.id) {
        lemma_bound(plan, variable, expression);
    }
}

proof fn lemma_prebind_row(
    plan: BodyView,
    row: Seq<AtomTerm>,
    schema: Seq<ColumnTy>,
    atom_index: nat,
    from: int,
)
    requires
        staged(plan),
    ensures
        prebind_row(plan, row, schema, atom_index, from) matches Ok(after)
            ==> staged(after) && same_sources(plan, after, 0),
    decreases row.len() - from,
{
    if 0 <= from < row.len() {
        match row[from] {
            AtomTerm::Var(variable) => {
                let expression = column_text(atom_index, from as nat);
                lemma_prebind_variable(plan, variable, schema[from], expression);
                match prebind_variable(plan, variable, schema[from], expression) {
                    Ok(after) => lemma_prebind_row(after, row, schema, atom_index, from + 1),
                    Err(_) => {},
                }
            },
            _ => lemma_prebind_row(plan, row, schema, atom_index, from + 1),
        }
    }
}

proof fn lemma_prebind_tables(catalog: Catalog, plan: BodyView, atoms: Seq<Atom>, from: int)
    requires
        staged(plan),
    ensures
        prebind_tables(catalog, plan, atoms, from) matches Ok(after)
            ==> staged(after) && same_sources(plan, after, 0),
    decreases atoms.len() - from,
{
    if 0 <= from < atoms.len() {
        match atoms[from].head {
            RuleBodyCall::Table { id, .. } => {
                match table_at(catalog, id) {
                    Ok(info) => {
                        lemma_prebind_row(plan, atoms[from].args@, info.schema@, from as nat, 0);
                        match prebind_row(plan, atoms[from].args@, info.schema@, from as nat, 0) {
                            Ok(after) => lemma_prebind_tables(catalog, after, atoms, from + 1),
                            Err(_) => {},
                        }
                    },
                    Err(_) => {},
                }
            },
            _ => lemma_prebind_tables(catalog, plan, atoms, from + 1),
        }
    }
}

proof fn lemma_reach_index(
    reach: Reach,
    index: int,
    args: Seq<AtomTerm>,
    any_of: Seq<usize>,
    schema: Seq<ColumnTy>,
)
    requires
        staged(reach.plan),
    ensures
        reach_index(reach, index, args, any_of, schema) matches Ok(after)
            ==> staged(after.plan) && same_sources(reach.plan, after.plan, 0),
{
    if args.len() > 1 {
        let row = args.subrange(1, args.len() - 1);
        lemma_prebind_row(reach.plan, row, schema, index as nat, 0);
        match args[0] {
            AtomTerm::Var(variable) => {
                match probe_column(row, any_of, schema.len(), variable) {
                    Some(column) => {
                        let ty = schema[column as int];
                        let text = column_text(index as nat, column as nat);
                        lemma_prebind_variable(reach.plan, variable, ty, text);
                        match prebind_variable(reach.plan, variable, ty, text) {
                            Ok(plan) => lemma_prebind_row(plan, row, schema, index as nat, 0),
                            Err(_) => {},
                        }
                    },
                    None => {},
                }
            },
            _ => {},
        }
    }
}

proof fn lemma_sweep(catalog: Catalog, reach: Reach, atoms: Seq<Atom>, from: int)
    requires
        staged(reach.plan),
        reach.admitted.len() == atoms.len(),
    ensures
        sweep(catalog, reach, atoms, from) matches Ok(after)
            ==> staged(after.plan) && same_sources(reach.plan, after.plan, 0)
            && after.admitted.len() == atoms.len(),
    decreases atoms.len() - from,
{
    if 0 <= from < atoms.len() {
        match atoms[from].head {
            RuleBodyCall::IndexTable { id, any_of, .. } => {
                if reach.admitted[from] {
                    lemma_sweep(catalog, reach, atoms, from + 1);
                } else {
                    match table_at(catalog, id) {
                        Ok(info) => {
                            let args = atoms[from].args@;
                            lemma_reach_index(reach, from, args, any_of@, info.schema@);
                            match reach_index(reach, from, args, any_of@, info.schema@) {
                                Ok(after) => lemma_sweep(catalog, after, atoms, from + 1),
                                Err(_) => {},
                            }
                        },
                        Err(_) => {},
                    }
                }
            },
            _ => lemma_sweep(catalog, reach, atoms, from + 1),
        }
    }
}

proof fn lemma_saturate(catalog: Catalog, plan: BodyView, admitted: Seq<bool>, atoms: Seq<Atom>)
    requires
        staged(plan),
        admitted.len() == atoms.len(),
    ensures
        saturate(catalog, plan, admitted, atoms) matches Ok((after, _))
            ==> staged(after) && same_sources(plan, after, 0),
    decreases unmarked(admitted, atoms.len()),
{
    let start = Reach { plan, admitted, changed: false };
    lemma_sweep(catalog, start, atoms, 0);
    match sweep(catalog, start, atoms, 0) {
        Ok(after) => {
            lemma_sweep_progress(catalog, start, atoms, 0);
            if after.changed {
                lemma_saturate(catalog, after.plan, after.admitted, atoms);
            }
        },
        Err(_) => {},
    }
}

/// A body in which the row variables are bound.
pub proof fn lemma_prebind(catalog: Catalog, atoms: Seq<Atom>)
    ensures
        prebind(catalog, atoms) matches Ok(after)
            ==> staged(after) && same_sources(empty_body(), after, 0),
{
    assert(staged(empty_body()));
    lemma_prebind_tables(catalog, empty_body(), atoms, 0);
    match prebind_tables(catalog, empty_body(), atoms, 0) {
        Ok(seeded) => {
            lemma_saturate(catalog, seeded, Seq::new(atoms.len(), |i: int| false), atoms);
        },
        Err(_) => {},
    }
}

proof fn lemma_bind_term(
    catalog: Catalog,
    plan: BodyView,
    term: AtomTerm,
    expected: ColumnTy,
    expression: Seq<char>,
)
    requires
        staged(plan),
    ensures
        bind_term(catalog, plan, term, expected, expression) matches Ok(after)
            ==> staged(after) && same_sources(plan, after, 0),
{
    match term {
        AtomTerm::Var(variable) => {
            if !plan.bindings.contains_key(variable.id) {
                lemma_bound(plan, variable, expression);
            }
        },
        _ => {},
    }
}

proof fn lemma_bind_row(
    catalog: Catalog,
    plan: BodyView,
    row: Seq<AtomTerm>,
    schema: Seq<ColumnTy>,
    atom_index: nat,
    from: int,
)
    requires
        staged(plan),
    ensures
        bind_row(catalog, plan, row, schema, atom_index, from) matches Ok(after)
            ==> staged(after) && same_sources(plan, after, 0),
    decreases row.len() - from,
{
    if 0 <= from < row.len() {
        let expression = column_text(atom_index, from as nat);
        lemma_bind_term(catalog, plan, row[from], schema[from], expression);
        match bind_term(catalog, plan, row[from], schema[from], expression) {
            Ok(after) => lemma_bind_row(catalog, after, row, schema, atom_index, from + 1),
            Err(_) => {},
        }
    }
}

proof fn lemma_body_refs(
    catalog: Catalog,
    plan: BodyView,
    row: Seq<AtomTerm>,
    schema: Seq<ColumnTy>,
    from: int,
    done: Seq<ValueRefView>,
)
    requires
        columns_own(plan),
        refs_within(done, plan.match_projection.len(), 0),
    ensures
        body_refs(catalog, plan.bindings, row, schema, from, done) matches Ok(values)
            ==> refs_within(values, plan.match_projection.len(), 0),
    decreases row.len() - from,
{
    if 0 <= from < row.len() {
        match body_ref(catalog, plan.bindings, row[from], schema[from]) {
            Ok(value) => {
                assert(ref_within(value, plan.match_projection.len(), 0));
                lemma_body_refs(catalog, plan, row, schema, from + 1, done.push(value));
            },
            Err(_) => {},
        }
    }
}

proof fn lemma_match_row(
    catalog: Catalog,
    plan: BodyView,
    id: FunctionId,
    row: Seq<AtomTerm>,
    schema: Seq<ColumnTy>,
    atom_index: nat,
)
    requires
        staged(plan),
    ensures
        match_row(catalog, plan, id, row, schema, atom_index) matches Ok(after)
            ==> staged(after) && same_sources(plan, after, 1),
{
    lemma_bind_row(catalog, plan, row, schema, atom_index, 0);
    match bind_row(catalog, plan, row, schema, atom_index, 0) {
        Ok(tied) => {
            if tied.match_projection.len() <= usize::MAX {
                lemma_body_refs(catalog, tied, row, schema, 0, Seq::empty());
                match match_row(catalog, plan, id, row, schema, atom_index) {
                    Ok(after) => {
                        assert forall|r: int| 0 <= r < after.rows.len() implies refs_within(
                            (#[trigger] after.rows[r]).1,
                            after.match_projection.len(),
                            0,
                        ) by {
                            if r < tied.rows.len() {
                                assert(after.rows[r] == tied.rows[r]);
                            }
                        }
                    },
                    Err(_) => {},
                }
            }
        },
        Err(_) => {},
    }
}

proof fn lemma_atom_step(
    catalog: Catalog,
    registries: AuthorityRegistries,
    plan: BodyView,
    atom: Atom,
    atom_index: nat,
)
    requires
        staged(plan),
    ensures
        atom_step(catalog, registries, plan, atom, atom_index) matches Ok(after)
            ==> staged(after) && (body_live(plan, registries) ==> body_live(after, registries))
            && joins_more(plan, after, one_if(row_atom(atom))),
{
    let args = atom.args@;
    match atom.head {
        RuleBodyCall::Table { id, read } => {
            match table_at(catalog, id) {
                Ok(info) => {
                    let base = joined(plan, id, read, atom_index, info.schema@.len());
                    lemma_match_row(catalog, base, id, args, info.schema@, atom_index);
                },
                Err(_) => {},
            }
        },
        RuleBodyCall::IndexTable { id, any_of, read } => {
            match table_at(catalog, id) {
                Ok(info) => {
                    let base = joined(plan, id, read, atom_index, info.schema@.len());
                    let columns = occurrence_columns(
                        any_of@,
                        info.schema@.len(),
                    );
                    match body_term(
                        catalog,
                        plan.bindings,
                        args[0],
                        term_ty(args[0]),
                        "index probe"@,
                    ) {
                        Ok(probe) => {
                            let guarded = tested(
                                base,
                                occurrence_test(atom_index, columns, probe),
                            );
                            lemma_match_row(
                                catalog,
                                guarded,
                                id,
                                args.subrange(1, args.len() - 1),
                                info.schema@,
                                atom_index,
                            );
                        },
                        Err(_) => {},
                    }
                },
                Err(_) => {},
            }
        },
        RuleBodyCall::Primitive { id, output, .. } => {
            lemma_primitive_atom(catalog, registries, plan, id, output, args);
        },
    }
}

proof fn lemma_bind_output(
    catalog: Catalog,
    plan: BodyView,
    term: AtomTerm,
    output: ColumnTy,
    value: Seq<char>,
)
    requires
        staged(plan),
    ensures
        bind_output(catalog, plan, term, output, value) matches Ok(after)
            ==> staged(after) && same_sources(plan, after, 0),
{
    match term {
        AtomTerm::Var(variable) => {
            if !plan.bindings.contains_key(variable.id) {
                lemma_bound(plan, variable, value);
            }
        },
        _ => {},
    }
}

proof fn lemma_primitive_atom(
    catalog: Catalog,
    registries: AuthorityRegistries,
    plan: BodyView,
    token: ExternalFunctionId,
    output: ColumnTy,
    args: Seq<AtomTerm>,
)
    requires
        staged(plan),
    ensures
        primitive_atom(catalog, registries, plan, token, output, args) matches Ok(after)
            ==> staged(after) && (body_live(plan, registries) ==> body_live(after, registries))
            && joins_more(plan, after, 0),
{
    if args.len() > 0 {
        let count = args.len() - 1;
        let tys = args.take(count).map_values(|t: AtomTerm| term_ty(t));
        match authenticated(catalog.forms@, registries, token, tys, output) {
            Ok(expression) => {
                match body_terms(
                    catalog,
                    plan.bindings,
                    args,
                    count,
                    0,
                    Seq::empty(),
                ) {
                    Ok(inputs) => {
                        let guarded = match defined_text(expression, inputs) {
                            Some(defined) => tested(plan, defined),
                            None => plan,
                        };
                        let value = form_text(expression.value, inputs);
                        lemma_bind_output(catalog, guarded, args.last(), output, value);
                    },
                    Err(_) => {},
                }
            },
            Err(_) => {},
        }
    }
}

proof fn lemma_atom_steps(
    catalog: Catalog,
    registries: AuthorityRegistries,
    plan: BodyView,
    atoms: Seq<Atom>,
    from: int,
)
    requires
        staged(plan),
    ensures
        atom_steps(catalog, registries, plan, atoms, from) matches Ok(after)
            ==> staged(after) && (body_live(plan, registries) ==> body_live(after, registries))
            && joins_more(plan, after, row_atoms(atoms, from)),
    decreases atoms.len() - from,
{
    if 0 <= from < atoms.len() {
        lemma_atom_step(catalog, registries, plan, atoms[from], from as nat);
        match atom_step(catalog, registries, plan, atoms[from], from as nat) {
            Ok(after) => lemma_atom_steps(catalog, registries, after, atoms, from + 1),
            Err(_) => {},
        }
    }
}

/// Every variable of a compiled body is one column of the match relation and
/// every column is a variable, no two variables share a column, the column holds
/// the variable's expression, and matched rows refer to such columns only.
pub proof fn law_body_variables_own_columns(
    catalog: Catalog,
    registries: AuthorityRegistries,
    atoms: Seq<Atom>,
    plan: BodyView,
)
    requires
        scalar_body(catalog, registries, atoms) == Ok::<BodyView, RejectionView>(
            plan,
        ),
        plan.match_projection.len() <= usize::MAX,
    ensures
        columns_own(plan),
        rows_within(plan.rows, plan.match_projection.len()),
{
    lemma_prebind(catalog, atoms);
    match prebind(catalog, atoms) {
        Ok(bound) => lemma_atom_steps(catalog, registries, bound, atoms, 0),
        Err(_) => {},
    }
}

/// A compiled body joins one relation for each of its table and index atoms, and
/// has a freshness column and a matched row for each of them.
pub proof fn law_bodies_join_their_row_atoms(
    catalog: Catalog,
    registries: AuthorityRegistries,
    atoms: Seq<Atom>,
    plan: BodyView,
)
    requires
        scalar_body(catalog, registries, atoms) == Ok::<BodyView, RejectionView>(plan),
    ensures
        plan.match_from.len() == row_atoms(atoms, 0),
        plan.freshness_columns.len() == row_atoms(atoms, 0),
        plan.rows.len() == row_atoms(atoms, 0),
{
    lemma_prebind(catalog, atoms);
    match prebind(catalog, atoms) {
        Ok(bound) => lemma_atom_steps(catalog, registries, bound, atoms, 0),
        Err(_) => {},
    }
}

/// Every primitive that a compiled body uses is authenticated by the registries
/// it was compiled against.
pub proof fn law_body_authorities_are_live(
    catalog: Catalog,
    registries: AuthorityRegistries,
    atoms: Seq<Atom>,
    plan: BodyView,
)
    requires
        scalar_body(catalog, registries, atoms) == Ok::<BodyView, RejectionView>(plan),
    ensures
        body_live(plan, registries),
{
    lemma_prebind(catalog, atoms);
    match prebind(catalog, atoms) {
        Ok(bound) => lemma_atom_steps(catalog, registries, bound, atoms, 0),
        Err(_) => {},
    }
}

} // verus!
