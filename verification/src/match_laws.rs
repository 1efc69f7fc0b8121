//! What the match statement of a rule means: it selects the matches of the rule's
//! body, and a seminaive one those with a new row.

use vstd::prelude::*;

#[allow(unused_imports)]
use crate::action_body::{
    column_text, empty_body, lemma_sweep_progress, occurrence_columns, occurrences_fit, prebind,
    prebind_row, prebind_tables, prebind_variable, probe_column, reach_index, repeated_probe,
    saturate, scalar_body, sweep, unmarked, BodyView, Reach,
};
#[allow(unused_imports)]
use crate::action_plan::{aliased, freshness_tests, match_sql, PlanView};
#[allow(unused_imports)]
use crate::action_rule::scalar_plan;
#[allow(unused_imports)]
use crate::authority::AuthorityRegistries;
#[allow(unused_imports)]
use crate::body_laws::{columns_own, law_body_variables_own_columns, lemma_prebind, owned_column};
#[allow(unused_imports)]
use crate::catalog::{table_at, table_text, Catalog};
#[allow(unused_imports)]
use crate::ir::{Atom, AtomTerm, ColumnTy, CoreAction, FunctionId, RuleBodyCall, RuleVar};
#[allow(unused_imports)]
use crate::match_query::{
    atom_column, atoms_satisfied, depicts, faithful, lemma_atoms, lemma_occurrences, valued,
    occurrence_clause, term_scalar, with_atom, with_atoms, with_clause, with_row, with_table,
    with_term, Forms, Query,
};
#[allow(unused_imports)]
use crate::rejection::RejectionView;
#[allow(unused_imports)]
use crate::rule_meaning::{
    atom_holds, atom_rows, atom_satisfied, body_matches, has_new_row, is_new, term_value,
    Assignment, World,
};
#[allow(unused_imports)]
use crate::sql::{
    alias_sql, clause_holds, clause_sql, clauses_sql, column_sql, condition_holds, condition_sql,
    scalar_sql, scalar_value, test_holds, tests_sql, Alias, Clause, Database, Datum, Env, Name,
    Scalar, Test,
};
#[allow(unused_imports)]
use crate::text::{decimal, join};

verus! {

// ---------------------------------------------------------------------------
// The variables that rows bind.

/// A column of an atom's row holds a variable: the atom names it there, or it is
/// the probe of an index over that column alone.
pub open spec fn sources(atoms: Seq<Atom>, id: u32, index: nat, column: nat) -> bool {
    let args = atoms[index as int].args@;
    &&& index < atoms.len()
    &&& match atoms[index as int].head {
        RuleBodyCall::Table { .. } => column < args.len() && names(args[column as int], id),
        RuleBodyCall::IndexTable { any_of, .. } => {
            &&& args.len() >= 2
            &&& {
                ||| column < args.len() - 2 && names(args[column as int + 1], id)
                ||| names(args[0], id) && forall|k: int|
                    0 <= k < any_of@.len() ==> #[trigger] any_of@[k] == column
            }
        },
        RuleBodyCall::Primitive { .. } => false,
    }
}

/// A term is a variable with an id.
pub open spec fn names(term: AtomTerm, id: u32) -> bool {
    term matches AtomTerm::Var(variable) && variable.id == id
}

/// An expression is a column that holds a variable.
pub open spec fn is_source(
    expression: Seq<char>,
    atoms: Seq<Atom>,
    id: u32,
    source: (nat, nat),
) -> bool {
    expression == column_text(source.0, source.1) && sources(atoms, id, source.0, source.1)
}

/// Every variable is bound to a column that holds it, and nothing is joined yet.
pub open spec fn sourced(plan: BodyView, atoms: Seq<Atom>) -> bool {
    &&& plan.match_from == Seq::<Seq<char>>::empty()
    &&& plan.match_predicates == Seq::<Seq<char>>::empty()
    &&& plan.freshness_columns == Seq::<Seq<char>>::empty()
    &&& plan.order_columns == Seq::<Seq<char>>::empty()
    &&& forall|id: u32| #[trigger]
        plan.bindings.contains_key(id) ==> exists|source: (nat, nat)| #[trigger]
            is_source(plan.bindings[id].expression, atoms, id, source)
}

proof fn lemma_variable_sourced(
    plan: BodyView,
    atoms: Seq<Atom>,
    variable: RuleVar,
    expected: ColumnTy,
    index: nat,
    column: nat,
)
    requires
        sourced(plan, atoms),
        sources(atoms, variable.id, index, column),
    ensures
        prebind_variable(plan, variable, expected, column_text(index, column)) matches Ok(after)
            ==> sourced(after, atoms),
{
    match prebind_variable(plan, variable, expected, column_text(index, column)) {
        Ok(after) => {
            assert forall|id: u32| #[trigger] after.bindings.contains_key(id) implies exists|
                source: (nat, nat),
            | #[trigger] is_source(after.bindings[id].expression, atoms, id, source) by {
                if plan.bindings.contains_key(id) {
                    let source = choose|source: (nat, nat)| #[trigger]
                        is_source(plan.bindings[id].expression, atoms, id, source);
                    assert(is_source(after.bindings[id].expression, atoms, id, source));
                } else {
                    assert(is_source(
                        after.bindings[id].expression,
                        atoms,
                        id,
                        (index, column),
                    ));
                }
            }
        },
        Err(_) => {},
    }
}

proof fn lemma_row_sourced(
    plan: BodyView,
    atoms: Seq<Atom>,
    row: Seq<AtomTerm>,
    schema: Seq<ColumnTy>,
    index: nat,
    from: int,
)
    requires
        sourced(plan, atoms),
        forall|k: int, id: u32|
            0 <= k < row.len() && #[trigger] names(row[k], id) ==> sources(
                atoms,
                id,
                index,
                k as nat,
            ),
    ensures
        prebind_row(plan, row, schema, index, from) matches Ok(after) ==> sourced(after, atoms),
    decreases row.len() - from,
{
    if 0 <= from < row.len() {
        match row[from] {
            AtomTerm::Var(variable) => {
                assert(names(row[from], variable.id));
                lemma_variable_sourced(
                    plan,
                    atoms,
                    variable,
                    schema[from],
                    index,
                    from as nat,
                );
                match prebind_variable(
                    plan,
                    variable,
                    schema[from],
                    column_text(index, from as nat),
                ) {
                    Ok(after) => lemma_row_sourced(after, atoms, row, schema, index, from + 1),
                    Err(_) => {},
                }
            },
            _ => lemma_row_sourced(plan, atoms, row, schema, index, from + 1),
        }
    }
}

proof fn lemma_tables_sourced(catalog: Catalog, plan: BodyView, atoms: Seq<Atom>, from: int)
    requires
        sourced(plan, atoms),
    ensures
        prebind_tables(catalog, plan, atoms, from) matches Ok(after) ==> sourced(after, atoms),
    decreases atoms.len() - from,
{
    if 0 <= from < atoms.len() {
        match atoms[from].head {
            RuleBodyCall::Table { id, .. } => {
                match table_at(catalog, id) {
                    Ok(info) => {
                        let args = atoms[from].args@;
                        lemma_row_sourced(plan, atoms, args, info.schema@, from as nat, 0);
                        match prebind_row(plan, args, info.schema@, from as nat, 0) {
                            Ok(after) => lemma_tables_sourced(catalog, after, atoms, from + 1),
                            Err(_) => {},
                        }
                    },
                    Err(_) => {},
                }
            },
            _ => lemma_tables_sourced(catalog, plan, atoms, from + 1),
        }
    }
}

proof fn lemma_repeated_probe(
    row: Seq<AtomTerm>,
    any_of: Seq<usize>,
    variable: RuleVar,
    from: int,
)
    requires
        row.len() <= usize::MAX,
    ensures
        repeated_probe(row, any_of, variable, from) matches Some(column) ==> column < row.len()
            && row[column as int] == AtomTerm::Var(variable),
    decreases row.len() - from,
{
    if 0 <= from < row.len() {
        lemma_repeated_probe(row, any_of, variable, from + 1);
    }
}

proof fn lemma_index_sourced(
    reach: Reach,
    atoms: Seq<Atom>,
    index: int,
    any_of: Seq<usize>,
    schema: Seq<ColumnTy>,
)
    requires
        sourced(reach.plan, atoms),
        0 <= index < atoms.len(),
        schema.len() <= usize::MAX,
        atoms[index].head matches RuleBodyCall::IndexTable { any_of: listed, .. } && listed@
            == any_of,
    ensures
        reach_index(reach, index, atoms[index].args@, any_of, schema) matches Ok(after)
            ==> sourced(after.plan, atoms),
{
    let args = atoms[index].args@;
    if args.len() > 1 && args.len() - 2 == schema.len() && occurrences_fit(any_of, schema.len()) {
        let row = args.subrange(1, args.len() - 1);
        assert forall|k: int, id: u32|
            0 <= k < row.len() && #[trigger] names(row[k], id) implies sources(
            atoms,
            id,
            index as nat,
            k as nat,
        ) by {
            assert(row[k] == args[k + 1]);
        }
        lemma_row_sourced(reach.plan, atoms, row, schema, index as nat, 0);
        match args[0] {
            AtomTerm::Var(variable) => {
                match probe_column(row, any_of, schema.len(), variable) {
                    Some(column) => {
                        assert(sources(atoms, variable.id, index as nat, column as nat)) by {
                            lemma_repeated_probe(row, any_of, variable, 0);
                            match repeated_probe(row, any_of, variable, 0) {
                                Some(_) => {
                                    assert(names(row[column as int], variable.id));
                                },
                                None => {
                                    let columns = occurrence_columns(any_of, schema.len());
                                    lemma_occurrences(any_of, schema.len());
                                    assert forall|k: int| 0 <= k < any_of.len() implies
                                        #[trigger] any_of[k] == column by {
                                        assert(any_of.contains(any_of[k]));
                                        assert(columns.contains(any_of[k]));
                                    }
                                },
                            }
                        }
                        lemma_variable_sourced(
                            reach.plan,
                            atoms,
                            variable,
                            schema[column as int],
                            index as nat,
                            column as nat,
                        );
                        match prebind_variable(
                            reach.plan,
                            variable,
                            schema[column as int],
                            column_text(index as nat, column as nat),
                        ) {
                            Ok(plan) => {
                                lemma_row_sourced(plan, atoms, row, schema, index as nat, 0);
                            },
                            Err(_) => {},
                        }
                    },
                    None => {},
                }
            },
            _ => {},
        }
    }
}

proof fn lemma_sweep_sourced(catalog: Catalog, reach: Reach, atoms: Seq<Atom>, from: int)
    requires
        sourced(reach.plan, atoms),
        reach.admitted.len() == atoms.len(),
    ensures
        sweep(catalog, reach, atoms, from) matches Ok(after) ==> sourced(after.plan, atoms)
            && after.admitted.len() == atoms.len(),
    decreases atoms.len() - from,
{
    if 0 <= from < atoms.len() {
        match atoms[from].head {
            RuleBodyCall::IndexTable { id, any_of, .. } => {
                if reach.admitted[from] {
                    lemma_sweep_sourced(catalog, reach, atoms, from + 1);
                } else {
                    match table_at(catalog, id) {
                        Ok(info) => {
                            assert(info.schema.len() == info.schema@.len());
                            lemma_index_sourced(reach, atoms, from, any_of@, info.schema@);
                            match reach_index(
                                reach,
                                from,
                                atoms[from].args@,
                                any_of@,
                                info.schema@,
                            ) {
                                Ok(after) => lemma_sweep_sourced(catalog, after, atoms, from + 1),
                                Err(_) => {},
                            }
                        },
                        Err(_) => {},
                    }
                }
            },
            _ => lemma_sweep_sourced(catalog, reach, atoms, from + 1),
        }
    }
}

proof fn lemma_saturate_sourced(
    catalog: Catalog,
    plan: BodyView,
    admitted: Seq<bool>,
    atoms: Seq<Atom>,
)
    requires
        sourced(plan, atoms),
        admitted.len() == atoms.len(),
    ensures
        saturate(catalog, plan, admitted, atoms) matches Ok((after, _)) ==> sourced(after, atoms),
    decreases unmarked(admitted, atoms.len()),
{
    let start = Reach { plan, admitted, changed: false };
    lemma_sweep_sourced(catalog, start, atoms, 0);
    match sweep(catalog, start, atoms, 0) {
        Ok(after) => {
            lemma_sweep_progress(catalog, start, atoms, 0);
            if after.changed {
                lemma_saturate_sourced(catalog, after.plan, after.admitted, atoms);
            }
        },
        Err(_) => {},
    }
}

proof fn lemma_prebind_sourced(catalog: Catalog, atoms: Seq<Atom>)
    ensures
        prebind(catalog, atoms) matches Ok(after) ==> sourced(after, atoms),
{
    lemma_tables_sourced(catalog, empty_body(), atoms, 0);
    match prebind_tables(catalog, empty_body(), atoms, 0) {
        Ok(seeded) => {
            lemma_saturate_sourced(catalog, seeded, Seq::new(atoms.len(), |i: int| false), atoms);
        },
        Err(_) => {},
    }
}

// ---------------------------------------------------------------------------
// The query of a body.

/// The column that a variable is bound to.
pub open spec fn source_column(plan: BodyView, atoms: Seq<Atom>, id: u32) -> Scalar {
    let source = choose|source: (nat, nat)| #[trigger]
        is_source(plan.bindings[id].expression, atoms, id, source);
    atom_column(source.0, source.1)
}

/// The variable that owns a column of the matches.
pub open spec fn column_owner(plan: BodyView, column: int) -> u32 {
    choose|id: u32| #[trigger]
        plan.bindings.contains_key(id) && plan.bindings[id].stage_column == column
}

/// The query in which the row variables are bound.
pub open spec fn row_query(plan: BodyView, atoms: Seq<Atom>) -> Query {
    Query {
        projection: Seq::new(
            plan.match_projection.len(),
            |k: int| source_column(plan, atoms, column_owner(plan, k)),
        ),
        from: Seq::empty(),
        condition: Seq::empty(),
        order: Seq::empty(),
        bindings: Map::new(
            |id: u32| plan.bindings.contains_key(id),
            |id: u32| source_column(plan, atoms, id),
        ),
    }
}

/// The query of a body.
pub open spec fn body_query(
    catalog: Catalog,
    registries: AuthorityRegistries,
    atoms: Seq<Atom>,
    world: World,
    forms: Forms,
) -> Query {
    with_atoms(
        catalog,
        registries,
        row_query(prebind(catalog, atoms)->Ok_0, atoms),
        atoms,
        0,
        world,
        forms,
    )
}

proof fn lemma_row_query(catalog: Catalog, atoms: Seq<Atom>, plan: BodyView)
    requires
        prebind(catalog, atoms) == Ok::<BodyView, RejectionView>(plan),
    ensures
        depicts(plan, row_query(plan, atoms)),
        sourced(plan, atoms),
{
    let query = row_query(plan, atoms);
    lemma_prebind(catalog, atoms);
    lemma_prebind_sourced(catalog, atoms);
    assert forall|id: u32| #[trigger] query.bindings.contains_key(id) implies
        plan.bindings[id].expression == scalar_sql(query.bindings[id]) by {
        assert(plan.bindings.contains_key(id));
    }
    assert(clauses_sql(query.condition) =~= plan.match_predicates);
    assert(query.order.map_values(|s: Scalar| scalar_sql(s)) =~= plan.order_columns);
    assert(plan.match_from =~= query.from.map_values(
        |joined: (FunctionId, nat)| table_text(joined.0) + " AS "@ + alias_sql(Alias::Body(joined.1)),
    ));
    assert(plan.freshness_columns =~= query.from.map_values(
        |joined: (FunctionId, nat)| column_sql(alias_sql(Alias::Body(joined.1)), Name::Generation),
    ));
    if plan.match_projection.len() <= usize::MAX {
        assert(columns_own(plan));
        assert forall|k: int| 0 <= k < plan.match_projection.len() implies {
            let id = column_owner(plan, k);
            &&& plan.bindings.contains_key(id)
            &&& plan.bindings[id].stage_column == k
            &&& #[trigger] plan.match_projection[k] == plan.bindings[id].expression
        } by {
            assert(owned_column(plan, plan.match_projection[k], k));
            let found = choose|id: u32| #[trigger]
                plan.bindings.contains_key(id) && plan.bindings[id].stage_column == k
                    && plan.bindings[id].expression == plan.match_projection[k];
            assert(plan.bindings.contains_key(found) && plan.bindings[found].stage_column == k);
        }
        assert(plan.match_projection =~= query.projection.map_values(|s: Scalar| scalar_sql(s)))
            by {
            assert forall|k: int| 0 <= k < plan.match_projection.len() implies
                plan.match_projection[k] == scalar_sql(query.projection[k]) by {
                let id = column_owner(plan, k);
                assert(plan.match_projection[k] == plan.bindings[id].expression);
                assert(plan.bindings.contains_key(id));
                assert(query.bindings.contains_key(id));
            }
        }
        assert forall|id: u32| #[trigger] query.bindings.contains_key(id) implies
            plan.bindings[id].stage_column < query.projection.len()
            && query.projection[plan.bindings[id].stage_column as int] == query.bindings[id] by {
            assert(plan.bindings.contains_key(id));
            let k = plan.bindings[id].stage_column as int;
            let owner = column_owner(plan, k);
            assert(plan.bindings.contains_key(owner));
            assert(owner == id);
        }
    }
}

proof fn lemma_row_query_valued(
    plan: BodyView,
    atoms: Seq<Atom>,
    world: World,
    env: Env,
    assignment: Assignment,
)
    requires
        sourced(plan, atoms),
        atoms_satisfied(atoms, 0, world, env, assignment),
    ensures
        valued(row_query(plan, atoms), env, assignment),
{
    let query = row_query(plan, atoms);
    assert forall|id: u32| #[trigger] query.bindings.contains_key(id) implies scalar_value(
        query.bindings[id],
        env,
    ) == assignment(id) by {
        assert(plan.bindings.contains_key(id));
        let source = choose|source: (nat, nat)| #[trigger]
            is_source(plan.bindings[id].expression, atoms, id, source);
        assert(is_source(plan.bindings[id].expression, atoms, id, source));
        let index = source.0 as int;
        let column = source.1 as int;
        let atom = atoms[index];
        let args = atom.args@;
        let row = env(Alias::Body(index as nat));
        assert(atom_satisfied(atom, row, world, assignment));
        match atom.head {
            RuleBodyCall::Table { .. } => {
                assert(row(Name::C(column as nat)) == term_value(args[column], world, assignment));
            },
            RuleBodyCall::IndexTable { any_of, .. } => {
                let terms = args.subrange(1, args.len() - 1);
                if column < args.len() - 2 && names(args[column + 1], id) {
                    assert(terms[column] == args[column + 1]);
                    assert(row(Name::C(column as nat)) == term_value(
                        terms[column],
                        world,
                        assignment,
                    ));
                } else {
                    let k = choose|k: int|
                        0 <= k < any_of@.len() && row(Name::C(#[trigger] any_of@[k] as nat))
                            == term_value(args[0], world, assignment);
                    assert(any_of@[k] == column);
                }
            },
            RuleBodyCall::Primitive { .. } => {},
        }
    }
}

// ---------------------------------------------------------------------------
// The joined tables.

/// The tables of the row atoms from `from` on, each with its atom's position.
pub open spec fn row_tables(atoms: Seq<Atom>, from: int) -> Seq<(FunctionId, nat)>
    decreases atoms.len() - from,
{
    if from < 0 || from >= atoms.len() {
        Seq::empty()
    } else {
        match atoms[from].head {
            RuleBodyCall::Table { id, .. } => seq![(id, from as nat)] + row_tables(
                atoms,
                from + 1,
            ),
            RuleBodyCall::IndexTable { id, .. } => seq![(id, from as nat)] + row_tables(
                atoms,
                from + 1,
            ),
            RuleBodyCall::Primitive { .. } => row_tables(atoms, from + 1),
        }
    }
}

proof fn lemma_row_keeps_tables(
    catalog: Catalog,
    query: Query,
    row: Seq<AtomTerm>,
    atom_index: nat,
    from: int,
    world: World,
)
    ensures
        with_row(catalog, query, row, atom_index, from, world).from == query.from,
        with_row(catalog, query, row, atom_index, from, world).order == query.order,
    decreases row.len() - from,
{
    if 0 <= from < row.len() {
        let next = with_term(catalog, query, row[from], atom_column(atom_index, from as nat), world);
        lemma_row_keeps_tables(catalog, next, row, atom_index, from + 1, world);
    }
}

proof fn lemma_joined_tables(
    catalog: Catalog,
    registries: AuthorityRegistries,
    query: Query,
    atoms: Seq<Atom>,
    from: int,
    world: World,
    forms: Forms,
)
    requires
        0 <= from,
    ensures
        with_atoms(catalog, registries, query, atoms, from, world, forms).from == query.from
            + row_tables(atoms, from),
    decreases atoms.len() - from,
{
    if from < atoms.len() {
        let index = from as nat;
        let next = with_atom(catalog, registries, query, atoms[from], index, world, forms);
        lemma_joined_tables(catalog, registries, next, atoms, from + 1, world, forms);
        let args = atoms[from].args@;
        match atoms[from].head {
            RuleBodyCall::Table { id, read } => {
                let table = with_table(query, id, read, index, args.len());
                lemma_row_keeps_tables(catalog, table, args, index, 0, world);
                assert(next.from == query.from.push((id, index)));
            },
            RuleBodyCall::IndexTable { id, any_of, read } => {
                let row = args.subrange(1, args.len() - 1);
                let table = with_clause(
                    with_table(query, id, read, index, row.len()),
                    occurrence_clause(
                        index,
                        occurrence_columns(any_of@, row.len()),
                        term_scalar(catalog, query, args[0], world),
                    ),
                );
                lemma_row_keeps_tables(catalog, table, row, index, 0, world);
                assert(next.from == query.from.push((id, index)));
            },
            RuleBodyCall::Primitive { .. } => {
                assert(next.from == query.from);
            },
        }
        assert(next.from + row_tables(atoms, from + 1) =~= query.from + row_tables(atoms, from));
    } else {
        assert(query.from + row_tables(atoms, from) =~= query.from);
    }
}

/// The joined tables are those of the row atoms, and each of them is joined.
proof fn lemma_row_tables(atoms: Seq<Atom>, from: int)
    requires
        0 <= from,
    ensures
        forall|k: int|
            0 <= k < row_tables(atoms, from).len() ==> {
                let joined = #[trigger] row_tables(atoms, from)[k];
                &&& from <= joined.1 < atoms.len()
                &&& !(atoms[joined.1 as int].head is Primitive)
                &&& forall|database: Database| #[trigger]
                    atom_rows(atoms[joined.1 as int], database) == database(table_text(joined.0))
            },
        forall|i: int|
            from <= i < atoms.len() && !((#[trigger] atoms[i]).head is Primitive) ==> exists|k: int|
                0 <= k < row_tables(atoms, from).len() && (#[trigger] row_tables(atoms, from)[k]).1
                    == i,
    decreases atoms.len() - from,
{
    if from < atoms.len() {
        lemma_row_tables(atoms, from + 1);
        let rest = row_tables(atoms, from + 1);
        let tables = row_tables(atoms, from);
        let shift: int = if atoms[from].head is Primitive {
            0
        } else {
            1
        };
        assert(tables.len() == rest.len() + shift);
        assert forall|k: int| 0 <= k < rest.len() implies #[trigger] tables[k + shift]
            == rest[k] by {}
        assert forall|k: int| 0 <= k < tables.len() implies {
            let joined = #[trigger] tables[k];
            &&& from <= joined.1 < atoms.len()
            &&& !(atoms[joined.1 as int].head is Primitive)
            &&& forall|database: Database| #[trigger]
                atom_rows(atoms[joined.1 as int], database) == database(table_text(joined.0))
        } by {
            if k >= shift {
                assert(tables[k - shift + shift] == rest[k - shift]);
            }
        }
        assert forall|i: int|
            from <= i < atoms.len() && !((#[trigger] atoms[i]).head is Primitive) implies exists|
            k: int,
        | 0 <= k < tables.len() && (#[trigger] tables[k]).1 == i by {
            if i == from {
                assert(tables[0].1 == i);
            } else {
                let k = choose|k: int| 0 <= k < rest.len() && (#[trigger] rest[k]).1 == i;
                assert(tables[k + shift].1 == i);
            }
        }
    }
}

// ---------------------------------------------------------------------------
// The statement.

/// The condition under which matches are new: one of the joined rows is. Where no
/// row is joined, everything is new before the first run and nothing after it.
pub open spec fn newness(query: Query, seminaive: bool, watermark: nat) -> Seq<Clause> {
    if query.from.len() == 0 {
        seq![
            Clause::One(
                if !seminaive || watermark == 0 {
                    Test::True
                } else {
                    Test::False
                },
            ),
        ]
    } else if seminaive {
        seq![
            Clause::Any(
                Seq::new(
                    query.from.len(),
                    |k: int|
                        Test::AtLeast(
                            Scalar::Column(Alias::Body(query.from[k].1), Name::Generation),
                            watermark,
                        ),
                ),
            ),
        ]
    } else {
        Seq::empty()
    }
}

/// The columns of a query as they are written, named `b0`, `b1`, ...
pub open spec fn projection_sql(projection: Seq<Scalar>) -> Seq<Seq<char>> {
    Seq::new(
        projection.len(),
        |i: int| scalar_sql(projection[i]) + " AS "@ + "b"@ + decimal(i as nat),
    )
}

/// The joined tables of a query as they are written.
pub open spec fn tables_sql(from: Seq<(FunctionId, nat)>) -> Seq<Seq<char>> {
    Seq::new(
        from.len(),
        |k: int| table_text(from[k].0) + " AS "@ + alias_sql(Alias::Body(from[k].1)),
    )
}

/// The statement that stages what a query selects, numbered in its order.
pub open spec fn query_sql(stage: Seq<char>, query: Query, condition: Seq<Clause>) -> Seq<char> {
    if query.from.len() == 0 {
        "CREATE TEMP TABLE "@ + stage + " AS\n                 SELECT "@ + join(
            projection_sql(query.projection).push("CAST('1' AS UBIGINT) AS __match_ordinal"@),
            ", "@,
        ) + "\n                 WHERE "@ + condition_sql(condition)
    } else {
        "CREATE TEMP TABLE "@ + stage + " AS\n             SELECT "@ + join(
            projection_sql(query.projection).push(
                "row_number() OVER (ORDER BY "@ + join(
                    query.order.map_values(|s: Scalar| scalar_sql(s)),
                    ", "@,
                ) + ") AS __match_ordinal"@,
            ),
            ", "@,
        ) + "\n             FROM "@ + join(tables_sql(query.from), " CROSS JOIN "@)
            + "\n             WHERE "@ + condition_sql(condition)
    }
}

/// Every alias stands for a row of its table.
pub open spec fn joins(from: Seq<(FunctionId, nat)>, database: Database, env: Env) -> bool {
    forall|k: int|
        0 <= k < from.len() ==> database(table_text((#[trigger] from[k]).0)).contains(
            env(Alias::Body(from[k].1)),
        )
}

/// A query selects the rows of the aliases.
pub open spec fn selects_rows(
    query: Query,
    condition: Seq<Clause>,
    database: Database,
    env: Env,
) -> bool {
    joins(query.from, database, env) && condition_holds(condition, env)
}

/// A query selects a match.
pub open spec fn selects_match(
    query: Query,
    condition: Seq<Clause>,
    database: Database,
    row: Seq<Datum>,
) -> bool {
    exists|env: Env| #[trigger]
        selects_rows(query, condition, database, env) && row == query.projection.map_values(
            |s: Scalar| scalar_value(s, env),
        )
}

/// The match statement of a plan is the query's statement.
proof fn lemma_match_sql(
    plan: PlanView,
    matched: BodyView,
    query: Query,
    stage: Seq<char>,
    watermark: u64,
)
    requires
        depicts(matched, query),
        matched.match_projection.len() <= usize::MAX,
        plan.match_projection == matched.match_projection,
        plan.match_from == matched.match_from,
        plan.match_predicates == matched.match_predicates,
        plan.freshness_columns == matched.freshness_columns,
        plan.order_columns == matched.order_columns,
    ensures
        match_sql(plan, stage, watermark) == query_sql(
            stage,
            query,
            query.condition + newness(query, plan.seminaive, watermark as nat),
        ),
{
    let added = newness(query, plan.seminaive, watermark as nat);
    let condition = query.condition + added;
    assert(projection_sql(query.projection) =~= aliased(plan.match_projection, "b"@));
    assert(tables_sql(query.from) =~= plan.match_from);
    if query.from.len() == 0 {
        let test = added[0];
        assert(clauses_sql(condition) =~= plan.match_predicates.push(clause_sql(test)));
    } else if plan.seminaive {
        let tests = added[0]->Any_0;
        assert(tests_sql(tests) =~= freshness_tests(plan.freshness_columns, watermark));
        assert(clauses_sql(condition) =~= plan.match_predicates.push(clause_sql(added[0])));
    } else {
        assert(condition =~= query.condition);
    }
}

/// A seminaive rule takes a match when one of its rows is new. A rule without row
/// atoms takes its match before the first run only.
pub open spec fn newly(
    atoms: Seq<Atom>,
    database: Database,
    picks: Seq<int>,
    watermark: nat,
) -> bool {
    if exists|i: int| 0 <= i < atoms.len() && !((#[trigger] atoms[i]).head is Primitive) {
        has_new_row(atoms, database, picks, watermark)
    } else {
        watermark == 0
    }
}

/// A row of the match relation holds the values of the variables.
pub open spec fn holds_variables(
    matched: BodyView,
    row: Seq<Datum>,
    assignment: Assignment,
) -> bool {
    &&& row.len() == matched.match_projection.len()
    &&& forall|id: u32| #[trigger]
        matched.bindings.contains_key(id) ==> row[matched.bindings[id].stage_column as int]
            == assignment(id)
}

/// A match of a rule's body that is a row of the match relation.
pub open spec fn taken(
    atoms: Seq<Atom>,
    matched: BodyView,
    seminaive: bool,
    watermark: nat,
    database: Database,
    world: World,
    picks: Seq<int>,
    assignment: Assignment,
    row: Seq<Datum>,
) -> bool {
    &&& body_matches(atoms, database, picks, world, assignment)
    &&& seminaive ==> newly(atoms, database, picks, watermark)
    &&& holds_variables(matched, row, assignment)
}

/// The rows of a match, by alias.
spec fn match_env(atoms: Seq<Atom>, database: Database, picks: Seq<int>) -> Env {
    |alias: Alias|
        match alias {
            Alias::Body(index) => atom_rows(atoms[index as int], database)[picks[index as int]],
            _ => arbitrary(),
        }
}

/// The positions of the aliases' rows in their tables.
spec fn env_picks(atoms: Seq<Atom>, database: Database, env: Env) -> Seq<int> {
    Seq::new(
        atoms.len(),
        |i: int|
            choose|k: int|
                0 <= k < atom_rows(atoms[i], database).len() && #[trigger] atom_rows(
                    atoms[i],
                    database,
                )[k] == env(Alias::Body(i as nat)),
    )
}

proof fn lemma_env_pick(atoms: Seq<Atom>, database: Database, env: Env, i: int)
    requires
        0 <= i < atoms.len(),
        !(atoms[i].head is Primitive),
        joins(row_tables(atoms, 0), database, env),
    ensures
        0 <= env_picks(atoms, database, env)[i] < atom_rows(atoms[i], database).len(),
        atom_rows(atoms[i], database)[env_picks(atoms, database, env)[i]] == env(
            Alias::Body(i as nat),
        ),
{
    lemma_row_tables(atoms, 0);
    let tables = row_tables(atoms, 0);
    let k = choose|k: int| 0 <= k < tables.len() && (#[trigger] tables[k]).1 == i;
    let rows = atom_rows(atoms[i], database);
    assert(rows == database(table_text(tables[k].0)));
    assert(rows.contains(env(Alias::Body(i as nat))));
    let r = choose|r: int| 0 <= r < rows.len() && rows[r] == env(Alias::Body(i as nat));
    assert(atom_rows(atoms[i], database)[r] == env(Alias::Body(i as nat)));
}

/// The condition for new matches says that one of the rows is new.
proof fn lemma_newness(
    atoms: Seq<Atom>,
    query: Query,
    seminaive: bool,
    watermark: nat,
    database: Database,
    env: Env,
    picks: Seq<int>,
)
    requires
        query.from == row_tables(atoms, 0),
        picks.len() == atoms.len(),
        forall|i: int|
            0 <= i < atoms.len() && !((#[trigger] atoms[i]).head is Primitive) ==> 0 <= picks[i]
                < atom_rows(atoms[i], database).len() && atom_rows(atoms[i], database)[picks[i]]
                == env(Alias::Body(i as nat)),
    ensures
        condition_holds(newness(query, seminaive, watermark), env) <==> (seminaive ==> newly(
            atoms,
            database,
            picks,
            watermark,
        )),
{
    lemma_row_tables(atoms, 0);
    let added = newness(query, seminaive, watermark);
    let from = query.from;
    if from.len() == 0 {
        assert(!(exists|i: int|
            0 <= i < atoms.len() && !((#[trigger] atoms[i]).head is Primitive)));
        assert(condition_holds(added, env) <==> clause_holds(added[0], env));
    } else {
        assert(!(atoms[from[0].1 as int].head is Primitive));
        if seminaive {
            let tests = added[0]->Any_0;
            assert(condition_holds(added, env) <==> clause_holds(added[0], env));
            if clause_holds(added[0], env) {
                let k = choose|k: int| 0 <= k < tests.len() && test_holds(#[trigger] tests[k], env);
                let i = from[k].1 as int;
                assert(!(atoms[i].head is Primitive));
                assert(is_new(atom_rows(atoms[i], database)[picks[i]], watermark));
            }
            if has_new_row(atoms, database, picks, watermark) {
                let i = choose|i: int|
                    #![trigger atoms[i]]
                    0 <= i < atoms.len() && 0 <= picks[i] < atom_rows(atoms[i], database).len()
                        && is_new(atom_rows(atoms[i], database)[picks[i]], watermark);
                let k = choose|k: int| 0 <= k < from.len() && (#[trigger] from[k]).1 == i;
                assert(test_holds(tests[k], env));
            }
        }
    }
}

proof fn lemma_condition_and(first: Seq<Clause>, second: Seq<Clause>, env: Env)
    ensures
        condition_holds(first + second, env) <==> condition_holds(first, env) && condition_holds(
            second,
            env,
        ),
{
    let both = first + second;
    if condition_holds(both, env) {
        assert forall|i: int| 0 <= i < first.len() implies clause_holds(#[trigger] first[i], env) by {
            assert(clause_holds(both[i], env));
        }
        assert forall|i: int| 0 <= i < second.len() implies clause_holds(
            #[trigger] second[i],
            env,
        ) by {
            assert(clause_holds(both[first.len() + i], env));
        }
    }
    if condition_holds(first, env) && condition_holds(second, env) {
        assert forall|i: int| 0 <= i < both.len() implies clause_holds(#[trigger] both[i], env) by {
            if i < first.len() {
                assert(clause_holds(first[i], env));
            } else {
                assert(clause_holds(second[i - first.len()], env));
            }
        }
    }
}

/// The match statement of a plan selects exactly the matches of the rule's body,
/// with the value of every variable in the variable's column. A seminaive plan
/// selects those in which at least one row is new since the watermark; without any
/// row atom it selects its match before the first run only.
pub proof fn law_match_statements_select_the_matches(
    catalog: Catalog,
    registries: AuthorityRegistries,
    seminaive: bool,
    atoms: Seq<Atom>,
    head: Seq<CoreAction>,
    plan: PlanView,
    matched: BodyView,
    stage: Seq<char>,
    watermark: u64,
    database: Database,
    world: World,
    forms: Forms,
    row: Seq<Datum>,
)
    requires
        scalar_plan(catalog, registries, seminaive, atoms, head) == Ok::<
            Option<PlanView>,
            RejectionView,
        >(Some(plan)),
        scalar_body(catalog, registries, atoms) == Ok::<BodyView, RejectionView>(matched),
        matched.match_projection.len() <= usize::MAX,
        faithful(world, forms, catalog, registries),
    ensures
        ({
            let query = body_query(catalog, registries, atoms, world, forms);
            let condition = query.condition + newness(query, seminaive, watermark as nat);
            &&& match_sql(plan, stage, watermark) == query_sql(stage, query, condition)
            &&& selects_match(query, condition, database, row) <==> exists|
                picks: Seq<int>,
                assignment: Assignment,
            | #[trigger]
                taken(
                    atoms,
                    matched,
                    seminaive,
                    watermark as nat,
                    database,
                    world,
                    picks,
                    assignment,
                    row,
                )
        }),
{
    reveal(scalar_plan);
    let start = prebind(catalog, atoms)->Ok_0;
    let bare = row_query(start, atoms);
    let query = body_query(catalog, registries, atoms, world, forms);
    let added = newness(query, seminaive, watermark as nat);
    let condition = query.condition + added;
    lemma_row_query(catalog, atoms, start);
    lemma_joined_tables(catalog, registries, bare, atoms, 0, world, forms);
    assert(query.from =~= row_tables(atoms, 0));
    lemma_row_tables(atoms, 0);
    lemma_atoms(
        catalog,
        registries,
        start,
        bare,
        atoms,
        0,
        world,
        forms,
        arbitrary(),
        arbitrary(),
    );
    assert(depicts(matched, query));
    lemma_match_sql(plan, matched, query, stage, watermark);
    law_body_variables_own_columns(catalog, registries, atoms, matched);
    if selects_match(query, condition, database, row) {
        let env = choose|env: Env| #[trigger]
            selects_rows(query, condition, database, env) && row == query.projection.map_values(
                |s: Scalar| scalar_value(s, env),
            );
        let assignment: Assignment = |id: u32| scalar_value(query.bindings[id], env);
        let picks = env_picks(atoms, database, env);
        lemma_condition_and(query.condition, added, env);
        lemma_atoms(
            catalog,
            registries,
            start,
            bare,
            atoms,
            0,
            world,
            forms,
            env,
            assignment,
        );
        assert(valued(query, env, assignment));
        assert forall|i: int|
            0 <= i < atoms.len() && !((#[trigger] atoms[i]).head is Primitive) implies 0
            <= picks[i] < atom_rows(atoms[i], database).len() && atom_rows(
            atoms[i],
            database,
        )[picks[i]] == env(Alias::Body(i as nat)) by {
            lemma_env_pick(atoms, database, env, i);
        }
        lemma_newness(atoms, query, seminaive, watermark as nat, database, env, picks);
        assert forall|i: int| 0 <= i < atoms.len() implies atom_holds(
            #[trigger] atoms[i],
            database,
            picks[i],
            world,
            assignment,
        ) by {
            assert(atom_satisfied(atoms[i], env(Alias::Body(i as nat)), world, assignment));
        }
        assert forall|id: u32| #[trigger] matched.bindings.contains_key(
            id,
        ) implies row[matched.bindings[id].stage_column as int] == assignment(id) by {
            assert(query.bindings.contains_key(id));
        }
        assert(taken(
            atoms,
            matched,
            seminaive,
            watermark as nat,
            database,
            world,
            picks,
            assignment,
            row,
        ));
    }
    if exists|picks: Seq<int>, assignment: Assignment| #[trigger]
        taken(
            atoms,
            matched,
            seminaive,
            watermark as nat,
            database,
            world,
            picks,
            assignment,
            row,
        ) {
        let (picks, assignment) = choose|picks: Seq<int>, assignment: Assignment| #[trigger]
            taken(
                atoms,
                matched,
                seminaive,
                watermark as nat,
                database,
                world,
                picks,
                assignment,
                row,
            );
        let env = match_env(atoms, database, picks);
        assert forall|i: int| 0 <= i < atoms.len() implies atom_satisfied(
            #[trigger] atoms[i],
            env(Alias::Body(i as nat)),
            world,
            assignment,
        ) by {
            assert(atom_holds(atoms[i], database, picks[i], world, assignment));
        }
        assert(atoms_satisfied(atoms, 0, world, env, assignment));
        lemma_row_query_valued(start, atoms, world, env, assignment);
        lemma_atoms(
            catalog,
            registries,
            start,
            bare,
            atoms,
            0,
            world,
            forms,
            env,
            assignment,
        );
        assert(valued(query, env, assignment));
        assert forall|i: int|
            0 <= i < atoms.len() && !((#[trigger] atoms[i]).head is Primitive) implies 0
            <= picks[i] < atom_rows(atoms[i], database).len() && atom_rows(
            atoms[i],
            database,
        )[picks[i]] == env(Alias::Body(i as nat)) by {
            assert(atom_holds(atoms[i], database, picks[i], world, assignment));
        }
        lemma_newness(atoms, query, seminaive, watermark as nat, database, env, picks);
        lemma_condition_and(query.condition, added, env);
        assert(joins(query.from, database, env)) by {
            assert forall|k: int| 0 <= k < query.from.len() implies database(
                table_text((#[trigger] query.from[k]).0),
            ).contains(env(Alias::Body(query.from[k].1))) by {
                let i = query.from[k].1 as int;
                assert(row_tables(atoms, 0)[k].1 == i);
                assert(!(atoms[i].head is Primitive));
                let rows = atom_rows(atoms[i], database);
                assert(rows == database(table_text(query.from[k].0)));
                assert(rows[picks[i]] == env(Alias::Body(i as nat)));
            }
        }
        assert(row =~= query.projection.map_values(|s: Scalar| scalar_value(s, env))) by {
            assert forall|k: int| 0 <= k < row.len() implies row[k] == scalar_value(
                query.projection[k],
                env,
            ) by {
                assert(owned_column(matched, matched.match_projection[k], k));
                let id = choose|id: u32| #[trigger]
                    matched.bindings.contains_key(id) && matched.bindings[id].stage_column == k
                        && matched.bindings[id].expression == matched.match_projection[k];
                assert(query.bindings.contains_key(id));
            }
        }
        assert(selects_rows(query, condition, database, env));
    }
}

/// No match is lost to the watermark: what a rule's body matches at all is what the
/// seminaive statement selects at a watermark, and what is matched by rows that are
/// all older.
pub proof fn law_new_and_old_matches_are_all_matches(
    catalog: Catalog,
    registries: AuthorityRegistries,
    atoms: Seq<Atom>,
    world: World,
    forms: Forms,
    watermark: nat,
    database: Database,
    row: Seq<Datum>,
)
    ensures
        ({
            let query = body_query(catalog, registries, atoms, world, forms);
            let old_rows = |env: Env|
                forall|k: int|
                    0 <= k < query.from.len() ==> !is_new(
                        env(Alias::Body((#[trigger] query.from[k]).1)),
                        watermark,
                    );
            query.from.len() > 0 ==> (selects_match(
                query,
                query.condition + newness(query, false, watermark),
                database,
                row,
            ) <==> {
                ||| selects_match(
                    query,
                    query.condition + newness(query, true, watermark),
                    database,
                    row,
                )
                ||| exists|env: Env| #[trigger]
                    selects_rows(query, query.condition, database, env) && old_rows(env) && row
                        == query.projection.map_values(|s: Scalar| scalar_value(s, env))
            })
        }),
{
    let query = body_query(catalog, registries, atoms, world, forms);
    let every = query.condition + newness(query, false, watermark);
    let added = newness(query, true, watermark);
    let fresh = query.condition + added;
    if query.from.len() > 0 {
        assert(every =~= query.condition);
        let tests = added[0]->Any_0;
        assert forall|env: Env| #[trigger]
            selects_rows(query, fresh, database, env) <==> selects_rows(
                query,
                query.condition,
                database,
                env,
            ) && exists|k: int|
                0 <= k < query.from.len() && is_new(
                    env(Alias::Body((#[trigger] query.from[k]).1)),
                    watermark,
                ) by {
            lemma_condition_and(query.condition, added, env);
            assert(condition_holds(added, env) <==> clause_holds(added[0], env));
            if clause_holds(added[0], env) {
                let k = choose|k: int| 0 <= k < tests.len() && test_holds(#[trigger] tests[k], env);
                assert(is_new(env(Alias::Body(query.from[k].1)), watermark));
            }
            if exists|k: int|
                0 <= k < query.from.len() && is_new(
                    env(Alias::Body((#[trigger] query.from[k]).1)),
                    watermark,
                ) {
                let k = choose|k: int|
                    0 <= k < query.from.len() && is_new(
                        env(Alias::Body((#[trigger] query.from[k]).1)),
                        watermark,
                    );
                assert(test_holds(tests[k], env));
            }
        }
        if selects_match(query, every, database, row) {
            let env = choose|env: Env| #[trigger]
                selects_rows(query, every, database, env) && row == query.projection.map_values(
                    |s: Scalar| scalar_value(s, env),
                );
            assert(selects_rows(query, query.condition, database, env));
            if exists|k: int|
                0 <= k < query.from.len() && is_new(
                    env(Alias::Body((#[trigger] query.from[k]).1)),
                    watermark,
                ) {
                assert(selects_rows(query, fresh, database, env));
            }
        }
        if selects_match(query, fresh, database, row) {
            let env = choose|env: Env| #[trigger]
                selects_rows(query, fresh, database, env) && row == query.projection.map_values(
                    |s: Scalar| scalar_value(s, env),
                );
            assert(selects_rows(query, every, database, env));
        }
    }
}

// ---------------------------------------------------------------------------
// The order of the matches.

/// The number of columns of an atom's row.
pub open spec fn row_width(atom: Atom) -> nat {
    match atom.head {
        RuleBodyCall::Table { .. } => atom.args@.len(),
        RuleBodyCall::IndexTable { .. } => atom.args@.subrange(1, atom.args@.len() - 1).len(),
        RuleBodyCall::Primitive { .. } => 0,
    }
}

/// The order goes by the generation and by every column of an atom's row.
pub open spec fn ordered_by_row(order: Seq<Scalar>, atom: Atom, index: nat) -> bool {
    &&& order.contains(Scalar::Column(Alias::Body(index), Name::Generation))
    &&& forall|c: nat| c < row_width(atom) ==> order.contains(#[trigger] atom_column(index, c))
}

proof fn lemma_table_orders(before: Seq<Scalar>, after: Seq<Scalar>, atom: Atom, index: nat)
    requires
        after == before.push(Scalar::Column(Alias::Body(index), Name::Generation)) + Seq::new(
            row_width(atom),
            |c: int| atom_column(index, c as nat),
        ),
    ensures
        ordered_by_row(after, atom, index),
        forall|m: int| 0 <= m < before.len() ==> after[m] == #[trigger] before[m],
        before.len() <= after.len(),
{
    assert(after[before.len() as int] == Scalar::Column(Alias::Body(index), Name::Generation));
    assert forall|c: nat| c < row_width(atom) implies after.contains(
        #[trigger] atom_column(index, c),
    ) by {
        assert(after[before.len() as int + 1 + c] == atom_column(index, c));
    }
}

proof fn lemma_atoms_order(
    catalog: Catalog,
    registries: AuthorityRegistries,
    query: Query,
    atoms: Seq<Atom>,
    from: int,
    world: World,
    forms: Forms,
)
    requires
        0 <= from,
    ensures
        ({
            let order = with_atoms(catalog, registries, query, atoms, from, world, forms).order;
            &&& query.order.len() <= order.len()
            &&& forall|m: int| 0 <= m < query.order.len() ==> order[m] == #[trigger] query.order[m]
            &&& forall|i: int|
                from <= i < atoms.len() && !((#[trigger] atoms[i]).head is Primitive)
                    ==> ordered_by_row(order, atoms[i], i as nat)
        }),
    decreases atoms.len() - from,
{
    if from < atoms.len() {
        let index = from as nat;
        let next = with_atom(catalog, registries, query, atoms[from], index, world, forms);
        let order = with_atoms(catalog, registries, query, atoms, from, world, forms).order;
        lemma_atoms_order(catalog, registries, next, atoms, from + 1, world, forms);
        let args = atoms[from].args@;
        match atoms[from].head {
            RuleBodyCall::Table { id, read } => {
                let table = with_table(query, id, read, index, args.len());
                lemma_row_keeps_tables(catalog, table, args, index, 0, world);
                lemma_table_orders(query.order, next.order, atoms[from], index);
            },
            RuleBodyCall::IndexTable { id, any_of, read } => {
                let row = args.subrange(1, args.len() - 1);
                let table = with_clause(
                    with_table(query, id, read, index, row.len()),
                    occurrence_clause(
                        index,
                        occurrence_columns(any_of@, row.len()),
                        term_scalar(catalog, query, args[0], world),
                    ),
                );
                lemma_row_keeps_tables(catalog, table, row, index, 0, world);
                lemma_table_orders(query.order, next.order, atoms[from], index);
            },
            RuleBodyCall::Primitive { .. } => {
                assert(next.order == query.order);
            },
        }
        assert forall|m: int| 0 <= m < query.order.len() implies order[m]
            == #[trigger] query.order[m] by {
            assert(next.order[m] == query.order[m]);
        }
        if !(atoms[from].head is Primitive) {
            assert forall|s: Scalar| #[trigger] next.order.contains(s) implies order.contains(s) by {
                let m = choose|m: int| 0 <= m < next.order.len() && next.order[m] == s;
                assert(order[m] == s);
            }
            assert(ordered_by_row(order, atoms[from], index)) by {
                assert forall|c: nat| c < row_width(atoms[from]) implies order.contains(
                    #[trigger] atom_column(index, c),
                ) by {
                    assert(next.order.contains(atom_column(index, c)));
                }
            }
        }
    }
}

/// The numbering of the matches depends on nothing but the joined rows: two choices
/// of rows that the order of a match statement does not tell apart have the same
/// generation and the same columns for every row atom.
pub proof fn law_match_order_tells_rows_apart(
    catalog: Catalog,
    registries: AuthorityRegistries,
    atoms: Seq<Atom>,
    world: World,
    forms: Forms,
    left: Env,
    right: Env,
    i: int,
)
    requires
        0 <= i < atoms.len(),
        !(atoms[i].head is Primitive),
        ({
            let order = body_query(catalog, registries, atoms, world, forms).order;
            forall|m: int|
                0 <= m < order.len() ==> scalar_value(#[trigger] order[m], left) == scalar_value(
                    order[m],
                    right,
                )
        }),
    ensures
        left(Alias::Body(i as nat))(Name::Generation) == right(Alias::Body(i as nat))(
            Name::Generation,
        ),
        forall|c: nat|
            c < row_width(atoms[i]) ==> #[trigger] left(Alias::Body(i as nat))(Name::C(c)) == right(
                Alias::Body(i as nat),
            )(Name::C(c)),
{
    let order = body_query(catalog, registries, atoms, world, forms).order;
    let index = i as nat;
    lemma_atoms_order(
        catalog,
        registries,
        row_query(prebind(catalog, atoms)->Ok_0, atoms),
        atoms,
        0,
        world,
        forms,
    );
    assert(ordered_by_row(order, atoms[i], index));
    let generation = Scalar::Column(Alias::Body(index), Name::Generation);
    let m = choose|m: int| 0 <= m < order.len() && order[m] == generation;
    assert(scalar_value(order[m], left) == scalar_value(order[m], right));
    assert forall|c: nat| c < row_width(atoms[i]) implies #[trigger] left(Alias::Body(index))(
        Name::C(c),
    ) == right(Alias::Body(index))(Name::C(c)) by {
        assert(order.contains(atom_column(index, c)));
        let n = choose|n: int| 0 <= n < order.len() && order[n] == atom_column(index, c);
        assert(scalar_value(order[n], left) == scalar_value(order[n], right));
    }
}

} // verus!
