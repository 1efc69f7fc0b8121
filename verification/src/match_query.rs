//! The match statement of a rule as a query: its columns, the tables that it joins
//! and its conditions, each with a value over rows.

use vstd::prelude::*;

#[allow(unused_imports)]
use crate::action_body::{
    alias_text, atom_step, atom_steps, bind_output, bind_row, bind_term, body_term, body_terms,
    bound, column_text, joined, occurrence_columns, occurrence_test, same_sql, tested, BodyView,
};
#[allow(unused_imports)]
use crate::authority::AuthorityRegistries;
#[allow(unused_imports)]
use crate::base::unit_value;
#[allow(unused_imports)]
use crate::catalog::{table_at, table_text, typed_literal, Catalog};
#[allow(unused_imports)]
use crate::ir::{
    term_ty, Atom, AtomTerm, ColumnTy, ExternalFunctionId, FunctionId, ReadMode, RuleBodyCall,
    RuleValue, RuleVar,
};
#[allow(unused_imports)]
use crate::rejection::RejectionView;
#[allow(unused_imports)]
use crate::rule_meaning::{
    atom_satisfied, holds_terms, readable, term_value, term_values, Assignment, World,
};
#[allow(unused_imports)]
use crate::scalar_expr::{authenticated, form_text, ScalarExpressionView, SqlPieceView};
#[allow(unused_imports)]
use crate::sql::{
    alias_sql, clause_holds, clause_sql, clauses_sql, column_sql, condition_holds, scalar_sql,
    scalar_value, scalar_values, scalars_sql, test_holds, tests_sql, Alias, Clause, Datum, Env,
    Name, Scalar, Test,
};

verus! {

/// What the SQL forms of primitives mean.
pub struct Forms {
    pub value: spec_fn(Seq<SqlPieceView>, Seq<Datum>) -> Datum,
    pub defined: spec_fn(Seq<SqlPieceView>, Seq<Datum>) -> bool,
}

/// What an expression yields: nothing where it is not defined.
pub open spec fn expression_value(
    expression: ScalarExpressionView,
    inputs: Seq<Datum>,
    forms: Forms,
) -> Option<Datum> {
    match expression.defined {
        Some(pieces) => if (forms.defined)(pieces, inputs) {
            Some((forms.value)(expression.value, inputs))
        } else {
            None
        },
        None => Some((forms.value)(expression.value, inputs)),
    }
}

/// The SQL forms compute the primitives that they are registered for, and the unit
/// literal is the unit value.
pub open spec fn faithful(
    world: World,
    forms: Forms,
    catalog: Catalog,
    registries: AuthorityRegistries,
) -> bool {
    &&& (world.constant)(
        RuleValue { value: unit_value(), ty: ColumnTy::Base(catalog.types.unit) },
    ) == world.unit
    &&& forall|
        token: ExternalFunctionId,
        tys: Seq<ColumnTy>,
        output: ColumnTy,
        inputs: Seq<Datum>,
    |
        #![trigger authenticated(catalog.forms@, registries, token, tys, output), (world.primitive)(token.rep, inputs)]
        authenticated(catalog.forms@, registries, token, tys, output) is Ok && inputs.len()
            == tys.len() ==> (world.primitive)(token.rep, inputs) == expression_value(
            authenticated(catalog.forms@, registries, token, tys, output)->Ok_0,
            inputs,
            forms,
        )
}

/// A query over joined tables.
pub struct Query {
    /// The columns of the matches.
    pub projection: Seq<Scalar>,
    /// The joined tables, each with the number of its alias.
    pub from: Seq<(FunctionId, nat)>,
    /// What the joined rows have to meet.
    pub condition: Seq<Clause>,
    /// What the matches are numbered by.
    pub order: Seq<Scalar>,
    /// The value of each variable.
    pub bindings: Map<u32, Scalar>,
}

/// The body is written as the query says.
pub open spec fn depicts(plan: BodyView, query: Query) -> bool {
    &&& plan.match_projection.len() == query.projection.len()
    &&& plan.match_projection.len() <= usize::MAX ==> plan.match_projection
        == query.projection.map_values(|s: Scalar| scalar_sql(s))
    &&& plan.match_from == query.from.map_values(
        |joined: (FunctionId, nat)| table_text(joined.0) + " AS "@ + alias_sql(Alias::Body(joined.1)),
    )
    &&& plan.freshness_columns == query.from.map_values(
        |joined: (FunctionId, nat)| column_sql(alias_sql(Alias::Body(joined.1)), Name::Generation),
    )
    &&& plan.match_predicates == clauses_sql(query.condition)
    &&& plan.order_columns == query.order.map_values(|s: Scalar| scalar_sql(s))
    &&& forall|id: u32| #[trigger]
        query.bindings.contains_key(id) <==> plan.bindings.contains_key(id)
    &&& forall|id: u32| #[trigger]
        query.bindings.contains_key(id) ==> plan.bindings[id].expression == scalar_sql(
            query.bindings[id],
        )
    &&& plan.match_projection.len() <= usize::MAX ==> forall|id: u32| #[trigger]
        query.bindings.contains_key(id) ==> plan.bindings[id].stage_column
            < query.projection.len() && query.projection[plan.bindings[id].stage_column as int]
            == query.bindings[id]
}

/// The variables have the values that they are bound to.
pub open spec fn valued(query: Query, env: Env, assignment: Assignment) -> bool {
    forall|id: u32| #[trigger]
        query.bindings.contains_key(id) ==> scalar_value(query.bindings[id], env) == assignment(id)
}

/// A query keeps the bindings of an earlier one.
pub open spec fn keeps(before: Query, after: Query) -> bool {
    forall|id: u32| #[trigger]
        before.bindings.contains_key(id) ==> after.bindings.contains_key(id)
            && after.bindings[id] == before.bindings[id]
}

/// A query restricts another one by a condition on the rows and the assignment.
///
/// Where the variables have their values, the rows meet the second query exactly
/// when they meet the first one and the condition holds. Where the variables have
/// their values in the first one and the condition holds, they have them in the
/// second one.
pub open spec fn restricts(
    before: Query,
    after: Query,
    env: Env,
    assignment: Assignment,
    condition: bool,
) -> bool {
    &&& keeps(before, after)
    &&& valued(after, env, assignment) ==> (condition_holds(after.condition, env) <==> (
    condition_holds(before.condition, env) && condition))
    &&& valued(before, env, assignment) && condition ==> valued(after, env, assignment)
}

// ---------------------------------------------------------------------------
// The query of a body.

/// Adds a condition.
pub open spec fn with_clause(query: Query, clause: Clause) -> Query {
    Query { condition: query.condition.push(clause), ..query }
}

/// Binds a variable.
pub open spec fn with_binding(query: Query, id: u32, scalar: Scalar) -> Query {
    Query {
        projection: query.projection.push(scalar),
        bindings: query.bindings.insert(id, scalar),
        ..query
    }
}

/// A column of the table of an atom.
pub open spec fn atom_column(atom_index: nat, column: nat) -> Scalar {
    Scalar::Column(Alias::Body(atom_index), Name::C(column))
}

/// Joins a table.
pub open spec fn with_table(
    query: Query,
    id: FunctionId,
    read: ReadMode,
    atom_index: nat,
    arity: nat,
) -> Query {
    let subsumed = Scalar::Column(Alias::Body(atom_index), Name::Subsumed);
    Query {
        from: query.from.push((id, atom_index)),
        condition: match read {
            ReadMode::Live => query.condition.push(Clause::One(Test::Is(subsumed, false))),
            ReadMode::Subsumed => query.condition.push(Clause::One(Test::Is(subsumed, true))),
            ReadMode::All => query.condition,
        },
        order: query.order.push(Scalar::Column(Alias::Body(atom_index), Name::Generation))
            + Seq::new(arity, |c: int| atom_column(atom_index, c as nat)),
        ..query
    }
}

/// A constant.
pub open spec fn literal_scalar(catalog: Catalog, literal: RuleValue, world: World) -> Scalar {
    Scalar::Literal {
        sql: typed_literal(catalog, literal.ty, literal.value)->Ok_0.1,
        value: (world.constant)(literal),
    }
}

/// Ties a term to an expression.
pub open spec fn with_term(
    catalog: Catalog,
    query: Query,
    term: AtomTerm,
    scalar: Scalar,
    world: World,
) -> Query {
    match term {
        AtomTerm::Var(variable) => if query.bindings.contains_key(variable.id) {
            with_clause(
                query,
                Clause::One(Test::Same(scalar, query.bindings[variable.id])),
            )
        } else {
            with_binding(query, variable.id, scalar)
        },
        AtomTerm::Literal(literal) => with_clause(
            query,
            Clause::One(Test::Same(scalar, literal_scalar(catalog, literal, world))),
        ),
        AtomTerm::Global(_) => query,
    }
}

/// Ties the terms of a row to its columns from column `from` on.
pub open spec fn with_row(
    catalog: Catalog,
    query: Query,
    row: Seq<AtomTerm>,
    atom_index: nat,
    from: int,
    world: World,
) -> Query
    decreases row.len() - from,
{
    if from < 0 || from >= row.len() {
        query
    } else {
        with_row(
            catalog,
            with_term(catalog, query, row[from], atom_column(atom_index, from as nat), world),
            row,
            atom_index,
            from + 1,
            world,
        )
    }
}

/// A term as an expression.
pub open spec fn term_scalar(catalog: Catalog, query: Query, term: AtomTerm, world: World) -> Scalar {
    match term {
        AtomTerm::Var(variable) => query.bindings[variable.id],
        AtomTerm::Literal(literal) => literal_scalar(catalog, literal, world),
        AtomTerm::Global(_) => arbitrary(),
    }
}

/// The probe occurs in one of the columns.
pub open spec fn occurrence_clause(
    atom_index: nat,
    columns: Seq<usize>,
    probe: Scalar,
) -> Clause {
    Clause::Any(
        Seq::new(
            columns.len(),
            |i: int| Test::Same(atom_column(atom_index, columns[i] as nat), probe),
        ),
    )
}

/// Ties a primitive.
pub open spec fn with_primitive(
    catalog: Catalog,
    registries: AuthorityRegistries,
    query: Query,
    token: ExternalFunctionId,
    output: ColumnTy,
    args: Seq<AtomTerm>,
    world: World,
    forms: Forms,
) -> Query {
    let count = args.len() - 1;
    let tys = args.take(count).map_values(|t: AtomTerm| term_ty(t));
    let expression = authenticated(catalog.forms@, registries, token, tys, output)->Ok_0;
    let inputs = Seq::new(count as nat, |i: int| term_scalar(catalog, query, args[i], world));
    let guarded = match expression.defined {
        Some(pieces) => with_clause(
            query,
            Clause::One(
                Test::Defined {
                    pieces,
                    inputs,
                    within: |values: Seq<Datum>| (forms.defined)(pieces, values),
                },
            ),
        ),
        None => query,
    };
    with_term(
        catalog,
        guarded,
        args.last(),
        Scalar::Form {
            pieces: expression.value,
            inputs,
            apply: |values: Seq<Datum>| (forms.value)(expression.value, values),
        },
        world,
    )
}

/// Ties one atom.
pub open spec fn with_atom(
    catalog: Catalog,
    registries: AuthorityRegistries,
    query: Query,
    atom: Atom,
    atom_index: nat,
    world: World,
    forms: Forms,
) -> Query {
    let args = atom.args@;
    match atom.head {
        RuleBodyCall::Table { id, read } => with_row(
            catalog,
            with_table(query, id, read, atom_index, args.len()),
            args,
            atom_index,
            0,
            world,
        ),
        RuleBodyCall::IndexTable { id, any_of, read } => {
            let row = args.subrange(1, args.len() - 1);
            with_row(
                catalog,
                with_clause(
                    with_table(query, id, read, atom_index, row.len()),
                    occurrence_clause(
                        atom_index,
                        occurrence_columns(any_of@, row.len()),
                        term_scalar(catalog, query, args[0], world),
                    ),
                ),
                row,
                atom_index,
                0,
                world,
            )
        },
        RuleBodyCall::Primitive { id, output, .. } => with_primitive(
            catalog,
            registries,
            query,
            id,
            output,
            args,
            world,
            forms,
        ),
    }
}

/// Ties the atoms from atom `from` on.
pub open spec fn with_atoms(
    catalog: Catalog,
    registries: AuthorityRegistries,
    query: Query,
    atoms: Seq<Atom>,
    from: int,
    world: World,
    forms: Forms,
) -> Query
    decreases atoms.len() - from,
{
    if from < 0 || from >= atoms.len() {
        query
    } else {
        with_atoms(
            catalog,
            registries,
            with_atom(catalog, registries, query, atoms[from], from as nat, world, forms),
            atoms,
            from + 1,
            world,
            forms,
        )
    }
}

// ---------------------------------------------------------------------------
// The query means what the atoms say.

proof fn lemma_clause(query: Query, clause: Clause, env: Env)
    ensures
        condition_holds(with_clause(query, clause).condition, env) <==> condition_holds(
            query.condition,
            env,
        ) && clause_holds(clause, env),
{
    let before = query.condition;
    let after = before.push(clause);
    if condition_holds(after, env) {
        assert forall|i: int| 0 <= i < before.len() implies clause_holds(
            #[trigger] before[i],
            env,
        ) by {
            assert(clause_holds(after[i], env));
        }
        assert(clause_holds(after[before.len() as int], env));
    }
    if condition_holds(before, env) && clause_holds(clause, env) {
        assert forall|i: int| 0 <= i < after.len() implies clause_holds(
            #[trigger] after[i],
            env,
        ) by {
            if i < before.len() {
                assert(clause_holds(before[i], env));
            }
        }
    }
}

proof fn lemma_clause_depicts(plan: BodyView, query: Query, text: Seq<char>, clause: Clause)
    requires
        depicts(plan, query),
        text == clause_sql(clause),
    ensures
        depicts(tested(plan, text), with_clause(query, clause)),
{
    assert(clauses_sql(query.condition.push(clause)) =~= clauses_sql(query.condition).push(text));
}

proof fn lemma_binding_depicts(
    plan: BodyView,
    query: Query,
    variable: RuleVar,
    text: Seq<char>,
    scalar: Scalar,
)
    requires
        depicts(plan, query),
        !query.bindings.contains_key(variable.id),
        text == scalar_sql(scalar),
    ensures
        depicts(bound(plan, variable, text), with_binding(query, variable.id, scalar)),
{
    let after = bound(plan, variable, text);
    let next = with_binding(query, variable.id, scalar);
    if after.match_projection.len() <= usize::MAX {
        assert(after.match_projection =~= next.projection.map_values(|s: Scalar| scalar_sql(s)));
    }
    assert forall|id: u32| #[trigger] next.bindings.contains_key(id) implies after.bindings[id].expression
        == scalar_sql(next.bindings[id]) by {
        if id != variable.id {
            assert(query.bindings.contains_key(id));
        }
    }
    if after.match_projection.len() <= usize::MAX {
        assert forall|id: u32| #[trigger] next.bindings.contains_key(id) implies
            after.bindings[id].stage_column < next.projection.len()
            && next.projection[after.bindings[id].stage_column as int] == next.bindings[id] by {
            if id != variable.id {
                assert(query.bindings.contains_key(id));
            }
        }
    }
}

/// A tied term: the query says that the expression is the term's value.
proof fn lemma_term(
    catalog: Catalog,
    plan: BodyView,
    query: Query,
    term: AtomTerm,
    expected: ColumnTy,
    text: Seq<char>,
    scalar: Scalar,
    world: World,
    env: Env,
    assignment: Assignment,
)
    requires
        depicts(plan, query),
        text == scalar_sql(scalar),
        bind_term(catalog, plan, term, expected, text) is Ok,
    ensures
        depicts(
            bind_term(catalog, plan, term, expected, text)->Ok_0,
            with_term(catalog, query, term, scalar, world),
        ),
        restricts(
            query,
            with_term(catalog, query, term, scalar, world),
            env,
            assignment,
            scalar_value(scalar, env) == term_value(term, world, assignment),
        ),
        with_term(catalog, query, term, scalar, world).from == query.from,
        with_term(catalog, query, term, scalar, world).order == query.order,
{
    match term {
        AtomTerm::Var(variable) => {
            if query.bindings.contains_key(variable.id) {
                let clause = Clause::One(Test::Same(scalar, query.bindings[variable.id]));
                lemma_clause(query, clause, env);
                lemma_clause_depicts(
                    plan,
                    query,
                    same_sql(text, plan.bindings[variable.id].expression),
                    clause,
                );
            } else {
                let next = with_binding(query, variable.id, scalar);
                lemma_binding_depicts(plan, query, variable, text, scalar);
                assert(next.bindings.contains_key(variable.id));
                assert forall|id: u32| #[trigger] query.bindings.contains_key(
                    id,
                ) implies next.bindings.contains_key(id) && next.bindings[id]
                    == query.bindings[id] by {}
                if valued(query, env, assignment) && scalar_value(scalar, env) == term_value(
                    term,
                    world,
                    assignment,
                ) {
                    assert forall|id: u32| #[trigger] next.bindings.contains_key(
                        id,
                    ) implies scalar_value(next.bindings[id], env) == assignment(id) by {
                        if id != variable.id {
                            assert(query.bindings.contains_key(id));
                        }
                    }
                }
            }
        },
        AtomTerm::Literal(literal) => {
            let constant = literal_scalar(catalog, literal, world);
            let clause = Clause::One(Test::Same(scalar, constant));
            lemma_clause(query, clause, env);
            lemma_clause_depicts(plan, query, same_sql(text, scalar_sql(constant)), clause);
        },
        AtomTerm::Global(_) => {},
    }
}

/// The terms hold from column `from` on.
pub open spec fn holds_from(
    terms: Seq<AtomTerm>,
    atom_index: nat,
    from: int,
    world: World,
    env: Env,
    assignment: Assignment,
) -> bool {
    forall|i: int|
        from <= i < terms.len() ==> env(Alias::Body(atom_index))(Name::C(i as nat)) == term_value(
            #[trigger] terms[i],
            world,
            assignment,
        )
}

proof fn lemma_restricts_step(
    before: Query,
    between: Query,
    after: Query,
    env: Env,
    assignment: Assignment,
    first: bool,
    second: bool,
)
    requires
        restricts(before, between, env, assignment, first),
        restricts(between, after, env, assignment, second),
    ensures
        restricts(before, after, env, assignment, first && second),
{
    assert(keeps(before, after)) by {
        assert forall|id: u32| #[trigger] before.bindings.contains_key(
            id,
        ) implies after.bindings.contains_key(id) && after.bindings[id]
            == before.bindings[id] by {
            assert(between.bindings.contains_key(id));
        }
    }
    if valued(after, env, assignment) {
        assert forall|id: u32| #[trigger] between.bindings.contains_key(id) implies scalar_value(
            between.bindings[id],
            env,
        ) == assignment(id) by {
            assert(after.bindings.contains_key(id));
        }
    }
}

proof fn lemma_row(
    catalog: Catalog,
    plan: BodyView,
    query: Query,
    row: Seq<AtomTerm>,
    schema: Seq<ColumnTy>,
    atom_index: nat,
    from: int,
    world: World,
    env: Env,
    assignment: Assignment,
)
    requires
        depicts(plan, query),
        0 <= from,
        bind_row(catalog, plan, row, schema, atom_index, from) is Ok,
    ensures
        depicts(
            bind_row(catalog, plan, row, schema, atom_index, from)->Ok_0,
            with_row(catalog, query, row, atom_index, from, world),
        ),
        restricts(
            query,
            with_row(catalog, query, row, atom_index, from, world),
            env,
            assignment,
            holds_from(row, atom_index, from, world, env, assignment),
        ),
        with_row(catalog, query, row, atom_index, from, world).from == query.from,
        with_row(catalog, query, row, atom_index, from, world).order == query.order,
    decreases row.len() - from,
{
    if from < row.len() {
        let scalar = atom_column(atom_index, from as nat);
        let text = column_text(atom_index, from as nat);
        assert(text == scalar_sql(scalar));
        lemma_term(
            catalog,
            plan,
            query,
            row[from],
            schema[from],
            text,
            scalar,
            world,
            env,
            assignment,
        );
        let after = bind_term(catalog, plan, row[from], schema[from], text)->Ok_0;
        let next = with_term(catalog, query, row[from], scalar, world);
        lemma_row(
            catalog,
            after,
            next,
            row,
            schema,
            atom_index,
            from + 1,
            world,
            env,
            assignment,
        );
        let first = scalar_value(scalar, env) == term_value(row[from], world, assignment);
        let second = holds_from(row, atom_index, from + 1, world, env, assignment);
        lemma_restricts_step(
            query,
            next,
            with_row(catalog, next, row, atom_index, from + 1, world),
            env,
            assignment,
            first,
            second,
        );
        assert(holds_from(row, atom_index, from, world, env, assignment) == (first && second)) by {
            if first && second {
                assert forall|i: int| from <= i < row.len() implies env(Alias::Body(atom_index))(
                    Name::C(i as nat),
                ) == term_value(#[trigger] row[i], world, assignment) by {}
            }
        }
    }
}

/// The flag of a live row.
proof fn lemma_live_text(alias: Seq<char>)
    ensures
        alias + ".__subsumed = FALSE"@ == alias + ".__subsumed"@ + " = FALSE"@,
{
    reveal_strlit(".__subsumed = FALSE");
    reveal_strlit(".__subsumed");
    reveal_strlit(" = FALSE");
    assert(alias + ".__subsumed = FALSE"@ =~= alias + ".__subsumed"@ + " = FALSE"@);
}

/// The flag of a subsumed row.
proof fn lemma_subsumed_text(alias: Seq<char>)
    ensures
        alias + ".__subsumed = TRUE"@ == alias + ".__subsumed"@ + " = TRUE"@,
{
    reveal_strlit(".__subsumed = TRUE");
    reveal_strlit(".__subsumed");
    reveal_strlit(" = TRUE");
    assert(alias + ".__subsumed = TRUE"@ =~= alias + ".__subsumed"@ + " = TRUE"@);
}

/// A joined table: the query says that its row may be read.
proof fn lemma_table(
    plan: BodyView,
    query: Query,
    id: FunctionId,
    read: ReadMode,
    atom_index: nat,
    arity: nat,
    env: Env,
    assignment: Assignment,
)
    requires
        depicts(plan, query),
    ensures
        depicts(
            joined(plan, id, read, atom_index, arity),
            with_table(query, id, read, atom_index, arity),
        ),
        restricts(
            query,
            with_table(query, id, read, atom_index, arity),
            env,
            assignment,
            readable(read, env(Alias::Body(atom_index))),
        ),
        with_table(query, id, read, atom_index, arity).bindings == query.bindings,
{
    let after = joined(plan, id, read, atom_index, arity);
    let next = with_table(query, id, read, atom_index, arity);
    let alias = alias_text(atom_index);
    let subsumed = Scalar::Column(Alias::Body(atom_index), Name::Subsumed);
    lemma_live_text(alias);
    lemma_subsumed_text(alias);
    assert(after.match_from =~= next.from.map_values(
        |joined: (FunctionId, nat)| table_text(joined.0) + " AS "@ + alias_sql(Alias::Body(joined.1)),
    ));
    assert(after.freshness_columns =~= next.from.map_values(
        |joined: (FunctionId, nat)| column_sql(alias_sql(Alias::Body(joined.1)), Name::Generation),
    ));
    assert(after.order_columns =~= next.order.map_values(|s: Scalar| scalar_sql(s)));
    match read {
        ReadMode::Live => {
            let clause = Clause::One(Test::Is(subsumed, false));
            lemma_clause(query, clause, env);
            assert(clauses_sql(query.condition.push(clause)) =~= clauses_sql(query.condition).push(
                clause_sql(clause),
            ));
        },
        ReadMode::Subsumed => {
            let clause = Clause::One(Test::Is(subsumed, true));
            lemma_clause(query, clause, env);
            assert(clauses_sql(query.condition.push(clause)) =~= clauses_sql(query.condition).push(
                clause_sql(clause),
            ));
        },
        ReadMode::All => {},
    }
}

/// An expression for a term has the term's value.
proof fn lemma_term_scalar(
    catalog: Catalog,
    plan: BodyView,
    query: Query,
    term: AtomTerm,
    expected: ColumnTy,
    context: Seq<char>,
    world: World,
    env: Env,
    assignment: Assignment,
)
    requires
        depicts(plan, query),
        body_term(catalog, plan.bindings, term, expected, context) is Ok,
    ensures
        body_term(catalog, plan.bindings, term, expected, context)->Ok_0 == scalar_sql(
            term_scalar(catalog, query, term, world),
        ),
        valued(query, env, assignment) ==> scalar_value(
            term_scalar(catalog, query, term, world),
            env,
        ) == term_value(term, world, assignment),
{
    match term {
        AtomTerm::Var(variable) => {
            assert(query.bindings.contains_key(variable.id));
        },
        _ => {},
    }
}

/// A column below `count` is listed exactly when the index lists it.
pub proof fn lemma_occurrences(any_of: Seq<usize>, count: nat)
    requires
        count <= usize::MAX,
    ensures
        forall|m: usize| #[trigger]
            occurrence_columns(any_of, count).contains(m) <==> any_of.contains(m) && m < count,
    decreases count,
{
    if count > 0 {
        let earlier = occurrence_columns(any_of, (count - 1) as nat);
        let columns = occurrence_columns(any_of, count);
        let last = (count - 1) as usize;
        lemma_occurrences(any_of, (count - 1) as nat);
        assert forall|m: usize| #[trigger] columns.contains(m) <==> any_of.contains(m) && m
            < count by {
            if any_of.contains(last) {
                assert(columns == earlier.push(last));
                if columns.contains(m) {
                    let i = choose|i: int| 0 <= i < columns.len() && columns[i] == m;
                    if i < earlier.len() {
                        assert(earlier[i] == m);
                        assert(earlier.contains(m));
                    }
                }
                if any_of.contains(m) && m < count {
                    if m == last {
                        assert(columns[earlier.len() as int] == m);
                    } else {
                        assert(earlier.contains(m));
                        let i = choose|i: int| 0 <= i < earlier.len() && earlier[i] == m;
                        assert(columns[i] == m);
                    }
                }
            }
            assert(earlier.contains(m) <==> any_of.contains(m) && m < count - 1);
        }
    }
}

/// A joined index: the query says that the probe occurs in an indexed column.
proof fn lemma_occurrence(
    any_of: Seq<usize>,
    arity: nat,
    atom_index: nat,
    probe: Scalar,
    env: Env,
    sought: Datum,
)
    requires
        arity <= usize::MAX,
        forall|i: int| 0 <= i < any_of.len() ==> #[trigger] any_of[i] < arity,
        scalar_value(probe, env) == sought,
    ensures
        clause_holds(
            occurrence_clause(atom_index, occurrence_columns(any_of, arity), probe),
            env,
        ) <==> exists|k: int|
            0 <= k < any_of.len() && env(Alias::Body(atom_index))(
                Name::C(#[trigger] any_of[k] as nat),
            ) == sought,
{
    let columns = occurrence_columns(any_of, arity);
    let tests = occurrence_clause(atom_index, columns, probe)->Any_0;
    let row = env(Alias::Body(atom_index));
    lemma_occurrences(any_of, arity);
    if exists|k: int| 0 <= k < any_of.len() && row(Name::C(#[trigger] any_of[k] as nat)) == sought {
        let k = choose|k: int|
            0 <= k < any_of.len() && row(Name::C(#[trigger] any_of[k] as nat)) == sought;
        assert(any_of.contains(any_of[k]));
        assert(columns.contains(any_of[k]));
        let i = choose|i: int| 0 <= i < columns.len() && columns[i] == any_of[k];
        assert(test_holds(tests[i], env));
    }
    if exists|i: int| 0 <= i < tests.len() && test_holds(#[trigger] tests[i], env) {
        let i = choose|i: int| 0 <= i < tests.len() && test_holds(#[trigger] tests[i], env);
        assert(columns.contains(columns[i]));
        assert(any_of.contains(columns[i]));
        let k = choose|k: int| 0 <= k < any_of.len() && any_of[k] == columns[i];
        assert(row(Name::C(any_of[k] as nat)) == sought);
    }
}

/// The inputs of a primitive: their texts and their values.
proof fn lemma_inputs(
    catalog: Catalog,
    plan: BodyView,
    query: Query,
    terms: Seq<AtomTerm>,
    count: int,
    from: int,
    inputs: Seq<Scalar>,
    world: World,
    env: Env,
    assignment: Assignment,
)
    requires
        depicts(plan, query),
        0 <= from <= count <= terms.len(),
        inputs == Seq::new(count as nat, |i: int| term_scalar(catalog, query, terms[i], world)),
        body_terms(
            catalog,
            plan.bindings,
            terms,
            count,
            from,
            scalars_sql(inputs, from as nat),
        ) is Ok,
        valued(query, env, assignment) ==> scalar_values(inputs, from as nat, env) == term_values(
            terms.take(from),
            world,
            assignment,
        ),
    ensures
        body_terms(catalog, plan.bindings, terms, count, from, scalars_sql(inputs, from as nat))
            == Ok::<Seq<Seq<char>>, RejectionView>(scalars_sql(inputs, inputs.len())),
        valued(query, env, assignment) ==> scalar_values(inputs, inputs.len(), env) == term_values(
            terms.take(count),
            world,
            assignment,
        ),
    decreases count - from,
{
    if from < count {
        let term = terms[from];
        lemma_term_scalar(
            catalog,
            plan,
            query,
            term,
            term_ty(term),
            "primitive input"@,
            world,
            env,
            assignment,
        );
        assert(inputs[from] == term_scalar(catalog, query, term, world));
        assert(scalars_sql(inputs, (from + 1) as nat) == scalars_sql(inputs, from as nat).push(
            scalar_sql(inputs[from]),
        ));
        if valued(query, env, assignment) {
            assert(scalar_values(inputs, (from + 1) as nat, env) == scalar_values(
                inputs,
                from as nat,
                env,
            ).push(scalar_value(inputs[from], env)));
            assert(term_values(terms.take(from + 1), world, assignment) =~= term_values(
                terms.take(from),
                world,
                assignment,
            ).push(term_value(term, world, assignment)));
        }
        lemma_inputs(
            catalog,
            plan,
            query,
            terms,
            count,
            from + 1,
            inputs,
            world,
            env,
            assignment,
        );
    }
}

/// A tied primitive: the query says that it is defined and yields the output.
proof fn lemma_primitive(
    catalog: Catalog,
    registries: AuthorityRegistries,
    plan: BodyView,
    query: Query,
    atom: Atom,
    world: World,
    forms: Forms,
    env: Env,
    assignment: Assignment,
)
    requires
        depicts(plan, query),
        faithful(world, forms, catalog, registries),
        atom.head is Primitive,
        atom_step(catalog, registries, plan, atom, 0) is Ok,
    ensures
        depicts(
            atom_step(catalog, registries, plan, atom, 0)->Ok_0,
            with_atom(catalog, registries, query, atom, 0, world, forms),
        ),
        restricts(
            query,
            with_atom(catalog, registries, query, atom, 0, world, forms),
            env,
            assignment,
            atom_satisfied(atom, env(Alias::Body(0)), world, assignment),
        ),
        with_atom(catalog, registries, query, atom, 0, world, forms).from == query.from,
        with_atom(catalog, registries, query, atom, 0, world, forms).order == query.order,
{
    match atom.head {
        RuleBodyCall::Primitive { id, output, .. } => {
            let args = atom.args@;
            let count = args.len() - 1;
            let tys = args.take(count).map_values(|t: AtomTerm| term_ty(t));
            let expression = authenticated(catalog.forms@, registries, id, tys, output)->Ok_0;
            let inputs = Seq::new(
                count as nat,
                |i: int| term_scalar(catalog, query, args[i], world),
            );
            assert(scalars_sql(inputs, 0) =~= Seq::<Seq<char>>::empty());
            assert(scalar_values(inputs, 0, env) =~= term_values(
                args.take(0),
                world,
                assignment,
            ));
            lemma_inputs(
                catalog,
                plan,
                query,
                args,
                count,
                0,
                inputs,
                world,
                env,
                assignment,
            );
            let texts = scalars_sql(inputs, inputs.len());
            let form = Scalar::Form {
                pieces: expression.value,
                inputs,
                apply: |values: Seq<Datum>| (forms.value)(expression.value, values),
            };
            let (guarded, restricted, defined) = match expression.defined {
                Some(pieces) => {
                    let clause = Clause::One(
                        Test::Defined {
                            pieces,
                            inputs,
                            within: |values: Seq<Datum>| (forms.defined)(pieces, values),
                        },
                    );
                    lemma_clause(query, clause, env);
                    lemma_clause_depicts(plan, query, form_text(pieces, texts), clause);
                    (
                        tested(plan, form_text(pieces, texts)),
                        with_clause(query, clause),
                        clause_holds(clause, env),
                    )
                },
                None => (plan, query, true),
            };
            assert(restricts(query, restricted, env, assignment, defined));
            assert(bind_output(
                catalog,
                guarded,
                args.last(),
                output,
                form_text(expression.value, texts),
            ) is Ok);
            assert(bind_term(
                catalog,
                guarded,
                args.last(),
                output,
                form_text(expression.value, texts),
            ) == bind_output(
                catalog,
                guarded,
                args.last(),
                output,
                form_text(expression.value, texts),
            ));
            lemma_term(
                catalog,
                guarded,
                restricted,
                args.last(),
                output,
                form_text(expression.value, texts),
                form,
                world,
                env,
                assignment,
            );
            let after = with_term(catalog, restricted, args.last(), form, world);
            let result = scalar_value(form, env) == term_value(args.last(), world, assignment);
            lemma_restricts_step(query, restricted, after, env, assignment, defined, result);
            let values = term_values(args.drop_last(), world, assignment);
            assert(args.drop_last() =~= args.take(count));
            assert(values.len() == tys.len());
            assert((world.primitive)(id.rep, values) == expression_value(
                expression,
                values,
                forms,
            ));
            let satisfied = atom_satisfied(atom, env(Alias::Body(0)), world, assignment);
            if valued(query, env, assignment) {
                assert(scalar_values(inputs, inputs.len(), env) == values);
                assert(satisfied == (defined && result));
            }
            if valued(after, env, assignment) {
                assert(valued(query, env, assignment)) by {
                    assert forall|v: u32| #[trigger] query.bindings.contains_key(
                        v,
                    ) implies scalar_value(query.bindings[v], env) == assignment(v) by {
                        assert(after.bindings.contains_key(v));
                    }
                }
            }
        },
        _ => {},
    }
}

/// One tied atom: the query says that the atom holds of its row.
proof fn lemma_atom(
    catalog: Catalog,
    registries: AuthorityRegistries,
    plan: BodyView,
    query: Query,
    atom: Atom,
    atom_index: nat,
    world: World,
    forms: Forms,
    env: Env,
    assignment: Assignment,
)
    requires
        depicts(plan, query),
        faithful(world, forms, catalog, registries),
        atom_step(catalog, registries, plan, atom, atom_index) is Ok,
    ensures
        depicts(
            atom_step(catalog, registries, plan, atom, atom_index)->Ok_0,
            with_atom(catalog, registries, query, atom, atom_index, world, forms),
        ),
        restricts(
            query,
            with_atom(catalog, registries, query, atom, atom_index, world, forms),
            env,
            assignment,
            atom_satisfied(atom, env(Alias::Body(atom_index)), world, assignment),
        ),
{
    let args = atom.args@;
    let row = env(Alias::Body(atom_index));
    let satisfied = atom_satisfied(atom, row, world, assignment);
    match atom.head {
        RuleBodyCall::Table { id, read } => {
            let schema = table_at(catalog, id)->Ok_0.schema@;
            let between = joined(plan, id, read, atom_index, schema.len());
            let next = with_table(query, id, read, atom_index, args.len());
            lemma_table(plan, query, id, read, atom_index, args.len(), env, assignment);
            lemma_row(
                catalog,
                between,
                next,
                args,
                schema,
                atom_index,
                0,
                world,
                env,
                assignment,
            );
            let after = with_row(catalog, next, args, atom_index, 0, world);
            let second = holds_from(args, atom_index, 0, world, env, assignment);
            lemma_restricts_step(
                query,
                next,
                after,
                env,
                assignment,
                readable(read, row),
                second,
            );
            assert(second == holds_terms(row, args, world, assignment));
        },
        RuleBodyCall::IndexTable { id, any_of, read } => {
            let info = table_at(catalog, id)->Ok_0;
            let schema = info.schema@;
            assert(info.schema.len() == schema.len());
            let terms = args.subrange(1, args.len() - 1);
            let columns = occurrence_columns(any_of@, schema.len());
            let probe = term_scalar(catalog, query, args[0], world);
            lemma_term_scalar(
                catalog,
                plan,
                query,
                args[0],
                term_ty(args[0]),
                "index probe"@,
                world,
                env,
                assignment,
            );
            let text = scalar_sql(probe);
            let clause = occurrence_clause(atom_index, columns, probe);
            let first = with_table(query, id, read, atom_index, terms.len());
            let second = with_clause(first, clause);
            let plan_first = joined(plan, id, read, atom_index, schema.len());
            lemma_table(plan, query, id, read, atom_index, terms.len(), env, assignment);
            assert(occurrence_test(atom_index, columns, text) == clause_sql(clause)) by {
                assert(tests_sql(clause->Any_0) =~= columns.map_values(
                    |column: usize| same_sql(column_text(atom_index, column as nat), text),
                ));
            }
            lemma_clause_depicts(
                plan_first,
                first,
                occurrence_test(atom_index, columns, text),
                clause,
            );
            lemma_clause(first, clause, env);
            let occurs = clause_holds(clause, env);
            assert(restricts(first, second, env, assignment, occurs));
            lemma_row(
                catalog,
                tested(plan_first, occurrence_test(atom_index, columns, text)),
                second,
                terms,
                schema,
                atom_index,
                0,
                world,
                env,
                assignment,
            );
            let after = with_row(catalog, second, terms, atom_index, 0, world);
            let holding = holds_from(terms, atom_index, 0, world, env, assignment);
            lemma_restricts_step(
                query,
                first,
                second,
                env,
                assignment,
                readable(read, row),
                occurs,
            );
            lemma_restricts_step(
                query,
                second,
                after,
                env,
                assignment,
                readable(read, row) && occurs,
                holding,
            );
            assert(holding == holds_terms(row, terms, world, assignment));
            assert(term_value(args.last(), world, assignment) == world.unit);
            if valued(query, env, assignment) {
                lemma_occurrence(
                    any_of@,
                    schema.len(),
                    atom_index,
                    probe,
                    env,
                    term_value(args[0], world, assignment),
                );
                assert(satisfied == (readable(read, row) && occurs && holding));
            }
            if valued(after, env, assignment) {
                assert forall|v: u32| #[trigger] query.bindings.contains_key(
                    v,
                ) implies scalar_value(query.bindings[v], env) == assignment(v) by {
                    assert(after.bindings.contains_key(v));
                }
                assert(valued(query, env, assignment));
            }
        },
        RuleBodyCall::Primitive { .. } => {
            lemma_primitive(
                catalog,
                registries,
                plan,
                query,
                atom,
                world,
                forms,
                env,
                assignment,
            );
            assert(with_atom(catalog, registries, query, atom, atom_index, world, forms)
                == with_atom(catalog, registries, query, atom, 0, world, forms));
        },
    }
}

/// The atoms from `from` on hold, each of the row of its alias.
pub open spec fn atoms_satisfied(
    atoms: Seq<Atom>,
    from: int,
    world: World,
    env: Env,
    assignment: Assignment,
) -> bool {
    forall|i: int|
        from <= i < atoms.len() ==> atom_satisfied(
            #[trigger] atoms[i],
            env(Alias::Body(i as nat)),
            world,
            assignment,
        )
}

/// The query of the atoms says that they hold.
pub proof fn lemma_atoms(
    catalog: Catalog,
    registries: AuthorityRegistries,
    plan: BodyView,
    query: Query,
    atoms: Seq<Atom>,
    from: int,
    world: World,
    forms: Forms,
    env: Env,
    assignment: Assignment,
)
    requires
        depicts(plan, query),
        faithful(world, forms, catalog, registries),
        0 <= from,
        atom_steps(catalog, registries, plan, atoms, from) is Ok,
    ensures
        depicts(
            atom_steps(catalog, registries, plan, atoms, from)->Ok_0,
            with_atoms(catalog, registries, query, atoms, from, world, forms),
        ),
        restricts(
            query,
            with_atoms(catalog, registries, query, atoms, from, world, forms),
            env,
            assignment,
            atoms_satisfied(atoms, from, world, env, assignment),
        ),
    decreases atoms.len() - from,
{
    if from < atoms.len() {
        let index = from as nat;
        let atom = atoms[from];
        lemma_atom(
            catalog,
            registries,
            plan,
            query,
            atom,
            index,
            world,
            forms,
            env,
            assignment,
        );
        let after = atom_step(catalog, registries, plan, atom, index)->Ok_0;
        let next = with_atom(catalog, registries, query, atom, index, world, forms);
        lemma_atoms(
            catalog,
            registries,
            after,
            next,
            atoms,
            from + 1,
            world,
            forms,
            env,
            assignment,
        );
        let first = atom_satisfied(atom, env(Alias::Body(index)), world, assignment);
        let rest = atoms_satisfied(atoms, from + 1, world, env, assignment);
        lemma_restricts_step(
            query,
            next,
            with_atoms(catalog, registries, next, atoms, from + 1, world, forms),
            env,
            assignment,
            first,
            rest,
        );
        assert(atoms_satisfied(atoms, from, world, env, assignment) == (first && rest)) by {
            if first && rest {
                assert forall|i: int| from <= i < atoms.len() implies atom_satisfied(
                    #[trigger] atoms[i],
                    env(Alias::Body(i as nat)),
                    world,
                    assignment,
                ) by {}
            }
        }
    }
}

} // verus!
