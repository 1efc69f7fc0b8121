//! What the statements that stage rows mean: the staged rows are the matches of
//! the rule's body, and the rekeyed row is the one that the rule's head writes.

use vstd::prelude::*;

#[allow(unused_imports)]
use crate::authority::{entry, AuthorityRegistries, NativePrimitive};
#[allow(unused_imports)]
use crate::catalog::{table_text, Catalog};
#[allow(unused_imports)]
use crate::ir::{Atom, AtomTerm, ColumnTy, FunctionId, ReadMode, RuleBodyCall, RuleSpec, RuleVar};
#[allow(unused_imports)]
use crate::marker_rekey::{
    marker_bindings, marker_check, marker_plan, marker_rekey, marker_selection, marker_sql,
    marker_vars, MarkerRekeyView, MarkerRoles,
};
#[allow(unused_imports)]
use crate::path_compress::{
    path_check, path_freshness, path_plan, path_roles, path_sql, PathCompressionPlan,
};
#[allow(unused_imports)]
use crate::rebuild::{
    rebuild_bindings, rebuild_check, rebuild_plan, rebuild_selection, rebuild_sql, rebuild_vars,
    stale_column, standard_rebuild, OuterShape, RebuildRoles, StandardRebuildView,
};
#[allow(unused_imports)]
use crate::rejection::{RejectionView, Scope};
#[allow(unused_imports)]
use crate::rule_meaning::{
    atom_holds, atom_rows, body_matches, has_new_row, holds_terms, is_inequality, is_new, readable,
    term_value, term_values, Assignment, World,
};
#[allow(unused_imports)]
use crate::shape::{
    atom_read, atom_table, distinct, lemma_positions, table_of, typed_vars_check, vars_check,
    vars_of,
};
#[allow(unused_imports)]
use crate::sql::{
    alias_sql, scalar_sql, scalar_value, test_holds, test_sql, tests_sql, two_rows, Alias, Database,
    Datum, Name, Row, Scalar, Test,
};
#[allow(unused_imports)]
use crate::staging::{column_names, stale_freshness, stale_rows_sql};
#[allow(unused_imports)]
use crate::structure_laws::law_marker_plans_are_coherent;
#[allow(unused_imports)]
use crate::text::{decimal, join};

verus! {

// ---------------------------------------------------------------------------
// Statements that stage the distinct rows of a join.

/// A statement that stages the distinct outputs of a join, numbered in an order.
pub struct Staging {
    pub stage: Seq<char>,
    pub outputs: Seq<Scalar>,
    pub left: Seq<char>,
    pub left_alias: Alias,
    pub right: Seq<char>,
    pub right_alias: Alias,
    /// The condition of the join.
    pub on: Test,
    /// The conditions on the joined rows.
    pub filter: Seq<Test>,
    /// Conditions of which one has to hold.
    pub fresh: Option<Seq<Test>>,
    /// The outputs that the numbering goes by.
    pub order: Seq<nat>,
    /// Whether each output is written on its own line.
    pub tall: bool,
}

/// Outputs as they are written, named `c0`, `c1`, ...
pub open spec fn outputs_sql(outputs: Seq<Scalar>) -> Seq<Seq<char>> {
    Seq::new(outputs.len(), |i: int| scalar_sql(outputs[i]) + " AS c"@ + decimal(i as nat))
}

/// Output names as they are written.
pub open spec fn order_sql(order: Seq<nat>) -> Seq<Seq<char>> {
    Seq::new(order.len(), |i: int| "c"@ + decimal(order[i]))
}

/// A choice of conditions behind the others, as it is written.
pub open spec fn fresh_sql(fresh: Option<Seq<Test>>) -> Seq<char> {
    match fresh {
        None => Seq::empty(),
        Some(tests) => "AND ("@ + join(tests_sql(tests), "\n                       OR "@) + ")"@,
    }
}

/// A staging statement as it is written.
pub open spec fn staging_sql(staging: Staging) -> Seq<char> {
    let gap = if staging.tall {
        "\n                        "@
    } else {
        " "@
    };
    let separator = if staging.tall {
        ",\n                        "@
    } else {
        ", "@
    };
    "CREATE TEMP TABLE "@
        + staging.stage
        + " AS\n             WITH bindings AS (\n                 SELECT DISTINCT"@
        + gap
        + join(outputs_sql(staging.outputs), separator)
        + "\n                 FROM "@
        + staging.left
        + " AS "@
        + alias_sql(staging.left_alias)
        + "\n                 JOIN "@
        + staging.right
        + " AS "@
        + alias_sql(staging.right_alias)
        + "\n                   ON "@
        + test_sql(staging.on)
        + "\n                 WHERE "@
        + join(tests_sql(staging.filter), "\n                   AND "@)
        + "\n                   "@
        + fresh_sql(staging.fresh)
        + "\n             )\n             SELECT bindings.*,\n                    row_number() OVER (ORDER BY "@
        + join(order_sql(staging.order), ", "@)
        + ")"@
        + gap
        + "AS __match_ordinal\n             FROM bindings"@
}

/// Two rows join under the conditions of a statement.
pub open spec fn staging_joins(staging: Staging, database: Database, i: int, j: int) -> bool {
    let left = database(staging.left);
    let right = database(staging.right);
    let env = two_rows(staging.left_alias, left[i], right[j]);
    &&& 0 <= i < left.len()
    &&& 0 <= j < right.len()
    &&& test_holds(staging.on, env)
    &&& forall|k: int|
        0 <= k < staging.filter.len() ==> test_holds(#[trigger] staging.filter[k], env)
    &&& match staging.fresh {
        None => true,
        Some(tests) => exists|k: int|
            0 <= k < tests.len() && test_holds(#[trigger] tests[k], env),
    }
}

/// A statement stages a row.
pub open spec fn stages(staging: Staging, database: Database, row: Seq<Datum>) -> bool {
    exists|i: int, j: int| #[trigger]
        staging_joins(staging, database, i, j) && row == Seq::new(
            staging.outputs.len(),
            |k: int|
                scalar_value(
                    staging.outputs[k],
                    two_rows(
                        staging.left_alias,
                        database(staging.left)[i],
                        database(staging.right)[j],
                    ),
                ),
        )
}

/// The numbering of a statement tells two rows apart: they differ in an output
/// that the numbering goes by.
pub open spec fn told_apart(staging: Staging, row: Seq<Datum>, other: Seq<Datum>) -> bool {
    exists|k: int|
        0 <= k < staging.order.len() && row[#[trigger] staging.order[k] as int]
            != other[staging.order[k] as int]
}

// ---------------------------------------------------------------------------
// The texts.

proof fn lemma_small_numerals()
    ensures
        decimal(0) == "0"@,
        decimal(1) == "1"@,
        decimal(2) == "2"@,
        decimal(3) == "3"@,
        decimal(4) == "4"@,
{
    reveal_strlit("0");
    reveal_strlit("1");
    reveal_strlit("2");
    reveal_strlit("3");
    reveal_strlit("4");
    assert(decimal(0) =~= "0"@);
    assert(decimal(1) =~= "1"@);
    assert(decimal(2) =~= "2"@);
    assert(decimal(3) =~= "3"@);
    assert(decimal(4) =~= "4"@);
}

/// The opening of a statement.
proof fn lemma_opening(text: Seq<char>)
    ensures
        text + " AS\n             WITH bindings AS (\n                 SELECT DISTINCT "@ == text + " AS\n             WITH bindings AS (\n                 SELECT DISTINCT"@ + " "@,
{
    reveal_strlit(" AS\n             WITH bindings AS (\n                 SELECT DISTINCT ");
    reveal_strlit(" AS\n             WITH bindings AS (\n                 SELECT DISTINCT");
    reveal_strlit(" ");
    assert(text + " AS\n             WITH bindings AS (\n                 SELECT DISTINCT "@ =~= text + " AS\n             WITH bindings AS (\n                 SELECT DISTINCT"@ + " "@);
}

/// The alias of the edges.
proof fn lemma_edge_alias(text: Seq<char>)
    ensures
        text + " AS uf_row\n                   ON "@ == text + " AS "@ + "uf_row"@ + "\n                   ON "@,
{
    reveal_strlit(" AS uf_row\n                   ON ");
    reveal_strlit(" AS ");
    reveal_strlit("uf_row");
    reveal_strlit("\n                   ON ");
    assert(text + " AS uf_row\n                   ON "@ =~= text + " AS "@ + "uf_row"@ + "\n                   ON "@);
}

/// The condition of the join.
proof fn lemma_edge_key(text: Seq<char>, row: Seq<char>, number: Seq<char>)
    ensures
        text + row + ".c"@ + number + " IS NOT DISTINCT FROM uf_row.c0\n                 WHERE "@ == text + (row + ".c"@ + number + " IS NOT DISTINCT FROM "@ + ("uf_row"@ + ".c"@ + "0"@)) + "\n                 WHERE "@,
{
    reveal_strlit(".c");
    reveal_strlit(" IS NOT DISTINCT FROM uf_row.c0\n                 WHERE ");
    reveal_strlit(" IS NOT DISTINCT FROM ");
    reveal_strlit("uf_row");
    reveal_strlit("0");
    reveal_strlit("\n                 WHERE ");
    assert(text + row + ".c"@ + number + " IS NOT DISTINCT FROM uf_row.c0\n                 WHERE "@ =~= text + (row + ".c"@ + number + " IS NOT DISTINCT FROM "@ + ("uf_row"@ + ".c"@ + "0"@)) + "\n                 WHERE "@);
}

/// The condition on the joined rows.
proof fn lemma_edge_parent(text: Seq<char>, row: Seq<char>, number: Seq<char>)
    ensures
        text + row + ".c"@ + number + " IS DISTINCT FROM uf_row.c1\n                   "@ == text + (row + ".c"@ + number + " IS DISTINCT FROM "@ + ("uf_row"@ + ".c"@ + "1"@)) + "\n                   "@,
{
    reveal_strlit(".c");
    reveal_strlit(" IS DISTINCT FROM uf_row.c1\n                   ");
    reveal_strlit(" IS DISTINCT FROM ");
    reveal_strlit("uf_row");
    reveal_strlit("1");
    reveal_strlit("\n                   ");
    assert(text + row + ".c"@ + number + " IS DISTINCT FROM uf_row.c1\n                   "@ =~= text + (row + ".c"@ + number + " IS DISTINCT FROM "@ + ("uf_row"@ + ".c"@ + "1"@)) + "\n                   "@);
}

/// The restriction to new rows.
proof fn lemma_row_or_edge(row: Seq<char>, number: Seq<char>)
    ensures
        "AND ("@ + row + ".__generation >= CAST('"@ + number + "' AS UBIGINT)\n                       OR uf_row.__generation >= CAST('"@ + number + "' AS UBIGINT))"@ == "AND ("@ + (row + ".__generation"@ + " >= CAST('"@ + number + "' AS UBIGINT)"@ + "\n                       OR "@ + ("uf_row"@ + ".__generation"@ + " >= CAST('"@ + number + "' AS UBIGINT)"@)) + ")"@,
{
    reveal_strlit("AND (");
    reveal_strlit(".__generation >= CAST('");
    reveal_strlit("' AS UBIGINT)\n                       OR uf_row.__generation >= CAST('");
    reveal_strlit("' AS UBIGINT))");
    reveal_strlit(".__generation");
    reveal_strlit(" >= CAST('");
    reveal_strlit("' AS UBIGINT)");
    reveal_strlit("\n                       OR ");
    reveal_strlit("uf_row");
    reveal_strlit(")");
    assert("AND ("@ + row + ".__generation >= CAST('"@ + number + "' AS UBIGINT)\n                       OR uf_row.__generation >= CAST('"@ + number + "' AS UBIGINT))"@ =~= "AND ("@ + (row + ".__generation"@ + " >= CAST('"@ + number + "' AS UBIGINT)"@ + "\n                       OR "@ + ("uf_row"@ + ".__generation"@ + " >= CAST('"@ + number + "' AS UBIGINT)"@)) + ")"@);
}

/// The end of a statement.
proof fn lemma_ending(text: Seq<char>)
    ensures
        text + ") AS __match_ordinal\n             FROM bindings"@ == text + ")"@ + " "@ + "AS __match_ordinal\n             FROM bindings"@,
{
    reveal_strlit(") AS __match_ordinal\n             FROM bindings");
    reveal_strlit(")");
    reveal_strlit(" ");
    reveal_strlit("AS __match_ordinal\n             FROM bindings");
    assert(text + ") AS __match_ordinal\n             FROM bindings"@ =~= text + ")"@ + " "@ + "AS __match_ordinal\n             FROM bindings"@);
}

/// A staged column of the edge.
proof fn lemma_edge_parent_output(number: Seq<char>)
    ensures
        "uf_row.c1 AS c"@ + number == "uf_row"@ + ".c"@ + "1"@ + " AS c"@ + number,
{
    reveal_strlit("uf_row.c1 AS c");
    reveal_strlit("uf_row");
    reveal_strlit(".c");
    reveal_strlit("1");
    reveal_strlit(" AS c");
    assert("uf_row.c1 AS c"@ + number =~= "uf_row"@ + ".c"@ + "1"@ + " AS c"@ + number);
}

/// A staged column of the edge.
proof fn lemma_edge_payload_output(number: Seq<char>)
    ensures
        "uf_row.c2 AS c"@ + number == "uf_row"@ + ".c"@ + "2"@ + " AS c"@ + number,
{
    reveal_strlit("uf_row.c2 AS c");
    reveal_strlit("uf_row");
    reveal_strlit(".c");
    reveal_strlit("2");
    reveal_strlit(" AS c");
    assert("uf_row.c2 AS c"@ + number =~= "uf_row"@ + ".c"@ + "2"@ + " AS c"@ + number);
}

/// The opening of a path statement.
proof fn lemma_path_outputs(text: Seq<char>)
    ensures
        text + " AS\n             WITH bindings AS (\n                 SELECT DISTINCT\n                        first.c0 AS c0,\n                        first.c1 AS c1,\n                        first.c2 AS c2,\n                        second.c1 AS c3,\n                        second.c2 AS c4\n                 FROM "@ == text + " AS\n             WITH bindings AS (\n                 SELECT DISTINCT"@ + "\n                        "@ + (("first"@ + ".c"@ + "0"@ + " AS c"@ + "0"@) + ",\n                        "@ + ("first"@ + ".c"@ + "1"@ + " AS c"@ + "1"@) + ",\n                        "@ + ("first"@ + ".c"@ + "2"@ + " AS c"@ + "2"@) + ",\n                        "@ + ("second"@ + ".c"@ + "1"@ + " AS c"@ + "3"@) + ",\n                        "@ + ("second"@ + ".c"@ + "2"@ + " AS c"@ + "4"@)) + "\n                 FROM "@,
{
    reveal_strlit(" AS\n             WITH bindings AS (\n                 SELECT DISTINCT\n                        first.c0 AS c0,\n                        first.c1 AS c1,\n                        first.c2 AS c2,\n                        second.c1 AS c3,\n                        second.c2 AS c4\n                 FROM ");
    reveal_strlit(" AS\n             WITH bindings AS (\n                 SELECT DISTINCT");
    reveal_strlit("\n                        ");
    reveal_strlit("first");
    reveal_strlit(".c");
    reveal_strlit("0");
    reveal_strlit(" AS c");
    reveal_strlit(",\n                        ");
    reveal_strlit("1");
    reveal_strlit("2");
    reveal_strlit("second");
    reveal_strlit("3");
    reveal_strlit("4");
    reveal_strlit("\n                 FROM ");
    assert(text + " AS\n             WITH bindings AS (\n                 SELECT DISTINCT\n                        first.c0 AS c0,\n                        first.c1 AS c1,\n                        first.c2 AS c2,\n                        second.c1 AS c3,\n                        second.c2 AS c4\n                 FROM "@ =~= text + " AS\n             WITH bindings AS (\n                 SELECT DISTINCT"@ + "\n                        "@ + (("first"@ + ".c"@ + "0"@ + " AS c"@ + "0"@) + ",\n                        "@ + ("first"@ + ".c"@ + "1"@ + " AS c"@ + "1"@) + ",\n                        "@ + ("first"@ + ".c"@ + "2"@ + " AS c"@ + "2"@) + ",\n                        "@ + ("second"@ + ".c"@ + "1"@ + " AS c"@ + "3"@) + ",\n                        "@ + ("second"@ + ".c"@ + "2"@ + " AS c"@ + "4"@)) + "\n                 FROM "@);
}

/// The alias of the first edges.
proof fn lemma_first_alias(text: Seq<char>)
    ensures
        text + " AS first\n                 JOIN "@ == text + " AS "@ + "first"@ + "\n                 JOIN "@,
{
    reveal_strlit(" AS first\n                 JOIN ");
    reveal_strlit(" AS ");
    reveal_strlit("first");
    reveal_strlit("\n                 JOIN ");
    assert(text + " AS first\n                 JOIN "@ =~= text + " AS "@ + "first"@ + "\n                 JOIN "@);
}

/// The conditions of a path statement.
proof fn lemma_path_conditions(text: Seq<char>)
    ensures
        text + " AS second\n                   ON first.c1 IS NOT DISTINCT FROM second.c0\n                 WHERE first.__subsumed = FALSE\n                   AND second.__subsumed = FALSE\n                   AND first.c1 IS DISTINCT FROM second.c1\n                   "@ == text + " AS "@ + "second"@ + "\n                   ON "@ + ("first"@ + ".c"@ + "1"@ + " IS NOT DISTINCT FROM "@ + ("second"@ + ".c"@ + "0"@)) + "\n                 WHERE "@ + ("first"@ + ".__subsumed"@ + " = FALSE"@ + "\n                   AND "@ + ("second"@ + ".__subsumed"@ + " = FALSE"@) + "\n                   AND "@ + ("first"@ + ".c"@ + "1"@ + " IS DISTINCT FROM "@ + ("second"@ + ".c"@ + "1"@))) + "\n                   "@,
{
    reveal_strlit(" AS second\n                   ON first.c1 IS NOT DISTINCT FROM second.c0\n                 WHERE first.__subsumed = FALSE\n                   AND second.__subsumed = FALSE\n                   AND first.c1 IS DISTINCT FROM second.c1\n                   ");
    reveal_strlit(" AS ");
    reveal_strlit("second");
    reveal_strlit("\n                   ON ");
    reveal_strlit("first");
    reveal_strlit(".c");
    reveal_strlit("1");
    reveal_strlit(" IS NOT DISTINCT FROM ");
    reveal_strlit("0");
    reveal_strlit("\n                 WHERE ");
    reveal_strlit(".__subsumed");
    reveal_strlit(" = FALSE");
    reveal_strlit("\n                   AND ");
    reveal_strlit(" IS DISTINCT FROM ");
    reveal_strlit("\n                   ");
    assert(text + " AS second\n                   ON first.c1 IS NOT DISTINCT FROM second.c0\n                 WHERE first.__subsumed = FALSE\n                   AND second.__subsumed = FALSE\n                   AND first.c1 IS DISTINCT FROM second.c1\n                   "@ =~= text + " AS "@ + "second"@ + "\n                   ON "@ + ("first"@ + ".c"@ + "1"@ + " IS NOT DISTINCT FROM "@ + ("second"@ + ".c"@ + "0"@)) + "\n                 WHERE "@ + ("first"@ + ".__subsumed"@ + " = FALSE"@ + "\n                   AND "@ + ("second"@ + ".__subsumed"@ + " = FALSE"@) + "\n                   AND "@ + ("first"@ + ".c"@ + "1"@ + " IS DISTINCT FROM "@ + ("second"@ + ".c"@ + "1"@))) + "\n                   "@);
}

/// The restriction to new edges.
proof fn lemma_first_or_second(number: Seq<char>)
    ensures
        "AND (first.__generation >= CAST('"@ + number + "' AS UBIGINT)\n                       OR second.__generation >= CAST('"@ + number + "' AS UBIGINT))"@ == "AND ("@ + ("first"@ + ".__generation"@ + " >= CAST('"@ + number + "' AS UBIGINT)"@ + "\n                       OR "@ + ("second"@ + ".__generation"@ + " >= CAST('"@ + number + "' AS UBIGINT)"@)) + ")"@,
{
    reveal_strlit("AND (first.__generation >= CAST('");
    reveal_strlit("' AS UBIGINT)\n                       OR second.__generation >= CAST('");
    reveal_strlit("' AS UBIGINT))");
    reveal_strlit("AND (");
    reveal_strlit("first");
    reveal_strlit(".__generation");
    reveal_strlit(" >= CAST('");
    reveal_strlit("' AS UBIGINT)");
    reveal_strlit("\n                       OR ");
    reveal_strlit("second");
    reveal_strlit(")");
    assert("AND (first.__generation >= CAST('"@ + number + "' AS UBIGINT)\n                       OR second.__generation >= CAST('"@ + number + "' AS UBIGINT))"@ =~= "AND ("@ + ("first"@ + ".__generation"@ + " >= CAST('"@ + number + "' AS UBIGINT)"@ + "\n                       OR "@ + ("second"@ + ".__generation"@ + " >= CAST('"@ + number + "' AS UBIGINT)"@)) + ")"@);
}

/// The end of a path statement.
proof fn lemma_path_ending(text: Seq<char>)
    ensures
        text + "\n             )\n             SELECT bindings.*,\n                    row_number() OVER (ORDER BY c0, c1, c2, c3, c4)\n                        AS __match_ordinal\n             FROM bindings"@ == text + "\n             )\n             SELECT bindings.*,\n                    row_number() OVER (ORDER BY "@ + (("c"@ + "0"@) + ", "@ + ("c"@ + "1"@) + ", "@ + ("c"@ + "2"@) + ", "@ + ("c"@ + "3"@) + ", "@ + ("c"@ + "4"@)) + ")"@ + "\n                        "@ + "AS __match_ordinal\n             FROM bindings"@,
{
    reveal_strlit("\n             )\n             SELECT bindings.*,\n                    row_number() OVER (ORDER BY c0, c1, c2, c3, c4)\n                        AS __match_ordinal\n             FROM bindings");
    reveal_strlit("\n             )\n             SELECT bindings.*,\n                    row_number() OVER (ORDER BY ");
    reveal_strlit("c");
    reveal_strlit("0");
    reveal_strlit(", ");
    reveal_strlit("1");
    reveal_strlit("2");
    reveal_strlit("3");
    reveal_strlit("4");
    reveal_strlit(")");
    reveal_strlit("\n                        ");
    reveal_strlit("AS __match_ordinal\n             FROM bindings");
    assert(text + "\n             )\n             SELECT bindings.*,\n                    row_number() OVER (ORDER BY c0, c1, c2, c3, c4)\n                        AS __match_ordinal\n             FROM bindings"@ =~= text + "\n             )\n             SELECT bindings.*,\n                    row_number() OVER (ORDER BY "@ + (("c"@ + "0"@) + ", "@ + ("c"@ + "1"@) + ", "@ + ("c"@ + "2"@) + ", "@ + ("c"@ + "3"@) + ", "@ + ("c"@ + "4"@)) + ")"@ + "\n                        "@ + "AS __match_ordinal\n             FROM bindings"@);
}

// ---------------------------------------------------------------------------
// The statements, taken apart.

/// The output columns of a row, in order.
pub open spec fn row_outputs(alias: Alias, count: nat) -> Seq<Scalar> {
    Seq::new(count, |i: int| Scalar::Column(alias, Name::C(i as nat)))
}

/// The numbers below `count`.
pub open spec fn numbers(count: nat) -> Seq<nat> {
    Seq::new(count, |i: int| i as nat)
}

/// The conditions of which one says that a row is new.
pub open spec fn new_rows(
    left: Alias,
    right: Alias,
    seminaive: bool,
    watermark: nat,
) -> Option<Seq<Test>> {
    if seminaive {
        Some(
            seq![
                Test::AtLeast(Scalar::Column(left, Name::Generation), watermark),
                Test::AtLeast(Scalar::Column(right, Name::Generation), watermark),
            ],
        )
    } else {
        None
    }
}

/// The statement that stages the rows of a table whose column an edge redirects.
pub open spec fn stale_staging(
    stage: Seq<char>,
    table: Seq<char>,
    alias: Alias,
    union_find: Seq<char>,
    stale: nat,
    outputs: Seq<Scalar>,
    seminaive: bool,
    watermark: nat,
) -> Staging {
    let column = Scalar::Column(alias, Name::C(stale));
    Staging {
        stage,
        outputs,
        left: table,
        left_alias: alias,
        right: union_find,
        right_alias: Alias::UfRow,
        on: Test::Same(column, Scalar::Column(Alias::UfRow, Name::C(0))),
        filter: seq![Test::Differs(column, Scalar::Column(Alias::UfRow, Name::C(1)))],
        fresh: new_rows(alias, Alias::UfRow, seminaive, watermark),
        order: numbers(outputs.len()),
        tall: false,
    }
}

/// The statement of a rebuild rule.
pub open spec fn rebuild_staging(
    plan: StandardRebuildView,
    stage: Seq<char>,
    watermark: nat,
) -> Staging {
    stale_staging(
        stage,
        table_text(plan.view.target),
        Alias::ViewRow,
        table_text(plan.union_find.target),
        stale_column(plan) as nat,
        row_outputs(Alias::ViewRow, plan.view.columns.len()).push(
            Scalar::Column(Alias::UfRow, Name::C(1)),
        ).push(Scalar::Column(Alias::UfRow, Name::C(2))),
        plan.seminaive,
        watermark,
    )
}

/// The statement of a marker rule.
pub open spec fn marker_staging(
    plan: MarkerRekeyView,
    stage: Seq<char>,
    watermark: nat,
) -> Staging {
    stale_staging(
        stage,
        table_text(plan.marker),
        Alias::MarkerRow,
        table_text(plan.union_find.target),
        plan.key_index as nat,
        row_outputs(Alias::MarkerRow, plan.n_keys as nat).push(
            Scalar::Column(Alias::UfRow, Name::C(1)),
        ),
        plan.seminaive,
        watermark,
    )
}

/// The statement of a path rule.
pub open spec fn path_staging(
    plan: PathCompressionPlan,
    stage: Seq<char>,
    watermark: nat,
) -> Staging {
    let first = |column: nat| Scalar::Column(Alias::First, Name::C(column));
    let second = |column: nat| Scalar::Column(Alias::Second, Name::C(column));
    Staging {
        stage,
        outputs: seq![first(0), first(1), first(2), second(1), second(2)],
        left: table_text(plan.union_find),
        left_alias: Alias::First,
        right: table_text(plan.union_find),
        right_alias: Alias::Second,
        on: Test::Same(first(1), second(0)),
        filter: seq![
            Test::Is(Scalar::Column(Alias::First, Name::Subsumed), false),
            Test::Is(Scalar::Column(Alias::Second, Name::Subsumed), false),
            Test::Differs(first(1), second(1)),
        ],
        fresh: new_rows(Alias::First, Alias::Second, plan.seminaive, watermark),
        order: numbers(5),
        tall: true,
    }
}

proof fn lemma_join_two(a: Seq<char>, b: Seq<char>, separator: Seq<char>)
    ensures
        join(seq![a, b], separator) == a + separator + b,
{
    reveal_with_fuel(join, 2);
    assert(seq![a, b].drop_last() =~= seq![a]);
}

proof fn lemma_stale_sql(
    stage: Seq<char>,
    table: FunctionId,
    alias: Alias,
    union_find: FunctionId,
    stale: nat,
    bindings: Seq<Seq<char>>,
    outputs: Seq<Scalar>,
    seminaive: bool,
    watermark: u64,
)
    requires
        outputs_sql(outputs) == bindings,
    ensures
        stale_rows_sql(
            stage,
            table,
            alias_sql(alias),
            union_find,
            stale,
            bindings,
            seminaive,
            watermark,
        ) == staging_sql(
            stale_staging(
                stage,
                table_text(table),
                alias,
                table_text(union_find),
                stale,
                outputs,
                seminaive,
                watermark as nat,
            ),
        ),
{
    let row = alias_sql(alias);
    let number = decimal(stale);
    let staging = stale_staging(
        stage,
        table_text(table),
        alias,
        table_text(union_find),
        stale,
        outputs,
        seminaive,
        watermark as nat,
    );
    lemma_small_numerals();
    assert(order_sql(staging.order) =~= column_names(bindings.len()));
    assert(tests_sql(staging.filter) =~= seq![test_sql(staging.filter[0])]);
    let fresh = fresh_sql(staging.fresh);
    assert(fresh == stale_freshness(row, seminaive, watermark)) by {
        if seminaive {
            let tests = staging.fresh->0;
            assert(tests_sql(tests) =~= seq![test_sql(tests[0]), test_sql(tests[1])]);
            lemma_join_two(
                test_sql(tests[0]),
                test_sql(tests[1]),
                "\n                       OR "@,
            );
            lemma_row_or_edge(row, decimal(watermark as nat));
        }
    }
    let t1 = "CREATE TEMP TABLE "@ + stage;
    lemma_opening(t1);
    let t2 = t1 + " AS\n             WITH bindings AS (\n                 SELECT DISTINCT "@ + join(bindings, ", "@) + "\n                 FROM "@ + table_text(table) + " AS "@ + row + "\n                 JOIN "@ + table_text(union_find);
    lemma_edge_alias(t2);
    let t3 = t2 + " AS uf_row\n                   ON "@;
    lemma_edge_key(t3, row, number);
    let t4 = t3 + row + ".c"@ + number + " IS NOT DISTINCT FROM uf_row.c0\n                 WHERE "@;
    lemma_edge_parent(t4, row, number);
    let t5 = t4 + row + ".c"@ + number + " IS DISTINCT FROM uf_row.c1\n                   "@ + fresh + "\n             )\n             SELECT bindings.*,\n                    row_number() OVER (ORDER BY "@ + join(column_names(bindings.len()), ", "@);
    lemma_ending(t5);
}

proof fn lemma_rebuild_sql(plan: StandardRebuildView, stage: Seq<char>, watermark: u64)
    ensures
        rebuild_sql(plan, stage, watermark) == staging_sql(
            rebuild_staging(plan, stage, watermark as nat),
        ),
{
    let arity = plan.view.columns.len();
    let outputs = rebuild_staging(plan, stage, watermark as nat).outputs;
    lemma_small_numerals();
    lemma_edge_parent_output(decimal(arity));
    lemma_edge_payload_output(decimal(arity + 1));
    assert(outputs_sql(outputs) =~= rebuild_bindings(arity));
    lemma_stale_sql(
        stage,
        plan.view.target,
        Alias::ViewRow,
        plan.union_find.target,
        stale_column(plan) as nat,
        rebuild_bindings(arity),
        outputs,
        plan.seminaive,
        watermark,
    );
}

proof fn lemma_marker_sql(plan: MarkerRekeyView, stage: Seq<char>, watermark: u64)
    ensures
        marker_sql(plan, stage, watermark) == staging_sql(
            marker_staging(plan, stage, watermark as nat),
        ),
{
    let n_keys = plan.n_keys as nat;
    let outputs = marker_staging(plan, stage, watermark as nat).outputs;
    lemma_small_numerals();
    lemma_edge_parent_output(decimal(n_keys));
    assert(outputs_sql(outputs) =~= marker_bindings(n_keys));
    lemma_stale_sql(
        stage,
        plan.marker,
        Alias::MarkerRow,
        plan.union_find.target,
        plan.key_index as nat,
        marker_bindings(n_keys),
        outputs,
        plan.seminaive,
        watermark,
    );
}

proof fn lemma_join_three(a: Seq<char>, b: Seq<char>, c: Seq<char>, separator: Seq<char>)
    ensures
        join(seq![a, b, c], separator) == a + separator + b + separator + c,
{
    assert(seq![a, b, c].drop_last() =~= seq![a, b]);
    lemma_join_two(a, b, separator);
}

proof fn lemma_join_five(parts: Seq<Seq<char>>, separator: Seq<char>)
    requires
        parts.len() == 5,
    ensures
        join(parts, separator) == parts[0] + separator + parts[1] + separator + parts[2]
            + separator + parts[3] + separator + parts[4],
{
    reveal_with_fuel(join, 3);
    assert(parts.drop_last().drop_last() =~= seq![parts[0], parts[1], parts[2]]);
    lemma_join_three(parts[0], parts[1], parts[2], separator);
}

proof fn lemma_path_joins(plan: PathCompressionPlan, stage: Seq<char>, watermark: u64)
    ensures
        ({
            let staging = path_staging(plan, stage, watermark as nat);
            &&& join(outputs_sql(staging.outputs), ",\n                        "@) == ("first"@ + ".c"@ + "0"@ + " AS c"@ + "0"@) + ",\n                        "@ + ("first"@ + ".c"@ + "1"@ + " AS c"@ + "1"@) + ",\n                        "@ + ("first"@ + ".c"@ + "2"@ + " AS c"@ + "2"@) + ",\n                        "@ + ("second"@ + ".c"@ + "1"@ + " AS c"@ + "3"@) + ",\n                        "@ + ("second"@ + ".c"@ + "2"@ + " AS c"@ + "4"@)
            &&& join(order_sql(staging.order), ", "@) == ("c"@ + "0"@) + ", "@ + ("c"@ + "1"@) + ", "@ + ("c"@ + "2"@) + ", "@ + ("c"@ + "3"@) + ", "@ + ("c"@ + "4"@)
            &&& join(tests_sql(staging.filter), "\n                   AND "@) == ("first"@ + ".__subsumed"@ + " = FALSE"@ + "\n                   AND "@ + ("second"@ + ".__subsumed"@ + " = FALSE"@) + "\n                   AND "@ + ("first"@ + ".c"@ + "1"@ + " IS DISTINCT FROM "@ + ("second"@ + ".c"@ + "1"@)))
            &&& test_sql(staging.on) == "first"@ + ".c"@ + "1"@ + " IS NOT DISTINCT FROM "@ + ("second"@ + ".c"@ + "0"@)
            &&& fresh_sql(staging.fresh) == path_freshness(plan.seminaive, watermark)
        }),
{
    let staging = path_staging(plan, stage, watermark as nat);
    lemma_small_numerals();
    let outputs = outputs_sql(staging.outputs);
    assert(outputs.len() == 5);
    assert(outputs[0] == "first"@ + ".c"@ + "0"@ + " AS c"@ + "0"@);
    assert(outputs[1] == "first"@ + ".c"@ + "1"@ + " AS c"@ + "1"@);
    assert(outputs[2] == "first"@ + ".c"@ + "2"@ + " AS c"@ + "2"@);
    assert(outputs[3] == "second"@ + ".c"@ + "1"@ + " AS c"@ + "3"@);
    assert(outputs[4] == "second"@ + ".c"@ + "2"@ + " AS c"@ + "4"@);
    lemma_join_five(outputs, ",\n                        "@);
    let order = order_sql(staging.order);
    assert(order.len() == 5);
    assert(order[0] == "c"@ + "0"@);
    assert(order[1] == "c"@ + "1"@);
    assert(order[2] == "c"@ + "2"@);
    assert(order[3] == "c"@ + "3"@);
    assert(order[4] == "c"@ + "4"@);
    lemma_join_five(order, ", "@);
    assert(tests_sql(staging.filter) =~= seq![
        test_sql(staging.filter[0]),
        test_sql(staging.filter[1]),
        test_sql(staging.filter[2]),
    ]);
    lemma_join_three(
        test_sql(staging.filter[0]),
        test_sql(staging.filter[1]),
        test_sql(staging.filter[2]),
        "\n                   AND "@,
    );
    assert(fresh_sql(staging.fresh) == path_freshness(plan.seminaive, watermark)) by {
        if plan.seminaive {
            let tests = staging.fresh->0;
            assert(tests_sql(tests) =~= seq![test_sql(tests[0]), test_sql(tests[1])]);
            lemma_join_two(
                test_sql(tests[0]),
                test_sql(tests[1]),
                "\n                       OR "@,
            );
            lemma_first_or_second(decimal(watermark as nat));
        }
    }
}

proof fn lemma_path_sql(plan: PathCompressionPlan, stage: Seq<char>, watermark: u64)
    ensures
        path_sql(plan, stage, watermark) == staging_sql(
            path_staging(plan, stage, watermark as nat),
        ),
{
    let staging = path_staging(plan, stage, watermark as nat);
    let table = table_text(plan.union_find);
    lemma_path_joins(plan, stage, watermark);
    let fresh = fresh_sql(staging.fresh);
    let t1 = "CREATE TEMP TABLE "@ + stage;
    lemma_path_outputs(t1);
    let t2 = t1 + " AS\n             WITH bindings AS (\n                 SELECT DISTINCT\n                        first.c0 AS c0,\n                        first.c1 AS c1,\n                        first.c2 AS c2,\n                        second.c1 AS c3,\n                        second.c2 AS c4\n                 FROM "@ + table;
    lemma_first_alias(t2);
    let t3 = t2 + " AS first\n                 JOIN "@ + table;
    lemma_path_conditions(t3);
    let t4 = t3 + " AS second\n                   ON first.c1 IS NOT DISTINCT FROM second.c0\n                 WHERE first.__subsumed = FALSE\n                   AND second.__subsumed = FALSE\n                   AND first.c1 IS DISTINCT FROM second.c1\n                   "@ + fresh;
    lemma_path_ending(t4);
}

// ---------------------------------------------------------------------------
// Bodies in which an edge redirects a column of a row.

/// The atoms of a body: a row, an edge and an inequality. The edge starts at one
/// column of the row and does not end there. All variables but that one are
/// different; `vars` lists those of the row, the end and the payload of the edge
/// and the result of the inequality.
pub open spec fn redirecting(
    body: Seq<Atom>,
    row: int,
    edge: int,
    guard: int,
    stale: int,
    vars: Seq<RuleVar>,
) -> bool {
    let arity = body[row].args@.len() as int;
    let edge_args = body[edge].args@;
    let guard_args = body[guard].args@;
    &&& body.len() == 3
    &&& 0 <= row < 3 && 0 <= edge < 3 && 0 <= guard < 3
    &&& row != edge && row != guard && edge != guard
    &&& body[row].head is Table && body[edge].head is Table && body[guard].head is Primitive
    &&& edge_args.len() == 3 && guard_args.len() == 3
    &&& 0 <= stale < arity
    &&& vars.len() >= arity + 3
    &&& distinct(vars)
    &&& forall|i: int|
        0 <= i < arity ==> #[trigger] body[row].args@[i] == AtomTerm::Var(vars[i])
    &&& edge_args[0] == AtomTerm::Var(vars[stale])
    &&& edge_args[1] == AtomTerm::Var(vars[arity])
    &&& edge_args[2] == AtomTerm::Var(vars[arity + 1])
    &&& guard_args[0] == AtomTerm::Var(vars[stale])
    &&& guard_args[1] == AtomTerm::Var(vars[arity])
    &&& guard_args[2] == AtomTerm::Var(vars[arity + 2])
}

/// The inequality of a body means what it says.
pub open spec fn guarded(world: World, atom: Atom) -> bool {
    match atom.head {
        RuleBodyCall::Primitive { id, .. } => is_inequality(world, id.rep),
        _ => false,
    }
}

/// An inequality by its name means what it says.
pub open spec fn named_inequality(world: World, atom: Atom) -> bool {
    match atom.head {
        RuleBodyCall::Primitive { name, .. } => name@ == "!="@ ==> guarded(world, atom),
        _ => true,
    }
}

/// The tokens that are authenticated as inequalities mean what they say.
pub open spec fn tagged_inequalities(world: World, registries: AuthorityRegistries) -> bool {
    forall|token: u32| #[trigger]
        entry(registries.native_primitives@, token) == Some(NativePrimitive::ValueNeq)
            ==> is_inequality(world, token)
}

/// Two rows are a row with an edge that redirects its column.
pub open spec fn redirects(
    body: Seq<Atom>,
    row: int,
    edge: int,
    stale: int,
    database: Database,
    i: int,
    j: int,
) -> bool {
    let rows = atom_rows(body[row], database);
    let edges = atom_rows(body[edge], database);
    &&& 0 <= i < rows.len()
    &&& 0 <= j < edges.len()
    &&& readable(atom_read(body[row]), rows[i])
    &&& readable(atom_read(body[edge]), edges[j])
    &&& rows[i](Name::C(stale as nat)) == edges[j](Name::C(0))
    &&& rows[i](Name::C(stale as nat)) != edges[j](Name::C(1))
}

/// The rows of a match by atom: the row, the edge, and none for the inequality.
pub open spec fn two_picks(row: int, edge: int, i: int, j: int) -> Seq<int> {
    Seq::new(
        3,
        |k: int|
            if k == row {
                i
            } else if k == edge {
                j
            } else {
                0
            },
    )
}

/// The assignment that a row and an edge determine.
spec fn redirect_assignment(
    vars: Seq<RuleVar>,
    arity: nat,
    left: Row,
    right: Row,
    unit: Datum,
) -> Assignment {
    |id: u32|
        {
            let k = choose|k: int| 0 <= k < vars.len() && (#[trigger] vars[k]).id == id;
            if k < arity {
                left(Name::C(k as nat))
            } else if k == arity {
                right(Name::C(1))
            } else if k == arity + 1 {
                right(Name::C(2))
            } else {
                unit
            }
        }
}

proof fn lemma_assigned(
    vars: Seq<RuleVar>,
    arity: nat,
    left: Row,
    right: Row,
    unit: Datum,
    k: int,
)
    requires
        distinct(vars),
        0 <= k < vars.len(),
    ensures
        redirect_assignment(vars, arity, left, right, unit)(vars[k].id) == (if k < arity {
            left(Name::C(k as nat))
        } else if k == arity {
            right(Name::C(1))
        } else if k == arity + 1 {
            right(Name::C(2))
        } else {
            unit
        }),
{
    let id = vars[k].id;
    let found = choose|m: int| 0 <= m < vars.len() && (#[trigger] vars[m]).id == id;
    assert(0 <= k < vars.len() && vars[k].id == id);
    assert(found == k) by {
        if found < k {
            assert(vars[found].id != vars[k].id);
        } else if k < found {
            assert(vars[k].id != vars[found].id);
        }
    }
}

proof fn lemma_redirect_matches(
    body: Seq<Atom>,
    row: int,
    edge: int,
    guard: int,
    stale: int,
    vars: Seq<RuleVar>,
    database: Database,
    i: int,
    j: int,
    world: World,
) -> (assignment: Assignment)
    requires
        redirecting(body, row, edge, guard, stale, vars),
        guarded(world, body[guard]),
        redirects(body, row, edge, stale, database, i, j),
    ensures
        body_matches(body, database, two_picks(row, edge, i, j), world, assignment),
{
    let arity = body[row].args@.len();
    let left = atom_rows(body[row], database)[i];
    let right = atom_rows(body[edge], database)[j];
    let assignment = redirect_assignment(vars, arity, left, right, world.unit);
    assert forall|k: int| 0 <= k < arity implies left(Name::C(k as nat)) == term_value(
        #[trigger] body[row].args@[k],
        world,
        assignment,
    ) by {
        lemma_assigned(vars, arity, left, right, world.unit, k);
    }
    lemma_assigned(vars, arity, left, right, world.unit, stale);
    lemma_assigned(vars, arity, left, right, world.unit, arity as int);
    lemma_assigned(vars, arity, left, right, world.unit, arity as int + 1);
    lemma_assigned(vars, arity, left, right, world.unit, arity as int + 2);
    let picks = two_picks(row, edge, i, j);
    assert(atom_holds(body[row], database, picks[row], world, assignment));
    assert(atom_holds(body[edge], database, picks[edge], world, assignment));
    assert(atom_holds(body[guard], database, picks[guard], world, assignment)) by {
        let inputs = term_values(body[guard].args@.drop_last(), world, assignment);
        assert(inputs.len() == 2);
        assert(inputs[0] == assignment(vars[stale].id));
        assert(inputs[1] == assignment(vars[arity as int].id));
        match body[guard].head {
            RuleBodyCall::Primitive { id, .. } => {
                assert((world.primitive)(id.rep, inputs) == Some(world.unit));
            },
            _ => {},
        }
    }
    assert forall|k: int| 0 <= k < body.len() implies atom_holds(
        #[trigger] body[k],
        database,
        picks[k],
        world,
        assignment,
    ) by {
        assert(k == row || k == edge || k == guard);
    }
    assignment
}

proof fn lemma_match_redirects(
    body: Seq<Atom>,
    row: int,
    edge: int,
    guard: int,
    stale: int,
    vars: Seq<RuleVar>,
    database: Database,
    picks: Seq<int>,
    world: World,
    assignment: Assignment,
)
    requires
        redirecting(body, row, edge, guard, stale, vars),
        guarded(world, body[guard]),
        body_matches(body, database, picks, world, assignment),
    ensures
        redirects(body, row, edge, stale, database, picks[row], picks[edge]),
        holds_terms(
            atom_rows(body[row], database)[picks[row]],
            body[row].args@,
            world,
            assignment,
        ),
        holds_terms(
            atom_rows(body[edge], database)[picks[edge]],
            body[edge].args@,
            world,
            assignment,
        ),
{
    assert(atom_holds(body[row], database, picks[row], world, assignment));
    assert(atom_holds(body[edge], database, picks[edge], world, assignment));
    assert(atom_holds(body[guard], database, picks[guard], world, assignment));
    let left = atom_rows(body[row], database)[picks[row]];
    let right = atom_rows(body[edge], database)[picks[edge]];
    assert(holds_terms(left, body[row].args@, world, assignment));
    assert(holds_terms(right, body[edge].args@, world, assignment));
    assert(left(Name::C(stale as nat)) == term_value(body[row].args@[stale], world, assignment));
    assert(right(Name::C(0)) == term_value(body[edge].args@[0], world, assignment));
    assert(right(Name::C(1)) == term_value(body[edge].args@[1], world, assignment));
    let inputs = term_values(body[guard].args@.drop_last(), world, assignment);
    assert(inputs.len() == 2);
    match body[guard].head {
        RuleBodyCall::Primitive { id, .. } => {
            assert((world.primitive)(id.rep, inputs) is Some);
        },
        _ => {},
    }
}

/// The terms whose values a statement stages: columns of the row, and of the edge.
pub open spec fn outputs_are(
    outputs: Seq<Scalar>,
    terms: Seq<AtomTerm>,
    body: Seq<Atom>,
    row: int,
    edge: int,
    left: Alias,
    right: Alias,
) -> bool {
    &&& outputs.len() == terms.len()
    &&& forall|k: int|
        0 <= k < outputs.len() ==> match #[trigger] outputs[k] {
            Scalar::Column(alias, Name::C(column)) => {
                ||| alias == left && column < body[row].args@.len() && terms[k]
                    == body[row].args@[column as int]
                ||| alias == right && column < body[edge].args@.len() && terms[k]
                    == body[edge].args@[column as int]
            },
            _ => false,
        }
}

/// A rule's body matches, with a new row, and the terms have these values.
pub open spec fn matches_newly(
    body: Seq<Atom>,
    terms: Seq<AtomTerm>,
    database: Database,
    watermark: nat,
    world: World,
    picks: Seq<int>,
    assignment: Assignment,
    row: Seq<Datum>,
) -> bool {
    &&& body_matches(body, database, picks, world, assignment)
    &&& has_new_row(body, database, picks, watermark)
    &&& row == term_values(terms, world, assignment)
}

proof fn lemma_stages_matches(
    staging: Staging,
    body: Seq<Atom>,
    row: int,
    edge: int,
    guard: int,
    stale: int,
    vars: Seq<RuleVar>,
    terms: Seq<AtomTerm>,
    database: Database,
    watermark: nat,
    world: World,
    staged: Seq<Datum>,
)
    requires
        redirecting(body, row, edge, guard, stale, vars),
        guarded(world, body[guard]),
        staging.left_alias != staging.right_alias,
        staging.left == table_text(atom_table(body[row])),
        staging.right == table_text(atom_table(body[edge])),
        outputs_are(
            staging.outputs,
            terms,
            body,
            row,
            edge,
            staging.left_alias,
            staging.right_alias,
        ),
        forall|i: int, j: int| #[trigger]
            staging_joins(staging, database, i, j) <==> {
                &&& redirects(body, row, edge, stale, database, i, j)
                &&& is_new(database(staging.left)[i], watermark) || is_new(
                    database(staging.right)[j],
                    watermark,
                )
            },
    ensures
        stages(staging, database, staged) <==> exists|picks: Seq<int>, assignment: Assignment|
         #[trigger]
            matches_newly(body, terms, database, watermark, world, picks, assignment, staged),
{
    let rows = database(staging.left);
    let edges = database(staging.right);
    if stages(staging, database, staged) {
        let (i, j) = choose|i: int, j: int| #[trigger]
            staging_joins(staging, database, i, j) && staged == Seq::new(
                staging.outputs.len(),
                |k: int|
                    scalar_value(
                        staging.outputs[k],
                        two_rows(staging.left_alias, rows[i], edges[j]),
                    ),
            );
        let assignment = lemma_redirect_matches(
            body,
            row,
            edge,
            guard,
            stale,
            vars,
            database,
            i,
            j,
            world,
        );
        let picks = two_picks(row, edge, i, j);
        assert(atom_holds(body[row], database, picks[row], world, assignment));
        assert(atom_holds(body[edge], database, picks[edge], world, assignment));
        assert(holds_terms(rows[i], body[row].args@, world, assignment));
        assert(holds_terms(edges[j], body[edge].args@, world, assignment));
        assert(staged =~= term_values(terms, world, assignment)) by {
            assert forall|k: int| 0 <= k < staged.len() implies staged[k] == term_value(
                terms[k],
                world,
                assignment,
            ) by {
                match staging.outputs[k] {
                    Scalar::Column(alias, Name::C(column)) => {
                        if alias == staging.left_alias {
                            assert(terms[k] == body[row].args@[column as int]);
                        } else {
                            assert(terms[k] == body[edge].args@[column as int]);
                        }
                    },
                    _ => {},
                }
            }
        }
        assert(has_new_row(body, database, picks, watermark)) by {
            if is_new(rows[i], watermark) {
                assert(is_new(atom_rows(body[row], database)[picks[row]], watermark));
            } else {
                assert(is_new(atom_rows(body[edge], database)[picks[edge]], watermark));
            }
        }
        assert(matches_newly(body, terms, database, watermark, world, picks, assignment, staged));
    }
    if exists|picks: Seq<int>, assignment: Assignment| #[trigger]
        matches_newly(body, terms, database, watermark, world, picks, assignment, staged) {
        let (picks, assignment) = choose|picks: Seq<int>, assignment: Assignment| #[trigger]
            matches_newly(body, terms, database, watermark, world, picks, assignment, staged);
        lemma_match_redirects(
            body,
            row,
            edge,
            guard,
            stale,
            vars,
            database,
            picks,
            world,
            assignment,
        );
        let i = picks[row];
        let j = picks[edge];
        let k = choose|k: int|
            #![trigger body[k]]
            0 <= k < body.len() && 0 <= picks[k] < atom_rows(body[k], database).len() && is_new(
                atom_rows(body[k], database)[picks[k]],
                watermark,
            );
        assert(k == row || k == edge);
        assert(staging_joins(staging, database, i, j));
        assert(staged =~= Seq::new(
            staging.outputs.len(),
            |k: int|
                scalar_value(
                    staging.outputs[k],
                    two_rows(staging.left_alias, rows[i], edges[j]),
                ),
        )) by {
            assert forall|k: int| 0 <= k < staged.len() implies staged[k] == scalar_value(
                staging.outputs[k],
                two_rows(staging.left_alias, rows[i], edges[j]),
            ) by {
                match staging.outputs[k] {
                    Scalar::Column(alias, Name::C(column)) => {
                        if alias == staging.left_alias {
                            assert(terms[k] == body[row].args@[column as int]);
                        } else {
                            assert(terms[k] == body[edge].args@[column as int]);
                        }
                    },
                    _ => {},
                }
            }
        }
    }
}

// ---------------------------------------------------------------------------
// The laws.

proof fn lemma_typed_vars(scope: Scope, terms: Seq<AtomTerm>, schema: Seq<ColumnTy>, count: nat)
    requires
        typed_vars_check(scope, terms, schema, count).fault is None,
    ensures
        forall|i: int|
            0 <= i < count ==> #[trigger] terms[i] == AtomTerm::Var(vars_of(terms, count)[i]),
    decreases count,
{
    if count > 0 {
        lemma_typed_vars(scope, terms, schema, (count - 1) as nat);
        assert forall|i: int| 0 <= i < count implies #[trigger] terms[i] == AtomTerm::Var(
            vars_of(terms, count)[i],
        ) by {
            if i < count - 1 {
                assert(terms[i] == AtomTerm::Var(vars_of(terms, (count - 1) as nat)[i]));
            }
        }
    }
}

/// Terms that are the expected variables.
pub proof fn lemma_same_vars(
    scope: Scope,
    expected: Seq<RuleVar>,
    terms: Seq<AtomTerm>,
    role: Seq<char>,
    count: nat,
)
    requires
        vars_check(scope, expected, terms, role, count).fault is None,
    ensures
        forall|i: int| 0 <= i < count ==> #[trigger] terms[i] == AtomTerm::Var(expected[i]),
    decreases count,
{
    if count > 0 {
        lemma_same_vars(scope, expected, terms, role, (count - 1) as nat);
    }
}

proof fn lemma_told_apart(staging: Staging, row: Seq<Datum>, other: Seq<Datum>)
    requires
        staging.order == numbers(staging.outputs.len()),
        row.len() == staging.outputs.len(),
        other.len() == staging.outputs.len(),
        row != other,
    ensures
        told_apart(staging, row, other),
{
    if !told_apart(staging, row, other) {
        assert forall|k: int| 0 <= k < row.len() implies row[k] == other[k] by {
            assert(staging.order[k] == k);
        }
        assert(row =~= other);
    }
}

/// The View atom, the edge atom and the inequality of a rebuild rule, which all
/// other variables than the edge's key tell apart.
pub proof fn lemma_rebuild_redirects(catalog: Catalog, rule: RuleSpec, roles: RebuildRoles)
    requires
        rebuild_selection(catalog, rule) == Ok::<Option<RebuildRoles>, RejectionView>(Some(roles)),
        rebuild_check(catalog, rule, roles).fault is None,
    ensures
        redirecting(
            rule.body@,
            roles.view,
            roles.union_find,
            roles.guard,
            stale_column(rebuild_plan(catalog, rule, roles)) as int,
            rebuild_vars(catalog, rule, roles).bound(),
        ),
        rebuild_plan(catalog, rule, roles).kind is EclassOutput ==> stale_column(
            rebuild_plan(catalog, rule, roles),
        ) + 2 == rule.body@[roles.view].args@.len(),
        rule.body@[roles.view].args@.len() == table_of(
            catalog,
            atom_table(rule.body@[roles.view]),
        ).schema@.len(),
{
    let vars = rebuild_vars(catalog, rule, roles);
    let bound = vars.bound();
    let view = rule.body@[roles.view].args@;
    let edge = rule.body@[roles.union_find].args@;
    let guard = rule.body@[roles.guard].args@;
    let info = table_of(catalog, atom_table(rule.body@[roles.view]));
    let n_keys = info.n_keys as int;
    lemma_typed_vars(Scope::StandardRebuild, view, info.schema@, info.n_keys as nat);
    lemma_positions(vars.keys, vars.edge_key, vars.keys.len());
    assert(view.len() == n_keys + 2);
    assert(bound[n_keys] == vars.identity);
    assert(bound[n_keys + 1] == vars.payload);
    assert(bound[n_keys + 2] == vars.canonical);
    assert(bound[n_keys + 3] == vars.edge_payload);
    assert(bound[n_keys + 4] == vars.result);
    assert forall|i: int| 0 <= i < view.len() implies #[trigger] view[i] == AtomTerm::Var(
        bound[i],
    ) by {
        if i < n_keys {
            assert(bound[i] == vars.keys[i]);
        }
    }
    let stale = stale_column(rebuild_plan(catalog, rule, roles)) as int;
    assert(bound[stale] == vars.edge_key) by {
        match roles.shape {
            OuterShape::EqKey => {
                assert(bound[stale] == vars.keys[stale]);
            },
            OuterShape::EclassOutput => {},
        }
    }
}

/// The atoms of an admitted rebuild rule.
proof fn lemma_rebuild_atoms(catalog: Catalog, rule: RuleSpec, plan: StandardRebuildView) -> (r: (
    RebuildRoles,
    Seq<RuleVar>,
))
    requires
        catalog.well_formed(),
        standard_rebuild(catalog, rule) == Ok::<Option<StandardRebuildView>, RejectionView>(
            Some(plan),
        ),
    ensures
        ({
            let body = rule.body@;
            let view = body[r.0.view];
            let edge = body[r.0.union_find];
            &&& redirecting(
                body,
                r.0.view,
                r.0.union_find,
                r.0.guard,
                stale_column(plan) as int,
                r.1,
            )
            &&& atom_read(view) == ReadMode::All && atom_read(edge) == ReadMode::All
            &&& plan.seminaive
            &&& plan.view.target == atom_table(view)
            &&& plan.union_find.target == atom_table(edge)
            &&& plan.view.target != plan.union_find.target
            &&& plan.view.columns.len() == view.args@.len()
            &&& plan.kind is EclassOutput ==> stale_column(plan) + 2 == view.args@.len()
            &&& body[r.0.guard].head matches RuleBodyCall::Primitive { name, .. } && name@ == "!="@
        }),
{
    reveal(standard_rebuild);
    let roles = match rebuild_selection(catalog, rule) {
        Ok(Some(roles)) => roles,
        _ => arbitrary(),
    };
    lemma_rebuild_redirects(catalog, rule, roles);
    assert(table_of(catalog, plan.view.target).well_formed());
    (roles, rebuild_vars(catalog, rule, roles).bound())
}

/// A rebuild statement stages exactly the matches of its rule that have a new row:
/// the row of the View, and the end and the payload of an edge that starts at the
/// column of the View which the rule's body equates with the edge's key. For an
/// output rebuild that column is the first one behind the keys, which is the last
/// but one.
pub proof fn law_rebuilds_stage_their_matches(
    catalog: Catalog,
    rule: RuleSpec,
    plan: StandardRebuildView,
    view: int,
    edge: int,
    stage: Seq<char>,
    watermark: u64,
    database: Database,
    world: World,
    staged: Seq<Datum>,
)
    requires
        catalog.well_formed(),
        standard_rebuild(catalog, rule) == Ok::<Option<StandardRebuildView>, RejectionView>(
            Some(plan),
        ),
        0 <= view < rule.body@.len(),
        0 <= edge < rule.body@.len(),
        rule.body@[view].head is Table && atom_table(rule.body@[view]) == plan.view.target,
        rule.body@[edge].head is Table && atom_table(rule.body@[edge]) == plan.union_find.target,
        forall|i: int|
            0 <= i < rule.body@.len() ==> named_inequality(world, #[trigger] rule.body@[i]),
    ensures
        ({
            let row = rule.body@[view].args@;
            let redirection = rule.body@[edge].args@;
            let statement = rebuild_staging(plan, stage, watermark as nat);
            &&& row[stale_column(plan) as int] == redirection[0]
            &&& plan.kind is EclassOutput ==> stale_column(plan) + 2 == row.len()
            &&& rebuild_sql(plan, stage, watermark) == staging_sql(statement)
            &&& stages(statement, database, staged) <==> exists|
                picks: Seq<int>,
                assignment: Assignment,
            | #[trigger]
                matches_newly(
                    rule.body@,
                    row.push(redirection[1]).push(redirection[2]),
                    database,
                    watermark as nat,
                    world,
                    picks,
                    assignment,
                    staged,
                )
            &&& forall|other: Seq<Datum>|
                staged.len() == row.len() + 2 && other.len() == row.len() + 2 && staged != other
                    ==> #[trigger] told_apart(statement, staged, other)
        }),
{
    let (roles, vars) = lemma_rebuild_atoms(catalog, rule, plan);
    lemma_rebuild_sql(plan, stage, watermark);
    assert(view == roles.view);
    assert(edge == roles.union_find);
    assert(named_inequality(world, rule.body@[roles.guard]));
    let statement = rebuild_staging(plan, stage, watermark as nat);
    let stale = stale_column(plan) as int;
    let body = rule.body@;
    let row = body[view].args@;
    let terms = row.push(body[edge].args@[1]).push(body[edge].args@[2]);
    assert(outputs_are(
        statement.outputs,
        terms,
        body,
        view,
        edge,
        Alias::ViewRow,
        Alias::UfRow,
    ));
    assert forall|i: int, j: int| #[trigger]
        staging_joins(statement, database, i, j) <==> {
            &&& redirects(body, view, edge, stale, database, i, j)
            &&& is_new(database(statement.left)[i], watermark as nat) || is_new(
                database(statement.right)[j],
                watermark as nat,
            )
        } by {
        lemma_stale_joins(statement, body, view, edge, stale, watermark, database, i, j);
    }
    lemma_stages_matches(
        statement,
        body,
        view,
        edge,
        roles.guard,
        stale,
        vars,
        terms,
        database,
        watermark as nat,
        world,
        staged,
    );
    assert forall|other: Seq<Datum>|
        staged.len() == row.len() + 2 && other.len() == row.len() + 2 && staged
            != other implies #[trigger] told_apart(statement, staged, other) by {
        lemma_told_apart(statement, staged, other);
    }
}

/// The conditions of a statement say that an edge redirects the row.
proof fn lemma_stale_joins(
    statement: Staging,
    body: Seq<Atom>,
    row: int,
    edge: int,
    stale: int,
    watermark: u64,
    database: Database,
    i: int,
    j: int,
)
    requires
        stale >= 0,
        body[row].head is Table && body[edge].head is Table,
        atom_read(body[row]) == ReadMode::All && atom_read(body[edge]) == ReadMode::All,
        statement.left_alias != Alias::UfRow,
        statement == stale_staging(
            statement.stage,
            table_text(atom_table(body[row])),
            statement.left_alias,
            table_text(atom_table(body[edge])),
            stale as nat,
            statement.outputs,
            true,
            watermark as nat,
        ),
    ensures
        staging_joins(statement, database, i, j) <==> {
            &&& redirects(body, row, edge, stale, database, i, j)
            &&& is_new(database(statement.left)[i], watermark as nat) || is_new(
                database(statement.right)[j],
                watermark as nat,
            )
        },
{
    let env = two_rows(
        statement.left_alias,
        database(statement.left)[i],
        database(statement.right)[j],
    );
    let tests = statement.fresh->0;
    assert(statement.filter.len() == 1 && tests.len() == 2);
    assert(test_holds(tests[0], env) <==> is_new(database(statement.left)[i], watermark as nat));
    assert(test_holds(tests[1], env) <==> is_new(database(statement.right)[j], watermark as nat));
    assert(test_holds(statement.filter[0], env) <==> database(statement.left)[i](
        Name::C(stale as nat),
    ) != database(statement.right)[j](Name::C(1)));
}

/// The marker atom, the edge atom and the inequality of a marker rule, which all
/// other variables than the edge's key tell apart.
proof fn lemma_marker_redirects(
    catalog: Catalog,
    registries: AuthorityRegistries,
    rule: RuleSpec,
    roles: MarkerRoles,
)
    requires
        marker_selection(catalog, rule) == Ok::<Option<MarkerRoles>, RejectionView>(Some(roles)),
        marker_check(catalog, registries, rule, roles).fault is None,
    ensures
        redirecting(
            rule.body@,
            roles.marker,
            roles.union_find,
            roles.guard,
            marker_plan(catalog, rule, roles).key_index as int,
            marker_vars(catalog, rule, roles).bound(),
        ),
        marker_plan(catalog, rule, roles).key_index < marker_plan(catalog, rule, roles).n_keys,
        rule.body@[roles.marker].args@.len() == marker_plan(catalog, rule, roles).n_keys + 1,
{
    let vars = marker_vars(catalog, rule, roles);
    let bound = vars.bound();
    let marker = rule.body@[roles.marker].args@;
    let info = table_of(catalog, atom_table(rule.body@[roles.marker]));
    let n_keys = info.n_keys as int;
    lemma_typed_vars(Scope::Marker, marker, info.schema@, info.n_keys as nat);
    lemma_positions(vars.keys, vars.edge_key, vars.keys.len());
    assert(marker.len() == n_keys + 1);
    assert(bound[n_keys] == vars.output);
    assert(bound[n_keys + 1] == vars.canonical);
    assert(bound[n_keys + 2] == vars.edge_payload);
    assert(bound[n_keys + 3] == vars.result);
    assert forall|i: int| 0 <= i < marker.len() implies #[trigger] marker[i] == AtomTerm::Var(
        bound[i],
    ) by {
        if i < n_keys {
            assert(bound[i] == vars.keys[i]);
        }
    }
    let stale = marker_plan(catalog, rule, roles).key_index as int;
    assert(bound[stale] == vars.keys[stale]);
}

/// The atoms of an admitted marker rule.
pub proof fn lemma_marker_atoms(
    catalog: Catalog,
    registries: AuthorityRegistries,
    rule: RuleSpec,
    plan: MarkerRekeyView,
) -> (r: (MarkerRoles, Seq<RuleVar>))
    requires
        catalog.well_formed(),
        marker_rekey(catalog, registries, rule) == Ok::<Option<MarkerRekeyView>, RejectionView>(
            Some(plan),
        ),
    ensures
        ({
            let body = rule.body@;
            let marker = body[r.0.marker];
            let edge = body[r.0.union_find];
            &&& redirecting(
                body,
                r.0.marker,
                r.0.union_find,
                r.0.guard,
                plan.key_index as int,
                r.1,
            )
            &&& atom_read(marker) == ReadMode::All && atom_read(edge) == ReadMode::All
            &&& plan.seminaive
            &&& plan.marker == atom_table(marker)
            &&& plan.union_find.target == atom_table(edge)
            &&& plan.marker != plan.union_find.target
            &&& plan.key_index < plan.n_keys
            &&& plan.n_keys + 1 == marker.args@.len()
            &&& marker_selection(catalog, rule) == Ok::<Option<MarkerRoles>, RejectionView>(Some(r.0))
            &&& r.1 == marker_vars(catalog, rule, r.0).bound()
            &&& body[r.0.guard].head matches RuleBodyCall::Primitive { id, .. } && entry(
                registries.native_primitives@,
                id.rep,
            ) == Some(NativePrimitive::ValueNeq)
        }),
{
    law_marker_plans_are_coherent(catalog, registries, rule, plan);
    reveal(marker_rekey);
    let roles = match marker_selection(catalog, rule) {
        Ok(Some(roles)) => roles,
        _ => arbitrary(),
    };
    lemma_marker_redirects(catalog, registries, rule, roles);
    (roles, marker_vars(catalog, rule, roles).bound())
}

/// A marker statement stages exactly the matches of its rule that have a new row:
/// the keys of the marker, and the end of an edge that starts at the key which the
/// rule's body equates with the edge's key.
pub proof fn law_markers_stage_their_matches(
    catalog: Catalog,
    registries: AuthorityRegistries,
    rule: RuleSpec,
    plan: MarkerRekeyView,
    marker: int,
    edge: int,
    stage: Seq<char>,
    watermark: u64,
    database: Database,
    world: World,
    staged: Seq<Datum>,
)
    requires
        catalog.well_formed(),
        marker_rekey(catalog, registries, rule) == Ok::<Option<MarkerRekeyView>, RejectionView>(
            Some(plan),
        ),
        0 <= marker < rule.body@.len(),
        0 <= edge < rule.body@.len(),
        rule.body@[marker].head is Table && atom_table(rule.body@[marker]) == plan.marker,
        rule.body@[edge].head is Table && atom_table(rule.body@[edge]) == plan.union_find.target,
        tagged_inequalities(world, registries),
    ensures
        ({
            let row = rule.body@[marker].args@;
            let redirection = rule.body@[edge].args@;
            let statement = marker_staging(plan, stage, watermark as nat);
            &&& row.len() == plan.n_keys + 1
            &&& row[plan.key_index as int] == redirection[0]
            &&& marker_sql(plan, stage, watermark) == staging_sql(statement)
            &&& stages(statement, database, staged) <==> exists|
                picks: Seq<int>,
                assignment: Assignment,
            | #[trigger]
                matches_newly(
                    rule.body@,
                    row.drop_last().push(redirection[1]),
                    database,
                    watermark as nat,
                    world,
                    picks,
                    assignment,
                    staged,
                )
            &&& forall|other: Seq<Datum>|
                staged.len() == row.len() && other.len() == row.len() && staged != other
                    ==> #[trigger] told_apart(statement, staged, other)
        }),
{
    let (roles, vars) = lemma_marker_atoms(catalog, registries, rule, plan);
    lemma_marker_sql(plan, stage, watermark);
    assert(marker == roles.marker);
    assert(edge == roles.union_find);
    let statement = marker_staging(plan, stage, watermark as nat);
    let stale = plan.key_index as int;
    let body = rule.body@;
    let row = body[marker].args@;
    let terms = row.drop_last().push(body[edge].args@[1]);
    assert(outputs_are(
        statement.outputs,
        terms,
        body,
        marker,
        edge,
        Alias::MarkerRow,
        Alias::UfRow,
    ));
    assert forall|i: int, j: int| #[trigger]
        staging_joins(statement, database, i, j) <==> {
            &&& redirects(body, marker, edge, stale, database, i, j)
            &&& is_new(database(statement.left)[i], watermark as nat) || is_new(
                database(statement.right)[j],
                watermark as nat,
            )
        } by {
        lemma_stale_joins(statement, body, marker, edge, stale, watermark, database, i, j);
    }
    lemma_stages_matches(
        statement,
        body,
        marker,
        edge,
        roles.guard,
        stale,
        vars,
        terms,
        database,
        watermark as nat,
        world,
        staged,
    );
    assert forall|other: Seq<Datum>|
        staged.len() == row.len() && other.len() == row.len() && staged
            != other implies #[trigger] told_apart(statement, staged, other) by {
        lemma_told_apart(statement, staged, other);
    }
}

/// A path statement stages exactly the matches of its rule that have a new row: a
/// live edge, and the end and the payload of a live edge that starts at its end.
pub proof fn law_paths_stage_their_matches(
    catalog: Catalog,
    registries: AuthorityRegistries,
    rule: RuleSpec,
    stage: Seq<char>,
    watermark: u64,
    database: Database,
    world: World,
    staged: Seq<Datum>,
)
    requires
        rule.body@.len() == 3,
        path_check(catalog, registries, rule).fault is None,
        tagged_inequalities(world, registries),
    ensures
        ({
            let plan = path_plan(catalog, rule);
            let first = rule.body@[0].args@;
            let second = rule.body@[1].args@;
            let statement = path_staging(plan, stage, watermark as nat);
            &&& first[1] == second[0]
            &&& path_sql(plan, stage, watermark) == staging_sql(statement)
            &&& stages(statement, database, staged) <==> exists|
                picks: Seq<int>,
                assignment: Assignment,
            | #[trigger]
                matches_newly(
                    rule.body@,
                    first.push(second[1]).push(second[2]),
                    database,
                    watermark as nat,
                    world,
                    picks,
                    assignment,
                    staged,
                )
            &&& forall|other: Seq<Datum>|
                staged.len() == 5 && other.len() == 5 && staged != other ==> #[trigger] told_apart(
                    statement,
                    staged,
                    other,
                )
        }),
{
    reveal(path_check);
    let plan = path_plan(catalog, rule);
    let body = rule.body@;
    let vars = path_roles(rule);
    let statement = path_staging(plan, stage, watermark as nat);
    let terms = body[0].args@.push(body[1].args@[1]).push(body[1].args@[2]);
    lemma_path_sql(plan, stage, watermark);
    assert(vars.len() == 8);
    assert forall|i: int| 0 <= i < 3 implies #[trigger] body[0].args@[i] == AtomTerm::Var(
        vars[i],
    ) by {
        assert(i == 0 || i == 1 || i == 2);
    }
    assert(redirecting(body, 0, 1, 2, 1, vars));
    assert(guarded(world, body[2]));
    assert(outputs_are(statement.outputs, terms, body, 0, 1, Alias::First, Alias::Second));
    assert forall|i: int, j: int| #[trigger]
        staging_joins(statement, database, i, j) <==> {
            &&& redirects(body, 0, 1, 1, database, i, j)
            &&& is_new(database(statement.left)[i], watermark as nat) || is_new(
                database(statement.right)[j],
                watermark as nat,
            )
        } by {
        let left = database(statement.left)[i];
        let right = database(statement.right)[j];
        let env = two_rows(Alias::First, left, right);
        let tests = statement.fresh->0;
        assert(statement.filter.len() == 3 && tests.len() == 2);
        assert(test_holds(tests[0], env) <==> is_new(left, watermark as nat));
        assert(test_holds(tests[1], env) <==> is_new(right, watermark as nat));
        assert(test_holds(statement.filter[0], env) <==> readable(ReadMode::Live, left));
        assert(test_holds(statement.filter[1], env) <==> readable(ReadMode::Live, right));
        assert(test_holds(statement.filter[2], env) <==> left(Name::C(1)) != right(Name::C(1)));
    }
    lemma_stages_matches(
        statement,
        body,
        0,
        1,
        2,
        1,
        vars,
        terms,
        database,
        watermark as nat,
        world,
        staged,
    );
    assert forall|other: Seq<Datum>|
        staged.len() == 5 && other.len() == 5 && staged != other implies #[trigger] told_apart(
        statement,
        staged,
        other,
    ) by {
        lemma_told_apart(statement, staged, other);
    }
}

} // verus!
