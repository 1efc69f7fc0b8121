//! What the statement of a result means: it extends every match by one column,
//! and the law says by which value.

use vstd::prelude::*;

#[allow(unused_imports)]
use crate::action_plan::{
    key_match_text, key_tests, ref_text, ref_texts, slot_sql, ReadView, SlotSourceView, SlotView,
    ValueRefView,
};
#[allow(unused_imports)]
use crate::catalog::table_text;
#[allow(unused_imports)]
use crate::scalar_expr::SqlPieceView;
#[allow(unused_imports)]
use crate::sql::{
    alias_sql, clause_holds, clauses_sql, condition_holds, condition_sql, ref_scalar, ref_value,
    scalar_sql, scalar_value, scalar_values, scalars_sql, two_rows, Alias, Clause, Database, Datum,
    Env, Meaning, Name, Row, Scalar, Test,
};
#[allow(unused_imports)]
use crate::text::decimal;

verus! {

// ---------------------------------------------------------------------------
// Statements that extend a relation by one column.

/// Rows of a relation under a condition.
pub struct Rows {
    pub relation: Seq<char>,
    pub alias: Alias,
    pub condition: Seq<Clause>,
}

/// One side of a `UNION ALL`: a value with a rank, once or for each of some rows.
pub struct Alternative {
    pub value: Scalar,
    pub rank: nat,
    pub rows: Option<Rows>,
}

/// What a statement adds to a row.
pub enum Added {
    /// `first + rank * count + __match_ordinal - 1`.
    Number { first: nat, rank: nat, count: nat },
    /// An expression over the row.
    Value(Scalar),
    /// A column of the joined rows.
    Joined { column: nat, rows: Rows },
    /// The first of two alternatives in the order of their ranks.
    Choice { left: Alternative, right: Alternative, descending: bool },
}

/// A statement that creates a relation: the rows of another one, extended by one
/// numbered column.
pub struct Extension {
    pub output: Seq<char>,
    pub input: Seq<char>,
    pub slot: nat,
    pub added: Added,
}

/// An alternative as it is written behind `before`.
pub open spec fn alternative_sql(before: Seq<char>, alternative: Alternative) -> Seq<char> {
    let ranked = before + scalar_sql(alternative.value)
        + " AS __value,\n                                    CAST('"@ + decimal(alternative.rank)
        + "' AS UTINYINT) AS __source"@;
    match alternative.rows {
        None => ranked,
        Some(rows) => ranked + "\n                             FROM "@ + rows.relation + " AS "@
            + alias_sql(rows.alias) + "\n                             WHERE "@ + condition_sql(
            rows.condition,
        ),
    }
}

/// An extension as it is written.
pub open spec fn extension_sql(extension: Extension) -> Seq<char> {
    match extension.added {
        Added::Number { first, rank, count } => {
            "CREATE TEMP TABLE "@
                + extension.output
                + " AS\n                 SELECT prior.*,\n                        CAST('"@
                + decimal(first)
                + "' AS UBIGINT)\n                            + CAST('"@
                + decimal(rank)
                + "' AS UBIGINT) * CAST('"@
                + decimal(count)
                + "' AS UBIGINT)\n                            + prior.__match_ordinal - 1 AS s"@
                + decimal(extension.slot)
                + "\n                 FROM "@
                + extension.input
                + " AS prior"@
        },
        Added::Value(value) => {
            "CREATE TEMP TABLE "@
                + extension.output
                + " AS\n                     SELECT prior.*, "@
                + scalar_sql(value)
                + " AS s"@
                + decimal(extension.slot)
                + "\n                     FROM "@
                + extension.input
                + " AS prior"@
        },
        Added::Joined { column, rows } => {
            "CREATE TEMP TABLE "@
                + extension.output
                + " AS\n                     SELECT prior.*,\n                            "@
                + scalar_sql(Scalar::Column(rows.alias, Name::C(column)))
                + " AS s"@
                + decimal(extension.slot)
                + "\n                     FROM "@
                + extension.input
                + " AS prior\n                     JOIN "@
                + rows.relation
                + " AS "@
                + alias_sql(rows.alias)
                + " ON "@
                + condition_sql(rows.condition)
        },
        Added::Choice { left, right, descending } => {
            let opened = "CREATE TEMP TABLE "@
                + extension.output
                + " AS\n                     SELECT prior.*,\n                            choice.__value AS s"@
                + decimal(extension.slot)
                + "\n                     FROM "@
                + extension.input
                + " AS prior\n                     JOIN LATERAL (\n                         SELECT alternatives.__value\n                         FROM (\n                             SELECT "@;
            let united = alternative_sql(opened, left)
                + "\n                             UNION ALL\n                             SELECT "@;
            let ordered = alternative_sql(united, right)
                + "\n                         ) AS alternatives\n                         ORDER BY alternatives.__source"@;
            let directed = if descending {
                ordered + " DESC"@
            } else {
                ordered
            };
            directed + "\n                         LIMIT 1\n                     ) AS choice ON TRUE"@
        },
    }
}

/// Row `k` of a relation, next to a match, satisfies the condition.
pub open spec fn row_joins(rows: Rows, database: Database, prior: Row, k: int) -> bool {
    &&& 0 <= k < database(rows.relation).len()
    &&& condition_holds(
        rows.condition,
        two_rows(Alias::Prior, prior, database(rows.relation)[k]),
    )
}

/// An alternative offers a value for a match.
pub open spec fn offers(
    alternative: Alternative,
    database: Database,
    prior: Row,
    value: Datum,
) -> bool {
    match alternative.rows {
        None => value == scalar_value(alternative.value, two_rows(Alias::Prior, prior, prior)),
        Some(rows) => exists|k: int| #[trigger]
            row_joins(rows, database, prior, k) && value == scalar_value(
                alternative.value,
                two_rows(Alias::Prior, prior, database(rows.relation)[k]),
            ),
    }
}

/// An alternative comes before every other one that offers something.
pub open spec fn ranks_first(
    alternative: Alternative,
    other: Alternative,
    descending: bool,
    database: Database,
    prior: Row,
) -> bool {
    (exists|value: Datum| #[trigger] offers(other, database, prior, value)) ==> (if descending {
        alternative.rank >= other.rank
    } else {
        alternative.rank <= other.rank
    })
}

/// The statement extends a match by a value.
pub open spec fn extends(
    extension: Extension,
    database: Database,
    prior: Row,
    value: Datum,
) -> bool {
    match extension.added {
        Added::Number { first, rank, count } => match prior(Name::MatchOrdinal) {
            Datum::Number(ordinal) => value == Datum::Number(first + rank * count + ordinal - 1),
            _ => false,
        },
        Added::Value(scalar) => value == scalar_value(
            scalar,
            two_rows(Alias::Prior, prior, prior),
        ),
        Added::Joined { column, rows } => exists|k: int| #[trigger]
            row_joins(rows, database, prior, k) && value == database(rows.relation)[k](
                Name::C(column),
            ),
        Added::Choice { left, right, descending } => {
            ||| offers(left, database, prior, value) && ranks_first(
                left,
                right,
                descending,
                database,
                prior,
            )
            ||| offers(right, database, prior, value) && ranks_first(
                right,
                left,
                descending,
                database,
                prior,
            )
        },
    }
}

// ---------------------------------------------------------------------------
// What a result is for.

/// Row `k` of a relation holds the keys, for one match.
pub open spec fn holds_keys(
    database: Database,
    relation: Seq<char>,
    k: int,
    keys: Seq<ValueRefView>,
    matched: Row,
    meaning: Meaning,
) -> bool {
    &&& 0 <= k < database(relation).len()
    &&& forall|i: int|
        0 <= i < keys.len() ==> database(relation)[k](Name::C(i as nat)) == ref_value(
            #[trigger] keys[i],
            matched,
            meaning,
        )
}

/// Some row of a relation holds the keys, and its column is the value.
pub open spec fn found(
    database: Database,
    relation: Seq<char>,
    keys: Seq<ValueRefView>,
    column: nat,
    matched: Row,
    meaning: Meaning,
    value: Datum,
) -> bool {
    exists|k: int| #[trigger]
        holds_keys(database, relation, k, keys, matched, meaning) && value == database(relation)[k](
            Name::C(column),
        )
}

/// Some row of a relation holds the keys.
pub open spec fn has_owner(
    database: Database,
    relation: Seq<char>,
    keys: Seq<ValueRefView>,
    matched: Row,
    meaning: Meaning,
) -> bool {
    exists|k: int| #[trigger] holds_keys(database, relation, k, keys, matched, meaning)
}

/// The value of a result for one match:
///
/// - a fresh id is counted from the first one, action by action;
/// - an expression is the primitive's form applied to its inputs;
/// - a lookup is the result column of a row under the keys;
/// - a set-if-empty is the first value column of a durable row under the keys, and
///   of a predicted row only when no durable row is there;
/// - a view column is that column of a durable row under the keys, and the
///   fallback only when no durable row is there.
pub open spec fn slot_outcome(
    slot: SlotView,
    first_fresh: nat,
    match_count: nat,
    ledger: Seq<char>,
    database: Database,
    matched: Row,
    meaning: Meaning,
    forms: spec_fn(Seq<SqlPieceView>, Seq<Datum>) -> Datum,
    value: Datum,
) -> bool {
    match slot.source {
        SlotSourceView::Fresh { rank } => match matched(Name::MatchOrdinal) {
            Datum::Number(ordinal) => value == Datum::Number(
                first_fresh + rank * match_count + ordinal - 1,
            ),
            _ => false,
        },
        SlotSourceView::Expression { expression, inputs } => value == forms(
            expression.value,
            Seq::new(inputs.len(), |i: int| ref_value(inputs[i], matched, meaning)),
        ),
        SlotSourceView::Read(ReadView::Table { target, result_column, keys, .. }) => found(
            database,
            table_text(target),
            keys,
            result_column as nat,
            matched,
            meaning,
            value,
        ),
        SlotSourceView::Read(ReadView::SetIfEmpty { target, n_keys, keys, .. }) => {
            if has_owner(database, table_text(target), keys, matched, meaning) {
                found(
                    database,
                    table_text(target),
                    keys,
                    n_keys as nat,
                    matched,
                    meaning,
                    value,
                )
            } else {
                found(database, ledger, keys, n_keys as nat, matched, meaning, value)
            }
        },
        SlotSourceView::Read(
            ReadView::ViewColumn { target, result_column, keys, fallback, .. },
        ) => {
            if has_owner(database, table_text(target), keys, matched, meaning) {
                found(
                    database,
                    table_text(target),
                    keys,
                    result_column as nat,
                    matched,
                    meaning,
                    value,
                )
            } else {
                value == ref_value(fallback, matched, meaning)
            }
        },
    }
}

/// The keys of a read are as many as its table has.
pub open spec fn keys_complete(slot: SlotView) -> bool {
    match slot.source {
        SlotSourceView::Read(ReadView::Table { n_keys, keys, .. }) => keys.len() == n_keys,
        SlotSourceView::Read(ReadView::SetIfEmpty { n_keys, keys, .. }) => keys.len() == n_keys,
        SlotSourceView::Read(ReadView::ViewColumn { n_keys, keys, .. }) => keys.len() == n_keys,
        _ => true,
    }
}

// ---------------------------------------------------------------------------
// The statement says so.

/// The condition that a row holds the keys.
pub open spec fn key_clauses(
    alias: Alias,
    keys: Seq<ValueRefView>,
    requested: Alias,
    meaning: Meaning,
) -> Seq<Clause> {
    if keys.len() == 0 {
        seq![Clause::One(Test::True)]
    } else {
        Seq::new(
            keys.len(),
            |i: int|
                Clause::One(
                    Test::Same(
                        Scalar::Column(alias, Name::C(i as nat)),
                        ref_scalar(keys[i], requested, meaning),
                    ),
                ),
        )
    }
}

/// A planned value is written as its expression.
pub proof fn lemma_ref_sql(value: ValueRefView, alias: Alias, meaning: Meaning)
    ensures
        scalar_sql(ref_scalar(value, alias, meaning)) == ref_text(value, alias_sql(alias)),
{
}

/// Planned values are written as their expressions.
pub proof fn lemma_refs_sql(values: Seq<ValueRefView>, alias: Alias, meaning: Meaning, count: nat)
    requires
        count <= values.len(),
    ensures
        scalars_sql(values.map_values(|v: ValueRefView| ref_scalar(v, alias, meaning)), count)
            == ref_texts(values, alias_sql(alias)).take(count as int),
    decreases count,
{
    let scalars = values.map_values(|v: ValueRefView| ref_scalar(v, alias, meaning));
    if count > 0 {
        lemma_refs_sql(values, alias, meaning, (count - 1) as nat);
        lemma_ref_sql(values[count - 1], alias, meaning);
        assert(ref_texts(values, alias_sql(alias)).take(count as int) =~= ref_texts(
            values,
            alias_sql(alias),
        ).take(count - 1).push(ref_text(values[count - 1], alias_sql(alias))));
    } else {
        assert(ref_texts(values, alias_sql(alias)).take(0) =~= Seq::<Seq<char>>::empty());
    }
}

/// The condition on keys is written as their comparison.
pub proof fn lemma_key_clauses_sql(
    alias: Alias,
    keys: Seq<ValueRefView>,
    requested: Alias,
    meaning: Meaning,
)
    ensures
        condition_sql(key_clauses(alias, keys, requested, meaning)) == key_match_text(
            alias_sql(alias),
            keys,
            keys.len(),
            alias_sql(requested),
        ),
{
    let clauses = key_clauses(alias, keys, requested, meaning);
    if keys.len() == 0 {
        assert(clauses_sql(clauses) =~= seq!["TRUE"@]);
    } else {
        assert forall|i: int| 0 <= i < keys.len() implies clauses_sql(clauses)[i] == key_tests(
            alias_sql(alias),
            keys,
            alias_sql(requested),
        )[i] by {
            lemma_ref_sql(keys[i], requested, meaning);
        }
        assert(clauses_sql(clauses) =~= key_tests(alias_sql(alias), keys, alias_sql(requested)));
    }
}

/// The condition on keys says that a row holds them.
pub proof fn lemma_key_clauses_hold(
    alias: Alias,
    relation: Seq<char>,
    keys: Seq<ValueRefView>,
    meaning: Meaning,
    database: Database,
    prior: Row,
    k: int,
)
    requires
        alias != Alias::Prior,
    ensures
        row_joins(
            Rows { relation, alias, condition: key_clauses(alias, keys, Alias::Prior, meaning) },
            database,
            prior,
            k,
        ) <==> holds_keys(database, relation, k, keys, prior, meaning),
{
    let clauses = key_clauses(alias, keys, Alias::Prior, meaning);
    if 0 <= k < database(relation).len() {
        let row = database(relation)[k];
        let env = two_rows(Alias::Prior, prior, row);
        assert forall|i: int| 0 <= i < keys.len() implies (clause_holds(
            #[trigger] clauses[i],
            env,
        ) <==> row(Name::C(i as nat)) == ref_value(keys[i], prior, meaning)) by {
            assert(scalar_value(ref_scalar(keys[i], Alias::Prior, meaning), env) == ref_value(
                keys[i],
                prior,
                meaning,
            ));
        }
        if condition_holds(clauses, env) {
            assert forall|i: int| 0 <= i < keys.len() implies row(Name::C(i as nat)) == ref_value(
                #[trigger] keys[i],
                prior,
                meaning,
            ) by {
                assert(clause_holds(clauses[i], env));
            }
        }
        if holds_keys(database, relation, k, keys, prior, meaning) {
            assert forall|i: int| 0 <= i < clauses.len() implies clause_holds(
                #[trigger] clauses[i],
                env,
            ) by {
                if keys.len() > 0 {
                    assert(row(Name::C(i as nat)) == ref_value(keys[i], prior, meaning));
                }
            }
        }
    }
}

/// The text up to a joined column.
proof fn lemma_joined_column(text: Seq<char>, number: Seq<char>)
    ensures
        text + " AS\n                     SELECT prior.*,\n                            existing.c"@ + number == text + " AS\n                     SELECT prior.*,\n                            "@ + ("existing"@ + ".c"@ + number),
{
    reveal_strlit(" AS\n                     SELECT prior.*,\n                            existing.c");
    reveal_strlit(" AS\n                     SELECT prior.*,\n                            ");
    reveal_strlit("existing");
    reveal_strlit(".c");
    assert(text + " AS\n                     SELECT prior.*,\n                            existing.c"@ + number =~= text + " AS\n                     SELECT prior.*,\n                            "@ + ("existing"@ + ".c"@ + number));
}

/// The text between a joined relation and its condition.
proof fn lemma_joined_alias(text: Seq<char>)
    ensures
        text + " AS existing ON "@ == text + " AS "@ + "existing"@ + " ON "@,
{
    reveal_strlit(" AS existing ON ");
    reveal_strlit(" AS ");
    reveal_strlit("existing");
    reveal_strlit(" ON ");
    assert(text + " AS existing ON "@ =~= text + " AS "@ + "existing"@ + " ON "@);
}

/// The text up to the first column of a choice.
proof fn lemma_choice_column(text: Seq<char>, number: Seq<char>)
    ensures
        text + " AS prior\n                     JOIN LATERAL (\n                         SELECT alternatives.__value\n                         FROM (\n                             SELECT existing.c"@ + number == text + " AS prior\n                     JOIN LATERAL (\n                         SELECT alternatives.__value\n                         FROM (\n                             SELECT "@ + ("existing"@ + ".c"@ + number),
{
    reveal_strlit(" AS prior\n                     JOIN LATERAL (\n                         SELECT alternatives.__value\n                         FROM (\n                             SELECT existing.c");
    reveal_strlit(" AS prior\n                     JOIN LATERAL (\n                         SELECT alternatives.__value\n                         FROM (\n                             SELECT ");
    reveal_strlit("existing");
    reveal_strlit(".c");
    assert(text + " AS prior\n                     JOIN LATERAL (\n                         SELECT alternatives.__value\n                         FROM (\n                             SELECT existing.c"@ + number =~= text + " AS prior\n                     JOIN LATERAL (\n                         SELECT alternatives.__value\n                         FROM (\n                             SELECT "@ + ("existing"@ + ".c"@ + number));
}

/// The text behind the first value of a choice.
proof fn lemma_first_rank(text: Seq<char>)
    ensures
        text + " AS __value,\n                                    CAST('0' AS UTINYINT) AS __source\n                             FROM "@ == text + " AS __value,\n                                    CAST('"@ + "0"@ + "' AS UTINYINT) AS __source"@ + "\n                             FROM "@,
{
    reveal_strlit(" AS __value,\n                                    CAST('0' AS UTINYINT) AS __source\n                             FROM ");
    reveal_strlit(" AS __value,\n                                    CAST('");
    reveal_strlit("0");
    reveal_strlit("' AS UTINYINT) AS __source");
    reveal_strlit("\n                             FROM ");
    assert(text + " AS __value,\n                                    CAST('0' AS UTINYINT) AS __source\n                             FROM "@ =~= text + " AS __value,\n                                    CAST('"@ + "0"@ + "' AS UTINYINT) AS __source"@ + "\n                             FROM "@);
}

/// The text behind the second value of a choice.
proof fn lemma_second_rank(text: Seq<char>)
    ensures
        text + " AS __value,\n                                    CAST('1' AS UTINYINT) AS __source\n                             FROM "@ == text + " AS __value,\n                                    CAST('"@ + "1"@ + "' AS UTINYINT) AS __source"@ + "\n                             FROM "@,
{
    reveal_strlit(" AS __value,\n                                    CAST('1' AS UTINYINT) AS __source\n                             FROM ");
    reveal_strlit(" AS __value,\n                                    CAST('");
    reveal_strlit("1");
    reveal_strlit("' AS UTINYINT) AS __source");
    reveal_strlit("\n                             FROM ");
    assert(text + " AS __value,\n                                    CAST('1' AS UTINYINT) AS __source\n                             FROM "@ =~= text + " AS __value,\n                                    CAST('"@ + "1"@ + "' AS UTINYINT) AS __source"@ + "\n                             FROM "@);
}

/// The text between a durable relation and its condition.
proof fn lemma_existing_where(text: Seq<char>)
    ensures
        text + " AS existing\n                             WHERE "@ == text + " AS "@ + "existing"@ + "\n                             WHERE "@,
{
    reveal_strlit(" AS existing\n                             WHERE ");
    reveal_strlit(" AS ");
    reveal_strlit("existing");
    reveal_strlit("\n                             WHERE ");
    assert(text + " AS existing\n                             WHERE "@ =~= text + " AS "@ + "existing"@ + "\n                             WHERE "@);
}

/// The text between a predicted relation and its condition.
proof fn lemma_predicted_where(text: Seq<char>)
    ensures
        text + " AS predicted\n                             WHERE "@ == text + " AS "@ + "predicted"@ + "\n                             WHERE "@,
{
    reveal_strlit(" AS predicted\n                             WHERE ");
    reveal_strlit(" AS ");
    reveal_strlit("predicted");
    reveal_strlit("\n                             WHERE ");
    assert(text + " AS predicted\n                             WHERE "@ =~= text + " AS "@ + "predicted"@ + "\n                             WHERE "@);
}

/// The text up to the second column of a choice.
proof fn lemma_predicted_column(text: Seq<char>, number: Seq<char>)
    ensures
        text + "\n                             UNION ALL\n                             SELECT predicted.c"@ + number == text + "\n                             UNION ALL\n                             SELECT "@ + ("predicted"@ + ".c"@ + number),
{
    reveal_strlit("\n                             UNION ALL\n                             SELECT predicted.c");
    reveal_strlit("\n                             UNION ALL\n                             SELECT ");
    reveal_strlit("predicted");
    reveal_strlit(".c");
    assert(text + "\n                             UNION ALL\n                             SELECT predicted.c"@ + number =~= text + "\n                             UNION ALL\n                             SELECT "@ + ("predicted"@ + ".c"@ + number));
}

/// The end of a choice between rows.
proof fn lemma_choice_end(text: Seq<char>)
    ensures
        text + "\n                         ) AS alternatives\n                         ORDER BY alternatives.__source\n                         LIMIT 1\n                     ) AS choice ON TRUE"@ == text + "\n                         ) AS alternatives\n                         ORDER BY alternatives.__source"@ + "\n                         LIMIT 1\n                     ) AS choice ON TRUE"@,
{
    reveal_strlit("\n                         ) AS alternatives\n                         ORDER BY alternatives.__source\n                         LIMIT 1\n                     ) AS choice ON TRUE");
    reveal_strlit("\n                         ) AS alternatives\n                         ORDER BY alternatives.__source");
    reveal_strlit("\n                         LIMIT 1\n                     ) AS choice ON TRUE");
    assert(text + "\n                         ) AS alternatives\n                         ORDER BY alternatives.__source\n                         LIMIT 1\n                     ) AS choice ON TRUE"@ =~= text + "\n                         ) AS alternatives\n                         ORDER BY alternatives.__source"@ + "\n                         LIMIT 1\n                     ) AS choice ON TRUE"@);
}

/// The end of a choice whose second value stands alone.
proof fn lemma_fallback_end(text: Seq<char>)
    ensures
        text + " AS __value,\n                                    CAST('1' AS UTINYINT) AS __source\n                         ) AS alternatives\n                         ORDER BY alternatives.__source\n                         LIMIT 1\n                     ) AS choice ON TRUE"@ == text + " AS __value,\n                                    CAST('"@ + "1"@ + "' AS UTINYINT) AS __source"@ + "\n                         ) AS alternatives\n                         ORDER BY alternatives.__source"@ + "\n                         LIMIT 1\n                     ) AS choice ON TRUE"@,
{
    reveal_strlit(" AS __value,\n                                    CAST('1' AS UTINYINT) AS __source\n                         ) AS alternatives\n                         ORDER BY alternatives.__source\n                         LIMIT 1\n                     ) AS choice ON TRUE");
    reveal_strlit(" AS __value,\n                                    CAST('");
    reveal_strlit("1");
    reveal_strlit("' AS UTINYINT) AS __source");
    reveal_strlit("\n                         ) AS alternatives\n                         ORDER BY alternatives.__source");
    reveal_strlit("\n                         LIMIT 1\n                     ) AS choice ON TRUE");
    assert(text + " AS __value,\n                                    CAST('1' AS UTINYINT) AS __source\n                         ) AS alternatives\n                         ORDER BY alternatives.__source\n                         LIMIT 1\n                     ) AS choice ON TRUE"@ =~= text + " AS __value,\n                                    CAST('"@ + "1"@ + "' AS UTINYINT) AS __source"@ + "\n                         ) AS alternatives\n                         ORDER BY alternatives.__source"@ + "\n                         LIMIT 1\n                     ) AS choice ON TRUE"@);
}

proof fn lemma_ranks()
    ensures
        decimal(0) == "0"@,
        decimal(1) == "1"@,
{
    reveal_strlit("0");
    reveal_strlit("1");
    assert(decimal(0) =~= "0"@);
    assert(decimal(1) =~= "1"@);
}

/// The statement of a result, taken apart.
pub open spec fn slot_extension(
    slot: SlotView,
    input_stage: Seq<char>,
    output_stage: Seq<char>,
    slot_index: nat,
    first_fresh: nat,
    match_count: nat,
    ledger: Seq<char>,
    meaning: Meaning,
    forms: spec_fn(Seq<SqlPieceView>, Seq<Datum>) -> Datum,
) -> Extension {
    let added = match slot.source {
        SlotSourceView::Fresh { rank } => Added::Number {
            first: first_fresh,
            rank: rank as nat,
            count: match_count,
        },
        SlotSourceView::Expression { expression, inputs } => Added::Value(
            Scalar::Form {
                pieces: expression.value,
                inputs: inputs.map_values(|v: ValueRefView| ref_scalar(v, Alias::Prior, meaning)),
                apply: |values: Seq<Datum>| forms(expression.value, values),
            },
        ),
        SlotSourceView::Read(ReadView::Table { target, result_column, keys, .. }) => Added::Joined {
            column: result_column as nat,
            rows: Rows {
                relation: table_text(target),
                alias: Alias::Existing,
                condition: key_clauses(Alias::Existing, keys, Alias::Prior, meaning),
            },
        },
        SlotSourceView::Read(ReadView::SetIfEmpty { target, n_keys, keys, .. }) => Added::Choice {
            left: owner_alternative(table_text(target), n_keys as nat, keys, meaning),
            right: Alternative {
                value: Scalar::Column(Alias::Predicted, Name::C(n_keys as nat)),
                rank: 1,
                rows: Some(
                    Rows {
                        relation: ledger,
                        alias: Alias::Predicted,
                        condition: key_clauses(Alias::Predicted, keys, Alias::Prior, meaning),
                    },
                ),
            },
            descending: false,
        },
        SlotSourceView::Read(
            ReadView::ViewColumn { target, result_column, keys, fallback, .. },
        ) => Added::Choice {
            left: owner_alternative(table_text(target), result_column as nat, keys, meaning),
            right: Alternative {
                value: ref_scalar(fallback, Alias::Prior, meaning),
                rank: 1,
                rows: None,
            },
            descending: false,
        },
    };
    Extension { output: output_stage, input: input_stage, slot: slot_index, added }
}

/// A column of the durable rows under the keys, which comes first.
pub open spec fn owner_alternative(
    relation: Seq<char>,
    column: nat,
    keys: Seq<ValueRefView>,
    meaning: Meaning,
) -> Alternative {
    Alternative {
        value: Scalar::Column(Alias::Existing, Name::C(column)),
        rank: 0,
        rows: Some(
            Rows {
                relation,
                alias: Alias::Existing,
                condition: key_clauses(Alias::Existing, keys, Alias::Prior, meaning),
            },
        ),
    }
}

proof fn lemma_owner_alternative_sql(
    opened: Seq<char>,
    target: Seq<char>,
    column: nat,
    keys: Seq<ValueRefView>,
    meaning: Meaning,
)
    ensures
        alternative_sql(opened + " AS prior\n                     JOIN LATERAL (\n                         SELECT alternatives.__value\n                         FROM (\n                             SELECT "@, owner_alternative(target, column, keys, meaning)) == opened
            + " AS prior\n                     JOIN LATERAL (\n                         SELECT alternatives.__value\n                         FROM (\n                             SELECT existing.c"@ + decimal(column) + " AS __value,\n                                    CAST('0' AS UTINYINT) AS __source\n                             FROM "@ + target + " AS existing\n                             WHERE "@ + key_match_text(
            "existing"@,
            keys,
            keys.len(),
            "prior"@,
        ),
{
    lemma_ranks();
    lemma_choice_column(opened, decimal(column));
    let valued = opened + " AS prior\n                     JOIN LATERAL (\n                         SELECT alternatives.__value\n                         FROM (\n                             SELECT existing.c"@ + decimal(column);
    lemma_first_rank(valued);
    lemma_existing_where(valued + " AS __value,\n                                    CAST('0' AS UTINYINT) AS __source\n                             FROM "@ + target);
    lemma_key_clauses_sql(Alias::Existing, keys, Alias::Prior, meaning);
}

/// The statement of a result is written as it was taken apart.
proof fn lemma_slot_sql(
    slot: SlotView,
    input_stage: Seq<char>,
    output_stage: Seq<char>,
    slot_index: nat,
    first_fresh: u64,
    match_count: u64,
    ledger: Seq<char>,
    meaning: Meaning,
    forms: spec_fn(Seq<SqlPieceView>, Seq<Datum>) -> Datum,
)
    requires
        keys_complete(slot),
    ensures
        slot_sql(
            slot,
            input_stage,
            output_stage,
            slot_index,
            first_fresh,
            match_count,
            ledger,
        ) == extension_sql(
            slot_extension(
                slot,
                input_stage,
                output_stage,
                slot_index,
                first_fresh as nat,
                match_count as nat,
                ledger,
                meaning,
                forms,
            ),
        ),
{
    let create = "CREATE TEMP TABLE "@ + output_stage;
    lemma_ranks();
    match slot.source {
        SlotSourceView::Fresh { .. } => {},
        SlotSourceView::Expression { inputs, .. } => {
            lemma_refs_sql(inputs, Alias::Prior, meaning, inputs.len());
            assert(ref_texts(inputs, "prior"@).take(inputs.len() as int) =~= ref_texts(
                inputs,
                "prior"@,
            ));
        },
        SlotSourceView::Read(ReadView::Table { target, result_column, keys, .. }) => {
            lemma_joined_column(create, decimal(result_column as nat));
            let joined = create + " AS\n                     SELECT prior.*,\n                            existing.c"@ + decimal(result_column as nat) + " AS s"@ + decimal(
                slot_index,
            ) + "\n                     FROM "@ + input_stage
                + " AS prior\n                     JOIN "@ + table_text(target);
            lemma_joined_alias(joined);
            lemma_key_clauses_sql(Alias::Existing, keys, Alias::Prior, meaning);
        },
        SlotSourceView::Read(ReadView::SetIfEmpty { target, n_keys, keys, .. }) => {
            let opened = create
                + " AS\n                     SELECT prior.*,\n                            choice.__value AS s"@
                + decimal(slot_index) + "\n                     FROM "@ + input_stage;
            lemma_owner_alternative_sql(opened, table_text(target), n_keys as nat, keys, meaning);
            let left = opened + " AS prior\n                     JOIN LATERAL (\n                         SELECT alternatives.__value\n                         FROM (\n                             SELECT existing.c"@ + decimal(n_keys as nat) + " AS __value,\n                                    CAST('0' AS UTINYINT) AS __source\n                             FROM "@ + table_text(target) + " AS existing\n                             WHERE "@
                + key_match_text("existing"@, keys, n_keys as nat, "prior"@);
            lemma_predicted_column(left, decimal(n_keys as nat));
            let valued = left + "\n                             UNION ALL\n                             SELECT predicted.c"@ + decimal(n_keys as nat);
            lemma_second_rank(valued);
            let predicted = valued + " AS __value,\n                                    CAST('1' AS UTINYINT) AS __source\n                             FROM "@ + ledger;
            lemma_predicted_where(predicted);
            lemma_key_clauses_sql(Alias::Predicted, keys, Alias::Prior, meaning);
            lemma_choice_end(
                predicted + " AS predicted\n                             WHERE "@ + key_match_text("predicted"@, keys, n_keys as nat, "prior"@),
            );
        },
        SlotSourceView::Read(
            ReadView::ViewColumn { target, n_keys, result_column, keys, fallback },
        ) => {
            let opened = create
                + " AS\n                     SELECT prior.*,\n                            choice.__value AS s"@
                + decimal(slot_index) + "\n                     FROM "@ + input_stage;
            lemma_owner_alternative_sql(
                opened,
                table_text(target),
                result_column as nat,
                keys,
                meaning,
            );
            let left = opened + " AS prior\n                     JOIN LATERAL (\n                         SELECT alternatives.__value\n                         FROM (\n                             SELECT existing.c"@ + decimal(result_column as nat) + " AS __value,\n                                    CAST('0' AS UTINYINT) AS __source\n                             FROM "@ + table_text(target) + " AS existing\n                             WHERE "@
                + key_match_text("existing"@, keys, n_keys as nat, "prior"@);
            lemma_ref_sql(fallback, Alias::Prior, meaning);
            lemma_fallback_end(left + "\n                             UNION ALL\n                             SELECT "@ + ref_text(fallback, "prior"@));
        },
    }
}

/// The values of planned inputs.
pub proof fn lemma_inputs_value(
    inputs: Seq<ValueRefView>,
    meaning: Meaning,
    prior: Row,
    env: Env,
    count: nat,
)
    requires
        env(Alias::Prior) == prior,
        count <= inputs.len(),
    ensures
        scalar_values(
            inputs.map_values(|v: ValueRefView| ref_scalar(v, Alias::Prior, meaning)),
            count,
            env,
        ) == Seq::new(count, |i: int| ref_value(inputs[i], prior, meaning)),
    decreases count,
{
    let scalars = inputs.map_values(|v: ValueRefView| ref_scalar(v, Alias::Prior, meaning));
    if count > 0 {
        lemma_inputs_value(inputs, meaning, prior, env, (count - 1) as nat);
        assert(scalar_value(scalars[count - 1], env) == ref_value(
            inputs[count - 1],
            prior,
            meaning,
        ));
        assert(scalar_values(scalars, count, env) == scalar_values(
            scalars,
            (count - 1) as nat,
            env,
        ).push(ref_value(inputs[count - 1], prior, meaning)));
    }
    assert(scalar_values(scalars, count, env) =~= Seq::new(
        count,
        |i: int| ref_value(inputs[i], prior, meaning),
    ));
}

/// The rows that join are the rows that hold the keys.
proof fn lemma_rows_found(
    alias: Alias,
    relation: Seq<char>,
    keys: Seq<ValueRefView>,
    column: nat,
    meaning: Meaning,
    database: Database,
    prior: Row,
    value: Datum,
    rank: nat,
)
    requires
        alias != Alias::Prior,
    ensures
        ({
            let rows = Rows {
                relation,
                alias,
                condition: key_clauses(alias, keys, Alias::Prior, meaning),
            };
            let alternative = Alternative {
                value: Scalar::Column(alias, Name::C(column)),
                rank,
                rows: Some(rows),
            };
            &&& offers(alternative, database, prior, value) <==> found(
                database,
                relation,
                keys,
                column,
                prior,
                meaning,
                value,
            )
            &&& (exists|k: int| #[trigger]
                row_joins(rows, database, prior, k) && value == database(relation)[k](
                    Name::C(column),
                )) <==> found(database, relation, keys, column, prior, meaning, value)
            &&& (exists|v: Datum| #[trigger] offers(alternative, database, prior, v)) <==> has_owner(
                database,
                relation,
                keys,
                prior,
                meaning,
            )
        }),
{
    let rows = Rows {
        relation,
        alias,
        condition: key_clauses(alias, keys, Alias::Prior, meaning),
    };
    let alternative = Alternative {
        value: Scalar::Column(alias, Name::C(column)),
        rank,
        rows: Some(rows),
    };
    assert forall|k: int| #[trigger]
        row_joins(rows, database, prior, k) <==> holds_keys(
            database,
            relation,
            k,
            keys,
            prior,
            meaning,
        ) by {
        lemma_key_clauses_hold(alias, relation, keys, meaning, database, prior, k);
    }
    assert forall|k: int| #[trigger]
        holds_keys(database, relation, k, keys, prior, meaning) implies row_joins(
        rows,
        database,
        prior,
        k,
    ) by {
        lemma_key_clauses_hold(alias, relation, keys, meaning, database, prior, k);
    }
    if found(database, relation, keys, column, prior, meaning, value) {
        let k = choose|k: int| #[trigger]
            holds_keys(database, relation, k, keys, prior, meaning) && value == database(
                relation,
            )[k](Name::C(column));
        assert(row_joins(rows, database, prior, k));
    }
    if has_owner(database, relation, keys, prior, meaning) {
        let k = choose|k: int| #[trigger]
            holds_keys(database, relation, k, keys, prior, meaning);
        assert(row_joins(rows, database, prior, k));
        let v = database(relation)[k](Name::C(column));
        assert(offers(alternative, database, prior, v));
    }
    if exists|v: Datum| #[trigger] offers(alternative, database, prior, v) {
        let v = choose|v: Datum| #[trigger] offers(alternative, database, prior, v);
        let k = choose|k: int| #[trigger]
            row_joins(rows, database, prior, k) && v == scalar_value(
                alternative.value,
                two_rows(Alias::Prior, prior, database(rows.relation)[k]),
            );
        assert(holds_keys(database, relation, k, keys, prior, meaning));
    }
}

/// The statement of a result is SQL that extends each match by exactly the value
/// that the result is for: in particular a durable row under the keys always
/// comes before a predicted one and before a fallback.
pub proof fn law_slot_statements_mean_their_results(
    slot: SlotView,
    input_stage: Seq<char>,
    output_stage: Seq<char>,
    slot_index: nat,
    first_fresh: u64,
    match_count: u64,
    ledger: Seq<char>,
    meaning: Meaning,
    forms: spec_fn(Seq<SqlPieceView>, Seq<Datum>) -> Datum,
    database: Database,
    matched: Row,
    value: Datum,
)
    requires
        keys_complete(slot),
    ensures
        ({
            let statement = slot_extension(
                slot,
                input_stage,
                output_stage,
                slot_index,
                first_fresh as nat,
                match_count as nat,
                ledger,
                meaning,
                forms,
            );
            &&& slot_sql(
                slot,
                input_stage,
                output_stage,
                slot_index,
                first_fresh,
                match_count,
                ledger,
            ) == extension_sql(statement)
            &&& statement.input == input_stage
            &&& statement.output == output_stage
            &&& statement.slot == slot_index
            &&& extends(statement, database, matched, value) <==> slot_outcome(
                slot,
                first_fresh as nat,
                match_count as nat,
                ledger,
                database,
                matched,
                meaning,
                forms,
                value,
            )
        }),
{
    lemma_slot_sql(
        slot,
        input_stage,
        output_stage,
        slot_index,
        first_fresh,
        match_count,
        ledger,
        meaning,
        forms,
    );
    let env = two_rows(Alias::Prior, matched, matched);
    match slot.source {
        SlotSourceView::Fresh { .. } => {},
        SlotSourceView::Expression { inputs, .. } => {
            lemma_inputs_value(inputs, meaning, matched, env, inputs.len());
        },
        SlotSourceView::Read(ReadView::Table { target, result_column, keys, .. }) => {
            lemma_rows_found(
                Alias::Existing,
                table_text(target),
                keys,
                result_column as nat,
                meaning,
                database,
                matched,
                value,
                0,
            );
        },
        SlotSourceView::Read(ReadView::SetIfEmpty { target, n_keys, keys, .. }) => {
            lemma_rows_found(
                Alias::Existing,
                table_text(target),
                keys,
                n_keys as nat,
                meaning,
                database,
                matched,
                value,
                0,
            );
            lemma_rows_found(
                Alias::Predicted,
                ledger,
                keys,
                n_keys as nat,
                meaning,
                database,
                matched,
                value,
                1,
            );
        },
        SlotSourceView::Read(ReadView::ViewColumn { target, result_column, keys, fallback, .. }) => {
            lemma_rows_found(
                Alias::Existing,
                table_text(target),
                keys,
                result_column as nat,
                meaning,
                database,
                matched,
                value,
                0,
            );
            let right = Alternative {
                value: ref_scalar(fallback, Alias::Prior, meaning),
                rank: 1,
                rows: None,
            };
            assert(offers(right, database, matched, ref_value(fallback, matched, meaning)));
        },
    }
}

} // verus!
