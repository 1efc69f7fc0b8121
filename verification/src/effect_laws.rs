//! What the statements of a plan's effects mean: which rows they write, which
//! candidate of a set-if-empty wins, and what is checked before a result is read.

use vstd::prelude::*;

#[allow(unused_imports)]
use crate::action_plan::{
    aliased, effect_sql, event_text, key_match_text, partition_text, prediction_effect_sql,
    preflight_sql, ref_texts, row_match_text, row_tests, winner_columns, winner_sql, EffectView,
    ReadView, SlotSourceView, SlotView, ValueRefView,
};
#[allow(unused_imports)]
use crate::catalog::table_text;
#[allow(unused_imports)]
use crate::scalar_expr::SqlPieceView;
#[allow(unused_imports)]
use crate::slot_laws::{
    has_owner, holds_keys, key_clauses, keys_complete, lemma_inputs_value, lemma_key_clauses_hold,
    lemma_key_clauses_sql, lemma_ref_sql, lemma_refs_sql, row_joins, Rows,
};
#[allow(unused_imports)]
use crate::sql::{
    alias_sql, clause_holds, clauses_sql, column_sql, condition_holds, condition_sql, ref_scalar,
    ref_value, scalar_sql, scalar_value, test_holds, test_sql, two_rows, Alias, Clause, Database,
    Datum, Meaning, Name, Row, Scalar, Test,
};
#[allow(unused_imports)]
use crate::text::{decimal, join};

verus! {

// ---------------------------------------------------------------------------
// Effect rows.

/// A statement that writes one row for each head row under a condition.
pub struct Writing {
    pub output: Seq<char>,
    pub columns: Seq<Scalar>,
    /// The ordinal of the first head row.
    pub first: nat,
    pub input: Seq<char>,
    pub condition: Test,
}

/// Expressions named by position, as they are written.
pub open spec fn named_sql(columns: Seq<Scalar>) -> Seq<Seq<char>> {
    Seq::new(
        columns.len(),
        |i: int| scalar_sql(columns[i]) + " AS "@ + "c"@ + decimal(i as nat),
    )
}

/// A writing statement as it is written.
pub open spec fn writing_sql(writing: Writing) -> Seq<char> {
    let ordinal = column_sql(alias_sql(Alias::Head), Name::MatchOrdinal);
    "CREATE TEMP TABLE "@ + writing.output + " AS\n             SELECT "@ + join(
        named_sql(writing.columns).push(
            "CAST('"@ + decimal(writing.first) + "' AS UBIGINT) + "@ + ordinal
                + " - 1 AS __ordinal"@,
        ),
        ", "@,
    ) + "\n             FROM "@ + writing.input + " AS "@ + alias_sql(Alias::Head)
        + "\n             WHERE "@ + test_sql(writing.condition) + "\n             ORDER BY "@
        + ordinal
}

/// A statement writes a row for a head row.
pub open spec fn writes(writing: Writing, head: Row, written: Row) -> bool {
    let env = two_rows(Alias::Head, head, head);
    &&& test_holds(writing.condition, env)
    &&& forall|i: int|
        0 <= i < writing.columns.len() ==> written(Name::C(i as nat)) == scalar_value(
            #[trigger] writing.columns[i],
            env,
        )
    &&& match head(Name::MatchOrdinal) {
        Datum::Number(ordinal) => written(Name::Ordinal) == Datum::Number(
            writing.first + ordinal - 1,
        ),
        _ => false,
    }
}

/// The row of an effect for one head row: the arguments, the values behind them,
/// and the ordinal, counted on from the first event in match order. A conditional
/// effect has a row only where its condition is missing.
pub open spec fn effect_outcome(
    effect: EffectView,
    first_event: nat,
    head: Row,
    meaning: Meaning,
    written: Row,
) -> bool {
    let n = effect.arguments.len();
    &&& effect.condition_slot matches Some(slot) ==> head(Name::Missing(slot as nat))
        == Datum::Truth(true)
    &&& forall|i: nat|
        i < n ==> #[trigger] written(Name::C(i)) == ref_value(
            effect.arguments[i as int],
            head,
            meaning,
        )
    &&& forall|i: nat|
        n <= i < n + effect.values.len() ==> #[trigger] written(Name::C(i)) == ref_value(
            effect.values[i - n],
            head,
            meaning,
        )
    &&& match head(Name::MatchOrdinal) {
        Datum::Number(ordinal) => written(Name::Ordinal) == Datum::Number(
            first_event + ordinal - 1,
        ),
        _ => false,
    }
}

/// The statement of an effect, taken apart.
pub open spec fn effect_writing(
    effect: EffectView,
    head_stage: Seq<char>,
    effect_stage: Seq<char>,
    first_event: nat,
    meaning: Meaning,
) -> Writing {
    Writing {
        output: effect_stage,
        columns: (effect.arguments + effect.values).map_values(
            |v: ValueRefView| ref_scalar(v, Alias::Head, meaning),
        ),
        first: first_event,
        input: head_stage,
        condition: match effect.condition_slot {
            Some(slot) => Test::Flagged(Scalar::Column(Alias::Head, Name::Missing(slot as nat))),
            None => Test::True,
        },
    }
}

/// The ordinal of a written row.
proof fn lemma_ordinal(number: Seq<char>)
    ensures
        "CAST('"@ + number + "' AS UBIGINT) + head.__match_ordinal - 1 AS __ordinal"@ == "CAST('"@ + number + "' AS UBIGINT) + "@ + ("head"@ + ".__match_ordinal"@) + " - 1 AS __ordinal"@,
{
    reveal_strlit("CAST('");
    reveal_strlit("' AS UBIGINT) + head.__match_ordinal - 1 AS __ordinal");
    reveal_strlit("' AS UBIGINT) + ");
    reveal_strlit("head");
    reveal_strlit(".__match_ordinal");
    reveal_strlit(" - 1 AS __ordinal");
    assert("CAST('"@ + number + "' AS UBIGINT) + head.__match_ordinal - 1 AS __ordinal"@ =~= "CAST('"@ + number + "' AS UBIGINT) + "@ + ("head"@ + ".__match_ordinal"@) + " - 1 AS __ordinal"@);
}

/// The alias of the head rows.
proof fn lemma_head_alias(text: Seq<char>)
    ensures
        text + " AS head\n             WHERE "@ == text + " AS "@ + "head"@ + "\n             WHERE "@,
{
    reveal_strlit(" AS head\n             WHERE ");
    reveal_strlit(" AS ");
    reveal_strlit("head");
    reveal_strlit("\n             WHERE ");
    assert(text + " AS head\n             WHERE "@ =~= text + " AS "@ + "head"@ + "\n             WHERE "@);
}

/// The order of the written rows.
proof fn lemma_head_order(text: Seq<char>)
    ensures
        text + "\n             ORDER BY head.__match_ordinal"@ == text + "\n             ORDER BY "@ + ("head"@ + ".__match_ordinal"@),
{
    reveal_strlit("\n             ORDER BY head.__match_ordinal");
    reveal_strlit("\n             ORDER BY ");
    reveal_strlit("head");
    reveal_strlit(".__match_ordinal");
    assert(text + "\n             ORDER BY head.__match_ordinal"@ =~= text + "\n             ORDER BY "@ + ("head"@ + ".__match_ordinal"@));
}

/// The flag of a missing result.
proof fn lemma_missing(number: Seq<char>)
    ensures
        "head.__missing_s"@ + number == "head"@ + ".__missing_s"@ + number,
{
    reveal_strlit("head.__missing_s");
    reveal_strlit("head");
    reveal_strlit(".__missing_s");
    assert("head.__missing_s"@ + number =~= "head"@ + ".__missing_s"@ + number);
}

proof fn lemma_named(values: Seq<ValueRefView>, alias: Alias, meaning: Meaning)
    ensures
        named_sql(values.map_values(|v: ValueRefView| ref_scalar(v, alias, meaning))) == aliased(
            ref_texts(values, alias_sql(alias)),
            "c"@,
        ),
{
    let columns = values.map_values(|v: ValueRefView| ref_scalar(v, alias, meaning));
    assert forall|i: int| 0 <= i < values.len() implies named_sql(columns)[i] == aliased(
        ref_texts(values, alias_sql(alias)),
        "c"@,
    )[i] by {
        lemma_ref_sql(values[i], alias, meaning);
    }
    assert(named_sql(columns) =~= aliased(ref_texts(values, alias_sql(alias)), "c"@));
}

/// The statement of an effect is SQL that writes exactly the effect's row for each
/// head row: its arguments, then its values, numbered in match order, and under a
/// condition only where the condition's result is missing.
pub proof fn law_effect_statements_write_their_rows(
    effect: EffectView,
    head_stage: Seq<char>,
    effect_stage: Seq<char>,
    first_event: u64,
    meaning: Meaning,
    head: Row,
    written: Row,
)
    ensures
        ({
            let statement = effect_writing(
                effect,
                head_stage,
                effect_stage,
                first_event as nat,
                meaning,
            );
            &&& effect_sql(effect, head_stage, effect_stage, first_event) == writing_sql(statement)
            &&& writes(statement, head, written) <==> effect_outcome(
                effect,
                first_event as nat,
                head,
                meaning,
                written,
            )
        }),
{
    let statement = effect_writing(effect, head_stage, effect_stage, first_event as nat, meaning);
    let values = effect.arguments + effect.values;
    lemma_named(values, Alias::Head, meaning);
    lemma_ordinal(decimal(first_event as nat));
    let t1 = "CREATE TEMP TABLE "@ + effect_stage + " AS\n             SELECT "@ + join(
        named_sql(statement.columns).push(
            "CAST('"@ + decimal(first_event as nat)
                + "' AS UBIGINT) + head.__match_ordinal - 1 AS __ordinal"@,
        ),
        ", "@,
    ) + "\n             FROM "@ + head_stage;
    lemma_head_alias(t1);
    let condition = test_sql(statement.condition);
    match effect.condition_slot {
        Some(slot) => lemma_missing(decimal(slot as nat)),
        None => {},
    }
    lemma_head_order(t1 + " AS head\n             WHERE "@ + condition);
    let env = two_rows(Alias::Head, head, head);
    assert forall|i: int| 0 <= i < values.len() implies scalar_value(
        #[trigger] statement.columns[i],
        env,
    ) == ref_value(values[i], head, meaning) by {}
    let n = effect.arguments.len();
    if writes(statement, head, written) {
        assert forall|i: nat| i < n implies #[trigger] written(Name::C(i)) == ref_value(
            effect.arguments[i as int],
            head,
            meaning,
        ) by {
            assert(values[i as int] == effect.arguments[i as int]);
            assert(written(Name::C(i)) == scalar_value(statement.columns[i as int], env));
        }
        assert forall|i: nat| n <= i < n + effect.values.len() implies #[trigger] written(
            Name::C(i),
        ) == ref_value(effect.values[i - n], head, meaning) by {
            assert(values[i as int] == effect.values[i - n]);
            assert(written(Name::C(i)) == scalar_value(statement.columns[i as int], env));
        }
    }
    if effect_outcome(effect, first_event as nat, head, meaning, written) {
        assert forall|i: int| 0 <= i < statement.columns.len() implies written(Name::C(i as nat))
            == scalar_value(#[trigger] statement.columns[i], env) by {
            assert(written(Name::C(i as nat)) == written(Name::C(i as nat)));
            if i < n {
                assert(values[i] == effect.arguments[i]);
            } else {
                assert(values[i] == effect.values[i - n]);
            }
        }
    }
}

// ---------------------------------------------------------------------------
// Winners.

/// A statement that writes the rows of the winners, by event.
pub struct Prediction {
    pub output: Seq<char>,
    pub columns: Seq<Scalar>,
    pub ordinal: Scalar,
    pub input: Seq<char>,
}

/// A prediction as it is written.
pub open spec fn prediction_sql(prediction: Prediction) -> Seq<char> {
    "CREATE TEMP TABLE "@ + prediction.output + " AS\n             SELECT "@ + join(
        prediction.columns.map_values(|s: Scalar| scalar_sql(s)).push(
            scalar_sql(prediction.ordinal) + " AS __ordinal"@,
        ),
        ", "@,
    ) + "\n             FROM "@ + prediction.input + " AS "@ + alias_sql(Alias::Winner)
        + "\n             ORDER BY "@ + scalar_sql(prediction.ordinal)
}

/// The columns of an unnamed expression keep their names.
pub open spec fn kept_name(scalar: Scalar) -> Name {
    match scalar {
        Scalar::Column(_, name) => name,
        _ => arbitrary(),
    }
}

/// A prediction writes a row for a winner.
pub open spec fn predicts(prediction: Prediction, winner: Row, written: Row) -> bool {
    let env = two_rows(Alias::Winner, winner, winner);
    &&& forall|i: int|
        0 <= i < prediction.columns.len() ==> written(
            kept_name(#[trigger] prediction.columns[i]),
        ) == scalar_value(prediction.columns[i], env)
    &&& written(Name::Ordinal) == scalar_value(prediction.ordinal, env)
}

/// The statement that turns winners into effect rows, taken apart.
pub open spec fn effect_prediction(
    effect: EffectView,
    winner_stage: Seq<char>,
    effect_stage: Seq<char>,
) -> Prediction {
    Prediction {
        output: effect_stage,
        columns: Seq::new(
            effect.arity as nat,
            |i: int| Scalar::Column(Alias::Winner, Name::C(i as nat)),
        ),
        ordinal: Scalar::Column(Alias::Winner, Name::Event),
        input: winner_stage,
    }
}

/// A column of a winner.
proof fn lemma_winner_column(number: Seq<char>)
    ensures
        "winner.c"@ + number == "winner"@ + ".c"@ + number,
{
    reveal_strlit("winner.c");
    reveal_strlit("winner");
    reveal_strlit(".c");
    assert("winner.c"@ + number =~= "winner"@ + ".c"@ + number);
}

/// The ordinal of a winner's row.
proof fn lemma_winner_event()
    ensures
        "winner.__event AS __ordinal"@ == "winner"@ + ".__event"@ + " AS __ordinal"@,
{
    reveal_strlit("winner.__event AS __ordinal");
    reveal_strlit("winner");
    reveal_strlit(".__event");
    reveal_strlit(" AS __ordinal");
    assert("winner.__event AS __ordinal"@ =~= "winner"@ + ".__event"@ + " AS __ordinal"@);
}

/// The order of the winners.
proof fn lemma_winner_order(text: Seq<char>)
    ensures
        text + " AS winner\n             ORDER BY winner.__event"@ == text + " AS "@ + "winner"@ + "\n             ORDER BY "@ + ("winner"@ + ".__event"@),
{
    reveal_strlit(" AS winner\n             ORDER BY winner.__event");
    reveal_strlit(" AS ");
    reveal_strlit("winner");
    reveal_strlit("\n             ORDER BY ");
    reveal_strlit(".__event");
    assert(text + " AS winner\n             ORDER BY winner.__event"@ =~= text + " AS "@ + "winner"@ + "\n             ORDER BY "@ + ("winner"@ + ".__event"@));
}

/// The statement that turns winners into effect rows is SQL that writes each winner
/// as it is, with its event as the ordinal.
pub proof fn law_prediction_statements_write_the_winners(
    effect: EffectView,
    winner_stage: Seq<char>,
    effect_stage: Seq<char>,
    winner: Row,
    written: Row,
)
    ensures
        ({
            let statement = effect_prediction(effect, winner_stage, effect_stage);
            &&& prediction_effect_sql(effect, winner_stage, effect_stage) == prediction_sql(
                statement,
            )
            &&& predicts(statement, winner, written) <==> {
                &&& forall|i: nat|
                    i < effect.arity ==> #[trigger] written(Name::C(i)) == winner(Name::C(i))
                &&& written(Name::Ordinal) == winner(Name::Event)
            }
        }),
{
    let statement = effect_prediction(effect, winner_stage, effect_stage);
    let columns = statement.columns.map_values(|s: Scalar| scalar_sql(s));
    assert(columns =~= winner_columns(effect.arity as nat)) by {
        assert forall|i: int| 0 <= i < effect.arity implies columns[i] == winner_columns(
            effect.arity as nat,
        )[i] by {
            lemma_winner_column(decimal(i as nat));
        }
    }
    lemma_winner_event();
    lemma_winner_order(
        "CREATE TEMP TABLE "@ + effect_stage + " AS\n             SELECT "@ + join(
            winner_columns(effect.arity as nat).push("winner.__event AS __ordinal"@),
            ", "@,
        ) + "\n             FROM "@ + winner_stage,
    );
    if predicts(statement, winner, written) {
        assert forall|i: nat| i < effect.arity implies #[trigger] written(Name::C(i)) == winner(
            Name::C(i),
        ) by {
            assert(kept_name(statement.columns[i as int]) == Name::C(i));
        }
    }
    if forall|i: nat| i < effect.arity ==> #[trigger] written(Name::C(i)) == winner(Name::C(i)) {
        assert forall|i: int| 0 <= i < statement.columns.len() implies written(
            kept_name(#[trigger] statement.columns[i]),
        ) == scalar_value(
            statement.columns[i],
            two_rows(Alias::Winner, winner, winner),
        ) by {
            assert(written(Name::C(i as nat)) == winner(Name::C(i as nat)));
        }
    }
}

/// A statement that keeps, of the rows that agree on some expressions, the first
/// one, unless a row of one of two relations agrees with it on its first columns.
pub struct Contest {
    pub output: Seq<char>,
    pub columns: Seq<Scalar>,
    pub offset: nat,
    pub rank: nat,
    pub count: nat,
    pub partition: Seq<Scalar>,
    pub input: Seq<char>,
    pub durable: Seq<char>,
    pub ledger: Seq<char>,
    pub n_keys: nat,
}

/// The condition that a row agrees with a candidate on its first columns.
pub open spec fn agreement(alias: Alias, n_keys: nat) -> Seq<Clause> {
    if n_keys == 0 {
        seq![Clause::One(Test::True)]
    } else {
        Seq::new(
            n_keys,
            |i: int|
                Clause::One(
                    Test::Same(
                        Scalar::Column(alias, Name::C(i as nat)),
                        Scalar::Column(Alias::Candidate, Name::C(i as nat)),
                    ),
                ),
        )
    }
}

/// A contest as it is written.
pub open spec fn contest_sql(contest: Contest) -> Seq<char> {
    let ordinal = column_sql(alias_sql(Alias::Prior), Name::MatchOrdinal);
    let event = "CAST('"@ + decimal(contest.offset) + "' AS UBIGINT)\n             + CAST('"@
        + decimal(contest.rank) + "' AS UBIGINT) * CAST('"@ + decimal(contest.count)
        + "' AS UBIGINT)\n             + "@ + ordinal + " AS __event"@;
    let partition = if contest.partition.len() == 0 {
        ""@
    } else {
        "PARTITION BY "@ + join(contest.partition.map_values(|s: Scalar| scalar_sql(s)), ", "@)
            + " "@
    };
    let rank = "row_number() OVER ("@ + partition + "ORDER BY "@ + ordinal + ") AS __site_rank"@;
    "CREATE TEMP TABLE "@ + contest.output
        + " AS\n             SELECT candidate.* EXCLUDE (__site_rank)\n             FROM (\n                 SELECT "@
        + join(named_sql(contest.columns).push(event).push(rank), ", "@) + "\n                 FROM "@
        + contest.input + " AS "@ + alias_sql(Alias::Prior) + "\n             ) AS "@ + alias_sql(
        Alias::Candidate,
    ) + "\n             WHERE candidate.__site_rank = 1\n               AND NOT EXISTS (\n                   SELECT 1 FROM "@
        + contest.durable + " AS "@ + alias_sql(Alias::Existing) + " WHERE "@ + condition_sql(
        agreement(Alias::Existing, contest.n_keys),
    ) + "\n               )\n               AND NOT EXISTS (\n                   SELECT 1 FROM "@ + contest.ledger + " AS "@
        + alias_sql(Alias::Predicted) + " WHERE "@ + condition_sql(
        agreement(Alias::Predicted, contest.n_keys),
    ) + "\n               )"@
}

/// The ordinal of a match.
pub open spec fn ordinal_of(row: Row) -> int {
    match row(Name::MatchOrdinal) {
        Datum::Number(ordinal) => ordinal,
        _ => 0,
    }
}

/// The first columns of a candidate are those of its row.
pub open spec fn is_candidate(contest: Contest, prior: Row, candidate: Row) -> bool {
    let env = two_rows(Alias::Prior, prior, prior);
    &&& forall|i: int|
        0 <= i < contest.columns.len() ==> candidate(Name::C(i as nat)) == scalar_value(
            #[trigger] contest.columns[i],
            env,
        )
    &&& candidate(Name::Event) == Datum::Number(
        contest.offset + contest.rank * contest.count + ordinal_of(prior),
    )
}

/// Two rows are in one part.
pub open spec fn same_part(contest: Contest, left: Row, right: Row) -> bool {
    forall|i: int|
        0 <= i < contest.partition.len() ==> scalar_value(
            #[trigger] contest.partition[i],
            two_rows(Alias::Prior, left, left),
        ) == scalar_value(contest.partition[i], two_rows(Alias::Prior, right, right))
}

/// Some row of a relation agrees with a candidate.
pub open spec fn forestalled(
    contest: Contest,
    alias: Alias,
    relation: Seq<char>,
    database: Database,
    candidate: Row,
) -> bool {
    exists|k: int|
        0 <= k < database(relation).len() && condition_holds(
            agreement(alias, contest.n_keys),
            two_rows(Alias::Candidate, candidate, #[trigger] database(relation)[k]),
        )
}

/// A contest keeps the candidate of a row of its input.
pub open spec fn keeps_candidate(
    contest: Contest,
    database: Database,
    k: int,
    candidate: Row,
) -> bool {
    let rows = database(contest.input);
    &&& 0 <= k < rows.len()
    &&& is_candidate(contest, rows[k], candidate)
    &&& forall|j: int|
        0 <= j < rows.len() && same_part(contest, rows[k], #[trigger] rows[j]) ==> ordinal_of(
            rows[k],
        ) <= ordinal_of(rows[j])
    &&& !forestalled(contest, Alias::Existing, contest.durable, database, candidate)
    &&& !forestalled(contest, Alias::Predicted, contest.ledger, database, candidate)
}

/// The winners of a set-if-empty: the row of a match that no durable and no
/// predicted row under its keys forestalls, and that comes before all other matches
/// with the same keys. It holds the keys, the defaults behind them, and its event:
/// all matches of one action come before those of the next.
pub open spec fn winner_outcome(
    target: Seq<char>,
    keys: Seq<ValueRefView>,
    defaults: Seq<ValueRefView>,
    runtime_ordinal: nat,
    input: Seq<char>,
    ledger: Seq<char>,
    match_count: nat,
    event_offset: nat,
    database: Database,
    meaning: Meaning,
    k: int,
    winner: Row,
) -> bool {
    let rows = database(input);
    let matched = rows[k];
    let n = keys.len();
    &&& 0 <= k < rows.len()
    &&& forall|i: nat|
        i < n ==> #[trigger] winner(Name::C(i)) == ref_value(keys[i as int], matched, meaning)
    &&& forall|i: nat|
        n <= i < n + defaults.len() ==> #[trigger] winner(Name::C(i)) == ref_value(
            defaults[i - n],
            matched,
            meaning,
        )
    &&& winner(Name::Event) == Datum::Number(
        event_offset + runtime_ordinal * match_count + ordinal_of(matched),
    )
    &&& !has_owner(database, target, keys, matched, meaning)
    &&& !has_owner(database, ledger, keys, matched, meaning)
    &&& forall|j: int|
        #![trigger rows[j]]
        0 <= j < rows.len() && (forall|i: int|
            0 <= i < n ==> ref_value(#[trigger] keys[i], rows[j], meaning) == ref_value(
                keys[i],
                matched,
                meaning,
            )) ==> ordinal_of(matched) <= ordinal_of(rows[j])
}

/// The contest of a set-if-empty.
pub open spec fn slot_contest(
    target: Seq<char>,
    n_keys: nat,
    keys: Seq<ValueRefView>,
    defaults: Seq<ValueRefView>,
    runtime_ordinal: nat,
    input_stage: Seq<char>,
    winner_stage: Seq<char>,
    ledger: Seq<char>,
    match_count: nat,
    event_offset: nat,
    meaning: Meaning,
) -> Contest {
    Contest {
        output: winner_stage,
        columns: (keys + defaults).map_values(
            |v: ValueRefView| ref_scalar(v, Alias::Prior, meaning),
        ),
        offset: event_offset,
        rank: runtime_ordinal,
        count: match_count,
        partition: keys.map_values(|v: ValueRefView| ref_scalar(v, Alias::Prior, meaning)),
        input: input_stage,
        durable: target,
        ledger,
        n_keys,
    }
}

/// The end of an event.
proof fn lemma_event_end(text: Seq<char>)
    ensures
        text + "' AS UBIGINT)\n             + prior.__match_ordinal AS __event"@ == text + "' AS UBIGINT)\n             + "@ + ("prior"@ + ".__match_ordinal"@) + " AS __event"@,
{
    reveal_strlit("' AS UBIGINT)\n             + prior.__match_ordinal AS __event");
    reveal_strlit("' AS UBIGINT)\n             + ");
    reveal_strlit("prior");
    reveal_strlit(".__match_ordinal");
    reveal_strlit(" AS __event");
    assert(text + "' AS UBIGINT)\n             + prior.__match_ordinal AS __event"@ =~= text + "' AS UBIGINT)\n             + "@ + ("prior"@ + ".__match_ordinal"@) + " AS __event"@);
}

/// The order within a part.
proof fn lemma_rank_end(text: Seq<char>)
    ensures
        text + "ORDER BY prior.__match_ordinal) AS __site_rank"@ == text + "ORDER BY "@ + ("prior"@ + ".__match_ordinal"@) + ") AS __site_rank"@,
{
    reveal_strlit("ORDER BY prior.__match_ordinal) AS __site_rank");
    reveal_strlit("ORDER BY ");
    reveal_strlit("prior");
    reveal_strlit(".__match_ordinal");
    reveal_strlit(") AS __site_rank");
    assert(text + "ORDER BY prior.__match_ordinal) AS __site_rank"@ =~= text + "ORDER BY "@ + ("prior"@ + ".__match_ordinal"@) + ") AS __site_rank"@);
}

/// The candidates.
proof fn lemma_candidate(text: Seq<char>)
    ensures
        text + " AS prior\n             ) AS candidate\n             WHERE candidate.__site_rank = 1\n               AND NOT EXISTS (\n                   SELECT 1 FROM "@ == text + " AS "@ + "prior"@ + "\n             ) AS "@ + "candidate"@ + "\n             WHERE candidate.__site_rank = 1\n               AND NOT EXISTS (\n                   SELECT 1 FROM "@,
{
    reveal_strlit(" AS prior\n             ) AS candidate\n             WHERE candidate.__site_rank = 1\n               AND NOT EXISTS (\n                   SELECT 1 FROM ");
    reveal_strlit(" AS ");
    reveal_strlit("prior");
    reveal_strlit("\n             ) AS ");
    reveal_strlit("candidate");
    reveal_strlit("\n             WHERE candidate.__site_rank = 1\n               AND NOT EXISTS (\n                   SELECT 1 FROM ");
    assert(text + " AS prior\n             ) AS candidate\n             WHERE candidate.__site_rank = 1\n               AND NOT EXISTS (\n                   SELECT 1 FROM "@ =~= text + " AS "@ + "prior"@ + "\n             ) AS "@ + "candidate"@ + "\n             WHERE candidate.__site_rank = 1\n               AND NOT EXISTS (\n                   SELECT 1 FROM "@);
}

/// The durable rows.
proof fn lemma_existing_where(text: Seq<char>)
    ensures
        text + " AS existing WHERE "@ == text + " AS "@ + "existing"@ + " WHERE "@,
{
    reveal_strlit(" AS existing WHERE ");
    reveal_strlit(" AS ");
    reveal_strlit("existing");
    reveal_strlit(" WHERE ");
    assert(text + " AS existing WHERE "@ =~= text + " AS "@ + "existing"@ + " WHERE "@);
}

/// The predicted rows.
proof fn lemma_predicted_where(text: Seq<char>)
    ensures
        text + " AS predicted WHERE "@ == text + " AS "@ + "predicted"@ + " WHERE "@,
{
    reveal_strlit(" AS predicted WHERE ");
    reveal_strlit(" AS ");
    reveal_strlit("predicted");
    reveal_strlit(" WHERE ");
    assert(text + " AS predicted WHERE "@ =~= text + " AS "@ + "predicted"@ + " WHERE "@);
}

proof fn lemma_agreement_sql(alias: Alias, n_keys: nat)
    ensures
        condition_sql(agreement(alias, n_keys)) == row_match_text(
            alias_sql(alias),
            "candidate"@,
            n_keys,
        ),
{
    let clauses = agreement(alias, n_keys);
    let row = alias_sql(alias);
    if n_keys == 0 {
        assert(clauses_sql(clauses) =~= seq!["TRUE"@]);
    } else {
        assert forall|i: int| 0 <= i < n_keys implies clauses_sql(clauses)[i] == row_tests(
            row,
            "candidate"@,
            n_keys,
        )[i] by {
            let number = decimal(i as nat);
            assert(row + ".c"@ + number + " IS NOT DISTINCT FROM "@ + "candidate"@ + ".c"@ + number
                =~= row + ".c"@ + number + " IS NOT DISTINCT FROM "@ + ("candidate"@ + ".c"@
                + number));
        }
        assert(clauses_sql(clauses) =~= row_tests(row, "candidate"@, n_keys));
    }
}

proof fn lemma_forestalled(
    contest: Contest,
    keys: Seq<ValueRefView>,
    alias: Alias,
    relation: Seq<char>,
    database: Database,
    meaning: Meaning,
    matched: Row,
    candidate: Row,
)
    requires
        alias != Alias::Candidate,
        contest.n_keys == keys.len(),
        forall|i: nat|
            i < keys.len() ==> #[trigger] candidate(Name::C(i)) == ref_value(
                keys[i as int],
                matched,
                meaning,
            ),
    ensures
        forestalled(contest, alias, relation, database, candidate) <==> has_owner(
            database,
            relation,
            keys,
            matched,
            meaning,
        ),
{
    let clauses = agreement(alias, contest.n_keys);
    assert forall|k: int| 0 <= k < database(relation).len() implies (condition_holds(
        clauses,
        two_rows(Alias::Candidate, candidate, #[trigger] database(relation)[k]),
    ) <==> holds_keys(database, relation, k, keys, matched, meaning)) by {
        let row = database(relation)[k];
        let env = two_rows(Alias::Candidate, candidate, row);
        assert forall|i: int| 0 <= i < keys.len() implies (clause_holds(#[trigger] clauses[i], env)
            <==> row(Name::C(i as nat)) == ref_value(keys[i], matched, meaning)) by {
            assert(candidate(Name::C(i as nat)) == ref_value(keys[i], matched, meaning));
        }
        if condition_holds(clauses, env) {
            assert forall|i: int| 0 <= i < keys.len() implies row(Name::C(i as nat)) == ref_value(
                #[trigger] keys[i],
                matched,
                meaning,
            ) by {
                assert(clause_holds(clauses[i], env));
            }
        }
        if holds_keys(database, relation, k, keys, matched, meaning) {
            assert forall|i: int| 0 <= i < clauses.len() implies clause_holds(
                #[trigger] clauses[i],
                env,
            ) by {
                if keys.len() > 0 {
                    assert(row(Name::C(i as nat)) == ref_value(keys[i], matched, meaning));
                }
            }
        }
    }
    if forestalled(contest, alias, relation, database, candidate) {
        let k = choose|k: int|
            0 <= k < database(relation).len() && condition_holds(
                clauses,
                two_rows(Alias::Candidate, candidate, #[trigger] database(relation)[k]),
            );
        assert(holds_keys(database, relation, k, keys, matched, meaning));
    }
    if has_owner(database, relation, keys, matched, meaning) {
        let k = choose|k: int| #[trigger]
            holds_keys(database, relation, k, keys, matched, meaning);
        assert(condition_holds(
            clauses,
            two_rows(Alias::Candidate, candidate, database(relation)[k]),
        ));
    }
}

proof fn lemma_contest_sql(
    slot: SlotView,
    input_stage: Seq<char>,
    winner_stage: Seq<char>,
    ledger: Seq<char>,
    match_count: u64,
    event_offset: u64,
    meaning: Meaning,
)
    requires
        keys_complete(slot),
        slot.source matches SlotSourceView::Read(ReadView::SetIfEmpty { .. }),
    ensures
        slot.source matches SlotSourceView::Read(
            ReadView::SetIfEmpty { target, n_keys, keys, defaults },
        ) ==> winner_sql(
            slot,
            input_stage,
            winner_stage,
            ledger,
            match_count,
            event_offset,
        ) == Some(
            contest_sql(
                slot_contest(
                    table_text(target),
                    n_keys as nat,
                    keys,
                    defaults,
                    slot.runtime_ordinal as nat,
                    input_stage,
                    winner_stage,
                    ledger,
                    match_count as nat,
                    event_offset as nat,
                    meaning,
                ),
            ),
        ),
{
    match slot.source {
        SlotSourceView::Read(ReadView::SetIfEmpty { target, n_keys, keys, defaults }) => {
            let contest = slot_contest(
                table_text(target),
                n_keys as nat,
                keys,
                defaults,
                slot.runtime_ordinal as nat,
                input_stage,
                winner_stage,
                ledger,
                match_count as nat,
                event_offset as nat,
                meaning,
            );
            lemma_named(keys + defaults, Alias::Prior, meaning);
            let partition = contest.partition.map_values(|s: Scalar| scalar_sql(s));
            assert(partition =~= ref_texts(keys, "prior"@)) by {
                assert forall|i: int| 0 <= i < keys.len() implies partition[i] == ref_texts(
                    keys,
                    "prior"@,
                )[i] by {
                    lemma_ref_sql(keys[i], Alias::Prior, meaning);
                }
            }
            let event = "CAST('"@ + decimal(event_offset as nat) + "' AS UBIGINT)\n             + CAST('"@
                + decimal(slot.runtime_ordinal as nat) + "' AS UBIGINT) * CAST('"@ + decimal(
                match_count as nat,
            );
            lemma_event_end(event);
            lemma_rank_end("row_number() OVER ("@ + partition_text(keys, n_keys as nat));
            lemma_agreement_sql(Alias::Existing, n_keys as nat);
            lemma_agreement_sql(Alias::Predicted, n_keys as nat);
            let columns = aliased(ref_texts(keys + defaults, "prior"@), "c"@).push(
                event_text(slot, match_count, event_offset),
            ).push(
                "row_number() OVER ("@ + partition_text(keys, n_keys as nat)
                    + "ORDER BY prior.__match_ordinal) AS __site_rank"@,
            );
            let t1 = "CREATE TEMP TABLE "@ + winner_stage
                + " AS\n             SELECT candidate.* EXCLUDE (__site_rank)\n             FROM (\n                 SELECT "@
                + join(columns, ", "@) + "\n                 FROM "@ + input_stage;
            lemma_candidate(t1);
            let t2 = t1 + " AS prior\n             ) AS candidate\n             WHERE candidate.__site_rank = 1\n               AND NOT EXISTS (\n                   SELECT 1 FROM "@ + table_text(target);
            lemma_existing_where(t2);
            let t3 = t2 + " AS existing WHERE "@ + row_match_text(
                "existing"@,
                "candidate"@,
                n_keys as nat,
            ) + "\n               )\n               AND NOT EXISTS (\n                   SELECT 1 FROM "@ + ledger;
            lemma_predicted_where(t3);
        },
        _ => {},
    }
}

/// The statement of the winners is SQL that keeps, for each key, the row of the
/// first match that neither a durable nor a predicted row forestalls. Only a
/// set-if-empty has winners.
pub proof fn law_winner_statements_keep_the_first_candidates(
    slot: SlotView,
    input_stage: Seq<char>,
    winner_stage: Seq<char>,
    ledger: Seq<char>,
    match_count: u64,
    event_offset: u64,
    meaning: Meaning,
    database: Database,
    k: int,
    winner: Row,
)
    requires
        keys_complete(slot),
    ensures
        match slot.source {
            SlotSourceView::Read(ReadView::SetIfEmpty { target, n_keys, keys, defaults }) => {
                let statement = slot_contest(
                    table_text(target),
                    n_keys as nat,
                    keys,
                    defaults,
                    slot.runtime_ordinal as nat,
                    input_stage,
                    winner_stage,
                    ledger,
                    match_count as nat,
                    event_offset as nat,
                    meaning,
                );
                &&& winner_sql(
                    slot,
                    input_stage,
                    winner_stage,
                    ledger,
                    match_count,
                    event_offset,
                ) == Some(contest_sql(statement))
                &&& keeps_candidate(statement, database, k, winner) <==> winner_outcome(
                    table_text(target),
                    keys,
                    defaults,
                    slot.runtime_ordinal as nat,
                    input_stage,
                    ledger,
                    match_count as nat,
                    event_offset as nat,
                    database,
                    meaning,
                    k,
                    winner,
                )
            },
            _ => winner_sql(
                slot,
                input_stage,
                winner_stage,
                ledger,
                match_count,
                event_offset,
            ) is None,
        },
{
    match slot.source {
        SlotSourceView::Read(ReadView::SetIfEmpty { target, n_keys, keys, defaults }) => {
            lemma_contest_sql(
                slot,
                input_stage,
                winner_stage,
                ledger,
                match_count,
                event_offset,
                meaning,
            );
            let statement = slot_contest(
                table_text(target),
                n_keys as nat,
                keys,
                defaults,
                slot.runtime_ordinal as nat,
                input_stage,
                winner_stage,
                ledger,
                match_count as nat,
                event_offset as nat,
                meaning,
            );
            let rows = database(input_stage);
            let matched = rows[k];
            let env = two_rows(Alias::Prior, matched, matched);
            let values = keys + defaults;
            let n = keys.len();
            assert forall|i: int| 0 <= i < values.len() implies scalar_value(
                #[trigger] statement.columns[i],
                env,
            ) == ref_value(values[i], matched, meaning) by {}
            assert forall|j: int| #![trigger rows[j]] same_part(statement, matched, rows[j])
                <==> forall|i: int|
                0 <= i < n ==> ref_value(#[trigger] keys[i], rows[j], meaning) == ref_value(
                    keys[i],
                    matched,
                    meaning,
                ) by {
                let other = two_rows(Alias::Prior, rows[j], rows[j]);
                assert forall|i: int| 0 <= i < n implies scalar_value(
                    #[trigger] statement.partition[i],
                    other,
                ) == ref_value(keys[i], rows[j], meaning) && scalar_value(
                    statement.partition[i],
                    env,
                ) == ref_value(keys[i], matched, meaning) by {}
                if same_part(statement, matched, rows[j]) {
                    assert forall|i: int| 0 <= i < n implies ref_value(
                        #[trigger] keys[i],
                        rows[j],
                        meaning,
                    ) == ref_value(keys[i], matched, meaning) by {
                        assert(scalar_value(statement.partition[i], other) == ref_value(
                            keys[i],
                            rows[j],
                            meaning,
                        ));
                    }
                }
            }
            if keeps_candidate(statement, database, k, winner) {
                assert forall|i: nat| i < n implies #[trigger] winner(Name::C(i)) == ref_value(
                    keys[i as int],
                    matched,
                    meaning,
                ) by {
                    assert(values[i as int] == keys[i as int]);
                    assert(winner(Name::C(i)) == scalar_value(statement.columns[i as int], env));
                }
                assert forall|i: nat| n <= i < n + defaults.len() implies #[trigger] winner(
                    Name::C(i),
                ) == ref_value(defaults[i - n], matched, meaning) by {
                    assert(values[i as int] == defaults[i - n]);
                    assert(winner(Name::C(i)) == scalar_value(statement.columns[i as int], env));
                }
                lemma_forestalled(
                    statement,
                    keys,
                    Alias::Existing,
                    table_text(target),
                    database,
                    meaning,
                    matched,
                    winner,
                );
                lemma_forestalled(
                    statement,
                    keys,
                    Alias::Predicted,
                    ledger,
                    database,
                    meaning,
                    matched,
                    winner,
                );
            }
            if winner_outcome(
                table_text(target),
                keys,
                defaults,
                slot.runtime_ordinal as nat,
                input_stage,
                ledger,
                match_count as nat,
                event_offset as nat,
                database,
                meaning,
                k,
                winner,
            ) {
                assert forall|i: int| 0 <= i < statement.columns.len() implies winner(
                    Name::C(i as nat),
                ) == scalar_value(#[trigger] statement.columns[i], env) by {
                    assert(winner(Name::C(i as nat)) == winner(Name::C(i as nat)));
                    if i < n {
                        assert(values[i] == keys[i]);
                    } else {
                        assert(values[i] == defaults[i - n]);
                    }
                }
                lemma_forestalled(
                    statement,
                    keys,
                    Alias::Existing,
                    table_text(target),
                    database,
                    meaning,
                    matched,
                    winner,
                );
                lemma_forestalled(
                    statement,
                    keys,
                    Alias::Predicted,
                    ledger,
                    database,
                    meaning,
                    matched,
                    winner,
                );
            }
        },
        _ => {},
    }
}

// ---------------------------------------------------------------------------
// Checks before a result is read.

/// A query that is answered by yes or no.
pub enum Question {
    /// Is there a row to which not exactly so many rows join?
    NotSoMany { input: Seq<char>, rows: Rows, wanted: nat },
    /// Is there a row for which a condition fails?
    Failing { input: Seq<char>, condition: Test },
}

/// A question as it is written.
pub open spec fn question_sql(question: Question) -> Seq<char> {
    match question {
        Question::NotSoMany { input, rows, wanted } => {
            let alias = alias_sql(rows.alias);
            "SELECT EXISTS (\n                         SELECT 1\n                         FROM "@ + input + " AS "@ + alias_sql(Alias::Prior)
                + "\n                         LEFT JOIN LATERAL (\n                             SELECT count("@ + column_sql(
                alias,
                Name::Generation,
            ) + ") AS __owners\n                             FROM "@ + rows.relation + " AS "@ + alias + "\n                             WHERE "@
                + condition_sql(rows.condition)
                + "\n                         ) AS lookup ON TRUE\n                         WHERE lookup.__owners <> "@ + decimal(wanted)
                + "\n                     )"@
        },
        Question::Failing { input, condition } => {
            "SELECT EXISTS (SELECT 1 FROM "@ + input + " AS "@ + alias_sql(Alias::Prior)
                + " WHERE NOT ("@ + test_sql(condition) + "))"@
        },
    }
}

/// The number of joined rows among the first `count`, by a column that is set.
pub open spec fn joined_rows(rows: Rows, database: Database, prior: Row, count: nat) -> nat
    decreases count,
{
    if count == 0 {
        0
    } else {
        let k = count - 1;
        joined_rows(rows, database, prior, (count - 1) as nat) + if row_joins(
            rows,
            database,
            prior,
            k,
        ) && database(rows.relation)[k](Name::Generation) != Datum::Null {
            1nat
        } else {
            0nat
        }
    }
}

/// A question is answered by yes.
pub open spec fn answers(question: Question, database: Database) -> bool {
    match question {
        Question::NotSoMany { input, rows, wanted } => exists|p: int|
            0 <= p < database(input).len() && joined_rows(
                rows,
                database,
                #[trigger] database(input)[p],
                database(rows.relation).len(),
            ) != wanted,
        Question::Failing { input, condition } => exists|p: int|
            0 <= p < database(input).len() && !test_holds(
                condition,
                two_rows(Alias::Prior, #[trigger] database(input)[p], database(input)[p]),
            ),
    }
}

/// Exactly one row of a relation holds the keys.
pub open spec fn one_owner(
    database: Database,
    relation: Seq<char>,
    keys: Seq<ValueRefView>,
    matched: Row,
    meaning: Meaning,
) -> bool {
    exists|k: int|
        #![trigger holds_keys(database, relation, k, keys, matched, meaning)]
        holds_keys(database, relation, k, keys, matched, meaning) && forall|j: int| #[trigger]
            holds_keys(database, relation, j, keys, matched, meaning) ==> j == k
}

/// A result can be read for a match: a lookup has exactly one owner, and a partial
/// expression is defined.
pub open spec fn readable_result(
    slot: SlotView,
    database: Database,
    matched: Row,
    meaning: Meaning,
    defined: spec_fn(Seq<SqlPieceView>, Seq<Datum>) -> bool,
) -> bool {
    match slot.source {
        SlotSourceView::Read(ReadView::Table { target, keys, .. }) => one_owner(
            database,
            table_text(target),
            keys,
            matched,
            meaning,
        ),
        SlotSourceView::Expression { expression, inputs } => match expression.defined {
            Some(pieces) => defined(
                pieces,
                Seq::new(inputs.len(), |i: int| ref_value(inputs[i], matched, meaning)),
            ),
            None => true,
        },
        _ => true,
    }
}

/// The check of a result, taken apart.
pub open spec fn slot_question(
    slot: SlotView,
    input_stage: Seq<char>,
    meaning: Meaning,
    defined: spec_fn(Seq<SqlPieceView>, Seq<Datum>) -> bool,
) -> Option<Question> {
    match slot.source {
        SlotSourceView::Read(ReadView::Table { target, keys, .. }) => Some(
            Question::NotSoMany {
                input: input_stage,
                rows: Rows {
                    relation: table_text(target),
                    alias: Alias::Existing,
                    condition: key_clauses(Alias::Existing, keys, Alias::Prior, meaning),
                },
                wanted: 1,
            },
        ),
        SlotSourceView::Expression { expression, inputs } => match expression.defined {
            Some(pieces) => Some(
                Question::Failing {
                    input: input_stage,
                    condition: Test::Defined {
                        pieces,
                        inputs: inputs.map_values(
                            |v: ValueRefView| ref_scalar(v, Alias::Prior, meaning),
                        ),
                        within: |values: Seq<Datum>| defined(pieces, values),
                    },
                },
            ),
            None => None,
        },
        _ => None,
    }
}

/// The rows of a question.
proof fn lemma_question_rows(text: Seq<char>)
    ensures
        text + " AS prior\n                         LEFT JOIN LATERAL (\n                             SELECT count(existing.__generation) AS __owners\n                             FROM "@ == text + " AS "@ + "prior"@ + "\n                         LEFT JOIN LATERAL (\n                             SELECT count("@ + ("existing"@ + ".__generation"@) + ") AS __owners\n                             FROM "@,
{
    reveal_strlit(" AS prior\n                         LEFT JOIN LATERAL (\n                             SELECT count(existing.__generation) AS __owners\n                             FROM ");
    reveal_strlit(" AS ");
    reveal_strlit("prior");
    reveal_strlit("\n                         LEFT JOIN LATERAL (\n                             SELECT count(");
    reveal_strlit("existing");
    reveal_strlit(".__generation");
    reveal_strlit(") AS __owners\n                             FROM ");
    assert(text + " AS prior\n                         LEFT JOIN LATERAL (\n                             SELECT count(existing.__generation) AS __owners\n                             FROM "@ =~= text + " AS "@ + "prior"@ + "\n                         LEFT JOIN LATERAL (\n                             SELECT count("@ + ("existing"@ + ".__generation"@) + ") AS __owners\n                             FROM "@);
}

/// The condition of a question.
proof fn lemma_question_where(text: Seq<char>)
    ensures
        text + " AS existing\n                             WHERE "@ == text + " AS "@ + "existing"@ + "\n                             WHERE "@,
{
    reveal_strlit(" AS existing\n                             WHERE ");
    reveal_strlit(" AS ");
    reveal_strlit("existing");
    reveal_strlit("\n                             WHERE ");
    assert(text + " AS existing\n                             WHERE "@ =~= text + " AS "@ + "existing"@ + "\n                             WHERE "@);
}

/// The end of a question.
proof fn lemma_question_end(text: Seq<char>)
    ensures
        text + "\n                         ) AS lookup ON TRUE\n                         WHERE lookup.__owners <> 1\n                     )"@ == text + "\n                         ) AS lookup ON TRUE\n                         WHERE lookup.__owners <> "@ + "1"@ + "\n                     )"@,
{
    reveal_strlit("\n                         ) AS lookup ON TRUE\n                         WHERE lookup.__owners <> 1\n                     )");
    reveal_strlit("\n                         ) AS lookup ON TRUE\n                         WHERE lookup.__owners <> ");
    reveal_strlit("1");
    reveal_strlit("\n                     )");
    assert(text + "\n                         ) AS lookup ON TRUE\n                         WHERE lookup.__owners <> 1\n                     )"@ =~= text + "\n                         ) AS lookup ON TRUE\n                         WHERE lookup.__owners <> "@ + "1"@ + "\n                     )"@);
}

/// The rows of a failing condition.
proof fn lemma_failing(text: Seq<char>)
    ensures
        text + " AS prior WHERE NOT ("@ == text + " AS "@ + "prior"@ + " WHERE NOT ("@,
{
    reveal_strlit(" AS prior WHERE NOT (");
    reveal_strlit(" AS ");
    reveal_strlit("prior");
    reveal_strlit(" WHERE NOT (");
    assert(text + " AS prior WHERE NOT ("@ =~= text + " AS "@ + "prior"@ + " WHERE NOT ("@);
}

/// How many of the first numbers have a property.
spec fn counted(property: spec_fn(int) -> bool, count: nat) -> nat
    decreases count,
{
    if count == 0 {
        0
    } else {
        counted(property, (count - 1) as nat) + if property(count - 1) {
            1nat
        } else {
            0nat
        }
    }
}

proof fn lemma_none_counted(property: spec_fn(int) -> bool, count: nat)
    ensures
        counted(property, count) == 0 <==> forall|k: int| 0 <= k < count ==> !#[trigger] property(k),
    decreases count,
{
    if count > 0 {
        lemma_none_counted(property, (count - 1) as nat);
    }
}

/// Exactly one of the first numbers has a property.
spec fn only(property: spec_fn(int) -> bool, count: nat, k: int) -> bool {
    &&& 0 <= k < count
    &&& property(k)
    &&& forall|j: int| 0 <= j < count && #[trigger] property(j) ==> j == k
}

proof fn lemma_one_counted(property: spec_fn(int) -> bool, count: nat)
    ensures
        counted(property, count) == 1 <==> exists|k: int| #[trigger] only(property, count, k),
    decreases count,
{
    if count > 0 {
        let few = (count - 1) as nat;
        lemma_one_counted(property, few);
        lemma_none_counted(property, few);
        if property(count - 1) {
            if counted(property, few) == 0 {
                assert(only(property, count, count - 1));
            }
            if exists|k: int| #[trigger] only(property, count, k) {
                let k = choose|k: int| #[trigger] only(property, count, k);
                assert(k == count - 1);
            }
        } else {
            if exists|k: int| #[trigger] only(property, few, k) {
                let k = choose|k: int| #[trigger] only(property, few, k);
                assert(only(property, count, k));
            }
            if exists|k: int| #[trigger] only(property, count, k) {
                let k = choose|k: int| #[trigger] only(property, count, k);
                assert(only(property, few, k));
            }
        }
    }
}

proof fn lemma_counted(
    keys: Seq<ValueRefView>,
    relation: Seq<char>,
    database: Database,
    matched: Row,
    meaning: Meaning,
    count: nat,
)
    requires
        count <= database(relation).len(),
        forall|k: int|
            0 <= k < database(relation).len() ==> (#[trigger] database(relation)[k])(
                Name::Generation,
            ) != Datum::Null,
    ensures
        joined_rows(
            Rows {
                relation,
                alias: Alias::Existing,
                condition: key_clauses(Alias::Existing, keys, Alias::Prior, meaning),
            },
            database,
            matched,
            count,
        ) == counted(
            |k: int| holds_keys(database, relation, k, keys, matched, meaning),
            count,
        ),
    decreases count,
{
    if count > 0 {
        let last = count - 1;
        lemma_counted(keys, relation, database, matched, meaning, (count - 1) as nat);
        lemma_key_clauses_hold(
            Alias::Existing,
            relation,
            keys,
            meaning,
            database,
            matched,
            last,
        );
        assert(database(relation)[last](Name::Generation) != Datum::Null);
    }
}

/// The check of a result is SQL that is answered by yes exactly when the result
/// cannot be read for some match: a lookup without exactly one owner, or an
/// expression that is not defined. A result without a check can always be read.
pub proof fn law_preflight_statements_find_unreadable_results(
    slot: SlotView,
    input_stage: Seq<char>,
    meaning: Meaning,
    defined: spec_fn(Seq<SqlPieceView>, Seq<Datum>) -> bool,
    database: Database,
)
    requires
        keys_complete(slot),
        forall|relation: Seq<char>, k: int|
            0 <= k < database(relation).len() ==> (#[trigger] database(relation)[k])(
                Name::Generation,
            ) != Datum::Null,
    ensures
        ({
            let readable = forall|p: int|
                0 <= p < database(input_stage).len() ==> readable_result(
                    slot,
                    database,
                    #[trigger] database(input_stage)[p],
                    meaning,
                    defined,
                );
            match slot_question(slot, input_stage, meaning, defined) {
                Some(question) => {
                    &&& preflight_sql(slot, input_stage) == Some(question_sql(question))
                    &&& answers(question, database) <==> !readable
                },
                None => preflight_sql(slot, input_stage) is None && readable,
            }
        }),
{
    match slot.source {
        SlotSourceView::Read(ReadView::Table { target, n_keys, keys, .. }) => {
            let relation = table_text(target);
            let rows = Rows {
                relation,
                alias: Alias::Existing,
                condition: key_clauses(Alias::Existing, keys, Alias::Prior, meaning),
            };
            let total = database(relation).len();
            lemma_key_clauses_sql(Alias::Existing, keys, Alias::Prior, meaning);
            reveal_strlit("1");
            assert(decimal(1) =~= "1"@);
            let t1 = "SELECT EXISTS (\n                         SELECT 1\n                         FROM "@ + input_stage;
            lemma_question_rows(t1);
            let t2 = t1 + " AS prior\n                         LEFT JOIN LATERAL (\n                             SELECT count(existing.__generation) AS __owners\n                             FROM "@ + relation;
            lemma_question_where(t2);
            let t3 = t2 + " AS existing\n                             WHERE "@ + key_match_text(
                "existing"@,
                keys,
                n_keys as nat,
                "prior"@,
            );
            lemma_question_end(t3);
            assert forall|p: int| 0 <= p < database(input_stage).len() implies (joined_rows(
                rows,
                database,
                #[trigger] database(input_stage)[p],
                total,
            ) == 1 <==> one_owner(
                database,
                relation,
                keys,
                database(input_stage)[p],
                meaning,
            )) by {
                let matched = database(input_stage)[p];
                let property = |k: int| holds_keys(database, relation, k, keys, matched, meaning);
                lemma_counted(keys, relation, database, matched, meaning, total);
                lemma_one_counted(property, total);
                if one_owner(database, relation, keys, matched, meaning) {
                    let k = choose|k: int|
                        #![trigger holds_keys(database, relation, k, keys, matched, meaning)]
                        holds_keys(database, relation, k, keys, matched, meaning) && forall|j: int|
                         #[trigger]
                            holds_keys(database, relation, j, keys, matched, meaning) ==> j == k;
                    assert(only(property, total, k));
                }
                if counted(property, total) == 1 {
                    let k = choose|k: int| #[trigger] only(property, total, k);
                    assert(property(k));
                    assert forall|j: int| #[trigger]
                        holds_keys(database, relation, j, keys, matched, meaning) implies j == k by {
                        assert(property(j));
                    }
                }
            }
        },
        SlotSourceView::Expression { expression, inputs } => {
            match expression.defined {
                Some(pieces) => {
                    let scalars = inputs.map_values(
                        |v: ValueRefView| ref_scalar(v, Alias::Prior, meaning),
                    );
                    lemma_refs_sql(inputs, Alias::Prior, meaning, inputs.len());
                    assert(ref_texts(inputs, "prior"@).take(inputs.len() as int) =~= ref_texts(
                        inputs,
                        "prior"@,
                    ));
                    lemma_failing("SELECT EXISTS (SELECT 1 FROM "@ + input_stage);
                    let condition = slot_question(
                        slot,
                        input_stage,
                        meaning,
                        defined,
                    )->0->Failing_condition;
                    assert forall|p: int| 0 <= p < database(input_stage).len() implies (test_holds(
                        condition,
                        two_rows(
                            Alias::Prior,
                            #[trigger] database(input_stage)[p],
                            database(input_stage)[p],
                        ),
                    ) <==> readable_result(
                        slot,
                        database,
                        database(input_stage)[p],
                        meaning,
                        defined,
                    )) by {
                        let matched = database(input_stage)[p];
                        lemma_inputs_value(
                            inputs,
                            meaning,
                            matched,
                            two_rows(Alias::Prior, matched, matched),
                            inputs.len(),
                        );
                    }
                },
                None => {},
            }
        },
        _ => {},
    }
}

} // verus!
