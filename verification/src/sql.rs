//! A small model of the SQL that plans are written in: names, scalar
//! expressions and conditions, each with its text and with its value over rows.

use vstd::prelude::*;

#[allow(unused_imports)]
use crate::action_plan::ValueRefView;
#[allow(unused_imports)]
use crate::base::ScalarSqlType;
#[allow(unused_imports)]
use crate::ir::Value;
#[allow(unused_imports)]
use crate::scalar_expr::{form_text, SqlPieceView};
#[allow(unused_imports)]
use crate::text::{decimal, join};

verus! {

/// A value in a column.
pub enum Datum {
    Null,
    Number(int),
    Truth(bool),
    Item(int),
}

/// The columns that durable rows and staged rows have.
pub enum Name {
    C(nat),
    B(nat),
    S(nat),
    Missing(nat),
    Generation,
    Subsumed,
    MatchOrdinal,
    Ordinal,
    Event,
}

/// The relation that a column is taken from.
pub enum Alias {
    Body(nat),
    Prior,
    Existing,
    Predicted,
    Candidate,
    Winner,
    Head,
    Staged,
    ViewRow,
    MarkerRow,
    UfRow,
    First,
    Second,
}

/// A row, by column name.
pub type Row = spec_fn(Name) -> Datum;

/// The row that each alias stands for.
pub type Env = spec_fn(Alias) -> Row;

/// The rows of each relation, by the relation's text.
pub type Database = spec_fn(Seq<char>) -> Seq<Row>;

/// What literals mean.
pub type Meaning = spec_fn(ScalarSqlType, Value) -> Datum;

/// An alias as it is written.
pub open spec fn alias_sql(alias: Alias) -> Seq<char> {
    match alias {
        Alias::Body(index) => "b"@ + decimal(index),
        Alias::Prior => "prior"@,
        Alias::Existing => "existing"@,
        Alias::Predicted => "predicted"@,
        Alias::Candidate => "candidate"@,
        Alias::Winner => "winner"@,
        Alias::Head => "head"@,
        Alias::Staged => "staged"@,
        Alias::ViewRow => "view_row"@,
        Alias::MarkerRow => "marker_row"@,
        Alias::UfRow => "uf_row"@,
        Alias::First => "first"@,
        Alias::Second => "second"@,
    }
}

/// A column as it is written behind its alias.
pub open spec fn column_sql(alias: Seq<char>, name: Name) -> Seq<char> {
    match name {
        Name::C(index) => alias + ".c"@ + decimal(index),
        Name::B(index) => alias + ".b"@ + decimal(index),
        Name::S(index) => alias + ".s"@ + decimal(index),
        Name::Missing(index) => alias + ".__missing_s"@ + decimal(index),
        Name::Generation => alias + ".__generation"@,
        Name::Subsumed => alias + ".__subsumed"@,
        Name::MatchOrdinal => alias + ".__match_ordinal"@,
        Name::Ordinal => alias + ".__ordinal"@,
        Name::Event => alias + ".__event"@,
    }
}

/// A column as it is written on its own.
pub open spec fn name_sql(name: Name) -> Seq<char> {
    match name {
        Name::C(index) => "c"@ + decimal(index),
        Name::B(index) => "b"@ + decimal(index),
        Name::S(index) => "s"@ + decimal(index),
        Name::Missing(index) => "__missing_s"@ + decimal(index),
        Name::Generation => "__generation"@,
        Name::Subsumed => "__subsumed"@,
        Name::MatchOrdinal => "__match_ordinal"@,
        Name::Ordinal => "__ordinal"@,
        Name::Event => "__event"@,
    }
}

/// A scalar expression.
pub enum Scalar {
    /// A column of a row.
    Column(Alias, Name),
    /// A constant, by its text and its value.
    Literal { sql: Seq<char>, value: Datum },
    /// The SQL form of a primitive, applied to inputs.
    Form { pieces: Seq<SqlPieceView>, inputs: Seq<Scalar>, apply: spec_fn(Seq<Datum>) -> Datum },
}

/// A scalar expression as it is written.
pub open spec fn scalar_sql(scalar: Scalar) -> Seq<char>
    decreases scalar, 0int,
{
    match scalar {
        Scalar::Column(alias, name) => column_sql(alias_sql(alias), name),
        Scalar::Literal { sql, .. } => sql,
        Scalar::Form { pieces, inputs, .. } => form_text(
            pieces,
            scalars_sql(inputs, inputs.len()),
        ),
    }
}

/// The first expressions of a list as they are written.
pub open spec fn scalars_sql(scalars: Seq<Scalar>, count: nat) -> Seq<Seq<char>>
    decreases scalars, count,
{
    if count == 0 || count > scalars.len() {
        Seq::empty()
    } else {
        scalars_sql(scalars, (count - 1) as nat).push(scalar_sql(scalars[count - 1]))
    }
}

/// The value of a scalar expression.
pub open spec fn scalar_value(scalar: Scalar, env: Env) -> Datum
    decreases scalar, 0int,
{
    match scalar {
        Scalar::Column(alias, name) => env(alias)(name),
        Scalar::Literal { value, .. } => value,
        Scalar::Form { inputs, apply, .. } => apply(scalar_values(inputs, inputs.len(), env)),
    }
}

/// The values of the first expressions of a list.
pub open spec fn scalar_values(scalars: Seq<Scalar>, count: nat, env: Env) -> Seq<Datum>
    decreases scalars, count,
{
    if count == 0 || count > scalars.len() {
        Seq::empty()
    } else {
        scalar_values(scalars, (count - 1) as nat, env).push(scalar_value(scalars[count - 1], env))
    }
}

/// One condition on rows.
pub enum Test {
    True,
    False,
    /// Null-safe equality.
    Same(Scalar, Scalar),
    /// Null-safe inequality.
    Differs(Scalar, Scalar),
    /// A number that is not below another.
    AtLeast(Scalar, nat),
    /// A flag that has a value.
    Is(Scalar, bool),
    /// A flag that is set.
    Flagged(Scalar),
    /// The SQL form of a primitive's domain, applied to inputs.
    Defined { pieces: Seq<SqlPieceView>, inputs: Seq<Scalar>, within: spec_fn(Seq<Datum>) -> bool },
}

/// A condition as it is written.
pub open spec fn test_sql(test: Test) -> Seq<char> {
    match test {
        Test::True => "TRUE"@,
        Test::False => "FALSE"@,
        Test::Same(left, right) => scalar_sql(left) + " IS NOT DISTINCT FROM "@ + scalar_sql(
            right,
        ),
        Test::Differs(left, right) => scalar_sql(left) + " IS DISTINCT FROM "@ + scalar_sql(right),
        Test::AtLeast(left, number) => scalar_sql(left) + " >= CAST('"@ + decimal(number)
            + "' AS UBIGINT)"@,
        Test::Is(left, value) => scalar_sql(left) + (if value {
            " = TRUE"@
        } else {
            " = FALSE"@
        }),
        Test::Flagged(left) => scalar_sql(left),
        Test::Defined { pieces, inputs, .. } => form_text(
            pieces,
            scalars_sql(inputs, inputs.len()),
        ),
    }
}

/// Whether a condition holds.
pub open spec fn test_holds(test: Test, env: Env) -> bool {
    match test {
        Test::True => true,
        Test::False => false,
        Test::Same(left, right) => scalar_value(left, env) == scalar_value(right, env),
        Test::Differs(left, right) => scalar_value(left, env) != scalar_value(right, env),
        Test::AtLeast(left, number) => match scalar_value(left, env) {
            Datum::Number(value) => value >= number,
            _ => false,
        },
        Test::Is(left, value) => scalar_value(left, env) == Datum::Truth(value),
        Test::Flagged(left) => scalar_value(left, env) == Datum::Truth(true),
        Test::Defined { inputs, within, .. } => within(scalar_values(inputs, inputs.len(), env)),
    }
}

/// A condition, or a choice of conditions.
pub enum Clause {
    One(Test),
    Any(Seq<Test>),
}

/// Conditions as they are written.
pub open spec fn tests_sql(tests: Seq<Test>) -> Seq<Seq<char>> {
    Seq::new(tests.len(), |i: int| test_sql(tests[i]))
}

/// A clause as it is written. A choice stands in brackets.
pub open spec fn clause_sql(clause: Clause) -> Seq<char> {
    match clause {
        Clause::One(test) => test_sql(test),
        Clause::Any(tests) => "("@ + join(tests_sql(tests), " OR "@) + ")"@,
    }
}

/// Whether a clause holds: its condition, or one of its conditions.
pub open spec fn clause_holds(clause: Clause, env: Env) -> bool {
    match clause {
        Clause::One(test) => test_holds(test, env),
        Clause::Any(tests) => exists|i: int|
            0 <= i < tests.len() && test_holds(#[trigger] tests[i], env),
    }
}

/// Clauses as they are written.
pub open spec fn clauses_sql(clauses: Seq<Clause>) -> Seq<Seq<char>> {
    Seq::new(clauses.len(), |i: int| clause_sql(clauses[i]))
}

/// A conjunction as it is written.
pub open spec fn condition_sql(clauses: Seq<Clause>) -> Seq<char> {
    join(clauses_sql(clauses), " AND "@)
}

/// Whether a conjunction holds: every one of its clauses.
pub open spec fn condition_holds(clauses: Seq<Clause>, env: Env) -> bool {
    forall|i: int| 0 <= i < clauses.len() ==> clause_holds(#[trigger] clauses[i], env)
}

/// A planned value as an expression over the row of an alias.
pub open spec fn ref_scalar(value: ValueRefView, alias: Alias, meaning: Meaning) -> Scalar {
    match value {
        ValueRefView::Body(column) => Scalar::Column(alias, Name::B(column as nat)),
        ValueRefView::Slot(slot) => Scalar::Column(alias, Name::S(slot as nat)),
        ValueRefView::Literal { value, scalar, sql } => Scalar::Literal {
            sql,
            value: meaning(scalar, value.value),
        },
    }
}

/// What a planned value is for one match: the column of the match relation, the
/// result of an earlier action, or the constant.
pub open spec fn ref_value(value: ValueRefView, matched: Row, meaning: Meaning) -> Datum {
    match value {
        ValueRefView::Body(column) => matched(Name::B(column as nat)),
        ValueRefView::Slot(slot) => matched(Name::S(slot as nat)),
        ValueRefView::Literal { value, scalar, .. } => meaning(scalar, value.value),
    }
}

/// The rows of two aliases.
pub open spec fn two_rows(left: Alias, left_row: Row, right_row: Row) -> Env {
    |alias: Alias|
        if alias == left {
            left_row
        } else {
            right_row
        }
}

} // verus!
