//! What the body of a rule means: which assignments of its variables it matches
//! over the rows of a database.

use vstd::prelude::*;

#[allow(unused_imports)]
use crate::catalog::table_text;
#[allow(unused_imports)]
use crate::ir::{Atom, AtomTerm, ReadMode, RuleBodyCall, RuleValue};
#[allow(unused_imports)]
use crate::sql::{Database, Datum, Name, Row};

verus! {

/// The value of each variable, by its id.
pub type Assignment = spec_fn(u32) -> Datum;

/// What primitives and constants mean.
pub struct World {
    /// The value of a constant.
    pub constant: spec_fn(RuleValue) -> Datum,
    /// The result of a primitive, by its token, or nothing where it is undefined.
    pub primitive: spec_fn(u32, Seq<Datum>) -> Option<Datum>,
    /// The only value of the unit type.
    pub unit: Datum,
}

/// The value of a term.
pub open spec fn term_value(term: AtomTerm, world: World, assignment: Assignment) -> Datum {
    match term {
        AtomTerm::Var(variable) => assignment(variable.id),
        AtomTerm::Global(variable) => assignment(variable.id),
        AtomTerm::Literal(literal) => (world.constant)(literal),
    }
}

/// The values of terms.
pub open spec fn term_values(terms: Seq<AtomTerm>, world: World, assignment: Assignment) -> Seq<
    Datum,
> {
    Seq::new(terms.len(), |i: int| term_value(terms[i], world, assignment))
}

/// An atom may read a row.
pub open spec fn readable(read: ReadMode, row: Row) -> bool {
    match read {
        ReadMode::Live => row(Name::Subsumed) == Datum::Truth(false),
        ReadMode::Subsumed => row(Name::Subsumed) == Datum::Truth(true),
        ReadMode::All => true,
    }
}

/// A row holds the values of terms, from its first column on.
pub open spec fn holds_terms(
    row: Row,
    terms: Seq<AtomTerm>,
    world: World,
    assignment: Assignment,
) -> bool {
    forall|i: int|
        0 <= i < terms.len() ==> row(Name::C(i as nat)) == term_value(
            #[trigger] terms[i],
            world,
            assignment,
        )
}

/// An atom holds of an assignment and, for a table atom, of a row.
///
/// The arguments of a table atom are the columns of its row. Those of an
/// occurrence index are a probe, which is found in one of the indexed columns, the
/// columns of the row, and the unit value. Those of a primitive are its inputs and
/// its result.
pub open spec fn atom_satisfied(
    atom: Atom,
    row: Row,
    world: World,
    assignment: Assignment,
) -> bool {
    let args = atom.args@;
    match atom.head {
        RuleBodyCall::Table { id, read } => {
            &&& readable(read, row)
            &&& holds_terms(row, args, world, assignment)
        },
        RuleBodyCall::IndexTable { id, any_of, read } => {
            &&& readable(read, row)
            &&& holds_terms(row, args.subrange(1, args.len() - 1), world, assignment)
            &&& exists|k: int|
                0 <= k < any_of@.len() && row(Name::C(#[trigger] any_of@[k] as nat))
                    == term_value(args[0], world, assignment)
            &&& term_value(args.last(), world, assignment) == world.unit
        },
        RuleBodyCall::Primitive { id, .. } => (world.primitive)(
            id.rep,
            term_values(args.drop_last(), world, assignment),
        ) == Some(term_value(args.last(), world, assignment)),
    }
}

/// An atom holds of an assignment and, for a table atom, of one row of its table.
pub open spec fn atom_holds(
    atom: Atom,
    database: Database,
    pick: int,
    world: World,
    assignment: Assignment,
) -> bool {
    &&& atom.head is Primitive || 0 <= pick < atom_rows(atom, database).len()
    &&& atom_satisfied(atom, atom_rows(atom, database)[pick], world, assignment)
}

/// A body matches an assignment, with one row per table atom.
pub open spec fn body_matches(
    body: Seq<Atom>,
    database: Database,
    picks: Seq<int>,
    world: World,
    assignment: Assignment,
) -> bool {
    &&& picks.len() == body.len()
    &&& forall|i: int|
        0 <= i < body.len() ==> atom_holds(
            #[trigger] body[i],
            database,
            picks[i],
            world,
            assignment,
        )
}

/// The rows that an atom reads: those of its table, or none.
pub open spec fn atom_rows(atom: Atom, database: Database) -> Seq<Row> {
    match atom.head {
        RuleBodyCall::Table { id, .. } => database(table_text(id)),
        RuleBodyCall::IndexTable { id, .. } => database(table_text(id)),
        RuleBodyCall::Primitive { .. } => Seq::empty(),
    }
}

/// A row is new since a watermark.
pub open spec fn is_new(row: Row, watermark: nat) -> bool {
    match row(Name::Generation) {
        Datum::Number(generation) => generation >= watermark,
        _ => false,
    }
}

/// A match has at least one new row.
pub open spec fn has_new_row(
    body: Seq<Atom>,
    database: Database,
    picks: Seq<int>,
    watermark: nat,
) -> bool {
    exists|i: int|
        #![trigger body[i]]
        0 <= i < body.len() && 0 <= picks[i] < atom_rows(body[i], database).len() && is_new(
            atom_rows(body[i], database)[picks[i]],
            watermark,
        )
}

/// A token stands for the inequality of two values.
pub open spec fn is_inequality(world: World, token: u32) -> bool {
    forall|inputs: Seq<Datum>|
        inputs.len() == 2 ==> #[trigger] (world.primitive)(token, inputs) == (if inputs[0]
            != inputs[1] {
            Some(world.unit)
        } else {
            None
        })
}

} // verus!
