//! What a marker plan does to the rows that it staged: it deletes the rows under
//! the staged keys, and writes each of them again under its canonical key.

use vstd::prelude::*;

#[allow(unused_imports)]
use crate::action_plan::row_tests;
#[allow(unused_imports)]
use crate::authority::AuthorityRegistries;
#[allow(unused_imports)]
use crate::catalog::{table_text, Catalog};
#[allow(unused_imports)]
use crate::ir::{AtomTerm, Change, CoreAction, RuleActionCall, RuleSpec};
#[allow(unused_imports)]
use crate::marker_rekey::{
    marker_delete_sql, marker_head_columns, marker_head_sql, marker_rekey, marker_vars,
    MarkerRekeyView,
};
#[allow(unused_imports)]
use crate::rejection::{RejectionView, Scope};
#[allow(unused_imports)]
use crate::rule_meaning::{holds_terms, term_value, Assignment, World};
#[allow(unused_imports)]
use crate::shape::atom_table;
#[allow(unused_imports)]
use crate::sql::{
    alias_sql, clause_holds, clauses_sql, condition_holds, condition_sql, name_sql, two_rows, Alias,
    Clause, Database, Datum, Name, Row, Scalar, Test,
};
#[allow(unused_imports)]
use crate::staging_laws::{lemma_marker_atoms, lemma_same_vars};
#[allow(unused_imports)]
use crate::text::{decimal, join};

verus! {

// ---------------------------------------------------------------------------
// Statements.

/// One column of a selection.
pub enum Cell {
    /// A column under its own name.
    Kept(Name),
    /// A column under another name.
    Renamed { from: Name, to: Name },
    /// The constant true.
    True(Name),
}

/// A statement that creates a relation from the columns of another.
pub struct Selection {
    pub output: Seq<char>,
    pub cells: Seq<Cell>,
    pub input: Seq<char>,
}

/// A column of a selection as it is written.
pub open spec fn cell_sql(cell: Cell) -> Seq<char> {
    match cell {
        Cell::Kept(name) => name_sql(name),
        Cell::Renamed { from, to } => name_sql(from) + " AS "@ + name_sql(to),
        Cell::True(name) => "CAST(TRUE AS BOOLEAN) AS "@ + name_sql(name),
    }
}

/// The columns of a selection as they are written.
pub open spec fn cells_sql(cells: Seq<Cell>) -> Seq<Seq<char>> {
    Seq::new(cells.len(), |i: int| cell_sql(cells[i]))
}

/// A selection as it is written.
pub open spec fn selection_sql(selection: Selection) -> Seq<char> {
    "CREATE TEMP TABLE "@ + selection.output + " AS\n             SELECT "@ + join(
        cells_sql(selection.cells),
        ", "@,
    ) + "\n             FROM "@ + selection.input
}

/// The name of a selected column.
pub open spec fn cell_name(cell: Cell) -> Name {
    match cell {
        Cell::Kept(name) => name,
        Cell::Renamed { to, .. } => to,
        Cell::True(name) => name,
    }
}

/// The value of a selected column.
pub open spec fn cell_value(cell: Cell, row: Row) -> Datum {
    match cell {
        Cell::Kept(name) => row(name),
        Cell::Renamed { from, .. } => row(from),
        Cell::True(_) => Datum::Truth(true),
    }
}

/// A selection makes a row of another row.
pub open spec fn selects(selection: Selection, row: Row, selected: Row) -> bool {
    forall|i: int|
        0 <= i < selection.cells.len() ==> selected(cell_name(#[trigger] selection.cells[i]))
            == cell_value(selection.cells[i], row)
}

/// A statement that deletes the rows of a table that some staged row agrees with.
pub struct Deletion {
    pub table: Seq<char>,
    pub stage: Seq<char>,
    pub condition: Seq<Clause>,
}

/// A deletion as it is written.
pub open spec fn deletion_sql(deletion: Deletion) -> Seq<char> {
    "DELETE FROM "@ + deletion.table + " AS "@ + alias_sql(Alias::Existing)
        + "\n             WHERE EXISTS (SELECT 1 FROM "@ + deletion.stage + " AS "@ + alias_sql(
        Alias::Staged,
    ) + " WHERE "@ + condition_sql(deletion.condition) + ")"@
}

/// A deletion deletes a row on account of the staged row `k`.
pub open spec fn deletes(deletion: Deletion, database: Database, row: Row, k: int) -> bool {
    &&& 0 <= k < database(deletion.stage).len()
    &&& condition_holds(
        deletion.condition,
        two_rows(Alias::Existing, row, database(deletion.stage)[k]),
    )
}

// ---------------------------------------------------------------------------
// The statements, taken apart.

/// The statement that stages the rekeyed rows.
pub open spec fn rekeying(
    plan: MarkerRekeyView,
    stage: Seq<char>,
    head_stage: Seq<char>,
) -> Selection {
    let canonical = Name::C(plan.n_keys as nat);
    Selection {
        output: head_stage,
        cells: Seq::new(
            plan.n_keys as nat,
            |i: int|
                if i == plan.key_index {
                    Cell::Renamed { from: canonical, to: Name::C(i as nat) }
                } else {
                    Cell::Kept(Name::C(i as nat))
                },
        ).push(Cell::True(canonical)).push(
            Cell::Renamed { from: Name::MatchOrdinal, to: Name::Ordinal },
        ),
        input: stage,
    }
}

/// The statement that deletes the staged rows.
pub open spec fn stale_deletion(plan: MarkerRekeyView, stage: Seq<char>) -> Deletion {
    Deletion {
        table: table_text(plan.marker),
        stage,
        condition: Seq::new(
            plan.n_keys as nat,
            |i: int|
                Clause::One(
                    Test::Same(
                        Scalar::Column(Alias::Existing, Name::C(i as nat)),
                        Scalar::Column(Alias::Staged, Name::C(i as nat)),
                    ),
                ),
        ),
    }
}

/// A renamed column.
proof fn lemma_renamed(from: Seq<char>, to: Seq<char>)
    ensures
        "c"@ + from + " AS c"@ + to == "c"@ + from + " AS "@ + ("c"@ + to),
{
    reveal_strlit("c");
    reveal_strlit(" AS c");
    reveal_strlit(" AS ");
    assert("c"@ + from + " AS c"@ + to =~= "c"@ + from + " AS "@ + ("c"@ + to));
}

/// The unit column.
proof fn lemma_unit_column(to: Seq<char>)
    ensures
        "CAST(TRUE AS BOOLEAN) AS c"@ + to == "CAST(TRUE AS BOOLEAN) AS "@ + ("c"@ + to),
{
    reveal_strlit("CAST(TRUE AS BOOLEAN) AS c");
    reveal_strlit("CAST(TRUE AS BOOLEAN) AS ");
    reveal_strlit("c");
    assert("CAST(TRUE AS BOOLEAN) AS c"@ + to =~= "CAST(TRUE AS BOOLEAN) AS "@ + ("c"@ + to));
}

/// The ordinal behind the other columns.
proof fn lemma_rekey_ending(text: Seq<char>, columns: Seq<char>)
    ensures
        text + columns + ", __match_ordinal AS __ordinal\n             FROM "@ == text + (columns + ", "@ + ("__match_ordinal"@ + " AS "@ + "__ordinal"@)) + "\n             FROM "@,
{
    reveal_strlit(", __match_ordinal AS __ordinal\n             FROM ");
    reveal_strlit(", ");
    reveal_strlit("__match_ordinal");
    reveal_strlit(" AS ");
    reveal_strlit("__ordinal");
    reveal_strlit("\n             FROM ");
    assert(text + columns + ", __match_ordinal AS __ordinal\n             FROM "@ =~= text + (columns + ", "@ + ("__match_ordinal"@ + " AS "@ + "__ordinal"@)) + "\n             FROM "@);
}

/// The deleted rows.
proof fn lemma_existing(text: Seq<char>)
    ensures
        text + " AS existing\n             WHERE EXISTS (SELECT 1 FROM "@ == text + " AS "@ + "existing"@ + "\n             WHERE EXISTS (SELECT 1 FROM "@,
{
    reveal_strlit(" AS existing\n             WHERE EXISTS (SELECT 1 FROM ");
    reveal_strlit(" AS ");
    reveal_strlit("existing");
    reveal_strlit("\n             WHERE EXISTS (SELECT 1 FROM ");
    assert(text + " AS existing\n             WHERE EXISTS (SELECT 1 FROM "@ =~= text + " AS "@ + "existing"@ + "\n             WHERE EXISTS (SELECT 1 FROM "@);
}

/// The staged rows.
proof fn lemma_staged(text: Seq<char>)
    ensures
        text + " AS staged WHERE "@ == text + " AS "@ + "staged"@ + " WHERE "@,
{
    reveal_strlit(" AS staged WHERE ");
    reveal_strlit(" AS ");
    reveal_strlit("staged");
    reveal_strlit(" WHERE ");
    assert(text + " AS staged WHERE "@ =~= text + " AS "@ + "staged"@ + " WHERE "@);
}

/// One agreement.
proof fn lemma_same_column(number: Seq<char>)
    ensures
        "existing"@ + ".c"@ + number + " IS NOT DISTINCT FROM "@ + "staged"@ + ".c"@ + number == "existing"@ + ".c"@ + number + " IS NOT DISTINCT FROM "@ + ("staged"@ + ".c"@ + number),
{
    reveal_strlit("existing");
    reveal_strlit(".c");
    reveal_strlit(" IS NOT DISTINCT FROM ");
    reveal_strlit("staged");
    assert("existing"@ + ".c"@ + number + " IS NOT DISTINCT FROM "@ + "staged"@ + ".c"@ + number =~= "existing"@ + ".c"@ + number + " IS NOT DISTINCT FROM "@ + ("staged"@ + ".c"@ + number));
}

proof fn lemma_rekeying_sql(plan: MarkerRekeyView, stage: Seq<char>, head_stage: Seq<char>)
    ensures
        marker_head_sql(plan, stage, head_stage) == selection_sql(
            rekeying(plan, stage, head_stage),
        ),
{
    let cells = rekeying(plan, stage, head_stage).cells;
    let columns = marker_head_columns(plan);
    let n_keys = plan.n_keys as nat;
    assert(cells_sql(cells).drop_last() =~= columns) by {
        assert forall|i: int| 0 <= i < columns.len() implies cells_sql(cells)[i] == columns[i] by {
            lemma_renamed(decimal(n_keys), decimal(i as nat));
            lemma_unit_column(decimal(n_keys));
        }
    }
    lemma_rekey_ending(
        "CREATE TEMP TABLE "@ + head_stage + " AS\n             SELECT "@,
        join(columns, ", "@),
    );
}

proof fn lemma_deletion_sql(plan: MarkerRekeyView, stage: Seq<char>)
    ensures
        marker_delete_sql(plan, stage) == deletion_sql(stale_deletion(plan, stage)),
{
    let condition = stale_deletion(plan, stage).condition;
    assert(clauses_sql(condition) =~= row_tests("existing"@, "staged"@, plan.n_keys as nat)) by {
        assert forall|i: int| 0 <= i < plan.n_keys implies clauses_sql(condition)[i] == row_tests(
            "existing"@,
            "staged"@,
            plan.n_keys as nat,
        )[i] by {
            lemma_same_column(decimal(i as nat));
        }
    }
    let t1 = "DELETE FROM "@ + table_text(plan.marker);
    lemma_existing(t1);
    lemma_staged(t1 + " AS existing\n             WHERE EXISTS (SELECT 1 FROM "@ + stage);
}

/// The head of an admitted marker rule: it sets the marker under the keys of the
/// marker atom with the end of the edge in place of its start, and deletes the
/// marker under the keys of the marker atom.
proof fn lemma_marker_head(
    catalog: Catalog,
    registries: AuthorityRegistries,
    rule: RuleSpec,
    plan: MarkerRekeyView,
    marker: int,
    edge: int,
)
    requires
        catalog.well_formed(),
        marker_rekey(catalog, registries, rule) == Ok::<Option<MarkerRekeyView>, RejectionView>(
            Some(plan),
        ),
        0 <= marker < rule.body@.len(),
        0 <= edge < rule.body@.len(),
        rule.body@[marker].head is Table && atom_table(rule.body@[marker]) == plan.marker,
        rule.body@[edge].head is Table && atom_table(rule.body@[edge]) == plan.union_find.target,
    ensures
        plan.key_index < plan.n_keys,
        plan.n_keys + 1 == rule.body@[marker].args@.len(),
        match rule.head@[0] {
            CoreAction::SetRow(RuleActionCall::Table { id }, args, values) => {
                &&& id == plan.marker
                &&& args@.len() == plan.n_keys
                &&& values@.len() == 1
                &&& forall|i: int|
                    0 <= i < plan.n_keys ==> #[trigger] args@[i] == (if i == plan.key_index {
                        rule.body@[edge].args@[1]
                    } else {
                        rule.body@[marker].args@[i]
                    })
            },
            _ => false,
        },
        match rule.head@[1] {
            CoreAction::Change(Change::Delete, RuleActionCall::Table { id }, args) => {
                &&& id == plan.marker
                &&& args@ == rule.body@[marker].args@.drop_last()
            },
            _ => false,
        },
{
    let (roles, bound) = lemma_marker_atoms(catalog, registries, rule, plan);
    assert(marker == roles.marker && edge == roles.union_find);
    reveal(marker_rekey);
    let vars = marker_vars(catalog, rule, roles);
    let rekeyed = vars.keys.update(plan.key_index as int, vars.canonical);
    assert(bound == vars.bound());
    assert forall|i: int| 0 <= i < plan.n_keys implies rule.body@[marker].args@[i]
        == AtomTerm::Var(vars.keys[i]) by {
        assert(bound[i] == vars.keys[i]);
    }
    match rule.head@[0] {
        CoreAction::SetRow(call, args, values) => {
            lemma_same_vars(
                Scope::Marker,
                rekeyed,
                args@,
                "canonical marker key"@,
                rekeyed.len(),
            );
        },
        _ => {},
    }
    match rule.head@[1] {
        CoreAction::Change(change, call, args) => {
            lemma_same_vars(
                Scope::Marker,
                vars.keys,
                args@,
                "stale marker key"@,
                vars.keys.len(),
            );
            assert(args@ =~= rule.body@[marker].args@.drop_last());
        },
        _ => {},
    }
}

/// The head statement of a marker plan makes of a staged row the row with the
/// canonical id in place of the redirected key, the other keys unchanged, the unit
/// value behind them and the number of the match.
///
/// When the staged row holds the marker's keys and the end of the edge in a match of
/// the rule, this is the row that the rule's head sets.
pub proof fn law_marker_heads_rekey_staged_rows(
    catalog: Catalog,
    registries: AuthorityRegistries,
    rule: RuleSpec,
    plan: MarkerRekeyView,
    marker: int,
    edge: int,
    stage: Seq<char>,
    head_stage: Seq<char>,
    row: Row,
    selected: Row,
    world: World,
    assignment: Assignment,
)
    requires
        catalog.well_formed(),
        marker_rekey(catalog, registries, rule) == Ok::<Option<MarkerRekeyView>, RejectionView>(
            Some(plan),
        ),
        0 <= marker < rule.body@.len(),
        0 <= edge < rule.body@.len(),
        rule.body@[marker].head is Table && atom_table(rule.body@[marker]) == plan.marker,
        rule.body@[edge].head is Table && atom_table(rule.body@[edge]) == plan.union_find.target,
    ensures
        ({
            let statement = rekeying(plan, stage, head_stage);
            let n_keys = plan.n_keys as nat;
            &&& marker_head_sql(plan, stage, head_stage) == selection_sql(statement)
            &&& selects(statement, row, selected) <==> {
                &&& forall|i: nat|
                    i < n_keys ==> #[trigger] selected(Name::C(i)) == (if i == plan.key_index {
                        row(Name::C(n_keys))
                    } else {
                        row(Name::C(i))
                    })
                &&& selected(Name::C(n_keys)) == Datum::Truth(true)
                &&& selected(Name::Ordinal) == row(Name::MatchOrdinal)
            }
            &&& rule.head@[0] matches CoreAction::SetRow(RuleActionCall::Table { id }, args, _)
                && id == plan.marker && args@.len() == n_keys && (selects(
                statement,
                row,
                selected,
            ) && holds_terms(
                row,
                rule.body@[marker].args@.drop_last().push(rule.body@[edge].args@[1]),
                world,
                assignment,
            ) ==> holds_terms(selected, args@, world, assignment))
        }),
{
    lemma_marker_head(catalog, registries, rule, plan, marker, edge);
    lemma_rekeying_sql(plan, stage, head_stage);
    let statement = rekeying(plan, stage, head_stage);
    let cells = statement.cells;
    let n_keys = plan.n_keys as nat;
    if selects(statement, row, selected) {
        assert forall|i: nat| i < n_keys implies #[trigger] selected(Name::C(i)) == (if i
            == plan.key_index {
            row(Name::C(n_keys))
        } else {
            row(Name::C(i))
        }) by {
            assert(selected(cell_name(cells[i as int])) == cell_value(cells[i as int], row));
        }
        assert(selected(cell_name(cells[n_keys as int])) == cell_value(
            cells[n_keys as int],
            row,
        ));
        assert(selected(cell_name(cells[n_keys as int + 1])) == cell_value(
            cells[n_keys as int + 1],
            row,
        ));
        let terms = rule.body@[marker].args@.drop_last().push(rule.body@[edge].args@[1]);
        if holds_terms(row, terms, world, assignment) {
            match rule.head@[0] {
                CoreAction::SetRow(call, args, _) => {
                    assert forall|i: int| 0 <= i < args@.len() implies selected(Name::C(i as nat))
                        == term_value(#[trigger] args@[i], world, assignment) by {
                        assert(row(Name::C(i as nat)) == term_value(terms[i], world, assignment));
                        assert(row(Name::C(n_keys)) == term_value(
                            terms[n_keys as int],
                            world,
                            assignment,
                        ));
                    }
                },
                _ => {},
            }
        }
    }
    if {
        &&& forall|i: nat|
            i < n_keys ==> #[trigger] selected(Name::C(i)) == (if i == plan.key_index {
                row(Name::C(n_keys))
            } else {
                row(Name::C(i))
            })
        &&& selected(Name::C(n_keys)) == Datum::Truth(true)
        &&& selected(Name::Ordinal) == row(Name::MatchOrdinal)
    } {
        assert forall|i: int| 0 <= i < cells.len() implies selected(
            cell_name(#[trigger] cells[i]),
        ) == cell_value(cells[i], row) by {
            if i < n_keys {
                assert(selected(Name::C(i as nat)) == (if i == plan.key_index {
                    row(Name::C(n_keys))
                } else {
                    row(Name::C(i as nat))
                }));
            }
        }
    }
}

/// The deletion of a marker plan deletes a row exactly when its keys are those of a
/// staged row.
///
/// When that staged row holds the marker's keys and the end of the edge in a match
/// of the rule, these are the keys that the rule's head deletes.
pub proof fn law_marker_deletions_take_staged_rows(
    catalog: Catalog,
    registries: AuthorityRegistries,
    rule: RuleSpec,
    plan: MarkerRekeyView,
    marker: int,
    edge: int,
    stage: Seq<char>,
    database: Database,
    row: Row,
    k: int,
    world: World,
    assignment: Assignment,
)
    requires
        catalog.well_formed(),
        marker_rekey(catalog, registries, rule) == Ok::<Option<MarkerRekeyView>, RejectionView>(
            Some(plan),
        ),
        0 <= marker < rule.body@.len(),
        0 <= edge < rule.body@.len(),
        rule.body@[marker].head is Table && atom_table(rule.body@[marker]) == plan.marker,
        rule.body@[edge].head is Table && atom_table(rule.body@[edge]) == plan.union_find.target,
    ensures
        ({
            let statement = stale_deletion(plan, stage);
            let staged = database(stage)[k];
            &&& marker_delete_sql(plan, stage) == deletion_sql(statement)
            &&& statement.table == table_text(plan.marker)
            &&& deletes(statement, database, row, k) <==> {
                &&& 0 <= k < database(stage).len()
                &&& forall|i: nat|
                    i < plan.n_keys ==> #[trigger] row(Name::C(i)) == staged(Name::C(i))
            }
            &&& rule.head@[1] matches CoreAction::Change(
                Change::Delete,
                RuleActionCall::Table { id },
                args,
            ) && id == plan.marker && args@.len() == plan.n_keys && (0 <= k < database(
                stage,
            ).len() && holds_terms(
                staged,
                rule.body@[marker].args@.drop_last().push(rule.body@[edge].args@[1]),
                world,
                assignment,
            ) ==> (deletes(statement, database, row, k) <==> holds_terms(
                row,
                args@,
                world,
                assignment,
            )))
        }),
{
    lemma_marker_head(catalog, registries, rule, plan, marker, edge);
    lemma_deletion_sql(plan, stage);
    let statement = stale_deletion(plan, stage);
    let condition = statement.condition;
    let staged = database(stage)[k];
    let env = two_rows(Alias::Existing, row, staged);
    assert forall|i: int| 0 <= i < plan.n_keys implies (clause_holds(#[trigger] condition[i], env)
        <==> row(Name::C(i as nat)) == staged(Name::C(i as nat))) by {}
    if condition_holds(condition, env) {
        assert forall|i: nat| i < plan.n_keys implies #[trigger] row(Name::C(i)) == staged(
            Name::C(i),
        ) by {
            assert(clause_holds(condition[i as int], env));
        }
    }
    if forall|i: nat| i < plan.n_keys ==> #[trigger] row(Name::C(i)) == staged(Name::C(i)) {
        assert forall|i: int| 0 <= i < condition.len() implies clause_holds(
            #[trigger] condition[i],
            env,
        ) by {
            assert(row(Name::C(i as nat)) == staged(Name::C(i as nat)));
        }
    }
    let terms = rule.body@[marker].args@.drop_last().push(rule.body@[edge].args@[1]);
    match rule.head@[1] {
        CoreAction::Change(change, call, args) => {
            if holds_terms(staged, terms, world, assignment) {
                assert forall|i: int| 0 <= i < args@.len() implies staged(Name::C(i as nat))
                    == term_value(#[trigger] args@[i], world, assignment) by {
                    assert(staged(Name::C(i as nat)) == term_value(terms[i], world, assignment));
                }
                if holds_terms(row, args@, world, assignment) {
                    assert forall|i: nat| i < plan.n_keys implies #[trigger] row(Name::C(i))
                        == staged(Name::C(i)) by {
                        assert(row(Name::C(i)) == term_value(args@[i as int], world, assignment));
                    }
                }
            }
        },
        _ => {},
    }
}

} // verus!
