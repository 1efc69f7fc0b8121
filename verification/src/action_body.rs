//! Lowering of scalar rule bodies to one joined match relation.

use std::collections::BTreeMap;

use vstd::prelude::*;

use crate::action_plan::{ScalarLiteral, ScalarValueRef};
use crate::authority::{AuthorityRegistries, NativePrimitive, NativeScalarPrimitive};
use crate::base::canonical_unit;
use crate::catalog::{sql_table, Catalog};
use crate::ir::{
    argument_ty, argument_tys, Atom, AtomTerm, ColumnTy, ExternalFunctionId, FunctionId, ReadMode,
    RuleBodyCall, RuleVar,
};
use crate::rejection::{reject, reject_because, reject_with, Rejection, Scope};
use crate::scalar_expr::{ScalarAuthority, ScalarExpression};
use crate::text::{append_number, join_strings};
#[allow(unused_imports)]
use crate::action_plan::{ref_views, value_views, ValueRefView};
#[allow(unused_imports)]
use crate::authority::entry;
#[allow(unused_imports)]
use crate::base::unit_value;
#[allow(unused_imports)]
use crate::catalog::{table_at, table_text, typed_literal};
#[allow(unused_imports)]
use crate::ir::term_ty;
#[allow(unused_imports)]
use crate::rejection::{agrees, rejected, rejected_because, steps_to, RejectionView};
#[allow(unused_imports)]
use crate::scalar_expr::{authenticated, defined_text, form_text, ScalarExpressionView};
#[allow(unused_imports)]
use crate::text::{decimal, join, texts};
use egglog_core_relations::BaseValues;

verus! {

/// Where a body variable gets its value.
#[derive(Debug)]
pub struct ScalarBodyBinding {
    pub ty: ColumnTy,
    pub expression: String,
    pub stage_column: usize,
}

/// What a [`ScalarBodyBinding`] says.
pub struct BodyBindingView {
    pub ty: ColumnTy,
    pub expression: Seq<char>,
    pub stage_column: usize,
}

impl View for ScalarBodyBinding {
    type V = BodyBindingView;

    open spec fn view(&self) -> BodyBindingView {
        BodyBindingView {
            ty: self.ty,
            expression: self.expression@,
            stage_column: self.stage_column,
        }
    }
}

/// A compiled body.
#[derive(Debug)]
pub struct ScalarBodyPlan {
    pub match_projection: Vec<String>,
    pub match_from: Vec<String>,
    pub match_predicates: Vec<String>,
    pub freshness_columns: Vec<String>,
    pub order_columns: Vec<String>,
    pub bindings: BTreeMap<u32, ScalarBodyBinding>,
    pub rows: Vec<(FunctionId, Vec<ScalarValueRef>)>,
    pub required_native_primitives: BTreeMap<u32, NativePrimitive>,
    pub required_native_scalar_primitives: BTreeMap<u32, NativeScalarPrimitive>,
}

/// What a [`ScalarBodyPlan`] says.
pub struct BodyView {
    pub match_projection: Seq<Seq<char>>,
    pub match_from: Seq<Seq<char>>,
    pub match_predicates: Seq<Seq<char>>,
    pub freshness_columns: Seq<Seq<char>>,
    pub order_columns: Seq<Seq<char>>,
    pub bindings: Map<u32, BodyBindingView>,
    pub rows: Seq<(FunctionId, Seq<ValueRefView>)>,
    pub required_native_primitives: Map<u32, NativePrimitive>,
    pub required_native_scalar_primitives: Map<u32, NativeScalarPrimitive>,
}

/// Body rows, through their views.
pub open spec fn row_views(rows: Seq<(FunctionId, Vec<ScalarValueRef>)>) -> Seq<
    (FunctionId, Seq<ValueRefView>),
> {
    rows.map_values(|row: (FunctionId, Vec<ScalarValueRef>)| (row.0, ref_views(row.1@)))
}

impl View for ScalarBodyPlan {
    type V = BodyView;

    open spec fn view(&self) -> BodyView {
        BodyView {
            match_projection: texts(self.match_projection@),
            match_from: texts(self.match_from@),
            match_predicates: texts(self.match_predicates@),
            freshness_columns: texts(self.freshness_columns@),
            order_columns: texts(self.order_columns@),
            bindings: value_views(self.bindings@),
            rows: row_views(self.rows@),
            required_native_primitives: self.required_native_primitives@,
            required_native_scalar_primitives: self.required_native_scalar_primitives@,
        }
    }
}

/// A body before any atom is compiled.
pub open spec fn empty_body() -> BodyView {
    BodyView {
        match_projection: Seq::empty(),
        match_from: Seq::empty(),
        match_predicates: Seq::empty(),
        freshness_columns: Seq::empty(),
        order_columns: Seq::empty(),
        bindings: Map::empty(),
        rows: Seq::empty(),
        required_native_primitives: Map::empty(),
        required_native_scalar_primitives: Map::empty(),
    }
}

/// A refusal of a scalar rule.
pub open spec fn refused(text: Seq<char>) -> RejectionView {
    rejected(Scope::Scalar, text)
}

/// The alias of an atom's relation.
pub open spec fn alias_text(atom_index: nat) -> Seq<char> {
    "b"@ + decimal(atom_index)
}

/// A column of an atom's relation.
pub open spec fn column_text(atom_index: nat, column: nat) -> Seq<char> {
    "b"@ + decimal(atom_index) + ".c"@ + decimal(column)
}

/// The refusal of a variable id with two types.
pub open spec fn retyped(variable: RuleVar) -> RejectionView {
    refused(
        "reuses variable id "@ + decimal(variable.id as nat) + " with inconsistent type metadata"@,
    )
}

/// Binds a variable to an expression, which becomes a column of the matches.
pub open spec fn bound(plan: BodyView, variable: RuleVar, expression: Seq<char>) -> BodyView {
    BodyView {
        match_projection: plan.match_projection.push(expression),
        bindings: plan.bindings.insert(
            variable.id,
            BodyBindingView {
                ty: variable.ty,
                expression,
                stage_column: plan.match_projection.len() as usize,
            },
        ),
        ..plan
    }
}

/// Whether a variable is bound at its own type.
pub open spec fn bound_as(plan: BodyView, variable: RuleVar) -> bool {
    plan.bindings.contains_key(variable.id) && plan.bindings[variable.id].ty == variable.ty
}

/// Binds a variable to a column unless it is bound already.
pub open spec fn prebind_variable(
    plan: BodyView,
    variable: RuleVar,
    expected: ColumnTy,
    expression: Seq<char>,
) -> Result<BodyView, RejectionView> {
    if variable.ty != expected {
        Err(refused("body variable has the wrong type"@))
    } else if plan.bindings.contains_key(variable.id) {
        if plan.bindings[variable.id].ty == variable.ty {
            Ok(plan)
        } else {
            Err(retyped(variable))
        }
    } else {
        Ok(bound(plan, variable, expression))
    }
}

/// Binds the variables of a row from column `from` on.
pub open spec fn prebind_row(
    plan: BodyView,
    row: Seq<AtomTerm>,
    schema: Seq<ColumnTy>,
    atom_index: nat,
    from: int,
) -> Result<BodyView, RejectionView>
    decreases row.len() - from,
{
    if from < 0 || from >= row.len() {
        Ok(plan)
    } else {
        match row[from] {
            AtomTerm::Var(variable) => match prebind_variable(
                plan,
                variable,
                schema[from],
                column_text(atom_index, from as nat),
            ) {
                Err(error) => Err(error),
                Ok(after) => prebind_row(after, row, schema, atom_index, from + 1),
            },
            _ => prebind_row(plan, row, schema, atom_index, from + 1),
        }
    }
}

/// Binds the variables of the table atoms from atom `from` on.
pub open spec fn prebind_tables(
    catalog: Catalog,
    plan: BodyView,
    atoms: Seq<Atom>,
    from: int,
) -> Result<BodyView, RejectionView>
    decreases atoms.len() - from,
{
    if from < 0 || from >= atoms.len() {
        Ok(plan)
    } else {
        match atoms[from].head {
            RuleBodyCall::Table { id, .. } => match table_at(catalog, id) {
                Err(error) => Err(error),
                Ok(info) => if atoms[from].args@.len() != info.schema@.len() {
                    Err(refused("body table has the wrong arity"@))
                } else {
                    match prebind_row(plan, atoms[from].args@, info.schema@, from as nat, 0) {
                        Err(error) => Err(error),
                        Ok(after) => prebind_tables(catalog, after, atoms, from + 1),
                    }
                },
            },
            _ => prebind_tables(catalog, plan, atoms, from + 1),
        }
    }
}

/// The columns below `count` that an index lists, ascending and without
/// repetition.
pub open spec fn occurrence_columns(any_of: Seq<usize>, count: nat) -> Seq<usize>
    decreases count,
{
    if count == 0 {
        Seq::empty()
    } else {
        let earlier = occurrence_columns(any_of, (count - 1) as nat);
        if any_of.contains((count - 1) as usize) {
            earlier.push((count - 1) as usize)
        } else {
            earlier
        }
    }
}

/// An index lists at least one column, and only columns of its table.
pub open spec fn occurrences_fit(any_of: Seq<usize>, arity: nat) -> bool {
    any_of.len() > 0 && forall|i: int| 0 <= i < any_of.len() ==> #[trigger] any_of[i] < arity
}

/// The first indexed column, from `from` on, that repeats the probe variable.
pub open spec fn repeated_probe(
    row: Seq<AtomTerm>,
    any_of: Seq<usize>,
    variable: RuleVar,
    from: int,
) -> Option<usize>
    decreases row.len() - from,
{
    if from < 0 || from >= row.len() {
        None
    } else if row[from] == AtomTerm::Var(variable) && any_of.contains(from as usize) {
        Some(from as usize)
    } else {
        repeated_probe(row, any_of, variable, from + 1)
    }
}

/// The column that can bind an unbound probe: an indexed column which repeats
/// it, or else the only indexed column.
pub open spec fn probe_column(
    row: Seq<AtomTerm>,
    any_of: Seq<usize>,
    arity: nat,
    variable: RuleVar,
) -> Option<usize> {
    match repeated_probe(row, any_of, variable, 0) {
        Some(column) => Some(column),
        None => {
            let columns = occurrence_columns(any_of, arity);
            if columns.len() == 1 {
                Some(columns[0])
            } else {
                None
            }
        },
    }
}

/// A body whose index atoms are being reached.
pub struct Reach {
    pub plan: BodyView,
    /// The index atoms reached so far, by position.
    pub admitted: Seq<bool>,
    pub changed: bool,
}

/// The index atom at `index` has been reached, and its row binds.
pub open spec fn reached(
    reach: Reach,
    index: int,
    row: Seq<AtomTerm>,
    schema: Seq<ColumnTy>,
    plan: BodyView,
) -> Result<Reach, RejectionView> {
    match prebind_row(plan, row, schema, index as nat, 0) {
        Err(error) => Err(error),
        Ok(after) => Ok(
            Reach { plan: after, admitted: reach.admitted.update(index, true), changed: true },
        ),
    }
}

/// Tries to reach one index atom: its probe is a literal, or bound at its type,
/// or can be bound from the index itself.
pub open spec fn reach_index(
    reach: Reach,
    index: int,
    args: Seq<AtomTerm>,
    any_of: Seq<usize>,
    schema: Seq<ColumnTy>,
) -> Result<Reach, RejectionView> {
    if args.len() == 0 {
        Err(rejected(Scope::Bare, "index atom has no probe"@))
    } else if args.len() == 1 {
        Err(rejected(Scope::Bare, "index atom has no Unit output"@))
    } else {
        let row = args.subrange(1, args.len() - 1);
        if row.len() != schema.len() {
            Err(refused("index row has the wrong arity"@))
        } else if !occurrences_fit(any_of, schema.len()) {
            Err(refused("index has invalid occurrence columns"@))
        } else {
            match args[0] {
                AtomTerm::Literal(_) => reached(reach, index, row, schema, reach.plan),
                AtomTerm::Global(_) => Ok(reach),
                AtomTerm::Var(variable) => if bound_as(reach.plan, variable) {
                    reached(reach, index, row, schema, reach.plan)
                } else {
                    match probe_column(row, any_of, schema.len(), variable) {
                        None => Ok(reach),
                        Some(column) => if reach.plan.bindings.contains_key(variable.id) {
                            reached(reach, index, row, schema, reach.plan)
                        } else {
                            match prebind_variable(
                                reach.plan,
                                variable,
                                schema[column as int],
                                column_text(index as nat, column as nat),
                            ) {
                                Err(error) => Err(error),
                                Ok(plan) => reached(reach, index, row, schema, plan),
                            }
                        },
                    }
                },
            }
        }
    }
}

/// One pass over the index atoms from atom `from` on.
pub open spec fn sweep(catalog: Catalog, reach: Reach, atoms: Seq<Atom>, from: int) -> Result<
    Reach,
    RejectionView,
>
    decreases atoms.len() - from,
{
    if from < 0 || from >= atoms.len() {
        Ok(reach)
    } else {
        match atoms[from].head {
            RuleBodyCall::IndexTable { id, any_of, .. } => if reach.admitted[from] {
                sweep(catalog, reach, atoms, from + 1)
            } else {
                match table_at(catalog, id) {
                    Err(error) => Err(error),
                    Ok(info) => match reach_index(
                        reach,
                        from,
                        atoms[from].args@,
                        any_of@,
                        info.schema@,
                    ) {
                        Err(error) => Err(error),
                        Ok(after) => sweep(catalog, after, atoms, from + 1),
                    },
                }
            },
            _ => sweep(catalog, reach, atoms, from + 1),
        }
    }
}

/// The number of atoms not marked, among the first `count`.
pub open spec fn unmarked(marks: Seq<bool>, count: nat) -> nat
    decreases count,
{
    if count == 0 {
        0
    } else {
        unmarked(marks, (count - 1) as nat) + if marks[count - 1] {
            0nat
        } else {
            1nat
        }
    }
}

/// Marking one more atom leaves one less unmarked.
pub proof fn lemma_mark(marks: Seq<bool>, index: int, count: nat)
    requires
        0 <= index < marks.len(),
        count <= marks.len(),
        !marks[index],
    ensures
        unmarked(marks.update(index, true), count) == if index < count {
            (unmarked(marks, count) - 1) as nat
        } else {
            unmarked(marks, count)
        },
        index < count ==> unmarked(marks, count) > 0,
    decreases count,
{
    if count > 0 {
        lemma_mark(marks, index, (count - 1) as nat);
    }
}

/// A pass never loses a mark, and one that changed anything set a new one.
pub proof fn lemma_sweep_progress(catalog: Catalog, reach: Reach, atoms: Seq<Atom>, from: int)
    requires
        0 <= from <= atoms.len(),
        reach.admitted.len() == atoms.len(),
        sweep(catalog, reach, atoms, from) is Ok,
    ensures
        ({
            let after = sweep(catalog, reach, atoms, from)->Ok_0;
            &&& after.admitted.len() == atoms.len()
            &&& unmarked(after.admitted, atoms.len()) <= unmarked(reach.admitted, atoms.len())
            &&& after.changed && !reach.changed ==> unmarked(after.admitted, atoms.len())
                < unmarked(reach.admitted, atoms.len())
        }),
    decreases atoms.len() - from,
{
    if from < atoms.len() {
        match atoms[from].head {
            RuleBodyCall::IndexTable { id, any_of, .. } => {
                if reach.admitted[from] {
                    lemma_sweep_progress(catalog, reach, atoms, from + 1);
                } else {
                    let info = table_at(catalog, id)->Ok_0;
                    let next = reach_index(
                        reach,
                        from,
                        atoms[from].args@,
                        any_of@,
                        info.schema@,
                    )->Ok_0;
                    lemma_mark(reach.admitted, from, atoms.len());
                    lemma_sweep_progress(catalog, next, atoms, from + 1);
                }
            },
            _ => {
                lemma_sweep_progress(catalog, reach, atoms, from + 1);
            },
        }
    }
}

/// Passes over the index atoms until one changes nothing.
pub open spec fn saturate(
    catalog: Catalog,
    plan: BodyView,
    admitted: Seq<bool>,
    atoms: Seq<Atom>,
) -> Result<(BodyView, Seq<bool>), RejectionView>
    decreases unmarked(admitted, atoms.len()),
    when admitted.len() == atoms.len()
    via saturate_decreases
{
    match sweep(catalog, Reach { plan, admitted, changed: false }, atoms, 0) {
        Err(error) => Err(error),
        Ok(after) => if after.changed {
            saturate(catalog, after.plan, after.admitted, atoms)
        } else {
            Ok((after.plan, after.admitted))
        },
    }
}

#[via_fn]
proof fn saturate_decreases(
    catalog: Catalog,
    plan: BodyView,
    admitted: Seq<bool>,
    atoms: Seq<Atom>,
) {
    let start = Reach { plan, admitted, changed: false };
    if sweep(catalog, start, atoms, 0) is Ok {
        lemma_sweep_progress(catalog, start, atoms, 0);
    }
}

/// Every index atom is marked.
pub open spec fn all_reached(atoms: Seq<Atom>, admitted: Seq<bool>) -> bool {
    forall|i: int|
        0 <= i < atoms.len() && (#[trigger] atoms[i]).head is IndexTable ==> admitted[i]
}

/// Binds every variable that some row can bind: table rows first, then index
/// rows for as long as they can be reached.
pub open spec fn prebind(catalog: Catalog, atoms: Seq<Atom>) -> Result<BodyView, RejectionView> {
    match prebind_tables(catalog, empty_body(), atoms, 0) {
        Err(error) => Err(error),
        Ok(seeded) => match saturate(
            catalog,
            seeded,
            Seq::new(atoms.len(), |i: int| false),
            atoms,
        ) {
            Err(error) => Err(error),
            Ok((plan, admitted)) => if all_reached(atoms, admitted) {
                Ok(plan)
            } else {
                Err(refused("contains an unreachable occurrence probe"@))
            },
        },
    }
}

/// The rows that a read mode admits.
pub open spec fn read_test(alias: Seq<char>, read: ReadMode) -> Option<Seq<char>> {
    match read {
        ReadMode::Live => Some(alias + ".__subsumed = FALSE"@),
        ReadMode::Subsumed => Some(alias + ".__subsumed = TRUE"@),
        ReadMode::All => None,
    }
}

/// The columns of an atom's relation.
pub open spec fn relation_columns(atom_index: nat, arity: nat) -> Seq<Seq<char>> {
    Seq::new(arity, |column: int| column_text(atom_index, column as nat))
}

/// Joins a table. Matches are ordered by its generation and then its columns.
pub open spec fn joined(
    plan: BodyView,
    id: FunctionId,
    read: ReadMode,
    atom_index: nat,
    arity: nat,
) -> BodyView {
    let alias = alias_text(atom_index);
    BodyView {
        match_from: plan.match_from.push(table_text(id) + " AS "@ + alias),
        match_predicates: match read_test(alias, read) {
            Some(test) => plan.match_predicates.push(test),
            None => plan.match_predicates,
        },
        freshness_columns: plan.freshness_columns.push(alias + ".__generation"@),
        order_columns: plan.order_columns.push(alias + ".__generation"@) + relation_columns(
            atom_index,
            arity,
        ),
        ..plan
    }
}

/// Adds a condition on the matches.
pub open spec fn tested(plan: BodyView, test: Seq<char>) -> BodyView {
    BodyView { match_predicates: plan.match_predicates.push(test), ..plan }
}

/// Two expressions are the same, nulls included.
pub open spec fn same_sql(left: Seq<char>, right: Seq<char>) -> Seq<char> {
    left + " IS NOT DISTINCT FROM "@ + right
}

/// Ties a term to an expression: a known variable or a literal is compared, a
/// new variable is bound.
pub open spec fn bind_term(
    catalog: Catalog,
    plan: BodyView,
    term: AtomTerm,
    expected: ColumnTy,
    expression: Seq<char>,
) -> Result<BodyView, RejectionView> {
    match term {
        AtomTerm::Var(variable) => if variable.ty != expected {
            Err(refused("body variable has the wrong type"@))
        } else if plan.bindings.contains_key(variable.id) {
            if plan.bindings[variable.id].ty == variable.ty {
                Ok(tested(plan, same_sql(expression, plan.bindings[variable.id].expression)))
            } else {
                Err(retyped(variable))
            }
        } else {
            Ok(bound(plan, variable, expression))
        },
        AtomTerm::Literal(literal) => if literal.ty != expected {
            Err(refused("has a mistyped body literal"@))
        } else {
            match typed_literal(catalog, expected, literal.value) {
                Err(error) => Err(error),
                Ok((_, sql)) => Ok(tested(plan, same_sql(expression, sql))),
            }
        },
        AtomTerm::Global(_) => Err(refused("contains an unsupported body global"@)),
    }
}

/// Ties the terms of a row to its columns from column `from` on.
pub open spec fn bind_row(
    catalog: Catalog,
    plan: BodyView,
    row: Seq<AtomTerm>,
    schema: Seq<ColumnTy>,
    atom_index: nat,
    from: int,
) -> Result<BodyView, RejectionView>
    decreases row.len() - from,
{
    if from < 0 || from >= row.len() {
        Ok(plan)
    } else {
        match bind_term(
            catalog,
            plan,
            row[from],
            schema[from],
            column_text(atom_index, from as nat),
        ) {
            Err(error) => Err(error),
            Ok(after) => bind_row(catalog, after, row, schema, atom_index, from + 1),
        }
    }
}

/// A term of a matched row as a value.
pub open spec fn body_ref(
    catalog: Catalog,
    bindings: Map<u32, BodyBindingView>,
    term: AtomTerm,
    expected: ColumnTy,
) -> Result<ValueRefView, RejectionView> {
    match term {
        AtomTerm::Var(variable) => if variable.ty != expected {
            Err(refused("body row has a mistyped variable"@))
        } else if !bindings.contains_key(variable.id) {
            Err(refused("body row uses an unbound variable"@))
        } else if bindings[variable.id].ty != variable.ty {
            Err(retyped(variable))
        } else {
            Ok(ValueRefView::Body(bindings[variable.id].stage_column))
        },
        AtomTerm::Literal(literal) => if literal.ty != expected {
            Err(refused("body row has a mistyped literal"@))
        } else {
            match typed_literal(catalog, expected, literal.value) {
                Err(error) => Err(error),
                Ok((scalar, sql)) => Ok(ValueRefView::Literal { value: literal, scalar, sql }),
            }
        },
        AtomTerm::Global(_) => Err(refused("body row contains an unsupported global"@)),
    }
}

/// The terms of a matched row as values, from column `from` on.
pub open spec fn body_refs(
    catalog: Catalog,
    bindings: Map<u32, BodyBindingView>,
    row: Seq<AtomTerm>,
    schema: Seq<ColumnTy>,
    from: int,
    done: Seq<ValueRefView>,
) -> Result<Seq<ValueRefView>, RejectionView>
    decreases row.len() - from,
{
    if from < 0 || from >= row.len() {
        Ok(done)
    } else {
        match body_ref(catalog, bindings, row[from], schema[from]) {
            Err(error) => Err(error),
            Ok(value) => body_refs(catalog, bindings, row, schema, from + 1, done.push(value)),
        }
    }
}

/// A term as an SQL expression over the joined relations.
pub open spec fn body_term(
    catalog: Catalog,
    bindings: Map<u32, BodyBindingView>,
    term: AtomTerm,
    expected: ColumnTy,
    context: Seq<char>,
) -> Result<Seq<char>, RejectionView> {
    match term {
        AtomTerm::Var(variable) => if variable.ty != expected {
            Err(refused(context + " has a mistyped variable"@))
        } else if !bindings.contains_key(variable.id) {
            Err(
                refused(
                    context + " uses variable id "@ + decimal(variable.id as nat)
                        + " before binding"@,
                ),
            )
        } else if bindings[variable.id].ty != variable.ty {
            Err(retyped(variable))
        } else {
            Ok(bindings[variable.id].expression)
        },
        AtomTerm::Literal(literal) => if literal.ty != expected {
            Err(refused(context + " has a mistyped literal"@))
        } else {
            match typed_literal(catalog, expected, literal.value) {
                Err(error) => Err(error),
                Ok((_, sql)) => Ok(sql),
            }
        },
        AtomTerm::Global(_) => Err(refused(context + " contains an unsupported global"@)),
    }
}

/// The first `count` terms as SQL expressions, from `from` on.
pub open spec fn body_terms(
    catalog: Catalog,
    bindings: Map<u32, BodyBindingView>,
    terms: Seq<AtomTerm>,
    count: int,
    from: int,
    done: Seq<Seq<char>>,
) -> Result<Seq<Seq<char>>, RejectionView>
    decreases count - from,
{
    if from < 0 || from >= count {
        Ok(done)
    } else {
        match body_term(
            catalog,
            bindings,
            terms[from],
            term_ty(terms[from]),
            "primitive input"@,
        ) {
            Err(error) => Err(error),
            Ok(text) => body_terms(catalog, bindings, terms, count, from + 1, done.push(text)),
        }
    }
}

/// Ties a row to a joined table and remembers it.
pub open spec fn match_row(
    catalog: Catalog,
    plan: BodyView,
    id: FunctionId,
    row: Seq<AtomTerm>,
    schema: Seq<ColumnTy>,
    atom_index: nat,
) -> Result<BodyView, RejectionView> {
    match bind_row(catalog, plan, row, schema, atom_index, 0) {
        Err(error) => Err(error),
        Ok(tied) => match body_refs(catalog, tied.bindings, row, schema, 0, Seq::empty()) {
            Err(error) => Err(error),
            Ok(values) => Ok(BodyView { rows: tied.rows.push((id, values)), ..tied }),
        },
    }
}

/// Compiles a table atom.
pub open spec fn table_atom(
    catalog: Catalog,
    plan: BodyView,
    id: FunctionId,
    read: ReadMode,
    args: Seq<AtomTerm>,
    atom_index: nat,
) -> Result<BodyView, RejectionView> {
    match table_at(catalog, id) {
        Err(error) => Err(
            rejected_because(
                Scope::Scalar,
                "references invalid body table "@ + decimal(id.rep as nat),
                error.text,
            ),
        ),
        Ok(info) => if args.len() != info.schema@.len() {
            Err(
                refused(
                    "body table `"@ + info.name@ + "` expects "@ + decimal(info.schema@.len())
                        + " arguments, got "@ + decimal(args.len()),
                ),
            )
        } else {
            match_row(
                catalog,
                joined(plan, id, read, atom_index, info.schema@.len()),
                id,
                args,
                info.schema@,
                atom_index,
            )
        },
    }
}

/// The first listed column, from `from` on, whose type is not the probe's.
pub open spec fn mistyped_occurrence(
    columns: Seq<usize>,
    schema: Seq<ColumnTy>,
    ty: ColumnTy,
    from: int,
) -> Option<usize>
    decreases columns.len() - from,
{
    if from < 0 || from >= columns.len() {
        None
    } else if schema[columns[from] as int] != ty {
        Some(columns[from])
    } else {
        mistyped_occurrence(columns, schema, ty, from + 1)
    }
}

/// The probe occurs in one of the listed columns.
pub open spec fn occurrence_test(
    atom_index: nat,
    columns: Seq<usize>,
    probe: Seq<char>,
) -> Seq<char> {
    let tests = columns.map_values(
        |column: usize| same_sql(column_text(atom_index, column as nat), probe),
    );
    "("@ + join(tests, " OR "@) + ")"@
}

/// Compiles an index atom.
pub open spec fn index_atom(
    catalog: Catalog,
    plan: BodyView,
    id: FunctionId,
    any_of: Seq<usize>,
    read: ReadMode,
    args: Seq<AtomTerm>,
    atom_index: nat,
) -> Result<BodyView, RejectionView> {
    match table_at(catalog, id) {
        Err(error) => Err(error),
        Ok(info) => {
            let schema = info.schema@;
            if any_of.len() == 0 {
                Err(refused("index lists no occurrence columns"@))
            } else if !occurrences_fit(any_of, schema.len()) {
                Err(refused("index has an out-of-range occurrence column"@))
            } else if args.len() == 0 {
                Err(rejected(Scope::Bare, "index atom has no probe"@))
            } else if args.len() == 1 {
                Err(rejected(Scope::Bare, "index atom has no Unit output"@))
            } else if args.len() - 2 != schema.len() {
                Err(refused("index row has the wrong arity"@))
            } else if !unit_output(catalog, args.last()) {
                Err(refused("index output must be canonical Unit"@))
            } else {
                let columns = occurrence_columns(any_of, schema.len());
                match mistyped_occurrence(columns, schema, term_ty(args[0]), 0) {
                    Some(column) => Err(
                        refused(
                            "index probe type disagrees with occurrence column "@ + decimal(
                                column as nat,
                            ),
                        ),
                    ),
                    None => match body_term(
                        catalog,
                        plan.bindings,
                        args[0],
                        term_ty(args[0]),
                        "index probe"@,
                    ) {
                        Err(error) => Err(error),
                        Ok(probe) => match_row(
                            catalog,
                            tested(
                                joined(plan, id, read, atom_index, schema.len()),
                                occurrence_test(atom_index, columns, probe),
                            ),
                            id,
                            args.subrange(1, args.len() - 1),
                            schema,
                            atom_index,
                        ),
                    },
                }
            }
        },
    }
}

/// A term is the unit value, written as a literal.
pub open spec fn unit_output(catalog: Catalog, term: AtomTerm) -> bool {
    term matches AtomTerm::Literal(literal) && literal.ty == ColumnTy::Base(catalog.types.unit)
        && literal.value == unit_value()
}

/// Ties the output term of a primitive to its value.
pub open spec fn bind_output(
    catalog: Catalog,
    plan: BodyView,
    term: AtomTerm,
    output: ColumnTy,
    value: Seq<char>,
) -> Result<BodyView, RejectionView> {
    match term {
        AtomTerm::Var(variable) => if variable.ty != output {
            Err(refused("primitive output variable has the wrong type"@))
        } else if plan.bindings.contains_key(variable.id) {
            if plan.bindings[variable.id].ty == variable.ty {
                Ok(tested(plan, same_sql(value, plan.bindings[variable.id].expression)))
            } else {
                Err(retyped(variable))
            }
        } else {
            Ok(bound(plan, variable, value))
        },
        AtomTerm::Literal(literal) => if literal.ty != output {
            Err(refused("primitive output literal has the wrong type"@))
        } else {
            match typed_literal(catalog, output, literal.value) {
                Err(error) => Err(error),
                Ok((_, sql)) => Ok(tested(plan, same_sql(value, sql))),
            }
        },
        AtomTerm::Global(_) => Err(refused("primitive output cannot be a global"@)),
    }
}

/// Remembers the authority that an expression rests on.
pub open spec fn remember_authority(
    plan: BodyView,
    token: ExternalFunctionId,
    authority: ScalarAuthority,
) -> BodyView {
    match authority {
        ScalarAuthority::Native(descriptor) => BodyView {
            required_native_primitives: plan.required_native_primitives.insert(
                token.rep,
                descriptor,
            ),
            ..plan
        },
        ScalarAuthority::Typed(descriptor) => BodyView {
            required_native_scalar_primitives: plan.required_native_scalar_primitives.insert(
                token.rep,
                descriptor,
            ),
            ..plan
        },
    }
}

/// Compiles a primitive atom. A partial primitive only matches where it is
/// defined.
pub open spec fn primitive_atom(
    catalog: Catalog,
    registries: AuthorityRegistries,
    plan: BodyView,
    token: ExternalFunctionId,
    output: ColumnTy,
    args: Seq<AtomTerm>,
) -> Result<BodyView, RejectionView> {
    if args.len() == 0 {
        Err(refused("primitive body atom has no output term"@))
    } else {
        let count = args.len() - 1;
        let tys = args.take(count).map_values(|t: AtomTerm| term_ty(t));
        match authenticated(catalog.forms@, registries, token, tys, output) {
            Err(error) => Err(
                rejected_because(
                    Scope::Scalar,
                    "has an invalid primitive body atom"@,
                    error.text,
                ),
            ),
            Ok(expression) => match body_terms(
                catalog,
                plan.bindings,
                args,
                count,
                0,
                Seq::empty(),
            ) {
                Err(error) => Err(error),
                Ok(inputs) => {
                    let guarded = match defined_text(expression, inputs) {
                        Some(defined) => tested(plan, defined),
                        None => plan,
                    };
                    match bind_output(
                        catalog,
                        guarded,
                        args.last(),
                        output,
                        form_text(expression.value, inputs),
                    ) {
                        Err(error) => Err(error),
                        Ok(tied) => Ok(remember_authority(tied, token, expression.authority)),
                    }
                },
            },
        }
    }
}

/// Compiles one atom.
pub open spec fn atom_step(
    catalog: Catalog,
    registries: AuthorityRegistries,
    plan: BodyView,
    atom: Atom,
    atom_index: nat,
) -> Result<BodyView, RejectionView> {
    match atom.head {
        RuleBodyCall::Table { id, read } => table_atom(
            catalog,
            plan,
            id,
            read,
            atom.args@,
            atom_index,
        ),
        RuleBodyCall::IndexTable { id, any_of, read } => index_atom(
            catalog,
            plan,
            id,
            any_of@,
            read,
            atom.args@,
            atom_index,
        ),
        RuleBodyCall::Primitive { id, output, .. } => primitive_atom(
            catalog,
            registries,
            plan,
            id,
            output,
            atom.args@,
        ),
    }
}

/// Compiles the atoms from atom `from` on.
pub open spec fn atom_steps(
    catalog: Catalog,
    registries: AuthorityRegistries,
    plan: BodyView,
    atoms: Seq<Atom>,
    from: int,
) -> Result<BodyView, RejectionView>
    decreases atoms.len() - from,
{
    if from < 0 || from >= atoms.len() {
        Ok(plan)
    } else {
        match atom_step(catalog, registries, plan, atoms[from], from as nat) {
            Err(error) => Err(error),
            Ok(after) => atom_steps(catalog, registries, after, atoms, from + 1),
        }
    }
}

/// The compiled body of a rule. Row variables are bound first, whatever the
/// order of the atoms; then every atom adds its relation and its conditions.
pub open spec fn scalar_body(
    catalog: Catalog,
    registries: AuthorityRegistries,
    atoms: Seq<Atom>,
) -> Result<BodyView, RejectionView> {
    match prebind(catalog, atoms) {
        Err(error) => Err(error),
        Ok(plan) => atom_steps(catalog, registries, plan, atoms, 0),
    }
}

impl ScalarBodyPlan {
    fn push_predicate(&mut self, text: String)
        ensures
            final(self)@ == (BodyView {
                match_predicates: old(self)@.match_predicates.push(text@),
                ..old(self)@
            }),
    {
        let ghost before = self.match_predicates@;
        self.match_predicates.push(text);
        assert(texts(self.match_predicates@) =~= texts(before).push(text@));
    }

    fn push_from(&mut self, text: String)
        ensures
            final(self)@ == (BodyView {
                match_from: old(self)@.match_from.push(text@),
                ..old(self)@
            }),
    {
        let ghost before = self.match_from@;
        self.match_from.push(text);
        assert(texts(self.match_from@) =~= texts(before).push(text@));
    }

    fn push_freshness(&mut self, text: String)
        ensures
            final(self)@ == (BodyView {
                freshness_columns: old(self)@.freshness_columns.push(text@),
                ..old(self)@
            }),
    {
        let ghost before = self.freshness_columns@;
        self.freshness_columns.push(text);
        assert(texts(self.freshness_columns@) =~= texts(before).push(text@));
    }

    fn push_order(&mut self, text: String)
        ensures
            final(self)@ == (BodyView {
                order_columns: old(self)@.order_columns.push(text@),
                ..old(self)@
            }),
    {
        let ghost before = self.order_columns@;
        self.order_columns.push(text);
        assert(texts(self.order_columns@) =~= texts(before).push(text@));
    }

    fn push_row(&mut self, id: FunctionId, row: Vec<ScalarValueRef>)
        ensures
            final(self)@ == (BodyView {
                rows: old(self)@.rows.push((id, ref_views(row@))),
                ..old(self)@
            }),
    {
        let ghost before = self.rows@;
        self.rows.push((id, row));
        assert(row_views(self.rows@) =~= row_views(before).push((id, ref_views(row@))));
    }

    fn bind_new(&mut self, variable: RuleVar, expression: String)
        ensures
            final(self)@ == bound(old(self)@, variable, expression@),
    {
        let stage_column: usize = self.match_projection.len();
        let ghost projection = self.match_projection@;
        let ghost bindings = self.bindings@;
        self.match_projection.push(expression.clone());
        let binding = ScalarBodyBinding { ty: variable.ty, expression, stage_column };
        self.bindings.insert(variable.id, binding);
        proof {
            assert(texts(self.match_projection@) =~= texts(projection).push(expression@));
            assert(value_views(self.bindings@) =~= value_views(bindings).insert(
                variable.id,
                binding@,
            ));
        }
    }

    /// The binding of a variable id.
    fn binding(&self, id: u32) -> (binding: Option<&ScalarBodyBinding>)
        ensures
            match binding {
                Some(found) => entry(self@.bindings, id) == Some(found@),
                None => entry(self@.bindings, id) is None,
            },
    {
        self.bindings.get(&id)
    }

    fn prebind_scalar_variable(
        &mut self,
        variable: RuleVar,
        expected: ColumnTy,
        expression: String,
    ) -> (done: Result<(), Rejection>)
        ensures
            steps_to(
                done,
                final(self)@,
                prebind_variable(old(self)@, variable, expected, expression@),
            ),
    {
        if variable.ty != expected {
            return Err(reject(Scope::Scalar, "body variable has the wrong type"));
        }
        match self.binding(variable.id) {
            Some(binding) => {
                if binding.ty == variable.ty {
                    return Ok(());
                }
                return Err(reject_retyped(variable));
            },
            None => {},
        }
        self.bind_new(variable, expression);
        Ok(())
    }

    fn prebind_scalar_row(
        &mut self,
        args: &Vec<AtomTerm>,
        offset: usize,
        schema: &Vec<ColumnTy>,
        atom_index: usize,
    ) -> (done: Result<(), Rejection>)
        requires
            offset + schema@.len() <= args@.len(),
        ensures
            steps_to(
                done,
                final(self)@,
                prebind_row(
                    old(self)@,
                    args@.subrange(offset as int, offset + schema@.len()),
                    schema@,
                    atom_index as nat,
                    0,
                ),
            ),
    {
        let ghost row = args@.subrange(offset as int, offset + schema@.len());
        let mut column: usize = 0;
        while column < schema.len()
            invariant
                column <= schema.len(),
                offset + schema@.len() <= args.len(),
                row == args@.subrange(offset as int, offset + schema@.len()),
                prebind_row(old(self)@, row, schema@, atom_index as nat, 0) == prebind_row(
                    self@,
                    row,
                    schema@,
                    atom_index as nat,
                    column as int,
                ),
            decreases schema.len() - column,
        {
            assert(row[column as int] == args@[offset + column]);
            match args[offset + column] {
                AtomTerm::Var(variable) => {
                    self.prebind_scalar_variable(
                        variable,
                        schema[column],
                        column_string(atom_index, column),
                    )?;
                },
                _ => {},
            }
            column += 1;
        }
        Ok(())
    }

    fn prebind_table_atoms(&mut self, catalog: &Catalog, atoms: &Vec<Atom>) -> (done: Result<
        (),
        Rejection,
    >)
        requires
            catalog.well_formed(),
        ensures
            steps_to(done, final(self)@, prebind_tables(*catalog, old(self)@, atoms@, 0)),
    {
        let mut i: usize = 0;
        while i < atoms.len()
            invariant
                i <= atoms.len(),
                catalog.well_formed(),
                prebind_tables(*catalog, old(self)@, atoms@, 0) == prebind_tables(
                    *catalog,
                    self@,
                    atoms@,
                    i as int,
                ),
            decreases atoms.len() - i,
        {
            match &atoms[i].head {
                RuleBodyCall::Table { id, .. } => {
                    let info = catalog.table_info(*id)?;
                    if atoms[i].args.len() != info.arity() {
                        return Err(reject(Scope::Scalar, "body table has the wrong arity"));
                    }
                    assert(atoms@[i as int].args@.subrange(0, info.schema@.len() as int)
                        =~= atoms@[i as int].args@);
                    self.prebind_scalar_row(&atoms[i].args, 0, &info.schema, i)?;
                },
                _ => {},
            }
            i += 1;
        }
        Ok(())
    }
}

fn reject_retyped(variable: RuleVar) -> (rejection: Rejection)
    ensures
        rejection@ == retyped(variable),
{
    let mut text = "reuses variable id ".to_owned();
    append_number(&mut text, variable.id as u64);
    text.append(" with inconsistent type metadata");
    reject_with(Scope::Scalar, text)
}

fn alias_string(atom_index: usize) -> (text: String)
    ensures
        text@ == alias_text(atom_index as nat),
{
    let mut text = "b".to_owned();
    append_number(&mut text, atom_index as u64);
    text
}

fn column_string(atom_index: usize, column: usize) -> (text: String)
    ensures
        text@ == column_text(atom_index as nat, column as nat),
{
    let mut text = "b".to_owned();
    append_number(&mut text, atom_index as u64);
    text.append(".c");
    append_number(&mut text, column as u64);
    text
}

// ---------------------------------------------------------------------------
// Reaching index atoms.

fn contains_index(list: &Vec<usize>, index: usize) -> (found: bool)
    ensures
        found == list@.contains(index),
{
    let mut i: usize = 0;
    while i < list.len()
        invariant
            i <= list.len(),
            forall|j: int| 0 <= j < i ==> list@[j] != index,
        decreases list.len() - i,
    {
        if list[i] == index {
            assert(list@[i as int] == index);
            return true;
        }
        i += 1;
    }
    false
}

fn fits_arity(any_of: &Vec<usize>, arity: usize) -> (fits: bool)
    ensures
        fits == forall|i: int| 0 <= i < any_of@.len() ==> #[trigger] any_of@[i] < arity,
{
    let mut i: usize = 0;
    while i < any_of.len()
        invariant
            i <= any_of.len(),
            forall|j: int| 0 <= j < i ==> #[trigger] any_of@[j] < arity,
        decreases any_of.len() - i,
    {
        if any_of[i] >= arity {
            return false;
        }
        i += 1;
    }
    true
}

/// Listed columns are below the bound.
proof fn lemma_occurrences_below(any_of: Seq<usize>, count: nat)
    requires
        count <= usize::MAX,
    ensures
        forall|i: int|
            0 <= i < occurrence_columns(any_of, count).len() ==> #[trigger] occurrence_columns(
                any_of,
                count,
            )[i] < count,
    decreases count,
{
    if count > 0 {
        lemma_occurrences_below(any_of, (count - 1) as nat);
        let earlier = occurrence_columns(any_of, (count - 1) as nat);
        let columns = occurrence_columns(any_of, count);
        assert forall|i: int| 0 <= i < columns.len() implies #[trigger] columns[i] < count by {
            if i < earlier.len() {
                assert(columns[i] == earlier[i]);
            }
        }
    }
}

fn occurrence_list(any_of: &Vec<usize>, arity: usize) -> (columns: Vec<usize>)
    ensures
        columns@ == occurrence_columns(any_of@, arity as nat),
        forall|i: int| 0 <= i < columns@.len() ==> #[trigger] columns@[i] < arity,
{
    let mut columns: Vec<usize> = Vec::new();
    let mut column: usize = 0;
    while column < arity
        invariant
            column <= arity,
            columns@ == occurrence_columns(any_of@, column as nat),
        decreases arity - column,
    {
        if contains_index(any_of, column) {
            columns.push(column);
        }
        column += 1;
    }
    proof {
        lemma_occurrences_below(any_of@, arity as nat);
    }
    columns
}

fn find_probe_column(args: &Vec<AtomTerm>, any_of: &Vec<usize>, arity: usize, variable: RuleVar)
    -> (column: Option<usize>)
    requires
        args@.len() == arity + 2,
    ensures
        column == probe_column(args@.subrange(1, arity + 1), any_of@, arity as nat, variable),
        column is Some ==> column->0 < arity,
{
    let ghost row = args@.subrange(1, arity + 1);
    let mut i: usize = 0;
    while i < arity
        invariant
            i <= arity,
            args.len() == arity + 2,
            row == args@.subrange(1, arity + 1),
            repeated_probe(row, any_of@, variable, 0) == repeated_probe(
                row,
                any_of@,
                variable,
                i as int,
            ),
        decreases arity - i,
    {
        assert(row[i as int] == args@[i + 1]);
        let repeats = match args[i + 1] {
            AtomTerm::Var(other) => other == variable,
            _ => false,
        };
        if repeats && contains_index(any_of, i) {
            return Some(i);
        }
        i += 1;
    }
    let columns = occurrence_list(any_of, arity);
    if columns.len() == 1 {
        Some(columns[0])
    } else {
        None
    }
}

impl ScalarBodyPlan {
    /// Tries to reach one index atom; says whether it did.
    fn reach_index_atom(
        &mut self,
        args: &Vec<AtomTerm>,
        any_of: &Vec<usize>,
        schema: &Vec<ColumnTy>,
        atom_index: usize,
        marks: Ghost<Seq<bool>>,
        changed: Ghost<bool>,
    ) -> (reached_now: Result<bool, Rejection>)
        requires
            atom_index < marks@.len(),
        ensures
            match (
                reached_now,
                reach_index(
                    Reach { plan: old(self)@, admitted: marks@, changed: changed@ },
                    atom_index as int,
                    args@,
                    any_of@,
                    schema@,
                ),
            ) {
                (Ok(now), Ok(after)) => {
                    &&& final(self)@ == after.plan
                    &&& after.admitted == if now {
                        marks@.update(atom_index as int, true)
                    } else {
                        marks@
                    }
                    &&& after.changed == (now || changed@)
                },
                (Err(error), Err(model)) => error@ == model,
                _ => false,
            },
    {
        if args.len() == 0 {
            return Err(reject(Scope::Bare, "index atom has no probe"));
        }
        if args.len() == 1 {
            return Err(reject(Scope::Bare, "index atom has no Unit output"));
        }
        if args.len() - 2 != schema.len() {
            return Err(reject(Scope::Scalar, "index row has the wrong arity"));
        }
        if any_of.len() == 0 || !fits_arity(any_of, schema.len()) {
            return Err(reject(Scope::Scalar, "index has invalid occurrence columns"));
        }
        assert(args@.subrange(1, args@.len() - 1) == args@.subrange(1, 1 + schema@.len() as int));
        match args[0] {
            AtomTerm::Literal(_) => {},
            AtomTerm::Global(_) => {
                return Ok(false);
            },
            AtomTerm::Var(variable) => {
                let (known, fits) = match self.binding(variable.id) {
                    Some(binding) => (true, binding.ty == variable.ty),
                    None => (false, false),
                };
                if !fits {
                    match find_probe_column(args, any_of, schema.len(), variable) {
                        None => {
                            return Ok(false);
                        },
                        Some(column) => {
                            if !known {
                                self.prebind_scalar_variable(
                                    variable,
                                    schema[column],
                                    column_string(atom_index, column),
                                )?;
                            }
                        },
                    }
                }
            },
        }
        self.prebind_scalar_row(args, 1, schema, atom_index)?;
        Ok(true)
    }

    /// Passes over the index atoms once; says whether any was reached.
    fn sweep_index_atoms(
        &mut self,
        catalog: &Catalog,
        atoms: &Vec<Atom>,
        admitted: &mut Vec<bool>,
    ) -> (changed: Result<bool, Rejection>)
        requires
            catalog.well_formed(),
            old(admitted)@.len() == atoms@.len(),
        ensures
            final(admitted)@.len() == atoms@.len(),
            match (
                changed,
                sweep(
                    *catalog,
                    Reach { plan: old(self)@, admitted: old(admitted)@, changed: false },
                    atoms@,
                    0,
                ),
            ) {
                (Ok(flag), Ok(after)) => after == (Reach {
                    plan: final(self)@,
                    admitted: final(admitted)@,
                    changed: flag,
                }),
                (Err(error), Err(model)) => error@ == model,
                _ => false,
            },
    {
        let mut changed = false;
        let mut i: usize = 0;
        let ghost start = Reach { plan: self@, admitted: admitted@, changed: false };
        while i < atoms.len()
            invariant
                i <= atoms.len(),
                catalog.well_formed(),
                admitted@.len() == atoms@.len(),
                start == (Reach { plan: old(self)@, admitted: old(admitted)@, changed: false }),
                sweep(*catalog, start, atoms@, 0) == sweep(
                    *catalog,
                    Reach { plan: self@, admitted: admitted@, changed },
                    atoms@,
                    i as int,
                ),
            decreases atoms.len() - i,
        {
            match &atoms[i].head {
                RuleBodyCall::IndexTable { id, any_of, .. } => {
                    if !admitted[i] {
                        let info = catalog.table_info(*id)?;
                        let now = self.reach_index_atom(
                            &atoms[i].args,
                            any_of,
                            &info.schema,
                            i,
                            Ghost(admitted@),
                            Ghost(changed),
                        )?;
                        if now {
                            admitted.set(i, true);
                            changed = true;
                        }
                    }
                },
                _ => {},
            }
            i += 1;
        }
        Ok(changed)
    }

    /// Binds every variable that some row can bind.
    fn prebind_rows(&mut self, catalog: &Catalog, atoms: &Vec<Atom>) -> (done: Result<
        (),
        Rejection,
    >)
        requires
            catalog.well_formed(),
            old(self)@ == empty_body(),
        ensures
            steps_to(done, final(self)@, prebind(*catalog, atoms@)),
    {
        self.prebind_table_atoms(catalog, atoms)?;
        let mut admitted: Vec<bool> = Vec::new();
        let mut k: usize = 0;
        while k < atoms.len()
            invariant
                k <= atoms.len(),
                admitted@ =~= Seq::new(k as nat, |i: int| false),
            decreases atoms.len() - k,
        {
            admitted.push(false);
            k += 1;
        }
        let ghost seeded = self@;
        let ghost none = admitted@;
        assert(none =~= Seq::new(atoms@.len(), |i: int| false));
        let mut running = true;
        while running
            invariant
                catalog.well_formed(),
                admitted@.len() == atoms@.len(),
                seeded == prebind_tables(*catalog, empty_body(), atoms@, 0)->Ok_0,
                prebind_tables(*catalog, empty_body(), atoms@, 0) is Ok,
                none == Seq::new(atoms@.len(), |i: int| false),
                running ==> saturate(*catalog, seeded, none, atoms@) == saturate(
                    *catalog,
                    self@,
                    admitted@,
                    atoms@,
                ),
                !running ==> saturate(*catalog, seeded, none, atoms@) == Ok::<
                    (BodyView, Seq<bool>),
                    RejectionView,
                >((self@, admitted@)),
            decreases unmarked(admitted@, atoms@.len()), running as int,
        {
            let ghost before = Reach { plan: self@, admitted: admitted@, changed: false };
            running = self.sweep_index_atoms(catalog, atoms, &mut admitted)?;
            proof {
                lemma_sweep_progress(*catalog, before, atoms@, 0);
            }
        }
        let mut i: usize = 0;
        while i < atoms.len()
            invariant
                i <= atoms.len(),
                admitted@.len() == atoms@.len(),
                prebind_tables(*catalog, empty_body(), atoms@, 0) is Ok,
                seeded == prebind_tables(*catalog, empty_body(), atoms@, 0)->Ok_0,
                none == Seq::new(atoms@.len(), |i: int| false),
                saturate(*catalog, seeded, none, atoms@) == Ok::<
                    (BodyView, Seq<bool>),
                    RejectionView,
                >((self@, admitted@)),
                forall|j: int|
                    0 <= j < i && (#[trigger] atoms@[j]).head is IndexTable ==> admitted@[j],
            decreases atoms.len() - i,
        {
            match &atoms[i].head {
                RuleBodyCall::IndexTable { .. } => {
                    if !admitted[i] {
                        assert(!all_reached(atoms@, admitted@)) by {
                            assert(atoms@[i as int].head is IndexTable);
                        }
                        return Err(
                            reject(Scope::Scalar, "contains an unreachable occurrence probe"),
                        );
                    }
                },
                _ => {},
            }
            i += 1;
        }
        assert(all_reached(atoms@, admitted@));
        Ok(())
    }
}

// ---------------------------------------------------------------------------
// Compiling atoms.

fn same_string(left: &str, right: &str) -> (text: String)
    ensures
        text@ == same_sql(left@, right@),
{
    let mut text = left.to_owned();
    text.append(" IS NOT DISTINCT FROM ");
    text.append(right);
    text
}

fn reject_context(context: &str, tail: &str) -> (rejection: Rejection)
    ensures
        rejection@ == refused(context@ + tail@),
{
    let mut text = context.to_owned();
    text.append(tail);
    reject_with(Scope::Scalar, text)
}

impl ScalarBodyPlan {
    fn join_table(&mut self, id: FunctionId, read: ReadMode, atom_index: usize, arity: usize)
        ensures
            final(self)@ == joined(old(self)@, id, read, atom_index as nat, arity as nat),
    {
        let alias = alias_string(atom_index);
        let mut relation = sql_table(id);
        relation.append(" AS ");
        relation.append(alias.as_str());
        self.push_from(relation);
        match read {
            ReadMode::Live => {
                let mut test = alias.clone();
                test.append(".__subsumed = FALSE");
                self.push_predicate(test);
            },
            ReadMode::Subsumed => {
                let mut test = alias.clone();
                test.append(".__subsumed = TRUE");
                self.push_predicate(test);
            },
            ReadMode::All => {},
        }
        let mut generation = alias.clone();
        generation.append(".__generation");
        self.push_freshness(generation.clone());
        self.push_order(generation);
        let ghost opened = self@;
        let mut column: usize = 0;
        while column < arity
            invariant
                column <= arity,
                self@ == (BodyView {
                    order_columns: opened.order_columns + relation_columns(
                        atom_index as nat,
                        column as nat,
                    ),
                    ..opened
                }),
            decreases arity - column,
        {
            self.push_order(column_string(atom_index, column));
            column += 1;
            assert(self@.order_columns =~= opened.order_columns + relation_columns(
                atom_index as nat,
                column as nat,
            ));
        }
        assert(opened.order_columns + relation_columns(atom_index as nat, 0)
            =~= opened.order_columns);
    }

    fn bind_scalar_body_term(
        &mut self,
        catalog: &Catalog,
        term: AtomTerm,
        expected: ColumnTy,
        expression: String,
    ) -> (done: Result<(), Rejection>)
        ensures
            steps_to(
                done,
                final(self)@,
                bind_term(*catalog, old(self)@, term, expected, expression@),
            ),
    {
        match term {
            AtomTerm::Var(variable) => {
                if variable.ty != expected {
                    return Err(reject(Scope::Scalar, "body variable has the wrong type"));
                }
                let known = match self.binding(variable.id) {
                    Some(binding) => {
                        if binding.ty != variable.ty {
                            return Err(reject_retyped(variable));
                        }
                        Some(same_string(expression.as_str(), binding.expression.as_str()))
                    },
                    None => None,
                };
                match known {
                    Some(test) => {
                        self.push_predicate(test);
                    },
                    None => {
                        self.bind_new(variable, expression);
                    },
                }
            },
            AtomTerm::Literal(literal) => {
                if literal.ty != expected {
                    return Err(reject(Scope::Scalar, "has a mistyped body literal"));
                }
                let (_, sql) = catalog.typed_sql_literal(expected, literal.value)?;
                self.push_predicate(same_string(expression.as_str(), sql.as_str()));
            },
            AtomTerm::Global(_) => {
                return Err(reject(Scope::Scalar, "contains an unsupported body global"));
            },
        }
        Ok(())
    }

    fn scalar_body_ref(&self, catalog: &Catalog, term: AtomTerm, expected: ColumnTy) -> (value:
        Result<ScalarValueRef, Rejection>)
        ensures
            agrees(value, body_ref(*catalog, self@.bindings, term, expected)),
    {
        match term {
            AtomTerm::Var(variable) => {
                if variable.ty != expected {
                    return Err(reject(Scope::Scalar, "body row has a mistyped variable"));
                }
                match self.binding(variable.id) {
                    None => Err(reject(Scope::Scalar, "body row uses an unbound variable")),
                    Some(binding) => {
                        if binding.ty != variable.ty {
                            return Err(reject_retyped(variable));
                        }
                        Ok(ScalarValueRef::Body(binding.stage_column))
                    },
                }
            },
            AtomTerm::Literal(literal) => {
                if literal.ty != expected {
                    return Err(reject(Scope::Scalar, "body row has a mistyped literal"));
                }
                let (scalar, sql) = catalog.typed_sql_literal(expected, literal.value)?;
                Ok(ScalarValueRef::Literal(ScalarLiteral { value: literal, scalar, sql }))
            },
            AtomTerm::Global(_) => Err(
                reject(Scope::Scalar, "body row contains an unsupported global"),
            ),
        }
    }

    fn compile_scalar_body_term(
        &self,
        catalog: &Catalog,
        term: AtomTerm,
        expected: ColumnTy,
        context: &str,
    ) -> (text: Result<String, Rejection>)
        ensures
            agrees(text, body_term(*catalog, self@.bindings, term, expected, context@)),
    {
        match term {
            AtomTerm::Var(variable) => {
                if variable.ty != expected {
                    return Err(reject_context(context, " has a mistyped variable"));
                }
                match self.binding(variable.id) {
                    None => {
                        let mut text = context.to_owned();
                        text.append(" uses variable id ");
                        append_number(&mut text, variable.id as u64);
                        text.append(" before binding");
                        Err(reject_with(Scope::Scalar, text))
                    },
                    Some(binding) => {
                        if binding.ty != variable.ty {
                            return Err(reject_retyped(variable));
                        }
                        Ok(binding.expression.clone())
                    },
                }
            },
            AtomTerm::Literal(literal) => {
                if literal.ty != expected {
                    return Err(reject_context(context, " has a mistyped literal"));
                }
                let (_, sql) = catalog.typed_sql_literal(expected, literal.value)?;
                Ok(sql)
            },
            AtomTerm::Global(_) => Err(reject_context(context, " contains an unsupported global")),
        }
    }

    fn match_table_row(
        &mut self,
        catalog: &Catalog,
        id: FunctionId,
        args: &Vec<AtomTerm>,
        offset: usize,
        schema: &Vec<ColumnTy>,
        atom_index: usize,
    ) -> (done: Result<(), Rejection>)
        requires
            offset + schema@.len() <= args@.len(),
        ensures
            steps_to(
                done,
                final(self)@,
                match_row(
                    *catalog,
                    old(self)@,
                    id,
                    args@.subrange(offset as int, offset + schema@.len()),
                    schema@,
                    atom_index as nat,
                ),
            ),
    {
        let ghost row = args@.subrange(offset as int, offset + schema@.len());
        let ghost start = self@;
        let mut column: usize = 0;
        while column < schema.len()
            invariant
                column <= schema.len(),
                offset + schema@.len() <= args.len(),
                row == args@.subrange(offset as int, offset + schema@.len()),
                start == old(self)@,
                bind_row(*catalog, start, row, schema@, atom_index as nat, 0) == bind_row(
                    *catalog,
                    self@,
                    row,
                    schema@,
                    atom_index as nat,
                    column as int,
                ),
            decreases schema.len() - column,
        {
            assert(row[column as int] == args@[offset + column]);
            self.bind_scalar_body_term(
                catalog,
                args[offset + column],
                schema[column],
                column_string(atom_index, column),
            )?;
            column += 1;
        }
        let ghost tied = self@;
        let mut values: Vec<ScalarValueRef> = Vec::new();
        let mut at: usize = 0;
        assert(ref_views(values@) =~= Seq::<ValueRefView>::empty());
        while at < schema.len()
            invariant
                at <= schema.len(),
                offset + schema@.len() <= args.len(),
                row == args@.subrange(offset as int, offset + schema@.len()),
                start == old(self)@,
                self@ == tied,
                bind_row(*catalog, start, row, schema@, atom_index as nat, 0) == Ok::<
                    BodyView,
                    RejectionView,
                >(tied),
                body_refs(*catalog, tied.bindings, row, schema@, 0, Seq::empty()) == body_refs(
                    *catalog,
                    tied.bindings,
                    row,
                    schema@,
                    at as int,
                    ref_views(values@),
                ),
            decreases schema.len() - at,
        {
            assert(row[at as int] == args@[offset + at]);
            let ghost before = values@;
            let value = self.scalar_body_ref(catalog, args[offset + at], schema[at])?;
            values.push(value);
            assert(ref_views(values@) =~= ref_views(before).push(value@));
            at += 1;
        }
        self.push_row(id, values);
        Ok(())
    }

    fn compile_table_atom(
        &mut self,
        catalog: &Catalog,
        id: FunctionId,
        read: ReadMode,
        args: &Vec<AtomTerm>,
        atom_index: usize,
    ) -> (done: Result<(), Rejection>)
        requires
            catalog.well_formed(),
        ensures
            steps_to(
                done,
                final(self)@,
                table_atom(*catalog, old(self)@, id, read, args@, atom_index as nat),
            ),
    {
        let info = match catalog.table_info(id) {
            Ok(info) => info,
            Err(error) => {
                let mut text = "references invalid body table ".to_owned();
                append_number(&mut text, id.rep as u64);
                return Err(reject_because(Scope::Scalar, text, error));
            },
        };
        if args.len() != info.arity() {
            let mut text = "body table `".to_owned();
            text.append(info.name.as_str());
            text.append("` expects ");
            append_number(&mut text, info.arity() as u64);
            text.append(" arguments, got ");
            append_number(&mut text, args.len() as u64);
            return Err(reject_with(Scope::Scalar, text));
        }
        self.join_table(id, read, atom_index, info.arity());
        assert(args@.subrange(0, info.schema@.len() as int) =~= args@);
        self.match_table_row(catalog, id, args, 0, &info.schema, atom_index)
    }

    fn compile_index_atom(
        &mut self,
        catalog: &Catalog,
        base_values: &BaseValues,
        id: FunctionId,
        any_of: &Vec<usize>,
        read: ReadMode,
        args: &Vec<AtomTerm>,
        atom_index: usize,
    ) -> (done: Result<(), Rejection>)
        requires
            catalog.well_formed(),
        ensures
            steps_to(
                done,
                final(self)@,
                index_atom(*catalog, old(self)@, id, any_of@, read, args@, atom_index as nat),
            ),
    {
        let info = catalog.table_info(id)?;
        let schema = &info.schema;
        if any_of.len() == 0 {
            return Err(reject(Scope::Scalar, "index lists no occurrence columns"));
        }
        if !fits_arity(any_of, schema.len()) {
            return Err(reject(Scope::Scalar, "index has an out-of-range occurrence column"));
        }
        if args.len() == 0 {
            return Err(reject(Scope::Bare, "index atom has no probe"));
        }
        if args.len() == 1 {
            return Err(reject(Scope::Bare, "index atom has no Unit output"));
        }
        if args.len() - 2 != schema.len() {
            return Err(reject(Scope::Scalar, "index row has the wrong arity"));
        }
        let canonical = match args[args.len() - 1] {
            AtomTerm::Literal(output) => output.ty == ColumnTy::Base(catalog.types.unit)
                && output.value == canonical_unit(base_values),
            _ => false,
        };
        if !canonical {
            return Err(reject(Scope::Scalar, "index output must be canonical Unit"));
        }
        let probe_ty = argument_ty(&args[0]);
        let columns = occurrence_list(any_of, schema.len());
        let mut i: usize = 0;
        while i < columns.len()
            invariant
                i <= columns.len(),
                forall|k: int| 0 <= k < columns@.len() ==> #[trigger] columns@[k] < schema@.len(),
                mistyped_occurrence(columns@, schema@, probe_ty, 0) == mistyped_occurrence(
                    columns@,
                    schema@,
                    probe_ty,
                    i as int,
                ),
                table_at(*catalog, id) matches Ok(model) && model.schema@ == schema@,
                any_of@.len() > 0,
                occurrences_fit(any_of@, schema@.len()),
                args@.len() - 2 == schema@.len(),
                unit_output(*catalog, args@.last()),
                columns@ == occurrence_columns(any_of@, schema@.len()),
                probe_ty == term_ty(args@[0]),
            decreases columns.len() - i,
        {
            if schema[columns[i]] != probe_ty {
                let mut text = "index probe type disagrees with occurrence column ".to_owned();
                append_number(&mut text, columns[i] as u64);
                return Err(reject_with(Scope::Scalar, text));
            }
            i += 1;
        }
        let probe = self.compile_scalar_body_term(catalog, args[0], probe_ty, "index probe")?;
        self.join_table(id, read, atom_index, schema.len());
        let mut tests: Vec<String> = Vec::new();
        let mut k: usize = 0;
        while k < columns.len()
            invariant
                k <= columns.len(),
                tests.len() == k,
                forall|j: int|
                    0 <= j < k ==> tests@[j]@ == same_sql(
                        column_text(atom_index as nat, columns@[j] as nat),
                        probe@,
                    ),
            decreases columns.len() - k,
        {
            let column = column_string(atom_index, columns[k]);
            tests.push(same_string(column.as_str(), probe.as_str()));
            k += 1;
        }
        assert(texts(tests@) =~= columns@.map_values(
            |column: usize| same_sql(column_text(atom_index as nat, column as nat), probe@),
        ));
        let any = join_strings(&tests, " OR ");
        let mut test = "(".to_owned();
        test.append(any.as_str());
        test.append(")");
        self.push_predicate(test);
        assert(args@.subrange(1, args@.len() - 1) == args@.subrange(1, 1 + schema@.len() as int));
        self.match_table_row(catalog, id, args, 1, schema, atom_index)
    }

    fn bind_primitive_output(
        &mut self,
        catalog: &Catalog,
        term: AtomTerm,
        output: ColumnTy,
        value: String,
    ) -> (done: Result<(), Rejection>)
        ensures
            steps_to(
                done,
                final(self)@,
                bind_output(*catalog, old(self)@, term, output, value@),
            ),
    {
        match term {
            AtomTerm::Var(variable) => {
                if variable.ty != output {
                    return Err(
                        reject(Scope::Scalar, "primitive output variable has the wrong type"),
                    );
                }
                let known = match self.binding(variable.id) {
                    Some(binding) => {
                        if binding.ty != variable.ty {
                            return Err(reject_retyped(variable));
                        }
                        Some(same_string(value.as_str(), binding.expression.as_str()))
                    },
                    None => None,
                };
                match known {
                    Some(test) => {
                        self.push_predicate(test);
                    },
                    None => {
                        self.bind_new(variable, value);
                    },
                }
            },
            AtomTerm::Literal(literal) => {
                if literal.ty != output {
                    return Err(
                        reject(Scope::Scalar, "primitive output literal has the wrong type"),
                    );
                }
                let (_, sql) = catalog.typed_sql_literal(output, literal.value)?;
                self.push_predicate(same_string(value.as_str(), sql.as_str()));
            },
            AtomTerm::Global(_) => {
                return Err(reject(Scope::Scalar, "primitive output cannot be a global"));
            },
        }
        Ok(())
    }

    fn compile_primitive_atom(
        &mut self,
        catalog: &Catalog,
        registries: &AuthorityRegistries,
        token: ExternalFunctionId,
        output: ColumnTy,
        args: &Vec<AtomTerm>,
    ) -> (done: Result<(), Rejection>)
        ensures
            steps_to(
                done,
                final(self)@,
                primitive_atom(*catalog, *registries, old(self)@, token, output, args@),
            ),
    {
        if args.len() == 0 {
            return Err(reject(Scope::Scalar, "primitive body atom has no output term"));
        }
        let count: usize = args.len() - 1;
        let tys = argument_tys(args, count);
        let expression = match ScalarExpression::authenticate(
            &catalog.forms,
            registries,
            token,
            &tys,
            output,
        ) {
            Ok(expression) => expression,
            Err(error) => {
                return Err(
                    reject_because(
                        Scope::Scalar,
                        "has an invalid primitive body atom".to_owned(),
                        error,
                    ),
                );
            },
        };
        let mut inputs: Vec<String> = Vec::new();
        let mut i: usize = 0;
        assert(texts(inputs@) =~= Seq::<Seq<char>>::empty());
        while i < count
            invariant
                i <= count == args.len() - 1,
                self@ == old(self)@,
                tys@ == args@.take(count as int).map_values(|t: AtomTerm| term_ty(t)),
                authenticated(catalog.forms@, *registries, token, tys@, output) == Ok::<
                    ScalarExpressionView,
                    RejectionView,
                >(expression@),
                body_terms(*catalog, self@.bindings, args@, count as int, 0, Seq::empty())
                    == body_terms(
                    *catalog,
                    self@.bindings,
                    args@,
                    count as int,
                    i as int,
                    texts(inputs@),
                ),
            decreases count - i,
        {
            let ghost before = inputs@;
            let text = self.compile_scalar_body_term(
                catalog,
                args[i],
                argument_ty(&args[i]),
                "primitive input",
            )?;
            inputs.push(text);
            assert(texts(inputs@) =~= texts(before).push(text@));
            i += 1;
        }
        let rendered = expression.render(&inputs);
        match rendered.defined {
            Some(defined) => {
                self.push_predicate(defined);
            },
            None => {},
        }
        self.bind_primitive_output(catalog, args[count], output, rendered.value)?;
        match expression.authority() {
            ScalarAuthority::Native(descriptor) => {
                self.required_native_primitives.insert(token.rep, descriptor);
            },
            ScalarAuthority::Typed(descriptor) => {
                self.required_native_scalar_primitives.insert(token.rep, descriptor);
            },
        }
        Ok(())
    }

    fn compile_atoms(
        &mut self,
        catalog: &Catalog,
        base_values: &BaseValues,
        registries: &AuthorityRegistries,
        atoms: &Vec<Atom>,
    ) -> (done: Result<(), Rejection>)
        requires
            catalog.well_formed(),
        ensures
            steps_to(
                done,
                final(self)@,
                atom_steps(*catalog, *registries, old(self)@, atoms@, 0),
            ),
    {
        let mut i: usize = 0;
        while i < atoms.len()
            invariant
                i <= atoms.len(),
                catalog.well_formed(),
                atom_steps(*catalog, *registries, old(self)@, atoms@, 0) == atom_steps(
                    *catalog,
                    *registries,
                    self@,
                    atoms@,
                    i as int,
                ),
            decreases atoms.len() - i,
        {
            let args = &atoms[i].args;
            match &atoms[i].head {
                RuleBodyCall::Table { id, read } => {
                    self.compile_table_atom(catalog, *id, *read, args, i)?;
                },
                RuleBodyCall::IndexTable { id, any_of, read } => {
                    self.compile_index_atom(catalog, base_values, *id, any_of, *read, args, i)?;
                },
                RuleBodyCall::Primitive { id, output, .. } => {
                    self.compile_primitive_atom(catalog, registries, *id, *output, args)?;
                },
            }
            i += 1;
        }
        Ok(())
    }
}

/// Compiles the body of a rule.
pub fn compile_scalar_body(
    catalog: &Catalog,
    base_values: &BaseValues,
    registries: &AuthorityRegistries,
    atoms: &Vec<Atom>,
) -> (plan: Result<ScalarBodyPlan, Rejection>)
    requires
        catalog.well_formed(),
    ensures
        agrees(plan, scalar_body(*catalog, *registries, atoms@)),
{
    let mut plan = ScalarBodyPlan {
        match_projection: Vec::new(),
        match_from: Vec::new(),
        match_predicates: Vec::new(),
        freshness_columns: Vec::new(),
        order_columns: Vec::new(),
        bindings: BTreeMap::new(),
        rows: Vec::new(),
        required_native_primitives: BTreeMap::new(),
        required_native_scalar_primitives: BTreeMap::new(),
    };
    proof {
        assert(plan@.match_projection =~= Seq::<Seq<char>>::empty());
        assert(plan@.match_from =~= Seq::<Seq<char>>::empty());
        assert(plan@.match_predicates =~= Seq::<Seq<char>>::empty());
        assert(plan@.freshness_columns =~= Seq::<Seq<char>>::empty());
        assert(plan@.order_columns =~= Seq::<Seq<char>>::empty());
        assert(plan@.bindings =~= Map::<u32, BodyBindingView>::empty());
        assert(plan@.rows =~= Seq::<(FunctionId, Seq<ValueRefView>)>::empty());
        assert(plan@ == empty_body());
    }
    plan.prebind_rows(catalog, atoms)?;
    plan.compile_atoms(catalog, base_values, registries, atoms)?;
    Ok(plan)
}

} // verus!
