//! What admission knows of types: every term of an admitted body has the type of the
//! column or the primitive that it stands at.

use vstd::prelude::*;

#[allow(unused_imports)]
use crate::action_body::{
    atom_step, atom_steps, bind_row, bind_term, body_term, column_text, joined, mistyped_occurrence,
    occurrence_columns, occurrence_test, prebind, scalar_body, tested, BodyView,
};
#[allow(unused_imports)]
use crate::authority::AuthorityRegistries;
#[allow(unused_imports)]
use crate::base::unit_value;
#[allow(unused_imports)]
use crate::catalog::{table_at, Catalog};
#[allow(unused_imports)]
use crate::head_laws::typed;
#[allow(unused_imports)]
use crate::ir::{term_ty, Atom, AtomTerm, ColumnTy, RuleBodyCall, RuleSpec, RuleValue};
#[allow(unused_imports)]
use crate::marker_rekey::{marker_rekey, marker_selection, MarkerRekeyView};
#[allow(unused_imports)]
use crate::match_query::lemma_occurrences;
#[allow(unused_imports)]
use crate::path_compress::path_check;
#[allow(unused_imports)]
use crate::rebuild::{
    rebuild_body_check, rebuild_selection, rebuild_tables_check, standard_rebuild, RebuildRoles,
    StandardRebuildView,
};
#[allow(unused_imports)]
use crate::rejection::{RejectionView, Scope};
#[allow(unused_imports)]
use crate::scalar_expr::authenticated;
#[allow(unused_imports)]
use crate::shape::{atom_table, table_of, typed_vars_check};

verus! {

/// An atom fits what it names.
///
/// The arguments of a table atom are one for each column of the table, with the types
/// of the columns. Those of an index are a probe with the type of each indexed column,
/// the columns of the table, and the unit constant. A primitive is authenticated at
/// the types of its inputs and of its output.
pub open spec fn atom_fits(
    catalog: Catalog,
    registries: AuthorityRegistries,
    atom: Atom,
) -> bool {
    let args = atom.args@;
    match atom.head {
        RuleBodyCall::Table { id, .. } => {
            let schema = catalog.tables@[id.rep as int].schema@;
            &&& id.rep < catalog.tables@.len()
            &&& args.len() == schema.len()
            &&& typed(args, schema)
        },
        RuleBodyCall::IndexTable { id, any_of, .. } => {
            let schema = catalog.tables@[id.rep as int].schema@;
            &&& id.rep < catalog.tables@.len()
            &&& args.len() == schema.len() + 2
            &&& typed(args.subrange(1, args.len() - 1), schema)
            &&& any_of@.len() > 0
            &&& forall|k: int|
                0 <= k < any_of@.len() ==> #[trigger] any_of@[k] < schema.len()
                    && schema[any_of@[k] as int] == term_ty(args[0])
            &&& args.last() == AtomTerm::Literal(
                RuleValue { value: unit_value(), ty: ColumnTy::Base(catalog.types.unit) },
            )
        },
        RuleBodyCall::Primitive { id, output, .. } => {
            &&& args.len() >= 1
            &&& term_ty(args.last()) == output
            &&& authenticated(
                catalog.forms@,
                registries,
                id,
                args.drop_last().map_values(|t: AtomTerm| term_ty(t)),
                output,
            ) is Ok
        },
    }
}

proof fn lemma_row_typed(
    catalog: Catalog,
    plan: BodyView,
    row: Seq<AtomTerm>,
    schema: Seq<ColumnTy>,
    atom_index: nat,
    from: int,
)
    requires
        0 <= from,
        bind_row(catalog, plan, row, schema, atom_index, from) is Ok,
    ensures
        forall|i: int|
            from <= i < row.len() ==> !(#[trigger] row[i] is Global) && term_ty(row[i])
                == schema[i],
    decreases row.len() - from,
{
    if from < row.len() {
        let after = bind_term(
            catalog,
            plan,
            row[from],
            schema[from],
            column_text(atom_index, from as nat),
        )->Ok_0;
        lemma_row_typed(catalog, after, row, schema, atom_index, from + 1);
    }
}

proof fn lemma_occurrences_typed(
    columns: Seq<usize>,
    schema: Seq<ColumnTy>,
    ty: ColumnTy,
    from: int,
)
    requires
        0 <= from,
        mistyped_occurrence(columns, schema, ty, from) is None,
    ensures
        forall|k: int|
            from <= k < columns.len() ==> schema[#[trigger] columns[k] as int] == ty,
    decreases columns.len() - from,
{
    if from < columns.len() {
        lemma_occurrences_typed(columns, schema, ty, from + 1);
    }
}

proof fn lemma_atom_fits(
    catalog: Catalog,
    registries: AuthorityRegistries,
    plan: BodyView,
    atom: Atom,
    atom_index: nat,
)
    requires
        atom_step(catalog, registries, plan, atom, atom_index) is Ok,
    ensures
        atom_fits(catalog, registries, atom),
{
    let args = atom.args@;
    match atom.head {
        RuleBodyCall::Table { id, read } => {
            let schema = table_at(catalog, id)->Ok_0.schema@;
            let base = joined(plan, id, read, atom_index, schema.len());
            lemma_row_typed(catalog, base, args, schema, atom_index, 0);
        },
        RuleBodyCall::IndexTable { id, any_of, read } => {
            let info = table_at(catalog, id)->Ok_0;
            let schema = info.schema@;
            assert(info.schema.len() == schema.len());
            let columns = occurrence_columns(any_of@, schema.len());
            let probe = body_term(
                catalog,
                plan.bindings,
                args[0],
                term_ty(args[0]),
                "index probe"@,
            )->Ok_0;
            let base = tested(
                joined(plan, id, read, atom_index, schema.len()),
                occurrence_test(atom_index, columns, probe),
            );
            let row = args.subrange(1, args.len() - 1);
            lemma_row_typed(catalog, base, row, schema, atom_index, 0);
            lemma_occurrences(any_of@, schema.len());
            lemma_occurrences_typed(columns, schema, term_ty(args[0]), 0);
            assert forall|k: int| 0 <= k < any_of@.len() implies #[trigger] any_of@[k]
                < schema.len() && schema[any_of@[k] as int] == term_ty(args[0]) by {
                assert(any_of@.contains(any_of@[k]));
                assert(columns.contains(any_of@[k]));
                let m = choose|m: int| 0 <= m < columns.len() && columns[m] == any_of@[k];
                assert(schema[columns[m] as int] == term_ty(args[0]));
            }
        },
        RuleBodyCall::Primitive { .. } => {
            assert(args.take(args.len() - 1) =~= args.drop_last());
        },
    }
}

proof fn lemma_atoms_fit(
    catalog: Catalog,
    registries: AuthorityRegistries,
    plan: BodyView,
    atoms: Seq<Atom>,
    from: int,
)
    requires
        0 <= from,
        atom_steps(catalog, registries, plan, atoms, from) is Ok,
    ensures
        forall|i: int|
            from <= i < atoms.len() ==> atom_fits(catalog, registries, #[trigger] atoms[i]),
    decreases atoms.len() - from,
{
    if from < atoms.len() {
        lemma_atom_fits(catalog, registries, plan, atoms[from], from as nat);
        let after = atom_step(catalog, registries, plan, atoms[from], from as nat)->Ok_0;
        lemma_atoms_fit(catalog, registries, after, atoms, from + 1);
    }
}

/// Every atom of an admitted body fits the table or the primitive that it names.
pub proof fn law_admitted_bodies_are_typed(
    catalog: Catalog,
    registries: AuthorityRegistries,
    atoms: Seq<Atom>,
    plan: BodyView,
    i: int,
)
    requires
        scalar_body(catalog, registries, atoms) == Ok::<BodyView, RejectionView>(plan),
        0 <= i < atoms.len(),
    ensures
        atom_fits(catalog, registries, atoms[i]),
{
    lemma_atoms_fit(catalog, registries, prebind(catalog, atoms)->Ok_0, atoms, 0);
}

proof fn lemma_vars_typed(scope: Scope, terms: Seq<AtomTerm>, schema: Seq<ColumnTy>, count: nat)
    requires
        typed_vars_check(scope, terms, schema, count).fault is None,
    ensures
        forall|i: int|
            0 <= i < count ==> #[trigger] terms[i] is Var && term_ty(terms[i]) == schema[i],
    decreases count,
{
    if count > 0 {
        lemma_vars_typed(scope, terms, schema, (count - 1) as nat);
    }
}

/// The two table atoms of an admitted rebuild rule.
proof fn lemma_rebuild_typed(catalog: Catalog, rule: RuleSpec, roles: RebuildRoles)
    requires
        rebuild_selection(catalog, rule) == Ok::<Option<RebuildRoles>, RejectionView>(Some(roles)),
        rebuild_tables_check(catalog, rule, roles).fault is None,
        rebuild_body_check(catalog, rule, roles).fault is None,
    ensures
        ({
            let view = rule.body@[roles.view];
            let edge = rule.body@[roles.union_find];
            let view_schema = table_of(catalog, atom_table(view)).schema@;
            let edge_schema = table_of(catalog, atom_table(edge)).schema@;
            &&& view.args@.len() == view_schema.len() && typed(view.args@, view_schema)
            &&& edge.args@.len() == edge_schema.len() && typed(edge.args@, edge_schema)
            &&& rule.body@.len() == 3
            &&& forall|i: int|
                0 <= i < 3 && (#[trigger] rule.body@[i]).head is Table ==> i == roles.view || i
                    == roles.union_find
        }),
{
    let view = rule.body@[roles.view];
    let info = table_of(catalog, atom_table(view));
    lemma_vars_typed(Scope::StandardRebuild, view.args@, info.schema@, info.n_keys as nat);
}

/// Every table atom of an admitted rebuild rule has the columns of its table.
pub proof fn law_admitted_rebuilds_are_typed(
    catalog: Catalog,
    rule: RuleSpec,
    plan: StandardRebuildView,
    i: int,
)
    requires
        standard_rebuild(catalog, rule) == Ok::<Option<StandardRebuildView>, RejectionView>(
            Some(plan),
        ),
        0 <= i < rule.body@.len(),
        rule.body@[i].head is Table,
    ensures
        rule.body@[i].args@.len() == table_of(catalog, atom_table(rule.body@[i])).schema@.len(),
        typed(
            rule.body@[i].args@,
            table_of(catalog, atom_table(rule.body@[i])).schema@,
        ),
{
    let roles = lemma_rebuild_parts(catalog, rule, plan);
    lemma_rebuild_typed(catalog, rule, roles);
    assert(i == roles.view || i == roles.union_find);
}

proof fn lemma_rebuild_parts(catalog: Catalog, rule: RuleSpec, plan: StandardRebuildView) -> (roles:
    RebuildRoles)
    requires
        standard_rebuild(catalog, rule) == Ok::<Option<StandardRebuildView>, RejectionView>(
            Some(plan),
        ),
    ensures
        rebuild_selection(catalog, rule) == Ok::<Option<RebuildRoles>, RejectionView>(Some(roles)),
        rebuild_tables_check(catalog, rule, roles).fault is None,
        rebuild_body_check(catalog, rule, roles).fault is None,
{
    reveal(standard_rebuild);
    rebuild_selection(catalog, rule)->Ok_0->0
}

/// Every table atom of an admitted marker rule has the columns of its table.
pub proof fn law_admitted_markers_are_typed(
    catalog: Catalog,
    registries: AuthorityRegistries,
    rule: RuleSpec,
    plan: MarkerRekeyView,
    i: int,
)
    requires
        marker_rekey(catalog, registries, rule) == Ok::<Option<MarkerRekeyView>, RejectionView>(
            Some(plan),
        ),
        0 <= i < rule.body@.len(),
        rule.body@[i].head is Table,
    ensures
        rule.body@[i].args@.len() == table_of(catalog, atom_table(rule.body@[i])).schema@.len(),
        typed(
            rule.body@[i].args@,
            table_of(catalog, atom_table(rule.body@[i])).schema@,
        ),
{
    reveal(marker_rekey);
    let roles = marker_selection(catalog, rule)->Ok_0->0;
    let marker = rule.body@[roles.marker];
    let info = table_of(catalog, atom_table(marker));
    lemma_vars_typed(Scope::Marker, marker.args@, info.schema@, info.n_keys as nat);
    assert(i == roles.marker || i == roles.union_find);
}

/// Both table atoms of an admitted path rule have the columns of their table.
pub proof fn law_admitted_paths_are_typed(
    catalog: Catalog,
    registries: AuthorityRegistries,
    rule: RuleSpec,
    i: int,
)
    requires
        path_check(catalog, registries, rule).fault is None,
        0 <= i < 2,
    ensures
        rule.body@[i].args@.len() == table_of(catalog, atom_table(rule.body@[i])).schema@.len(),
        typed(
            rule.body@[i].args@,
            table_of(catalog, atom_table(rule.body@[i])).schema@,
        ),
{
    reveal(path_check);
    assert(i == 0 || i == 1);
}

} // verus!
