//! Which variables an admitted body binds: all of its variables, each at one
//! type, whatever the order of the atoms.

use vstd::prelude::*;

#[allow(unused_imports)]
use crate::action_body::{
    atom_step, atom_steps, bind_output, bind_row, bind_term, body_term, body_terms, bound_as,
    column_text, empty_body, joined, lemma_sweep_progress, match_row, occurrence_columns,
    occurrence_test, prebind, prebind_row, prebind_tables, prebind_variable, primitive_atom,
    probe_column, reach_index, remember_authority, saturate, scalar_body, sweep, tested, unmarked,
    BodyView, Reach,
};
#[allow(unused_imports)]
use crate::authority::AuthorityRegistries;
#[allow(unused_imports)]
use crate::catalog::{table_at, Catalog};
#[allow(unused_imports)]
use crate::ir::{
    term_ty, Atom, AtomTerm, ColumnTy, ExternalFunctionId, FunctionId, RuleBodyCall, RuleVar,
};
#[allow(unused_imports)]
use crate::rejection::RejectionView;
#[allow(unused_imports)]
use crate::scalar_expr::{authenticated, defined_text, form_text};

verus! {

/// A variable occurs in an atom of a body.
pub open spec fn occurs(atoms: Seq<Atom>, variable: RuleVar) -> bool {
    exists|i: int, k: int|
        0 <= i < atoms.len() && 0 <= k < atoms[i].args@.len() && #[trigger] atoms[i].args@[k]
            == AtomTerm::Var(variable)
}

/// A term is a variable that is bound at its own type, or a literal.
pub open spec fn term_bound(plan: BodyView, term: AtomTerm) -> bool {
    match term {
        AtomTerm::Var(variable) => bound_as(plan, variable),
        AtomTerm::Literal(_) => true,
        AtomTerm::Global(_) => false,
    }
}

/// Every term of an atom is bound.
pub open spec fn terms_bound(plan: BodyView, terms: Seq<AtomTerm>) -> bool {
    forall|k: int| 0 <= k < terms.len() ==> term_bound(plan, #[trigger] terms[k])
}

/// Every bound variable occurs, with the type that it is bound at.
pub open spec fn bindings_occur(plan: BodyView, atoms: Seq<Atom>) -> bool {
    forall|id: u32| #[trigger]
        plan.bindings.contains_key(id) ==> occurs(
            atoms,
            RuleVar { id, ty: plan.bindings[id].ty },
        )
}

/// Every variable among some terms occurs.
spec fn terms_occur(terms: Seq<AtomTerm>, atoms: Seq<Atom>) -> bool {
    forall|k: int|
        0 <= k < terms.len() ==> (#[trigger] terms[k] matches AtomTerm::Var(variable) ==> occurs(
            atoms,
            variable,
        ))
}

/// What is bound stays bound, as it is.
pub open spec fn bindings_stay(before: BodyView, after: BodyView) -> bool {
    forall|id: u32| #[trigger]
        before.bindings.contains_key(id) ==> after.bindings.contains_key(id)
            && after.bindings[id] == before.bindings[id]
}

proof fn lemma_terms_stay_bound(before: BodyView, after: BodyView, terms: Seq<AtomTerm>)
    requires
        bindings_stay(before, after),
        terms_bound(before, terms),
    ensures
        terms_bound(after, terms),
{
    assert forall|k: int| 0 <= k < terms.len() implies term_bound(after, #[trigger] terms[k]) by {
        assert(term_bound(before, terms[k]));
    }
}

proof fn lemma_atom_terms_occur(atoms: Seq<Atom>, i: int)
    requires
        0 <= i < atoms.len(),
    ensures
        terms_occur(atoms[i].args@, atoms),
{
}

proof fn lemma_row_terms_occur(atoms: Seq<Atom>, i: int)
    requires
        0 <= i < atoms.len(),
        atoms[i].args@.len() >= 2,
    ensures
        terms_occur(atoms[i].args@.subrange(1, atoms[i].args@.len() - 1), atoms),
{
    let args = atoms[i].args@;
    let row = args.subrange(1, args.len() - 1);
    assert forall|k: int| 0 <= k < row.len() implies (#[trigger] row[k] matches AtomTerm::Var(
        variable,
    ) ==> occurs(atoms, variable)) by {
        assert(row[k] == args[k + 1]);
    }
}

// ---------------------------------------------------------------------------
// Row variables.

proof fn lemma_prebind_row_occurs(
    plan: BodyView,
    row: Seq<AtomTerm>,
    schema: Seq<ColumnTy>,
    atom_index: nat,
    from: int,
    atoms: Seq<Atom>,
)
    requires
        bindings_occur(plan, atoms),
        terms_occur(row, atoms),
    ensures
        prebind_row(plan, row, schema, atom_index, from) matches Ok(after) ==> bindings_occur(
            after,
            atoms,
        ),
    decreases row.len() - from,
{
    if 0 <= from < row.len() {
        match row[from] {
            AtomTerm::Var(variable) => {
                let text = column_text(atom_index, from as nat);
                match prebind_variable(plan, variable, schema[from], text) {
                    Ok(after) => {
                        assert(occurs(atoms, variable));
                        assert(bindings_occur(after, atoms));
                        lemma_prebind_row_occurs(
                            after,
                            row,
                            schema,
                            atom_index,
                            from + 1,
                            atoms,
                        );
                    },
                    Err(_) => {},
                }
            },
            _ => lemma_prebind_row_occurs(plan, row, schema, atom_index, from + 1, atoms),
        }
    }
}

proof fn lemma_prebind_tables_occur(catalog: Catalog, plan: BodyView, atoms: Seq<Atom>, from: int)
    requires
        bindings_occur(plan, atoms),
    ensures
        prebind_tables(catalog, plan, atoms, from) matches Ok(after) ==> bindings_occur(
            after,
            atoms,
        ),
    decreases atoms.len() - from,
{
    if 0 <= from < atoms.len() {
        match atoms[from].head {
            RuleBodyCall::Table { id, .. } => match table_at(catalog, id) {
                Ok(info) => {
                    let args = atoms[from].args@;
                    lemma_atom_terms_occur(atoms, from);
                    lemma_prebind_row_occurs(plan, args, info.schema@, from as nat, 0, atoms);
                    match prebind_row(plan, args, info.schema@, from as nat, 0) {
                        Ok(after) => lemma_prebind_tables_occur(catalog, after, atoms, from + 1),
                        Err(_) => {},
                    }
                },
                Err(_) => {},
            },
            _ => lemma_prebind_tables_occur(catalog, plan, atoms, from + 1),
        }
    }
}

proof fn lemma_reach_occurs(
    reach: Reach,
    index: int,
    any_of: Seq<usize>,
    schema: Seq<ColumnTy>,
    atoms: Seq<Atom>,
)
    requires
        0 <= index < atoms.len(),
        bindings_occur(reach.plan, atoms),
    ensures
        reach_index(reach, index, atoms[index].args@, any_of, schema) matches Ok(after)
            ==> bindings_occur(after.plan, atoms),
{
    let args = atoms[index].args@;
    if args.len() >= 2 {
        let row = args.subrange(1, args.len() - 1);
        lemma_row_terms_occur(atoms, index);
        lemma_prebind_row_occurs(reach.plan, row, schema, index as nat, 0, atoms);
        match args[0] {
            AtomTerm::Var(variable) => {
                assert(occurs(atoms, variable));
                match probe_column(row, any_of, schema.len(), variable) {
                    Some(column) => {
                        let text = column_text(index as nat, column as nat);
                        match prebind_variable(
                            reach.plan,
                            variable,
                            schema[column as int],
                            text,
                        ) {
                            Ok(plan) => {
                                assert(bindings_occur(plan, atoms));
                                lemma_prebind_row_occurs(
                                    plan,
                                    row,
                                    schema,
                                    index as nat,
                                    0,
                                    atoms,
                                );
                            },
                            Err(_) => {},
                        }
                    },
                    None => {},
                }
            },
            _ => {},
        }
    }
}

proof fn lemma_sweep_occurs(catalog: Catalog, reach: Reach, atoms: Seq<Atom>, from: int)
    requires
        reach.admitted.len() == atoms.len(),
        bindings_occur(reach.plan, atoms),
    ensures
        sweep(catalog, reach, atoms, from) matches Ok(after) ==> bindings_occur(
            after.plan,
            atoms,
        ) && after.admitted.len() == atoms.len(),
    decreases atoms.len() - from,
{
    if 0 <= from < atoms.len() {
        match atoms[from].head {
            RuleBodyCall::IndexTable { id, any_of, .. } => {
                if reach.admitted[from] {
                    lemma_sweep_occurs(catalog, reach, atoms, from + 1);
                } else {
                    match table_at(catalog, id) {
                        Ok(info) => {
                            let args = atoms[from].args@;
                            lemma_reach_occurs(reach, from, any_of@, info.schema@, atoms);
                            match reach_index(reach, from, args, any_of@, info.schema@) {
                                Ok(after) => lemma_sweep_occurs(catalog, after, atoms, from + 1),
                                Err(_) => {},
                            }
                        },
                        Err(_) => {},
                    }
                }
            },
            _ => lemma_sweep_occurs(catalog, reach, atoms, from + 1),
        }
    }
}

proof fn lemma_saturate_occurs(
    catalog: Catalog,
    plan: BodyView,
    admitted: Seq<bool>,
    atoms: Seq<Atom>,
)
    requires
        admitted.len() == atoms.len(),
        bindings_occur(plan, atoms),
    ensures
        saturate(catalog, plan, admitted, atoms) matches Ok((after, _)) ==> bindings_occur(
            after,
            atoms,
        ),
    decreases unmarked(admitted, atoms.len()),
{
    let start = Reach { plan, admitted, changed: false };
    lemma_sweep_occurs(catalog, start, atoms, 0);
    match sweep(catalog, start, atoms, 0) {
        Ok(after) => {
            lemma_sweep_progress(catalog, start, atoms, 0);
            if after.changed {
                lemma_saturate_occurs(catalog, after.plan, after.admitted, atoms);
            }
        },
        Err(_) => {},
    }
}

/// The row variables that are bound first occur in the body.
pub proof fn lemma_prebind_occurs(catalog: Catalog, atoms: Seq<Atom>)
    ensures
        prebind(catalog, atoms) matches Ok(after) ==> bindings_occur(after, atoms),
{
    assert(bindings_occur(empty_body(), atoms));
    lemma_prebind_tables_occur(catalog, empty_body(), atoms, 0);
    match prebind_tables(catalog, empty_body(), atoms, 0) {
        Ok(seeded) => {
            lemma_saturate_occurs(catalog, seeded, Seq::new(atoms.len(), |i: int| false), atoms);
        },
        Err(_) => {},
    }
}

// ---------------------------------------------------------------------------
// Atoms.

proof fn lemma_bind_row_binds(
    catalog: Catalog,
    plan: BodyView,
    row: Seq<AtomTerm>,
    schema: Seq<ColumnTy>,
    atom_index: nat,
    from: int,
    atoms: Seq<Atom>,
)
    requires
        0 <= from <= row.len(),
        bindings_occur(plan, atoms),
        terms_occur(row, atoms),
        terms_bound(plan, row.take(from)),
    ensures
        bind_row(catalog, plan, row, schema, atom_index, from) matches Ok(after) ==> {
            &&& bindings_occur(after, atoms)
            &&& bindings_stay(plan, after)
            &&& terms_bound(after, row)
        },
    decreases row.len() - from,
{
    if from < row.len() {
        let text = column_text(atom_index, from as nat);
        match bind_term(catalog, plan, row[from], schema[from], text) {
            Ok(after) => {
                assert(row[from] matches AtomTerm::Var(variable) ==> occurs(atoms, variable));
                assert(bindings_occur(after, atoms));
                assert(bindings_stay(plan, after));
                lemma_terms_stay_bound(plan, after, row.take(from));
                assert forall|k: int| 0 <= k < row.take(from + 1).len() implies term_bound(
                    after,
                    #[trigger] row.take(from + 1)[k],
                ) by {
                    if k < from {
                        assert(term_bound(after, row.take(from)[k]));
                    }
                }
                lemma_bind_row_binds(catalog, after, row, schema, atom_index, from + 1, atoms);
            },
            Err(_) => {},
        }
    } else {
        assert(row.take(from) =~= row);
    }
}

proof fn lemma_match_row_binds(
    catalog: Catalog,
    plan: BodyView,
    id: FunctionId,
    row: Seq<AtomTerm>,
    schema: Seq<ColumnTy>,
    atom_index: nat,
    atoms: Seq<Atom>,
)
    requires
        bindings_occur(plan, atoms),
        terms_occur(row, atoms),
    ensures
        match_row(catalog, plan, id, row, schema, atom_index) matches Ok(after) ==> {
            &&& bindings_occur(after, atoms)
            &&& bindings_stay(plan, after)
            &&& terms_bound(after, row)
        },
{
    lemma_bind_row_binds(catalog, plan, row, schema, atom_index, 0, atoms);
    match match_row(catalog, plan, id, row, schema, atom_index) {
        Ok(after) => {
            let tied = bind_row(catalog, plan, row, schema, atom_index, 0)->Ok_0;
            assert(after.bindings == tied.bindings);
            assert(bindings_stay(tied, after));
            lemma_terms_stay_bound(tied, after, row);
        },
        Err(_) => {},
    }
}

proof fn lemma_inputs_bound(
    catalog: Catalog,
    plan: BodyView,
    terms: Seq<AtomTerm>,
    count: int,
    from: int,
    done: Seq<Seq<char>>,
)
    requires
        0 <= from <= count <= terms.len(),
    ensures
        body_terms(catalog, plan.bindings, terms, count, from, done) is Ok ==> forall|k: int|
            from <= k < count ==> term_bound(plan, #[trigger] terms[k]),
    decreases count - from,
{
    if from < count {
        match body_term(
            catalog,
            plan.bindings,
            terms[from],
            term_ty(terms[from]),
            "primitive input"@,
        ) {
            Ok(text) => {
                lemma_inputs_bound(catalog, plan, terms, count, from + 1, done.push(text));
            },
            Err(_) => {},
        }
    }
}

proof fn lemma_primitive_binds(
    catalog: Catalog,
    registries: AuthorityRegistries,
    plan: BodyView,
    token: ExternalFunctionId,
    output: ColumnTy,
    args: Seq<AtomTerm>,
    atoms: Seq<Atom>,
)
    requires
        bindings_occur(plan, atoms),
        terms_occur(args, atoms),
    ensures
        primitive_atom(catalog, registries, plan, token, output, args) matches Ok(after) ==> {
            &&& bindings_occur(after, atoms)
            &&& bindings_stay(plan, after)
            &&& terms_bound(after, args)
        },
{
    match primitive_atom(catalog, registries, plan, token, output, args) {
        Ok(after) => {
            let count = args.len() - 1;
            let tys = args.take(count).map_values(|t: AtomTerm| term_ty(t));
            let expression = authenticated(
                catalog.forms@,
                registries,
                token,
                tys,
                output,
            )->Ok_0;
            let inputs = body_terms(
                catalog,
                plan.bindings,
                args,
                count,
                0,
                Seq::empty(),
            )->Ok_0;
            lemma_inputs_bound(catalog, plan, args, count, 0, Seq::empty());
            let guarded = match defined_text(expression, inputs) {
                Some(defined) => tested(plan, defined),
                None => plan,
            };
            assert(guarded.bindings == plan.bindings);
            let value = form_text(expression.value, inputs);
            let tied = bind_output(catalog, guarded, args.last(), output, value)->Ok_0;
            assert(after == remember_authority(tied, token, expression.authority));
            assert(after.bindings == tied.bindings);
            assert(args[count] == args.last());
            assert(args.last() matches AtomTerm::Var(variable) ==> occurs(atoms, variable));
            assert(bindings_occur(after, atoms));
            assert(bindings_stay(plan, after));
            assert forall|k: int| 0 <= k < args.len() implies term_bound(
                after,
                #[trigger] args[k],
            ) by {
                if k < count {
                    assert(term_bound(plan, args[k]));
                }
            }
        },
        Err(_) => {},
    }
}

/// One atom binds its variables, and keeps what is bound.
pub proof fn lemma_atom_binds(
    catalog: Catalog,
    registries: AuthorityRegistries,
    plan: BodyView,
    atoms: Seq<Atom>,
    index: int,
)
    requires
        0 <= index < atoms.len(),
        bindings_occur(plan, atoms),
    ensures
        atom_step(catalog, registries, plan, atoms[index], index as nat) matches Ok(after) ==> {
            &&& bindings_occur(after, atoms)
            &&& bindings_stay(plan, after)
            &&& terms_bound(after, atoms[index].args@)
        },
{
    let args = atoms[index].args@;
    lemma_atom_terms_occur(atoms, index);
    match atom_step(catalog, registries, plan, atoms[index], index as nat) {
        Ok(after) => match atoms[index].head {
            RuleBodyCall::Table { id, read } => {
                let info = table_at(catalog, id)->Ok_0;
                let base = joined(plan, id, read, index as nat, info.schema@.len());
                assert(base.bindings == plan.bindings);
                lemma_match_row_binds(
                    catalog,
                    base,
                    id,
                    args,
                    info.schema@,
                    index as nat,
                    atoms,
                );
            },
            RuleBodyCall::IndexTable { id, any_of, read } => {
                let info = table_at(catalog, id)->Ok_0;
                let columns = occurrence_columns(any_of@, info.schema@.len());
                let probe = body_term(
                    catalog,
                    plan.bindings,
                    args[0],
                    term_ty(args[0]),
                    "index probe"@,
                )->Ok_0;
                let base = tested(
                    joined(plan, id, read, index as nat, info.schema@.len()),
                    occurrence_test(index as nat, columns, probe),
                );
                let row = args.subrange(1, args.len() - 1);
                assert(base.bindings == plan.bindings);
                lemma_row_terms_occur(atoms, index);
                lemma_match_row_binds(
                    catalog,
                    base,
                    id,
                    row,
                    info.schema@,
                    index as nat,
                    atoms,
                );
                assert forall|k: int| 0 <= k < args.len() implies term_bound(
                    after,
                    #[trigger] args[k],
                ) by {
                    if k == 0 {
                        assert(term_bound(plan, args[0]));
                    } else if k < args.len() - 1 {
                        assert(term_bound(after, row[k - 1]));
                    } else {
                        assert(args[k] == args.last());
                    }
                }
            },
            RuleBodyCall::Primitive { id, output, .. } => {
                lemma_primitive_binds(catalog, registries, plan, id, output, args, atoms);
            },
        },
        Err(_) => {},
    }
}

proof fn lemma_atoms_bind(
    catalog: Catalog,
    registries: AuthorityRegistries,
    plan: BodyView,
    atoms: Seq<Atom>,
    from: int,
)
    requires
        0 <= from <= atoms.len(),
        bindings_occur(plan, atoms),
        forall|i: int| 0 <= i < from ==> terms_bound(plan, (#[trigger] atoms[i]).args@),
    ensures
        atom_steps(catalog, registries, plan, atoms, from) matches Ok(after) ==> {
            &&& bindings_occur(after, atoms)
            &&& forall|i: int|
                0 <= i < atoms.len() ==> terms_bound(after, (#[trigger] atoms[i]).args@)
        },
    decreases atoms.len() - from,
{
    if from < atoms.len() {
        lemma_atom_binds(catalog, registries, plan, atoms, from);
        match atom_step(catalog, registries, plan, atoms[from], from as nat) {
            Ok(after) => {
                assert forall|i: int| 0 <= i < from + 1 implies terms_bound(
                    after,
                    (#[trigger] atoms[i]).args@,
                ) by {
                    if i < from {
                        lemma_terms_stay_bound(plan, after, atoms[i].args@);
                    }
                }
                lemma_atoms_bind(catalog, registries, after, atoms, from + 1);
            },
            Err(_) => {},
        }
    }
}

// ---------------------------------------------------------------------------
// Laws.

/// An admitted body binds exactly its variables, and each of them at the one
/// type with which it occurs everywhere. It names no global.
pub proof fn law_bodies_bind_their_variables_at_one_type(
    catalog: Catalog,
    registries: AuthorityRegistries,
    atoms: Seq<Atom>,
    plan: BodyView,
)
    requires
        scalar_body(catalog, registries, atoms) == Ok::<BodyView, RejectionView>(plan),
    ensures
        forall|variable: RuleVar| #[trigger]
            occurs(atoms, variable) <==> bound_as(plan, variable),
        forall|i: int|
            0 <= i < atoms.len() ==> terms_bound(plan, (#[trigger] atoms[i]).args@),
{
    lemma_prebind_occurs(catalog, atoms);
    let start = prebind(catalog, atoms)->Ok_0;
    lemma_atoms_bind(catalog, registries, start, atoms, 0);
    assert forall|variable: RuleVar| #[trigger] occurs(atoms, variable) <==> bound_as(
        plan,
        variable,
    ) by {
        if occurs(atoms, variable) {
            let (i, k) = choose|i: int, k: int|
                0 <= i < atoms.len() && 0 <= k < atoms[i].args@.len()
                    && #[trigger] atoms[i].args@[k] == AtomTerm::Var(variable);
            assert(terms_bound(plan, atoms[i].args@));
            assert(term_bound(plan, atoms[i].args@[k]));
        }
        if bound_as(plan, variable) {
            assert(plan.bindings.contains_key(variable.id));
        }
    }
}

/// Every atom of one body is an atom of the other.
pub open spec fn atoms_within(some: Seq<Atom>, others: Seq<Atom>) -> bool {
    forall|i: int| 0 <= i < some.len() ==> others.contains(#[trigger] some[i])
}

proof fn lemma_occurs_within(some: Seq<Atom>, others: Seq<Atom>, variable: RuleVar)
    requires
        atoms_within(some, others),
        occurs(some, variable),
    ensures
        occurs(others, variable),
{
    let (i, k) = choose|i: int, k: int|
        0 <= i < some.len() && 0 <= k < some[i].args@.len() && #[trigger] some[i].args@[k]
            == AtomTerm::Var(variable);
    assert(others.contains(some[i]));
    let j = choose|j: int| 0 <= j < others.len() && others[j] == some[i];
    assert(others[j].args@[k] == AtomTerm::Var(variable));
}

/// Two admitted bodies of the same atoms bind the same variables at the same
/// types, whatever the order of the atoms.
pub proof fn law_body_order_carries_no_meaning_for_bindings(
    catalog: Catalog,
    registries: AuthorityRegistries,
    left: Seq<Atom>,
    right: Seq<Atom>,
    left_plan: BodyView,
    right_plan: BodyView,
    variable: RuleVar,
)
    requires
        atoms_within(left, right),
        atoms_within(right, left),
        scalar_body(catalog, registries, left) == Ok::<BodyView, RejectionView>(left_plan),
        scalar_body(catalog, registries, right) == Ok::<BodyView, RejectionView>(right_plan),
    ensures
        bound_as(left_plan, variable) <==> bound_as(right_plan, variable),
{
    law_bodies_bind_their_variables_at_one_type(catalog, registries, left, left_plan);
    law_bodies_bind_their_variables_at_one_type(catalog, registries, right, right_plan);
    if occurs(left, variable) {
        lemma_occurs_within(left, right, variable);
    }
    if occurs(right, variable) {
        lemma_occurs_within(right, left, variable);
    }
}

} // verus!
