//! What small renderings and tables mean: numerals, SQL forms, owner checks and
//! write capabilities.

use vstd::prelude::*;

#[allow(unused_imports)]
use crate::action_plan::{
    effect_checks, read_checks, EffectView, ReadView, SlotSourceView, SlotView,
};
#[allow(unused_imports)]
use crate::authority::{entry, AuthorityRegistries};
#[allow(unused_imports)]
use crate::base::{scalar_of, BaseTypes, ScalarSqlType};
#[allow(unused_imports)]
use crate::catalog::{
    find_literal, table_named, tables_named, typed_literal, Catalog, LiteralSql, WriteCapability,
};
#[allow(unused_imports)]
use crate::egraph::capability_of;
#[allow(unused_imports)]
use crate::ir::{ColumnTy, ExternalFunctionId, FunctionId, MergeFn, Value};
#[allow(unused_imports)]
use crate::merge_meaning::{merge_value, MergeWorld};
#[allow(unused_imports)]
use crate::rejection::RejectionView;
#[allow(unused_imports)]
use crate::scalar_expr::{
    authenticated, authority_of, defined_view, find_form, form_matches, form_text, piece_views,
    ScalarAuthority, ScalarForm, SqlPieceView,
};
#[allow(unused_imports)]
use crate::text::{decimal, digit_char};

verus! {

// ---------------------------------------------------------------------------
// Numerals.

/// The number that a digit stands for: its place behind zero.
pub open spec fn digit_value(digit: char) -> int {
    digit as int - '0' as int
}

/// The number that a numeral stands for: the last digit is worth one, and every
/// other one ten times as much as the next.
pub open spec fn numeral_value(numeral: Seq<char>) -> int
    decreases numeral.len(),
{
    if numeral.len() == 0 {
        0
    } else {
        10 * numeral_value(numeral.drop_last()) + digit_value(numeral.last())
    }
}

/// A numeral stands for its number, and starts with zero only when it is zero.
pub proof fn law_numerals_stand_for_their_numbers(n: nat)
    ensures
        numeral_value(decimal(n)) == n,
        forall|i: int| 0 <= i < decimal(n).len() ==> 0 <= digit_value(#[trigger] decimal(n)[i]) < 10,
        decimal(n).len() > 1 ==> decimal(n)[0] != '0',
        decimal(n).len() >= 1,
    decreases n,
{
    let text = decimal(n);
    if n < 10 {
        assert(text.drop_last() =~= Seq::empty());
        assert(numeral_value(Seq::<char>::empty()) == 0);
        assert(text.last() == digit_char(n));
    } else {
        law_numerals_stand_for_their_numbers(n / 10);
        let shorter = decimal(n / 10);
        assert(text.drop_last() =~= shorter);
        assert(text.last() == digit_char(n % 10));
        assert(text[0] == shorter[0]);
        if shorter.len() == 1 {
            assert(n / 10 > 0);
            assert(numeral_value(shorter) == 10 * numeral_value(shorter.drop_last()) + digit_value(
                shorter.last(),
            ));
            assert(shorter.drop_last() =~= Seq::empty());
            assert(shorter[0] == shorter.last());
        }
    }
}

// ---------------------------------------------------------------------------
// Forms.

/// A form is written piece by piece from left to right: a text as it is, an input as
/// the input at its position.
pub proof fn law_forms_are_written_from_left_to_right(
    first: Seq<SqlPieceView>,
    second: Seq<SqlPieceView>,
    text: Seq<char>,
    position: int,
    inputs: Seq<Seq<char>>,
)
    requires
        0 <= position < inputs.len(),
    ensures
        form_text(Seq::empty(), inputs) == Seq::<char>::empty(),
        form_text(seq![SqlPieceView::Text(text)], inputs) == text,
        form_text(seq![SqlPieceView::Input(position)], inputs) == inputs[position],
        form_text(first + second, inputs) == form_text(first, inputs) + form_text(second, inputs),
    decreases second.len(),
{
    assert(seq![SqlPieceView::Text(text)].drop_last() =~= Seq::empty());
    assert(seq![SqlPieceView::Input(position)].drop_last() =~= Seq::empty());
    assert(form_text(Seq::empty(), inputs) =~= Seq::<char>::empty());
    assert(form_text(seq![SqlPieceView::Text(text)], inputs) =~= text);
    assert(form_text(seq![SqlPieceView::Input(position)], inputs) =~= inputs[position]);
    if second.len() > 0 {
        law_forms_are_written_from_left_to_right(
            first,
            second.drop_last(),
            text,
            position,
            inputs,
        );
        assert((first + second).drop_last() =~= first + second.drop_last());
        assert((first + second).last() == second.last());
        assert(form_text(first + second, inputs) =~= form_text(first, inputs) + form_text(
            second,
            inputs,
        ));
    } else {
        assert(first + second =~= first);
        assert(form_text(first, inputs) + form_text(second, inputs) =~= form_text(first, inputs));
    }
}

/// A token stands for a form: the form is registered for the token's authority and
/// for the signature. A native tag goes before a typed descriptor.
pub open spec fn stands_for(
    registries: AuthorityRegistries,
    token: ExternalFunctionId,
    form: ScalarForm,
    inputs: Seq<ColumnTy>,
    output: ColumnTy,
) -> bool {
    &&& form.inputs@ == inputs
    &&& form.output == output
    &&& match form.authority {
        ScalarAuthority::Native(tag) => registries.native_primitives@.contains_key(token.rep)
            && registries.native_primitives@[token.rep] == tag,
        ScalarAuthority::Typed(descriptor) => {
            &&& !registries.native_primitives@.contains_key(token.rep)
            &&& registries.native_scalar_primitives@.contains_key(token.rep)
            &&& registries.native_scalar_primitives@[token.rep] == descriptor
        },
    }
}

proof fn lemma_find_form(
    forms: Seq<ScalarForm>,
    authority: ScalarAuthority,
    inputs: Seq<ColumnTy>,
    output: ColumnTy,
    from: int,
)
    requires
        0 <= from,
    ensures
        match find_form(forms, authority, inputs, output, from) {
            Some(form) => exists|k: int|
                from <= k < forms.len() && form == #[trigger] forms[k] && form_matches(
                    forms[k],
                    authority,
                    inputs,
                    output,
                ) && forall|j: int|
                    from <= j < k ==> !form_matches(#[trigger] forms[j], authority, inputs, output),
            None => forall|j: int|
                from <= j < forms.len() ==> !form_matches(
                    #[trigger] forms[j],
                    authority,
                    inputs,
                    output,
                ),
        },
    decreases forms.len() - from,
{
    if from < forms.len() && !form_matches(forms[from], authority, inputs, output) {
        lemma_find_form(forms, authority, inputs, output, from + 1);
        match find_form(forms, authority, inputs, output, from + 1) {
            Some(form) => {
                let k = choose|k: int|
                    from + 1 <= k < forms.len() && form == #[trigger] forms[k] && form_matches(
                        forms[k],
                        authority,
                        inputs,
                        output,
                    ) && forall|j: int|
                        from + 1 <= j < k ==> !form_matches(
                            #[trigger] forms[j],
                            authority,
                            inputs,
                            output,
                        );
                assert(form == forms[k]);
            },
            None => {},
        }
    } else if from < forms.len() {
        assert(forms[from] == forms[from]);
    }
}

/// A token is authenticated at a signature exactly when it stands for a registered
/// form, and then it means the first such form.
pub proof fn law_authenticated_tokens_stand_for_their_forms(
    forms: Seq<ScalarForm>,
    registries: AuthorityRegistries,
    token: ExternalFunctionId,
    inputs: Seq<ColumnTy>,
    output: ColumnTy,
)
    ensures
        authenticated(forms, registries, token, inputs, output) is Ok <==> exists|k: int|
            0 <= k < forms.len() && stands_for(
                registries,
                token,
                #[trigger] forms[k],
                inputs,
                output,
            ),
        authenticated(forms, registries, token, inputs, output) matches Ok(expression) ==> {
            &&& expression.token == token
            &&& exists|k: int|
                0 <= k < forms.len() && stands_for(
                    registries,
                    token,
                    #[trigger] forms[k],
                    inputs,
                    output,
                ) && expression.authority == forms[k].authority && expression.value
                    == piece_views(forms[k].value@) && expression.defined == defined_view(
                    forms[k].defined,
                ) && forall|j: int|
                    0 <= j < k ==> !stands_for(
                        registries,
                        token,
                        #[trigger] forms[j],
                        inputs,
                        output,
                    )
        },
{
    match authority_of(registries, token) {
        Some(authority) => {
            lemma_find_form(forms, authority, inputs, output, 0);
            assert forall|k: int| 0 <= k < forms.len() implies (stands_for(
                registries,
                token,
                #[trigger] forms[k],
                inputs,
                output,
            ) <==> form_matches(forms[k], authority, inputs, output)) by {}
            match find_form(forms, authority, inputs, output, 0) {
                Some(form) => {
                    let k = choose|k: int|
                        0 <= k < forms.len() && form == #[trigger] forms[k] && form_matches(
                            forms[k],
                            authority,
                            inputs,
                            output,
                        ) && forall|j: int|
                            0 <= j < k ==> !form_matches(
                                #[trigger] forms[j],
                                authority,
                                inputs,
                                output,
                            );
                    assert(stands_for(registries, token, forms[k], inputs, output));
                },
                None => {},
            }
        },
        None => {},
    }
}

// ---------------------------------------------------------------------------
// Owner checks.

/// A result is read from a table, under so many keys.
pub open spec fn read_from(slot: SlotView, table: FunctionId, keys: usize) -> bool {
    match slot.source {
        SlotSourceView::Read(ReadView::Table { target, n_keys, .. }) => target == table && n_keys
            == keys,
        SlotSourceView::Read(ReadView::SetIfEmpty { target, n_keys, .. }) => target == table
            && n_keys == keys,
        SlotSourceView::Read(ReadView::ViewColumn { target, n_keys, .. }) => target == table
            && n_keys == keys,
        _ => false,
    }
}

/// The owners of a table are checked exactly when some result is read from it or some
/// effect changes it, under the same number of keys.
pub proof fn law_owners_are_checked_where_rows_are_read_or_changed(
    slots: Seq<SlotView>,
    effects: Seq<EffectView>,
    table: FunctionId,
    keys: usize,
)
    ensures
        (read_checks(slots) + effect_checks(effects)).contains((table, keys, false)) <==> {
            ||| exists|s: int| 0 <= s < slots.len() && read_from(#[trigger] slots[s], table, keys)
            ||| exists|e: int|
                0 <= e < effects.len() && (#[trigger] effects[e]).target == table
                    && effects[e].n_keys == keys
        },
        !(read_checks(slots) + effect_checks(effects)).contains((table, keys, true)),
{
    lemma_read_checks(slots, table, keys);
    let first = read_checks(slots);
    let second = effect_checks(effects);
    let all = first + second;
    let check = (table, keys, false);
    if first.contains(check) {
        let i = choose|i: int| 0 <= i < first.len() && first[i] == check;
        assert(all[i] == check);
    }
    if exists|e: int|
        0 <= e < effects.len() && (#[trigger] effects[e]).target == table && effects[e].n_keys
            == keys {
        let e = choose|e: int|
            0 <= e < effects.len() && (#[trigger] effects[e]).target == table && effects[e].n_keys
                == keys;
        assert(second[e] == check);
        assert(all[first.len() + e] == check);
    }
    if all.contains(check) {
        let i = choose|i: int| 0 <= i < all.len() && all[i] == check;
        if i < first.len() {
            assert(first[i] == check);
        } else {
            assert(second[i - first.len()] == check);
            assert(effects[i - first.len()].target == table);
        }
    }
    if all.contains((table, keys, true)) {
        let i = choose|i: int| 0 <= i < all.len() && all[i] == (table, keys, true);
        if i < first.len() {
            assert(first[i] == (table, keys, true));
        } else {
            assert(second[i - first.len()] == (table, keys, true));
        }
    }
}

proof fn lemma_read_checks(slots: Seq<SlotView>, table: FunctionId, keys: usize)
    ensures
        read_checks(slots).contains((table, keys, false)) <==> exists|s: int|
            0 <= s < slots.len() && read_from(#[trigger] slots[s], table, keys),
        !read_checks(slots).contains((table, keys, true)),
    decreases slots.len(),
{
    let all = read_checks(slots);
    let check = (table, keys, false);
    if slots.len() == 0 {
        assert(all =~= Seq::empty());
    } else {
        let fewer = slots.drop_last();
        let earlier = read_checks(fewer);
        lemma_read_checks(fewer, table, keys);
        if exists|s: int| 0 <= s < fewer.len() && read_from(#[trigger] fewer[s], table, keys) {
            let s = choose|s: int| 0 <= s < fewer.len() && read_from(#[trigger] fewer[s], table, keys);
            assert(read_from(slots[s], table, keys));
            let i = choose|i: int| 0 <= i < earlier.len() && earlier[i] == check;
            assert(all[i] == check);
        }
        if read_from(slots.last(), table, keys) {
            assert(all.last() == check);
            assert(slots[slots.len() - 1] == slots.last());
        }
        if exists|s: int| 0 <= s < slots.len() && read_from(#[trigger] slots[s], table, keys) {
            let s = choose|s: int| 0 <= s < slots.len() && read_from(#[trigger] slots[s], table, keys);
            if s < fewer.len() {
                assert(read_from(fewer[s], table, keys));
            }
        }
        if all.contains(check) {
            let i = choose|i: int| 0 <= i < all.len() && all[i] == check;
            if i < earlier.len() {
                assert(earlier[i] == check);
                let s = choose|s: int|
                    0 <= s < fewer.len() && read_from(#[trigger] fewer[s], table, keys);
                assert(read_from(slots[s], table, keys));
            } else {
                assert(read_from(slots[slots.len() - 1], table, keys));
            }
        }
        if all.contains((table, keys, true)) {
            let i = choose|i: int| 0 <= i < all.len() && all[i] == (table, keys, true);
            if i < earlier.len() {
                assert(earlier[i] == (table, keys, true));
            }
        }
    }
}

// ---------------------------------------------------------------------------
// Write capabilities.

/// A write capability says what the merge does to a column: a table that keeps old
/// rows merges to the old value, and one that asserts equality to the value that both
/// have in common. Any other merge is deferred.
pub proof fn law_write_capabilities_mean_their_merges(
    world: MergeWorld,
    merge: MergeFn,
    column: usize,
    old_row: Seq<int>,
    new_row: Seq<int>,
    lets: Seq<int>,
    calls: nat,
)
    ensures
        match capability_of(merge) {
            WriteCapability::KeepOld => merge_value(
                world,
                merge,
                column,
                old_row,
                new_row,
                lets,
                calls,
            ) == (old_row[column as int], calls),
            WriteCapability::AssertEq => merge_value(
                world,
                merge,
                column,
                old_row,
                new_row,
                lets,
                calls,
            ) == ((world.same)(old_row[column as int], new_row[column as int]), calls),
            WriteCapability::Deferred => !(merge is Old) && !(merge is AssertEq),
        },
{
}

// ---------------------------------------------------------------------------
// The catalog.

/// Exactly one table has a name.
pub open spec fn only_table_named(catalog: Catalog, name: Seq<char>, k: int) -> bool {
    &&& 0 <= k < catalog.tables@.len()
    &&& catalog.tables@[k].name@ == name
    &&& forall|j: int|
        0 <= j < catalog.tables@.len() && (#[trigger] catalog.tables@[j]).name@ == name ==> j == k
}

proof fn lemma_positions_named(catalog: Catalog, name: Seq<char>, count: nat)
    requires
        count <= catalog.tables@.len(),
    ensures
        ({
            let found = tables_named(catalog, name, count);
            &&& forall|i: int|
                0 <= i < found.len() ==> 0 <= #[trigger] found[i] < count
                    && catalog.tables@[found[i]].name@ == name
            &&& forall|i: int, j: int| 0 <= i < j < found.len() ==> found[i] < found[j]
            &&& forall|k: int|
                0 <= k < count && (#[trigger] catalog.tables@[k]).name@ == name ==> found.contains(
                    k,
                )
        }),
    decreases count,
{
    if count > 0 {
        let earlier = tables_named(catalog, name, (count - 1) as nat);
        let found = tables_named(catalog, name, count);
        lemma_positions_named(catalog, name, (count - 1) as nat);
        assert forall|i: int| 0 <= i < found.len() implies 0 <= #[trigger] found[i] < count
            && catalog.tables@[found[i]].name@ == name by {
            if i < earlier.len() {
                assert(found[i] == earlier[i]);
            }
        }
        assert forall|i: int, j: int| 0 <= i < j < found.len() implies found[i] < found[j] by {
            assert(found[i] == earlier[i]);
            if j < earlier.len() {
                assert(found[j] == earlier[j]);
            }
        }
        assert forall|k: int|
            0 <= k < count && (#[trigger] catalog.tables@[k]).name@ == name implies found.contains(
            k,
        ) by {
            if k < count - 1 {
                let i = choose|i: int| 0 <= i < earlier.len() && earlier[i] == k;
                assert(found[i] == k);
            } else {
                assert(found[earlier.len() as int] == k);
            }
        }
    }
}

/// A name resolves exactly when one table alone has it, and then to that table.
pub proof fn law_names_resolve_to_their_only_table(catalog: Catalog, name: Seq<char>)
    requires
        catalog.well_formed(),
    ensures
        table_named(catalog, name) is Ok <==> exists|k: int| #[trigger]
            only_table_named(catalog, name, k),
        table_named(catalog, name) matches Ok(id) ==> only_table_named(
            catalog,
            name,
            id.rep as int,
        ),
{
    let count = catalog.tables@.len();
    let found = tables_named(catalog, name, count);
    lemma_positions_named(catalog, name, count);
    if found.len() == 1 {
        assert(0 <= found[0] < count);
        assert(only_table_named(catalog, name, found[0])) by {
            assert forall|j: int|
                0 <= j < count && (#[trigger] catalog.tables@[j]).name@ == name implies j
                == found[0] by {
                assert(found.contains(j));
            }
        }
    } else if found.len() > 1 {
        assert(found[0] < found[1]);
        assert(catalog.tables@[found[0]].name@ == name && catalog.tables@[found[1]].name@ == name);
    } else {
        assert forall|k: int| !#[trigger] only_table_named(catalog, name, k) by {
            if only_table_named(catalog, name, k) {
                assert(found.contains(k));
            }
        }
    }
}

/// An entry gives a value its SQL text.
pub open spec fn gives_text(entry: LiteralSql, scalar: ScalarSqlType, value: Value) -> bool {
    entry.scalar == scalar && entry.value == value
}

proof fn lemma_find_literal(
    literals: Seq<LiteralSql>,
    scalar: ScalarSqlType,
    value: Value,
    from: int,
)
    requires
        0 <= from,
    ensures
        match find_literal(literals, scalar, value, from) {
            Some(text) => exists|k: int|
                from <= k < literals.len() && gives_text(#[trigger] literals[k], scalar, value)
                    && literals[k].sql@ == text && forall|j: int|
                    from <= j < k ==> !gives_text(#[trigger] literals[j], scalar, value),
            None => forall|j: int|
                from <= j < literals.len() ==> !gives_text(#[trigger] literals[j], scalar, value),
        },
    decreases literals.len() - from,
{
    if from < literals.len() && !gives_text(literals[from], scalar, value) {
        lemma_find_literal(literals, scalar, value, from + 1);
        match find_literal(literals, scalar, value, from + 1) {
            Some(text) => {
                let k = choose|k: int|
                    from + 1 <= k < literals.len() && gives_text(
                        #[trigger] literals[k],
                        scalar,
                        value,
                    ) && literals[k].sql@ == text && forall|j: int|
                        from + 1 <= j < k ==> !gives_text(#[trigger] literals[j], scalar, value);
                assert(gives_text(literals[k], scalar, value));
            },
            None => {},
        }
    } else if from < literals.len() {
        assert(gives_text(literals[from], scalar, value));
    }
}

/// A value of a column type has an SQL text exactly when the catalog has an entry for
/// it at the scalar type of the column, and then the text is that of the first such
/// entry.
pub proof fn law_literals_are_written_as_entered(catalog: Catalog, ty: ColumnTy, value: Value)
    ensures
        typed_literal(catalog, ty, value) is Ok <==> exists|k: int, scalar: ScalarSqlType|
            0 <= k < catalog.literals@.len() && scalar_of(catalog.types, ty) == Ok::<
                ScalarSqlType,
                RejectionView,
            >(scalar) && #[trigger] gives_text(catalog.literals@[k], scalar, value),
        typed_literal(catalog, ty, value) matches Ok((scalar, text)) ==> {
            &&& scalar_of(catalog.types, ty) == Ok::<ScalarSqlType, RejectionView>(scalar)
            &&& exists|k: int|
                0 <= k < catalog.literals@.len() && gives_text(
                    #[trigger] catalog.literals@[k],
                    scalar,
                    value,
                ) && catalog.literals@[k].sql@ == text && forall|j: int|
                    0 <= j < k ==> !gives_text(#[trigger] catalog.literals@[j], scalar, value)
        },
{
    match scalar_of(catalog.types, ty) {
        Ok(scalar) => {
            lemma_find_literal(catalog.literals@, scalar, value, 0);
            match find_literal(catalog.literals@, scalar, value, 0) {
                Some(text) => {
                    let k = choose|k: int|
                        0 <= k < catalog.literals@.len() && gives_text(
                            #[trigger] catalog.literals@[k],
                            scalar,
                            value,
                        ) && catalog.literals@[k].sql@ == text && forall|j: int|
                            0 <= j < k ==> !gives_text(
                                #[trigger] catalog.literals@[j],
                                scalar,
                                value,
                            );
                    assert(gives_text(catalog.literals@[k], scalar, value));
                },
                None => {},
            }
        },
        Err(_) => {},
    }
}

/// Ids are stored as ids, and each registered base type in a column of its own kind.
pub proof fn law_registered_types_have_their_columns(types: BaseTypes)
    requires
        types.well_formed(),
        types.float != types.unit && types.float != types.boolean && types.float != types.integer
            && types.float != types.string,
    ensures
        scalar_of(types, ColumnTy::Id) == Ok::<ScalarSqlType, RejectionView>(ScalarSqlType::Id),
        scalar_of(types, ColumnTy::Base(types.unit)) == Ok::<ScalarSqlType, RejectionView>(
            ScalarSqlType::Unit,
        ),
        scalar_of(types, ColumnTy::Base(types.boolean)) == Ok::<ScalarSqlType, RejectionView>(
            ScalarSqlType::Bool,
        ),
        scalar_of(types, ColumnTy::Base(types.integer)) == Ok::<ScalarSqlType, RejectionView>(
            ScalarSqlType::I64,
        ),
        scalar_of(types, ColumnTy::Base(types.string)) == Ok::<ScalarSqlType, RejectionView>(
            ScalarSqlType::String,
        ),
        scalar_of(types, ColumnTy::Base(types.float)) == Ok::<ScalarSqlType, RejectionView>(
            ScalarSqlType::F64,
        ),
{
}

} // verus!
