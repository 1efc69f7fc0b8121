//! What names and types of the catalog keep apart.

use vstd::prelude::*;

#[allow(unused_imports)]
use crate::base::{scalar_of, BaseTypes, ScalarSqlType};
#[allow(unused_imports)]
use crate::catalog::table_text;
#[allow(unused_imports)]
use crate::ir::{ColumnTy, FunctionId};
#[allow(unused_imports)]
use crate::rejection::RejectionView;
#[allow(unused_imports)]
use crate::text::{decimal, digit_char, scratch_char, scratch_name};

verus! {

proof fn lemma_decimal_shape(n: nat)
    ensures
        decimal(n).len() >= 1,
        n >= 10 ==> decimal(n).len() >= 2,
        decimal(n).last() == digit_char(n % 10),
        n >= 10 ==> decimal(n).drop_last() == decimal(n / 10),
        scratch_name(decimal(n)),
    decreases n,
{
    if n >= 10 {
        lemma_decimal_shape(n / 10);
        assert(decimal(n).drop_last() =~= decimal(n / 10));
        assert forall|i: int| 0 <= i < decimal(n).len() implies scratch_char(
            #[trigger] decimal(n)[i],
        ) by {
            if i < decimal(n / 10).len() {
                assert(decimal(n)[i] == decimal(n / 10)[i]);
            }
        }
    }
}

/// Different numbers have different numerals.
pub proof fn law_numerals_are_distinct(a: nat, b: nat)
    requires
        decimal(a) == decimal(b),
    ensures
        a == b,
    decreases a,
{
    lemma_decimal_shape(a);
    lemma_decimal_shape(b);
    assert(a % 10 == b % 10);
    if a >= 10 && b >= 10 {
        law_numerals_are_distinct(a / 10, b / 10);
    }
}

/// Different tables are stored in different relations.
pub proof fn law_relations_are_distinct(a: FunctionId, b: FunctionId)
    requires
        table_text(a) == table_text(b),
    ensures
        a == b,
{
    let prefix = "egglog_function_"@;
    let left = decimal(a.rep as nat);
    let right = decimal(b.rep as nat);
    assert(left.len() == right.len()) by {
        assert((prefix + left).len() == (prefix + right).len());
    }
    assert forall|i: int| 0 <= i < left.len() implies left[i] == right[i] by {
        assert((prefix + left)[prefix.len() + i] == (prefix + right)[prefix.len() + i]);
    }
    assert(left =~= right);
    law_numerals_are_distinct(a.rep as nat, b.rep as nat);
}

/// The name of a relation needs no quoting.
pub proof fn law_relation_names_are_safe(id: FunctionId)
    ensures
        scratch_name(table_text(id)),
{
    reveal_strlit("egglog_function_");
    lemma_decimal_shape(id.rep as nat);
    let prefix = "egglog_function_"@;
    assert forall|i: int| 0 <= i < table_text(id).len() implies scratch_char(
        #[trigger] table_text(id)[i],
    ) by {
        if i < prefix.len() {
            assert(table_text(id)[i] == prefix[i]);
        } else {
            assert(table_text(id)[i] == decimal(id.rep as nat)[i - prefix.len()]);
        }
    }
}

/// Two column types with the same scalar type are the same column type, as long
/// as the float type is none of the registered ones.
pub proof fn law_scalar_types_tell_columns_apart(
    types: BaseTypes,
    left: ColumnTy,
    right: ColumnTy,
    scalar: ScalarSqlType,
)
    requires
        types.well_formed(),
        types.float != types.unit && types.float != types.boolean && types.float != types.integer
            && types.float != types.string,
        scalar_of(types, left) == Ok::<ScalarSqlType, RejectionView>(scalar),
        scalar_of(types, right) == Ok::<ScalarSqlType, RejectionView>(scalar),
    ensures
        left == right,
{
}

} // verus!
