//! Scalar column types and the base value registry behind them.

use vstd::prelude::*;

use crate::ir::{BaseValueId, ColumnTy, Value};
use crate::rejection::{reject_with, Rejection, Scope};
use crate::text::decimal_string;
#[allow(unused_imports)]
use crate::rejection::{rejected, same_outcome, RejectionView};
#[allow(unused_imports)]
use crate::text::decimal;
use egglog_core_relations::{BaseValues, Boxed};
use egglog_numeric_id::NumericId;

verus! {

/// The registry of base value types, opaque here.
#[verifier::external_type_specification]
#[verifier::external_body]
pub struct ExBaseValues(egglog_core_relations::BaseValues);

/// The ids that a registry has given to `()`, `bool`, `i64` and boxed strings,
/// in this order, once all four are registered.
pub uninterp spec fn scalar_type_ids(base: BaseValues) -> Option<Seq<u32>>;

/// The SQL type of a scalar column.
#[derive(Clone, Copy, Debug, PartialEq, Eq, Structural)]
pub enum ScalarSqlType {
    Id,
    Unit,
    Bool,
    I64,
    F64,
    String,
}

/// The base value types that have a scalar column type.
#[derive(Clone, Copy, Debug, PartialEq, Eq, Structural)]
pub struct BaseTypes {
    pub unit: BaseValueId,
    pub boolean: BaseValueId,
    pub integer: BaseValueId,
    pub string: BaseValueId,
    pub float: BaseValueId,
}

/// `BaseValues::register_type` for `()`, `bool`, `i64` and `Boxed<String>`.
///
/// Registering a type again gives the id that it already has, and no two types
/// share an id.
#[verifier::external_body]
fn register_scalar_types(base: &mut BaseValues) -> (ids: (u32, u32, u32, u32))
    ensures
        scalar_type_ids(*final(base)) == Some(seq![ids.0, ids.1, ids.2, ids.3]),
        scalar_type_ids(*old(base)) is Some ==> scalar_type_ids(*final(base)) == scalar_type_ids(
            *old(base),
        ),
        ids.0 != ids.1 && ids.0 != ids.2 && ids.0 != ids.3,
        ids.1 != ids.2 && ids.1 != ids.3 && ids.2 != ids.3,
{
    (
        base.register_type::<()>().rep(),
        base.register_type::<bool>().rep(),
        base.register_type::<i64>().rep(),
        base.register_type::<Boxed<String>>().rep(),
    )
}

/// `BaseValues::get` of the unit value. It is stored in place, as zero, whatever
/// the registry holds.
#[verifier::external_body]
fn interned_unit(base: &BaseValues) -> (value: u32)
    ensures
        value == 0,
{
    base.get(()).rep()
}

/// `BaseValues::unwrap` of an `i64` whose value has its top bit clear. Such a
/// value is stored in place, so the number is the value itself.
#[verifier::external_body]
fn unwrap_small_integer(base: &BaseValues, value: u32) -> (number: i64)
    requires
        value < 0x8000_0000,
    ensures
        number == value,
{
    base.unwrap::<i64>(egglog_core_relations::Value::new(value))
}

/// The interned form of the unit value.
pub open spec fn unit_value() -> Value {
    Value { rep: 0 }
}

/// The interned form of the unit value.
pub fn canonical_unit(base: &BaseValues) -> (value: Value)
    ensures
        value == unit_value(),
{
    Value { rep: interned_unit(base) }
}

/// The number that an interned `i64` stands for, when it is stored in place.
/// Every number from zero up to 2^31 is, and only those are.
pub open spec fn in_place_integer(value: Value) -> Option<int> {
    if value.rep < 0x8000_0000 {
        Some(value.rep as int)
    } else {
        None
    }
}

/// The number that an interned `i64` stands for, when it is stored in place.
pub fn small_integer(base: &BaseValues, value: Value) -> (number: Option<i64>)
    ensures
        match number {
            Some(n) => in_place_integer(value) == Some(n as int),
            None => in_place_integer(value) is None,
        },
{
    if value.rep < 0x8000_0000 {
        Some(unwrap_small_integer(base, value.rep))
    } else {
        None
    }
}

/// The scalar type of a column, or why it has none.
pub open spec fn scalar_of(types: BaseTypes, ty: ColumnTy) -> Result<
    ScalarSqlType,
    RejectionView,
> {
    match ty {
        ColumnTy::Id => Ok(ScalarSqlType::Id),
        ColumnTy::Base(id) => if id == types.unit {
            Ok(ScalarSqlType::Unit)
        } else if id == types.boolean {
            Ok(ScalarSqlType::Bool)
        } else if id == types.integer {
            Ok(ScalarSqlType::I64)
        } else if id == types.string {
            Ok(ScalarSqlType::String)
        } else if id == types.float {
            Ok(ScalarSqlType::F64)
        } else {
            Err(
                rejected(
                    Scope::Bare,
                    "DuckDB has no scalar column for base value type "@ + decimal(id.rep as nat),
                ),
            )
        },
    }
}

impl BaseTypes {
    /// No two of the registered types share an id.
    pub open spec fn well_formed(self) -> bool {
        &&& self.unit != self.boolean && self.unit != self.integer && self.unit != self.string
        &&& self.boolean != self.integer && self.boolean != self.string
        &&& self.integer != self.string
    }

    /// Registers the scalar types and records their ids. The id of the float
    /// type is taken as given.
    pub fn register(base: &mut BaseValues, float: BaseValueId) -> (types: BaseTypes)
        ensures
            types.well_formed(),
            types.float == float,
            scalar_type_ids(*final(base)) == Some(
                seq![types.unit.rep, types.boolean.rep, types.integer.rep, types.string.rep],
            ),
            scalar_type_ids(*old(base)) is Some ==> scalar_type_ids(*final(base))
                == scalar_type_ids(*old(base)),
    {
        let (unit, boolean, integer, string) = register_scalar_types(base);
        BaseTypes {
            unit: BaseValueId { rep: unit },
            boolean: BaseValueId { rep: boolean },
            integer: BaseValueId { rep: integer },
            string: BaseValueId { rep: string },
            float,
        }
    }

    /// The scalar type of a column.
    pub fn from_column(&self, ty: ColumnTy) -> (scalar: Result<ScalarSqlType, Rejection>)
        ensures
            same_outcome(scalar, scalar_of(*self, ty)),
    {
        match ty {
            ColumnTy::Id => Ok(ScalarSqlType::Id),
            ColumnTy::Base(id) => {
                if id == self.unit {
                    Ok(ScalarSqlType::Unit)
                } else if id == self.boolean {
                    Ok(ScalarSqlType::Bool)
                } else if id == self.integer {
                    Ok(ScalarSqlType::I64)
                } else if id == self.string {
                    Ok(ScalarSqlType::String)
                } else if id == self.float {
                    Ok(ScalarSqlType::F64)
                } else {
                    let mut text = "DuckDB has no scalar column for base value type ".to_owned();
                    let numeral = decimal_string(id.rep as u64);
                    text.append(numeral.as_str());
                    Err(reject_with(Scope::Bare, text))
                }
            },
        }
    }
}

} // verus!
