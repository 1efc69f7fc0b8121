//! The registered tables and the closed SQL texts that rules may use.

use vstd::prelude::*;

use crate::base::{BaseTypes, ScalarSqlType};
use crate::ir::{ColumnTy, DefaultVal, FunctionId, MergeFn, Value};
use crate::merge_program::MergeProgram;
use crate::rejection::{reject_with, Rejection, Scope};
use crate::scalar_expr::ScalarForm;
use crate::text::{append_number, same_text};
#[allow(unused_imports)]
use crate::base::scalar_of;
#[allow(unused_imports)]
use crate::rejection::{agrees, rejected, same_outcome, RejectionView};
#[allow(unused_imports)]
use crate::text::decimal;

verus! {

/// How conflicting writes to a table are resolved.
#[derive(Clone, Copy, Debug, PartialEq, Eq, Structural)]
pub enum WriteCapability {
    AssertEq,
    KeepOld,
    /// A generic merge program decides.
    Deferred,
}

/// A registered table.
#[derive(Debug)]
pub struct TableInfo {
    pub name: String,
    pub schema: Vec<ColumnTy>,
    pub n_keys: usize,
    pub n_vals: usize,
    pub n_identity_vals: Option<usize>,
    pub default: DefaultVal,
    pub merge: MergeFn,
    pub can_subsume: bool,
    pub columns: Vec<ScalarSqlType>,
    pub write_capability: WriteCapability,
    pub merge_program: MergeProgram,
}

/// The SQL text of one interned value.
#[derive(Debug)]
pub struct LiteralSql {
    pub scalar: ScalarSqlType,
    pub value: Value,
    pub sql: String,
}

/// Everything that admission reads besides the rule and the live authorities.
#[derive(Debug)]
pub struct Catalog {
    pub types: BaseTypes,
    pub tables: Vec<TableInfo>,
    pub literals: Vec<LiteralSql>,
    pub forms: Vec<ScalarForm>,
}

impl TableInfo {
    /// Keys come before values, and every column has a scalar type.
    pub open spec fn well_formed(self) -> bool {
        &&& self.schema@.len() == self.n_keys + self.n_vals
        &&& self.columns@.len() == self.schema@.len()
    }

    /// The number of columns.
    pub fn arity(&self) -> (arity: usize)
        ensures
            arity == self.schema@.len(),
    {
        self.schema.len()
    }
}

/// The table with an id, or why there is none.
pub open spec fn table_at(catalog: Catalog, id: FunctionId) -> Result<TableInfo, RejectionView> {
    if id.rep < catalog.tables@.len() {
        Ok(catalog.tables@[id.rep as int])
    } else {
        Err(
            rejected(
                Scope::Bare,
                "DuckDB has no function table with id "@ + decimal(id.rep as nat),
            ),
        )
    }
}

/// The positions of the tables with a name, among the first `count`.
pub open spec fn tables_named(catalog: Catalog, name: Seq<char>, count: nat) -> Seq<int>
    decreases count,
{
    if count == 0 {
        Seq::empty()
    } else {
        let earlier = tables_named(catalog, name, (count - 1) as nat);
        if catalog.tables@[count - 1].name@ == name {
            earlier.push(count - 1)
        } else {
            earlier
        }
    }
}

/// The only table with a name, or why there is none.
pub open spec fn table_named(catalog: Catalog, name: Seq<char>) -> Result<
    FunctionId,
    RejectionView,
> {
    let found = tables_named(catalog, name, catalog.tables@.len());
    if found.len() == 0 {
        Err(rejected(Scope::Bare, "no function table has the name `"@ + name + "`"@))
    } else if found.len() > 1 {
        Err(rejected(Scope::Bare, "the function table name `"@ + name + "` is not unique"@))
    } else {
        Ok(FunctionId { rep: found[0] as u32 })
    }
}

/// The text of the first entry for a value at or after a position.
pub open spec fn find_literal(
    literals: Seq<LiteralSql>,
    scalar: ScalarSqlType,
    value: Value,
    from: int,
) -> Option<Seq<char>>
    decreases literals.len() - from,
{
    if from < 0 || from >= literals.len() {
        None
    } else if literals[from].scalar == scalar && literals[from].value == value {
        Some(literals[from].sql@)
    } else {
        find_literal(literals, scalar, value, from + 1)
    }
}

/// The SQL text of a value, or why it has none.
pub open spec fn literal_text(catalog: Catalog, scalar: ScalarSqlType, value: Value) -> Result<
    Seq<char>,
    RejectionView,
> {
    match find_literal(catalog.literals@, scalar, value, 0) {
        Some(text) => Ok(text),
        None => Err(
            rejected(Scope::Bare, "DuckDB has no SQL literal for value "@ + decimal(value.rep as nat)),
        ),
    }
}

/// The relation that stores a table.
pub open spec fn table_text(id: FunctionId) -> Seq<char> {
    "egglog_function_"@ + decimal(id.rep as nat)
}

/// The relation that stores a table.
pub fn sql_table(id: FunctionId) -> (text: String)
    ensures
        text@ == table_text(id),
{
    let mut text = "egglog_function_".to_owned();
    append_number(&mut text, id.rep as u64);
    text
}

impl Catalog {
    /// Every table is well formed, table ids fit their representation, merges
    /// only write registered tables, and they only read tables that came
    /// earlier, each of a lower dependency level.
    pub open spec fn well_formed(self) -> bool {
        &&& self.tables@.len() <= u32::MAX
        &&& forall|i: int| 0 <= i < self.tables@.len() ==> (#[trigger] self.tables@[i]).well_formed()
        &&& forall|i: int, target: u32|
            0 <= i < self.tables@.len()
                && #[trigger] self.tables@[i].merge_program.write_targets@.contains(target)
                ==> target < self.tables@.len()
        &&& forall|i: int, source: u32|
            0 <= i < self.tables@.len()
                && #[trigger] self.tables@[i].merge_program.read_deps@.contains(source) ==> source
                < i && self.tables@[source as int].merge_program.dependency_level
                < self.tables@[i].merge_program.dependency_level
    }

    /// Finds a table by id.
    pub fn table_info(&self, id: FunctionId) -> (info: Result<&TableInfo, Rejection>)
        ensures
            match (info, table_at(*self, id)) {
                (Ok(table), Ok(model)) => *table == model,
                (Err(error), Err(model)) => error@ == model,
                _ => false,
            },
            info is Ok && self.well_formed() ==> info->Ok_0.well_formed(),
    {
        if (id.rep as usize) < self.tables.len() {
            Ok(&self.tables[id.rep as usize])
        } else {
            let mut text = "DuckDB has no function table with id ".to_owned();
            append_number(&mut text, id.rep as u64);
            Err(reject_with(Scope::Bare, text))
        }
    }

    /// Finds the only table with a name.
    pub fn table_by_exact_name(&self, name: &str) -> (id: Result<FunctionId, Rejection>)
        requires
            self.well_formed(),
        ensures
            same_outcome(id, table_named(*self, name@)),
            id is Ok ==> id->Ok_0.rep < self.tables@.len(),
    {
        let mut found: Option<usize> = None;
        let mut several = false;
        let mut i: usize = 0;
        while i < self.tables.len()
            invariant
                i <= self.tables.len(),
                match found {
                    None => !several && tables_named(*self, name@, i as nat).len() == 0,
                    Some(first) => {
                        &&& first < i
                        &&& tables_named(*self, name@, i as nat).len() >= 1
                        &&& tables_named(*self, name@, i as nat)[0] == first
                        &&& several == (tables_named(*self, name@, i as nat).len() > 1)
                    },
                },
            decreases self.tables.len() - i,
        {
            if same_text(self.tables[i].name.as_str(), name) {
                if found.is_some() {
                    several = true;
                } else {
                    found = Some(i);
                }
            }
            i += 1;
        }
        match found {
            None => {
                let mut text = "no function table has the name `".to_owned();
                text.append(name);
                text.append("`");
                Err(reject_with(Scope::Bare, text))
            },
            Some(first) => {
                if several {
                    let mut text = "the function table name `".to_owned();
                    text.append(name);
                    text.append("` is not unique");
                    Err(reject_with(Scope::Bare, text))
                } else {
                    Ok(FunctionId { rep: first as u32 })
                }
            },
        }
    }

    /// The SQL text of a value.
    pub fn sql_literal(&self, scalar: ScalarSqlType, value: Value) -> (text: Result<
        String,
        Rejection,
    >)
        ensures
            agrees(text, literal_text(*self, scalar, value)),
    {
        let mut i: usize = 0;
        while i < self.literals.len()
            invariant
                i <= self.literals.len(),
                find_literal(self.literals@, scalar, value, 0) == find_literal(
                    self.literals@,
                    scalar,
                    value,
                    i as int,
                ),
            decreases self.literals.len() - i,
        {
            let literal = &self.literals[i];
            if literal.scalar == scalar && literal.value == value {
                return Ok(literal.sql.clone());
            }
            i += 1;
        }
        let mut text = "DuckDB has no SQL literal for value ".to_owned();
        append_number(&mut text, value.rep as u64);
        Err(reject_with(Scope::Bare, text))
    }
}

impl Catalog {
    /// The scalar type of a column and the SQL text of a value of it.
    pub fn typed_sql_literal(&self, ty: ColumnTy, value: Value) -> (literal: Result<
        (ScalarSqlType, String),
        Rejection,
    >)
        ensures
            match (literal, typed_literal(*self, ty, value)) {
                (Ok((scalar, sql)), Ok((model, text))) => scalar == model && sql@ == text,
                (Err(error), Err(model)) => error@ == model,
                _ => false,
            },
    {
        let scalar = self.types.from_column(ty)?;
        let sql = self.sql_literal(scalar, value)?;
        Ok((scalar, sql))
    }
}

/// The scalar type of a column and the SQL text of a value of it.
pub open spec fn typed_literal(catalog: Catalog, ty: ColumnTy, value: Value) -> Result<
    (ScalarSqlType, Seq<char>),
    RejectionView,
> {
    match scalar_of(catalog.types, ty) {
        Err(error) => Err(error),
        Ok(scalar) => match literal_text(catalog, scalar, value) {
            Err(error) => Err(error),
            Ok(text) => Ok((scalar, text)),
        },
    }
}

} // verus!
