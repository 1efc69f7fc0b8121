//! Closed, structural lowering for the proof-agnostic union-find path rule.
//!
//! The frontend emits the same typed rule and merge vocabulary for every
//! equality sort. This module recognizes that vocabulary by topology, concrete
//! types and authenticated native primitive tags. Generated rule, function,
//! variable, proof-sort and table names play no part.

use vstd::prelude::*;

use crate::authority::{AuthorityRegistries, NativePrimitive};
use crate::base::ScalarSqlType;
use crate::catalog::{sql_table, Catalog};
use crate::ir::{
    Atom, AtomTerm, ColumnTy, CoreAction, ExternalFunctionId, FunctionId, MergeAction, MergeFn,
    ReadMode, RuleActionCall, RuleBodyCall, RuleSpec, RuleValue, RuleVar,
};
use crate::rejection::{reject, reject_with, Rejection, Scope};
use crate::shape::{
    are_ids, distinct_vars, expect_pattern, expect_patterns, identity_arguments, is_proof_config,
    is_union_find_config, let_var, payload_arguments, proof_columns, require, require_column_type,
    require_columns, require_id_type, require_same_number, require_same_table, require_scalar,
    require_stated, same_var, unit, MergePattern,
};
use crate::text::{append_number, assert_scratch_name};
#[allow(unused_imports)]
use crate::authority::entry;
#[allow(unused_imports)]
use crate::catalog::table_text;
#[allow(unused_imports)]
use crate::shape::{
    all_ids, atom_table, bound_var, column_type_check, columns_check, distinct_check, fresh_label,
    holds, id_type_check, identity_patterns, literal_of, merge_fresh, merge_target, pattern_check,
    patterns_check, payload_patterns, proof_column_types, proof_config, same_number_check,
    same_table_check, same_var_check, scalar_check, set_table, stated, table_check, table_of,
    union_find_config, var_of, yields, Check,
};
#[allow(unused_imports)]
use crate::text::{decimal, scratch_name};

verus! {

/// A fully validated instance of the path-compression vocabulary.
#[derive(Clone, Copy, Debug, PartialEq, Eq, Structural)]
pub struct PathCompressionPlan {
    pub seminaive: bool,
    pub union_find: FunctionId,
    pub sym: FunctionId,
    pub trans: FunctionId,
}

/// The semi-naive restriction: a row of at least one side is new.
pub open spec fn path_freshness(seminaive: bool, watermark: u64) -> Seq<char> {
    if seminaive {
        "AND (first.__generation >= CAST('"@
            + decimal(watermark as nat)
            + "' AS UBIGINT)\n                       OR second.__generation >= CAST('"@
            + decimal(watermark as nat)
            + "' AS UBIGINT))"@
    } else {
        Seq::empty()
    }
}

/// The statement that stages the matches of a path rule.
pub open spec fn path_sql(plan: PathCompressionPlan, stage: Seq<char>, watermark: u64) -> Seq<char> {
    "CREATE TEMP TABLE "@
        + stage
        + " AS\n             WITH bindings AS (\n                 SELECT DISTINCT\n                        first.c0 AS c0,\n                        first.c1 AS c1,\n                        first.c2 AS c2,\n                        second.c1 AS c3,\n                        second.c2 AS c4\n                 FROM "@
        + table_text(plan.union_find)
        + " AS first\n                 JOIN "@
        + table_text(plan.union_find)
        + " AS second\n                   ON first.c1 IS NOT DISTINCT FROM second.c0\n                 WHERE first.__subsumed = FALSE\n                   AND second.__subsumed = FALSE\n                   AND first.c1 IS DISTINCT FROM second.c1\n                   "@
        + path_freshness(plan.seminaive, watermark)
        + "\n             )\n             SELECT bindings.*,\n                    row_number() OVER (ORDER BY c0, c1, c2, c3, c4)\n                        AS __match_ordinal\n             FROM bindings"@
}

impl PathCompressionPlan {
    /// Renders the statement that stages the matches.
    pub fn materialize_sql(&self, stage: &str, watermark: u64) -> (sql: String)
        requires
            scratch_name(stage@),
        ensures
            sql@ == path_sql(*self, stage@, watermark),
    {
        assert_scratch_name(stage);
        let uf = sql_table(self.union_find);
        let freshness = if self.seminaive {
            let mut text = "AND (first.__generation >= CAST('".to_owned();
            append_number(&mut text, watermark);
            text.append("' AS UBIGINT)\n                       OR second.__generation >= CAST('");
            append_number(&mut text, watermark);
            text.append("' AS UBIGINT))");
            text
        } else {
            String::new()
        };
        let mut sql = "CREATE TEMP TABLE ".to_owned();
        sql.append(stage);
        sql.append(" AS\n             WITH bindings AS (\n                 SELECT DISTINCT\n                        first.c0 AS c0,\n                        first.c1 AS c1,\n                        first.c2 AS c2,\n                        second.c1 AS c3,\n                        second.c2 AS c4\n                 FROM ");
        sql.append(uf.as_str());
        sql.append(" AS first\n                 JOIN ");
        sql.append(uf.as_str());
        sql.append(" AS second\n                   ON first.c1 IS NOT DISTINCT FROM second.c0\n                 WHERE first.__subsumed = FALSE\n                   AND second.__subsumed = FALSE\n                   AND first.c1 IS DISTINCT FROM second.c1\n                   ");
        sql.append(freshness.as_str());
        sql.append("\n             )\n             SELECT bindings.*,\n                    row_number() OVER (ORDER BY c0, c1, c2, c3, c4)\n                        AS __match_ordinal\n             FROM bindings");
        sql
    }

    /// What two plans share when they work on the same tables.
    pub fn group_key(&self) -> (key: (u32, u32, u32))
        ensures
            key == (self.union_find.rep, self.sym.rep, self.trans.rep),
    {
        (self.union_find.rep, self.sym.rep, self.trans.rep)
    }
}

/// Whether a rule has the outer topology of a path rule.
pub open spec fn path_outer(rule: RuleSpec) -> bool {
    &&& rule.body@.len() == 3
    &&& rule.head@.len() == 4
    &&& rule.body@[0].head matches RuleBodyCall::Table { id: first, read: first_read }
    &&& rule.body@[1].head matches RuleBodyCall::Table { id: second, read: second_read }
    &&& first_read == ReadMode::Live
    &&& second_read == ReadMode::Live
    &&& first == second
    &&& rule.body@[2].head is Primitive
    &&& rule.head@[0] matches CoreAction::Let(_, call, _)
    &&& call is Primitive
    &&& rule.head@[1] is LetAtomTerm
    &&& rule.head@[2] matches CoreAction::SetRow(proof_call, _, _)
    &&& proof_call is Table
    &&& rule.head@[3] matches CoreAction::SetRow(update_call, _, _)
    &&& update_call matches RuleActionCall::Table { id: updated }
    &&& updated == first
}

/// The cheap discriminator before full validation.
pub fn looks_like_path_compression(rule: &RuleSpec) -> (result: bool)
    ensures
        result == path_outer(*rule),
{
    if rule.body.len() != 3 || rule.head.len() != 4 {
        return false;
    }
    let first_id = match &rule.body[0].head {
        RuleBodyCall::Table { id, read } => {
            if *read != ReadMode::Live {
                return false;
            }
            *id
        },
        _ => {
            return false;
        },
    };
    match &rule.body[1].head {
        RuleBodyCall::Table { id, read } => {
            if *read != ReadMode::Live || first_id != *id {
                return false;
            }
        },
        _ => {
            return false;
        },
    }
    match &rule.body[2].head {
        RuleBodyCall::Primitive { .. } => {},
        _ => {
            return false;
        },
    }
    match &rule.head[0] {
        CoreAction::Let(_, RuleActionCall::Primitive { .. }, _) => {},
        _ => {
            return false;
        },
    }
    match &rule.head[1] {
        CoreAction::LetAtomTerm(_, _) => {},
        _ => {
            return false;
        },
    }
    match &rule.head[2] {
        CoreAction::SetRow(RuleActionCall::Table { .. }, _, _) => {},
        _ => {
            return false;
        },
    }
    match &rule.head[3] {
        CoreAction::SetRow(RuleActionCall::Table { id }, _, _) => *id == first_id,
        _ => false,
    }
}

// ---------------------------------------------------------------------------
// Terms and tables.

/// A term is an id variable.
pub open spec fn path_var_check(term: AtomTerm) -> Check {
    holds(term is Var, Scope::Path, "requires a variable"@).and(
        holds(var_of(term).ty == ColumnTy::Id, Scope::Path, "requires Id variables"@),
    )
}

/// A term is the expected id variable.
pub open spec fn path_same_check(expected: RuleVar, term: AtomTerm, role: Seq<char>) -> Check {
    path_var_check(term).and(same_var_check(Scope::Path, expected, var_of(term), role))
}

fn id_var(term: &AtomTerm) -> (variable: Result<RuleVar, Rejection>)
    ensures
        yields(variable, path_var_check(*term), var_of(*term)),
{
    match term {
        AtomTerm::Var(variable) => {
            if variable.ty != ColumnTy::Id {
                return Err(reject(Scope::Path, "requires Id variables"));
            }
            Ok(*variable)
        },
        _ => Err(reject(Scope::Path, "requires a variable")),
    }
}

fn same_id_var(expected: RuleVar, term: &AtomTerm, role: &str) -> (checked: Result<(), Rejection>)
    ensures
        yields(checked, path_same_check(expected, *term, role@), ()),
{
    let actual = id_var(term)?;
    same_var(Scope::Path, expected, actual, role)
}

/// An atom reads the live rows of a table.
pub open spec fn live_atom_check(atom: Atom) -> Check {
    match atom.head {
        RuleBodyCall::Table { read, .. } => holds(
            read == ReadMode::Live,
            Scope::Path,
            "requires Live table atoms"@,
        ),
        _ => holds(false, Scope::Path, "requires two leading table atoms"@),
    }
}

fn live_table_atom(atom: &Atom) -> (table: Result<FunctionId, Rejection>)
    ensures
        yields(table, live_atom_check(*atom), atom_table(*atom)),
{
    match &atom.head {
        RuleBodyCall::Table { id, read } => {
            if *read != ReadMode::Live {
                return Err(reject(Scope::Path, "requires Live table atoms"));
            }
            Ok(*id)
        },
        _ => Err(reject(Scope::Path, "requires two leading table atoms")),
    }
}

/// A table holds one proof relation with `n_keys` id keys.
pub open spec fn path_proof_check(catalog: Catalog, target: FunctionId, n_keys: nat) -> Check {
    let schema = table_of(catalog, target).schema@;
    table_check(catalog, target).and(
        holds(
            proof_config(table_of(catalog, target), n_keys),
            Scope::Path,
            "proof target is not a one-output AssertEq table"@,
        ),
    ).and(
        columns_check(
            catalog,
            schema,
            proof_column_types(n_keys),
            "scalar(base_values, *ty)? == expected"@,
            n_keys + 1,
        ),
    )
}

fn validate_proof_table(catalog: &Catalog, target: FunctionId, n_keys: usize) -> (checked: Result<
    (),
    Rejection,
>)
    requires
        n_keys < usize::MAX,
    ensures
        yields(checked, path_proof_check(*catalog, target, n_keys as nat), ()),
{
    let info = catalog.table_info(target)?;
    require(
        is_proof_config(info, n_keys),
        Scope::Path,
        "proof target is not a one-output AssertEq table",
    )?;
    require_columns(
        catalog,
        &info.schema,
        &proof_columns(n_keys),
        "scalar(base_values, *ty)? == expected",
    )
}

// ---------------------------------------------------------------------------
// The inequality.

/// A token is the authenticated inequality on ids.
pub open spec fn neq_check(
    catalog: Catalog,
    registries: AuthorityRegistries,
    scope: Scope,
    id: ExternalFunctionId,
    name: Seq<char>,
    output: ColumnTy,
) -> Check {
    let text = "requires authenticated ValueNeq (diagnostic name `"@ + name
        + "`) with (Id, Id) -> Unit"@;
    holds(
        entry(registries.native_primitives@, id.rep) == Some(NativePrimitive::ValueNeq),
        scope,
        text,
    ).and(scalar_check(catalog, output, ScalarSqlType::Unit, scope, text))
}

/// Requires a token to be the authenticated inequality on ids.
pub fn require_neq(
    catalog: &Catalog,
    registries: &AuthorityRegistries,
    scope: Scope,
    id: ExternalFunctionId,
    name: &String,
    output: ColumnTy,
) -> (checked: Result<(), Rejection>)
    ensures
        yields(checked, neq_check(*catalog, *registries, scope, id, name@, output), ()),
{
    let mut text = "requires authenticated ValueNeq (diagnostic name `".to_owned();
    text.append(name.as_str());
    text.append("`) with (Id, Id) -> Unit");
    let authentic = match registries.native(id) {
        Some(tag) => tag == NativePrimitive::ValueNeq,
        None => false,
    };
    require(authentic, scope, text.as_str())?;
    require_scalar(catalog, output, ScalarSqlType::Unit, scope, text.as_str())
}

/// The third atom states that two variables differ.
pub open spec fn path_guard_check(
    catalog: Catalog,
    registries: AuthorityRegistries,
    atom: Atom,
    b: RuleVar,
    c: RuleVar,
) -> Check {
    match atom.head {
        RuleBodyCall::Primitive { id, name, output } => {
            let args = atom.args@;
            neq_check(catalog, registries, Scope::Path, id, name@, output).and(
                holds(
                    args.len() == 3,
                    Scope::Path,
                    "inequality atom must have two inputs and one output"@,
                ),
            ).and(path_same_check(b, args[0], "inequality lhs"@)).and(
                path_same_check(c, args[1], "inequality rhs"@),
            ).and(
                holds(args[2] is Var, Scope::Path, "inequality output must be a variable"@),
            ).and(
                holds(
                    var_of(args[2]).ty == output,
                    Scope::Path,
                    "inequality output must have Unit type"@,
                ),
            )
        },
        _ => holds(false, Scope::Path, "third atom must be a typed primitive"@),
    }
}

fn path_guard(
    catalog: &Catalog,
    registries: &AuthorityRegistries,
    atom: &Atom,
    b: RuleVar,
    c: RuleVar,
) -> (result: Result<RuleVar, Rejection>)
    ensures
        yields(
            result,
            path_guard_check(*catalog, *registries, *atom, b, c),
            var_of(atom.args@[2]),
        ),
{
    match &atom.head {
        RuleBodyCall::Primitive { id, name, output } => {
            require_neq(catalog, registries, Scope::Path, *id, name, *output)?;
            require(
                atom.args.len() == 3,
                Scope::Path,
                "inequality atom must have two inputs and one output",
            )?;
            same_id_var(b, &atom.args[0], "inequality lhs")?;
            same_id_var(c, &atom.args[1], "inequality rhs")?;
            match &atom.args[2] {
                AtomTerm::Var(variable) => {
                    require(
                        variable.ty == *output,
                        Scope::Path,
                        "inequality output must have Unit type",
                    )?;
                    Ok(*variable)
                },
                _ => Err(reject(Scope::Path, "inequality output must be a variable")),
            }
        },
        _ => Err(reject(Scope::Path, "third atom must be a typed primitive")),
    }
}

// ---------------------------------------------------------------------------
// The head.

/// The first action allocates an id under a live fresh token.
pub open spec fn path_fresh_check(
    catalog: Catalog,
    registries: AuthorityRegistries,
    action: CoreAction,
) -> Check {
    match action {
        CoreAction::Let(binding, call, args) => match call {
            RuleActionCall::Primitive { id, name, output } => holds(
                registries.fresh_tokens@.contains(id.rep) && output == ColumnTy::Id && binding.ty
                    == ColumnTy::Id,
                Scope::Path,
                "requires a live fresh token (diagnostic name `"@ + name@
                    + "`) with (String) -> Id"@,
            ).and(
                holds(args@.len() == 1, Scope::Path, "get-fresh! must have one argument"@),
            ).and(
                holds(args@[0] is Literal, Scope::Path, "get-fresh! argument must be a literal"@),
            ).and(
                column_type_check(
                    catalog,
                    literal_of(args@[0]).ty,
                    ScalarSqlType::String,
                    "scalar(base_values, literal.ty)? == ScalarSqlType::String"@,
                ),
            ),
            _ => holds(false, Scope::Path, "first action must call a primitive"@),
        },
        _ => holds(false, Scope::Path, "first action must bind get-fresh!"@),
    }
}

fn head_fresh(
    catalog: &Catalog,
    registries: &AuthorityRegistries,
    action: &CoreAction,
) -> (fresh: Result<(RuleVar, RuleValue), Rejection>)
    ensures
        yields(
            fresh,
            path_fresh_check(*catalog, *registries, *action),
            (bound_var(*action), fresh_label(*action)),
        ),
{
    match action {
        CoreAction::Let(binding, call, args) => match call {
            RuleActionCall::Primitive { id, name, output } => {
                let live = registries.is_fresh(*id) && *output == ColumnTy::Id && binding.ty
                    == ColumnTy::Id;
                if !live {
                    let mut text = "requires a live fresh token (diagnostic name `".to_owned();
                    text.append(name.as_str());
                    text.append("`) with (String) -> Id");
                    return Err(reject_with(Scope::Path, text));
                }
                require(args.len() == 1, Scope::Path, "get-fresh! must have one argument")?;
                match &args[0] {
                    AtomTerm::Literal(label) => {
                        require_column_type(
                            catalog,
                            label.ty,
                            ScalarSqlType::String,
                            "scalar(base_values, literal.ty)? == ScalarSqlType::String",
                        )?;
                        Ok((*binding, *label))
                    },
                    _ => Err(reject(Scope::Path, "get-fresh! argument must be a literal")),
                }
            },
            _ => Err(reject(Scope::Path, "first action must call a primitive")),
        },
        _ => Err(reject(Scope::Path, "first action must bind get-fresh!")),
    }
}

/// The second action renames the fresh id.
pub open spec fn path_alias_check(action: CoreAction, fresh: RuleVar) -> Check {
    match action {
        CoreAction::LetAtomTerm(alias, source) => id_type_check(
            "alias.ty == ColumnTy::Id"@,
            alias.ty,
        ).and(path_same_check(fresh, source, "fresh alias source"@)),
        _ => holds(false, Scope::Path, "second action must be an SSA alias"@),
    }
}

fn head_alias(action: &CoreAction, fresh: RuleVar) -> (alias: Result<RuleVar, Rejection>)
    ensures
        yields(alias, path_alias_check(*action, fresh), bound_var(*action)),
{
    match action {
        CoreAction::LetAtomTerm(alias, source) => {
            require_id_type("alias.ty == ColumnTy::Id", alias.ty)?;
            same_id_var(fresh, source, "fresh alias source")?;
            Ok(*alias)
        },
        _ => Err(reject(Scope::Path, "second action must be an SSA alias")),
    }
}

/// The only value of a proof row is the unit constant.
pub open spec fn path_unit_check(catalog: Catalog, values: Seq<AtomTerm>) -> Check {
    holds(values.len() == 1, Scope::Path, "proof Set must have one Unit value"@).and(
        holds(values[0] is Literal, Scope::Path, "proof value must be a literal"@),
    ).and(
        column_type_check(
            catalog,
            literal_of(values[0]).ty,
            ScalarSqlType::Unit,
            "scalar(base_values, value.ty)? == ScalarSqlType::Unit"@,
        ),
    )
}

fn unit_value(catalog: &Catalog, values: &Vec<AtomTerm>) -> (checked: Result<(), Rejection>)
    ensures
        yields(checked, path_unit_check(*catalog, values@), ()),
{
    require(values.len() == 1, Scope::Path, "proof Set must have one Unit value")?;
    match &values[0] {
        AtomTerm::Literal(value) => require_column_type(
            catalog,
            value.ty,
            ScalarSqlType::Unit,
            "scalar(base_values, value.ty)? == ScalarSqlType::Unit",
        ),
        _ => Err(reject(Scope::Path, "proof value must be a literal")),
    }
}

/// The third action records the composed proof.
pub open spec fn path_trans_check(
    catalog: Catalog,
    action: CoreAction,
    pb: RuleVar,
    pc: RuleVar,
    alias: RuleVar,
) -> Check {
    match action {
        CoreAction::SetRow(call, args, values) => match call {
            RuleActionCall::Table { id } => path_proof_check(catalog, id, 3).and(
                holds(args@.len() == 3, Scope::Path, "proof Set must have three Id keys"@),
            ).and(path_same_check(pb, args@[0], "proof lhs"@)).and(
                path_same_check(pc, args@[1], "proof rhs"@),
            ).and(path_same_check(alias, args@[2], "proof output id"@)).and(
                path_unit_check(catalog, values@),
            ),
            _ => holds(false, Scope::Path, "cannot set a primitive"@),
        },
        _ => holds(false, Scope::Path, "third action must set a proof relation"@),
    }
}

fn head_trans(
    catalog: &Catalog,
    action: &CoreAction,
    pb: RuleVar,
    pc: RuleVar,
    alias: RuleVar,
) -> (trans: Result<FunctionId, Rejection>)
    ensures
        yields(trans, path_trans_check(*catalog, *action, pb, pc, alias), set_table(*action)),
{
    match action {
        CoreAction::SetRow(call, args, values) => match call {
            RuleActionCall::Table { id } => {
                validate_proof_table(catalog, *id, 3)?;
                require(args.len() == 3, Scope::Path, "proof Set must have three Id keys")?;
                same_id_var(pb, &args[0], "proof lhs")?;
                same_id_var(pc, &args[1], "proof rhs")?;
                same_id_var(alias, &args[2], "proof output id")?;
                unit_value(catalog, values)?;
                Ok(*id)
            },
            _ => Err(reject(Scope::Path, "cannot set a primitive")),
        },
        _ => Err(reject(Scope::Path, "third action must set a proof relation")),
    }
}

/// The fourth action shortens the path.
pub open spec fn path_update_check(
    action: CoreAction,
    union_find: FunctionId,
    a: RuleVar,
    c: RuleVar,
    alias: RuleVar,
) -> Check {
    match action {
        CoreAction::SetRow(call, args, values) => match call {
            RuleActionCall::Table { id } => same_table_check(
                "*id == union_find"@,
                id,
                union_find,
            ).and(holds(args@.len() == 1, Scope::Path, "final Set must have one key"@)).and(
                holds(values@.len() == 2, Scope::Path, "final Set must have two values"@),
            ).and(path_same_check(a, args@[0], "candidate key"@)).and(
                path_same_check(c, values@[0], "candidate parent"@),
            ).and(path_same_check(alias, values@[1], "candidate proof"@)),
            _ => holds(false, Scope::Path, "cannot set a primitive"@),
        },
        _ => holds(false, Scope::Path, "fourth action must set its candidate table"@),
    }
}

fn head_union_find(
    action: &CoreAction,
    union_find: FunctionId,
    a: RuleVar,
    c: RuleVar,
    alias: RuleVar,
) -> (checked: Result<(), Rejection>)
    ensures
        yields(checked, path_update_check(*action, union_find, a, c, alias), ()),
{
    match action {
        CoreAction::SetRow(call, args, values) => match call {
            RuleActionCall::Table { id } => {
                require_same_table("*id == union_find", *id, union_find)?;
                require(args.len() == 1, Scope::Path, "final Set must have one key")?;
                require(values.len() == 2, Scope::Path, "final Set must have two values")?;
                same_id_var(a, &args[0], "candidate key")?;
                same_id_var(c, &values[0], "candidate parent")?;
                same_id_var(alias, &values[1], "candidate proof")
            },
            _ => Err(reject(Scope::Path, "cannot set a primitive")),
        },
        _ => Err(reject(Scope::Path, "fourth action must set its candidate table")),
    }
}

// ---------------------------------------------------------------------------
// The merge.

/// How a native tag is written in a diagnostic.
pub open spec fn native_text(tag: NativePrimitive) -> Seq<char> {
    match tag {
        NativePrimitive::ValueNeq => "ValueNeq"@,
        NativePrimitive::SelectMinPayload => "SelectMinPayload"@,
        NativePrimitive::SelectMaxPayload => "SelectMaxPayload"@,
        NativePrimitive::OrderingMin => "OrderingMin"@,
        NativePrimitive::OrderingMax => "OrderingMax"@,
    }
}

fn native_str(tag: NativePrimitive) -> (text: &'static str)
    ensures
        text@ == native_text(tag),
{
    match tag {
        NativePrimitive::ValueNeq => "ValueNeq",
        NativePrimitive::SelectMinPayload => "SelectMinPayload",
        NativePrimitive::SelectMaxPayload => "SelectMaxPayload",
        NativePrimitive::OrderingMin => "OrderingMin",
        NativePrimitive::OrderingMax => "OrderingMax",
    }
}

/// A merge expression applies a tagged primitive to the given arguments.
pub open spec fn path_primitive_check(
    catalog: Catalog,
    registries: AuthorityRegistries,
    merge: MergeFn,
    expected: NativePrimitive,
    patterns: Seq<MergePattern>,
) -> Check {
    match merge {
        MergeFn::Primitive { id, name, input, output, args } => holds(
            entry(registries.native_primitives@, id.rep) == Some(expected) && input@.len()
                == patterns.len() && all_ids(input@) && output == ColumnTy::Id && args@.len()
                == patterns.len(),
            Scope::Path,
            "primitive `"@ + name@ + "` is not authenticated as "@ + native_text(expected)
                + " with the required typed signature"@,
        ).and(patterns_check(catalog, Scope::Path, args@, patterns, patterns.len())),
        _ => holds(
            false,
            Scope::Path,
            "merge requires native primitive "@ + native_text(expected),
        ),
    }
}

fn expect_primitive(
    catalog: &Catalog,
    registries: &AuthorityRegistries,
    merge: &MergeFn,
    expected: NativePrimitive,
    patterns: &Vec<MergePattern>,
) -> (checked: Result<(), Rejection>)
    ensures
        yields(
            checked,
            path_primitive_check(*catalog, *registries, *merge, expected, patterns@),
            (),
        ),
{
    match merge {
        MergeFn::Primitive { id, name, input, output, args } => {
            let tagged = match registries.native(*id) {
                Some(tag) => tag == expected,
                None => false,
            };
            let authentic = tagged && input.len() == patterns.len() && are_ids(input) && *output
                == ColumnTy::Id && args.len() == patterns.len();
            if !authentic {
                let mut text = "primitive `".to_owned();
                text.append(name.as_str());
                text.append("` is not authenticated as ");
                text.append(native_str(expected));
                text.append(" with the required typed signature");
                return Err(reject_with(Scope::Path, text));
            }
            expect_patterns(catalog, Scope::Path, args, patterns)
        },
        _ => {
            let mut text = "merge requires native primitive ".to_owned();
            text.append(native_str(expected));
            Err(reject_with(Scope::Path, text))
        },
    }
}

/// A merge step binds a slot to a tagged primitive.
pub open spec fn path_let_check(
    catalog: Catalog,
    registries: AuthorityRegistries,
    action: MergeAction,
    slot: usize,
    expected: NativePrimitive,
    patterns: Seq<MergePattern>,
) -> Check {
    match action {
        MergeAction::Let { slot: actual, value } => same_number_check(
            "*actual == slot"@,
            actual as nat,
            slot as nat,
        ).and(path_primitive_check(catalog, registries, value, expected, patterns)),
        _ => holds(
            false,
            Scope::Path,
            "merge slot "@ + decimal(slot as nat) + " must be a Let"@,
        ),
    }
}

fn expect_let_primitive(
    catalog: &Catalog,
    registries: &AuthorityRegistries,
    action: &MergeAction,
    slot: usize,
    expected: NativePrimitive,
    patterns: &Vec<MergePattern>,
) -> (checked: Result<(), Rejection>)
    ensures
        yields(
            checked,
            path_let_check(*catalog, *registries, *action, slot, expected, patterns@),
            (),
        ),
{
    match action {
        MergeAction::Let { slot: actual, value } => {
            require_same_number("*actual == slot", *actual, slot)?;
            expect_primitive(catalog, registries, value, expected, patterns)
        },
        _ => {
            let mut text = "merge slot ".to_owned();
            append_number(&mut text, slot as u64);
            text.append(" must be a Let");
            Err(reject_with(Scope::Path, text))
        },
    }
}

/// A merge step allocates an id under a live fresh token.
pub open spec fn path_merge_fresh_check(
    catalog: Catalog,
    registries: AuthorityRegistries,
    action: MergeAction,
    slot: usize,
) -> Check {
    match action {
        MergeAction::Let { slot: actual, value } => same_number_check(
            "*actual == slot"@,
            actual as nat,
            slot as nat,
        ).and(path_fresh_call_check(catalog, registries, value)),
        _ => holds(
            false,
            Scope::Path,
            "merge fresh slot "@ + decimal(slot as nat) + " must be a Let"@,
        ),
    }
}

/// A merge expression calls a live fresh token with a string constant.
pub open spec fn path_fresh_call_check(
    catalog: Catalog,
    registries: AuthorityRegistries,
    value: MergeFn,
) -> Check {
    match value {
        MergeFn::Primitive { id, name, input, output, args } => {
            let text = "merge primitive `"@ + name@
                + "` requires a live registered get-fresh token with (String) -> Id"@;
            holds(
                registries.fresh_tokens@.contains(id.rep) && input@.len() == 1,
                Scope::Path,
                text,
            ).and(
                scalar_check(catalog, input@[0], ScalarSqlType::String, Scope::Path, text),
            ).and(holds(output == ColumnTy::Id && args@.len() == 1, Scope::Path, text)).and(
                match args@[0] {
                    MergeFn::Const { ty, .. } => holds(
                        input@[0] == ty,
                        Scope::Path,
                        "merge fresh primitive `"@ + name@ + "` has mismatched typed input"@,
                    ),
                    _ => holds(
                        false,
                        Scope::Path,
                        "merge get-fresh! requires a typed constant"@,
                    ),
                },
            )
        },
        _ => holds(false, Scope::Path, "merge fresh slot must call a primitive"@),
    }
}

fn expect_fresh_merge(
    catalog: &Catalog,
    registries: &AuthorityRegistries,
    action: &MergeAction,
    slot: usize,
) -> (fresh: Result<(ExternalFunctionId, RuleValue), Rejection>)
    ensures
        yields(
            fresh,
            path_merge_fresh_check(*catalog, *registries, *action, slot),
            merge_fresh(*action),
        ),
{
    match action {
        MergeAction::Let { slot: actual, value } => {
            require_same_number("*actual == slot", *actual, slot)?;
            match value {
                MergeFn::Primitive { id, name, input, output, args } => {
                    let mut text = "merge primitive `".to_owned();
                    text.append(name.as_str());
                    text.append("` requires a live registered get-fresh token with (String) -> Id");
                    require(
                        registries.is_fresh(*id) && input.len() == 1,
                        Scope::Path,
                        text.as_str(),
                    )?;
                    require_scalar(
                        catalog,
                        input[0],
                        ScalarSqlType::String,
                        Scope::Path,
                        text.as_str(),
                    )?;
                    require(
                        *output == ColumnTy::Id && args.len() == 1,
                        Scope::Path,
                        text.as_str(),
                    )?;
                    match &args[0] {
                        MergeFn::Const { value, ty } => {
                            if input[0] != *ty {
                                let mut text = "merge fresh primitive `".to_owned();
                                text.append(name.as_str());
                                text.append("` has mismatched typed input");
                                return Err(reject_with(Scope::Path, text));
                            }
                            Ok((*id, RuleValue { value: *value, ty: *ty }))
                        },
                        _ => Err(
                            reject(Scope::Path, "merge get-fresh! requires a typed constant"),
                        ),
                    }
                },
                _ => Err(reject(Scope::Path, "merge fresh slot must call a primitive")),
            }
        },
        _ => {
            let mut text = "merge fresh slot ".to_owned();
            append_number(&mut text, slot as u64);
            text.append(" must be a Let");
            Err(reject_with(Scope::Path, text))
        },
    }
}

/// A merge step records a proof row.
pub open spec fn path_proof_set_check(
    catalog: Catalog,
    action: MergeAction,
    patterns: Seq<MergePattern>,
    n_keys: nat,
) -> Check {
    match action {
        MergeAction::SetRow(target, args) => same_number_check(
            "arguments.len() == expected.len()"@,
            args@.len(),
            patterns.len(),
        ).and(patterns_check(catalog, Scope::Path, args@, patterns, patterns.len())).and(
            path_proof_check(catalog, target, n_keys),
        ),
        _ => holds(false, Scope::Path, "merge proof action must be a Set"@),
    }
}

fn expect_proof_set(
    catalog: &Catalog,
    action: &MergeAction,
    patterns: &Vec<MergePattern>,
    n_keys: usize,
) -> (target: Result<FunctionId, Rejection>)
    requires
        n_keys < usize::MAX,
    ensures
        yields(
            target,
            path_proof_set_check(*catalog, *action, patterns@, n_keys as nat),
            merge_target(*action),
        ),
{
    match action {
        MergeAction::SetRow(target, args) => {
            require_same_number(
                "arguments.len() == expected.len()",
                args.len(),
                patterns.len(),
            )?;
            expect_patterns(catalog, Scope::Path, args, patterns)?;
            validate_proof_table(catalog, *target, n_keys)?;
            Ok(*target)
        },
        _ => Err(reject(Scope::Path, "merge proof action must be a Set")),
    }
}

/// The steps of a union-find merge, in order.
pub open spec fn path_steps_check(
    catalog: Catalog,
    registries: AuthorityRegistries,
    union_find: FunctionId,
    actions: Seq<MergeAction>,
) -> Check {
    path_let_check(
        catalog,
        registries,
        actions[0],
        0,
        NativePrimitive::SelectMaxPayload,
        payload_patterns(),
    ).and(
        path_let_check(
            catalog,
            registries,
            actions[1],
            1,
            NativePrimitive::SelectMinPayload,
            payload_patterns(),
        ),
    ).and(path_merge_fresh_check(catalog, registries, actions[2], 2)).and(
        path_proof_set_check(
            catalog,
            actions[3],
            seq![MergePattern::Let(0), MergePattern::Let(2), MergePattern::Unit],
            2,
        ),
    ).and(path_merge_fresh_check(catalog, registries, actions[4], 3)).and(
        holds(
            merge_fresh(actions[2]) == merge_fresh(actions[4]),
            Scope::Path,
            "merge fresh sites must use one live token and label"@,
        ),
    ).and(
        path_proof_set_check(
            catalog,
            actions[5],
            seq![
                MergePattern::Let(2),
                MergePattern::Let(1),
                MergePattern::Let(3),
                MergePattern::Unit,
            ],
            3,
        ),
    ).and(path_displace_check(catalog, registries, union_find, actions[6]))
}

/// The last step moves the displaced edge into the same table.
pub open spec fn path_displace_check(
    catalog: Catalog,
    registries: AuthorityRegistries,
    union_find: FunctionId,
    action: MergeAction,
) -> Check {
    match action {
        MergeAction::SetRow(target, args) => stated(
            target == union_find && args@.len() == 3,
            "*target == union_find && arguments.len() == 3"@,
        ).and(
            path_primitive_check(
                catalog,
                registries,
                args@[0],
                NativePrimitive::OrderingMax,
                identity_patterns(),
            ),
        ).and(
            path_primitive_check(
                catalog,
                registries,
                args@[1],
                NativePrimitive::OrderingMin,
                identity_patterns(),
            ),
        ).and(pattern_check(catalog, Scope::Path, args@[2], MergePattern::Let(3))),
        _ => holds(false, Scope::Path, "merge action 6 must set its candidate table"@),
    }
}

/// The merge keeps the smaller parent and its payload.
pub open spec fn path_result_check(
    catalog: Catalog,
    registries: AuthorityRegistries,
    result: MergeFn,
) -> Check {
    match result {
        MergeFn::Columns(columns) => holds(
            columns@.len() == 2,
            Scope::Path,
            "merge result must have two columns"@,
        ).and(
            path_primitive_check(
                catalog,
                registries,
                columns@[0],
                NativePrimitive::OrderingMin,
                identity_patterns(),
            ),
        ).and(pattern_check(catalog, Scope::Path, columns@[1], MergePattern::Let(1))),
        _ => holds(false, Scope::Path, "merge result must be Columns"@),
    }
}

/// A merge is the union-find merge of a table.
pub open spec fn path_merge_check(
    catalog: Catalog,
    registries: AuthorityRegistries,
    union_find: FunctionId,
    merge: MergeFn,
) -> Check {
    match merge {
        MergeFn::Block { actions, result } => holds(
            actions@.len() == 7,
            Scope::Path,
            "merge Block must have seven ordered actions"@,
        ).and(path_steps_check(catalog, registries, union_find, actions@)).and(
            path_result_check(catalog, registries, *result),
        ),
        _ => holds(false, Scope::Path, "candidate table requires a merge Block"@),
    }
}

/// The proof tables of a union-find merge, and its fresh label.
pub open spec fn path_merge_parts(merge: MergeFn) -> (FunctionId, FunctionId, RuleValue) {
    match merge {
        MergeFn::Block { actions, .. } => (
            merge_target(actions@[3]),
            merge_target(actions@[5]),
            merge_fresh(actions@[2]).1,
        ),
        _ => arbitrary(),
    }
}

fn displaced_edge(
    catalog: &Catalog,
    registries: &AuthorityRegistries,
    union_find: FunctionId,
    action: &MergeAction,
) -> (checked: Result<(), Rejection>)
    ensures
        yields(checked, path_displace_check(*catalog, *registries, union_find, *action), ()),
{
    match action {
        MergeAction::SetRow(target, args) => {
            require_stated(
                *target == union_find && args.len() == 3,
                "*target == union_find && arguments.len() == 3",
            )?;
            expect_primitive(
                catalog,
                registries,
                &args[0],
                NativePrimitive::OrderingMax,
                &identity_arguments(),
            )?;
            expect_primitive(
                catalog,
                registries,
                &args[1],
                NativePrimitive::OrderingMin,
                &identity_arguments(),
            )?;
            expect_pattern(catalog, Scope::Path, &args[2], let_var(3))
        },
        _ => Err(reject(Scope::Path, "merge action 6 must set its candidate table")),
    }
}

fn merge_result(catalog: &Catalog, registries: &AuthorityRegistries, result: &MergeFn) -> (checked:
    Result<(), Rejection>)
    ensures
        yields(checked, path_result_check(*catalog, *registries, *result), ()),
{
    match result {
        MergeFn::Columns(columns) => {
            require(columns.len() == 2, Scope::Path, "merge result must have two columns")?;
            expect_primitive(
                catalog,
                registries,
                &columns[0],
                NativePrimitive::OrderingMin,
                &identity_arguments(),
            )?;
            expect_pattern(catalog, Scope::Path, &columns[1], let_var(1))
        },
        _ => Err(reject(Scope::Path, "merge result must be Columns")),
    }
}

/// Validates the union-find merge of a table, and gives its proof tables and
/// its fresh label.
pub fn validate_union_find_merge(
    catalog: &Catalog,
    registries: &AuthorityRegistries,
    union_find: FunctionId,
    merge: &MergeFn,
) -> (parts: Result<(FunctionId, FunctionId, RuleValue), Rejection>)
    ensures
        yields(
            parts,
            path_merge_check(*catalog, *registries, union_find, *merge),
            path_merge_parts(*merge),
        ),
{
    match merge {
        MergeFn::Block { actions, result } => {
            require(
                actions.len() == 7,
                Scope::Path,
                "merge Block must have seven ordered actions",
            )?;
            expect_let_primitive(
                catalog,
                registries,
                &actions[0],
                0,
                NativePrimitive::SelectMaxPayload,
                &payload_arguments(),
            )?;
            expect_let_primitive(
                catalog,
                registries,
                &actions[1],
                1,
                NativePrimitive::SelectMinPayload,
                &payload_arguments(),
            )?;
            let (sym_token, sym_label) = expect_fresh_merge(catalog, registries, &actions[2], 2)?;
            let sym_arguments = vec![let_var(0), let_var(2), unit()];
            assert(sym_arguments@ =~= seq![
                MergePattern::Let(0),
                MergePattern::Let(2),
                MergePattern::Unit,
            ]);
            let sym = expect_proof_set(catalog, &actions[3], &sym_arguments, 2)?;
            let (trans_token, trans_label) = expect_fresh_merge(
                catalog,
                registries,
                &actions[4],
                3,
            )?;
            require(
                sym_token == trans_token && sym_label == trans_label,
                Scope::Path,
                "merge fresh sites must use one live token and label",
            )?;
            let trans_arguments = vec![let_var(2), let_var(1), let_var(3), unit()];
            assert(trans_arguments@ =~= seq![
                MergePattern::Let(2),
                MergePattern::Let(1),
                MergePattern::Let(3),
                MergePattern::Unit,
            ]);
            let trans = expect_proof_set(catalog, &actions[5], &trans_arguments, 3)?;
            displaced_edge(catalog, registries, union_find, &actions[6])?;
            merge_result(catalog, registries, result)?;
            Ok((sym, trans, sym_label))
        },
        _ => Err(reject(Scope::Path, "candidate table requires a merge Block")),
    }
}

// ---------------------------------------------------------------------------
// Admission.

/// The two table atoms are the edges `a -> b` and `b -> c`, with payloads.
pub open spec fn path_edges_check(first: Seq<AtomTerm>, second: Seq<AtomTerm>) -> Check {
    holds(
        first.len() == 3,
        Scope::Path,
        "first table atom must have three Id variables"@,
    ).and(
        holds(
            second.len() == 3,
            Scope::Path,
            "second table atom must have three Id variables"@,
        ),
    ).and(path_var_check(first[0])).and(path_var_check(first[1])).and(
        path_var_check(first[2]),
    ).and(path_var_check(second[0])).and(path_var_check(second[1])).and(
        path_var_check(second[2]),
    ).and(same_var_check(Scope::Path, var_of(first[1]), var_of(second[0]), "path join"@))
}

fn path_edges(first: &Vec<AtomTerm>, second: &Vec<AtomTerm>) -> (edges: Result<
    (RuleVar, RuleVar, RuleVar, RuleVar, RuleVar),
    Rejection,
>)
    ensures
        yields(
            edges,
            path_edges_check(first@, second@),
            (
                var_of(first@[0]),
                var_of(first@[1]),
                var_of(first@[2]),
                var_of(second@[1]),
                var_of(second@[2]),
            ),
        ),
{
    require(
        first.len() == 3,
        Scope::Path,
        "first table atom must have three Id variables",
    )?;
    require(
        second.len() == 3,
        Scope::Path,
        "second table atom must have three Id variables",
    )?;
    let a = id_var(&first[0])?;
    let b = id_var(&first[1])?;
    let pb = id_var(&first[2])?;
    let second_b = id_var(&second[0])?;
    let c = id_var(&second[1])?;
    let pc = id_var(&second[2])?;
    same_var(Scope::Path, b, second_b, "path join")?;
    Ok((a, b, pb, c, pc))
}

/// The binding roles of a path rule. The second occurrence of the joined
/// variable and the source of the alias are edges of the topology, not roles.
pub open spec fn path_roles(rule: RuleSpec) -> Seq<RuleVar> {
    let first = rule.body@[0].args@;
    let second = rule.body@[1].args@;
    seq![
        var_of(first[0]),
        var_of(first[1]),
        var_of(first[2]),
        var_of(second[1]),
        var_of(second[2]),
        var_of(rule.body@[2].args@[2]),
        bound_var(rule.head@[0]),
        bound_var(rule.head@[1]),
    ]
}

/// The body of a path rule.
pub open spec fn path_body_check(
    catalog: Catalog,
    registries: AuthorityRegistries,
    rule: RuleSpec,
) -> Check {
    let first = rule.body@[0];
    let second = rule.body@[1];
    holds(
        rule.seminaive && !rule.no_decomp,
        Scope::FourAction,
        "is not the supported seminaive path shape"@,
    ).and(live_atom_check(first)).and(live_atom_check(second)).and(
        holds(
            atom_table(first) == atom_table(second),
            Scope::FourAction,
            "reads two different candidate tables"@,
        ),
    ).and(table_check(catalog, atom_table(first))).and(
        holds(
            union_find_config(table_of(catalog, atom_table(first))),
            Scope::Path,
            "candidate table is not the typed one-key/two-value identity-guard shape"@,
        ),
    ).and(path_edges_check(first.args@, second.args@)).and(
        path_guard_check(
            catalog,
            registries,
            rule.body@[2],
            path_roles(rule)[1],
            path_roles(rule)[3],
        ),
    )
}

/// The head of a path rule.
pub open spec fn path_head_check(
    catalog: Catalog,
    registries: AuthorityRegistries,
    rule: RuleSpec,
) -> Check {
    let roles = path_roles(rule);
    path_fresh_check(catalog, registries, rule.head@[0]).and(
        path_alias_check(rule.head@[1], roles[6]),
    ).and(distinct_check(Scope::Path, roles)).and(
        path_trans_check(catalog, rule.head@[2], roles[2], roles[4], roles[7]),
    ).and(
        path_update_check(
            rule.head@[3],
            atom_table(rule.body@[0]),
            roles[0],
            roles[3],
            roles[7],
        ),
    )
}

/// Everything that a path rule has to be.
#[verifier::opaque]
pub open spec fn path_check(
    catalog: Catalog,
    registries: AuthorityRegistries,
    rule: RuleSpec,
) -> Check {
    let union_find = atom_table(rule.body@[0]);
    let merge = table_of(catalog, union_find).merge;
    path_body_check(catalog, registries, rule).and(
        path_head_check(catalog, registries, rule),
    ).and(path_merge_check(catalog, registries, union_find, merge)).and(
        holds(
            set_table(rule.head@[2]) == path_merge_parts(merge).1,
            Scope::Path,
            "head proof target must equal the merge Trans target"@,
        ),
    ).and(
        holds(
            fresh_label(rule.head@[0]) == path_merge_parts(merge).2,
            Scope::Path,
            "must use one opaque fresh-label constant"@,
        ),
    )
}

/// The plan of a path rule.
pub open spec fn path_plan(catalog: Catalog, rule: RuleSpec) -> PathCompressionPlan {
    let union_find = atom_table(rule.body@[0]);
    let parts = path_merge_parts(table_of(catalog, union_find).merge);
    PathCompressionPlan { seminaive: rule.seminaive, union_find, sym: parts.0, trans: parts.1 }
}

/// Compiles a rule of the exact typed shape. A mismatch is an admission error;
/// callers come here only for a rule whose atoms and actions have been counted.
pub fn compile_path_compression(
    catalog: &Catalog,
    registries: &AuthorityRegistries,
    rule: &RuleSpec,
) -> (plan: Result<PathCompressionPlan, Rejection>)
    requires
        rule.seminaive && !rule.no_decomp ==> rule.body@.len() == 3,
        path_body_check(*catalog, *registries, *rule).fault is None ==> rule.head@.len() == 4,
    ensures
        yields(plan, path_check(*catalog, *registries, *rule), path_plan(*catalog, *rule)),
{
    reveal(path_check);
    require(
        rule.seminaive && !rule.no_decomp,
        Scope::FourAction,
        "is not the supported seminaive path shape",
    )?;
    let union_find = live_table_atom(&rule.body[0])?;
    let second_union_find = live_table_atom(&rule.body[1])?;
    require(
        union_find == second_union_find,
        Scope::FourAction,
        "reads two different candidate tables",
    )?;
    let info = catalog.table_info(union_find)?;
    require(
        is_union_find_config(info),
        Scope::Path,
        "candidate table is not the typed one-key/two-value identity-guard shape",
    )?;
    let (a, b, pb, c, pc) = path_edges(&rule.body[0].args, &rule.body[1].args)?;
    let neq_result = path_guard(catalog, registries, &rule.body[2], b, c)?;
    assert(path_body_check(*catalog, *registries, *rule).fault is None);

    let (fresh, label) = head_fresh(catalog, registries, &rule.head[0])?;
    let alias = head_alias(&rule.head[1], fresh)?;
    let roles = vec![a, b, pb, c, pc, neq_result, fresh, alias];
    assert(roles@ =~= path_roles(*rule));
    distinct_vars(Scope::Path, &roles)?;
    let trans = head_trans(catalog, &rule.head[2], pb, pc, alias)?;
    head_union_find(&rule.head[3], union_find, a, c, alias)?;

    let (sym, merge_trans, merge_label) = validate_union_find_merge(
        catalog,
        registries,
        union_find,
        &info.merge,
    )?;
    require(
        trans == merge_trans,
        Scope::Path,
        "head proof target must equal the merge Trans target",
    )?;
    require(label == merge_label, Scope::Path, "must use one opaque fresh-label constant")?;
    Ok(PathCompressionPlan { seminaive: rule.seminaive, union_find, sym, trans })
}

} // verus!
