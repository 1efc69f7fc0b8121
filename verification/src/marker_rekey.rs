//! Closed lowering for generated scalar marker-rekey rules.
//!
//! Marker rows are ordinary typed function rows. This compiler recognizes the
//! exact rule and table topology without consulting generated names, and gives
//! a small immutable SQL plan for the combined rebuilding executor.

use vstd::prelude::*;

use crate::action_plan::render_row_key_equality;
use crate::authority::AuthorityRegistries;
use crate::base::ScalarSqlType;
use crate::catalog::{sql_table, Catalog, TableInfo, WriteCapability};
use crate::ir::{
    Atom, AtomTerm, Change, ColumnTy, CoreAction, DefaultVal, FunctionId, MergeFn, ReadMode,
    RuleBodyCall, RuleSpec, RuleVar,
};
use crate::path_compress::require_neq;
use crate::rebuild::{
    copy_columns, is_change, is_set, ordered_union_outer, validate_marker_union_find,
    OrderedUnionPlan, OrderedUnionView,
};
use crate::rejection::{reject, Rejection, Scope};
use crate::shape::{
    copy_vars, distinct_vars, find_only_position, id_var, is_var, require, require_same_table,
    require_scalar, require_scalars, same_vars, split_body, table_action, table_atom_parts,
    typed_var, typed_vars,
};
use crate::staging::{render_row_columns, render_stale_rows};
use crate::text::{append_number, assert_scratch_name, join_strings};
#[allow(unused_imports)]
use crate::action_plan::row_tests;
#[allow(unused_imports)]
use crate::catalog::{table_at, table_text};
#[allow(unused_imports)]
use crate::path_compress::neq_check;
#[allow(unused_imports)]
use crate::rebuild::{marker_union_find_check, union_outer, union_view, OrderedUnionOrientation};
#[allow(unused_imports)]
use crate::rejection::{agrees_if_owned, RejectionView};
#[allow(unused_imports)]
use crate::shape::{
    atom_read, atom_table, body_split, called_table, distinct_check, holds, id_var_check,
    is_var_check, literal_check, literal_of, only_position, same_table_check, scalar_check,
    scalars_check, table_action_check, table_of, typed_var_check, typed_vars_check, var_of,
    vars_check, vars_of, yields, yields_view, Check,
};
#[allow(unused_imports)]
use crate::staging::{row_columns, stale_rows_sql};
#[allow(unused_imports)]
use crate::text::{decimal, join, scratch_name, texts};

verus! {

/// A fully validated scalar marker-rekey rule.
#[derive(Debug)]
pub struct MarkerRekeyPlan {
    pub seminaive: bool,
    pub marker: FunctionId,
    pub marker_columns: Vec<ScalarSqlType>,
    pub n_keys: usize,
    pub key_index: usize,
    pub union_find: OrderedUnionPlan,
}

/// What a [`MarkerRekeyPlan`] says.
pub struct MarkerRekeyView {
    pub seminaive: bool,
    pub marker: FunctionId,
    pub marker_columns: Seq<ScalarSqlType>,
    pub n_keys: usize,
    pub key_index: usize,
    pub union_find: OrderedUnionView,
}

impl View for MarkerRekeyPlan {
    type V = MarkerRekeyView;

    open spec fn view(&self) -> MarkerRekeyView {
        MarkerRekeyView {
            seminaive: self.seminaive,
            marker: self.marker,
            marker_columns: self.marker_columns@,
            n_keys: self.n_keys,
            key_index: self.key_index,
            union_find: self.union_find@,
        }
    }
}

/// The staged columns: the marker's keys and the canonical id.
pub open spec fn marker_bindings(n_keys: nat) -> Seq<Seq<char>> {
    row_columns("marker_row"@, n_keys).push("uf_row.c1 AS c"@ + decimal(n_keys))
}

/// The statement that stages the matches of a marker rule.
pub open spec fn marker_sql(plan: MarkerRekeyView, stage: Seq<char>, watermark: u64) -> Seq<char> {
    stale_rows_sql(
        stage,
        plan.marker,
        "marker_row"@,
        plan.union_find.target,
        plan.key_index as nat,
        marker_bindings(plan.n_keys as nat),
        plan.seminaive,
        watermark,
    )
}

/// The statement that deletes the staged marker rows.
pub open spec fn marker_delete_sql(plan: MarkerRekeyView, stage: Seq<char>) -> Seq<char> {
    "DELETE FROM "@
        + table_text(plan.marker)
        + " AS existing\n             WHERE EXISTS (SELECT 1 FROM "@
        + stage
        + " AS staged WHERE "@
        + join(row_tests("existing"@, "staged"@, plan.n_keys as nat), " AND "@)
        + ")"@
}

/// One column of the rekeyed row: the canonical id in place of the stale key.
pub open spec fn marker_head_column(plan: MarkerRekeyView, column: nat) -> Seq<char> {
    if column == plan.key_index {
        "c"@ + decimal(plan.n_keys as nat) + " AS c"@ + decimal(column)
    } else {
        "c"@ + decimal(column)
    }
}

/// The columns of the rekeyed row.
pub open spec fn marker_head_columns(plan: MarkerRekeyView) -> Seq<Seq<char>> {
    Seq::new(plan.n_keys as nat, |i: int| marker_head_column(plan, i as nat)).push(
        "CAST(TRUE AS BOOLEAN) AS c"@ + decimal(plan.n_keys as nat),
    )
}

/// The statement that stages the rekeyed rows.
pub open spec fn marker_head_sql(
    plan: MarkerRekeyView,
    stage: Seq<char>,
    head_stage: Seq<char>,
) -> Seq<char> {
    "CREATE TEMP TABLE "@
        + head_stage
        + " AS\n             SELECT "@
        + join(marker_head_columns(plan), ", "@)
        + ", __match_ordinal AS __ordinal\n             FROM "@
        + stage
}

/// Renders that two rows agree on their keys.
pub fn key_equality(left: &str, right: &str, n_keys: usize) -> (sql: String)
    requires
        n_keys != 0,
    ensures
        sql@ == join(row_tests(left@, right@, n_keys as nat), " AND "@),
{
    render_row_key_equality(n_keys, left, right)
}

impl MarkerRekeyPlan {
    /// Renders the statement that stages the matches.
    pub fn materialize_sql(&self, stage: &str, watermark: u64) -> (sql: String)
        requires
            scratch_name(stage@),
        ensures
            sql@ == marker_sql(self@, stage@, watermark),
    {
        assert_scratch_name(stage);
        let mut bindings = render_row_columns("marker_row", self.n_keys);
        let mut canonical = "uf_row.c1 AS c".to_owned();
        append_number(&mut canonical, self.n_keys as u64);
        bindings.push(canonical);
        assert(texts(bindings@) =~= marker_bindings(self.n_keys as nat));
        render_stale_rows(
            stage,
            self.marker,
            "marker_row",
            self.union_find.target,
            self.key_index,
            &bindings,
            self.seminaive,
            watermark,
        )
    }

    /// Renders the statement that deletes the staged marker rows.
    pub fn delete_sql(&self, stage: &str) -> (sql: String)
        requires
            scratch_name(stage@),
            self@.n_keys != 0,
        ensures
            sql@ == marker_delete_sql(self@, stage@),
    {
        assert_scratch_name(stage);
        let equality = key_equality("existing", "staged", self.n_keys);
        let marker = sql_table(self.marker);
        let mut sql = "DELETE FROM ".to_owned();
        sql.append(marker.as_str());
        sql.append(" AS existing\n             WHERE EXISTS (SELECT 1 FROM ");
        sql.append(stage);
        sql.append(" AS staged WHERE ");
        sql.append(equality.as_str());
        sql.append(")");
        sql
    }

    /// Renders the statement that stages the rekeyed rows.
    pub fn create_head_stage_sql(&self, stage: &str, head_stage: &str) -> (sql: String)
        requires
            scratch_name(stage@),
            scratch_name(head_stage@),
        ensures
            sql@ == marker_head_sql(self@, stage@, head_stage@),
    {
        assert_scratch_name(stage);
        assert_scratch_name(head_stage);
        let mut values: Vec<String> = Vec::new();
        while values.len() < self.n_keys
            invariant
                values.len() <= self.n_keys,
                texts(values@) == Seq::new(
                    values@.len(),
                    |i: int| marker_head_column(self@, i as nat),
                ),
            decreases self.n_keys - values.len(),
        {
            let ghost before = values@;
            let column: usize = values.len();
            let mut value = "c".to_owned();
            if column == self.key_index {
                append_number(&mut value, self.n_keys as u64);
                value.append(" AS c");
                append_number(&mut value, column as u64);
            } else {
                append_number(&mut value, column as u64);
            }
            values.push(value);
            assert(texts(values@) =~= texts(before).push(value@));
            assert(texts(values@) =~= Seq::new(
                values@.len(),
                |i: int| marker_head_column(self@, i as nat),
            ));
        }
        let mut output = "CAST(TRUE AS BOOLEAN) AS c".to_owned();
        append_number(&mut output, self.n_keys as u64);
        values.push(output);
        assert(texts(values@) =~= marker_head_columns(self@));
        let values_text = join_strings(&values, ", ");
        let mut sql = "CREATE TEMP TABLE ".to_owned();
        sql.append(head_stage);
        sql.append(" AS\n             SELECT ");
        sql.append(values_text.as_str());
        sql.append(", __match_ordinal AS __ordinal\n             FROM ");
        sql.append(stage);
        sql
    }

    /// The number of columns of the marker.
    pub fn arity(&self) -> (arity: usize)
        ensures
            arity == self@.marker_columns.len(),
    {
        self.marker_columns.len()
    }
}

// ---------------------------------------------------------------------------
// Selection.

/// The atoms that a marker rule assigns to its roles.
pub struct MarkerRoles {
    pub marker: int,
    pub union_find: int,
    pub guard: int,
}

/// The head is a write and a cleanup, in either order.
pub open spec fn marker_head_shape(head: Seq<CoreAction>) -> bool {
    &&& head.len() == 2
    &&& (head[0] is SetRow && head[1] is Change) || (head[0] is Change && head[1] is SetRow)
}

/// Which rules the marker language owns: two tables, of which exactly one has
/// an ordered-union merge, and an inequality.
pub open spec fn marker_selection(catalog: Catalog, rule: RuleSpec) -> Result<
    Option<MarkerRoles>,
    RejectionView,
> {
    match body_split(rule.body@) {
        None => Ok(None),
        Some((first, second, guard)) => if !marker_head_shape(rule.head@) {
            Ok(None)
        } else {
            match table_at(catalog, atom_table(rule.body@[first])) {
                Err(error) => Err(error),
                Ok(first_info) => match table_at(catalog, atom_table(rule.body@[second])) {
                    Err(error) => Err(error),
                    Ok(second_info) => match (
                        union_outer(first_info.merge),
                        union_outer(second_info.merge),
                    ) {
                        (Some(_), None) => Ok(
                            Some(MarkerRoles { marker: second, union_find: first, guard }),
                        ),
                        (None, Some(_)) => Ok(
                            Some(MarkerRoles { marker: first, union_find: second, guard }),
                        ),
                        _ => Ok(None),
                    },
                },
            }
        },
    }
}

/// The roles of an owned rule's atoms, by position.
struct SelectedOuter {
    marker: usize,
    union_find: usize,
    guard: usize,
}

impl SelectedOuter {
    spec fn roles(self) -> MarkerRoles {
        MarkerRoles {
            marker: self.marker as int,
            union_find: self.union_find as int,
            guard: self.guard as int,
        }
    }
}

fn select_outer_family(catalog: &Catalog, rule: &RuleSpec) -> (selected: Result<
    Option<SelectedOuter>,
    Rejection,
>)
    ensures
        match (selected, marker_selection(*catalog, *rule)) {
            (Ok(Some(found)), Ok(Some(roles))) => {
                &&& found.roles() == roles
                &&& body_split(rule.body@) == Some((roles.marker, roles.union_find, roles.guard))
                    || body_split(rule.body@) == Some(
                    (roles.union_find, roles.marker, roles.guard),
                )
                &&& marker_head_shape(rule.head@)
                &&& atom_table(rule.body@[roles.marker]).rep < catalog.tables@.len()
            },
            (Ok(None), Ok(None)) => true,
            (Err(error), Err(model)) => error@ == model,
            _ => false,
        },
{
    let (first, second, guard) = match split_body(&rule.body) {
        Some(split) => split,
        None => {
            return Ok(None);
        },
    };
    if rule.head.len() != 2 {
        return Ok(None);
    }
    let action_shape = (is_set(&rule.head[0]) && is_change(&rule.head[1])) || (is_change(
        &rule.head[0],
    ) && is_set(&rule.head[1]));
    if !action_shape {
        return Ok(None);
    }
    let (first_id, _) = table_atom_parts(&rule.body[first]);
    let (second_id, _) = table_atom_parts(&rule.body[second]);
    let first_info = catalog.table_info(first_id)?;
    let second_info = catalog.table_info(second_id)?;
    match (ordered_union_outer(&first_info.merge), ordered_union_outer(&second_info.merge)) {
        (Some(_), None) => Ok(Some(SelectedOuter { marker: second, union_find: first, guard })),
        (None, Some(_)) => Ok(Some(SelectedOuter { marker: first, union_find: second, guard })),
        _ => Ok(None),
    }
}

// ---------------------------------------------------------------------------
// Validation.

/// A table is a marker: keys and a unit, equal on conflict.
pub open spec fn marker_table_check(catalog: Catalog, info: TableInfo) -> Check {
    holds(
        info.n_keys >= 1 && info.n_vals == 1 && info.schema@.len() == info.n_keys + 1
            && info.n_identity_vals is None && info.default == DefaultVal::Fail && info.merge
            is AssertEq && info.write_capability == WriteCapability::AssertEq && !info.can_subsume,
        Scope::Marker,
        "marker has an incompatible configuration"@,
    ).and(scalars_check(catalog, info.schema@, info.n_keys as nat)).and(
        scalar_check(
            catalog,
            info.schema@[info.n_keys as int],
            ScalarSqlType::Unit,
            Scope::Marker,
            "marker output must have Unit type"@,
        ),
    )
}

fn validate_marker_table(catalog: &Catalog, info: &TableInfo) -> (checked: Result<(), Rejection>)
    ensures
        yields(checked, marker_table_check(*catalog, *info), ()),
{
    let assert_eq = match &info.merge {
        MergeFn::AssertEq => true,
        _ => false,
    };
    require(
        info.n_keys >= 1 && info.n_vals == 1 && info.arity() >= 1 && info.arity() - 1
            == info.n_keys && info.n_identity_vals.is_none() && info.default == DefaultVal::Fail
            && assert_eq && info.write_capability == WriteCapability::AssertEq
            && !info.can_subsume,
        Scope::Marker,
        "marker has an incompatible configuration",
    )?;
    require_scalars(catalog, &info.schema, info.n_keys)?;
    require_scalar(
        catalog,
        info.schema[info.n_keys],
        ScalarSqlType::Unit,
        Scope::Marker,
        "marker output must have Unit type",
    )
}

/// The variables that the body of a marker rule binds.
pub struct MarkerVars {
    pub keys: Seq<RuleVar>,
    pub output: RuleVar,
    pub edge_key: RuleVar,
    pub canonical: RuleVar,
    pub edge_payload: RuleVar,
    pub result: RuleVar,
}

/// The variables of the body, by role.
pub open spec fn marker_vars(catalog: Catalog, rule: RuleSpec, roles: MarkerRoles) -> MarkerVars {
    let marker = rule.body@[roles.marker].args@;
    let edge = rule.body@[roles.union_find].args@;
    let n_keys = table_of(catalog, atom_table(rule.body@[roles.marker])).n_keys;
    MarkerVars {
        keys: vars_of(marker, n_keys as nat),
        output: var_of(marker[n_keys as int]),
        edge_key: var_of(edge[0]),
        canonical: var_of(edge[1]),
        edge_payload: var_of(edge[2]),
        result: var_of(rule.body@[roles.guard].args@[2]),
    }
}

impl MarkerVars {
    /// The binding roles of the body. The edge's key is one of the keys.
    pub open spec fn bound(self) -> Seq<RuleVar> {
        self.keys + seq![self.output, self.canonical, self.edge_payload, self.result]
    }
}

/// The position of the redirected key.
pub open spec fn marker_key(vars: MarkerVars) -> usize {
    match only_position(vars.keys, vars.edge_key) {
        Some(position) => position as usize,
        None => arbitrary(),
    }
}

/// The marker atom and the edge atom consist of variables of the right types.
pub open spec fn marker_atoms_check(
    catalog: Catalog,
    info: TableInfo,
    marker: Seq<AtomTerm>,
    edge: Seq<AtomTerm>,
) -> Check {
    let n_keys = info.n_keys as int;
    holds(
        marker.len() == info.schema@.len(),
        Scope::Marker,
        "marker atom has the wrong arity"@,
    ).and(typed_vars_check(Scope::Marker, marker, info.schema@, info.n_keys as nat)).and(
        typed_var_check(Scope::Marker, marker[n_keys], info.schema@[n_keys]),
    ).and(
        scalar_check(
            catalog,
            var_of(marker[n_keys]).ty,
            ScalarSqlType::Unit,
            Scope::Marker,
            "marker body output must have Unit type"@,
        ),
    ).and(
        holds(edge.len() == 3, Scope::Marker, "UF atom must have three Id variables"@),
    ).and(id_var_check(Scope::Marker, edge[0])).and(id_var_check(Scope::Marker, edge[1])).and(
        id_var_check(Scope::Marker, edge[2]),
    )
}

/// The variables of the marker atom and the edge atom.
struct AtomVars {
    keys: Vec<RuleVar>,
    output: RuleVar,
    edge_key: RuleVar,
    canonical: RuleVar,
    edge_payload: RuleVar,
}

fn marker_atoms(
    catalog: &Catalog,
    info: &TableInfo,
    marker: &Vec<AtomTerm>,
    edge: &Vec<AtomTerm>,
) -> (vars: Result<AtomVars, Rejection>)
    requires
        info.schema@.len() == info.n_keys + 1,
    ensures
        match vars {
            Ok(found) => {
                &&& marker_atoms_check(*catalog, *info, marker@, edge@).fault is None
                &&& found.keys@ == vars_of(marker@, info.n_keys as nat)
                &&& found.output == var_of(marker@[info.n_keys as int])
                &&& found.edge_key == var_of(edge@[0])
                &&& found.canonical == var_of(edge@[1])
                &&& found.edge_payload == var_of(edge@[2])
            },
            Err(error) => marker_atoms_check(*catalog, *info, marker@, edge@).fault == Some(error@),
        },
{
    require(
        marker.len() == info.schema.len(),
        Scope::Marker,
        "marker atom has the wrong arity",
    )?;
    let keys = typed_vars(Scope::Marker, marker, &info.schema, info.n_keys)?;
    let output = typed_var(Scope::Marker, &marker[info.n_keys], info.schema[info.n_keys])?;
    require_scalar(
        catalog,
        output.ty,
        ScalarSqlType::Unit,
        Scope::Marker,
        "marker body output must have Unit type",
    )?;
    require(edge.len() == 3, Scope::Marker, "UF atom must have three Id variables")?;
    let edge_key = id_var(Scope::Marker, &edge[0])?;
    let canonical = id_var(Scope::Marker, &edge[1])?;
    let edge_payload = id_var(Scope::Marker, &edge[2])?;
    Ok(AtomVars { keys, output, edge_key, canonical, edge_payload })
}

/// The primitive atom states that the stale id is not canonical.
pub open spec fn marker_guard_check(
    catalog: Catalog,
    registries: AuthorityRegistries,
    atom: Atom,
    stale: RuleVar,
    canonical: RuleVar,
) -> Check {
    match atom.head {
        RuleBodyCall::Primitive { id, name, output } => {
            let args = atom.args@;
            neq_check(catalog, registries, Scope::Marker, id, name@, output).and(
                holds(args.len() == 3, Scope::Marker, "inequality has the wrong arity"@),
            ).and(
                is_var_check(Scope::Marker, stale, args[0], ColumnTy::Id, "inequality lhs"@),
            ).and(
                is_var_check(Scope::Marker, canonical, args[1], ColumnTy::Id, "inequality rhs"@),
            ).and(typed_var_check(Scope::Marker, args[2], output))
        },
        _ => holds(false, Scope::Marker, "requires a typed inequality atom"@),
    }
}

fn validate_inequality(
    catalog: &Catalog,
    registries: &AuthorityRegistries,
    atom: &Atom,
    stale: RuleVar,
    canonical: RuleVar,
) -> (result: Result<RuleVar, Rejection>)
    ensures
        yields(
            result,
            marker_guard_check(*catalog, *registries, *atom, stale, canonical),
            var_of(atom.args@[2]),
        ),
{
    match &atom.head {
        RuleBodyCall::Primitive { id, name, output } => {
            require_neq(catalog, registries, Scope::Marker, *id, name, *output)?;
            require(atom.args.len() == 3, Scope::Marker, "inequality has the wrong arity")?;
            is_var(Scope::Marker, stale, &atom.args[0], ColumnTy::Id, "inequality lhs")?;
            is_var(Scope::Marker, canonical, &atom.args[1], ColumnTy::Id, "inequality rhs")?;
            typed_var(Scope::Marker, &atom.args[2], *output)
        },
        _ => Err(reject(Scope::Marker, "requires a typed inequality atom")),
    }
}

/// A term is the unit constant.
pub open spec fn marker_unit_check(catalog: Catalog, term: AtomTerm) -> Check {
    holds(term is Literal, Scope::Marker, "requires a Unit literal"@).and(
        scalar_check(
            catalog,
            literal_of(term).ty,
            ScalarSqlType::Unit,
            Scope::Marker,
            "requires a Unit literal"@,
        ),
    ).and(literal_check(catalog, ScalarSqlType::Unit, literal_of(term).value))
}

fn unit_literal(catalog: &Catalog, term: &AtomTerm) -> (checked: Result<(), Rejection>)
    ensures
        yields(checked, marker_unit_check(*catalog, *term), ()),
{
    match term {
        AtomTerm::Literal(value) => {
            require_scalar(
                catalog,
                value.ty,
                ScalarSqlType::Unit,
                Scope::Marker,
                "requires a Unit literal",
            )?;
            match catalog.sql_literal(ScalarSqlType::Unit, value.value) {
                Ok(_) => Ok(()),
                Err(error) => Err(error),
            }
        },
        _ => Err(reject(Scope::Marker, "requires a Unit literal")),
    }
}

/// The first action writes the marker row under its canonical key.
pub open spec fn marker_set_check(
    catalog: Catalog,
    action: CoreAction,
    marker: FunctionId,
    keys: Seq<RuleVar>,
) -> Check {
    match action {
        CoreAction::SetRow(call, args, values) => table_action_check(
            Scope::Marker,
            call,
            "canonical marker Set"@,
        ).and(
            same_table_check(
                "table_action(rule_name, call, \"canonical marker Set\")? == marker"@,
                called_table(call),
                marker,
            ),
        ).and(
            holds(
                args@.len() == keys.len(),
                Scope::Marker,
                "marker Set has the wrong key arity"@,
            ),
        ).and(vars_check(Scope::Marker, keys, args@, "canonical marker key"@, keys.len())).and(
            holds(
                values@.len() == 1,
                Scope::Marker,
                "marker Set must have one Unit value"@,
            ),
        ).and(marker_unit_check(catalog, values@[0])),
        _ => holds(false, Scope::Marker, "first action must be Set"@),
    }
}

fn validate_marker_set(
    catalog: &Catalog,
    action: &CoreAction,
    marker: FunctionId,
    keys: &Vec<RuleVar>,
) -> (checked: Result<(), Rejection>)
    ensures
        yields(checked, marker_set_check(*catalog, *action, marker, keys@), ()),
{
    match action {
        CoreAction::SetRow(call, args, values) => {
            let target = table_action(Scope::Marker, call, "canonical marker Set")?;
            require_same_table(
                "table_action(rule_name, call, \"canonical marker Set\")? == marker",
                target,
                marker,
            )?;
            require(
                args.len() == keys.len(),
                Scope::Marker,
                "marker Set has the wrong key arity",
            )?;
            same_vars(Scope::Marker, keys, args, "canonical marker key")?;
            require(values.len() == 1, Scope::Marker, "marker Set must have one Unit value")?;
            unit_literal(catalog, &values[0])
        },
        _ => Err(reject(Scope::Marker, "first action must be Set")),
    }
}

/// The second action deletes the stale marker row.
pub open spec fn marker_delete_check(
    action: CoreAction,
    marker: FunctionId,
    keys: Seq<RuleVar>,
) -> Check {
    match action {
        CoreAction::Change(change, call, args) => holds(
            change == Change::Delete,
            Scope::Marker,
            "second action must be Delete"@,
        ).and(table_action_check(Scope::Marker, call, "stale marker Delete"@)).and(
            same_table_check(
                "table_action(rule_name, call, \"stale marker Delete\")? == marker"@,
                called_table(call),
                marker,
            ),
        ).and(
            holds(
                args@.len() == keys.len(),
                Scope::Marker,
                "marker Delete has the wrong key arity"@,
            ),
        ).and(vars_check(Scope::Marker, keys, args@, "stale marker key"@, keys.len())),
        _ => holds(false, Scope::Marker, "second action must be Delete"@),
    }
}

fn validate_marker_delete(action: &CoreAction, marker: FunctionId, keys: &Vec<RuleVar>) -> (checked:
    Result<(), Rejection>)
    ensures
        yields(checked, marker_delete_check(*action, marker, keys@), ()),
{
    match action {
        CoreAction::Change(change, call, args) => {
            require(
                *change == Change::Delete,
                Scope::Marker,
                "second action must be Delete",
            )?;
            let target = table_action(Scope::Marker, call, "stale marker Delete")?;
            require_same_table(
                "table_action(rule_name, call, \"stale marker Delete\")? == marker",
                target,
                marker,
            )?;
            require(
                args.len() == keys.len(),
                Scope::Marker,
                "marker Delete has the wrong key arity",
            )?;
            same_vars(Scope::Marker, keys, args, "stale marker key")
        },
        _ => Err(reject(Scope::Marker, "second action must be Delete")),
    }
}

// ---------------------------------------------------------------------------
// Admission.

/// Everything that an owned marker rule has to be.
pub open spec fn marker_check(
    catalog: Catalog,
    registries: AuthorityRegistries,
    rule: RuleSpec,
    roles: MarkerRoles,
) -> Check {
    let marker = atom_table(rule.body@[roles.marker]);
    let info = table_of(catalog, marker);
    let vars = marker_vars(catalog, rule, roles);
    let key_index = marker_key(vars) as int;
    holds(
        rule.seminaive && !rule.no_decomp,
        Scope::Marker,
        "must be seminaive and decomposed"@,
    ).and(marker_table_check(catalog, info)).and(
        marker_union_find_check(catalog, registries, atom_table(rule.body@[roles.union_find])),
    ).and(
        holds(
            atom_read(rule.body@[roles.marker]) == ReadMode::All && atom_read(
                rule.body@[roles.union_find],
            ) == ReadMode::All,
            Scope::Marker,
            "requires All table atoms"@,
        ),
    ).and(
        marker_atoms_check(
            catalog,
            info,
            rule.body@[roles.marker].args@,
            rule.body@[roles.union_find].args@,
        ),
    ).and(
        holds(
            only_position(vars.keys, vars.edge_key) is Some,
            Scope::Marker,
            "UF key must be exactly one marker key"@,
        ),
    ).and(
        holds(
            info.schema@[key_index] == ColumnTy::Id,
            Scope::Marker,
            "selected key must have Id type"@,
        ),
    ).and(
        marker_guard_check(
            catalog,
            registries,
            rule.body@[roles.guard],
            vars.edge_key,
            vars.canonical,
        ),
    ).and(distinct_check(Scope::Marker, vars.bound())).and(
        marker_set_check(
            catalog,
            rule.head@[0],
            marker,
            vars.keys.update(key_index, vars.canonical),
        ),
    ).and(marker_delete_check(rule.head@[1], marker, vars.keys))
}

/// The plan of a marker rule.
pub open spec fn marker_plan(
    catalog: Catalog,
    rule: RuleSpec,
    roles: MarkerRoles,
) -> MarkerRekeyView {
    let marker = atom_table(rule.body@[roles.marker]);
    let info = table_of(catalog, marker);
    MarkerRekeyView {
        seminaive: rule.seminaive,
        marker,
        marker_columns: info.columns@,
        n_keys: info.n_keys,
        key_index: marker_key(marker_vars(catalog, rule, roles)),
        union_find: union_view(
            catalog,
            atom_table(rule.body@[roles.union_find]),
            OrderedUnionOrientation::KeyToParent,
        ),
    }
}

/// The outcome of marker admission: nothing for an unrelated rule, a plan, or
/// the first fault of an owned rule.
#[verifier::opaque]
pub open spec fn marker_rekey(
    catalog: Catalog,
    registries: AuthorityRegistries,
    rule: RuleSpec,
) -> Result<Option<MarkerRekeyView>, RejectionView> {
    match marker_selection(catalog, rule) {
        Err(error) => Err(error),
        Ok(None) => Ok(None),
        Ok(Some(roles)) => marker_check(catalog, registries, rule, roles).gives(
            Some(marker_plan(catalog, rule, roles)),
        ),
    }
}

fn compile_selected(
    catalog: &Catalog,
    registries: &AuthorityRegistries,
    rule: &RuleSpec,
    selected: SelectedOuter,
) -> (plan: Result<MarkerRekeyPlan, Rejection>)
    requires
        body_split(rule.body@) == Some(
            (selected.marker as int, selected.union_find as int, selected.guard as int),
        ) || body_split(rule.body@) == Some(
            (selected.union_find as int, selected.marker as int, selected.guard as int),
        ),
        marker_head_shape(rule.head@),
        atom_table(rule.body@[selected.marker as int]).rep < catalog.tables@.len(),
    ensures
        yields_view(
            plan,
            marker_check(*catalog, *registries, *rule, selected.roles()),
            marker_plan(*catalog, *rule, selected.roles()),
        ),
{
    let ghost vars = marker_vars(*catalog, *rule, selected.roles());
    require(
        rule.seminaive && !rule.no_decomp,
        Scope::Marker,
        "must be seminaive and decomposed",
    )?;
    let (marker, marker_read) = table_atom_parts(&rule.body[selected.marker]);
    let (union_find_id, union_find_read) = table_atom_parts(&rule.body[selected.union_find]);
    let info = catalog.table_info(marker)?;
    validate_marker_table(catalog, info)?;
    let union_find = validate_marker_union_find(catalog, registries, union_find_id)?;
    require(
        marker_read == ReadMode::All && union_find_read == ReadMode::All,
        Scope::Marker,
        "requires All table atoms",
    )?;
    let found = marker_atoms(
        catalog,
        info,
        &rule.body[selected.marker].args,
        &rule.body[selected.union_find].args,
    )?;
    let key_index = match find_only_position(&found.keys, found.edge_key) {
        Some(position) => position,
        None => {
            return Err(reject(Scope::Marker, "UF key must be exactly one marker key"));
        },
    };
    require(
        info.schema[key_index] == ColumnTy::Id,
        Scope::Marker,
        "selected key must have Id type",
    )?;
    let result = validate_inequality(
        catalog,
        registries,
        &rule.body[selected.guard],
        found.edge_key,
        found.canonical,
    )?;
    let mut bound = copy_vars(&found.keys);
    bound.push(found.output);
    bound.push(found.canonical);
    bound.push(found.edge_payload);
    bound.push(result);
    assert(bound@ =~= vars.bound());
    distinct_vars(Scope::Marker, &bound)?;
    let mut canonical = copy_vars(&found.keys);
    canonical.set(key_index, found.canonical);
    validate_marker_set(catalog, &rule.head[0], marker, &canonical)?;
    validate_marker_delete(&rule.head[1], marker, &found.keys)?;
    Ok(
        MarkerRekeyPlan {
            seminaive: rule.seminaive,
            marker,
            marker_columns: copy_columns(&info.columns),
            n_keys: info.n_keys,
            key_index,
            union_find,
        },
    )
}

/// Admits a marker-rekey rule: nothing for an unrelated family, a plan for a
/// completely validated rule, and an error for a malformed rule of the family.
pub fn compile_marker_rekey(
    catalog: &Catalog,
    registries: &AuthorityRegistries,
    rule: &RuleSpec,
) -> (plan: Result<Option<MarkerRekeyPlan>, Rejection>)
    ensures
        agrees_if_owned(plan, marker_rekey(*catalog, *registries, *rule)),
{
    reveal(marker_rekey);
    match select_outer_family(catalog, rule)? {
        None => Ok(None),
        Some(selected) => {
            let plan = compile_selected(catalog, registries, rule, selected)?;
            Ok(Some(plan))
        },
    }
}

} // verus!
