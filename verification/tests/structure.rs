use std::collections::BTreeMap;

use egglog_core_relations::{BaseValues, Boxed};
use egglog_duckdb::authority::{Authority, AuthorityRegistries, FdDescriptor, NativePrimitive};
use egglog_duckdb::base::{canonical_unit, BaseTypes, ScalarSqlType};
use egglog_duckdb::catalog::LiteralSql;
use egglog_duckdb::egraph::{compile_rule, CompiledRule, EGraph};
use egglog_duckdb::ir::{
    Atom, AtomTerm, BaseValueId, Change, ColumnTy, CoreAction, DefaultVal, ExternalFunctionId,
    FunctionConfig, FunctionId, MergeAction, MergeFn, ReadMode, RuleActionCall, RuleBodyCall,
    RuleId, RuleSpec, RuleValue, RuleVar, Value,
};
use egglog_duckdb::marker_rekey::{compile_marker_rekey, key_equality};
use egglog_duckdb::path_compress::{
    compile_path_compression, looks_like_path_compression, validate_union_find_merge,
};
use egglog_duckdb::rebuild::{
    compile_standard_rebuild, OrderedUnionOrientation, StandardRebuildKind, StandardRebuildPlan,
};
use egglog_duckdb::rejection::Rejection;
use egglog_duckdb::scalar_expr::{ScalarAuthority, ScalarForm, SqlPiece};
use egglog_numeric_id::NumericId;
use ordered_float::OrderedFloat;

/// A backend without an engine: base values, live authorities and the tables
/// and rules that were admitted.
struct Backend {
    egraph: EGraph,
    base: BaseValues,
    registries: AuthorityRegistries,
    freed: Vec<u32>,
    next_token: u32,
    strings: BTreeMap<u32, String>,
}

/// A refused rule, as its diagnostic and as its diagnostic with the cause.
#[derive(Debug)]
struct Refused {
    message: String,
    report: String,
}

impl Backend {
    fn new() -> Backend {
        let mut base = BaseValues::default();
        let float = base.register_type::<Boxed<OrderedFloat<f64>>>();
        let types = BaseTypes::register(&mut base, BaseValueId { rep: float.rep() });
        let mut egraph = EGraph::new(types);
        egraph.catalog.literals.push(LiteralSql {
            scalar: ScalarSqlType::Unit,
            value: canonical_unit(&base),
            sql: "CAST(TRUE AS BOOLEAN)".to_string(),
        });
        let id = ColumnTy::Id;
        let ids = |count: usize| vec![id; count];
        let unit = ColumnTy::Base(types.unit);
        for (tag, inputs, output, text) in [
            (NativePrimitive::ValueNeq, ids(2), unit, "neq"),
            (NativePrimitive::SelectMinPayload, ids(4), id, "select_min"),
            (NativePrimitive::SelectMaxPayload, ids(4), id, "select_max"),
            (NativePrimitive::OrderingMin, ids(2), id, "least"),
            (NativePrimitive::OrderingMax, ids(2), id, "greatest"),
        ] {
            let mut value = vec![SqlPiece::Text(format!("{text}("))];
            for index in 0..inputs.len() {
                if index > 0 {
                    value.push(SqlPiece::Text(", ".to_string()));
                }
                value.push(SqlPiece::Input(index));
            }
            value.push(SqlPiece::Text(")".to_string()));
            let defined = match tag {
                NativePrimitive::ValueNeq => Some(vec![
                    SqlPiece::Input(0),
                    SqlPiece::Text(" IS DISTINCT FROM ".to_string()),
                    SqlPiece::Input(1),
                ]),
                _ => None,
            };
            egraph.catalog.forms.push(ScalarForm {
                authority: ScalarAuthority::Native(tag),
                inputs,
                output,
                value,
                defined,
            });
        }
        Backend {
            egraph,
            base,
            registries: AuthorityRegistries::new(),
            freed: Vec::new(),
            next_token: 0,
            strings: BTreeMap::new(),
        }
    }

    fn unit_ty(&self) -> ColumnTy {
        ColumnTy::Base(self.egraph.catalog.types.unit)
    }

    fn string_ty(&self) -> ColumnTy {
        ColumnTy::Base(self.egraph.catalog.types.string)
    }

    fn integer_ty(&self) -> ColumnTy {
        ColumnTy::Base(self.egraph.catalog.types.integer)
    }

    fn boolean_ty(&self) -> ColumnTy {
        ColumnTy::Base(self.egraph.catalog.types.boolean)
    }

    fn know(&mut self, scalar: ScalarSqlType, value: Value, sql: String) {
        let literals = &mut self.egraph.catalog.literals;
        if !literals.iter().any(|known| known.scalar == scalar && known.value == value) {
            literals.push(LiteralSql { scalar, value, sql });
        }
    }

    fn unit(&self) -> AtomTerm {
        literal(canonical_unit(&self.base), self.unit_ty())
    }

    fn id(&mut self, rep: u32) -> AtomTerm {
        self.know(ScalarSqlType::Id, Value::new(rep), format!("CAST('{rep}' AS UBIGINT)"));
        literal(Value::new(rep), ColumnTy::Id)
    }

    fn string_value(&mut self, text: &str) -> Value {
        let value = Value::new(self.base.get(Boxed::new(text.to_string())).rep());
        self.strings.insert(value.rep, text.to_string());
        self.know(ScalarSqlType::String, value, format!("'{}'", text.replace('\'', "''")));
        value
    }

    fn string(&mut self, text: &str) -> AtomTerm {
        let value = self.string_value(text);
        literal(value, self.string_ty())
    }

    fn integer_value(&mut self, number: i64) -> Value {
        let value = Value::new(self.base.get(number).rep());
        self.know(ScalarSqlType::I64, value, format!("CAST('{number}' AS BIGINT)"));
        value
    }

    fn integer(&mut self, number: i64) -> AtomTerm {
        let value = self.integer_value(number);
        literal(value, self.integer_ty())
    }

    fn token(&mut self) -> ExternalFunctionId {
        let rep = match self.freed.pop() {
            Some(rep) => rep,
            None => {
                self.next_token += 1;
                self.next_token - 1
            }
        };
        ExternalFunctionId::new(rep)
    }

    fn mint(&mut self, authority: Authority) -> ExternalFunctionId {
        let token = self.token();
        self.registries.mint(token, authority);
        token
    }

    fn register_native(&mut self, tag: NativePrimitive) -> ExternalFunctionId {
        self.mint(Authority::Native(tag))
    }

    fn register_get_fresh(&mut self) -> ExternalFunctionId {
        self.mint(Authority::Fresh)
    }

    fn register_set_if_empty(
        &mut self,
        view_name: &str,
        n_keys: usize,
        out_arity: usize,
    ) -> ExternalFunctionId {
        let view_name = view_name.to_string();
        self.mint(Authority::Fd(FdDescriptor::SetIfEmpty { view_name, n_keys, out_arity }))
    }

    /// A token that nothing authenticates.
    fn new_panic(&mut self) -> ExternalFunctionId {
        self.token()
    }

    fn free(&mut self, token: ExternalFunctionId) {
        self.registries.free(token);
        self.freed.push(token.rep);
    }

    fn register(&mut self, config: FunctionConfig) -> Result<FunctionId, Rejection> {
        self.egraph.catalog.register_table(config, Some(&self.registries))
    }

    fn add_table(&mut self, config: FunctionConfig) -> FunctionId {
        let name = config.name.clone();
        match self.register(config) {
            Ok(id) => id,
            Err(error) => panic!("add_table({name}) failed: {}", error.report(&name)),
        }
    }

    fn table(
        &mut self,
        name: &str,
        schema: Vec<ColumnTy>,
        n_vals: usize,
        merge: MergeFn,
        can_subsume: bool,
    ) -> FunctionId {
        self.add_table(FunctionConfig {
            name: name.to_string(),
            schema,
            n_vals,
            n_identity_vals: None,
            default: DefaultVal::Fail,
            merge,
            can_subsume,
        })
    }

    fn add_rule(&mut self, rule: &RuleSpec) -> Result<RuleId, Refused> {
        let compiled = compile_rule(&self.egraph.catalog, &self.base, &self.registries, rule);
        let outcome = match compiled {
            Ok(Some(plan)) => Ok(plan),
            Ok(None) => panic!("no compiler owns rule {}", rule.name),
            Err(error) => Err(error),
        };
        self.egraph.add_rule(outcome).map_err(|error| Refused {
            message: error.message(&rule.name),
            report: error.report(&rule.name),
        })
    }

    fn plan(&self, id: RuleId) -> &CompiledRule {
        self.egraph.plan(id).expect("registered rule")
    }
}

fn literal(value: Value, ty: ColumnTy) -> AtomTerm {
    AtomTerm::Literal(RuleValue { value, ty })
}

fn var(id: u32, ty: ColumnTy) -> RuleVar {
    RuleVar { id, ty }
}

fn variable(variable: RuleVar) -> AtomTerm {
    AtomTerm::Var(variable)
}

fn table_call(id: FunctionId) -> RuleActionCall {
    RuleActionCall::Table { id }
}

fn set_action(id: FunctionId, keys: Vec<AtomTerm>, values: Vec<AtomTerm>) -> CoreAction {
    CoreAction::SetRow(table_call(id), keys, values)
}

fn change_action(change: Change, id: FunctionId, keys: Vec<AtomTerm>) -> CoreAction {
    CoreAction::Change(change, table_call(id), keys)
}

fn atom(id: FunctionId, read: ReadMode, args: Vec<AtomTerm>) -> Atom {
    Atom { head: RuleBodyCall::Table { id, read }, args }
}

fn rule(name: &str, seminaive: bool, body: Vec<Atom>, head: Vec<CoreAction>) -> RuleSpec {
    RuleSpec { name: name.to_string(), seminaive, no_decomp: false, body, head }
}

#[derive(Clone, Copy)]
struct NativeTokens {
    neq: ExternalFunctionId,
    select_min: ExternalFunctionId,
    select_max: ExternalFunctionId,
    ordering_min: ExternalFunctionId,
    ordering_max: ExternalFunctionId,
    fresh: ExternalFunctionId,
}

fn native_tokens(backend: &mut Backend) -> NativeTokens {
    NativeTokens {
        neq: backend.register_native(NativePrimitive::ValueNeq),
        select_min: backend.register_native(NativePrimitive::SelectMinPayload),
        select_max: backend.register_native(NativePrimitive::SelectMaxPayload),
        ordering_min: backend.register_native(NativePrimitive::OrderingMin),
        ordering_max: backend.register_native(NativePrimitive::OrderingMax),
        fresh: backend.register_get_fresh(),
    }
}

/// The merge that keeps the smaller identity and displaces the larger.
struct OrderedUnion {
    tokens: NativeTokens,
    label: Value,
    string: ColumnTy,
    unit: ColumnTy,
    unit_value: Value,
    sym: FunctionId,
    trans: FunctionId,
}

impl OrderedUnion {
    fn merge(&self, displaced: FunctionId, eclass_to_term: bool) -> MergeFn {
        let payload = |id, name: &str| MergeFn::Primitive {
            id,
            name: name.to_string(),
            input: vec![ColumnTy::Id; 4],
            output: ColumnTy::Id,
            args: vec![
                MergeFn::OldCol(0),
                MergeFn::OldCol(1),
                MergeFn::NewCol(0),
                MergeFn::NewCol(1),
            ],
        };
        let identity = |id, name: &str| MergeFn::Primitive {
            id,
            name: name.to_string(),
            input: vec![ColumnTy::Id; 2],
            output: ColumnTy::Id,
            args: vec![MergeFn::OldCol(0), MergeFn::NewCol(0)],
        };
        let fresh = || MergeFn::Primitive {
            id: self.tokens.fresh,
            name: "get-fresh!".to_string(),
            input: vec![self.string],
            output: ColumnTy::Id,
            args: vec![MergeFn::Const { value: self.label, ty: self.string }],
        };
        let unit = || MergeFn::Const { value: self.unit_value, ty: self.unit };
        let sym_input = if eclass_to_term { 1 } else { 0 };
        let (first, second) = if eclass_to_term { (0, 2) } else { (2, 1) };
        MergeFn::Block {
            actions: vec![
                MergeAction::Let { slot: 0, value: payload(self.tokens.select_max, "proof-of-max") },
                MergeAction::Let { slot: 1, value: payload(self.tokens.select_min, "proof-of-min") },
                MergeAction::Let { slot: 2, value: fresh() },
                MergeAction::SetRow(
                    self.sym,
                    vec![MergeFn::LetVar(sym_input), MergeFn::LetVar(2), unit()],
                ),
                MergeAction::Let { slot: 3, value: fresh() },
                MergeAction::SetRow(
                    self.trans,
                    vec![
                        MergeFn::LetVar(first),
                        MergeFn::LetVar(second),
                        MergeFn::LetVar(3),
                        unit(),
                    ],
                ),
                MergeAction::SetRow(
                    displaced,
                    vec![
                        identity(self.tokens.ordering_max, "ordering-max"),
                        identity(self.tokens.ordering_min, "ordering-min"),
                        MergeFn::LetVar(3),
                    ],
                ),
            ],
            result: Box::new(MergeFn::Columns(vec![
                identity(self.tokens.ordering_min, "ordering-min"),
                MergeFn::LetVar(1),
            ])),
        }
    }
}

#[derive(Clone, Copy)]
enum BodyOrder {
    ViewUfNeq,
    NeqUfView,
    UfViewNeq,
}

fn ordered_atoms(order: BodyOrder, view: Atom, uf: Atom, inequality: Atom) -> Vec<Atom> {
    match order {
        BodyOrder::ViewUfNeq => vec![view, uf, inequality],
        BodyOrder::NeqUfView => vec![inequality, uf, view],
        BodyOrder::UfViewNeq => vec![uf, view, inequality],
    }
}

struct Fixture {
    backend: Backend,
    tokens: NativeTokens,
    label: Value,
    key_types: Vec<ColumnTy>,
    sym: FunctionId,
    trans: FunctionId,
    congr: FunctionId,
    uf: FunctionId,
    view: FunctionId,
    marker: FunctionId,
}

impl Fixture {
    fn one_id(name: &str) -> Fixture {
        Fixture::with_keys(name, vec![ColumnTy::Id], |_| {})
    }

    fn with_marker_config(name: &str, configure: impl FnOnce(&mut FunctionConfig)) -> Fixture {
        Fixture::with_keys(name, vec![ColumnTy::Id], configure)
    }

    fn with_keys(
        name: &str,
        key_types: Vec<ColumnTy>,
        configure: impl FnOnce(&mut FunctionConfig),
    ) -> Fixture {
        let mut backend = Backend::new();
        let label = backend.string_value(&format!("{name}-opaque-sort"));
        let tokens = native_tokens(&mut backend);
        let id = ColumnTy::Id;
        let unit = backend.unit_ty();
        let integer = backend.integer_ty();
        let sym = backend.table(
            &format!("{name}-binary-evidence"),
            vec![id, id, unit],
            1,
            MergeFn::AssertEq,
            false,
        );
        let trans = backend.table(
            &format!("{name}-ternary-evidence"),
            vec![id, id, id, unit],
            1,
            MergeFn::AssertEq,
            false,
        );
        let congr = backend.table(
            &format!("{name}-congruence-evidence"),
            vec![id, integer, id, id, unit],
            1,
            MergeFn::AssertEq,
            false,
        );
        let mut fixture = Fixture {
            backend,
            tokens,
            label,
            key_types,
            sym,
            trans,
            congr,
            uf: sym,
            view: sym,
            marker: sym,
        };
        fixture.uf = fixture.union_find(&format!("{name}-parent-map"));
        let merge = fixture.union().merge(fixture.uf, true);
        let mut schema = fixture.key_types.clone();
        schema.extend([id, id]);
        fixture.view = fixture.backend.add_table(FunctionConfig {
            name: format!("{name}-view"),
            schema,
            n_vals: 2,
            n_identity_vals: Some(1),
            default: DefaultVal::Fail,
            merge,
            can_subsume: true,
        });
        let mut config = fixture.marker_config(name);
        configure(&mut config);
        fixture.marker = fixture.backend.add_table(config);
        fixture
    }

    fn union(&self) -> OrderedUnion {
        OrderedUnion {
            tokens: self.tokens,
            label: self.label,
            string: self.backend.string_ty(),
            unit: self.backend.unit_ty(),
            unit_value: canonical_unit(&self.backend.base),
            sym: self.sym,
            trans: self.trans,
        }
    }

    fn union_find(&mut self, name: &str) -> FunctionId {
        let predicted = self.backend.egraph.peek_next_function_id();
        let merge = self.union().merge(predicted, false);
        let uf = self.backend.add_table(union_find_config(name, merge));
        assert_eq!(uf, predicted);
        uf
    }

    fn marker_config(&self, name: &str) -> FunctionConfig {
        let mut schema = self.key_types.clone();
        schema.push(self.backend.unit_ty());
        FunctionConfig {
            name: format!("{name}-opaque-marker"),
            schema,
            n_vals: 1,
            n_identity_vals: None,
            default: DefaultVal::Fail,
            merge: MergeFn::AssertEq,
            can_subsume: false,
        }
    }

    fn inequality(&self, name: &str, left: AtomTerm, right: AtomTerm, result: AtomTerm) -> Atom {
        Atom {
            head: RuleBodyCall::Primitive {
                id: self.tokens.neq,
                name: name.to_string(),
                output: self.backend.unit_ty(),
            },
            args: vec![left, right, result],
        }
    }

    fn keys(&self) -> Vec<AtomTerm> {
        self.key_types
            .iter()
            .enumerate()
            .map(|(index, ty)| variable(var(10_000 + 7 * index as u32, *ty)))
            .collect()
    }

    fn marker_rule(&self, name: &str, key_index: usize, order: BodyOrder) -> RuleSpec {
        let unit = self.backend.unit_ty();
        let keys = self.keys();
        let canonical = variable(var(20_007, ColumnTy::Id));
        let mut marker_args = keys.clone();
        marker_args.push(variable(var(20_000, unit)));
        let marker_atom = atom(self.marker, ReadMode::All, marker_args);
        let uf_atom = atom(
            self.uf,
            ReadMode::All,
            vec![keys[key_index], canonical, variable(var(20_014, ColumnTy::Id))],
        );
        let inequality = self.inequality(
            "renamed-marker-neq-diagnostic",
            keys[key_index],
            canonical,
            variable(var(20_021, unit)),
        );
        let mut canonical_keys = keys.clone();
        canonical_keys[key_index] = canonical;
        rule(
            &format!("{name}-totally-renamed-marker-rekey"),
            true,
            ordered_atoms(order, marker_atom, uf_atom, inequality),
            vec![
                set_action(self.marker, canonical_keys, vec![self.backend.unit()]),
                change_action(Change::Delete, self.marker, keys),
            ],
        )
    }

    fn rebuild_body(&self, stale: AtomTerm, order: BodyOrder) -> Vec<Atom> {
        let id = ColumnTy::Id;
        let mut view_args = self.keys();
        view_args.extend([variable(var(1, id)), variable(var(2, id))]);
        let canonical = variable(var(3, id));
        ordered_atoms(
            order,
            atom(self.view, ReadMode::All, view_args),
            atom(self.uf, ReadMode::All, vec![stale, canonical, variable(var(4, id))]),
            self.inequality("!=", stale, canonical, variable(var(5, self.backend.unit_ty()))),
        )
    }

    fn allocation(&self, binding: RuleVar) -> CoreAction {
        CoreAction::Let(
            binding,
            RuleActionCall::Primitive {
                id: self.tokens.fresh,
                name: "get-fresh!".to_string(),
                output: ColumnTy::Id,
            },
            vec![literal(self.label, self.backend.string_ty())],
        )
    }

    fn eq_rule(&mut self, name: &str, key_index: usize, order: BodyOrder) -> RuleSpec {
        let id = ColumnTy::Id;
        let unit = self.backend.unit();
        let child = self.backend.integer(key_index as i64);
        let keys = self.keys();
        let fresh = var(6, id);
        let alias = var(7, id);
        let mut canonical_keys = keys.clone();
        canonical_keys[key_index] = variable(var(3, id));
        rule(
            name,
            true,
            self.rebuild_body(keys[key_index], order),
            vec![
                self.allocation(fresh),
                CoreAction::LetAtomTerm(alias, variable(fresh)),
                set_action(
                    self.congr,
                    vec![variable(var(2, id)), child, variable(var(4, id)), variable(alias)],
                    vec![unit],
                ),
                set_action(
                    self.view,
                    canonical_keys,
                    vec![variable(var(1, id)), variable(alias)],
                ),
                change_action(Change::Delete, self.view, keys),
            ],
        )
    }

    fn eclass_rule(&self, name: &str, order: BodyOrder) -> RuleSpec {
        let id = ColumnTy::Id;
        let unit = self.backend.unit();
        let (sym_fresh, sym_alias) = (var(6, id), var(7, id));
        let (trans_fresh, trans_alias) = (var(8, id), var(9, id));
        rule(
            name,
            true,
            self.rebuild_body(variable(var(1, id)), order),
            vec![
                self.allocation(sym_fresh),
                CoreAction::LetAtomTerm(sym_alias, variable(sym_fresh)),
                set_action(
                    self.sym,
                    vec![variable(var(4, id)), variable(sym_alias)],
                    vec![unit],
                ),
                self.allocation(trans_fresh),
                CoreAction::LetAtomTerm(trans_alias, variable(trans_fresh)),
                set_action(
                    self.trans,
                    vec![variable(sym_alias), variable(var(2, id)), variable(trans_alias)],
                    vec![unit],
                ),
                set_action(
                    self.view,
                    self.keys(),
                    vec![variable(var(3, id)), variable(trans_alias)],
                ),
            ],
        )
    }

    fn path_rule(&self, prefix: &str, uf: FunctionId) -> RuleSpec {
        let id = ColumnTy::Id;
        let unit = self.backend.unit_ty();
        let v = |rep: u32| variable(var(rep, id));
        let fresh = var(6, id);
        let alias = var(7, id);
        rule(
            &format!("{prefix}-completely-renamed-rule"),
            true,
            vec![
                atom(uf, ReadMode::Live, vec![v(0), v(1), v(2)]),
                atom(uf, ReadMode::Live, vec![v(1), v(3), v(4)]),
                self.inequality("renamed-neq-diagnostic", v(1), v(3), variable(var(5, unit))),
            ],
            vec![
                CoreAction::Let(
                    fresh,
                    RuleActionCall::Primitive {
                        id: self.tokens.fresh,
                        name: "renamed-head-fresh-diagnostic".to_string(),
                        output: id,
                    },
                    vec![literal(self.label, self.backend.string_ty())],
                ),
                CoreAction::LetAtomTerm(alias, variable(fresh)),
                set_action(
                    self.trans,
                    vec![v(2), v(4), variable(alias)],
                    vec![literal(Value::new(0), unit)],
                ),
                set_action(uf, vec![v(0)], vec![v(3), variable(alias)]),
            ],
        )
    }
}

fn union_find_config(name: &str, merge: MergeFn) -> FunctionConfig {
    FunctionConfig {
        name: name.to_string(),
        schema: vec![ColumnTy::Id; 3],
        n_vals: 2,
        n_identity_vals: Some(1),
        default: DefaultVal::Fail,
        merge,
        can_subsume: false,
    }
}

fn table_of(atom: &Atom) -> Option<FunctionId> {
    match &atom.head {
        RuleBodyCall::Table { id, .. } => Some(*id),
        _ => None,
    }
}

fn retarget(rule: &mut RuleSpec, from: FunctionId, to: FunctionId) {
    for atom in &mut rule.body {
        if let RuleBodyCall::Table { id, .. } = &mut atom.head {
            if *id == from {
                *id = to;
            }
        }
    }
}

fn body_atom(rule: &mut RuleSpec, table: FunctionId) -> &mut Atom {
    rule.body.iter_mut().find(|atom| table_of(atom) == Some(table)).expect("table atom")
}

fn inequality_atom(rule: &mut RuleSpec) -> &mut Atom {
    rule.body
        .iter_mut()
        .find(|atom| matches!(atom.head, RuleBodyCall::Primitive { .. }))
        .expect("inequality atom")
}

// ---------------------------------------------------------------------------
// Marker rekeying.

fn assert_rejected_preserves_rule_id(fixture: &mut Fixture, rule: RuleSpec, fragment: &str) {
    let classified =
        compile_marker_rekey(&fixture.backend.egraph.catalog, &fixture.backend.registries, &rule);
    let classifier_error = classified.unwrap_err().message(&rule.name);
    assert!(classifier_error.contains("marker rekey"), "{classifier_error}");
    assert!(classifier_error.contains(fragment), "{classifier_error}");

    let registration_error = fixture.backend.add_rule(&rule).unwrap_err().message;
    assert!(registration_error.contains("marker rekey"), "{registration_error}");
    assert!(registration_error.contains(fragment), "{registration_error}");
    let valid_config = fixture.marker_config("valid-after-rejection");
    fixture.marker = fixture.backend.add_table(valid_config);
    let valid = fixture.marker_rule("valid-after-rejection", 0, BodyOrder::NeqUfView);
    assert_eq!(fixture.backend.add_rule(&valid).unwrap(), RuleId::new(0));
}

fn falls_through(fixture: &Fixture, rule: &RuleSpec) -> bool {
    compile_marker_rekey(&fixture.backend.egraph.catalog, &fixture.backend.registries, rule)
        .unwrap()
        .is_none()
}

fn assert_fallthrough_preserves_rule_id(fixture: &mut Fixture, rule: RuleSpec) {
    assert!(falls_through(fixture, &rule), "near-shape was captured as a marker");
    let valid = fixture.marker_rule("valid-after-fallthrough", 0, BodyOrder::NeqUfView);
    assert_eq!(fixture.backend.add_rule(&valid).unwrap(), RuleId::new(0));
}

#[test]
fn marker_tri_state_matrix_is_fail_closed_without_consuming_rule_ids() {
    let mut mode = Fixture::one_id("bad-mode");
    let mut rule = mode.marker_rule("bad-mode-rule", 0, BodyOrder::ViewUfNeq);
    match &mut body_atom(&mut rule, mode.marker).head {
        RuleBodyCall::Table { read, .. } => *read = ReadMode::Live,
        _ => unreachable!(),
    }
    assert_rejected_preserves_rule_id(&mut mode, rule, "requires All");

    let mut primitive = Fixture::one_id("bad-primitive");
    let mut rule = primitive.marker_rule("bad-primitive-rule", 0, BodyOrder::UfViewNeq);
    match &mut rule.body[2].head {
        RuleBodyCall::Primitive { id, name, .. } => {
            *id = primitive.tokens.ordering_min;
            *name = "!=".to_string();
        }
        _ => unreachable!(),
    }
    assert_rejected_preserves_rule_id(&mut primitive, rule, "ValueNeq");

    let mut primitive_output = Fixture::one_id("bad-primitive-output");
    let mut rule =
        primitive_output.marker_rule("bad-primitive-output-rule", 0, BodyOrder::NeqUfView);
    match &mut rule.body[0].head {
        RuleBodyCall::Primitive { output, .. } => *output = ColumnTy::Id,
        _ => unreachable!(),
    }
    assert_rejected_preserves_rule_id(&mut primitive_output, rule, "ValueNeq");

    let mut primitive_arity = Fixture::one_id("bad-primitive-arity");
    let mut rule =
        primitive_arity.marker_rule("bad-primitive-arity-rule", 0, BodyOrder::ViewUfNeq);
    inequality_atom(&mut rule).args.pop();
    assert_rejected_preserves_rule_id(&mut primitive_arity, rule, "wrong arity");

    let mut roles = Fixture::one_id("bad-primitive-roles");
    let mut rule = roles.marker_rule("bad-primitive-roles-rule", 0, BodyOrder::ViewUfNeq);
    inequality_atom(&mut rule).args.swap(0, 1);
    assert_rejected_preserves_rule_id(&mut roles, rule, "inequality lhs");

    let mut order = Fixture::one_id("bad-action-order");
    let mut rule = order.marker_rule("bad-action-order-rule", 0, BodyOrder::NeqUfView);
    rule.head.reverse();
    assert_rejected_preserves_rule_id(&mut order, rule, "first action");

    let mut change = Fixture::one_id("bad-change-kind");
    let mut rule = change.marker_rule("bad-change-kind-rule", 0, BodyOrder::UfViewNeq);
    match &mut rule.head[1] {
        CoreAction::Change(kind, _, _) => *kind = Change::Subsume,
        _ => unreachable!(),
    }
    assert_rejected_preserves_rule_id(&mut change, rule, "must be Delete");

    let mut action_target = Fixture::one_id("bad-action-target");
    let mut rule = action_target.marker_rule("bad-action-target-rule", 0, BodyOrder::ViewUfNeq);
    match &mut rule.head[0] {
        CoreAction::SetRow(call, _, _) => {
            *call = RuleActionCall::Primitive {
                id: action_target.tokens.neq,
                name: "opaque-non-table-target".to_string(),
                output: action_target.backend.unit_ty(),
            }
        }
        _ => unreachable!(),
    }
    assert_rejected_preserves_rule_id(&mut action_target, rule, "canonical marker Set");

    let mut action_unit = Fixture::one_id("bad-action-unit");
    let mut rule = action_unit.marker_rule("bad-action-unit-rule", 0, BodyOrder::NeqUfView);
    match &mut rule.head[0] {
        CoreAction::SetRow(_, _, values) => values[0] = literal(Value::new(17), ColumnTy::Id),
        _ => unreachable!(),
    }
    assert_rejected_preserves_rule_id(&mut action_unit, rule, "Unit literal");

    let mut flags = Fixture::one_id("bad-flags");
    let mut rule = flags.marker_rule("bad-flags-rule", 0, BodyOrder::ViewUfNeq);
    rule.no_decomp = true;
    assert_rejected_preserves_rule_id(&mut flags, rule, "seminaive and decomposed");

    let mut seminaive = Fixture::one_id("bad-seminaive");
    let mut rule = seminaive.marker_rule("bad-seminaive-rule", 0, BodyOrder::UfViewNeq);
    rule.seminaive = false;
    assert_rejected_preserves_rule_id(&mut seminaive, rule, "seminaive and decomposed");

    let mut config = Fixture::with_marker_config("bad-marker-config", |config| {
        config.merge = MergeFn::Old;
    });
    let rule = config.marker_rule("bad-marker-config-rule", 0, BodyOrder::NeqUfView);
    assert_rejected_preserves_rule_id(&mut config, rule, "incompatible configuration");

    let unit_value = canonical_unit(&Backend::new().base);
    let mut default = Fixture::with_marker_config("bad-marker-default", |config| {
        config.default = DefaultVal::Const(unit_value);
    });
    let rule = default.marker_rule("bad-marker-default-rule", 0, BodyOrder::UfViewNeq);
    assert_rejected_preserves_rule_id(&mut default, rule, "incompatible configuration");

    let mut identity = Fixture::with_marker_config("bad-marker-identity", |config| {
        config.n_identity_vals = Some(1);
    });
    let rule = identity.marker_rule("bad-marker-identity-rule", 0, BodyOrder::ViewUfNeq);
    assert_rejected_preserves_rule_id(&mut identity, rule, "incompatible configuration");

    let mut subsumable = Fixture::with_marker_config("bad-marker-subsumable", |config| {
        config.can_subsume = true;
    });
    let rule = subsumable.marker_rule("bad-marker-subsumable-rule", 0, BodyOrder::NeqUfView);
    assert_rejected_preserves_rule_id(&mut subsumable, rule, "incompatible configuration");

    let mut alias = Fixture::one_id("bad-alias");
    let mut rule = alias.marker_rule("bad-alias-rule", 0, BodyOrder::ViewUfNeq);
    let uf = body_atom(&mut rule, alias.uf);
    uf.args[2] = uf.args[1];
    assert_rejected_preserves_rule_id(&mut alias, rule, "aliases structurally distinct");

    let mut uf_config = Fixture::one_id("bad-uf-config");
    let original_uf = uf_config.uf;
    let merge = uf_config.union().merge(original_uf, false);
    let malformed_uf =
        uf_config.backend.add_table(union_find_config("opaque-non-self-displacing-uf", merge));
    let mut rule = uf_config.marker_rule("bad-uf-config-rule", 0, BodyOrder::UfViewNeq);
    retarget(&mut rule, original_uf, malformed_uf);
    assert_rejected_preserves_rule_id(&mut uf_config, rule, "incompatible UF");

    let mut orientation = Fixture::one_id("bad-uf-orientation");
    let original_uf = orientation.uf;
    let predicted = orientation.backend.egraph.peek_next_function_id();
    let merge = orientation.union().merge(predicted, true);
    let opposite = orientation
        .backend
        .add_table(union_find_config("opaque-opposite-orientation-uf", merge));
    assert_eq!(opposite, predicted);
    let mut rule = orientation.marker_rule("bad-uf-orientation-rule", 0, BodyOrder::NeqUfView);
    retarget(&mut rule, original_uf, opposite);
    assert_rejected_preserves_rule_id(&mut orientation, rule, "incompatible UF");
}

#[test]
fn marker_outer_near_shapes_explicitly_fall_through_without_allocating_rule_ids() {
    let mut both_ordered = Fixture::one_id("both-ordered-union");
    let mut rule = both_ordered.marker_rule("both-ordered-union-rule", 0, BodyOrder::ViewUfNeq);
    retarget(&mut rule, both_ordered.marker, both_ordered.view);
    assert_fallthrough_preserves_rule_id(&mut both_ordered, rule);

    let mut path = Fixture::one_id("path-near-shape");
    let rule = path.path_rule("path-near-shape-rule", path.uf);
    assert_fallthrough_preserves_rule_id(&mut path, rule);

    let mut container = Fixture::one_id("container-near-shape");
    let mut rule = container.marker_rule("container-near-shape-rule", 0, BodyOrder::NeqUfView);
    body_atom(&mut rule, container.uf).head = RuleBodyCall::Primitive {
        id: container.tokens.neq,
        name: "opaque-container-rebuild".to_string(),
        output: ColumnTy::Id,
    };
    assert_fallthrough_preserves_rule_id(&mut container, rule);

    let mut custom = Fixture::one_id("custom-block-near-shape");
    let custom_block = custom.backend.table(
        "opaque-custom-block",
        vec![ColumnTy::Id; 3],
        1,
        MergeFn::Block { actions: Vec::new(), result: Box::new(MergeFn::Old) },
        false,
    );
    let mut rule = custom.marker_rule("custom-block-near-shape-rule", 0, BodyOrder::UfViewNeq);
    retarget(&mut rule, custom.uf, custom_block);
    assert_fallthrough_preserves_rule_id(&mut custom, rule);

    let mut outer = Fixture::one_id("outer-fallthrough");
    let mut rule = outer.marker_rule("outer-fallthrough-rule", 0, BodyOrder::ViewUfNeq);
    retarget(&mut rule, outer.uf, outer.sym);
    assert_fallthrough_preserves_rule_id(&mut outer, rule);

    let mut direct = Fixture::one_id("ordinary-direct");
    let mut rule = direct.marker_rule("ordinary-direct-rule", 0, BodyOrder::UfViewNeq);
    let args = body_atom(&mut rule, direct.marker).args.clone();
    rule.body = vec![atom(direct.marker, ReadMode::Live, args)];
    rule.head.remove(0);
    assert!(falls_through(&direct, &rule));
    assert_eq!(direct.backend.add_rule(&rule).unwrap(), RuleId::new(0));

    let mut standard = Fixture::one_id("ordinary-standard");
    let rule = standard.eq_rule("ordinary-standard-rule", 0, BodyOrder::ViewUfNeq);
    assert!(falls_through(&standard, &rule));
    assert_eq!(standard.backend.add_rule(&rule).unwrap(), RuleId::new(0));
}

#[test]
fn permuted_marker_bodies_give_one_plan_and_exact_statements() {
    let keys = vec![ColumnTy::Id, ColumnTy::Id];
    for order in [BodyOrder::ViewUfNeq, BodyOrder::NeqUfView, BodyOrder::UfViewNeq] {
        let mut fixture = Fixture::with_keys("marker", keys.clone(), |_| {});
        let rule = fixture.marker_rule("marker", 1, order);
        let id = fixture.backend.add_rule(&rule).unwrap();
        let plan = match fixture.backend.plan(id) {
            CompiledRule::MarkerRekey(plan) => plan,
            other => panic!("not a marker plan: {other:?}"),
        };
        assert_eq!(plan.marker, fixture.marker);
        assert_eq!((plan.n_keys, plan.key_index), (2, 1));
        assert_eq!(plan.arity(), 3);
        assert_eq!(plan.union_find.target, fixture.uf);
        // Tables 0 to 2 hold evidence; 3 is the parent map, 4 the View.
        assert_eq!(
            plan.materialize_sql("egglog_marker_0", 7),
            "CREATE TEMP TABLE egglog_marker_0 AS
             WITH bindings AS (
                 SELECT DISTINCT marker_row.c0 AS c0, marker_row.c1 AS c1, uf_row.c1 AS c2
                 FROM egglog_function_5 AS marker_row
                 JOIN egglog_function_3 AS uf_row
                   ON marker_row.c1 IS NOT DISTINCT FROM uf_row.c0
                 WHERE marker_row.c1 IS DISTINCT FROM uf_row.c1
                   AND (marker_row.__generation >= CAST('7' AS UBIGINT)
                       OR uf_row.__generation >= CAST('7' AS UBIGINT))
             )
             SELECT bindings.*,
                    row_number() OVER (ORDER BY c0, c1, c2) AS __match_ordinal
             FROM bindings"
        );
        assert_eq!(
            plan.delete_sql("egglog_marker_0"),
            "DELETE FROM egglog_function_5 AS existing
             WHERE EXISTS (SELECT 1 FROM egglog_marker_0 AS staged WHERE \
             existing.c0 IS NOT DISTINCT FROM staged.c0 AND \
             existing.c1 IS NOT DISTINCT FROM staged.c1)"
        );
        assert_eq!(
            plan.create_head_stage_sql("egglog_marker_0", "egglog_marker_head_0"),
            "CREATE TEMP TABLE egglog_marker_head_0 AS
             SELECT c0, c2 AS c1, CAST(TRUE AS BOOLEAN) AS c2, __match_ordinal AS __ordinal
             FROM egglog_marker_0"
        );
    }
    assert_eq!(key_equality("l", "r", 1), "l.c0 IS NOT DISTINCT FROM r.c0");
}

#[test]
fn a_marker_joins_a_union_find_table_of_live_tokens() {
    let mut fixture = Fixture::one_id("stale-marker-union");
    let rule = fixture.marker_rule("stale-marker-union", 0, BodyOrder::ViewUfNeq);
    let stale = fixture.tokens.select_max;
    fixture.backend.free(stale);
    let error = fixture.backend.add_rule(&rule).unwrap_err();
    assert!(error.message.contains("incompatible UF merge"), "{}", error.message);
    assert!(error.report.contains("SelectMaxPayload"), "{}", error.report);
}

// ---------------------------------------------------------------------------
// Path compression.

#[test]
fn a_path_guard_of_another_primitive_consumes_no_rule_id() {
    let mut fixture = Fixture::one_id("fail-closed");
    let first = fixture.path_rule("fail-closed", fixture.uf);
    assert_eq!(fixture.backend.add_rule(&first).unwrap(), RuleId::new(0));
    let mut unsupported = fixture.path_rule("unsupported-primitive", fixture.uf);
    match &mut unsupported.body[2].head {
        RuleBodyCall::Primitive { id, name, .. } => {
            *id = fixture.tokens.ordering_min;
            *name = "!=".to_string();
        }
        _ => unreachable!(),
    }
    assert!(fixture.backend.add_rule(&unsupported).unwrap_err().message.contains("ValueNeq"));
    let valid = fixture.path_rule("still-valid", fixture.uf);
    let next = fixture.backend.add_rule(&valid).unwrap();
    assert_eq!(next.rep, 1, "failed admission must not consume RuleId 1");
}

/// Registers a mutated union-find table, without authenticating its merge.
fn add_mutated_path_union_find(
    fixture: &mut Fixture,
    name: &str,
    mutate: impl FnOnce(&mut MergeFn),
) -> FunctionId {
    let predicted = fixture.backend.egraph.peek_next_function_id();
    let mut merge = fixture.union().merge(predicted, false);
    mutate(&mut merge);
    let config = union_find_config(name, merge);
    let target = match fixture.backend.egraph.catalog.register_table(config, None) {
        Ok(target) => target,
        Err(error) => panic!("{name} was refused: {}", error.report(name)),
    };
    assert_eq!(target, predicted);
    target
}

fn assert_path_admission_rejected(
    fixture: &mut Fixture,
    target: FunctionId,
    name: &str,
    fragment: &str,
) {
    let rule = fixture.path_rule(name, target);
    let error = fixture.backend.add_rule(&rule).unwrap_err();
    assert!(error.message.contains(fragment), "{}", error.report);
}

fn first_binding(merge: &mut MergeFn) -> &mut MergeFn {
    match merge {
        MergeFn::Block { actions, .. } => match &mut actions[0] {
            MergeAction::Let { value, .. } => value,
            _ => unreachable!(),
        },
        _ => unreachable!(),
    }
}

#[test]
fn native_path_merge_tags_and_topology_are_authenticated_before_rule_id() {
    let mut fixture = Fixture::one_id("path-native-auth");
    let valid = fixture.path_rule("path-native-auth", fixture.uf);
    assert_eq!(fixture.backend.add_rule(&valid).unwrap(), RuleId::new(0));

    let hostile = fixture.backend.new_panic();
    let ordinary = add_mutated_path_union_find(&mut fixture, "ordinary-max-token", |merge| {
        match first_binding(merge) {
            MergeFn::Primitive { id, name, .. } => {
                *id = hostile;
                *name = "proof-of-max".to_string();
            }
            _ => unreachable!(),
        }
    });
    assert_path_admission_rejected(
        &mut fixture,
        ordinary,
        "ordinary max token",
        "SelectMaxPayload",
    );

    let select_min = fixture.tokens.select_min;
    let swapped = add_mutated_path_union_find(&mut fixture, "swapped-max-token", |merge| {
        match first_binding(merge) {
            MergeFn::Primitive { id, .. } => *id = select_min,
            _ => unreachable!(),
        }
    });
    assert_path_admission_rejected(
        &mut fixture,
        swapped,
        "swapped max token",
        "SelectMaxPayload",
    );

    // A table of the third merge is refused, so the merge itself is shown to
    // the validation that the rule would reach.
    let unit = fixture.backend.unit_ty();
    let predicted = fixture.backend.egraph.peek_next_function_id();
    let mut malformed = fixture.union().merge(predicted, false);
    match first_binding(&mut malformed) {
        MergeFn::Primitive { output, .. } => *output = unit,
        _ => unreachable!(),
    }
    let error = validate_union_find_merge(
        &fixture.backend.egraph.catalog,
        &fixture.backend.registries,
        predicted,
        &malformed,
    )
    .unwrap_err();
    assert!(error.message("malformed max signature").contains("SelectMaxPayload"), "{error:?}");
    assert!(fixture.backend.register(union_find_config("malformed-max-signature", malformed)).is_err());
    assert_eq!(fixture.backend.egraph.peek_next_function_id(), predicted);

    let topology = add_mutated_path_union_find(&mut fixture, "malformed-max-topology", |merge| {
        match first_binding(merge) {
            MergeFn::Primitive { args, .. } => args.swap(0, 2),
            _ => unreachable!(),
        }
    });
    assert_path_admission_rejected(
        &mut fixture,
        topology,
        "malformed max topology",
        "topology mismatch",
    );

    let valid = fixture.path_rule("valid-after-native-auth", fixture.uf);
    let next = fixture.backend.add_rule(&valid).unwrap();
    assert_eq!(next.rep, 1, "rejected native shapes must not consume ids");
}

fn remap_term(term: &mut AtomTerm, from: u32, to: u32) {
    if let AtomTerm::Var(variable) = term {
        if variable.id == from {
            variable.id = to;
        }
    }
}

fn remap_rule_role(rule: &mut RuleSpec, from: u32, to: u32) {
    for atom in &mut rule.body {
        for argument in &mut atom.args {
            remap_term(argument, from, to);
        }
    }
    for action in &mut rule.head {
        match action {
            CoreAction::Let(binding, _, arguments) => {
                if binding.id == from {
                    binding.id = to;
                }
                for argument in arguments {
                    remap_term(argument, from, to);
                }
            }
            CoreAction::LetAtomTerm(binding, source) => {
                if binding.id == from {
                    binding.id = to;
                }
                remap_term(source, from, to);
            }
            CoreAction::SetRow(_, arguments, values) => {
                for term in arguments.iter_mut().chain(values) {
                    remap_term(term, from, to);
                }
            }
            _ => unreachable!("a path rule has no other action"),
        }
    }
}

#[test]
fn admission_requires_all_eight_rule_roles_to_be_distinct() {
    // Each mutation preserves the intended join/alias edges while making one
    // semantic role reuse another role's numeric identity.
    for (label, from, to) in [
        ("inequality-output-v5", 5, 0),
        ("fresh-binding-v6", 6, 5),
        ("alias-binding-v7", 7, 6),
    ] {
        let mut fixture = Fixture::one_id(label);
        let first = fixture.path_rule(label, fixture.uf);
        assert_eq!(fixture.backend.add_rule(&first).unwrap(), RuleId::new(0));
        let mut invalid = fixture.path_rule(label, fixture.uf);
        remap_rule_role(&mut invalid, from, to);
        let error = fixture.backend.add_rule(&invalid).unwrap_err();
        assert!(
            error.message.contains("aliases structurally distinct variables"),
            "unexpected {label} admission error: {}",
            error.report
        );
        let valid = fixture.path_rule(&format!("{label}-valid"), fixture.uf);
        let next = fixture.backend.add_rule(&valid).unwrap();
        assert_eq!(next.rep, 1, "failed {label} admission consumed RuleId 1");
    }
}

#[test]
fn proof_targets_require_fail_default_and_no_identity_guard() {
    for (label, constant_default, n_identity_vals) in [
        ("non-fail-default", true, None),
        ("identity-guard", false, Some(1)),
    ] {
        let mut fixture = Fixture::one_id(label);
        let first = fixture.path_rule(label, fixture.uf);
        assert_eq!(fixture.backend.add_rule(&first).unwrap(), RuleId::new(0));
        let default = if constant_default {
            DefaultVal::Const(canonical_unit(&fixture.backend.base))
        } else {
            DefaultVal::Fail
        };
        let unit = fixture.backend.unit_ty();
        let malformed = fixture.backend.add_table(FunctionConfig {
            name: format!("{label}-malformed-proof-target"),
            schema: vec![ColumnTy::Id, ColumnTy::Id, ColumnTy::Id, unit],
            n_vals: 1,
            n_identity_vals,
            default,
            merge: MergeFn::AssertEq,
            can_subsume: false,
        });
        let mut invalid = fixture.path_rule(label, fixture.uf);
        match &mut invalid.head[2] {
            CoreAction::SetRow(RuleActionCall::Table { id }, _, _) => *id = malformed,
            _ => unreachable!(),
        }
        let error = fixture.backend.add_rule(&invalid).unwrap_err();
        assert!(
            error.message.contains("proof target"),
            "unexpected {label} admission error: {}",
            error.report
        );
        let valid = fixture.path_rule(&format!("{label}-valid"), fixture.uf);
        let next = fixture.backend.add_rule(&valid).unwrap();
        assert_eq!(next.rep, 1, "failed {label} admission consumed RuleId 1");
    }
}

#[test]
fn a_path_plan_names_its_tables_and_stages_both_edges() {
    let mut fixture = Fixture::one_id("path-plan");
    let rule = fixture.path_rule("path-plan", fixture.uf);
    let id = fixture.backend.add_rule(&rule).unwrap();
    let plan = match fixture.backend.plan(id) {
        CompiledRule::PathCompression(plan) => *plan,
        other => panic!("not a path plan: {other:?}"),
    };
    assert!(plan.seminaive);
    assert_eq!(plan.group_key(), (fixture.uf.rep, fixture.sym.rep, fixture.trans.rep));
    assert_eq!(
        plan.materialize_sql("egglog_path_0", 12),
        "CREATE TEMP TABLE egglog_path_0 AS
             WITH bindings AS (
                 SELECT DISTINCT
                        first.c0 AS c0,
                        first.c1 AS c1,
                        first.c2 AS c2,
                        second.c1 AS c3,
                        second.c2 AS c4
                 FROM egglog_function_3 AS first
                 JOIN egglog_function_3 AS second
                   ON first.c1 IS NOT DISTINCT FROM second.c0
                 WHERE first.__subsumed = FALSE
                   AND second.__subsumed = FALSE
                   AND first.c1 IS DISTINCT FROM second.c1
                   AND (first.__generation >= CAST('12' AS UBIGINT)
                       OR second.__generation >= CAST('12' AS UBIGINT))
             )
             SELECT bindings.*,
                    row_number() OVER (ORDER BY c0, c1, c2, c3, c4)
                        AS __match_ordinal
             FROM bindings"
    );
}

#[test]
fn the_rule_name_is_only_in_the_diagnostic() {
    let fixture = Fixture::one_id("rule-name");
    let left = fixture.path_rule("left", fixture.uf);
    let right = fixture.path_rule("right", fixture.uf);
    let catalog = &fixture.backend.egraph.catalog;
    let registries = &fixture.backend.registries;
    assert_eq!(
        compile_path_compression(catalog, registries, &left).unwrap(),
        compile_path_compression(catalog, registries, &right).unwrap()
    );
    let none = AuthorityRegistries::new();
    let refused_left = compile_path_compression(catalog, &none, &left).unwrap_err();
    let refused_right = compile_path_compression(catalog, &none, &right).unwrap_err();
    assert!(refused_left.message(&left.name).contains("left-completely-renamed-rule"));
    assert_eq!(
        refused_left.message("one name").replace("one name", "another"),
        refused_right.message("another")
    );
}

// ---------------------------------------------------------------------------
// Standard rebuild.

fn rebuild_plan(fixture: &Fixture, id: RuleId) -> &StandardRebuildPlan {
    match fixture.backend.plan(id) {
        CompiledRule::StandardRebuild(plan) => plan,
        other => panic!("not a rebuild plan: {other:?}"),
    }
}

#[test]
fn eq_key_rebuild_stages_the_stale_key_in_every_body_order() {
    for order in [BodyOrder::ViewUfNeq, BodyOrder::NeqUfView, BodyOrder::UfViewNeq] {
        let mut fixture = Fixture::with_keys("eq-key", vec![ColumnTy::Id; 2], |_| {});
        let rule = fixture.eq_rule("eq-key", 1, order);
        let id = fixture.backend.add_rule(&rule).unwrap();
        let plan = rebuild_plan(&fixture, id);
        assert_eq!(plan.view.target, fixture.view);
        assert_eq!(plan.view.displaced_target, fixture.uf);
        assert_eq!(plan.union_find.target, fixture.uf);
        assert_eq!(plan.view.orientation, OrderedUnionOrientation::EclassToTerm);
        assert_eq!(plan.union_find.orientation, OrderedUnionOrientation::KeyToParent);
        assert_eq!(plan.kind.head_fresh_slots(), 1);
        match &plan.kind {
            StandardRebuildKind::EqKey { key_index, child_index_sql, congr } => {
                assert_eq!(*key_index, 1);
                assert_eq!(child_index_sql, "CAST('1' AS BIGINT)");
                assert_eq!(*congr, fixture.congr);
            }
            other => panic!("wrong kind: {other:?}"),
        }
        assert_eq!(
            plan.materialize_sql("egglog_rebuild_0", 3),
            "CREATE TEMP TABLE egglog_rebuild_0 AS
             WITH bindings AS (
                 SELECT DISTINCT view_row.c0 AS c0, view_row.c1 AS c1, view_row.c2 AS c2, \
             view_row.c3 AS c3, uf_row.c1 AS c4, uf_row.c2 AS c5
                 FROM egglog_function_4 AS view_row
                 JOIN egglog_function_3 AS uf_row
                   ON view_row.c1 IS NOT DISTINCT FROM uf_row.c0
                 WHERE view_row.c1 IS DISTINCT FROM uf_row.c1
                   AND (view_row.__generation >= CAST('3' AS UBIGINT)
                       OR uf_row.__generation >= CAST('3' AS UBIGINT))
             )
             SELECT bindings.*,
                    row_number() OVER (ORDER BY c0, c1, c2, c3, c4, c5) AS __match_ordinal
             FROM bindings"
        );
    }
}

#[test]
fn eclass_rebuild_stages_the_identity_and_allocates_twice() {
    let mut fixture = Fixture::one_id("eclass");
    let rule = fixture.eclass_rule("eclass", BodyOrder::UfViewNeq);
    let id = fixture.backend.add_rule(&rule).unwrap();
    let plan = rebuild_plan(&fixture, id);
    assert_eq!(plan.kind.head_fresh_slots(), 2);
    match &plan.kind {
        StandardRebuildKind::EclassOutput { sym, trans } => {
            assert_eq!((*sym, *trans), (fixture.sym, fixture.trans));
        }
        other => panic!("wrong kind: {other:?}"),
    }
    let sql = plan.materialize_sql("egglog_rebuild_1", 0);
    assert!(sql.contains("ON view_row.c1 IS NOT DISTINCT FROM uf_row.c0"), "{sql}");
}

#[test]
fn malformed_rebuild_rules_are_refused_with_their_reason() {
    let mut fixture = Fixture::one_id("malformed-rebuild");
    let mut refused = |mutate: &dyn Fn(&Fixture, &mut RuleSpec), fragment: &str| {
        let mut rule = fixture.eq_rule("malformed", 0, BodyOrder::ViewUfNeq);
        mutate(&fixture, &mut rule);
        let error = fixture.backend.add_rule(&rule).unwrap_err();
        assert!(error.message.contains(fragment), "{fragment}: {}", error.report);
    };
    refused(&|_, rule| rule.seminaive = false, "must be seminaive and decomposed");
    refused(&|_, rule| rule.no_decomp = true, "must be seminaive and decomposed");
    refused(
        &|fixture, rule| match &mut body_atom(rule, fixture.view).head {
            RuleBodyCall::Table { read, .. } => *read = ReadMode::Live,
            _ => unreachable!(),
        },
        "requires All table atoms",
    );
    refused(
        &|_, rule| match &mut inequality_atom(rule).head {
            RuleBodyCall::Primitive { name, .. } => *name = "<".to_string(),
            _ => unreachable!(),
        },
        "requires `!= (Id, Id) -> Unit`",
    );
    refused(
        &|_, rule| {
            inequality_atom(rule).args.pop();
        },
        "inequality has the wrong arity",
    );
    refused(
        &|_, rule| match &mut rule.head[2] {
            CoreAction::SetRow(_, keys, _) => {
                keys.pop();
            }
            _ => unreachable!(),
        },
        "Congr Set must have four keys",
    );
    refused(
        &|fixture, rule| match &mut rule.head[3] {
            CoreAction::SetRow(RuleActionCall::Table { id }, _, _) => *id = fixture.uf,
            _ => unreachable!(),
        },
        "Condition failed: `table_action(rule_name, call, \"canonical View Set\")? == view` \
         (FunctionId(3) vs FunctionId(4))",
    );
    let valid = fixture.eq_rule("valid", 0, BodyOrder::ViewUfNeq);
    assert_eq!(fixture.backend.add_rule(&valid).unwrap(), RuleId::new(0));
}

#[test]
fn conditions_without_a_reason_are_reported_as_they_are_written() {
    let mut fixture = Fixture::one_id("conditions");
    let unit_ty = fixture.backend.unit_ty();
    let unit_rep = fixture.backend.egraph.catalog.types.unit.rep;
    let mut rebuild = |mutate: &dyn Fn(&mut RuleSpec), condition: &str| {
        let mut rule = fixture.eq_rule("conditions", 0, BodyOrder::ViewUfNeq);
        mutate(&mut rule);
        let error = fixture.backend.add_rule(&rule).unwrap_err();
        assert_eq!(error.message, format!("Condition failed: {condition}"));
        assert_eq!(error.report, error.message);
    };
    rebuild(
        &|rule| match &mut rule.head[1] {
            CoreAction::LetAtomTerm(alias, _) => alias.ty = unit_ty,
            _ => unreachable!(),
        },
        &format!("`alias.ty == ColumnTy::Id` (Base(BaseValueId({unit_rep})) vs Id)"),
    );
    rebuild(
        &|rule| match &mut rule.head[3] {
            CoreAction::SetRow(_, keys, _) => {
                keys.pop();
            }
            _ => unreachable!(),
        },
        "`arguments.len() == key_vars.len()` (0 vs 1)",
    );
    rebuild(
        &|rule| match &mut rule.head[4] {
            CoreAction::Change(change, _, _) => *change = Change::Subsume,
            _ => unreachable!(),
        },
        "`*change == Change::Delete` (Subsume vs Delete)",
    );
    rebuild(
        &|rule| match &mut rule.head[4] {
            CoreAction::Change(_, RuleActionCall::Table { id }, _) => *id = FunctionId::new(3),
            _ => unreachable!(),
        },
        "`table_action(rule_name, call, \"stale View Delete\")? == view` \
         (FunctionId(3) vs FunctionId(4))",
    );

    let path = |mutate: &dyn Fn(&mut RuleSpec), condition: &str| {
        let mut rule = fixture.path_rule("conditions", fixture.uf);
        mutate(&mut rule);
        let catalog = &fixture.backend.egraph.catalog;
        let error =
            compile_path_compression(catalog, &fixture.backend.registries, &rule).unwrap_err();
        assert_eq!(error.message(&rule.name), format!("Condition failed: {condition}"));
    };
    let number = literal(Value::new(5), ColumnTy::Id);
    path(
        &|rule| match &mut rule.head[0] {
            CoreAction::Let(_, _, arguments) => arguments[0] = number,
            _ => unreachable!(),
        },
        "`scalar(base_values, literal.ty)? == ScalarSqlType::String` (Id vs String)",
    );
    path(
        &|rule| match &mut rule.head[2] {
            CoreAction::SetRow(_, _, values) => values[0] = number,
            _ => unreachable!(),
        },
        "`scalar(base_values, value.ty)? == ScalarSqlType::Unit` (Id vs Unit)",
    );
    path(
        &|rule| match &mut rule.head[3] {
            CoreAction::SetRow(RuleActionCall::Table { id }, _, _) => *id = FunctionId::new(4),
            _ => unreachable!(),
        },
        "`*id == union_find` (FunctionId(4) vs FunctionId(3))",
    );
}

#[test]
fn merge_conditions_without_a_reason_are_reported_as_they_are_written() {
    let fixture = Fixture::one_id("merge-conditions");
    let refused = |mutate: &dyn Fn(&mut Vec<MergeAction>), condition: &str| {
        let mut merge = fixture.union().merge(fixture.uf, false);
        match &mut merge {
            MergeFn::Block { actions, .. } => mutate(actions),
            _ => unreachable!(),
        }
        let error = validate_union_find_merge(
            &fixture.backend.egraph.catalog,
            &fixture.backend.registries,
            fixture.uf,
            &merge,
        )
        .unwrap_err();
        assert_eq!(error.message("any rule"), format!("Condition failed: {condition}"));
    };
    refused(
        &|actions| match &mut actions[1] {
            MergeAction::Let { slot, .. } => *slot = 7,
            _ => unreachable!(),
        },
        "`*actual == slot` (7 vs 1)",
    );
    refused(
        &|actions| match &mut actions[2] {
            MergeAction::Let { slot, .. } => *slot = 0,
            _ => unreachable!(),
        },
        "`*actual == slot` (0 vs 2)",
    );
    refused(
        &|actions| match &mut actions[3] {
            MergeAction::SetRow(_, arguments) => {
                arguments.pop();
            }
            _ => unreachable!(),
        },
        "`arguments.len() == expected.len()` (2 vs 3)",
    );
    refused(
        &|actions| match &mut actions[6] {
            MergeAction::SetRow(_, arguments) => {
                arguments.pop();
            }
            _ => unreachable!(),
        },
        "`*target == union_find && arguments.len() == 3`",
    );
}

#[test]
fn the_child_index_of_a_congruence_proof_names_its_key() {
    let mut fixture = Fixture::with_keys("child", vec![ColumnTy::Id; 2], |_| {});
    for wrong in [0, 2, -1, i64::MAX] {
        let mut rule = fixture.eq_rule("child", 1, BodyOrder::ViewUfNeq);
        let child = fixture.backend.integer(wrong);
        match &mut rule.head[2] {
            CoreAction::SetRow(_, keys, _) => keys[1] = child,
            _ => unreachable!(),
        }
        let error = fixture.backend.add_rule(&rule).unwrap_err();
        assert!(
            error.message.contains("child index does not name its rebuilt key"),
            "{wrong}: {}",
            error.report
        );
    }
}

#[test]
fn a_rebuilt_key_of_another_sort_keeps_its_own_union_find_table() {
    let mut fixture = Fixture::one_id("two-sorts");
    let output_uf = fixture.uf;
    let key_uf = fixture.union_find("key-sort-parent-map");
    fixture.uf = key_uf;
    let rule = fixture.eq_rule("two-sorts", 0, BodyOrder::ViewUfNeq);
    let id = fixture.backend.add_rule(&rule).unwrap();
    let plan = rebuild_plan(&fixture, id);
    assert_eq!(plan.union_find.target, key_uf);
    assert_eq!(plan.displaced_union_find.target, output_uf);
    // The identity is of the output sort, whose own table it has to join.
    let rule = fixture.eclass_rule("two-sorts-eclass", BodyOrder::ViewUfNeq);
    let error = fixture.backend.add_rule(&rule).unwrap_err();
    assert!(error.message.contains("must join the View output UF"), "{}", error.report);
}

#[test]
fn a_rule_has_at_most_one_structural_family() {
    let mut fixture = Fixture::one_id("families");
    let path = fixture.path_rule("path", fixture.uf);
    let rebuild = fixture.eq_rule("rebuild", 0, BodyOrder::ViewUfNeq);
    let marker = fixture.marker_rule("marker", 0, BodyOrder::ViewUfNeq);
    let catalog = &fixture.backend.egraph.catalog;
    let owners = |rule: &RuleSpec| {
        [
            looks_like_path_compression(rule),
            compile_standard_rebuild(catalog, &fixture.backend.base, rule).unwrap().is_some(),
            compile_marker_rekey(catalog, &fixture.backend.registries, rule).unwrap().is_some(),
        ]
    };
    assert_eq!(owners(&path), [true, false, false]);
    assert_eq!(owners(&rebuild), [false, true, false]);
    assert_eq!(owners(&marker), [false, false, true]);
}

#[test]
fn table_and_display_names_do_not_change_structural_plans() {
    let mut plans = Vec::new();
    for (name, shown) in [("one prefix", "shown"), ("another '); --", "other display name")] {
        let mut fixture = Fixture::one_id(name);
        let mut path = fixture.path_rule("path", fixture.uf);
        let mut marker = fixture.marker_rule("marker", 0, BodyOrder::ViewUfNeq);
        for rule in [&mut path, &mut marker] {
            match &mut inequality_atom(rule).head {
                RuleBodyCall::Primitive { name, .. } => *name = shown.to_string(),
                _ => unreachable!(),
            }
        }
        match &mut path.head[0] {
            CoreAction::Let(_, RuleActionCall::Primitive { name, .. }, _) => {
                *name = shown.to_string();
            }
            _ => unreachable!(),
        }
        let rebuild = fixture.eq_rule("rebuild", 0, BodyOrder::ViewUfNeq);
        let mut texts = Vec::new();
        for rule in [path, marker, rebuild] {
            let id = fixture.backend.add_rule(&rule).unwrap();
            texts.push(format!("{:?}", fixture.backend.plan(id)));
        }
        plans.push(texts);
    }
    assert_eq!(plans[0], plans[1]);
}

#[test]
fn two_unknown_tables_are_named_in_body_order() {
    let fixture = Fixture::one_id("unknown");
    let unknown = [FunctionId::new(70), FunctionId::new(80)];
    for order in [BodyOrder::ViewUfNeq, BodyOrder::UfViewNeq] {
        let mut rule = fixture.marker_rule("unknown", 0, order);
        retarget(&mut rule, fixture.marker, unknown[0]);
        retarget(&mut rule, fixture.uf, unknown[1]);
        let error = compile_marker_rekey(
            &fixture.backend.egraph.catalog,
            &fixture.backend.registries,
            &rule,
        )
        .unwrap_err();
        let first = table_of(&rule.body[0]).unwrap();
        assert_eq!(
            error.message(""),
            format!("DuckDB has no function table with id {}", first.rep)
        );
    }
}
