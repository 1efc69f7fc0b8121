use std::collections::BTreeMap;

use egglog_core_relations::{BaseValues, Boxed};
use egglog_duckdb::action_plan::{ScalarActionPlan, ScalarActionSlotSource, ScalarEffectKind};
use egglog_duckdb::authority::{Authority, AuthorityRegistries, FdDescriptor, NativePrimitive};
use egglog_duckdb::base::{canonical_unit, BaseTypes, ScalarSqlType};
use egglog_duckdb::catalog::LiteralSql;
use egglog_duckdb::egraph::{compile_rule, CompiledRule, EGraph, RuleExecutionStats, RunStep};
use egglog_duckdb::ir::{
    Atom, AtomTerm, BaseValueId, Change, ColumnTy, CoreAction, DefaultVal, ExternalFunctionId,
    FunctionConfig, FunctionId, MergeAction, MergeFn, ReadMode, RuleActionCall, RuleBodyCall,
    RuleId, RuleSpec, RuleValue, RuleVar, Value,
};
use egglog_duckdb::rejection::Rejection;
use egglog_duckdb::scalar_expr::{ScalarAuthority, ScalarForm, SqlPiece};
use egglog_numeric_id::NumericId;
use ordered_float::OrderedFloat;

/// A backend without an engine: base values, live authorities and the tables
/// and rules that were admitted.
struct Backend {
    egraph: EGraph,
    base: BaseValues,
    registries: AuthorityRegistries,
    freed: Vec<u32>,
    next_token: u32,
    strings: BTreeMap<u32, String>,
}

/// A refused rule, as its diagnostic and as its diagnostic with the cause.
#[derive(Debug)]
struct Refused {
    message: String,
    report: String,
}

impl Backend {
    fn new() -> Backend {
        let mut base = BaseValues::default();
        let float = base.register_type::<Boxed<OrderedFloat<f64>>>();
        let types = BaseTypes::register(&mut base, BaseValueId { rep: float.rep() });
        let mut egraph = EGraph::new(types);
        egraph.catalog.literals.push(LiteralSql {
            scalar: ScalarSqlType::Unit,
            value: canonical_unit(&base),
            sql: "CAST(TRUE AS BOOLEAN)".to_string(),
        });
        let id = ColumnTy::Id;
        let ids = |count: usize| vec![id; count];
        let unit = ColumnTy::Base(types.unit);
        for (tag, inputs, output, text) in [
            (NativePrimitive::ValueNeq, ids(2), unit, "neq"),
            (NativePrimitive::SelectMinPayload, ids(4), id, "select_min"),
            (NativePrimitive::SelectMaxPayload, ids(4), id, "select_max"),
            (NativePrimitive::OrderingMin, ids(2), id, "least"),
            (NativePrimitive::OrderingMax, ids(2), id, "greatest"),
        ] {
            let mut value = vec![SqlPiece::Text(format!("{text}("))];
            for index in 0..inputs.len() {
                if index > 0 {
                    value.push(SqlPiece::Text(", ".to_string()));
                }
                value.push(SqlPiece::Input(index));
            }
            value.push(SqlPiece::Text(")".to_string()));
            let defined = match tag {
                NativePrimitive::ValueNeq => Some(vec![
                    SqlPiece::Input(0),
                    SqlPiece::Text(" IS DISTINCT FROM ".to_string()),
                    SqlPiece::Input(1),
                ]),
                _ => None,
            };
            egraph.catalog.forms.push(ScalarForm {
                authority: ScalarAuthority::Native(tag),
                inputs,
                output,
                value,
                defined,
            });
        }
        Backend {
            egraph,
            base,
            registries: AuthorityRegistries::new(),
            freed: Vec::new(),
            next_token: 0,
            strings: BTreeMap::new(),
        }
    }

    fn unit_ty(&self) -> ColumnTy {
        ColumnTy::Base(self.egraph.catalog.types.unit)
    }

    fn string_ty(&self) -> ColumnTy {
        ColumnTy::Base(self.egraph.catalog.types.string)
    }

    fn integer_ty(&self) -> ColumnTy {
        ColumnTy::Base(self.egraph.catalog.types.integer)
    }

    fn boolean_ty(&self) -> ColumnTy {
        ColumnTy::Base(self.egraph.catalog.types.boolean)
    }

    fn know(&mut self, scalar: ScalarSqlType, value: Value, sql: String) {
        let literals = &mut self.egraph.catalog.literals;
        if !literals.iter().any(|known| known.scalar == scalar && known.value == value) {
            literals.push(LiteralSql { scalar, value, sql });
        }
    }

    fn unit(&self) -> AtomTerm {
        literal(canonical_unit(&self.base), self.unit_ty())
    }

    fn id(&mut self, rep: u32) -> AtomTerm {
        self.know(ScalarSqlType::Id, Value::new(rep), format!("CAST('{rep}' AS UBIGINT)"));
        literal(Value::new(rep), ColumnTy::Id)
    }

    fn string_value(&mut self, text: &str) -> Value {
        let value = Value::new(self.base.get(Boxed::new(text.to_string())).rep());
        self.strings.insert(value.rep, text.to_string());
        self.know(ScalarSqlType::String, value, format!("'{}'", text.replace('\'', "''")));
        value
    }

    fn string(&mut self, text: &str) -> AtomTerm {
        let value = self.string_value(text);
        literal(value, self.string_ty())
    }

    fn integer_value(&mut self, number: i64) -> Value {
        let value = Value::new(self.base.get(number).rep());
        self.know(ScalarSqlType::I64, value, format!("CAST('{number}' AS BIGINT)"));
        value
    }

    fn integer(&mut self, number: i64) -> AtomTerm {
        let value = self.integer_value(number);
        literal(value, self.integer_ty())
    }

    fn token(&mut self) -> ExternalFunctionId {
        let rep = match self.freed.pop() {
            Some(rep) => rep,
            None => {
                self.next_token += 1;
                self.next_token - 1
            }
        };
        ExternalFunctionId::new(rep)
    }

    fn mint(&mut self, authority: Authority) -> ExternalFunctionId {
        let token = self.token();
        self.registries.mint(token, authority);
        token
    }

    fn register_native(&mut self, tag: NativePrimitive) -> ExternalFunctionId {
        self.mint(Authority::Native(tag))
    }

    fn register_get_fresh(&mut self) -> ExternalFunctionId {
        self.mint(Authority::Fresh)
    }

    fn register_set_if_empty(
        &mut self,
        view_name: &str,
        n_keys: usize,
        out_arity: usize,
    ) -> ExternalFunctionId {
        let view_name = view_name.to_string();
        self.mint(Authority::Fd(FdDescriptor::SetIfEmpty { view_name, n_keys, out_arity }))
    }

    /// A token that nothing authenticates.
    fn new_panic(&mut self) -> ExternalFunctionId {
        self.token()
    }

    fn free(&mut self, token: ExternalFunctionId) {
        self.registries.free(token);
        self.freed.push(token.rep);
    }

    fn register(&mut self, config: FunctionConfig) -> Result<FunctionId, Rejection> {
        self.egraph.catalog.register_table(config, Some(&self.registries))
    }

    fn add_table(&mut self, config: FunctionConfig) -> FunctionId {
        let name = config.name.clone();
        match self.register(config) {
            Ok(id) => id,
            Err(error) => panic!("add_table({name}) failed: {}", error.report(&name)),
        }
    }

    fn table(
        &mut self,
        name: &str,
        schema: Vec<ColumnTy>,
        n_vals: usize,
        merge: MergeFn,
        can_subsume: bool,
    ) -> FunctionId {
        self.add_table(FunctionConfig {
            name: name.to_string(),
            schema,
            n_vals,
            n_identity_vals: None,
            default: DefaultVal::Fail,
            merge,
            can_subsume,
        })
    }

    fn add_rule(&mut self, rule: &RuleSpec) -> Result<RuleId, Refused> {
        let compiled = compile_rule(&self.egraph.catalog, &self.base, &self.registries, rule);
        let outcome = match compiled {
            Ok(Some(plan)) => Ok(plan),
            Ok(None) => panic!("no compiler owns rule {}", rule.name),
            Err(error) => Err(error),
        };
        self.egraph.add_rule(outcome).map_err(|error| Refused {
            message: error.message(&rule.name),
            report: error.report(&rule.name),
        })
    }

    fn authorize_run(&self, rules: &[RuleId]) -> Result<(), Rejection> {
        self.egraph.authorize_run(&rules.to_vec(), &self.registries)
    }

    fn plan(&self, id: RuleId) -> &CompiledRule {
        self.egraph.plan(id).expect("registered rule")
    }
}

fn literal(value: Value, ty: ColumnTy) -> AtomTerm {
    AtomTerm::Literal(RuleValue { value, ty })
}

fn var(id: u32, ty: ColumnTy) -> RuleVar {
    RuleVar { id, ty }
}

fn variable(variable: RuleVar) -> AtomTerm {
    AtomTerm::Var(variable)
}

fn table_call(id: FunctionId) -> RuleActionCall {
    RuleActionCall::Table { id }
}

fn set_action(id: FunctionId, keys: Vec<AtomTerm>, values: Vec<AtomTerm>) -> CoreAction {
    CoreAction::SetRow(table_call(id), keys, values)
}

fn change_action(change: Change, id: FunctionId, keys: Vec<AtomTerm>) -> CoreAction {
    CoreAction::Change(change, table_call(id), keys)
}

fn atom(id: FunctionId, read: ReadMode, args: Vec<AtomTerm>) -> Atom {
    Atom { head: RuleBodyCall::Table { id, read }, args }
}

fn rule(name: &str, seminaive: bool, body: Vec<Atom>, head: Vec<CoreAction>) -> RuleSpec {
    RuleSpec { name: name.to_string(), seminaive, no_decomp: false, body, head }
}

fn fresh_action(token: ExternalFunctionId, label: AtomTerm, binding: RuleVar) -> CoreAction {
    CoreAction::Let(
        binding,
        RuleActionCall::Primitive {
            id: token,
            name: "renamed fresh diagnostic".to_string(),
            output: ColumnTy::Id,
        },
        vec![label],
    )
}

#[derive(Clone, Copy)]
struct OrderedPrimitives {
    proof_min: ExternalFunctionId,
    proof_max: ExternalFunctionId,
    ordering_min: ExternalFunctionId,
    ordering_max: ExternalFunctionId,
    fresh: ExternalFunctionId,
}

struct Fixture {
    backend: Backend,
    primitives: OrderedPrimitives,
    merge_label: Value,
    rule_label: Value,
    ast: FunctionId,
    sym: FunctionId,
    old: FunctionId,
    nil: FunctionId,
    trans: FunctionId,
    rule: FunctionId,
    cons: FunctionId,
    term: FunctionId,
    uf: FunctionId,
    view: FunctionId,
    key_count: usize,
}

#[allow(clippy::too_many_arguments)]
fn ordered_union(
    primitives: OrderedPrimitives,
    label: Value,
    string: ColumnTy,
    unit: ColumnTy,
    unit_value: Value,
    sym: FunctionId,
    trans: FunctionId,
    displaced: FunctionId,
    eclass_to_term: bool,
) -> MergeFn {
    let proof = |id, name: &str| MergeFn::Primitive {
        id,
        name: name.to_string(),
        input: vec![ColumnTy::Id; 4],
        output: ColumnTy::Id,
        args: vec![
            MergeFn::OldCol(0),
            MergeFn::OldCol(1),
            MergeFn::NewCol(0),
            MergeFn::NewCol(1),
        ],
    };
    let ordering = |id, name: &str| MergeFn::Primitive {
        id,
        name: name.to_string(),
        input: vec![ColumnTy::Id; 2],
        output: ColumnTy::Id,
        args: vec![MergeFn::OldCol(0), MergeFn::NewCol(0)],
    };
    let fresh = || MergeFn::Primitive {
        id: primitives.fresh,
        name: "renamed-scalar-merge-fresh".to_string(),
        input: vec![string],
        output: ColumnTy::Id,
        args: vec![MergeFn::Const { value: label, ty: string }],
    };
    let unit = || MergeFn::Const { value: unit_value, ty: unit };
    let sym_input = if eclass_to_term { 1 } else { 0 };
    let (trans_first, trans_second) = if eclass_to_term { (0, 2) } else { (2, 1) };
    MergeFn::Block {
        actions: vec![
            MergeAction::Let {
                slot: 0,
                value: proof(primitives.proof_max, "renamed-scalar-select-max"),
            },
            MergeAction::Let {
                slot: 1,
                value: proof(primitives.proof_min, "renamed-scalar-select-min"),
            },
            MergeAction::Let { slot: 2, value: fresh() },
            MergeAction::SetRow(
                sym,
                vec![MergeFn::LetVar(sym_input), MergeFn::LetVar(2), unit()],
            ),
            MergeAction::Let { slot: 3, value: fresh() },
            MergeAction::SetRow(
                trans,
                vec![
                    MergeFn::LetVar(trans_first),
                    MergeFn::LetVar(trans_second),
                    MergeFn::LetVar(3),
                    unit(),
                ],
            ),
            MergeAction::SetRow(
                displaced,
                vec![
                    ordering(primitives.ordering_max, "renamed-scalar-ordering-max"),
                    ordering(primitives.ordering_min, "renamed-scalar-ordering-min"),
                    MergeFn::LetVar(3),
                ],
            ),
        ],
        result: Box::new(MergeFn::Columns(vec![
            ordering(primitives.ordering_min, "another-scalar-ordering-min"),
            MergeFn::LetVar(1),
        ])),
    }
}

fn assert_eq_unit_table(backend: &mut Backend, name: &str, mut keys: Vec<ColumnTy>) -> FunctionId {
    keys.push(backend.unit_ty());
    backend.table(name, keys, 1, MergeFn::AssertEq, false)
}

impl Fixture {
    fn new(prefix: &str) -> Fixture {
        Fixture::new_with(prefix, 2, false)
    }

    fn new_with(prefix: &str, key_count: usize, fake_fresh_token: bool) -> Fixture {
        let mut backend = Backend::new();
        let merge_label =
            backend.string_value(&format!("{prefix} merge label with 'quotes' and ; punctuation"));
        let rule_label = backend
            .string_value(&format!("{prefix} rule label '); DROP TABLE imaginary; --\nnext line"));
        let mut primitives = OrderedPrimitives {
            proof_min: backend.register_native(NativePrimitive::SelectMinPayload),
            proof_max: backend.register_native(NativePrimitive::SelectMaxPayload),
            ordering_min: backend.register_native(NativePrimitive::OrderingMin),
            ordering_max: backend.register_native(NativePrimitive::OrderingMax),
            fresh: backend.register_get_fresh(),
        };
        if fake_fresh_token {
            primitives.fresh = backend.new_panic();
        }
        let id = ColumnTy::Id;
        let string = backend.string_ty();
        let unit = backend.unit_ty();
        let unit_value = canonical_unit(&backend.base);
        let named = |role: &str| format!("{prefix} shuffled {role} role");
        let ast = assert_eq_unit_table(&mut backend, &named("ast"), vec![id, id]);
        let sym = assert_eq_unit_table(&mut backend, &named("sym"), vec![id, id]);
        let old = backend.table(&named("old lookup"), vec![id, id], 1, MergeFn::Old, false);
        let nil = assert_eq_unit_table(&mut backend, &named("nil"), vec![id]);
        let trans = assert_eq_unit_table(&mut backend, &named("trans"), vec![id, id, id]);
        let rule =
            assert_eq_unit_table(&mut backend, &named("rule"), vec![string, id, id, id, id]);
        let cons = assert_eq_unit_table(&mut backend, &named("cons"), vec![id, id, id]);
        let term = assert_eq_unit_table(&mut backend, &named("term"), vec![id; key_count + 1]);
        let predicted_uf = backend.egraph.peek_next_function_id();
        let uf = backend.add_table(FunctionConfig {
            name: named("displaced owner"),
            schema: vec![id, id, id],
            n_vals: 2,
            n_identity_vals: Some(1),
            default: DefaultVal::Fail,
            merge: ordered_union(
                primitives,
                merge_label,
                string,
                unit,
                unit_value,
                sym,
                trans,
                predicted_uf,
                false,
            ),
            can_subsume: false,
        });
        assert_eq!(uf, predicted_uf);
        let view = backend.add_table(FunctionConfig {
            name: format!("{prefix} selected body owner with hostile renaming"),
            schema: vec![id; key_count + 2],
            n_vals: 2,
            n_identity_vals: Some(1),
            default: DefaultVal::Fail,
            merge: ordered_union(
                primitives, merge_label, string, unit, unit_value, sym, trans, uf, true,
            ),
            can_subsume: true,
        });
        Fixture {
            backend,
            primitives,
            merge_label,
            rule_label,
            ast,
            sym,
            old,
            nil,
            trans,
            rule,
            cons,
            term,
            uf,
            view,
            key_count,
        }
    }

    fn unit_ty(&self) -> ColumnTy {
        self.backend.unit_ty()
    }

    fn string_ty(&self) -> ColumnTy {
        self.backend.string_ty()
    }

    /// The fifty lowered actions of one proof-producing rewrite.
    fn scalar_rule(&mut self, name: &str) -> RuleSpec {
        let id = ColumnTy::Id;
        let string = self.string_ty();
        let owner = var(10, id);
        let rewrite_owner = var(11, id);
        let view_proof = var(20, id);
        let label = var(31, string);
        let owner_proof = var(41, id);
        let f: Vec<RuleVar> = [
            50, 60, 70, 80, 100, 110, 120, 130, 140, 150, 160, 170, 190, 200,
        ]
        .iter()
        .map(|rep| var(*rep, id))
        .collect();
        let proof_list = var(90, id);
        let owner_alias = var(180, id);
        let v = variable;
        let unit = self.backend.unit();
        let token = self.primitives.fresh;
        let merge_label = literal(self.merge_label, string);
        let fresh = |binding| fresh_action(token, merge_label, binding);
        let body_keys: Vec<AtomTerm> =
            (0..self.key_count).map(|index| self.backend.id(index as u32 + 1)).collect();
        let constructed_keys: Vec<AtomTerm> = body_keys.iter().rev().copied().collect();
        let mut term_keys = constructed_keys.clone();
        term_keys.push(v(f[4]));

        let actions = vec![
            CoreAction::LetAtomTerm(label, literal(self.rule_label, string)),
            CoreAction::Let(owner_proof, table_call(self.old), vec![v(rewrite_owner)]),
            fresh(f[0]),
            set_action(self.sym, vec![v(owner_proof), v(f[0])], vec![unit]),
            fresh(f[1]),
            set_action(self.trans, vec![v(f[0]), v(view_proof), v(f[1])], vec![unit]),
            fresh(f[2]),
            set_action(self.nil, vec![v(f[2])], vec![unit]),
            fresh(f[3]),
            set_action(self.cons, vec![v(f[1]), v(f[2]), v(f[3])], vec![unit]),
            CoreAction::LetAtomTerm(proof_list, v(f[3])),
            fresh(f[4]),
            set_action(self.term, term_keys, vec![unit]),
            fresh(f[5]),
            set_action(self.ast, vec![v(f[4]), v(f[5])], vec![unit]),
            fresh(f[6]),
            set_action(self.ast, vec![v(f[4]), v(f[6])], vec![unit]),
            fresh(f[7]),
            set_action(
                self.rule,
                vec![v(label), v(proof_list), v(f[5]), v(f[6]), v(f[7])],
                vec![unit],
            ),
            set_action(self.old, vec![v(f[4])], vec![v(f[7])]),
            fresh(f[8]),
            set_action(self.ast, vec![v(rewrite_owner), v(f[8])], vec![unit]),
            fresh(f[9]),
            set_action(self.ast, vec![v(f[4]), v(f[9])], vec![unit]),
            fresh(f[10]),
            set_action(
                self.rule,
                vec![v(label), v(proof_list), v(f[8]), v(f[9]), v(f[10])],
                vec![unit],
            ),
            fresh(f[11]),
            set_action(self.trans, vec![v(f[10]), v(f[7]), v(f[11])], vec![unit]),
            set_action(self.view, constructed_keys, vec![v(rewrite_owner), v(f[11])]),
            CoreAction::LetAtomTerm(owner_alias, v(rewrite_owner)),
            fresh(f[12]),
            set_action(self.sym, vec![v(f[11]), v(f[12])], vec![unit]),
            fresh(f[13]),
            set_action(self.trans, vec![v(f[7]), v(f[12]), v(f[13])], vec![unit]),
        ];
        assert_eq!(actions.len(), 34);
        let mut lowered = vec![CoreAction::LetAtomTerm(rewrite_owner, v(owner))];
        for (ordinal, action) in actions.into_iter().enumerate() {
            match action {
                CoreAction::Let(binding, call, args) => {
                    let temporary = var(1_000 + ordinal as u32, binding.ty);
                    lowered.push(CoreAction::Let(temporary, call, args));
                    lowered.push(CoreAction::LetAtomTerm(binding, v(temporary)));
                }
                other => lowered.push(other),
            }
        }
        assert_eq!(lowered.len(), 50);
        let mut args = body_keys;
        args.push(v(owner));
        args.push(v(view_proof));
        rule(name, true, vec![atom(self.view, ReadMode::Live, args)], lowered)
    }
}

fn direct_canary_rule(fixture: &Fixture, name: &str) -> RuleSpec {
    let key = variable(var(900, ColumnTy::Id));
    let value = variable(var(901, ColumnTy::Id));
    rule(
        name,
        true,
        vec![atom(fixture.old, ReadMode::Live, vec![key, value])],
        vec![set_action(fixture.ast, vec![key, value], vec![fixture.backend.unit()])],
    )
}

fn one_value_set_rule(source: FunctionId, target: FunctionId, name: &str) -> RuleSpec {
    let key = variable(var(940, ColumnTy::Id));
    let value = variable(var(941, ColumnTy::Id));
    rule(
        name,
        true,
        vec![atom(source, ReadMode::Live, vec![key, value])],
        vec![set_action(target, vec![key], vec![value])],
    )
}

fn single_deferred_view_rule(old: FunctionId, view: FunctionId, name: &str) -> RuleSpec {
    let key = variable(var(910, ColumnTy::Id));
    let value = variable(var(911, ColumnTy::Id));
    rule(
        name,
        true,
        vec![atom(old, ReadMode::Live, vec![key, value])],
        vec![set_action(view, vec![key, value], vec![key, value])],
    )
}

fn single_deferred_uf_rule(
    source: FunctionId,
    target: FunctionId,
    unit: AtomTerm,
    name: &str,
) -> RuleSpec {
    let key = variable(var(920, ColumnTy::Id));
    let candidate = variable(var(921, ColumnTy::Id));
    let payload = variable(var(922, ColumnTy::Id));
    rule(
        name,
        true,
        vec![atom(source, ReadMode::Live, vec![key, candidate, payload, unit])],
        vec![set_action(target, vec![key], vec![candidate, payload])],
    )
}

fn selected_rejection(
    label: &str,
    should_accept: bool,
    mutate: impl FnOnce(&mut Fixture, &mut RuleSpec),
) {
    let mut fixture = Fixture::new(label);
    let mut invalid = fixture.scalar_rule(&format!("{label} invalid"));
    mutate(&mut fixture, &mut invalid);
    match (fixture.backend.add_rule(&invalid), should_accept) {
        (Ok(id), true) => assert_eq!(id, RuleId::new(0), "{label} generic admission"),
        (Err(error), false) => {
            assert!(
                error.report.contains("DuckDB scalar rule"),
                "{label} escaped selected admission: {}",
                error.report
            );
            let valid = fixture.scalar_rule(&format!("{label} valid"));
            assert_eq!(fixture.backend.add_rule(&valid).unwrap(), RuleId::new(0));
        }
        (Ok(id), false) => panic!("{label} unexpectedly admitted as {id:?}"),
        (Err(error), true) => panic!("{label} unexpectedly rejected: {}", error.report),
    }
}

/// The copy of a binding action that the rule already has.
fn copied_let(action: &CoreAction) -> CoreAction {
    match action {
        CoreAction::Let(binding, RuleActionCall::Table { id }, args) => {
            CoreAction::Let(*binding, table_call(*id), args.clone())
        }
        _ => unreachable!("only table lookups are copied"),
    }
}

fn let_binding(action: &mut CoreAction) -> &mut RuleVar {
    match action {
        CoreAction::Let(binding, _, _) => binding,
        _ => unreachable!("not a binding action"),
    }
}

fn let_token(action: &mut CoreAction) -> &mut ExternalFunctionId {
    match action {
        CoreAction::Let(_, RuleActionCall::Primitive { id, .. }, _) => id,
        _ => unreachable!("not a primitive binding"),
    }
}

fn set_target(action: &mut CoreAction) -> &mut FunctionId {
    match action {
        CoreAction::SetRow(RuleActionCall::Table { id }, _, _) => id,
        _ => unreachable!("not a table write"),
    }
}

fn set_keys(action: &mut CoreAction) -> &mut Vec<AtomTerm> {
    match action {
        CoreAction::SetRow(_, keys, _) => keys,
        _ => unreachable!("not a table write"),
    }
}

#[test]
fn selected_mutation_matrix_preserves_rule_id_zero() {
    selected_rejection("wrong seminaive", true, |_, rule| rule.seminaive = false);
    selected_rejection("wrong decomposition", true, |_, rule| rule.no_decomp = true);
    selected_rejection("wrong body mode", true, |_, rule| match &mut rule.body[0].head {
        RuleBodyCall::Table { read, .. } => *read = ReadMode::All,
        _ => unreachable!(),
    });
    selected_rejection("short action stream", true, |_, rule| {
        rule.head.pop();
    });
    selected_rejection("moved lookup", false, |_, rule| {
        rule.head.swap(2, 4);
    });
    selected_rejection("extra lookup", false, |_, rule| {
        rule.head[1] = copied_let(&rule.head[2]);
    });
    selected_rejection("use before binding", false, |_, rule| {
        let future = variable(*let_binding(&mut rule.head[7]));
        set_keys(&mut rule.head[6])[0] = future;
    });
    selected_rejection("ssa rebinding", false, |_, rule| {
        let owner = match rule.body[0].args[2] {
            AtomTerm::Var(owner) => owner,
            _ => unreachable!(),
        };
        *let_binding(&mut rule.head[4]) = owner;
    });
    selected_rejection("wrong fresh type", false, |fixture, rule| {
        let_binding(&mut rule.head[4]).ty = fixture.string_ty();
    });
    selected_rejection("wrong set arity", false, |_, rule| {
        set_keys(&mut rule.head[6]).pop();
    });
    selected_rejection("wrong head fresh token", false, |fixture, rule| {
        let token = fixture.backend.new_panic();
        *let_token(&mut rule.head[4]) = token;
    });
    selected_rejection("mixed live fresh tokens", true, |fixture, rule| {
        let token = fixture.backend.register_get_fresh();
        *let_token(&mut rule.head[7]) = token;
    });
    selected_rejection("wrong fresh signature", false, |fixture, rule| match &mut rule.head[4] {
        CoreAction::Let(_, RuleActionCall::Primitive { output, .. }, _) => {
            *output = fixture.unit_ty();
        }
        _ => unreachable!(),
    });
    selected_rejection("different old target", true, |fixture, rule| {
        let id = ColumnTy::Id;
        let replacement = fixture.backend.table(
            "second exact Old target",
            vec![id, id],
            1,
            MergeFn::Old,
            false,
        );
        *set_target(&mut rule.head[29]) = replacement;
    });
    selected_rejection("wrong ordinary config", false, |fixture, rule| {
        *set_target(&mut rule.head[12]) = fixture.old;
    });
    selected_rejection("second view set", false, |fixture, rule| {
        *set_target(&mut rule.head[46]) = fixture.view;
    });
    selected_rejection("wrong action kind", false, |fixture, rule| {
        rule.head[6] = change_action(Change::Delete, fixture.sym, vec![]);
    });
    for index in [0, 3, 5, 8, 11, 14, 18, 21, 24, 27, 31, 34, 37, 40, 45, 48] {
        selected_rejection(&format!("scaffolding alias {index}"), true, move |fixture, rule| {
            let replacement = fixture.backend.id(4_000_000 + index as u32);
            match &mut rule.head[index] {
                CoreAction::LetAtomTerm(_, source) => *source = replacement,
                _ => unreachable!("scaffolding index {index} must be an SSA alias"),
            }
        });
    }
}

#[test]
fn unsupported_merge_function_lookup_and_fd_reject_before_rule_id_and_state() {
    let mut fixture = Fixture::new("unsupported merge operations");
    let id = ColumnTy::Id;
    let tuple =
        fixture.backend.table("unsupported merge tuple", vec![id, id], 1, MergeFn::Old, false);
    let fd = fixture.backend.register_set_if_empty("unsupported merge fd", 1, 1);
    let targets = [
        ("Function", MergeFn::Function(tuple, vec![MergeFn::Old])),
        ("Lookup", MergeFn::Lookup(tuple, vec![MergeFn::Old])),
        (
            "FD",
            MergeFn::Primitive {
                id: fd,
                name: "unsupported merge fd".to_string(),
                input: vec![id, id],
                output: id,
                args: vec![MergeFn::Old, MergeFn::New],
            },
        ),
    ];
    for (label, merge) in targets {
        let target = fixture.backend.table(
            &format!("unsupported merge {label}"),
            vec![id, id],
            1,
            merge,
            false,
        );
        let refused = one_value_set_rule(
            fixture.old,
            target,
            &format!("unsupported merge {label} rule"),
        );
        let error = fixture.backend.add_rule(&refused).unwrap_err();
        assert!(error.report.contains(label), "{}", error.report);
        assert!(fixture.backend.egraph.last_rule_match_counts().is_empty());
        assert!(fixture.backend.egraph.last_rule_insert_counts().is_empty());
    }
    let valid = direct_canary_rule(&fixture, "valid after unsupported merges");
    assert_eq!(fixture.backend.add_rule(&valid).unwrap(), RuleId::new(0));
}

#[test]
fn table_registered_merge_authority_rejects_same_kind_aba_before_rule_id() {
    let mut fixture = Fixture::new("table registration merge ABA");
    let stale = fixture.primitives.proof_min;
    fixture.backend.free(stale);
    let replacement = fixture.backend.register_native(NativePrimitive::SelectMinPayload);
    assert_eq!(replacement, stale, "the canary requires same-id reuse");

    let refused = single_deferred_view_rule(
        fixture.old,
        fixture.view,
        "stale table registration merge authority",
    );
    let error = fixture.backend.add_rule(&refused).unwrap_err();
    assert!(error.report.contains("stale registration authority"), "{}", error.report);
    let valid = direct_canary_rule(&fixture, "valid after table ABA");
    assert_eq!(fixture.backend.add_rule(&valid).unwrap(), RuleId::new(0));
}

#[test]
fn self_consistent_nonfresh_token_is_rejected_before_rule_id() {
    let mut fixture = Fixture::new_with("duckdb fake fresh graph", 2, true);
    let refused = fixture.scalar_rule("fake fresh scalar rule");
    let error = fixture.backend.add_rule(&refused).unwrap_err();
    assert!(
        error.report.contains("unauthenticated or callback primitive token"),
        "{}",
        error.report
    );
    let valid = direct_canary_rule(&fixture, "valid after fake fresh");
    assert_eq!(fixture.backend.add_rule(&valid).unwrap(), RuleId::new(0));
}

#[test]
fn freed_fresh_token_reused_by_ordinary_callback_loses_authority() {
    let mut fixture = Fixture::new("duckdb stale fresh provenance");
    let stale = fixture.primitives.fresh;
    fixture.backend.free(stale);
    let reused = fixture.backend.new_panic();
    assert_eq!(reused, stale, "the external registry should reuse the freed id");

    let refused = fixture.scalar_rule("stale fresh scalar rule");
    let error = fixture.backend.add_rule(&refused).unwrap_err();
    assert!(
        error.report.contains("unauthenticated or callback primitive token"),
        "{}",
        error.report
    );
    let valid = direct_canary_rule(&fixture, "valid after stale fresh");
    assert_eq!(fixture.backend.add_rule(&valid).unwrap(), RuleId::new(0));
}

fn scalar_plan(compiled: &CompiledRule) -> &ScalarActionPlan {
    match compiled {
        CompiledRule::ScalarAction(plan) => plan,
        other => panic!("not a scalar plan: {other:?}"),
    }
}

#[test]
fn scalar_plan_reauthenticates_ordered_union_merge_tokens_after_same_kind_reuse() {
    let mut fixture = Fixture::new("duckdb stale merge provenance");
    let stale = fixture.primitives.proof_max;
    let spec = fixture.scalar_rule("stale merge-token scalar rule");
    let rule = fixture.backend.add_rule(&spec).unwrap();
    assert!(fixture.backend.authorize_run(&[rule]).is_ok());

    fixture.backend.free(stale);
    let replacement = fixture.backend.register_native(NativePrimitive::SelectMaxPayload);
    assert_eq!(replacement, stale);
    let error = fixture.backend.authorize_run(&[rule]).unwrap_err();
    assert!(error.message("").contains("freed or reused authority token"), "{error:?}");
}

#[test]
fn standalone_uf_plan_reauthenticates_native_and_fresh_tokens() {
    for stale_fresh in [false, true] {
        let label = if stale_fresh { "standalone fresh ABA" } else { "standalone native ABA" };
        let mut fixture = Fixture::new_with(label, 1, false);
        let id = ColumnTy::Id;
        let source = assert_eq_unit_table(
            &mut fixture.backend,
            &format!("{label} candidate source"),
            vec![id, id, id],
        );
        let spec =
            single_deferred_uf_rule(source, fixture.uf, fixture.backend.unit(), label);
        let rule = fixture.backend.add_rule(&spec).unwrap();
        let stale =
            if stale_fresh { fixture.primitives.fresh } else { fixture.primitives.proof_max };

        fixture.backend.free(stale);
        let replacement = if stale_fresh {
            fixture.backend.register_get_fresh()
        } else {
            fixture.backend.register_native(NativePrimitive::SelectMaxPayload)
        };
        assert_eq!(replacement, stale, "{label} must exercise same-id reuse");
        let error = fixture.backend.authorize_run(&[rule]).unwrap_err();
        assert!(
            error.message("").contains("freed or reused authority token"),
            "{label}: {error:?}"
        );
    }
}

#[derive(Clone, Copy)]
enum MutatedMergeAdmission {
    RegistrationReject,
    RuleReject,
    RuleAccept,
}

fn standalone_uf_admission(
    label: &str,
    expected: MutatedMergeAdmission,
    mutate: impl FnOnce(&mut FunctionConfig, FunctionId, FunctionId, &mut Fixture),
) {
    let mut fixture = Fixture::new_with(&format!("{label} fixture"), 1, false);
    let id = ColumnTy::Id;
    let source = assert_eq_unit_table(
        &mut fixture.backend,
        &format!("{label} standalone candidate source"),
        vec![id, id, id],
    );
    let unit_ty = fixture.unit_ty();
    let wrong_proof = fixture.backend.table(
        &format!("{label} wrong proof policy"),
        vec![id, id, unit_ty],
        1,
        MergeFn::Old,
        false,
    );
    let target = fixture.backend.egraph.peek_next_function_id();
    let mut config = FunctionConfig {
        name: format!("{label} renamed standalone UF target"),
        schema: vec![id, id, id],
        n_vals: 2,
        n_identity_vals: Some(1),
        default: DefaultVal::Fail,
        merge: ordered_union(
            fixture.primitives,
            fixture.merge_label,
            fixture.string_ty(),
            unit_ty,
            canonical_unit(&fixture.backend.base),
            fixture.sym,
            fixture.trans,
            target,
            false,
        ),
        can_subsume: false,
    };
    mutate(&mut config, target, wrong_proof, &mut fixture);
    let registration = fixture.backend.register(config);
    let unit = fixture.backend.unit();
    match (registration, expected) {
        (Err(_), MutatedMergeAdmission::RegistrationReject) => {
            let valid = single_deferred_uf_rule(
                source,
                fixture.uf,
                unit,
                &format!("{label} valid after registration rejection"),
            );
            assert_eq!(
                fixture.backend.add_rule(&valid).unwrap(),
                RuleId::new(0),
                "{label} registration rejection consumed a RuleId"
            );
        }
        (Ok(registered), MutatedMergeAdmission::RuleAccept) => {
            assert_eq!(registered, target);
            let accepted = single_deferred_uf_rule(
                source,
                target,
                unit,
                &format!("{label} mutated generic rule"),
            );
            assert_eq!(
                fixture.backend.add_rule(&accepted).unwrap(),
                RuleId::new(0),
                "{label} generic admission"
            );
        }
        (Ok(registered), MutatedMergeAdmission::RuleReject) => {
            assert_eq!(registered, target);
            let refused = single_deferred_uf_rule(
                source,
                target,
                unit,
                &format!("{label} rejected generic rule"),
            );
            let error = fixture.backend.add_rule(&refused).unwrap_err();
            assert!(
                error.report.contains("DuckDB scalar rule")
                    || error.report.contains("generic merge"),
                "{label} escaped generic admission boundary: {}",
                error.report
            );
            let valid = single_deferred_uf_rule(
                source,
                fixture.uf,
                unit,
                &format!("{label} valid after rule rejection"),
            );
            assert_eq!(
                fixture.backend.add_rule(&valid).unwrap(),
                RuleId::new(0),
                "{label} rule rejection consumed a RuleId"
            );
        }
        (Err(_), _) => panic!("{label} unexpectedly failed during registration"),
        (Ok(_), MutatedMergeAdmission::RegistrationReject) => {
            panic!("{label} unexpectedly passed registration")
        }
    }
}

fn ordered_union_actions_mut(config: &mut FunctionConfig) -> &mut Vec<MergeAction> {
    match &mut config.merge {
        MergeFn::Block { actions, .. } => actions,
        _ => unreachable!("ordered unions are blocks"),
    }
}

fn merge_token(action: &mut MergeAction) -> &mut ExternalFunctionId {
    match action {
        MergeAction::Let { value: MergeFn::Primitive { id, .. }, .. } => id,
        _ => unreachable!("not a primitive binding"),
    }
}

#[test]
fn standalone_uf_structural_mutations_have_exact_generic_admission_outcomes() {
    standalone_uf_admission("wrong schema", MutatedMergeAdmission::RegistrationReject, |config, _, _, fixture| {
        config.schema[2] = fixture.unit_ty();
    });
    standalone_uf_admission("wrong identity count", MutatedMergeAdmission::RuleAccept, |config, _, _, _| {
        config.n_identity_vals = Some(2);
    });
    standalone_uf_admission("wrong default", MutatedMergeAdmission::RuleAccept, |config, _, _, fixture| {
        config.default = DefaultVal::Const(canonical_unit(&fixture.backend.base));
    });
    standalone_uf_admission("wrong subsumption", MutatedMergeAdmission::RuleAccept, |config, _, _, _| {
        config.can_subsume = true;
    });
    standalone_uf_admission("wrong orientation", MutatedMergeAdmission::RuleAccept, |config, target, _, fixture| {
        config.merge = ordered_union(
            fixture.primitives,
            fixture.merge_label,
            fixture.string_ty(),
            fixture.unit_ty(),
            canonical_unit(&fixture.backend.base),
            fixture.sym,
            fixture.trans,
            target,
            true,
        );
    });
    standalone_uf_admission("wrong displaced target", MutatedMergeAdmission::RuleAccept, |config, _, _, fixture| {
        match &mut ordered_union_actions_mut(config)[6] {
            MergeAction::SetRow(displaced, _) => *displaced = fixture.uf,
            _ => unreachable!(),
        }
    });
    standalone_uf_admission("wrong action order", MutatedMergeAdmission::RuleAccept, |config, _, _, _| {
        ordered_union_actions_mut(config).swap(3, 4);
    });
    standalone_uf_admission("wrong displaced action", MutatedMergeAdmission::RuleReject, |config, _, _, _| {
        ordered_union_actions_mut(config)[6] =
            MergeAction::Union(MergeFn::OldCol(0), MergeFn::NewCol(0));
    });
    standalone_uf_admission("wrong proof target", MutatedMergeAdmission::RuleAccept, |config, _, wrong_proof, _| {
        match &mut ordered_union_actions_mut(config)[3] {
            MergeAction::SetRow(target, _) => *target = wrong_proof,
            _ => unreachable!(),
        }
    });
    standalone_uf_admission("wrong primitive tag", MutatedMergeAdmission::RegistrationReject, |config, _, _, fixture| {
        *merge_token(&mut ordered_union_actions_mut(config)[0]) =
            fixture.primitives.ordering_max;
    });
    standalone_uf_admission("wrong fresh authority", MutatedMergeAdmission::RuleReject, |config, _, _, fixture| {
        let ordinary = fixture.backend.new_panic();
        *merge_token(&mut ordered_union_actions_mut(config)[2]) = ordinary;
    });
}

#[test]
fn merge_old_cannot_be_reinterpreted_through_a_sql_compatible_base_type() {
    let mut backend = Backend::new();
    let unit = backend.unit_ty();
    let boolean = backend.boolean_ty();
    let target = backend.table(
        "unit target for mistyped Old",
        vec![unit, unit],
        1,
        MergeFn::AssertEq,
        false,
    );
    let next = backend.egraph.peek_next_function_id();
    let error = backend
        .register(FunctionConfig {
            name: "Bool owner cannot feed Unit target".to_string(),
            schema: vec![ColumnTy::Id, boolean],
            n_vals: 1,
            n_identity_vals: None,
            default: DefaultVal::Fail,
            merge: MergeFn::Block {
                actions: vec![MergeAction::SetRow(target, vec![MergeFn::Old, MergeFn::Old])],
                result: Box::new(MergeFn::Old),
            },
            can_subsume: false,
        })
        .expect_err("mistyped Old must fail during table registration");
    assert!(error.message("").contains("mistyped Old in merge program"), "{error:?}");
    assert_eq!(backend.egraph.peek_next_function_id(), next);
}

#[test]
fn unrelated_shapes_preserve_existing_fallthrough_diagnostics() {
    let mut no_view_set = Fixture::new("duckdb no View head");
    let mut invalid = no_view_set.scalar_rule("unselected without View Set");
    *set_target(&mut invalid.head[42]) = no_view_set.old;
    no_view_set.backend.add_rule(&invalid).unwrap_err();
    let valid = no_view_set.scalar_rule("valid after unselected head");
    assert_eq!(no_view_set.backend.add_rule(&valid).unwrap(), RuleId::new(0));

    let mut empty = Fixture::new("duckdb empty body");
    let mut invalid = empty.scalar_rule("unselected empty body");
    invalid.body.clear();
    let error = empty.backend.add_rule(&invalid).unwrap_err();
    assert!(error.message.contains("empty body"));
    let valid = empty.scalar_rule("valid after empty body");
    assert_eq!(empty.backend.add_rule(&valid).unwrap(), RuleId::new(0));
}

#[test]
fn variable_call_and_fresh_label_names_are_diagnostic_only() {
    let mut fixture = Fixture::new("duckdb diagnostic names");
    let plain = fixture.scalar_rule("plain");
    let mut renamed = fixture.scalar_rule("renamed");
    for (rank, action) in renamed.head.iter_mut().enumerate() {
        if let CoreAction::Let(_, RuleActionCall::Primitive { name, .. }, arguments) = action {
            *name = format!("diagnostic fresh call {rank}");
            let label = format!("distinct label {rank} with quote ' and newline\n");
            arguments[0] = fixture.backend.string(&label);
        }
    }
    let first = fixture.backend.add_rule(&plain).unwrap();
    let second = fixture.backend.add_rule(&renamed).unwrap();
    let left = format!("{:?}", fixture.backend.plan(first));
    let right = format!("{:?}", fixture.backend.plan(second));
    assert_eq!(left, right);
    let plan = scalar_plan(fixture.backend.plan(first));
    assert_eq!(plan.fresh_slots(), 14);
    // One lookup, fourteen allocations and sixteen writes; an alias is no event.
    assert_eq!(plan.action_count(), 31);
    assert_eq!(plan.slots().len(), 15);
    assert_eq!(plan.effects().len(), 16);
}

#[test]
fn a_distinct_live_context_fresh_token_is_accepted() {
    let mut fixture = Fixture::new("duckdb context fresh token");
    let action_token = fixture.backend.register_get_fresh();
    let mut spec = fixture.scalar_rule("distinct live action fresh token");
    for action in &mut spec.head {
        if let CoreAction::Let(_, RuleActionCall::Primitive { id, .. }, _) = action {
            *id = action_token;
        }
    }
    let rule = fixture.backend.add_rule(&spec).unwrap();
    let plan = scalar_plan(fixture.backend.plan(rule));
    // The merge of the View keeps its own token beside the rule's.
    assert!(plan.required_fresh_tokens.contains(&action_token.rep));
    assert!(plan.required_fresh_tokens.contains(&fixture.primitives.fresh.rep));
}

// ---------------------------------------------------------------------------
// Index atoms, functional dependencies and the general stream.

fn index_atom(
    id: FunctionId,
    probe: AtomTerm,
    any_of: Vec<usize>,
    row: Vec<AtomTerm>,
    output: AtomTerm,
) -> Atom {
    let mut args = vec![probe];
    args.extend(row);
    args.push(output);
    Atom { head: RuleBodyCall::IndexTable { id, any_of, read: ReadMode::All }, args }
}

#[test]
fn malformed_index_rules_reject_before_rule_id_and_singleton_second_pass_runs() {
    let mut backend = Backend::new();
    let unit_ty = backend.unit_ty();
    let i64_ty = backend.integer_ty();
    let unit = backend.unit();
    let one = backend.integer(1);
    let source = backend.table(
        "direct DuckDB index admission source",
        vec![i64_ty, i64_ty, i64_ty],
        1,
        MergeFn::Old,
        false,
    );
    let target = backend.table(
        "direct DuckDB index admission target",
        vec![i64_ty, unit_ty],
        1,
        MergeFn::AssertEq,
        false,
    );
    let index_rule = |name: &str, body: Vec<Atom>| {
        rule(name, false, body, vec![set_action(target, vec![one], vec![unit])])
    };
    let probe = variable(var(90, i64_ty));
    let y = variable(var(91, i64_ty));
    let row = || vec![one, one, one];
    let noncanonical = literal(Value::new(canonical_unit(&backend.base).rep + 1), unit_ty);
    let malformed = vec![
        index_rule(
            "mutually cyclic direct DuckDB probes",
            vec![
                index_atom(source, probe, vec![0, 1], vec![y, one, one], unit),
                index_atom(source, y, vec![0, 1], vec![probe, one, one], unit),
            ],
        ),
        index_rule(
            "direct DuckDB probe repeated only at unindexed column",
            vec![index_atom(source, probe, vec![0, 1], vec![one, one, probe], unit)],
        ),
        index_rule(
            "direct DuckDB empty occurrence columns",
            vec![index_atom(source, one, vec![], row(), unit)],
        ),
        index_rule(
            "direct DuckDB out-of-range occurrence column",
            vec![index_atom(source, one, vec![3], row(), unit)],
        ),
        index_rule(
            "direct DuckDB short index row",
            vec![index_atom(source, one, vec![0], vec![one, one], unit)],
        ),
        index_rule(
            "direct DuckDB long index row",
            vec![index_atom(source, one, vec![0], vec![one, one, one, one], unit)],
        ),
        index_rule(
            "direct DuckDB nonliteral Unit output",
            vec![index_atom(source, one, vec![0], row(), variable(var(92, unit_ty)))],
        ),
        index_rule(
            "direct DuckDB mistyped Unit output",
            vec![index_atom(source, one, vec![0], row(), one)],
        ),
        index_rule(
            "direct DuckDB noncanonical Unit output",
            vec![index_atom(source, one, vec![0], row(), noncanonical)],
        ),
        index_rule(
            "direct DuckDB mistyped index row",
            vec![index_atom(source, one, vec![0], vec![unit, one, one], unit)],
        ),
        index_rule(
            "direct DuckDB mistyped index probe",
            vec![index_atom(source, unit, vec![0], row(), unit)],
        ),
    ];
    for refused in &malformed {
        backend
            .add_rule(refused)
            .expect_err("malformed direct DuckDB IndexTable must reject before RuleId");
    }
    let valid = index_rule(
        "deduplicated singleton direct DuckDB occurrence",
        vec![index_atom(source, probe, vec![0, 0], row(), unit)],
    );
    assert_eq!(backend.add_rule(&valid).unwrap(), RuleId::new(0));
}

#[test]
fn all_index_delete_set_uses_exact_decoy_target_and_general_plan() {
    let mut backend = Backend::new();
    let unit_ty = backend.unit_ty();
    let unit = backend.unit();
    let id = ColumnTy::Id;
    let source = backend.table(
        "generic occurrence source",
        vec![id, id, id, unit_ty],
        1,
        MergeFn::AssertEq,
        true,
    );
    let canonical =
        backend.table("generic canonical target", vec![id, id], 1, MergeFn::AssertEq, false);
    let decoy =
        backend.table("generic same-schema decoy", vec![id, id], 1, MergeFn::AssertEq, false);
    let neq = backend.register_native(NativePrimitive::ValueNeq);
    let fresh_token = backend.register_get_fresh();
    let label = backend.string("generic decoy fresh");
    let x = variable(var(0, id));
    let y = variable(var(1, id));
    let alias = var(2, id);
    let body_row = vec![x, x, y, unit];
    let mut spec = rule(
        "generic All occurrence delete then set",
        true,
        vec![
            atom(source, ReadMode::All, body_row.clone()),
            index_atom(source, x, vec![0, 1], body_row, unit),
            Atom {
                head: RuleBodyCall::Primitive {
                    id: neq,
                    name: "diagnostic name is not authority".to_string(),
                    output: unit_ty,
                },
                args: vec![x, y, unit],
            },
        ],
        vec![
            fresh_action(fresh_token, label, var(3, id)),
            CoreAction::LetAtomTerm(alias, x),
            change_action(Change::Delete, canonical, vec![variable(alias)]),
            set_action(canonical, vec![variable(alias)], vec![y]),
        ],
    );
    // The exercised rule differs only in the exact action table. This is
    // deliberately a same-schema decoy against structural role inference.
    for action in &mut spec.head {
        match action {
            CoreAction::Change(_, RuleActionCall::Table { id }, _)
            | CoreAction::SetRow(RuleActionCall::Table { id }, _, _) => *id = decoy,
            _ => {}
        }
    }
    let admitted = backend.add_rule(&spec).unwrap();
    let plan = scalar_plan(backend.plan(admitted));
    let match_sql = plan.materialize_match_sql("egglog_scalar_match_0", 0);
    assert!(match_sql.starts_with("CREATE TEMP TABLE egglog_scalar_match_0"));
    assert!(match_sql
        .contains("(b1.c0 IS NOT DISTINCT FROM b0.c0 OR b1.c1 IS NOT DISTINCT FROM b0.c0)"));
    assert_eq!(match_sql.matches(&format!("egglog_function_{} AS b1", source.rep)).count(), 1);
    assert_eq!(plan.fresh_slots(), 1);
    assert_eq!(plan.effects().len(), 2);
    for effect in plan.effects() {
        assert_eq!(effect.target, decoy);
    }
}

#[test]
fn multi_column_index_binds_an_unbound_probe_from_a_repeated_indexed_column() {
    let mut backend = Backend::new();
    let unit_ty = backend.unit_ty();
    let unit = backend.unit();
    let id = ColumnTy::Id;
    let source = backend.table(
        "unbound repeated index source",
        vec![id, id, unit_ty],
        1,
        MergeFn::AssertEq,
        false,
    );
    let target = backend.table(
        "unbound repeated index target",
        vec![id, unit_ty],
        1,
        MergeFn::AssertEq,
        false,
    );
    let probe = variable(var(0, id));
    let spec = rule(
        "multi-column repeated probe binder",
        false,
        vec![index_atom(source, probe, vec![0, 1], vec![probe, probe, unit], unit)],
        vec![set_action(target, vec![probe], vec![unit])],
    );
    let admitted = backend.add_rule(&spec).unwrap();
    let plan = scalar_plan(backend.plan(admitted));
    assert_eq!(plan.match_projection, vec!["b0.c0".to_string()]);
    let sql = plan.materialize_match_sql("egglog_scalar_match_0", 5);
    assert!(!sql.contains("__generation >= CAST('5' AS UBIGINT)"), "{sql}");
}

fn set_if_empty_rule(
    token: ExternalFunctionId,
    output: FunctionId,
    unit: AtomTerm,
    arguments: Vec<AtomTerm>,
) -> RuleSpec {
    let result = var(0, ColumnTy::Id);
    rule(
        "registered FD rule",
        false,
        vec![],
        vec![
            CoreAction::Let(
                result,
                RuleActionCall::Primitive {
                    id: token,
                    name: "set-if-empty diagnostic".to_string(),
                    output: ColumnTy::Id,
                },
                arguments,
            ),
            set_action(output, vec![variable(result)], vec![unit]),
        ],
    )
}

#[test]
fn fd_descriptor_ambiguity_schema_and_reuse_reject_without_rule_ids() {
    let id = ColumnTy::Id;
    let mut ambiguous = Backend::new();
    let unit_ty = ambiguous.unit_ty();
    let unit = ambiguous.unit();
    let ambiguous_name = "ambiguous registered FD view";
    let token = ambiguous.register_set_if_empty(ambiguous_name, 1, 1);
    for _ in 0..2 {
        ambiguous.table(ambiguous_name, vec![id, id], 1, MergeFn::Old, true);
    }
    let output =
        ambiguous.table("ambiguous FD output", vec![id, unit_ty], 1, MergeFn::AssertEq, false);
    let arguments = vec![ambiguous.id(1), ambiguous.id(2)];
    let error =
        ambiguous.add_rule(&set_if_empty_rule(token, output, unit, arguments)).unwrap_err();
    assert!(error.report.contains("not unique"), "{}", error.report);
    assert!(ambiguous.egraph.rules.is_empty());

    let mut mismatched = Backend::new();
    let mismatch_name = "schema-mismatched registered FD view";
    let token = mismatched.register_set_if_empty(mismatch_name, 2, 1);
    mismatched.table(mismatch_name, vec![id, id], 1, MergeFn::Old, true);
    let output =
        mismatched.table("mismatched FD output", vec![id, unit_ty], 1, MergeFn::AssertEq, false);
    let arguments = vec![mismatched.id(1), mismatched.id(2), mismatched.id(3)];
    let error =
        mismatched.add_rule(&set_if_empty_rule(token, output, unit, arguments)).unwrap_err();
    assert!(error.message.contains("descriptor disagrees"), "{}", error.report);
    assert!(mismatched.egraph.rules.is_empty());

    let mut reused = Backend::new();
    let reused_name = "freed registered FD view";
    let stale = reused.register_set_if_empty(reused_name, 1, 1);
    reused.free(stale);
    let replacement = reused.new_panic();
    assert_eq!(replacement, stale);
    reused.table(reused_name, vec![id, id], 1, MergeFn::Old, true);
    let output =
        reused.table("reused FD output", vec![id, unit_ty], 1, MergeFn::AssertEq, false);
    let arguments = vec![reused.id(1), reused.id(2)];
    let error = reused.add_rule(&set_if_empty_rule(stale, output, unit, arguments)).unwrap_err();
    assert!(error.report.contains("unauthenticated or callback"), "{}", error.report);
    assert!(reused.egraph.rules.is_empty());
}

#[test]
fn a_registered_fd_view_is_resolved_once_by_its_exact_name() {
    let id = ColumnTy::Id;
    let mut backend = Backend::new();
    let unit_ty = backend.unit_ty();
    let unit = backend.unit();
    let token = backend.register_set_if_empty("the exact view", 1, 1);
    backend.table("the exact view ", vec![id, id], 1, MergeFn::Old, true);
    let view = backend.table("the exact view", vec![id, id], 1, MergeFn::Old, true);
    let output = backend.table("fd output", vec![id, unit_ty], 1, MergeFn::AssertEq, false);
    let arguments = vec![backend.id(1), backend.id(2)];
    let spec = set_if_empty_rule(token, output, unit, arguments);
    let admitted = backend.add_rule(&spec).unwrap();
    let plan = scalar_plan(backend.plan(admitted));
    assert_eq!(plan.set_if_empty_target(0), Some(view));
    assert_eq!(plan.effects()[0].target, view);
    assert_eq!(plan.effects()[0].condition_slot, Some(0));
    assert!(plan.prediction_targets().contains(&view.rep));
}

#[test]
fn exact_count_heuristic_does_not_shadow_general_admission() {
    let mut backend = Backend::new();
    let unit_ty = backend.unit_ty();
    let unit = backend.unit();
    let label = backend.string("exact-count heuristic shadow witness");
    let target = backend.table(
        "exact-count shadow target",
        vec![ColumnTy::Id, unit_ty],
        1,
        MergeFn::AssertEq,
        false,
    );
    let token = backend.register_get_fresh();
    let fresh: Vec<RuleVar> = (0..14).map(|index| var(index, ColumnTy::Id)).collect();
    let mut head = Vec::new();
    for binding in &fresh {
        head.push(fresh_action(token, label, *binding));
    }
    for index in 0..21 {
        head.push(CoreAction::LetAtomTerm(
            var(100 + index as u32, ColumnTy::Id),
            variable(fresh[index % fresh.len()]),
        ));
    }
    for binding in &fresh {
        head.push(set_action(target, vec![variable(*binding)], vec![unit]));
    }
    assert_eq!(head.len(), 49);
    let spec = rule(
        "exact-count heuristic must continue to general admission",
        true,
        vec![],
        head,
    );
    let admitted = backend.add_rule(&spec).unwrap();
    let plan = scalar_plan(backend.plan(admitted));
    assert_eq!(plan.fresh_slots(), 14);
    assert_eq!(plan.effects().len(), 14);
}

#[test]
fn unrelated_three_body_four_action_rule_uses_general_stream() {
    let mut backend = Backend::new();
    let unit_ty = backend.unit_ty();
    let unit = backend.unit();
    let id = ColumnTy::Id;
    let mut table = |name: String| {
        backend.table(&name, vec![id, unit_ty], 1, MergeFn::AssertEq, false)
    };
    let sources: Vec<FunctionId> =
        (0..3).map(|index| table(format!("unrelated source {index}"))).collect();
    let targets: Vec<FunctionId> =
        (0..3).map(|index| table(format!("unrelated target {index}"))).collect();
    let key = variable(var(0, id));
    let alias = var(1, id);
    let body =
        sources.iter().map(|source| atom(*source, ReadMode::Live, vec![key, unit])).collect();
    let mut head = vec![CoreAction::LetAtomTerm(alias, key)];
    for target in &targets {
        head.push(set_action(*target, vec![variable(alias)], vec![unit]));
    }
    assert_eq!(head.len(), 4);
    let spec = rule("unrelated actionful three-body four-action rule", true, body, head);
    let admitted = backend.add_rule(&spec).unwrap();
    let plan = scalar_plan(backend.plan(admitted));
    let written: Vec<FunctionId> = plan.effects().iter().map(|effect| effect.target).collect();
    assert_eq!(written, targets);
}

#[test]
fn lookup_keyed_by_an_earlier_lookup_result() {
    let mut backend = Backend::new();
    let unit_ty = backend.unit_ty();
    let unit = backend.unit();
    let id = ColumnTy::Id;
    let one = backend.id(1);
    let lookup = backend.table("chained Fail lookup", vec![id, id], 1, MergeFn::Old, false);
    let output =
        backend.table("chained lookup output", vec![id, unit_ty], 1, MergeFn::AssertEq, false);
    let first = var(0, id);
    let second = var(1, id);
    let spec = rule(
        "later lookup key is earlier lookup result",
        false,
        vec![],
        vec![
            CoreAction::Let(first, table_call(lookup), vec![one]),
            CoreAction::Let(second, table_call(lookup), vec![variable(first)]),
            set_action(output, vec![variable(second)], vec![unit]),
        ],
    );
    let admitted = backend.add_rule(&spec).unwrap();
    let plan = scalar_plan(backend.plan(admitted));
    let sql = plan.materialize_slot_sql("egglog_scalar_input", "egglog_scalar_slot", 1, 0, 1, None);
    assert!(sql.ends_with("existing.c0 IS NOT DISTINCT FROM prior.s0"), "{sql}");
    let sql = plan.materialize_effect_sql("head", "effect", &plan.effects()[0], 0);
    assert!(sql.contains("SELECT head.s1 AS c0, CAST(TRUE AS BOOLEAN) AS c1,"), "{sql}");
}

#[test]
fn fail_owner_preflight_rejects_before_materializing_a_value_slot() {
    let mut backend = Backend::new();
    let unit_ty = backend.unit_ty();
    let unit = backend.unit();
    let id = ColumnTy::Id;
    let one = backend.id(1);
    let lookup =
        backend.table("Fail lookup preflight table", vec![id, id], 1, MergeFn::Old, false);
    let output = backend.table(
        "Fail lookup preflight output",
        vec![id, unit_ty],
        1,
        MergeFn::AssertEq,
        false,
    );
    let found = var(0, id);
    let spec = rule(
        "missing and duplicate Fail owner preflight",
        false,
        vec![],
        vec![
            CoreAction::Let(found, table_call(lookup), vec![one]),
            set_action(output, vec![variable(found)], vec![unit]),
        ],
    );
    let admitted = backend.add_rule(&spec).unwrap();
    let plan = scalar_plan(backend.plan(admitted));
    let preflight = plan
        .slot_preflight_sql("egglog_scalar_input", 0)
        .expect("DefaultVal::Fail lookup has a preflight");
    assert!(preflight.starts_with("SELECT EXISTS"));
    assert!(preflight.contains("FROM egglog_scalar_input AS prior"));
    assert!(preflight.contains("lookup.__owners <> 1"));
    assert!(!preflight.contains("CREATE TEMP TABLE"));
    assert!(!preflight.contains(" AS s0"));
    let materialize = plan.materialize_slot_sql(
        "egglog_scalar_input",
        "egglog_scalar_slot_test",
        0,
        0,
        1,
        None,
    );
    assert!(materialize.contains("JOIN egglog_function_"));
    assert!(!materialize.contains("LEFT JOIN"));
    assert!(!materialize.contains("first("));
    assert!(!materialize.contains("__invalid"));
    assert!(!materialize.contains("NULL"));
    assert!(plan.slot_invalid_sql("egglog_scalar_slot_test", 0).is_none());
    assert!(plan.slot_error(0).contains("did not have exactly one pre-wave owner"));
}

// ---------------------------------------------------------------------------
// Cleanup.

#[test]
fn cleanup_admission_is_fail_closed_and_does_not_consume_rule_ids() {
    let mut backend = Backend::new();
    let id = ColumnTy::Id;
    let source = backend.table("admission source", vec![id, id], 1, MergeFn::Old, false);
    let target = backend.table("admission target", vec![id, id], 1, MergeFn::Old, true);
    let no_subsume = backend.table("admission no subsume", vec![id, id], 1, MergeFn::Old, false);
    let key = variable(var(0, id));
    let value = variable(var(1, id));
    let body = || vec![atom(target, ReadMode::Live, vec![key, value])];

    let accepted = [
        rule(
            "mixed delete set",
            true,
            body(),
            vec![
                change_action(Change::Delete, target, vec![key]),
                set_action(target, vec![key], vec![value]),
            ],
        ),
        rule(
            "multiple subsumes",
            true,
            body(),
            vec![
                change_action(Change::Subsume, target, vec![key]),
                change_action(Change::Subsume, target, vec![key]),
            ],
        ),
        rule(
            "delete diagnostic metadata name",
            true,
            body(),
            vec![change_action(Change::Delete, target, vec![variable(var(0, id))])],
        ),
    ];
    for (index, spec) in accepted.iter().enumerate() {
        assert_eq!(backend.add_rule(spec).unwrap(), RuleId::new(index as u32));
    }

    let nine = backend.id(9);
    let invalid = [
        rule(
            "subsume unsupported table",
            true,
            vec![atom(no_subsume, ReadMode::Live, vec![key, value])],
            vec![change_action(Change::Subsume, no_subsume, vec![key])],
        ),
        rule(
            "subsume without target body",
            true,
            vec![atom(source, ReadMode::Live, vec![key, value])],
            vec![change_action(Change::Subsume, target, vec![key])],
        ),
        rule(
            "subsume inconsistent body key",
            true,
            body(),
            vec![change_action(Change::Subsume, target, vec![nine])],
        ),
        rule(
            "delete wrong arity",
            true,
            body(),
            vec![change_action(Change::Delete, target, vec![])],
        ),
        rule(
            "delete unbound metadata",
            true,
            body(),
            vec![change_action(Change::Delete, target, vec![variable(var(99, id))])],
        ),
        rule(
            "delete global key",
            true,
            body(),
            vec![change_action(Change::Delete, target, vec![AtomTerm::Global(var(100, id))])],
        ),
    ];
    for spec in &invalid {
        if let Ok(id) = backend.add_rule(spec) {
            panic!("{} unexpectedly admitted as {id:?}", spec.name);
        }
    }

    let primitive = backend.new_panic();
    let primitive_delete = rule(
        "primitive delete target",
        true,
        body(),
        vec![CoreAction::Change(
            Change::Delete,
            RuleActionCall::Primitive {
                id: primitive,
                name: "primitive".to_string(),
                output: id,
            },
            vec![key],
        )],
    );
    assert!(backend.add_rule(&primitive_delete).unwrap_err().message.contains("primitive"));

    let deferred =
        backend.table("deferred delete is allowed", vec![id, id], 1, MergeFn::New, false);
    let valid = rule(
        "valid deferred delete",
        true,
        body(),
        vec![change_action(Change::Delete, deferred, vec![key])],
    );
    assert_eq!(
        backend.add_rule(&valid).unwrap(),
        RuleId::new(3),
        "failed cleanup admissions must not consume RuleIds"
    );
}

#[test]
fn delete_only_accepts_nullary_mixed_scalar_and_synthetic_27_key_targets() {
    let mut backend = Backend::new();
    let id = ColumnTy::Id;
    let nullary = backend.table("nullary victim", vec![id], 1, MergeFn::Old, false);
    let spec = rule(
        "nullary delete",
        true,
        vec![atom(nullary, ReadMode::Live, vec![variable(var(0, id))])],
        vec![change_action(Change::Delete, nullary, vec![])],
    );
    assert_eq!(backend.add_rule(&spec).unwrap(), RuleId::new(0));

    let string = backend.string_ty();
    let integer = backend.integer_ty();
    let mixed = backend.table("mixed target", vec![id, string, integer], 1, MergeFn::Old, false);
    let twelve = backend.id(12);
    let hostile = backend.string("'); DROP TABLE egglog_function_0; --");
    let spec = rule(
        "hostile literal delete",
        true,
        vec![atom(mixed, ReadMode::Live, vec![twelve, hostile, variable(var(1, integer))])],
        vec![change_action(Change::Delete, mixed, vec![twelve, hostile])],
    );
    assert_eq!(backend.add_rule(&spec).unwrap(), RuleId::new(1));

    let wide = backend.table("synthetic 27 key target", vec![id; 28], 1, MergeFn::Old, false);
    let terms: Vec<AtomTerm> = (0..28).map(|index| variable(var(100 + index, id))).collect();
    let spec = rule(
        "synthetic 27 key delete",
        true,
        vec![atom(wide, ReadMode::Live, terms.clone())],
        vec![change_action(Change::Delete, wide, terms[..27].to_vec())],
    );
    let admitted = backend.add_rule(&spec).unwrap();
    assert_eq!(admitted, RuleId::new(2));
    let plan = scalar_plan(backend.plan(admitted));
    assert_eq!(plan.match_projection.len(), 28);
    assert_eq!(plan.effects()[0].n_keys, 27);
}

#[test]
fn three_body_four_delete_rule_bypasses_path_dispatch_without_consuming_rejected_rule_id() {
    let mut backend = Backend::new();
    let id = ColumnTy::Id;
    let targets: Vec<FunctionId> = (0..4)
        .map(|index| {
            backend.table(
                &format!("four-delete-target-{index}"),
                vec![id, id],
                1,
                MergeFn::Old,
                false,
            )
        })
        .collect();
    let key = variable(var(0, id));
    let values: Vec<AtomTerm> = (0..3).map(|index| variable(var(1 + index, id))).collect();
    let body = || -> Vec<Atom> {
        targets[..3]
            .iter()
            .zip(&values)
            .map(|(target, value)| atom(*target, ReadMode::Live, vec![key, *value]))
            .collect()
    };
    let deletes = || -> Vec<CoreAction> {
        targets
            .iter()
            .map(|target| change_action(Change::Delete, *target, vec![key]))
            .collect()
    };
    let mut mixed =
        rule("same arity but invalid mixed path candidate", true, body(), deletes());
    mixed.head[2] = set_action(targets[3], vec![key], vec![values[0]]);
    assert_eq!(backend.add_rule(&mixed).unwrap(), RuleId::new(0));
    let valid = rule("three table body with four deletes", true, body(), deletes());
    assert_eq!(backend.add_rule(&valid).unwrap(), RuleId::new(1));
}

#[test]
fn a_variable_reads_the_value_that_its_name_was_bound_to() {
    let mut fixture = Fixture::new("spellings");
    let spec = fixture.scalar_rule("spellings rule");
    let admitted = fixture.backend.add_rule(&spec).unwrap();
    let plan = scalar_plan(fixture.backend.plan(admitted));
    // The View row is matched on two literal keys; the owner and the proof are
    // the two staged columns.
    assert_eq!(plan.match_projection, vec!["b0.c2".to_string(), "b0.c3".to_string()]);
    let sql = plan.materialize_match_sql("egglog_scalar_match_7", 3);
    assert!(sql.contains("b0.c0 IS NOT DISTINCT FROM CAST('1' AS UBIGINT)"), "{sql}");
    assert!(sql.contains("b0.__generation >= CAST('3' AS UBIGINT)"), "{sql}");
    assert!(sql.contains("b0.__subsumed = FALSE"), "{sql}");
    assert_eq!(
        fixture.backend.strings[&fixture.rule_label.rep],
        "spellings rule label '); DROP TABLE imaginary; --\nnext line"
    );
}

// ---------------------------------------------------------------------------
// The statements of a plan.

/// A rule with one slot of every kind and one effect of every kind.
struct Statements {
    backend: Backend,
    admitted: RuleId,
    neq: ExternalFunctionId,
}

fn statements() -> Statements {
    let mut backend = Backend::new();
    let id = ColumnTy::Id;
    let unit_ty = backend.unit_ty();
    let unit = backend.unit();
    let label = backend.string("sort");
    // Table 0 is matched, 1 is looked up, 2 is the functional view, 3 records.
    let source = backend.table("source", vec![id, id], 1, MergeFn::Old, true);
    let owner = backend.table("owner", vec![id, id], 1, MergeFn::Old, false);
    let view = backend.table("view", vec![id, id], 1, MergeFn::Old, true);
    let log = backend.table("log", vec![id, id, unit_ty], 1, MergeFn::AssertEq, false);
    let fresh_token = backend.register_get_fresh();
    let set_if_empty = backend.register_set_if_empty("view", 1, 1);
    let view_column = backend.mint(Authority::Fd(FdDescriptor::ViewColumnRead {
        view_name: "view".to_string(),
        n_keys: 1,
        col_idx: 0,
    }));
    let neq = backend.register_native(NativePrimitive::ValueNeq);
    let call = |token: ExternalFunctionId, output: ColumnTy| RuleActionCall::Primitive {
        id: token,
        name: "diagnostic".to_string(),
        output,
    };
    let v = |rep: u32| variable(var(rep, id));
    let spec = rule(
        "statements",
        true,
        vec![atom(source, ReadMode::Live, vec![v(0), v(1)])],
        vec![
            fresh_action(fresh_token, label, var(2, id)),
            CoreAction::Let(var(3, id), table_call(owner), vec![v(0)]),
            CoreAction::Let(var(4, id), call(set_if_empty, id), vec![v(0), v(2)]),
            CoreAction::Let(var(5, id), call(view_column, id), vec![v(1), v(3)]),
            CoreAction::Let(var(6, unit_ty), call(neq, unit_ty), vec![v(0), v(1)]),
            set_action(log, vec![v(4), v(5)], vec![unit]),
            set_action(owner, vec![v(1)], vec![v(2)]),
            change_action(Change::Subsume, source, vec![v(0)]),
            change_action(Change::Delete, view, vec![v(1)]),
        ],
    );
    let admitted = match backend.add_rule(&spec) {
        Ok(admitted) => admitted,
        Err(error) => panic!("refused: {}", error.report),
    };
    Statements { backend, admitted, neq }
}

#[test]
fn events_are_ordered_and_fresh_ranks_are_dense() {
    let fixture = statements();
    let plan = scalar_plan(fixture.backend.plan(fixture.admitted));
    let slots: Vec<u64> = plan.slots().iter().map(|slot| slot.runtime_ordinal).collect();
    let effects: Vec<u64> = plan.effects().iter().map(|effect| effect.event_ordinal).collect();
    for pair in slots.windows(2) {
        assert!(pair[0] < pair[1]);
    }
    for pair in effects.windows(2) {
        assert!(pair[0] < pair[1]);
    }
    let mut ranks = Vec::new();
    for slot in plan.slots() {
        if let ScalarActionSlotSource::Fresh { rank } = &slot.source {
            ranks.push(*rank);
        }
    }
    assert_eq!(ranks, vec![0]);
    assert_eq!(plan.fresh_slots(), 1);
    let kinds: Vec<ScalarEffectKind> = plan.effects().iter().map(|effect| effect.kind).collect();
    assert_eq!(
        kinds,
        vec![
            ScalarEffectKind::KeepOld,
            ScalarEffectKind::AssertEq,
            ScalarEffectKind::KeepOld,
            ScalarEffectKind::Subsume,
            ScalarEffectKind::Delete,
        ]
    );
    let conditions: Vec<Option<usize>> =
        plan.effects().iter().map(|effect| effect.condition_slot).collect();
    assert_eq!(conditions, vec![Some(2), None, None, None, None]);
    assert_eq!(plan.prediction_effect_slot(&plan.effects()[0]), Some(2));
    assert_eq!(plan.prediction_effect_slot(&plan.effects()[1]), None);
    let targets: Vec<u32> = plan.prediction_targets().into_iter().collect();
    assert_eq!(targets, vec![2]);
    assert_eq!(
        plan.owner_checks(),
        vec![
            (FunctionId::new(1), 1, false),
            (FunctionId::new(2), 1, false),
            (FunctionId::new(2), 1, false),
            (FunctionId::new(2), 1, false),
            (FunctionId::new(3), 2, false),
            (FunctionId::new(1), 1, false),
            (FunctionId::new(0), 1, false),
            (FunctionId::new(2), 1, false),
        ]
    );
}

#[test]
fn a_plan_counts_as_its_rule_does() {
    let fixture = statements();
    let plan = scalar_plan(fixture.backend.plan(fixture.admitted));
    // Five Let actions, one of them fresh, and four writes; one row atom.
    assert_eq!(plan.slots().len(), 5);
    assert_eq!(plan.fresh_slots(), 1);
    assert_eq!(plan.action_count, 9);
    assert_eq!(plan.match_from.len(), 1);
    assert_eq!(plan.freshness_columns.len(), 1);
    assert_eq!(plan.match_projection.len(), 2);
}

#[test]
fn match_statement_is_exact() {
    let fixture = statements();
    let plan = scalar_plan(fixture.backend.plan(fixture.admitted));
    assert_eq!(
        plan.materialize_match_sql("stage", 9),
        "CREATE TEMP TABLE stage AS
             SELECT b0.c0 AS b0, b0.c1 AS b1, row_number() OVER (ORDER BY b0.__generation, \
             b0.c0, b0.c1) AS __match_ordinal
             FROM egglog_function_0 AS b0
             WHERE b0.__subsumed = FALSE AND b0.c0 IS NOT DISTINCT FROM b0.c0 AND \
             b0.c1 IS NOT DISTINCT FROM b0.c1 AND (b0.__generation >= CAST('9' AS UBIGINT))"
    );
}

#[test]
fn a_rule_without_a_table_matches_once_and_only_before_its_first_run() {
    let mut backend = Backend::new();
    let id = ColumnTy::Id;
    let target = backend.table("target", vec![id, id], 1, MergeFn::Old, false);
    let one = backend.id(1);
    let mut texts = Vec::new();
    for seminaive in [true, false] {
        let spec = rule("empty", seminaive, vec![], vec![set_action(target, vec![one], vec![one])]);
        let admitted = backend.add_rule(&spec).unwrap();
        let plan = scalar_plan(backend.plan(admitted));
        for watermark in [0, 4] {
            texts.push(plan.materialize_match_sql("stage", watermark));
        }
    }
    let statement = |condition: &str| {
        format!(
            "CREATE TEMP TABLE stage AS
                 SELECT CAST('1' AS UBIGINT) AS __match_ordinal
                 WHERE {condition}"
        )
    };
    assert_eq!(
        texts,
        vec![statement("TRUE"), statement("FALSE"), statement("TRUE"), statement("TRUE")]
    );
}

#[test]
fn slot_statements_are_exact() {
    let fixture = statements();
    let plan = scalar_plan(fixture.backend.plan(fixture.admitted));
    assert_eq!(
        plan.materialize_slot_sql("i", "o", 0, 100, 7, None),
        "CREATE TEMP TABLE o AS
                 SELECT prior.*,
                        CAST('100' AS UBIGINT)
                            + CAST('0' AS UBIGINT) * CAST('7' AS UBIGINT)
                            + prior.__match_ordinal - 1 AS s0
                 FROM i AS prior"
    );
    assert_eq!(
        plan.materialize_slot_sql("i", "o", 1, 0, 1, None),
        "CREATE TEMP TABLE o AS
                     SELECT prior.*,
                            existing.c1 AS s1
                     FROM i AS prior
                     JOIN egglog_function_1 AS existing ON existing.c0 IS NOT DISTINCT FROM prior.b0"
    );
    assert_eq!(
        plan.materialize_slot_sql("i", "o", 2, 0, 1, Some("ledger")),
        "CREATE TEMP TABLE o AS
                     SELECT prior.*,
                            choice.__value AS s2
                     FROM i AS prior
                     JOIN LATERAL (
                         SELECT alternatives.__value
                         FROM (
                             SELECT existing.c1 AS __value,
                                    CAST('0' AS UTINYINT) AS __source
                             FROM egglog_function_2 AS existing
                             WHERE existing.c0 IS NOT DISTINCT FROM prior.b0
                             UNION ALL
                             SELECT predicted.c1 AS __value,
                                    CAST('1' AS UTINYINT) AS __source
                             FROM ledger AS predicted
                             WHERE predicted.c0 IS NOT DISTINCT FROM prior.b0
                         ) AS alternatives
                         ORDER BY alternatives.__source
                         LIMIT 1
                     ) AS choice ON TRUE"
    );
    let view_column = plan.materialize_slot_sql("i", "o", 3, 0, 1, None);
    assert!(view_column.contains("SELECT prior.s1 AS __value,"), "{view_column}");
    assert_eq!(
        plan.materialize_slot_sql("i", "o", 4, 0, 1, None),
        "CREATE TEMP TABLE o AS
                     SELECT prior.*, neq(prior.b0, prior.b1) AS s4
                     FROM i AS prior"
    );
    for slot in 0..5 {
        assert_eq!(plan.slot_invalid_sql("o", slot), None);
    }
}

#[test]
fn preflight_and_diagnostics_are_exact() {
    let fixture = statements();
    let plan = scalar_plan(fixture.backend.plan(fixture.admitted));
    assert_eq!(plan.slot_preflight_sql("i", 0), None);
    assert_eq!(
        plan.slot_preflight_sql("i", 1).unwrap(),
        "SELECT EXISTS (
                         SELECT 1
                         FROM i AS prior
                         LEFT JOIN LATERAL (
                             SELECT count(existing.__generation) AS __owners
                             FROM egglog_function_1 AS existing
                             WHERE existing.c0 IS NOT DISTINCT FROM prior.b0
                         ) AS lookup ON TRUE
                         WHERE lookup.__owners <> 1
                     )"
    );
    assert_eq!(plan.slot_preflight_sql("i", 2), None);
    assert_eq!(plan.slot_preflight_sql("i", 3), None);
    assert_eq!(
        plan.slot_preflight_sql("i", 4).unwrap(),
        "SELECT EXISTS (SELECT 1 FROM i AS prior WHERE NOT \
         (prior.b0 IS DISTINCT FROM prior.b1))"
    );
    assert_eq!(
        plan.slot_error(1),
        "DuckDB scalar action 1 (runtime 1, result Id) Fail lookup for function 1 did not have \
         exactly one pre-wave owner"
    );
    let slot = &plan.slots()[4];
    assert_eq!(
        plan.slot_error(4),
        format!(
            "DuckDB scalar action 4 (runtime {}, result Base(BaseValueId({}))) evaluated \
             undefined for authenticated token {}",
            slot.runtime_ordinal,
            fixture.backend.egraph.catalog.types.unit.rep,
            fixture.neq.rep
        )
    );
    assert!(plan.slot_error(2).ends_with("has duplicate durable pre-wave owners"));
}

#[test]
fn prediction_statements_are_exact() {
    let fixture = statements();
    let plan = scalar_plan(fixture.backend.plan(fixture.admitted));
    let runtime = plan.slots()[2].runtime_ordinal;
    assert_eq!(
        plan.materialize_prediction_winner_sql("i", "w", "l", 2, 7, 30).unwrap(),
        format!(
            "CREATE TEMP TABLE w AS
             SELECT candidate.* EXCLUDE (__site_rank)
             FROM (
                 SELECT prior.b0 AS c0, prior.s0 AS c1, CAST('30' AS UBIGINT)
             + CAST('{runtime}' AS UBIGINT) * CAST('7' AS UBIGINT)
             + prior.__match_ordinal AS __event, row_number() OVER (PARTITION BY prior.b0 \
             ORDER BY prior.__match_ordinal) AS __site_rank
                 FROM i AS prior
             ) AS candidate
             WHERE candidate.__site_rank = 1
               AND NOT EXISTS (
                   SELECT 1 FROM egglog_function_2 AS existing WHERE \
             existing.c0 IS NOT DISTINCT FROM candidate.c0
               )
               AND NOT EXISTS (
                   SELECT 1 FROM l AS predicted WHERE \
             predicted.c0 IS NOT DISTINCT FROM candidate.c0
               )"
        )
    );
    assert_eq!(plan.materialize_prediction_winner_sql("i", "w", "l", 1, 7, 30), None);
    assert_eq!(
        plan.materialize_prediction_effect_sql("w", "e", &plan.effects()[0]),
        "CREATE TEMP TABLE e AS
             SELECT winner.c0, winner.c1, winner.__event AS __ordinal
             FROM w AS winner
             ORDER BY winner.__event"
    );
}

#[test]
fn effect_statements_are_exact() {
    let fixture = statements();
    let plan = scalar_plan(fixture.backend.plan(fixture.admitted));
    assert_eq!(
        plan.materialize_effect_sql("h", "e", &plan.effects()[1], 12),
        "CREATE TEMP TABLE e AS
             SELECT head.s2 AS c0, head.s3 AS c1, CAST(TRUE AS BOOLEAN) AS c2, \
             CAST('12' AS UBIGINT) + head.__match_ordinal - 1 AS __ordinal
             FROM h AS head
             WHERE TRUE
             ORDER BY head.__match_ordinal"
    );
    let conditional = plan.materialize_effect_sql("h", "e", &plan.effects()[0], 0);
    assert!(conditional.contains("WHERE head.__missing_s2\n"), "{conditional}");
}

#[test]
fn every_kind_of_authority_is_checked_before_its_epoch() {
    let fixture = statements();
    let plan = scalar_plan(fixture.backend.plan(fixture.admitted));
    let registries = || {
        let live = &fixture.backend.registries;
        let mut copy = AuthorityRegistries::new();
        copy.native_primitives = live.native_primitives.clone();
        copy.native_scalar_primitives = live.native_scalar_primitives.clone();
        copy.authority_epochs = live.authority_epochs.clone();
        copy.fresh_tokens = live.fresh_tokens.clone();
        for (token, descriptor) in &live.fd_descriptors {
            copy.fd_descriptors.insert(*token, descriptor.copy());
        }
        copy
    };
    assert!(plan.authorize(&registries()).is_ok());
    let refusal = |live: AuthorityRegistries| plan.authorize(&live).unwrap_err().message("");
    let opening = "DuckDB scalar action plan references a freed or reused ";

    let mut live = registries();
    live.native_primitives.insert(fixture.neq.rep, NativePrimitive::OrderingMin);
    assert_eq!(refusal(live), format!("{opening}native token {}", fixture.neq.rep));
    let mut live = registries();
    live.fresh_tokens.clear();
    assert_eq!(refusal(live), format!("{opening}get-fresh token 0"));
    let mut live = registries();
    live.fd_descriptors.clear();
    assert_eq!(refusal(live), format!("{opening}FD token 1"));
    let mut live = registries();
    live.authority_epochs.insert(2, 77);
    assert_eq!(refusal(live), format!("{opening}authority token 2"));
    // A token of a lower kind shadows the epochs.
    let mut live = registries();
    live.authority_epochs.clear();
    live.fresh_tokens.clear();
    assert_eq!(refusal(live), format!("{opening}get-fresh token 0"));
}

#[test]
fn a_body_binds_its_variables_at_one_type_in_any_order() {
    let mut backend = Backend::new();
    let id = ColumnTy::Id;
    let unit_ty = backend.unit_ty();
    let unit = backend.unit();
    let source = backend.table("source", vec![id, id], 1, MergeFn::Old, false);
    let index = backend.table("index", vec![id, id, unit_ty], 1, MergeFn::AssertEq, false);
    let target = backend.table("target", vec![id, id], 1, MergeFn::Old, false);
    let v = |rep: u32| variable(var(rep, id));
    let bodies = |flipped: bool| {
        let table = atom(source, ReadMode::Live, vec![v(0), v(1)]);
        let probe = index_atom(index, v(1), vec![0, 1], vec![v(1), v(2), unit], unit);
        if flipped {
            vec![probe, table]
        } else {
            vec![table, probe]
        }
    };
    for flipped in [false, true] {
        let spec = rule(
            "any order",
            true,
            bodies(flipped),
            vec![set_action(target, vec![v(0)], vec![v(2)])],
        );
        let admitted = backend.add_rule(&spec).unwrap();
        assert_eq!(scalar_plan(backend.plan(admitted)).match_projection.len(), 3);
        let mut retyped = rule(
            "retyped",
            true,
            bodies(flipped),
            vec![set_action(target, vec![v(0)], vec![v(2)])],
        );
        for atom in &mut retyped.body {
            if let RuleBodyCall::IndexTable { .. } = atom.head {
                atom.args[2] = variable(var(0, unit_ty));
            }
        }
        assert!(backend.add_rule(&retyped).is_err());
    }
}

#[test]
fn multiple_live_bodies_and_duplicate_schedule_are_bounded() {
    let mut backend = Backend::new();
    let unit_ty = backend.unit_ty();
    let unit = backend.unit();
    let schema = vec![ColumnTy::Id, unit_ty];
    let left = backend.table("general left", schema.clone(), 1, MergeFn::AssertEq, false);
    let right = backend.table("general right", schema.clone(), 1, MergeFn::AssertEq, false);
    let target = backend.table("general joined target", schema, 1, MergeFn::AssertEq, false);
    let key = var(0, ColumnTy::Id);
    let alias = var(1, ColumnTy::Id);
    let body = [left, right]
        .into_iter()
        .map(|id| atom(id, ReadMode::Live, vec![variable(key), unit]))
        .collect();
    let spec = rule(
        "general two-body join",
        true,
        body,
        vec![
            CoreAction::LetAtomTerm(alias, variable(key)),
            set_action(target, vec![variable(alias)], vec![unit]),
        ],
    );
    let id = match backend.add_rule(&spec) {
        Ok(id) => id,
        Err(error) => panic!("refused: {}", error.report),
    };
    assert_eq!(scalar_plan(backend.plan(id)).match_projection.len(), 1);

    let error = backend.egraph.begin_run(&vec![id, id]).unwrap_err();
    assert!(error.message("").contains("duplicate RuleId"), "{error:?}");
    assert_eq!(
        error.message(""),
        format!("DuckDB cannot run a schedule with duplicate RuleId {}", id.rep)
    );
    let requested = vec![id];
    match backend.egraph.begin_run(&requested) {
        Ok(RunStep::Execute(from)) => assert_eq!(from, vec![0]),
        other => panic!("not executed: {other:?}"),
    }
    assert!(backend.authorize_run(&requested).is_ok());
    let stats = RuleExecutionStats {
        statement_count: 3,
        matched_rows: vec![1],
        inserted_rows: vec![1],
        changed: true,
        watermark: 2,
    };
    assert!(backend.egraph.finish_run(&requested, Ok(stats)).unwrap());
    match backend.egraph.begin_run(&requested) {
        Ok(RunStep::Execute(from)) => assert_eq!(from, vec![2]),
        other => panic!("not executed: {other:?}"),
    }
}

#[test]
fn the_first_unauthorized_plan_refuses_the_run() {
    let mut fixture = Fixture::new("duckdb two plans");
    let fresh = fixture.scalar_rule("scalar rule");
    let first = fixture.backend.add_rule(&fresh).unwrap();
    let direct = direct_canary_rule(&fixture, "direct rule");
    let second = fixture.backend.add_rule(&direct).unwrap();
    let schedule = [second, first];
    assert!(fixture.backend.authorize_run(&schedule).is_ok());
    fixture.backend.free(fixture.primitives.fresh);
    let alone = fixture.backend.authorize_run(&[first]).unwrap_err().message("");
    assert!(alone.contains("freed or reused get-fresh token"), "{alone}");
    assert_eq!(fixture.backend.authorize_run(&schedule).unwrap_err().message(""), alone);
    // A rule that is not live has no plan to authorize.
    fixture.backend.egraph.free_rule(first);
    assert!(fixture.backend.authorize_run(&[first]).is_ok());
}

#[test]
fn a_block_of_fresh_ids_is_action_major_without_gaps() {
    let mut backend = Backend::new();
    let id = ColumnTy::Id;
    let first_label = backend.string("first");
    let second_label = backend.string("second");
    let source = backend.table("source", vec![id, id], 1, MergeFn::Old, false);
    let target = backend.table("target", vec![id, id, id], 1, MergeFn::Old, false);
    let token = backend.register_get_fresh();
    let v = |rep: u32| variable(var(rep, id));
    let spec = |a: AtomTerm, b: AtomTerm| {
        rule(
            "two fresh ids",
            true,
            vec![atom(source, ReadMode::Live, vec![v(0), v(1)])],
            vec![
                fresh_action(token, a, var(2, id)),
                fresh_action(token, b, var(3, id)),
                set_action(target, vec![v(0), v(2)], vec![v(3)]),
            ],
        )
    };
    let admitted = backend.add_rule(&spec(first_label, second_label)).unwrap();
    let plan = scalar_plan(backend.plan(admitted));
    let (first_fresh, match_count) = (100u64, 2u64);
    let mut ids = Vec::new();
    for (index, slot) in plan.slots().iter().enumerate() {
        if let ScalarActionSlotSource::Fresh { rank } = &slot.source {
            let sql = plan.materialize_slot_sql("i", "o", index, first_fresh, match_count, None);
            assert!(
                sql.contains(&format!(
                    "CAST('100' AS UBIGINT)
                            + CAST('{rank}' AS UBIGINT) * CAST('2' AS UBIGINT)
                            + prior.__match_ordinal - 1 AS s{index}"
                )),
                "{sql}"
            );
            for ordinal in 1..=match_count {
                ids.push(first_fresh + rank * match_count + ordinal - 1);
            }
        }
    }
    assert_eq!(ids, vec![100, 101, 102, 103]);
    assert_eq!(plan.fresh_slots() * match_count, 4);

    // The labels carry no meaning.
    let slots = format!("{:?}", plan.slots());
    let swapped = backend.add_rule(&spec(second_label, first_label)).unwrap();
    let swapped = scalar_plan(backend.plan(swapped));
    assert_eq!(format!("{:?}", swapped.slots()), slots);
}

#[test]
fn an_epoch_is_given_once() {
    let mut registries = AuthorityRegistries::new();
    let token = ExternalFunctionId::new(7);
    let first = registries.mint(token, Authority::Native(NativePrimitive::ValueNeq));
    assert_eq!(first, 1);
    assert_eq!(registries.native(token), Some(NativePrimitive::ValueNeq));
    registries.free(token);
    assert_eq!(registries.epoch(token), None);
    assert_eq!(registries.native(token), None);
    let second = registries.mint(token, Authority::Native(NativePrimitive::ValueNeq));
    assert_eq!(second, 2);
    // A new meaning takes the place of the earlier one.
    let third = registries.mint(token, Authority::Fresh);
    assert_eq!(third, 3);
    assert_eq!(registries.epoch(token), Some(3));
    assert_eq!(registries.native(token), None);
    assert!(registries.is_fresh(token));
    let other = ExternalFunctionId::new(8);
    let descriptor = FdDescriptor::SetIfEmpty {
        view_name: "view".to_string(),
        n_keys: 1,
        out_arity: 1,
    };
    assert_eq!(registries.mint(other, Authority::Fd(descriptor)), 4);
    assert_eq!(registries.fd(other).map(|found| found.view_name()), Some("view"));
    assert_eq!(registries.epoch(token), Some(3));
}
