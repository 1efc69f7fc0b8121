use egglog_core_relations::{BaseValues, Boxed};
use egglog_duckdb::authority::{AuthorityRegistries, FdDescriptor, NativePrimitive};
use egglog_duckdb::base::{canonical_unit, small_integer, BaseTypes, ScalarSqlType};
use egglog_duckdb::catalog::{sql_table, LiteralSql, WriteCapability};
use egglog_duckdb::egraph::{
    get_canon_repr, lookup_id, CompiledRule, EGraph, RuleExecutionStats, RunStep,
};
use egglog_duckdb::ir::{
    BaseValueId, ColumnTy, DefaultVal, ExternalFunctionId, FunctionConfig, FunctionId, MergeAction,
    MergeFn, RuleId, Value,
};
use egglog_duckdb::merge_program::{MergeOpKind, MergePrimitive, MergeProgramAction};
use egglog_duckdb::path_compress::PathCompressionPlan;
use egglog_duckdb::rejection::{reject, Rejection, Scope};
use egglog_duckdb::scalar_expr::{ScalarAuthority, ScalarExpression, ScalarForm, SqlPiece};
use egglog_duckdb::text::safe_scratch_name;
use egglog_numeric_id::NumericId;
use ordered_float::OrderedFloat;

fn backend() -> (EGraph, BaseValues) {
    let mut base = BaseValues::default();
    let float = base.register_type::<Boxed<OrderedFloat<f64>>>();
    let types = BaseTypes::register(&mut base, BaseValueId { rep: float.rep() });
    (EGraph::new(types), base)
}

fn config(name: &str, schema: Vec<ColumnTy>, n_vals: usize, merge: MergeFn) -> FunctionConfig {
    FunctionConfig {
        name: name.to_string(),
        schema,
        n_vals,
        n_identity_vals: None,
        default: DefaultVal::Fail,
        merge,
        can_subsume: false,
    }
}

fn add_table(egraph: &mut EGraph, config: FunctionConfig) -> FunctionId {
    let name = config.name.clone();
    let registries = AuthorityRegistries::new();
    match egraph.catalog.register_table(config, Some(&registries)) {
        Ok(id) => id,
        Err(error) => panic!("{name} was refused: {}", error.report(&name)),
    }
}

fn refusal(egraph: &mut EGraph, config: FunctionConfig) -> String {
    let registries = AuthorityRegistries::new();
    egraph.catalog.register_table(config, Some(&registries)).unwrap_err().message("")
}

fn some_plan(table: u32) -> CompiledRule {
    CompiledRule::PathCompression(PathCompressionPlan {
        seminaive: true,
        union_find: FunctionId::new(table),
        sym: FunctionId::new(0),
        trans: FunctionId::new(1),
    })
}

fn run_stats(watermark: u64, rules: usize) -> RuleExecutionStats {
    RuleExecutionStats {
        statement_count: 5,
        matched_rows: vec![2; rules],
        inserted_rows: vec![1; rules],
        changed: true,
        watermark,
    }
}

fn watermarks(step: Result<RunStep, Rejection>) -> Option<Vec<u64>> {
    match step {
        Ok(RunStep::Execute(from)) => Some(from),
        _ => None,
    }
}

// ---------------------------------------------------------------------------
// Tables.

#[test]
fn function_config_is_retained_and_deferred_preflight_preserves_ids() {
    let (mut egraph, mut base) = backend();
    let id = ColumnTy::Id;
    let integer = ColumnTy::Base(egraph.catalog.types.integer);
    let five = Value::new(base.get(5i64).rep());
    let literal = |scalar, value, sql: &str| LiteralSql { scalar, value, sql: sql.to_string() };
    egraph.catalog.literals.push(literal(ScalarSqlType::I64, five, "CAST('5' AS BIGINT)"));
    egraph.catalog.literals.push(literal(ScalarSqlType::Id, Value::new(10), "ten"));
    egraph.catalog.literals.push(literal(ScalarSqlType::Id, Value::new(5), "five"));
    assert_eq!(base.register_type::<i64>().rep(), egraph.catalog.types.integer.rep);

    add_table(&mut egraph, config("executable", vec![id, id], 1, MergeFn::Old));
    let tuple_output = add_table(
        &mut egraph,
        config(
            "tuple-output",
            vec![id, id, id],
            2,
            MergeFn::Columns(vec![MergeFn::OldCol(0), MergeFn::OldCol(1)]),
        ),
    );
    let function_reader = add_table(
        &mut egraph,
        config(
            "tuple-function-reader",
            vec![id, id],
            1,
            MergeFn::Function(tuple_output, vec![MergeFn::Old, MergeFn::New]),
        ),
    );
    let lookup_reader = add_table(
        &mut egraph,
        config(
            "tuple-lookup-reader",
            vec![id, id],
            1,
            MergeFn::Lookup(tuple_output, vec![MergeFn::Old]),
        ),
    );
    assert!(matches!(
        &egraph.catalog.table_info(function_reader).unwrap().merge,
        MergeFn::Function(id, arguments) if *id == tuple_output && arguments.len() == 2
    ));
    assert!(matches!(
        &egraph.catalog.table_info(lookup_reader).unwrap().merge,
        MergeFn::Lookup(id, arguments) if *id == tuple_output && arguments.len() == 1
    ));
    let primitive = ExternalFunctionId::new(0);
    let typed_primitive = add_table(
        &mut egraph,
        config(
            "typed-primitive-retention",
            vec![id, integer],
            1,
            MergeFn::Primitive {
                id: primitive,
                name: "ordering-min".to_string(),
                input: vec![integer; 2],
                output: integer,
                args: vec![MergeFn::Const { value: five, ty: integer }, MergeFn::Old],
            },
        ),
    );
    match &egraph.catalog.table_info(typed_primitive).unwrap().merge {
        MergeFn::Primitive { id, name, input, output, args } => {
            assert_eq!(*id, primitive);
            assert_eq!(name, "ordering-min");
            assert_eq!(input, &[integer; 2]);
            assert_eq!(*output, integer);
            assert!(matches!(
                args.as_slice(),
                [MergeFn::Const { ty, .. }, MergeFn::Old] if *ty == integer
            ));
        }
        _ => panic!("typed primitive merge was not retained"),
    }
    let predicted = egraph.peek_next_function_id();
    let mut self_write = config(
        "retained-self-write",
        vec![id, id, id],
        2,
        MergeFn::Block {
            actions: vec![
                MergeAction::Let {
                    slot: 0,
                    value: MergeFn::Const { value: Value::new(10), ty: id },
                },
                MergeAction::SetRow(
                    predicted,
                    vec![
                        MergeFn::Const { value: Value::new(5), ty: id },
                        MergeFn::LetVar(0),
                        MergeFn::NewCol(1),
                    ],
                ),
            ],
            result: Box::new(MergeFn::Columns(vec![MergeFn::LetVar(0), MergeFn::NewCol(1)])),
        },
    );
    self_write.n_identity_vals = Some(1);
    self_write.default = DefaultVal::Const(Value::new(42));
    self_write.can_subsume = true;
    let deferred = add_table(&mut egraph, self_write);
    assert_eq!(deferred, predicted);
    let info = egraph.catalog.table_info(deferred).unwrap();
    assert_eq!(info.name, "retained-self-write");
    assert_eq!(info.schema, [id, id, id]);
    assert_eq!(info.n_keys, 1);
    assert_eq!(info.n_vals, 2);
    assert_eq!(info.n_identity_vals, Some(1));
    assert!(matches!(info.default, DefaultVal::Const(value) if value == Value::new(42)));
    assert!(info.can_subsume);
    assert_eq!(info.write_capability, WriteCapability::Deferred);
    match &info.merge {
        MergeFn::Block { actions, result } => {
            assert_eq!(actions.len(), 2);
            assert!(matches!(actions[0], MergeAction::Let { slot: 0, .. }));
            assert!(matches!(actions[1], MergeAction::SetRow(id, _) if id == deferred));
            assert!(
                matches!(result.as_ref(), MergeFn::Columns(columns) if columns.len() == 2)
            );
        }
        _ => panic!("full merge block was not retained"),
    }

    let next = egraph.peek_next_function_id();
    for (name, merge) in [
        ("invalid-function-arity", MergeFn::Function(tuple_output, vec![MergeFn::Old])),
        (
            "invalid-nested-columns",
            MergeFn::Columns(vec![MergeFn::Columns(vec![MergeFn::Old])]),
        ),
        ("invalid-self-read", MergeFn::Function(next, vec![MergeFn::Old])),
    ] {
        let registries = AuthorityRegistries::new();
        let refused = config(name, vec![id, id], 1, merge);
        assert!(egraph.catalog.register_table(refused, Some(&registries)).is_err(), "{name}");
        assert_eq!(egraph.peek_next_function_id(), next);
    }
    let mut valid = config("admitted-after-invalid", vec![id, id], 1, MergeFn::New);
    valid.default = DefaultVal::FreshId;
    let admitted = add_table(&mut egraph, valid);
    assert_eq!(admitted, next, "invalid configs must not consume table ids");
}

#[test]
fn malformed_configs_are_refused_with_their_reason() {
    let (mut egraph, _) = backend();
    let id = ColumnTy::Id;
    let unknown = ColumnTy::Base(BaseValueId { rep: 900 });
    assert_eq!(
        refusal(&mut egraph, config("values", vec![id], 2, MergeFn::Old)),
        "function config has more values than columns"
    );
    assert_eq!(
        refusal(&mut egraph, config("column", vec![id, unknown], 1, MergeFn::Old)),
        "DuckDB has no scalar column for base value type 900"
    );
    assert_eq!(
        refusal(&mut egraph, config("self", vec![id, id], 1, MergeFn::Lookup(
            FunctionId::new(0),
            vec![MergeFn::Old],
        ))),
        "merge reads its own function table"
    );
    assert_eq!(
        refusal(&mut egraph, config("unbound", vec![id, id], 1, MergeFn::LetVar(3))),
        "merge LetVar is unbound"
    );
    assert_eq!(
        refusal(&mut egraph, config("missing", vec![id, id], 1, MergeFn::OldCol(1))),
        "merge expression references a missing owner value column"
    );
    assert_eq!(egraph.peek_next_function_id(), FunctionId::new(0));
}

#[test]
fn write_capability_follows_the_merge() {
    let (mut egraph, _) = backend();
    let id = ColumnTy::Id;
    for (merge, capability) in [
        (MergeFn::AssertEq, WriteCapability::AssertEq),
        (MergeFn::Old, WriteCapability::KeepOld),
        (MergeFn::New, WriteCapability::Deferred),
    ] {
        let table = add_table(&mut egraph, config("table", vec![id, id], 1, merge));
        let info = egraph.catalog.table_info(table).unwrap();
        assert_eq!(info.write_capability, capability);
        assert_eq!(info.arity(), 2);
        assert_eq!(info.columns, vec![ScalarSqlType::Id, ScalarSqlType::Id]);
    }
    assert_eq!(
        egraph.catalog.table_info(FunctionId::new(3)).unwrap_err().message(""),
        "DuckDB has no function table with id 3"
    );
    assert_eq!(
        egraph.catalog.table_by_exact_name("table").unwrap_err().message(""),
        "the function table name `table` is not unique"
    );
    assert_eq!(
        egraph.catalog.table_by_exact_name("tabl").unwrap_err().message(""),
        "no function table has the name `tabl`"
    );
}

#[test]
fn tables_are_stored_under_distinct_relations() {
    assert_eq!(sql_table(FunctionId::new(0)), "egglog_function_0");
    assert_eq!(sql_table(FunctionId::new(12)), "egglog_function_12");
    assert_eq!(sql_table(FunctionId::new(u32::MAX)), "egglog_function_4294967295");
    assert_ne!(sql_table(FunctionId::new(1)), sql_table(FunctionId::new(11)));
    assert!(safe_scratch_name(&sql_table(FunctionId::new(907))));
}

// ---------------------------------------------------------------------------
// Base values.

#[test]
fn scalar_types_keep_the_ids_that_the_registry_gave() {
    let mut base = BaseValues::default();
    let string = base.register_type::<Boxed<String>>().rep();
    let float = base.register_type::<Boxed<OrderedFloat<f64>>>().rep();
    let types = BaseTypes::register(&mut base, BaseValueId { rep: float });
    let again = BaseTypes::register(&mut base, BaseValueId { rep: float });
    assert_eq!(types, again);
    assert_eq!(types.string.rep, string);
    assert_eq!(types.unit.rep, base.register_type::<()>().rep());
    assert_eq!(types.boolean.rep, base.register_type::<bool>().rep());
    assert_eq!(types.integer.rep, base.register_type::<i64>().rep());
    for (ty, scalar) in [
        (types.unit, ScalarSqlType::Unit),
        (types.boolean, ScalarSqlType::Bool),
        (types.integer, ScalarSqlType::I64),
        (types.string, ScalarSqlType::String),
        (types.float, ScalarSqlType::F64),
    ] {
        assert_eq!(types.from_column(ColumnTy::Base(ty)).unwrap(), scalar);
    }
    assert_eq!(types.from_column(ColumnTy::Id).unwrap(), ScalarSqlType::Id);
}

#[test]
fn the_unit_value_and_small_numbers_are_stored_in_place() {
    let (_, base) = backend();
    assert_eq!(canonical_unit(&base), Value::new(0));
    for number in [0, 1, 7, 0x7fff_fffe, 0x7fff_ffff] {
        let value = Value::new(base.get(number as i64).rep());
        assert_eq!(small_integer(&base, value), Some(number));
    }
    for number in [-1, i64::MIN, 0x8000_0000, i64::MAX] {
        let value = Value::new(base.get(number as i64).rep());
        assert_eq!(small_integer(&base, value), None);
    }
}

// ---------------------------------------------------------------------------
// Merge programs.

#[test]
fn a_merge_program_is_straight_line_and_names_what_it_touches() {
    let (mut egraph, _) = backend();
    let id = ColumnTy::Id;
    let log = add_table(&mut egraph, config("log", vec![id, id], 1, MergeFn::AssertEq));
    let read = add_table(&mut egraph, config("read", vec![id, id], 1, MergeFn::Old));
    let owner = add_table(
        &mut egraph,
        config(
            "owner",
            vec![id, id],
            1,
            MergeFn::Block {
                actions: vec![
                    MergeAction::Let { slot: 0, value: MergeFn::Lookup(read, vec![MergeFn::New]) },
                    MergeAction::SetRow(log, vec![MergeFn::Old, MergeFn::LetVar(0)]),
                ],
                result: Box::new(MergeFn::LetVar(0)),
            },
        ),
    );
    let program = &egraph.catalog.table_info(owner).unwrap().merge_program;
    assert_eq!(program.owner, owner);
    assert_eq!((program.n_keys, program.n_vals), (1, 1));
    assert!(matches!(program.ops[0].kind, MergeOpKind::NewCol(0)));
    assert!(matches!(
        &program.ops[1].kind,
        MergeOpKind::Lookup { target, arguments } if *target == read && *arguments == vec![0]
    ));
    assert!(matches!(program.ops[2].kind, MergeOpKind::OldCol(0)));
    assert_eq!(program.ops.len(), 3);
    assert!(matches!(program.actions[0], MergeProgramAction::Bind { slot: 0, value: 1 }));
    assert!(matches!(
        &program.actions[1],
        MergeProgramAction::SetRow { target, row } if *target == log && *row == vec![2, 1]
    ));
    assert_eq!(program.results, vec![1]);
    assert!(program.read_deps.iter().eq([read.rep].iter()));
    // A lookup may insert into the table it reads.
    assert!(program.write_targets.iter().eq([log.rep, read.rep].iter()));
    // The table it reads is one level below.
    let below = egraph.catalog.table_info(read).unwrap().merge_program.dependency_level;
    assert_eq!(program.dependency_level, below + 1);
    assert_eq!(
        program.ensure_proof_supported("owner").unwrap_err().message(""),
        "DuckDB checkpoint-0 generic merge for `owner` does not support Function or Lookup \
         operations"
    );
}

#[test]
fn unsupported_merge_operations_are_named() {
    let (mut egraph, _) = backend();
    let id = ColumnTy::Id;
    let union_id =
        add_table(&mut egraph, config("union-id", vec![id, id], 1, MergeFn::UnionId));
    let union = add_table(
        &mut egraph,
        config(
            "union",
            vec![id, id],
            1,
            MergeFn::Block {
                actions: vec![MergeAction::Union(MergeFn::Old, MergeFn::New)],
                result: Box::new(MergeFn::Old),
            },
        ),
    );
    let mut registries = AuthorityRegistries::new();
    registries.authority_epochs.insert(4, 1);
    registries.fd_descriptors.insert(
        4,
        FdDescriptor::SetIfEmpty { view_name: "view".to_string(), n_keys: 1, out_arity: 1 },
    );
    let fd_merge = MergeFn::Primitive {
        id: ExternalFunctionId::new(4),
        name: "set-if-empty".to_string(),
        input: vec![id, id],
        output: id,
        args: vec![MergeFn::Old, MergeFn::New],
    };
    let fd = egraph
        .catalog
        .register_table(config("fd", vec![id, id], 1, fd_merge), Some(&registries))
        .unwrap();
    let unsupported = |table: FunctionId| {
        egraph
            .catalog
            .table_info(table)
            .unwrap()
            .merge_program
            .ensure_proof_supported("t")
            .unwrap_err()
            .message("")
    };
    assert_eq!(
        unsupported(union_id),
        "DuckDB generic merge for `t` does not support MergeFn::UnionId"
    );
    assert_eq!(
        unsupported(union),
        "DuckDB generic merge for `t` does not support MergeAction::Union"
    );
    assert_eq!(
        unsupported(fd),
        "DuckDB checkpoint-0 generic merge for `t` does not support FD operations"
    );
    let program = &egraph.catalog.table_info(fd).unwrap().merge_program;
    assert_eq!(program.required_authorities.get(&4), Some(&1));
}

#[test]
fn a_merge_without_registries_authenticates_nothing() {
    let (mut egraph, _) = backend();
    let id = ColumnTy::Id;
    let merge = MergeFn::Primitive {
        id: ExternalFunctionId::new(9),
        name: "ordering-min".to_string(),
        input: vec![id, id],
        output: id,
        args: vec![MergeFn::Old, MergeFn::New],
    };
    let table = egraph.catalog.register_table(config("t", vec![id, id], 1, merge), None).unwrap();
    let program = &egraph.catalog.table_info(table).unwrap().merge_program;
    assert!(matches!(
        &program.ops[2].kind,
        MergeOpKind::Primitive { primitive: MergePrimitive::Unauthenticated { token }, .. }
            if token.rep == 9
    ));
    assert!(program.required_authorities.is_empty());
}

#[test]
fn an_expression_is_the_form_of_a_live_token() {
    let id = ColumnTy::Id;
    let forms = vec![ScalarForm {
        authority: ScalarAuthority::Native(NativePrimitive::OrderingMin),
        inputs: vec![id, id],
        output: id,
        value: vec![
            SqlPiece::Text("least(".to_string()),
            SqlPiece::Input(1),
            SqlPiece::Text(", ".to_string()),
            SqlPiece::Input(0),
            SqlPiece::Text(")".to_string()),
        ],
        defined: None,
    }];
    let token = ExternalFunctionId::new(3);
    let mut registries = AuthorityRegistries::new();
    let refused =
        ScalarExpression::authenticate(&forms, &registries, token, &vec![id, id], id).unwrap_err();
    assert_eq!(refused.message(""), "unauthenticated or callback primitive token 3");
    registries.native_primitives.insert(3, NativePrimitive::OrderingMin);
    let expression =
        ScalarExpression::authenticate(&forms, &registries, token, &vec![id, id], id).unwrap();
    assert_eq!(expression.token(), token);
    assert_eq!(expression.authority(), ScalarAuthority::Native(NativePrimitive::OrderingMin));
    let rendered = expression.render(&vec!["x".to_string(), "y".to_string()]);
    assert_eq!(rendered.value, "least(y, x)");
    assert!(rendered.is_total());
    let refused =
        ScalarExpression::authenticate(&forms, &registries, token, &vec![id], id).unwrap_err();
    assert_eq!(refused.message(""), "no SQL form for the signature of primitive token 3");
}

// ---------------------------------------------------------------------------
// Rules, runs and panics.

#[test]
fn diagnostics_do_not_consume_deferred_rule_panic() {
    let (mut egraph, _) = backend();
    egraph.invoke_panic("deferred rule failure");
    egraph.invoke_panic("a later failure");
    assert_eq!(egraph.peek_next_function_id().rep, 0);
    assert_eq!(egraph.live_rule_count(), 0);
    assert_eq!(egraph.pending_panic_message().as_deref(), Some("deferred rule failure"));
    let error = egraph.begin_run(&vec![]).unwrap_err();
    assert_eq!(error.message(""), "deferred rule failure");
    assert!(egraph.pending_panic_message().is_none());
    assert!(matches!(egraph.begin_run(&vec![]), Ok(RunStep::Idle)));
    assert!(egraph.take_deferred_panic().is_ok());
}

#[test]
fn backend_starts_without_host_function_tables() {
    let (egraph, _) = backend();
    assert_eq!(egraph.peek_next_function_id().rep, 0);
    assert_eq!(egraph.live_rule_count(), 0);
    assert_eq!(egraph.last_input_rows(), 0);
    assert_eq!(egraph.last_rule_statement_count(), 0);
}

#[test]
fn unknown_rule_boundary_fails_closed() {
    let (mut egraph, _) = backend();
    assert!(matches!(egraph.begin_run(&vec![]), Ok(RunStep::Idle)));
    let error = egraph.begin_run(&vec![RuleId::new(0)]).unwrap_err();
    assert!(error.message("").contains("freed or unknown rule"));
    assert_eq!(error.message(""), "DuckDB cannot run freed or unknown rule 0");
}

#[test]
fn a_freed_rule_refuses_every_run_and_its_id_stays_taken() {
    let (mut egraph, _) = backend();
    let first = egraph.add_rule(Ok(some_plan(7))).unwrap();
    let second = egraph.add_rule(Ok(some_plan(8))).unwrap();
    assert_eq!((first.rep, second.rep), (0, 1));
    egraph.free_rule(first);
    egraph.free_rule(RuleId::new(44));
    assert_eq!(egraph.live_rule_count(), 1);
    assert!(egraph.plan(first).is_none());
    assert!(egraph.plan(second).is_some());
    let error = egraph.begin_run(&vec![second, first]).unwrap_err();
    assert_eq!(error.message(""), "DuckDB cannot run freed or unknown rule 0");
    assert_eq!(watermarks(egraph.begin_run(&vec![second])), Some(vec![0]));
    assert_eq!(egraph.add_rule(Ok(some_plan(9))).unwrap(), RuleId::new(2));
}

#[test]
fn a_run_moves_the_watermarks_of_the_scheduled_rules() {
    let (mut egraph, _) = backend();
    let rules: Vec<RuleId> =
        (0..3).map(|table| egraph.add_rule(Ok(some_plan(table))).unwrap()).collect();
    let scheduled = vec![rules[2], rules[0]];
    assert_eq!(watermarks(egraph.begin_run(&scheduled)), Some(vec![0, 0]));
    assert!(egraph.complete_run(&scheduled, run_stats(6, 2)));
    assert_eq!(watermarks(egraph.begin_run(&rules)), Some(vec![6, 0, 6]));
    assert_eq!(egraph.last_rule_statement_count(), 5);
    assert_eq!(egraph.last_rule_match_counts(), &[2, 2]);
    assert_eq!(egraph.last_rule_insert_counts(), &[1, 1]);
    // An empty schedule leaves no counts.
    assert!(matches!(egraph.begin_run(&vec![]), Ok(RunStep::Idle)));
    assert_eq!(egraph.last_rule_statement_count(), 0);
    assert!(egraph.last_rule_match_counts().is_empty());
}

#[test]
fn a_dead_rule_is_named_before_a_repeated_one() {
    let (mut egraph, _) = backend();
    let rule = egraph.add_rule(Ok(some_plan(0))).unwrap();
    let dead = RuleId::new(9);
    let message = |egraph: &mut EGraph, requested: Vec<RuleId>| {
        egraph.begin_run(&requested).unwrap_err().message("")
    };
    assert_eq!(
        message(&mut egraph, vec![rule, rule, dead]),
        "DuckDB cannot run freed or unknown rule 9"
    );
    let other = egraph.add_rule(Ok(some_plan(1))).unwrap();
    assert_eq!(
        message(&mut egraph, vec![rule, other, other, rule]),
        "DuckDB cannot run a schedule with duplicate RuleId 1"
    );
    assert_eq!(watermarks(egraph.begin_run(&vec![other, rule])), Some(vec![0, 0]));
}

#[test]
fn a_failed_run_can_be_tried_again() {
    let (mut egraph, _) = backend();
    let rule = egraph.add_rule(Ok(some_plan(0))).unwrap();
    let requested = vec![rule];
    assert_eq!(watermarks(egraph.begin_run(&requested)), Some(vec![0]));
    assert!(egraph.finish_run(&requested, Ok(run_stats(4, 1))).unwrap());
    assert_eq!(watermarks(egraph.begin_run(&requested)), Some(vec![4]));
    let failure = Err(reject(Scope::Bare, "conflict"));
    let error = egraph.finish_run(&requested, failure).unwrap_err();
    assert_eq!(error.message(""), "conflict");
    assert_eq!(watermarks(egraph.begin_run(&requested)), Some(vec![4]));
    assert_eq!(egraph.last_rule_statement_count(), 5);
    assert_eq!(egraph.last_rule_match_counts(), &[2]);
}

#[test]
fn refused_rules_consume_no_id() {
    let (mut egraph, _) = backend();
    let refused = egraph.add_rule(Err(reject(Scope::Scalar, "is refused"))).unwrap_err();
    assert_eq!(refused.message("r"), "DuckDB scalar rule `r` is refused");
    assert_eq!(refused.report("r"), "DuckDB scalar rule `r` is refused");
    assert_eq!(egraph.add_rule(Ok(some_plan(0))).unwrap(), RuleId::new(0));
}

#[test]
fn a_failed_batch_leaves_no_counts() {
    let (mut egraph, _) = backend();
    let targets: Vec<FunctionId> = [3, 1, 3, 3, 1].into_iter().map(FunctionId::new).collect();
    assert!(egraph.finish_insert(&targets, Ok(4)).is_ok());
    assert_eq!(egraph.last_input_target_statements(), 2);
    assert_eq!(egraph.last_input_rows(), 5);
    assert_eq!(egraph.last_input_inserted_rows(), 4);
    assert!(egraph.finish_insert(&vec![], Ok(0)).is_ok());
    assert_eq!(egraph.last_input_target_statements(), 0);
    assert_eq!(egraph.last_input_rows(), 0);
    assert!(egraph.finish_insert(&targets, Ok(1)).is_ok());
    assert_eq!(egraph.last_input_target_statements(), 2);
    let conflict = Err(reject(Scope::Bare, "conflict"));
    let error = egraph.finish_insert(&targets, conflict).unwrap_err();
    assert_eq!(error.message(""), "conflict");
    assert_eq!(egraph.last_input_target_statements(), 0);
    assert_eq!(egraph.last_input_rows(), 0);
    assert_eq!(egraph.last_input_inserted_rows(), 0);
}

#[test]
fn values_stand_for_themselves_and_ids_come_behind_the_keys() {
    assert_eq!(get_canon_repr(Value::new(5), ColumnTy::Id), Value::new(5));
    let row = Some(vec![Value::new(1), Value::new(2), Value::new(3)]);
    assert_eq!(lookup_id(&row, &vec![Value::new(1)]), Some(Value::new(2)));
    assert_eq!(lookup_id(&row, &vec![Value::new(1), Value::new(2)]), Some(Value::new(3)));
    assert_eq!(lookup_id(&None, &vec![Value::new(1)]), None);
}
