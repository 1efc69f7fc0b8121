//! The backend's own state: registered tables, admitted rules with their
//! watermarks, the deferred panic, and the counts of the latest runs.
//!
//! Rows live in the SQL engine. What is decided here is which calls reach the
//! engine, and what is remembered of its answers.

use std::collections::BTreeSet;

use vstd::prelude::*;

use crate::action_plan::{ScalarActionPlan, PlanView};
use crate::action_rule::compile_scalar_action;
use crate::authority::AuthorityRegistries;
use crate::base::{BaseTypes, ScalarSqlType};
use crate::catalog::{Catalog, LiteralSql, TableInfo, WriteCapability};
use crate::ir::{ColumnTy, FunctionConfig, FunctionId, MergeFn, RuleId, RuleSpec, Value};
use crate::marker_rekey::{compile_marker_rekey, MarkerRekeyPlan, MarkerRekeyView};
use crate::merge_program::compile_merge_program;
use crate::path_compress::{
    compile_path_compression, looks_like_path_compression, PathCompressionPlan,
};
use crate::rebuild::{compile_standard_rebuild, StandardRebuildPlan, StandardRebuildView};
use crate::rejection::{reject, reject_with, Rejection, Scope};
use crate::scalar_expr::ScalarForm;
use crate::text::append_number;
use egglog_core_relations::BaseValues;
#[allow(unused_imports)]
use crate::action_plan::{authorized, unauthorized};
#[allow(unused_imports)]
use crate::action_rule::scalar_plan;
#[allow(unused_imports)]
use crate::base::scalar_of;
#[allow(unused_imports)]
use crate::marker_rekey::marker_rekey;
#[allow(unused_imports)]
use crate::merge_program::{lemma_read_level, program_of, table_context, MergeProgramView};
#[allow(unused_imports)]
use crate::path_compress::{path_check, path_outer, path_plan};
#[allow(unused_imports)]
use crate::rebuild::standard_rebuild;
#[allow(unused_imports)]
use crate::rejection::{agrees_if_owned, rejected, RejectionView};
#[allow(unused_imports)]
use crate::shape::{lemma_first_scalar_fault, scalars_check};
#[allow(unused_imports)]
use crate::text::decimal;

verus! {

// ---------------------------------------------------------------------------
// Tables.

/// How conflicting writes to a table with a merge are resolved.
pub open spec fn capability_of(merge: MergeFn) -> WriteCapability {
    match merge {
        MergeFn::AssertEq => WriteCapability::AssertEq,
        MergeFn::Old => WriteCapability::KeepOld,
        _ => WriteCapability::Deferred,
    }
}

/// The program of a configuration's merge, for the next free table id.
pub open spec fn config_program(
    catalog: Catalog,
    config: FunctionConfig,
    authorities: Option<AuthorityRegistries>,
) -> Result<MergeProgramView, RejectionView> {
    program_of(
        table_context(
            catalog,
            FunctionId { rep: catalog.tables@.len() as u32 },
            config,
            authorities,
        ),
        config.merge,
        config.n_identity_vals,
    )
}

/// Why a configuration cannot be registered, if it cannot.
pub open spec fn config_fault(
    catalog: Catalog,
    config: FunctionConfig,
    authorities: Option<AuthorityRegistries>,
) -> Option<RejectionView> {
    if catalog.tables@.len() >= u32::MAX {
        Some(rejected(Scope::Bare, "DuckDB has no function table id left"@))
    } else if config.n_vals > config.schema@.len() {
        Some(rejected(Scope::Bare, "function config has more values than columns"@))
    } else if scalars_check(catalog, config.schema@, config.schema@.len()).fault is Some {
        scalars_check(catalog, config.schema@, config.schema@.len()).fault
    } else {
        match config_program(catalog, config, authorities) {
            Err(error) => Some(error),
            Ok(program) => if program.read_deps.contains(catalog.tables@.len() as u32) {
                Some(rejected(Scope::Bare, "merge reads its own function table"@))
            } else {
                None
            },
        }
    }
}

/// A table keeps its complete configuration, with the scalar type of every
/// column and the program of its merge.
pub open spec fn retains(
    info: TableInfo,
    catalog: Catalog,
    config: FunctionConfig,
    authorities: Option<AuthorityRegistries>,
) -> bool {
    &&& info.name@ == config.name@
    &&& info.schema@ == config.schema@
    &&& info.n_keys == config.schema@.len() - config.n_vals
    &&& info.n_vals == config.n_vals
    &&& info.n_identity_vals == config.n_identity_vals
    &&& info.default == config.default
    &&& info.merge == config.merge
    &&& info.can_subsume == config.can_subsume
    &&& info.columns@.len() == config.schema@.len()
    &&& forall|i: int|
        0 <= i < config.schema@.len() ==> scalar_of(catalog.types, config.schema@[i]) == Ok::<
            ScalarSqlType,
            RejectionView,
        >(#[trigger] info.columns@[i])
    &&& info.write_capability == capability_of(config.merge)
    &&& config_program(catalog, config, authorities) == Ok::<MergeProgramView, RejectionView>(
        info.merge_program@,
    )
}

impl Catalog {
    /// The scalar types of a schema.
    fn scalar_columns(&self, schema: &Vec<ColumnTy>) -> (columns: Result<
        Vec<ScalarSqlType>,
        Rejection,
    >)
        ensures
            match columns {
                Ok(found) => {
                    &&& scalars_check(*self, schema@, schema@.len()).fault is None
                    &&& found@.len() == schema@.len()
                    &&& forall|i: int|
                        0 <= i < schema@.len() ==> scalar_of(self.types, schema@[i]) == Ok::<
                            ScalarSqlType,
                            RejectionView,
                        >(#[trigger] found@[i])
                },
                Err(error) => scalars_check(*self, schema@, schema@.len()).fault == Some(error@),
            },
    {
        let mut columns: Vec<ScalarSqlType> = Vec::new();
        let mut i: usize = 0;
        while i < schema.len()
            invariant
                i <= schema.len(),
                columns.len() == i,
                scalars_check(*self, schema@, i as nat).fault is None,
                forall|j: int|
                    0 <= j < i ==> scalar_of(self.types, schema@[j]) == Ok::<
                        ScalarSqlType,
                        RejectionView,
                    >(#[trigger] columns@[j]),
            decreases schema.len() - i,
        {
            match self.types.from_column(schema[i]) {
                Ok(scalar) => {
                    columns.push(scalar);
                },
                Err(error) => {
                    proof {
                        lemma_first_scalar_fault(
                            *self,
                            schema@,
                            i as nat + 1,
                            schema@.len(),
                        );
                    }
                    return Err(error);
                },
            }
            i += 1;
        }
        Ok(columns)
    }

    /// The id that the next registered table gets.
    pub fn next_table_id(&self) -> (id: FunctionId)
        requires
            self.well_formed(),
        ensures
            id.rep == self.tables@.len(),
    {
        FunctionId { rep: self.tables.len() as u32 }
    }

    /// Registers a table. A configuration that is refused consumes no id.
    pub fn register_table(
        &mut self,
        config: FunctionConfig,
        authorities: Option<&AuthorityRegistries>,
    ) -> (registered: Result<FunctionId, Rejection>)
        requires
            old(self).well_formed(),
        ensures
            final(self).well_formed(),
            ({
                let live = match authorities {
                    Some(registries) => Some(*registries),
                    None => None,
                };
                match registered {
                    Ok(id) => {
                        &&& config_fault(*old(self), config, live) is None
                        &&& id.rep == old(self).tables@.len()
                        &&& final(self).tables@.len() == old(self).tables@.len() + 1
                        &&& final(self).tables@.drop_last() == old(self).tables@
                        &&& retains(final(self).tables@.last(), *old(self), config, live)
                        &&& final(self).types == old(self).types
                        &&& final(self).literals == old(self).literals
                        &&& final(self).forms == old(self).forms
                    },
                    Err(error) => {
                        &&& config_fault(*old(self), config, live) == Some(error@)
                        &&& *final(self) == *old(self)
                    },
                }
            }),
    {
        if self.tables.len() >= u32::MAX as usize {
            return Err(reject(Scope::Bare, "DuckDB has no function table id left"));
        }
        if config.n_vals > config.schema.len() {
            return Err(reject(Scope::Bare, "function config has more values than columns"));
        }
        let columns = self.scalar_columns(&config.schema)?;
        let id = self.next_table_id();
        let merge_program = compile_merge_program(self, id, &config, authorities)?;
        if merge_program.read_deps.contains(&id.rep) {
            return Err(reject(Scope::Bare, "merge reads its own function table"));
        }
        let ghost merge_deps = merge_program.read_deps@;
        let ghost context = table_context(
            *self,
            id,
            config,
            match authorities {
                Some(registries) => Some(*registries),
                None => None,
            },
        );
        let write_capability = match &config.merge {
            MergeFn::AssertEq => WriteCapability::AssertEq,
            MergeFn::Old => WriteCapability::KeepOld,
            _ => WriteCapability::Deferred,
        };
        let n_keys: usize = config.schema.len() - config.n_vals;
        let info = TableInfo {
            name: config.name,
            schema: config.schema,
            n_keys,
            n_vals: config.n_vals,
            n_identity_vals: config.n_identity_vals,
            default: config.default,
            merge: config.merge,
            can_subsume: config.can_subsume,
            columns,
            write_capability,
            merge_program,
        };
        self.tables.push(info);
        assert(self.tables@.drop_last() =~= old(self).tables@);
        assert forall|i: int, target: u32|
            0 <= i < self.tables@.len()
                && #[trigger] self.tables@[i].merge_program.write_targets@.contains(
                target,
            ) implies target < self.tables@.len() by {
            if i < old(self).tables@.len() {
                assert(old(self).tables@[i].merge_program.write_targets@.contains(target));
            }
        }
        assert forall|i: int, source: u32|
            0 <= i < self.tables@.len()
                && #[trigger] self.tables@[i].merge_program.read_deps@.contains(source) implies source
            < i && self.tables@[source as int].merge_program.dependency_level
            < self.tables@[i].merge_program.dependency_level by {
            if i < old(self).tables@.len() {
                assert(old(self).tables@[i].merge_program.read_deps@.contains(source));
            } else {
                lemma_read_level(context, merge_deps, source, old(self).tables@.len());
            }
        }
        assert forall|i: int| 0 <= i < self.tables@.len() implies (
        #[trigger] self.tables@[i]).well_formed() by {
            if i < old(self).tables@.len() {
                assert(old(self).tables@[i].well_formed());
            }
        }
        Ok(id)
    }
}

// ---------------------------------------------------------------------------
// Rules.

/// An admitted rule's immutable plan.
#[derive(Debug)]
pub enum CompiledRule {
    PathCompression(PathCompressionPlan),
    StandardRebuild(StandardRebuildPlan),
    MarkerRekey(MarkerRekeyPlan),
    ScalarAction(ScalarActionPlan),
}

/// What a [`CompiledRule`] says.
pub enum CompiledRuleView {
    PathCompression(PathCompressionPlan),
    StandardRebuild(StandardRebuildView),
    MarkerRekey(MarkerRekeyView),
    ScalarAction(PlanView),
}

impl View for CompiledRule {
    type V = CompiledRuleView;

    open spec fn view(&self) -> CompiledRuleView {
        match *self {
            CompiledRule::PathCompression(plan) => CompiledRuleView::PathCompression(plan),
            CompiledRule::StandardRebuild(plan) => CompiledRuleView::StandardRebuild(plan@),
            CompiledRule::MarkerRekey(plan) => CompiledRuleView::MarkerRekey(plan@),
            CompiledRule::ScalarAction(plan) => CompiledRuleView::ScalarAction(plan@),
        }
    }
}

/// The plan of a rule under the structural families and then the scalar
/// compiler, each of which either owns the rule or leaves it to the next.
pub open spec fn compiled_rule(
    catalog: Catalog,
    registries: AuthorityRegistries,
    rule: RuleSpec,
) -> Result<Option<CompiledRuleView>, RejectionView> {
    if path_outer(rule) {
        path_check(catalog, registries, rule).gives(
            Some(CompiledRuleView::PathCompression(path_plan(catalog, rule))),
        )
    } else {
        match standard_rebuild(catalog, rule) {
            Err(error) => Err(error),
            Ok(Some(plan)) => Ok(Some(CompiledRuleView::StandardRebuild(plan))),
            Ok(None) => match marker_rekey(catalog, registries, rule) {
                Err(error) => Err(error),
                Ok(Some(plan)) => Ok(Some(CompiledRuleView::MarkerRekey(plan))),
                Ok(None) => match scalar_plan(
                    catalog,
                    registries,
                    rule.seminaive,
                    rule.body@,
                    rule.head@,
                ) {
                    Err(error) => Err(error),
                    Ok(Some(plan)) => Ok(Some(CompiledRuleView::ScalarAction(plan))),
                    Ok(None) => Ok(None),
                },
            },
        }
    }
}

/// Compiles a rule. `Ok(None)` is a rule that no family here owns.
pub fn compile_rule(
    catalog: &Catalog,
    base_values: &BaseValues,
    registries: &AuthorityRegistries,
    rule: &RuleSpec,
) -> (compiled: Result<Option<CompiledRule>, Rejection>)
    requires
        catalog.well_formed(),
    ensures
        agrees_if_owned(compiled, compiled_rule(*catalog, *registries, *rule)),
{
    if looks_like_path_compression(rule) {
        let plan = compile_path_compression(catalog, registries, rule)?;
        return Ok(Some(CompiledRule::PathCompression(plan)));
    }
    match compile_standard_rebuild(catalog, base_values, rule)? {
        Some(plan) => {
            return Ok(Some(CompiledRule::StandardRebuild(plan)));
        },
        None => {},
    }
    match compile_marker_rekey(catalog, registries, rule)? {
        Some(plan) => {
            return Ok(Some(CompiledRule::MarkerRekey(plan)));
        },
        None => {},
    }
    match compile_scalar_action(catalog, base_values, registries, rule)? {
        Some(plan) => Ok(Some(CompiledRule::ScalarAction(plan))),
        None => Ok(None),
    }
}

/// An admitted rule and the generation up to which it has run.
#[derive(Debug)]
pub struct RegisteredRule {
    pub plan: CompiledRule,
    pub watermark: u64,
}

/// What an input batch did.
#[derive(Clone, Copy, Debug, PartialEq, Eq, Structural)]
pub struct InsertStats {
    pub target_statements: usize,
    pub rows: usize,
    pub inserted_rows: usize,
}

/// What a run of rules did.
#[derive(Debug)]
pub struct RuleExecutionStats {
    pub statement_count: usize,
    pub matched_rows: Vec<usize>,
    pub inserted_rows: Vec<usize>,
    pub changed: bool,
    pub watermark: u64,
}

impl InsertStats {
    /// Nothing was inserted.
    pub fn none() -> (stats: InsertStats)
        ensures
            stats == no_inserts(),
    {
        InsertStats { target_statements: 0, rows: 0, inserted_rows: 0 }
    }

    /// The counts of a batch: one statement per different table, all rows that
    /// were handed in, and those of them that were inserted.
    pub fn of_batch(targets: &Vec<FunctionId>, inserted_rows: usize) -> (stats: InsertStats)
        ensures
            stats == batch_stats(targets@, inserted_rows),
    {
        let mut seen: BTreeSet<u32> = BTreeSet::new();
        let mut target_statements: usize = 0;
        let mut i: usize = 0;
        assert(targets@.take(0).to_set() =~= Set::<FunctionId>::empty());
        while i < targets.len()
            invariant
                i <= targets.len(),
                target_statements <= i,
                target_statements == targets@.take(i as int).to_set().len(),
                forall|rep: u32|
                    #![trigger seen@.contains(rep)]
                    seen@.contains(rep) <==> targets@.take(i as int).to_set().contains(
                        FunctionId { rep },
                    ),
            decreases targets.len() - i,
        {
            let id = targets[i];
            let ghost before = targets@.take(i as int);
            proof {
                let after = targets@.take(i as int + 1);
                assert(id == FunctionId { rep: id.rep });
                assert(after =~= before.push(id));
                lemma_push_to_set(before, id);
                vstd::seq_lib::seq_to_set_is_finite(before);
            }
            if !seen.contains(&id.rep) {
                target_statements += 1;
            }
            seen.insert(id.rep);
            i += 1;
        }
        assert(targets@.take(targets@.len() as int) =~= targets@);
        InsertStats { target_statements, rows: targets.len(), inserted_rows }
    }
}

/// One more element of a sequence is one more member of its set.
proof fn lemma_push_to_set<A>(some: Seq<A>, last: A)
    ensures
        some.push(last).to_set() == some.to_set().insert(last),
{
    let all = some.push(last);
    assert forall|a: A| all.to_set().contains(a) <==> some.to_set().insert(last).contains(a) by {
        if some.contains(a) {
            let k = choose|k: int| 0 <= k < some.len() && some[k] == a;
            assert(all[k] == a);
        }
        if a == last {
            assert(all[some.len() as int] == a);
        }
        if all.contains(a) && a != last {
            let k = choose|k: int| 0 <= k < all.len() && all[k] == a;
            assert(some[k] == a);
        }
    }
    assert(all.to_set() =~= some.to_set().insert(last));
}

/// The counts of a batch: the different tables among `targets`, all its rows,
/// and the rows that were inserted.
pub open spec fn batch_stats(targets: Seq<FunctionId>, inserted_rows: usize) -> InsertStats {
    InsertStats {
        target_statements: targets.to_set().len() as usize,
        rows: targets.len() as usize,
        inserted_rows,
    }
}

/// Nothing was inserted.
pub open spec fn no_inserts() -> InsertStats {
    InsertStats { target_statements: 0, rows: 0, inserted_rows: 0 }
}

impl RuleExecutionStats {
    /// Nothing ran.
    pub open spec fn is_none(self) -> bool {
        &&& self.statement_count == 0
        &&& self.matched_rows@ == Seq::<usize>::empty()
        &&& self.inserted_rows@ == Seq::<usize>::empty()
        &&& !self.changed
        &&& self.watermark == 0
    }

    /// Nothing ran.
    pub fn none() -> (stats: RuleExecutionStats)
        ensures
            stats.is_none(),
    {
        RuleExecutionStats {
            statement_count: 0,
            matched_rows: Vec::new(),
            inserted_rows: Vec::new(),
            changed: false,
            watermark: 0,
        }
    }
}

/// What to do for a requested run.
#[derive(Debug)]
pub enum RunStep {
    /// No rule is scheduled, and the run is over without a change.
    Idle,
    /// The engine is to execute the scheduled rules, each from its watermark.
    Execute(Vec<u64>),
}

/// The backend's state beside the rows.
#[derive(Debug)]
pub struct EGraph {
    pub catalog: Catalog,
    /// The panic that waits for the next run.
    pub deferred_panic: Option<String>,
    /// The admitted rules, by id. A freed rule leaves its slot empty.
    pub rules: Vec<Option<RegisteredRule>>,
    pub last_insert: InsertStats,
    pub last_rule: RuleExecutionStats,
}

/// A rule is admitted and not freed.
pub open spec fn live_rule(rules: Seq<Option<RegisteredRule>>, id: RuleId) -> bool {
    id.rep < rules.len() && rules[id.rep as int] is Some
}

/// Every requested rule is live.
pub open spec fn all_rules_live(
    rules: Seq<Option<RegisteredRule>>,
    requested: Seq<RuleId>,
) -> bool {
    forall|i: int| 0 <= i < requested.len() ==> live_rule(rules, #[trigger] requested[i])
}

/// The first requested rule that is not live, at or after a position.
pub open spec fn first_dead(
    rules: Seq<Option<RegisteredRule>>,
    requested: Seq<RuleId>,
    from: int,
) -> Option<RuleId>
    decreases requested.len() - from,
{
    if from < 0 || from >= requested.len() {
        None
    } else if live_rule(rules, requested[from]) {
        first_dead(rules, requested, from + 1)
    } else {
        Some(requested[from])
    }
}

/// A schedule names one rule at two positions.
pub open spec fn repeated(requested: Seq<RuleId>) -> bool {
    exists|i: int, j: int|
        0 <= i < j < requested.len() && #[trigger] requested[i] == #[trigger] requested[j]
}

/// The first requested rule, at or after a position, that an earlier position
/// names too.
pub open spec fn first_repeat(requested: Seq<RuleId>, from: int) -> Option<RuleId>
    decreases requested.len() - from,
{
    if from < 0 || from >= requested.len() {
        None
    } else if requested.take(from).contains(requested[from]) {
        Some(requested[from])
    } else {
        first_repeat(requested, from + 1)
    }
}

/// The watermarks of requested rules.
pub open spec fn watermarks(
    rules: Seq<Option<RegisteredRule>>,
    requested: Seq<RuleId>,
) -> Seq<u64> {
    requested.map_values(|id: RuleId| rules[id.rep as int]->0.watermark)
}

/// The refusal to run a rule that is not live.
pub open spec fn dead_rule(id: RuleId) -> RejectionView {
    rejected(
        Scope::Bare,
        "DuckDB cannot run freed or unknown rule "@ + decimal(id.rep as nat),
    )
}

/// The refusal to run a rule twice in one schedule.
pub open spec fn repeated_rule(id: RuleId) -> RejectionView {
    rejected(
        Scope::Bare,
        "DuckDB cannot run a schedule with duplicate RuleId "@ + decimal(id.rep as nat),
    )
}

/// Why a schedule cannot run, if it cannot: one of its rules is not live, or
/// else it names a rule twice.
pub open spec fn schedule_fault(
    rules: Seq<Option<RegisteredRule>>,
    requested: Seq<RuleId>,
) -> Option<RejectionView> {
    match first_dead(rules, requested, 0) {
        Some(id) => Some(dead_rule(id)),
        None => match first_repeat(requested, 0) {
            Some(id) => Some(repeated_rule(id)),
            None => None,
        },
    }
}

impl EGraph {
    /// The panic that waits for the next run, if any.
    pub open spec fn deferred(self) -> Option<Seq<char>> {
        match self.deferred_panic {
            Some(message) => Some(message@),
            None => None,
        }
    }

    /// The tables are well formed, and rule ids fit their representation.
    pub open spec fn well_formed(self) -> bool {
        &&& self.catalog.well_formed()
        &&& self.rules@.len() <= u32::MAX
    }

    /// A backend without tables or rules.
    pub fn new(types: BaseTypes) -> (egraph: EGraph)
        ensures
            egraph.well_formed(),
            egraph.catalog.types == types,
            egraph.catalog.tables@ == Seq::<TableInfo>::empty(),
            egraph.catalog.literals@ == Seq::<LiteralSql>::empty(),
            egraph.catalog.forms@ == Seq::<ScalarForm>::empty(),
            egraph.rules@ == Seq::<Option<RegisteredRule>>::empty(),
            egraph.deferred() is None,
            egraph.last_insert == no_inserts(),
            egraph.last_rule.is_none(),
    {
        EGraph {
            catalog: Catalog {
                types,
                tables: Vec::new(),
                literals: Vec::new(),
                forms: Vec::new(),
            },
            deferred_panic: None,
            rules: Vec::new(),
            last_insert: InsertStats::none(),
            last_rule: RuleExecutionStats::none(),
        }
    }

    /// The id that the next table gets.
    pub fn peek_next_function_id(&self) -> (id: FunctionId)
        requires
            self.well_formed(),
        ensures
            id.rep == self.catalog.tables@.len(),
    {
        self.catalog.next_table_id()
    }

    /// The number of DML targets in the latest input batch.
    pub fn last_input_target_statements(&self) -> (count: usize)
        ensures
            count == self.last_insert.target_statements,
    {
        self.last_insert.target_statements
    }

    /// The number of logical rows in the latest input batch.
    pub fn last_input_rows(&self) -> (count: usize)
        ensures
            count == self.last_insert.rows,
    {
        self.last_insert.rows
    }

    /// The number of rows that the latest input batch inserted.
    pub fn last_input_inserted_rows(&self) -> (count: usize)
        ensures
            count == self.last_insert.inserted_rows,
    {
        self.last_insert.inserted_rows
    }

    /// The number of statements of the latest run.
    pub fn last_rule_statement_count(&self) -> (count: usize)
        ensures
            count == self.last_rule.statement_count,
    {
        self.last_rule.statement_count
    }

    /// The matches of each scheduled rule in the latest run.
    pub fn last_rule_match_counts(&self) -> (counts: &Vec<usize>)
        ensures
            counts@ == self.last_rule.matched_rows@,
    {
        &self.last_rule.matched_rows
    }

    /// The rows that each scheduled rule installed in the latest run.
    pub fn last_rule_insert_counts(&self) -> (counts: &Vec<usize>)
        ensures
            counts@ == self.last_rule.inserted_rows@,
    {
        &self.last_rule.inserted_rows
    }

    /// The message of the deferred panic. Asking leaves it in place.
    pub fn pending_panic_message(&self) -> (message: Option<String>)
        ensures
            match message {
                Some(text) => self.deferred() == Some(text@),
                None => self.deferred() is None,
            },
    {
        match &self.deferred_panic {
            Some(message) => Some(message.clone()),
            None => None,
        }
    }

    /// Delivers the deferred panic, once.
    pub fn take_deferred_panic(&mut self) -> (taken: Result<(), Rejection>)
        ensures
            match (taken, old(self).deferred()) {
                (Ok(_), None) => true,
                (Err(error), Some(message)) => error@ == rejected(Scope::Bare, message),
                _ => false,
            },
            final(self).deferred() is None,
            final(self).catalog == old(self).catalog,
            final(self).rules@ == old(self).rules@,
            final(self).last_insert == old(self).last_insert,
            final(self).last_rule == old(self).last_rule,
    {
        let message = self.deferred_panic.take();
        match message {
            Some(text) => Err(reject_with(Scope::Bare, text)),
            None => Ok(()),
        }
    }

    /// Records that a panic token was invoked. The first message wins.
    pub fn invoke_panic(&mut self, message: &str)
        ensures
            final(self).deferred() == (match old(self).deferred() {
                Some(first) => Some(first),
                None => Some(message@),
            }),
            final(self).catalog == old(self).catalog,
            final(self).rules@ == old(self).rules@,
            final(self).last_insert == old(self).last_insert,
            final(self).last_rule == old(self).last_rule,
    {
        if self.deferred_panic.is_none() {
            self.deferred_panic = Some(message.to_owned());
        }
    }

    /// Records the outcome of an input batch, given the table of each of its
    /// rows and the number of rows that the engine inserted. A failed batch
    /// leaves no counts.
    pub fn finish_insert(
        &mut self,
        targets: &Vec<FunctionId>,
        outcome: Result<usize, Rejection>,
    ) -> (done: Result<(), Rejection>)
        ensures
            match outcome {
                Ok(inserted_rows) => done is Ok && final(self).last_insert == batch_stats(
                    targets@,
                    inserted_rows,
                ),
                Err(error) => done == Err::<(), Rejection>(error) && final(self).last_insert
                    == no_inserts(),
            },
            final(self).catalog == old(self).catalog,
            final(self).rules@ == old(self).rules@,
            final(self).deferred() == old(self).deferred(),
            final(self).last_rule == old(self).last_rule,
    {
        match outcome {
            Ok(inserted_rows) => {
                self.last_insert = InsertStats::of_batch(targets, inserted_rows);
                Ok(())
            },
            Err(error) => {
                self.last_insert = InsertStats::none();
                Err(error)
            },
        }
    }

    /// Admits a compiled rule under the next id. A rule whose compilation
    /// failed consumes no id.
    pub fn add_rule(&mut self, compiled: Result<CompiledRule, Rejection>) -> (added: Result<
        RuleId,
        Rejection,
    >)
        requires
            old(self).well_formed(),
        ensures
            final(self).well_formed(),
            match (compiled, added) {
                (Ok(plan), Ok(id)) => {
                    &&& id.rep == old(self).rules@.len()
                    &&& final(self).rules@ == old(self).rules@.push(
                        Some(RegisteredRule { plan, watermark: 0 }),
                    )
                },
                (Ok(_), Err(error)) => {
                    &&& old(self).rules@.len() == u32::MAX
                    &&& error@ == rejected(Scope::Bare, "DuckDB has no rule id left"@)
                    &&& final(self).rules@ == old(self).rules@
                },
                (Err(refused), Err(error)) => {
                    &&& error == refused
                    &&& final(self).rules@ == old(self).rules@
                },
                (Err(_), Ok(_)) => false,
            },
            final(self).catalog == old(self).catalog,
            final(self).deferred() == old(self).deferred(),
            final(self).last_insert == old(self).last_insert,
            final(self).last_rule == old(self).last_rule,
    {
        match compiled {
            Ok(plan) => {
                if self.rules.len() >= u32::MAX as usize {
                    return Err(reject(Scope::Bare, "DuckDB has no rule id left"));
                }
                let id = RuleId { rep: self.rules.len() as u32 };
                self.rules.push(Some(RegisteredRule { plan, watermark: 0 }));
                Ok(id)
            },
            Err(refused) => Err(refused),
        }
    }

    /// Frees a rule. Its id is never given out again; an unknown id is ignored.
    pub fn free_rule(&mut self, id: RuleId)
        ensures
            final(self).rules@ == without_rule(old(self).rules@, id),
            final(self).catalog == old(self).catalog,
            final(self).deferred() == old(self).deferred(),
            final(self).last_insert == old(self).last_insert,
            final(self).last_rule == old(self).last_rule,
    {
        if (id.rep as usize) < self.rules.len() {
            self.rules.set(id.rep as usize, None);
        }
    }

    /// Opens a run: a deferred panic comes first, then an empty schedule is
    /// over at once, and a rule that is not live or is named twice refuses the
    /// whole run.
    pub fn begin_run(&mut self, requested: &Vec<RuleId>) -> (step: Result<RunStep, Rejection>)
        ensures
            match (step, old(self).deferred()) {
                (Err(error), Some(message)) => {
                    &&& error@ == rejected(Scope::Bare, message)
                    &&& final(self).last_rule == old(self).last_rule
                },
                (Ok(RunStep::Idle), None) => {
                    &&& requested@.len() == 0
                    &&& final(self).last_rule.is_none()
                },
                (Ok(RunStep::Execute(from)), None) => {
                    &&& requested@.len() > 0
                    &&& schedule_fault(old(self).rules@, requested@) is None
                    &&& all_rules_live(old(self).rules@, requested@)
                    &&& !repeated(requested@)
                    &&& from@ == watermarks(old(self).rules@, requested@)
                    &&& final(self).last_rule == old(self).last_rule
                },
                (Err(error), None) => {
                    &&& requested@.len() > 0
                    &&& schedule_fault(old(self).rules@, requested@) == Some(error@)
                    &&& final(self).last_rule == old(self).last_rule
                },
                (Ok(_), Some(_)) => false,
            },
            final(self).deferred() is None,
            final(self).catalog == old(self).catalog,
            final(self).rules@ == old(self).rules@,
            final(self).last_insert == old(self).last_insert,
    {
        self.take_deferred_panic()?;
        if requested.len() == 0 {
            self.last_rule = RuleExecutionStats::none();
            return Ok(RunStep::Idle);
        }
        let mut from: Vec<u64> = Vec::new();
        let mut i: usize = 0;
        while i < requested.len()
            invariant
                i <= requested.len(),
                from.len() == i,
                self.rules@ == old(self).rules@,
                self.last_rule == old(self).last_rule,
                self.deferred() is None,
                old(self).deferred() is None,
                self.catalog == old(self).catalog,
                self.last_insert == old(self).last_insert,
                forall|j: int|
                    0 <= j < i ==> live_rule(old(self).rules@, #[trigger] requested@[j]),
                forall|j: int|
                    0 <= j < i ==> #[trigger] from@[j] == old(
                        self,
                    ).rules@[requested@[j].rep as int]->0.watermark,
                first_dead(old(self).rules@, requested@, 0) == first_dead(
                    old(self).rules@,
                    requested@,
                    i as int,
                ),
            decreases requested.len() - i,
        {
            let id = requested[i];
            let watermark: Option<u64> = if (id.rep as usize) < self.rules.len() {
                match &self.rules[id.rep as usize] {
                    Some(registered) => Some(registered.watermark),
                    None => None,
                }
            } else {
                None
            };
            match watermark {
                Some(generation) => {
                    from.push(generation);
                },
                None => {
                    let mut text = "DuckDB cannot run freed or unknown rule ".to_owned();
                    append_number(&mut text, id.rep as u64);
                    return Err(reject_with(Scope::Bare, text));
                },
            }
            i += 1;
        }
        assert(from@ =~= watermarks(self.rules@, requested@));
        match find_repeat(requested) {
            Some(id) => {
                let mut text = "DuckDB cannot run a schedule with duplicate RuleId ".to_owned();
                append_number(&mut text, id.rep as u64);
                return Err(reject_with(Scope::Bare, text));
            },
            None => {},
        }
        Ok(RunStep::Execute(from))
    }

    /// Checks that every scheduled plan may still run under the live
    /// authorities. The first plan that may not refuses the whole run.
    pub fn authorize_run(&self, requested: &Vec<RuleId>, live: &AuthorityRegistries) -> (checked:
        Result<(), Rejection>)
        ensures
            match checked {
                Ok(_) => forall|i: int|
                    0 <= i < requested@.len() ==> rule_authorized(
                        self.rules@,
                        #[trigger] requested@[i],
                        *live,
                    ),
                Err(error) => exists|i: int|
                    0 <= i < requested@.len() && rule_refused(
                        self.rules@,
                        #[trigger] requested@[i],
                        *live,
                        error@,
                    ) && forall|j: int|
                        0 <= j < i ==> rule_authorized(
                            self.rules@,
                            #[trigger] requested@[j],
                            *live,
                        ),
            },
    {
        let mut i: usize = 0;
        while i < requested.len()
            invariant
                i <= requested.len(),
                forall|j: int|
                    0 <= j < i ==> rule_authorized(self.rules@, #[trigger] requested@[j], *live),
            decreases requested.len() - i,
        {
            match self.plan(requested[i]) {
                Some(CompiledRule::ScalarAction(plan)) => match plan.authorize(live) {
                    Ok(_) => {},
                    Err(error) => {
                        assert(rule_refused(self.rules@, requested@[i as int], *live, error@));
                        return Err(error);
                    },
                },
                _ => {},
            }
            i += 1;
        }
        Ok(())
    }

    /// Closes a run with what the engine said of it. A run that failed changes
    /// nothing: it can be tried again from the same watermarks, and the counts
    /// stay those of the last run that succeeded.
    pub fn finish_run(
        &mut self,
        requested: &Vec<RuleId>,
        outcome: Result<RuleExecutionStats, Rejection>,
    ) -> (changed: Result<bool, Rejection>)
        requires
            all_rules_live(old(self).rules@, requested@),
            !repeated(requested@),
            outcome matches Ok(stats) ==> stats.matched_rows@.len() == requested@.len()
                && stats.inserted_rows@.len() == requested@.len(),
        ensures
            match outcome {
                Ok(stats) => {
                    &&& changed == Ok::<bool, Rejection>(stats.changed)
                    &&& final(self).last_rule == stats
                    &&& final(self).rules@ == after_run(
                        old(self).rules@,
                        requested@,
                        stats.watermark,
                    )
                    &&& final(self).deferred() == old(self).deferred()
                    &&& final(self).catalog == old(self).catalog
                    &&& final(self).last_insert == old(self).last_insert
                },
                Err(error) => {
                    &&& changed == Err::<bool, Rejection>(error)
                    &&& *final(self) == *old(self)
                },
            },
    {
        match outcome {
            Ok(stats) => Ok(self.complete_run(requested, stats)),
            Err(error) => Err(error),
        }
    }

    /// Closes an executed run: every scheduled rule has run up to the new
    /// generation, and the counts are kept, one of each kind per scheduled rule.
    /// Tells whether anything changed.
    pub fn complete_run(&mut self, requested: &Vec<RuleId>, stats: RuleExecutionStats) -> (changed:
        bool)
        requires
            all_rules_live(old(self).rules@, requested@),
            !repeated(requested@),
            stats.matched_rows@.len() == requested@.len(),
            stats.inserted_rows@.len() == requested@.len(),
        ensures
            changed == stats.changed,
            final(self).last_rule == stats,
            final(self).last_rule.matched_rows@.len() == requested@.len(),
            final(self).last_rule.inserted_rows@.len() == requested@.len(),
            final(self).rules@ == after_run(old(self).rules@, requested@, stats.watermark),
            final(self).deferred() == old(self).deferred(),
            final(self).catalog == old(self).catalog,
            final(self).last_insert == old(self).last_insert,
    {
        let mut i: usize = 0;
        while i < requested.len()
            invariant
                i <= requested.len(),
                all_rules_live(old(self).rules@, requested@),
                self.rules@ == after_run(
                    old(self).rules@,
                    requested@.take(i as int),
                    stats.watermark,
                ),
                self.deferred() == old(self).deferred(),
                self.catalog == old(self).catalog,
                self.last_insert == old(self).last_insert,
            decreases requested.len() - i,
        {
            let id = requested[i];
            assert(live_rule(old(self).rules@, requested@[i as int]));
            let ghost before = self.rules@;
            let slot: usize = id.rep as usize;
            let mut taken: Option<RegisteredRule> = None;
            std::mem::swap(&mut taken, &mut self.rules[slot]);
            assert(taken is Some);
            match taken {
                Some(registered) => {
                    self.rules.set(
                        slot,
                        Some(
                            RegisteredRule { plan: registered.plan, watermark: stats.watermark },
                        ),
                    );
                },
                None => {},
            }
            proof {
                let after = after_run(
                    old(self).rules@,
                    requested@.take(i as int + 1),
                    stats.watermark,
                );
                assert forall|j: int| 0 <= j < after.len() implies self.rules@[j] == after[j] by {
                    lemma_scheduled_step(requested@, i as int, j);
                }
                assert(self.rules@ =~= after);
            }
            i += 1;
        }
        assert(requested@.take(requested@.len() as int) =~= requested@);
        let changed = stats.changed;
        self.last_rule = stats;
        changed
    }

    /// The number of rules that are admitted and not freed.
    pub fn live_rule_count(&self) -> (count: usize)
        ensures
            count == live_rules(self.rules@, self.rules@.len()),
    {
        let mut count: usize = 0;
        let mut i: usize = 0;
        while i < self.rules.len()
            invariant
                i <= self.rules.len(),
                count <= i,
                count == live_rules(self.rules@, i as nat),
            decreases self.rules.len() - i,
        {
            if self.rules[i].is_some() {
                count += 1;
            }
            i += 1;
        }
        count
    }

    /// The plan of a live rule.
    pub fn plan(&self, id: RuleId) -> (plan: Option<&CompiledRule>)
        ensures
            match plan {
                Some(found) => live_rule(self.rules@, id) && *found
                    == self.rules@[id.rep as int]->0.plan,
                None => !live_rule(self.rules@, id),
            },
    {
        if (id.rep as usize) < self.rules.len() {
            match &self.rules[id.rep as usize] {
                Some(registered) => Some(&registered.plan),
                None => None,
            }
        } else {
            None
        }
    }
}

/// A rule may run under the live authorities: its plan, when it rests on tokens,
/// is authorized. A rule that is not live has no plan.
pub open spec fn rule_authorized(
    rules: Seq<Option<RegisteredRule>>,
    id: RuleId,
    live: AuthorityRegistries,
) -> bool {
    live_rule(rules, id) ==> (rules[id.rep as int]->0.plan matches CompiledRule::ScalarAction(
        plan,
    ) ==> authorized(plan@, live))
}

/// A live rule's plan is not authorized, for the given reason.
pub open spec fn rule_refused(
    rules: Seq<Option<RegisteredRule>>,
    id: RuleId,
    live: AuthorityRegistries,
    error: RejectionView,
) -> bool {
    &&& live_rule(rules, id)
    &&& rules[id.rep as int]->0.plan matches CompiledRule::ScalarAction(plan) && !authorized(
        plan@,
        live,
    ) && unauthorized(plan@, live, error)
}

/// Finds the first rule that a schedule names again.
fn find_repeat(requested: &Vec<RuleId>) -> (found: Option<RuleId>)
    ensures
        found == first_repeat(requested@, 0),
        found is None ==> !repeated(requested@),
{
    let mut seen: BTreeSet<u32> = BTreeSet::new();
    let mut i: usize = 0;
    while i < requested.len()
        invariant
            i <= requested.len(),
            first_repeat(requested@, 0) == first_repeat(requested@, i as int),
            forall|rep: u32|
                #![trigger seen@.contains(rep)]
                seen@.contains(rep) <==> requested@.take(i as int).contains(RuleId { rep }),
            forall|j: int, k: int|
                0 <= j < k < i ==> #[trigger] requested@[j] != #[trigger] requested@[k],
        decreases requested.len() - i,
    {
        let id = requested[i];
        assert(id == RuleId { rep: id.rep });
        if seen.contains(&id.rep) {
            return Some(id);
        }
        proof {
            let before = requested@.take(i as int);
            let after = requested@.take(i as int + 1);
            assert forall|j: int| 0 <= j < i implies #[trigger] requested@[j] != id by {
                assert(before[j] == requested@[j]);
            }
            assert forall|rep: u32|
                #![trigger seen@.insert(id.rep).contains(rep)]
                seen@.insert(id.rep).contains(rep) <==> after.contains(RuleId { rep }) by {
                let sought = RuleId { rep };
                if before.contains(sought) {
                    let j = choose|j: int| 0 <= j < before.len() && before[j] == sought;
                    assert(after[j] == sought);
                }
                if rep == id.rep {
                    assert(after[i as int] == sought);
                }
                if after.contains(sought) && rep != id.rep {
                    let j = choose|j: int| 0 <= j < after.len() && after[j] == sought;
                    assert(before[j] == sought);
                }
                assert(seen@.contains(rep) <==> before.contains(sought));
            }
        }
        seen.insert(id.rep);
        i += 1;
    }
    None
}

/// A rule slot is among the requested ones.
pub open spec fn scheduled(requested: Seq<RuleId>, slot: int) -> bool {
    exists|i: int| 0 <= i < requested.len() && (#[trigger] requested[i]).rep == slot
}

/// The rules after one is freed. Its slot stays behind, so that its id is not
/// given out again.
pub open spec fn without_rule(
    rules: Seq<Option<RegisteredRule>>,
    id: RuleId,
) -> Seq<Option<RegisteredRule>> {
    if id.rep < rules.len() {
        rules.update(id.rep as int, None)
    } else {
        rules
    }
}

/// The rules after a run: every scheduled rule has run up to `generation`.
pub open spec fn after_run(
    rules: Seq<Option<RegisteredRule>>,
    requested: Seq<RuleId>,
    generation: u64,
) -> Seq<Option<RegisteredRule>> {
    Seq::new(
        rules.len(),
        |i: int|
            if scheduled(requested, i) {
                Some(RegisteredRule { plan: rules[i]->0.plan, watermark: generation })
            } else {
                rules[i]
            },
    )
}

proof fn lemma_scheduled_step(requested: Seq<RuleId>, i: int, slot: int)
    requires
        0 <= i < requested.len(),
    ensures
        scheduled(requested.take(i + 1), slot) == (scheduled(requested.take(i), slot)
            || requested[i].rep == slot),
{
    let before = requested.take(i);
    let after = requested.take(i + 1);
    if scheduled(before, slot) {
        let k = choose|k: int| 0 <= k < before.len() && (#[trigger] before[k]).rep == slot;
        assert(after[k].rep == slot);
    }
    if requested[i].rep == slot {
        assert(after[i].rep == slot);
    }
    if scheduled(after, slot) {
        let k = choose|k: int| 0 <= k < after.len() && (#[trigger] after[k]).rep == slot;
        if k < i {
            assert(before[k].rep == slot);
        }
    }
}

/// The number of live rules among the first `count`.
pub open spec fn live_rules(rules: Seq<Option<RegisteredRule>>, count: nat) -> nat
    decreases count,
{
    if count == 0 {
        0
    } else {
        live_rules(rules, (count - 1) as nat) + (if rules[count - 1] is Some {
            1nat
        } else {
            0nat
        })
    }
}

/// Canonicalization lives in ordinary function tables, so every value stands
/// for itself.
pub fn get_canon_repr(value: Value, _ty: ColumnTy) -> (canonical: Value)
    ensures
        canonical == value,
{
    value
}

/// The first value column of a found row: the one behind the keys.
pub fn lookup_id(row: &Option<Vec<Value>>, key: &Vec<Value>) -> (id: Option<Value>)
    ensures
        id == (match *row {
            Some(values) => if key@.len() < values@.len() {
                Some(values@[key@.len() as int])
            } else {
                None
            },
            None => None,
        }),
{
    match row {
        Some(values) => if key.len() < values.len() {
            Some(values[key.len()])
        } else {
            None
        },
        None => None,
    }
}

} // verus!
