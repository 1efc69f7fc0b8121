//! Building blocks for recognizing rules and merges by their structure.

use vstd::prelude::*;

use crate::base::ScalarSqlType;
use crate::catalog::{Catalog, TableInfo, WriteCapability};
use crate::ir::{
    Atom, AtomTerm, Change, ColumnTy, CoreAction, DefaultVal, ExternalFunctionId, FunctionId,
    MergeAction, MergeFn, ReadMode, RuleActionCall, RuleBodyCall, RuleValue, RuleVar, Value,
};
use crate::rejection::{reject, reject_with, Rejection, Scope};
use crate::text::{append_number, decimal_string};
#[allow(unused_imports)]
use crate::base::scalar_of;
#[allow(unused_imports)]
use crate::catalog::{literal_text, table_at};
#[allow(unused_imports)]
use crate::rejection::{rejected, RejectionView};
#[allow(unused_imports)]
use crate::text::decimal;

verus! {

/// The outcome of an ordered list of conditions: the first fault, if any.
pub struct Check {
    pub fault: Option<RejectionView>,
}

impl Check {
    /// This condition, and then the next one.
    pub open spec fn and(self, next: Check) -> Check {
        if self.fault is Some {
            self
        } else {
            next
        }
    }

    /// A value that stands once every condition holds.
    pub open spec fn gives<T>(self, value: T) -> Result<T, RejectionView> {
        match self.fault {
            Some(error) => Err(error),
            None => Ok(value),
        }
    }
}

/// One condition, and how its failure is reported.
pub open spec fn holds(condition: bool, scope: Scope, text: Seq<char>) -> Check {
    Check {
        fault: if condition {
            None
        } else {
            Some(rejected(scope, text))
        },
    }
}

/// A result that is `value` when the conditions hold, and their fault otherwise.
pub open spec fn yields<T>(actual: Result<T, Rejection>, check: Check, value: T) -> bool {
    match actual {
        Ok(result) => check.fault is None && result == value,
        Err(error) => check.fault == Some(error@),
    }
}

/// A result whose view is `value` when the conditions hold, and their fault
/// otherwise.
pub open spec fn yields_view<T: View>(
    actual: Result<T, Rejection>,
    check: Check,
    value: T::V,
) -> bool {
    match actual {
        Ok(result) => check.fault is None && result@ == value,
        Err(error) => check.fault == Some(error@),
    }
}

/// Requires a condition.
pub fn require(condition: bool, scope: Scope, text: &str) -> (checked: Result<(), Rejection>)
    ensures
        yields(checked, holds(condition, scope, text@), ()),
{
    if condition {
        Ok(())
    } else {
        Err(reject(scope, text))
    }
}

// ---------------------------------------------------------------------------
// Conditions that are reported as they are written.

/// The report of a condition that does not hold.
pub open spec fn failed_text(condition: Seq<char>) -> Seq<char> {
    "Condition failed: `"@ + condition + "`"@
}

/// The report of an equality that does not hold, with both sides.
pub open spec fn unequal_text(condition: Seq<char>, left: Seq<char>, right: Seq<char>) -> Seq<
    char,
> {
    failed_text(condition) + " ("@ + left + " vs "@ + right + ")"@
}

/// A condition that is reported as it is written.
pub open spec fn stated(holding: bool, condition: Seq<char>) -> Check {
    holds(holding, Scope::Bare, failed_text(condition))
}

/// An equality that is reported as it is written, with both sides.
pub open spec fn equates(
    equal: bool,
    condition: Seq<char>,
    left: Seq<char>,
    right: Seq<char>,
) -> Check {
    holds(equal, Scope::Bare, unequal_text(condition, left, right))
}

/// How a table is written in a report.
pub open spec fn function_text(id: FunctionId) -> Seq<char> {
    "FunctionId("@ + decimal(id.rep as nat) + ")"@
}

/// How a column type is written in a report.
pub open spec fn column_text(ty: ColumnTy) -> Seq<char> {
    match ty {
        ColumnTy::Id => "Id"@,
        ColumnTy::Base(base) => "Base(BaseValueId("@ + decimal(base.rep as nat) + "))"@,
    }
}

/// How a scalar type is written in a report.
pub open spec fn scalar_text(scalar: ScalarSqlType) -> Seq<char> {
    match scalar {
        ScalarSqlType::Id => "Id"@,
        ScalarSqlType::Unit => "Unit"@,
        ScalarSqlType::Bool => "Bool"@,
        ScalarSqlType::I64 => "I64"@,
        ScalarSqlType::F64 => "F64"@,
        ScalarSqlType::String => "String"@,
    }
}

fn scalar_str(scalar: ScalarSqlType) -> (text: &'static str)
    ensures
        text@ == scalar_text(scalar),
{
    match scalar {
        ScalarSqlType::Id => "Id",
        ScalarSqlType::Unit => "Unit",
        ScalarSqlType::Bool => "Bool",
        ScalarSqlType::I64 => "I64",
        ScalarSqlType::F64 => "F64",
        ScalarSqlType::String => "String",
    }
}

/// Renders the report of a condition that does not hold.
pub fn failed(condition: &str) -> (text: String)
    ensures
        text@ == failed_text(condition@),
{
    let mut text = "Condition failed: `".to_owned();
    text.append(condition);
    text.append("`");
    text
}

fn unequal(condition: &str, left: &str, right: &str) -> (rejection: Rejection)
    ensures
        rejection@ == rejected(Scope::Bare, unequal_text(condition@, left@, right@)),
{
    let mut text = failed(condition);
    text.append(" (");
    text.append(left);
    text.append(" vs ");
    text.append(right);
    text.append(")");
    reject_with(Scope::Bare, text)
}

fn function_string(id: FunctionId) -> (text: String)
    ensures
        text@ == function_text(id),
{
    let mut text = "FunctionId(".to_owned();
    append_number(&mut text, id.rep as u64);
    text.append(")");
    text
}

fn column_string(ty: ColumnTy) -> (text: String)
    ensures
        text@ == column_text(ty),
{
    match ty {
        ColumnTy::Id => "Id".to_owned(),
        ColumnTy::Base(base) => {
            let mut text = "Base(BaseValueId(".to_owned();
            append_number(&mut text, base.rep as u64);
            text.append("))");
            text
        },
    }
}

/// Requires a condition that is reported as it is written.
pub fn require_stated(holding: bool, condition: &str) -> (checked: Result<(), Rejection>)
    ensures
        yields(checked, stated(holding, condition@), ()),
{
    if holding {
        Ok(())
    } else {
        Err(reject_with(Scope::Bare, failed(condition)))
    }
}

/// Two tables are the same.
pub open spec fn same_table_check(
    condition: Seq<char>,
    left: FunctionId,
    right: FunctionId,
) -> Check {
    equates(left == right, condition, function_text(left), function_text(right))
}

/// Requires two tables to be the same.
pub fn require_same_table(condition: &str, left: FunctionId, right: FunctionId) -> (checked: Result<
    (),
    Rejection,
>)
    ensures
        yields(checked, same_table_check(condition@, left, right), ()),
{
    if left == right {
        return Ok(());
    }
    let (left_text, right_text) = (function_string(left), function_string(right));
    Err(unequal(condition, left_text.as_str(), right_text.as_str()))
}

/// Two numbers are the same.
pub open spec fn same_number_check(condition: Seq<char>, left: nat, right: nat) -> Check {
    equates(left == right, condition, decimal(left), decimal(right))
}

/// Requires two numbers to be the same.
pub fn require_same_number(condition: &str, left: usize, right: usize) -> (checked: Result<
    (),
    Rejection,
>)
    ensures
        yields(checked, same_number_check(condition@, left as nat, right as nat), ()),
{
    if left == right {
        return Ok(());
    }
    let (left_text, right_text) = (decimal_string(left as u64), decimal_string(right as u64));
    Err(unequal(condition, left_text.as_str(), right_text.as_str()))
}

/// A variable has the type of ids.
pub open spec fn id_type_check(condition: Seq<char>, ty: ColumnTy) -> Check {
    equates(ty == ColumnTy::Id, condition, column_text(ty), column_text(ColumnTy::Id))
}

/// Requires the type of ids.
pub fn require_id_type(condition: &str, ty: ColumnTy) -> (checked: Result<(), Rejection>)
    ensures
        yields(checked, id_type_check(condition@, ty), ()),
{
    if ty == ColumnTy::Id {
        return Ok(());
    }
    let text = column_string(ty);
    Err(unequal(condition, text.as_str(), "Id"))
}

/// A change deletes.
pub open spec fn delete_check(condition: Seq<char>, change: Change) -> Check {
    equates(change == Change::Delete, condition, "Subsume"@, "Delete"@)
}

/// Requires a change to delete.
pub fn require_delete(condition: &str, change: Change) -> (checked: Result<(), Rejection>)
    ensures
        yields(checked, delete_check(condition@, change), ()),
{
    if change == Change::Delete {
        Ok(())
    } else {
        Err(unequal(condition, "Subsume", "Delete"))
    }
}

// ---------------------------------------------------------------------------
// Terms.

/// The variable of a variable term.
pub open spec fn var_of(term: AtomTerm) -> RuleVar {
    match term {
        AtomTerm::Var(variable) => variable,
        _ => arbitrary(),
    }
}

/// The constant of a literal term.
pub open spec fn literal_of(term: AtomTerm) -> RuleValue {
    match term {
        AtomTerm::Literal(value) => value,
        _ => arbitrary(),
    }
}

/// A term is a variable of a type.
pub open spec fn typed_var_check(scope: Scope, term: AtomTerm, expected: ColumnTy) -> Check {
    holds(term is Var, scope, "requires variables"@).and(
        holds(var_of(term).ty == expected, scope, "has a variable with the wrong type"@),
    )
}

/// A term is an id variable.
pub open spec fn id_var_check(scope: Scope, term: AtomTerm) -> Check {
    typed_var_check(scope, term, ColumnTy::Id)
}

/// Two occurrences are the same variable.
pub open spec fn same_var_check(
    scope: Scope,
    expected: RuleVar,
    actual: RuleVar,
    role: Seq<char>,
) -> Check {
    holds(expected == actual, scope, "has inconsistent "@ + role + " variables"@)
}

/// A term is the expected variable, at the expected variable's type.
pub open spec fn is_var_check(
    scope: Scope,
    expected: RuleVar,
    term: AtomTerm,
    ty: ColumnTy,
    role: Seq<char>,
) -> Check {
    typed_var_check(scope, term, ty).and(same_var_check(scope, expected, var_of(term), role))
}

/// No two variables share an id.
pub open spec fn distinct(variables: Seq<RuleVar>) -> bool {
    forall|i: int, j: int|
        0 <= i < j < variables.len() ==> (#[trigger] variables[i]).id != (
        #[trigger] variables[j]).id
}

/// Structurally distinct variables are distinct.
pub open spec fn distinct_check(scope: Scope, variables: Seq<RuleVar>) -> Check {
    holds(distinct(variables), scope, "aliases structurally distinct variables"@)
}

/// Requires a variable of a type.
pub fn typed_var(scope: Scope, term: &AtomTerm, expected: ColumnTy) -> (variable: Result<
    RuleVar,
    Rejection,
>)
    ensures
        yields(variable, typed_var_check(scope, *term, expected), var_of(*term)),
{
    match term {
        AtomTerm::Var(variable) => {
            if variable.ty != expected {
                return Err(reject(scope, "has a variable with the wrong type"));
            }
            Ok(*variable)
        },
        _ => Err(reject(scope, "requires variables")),
    }
}

/// Requires an id variable.
pub fn id_var(scope: Scope, term: &AtomTerm) -> (variable: Result<RuleVar, Rejection>)
    ensures
        yields(variable, id_var_check(scope, *term), var_of(*term)),
{
    typed_var(scope, term, ColumnTy::Id)
}

/// Requires two occurrences of one variable.
pub fn same_var(scope: Scope, expected: RuleVar, actual: RuleVar, role: &str) -> (checked: Result<
    (),
    Rejection,
>)
    ensures
        yields(checked, same_var_check(scope, expected, actual, role@), ()),
{
    if expected == actual {
        return Ok(());
    }
    let mut text = "has inconsistent ".to_owned();
    text.append(role);
    text.append(" variables");
    Err(reject_with(scope, text))
}

/// Requires a term to be the expected variable.
pub fn is_var(
    scope: Scope,
    expected: RuleVar,
    term: &AtomTerm,
    ty: ColumnTy,
    role: &str,
) -> (checked: Result<(), Rejection>)
    ensures
        yields(checked, is_var_check(scope, expected, *term, ty, role@), ()),
{
    let actual = typed_var(scope, term, ty)?;
    same_var(scope, expected, actual, role)
}

/// Requires pairwise distinct variables.
pub fn distinct_vars(scope: Scope, variables: &Vec<RuleVar>) -> (checked: Result<(), Rejection>)
    ensures
        yields(checked, distinct_check(scope, variables@), ()),
{
    let mut i: usize = 0;
    while i < variables.len()
        invariant
            i <= variables.len(),
            forall|a: int, b: int|
                0 <= a < i && a < b < variables@.len() ==> (#[trigger] variables@[a]).id != (
                #[trigger] variables@[b]).id,
        decreases variables.len() - i,
    {
        let mut j: usize = i + 1;
        while j < variables.len()
            invariant
                i < j <= variables.len(),
                forall|b: int|
                    i < b < j ==> variables@[i as int].id != (#[trigger] variables@[b]).id,
            decreases variables.len() - j,
        {
            if variables[i].id == variables[j].id {
                assert(!distinct(variables@)) by {
                    assert(variables@[i as int].id == variables@[j as int].id);
                }
                return Err(reject(scope, "aliases structurally distinct variables"));
            }
            j += 1;
        }
        i += 1;
    }
    Ok(())
}

// ---------------------------------------------------------------------------
// Parts of rules and merges.

/// The table that an atom reads.
pub open spec fn atom_table(atom: Atom) -> FunctionId {
    match atom.head {
        RuleBodyCall::Table { id, .. } => id,
        _ => arbitrary(),
    }
}

/// The variable that a `Let` binds.
pub open spec fn bound_var(action: CoreAction) -> RuleVar {
    match action {
        CoreAction::Let(variable, _, _) => variable,
        CoreAction::LetAtomTerm(variable, _) => variable,
        _ => arbitrary(),
    }
}

/// The constant that a fresh allocation is labelled with.
pub open spec fn fresh_label(action: CoreAction) -> RuleValue {
    match action {
        CoreAction::Let(_, _, args) => literal_of(args@[0]),
        _ => arbitrary(),
    }
}

/// The table that a write targets.
pub open spec fn set_table(action: CoreAction) -> FunctionId {
    match action {
        CoreAction::SetRow(call, _, _) => called_table(call),
        _ => arbitrary(),
    }
}

/// The table that a merge step writes.
pub open spec fn merge_target(action: MergeAction) -> FunctionId {
    match action {
        MergeAction::SetRow(target, _) => target,
        _ => arbitrary(),
    }
}

/// The token and the label of a fresh allocation in a merge.
pub open spec fn merge_fresh(action: MergeAction) -> (ExternalFunctionId, RuleValue) {
    match action {
        MergeAction::Let { value: MergeFn::Primitive { id, args, .. }, .. } => match args@[0] {
            MergeFn::Const { value, ty } => (id, RuleValue { value, ty }),
            _ => arbitrary(),
        },
        _ => arbitrary(),
    }
}

/// The old and the new identity with their payloads.
pub open spec fn payload_patterns() -> Seq<MergePattern> {
    seq![MergePattern::Old(0), MergePattern::Old(1), MergePattern::New(0), MergePattern::New(1)]
}

/// The old and the new identity.
pub open spec fn identity_patterns() -> Seq<MergePattern> {
    seq![MergePattern::Old(0), MergePattern::New(0)]
}

/// The old and the new identity with their payloads.
pub fn payload_arguments() -> (patterns: Vec<MergePattern>)
    ensures
        patterns@ == payload_patterns(),
{
    let patterns = vec![old_col(0), old_col(1), new(0), new(1)];
    assert(patterns@ =~= payload_patterns());
    patterns
}

/// The old and the new identity.
pub fn identity_arguments() -> (patterns: Vec<MergePattern>)
    ensures
        patterns@ == identity_patterns(),
{
    let patterns = vec![old_col(0), new(0)];
    assert(patterns@ =~= identity_patterns());
    patterns
}

/// The two table atoms and the primitive atom of a three-atom body.
pub open spec fn body_split(body: Seq<Atom>) -> Option<(int, int, int)> {
    if body.len() != 3 {
        None
    } else if body[0].head is Table && body[1].head is Table && body[2].head is Primitive {
        Some((0, 1, 2))
    } else if body[0].head is Table && body[1].head is Primitive && body[2].head is Table {
        Some((0, 2, 1))
    } else if body[0].head is Primitive && body[1].head is Table && body[2].head is Table {
        Some((1, 2, 0))
    } else {
        None
    }
}

fn is_table(atom: &Atom) -> (result: bool)
    ensures
        result == (atom.head is Table),
{
    match &atom.head {
        RuleBodyCall::Table { .. } => true,
        _ => false,
    }
}

fn is_primitive(atom: &Atom) -> (result: bool)
    ensures
        result == (atom.head is Primitive),
{
    match &atom.head {
        RuleBodyCall::Primitive { .. } => true,
        _ => false,
    }
}

/// Finds the two table atoms and the primitive atom of a three-atom body.
pub fn split_body(body: &Vec<Atom>) -> (split: Option<(usize, usize, usize)>)
    ensures
        match split {
            Some((first, second, guard)) => body_split(body@) == Some(
                (first as int, second as int, guard as int),
            ) && first < 3 && second < 3 && guard < 3 && body@.len() == 3,
            None => body_split(body@) is None,
        },
{
    if body.len() != 3 {
        return None;
    }
    if is_table(&body[0]) && is_table(&body[1]) && is_primitive(&body[2]) {
        Some((0, 1, 2))
    } else if is_table(&body[0]) && is_primitive(&body[1]) && is_table(&body[2]) {
        Some((0, 2, 1))
    } else if is_primitive(&body[0]) && is_table(&body[1]) && is_table(&body[2]) {
        Some((1, 2, 0))
    } else {
        None
    }
}

/// How an atom reads its table.
pub open spec fn atom_read(atom: Atom) -> ReadMode {
    match atom.head {
        RuleBodyCall::Table { read, .. } => read,
        _ => arbitrary(),
    }
}

/// The table that an atom reads, and how.
pub fn table_atom_parts(atom: &Atom) -> (parts: (FunctionId, ReadMode))
    requires
        atom.head is Table,
    ensures
        parts == (atom_table(*atom), atom_read(*atom)),
{
    match &atom.head {
        RuleBodyCall::Table { id, read } => (*id, *read),
        _ => {
            assert(false);
            (FunctionId { rep: 0 }, ReadMode::All)
        },
    }
}

/// An action targets a table.
pub open spec fn table_action_check(scope: Scope, call: RuleActionCall, role: Seq<char>) -> Check {
    holds(call is Table, scope, role + " must target a table"@)
}

/// Requires an action to target a table.
pub fn table_action(scope: Scope, call: &RuleActionCall, role: &str) -> (target: Result<
    FunctionId,
    Rejection,
>)
    ensures
        yields(target, table_action_check(scope, *call, role@), called_table(*call)),
{
    match call {
        RuleActionCall::Table { id } => Ok(*id),
        _ => {
            let mut text = role.to_owned();
            text.append(" must target a table");
            Err(reject_with(scope, text))
        },
    }
}

/// The variables of the first `count` terms.
pub open spec fn vars_of(terms: Seq<AtomTerm>, count: nat) -> Seq<RuleVar> {
    Seq::new(count, |i: int| var_of(terms[i]))
}

/// The first `count` terms are variables of the column types.
pub open spec fn typed_vars_check(
    scope: Scope,
    terms: Seq<AtomTerm>,
    schema: Seq<ColumnTy>,
    count: nat,
) -> Check
    decreases count,
{
    if count == 0 {
        Check { fault: None }
    } else {
        typed_vars_check(scope, terms, schema, (count - 1) as nat).and(
            typed_var_check(scope, terms[count - 1], schema[count - 1]),
        )
    }
}

proof fn lemma_first_typed_fault(
    scope: Scope,
    terms: Seq<AtomTerm>,
    schema: Seq<ColumnTy>,
    few: nat,
    many: nat,
)
    requires
        few <= many,
        typed_vars_check(scope, terms, schema, few).fault is Some,
    ensures
        typed_vars_check(scope, terms, schema, many) == typed_vars_check(scope, terms, schema, few),
    decreases many - few,
{
    if few < many {
        lemma_first_typed_fault(scope, terms, schema, few, (many - 1) as nat);
    }
}

/// Requires the first `count` terms to be variables of the column types.
pub fn typed_vars(scope: Scope, terms: &Vec<AtomTerm>, schema: &Vec<ColumnTy>, count: usize) -> (
    variables: Result<Vec<RuleVar>, Rejection>)
    requires
        count <= terms@.len(),
        count <= schema@.len(),
    ensures
        match variables {
            Ok(found) => typed_vars_check(scope, terms@, schema@, count as nat).fault is None
                && found@ == vars_of(terms@, count as nat),
            Err(error) => typed_vars_check(scope, terms@, schema@, count as nat).fault == Some(
                error@,
            ),
        },
{
    let mut variables: Vec<RuleVar> = Vec::new();
    let mut i: usize = 0;
    while i < count
        invariant
            i <= count <= terms@.len(),
            count <= schema@.len(),
            variables@ == vars_of(terms@, i as nat),
            typed_vars_check(scope, terms@, schema@, i as nat).fault is None,
        decreases count - i,
    {
        match typed_var(scope, &terms[i], schema[i]) {
            Ok(variable) => {
                variables.push(variable);
            },
            Err(error) => {
                proof {
                    lemma_first_typed_fault(scope, terms@, schema@, i as nat + 1, count as nat);
                }
                return Err(error);
            },
        }
        i += 1;
        assert(variables@ =~= vars_of(terms@, i as nat));
    }
    Ok(variables)
}

/// The first `count` terms are the expected variables.
pub open spec fn vars_check(
    scope: Scope,
    expected: Seq<RuleVar>,
    terms: Seq<AtomTerm>,
    role: Seq<char>,
    count: nat,
) -> Check
    decreases count,
{
    if count == 0 {
        Check { fault: None }
    } else {
        vars_check(scope, expected, terms, role, (count - 1) as nat).and(
            is_var_check(
                scope,
                expected[count - 1],
                terms[count - 1],
                expected[count - 1].ty,
                role,
            ),
        )
    }
}

proof fn lemma_first_var_fault(
    scope: Scope,
    expected: Seq<RuleVar>,
    terms: Seq<AtomTerm>,
    role: Seq<char>,
    few: nat,
    many: nat,
)
    requires
        few <= many,
        vars_check(scope, expected, terms, role, few).fault is Some,
    ensures
        vars_check(scope, expected, terms, role, many) == vars_check(
            scope,
            expected,
            terms,
            role,
            few,
        ),
    decreases many - few,
{
    if few < many {
        lemma_first_var_fault(scope, expected, terms, role, few, (many - 1) as nat);
    }
}

/// Requires terms to be the expected variables.
pub fn same_vars(scope: Scope, expected: &Vec<RuleVar>, terms: &Vec<AtomTerm>, role: &str) -> (
    checked: Result<(), Rejection>)
    requires
        expected@.len() == terms@.len(),
    ensures
        yields(checked, vars_check(scope, expected@, terms@, role@, expected@.len()), ()),
{
    let mut i: usize = 0;
    while i < expected.len()
        invariant
            i <= expected.len() == terms.len(),
            vars_check(scope, expected@, terms@, role@, i as nat).fault is None,
        decreases expected.len() - i,
    {
        match is_var(scope, expected[i], &terms[i], expected[i].ty, role) {
            Ok(_) => {},
            Err(error) => {
                proof {
                    lemma_first_var_fault(
                        scope,
                        expected@,
                        terms@,
                        role@,
                        i as nat + 1,
                        expected@.len(),
                    );
                }
                return Err(error);
            },
        }
        i += 1;
    }
    Ok(())
}

/// A copy of a list of variables.
pub fn copy_vars(variables: &Vec<RuleVar>) -> (copy: Vec<RuleVar>)
    ensures
        copy@ == variables@,
{
    let mut copy: Vec<RuleVar> = Vec::new();
    let mut i: usize = 0;
    while i < variables.len()
        invariant
            i <= variables.len(),
            copy@ == variables@.take(i as int),
        decreases variables.len() - i,
    {
        copy.push(variables[i]);
        i += 1;
        assert(copy@ =~= variables@.take(i as int));
    }
    assert(variables@.take(variables.len() as int) =~= variables@);
    copy
}

/// The positions of a variable among the first `count`.
pub open spec fn positions(variables: Seq<RuleVar>, sought: RuleVar, count: nat) -> Seq<int>
    decreases count,
{
    if count == 0 {
        Seq::empty()
    } else {
        let earlier = positions(variables, sought, (count - 1) as nat);
        if variables[count - 1] == sought {
            earlier.push(count - 1)
        } else {
            earlier
        }
    }
}

/// The only position of a variable, if there is exactly one.
pub open spec fn only_position(variables: Seq<RuleVar>, sought: RuleVar) -> Option<int> {
    let found = positions(variables, sought, variables.len());
    if found.len() == 1 {
        Some(found[0])
    } else {
        None
    }
}

/// Every listed position holds the variable.
pub proof fn lemma_positions(variables: Seq<RuleVar>, sought: RuleVar, count: nat)
    ensures
        forall|k: int|
            0 <= k < positions(variables, sought, count).len() ==> {
                let i = #[trigger] positions(variables, sought, count)[k];
                0 <= i < count && variables[i] == sought
            },
    decreases count,
{
    if count > 0 {
        lemma_positions(variables, sought, (count - 1) as nat);
    }
}

/// Finds the only position of a variable.
pub fn find_only_position(variables: &Vec<RuleVar>, sought: RuleVar) -> (position: Option<usize>)
    ensures
        match position {
            Some(found) => only_position(variables@, sought) == Some(found as int) && found
                < variables@.len() && variables@[found as int] == sought,
            None => only_position(variables@, sought) is None,
        },
{
    let mut found: Option<usize> = None;
    let mut several = false;
    let mut i: usize = 0;
    while i < variables.len()
        invariant
            i <= variables.len(),
            match found {
                None => !several && positions(variables@, sought, i as nat).len() == 0,
                Some(first) => {
                    &&& first < i
                    &&& variables@[first as int] == sought
                    &&& positions(variables@, sought, i as nat).len() >= 1
                    &&& positions(variables@, sought, i as nat)[0] == first
                    &&& several == (positions(variables@, sought, i as nat).len() > 1)
                },
            },
        decreases variables.len() - i,
    {
        if variables[i] == sought {
            if found.is_some() {
                several = true;
            } else {
                found = Some(i);
            }
        }
        i += 1;
    }
    if several {
        None
    } else {
        found
    }
}

/// A value has an SQL text.
pub open spec fn literal_check(catalog: Catalog, scalar: ScalarSqlType, value: Value) -> Check {
    match literal_text(catalog, scalar, value) {
        Err(error) => Check { fault: Some(error) },
        Ok(_) => Check { fault: None },
    }
}

/// The SQL text of a value that has one.
pub open spec fn literal_sql(catalog: Catalog, scalar: ScalarSqlType, value: Value) -> Seq<char> {
    match literal_text(catalog, scalar, value) {
        Ok(text) => text,
        Err(_) => arbitrary(),
    }
}

// ---------------------------------------------------------------------------
// Types.

/// A column type is a given scalar.
pub open spec fn scalar_check(
    catalog: Catalog,
    ty: ColumnTy,
    expected: ScalarSqlType,
    scope: Scope,
    text: Seq<char>,
) -> Check {
    match scalar_of(catalog.types, ty) {
        Err(error) => Check { fault: Some(error) },
        Ok(scalar) => holds(scalar == expected, scope, text),
    }
}

/// Requires a column type to be a given scalar.
pub fn require_scalar(
    catalog: &Catalog,
    ty: ColumnTy,
    expected: ScalarSqlType,
    scope: Scope,
    text: &str,
) -> (checked: Result<(), Rejection>)
    ensures
        yields(checked, scalar_check(*catalog, ty, expected, scope, text@), ()),
{
    let scalar = catalog.types.from_column(ty)?;
    require(scalar == expected, scope, text)
}

/// A column type is a given scalar. A failure is reported with both scalars.
pub open spec fn column_type_check(
    catalog: Catalog,
    ty: ColumnTy,
    expected: ScalarSqlType,
    condition: Seq<char>,
) -> Check {
    match scalar_of(catalog.types, ty) {
        Err(error) => Check { fault: Some(error) },
        Ok(scalar) => equates(
            scalar == expected,
            condition,
            scalar_text(scalar),
            scalar_text(expected),
        ),
    }
}

/// Requires a column type to be a given scalar.
pub fn require_column_type(
    catalog: &Catalog,
    ty: ColumnTy,
    expected: ScalarSqlType,
    condition: &str,
) -> (checked: Result<(), Rejection>)
    ensures
        yields(checked, column_type_check(*catalog, ty, expected, condition@), ()),
{
    let scalar = catalog.types.from_column(ty)?;
    if scalar == expected {
        Ok(())
    } else {
        Err(unequal(condition, scalar_str(scalar), scalar_str(expected)))
    }
}

/// A column type has some scalar.
pub open spec fn some_scalar_check(catalog: Catalog, ty: ColumnTy) -> Check {
    match scalar_of(catalog.types, ty) {
        Err(error) => Check { fault: Some(error) },
        Ok(_) => Check { fault: None },
    }
}

/// The first `count` columns have scalars.
pub open spec fn scalars_check(catalog: Catalog, schema: Seq<ColumnTy>, count: nat) -> Check
    decreases count,
{
    if count == 0 {
        Check { fault: None }
    } else {
        scalars_check(catalog, schema, (count - 1) as nat).and(
            some_scalar_check(catalog, schema[count - 1]),
        )
    }
}

/// Requires scalars for the first `count` columns.
pub fn require_scalars(catalog: &Catalog, schema: &Vec<ColumnTy>, count: usize) -> (checked: Result<
    (),
    Rejection,
>)
    requires
        count <= schema@.len(),
    ensures
        yields(checked, scalars_check(*catalog, schema@, count as nat), ()),
{
    let mut i: usize = 0;
    while i < count
        invariant
            i <= count <= schema@.len(),
            scalars_check(*catalog, schema@, i as nat).fault is None,
        decreases count - i,
    {
        match catalog.types.from_column(schema[i]) {
            Ok(_) => {},
            Err(error) => {
                proof {
                    lemma_first_scalar_fault(*catalog, schema@, i as nat + 1, count as nat);
                }
                return Err(error);
            },
        }
        i += 1;
    }
    Ok(())
}

/// A fault among fewer columns is the fault among more.
pub proof fn lemma_first_scalar_fault(catalog: Catalog, schema: Seq<ColumnTy>, few: nat, many: nat)
    requires
        few <= many,
        scalars_check(catalog, schema, few).fault is Some,
    ensures
        scalars_check(catalog, schema, many) == scalars_check(catalog, schema, few),
    decreases many - few,
{
    if few < many {
        lemma_first_scalar_fault(catalog, schema, few, (many - 1) as nat);
    }
}

/// Column types are given scalars, up to `count`.
pub open spec fn columns_check(
    catalog: Catalog,
    schema: Seq<ColumnTy>,
    expected: Seq<ScalarSqlType>,
    condition: Seq<char>,
    count: nat,
) -> Check
    decreases count,
{
    if count == 0 {
        Check { fault: None }
    } else {
        columns_check(catalog, schema, expected, condition, (count - 1) as nat).and(
            column_type_check(catalog, schema[count - 1], expected[count - 1], condition),
        )
    }
}

proof fn lemma_first_column_fault(
    catalog: Catalog,
    schema: Seq<ColumnTy>,
    expected: Seq<ScalarSqlType>,
    condition: Seq<char>,
    few: nat,
    many: nat,
)
    requires
        few <= many,
        columns_check(catalog, schema, expected, condition, few).fault is Some,
    ensures
        columns_check(catalog, schema, expected, condition, many) == columns_check(
            catalog,
            schema,
            expected,
            condition,
            few,
        ),
    decreases many - few,
{
    if few < many {
        lemma_first_column_fault(catalog, schema, expected, condition, few, (many - 1) as nat);
    }
}

/// Requires the first column types to be given scalars.
pub fn require_columns(
    catalog: &Catalog,
    schema: &Vec<ColumnTy>,
    expected: &Vec<ScalarSqlType>,
    condition: &str,
) -> (checked: Result<(), Rejection>)
    requires
        expected@.len() <= schema@.len(),
    ensures
        yields(
            checked,
            columns_check(*catalog, schema@, expected@, condition@, expected@.len()),
            (),
        ),
{
    let mut i: usize = 0;
    while i < expected.len()
        invariant
            i <= expected.len() <= schema.len(),
            columns_check(*catalog, schema@, expected@, condition@, i as nat).fault is None,
        decreases expected.len() - i,
    {
        match require_column_type(catalog, schema[i], expected[i], condition) {
            Ok(_) => {},
            Err(error) => {
                proof {
                    lemma_first_column_fault(
                        *catalog,
                        schema@,
                        expected@,
                        condition@,
                        i as nat + 1,
                        expected@.len(),
                    );
                }
                return Err(error);
            },
        }
        i += 1;
    }
    Ok(())
}

/// A table exists.
pub open spec fn table_check(catalog: Catalog, id: FunctionId) -> Check {
    match table_at(catalog, id) {
        Err(error) => Check { fault: Some(error) },
        Ok(_) => Check { fault: None },
    }
}

/// The table with an id that exists.
pub open spec fn table_of(catalog: Catalog, id: FunctionId) -> TableInfo {
    catalog.tables@[id.rep as int]
}

/// The id of a table call.
pub open spec fn called_table(call: RuleActionCall) -> FunctionId {
    match call {
        RuleActionCall::Table { id } => id,
        _ => arbitrary(),
    }
}

/// A table of the union-find configuration: one id key, an id parent that is
/// its identity, and an id payload.
pub open spec fn union_find_config(info: TableInfo) -> bool {
    &&& info.schema@ == seq![ColumnTy::Id, ColumnTy::Id, ColumnTy::Id]
    &&& info.n_keys == 1
    &&& info.n_vals == 2
    &&& info.n_identity_vals == Some(1usize)
    &&& info.default == DefaultVal::Fail
    &&& !info.can_subsume
}

/// Whether a table has the union-find configuration.
pub fn is_union_find_config(info: &TableInfo) -> (result: bool)
    ensures
        result == union_find_config(*info),
{
    let ids = info.schema.len() == 3 && info.schema[0] == ColumnTy::Id && info.schema[1]
        == ColumnTy::Id && info.schema[2] == ColumnTy::Id;
    if !ids {
        return false;
    }
    assert(info.schema@ =~= seq![ColumnTy::Id, ColumnTy::Id, ColumnTy::Id]);
    let identity = match info.n_identity_vals {
        Some(count) => count == 1,
        None => false,
    };
    info.n_keys == 1 && info.n_vals == 2 && identity && info.default == DefaultVal::Fail
        && !info.can_subsume
}

/// A table of the proof configuration: `n_keys` keys and one value, equal on
/// conflict.
pub open spec fn proof_config(info: TableInfo, n_keys: nat) -> bool {
    &&& info.n_keys == n_keys
    &&& info.n_vals == 1
    &&& info.schema@.len() == n_keys + 1
    &&& info.n_identity_vals is None
    &&& info.default == DefaultVal::Fail
    &&& info.write_capability == WriteCapability::AssertEq
    &&& !info.can_subsume
}

/// Whether a table has the proof configuration.
pub fn is_proof_config(info: &TableInfo, n_keys: usize) -> (result: bool)
    requires
        n_keys < usize::MAX,
    ensures
        result == proof_config(*info, n_keys as nat),
{
    info.n_keys == n_keys && info.n_vals == 1 && info.arity() == n_keys + 1
        && info.n_identity_vals.is_none() && info.default == DefaultVal::Fail
        && info.write_capability == WriteCapability::AssertEq && !info.can_subsume
}

/// `n_keys` ids and a unit.
pub open spec fn proof_column_types(n_keys: nat) -> Seq<ScalarSqlType> {
    Seq::new(
        n_keys + 1,
        |i: int|
            if i < n_keys {
                ScalarSqlType::Id
            } else {
                ScalarSqlType::Unit
            },
    )
}

/// The column types of a proof relation.
pub fn proof_columns(n_keys: usize) -> (columns: Vec<ScalarSqlType>)
    requires
        n_keys < usize::MAX,
    ensures
        columns@ == proof_column_types(n_keys as nat),
{
    let mut columns: Vec<ScalarSqlType> = Vec::new();
    while columns.len() < n_keys
        invariant
            columns.len() <= n_keys,
            forall|i: int| 0 <= i < columns.len() ==> columns@[i] == ScalarSqlType::Id,
        decreases n_keys - columns.len(),
    {
        columns.push(ScalarSqlType::Id);
    }
    columns.push(ScalarSqlType::Unit);
    assert(columns@ =~= proof_column_types(n_keys as nat));
    columns
}

// ---------------------------------------------------------------------------
// Merge expressions.

/// What a merge argument has to be.
#[derive(Clone, Copy, Debug, PartialEq, Eq, Structural)]
pub enum MergePattern {
    Old(usize),
    New(usize),
    Let(usize),
    /// A constant of the unit type.
    Unit,
}

/// A column of the old row.
pub fn old_col(index: usize) -> (pattern: MergePattern)
    ensures
        pattern == MergePattern::Old(index),
{
    MergePattern::Old(index)
}

/// A column of the new row.
pub fn new(index: usize) -> (pattern: MergePattern)
    ensures
        pattern == MergePattern::New(index),
{
    MergePattern::New(index)
}

/// An earlier `Let`.
pub fn let_var(slot: usize) -> (pattern: MergePattern)
    ensures
        pattern == MergePattern::Let(slot),
{
    MergePattern::Let(slot)
}

/// The unit constant.
pub fn unit() -> (pattern: MergePattern)
    ensures
        pattern == MergePattern::Unit,
{
    MergePattern::Unit
}

/// A merge expression has the given form.
pub open spec fn pattern_check(
    catalog: Catalog,
    scope: Scope,
    merge: MergeFn,
    pattern: MergePattern,
) -> Check {
    let text = "merge topology mismatch"@;
    match (merge, pattern) {
        (MergeFn::OldCol(actual), MergePattern::Old(expected)) => holds(
            actual == expected,
            scope,
            text,
        ),
        (MergeFn::NewCol(actual), MergePattern::New(expected)) => holds(
            actual == expected,
            scope,
            text,
        ),
        (MergeFn::LetVar(actual), MergePattern::Let(expected)) => holds(
            actual == expected,
            scope,
            text,
        ),
        (MergeFn::Const { ty, .. }, MergePattern::Unit) => scalar_check(
            catalog,
            ty,
            ScalarSqlType::Unit,
            scope,
            text,
        ),
        _ => holds(false, scope, text),
    }
}

/// The first `count` merge expressions have the given forms.
pub open spec fn patterns_check(
    catalog: Catalog,
    scope: Scope,
    merges: Seq<MergeFn>,
    patterns: Seq<MergePattern>,
    count: nat,
) -> Check
    decreases count,
{
    if count == 0 {
        Check { fault: None }
    } else {
        patterns_check(catalog, scope, merges, patterns, (count - 1) as nat).and(
            pattern_check(catalog, scope, merges[count - 1], patterns[count - 1]),
        )
    }
}

proof fn lemma_first_pattern_fault(
    catalog: Catalog,
    scope: Scope,
    merges: Seq<MergeFn>,
    patterns: Seq<MergePattern>,
    few: nat,
    many: nat,
)
    requires
        few <= many,
        patterns_check(catalog, scope, merges, patterns, few).fault is Some,
    ensures
        patterns_check(catalog, scope, merges, patterns, many) == patterns_check(
            catalog,
            scope,
            merges,
            patterns,
            few,
        ),
    decreases many - few,
{
    if few < many {
        lemma_first_pattern_fault(catalog, scope, merges, patterns, few, (many - 1) as nat);
    }
}

/// Requires a merge expression of the given form.
pub fn expect_pattern(
    catalog: &Catalog,
    scope: Scope,
    merge: &MergeFn,
    pattern: MergePattern,
) -> (checked: Result<(), Rejection>)
    ensures
        yields(checked, pattern_check(*catalog, scope, *merge, pattern), ()),
{
    let text = "merge topology mismatch";
    match (merge, pattern) {
        (MergeFn::OldCol(actual), MergePattern::Old(expected)) => require(
            *actual == expected,
            scope,
            text,
        ),
        (MergeFn::NewCol(actual), MergePattern::New(expected)) => require(
            *actual == expected,
            scope,
            text,
        ),
        (MergeFn::LetVar(actual), MergePattern::Let(expected)) => require(
            *actual == expected,
            scope,
            text,
        ),
        (MergeFn::Const { ty, .. }, MergePattern::Unit) => require_scalar(
            catalog,
            *ty,
            ScalarSqlType::Unit,
            scope,
            text,
        ),
        _ => Err(reject(scope, text)),
    }
}

/// Requires merge expressions of the given forms.
pub fn expect_patterns(
    catalog: &Catalog,
    scope: Scope,
    merges: &Vec<MergeFn>,
    patterns: &Vec<MergePattern>,
) -> (checked: Result<(), Rejection>)
    requires
        merges@.len() == patterns@.len(),
    ensures
        yields(
            checked,
            patterns_check(*catalog, scope, merges@, patterns@, patterns@.len()),
            (),
        ),
{
    let mut i: usize = 0;
    while i < patterns.len()
        invariant
            i <= patterns.len() == merges.len(),
            patterns_check(*catalog, scope, merges@, patterns@, i as nat).fault is None,
        decreases patterns.len() - i,
    {
        match expect_pattern(catalog, scope, &merges[i], patterns[i]) {
            Ok(_) => {},
            Err(error) => {
                proof {
                    lemma_first_pattern_fault(
                        *catalog,
                        scope,
                        merges@,
                        patterns@,
                        i as nat + 1,
                        patterns@.len(),
                    );
                }
                return Err(error);
            },
        }
        i += 1;
    }
    Ok(())
}

/// All types are `Id`.
pub open spec fn all_ids(tys: Seq<ColumnTy>) -> bool {
    forall|i: int| 0 <= i < tys.len() ==> #[trigger] tys[i] == ColumnTy::Id
}

/// Whether all types are `Id`.
pub fn are_ids(tys: &Vec<ColumnTy>) -> (result: bool)
    ensures
        result == all_ids(tys@),
{
    let mut i: usize = 0;
    while i < tys.len()
        invariant
            i <= tys.len(),
            forall|j: int| 0 <= j < i ==> #[trigger] tys@[j] == ColumnTy::Id,
        decreases tys.len() - i,
    {
        if tys[i] != ColumnTy::Id {
            return false;
        }
        i += 1;
    }
    true
}

} // verus!
