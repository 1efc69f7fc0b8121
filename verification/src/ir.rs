//! The rule and table vocabulary that the compilers read.
//!
//! Names of variables and of called tables carry no meaning for lowering, so
//! they have no place here. A primitive call keeps its display name, which
//! diagnostics quote; a rule keeps its own.

use vstd::prelude::*;

verus! {

/// Identifies a function table.
#[derive(Clone, Copy, Debug, PartialEq, Eq, Structural)]
pub struct FunctionId {
    pub rep: u32,
}

/// Identifies a registered primitive token.
#[derive(Clone, Copy, Debug, PartialEq, Eq, Structural)]
pub struct ExternalFunctionId {
    pub rep: u32,
}

/// Identifies a registered base value type.
#[derive(Clone, Copy, Debug, PartialEq, Eq, Structural)]
pub struct BaseValueId {
    pub rep: u32,
}

/// Identifies an admitted rule.
#[derive(Clone, Copy, Debug, PartialEq, Eq, Structural)]
pub struct RuleId {
    pub rep: u32,
}

/// An interned value.
#[derive(Clone, Copy, Debug, PartialEq, Eq, Structural)]
pub struct Value {
    pub rep: u32,
}

/// The type of a table column or a rule variable.
#[derive(Clone, Copy, Debug, PartialEq, Eq, Structural)]
pub enum ColumnTy {
    Id,
    Base(BaseValueId),
}

/// A rule variable. Two occurrences denote the same variable when their ids
/// are equal.
#[derive(Clone, Copy, Debug, PartialEq, Eq, Structural)]
pub struct RuleVar {
    pub id: u32,
    pub ty: ColumnTy,
}

/// A typed constant.
#[derive(Clone, Copy, Debug, PartialEq, Eq, Structural)]
pub struct RuleValue {
    pub value: Value,
    pub ty: ColumnTy,
}

/// An argument of a body atom or a head action.
#[derive(Clone, Copy, Debug, PartialEq, Eq, Structural)]
pub enum AtomTerm {
    Var(RuleVar),
    Literal(RuleValue),
    Global(RuleVar),
}

/// Which rows of a table an atom reads.
#[derive(Clone, Copy, Debug, PartialEq, Eq, Structural)]
pub enum ReadMode {
    Live,
    Subsumed,
    All,
}

/// What a body atom calls.
#[allow(inconsistent_fields)]
#[derive(Debug)]
pub enum RuleBodyCall {
    Table { id: FunctionId, read: ReadMode },
    /// An occurrence index: the first argument is the probe, the last one the
    /// Unit output, and the probe equals one of the `any_of` columns.
    IndexTable { id: FunctionId, any_of: Vec<usize>, read: ReadMode },
    Primitive { id: ExternalFunctionId, name: String, output: ColumnTy },
}

/// One conjunct of a rule body.
#[derive(Debug)]
pub struct Atom {
    pub head: RuleBodyCall,
    pub args: Vec<AtomTerm>,
}

/// What a head action calls.
#[allow(inconsistent_fields)]
#[derive(Debug)]
pub enum RuleActionCall {
    Table { id: FunctionId },
    Primitive { id: ExternalFunctionId, name: String, output: ColumnTy },
}

/// How a cleanup action changes a row.
#[derive(Clone, Copy, Debug, PartialEq, Eq, Structural)]
pub enum Change {
    Delete,
    Subsume,
}

/// One head action.
#[derive(Debug)]
pub enum CoreAction {
    Let(RuleVar, RuleActionCall, Vec<AtomTerm>),
    LetAtomTerm(RuleVar, AtomTerm),
    SetRow(RuleActionCall, Vec<AtomTerm>, Vec<AtomTerm>),
    Change(Change, RuleActionCall, Vec<AtomTerm>),
    Union(AtomTerm, AtomTerm),
    Panic(String),
}

/// A rule as handed to admission.
#[derive(Debug)]
pub struct RuleSpec {
    pub name: String,
    pub seminaive: bool,
    pub no_decomp: bool,
    pub body: Vec<Atom>,
    pub head: Vec<CoreAction>,
}

/// What a lookup of an absent row yields.
#[derive(Clone, Copy, Debug, PartialEq, Eq, Structural)]
pub enum DefaultVal {
    FreshId,
    Fail,
    Const(Value),
}

/// How two rows with equal keys are merged.
#[derive(Debug)]
pub enum MergeFn {
    Old,
    New,
    OldCol(usize),
    NewCol(usize),
    LetVar(usize),
    Const { value: Value, ty: ColumnTy },
    AssertEq,
    UnionId,
    Primitive {
        id: ExternalFunctionId,
        name: String,
        input: Vec<ColumnTy>,
        output: ColumnTy,
        args: Vec<MergeFn>,
    },
    Function(FunctionId, Vec<MergeFn>),
    Lookup(FunctionId, Vec<MergeFn>),
    Columns(Vec<MergeFn>),
    Block { actions: Vec<MergeAction>, result: Box<MergeFn> },
}

/// One ordered step of a merge block.
#[derive(Debug)]
pub enum MergeAction {
    Let { slot: usize, value: MergeFn },
    SetRow(FunctionId, Vec<MergeFn>),
    Union(MergeFn, MergeFn),
}

/// A complete table configuration.
#[derive(Debug)]
pub struct FunctionConfig {
    pub name: String,
    pub schema: Vec<ColumnTy>,
    pub n_vals: usize,
    pub n_identity_vals: Option<usize>,
    pub default: DefaultVal,
    pub merge: MergeFn,
    pub can_subsume: bool,
}

impl FunctionId {
    pub fn new(rep: u32) -> (id: Self)
        ensures
            id.rep == rep,
    {
        FunctionId { rep }
    }
}

impl ExternalFunctionId {
    pub fn new(rep: u32) -> (id: Self)
        ensures
            id.rep == rep,
    {
        ExternalFunctionId { rep }
    }
}

impl RuleId {
    pub fn new(rep: u32) -> (id: Self)
        ensures
            id.rep == rep,
    {
        RuleId { rep }
    }
}

impl Value {
    pub fn new(rep: u32) -> (value: Self)
        ensures
            value.rep == rep,
    {
        Value { rep }
    }
}

/// The declared type of a term.
pub open spec fn term_ty(term: AtomTerm) -> ColumnTy {
    match term {
        AtomTerm::Var(variable) => variable.ty,
        AtomTerm::Literal(literal) => literal.ty,
        AtomTerm::Global(global) => global.ty,
    }
}

/// The declared type of a term.
pub fn argument_ty(term: &AtomTerm) -> (ty: ColumnTy)
    ensures
        ty == term_ty(*term),
{
    match term {
        AtomTerm::Var(variable) => variable.ty,
        AtomTerm::Literal(literal) => literal.ty,
        AtomTerm::Global(global) => global.ty,
    }
}

/// The declared types of a list of terms.
pub fn argument_tys(terms: &Vec<AtomTerm>, count: usize) -> (tys: Vec<ColumnTy>)
    requires
        count <= terms.len(),
    ensures
        tys@ == terms@.take(count as int).map_values(|t: AtomTerm| term_ty(t)),
{
    let mut tys: Vec<ColumnTy> = Vec::new();
    let mut i: usize = 0;
    while i < count
        invariant
            i <= count <= terms.len(),
            tys.len() == i,
            forall|j: int| 0 <= j < i ==> tys@[j] == term_ty(terms@[j]),
        decreases count - i,
    {
        tys.push(argument_ty(&terms[i]));
        i += 1;
    }
    assert(tys@ =~= terms@.take(count as int).map_values(|t: AtomTerm| term_ty(t)));
    tys
}

/// Whether two type lists are the same.
pub fn same_tys(left: &Vec<ColumnTy>, right: &Vec<ColumnTy>) -> (same: bool)
    ensures
        same == (left@ == right@),
{
    if left.len() != right.len() {
        return false;
    }
    let mut i: usize = 0;
    while i < left.len()
        invariant
            i <= left.len() == right.len(),
            forall|j: int| 0 <= j < i ==> left@[j] == right@[j],
        decreases left.len() - i,
    {
        if left[i] != right[i] {
            return false;
        }
        i += 1;
    }
    assert(left@ =~= right@);
    true
}

/// A copy of a list of column types.
pub fn copy_tys(tys: &Vec<ColumnTy>) -> (copy: Vec<ColumnTy>)
    ensures
        copy@ == tys@,
{
    let mut copy: Vec<ColumnTy> = Vec::new();
    let mut i: usize = 0;
    while i < tys.len()
        invariant
            i <= tys.len(),
            copy@ == tys@.take(i as int),
        decreases tys.len() - i,
    {
        copy.push(tys[i]);
        i += 1;
        assert(copy@ =~= tys@.take(i as int));
    }
    assert(tys@.take(tys.len() as int) =~= tys@);
    copy
}

} // verus!
