//! Scalar expressions with a closed SQL form.
//!
//! A primitive call becomes SQL only when its token is registered as a native
//! or typed scalar primitive and a form for exactly its signature exists.

use vstd::prelude::*;

use crate::authority::{AuthorityRegistries, NativePrimitive, NativeScalarPrimitive};
use crate::ir::{same_tys, ColumnTy, ExternalFunctionId};
use crate::rejection::{reject_with, Rejection, Scope};
use crate::text::append_number;
#[allow(unused_imports)]
use crate::authority::entry;
#[allow(unused_imports)]
use crate::rejection::{agrees, rejected, RejectionView};
#[allow(unused_imports)]
use crate::text::{decimal, texts};

verus! {

/// Where the authority of an expression comes from.
#[derive(Clone, Copy, Debug, PartialEq, Eq, Structural)]
pub enum ScalarAuthority {
    Native(NativePrimitive),
    Typed(NativeScalarPrimitive),
}

/// One piece of an SQL form: fixed text, or the rendered input at a position.
#[derive(Debug)]
pub enum SqlPiece {
    Text(String),
    Input(usize),
}

/// What an [`SqlPiece`] says.
pub enum SqlPieceView {
    Text(Seq<char>),
    Input(int),
}

impl View for SqlPiece {
    type V = SqlPieceView;

    open spec fn view(&self) -> SqlPieceView {
        match *self {
            SqlPiece::Text(text) => SqlPieceView::Text(text@),
            SqlPiece::Input(index) => SqlPieceView::Input(index as int),
        }
    }
}

/// The SQL form of a primitive at one signature. `defined` is the condition
/// under which the value exists; a form without it is total.
#[derive(Debug)]
pub struct ScalarForm {
    pub authority: ScalarAuthority,
    pub inputs: Vec<ColumnTy>,
    pub output: ColumnTy,
    pub value: Vec<SqlPiece>,
    pub defined: Option<Vec<SqlPiece>>,
}

/// An authenticated expression.
#[derive(Debug)]
pub struct ScalarExpression {
    pub token: ExternalFunctionId,
    pub authority: ScalarAuthority,
    pub value: Vec<SqlPiece>,
    pub defined: Option<Vec<SqlPiece>>,
}

/// What a [`ScalarExpression`] says.
pub struct ScalarExpressionView {
    pub token: ExternalFunctionId,
    pub authority: ScalarAuthority,
    pub value: Seq<SqlPieceView>,
    pub defined: Option<Seq<SqlPieceView>>,
}

/// The pieces of a form, through their views.
pub open spec fn piece_views(pieces: Seq<SqlPiece>) -> Seq<SqlPieceView> {
    pieces.map_values(|p: SqlPiece| p@)
}

/// An optional form, through its view.
pub open spec fn defined_view(defined: Option<Vec<SqlPiece>>) -> Option<Seq<SqlPieceView>> {
    match defined {
        Some(pieces) => Some(piece_views(pieces@)),
        None => None,
    }
}

impl View for ScalarExpression {
    type V = ScalarExpressionView;

    open spec fn view(&self) -> ScalarExpressionView {
        ScalarExpressionView {
            token: self.token,
            authority: self.authority,
            value: piece_views(self.value@),
            defined: defined_view(self.defined),
        }
    }
}

/// The text of one piece. A position without an input contributes nothing.
pub open spec fn piece_text(piece: SqlPieceView, inputs: Seq<Seq<char>>) -> Seq<char> {
    match piece {
        SqlPieceView::Text(text) => text,
        SqlPieceView::Input(index) => if 0 <= index < inputs.len() {
            inputs[index]
        } else {
            Seq::empty()
        },
    }
}

/// The text of a form over rendered inputs.
pub open spec fn form_text(pieces: Seq<SqlPieceView>, inputs: Seq<Seq<char>>) -> Seq<char>
    decreases pieces.len(),
{
    if pieces.len() == 0 {
        Seq::empty()
    } else {
        form_text(pieces.drop_last(), inputs) + piece_text(pieces.last(), inputs)
    }
}

/// A rendered expression. `defined` is absent when the value always exists.
#[derive(Debug)]
pub struct Rendered {
    pub value: String,
    pub defined: Option<String>,
}

/// The condition of an expression over rendered inputs.
pub open spec fn defined_text(
    expression: ScalarExpressionView,
    inputs: Seq<Seq<char>>,
) -> Option<Seq<char>> {
    match expression.defined {
        Some(pieces) => Some(form_text(pieces, inputs)),
        None => None,
    }
}

/// The authority that the registries give a token.
pub open spec fn authority_of(
    registries: AuthorityRegistries,
    token: ExternalFunctionId,
) -> Option<ScalarAuthority> {
    match entry(registries.native_primitives@, token.rep) {
        Some(tag) => Some(ScalarAuthority::Native(tag)),
        None => match entry(registries.native_scalar_primitives@, token.rep) {
            Some(descriptor) => Some(ScalarAuthority::Typed(descriptor)),
            None => None,
        },
    }
}

/// Whether a form is for this authority and signature.
pub open spec fn form_matches(
    form: ScalarForm,
    authority: ScalarAuthority,
    inputs: Seq<ColumnTy>,
    output: ColumnTy,
) -> bool {
    form.authority == authority && form.inputs@ == inputs && form.output == output
}

/// The first matching form at or after a position.
pub open spec fn find_form(
    forms: Seq<ScalarForm>,
    authority: ScalarAuthority,
    inputs: Seq<ColumnTy>,
    output: ColumnTy,
    from: int,
) -> Option<ScalarForm>
    decreases forms.len() - from,
{
    if from < 0 || from >= forms.len() {
        None
    } else if form_matches(forms[from], authority, inputs, output) {
        Some(forms[from])
    } else {
        find_form(forms, authority, inputs, output, from + 1)
    }
}

/// The expression that a token denotes at a signature, or why it denotes none.
pub open spec fn authenticated(
    forms: Seq<ScalarForm>,
    registries: AuthorityRegistries,
    token: ExternalFunctionId,
    inputs: Seq<ColumnTy>,
    output: ColumnTy,
) -> Result<ScalarExpressionView, RejectionView> {
    match authority_of(registries, token) {
        None => Err(
            rejected(
                Scope::Bare,
                "unauthenticated or callback primitive token "@ + decimal(token.rep as nat),
            ),
        ),
        Some(authority) => match find_form(forms, authority, inputs, output, 0) {
            None => Err(
                rejected(
                    Scope::Bare,
                    "no SQL form for the signature of primitive token "@ + decimal(
                        token.rep as nat,
                    ),
                ),
            ),
            Some(form) => Ok(
                ScalarExpressionView {
                    token,
                    authority,
                    value: piece_views(form.value@),
                    defined: defined_view(form.defined),
                },
            ),
        },
    }
}

fn copy_pieces(pieces: &Vec<SqlPiece>) -> (copy: Vec<SqlPiece>)
    ensures
        piece_views(copy@) == piece_views(pieces@),
{
    let mut copy: Vec<SqlPiece> = Vec::new();
    let mut i: usize = 0;
    while i < pieces.len()
        invariant
            i <= pieces.len(),
            copy.len() == i,
            forall|j: int| 0 <= j < i ==> copy@[j]@ == pieces@[j]@,
        decreases pieces.len() - i,
    {
        let piece = match &pieces[i] {
            SqlPiece::Text(text) => SqlPiece::Text(text.clone()),
            SqlPiece::Input(index) => SqlPiece::Input(*index),
        };
        copy.push(piece);
        i += 1;
    }
    assert(piece_views(copy@) =~= piece_views(pieces@));
    copy
}

fn render_pieces(pieces: &Vec<SqlPiece>, inputs: &Vec<String>) -> (text: String)
    ensures
        text@ == form_text(piece_views(pieces@), texts(inputs@)),
{
    let mut text = String::new();
    let mut i: usize = 0;
    while i < pieces.len()
        invariant
            i <= pieces.len(),
            text@ == form_text(piece_views(pieces@).take(i as int), texts(inputs@)),
        decreases pieces.len() - i,
    {
        let ghost shown = piece_views(pieces@).take(i as int + 1);
        assert(shown.drop_last() =~= piece_views(pieces@).take(i as int));
        assert(shown.last() == pieces@[i as int]@);
        match &pieces[i] {
            SqlPiece::Text(fixed) => {
                text.append(fixed.as_str());
            },
            SqlPiece::Input(index) => {
                if *index < inputs.len() {
                    text.append(inputs[*index].as_str());
                } else {
                    assert(text@ + Seq::<char>::empty() =~= text@);
                }
            },
        }
        i += 1;
    }
    assert(piece_views(pieces@).take(pieces.len() as int) =~= piece_views(pieces@));
    text
}

impl Rendered {
    /// Whether the value exists for every input.
    pub fn is_total(&self) -> (total: bool)
        ensures
            total == (self.defined is None),
    {
        self.defined.is_none()
    }
}

impl ScalarExpression {
    /// Finds the expression that a token denotes at a signature.
    pub fn authenticate(
        forms: &Vec<ScalarForm>,
        registries: &AuthorityRegistries,
        token: ExternalFunctionId,
        inputs: &Vec<ColumnTy>,
        output: ColumnTy,
    ) -> (expression: Result<ScalarExpression, Rejection>)
        ensures
            agrees(expression, authenticated(forms@, *registries, token, inputs@, output)),
    {
        let authority = match registries.native(token) {
            Some(tag) => ScalarAuthority::Native(tag),
            None => match registries.native_scalar(token) {
                Some(descriptor) => ScalarAuthority::Typed(descriptor),
                None => {
                    let mut text = "unauthenticated or callback primitive token ".to_owned();
                    append_number(&mut text, token.rep as u64);
                    return Err(reject_with(Scope::Bare, text));
                },
            },
        };
        let mut i: usize = 0;
        while i < forms.len()
            invariant
                i <= forms.len(),
                authority_of(*registries, token) == Some(authority),
                find_form(forms@, authority, inputs@, output, 0) == find_form(
                    forms@,
                    authority,
                    inputs@,
                    output,
                    i as int,
                ),
            decreases forms.len() - i,
        {
            let form = &forms[i];
            if form.authority == authority && same_tys(&form.inputs, inputs) && form.output
                == output {
                let defined = match &form.defined {
                    Some(pieces) => Some(copy_pieces(pieces)),
                    None => None,
                };
                return Ok(
                    ScalarExpression { token, authority, value: copy_pieces(&form.value), defined },
                );
            }
            i += 1;
        }
        let mut text = "no SQL form for the signature of primitive token ".to_owned();
        append_number(&mut text, token.rep as u64);
        Err(reject_with(Scope::Bare, text))
    }

    /// Renders the expression over rendered inputs.
    pub fn render(&self, inputs: &Vec<String>) -> (rendered: Rendered)
        ensures
            rendered.value@ == form_text(self@.value, texts(inputs@)),
            match (rendered.defined, defined_text(self@, texts(inputs@))) {
                (Some(text), Some(model)) => text@ == model,
                (None, None) => true,
                _ => false,
            },
    {
        let defined = match &self.defined {
            Some(pieces) => Some(render_pieces(pieces, inputs)),
            None => None,
        };
        Rendered { value: render_pieces(&self.value, inputs), defined }
    }

    /// Where the expression's authority comes from.
    pub fn authority(&self) -> (authority: ScalarAuthority)
        ensures
            authority == self@.authority,
    {
        self.authority
    }

    /// The token that the expression was authenticated for.
    pub fn token(&self) -> (token: ExternalFunctionId)
        ensures
            token == self@.token,
    {
        self.token
    }
}

} // verus!
