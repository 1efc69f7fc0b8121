//! Why a rule or a table was refused.

use vstd::prelude::*;

verus! {

/// Which compiler speaks, and hence how the diagnostic opens.
#[derive(Clone, Copy, Debug, PartialEq, Eq, Structural)]
pub enum Scope {
    /// The text stands alone, without the rule's name.
    Bare,
    FourAction,
    Path,
    StandardRebuild,
    EqKeyRebuild,
    EclassRebuild,
    Marker,
    Scalar,
}

/// A refusal. The rule's name is added when the diagnostic is rendered, so no
/// decision can depend on it.
#[derive(Debug)]
pub struct Rejection {
    pub scope: Scope,
    pub text: String,
    pub cause: Option<String>,
}

/// What a [`Rejection`] says.
pub struct RejectionView {
    pub scope: Scope,
    pub text: Seq<char>,
    pub cause: Option<Seq<char>>,
}

impl View for Rejection {
    type V = RejectionView;

    open spec fn view(&self) -> RejectionView {
        RejectionView {
            scope: self.scope,
            text: self.text@,
            cause: match self.cause {
                Some(cause) => Some(cause@),
                None => None,
            },
        }
    }
}

/// A refusal without an underlying cause.
pub open spec fn rejected(scope: Scope, text: Seq<char>) -> RejectionView {
    RejectionView { scope, text, cause: None }
}

/// A refusal that wraps another one.
pub open spec fn rejected_because(scope: Scope, text: Seq<char>, cause: Seq<char>) -> RejectionView {
    RejectionView { scope, text, cause: Some(cause) }
}

/// The words before the rule's name.
pub open spec fn scope_text(scope: Scope) -> Seq<char> {
    match scope {
        Scope::Bare => ""@,
        Scope::FourAction => "DuckDB four-action rule `"@,
        Scope::Path => "DuckDB path rule `"@,
        Scope::StandardRebuild => "DuckDB standard rebuild rule `"@,
        Scope::EqKeyRebuild => "DuckDB eq-key rebuild rule `"@,
        Scope::EclassRebuild => "DuckDB eclass-output rebuild rule `"@,
        Scope::Marker => "DuckDB marker rekey rule `"@,
        Scope::Scalar => "DuckDB scalar rule `"@,
    }
}

/// The rendered diagnostic, without its cause.
pub open spec fn message_text(rejection: RejectionView, rule_name: Seq<char>) -> Seq<char> {
    if rejection.scope == Scope::Bare {
        rejection.text
    } else {
        scope_text(rejection.scope) + rule_name + "` "@ + rejection.text
    }
}

/// The rendered diagnostic, followed by its cause.
pub open spec fn report_text(rejection: RejectionView, rule_name: Seq<char>) -> Seq<char> {
    match rejection.cause {
        Some(cause) => message_text(rejection, rule_name) + ": "@ + cause,
        None => message_text(rejection, rule_name),
    }
}

/// A result whose value needs no view says what `expected` says.
pub open spec fn same_outcome<T>(
    actual: Result<T, Rejection>,
    expected: Result<T, RejectionView>,
) -> bool {
    match (actual, expected) {
        (Ok(value), Ok(model)) => value == model,
        (Err(error), Err(model)) => error@ == model,
        _ => false,
    }
}

/// A result says, through its view, what `expected` says.
pub open spec fn agrees<T: View>(
    actual: Result<T, Rejection>,
    expected: Result<T::V, RejectionView>,
) -> bool {
    match (actual, expected) {
        (Ok(value), Ok(model)) => value@ == model,
        (Err(error), Err(model)) => error@ == model,
        _ => false,
    }
}

/// A tri-state result says, through its view, what `expected` says.
pub open spec fn agrees_if_owned<T: View>(
    actual: Result<Option<T>, Rejection>,
    expected: Result<Option<T::V>, RejectionView>,
) -> bool {
    match (actual, expected) {
        (Ok(Some(value)), Ok(Some(model))) => value@ == model,
        (Ok(None), Ok(None)) => true,
        (Err(error), Err(model)) => error@ == model,
        _ => false,
    }
}

/// A step that changes a state ends in the state that `expected` gives.
pub open spec fn steps_to<S>(
    actual: Result<(), Rejection>,
    after: S,
    expected: Result<S, RejectionView>,
) -> bool {
    match (actual, expected) {
        (Ok(_), Ok(model)) => after == model,
        (Err(error), Err(model)) => error@ == model,
        _ => false,
    }
}

/// Refuses with a fixed text.
pub fn reject(scope: Scope, text: &str) -> (rejection: Rejection)
    ensures
        rejection@ == rejected(scope, text@),
{
    Rejection { scope, text: text.to_owned(), cause: None }
}

/// Refuses with an assembled text.
pub fn reject_with(scope: Scope, text: String) -> (rejection: Rejection)
    ensures
        rejection@ == rejected(scope, text@),
{
    Rejection { scope, text, cause: None }
}

/// Refuses with an assembled text because of an earlier refusal.
pub fn reject_because(scope: Scope, text: String, cause: Rejection) -> (rejection: Rejection)
    ensures
        rejection@ == rejected_because(scope, text@, cause@.text),
{
    Rejection { scope, text, cause: Some(cause.text) }
}

impl Scope {
    fn opening(self) -> (text: &'static str)
        ensures
            text@ == scope_text(self),
    {
        match self {
            Scope::Bare => "",
            Scope::FourAction => "DuckDB four-action rule `",
            Scope::Path => "DuckDB path rule `",
            Scope::StandardRebuild => "DuckDB standard rebuild rule `",
            Scope::EqKeyRebuild => "DuckDB eq-key rebuild rule `",
            Scope::EclassRebuild => "DuckDB eclass-output rebuild rule `",
            Scope::Marker => "DuckDB marker rekey rule `",
            Scope::Scalar => "DuckDB scalar rule `",
        }
    }
}

impl Rejection {
    /// Renders the diagnostic for the rule of the given name.
    pub fn message(&self, rule_name: &str) -> (text: String)
        ensures
            text@ == message_text(self@, rule_name@),
    {
        if self.scope == Scope::Bare {
            return self.text.clone();
        }
        let mut text = self.scope.opening().to_owned();
        text.append(rule_name);
        text.append("` ");
        text.append(self.text.as_str());
        text
    }

    /// Renders the diagnostic together with its cause.
    pub fn report(&self, rule_name: &str) -> (text: String)
        ensures
            text@ == report_text(self@, rule_name@),
    {
        let mut text = self.message(rule_name);
        match &self.cause {
            Some(cause) => {
                text.append(": ");
                text.append(cause.as_str());
            },
            None => {},
        }
        text
    }
}

} // verus!
