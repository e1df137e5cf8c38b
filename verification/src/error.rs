//! Errors of the library.

use vstd::prelude::*;

verus! {

/// Why a schema or a directive could not be read.
#[derive(Debug, PartialEq, Eq)]
pub enum FederationError {
    /// A value does not have the form that its reader expects.
    Internal { message: String },
    /// The schema defines nothing for the federation directive `name_in_spec`.
    UndefinedDirective { name_in_spec: String },
    /// Nothing is recorded about where the directive `directive_name` is applied.
    MissingReferencers { directive_name: String },
    /// The schema has no object type named `named_type`.
    MissingObjectType { named_type: String },
    /// The schema has no interface type named `named_type`.
    MissingInterfaceType { named_type: String },
}

/// A [`FederationError`] as contracts see it: texts are sequences of characters.
pub enum ErrorView {
    Internal { message: Seq<char> },
    UndefinedDirective { name_in_spec: Seq<char> },
    MissingReferencers { directive_name: Seq<char> },
    MissingObjectType { named_type: Seq<char> },
    MissingInterfaceType { named_type: Seq<char> },
}

impl View for FederationError {
    type V = ErrorView;

    open spec fn view(&self) -> ErrorView {
        match self {
            FederationError::Internal { message } => ErrorView::Internal { message: message@ },
            FederationError::UndefinedDirective { name_in_spec } => ErrorView::UndefinedDirective {
                name_in_spec: name_in_spec@,
            },
            FederationError::MissingReferencers { directive_name } => {
                ErrorView::MissingReferencers { directive_name: directive_name@ }
            },
            FederationError::MissingObjectType { named_type } => ErrorView::MissingObjectType {
                named_type: named_type@,
            },
            FederationError::MissingInterfaceType { named_type } => {
                ErrorView::MissingInterfaceType { named_type: named_type@ }
            },
        }
    }
}

/// The internal error with the given message.
pub open spec fn internal(message: Seq<char>) -> ErrorView {
    ErrorView::Internal { message }
}

/// A result whose error is taken by its view.
pub open spec fn outcome<A>(result: Result<A, FederationError>) -> Result<A, ErrorView> {
    match result {
        Ok(value) => Ok(value),
        Err(error) => Err(error@),
    }
}

impl FederationError {
    /// The internal error with the given message.
    pub fn internal(message: &str) -> (error: FederationError)
        ensures
            error@ == internal(message@),
    {
        FederationError::Internal { message: message.to_owned() }
    }

    /// The internal error whose message is `prefix` followed by `detail`.
    pub fn internal_about(prefix: &str, detail: &str) -> (error: FederationError)
        ensures
            error@ == internal(prefix@ + detail@),
    {
        let mut message: String = prefix.to_owned();
        message.append(detail);
        FederationError::Internal { message }
    }
}

/// The view of an error keeps its kind and its text.
pub proof fn law_view_of_an_error(text: String)
    ensures
        (FederationError::Internal { message: text })@ == (ErrorView::Internal { message: text@ }),
        (FederationError::UndefinedDirective { name_in_spec: text })@ == (
        ErrorView::UndefinedDirective { name_in_spec: text@ }),
        (FederationError::MissingReferencers { directive_name: text })@ == (
        ErrorView::MissingReferencers { directive_name: text@ }),
        (FederationError::MissingObjectType { named_type: text })@ == (
        ErrorView::MissingObjectType { named_type: text@ }),
        (FederationError::MissingInterfaceType { named_type: text })@ == (
        ErrorView::MissingInterfaceType { named_type: text@ }),
        internal(text@) == (ErrorView::Internal { message: text@ }),
{
}

/// Taking a result by its view keeps success with its value, and failure with the view of its error.
pub proof fn law_outcome_of_a_result<A>(result: Result<A, FederationError>)
    ensures
        result matches Ok(value) ==> outcome(result) == Ok::<A, ErrorView>(value),
        result matches Err(error) ==> outcome(result) == Err::<A, ErrorView>(error@),
{
}

} // verus!
