//! Failures, as a kind and a message.

use vstd::prelude::*;

verus! {

/// What sort of failure it was.
#[derive(Clone, Copy, Debug, PartialEq, Eq, Structural)]
pub enum ErrorKind {
    AddrNotAvailable,
    InvalidData,
    InvalidInput,
    NotFound,
    PermissionDenied,
    UnexpectedEof,
    Unsupported,
    WriteZero,
    Other,
    /// The operating system failed with this error number.
    Os(i32),
}

/// A failure.
#[derive(Clone, Debug, PartialEq, Eq)]
pub struct Error {
    pub kind: ErrorKind,
    pub message: String,
}

/// A failure with its message as characters.
pub struct ErrorView {
    pub kind: ErrorKind,
    pub message: Seq<char>,
}

impl View for Error {
    type V = ErrorView;

    open spec fn view(&self) -> ErrorView {
        ErrorView { kind: self.kind, message: self.message@ }
    }
}

impl Error {
    /// The failure with the given kind and message.
    pub fn new(kind: ErrorKind, message: &str) -> (error: Error)
        ensures
            error@ == (ErrorView { kind, message: message@ }),
    {
        Error { kind, message: message.to_owned() }
    }
}

/// The failure told with the context in which it came up.
pub open spec fn in_context(context: Seq<char>, error: ErrorView) -> ErrorView {
    ErrorView { kind: error.kind, message: context + seq![':', ' '] + error.message }
}

/// Puts the context in front of the message; the kind stays.
pub fn contextual_error(context: &str, error_value: Error) -> (error: Error)
    ensures
        error@ == in_context(context@, error_value@),
{
    let mut message = context.to_owned();
    message.push(':');
    message.push(' ');
    message.append(error_value.message.as_str());
    assert(message@ == context@ + seq![':', ' '] + error_value.message@);
    Error { kind: error_value.kind, message }
}

/// A context changes nothing but the message, and there only adds to the front:
/// itself, a colon and a space.
pub proof fn a_context_stands_before_the_message(context: Seq<char>, error: ErrorView)
    ensures
        ({
            let told = in_context(context, error);
            &&& told.kind == error.kind
            &&& told.message.len() == context.len() + 2 + error.message.len()
            &&& told.message.take(context.len() as int) == context
            &&& told.message[context.len() as int] == ':'
            &&& told.message[context.len() as int + 1] == ' '
            &&& told.message.skip(context.len() as int + 2) == error.message
        }),
{
    let told = in_context(context, error);
    assert(told.message.take(context.len() as int) == context);
    assert(told.message.skip(context.len() as int + 2) == error.message);
}

/// A failure is what its kind and its message say.
pub proof fn failures_are_kind_and_message(error: Error)
    ensures
        error@.kind == error.kind,
        error@.message == error.message@,
{
}

} // verus!
