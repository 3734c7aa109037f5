use vstd::prelude::*;

verus! {

/// A violation of the protocol scaffold's rules: a framing or parse failure,
/// or a message that arrives out of lifecycle order. Carries a human-readable
/// description of what was expected and what arrived instead.
#[derive(Debug, Clone)]
pub struct ProtocolError(pub String);

impl ProtocolError {
    /// Builds a protocol error from its description.
    pub fn new(description: String) -> (r: ProtocolError)
        ensures
            r.0@ == description@,
    {
        ProtocolError(description)
    }

    /// The human-readable description of the violation.
    pub fn description(&self) -> (r: &String)
        ensures
            r@ == self.0@,
    {
        &self.0
    }
}

/// Unifies a protocol violation with an error of the embedding application,
/// for the return value of a top-level run routine. The application error is
/// opaque to this crate and passed through unchanged.
#[derive(Debug, Clone)]
pub enum LspServerError<E> {
    ProtocolError(ProtocolError),
    ServerError(E),
}

impl<E> From<ProtocolError> for LspServerError<E> {
    fn from(error: ProtocolError) -> (r: Self) {
        LspServerError::ProtocolError(error)
    }
}

impl<E> vstd::std_specs::convert::FromSpecImpl<ProtocolError> for LspServerError<E> {
    open spec fn obeys_from_spec() -> bool {
        true
    }

    open spec fn from_spec(error: ProtocolError) -> Self {
        LspServerError::ProtocolError(error)
    }
}

} // verus!
