use vstd::prelude::*;

verus! {

/// Errors reported while sealing or opening a session blob.
#[derive(Clone, Copy, Debug, PartialEq, Eq, Structural)]
pub enum SessionError {
    /// The blob is too short to be valid, or its tag does not authenticate.
    ValidationError,
    /// Secure randomness or the inner encoding could not be produced.
    InternalError,
    /// The blob authenticated, but its plaintext is not a well-formed transport.
    DeserializationError,
}

impl SessionError {
    /// A short description of the error.
    pub fn description(&self) -> (r: String) {
        match self {
            SessionError::ValidationError => "session failed validation".to_owned(),
            SessionError::InternalError => "internal error".to_owned(),
            SessionError::DeserializationError => "session could not be deserialized".to_owned(),
        }
    }
}

} // verus!
