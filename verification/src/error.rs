use vstd::prelude::*;

verus! {

/// The ways in which a run can fail.
#[derive(Clone, Copy, Debug, PartialEq, Eq, Structural)]
pub enum EngineError {
    /// The network or the HTTP exchange failed.
    TransportError,
    /// A response was malformed or did not match the expected shape.
    DecodeError,
    /// Scoring was asked for although no pull request was aggregated.
    DivisionByZero,
    /// A required input, such as the credential, is missing.
    ConfigurationError,
    /// A counter or a score would leave the range of 64 bits.
    Overflow,
}

/// Hands back the credential, or `ConfigurationError` where none was given.
pub fn require_credential(token: Option<String>) -> (r: Result<String, EngineError>)
    ensures
        r == match token {
            Some(t) => Ok::<String, EngineError>(t),
            None => Err::<String, EngineError>(EngineError::ConfigurationError),
        },
{
    match token {
        Some(t) => Ok(t),
        None => Err(EngineError::ConfigurationError),
    }
}

} // verus!
