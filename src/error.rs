use vstd::prelude::*;

verus! {

/// Why an operation of the library failed.
#[derive(Debug)]
pub enum CoreError {
    /// The input text, or a decode-merge directive map, is not valid JSON.
    InvalidJson(String),
    /// A value could not be written out, or bytes did not decode as the
    /// expected binary message.
    SerializationError(String),
}

pub type CoreResult<T> = Result<T, CoreError>;

impl CoreError {
    /// The message carried by the error.
    pub fn message(&self) -> (r: &String)
        ensures
            r == match self {
                CoreError::InvalidJson(m) => m,
                CoreError::SerializationError(m) => m,
            },
    {
        match self {
            CoreError::InvalidJson(m) => m,
            CoreError::SerializationError(m) => m,
        }
    }
}

} // verus!
