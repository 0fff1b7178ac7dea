use vstd::prelude::*;

verus! {

/// Failures of typed extraction and deserialization of a [`crate::Pod`].
#[derive(Debug, PartialEq, Eq)]
pub enum Error {
    /// A value of another kind than the one named was found.
    TypeError(String),
    /// The target's shape could not be satisfied by the value.
    DeserializeError(String),
    /// A map value was asked for before its key.
    ValueMissingError,
    /// The requested shape is not supported for this value.
    UnsupportedError(String),
}

impl Error {
    pub fn type_error(expected: &str) -> (r: Error)
        ensures
            r matches Error::TypeError(s) && s@ == expected@,
    {
        Error::TypeError(expected.to_owned())
    }

    pub fn deserialize_error(msg: &str) -> (r: Error)
        ensures
            r matches Error::DeserializeError(s) && s@ == msg@,
    {
        Error::DeserializeError(msg.to_owned())
    }

    pub fn value_missing() -> (r: Error)
        ensures
            r is ValueMissingError,
    {
        Error::ValueMissingError
    }

    pub fn unsupported(msg: &str) -> (r: Error)
        ensures
            r matches Error::UnsupportedError(s) && s@ == msg@,
    {
        Error::UnsupportedError(msg.to_owned())
    }
}

} // verus!
