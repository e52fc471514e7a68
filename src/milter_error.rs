//! The errors of the crate.
use vstd::prelude::*;

use crate::text::char_text;

verus! {

#[verifier::external_type_specification]
#[verifier::external_body]
pub struct ExIoError(std::io::Error);

#[verifier::external_type_specification]
#[verifier::external_body]
pub struct ExTryFromSliceError(core::array::TryFromSliceError);

/// Errors defined in the `rmilter` crate
#[derive(Debug)]
pub enum MilterError {
    /// An incomplete message was received by rmilter (e.g. missing non-optional fields)
    IncompleteMessage,
    /// An `std::io::Error` occured
    IoError(std::io::Error),
    /// A message was received by rmilter that doesn't contain a message identifier
    MissingMessageIdentifier,
    /// An `std::num::TryFromIntError` occured
    TryFromIntError(core::num::TryFromIntError),
    /// An `std::array::TryFromSliceError` occured
    TryFromSliceError(core::array::TryFromSliceError),
    /// A message with an unknown message identifier was received by rmilter
    UnknownMessageIdentifier(char),
}

impl MilterError {
    /// A description of the error for people, as its `Display` would give it.
    pub fn to_string(&self) -> (r: String)
        ensures
            self is IncompleteMessage ==> r@ == "Incomplete message"@,
            self is MissingMessageIdentifier ==> r@ == "Missing message identifier"@,
            *self matches MilterError::UnknownMessageIdentifier(c) ==> r@
                == "Unknown message identifier: '"@ + seq![c] + "'"@,
    {
        match self {
            MilterError::IncompleteMessage => String::from_str("Incomplete message"),
            MilterError::IoError(e) => e.to_string(),
            MilterError::MissingMessageIdentifier => String::from_str("Missing message identifier"),
            MilterError::TryFromIntError(e) => e.to_string(),
            MilterError::TryFromSliceError(e) => e.to_string(),
            MilterError::UnknownMessageIdentifier(c) => {
                let mut r = String::from_str("Unknown message identifier: '");
                let quoted = char_text(*c);
                r.append(quoted.as_str());
                r.append("'");
                r
            },
        }
    }
}

impl From<std::io::Error> for MilterError {
    fn from(e: std::io::Error) -> (r: MilterError)
        ensures
            r == MilterError::IoError(e),
    {
        MilterError::IoError(e)
    }
}

impl vstd::std_specs::convert::FromSpecImpl<std::io::Error> for MilterError {
    open spec fn obeys_from_spec() -> bool {
        true
    }

    open spec fn from_spec(e: std::io::Error) -> MilterError {
        MilterError::IoError(e)
    }
}

impl From<core::num::TryFromIntError> for MilterError {
    fn from(e: core::num::TryFromIntError) -> (r: MilterError)
        ensures
            r == MilterError::TryFromIntError(e),
    {
        MilterError::TryFromIntError(e)
    }
}

impl vstd::std_specs::convert::FromSpecImpl<core::num::TryFromIntError> for MilterError {
    open spec fn obeys_from_spec() -> bool {
        true
    }

    open spec fn from_spec(e: core::num::TryFromIntError) -> MilterError {
        MilterError::TryFromIntError(e)
    }
}

impl From<core::array::TryFromSliceError> for MilterError {
    fn from(e: core::array::TryFromSliceError) -> (r: MilterError)
        ensures
            r == MilterError::TryFromSliceError(e),
    {
        MilterError::TryFromSliceError(e)
    }
}

impl vstd::std_specs::convert::FromSpecImpl<core::array::TryFromSliceError> for MilterError {
    open spec fn obeys_from_spec() -> bool {
        true
    }

    open spec fn from_spec(e: core::array::TryFromSliceError) -> MilterError {
        MilterError::TryFromSliceError(e)
    }
}

} // verus!
