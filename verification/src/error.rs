//! What can go wrong while decoding text or converting a host object.

use vstd::prelude::*;

verus! {

/// The failures of this library. Each one ends the call that met it: no part
/// of a tree and no part of a text is handed out with it.
#[derive(Debug, PartialEq, Eq)]
pub enum JsonError {
    /// A literal taken for a number is no number; the offset is that of the
    /// character at which the literal was to be stored.
    MalformedNumber(usize),
    /// A literal taken for a boolean is neither `true` nor `false`; the
    /// offset is that of the character at which the literal was to be stored.
    MalformedBoolean(usize),
    /// The character at the offset closes or fills a container where none
    /// is open.
    StructuralUnderflow(usize),
    /// A host object is of none of the seven types that can be encoded; the
    /// text is the name of its type.
    UnsupportedHostShape(String),
    /// A value has no counterpart among the host's objects; the text is the
    /// number that the host cannot hold.
    HostConversionFailure(String),
}

/// A `JsonError` over mathematical integers and sequences.
pub enum Failure {
    MalformedNumber(int),
    MalformedBoolean(int),
    StructuralUnderflow(int),
    UnsupportedHostShape(Seq<char>),
    HostConversionFailure(Seq<char>),
}

impl View for JsonError {
    type V = Failure;

    open spec fn view(&self) -> Failure {
        match self {
            JsonError::MalformedNumber(offset) => Failure::MalformedNumber(*offset as int),
            JsonError::MalformedBoolean(offset) => Failure::MalformedBoolean(*offset as int),
            JsonError::StructuralUnderflow(offset) => Failure::StructuralUnderflow(*offset as int),
            JsonError::UnsupportedHostShape(name) => Failure::UnsupportedHostShape(name@),
            JsonError::HostConversionFailure(number) => Failure::HostConversionFailure(number@),
        }
    }
}

impl JsonError {
    /// Where in the text decoding failed, counted in characters from 0; a
    /// failure of a conversion has no such place.
    pub fn offset(&self) -> (place: Option<usize>)
        ensures
            match place {
                Some(offset) => self@.offset() == Some(offset as int),
                None => self@.offset() is None,
            },
    {
        match self {
            JsonError::MalformedNumber(offset) => Some(*offset),
            JsonError::MalformedBoolean(offset) => Some(*offset),
            JsonError::StructuralUnderflow(offset) => Some(*offset),
            JsonError::UnsupportedHostShape(_) => None,
            JsonError::HostConversionFailure(_) => None,
        }
    }

    /// A sentence that says what went wrong.
    pub fn message(&self) -> (sentence: String)
        ensures
            sentence@ == self@.message(),
    {
        match self {
            JsonError::MalformedNumber(_) => String::from_str("malformed number"),
            JsonError::MalformedBoolean(_) => String::from_str("malformed boolean"),
            JsonError::StructuralUnderflow(_) => String::from_str("no container is open"),
            JsonError::UnsupportedHostShape(name) => String::from_str("unknown type ").concat(
                name.as_str(),
            ),
            JsonError::HostConversionFailure(number) => String::from_str(
                "no host number for ",
            ).concat(number.as_str()),
        }
    }
}

impl Failure {
    /// Where in the text decoding failed, if it was decoding that failed.
    pub open spec fn offset(self) -> Option<int> {
        match self {
            Failure::MalformedNumber(offset) => Some(offset),
            Failure::MalformedBoolean(offset) => Some(offset),
            Failure::StructuralUnderflow(offset) => Some(offset),
            Failure::UnsupportedHostShape(_) => None,
            Failure::HostConversionFailure(_) => None,
        }
    }

    /// A sentence that says what went wrong.
    pub open spec fn message(self) -> Seq<char> {
        match self {
            Failure::MalformedNumber(_) => "malformed number"@,
            Failure::MalformedBoolean(_) => "malformed boolean"@,
            Failure::StructuralUnderflow(_) => "no container is open"@,
            Failure::UnsupportedHostShape(name) => "unknown type "@ + name,
            Failure::HostConversionFailure(number) => "no host number for "@ + number,
        }
    }
}

} // verus!
