//! The failure kinds of the translation core.

use vstd::prelude::*;

verus! {

/// Mathematical model of a translation failure.
#[verifier::ext_equal]
pub enum ErrorV {
    /// A node alias was not found in the lookup table.
    UnknownAlias { alias: Seq<char> },
    /// A segment payload cannot be decoded as its declared type, or a
    /// required paired segment (a `Tcp` after an address) is missing.
    MalformedSegment,
    /// A protocol code that the route builder or the multiaddr parser does
    /// not handle, carried for diagnostics.
    UnsupportedProtocol { code: Seq<char> },
    /// A hop transport tag that the reverse translator does not handle,
    /// carried for diagnostics.
    UnsupportedTransport { code: u8 },
    /// A node segment reached the route builder: the caller skipped alias
    /// resolution.
    InvariantViolation,
}

/// A structured translation failure; no partial output accompanies one.
#[derive(Debug, PartialEq)]
pub enum Error {
    UnknownAlias { alias: String },
    MalformedSegment,
    UnsupportedProtocol { code: String },
    UnsupportedTransport { code: u8 },
    InvariantViolation,
}

impl View for Error {
    type V = ErrorV;

    open spec fn view(&self) -> ErrorV {
        match self {
            Error::UnknownAlias { alias } => ErrorV::UnknownAlias { alias: alias@ },
            Error::MalformedSegment => ErrorV::MalformedSegment,
            Error::UnsupportedProtocol { code } => ErrorV::UnsupportedProtocol { code: code@ },
            Error::UnsupportedTransport { code } => ErrorV::UnsupportedTransport { code: *code },
            Error::InvariantViolation => ErrorV::InvariantViolation,
        }
    }
}

/// The view of a result whose both sides have views.
pub open spec fn rview<T: View, E: View>(r: Result<T, E>) -> Result<T::V, E::V> {
    match r {
        Ok(t) => Ok(t@),
        Err(e) => Err(e@),
    }
}

/// The view of an optional value.
pub open spec fn oview<T: View>(o: Option<T>) -> Option<T::V> {
    match o {
        Some(t) => Some(t@),
        None => None,
    }
}

} // verus!
