//! Error kinds of the signing engine and of its public boundary.

use vstd::prelude::*;

verus! {

/// Every failure the engine can report while editing or signing a binary.
#[derive(Debug, Clone, PartialEq, Eq, Structural)]
pub enum SignError {
    /// Bad caller-supplied options, paths, or a key/passphrase mismatch.
    InvalidInput,
    /// The byte buffer is not a parseable Mach-O or fat structure.
    MalformedBinary,
    /// Edited content can no longer be laid out within the declared regions.
    LayoutOverflow,
    /// The CodeDirectory identifier exceeds the format's embedded-string limit.
    IdentifierTooLong,
    /// The binary already carries a signature and `force` was not set.
    AlreadySigned,
    /// The cryptographic or structural signing step failed.
    SigningFailed,
    /// Verification was requested on an artifact that carries no signature.
    NotSigned,
    /// An unexpected internal fault, carrying its raw code.
    Unknown(i32),
}

/// Error surfaced across the public signing boundary.
#[derive(Debug, Clone, PartialEq, Eq, Structural)]
pub enum ZSignError {
    /// Invalid input parameters.
    InvalidInput,
    /// Signing operation failed.
    SigningFailed,
    /// File is not signed.
    NotSigned,
    /// Unknown error with its code.
    Unknown(i32),
}

/// How an engine error folds onto the public boundary: caller-configuration
/// faults stay `InvalidInput`, a missing signature stays `NotSigned`,
/// an unexpected code is passed through, and every structural or
/// cryptographic failure is reported as `SigningFailed`.
pub open spec fn boundary_of(e: SignError) -> ZSignError {
    match e {
        SignError::InvalidInput => ZSignError::InvalidInput,
        SignError::NotSigned => ZSignError::NotSigned,
        SignError::Unknown(code) => ZSignError::Unknown(code),
        _ => ZSignError::SigningFailed,
    }
}

impl SignError {
    /// Maps an engine error to the error exposed at the public boundary.
    pub fn to_boundary(&self) -> (r: ZSignError)
        ensures
            r == boundary_of(*self),
    {
        match self {
            SignError::InvalidInput => ZSignError::InvalidInput,
            SignError::NotSigned => ZSignError::NotSigned,
            SignError::Unknown(code) => ZSignError::Unknown(*code),
            _ => ZSignError::SigningFailed,
        }
    }
}

impl ZSignError {
    /// A short human-readable description of the error.
    pub fn message(&self) -> (r: &'static str)
        ensures
            *self is InvalidInput ==> r@ == "Invalid input parameters"@,
            *self is SigningFailed ==> r@ == "Signing operation failed"@,
            *self is NotSigned ==> r@ == "File is not signed"@,
            *self is Unknown ==> r@ == "Unknown error"@,
    {
        match self {
            ZSignError::InvalidInput => "Invalid input parameters",
            ZSignError::SigningFailed => "Signing operation failed",
            ZSignError::NotSigned => "File is not signed",
            ZSignError::Unknown(_) => "Unknown error",
        }
    }
}

} // verus!
