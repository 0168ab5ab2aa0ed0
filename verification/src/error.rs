//! The error kinds shared by every operation of the crate.

use vstd::prelude::*;
use vstd::string::StringExecFns;

verus! {

/// Why a cryptographic or parsing operation failed.
#[derive(Debug, PartialEq, Eq)]
pub enum Error {
    /// The private scalar is malformed or outside the range of the curve.
    InvalidSecret,
    /// The recovered point is malformed or not on the curve.
    InvalidPublic,
    /// The `(r, s)` pair or the recovery id is malformed.
    InvalidSignature,
    /// The digest is not a valid signing input.
    InvalidMessage,
    /// A parse or format failure, with a detail for the reader.
    Custom(String),
}

/// The failures that the curve library reports, by kind.
#[derive(Debug, Clone, Copy, PartialEq, Eq)]
pub enum CurveError {
    IncorrectSignature,
    InvalidMessage,
    InvalidPublicKey,
    InvalidSignature,
    InvalidSecretKey,
    InvalidSharedSecret,
    InvalidRecoveryId,
    InvalidTweak,
    NotEnoughMemory,
    InvalidPublicKeySum,
    InvalidParityValue,
    InvalidEllSwift,
}

/// Why a byte string is not the canonical encoding that was asked for.
#[derive(Debug, Clone, Copy, PartialEq, Eq)]
pub enum DecoderError {
    /// The input ends before the announced length, or a fixed-width field
    /// holds fewer bytes than its width.
    RlpIsTooShort,
    /// A field holds more bytes than its width.
    RlpIsTooBig,
    /// A list was expected and a byte string was found.
    RlpExpectedToBeList,
    /// A byte string was expected and a list was found.
    RlpExpectedToBeData,
    /// A longer form was used where a shorter one exists: a prefixed single
    /// byte below `0x80`, a long header for a short payload, or an integer
    /// with a leading zero byte.
    RlpInvalidIndirection,
    /// The bytes of a length start with a zero byte.
    RlpDataLenWithZeroPrefix,
    /// The list does not hold the expected number of items.
    RlpIncorrectListLen,
    /// Bytes are left after the end of the encoded value.
    RlpInconsistentLengthAndData,
}

impl Error {
    /// The detail that stands between the brackets of the rendered error.
    pub open spec fn detail(self) -> Seq<char> {
        match self {
            Error::InvalidSecret => "Invalid secret"@,
            Error::InvalidPublic => "Invalid public"@,
            Error::InvalidSignature => "Invalid EC signature"@,
            Error::InvalidMessage => "Invalid AES message"@,
            Error::Custom(s) => s@,
        }
    }

    /// The rendered error: the detail, framed.
    pub open spec fn rendered(self) -> Seq<char> {
        "Crypto error ("@ + self.detail() + ")"@
    }

    /// Renders the error for a human reader.
    pub fn to_string(&self) -> (text: String)
        ensures
            text@ == self.rendered(),
    {
        let mut text = String::from_str("Crypto error (");
        match self {
            Error::InvalidSecret => text.append("Invalid secret"),
            Error::InvalidPublic => text.append("Invalid public"),
            Error::InvalidSignature => text.append("Invalid EC signature"),
            Error::InvalidMessage => text.append("Invalid AES message"),
            Error::Custom(s) => text.append(s.as_str()),
        }
        text.append(")");
        text
    }

    /// The error kind of this crate for a failure of the curve library:
    /// a bad message, public key or secret key keeps its kind, every other
    /// failure counts as a bad signature.
    pub open spec fn of_curve(e: CurveError) -> Error {
        match e {
            CurveError::InvalidMessage => Error::InvalidMessage,
            CurveError::InvalidPublicKey => Error::InvalidPublic,
            CurveError::InvalidSecretKey => Error::InvalidSecret,
            _ => Error::InvalidSignature,
        }
    }
}

impl From<CurveError> for Error {
    fn from(e: CurveError) -> (r: Error)
    {
        match e {
            CurveError::InvalidMessage => Error::InvalidMessage,
            CurveError::InvalidPublicKey => Error::InvalidPublic,
            CurveError::InvalidSecretKey => Error::InvalidSecret,
            _ => Error::InvalidSignature,
        }
    }
}

impl vstd::std_specs::convert::FromSpecImpl<CurveError> for Error {
    open spec fn obeys_from_spec() -> bool {
        true
    }

    open spec fn from_spec(e: CurveError) -> Error {
        Error::of_curve(e)
    }
}

} // verus!
