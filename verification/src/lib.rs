pub mod content;
pub mod crypto;
pub mod envelope;
pub mod id;
pub mod text;

use vstd::prelude::*;

verus! {

/// Every failure the library can report, from key handling through
/// envelope parsing to signature verification.
#[derive(Clone, Copy, Debug, PartialEq, Eq, Structural)]
pub enum Error {
    /// Secret key bytes have the wrong length or format.
    InvalidKeyMaterial,
    /// The secure randomness source could not be initialised.
    RandomnessUnavailable,
    /// A line appeared where a block marker was required.
    MalformedEnvelope,
    /// A proof body grew past the allowed maximum.
    BodyTooLarge,
    /// A signature section grew past the allowed maximum.
    SignatureTooLarge,
    /// The input ended in the middle of an envelope block.
    UnexpectedEndOfInput,
    /// A proof body failed to parse as content of its declared kind.
    InvalidContent,
    /// The signature text could not be decoded at all.
    SignatureMalformed,
    /// The signature decoded but the cryptographic check failed.
    SignatureInvalid,
}

} // verus!
