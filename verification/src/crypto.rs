//! Trusted bindings to the cryptographic and encoding crates.
//!
//! Each wrapper makes one outside call; what the call returns is either
//! stated directly or given a name by an uninterpreted spec function, so
//! that verified callers can speak of it exactly.
use crate::Error;
use blake2::digest::Input;
use blake2::digest::VariableOutput;
use rand::RngCore;
use vstd::prelude::*;
use vstd::string::StringSliceAdditionalSpecFns;

verus! {

/// The 32-byte BLAKE2b digest of a byte string.
pub uninterp spec fn blake2b256_of(bytes: Seq<u8>) -> Seq<u8>;

/// The Ed25519 public key derived (with the BLAKE2b-512 digest) from a
/// 32-byte secret key.
pub uninterp spec fn ed25519_public_of(secret: Seq<u8>) -> Seq<u8>;

/// The Ed25519 signature (with the BLAKE2b-512 digest) of a message under a
/// 32-byte secret key.
pub uninterp spec fn ed25519_sig_of(secret: Seq<u8>, msg: Seq<u8>) -> Seq<u8>;

/// Whether Ed25519 verification (with the BLAKE2b-512 digest) accepts
/// `sig` as a signature of `msg` under the public key bytes `pubkey`.
/// False whenever `pubkey` or `sig` do not decode as a key or a signature.
pub uninterp spec fn ed25519_verifies(pubkey: Seq<u8>, msg: Seq<u8>, sig: Seq<u8>) -> bool;

/// The URL-safe base64 rendering (with padding) of a byte string.
pub uninterp spec fn base64url_of(bytes: Seq<u8>) -> Seq<char>;

/// The bytes that URL-safe base64 text decodes to, or `None` when the text
/// is not valid base64.
pub uninterp spec fn base64url_decode_of(text: Seq<u8>) -> Option<Seq<u8>>;

/// Relies on blake2::VarBlake2b with a 32-byte output size: the digest is a
/// function of the input bytes alone and is always 32 bytes long.
#[verifier::external_body]
pub(crate) fn blake2b256(bytes: &[u8]) -> (r: Vec<u8>)
    ensures
        r@ == blake2b256_of(bytes@),
        r@.len() == 32,
{
    let mut hasher = blake2::VarBlake2b::new(32).unwrap();
    hasher.input(bytes);
    hasher.vec_result()
}

/// Relies on ed25519_dalek::PublicKey::from_secret::<Blake2b>: the public
/// key is derived deterministically from the secret key bytes and is always
/// 32 bytes long. SecretKey::from_bytes accepts exactly 32-byte inputs.
#[verifier::external_body]
pub(crate) fn ed25519_derive_public(secret: &[u8]) -> (r: Vec<u8>)
    requires
        secret@.len() == 32,
    ensures
        r@ == ed25519_public_of(secret@),
        r@.len() == 32,
{
    let sk = ed25519_dalek::SecretKey::from_bytes(secret).unwrap();
    let pk = ed25519_dalek::PublicKey::from_secret::<blake2::Blake2b>(&sk);
    pk.as_bytes().to_vec()
}

/// Relies on ed25519_dalek::Keypair::sign::<Blake2b>: signing is a
/// deterministic function of the secret key and the message, the signature
/// is 64 bytes, and it verifies under the public key derived from the same
/// secret key with the same digest.
#[verifier::external_body]
pub(crate) fn ed25519_sign(secret: &[u8], msg: &[u8]) -> (r: Vec<u8>)
    requires
        secret@.len() == 32,
    ensures
        r@ == ed25519_sig_of(secret@, msg@),
        r@.len() == 64,
        ed25519_verifies(ed25519_public_of(secret@), msg@, r@),
{
    let sk = ed25519_dalek::SecretKey::from_bytes(secret).unwrap();
    let pk = ed25519_dalek::PublicKey::from_secret::<blake2::Blake2b>(&sk);
    let keypair = ed25519_dalek::Keypair { secret: sk, public: pk };
    keypair.sign::<blake2::Blake2b>(msg).to_bytes().to_vec()
}

/// Relies on ed25519_dalek::PublicKey::verify::<Blake2b>: acceptance is a
/// deterministic function of the key bytes, the message and the signature
/// bytes; a key or signature that does not decode accepts nothing.
#[verifier::external_body]
pub(crate) fn ed25519_check(pubkey: &[u8], msg: &[u8], sig: &[u8]) -> (r: bool)
    ensures
        r == ed25519_verifies(pubkey@, msg@, sig@),
{
    match ed25519_dalek::PublicKey::from_bytes(pubkey) {
        Ok(pk) => match ed25519_dalek::Signature::from_bytes(sig) {
            Ok(s) => pk.verify::<blake2::Blake2b>(msg, &s).is_ok(),
            Err(_) => false,
        },
        Err(_) => false,
    }
}

/// Relies on rand::rngs::OsRng: fails only when the operating system's
/// secure randomness source cannot be opened; otherwise fills 32 bytes.
/// Nothing is assumed about the drawn bytes.
#[verifier::external_body]
pub(crate) fn random_secret() -> (r: Result<Vec<u8>, Error>)
    ensures
        r matches Ok(v) ==> v@.len() == 32,
        r matches Err(e) ==> e == Error::RandomnessUnavailable,
{
    let mut rng = match rand::rngs::OsRng::new() {
        Ok(rng) => rng,
        Err(_) => return Err(Error::RandomnessUnavailable),
    };
    let mut buf = vec![0u8; 32];
    rng.fill_bytes(&mut buf);
    Ok(buf)
}

/// Relies on base64::encode_config with base64::URL_SAFE: the rendering is
/// a function of the input bytes alone.
#[verifier::external_body]
pub(crate) fn base64url_encode(bytes: &[u8]) -> (r: String)
    ensures
        r@ == base64url_of(bytes@),
{
    base64::encode_config(bytes, base64::URL_SAFE)
}

/// Relies on base64::decode_config with base64::URL_SAFE: decoding is a
/// function of the input bytes alone, and fails exactly on text that is not
/// valid base64.
#[verifier::external_body]
pub(crate) fn base64url_decode(text: &[u8]) -> (r: Option<Vec<u8>>)
    ensures
        match r {
            Some(v) => base64url_decode_of(text@) == Some(v@),
            None => base64url_decode_of(text@) is None,
        },
{
    base64::decode_config(text, base64::URL_SAFE).ok()
}

/// Relies on String::from_utf8: succeeds exactly on valid UTF-8 and returns
/// a string holding the given bytes.
#[verifier::external_body]
pub(crate) fn bytes_to_string(bytes: &[u8]) -> (r: Option<String>)
    ensures
        match r {
            Some(s) => vstd::utf8::encode_utf8(s@) =~= bytes@,
            None => !vstd::utf8::valid_utf8(bytes@),
        },
{
    String::from_utf8(bytes.to_vec()).ok()
}

} // verus!
