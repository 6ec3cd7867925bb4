//! Identities: a shareable public identity and an exclusively owned
//! secret-key identity that can sign byte strings.
use crate::crypto;
use crate::Error;
use vstd::prelude::*;

verus! {

/// The kind of identity; only the `Crev` kind exists.
#[derive(Clone, Copy, Debug, PartialEq, Eq, Structural)]
pub enum IdType {
    Crev,
}

/// Public identity of someone: a locator URL and raw public-key bytes.
#[derive(Debug, PartialEq, Eq)]
pub struct PubId {
    pub url: String,
    pub type_: IdType,
    pub id: Vec<u8>,
}

impl PubId {
    /// Wrap raw public-key bytes and their owner's URL as a `Crev` identity.
    pub fn new(url: String, id: Vec<u8>) -> (r: Self)
        ensures
            r.url == url,
            r.id == id,
            r.type_ is Crev,
    {
        Self { url, id, type_: IdType::Crev }
    }

    /// Check `sig_text` (base64, surrounding whitespace ignored) as an
    /// Ed25519 signature of `content` under this identity's public key.
    pub fn verify_signature(&self, content: &[u8], sig_text: &[u8]) -> (r: Result<(), Error>)
        ensures
            r == (match crypto::base64url_decode_of(crate::text::trim_spec(sig_text@)) {
                Some(d) => if crypto::ed25519_verifies(self.id@, content@, d) {
                    Ok::<(), Error>(())
                } else {
                    Err::<(), Error>(Error::SignatureInvalid)
                },
                None => Err::<(), Error>(Error::SignatureMalformed),
            }),
    {
        let trimmed = crate::text::trim_bytes(sig_text);
        match crypto::base64url_decode(trimmed) {
            None => Err(Error::SignatureMalformed),
            Some(sig) => {
                if crypto::ed25519_check(self.id.as_slice(), content, sig.as_slice()) {
                    Ok(())
                } else {
                    Err(Error::SignatureInvalid)
                }
            },
        }
    }
}

/// An identity together with its secret key. The secret bytes never leave
/// this owner; only signatures and the public identity are handed out.
#[derive(Debug)]
pub struct OwnId {
    id: PubId,
    secret: Vec<u8>,
}

impl OwnId {
    /// The secret-key bytes, visible only to specifications.
    pub closed spec fn secret_key(&self) -> Seq<u8> {
        self.secret@
    }

    /// The public identity, visible to specifications.
    pub closed spec fn pub_id(&self) -> PubId {
        self.id
    }

    /// What every constructed `OwnId` satisfies: a 32-byte secret key whose
    /// derived public key is the one the public identity carries.
    #[verifier::type_invariant]
    pub closed spec fn wf(self) -> bool {
        &&& self.secret@.len() == 32
        &&& self.id.id@ == crypto::ed25519_public_of(self.secret@)
        &&& self.id.type_ is Crev
    }

    /// Law: public-key derivation is deterministic; identities built from
    /// the same secret bytes carry the same public key.
    pub proof fn lemma_key_derivation_deterministic(a: &OwnId, b: &OwnId)
        requires
            a.wf(),
            b.wf(),
            a.secret_key() == b.secret_key(),
        ensures
            a.pub_id().id@ == b.pub_id().id@,
    {
    }

    /// Rebuild an identity from its secret-key bytes; the public key is
    /// derived deterministically from them. Fails exactly when the secret
    /// is not 32 bytes long.
    pub fn new(url: String, sec_key: Vec<u8>) -> (r: Result<Self, Error>)
        ensures
            r is Ok <==> sec_key@.len() == 32,
            r matches Ok(o) ==> {
                &&& o.secret_key() == sec_key@
                &&& o.pub_id().id@ == crypto::ed25519_public_of(sec_key@)
                &&& o.pub_id().url == url
                &&& o.pub_id().type_ is Crev
            },
            r matches Err(e) ==> e == Error::InvalidKeyMaterial,
    {
        if sec_key.len() != 32 {
            return Err(Error::InvalidKeyMaterial);
        }
        let pub_key = crypto::ed25519_derive_public(sec_key.as_slice());
        Ok(Self { id: PubId::new(url, pub_key), secret: sec_key })
    }

    /// Draw a fresh 32-byte secret key from the system's secure randomness
    /// and build the identity it derives. Fails only when the randomness
    /// source is unavailable.
    pub fn generate(url: String) -> (r: Result<Self, Error>)
        ensures
            r matches Ok(o) ==> {
                &&& o.pub_id().id@ == crypto::ed25519_public_of(o.secret_key())
                &&& o.pub_id().url == url
                &&& o.pub_id().type_ is Crev
            },
            r matches Err(e) ==> e == Error::RandomnessUnavailable,
    {
        match crypto::random_secret() {
            Err(e) => Err(e),
            Ok(sec_key) => {
                let pub_key = crypto::ed25519_derive_public(sec_key.as_slice());
                Ok(Self { id: PubId::new(url, pub_key), secret: sec_key })
            },
        }
    }

    /// The public identity.
    pub fn id(&self) -> (r: &PubId)
        ensures
            r == self.pub_id(),
    {
        &self.id
    }

    /// Sign a message with the secret key. The signature is deterministic
    /// and verifies under this identity's public key.
    pub fn sign(&self, msg: &[u8]) -> (r: Vec<u8>)
        ensures
            r@ == crypto::ed25519_sig_of(self.secret_key(), msg@),
            r@.len() == 64,
            crypto::ed25519_verifies(self.pub_id().id@, msg@, r@),
    {
        proof {
            use_type_invariant(self);
        }
        crypto::ed25519_sign(self.secret.as_slice(), msg)
    }

    /// The textual name of this identity's kind.
    pub fn type_as_string(&self) -> (r: String)
        ensures
            r@ == "crev"@,
    {
        "crev".to_owned()
    }

    /// The public key as URL-safe base64, the human-visible fingerprint.
    pub fn pub_key_as_base64(&self) -> (r: String)
        ensures
            r@ == crypto::base64url_of(self.pub_id().id@),
    {
        crypto::base64url_encode(self.id.id.as_slice())
    }
}

} // verus!
