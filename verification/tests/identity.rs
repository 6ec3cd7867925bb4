use crev_data::id::{IdType, OwnId, PubId};
use crev_data::Error;

fn secret() -> Vec<u8> {
    (0u8..32).collect()
}

#[test]
fn new_accepts_exactly_32_byte_secrets() {
    assert!(OwnId::new("https://example.org/a".to_string(), secret()).is_ok());
    assert_eq!(
        OwnId::new("https://example.org/a".to_string(), vec![1u8; 31]).unwrap_err(),
        Error::InvalidKeyMaterial
    );
    assert_eq!(
        OwnId::new("https://example.org/a".to_string(), vec![1u8; 33]).unwrap_err(),
        Error::InvalidKeyMaterial
    );
    assert_eq!(
        OwnId::new("https://example.org/a".to_string(), Vec::new()).unwrap_err(),
        Error::InvalidKeyMaterial
    );
}

#[test]
fn public_key_derivation_is_deterministic() {
    let a = OwnId::new("https://example.org/a".to_string(), secret()).unwrap();
    let b = OwnId::new("https://example.org/a".to_string(), secret()).unwrap();
    assert_eq!(a.id().id, b.id().id);
    assert_eq!(a.pub_key_as_base64(), b.pub_key_as_base64());
}

#[test]
fn public_key_differs_from_secret() {
    let own = OwnId::new("https://example.org/a".to_string(), secret()).unwrap();
    assert_eq!(own.id().id.len(), 32);
    assert_ne!(own.id().id, secret());
}

#[test]
fn distinct_secrets_give_distinct_keys() {
    let a = OwnId::new("u".to_string(), vec![7u8; 32]).unwrap();
    let b = OwnId::new("u".to_string(), vec![8u8; 32]).unwrap();
    assert_ne!(a.id().id, b.id().id);
}

#[test]
fn generate_yields_working_identity() {
    let a = OwnId::generate("https://example.org/g".to_string()).unwrap();
    let b = OwnId::generate("https://example.org/g".to_string()).unwrap();
    assert_eq!(a.id().id.len(), 32);
    assert_ne!(a.id().id, b.id().id);
    assert_eq!(a.id().url, "https://example.org/g");
}

#[test]
fn sign_then_verify_succeeds() {
    let own = OwnId::generate("https://example.org/s".to_string()).unwrap();
    let msg = b"exact bytes to be signed\n";
    let sig = own.sign(msg);
    assert_eq!(sig.len(), 64);
    let text = base64::encode_config(&sig, base64::URL_SAFE);
    assert_eq!(own.id().verify_signature(msg, text.as_bytes()), Ok(()));
}

#[test]
fn signing_is_deterministic() {
    let own = OwnId::new("u".to_string(), secret()).unwrap();
    assert_eq!(own.sign(b"m"), own.sign(b"m"));
}

#[test]
fn flipped_message_bit_fails_verification() {
    let own = OwnId::generate("https://example.org/s".to_string()).unwrap();
    let msg = b"exact bytes to be signed\n".to_vec();
    let sig = own.sign(&msg);
    let text = base64::encode_config(&sig, base64::URL_SAFE);
    let mut tampered = msg.clone();
    tampered[0] ^= 1;
    assert_eq!(
        own.id().verify_signature(&tampered, text.as_bytes()),
        Err(Error::SignatureInvalid)
    );
}

#[test]
fn flipped_signature_bit_fails_verification() {
    let own = OwnId::generate("https://example.org/s".to_string()).unwrap();
    let msg = b"exact bytes to be signed\n";
    let mut sig = own.sign(msg);
    sig[3] ^= 1;
    let text = base64::encode_config(&sig, base64::URL_SAFE);
    assert_ne!(own.id().verify_signature(msg, text.as_bytes()), Ok(()));
}

#[test]
fn undecodable_signature_text_is_malformed() {
    let own = OwnId::generate("https://example.org/s".to_string()).unwrap();
    assert_eq!(
        own.id().verify_signature(b"m", b"!!! not base64 !!!"),
        Err(Error::SignatureMalformed)
    );
}

#[test]
fn decodable_but_wrong_signature_is_invalid() {
    let own = OwnId::generate("https://example.org/s".to_string()).unwrap();
    // "AAAA" decodes to three zero bytes: decoding succeeds, the check fails.
    assert_eq!(
        own.id().verify_signature(b"m", b"AAAA"),
        Err(Error::SignatureInvalid)
    );
}

#[test]
fn signature_text_whitespace_is_ignored() {
    let own = OwnId::generate("https://example.org/s".to_string()).unwrap();
    let msg = b"payload\n";
    let sig = own.sign(msg);
    let text = format!("  {}\n", base64::encode_config(&sig, base64::URL_SAFE));
    assert_eq!(own.id().verify_signature(msg, text.as_bytes()), Ok(()));
}

#[test]
fn base64_fingerprint_shape() {
    let own = OwnId::new("u".to_string(), secret()).unwrap();
    let fp = own.pub_key_as_base64();
    // 32 bytes render as 44 base64 characters including padding.
    assert_eq!(fp.len(), 44);
    assert_eq!(base64::decode_config(&fp, base64::URL_SAFE).unwrap(), own.id().id);
}

#[test]
fn type_name_is_crev() {
    let own = OwnId::new("u".to_string(), secret()).unwrap();
    assert_eq!(own.type_as_string(), "crev");
    assert!(matches!(own.id().type_, IdType::Crev));
}

#[test]
fn pub_id_new_keeps_fields() {
    let p = PubId::new("https://example.org/p".to_string(), vec![9u8; 32]);
    assert_eq!(p.url, "https://example.org/p");
    assert_eq!(p.id, vec![9u8; 32]);
    assert!(matches!(p.type_, IdType::Crev));
}
