use crev_data::content::Content;
use crev_data::envelope::{default_digest_type, default_revision_type, Proof, ProofType, Serialized};
use crev_data::id::OwnId;
use crev_data::Error;

const URL: &str = "https://example.org/alice";

fn signed_envelope(own: &OwnId, kind: ProofType, extra: &str) -> Vec<u8> {
    let body = format!(
        "from: {}\nfrom-url: {}\n{}",
        own.pub_key_as_base64(),
        URL,
        extra
    );
    let sig = own.sign(body.as_bytes());
    let sig_text = base64::encode_config(&sig, base64::URL_SAFE);
    Serialized {
        body: body.into_bytes(),
        signature: format!("{}\n", sig_text).into_bytes(),
        type_: kind,
    }
    .to_bytes()
}

#[test]
fn full_pipeline_parses_and_verifies() {
    let own = OwnId::generate(URL.to_string()).unwrap();
    let input = signed_envelope(&own, ProofType::Trust, "trust: high\n");
    let proofs = Proof::parse(&input).unwrap();
    assert_eq!(proofs.len(), 1);
    let p = &proofs[0];
    assert_eq!(p.content.proof_type(), ProofType::Trust);
    assert_eq!(p.content.author_id().id, own.id().id);
    assert_eq!(p.content.author_id().url, URL);
    assert_eq!(p.digest.len(), 32);
    assert_ne!(p.digest, p.body);
    assert_eq!(p.verify(), Ok(()));
}

#[test]
fn content_kind_follows_the_envelope() {
    let own = OwnId::generate(URL.to_string()).unwrap();
    for kind in [ProofType::Code, ProofType::Package, ProofType::Trust] {
        let input = signed_envelope(&own, kind, "note: x\n");
        let proofs = Proof::parse(&input).unwrap();
        assert_eq!(proofs[0].content.proof_type(), kind);
    }
}

#[test]
fn two_blocks_parse_and_verify_in_order() {
    let own = OwnId::generate(URL.to_string()).unwrap();
    let mut input = signed_envelope(&own, ProofType::Trust, "t: 1\n");
    input.extend_from_slice(&signed_envelope(&own, ProofType::Code, "c: 2\n"));
    let proofs = Proof::parse(&input).unwrap();
    assert_eq!(proofs.len(), 2);
    assert_eq!(proofs[0].content.proof_type(), ProofType::Trust);
    assert_eq!(proofs[1].content.proof_type(), ProofType::Code);
    assert_eq!(proofs[0].verify(), Ok(()));
    assert_eq!(proofs[1].verify(), Ok(()));
}

#[test]
fn body_without_author_is_invalid_content() {
    let input = Serialized {
        body: b"date: today\n".to_vec(),
        signature: b"c2ln\n".to_vec(),
        type_: ProofType::Trust,
    }
    .to_bytes();
    assert_eq!(Proof::parse(&input), Err(Error::InvalidContent));
}

#[test]
fn bad_author_base64_is_invalid_content() {
    let input = Serialized {
        body: format!("from: !!!\nfrom-url: {}\n", URL).into_bytes(),
        signature: b"c2ln\n".to_vec(),
        type_: ProofType::Trust,
    }
    .to_bytes();
    assert_eq!(Proof::parse(&input), Err(Error::InvalidContent));
}

#[test]
fn one_bad_block_discards_the_whole_stream() {
    let own = OwnId::generate(URL.to_string()).unwrap();
    let mut input = signed_envelope(&own, ProofType::Trust, "t: 1\n");
    input.extend_from_slice(
        &Serialized {
            body: b"no author here\n".to_vec(),
            signature: b"c2ln\n".to_vec(),
            type_: ProofType::Code,
        }
        .to_bytes(),
    );
    assert_eq!(Proof::parse(&input), Err(Error::InvalidContent));
}

#[test]
fn verification_uses_raw_body_bytes() {
    let own = OwnId::generate(URL.to_string()).unwrap();
    let body = format!("from: {}\nfrom-url: {}\nnote: x\n", own.pub_key_as_base64(), URL);
    // The same content with one line whitespace-normalized differently.
    let body_ws = format!("from: {}\nfrom-url: {}\nnote: x \n", own.pub_key_as_base64(), URL);
    let sig = own.sign(body.as_bytes());
    let sig_text = base64::encode_config(&sig, base64::URL_SAFE).into_bytes();
    let signed = Proof {
        body: body.clone().into_bytes(),
        signature: sig_text.clone(),
        digest: Vec::new(),
        content: Content::parse(ProofType::Trust, body.as_bytes()).unwrap(),
    };
    let renormalized = Proof {
        body: body_ws.clone().into_bytes(),
        signature: sig_text,
        digest: Vec::new(),
        content: Content::parse(ProofType::Trust, body_ws.as_bytes()).unwrap(),
    };
    assert_eq!(signed.verify(), Ok(()));
    assert_eq!(renormalized.verify(), Err(Error::SignatureInvalid));
}

#[test]
fn tampered_body_fails_verification() {
    let own = OwnId::generate(URL.to_string()).unwrap();
    let input = signed_envelope(&own, ProofType::Trust, "trust: high\n");
    let mut proofs = Proof::parse(&input).unwrap();
    let last = proofs[0].body.len() - 1;
    proofs[0].body[last] = b'!';
    assert_eq!(proofs[0].verify(), Err(Error::SignatureInvalid));
}

#[test]
fn proof_signature_is_trimmed() {
    let own = OwnId::generate(URL.to_string()).unwrap();
    let input = signed_envelope(&own, ProofType::Trust, "t: 1\n");
    let proofs = Proof::parse(&input).unwrap();
    let sig = proofs[0].signature();
    assert!(!sig.is_empty());
    assert_ne!(sig.last(), Some(&b'\n'));
    assert!(proofs[0].signature.ends_with(b"\n"));
}

#[test]
fn proof_to_bytes_reparses() {
    let own = OwnId::generate(URL.to_string()).unwrap();
    let input = signed_envelope(&own, ProofType::Package, "p: 1\n");
    let proofs = Proof::parse(&input).unwrap();
    let again = Proof::parse(&proofs[0].to_bytes()).unwrap();
    assert_eq!(again.len(), 1);
    assert_eq!(again[0].body, proofs[0].body);
    assert_eq!(again[0].signature, proofs[0].signature);
    assert_eq!(again[0].verify(), Ok(()));
}

#[test]
fn digest_depends_on_body() {
    let own = OwnId::generate(URL.to_string()).unwrap();
    let one = Proof::parse(&signed_envelope(&own, ProofType::Trust, "t: 1\n")).unwrap();
    let two = Proof::parse(&signed_envelope(&own, ProofType::Trust, "t: 2\n")).unwrap();
    assert_ne!(one[0].digest, two[0].digest);
    assert_eq!(one[0].digest.len(), 32);
}

#[test]
fn non_utf8_author_url_is_invalid_content() {
    let own = OwnId::generate(URL.to_string()).unwrap();
    let mut body = format!("from: {}\nfrom-url: ", own.pub_key_as_base64()).into_bytes();
    body.extend_from_slice(&[0xff, 0xfe, b'\n']);
    assert!(matches!(
        Content::parse(ProofType::Trust, &body),
        Err(Error::InvalidContent)
    ));
}

#[test]
fn default_type_names() {
    assert_eq!(default_digest_type(), "blake2b");
    assert_eq!(default_revision_type(), "git");
}
