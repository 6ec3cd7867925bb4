use crev_data::envelope::{ProofType, Serialized};
use crev_data::Error;

const TRUST_BEGIN: &str = "-----BEGIN CREV TRUST-----";
const TRUST_SIG: &str = "-----BEGIN CREV TRUST SIGNATURE-----";
const TRUST_END: &str = "-----END CREV TRUST-----";
const CODE_BEGIN: &str = "-----BEGIN CODE REVIEW-----";
const CODE_SIG: &str = "-----BEGIN CODE REVIEW SIGNATURE-----";
const CODE_END: &str = "-----END CODE REVIEW-----";

fn trust_envelope(body: &str, sig: &str) -> Vec<u8> {
    format!("{}\n{}{}\n{}{}\n", TRUST_BEGIN, body, TRUST_SIG, sig, TRUST_END).into_bytes()
}

#[test]
fn parses_single_trust_block() {
    let input = trust_envelope("date: 2018-12-27\nfrom: abc\n", "c2ln\n");
    let parsed = Serialized::parse(&input).unwrap();
    assert_eq!(parsed.len(), 1);
    assert_eq!(parsed[0].body, b"date: 2018-12-27\nfrom: abc\n".to_vec());
    assert_eq!(parsed[0].signature, b"c2ln\n".to_vec());
    assert_eq!(parsed[0].type_, ProofType::Trust);
}

#[test]
fn round_trip_is_byte_exact() {
    let original = Serialized {
        body: b"foo: 1\nbar:  two  \n".to_vec(),
        signature: b"c2lnbmF0dXJl\n".to_vec(),
        type_: ProofType::Trust,
    };
    let text = original.to_bytes();
    let parsed = Serialized::parse(&text).unwrap();
    assert_eq!(parsed.len(), 1);
    assert_eq!(parsed[0].body, original.body);
    assert_eq!(parsed[0].signature, original.signature);
    assert_eq!(parsed[0].type_, original.type_);
}

#[test]
fn round_trip_of_package_and_code_kinds() {
    for kind in [ProofType::Code, ProofType::Package] {
        let original = Serialized {
            body: b"project: x\n".to_vec(),
            signature: b"QUJD\n".to_vec(),
            type_: kind,
        };
        let parsed = Serialized::parse(&original.to_bytes()).unwrap();
        assert_eq!(parsed.len(), 1);
        assert_eq!(parsed[0].type_, kind);
        assert_eq!(parsed[0].body, original.body);
        assert_eq!(parsed[0].signature, original.signature);
    }
}

#[test]
fn multi_block_stream_in_order() {
    let mut input = trust_envelope("a: 1\n", "c2ln\n");
    input.extend_from_slice(
        format!("{}\nb: 2\n{}\nQUJD\n{}\n", CODE_BEGIN, CODE_SIG, CODE_END).as_bytes(),
    );
    let parsed = Serialized::parse(&input).unwrap();
    assert_eq!(parsed.len(), 2);
    assert_eq!(parsed[0].type_, ProofType::Trust);
    assert_eq!(parsed[0].body, b"a: 1\n".to_vec());
    assert_eq!(parsed[1].type_, ProofType::Code);
    assert_eq!(parsed[1].body, b"b: 2\n".to_vec());
}

#[test]
fn blank_lines_between_blocks_are_ignored() {
    let mut input = b"\n  \n".to_vec();
    input.extend_from_slice(&trust_envelope("a: 1\n", "c2ln\n"));
    input.extend_from_slice(b"\n\n");
    let parsed = Serialized::parse(&input).unwrap();
    assert_eq!(parsed.len(), 1);
}

#[test]
fn truncated_in_body_fails() {
    let input = format!("{}\npartial body\n", TRUST_BEGIN).into_bytes();
    assert_eq!(Serialized::parse(&input), Err(Error::UnexpectedEndOfInput));
}

#[test]
fn truncated_in_signature_fails() {
    let input = format!("{}\nbody\n{}\nc2ln\n", TRUST_BEGIN, TRUST_SIG).into_bytes();
    assert_eq!(Serialized::parse(&input), Err(Error::UnexpectedEndOfInput));
}

#[test]
fn empty_input_yields_no_blocks() {
    assert_eq!(Serialized::parse(b"").unwrap().len(), 0);
    assert_eq!(Serialized::parse(b"\n \n\t\n").unwrap().len(), 0);
}

#[test]
fn garbage_outside_block_is_malformed() {
    let input = b"not a marker\n".to_vec();
    assert_eq!(Serialized::parse(&input), Err(Error::MalformedEnvelope));
}

#[test]
fn markers_match_after_trimming_whitespace() {
    let input = format!(
        "  {}  \nkey:  value  with  spaces\t\n\t{} \nc2ln\n {}\t\n",
        TRUST_BEGIN, TRUST_SIG, TRUST_END
    )
    .into_bytes();
    let parsed = Serialized::parse(&input).unwrap();
    assert_eq!(parsed.len(), 1);
    // Content lines are kept verbatim, internal whitespace included.
    assert_eq!(parsed[0].body, b"key:  value  with  spaces\t\n".to_vec());
}

#[test]
fn body_at_limit_is_accepted() {
    let line = "a".repeat(31999);
    let input = trust_envelope(&format!("{}\n", line), "c2ln\n");
    let parsed = Serialized::parse(&input).unwrap();
    assert_eq!(parsed[0].body.len(), 32000);
}

#[test]
fn body_over_limit_fails() {
    let line = "a".repeat(32000);
    let input = trust_envelope(&format!("{}\n", line), "c2ln\n");
    assert_eq!(Serialized::parse(&input), Err(Error::BodyTooLarge));
}

#[test]
fn signature_at_limit_is_accepted() {
    let sig = "s".repeat(1999);
    let input = trust_envelope("a: 1\n", &format!("{}\n", sig));
    let parsed = Serialized::parse(&input).unwrap();
    assert_eq!(parsed[0].signature.len(), 2000);
}

#[test]
fn signature_over_limit_fails() {
    let sig = "s".repeat(2000);
    let input = trust_envelope("a: 1\n", &format!("{}\n", sig));
    assert_eq!(Serialized::parse(&input), Err(Error::SignatureTooLarge));
}

#[test]
fn empty_body_and_signature_round_trip() {
    let input = format!("{}\n{}\n{}\n", TRUST_BEGIN, TRUST_SIG, TRUST_END).into_bytes();
    let parsed = Serialized::parse(&input).unwrap();
    assert_eq!(parsed.len(), 1);
    assert_eq!(parsed[0].body, Vec::<u8>::new());
    assert_eq!(parsed[0].signature, Vec::<u8>::new());
    let again = Serialized::parse(&parsed[0].to_bytes()).unwrap();
    assert_eq!(again.len(), 1);
    assert_eq!(again[0].body, Vec::<u8>::new());
}

#[test]
fn other_kinds_markers_are_plain_body_content() {
    let body = format!("{}\n{}\n", CODE_BEGIN, CODE_END);
    let input = trust_envelope(&body, "c2ln\n");
    let parsed = Serialized::parse(&input).unwrap();
    assert_eq!(parsed.len(), 1);
    assert_eq!(parsed[0].type_, ProofType::Trust);
    assert_eq!(parsed[0].body, body.into_bytes());
}

#[test]
fn error_after_completed_blocks_discards_them() {
    let mut input = trust_envelope("a: 1\n", "c2ln\n");
    input.extend_from_slice(b"garbage line\n");
    assert_eq!(Serialized::parse(&input), Err(Error::MalformedEnvelope));
}

#[test]
fn marker_accessors_expose_the_marker_lines() {
    assert_eq!(ProofType::Trust.begin_block(), TRUST_BEGIN.as_bytes());
    assert_eq!(ProofType::Trust.begin_signature(), TRUST_SIG.as_bytes());
    assert_eq!(ProofType::Trust.end_block(), TRUST_END.as_bytes());
    assert_eq!(ProofType::Code.begin_block(), CODE_BEGIN.as_bytes());
    assert_eq!(
        ProofType::Package.begin_block(),
        "-----BEGIN PACKAGE REVIEW-----".as_bytes()
    );
}
