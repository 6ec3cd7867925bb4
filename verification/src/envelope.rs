//! The signed-proof envelope codec: a line-oriented state machine that
//! extracts `(body, signature, kind)` triplets from a byte stream, and the
//! inverse serializer. The body and signature bytes are kept exactly as they
//! appear between the markers: the signature was computed over those bytes.
use crate::content::{author_of_body, spec_content_author, Content};
use crate::crypto;
use crate::text::{
    bytes_eq, is_ws, lemma_lines_feed_line, lemma_trim_noop, lemma_unlines_feed,
    lemma_unlines_terminated, spec_lines, split_lines, trim_bytes, trim_spec, unlines, NEWLINE,
};
use crate::Error;
use vstd::prelude::*;
use vstd::string::StringSliceAdditionalSpecFns;

verus! {

/// Largest allowed proof body, in bytes.
pub const MAX_PROOF_BODY_LENGTH: usize = 32000;

/// Largest allowed signature section, in bytes.
pub const MAX_SIGNATURE_LENGTH: usize = 2000;

/// The three kinds of proof an envelope can carry.
#[derive(Clone, Copy, Debug, PartialEq, Eq, Structural)]
pub enum ProofType {
    Code,
    Package,
    Trust,
}

/// The marker line that opens a block of the given kind.
pub open spec fn begin_block_bytes(kind: ProofType) -> Seq<u8> {
    match kind {
        ProofType::Code => "-----BEGIN CODE REVIEW-----".spec_bytes(),
        ProofType::Package => "-----BEGIN PACKAGE REVIEW-----".spec_bytes(),
        ProofType::Trust => "-----BEGIN CREV TRUST-----".spec_bytes(),
    }
}

/// The marker line that opens the signature section of the given kind.
pub open spec fn begin_signature_bytes(kind: ProofType) -> Seq<u8> {
    match kind {
        ProofType::Code => "-----BEGIN CODE REVIEW SIGNATURE-----".spec_bytes(),
        ProofType::Package => "-----BEGIN PACKAGE REVIEW SIGNATURE-----".spec_bytes(),
        ProofType::Trust => "-----BEGIN CREV TRUST SIGNATURE-----".spec_bytes(),
    }
}

/// The marker line that closes a block of the given kind.
pub open spec fn end_block_bytes(kind: ProofType) -> Seq<u8> {
    match kind {
        ProofType::Code => "-----END CODE REVIEW-----".spec_bytes(),
        ProofType::Package => "-----END PACKAGE REVIEW-----".spec_bytes(),
        ProofType::Trust => "-----END CREV TRUST-----".spec_bytes(),
    }
}

impl ProofType {
    /// The begin-block marker line for this kind.
    pub fn begin_block(self) -> (r: &'static [u8])
        ensures
            r@ == begin_block_bytes(self),
    {
        match self {
            ProofType::Code => "-----BEGIN CODE REVIEW-----".as_bytes(),
            ProofType::Package => "-----BEGIN PACKAGE REVIEW-----".as_bytes(),
            ProofType::Trust => "-----BEGIN CREV TRUST-----".as_bytes(),
        }
    }

    /// The begin-signature marker line for this kind.
    pub fn begin_signature(self) -> (r: &'static [u8])
        ensures
            r@ == begin_signature_bytes(self),
    {
        match self {
            ProofType::Code => "-----BEGIN CODE REVIEW SIGNATURE-----".as_bytes(),
            ProofType::Package => "-----BEGIN PACKAGE REVIEW SIGNATURE-----".as_bytes(),
            ProofType::Trust => "-----BEGIN CREV TRUST SIGNATURE-----".as_bytes(),
        }
    }

    /// The end-block marker line for this kind.
    pub fn end_block(self) -> (r: &'static [u8])
        ensures
            r@ == end_block_bytes(self),
    {
        match self {
            ProofType::Code => "-----END CODE REVIEW-----".as_bytes(),
            ProofType::Package => "-----END PACKAGE REVIEW-----".as_bytes(),
            ProofType::Trust => "-----END CREV TRUST-----".as_bytes(),
        }
    }
}

/// What every marker line satisfies: it is not blank, trimming leaves it
/// unchanged, and it spans exactly one line.
pub open spec fn marker_ok(m: Seq<u8>) -> bool {
    &&& m.len() > 0
    &&& trim_spec(m) == m
    &&& !m.contains(NEWLINE)
}

/// The facts [`lemma_marker_facts`] gives about one marker: its characters
/// are printable ASCII and it is framed by dashes.
proof fn lemma_marker_ok(s: &str)
    requires
        s@.len() > 0,
        forall|i: int| 0 <= i < s@.len() ==> ' ' <= #[trigger] s@[i] <= '~',
        s@[0] == '-',
        s@[s@.len() - 1] == '-',
    ensures
        marker_ok(s.spec_bytes()),
        s.spec_bytes().len() == s@.len(),
{
    assert(vstd::string::is_ascii(s)) by {
        assert(forall|i: int| 0 <= i < s@.len() ==> '\0' <= #[trigger] s@[i] <= '\u{7f}');
    }
    vstd::string::is_ascii_spec_bytes(s);
    let b = s.spec_bytes();
    assert(b =~= Seq::new(s@.len(), |i| s@[i] as u8));
    assert(forall|i: int| 0 <= i < b.len() ==> 32 <= #[trigger] b[i] <= 126);
    assert(b[0] == 45 && b[b.len() - 1] == 45);
    assert(!is_ws(b[0]) && !is_ws(b.last()));
    lemma_trim_noop(b);
    assert(!b.contains(NEWLINE));
}

/// The concrete properties of the nine marker constants that the round-trip
/// argument rests on: each is a well-formed single line, and the three
/// begin-block markers are pairwise distinct.
proof fn lemma_marker_facts()
    ensures
        marker_ok(begin_block_bytes(ProofType::Code)),
        marker_ok(begin_block_bytes(ProofType::Package)),
        marker_ok(begin_block_bytes(ProofType::Trust)),
        marker_ok(begin_signature_bytes(ProofType::Code)),
        marker_ok(begin_signature_bytes(ProofType::Package)),
        marker_ok(begin_signature_bytes(ProofType::Trust)),
        marker_ok(end_block_bytes(ProofType::Code)),
        marker_ok(end_block_bytes(ProofType::Package)),
        marker_ok(end_block_bytes(ProofType::Trust)),
        begin_block_bytes(ProofType::Trust) != begin_block_bytes(ProofType::Code),
        begin_block_bytes(ProofType::Package) != begin_block_bytes(ProofType::Code),
        begin_block_bytes(ProofType::Package) != begin_block_bytes(ProofType::Trust),
{
    reveal_strlit("-----BEGIN CODE REVIEW-----");
    lemma_marker_ok("-----BEGIN CODE REVIEW-----");
    reveal_strlit("-----BEGIN PACKAGE REVIEW-----");
    lemma_marker_ok("-----BEGIN PACKAGE REVIEW-----");
    reveal_strlit("-----BEGIN CREV TRUST-----");
    lemma_marker_ok("-----BEGIN CREV TRUST-----");
    reveal_strlit("-----BEGIN CODE REVIEW SIGNATURE-----");
    lemma_marker_ok("-----BEGIN CODE REVIEW SIGNATURE-----");
    reveal_strlit("-----BEGIN PACKAGE REVIEW SIGNATURE-----");
    lemma_marker_ok("-----BEGIN PACKAGE REVIEW SIGNATURE-----");
    reveal_strlit("-----BEGIN CREV TRUST SIGNATURE-----");
    lemma_marker_ok("-----BEGIN CREV TRUST SIGNATURE-----");
    reveal_strlit("-----END CODE REVIEW-----");
    lemma_marker_ok("-----END CODE REVIEW-----");
    reveal_strlit("-----END PACKAGE REVIEW-----");
    lemma_marker_ok("-----END PACKAGE REVIEW-----");
    reveal_strlit("-----END CREV TRUST-----");
    lemma_marker_ok("-----END CREV TRUST-----");
    assert(begin_block_bytes(ProofType::Code).len() == 27);
    assert(begin_block_bytes(ProofType::Package).len() == 30);
    assert(begin_block_bytes(ProofType::Trust).len() == 26);
}

/// What the codec knows of a serialized proof: its exact body and signature
/// bytes and its declared kind.
#[verifier::ext_equal]
pub struct SerializedView {
    pub body: Seq<u8>,
    pub signature: Seq<u8>,
    pub kind: ProofType,
}

/// A proof as extracted from an envelope: raw body bytes, raw signature
/// bytes, and the declared kind. The body is the exact concatenation of the
/// content lines, each with its newline.
#[derive(Debug, PartialEq, Eq)]
pub struct Serialized {
    pub body: Vec<u8>,
    pub signature: Vec<u8>,
    pub type_: ProofType,
}

impl View for Serialized {
    type V = SerializedView;

    open spec fn view(&self) -> SerializedView {
        SerializedView { body: self.body@, signature: self.signature@, kind: self.type_ }
    }
}

/// Where the codec stands while reading lines.
#[derive(Clone, Copy, Debug, PartialEq, Eq, Structural)]
pub enum Stage {
    Outside,
    InBody(ProofType),
    InSignature(ProofType),
}

/// The whole state of the codec: the stage, the buffers being filled, and
/// the triplets already emitted.
#[verifier::ext_equal]
pub struct CodecState {
    pub stage: Stage,
    pub body: Seq<u8>,
    pub signature: Seq<u8>,
    pub out: Seq<SerializedView>,
}

/// The codec's state before any line has been read.
pub open spec fn init_state() -> CodecState {
    CodecState { stage: Stage::Outside, body: Seq::empty(), signature: Seq::empty(), out: Seq::empty() }
}

/// One transition of the codec on one line (without its terminator).
pub open spec fn codec_step(st: CodecState, line: Seq<u8>) -> Result<CodecState, Error> {
    match st.stage {
        Stage::Outside => {
            let t = trim_spec(line);
            if t.len() == 0 {
                Ok(st)
            } else if t == begin_block_bytes(ProofType::Code) {
                Ok(CodecState { stage: Stage::InBody(ProofType::Code), ..st })
            } else if t == begin_block_bytes(ProofType::Trust) {
                Ok(CodecState { stage: Stage::InBody(ProofType::Trust), ..st })
            } else if t == begin_block_bytes(ProofType::Package) {
                Ok(CodecState { stage: Stage::InBody(ProofType::Package), ..st })
            } else {
                Err(Error::MalformedEnvelope)
            }
        },
        Stage::InBody(kind) => {
            if trim_spec(line) == begin_signature_bytes(kind) {
                Ok(CodecState { stage: Stage::InSignature(kind), ..st })
            } else {
                let body = st.body + line + seq![NEWLINE];
                if body.len() > MAX_PROOF_BODY_LENGTH {
                    Err(Error::BodyTooLarge)
                } else {
                    Ok(CodecState { body, ..st })
                }
            }
        },
        Stage::InSignature(kind) => {
            if trim_spec(line) == end_block_bytes(kind) {
                Ok(
                    CodecState {
                        stage: Stage::Outside,
                        body: Seq::empty(),
                        signature: Seq::empty(),
                        out: st.out.push(
                            SerializedView { body: st.body, signature: st.signature, kind },
                        ),
                    },
                )
            } else {
                let signature = st.signature + line + seq![NEWLINE];
                if signature.len() > MAX_SIGNATURE_LENGTH {
                    Err(Error::SignatureTooLarge)
                } else {
                    Ok(CodecState { signature, ..st })
                }
            }
        },
    }
}

/// The codec run over a sequence of lines, starting from `st`.
pub open spec fn run_from(st: CodecState, lines: Seq<Seq<u8>>) -> Result<CodecState, Error>
    decreases lines.len(),
{
    if lines.len() == 0 {
        Ok(st)
    } else {
        match codec_step(st, lines.first()) {
            Ok(st2) => run_from(st2, lines.drop_first()),
            Err(e) => Err(e),
        }
    }
}

/// What parsing a byte stream yields: the triplets of its complete blocks in
/// input order, or the first error. Input ending inside a block is an error.
pub open spec fn spec_parse(input: Seq<u8>) -> Result<Seq<SerializedView>, Error> {
    match run_from(init_state(), spec_lines(input)) {
        Ok(st) => match st.stage {
            Stage::Outside => Ok(st.out),
            _ => Err(Error::UnexpectedEndOfInput),
        },
        Err(e) => Err(e),
    }
}

/// `s` with a final newline added unless it is empty or already ends in one.
pub open spec fn terminated(s: Seq<u8>) -> Seq<u8> {
    if s.len() == 0 || s.last() == NEWLINE {
        s
    } else {
        s.push(NEWLINE)
    }
}

/// The exact textual envelope of a triplet: begin marker, body, signature
/// marker, signature, end marker, each section newline-terminated.
pub open spec fn spec_serialize(s: SerializedView) -> Seq<u8> {
    begin_block_bytes(s.kind) + seq![NEWLINE] + terminated(s.body) + begin_signature_bytes(s.kind)
        + seq![NEWLINE] + terminated(s.signature) + end_block_bytes(s.kind) + seq![NEWLINE]
}

/// Feeding body lines (none of which opens the signature section) appends
/// them, each newline-terminated, to the body buffer.
proof fn lemma_feed_body(st: CodecState, kind: ProofType, ls: Seq<Seq<u8>>, rest: Seq<Seq<u8>>)
    requires
        st.stage == Stage::InBody(kind),
        forall|i: int|
            0 <= i < ls.len() ==> trim_spec(#[trigger] ls[i]) != begin_signature_bytes(kind),
        st.body.len() + unlines(ls).len() <= MAX_PROOF_BODY_LENGTH,
    ensures
        run_from(st, ls + rest) == run_from(CodecState { body: st.body + unlines(ls), ..st }, rest),
    decreases ls.len(),
{
    if ls.len() == 0 {
        assert(ls + rest =~= rest);
        assert(CodecState { body: st.body + unlines(ls), ..st } =~= st);
    } else {
        let l = ls.first();
        assert(unlines(ls) =~= l + seq![NEWLINE] + unlines(ls.drop_first()));
        let body2 = st.body + l + seq![NEWLINE];
        assert(body2.len() <= MAX_PROOF_BODY_LENGTH);
        let st2 = CodecState { body: body2, ..st };
        assert(codec_step(st, l) matches Ok(s2) && s2 =~= st2);
        assert((ls + rest).first() == l);
        assert((ls + rest).drop_first() =~= ls.drop_first() + rest);
        assert(forall|i: int|
            0 <= i < ls.drop_first().len() ==> trim_spec(#[trigger] ls.drop_first()[i])
                != begin_signature_bytes(kind));
        lemma_feed_body(st2, kind, ls.drop_first(), rest);
        assert(CodecState { body: st2.body + unlines(ls.drop_first()), ..st2 } =~= CodecState {
            body: st.body + unlines(ls),
            ..st
        });
    }
}

/// Feeding signature lines (none of which closes the block) appends them,
/// each newline-terminated, to the signature buffer.
proof fn lemma_feed_signature(
    st: CodecState,
    kind: ProofType,
    ls: Seq<Seq<u8>>,
    rest: Seq<Seq<u8>>,
)
    requires
        st.stage == Stage::InSignature(kind),
        forall|i: int| 0 <= i < ls.len() ==> trim_spec(#[trigger] ls[i]) != end_block_bytes(kind),
        st.signature.len() + unlines(ls).len() <= MAX_SIGNATURE_LENGTH,
    ensures
        run_from(st, ls + rest) == run_from(
            CodecState { signature: st.signature + unlines(ls), ..st },
            rest,
        ),
    decreases ls.len(),
{
    if ls.len() == 0 {
        assert(ls + rest =~= rest);
        assert(CodecState { signature: st.signature + unlines(ls), ..st } =~= st);
    } else {
        let l = ls.first();
        assert(unlines(ls) =~= l + seq![NEWLINE] + unlines(ls.drop_first()));
        let sig2 = st.signature + l + seq![NEWLINE];
        assert(sig2.len() <= MAX_SIGNATURE_LENGTH);
        let st2 = CodecState { signature: sig2, ..st };
        assert(codec_step(st, l) matches Ok(s2) && s2 =~= st2);
        assert((ls + rest).first() == l);
        assert((ls + rest).drop_first() =~= ls.drop_first() + rest);
        assert(forall|i: int|
            0 <= i < ls.drop_first().len() ==> trim_spec(#[trigger] ls.drop_first()[i])
                != end_block_bytes(kind));
        lemma_feed_signature(st2, kind, ls.drop_first(), rest);
        assert(CodecState { signature: st2.signature + unlines(ls.drop_first()), ..st2 }
            =~= CodecState { signature: st.signature + unlines(ls), ..st });
    }
}

/// The round-trip argument in its general form, over an explicit line
/// decomposition of the body and the signature.
#[verifier::rlimit(100)]
pub proof fn lemma_round_trip_lines(
    s: SerializedView,
    body_lines: Seq<Seq<u8>>,
    sig_lines: Seq<Seq<u8>>,
)
    requires
        s.body == unlines(body_lines),
        s.signature == unlines(sig_lines),
        forall|i: int| 0 <= i < body_lines.len() ==> !(#[trigger] body_lines[i]).contains(NEWLINE),
        forall|i: int|
            0 <= i < body_lines.len() ==> trim_spec(#[trigger] body_lines[i])
                != begin_signature_bytes(s.kind),
        forall|i: int| 0 <= i < sig_lines.len() ==> !(#[trigger] sig_lines[i]).contains(NEWLINE),
        forall|i: int|
            0 <= i < sig_lines.len() ==> trim_spec(#[trigger] sig_lines[i]) != end_block_bytes(
                s.kind,
            ),
        s.body.len() <= MAX_PROOF_BODY_LENGTH,
        s.signature.len() <= MAX_SIGNATURE_LENGTH,
    ensures
        spec_parse(spec_serialize(s)) == Ok::<Seq<SerializedView>, Error>(seq![s]),
{
    let k = s.kind;
    lemma_marker_facts();
    lemma_unlines_terminated(body_lines);
    lemma_unlines_terminated(sig_lines);
    assert(terminated(s.body) == s.body);
    assert(terminated(s.signature) == s.signature);

    // The envelope splits into the marker lines around the body and
    // signature lines.
    let tail3 = end_block_bytes(k) + seq![NEWLINE];
    let tail2 = unlines(sig_lines) + tail3;
    let tail1 = begin_signature_bytes(k) + seq![NEWLINE] + tail2;
    let tail0 = unlines(body_lines) + tail1;
    assert(spec_serialize(s) =~= begin_block_bytes(k) + seq![NEWLINE] + tail0);
    lemma_lines_feed_line(begin_block_bytes(k), tail0, Seq::empty());
    assert(Seq::<u8>::empty() + begin_block_bytes(k) =~= begin_block_bytes(k));
    lemma_unlines_feed(body_lines, tail1);
    lemma_lines_feed_line(begin_signature_bytes(k), tail2, Seq::empty());
    assert(Seq::<u8>::empty() + begin_signature_bytes(k) =~= begin_signature_bytes(k));
    lemma_unlines_feed(sig_lines, tail3);
    assert(tail3 =~= end_block_bytes(k) + seq![NEWLINE] + Seq::<u8>::empty());
    lemma_lines_feed_line(end_block_bytes(k), Seq::empty(), Seq::empty());
    assert(Seq::<u8>::empty() + end_block_bytes(k) =~= end_block_bytes(k));
    let lines = spec_lines(spec_serialize(s));
    assert(lines =~= seq![begin_block_bytes(k)] + (body_lines + (seq![begin_signature_bytes(k)]
        + (sig_lines + seq![end_block_bytes(k)]))));

    // Run the machine over those lines, marker by marker, section by
    // section.
    let st0 = init_state();
    let st1 = CodecState { stage: Stage::InBody(k), ..st0 };
    assert(codec_step(st0, begin_block_bytes(k)) == Ok::<CodecState, Error>(st1)) by {
        assert(trim_spec(begin_block_bytes(k)) == begin_block_bytes(k));
        assert(codec_step(st0, begin_block_bytes(k)) matches Ok(n) && n =~= st1);
    }
    assert(lines.first() == begin_block_bytes(k));
    assert(lines.drop_first() =~= body_lines + (seq![begin_signature_bytes(k)] + (sig_lines
        + seq![end_block_bytes(k)])));
    assert(run_from(st0, lines) == run_from(
        st1,
        body_lines + (seq![begin_signature_bytes(k)] + (sig_lines + seq![end_block_bytes(k)])),
    ));
    assert(st1.body + unlines(body_lines) =~= s.body);
    lemma_feed_body(st1, k, body_lines, seq![begin_signature_bytes(k)] + (sig_lines
        + seq![end_block_bytes(k)]));
    let st2 = CodecState { body: s.body, ..st1 };
    assert(CodecState { body: st1.body + unlines(body_lines), ..st1 } =~= st2);
    let st3 = CodecState { stage: Stage::InSignature(k), ..st2 };
    assert(codec_step(st2, begin_signature_bytes(k)) == Ok::<CodecState, Error>(st3)) by {
        assert(codec_step(st2, begin_signature_bytes(k)) matches Ok(n) && n =~= st3);
    }
    let mid = seq![begin_signature_bytes(k)] + (sig_lines + seq![end_block_bytes(k)]);
    assert(mid.first() == begin_signature_bytes(k));
    assert(mid.drop_first() =~= sig_lines + seq![end_block_bytes(k)]);
    assert(run_from(st2, mid) == run_from(st3, sig_lines + seq![end_block_bytes(k)]));
    assert(st3.signature + unlines(sig_lines) =~= s.signature);
    lemma_feed_signature(st3, k, sig_lines, seq![end_block_bytes(k)]);
    let st4 = CodecState { signature: s.signature, ..st3 };
    assert(CodecState { signature: st3.signature + unlines(sig_lines), ..st3 } =~= st4);
    let emitted = SerializedView { body: st4.body, signature: st4.signature, kind: k };
    let st5 = CodecState {
        stage: Stage::Outside,
        body: Seq::empty(),
        signature: Seq::empty(),
        out: st4.out.push(emitted),
    };
    assert(codec_step(st4, end_block_bytes(k)) == Ok::<CodecState, Error>(st5)) by {
        assert(codec_step(st4, end_block_bytes(k)) matches Ok(n) && n =~= st5);
    }
    let last = seq![end_block_bytes(k)];
    assert(last.first() == end_block_bytes(k));
    assert(last.drop_first().len() == 0);
    assert(run_from(st5, last.drop_first()) == Ok::<CodecState, Error>(st5));
    assert(run_from(st4, last) == Ok::<CodecState, Error>(st5));
    assert(emitted =~= s);
    assert(st5.out =~= seq![s]);
}

/// Law: the codec inverts the serializer. A triplet whose body and
/// signature are newline-terminated (or empty), whose lines do not collide
/// with its kind's markers, and which respects the size bounds parses back
/// from its own envelope byte-for-byte, alone.
pub proof fn lemma_round_trip(s: SerializedView)
    requires
        s.body.len() == 0 || s.body.last() == NEWLINE,
        s.signature.len() == 0 || s.signature.last() == NEWLINE,
        forall|i: int|
            0 <= i < spec_lines(s.body).len() ==> trim_spec(#[trigger] spec_lines(s.body)[i])
                != begin_signature_bytes(s.kind),
        forall|i: int|
            0 <= i < spec_lines(s.signature).len() ==> trim_spec(
                #[trigger] spec_lines(s.signature)[i],
            ) != end_block_bytes(s.kind),
        s.body.len() <= MAX_PROOF_BODY_LENGTH,
        s.signature.len() <= MAX_SIGNATURE_LENGTH,
    ensures
        spec_parse(spec_serialize(s)) == Ok::<Seq<SerializedView>, Error>(seq![s]),
{
    let body_lines = spec_lines(s.body);
    let sig_lines = spec_lines(s.signature);
    assert(!Seq::<u8>::empty().contains(NEWLINE));
    crate::text::lemma_lines_no_newline(s.body, Seq::empty());
    crate::text::lemma_lines_no_newline(s.signature, Seq::empty());
    if s.body.len() == 0 {
        assert(body_lines =~= Seq::<Seq<u8>>::empty());
        assert(unlines(body_lines) =~= s.body);
    } else {
        crate::text::lemma_unlines_of_lines(s.body, Seq::empty());
        assert(Seq::<u8>::empty() + s.body =~= s.body);
    }
    if s.signature.len() == 0 {
        assert(sig_lines =~= Seq::<Seq<u8>>::empty());
        assert(unlines(sig_lines) =~= s.signature);
    } else {
        crate::text::lemma_unlines_of_lines(s.signature, Seq::empty());
        assert(Seq::<u8>::empty() + s.signature =~= s.signature);
    }
    lemma_round_trip_lines(s, body_lines, sig_lines);
}

/// Helper to speak of the exec parser's state as a [`CodecState`].
pub open spec fn state_of(
    stage: Stage,
    body: Seq<u8>,
    signature: Seq<u8>,
    out: Seq<SerializedView>,
) -> CodecState {
    CodecState { stage, body, signature, out }
}

impl Serialized {
    /// Parse a byte stream into the serialized proofs of its complete
    /// blocks, exactly as [`spec_parse`] describes.
    pub fn parse(input: &[u8]) -> (r: Result<Vec<Serialized>, Error>)
        ensures
            match r {
                Ok(v) => spec_parse(input@) == Ok::<_, Error>(
                    v@.map_values(|s: Serialized| s@),
                ),
                Err(e) => spec_parse(input@) == Err::<Seq<SerializedView>, _>(e),
            },
    {
        let lines = split_lines(input);
        let ghost all: Seq<Seq<u8>> = lines@.map_values(|l: Vec<u8>| l@);
        let n = lines.len();
        let mut stage = Stage::Outside;
        let mut body: Vec<u8> = Vec::new();
        let mut signature: Vec<u8> = Vec::new();
        let mut out: Vec<Serialized> = Vec::new();
        proof {
            assert(all.skip(0) =~= all);
            assert(out@.map_values(|s: Serialized| s@) =~= Seq::<SerializedView>::empty());
            assert(state_of(stage, body@, signature@, out@.map_values(|s: Serialized| s@))
                =~= init_state());
        }
        let mut j: usize = 0;
        while j < n
            invariant
                n == all.len(),
                j <= n,
                all == lines@.map_values(|l: Vec<u8>| l@),
                all == spec_lines(input@),
                n == lines@.len(),
                run_from(init_state(), all) == run_from(
                    state_of(stage, body@, signature@, out@.map_values(|s: Serialized| s@)),
                    all.skip(j as int),
                ),
            decreases n - j,
        {
            let ghost cur = state_of(
                stage,
                body@,
                signature@,
                out@.map_values(|s: Serialized| s@),
            );
            let line = &lines[j];
            proof {
                assert(all.skip(j as int).len() == n - j);
                assert(all.skip(j as int).first() == all[j as int]);
                assert(all[j as int] == line@);
                assert(all.skip(j as int).drop_first() =~= all.skip(j as int + 1));
            }
            let t = trim_bytes(line.as_slice());
            match stage {
                Stage::Outside => {
                    if t.len() == 0 {
                        proof {
                            assert(codec_step(cur, line@) == Ok::<_, Error>(cur));
                        }
                    } else if bytes_eq(t, ProofType::Code.begin_block()) {
                        stage = Stage::InBody(ProofType::Code);
                    } else if bytes_eq(t, ProofType::Trust.begin_block()) {
                        stage = Stage::InBody(ProofType::Trust);
                    } else if bytes_eq(t, ProofType::Package.begin_block()) {
                        stage = Stage::InBody(ProofType::Package);
                    } else {
                        proof {
                            assert(codec_step(cur, line@) == Err::<CodecState, _>(
                                Error::MalformedEnvelope,
                            ));
                            assert(run_from(cur, all.skip(j as int)) == Err::<CodecState, _>(
                                Error::MalformedEnvelope,
                            ));
                        }
                        return Err(Error::MalformedEnvelope);
                    }
                },
                Stage::InBody(kind) => {
                    if bytes_eq(t, kind.begin_signature()) {
                        stage = Stage::InSignature(kind);
                    } else {
                        body.extend_from_slice(line.as_slice());
                        body.push(NEWLINE);
                        proof {
                            assert(body@ =~= cur.body + line@ + seq![NEWLINE]);
                        }
                        if body.len() > MAX_PROOF_BODY_LENGTH {
                            proof {
                                assert(codec_step(cur, line@) == Err::<CodecState, _>(
                                    Error::BodyTooLarge,
                                ));
                                assert(run_from(cur, all.skip(j as int)) == Err::<CodecState, _>(
                                    Error::BodyTooLarge,
                                ));
                            }
                            return Err(Error::BodyTooLarge);
                        }
                    }
                },
                Stage::InSignature(kind) => {
                    if bytes_eq(t, kind.end_block()) {
                        let ghost prev_out = out@;
                        let done = Serialized { body, signature, type_: kind };
                        out.push(done);
                        body = Vec::new();
                        signature = Vec::new();
                        stage = Stage::Outside;
                        proof {
                            assert(out@.map_values(|s: Serialized| s@) =~= prev_out.map_values(
                                |s: Serialized| s@,
                            ).push(SerializedView { body: cur.body, signature: cur.signature, kind }));
                        }
                    } else {
                        signature.extend_from_slice(line.as_slice());
                        signature.push(NEWLINE);
                        proof {
                            assert(signature@ =~= cur.signature + line@ + seq![NEWLINE]);
                        }
                        if signature.len() > MAX_SIGNATURE_LENGTH {
                            proof {
                                assert(codec_step(cur, line@) == Err::<CodecState, _>(
                                    Error::SignatureTooLarge,
                                ));
                                assert(run_from(cur, all.skip(j as int)) == Err::<CodecState, _>(
                                    Error::SignatureTooLarge,
                                ));
                            }
                            return Err(Error::SignatureTooLarge);
                        }
                    }
                },
            }
            proof {
                let next = state_of(
                    stage,
                    body@,
                    signature@,
                    out@.map_values(|s: Serialized| s@),
                );
                assert(codec_step(cur, line@) matches Ok(st2) && st2 =~= next);
                assert(run_from(cur, all.skip(j as int)) == run_from(next, all.skip(j as int + 1)));
            }
            j += 1;
        }
        proof {
            assert(all.skip(n as int) =~= Seq::<Seq<u8>>::empty());
        }
        match stage {
            Stage::Outside => Ok(out),
            _ => Err(Error::UnexpectedEndOfInput),
        }
    }
}

/// Build the exact envelope text of a triplet, as [`spec_serialize`]
/// describes it.
fn serialize_parts(kind: ProofType, body: &[u8], signature: &[u8]) -> (r: Vec<u8>)
    ensures
        r@ == spec_serialize(SerializedView { body: body@, signature: signature@, kind }),
{
    let mut v: Vec<u8> = Vec::new();
    v.extend_from_slice(kind.begin_block());
    v.push(NEWLINE);
    v.extend_from_slice(body);
    if body.len() > 0 && body[body.len() - 1] != NEWLINE {
        v.push(NEWLINE);
    }
    v.extend_from_slice(kind.begin_signature());
    v.push(NEWLINE);
    v.extend_from_slice(signature);
    if signature.len() > 0 && signature[signature.len() - 1] != NEWLINE {
        v.push(NEWLINE);
    }
    v.extend_from_slice(kind.end_block());
    v.push(NEWLINE);
    proof {
        assert(v@ =~= spec_serialize(SerializedView { body: body@, signature: signature@, kind }));
    }
    v
}

impl Serialized {
    /// Render this triplet as envelope text; parsing that text yields the
    /// triplet back (see [`lemma_round_trip`]).
    pub fn to_bytes(&self) -> (r: Vec<u8>)
        ensures
            r@ == spec_serialize(self@),
    {
        serialize_parts(self.type_, self.body.as_slice(), self.signature.as_slice())
    }
}

/// A proof extracted from an envelope and bound to its parsed content: the
/// raw body and signature bytes, the body's digest, and the content.
#[derive(Debug, PartialEq, Eq)]
pub struct Proof {
    pub body: Vec<u8>,
    pub signature: Vec<u8>,
    pub digest: Vec<u8>,
    pub content: Content,
}

/// Whether `p` is the parsed form of the triplet `t`: same bytes, the
/// digest of the body, and content of the declared kind naming the author
/// the body declares.
pub open spec fn proof_matches(p: Proof, t: SerializedView) -> bool {
    &&& p.body@ == t.body
    &&& p.signature@ == t.signature
    &&& p.digest@ == crypto::blake2b256_of(t.body)
    &&& p.content.spec_proof_type() == t.kind
    &&& author_of_body(p.content, t.body)
}

impl Serialized {
    /// Digest the body and parse it as content of the declared kind. Fails
    /// exactly when the body declares no decodable author.
    pub fn to_parsed(&self) -> (r: Result<Proof, Error>)
        ensures
            r is Ok <==> spec_content_author(self.body@) is Some,
            r matches Ok(p) ==> proof_matches(p, self@),
            r matches Err(e) ==> e == Error::InvalidContent,
    {
        let digest = crypto::blake2b256(self.body.as_slice());
        match Content::parse(self.type_, self.body.as_slice()) {
            Err(e) => Err(e),
            Ok(content) => Ok(
                Proof {
                    body: self.body.clone(),
                    signature: self.signature.clone(),
                    digest,
                    content,
                },
            ),
        }
    }
}

impl Proof {
    /// Parse a byte stream into proofs: run the envelope codec, then parse
    /// each triplet's content, failing fast on the first bad block.
    pub fn parse(input: &[u8]) -> (r: Result<Vec<Proof>, Error>)
        ensures
            match spec_parse(input@) {
                Ok(ts) => {
                    &&& (r is Ok <==> (forall|i: int|
                        0 <= i < ts.len() ==> spec_content_author(#[trigger] ts[i].body) is Some))
                    &&& (r matches Ok(v) ==> v@.len() == ts.len() && (forall|i: int|
                        0 <= i < ts.len() ==> proof_matches(#[trigger] v@[i], ts[i])))
                    &&& (r matches Err(e) ==> e == Error::InvalidContent)
                },
                Err(e0) => r matches Err(e) && e == e0,
            },
    {
        let serialized = match Serialized::parse(input) {
            Ok(s) => s,
            Err(e) => {
                return Err(e);
            },
        };
        let ghost ts = spec_parse(input@)->Ok_0;
        let n = serialized.len();
        let mut out: Vec<Proof> = Vec::new();
        let mut i: usize = 0;
        while i < n
            invariant
                n == serialized@.len(),
                i <= n,
                ts == serialized@.map_values(|s: Serialized| s@),
                spec_parse(input@) == Ok::<Seq<SerializedView>, Error>(ts),
                out@.len() == i,
                forall|j: int| 0 <= j < i ==> proof_matches(#[trigger] out@[j], ts[j]),
                forall|j: int| 0 <= j < i ==> spec_content_author(#[trigger] ts[j].body) is Some,
            decreases n - i,
        {
            proof {
                assert(ts[i as int] == serialized@[i as int]@);
            }
            match serialized[i].to_parsed() {
                Ok(p) => out.push(p),
                Err(_) => {
                    proof {
                        assert(spec_content_author(ts[i as int].body) is None);
                        assert(!(forall|k: int|
                            0 <= k < ts.len() ==> spec_content_author(
                                #[trigger] ts[k].body,
                            ) is Some));
                    }
                    return Err(Error::InvalidContent);
                },
            }
            i += 1;
        }
        Ok(out)
    }

    /// The signature text with surrounding whitespace removed, as handed to
    /// verification.
    pub fn signature(&self) -> (r: &[u8])
        ensures
            r@ == trim_spec(self.signature@),
    {
        trim_bytes(self.signature.as_slice())
    }

    /// Check the stored signature over the raw body bytes, exactly as the
    /// codec captured them, against the public key of the author the
    /// content declares.
    pub fn verify(&self) -> (r: Result<(), Error>)
        ensures
            r == (match crypto::base64url_decode_of(trim_spec(self.signature@)) {
                Some(d) => if crypto::ed25519_verifies(
                    self.content.spec_author().id@,
                    self.body@,
                    d,
                ) {
                    Ok::<(), Error>(())
                } else {
                    Err::<(), Error>(Error::SignatureInvalid)
                },
                None => Err::<(), Error>(Error::SignatureMalformed),
            }),
    {
        let author = self.content.author_id();
        author.verify_signature(self.body.as_slice(), self.signature.as_slice())
    }

    /// Render this proof back as envelope text, under its content's kind.
    pub fn to_bytes(&self) -> (r: Vec<u8>)
        ensures
            r@ == spec_serialize(
                SerializedView {
                    body: self.body@,
                    signature: self.signature@,
                    kind: self.content.spec_proof_type(),
                },
            ),
    {
        serialize_parts(self.content.proof_type(), self.body.as_slice(), self.signature.as_slice())
    }
}

/// The name of the digest algorithm proofs are content-addressed with.
pub fn default_digest_type() -> (r: String)
    ensures
        r@ == "blake2b"@,
{
    "blake2b".to_owned()
}

/// The name of the revision-tracking system content schemas default to.
pub fn default_revision_type() -> (r: String)
    ensures
        r@ == "git"@,
{
    "git".to_owned()
}

} // verus!
