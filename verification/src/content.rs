//! The kind-specific content of a proof body, seen through the small
//! capability the envelope needs: parse the body, name its kind, and name
//! the author whose key must verify the signature. The full content schemas
//! live outside this library; here a body declares its author in `from:`
//! (base64 public key) and `from-url:` (locator) lines.
use crate::crypto;
use crate::envelope::ProofType;
use crate::id::PubId;
use crate::text::{bytes_eq, spec_lines, split_lines, trim_bytes, trim_spec};
use crate::Error;
use vstd::prelude::*;
use vstd::string::StringSliceAdditionalSpecFns;

verus! {

/// The key that introduces the author's public key in a body.
pub open spec fn from_id_prefix() -> Seq<u8> {
    "from: ".spec_bytes()
}

/// The key that introduces the author's URL in a body.
pub open spec fn from_url_prefix() -> Seq<u8> {
    "from-url: ".spec_bytes()
}

/// Whether `s` starts with `p`.
pub open spec fn starts_with(s: Seq<u8>, p: Seq<u8>) -> bool {
    s.len() >= p.len() && s.subrange(0, p.len() as int) == p
}

/// The trimmed value of the first line of `ls` starting with `prefix`.
pub open spec fn spec_find_field(ls: Seq<Seq<u8>>, prefix: Seq<u8>) -> Option<Seq<u8>>
    decreases ls.len(),
{
    if ls.len() == 0 {
        None
    } else if starts_with(ls.first(), prefix) {
        Some(trim_spec(ls.first().skip(prefix.len() as int)))
    } else {
        spec_find_field(ls.drop_first(), prefix)
    }
}

/// The author a body declares: its decoded public-key bytes and the UTF-8
/// bytes of its URL; `None` when either field is missing or undecodable.
pub open spec fn spec_content_author(body: Seq<u8>) -> Option<(Seq<u8>, Seq<u8>)> {
    let ls = spec_lines(body);
    match spec_find_field(ls, from_id_prefix()) {
        Some(id_text) => match crypto::base64url_decode_of(id_text) {
            Some(id_bytes) => match spec_find_field(ls, from_url_prefix()) {
                Some(url_bytes) => if vstd::utf8::valid_utf8(url_bytes) {
                    Some((id_bytes, url_bytes))
                } else {
                    None
                },
                None => None,
            },
            None => None,
        },
        None => None,
    }
}

/// What a parsed content shares across kinds: the author's identity.
#[derive(Debug, PartialEq, Eq)]
pub struct ContentCommon {
    pub author: PubId,
}

/// The content of a proof, tagged by its kind.
#[derive(Debug, PartialEq, Eq)]
pub enum Content {
    Code(ContentCommon),
    Package(ContentCommon),
    Trust(ContentCommon),
}

/// Whether `c` carries exactly the author that `body` declares.
pub open spec fn author_of_body(c: Content, body: Seq<u8>) -> bool {
    match spec_content_author(body) {
        Some(f) => {
            &&& c.spec_author().id@ == f.0
            &&& vstd::utf8::encode_utf8(c.spec_author().url@) == f.1
            &&& c.spec_author().type_ is Crev
        },
        None => false,
    }
}

/// Exec search for the trimmed value of the first line starting with
/// `prefix`, as [`spec_find_field`] describes.
fn find_field(lines: &Vec<Vec<u8>>, prefix: &[u8]) -> (r: Option<Vec<u8>>)
    ensures
        match r {
            Some(v) => spec_find_field(lines@.map_values(|l: Vec<u8>| l@), prefix@) == Some(v@),
            None => spec_find_field(lines@.map_values(|l: Vec<u8>| l@), prefix@) is None,
        },
{
    let ghost all: Seq<Seq<u8>> = lines@.map_values(|l: Vec<u8>| l@);
    let n = lines.len();
    let mut i: usize = 0;
    proof {
        assert(all.skip(0) =~= all);
    }
    while i < n
        invariant
            n == all.len(),
            n == lines@.len(),
            i <= n,
            all == lines@.map_values(|l: Vec<u8>| l@),
            spec_find_field(all, prefix@) == spec_find_field(all.skip(i as int), prefix@),
        decreases n - i,
    {
        let line = &lines[i];
        proof {
            assert(all.skip(i as int).first() == all[i as int]);
            assert(all[i as int] == line@);
            assert(all.skip(i as int).drop_first() =~= all.skip(i as int + 1));
        }
        if line.len() >= prefix.len() {
            let head = vstd::slice::slice_subrange(line.as_slice(), 0, prefix.len());
            if bytes_eq(head, prefix) {
                let rest = vstd::slice::slice_subrange(line.as_slice(), prefix.len(), line.len());
                proof {
                    assert(rest@ =~= line@.skip(prefix@.len() as int));
                    assert(starts_with(line@, prefix@));
                }
                let value = vstd::slice::slice_to_vec(trim_bytes(rest));
                return Some(value);
            }
            proof {
                assert(!starts_with(line@, prefix@));
            }
        } else {
            proof {
                assert(!starts_with(line@, prefix@));
            }
        }
        i += 1;
    }
    proof {
        assert(all.skip(n as int) =~= Seq::<Seq<u8>>::empty());
    }
    None
}

impl Content {
    /// The kind this content was parsed as.
    pub open spec fn spec_proof_type(&self) -> ProofType {
        match self {
            Content::Code(_) => ProofType::Code,
            Content::Package(_) => ProofType::Package,
            Content::Trust(_) => ProofType::Trust,
        }
    }

    /// The author this content declares.
    pub open spec fn spec_author(&self) -> PubId {
        match self {
            Content::Code(c) => c.author,
            Content::Package(c) => c.author,
            Content::Trust(c) => c.author,
        }
    }

    /// Parse a body as content of the given kind, keeping the author
    /// identity it declares. Fails exactly when the body declares no
    /// decodable author.
    pub fn parse(kind: ProofType, body: &[u8]) -> (r: Result<Content, Error>)
        ensures
            r is Ok <==> spec_content_author(body@) is Some,
            r matches Ok(c) ==> c.spec_proof_type() == kind && author_of_body(c, body@),
            r matches Err(e) ==> e == Error::InvalidContent,
    {
        let lines = split_lines(body);
        let id_text = match find_field(&lines, "from: ".as_bytes()) {
            Some(t) => t,
            None => {
                return Err(Error::InvalidContent);
            },
        };
        let id_bytes = match crypto::base64url_decode(id_text.as_slice()) {
            Some(b) => b,
            None => {
                return Err(Error::InvalidContent);
            },
        };
        let url_bytes = match find_field(&lines, "from-url: ".as_bytes()) {
            Some(t) => t,
            None => {
                return Err(Error::InvalidContent);
            },
        };
        let url = match crypto::bytes_to_string(url_bytes.as_slice()) {
            Some(u) => u,
            None => {
                return Err(Error::InvalidContent);
            },
        };
        proof {
            vstd::utf8::encode_utf8_valid_utf8(url@);
        }
        let common = ContentCommon { author: PubId::new(url, id_bytes) };
        let content = match kind {
            ProofType::Code => Content::Code(common),
            ProofType::Package => Content::Package(common),
            ProofType::Trust => Content::Trust(common),
        };
        Ok(content)
    }

    /// The kind this content was parsed as.
    pub fn proof_type(&self) -> (r: ProofType)
        ensures
            r == self.spec_proof_type(),
    {
        match self {
            Content::Code(_) => ProofType::Code,
            Content::Package(_) => ProofType::Package,
            Content::Trust(_) => ProofType::Trust,
        }
    }

    /// The identity whose key must verify the proof's signature.
    pub fn author_id(&self) -> (r: &PubId)
        ensures
            r == self.spec_author(),
    {
        match self {
            Content::Code(c) => &c.author,
            Content::Package(c) => &c.author,
            Content::Trust(c) => &c.author,
        }
    }
}

} // verus!
