//! Content identities: SHA-256 over the RFC 8785 canonical form of a JSON
//! document, written `sha256:` followed by 64 lowercase hexadecimal digits.

use vstd::prelude::*;
use crate::json::{JsonValue, render, to_text};
use crate::identity::{is_sha256_text, is_lower_hex};
use crate::text::string_from_chars;

verus! {

/// What `sha2::Sha256::digest` returns for these bytes.
pub uninterp spec fn sha256_digest(data: Seq<u8>) -> Seq<u8>;

/// What `serde_json_canonicalizer::pipe` returns for this JSON text: the
/// RFC 8785 canonical text, or nothing when the text is refused.
pub uninterp spec fn canonical_text(text: Seq<char>) -> Option<Seq<char>>;

/// `sha2::Sha256::digest`: the SHA-256 digest of the bytes, which is 32
/// bytes long. Nothing else about the digest is claimed; it is named.
#[verifier::external_body]
fn sha256(data: &[u8]) -> (r: Vec<u8>)
    ensures
        r@ == sha256_digest(data@),
        r@.len() == 32,
{
    <sha2::Sha256 as sha2::Digest>::digest(data).to_vec()
}

/// `serde_json_canonicalizer::pipe`: reads JSON text with `serde_json` and
/// writes it in RFC 8785 canonical form (members sorted by UTF-16 key,
/// ECMAScript number form, minimal escapes). The result is named; the
/// contract claims only that it is a function of the text.
#[verifier::external_body]
fn canonicalize(text: &str) -> (r: Option<String>)
    ensures
        r matches Some(c) ==> canonical_text(text@) == Some(c@),
        r is None ==> canonical_text(text@) is None,
{
    serde_json_canonicalizer::pipe(text).ok()
}

/// One lowercase hexadecimal digit.
pub open spec fn hex_lower_digit(n: u8) -> char {
    if n < 10 { (48 + n) as char } else { (87 + n) as char }
}

/// Lowercase hexadecimal text of bytes, two digits per byte.
pub open spec fn hex_lower(bytes: Seq<u8>) -> Seq<char>
    decreases bytes.len(),
{
    if bytes.len() == 0 {
        Seq::empty()
    } else {
        hex_lower(bytes.drop_last()) + seq![hex_lower_digit(bytes.last() / 16), hex_lower_digit(bytes.last() % 16)]
    }
}

pub open spec fn sha256_prefix() -> Seq<char> {
    seq!['s', 'h', 'a', '2', '5', '6', ':']
}

/// The identity text of some bytes.
pub open spec fn sha256_text(data: Seq<u8>) -> Seq<char> {
    sha256_prefix() + hex_lower(sha256_digest(data))
}

/// The UTF-8 bytes of the canonical text of a JSON value, when
/// canonicalization accepts it.
pub open spec fn canonical_bytes_of(v: crate::json::Json) -> Option<Seq<u8>> {
    match canonical_text(render(v)) {
        Some(c) => Some(vstd::utf8::encode_utf8(c)),
        None => None,
    }
}

/// The content identity of a JSON value: the SHA-256 identity of the UTF-8
/// bytes of its canonical text, when canonicalization accepts it.
pub open spec fn content_id(v: crate::json::Json) -> Option<Seq<char>> {
    match canonical_bytes_of(v) {
        Some(b) => Some(sha256_text(b)),
        None => None,
    }
}

fn hex_digit_exec(n: u8) -> (c: char)
    requires
        n < 16,
    ensures
        c == hex_lower_digit(n),
        is_lower_hex(c),
{
    let d: u8 = if n < 10 { 48 + n } else { 87 + n };
    d as char
}

proof fn lemma_hex_len(bytes: Seq<u8>)
    ensures
        hex_lower(bytes).len() == 2 * bytes.len(),
        forall|i: int| 0 <= i < hex_lower(bytes).len() ==> is_lower_hex(#[trigger] hex_lower(bytes)[i]),
    decreases bytes.len(),
{
    if bytes.len() > 0 {
        lemma_hex_len(bytes.drop_last());
        let a = bytes.last() / 16;
        let b = bytes.last() % 16;
        assert(is_lower_hex(hex_lower_digit(a)));
        assert(is_lower_hex(hex_lower_digit(b)));
        let h = hex_lower(bytes);
        assert forall|i: int| 0 <= i < h.len() implies is_lower_hex(#[trigger] h[i]) by {
            if i < h.len() - 2 {
                assert(h[i] == hex_lower(bytes.drop_last())[i]);
            }
        }
    }
}

/// `sha256:` and the lowercase hexadecimal SHA-256 digest of the bytes.
pub fn sha256_identity(data: &[u8]) -> (r: String)
    ensures
        r@ == sha256_text(data@),
        is_sha256_text(r@),
{
    let digest = sha256(data);
    let mut out: Vec<char> = Vec::new();
    out.push('s');
    out.push('h');
    out.push('a');
    out.push('2');
    out.push('5');
    out.push('6');
    out.push(':');
    let mut i: usize = 0;
    while i < digest.len()
        invariant
            i <= digest.len(),
            digest@.len() == 32,
            out@ == sha256_prefix() + hex_lower(digest@.subrange(0, i as int)),
        decreases digest.len() - i,
    {
        let b = digest[i];
        let hi = hex_digit_exec(b / 16);
        let lo = hex_digit_exec(b % 16);
        out.push(hi);
        out.push(lo);
        assert(digest@.subrange(0, i + 1).drop_last() =~= digest@.subrange(0, i as int));
        i = i + 1;
        assert(out@ =~= sha256_prefix() + hex_lower(digest@.subrange(0, i as int)));
    }
    assert(digest@.subrange(0, 32) =~= digest@);
    proof {
        lemma_hex_len(digest@);
        assert(out@.subrange(0, 7) =~= seq!['s', 'h', 'a', '2', '5', '6', ':']);
        assert forall|k: int| 7 <= k < 71 implies is_lower_hex(#[trigger] out@[k]) by {
            assert(out@[k] == hex_lower(digest@)[k - 7]);
        }
    }
    string_from_chars(out.as_slice())
}

/// The canonical bytes of a JSON value, or `None` when the canonical
/// serializer refuses the document.
pub fn canonical_bytes(v: &JsonValue) -> (r: Option<Vec<u8>>)
    ensures
        r matches Some(b) ==> canonical_bytes_of(v@) == Some(b@),
        r is None ==> canonical_bytes_of(v@) is None,
{
    let text = to_text(v);
    match canonicalize(text.as_str()) {
        Some(canonical) => {
            let bytes = canonical.as_str().as_bytes();
            Some(vstd::slice::slice_to_vec(bytes))
        },
        None => None,
    }
}

/// The content identity of a JSON value, or `None` when the canonical
/// serializer refuses the document.
pub fn json_content_id(v: &JsonValue) -> (r: Option<String>)
    ensures
        r matches Some(id) ==> content_id(v@) == Some(id@) && is_sha256_text(id@),
        r is None ==> content_id(v@) is None,
{
    match canonical_bytes(v) {
        Some(bytes) => Some(sha256_identity(bytes.as_slice())),
        None => None,
    }
}


/// The canonical text of a JSON value, or `None` when the canonical
/// serializer refuses the document.
pub fn canonical_form(v: &JsonValue) -> (r: Option<String>)
    ensures
        r matches Some(c) ==> canonical_text(render(v@)) == Some(c@),
        r is None ==> canonical_text(render(v@)) is None,
{
    let text = to_text(v);
    canonicalize(text.as_str())
}

} // verus!
