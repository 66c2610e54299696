//! JWS compact form for ES256, as `mid-issuer` builds it.
//!
//! `base64url(header) "." base64url(payload) "." base64url(sig)` with the
//! fixed header `{"alg":"ES256","typ":"JWT"}` and the signature over
//! `SHA-256(base64url(header) "." base64url(payload))`.

use vstd::prelude::*;
use vstd::utf8::{encode_utf8, is_ascii_chars, valid_utf8};

use crate::crypto::{base64url, base64url_encode, is_base64url_char, sha256, sha256_digest,
    string_from_utf8};
use crate::signer::DeviceSigner;
use crate::text::{bytes_of, string_bytes};
use crate::wire::push_all;

verus! {

/// The exact header bytes. Changing them is a wire-format break.
pub const JWS_HEADER_JSON: &'static str = "{\"alg\":\"ES256\",\"typ\":\"JWT\"}";

/// The separator between segments.
pub const DOT: u8 = 0x2e;

/// A byte of the URL-safe base64 alphabet.
pub open spec fn is_base64url_byte(b: u8) -> bool {
    (0x41 <= b <= 0x5a) || (0x61 <= b <= 0x7a) || (0x30 <= b <= 0x39) || b == 0x2d || b == 0x5f
}

/// Bytes that are all of the URL-safe base64 alphabet (so hold no `.`).
pub open spec fn is_segment(b: Seq<u8>) -> bool {
    forall|i: int| 0 <= i < b.len() ==> is_base64url_byte(#[trigger] b[i])
}

/// The base64url text of `b`, as bytes.
pub open spec fn b64_bytes(b: Seq<u8>) -> Seq<u8> {
    encode_utf8(base64url_encode(b))
}

/// `base64url(header) "." base64url(payload)`: what the signature covers.
pub open spec fn signing_input(header: Seq<u8>, payload: Seq<u8>) -> Seq<u8> {
    b64_bytes(header) + seq![DOT] + b64_bytes(payload)
}

/// The compact form: the signing input, `.`, base64url of the signature.
pub open spec fn jws_compact(header: Seq<u8>, payload: Seq<u8>, sig: Seq<u8>) -> Seq<u8> {
    signing_input(header, payload) + seq![DOT] + b64_bytes(sig)
}

/// URL-safe base64 text is its alphabet's bytes, one per character.
proof fn lemma_b64_segment(s: String)
    requires
        forall|i: int| 0 <= i < s@.len() ==> is_base64url_char(#[trigger] s@[i]),
    ensures
        is_segment(string_bytes(s)),
        valid_utf8(string_bytes(s)),
{
    broadcast use vstd::utf8::encode_utf8_valid_utf8;

    assert(is_ascii_chars(s@));
    vstd::utf8::is_ascii_chars_encode_utf8(s@);
    assert forall|i: int| 0 <= i < string_bytes(s).len() implies is_base64url_byte(
        #[trigger] string_bytes(s)[i],
    ) by {
        assert(s@[i] as u8 == string_bytes(s)[i]);
        assert(is_base64url_char(s@[i]));
    }
}

/// A dot is valid UTF-8, and valid UTF-8 concatenates.
proof fn lemma_join_utf8(a: Seq<u8>, b: Seq<u8>)
    requires
        valid_utf8(a),
        valid_utf8(b),
    ensures
        valid_utf8(a + seq![DOT] + b),
{
    assert(valid_utf8(seq![DOT])) by {
        reveal_with_fuel(valid_utf8, 2);
    }
    vstd::utf8::valid_utf8_concat(a, seq![DOT]);
    vstd::utf8::valid_utf8_concat(a + seq![DOT], b);
}

/// Build a compact ES256 JWS over `payload_json`: three base64url segments
/// joined by two dots, the last being the signer's signature over the first
/// two.
pub fn build_jws_compact<S: DeviceSigner>(payload_json: &[u8], signer: &S) -> (r: String)
    ensures
        exists|sig: Seq<u8>|
            #![trigger signer.produces(
                sha256_digest(signing_input(bytes_of(JWS_HEADER_JSON), payload_json@)),
                sig,
            )]
            signer.produces(
                sha256_digest(signing_input(bytes_of(JWS_HEADER_JSON), payload_json@)),
                sig,
            ) && sig.len() == 64 && string_bytes(r) == jws_compact(
                bytes_of(JWS_HEADER_JSON),
                payload_json@,
                sig,
            ) && is_segment(b64_bytes(sig)),
        is_segment(b64_bytes(bytes_of(JWS_HEADER_JSON))),
        is_segment(b64_bytes(payload_json@)),
{
    let header_b64 = base64url(JWS_HEADER_JSON.as_bytes());
    let payload_b64 = base64url(payload_json);
    let mut out: Vec<u8> = Vec::new();
    push_all(&mut out, header_b64.as_str().as_bytes());
    out.push(DOT);
    push_all(&mut out, payload_b64.as_str().as_bytes());
    let ghost input = out@;
    let prehash = sha256(out.as_slice());
    let signature = signer.sign_prehash(&prehash);
    let sig_b64 = base64url(&signature);
    out.push(DOT);
    push_all(&mut out, sig_b64.as_str().as_bytes());
    proof {
        lemma_b64_segment(header_b64);
        lemma_b64_segment(payload_b64);
        lemma_b64_segment(sig_b64);
        assert(input =~= signing_input(bytes_of(JWS_HEADER_JSON), payload_json@));
        assert(out@ =~= jws_compact(bytes_of(JWS_HEADER_JSON), payload_json@, signature@));
        lemma_join_utf8(string_bytes(header_b64), string_bytes(payload_b64));
        lemma_join_utf8(input, string_bytes(sig_b64));
        assert(signer.produces(
            sha256_digest(signing_input(bytes_of(JWS_HEADER_JSON), payload_json@)),
            signature@,
        ));
    }
    match string_from_utf8(out) {
        Some(s) => s,
        None => String::new(),
    }
}

} // verus!
