//! The calls this crate makes into `sha2`, `p256`, `bs58`, `base64` and
//! `core::str`, each behind a function whose contract Verus takes on trust.
//! Where a contract can say what the result is in a few lines it says so;
//! where the result is an algorithm (a hash, a curve operation, an encoding)
//! it is named by a specification function without a body, and only short
//! facts that the crate's documentation or source gives are stated beside
//! the name.

use vstd::prelude::*;
use vstd::utf8::valid_utf8;

use base64::Engine;
use p256::ecdsa::signature::hazmat::{PrehashSigner, PrehashVerifier};
use sha2::Digest;

use crate::text::{bytes_of, string_bytes};

verus! {

/// The order `n` of the P-256 group.
pub open spec fn p256_order() -> nat {
    0xffffffff00000000ffffffffffffffffbce6faada7179e84f3b9cac2fc632551nat
}

/// The unsigned integer that a big-endian byte string spells.
pub open spec fn be_nat(s: Seq<u8>) -> nat
    decreases s.len(),
{
    if s.len() == 0 {
        0
    } else {
        be_nat(s.drop_last()) * 256 + s.last() as nat
    }
}

/// `x` as `len` big-endian bytes (the low `len` bytes of `x`).
pub open spec fn nat_to_be(x: nat, len: nat) -> Seq<u8>
    decreases len,
{
    if len == 0 {
        Seq::<u8>::empty()
    } else {
        nat_to_be(x / 256, (len - 1) as nat).push((x % 256) as u8)
    }
}

/// A 32-byte big-endian scalar in `1..n`: a valid P-256 secret key, and a
/// valid `r` or `s` of a signature.
pub open spec fn scalar_in_range(s: Seq<u8>) -> bool {
    s.len() == 32 && 0 < be_nat(s) < p256_order()
}

/// A 64-byte `r || s` whose scalars are both in `1..n`.
pub open spec fn signature_scalars_valid(sig: Seq<u8>) -> bool {
    sig.len() == 64 && scalar_in_range(sig.subrange(0, 32)) && scalar_in_range(
        sig.subrange(32, 64),
    )
}

/// `s` is above `n / 2`: the malleable twin of a canonical signature.
pub open spec fn is_high_s(sig: Seq<u8>) -> bool {
    be_nat(sig.subrange(32, 64)) > p256_order() / 2
}

/// The signature with `s` replaced by `n - s`.
pub open spec fn low_s_twin(sig: Seq<u8>) -> Seq<u8> {
    sig.subrange(0, 32) + nat_to_be((p256_order() - be_nat(sig.subrange(32, 64))) as nat, 32)
}

/// The URL-safe base64 alphabet: `A-Z a-z 0-9 - _`.
pub open spec fn is_base64url_char(c: char) -> bool {
    ('A' <= c <= 'Z') || ('a' <= c <= 'z') || ('0' <= c <= '9') || c == '-' || c == '_'
}

/// SHA-256 of `data`.
pub uninterp spec fn sha256_digest(data: Seq<u8>) -> Seq<u8>;

/// `bytes` is a SEC1 encoding of a P-256 point other than the identity.
pub uninterp spec fn sec1_public_key_valid(bytes: Seq<u8>) -> bool;

/// The SEC1 encoding (compressed or not) of the public key of `secret`.
pub uninterp spec fn p256_public_key(secret: Seq<u8>, compressed: bool) -> Seq<u8>;

/// The RFC 6979 deterministic ECDSA P-256 signature `r || s` of `prehash`
/// under `secret`.
pub uninterp spec fn ecdsa_p256_sign(secret: Seq<u8>, prehash: Seq<u8>) -> Seq<u8>;

/// ECDSA P-256 verification of `sig` over `prehash` under `pubkey`.
pub uninterp spec fn ecdsa_p256_verify(pubkey: Seq<u8>, prehash: Seq<u8>, sig: Seq<u8>) -> bool;

/// The x-coordinate of the ECDH shared point of `secret` and `pubkey`.
pub uninterp spec fn ecdh_p256_shared_x(secret: Seq<u8>, pubkey: Seq<u8>) -> Seq<u8>;

/// The Bitcoin-alphabet base58 text of `bytes`.
pub uninterp spec fn base58_encode(bytes: Seq<u8>) -> Seq<u8>;

/// The bytes a Bitcoin-alphabet base58 text spells, or `None` when a
/// character is outside the alphabet.
pub uninterp spec fn base58_decode(text: Seq<u8>) -> Option<Seq<u8>>;

/// Unpadded URL-safe base64 of `bytes`.
pub uninterp spec fn base64url_encode(bytes: Seq<u8>) -> Seq<char>;

/// `sha2::Sha256::digest`: the SHA-256 of `data`. The contract names the
/// digest; nothing about the hash function itself is claimed.
#[verifier::external_body]
pub fn sha256(data: &[u8]) -> (r: [u8; 32])
    ensures
        r@ == sha256_digest(data@),
{
    sha2::Sha256::digest(data).into()
}

/// `core::str::from_utf8`, as its documentation states it: `Ok` exactly
/// when the bytes are valid UTF-8, and then the string has those bytes.
#[verifier::external_body]
pub(crate) fn utf8_str<'a>(bytes: &'a [u8]) -> (r: Option<&'a str>)
    ensures
        r is Some <==> valid_utf8(bytes@),
        r matches Some(s) ==> bytes_of(s) == bytes@,
{
    core::str::from_utf8(bytes).ok()
}

/// `String::from_utf8`, as its documentation states it: `Ok` exactly when
/// the bytes are valid UTF-8, and then the string has those bytes.
#[verifier::external_body]
pub(crate) fn string_from_utf8(bytes: Vec<u8>) -> (r: Option<String>)
    ensures
        r is Some <==> valid_utf8(bytes@),
        r matches Some(s) ==> string_bytes(s) == bytes@,
{
    String::from_utf8(bytes).ok()
}

/// `<&[u8; N]>::try_from(&[u8])`: succeeds exactly when the length is `N`.
#[verifier::external_body]
pub(crate) fn as_array<const N: usize>(s: &[u8]) -> (r: Option<&[u8; N]>)
    ensures
        r is Some <==> s@.len() == N,
        r matches Some(a) ==> a@ == s@,
{
    s.try_into().ok()
}

/// `p256::ecdsa::SigningKey::from_bytes`: accepts exactly the big-endian
/// scalars in `1..n` (elliptic-curve's `SecretKey::from_bytes` rejects zero
/// and anything not below the order).
#[verifier::external_body]
pub(crate) fn p256_secret_is_valid(secret: &[u8; 32]) -> (r: bool)
    ensures
        r == scalar_in_range(secret@),
{
    p256::ecdsa::SigningKey::from_bytes(&(*secret).into()).is_ok()
}

/// `VerifyingKey::to_encoded_point(true)` of the key of `secret`: the
/// 33-byte compressed point, tagged `0x02` or `0x03`, which decodes again.
#[verifier::external_body]
pub(crate) fn p256_public_key_compressed(secret: &[u8; 32]) -> (r: [u8; 33])
    requires
        scalar_in_range(secret@),
    ensures
        r@ == p256_public_key(secret@, true),
        r@[0] == 2 || r@[0] == 3,
        sec1_public_key_valid(r@),
{
    let key = p256::ecdsa::SigningKey::from_bytes(&(*secret).into()).unwrap();
    let point = key.verifying_key().to_encoded_point(true);
    let mut out = [0u8; 33];
    out.copy_from_slice(point.as_bytes());
    out
}

/// `VerifyingKey::to_encoded_point(false)` of the key of `secret`: the
/// 65-byte uncompressed point, tagged `0x04`, which decodes again.
#[verifier::external_body]
pub(crate) fn p256_public_key_uncompressed(secret: &[u8; 32]) -> (r: [u8; 65])
    requires
        scalar_in_range(secret@),
    ensures
        r@ == p256_public_key(secret@, false),
        r@[0] == 4,
        sec1_public_key_valid(r@),
{
    let key = p256::ecdsa::SigningKey::from_bytes(&(*secret).into()).unwrap();
    let point = key.verifying_key().to_encoded_point(false);
    let mut out = [0u8; 65];
    out.copy_from_slice(point.as_bytes());
    out
}

/// `PrehashSigner::sign_prehash` of `p256::ecdsa::SigningKey`: the RFC 6979
/// signature, whose scalars are in range (a `Signature` holds no others),
/// and which the key's own `VerifyingKey` accepts over the same prehash
/// (what an ECDSA signature is).
#[verifier::external_body]
pub(crate) fn ecdsa_p256_sign_prehash(secret: &[u8; 32], prehash: &[u8; 32]) -> (r: [u8; 64])
    requires
        scalar_in_range(secret@),
    ensures
        r@ == ecdsa_p256_sign(secret@, prehash@),
        signature_scalars_valid(r@),
        ecdsa_p256_verify(p256_public_key(secret@, true), prehash@, r@),
{
    let key = p256::ecdsa::SigningKey::from_bytes(&(*secret).into()).unwrap();
    let sig: p256::ecdsa::Signature = key.sign_prehash(prehash).unwrap();
    sig.to_bytes().into()
}

/// `p256::ecdsa::Signature::from_slice`: accepts a 64-byte `r || s` whose
/// scalars are both in `1..n`.
#[verifier::external_body]
pub(crate) fn ecdsa_signature_is_well_formed(sig: &[u8; 64]) -> (r: bool)
    ensures
        r == signature_scalars_valid(sig@),
{
    p256::ecdsa::Signature::from_slice(sig).is_ok()
}

/// `Signature::normalize_s`: `None` when `s <= n / 2`, else the signature
/// with `s` replaced by `n - s` (BIP 62), which ECDSA verification accepts
/// wherever it accepts the signature it came from: `(r, s)` and `(r, n - s)`
/// verify alike.
#[verifier::external_body]
pub(crate) fn ecdsa_normalize_s(sig: &[u8; 64]) -> (r: Option<[u8; 64]>)
    requires
        signature_scalars_valid(sig@),
    ensures
        r is Some <==> is_high_s(sig@),
        r matches Some(n) ==> n@ == low_s_twin(sig@) && signature_scalars_valid(n@)
            && !is_high_s(n@),
        r matches Some(n) ==> forall|pk: Seq<u8>, h: Seq<u8>|
            #[trigger] ecdsa_p256_verify(pk, h, sig@) ==> ecdsa_p256_verify(pk, h, n@),
{
    match p256::ecdsa::Signature::from_slice(sig).unwrap().normalize_s() {
        Some(n) => Some(n.to_bytes().into()),
        None => None,
    }
}

/// `p256::ecdsa::VerifyingKey::from_sec1_bytes` succeeds.
#[verifier::external_body]
pub(crate) fn sec1_key_is_valid(pubkey: &[u8]) -> (r: bool)
    ensures
        r == sec1_public_key_valid(pubkey@),
{
    p256::ecdsa::VerifyingKey::from_sec1_bytes(pubkey).is_ok()
}

/// `PrehashVerifier::verify_prehash` of `p256::ecdsa::VerifyingKey`, named.
#[verifier::external_body]
pub(crate) fn ecdsa_p256_verify_prehash(pubkey: &[u8], prehash: &[u8; 32], sig: &[u8; 64]) -> (r: bool)
    requires
        sec1_public_key_valid(pubkey@),
        signature_scalars_valid(sig@),
    ensures
        r == ecdsa_p256_verify(pubkey@, prehash@, sig@),
{
    let key = p256::ecdsa::VerifyingKey::from_sec1_bytes(pubkey).unwrap();
    let sig = p256::ecdsa::Signature::from_slice(sig).unwrap();
    key.verify_prehash(prehash, &sig).is_ok()
}

/// `p256::ecdh::diffie_hellman` with the key of `secret` and the point
/// `their`; `None` exactly when `p256::PublicKey::from_sec1_bytes` refuses
/// the point (the same check as `VerifyingKey::from_sec1_bytes`). The one
/// property Diffie-Hellman is for is stated: when `their` is the public key
/// of another secret, that secret with this key's public key gives the same
/// shared x-coordinate.
#[verifier::external_body]
pub(crate) fn ecdh_p256(secret: &[u8; 32], their: &[u8; 33]) -> (r: Option<[u8; 32]>)
    requires
        scalar_in_range(secret@),
    ensures
        r is Some <==> sec1_public_key_valid(their@),
        r matches Some(x) ==> x@ == ecdh_p256_shared_x(secret@, their@),
        r matches Some(x) ==> forall|other: Seq<u8>|
            scalar_in_range(other) && their@ == p256_public_key(other, true) ==> x@
                == #[trigger] ecdh_p256_shared_x(other, p256_public_key(secret@, true)),
{
    let their_pk = match p256::PublicKey::from_sec1_bytes(their) {
        Ok(pk) => pk,
        Err(_) => return None,
    };
    let key = p256::ecdsa::SigningKey::from_bytes(&(*secret).into()).unwrap();
    let shared = p256::ecdh::diffie_hellman(key.as_nonzero_scalar(), their_pk.as_affine());
    let mut out = [0u8; 32];
    out.copy_from_slice(shared.raw_secret_bytes());
    Some(out)
}

/// `bs58::encode(input).onto(out)`: writes the base58 text at the start of
/// `out` and leaves the rest alone; refuses (`None`) exactly when the text
/// does not fit. The text is ASCII, empty only for empty input, and decodes
/// back to the input; 33 bytes never need more than 46 characters
/// (`256^33 < 58^46`).
#[verifier::external_body]
pub(crate) fn base58_encode_onto(input: &[u8], out: &mut [u8]) -> (r: Option<usize>)
    ensures
        final(out)@.len() == old(out)@.len(),
        r is Some <==> base58_encode(input@).len() <= old(out)@.len(),
        input@.len() == 33 && old(out)@.len() >= 46 ==> r is Some,
        r matches Some(n) ==> {
            &&& n == base58_encode(input@).len()
            &&& final(out)@.subrange(0, n as int) == base58_encode(input@)
            &&& final(out)@.subrange(n as int, old(out)@.len() as int) == old(out)@.subrange(
                n as int,
                old(out)@.len() as int,
            )
            &&& forall|i: int| 0 <= i < n ==> final(out)@[i] < 0x80
            &&& base58_decode(final(out)@.subrange(0, n as int)) == Some(input@)
            &&& (input@.len() > 0 ==> n > 0)
            &&& (input@.len() == 33 ==> n <= 46)
        },
{
    bs58::encode(input).onto(out).ok()
}

/// `bs58::decode(text).onto(out)`: writes the decoded bytes at the start of
/// `out`; refuses (`None`) exactly when a character is outside the alphabet
/// or the bytes do not fit. A text that decodes is the encoding of what it
/// decodes to.
#[verifier::external_body]
pub(crate) fn base58_decode_onto(text: &[u8], out: &mut [u8]) -> (r: Option<usize>)
    ensures
        final(out)@.len() == old(out)@.len(),
        r is Some <==> (base58_decode(text@) matches Some(b) && b.len() <= old(out)@.len()),
        r matches Some(n) ==> {
            &&& n <= old(out)@.len()
            &&& base58_decode(text@) == Some(final(out)@.subrange(0, n as int))
            &&& base58_encode(final(out)@.subrange(0, n as int)) == text@
        },
{
    bs58::decode(text).onto(out).ok()
}

/// `base64::engine::general_purpose::URL_SAFE_NO_PAD.encode`: named; every
/// character is from the URL-safe alphabet.
#[verifier::external_body]
pub(crate) fn base64url(bytes: &[u8]) -> (r: String)
    ensures
        r@ == base64url_encode(bytes@),
        forall|i: int| 0 <= i < r@.len() ==> is_base64url_char(#[trigger] r@[i]),
{
    base64::engine::general_purpose::URL_SAFE_NO_PAD.encode(bytes)
}

} // verus!
