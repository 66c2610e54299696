//! Signing the `rusty_esp_core` capability manifest.
//!
//! The manifest's canonical encoding is deterministic, so the device signs
//! `sha256("janus-manifest-v1\n" || manifest_bytes)` once and the home
//! computer's catalog can trust the claims came from the DID that made them.
//! A maker signature over `{model, firmware}` (the `Certified` tier) is the
//! same operation with the maker's key and [`MAKER_DOMAIN`].

use vstd::prelude::*;

use rusty_esp_core::capability::Manifest;

use crate::crypto::{is_high_s, p256_public_key, sha256, sha256_digest};
use crate::error::{Error, Result};
use crate::signer::{accepts, verify_prehash, DeviceSigner};
use crate::text::{byte_len, bytes_of};
use crate::wire::{be16, be16_bytes, push_all};

verus! {

/// Domain separator for a device's manifest signature: `janus-manifest-v1\n`.
pub const MANIFEST_DOMAIN: [u8; 18] = [
    0x6a, 0x61, 0x6e, 0x75, 0x73, 0x2d, 0x6d, 0x61, 0x6e, 0x69, 0x66, 0x65, 0x73, 0x74, 0x2d,
    0x76, 0x31, 0x0a,
];

/// Domain separator for a maker's attestation of `model` + `firmware`:
/// `janus-maker-v1\n`.
pub const MAKER_DOMAIN: [u8; 15] = [
    0x6a, 0x61, 0x6e, 0x75, 0x73, 0x2d, 0x6d, 0x61, 0x6b, 0x65, 0x72, 0x2d, 0x76, 0x31, 0x0a,
];

/// `rusty_esp_core::capability::Manifest`, carried through opaque.
#[verifier::external_type_specification]
#[verifier::external_body]
pub struct ExManifest<'a>(Manifest<'a>);

/// The canonical lines of `m`, or `None` when `m` does not validate.
pub uninterp spec fn manifest_encoding(m: Manifest<'_>) -> Option<Seq<u8>>;

/// `Manifest::encode`, with its error as this crate's [`Error`] variant for
/// variant. As its source shows: a manifest that does not validate is
/// refused with `InvalidFormat` before anything is written; otherwise the
/// canonical lines go to the start of `out`, and a buffer shorter than them
/// is refused with `BufferTooSmall` (the size it reports, and the bytes it
/// wrote before stopping, are not stated).
#[verifier::external_body]
fn manifest_encode(m: &Manifest<'_>, out: &mut [u8]) -> (r: Result<usize>)
    ensures
        final(out)@.len() == old(out)@.len(),
        r matches Ok(n) ==> n <= final(out)@.len(),
        r matches Ok(n) ==> manifest_encoding(*m) == Some(final(out)@.take(n as int)),
        r matches Ok(n) ==> final(out)@.skip(n as int) == old(out)@.skip(n as int),
        (manifest_encoding(*m) matches Some(b) && b.len() <= old(out)@.len()) ==> r is Ok,
        manifest_encoding(*m) is None ==> r matches Err(Error::InvalidFormat),
        manifest_encoding(*m) is None ==> final(out)@ == old(out)@,
        (manifest_encoding(*m) matches Some(b) && b.len() > old(out)@.len()) ==> r matches Err(
            Error::BufferTooSmall { .. },
        ),
{
    m.encode(out).map_err(crate::error::from_core)
}

/// The prehash a device signs over manifest bytes.
pub open spec fn manifest_prehash(bytes: Seq<u8>) -> Seq<u8> {
    sha256_digest(MANIFEST_DOMAIN@ + bytes)
}

/// The message a maker signs: `len16(model) model len16(firmware)
/// firmware` after the domain, each length truncated to 16 bits.
pub open spec fn maker_message(model: Seq<u8>, firmware: Seq<u8>) -> Seq<u8> {
    MAKER_DOMAIN@ + be16(model.len() as u16) + model + be16(firmware.len() as u16) + firmware
}

fn prehash(domain: &[u8], bytes: &[u8]) -> (r: [u8; 32])
    ensures
        r@ == sha256_digest(domain@ + bytes@),
{
    let mut m: Vec<u8> = Vec::new();
    push_all(&mut m, domain);
    push_all(&mut m, bytes);
    assert(m@ =~= domain@ + bytes@);
    sha256(m.as_slice())
}

/// Sign already-encoded manifest bytes (`Manifest::encode` output).
pub fn sign_manifest_bytes<S: DeviceSigner>(manifest_bytes: &[u8], signer: &S) -> (r: [u8; 64])
    ensures
        signer.produces(manifest_prehash(manifest_bytes@), r@),
        !is_high_s(r@),
{
    signer.sign_prehash(&prehash(&MANIFEST_DOMAIN, manifest_bytes))
}

/// Encode `manifest` into `out` and sign it; returns `(encoded_len,
/// signature)`. The signature is over the canonical lines written. A
/// manifest that does not validate is refused with `InvalidFormat`, and a
/// buffer too short for its lines with `BufferTooSmall`.
pub fn sign_manifest<S: DeviceSigner>(manifest: &Manifest<'_>, signer: &S, out: &mut [u8]) -> (r:
    Result<(usize, [u8; 64])>)
    ensures
        final(out)@.len() == old(out)@.len(),
        manifest_encoding(*manifest) is None ==> r matches Err(Error::InvalidFormat),
        manifest_encoding(*manifest) is None ==> final(out)@ == old(out)@,
        (manifest_encoding(*manifest) matches Some(b) && b.len() > old(out)@.len()) ==> r matches Err(
            Error::BufferTooSmall { .. },
        ),
        (manifest_encoding(*manifest) matches Some(b) && b.len() <= old(out)@.len()) ==> r is Ok,
        r matches Ok((n, sig)) ==> manifest_encoding(*manifest) == Some(final(out)@.take(n as int))
            && final(out)@.skip(n as int) == old(out)@.skip(n as int) && signer.produces(
            manifest_prehash(final(out)@.take(n as int)),
            sig@,
        ) && !is_high_s(sig@),
{
    let n = manifest_encode(manifest, out)?;
    let (written, _) = out.split_at(n);
    assert(written@ =~= out@.take(n as int));
    Ok((n, sign_manifest_bytes(written, signer)))
}

/// **A device's manifest signature verifies under its DID.** What a
/// [`crate::key::DeviceKey`] signs over manifest bytes is accepted by
/// [`verify_manifest`] for those bytes under the key's `did:mata` key.
pub proof fn lemma_signed_manifest_verifies(
    k: crate::key::DeviceKey,
    manifest_bytes: Seq<u8>,
    sig: Seq<u8>,
)
    requires
        k.produces(manifest_prehash(manifest_bytes), sig),
    ensures
        accepts(p256_public_key(k.secret(), true), manifest_prehash(manifest_bytes), sig),
{
    crate::key::lemma_device_key_signatures_verify(k, manifest_prehash(manifest_bytes), sig);
}

/// Verify a manifest signature under a 33-byte compressed device key.
pub fn verify_manifest(manifest_bytes: &[u8], signature: &[u8; 64], device_pubkey: &[u8]) -> (r:
    Result<()>)
    ensures
        r is Ok <==> accepts(device_pubkey@, manifest_prehash(manifest_bytes@), signature@),
        r is Err ==> r == Err::<(), Error>(Error::Crypto),
{
    verify_prehash(device_pubkey, &prehash(&MANIFEST_DOMAIN, manifest_bytes), signature)
}

/// A maker's attestation over `model` and `firmware`: `len16(model) model
/// len16(firmware) firmware`, under [`MAKER_DOMAIN`].
pub fn maker_prehash(model: &str, firmware: &str) -> (r: [u8; 32])
    ensures
        r@ == sha256_digest(maker_message(bytes_of(model), bytes_of(firmware))),
{
    let mut m: Vec<u8> = Vec::new();
    push_all(&mut m, &MAKER_DOMAIN);
    push_all(&mut m, &be16_bytes(byte_len(model) as u16));
    push_all(&mut m, model.as_bytes());
    push_all(&mut m, &be16_bytes(byte_len(firmware) as u16));
    push_all(&mut m, firmware.as_bytes());
    assert(m@ =~= maker_message(bytes_of(model), bytes_of(firmware)));
    sha256(m.as_slice())
}

/// Verify a maker attestation.
pub fn verify_maker(model: &str, firmware: &str, signature: &[u8; 64], maker_pubkey: &[u8]) -> (r:
    Result<()>)
    ensures
        r is Ok <==> accepts(
            maker_pubkey@,
            sha256_digest(maker_message(bytes_of(model), bytes_of(firmware))),
            signature@,
        ),
        r is Err ==> r == Err::<(), Error>(Error::Crypto),
{
    verify_prehash(maker_pubkey, &maker_prehash(model, firmware), signature)
}

} // verus!
