//! The signing seam and the family's verifier.
//!
//! [`DeviceSigner`] is what every signing key of this crate offers: a stable
//! device id and a canonical (low-s) ECDSA P-256 signature over a 32-byte
//! prehash. [`crate::key::DeviceKey`] is the software implementation; a
//! secure element implements the same trait.

use vstd::prelude::*;

use crate::crypto::{
    ecdsa_p256_verify, ecdsa_p256_verify_prehash, ecdsa_signature_is_well_formed,
    ecdsa_normalize_s, is_high_s, sec1_key_is_valid, sec1_public_key_valid,
    signature_scalars_valid,
};
use crate::error::{Error, Result};
use crate::text::bytes_of;

verus! {

/// A device's signing key.
pub trait DeviceSigner {
    /// The device id this signer reports, as bytes.
    spec fn id_bytes(&self) -> Seq<u8>;

    /// `sig` is what this signer produces over `prehash`.
    spec fn produces(&self, prehash: Seq<u8>, sig: Seq<u8>) -> bool;

    /// Stable identifier of this signing device, matched against the
    /// `device_id` of a DID roster entry.
    fn device_id(&self) -> (r: &str)
        ensures
            bytes_of(r) == self.id_bytes(),
    ;

    /// Sign a 32-byte SHA-256 prehash; the canonical (low-s) `r || s`.
    fn sign_prehash(&self, prehash: &[u8; 32]) -> (r: [u8; 64])
        ensures
            self.produces(prehash@, r@),
            !is_high_s(r@),
    ;
}

/// What [`verify_prehash`] accepts: a valid SEC1 key, a well-formed low-s
/// signature, and ECDSA verification.
pub open spec fn accepts(pubkey: Seq<u8>, prehash: Seq<u8>, sig: Seq<u8>) -> bool {
    &&& sec1_public_key_valid(pubkey)
    &&& signature_scalars_valid(sig)
    &&& !is_high_s(sig)
    &&& ecdsa_p256_verify(pubkey, prehash, sig)
}

/// Verify a 64-byte `r || s` P-256 signature over `prehash` under a SEC1
/// public key, **rejecting high-s**: the malleability defence every
/// verifier in this crate applies.
pub fn verify_prehash(pubkey_sec1: &[u8], prehash: &[u8; 32], signature: &[u8; 64]) -> (r: Result<
    (),
>)
    ensures
        r is Ok <==> accepts(pubkey_sec1@, prehash@, signature@),
        r is Err ==> r == Err::<(), Error>(Error::Crypto),
{
    if !sec1_key_is_valid(pubkey_sec1) {
        return Err(Error::Crypto);
    }
    if !ecdsa_signature_is_well_formed(signature) {
        return Err(Error::Crypto);
    }
    if ecdsa_normalize_s(signature).is_some() {
        return Err(Error::Crypto);
    }
    if ecdsa_p256_verify_prehash(pubkey_sec1, prehash, signature) {
        Ok(())
    } else {
        Err(Error::Crypto)
    }
}

} // verus!
