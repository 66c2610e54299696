//! The self-issued mID token: what a device presents to any relying party
//! that runs `mid-verify`, including the home computer's sign-in kit.
//!
//! Payload field names are `mid-issuer`'s. A device is its own genesis
//! roster with no chain, so the token carries one verification method and
//! its size is the floor of what an mID token can be. This module decides
//! every field of the payload but the claims; laying the payload out as
//! JSON is the application's, and [`crate::jws::build_jws_compact`] signs
//! the JSON.

use vstd::prelude::*;

use crate::did::{did_prefix, prefixed_text, Did};
use crate::error::{Error, Result};
use crate::roster::{device_vm, is_device_genesis, sign_genesis_roster, VerificationMethod, VmView};
use crate::signer::DeviceSigner;
use crate::text::{byte_len, bytes_of, string_bytes, to_owned_string};

verus! {

/// The verification method as the token embeds it.
#[derive(Debug, Clone, PartialEq, Eq)]
pub struct EmbeddedVerificationMethod {
    /// Fully-qualified id, e.g. `did:mata:abc...#dev-laptop`.
    pub id: String,
    /// Always the P-256 verification-method type.
    pub vm_type: String,
    /// The DID that controls this verification method.
    pub controller: String,
    /// Multibase-encoded public key.
    pub public_key_multibase: String,
}

impl View for EmbeddedVerificationMethod {
    type V = VmView;

    open spec fn view(&self) -> VmView {
        VmView {
            id: string_bytes(self.id),
            vm_type: string_bytes(self.vm_type),
            controller: string_bytes(self.controller),
            public_key_multibase: string_bytes(self.public_key_multibase),
        }
    }
}

/// The verification method as the token embeds it.
pub fn embedded_vm(vm: VerificationMethod) -> (r: EmbeddedVerificationMethod)
    ensures
        r@ == vm@,
{
    EmbeddedVerificationMethod {
        id: vm.id,
        vm_type: vm.vm_type,
        controller: vm.controller,
        public_key_multibase: vm.public_key_multibase,
    }
}

/// What a relying party asks a device to sign in with: its audience and a
/// single-use nonce.
#[derive(Debug, Clone, PartialEq, Eq)]
pub struct SignInRequest<'a> {
    /// The RP's audience (its exact origin).
    pub audience: &'a str,
    /// The RP-issued single-use nonce.
    pub nonce: &'a str,
}

/// Every field of a self-issued token's payload but the claims.
#[derive(Debug, Clone)]
pub struct TokenFields {
    /// Issuer: the device's DID.
    pub iss: String,
    /// Subject: the same DID.
    pub sub: String,
    /// Audience, echoed from the request.
    pub aud: String,
    /// Issued-at, Unix seconds.
    pub iat: u64,
    /// Expiry, Unix seconds.
    pub exp: u64,
    /// Nonce, echoed from the request.
    pub nonce: String,
    /// The device's self-signed genesis roster.
    pub embedded_genesis_roster: crate::roster::EmbeddedGenesisRoster,
    /// The key signing the token, as the roster lists it.
    pub embedded_verification_method: EmbeddedVerificationMethod,
}

/// `a + b`, or `u64::MAX` when that overflows.
pub open spec fn sat_add(a: u64, b: u64) -> u64 {
    if a + b > u64::MAX {
        u64::MAX
    } else {
        (a + b) as u64
    }
}

/// When the genesis roster of a token issued at `iat` is signed: a second
/// earlier, but never before 1.
pub open spec fn genesis_time(iat: u64) -> u64 {
    if iat <= 2 {
        1
    } else {
        (iat - 1) as u64
    }
}

fn copy_vm(vm: &VerificationMethod) -> (r: VerificationMethod)
    ensures
        r@ == vm@,
{
    VerificationMethod {
        id: vm.id.clone(),
        vm_type: vm.vm_type.clone(),
        controller: vm.controller.clone(),
        public_key_multibase: vm.public_key_multibase.clone(),
    }
}

/// Decide the payload of a self-issued mID token for `did`, whose key is
/// `signer`: an empty audience or nonce, or a zero lifetime, is refused;
/// otherwise the DID is issuer and subject, the request is echoed, the
/// token lives `ttl_secs` from `iat` (saturating), and the genesis roster is
/// signed a second before `iat` (never before 1).
///
/// `iat` is the current Unix time (from the host or the hub; a device's own
/// clock is monotonic only), `ttl_secs` the validity window (mID ships ~1 h).
pub fn self_issued_token_fields<S: DeviceSigner>(
    did: &Did,
    signer: &S,
    request: &SignInRequest<'_>,
    iat: u64,
    ttl_secs: u64,
) -> (r: Result<TokenFields>)
    ensures
        r is Err <==> (bytes_of(request.audience).len() == 0 || bytes_of(request.nonce).len() == 0
            || ttl_secs == 0),
        r is Err ==> r == Err::<TokenFields, Error>(Error::InvalidFormat),
        r matches Ok(t) ==> {
            &&& string_bytes(t.iss) == prefixed_text(did_prefix(), did@)
            &&& string_bytes(t.sub) == prefixed_text(did_prefix(), did@)
            &&& string_bytes(t.aud) == bytes_of(request.audience)
            &&& string_bytes(t.nonce) == bytes_of(request.nonce)
            &&& t.iat == iat
            &&& t.exp == sat_add(iat, ttl_secs)
            &&& is_device_genesis(t.embedded_genesis_roster, did@, signer, genesis_time(iat))
            &&& t.embedded_verification_method@ == device_vm(did@, signer.id_bytes())
        },
{
    if byte_len(request.audience) == 0 || byte_len(request.nonce) == 0 || ttl_secs == 0 {
        return Err(Error::InvalidFormat);
    }
    let signed_at = if iat <= 2 {
        1
    } else {
        iat - 1
    };
    let genesis = sign_genesis_roster(did, signer, signed_at);
    let vm = copy_vm(&genesis.verification_methods[0]);
    let did_s = did.to_did_string();
    let exp = if iat > u64::MAX - ttl_secs {
        u64::MAX
    } else {
        iat + ttl_secs
    };
    Ok(TokenFields {
        iss: did_s.clone(),
        sub: did_s,
        aud: to_owned_string(request.audience),
        iat,
        exp,
        nonce: to_owned_string(request.nonce),
        embedded_genesis_roster: genesis,
        embedded_verification_method: embedded_vm(vm),
    })
}

} // verus!
