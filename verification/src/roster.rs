//! The self-signed genesis roster: the identity proof embedded in a
//! self-issued mID token. Field names and the canonical byte form are those
//! of `mid-types`; the device's genesis roster has exactly one verification
//! method: itself.
//!
//! Canonical form (what the genesis signature covers):
//!
//! ```text
//! "mid-genesis-roster-v1" || version (8 BE) || len32(did) || did ||
//! vm_count (4 BE) || for each vm: len32(id) id len32(type) type
//!                                  len32(controller) controller len32(mb) mb ||
//! signed_at (8 BE)
//! ```

use vstd::prelude::*;
use vstd::utf8::valid_utf8;

use crate::crypto::{base64url, base64url_encode, sha256, sha256_digest, string_from_utf8};
use crate::did::{did_prefix, multibase_prefix, prefixed_text, Did};
use crate::signer::DeviceSigner;
use crate::text::{bytes_of, string_bytes, to_owned_string};
use crate::wire::{be32, be64, push_all};

verus! {

/// Domain separator of the genesis roster envelope: `mid-genesis-roster-v1`.
pub const GENESIS_DOMAIN: [u8; 21] = [
    0x6d, 0x69, 0x64, 0x2d, 0x67, 0x65, 0x6e, 0x65, 0x73, 0x69, 0x73, 0x2d, 0x72, 0x6f, 0x73,
    0x74, 0x65, 0x72, 0x2d, 0x76, 0x31,
];

/// The verification-method type string mID uses for every P-256 key.
pub const VM_TYPE_ECDSA_P256: &'static str = "EcdsaSecp256r1VerificationKey2019";

/// A verification method's strings, as bytes.
pub struct VmView {
    pub id: Seq<u8>,
    pub vm_type: Seq<u8>,
    pub controller: Seq<u8>,
    pub public_key_multibase: Seq<u8>,
}

/// A public key bound to a DID, minimum-fields form.
#[derive(Debug, Clone, PartialEq, Eq)]
pub struct VerificationMethod {
    /// Fully-qualified id, e.g. `did:mata:abc...#dev-laptop`.
    pub id: String,
    /// Always [`VM_TYPE_ECDSA_P256`].
    pub vm_type: String,
    /// The DID that controls this verification method.
    pub controller: String,
    /// Multibase-encoded public key.
    pub public_key_multibase: String,
}

impl View for VerificationMethod {
    type V = VmView;

    open spec fn view(&self) -> VmView {
        VmView {
            id: string_bytes(self.id),
            vm_type: string_bytes(self.vm_type),
            controller: string_bytes(self.controller),
            public_key_multibase: string_bytes(self.public_key_multibase),
        }
    }
}

/// A genesis roster, as bytes.
pub struct RosterView {
    pub version: u64,
    pub did: Seq<u8>,
    pub verification_methods: Seq<VmView>,
    pub signed_at: u64,
    pub self_signed_by_genesis_key: Seq<u8>,
}

/// The genesis roster envelope: version 1, self-signed by the key the DID
/// encodes.
#[derive(Debug, Clone)]
pub struct EmbeddedGenesisRoster {
    /// Always 1 for the genesis envelope.
    pub version: u64,
    /// The DID this roster belongs to.
    pub did: String,
    /// Verification methods present in the genesis roster.
    pub verification_methods: Vec<VerificationMethod>,
    /// When the genesis roster was signed, Unix seconds.
    pub signed_at: u64,
    /// base64url of the 64-byte `r || s` over the canonical bytes.
    pub self_signed_by_genesis_key: String,
}

impl View for EmbeddedGenesisRoster {
    type V = RosterView;

    open spec fn view(&self) -> RosterView {
        RosterView {
            version: self.version,
            did: string_bytes(self.did),
            verification_methods: self.verification_methods@.map_values(
                |v: VerificationMethod| v@,
            ),
            signed_at: self.signed_at,
            self_signed_by_genesis_key: string_bytes(self.self_signed_by_genesis_key),
        }
    }
}

/// A string behind its 32-bit length (truncated, as `mid-types` writes it).
pub open spec fn len32(b: Seq<u8>) -> Seq<u8> {
    be32(b.len() as u32) + b
}

/// One verification method's canonical bytes.
pub open spec fn vm_bytes(vm: VmView) -> Seq<u8> {
    len32(vm.id) + len32(vm.vm_type) + len32(vm.controller) + len32(vm.public_key_multibase)
}

/// The verification methods' canonical bytes, in order.
pub open spec fn vms_bytes(vms: Seq<VmView>) -> Seq<u8>
    decreases vms.len(),
{
    if vms.len() == 0 {
        Seq::<u8>::empty()
    } else {
        vms_bytes(vms.drop_last()) + vm_bytes(vms.last())
    }
}

/// The bytes the genesis signature covers; the signature field is not
/// among them.
pub open spec fn genesis_canonical(g: RosterView) -> Seq<u8> {
    GENESIS_DOMAIN@ + be64(g.version) + len32(g.did) + be32(g.verification_methods.len() as u32)
        + vms_bytes(g.verification_methods) + be64(g.signed_at)
}

/// The verification method a device publishes for a key and a device id.
pub open spec fn device_vm(key: Seq<u8>, device_id: Seq<u8>) -> VmView {
    VmView {
        id: prefixed_text(did_prefix(), key) + seq![0x23u8] + device_id,
        vm_type: bytes_of(VM_TYPE_ECDSA_P256),
        controller: prefixed_text(did_prefix(), key),
        public_key_multibase: prefixed_text(multibase_prefix(), key),
    }
}

/// The one-entry genesis roster of the key `did_key` at `signed_at`, with
/// the signer's device id, carrying base64url of a signature the signer
/// produces over its canonical bytes.
pub open spec fn is_device_genesis<S: DeviceSigner>(
    r: EmbeddedGenesisRoster,
    did_key: Seq<u8>,
    signer: &S,
    signed_at: u64,
) -> bool {
    &&& r@.version == 1
    &&& r@.did == prefixed_text(did_prefix(), did_key)
    &&& r@.verification_methods == seq![device_vm(did_key, signer.id_bytes())]
    &&& r@.signed_at == signed_at
    &&& exists|sig: Seq<u8>|
        #![trigger signer.produces(sha256_digest(genesis_canonical(r@)), sig)]
        signer.produces(sha256_digest(genesis_canonical(r@)), sig) && sig.len() == 64
            && r.self_signed_by_genesis_key@ == base64url_encode(sig)
}

/// The canonical bytes that the genesis roster's signature covers:
/// `mid_types::canonical::genesis_canonical_bytes` on the same roster. As
/// its source shows, it writes the domain, the version, the DID behind its
/// 32-bit length, the method count and each method's four strings behind
/// theirs, and `signed_at`, each length truncated to 32 bits
/// ([`genesis_canonical`]); the signature field is not read.
#[verifier::external_body]
pub fn genesis_canonical_bytes(genesis: &EmbeddedGenesisRoster) -> (r: Vec<u8>)
    ensures
        r@ == genesis_canonical(genesis@),
{
    let vms = genesis.verification_methods.iter().map(|v| mid_types::VerificationMethod {
        id: v.id.clone(),
        vm_type: v.vm_type.clone(),
        controller: v.controller.clone(),
        public_key_multibase: v.public_key_multibase.clone(),
    });
    mid_types::canonical::genesis_canonical_bytes(&mid_types::EmbeddedGenesisRoster {
        version: genesis.version,
        did: genesis.did.clone(),
        verification_methods: vms.collect(),
        signed_at: genesis.signed_at,
        self_signed_by_genesis_key: genesis.self_signed_by_genesis_key.clone(),
    })
}

/// The verification method a device publishes for its key: id
/// `<did>#<device_id>`, P-256, controlled by the DID, the key as multibase.
pub fn verification_method(did: &Did, device_id: &str) -> (r: VerificationMethod)
    ensures
        r@ == device_vm(did@, bytes_of(device_id)),
{
    let did_s = did.to_did_string();
    let mut id: Vec<u8> = Vec::new();
    push_all(&mut id, did_s.as_str().as_bytes());
    id.push(0x23);
    push_all(&mut id, device_id.as_bytes());
    proof {
        broadcast use vstd::utf8::encode_utf8_valid_utf8, vstd::utf8::valid_utf8_concat;

        assert(valid_utf8(seq![0x23u8])) by {
            reveal_with_fuel(valid_utf8, 2);
        }
        assert(id@ =~= string_bytes(did_s) + seq![0x23u8] + bytes_of(device_id));
        assert(valid_utf8(string_bytes(did_s) + seq![0x23u8]));
    }
    let id = match string_from_utf8(id) {
        Some(s) => s,
        None => String::new(),
    };
    VerificationMethod {
        id,
        vm_type: to_owned_string(VM_TYPE_ECDSA_P256),
        controller: did_s,
        public_key_multibase: did.to_multibase_string(),
    }
}

/// Sign the device's one-entry genesis roster. `did` must be the signer's
/// own DID: the roster is self-certifying only because the signing key *is*
/// the key the DID encodes.
pub fn sign_genesis_roster<S: DeviceSigner>(did: &Did, signer: &S, signed_at: u64) -> (r:
    EmbeddedGenesisRoster)
    ensures
        is_device_genesis(r, did@, signer, signed_at),
{
    let mut vms: Vec<VerificationMethod> = Vec::new();
    vms.push(verification_method(did, signer.device_id()));
    let mut genesis = EmbeddedGenesisRoster {
        version: 1,
        did: did.to_did_string(),
        verification_methods: vms,
        signed_at,
        self_signed_by_genesis_key: String::new(),
    };
    assert(genesis@.verification_methods =~= seq![device_vm(did@, signer.id_bytes())]);
    let ghost unsigned = genesis@;
    let prehash = sha256(genesis_canonical_bytes(&genesis).as_slice());
    let sig = signer.sign_prehash(&prehash);
    genesis.self_signed_by_genesis_key = base64url(&sig);
    assert(genesis@.verification_methods =~= seq![device_vm(did@, signer.id_bytes())]);
    assert(genesis_canonical(genesis@) == genesis_canonical(unsigned));
    assert(signer.produces(sha256_digest(genesis_canonical(genesis@)), sig@));
    genesis
}

/// The canonical bytes start with the domain and do not depend on the
/// signature field: re-signing never changes what is signed.
pub proof fn lemma_genesis_canonical_excludes_signature(g: RosterView, other_sig: Seq<u8>)
    ensures
        genesis_canonical(g) == genesis_canonical(
            (RosterView { self_signed_by_genesis_key: other_sig, ..g }),
        ),
        genesis_canonical(g).subrange(0, GENESIS_DOMAIN@.len() as int) == GENESIS_DOMAIN@,
{
    assert(genesis_canonical(g).subrange(0, GENESIS_DOMAIN@.len() as int) =~= GENESIS_DOMAIN@);
}

} // verus!
