//! The device key: generated once from the chip's TRNG, persisted through the
//! [`Kv`] seam, never leaving the process in plaintext except to that seam.
//!
//! A chip backend states what the `Kv` partition actually guarantees (NVS
//! encryption on, key-encryption key in eFuse); this module does not
//! encrypt. A backend with a secure element implements [`DeviceSigner`]
//! directly and never constructs a `DeviceKey` at all.

use vstd::prelude::*;

use crate::crypto::{
    ecdh_p256, ecdh_p256_shared_x, ecdsa_normalize_s, ecdsa_p256_sign, ecdsa_p256_sign_prehash,
    is_high_s, low_s_twin, p256_public_key, p256_public_key_compressed,
    p256_public_key_uncompressed, p256_secret_is_valid, scalar_in_range, sha256, sha256_digest,
    signature_scalars_valid, utf8_str,
};
use crate::did::{is_did_key, Did};
use crate::error::{Error, Result};
use crate::hal::{is_kv_key, is_kv_key_byte, Kv, Rng};
use crate::signer::{accepts, DeviceSigner};
use crate::text::{bytes_eq, bytes_of, is_ascii_bytes, is_utf8, lemma_ascii_is_utf8};
use crate::wire::{copy_into, push_all};

verus! {

/// Longest device id, in bytes. Matched against a roster entry's `device_id`.
pub const MAX_DEVICE_ID_LEN: usize = 32;

/// The default device id a Janus firmware uses when a maker sets none.
pub const DEFAULT_DEVICE_ID: &'static str = "janus";

/// Attempts before giving up on an entropy source that keeps producing
/// out-of-range scalars (probability per draw is about 2^-32; eight tries
/// is a defect report, not bad luck).
pub const GENERATE_ATTEMPTS: usize = 8;

/// The suffix hashed after the seed by [`DeviceKey::from_seed_for_tests`].
pub const TEST_SEED_SUFFIX: [u8; 24] = [
    0x2d, 0x72, 0x75, 0x73, 0x74, 0x79, 0x2d, 0x65, 0x73, 0x70, 0x2d, 0x6d, 0x69, 0x64, 0x2d,
    0x74, 0x65, 0x73, 0x74, 0x2d, 0x73, 0x65, 0x65, 0x64,
];

/// A byte allowed in a device id: `[A-Za-z0-9_.-]`.
pub open spec fn is_id_byte(b: u8) -> bool {
    (0x30 <= b <= 0x39) || (0x41 <= b <= 0x5a) || (0x61 <= b <= 0x7a) || b == 0x5f || b == 0x2e
        || b == 0x2d
}

/// A device id: 1 to 32 bytes of `[A-Za-z0-9_.-]`.
pub open spec fn is_device_id(b: Seq<u8>) -> bool {
    &&& 1 <= b.len() <= MAX_DEVICE_ID_LEN
    &&& forall|i: int| 0 <= i < b.len() ==> is_id_byte(#[trigger] b[i])
}

/// **Device ids are the documented alphabet.** A byte string is a device id
/// exactly when it has 1 to 32 bytes, each an ASCII digit (`0x30..=0x39`),
/// upper-case letter (`0x41..=0x5a`), lower-case letter (`0x61..=0x7a`),
/// `_`, `.` or `-`; so [`DeviceId::new`] accepts every such string, upper
/// case included, and nothing else.
pub proof fn lemma_device_id_alphabet(b: Seq<u8>)
    ensures
        is_device_id(b) <==> (1 <= b.len() <= 32 && forall|i: int|
            0 <= i < b.len() ==> (0x30 <= #[trigger] b[i] <= 0x39 || 0x41 <= b[i] <= 0x5a || 0x61
                <= b[i] <= 0x7a || b[i] == 0x5f || b[i] == 0x2e || b[i] == 0x2d)),
{
}

fn id_byte_ok(b: u8) -> (r: bool)
    ensures
        r == is_id_byte(b),
{
    (0x30 <= b && b <= 0x39) || (0x41 <= b && b <= 0x5a) || (0x61 <= b && b <= 0x7a) || b == 0x5f
        || b == 0x2e || b == 0x2d
}

/// A short, stable, ASCII identifier for the signing device: the string
/// `DeviceSigner::device_id` returns and the roster lists.
#[derive(Debug, Clone, Copy, Eq)]
pub struct DeviceId {
    bytes: [u8; MAX_DEVICE_ID_LEN],
    len: u8,
}

impl View for DeviceId {
    type V = Seq<u8>;

    /// The id's bytes.
    closed spec fn view(&self) -> Seq<u8> {
        self.bytes@.subrange(0, self.len as int)
    }
}

impl PartialEq for DeviceId {
    fn eq(&self, other: &Self) -> (r: bool) {
        proof {
            use_type_invariant(self);
            use_type_invariant(other);
        }
        let (a, _) = self.bytes.as_slice().split_at(self.len as usize);
        let (b, _) = other.bytes.as_slice().split_at(other.len as usize);
        bytes_eq(a, b)
    }
}

impl vstd::std_specs::cmp::PartialEqSpecImpl for DeviceId {
    open spec fn obeys_eq_spec() -> bool {
        true
    }

    open spec fn eq_spec(&self, other: &DeviceId) -> bool {
        self@ == other@
    }
}

impl DeviceId {
    #[verifier::type_invariant]
    spec fn inv(self) -> bool {
        &&& self.len as int <= MAX_DEVICE_ID_LEN
        &&& is_device_id(self@)
    }

    /// Validate and store a device id: 1 to 32 bytes of `[A-Za-z0-9_.-]`.
    pub fn new(id: &str) -> (r: Result<Self>)
        ensures
            r is Ok <==> is_device_id(bytes_of(id)),
            r matches Ok(d) ==> d@ == bytes_of(id),
            r is Err ==> r == Err::<DeviceId, Error>(Error::InvalidFormat),
    {
        let b = id.as_bytes();
        if b.len() == 0 || b.len() > MAX_DEVICE_ID_LEN {
            return Err(Error::InvalidFormat);
        }
        let mut i: usize = 0;
        while i < b.len()
            invariant
                b@ == bytes_of(id),
                1 <= b@.len() <= MAX_DEVICE_ID_LEN,
                i <= b@.len(),
                forall|j: int| 0 <= j < i ==> is_id_byte(#[trigger] b@[j]),
            decreases b@.len() - i,
        {
            if !id_byte_ok(b[i]) {
                return Err(Error::InvalidFormat);
            }
            i += 1;
        }
        let mut bytes = [0u8; MAX_DEVICE_ID_LEN];
        copy_into(&mut bytes, 0, b);
        let d = DeviceId { bytes, len: b.len() as u8 };
        assert(d@ =~= b@);
        Ok(d)
    }

    /// The id.
    pub fn as_str(&self) -> (r: &str)
        ensures
            bytes_of(r) == self@,
    {
        proof {
            use_type_invariant(self);
        }
        let (id, _) = self.bytes.as_slice().split_at(self.len as usize);
        proof {
            assert(id@ == self@);
            assert(is_ascii_bytes(id@)) by {
                assert forall|i: int| 0 <= i < id@.len() implies #[trigger] id@[i] < 0x80 by {
                    assert(is_id_byte(self@[i]));
                }
            }
            lemma_ascii_is_utf8(id@);
            reveal(is_utf8);
        }
        match utf8_str(id) {
            Some(s) => s,
            None => DEFAULT_DEVICE_ID,
        }
    }
}

/// The canonical (low-s) form of a signature.
pub open spec fn low_s(sig: Seq<u8>) -> Seq<u8> {
    if is_high_s(sig) {
        low_s_twin(sig)
    } else {
        sig
    }
}

/// What [`DeviceKey::from_secret`] decides: the id first, then the scalar.
pub open spec fn from_secret_spec(secret: Seq<u8>, device_id: Seq<u8>) -> core::result::Result<
    (),
    Error,
> {
    if !is_device_id(device_id) {
        Err(Error::InvalidFormat)
    } else if !scalar_in_range(secret) {
        Err(Error::Crypto)
    } else {
        Ok(())
    }
}

/// What a stored value decides when it was read into a 32-byte buffer:
/// nothing stored, a 32-byte secret, or a value of another length.
pub open spec fn stored_outcome(
    got: Option<usize>,
    secret: Seq<u8>,
    device_id: Seq<u8>,
) -> core::result::Result<Option<Seq<u8>>, Error> {
    match got {
        None => Ok(None),
        Some(n) => if n == 32 {
            match from_secret_spec(secret, device_id) {
                Ok(_) => Ok(Some(secret)),
                Err(e) => Err(e),
            }
        } else {
            Err(Error::Corrupt)
        },
    }
}

/// [`DeviceKey::KV_KEY`] is a key that `rusty_esp_core`'s stores accept, so
/// a `MemoryKv` serves it.
pub proof fn lemma_kv_key_is_a_store_key()
    ensures
        is_kv_key(bytes_of(DeviceKey::KV_KEY)),
{
    reveal_strlit("mid.devkey");
    let c = DeviceKey::KV_KEY@;
    assert(vstd::utf8::is_ascii_chars(c));
    vstd::utf8::is_ascii_chars_encode_utf8(c);
    assert forall|i: int| 0 <= i < c.len() implies is_kv_key_byte(#[trigger] bytes_of(
        DeviceKey::KV_KEY,
    )[i]) by {
        assert(c[i] as u8 == bytes_of(DeviceKey::KV_KEY)[i]);
    }
}

/// What loading makes of `value`, the value a store holds under
/// [`DeviceKey::KV_KEY`], read into a 32-byte buffer: nothing stored, a
/// value too long for the buffer, a 32-byte secret that makes a key (or the
/// error it makes), or a shorter value, which is corrupt.
pub open spec fn load_outcome(
    value: Option<Seq<u8>>,
    device_id: Seq<u8>,
) -> core::result::Result<Option<Seq<u8>>, Error> {
    match value {
        None => Ok(None),
        Some(v) => if v.len() > 32 {
            Err(Error::BufferTooSmall { needed: v.len() as usize })
        } else if v.len() == 32 {
            match from_secret_spec(v, device_id) {
                Ok(_) => Ok(Some(v)),
                Err(e) => Err(e),
            }
        } else {
            Err(Error::Corrupt)
        },
    }
}

/// What one draw from the entropy source decides while a key is generated.
#[derive(Debug, Clone, Copy, PartialEq, Eq, Structural)]
pub enum Draw {
    /// The draw is an in-range scalar: it becomes the key.
    Accept,
    /// Out of range, with draws left: draw again.
    Retry,
    /// Out of range, and it was the last of [`GENERATE_ATTEMPTS`] draws.
    GiveUp,
}

/// What draw number `attempt` (counted from 0) decides when it drew `secret`.
pub open spec fn draw_decision(secret: Seq<u8>, attempt: nat) -> Draw {
    if scalar_in_range(secret) {
        Draw::Accept
    } else if attempt + 1 < GENERATE_ATTEMPTS {
        Draw::Retry
    } else {
        Draw::GiveUp
    }
}

/// Judge one draw: `secret` is what draw number `attempt` (from 0) filled.
/// An in-range scalar is accepted; otherwise the caller draws again until
/// [`GENERATE_ATTEMPTS`] draws are spent, and then gives up.
pub fn judge_draw(secret: &[u8; 32], attempt: usize) -> (r: Draw)
    ensures
        r == draw_decision(secret@, attempt as nat),
{
    if p256_secret_is_valid(secret) {
        Draw::Accept
    } else if attempt < GENERATE_ATTEMPTS - 1 {
        Draw::Retry
    } else {
        Draw::GiveUp
    }
}

/// The device's P-256 signing key and its id.
pub struct DeviceKey {
    secret: [u8; 32],
    public: [u8; 33],
    public_uncompressed: [u8; 65],
    device_id: DeviceId,
}

impl DeviceKey {
    /// The `Kv` key under which the 32-byte secret is stored.
    pub const KV_KEY: &'static str = "mid.devkey";

    #[verifier::type_invariant]
    spec fn inv(self) -> bool {
        &&& scalar_in_range(self.secret@)
        &&& self.public@ == p256_public_key(self.secret@, true)
        &&& is_did_key(self.public@)
        &&& self.public_uncompressed@ == p256_public_key(self.secret@, false)
    }

    /// The secret scalar, as bytes.
    pub closed spec fn secret(&self) -> Seq<u8> {
        self.secret@
    }

    /// The device id, as bytes.
    pub closed spec fn id(&self) -> Seq<u8> {
        self.device_id@
    }

    /// From a validated id and scalar.
    fn assemble(secret: &[u8; 32], device_id: DeviceId) -> (r: Self)
        requires
            scalar_in_range(secret@),
        ensures
            r.secret() == secret@,
            r.id() == device_id@,
    {
        let public = p256_public_key_compressed(secret);
        let public_uncompressed = p256_public_key_uncompressed(secret);
        DeviceKey { secret: *secret, public, public_uncompressed, device_id }
    }

    /// Rebuild from a stored 32-byte secret scalar.
    pub fn from_secret(secret: &[u8; 32], device_id: &str) -> (r: Result<Self>)
        ensures
            match r {
                Ok(k) => from_secret_spec(secret@, bytes_of(device_id)) == Ok::<(), Error>(())
                    && k.secret() == secret@ && k.id() == bytes_of(device_id),
                Err(e) => from_secret_spec(secret@, bytes_of(device_id)) == Err::<(), Error>(e),
            },
    {
        let device_id = DeviceId::new(device_id)?;
        if !p256_secret_is_valid(secret) {
            return Err(Error::Crypto);
        }
        Ok(Self::assemble(secret, device_id))
    }

    /// Generate a fresh key from the chip's TRNG: up to
    /// [`GENERATE_ATTEMPTS`] draws of 32 bytes, each judged by
    /// [`judge_draw`]; the first accepted draw becomes the key. A failing
    /// entropy source is reported as it failed; when the last draw is
    /// judged [`Draw::GiveUp`], the result is [`Error::Crypto`].
    pub fn generate<R: Rng>(rng: &mut R, device_id: &str) -> (r: Result<Self>)
        ensures
            !is_device_id(bytes_of(device_id)) ==> r == Err::<DeviceKey, Error>(
                Error::InvalidFormat,
            ),
            r matches Ok(k) ==> k.id() == bytes_of(device_id) && exists|a: nat|
                a < GENERATE_ATTEMPTS && #[trigger] draw_decision(k.secret(), a) == Draw::Accept,
            r matches Ok(k) ==> scalar_in_range(k.secret()),
    {
        let id = DeviceId::new(device_id)?;
        let mut secret = [0u8; 32];
        let mut attempt: usize = 0;
        loop
            invariant
                id@ == bytes_of(device_id),
                is_device_id(bytes_of(device_id)),
                attempt < GENERATE_ATTEMPTS,
            decreases GENERATE_ATTEMPTS - attempt,
        {
            rng.fill(&mut secret)?;
            match judge_draw(&secret, attempt) {
                Draw::Accept => {
                    let key = Self::assemble(&secret, id);
                    assert(draw_decision(key.secret(), attempt as nat) == Draw::Accept);
                    assert(exists|a: nat|
                        a < GENERATE_ATTEMPTS && #[trigger] draw_decision(key.secret(), a)
                            == Draw::Accept);
                    return Ok(key);
                },
                Draw::Retry => {
                    attempt += 1;
                },
                Draw::GiveUp => {
                    return Err(Error::Crypto);
                },
            }
        }
    }

    /// The secret scalar, for the storage seam only.
    pub fn secret_bytes(&self) -> (r: [u8; 32])
        ensures
            r@ == self.secret(),
    {
        self.secret
    }

    /// The device id.
    pub fn device_id(&self) -> (r: &DeviceId)
        ensures
            r@ == self.id(),
    {
        &self.device_id
    }

    /// The identity this key certifies: its compressed public key.
    pub fn did(&self) -> (r: Did)
        ensures
            r@ == p256_public_key(self.secret(), true),
            is_did_key(r@),
            scalar_in_range(self.secret()),
    {
        proof {
            use_type_invariant(self);
        }
        Did::from_valid_key(&self.public)
    }

    /// The 65-byte SEC1-uncompressed public key: the form a roster entry holds.
    pub fn pubkey_sec1_uncompressed(&self) -> (r: [u8; 65])
        ensures
            r@ == p256_public_key(self.secret(), false),
    {
        proof {
            use_type_invariant(self);
        }
        self.public_uncompressed
    }

    /// What a value read back from the store makes: `got` is what
    /// [`Kv::get`] returned into the 32-byte `secret`.
    pub fn from_stored(got: Option<usize>, secret: &[u8; 32], device_id: &str) -> (r: Result<
        Option<Self>,
    >)
        ensures
            match r {
                Ok(None) => stored_outcome(got, secret@, bytes_of(device_id)) == Ok::<
                    Option<Seq<u8>>,
                    Error,
                >(None),
                Ok(Some(k)) => stored_outcome(got, secret@, bytes_of(device_id)) == Ok::<
                    Option<Seq<u8>>,
                    Error,
                >(Some(k.secret())) && k.id() == bytes_of(device_id),
                Err(e) => stored_outcome(got, secret@, bytes_of(device_id)) == Err::<
                    Option<Seq<u8>>,
                    Error,
                >(e),
            },
    {
        match got {
            None => Ok(None),
            Some(n) => if n == 32 {
                match Self::from_secret(secret, device_id) {
                    Ok(k) => Ok(Some(k)),
                    Err(e) => Err(e),
                }
            } else {
                Err(Error::Corrupt)
            },
        }
    }

    /// Load the key from `kv`, or `Ok(None)` when none is stored: what
    /// [`Self::from_stored`] makes of what the store hands back into a
    /// 32-byte buffer. On a store that serves [`Self::KV_KEY`] that is
    /// [`load_outcome`] of the value it holds; a key loaded is the one
    /// stored; a failing store is reported as it failed.
    pub fn load<K: Kv>(kv: &K, device_id: &str) -> (r: Result<Option<Self>>)
        ensures
            kv.serves(bytes_of(DeviceKey::KV_KEY)) ==> match r {
                Ok(None) => load_outcome(kv.stored(bytes_of(DeviceKey::KV_KEY)), bytes_of(device_id))
                    == Ok::<Option<Seq<u8>>, Error>(None),
                Ok(Some(k)) => load_outcome(
                    kv.stored(bytes_of(DeviceKey::KV_KEY)),
                    bytes_of(device_id),
                ) == Ok::<Option<Seq<u8>>, Error>(Some(k.secret())),
                Err(e) => load_outcome(kv.stored(bytes_of(DeviceKey::KV_KEY)), bytes_of(device_id))
                    == Err::<Option<Seq<u8>>, Error>(e),
            },
            r matches Ok(None) ==> kv.stored(bytes_of(DeviceKey::KV_KEY)) is None,
            r matches Ok(Some(k)) ==> kv.stored(bytes_of(DeviceKey::KV_KEY)) == Some(k.secret())
                && k.id() == bytes_of(device_id) && is_device_id(bytes_of(device_id))
                && scalar_in_range(k.secret()),
    {
        let mut secret = [0u8; 32];
        let got = kv.get(Self::KV_KEY, &mut secret)?;
        proof {
            if let Some(n) = got {
                if n == 32 {
                    assert(secret@.subrange(0, 32) =~= secret@);
                }
            }
        }
        Self::from_stored(got, &secret, device_id)
    }

    /// Store the secret under [`Self::KV_KEY`]; every other key keeps what
    /// it held. A store that serves that key does not fail.
    pub fn store<K: Kv>(&self, kv: &mut K) -> (r: Result<()>)
        ensures
            old(kv).serves(bytes_of(DeviceKey::KV_KEY)) ==> r is Ok,
            r is Ok ==> final(kv).stored(bytes_of(DeviceKey::KV_KEY)) == Some(self.secret()),
            r is Ok ==> forall|k: Seq<u8>|
                k != bytes_of(DeviceKey::KV_KEY) ==> #[trigger] final(kv).stored(k) == old(
                    kv,
                ).stored(k),
    {
        kv.put(Self::KV_KEY, &self.secret)
    }

    /// Load the key, or generate and store one. This is what a firmware
    /// calls at boot: the DID is stable across reboots and reflashes for as
    /// long as the `Kv` partition survives, because the key returned is the
    /// one the store holds afterwards, and a key already stored is the one
    /// returned. No other key of the store is touched.
    pub fn load_or_generate<K: Kv, R: Rng>(kv: &mut K, rng: &mut R, device_id: &str) -> (r: Result<
        Self,
    >)
        ensures
            !is_device_id(bytes_of(device_id)) ==> r is Err,
            r matches Ok(k) ==> final(kv).stored(bytes_of(DeviceKey::KV_KEY)) == Some(k.secret())
                && k.id() == bytes_of(device_id) && scalar_in_range(k.secret()),
            r matches Ok(k) ==> (old(kv).stored(bytes_of(DeviceKey::KV_KEY)) matches Some(v) ==> v
                == k.secret()),
            r is Ok ==> forall|k: Seq<u8>|
                k != bytes_of(DeviceKey::KV_KEY) ==> #[trigger] final(kv).stored(k) == old(
                    kv,
                ).stored(k),
            old(kv).serves(bytes_of(DeviceKey::KV_KEY)) ==> match load_outcome(
                old(kv).stored(bytes_of(DeviceKey::KV_KEY)),
                bytes_of(device_id),
            ) {
                Ok(Some(v)) => r matches Ok(k) && k.secret() == v && *final(kv) == *old(kv),
                Ok(None) => true,
                Err(e) => r == Err::<DeviceKey, Error>(e),
            },
    {
        if let Some(key) = Self::load(kv, device_id)? {
            return Ok(key);
        }
        let key = Self::generate(rng, device_id)?;
        key.store(kv)?;
        Ok(key)
    }

    /// Raw ECDH shared secret (the x-coordinate) with another `did:mata`.
    /// Callers derive session keys from it with HKDF and a context string;
    /// never use the raw secret as a key. Both sides get the same bytes.
    pub fn shared_secret(&self, their: &Did) -> (r: Result<[u8; 32]>)
        ensures
            r matches Ok(x) && x@ == ecdh_p256_shared_x(self.secret(), their@),
            r matches Ok(x) ==> forall|other: Seq<u8>|
                scalar_in_range(other) && their@ == p256_public_key(other, true) ==> x@
                    == #[trigger] ecdh_p256_shared_x(other, p256_public_key(self.secret(), true)),
    {
        proof {
            use_type_invariant(self);
        }
        match ecdh_p256(&self.secret, their.pubkey()) {
            Some(x) => Ok(x),
            None => Err(Error::Crypto),
        }
    }

    /// Deterministic key for tests: SHA-256 over the seed and a fixed
    /// suffix. The digest is an in-range scalar with overwhelming odds; the
    /// rare digest that is not, and an invalid id, are reported.
    pub fn from_seed_for_tests(seed: &str, device_id: &str) -> (r: Result<Self>)
        ensures
            match r {
                Ok(k) => from_secret_spec(
                    sha256_digest(bytes_of(seed) + TEST_SEED_SUFFIX@),
                    bytes_of(device_id),
                ) == Ok::<(), Error>(()) && k.secret() == sha256_digest(
                    bytes_of(seed) + TEST_SEED_SUFFIX@,
                ) && k.id() == bytes_of(device_id),
                Err(e) => from_secret_spec(
                    sha256_digest(bytes_of(seed) + TEST_SEED_SUFFIX@),
                    bytes_of(device_id),
                ) == Err::<(), Error>(e),
            },
    {
        let mut input: Vec<u8> = Vec::new();
        push_all(&mut input, seed.as_bytes());
        push_all(&mut input, &TEST_SEED_SUFFIX);
        let secret = sha256(input.as_slice());
        Self::from_secret(&secret, device_id)
    }
}

impl DeviceSigner for DeviceKey {
    closed spec fn id_bytes(&self) -> Seq<u8> {
        self.device_id@
    }

    closed spec fn produces(&self, prehash: Seq<u8>, sig: Seq<u8>) -> bool {
        &&& sig == low_s(ecdsa_p256_sign(self.secret@, prehash))
        &&& accepts(p256_public_key(self.secret@, true), prehash, sig)
    }

    fn device_id(&self) -> (r: &str) {
        self.device_id.as_str()
    }

    /// The RFC 6979 signature in its low-s form: both scalars in range,
    /// `s` low, and accepted by [`crate::signer::verify_prehash`] under this
    /// key's `did:mata` public key.
    fn sign_prehash(&self, prehash: &[u8; 32]) -> (r: [u8; 64])
        ensures
            r@ == low_s(ecdsa_p256_sign(self.secret(), prehash@)),
            signature_scalars_valid(r@),
            !is_high_s(r@),
            accepts(p256_public_key(self.secret(), true), prehash@, r@),
    {
        proof {
            use_type_invariant(self);
        }
        let raw = ecdsa_p256_sign_prehash(&self.secret, prehash);
        match ecdsa_normalize_s(&raw) {
            Some(n) => n,
            None => raw,
        }
    }
}

/// **A device key's signatures verify under its own DID.** Whatever a
/// [`DeviceKey`] signs is accepted by [`crate::signer::verify_prehash`]
/// under the public key of [`DeviceKey::did`], over the same prehash.
pub proof fn lemma_device_key_signatures_verify(k: DeviceKey, prehash: Seq<u8>, sig: Seq<u8>)
    requires
        k.produces(prehash, sig),
    ensures
        accepts(p256_public_key(k.secret(), true), prehash, sig),
        sig == low_s(ecdsa_p256_sign(k.secret(), prehash)),
{
}

} // verus!
