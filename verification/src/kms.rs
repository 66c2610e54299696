//! The gateway handshake: a server-issued `NonceEnvelope`, signed by the
//! device into a `SignedAssertion`.
//!
//! The canonical form (what is signed) is
//!
//! ```text
//! sha256(
//!   "kms-nonce-v1\n" || envelope_version (1 byte) ||
//!   len16(nonce) || nonce || len16(did) || did || len16(audience) || audience ||
//!   len16(purpose) || purpose || issued_at (8 BE) || expires_at (8 BE) ||
//!   len16(issuer) || issuer
//! )
//! ```
//!
//! [`NonceEnvelopeRef`] borrows every field, so a heapless firmware can
//! sign a challenge it parsed into a stack buffer; [`NonceEnvelope`] owns
//! them (its JSON form is the application's business).

use vstd::prelude::*;

use crate::crypto::{sha256, sha256_digest};
use crate::did::{did_prefix, parse_prefixed, Did};
use crate::error::{Error, Result};
use crate::signer::DeviceSigner;
use crate::text::{byte_len, bytes_of, str_eq, string_bytes, to_owned_string};
use crate::wire::{be16, be16_bytes, be64, be64_bytes, lemma_be16_round_trip, push_all};

verus! {

/// Domain separator of the nonce envelope's canonical form: `kms-nonce-v1\n`.
pub const NONCE_DOMAIN: [u8; 13] = [
    0x6b, 0x6d, 0x73, 0x2d, 0x6e, 0x6f, 0x6e, 0x63, 0x65, 0x2d, 0x76, 0x31, 0x0a,
];

/// Current envelope version.
pub const ENVELOPE_VERSION: u8 = 1;

/// `envelope_type` of a nonce envelope.
pub const NONCE_TYPE: &'static str = "nonce";

/// `envelope_type` of a signed assertion.
pub const ASSERTION_TYPE: &'static str = "signed_assertion";

/// Hard upper bound on `expires_at - issued_at`.
pub const MAX_TTL_SECS: u64 = 300;

/// The fields of a nonce envelope, as bytes.
pub struct EnvelopeView {
    pub envelope_version: u8,
    pub nonce: Seq<u8>,
    pub did: Seq<u8>,
    pub audience: Seq<u8>,
    pub purpose: Seq<u8>,
    pub issued_at: u64,
    pub expires_at: u64,
    pub issuer: Seq<u8>,
}

/// A length as a 16-bit prefix, saturated rather than wrapped so that two
/// different messages can never hash alike by truncation.
pub open spec fn len16(n: nat) -> u16 {
    if n > 0xffff {
        0xffff
    } else {
        n as u16
    }
}

/// A length-prefixed field.
pub open spec fn lp(b: Seq<u8>) -> Seq<u8> {
    be16(len16(b.len())) + b
}

/// The message whose SHA-256 is signed.
pub open spec fn canonical_message(e: EnvelopeView) -> Seq<u8> {
    NONCE_DOMAIN@ + (seq![e.envelope_version] + (lp(e.nonce) + (lp(e.did) + (lp(e.audience) + (lp(
        e.purpose,
    ) + (be64(e.issued_at) + (be64(e.expires_at) + lp(e.issuer))))))))
}

/// The shape rules, in the order they are checked: the version, a 32-byte
/// nonce, a `did:mata` that parses, a lifetime in `1..=300` seconds, and
/// text fields short enough for their 16-bit length prefix.
pub open spec fn validate_spec(e: EnvelopeView) -> core::result::Result<(), Error> {
    if e.envelope_version != ENVELOPE_VERSION {
        Err(Error::Unsupported)
    } else if e.nonce.len() != 32 {
        Err(Error::InvalidFormat)
    } else if parse_prefixed(e.did, did_prefix()) is Err {
        Err(parse_prefixed(e.did, did_prefix())->Err_0)
    } else if e.expires_at <= e.issued_at || e.expires_at - e.issued_at > MAX_TTL_SECS {
        Err(Error::InvalidFormat)
    } else if e.did.len() > 0xffff || e.audience.len() > 0xffff || e.purpose.len() > 0xffff
        || e.issuer.len() > 0xffff {
        Err(Error::InvalidFormat)
    } else {
        Ok(())
    }
}

/// A nonce envelope over borrowed fields.
#[derive(Debug, Clone, Copy, PartialEq, Eq)]
pub struct NonceEnvelopeRef<'a> {
    /// Envelope version; always [`ENVELOPE_VERSION`].
    pub envelope_version: u8,
    /// 32 random bytes, single-use.
    pub nonce: &'a [u8],
    /// The DID the nonce is bound to.
    pub did: &'a str,
    /// The service that issued and will consume the nonce.
    pub audience: &'a str,
    /// The operation the nonce authorises.
    pub purpose: &'a str,
    /// Unix seconds.
    pub issued_at: u64,
    /// Unix seconds.
    pub expires_at: u64,
    /// The service instance that minted the nonce.
    pub issuer: &'a str,
}

impl<'a> View for NonceEnvelopeRef<'a> {
    type V = EnvelopeView;

    open spec fn view(&self) -> EnvelopeView {
        EnvelopeView {
            envelope_version: self.envelope_version,
            nonce: self.nonce@,
            did: bytes_of(self.did),
            audience: bytes_of(self.audience),
            purpose: bytes_of(self.purpose),
            issued_at: self.issued_at,
            expires_at: self.expires_at,
            issuer: bytes_of(self.issuer),
        }
    }
}

/// Append `b` to `v` behind its saturated 16-bit length.
fn push_lp(v: &mut Vec<u8>, b: &[u8])
    ensures
        final(v)@ == old(v)@ + lp(b@),
{
    let len: u16 = if b.len() > 0xffff {
        0xffff
    } else {
        b.len() as u16
    };
    push_all(v, &be16_bytes(len));
    push_all(v, b);
    assert(final(v)@ =~= old(v)@ + lp(b@)) by {
        assert(len == len16(b@.len()));
    }
}

impl<'a> NonceEnvelopeRef<'a> {
    /// Shape validation.
    pub fn validate(&self) -> (r: Result<()>)
        ensures
            r == validate_spec(self@),
    {
        if self.envelope_version != ENVELOPE_VERSION {
            return Err(Error::Unsupported);
        }
        if self.nonce.len() != 32 {
            return Err(Error::InvalidFormat);
        }
        if let Err(e) = Did::parse(self.did) {
            return Err(e);
        }
        if self.expires_at <= self.issued_at || self.expires_at - self.issued_at > MAX_TTL_SECS {
            return Err(Error::InvalidFormat);
        }
        if byte_len(self.did) > 0xffff || byte_len(self.audience) > 0xffff || byte_len(self.purpose)
            > 0xffff || byte_len(self.issuer) > 0xffff {
            return Err(Error::InvalidFormat);
        }
        Ok(())
    }

    /// The message the prehash is taken over.
    pub fn canonical_message(&self) -> (r: Vec<u8>)
        ensures
            r@ == canonical_message(self@),
    {
        let mut m: Vec<u8> = Vec::new();
        push_all(&mut m, &NONCE_DOMAIN);
        m.push(self.envelope_version);
        push_lp(&mut m, self.nonce);
        push_lp(&mut m, self.did.as_bytes());
        push_lp(&mut m, self.audience.as_bytes());
        push_lp(&mut m, self.purpose.as_bytes());
        push_all(&mut m, &be64_bytes(self.issued_at));
        push_all(&mut m, &be64_bytes(self.expires_at));
        push_lp(&mut m, self.issuer.as_bytes());
        assert(m@ =~= canonical_message(self@));
        m
    }

    /// The 32-byte prehash the signature covers.
    pub fn canonical_bytes(&self) -> (r: [u8; 32])
        ensures
            r@ == sha256_digest(canonical_message(self@)),
    {
        let m = self.canonical_message();
        sha256(m.as_slice())
    }

    /// Sign this envelope; returns the 64-byte signature over its prehash.
    /// An envelope that does not validate is not signed.
    pub fn sign<S: DeviceSigner>(&self, signer: &S) -> (r: Result<[u8; 64]>)
        ensures
            validate_spec(self@) is Err ==> r == Err::<[u8; 64], Error>(
                validate_spec(self@)->Err_0,
            ),
            validate_spec(self@) is Ok ==> (r matches Ok(sig) && signer.produces(
                sha256_digest(canonical_message(self@)),
                sig@,
            )),
    {
        self.validate()?;
        Ok(signer.sign_prehash(&self.canonical_bytes()))
    }
}

/// A fixed-length prefix and what follows are told apart.
proof fn lemma_split_eq(a1: Seq<u8>, r1: Seq<u8>, a2: Seq<u8>, r2: Seq<u8>)
    requires
        a1.len() == a2.len(),
        a1 + r1 == a2 + r2,
    ensures
        a1 == a2,
        r1 == r2,
{
    assert(a1 =~= (a1 + r1).subrange(0, a1.len() as int));
    assert(a2 =~= (a2 + r2).subrange(0, a2.len() as int));
    assert(r1 =~= (a1 + r1).subrange(a1.len() as int, (a1 + r1).len() as int));
    assert(r2 =~= (a2 + r2).subrange(a2.len() as int, (a2 + r2).len() as int));
}

/// Length-prefixed fields are told apart from what follows.
proof fn lemma_lp_eq(x: Seq<u8>, r1: Seq<u8>, y: Seq<u8>, r2: Seq<u8>)
    requires
        x.len() <= 0xffff,
        y.len() <= 0xffff,
        lp(x) + r1 == lp(y) + r2,
    ensures
        x == y,
        r1 == r2,
{
    assert(lp(x) + r1 =~= be16(len16(x.len())) + (x + r1));
    assert(lp(y) + r2 =~= be16(len16(y.len())) + (y + r2));
    lemma_split_eq(be16(len16(x.len())), x + r1, be16(len16(y.len())), y + r2);
    lemma_be16_round_trip(len16(x.len()));
    lemma_be16_round_trip(len16(y.len()));
    lemma_split_eq(x, r1, y, r2);
}

/// **The signed bytes pin the envelope down.** Two envelopes whose fields
/// fit their length prefixes (every envelope that validates) have the same
/// canonical message only when every field is the same.
pub proof fn lemma_canonical_message_injective(a: EnvelopeView, b: EnvelopeView)
    requires
        a.nonce.len() <= 0xffff && a.did.len() <= 0xffff && a.audience.len() <= 0xffff
            && a.purpose.len() <= 0xffff && a.issuer.len() <= 0xffff,
        b.nonce.len() <= 0xffff && b.did.len() <= 0xffff && b.audience.len() <= 0xffff
            && b.purpose.len() <= 0xffff && b.issuer.len() <= 0xffff,
        canonical_message(a) == canonical_message(b),
    ensures
        a == b,
{
    let ta = be64(a.issued_at) + (be64(a.expires_at) + lp(a.issuer));
    let tb = be64(b.issued_at) + (be64(b.expires_at) + lp(b.issuer));
    let pa = lp(a.purpose) + ta;
    let pb = lp(b.purpose) + tb;
    let ua = lp(a.audience) + pa;
    let ub = lp(b.audience) + pb;
    let da = lp(a.did) + ua;
    let db = lp(b.did) + ub;
    let na = lp(a.nonce) + da;
    let nb = lp(b.nonce) + db;
    lemma_split_eq(NONCE_DOMAIN@, seq![a.envelope_version] + na, NONCE_DOMAIN@, seq![
        b.envelope_version,
    ] + nb);
    lemma_split_eq(seq![a.envelope_version], na, seq![b.envelope_version], nb);
    assert(seq![a.envelope_version][0] == seq![b.envelope_version][0]);
    lemma_lp_eq(a.nonce, da, b.nonce, db);
    lemma_lp_eq(a.did, ua, b.did, ub);
    lemma_lp_eq(a.audience, pa, b.audience, pb);
    lemma_lp_eq(a.purpose, ta, b.purpose, tb);
    lemma_split_eq(be64(a.issued_at), be64(a.expires_at) + lp(a.issuer), be64(b.issued_at), be64(
        b.expires_at,
    ) + lp(b.issuer));
    lemma_split_eq(be64(a.expires_at), lp(a.issuer), be64(b.expires_at), lp(b.issuer));
    crate::wire::lemma_be64_round_trip(a.issued_at);
    crate::wire::lemma_be64_round_trip(b.issued_at);
    crate::wire::lemma_be64_round_trip(a.expires_at);
    crate::wire::lemma_be64_round_trip(b.expires_at);
    lemma_lp_eq(a.issuer, Seq::<u8>::empty(), b.issuer, Seq::<u8>::empty());
    assert(lp(a.issuer) + Seq::<u8>::empty() =~= lp(a.issuer));
    assert(lp(b.issuer) + Seq::<u8>::empty() =~= lp(b.issuer));
}

/// The fields of an owned nonce envelope, as bytes.
pub struct OwnedEnvelopeView {
    pub envelope_type: Seq<u8>,
    pub fields: EnvelopeView,
}

/// The nonce envelope as the gateway sends it.
#[derive(Debug, Clone, PartialEq, Eq)]
pub struct NonceEnvelope {
    /// Always 1.
    pub envelope_version: u8,
    /// Always `"nonce"`.
    pub envelope_type: String,
    /// 32 random bytes.
    pub nonce: Vec<u8>,
    /// The DID the nonce is bound to.
    pub did: String,
    /// The consuming service.
    pub audience: String,
    /// The authorised operation.
    pub purpose: String,
    /// Unix seconds.
    pub issued_at: u64,
    /// Unix seconds.
    pub expires_at: u64,
    /// The minting service instance.
    pub issuer: String,
}

impl View for NonceEnvelope {
    type V = OwnedEnvelopeView;

    open spec fn view(&self) -> OwnedEnvelopeView {
        OwnedEnvelopeView {
            envelope_type: string_bytes(self.envelope_type),
            fields: EnvelopeView {
                envelope_version: self.envelope_version,
                nonce: self.nonce@,
                did: string_bytes(self.did),
                audience: string_bytes(self.audience),
                purpose: string_bytes(self.purpose),
                issued_at: self.issued_at,
                expires_at: self.expires_at,
                issuer: string_bytes(self.issuer),
            },
        }
    }
}

/// What [`NonceEnvelope::validate`] decides: the type discriminant, then
/// the rules of [`validate_spec`].
pub open spec fn validate_owned_spec(e: OwnedEnvelopeView) -> core::result::Result<(), Error> {
    if e.envelope_type != bytes_of(NONCE_TYPE) {
        Err(Error::InvalidFormat)
    } else {
        validate_spec(e.fields)
    }
}

/// The device's signed envelope, as the gateway verifies it.
#[derive(Debug, Clone, PartialEq, Eq)]
pub struct SignedAssertion {
    /// Always 1.
    pub envelope_version: u8,
    /// Always `"signed_assertion"`.
    pub envelope_type: String,
    /// The envelope verbatim.
    pub nonce_envelope: NonceEnvelope,
    /// Which roster entry signed.
    pub device_id: String,
    /// 64-byte low-s `r || s`.
    pub signature: Vec<u8>,
}

impl NonceEnvelope {
    /// Borrow as the no-alloc form.
    pub fn as_ref(&self) -> (r: NonceEnvelopeRef<'_>)
        ensures
            r@ == self@.fields,
    {
        NonceEnvelopeRef {
            envelope_version: self.envelope_version,
            nonce: self.nonce.as_slice(),
            did: self.did.as_str(),
            audience: self.audience.as_str(),
            purpose: self.purpose.as_str(),
            issued_at: self.issued_at,
            expires_at: self.expires_at,
            issuer: self.issuer.as_str(),
        }
    }

    /// Shape validation, including the type discriminant.
    pub fn validate(&self) -> (r: Result<()>)
        ensures
            r == validate_owned_spec(self@),
    {
        if !str_eq(self.envelope_type.as_str(), NONCE_TYPE) {
            return Err(Error::InvalidFormat);
        }
        self.as_ref().validate()
    }

    /// A field-for-field copy.
    fn copy(&self) -> (r: Self)
        ensures
            r@ == self@,
    {
        NonceEnvelope {
            envelope_version: self.envelope_version,
            envelope_type: self.envelope_type.clone(),
            nonce: self.nonce.clone(),
            did: self.did.clone(),
            audience: self.audience.clone(),
            purpose: self.purpose.clone(),
            issued_at: self.issued_at,
            expires_at: self.expires_at,
            issuer: self.issuer.clone(),
        }
    }

    /// Sign into a [`SignedAssertion`]: the envelope verbatim, the signer's
    /// device id and the signature over the envelope's prehash. The type
    /// discriminant is not checked here, only the field rules.
    pub fn sign<S: DeviceSigner>(&self, signer: &S) -> (r: Result<SignedAssertion>)
        ensures
            validate_spec(self@.fields) is Err ==> r == Err::<SignedAssertion, Error>(
                validate_spec(self@.fields)->Err_0,
            ),
            validate_spec(self@.fields) is Ok ==> (r matches Ok(a) && a.envelope_version
                == ENVELOPE_VERSION && string_bytes(a.envelope_type) == bytes_of(ASSERTION_TYPE)
                && a.nonce_envelope@ == self@ && string_bytes(a.device_id) == signer.id_bytes()
                && signer.produces(sha256_digest(canonical_message(self@.fields)), a.signature@)),
    {
        let signature = self.as_ref().sign(signer)?;
        let mut sig: Vec<u8> = Vec::new();
        push_all(&mut sig, &signature);
        Ok(SignedAssertion {
            envelope_version: ENVELOPE_VERSION,
            envelope_type: to_owned_string(ASSERTION_TYPE),
            nonce_envelope: self.copy(),
            device_id: to_owned_string(signer.device_id()),
            signature: sig,
        })
    }
}

/// **A valid envelope lives between one second and five minutes.** An
/// envelope that validates (and so one that is signed) expires strictly
/// after it was issued, and at most [`MAX_TTL_SECS`] (300) seconds later.
pub proof fn lemma_valid_envelope_lifetime(e: EnvelopeView)
    requires
        validate_spec(e) is Ok,
    ensures
        e.issued_at < e.expires_at,
        e.expires_at - e.issued_at <= 300,
{
}

/// **Any lifetime of one second to five minutes is accepted.** Retiming a
/// valid envelope to any `issued_at < expires_at <= issued_at + 300` keeps
/// it valid: the clock fields are judged by their difference alone.
pub proof fn lemma_envelope_retimed(e: EnvelopeView, issued_at: u64, expires_at: u64)
    requires
        validate_spec(e) is Ok,
        issued_at < expires_at,
        expires_at - issued_at <= 300,
    ensures
        validate_spec(EnvelopeView { issued_at, expires_at, ..e }) is Ok,
{
}

} // verus!
