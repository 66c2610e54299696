//! `did:mata`, the self-certifying identifier.
//!
//! `did:mata:<base58btc of the 33-byte SEC1-compressed P-256 public key>`
//! (v0: no multicodec prefix). The multibase form used in verification
//! methods is `z<same base58>`.
//!
//! Encoding writes into a caller buffer, parsing decodes into a fixed array.

use vstd::prelude::*;

use crate::crypto::{
    base58_decode, base58_decode_onto, base58_encode, base58_encode_onto, sec1_key_is_valid,
    sec1_public_key_valid, utf8_str,
};
use crate::error::{Error, Result};
use crate::text::{
    bytes_eq, bytes_of, is_ascii_bytes, is_utf8, lemma_ascii_is_utf8, string_bytes,
    to_owned_string,
};
use crate::wire::copy_into;

verus! {

/// The DID method prefix.
pub const DID_PREFIX: &'static str = "did:mata:";

/// Length of a SEC1-compressed P-256 public key.
pub const PUBKEY_LEN: usize = 33;

/// Base58 of 33 bytes is at most 46 characters (ceil(33 · log(256) / log(58))).
pub const MAX_BASE58_LEN: usize = 46;

/// Longest `did:mata:…` string this crate produces.
pub const MAX_DID_LEN: usize = 9 + MAX_BASE58_LEN;

/// Longest multibase `z…` string this crate produces.
pub const MAX_MULTIBASE_LEN: usize = 1 + MAX_BASE58_LEN;

/// [`DID_PREFIX`] as bytes.
pub const DID_PREFIX_BYTES: [u8; 9] = [0x64, 0x69, 0x64, 0x3a, 0x6d, 0x61, 0x74, 0x61, 0x3a];

/// The multibase base58btc marker `z` as bytes.
pub const MULTIBASE_PREFIX_BYTES: [u8; 1] = [0x7a];

/// The bytes of `did:mata:`.
pub open spec fn did_prefix() -> Seq<u8> {
    DID_PREFIX_BYTES@
}

/// The bytes of `z`.
pub open spec fn multibase_prefix() -> Seq<u8> {
    MULTIBASE_PREFIX_BYTES@
}

/// A key a [`Did`] can hold: 33 bytes, tagged `0x02`/`0x03`, a valid point.
pub open spec fn is_did_key(b: Seq<u8>) -> bool {
    &&& b.len() == PUBKEY_LEN
    &&& (b[0] == 2 || b[0] == 3)
    &&& sec1_public_key_valid(b)
}

/// What [`Did::from_pubkey`] makes of `b`.
pub open spec fn from_pubkey_spec(b: Seq<u8>) -> core::result::Result<Seq<u8>, Error> {
    if b.len() != PUBKEY_LEN || (b[0] != 2 && b[0] != 3) {
        Err(Error::InvalidFormat)
    } else if !sec1_public_key_valid(b) {
        Err(Error::Crypto)
    } else {
        Ok(b)
    }
}

/// What a base58 suffix decodes to: 1 to 46 characters spelling exactly 33
/// bytes that form a key.
pub open spec fn from_base58_spec(text: Seq<u8>) -> core::result::Result<Seq<u8>, Error> {
    if text.len() == 0 || text.len() > MAX_BASE58_LEN {
        Err(Error::InvalidFormat)
    } else {
        match base58_decode(text) {
            Some(b) => if b.len() == PUBKEY_LEN {
                from_pubkey_spec(b)
            } else {
                Err(Error::InvalidFormat)
            },
            None => Err(Error::InvalidFormat),
        }
    }
}

/// What parsing `text` as `prefix` then base58 gives.
pub open spec fn parse_prefixed(text: Seq<u8>, prefix: Seq<u8>) -> core::result::Result<
    Seq<u8>,
    Error,
> {
    if text.len() >= prefix.len() && text.subrange(0, prefix.len() as int) == prefix {
        from_base58_spec(text.subrange(prefix.len() as int, text.len() as int))
    } else {
        Err(Error::InvalidFormat)
    }
}

/// The text form of `key` after `prefix`.
pub open spec fn prefixed_text(prefix: Seq<u8>, key: Seq<u8>) -> Seq<u8> {
    prefix + base58_encode(key)
}

/// A `did:mata` identity: the compressed public key, validated on the curve.
#[derive(Debug, Clone, Copy, Eq, Hash)]
pub struct Did {
    pubkey: [u8; PUBKEY_LEN],
}

impl PartialEq for Did {
    fn eq(&self, other: &Self) -> (r: bool) {
        bytes_eq(&self.pubkey, &other.pubkey)
    }
}

impl vstd::std_specs::cmp::PartialEqSpecImpl for Did {
    open spec fn obeys_eq_spec() -> bool {
        true
    }

    open spec fn eq_spec(&self, other: &Did) -> bool {
        self@ == other@
    }
}

impl View for Did {
    type V = Seq<u8>;

    /// The 33-byte compressed key.
    closed spec fn view(&self) -> Seq<u8> {
        self.pubkey@
    }
}

impl Did {
    #[verifier::type_invariant]
    spec fn inv(self) -> bool {
        is_did_key(self.pubkey@)
    }

    /// From a 33-byte SEC1-compressed public key. Rejects anything that is
    /// not a valid, non-identity point.
    pub fn from_pubkey(sec1_compressed: &[u8]) -> (r: Result<Self>)
        ensures
            match r {
                Ok(d) => from_pubkey_spec(sec1_compressed@) == Ok::<Seq<u8>, Error>(d@),
                Err(e) => from_pubkey_spec(sec1_compressed@) == Err::<Seq<u8>, Error>(e),
            },
    {
        if sec1_compressed.len() != PUBKEY_LEN {
            return Err(Error::InvalidFormat);
        }
        if sec1_compressed[0] != 0x02 && sec1_compressed[0] != 0x03 {
            return Err(Error::InvalidFormat);
        }
        if !sec1_key_is_valid(sec1_compressed) {
            return Err(Error::Crypto);
        }
        let mut pubkey = [0u8; PUBKEY_LEN];
        copy_into(&mut pubkey, 0, sec1_compressed);
        assert(pubkey@ =~= sec1_compressed@);
        Ok(Did { pubkey })
    }

    /// From a key already known to be valid.
    pub(crate) fn from_valid_key(key: &[u8; PUBKEY_LEN]) -> (r: Self)
        requires
            is_did_key(key@),
        ensures
            r@ == key@,
    {
        Did { pubkey: *key }
    }

    /// The 33-byte SEC1-compressed public key.
    pub fn pubkey(&self) -> (r: &[u8; PUBKEY_LEN])
        ensures
            r@ == self@,
            is_did_key(self@),
    {
        proof {
            use_type_invariant(self);
        }
        &self.pubkey
    }

    /// Write `did:mata:<base58>` into `out`; returns the string written,
    /// which parses back to this identity.
    pub fn write<'o>(&self, out: &'o mut [u8]) -> (r: Result<&'o str>)
        ensures
            write_outcome(did_prefix(), self@, old(out)@, final(out)@, r),
            old(out)@.len() >= MAX_DID_LEN ==> r is Ok,
            r matches Ok(s) ==> parse_prefixed(bytes_of(s), did_prefix()) == Ok::<
                Seq<u8>,
                Error,
            >(self@),
    {
        proof {
            use_type_invariant(self);
        }
        let r = write_with_prefix(&DID_PREFIX_BYTES, &self.pubkey, out);
        proof {
            if let Ok(s) = r {
                lemma_text_parses_back(did_prefix(), self@);
            }
        }
        r
    }

    /// Write the multibase form `z<base58>` into `out`; returns the string
    /// written, which parses back to this identity.
    pub fn write_multibase<'o>(&self, out: &'o mut [u8]) -> (r: Result<&'o str>)
        ensures
            write_outcome(multibase_prefix(), self@, old(out)@, final(out)@, r),
            old(out)@.len() >= MAX_MULTIBASE_LEN ==> r is Ok,
            r matches Ok(s) ==> parse_prefixed(bytes_of(s), multibase_prefix()) == Ok::<
                Seq<u8>,
                Error,
            >(self@),
    {
        proof {
            use_type_invariant(self);
        }
        let r = write_with_prefix(&MULTIBASE_PREFIX_BYTES, &self.pubkey, out);
        proof {
            if let Ok(s) = r {
                lemma_text_parses_back(multibase_prefix(), self@);
            }
        }
        r
    }

    /// Parse `did:mata:<base58>`. Legacy UUID-shaped DIDs are rejected: a
    /// device only ever talks to key-derived identities. Only the canonical
    /// text of a key parses.
    pub fn parse(did: &str) -> (r: Result<Self>)
        ensures
            parse_outcome(bytes_of(did), did_prefix(), r),
    {
        Self::parse_with_prefix(did.as_bytes(), &DID_PREFIX_BYTES)
    }

    /// Parse the multibase form `z<base58>`.
    pub fn parse_multibase(mb: &str) -> (r: Result<Self>)
        ensures
            parse_outcome(bytes_of(mb), multibase_prefix(), r),
    {
        Self::parse_with_prefix(mb.as_bytes(), &MULTIBASE_PREFIX_BYTES)
    }

    fn parse_with_prefix(text: &[u8], prefix: &[u8]) -> (r: Result<Self>)
        ensures
            parse_outcome(text@, prefix@, r),
    {
        if text.len() < prefix.len() {
            return Err(Error::InvalidFormat);
        }
        let (head, suffix) = text.split_at(prefix.len());
        if !bytes_eq(head, prefix) {
            return Err(Error::InvalidFormat);
        }
        assert(text@ =~= head@ + suffix@);
        Self::from_base58(suffix)
    }

    fn from_base58(suffix: &[u8]) -> (r: Result<Self>)
        ensures
            match r {
                Ok(d) => from_base58_spec(suffix@) == Ok::<Seq<u8>, Error>(d@)
                    && suffix@ == base58_encode(d@),
                Err(e) => from_base58_spec(suffix@) == Err::<Seq<u8>, Error>(e),
            },
    {
        if suffix.len() == 0 || suffix.len() > MAX_BASE58_LEN {
            return Err(Error::InvalidFormat);
        }
        let mut buf = [0u8; 34];
        let n = match base58_decode_onto(suffix, &mut buf) {
            Some(n) => n,
            None => return Err(Error::InvalidFormat),
        };
        if n != PUBKEY_LEN {
            return Err(Error::InvalidFormat);
        }
        let (key, _) = buf.as_slice().split_at(PUBKEY_LEN);
        Self::from_pubkey(key)
    }

    /// `did:mata:<base58>` as an owned string.
    pub fn to_did_string(&self) -> (r: String)
        ensures
            string_bytes(r) == prefixed_text(did_prefix(), self@),
    {
        let mut buf = [0u8; MAX_DID_LEN];
        proof {
            use_type_invariant(self);
        }
        match self.write(&mut buf) {
            Ok(s) => to_owned_string(s),
            Err(_) => String::new(),
        }
    }

    /// `z<base58>` as an owned string.
    pub fn to_multibase_string(&self) -> (r: String)
        ensures
            string_bytes(r) == prefixed_text(multibase_prefix(), self@),
    {
        let mut buf = [0u8; MAX_MULTIBASE_LEN];
        proof {
            use_type_invariant(self);
        }
        match self.write_multibase(&mut buf) {
            Ok(s) => to_owned_string(s),
            Err(_) => String::new(),
        }
    }
}

/// What writing `key` after `prefix` into a buffer of `old_out` does: too
/// small for the prefix and one character, or for the whole text, is
/// reported with the size asked for; otherwise the text is written at the
/// start, the rest of the buffer stays, and the string returned is the text.
pub open spec fn write_outcome(
    prefix: Seq<u8>,
    key: Seq<u8>,
    old_out: Seq<u8>,
    new_out: Seq<u8>,
    r: Result<&str>,
) -> bool {
    let text = prefixed_text(prefix, key);
    &&& new_out.len() == old_out.len()
    &&& old_out.len() < prefix.len() + 1 ==> r == Err::<&str, Error>(
        Error::BufferTooSmall { needed: (prefix.len() + 1) as usize },
    )
    &&& old_out.len() >= prefix.len() + 1 && text.len() > old_out.len() ==> r == Err::<
        &str,
        Error,
    >(Error::BufferTooSmall { needed: (prefix.len() + MAX_BASE58_LEN) as usize })
    &&& old_out.len() >= prefix.len() + 1 && text.len() <= old_out.len() ==> (r matches Ok(s)
        && bytes_of(s) == text && new_out == text + old_out.subrange(
        text.len() as int,
        old_out.len() as int,
    ))
}

/// What parsing `text` after `prefix` returns: the key when it parses, the
/// error otherwise; and what parses is the canonical text of its key.
pub open spec fn parse_outcome(text: Seq<u8>, prefix: Seq<u8>, r: Result<Did>) -> bool {
    match r {
        Ok(d) => parse_prefixed(text, prefix) == Ok::<Seq<u8>, Error>(d@) && text
            == prefixed_text(prefix, d@),
        Err(e) => parse_prefixed(text, prefix) == Err::<Seq<u8>, Error>(e),
    }
}

/// The text of a key parses back to it.
proof fn lemma_text_parses_back(prefix: Seq<u8>, key: Seq<u8>)
    requires
        is_did_key(key),
        base58_decode(base58_encode(key)) == Some(key),
        0 < base58_encode(key).len() <= MAX_BASE58_LEN,
    ensures
        parse_prefixed(prefixed_text(prefix, key), prefix) == Ok::<Seq<u8>, Error>(key),
{
    let t = prefixed_text(prefix, key);
    assert(t.subrange(0, prefix.len() as int) =~= prefix);
    assert(t.subrange(prefix.len() as int, t.len() as int) =~= base58_encode(key));
}

/// Write `prefix` then the base58 of `bytes` into `out`.
fn write_with_prefix<'o>(prefix: &[u8], bytes: &[u8; PUBKEY_LEN], out: &'o mut [u8]) -> (r: Result<
    &'o str,
>)
    requires
        prefix@.len() <= 9,
        is_ascii_bytes(prefix@),
    ensures
        write_outcome(prefix@, bytes@, old(out)@, final(out)@, r),
        old(out)@.len() >= prefix@.len() + MAX_BASE58_LEN ==> r is Ok,
        r is Ok ==> base58_decode(base58_encode(bytes@)) == Some(bytes@) && 0 < base58_encode(
            bytes@,
        ).len() <= MAX_BASE58_LEN,
{
    let plen = prefix.len();
    if out.len() < plen + 1 {
        return Err(Error::BufferTooSmall { needed: plen + 1 });
    }
    let ghost old_out = out@;
    let (head, tail) = out.split_at_mut(plen);
    copy_into(head, 0, prefix);
    let ghost old_tail = tail@;
    let n = match base58_encode_onto(bytes, tail) {
        Some(n) => n,
        None => {
            return Err(Error::BufferTooSmall { needed: plen + MAX_BASE58_LEN });
        },
    };
    let end = plen + n;
    let ghost h = head@;
    let ghost t = tail@;
    proof {
        assert(h =~= prefix@);
        assert(old_tail =~= old_out.subrange(plen as int, old_out.len() as int));
        assert(t =~= t.subrange(0, n as int) + t.subrange(n as int, t.len() as int));
        assert(old_tail.subrange(n as int, old_tail.len() as int) =~= old_out.subrange(
            end as int,
            old_out.len() as int,
        ));
    }
    let written: &'o [u8] = out;
    assert(written@ == h + t);
    let (text, _) = written.split_at(end);
    proof {
        assert(text@ =~= prefixed_text(prefix@, bytes@));
        assert(written@ =~= prefixed_text(prefix@, bytes@) + old_out.subrange(end as int, old_out.len() as int));
        lemma_ascii_is_utf8(text@);
        reveal(is_utf8);
    }
    match utf8_str(text) {
        Some(s) => Ok(s),
        None => Err(Error::Corrupt),
    }
}

} // verus!
