//! **Adoption**: the owner-signed grant that tells a device who it belongs
//! to and who it may talk to.
//!
//! Wire form (all integers big-endian, `len16` = 2-byte length prefix):
//!
//! ```text
//! "janus-adoption-v1\n"
//! version (1)                       = 1
//! len16(device_did) device_did
//! len16(owner_did)  owner_did
//! owner_genesis_pubkey (33)         SEC1 compressed
//! hub_endpoint_id (32)              iroh endpoint id, all-zero when none
//! len16(hub_relay) hub_relay        may be empty
//! len16(hub_host)  hub_host         may be empty ("ip:port")
//! cap_count (1) then cap_count × ( len16(cap) cap )
//! roster_version (4)
//! issued_at (8)                     Unix seconds
//! expires_at (8)                    Unix seconds, 0 = never
//! signature (64)                    low-s ECDSA P-256 by the owner's genesis key
//!                                   over sha256(everything above)
//! ```
//!
//! Decoding borrows every string from the input buffer. **TOFU:** the device
//! pins `owner_genesis_pubkey` on first adoption and afterwards accepts only
//! adoptions signed by that key with a roster version at least as new.

use vstd::prelude::*;

use crate::cap::{any_satisfies, is_cap_text, text_satisfies, Cap};
use crate::crypto::{as_array, sha256, sha256_digest, utf8_str};
use crate::error::{Error, Result};
use crate::signer::{accepts, verify_prehash, DeviceSigner};
use crate::text::{byte_len, bytes_eq, bytes_of, is_utf8, lemma_str_is_utf8, str_eq};
use crate::wire::{be16, be16_bytes, be32, be32_bytes, be64, be64_bytes, copy_into, from_be16,
    from_be32, from_be64, read_be16, read_be32, read_be64, str16};

verus! {

/// Domain separator: `"janus-adoption-v1\n"`.
pub const ADOPTION_DOMAIN: [u8; 18] = [
    0x6a, 0x61, 0x6e, 0x75, 0x73, 0x2d, 0x61, 0x64, 0x6f, 0x70, 0x74, 0x69, 0x6f, 0x6e, 0x2d,
    0x76, 0x31, 0x0a,
];

/// Current wire version.
pub const ADOPTION_VERSION: u8 = 1;

/// Most capability strings one adoption may carry.
pub const MAX_CAPS: usize = 32;

/// Longest single string field.
pub const MAX_FIELD_LEN: usize = 255;

/// Signature length.
pub const SIG_LEN: usize = 64;

/// Encoded size of an [`OwnerPin`].
pub const OWNER_PIN_LEN: usize = 37;

/// The `Kv` key holding the encoded adoption.
pub const KV_ADOPTION: &'static str = "mid.adopt";

/// The `Kv` key holding the owner pin.
pub const KV_OWNER_PIN: &'static str = "mid.owner";

/// The domain separator as bytes.
pub open spec fn adoption_domain() -> Seq<u8> {
    ADOPTION_DOMAIN@
}

/// One `len16 str` at the front of `b`: the string's bytes (valid UTF-8)
/// and what follows.
pub open spec fn read_str_spec(b: Seq<u8>) -> Option<(Seq<u8>, Seq<u8>)> {
    if b.len() < 2 {
        None
    } else {
        let n = from_be16(b) as int;
        let rest = b.subrange(2, b.len() as int);
        if rest.len() < n {
            None
        } else {
            let s = rest.subrange(0, n);
            if is_utf8(s) {
                Some((s, rest.subrange(n, rest.len() as int)))
            } else {
                None
            }
        }
    }
}

/// The strings that up to `count` successive `len16 str` at the front of
/// `b` spell, stopping at the first that does not parse.
pub open spec fn wire_items(count: nat, b: Seq<u8>) -> Seq<Seq<u8>>
    decreases count,
{
    if count == 0 {
        Seq::<Seq<u8>>::empty()
    } else {
        match read_str_spec(b) {
            Some((s, rest)) => seq![s] + wire_items((count - 1) as nat, rest),
            None => Seq::<Seq<u8>>::empty(),
        }
    }
}

/// What `count` successive `len16 str` at the front of `b` leave behind,
/// or `None` when one of them does not parse.
pub open spec fn skip_strs(count: nat, b: Seq<u8>) -> Option<Seq<u8>>
    decreases count,
{
    if count == 0 {
        Some(b)
    } else {
        match read_str_spec(b) {
            Some((s, rest)) => skip_strs((count - 1) as nat, rest),
            None => None,
        }
    }
}

/// The `len16 str` sequence of a list of strings.
pub open spec fn caps_wire(items: Seq<Seq<u8>>) -> Seq<u8>
    decreases items.len(),
{
    if items.len() == 0 {
        Seq::<u8>::empty()
    } else {
        str16(items[0]) + caps_wire(items.drop_first())
    }
}

/// The capability strings of an adoption: either a slice of `&str` (when
/// encoding) or the raw wire bytes (when decoded), iterated the same way.
#[derive(Debug, Clone, Copy, PartialEq, Eq)]
pub enum CapList<'a> {
    /// Strings supplied by the encoder.
    Slice(&'a [&'a str]),
    /// `count` length-prefixed strings in `bytes`, already validated.
    Wire {
        /// Number of strings.
        count: u8,
        /// The `len16 str` sequence.
        bytes: &'a [u8],
    },
}

/// A capability list: the count it declares and the strings it yields.
pub struct CapListView {
    pub count: nat,
    pub items: Seq<Seq<u8>>,
}

impl<'a> View for CapList<'a> {
    type V = CapListView;

    open spec fn view(&self) -> CapListView {
        match *self {
            CapList::Slice(s) => CapListView {
                count: s@.len(),
                items: s@.map_values(|x: &str| bytes_of(x)),
            },
            CapList::Wire { count, bytes } => CapListView {
                count: count as nat,
                items: wire_items(count as nat, bytes@),
            },
        }
    }
}

/// Iterator over capability strings.
#[derive(Debug, Clone, Copy)]
pub enum CapIter<'a> {
    /// Over a slice, from position `pos`.
    Slice {
        /// The strings.
        items: &'a [&'a str],
        /// The next position.
        pos: usize,
    },
    /// Over wire bytes.
    Wire {
        /// Strings left.
        remaining: u8,
        /// Bytes left.
        bytes: &'a [u8],
    },
}

impl<'a> View for CapIter<'a> {
    type V = Seq<Seq<u8>>;

    /// The strings still to come.
    open spec fn view(&self) -> Seq<Seq<u8>> {
        match *self {
            CapIter::Slice { items, pos } => if pos <= items@.len() {
                items@.subrange(pos as int, items@.len() as int).map_values(|x: &str| bytes_of(x))
            } else {
                Seq::<Seq<u8>>::empty()
            },
            CapIter::Wire { remaining, bytes } => wire_items(remaining as nat, bytes@),
        }
    }
}

proof fn lemma_wire_items_len(count: nat, b: Seq<u8>)
    ensures
        wire_items(count, b).len() <= count,
    decreases count,
{
    if count > 0 {
        if let Some((s, rest)) = read_str_spec(b) {
            lemma_wire_items_len((count - 1) as nat, rest);
        }
    }
}

/// A list never yields more strings than it declares.
pub proof fn lemma_items_within_count(c: CapList)
    ensures
        c@.items.len() <= c@.count,
{
    if let CapList::Wire { count, bytes } = c {
        lemma_wire_items_len(count as nat, bytes@);
    }
}

proof fn lemma_wire_items_valid(count: nat, b: Seq<u8>)
    ensures
        forall|i: int| 0 <= i < wire_items(count, b).len() ==> is_utf8(#[trigger] wire_items(count, b)[i]),
    decreases count,
{
    if count > 0 {
        if let Some((s, rest)) = read_str_spec(b) {
            lemma_wire_items_valid((count - 1) as nat, rest);
            assert forall|i: int| 0 <= i < wire_items(count, b).len() implies is_utf8(
                #[trigger] wire_items(count, b)[i],
            ) by {
                if i > 0 {
                    assert(wire_items(count, b)[i] == wire_items((count - 1) as nat, rest)[i - 1]);
                }
            }
        }
    }
}

/// Every string a list yields is valid UTF-8.
pub proof fn lemma_items_valid_utf8(c: CapList)
    ensures
        forall|i: int| 0 <= i < c@.items.len() ==> is_utf8(#[trigger] c@.items[i]),
{
    match c {
        CapList::Wire { count, bytes } => {
            lemma_wire_items_valid(count as nat, bytes@);
        },
        CapList::Slice(s) => {
            assert forall|i: int| 0 <= i < c@.items.len() implies is_utf8(
                #[trigger] c@.items[i],
            ) by {
                assert(c@.items[i] == bytes_of(s@[i]));
                lemma_str_is_utf8(s@[i]);
            }
        },
    }
}

impl<'a> CapList<'a> {
    /// Number of capabilities.
    pub fn len(&self) -> (r: usize)
        ensures
            r == self@.count,
    {
        match self {
            CapList::Slice(s) => s.len(),
            CapList::Wire { count, .. } => *count as usize,
        }
    }

    /// True when no capability is granted.
    pub fn is_empty(&self) -> (r: bool)
        ensures
            r == (self@.count == 0),
    {
        self.len() == 0
    }

    /// Iterate the capability strings.
    pub fn iter(&self) -> (r: CapIter<'a>)
        ensures
            r@ == self@.items,
    {
        match *self {
            CapList::Slice(s) => {
                let r = CapIter::Slice { items: s, pos: 0 };
                assert(s@.subrange(0, s@.len() as int) =~= s@);
                r
            },
            CapList::Wire { count, bytes } => CapIter::Wire { remaining: count, bytes },
        }
    }
}

impl<'a> CapIter<'a> {
    /// The next capability string.
    pub fn next(&mut self) -> (r: Option<&'a str>)
        ensures
            old(self)@.len() == 0 ==> r is None && final(self)@ == old(self)@,
            old(self)@.len() > 0 ==> (r matches Some(s) && bytes_of(s) == old(self)@[0]
                && final(self)@ == old(self)@.drop_first()),
    {
        match *self {
            CapIter::Slice { items, pos } => {
                if pos < items.len() {
                    let s = items[pos];
                    *self = CapIter::Slice { items, pos: pos + 1 };
                    assert(final(self)@ =~= old(self)@.drop_first());
                    Some(s)
                } else {
                    None
                }
            },
            CapIter::Wire { remaining, bytes } => {
                if remaining == 0 {
                    return None;
                }
                match read_str(bytes) {
                    Ok((s, rest)) => {
                        *self = CapIter::Wire { remaining: remaining - 1, bytes: rest };
                        Some(s)
                    },
                    Err(_) => {
                        *self = CapIter::Wire { remaining: remaining - 1, bytes };
                        proof {
                            if remaining > 1 {
                                assert(wire_items((remaining - 1) as nat, bytes@).len() == 0);
                            }
                        }
                        None
                    },
                }
            },
        }
    }

    /// Every remaining string, in order.
    pub fn collect(self) -> (r: Vec<&'a str>)
        ensures
            r@.map_values(|x: &str| bytes_of(x)) == self@,
    {
        let ghost all = self@;
        let mut it = self;
        let mut out: Vec<&'a str> = Vec::new();
        loop
            invariant
                out@.map_values(|x: &str| bytes_of(x)) + it@ == all,
            ensures
                out@.map_values(|x: &str| bytes_of(x)) == all,
            decreases it@.len(),
        {
            let ghost before = it@;
            match it.next() {
                Some(s) => {
                    out.push(s);
                    assert(out@.map_values(|x: &str| bytes_of(x)) + it@ =~= all) by {
                        assert(out@.map_values(|x: &str| bytes_of(x)) =~= bytes_after_push(
                            out@.drop_last(),
                            s,
                        ));
                        assert(before =~= seq![bytes_of(s)] + it@);
                    }
                },
                None => {
                    assert(it@.len() == 0);
                    assert(out@.map_values(|x: &str| bytes_of(x)) =~= all);
                    break ;
                },
            }
        }
        out
    }
}

spec fn bytes_after_push<'a>(prefix: Seq<&'a str>, s: &'a str) -> Seq<Seq<u8>> {
    prefix.map_values(|x: &str| bytes_of(x)).push(bytes_of(s))
}

/// Read one `len16 str` from the front of `r`.
fn read_str<'a>(r: &'a [u8]) -> (res: Result<(&'a str, &'a [u8])>)
    ensures
        match read_str_spec(r@) {
            Some((s, rest)) => res matches Ok((x, y)) && bytes_of(x) == s && y@ == rest,
            None => res == Err::<(&str, &[u8]), Error>(Error::InvalidFormat),
        },
{
    if r.len() < 2 {
        return Err(Error::InvalidFormat);
    }
    let len = read_be16(r) as usize;
    let (_, rest) = r.split_at(2);
    if rest.len() < len {
        return Err(Error::InvalidFormat);
    }
    let (s, tail) = rest.split_at(len);
    proof {
        reveal(is_utf8);
    }
    match utf8_str(s) {
        Some(s) => Ok((s, tail)),
        None => Err(Error::InvalidFormat),
    }
}

/// Step over `count` successive `len16 str`; the bytes stepped over and
/// what follows.
fn skip_caps<'a>(r: &'a [u8], count: u8) -> (res: Result<(&'a [u8], &'a [u8])>)
    ensures
        match skip_strs(count as nat, r@) {
            Some(rest) => res matches Ok((caps, tail)) && tail@ == rest && caps@ == r@.subrange(
                0,
                r@.len() - rest.len(),
            ),
            None => res == Err::<(&[u8], &[u8]), Error>(Error::InvalidFormat),
        },
{
    let ghost r7 = r@;
    let mut cur = r;
    let mut i: u8 = 0;
    while i < count
        invariant
            i <= count,
            skip_strs((count - i) as nat, cur@) == skip_strs(count as nat, r7),
            cur@.len() <= r7.len(),
            cur@ == r7.subrange(r7.len() - cur@.len(), r7.len() as int),
            r7 == r@,
        decreases count - i,
    {
        let ghost before = cur@;
        let (_, rest) = match read_str(cur) {
            Ok(x) => x,
            Err(e) => {
                return Err(e);
            },
        };
        assert(rest@ =~= r7.subrange(r7.len() - rest@.len(), r7.len() as int));
        cur = rest;
        i = i + 1;
    }
    let (caps, _) = r.split_at(r.len() - cur.len());
    Ok((caps, cur))
}

/// Read one byte from the front of `r`.
fn read_u8(r: &[u8]) -> (res: Result<(u8, &[u8])>)
    ensures
        r@.len() == 0 ==> res == Err::<(u8, &[u8]), Error>(Error::InvalidFormat),
        r@.len() > 0 ==> (res matches Ok((b, rest)) && b == r@[0] && rest@ == r@.subrange(
            1,
            r@.len() as int,
        )),
{
    if r.len() == 0 {
        return Err(Error::InvalidFormat);
    }
    let (head, rest) = r.split_at(1);
    Ok((head[0], rest))
}

/// Read `N` bytes from the front of `r`.
fn read_array<'a, const N: usize>(r: &'a [u8]) -> (res: Result<(&'a [u8; N], &'a [u8])>)
    ensures
        r@.len() < N ==> res == Err::<(&[u8; N], &[u8]), Error>(Error::InvalidFormat),
        r@.len() >= N ==> (res matches Ok((a, rest)) && a@ == r@.subrange(0, N as int) && rest@
            == r@.subrange(N as int, r@.len() as int)),
{
    if r.len() < N {
        return Err(Error::InvalidFormat);
    }
    let (head, rest) = r.split_at(N);
    match as_array::<N>(head) {
        Some(a) => Ok((a, rest)),
        None => Err(Error::InvalidFormat),
    }
}

/// Strip the literal `lit` from the front of `r`.
fn expect<'a>(r: &'a [u8], lit: &[u8]) -> (res: Result<&'a [u8]>)
    ensures
        (r@.len() >= lit@.len() && r@.subrange(0, lit@.len() as int) == lit@) ==> (res matches Ok(
            rest,
        ) && rest@ == r@.subrange(lit@.len() as int, r@.len() as int)),
        !(r@.len() >= lit@.len() && r@.subrange(0, lit@.len() as int) == lit@) ==> res == Err::<
            &[u8],
            Error,
        >(Error::InvalidFormat),
{
    if r.len() < lit.len() {
        return Err(Error::InvalidFormat);
    }
    let (head, rest) = r.split_at(lit.len());
    if !bytes_eq(head, lit) {
        return Err(Error::InvalidFormat);
    }
    Ok(rest)
}

/// `caps_wire` grows at the back one string at a time.
pub proof fn lemma_caps_wire_push(items: Seq<Seq<u8>>, x: Seq<u8>)
    ensures
        caps_wire(items.push(x)) == caps_wire(items) + str16(x),
    decreases items.len(),
{
    if items.len() == 0 {
        assert(items.push(x).drop_first() =~= Seq::<Seq<u8>>::empty());
        assert(caps_wire(Seq::<Seq<u8>>::empty()) =~= Seq::<u8>::empty());
        assert(items.push(x)[0] == x);
        assert(caps_wire(items.push(x)) =~= str16(x));
    } else {
        assert(items.push(x).drop_first() =~= items.drop_first().push(x));
        lemma_caps_wire_push(items.drop_first(), x);
        assert(caps_wire(items.push(x)) =~= caps_wire(items) + str16(x));
    }
}

/// The fields of an adoption, as bytes.
pub struct FieldsView {
    pub device_did: Seq<u8>,
    pub owner_did: Seq<u8>,
    pub owner_genesis_pubkey: Seq<u8>,
    pub hub_endpoint_id: Seq<u8>,
    pub hub_relay: Seq<u8>,
    pub hub_host: Seq<u8>,
    pub caps: CapListView,
    pub roster_version: u32,
    pub issued_at: u64,
    pub expires_at: u64,
}

/// Everything after the domain separator and the version byte.
pub open spec fn body_bytes(f: FieldsView) -> Seq<u8> {
    str16(f.device_did) + (str16(f.owner_did) + (f.owner_genesis_pubkey + (f.hub_endpoint_id + (
    str16(f.hub_relay) + (str16(f.hub_host) + (seq![f.caps.count as u8] + (caps_wire(
        f.caps.items,
    ) + (be32(f.roster_version) + (be64(f.issued_at) + be64(f.expires_at))))))))))
}

/// The canonical (signed) bytes of an adoption.
pub open spec fn canonical_bytes(f: FieldsView) -> Seq<u8> {
    adoption_domain() + (seq![ADOPTION_VERSION] + body_bytes(f))
}

/// The canonical bytes up to and including the capability count.
pub open spec fn head_bytes(f: FieldsView) -> Seq<u8> {
    adoption_domain() + seq![ADOPTION_VERSION] + str16(f.device_did) + str16(f.owner_did)
        + f.owner_genesis_pubkey + f.hub_endpoint_id + str16(f.hub_relay) + str16(f.hub_host)
        + seq![f.caps.count as u8]
}

/// The canonical bytes after the capabilities.
pub open spec fn tail_bytes(f: FieldsView) -> Seq<u8> {
    be32(f.roster_version) + be64(f.issued_at) + be64(f.expires_at)
}

#[verifier::spinoff_prover]
#[verifier::rlimit(40)]
proof fn lemma_canonical_split(f: FieldsView)
    ensures
        canonical_bytes(f) == head_bytes(f) + caps_wire(f.caps.items) + tail_bytes(f),
{
    assert(canonical_bytes(f) =~= head_bytes(f) + caps_wire(f.caps.items) + tail_bytes(f));
}

/// The field rules: bounded non-empty DIDs, bounded hub strings, at most
/// [`MAX_CAPS`] capabilities, each a bounded well-formed capability, and an
/// expiry (when set) after the issue time.
pub open spec fn validate_ok(f: FieldsView) -> bool {
    &&& f.device_did.len() <= MAX_FIELD_LEN
    &&& f.owner_did.len() <= MAX_FIELD_LEN
    &&& f.hub_relay.len() <= MAX_FIELD_LEN
    &&& f.hub_host.len() <= MAX_FIELD_LEN
    &&& f.device_did.len() > 0
    &&& f.owner_did.len() > 0
    &&& f.caps.count <= MAX_CAPS
    &&& forall|i: int|
        0 <= i < f.caps.items.len() ==> (#[trigger] f.caps.items[i]).len() <= MAX_FIELD_LEN
            && is_cap_text(f.caps.items[i])
    &&& (f.expires_at == 0 || f.issued_at < f.expires_at)
}

/// The fields of an adoption, over borrowed strings. Used both to encode
/// (the owner's tooling) and as the decoded view (the device).
#[derive(Debug, Clone, Copy, PartialEq, Eq)]
pub struct AdoptionFields<'a> {
    /// The adopted device.
    pub device_did: &'a str,
    /// The owner.
    pub owner_did: &'a str,
    /// The owner's genesis public key, 33 bytes compressed; what the device pins.
    pub owner_genesis_pubkey: &'a [u8; 33],
    /// The hub's iroh endpoint id, or all zeros.
    pub hub_endpoint_id: &'a [u8; 32],
    /// The hub's relay URL, or empty.
    pub hub_relay: &'a str,
    /// The hub's direct address `ip:port`, or empty.
    pub hub_host: &'a str,
    /// Capability strings granted to the hub over this device, in wire order.
    pub caps: CapList<'a>,
    /// The owner's roster version at signing time; monotonic.
    pub roster_version: u32,
    /// Unix seconds.
    pub issued_at: u64,
    /// Unix seconds; 0 means never.
    pub expires_at: u64,
}

impl<'a> View for AdoptionFields<'a> {
    type V = FieldsView;

    open spec fn view(&self) -> FieldsView {
        FieldsView {
            device_did: bytes_of(self.device_did),
            owner_did: bytes_of(self.owner_did),
            owner_genesis_pubkey: self.owner_genesis_pubkey@,
            hub_endpoint_id: self.hub_endpoint_id@,
            hub_relay: bytes_of(self.hub_relay),
            hub_host: bytes_of(self.hub_host),
            caps: self.caps@,
            roster_version: self.roster_version,
            issued_at: self.issued_at,
            expires_at: self.expires_at,
        }
    }
}

/// A validated adoption's canonical bytes are small: at most 10 000 bytes,
/// so [`AdoptionFields::canonical_len`] can always be asked for them.
pub proof fn lemma_canonical_len_bound(f: FieldsView)
    requires
        validate_ok(f),
        f.caps.items.len() <= f.caps.count,
        f.owner_genesis_pubkey.len() == 33,
        f.hub_endpoint_id.len() == 32,
    ensures
        canonical_bytes(f).len() <= 10000,
{
    lemma_caps_wire_len_bound(f.caps.items);
}

proof fn lemma_caps_wire_len_bound(items: Seq<Seq<u8>>)
    requires
        forall|i: int| 0 <= i < items.len() ==> (#[trigger] items[i]).len() <= MAX_FIELD_LEN,
    ensures
        caps_wire(items).len() <= items.len() * 257,
    decreases items.len(),
{
    if items.len() > 0 {
        assert forall|i: int| 0 <= i < items.drop_first().len() implies (
        #[trigger] items.drop_first()[i]).len() <= MAX_FIELD_LEN by {
            assert(items.drop_first()[i] == items[i + 1]);
        }
        lemma_caps_wire_len_bound(items.drop_first());
        assert(items[0].len() <= MAX_FIELD_LEN);
    }
}

/// Writes canonical bytes into a buffer, front to back.
struct Writer {
    pos: usize,
}

impl Writer {
    fn bytes(
        &mut self,
        out: &mut [u8],
        b: &[u8],
        Ghost(acc): Ghost<Seq<u8>>,
        Ghost(o): Ghost<Seq<u8>>,
    )
        requires
            old(self).pos == acc.len(),
            old(out)@ == acc + o.subrange(acc.len() as int, o.len() as int),
            acc.len() + b@.len() <= o.len(),
            o.len() == old(out)@.len(),
        ensures
            final(self).pos == acc.len() + b@.len(),
            final(out)@ == (acc + b@) + o.subrange(acc.len() + b@.len() as int, o.len() as int),
    {
        let _n = out.len();
        copy_into(out, self.pos, b);
        self.pos = self.pos + b.len();
        assert(out@ =~= (acc + b@) + o.subrange(acc.len() + b@.len() as int, o.len() as int));
    }

    fn str16(
        &mut self,
        out: &mut [u8],
        s: &str,
        Ghost(acc): Ghost<Seq<u8>>,
        Ghost(o): Ghost<Seq<u8>>,
    )
        requires
            old(self).pos == acc.len(),
            old(out)@ == acc + o.subrange(acc.len() as int, o.len() as int),
            acc.len() + 2 + bytes_of(s).len() <= o.len(),
            o.len() == old(out)@.len(),
            bytes_of(s).len() <= 0xffff,
        ensures
            final(self).pos == acc.len() + 2 + bytes_of(s).len(),
            final(out)@ == (acc + str16(bytes_of(s))) + o.subrange(
                acc.len() + 2 + bytes_of(s).len() as int,
                o.len() as int,
            ),
    {
        let len = be16_bytes(byte_len(s) as u16);
        assert(len@ == be16(bytes_of(s).len() as u16));
        self.bytes(out, &len, Ghost(acc), Ghost(o));
        self.bytes(out, s.as_bytes(), Ghost(acc + be16(bytes_of(s).len() as u16)), Ghost(o));
        assert((acc + be16(bytes_of(s).len() as u16)) + bytes_of(s) =~= acc + str16(bytes_of(s)));
    }
}

impl<'a> AdoptionFields<'a> {
    /// Validate field lengths and the capability strings.
    pub fn validate(&self) -> (r: Result<()>)
        ensures
            r is Ok <==> validate_ok(self@),
            r is Err ==> r == Err::<(), Error>(Error::InvalidFormat),
    {
        if byte_len(self.device_did) > MAX_FIELD_LEN || byte_len(self.owner_did) > MAX_FIELD_LEN
            || byte_len(self.hub_relay) > MAX_FIELD_LEN || byte_len(self.hub_host) > MAX_FIELD_LEN {
            return Err(Error::InvalidFormat);
        }
        if byte_len(self.device_did) == 0 || byte_len(self.owner_did) == 0 {
            return Err(Error::InvalidFormat);
        }
        if self.caps.len() > MAX_CAPS {
            return Err(Error::InvalidFormat);
        }
        let ghost items = self@.caps.items;
        let mut it = self.caps.iter();
        let ghost mut done: Seq<Seq<u8>> = Seq::empty();
        loop
            invariant
                done + it@ == items,
                items == self@.caps.items,
                forall|j: int|
                    0 <= j < done.len() ==> (#[trigger] done[j]).len() <= MAX_FIELD_LEN
                        && is_cap_text(done[j]),
            ensures
                forall|j: int|
                    0 <= j < items.len() ==> (#[trigger] items[j]).len() <= MAX_FIELD_LEN
                        && is_cap_text(items[j]),
            decreases it@.len(),
        {
            let ghost before = it@;
            match it.next() {
                Some(cap) => {
                    assert((done + before)[done.len() as int] == before[0]);
                    assert(items[done.len() as int] == bytes_of(cap));
                    let l = byte_len(cap);
                    let bad = match Cap::parse(cap) {
                        Some(_) => l > MAX_FIELD_LEN,
                        None => true,
                    };
                    if bad {
                        assert(!validate_ok(self@)) by {
                            assert(!((self@.caps.items[done.len() as int]).len() <= MAX_FIELD_LEN
                                && is_cap_text(self@.caps.items[done.len() as int])));
                        }
                        return Err(Error::InvalidFormat);
                    }
                    assert(bytes_of(cap).len() <= MAX_FIELD_LEN && is_cap_text(bytes_of(cap)));
                    proof {
                        let old_done = done;
                        done = done.push(bytes_of(cap));
                        assert(done + it@ =~= items);
                        assert forall|j: int| 0 <= j < done.len() implies (
                        #[trigger] done[j]).len() <= MAX_FIELD_LEN && is_cap_text(done[j]) by {
                            if j < old_done.len() {
                                assert(done[j] == old_done[j]);
                            }
                        }
                    }
                },
                None => {
                    assert(done =~= items);
                    break ;
                },
            }
        }
        if self.expires_at != 0 && self.expires_at <= self.issued_at {
            return Err(Error::InvalidFormat);
        }
        Ok(())
    }

    /// Bytes needed by [`Self::encode`], excluding the signature.
    pub fn canonical_len(&self) -> (r: usize)
        requires
            canonical_bytes(self@).len() <= usize::MAX,
        ensures
            r == canonical_bytes(self@).len(),
    {
        let ghost f = self@;
        let mut n: usize = ADOPTION_DOMAIN.len() + 1;
        n += 2 + byte_len(self.device_did) + 2 + byte_len(self.owner_did);
        n += 33 + 32;
        n += 2 + byte_len(self.hub_relay) + 2 + byte_len(self.hub_host);
        n += 1;
        let ghost base = n as int;
        let mut it = self.caps.iter();
        let ghost mut done: Seq<Seq<u8>> = Seq::empty();
        proof {
            lemma_caps_wire_concat_len(f.caps.items, 0);
        }
        loop
            invariant
                done + it@ == f.caps.items,
                n == base + caps_wire(done).len(),
                base + caps_wire(f.caps.items).len() + 20 == canonical_bytes(f).len(),
                canonical_bytes(f).len() <= usize::MAX,
            ensures
                n == base + caps_wire(f.caps.items).len(),
            decreases it@.len(),
        {
            match it.next() {
                Some(cap) => {
                    proof {
                        lemma_caps_wire_push(done, bytes_of(cap));
                        lemma_caps_wire_concat_len(f.caps.items, done.len() as int + 1);
                        assert(f.caps.items.subrange(0, done.len() as int + 1) =~= done.push(
                            bytes_of(cap),
                        ));
                    }
                    n += 2 + byte_len(cap);
                    proof {
                        done = done.push(bytes_of(cap));
                    }
                    assert(done + it@ =~= f.caps.items);
                },
                None => {
                    assert(done =~= f.caps.items);
                    break ;
                },
            }
        }
        n + 4 + 8 + 8
    }

    /// Write the canonical (unsigned) bytes into `out`; returns the length.
    pub fn encode(&self, out: &mut [u8]) -> (r: Result<usize>)
        ensures
            final(out)@.len() == old(out)@.len(),
            !validate_ok(self@) ==> r == Err::<usize, Error>(Error::InvalidFormat) && final(out)@
                == old(out)@,
            validate_ok(self@) && old(out)@.len() < canonical_bytes(self@).len() ==> r == Err::<
                usize,
                Error,
            >(Error::BufferTooSmall { needed: canonical_bytes(self@).len() as usize })
                && final(out)@ == old(out)@,
            validate_ok(self@) && old(out)@.len() >= canonical_bytes(self@).len() ==> r == Ok::<
                usize,
                Error,
            >(canonical_bytes(self@).len() as usize) && final(out)@ == canonical_bytes(self@)
                + old(out)@.subrange(canonical_bytes(self@).len() as int, old(out)@.len() as int),
    {
        self.validate()?;
        let ghost f = self@;
        proof {
            lemma_items_within_count(self.caps);
            lemma_canonical_len_bound(f);
            lemma_canonical_split(f);
        }
        let needed = self.canonical_len();
        if out.len() < needed {
            return Err(Error::BufferTooSmall { needed });
        }
        let ghost o = out@;
        let mut w = Writer { pos: 0 };
        self.write_head(&mut w, out, Ghost(o));
        self.write_caps(&mut w, out, Ghost(o));
        self.write_tail(&mut w, out, Ghost(o));
        assert(head_bytes(f) + caps_wire(f.caps.items) + tail_bytes(f) =~= canonical_bytes(f));
        Ok(w.pos)
    }

    fn write_head(&self, w: &mut Writer, out: &mut [u8], Ghost(o): Ghost<Seq<u8>>)
        requires
            old(w).pos == 0,
            old(out)@ == o,
            validate_ok(self@),
            canonical_bytes(self@).len() <= o.len(),
            canonical_bytes(self@) == head_bytes(self@) + caps_wire(self@.caps.items)
                + tail_bytes(self@),
        ensures
            final(w).pos == head_bytes(self@).len(),
            final(out)@ == head_bytes(self@) + o.subrange(
                head_bytes(self@).len() as int,
                o.len() as int,
            ),
    {
        let ghost f = self@;
        assert(out@ =~= Seq::<u8>::empty() + o.subrange(0, o.len() as int));
        let ghost acc: Seq<u8> = Seq::empty();
        let dom: &[u8] = &ADOPTION_DOMAIN;
        assert(dom@ == adoption_domain());
        w.bytes(out, dom, Ghost(acc), Ghost(o));
        let ghost acc = acc + adoption_domain();
        let version = [ADOPTION_VERSION];
        let vs: &[u8] = &version;
        assert(vs@ =~= seq![ADOPTION_VERSION]);
        w.bytes(out, vs, Ghost(acc), Ghost(o));
        let ghost acc = acc + seq![ADOPTION_VERSION];
        w.str16(out, self.device_did, Ghost(acc), Ghost(o));
        let ghost acc = acc + str16(f.device_did);
        w.str16(out, self.owner_did, Ghost(acc), Ghost(o));
        let ghost acc = acc + str16(f.owner_did);
        w.bytes(out, self.owner_genesis_pubkey, Ghost(acc), Ghost(o));
        let ghost acc = acc + f.owner_genesis_pubkey;
        w.bytes(out, self.hub_endpoint_id, Ghost(acc), Ghost(o));
        let ghost acc = acc + f.hub_endpoint_id;
        w.str16(out, self.hub_relay, Ghost(acc), Ghost(o));
        let ghost acc = acc + str16(f.hub_relay);
        w.str16(out, self.hub_host, Ghost(acc), Ghost(o));
        let ghost acc = acc + str16(f.hub_host);
        let count = [self.caps.len() as u8];
        let cs: &[u8] = &count;
        assert(cs@ =~= seq![f.caps.count as u8]);
        w.bytes(out, cs, Ghost(acc), Ghost(o));
        let ghost acc = acc + seq![f.caps.count as u8];
        assert(acc =~= head_bytes(f));
    }

    fn write_caps(&self, w: &mut Writer, out: &mut [u8], Ghost(o): Ghost<Seq<u8>>)
        requires
            old(w).pos == head_bytes(self@).len(),
            old(out)@ == head_bytes(self@) + o.subrange(
                head_bytes(self@).len() as int,
                o.len() as int,
            ),
            o.len() == old(out)@.len(),
            validate_ok(self@),
            canonical_bytes(self@).len() <= o.len(),
            canonical_bytes(self@) == head_bytes(self@) + caps_wire(self@.caps.items)
                + tail_bytes(self@),
        ensures
            final(w).pos == (head_bytes(self@) + caps_wire(self@.caps.items)).len(),
            final(out)@ == (head_bytes(self@) + caps_wire(self@.caps.items)) + o.subrange(
                (head_bytes(self@) + caps_wire(self@.caps.items)).len() as int,
                o.len() as int,
            ),
    {
        let ghost f = self@;
        let ghost before_caps = head_bytes(f);
        let mut it = self.caps.iter();
        let ghost mut done: Seq<Seq<u8>> = Seq::empty();
        let ghost mut acc = before_caps;
        assert(acc =~= before_caps + caps_wire(done));
        loop
            invariant
                done + it@ == f.caps.items,
                acc == before_caps + caps_wire(done),
                w.pos == acc.len(),
                out@ == acc + o.subrange(acc.len() as int, o.len() as int),
                canonical_bytes(f) == before_caps + caps_wire(f.caps.items) + tail_bytes(f),
                canonical_bytes(f).len() <= o.len(),
                o.len() == old(out)@.len(),
                validate_ok(f),
                f == self@,
            ensures
                acc == before_caps + caps_wire(f.caps.items),
                w.pos == acc.len(),
                out@ == acc + o.subrange(acc.len() as int, o.len() as int),
            decreases it@.len(),
        {
            let ghost before = it@;
            match it.next() {
                Some(cap) => {
                    proof {
                        assert((done + before)[done.len() as int] == before[0]);
                        assert(f.caps.items[done.len() as int] == bytes_of(cap));
                        lemma_caps_wire_push(done, bytes_of(cap));
                        lemma_caps_wire_concat_len(f.caps.items, done.len() as int + 1);
                        assert(f.caps.items.subrange(0, done.len() as int + 1) =~= done.push(
                            bytes_of(cap),
                        ));
                    }
                    w.str16(out, cap, Ghost(acc), Ghost(o));
                    proof {
                        acc = acc + str16(bytes_of(cap));
                        done = done.push(bytes_of(cap));
                        assert(acc =~= before_caps + caps_wire(done));
                    }
                    assert(done + it@ =~= f.caps.items);
                },
                None => {
                    assert(done =~= f.caps.items);
                    break ;
                },
            }
        }
    }

    fn write_tail(&self, w: &mut Writer, out: &mut [u8], Ghost(o): Ghost<Seq<u8>>)
        requires
            old(w).pos == (head_bytes(self@) + caps_wire(self@.caps.items)).len(),
            old(out)@ == (head_bytes(self@) + caps_wire(self@.caps.items)) + o.subrange(
                (head_bytes(self@) + caps_wire(self@.caps.items)).len() as int,
                o.len() as int,
            ),
            o.len() == old(out)@.len(),
            canonical_bytes(self@).len() <= o.len(),
            canonical_bytes(self@) == head_bytes(self@) + caps_wire(self@.caps.items)
                + tail_bytes(self@),
        ensures
            final(w).pos == canonical_bytes(self@).len(),
            final(out)@ == canonical_bytes(self@) + o.subrange(
                canonical_bytes(self@).len() as int,
                o.len() as int,
            ),
    {
        let ghost f = self@;
        let ghost acc = head_bytes(f) + caps_wire(f.caps.items);
        let rv = be32_bytes(self.roster_version);
        w.bytes(out, &rv, Ghost(acc), Ghost(o));
        let ghost acc = acc + be32(f.roster_version);
        let ia = be64_bytes(self.issued_at);
        w.bytes(out, &ia, Ghost(acc), Ghost(o));
        let ghost acc = acc + be64(f.issued_at);
        let ea = be64_bytes(self.expires_at);
        w.bytes(out, &ea, Ghost(acc), Ghost(o));
        let ghost acc = acc + be64(f.expires_at);
        assert(acc =~= canonical_bytes(f));
    }

    /// Encode and sign into `out` (canonical bytes followed by the 64-byte
    /// signature); returns the total length. The signer is the owner's key.
    pub fn sign_into<S: DeviceSigner>(&self, signer: &S, out: &mut [u8]) -> (r: Result<usize>)
        ensures
            final(out)@.len() == old(out)@.len(),
            !validate_ok(self@) ==> r == Err::<usize, Error>(Error::InvalidFormat) && final(out)@
                == old(out)@,
            validate_ok(self@) && old(out)@.len() < canonical_bytes(self@).len() ==> r == Err::<
                usize,
                Error,
            >(Error::BufferTooSmall { needed: canonical_bytes(self@).len() as usize })
                && final(out)@ == old(out)@,
            validate_ok(self@) && canonical_bytes(self@).len() <= old(out)@.len()
                < canonical_bytes(self@).len() + SIG_LEN ==> r == Err::<usize, Error>(
                Error::BufferTooSmall { needed: (canonical_bytes(self@).len() + SIG_LEN) as usize },
            ) && final(out)@ == canonical_bytes(self@) + old(out)@.subrange(
                canonical_bytes(self@).len() as int,
                old(out)@.len() as int,
            ),
            validate_ok(self@) && old(out)@.len() >= canonical_bytes(self@).len() + SIG_LEN ==> {
                let n = canonical_bytes(self@).len();
                &&& r == Ok::<usize, Error>((n + SIG_LEN) as usize)
                &&& final(out)@.subrange(0, n as int) == canonical_bytes(self@)
                &&& signer.produces(
                    sha256_digest(canonical_bytes(self@)),
                    final(out)@.subrange(n as int, n + SIG_LEN),
                )
                &&& final(out)@.subrange(n + SIG_LEN, old(out)@.len() as int) == old(
                    out,
                )@.subrange(n + SIG_LEN, old(out)@.len() as int)
            },
    {
        let n = self.encode(out)?;
        proof {
            lemma_items_within_count(self.caps);
            lemma_canonical_len_bound(self@);
        }
        if out.len() < SIG_LEN || n > out.len() - SIG_LEN {
            return Err(Error::BufferTooSmall { needed: n + SIG_LEN });
        }
        let total = n + SIG_LEN;
        let ghost c = canonical_bytes(self@);
        let ghost mid = out@;
        let (head, _) = out.split_at(n);
        assert(head@ =~= c);
        let prehash = sha256(head);
        let sig = signer.sign_prehash(&prehash);
        copy_into(out, n, &sig);
        assert(out@.subrange(0, n as int) =~= c);
        assert(out@.subrange(n as int, total as int) =~= sig@);
        assert(out@.subrange(total as int, out@.len() as int) =~= old(out)@.subrange(
            total as int,
            old(out)@.len() as int,
        ));
        Ok(total)
    }
}

/// The length of the strings' wire form splits at any position.
proof fn lemma_caps_wire_concat_len(items: Seq<Seq<u8>>, k: int)
    requires
        0 <= k <= items.len(),
    ensures
        caps_wire(items).len() == caps_wire(items.subrange(0, k)).len() + caps_wire(
            items.subrange(k, items.len() as int),
        ).len(),
    decreases items.len(),
{
    if k == 0 {
        assert(items.subrange(0, 0) =~= Seq::<Seq<u8>>::empty());
        assert(items.subrange(0, items.len() as int) =~= items);
    } else {
        lemma_caps_wire_concat_len(items.drop_first(), k - 1);
        assert(items.drop_first().subrange(0, k - 1) =~= items.subrange(0, k).drop_first());
        assert(items.drop_first().subrange(k - 1, items.drop_first().len() as int)
            =~= items.subrange(k, items.len() as int));
        assert(items.subrange(0, k)[0] == items[0]);
    }
}

/// The owner pin a device stores after its first adoption.
#[derive(Debug, Clone, Copy, PartialEq, Eq)]
pub struct OwnerPin {
    /// The owner's genesis public key.
    pub genesis_pubkey: [u8; 33],
    /// The highest roster version accepted so far.
    pub roster_version: u32,
}

/// The stored form of a pin: the key, then the roster version big-endian.
pub open spec fn pin_bytes(key: Seq<u8>, roster_version: u32) -> Seq<u8> {
    key + be32(roster_version)
}

impl OwnerPin {
    /// Encoded length: the 33-byte key and a 4-byte roster version.
    pub const LEN: usize = 37;

    /// Encode into `out`.
    pub fn encode(&self, out: &mut [u8]) -> (r: Result<usize>)
        ensures
            final(out)@.len() == old(out)@.len(),
            old(out)@.len() < OWNER_PIN_LEN ==> r == Err::<usize, Error>(
                Error::BufferTooSmall { needed: OWNER_PIN_LEN },
            ) && final(out)@ == old(out)@,
            old(out)@.len() >= OWNER_PIN_LEN ==> r == Ok::<usize, Error>(OWNER_PIN_LEN)
                && final(out)@ == pin_bytes(self.genesis_pubkey@, self.roster_version) + old(
                out,
            )@.subrange(OWNER_PIN_LEN as int, old(out)@.len() as int),
    {
        if out.len() < OWNER_PIN_LEN {
            return Err(Error::BufferTooSmall { needed: OWNER_PIN_LEN });
        }
        let ghost o = out@;
        copy_into(out, 0, &self.genesis_pubkey);
        let rv = be32_bytes(self.roster_version);
        copy_into(out, 33, &rv);
        assert(out@ =~= pin_bytes(self.genesis_pubkey@, self.roster_version) + o.subrange(
            OWNER_PIN_LEN as int,
            o.len() as int,
        ));
        Ok(OWNER_PIN_LEN)
    }

    /// Decode from `bytes`.
    pub fn decode(bytes: &[u8]) -> (r: Result<Self>)
        ensures
            bytes@.len() != OWNER_PIN_LEN ==> r == Err::<OwnerPin, Error>(Error::Corrupt),
            bytes@.len() == OWNER_PIN_LEN ==> (r matches Ok(p) && p.genesis_pubkey@
                == bytes@.subrange(0, 33) && p.roster_version == from_be32(
                bytes@.subrange(33, 37),
            )),
    {
        if bytes.len() != OWNER_PIN_LEN {
            return Err(Error::Corrupt);
        }
        let (head, tail) = bytes.split_at(33);
        let genesis_pubkey: [u8; 33] = match as_array::<33>(head) {
            Some(a) => *a,
            None => return Err(Error::Corrupt),
        };
        let roster_version = read_be32(tail);
        Ok(OwnerPin { genesis_pubkey, roster_version })
    }
}

/// An encoded pin decodes to the pin, and a decodable pin is the encoding
/// of what it decodes to.
pub proof fn lemma_pin_round_trip(key: Seq<u8>, roster_version: u32, bytes: Seq<u8>)
    requires
        key.len() == 33,
    ensures
        pin_bytes(key, roster_version).len() == OWNER_PIN_LEN,
        pin_bytes(key, roster_version).subrange(0, 33) == key,
        from_be32(pin_bytes(key, roster_version).subrange(33, 37)) == roster_version,
        bytes.len() == OWNER_PIN_LEN ==> pin_bytes(
            bytes.subrange(0, 33),
            from_be32(bytes.subrange(33, 37)),
        ) == bytes,
{
    crate::wire::lemma_be32_round_trip(roster_version);
    assert(pin_bytes(key, roster_version).subrange(0, 33) =~= key);
    assert(pin_bytes(key, roster_version).subrange(33, 37) =~= be32(roster_version));
    if bytes.len() == OWNER_PIN_LEN {
        crate::wire::lemma_from_be32_canonical(bytes.subrange(33, 37));
        assert(pin_bytes(bytes.subrange(0, 33), from_be32(bytes.subrange(33, 37))) =~= bytes);
    }
}

/// A decoded adoption, as bytes.
pub struct AdoptionView {
    pub fields: FieldsView,
    pub signature: Seq<u8>,
    pub canonical: Seq<u8>,
}

/// The capability count, the capability strings and the three trailing
/// integers, which must end the bytes exactly.
pub open spec fn parse_tail(r6: Seq<u8>) -> Option<(CapListView, u32, u64, u64)> {
    if r6.len() < 1 {
        None
    } else {
        let count = r6[0];
        let r7 = r6.subrange(1, r6.len() as int);
        match skip_strs(count as nat, r7) {
            None => None,
            Some(r8) => if r8.len() != 20 {
                None
            } else {
                let caps_bytes = r7.subrange(0, r7.len() - r8.len());
                Some(
                    (
                        CapListView { count: count as nat, items: wire_items(count as nat, caps_bytes) },
                        from_be32(r8.subrange(0, 4)),
                        from_be64(r8.subrange(4, 12)),
                        from_be64(r8.subrange(12, 20)),
                    ),
                )
            },
        }
    }
}

/// The hub relay and host strings, then [`parse_tail`].
pub open spec fn parse_hub(r4: Seq<u8>) -> Option<(Seq<u8>, Seq<u8>, CapListView, u32, u64, u64)> {
    match read_str_spec(r4) {
        None => None,
        Some((relay, r5)) => match read_str_spec(r5) {
            None => None,
            Some((host, r6)) => match parse_tail(r6) {
                None => None,
                Some((caps, rv, ia, ea)) => Some((relay, host, caps, rv, ia, ea)),
            },
        },
    }
}

/// The fields after the domain separator and the version byte, or `None`
/// when the bytes do not follow the grammar.
#[verifier::opaque]
pub open spec fn parse_body(r0: Seq<u8>) -> Option<FieldsView> {
    match read_str_spec(r0) {
        None => None,
        Some((dd, r1)) => match read_str_spec(r1) {
            None => None,
            Some((od, r2)) => if r2.len() < 33 {
                None
            } else {
                let pk = r2.subrange(0, 33);
                let r3 = r2.subrange(33, r2.len() as int);
                if r3.len() < 32 {
                    None
                } else {
                    let hub = r3.subrange(0, 32);
                    let r4 = r3.subrange(32, r3.len() as int);
                    match parse_hub(r4) {
                        None => None,
                        Some((relay, host, caps, rv, ia, ea)) => Some(
                            FieldsView {
                                device_did: dd,
                                owner_did: od,
                                owner_genesis_pubkey: pk,
                                hub_endpoint_id: hub,
                                hub_relay: relay,
                                hub_host: host,
                                caps,
                                roster_version: rv,
                                issued_at: ia,
                                expires_at: ea,
                            },
                        ),
                    }
                }
            },
        },
    }
}

/// What [`Adoption::decode`] makes of `b`.
pub open spec fn decode_spec(b: Seq<u8>) -> core::result::Result<AdoptionView, Error> {
    if b.len() < adoption_domain().len() + 1 + SIG_LEN {
        Err(Error::InvalidFormat)
    } else {
        let c = b.subrange(0, b.len() - SIG_LEN);
        let sig = b.subrange(b.len() - SIG_LEN, b.len() as int);
        if c.subrange(0, adoption_domain().len() as int) != adoption_domain() {
            Err(Error::InvalidFormat)
        } else if c[adoption_domain().len() as int] != ADOPTION_VERSION {
            Err(Error::Unsupported)
        } else {
            match parse_body(c.subrange(adoption_domain().len() as int + 1, c.len() as int)) {
                None => Err(Error::InvalidFormat),
                Some(f) => if validate_ok(f) {
                    Ok(AdoptionView { fields: f, signature: sig, canonical: c })
                } else {
                    Err(Error::InvalidFormat)
                },
            }
        }
    }
}

/// A decoded, signature-carrying adoption.
#[derive(Debug, Clone, Copy)]
pub struct Adoption<'a> {
    /// The fields.
    pub fields: AdoptionFields<'a>,
    /// The signature over the canonical bytes.
    pub signature: &'a [u8; SIG_LEN],
    /// The canonical bytes (everything before the signature).
    canonical: &'a [u8],
}

impl<'a> View for Adoption<'a> {
    type V = AdoptionView;

    closed spec fn view(&self) -> AdoptionView {
        AdoptionView {
            fields: self.fields@,
            signature: self.signature@,
            canonical: self.canonical@,
        }
    }
}

/// What [`Adoption::accept`] demands besides the signature: a pin (when
/// present) from the same owner at a roster version no older, and no
/// expiry at `now` (when known).
pub open spec fn pin_and_time_ok(f: FieldsView, pin: Option<OwnerPin>, now: Option<u64>) -> bool {
    &&& (pin matches Some(p) ==> p.genesis_pubkey@ == f.owner_genesis_pubkey
        && f.roster_version >= p.roster_version)
    &&& (now matches Some(t) ==> f.expires_at == 0 || t < f.expires_at)
}

/// The adoption's signature verifies under its own owner key.
pub open spec fn signature_ok(a: AdoptionView) -> bool {
    accepts(a.fields.owner_genesis_pubkey, sha256_digest(a.canonical), a.signature)
}

impl<'a> Adoption<'a> {
    /// The fields.
    pub fn fields(&self) -> (r: &AdoptionFields<'a>)
        ensures
            r@ == self@.fields,
    {
        &self.fields
    }

    /// The signature over the canonical bytes.
    pub fn signature(&self) -> (r: &'a [u8; SIG_LEN])
        ensures
            r@ == self@.signature,
    {
        self.signature
    }

    /// The canonical bytes: everything before the signature.
    pub fn canonical(&self) -> (r: &'a [u8])
        ensures
            r@ == self@.canonical,
    {
        self.canonical
    }

    /// Decode a signed adoption from `bytes` without verifying it.
    pub fn decode(bytes: &'a [u8]) -> (r: Result<Self>)
        ensures
            match r {
                Ok(a) => decode_spec(bytes@) == Ok::<AdoptionView, Error>(a@),
                Err(e) => decode_spec(bytes@) == Err::<AdoptionView, Error>(e),
            },
    {
        if bytes.len() < ADOPTION_DOMAIN.len() + 1 + SIG_LEN {
            return Err(Error::InvalidFormat);
        }
        let (canonical, sig_bytes) = bytes.split_at(bytes.len() - SIG_LEN);
        let signature: &[u8; SIG_LEN] = match as_array::<SIG_LEN>(sig_bytes) {
            Some(s) => s,
            None => return Err(Error::InvalidFormat),
        };
        let ghost c = canonical@;
        let r = expect(canonical, &ADOPTION_DOMAIN)?;
        let (version, r) = read_u8(r)?;
        if version != ADOPTION_VERSION {
            return Err(Error::Unsupported);
        }
        assert(r@ =~= c.subrange(adoption_domain().len() as int + 1, c.len() as int));
        let fields = match Self::decode_body(r) {
            Ok(f) => f,
            Err(e) => return Err(e),
        };
        fields.validate()?;
        Ok(Adoption { fields, signature, canonical })
    }

    /// The fields after the version byte.
    fn decode_body(r: &'a [u8]) -> (res: Result<AdoptionFields<'a>>)
        ensures
            match res {
                Ok(f) => parse_body(r@) == Some(f@),
                Err(e) => parse_body(r@) is None && e == Error::InvalidFormat,
            },
    {
        proof {
            reveal(parse_body);
        }
        let ghost r0 = r@;
        let (device_did, r) = read_str(r)?;
        let (owner_did, r) = read_str(r)?;
        let (owner_genesis_pubkey, r) = read_array::<33>(r)?;
        let (hub_endpoint_id, r) = read_array::<32>(r)?;
        let (hub_relay, r) = read_str(r)?;
        let (hub_host, r) = read_str(r)?;
        let (count, r) = read_u8(r)?;
        let ghost r7 = r@;
        let (caps_bytes, r) = skip_caps(r, count)?;
        let ghost r8 = r@;
        let (rv, r) = read_array::<4>(r)?;
        let (ia, r) = read_array::<8>(r)?;
        let (ea, rest) = read_array::<8>(r)?;
        if rest.len() != 0 {
            return Err(Error::InvalidFormat);
        }
        let fields = AdoptionFields {
            device_did,
            owner_did,
            owner_genesis_pubkey,
            hub_endpoint_id,
            hub_relay,
            hub_host,
            caps: CapList::Wire { count, bytes: caps_bytes },
            roster_version: read_be32(rv),
            issued_at: read_be64(ia),
            expires_at: read_be64(ea),
        };
        assert(rv@ =~= r8.subrange(0, 4));
        assert(ia@ =~= r8.subrange(4, 12));
        assert(ea@ =~= r8.subrange(12, 20));
        Ok(fields)
    }

    /// Verify the signature under the embedded owner genesis key. This alone
    /// does **not** make the adoption acceptable; see [`Self::accept`].
    pub fn verify_signature(&self) -> (r: Result<()>)
        ensures
            r is Ok <==> signature_ok(self@),
            r is Err ==> r == Err::<(), Error>(Error::Crypto),
    {
        let prehash = sha256(self.canonical);
        verify_prehash(self.fields.owner_genesis_pubkey, &prehash, self.signature)
    }

    /// The full acceptance check a device runs:
    ///
    /// 1. the adoption names *this* device;
    /// 2. the signature verifies under the embedded owner key;
    /// 3. if a pin exists, the owner key equals the pinned key and the roster
    ///    version is not older than the pinned one;
    /// 4. not expired at `now` (Unix seconds; `None` when the device has no
    ///    wall clock yet).
    ///
    /// Returns the pin to store.
    pub fn accept(&self, my_did: &str, pin: Option<&OwnerPin>, now: Option<u64>) -> (r: Result<
        OwnerPin,
    >)
        ensures
            self@.fields.device_did != bytes_of(my_did) ==> r == Err::<OwnerPin, Error>(
                Error::Denied,
            ),
            self@.fields.device_did == bytes_of(my_did) && !signature_ok(self@) ==> r == Err::<
                OwnerPin,
                Error,
            >(Error::Crypto),
            self@.fields.device_did == bytes_of(my_did) && signature_ok(self@) && !pin_and_time_ok(
                self@.fields,
                match pin {
                    Some(p) => Some(*p),
                    None => None,
                },
                now,
            ) ==> r == Err::<OwnerPin, Error>(Error::Denied),
            r is Ok <==> (self@.fields.device_did == bytes_of(my_did) && signature_ok(self@)
                && pin_and_time_ok(
                self@.fields,
                match pin {
                    Some(p) => Some(*p),
                    None => None,
                },
                now,
            )),
            r matches Ok(p) ==> p.genesis_pubkey@ == self@.fields.owner_genesis_pubkey
                && p.roster_version == self@.fields.roster_version,
    {
        if !str_eq(self.fields.device_did, my_did) {
            return Err(Error::Denied);
        }
        self.verify_signature()?;
        if let Some(pin) = pin {
            if !bytes_eq(&pin.genesis_pubkey, self.fields.owner_genesis_pubkey) {
                return Err(Error::Denied);
            }
            if self.fields.roster_version < pin.roster_version {
                return Err(Error::Denied);
            }
        }
        if let Some(now) = now {
            if self.fields.expires_at != 0 && now >= self.fields.expires_at {
                return Err(Error::Denied);
            }
        }
        Ok(OwnerPin {
            genesis_pubkey: *self.fields.owner_genesis_pubkey,
            roster_version: self.fields.roster_version,
        })
    }

    /// Does this adoption grant `needed` to the hub?
    pub fn grants(&self, needed: &str) -> (r: bool)
        ensures
            r == exists|i: int|
                0 <= i < self@.fields.caps.items.len() && text_satisfies(
                    #[trigger] self@.fields.caps.items[i],
                    bytes_of(needed),
                ),
    {
        let caps = self.fields.caps.iter().collect();
        let r = any_satisfies(caps.as_slice(), needed);
        proof {
            let items = self@.fields.caps.items;
            if r {
                let i = choose|i: int|
                    0 <= i < caps@.len() && text_satisfies(
                        bytes_of(#[trigger] caps@[i]),
                        bytes_of(needed),
                    );
                assert(items[i] == bytes_of(caps@[i]));
            } else {
                assert forall|i: int| 0 <= i < items.len() implies !text_satisfies(
                    #[trigger] items[i],
                    bytes_of(needed),
                ) by {
                    assert(items[i] == bytes_of(caps@[i]));
                }
            }
        }
        r
    }
}

} // verus!
