//! The two seams a firmware provides to the key store: an entropy source
//! and small persistent key/value storage. A chip backend implements them
//! over its TRNG and NVS; on the host, `rusty_esp_core`'s in-memory store
//! serves as the key/value seam.

use vstd::prelude::*;

use rusty_esp_core::hal::host::MemoryKv;

use crate::error::{Error, Result};
use crate::text::bytes_of;

verus! {

/// A cryptographically secure entropy source, a hardware TRNG on the chip.
///
/// Implementations must never fall back to a deterministic generator without
/// returning an error: a predictable device key is a compromised device.
pub trait Rng {
    /// Fill `buf` with random bytes.
    fn fill(&mut self, buf: &mut [u8]) -> (r: Result<()>)
        ensures
            final(buf)@.len() == old(buf)@.len(),
    ;
}

/// What `get` answers for a key holding `value`, into a buffer of `room`
/// bytes: the length when it fits, `BufferTooSmall` with the length
/// otherwise, `Ok(None)` when nothing is stored.
pub open spec fn get_outcome(value: Option<Seq<u8>>, room: nat) -> Result<Option<usize>> {
    match value {
        None => Ok(None),
        Some(v) => if v.len() <= room {
            Ok(Some(v.len() as usize))
        } else {
            Err(Error::BufferTooSmall { needed: v.len() as usize })
        },
    }
}

/// Small persistent key/value storage: NVS on the chip, memory on the host.
///
/// Keys are ASCII, at most 15 bytes. Values are opaque bytes. A store says
/// what it holds ([`Kv::stored`]) and which keys it serves without fault
/// ([`Kv::serves`]): on those, `get` and `put` always succeed as stated.
pub trait Kv {
    /// The value stored under `key`, if any.
    spec fn stored(&self, key: Seq<u8>) -> Option<Seq<u8>>;

    /// The keys on which this store does not fail.
    spec fn serves(&self, key: Seq<u8>) -> bool;

    /// Copy the value for `key` into `out`. Returns the value length, or
    /// `Ok(None)` when the key is absent. A too-small `out` is
    /// `BufferTooSmall` with the length needed.
    fn get(&self, key: &str, out: &mut [u8]) -> (r: Result<Option<usize>>)
        ensures
            final(out)@.len() == old(out)@.len(),
            self.serves(bytes_of(key)) ==> r == get_outcome(
                self.stored(bytes_of(key)),
                old(out)@.len(),
            ),
            r matches Ok(None) ==> self.stored(bytes_of(key)) is None,
            r matches Ok(Some(n)) ==> (self.stored(bytes_of(key)) matches Some(v) && v.len() == n
                && n <= old(out)@.len() && final(out)@.subrange(0, n as int) == v),
    ;

    /// Store `value` under `key`, replacing any prior value; every other
    /// key keeps what it held.
    fn put(&mut self, key: &str, value: &[u8]) -> (r: Result<()>)
        ensures
            old(self).serves(bytes_of(key)) ==> r is Ok,
            r is Ok ==> final(self).stored(bytes_of(key)) == Some(value@),
            r is Ok ==> forall|k: Seq<u8>|
                k != bytes_of(key) ==> #[trigger] final(self).stored(k) == old(self).stored(k),
    ;
}

/// A byte allowed in a store key: ASCII alphanumeric, `_`, `.` or `-`.
pub open spec fn is_kv_key_byte(b: u8) -> bool {
    (0x30 <= b <= 0x39) || (0x41 <= b <= 0x5a) || (0x61 <= b <= 0x7a) || b == 0x5f || b == 0x2e
        || b == 0x2d
}

/// A key `rusty_esp_core`'s stores accept: 1 to 15 key bytes.
pub open spec fn is_kv_key(key: Seq<u8>) -> bool {
    1 <= key.len() <= 15 && forall|i: int| 0 <= i < key.len() ==> is_kv_key_byte(#[trigger] key[i])
}

/// `rusty_esp_core::hal::host::MemoryKv`, carried through opaque.
#[verifier::external_type_specification]
#[verifier::external_body]
pub struct ExMemoryKv(MemoryKv);

/// What a `MemoryKv` holds: each key's bytes to its value's bytes.
pub uninterp spec fn memory_kv_contents(kv: MemoryKv) -> Map<Seq<u8>, Seq<u8>>;

/// `Kv::get` of `MemoryKv`. As its source shows: a key outside the key rule
/// is `InvalidFormat`; otherwise an absent key is `Ok(None)`, a value longer
/// than `out` is `BufferTooSmall` with its length, and a value that fits is
/// copied to the start of `out` and its length returned. Only that copy
/// writes to `out`.
#[verifier::external_body]
fn memory_kv_get(kv: &MemoryKv, key: &str, out: &mut [u8]) -> (r: Result<Option<usize>>)
    ensures
        final(out)@.len() == old(out)@.len(),
        !is_kv_key(bytes_of(key)) ==> r matches Err(Error::InvalidFormat),
        is_kv_key(bytes_of(key)) && !memory_kv_contents(*kv).dom().contains(bytes_of(key)) ==> r
            matches Ok(None),
        is_kv_key(bytes_of(key)) && memory_kv_contents(*kv).dom().contains(bytes_of(key)) ==> r
            == get_outcome(Some(memory_kv_contents(*kv)[bytes_of(key)]), old(out)@.len()),
        r matches Ok(Some(n)) ==> final(out)@.take(n as int) == memory_kv_contents(*kv)[bytes_of(
            key,
        )],
        r matches Ok(Some(n)) ==> final(out)@.skip(n as int) == old(out)@.skip(n as int),
        r matches Ok(None) ==> final(out)@ == old(out)@,
        r is Err ==> final(out)@ == old(out)@,
{
    rusty_esp_core::hal::Kv::get(kv, key, out).map_err(crate::error::from_core)
}

/// `Kv::put` of `MemoryKv`. As its source shows: a key outside the key
/// rule is `InvalidFormat` and nothing changes; otherwise the value is
/// inserted under the key, replacing any prior one.
#[verifier::external_body]
fn memory_kv_put(kv: &mut MemoryKv, key: &str, value: &[u8]) -> (r: Result<()>)
    ensures
        !is_kv_key(bytes_of(key)) ==> r matches Err(Error::InvalidFormat),
        !is_kv_key(bytes_of(key)) ==> memory_kv_contents(*final(kv)) == memory_kv_contents(
            *old(kv),
        ),
        is_kv_key(bytes_of(key)) ==> r is Ok,
        is_kv_key(bytes_of(key)) ==> memory_kv_contents(*final(kv)) == memory_kv_contents(
            *old(kv),
        ).insert(bytes_of(key), value@),
{
    rusty_esp_core::hal::Kv::put(kv, key, value).map_err(crate::error::from_core)
}

impl Kv for MemoryKv {
    open spec fn stored(&self, key: Seq<u8>) -> Option<Seq<u8>> {
        if memory_kv_contents(*self).dom().contains(key) {
            Some(memory_kv_contents(*self)[key])
        } else {
            None
        }
    }

    open spec fn serves(&self, key: Seq<u8>) -> bool {
        is_kv_key(key)
    }

    fn get(&self, key: &str, out: &mut [u8]) -> (r: Result<Option<usize>>) {
        let r = memory_kv_get(self, key, out);
        proof {
            if let Ok(Some(n)) = r {
                assert(final(out)@.subrange(0, n as int) == final(out)@.take(n as int));
            }
        }
        r
    }

    fn put(&mut self, key: &str, value: &[u8]) -> (r: Result<()>) {
        memory_kv_put(self, key, value)
    }
}

} // verus!
