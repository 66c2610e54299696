//! The chip backend's decisions: how well the key partition protects what
//! is written to it, whether a secret may be stored there, and when the
//! hardware generator may hand out bytes. The NVS and RNG calls themselves
//! belong to the firmware.
//!
//! What "encrypted" means, stated exactly: the firmware was configured with
//! NVS encryption (XTS-AES keys in the `nvs_keys` partition) **and** flash
//! encryption, so neither a flash dump nor a plaintext `nvs_keys` partition
//! yields the key. Anything less is [`Protection::Plaintext`], refused for
//! secrets unless the build allows an insecure development board.

use vstd::prelude::*;

use crate::error::{Error, Result};

verus! {

/// How well the partition protects what is written to it.
#[derive(Debug, Clone, Copy, PartialEq, Eq, Structural)]
pub enum Protection {
    /// NVS encryption and flash encryption are both configured.
    Encrypted,
    /// At least one of them is off: a flash dump reveals the values.
    Plaintext,
}

/// The label of the partition a device's identity lives in. Never the
/// owner's `nvs`, which a provisioning tool rewrites whole.
pub const IDENTITY_PARTITION: &'static str = "identity";

/// The protection a build gives: encrypted only when both NVS encryption
/// and flash encryption are configured.
pub fn protection(nvs_encryption: bool, flash_encryption: bool) -> (r: Protection)
    ensures
        r == (if nvs_encryption && flash_encryption {
            Protection::Encrypted
        } else {
            Protection::Plaintext
        }),
{
    if nvs_encryption && flash_encryption {
        Protection::Encrypted
    } else {
        Protection::Plaintext
    }
}

/// May a secret be stored under `protection`? A plaintext partition is
/// refused with [`Error::Denied`] unless the build allows an insecure
/// development board.
pub fn refuse_plaintext(protection: Protection, allow_insecure_dev: bool) -> (r: Result<()>)
    ensures
        r is Err <==> (protection == Protection::Plaintext && !allow_insecure_dev),
        r is Err ==> r == Err::<(), Error>(Error::Denied),
{
    if protection == Protection::Plaintext && !allow_insecure_dev {
        return Err(Error::Denied);
    }
    Ok(())
}

/// A stored value of `len` bytes can be read into `out_len` bytes, or the
/// size needed is reported.
pub fn blob_fits(len: usize, out_len: usize) -> (r: Result<()>)
    ensures
        r is Ok <==> len <= out_len,
        r is Err ==> r == Err::<(), Error>(Error::BufferTooSmall { needed: len }),
{
    if out_len < len {
        return Err(Error::BufferTooSmall { needed: len });
    }
    Ok(())
}

/// The chip RNG's gate. `esp_fill_random` is a true random source only
/// while the RF subsystem runs (or the bootloader's RNG enable is still in
/// effect); otherwise it degrades to a pseudo-random one. So the generator
/// refuses to hand out bytes until the caller has vouched that the radio is
/// up: never silently fall back to a predictable generator.
#[derive(Debug, Clone, Copy)]
pub struct EspRng {
    armed: bool,
}

impl EspRng {
    /// Whether the generator hands out bytes.
    pub closed spec fn is_armed(&self) -> bool {
        self.armed
    }

    /// Construct **after** Wi-Fi or Bluetooth has started, which is what
    /// makes the hardware RNG a true one on ESP32-class chips.
    pub fn after_radio_start() -> (r: Self)
        ensures
            r.is_armed(),
    {
        EspRng { armed: true }
    }

    /// A generator that refuses every request: for code paths that must
    /// carry a generator before the radio is up.
    pub fn unarmed() -> (r: Self)
        ensures
            !r.is_armed(),
    {
        EspRng { armed: false }
    }

    /// What a request for `len` bytes gets: refused with [`Error::Busy`]
    /// when unarmed, nothing to do for an empty buffer (`Ok(false)`), else
    /// the hardware is read (`Ok(true)`).
    pub fn fill_request(&self, len: usize) -> (r: Result<bool>)
        ensures
            !self.is_armed() ==> r == Err::<bool, Error>(Error::Busy),
            self.is_armed() ==> r == Ok::<bool, Error>(len > 0),
    {
        if !self.armed {
            return Err(Error::Busy);
        }
        Ok(len > 0)
    }
}

} // verus!
