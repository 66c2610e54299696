//! The family error: one small, `Copy` error for every fallible call.

use vstd::prelude::*;

use rusty_esp_core::error::Error as CoreError;

verus! {

/// The family error: small, `Copy`, allocation-free.
#[derive(Debug, Clone, Copy, PartialEq, Eq, Structural, Hash)]
pub enum Error {
    /// The format, version or feature is not supported here.
    Unsupported,
    /// A caller-supplied buffer is too small; `needed` is the size that
    /// would have succeeded.
    BufferTooSmall {
        /// Bytes required.
        needed: usize,
    },
    /// Dimensions or lengths do not agree.
    InvalidGeometry,
    /// A value violates the canonical encoding (bad tag, wrong length,
    /// overlong field).
    InvalidFormat,
    /// The peripheral, transport or storage reported a fault.
    Hardware,
    /// The operation did not complete in time.
    Timeout,
    /// The resource is held by someone else right now.
    Busy,
    /// A signature, key or proof failed to verify.
    Crypto,
    /// The caller holds no capability that permits this.
    Denied,
    /// Stored data failed integrity checks.
    Corrupt,
}

/// Shorthand used throughout the crate.
pub type Result<T> = core::result::Result<T, Error>;

/// `rusty_esp_core::error::Error`, carried through opaque.
#[verifier::external_type_specification]
#[verifier::external_body]
pub struct ExCoreError(CoreError);

/// `rusty_esp_core`'s error as this crate's: each variant to the variant of
/// the same name, `needed` moved across. The two enums list the same ten
/// variants; the outside one is `non_exhaustive`, and a variant it may add
/// later becomes `Unsupported`. Nothing is stated of the result here: the
/// wrappers that call this state the errors their outside calls return.
#[verifier::external_body]
pub(crate) fn from_core(e: CoreError) -> Error {
    match e {
        CoreError::Unsupported => Error::Unsupported,
        CoreError::BufferTooSmall { needed } => Error::BufferTooSmall { needed },
        CoreError::InvalidGeometry => Error::InvalidGeometry,
        CoreError::InvalidFormat => Error::InvalidFormat,
        CoreError::Hardware => Error::Hardware,
        CoreError::Timeout => Error::Timeout,
        CoreError::Busy => Error::Busy,
        CoreError::Crypto => Error::Crypto,
        CoreError::Denied => Error::Denied,
        CoreError::Corrupt => Error::Corrupt,
        _ => Error::Unsupported,
    }
}

} // verus!
