//! MATA mID on a microcontroller, with its contracts proved by Verus.
//!
//! A Janus device is its own `did:mata`: a P-256 key generated on the chip,
//! whose compressed public key *is* the identifier. This crate holds
//! everything about that identity that needs no driver:
//!
//! | Module | Holds |
//! |---|---|
//! | [`did`] | [`Did`]: `did:mata:<base58btc(33-byte SEC1)>`, encode and parse |
//! | [`key`] | [`DeviceKey`]: generate from a TRNG, persist through the `Kv` seam, ECDH |
//! | [`signer`] | [`DeviceSigner`] and the low-s verifier |
//! | [`kms`] | the `NonceEnvelope` canonical form and the `SignedAssertion` a gateway verifies |
//! | [`jws`] · [`roster`] · [`token`] | JWS ES256, the self-signed genesis roster, the self-issued token's fields |
//! | [`cap`] | `component:action@scope` matching |
//! | [`adoption`] | the owner-signed adoption grant: who this device answers to |
//! | [`nonce`] | a bounded single-use nonce window |
//! | [`manifest`] | signing the `rusty_esp_core` capability manifest |
//! | [`esp`] · [`bench`] | the chip backend's decisions and the benchmark statistics |
//!
//! Every format uses the same discipline: a domain separator, length
//! prefixes, big-endian integers, SHA-256, low-s ECDSA. The calls into
//! `sha2`, `p256`, `bs58` and `base64` are in [`crypto`], each with the
//! contract this crate relies on.

pub mod error;
pub mod text;
pub mod wire;
pub mod crypto;
pub mod signer;
pub mod hal;
pub mod cap;
pub mod did;
pub mod key;
pub mod adoption;
pub mod adoption_laws;
pub mod nonce;
pub mod kms;
pub mod manifest;
pub mod jws;
pub mod roster;
pub mod token;
pub mod esp;
pub mod bench;
pub mod prelude;

pub use adoption::{Adoption, AdoptionFields, OwnerPin};
pub use crypto::sha256;
pub use did::Did;
pub use key::{DeviceId, DeviceKey};
pub use nonce::NonceWindow;
pub use roster::VM_TYPE_ECDSA_P256;
pub use signer::{verify_prehash, DeviceSigner};
pub use rusty_esp_core as esp_core;
