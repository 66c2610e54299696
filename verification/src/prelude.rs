//! The names a firmware or a backend wants in scope.

pub use crate::adoption::{Adoption, AdoptionFields, OwnerPin};
pub use crate::did::Did;
pub use crate::hal::{Kv, Rng};
pub use crate::key::{DeviceId, DeviceKey};
pub use crate::nonce::NonceWindow;
pub use crate::signer::DeviceSigner;
