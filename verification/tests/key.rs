use rusty_esp_core::error::Error as CoreError;
use rusty_esp_core::hal::host::{InsecureTestRng, MemoryKv};
use rusty_esp_mid::error::{Error, Result};
use rusty_esp_mid::hal::{Kv, Rng};
use rusty_esp_mid::key::{judge_draw, DeviceId, DeviceKey, Draw, GENERATE_ATTEMPTS};
use rusty_esp_mid::signer::{verify_prehash, DeviceSigner};

fn core_error(e: CoreError) -> Error {
    match e {
        CoreError::BufferTooSmall { needed } => Error::BufferTooSmall { needed },
        CoreError::InvalidFormat => Error::InvalidFormat,
        CoreError::Corrupt => Error::Corrupt,
        CoreError::Crypto => Error::Crypto,
        CoreError::Denied => Error::Denied,
        CoreError::Busy => Error::Busy,
        _ => Error::Hardware,
    }
}

/// The host's deterministic generator behind this crate's seam.
struct TestRng(InsecureTestRng);

impl Rng for TestRng {
    fn fill(&mut self, buf: &mut [u8]) -> Result<()> {
        rusty_esp_core::hal::Rng::fill(&mut self.0, buf).map_err(core_error)
    }
}

/// A generator that only ever produces zeros: never a valid scalar.
struct ZeroRng;

impl Rng for ZeroRng {
    fn fill(&mut self, buf: &mut [u8]) -> Result<()> {
        for b in buf.iter_mut() {
            *b = 0;
        }
        Ok(())
    }
}

struct BrokenRng;

impl Rng for BrokenRng {
    fn fill(&mut self, _buf: &mut [u8]) -> Result<()> {
        Err(Error::Hardware)
    }
}

#[test]
fn generate_store_load_is_stable() {
    let mut rng = TestRng(InsecureTestRng::seeded(42));
    let mut kv = MemoryKv::new();
    let a = DeviceKey::load_or_generate(&mut kv, &mut rng, "cam-1").unwrap();
    let b = DeviceKey::load_or_generate(&mut kv, &mut rng, "cam-1").unwrap();
    assert_eq!(a.did(), b.did());
    assert_eq!(a.secret_bytes(), b.secret_bytes());
    assert_eq!(kv.len(), 1);
}

#[test]
fn signatures_are_low_s_and_verify() {
    let k = DeviceKey::from_seed_for_tests("k", "dev").unwrap();
    let prehash = rusty_esp_mid::sha256(b"hello");
    let sig = k.sign_prehash(&prehash);
    verify_prehash(k.did().pubkey(), &prehash, &sig).unwrap();
    let mut other = prehash;
    other[0] ^= 1;
    assert_eq!(
        verify_prehash(k.did().pubkey(), &other, &sig),
        Err(Error::Crypto)
    );
}

#[test]
fn device_id_rules() {
    assert!(DeviceId::new("cam-1.a_b").is_ok());
    assert_eq!(DeviceId::new(""), Err(Error::InvalidFormat));
    assert_eq!(DeviceId::new("has space"), Err(Error::InvalidFormat));
    assert_eq!(
        DeviceId::new("012345678901234567890123456789012"),
        Err(Error::InvalidFormat)
    );
}

#[test]
fn corrupt_store_is_reported() {
    let mut kv = MemoryKv::new();
    kv.put(DeviceKey::KV_KEY, &[1, 2, 3]).unwrap();
    assert_eq!(DeviceKey::load(&kv, "dev").err(), Some(Error::Corrupt));
}

#[test]
fn ecdh_agrees_both_ways() {
    let a = DeviceKey::from_seed_for_tests("a", "a").unwrap();
    let b = DeviceKey::from_seed_for_tests("b", "b").unwrap();
    assert_eq!(
        a.shared_secret(&b.did()).unwrap(),
        b.shared_secret(&a.did()).unwrap()
    );
}

#[test]
fn device_id_is_kept_and_reported() {
    let id = DeviceId::new("cam-1.a_b").unwrap();
    assert_eq!(id.as_str(), "cam-1.a_b");
    assert_eq!(id, DeviceId::new("cam-1.a_b").unwrap());
    assert_ne!(id, DeviceId::new("cam-2").unwrap());
    assert!(DeviceId::new("01234567890123456789012345678901").is_ok());
    let k = DeviceKey::from_seed_for_tests("k", "dev").unwrap();
    assert_eq!(k.device_id().as_str(), "dev");
    assert_eq!(DeviceSigner::device_id(&k), "dev");
}

#[test]
fn from_secret_checks_id_then_scalar() {
    assert_eq!(
        DeviceKey::from_secret(&[0u8; 32], "bad id").err(),
        Some(Error::InvalidFormat)
    );
    assert_eq!(DeviceKey::from_secret(&[0u8; 32], "dev").err(), Some(Error::Crypto));
    assert_eq!(DeviceKey::from_secret(&[0xFFu8; 32], "dev").err(), Some(Error::Crypto));
    let mut one = [0u8; 32];
    one[31] = 1;
    let k = DeviceKey::from_secret(&one, "dev").unwrap();
    assert_eq!(k.secret_bytes(), one);
    // The key of scalar 1 is the generator.
    assert_eq!(k.pubkey_sec1_uncompressed()[0], 4);
    assert_eq!(&k.pubkey_sec1_uncompressed()[1..33], &k.did().pubkey()[1..]);
    assert_eq!(k.did().pubkey()[1], 0x6b);
}

#[test]
fn generate_reports_exhaustion_and_entropy_failure() {
    let mut zero = ZeroRng;
    assert_eq!(DeviceKey::generate(&mut zero, "dev").err(), Some(Error::Crypto));
    let mut broken = BrokenRng;
    assert_eq!(DeviceKey::generate(&mut broken, "dev").err(), Some(Error::Hardware));
    let mut rng = TestRng(InsecureTestRng::seeded(7));
    assert_eq!(DeviceKey::generate(&mut rng, "no space").err(), Some(Error::InvalidFormat));
}

#[test]
fn load_of_an_empty_store_is_none_and_stored_key_loads_back() {
    let mut kv = MemoryKv::new();
    assert!(DeviceKey::load(&kv, "dev").unwrap().is_none());
    let k = DeviceKey::from_seed_for_tests("stored", "dev").unwrap();
    k.store(&mut kv).unwrap();
    let back = DeviceKey::load(&kv, "dev").unwrap().unwrap();
    assert_eq!(back.secret_bytes(), k.secret_bytes());
    assert_eq!(back.did(), k.did());
    let mut too_long = MemoryKv::new();
    too_long.put(DeviceKey::KV_KEY, &[1u8; 40]).unwrap();
    assert_eq!(
        DeviceKey::load(&too_long, "dev").err(),
        Some(Error::BufferTooSmall { needed: 40 })
    );
}

#[test]
fn load_or_generate_leaves_other_keys_alone() {
    let mut rng = TestRng(InsecureTestRng::seeded(9));
    let mut kv = MemoryKv::new();
    kv.put("other", b"xyz").unwrap();
    let k = DeviceKey::load_or_generate(&mut kv, &mut rng, "dev").unwrap();
    assert_eq!(kv.len(), 2);
    let mut out = [0u8; 8];
    assert_eq!(kv.get("other", &mut out).unwrap(), Some(3));
    assert_eq!(&out[..3], b"xyz");
    let mut secret = [0u8; 32];
    assert_eq!(kv.get(DeviceKey::KV_KEY, &mut secret).unwrap(), Some(32));
    assert_eq!(secret, k.secret_bytes());
}

#[test]
fn memory_store_behind_the_seam_follows_its_key_rule() {
    let mut kv = MemoryKv::new();
    assert_eq!(kv.put("this_key_is_far_too_long", b""), Err(Error::InvalidFormat));
    assert_eq!(kv.get("", &mut [0u8; 4]), Err(Error::InvalidFormat));
    assert_eq!(kv.get("k", &mut [0u8; 4]), Ok(None));
    kv.put("k", b"abc").unwrap();
    assert_eq!(kv.get("k", &mut [0u8; 2]), Err(Error::BufferTooSmall { needed: 3 }));
}

#[test]
fn from_stored_decides_on_what_was_read() {
    let secret = DeviceKey::from_seed_for_tests("s", "dev").unwrap().secret_bytes();
    assert!(DeviceKey::from_stored(None, &secret, "dev").unwrap().is_none());
    assert_eq!(DeviceKey::from_stored(Some(31), &secret, "dev").err(), Some(Error::Corrupt));
    let k = DeviceKey::from_stored(Some(32), &secret, "dev").unwrap().unwrap();
    assert_eq!(k.secret_bytes(), secret);
}

#[test]
fn seed_key_is_the_hash_of_seed_and_suffix() {
    let k = DeviceKey::from_seed_for_tests("k", "dev").unwrap();
    let expected = rusty_esp_mid::sha256(b"k-rusty-esp-mid-test-seed");
    assert_eq!(k.secret_bytes(), expected);
}

#[test]
fn known_sha256_vector() {
    let d = rusty_esp_mid::sha256(b"abc");
    assert_eq!(d[0], 0xba);
    assert_eq!(d[1], 0x78);
    assert_eq!(d[31], 0xad);
}

#[test]
fn each_draw_is_accepted_retried_or_the_last() {
    let good = DeviceKey::from_seed_for_tests("d", "dev").unwrap().secret_bytes();
    assert_eq!(judge_draw(&good, 0), Draw::Accept);
    assert_eq!(judge_draw(&good, GENERATE_ATTEMPTS - 1), Draw::Accept);
    assert_eq!(judge_draw(&[0u8; 32], 0), Draw::Retry);
    assert_eq!(judge_draw(&[0xFFu8; 32], GENERATE_ATTEMPTS - 2), Draw::Retry);
    assert_eq!(judge_draw(&[0u8; 32], GENERATE_ATTEMPTS - 1), Draw::GiveUp);
    assert_eq!(judge_draw(&[0u8; 32], GENERATE_ATTEMPTS), Draw::GiveUp);
    assert_eq!(GENERATE_ATTEMPTS, 8);
}
