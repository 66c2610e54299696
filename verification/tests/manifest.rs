use rusty_esp_core::capability::{Capability, Chip, Declared, Manifest};
use rusty_esp_mid::error::Error;
use rusty_esp_mid::manifest::{
    maker_prehash, sign_manifest, sign_manifest_bytes, verify_maker, verify_manifest,
    MAKER_DOMAIN,
};
use rusty_esp_mid::{DeviceKey, DeviceSigner};

#[test]
fn manifest_signature_round_trip_and_tamper() {
    let k = DeviceKey::from_seed_for_tests("m", "cam-1").unwrap();
    let declared = [
        Declared::available(Capability::ImageJpeg, "rusty_esp_image"),
        Declared::preview(Capability::MidDevice, "rusty_esp_mid"),
    ];
    let m = Manifest {
        model: "acme/doorbell-2",
        firmware: "1.4.0",
        chip: Chip::Esp32S3,
        declared: &declared,
    };
    let mut buf = [0u8; 512];
    let (n, sig) = sign_manifest(&m, &k, &mut buf).unwrap();
    verify_manifest(&buf[..n], &sig, k.did().pubkey()).unwrap();
    buf[n - 2] ^= 1;
    assert_eq!(
        verify_manifest(&buf[..n], &sig, k.did().pubkey()),
        Err(Error::Crypto)
    );
}

#[test]
fn maker_attestation() {
    let maker = DeviceKey::from_seed_for_tests("maker", "factory").unwrap();
    let sig = maker.sign_prehash(&maker_prehash("acme/doorbell-2", "1.4.0"));
    verify_maker("acme/doorbell-2", "1.4.0", &sig, maker.did().pubkey()).unwrap();
    assert_eq!(
        verify_maker("acme/doorbell-2", "1.4.1", &sig, maker.did().pubkey()),
        Err(Error::Crypto)
    );
}

#[test]
fn maker_prehash_layout() {
    let mut m = MAKER_DOMAIN.to_vec();
    m.extend_from_slice(&[0, 3]);
    m.extend_from_slice(b"abc");
    m.extend_from_slice(&[0, 2]);
    m.extend_from_slice(b"de");
    assert_eq!(maker_prehash("abc", "de"), rusty_esp_mid::sha256(&m));
}

#[test]
fn manifest_errors_pass_through_and_bytes_sign_alike() {
    let k = DeviceKey::from_seed_for_tests("m", "cam-1").unwrap();
    let declared = [Declared::available(Capability::ImageJpeg, "rusty_esp_image")];
    let m = Manifest {
        model: "acme/doorbell-2",
        firmware: "1.4.0",
        chip: Chip::Esp32S3,
        declared: &declared,
    };
    let mut small = [0u8; 4];
    assert!(matches!(
        sign_manifest(&m, &k, &mut small),
        Err(Error::BufferTooSmall { .. })
    ));
    let bad = Manifest { model: "", ..m };
    let mut buf = [0u8; 256];
    assert_eq!(sign_manifest(&bad, &k, &mut buf).err(), Some(Error::InvalidFormat));
    let (n, sig) = sign_manifest(&m, &k, &mut buf).unwrap();
    assert_eq!(sign_manifest_bytes(&buf[..n], &k), sig);
    assert_eq!(
        verify_manifest(&buf[..n], &sig, &[2u8; 33]),
        Err(Error::Crypto)
    );
}
