use p256::ecdsa::Signature;
use rusty_esp_mid::error::Error;
use rusty_esp_mid::signer::verify_prehash;
use rusty_esp_mid::{DeviceKey, DeviceSigner};

#[test]
fn high_s_is_rejected() {
    let k = DeviceKey::from_seed_for_tests("s", "dev").unwrap();
    let prehash = rusty_esp_mid::sha256(b"x");
    let low = k.sign_prehash(&prehash);
    // Flip to the high-s twin: s' = n - s.
    let sig = Signature::from_slice(&low).unwrap();
    let (r, s) = sig.split_scalars();
    let high_s = -*s;
    let high = Signature::from_scalars(r, high_s).unwrap();
    let mut bytes = [0u8; 64];
    bytes.copy_from_slice(&high.to_bytes());
    assert_eq!(
        verify_prehash(k.did().pubkey(), &prehash, &bytes),
        Err(Error::Crypto)
    );
    assert!(verify_prehash(k.did().pubkey(), &prehash, &low).is_ok());
}

#[test]
fn malformed_inputs_are_crypto_errors() {
    let k = DeviceKey::from_seed_for_tests("s", "dev").unwrap();
    let prehash = rusty_esp_mid::sha256(b"x");
    let sig = k.sign_prehash(&prehash);
    assert_eq!(verify_prehash(&[0u8; 33], &prehash, &sig), Err(Error::Crypto));
    assert_eq!(verify_prehash(k.did().pubkey(), &prehash, &[0u8; 64]), Err(Error::Crypto));
    let uncompressed = k.pubkey_sec1_uncompressed();
    assert!(verify_prehash(&uncompressed, &prehash, &sig).is_ok());
}

#[test]
fn device_signer_is_byte_identical_to_kms_client() {
    let k = DeviceKey::from_seed_for_tests("oracle", "cam-1").unwrap();
    let sk = p256::ecdsa::SigningKey::from_bytes(&k.secret_bytes().into()).unwrap();
    let oracle = mid_signer::InMemoryDeviceSigner::new(k.device_id().as_str(), sk);
    for msg in [b"a".as_slice(), b"hello world", &[0u8; 100]] {
        let prehash = rusty_esp_mid::sha256(msg);
        // RFC 6979 deterministic signing: same key, same prehash, same bytes.
        assert_eq!(
            k.sign_prehash(&prehash),
            mid_signer::DeviceSigner::sign_prehash(&oracle, &prehash)
        );
    }
    assert_eq!(
        k.device_id().as_str(),
        mid_signer::DeviceSigner::device_id(&oracle)
    );
}
