use base64::engine::general_purpose::URL_SAFE_NO_PAD;
use base64::Engine;
use rusty_esp_mid::jws::{build_jws_compact, JWS_HEADER_JSON};
use rusty_esp_mid::signer::verify_prehash;
use rusty_esp_mid::DeviceKey;

#[test]
fn three_segments_with_expected_header_and_signature_size() {
    let k = DeviceKey::from_seed_for_tests("jws", "dev").unwrap();
    let jws = build_jws_compact(br#"{"x":1}"#, &k);
    let parts: Vec<&str> = jws.split('.').collect();
    assert_eq!(parts.len(), 3);
    assert_eq!(
        URL_SAFE_NO_PAD.decode(parts[0]).unwrap(),
        JWS_HEADER_JSON.as_bytes()
    );
    assert_eq!(URL_SAFE_NO_PAD.decode(parts[2]).unwrap().len(), 64);
}

#[test]
fn signature_covers_the_first_two_segments() {
    let k = DeviceKey::from_seed_for_tests("jws", "dev").unwrap();
    let jws = build_jws_compact(b"{\"sub\":\"bench\"}", &k);
    let (input, sig_b64) = jws.rsplit_once('.').unwrap();
    let sig: [u8; 64] = URL_SAFE_NO_PAD.decode(sig_b64).unwrap().try_into().unwrap();
    verify_prehash(k.did().pubkey(), &rusty_esp_mid::sha256(input.as_bytes()), &sig).unwrap();
    assert_eq!(input.split('.').nth(1).unwrap(), URL_SAFE_NO_PAD.encode(b"{\"sub\":\"bench\"}"));
    assert_eq!(
        input.split('.').next().unwrap(),
        "eyJhbGciOiJFUzI1NiIsInR5cCI6IkpXVCJ9"
    );
}
