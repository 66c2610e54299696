use rusty_esp_mid::error::Error;
use rusty_esp_mid::kms::{
    NonceEnvelope, NonceEnvelopeRef, ASSERTION_TYPE, ENVELOPE_VERSION, NONCE_DOMAIN,
};
use rusty_esp_mid::signer::verify_prehash;
use rusty_esp_mid::{DeviceKey, DeviceSigner};

fn env<'a>(did: &'a str, nonce: &'a [u8; 32]) -> NonceEnvelopeRef<'a> {
    NonceEnvelopeRef {
        envelope_version: 1,
        nonce,
        did,
        audience: "home-computer",
        purpose: "janus.telemetry",
        issued_at: 1_716_583_200,
        expires_at: 1_716_583_230,
        issuer: "home-computer-gateway",
    }
}

#[test]
fn canonical_is_deterministic_and_field_sensitive() {
    let k = DeviceKey::from_seed_for_tests("kms", "dev").unwrap();
    let did = k.did().to_did_string();
    let nonce = [0xAB; 32];
    let a = env(&did, &nonce);
    let base = a.canonical_bytes();
    assert_eq!(base, a.canonical_bytes());
    let mut b = a;
    b.purpose = "janus.control";
    assert_ne!(base, b.canonical_bytes());
    let mut c = a;
    c.expires_at += 1;
    assert_ne!(base, c.canonical_bytes());
}

#[test]
fn validate_rules() {
    let k = DeviceKey::from_seed_for_tests("kms", "dev").unwrap();
    let did = k.did().to_did_string();
    let nonce = [1u8; 32];
    assert!(env(&did, &nonce).validate().is_ok());
    let mut bad = env(&did, &nonce);
    bad.expires_at = bad.issued_at + 301;
    assert_eq!(bad.validate(), Err(Error::InvalidFormat));
    let short = [1u8; 31];
    let mut bad = env(&did, &nonce);
    bad.nonce = &short;
    assert_eq!(bad.validate(), Err(Error::InvalidFormat));
    let mut bad = env(&did, &nonce);
    bad.envelope_version = 2;
    assert_eq!(bad.validate(), Err(Error::Unsupported));
}

#[test]
fn canonical_message_layout() {
    let nonce = [0xAB; 32];
    let e = env("did:mata:x", &nonce);
    let m = e.canonical_message();
    let mut expected = NONCE_DOMAIN.to_vec();
    expected.push(1);
    expected.extend_from_slice(&[0, 32]);
    expected.extend_from_slice(&nonce);
    for s in ["did:mata:x", "home-computer", "janus.telemetry"] {
        expected.extend_from_slice(&(s.len() as u16).to_be_bytes());
        expected.extend_from_slice(s.as_bytes());
    }
    expected.extend_from_slice(&1_716_583_200u64.to_be_bytes());
    expected.extend_from_slice(&1_716_583_230u64.to_be_bytes());
    expected.extend_from_slice(&21u16.to_be_bytes());
    expected.extend_from_slice(b"home-computer-gateway");
    assert_eq!(m, expected);
    assert_eq!(e.canonical_bytes(), rusty_esp_mid::sha256(&expected));
}

#[test]
fn sign_refuses_invalid_and_signs_valid() {
    let k = DeviceKey::from_seed_for_tests("kms", "dev").unwrap();
    let did = k.did().to_did_string();
    let nonce = [5u8; 32];
    let e = env(&did, &nonce);
    let sig = e.sign(&k).unwrap();
    verify_prehash(k.did().pubkey(), &e.canonical_bytes(), &sig).unwrap();
    let mut bad = e;
    bad.did = "did:mata:abc";
    assert_eq!(bad.sign(&k), Err(Error::InvalidFormat));
    let mut zero_ttl = e;
    zero_ttl.expires_at = zero_ttl.issued_at;
    assert_eq!(zero_ttl.sign(&k), Err(Error::InvalidFormat));
}

#[test]
fn owned_envelope_signs_into_an_assertion() {
    let k = DeviceKey::from_seed_for_tests("kms", "cam").unwrap();
    let env = NonceEnvelope {
        envelope_version: 1,
        envelope_type: "nonce".into(),
        nonce: vec![9u8; 32],
        did: k.did().to_did_string(),
        audience: "home-computer".into(),
        purpose: "janus.telemetry".into(),
        issued_at: 1_700_000_000,
        expires_at: 1_700_000_060,
        issuer: "home-computer-gateway".into(),
    };
    assert!(env.validate().is_ok());
    let a = env.sign(&k).unwrap();
    assert_eq!(a.envelope_version, ENVELOPE_VERSION);
    assert_eq!(a.envelope_type, ASSERTION_TYPE);
    assert_eq!(a.nonce_envelope, env);
    assert_eq!(a.device_id, k.device_id().as_str());
    assert_eq!(a.signature.len(), 64);
    let sig: [u8; 64] = a.signature.clone().try_into().unwrap();
    verify_prehash(k.did().pubkey(), &env.as_ref().canonical_bytes(), &sig).unwrap();
    assert_eq!(DeviceSigner::device_id(&k), "cam");
    let mut wrong_type = env.clone();
    wrong_type.envelope_type = "signed_assertion".into();
    assert_eq!(wrong_type.validate(), Err(Error::InvalidFormat));
}
