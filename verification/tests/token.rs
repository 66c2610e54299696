use std::collections::BTreeMap;

use base64::engine::general_purpose::URL_SAFE_NO_PAD;
use base64::Engine;
use rusty_esp_mid::error::Error;
use rusty_esp_mid::jws::build_jws_compact;
use rusty_esp_mid::roster::EmbeddedGenesisRoster;
use rusty_esp_mid::token::{self_issued_token_fields, SignInRequest, TokenFields};
use rusty_esp_mid::DeviceKey;

fn mid_genesis(g: &EmbeddedGenesisRoster) -> mid_types::EmbeddedGenesisRoster {
    mid_types::EmbeddedGenesisRoster {
        version: g.version,
        did: g.did.clone(),
        verification_methods: g
            .verification_methods
            .iter()
            .map(|vm| mid_types::VerificationMethod {
                id: vm.id.clone(),
                vm_type: vm.vm_type.clone(),
                controller: vm.controller.clone(),
                public_key_multibase: vm.public_key_multibase.clone(),
            })
            .collect(),
        signed_at: g.signed_at,
        self_signed_by_genesis_key: g.self_signed_by_genesis_key.clone(),
    }
}

/// The payload the token carries, laid out as `mid-types` defines it.
fn payload(
    t: &TokenFields,
    claims: BTreeMap<String, mid_types::ClaimValue>,
) -> mid_types::MidJwtPayload {
    let vm = &t.embedded_verification_method;
    mid_types::MidJwtPayload {
        iss: t.iss.clone(),
        sub: t.sub.clone(),
        aud: t.aud.clone(),
        iat: t.iat,
        exp: t.exp,
        nonce: t.nonce.clone(),
        claims,
        embedded_genesis_roster: mid_genesis(&t.embedded_genesis_roster),
        embedded_roster_chain: Vec::new(),
        embedded_verification_method: mid_types::EmbeddedVerificationMethod {
            id: vm.id.clone(),
            vm_type: vm.vm_type.clone(),
            controller: vm.controller.clone(),
            public_key_multibase: vm.public_key_multibase.clone(),
        },
    }
}

fn self_attested(value: &str) -> mid_types::ClaimValue {
    mid_types::ClaimValue {
        value: serde_json::Value::String(String::from(value)),
        attested_by: mid_types::AttestedBy::SelfAttested,
        verified_at_signup: None,
        computed_at: None,
        formula_version: None,
    }
}

#[test]
fn token_has_three_segments_and_echoes_the_request() {
    let k = DeviceKey::from_seed_for_tests("tok", "cam-1").unwrap();
    let mut claims = BTreeMap::new();
    claims.insert(String::from("name"), self_attested("acme doorbell"));
    let fields = self_issued_token_fields(
        &k.did(),
        &k,
        &SignInRequest {
            audience: "https://home.local",
            nonce: "n-1",
        },
        1_700_000_000,
        3600,
    )
    .unwrap();
    let json = serde_json::to_vec(&payload(&fields, claims)).unwrap();
    let jwt = build_jws_compact(&json, &k);
    let parts: Vec<&str> = jwt.split('.').collect();
    assert_eq!(parts.len(), 3);
    let payload = URL_SAFE_NO_PAD.decode(parts[1]).unwrap();
    let p: mid_types::MidJwtPayload = serde_json::from_slice(&payload).unwrap();
    assert_eq!(p.aud, "https://home.local");
    assert_eq!(p.nonce, "n-1");
    assert_eq!(p.iss, k.did().to_did_string());
    assert_eq!(p.exp - p.iat, 3600);
    assert!(p.embedded_roster_chain.is_empty());
}

#[test]
fn rejects_empty_request() {
    let k = DeviceKey::from_seed_for_tests("tok", "cam-1").unwrap();
    let r = self_issued_token_fields(
        &k.did(),
        &k,
        &SignInRequest {
            audience: "",
            nonce: "n",
        },
        1,
        1,
    );
    assert_eq!(r.err(), Some(Error::InvalidFormat));
}

#[test]
fn token_times_saturate_and_genesis_is_a_second_earlier() {
    let k = DeviceKey::from_seed_for_tests("tok", "cam-1").unwrap();
    let req = SignInRequest {
        audience: "aud",
        nonce: "n",
    };
    let t = self_issued_token_fields(&k.did(), &k, &req, u64::MAX - 5, 3600).unwrap();
    assert_eq!(t.exp, u64::MAX);
    assert_eq!(t.embedded_genesis_roster.signed_at, u64::MAX - 6);
    let t = self_issued_token_fields(&k.did(), &k, &req, 0, 10).unwrap();
    assert_eq!(t.exp, 10);
    assert_eq!(t.embedded_genesis_roster.signed_at, 1);
    assert_eq!(t.iss, t.sub);
    assert_eq!(t.embedded_verification_method.id, format!("{}#cam-1", t.iss));
    assert_eq!(
        self_issued_token_fields(&k.did(), &k, &req, 5, 0).err(),
        Some(Error::InvalidFormat)
    );
    let no_nonce = SignInRequest {
        audience: "aud",
        nonce: "",
    };
    assert_eq!(
        self_issued_token_fields(&k.did(), &k, &no_nonce, 5, 1).err(),
        Some(Error::InvalidFormat)
    );
}
