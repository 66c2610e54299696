use base64::engine::general_purpose::URL_SAFE_NO_PAD;
use base64::Engine;
use rusty_esp_mid::roster::{
    genesis_canonical_bytes, sign_genesis_roster, verification_method, GENESIS_DOMAIN,
    VM_TYPE_ECDSA_P256,
};
use rusty_esp_mid::signer::verify_prehash;
use rusty_esp_mid::DeviceKey;

#[test]
fn genesis_self_signature_verifies_under_the_did_key() {
    let k = DeviceKey::from_seed_for_tests("g", "cam-1").unwrap();
    let g = sign_genesis_roster(&k.did(), &k, 1_700_000_000);
    assert_eq!(g.version, 1);
    assert_eq!(g.verification_methods.len(), 1);
    assert!(g.verification_methods[0].id.ends_with("#cam-1"));
    let sig: [u8; 64] = URL_SAFE_NO_PAD
        .decode(&g.self_signed_by_genesis_key)
        .unwrap()
        .try_into()
        .unwrap();
    let prehash = rusty_esp_mid::sha256(&genesis_canonical_bytes(&g));
    verify_prehash(k.did().pubkey(), &prehash, &sig).unwrap();
}

#[test]
fn canonical_excludes_signature_and_starts_with_domain() {
    let k = DeviceKey::from_seed_for_tests("g", "cam-1").unwrap();
    let mut g = sign_genesis_roster(&k.did(), &k, 1);
    let a = genesis_canonical_bytes(&g);
    g.self_signed_by_genesis_key = String::from("x");
    assert_eq!(a, genesis_canonical_bytes(&g));
    assert!(a.starts_with(&GENESIS_DOMAIN));
}

#[test]
fn verification_method_fields() {
    let k = DeviceKey::from_seed_for_tests("g", "cam-1").unwrap();
    let did = k.did();
    let vm = verification_method(&did, "cam-1");
    assert_eq!(vm.id, format!("{}#cam-1", did.to_did_string()));
    assert_eq!(vm.vm_type, VM_TYPE_ECDSA_P256);
    assert_eq!(vm.controller, did.to_did_string());
    assert_eq!(vm.public_key_multibase, did.to_multibase_string());
}

#[test]
fn genesis_canonical_layout() {
    let k = DeviceKey::from_seed_for_tests("g", "cam-1").unwrap();
    let g = sign_genesis_roster(&k.did(), &k, 77);
    let vm = &g.verification_methods[0];
    let mut expected = GENESIS_DOMAIN.to_vec();
    expected.extend_from_slice(&1u64.to_be_bytes());
    let push = |v: &mut Vec<u8>, s: &str| {
        v.extend_from_slice(&(s.len() as u32).to_be_bytes());
        v.extend_from_slice(s.as_bytes());
    };
    push(&mut expected, &g.did);
    expected.extend_from_slice(&1u32.to_be_bytes());
    push(&mut expected, &vm.id);
    push(&mut expected, &vm.vm_type);
    push(&mut expected, &vm.controller);
    push(&mut expected, &vm.public_key_multibase);
    expected.extend_from_slice(&77u64.to_be_bytes());
    assert_eq!(genesis_canonical_bytes(&g), expected);
}

#[test]
fn genesis_canonical_matches_mid_types() {
    let k = DeviceKey::from_seed_for_tests("oracle", "cam-1").unwrap();
    let g = sign_genesis_roster(&k.did(), &k, 1_700_000_000);
    let theirs = mid_types::EmbeddedGenesisRoster {
        version: g.version,
        did: g.did.clone(),
        verification_methods: g
            .verification_methods
            .iter()
            .map(|vm| mid_types::VerificationMethod {
                id: vm.id.clone(),
                vm_type: vm.vm_type.clone(),
                controller: vm.controller.clone(),
                public_key_multibase: vm.public_key_multibase.clone(),
            })
            .collect(),
        signed_at: g.signed_at,
        self_signed_by_genesis_key: g.self_signed_by_genesis_key.clone(),
    };
    assert_eq!(
        genesis_canonical_bytes(&g),
        mid_types::canonical::genesis_canonical_bytes(&theirs)
    );
    assert_eq!(&GENESIS_DOMAIN[..], mid_types::canonical::GENESIS_DOMAIN);
}
