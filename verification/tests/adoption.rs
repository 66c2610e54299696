use rusty_esp_mid::adoption::{
    Adoption, AdoptionFields, CapList, OwnerPin, ADOPTION_DOMAIN, SIG_LEN,
};
use rusty_esp_mid::error::Error;
use rusty_esp_mid::DeviceKey;

fn owner() -> DeviceKey {
    DeviceKey::from_seed_for_tests("owner", "phone").unwrap()
}

fn device() -> DeviceKey {
    DeviceKey::from_seed_for_tests("device", "cam-1").unwrap()
}

fn signed(owner: &DeviceKey, device_did: &str, caps: &[&str], rv: u32, exp: u64) -> Vec<u8> {
    let owner_identity = owner.did();
    let owner_did = owner_identity.to_did_string();
    let fields = AdoptionFields {
        device_did,
        owner_did: &owner_did,
        owner_genesis_pubkey: owner_identity.pubkey(),
        hub_endpoint_id: &[7u8; 32],
        hub_relay: "https://relay.mata.network",
        hub_host: "10.0.0.10:4243",
        caps: CapList::Slice(caps),
        roster_version: rv,
        issued_at: 1_700_000_000,
        expires_at: exp,
    };
    let mut buf = vec![0u8; fields.canonical_len() + SIG_LEN];
    let n = fields.sign_into(owner, &mut buf).unwrap();
    buf.truncate(n);
    buf
}

#[test]
fn round_trip_and_accept() {
    let (o, d) = (owner(), device());
    let ddid = d.did().to_did_string();
    let bytes = signed(&o, &ddid, &["camera:snapshot", "telemetry:read@home"], 3, 0);
    let a = Adoption::decode(&bytes).unwrap();
    assert_eq!(a.fields.device_did, ddid);
    assert_eq!(a.fields.hub_host, "10.0.0.10:4243");
    assert_eq!(a.fields.caps.len(), 2);
    let caps: Vec<&str> = a.fields.caps.iter().collect();
    assert_eq!(caps, ["camera:snapshot", "telemetry:read@home"]);
    assert!(a.grants("camera:snapshot@front"));
    assert!(!a.grants("gpio:set"));
    let pin = a.accept(&ddid, None, Some(1_700_000_100)).unwrap();
    assert_eq!(pin.roster_version, 3);
    assert_eq!(&pin.genesis_pubkey, o.did().pubkey());
}

#[test]
fn tofu_pin_rejects_a_second_owner_and_rollback() {
    let (o, d) = (owner(), device());
    let ddid = d.did().to_did_string();
    let first = signed(&o, &ddid, &[], 5, 0);
    let pin = Adoption::decode(&first)
        .unwrap()
        .accept(&ddid, None, None)
        .unwrap();

    let thief = DeviceKey::from_seed_for_tests("thief", "laptop").unwrap();
    let stolen = signed(&thief, &ddid, &[], 9, 0);
    let a = Adoption::decode(&stolen).unwrap();
    assert!(
        a.verify_signature().is_ok(),
        "signature is valid for the thief's key"
    );
    assert_eq!(a.accept(&ddid, Some(&pin), None), Err(Error::Denied));

    let rollback = signed(&o, &ddid, &[], 4, 0);
    assert_eq!(
        Adoption::decode(&rollback)
            .unwrap()
            .accept(&ddid, Some(&pin), None),
        Err(Error::Denied)
    );
    let rehome = signed(&o, &ddid, &[], 6, 0);
    assert_eq!(
        Adoption::decode(&rehome)
            .unwrap()
            .accept(&ddid, Some(&pin), None)
            .unwrap()
            .roster_version,
        6
    );
}

#[test]
fn wrong_device_expiry_and_tamper() {
    let (o, d) = (owner(), device());
    let ddid = d.did().to_did_string();
    let bytes = signed(&o, &ddid, &["gpio:set"], 1, 1_700_000_500);
    let a = Adoption::decode(&bytes).unwrap();
    assert_eq!(
        a.accept("did:mata:someoneelse", None, None),
        Err(Error::Denied)
    );
    assert!(a.accept(&ddid, None, Some(1_700_000_499)).is_ok());
    assert_eq!(
        a.accept(&ddid, None, Some(1_700_000_500)),
        Err(Error::Denied)
    );

    let mut tampered = bytes.clone();
    let idx = ADOPTION_DOMAIN.len() + 1 + 2 + 1;
    tampered[idx] ^= 0x01;
    match Adoption::decode(&tampered) {
        Ok(t) => assert_eq!(t.verify_signature(), Err(Error::Crypto)),
        Err(e) => assert!(matches!(e, Error::InvalidFormat | Error::Crypto)),
    }
    let mut short = bytes.clone();
    short.pop();
    assert!(Adoption::decode(&short).is_err());
}

#[test]
fn pin_round_trip() {
    let pin = OwnerPin {
        genesis_pubkey: *owner().did().pubkey(),
        roster_version: 42,
    };
    let mut buf = [0u8; OwnerPin::LEN];
    pin.encode(&mut buf).unwrap();
    assert_eq!(OwnerPin::decode(&buf).unwrap(), pin);
    assert_eq!(OwnerPin::decode(&buf[..10]), Err(Error::Corrupt));
}

#[test]
fn validation_rejects_bad_caps_and_lengths() {
    let o = owner();
    let owner_identity = o.did();
    let owner_did = owner_identity.to_did_string();
    let bad_caps = ["not-a-cap"];
    let fields = AdoptionFields {
        device_did: "did:mata:x",
        owner_did: &owner_did,
        owner_genesis_pubkey: owner_identity.pubkey(),
        hub_endpoint_id: &[0u8; 32],
        hub_relay: "",
        hub_host: "",
        caps: CapList::Slice(&bad_caps),
        roster_version: 1,
        issued_at: 10,
        expires_at: 0,
    };
    assert_eq!(fields.validate(), Err(Error::InvalidFormat));
    let mut small = [0u8; 8];
    let ok_caps: [&str; 0] = [];
    let fields = AdoptionFields {
        caps: CapList::Slice(&ok_caps),
        ..fields
    };
    assert!(matches!(
        fields.encode(&mut small),
        Err(Error::BufferTooSmall { .. })
    ));
}

#[test]
fn encode_then_decode_gives_the_fields_back() {
    let o = owner();
    let owner_identity = o.did();
    let owner_did = owner_identity.to_did_string();
    let caps = ["camera:snapshot@front", "gpio:set"];
    let fields = AdoptionFields {
        device_did: "did:mata:dev",
        owner_did: &owner_did,
        owner_genesis_pubkey: owner_identity.pubkey(),
        hub_endpoint_id: &[3u8; 32],
        hub_relay: "https://relay.example",
        hub_host: "",
        caps: CapList::Slice(&caps),
        roster_version: 7,
        issued_at: 100,
        expires_at: 200,
    };
    let mut buf = vec![0u8; fields.canonical_len() + SIG_LEN];
    let n = fields.encode(&mut buf).unwrap();
    assert_eq!(n, fields.canonical_len());
    assert_eq!(&buf[..ADOPTION_DOMAIN.len()], &ADOPTION_DOMAIN[..]);
    for b in buf[n..n + SIG_LEN].iter_mut() {
        *b = 0x11;
    }
    let a = Adoption::decode(&buf[..n + SIG_LEN]).unwrap();
    assert_eq!(a.fields.device_did, "did:mata:dev");
    assert_eq!(a.fields.owner_did, owner_did);
    assert_eq!(a.fields.hub_relay, "https://relay.example");
    assert_eq!(a.fields.hub_host, "");
    assert_eq!(a.fields.roster_version, 7);
    assert_eq!(a.fields.issued_at, 100);
    assert_eq!(a.fields.expires_at, 200);
    assert_eq!(a.fields.caps.iter().collect(), vec!["camera:snapshot@front", "gpio:set"]);
    assert_eq!(a.signature, &[0x11u8; 64]);
    assert_eq!(a.verify_signature(), Err(Error::Crypto));
}

#[test]
fn decode_errors_name_the_fault() {
    assert_eq!(Adoption::decode(&[0u8; 10]).err(), Some(Error::InvalidFormat));
    let mut wrong_version = vec![0u8; 200];
    wrong_version[..ADOPTION_DOMAIN.len()].copy_from_slice(&ADOPTION_DOMAIN);
    wrong_version[ADOPTION_DOMAIN.len()] = 2;
    assert_eq!(Adoption::decode(&wrong_version).err(), Some(Error::Unsupported));
    let mut bad_domain = wrong_version.clone();
    bad_domain[0] ^= 1;
    assert_eq!(Adoption::decode(&bad_domain).err(), Some(Error::InvalidFormat));
}

#[test]
fn expiry_before_issue_and_too_many_caps_are_refused() {
    let o = owner();
    let owner_identity = o.did();
    let owner_did = owner_identity.to_did_string();
    let none: [&str; 0] = [];
    let fields = AdoptionFields {
        device_did: "did:mata:dev",
        owner_did: &owner_did,
        owner_genesis_pubkey: owner_identity.pubkey(),
        hub_endpoint_id: &[0u8; 32],
        hub_relay: "",
        hub_host: "",
        caps: CapList::Slice(&none),
        roster_version: 1,
        issued_at: 10,
        expires_at: 10,
    };
    assert_eq!(fields.validate(), Err(Error::InvalidFormat));
    let many = ["a:b"; 33];
    let fields = AdoptionFields {
        caps: CapList::Slice(&many),
        expires_at: 0,
        ..fields
    };
    assert_eq!(fields.validate(), Err(Error::InvalidFormat));
    let empty_did = AdoptionFields {
        device_did: "",
        caps: CapList::Slice(&none),
        expires_at: 0,
        ..fields
    };
    assert_eq!(empty_did.validate(), Err(Error::InvalidFormat));
}

#[test]
fn decoded_parts_are_the_input_split_at_the_signature() {
    let (o, d) = (owner(), device());
    let ddid = d.did().to_did_string();
    let bytes = signed(&o, &ddid, &["gpio:set"], 2, 0);
    let a = Adoption::decode(&bytes).unwrap();
    let cut = bytes.len() - 64;
    assert_eq!(a.canonical(), &bytes[..cut]);
    assert_eq!(&a.signature()[..], &bytes[cut..]);
    assert_eq!(a.fields().device_did, ddid);
    assert_eq!(a.fields().roster_version, 2);
    assert_eq!(a.fields().canonical_len(), cut);
}

#[test]
fn signed_adoption_decodes_only_whole() {
    let (o, d) = (owner(), device());
    let ddid = d.did().to_did_string();
    let bytes = signed(&o, &ddid, &["gpio:set"], 1, 1_700_000_500);
    assert!(Adoption::decode(&bytes).is_ok());
    for k in 0..bytes.len() {
        assert_eq!(Adoption::decode(&bytes[..k]).err(), Some(Error::InvalidFormat), "prefix {k}");
    }
    let cut = bytes.len() - 64;
    for x in [0u8, 7, 0xff] {
        let mut longer = bytes[..cut].to_vec();
        longer.push(x);
        longer.extend_from_slice(&bytes[cut..]);
        assert_eq!(Adoption::decode(&longer).err(), Some(Error::InvalidFormat));
    }
}
