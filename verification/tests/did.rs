use rusty_esp_mid::did::{Did, DID_PREFIX, MAX_DID_LEN, MAX_MULTIBASE_LEN};
use rusty_esp_mid::error::Error;
use rusty_esp_mid::DeviceKey;

fn did() -> Did {
    DeviceKey::from_seed_for_tests("did-tests", "dev").unwrap().did()
}

#[test]
fn write_and_parse_round_trip() {
    let d = did();
    let mut buf = [0u8; MAX_DID_LEN];
    let s = d.write(&mut buf).unwrap();
    assert!(s.starts_with(DID_PREFIX));
    assert_eq!(Did::parse(s).unwrap(), d);
    let mut mb = [0u8; MAX_MULTIBASE_LEN];
    let m = d.write_multibase(&mut mb).unwrap();
    assert!(m.starts_with('z'));
    assert_eq!(Did::parse_multibase(m).unwrap(), d);
}

#[test]
fn rejects_bad_inputs() {
    assert_eq!(Did::parse("did:key:zabc"), Err(Error::InvalidFormat));
    assert_eq!(
        Did::parse("did:mata:550e8400-e29b-41d4-a716-446655440000"),
        Err(Error::InvalidFormat)
    );
    assert_eq!(Did::parse("did:mata:abc"), Err(Error::InvalidFormat));
    assert_eq!(Did::from_pubkey(&[0x04; 33]), Err(Error::InvalidFormat));
    assert_eq!(Did::from_pubkey(&[0x02; 32]), Err(Error::InvalidFormat));
    // Right tag, wrong x: not on the curve for this x with overwhelming odds.
    let mut bad = [0xFFu8; 33];
    bad[0] = 0x02;
    assert!(matches!(
        Did::from_pubkey(&bad),
        Err(Error::Crypto) | Err(Error::InvalidFormat)
    ));
}

#[test]
fn small_buffer_is_reported() {
    let d = did();
    let mut buf = [0u8; 12];
    assert!(matches!(
        d.write(&mut buf),
        Err(Error::BufferTooSmall { .. })
    ));
}

#[test]
fn display_matches_write() {
    let d = did();
    let mut buf = [0u8; MAX_DID_LEN];
    let s = d.write(&mut buf).unwrap();
    assert_eq!(d.to_did_string(), s);
}

#[test]
fn buffer_too_small_reports_the_size_asked() {
    let d = did();
    let mut tiny = [0u8; 9];
    assert_eq!(d.write(&mut tiny), Err(Error::BufferTooSmall { needed: 10 }));
    let mut short = [0u8; 20];
    assert_eq!(
        d.write(&mut short),
        Err(Error::BufferTooSmall { needed: 9 + 46 })
    );
    let mut tiny_mb = [0u8; 1];
    assert_eq!(
        d.write_multibase(&mut tiny_mb),
        Err(Error::BufferTooSmall { needed: 2 })
    );
}

#[test]
fn written_text_leaves_the_rest_of_the_buffer() {
    let d = did();
    let mut buf = [0xEEu8; 80];
    let n = d.write(&mut buf).unwrap().len();
    assert_eq!(&buf[..9], b"did:mata:");
    assert!(buf[n..].iter().all(|b| *b == 0xEE));
    assert_eq!(d.to_did_string().len(), n);
}

#[test]
fn pubkey_round_trips_through_from_pubkey() {
    let d = did();
    let again = Did::from_pubkey(d.pubkey()).unwrap();
    assert_eq!(again, d);
    assert!(d.pubkey()[0] == 2 || d.pubkey()[0] == 3);
    let mb = d.to_multibase_string();
    assert_eq!(&mb[1..], &d.to_did_string()[9..]);
}

#[test]
fn base58_known_vector() {
    // The generator point of P-256, compressed.
    let g: [u8; 33] = [
        0x03, 0x6b, 0x17, 0xd1, 0xf2, 0xe1, 0x2c, 0x42, 0x47, 0xf8, 0xbc, 0xe6, 0xe5, 0x63,
        0xa4, 0x40, 0xf2, 0x77, 0x03, 0x7d, 0x81, 0x2d, 0xeb, 0x33, 0xa0, 0xf4, 0xa1, 0x39,
        0x45, 0xd8, 0x98, 0xc2, 0x96,
    ];
    let d = Did::from_pubkey(&g).unwrap();
    let text = d.to_did_string();
    let expected = format!("did:mata:{}", bs58::encode(&g).into_string());
    assert_eq!(text, expected);
    assert_eq!(Did::parse(&text).unwrap().pubkey(), &g);
    assert_eq!(Did::parse("did:mata:"), Err(Error::InvalidFormat));
    assert_eq!(Did::parse_multibase("x123"), Err(Error::InvalidFormat));
}
