//! The robustness gate: every decoder of bytes that reaches this crate from
//! a peer returns an error on bad input; it never panics. Random inputs from
//! an LCG and mutations of valid encodings (bit flips, truncation,
//! extension).

use rusty_esp_mid::adoption::{Adoption, AdoptionFields, CapList, OwnerPin};
use rusty_esp_mid::cap::Cap;
use rusty_esp_mid::did::Did;
use rusty_esp_mid::DeviceKey;

struct Lcg(u64);

impl Lcg {
    fn next(&mut self) -> u64 {
        self.0 = self
            .0
            .wrapping_mul(6_364_136_223_846_793_005)
            .wrapping_add(1_442_695_040_888_963_407);
        self.0
    }

    fn below(&mut self, n: usize) -> usize {
        (self.next() % n.max(1) as u64) as usize
    }

    fn bytes(&mut self, max_len: usize) -> Vec<u8> {
        let n = self.below(max_len + 1);
        (0..n).map(|_| (self.next() >> 56) as u8).collect()
    }

    fn mutate(&mut self, base: &[u8]) -> Vec<u8> {
        let mut v = base.to_vec();
        match self.below(6) {
            0 if !v.is_empty() => {
                let i = self.below(v.len());
                v[i] ^= 1 << self.below(8);
            }
            1 if !v.is_empty() => {
                let i = self.below(v.len());
                v[i] = (self.next() >> 56) as u8;
            }
            2 => v.truncate(self.below(v.len() + 1)),
            3 => {
                let extra = self.bytes(16);
                v.extend_from_slice(&extra);
            }
            4 => {
                let i = self.below(v.len() + 1);
                v.insert(i, (self.next() >> 56) as u8);
            }
            _ if !v.is_empty() => {
                let i = self.below(v.len());
                v.remove(i);
            }
            _ => {}
        }
        v
    }
}

/// Draw the same 20 000 inputs every time, and run the adoption and pin
/// decoders on those with index in `from..to`.
fn adoption_decoders_on(from: usize, to: usize) {
    let mut rng = Lcg(0x3D0B_0001);
    let owner = DeviceKey::from_seed_for_tests("no-panic", "owner").unwrap();
    let owner_identity = owner.did();
    let owner_did = owner_identity.to_did_string();
    let device_did = DeviceKey::from_seed_for_tests("no-panic", "cam-1")
        .unwrap()
        .did()
        .to_did_string();
    let fields = AdoptionFields {
        device_did: &device_did,
        owner_did: &owner_did,
        owner_genesis_pubkey: owner_identity.pubkey(),
        hub_endpoint_id: &[7u8; 32],
        hub_relay: "https://relay.mata.network",
        hub_host: "10.0.0.10:4243",
        caps: CapList::Slice(&["camera:snapshot", "telemetry:read@home"]),
        roster_version: 3,
        issued_at: 1_700_000_000,
        expires_at: 0,
    };
    let mut buf = vec![0u8; 1024];
    let n = fields.sign_into(&owner, &mut buf).unwrap();
    let valid = buf[..n].to_vec();
    assert!(Adoption::decode(&valid).unwrap().verify_signature().is_ok());
    let pin = OwnerPin {
        genesis_pubkey: *owner_identity.pubkey(),
        roster_version: 3,
    };
    let mut pin_buf = [0u8; OwnerPin::LEN];
    pin.encode(&mut pin_buf).unwrap();

    for i in 0..to {
        let input = if i % 3 == 0 {
            rng.bytes(700)
        } else {
            rng.mutate(&valid)
        };
        let pin_input = if i % 2 == 0 {
            rng.bytes(64)
        } else {
            rng.mutate(&pin_buf)
        };
        if i < from {
            continue;
        }
        if let Ok(a) = Adoption::decode(&input) {
            let _ = a.verify_signature();
            let _ = a.fields.caps.iter().collect().len();
        }
        let _ = OwnerPin::decode(&pin_input);
    }
}

#[test]
fn adoption_decoders_never_panic() {
    adoption_decoders_on(0, 10_000);
}

#[test]
fn adoption_decoders_never_panic_on_the_second_half() {
    adoption_decoders_on(10_000, 20_000);
}

#[test]
fn did_and_cap_parsers_never_panic() {
    let mut rng = Lcg(0x3D0B_0002);
    let did = DeviceKey::from_seed_for_tests("no-panic", "dev")
        .unwrap()
        .did()
        .to_did_string();
    let mb = DeviceKey::from_seed_for_tests("no-panic", "dev")
        .unwrap()
        .did()
        .to_multibase_string();
    for i in 0..30_000 {
        let bytes = match i % 3 {
            0 => rng.bytes(80),
            1 => rng.mutate(did.as_bytes()),
            _ => rng.mutate(mb.as_bytes()),
        };
        let s = String::from_utf8_lossy(&bytes);
        let _ = Did::parse(&s).map(|d| d.to_did_string());
        let _ = Did::parse_multibase(&s).map(|d| d.to_multibase_string());
        let _ = Cap::parse(&s).map(|_| ());
    }
}
