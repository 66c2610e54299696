# rusty_esp_mid

MATA mID on a microcontroller: a device's `did:mata` identity (a P-256 key
whose compressed public key *is* the identifier), the owner-signed adoption
grant, `component:action@scope` capability matching, the kms nonce envelope,
a bounded single-use nonce window, manifest and JWS signatures, and the
self-signed genesis roster of a self-issued token.

The library in `src/` is written in Verus: every public function carries a
contract over a mathematical model of its inputs and outputs, and Verus
proves the code against it. The properties that span functions are public
proof functions, for example:

- `adoption_laws::lemma_adoption_round_trip`: what the owner signs, the
  device decodes; `lemma_decode_is_canonical`: only canonical bytes decode;
  `lemma_signed_fields_decode_only_whole`: a truncated or extended signed
  adoption is refused;
- `nonce::lemma_window_is_last_accepted`: the window holds exactly the last
  `N` nonces it accepted;
- `kms::lemma_canonical_message_injective`: the signed bytes pin the
  envelope down;
- `key::lemma_device_key_signatures_verify`: a device key's signatures
  verify under its own DID.

The calls into `sha2`, `p256`, `bs58`, `base64`, `mid-types` and
`rusty_esp_core` sit in `src/crypto.rs`, `src/manifest.rs`, `src/roster.rs`
and `src/hal.rs`, each behind a function whose contract is taken on trust
and says in its doc comment what it claims. The key store's `Kv` seam names
what a store holds and which keys it serves without fault; `rusty_esp_core`'s
in-memory store implements it in `src/hal.rs`.

The library allocates: the nonce window keeps its nonces in a `Vec` (Verus
has no array fill of a const-generic length), and each signed message is
assembled in a `Vec` before it is hashed once.

`app/` holds what Verus does not see: the serde JSON shapes, the `mid-types`
token payload, the boot path over a chip store (reading and writing the
bytes around `DeviceKey::from_stored` and `DeviceKey::generate`),
the `p256` key handles, and the ESP-IDF backend (built only for that
target). `tests/` exercises the library with the real outside crates.
