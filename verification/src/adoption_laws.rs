//! What the adoption wire form promises as a whole: decoding gives back
//! what was encoded, and whatever decodes is the canonical encoding of what
//! it decodes to (so the signed bytes are exactly the fields).

use vstd::prelude::*;
use crate::text::{is_utf8, lemma_str_is_utf8};

use crate::adoption::{
    adoption_domain, body_bytes, canonical_bytes, caps_wire, decode_spec, lemma_items_valid_utf8,
    parse_body, parse_hub, parse_tail, pin_and_time_ok, read_str_spec, skip_strs, validate_ok, wire_items, AdoptionFields, AdoptionView,
    OwnerPin,
    CapListView, FieldsView, ADOPTION_VERSION, MAX_FIELD_LEN, SIG_LEN,
};
use crate::error::Error;
use crate::wire::{
    be16, be32, be64, from_be16, from_be32, from_be64, lemma_be16_round_trip,
    lemma_be32_round_trip, lemma_be64_round_trip, lemma_from_be16_canonical,
    lemma_from_be32_canonical, lemma_from_be64_canonical, str16,
};

verus! {

/// A string's length prefix and bytes are read back as the string.
proof fn lemma_read_str16(s: Seq<u8>, rest: Seq<u8>)
    requires
        is_utf8(s),
        s.len() <= 0xffff,
    ensures
        read_str_spec(str16(s) + rest) == Some((s, rest)),
{
    let b = str16(s) + rest;
    lemma_be16_round_trip(s.len() as u16);
    assert(b.subrange(0, 2) =~= be16(s.len() as u16));
    assert(from_be16(b) == from_be16(be16(s.len() as u16)));
    let r = b.subrange(2, b.len() as int);
    assert(r =~= s + rest);
    assert(r.subrange(0, s.len() as int) =~= s);
    assert(r.subrange(s.len() as int, r.len() as int) =~= rest);
}

/// A string read from the front was written as its length prefix and bytes.
proof fn lemma_read_str_canonical(b: Seq<u8>)
    requires
        read_str_spec(b) is Some,
    ensures
        read_str_spec(b) matches Some((s, rest)) && b == str16(s) + rest && s.len() <= 0xffff
            && is_utf8(s),
{
    let n = from_be16(b);
    lemma_from_be16_canonical(b.subrange(0, 2));
    assert(from_be16(b.subrange(0, 2)) == n);
    let (s, rest) = read_str_spec(b).unwrap();
    assert(s.len() == n as int);
    assert(b =~= str16(s) + rest);
}

/// Strings written one after another are read back, and nothing more.
#[verifier::rlimit(60)]
#[verifier::spinoff_prover]
proof fn lemma_caps_wire_parse(items: Seq<Seq<u8>>, rest: Seq<u8>)
    requires
        forall|i: int|
            0 <= i < items.len() ==> is_utf8(#[trigger] items[i]) && items[i].len() <= 0xffff,
    ensures
        skip_strs(items.len(), caps_wire(items) + rest) == Some(rest),
        wire_items(items.len(), caps_wire(items) + rest) == items,
    decreases items.len(),
{
    if items.len() == 0 {
        assert(caps_wire(items) + rest =~= rest);
        assert(wire_items(0, rest) =~= items);
    } else {
        let tail = items.drop_first();
        assert forall|i: int|
            0 <= i < tail.len() implies is_utf8(#[trigger] tail[i]) && tail[i].len()
            <= 0xffff by {
            assert(tail[i] == items[i + 1]);
        }
        lemma_caps_wire_parse(tail, rest);
        assert(is_utf8(items[0]) && items[0].len() <= 0xffff);
        assert(caps_wire(items) + rest =~= str16(items[0]) + (caps_wire(tail) + rest));
        lemma_read_str16(items[0], caps_wire(tail) + rest);
        assert(wire_items(items.len(), caps_wire(items) + rest) =~= seq![items[0]]
            + wire_items(tail.len(), caps_wire(tail) + rest));
        assert(seq![items[0]] + tail =~= items);
    }
}

/// Concatenation regroups.
proof fn lemma_concat_assoc(a: Seq<u8>, b: Seq<u8>, c: Seq<u8>)
    ensures
        (a + b) + c == a + (b + c),
{
    assert((a + b) + c =~= a + (b + c));
}

/// Stepping over `n` strings means the bytes were `n` written strings.
proof fn lemma_skip_strs_canonical(n: nat, b: Seq<u8>)
    requires
        skip_strs(n, b) is Some,
    ensures
        wire_items(n, b).len() == n,
        b == caps_wire(wire_items(n, b)) + skip_strs(n, b).unwrap(),
        cap_strings_ok(wire_items(n, b)),
    decreases n,
{
    if n == 0 {
        assert(wire_items(n, b) =~= Seq::<Seq<u8>>::empty());
        assert(b =~= caps_wire(wire_items(n, b)) + b);
    } else {
        lemma_read_str_canonical(b);
        let (s, rest) = read_str_spec(b).unwrap();
        lemma_skip_strs_canonical((n - 1) as nat, rest);
        let items = wire_items(n, b);
        let tail = wire_items((n - 1) as nat, rest);
        let r8 = skip_strs(n, b).unwrap();
        assert(r8 == skip_strs((n - 1) as nat, rest).unwrap());
        assert(items == seq![s] + tail);
        assert(items.drop_first() =~= tail);
        assert(items[0] == s);
        assert(caps_wire(items) == str16(s) + caps_wire(tail));
        lemma_concat_assoc(str16(s), caps_wire(tail), r8);
        assert forall|i: int| 0 <= i < items.len() implies is_utf8(#[trigger] items[i])
            && items[i].len() <= 0xffff by {
            if i > 0 {
                assert(items[i] == tail[i - 1]);
            }
        }
    }
}

/// The strings of a field view are well-formed text of bounded length.
pub open spec fn strings_valid(f: FieldsView) -> bool {
    &&& is_utf8(f.device_did)
    &&& is_utf8(f.owner_did)
    &&& is_utf8(f.hub_relay)
    &&& is_utf8(f.hub_host)
    &&& forall|i: int| 0 <= i < f.caps.items.len() ==> is_utf8(#[trigger] f.caps.items[i])
    &&& f.owner_genesis_pubkey.len() == 33
    &&& f.hub_endpoint_id.len() == 32
}

/// The strings of a capability list are well-formed text of bounded length.
pub open spec fn cap_strings_ok(items: Seq<Seq<u8>>) -> bool {
    forall|i: int|
        0 <= i < items.len() ==> is_utf8(#[trigger] items[i]) && items[i].len() <= 0xffff
}

/// The three trailing integers, big-endian.
pub open spec fn ints_wire(rv: u32, ia: u64, ea: u64) -> Seq<u8> {
    be32(rv) + (be64(ia) + be64(ea))
}

/// The bytes from the capability count on.
pub open spec fn tail_wire(caps: CapListView, rv: u32, ia: u64, ea: u64) -> Seq<u8> {
    seq![caps.count as u8] + (caps_wire(caps.items) + ints_wire(rv, ia, ea))
}

/// The trailing integers are read back from their bytes.
proof fn lemma_ints_of_bytes(rv: u32, ia: u64, ea: u64)
    ensures
        ints_wire(rv, ia, ea).len() == 20,
        from_be32(ints_wire(rv, ia, ea).subrange(0, 4)) == rv,
        from_be64(ints_wire(rv, ia, ea).subrange(4, 12)) == ia,
        from_be64(ints_wire(rv, ia, ea).subrange(12, 20)) == ea,
{
    let t = ints_wire(rv, ia, ea);
    lemma_be32_round_trip(rv);
    lemma_be64_round_trip(ia);
    lemma_be64_round_trip(ea);
    assert(t.subrange(0, 4) =~= be32(rv));
    assert(t.subrange(4, 12) =~= be64(ia));
    assert(t.subrange(12, 20) =~= be64(ea));
}

/// Any twenty bytes are the wire form of the integers they spell.
proof fn lemma_ints_canonical(r8: Seq<u8>)
    requires
        r8.len() == 20,
    ensures
        r8 == ints_wire(
            from_be32(r8.subrange(0, 4)),
            from_be64(r8.subrange(4, 12)),
            from_be64(r8.subrange(12, 20)),
        ),
{
    lemma_from_be32_canonical(r8.subrange(0, 4));
    lemma_from_be64_canonical(r8.subrange(4, 12));
    lemma_from_be64_canonical(r8.subrange(12, 20));
    assert(r8 =~= ints_wire(
        from_be32(r8.subrange(0, 4)),
        from_be64(r8.subrange(4, 12)),
        from_be64(r8.subrange(12, 20)),
    ));
}

/// Written capability strings followed by anything are stepped over, and
/// the bytes stepped over yield the strings.
proof fn lemma_caps_then(items: Seq<Seq<u8>>, rest: Seq<u8>)
    requires
        cap_strings_ok(items),
    ensures
        skip_strs(items.len(), caps_wire(items) + rest) == Some(rest),
        wire_items(items.len(), caps_wire(items)) == items,
{
    lemma_caps_wire_parse(items, rest);
    lemma_caps_wire_parse(items, Seq::<u8>::empty());
    assert(caps_wire(items) + Seq::<u8>::empty() =~= caps_wire(items));
}

/// Dropping a known suffix leaves the prefix.
proof fn lemma_drop_suffix(a: Seq<u8>, b: Seq<u8>)
    ensures
        (a + b).subrange(0, (a + b).len() - b.len()) == a,
{
    assert((a + b).subrange(0, (a + b).len() - b.len()) =~= a);
}

/// The count, capabilities and integers are read back from their bytes.
proof fn lemma_parse_tail_of_bytes(caps: CapListView, rv: u32, ia: u64, ea: u64)
    requires
        caps.count <= 0xff,
        caps.items.len() == caps.count,
        cap_strings_ok(caps.items),
    ensures
        parse_tail(tail_wire(caps, rv, ia, ea)) == Some((caps, rv, ia, ea)),
{
    let tail = ints_wire(rv, ia, ea);
    let r6 = tail_wire(caps, rv, ia, ea);
    let r7 = r6.subrange(1, r6.len() as int);
    assert(r7 =~= caps_wire(caps.items) + tail);
    assert(r6[0] as nat == caps.count);
    lemma_caps_then(caps.items, tail);
    lemma_drop_suffix(caps_wire(caps.items), tail);
    lemma_ints_of_bytes(rv, ia, ea);
}

/// What [`parse_tail`] accepts is the wire form of what it returns.
proof fn lemma_parse_tail_canonical(r6: Seq<u8>)
    requires
        parse_tail(r6) is Some,
    ensures
        parse_tail(r6) matches Some((caps, rv, ia, ea)) && r6 == tail_wire(caps, rv, ia, ea)
            && caps.count <= 0xff && caps.items.len() == caps.count && cap_strings_ok(caps.items),
{
    let count = r6[0];
    let r7 = r6.subrange(1, r6.len() as int);
    let r8 = skip_strs(count as nat, r7).unwrap();
    lemma_skip_strs_canonical(count as nat, r7);
    let w = wire_items(count as nat, r7);
    assert(r7 == caps_wire(w) + r8);
    assert(cap_strings_ok(w));
    lemma_caps_then(w, r8);
    lemma_drop_suffix(caps_wire(w), r8);
    lemma_ints_canonical(r8);
    let (caps, rv, ia, ea) = parse_tail(r6).unwrap();
    assert(caps.items == w);
    assert(r6 =~= tail_wire(caps, rv, ia, ea));
}

/// The hub strings and the tail are read back from their bytes.
proof fn lemma_parse_hub_of_bytes(
    relay: Seq<u8>,
    host: Seq<u8>,
    caps: CapListView,
    rv: u32,
    ia: u64,
    ea: u64,
)
    requires
        is_utf8(relay),
        is_utf8(host),
        relay.len() <= 0xffff,
        host.len() <= 0xffff,
        caps.count <= 0xff,
        caps.items.len() == caps.count,
        cap_strings_ok(caps.items),
    ensures
        parse_hub(str16(relay) + (str16(host) + tail_wire(caps, rv, ia, ea))) == Some(
            (relay, host, caps, rv, ia, ea),
        ),
{
    lemma_read_str16(relay, str16(host) + tail_wire(caps, rv, ia, ea));
    lemma_read_str16(host, tail_wire(caps, rv, ia, ea));
    lemma_parse_tail_of_bytes(caps, rv, ia, ea);
}

/// What [`parse_hub`] accepts is the wire form of what it returns.
proof fn lemma_parse_hub_canonical(r4: Seq<u8>)
    requires
        parse_hub(r4) is Some,
    ensures
        parse_hub(r4) matches Some((relay, host, caps, rv, ia, ea)) && r4 == str16(relay) + (
        str16(host) + tail_wire(caps, rv, ia, ea)) && is_utf8(relay) && is_utf8(host)
            && relay.len() <= 0xffff && host.len() <= 0xffff && caps.count <= 0xff
            && caps.items.len() == caps.count && cap_strings_ok(caps.items),
{
    lemma_read_str_canonical(r4);
    let (relay, r5) = read_str_spec(r4).unwrap();
    lemma_read_str_canonical(r5);
    let (host, r6) = read_str_spec(r5).unwrap();
    lemma_parse_tail_canonical(r6);
}

/// Sixty-five or more bytes are a 33-byte key, a 32-byte id and the rest.
proof fn lemma_split_keys(r2: Seq<u8>)
    requires
        r2.len() >= 65,
    ensures
        r2 == r2.subrange(0, 33) + (r2.subrange(33, r2.len() as int).subrange(0, 32) + r2.subrange(
            33,
            r2.len() as int,
        ).subrange(32, r2.len() - 33)),
{
    let r3 = r2.subrange(33, r2.len() as int);
    assert(r2 =~= r2.subrange(0, 33) + (r3.subrange(0, 32) + r3.subrange(32, r3.len() as int)));
}

/// The body of the wire form parses back to the fields it was written from.
proof fn lemma_parse_body_of_body_bytes(f: FieldsView)
    requires
        validate_ok(f),
        strings_valid(f),
        f.caps.items.len() == f.caps.count,
    ensures
        parse_body(body_bytes(f)) == Some(f),
{
    reveal(parse_body);
    let r4 = str16(f.hub_relay) + (str16(f.hub_host) + tail_wire(
        f.caps,
        f.roster_version,
        f.issued_at,
        f.expires_at,
    ));
    let r3 = f.hub_endpoint_id + r4;
    let r2 = f.owner_genesis_pubkey + r3;
    let r1 = str16(f.owner_did) + r2;
    assert(body_bytes(f) == str16(f.device_did) + r1);
    lemma_read_str16(f.device_did, r1);
    lemma_read_str16(f.owner_did, r2);
    assert(r2.subrange(0, 33) =~= f.owner_genesis_pubkey);
    assert(r2.subrange(33, r2.len() as int) =~= r3);
    assert(r3.subrange(0, 32) =~= f.hub_endpoint_id);
    assert(r3.subrange(32, r3.len() as int) =~= r4);
    assert(cap_strings_ok(f.caps.items)) by {
        assert forall|i: int| 0 <= i < f.caps.items.len() implies is_utf8(
            #[trigger] f.caps.items[i],
        ) && f.caps.items[i].len() <= 0xffff by {
            assert(f.caps.items[i].len() <= MAX_FIELD_LEN);
        }
    }
    lemma_parse_hub_of_bytes(
        f.hub_relay,
        f.hub_host,
        f.caps,
        f.roster_version,
        f.issued_at,
        f.expires_at,
    );
}

/// A parsed body is the wire form of the fields it parsed to.
proof fn lemma_body_bytes_of_parse_body(r0: Seq<u8>)
    requires
        parse_body(r0) is Some,
    ensures
        r0 == body_bytes(parse_body(r0).unwrap()),
        strings_valid(parse_body(r0).unwrap()),
        parse_body(r0).unwrap().caps.items.len() == parse_body(r0).unwrap().caps.count,
{
    reveal(parse_body);
    lemma_read_str_canonical(r0);
    let (dd, r1) = read_str_spec(r0).unwrap();
    lemma_read_str_canonical(r1);
    let (od, r2) = read_str_spec(r1).unwrap();
    let r3 = r2.subrange(33, r2.len() as int);
    let r4 = r3.subrange(32, r3.len() as int);
    lemma_parse_hub_canonical(r4);
    let (relay, host, caps, rv, ia, ea) = parse_hub(r4).unwrap();
    let f = FieldsView {
        device_did: dd,
        owner_did: od,
        owner_genesis_pubkey: r2.subrange(0, 33),
        hub_endpoint_id: r3.subrange(0, 32),
        hub_relay: relay,
        hub_host: host,
        caps,
        roster_version: rv,
        issued_at: ia,
        expires_at: ea,
    };
    assert(parse_body(r0) == Some(f));
    lemma_split_keys(r2);
}

/// **Decoding inverts encoding.** The canonical bytes of any valid fields
/// (a capability list that yields as many strings as it declares, which
/// every `CapList::Slice` does), followed by any 64-byte signature, decode
/// to exactly those fields and that signature.
pub proof fn lemma_decode_inverts_encode(f: FieldsView, sig: Seq<u8>)
    requires
        validate_ok(f),
        strings_valid(f),
        f.caps.items.len() == f.caps.count,
        sig.len() == SIG_LEN,
    ensures
        decode_spec(canonical_bytes(f) + sig) == Ok::<AdoptionView, Error>(
            AdoptionView { fields: f, signature: sig, canonical: canonical_bytes(f) },
        ),
{
    let c = canonical_bytes(f);
    let b = c + sig;
    lemma_parse_body_of_body_bytes(f);
    assert(b.subrange(0, b.len() - SIG_LEN) =~= c);
    assert(b.subrange(b.len() - SIG_LEN, b.len() as int) =~= sig);
    assert(adoption_domain().len() == 18);
    assert(c.subrange(0, 18) =~= adoption_domain());
    assert(c[18] == ADOPTION_VERSION);
    assert(c.subrange(19, c.len() as int) =~= body_bytes(f));
}

/// A byte string is its first bytes followed by the rest.
proof fn lemma_split_at(b: Seq<u8>, k: int)
    requires
        0 <= k <= b.len(),
    ensures
        b == b.subrange(0, k) + b.subrange(k, b.len() as int),
{
    assert(b =~= b.subrange(0, k) + b.subrange(k, b.len() as int));
}

/// **Only canonical bytes decode.** Whatever decodes is the canonical
/// encoding of the fields it decodes to, followed by the signature; so two
/// different byte strings never decode to the same adoption.
pub proof fn lemma_decode_is_canonical(b: Seq<u8>)
    requires
        decode_spec(b) is Ok,
    ensures
        decode_spec(b) matches Ok(a) && a.canonical == canonical_bytes(a.fields) && b
            == a.canonical + a.signature && a.fields.caps.items.len() == a.fields.caps.count
            && strings_valid(a.fields),
{
    let a = decode_spec(b).unwrap();
    let c = b.subrange(0, b.len() - SIG_LEN);
    let r0 = c.subrange(19, c.len() as int);
    assert(adoption_domain().len() == 18);
    assert(a.canonical == c && a.signature == b.subrange(b.len() - SIG_LEN, b.len() as int));
    assert(parse_body(r0) == Some(a.fields));
    lemma_body_bytes_of_parse_body(r0);
    lemma_split_at(b, b.len() - SIG_LEN);
    lemma_split_at(c, 19);
    lemma_split_at(c.subrange(0, 19), 18);
    assert(c.subrange(0, 19).subrange(0, 18) =~= adoption_domain());
    assert(c.subrange(0, 19).subrange(18, 19) =~= seq![ADOPTION_VERSION]);
    assert(c =~= canonical_bytes(a.fields));
}

/// **What the owner signs, the device decodes.** For the fields of any
/// `AdoptionFields` that validate (with a capability list that yields as
/// many strings as it declares), the bytes `sign_into` writes, canonical
/// bytes then signature, decode to those fields.
pub proof fn lemma_adoption_round_trip(fields: AdoptionFields, sig: Seq<u8>)
    requires
        validate_ok(fields@),
        fields@.caps.items.len() == fields@.caps.count,
        sig.len() == SIG_LEN,
    ensures
        decode_spec(canonical_bytes(fields@) + sig) matches Ok(a) && a.fields == fields@
            && a.signature == sig,
{
    lemma_items_valid_utf8(fields.caps);
    lemma_str_is_utf8(fields.device_did);
    lemma_str_is_utf8(fields.owner_did);
    lemma_str_is_utf8(fields.hub_relay);
    lemma_str_is_utf8(fields.hub_host);
    assert(strings_valid(fields@));
    lemma_decode_inverts_encode(fields@, sig);
}

/// Reading a string from the front does not look past it: bytes appended
/// after it stay after it.
proof fn lemma_read_str_extend(x: Seq<u8>, y: Seq<u8>)
    requires
        read_str_spec(x) is Some,
    ensures
        read_str_spec(x + y) == Some((read_str_spec(x).unwrap().0, read_str_spec(x).unwrap().1 + y)),
{
    let b = x + y;
    assert(b[0] == x[0] && b[1] == x[1]);
    let n = from_be16(x) as int;
    let rest = x.subrange(2, x.len() as int);
    let brest = b.subrange(2, b.len() as int);
    assert(brest =~= rest + y);
    assert(brest.subrange(0, n) =~= rest.subrange(0, n));
    assert(brest.subrange(n, brest.len() as int) =~= rest.subrange(n, rest.len() as int) + y);
}

/// Skipping strings from the front does not look past them either.
proof fn lemma_skip_strs_extend(count: nat, x: Seq<u8>, y: Seq<u8>)
    requires
        skip_strs(count, x) is Some,
    ensures
        skip_strs(count, x + y) == Some(skip_strs(count, x).unwrap() + y),
    decreases count,
{
    if count > 0 {
        lemma_read_str_extend(x, y);
        let rest = read_str_spec(x).unwrap().1;
        lemma_skip_strs_extend((count - 1) as nat, rest, y);
    }
}

/// The trailing part ends the bytes exactly: appending to a tail that
/// parses leaves one that does not.
proof fn lemma_parse_tail_exact(x: Seq<u8>, y: Seq<u8>)
    requires
        parse_tail(x) is Some,
        parse_tail(x + y) is Some,
    ensures
        y.len() == 0,
{
    let b = x + y;
    assert(b[0] == x[0]);
    let r7 = x.subrange(1, x.len() as int);
    assert(b.subrange(1, b.len() as int) =~= r7 + y);
    lemma_skip_strs_extend(x[0] as nat, r7, y);
}

/// The hub strings and the tail end the bytes exactly.
proof fn lemma_parse_hub_exact(x: Seq<u8>, y: Seq<u8>)
    requires
        parse_hub(x) is Some,
        parse_hub(x + y) is Some,
    ensures
        y.len() == 0,
{
    lemma_read_str_extend(x, y);
    let r5 = read_str_spec(x).unwrap().1;
    lemma_read_str_extend(r5, y);
    let r6 = read_str_spec(r5).unwrap().1;
    lemma_parse_tail_exact(r6, y);
}

/// The body grammar is prefix-free: a body that parses, with bytes
/// appended, no longer parses.
pub proof fn lemma_parse_body_exact(x: Seq<u8>, y: Seq<u8>)
    requires
        parse_body(x) is Some,
        parse_body(x + y) is Some,
    ensures
        y.len() == 0,
{
    reveal(parse_body);
    lemma_read_str_extend(x, y);
    let r1 = read_str_spec(x).unwrap().1;
    lemma_read_str_extend(r1, y);
    let r2 = read_str_spec(r1).unwrap().1;
    let r3 = r2.subrange(33, r2.len() as int);
    assert((r2 + y).subrange(33, (r2 + y).len() as int) =~= r3 + y);
    let r4 = r3.subrange(32, r3.len() as int);
    assert((r3 + y).subrange(32, (r3 + y).len() as int) =~= r4 + y);
    lemma_parse_hub_exact(r4, y);
}

/// **A signed adoption decodes only whole.** For valid fields and a
/// 64-byte signature, no proper prefix of the signed bytes decodes, and
/// neither do the signed bytes with anything inserted between the fields
/// and the signature: each is refused with `InvalidFormat`.
pub proof fn lemma_signed_adoption_is_exact(f: FieldsView, sig: Seq<u8>, k: int, extra: Seq<u8>)
    requires
        validate_ok(f),
        strings_valid(f),
        f.caps.items.len() == f.caps.count,
        sig.len() == SIG_LEN,
    ensures
        0 <= k < (canonical_bytes(f) + sig).len() ==> decode_spec(
            (canonical_bytes(f) + sig).subrange(0, k),
        ) == Err::<AdoptionView, Error>(Error::InvalidFormat),
        extra.len() > 0 ==> decode_spec(canonical_bytes(f) + extra + sig) == Err::<
            AdoptionView,
            Error,
        >(Error::InvalidFormat),
{
    let c = canonical_bytes(f);
    let body = body_bytes(f);
    lemma_parse_body_of_body_bytes(f);
    assert(adoption_domain().len() == 18);
    assert(c.subrange(0, 18) =~= adoption_domain());
    assert(c[18] == ADOPTION_VERSION);
    assert(c.subrange(19, c.len() as int) =~= body);
    if 0 <= k < (c + sig).len() && k >= 18 + 1 + SIG_LEN {
        let p = (c + sig).subrange(0, k);
        let m = k - SIG_LEN;
        let cp = p.subrange(0, p.len() - SIG_LEN);
        assert(cp =~= c.subrange(0, m));
        assert(cp.subrange(0, 18) =~= adoption_domain());
        assert(cp[18] == c[18]);
        let x = cp.subrange(19, cp.len() as int);
        let y = c.subrange(m, c.len() as int);
        assert(x + y =~= body);
        if parse_body(x) is Some {
            lemma_parse_body_exact(x, y);
        }
    }
    if extra.len() > 0 {
        let b = c + extra + sig;
        let cb = b.subrange(0, b.len() - SIG_LEN);
        assert(cb =~= c + extra);
        assert(cb.subrange(0, 18) =~= adoption_domain());
        assert(cb[18] == c[18]);
        assert(cb.subrange(19, cb.len() as int) =~= body + extra);
        if parse_body(body + extra) is Some {
            lemma_parse_body_exact(body, extra);
        }
    }
}

/// **What the owner signs decodes only whole.** For the fields of any
/// `AdoptionFields` that validate (with a capability list that yields as
/// many strings as it declares), a proper prefix of the bytes `sign_into`
/// writes, or those bytes with anything inserted before the signature, is
/// refused with `InvalidFormat`.
pub proof fn lemma_signed_fields_decode_only_whole(
    fields: AdoptionFields,
    sig: Seq<u8>,
    k: int,
    extra: Seq<u8>,
)
    requires
        validate_ok(fields@),
        fields@.caps.items.len() == fields@.caps.count,
        sig.len() == SIG_LEN,
    ensures
        0 <= k < (canonical_bytes(fields@) + sig).len() ==> decode_spec(
            (canonical_bytes(fields@) + sig).subrange(0, k),
        ) == Err::<AdoptionView, Error>(Error::InvalidFormat),
        extra.len() > 0 ==> decode_spec(canonical_bytes(fields@) + extra + sig) == Err::<
            AdoptionView,
            Error,
        >(Error::InvalidFormat),
{
    lemma_items_valid_utf8(fields.caps);
    lemma_str_is_utf8(fields.device_did);
    lemma_str_is_utf8(fields.owner_did);
    lemma_str_is_utf8(fields.hub_relay);
    lemma_str_is_utf8(fields.hub_host);
    lemma_signed_adoption_is_exact(fields@, sig, k, extra);
}

/// **The pin admits its owner's adoptions that are not older.** Against a
/// pin holding the adoption's own owner key at a roster version no newer
/// than the adoption's, [`crate::adoption::Adoption::accept`] decides as if
/// there were no pin: in particular, an adoption is accepted again against
/// the pin its own acceptance produced (equal roster versions).
pub proof fn lemma_pin_admits_same_owner_not_older(f: FieldsView, p: OwnerPin, now: Option<u64>)
    requires
        p.genesis_pubkey@ == f.owner_genesis_pubkey,
        p.roster_version <= f.roster_version,
    ensures
        pin_and_time_ok(f, Some(p), now) == pin_and_time_ok(f, None, now),
{
}

/// **The pin refuses another owner and a rollback.** Against a pin holding
/// another key, or a roster version newer than the adoption's, the
/// adoption is refused whatever the time.
pub proof fn lemma_pin_refuses_other_owner_or_rollback(
    f: FieldsView,
    p: OwnerPin,
    now: Option<u64>,
)
    requires
        p.genesis_pubkey@ != f.owner_genesis_pubkey || p.roster_version > f.roster_version,
    ensures
        !pin_and_time_ok(f, Some(p), now),
{
}

/// **Only the clock can refuse an unpinned adoption.** With no pin and no
/// clock nothing is refused; with a clock, an adoption is refused exactly
/// when it has an expiry and the time has reached it.
pub proof fn lemma_clock_refuses_only_expired(f: FieldsView, t: u64)
    ensures
        pin_and_time_ok(f, None, None),
        pin_and_time_ok(f, None, Some(t)) <==> (f.expires_at == 0 || t < f.expires_at),
{
}

/// **An expiry that is set comes after the issue time.** Whatever validates
/// (and so whatever encodes, signs or decodes) has no expiry or expires
/// strictly after it was issued.
pub proof fn lemma_valid_expiry_after_issue(f: FieldsView)
    requires
        validate_ok(f),
    ensures
        f.expires_at == 0 || f.issued_at < f.expires_at,
{
}

/// **A decoded adoption expires after it was issued**, when it expires.
pub proof fn lemma_decoded_expiry_after_issue(b: Seq<u8>)
    requires
        decode_spec(b) is Ok,
    ensures
        decode_spec(b) matches Ok(a) && (a.fields.expires_at == 0 || a.fields.issued_at
            < a.fields.expires_at),
{
}

/// **Any expiry after the issue time, or none, is accepted.** Retiming
/// fields that validate to no expiry, or to any expiry strictly after the
/// issue time, keeps them valid.
pub proof fn lemma_fields_retimed(f: FieldsView, issued_at: u64, expires_at: u64)
    requires
        validate_ok(f),
        expires_at == 0 || issued_at < expires_at,
    ensures
        validate_ok(FieldsView { issued_at, expires_at, ..f }),
{
}

} // verus!
