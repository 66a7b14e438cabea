//! Canonical byte encoding of the profile list.
//!
//! The encoding is a flat list-of-records format: the record count as eight
//! little-endian bytes, then each record as its three text fields in order,
//! each field being its UTF-8 byte length as eight little-endian bytes
//! followed by its UTF-8 bytes.  The format is lossless and order-preserving,
//! and decoding an encoding returns exactly the encoded list.
use vstd::prelude::*;
use vstd::slice::{slice_subrange, slice_to_vec};
use vstd::string::StringSliceAdditionalSpecFns;
use vstd::utf8::{
    decode_utf8, encode_utf8, encode_utf8_decode_utf8, encode_utf8_valid_utf8, valid_utf8,
};
use crate::client::{Client, ClientView};
use crate::VaultError;

verus! {

broadcast use encode_utf8_decode_utf8, encode_utf8_valid_utf8;

/// The eight little-endian bytes of a 64-bit length or count.
pub open spec fn le_bytes8(v: u64) -> Seq<u8> {
    seq![
        (v & 0xff) as u8,
        ((v >> 8) & 0xff) as u8,
        ((v >> 16) & 0xff) as u8,
        ((v >> 24) & 0xff) as u8,
        ((v >> 32) & 0xff) as u8,
        ((v >> 40) & 0xff) as u8,
        ((v >> 48) & 0xff) as u8,
        ((v >> 56) & 0xff) as u8,
    ]
}

/// The value spelled by eight little-endian bytes.
pub open spec fn le_val8(b: Seq<u8>) -> u64
    recommends
        b.len() == 8,
{
    (b[0] as u64) | ((b[1] as u64) << 8) | ((b[2] as u64) << 16) | ((b[3] as u64) << 24) | (
    (b[4] as u64) << 32) | ((b[5] as u64) << 40) | ((b[6] as u64) << 48) | ((b[7] as u64) << 56)
}

/// Reading back the eight little-endian bytes of `v` yields `v`.
pub proof fn lemma_le_bytes8_val(v: u64)
    ensures
        le_val8(le_bytes8(v)) == v,
{
    assert((((v & 0xff) as u8) as u64) | ((((v >> 8) & 0xff) as u8) as u64) << 8 | ((((v >> 16)
        & 0xff) as u8) as u64) << 16 | ((((v >> 24) & 0xff) as u8) as u64) << 24 | ((((v >> 32)
        & 0xff) as u8) as u64) << 32 | ((((v >> 40) & 0xff) as u8) as u64) << 40 | ((((v >> 48)
        & 0xff) as u8) as u64) << 48 | ((((v >> 56) & 0xff) as u8) as u64) << 56 == v)
        by (bit_vector);
}

/// One text field: its UTF-8 byte length, then its UTF-8 bytes.
pub open spec fn encode_str_spec(s: Seq<char>) -> Seq<u8> {
    le_bytes8(encode_utf8(s).len() as u64) + encode_utf8(s)
}

/// One record: its three fields in order.
pub open spec fn encode_client_spec(c: ClientView) -> Seq<u8> {
    encode_str_spec(c.name) + encode_str_spec(c.ip) + encode_str_spec(c.password)
}

/// All records, in list order.
pub open spec fn encode_clients_spec(l: Seq<ClientView>) -> Seq<u8>
    decreases l.len(),
{
    if l.len() == 0 {
        Seq::empty()
    } else {
        encode_client_spec(l[0]) + encode_clients_spec(l.drop_first())
    }
}

/// The whole list: the record count, then each record.
pub open spec fn encode_list_spec(l: Seq<ClientView>) -> Seq<u8> {
    le_bytes8(l.len() as u64) + encode_clients_spec(l)
}

/// A field short enough for its byte length to fit the eight-byte prefix.
/// Every field of an in-memory record satisfies this.
pub open spec fn str_encodable(s: Seq<char>) -> bool {
    encode_utf8(s).len() < 0x1_0000_0000_0000_0000
}

pub open spec fn client_encodable(c: ClientView) -> bool {
    str_encodable(c.name) && str_encodable(c.ip) && str_encodable(c.password)
}

pub open spec fn list_encodable(l: Seq<ClientView>) -> bool {
    l.len() < 0x1_0000_0000_0000_0000 && (forall|i: int|
        0 <= i < l.len() ==> client_encodable(#[trigger] l[i]))
}

/// One parsed text field starting at byte `i`, with the position after it.
pub open spec fn parse_str(b: Seq<u8>, i: int) -> Option<(Seq<char>, int)> {
    if 0 <= i && i + 8 <= b.len() {
        let n = le_val8(b.subrange(i, i + 8)) as int;
        if i + 8 + n <= b.len() && valid_utf8(b.subrange(i + 8, i + 8 + n)) {
            Some((decode_utf8(b.subrange(i + 8, i + 8 + n)), i + 8 + n))
        } else {
            None
        }
    } else {
        None
    }
}

/// One parsed record starting at byte `i`, with the position after it.
pub open spec fn parse_client(b: Seq<u8>, i: int) -> Option<(ClientView, int)> {
    match parse_str(b, i) {
        None => None,
        Some((name, j)) => match parse_str(b, j) {
            None => None,
            Some((ip, k)) => match parse_str(b, k) {
                None => None,
                Some((password, m)) => Some((ClientView { name, ip, password }, m)),
            },
        },
    }
}

/// `n` parsed records starting at byte `i`, with the position after them.
pub open spec fn parse_clients(b: Seq<u8>, i: int, n: nat) -> Option<(Seq<ClientView>, int)>
    decreases n,
{
    if n == 0 {
        Some((Seq::empty(), i))
    } else {
        match parse_client(b, i) {
            None => None,
            Some((c, j)) => match parse_clients(b, j, (n - 1) as nat) {
                None => None,
                Some((cs, k)) => Some((seq![c] + cs, k)),
            },
        }
    }
}

/// The decoded list, defined exactly when the bytes are one well-formed
/// encoding with nothing trailing.
pub open spec fn parse_list(b: Seq<u8>) -> Option<Seq<ClientView>> {
    if b.len() >= 8 {
        match parse_clients(b, 8, le_val8(b.subrange(0, 8)) as nat) {
            None => None,
            Some((cs, j)) => if j == b.len() {
                Some(cs)
            } else {
                None
            },
        }
    } else {
        None
    }
}

/// The empty list encodes to its eight-byte zero count alone.
pub proof fn lemma_encode_empty()
    ensures
        encode_list_spec(Seq::<ClientView>::empty()).len() == 8,
{
    assert(encode_clients_spec(Seq::<ClientView>::empty()) =~= Seq::<u8>::empty());
}

/// A field's encoding, found as a slice of a larger byte string, parses back
/// to the field.
proof fn lemma_parse_str_at(b: Seq<u8>, i: int, s: Seq<char>)
    requires
        str_encodable(s),
        0 <= i,
        i + encode_str_spec(s).len() <= b.len(),
        b.subrange(i, i + encode_str_spec(s).len()) == encode_str_spec(s),
    ensures
        parse_str(b, i) == Some((s, i + encode_str_spec(s).len())),
{
    let u = encode_utf8(s);
    let e = encode_str_spec(s);
    let m = u.len() as int;
    assert(e.len() == 8 + m);
    assert(b.subrange(i, i + 8) =~= e.subrange(0, 8));
    assert(e.subrange(0, 8) =~= le_bytes8(u.len() as u64));
    lemma_le_bytes8_val(u.len() as u64);
    assert(le_val8(b.subrange(i, i + 8)) == u.len() as u64);
    assert(le_val8(b.subrange(i, i + 8)) as int == m);
    assert(b.subrange(i + 8, i + 8 + m) =~= e.subrange(8, 8 + m));
    assert(e.subrange(8, 8 + m) =~= u);
    assert(valid_utf8(u));
    assert(decode_utf8(u) == s);
}

/// A record's encoding, found as a slice of a larger byte string, parses back
/// to the record.
proof fn lemma_parse_client_at(b: Seq<u8>, i: int, c: ClientView)
    requires
        client_encodable(c),
        0 <= i,
        i + encode_client_spec(c).len() <= b.len(),
        b.subrange(i, i + encode_client_spec(c).len()) == encode_client_spec(c),
    ensures
        parse_client(b, i) == Some((c, i + encode_client_spec(c).len())),
{
    let e1 = encode_str_spec(c.name);
    let e2 = encode_str_spec(c.ip);
    let e3 = encode_str_spec(c.password);
    let e = encode_client_spec(c);
    let n1 = e1.len() as int;
    let n2 = e2.len() as int;
    let n3 = e3.len() as int;
    assert(e.len() == n1 + n2 + n3);
    assert(b.subrange(i, i + n1) =~= e.subrange(0, n1)) by {
        assert(e.subrange(0, n1) =~= b.subrange(i, i + e.len()).subrange(0, n1));
    }
    assert(e.subrange(0, n1) =~= e1);
    lemma_parse_str_at(b, i, c.name);
    let j = i + n1;
    assert(b.subrange(j, j + n2) =~= e.subrange(n1, n1 + n2));
    assert(e.subrange(n1, n1 + n2) =~= e2);
    lemma_parse_str_at(b, j, c.ip);
    let k = j + n2;
    assert(b.subrange(k, k + n3) =~= e.subrange(n1 + n2, e.len() as int));
    assert(e.subrange(n1 + n2, e.len() as int) =~= e3);
    lemma_parse_str_at(b, k, c.password);
}

/// A run of record encodings, found as a slice of a larger byte string,
/// parses back to those records.
proof fn lemma_parse_clients_at(b: Seq<u8>, i: int, l: Seq<ClientView>)
    requires
        forall|q: int| 0 <= q < l.len() ==> client_encodable(#[trigger] l[q]),
        0 <= i,
        i + encode_clients_spec(l).len() <= b.len(),
        b.subrange(i, i + encode_clients_spec(l).len()) == encode_clients_spec(l),
    ensures
        parse_clients(b, i, l.len()) == Some((l, i + encode_clients_spec(l).len())),
    decreases l.len(),
{
    if l.len() == 0 {
        assert(parse_clients(b, i, 0) == Some((Seq::<ClientView>::empty(), i)));
        assert(l =~= Seq::<ClientView>::empty());
    } else {
        let c = l[0];
        let rest = l.drop_first();
        let ec = encode_client_spec(c);
        let er = encode_clients_spec(rest);
        let e = encode_clients_spec(l);
        assert(e == ec + er);
        assert(b.subrange(i, i + ec.len()) =~= e.subrange(0, ec.len() as int)) by {
            assert(e.subrange(0, ec.len() as int) =~= b.subrange(i, i + e.len()).subrange(
                0,
                ec.len() as int,
            ));
        }
        assert(e.subrange(0, ec.len() as int) =~= ec);
        lemma_parse_client_at(b, i, c);
        let j = i + ec.len() as int;
        assert(b.subrange(j, j + er.len()) =~= e.subrange(ec.len() as int, e.len() as int));
        assert(e.subrange(ec.len() as int, e.len() as int) =~= er);
        lemma_parse_clients_at(b, j, rest);
        assert(parse_clients(b, j, rest.len()) == Some((rest, j + er.len())));
        assert((l.len() - 1) as nat == rest.len());
        assert(seq![c] + rest =~= l);
    }
}

/// Law: decoding an encoding returns the encoded list, for every list whose
/// field lengths and record count fit the eight-byte prefixes — every list
/// that can exist in memory does.
pub proof fn lemma_encode_decode_roundtrip(l: Seq<ClientView>)
    requires
        list_encodable(l),
    ensures
        parse_list(encode_list_spec(l)) == Some(l),
{
    let b = encode_list_spec(l);
    let ec = encode_clients_spec(l);
    assert(b.len() == 8 + ec.len());
    assert(b.subrange(0, 8) =~= le_bytes8(l.len() as u64));
    lemma_le_bytes8_val(l.len() as u64);
    assert(le_val8(b.subrange(0, 8)) as nat == l.len());
    assert(b.subrange(8, 8 + ec.len() as int) =~= ec);
    lemma_parse_clients_at(b, 8, l);
    assert(parse_clients(b, 8, l.len()) == Some((l, 8 + ec.len() as int)));
}

/// Appends the eight little-endian bytes of `v`.
fn push_le8(out: &mut Vec<u8>, v: u64)
    ensures
        final(out)@ == old(out)@ + le_bytes8(v),
{
    out.push((v & 0xff) as u8);
    out.push(((v >> 8) & 0xff) as u8);
    out.push(((v >> 16) & 0xff) as u8);
    out.push(((v >> 24) & 0xff) as u8);
    out.push(((v >> 32) & 0xff) as u8);
    out.push(((v >> 40) & 0xff) as u8);
    out.push(((v >> 48) & 0xff) as u8);
    out.push(((v >> 56) & 0xff) as u8);
    assert(out@ =~= old(out)@ + le_bytes8(v));
}

/// Appends one text field's encoding.
fn push_str(out: &mut Vec<u8>, s: &String)
    ensures
        final(out)@ == old(out)@ + encode_str_spec(s@),
        str_encodable(s@),
{
    let bytes = s.as_str().as_bytes();
    assert(bytes@ == encode_utf8(s@));
    push_le8(out, bytes.len() as u64);
    let mut tail = slice_to_vec(bytes);
    out.append(&mut tail);
    assert(out@ =~= old(out)@ + encode_str_spec(s@));
}

/// Appends one record's encoding.
fn push_client(out: &mut Vec<u8>, c: &Client)
    ensures
        final(out)@ == old(out)@ + encode_client_spec(c@),
        client_encodable(c@),
{
    push_str(out, &c.name);
    push_str(out, &c.ip);
    push_str(out, &c.password);
    assert(out@ =~= old(out)@ + encode_client_spec(c@));
}

/// Encodes the list to its canonical bytes.
pub fn encode(clients: &Vec<Client>) -> (r: Vec<u8>)
    ensures
        r@ == encode_list_spec(clients.deep_view()),
        list_encodable(clients.deep_view()),
{
    let ghost l = clients.deep_view();
    let mut out: Vec<u8> = Vec::new();
    push_le8(&mut out, clients.len() as u64);
    assert(out@ =~= le_bytes8(l.len() as u64));
    let n = clients.len();
    for idx in 0..n
        invariant
            n == clients@.len(),
            l == clients.deep_view(),
            out@ == le_bytes8(l.len() as u64) + encode_clients_spec(l.take(idx as int)),
            forall|q: int| 0 <= q < idx ==> client_encodable(#[trigger] l[q]),
    {
        push_client(&mut out, &clients[idx]);
        proof {
            assert(l[idx as int] == clients@[idx as int]@);
            lemma_encode_clients_snoc(l.take(idx as int), l[idx as int]);
            assert(l.take(idx as int).push(l[idx as int]) =~= l.take(idx + 1));
        }
    }
    proof {
        assert(l.take(n as int) =~= l);
    }
    out
}

/// Appending one record to a list appends its encoding.
proof fn lemma_encode_clients_snoc(l: Seq<ClientView>, c: ClientView)
    ensures
        encode_clients_spec(l.push(c)) == encode_clients_spec(l) + encode_client_spec(c),
    decreases l.len(),
{
    if l.len() == 0 {
        assert(l.push(c)[0] == c);
        assert(l.push(c).drop_first() =~= l);
        assert(encode_clients_spec(l) == Seq::<u8>::empty());
        assert(encode_clients_spec(l.push(c)) == encode_client_spec(c) + encode_clients_spec(l));
        assert(encode_client_spec(c) + Seq::<u8>::empty() =~= encode_client_spec(c));
        assert(encode_clients_spec(l) + encode_client_spec(c) =~= encode_client_spec(c));
    } else {
        assert(l.push(c)[0] == l[0]);
        assert(l.push(c).drop_first() =~= l.drop_first().push(c));
        lemma_encode_clients_snoc(l.drop_first(), c);
        assert(encode_clients_spec(l.push(c)) =~= encode_clients_spec(l) + encode_client_spec(c));
    }
}

/// Reads the eight little-endian bytes starting at `i`.
fn read_le8(bytes: &[u8], i: usize) -> (v: u64)
    requires
        i + 8 <= bytes@.len(),
    ensures
        v == le_val8(bytes@.subrange(i as int, i as int + 8)),
{
    let v = (bytes[i] as u64) | ((bytes[i + 1] as u64) << 8) | ((bytes[i + 2] as u64) << 16) | (
    (bytes[i + 3] as u64) << 24) | ((bytes[i + 4] as u64) << 32) | ((bytes[i + 5] as u64) << 40)
        | ((bytes[i + 6] as u64) << 48) | ((bytes[i + 7] as u64) << 56);
    proof {
        let s = bytes@.subrange(i as int, i as int + 8);
        assert(forall|q: int| 0 <= q < 8 ==> s[q] == bytes@[i + q]);
    }
    v
}

/// Decodes one text field starting at `*i`, advancing `*i` past it.
fn decode_str(bytes: &[u8], i: &mut usize) -> (r: Result<String, VaultError>)
    requires
        *old(i) as int <= bytes@.len(),
    ensures
        r matches Ok(s) ==> parse_str(bytes@, *old(i) as int) == Some((s@, *final(i) as int))
            && *old(i) <= *final(i) <= bytes@.len(),
        r is Err ==> parse_str(bytes@, *old(i) as int) is None && r == Err::<
            String,
            VaultError,
        >(VaultError::Format) && *final(i) == *old(i),
{
    if bytes.len() - *i < 8 {
        return Err(VaultError::Format);
    }
    let n64 = read_le8(bytes, *i);
    let rem = bytes.len() - (*i + 8);
    if n64 > rem as u64 {
        return Err(VaultError::Format);
    }
    let n = n64 as usize;
    let payload = slice_subrange(bytes, *i + 8, *i + 8 + n);
    match utf8_to_str(payload) {
        Some(s) => {
            let owned = s.to_owned();
            proof {
                assert(encode_utf8(owned@) == payload@);
                assert(decode_utf8(payload@) == owned@);
            }
            *i = *i + 8 + n;
            Ok(owned)
        },
        None => Err(VaultError::Format),
    }
}

/// Relies on `core::str::from_utf8`: succeeds exactly on valid UTF-8 and
/// returns the text those bytes spell.
#[verifier::external_body]
fn utf8_to_str(v: &[u8]) -> (r: Option<&str>)
    ensures
        r matches Some(s) ==> s.spec_bytes() == v@ && valid_utf8(v@),
        r is None ==> !valid_utf8(v@),
{
    core::str::from_utf8(v).ok()
}

/// Decodes one record starting at `*i`, advancing `*i` past it.
fn decode_client(bytes: &[u8], i: &mut usize) -> (r: Result<Client, VaultError>)
    requires
        *old(i) as int <= bytes@.len(),
    ensures
        r matches Ok(c) ==> parse_client(bytes@, *old(i) as int) == Some((c@, *final(i) as int))
            && *old(i) <= *final(i) <= bytes@.len(),
        r is Err ==> parse_client(bytes@, *old(i) as int) is None && r == Err::<
            Client,
            VaultError,
        >(VaultError::Format),
{
    let name = match decode_str(bytes, i) {
        Ok(s) => s,
        Err(e) => {
            return Err(e);
        },
    };
    let ip = match decode_str(bytes, i) {
        Ok(s) => s,
        Err(e) => {
            return Err(e);
        },
    };
    let password = match decode_str(bytes, i) {
        Ok(s) => s,
        Err(e) => {
            return Err(e);
        },
    };
    Ok(Client { name, ip, password })
}

/// Decodes canonical bytes back to the list, or reports a format fault when
/// the bytes are not exactly one well-formed encoding.
pub fn decode(bytes: &[u8]) -> (r: Result<Vec<Client>, VaultError>)
    ensures
        r matches Ok(v) ==> parse_list(bytes@) == Some(v.deep_view()),
        r is Err ==> parse_list(bytes@) is None && r == Err::<
            Vec<Client>,
            VaultError,
        >(VaultError::Format),
{
    if bytes.len() < 8 {
        return Err(VaultError::Format);
    }
    let n = read_le8(bytes, 0);
    let ghost total = n as nat;
    let mut i: usize = 8;
    let mut out: Vec<Client> = Vec::new();
    let mut k: u64 = 0;
    while k < n
        invariant
            k <= n,
            8 <= i as int <= bytes@.len(),
            total == n as nat,
            n == le_val8(bytes@.subrange(0, 8)),
            out.deep_view().len() == k as nat,
            parse_clients(bytes@, 8, total) == (match parse_clients(
                bytes@,
                i as int,
                (n - k) as nat,
            ) {
                Some((tail, j)) => Some((out.deep_view() + tail, j)),
                None => None::<(Seq<ClientView>, int)>,
            }),
        decreases n - k,
    {
        let ghost out0 = out.deep_view();
        let ghost i0 = i as int;
        let c = match decode_client(bytes, &mut i) {
            Ok(c) => c,
            Err(e) => {
                proof {
                    assert(parse_clients(bytes@, i0, (n - k) as nat) is None);
                }
                return Err(e);
            },
        };
        let ghost cv = c@;
        out.push(c);
        k = k + 1;
        proof {
            assert(out.deep_view() =~= out0.push(cv));
            let sub = (n - (k - 1)) as nat;
            assert(sub == ((n - k) as nat + 1) as nat);
            assert(parse_client(bytes@, i0) == Some((cv, i as int)));
            match parse_clients(bytes@, i as int, (n - k) as nat) {
                Some((tail, j)) => {
                    assert(parse_clients(bytes@, i0, sub) == Some((seq![cv] + tail, j)));
                    assert(out0 + (seq![cv] + tail) =~= out0.push(cv) + tail);
                },
                None => {
                    assert(parse_clients(bytes@, i0, sub) is None);
                },
            }
        }
    }
    proof {
        assert(parse_clients(bytes@, i as int, 0) == Some((Seq::<ClientView>::empty(), i as int)));
        assert(out.deep_view() + Seq::<ClientView>::empty() =~= out.deep_view());
        assert(parse_clients(bytes@, 8, total) == Some((out.deep_view(), i as int)));
    }
    if i == bytes.len() {
        Ok(out)
    } else {
        Err(VaultError::Format)
    }
}

/// Law, run end to end: encoding a list and decoding the result returns an
/// equal list.
pub fn encode_decode_roundtrip(clients: &Vec<Client>) -> (r: Vec<Client>)
    ensures
        r.deep_view() == clients.deep_view(),
{
    let encoded = encode(clients);
    proof {
        lemma_encode_decode_roundtrip(clients.deep_view());
    }
    match decode(encoded.as_slice()) {
        Ok(v) => v,
        Err(_) => {
            proof {
                assert(false);
            }
            Vec::new()
        },
    }
}

} // verus!
