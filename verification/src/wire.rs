//! The binary layout in which the DNS program stores its accounts
//! (Borsh): integers little-endian, a string as its UTF-8 byte length in
//! four little-endian bytes followed by those bytes, a boolean as one byte
//! `0` or `1`, a public key as its 32 raw bytes, and a struct as its fields
//! in declaration order.
use vstd::prelude::*;
use vstd::bytes::*;
use vstd::slice::*;
use vstd::utf8::*;
use crate::models::{Lease, LeaseView, Record, RecordView, Zone, ZoneView};

verus! {

broadcast use {vstd::utf8::encode_utf8_decode_utf8, vstd::utf8::encode_utf8_valid_utf8};

/// Number of bytes of a public key.
pub const KEY_LEN: usize = 32;

/// `x` stands in `b` at offset `pos`.
pub open spec fn prefix_at<A>(b: Seq<A>, pos: int, x: Seq<A>) -> bool {
    &&& 0 <= pos
    &&& pos + x.len() <= b.len()
    &&& b.subrange(pos, pos + x.len()) == x
}

/// A string whose UTF-8 length fits the four-byte length prefix.
pub open spec fn string_encodable(s: Seq<char>) -> bool {
    encode_utf8(s).len() <= u32::MAX
}

/// Layout of a string.
pub open spec fn string_field(s: Seq<char>) -> Seq<u8> {
    spec_u32_to_le_bytes(encode_utf8(s).len() as u32) + encode_utf8(s)
}

/// Layout of a signed 64-bit integer.
pub open spec fn i64_field(x: i64) -> Seq<u8> {
    spec_u64_to_le_bytes(x as u64)
}

/// Layout of a boolean.
pub open spec fn bool_field(b: bool) -> Seq<u8> {
    if b {
        seq![1u8]
    } else {
        seq![0u8]
    }
}

/// Layout of a [`Record`].
pub open spec fn record_bytes(r: RecordView) -> Seq<u8> {
    string_field(r.host) + i64_field(r.ttl) + string_field(r.record_type) + string_field(r.value)
}

/// A record that has a layout: every string fits its length prefix.
pub open spec fn record_encodable(r: RecordView) -> bool {
    string_encodable(r.host) && string_encodable(r.record_type) && string_encodable(r.value)
}

/// Layout of a [`Zone`].
pub open spec fn zone_bytes(z: ZoneView) -> Seq<u8> {
    z.owner + i64_field(z.lamports_per_second) + i64_field(z.min_lease_duration_secs)
        + string_field(z.domain) + bool_field(z.subdivided)
}

/// A zone that has a layout.
pub open spec fn zone_encodable(z: ZoneView) -> bool {
    z.owner.len() == KEY_LEN && string_encodable(z.domain)
}

/// Layout of a [`Lease`].
pub open spec fn lease_bytes(l: LeaseView) -> Seq<u8> {
    l.zone_account + l.owner + string_field(l.domain) + i64_field(l.expiration)
        + bool_field(l.expired)
}

/// A lease that has a layout.
pub open spec fn lease_encodable(l: LeaseView) -> bool {
    l.zone_account.len() == KEY_LEN && l.owner.len() == KEY_LEN && string_encodable(l.domain)
}

/// The bytes are malformed: no value of the expected kind is laid out there.
#[derive(Debug, Clone, Copy, PartialEq, Eq, Structural)]
pub struct DecodeError;

/// A string is too long for its four-byte length prefix.
#[derive(Debug, Clone, Copy, PartialEq, Eq, Structural)]
pub struct EncodeError;

// ---------------------------------------------------------------------------
// Lemmas on the layout
// ---------------------------------------------------------------------------

/// Splitting a concatenation that stands at `pos`.
pub proof fn lemma_prefix_split<A>(b: Seq<A>, pos: int, x: Seq<A>, y: Seq<A>)
    requires
        prefix_at(b, pos, x + y),
    ensures
        prefix_at(b, pos, x),
        prefix_at(b, pos + x.len(), y),
{
    let whole = b.subrange(pos, pos + x.len() + y.len());
    assert(whole == x + y);
    assert forall|k: int| 0 <= k < x.len() implies #[trigger] b.subrange(pos, pos + x.len())[k]
        == x[k] by {
        assert(whole[k] == (x + y)[k]);
    }
    assert(b.subrange(pos, pos + x.len()) =~= x);
    assert forall|k: int| 0 <= k < y.len() implies #[trigger] b.subrange(
        pos + x.len(),
        pos + x.len() + y.len(),
    )[k] == y[k] by {
        assert(whole[k + x.len()] == (x + y)[k + x.len()]);
    }
    assert(b.subrange(pos + x.len(), pos + x.len() + y.len()) =~= y);
}

/// A piece stands at `pos + 1` exactly when it stands at `pos` of the
/// sequence without its first element.
pub proof fn lemma_prefix_shift<A>(b: Seq<A>, x: Seq<A>)
    requires
        b.len() > 0,
    ensures
        prefix_at(b.subrange(1, b.len() as int), 0, x) <==> prefix_at(b, 1, x),
{
    let t = b.subrange(1, b.len() as int);
    if x.len() <= t.len() {
        assert(t.subrange(0, x.len() as int) =~= b.subrange(1, 1int + x.len()));
    }
}

/// Joining two pieces that stand one after the other.
pub proof fn lemma_prefix_join<A>(b: Seq<A>, pos: int, x: Seq<A>, y: Seq<A>)
    requires
        prefix_at(b, pos, x),
        prefix_at(b, pos + x.len(), y),
    ensures
        prefix_at(b, pos, x + y),
{
    assert(b.subrange(pos, pos + x.len() + y.len()) =~= x + y) by {
        assert forall|k: int| 0 <= k < x.len() + y.len() implies #[trigger] b.subrange(
            pos,
            pos + x.len() + y.len(),
        )[k] == (x + y)[k] by {
            if k < x.len() {
                assert(b.subrange(pos, pos + x.len())[k] == x[k]);
            } else {
                assert(b.subrange(pos + x.len(), pos + x.len() + y.len())[k - x.len()] == y[k
                    - x.len()]);
            }
        }
    }
}

/// The length of a string's layout.
pub proof fn lemma_string_field_len(s: Seq<char>)
    ensures
        string_field(s).len() == 4 + encode_utf8(s).len(),
{
    lemma_auto_spec_u32_to_from_le_bytes();
}

/// The length of an integer's layout.
pub proof fn lemma_i64_field_len(x: i64)
    ensures
        i64_field(x).len() == 8,
{
    lemma_auto_spec_u64_to_from_le_bytes();
}

/// A string layout determines the string: two encodable strings whose
/// layouts both stand at the same offset are equal.
pub proof fn lemma_string_field_unique(b: Seq<u8>, pos: int, s1: Seq<char>, s2: Seq<char>)
    requires
        string_encodable(s1),
        string_encodable(s2),
        prefix_at(b, pos, string_field(s1)),
        prefix_at(b, pos, string_field(s2)),
    ensures
        s1 == s2,
{
    lemma_auto_spec_u32_to_from_le_bytes();
    let e1 = encode_utf8(s1);
    let e2 = encode_utf8(s2);
    lemma_prefix_split(b, pos, spec_u32_to_le_bytes(e1.len() as u32), e1);
    lemma_prefix_split(b, pos, spec_u32_to_le_bytes(e2.len() as u32), e2);
    assert(spec_u32_from_le_bytes(spec_u32_to_le_bytes(e1.len() as u32)) == e1.len() as u32);
    assert(spec_u32_from_le_bytes(spec_u32_to_le_bytes(e2.len() as u32)) == e2.len() as u32);
    assert(e1.len() == e2.len());
    assert(e1 == e2);
    assert(decode_utf8(e1) == s1);
    assert(decode_utf8(e2) == s2);
}

/// An integer layout determines the integer.
pub proof fn lemma_i64_field_unique(b: Seq<u8>, pos: int, x1: i64, x2: i64)
    requires
        prefix_at(b, pos, i64_field(x1)),
        prefix_at(b, pos, i64_field(x2)),
    ensures
        x1 == x2,
{
    lemma_auto_spec_u64_to_from_le_bytes();
    assert(spec_u64_from_le_bytes(spec_u64_to_le_bytes(x1 as u64)) == x1 as u64);
    assert(spec_u64_from_le_bytes(spec_u64_to_le_bytes(x2 as u64)) == x2 as u64);
    assert(x1 as u64 == x2 as u64);
    assert((x1 as u64 == x2 as u64) ==> x1 == x2) by (bit_vector);
}

// ---------------------------------------------------------------------------
// Readers of single fields
// ---------------------------------------------------------------------------

/// `String::from_utf8`: the bytes become a string exactly when they are
/// well-formed UTF-8, and the string is the characters they encode.
#[verifier::external_body]
fn string_from_utf8(bytes: Vec<u8>) -> (r: Option<String>)
    ensures
        r is Some <==> valid_utf8(bytes@),
        r matches Some(s) ==> s@ == decode_utf8(bytes@),
{
    String::from_utf8(bytes).ok()
}

/// Reads the little-endian `u32` at `pos`.
fn read_u32(b: &[u8], pos: usize) -> (r: Option<u32>)
    ensures
        r is Some <==> pos + 4 <= b@.len(),
        r matches Some(x) ==> prefix_at(b@, pos as int, spec_u32_to_le_bytes(x)),
{
    if pos > b.len() || b.len() - pos < 4 {
        return None;
    }
    let x = u32_from_le_bytes(slice_subrange(b, pos, pos + 4));
    proof {
        lemma_auto_spec_u32_to_from_le_bytes();
    }
    Some(x)
}

/// Reads the integer at `pos`.
fn read_i64(b: &[u8], pos: usize) -> (r: Option<(i64, usize)>)
    ensures
        r is Some <==> pos + 8 <= b@.len(),
        r matches Some((x, end)) ==> prefix_at(b@, pos as int, i64_field(x)) && end == pos + 8,
{
    if pos > b.len() || b.len() - pos < 8 {
        return None;
    }
    let u = u64_from_le_bytes(slice_subrange(b, pos, pos + 8));
    let x = u as i64;
    proof {
        lemma_auto_spec_u64_to_from_le_bytes();
        assert((u as i64) as u64 == u) by (bit_vector);
    }
    Some((x, pos + 8))
}

/// Reads the boolean at `pos`.
fn read_bool(b: &[u8], pos: usize) -> (r: Option<(bool, usize)>)
    ensures
        r matches Some((x, end)) ==> prefix_at(b@, pos as int, bool_field(x)) && end == pos + 1,
        forall|x: bool|
            prefix_at(b@, pos as int, #[trigger] bool_field(x)) ==> (r matches Some((y, _)) && y
                == x),
{
    if pos >= b.len() {
        return None;
    }
    let v = b[pos];
    proof {
        assert(b@.subrange(pos as int, pos + 1) =~= seq![v]);
        assert forall|x: bool| prefix_at(b@, pos as int, #[trigger] bool_field(x)) implies v == (
        if x {
            1u8
        } else {
            0u8
        }) by {
            assert(b@.subrange(pos as int, pos + 1)[0] == bool_field(x)[0]);
        }
    }
    if v == 0 {
        proof {
            assert(bool_field(false) =~= b@.subrange(pos as int, pos + 1));
        }
        Some((false, pos + 1))
    } else if v == 1 {
        proof {
            assert(bool_field(true) =~= b@.subrange(pos as int, pos + 1));
        }
        Some((true, pos + 1))
    } else {
        None
    }
}

/// Reads the public key at `pos`.
fn read_key(b: &[u8], pos: usize) -> (r: Option<Vec<u8>>)
    ensures
        r is Some <==> pos + KEY_LEN <= b@.len(),
        r matches Some(k) ==> k@.len() == KEY_LEN && prefix_at(b@, pos as int, k@),
{
    if pos > b.len() || b.len() - pos < KEY_LEN {
        return None;
    }
    Some(slice_to_vec(slice_subrange(b, pos, pos + KEY_LEN)))
}

/// Reads the string at `pos`; returns it with the offset just past it.
fn read_string(b: &[u8], pos: usize) -> (r: Option<(String, usize)>)
    ensures
        r matches Some((s, end)) ==> {
            &&& string_encodable(s@)
            &&& prefix_at(b@, pos as int, string_field(s@))
            &&& end == pos + string_field(s@).len()
        },
        forall|t: Seq<char>|
            string_encodable(t) && prefix_at(b@, pos as int, #[trigger] string_field(t)) ==> (r matches Some(
                (s, _),
            ) && s@ == t),
{
    proof {
        lemma_auto_spec_u32_to_from_le_bytes();
    }
    if pos > b.len() || b.len() - pos < 4 {
        proof {
            assert forall|t: Seq<char>|
                string_encodable(t) && #[trigger] prefix_at(
                    b@,
                    pos as int,
                    string_field(t),
                ) implies false by {
                lemma_string_field_len(t);
            }
        }
        return None;
    }
    let len = match read_u32(b, pos) {
        Some(len) => len,
        None => {
            proof {
                assert forall|t: Seq<char>|
                    string_encodable(t) && #[trigger] prefix_at(
                        b@,
                        pos as int,
                        string_field(t),
                    ) implies false by {
                    lemma_string_field_len(t);
                }
            }
            return None;
        },
    };
    let start = pos + 4;
    let len = len as usize;
    if len > b.len() - start {
        proof {
            assert forall|t: Seq<char>|
                string_encodable(t) && #[trigger] prefix_at(
                    b@,
                    pos as int,
                    string_field(t),
                ) implies false by {
                let e = encode_utf8(t);
                lemma_string_field_len(t);
                lemma_prefix_split(b@, pos as int, spec_u32_to_le_bytes(e.len() as u32), e);
                assert(spec_u32_from_le_bytes(spec_u32_to_le_bytes(e.len() as u32)) == e.len()
                    as u32);
                assert(spec_u32_from_le_bytes(spec_u32_to_le_bytes(len as u32)) == len as u32);
            }
        }
        return None;
    }
    let bytes = slice_to_vec(slice_subrange(b, start, start + len));
    let ghost raw = bytes@;
    match string_from_utf8(bytes) {
        Some(s) => {
            proof {
                decode_utf8_encode_utf8(raw);
                assert(encode_utf8(s@) == raw);
                lemma_prefix_join(b@, pos as int, spec_u32_to_le_bytes(len as u32), raw);
                lemma_string_field_len(s@);
                assert forall|t: Seq<char>|
                    string_encodable(t) && #[trigger] prefix_at(
                        b@,
                        pos as int,
                        string_field(t),
                    ) implies s@ == t by {
                    lemma_string_field_unique(b@, pos as int, s@, t);
                }
            }
            Some((s, start + len))
        },
        None => {
            proof {
                assert forall|t: Seq<char>|
                    string_encodable(t) && #[trigger] prefix_at(
                        b@,
                        pos as int,
                        string_field(t),
                    ) implies false by {
                    let e = encode_utf8(t);
                    lemma_prefix_split(b@, pos as int, spec_u32_to_le_bytes(e.len() as u32), e);
                    assert(spec_u32_from_le_bytes(spec_u32_to_le_bytes(e.len() as u32))
                        == e.len() as u32);
                    assert(spec_u32_from_le_bytes(spec_u32_to_le_bytes(len as u32)) == len as u32);
                    assert(raw == e);
                }
            }
            None
        },
    }
}

// ---------------------------------------------------------------------------
// Records
// ---------------------------------------------------------------------------

/// Where the fields of a record's layout stand.
proof fn lemma_record_parts(b: Seq<u8>, rv: RecordView)
    requires
        prefix_at(b, 0, record_bytes(rv)),
    ensures
        prefix_at(b, 0, string_field(rv.host)),
        prefix_at(b, string_field(rv.host).len() as int, i64_field(rv.ttl)),
        prefix_at(
            b,
            (string_field(rv.host).len() + i64_field(rv.ttl).len()) as int,
            string_field(rv.record_type),
        ),
        prefix_at(
            b,
            (string_field(rv.host).len() + i64_field(rv.ttl).len() + string_field(
                rv.record_type,
            ).len()) as int,
            string_field(rv.value),
        ),
{
    let a = string_field(rv.host);
    let t = i64_field(rv.ttl);
    let c = string_field(rv.record_type);
    let d = string_field(rv.value);
    lemma_prefix_split(b, 0, a + t + c, d);
    lemma_prefix_split(b, 0, a + t, c);
    lemma_prefix_split(b, 0, a, t);
}

/// The layout of records is prefix-free: at most one encodable record is
/// laid out at the start of any byte sequence. In particular, decoding
/// the bytes that encoding a record produced gives back that record.
pub proof fn lemma_record_bytes_unique(b: Seq<u8>, r1: RecordView, r2: RecordView)
    requires
        record_encodable(r1),
        record_encodable(r2),
        prefix_at(b, 0, record_bytes(r1)),
        prefix_at(b, 0, record_bytes(r2)),
    ensures
        r1 == r2,
{
    lemma_record_parts(b, r1);
    lemma_record_parts(b, r2);
    lemma_i64_field_len(r1.ttl);
    lemma_i64_field_len(r2.ttl);
    lemma_string_field_unique(b, 0, r1.host, r2.host);
    lemma_i64_field_unique(b, string_field(r1.host).len() as int, r1.ttl, r2.ttl);
    let p = string_field(r1.host).len() + 8int;
    lemma_string_field_unique(b, p, r1.record_type, r2.record_type);
    lemma_string_field_unique(
        b,
        p + string_field(r1.record_type).len(),
        r1.value,
        r2.value,
    );
}

/// Decodes the record laid out at the start of `b` (trailing bytes are
/// left alone); returns it with the number of bytes it takes.
pub fn decode_record(b: &[u8]) -> (r: Result<(Record, usize), DecodeError>)
    ensures
        r matches Ok((rec, n)) ==> {
            &&& record_encodable(rec@)
            &&& prefix_at(b@, 0, record_bytes(rec@))
            &&& n == record_bytes(rec@).len()
        },
        forall|rv: RecordView|
            record_encodable(rv) && prefix_at(b@, 0, #[trigger] record_bytes(rv)) ==> (r matches Ok(
                (rec, _),
            ) && rec@ == rv),
{
    let (host, p1) = match read_string(b, 0) {
        Some(x) => x,
        None => {
            proof {
                assert forall|rv: RecordView|
                    record_encodable(rv) && #[trigger] prefix_at(
                        b@,
                        0,
                        record_bytes(rv),
                    ) implies false by {
                    lemma_record_parts(b@, rv);
                }
            }
            return Err(DecodeError);
        },
    };
    proof {
        lemma_i64_field_len(0);
        assert forall|rv: RecordView|
            record_encodable(rv) && #[trigger] prefix_at(b@, 0, record_bytes(rv)) implies rv.host
            == host@ by {
            lemma_record_parts(b@, rv);
        }
    }
    let (ttl, p2) = match read_i64(b, p1) {
        Some(x) => x,
        None => {
            proof {
                assert forall|rv: RecordView|
                    record_encodable(rv) && #[trigger] prefix_at(
                        b@,
                        0,
                        record_bytes(rv),
                    ) implies false by {
                    lemma_record_parts(b@, rv);
                    lemma_i64_field_len(rv.ttl);
                }
            }
            return Err(DecodeError);
        },
    };
    let (record_type, p3) = match read_string(b, p2) {
        Some(x) => x,
        None => {
            proof {
                assert forall|rv: RecordView|
                    record_encodable(rv) && #[trigger] prefix_at(
                        b@,
                        0,
                        record_bytes(rv),
                    ) implies false by {
                    lemma_record_parts(b@, rv);
                    lemma_i64_field_len(rv.ttl);
                }
            }
            return Err(DecodeError);
        },
    };
    let (value, p4) = match read_string(b, p3) {
        Some(x) => x,
        None => {
            proof {
                assert forall|rv: RecordView|
                    record_encodable(rv) && #[trigger] prefix_at(
                        b@,
                        0,
                        record_bytes(rv),
                    ) implies false by {
                    lemma_record_parts(b@, rv);
                    lemma_i64_field_len(rv.ttl);
                    lemma_string_field_unique(b@, p2 as int, rv.record_type, record_type@);
                }
            }
            return Err(DecodeError);
        },
    };
    let rec = Record { host, ttl, record_type, value };
    proof {
        lemma_i64_field_len(ttl);
        let a = string_field(rec.host@);
        let t = i64_field(ttl);
        let c = string_field(rec.record_type@);
        lemma_prefix_join(b@, 0, a, t);
        lemma_prefix_join(b@, 0, a + t, c);
        lemma_prefix_join(b@, 0, a + t + c, string_field(rec.value@));
        assert forall|rv: RecordView|
            record_encodable(rv) && #[trigger] prefix_at(b@, 0, record_bytes(rv)) implies rec@
            == rv by {
            lemma_record_bytes_unique(b@, rec@, rv);
        }
    }
    Ok((rec, p4))
}

/// Decodes a record that takes up all of `b`: decoding fails when bytes
/// are left over after the record.
pub fn record_from_slice(b: &[u8]) -> (r: Result<Record, DecodeError>)
    ensures
        r matches Ok(rec) ==> record_encodable(rec@) && b@ == record_bytes(rec@),
        forall|rv: RecordView|
            record_encodable(rv) && b@ == #[trigger] record_bytes(rv) ==> (r matches Ok(rec)
                && rec@ == rv),
{
    proof {
        assert forall|rv: RecordView|
            record_encodable(rv) && b@ == #[trigger] record_bytes(rv) implies prefix_at(
            b@,
            0,
            record_bytes(rv),
        ) by {
            assert(b@.subrange(0, b@.len() as int) =~= b@);
        }
    }
    match decode_record(b) {
        Ok((rec, n)) => {
            if n == b.len() {
                proof {
                    assert(b@.subrange(0, n as int) =~= b@);
                }
                Ok(rec)
            } else {
                Err(DecodeError)
            }
        },
        Err(e) => Err(e),
    }
}

/// Appends `src` to `out`.
fn append_bytes(out: &mut Vec<u8>, src: &[u8])
    ensures
        final(out)@ == old(out)@ + src@,
{
    let mut i: usize = 0;
    while i < src.len()
        invariant
            i <= src@.len(),
            out@ == old(out)@ + src@.subrange(0, i as int),
        decreases src@.len() - i,
    {
        out.push(src[i]);
        i = i + 1;
        proof {
            assert(out@ =~= old(out)@ + src@.subrange(0, i as int));
        }
    }
    proof {
        assert(src@.subrange(0, src@.len() as int) =~= src@);
    }
}

/// Appends the layout of a string; fails, leaving `out` as it was, when
/// the string is too long for its length prefix.
fn push_string(out: &mut Vec<u8>, s: &str) -> (ok: bool)
    ensures
        ok == string_encodable(s@),
        ok ==> final(out)@ == old(out)@ + string_field(s@),
        !ok ==> final(out)@ == old(out)@,
{
    let bytes = s.as_bytes();
    if bytes.len() > 0xffff_ffffusize {
        return false;
    }
    let len = bytes.len() as u32;
    let prefix = u32_to_le_bytes(len);
    append_bytes(out, prefix.as_slice());
    append_bytes(out, bytes);
    proof {
        assert(final(out)@ =~= old(out)@ + string_field(s@));
    }
    true
}

/// Appends the layout of an integer.
fn push_i64(out: &mut Vec<u8>, x: i64)
    ensures
        final(out)@ == old(out)@ + i64_field(x),
{
    let bytes = u64_to_le_bytes(x as u64);
    append_bytes(out, bytes.as_slice());
}

/// Encodes a record in its layout; fails exactly when one of its strings
/// is too long for its length prefix.
pub fn encode_record(rec: &Record) -> (r: Result<Vec<u8>, EncodeError>)
    ensures
        r is Ok <==> record_encodable(rec@),
        r matches Ok(v) ==> v@ == record_bytes(rec@),
{
    let mut out: Vec<u8> = Vec::new();
    if !push_string(&mut out, rec.host.as_str()) {
        return Err(EncodeError);
    }
    push_i64(&mut out, rec.ttl);
    if !push_string(&mut out, rec.record_type.as_str()) {
        return Err(EncodeError);
    }
    if !push_string(&mut out, rec.value.as_str()) {
        return Err(EncodeError);
    }
    proof {
        assert(out@ =~= record_bytes(rec@));
    }
    Ok(out)
}

// ---------------------------------------------------------------------------
// Zones and leases
// ---------------------------------------------------------------------------

/// A public key stands at `pos` in only one way.
proof fn lemma_key_unique(b: Seq<u8>, pos: int, k1: Seq<u8>, k2: Seq<u8>)
    requires
        k1.len() == k2.len(),
        prefix_at(b, pos, k1),
        prefix_at(b, pos, k2),
    ensures
        k1 == k2,
{
}

/// A boolean stands at `pos` in only one way.
proof fn lemma_bool_unique(b: Seq<u8>, pos: int, x1: bool, x2: bool)
    requires
        prefix_at(b, pos, bool_field(x1)),
        prefix_at(b, pos, bool_field(x2)),
    ensures
        x1 == x2,
{
    assert(b.subrange(pos, pos + 1)[0] == bool_field(x1)[0]);
    assert(b.subrange(pos, pos + 1)[0] == bool_field(x2)[0]);
}

/// Where the fields of a zone's layout stand.
proof fn lemma_zone_parts(b: Seq<u8>, z: ZoneView)
    requires
        zone_encodable(z),
        prefix_at(b, 0, zone_bytes(z)),
    ensures
        prefix_at(b, 0, z.owner),
        prefix_at(b, 32, i64_field(z.lamports_per_second)),
        prefix_at(b, 40, i64_field(z.min_lease_duration_secs)),
        prefix_at(b, 48, string_field(z.domain)),
        prefix_at(b, 48int + string_field(z.domain).len(), bool_field(z.subdivided)),
{
    let a = z.owner;
    let l = i64_field(z.lamports_per_second);
    let m = i64_field(z.min_lease_duration_secs);
    let d = string_field(z.domain);
    lemma_i64_field_len(z.lamports_per_second);
    lemma_i64_field_len(z.min_lease_duration_secs);
    lemma_prefix_split(b, 0, a + l + m + d, bool_field(z.subdivided));
    lemma_prefix_split(b, 0, a + l + m, d);
    lemma_prefix_split(b, 0, a + l, m);
    lemma_prefix_split(b, 0, a, l);
}

/// The layout of zones is prefix-free: at most one encodable zone is laid
/// out at the start of any byte sequence.
pub proof fn lemma_zone_bytes_unique(b: Seq<u8>, z1: ZoneView, z2: ZoneView)
    requires
        zone_encodable(z1),
        zone_encodable(z2),
        prefix_at(b, 0, zone_bytes(z1)),
        prefix_at(b, 0, zone_bytes(z2)),
    ensures
        z1 == z2,
{
    lemma_zone_parts(b, z1);
    lemma_zone_parts(b, z2);
    lemma_key_unique(b, 0, z1.owner, z2.owner);
    lemma_i64_field_unique(b, 32, z1.lamports_per_second, z2.lamports_per_second);
    lemma_i64_field_unique(b, 40, z1.min_lease_duration_secs, z2.min_lease_duration_secs);
    lemma_string_field_unique(b, 48, z1.domain, z2.domain);
    lemma_bool_unique(b, 48int + string_field(z1.domain).len(), z1.subdivided, z2.subdivided);
}

/// Decodes the zone laid out at the start of `b` (trailing bytes are left
/// alone); returns it with the number of bytes it takes.
pub fn decode_zone(b: &[u8]) -> (r: Result<(Zone, usize), DecodeError>)
    ensures
        r matches Ok((z, n)) ==> {
            &&& zone_encodable(z@)
            &&& prefix_at(b@, 0, zone_bytes(z@))
            &&& n == zone_bytes(z@).len()
        },
        forall|zv: ZoneView|
            zone_encodable(zv) && prefix_at(b@, 0, #[trigger] zone_bytes(zv)) ==> (r matches Ok(
                (z, _),
            ) && z@ == zv),
{
    let owner = match read_key(b, 0) {
        Some(k) => k,
        None => {
            proof {
                assert forall|zv: ZoneView|
                    zone_encodable(zv) && #[trigger] prefix_at(b@, 0, zone_bytes(zv)) implies false by {
                    lemma_zone_parts(b@, zv);
                }
            }
            return Err(DecodeError);
        },
    };
    let (lamports_per_second, p1) = match read_i64(b, 32) {
        Some(x) => x,
        None => {
            proof {
                assert forall|zv: ZoneView|
                    zone_encodable(zv) && #[trigger] prefix_at(b@, 0, zone_bytes(zv)) implies false by {
                    lemma_zone_parts(b@, zv);
                    lemma_i64_field_len(zv.lamports_per_second);
                }
            }
            return Err(DecodeError);
        },
    };
    let (min_lease_duration_secs, p2) = match read_i64(b, p1) {
        Some(x) => x,
        None => {
            proof {
                assert forall|zv: ZoneView|
                    zone_encodable(zv) && #[trigger] prefix_at(b@, 0, zone_bytes(zv)) implies false by {
                    lemma_zone_parts(b@, zv);
                    lemma_i64_field_len(zv.min_lease_duration_secs);
                }
            }
            return Err(DecodeError);
        },
    };
    let (domain, p3) = match read_string(b, p2) {
        Some(x) => x,
        None => {
            proof {
                assert forall|zv: ZoneView|
                    zone_encodable(zv) && #[trigger] prefix_at(b@, 0, zone_bytes(zv)) implies false by {
                    lemma_zone_parts(b@, zv);
                }
            }
            return Err(DecodeError);
        },
    };
    let (subdivided, p4) = match read_bool(b, p3) {
        Some(x) => x,
        None => {
            proof {
                assert forall|zv: ZoneView|
                    zone_encodable(zv) && #[trigger] prefix_at(b@, 0, zone_bytes(zv)) implies false by {
                    lemma_zone_parts(b@, zv);
                    lemma_string_field_unique(b@, 48, zv.domain, domain@);
                }
            }
            return Err(DecodeError);
        },
    };
    let z = Zone { owner, lamports_per_second, min_lease_duration_secs, domain, subdivided };
    proof {
        lemma_i64_field_len(lamports_per_second);
        lemma_i64_field_len(min_lease_duration_secs);
        let a = z.owner@;
        let l = i64_field(lamports_per_second);
        let m = i64_field(min_lease_duration_secs);
        let d = string_field(z.domain@);
        lemma_prefix_join(b@, 0, a, l);
        lemma_prefix_join(b@, 0, a + l, m);
        lemma_prefix_join(b@, 0, a + l + m, d);
        lemma_prefix_join(b@, 0, a + l + m + d, bool_field(subdivided));
        assert forall|zv: ZoneView|
            zone_encodable(zv) && #[trigger] prefix_at(b@, 0, zone_bytes(zv)) implies z@ == zv by {
            lemma_zone_bytes_unique(b@, z@, zv);
        }
    }
    Ok((z, p4))
}

/// Where the fields of a lease's layout stand.
proof fn lemma_lease_parts(b: Seq<u8>, l: LeaseView)
    requires
        lease_encodable(l),
        prefix_at(b, 0, lease_bytes(l)),
    ensures
        prefix_at(b, 0, l.zone_account),
        prefix_at(b, 32, l.owner),
        prefix_at(b, 64, string_field(l.domain)),
        prefix_at(b, 64int + string_field(l.domain).len(), i64_field(l.expiration)),
        prefix_at(b, 72int + string_field(l.domain).len(), bool_field(l.expired)),
{
    let z = l.zone_account;
    let o = l.owner;
    let d = string_field(l.domain);
    let e = i64_field(l.expiration);
    lemma_i64_field_len(l.expiration);
    lemma_prefix_split(b, 0, z + o + d + e, bool_field(l.expired));
    lemma_prefix_split(b, 0, z + o + d, e);
    lemma_prefix_split(b, 0, z + o, d);
    lemma_prefix_split(b, 0, z, o);
}

/// The layout of leases is prefix-free: at most one encodable lease is
/// laid out at the start of any byte sequence.
pub proof fn lemma_lease_bytes_unique(b: Seq<u8>, l1: LeaseView, l2: LeaseView)
    requires
        lease_encodable(l1),
        lease_encodable(l2),
        prefix_at(b, 0, lease_bytes(l1)),
        prefix_at(b, 0, lease_bytes(l2)),
    ensures
        l1 == l2,
{
    lemma_lease_parts(b, l1);
    lemma_lease_parts(b, l2);
    lemma_key_unique(b, 0, l1.zone_account, l2.zone_account);
    lemma_key_unique(b, 32, l1.owner, l2.owner);
    lemma_string_field_unique(b, 64, l1.domain, l2.domain);
    let p = 64int + string_field(l1.domain).len();
    lemma_i64_field_unique(b, p, l1.expiration, l2.expiration);
    lemma_bool_unique(b, p + 8, l1.expired, l2.expired);
}

/// Decodes the lease laid out at the start of `b` (trailing bytes are
/// left alone); returns it with the number of bytes it takes.
pub fn decode_lease(b: &[u8]) -> (r: Result<(Lease, usize), DecodeError>)
    ensures
        r matches Ok((l, n)) ==> {
            &&& lease_encodable(l@)
            &&& prefix_at(b@, 0, lease_bytes(l@))
            &&& n == lease_bytes(l@).len()
        },
        forall|lv: LeaseView|
            lease_encodable(lv) && prefix_at(b@, 0, #[trigger] lease_bytes(lv)) ==> (r matches Ok(
                (l, _),
            ) && l@ == lv),
{
    let zone_account = match read_key(b, 0) {
        Some(k) => k,
        None => {
            proof {
                assert forall|lv: LeaseView|
                    lease_encodable(lv) && #[trigger] prefix_at(b@, 0, lease_bytes(lv)) implies false by {
                    lemma_lease_parts(b@, lv);
                }
            }
            return Err(DecodeError);
        },
    };
    let owner = match read_key(b, 32) {
        Some(k) => k,
        None => {
            proof {
                assert forall|lv: LeaseView|
                    lease_encodable(lv) && #[trigger] prefix_at(b@, 0, lease_bytes(lv)) implies false by {
                    lemma_lease_parts(b@, lv);
                }
            }
            return Err(DecodeError);
        },
    };
    let (domain, p1) = match read_string(b, 64) {
        Some(x) => x,
        None => {
            proof {
                assert forall|lv: LeaseView|
                    lease_encodable(lv) && #[trigger] prefix_at(b@, 0, lease_bytes(lv)) implies false by {
                    lemma_lease_parts(b@, lv);
                }
            }
            return Err(DecodeError);
        },
    };
    let (expiration, p2) = match read_i64(b, p1) {
        Some(x) => x,
        None => {
            proof {
                assert forall|lv: LeaseView|
                    lease_encodable(lv) && #[trigger] prefix_at(b@, 0, lease_bytes(lv)) implies false by {
                    lemma_lease_parts(b@, lv);
                    lemma_i64_field_len(lv.expiration);
                    lemma_string_field_unique(b@, 64, lv.domain, domain@);
                }
            }
            return Err(DecodeError);
        },
    };
    let (expired, p3) = match read_bool(b, p2) {
        Some(x) => x,
        None => {
            proof {
                assert forall|lv: LeaseView|
                    lease_encodable(lv) && #[trigger] prefix_at(b@, 0, lease_bytes(lv)) implies false by {
                    lemma_lease_parts(b@, lv);
                    lemma_string_field_unique(b@, 64, lv.domain, domain@);
                }
            }
            return Err(DecodeError);
        },
    };
    let l = Lease { zone_account, owner, domain, expiration, expired };
    proof {
        lemma_i64_field_len(expiration);
        let z = l.zone_account@;
        let o = l.owner@;
        let d = string_field(l.domain@);
        let e = i64_field(expiration);
        lemma_prefix_join(b@, 0, z, o);
        lemma_prefix_join(b@, 0, z + o, d);
        lemma_prefix_join(b@, 0, z + o + d, e);
        lemma_prefix_join(b@, 0, z + o + d + e, bool_field(expired));
        assert forall|lv: LeaseView|
            lease_encodable(lv) && #[trigger] prefix_at(b@, 0, lease_bytes(lv)) implies l@ == lv by {
            lemma_lease_bytes_unique(b@, l@, lv);
        }
    }
    Ok((l, p3))
}

} // verus!
