use dedns::models::{Lease, Record, Zone};
use dedns::wire::{
    decode_lease, decode_record, decode_zone, encode_record, record_from_slice, DecodeError,
};

fn record(host: &str, ttl: i64, record_type: &str, value: &str) -> Record {
    Record {
        host: host.to_string(),
        ttl,
        record_type: record_type.to_string(),
        value: value.to_string(),
    }
}

fn borsh_record(host: &str, ttl: i64, record_type: &str, value: &str) -> Vec<u8> {
    borsh::to_vec(&(host.to_string(), ttl, record_type.to_string(), value.to_string())).unwrap()
}

#[test]
fn record_layout_matches_borsh() {
    let r = record("example.com", 300, "A", "10.0.0.1");
    let ours = encode_record(&r).unwrap();
    assert_eq!(ours, borsh_record("example.com", 300, "A", "10.0.0.1"));
    assert_eq!(
        ours,
        vec![
            11, 0, 0, 0, b'e', b'x', b'a', b'm', b'p', b'l', b'e', b'.', b'c', b'o', b'm', 44, 1,
            0, 0, 0, 0, 0, 0, 1, 0, 0, 0, b'A', 8, 0, 0, 0, b'1', b'0', b'.', b'0', b'.', b'0',
            b'.', b'1'
        ]
    );
}

#[test]
fn record_round_trip() {
    let r = record("héllo.example", -7, "CNAME", "target.example");
    let bytes = encode_record(&r).unwrap();
    let back = record_from_slice(&bytes).unwrap();
    assert_eq!(back.host, r.host);
    assert_eq!(back.ttl, -7);
    assert_eq!(back.record_type, r.record_type);
    assert_eq!(back.value, r.value);
}

#[test]
fn decode_record_leaves_trailing_bytes() {
    let mut bytes = borsh_record("a.b", i64::MIN, "A", "1.2.3.4");
    let len = bytes.len();
    bytes.extend_from_slice(&[0, 0, 0, 9]);
    let (r, n) = decode_record(&bytes).unwrap();
    assert_eq!(n, len);
    assert_eq!(r.host, "a.b");
    assert_eq!(r.ttl, i64::MIN);
    assert_eq!(r.value, "1.2.3.4");
    assert_eq!(record_from_slice(&bytes).unwrap_err(), DecodeError);
}

#[test]
fn decode_record_rejects_truncated_and_invalid_utf8() {
    let bytes = borsh_record("host", 1, "A", "1.2.3.4");
    for cut in 0..bytes.len() {
        assert_eq!(decode_record(&bytes[..cut]).unwrap_err(), DecodeError);
    }
    let mut bad = bytes.clone();
    bad[4] = 0xff;
    assert_eq!(decode_record(&bad).unwrap_err(), DecodeError);
}

#[test]
fn zone_layout_matches_borsh() {
    let owner = [7u8; 32];
    let bytes =
        borsh::to_vec(&(owner, 1_000i64, 3_600i64, "zone.example".to_string(), true)).unwrap();
    let mut data = bytes.clone();
    data.extend_from_slice(&[0u8; 16]);
    let (z, n): (Zone, usize) = decode_zone(&data).unwrap();
    assert_eq!(n, bytes.len());
    assert_eq!(z.owner, owner.to_vec());
    assert_eq!(z.lamports_per_second, 1_000);
    assert_eq!(z.min_lease_duration_secs, 3_600);
    assert_eq!(z.domain, "zone.example");
    assert!(z.subdivided);
}

#[test]
fn zone_with_invalid_bool_is_rejected() {
    let mut bytes =
        borsh::to_vec(&([1u8; 32], 1i64, 2i64, "z".to_string(), false)).unwrap();
    let last = bytes.len() - 1;
    bytes[last] = 2;
    assert_eq!(decode_zone(&bytes).unwrap_err(), DecodeError);
}

#[test]
fn lease_layout_matches_borsh() {
    let zone = [1u8; 32];
    let owner = [2u8; 32];
    let bytes =
        borsh::to_vec(&(zone, owner, "me.zone.example".to_string(), 1_700_000_000i64, false))
            .unwrap();
    let (l, n): (Lease, usize) = decode_lease(&bytes).unwrap();
    assert_eq!(n, bytes.len());
    assert_eq!(l.zone_account, zone.to_vec());
    assert_eq!(l.owner, owner.to_vec());
    assert_eq!(l.domain, "me.zone.example");
    assert_eq!(l.expiration, 1_700_000_000);
    assert!(!l.expired);
    assert_eq!(decode_lease(&bytes[..40]).unwrap_err(), DecodeError);
}
