//! The chain side of the node: what it asks the RPC node for, and how it
//! turns a program-account notification into a zone, a lease or a record.
use vstd::prelude::*;
use base64::Engine;
use crate::models::{Payload, Zone, Lease, Record};
use crate::wire::{
    decode_zone, decode_lease, decode_record, prefix_at, lemma_prefix_shift, zone_bytes,
    zone_encodable, lease_bytes, lease_encodable, record_bytes, record_encodable,
};
use crate::models::{ZoneView, LeaseView, RecordView};
use crate::wire::lemma_prefix_split;

verus! {

/// What the standard base64 alphabet, with padding, decodes `text` to;
/// nothing when `text` is not valid base64.
pub uninterp spec fn base64_standard_decode(text: Seq<char>) -> Option<Seq<u8>>;

/// `base64::engine::general_purpose::STANDARD.decode`: the bytes that
/// `text` encodes in standard base64, or nothing when it is not valid.
#[verifier::external_body]
fn decode_base64(text: &str) -> (r: Option<Vec<u8>>)
    ensures
        match r {
            Some(v) => base64_standard_decode(text@) == Some(v@),
            None => base64_standard_decode(text@) is None,
        },
{
    base64::engine::general_purpose::STANDARD.decode(text).ok()
}

/// The first byte of an account's data tells its kind.
pub const ZONE_TAG: u8 = 1;
/// Tag of a lease account.
pub const LEASE_TAG: u8 = 2;
/// Tag of a record account.
pub const RECORD_TAG: u8 = 3;

/// What an account notification carries.
#[derive(Debug, Clone)]
pub enum AccountUpdate {
    Zone(Zone),
    Lease(Lease),
    Record(Record),
    /// An account of another kind, or one without data.
    Ignored,
}

/// Why a notification could not be turned into an update.
#[derive(Debug, Clone, Copy, PartialEq, Eq, Structural)]
pub enum UpdateError {
    /// The account carries no data.
    NoAccountData,
    /// The account data is not valid base64.
    InvalidBase64,
    /// A zone account whose data holds no zone after the tag.
    MalformedZone,
    /// A lease account whose data holds no lease after the tag.
    MalformedLease,
    /// A record account whose data holds no record after the tag.
    MalformedRecord,
}

/// What decoding the account data `data` yields: by the tag in its first
/// byte, the zone, lease or record laid out after the tag (any bytes after
/// it are left alone), an error when none is, and `Ignored` for data that
/// is empty or has another tag.
pub open spec fn account_decoding(data: Seq<u8>, r: Result<AccountUpdate, UpdateError>) -> bool {
    if data.len() > 0 && data[0] == ZONE_TAG {
        &&& r matches Ok(u) ==> (u matches AccountUpdate::Zone(z) && zone_encodable(z@)
            && prefix_at(data, 1, zone_bytes(z@)))
        &&& r matches Err(e) ==> e == UpdateError::MalformedZone
        &&& forall|zv: ZoneView|
            zone_encodable(zv) && prefix_at(data, 1, #[trigger] zone_bytes(zv)) ==> (r matches Ok(
                AccountUpdate::Zone(z),
            ) && z@ == zv)
    } else if data.len() > 0 && data[0] == LEASE_TAG {
        &&& r matches Ok(u) ==> (u matches AccountUpdate::Lease(l) && lease_encodable(l@)
            && prefix_at(data, 1, lease_bytes(l@)))
        &&& r matches Err(e) ==> e == UpdateError::MalformedLease
        &&& forall|lv: LeaseView|
            lease_encodable(lv) && prefix_at(data, 1, #[trigger] lease_bytes(lv)) ==> (r matches Ok(
                AccountUpdate::Lease(l),
            ) && l@ == lv)
    } else if data.len() > 0 && data[0] == RECORD_TAG {
        &&& r matches Ok(u) ==> (u matches AccountUpdate::Record(rec) && record_encodable(rec@)
            && prefix_at(data, 1, record_bytes(rec@)))
        &&& r matches Err(e) ==> e == UpdateError::MalformedRecord
        &&& forall|rv: RecordView|
            record_encodable(rv) && prefix_at(data, 1, #[trigger] record_bytes(rv)) ==> (r matches Ok(
                AccountUpdate::Record(rec),
            ) && rec@ == rv)
    } else {
        r matches Ok(AccountUpdate::Ignored)
    }
}

/// Decodes the data of a program account.
pub fn decode_account(data: &[u8]) -> (r: Result<AccountUpdate, UpdateError>)
    ensures
        account_decoding(data@, r),
{
    if data.len() == 0 {
        return Ok(AccountUpdate::Ignored);
    }
    let tag = data[0];
    if tag != ZONE_TAG && tag != LEASE_TAG && tag != RECORD_TAG {
        return Ok(AccountUpdate::Ignored);
    }
    let body = vstd::slice::slice_subrange(data, 1, data.len());
    proof {
        assert forall|x: Seq<u8>| prefix_at(body@, 0, x) <==> prefix_at(data@, 1, x) by {
            lemma_prefix_shift(data@, x);
        }
    }
    if tag == ZONE_TAG {
        match decode_zone(body) {
            Ok((z, _)) => Ok(AccountUpdate::Zone(z)),
            Err(_) => Err(UpdateError::MalformedZone),
        }
    } else if tag == LEASE_TAG {
        match decode_lease(body) {
            Ok((l, _)) => Ok(AccountUpdate::Lease(l)),
            Err(_) => Err(UpdateError::MalformedLease),
        }
    } else {
        match decode_record(body) {
            Ok((rec, _)) => Ok(AccountUpdate::Record(rec)),
            Err(_) => Err(UpdateError::MalformedRecord),
        }
    }
}

/// Turns a notification into an update: the first data entry of the
/// account is decoded from base64, and the bytes are decoded as account
/// data.
pub fn account_update_from_payload(payload: &Payload) -> (r: Result<AccountUpdate, UpdateError>)
    ensures
        ({
            let data = payload.params.result.value.account.data@;
            if data.len() == 0 {
                r matches Err(e) && e == UpdateError::NoAccountData
            } else {
                match base64_standard_decode(data[0]@) {
                    None => r matches Err(e) && e == UpdateError::InvalidBase64,
                    Some(bytes) => account_decoding(bytes, r),
                }
            }
        }),
{
    let entries = &payload.params.result.value.account.data;
    if entries.len() == 0 {
        return Err(UpdateError::NoAccountData);
    }
    match decode_base64(entries[0].as_str()) {
        None => Err(UpdateError::InvalidBase64),
        Some(bytes) => decode_account(bytes.as_slice()),
    }
}

/// The subscription request sent once the connection is up: notifications
/// of the DNS program's accounts, base64-encoded, at finalized commitment.
pub fn subscription_request() -> (r: String)
    ensures
        r@ == "{\"jsonrpc\":\"2.0\",\"id\":1,\"method\":\"programSubscribe\",\"params\": [\"CUY6GfKAdtnyVFCmQz8NuadKkn25KxTTgxqcktRRy89m\",{\"encoding\": \"base64\", \"commitment\": \"finalized\"}]}"@,
{
    "{\"jsonrpc\":\"2.0\",\"id\":1,\"method\":\"programSubscribe\",\"params\": [\"CUY6GfKAdtnyVFCmQz8NuadKkn25KxTTgxqcktRRy89m\",{\"encoding\": \"base64\", \"commitment\": \"finalized\"}]}".to_owned()
}

/// The message that keeps the connection alive.
pub fn keepalive_message() -> (r: String)
    ensures
        r@ == "keepalive"@,
{
    "keepalive".to_owned()
}

/// A piece laid out right after the tag byte stands at offset 1.
proof fn lemma_after_tag(tag: u8, body: Seq<u8>, trailing: Seq<u8>)
    ensures
        prefix_at(seq![tag] + body + trailing, 1, body),
        (seq![tag] + body + trailing)[0] == tag,
        (seq![tag] + body + trailing).len() > 0,
{
    let data = seq![tag] + body + trailing;
    assert(data.subrange(0, data.len() as int) =~= data);
    lemma_prefix_split(data, 0, seq![tag] + body, trailing);
    lemma_prefix_split(data, 0, seq![tag], body);
}

/// A record account (tag 3) whose data holds an encodable record after the
/// tag, followed by any bytes at all, decodes to that record, whatever its
/// record type.
pub proof fn lemma_record_account_decodes(
    rv: RecordView,
    trailing: Seq<u8>,
    r: Result<AccountUpdate, UpdateError>,
)
    requires
        record_encodable(rv),
        account_decoding(seq![3u8] + record_bytes(rv) + trailing, r),
    ensures
        r matches Ok(AccountUpdate::Record(rec)) && rec@ == rv,
{
    lemma_after_tag(3u8, record_bytes(rv), trailing);
}

/// A zone account (tag 1) whose data holds an encodable zone after the
/// tag, followed by any bytes at all, decodes to that zone.
pub proof fn lemma_zone_account_decodes(
    zv: ZoneView,
    trailing: Seq<u8>,
    r: Result<AccountUpdate, UpdateError>,
)
    requires
        zone_encodable(zv),
        account_decoding(seq![1u8] + zone_bytes(zv) + trailing, r),
    ensures
        r matches Ok(AccountUpdate::Zone(z)) && z@ == zv,
{
    lemma_after_tag(1u8, zone_bytes(zv), trailing);
}

/// A lease account (tag 2) whose data holds an encodable lease after the
/// tag, followed by any bytes at all (such as unused account space),
/// decodes to that lease.
pub proof fn lemma_lease_account_decodes(
    lv: LeaseView,
    trailing: Seq<u8>,
    r: Result<AccountUpdate, UpdateError>,
)
    requires
        lease_encodable(lv),
        account_decoding(seq![2u8] + lease_bytes(lv) + trailing, r),
    ensures
        r matches Ok(AccountUpdate::Lease(l)) && l@ == lv,
{
    lemma_after_tag(2u8, lease_bytes(lv), trailing);
}

/// An account is ignored exactly when its data is empty or its first byte
/// is none of the tags 1, 2 and 3; an error only ever comes for one of
/// those tags.
pub proof fn lemma_account_ignored_exactly_untagged(
    data: Seq<u8>,
    r: Result<AccountUpdate, UpdateError>,
)
    requires
        account_decoding(data, r),
    ensures
        (r matches Ok(AccountUpdate::Ignored)) <==> (data.len() == 0 || (data[0] != 1u8 && data[0]
            != 2u8 && data[0] != 3u8)),
        r is Err ==> data.len() > 0 && (data[0] == 1u8 || data[0] == 2u8 || data[0] == 3u8),
{
}

} // verus!
