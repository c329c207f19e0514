//! The data that flows through the node: the program-account notification
//! delivered by the RPC subscription, and the three account kinds the DNS
//! program stores on chain (zones, leases and records).
use vstd::prelude::*;

verus! {

/// A `programNotification` message of the RPC subscription.
#[derive(Debug, Clone)]
pub struct Payload {
    pub params: Params,
}

/// The `params` member of a notification.
#[derive(Debug, Clone)]
pub struct Params {
    pub result: ResultField,
}

/// The `result` member of the notification parameters.
#[derive(Debug, Clone)]
pub struct ResultField {
    pub value: ValueField,
}

/// The `value` member of the notification result.
#[derive(Debug, Clone)]
pub struct ValueField {
    pub account: Account,
}

/// The account whose data changed; `data` holds the encoded account data
/// followed by the name of its encoding.
#[derive(Debug, Clone)]
pub struct Account {
    pub data: Vec<String>,
}

/// A DNS zone registered on chain. The keys are the 32 raw bytes of a
/// public key.
#[derive(Debug, Clone)]
pub struct Zone {
    pub owner: Vec<u8>,
    pub lamports_per_second: i64,
    pub min_lease_duration_secs: i64,
    pub domain: String,
    pub subdivided: bool,
}

/// A lease of a domain inside a zone.
#[derive(Debug, Clone)]
pub struct Lease {
    pub zone_account: Vec<u8>,
    pub owner: Vec<u8>,
    pub domain: String,
    pub expiration: i64,
    pub expired: bool,
}

/// A DNS record published on chain.
#[derive(Debug, Clone)]
pub struct Record {
    pub host: String,
    pub ttl: i64,
    pub record_type: String,
    pub value: String,
}

/// Mathematical model of a [`Zone`].
pub struct ZoneView {
    pub owner: Seq<u8>,
    pub lamports_per_second: i64,
    pub min_lease_duration_secs: i64,
    pub domain: Seq<char>,
    pub subdivided: bool,
}

/// Mathematical model of a [`Lease`].
pub struct LeaseView {
    pub zone_account: Seq<u8>,
    pub owner: Seq<u8>,
    pub domain: Seq<char>,
    pub expiration: i64,
    pub expired: bool,
}

/// Mathematical model of a [`Record`].
pub struct RecordView {
    pub host: Seq<char>,
    pub ttl: i64,
    pub record_type: Seq<char>,
    pub value: Seq<char>,
}

impl View for Zone {
    type V = ZoneView;

    open spec fn view(&self) -> ZoneView {
        ZoneView {
            owner: self.owner@,
            lamports_per_second: self.lamports_per_second,
            min_lease_duration_secs: self.min_lease_duration_secs,
            domain: self.domain@,
            subdivided: self.subdivided,
        }
    }
}

impl View for Lease {
    type V = LeaseView;

    open spec fn view(&self) -> LeaseView {
        LeaseView {
            zone_account: self.zone_account@,
            owner: self.owner@,
            domain: self.domain@,
            expiration: self.expiration,
            expired: self.expired,
        }
    }
}

impl View for Record {
    type V = RecordView;

    open spec fn view(&self) -> RecordView {
        RecordView {
            host: self.host@,
            ttl: self.ttl,
            record_type: self.record_type@,
            value: self.value@,
        }
    }
}

} // verus!
