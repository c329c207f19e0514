//! Verified core of a decentralised DNS node: the on-chain account layouts,
//! the A-record store and resolver, the record index routing and the
//! small pieces of configuration and bookkeeping logic around them.
use vstd::prelude::*;

pub mod banner;
pub mod config;
pub mod dns_service;
pub mod ipv4;
pub mod models;
pub mod solana_service;
pub mod record_index;
pub mod text;
pub mod uptime;
pub mod wire;

verus! {

} // verus!
