//! The DNS side of the node: the store of A records fed from the chain
//! and the resolver that answers queries.
use vstd::prelude::*;
use dashmap::DashMap;
use crate::ipv4::{Ipv4Address, loopback, parse_ipv4, ipv4_text};
use crate::models::Record;

verus! {

#[verifier::external_type_specification]
#[verifier::external_body]
#[verifier::reject_recursive_types(K)]
#[verifier::reject_recursive_types(V)]
#[verifier::reject_recursive_types(S)]
pub struct ExDashMap<K, V, S>(DashMap<K, V, S>);

/// What a map of A records holds: names to addresses.
pub uninterp spec fn a_record_entries(store: DashMap<String, Ipv4Address>) -> Map<
    Seq<char>,
    Ipv4Address,
>;

/// `DashMap::new`: an empty map.
#[verifier::external_body]
fn a_records_new() -> (created: DashMap<String, Ipv4Address>)
    ensures
        a_record_entries(created) =~= Map::empty(),
{
    DashMap::new()
}

/// `DashMap::insert`: the entry for `name` becomes `addr`, replacing any
/// earlier one; the other entries stay.
#[verifier::external_body]
fn a_records_insert(m: &mut DashMap<String, Ipv4Address>, name: String, addr: Ipv4Address)
    ensures
        a_record_entries(*final(m)) == a_record_entries(*old(m)).insert(name@, addr),
{
    m.insert(name, addr);
}

/// `DashMap::get`: the address held for `name`, if any.
#[verifier::external_body]
fn a_records_get(m: &DashMap<String, Ipv4Address>, name: &str) -> (r: Option<Ipv4Address>)
    ensures
        r == (if a_record_entries(*m).dom().contains(name@) {
            Some(a_record_entries(*m)[name@])
        } else {
            None
        }),
{
    m.get(name).map(|entry| *entry.value())
}

/// `DashMap::len`: the number of entries.
#[verifier::external_body]
fn a_records_len(m: &DashMap<String, Ipv4Address>) -> (r: usize)
    ensures
        r == a_record_entries(*m).len(),
{
    m.len()
}

// ---------------------------------------------------------------------------
// Domain names
// ---------------------------------------------------------------------------

/// An ASCII letter.
pub open spec fn is_letter(c: char) -> bool {
    (65 <= c as u32 <= 90) || (97 <= c as u32 <= 122)
}

/// An ASCII letter or digit.
pub open spec fn is_letter_digit(c: char) -> bool {
    is_letter(c) || (48 <= c as u32 <= 57)
}

/// An ASCII letter, digit or hyphen.
pub open spec fn is_letter_digit_hyphen(c: char) -> bool {
    is_letter_digit(c) || c == '-'
}

/// A host name with one trailing dot removed, if it has one.
pub open spec fn trim_root_dot(host: Seq<char>) -> Seq<char> {
    if host.len() > 0 && host.last() == '.' {
        host.drop_last()
    } else {
        host
    }
}

/// A valid domain name in the preferred syntax of RFC 1035: at most 255
/// characters; dot-separated labels of 1 to 63 letters, digits and
/// hyphens, each starting with a letter and ending with a letter or digit.
pub open spec fn valid_domain_name(t: Seq<char>) -> bool {
    &&& 0 < t.len() <= 255
    &&& forall|i: int| 0 <= i < t.len() ==> is_letter_digit_hyphen(#[trigger] t[i]) || t[i] == '.'
    &&& is_letter(t[0])
    &&& is_letter_digit(t.last())
    &&& forall|i: int|
        0 < i < t.len() && #[trigger] t[i] == '.' ==> is_letter_digit(t[i - 1]) && is_letter(
            t[i + 1],
        )
    &&& forall|i: int| 0 <= i && i + 63 < t.len() ==> #[trigger] dot_within(t, i, i + 63)
}

/// A dot stands somewhere from `from` to `to`, both included.
pub open spec fn dot_within(t: Seq<char>, from: int, to: int) -> bool {
    exists|k: int| from <= k <= to && #[trigger] t[k] == '.'
}

/// `dns_server::DnsName::new`: accepts a host name whose form without one
/// trailing dot is a valid domain name, and holds that form.
#[verifier::external_body]
fn dns_name(host: &str) -> (r: Option<String>)
    ensures
        r is Some <==> valid_domain_name(trim_root_dot(host@)),
        r matches Some(name) ==> name@ == trim_root_dot(host@),
{
    dns_server::DnsName::new(host).ok().map(|name| name.inner().to_string())
}

// ---------------------------------------------------------------------------
// The record store and the resolver
// ---------------------------------------------------------------------------

/// The A records the node serves, by domain name.
pub struct RecordStore {
    a_records: DashMap<String, Ipv4Address>,
}

impl View for RecordStore {
    type V = Map<Seq<char>, Ipv4Address>;

    closed spec fn view(&self) -> Map<Seq<char>, Ipv4Address> {
        a_record_entries(self.a_records)
    }
}

/// Why a record from the chain could not be served.
#[derive(Debug, Clone, Copy, PartialEq, Eq, Structural)]
pub enum RecordError {
    /// The host is not a valid domain name.
    InvalidHost,
    /// The value is not the dotted-decimal text of an IPv4 address.
    InvalidAddress,
}

/// The type code of an A query.
pub const TYPE_A: u16 = 1;

/// A question of a DNS query: a name and the type code asked for.
#[derive(Debug, Clone)]
pub struct Question {
    pub name: String,
    pub type_code: u16,
}

/// A record of an answer.
#[derive(Debug, Clone)]
pub enum Answer {
    /// An A record: the name and its address.
    A(String, Ipv4Address),
}

/// The answer the resolver gives to a question about `name`: one A record
/// for `name` with the loopback address.
pub open spec fn answer_for(name: Seq<char>) -> Seq<(Seq<char>, Ipv4Address)> {
    seq![(name, loopback())]
}

/// The model of an answer record.
pub open spec fn answer_view(a: Answer) -> (Seq<char>, Ipv4Address) {
    match a {
        Answer::A(name, addr) => (name@, addr),
    }
}

impl RecordStore {
    /// An empty store.
    pub fn new() -> (s: Self)
        ensures
            s@ == Map::<Seq<char>, Ipv4Address>::empty(),
    {
        RecordStore { a_records: a_records_new() }
    }

    /// Sets the A record of `name` to `addr`.
    pub fn insert_a(&mut self, name: String, addr: Ipv4Address)
        ensures
            final(self)@ == old(self)@.insert(name@, addr),
    {
        a_records_insert(&mut self.a_records, name, addr);
    }

    /// The address held for `name`, if any.
    pub fn lookup_a(&self, name: &str) -> (r: Option<Ipv4Address>)
        ensures
            r == (if self@.dom().contains(name@) {
                Some(self@[name@])
            } else {
                None
            }),
    {
        a_records_get(&self.a_records, name)
    }

    /// The number of names held.
    pub fn len(&self) -> (r: usize)
        ensures
            r == self@.len(),
    {
        a_records_len(&self.a_records)
    }

    /// Serves a record from the chain: its host, without one trailing dot,
    /// is set to the address its value holds. A host that is not a valid
    /// domain name or a value that is not an address leaves the store as
    /// it was, and is reported, the host first.
    pub fn apply_record(&mut self, record: &Record) -> (r: Result<(), RecordError>)
        ensures
            !valid_domain_name(trim_root_dot(record.host@)) ==> r == Err::<(), RecordError>(
                RecordError::InvalidHost,
            ) && final(self)@ == old(self)@,
            valid_domain_name(trim_root_dot(record.host@)) && (forall|a: Ipv4Address|
                record.value@ != #[trigger] ipv4_text(a)) ==> r == Err::<(), RecordError>(
                RecordError::InvalidAddress,
            ) && final(self)@ == old(self)@,
            forall|a: Ipv4Address|
                valid_domain_name(trim_root_dot(record.host@)) && record.value@ == #[trigger] ipv4_text(
                    a,
                ) ==> r is Ok && final(self)@ == old(self)@.insert(trim_root_dot(record.host@), a),
    {
        let name = match dns_name(record.host.as_str()) {
            Some(n) => n,
            None => {
                return Err(RecordError::InvalidHost);
            },
        };
        let addr = match parse_ipv4(record.value.as_str()) {
            Some(a) => a,
            None => {
                return Err(RecordError::InvalidAddress);
            },
        };
        self.insert_a(name, addr);
        Ok(())
    }

    /// Answers a question. A question about A records looks the name up,
    /// but whatever is held, the answer is one A record for the asked name
    /// with the loopback address.
    pub fn resolve(&self, question: &Question) -> (r: Vec<Answer>)
        ensures
            r@.map_values(|a: Answer| answer_view(a)) == answer_for(question.name@),
            r@.len() == 1,
            answer_view(r@[0]) == (question.name@, Ipv4Address(127, 0, 0, 1)),
            r@[0] matches Answer::A(name, addr) && name@ == question.name@ && addr == Ipv4Address(
                127,
                0,
                0,
                1,
            ),
    {
        if question.type_code == TYPE_A {
            let _held = self.lookup_a(question.name.as_str());
        }
        let answers = vec![Answer::A(question.name.clone(), Ipv4Address(127, 0, 0, 1))];
        proof {
            assert(answers@.map_values(|a: Answer| answer_view(a)) =~= answer_for(
                question.name@,
            ));
            lemma_resolver_answers_loopback(question.name@);
        }
        answers
    }
}

/// Reading a name back after setting it gives the address set, and every
/// other name keeps what it held: the law behind `insert_a` followed by
/// `lookup_a`.
pub proof fn lemma_store_read_after_write(
    before: Map<Seq<char>, Ipv4Address>,
    name: Seq<char>,
    addr: Ipv4Address,
    other: Seq<char>,
)
    requires
        other != name,
    ensures
        before.insert(name, addr).dom().contains(name),
        before.insert(name, addr)[name] == addr,
        before.insert(name, addr).dom().contains(other) == before.dom().contains(other),
        before.dom().contains(other) ==> before.insert(name, addr)[other] == before[other],
{
}

/// Whatever name is asked, the resolver's answer is exactly one A record,
/// for that name, with the address 127.0.0.1.
pub proof fn lemma_resolver_answers_loopback(name: Seq<char>)
    ensures
        answer_for(name).len() == 1,
        answer_for(name)[0] == (name, Ipv4Address(127, 0, 0, 1)),
{
}

} // verus!
