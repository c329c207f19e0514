use dedns::dns_service::{Answer, Question, RecordError, RecordStore, TYPE_A};
use dedns::ipv4::Ipv4Address;
use dedns::models::Record;

fn record(host: &str, value: &str) -> Record {
    Record {
        host: host.to_string(),
        ttl: 60,
        record_type: "A".to_string(),
        value: value.to_string(),
    }
}

#[test]
fn applied_record_is_held_under_its_name() {
    let mut store = RecordStore::new();
    assert_eq!(store.len(), 0);
    assert_eq!(store.apply_record(&record("www.example.com", "10.1.2.3")), Ok(()));
    assert_eq!(store.lookup_a("www.example.com"), Some(Ipv4Address(10, 1, 2, 3)));
    assert_eq!(store.lookup_a("example.com"), None);
    assert_eq!(store.len(), 1);
}

#[test]
fn trailing_root_dot_is_dropped_from_the_name() {
    let mut store = RecordStore::new();
    assert_eq!(store.apply_record(&record("example.com.", "1.1.1.1")), Ok(()));
    assert_eq!(store.lookup_a("example.com"), Some(Ipv4Address(1, 1, 1, 1)));
    assert_eq!(store.lookup_a("example.com."), None);
}

#[test]
fn later_record_replaces_earlier() {
    let mut store = RecordStore::new();
    store.apply_record(&record("a.example", "1.1.1.1")).unwrap();
    store.apply_record(&record("a.example", "2.2.2.2")).unwrap();
    assert_eq!(store.lookup_a("a.example"), Some(Ipv4Address(2, 2, 2, 2)));
    assert_eq!(store.len(), 1);
}

#[test]
fn invalid_records_leave_the_store_alone() {
    let mut store = RecordStore::new();
    assert_eq!(store.apply_record(&record("abc!", "1.2.3.4")), Err(RecordError::InvalidHost));
    assert_eq!(store.apply_record(&record("-a.example", "1.2.3.4")), Err(RecordError::InvalidHost));
    assert_eq!(store.apply_record(&record("a..example", "1.2.3.4")), Err(RecordError::InvalidHost));
    assert_eq!(store.apply_record(&record("", "1.2.3.4")), Err(RecordError::InvalidHost));
    let long_label = "a".repeat(64);
    assert_eq!(store.apply_record(&record(&long_label, "1.2.3.4")), Err(RecordError::InvalidHost));
    assert_eq!(
        store.apply_record(&record(&"a".repeat(63), "1.2.3.4")),
        Ok(())
    );
    assert_eq!(
        store.apply_record(&record("ok.example", "1.2.3.400")),
        Err(RecordError::InvalidAddress)
    );
    assert_eq!(
        store.apply_record(&record("bad!", "nonsense")),
        Err(RecordError::InvalidHost)
    );
    assert_eq!(store.len(), 1);
    assert_eq!(store.lookup_a("ok.example"), None);
}

#[test]
fn resolver_answers_loopback() {
    let mut store = RecordStore::new();
    store.apply_record(&record("held.example", "9.9.9.9")).unwrap();
    for (name, type_code) in [("held.example", TYPE_A), ("other.example", TYPE_A), ("held.example", 28)] {
        let answers = store.resolve(&Question { name: name.to_string(), type_code });
        assert_eq!(answers.len(), 1);
        match &answers[0] {
            Answer::A(n, addr) => {
                assert_eq!(n, name);
                assert_eq!(*addr, Ipv4Address(127, 0, 0, 1));
            }
        }
    }
}
