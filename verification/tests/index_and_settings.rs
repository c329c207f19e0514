use dedns::banner::ascii_art;
use dedns::config::dedns_settings;
use dedns::models::Record;
use dedns::record_index::{index_action, index_entry, read_indexed, IndexAction};
use dedns::uptime::{UptimeTally, PROOFS_PER_REPORT};
use dedns::wire::DecodeError;

#[test]
fn index_actions_by_type() {
    assert_eq!(index_action("A"), IndexAction::PersistA);
    assert_eq!(index_action("AAAA"), IndexAction::NotIndexed);
    assert_eq!(index_action("CNAME"), IndexAction::NotIndexed);
    assert_eq!(index_action("TXT"), IndexAction::UnknownType);
    assert_eq!(index_action("a"), IndexAction::UnknownType);
    assert_eq!(index_action(""), IndexAction::UnknownType);
}

#[test]
fn indexed_record_reads_back() {
    let r = Record {
        host: "idx.example".to_string(),
        ttl: 30,
        record_type: "A".to_string(),
        value: "4.3.2.1".to_string(),
    };
    let (key, bytes) = index_entry(&r).unwrap();
    assert_eq!(key, "idx.example");
    let back = read_indexed(&bytes).unwrap();
    assert_eq!(back.host, r.host);
    assert_eq!(back.ttl, r.ttl);
    assert_eq!(back.record_type, r.record_type);
    assert_eq!(back.value, r.value);
    let mut longer = bytes.clone();
    longer.push(0);
    assert_eq!(read_indexed(&longer).unwrap_err(), DecodeError);
}

#[test]
fn settings_are_the_dedns_variables() {
    let vars = vec![
        ("PATH".to_string(), "/bin".to_string()),
        ("DEDNS_RPC".to_string(), "wss://x".to_string()),
        ("dedns_lower".to_string(), "no".to_string()),
        ("DEDNS".to_string(), "bare".to_string()),
        ("XDEDNS".to_string(), "no".to_string()),
    ];
    let picked = dedns_settings(&vars);
    assert_eq!(
        picked,
        vec![
            ("DEDNS_RPC".to_string(), "wss://x".to_string()),
            ("DEDNS".to_string(), "bare".to_string()),
        ]
    );
}

#[test]
fn uptime_reports_every_batch() {
    let mut tally = UptimeTally::new();
    let mut reports = Vec::new();
    for i in 1..=25u64 {
        if tally.record_proof() {
            reports.push(i);
        }
        assert!(tally.count() < PROOFS_PER_REPORT);
    }
    assert_eq!(reports, vec![10, 20]);
    assert_eq!(tally.count(), 5);
}

#[test]
fn banner_has_eight_lines() {
    let lines = ascii_art();
    assert_eq!(lines.len(), 8);
    assert!(lines.iter().all(|l| l.starts_with('\t')));
    assert_eq!(lines[0], "\t     █████          ██████████   ██████   █████  █████████ ");
    assert_eq!(lines[7], "\t ░░░░░░░░  ░░░░░░  ░░░░░░░░░░   ░░░░░    ░░░░░  ░░░░░░░░░  ");
}
