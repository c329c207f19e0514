use base64::Engine;
use dedns::models::{Account, Params, Payload, ResultField, ValueField};
use dedns::solana_service::{
    account_update_from_payload, decode_account, keepalive_message, subscription_request,
    AccountUpdate, UpdateError,
};

fn payload(data: Vec<String>) -> Payload {
    Payload {
        params: Params {
            result: ResultField { value: ValueField { account: Account { data } } },
        },
    }
}

fn tagged(tag: u8, body: &[u8]) -> Vec<u8> {
    let mut v = vec![tag];
    v.extend_from_slice(body);
    v
}

fn record_body() -> Vec<u8> {
    borsh::to_vec(&("dns.example".to_string(), 120i64, "A".to_string(), "8.8.4.4".to_string()))
        .unwrap()
}

#[test]
fn record_account_is_decoded() {
    let mut data = tagged(3, &record_body());
    data.extend_from_slice(&[0u8; 32]);
    match decode_account(&data) {
        Ok(AccountUpdate::Record(r)) => {
            assert_eq!(r.host, "dns.example");
            assert_eq!(r.ttl, 120);
            assert_eq!(r.record_type, "A");
            assert_eq!(r.value, "8.8.4.4");
        }
        other => panic!("unexpected {other:?}"),
    }
}

#[test]
fn zone_and_lease_accounts_are_decoded() {
    let zone = borsh::to_vec(&([3u8; 32], 5i64, 60i64, "z.example".to_string(), false)).unwrap();
    assert!(matches!(decode_account(&tagged(1, &zone)), Ok(AccountUpdate::Zone(z)) if z.domain == "z.example"));
    let lease =
        borsh::to_vec(&([3u8; 32], [4u8; 32], "l.z.example".to_string(), 99i64, true)).unwrap();
    assert!(matches!(decode_account(&tagged(2, &lease)), Ok(AccountUpdate::Lease(l)) if l.expired && l.expiration == 99));
}

#[test]
fn other_tags_and_empty_data_are_ignored() {
    assert!(matches!(decode_account(&[]), Ok(AccountUpdate::Ignored)));
    assert!(matches!(decode_account(&[0, 1, 2]), Ok(AccountUpdate::Ignored)));
    assert!(matches!(decode_account(&[4]), Ok(AccountUpdate::Ignored)));
}

#[test]
fn malformed_accounts_are_reported() {
    assert_eq!(decode_account(&[1, 0, 0]).unwrap_err(), UpdateError::MalformedZone);
    assert_eq!(decode_account(&[2]).unwrap_err(), UpdateError::MalformedLease);
    let body = record_body();
    assert_eq!(
        decode_account(&tagged(3, &body[..body.len() - 1])).unwrap_err(),
        UpdateError::MalformedRecord
    );
}

#[test]
fn payload_is_base64_decoded_first() {
    let encoded = base64::engine::general_purpose::STANDARD.encode(tagged(3, &record_body()));
    let p = payload(vec![encoded, "base64".to_string()]);
    match account_update_from_payload(&p) {
        Ok(AccountUpdate::Record(r)) => assert_eq!(r.host, "dns.example"),
        other => panic!("unexpected {other:?}"),
    }
}

#[test]
fn payload_errors() {
    assert_eq!(account_update_from_payload(&payload(vec![])).unwrap_err(), UpdateError::NoAccountData);
    assert_eq!(
        account_update_from_payload(&payload(vec!["not base64!".to_string()])).unwrap_err(),
        UpdateError::InvalidBase64
    );
    assert!(matches!(
        account_update_from_payload(&payload(vec!["AA==".to_string()])),
        Ok(AccountUpdate::Ignored)
    ));
}

#[test]
fn subscription_messages() {
    assert_eq!(
        subscription_request(),
        "{\"jsonrpc\":\"2.0\",\"id\":1,\"method\":\"programSubscribe\",\"params\": [\"CUY6GfKAdtnyVFCmQz8NuadKkn25KxTTgxqcktRRy89m\",{\"encoding\": \"base64\", \"commitment\": \"finalized\"}]}"
    );
    assert_eq!(keepalive_message(), "keepalive");
}
