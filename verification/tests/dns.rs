use charter::{
    parse_ipv4, process_dns_event, update_a_record, update_a_record_result, DnsDecision,
    NostrEvent,
};
use serde_json::Value;

fn event(content: &str, verified: bool) -> NostrEvent {
    NostrEvent {
        id: "id1".to_string(),
        content: content.to_string(),
        verified,
        label: "npub1x".to_string(),
    }
}

#[test]
fn ipv4_values() {
    assert_eq!(parse_ipv4("0.0.0.0"), Some([0, 0, 0, 0]));
    assert_eq!(parse_ipv4("255.1.20.100"), Some([255, 1, 20, 100]));
    assert_eq!(parse_ipv4("10.0.0.256"), None);
}

/// Four decimal octets, each written as the number is printed.
fn octets_of(text: &str) -> Option<[u8; 4]> {
    let mut octets = Vec::new();
    for part in text.split('.') {
        let octet: u8 = part.parse().ok()?;
        if octet.to_string() != part {
            return None;
        }
        octets.push(octet);
    }
    octets.try_into().ok()
}

#[test]
fn ipv4_grammar() {
    let octets = [
        "", "0", "00", "01", "1", "9", "10", "010", "99", "100", "199", "249", "255", "256", "260",
        "300", "999", "1000", "-1", "+1", " 1", "1 ", "a", "٣", "0x1",
    ];
    for a in octets {
        for b in octets {
            for text in [
                format!("{a}.{b}.0.1"),
                format!("1.{a}.2.{b}"),
                format!("1.2.3.{a}.{b}"),
                format!("1.2.{a}"),
                format!("{a}.{b}.3.4."),
                format!("1.2.3.4{a}"),
            ] {
                assert_eq!(parse_ipv4(&text), octets_of(&text), "{text}");
            }
        }
    }
}

#[test]
fn signed_address_becomes_an_update() {
    match process_dns_event(&event("192.168.0.1", true)) {
        DnsDecision::Update { label, ip } => {
            assert_eq!((label.as_str(), ip.as_str()), ("npub1x", "192.168.0.1"));
        }
        other => panic!("{other:?}"),
    }
}

#[test]
fn unsigned_event_is_passed_over() {
    assert!(matches!(
        process_dns_event(&event("192.168.0.1", false)),
        DnsDecision::InvalidSignature { id } if id == "id1"
    ));
    assert!(matches!(
        process_dns_event(&event("nonsense", false)),
        DnsDecision::InvalidSignature { id } if id == "id1"
    ));
}

#[test]
fn event_without_address_is_passed_over() {
    for content in ["", "1.2.3", "1.2.3.04", "::1", " 1.2.3.4"] {
        assert!(matches!(
            process_dns_event(&event(content, true)),
            DnsDecision::InvalidAddress { id } if id == "id1"
        ));
    }
}

#[test]
fn update_request_is_complete() {
    let request = update_a_record("npub1x", "10.0.0.7", "key");
    assert_eq!(
        request.url,
        "http://127.0.0.1:8081/api/v1/servers/localhost/zones/nostr."
    );
    assert_eq!(request.method, "PATCH");
    assert_eq!(request.key_header, "X-API-Key");
    assert_eq!(request.api_key, "key");
    let expected: Value = serde_json::from_str(
        r#"{"rrsets": [{"name": "npub1x.nostr.", "type": "A", "changetype": "REPLACE",
            "ttl": 300, "records": [{"content": "10.0.0.7", "disabled": false}]}]}"#,
    )
    .unwrap();
    assert_eq!(request.body, expected);
}

#[test]
fn update_result_follows_the_status() {
    assert_eq!(update_a_record_result(200, "200 OK"), Ok(()));
    assert_eq!(update_a_record_result(204, "204 No Content"), Ok(()));
    assert_eq!(update_a_record_result(299, "299"), Ok(()));
    assert_eq!(
        update_a_record_result(404, "404 Not Found"),
        Err("PDNS API request failed: 404 Not Found".to_string())
    );
    assert!(update_a_record_result(199, "199").is_err());
    assert!(update_a_record_result(300, "300").is_err());
}
