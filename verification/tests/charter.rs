use charter::{retain_undecided, settle_roll, Charter, DnsDecision, NostrEvent};
use nostr_sdk::prelude::{EventBuilder, JsonUtil, Keys, Kind, ToBech32};

const SECRET: &str = "6b911fd37cdf5c81d4c0adb1ab7fa822ed253ab0ad9aa18d77257c88b29b718e";

fn signed(content: &str) -> (String, String) {
    let keys = Keys::parse(SECRET).unwrap();
    let event = EventBuilder::new(Kind::Custom(60067), content).sign_with_keys(&keys).unwrap();
    (event.as_json(), event.id.to_string())
}

fn node(pool: &[&str]) -> Charter {
    let pool = pool.iter().map(|s| s.to_string()).collect();
    Charter::new(pool, "/data/ballot.dat".to_string(), "key".to_string())
}

fn plain(id: &str, content: &str, verified: bool) -> NostrEvent {
    NostrEvent {
        id: id.to_string(),
        content: content.to_string(),
        verified,
        label: format!("npub-{id}"),
    }
}

#[test]
fn node_keeps_what_it_was_made_with() {
    let node = node(&["a", "b"]);
    assert_eq!(node.pool_len(), 2);
    assert_eq!(node.nostr_pool(), &vec!["a".to_string(), "b".to_string()]);
    assert_eq!(node.ballot_path(), "/data/ballot.dat");
    assert_eq!(node.dns_api_key(), "key");
}

#[test]
fn only_own_subscription_is_collected() {
    let mut node = node(&[]);
    let own = "sub".to_string();
    node.observe_event(&"sub".to_string(), &own, "one".to_string());
    node.observe_event(&"other".to_string(), &own, "two".to_string());
    node.observe_event(&"sub".to_string(), &own, "three".to_string());
    assert_eq!(node.nostr_pool(), &vec!["one".to_string(), "three".to_string()]);
}

#[test]
fn payload_is_the_json_array_of_the_pool() {
    let mut empty = node(&[]);
    assert_eq!(empty.produce_payload(1), b"[]");
    let mut full = node(&["a", "b\"c"]);
    assert_eq!(full.produce_payload(1), b"[\"a\",\"b\\\"c\"]");
    assert_eq!(full.pool_len(), 0);
    assert_eq!(full.produce_payload(2), b"[]");
}

#[test]
fn parsed_event_fields() {
    let (json, id) = signed("10.1.2.3");
    let event = NostrEvent::parse(&json).unwrap();
    assert_eq!(event.id, id);
    assert_eq!(event.content, "10.1.2.3");
    assert!(event.verified);
    assert_eq!(event.label, Keys::parse(SECRET).unwrap().public_key().to_bech32().unwrap());
    assert!(event.label.starts_with("npub1"));
    assert_eq!(NostrEvent::parse_id(&json), Some(id));
    assert!(NostrEvent::parse("{}").is_none());
    assert!(NostrEvent::parse_id("not json").is_none());
}

#[test]
fn forged_event_does_not_verify() {
    let (json, _) = signed("10.1.2.3");
    let forged = json.replace("10.1.2.3", "10.1.2.4");
    let event = NostrEvent::parse(&forged).unwrap();
    assert_eq!(event.content, "10.1.2.4");
    assert!(!event.verified);
}

#[test]
fn leader_payload_is_decided_by_others() {
    let (first, first_id) = signed("10.0.0.1");
    let (second, second_id) = signed("no address");
    let forged = signed("10.0.0.3").0.replace("10.0.0.3", "10.0.0.4");
    let mut leader = node(&[&first, "junk", &second, &forged]);
    let payload = leader.produce_payload(9);

    let (kept, _) = signed("10.0.0.9");
    let mut other = node(&[&second, "junk", &kept, &first]);
    let outcome = other.on_roll_observed(9, &payload).unwrap();
    assert_eq!(outcome.next_ballot, Some(10));
    assert_eq!(outcome.decisions.len(), 3);
    assert!(outcome.listed);
    let label = Keys::parse(SECRET).unwrap().public_key().to_bech32().unwrap();
    assert!(matches!(
        &outcome.decisions[0],
        DnsDecision::Update { label: l, ip } if *l == label && ip == "10.0.0.1"
    ));
    assert!(matches!(
        &outcome.decisions[1],
        DnsDecision::InvalidAddress { id } if *id == second_id
    ));
    assert!(matches!(&outcome.decisions[2], DnsDecision::InvalidSignature { .. }));
    assert_ne!(first_id, second_id);
    assert_eq!(other.nostr_pool(), &vec!["junk".to_string(), kept.clone()]);

    // The same ballot again decides the same and leaves the pool as it is.
    let again = other.on_roll_observed(9, &payload).unwrap();
    assert_eq!(again.decisions.len(), 3);
    assert_eq!(other.nostr_pool(), &vec!["junk".to_string(), kept]);
}

#[test]
fn own_ballot_leaves_no_event() {
    let (first, _) = signed("10.0.0.1");
    let (second, _) = signed("10.0.0.2");
    let payload = node(&[&first, "junk", &second]).produce_payload(1);
    let mut same = node(&[&first, "junk", &second]);
    same.on_roll_observed(1, &payload).unwrap();
    assert_eq!(same.nostr_pool(), &vec!["junk".to_string()]);
}

#[test]
fn documents_without_events_decide_nothing() {
    let (waiting, _) = signed("10.0.0.1");
    for payload in ["[]", "{}", "null", "5", "\"text\"", "[1, null, \"junk\", {}]"] {
        let mut node = node(&[&waiting, "junk"]);
        let outcome = node.on_roll_observed(4, payload.as_bytes()).unwrap();
        assert_eq!(outcome.next_ballot, Some(5));
        assert!(outcome.decisions.is_empty());
        assert_eq!(outcome.listed, payload.starts_with("[1"));
        assert_eq!(node.nostr_pool(), &vec![waiting.clone(), "junk".to_string()]);
    }
}

#[test]
fn payload_that_is_no_json_is_refused() {
    let mut node = node(&["junk"]);
    assert!(node.on_roll_observed(4, b"").is_err());
    assert!(node.on_roll_observed(4, b"[\"a\",").is_err());
    assert!(node.on_roll_observed(u64::MAX, b"nonsense").is_err());
    assert_eq!(node.pool_len(), 1);
}

#[test]
fn last_ballot_has_no_next() {
    let mut node = node(&[]);
    assert_eq!(node.on_roll_observed(u64::MAX, b"[]").unwrap().next_ballot, None);
    assert_eq!(node.on_roll_observed(u64::MAX - 1, b"[]").unwrap().next_ballot, Some(u64::MAX));
}

#[test]
fn retained_texts_keep_their_order() {
    let texts = |list: &[&str]| list.iter().map(|s| s.to_string()).collect::<Vec<String>>();
    let ids = vec![Some("x".to_string()), None, Some("y".to_string()), Some("x".to_string())];
    let kept = retain_undecided(texts(&["a", "b", "c", "d"]), &ids, &texts(&["x", "z"]));
    assert_eq!(kept, texts(&["b", "c"]));
    let kept = retain_undecided(texts(&["a", "b", "c", "d"]), &ids, &texts(&[]));
    assert_eq!(kept, texts(&["a", "b", "c", "d"]));
}

#[test]
fn settled_roll_on_plain_values() {
    let events = vec![plain("1", "1.1.1.1", true), plain("2", "2.2.2.2", false)];
    let pool = vec!["p".to_string(), "q".to_string()];
    let pool_ids = vec![Some("2".to_string()), Some("3".to_string())];
    let (outcome, kept) = settle_roll(6, true, &events, pool, &pool_ids);
    assert_eq!(kept, vec!["q".to_string()]);
    assert!(outcome.listed);
    assert_eq!(outcome.next_ballot, Some(7));
    assert!(matches!(
        &outcome.decisions[0],
        DnsDecision::Update { label, ip } if label == "npub-1" && ip == "1.1.1.1"
    ));
    assert!(matches!(
        &outcome.decisions[1],
        DnsDecision::InvalidSignature { id } if id == "2"
    ));
}
