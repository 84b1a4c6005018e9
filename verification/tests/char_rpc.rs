use charter::{
    decision_roll, encode_referendum_vote, has_active_bonds, CharRpc, DecisionRollInner,
    DecisionRollResponse, InvalidCookie, RollError, VoteError,
};
use serde_json::Value;

fn rpc() -> CharRpc {
    CharRpc::new("http://127.0.0.1:18443", "__cookie__:secret\n").unwrap()
}

fn response(data: &str) -> DecisionRollResponse {
    DecisionRollResponse {
        found: true,
        decision_roll: Some(DecisionRollInner { data: Some(data.to_string()) }),
    }
}

#[test]
fn cookie_is_split_at_the_first_colon() {
    let rpc = rpc();
    assert_eq!(rpc.rpc_url, "http://127.0.0.1:18443");
    assert_eq!(rpc.user, "__cookie__");
    assert_eq!(rpc.password, "secret");
    let rpc = CharRpc::new("u", "\u{2003} a:b:c \t\r\n").unwrap();
    assert_eq!((rpc.user.as_str(), rpc.password.as_str()), ("a", "b:c"));
    let rpc = CharRpc::new("u", " : ").unwrap();
    assert_eq!((rpc.user.as_str(), rpc.password.as_str()), ("", ""));
    let rpc = CharRpc::new("u", "é:x y").unwrap();
    assert_eq!((rpc.user.as_str(), rpc.password.as_str()), ("é", "x y"));
}

#[test]
fn cookie_is_trimmed_as_str_trim_does() {
    for n in 0..=0x10ffffu32 {
        if let Some(c) = char::from_u32(n) {
            if c.is_whitespace() || n % 257 == 0 || n < 0x300 {
                let text = format!("{c}x:y{c}");
                let (user, password) = text.trim().split_once(':').unwrap();
                let rpc = CharRpc::new("u", &text).unwrap();
                assert_eq!((rpc.user.as_str(), rpc.password.as_str()), (user, password));
            }
        }
    }
}

#[test]
fn cookie_without_colon_is_refused() {
    assert_eq!(CharRpc::new("u", "user").err(), Some(InvalidCookie));
    assert_eq!(CharRpc::new("u", "  \n").err(), Some(InvalidCookie));
    assert_eq!(CharRpc::new("u", "").err(), Some(InvalidCookie));
    assert_eq!(InvalidCookie.message(), "Invalid cookie format");
}

#[test]
fn cookie_path_is_in_the_data_directory() {
    assert_eq!(CharRpc::cookie_path("/data"), "/data/.cookie");
}

#[test]
fn bamboo_call_holds_the_vote() {
    let notes = vec!["a\"b".to_string(), "é".to_string()];
    let call = rpc().add_bamboo_kv("0a0b".to_string(), &notes, 7).unwrap();
    assert_eq!(call.method, "addbambookv");
    let mut map = serde_json::Map::new();
    map.insert(
        "0a0b".to_string(),
        Value::String(encode_referendum_vote(7, "[\"a\\\"b\",\"é\"]".as_bytes())),
    );
    assert_eq!(
        call.params,
        vec![Value::Array(vec![Value::Object(map)]), Value::Bool(false)]
    );
}

#[test]
fn bamboo_notes_come_back() {
    let notes = vec!["one".to_string(), "two\n".to_string()];
    let call = rpc().add_bamboo_kv("ab".to_string(), &notes, 300).unwrap();
    let vote = call.params[0][0]["ab"].as_str().unwrap().to_string();
    let roll = decision_roll(response(&vote), 300).unwrap().unwrap();
    assert_eq!(roll.decoded_ballot, 300);
    assert!(roll.ballot_matches);
    assert_eq!(
        roll.document,
        Value::Array(notes.into_iter().map(Value::String).collect())
    );
}

#[test]
fn decision_roll_call() {
    let call = rpc().get_referendum_decision_roll("cafe", u64::MAX);
    assert_eq!(call.method, "getreferendumdecisionroll");
    assert_eq!(
        call.params,
        vec![Value::from("cafe"), Value::from(u64::MAX), Value::from(1)]
    );
}

#[test]
fn bonds_call() {
    let call = rpc().check_for_active_bonds();
    assert_eq!(call.method, "getallcharbonds");
    assert_eq!(call.params, vec![Value::from(0)]);
    assert!(!has_active_bonds(&vec![]));
    assert!(has_active_bonds(&vec![Value::Null]));
}

#[test]
fn missing_rolls_are_nothing() {
    let absent = DecisionRollResponse { found: true, decision_roll: None };
    assert!(matches!(decision_roll(absent, 1), Ok(None)));
    let empty = DecisionRollResponse {
        found: true,
        decision_roll: Some(DecisionRollInner { data: None }),
    };
    assert!(matches!(decision_roll(empty, 1), Ok(None)));
    let mut unfound = response("zz");
    unfound.found = false;
    assert!(matches!(decision_roll(unfound, 1), Ok(None)));
}

#[test]
fn empty_payload_is_the_empty_array() {
    let vote = encode_referendum_vote(3, &[]);
    let roll = decision_roll(response(&vote), 4).unwrap().unwrap();
    assert_eq!(roll.document, Value::Array(vec![]));
    assert_eq!(roll.decoded_ballot, 3);
    assert!(!roll.ballot_matches);
}

#[test]
fn decision_roll_errors() {
    assert!(matches!(
        decision_roll(response("01"), 1),
        Err(RollError::Vote(VoteError::InvalidLeafType(1)))
    ));
    assert!(matches!(
        decision_roll(response("0005"), 1),
        Err(RollError::Vote(VoteError::InvalidPayloadLength))
    ));
    let vote = encode_referendum_vote(1, b"[1,");
    assert!(matches!(decision_roll(response(&vote), 1), Err(RollError::Json(_))));
    let vote = encode_referendum_vote(1, b"{\"a\": 1.5}");
    let roll = decision_roll(response(&vote), 1).unwrap().unwrap();
    assert_eq!(roll.document["a"].to_string(), "1.5");
}
