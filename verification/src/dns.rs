//! The PowerDNS requests that set address records.

use serde_json::Value;
use vstd::prelude::*;

use crate::ipv4::{ipv4_texts, is_ipv4, octet_text, parse_ipv4};
use crate::json::{
    array1, distinct_keys, json_bool, json_object, json_of, json_string, json_unsigned,
    members_of, object1, object2, Json,
};
use crate::nostr::{EventView, NostrEvent};

verus! {

/// Where the PowerDNS server listens.
pub const PDNS_BASE_URL: &'static str = "http://127.0.0.1:8081/api/v1";

/// The server's name for itself.
pub const PDNS_SERVER_ID: &'static str = "localhost";

/// The zone that all records are in.
pub const ZONE_NAME: &'static str = "nostr.";

/// The HTTP method by which records of a zone are changed.
pub const PDNS_METHOD: &'static str = "PATCH";

/// The header that carries the server's key.
pub const API_KEY_HEADER: &'static str = "X-API-Key";

/// A request to change records of the zone: `method` on `url`, which carries `body` and, in
/// the header `key_header`, the server's key.
pub struct PdnsRequest {
    pub method: String,
    pub url: String,
    pub key_header: String,
    pub api_key: String,
    pub body: Value,
}

/// The one record of a record set.
pub open spec fn a_record(ip: Seq<char>) -> Json {
    Json::Object(map!["content"@ => Json::Text(ip), "disabled"@ => Json::Bool(false)])
}

/// The record set that gives a name one address for five minutes.
pub open spec fn a_record_set(label: Seq<char>, ip: Seq<char>) -> Json {
    Json::Object(
        map![
            "name"@ => Json::Text(label + "."@ + ZONE_NAME@),
            "type"@ => Json::Text("A"@),
            "changetype"@ => Json::Text("REPLACE"@),
            "ttl"@ => Json::Unsigned(300),
            "records"@ => Json::Array(seq![a_record(ip)]),
        ],
    )
}

/// The body of the request that sets the address of a label.
pub open spec fn a_record_body(label: Seq<char>, ip: Seq<char>) -> Json {
    Json::Object(map!["rrsets"@ => Json::Array(seq![a_record_set(label, ip)])])
}

/// The request that replaces the address of a label in the zone.
pub fn update_a_record(label: &str, ip: &str, api_key: &str) -> (request: PdnsRequest)
    ensures
        request.method@ == PDNS_METHOD@,
        request.key_header@ == API_KEY_HEADER@,
        request.url@ == PDNS_BASE_URL@ + "/servers/"@ + PDNS_SERVER_ID@ + "/zones/"@ + ZONE_NAME@,
        request.api_key@ == api_key@,
        json_of(request.body) == a_record_body(label@, ip@),
        request.url@ == "http://127.0.0.1:8081/api/v1/servers/localhost/zones/nostr."@,
        request.method@ == "PATCH"@,
        request.key_header@ == "X-API-Key"@,
        json_of(request.body) matches Json::Object(body) && body.dom() == set!["rrsets"@] && (
        body["rrsets"@] matches Json::Array(sets) && sets.len() == 1 && (
        sets[0] matches Json::Object(members) && members.dom() == set![
            "name"@,
            "type"@,
            "changetype"@,
            "ttl"@,
            "records"@,
        ] && members["name"@] == Json::Text(label@ + ".nostr."@) && members["type"@] == Json::Text(
            "A"@,
        ) && members["changetype"@] == Json::Text("REPLACE"@) && members["ttl"@] == Json::Unsigned(
            300,
        ) && (members["records"@] matches Json::Array(records) && records.len() == 1 && (
        records[0] matches Json::Object(record) && record.dom() == set!["content"@, "disabled"@]
            && record["content"@] == Json::Text(ip@) && record["disabled"@] == Json::Bool(false))))),
{
    let mut record_name = label.to_owned();
    record_name.append(".");
    record_name.append(ZONE_NAME);

    let mut url = PDNS_BASE_URL.to_owned();
    url.append("/servers/");
    url.append(PDNS_SERVER_ID);
    url.append("/zones/");
    url.append(ZONE_NAME);

    proof {
        reveal_strlit("content");
        reveal_strlit("disabled");
        assert("content"@.len() != "disabled"@.len());
    }
    let record = object2(
        "content".to_owned(),
        json_string(ip.to_owned()),
        "disabled".to_owned(),
        json_bool(false),
    );
    let mut set: Vec<(String, Value)> = Vec::new();
    set.push(("name".to_owned(), json_string(record_name)));
    set.push(("type".to_owned(), json_string("A".to_owned())));
    set.push(("changetype".to_owned(), json_string("REPLACE".to_owned())));
    set.push(("ttl".to_owned(), json_unsigned(300)));
    set.push(("records".to_owned(), array1(record)));
    proof {
        reveal_with_fuel(members_of, 6);
        assert(set@.drop_last().drop_last().drop_last().drop_last().drop_last() =~= Seq::empty());
        reveal_strlit("name");
        reveal_strlit("type");
        reveal_strlit("changetype");
        reveal_strlit("ttl");
        reveal_strlit("records");
        assert("name"@.len() == 4 && "type"@.len() == 4 && "name"@[0] != "type"@[0]);
        assert("changetype"@.len() == 10 && "ttl"@.len() == 3 && "records"@.len() == 7);
        assert(distinct_keys(set@));
    }
    let body = object1("rrsets".to_owned(), array1(json_object(set)));
    proof {
        record_set_members(label@, ip@);
        reveal_strlit("http://127.0.0.1:8081/api/v1");
        reveal_strlit("/servers/");
        reveal_strlit("localhost");
        reveal_strlit("/zones/");
        reveal_strlit("nostr.");
        reveal_strlit("http://127.0.0.1:8081/api/v1/servers/localhost/zones/nostr.");
        assert(url@ =~= "http://127.0.0.1:8081/api/v1/servers/localhost/zones/nostr."@);
    }
    PdnsRequest {
        method: PDNS_METHOD.to_owned(),
        url,
        key_header: API_KEY_HEADER.to_owned(),
        api_key: api_key.to_owned(),
        body,
    }
}

/// What the server's answer means: any status from 200 to 299 is success, and any other is
/// named in the error.
pub fn update_a_record_result(status_code: u16, status: &str) -> (result: Result<(), String>)
    ensures
        match result {
            Ok(_) => 200 <= status_code < 300,
            Err(message) => {
                &&& !(200 <= status_code < 300)
                &&& message@ == "PDNS API request failed: "@ + status@
            },
        },
{
    if 200 <= status_code && status_code < 300 {
        return Ok(());
    }
    let mut message = "PDNS API request failed: ".to_owned();
    message.append(status);
    Err(message)
}

/// What becomes of a decided event.
#[derive(Debug)]
pub enum DnsDecision {
    /// Set the address of the author's label.
    Update { label: String, ip: String },
    /// Pass over the event with this id, which its author has not signed.
    InvalidSignature { id: String },
    /// Pass over the event with this id, which holds no address.
    InvalidAddress { id: String },
}

/// What becomes of a decided event, as plain values.
pub enum Decision {
    Update { label: Seq<char>, ip: Seq<char> },
    InvalidSignature { id: Seq<char> },
    InvalidAddress { id: Seq<char> },
}

impl View for DnsDecision {
    type V = Decision;

    open spec fn view(&self) -> Decision {
        match *self {
            DnsDecision::Update { label, ip } => Decision::Update { label: label@, ip: ip@ },
            DnsDecision::InvalidSignature { id } => Decision::InvalidSignature { id: id@ },
            DnsDecision::InvalidAddress { id } => Decision::InvalidAddress { id: id@ },
        }
    }
}

/// The rule: a signed event that holds an IPv4 address sets the address of its author's label.
pub open spec fn decision(event: EventView) -> Decision {
    if !event.verified {
        Decision::InvalidSignature { id: event.id }
    } else if is_ipv4(event.content) {
        Decision::Update { label: event.label, ip: event.content }
    } else {
        Decision::InvalidAddress { id: event.id }
    }
}

/// Decides on an event.
pub fn process_dns_event(event: &NostrEvent) -> (result: DnsDecision)
    ensures
        result@ == decision(event@),
        match result {
            DnsDecision::Update { label, ip } => {
                &&& event.verified
                &&& is_ipv4(event.content@)
                &&& label@ == event.label@
                &&& ip@ == event.content@
            },
            DnsDecision::InvalidSignature { id } => !event.verified && id@ == event.id@,
            DnsDecision::InvalidAddress { id } => {
                &&& event.verified
                &&& !is_ipv4(event.content@)
                &&& id@ == event.id@
            },
        },
{
    if !event.verified {
        return DnsDecision::InvalidSignature { id: event.id.clone() };
    }
    match parse_ipv4(event.content.as_str()) {
        Some(_) => {
            assert(is_ipv4(event.content@));
            DnsDecision::Update { label: event.label.clone(), ip: event.content.clone() }
        },
        None => DnsDecision::InvalidAddress { id: event.id.clone() },
    }
}

/// What a request's body holds: one record set, which names the whole label in the zone and
/// replaces its address by one record for five minutes, and nothing else.
pub proof fn record_set_members(label: Seq<char>, ip: Seq<char>)
    ensures
        a_record_body(label, ip) matches Json::Object(body) && body.dom() == set!["rrsets"@] && (
        body["rrsets"@] matches Json::Array(sets) && sets.len() == 1 && (
        sets[0] matches Json::Object(members) && members.dom() == set![
            "name"@,
            "type"@,
            "changetype"@,
            "ttl"@,
            "records"@,
        ] && members["name"@] == Json::Text(label + ".nostr."@) && members["type"@] == Json::Text(
            "A"@,
        ) && members["changetype"@] == Json::Text("REPLACE"@) && members["ttl"@] == Json::Unsigned(
            300,
        ) && (members["records"@] matches Json::Array(records) && records.len() == 1 && (
        records[0] matches Json::Object(record) && record.dom() == set!["content"@, "disabled"@]
            && record["content"@] == Json::Text(ip) && record["disabled"@] == Json::Bool(false))))),
{
    reveal_strlit("name");
    reveal_strlit("type");
    reveal_strlit("changetype");
    reveal_strlit("ttl");
    reveal_strlit("records");
    reveal_strlit("content");
    reveal_strlit("disabled");
    reveal_strlit(".");
    reveal_strlit("nostr.");
    reveal_strlit(".nostr.");
    assert("name"@.len() == 4 && "type"@.len() == 4 && "name"@[0] != "type"@[0]);
    assert("changetype"@.len() == 10 && "ttl"@.len() == 3 && "records"@.len() == 7);
    assert("content"@.len() == 7 && "disabled"@.len() == 8);
    assert(label + "."@ + ZONE_NAME@ =~= label + ".nostr."@);
    let body = a_record_body(label, ip)->Object_0;
    let members = a_record_set(label, ip)->Object_0;
    let record = a_record(ip)->Object_0;
    assert(body.dom() =~= set!["rrsets"@]);
    assert(members.dom() =~= set!["name"@, "type"@, "changetype"@, "ttl"@, "records"@]);
    assert(record.dom() =~= set!["content"@, "disabled"@]);
}

/// Requests for two labels or two addresses are never the same.
pub proof fn requests_tell_labels_apart(
    label: Seq<char>,
    ip: Seq<char>,
    label2: Seq<char>,
    ip2: Seq<char>,
)
    requires
        a_record_body(label, ip) == a_record_body(label2, ip2),
    ensures
        label == label2,
        ip == ip2,
{
    record_set_members(label, ip);
    record_set_members(label2, ip2);
    reveal_strlit(".nostr.");
    let name = label + ".nostr."@;
    let name2 = label2 + ".nostr."@;
    assert(name == name2);
    assert(name.len() == label.len() + 7 && name2.len() == label2.len() + 7);
    assert(label =~= name.take(label.len() as int));
    assert(label2 =~= name2.take(label.len() as int));
}

/// The name in a request is the whole label, a dot and the zone, character by character.
pub proof fn record_name_is_the_label(label: Seq<char>, ip: Seq<char>)
    ensures
        ({
            let body = a_record_body(label, ip)->Object_0;
            let members = (body["rrsets"@]->Array_0)[0]->Object_0;
            let name = members["name"@]->Text_0;
            &&& name.len() == label.len() + 1 + ZONE_NAME@.len()
            &&& forall|i: int| 0 <= i < label.len() ==> #[trigger] name[i] == label[i]
            &&& name[label.len() as int] == '.'
            &&& name.skip(label.len() + 1int) == ZONE_NAME@
        }),
{
    record_set_members(label, ip);
    reveal_strlit("nostr.");
    reveal_strlit(".nostr.");
    assert((label + ".nostr."@).skip(label.len() + 1int) =~= ZONE_NAME@);
}

/// An event sets an address exactly where it is signed and its content is four octets with
/// dots between them: that address, for the label of its author. Any other event is passed
/// over under its own id, for its signature first.
pub proof fn decision_rule(event: EventView)
    ensures
        decision(event) is Update <==> event.verified && exists|a: u8, b: u8, c: u8, d: u8|
            #![trigger octet_text(a), octet_text(b), octet_text(c), octet_text(d)]
            event.content == octet_text(a) + "."@ + octet_text(b) + "."@ + octet_text(c) + "."@
                + octet_text(d),
        decision(event) matches Decision::Update { label, ip } ==> label == event.label && ip
            == event.content,
        decision(event) is InvalidSignature <==> !event.verified,
        decision(event) matches Decision::InvalidSignature { id } ==> id == event.id,
        decision(event) matches Decision::InvalidAddress { id } ==> id == event.id,
{
    ipv4_texts(event.content);
}

/// A decision keeps its kind, and its texts stand for their characters.
pub proof fn decision_views(decision: DnsDecision)
    ensures
        decision matches DnsDecision::Update { label, ip } ==> decision@ == (Decision::Update {
            label: label@,
            ip: ip@,
        }),
        decision matches DnsDecision::InvalidSignature { id } ==> decision@ == (
        Decision::InvalidSignature { id: id@ }),
        decision matches DnsDecision::InvalidAddress { id } ==> decision@ == (
        Decision::InvalidAddress { id: id@ }),
{
}

} // verus!
