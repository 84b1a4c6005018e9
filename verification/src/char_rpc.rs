//! The calls that the node makes of a Char server, and what its answers mean.

use serde_json::Value;
use vstd::prelude::*;

use crate::compact_size::{lemma_compact_size_len, write_compact_size};
use crate::hex_text::hex_text;
use crate::json::{
    array1, json_array, json_bool, json_document, json_of, json_parse, json_string, json_texts,
    json_unsigned, json_write_strings, jsons_of, object1, strings_json, texts_of, Json,
};
use crate::referendum::{
    checked_decode_referendum_vote_hex, encode_referendum_vote, vote_frame, vote_of_hex,
    vote_reads_back, VoteError,
};
use crate::text::{text_chars, trim_bounds, trimmed};
use crate::varint::{encode_varint, varint_len};

verus! {

/// The server's answer to a question for a decision roll.
#[derive(Debug)]
pub struct DecisionRollResponse {
    pub found: bool,
    pub decision_roll: Option<DecisionRollInner>,
}

/// A decision roll, as the server gives it.
#[derive(Debug)]
pub struct DecisionRollInner {
    pub data: Option<String>,
}

/// The server to call, and the name and password to call it with.
#[derive(Debug, Clone)]
pub struct CharRpc {
    pub rpc_url: String,
    pub user: String,
    pub password: String,
}

/// A cookie that holds no colon.
#[derive(Debug, Clone, Copy, PartialEq, Eq, Structural)]
pub struct InvalidCookie;

impl InvalidCookie {
    /// What the error says.
    pub fn message(&self) -> (text: String)
        ensures
            text@ == "Invalid cookie format"@,
    {
        "Invalid cookie format".to_owned()
    }
}

/// A call of the server.
pub struct RpcCall {
    pub method: String,
    pub params: Vec<Value>,
}

/// A decision roll that was read.
pub struct DecidedRoll {
    /// The ballot that the roll names.
    pub decoded_ballot: u64,
    /// Whether that is the ballot that was asked for.
    pub ballot_matches: bool,
    /// What was decided.
    pub document: Value,
}

/// Why a decision roll could not be read.
#[derive(Debug)]
pub enum RollError {
    /// The roll's data is no vote.
    Vote(VoteError),
    /// The payload of the vote is no JSON document.
    Json(serde_json::Error),
}

/// The user and the password of a cookie: what stands before and behind the first colon,
/// white space at the ends taken off; `None` where there is no colon.
pub open spec fn cookie_parts(content: Seq<char>) -> Option<(Seq<char>, Seq<char>)> {
    let cookie = trimmed(content);
    match cookie.index_of_first(':') {
        Some(colon) => Some((cookie.take(colon), cookie.skip(colon + 1))),
        None => None,
    }
}

/// The parameters of the call that submits a vote.
pub open spec fn bamboo_params(key_hex: Seq<char>, vote_hex: Seq<char>) -> Seq<Json> {
    seq![
        Json::Array(seq![Json::Object(map![key_hex => Json::Text(vote_hex)])]),
        Json::Bool(false),
    ]
}

/// The data of the roll that an answer holds, if it was found and has any.
pub open spec fn roll_data(response: DecisionRollResponse) -> Option<Seq<char>> {
    match response.decision_roll {
        Some(inner) if response.found => match inner.data {
            Some(data) => Some(data@),
            None => None,
        },
        _ => None,
    }
}

/// The document that the payload of a vote is: an empty payload stands for the empty array.
pub open spec fn payload_document(payload: Seq<u8>) -> Option<Json> {
    if payload.len() == 0 {
        Some(Json::Array(Seq::empty()))
    } else {
        json_document(payload)
    }
}

impl CharRpc {
    /// Where the server of a data directory leaves its cookie.
    pub fn cookie_path(datadir: &str) -> (path: String)
        ensures
            path@ == datadir@ + "/.cookie"@,
    {
        let mut path = datadir.to_owned();
        path.append("/.cookie");
        path
    }

    /// The server at `rpc_url`, called as its cookie says.
    pub fn new(rpc_url: &str, cookie_content: &str) -> (result: Result<Self, InvalidCookie>)
        ensures
            match cookie_parts(cookie_content@) {
                Some((user, password)) => {
                    &&& result matches Ok(rpc)
                    &&& rpc.rpc_url@ == rpc_url@
                    &&& rpc.user@ == user
                    &&& rpc.password@ == password
                },
                None => result is Err,
            },
            result is Err <==> !trimmed(cookie_content@).contains(':'),
            result matches Ok(rpc) ==> {
                &&& rpc.rpc_url@ == rpc_url@
                &&& trimmed(cookie_content@) == rpc.user@ + ":"@ + rpc.password@
                &&& !rpc.user@.contains(':')
            },
    {
        let chars = text_chars(cookie_content);
        let (start, end) = trim_bounds(&chars);
        let ghost cookie = trimmed(cookie_content@);
        let mut colon: usize = start;
        while colon < end && chars[colon] != ':'
            invariant
                chars@ == cookie_content@,
                start <= colon <= end <= chars@.len(),
                cookie == chars@.subrange(start as int, end as int),
                forall|i: int| 0 <= i < colon - start ==> cookie[i] != ':',
            decreases end - colon,
        {
            colon = colon + 1;
        }
        proof {
            cookie.index_of_first_ensures(':');
        }
        if colon == end {
            return Err(InvalidCookie);
        }
        proof {
            assert(cookie[colon - start] == ':');
            assert(cookie.contains(':'));
            assert(cookie.index_of_first(':') == Some(colon - start));
        }
        let user = cookie_content.substring_char(start, colon).to_owned();
        let password = cookie_content.substring_char(colon + 1, end).to_owned();
        assert(user@ =~= cookie.take(colon - start));
        assert(password@ =~= cookie.skip(colon - start + 1));
        proof {
            cookie_splits(cookie_content@, user@, password@);
        }
        Ok(CharRpc { rpc_url: rpc_url.to_owned(), user, password })
    }

    /// The call that submits a vote with the given payload under a key.
    pub fn add_bamboo_payload(
        &self,
        key_hex: String,
        payload: &[u8],
        ballot_number: u64,
    ) -> (call: RpcCall)
        requires
            2 * vote_frame(ballot_number, payload@).len() <= isize::MAX,
        ensures
            call.method@ == "addbambookv"@,
            jsons_of(call.params@) == bamboo_params(
                key_hex@,
                hex_text(vote_frame(ballot_number, payload@)),
            ),
            call.params@.len() == 2,
            json_of(call.params@[0]) matches Json::Array(notes) && notes.len() == 1 && (
            notes[0] matches Json::Object(members) && members.dom() == set![key_hex@]
                && members[key_hex@] == Json::Text(hex_text(vote_frame(ballot_number, payload@)))),
            json_of(call.params@[1]) == Json::Bool(false),
    {
        let vote_hex = encode_referendum_vote(ballot_number, payload);
        let mut params: Vec<Value> = Vec::new();
        params.push(array1(object1(key_hex, json_string(vote_hex))));
        params.push(json_bool(false));
        assert(jsons_of(params@) =~= bamboo_params(
            key_hex@,
            hex_text(vote_frame(ballot_number, payload@)),
        ));
        proof {
            bamboo_params_hold(key_hex@, hex_text(vote_frame(ballot_number, payload@)));
            assert(json_of(params@[0]) == jsons_of(params@)[0]);
            assert(json_of(params@[1]) == jsons_of(params@)[1]);
        }
        RpcCall { method: "addbambookv".to_owned(), params }
    }

    /// The call that submits a vote on some notes under a key; `None` where the vote is too
    /// long for its hexadecimal form to fit in memory. A decision roll that holds the vote
    /// gives back the ballot and the array of the notes.
    pub fn add_bamboo_kv(&self, key_hex: String, notes: &Vec<String>, ballot_number: u64) -> (call:
        Option<RpcCall>)
        ensures
            ({
                let payload = strings_json(texts_of(notes@));
                let vote_hex = hex_text(vote_frame(ballot_number, payload));
                &&& call is Some <==> 2 * vote_frame(ballot_number, payload).len() <= isize::MAX
                &&& call matches Some(call) ==> {
                    &&& call.method@ == "addbambookv"@
                    &&& jsons_of(call.params@) == bamboo_params(key_hex@, vote_hex)
                    &&& vote_of_hex(vote_hex) == Ok::<(u64, Seq<u8>), VoteError>(
                        (ballot_number, payload),
                    )
                    &&& json_document(payload) == Some(json_texts(texts_of(notes@)))
                    &&& payload_document(payload) == Some(json_texts(texts_of(notes@)))
                }
            }),
    {
        match json_write_strings(notes) {
            Ok(payload) => {
                if !vote_fits(ballot_number, payload.as_slice()) {
                    return None;
                }
                proof {
                    vote_reads_back(ballot_number, payload@, Seq::empty());
                    let vote_hex = hex_text(vote_frame(ballot_number, payload@));
                    assert(vote_hex + Seq::<char>::empty() =~= vote_hex);
                }
                Some(self.add_bamboo_payload(key_hex, payload.as_slice(), ballot_number))
            },
            Err(_) => None,
        }
    }

    /// The call that asks what a ballot of a domain decided.
    pub fn get_referendum_decision_roll(&self, domain_hex: &str, ballot_number: u64) -> (call:
        RpcCall)
        ensures
            call.method@ == "getreferendumdecisionroll"@,
            jsons_of(call.params@) == seq![
                Json::Text(domain_hex@),
                Json::Unsigned(ballot_number),
                Json::Unsigned(1),
            ],
    {
        let mut params: Vec<Value> = Vec::new();
        params.push(json_string(domain_hex.to_owned()));
        params.push(json_unsigned(ballot_number));
        params.push(json_unsigned(1));
        assert(jsons_of(params@) =~= seq![
            Json::Text(domain_hex@),
            Json::Unsigned(ballot_number),
            Json::Unsigned(1),
        ]);
        RpcCall { method: "getreferendumdecisionroll".to_owned(), params }
    }

    /// The call that asks for the active bonds.
    pub fn check_for_active_bonds(&self) -> (call: RpcCall)
        ensures
            call.method@ == "getallcharbonds"@,
            jsons_of(call.params@) == seq![Json::Unsigned(0)],
    {
        let mut params: Vec<Value> = Vec::new();
        params.push(json_unsigned(0));
        assert(jsons_of(params@) =~= seq![Json::Unsigned(0)]);
        RpcCall { method: "getallcharbonds".to_owned(), params }
    }
}

/// Whether the hexadecimal form of a vote fits in memory.
fn vote_fits(ballot_number: u64, payload: &[u8]) -> (fits: bool)
    ensures
        fits == (2 * vote_frame(ballot_number, payload@).len() <= isize::MAX),
{
    let number = encode_varint(ballot_number);
    let size = write_compact_size(payload.len() as u64);
    let limit: usize = isize::MAX as usize / 2;
    proof {
        varint_len(ballot_number);
        lemma_compact_size_len(payload@.len() as u64);
    }
    let head: usize = 1 + number.len() + size.len();
    head <= limit && payload.len() <= limit - head
}

/// Whether the server's answer to `check_for_active_bonds` holds any bond.
pub fn has_active_bonds(bonds: &Vec<Value>) -> (active: bool)
    ensures
        active == (bonds@.len() > 0),
{
    bonds.len() > 0
}

/// The document that a decided payload is.
fn read_payload(payload: &Vec<u8>) -> (result: Result<Value, serde_json::Error>)
    ensures
        payload_document(payload@) == match result {
            Ok(document) => Some(json_of(document)),
            Err(_) => None,
        },
{
    if payload.len() == 0 {
        let items: Vec<Value> = Vec::new();
        assert(jsons_of(items@) =~= Seq::<Json>::empty());
        return Ok(json_array(items));
    }
    json_parse(payload.as_slice())
}

/// What the answer to `get_referendum_decision_roll` says: nothing where no roll was found
/// or it has no data, else the ballot that it names and the document that was decided.
pub fn decision_roll(response: DecisionRollResponse, ballot_number: u64) -> (result: Result<
    Option<DecidedRoll>,
    RollError,
>)
    ensures
        match roll_data(response) {
            None => result matches Ok(None),
            Some(data) => match vote_of_hex(data) {
                Err(error) => result matches Err(RollError::Vote(e)) && e == error,
                Ok((ballot, payload)) => match payload_document(payload) {
                    None => result matches Err(RollError::Json(_)),
                    Some(document) => {
                        &&& result matches Ok(Some(roll))
                        &&& roll.decoded_ballot == ballot
                        &&& roll.ballot_matches == (ballot == ballot_number)
                        &&& json_of(roll.document) == document
                    },
                },
            },
        },
        result matches Ok(None) <==> !(response.found && (
        response.decision_roll matches Some(inner) && inner.data is Some)),
        response.found && response.decision_roll is Some && (
        response.decision_roll->0).data is Some ==> match vote_of_hex(
            (response.decision_roll->0).data->0@,
        ) {
            Err(error) => result matches Err(RollError::Vote(e)) && e == error,
            Ok((ballot, payload)) => if payload.len() == 0 {
                &&& result matches Ok(Some(roll))
                &&& roll.decoded_ballot == ballot
                &&& roll.ballot_matches == (ballot == ballot_number)
                &&& json_of(roll.document) == Json::Array(Seq::empty())
            } else {
                match json_document(payload) {
                    None => result matches Err(RollError::Json(_)),
                    Some(document) => {
                        &&& result matches Ok(Some(roll))
                        &&& roll.decoded_ballot == ballot
                        &&& roll.ballot_matches == (ballot == ballot_number)
                        &&& json_of(roll.document) == document
                    },
                }
            },
        },
{
    if !response.found {
        return Ok(None);
    }
    match response.decision_roll {
        Some(inner) => match inner.data {
            Some(data) => match checked_decode_referendum_vote_hex(data.as_str()) {
                Ok((ballot, payload)) => match read_payload(&payload) {
                    Ok(document) => Ok(
                        Some(
                            DecidedRoll {
                                decoded_ballot: ballot,
                                ballot_matches: ballot == ballot_number,
                                document,
                            },
                        ),
                    ),
                    Err(error) => Err(RollError::Json(error)),
                },
                Err(error) => Err(RollError::Vote(error)),
            },
            None => Ok(None),
        },
        None => Ok(None),
    }
}

/// A cookie's user and password are what its trimmed text holds around the first colon, and
/// there are none exactly where it holds no colon.
pub proof fn cookie_splits(content: Seq<char>, user: Seq<char>, password: Seq<char>)
    ensures
        cookie_parts(content) == Some((user, password)) <==> trimmed(content) == user + ":"@
            + password && !user.contains(':'),
        cookie_parts(content) is None <==> !trimmed(content).contains(':'),
{
    reveal_strlit(":");
    let cookie = trimmed(content);
    cookie.index_of_first_ensures(':');
    if let Some((u, p)) = cookie_parts(content) {
        let colon = cookie.index_of_first(':')->0;
        assert(cookie =~= u + ":"@ + p);
        assert(!u.contains(':'));
        if cookie == user + ":"@ + password && !user.contains(':') {
            assert(cookie[user.len() as int] == ':');
            if colon < user.len() {
                assert(user[colon] == ':');
            }
            assert(user =~= u);
            assert(password =~= p);
        }
    } else if cookie == user + ":"@ + password {
        assert(cookie[user.len() as int] == ':');
    }
}

/// What the parameters of a submission hold: one array of one object, which has the vote under
/// the key and nothing else, and then `false`.
pub proof fn bamboo_params_hold(key_hex: Seq<char>, vote_hex: Seq<char>)
    ensures
        bamboo_params(key_hex, vote_hex).len() == 2,
        bamboo_params(key_hex, vote_hex)[0] matches Json::Array(notes) && notes.len() == 1 && (
        notes[0] matches Json::Object(members) && members.dom() == set![key_hex]
            && members[key_hex] == Json::Text(vote_hex)),
        bamboo_params(key_hex, vote_hex)[1] == Json::Bool(false),
{
    let members = ((bamboo_params(key_hex, vote_hex)[0]->Array_0)[0])->Object_0;
    assert(members.dom() =~= set![key_hex]);
}

/// A found roll's data is taken whole, whatever it is, and there is none exactly where nothing
/// was found or the roll or its data is missing.
pub proof fn roll_data_is_taken_whole(response: DecisionRollResponse)
    ensures
        roll_data(response) is None <==> !response.found || response.decision_roll is None || (
        response.decision_roll->0).data is None,
        roll_data(response) matches Some(data) ==> data == (response.decision_roll->0).data->0@,
{
}

/// An empty payload is the empty array, and any other is the document that the parser reads.
pub proof fn payload_is_its_document(payload: Seq<u8>)
    ensures
        payload.len() > 0 ==> payload_document(payload) == json_document(payload),
        payload.len() == 0 ==> payload_document(payload) == Some(Json::Array(Seq::empty())),
{
}

/// A vote that a node submits is what every node reads from the roll that holds it: the same
/// ballot, and the document of the same payload.
pub proof fn submitted_votes_are_read(
    response: DecisionRollResponse,
    ballot: u64,
    payload: Seq<u8>,
    data: Seq<char>,
)
    requires
        payload.len() <= isize::MAX,
        response.found,
        response.decision_roll matches Some(inner) && (inner.data matches Some(text) && text@ == data),
        data == hex_text(vote_frame(ballot, payload)),
    ensures
        roll_data(response) == Some(data),
        vote_of_hex(data) == Ok::<(u64, Seq<u8>), VoteError>((ballot, payload)),
{
    vote_reads_back(ballot, payload, Seq::empty());
    assert(data + Seq::<char>::empty() =~= data);
}

} // verus!
