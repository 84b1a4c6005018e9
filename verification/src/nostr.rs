//! Nostr events, as far as the node reads them.

use nostr_sdk::prelude::{Event, PublicKey, ToBech32};
use vstd::prelude::*;

verus! {

/// The id in hexadecimal, the author's key and the content of the nostr event that a JSON
/// text is, as `serde_json::from_str` reads it; `None` where the text is no event.
pub uninterp spec fn event_fields(json: Seq<char>) -> Option<(Seq<char>, Seq<u8>, Seq<char>)>;

/// Whether the event that a JSON text is passes `nostr_sdk::Event::verify`: its id is
/// the hash of its other fields, and its signature is the author's over that id.
pub uninterp spec fn event_verifies(json: Seq<char>) -> bool;

/// The bech32 form, `npub` and all, of a public key.
pub uninterp spec fn npub_text(key: Seq<u8>) -> Seq<char>;

/// A nostr event, as far as the node reads it.
#[derive(Debug)]
pub struct NostrEvent {
    /// Its id, in hexadecimal.
    pub id: String,
    pub content: String,
    /// Whether its id and its signature are what they claim to be.
    pub verified: bool,
    /// The bech32 form of its author's key.
    pub label: String,
}

/// A nostr event, as plain values.
pub struct EventView {
    pub id: Seq<char>,
    pub content: Seq<char>,
    pub verified: bool,
    pub label: Seq<char>,
}

impl View for NostrEvent {
    type V = EventView;

    open spec fn view(&self) -> EventView {
        EventView {
            id: self.id@,
            content: self.content@,
            verified: self.verified,
            label: self.label@,
        }
    }
}

/// The event that a JSON text is; `None` where the text is no event.
pub open spec fn event_of(json: Seq<char>) -> Option<EventView> {
    match event_fields(json) {
        Some((id, pubkey, content)) => Some(
            EventView {
                id,
                content,
                verified: event_verifies(json),
                label: npub_text(pubkey),
            },
        ),
        None => None,
    }
}

impl NostrEvent {
    /// Reads an event from its JSON text.
    pub fn parse(json: &str) -> (event: Option<NostrEvent>)
        ensures
            event_of(json@) == match event {
                Some(event) => Some(event@),
                None => None,
            },
            match event_fields(json@) {
                Some((id, pubkey, content)) => {
                    &&& event matches Some(event)
                    &&& event.id@ == id
                    &&& event.content@ == content
                    &&& event.verified == event_verifies(json@)
                    &&& event.label@ == npub_text(pubkey)
                },
                None => event is None,
            },
    {
        match parse_fields(json) {
            Some((id, pubkey, content)) => {
                let verified = verify_event(json);
                let label = npub(&pubkey);
                Some(NostrEvent { id, content, verified, label })
            },
            None => None,
        }
    }

    /// The id of the event that a JSON text is.
    pub fn parse_id(json: &str) -> (id: Option<String>)
        ensures
            match event_of(json@) {
                Some(event) => id matches Some(id) && id@ == event.id,
                None => id is None,
            },
            match event_fields(json@) {
                Some((own, _, _)) => id matches Some(id) && id@ == own,
                None => id is None,
            },
    {
        match parse_fields(json) {
            Some((id, _, _)) => Some(id),
            None => None,
        }
    }
}

/// `serde_json::from_str` of a `nostr_sdk::Event`: its id, author and content, or nothing
/// where the text is no event.
#[verifier::external_body]
fn parse_fields(json: &str) -> (fields: Option<(String, [u8; 32], String)>)
    ensures
        event_fields(json@) == match fields {
            Some((id, pubkey, content)) => Some((id@, pubkey@, content@)),
            None => None,
        },
{
    match serde_json::from_str::<Event>(json) {
        Ok(event) => Some((event.id.to_string(), event.pubkey.to_bytes(), event.content)),
        Err(_) => None,
    }
}

/// `nostr_sdk::Event::verify` of the event that a JSON text is.
#[verifier::external_body]
fn verify_event(json: &str) -> (verified: bool)
    requires
        event_fields(json@) is Some,
    ensures
        verified == event_verifies(json@),
{
    match serde_json::from_str::<Event>(json) {
        Ok(event) => event.verify().is_ok(),
        Err(_) => false,
    }
}

/// `nostr_sdk::ToBech32::to_bech32` of a `nostr_sdk::PublicKey`, which does not fail.
#[verifier::external_body]
fn npub(key: &[u8; 32]) -> (text: String)
    ensures
        text@ == npub_text(key@),
{
    match PublicKey::from_byte_array(*key).to_bech32() {
        Ok(text) => text,
        Err(never) => match never {},
    }
}

/// A text is an event exactly where its fields are read, and the event is what was read: its
/// id and content, whether it verifies, and the label of its author.
pub proof fn event_is_what_was_read(json: Seq<char>, event: NostrEvent)
    ensures
        event_of(json) is Some <==> event_fields(json) is Some,
        event_of(json) == Some(event@) <==> event_fields(json) is Some && {
            let (id, pubkey, content) = event_fields(json)->0;
            &&& event.id@ == id
            &&& event.content@ == content
            &&& event.verified == event_verifies(json)
            &&& event.label@ == npub_text(pubkey)
        },
{
}

/// A text's event has the id, the content and the author that were read from the text.
pub proof fn event_fields_kept(json: Seq<char>)
    ensures
        event_fields(json) matches Some((id, pubkey, content)) ==> {
            &&& event_of(json) matches Some(event)
            &&& event.id == id
            &&& event.content == content
            &&& event.verified == event_verifies(json)
            &&& event.label == npub_text(pubkey)
        },
{
}

} // verus!
