//! The logic of a Charter node: the wire format of referendum votes, the
//! requests sent to the Char and PowerDNS servers, and the rules by which
//! decided nostr events become DNS records.

pub mod ballot;
pub mod bytes;
pub mod char_rpc;
pub mod charter;
pub mod compact_size;
pub mod dns;
pub mod hex_text;
pub mod ipv4;
pub mod json;
pub mod nostr;
pub mod referendum;
pub mod startup;
pub mod text;
pub mod varint;

pub use ballot::{ballot_num_bytes, load_ballot_num};
pub use bytes::{ByteReader, UnexpectedEof};
pub use char_rpc::{
    decision_roll, has_active_bonds, CharRpc, DecidedRoll, DecisionRollInner, DecisionRollResponse,
    InvalidCookie, RollError, RpcCall,
};
pub use charter::{retain_undecided, settle_roll, Charter, RollOutcome};
pub use dns::{
    process_dns_event, update_a_record, update_a_record_result, DnsDecision, PdnsRequest,
    API_KEY_HEADER, PDNS_BASE_URL, PDNS_METHOD, PDNS_SERVER_ID, ZONE_NAME,
};
pub use hex_text::HexError;
pub use ipv4::parse_ipv4;
pub use nostr::NostrEvent;
pub use referendum::{
    char_hash_preimage, checked_decode_leader_payload, checked_decode_referendum_vote_hex,
    decode_leader_payload, decode_referendum_vote_hex, decode_vote_frame, domain_to_char_hash,
    encode_referendum_vote, VoteError, REFERENDUM_VOTE,
};
pub use startup::{
    advance_startup, domain_key_hex, is_empty_domain_error, StartupAction, StartupEvent,
    StartupState, TransportError, DOMAIN_NAME, EMPTY_DOMAIN_MESSAGE, MAX_FETCH,
};
pub use varint::{checked_decode_varint, decode_varint, encode_varint, VarintError};
