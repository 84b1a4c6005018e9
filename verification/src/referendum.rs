//! The wire format of votes, and of the notice that names a ballot's leader.
//!
//! A vote is a zero byte, the ballot number, the length of the payload and the
//! payload; it travels as hexadecimal text.

use sha2::{Digest, Sha256};
use vstd::prelude::*;
use vstd::utf8::encode_utf8;

use crate::bytes::{ByteReader, UnexpectedEof};
use crate::compact_size::{
    begins_with_size, compact_size, compact_size_is_unique, compact_size_prefix,
    compact_size_reads_back, lemma_compact_size_len, read_compact_size, write_compact_size,
};
use crate::hex_text::{
    hex_decode, hex_decoded, hex_digit, hex_encode, hex_error_text, hex_form_is_unique,
    hex_reads_back, hex_text, hex_text_digits, hex_texts_are_read, hex_texts_join, is_hex_text, lower_text,
    HexError,
};
use crate::varint::{
    checked_decode_varint, encode_varint, u64_limit, varint_bytes, varint_form_is_unique,
    varint_len, varint_overflows, varint_prefix, varint_reads_back, VarintError,
};

verus! {

/// The first byte of a vote.
pub const REFERENDUM_VOTE: u8 = 0x00;

/// The bytes of a vote.
pub open spec fn vote_frame(ballot: u64, payload: Seq<u8>) -> Seq<u8> {
    seq![REFERENDUM_VOTE] + varint_bytes(ballot as nat) + compact_size(payload.len()) + payload
}

/// Why a vote could not be read.
#[derive(Debug, Clone, Copy, PartialEq, Eq)]
pub enum VoteError {
    /// The text is not hexadecimal.
    Hex(HexError),
    /// The bytes end early.
    UnexpectedEof,
    /// The first byte, given here, is not that of a vote.
    InvalidLeafType(u8),
    /// The ballot number carries out of 64 bits.
    BallotOverflow,
    /// The length of the payload is cut short or not in its shortest form.
    InvalidPayloadLength,
    /// No vector can have the length of the payload.
    PayloadTooLarge,
}

impl VoteError {
    /// Whether the vote is malformed in a way that a reader does not recover from.
    pub open spec fn is_fatal(self) -> bool {
        self is BallotOverflow || self is InvalidPayloadLength || self is PayloadTooLarge
    }

    /// What the error says.
    pub fn message(&self) -> (text: String)
        ensures
            text@ == vote_error_text(*self),
            match *self {
                VoteError::Hex(error) => text@ == hex_error_text(error),
                VoteError::UnexpectedEof => text@ == "failed to fill whole buffer"@,
                VoteError::InvalidLeafType(leaf) => text@
                    == "Invalid LeafType: expected 0x00, got 0x"@ + seq![
                    "0123456789abcdef"@[leaf as int / 16],
                    "0123456789abcdef"@[leaf as int % 16],
                ],
                VoteError::BallotOverflow => text@ == "attempt to add with overflow"@,
                VoteError::InvalidPayloadLength => text@ == "invalid payload length"@,
                VoteError::PayloadTooLarge => text@ == "capacity overflow"@,
            },
    {
        match self {
            VoteError::Hex(error) => error.message(),
            VoteError::UnexpectedEof => UnexpectedEof.message(),
            VoteError::InvalidLeafType(leaf) => {
                let byte: [u8; 1] = [*leaf];
                let digits = hex_encode(byte.as_slice());
                proof {
                    hex_text_digits(byte@);
                    assert(byte@[0] == *leaf);
                    assert(digits@ =~= seq![
                        "0123456789abcdef"@[*leaf as int / 16],
                        "0123456789abcdef"@[*leaf as int % 16],
                    ]);
                }
                assert(digits@ =~= hex_byte(*leaf));
                let mut text = "Invalid LeafType: expected 0x00, got 0x".to_owned();
                text.append(digits.as_str());
                text
            },
            VoteError::BallotOverflow => VarintError::Overflow.message(),
            VoteError::InvalidPayloadLength => "invalid payload length".to_owned(),
            VoteError::PayloadTooLarge => "capacity overflow".to_owned(),
        }
    }
}

/// The two lower-case digits of a byte.
pub open spec fn hex_byte(byte: u8) -> Seq<char> {
    seq![hex_digit(byte as nat / 16), hex_digit(byte as nat % 16)]
}

/// What an error says.
pub open spec fn vote_error_text(error: VoteError) -> Seq<char> {
    match error {
        VoteError::Hex(error) => hex_error_text(error),
        VoteError::UnexpectedEof => "failed to fill whole buffer"@,
        VoteError::InvalidLeafType(leaf) => "Invalid LeafType: expected 0x00, got 0x"@ + hex_byte(
            leaf,
        ),
        VoteError::BallotOverflow => "attempt to add with overflow"@,
        VoteError::InvalidPayloadLength => "invalid payload length"@,
        VoteError::PayloadTooLarge => "capacity overflow"@,
    }
}

/// What the payload of a vote is, given the bytes behind the ballot number.
pub open spec fn payload_of(s: Seq<u8>) -> Result<Seq<u8>, VoteError> {
    match compact_size_prefix(s) {
        None => Err(VoteError::InvalidPayloadLength),
        Some((size, read)) => {
            let count = size as usize;
            if count > isize::MAX {
                Err(VoteError::PayloadTooLarge)
            } else if count > s.len() - read {
                Err(VoteError::UnexpectedEof)
            } else {
                Ok(s.subrange(read as int, read + count))
            }
        },
    }
}

/// The ballot number and the payload of a vote; what follows the payload is ignored.
pub open spec fn vote_of_frame(s: Seq<u8>) -> Result<(u64, Seq<u8>), VoteError> {
    if s.len() == 0 {
        Err(VoteError::UnexpectedEof)
    } else if s[0] != REFERENDUM_VOTE {
        Err(VoteError::InvalidLeafType(s[0]))
    } else if varint_overflows(s.skip(1)) {
        Err(VoteError::BallotOverflow)
    } else {
        match varint_prefix(s.skip(1)) {
            None => Err(VoteError::UnexpectedEof),
            Some((ballot, len)) => match payload_of(s.skip(1int + len)) {
                Ok(payload) => Ok(((ballot % u64_limit()) as u64, payload)),
                Err(error) => Err(error),
            },
        }
    }
}

/// Whether a number in a vote is too large to be read as it stands: a ballot number of more
/// than 64 bits, or a length that exceeds the machine's sizes.
pub open spec fn vote_wraps(s: Seq<u8>) -> bool {
    varint_prefix(s.skip(1)) matches Some((ballot, len)) && (ballot >= u64_limit() || (
    compact_size_prefix(s.skip(1int + len)) matches Some((size, _)) && size > usize::MAX))
}

/// The ballot number and the payload of a vote in hexadecimal.
pub open spec fn vote_of_hex(text: Seq<char>) -> Result<(u64, Seq<u8>), VoteError> {
    match hex_decoded(encode_utf8(text)) {
        Ok(bytes) => vote_of_frame(bytes),
        Err(error) => Err(VoteError::Hex(error)),
    }
}

/// A vote that was read, as plain values.
pub open spec fn read_vote(result: Result<(u64, Vec<u8>), VoteError>) -> Result<
    (u64, Seq<u8>),
    VoteError,
> {
    match result {
        Ok((ballot, payload)) => Ok((ballot, payload@)),
        Err(error) => Err(error),
    }
}

/// Writes a vote in hexadecimal. Whatever even number of hexadecimal digits follows it, the
/// text is read back as the vote.
pub fn encode_referendum_vote(ballot_number: u64, payload_bytes: &[u8]) -> (text: String)
    requires
        2 * vote_frame(ballot_number, payload_bytes@).len() <= isize::MAX,
    ensures
        text@ == hex_text(vote_frame(ballot_number, payload_bytes@)),
        forall|rest: Seq<char>| #[trigger]
            is_hex_text(rest) ==> vote_of_hex(text@ + rest) == Ok::<(u64, Seq<u8>), VoteError>(
                (ballot_number, payload_bytes@),
            ),
        vote_of_hex(text@) == Ok::<(u64, Seq<u8>), VoteError>((ballot_number, payload_bytes@)),
        ({
            let number = varint_bytes(ballot_number as nat);
            let size = compact_size(payload_bytes@.len());
            let head = 1 + number.len() + size.len();
            &&& text@.len() == 2 * (head + payload_bytes@.len())
            &&& text@[0] == '0' && text@[1] == '0'
            &&& forall|i: int|
                0 <= i < number.len() ==> {
                    &&& text@[2 * (1 + i)] == "0123456789abcdef"@[#[trigger] number[i] as int / 16]
                    &&& text@[2 * (1 + i) + 1] == "0123456789abcdef"@[number[i] as int % 16]
                }
            &&& forall|i: int|
                0 <= i < size.len() ==> {
                    &&& text@[2 * (1 + number.len() + i)]
                        == "0123456789abcdef"@[#[trigger] size[i] as int / 16]
                    &&& text@[2 * (1 + number.len() + i) + 1]
                        == "0123456789abcdef"@[size[i] as int % 16]
                }
            &&& forall|i: int|
                0 <= i < payload_bytes@.len() ==> {
                    &&& text@[2 * (head + i)]
                        == "0123456789abcdef"@[#[trigger] payload_bytes@[i] as int / 16]
                    &&& text@[2 * (head + i) + 1]
                        == "0123456789abcdef"@[payload_bytes@[i] as int % 16]
                }
        }),
{
    let mut frame: Vec<u8> = Vec::new();
    frame.push(REFERENDUM_VOTE);
    frame.extend_from_slice(encode_varint(ballot_number).as_slice());
    frame.extend_from_slice(write_compact_size(payload_bytes.len() as u64).as_slice());
    frame.extend_from_slice(payload_bytes);
    assert(frame@ =~= vote_frame(ballot_number, payload_bytes@));
    proof {
        let text = hex_text(frame@);
        assert forall|rest: Seq<char>| #[trigger] is_hex_text(rest) implies vote_of_hex(text + rest)
            == Ok::<(u64, Seq<u8>), VoteError>((ballot_number, payload_bytes@)) by {
            vote_reads_back(ballot_number, payload_bytes@, rest);
        }
        vote_text_digits(ballot_number, payload_bytes@);
        assert(is_hex_text(Seq::empty()));
        assert(text + Seq::<char>::empty() =~= text);
    }
    hex_encode(frame.as_slice())
}

/// Reads the payload of a vote from the bytes behind the ballot number.
fn decode_payload(reader: &mut ByteReader) -> (result: Result<Vec<u8>, VoteError>)
    ensures
        payload_of(old(reader)@) == match result {
            Ok(payload) => Ok::<Seq<u8>, VoteError>(payload@),
            Err(error) => Err(error),
        },
{
    let ghost s = reader@;
    match read_compact_size(reader.rest()) {
        None => Err(VoteError::InvalidPayloadLength),
        Some((size, read)) => {
            proof {
                lemma_compact_size_len(size);
                compact_size_is_unique(s, size, choose|n: u64| begins_with_size(s, n));
                assert(compact_size_prefix(s) == Some((size, read as nat)));
            }
            let count: usize = #[verifier::truncate] (size as usize);
            if count > isize::MAX as usize {
                return Err(VoteError::PayloadTooLarge);
            }
            reader.advance(read as usize);
            match reader.read_exact(count) {
                Ok(payload) => {
                    assert(payload@ =~= s.subrange(read as int, read + count));
                    Ok(payload)
                },
                Err(_) => Err(VoteError::UnexpectedEof),
            }
        },
    }
}

/// Reads a vote from its bytes.
pub fn decode_vote_frame(frame: &[u8]) -> (result: Result<(u64, Vec<u8>), VoteError>)
    ensures
        read_vote(result) == vote_of_frame(frame@),
        match result {
            Ok((ballot, payload)) => vote_of_frame(frame@) == Ok::<(u64, Seq<u8>), VoteError>(
                (ballot, payload@),
            ),
            Err(error) => vote_of_frame(frame@) == Err::<(u64, Seq<u8>), VoteError>(error),
        },
{
    if frame.len() == 0 {
        return Err(VoteError::UnexpectedEof);
    }
    if frame[0] != REFERENDUM_VOTE {
        return Err(VoteError::InvalidLeafType(frame[0]));
    }
    let mut reader = ByteReader::new(frame);
    reader.advance(1);
    match checked_decode_varint(&mut reader) {
        Err(VarintError::Overflow) => Err(VoteError::BallotOverflow),
        Err(VarintError::UnexpectedEof) => Err(VoteError::UnexpectedEof),
        Ok(ballot) => {
            proof {
                let (_, len) = varint_prefix(frame@.skip(1))->0;
                assert(reader@ =~= frame@.skip(1int + len));
            }
            match decode_payload(&mut reader) {
                Ok(payload) => Ok((ballot, payload)),
                Err(error) => Err(error),
            }
        },
    }
}

/// Reads a vote from its hexadecimal form, whatever the text.
pub fn checked_decode_referendum_vote_hex(vote_hex: &str) -> (result: Result<
    (u64, Vec<u8>),
    VoteError,
>)
    ensures
        read_vote(result) == vote_of_hex(vote_hex@),
        match result {
            Ok((ballot, payload)) => vote_of_hex(vote_hex@) == Ok::<(u64, Seq<u8>), VoteError>(
                (ballot, payload@),
            ),
            Err(error) => vote_of_hex(vote_hex@) == Err::<(u64, Seq<u8>), VoteError>(error),
        },
{
    match hex_decode(vote_hex) {
        Ok(bytes) => decode_vote_frame(bytes.as_slice()),
        Err(error) => Err(VoteError::Hex(error)),
    }
}

/// Reads a vote from its hexadecimal form.
pub fn decode_referendum_vote_hex(vote_hex: &str) -> (result: Result<(u64, Vec<u8>), VoteError>)
    requires
        vote_of_hex(vote_hex@) matches Err(error) ==> !error.is_fatal(),
    ensures
        read_vote(result) == vote_of_hex(vote_hex@),
        match result {
            Ok((ballot, payload)) => vote_of_hex(vote_hex@) == Ok::<(u64, Seq<u8>), VoteError>(
                (ballot, payload@),
            ),
            Err(error) => vote_of_hex(vote_hex@) == Err::<(u64, Seq<u8>), VoteError>(error),
        },
{
    checked_decode_referendum_vote_hex(vote_hex)
}

/// The ballot number and the domain of a leader notice; `None` where it ends early.
pub open spec fn leader_of(s: Seq<u8>) -> Option<(u64, Seq<u8>)> {
    match varint_prefix(s) {
        Some((ballot, len)) if len + 32 <= s.len() => Some(
            ((ballot % u64_limit()) as u64, s.subrange(len as int, len + 32int)),
        ),
        _ => None,
    }
}

/// Reads a leader notice: a ballot number and the 32 bytes of a domain. What follows
/// the domain is ignored. The ballot number must not carry out of 64 bits.
pub fn decode_leader_payload(payload: &[u8]) -> (result: Result<(u64, [u8; 32]), UnexpectedEof>)
    requires
        !varint_overflows(payload@),
    ensures
        match result {
            Ok((ballot, domain)) => leader_of(payload@) == Some((ballot, domain@)),
            Err(_) => leader_of(payload@) is None,
        },
{
    match checked_decode_leader_payload(payload) {
        Ok(leader) => Ok(leader),
        Err(_) => Err(UnexpectedEof),
    }
}

/// Reads a leader notice, whatever its bytes.
pub fn checked_decode_leader_payload(payload: &[u8]) -> (result: Result<
    (u64, [u8; 32]),
    VarintError,
>)
    ensures
        result == Err::<(u64, [u8; 32]), VarintError>(VarintError::Overflow) <==> varint_overflows(
            payload@,
        ),
        match result {
            Ok((ballot, domain)) => leader_of(payload@) == Some((ballot, domain@)),
            Err(VarintError::UnexpectedEof) => leader_of(payload@) is None,
            Err(VarintError::Overflow) => true,
        },
{
    let mut reader = ByteReader::new(payload);
    let ballot = match checked_decode_varint(&mut reader) {
        Ok(ballot) => ballot,
        Err(error) => return Err(error),
    };
    let ghost (_, len) = varint_prefix(payload@)->0;
    let rest = reader.rest();
    if rest.len() < 32 {
        return Err(VarintError::UnexpectedEof);
    }
    let mut domain: [u8; 32] = [0u8; 32];
    let mut i: usize = 0;
    while i < 32
        invariant
            rest@.len() >= 32,
            i <= 32,
            forall|j: int| 0 <= j < i ==> domain@[j] == rest@[j],
        decreases 32 - i,
    {
        domain[i] = rest[i];
        i = i + 1;
    }
    assert(domain@ =~= payload@.subrange(len as int, len + 32int));
    Ok((ballot, domain))
}

/// The SHA-256 digest of a byte string.
pub uninterp spec fn sha256_digest(data: Seq<u8>) -> Seq<u8>;

/// `sha2::Sha256::digest`: the SHA-256 digest of `data`.
#[verifier::external_body]
pub(crate) fn sha256(data: &[u8]) -> (digest: [u8; 32])
    ensures
        digest@ == sha256_digest(data@),
{
    Sha256::digest(data).into()
}

/// The bytes that a domain's hash is taken of: its length, then its bytes.
pub fn char_hash_preimage(domain: &[u8]) -> (preimage: Vec<u8>)
    ensures
        preimage@ == compact_size(domain@.len()) + domain@,
{
    let mut preimage = write_compact_size(domain.len() as u64);
    preimage.extend_from_slice(domain);
    assert(preimage@ =~= compact_size(domain@.len()) + domain@);
    preimage
}

/// The hash by which the Char network knows a domain given in hexadecimal.
pub fn domain_to_char_hash(domain_hex: &str) -> (result: Result<[u8; 32], HexError>)
    ensures
        match hex_decoded(encode_utf8(domain_hex@)) {
            Ok(domain) => {
                &&& result matches Ok(hash)
                &&& hash@ == sha256_digest(compact_size(domain.len()) + domain)
            },
            Err(error) => result == Err::<[u8; 32], HexError>(error),
        },
{
    match hex_decode(domain_hex) {
        Ok(domain) => Ok(sha256(char_hash_preimage(domain.as_slice()).as_slice())),
        Err(error) => Err(error),
    }
}

/// A vote takes at most twenty bytes more than its payload.
pub proof fn vote_frame_len(ballot: u64, payload: Seq<u8>)
    requires
        payload.len() <= u64::MAX,
    ensures
        payload.len() + 3 <= vote_frame(ballot, payload).len() <= payload.len() + 20,
{
    varint_len(ballot);
    lemma_compact_size_len(payload.len() as u64);
}

/// A vote is read back from its bytes as it was written, whatever follows them, and no number
/// in it wraps.
pub proof fn vote_frame_reads_back(ballot: u64, payload: Seq<u8>, rest: Seq<u8>)
    requires
        payload.len() <= isize::MAX,
    ensures
        vote_of_frame(vote_frame(ballot, payload) + rest) == Ok::<(u64, Seq<u8>), VoteError>(
            (ballot, payload),
        ),
        !vote_wraps(vote_frame(ballot, payload) + rest),
{
    let s = vote_frame(ballot, payload) + rest;
    let number = varint_bytes(ballot as nat);
    let size = compact_size(payload.len());
    assert(s.skip(1) =~= number + (size + payload + rest));
    varint_reads_back(ballot, size + payload + rest);
    let tail = s.skip((1 + number.len()) as int);
    assert(tail =~= size + (payload + rest));
    compact_size_reads_back(payload.len() as u64, payload + rest);
    assert(tail.subrange(size.len() as int, (size.len() + payload.len()) as int) =~= payload);
}

/// A vote is read back from its hexadecimal form as it was written, whatever even number of
/// hexadecimal digits follows it. The payload has a length that a vector can have.
pub proof fn vote_reads_back(ballot: u64, payload: Seq<u8>, rest: Seq<char>)
    requires
        payload.len() <= isize::MAX,
        is_hex_text(rest),
    ensures
        vote_of_hex(hex_text(vote_frame(ballot, payload)) + rest) == Ok::<
            (u64, Seq<u8>),
            VoteError,
        >((ballot, payload)),
{
    let frame = vote_frame(ballot, payload);
    hex_texts_are_read(rest);
    let rest_bytes = hex_decoded(encode_utf8(rest))->Ok_0;
    hex_reads_back(frame);
    hex_texts_join(hex_text(frame), rest, frame, rest_bytes);
    vote_frame_reads_back(ballot, payload, rest_bytes);
}

/// Bytes are read as a vote, no number wrapped, exactly where they begin with the bytes that
/// are written for it.
pub proof fn vote_frame_is_unique(s: Seq<u8>, ballot: u64, payload: Seq<u8>)
    requires
        payload.len() <= isize::MAX,
    ensures
        vote_of_frame(s) == Ok::<(u64, Seq<u8>), VoteError>((ballot, payload)) && !vote_wraps(s)
            <==> vote_frame(ballot, payload).is_prefix_of(s),
{
    let frame = vote_frame(ballot, payload);
    if vote_of_frame(s) == Ok::<(u64, Seq<u8>), VoteError>((ballot, payload)) && !vote_wraps(s) {
        let (number, len) = varint_prefix(s.skip(1))->0;
        varint_form_is_unique(s.skip(1));
        let tail = s.skip(1int + len);
        let (size, read) = compact_size_prefix(tail)->0;
        lemma_compact_size_len(size);
        assert(begins_with_size(tail, size));
        assert(payload =~= tail.subrange(read as int, read + size));
        assert(compact_size(size as nat) =~= tail.take(read as int));
        assert(s.skip(1).take(len as int) =~= s.subrange(1, 1int + len));
        assert(frame =~= s.take(frame.len() as int));
    }
    if frame.is_prefix_of(s) {
        let rest = s.skip(frame.len() as int);
        assert(s =~= frame + rest);
        vote_frame_reads_back(ballot, payload, rest);
    }
}

/// A hexadecimal text is read as a vote, no number wrapped, exactly where it begins, in
/// either case, with the text that is written for it.
pub proof fn vote_text_is_unique(text: Seq<char>, s: Seq<u8>, ballot: u64, payload: Seq<u8>)
    requires
        hex_decoded(encode_utf8(text)) == Ok::<Seq<u8>, HexError>(s),
        payload.len() <= isize::MAX,
    ensures
        vote_of_hex(text) == Ok::<(u64, Seq<u8>), VoteError>((ballot, payload)) && !vote_wraps(s)
            <==> hex_text(vote_frame(ballot, payload)).is_prefix_of(lower_text(text)),
{
    let frame = vote_frame(ballot, payload);
    let form = hex_text(frame);
    vote_frame_is_unique(s, ballot, payload);
    hex_form_is_unique(text, s);
    if frame.is_prefix_of(s) {
        assert(s =~= frame + s.skip(frame.len() as int));
        assert(form =~= hex_text(s).take(form.len() as int));
    }
    if form.is_prefix_of(hex_text(s)) {
        let start = s.take(frame.len() as int);
        assert(form.len() == 2 * frame.len() && hex_text(s).len() == 2 * s.len());
        assert(form =~= hex_text(start));
        hex_reads_back(frame);
        hex_reads_back(start);
    }
}

/// A leader notice is read back as it was written, whatever follows it.
pub proof fn leader_payload_reads_back(ballot: u64, domain: Seq<u8>, rest: Seq<u8>)
    requires
        domain.len() == 32,
    ensures
        !varint_overflows(varint_bytes(ballot as nat) + domain + rest),
        leader_of(varint_bytes(ballot as nat) + domain + rest) == Some((ballot, domain)),
{
    let number = varint_bytes(ballot as nat);
    let s = number + domain + rest;
    assert(s =~= number + (domain + rest));
    varint_reads_back(ballot, domain + rest);
    assert(s.subrange(number.len() as int, number.len() + 32int) =~= domain);
}

/// Bytes are read as a leader notice, the ballot number not wrapped, exactly where they begin
/// with those that are written for it.
pub proof fn leader_payload_is_unique(s: Seq<u8>, ballot: u64, domain: Seq<u8>)
    requires
        domain.len() == 32,
    ensures
        leader_of(s) == Some((ballot, domain)) && (varint_prefix(s) matches Some((number, _))
            && number < u64_limit()) <==> (varint_bytes(ballot as nat) + domain).is_prefix_of(s),
{
    let form = varint_bytes(ballot as nat) + domain;
    if leader_of(s) == Some((ballot, domain)) {
        let (number, _) = varint_prefix(s)->0;
        if number < u64_limit() {
            varint_form_is_unique(s);
            assert(form =~= s.take(form.len() as int));
        }
    }
    if form.is_prefix_of(s) {
        let rest = s.skip(form.len() as int);
        assert(s =~= form + rest);
        leader_payload_reads_back(ballot, domain, rest);
        assert(s =~= varint_bytes(ballot as nat) + (domain + rest));
        varint_reads_back(ballot, domain + rest);
    }
}

/// The bytes of a vote, one by one: a zero, the ballot number, the length of the payload, and
/// the payload in its own order.
pub proof fn vote_frame_positions(ballot: u64, payload: Seq<u8>)
    ensures
        ({
            let s = vote_frame(ballot, payload);
            let number = varint_bytes(ballot as nat);
            let size = compact_size(payload.len());
            let head = 1 + number.len() + size.len();
            &&& s.len() == head + payload.len()
            &&& s[0] == 0
            &&& forall|i: int| 0 <= i < number.len() ==> s[1 + i] == #[trigger] number[i]
            &&& forall|i: int| 0 <= i < size.len() ==> s[1 + number.len() + i] == #[trigger] size[i]
            &&& forall|i: int| 0 <= i < payload.len() ==> s[head + i] == #[trigger] payload[i]
        }),
{
}

/// The text of a vote, digit by digit: those of the zero, of the ballot number, of the length
/// of the payload, and of the payload's bytes in their own order.
pub proof fn vote_text_digits(ballot: u64, payload: Seq<u8>)
    ensures
        ({
            let text = hex_text(vote_frame(ballot, payload));
            let number = varint_bytes(ballot as nat);
            let size = compact_size(payload.len());
            let head = 1 + number.len() + size.len();
            &&& text.len() == 2 * (head + payload.len())
            &&& text[0] == '0' && text[1] == '0'
            &&& forall|i: int|
                0 <= i < number.len() ==> {
                    &&& text[2 * (1 + i)] == "0123456789abcdef"@[#[trigger] number[i] as int / 16]
                    &&& text[2 * (1 + i) + 1] == "0123456789abcdef"@[number[i] as int % 16]
                }
            &&& forall|i: int|
                0 <= i < size.len() ==> {
                    &&& text[2 * (1 + number.len() + i)]
                        == "0123456789abcdef"@[#[trigger] size[i] as int / 16]
                    &&& text[2 * (1 + number.len() + i) + 1]
                        == "0123456789abcdef"@[size[i] as int % 16]
                }
            &&& forall|i: int|
                0 <= i < payload.len() ==> {
                    &&& text[2 * (head + i)]
                        == "0123456789abcdef"@[#[trigger] payload[i] as int / 16]
                    &&& text[2 * (head + i) + 1] == "0123456789abcdef"@[payload[i] as int % 16]
                }
        }),
{
    let s = vote_frame(ballot, payload);
    let number = varint_bytes(ballot as nat);
    let size = compact_size(payload.len());
    let head = 1 + number.len() + size.len();
    vote_frame_positions(ballot, payload);
    hex_text_digits(s);
    reveal_strlit("0123456789abcdef");
    assert(s[0] as int / 16 == 0);
    assert forall|i: int| 0 <= i < number.len() implies s[1 + i] == #[trigger] number[i] by {}
    assert forall|i: int| 0 <= i < size.len() implies s[1 + number.len() + i]
        == #[trigger] size[i] by {}
    assert forall|i: int| 0 <= i < payload.len() implies s[head + i] == #[trigger] payload[i] by {}
}

/// What bytes are read as, in every case: the byte that is refused, the number that is cut
/// short or carries, the length that is malformed or too large, the payload that is cut short,
/// and else the ballot number and the payload, whose bytes stand behind its length in order.
pub proof fn vote_read(s: Seq<u8>)
    ensures
        s.len() == 0 ==> vote_of_frame(s) == Err::<(u64, Seq<u8>), VoteError>(
            VoteError::UnexpectedEof,
        ),
        s.len() > 0 && s[0] != 0 ==> vote_of_frame(s) == Err::<(u64, Seq<u8>), VoteError>(
            VoteError::InvalidLeafType(s[0]),
        ),
        s.len() > 0 && s[0] == 0 && varint_overflows(s.skip(1)) ==> vote_of_frame(s) == Err::<
            (u64, Seq<u8>),
            VoteError,
        >(VoteError::BallotOverflow),
        s.len() > 0 && s[0] == 0 && !varint_overflows(s.skip(1)) ==> match varint_prefix(
            s.skip(1),
        ) {
            None => vote_of_frame(s) == Err::<(u64, Seq<u8>), VoteError>(VoteError::UnexpectedEof),
            Some((number, len)) => match compact_size_prefix(s.skip(1int + len)) {
                None => vote_of_frame(s) == Err::<(u64, Seq<u8>), VoteError>(
                    VoteError::InvalidPayloadLength,
                ),
                Some((size, read)) => {
                    let count = size as usize;
                    let head = 1int + len + read;
                    &&& count > isize::MAX ==> vote_of_frame(s) == Err::<(u64, Seq<u8>), VoteError>(
                        VoteError::PayloadTooLarge,
                    )
                    &&& count <= isize::MAX && head + count > s.len() ==> vote_of_frame(s) == Err::<
                        (u64, Seq<u8>),
                        VoteError,
                    >(VoteError::UnexpectedEof)
                    &&& count <= isize::MAX && head + count <= s.len() ==> {
                        &&& vote_of_frame(s) matches Ok((ballot, payload))
                        &&& ballot == number % 0x1_0000_0000_0000_0000
                        &&& payload.len() == count
                        &&& forall|i: int|
                            0 <= i < count ==> #[trigger] payload[i] == s[head + i]
                    }
                },
            },
        },
{
    if s.len() > 0 && s[0] == 0 && varint_prefix(s.skip(1)) is Some {
        varint_form_is_unique(s.skip(1));
        let (_, len) = varint_prefix(s.skip(1))->0;
        let tail = s.skip(1int + len);
        if compact_size_prefix(tail) is Some {
            let (size, read) = compact_size_prefix(tail)->0;
            assert(begins_with_size(tail, size));
        }
    }
}

/// A text is read as a vote by the bytes that it is the hexadecimal form of; what is no such
/// form is refused for that.
pub proof fn vote_text_is_its_bytes(text: Seq<char>)
    ensures
        match hex_decoded(encode_utf8(text)) {
            Ok(bytes) => vote_of_hex(text) == vote_of_frame(bytes),
            Err(error) => vote_of_hex(text) == Err::<(u64, Seq<u8>), VoteError>(
                VoteError::Hex(error),
            ),
        },
{
}

/// What a leader notice is read as: the ballot number, and the 32 bytes behind it in order;
/// nothing where either is cut short.
pub proof fn leader_read(s: Seq<u8>)
    ensures
        match varint_prefix(s) {
            None => leader_of(s) is None,
            Some((number, len)) => {
                &&& len + 32 > s.len() ==> leader_of(s) is None
                &&& len + 32 <= s.len() ==> {
                    &&& leader_of(s) matches Some((ballot, domain))
                    &&& ballot == number % 0x1_0000_0000_0000_0000
                    &&& domain.len() == 32
                    &&& forall|i: int| 0 <= i < 32 ==> #[trigger] domain[i] == s[len + i]
                }
            },
        },
{
}

} // verus!
