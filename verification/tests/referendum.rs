use charter::{
    char_hash_preimage, checked_decode_leader_payload, checked_decode_referendum_vote_hex,
    decode_leader_payload, decode_referendum_vote_hex, decode_vote_frame, domain_to_char_hash,
    encode_referendum_vote, encode_varint, HexError, UnexpectedEof, VarintError, VoteError,
};

#[test]
fn vote_known_forms() {
    assert_eq!(encode_referendum_vote(0, &[]), "000000");
    assert_eq!(encode_referendum_vote(5, &[0xAB, 0x01]), "000502ab01");
    assert_eq!(encode_referendum_vote(128, b"[]"), "008000025b5d");
}

#[test]
fn vote_length_forms() {
    let prefix = |len: usize| encode_referendum_vote(1, &vec![7u8; len])[4..].to_string();
    assert!(prefix(252).starts_with("fc0707"));
    assert!(prefix(253).starts_with("fdfd000707"));
    assert!(prefix(65535).starts_with("fdffff0707"));
    assert!(prefix(65536).starts_with("fe000001000707"));
}

#[test]
fn vote_reads_back() {
    for ballot in [0, 127, 128, 16512, u64::MAX] {
        for len in [0usize, 1, 252, 253, 300, 65535, 65536] {
            let payload = vec![0x5a; len];
            let text = encode_referendum_vote(ballot, &payload);
            assert_eq!(decode_referendum_vote_hex(&text), Ok((ballot, payload.clone())));
            let upper = text.to_uppercase();
            assert_eq!(decode_referendum_vote_hex(&upper), Ok((ballot, payload.clone())));
            for rest in ["00", "fF", "0123456789abcdefABCDEF"] {
                let longer = format!("{text}{rest}");
                assert_eq!(decode_referendum_vote_hex(&longer), Ok((ballot, payload.clone())));
            }
        }
    }
}

#[test]
fn vote_ignores_what_follows() {
    assert_eq!(decode_referendum_vote_hex("000502ab01ffff"), Ok((5, vec![0xab, 0x01])));
    assert_eq!(decode_referendum_vote_hex("000502AB01fF"), Ok((5, vec![0xab, 0x01])));
    assert_eq!(decode_vote_frame(&[0, 5, 2, 0xab, 1, 0xff]), Ok((5, vec![0xab, 1])));
}

#[test]
fn vote_has_one_text() {
    // Whatever is read without wrapping begins with what is written for it.
    for text in ["000000", "000502ab01", "00800001FFee", "00807F03010203ffff"] {
        let (ballot, payload) = decode_referendum_vote_hex(text).unwrap();
        assert!(text.to_lowercase().starts_with(&encode_referendum_vote(ballot, &payload)));
    }
    // A ballot number of more than 64 bits wraps, and has another text.
    let text = "0080fefefefefefefeff0500";
    assert_eq!(decode_referendum_vote_hex(text), Ok((5, vec![])));
    assert_eq!(encode_referendum_vote(5, &[]), "000500");
}

#[test]
fn vote_error_messages() {
    let message = |text: &str| checked_decode_referendum_vote_hex(text).unwrap_err().message();
    assert_eq!(message("010000"), "Invalid LeafType: expected 0x00, got 0x01");
    assert_eq!(message("fa"), "Invalid LeafType: expected 0x00, got 0xfa");
    assert_eq!(message(""), "failed to fill whole buffer");
    assert_eq!(message("000"), "Odd number of digits");
    assert_eq!(message("00g0"), "Invalid character 'g' at position 2");
    assert_eq!(message("000000000000 0"), "Invalid character ' ' at position 12");
    assert_eq!(message("0\n"), "Invalid character '\\n' at position 1");
    assert_eq!(message("0005"), "invalid payload length");
    assert_eq!(message("0005ffffffffffffffffff"), "capacity overflow");
    assert_eq!(message("0080fefefefefefefefeff0000"), "attempt to add with overflow");
    assert_eq!(HexError::InvalidStringLength.message(), "Invalid string length");
    assert_eq!(domain_to_char_hash("0").unwrap_err().message(), "Odd number of digits");
}

#[test]
fn leader_error_messages() {
    let message = |bytes: &[u8]| checked_decode_leader_payload(bytes).unwrap_err().message();
    assert_eq!(message(&[5]), "failed to fill whole buffer");
    assert_eq!(UnexpectedEof.message(), "failed to fill whole buffer");
    let bytes = [0x80, 0xfe, 0xfe, 0xfe, 0xfe, 0xfe, 0xfe, 0xfe, 0xfe, 0xff, 0x00];
    assert_eq!(message(&bytes), "attempt to add with overflow");
}

#[test]
fn vote_hex_errors() {
    assert_eq!(
        decode_referendum_vote_hex("000"),
        Err(VoteError::Hex(HexError::OddLength))
    );
    assert_eq!(
        decode_referendum_vote_hex("00g0"),
        Err(VoteError::Hex(HexError::InvalidHexCharacter { c: 'g', index: 2 }))
    );
    // The index counts bytes of the text, and the character is that of one byte.
    assert_eq!(
        decode_referendum_vote_hex("0é1"),
        Err(VoteError::Hex(HexError::InvalidHexCharacter { c: '\u{c3}', index: 1 }))
    );
}

#[test]
fn vote_format_errors() {
    assert_eq!(decode_referendum_vote_hex(""), Err(VoteError::UnexpectedEof));
    assert_eq!(decode_referendum_vote_hex("01"), Err(VoteError::InvalidLeafType(1)));
    assert_eq!(decode_referendum_vote_hex("ff0500"), Err(VoteError::InvalidLeafType(0xff)));
    assert_eq!(decode_referendum_vote_hex("00"), Err(VoteError::UnexpectedEof));
    assert_eq!(decode_referendum_vote_hex("0080"), Err(VoteError::UnexpectedEof));
    assert_eq!(decode_referendum_vote_hex("000502ab"), Err(VoteError::UnexpectedEof));
    assert_eq!(decode_referendum_vote_hex("0005fdffff00"), Err(VoteError::UnexpectedEof));
}

#[test]
fn vote_fatal_errors() {
    // No length at all, a length cut short, and one that is not in its shortest form.
    for text in ["0005", "0005fd01", "0005fdfc00", "0005feffff0000", "0005ffffffffff00000000"] {
        assert_eq!(
            checked_decode_referendum_vote_hex(text),
            Err(VoteError::InvalidPayloadLength)
        );
    }
    assert_eq!(
        checked_decode_referendum_vote_hex("0005ffffffffffffffffff"),
        Err(VoteError::PayloadTooLarge)
    );
    assert_eq!(
        checked_decode_referendum_vote_hex("0080fefefefefefefefeff0000"),
        Err(VoteError::BallotOverflow)
    );
}

#[test]
fn leader_payload_reads_back() {
    let domain = [0x11u8; 32];
    for ballot in [0, 300, u64::MAX] {
        let mut payload = encode_varint(ballot);
        payload.extend(domain);
        assert_eq!(decode_leader_payload(&payload), Ok((ballot, domain)));
        payload.push(0);
        assert_eq!(decode_leader_payload(&payload), Ok((ballot, domain)));
    }
    let mut counted = vec![2u8];
    counted.extend(0..32u8);
    let (ballot, domain) = decode_leader_payload(&counted).unwrap();
    assert_eq!((ballot, domain[0], domain[31]), (2, 0, 31));
}

#[test]
fn leader_payload_errors() {
    assert_eq!(decode_leader_payload(&[]), Err(UnexpectedEof));
    assert_eq!(decode_leader_payload(&[0x80]), Err(UnexpectedEof));
    let short = [1u8; 32];
    assert_eq!(decode_leader_payload(&short), Err(UnexpectedEof));
    let mut long = vec![0x80, 0xfe, 0xfe, 0xfe, 0xfe, 0xfe, 0xfe, 0xfe, 0xfe, 0xff, 0x00];
    long.extend([0u8; 32]);
    assert_eq!(checked_decode_leader_payload(&long), Err(VarintError::Overflow));
}

#[test]
fn domain_hash_values() {
    assert_eq!(char_hash_preimage(&[0xaa, 0xbb, 0xcc]), vec![3, 0xaa, 0xbb, 0xcc]);
    let hash = domain_to_char_hash("AAbbcc").unwrap();
    assert_eq!(
        hex::encode(hash),
        "bd4ccef40c792f78667e852ae701fd355152371e04355be7a5c2424585eda82f"
    );
    let hash = domain_to_char_hash(&"07".repeat(256)).unwrap();
    assert_eq!(
        hex::encode(hash),
        "01ff6b898c4180ff45cec64f2cc73bee6818dbdc9b99e6db07404b3a575beede"
    );
}

#[test]
fn domain_hash_errors() {
    assert_eq!(domain_to_char_hash("abc"), Err(HexError::OddLength));
    assert_eq!(
        domain_to_char_hash("zz"),
        Err(HexError::InvalidHexCharacter { c: 'z', index: 0 })
    );
}
