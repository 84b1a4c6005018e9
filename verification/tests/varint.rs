use charter::{
    checked_decode_varint, decode_varint, encode_varint, ByteReader, UnexpectedEof, VarintError,
};

fn read(bytes: &[u8]) -> (Result<u64, VarintError>, Vec<u8>) {
    let mut reader = ByteReader::new(bytes);
    let result = checked_decode_varint(&mut reader);
    (result, reader.rest().to_vec())
}

#[test]
fn varint_known_forms() {
    assert_eq!(encode_varint(0), vec![0x00]);
    assert_eq!(encode_varint(1), vec![0x01]);
    assert_eq!(encode_varint(127), vec![0x7f]);
    assert_eq!(encode_varint(128), vec![0x80, 0x00]);
    assert_eq!(encode_varint(255), vec![0x80, 0x7f]);
    assert_eq!(encode_varint(256), vec![0x81, 0x00]);
    assert_eq!(encode_varint(16383), vec![0xfe, 0x7f]);
    assert_eq!(encode_varint(16384), vec![0xff, 0x00]);
    assert_eq!(encode_varint(16511), vec![0xff, 0x7f]);
    assert_eq!(encode_varint(16512), vec![0x80, 0x80, 0x00]);
    assert_eq!(encode_varint(65535), vec![0x82, 0xfe, 0x7f]);
    assert_eq!(encode_varint(1 << 32), vec![0x8e, 0xfe, 0xfe, 0xff, 0x00]);
    assert_eq!(
        encode_varint(u64::MAX),
        vec![0x80, 0xfe, 0xfe, 0xfe, 0xfe, 0xfe, 0xfe, 0xfe, 0xfe, 0x7f]
    );
}

#[test]
fn varint_reads_back_with_rest() {
    for n in [0, 1, 127, 128, 255, 16511, 16512, 1 << 40, u64::MAX - 1, u64::MAX] {
        let mut bytes = encode_varint(n);
        bytes.extend([9, 8]);
        let mut reader = ByteReader::new(&bytes);
        assert_eq!(decode_varint(&mut reader), Ok(n));
        assert_eq!(reader.rest(), &[9, 8]);
    }
}

#[test]
fn varint_form_is_the_only_one() {
    for a in 0..=255u8 {
        for b in 0..128u8 {
            let bytes = if a < 128 { vec![a] } else { vec![a, b] };
            let mut reader = ByteReader::new(&bytes);
            let n = decode_varint(&mut reader).unwrap();
            assert_eq!(encode_varint(n), bytes);
        }
    }
}

#[test]
fn varint_length_bounds() {
    assert_eq!(encode_varint(0).len(), 1);
    assert_eq!(encode_varint(u64::MAX).len(), 10);
}

#[test]
fn varint_cut_short() {
    let mut reader = ByteReader::new(&[]);
    assert_eq!(decode_varint(&mut reader), Err(UnexpectedEof));
    let mut reader = ByteReader::new(&[0x80, 0xff]);
    assert_eq!(decode_varint(&mut reader), Err(UnexpectedEof));
    assert_eq!(reader.rest().len(), 0);
}

#[test]
fn varint_wraps_past_64_bits() {
    // One more than the largest number: the high bits are shifted out.
    let bytes = [0x80, 0xfe, 0xfe, 0xfe, 0xfe, 0xfe, 0xfe, 0xfe, 0xff, 0x00];
    assert_eq!(read(&bytes), (Ok(0), vec![]));
    let bytes = [0x80, 0xfe, 0xfe, 0xfe, 0xfe, 0xfe, 0xfe, 0xfe, 0xff, 0x05, 0x06];
    assert_eq!(read(&bytes), (Ok(5), vec![6]));
}

#[test]
fn varint_overflow_is_told() {
    let bytes = [0x80, 0xfe, 0xfe, 0xfe, 0xfe, 0xfe, 0xfe, 0xfe, 0xfe, 0xff, 0x00];
    let (result, rest) = read(&bytes);
    assert_eq!(result, Err(VarintError::Overflow));
    assert_eq!(rest, bytes);
}

#[test]
fn reader_reads_and_refuses() {
    let mut reader = ByteReader::new(&[1, 2, 3]);
    assert_eq!(reader.read_exact(2), Ok(vec![1, 2]));
    assert_eq!(reader.read_exact(2), Err(UnexpectedEof));
    assert_eq!(reader.rest(), &[3]);
    reader.advance(1);
    assert_eq!(reader.read_exact(0), Ok(vec![]));
}
