//! The length prefixes of the Bitcoin wire format.

use bitcoin::consensus::encode::VarInt;
use bitcoin::consensus::{Decodable, Encodable};
use vstd::prelude::*;

use crate::bytes::{
    le_bytes, le_bytes_of_2, le_bytes_of_4, le_bytes_of_8, le_bytes_read_back, le_limit,
};

verus! {

/// The form of `n`: one byte below 0xFD, else a tag and two, four or eight
/// little-endian bytes, as few as hold `n`.
pub open spec fn compact_size(n: nat) -> Seq<u8> {
    if n < 0xFD {
        seq![n as u8]
    } else if n <= 0xFFFF {
        seq![0xFDu8] + le_bytes(n, 2)
    } else if n <= 0xFFFF_FFFF {
        seq![0xFEu8] + le_bytes(n, 4)
    } else {
        seq![0xFFu8] + le_bytes(n, 8)
    }
}

/// Whether `s` begins with the form of `n`.
pub open spec fn begins_with_size(s: Seq<u8>, n: u64) -> bool {
    compact_size(n as nat).is_prefix_of(s)
}

/// The number whose form `s` begins with, and the length of that form; `None` where
/// there is no such number.
pub open spec fn compact_size_prefix(s: Seq<u8>) -> Option<(u64, nat)> {
    if exists|n: u64| begins_with_size(s, n) {
        let n = choose|n: u64| begins_with_size(s, n);
        Some((n, compact_size(n as nat).len()))
    } else {
        None
    }
}

/// `bitcoin::consensus::Encodable::consensus_encode` of a `VarInt`, into a new vector:
/// the shortest form of `n`.
#[verifier::external_body]
pub(crate) fn write_compact_size(n: u64) -> (bytes: Vec<u8>)
    ensures
        bytes@ == compact_size(n as nat),
{
    let mut bytes = Vec::new();
    VarInt(n).consensus_encode(&mut bytes).expect("writing to Vec cannot fail");
    bytes
}

/// `bitcoin::consensus::Decodable::consensus_decode` of a `VarInt`: the number whose
/// shortest form the input begins with and how many bytes were read, or nothing where
/// the input ends early or holds a form that is not the shortest.
#[verifier::external_body]
pub(crate) fn read_compact_size(input: &[u8]) -> (result: Option<(u64, u64)>)
    ensures
        match result {
            Some((n, read)) => begins_with_size(input@, n) && read == compact_size(n as nat).len(),
            None => forall|n: u64| !begins_with_size(input@, n),
        },
{
    let mut cursor = bitcoin::io::Cursor::new(input);
    match VarInt::consensus_decode(&mut cursor) {
        Ok(size) => Some((size.0, cursor.position())),
        Err(_) => None,
    }
}

pub(crate) proof fn lemma_compact_size_len(n: u64)
    ensures
        1 <= compact_size(n as nat).len() <= 9,
{
    reveal_with_fuel(le_limit, 9);
    if n < 0xFD {
    } else if n <= 0xFFFF {
        le_bytes_read_back(n as nat, 2);
    } else if n <= 0xFFFF_FFFF {
        le_bytes_read_back(n as nat, 4);
    } else {
        le_bytes_read_back(n as nat, 8);
    }
}

/// The number of little-endian bytes behind a tag.
spec fn tail_width(tag: u8) -> nat {
    if tag < 0xFD {
        0
    } else if tag == 0xFD {
        2
    } else if tag == 0xFE {
        4
    } else {
        8
    }
}

proof fn lemma_compact_size_tag(n: u64)
    ensures
        ({
            let form = compact_size(n as nat);
            let width = tail_width(form[0]);
            &&& form.len() == 1 + width
            &&& width == 0 ==> n == form[0]
            &&& width > 0 ==> n < le_limit(width) && form.skip(1) == le_bytes(n as nat, width)
        }),
{
    reveal_with_fuel(le_limit, 9);
    let form = compact_size(n as nat);
    if n < 0xFD {
    } else if n <= 0xFFFF {
        le_bytes_read_back(n as nat, 2);
        assert(form.skip(1) =~= le_bytes(n as nat, 2));
    } else if n <= 0xFFFF_FFFF {
        le_bytes_read_back(n as nat, 4);
        assert(form.skip(1) =~= le_bytes(n as nat, 4));
    } else {
        le_bytes_read_back(n as nat, 8);
        assert(form.skip(1) =~= le_bytes(n as nat, 8));
    }
}

/// No input begins with the forms of two numbers.
pub proof fn compact_size_is_unique(s: Seq<u8>, n: u64, m: u64)
    requires
        begins_with_size(s, n),
        begins_with_size(s, m),
    ensures
        n == m,
{
    lemma_compact_size_tag(n);
    lemma_compact_size_tag(m);
    let a = compact_size(n as nat);
    let b = compact_size(m as nat);
    assert(a[0] == s[0] && b[0] == s[0]);
    assert(a =~= s.take(a.len() as int));
    assert(b =~= s.take(b.len() as int));
    let width = tail_width(a[0]);
    if width > 0 {
        le_bytes_read_back(n as nat, width);
        le_bytes_read_back(m as nat, width);
    }
}

/// Whatever follows it, the form of a number is read back as that number.
pub proof fn compact_size_reads_back(n: u64, rest: Seq<u8>)
    ensures
        compact_size_prefix(compact_size(n as nat) + rest) == Some(
            (n, compact_size(n as nat).len()),
        ),
{
    let s = compact_size(n as nat) + rest;
    assert(begins_with_size(s, n));
    compact_size_is_unique(s, n, choose|m: u64| begins_with_size(s, m));
}

/// The form of a number, byte by byte.
pub proof fn compact_size_digits(n: u64)
    ensures
        n < 0xFD ==> compact_size(n as nat) == seq![n as u8],
        0xFD <= n <= 0xFFFF ==> compact_size(n as nat) == seq![
            0xFDu8,
            (n % 0x100) as u8,
            (n / 0x100) as u8,
        ],
        0xFFFF < n <= 0xFFFF_FFFF ==> compact_size(n as nat) == seq![
            0xFEu8,
            (n % 0x100) as u8,
            (n / 0x100 % 0x100) as u8,
            (n / 0x1_0000 % 0x100) as u8,
            (n / 0x100_0000) as u8,
        ],
        0xFFFF_FFFF < n ==> compact_size(n as nat) == seq![
            0xFFu8,
            (n % 0x100) as u8,
            (n / 0x100 % 0x100) as u8,
            (n / 0x1_0000 % 0x100) as u8,
            (n / 0x100_0000 % 0x100) as u8,
            (n / 0x1_0000_0000 % 0x100) as u8,
            (n / 0x100_0000_0000 % 0x100) as u8,
            (n / 0x1_0000_0000_0000 % 0x100) as u8,
            (n / 0x100_0000_0000_0000) as u8,
        ],
{
    if n <= 0xFFFF {
        le_bytes_of_2(n as u16);
    } else if n <= 0xFFFF_FFFF {
        le_bytes_of_4(n as u32);
    } else {
        le_bytes_of_8(n);
    }
}

/// A number is read exactly where the input begins with its form.
pub proof fn compact_size_reads(s: Seq<u8>, n: u64, len: nat)
    ensures
        compact_size_prefix(s) == Some((n, len)) <==> compact_size(n as nat).is_prefix_of(s) && len
            == compact_size(n as nat).len(),
        compact_size_prefix(s) is None ==> !compact_size(n as nat).is_prefix_of(s),
{
    if compact_size(n as nat).is_prefix_of(s) {
        assert(begins_with_size(s, n));
        compact_size_is_unique(s, n, choose|m: u64| begins_with_size(s, m));
    }
}

} // verus!
