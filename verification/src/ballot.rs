//! The file that keeps the number of the next ballot: eight little-endian bytes.

use vstd::prelude::*;

use crate::bytes::{
    le_bytes, le_bytes_of_8, le_bytes_read_back, le_limit, le_value, le_value_written_back,
};

verus! {

/// The number that a file holds: that of its first eight bytes. A file that is missing or
/// shorter stands for zero.
pub open spec fn ballot_in(contents: Option<Seq<u8>>) -> nat {
    match contents {
        Some(bytes) if bytes.len() >= 8 => le_value(bytes.take(8)),
        _ => 0,
    }
}

/// Reads the number from the contents of the file, `None` where it could not be read.
pub fn load_ballot_num(contents: Option<&[u8]>) -> (num: u64)
    ensures
        num == ballot_in(
            match contents {
                Some(bytes) => Some(bytes@),
                None => None,
            },
        ),
        match contents {
            Some(bytes) => {
                &&& bytes@.len() < 8 ==> num == 0
                &&& bytes@.len() >= 8 ==> num == bytes@[0] + 0x100 * bytes@[1] + 0x1_0000
                    * bytes@[2] + 0x100_0000 * bytes@[3] + 0x1_0000_0000 * bytes@[4]
                    + 0x100_0000_0000 * bytes@[5] + 0x1_0000_0000_0000 * bytes@[6]
                    + 0x100_0000_0000_0000 * bytes@[7]
            },
            None => num == 0,
        },
{
    let bytes = match contents {
        Some(bytes) => bytes,
        None => return 0,
    };
    if bytes.len() < 8 {
        return 0;
    }
    let ghost digits = bytes@.take(8);
    let mut num: u64 = 0;
    let mut i: usize = 8;
    proof {
        reveal_with_fuel(le_limit, 9);
        assert(digits.skip(8) =~= Seq::<u8>::empty());
    }
    while i > 0
        invariant
            i <= 8,
            bytes@.len() >= 8,
            digits == bytes@.take(8),
            num == le_value(digits.skip(i as int)),
        decreases i,
    {
        proof {
            reveal_with_fuel(le_limit, 9);
            assert(digits.skip(i - 1).drop_first() =~= digits.skip(i as int));
            le_value_written_back(digits.skip(i - 1));
        }
        i = i - 1;
        num = bytes[i] as u64 + 256 * num;
    }
    assert(digits.skip(0) =~= digits);
    proof {
        ballot_in_bytes(bytes@);
    }
    num
}

/// The contents of the file that keeps `num`.
pub fn ballot_num_bytes(num: u64) -> (bytes: Vec<u8>)
    ensures
        bytes@ == le_bytes(num as nat, 8),
        bytes@ == seq![
            (num % 0x100) as u8,
            (num / 0x100 % 0x100) as u8,
            (num / 0x1_0000 % 0x100) as u8,
            (num / 0x100_0000 % 0x100) as u8,
            (num / 0x1_0000_0000 % 0x100) as u8,
            (num / 0x100_0000_0000 % 0x100) as u8,
            (num / 0x1_0000_0000_0000 % 0x100) as u8,
            (num / 0x100_0000_0000_0000) as u8,
        ],
{
    let mut bytes: Vec<u8> = Vec::new();
    let mut rest: u64 = num;
    while bytes.len() < 8
        invariant
            bytes@.len() <= 8,
            le_bytes(num as nat, 8) == bytes@ + le_bytes(rest as nat, (8 - bytes@.len()) as nat),
        decreases 8 - bytes@.len(),
    {
        let ghost before = bytes@;
        let ghost tail = le_bytes((rest / 256) as nat, (7 - bytes@.len()) as nat);
        bytes.push((rest % 256) as u8);
        assert(bytes@ + tail =~= before + (seq![(rest % 256) as u8] + tail));
        rest = rest / 256;
    }
    assert(bytes@ + Seq::<u8>::empty() =~= bytes@);
    proof {
        le_bytes_of_8(num);
    }
    bytes
}

/// The number that was kept is the number that is found, whatever else the file holds.
pub proof fn ballot_num_reads_back(num: u64, rest: Seq<u8>)
    ensures
        ballot_in(Some(le_bytes(num as nat, 8) + rest)) == num,
{
    reveal_with_fuel(le_limit, 9);
    le_bytes_read_back(num as nat, 8);
    assert((le_bytes(num as nat, 8) + rest).take(8) =~= le_bytes(num as nat, 8));
}

/// The number that a file holds is told by its first eight bytes, the lowest first.
pub proof fn ballot_in_bytes(bytes: Seq<u8>)
    ensures
        bytes.len() >= 8 ==> ballot_in(Some(bytes)) == bytes[0] + 0x100 * bytes[1] + 0x1_0000
            * bytes[2] + 0x100_0000 * bytes[3] + 0x1_0000_0000 * bytes[4] + 0x100_0000_0000
            * bytes[5] + 0x1_0000_0000_0000 * bytes[6] + 0x100_0000_0000_0000 * bytes[7],
        bytes.len() < 8 ==> ballot_in(Some(bytes)) == 0,
        ballot_in(None) == 0,
{
    if bytes.len() >= 8 {
        let s = bytes.take(8);
        reveal_with_fuel(le_value, 9);
        assert(s.drop_first().drop_first().drop_first().drop_first().drop_first().drop_first()
            .drop_first().drop_first() =~= Seq::<u8>::empty());
    }
}

} // verus!
