//! Reading byte strings front to back, and little-endian numbers.

use vstd::prelude::*;
use vstd::slice::slice_subrange;

verus! {

/// The input ended before the bytes that were asked for.
#[derive(Debug, Clone, Copy, PartialEq, Eq, Structural)]
pub struct UnexpectedEof;

impl UnexpectedEof {
    /// What the error says.
    pub fn message(&self) -> (text: String)
        ensures
            text@ == "failed to fill whole buffer"@,
    {
        "failed to fill whole buffer".to_owned()
    }
}

/// A position in a byte string. Its view is the part that is still unread.
pub struct ByteReader<'a> {
    bytes: &'a [u8],
    pos: usize,
}

impl<'a> View for ByteReader<'a> {
    type V = Seq<u8>;

    closed spec fn view(&self) -> Seq<u8> {
        self.bytes@.skip(self.pos as int)
    }
}

impl<'a> ByteReader<'a> {
    #[verifier::type_invariant]
    spec fn in_bounds(self) -> bool {
        self.pos <= self.bytes@.len()
    }

    /// A reader at the start of `bytes`.
    pub fn new(bytes: &'a [u8]) -> (reader: ByteReader<'a>)
        ensures
            reader@ == bytes@,
    {
        assert(bytes@.skip(0) =~= bytes@);
        ByteReader { bytes, pos: 0 }
    }

    /// The bytes that are still unread.
    pub fn rest(&self) -> (rest: &'a [u8])
        ensures
            rest@ == self@,
    {
        proof {
            use_type_invariant(self);
        }
        let rest = slice_subrange(self.bytes, self.pos, self.bytes.len());
        assert(rest@ =~= self@);
        rest
    }

    /// Passes over `count` bytes.
    pub fn advance(&mut self, count: usize)
        requires
            count <= old(self)@.len(),
        ensures
            final(self)@ == old(self)@.skip(count as int),
    {
        proof {
            use_type_invariant(&*self);
        }
        let ghost before = self@;
        assert(count <= self.bytes.len() - self.pos);
        self.pos = self.pos + count;
        assert(self@ =~= before.skip(count as int));
    }

    /// Reads the next `count` bytes; where fewer are left nothing is read.
    pub fn read_exact(&mut self, count: usize) -> (result: Result<Vec<u8>, UnexpectedEof>)
        ensures
            match result {
                Ok(read) => {
                    &&& count <= old(self)@.len()
                    &&& read@ == old(self)@.take(count as int)
                    &&& final(self)@ == old(self)@.skip(count as int)
                },
                Err(_) => count > old(self)@.len() && final(self)@ == old(self)@,
            },
    {
        let rest = self.rest();
        if rest.len() < count {
            return Err(UnexpectedEof);
        }
        let mut read: Vec<u8> = Vec::new();
        read.extend_from_slice(slice_subrange(rest, 0, count));
        assert(read@ =~= self@.take(count as int));
        self.advance(count);
        Ok(read)
    }
}

/// The number whose little-endian digits, base 256, are `bytes`.
pub open spec fn le_value(bytes: Seq<u8>) -> nat
    decreases bytes.len(),
{
    if bytes.len() == 0 {
        0
    } else {
        bytes[0] as nat + 256 * le_value(bytes.drop_first())
    }
}

/// The last `width` little-endian digits, base 256, of `n`.
pub open spec fn le_bytes(n: nat, width: nat) -> Seq<u8>
    decreases width,
{
    if width == 0 {
        Seq::empty()
    } else {
        seq![(n % 256) as u8] + le_bytes(n / 256, (width - 1) as nat)
    }
}

/// The largest number below which all have `width` digits, base 256.
pub open spec fn le_limit(width: nat) -> nat
    decreases width,
{
    if width == 0 {
        1
    } else {
        256 * le_limit((width - 1) as nat)
    }
}

/// Little-endian digits of the given width stand for the number they were taken of,
/// for every number that has no more digits.
pub proof fn le_bytes_read_back(n: nat, width: nat)
    requires
        n < le_limit(width),
    ensures
        le_bytes(n, width).len() == width,
        le_value(le_bytes(n, width)) == n,
    decreases width,
{
    if width > 0 {
        le_bytes_read_back(n / 256, (width - 1) as nat);
        assert(le_bytes(n, width).drop_first() =~= le_bytes(n / 256, (width - 1) as nat));
    }
}

/// A byte string is the little-endian form of the number that it stands for.
pub proof fn le_value_written_back(bytes: Seq<u8>)
    ensures
        le_value(bytes) < le_limit(bytes.len()),
        le_bytes(le_value(bytes), bytes.len()) == bytes,
    decreases bytes.len(),
{
    if bytes.len() > 0 {
        le_value_written_back(bytes.drop_first());
        assert(bytes =~= seq![bytes[0]] + bytes.drop_first());
    } else {
        assert(bytes =~= Seq::empty());
    }
}

/// The two little-endian digits of a number.
pub proof fn le_bytes_of_2(n: u16)
    ensures
        le_bytes(n as nat, 2) == seq![(n % 0x100) as u8, (n / 0x100) as u8],
{
    reveal_with_fuel(le_bytes, 3);
    assert(le_bytes(n as nat, 2) =~= seq![(n % 0x100) as u8, (n / 0x100) as u8]);
}

/// The four little-endian digits of a number.
pub proof fn le_bytes_of_4(n: u32)
    ensures
        le_bytes(n as nat, 4) == seq![
            (n % 0x100) as u8,
            (n / 0x100 % 0x100) as u8,
            (n / 0x1_0000 % 0x100) as u8,
            (n / 0x100_0000) as u8,
        ],
{
    reveal_with_fuel(le_bytes, 5);
    assert(le_bytes(n as nat, 4) =~= seq![
        (n % 0x100) as u8,
        (n / 0x100 % 0x100) as u8,
        (n / 0x1_0000 % 0x100) as u8,
        (n / 0x100_0000) as u8,
    ]);
}

/// The eight little-endian digits of a number.
pub proof fn le_bytes_of_8(n: u64)
    ensures
        le_bytes(n as nat, 8) == seq![
            (n % 0x100) as u8,
            (n / 0x100 % 0x100) as u8,
            (n / 0x1_0000 % 0x100) as u8,
            (n / 0x100_0000 % 0x100) as u8,
            (n / 0x1_0000_0000 % 0x100) as u8,
            (n / 0x100_0000_0000 % 0x100) as u8,
            (n / 0x1_0000_0000_0000 % 0x100) as u8,
            (n / 0x100_0000_0000_0000) as u8,
        ],
{
    reveal_with_fuel(le_bytes, 9);
    assert(le_bytes(n as nat, 8) =~= seq![
        (n % 0x100) as u8,
        (n / 0x100 % 0x100) as u8,
        (n / 0x1_0000 % 0x100) as u8,
        (n / 0x100_0000 % 0x100) as u8,
        (n / 0x1_0000_0000 % 0x100) as u8,
        (n / 0x100_0000_0000 % 0x100) as u8,
        (n / 0x1_0000_0000_0000 % 0x100) as u8,
        (n / 0x100_0000_0000_0000) as u8,
    ]);
}

} // verus!
