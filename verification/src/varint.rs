//! The base-128 numbers of the vote format: big-endian groups of seven bits,
//! the high bit set on all groups but the last, and one added to each group
//! that others follow. Every number has exactly one form.

use vstd::prelude::*;

use crate::bytes::{ByteReader, UnexpectedEof};

verus! {

/// One more than the largest `u64`.
pub open spec fn u64_limit() -> nat {
    0x1_0000_0000_0000_0000
}

/// The groups of `n`; `more` says whether another group follows the last of them.
pub open spec fn varint_groups(n: nat, more: bool) -> Seq<u8>
    decreases n,
{
    let last = (n % 128 + if more { 128nat } else { 0 }) as u8;
    if n < 128 {
        seq![last]
    } else {
        varint_groups((n / 128 - 1) as nat, true).push(last)
    }
}

/// The form of `n`.
pub open spec fn varint_bytes(n: nat) -> Seq<u8> {
    varint_groups(n, false)
}

/// How many groups with the high bit set `s` begins with.
pub open spec fn continuation_run(s: Seq<u8>) -> nat
    decreases s.len(),
{
    if s.len() > 0 && s[0] >= 128 {
        1 + continuation_run(s.drop_first())
    } else {
        0
    }
}

/// What groups that others follow stand for.
pub open spec fn continuation_value(s: Seq<u8>) -> nat
    decreases s.len(),
{
    if s.len() == 0 {
        0
    } else {
        128 * continuation_value(s.drop_last()) + s.last() as nat % 128 + 1
    }
}

/// The number that `s` begins with, whatever its size, and the length of its form;
/// `None` where the last group is missing.
pub open spec fn varint_prefix(s: Seq<u8>) -> Option<(nat, nat)> {
    let run = continuation_run(s);
    if run < s.len() {
        Some((128 * continuation_value(s.take(run as int)) + s[run as int] as nat, run + 1))
    } else {
        None
    }
}

/// Whether adding one to some group that others follow carries out of 64 bits.
pub open spec fn varint_overflows(s: Seq<u8>) -> bool {
    exists|i: int|
        0 < i <= continuation_run(s) && #[trigger] continuation_value(s.take(i)) % u64_limit() == 0
}

/// Why no number could be read.
#[derive(Debug, Clone, Copy, PartialEq, Eq, Structural)]
pub enum VarintError {
    /// The input ended before the last group.
    UnexpectedEof,
    /// Adding one to a group carried out of 64 bits.
    Overflow,
}

/// What an error says.
pub open spec fn varint_error_text(error: VarintError) -> Seq<char> {
    match error {
        VarintError::UnexpectedEof => "failed to fill whole buffer"@,
        VarintError::Overflow => "attempt to add with overflow"@,
    }
}

impl VarintError {
    /// What the error says.
    pub fn message(&self) -> (text: String)
        ensures
            text@ == varint_error_text(*self),
            *self is UnexpectedEof ==> text@ == "failed to fill whole buffer"@,
            *self is Overflow ==> text@ == "attempt to add with overflow"@,
    {
        match self {
            VarintError::UnexpectedEof => UnexpectedEof.message(),
            VarintError::Overflow => "attempt to add with overflow".to_owned(),
        }
    }
}

/// Writes `n` in its one form.
pub fn encode_varint(n: u64) -> (bytes: Vec<u8>)
    ensures
        bytes@ == varint_bytes(n as nat),
{
    let mut rest: u64 = n;
    let mut tmp: Vec<u8> = Vec::new();
    let mut last: u8 = (rest % 128) as u8;
    assert(varint_bytes(n as nat) =~= varint_groups(rest as nat, false) + tmp@.reverse());
    while rest > 0x7f
        invariant
            last == rest % 128 + if tmp@.len() > 0 {
                128int
            } else {
                0
            },
            varint_bytes(n as nat) == varint_groups(rest as nat, tmp@.len() > 0) + tmp@.reverse(),
        decreases rest,
    {
        let ghost groups = varint_groups((rest / 128 - 1) as nat, true);
        let ghost before = tmp@;
        tmp.push(last);
        rest = rest / 128 - 1;
        last = 0x80 + (rest % 128) as u8;
        assert(groups.push(before.push(last).last()) =~= groups.push(last));
        assert(groups.push(tmp@.last()) + before.reverse() =~= groups + tmp@.reverse());
    }
    tmp.push(last);
    assert(varint_bytes(n as nat) =~= tmp@.reverse());
    let mut bytes: Vec<u8> = Vec::new();
    let ghost all = tmp@;
    while tmp.len() > 0
        invariant
            all.reverse() =~= bytes@ + tmp@.reverse(),
        decreases tmp@.len(),
    {
        let ghost before = tmp@;
        if let Some(byte) = tmp.pop() {
            bytes.push(byte);
            assert(before.reverse() =~= seq![byte] + tmp@.reverse());
        }
    }
    bytes
}

/// Reads a number modulo 2^64, unless adding one to a group carries out of 64 bits.
/// Where the last group is missing all of the input is read; on an overflow nothing is.
pub fn checked_decode_varint(reader: &mut ByteReader) -> (result: Result<u64, VarintError>)
    ensures
        result == Err::<u64, VarintError>(VarintError::Overflow) <==> varint_overflows(
            old(reader)@,
        ),
        match result {
            Ok(n) => {
                &&& varint_prefix(old(reader)@) matches Some((value, len))
                &&& n == value % u64_limit()
                &&& n == value % 0x1_0000_0000_0000_0000
                &&& final(reader)@ == old(reader)@.skip(len as int)
            },
            Err(VarintError::UnexpectedEof) => {
                &&& varint_prefix(old(reader)@) is None
                &&& final(reader)@ == Seq::<u8>::empty()
            },
            Err(VarintError::Overflow) => final(reader)@ == old(reader)@,
        },
{
    let input = reader.rest();
    let ghost s = input@;
    let mut n: u64 = 0;
    let mut i: usize = 0;
    assert(s.take(0) =~= Seq::<u8>::empty());
    assert(s.skip(0) =~= s);
    while i < input.len()
        invariant
            input@ == s,
            reader@ == s,
            s == old(reader)@,
            0 <= i <= s.len(),
            continuation_run(s) == i + continuation_run(s.skip(i as int)),
            n == continuation_value(s.take(i as int)) % u64_limit(),
            forall|j: int|
                0 < j <= i ==> #[trigger] continuation_value(s.take(j)) % u64_limit() != 0,
        decreases input.len() - i,
    {
        let group = input[i];
        let ghost high = continuation_value(s.take(i as int));
        let shifted: u64 = n % 0x0200_0000_0000_0000 * 0x80;
        proof {
            lemma_shifted(high, n, shifted, group);
            assert(s.skip(i as int).drop_first() =~= s.skip(i + 1));
            assert(s.take(i + 1).drop_last() =~= s.take(i as int));
        }
        if group < 0x80 {
            reader.advance(i + 1);
            proof {
                assert(varint_prefix(s) == Some((128 * high + group as nat, (i + 1) as nat)));
                assert(!varint_overflows(s));
            }
            return Ok(shifted + group as u64);
        }
        let low: u64 = shifted + (group % 0x80) as u64;
        if low == u64::MAX {
            proof {
                assert(continuation_value(s.take(i + 1)) % u64_limit() == 0);
            }
            return Err(VarintError::Overflow);
        }
        n = low + 1;
        i = i + 1;
    }
    reader.advance(i);
    assert(s.skip(i as int) =~= Seq::<u8>::empty());
    Err(VarintError::UnexpectedEof)
}

/// Reads a number modulo 2^64. Where the last group is missing all of the input is read.
pub fn decode_varint(reader: &mut ByteReader) -> (result: Result<u64, UnexpectedEof>)
    requires
        !varint_overflows(old(reader)@),
    ensures
        match result {
            Ok(n) => {
                &&& varint_prefix(old(reader)@) matches Some((value, len))
                &&& n == value % u64_limit()
                &&& n == value % 0x1_0000_0000_0000_0000
                &&& final(reader)@ == old(reader)@.skip(len as int)
            },
            Err(_) => {
                &&& varint_prefix(old(reader)@) is None
                &&& final(reader)@ == Seq::<u8>::empty()
            },
        },
{
    match checked_decode_varint(reader) {
        Ok(n) => Ok(n),
        Err(_) => Err(UnexpectedEof),
    }
}

proof fn lemma_shifted(high: nat, n: u64, shifted: u64, group: u8)
    requires
        n == high % u64_limit(),
        shifted == n % 0x0200_0000_0000_0000 * 0x80,
    ensures
        shifted + group % 128 < u64_limit(),
        (128 * high + group as nat % 128) % u64_limit() == shifted + group % 128,
        (128 * high + group as nat % 128 + 1) % u64_limit() == if shifted + group % 128
            == u64::MAX {
            0
        } else {
            shifted + group % 128 + 1
        },
{
    let k = high / u64_limit();
    let q = n / 0x0200_0000_0000_0000;
    assert(128 * high + group as nat % 128 == (128 * k + q) * u64_limit() + shifted + group % 128);
}

/// The groups of a number that others follow stand for one more than it.
proof fn lemma_groups(n: nat)
    ensures
        varint_groups(n, true).len() > 0,
        forall|i: int| 0 <= i < varint_groups(n, true).len() ==> varint_groups(n, true)[i] >= 128,
        continuation_value(varint_groups(n, true)) == n + 1,
    decreases n,
{
    let s = varint_groups(n, true);
    assert(s.last() as nat % 128 == n % 128);
    if n < 128 {
        assert(s.drop_last() =~= Seq::<u8>::empty());
        assert(continuation_value(s.drop_last()) == 0);
    } else {
        lemma_groups((n / 128 - 1) as nat);
        assert(s.drop_last() =~= varint_groups((n / 128 - 1) as nat, true));
    }
}

proof fn lemma_run(s: Seq<u8>, run: nat)
    requires
        run <= s.len(),
        forall|i: int| 0 <= i < run ==> s[i] >= 128,
        run < s.len() ==> s[run as int] < 128,
    ensures
        continuation_run(s) == run,
    decreases s.len(),
{
    if run > 0 {
        lemma_run(s.drop_first(), (run - 1) as nat);
    }
}

proof fn lemma_run_bytes(s: Seq<u8>)
    ensures
        continuation_run(s) <= s.len(),
        forall|i: int| 0 <= i < continuation_run(s) ==> s[i] >= 128,
        continuation_run(s) < s.len() ==> s[continuation_run(s) as int] < 128,
    decreases s.len(),
{
    if s.len() > 0 && s[0] >= 128 {
        lemma_run_bytes(s.drop_first());
        assert forall|i: int| 0 <= i < continuation_run(s) implies s[i] >= 128 by {
            if i > 0 {
                assert(s.drop_first()[i - 1] == s[i]);
            }
        }
    }
}

proof fn lemma_continuation_grows(s: Seq<u8>, i: int, j: int)
    requires
        0 < i <= j <= s.len(),
    ensures
        0 < continuation_value(s.take(i)) <= continuation_value(s.take(j)),
    decreases j - i,
{
    if i < j {
        lemma_continuation_grows(s, i, j - 1);
        assert(s.take(j).drop_last() =~= s.take(j - 1));
    }
}

/// A form whose number fits in 64 bits is read without an overflow.
pub proof fn fitting_varint_reads(s: Seq<u8>)
    requires
        varint_prefix(s) matches Some((value, _)) && value < u64_limit(),
    ensures
        !varint_overflows(s),
{
    let run = continuation_run(s);
    assert forall|i: int| 0 < i <= run implies #[trigger] continuation_value(s.take(i))
        % u64_limit() != 0 by {
        lemma_continuation_grows(s, i, run as int);
    }
}

/// Whatever follows it, the form of a number is read back as that number.
pub proof fn varint_reads_back(n: u64, rest: Seq<u8>)
    ensures
        varint_prefix(varint_bytes(n as nat) + rest) == Some(
            (n as nat, varint_bytes(n as nat).len()),
        ),
        !varint_overflows(varint_bytes(n as nat) + rest),
{
    let form = varint_bytes(n as nat);
    let s = form + rest;
    let high = form.drop_last();
    if n >= 128 {
        lemma_groups((n / 128 - 1) as nat);
        assert(high =~= varint_groups((n / 128 - 1) as nat, true));
    } else {
        assert(high =~= Seq::<u8>::empty());
    }
    lemma_run(s, high.len());
    assert(s.take(high.len() as int) =~= high);
    fitting_varint_reads(s);
}

proof fn lemma_groups_of_value(s: Seq<u8>)
    requires
        s.len() > 0,
        forall|i: int| 0 <= i < s.len() ==> s[i] >= 128,
    ensures
        continuation_value(s) > 0,
        varint_groups((continuation_value(s) - 1) as nat, true) == s,
    decreases s.len(),
{
    let high = s.drop_last();
    if high.len() > 0 {
        lemma_groups_of_value(high);
    } else {
        assert(high =~= Seq::<u8>::empty());
    }
    assert(s =~= high.push(s.last()));
    let n = (continuation_value(s) - 1) as nat;
    assert(n == 128 * continuation_value(high) + s.last() as nat % 128);
    assert(n % 128 + 128 == s.last());
    if high.len() > 0 {
        assert(n / 128 == continuation_value(high));
    } else {
        assert(s =~= seq![s.last()]);
    }
}

/// The bytes that a number was read from are its one form.
pub proof fn varint_form_is_unique(s: Seq<u8>)
    requires
        varint_prefix(s) is Some,
    ensures
        ({
            let (value, len) = varint_prefix(s)->0;
            len <= s.len() && varint_bytes(value) == s.take(len as int)
        }),
{
    let (value, len) = varint_prefix(s)->0;
    let run = continuation_run(s);
    let high = s.take(run as int);
    lemma_run_bytes(s);
    assert(s.take(len as int) =~= high.push(s[run as int]));
    if run > 0 {
        lemma_groups_of_value(high);
        assert(value / 128 == continuation_value(high));
        assert(value % 128 == s[run as int]);
    } else {
        assert(high =~= Seq::<u8>::empty());
        assert(s.take(1) =~= seq![s[0]]);
    }
}

proof fn lemma_groups_len(n: nat, more: bool, limit: nat, bound: nat)
    requires
        bound > 0,
        n < 128 * limit,
        bound == 1 ==> limit <= 1,
        bound > 1 ==> limit <= group_limit((bound - 1) as nat),
    ensures
        1 <= varint_groups(n, more).len() <= bound,
    decreases bound,
{
    if n >= 128 {
        lemma_groups_len(
            (n / 128 - 1) as nat,
            true,
            group_limit((bound - 2) as nat),
            (bound - 1) as nat,
        );
    }
}

spec fn group_limit(groups: nat) -> nat
    decreases groups,
{
    if groups == 0 {
        1
    } else {
        128 * group_limit((groups - 1) as nat)
    }
}

/// A number of 64 bits takes one to ten bytes.
pub proof fn varint_len(n: u64)
    ensures
        1 <= varint_bytes(n as nat).len() <= 10,
{
    reveal_with_fuel(group_limit, 10);
    lemma_groups_len(n as nat, false, group_limit(9), 10);
}

/// How a number is written: one below 128 as itself, and any other as one less than its
/// quotient by 128 is, with the high bit of the last group set, and then its remainder.
pub proof fn varint_written(n: nat)
    ensures
        n < 128 ==> varint_bytes(n) == seq![n as u8],
        n >= 128 ==> {
            let high = varint_bytes((n / 128 - 1) as nat);
            &&& high.len() > 0
            &&& high.last() < 128
            &&& varint_bytes(n) == high.drop_last() + seq![
                (high.last() + 128) as u8,
                (n % 128) as u8,
            ]
        },
{
    if n >= 128 {
        let m = (n / 128 - 1) as nat;
        let high = varint_bytes(m);
        let groups = varint_groups(m, true);
        assert(high.drop_last() =~= groups.drop_last());
        assert(varint_bytes(n) =~= high.drop_last() + seq![
            (high.last() + 128) as u8,
            (n % 128) as u8,
        ]);
    } else {
        assert(varint_bytes(n) =~= seq![n as u8]);
    }
}

/// A number is read wherever there is a byte without the high bit, and ends with the first
/// such byte; the bytes up to it are how that number is written.
pub proof fn varint_read(s: Seq<u8>)
    ensures
        varint_prefix(s) is None <==> forall|i: int| 0 <= i < s.len() ==> s[i] >= 128,
        varint_prefix(s) matches Some((n, len)) ==> {
            &&& 0 < len <= s.len()
            &&& s[len - 1] < 128
            &&& forall|i: int| 0 <= i < len - 1 ==> s[i] >= 128
            &&& varint_bytes(n) == s.take(len as int)
        },
{
    lemma_run_bytes(s);
    if varint_prefix(s) is Some {
        varint_form_is_unique(s);
    }
}

/// Reading overflows exactly where the groups read so far, taken as a number of their own,
/// are one less than a multiple of 2^64, and another group follows.
pub proof fn varint_overflow_told(s: Seq<u8>)
    ensures
        varint_overflows(s) <==> exists|i: int|
            0 <= i < s.len() && (forall|j: int| 0 <= j <= i ==> s[j] >= 128) && (
            #[trigger] varint_prefix(s.take(i).push((s[i] - 128) as u8)) matches Some((n, _)) && (n
                + 1) % 0x1_0000_0000_0000_0000 == 0),
{
    lemma_run_bytes(s);
    assert forall|i: int| 0 <= i < s.len() && (forall|j: int| 0 <= j <= i ==> s[j] >= 128) implies {
        &&& #[trigger] varint_prefix(s.take(i).push((s[i] - 128) as u8)) matches Some((n, _))
        &&& n + 1 == continuation_value(s.take(i + 1))
        &&& i + 1 <= continuation_run(s)
    } by {
        let t = s.take(i).push((s[i] - 128) as u8);
        lemma_run(t, i as nat);
        assert(t.take(i) =~= s.take(i));
        assert(s.take(i + 1).drop_last() =~= s.take(i));
    }
    if varint_overflows(s) {
        let k = choose|k: int|
            0 < k <= continuation_run(s) && #[trigger] continuation_value(s.take(k)) % u64_limit()
                == 0;
        let i = k - 1;
        assert(varint_prefix(s.take(i).push((s[i] - 128) as u8)) is Some);
    }
    if exists|i: int|
        0 <= i < s.len() && (forall|j: int| 0 <= j <= i ==> s[j] >= 128) && (#[trigger] varint_prefix(
            s.take(i).push((s[i] - 128) as u8),
        ) matches Some((n, _)) && (n + 1) % 0x1_0000_0000_0000_0000 == 0) {
        let i = choose|i: int|
            0 <= i < s.len() && (forall|j: int| 0 <= j <= i ==> s[j] >= 128) && (
            #[trigger] varint_prefix(s.take(i).push((s[i] - 128) as u8)) matches Some((n, _)) && (n
                + 1) % 0x1_0000_0000_0000_0000 == 0);
        assert(continuation_value(s.take(i + 1)) % u64_limit() == 0);
    }
}

} // verus!
