//! Byte strings written as hexadecimal text.

use vstd::prelude::*;
use vstd::utf8::*;

use crate::text::decimal;

verus! {

/// Why a text is not the hexadecimal form of a byte string.
#[derive(Debug, Clone, Copy, PartialEq, Eq)]
pub enum HexError {
    /// The byte of the text at `index` is no digit; `c` is the character of that number.
    InvalidHexCharacter { c: char, index: usize },
    /// The text has an odd number of digits.
    OddLength,
    /// The text does not have the length of the array to be filled.
    InvalidStringLength,
}

/// The lower-case digit of a number below 16.
pub open spec fn hex_digit(n: nat) -> char {
    if n < 10 {
        (48 + n) as char
    } else {
        (87 + n) as char
    }
}

/// The lower-case form of `bytes`, two digits each.
pub open spec fn hex_text(bytes: Seq<u8>) -> Seq<char> {
    Seq::new(
        2 * bytes.len(),
        |i: int|
            hex_digit(
                if i % 2 == 0 {
                    bytes[i / 2] as nat / 16
                } else {
                    bytes[i / 2] as nat % 16
                },
            ),
    )
}

/// What a byte of text stands for as a digit of either case, or `None`.
pub open spec fn hex_value(c: u8) -> Option<nat> {
    if 48 <= c <= 57 {
        Some((c - 48) as nat)
    } else if 65 <= c <= 70 {
        Some((c - 55) as nat)
    } else if 97 <= c <= 102 {
        Some((c - 87) as nat)
    } else {
        None
    }
}

/// How many digits `text` begins with.
pub open spec fn hex_run(text: Seq<u8>) -> nat
    decreases text.len(),
{
    if text.len() > 0 && hex_value(text[0]) is Some {
        1 + hex_run(text.drop_first())
    } else {
        0
    }
}

/// The bytes that pairs of digits stand for.
pub open spec fn hex_bytes(text: Seq<u8>) -> Seq<u8> {
    Seq::new(
        text.len() / 2,
        |i: int| (16 * hex_value(text[2 * i])->0 + hex_value(text[2 * i + 1])->0) as u8,
    )
}

/// What the bytes of a text are the hexadecimal form of.
pub open spec fn hex_decoded(text: Seq<u8>) -> Result<Seq<u8>, HexError> {
    if text.len() % 2 != 0 {
        Err(HexError::OddLength)
    } else if hex_run(text) < text.len() {
        let index = hex_run(text) as int;
        Err(HexError::InvalidHexCharacter { c: text[index] as char, index: index as usize })
    } else {
        Ok(hex_bytes(text))
    }
}

/// `hex::encode`: two lower-case digits for each byte. The text must fit in memory.
#[verifier::external_body]
pub(crate) fn hex_encode(bytes: &[u8]) -> (text: String)
    requires
        2 * bytes@.len() <= isize::MAX,
    ensures
        text@ == hex_text(bytes@),
{
    hex::encode(bytes)
}

/// `hex::decode` on the bytes of a text: an odd length is refused first, then the first
/// byte that is no digit of either case; otherwise each pair of digits gives a byte.
#[verifier::external_body]
pub(crate) fn hex_decode(text: &str) -> (result: Result<Vec<u8>, HexError>)
    ensures
        hex_decoded(encode_utf8(text@)) == match result {
            Ok(bytes) => Ok::<Seq<u8>, HexError>(bytes@),
            Err(error) => Err(error),
        },
{
    hex::decode(text).map_err(
        |error| match error {
            hex::FromHexError::InvalidHexCharacter { c, index } => {
                HexError::InvalidHexCharacter { c, index }
            },
            hex::FromHexError::OddLength => HexError::OddLength,
            hex::FromHexError::InvalidStringLength => HexError::InvalidStringLength,
        },
    )
}

/// How a character is written in messages: between quotes, escaped where it does not print,
/// as its `std::fmt::Debug` does.
pub uninterp spec fn char_debug(c: char) -> Seq<char>;

/// What an error says.
pub open spec fn hex_error_text(error: HexError) -> Seq<char> {
    match error {
        HexError::InvalidHexCharacter { c, index } => "Invalid character "@ + char_debug(c)
            + " at position "@ + decimal(index as nat),
        HexError::OddLength => "Odd number of digits"@,
        HexError::InvalidStringLength => "Invalid string length"@,
    }
}

impl HexError {
    /// What the error says.
    pub fn message(&self) -> (text: String)
        ensures
            text@ == hex_error_text(*self),
            match *self {
                HexError::InvalidHexCharacter { c, index } => text@ == "Invalid character "@
                    + char_debug(c) + " at position "@ + decimal(index as nat),
                HexError::OddLength => text@ == "Odd number of digits"@,
                HexError::InvalidStringLength => text@ == "Invalid string length"@,
            },
    {
        hex_error_message(*self)
    }
}

/// `hex::FromHexError` as it is displayed: a fixed text, or one that names the character, as
/// its `Debug` writes it, and its position in decimal.
#[verifier::external_body]
fn hex_error_message(error: HexError) -> (text: String)
    ensures
        text@ == match error {
            HexError::InvalidHexCharacter { c, index } => "Invalid character "@ + char_debug(c)
                + " at position "@ + decimal(index as nat),
            HexError::OddLength => "Odd number of digits"@,
            HexError::InvalidStringLength => "Invalid string length"@,
        },
{
    let error = match error {
        HexError::InvalidHexCharacter { c, index } => {
            hex::FromHexError::InvalidHexCharacter { c, index }
        },
        HexError::OddLength => hex::FromHexError::OddLength,
        HexError::InvalidStringLength => hex::FromHexError::InvalidStringLength,
    };
    error.to_string()
}

proof fn lemma_hex_run(text: Seq<u8>)
    requires
        forall|i: int| 0 <= i < text.len() ==> hex_value(text[i]) is Some,
    ensures
        hex_run(text) == text.len(),
    decreases text.len(),
{
    if text.len() > 0 {
        lemma_hex_run(text.drop_first());
    }
}

/// A character in lower case, if it is a letter of ASCII.
pub open spec fn lower_char(c: char) -> char {
    if 65 <= c as int <= 90 {
        (c as int + 32) as char
    } else {
        c
    }
}

/// A text with the letters of ASCII in lower case.
pub open spec fn lower_text(text: Seq<char>) -> Seq<char> {
    Seq::new(text.len(), |i: int| lower_char(text[i]))
}

proof fn lemma_run_digits(text: Seq<u8>)
    requires
        hex_run(text) >= text.len(),
    ensures
        forall|i: int| 0 <= i < text.len() ==> hex_value(text[i]) is Some,
    decreases text.len(),
{
    if text.len() > 0 {
        lemma_run_digits(text.drop_first());
        assert forall|i: int| 0 <= i < text.len() implies hex_value(text[i]) is Some by {
            if i > 0 {
                assert(text.drop_first()[i - 1] == text[i]);
            }
        }
    }
}

proof fn lemma_ascii_char(c: char)
    requires
        c as u32 <= 127 || c as int <= 127,
    ensures
        '\0' <= c <= '\u{7f}',
{
}

/// Bytes of ASCII encode characters of ASCII.
proof fn lemma_ascii_bytes(text: Seq<char>)
    requires
        forall|i: int| 0 <= i < encode_utf8(text).len() ==> encode_utf8(text)[i] < 128,
    ensures
        is_ascii_chars(text),
    decreases text.len(),
{
    if text.len() > 0 {
        let c = text[0] as u32;
        let first = encode_scalar(c);
        let bytes = encode_utf8(text);
        assert(0xC0u8 | ((c >> 6) & 0x1F) as u8 >= 128) by (bit_vector);
        assert(0xE0u8 | ((c >> 12) & 0x0F) as u8 >= 128) by (bit_vector);
        assert(0xF0u8 | ((c >> 18) & 0x7) as u8 >= 128) by (bit_vector);
        assert(bytes[0] == first[0]);
        assert(has_width_1_encoding(c));
        lemma_ascii_char(text[0]);
        let rest = encode_utf8(text.drop_first());
        assert forall|i: int| 0 <= i < rest.len() implies rest[i] < 128 by {
            assert(bytes[i + 1] == rest[i]);
        }
        lemma_ascii_bytes(text.drop_first());
        assert forall|i: int| 0 <= i < text.len() implies '\0' <= #[trigger] text[i] <= '\u{7f}' by {
            if i > 0 {
                assert(text.drop_first()[i - 1] == text[i]);
            }
        }
    }
}

/// A text is the hexadecimal form of a byte string exactly where it is, in either case, the
/// text that is written for it.
pub proof fn hex_form_is_unique(text: Seq<char>, bytes: Seq<u8>)
    ensures
        hex_decoded(encode_utf8(text)) == Ok::<Seq<u8>, HexError>(bytes) <==> lower_text(text)
            == hex_text(bytes),
{
    let form = encode_utf8(text);
    let lower = lower_text(text);
    if hex_decoded(form) == Ok::<Seq<u8>, HexError>(bytes) {
        lemma_run_digits(form);
        lemma_ascii_bytes(text);
        is_ascii_chars_encode_utf8(text);
        assert(hex_bytes(form) == bytes);
        assert forall|i: int| 0 <= i < lower.len() implies lower[i] == hex_text(bytes)[i] by {
            let k = i / 2;
            assert(form[i] == text[i] as u8);
            assert(hex_value(form[2 * k]) is Some && hex_value(form[2 * k + 1]) is Some);
            assert(bytes[k] == hex_bytes(form)[k]);
        }
        assert(lower =~= hex_text(bytes));
    }
    if lower == hex_text(bytes) {
        assert(lower.len() == text.len());
        assert(hex_text(bytes).len() == 2 * bytes.len());
        assert forall|i: int| 0 <= i < text.len() implies {
            &&& '\0' <= text[i] <= '\u{7f}'
            &&& hex_value(text[i] as u8) == Some(
                if i % 2 == 0 {
                    bytes[i / 2] as nat / 16
                } else {
                    bytes[i / 2] as nat % 16
                },
            )
        } by {
            let n: nat = if i % 2 == 0 {
                bytes[i / 2] as nat / 16
            } else {
                bytes[i / 2] as nat % 16
            };
            assert(lower[i] == hex_digit(n));
            lemma_ascii_char(text[i]);
        }
        assert(is_ascii_chars(text));
        is_ascii_chars_encode_utf8(text);
        assert forall|i: int| 0 <= i < form.len() implies hex_value(form[i]) == Some(
            if i % 2 == 0 {
                bytes[i / 2] as nat / 16
            } else {
                bytes[i / 2] as nat % 16
            },
        ) by {
            assert(form[i] == text[i] as u8);
        }
        lemma_hex_run(form);
        assert(hex_bytes(form) =~= bytes);
    }
}

/// The hexadecimal form of a byte string is read back as that byte string.
pub proof fn hex_reads_back(bytes: Seq<u8>)
    ensures
        hex_decoded(encode_utf8(hex_text(bytes))) == Ok::<Seq<u8>, HexError>(bytes),
{
    hex_form_is_unique(hex_text(bytes), bytes);
    assert(lower_text(hex_text(bytes)) =~= hex_text(bytes));
}

/// Whether a text is hexadecimal: an even number of digits of either case.
pub open spec fn is_hex_text(text: Seq<char>) -> bool {
    &&& text.len() % 2 == 0
    &&& forall|i: int|
        0 <= i < text.len() ==> {
            ||| 48 <= #[trigger] text[i] as int <= 57
            ||| 65 <= text[i] as int <= 70
            ||| 97 <= text[i] as int <= 102
        }
}

/// Exactly the hexadecimal texts are read.
pub proof fn hex_texts_are_read(text: Seq<char>)
    ensures
        is_hex_text(text) <==> hex_decoded(encode_utf8(text)) is Ok,
{
    let form = encode_utf8(text);
    if is_hex_text(text) {
        assert forall|i: int| 0 <= i < text.len() implies '\0' <= #[trigger] text[i] <= '\u{7f}' by {
            lemma_ascii_char(text[i]);
        }
        is_ascii_chars_encode_utf8(text);
        assert forall|i: int| 0 <= i < form.len() implies hex_value(form[i]) is Some by {
            assert(form[i] == text[i] as u8);
        }
        lemma_hex_run(form);
    }
    if hex_decoded(form) is Ok {
        lemma_run_digits(form);
        lemma_ascii_bytes(text);
        is_ascii_chars_encode_utf8(text);
        assert forall|i: int| 0 <= i < text.len() implies {
            ||| 48 <= #[trigger] text[i] as int <= 57
            ||| 65 <= text[i] as int <= 70
            ||| 97 <= text[i] as int <= 102
        } by {
            assert(form[i] == text[i] as u8);
        }
    }
}

/// Two hexadecimal texts, one behind the other, are the form of the two byte strings.
pub proof fn hex_texts_join(a: Seq<char>, b: Seq<char>, first: Seq<u8>, second: Seq<u8>)
    requires
        hex_decoded(encode_utf8(a)) == Ok::<Seq<u8>, HexError>(first),
        hex_decoded(encode_utf8(b)) == Ok::<Seq<u8>, HexError>(second),
    ensures
        hex_decoded(encode_utf8(a + b)) == Ok::<Seq<u8>, HexError>(first + second),
{
    hex_form_is_unique(a, first);
    hex_form_is_unique(b, second);
    hex_form_is_unique(a + b, first + second);
    assert(lower_text(a + b) =~= lower_text(a) + lower_text(b));
    assert(hex_text(first + second) =~= hex_text(first) + hex_text(second));
}

/// The form of a byte string, digit by digit: the high half of each byte, then the low.
pub proof fn hex_text_digits(bytes: Seq<u8>)
    ensures
        hex_text(bytes).len() == 2 * bytes.len(),
        forall|i: int|
            0 <= i < bytes.len() ==> {
                &&& hex_text(bytes)[2 * i] == "0123456789abcdef"@[#[trigger] bytes[i] as int / 16]
                &&& hex_text(bytes)[2 * i + 1] == "0123456789abcdef"@[bytes[i] as int % 16]
            },
{
    reveal_strlit("0123456789abcdef");
    assert forall|n: nat| n < 16 implies #[trigger] hex_digit(n) == "0123456789abcdef"@[n as int] by {
        lemma_digit(n);
    }
    assert forall|i: int| 0 <= i < bytes.len() implies {
        &&& hex_text(bytes)[2 * i] == "0123456789abcdef"@[#[trigger] bytes[i] as int / 16]
        &&& hex_text(bytes)[2 * i + 1] == "0123456789abcdef"@[bytes[i] as int % 16]
    } by {
        assert(hex_text(bytes)[2 * i] == hex_digit(bytes[i] as nat / 16));
        assert(hex_text(bytes)[2 * i + 1] == hex_digit(bytes[i] as nat % 16));
    }
}

proof fn lemma_digit(n: nat)
    requires
        n < 16,
    ensures
        "0123456789abcdef"@.len() == 16,
        "0123456789ABCDEF"@.len() == 16,
        hex_digit(n) == "0123456789abcdef"@[n as int],
        hex_value("0123456789abcdef"@[n as int] as u8) == Some(n),
        hex_value("0123456789ABCDEF"@[n as int] as u8) == Some(n),
        '\0' <= "0123456789abcdef"@[n as int] <= '\u{7f}',
        '\0' <= "0123456789ABCDEF"@[n as int] <= '\u{7f}',
        lower_char("0123456789ABCDEF"@[n as int]) == hex_digit(n),
        lower_char("0123456789abcdef"@[n as int]) == hex_digit(n),
{
    reveal_strlit("0123456789abcdef");
    reveal_strlit("0123456789ABCDEF");
}

proof fn lemma_lower_digit(c: char, n: nat)
    requires
        n < 16,
    ensures
        lower_char(c) == hex_digit(n) <==> c == "0123456789abcdef"@[n as int] || c
            == "0123456789ABCDEF"@[n as int],
{
    reveal_strlit("0123456789abcdef");
    reveal_strlit("0123456789ABCDEF");
    lemma_digit(n);
}

/// A text is read as a byte string exactly where it has two digits for each byte, each in
/// either case, those of the high half and of the low half.
pub proof fn hex_text_read(text: Seq<char>, bytes: Seq<u8>)
    ensures
        hex_decoded(encode_utf8(text)) == Ok::<Seq<u8>, HexError>(bytes) <==> {
            &&& text.len() == 2 * bytes.len()
            &&& forall|k: int|
                0 <= k < text.len() ==> {
                    let digit = if k % 2 == 0 {
                        bytes[k / 2] as int / 16
                    } else {
                        bytes[k / 2] as int % 16
                    };
                    #[trigger] text[k] == "0123456789abcdef"@[digit] || text[k]
                        == "0123456789ABCDEF"@[digit]
                }
        },
{
    hex_form_is_unique(text, bytes);
    let lower = lower_text(text);
    assert forall|k: int| 0 <= k < text.len() && text.len() == 2 * bytes.len() implies {
        let digit = if k % 2 == 0 {
            bytes[k / 2] as int / 16
        } else {
            bytes[k / 2] as int % 16
        };
        lower[k] == hex_text(bytes)[k] <==> (#[trigger] text[k] == "0123456789abcdef"@[digit]
            || text[k] == "0123456789ABCDEF"@[digit])
    } by {
        let digit: nat = if k % 2 == 0 {
            bytes[k / 2] as nat / 16
        } else {
            bytes[k / 2] as nat % 16
        };
        lemma_lower_digit(text[k], digit);
    }
    if text.len() == 2 * bytes.len() && (forall|k: int|
        0 <= k < text.len() ==> {
            let digit = if k % 2 == 0 {
                bytes[k / 2] as int / 16
            } else {
                bytes[k / 2] as int % 16
            };
            #[trigger] text[k] == "0123456789abcdef"@[digit] || text[k] == "0123456789ABCDEF"@[digit]
        }) {
        assert forall|k: int| 0 <= k < lower.len() implies lower[k] == hex_text(bytes)[k] by {
            assert(text[k] == text[k]);
        }
        assert(lower =~= hex_text(bytes));
    }
    if lower == hex_text(bytes) {
        assert(lower.len() == text.len() && hex_text(bytes).len() == 2 * bytes.len());
        assert forall|k: int| 0 <= k < text.len() implies lower[k] == hex_text(bytes)[k] by {}
    }
}

/// Why a text is not read: its bytes are odd in number, or else the first of them that is no
/// digit is named.
pub proof fn hex_refusals(text: Seq<u8>, index: int)
    ensures
        text.len() % 2 == 1 ==> hex_decoded(text) == Err::<Seq<u8>, HexError>(HexError::OddLength),
        text.len() % 2 == 0 && 0 <= index < text.len() && !(48 <= text[index] <= 57 || 65
            <= text[index] <= 70 || 97 <= text[index] <= 102) && (forall|i: int|
            0 <= i < index ==> 48 <= #[trigger] text[i] <= 57 || 65 <= text[i] <= 70 || 97 <= text[i]
                <= 102) ==> hex_decoded(text) == Err::<Seq<u8>, HexError>(
            HexError::InvalidHexCharacter { c: text[index] as char, index: index as usize },
        ),
{
    if 0 <= index < text.len() && !(48 <= text[index] <= 57 || 65 <= text[index] <= 70 || 97
        <= text[index] <= 102) && (forall|i: int|
        0 <= i < index ==> 48 <= #[trigger] text[i] <= 57 || 65 <= text[i] <= 70 || 97 <= text[i]
            <= 102) {
        lemma_run_ends(text, index as nat);
    }
}

proof fn lemma_run_ends(text: Seq<u8>, run: nat)
    requires
        run < text.len(),
        hex_value(text[run as int]) is None,
        forall|i: int| 0 <= i < run ==> hex_value(#[trigger] text[i]) is Some,
    ensures
        hex_run(text) == run,
    decreases run,
{
    if run > 0 {
        assert forall|i: int| 0 <= i < run - 1 implies hex_value(
            #[trigger] text.drop_first()[i],
        ) is Some by {
            assert(text.drop_first()[i] == text[i + 1]);
        }
        lemma_run_ends(text.drop_first(), (run - 1) as nat);
    }
}

} // verus!
