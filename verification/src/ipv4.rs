//! IPv4 addresses in dotted decimal, four numbers without leading zeros.

use vstd::prelude::*;

use crate::text::text_chars;

verus! {

/// The decimal form of an octet.
pub open spec fn octet_text(octet: u8) -> Seq<char> {
    if octet < 10 {
        seq![(48 + octet) as char]
    } else if octet < 100 {
        seq![(48 + octet / 10) as char, (48 + octet % 10) as char]
    } else {
        seq![(48 + octet / 100) as char, (48 + octet / 10 % 10) as char, (48 + octet % 10) as char]
    }
}

/// The decimal forms of some octets, dots between them.
pub open spec fn dotted(octets: Seq<u8>) -> Seq<char>
    decreases octets.len(),
{
    if octets.len() == 0 {
        Seq::empty()
    } else if octets.len() == 1 {
        octet_text(octets[0])
    } else {
        octet_text(octets[0]) + seq!['.'] + dotted(octets.drop_first())
    }
}

/// Whether `text` is an IPv4 address.
pub open spec fn is_ipv4(text: Seq<char>) -> bool {
    exists|octets: Seq<u8>| octets.len() == 4 && #[trigger] dotted(octets) == text
}

spec fn is_digit(c: char) -> bool {
    48 <= c as int <= 57
}

/// Whether the decimal form of `octet` ends at `end` in `text`, no digit behind it.
spec fn octet_ends(text: Seq<char>, octet: u8, end: int) -> bool {
    &&& 0 <= end <= text.len()
    &&& octet_text(octet) == text.take(end)
    &&& end < text.len() ==> !is_digit(text[end])
}

proof fn lemma_octet_unique(text: Seq<char>, a: u8, i: int, b: u8, j: int)
    requires
        octet_ends(text, a, i),
        octet_ends(text, b, j),
    ensures
        a == b,
        i == j,
{
    assert(text.take(i).len() == i && text.take(j).len() == j);
    assert(forall|k: int| 0 <= k < i ==> octet_text(a)[k] == text[k]);
    assert(forall|k: int| 0 <= k < j ==> octet_text(b)[k] == text[k]);
    if i < j {
        assert(octet_text(b)[i] == text[i]);
        assert(is_digit(text[i]));
    }
    if j < i {
        assert(octet_text(a)[j] == text[j]);
        assert(is_digit(text[j]));
    }
    assert(octet_text(a)[0] == octet_text(b)[0]);
    if i > 1 {
        assert(octet_text(a)[1] == octet_text(b)[1]);
    }
    if i > 2 {
        assert(octet_text(a)[2] == octet_text(b)[2]);
    }
}

proof fn lemma_dotted_starts(octets: Seq<u8>)
    requires
        octets.len() > 0,
    ensures
        octet_ends(dotted(octets), octets[0], octet_text(octets[0]).len() as int),
        octets.len() == 1 ==> dotted(octets).len() == octet_text(octets[0]).len(),
        octets.len() > 1 ==> {
            let end = octet_text(octets[0]).len() as int;
            &&& end < dotted(octets).len()
            &&& dotted(octets)[end] == '.'
            &&& dotted(octets).skip(end + 1) == dotted(octets.drop_first())
        },
{
    let first = octet_text(octets[0]);
    let text = dotted(octets);
    assert(text.take(first.len() as int) =~= first);
    if octets.len() > 1 {
        assert(text.skip(first.len() + 1int) =~= dotted(octets.drop_first()));
    }
}

fn parse_octet(text: &Vec<char>, pos: usize) -> (result: Option<(u8, usize)>)
    requires
        pos <= text@.len(),
    ensures
        match result {
            Some((octet, end)) => pos <= end <= text@.len() && octet_ends(
                text@.skip(pos as int),
                octet,
                end - pos,
            ),
            None => forall|octet: u8, end: int| !octet_ends(text@.skip(pos as int), octet, end),
        },
{
    let ghost rest = text@.skip(pos as int);
    let mut value: u32 = 0;
    let mut end: usize = pos;
    while end < text.len() && end - pos < 3 && '0' <= text[end] && text[end] <= '9'
        invariant
            pos <= end <= text@.len(),
            end - pos <= 3,
            rest == text@.skip(pos as int),
            forall|k: int| 0 <= k < end - pos ==> is_digit(#[trigger] rest[k]),
            end - pos == 0 ==> value == 0,
            end - pos == 1 ==> value == rest[0] as int - 48,
            end - pos == 2 ==> value == 10 * (rest[0] as int - 48) + (rest[1] as int - 48),
            end - pos == 3 ==> value == 100 * (rest[0] as int - 48) + 10 * (rest[1] as int - 48) + (
            rest[2] as int - 48),
        decreases text@.len() - end,
    {
        assert(rest[end - pos] == text@[end as int]);
        value = 10 * value + (text[end] as u32 - '0' as u32);
        end = end + 1;
    }
    let more: bool = end < text.len() && '0' <= text[end] && text[end] <= '9';
    let ghost count = end - pos;
    assert(end < text.len() ==> rest[count] == text@[end as int]);
    assert(rest.len() == text@.len() - pos);
    if end == pos || more || value > 255 || (end - pos > 1 && text[pos] == '0') {
        assert forall|octet: u8, other: int| !octet_ends(rest, octet, other) by {
            if octet_ends(rest, octet, other) {
                assert(rest.take(other).len() == other);
                assert(forall|k: int| 0 <= k < other ==> octet_text(octet)[k] == rest[k]);
                assert(octet_text(octet)[0] == rest[0]);
                assert(rest[0] == text@[pos as int]);
                if other < count {
                    assert(is_digit(rest[other]));
                } else if count < other {
                    assert(is_digit(octet_text(octet)[count]));
                    assert(is_digit(rest[count]));
                    assert(count == 3);
                } else {
                    if count > 1 {
                        assert(octet_text(octet)[1] == rest[1]);
                    }
                    if count > 2 {
                        assert(octet_text(octet)[2] == rest[2]);
                    }
                }
            }
        }
        return None;
    }
    let octet: u8 = value as u8;
    assert(rest[0] == text@[pos as int]);
    assert(octet_text(octet) =~= rest.take(count));
    Some((octet, end))
}

fn parse_octets(text: &Vec<char>, pos: usize, count: usize) -> (result: Option<Vec<u8>>)
    requires
        pos <= text@.len(),
        count > 0,
    ensures
        match result {
            Some(octets) => octets@.len() == count && dotted(octets@) == text@.skip(pos as int),
            None => forall|octets: Seq<u8>|
                octets.len() == count ==> #[trigger] dotted(octets) != text@.skip(pos as int),
        },
    decreases count,
{
    let ghost rest = text@.skip(pos as int);
    match parse_octet(text, pos) {
        None => {
            assert forall|octets: Seq<u8>| octets.len() == count implies #[trigger] dotted(octets)
                != rest by {
                lemma_dotted_starts(octets);
            }
            None
        },
        Some((octet, end)) => {
            assert forall|octets: Seq<u8>|
                octets.len() == count && #[trigger] dotted(octets) == rest implies octets[0]
                == octet && octet_text(octets[0]).len() == end - pos by {
                lemma_dotted_starts(octets);
                lemma_octet_unique(
                    rest,
                    octet,
                    end - pos,
                    octets[0],
                    octet_text(octets[0]).len() as int,
                );
            }
            if count == 1 {
                if end == text.len() {
                    let mut octets: Vec<u8> = Vec::new();
                    octets.push(octet);
                    assert(rest.take(end - pos) =~= rest);
                    return Some(octets);
                }
                assert forall|octets: Seq<u8>| octets.len() == count implies #[trigger] dotted(
                    octets,
                ) != rest by {
                    lemma_dotted_starts(octets);
                }
                return None;
            }
            if end < text.len() && text[end] == '.' {
                assert(rest.skip(end - pos + 1) =~= text@.skip(end + 1));
                match parse_octets(text, end + 1, count - 1) {
                    None => {
                        assert forall|octets: Seq<u8>|
                            octets.len() == count implies #[trigger] dotted(octets) != rest by {
                            if dotted(octets) == rest {
                                lemma_dotted_starts(octets);
                                assert(dotted(octets.drop_first()) == text@.skip(end + 1));
                            }
                        }
                        None
                    },
                    Some(tail) => {
                        let mut tail = tail;
                        let mut octets: Vec<u8> = Vec::new();
                        octets.push(octet);
                        let ghost after = tail@;
                        octets.append(&mut tail);
                        assert(octets@.drop_first() =~= after);
                        assert(rest[end - pos] == '.');
                        assert(rest =~= rest.take(end - pos) + seq!['.'] + rest.skip(
                            end - pos + 1,
                        ));
                        Some(octets)
                    },
                }
            } else {
                assert forall|octets: Seq<u8>| octets.len() == count implies #[trigger] dotted(
                    octets,
                ) != rest by {
                    if dotted(octets) == rest {
                        lemma_dotted_starts(octets);
                        assert(rest[end - pos] == text@[end as int]);
                    }
                }
                None
            }
        },
    }
}

/// Reads an IPv4 address; its octets in the order in which they are written.
pub fn parse_ipv4(text: &str) -> (address: Option<[u8; 4]>)
    ensures
        match address {
            Some(octets) => dotted(octets@) == text@,
            None => !is_ipv4(text@),
        },
        address matches Some(octets) ==> text@ == octet_text(octets@[0]) + "."@ + octet_text(
            octets@[1],
        ) + "."@ + octet_text(octets@[2]) + "."@ + octet_text(octets@[3]),
{
    let chars = text_chars(text);
    assert(chars@.skip(0) =~= text@);
    match parse_octets(&chars, 0, 4) {
        Some(octets) => {
            let address: [u8; 4] = [octets[0], octets[1], octets[2], octets[3]];
            assert(address@ =~= octets@);
            assert(address@ =~= seq![address@[0], address@[1], address@[2], address@[3]]);
            proof {
                dotted_four(address@[0], address@[1], address@[2], address@[3]);
            }
            Some(address)
        },
        None => None,
    }
}

/// An address is the form of one list of octets only.
pub proof fn dotted_is_unique(a: Seq<u8>, b: Seq<u8>)
    requires
        a.len() == b.len(),
        dotted(a) == dotted(b),
    ensures
        a == b,
    decreases a.len(),
{
    if a.len() > 0 {
        lemma_dotted_starts(a);
        lemma_dotted_starts(b);
        lemma_octet_unique(
            dotted(a),
            a[0],
            octet_text(a[0]).len() as int,
            b[0],
            octet_text(b[0]).len() as int,
        );
        if a.len() > 1 {
            dotted_is_unique(a.drop_first(), b.drop_first());
        }
        assert(a =~= seq![a[0]] + a.drop_first());
        assert(b =~= seq![b[0]] + b.drop_first());
        assert(a.drop_first() =~= b.drop_first());
    } else {
        assert(a =~= b);
    }
}

/// The decimal form of an octet, digit by digit, no zero leading another digit.
pub proof fn octet_digits(octet: u8)
    ensures
        octet < 10 ==> octet_text(octet) == seq!["0123456789"@[octet as int]],
        10 <= octet < 100 ==> octet_text(octet) == seq![
            "0123456789"@[octet as int / 10],
            "0123456789"@[octet as int % 10],
        ],
        100 <= octet ==> octet_text(octet) == seq![
            "0123456789"@[octet as int / 100],
            "0123456789"@[octet as int / 10 % 10],
            "0123456789"@[octet as int % 10],
        ],
{
    reveal_strlit("0123456789");
}

/// An address is four octets with dots between them.
pub proof fn dotted_four(a: u8, b: u8, c: u8, d: u8)
    ensures
        dotted(seq![a, b, c, d]) == octet_text(a) + "."@ + octet_text(b) + "."@ + octet_text(c)
            + "."@ + octet_text(d),
{
    reveal_strlit(".");
    reveal_with_fuel(dotted, 5);
    let s = seq![a, b, c, d];
    assert(s.drop_first() =~= seq![b, c, d]);
    assert(seq![b, c, d].drop_first() =~= seq![c, d]);
    assert(seq![c, d].drop_first() =~= seq![d]);
    assert("."@ =~= seq!['.']);
    assert(dotted(s) =~= octet_text(a) + "."@ + octet_text(b) + "."@ + octet_text(c) + "."@
        + octet_text(d));
}

/// A text is an address exactly where it is four octets with dots between them.
pub proof fn ipv4_texts(text: Seq<char>)
    ensures
        is_ipv4(text) <==> exists|a: u8, b: u8, c: u8, d: u8|
            #![trigger octet_text(a), octet_text(b), octet_text(c), octet_text(d)]
            text == octet_text(a) + "."@ + octet_text(b) + "."@ + octet_text(c) + "."@ + octet_text(
                d,
            ),
{
    if is_ipv4(text) {
        let octets = choose|octets: Seq<u8>| octets.len() == 4 && #[trigger] dotted(octets) == text;
        assert(octets =~= seq![octets[0], octets[1], octets[2], octets[3]]);
        dotted_four(octets[0], octets[1], octets[2], octets[3]);
    }
    if exists|a: u8, b: u8, c: u8, d: u8|
        #![trigger octet_text(a), octet_text(b), octet_text(c), octet_text(d)]
        text == octet_text(a) + "."@ + octet_text(b) + "."@ + octet_text(c) + "."@ + octet_text(d) {
        let (a, b, c, d) = choose|a: u8, b: u8, c: u8, d: u8|
            #![trigger octet_text(a), octet_text(b), octet_text(c), octet_text(d)]
            text == octet_text(a) + "."@ + octet_text(b) + "."@ + octet_text(c) + "."@ + octet_text(
                d,
            );
        dotted_four(a, b, c, d);
        assert(dotted(seq![a, b, c, d]) == text);
    }
}

} // verus!
