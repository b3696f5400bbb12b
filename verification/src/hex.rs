//! Hexadecimal text: two digits per byte, lower case when written, either
//! case when read.
use vstd::prelude::*;

verus! {

/// The value of one hexadecimal digit given by its ASCII code, if it is one.
pub open spec fn digit_value(c: u8) -> Option<u8> {
    if 0x30 <= c <= 0x39 {
        Some((c - 0x30) as u8)
    } else if 0x61 <= c <= 0x66 {
        Some((c - 0x61 + 10) as u8)
    } else if 0x41 <= c <= 0x46 {
        Some((c - 0x41 + 10) as u8)
    } else {
        None
    }
}

/// The ASCII code of the lower-case digit for a value below sixteen.
pub open spec fn digit_code(v: u8) -> u8 {
    if v < 10 {
        (v + 0x30) as u8
    } else {
        (v - 10 + 0x61) as u8
    }
}

/// Whether `text` is an even number of hexadecimal digits.
pub open spec fn is_hex(text: Seq<u8>) -> bool {
    &&& text.len() % 2 == 0
    &&& forall|i: int| 0 <= i < text.len() ==> (#[trigger] digit_value(text[i])) is Some
}

/// The bytes that a well-formed hexadecimal text stands for.
pub open spec fn decoded(text: Seq<u8>) -> Seq<u8> {
    Seq::new(
        text.len() / 2,
        |i: int| (digit_value(text[2 * i]).unwrap() * 16 + digit_value(text[2 * i + 1]).unwrap()) as u8,
    )
}

/// The lower-case hexadecimal text of `bytes`.
pub open spec fn encoded(bytes: Seq<u8>) -> Seq<u8> {
    Seq::new(
        2 * bytes.len(),
        |i: int| if i % 2 == 0 { digit_code(bytes[i / 2] / 16) } else { digit_code(bytes[i / 2] % 16) },
    )
}

/// Reads one digit.
fn digit(c: u8) -> (v: Option<u8>)
    ensures
        v == digit_value(c),
        v matches Some(x) ==> x < 16,
{
    if 0x30 <= c && c <= 0x39 {
        Some(c - 0x30)
    } else if 0x61 <= c && c <= 0x66 {
        Some(c - 0x61 + 10)
    } else if 0x41 <= c && c <= 0x46 {
        Some(c - 0x41 + 10)
    } else {
        None
    }
}

/// Decodes hexadecimal text. `None` when the length is odd or a byte is not a
/// digit.
pub fn decode(text: &[u8]) -> (out: Option<Vec<u8>>)
    ensures
        out is Some <==> is_hex(text@),
        out matches Some(bytes) ==> bytes@ == decoded(text@),
{
    let n: usize = text.len();
    if n % 2 != 0 {
        return None;
    }
    let mut bytes: Vec<u8> = Vec::new();
    let mut i: usize = 0;
    while i < n
        invariant
            n == text@.len(),
            n % 2 == 0,
            i % 2 == 0,
            i <= n,
            bytes@.len() == i / 2,
            forall|k: int| 0 <= k < i ==> (#[trigger] digit_value(text@[k])) is Some,
            forall|k: int| 0 <= k < bytes@.len() ==> #[trigger] bytes@[k] == decoded(text@)[k],
        decreases n - i,
    {
        let hi = digit(text[i]);
        let lo = digit(text[i + 1]);
        match (hi, lo) {
            (Some(h), Some(l)) => {
                bytes.push(h * 16 + l);
            },
            _ => {
                return None;
            },
        }
        i += 2;
    }
    assert(bytes@ =~= decoded(text@));
    Some(bytes)
}

/// Writes one digit.
fn digit_of(v: u8) -> (c: u8)
    requires
        v < 16,
    ensures
        c == digit_code(v),
{
    if v < 10 {
        v + 0x30
    } else {
        v - 10 + 0x61
    }
}

/// Encodes bytes as lower-case hexadecimal text.
pub fn encode(bytes: &[u8]) -> (text: Vec<u8>)
    ensures
        text@ == encoded(bytes@),
{
    let n: usize = bytes.len();
    let mut text: Vec<u8> = Vec::new();
    let mut i: usize = 0;
    while i < n
        invariant
            n == bytes@.len(),
            i <= n,
            text@.len() == 2 * i,
            forall|k: int| 0 <= k < text@.len() ==> #[trigger] text@[k] == encoded(bytes@)[k],
        decreases n - i,
    {
        let b: u8 = bytes[i];
        text.push(digit_of(b / 16));
        text.push(digit_of(b % 16));
        i += 1;
    }
    assert(text@ =~= encoded(bytes@));
    text
}

/// Every digit that is written reads back as its value.
pub proof fn lemma_digit_round_trip(v: u8)
    requires
        v < 16,
    ensures
        digit_value(digit_code(v)) == Some(v),
{
}

/// Encoded text is well formed and decodes to the bytes it was made from.
pub proof fn lemma_decode_encode(bytes: Seq<u8>)
    ensures
        is_hex(encoded(bytes)),
        decoded(encoded(bytes)) == bytes,
{
    let text = encoded(bytes);
    assert forall|i: int| 0 <= i < text.len() implies (#[trigger] digit_value(text[i])) is Some by {
        let b = bytes[i / 2];
        lemma_digit_round_trip((b / 16) as u8);
        lemma_digit_round_trip((b % 16) as u8);
    }
    assert forall|k: int| 0 <= k < bytes.len() implies decoded(text)[k] == bytes[k] by {
        let b = bytes[k];
        lemma_digit_round_trip((b / 16) as u8);
        lemma_digit_round_trip((b % 16) as u8);
        assert(text[2 * k] == digit_code(b / 16));
        assert(text[2 * k + 1] == digit_code(b % 16));
    }
    assert(decoded(text) =~= bytes);
}

} // verus!
