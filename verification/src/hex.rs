//! Lower-case hexadecimal text, as bytes of ASCII.

use vstd::prelude::*;

verus! {

/// The ASCII digit for a value below sixteen.
pub open spec fn hex_digit(nibble: int) -> u8 {
    if nibble < 10 {
        (48 + nibble) as u8
    } else {
        (87 + nibble) as u8
    }
}

/// The value of an ASCII hex digit, of either case; `None` for any other
/// byte.
pub open spec fn hex_value(digit: u8) -> Option<u8> {
    if 48 <= digit <= 57 {
        Some((digit - 48) as u8)
    } else if 97 <= digit <= 102 {
        Some((digit - 87) as u8)
    } else if 65 <= digit <= 70 {
        Some((digit - 55) as u8)
    } else {
        None
    }
}

/// The hex text of `data`: two digits for each byte, the high half first.
pub open spec fn hex_encoding(data: Seq<u8>) -> Seq<u8> {
    Seq::new(
        2 * data.len(),
        |i: int|
            hex_digit(
                if i % 2 == 0 {
                    data[i / 2] as int / 16
                } else {
                    data[i / 2] as int % 16
                },
            ),
    )
}

/// Whether `text` is hex text: an even number of hex digits.
pub open spec fn is_hex(text: Seq<u8>) -> bool {
    text.len() % 2 == 0 && forall|i: int| 0 <= i < text.len() ==> hex_value(#[trigger] text[i]) is Some
}

/// The bytes that hex text stands for.
pub open spec fn hex_decoding(text: Seq<u8>) -> Seq<u8> {
    Seq::new(
        text.len() / 2,
        |i: int| (16 * hex_value(text[2 * i]).unwrap() + hex_value(text[2 * i + 1]).unwrap()) as u8,
    )
}

/// Hex text is ASCII, and decoding it gives back the bytes it was made from.
pub proof fn lemma_hex_round_trip(data: Seq<u8>)
    ensures
        is_hex(hex_encoding(data)),
        hex_decoding(hex_encoding(data)) == data,
        forall|i: int| 0 <= i < hex_encoding(data).len() ==> #[trigger] hex_encoding(data)[i] < 128,
{
    let text = hex_encoding(data);
    assert forall|i: int| 0 <= i < text.len() implies hex_value(#[trigger] text[i]) is Some
        && text[i] < 128 by {
        let b = data[i / 2];
        assert(0 <= b as int / 16 < 16 && 0 <= b as int % 16 < 16);
    }
    assert forall|i: int| 0 <= i < data.len() implies hex_decoding(text)[i] == data[i] by {
        let b = data[i];
        assert(text[2 * i] == hex_digit(b as int / 16));
        assert(text[2 * i + 1] == hex_digit(b as int % 16));
        assert(0 <= b as int / 16 < 16 && 0 <= b as int % 16 < 16);
        assert(16 * (b as int / 16) + b as int % 16 == b);
    }
    assert(hex_decoding(text) =~= data);
}

fn digit_of(nibble: u8) -> (digit: u8)
    requires
        nibble < 16,
    ensures
        digit == hex_digit(nibble as int),
{
    if nibble < 10 {
        48 + nibble
    } else {
        87 + nibble
    }
}

fn value_of(digit: u8) -> (value: Option<u8>)
    ensures
        value == hex_value(digit),
        value matches Some(v) ==> v < 16,
{
    if 48 <= digit && digit <= 57 {
        Some(digit - 48)
    } else if 97 <= digit && digit <= 102 {
        Some(digit - 87)
    } else if 65 <= digit && digit <= 70 {
        Some(digit - 55)
    } else {
        None
    }
}

/// Appends the hex text of `data` to `text`.
pub fn push_hex(text: &mut Vec<u8>, data: &[u8])
    ensures
        final(text)@ == old(text)@ + hex_encoding(data@),
{
    let ghost before = text@;
    let mut i: usize = 0;
    while i < data.len()
        invariant
            i <= data.len(),
            text@.len() == before.len() + 2 * i,
            forall|j: int| 0 <= j < before.len() ==> text@[j] == before[j],
            forall|j: int| 0 <= j < 2 * i ==> text@[before.len() + j] == hex_encoding(data@)[j],
        decreases data.len() - i,
    {
        let b: u8 = data[i];
        text.push(digit_of(b / 16));
        text.push(digit_of(b % 16));
        i += 1;
    }
    assert(text@ =~= before + hex_encoding(data@));
}

/// The hex text of `data`.
pub fn encode_hex(data: &[u8]) -> (text: Vec<u8>)
    ensures
        text@ == hex_encoding(data@),
{
    let mut text: Vec<u8> = Vec::new();
    push_hex(&mut text, data);
    assert(text@ =~= hex_encoding(data@));
    text
}

/// The bytes that `text` stands for, or `None` where it is not hex text.
pub fn decode_hex(text: &[u8]) -> (data: Option<Vec<u8>>)
    ensures
        data matches Some(d) ==> is_hex(text@) && d@ == hex_decoding(text@),
        data is None ==> !is_hex(text@),
{
    if text.len() % 2 != 0 {
        return None;
    }
    let mut data: Vec<u8> = Vec::new();
    let mut i: usize = 0;
    while i < text.len()
        invariant
            i <= text.len(),
            i % 2 == 0,
            text.len() % 2 == 0,
            data@.len() == i / 2,
            forall|j: int| 0 <= j < i ==> hex_value(#[trigger] text@[j]) is Some,
            forall|j: int| 0 <= j < i / 2 ==> data@[j] == hex_decoding(text@)[j],
        decreases text.len() - i,
    {
        let high = value_of(text[i]);
        let low = value_of(text[i + 1]);
        match (high, low) {
            (Some(h), Some(l)) => {
                data.push(16 * h + l);
            },
            _ => {
                return None;
            },
        }
        i += 2;
    }
    assert(data@ =~= hex_decoding(text@));
    Some(data)
}

} // verus!
