//! Bytes written as text, two hexadecimal digits to the byte.

use vstd::prelude::*;

verus! {

/// Why a text does not stand for bytes.
#[derive(Clone, Copy, Debug, PartialEq, Eq, Structural)]
pub enum Error {
    /// The symbol at this place of the text is no hexadecimal digit.
    UnknownSymbol(usize),
    /// The text has an odd number of digits.
    OddLength,
}

/// The digit for a number below 16: `0` to `9`, then `a` to `f`.
pub open spec fn digit(n: int) -> u8 {
    if n < 10 {
        (48 + n) as u8
    } else {
        (87 + n) as u8
    }
}

/// The number that a digit stands for, in either case of the letters.
pub open spec fn value(symbol: u8) -> Option<int> {
    if 48 <= symbol <= 57 {
        Some(symbol - 48)
    } else if 97 <= symbol <= 102 {
        Some(symbol - 87)
    } else if 65 <= symbol <= 70 {
        Some(symbol - 55)
    } else {
        None
    }
}

/// The text for `bytes`: for each byte its high digit, then its low digit.
pub open spec fn encoded(bytes: Seq<u8>) -> Seq<u8> {
    Seq::new(
        2 * bytes.len(),
        |i: int|
            if i % 2 == 0 {
                digit(bytes[i / 2] as int / 16)
            } else {
                digit(bytes[i / 2] as int % 16)
            },
    )
}

/// Whether every symbol of the text before place `n` is a digit.
pub open spec fn digits_up_to(text: Seq<u8>, n: int) -> bool {
    forall|i: int| 0 <= i < n ==> (#[trigger] value(text[i])) is Some
}

/// The bytes that a text of digits stands for.
pub open spec fn bytes_of(text: Seq<u8>) -> Seq<u8> {
    Seq::new(
        text.len() / 2,
        |i: int| (value(text[2 * i]).unwrap() * 16 + value(text[2 * i + 1]).unwrap()) as u8,
    )
}

/// What decoding a text gives: an error at the first symbol that is no
/// digit; else an error where the digits do not pair up; else the bytes.
pub open spec fn decoded(text: Seq<u8>, r: Result<Seq<u8>, Error>) -> bool {
    match r {
        Ok(bytes) => digits_up_to(text, text.len() as int) && text.len() % 2 == 0 && bytes
            == bytes_of(text),
        Err(Error::UnknownSymbol(at)) => at < text.len() && digits_up_to(text, at as int) && value(
            text[at as int],
        ) is None,
        Err(Error::OddLength) => digits_up_to(text, text.len() as int) && text.len() % 2 == 1,
    }
}

/// The digit for a number below 16.
fn digit_of(n: u8) -> (d: u8)
    requires
        n < 16,
    ensures
        d == digit(n as int),
{
    if n < 10 {
        48 + n
    } else {
        87 + n
    }
}

/// The number that a symbol stands for, if it is a digit.
fn value_of(symbol: u8) -> (v: Option<u8>)
    ensures
        match v {
            Some(n) => value(symbol) == Some(n as int) && n < 16,
            None => value(symbol) is None,
        },
{
    if 48 <= symbol && symbol <= 57 {
        Some(symbol - 48)
    } else if 97 <= symbol && symbol <= 102 {
        Some(symbol - 87)
    } else if 65 <= symbol && symbol <= 70 {
        Some(symbol - 55)
    } else {
        None
    }
}

/// Writes bytes as text in lower case.
pub fn encode(input: &[u8]) -> (text: Vec<u8>)
    ensures
        text@ == encoded(input@),
{
    let mut text: Vec<u8> = Vec::new();
    let mut i: usize = 0;
    while i < input.len()
        invariant
            i <= input@.len(),
            text@.len() == 2 * i,
            forall|j: int| 0 <= j < text@.len() ==> #[trigger] text@[j] == encoded(input@)[j],
        decreases input@.len() - i,
    {
        let byte = input[i];
        text.push(digit_of(byte / 16));
        text.push(digit_of(byte % 16));
        i += 1;
    }
    assert(text@ =~= encoded(input@));
    text
}

/// Reads the bytes that a text stands for.
pub fn decode(text: &[u8]) -> (r: Result<Vec<u8>, Error>)
    ensures
        decoded(
            text@,
            match r {
                Ok(bytes) => Ok(bytes@),
                Err(e) => Err(e),
            },
        ),
{
    let mut bytes: Vec<u8> = Vec::new();
    let mut high: Option<u8> = None;
    let mut i: usize = 0;
    while i < text.len()
        invariant
            i <= text@.len(),
            digits_up_to(text@, i as int),
            bytes@.len() == i / 2,
            forall|j: int|
                0 <= j < bytes@.len() ==> #[trigger] bytes@[j] == (value(text@[2 * j]).unwrap() * 16
                    + value(text@[2 * j + 1]).unwrap()) as u8,
            match high {
                Some(n) => i % 2 == 1 && value(text@[i - 1]) == Some(n as int) && n < 16,
                None => i % 2 == 0,
            },
        decreases text@.len() - i,
    {
        let n = match value_of(text[i]) {
            Some(n) => n,
            None => {
                return Err(Error::UnknownSymbol(i));
            },
        };
        match high {
            Some(h) => {
                bytes.push(h * 16 + n);
                high = None;
            },
            None => {
                high = Some(n);
            },
        }
        i += 1;
    }
    if high.is_some() {
        return Err(Error::OddLength);
    }
    assert(bytes@ =~= bytes_of(text@));
    Ok(bytes)
}

/// Reading what was written gives the bytes back.
pub proof fn law_decode_encode(bytes: Seq<u8>)
    ensures
        decoded(encoded(bytes), Ok(bytes)),
{
    let text = encoded(bytes);
    assert forall|i: int| 0 <= i < text.len() implies (#[trigger] value(text[i])) is Some by {
        let b = bytes[i / 2] as int;
        assert(0 <= b / 16 < 16 && 0 <= b % 16 < 16);
    }
    assert forall|i: int| 0 <= i < bytes.len() implies bytes[i] == #[trigger] bytes_of(text)[i] by {
        let b = bytes[i] as int;
        assert(0 <= b / 16 < 16 && 0 <= b % 16 < 16);
        assert((2 * i) % 2 == 0 && (2 * i) / 2 == i);
        assert((2 * i + 1) % 2 == 1 && (2 * i + 1) / 2 == i);
        assert(value(digit(b / 16)) == Some(b / 16));
        assert(value(digit(b % 16)) == Some(b % 16));
        assert((b / 16) * 16 + b % 16 == b);
    }
    assert(bytes =~= bytes_of(text));
}

} // verus!
