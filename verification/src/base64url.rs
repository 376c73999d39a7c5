//! URL-safe base64 without padding, the text form in which a cookie carries
//! its payload and its signature.
//!
//! Decoding is strict: a text is accepted only if it is the encoding of some
//! byte string, so every byte string has exactly one accepted text.

use vstd::prelude::*;

verus! {

/// The character that stands for the six-bit value `v`.
pub open spec fn symbol(v: int) -> u8
    recommends
        0 <= v < 64,
{
    if v < 26 {
        (65 + v) as u8
    } else if v < 52 {
        (71 + v) as u8
    } else if v < 62 {
        (v - 4) as u8
    } else if v == 62 {
        45u8
    } else {
        95u8
    }
}

/// The six-bit value that the character `c` stands for, if it is one of the
/// 64 characters of the alphabet.
pub open spec fn sextet(c: u8) -> Option<int> {
    if 65 <= c <= 90 {
        Some(c - 65)
    } else if 97 <= c <= 122 {
        Some(c - 71)
    } else if 48 <= c <= 57 {
        Some(c + 4)
    } else if c == 45 {
        Some(62int)
    } else if c == 95 {
        Some(63int)
    } else {
        None
    }
}

/// The text that encodes `bytes`: every three bytes give four characters, and
/// a last group of one or two bytes gives two or three.
pub open spec fn encoding(bytes: Seq<u8>) -> Seq<u8>
    decreases bytes.len(),
{
    if bytes.len() == 0 {
        Seq::empty()
    } else if bytes.len() == 1 {
        let b0 = bytes[0] as int;
        seq![symbol(b0 / 4), symbol((b0 % 4) * 16)]
    } else if bytes.len() == 2 {
        let b0 = bytes[0] as int;
        let b1 = bytes[1] as int;
        seq![symbol(b0 / 4), symbol((b0 % 4) * 16 + b1 / 16), symbol((b1 % 16) * 4)]
    } else {
        let b0 = bytes[0] as int;
        let b1 = bytes[1] as int;
        let b2 = bytes[2] as int;
        seq![
            symbol(b0 / 4),
            symbol((b0 % 4) * 16 + b1 / 16),
            symbol((b1 % 16) * 4 + b2 / 64),
            symbol(b2 % 64),
        ] + encoding(bytes.skip(3))
    }
}

/// The bytes that `text` encodes, or `None` where `text` is the encoding of
/// nothing.
pub open spec fn decoding(text: Seq<u8>) -> Option<Seq<u8>> {
    if exists|bytes: Seq<u8>| encoding(bytes) == text {
        Some(choose|bytes: Seq<u8>| encoding(bytes) == text)
    } else {
        None
    }
}

/// Group-by-group decoding, which the executable decoder follows.
spec fn strict_decoding(text: Seq<u8>) -> Option<Seq<u8>>
    decreases text.len(),
{
    if text.len() == 0 {
        Some(Seq::empty())
    } else if text.len() == 1 {
        None
    } else if text.len() == 2 {
        match (sextet(text[0]), sextet(text[1])) {
            (Some(a), Some(b)) => if b % 16 == 0 {
                Some(seq![(a * 4 + b / 16) as u8])
            } else {
                None
            },
            _ => None,
        }
    } else if text.len() == 3 {
        match (sextet(text[0]), sextet(text[1]), sextet(text[2])) {
            (Some(a), Some(b), Some(c)) => if c % 4 == 0 {
                Some(seq![(a * 4 + b / 16) as u8, ((b % 16) * 16 + c / 4) as u8])
            } else {
                None
            },
            _ => None,
        }
    } else {
        match (sextet(text[0]), sextet(text[1]), sextet(text[2]), sextet(text[3])) {
            (Some(a), Some(b), Some(c), Some(d)) => match strict_decoding(text.skip(4)) {
                Some(rest) => Some(
                    seq![
                        (a * 4 + b / 16) as u8,
                        ((b % 16) * 16 + c / 4) as u8,
                        ((c % 4) * 64 + d) as u8,
                    ] + rest,
                ),
                None => None,
            },
            _ => None,
        }
    }
}

proof fn lemma_sextet_of_symbol(v: int)
    requires
        0 <= v < 64,
    ensures
        sextet(symbol(v)) == Some(v),
{
}

proof fn lemma_symbol_of_sextet(c: u8)
    requires
        sextet(c) is Some,
    ensures
        0 <= sextet(c).unwrap() < 64,
        symbol(sextet(c).unwrap()) == c,
{
}

proof fn lemma_strict_decoding_of_encoding(bytes: Seq<u8>)
    ensures
        strict_decoding(encoding(bytes)) == Some(bytes),
    decreases bytes.len(),
{
    let text = encoding(bytes);
    if bytes.len() == 0 {
        assert(bytes =~= Seq::empty());
    } else if bytes.len() == 1 {
        let b0 = bytes[0] as int;
        lemma_sextet_of_symbol(b0 / 4);
        lemma_sextet_of_symbol((b0 % 4) * 16);
        assert(bytes =~= seq![((b0 / 4) * 4 + ((b0 % 4) * 16) / 16) as u8]);
    } else if bytes.len() == 2 {
        let b0 = bytes[0] as int;
        let b1 = bytes[1] as int;
        let a = b0 / 4;
        let b = (b0 % 4) * 16 + b1 / 16;
        let c = (b1 % 16) * 4;
        lemma_sextet_of_symbol(a);
        lemma_sextet_of_symbol(b);
        lemma_sextet_of_symbol(c);
        assert(bytes =~= seq![(a * 4 + b / 16) as u8, ((b % 16) * 16 + c / 4) as u8]);
    } else {
        let b0 = bytes[0] as int;
        let b1 = bytes[1] as int;
        let b2 = bytes[2] as int;
        let a = b0 / 4;
        let b = (b0 % 4) * 16 + b1 / 16;
        let c = (b1 % 16) * 4 + b2 / 64;
        let d = b2 % 64;
        lemma_sextet_of_symbol(a);
        lemma_sextet_of_symbol(b);
        lemma_sextet_of_symbol(c);
        lemma_sextet_of_symbol(d);
        lemma_strict_decoding_of_encoding(bytes.skip(3));
        assert(text.skip(4) =~= encoding(bytes.skip(3)));
        assert(bytes =~= seq![
            (a * 4 + b / 16) as u8,
            ((b % 16) * 16 + c / 4) as u8,
            ((c % 4) * 64 + d) as u8,
        ] + bytes.skip(3));
    }
}

proof fn lemma_encoding_of_strict_decoding(text: Seq<u8>)
    requires
        strict_decoding(text) is Some,
    ensures
        encoding(strict_decoding(text).unwrap()) == text,
    decreases text.len(),
{
    let bytes = strict_decoding(text).unwrap();
    if text.len() == 0 {
        assert(text =~= Seq::empty());
    } else if text.len() == 2 {
        lemma_symbol_of_sextet(text[0]);
        lemma_symbol_of_sextet(text[1]);
        let a = sextet(text[0]).unwrap();
        let b = sextet(text[1]).unwrap();
        let x = a * 4 + b / 16;
        assert(bytes[0] == x);
        assert(x / 4 == a && (x % 4) * 16 == b);
        assert(encoding(bytes) =~= text);
    } else if text.len() == 3 {
        lemma_symbol_of_sextet(text[0]);
        lemma_symbol_of_sextet(text[1]);
        lemma_symbol_of_sextet(text[2]);
        let a = sextet(text[0]).unwrap();
        let b = sextet(text[1]).unwrap();
        let c = sextet(text[2]).unwrap();
        let x = a * 4 + b / 16;
        let y = (b % 16) * 16 + c / 4;
        assert(bytes[0] == x && bytes[1] == y);
        assert(x / 4 == a && (x % 4) * 16 + y / 16 == b && (y % 16) * 4 == c);
        assert(encoding(bytes) =~= text);
    } else if text.len() >= 4 {
        lemma_symbol_of_sextet(text[0]);
        lemma_symbol_of_sextet(text[1]);
        lemma_symbol_of_sextet(text[2]);
        lemma_symbol_of_sextet(text[3]);
        let a = sextet(text[0]).unwrap();
        let b = sextet(text[1]).unwrap();
        let c = sextet(text[2]).unwrap();
        let d = sextet(text[3]).unwrap();
        let x = a * 4 + b / 16;
        let y = (b % 16) * 16 + c / 4;
        let z = (c % 4) * 64 + d;
        let rest = strict_decoding(text.skip(4)).unwrap();
        lemma_encoding_of_strict_decoding(text.skip(4));
        assert(bytes[0] == x && bytes[1] == y && bytes[2] == z);
        assert(x / 4 == a && (x % 4) * 16 + y / 16 == b);
        assert((y % 16) * 4 + z / 64 == c && z % 64 == d);
        assert(bytes.skip(3) =~= rest);
        assert(encoding(bytes) =~= text);
    }
}

/// Decoding, as defined by inversion, is what the group-by-group decoder
/// computes.
proof fn lemma_decoding_is_strict(text: Seq<u8>)
    ensures
        decoding(text) == strict_decoding(text),
{
    match strict_decoding(text) {
        Some(bytes) => {
            lemma_encoding_of_strict_decoding(text);
            let chosen = choose|other: Seq<u8>| encoding(other) == text;
            lemma_strict_decoding_of_encoding(chosen);
        },
        None => {
            if exists|bytes: Seq<u8>| encoding(bytes) == text {
                let bytes = choose|bytes: Seq<u8>| encoding(bytes) == text;
                lemma_strict_decoding_of_encoding(bytes);
            }
        },
    }
}

/// Decoding undoes encoding.
pub proof fn lemma_decoding_of_encoding(bytes: Seq<u8>)
    ensures
        decoding(encoding(bytes)) == Some(bytes),
{
    lemma_decoding_is_strict(encoding(bytes));
    lemma_strict_decoding_of_encoding(bytes);
}

/// A text that decodes is the encoding of what it decodes to: no two texts
/// decode to the same bytes.
pub proof fn lemma_encoding_of_decoding(text: Seq<u8>)
    requires
        decoding(text) is Some,
    ensures
        encoding(decoding(text).unwrap()) == text,
{
}

/// Every character of an encoding belongs to the alphabet.
pub proof fn lemma_encoding_alphabet(bytes: Seq<u8>)
    ensures
        forall|i: int| 0 <= i < encoding(bytes).len() ==> sextet(#[trigger] encoding(bytes)[i]) is Some,
    decreases bytes.len(),
{
    let text = encoding(bytes);
    if bytes.len() == 0 {
    } else if bytes.len() == 1 {
        let b0 = bytes[0] as int;
        lemma_sextet_of_symbol(b0 / 4);
        lemma_sextet_of_symbol((b0 % 4) * 16);
    } else if bytes.len() == 2 {
        let b0 = bytes[0] as int;
        let b1 = bytes[1] as int;
        lemma_sextet_of_symbol(b0 / 4);
        lemma_sextet_of_symbol((b0 % 4) * 16 + b1 / 16);
        lemma_sextet_of_symbol((b1 % 16) * 4);
    } else {
        let b0 = bytes[0] as int;
        let b1 = bytes[1] as int;
        let b2 = bytes[2] as int;
        lemma_sextet_of_symbol(b0 / 4);
        lemma_sextet_of_symbol((b0 % 4) * 16 + b1 / 16);
        lemma_sextet_of_symbol((b1 % 16) * 4 + b2 / 64);
        lemma_sextet_of_symbol(b2 % 64);
        lemma_encoding_alphabet(bytes.skip(3));
        let tail = encoding(bytes.skip(3));
        assert forall|i: int| 0 <= i < text.len() implies sextet(#[trigger] text[i]) is Some by {
            if i >= 4 {
                assert(text[i] == tail[i - 4]);
            }
        }
    }
}

fn symbol_of(v: u8) -> (c: u8)
    requires
        v < 64,
    ensures
        c == symbol(v as int),
{
    if v < 26 {
        65 + v
    } else if v < 52 {
        71 + v
    } else if v < 62 {
        v - 4
    } else if v == 62 {
        45
    } else {
        95
    }
}

fn sextet_of(c: u8) -> (v: Option<u8>)
    ensures
        match v {
            Some(x) => sextet(c) == Some(x as int),
            None => sextet(c) is None,
        },
{
    if 65 <= c && c <= 90 {
        Some(c - 65)
    } else if 97 <= c && c <= 122 {
        Some(c - 71)
    } else if 48 <= c && c <= 57 {
        Some(c + 4)
    } else if c == 45 {
        Some(62)
    } else if c == 95 {
        Some(63)
    } else {
        None
    }
}

/// Encodes `bytes`.
pub fn encode(bytes: &[u8]) -> (text: Vec<u8>)
    ensures
        text@ == encoding(bytes@),
{
    let n = bytes.len();
    let mut text: Vec<u8> = Vec::new();
    let mut i: usize = 0;
    assert(bytes@.skip(0) =~= bytes@);
    while n - i >= 3
        invariant
            n == bytes@.len(),
            i <= n,
            text@ + encoding(bytes@.skip(i as int)) == encoding(bytes@),
        decreases n - i,
    {
        let b0 = bytes[i];
        let b1 = bytes[i + 1];
        let b2 = bytes[i + 2];
        let ghost before = text@;
        let ghost rest = bytes@.skip(i as int);
        text.push(symbol_of(b0 / 4));
        text.push(symbol_of((b0 % 4) * 16 + b1 / 16));
        text.push(symbol_of((b1 % 16) * 4 + b2 / 64));
        text.push(symbol_of(b2 % 64));
        proof {
            assert(rest.skip(3) =~= bytes@.skip(i + 3));
            assert(text@ + encoding(bytes@.skip(i + 3)) =~= before + encoding(rest));
        }
        i = i + 3;
    }
    let ghost before = text@;
    let ghost rest = bytes@.skip(i as int);
    if n - i == 1 {
        let b0 = bytes[i];
        text.push(symbol_of(b0 / 4));
        text.push(symbol_of((b0 % 4) * 16));
        assert(text@ =~= before + encoding(rest));
    } else if n - i == 2 {
        let b0 = bytes[i];
        let b1 = bytes[i + 1];
        text.push(symbol_of(b0 / 4));
        text.push(symbol_of((b0 % 4) * 16 + b1 / 16));
        text.push(symbol_of((b1 % 16) * 4));
        assert(text@ =~= before + encoding(rest));
    } else {
        assert(text@ =~= before + encoding(rest));
    }
    text
}

/// Decodes `text`: the bytes of which it is the encoding, or `None` where it
/// is the encoding of nothing.
pub fn decode(text: &[u8]) -> (bytes: Option<Vec<u8>>)
    ensures
        match bytes {
            Some(found) => decoding(text@) == Some(found@),
            None => decoding(text@) is None,
        },
{
    let n = text.len();
    let mut bytes: Vec<u8> = Vec::new();
    let mut i: usize = 0;
    proof {
        lemma_decoding_is_strict(text@);
        assert(text@.skip(0) =~= text@);
        assert(bytes@ + Seq::<u8>::empty() =~= bytes@);
    }
    while n - i >= 4
        invariant
            n == text@.len(),
            i <= n,
            decoding(text@) == strict_decoding(text@),
            strict_decoding(text@) == match strict_decoding(text@.skip(i as int)) {
                Some(rest) => Some(bytes@ + rest),
                None => None,
            },
        decreases n - i,
    {
        let ghost rest = text@.skip(i as int);
        let ghost before = bytes@;
        assert(rest[0] == text@[i as int] && rest[1] == text@[i + 1] && rest[2] == text@[i + 2]
            && rest[3] == text@[i + 3]);
        let a = match sextet_of(text[i]) {
            Some(v) => v,
            None => { return None; },
        };
        let b = match sextet_of(text[i + 1]) {
            Some(v) => v,
            None => { return None; },
        };
        let c = match sextet_of(text[i + 2]) {
            Some(v) => v,
            None => { return None; },
        };
        let d = match sextet_of(text[i + 3]) {
            Some(v) => v,
            None => { return None; },
        };
        bytes.push(a * 4 + b / 16);
        bytes.push((b % 16) * 16 + c / 4);
        bytes.push((c % 4) * 64 + d);
        proof {
            assert(rest.skip(4) =~= text@.skip(i + 4));
            match strict_decoding(rest.skip(4)) {
                Some(tail) => {
                    assert(bytes@ + tail =~= before + strict_decoding(rest).unwrap());
                },
                None => {},
            }
        }
        i = i + 4;
    }
    let ghost rest = text@.skip(i as int);
    let ghost before = bytes@;
    if n - i == 0 {
        assert(bytes@ =~= before + Seq::<u8>::empty());
        Some(bytes)
    } else if n - i == 1 {
        None
    } else if n - i == 2 {
        let a = match sextet_of(text[i]) {
            Some(v) => v,
            None => { return None; },
        };
        let b = match sextet_of(text[i + 1]) {
            Some(v) => v,
            None => { return None; },
        };
        if b % 16 != 0 {
            return None;
        }
        bytes.push(a * 4 + b / 16);
        assert(bytes@ =~= before + strict_decoding(rest).unwrap());
        Some(bytes)
    } else {
        let a = match sextet_of(text[i]) {
            Some(v) => v,
            None => { return None; },
        };
        let b = match sextet_of(text[i + 1]) {
            Some(v) => v,
            None => { return None; },
        };
        let c = match sextet_of(text[i + 2]) {
            Some(v) => v,
            None => { return None; },
        };
        if c % 4 != 0 {
            return None;
        }
        bytes.push(a * 4 + b / 16);
        bytes.push((b % 16) * 16 + c / 4);
        assert(bytes@ =~= before + strict_decoding(rest).unwrap());
        Some(bytes)
    }
}

} // verus!
