//! Hexadecimal text form of 32-byte digests: `0x` followed by 64
//! lowercase hex characters. Parsing accepts the prefix optionally and
//! accepts uppercase digits.

use vstd::prelude::*;
use vstd::string::*;

verus! {

/// The lowercase hex character for a nibble value.
pub open spec fn spec_hex_char(v: u8) -> char {
    if v < 10 {
        ((48 + v) as u32) as char
    } else {
        ((87 + v) as u32) as char
    }
}

/// Whether `c` is a hex digit, upper or lower case.
pub open spec fn spec_is_hex_char(c: char) -> bool {
    (48 <= c as u32 && c as u32 <= 57) || (97 <= c as u32 && c as u32 <= 102) || (65 <= c as u32
        && c as u32 <= 70)
}

/// The nibble value of a hex digit.
pub open spec fn spec_hex_val(c: char) -> u8 {
    if 48 <= c as u32 && c as u32 <= 57 {
        (c as u32 - 48) as u8
    } else if 97 <= c as u32 && c as u32 <= 102 {
        (c as u32 - 87) as u8
    } else {
        (c as u32 - 55) as u8
    }
}

/// The lowercase hex expansion of a byte string, two characters per
/// byte, high nibble first.
pub open spec fn spec_hex_chars(bytes: Seq<u8>) -> Seq<char> {
    Seq::new(2 * bytes.len(), |i: int| if i % 2 == 0 {
        spec_hex_char(bytes[i / 2] / 16)
    } else {
        spec_hex_char(bytes[i / 2] % 16)
    })
}

/// The canonical text form of a byte string: `0x` then its hex chars.
pub open spec fn spec_hex_str(bytes: Seq<u8>) -> Seq<char> {
    seq!['0', 'x'] + spec_hex_chars(bytes)
}

/// The lowercase hex digit of a nibble, as a one-character string.
fn hex_digit_str(v: u8) -> (r: &'static str)
    requires
        v < 16,
    ensures
        r@ == seq![spec_hex_char(v)],
{
    proof {
        reveal_strlit("0");
        reveal_strlit("1");
        reveal_strlit("2");
        reveal_strlit("3");
        reveal_strlit("4");
        reveal_strlit("5");
        reveal_strlit("6");
        reveal_strlit("7");
        reveal_strlit("8");
        reveal_strlit("9");
        reveal_strlit("a");
        reveal_strlit("b");
        reveal_strlit("c");
        reveal_strlit("d");
        reveal_strlit("e");
        reveal_strlit("f");
    }
    let r = match v {
        0 => "0",
        1 => "1",
        2 => "2",
        3 => "3",
        4 => "4",
        5 => "5",
        6 => "6",
        7 => "7",
        8 => "8",
        9 => "9",
        10 => "a",
        11 => "b",
        12 => "c",
        13 => "d",
        14 => "e",
        _ => "f",
    };
    proof {
        assert(r@ =~= seq![spec_hex_char(v)]);
    }
    r
}

/// Formats bytes as `0x` followed by their lowercase hex expansion.
pub fn to_hex_string(bytes: &[u8]) -> (r: String)
    ensures
        r@ == spec_hex_str(bytes@),
{
    let mut s = String::from_str("0x");
    proof {
        reveal_strlit("0x");
        assert(s@ =~= seq!['0', 'x'] + spec_hex_chars(bytes@.take(0)));
    }
    let n = bytes.len();
    let mut i: usize = 0;
    while i < n
        invariant
            i <= n,
            n == bytes@.len(),
            s@ == seq!['0', 'x'] + spec_hex_chars(bytes@.take(i as int)),
        decreases n - i,
    {
        let b = bytes[i];
        s.append(hex_digit_str(b / 16));
        s.append(hex_digit_str(b % 16));
        i = i + 1;
        proof {
            assert(s@ =~= seq!['0', 'x'] + spec_hex_chars(bytes@.take(i as int)));
        }
    }
    proof {
        assert(bytes@.take(n as int) =~= bytes@);
    }
    s
}

/// The character sequence left after stripping an optional `0x` prefix.
pub open spec fn spec_strip_prefix(s: Seq<char>) -> Seq<char> {
    if s.len() >= 2 && s[0] == '0' && s[1] == 'x' {
        s.skip(2)
    } else {
        s
    }
}

/// Whether a stripped hex body parses as exactly 32 bytes.
pub open spec fn spec_hex_body_ok(body: Seq<char>) -> bool {
    body.len() == 64 && forall|i: int| 0 <= i < body.len() ==> spec_is_hex_char(#[trigger] body[i])
}

/// The bytes a well-formed 64-character hex body denotes.
pub open spec fn spec_hex_body_bytes(body: Seq<char>) -> Seq<u8> {
    Seq::new(32, |i: int| (16 * spec_hex_val(body[2 * i]) + spec_hex_val(body[2 * i + 1])) as u8)
}

/// Classifies one character and returns its nibble value if it is a
/// hex digit.
fn hex_val_of(c: char) -> (r: Option<u8>)
    ensures
        r is Some <==> spec_is_hex_char(c),
        r is Some ==> r->0 == spec_hex_val(c) && r->0 < 16,
{
    let u = c as u32;
    if u >= 48 && u <= 57 {
        Some((u - 48) as u8)
    } else if u >= 97 && u <= 102 {
        Some((u - 97 + 10) as u8)
    } else if u >= 65 && u <= 70 {
        Some((u - 65 + 10) as u8)
    } else {
        None
    }
}

/// Parses a 32-byte value from hex text with an optional `0x` prefix.
/// Succeeds exactly on a 64-hex-character body and returns its bytes.
pub fn parse_hex32(s: &str) -> (r: Result<Vec<u8>, String>)
    ensures
        r is Ok <==> spec_hex_body_ok(spec_strip_prefix(s@)),
        r is Ok ==> r->Ok_0@ == spec_hex_body_bytes(spec_strip_prefix(s@)),
{
    let n = s.unicode_len();
    let start: usize = if n >= 2 && s.get_char(0) == '0' && s.get_char(1) == 'x' {
        2
    } else {
        0
    };
    let ghost body: Seq<char> = spec_strip_prefix(s@);
    proof {
        assert(body =~= s@.skip(start as int));
    }
    if n - start != 64 {
        return Err(String::from_str("expected 64 hex characters"));
    }
    let mut out: Vec<u8> = Vec::new();
    let mut i: usize = 0;
    while i < 32
        invariant
            i <= 32,
            n == s@.len(),
            start + 64 == n,
            body == s@.skip(start as int),
            body.len() == 64,
            out@.len() == i,
            forall|j: int| 0 <= j < 2 * i ==> spec_is_hex_char(#[trigger] body[j]),
            forall|j: int| 0 <= j < i ==> out@[j] == (16 * spec_hex_val(body[2 * j])
                + spec_hex_val(body[2 * j + 1])) as u8,
        decreases 32 - i,
    {
        let c0 = s.get_char(start + 2 * i);
        let c1 = s.get_char(start + 2 * i + 1);
        proof {
            assert(body[2 * i as int] == c0);
            assert(body[2 * i as int + 1] == c1);
        }
        let v0 = match hex_val_of(c0) {
            Some(v) => v,
            None => {
                return Err(String::from_str("invalid hex character"));
            },
        };
        let v1 = match hex_val_of(c1) {
            Some(v) => v,
            None => {
                return Err(String::from_str("invalid hex character"));
            },
        };
        out.push(16 * v0 + v1);
        i = i + 1;
    }
    proof {
        assert(spec_hex_body_ok(body));
        assert(out@ =~= spec_hex_body_bytes(body));
    }
    Ok(out)
}

/// A hex digit's value maps back to the digit: formatting then parsing
/// one nibble is the identity.
pub proof fn lemma_hex_char_val(v: u8)
    requires
        v < 16,
    ensures
        spec_is_hex_char(spec_hex_char(v)),
        spec_hex_val(spec_hex_char(v)) == v,
{
}

/// Formatting bytes and stripping the prefix gives a well-formed body
/// that denotes the same bytes.
pub proof fn lemma_hex_roundtrip(bytes: Seq<u8>)
    requires
        bytes.len() == 32,
    ensures
        spec_strip_prefix(spec_hex_str(bytes)) == spec_hex_chars(bytes),
        spec_hex_body_ok(spec_hex_chars(bytes)),
        spec_hex_body_bytes(spec_hex_chars(bytes)) == bytes,
{
    let s = spec_hex_str(bytes);
    let body = spec_hex_chars(bytes);
    assert(s[0] == '0' && s[1] == 'x');
    assert(s.skip(2) =~= body);
    assert forall|i: int| 0 <= i < body.len() implies spec_is_hex_char(#[trigger] body[i]) by {
        if i % 2 == 0 {
            lemma_hex_char_val(bytes[i / 2] / 16);
        } else {
            lemma_hex_char_val(bytes[i / 2] % 16);
        }
    }
    assert forall|i: int| 0 <= i < 32 implies spec_hex_body_bytes(body)[i] == bytes[i] by {
        assert((2 * i) / 2 == i && (2 * i) % 2 == 0) by (nonlinear_arith);
        assert((2 * i + 1) / 2 == i && (2 * i + 1) % 2 == 1) by (nonlinear_arith);
        lemma_hex_char_val(bytes[i] / 16);
        lemma_hex_char_val(bytes[i] % 16);
        assert(body[2 * i] == spec_hex_char(bytes[i] / 16));
        assert(body[2 * i + 1] == spec_hex_char(bytes[i] % 16));
        assert(bytes[i] == 16 * (bytes[i] / 16) + bytes[i] % 16) by (nonlinear_arith);
    }
    assert(spec_hex_body_bytes(body) =~= bytes);
}

} // verus!
