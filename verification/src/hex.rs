//! Lowercase hexadecimal encoding of 16-byte identifiers and its parser.

use vstd::prelude::*;

verus! {

/// Number of bytes in every identifier of the workspace.
pub const ID_BYTES: usize = 16;

/// Lowercase hexadecimal digit of a nibble.
pub open spec fn hex_digit(n: u8) -> char {
    if n < 10 {
        (48 + n) as char
    } else {
        (87 + n) as char
    }
}

/// Value of one hexadecimal digit, upper or lower case.
pub open spec fn hex_value(c: char) -> Option<u8> {
    let u = c as u32;
    if 48 <= u <= 57 {
        Some((u - 48) as u8)
    } else if 97 <= u <= 102 {
        Some((u - 87) as u8)
    } else if 65 <= u <= 70 {
        Some((u - 55) as u8)
    } else {
        None
    }
}

/// The byte written as the two hexadecimal digits `a b`, if both are
/// hexadecimal digits.
pub open spec fn pair_value(a: char, b: char) -> Option<u8> {
    match (hex_value(a), hex_value(b)) {
        (Some(x), Some(y)) => Some((16 * x + y) as u8),
        _ => None,
    }
}

/// The lowercase hexadecimal text of a byte sequence, two digits per byte.
pub open spec fn hex_text(bytes: Seq<u8>) -> Seq<char> {
    Seq::new(
        2 * bytes.len(),
        |i: int|
            if i % 2 == 0 {
                hex_digit(bytes[i / 2] / 16)
            } else {
                hex_digit(bytes[i / 2] % 16)
            },
    )
}

/// Every character of `s` is a hexadecimal digit.
pub open spec fn all_hex(s: Seq<char>) -> bool {
    forall|i: int| 0 <= i < s.len() ==> (#[trigger] hex_value(s[i])) is Some
}

/// Identifier text holds hexadecimal digits only: any other character
/// makes it invalid.
pub proof fn lemma_decode_needs_hex(s: Seq<char>)
    ensures
        decode_hex_spec(s) is Some ==> all_hex(s),
{
    if decode_hex_spec(s) is Some {
        assert forall|i: int| 0 <= i < s.len() implies (#[trigger] hex_value(s[i])) is Some by {
            let k = i / 2;
            assert(0 <= k < ID_BYTES);
            assert(pair_value(s[2 * k], s[2 * k + 1]) is Some);
            assert(i == 2 * k || i == 2 * k + 1);
        }
    }
}

/// Whether every pair of `s` is a valid two-digit hexadecimal byte.
pub open spec fn pairs_valid(s: Seq<char>, count: int) -> bool {
    forall|i: int| 0 <= i < count ==> (#[trigger] pair_value(s[2 * i], s[2 * i + 1])) is Some
}

/// The bytes that a 32-character identifier text stands for, or `None`
/// when it is not one.
pub open spec fn decode_hex_spec(s: Seq<char>) -> Option<Seq<u8>> {
    if s.len() == 2 * ID_BYTES && pairs_valid(s, ID_BYTES as int) {
        Some(Seq::new(ID_BYTES as nat, |i: int| pair_value(s[2 * i], s[2 * i + 1])->0))
    } else {
        None
    }
}

fn digit(n: u8) -> (c: char)
    requires
        n < 16,
    ensures
        c == hex_digit(n),
{
    if n < 10 {
        (48 + n) as char
    } else {
        (87 + n) as char
    }
}

/// Value of one hexadecimal digit, upper or lower case.
pub fn parse_digit(c: char) -> (r: Option<u8>)
    ensures
        r == hex_value(c),
{
    let u = c as u32;
    if 48 <= u && u <= 57 {
        Some((u - 48) as u8)
    } else if 97 <= u && u <= 102 {
        Some((u - 87) as u8)
    } else if 65 <= u && u <= 70 {
        Some((u - 55) as u8)
    } else {
        None
    }
}

/// Parses one byte from two hexadecimal digits.
pub fn parse_pair(a: char, b: char) -> (r: Option<u8>)
    ensures
        r == pair_value(a, b),
{
    match (parse_digit(a), parse_digit(b)) {
        (Some(x), Some(y)) => Some(16 * x + y),
        _ => None,
    }
}

/// Decodes a 32-character hexadecimal identifier into its 16 bytes.
pub fn decode_hex(value: &str) -> (r: Option<[u8; 16]>)
    ensures
        match decode_hex_spec(value@) {
            Some(bytes) => r matches Some(a) && a@ == bytes,
            None => r is None,
        },
        !all_hex(value@) ==> r is None,
{
    proof {
        lemma_decode_needs_hex(value@);
    }
    if value.unicode_len() != 2 * ID_BYTES {
        return None;
    }
    let mut decoded = [0u8; 16];
    let mut i: usize = 0;
    while i < ID_BYTES
        invariant
            i <= ID_BYTES,
            value@.len() == 2 * ID_BYTES,
            decoded@.len() == ID_BYTES,
            pairs_valid(value@, i as int),
            forall|j: int|
                0 <= j < i ==> decoded@[j] == pair_value(value@[2 * j], value@[2 * j + 1])->0,
        decreases ID_BYTES - i,
    {
        let a = value.get_char(2 * i);
        let b = value.get_char(2 * i + 1);
        match parse_pair(a, b) {
            Some(byte) => {
                decoded[i] = byte;
            },
            None => {
                assert(!pairs_valid(value@, ID_BYTES as int));
                return None;
            },
        }
        i += 1;
    }
    assert(decoded@ =~= decode_hex_spec(value@)->0);
    Some(decoded)
}

/// Encodes 16 bytes as 32 lowercase hexadecimal digits.
pub fn encode_hex(bytes: &[u8; 16]) -> (s: String)
    ensures
        s@ == hex_text(bytes@),
{
    let mut s = String::new();
    let mut i: usize = 0;
    while i < ID_BYTES
        invariant
            i <= ID_BYTES,
            bytes@.len() == ID_BYTES,
            s@ =~= hex_text(bytes@).take(2 * i),
        decreases ID_BYTES - i,
    {
        let b = bytes[i];
        crate::text::push_char(&mut s, digit(b / 16));
        crate::text::push_char(&mut s, digit(b % 16));
        assert(s@ =~= hex_text(bytes@).take(2 * i + 2));
        i += 1;
    }
    s
}

proof fn lemma_hex_digit_value(n: u8)
    requires
        n < 16,
    ensures
        hex_value(hex_digit(n)) == Some(n),
{
}

/// Decoding the lowercase hexadecimal text of 16 bytes gives those bytes back.
pub proof fn lemma_hex_round_trip(bytes: Seq<u8>)
    requires
        bytes.len() == ID_BYTES,
    ensures
        decode_hex_spec(hex_text(bytes)) == Some(bytes),
{
    let s = hex_text(bytes);
    assert forall|i: int| 0 <= i < ID_BYTES implies #[trigger] pair_value(s[2 * i], s[2 * i + 1])
        == Some(bytes[i]) by {
        assert((2 * i) % 2 == 0 && (2 * i) / 2 == i);
        assert((2 * i + 1) % 2 == 1 && (2 * i + 1) / 2 == i);
        lemma_hex_digit_value(bytes[i] / 16);
        lemma_hex_digit_value(bytes[i] % 16);
    }
    assert(pairs_valid(s, ID_BYTES as int));
    assert(decode_hex_spec(s)->0 =~= bytes);
}

} // verus!
