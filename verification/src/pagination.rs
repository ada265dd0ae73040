//! Bounded pages of results and their opaque continuation cursors.

use vstd::prelude::*;

use crate::hex::{decode_hex_spec, hex_digit, hex_text, hex_value};
use crate::identity::{NodeId, lemma_node_id_text_round_trip};
use crate::text::{chars_of, find_char, index_of, lemma_index_of_bounds, push_char};

verus! {

/// Default result page size.
pub const DEFAULT_PAGE_SIZE: usize = 100;

/// Maximum accepted result page size.
pub const MAX_PAGE_SIZE: usize = 1000;

/// Opaque cursor returned by a paginated read.
///
/// Cursors are continuation state, not a persistent storage format. Clients
/// may pass their textual representation unchanged across an IPC boundary.
#[derive(Clone, Copy, Debug, PartialEq, Eq)]
pub struct Cursor {
    pub(crate) position: i64,
    pub(crate) id: NodeId,
}

/// Request for one bounded page of children.
#[derive(Clone, Copy, Debug, PartialEq, Eq)]
pub struct Page {
    /// Maximum number of nodes to return.
    pub limit: usize,
    /// Opaque continuation returned by the preceding page.
    pub after: Option<Cursor>,
}

impl Default for Page {
    fn default() -> (r: Self)
        ensures
            r.limit == DEFAULT_PAGE_SIZE,
            r.after is None,
    {
        Page { limit: DEFAULT_PAGE_SIZE, after: None }
    }
}

/// The last `n` hexadecimal digits of `v`, most significant first.
pub open spec fn hex_fixed(v: nat, n: nat) -> Seq<char>
    decreases n,
{
    if n == 0 {
        seq![]
    } else {
        hex_fixed(v / 16, (n - 1) as nat).push(hex_digit((v % 16) as u8))
    }
}

/// The number that a sequence of hexadecimal digits stands for.
pub open spec fn hex_digits_value(s: Seq<char>) -> Option<nat>
    decreases s.len(),
{
    if s.len() == 0 {
        Some(0)
    } else {
        match (hex_digits_value(s.drop_last()), hex_value(s.last())) {
            (Some(a), Some(d)) => Some(a * 16 + d as nat),
            _ => None,
        }
    }
}

/// What `u64::from_str_radix(s, 16)` returns on a text of at most 16
/// characters: an optional `+` followed by at least one hexadecimal digit.
pub open spec fn radix16_value(s: Seq<char>) -> Option<nat> {
    let digits = if s.len() > 1 && s[0] == '+' {
        s.drop_first()
    } else {
        s
    };
    if digits.len() == 0 {
        None
    } else {
        hex_digits_value(digits)
    }
}

/// The text of a cursor: a version tag, its position as 16 hexadecimal
/// digits of its two's-complement bits, and its node identifier.
pub open spec fn cursor_text(position: i64, id: Seq<u8>) -> Seq<char> {
    seq!['v', '1', ':'] + hex_fixed((position as u64) as nat, 16) + seq![':'] + hex_text(id)
}

/// The position and node bytes of a cursor text, or `None` when it is not
/// one: exactly three `:`-separated parts, `v1`, 16 characters that
/// `u64::from_str_radix` reads in base 16, and a node identifier.
pub open spec fn parse_cursor_spec(s: Seq<char>) -> Option<(i64, Seq<u8>)> {
    let i1 = index_of(s, ':');
    let r1 = s.skip(i1 + 1);
    let i2 = index_of(r1, ':');
    let r2 = r1.skip(i2 + 1);
    let p2 = r1.take(i2);
    if i1 < s.len() && s.take(i1) == seq!['v', '1'] && i2 < r1.len() && index_of(r2, ':')
        == r2.len() && p2.len() == 16 && radix16_value(p2) is Some && decode_hex_spec(r2) is Some {
        Some((((radix16_value(p2)->0) as u64) as i64, decode_hex_spec(r2)->0))
    } else {
        None
    }
}

impl View for Cursor {
    type V = (i64, Seq<u8>);

    closed spec fn view(&self) -> (i64, Seq<u8>) {
        (self.position, self.id@)
    }
}

/// Sixteen to the power `n`.
pub open spec fn pow16(n: nat) -> nat
    decreases n,
{
    if n == 0 {
        1
    } else {
        16 * pow16((n - 1) as nat)
    }
}

proof fn lemma_pow16_monotone(a: nat, b: nat)
    requires
        a <= b,
    ensures
        pow16(a) <= pow16(b),
    decreases b,
{
    if a < b {
        lemma_pow16_monotone(a, (b - 1) as nat);
    }
}

proof fn lemma_pow16_15()
    ensures
        pow16(15) == 0x1000_0000_0000_0000,
        pow16(16) == 0x1_0000_0000_0000_0000,
{
    reveal_with_fuel(pow16, 17);
}

proof fn lemma_hex_digits_bound(s: Seq<char>)
    ensures
        hex_digits_value(s) matches Some(v) ==> v < pow16(s.len()),
    decreases s.len(),
{
    if s.len() > 0 {
        lemma_hex_digits_bound(s.drop_last());
        if let (Some(a), Some(d)) = (hex_digits_value(s.drop_last()), hex_value(s.last())) {
            let p = pow16((s.len() - 1) as nat);
            assert(a * 16 + d < p * 16) by (nonlinear_arith)
                requires
                    a < p,
                    d < 16,
            ;
        }
    }
}

proof fn lemma_hex_fixed_value(v: nat, n: nat)
    ensures
        hex_fixed(v, n).len() == n,
        v < pow16(n) ==> hex_digits_value(hex_fixed(v, n)) == Some(v),
        forall|j: int| 0 <= j < n ==> hex_value(#[trigger] hex_fixed(v, n)[j]) is Some,
    decreases n,
{
    if n > 0 {
        lemma_hex_fixed_value(v / 16, (n - 1) as nat);
        let s = hex_fixed(v, n);
        assert(s.drop_last() =~= hex_fixed(v / 16, (n - 1) as nat));
        assert(hex_value(hex_digit((v % 16) as u8)) == Some((v % 16) as u8));
        if v < pow16(n) {
            let p = pow16((n - 1) as nat);
            assert(v / 16 < p) by (nonlinear_arith)
                requires
                    v < p * 16,
            ;
        }
        assert forall|j: int| 0 <= j < n implies hex_value(#[trigger] hex_fixed(v, n)[j]) is Some by {
            if j < n - 1 {
                assert(hex_fixed(v, n)[j] == hex_fixed(v / 16, (n - 1) as nat)[j]);
            }
        }
    }
}

impl Cursor {
    /// The textual form of the cursor, which [`Cursor::parse`] reads back.
    pub fn to_string(&self) -> (s: String)
        ensures
            s@ == cursor_text(self@.0, self@.1),
    {
        let mut digits: Vec<char> = Vec::new();
        let mut value: u64 = self.position as u64;
        let ghost full = hex_fixed(value as nat, 16);
        let ghost mut built: Seq<char> = seq![];
        let mut k: usize = 0;
        while k < 16
            invariant
                k <= 16,
                full == hex_fixed(value as nat, (16 - k) as nat) + built,
                built.len() == k,
                digits@.len() == k,
                forall|j: int| 0 <= j < k ==> digits@[j] == built[k - 1 - j],
            decreases 16 - k,
        {
            let d = value % 16;
            let ch = if d < 10 {
                (48 + d as u8) as char
            } else {
                (87 + d as u8) as char
            };
            proof {
                let m = (16 - k) as nat;
                assert(hex_fixed(value as nat, m) == hex_fixed((value / 16) as nat, (m - 1) as nat).push(
                    ch,
                ));
                let old_built = built;
                built = seq![ch] + built;
                assert(hex_fixed((value / 16) as nat, (m - 1) as nat).push(ch) + old_built
                    =~= hex_fixed((value / 16) as nat, (m - 1) as nat) + built);
            }
            digits.push(ch);
            value = value / 16;
            k += 1;
        }
        assert(full =~= built);
        let mut s = String::from_str("v1:");
        proof {
            reveal_strlit("v1:");
        }
        let mut j: usize = 16;
        while j > 0
            invariant
                j <= 16,
                digits@.len() == 16,
                built.len() == 16,
                forall|i: int| 0 <= i < 16 ==> digits@[i] == built[15 - i],
                s@ =~= seq!['v', '1', ':'] + built.take(16 - j),
            decreases j,
        {
            j -= 1;
            push_char(&mut s, digits[j]);
            assert(built.take(16 - j) =~= built.take(15 - j).push(built[15 - j]));
        }
        push_char(&mut s, ':');
        let id_text = self.id.to_string();
        s.append(id_text.as_str());
        assert(s@ =~= cursor_text(self@.0, self@.1));
        s
    }

    /// Reads the textual form produced by [`Cursor::to_string`].
    pub fn parse(value: &str) -> (r: Result<Self, ParseCursorError>)
        ensures
            match parse_cursor_spec(value@) {
                Some(parts) => r matches Ok(c) && c@ == parts,
                None => r is Err,
            },
    {
        let chars = chars_of(value);
        let n = chars.len();
        let i1 = find_char(&chars, 0, ':');
        assert(chars@.skip(0) =~= chars@);
        if i1 >= n || i1 != 2 || chars[0] != 'v' || chars[1] != '1' {
            proof {
                if i1 < n {
                    if i1 != 2 {
                        assert(chars@.take(i1 as int).len() != 2);
                    } else if chars@[0] != 'v' {
                        assert(chars@.take(2)[0] != 'v');
                    } else {
                        assert(chars@.take(2)[1] != '1');
                    }
                    assert(chars@.take(i1 as int) != seq!['v', '1']);
                }
            }
            return Err(ParseCursorError);
        }
        assert(chars@.take(i1 as int) =~= seq!['v', '1']);
        let i2 = find_char(&chars, i1 + 1, ':');
        assert(chars@.skip(i1 + 1) =~= value@.skip(i1 + 1));
        if i2 == n {
            return Err(ParseCursorError);
        }
        let i3 = find_char(&chars, i2 + 1, ':');
        let ghost r1 = value@.skip(i1 + 1);
        proof {
            assert(r1.skip(i2 - i1) =~= chars@.skip(i2 + 1));
        }
        if i3 != n || i2 - i1 - 1 != 16 {
            return Err(ParseCursorError);
        }
        let mut start = i1 + 1;
        if chars[start] == '+' {
            start = start + 1;
        }
        let mut acc: u64 = 0;
        let mut k = start;
        let ghost p2 = r1.take(16);
        let ghost digits = if p2[0] == '+' {
            p2.drop_first()
        } else {
            p2
        };
        assert(p2 =~= chars@.subrange(i1 + 1, i2 as int));
        assert(digits =~= chars@.subrange(start as int, i2 as int));
        assert(parse_cursor_spec(value@) is Some ==> radix16_value(p2) is Some);
        while k < i2
            invariant
                i1 + 1 <= start <= k <= i2 < n == chars@.len(),
                i2 - start <= 16,
                p2.len() == 16,
                parse_cursor_spec(value@) is Some ==> radix16_value(p2) is Some,
                digits == (if p2[0] == '+' {
                    p2.drop_first()
                } else {
                    p2
                }),
                digits =~= chars@.subrange(start as int, i2 as int),
                hex_digits_value(chars@.subrange(start as int, k as int)) == Some(acc as nat),
            decreases i2 - k,
        {
            let ghost prefix = chars@.subrange(start as int, k + 1);
            assert(prefix.drop_last() =~= chars@.subrange(start as int, k as int));
            match crate::hex::parse_digit(chars[k]) {
                Some(d) => {
                    proof {
                        lemma_hex_digits_bound(chars@.subrange(start as int, k as int));
                        lemma_pow16_monotone((k - start) as nat, 15);
                        lemma_pow16_15();
                    }
                    acc = acc * 16 + d as u64;
                },
                None => {
                    proof {
                        assert(digits[k - start] == chars@[k as int]);
                        lemma_hex_digits_prefix_invalid(digits, k - start);
                        assert(radix16_value(p2) is None);
                    }
                    return Err(ParseCursorError);
                },
            }
            k += 1;
        }
        assert(chars@.subrange(start as int, i2 as int) =~= digits);
        assert(radix16_value(p2) == Some(acc as nat));
        let id_text = crate::text::sub_string_of(&chars, i2 + 1, n);
        assert(id_text@ =~= r1.skip(i2 - i1));
        match NodeId::parse(id_text.as_str()) {
            Ok(id) => Ok(Cursor { position: acc as i64, id }),
            Err(_) => Err(ParseCursorError),
        }
    }
}

/// A digit string with an invalid prefix has no value.
proof fn lemma_hex_digits_prefix_invalid(s: Seq<char>, k: int)
    requires
        0 <= k < s.len(),
        hex_value(s[k]) is None,
    ensures
        hex_digits_value(s) is None,
    decreases s.len(),
{
    if s.len() - 1 > k {
        lemma_hex_digits_prefix_invalid(s.drop_last(), k);
    }
}

/// Reading the text of a cursor gives the cursor back.
pub proof fn lemma_cursor_text_round_trip(cursor: Cursor)
    ensures
        parse_cursor_spec(cursor_text(cursor@.0, cursor@.1)) == Some(cursor@),
{
    let p = cursor@.0;
    let id = cursor@.1;
    let u = (p as u64) as nat;
    let h = hex_fixed(u, 16);
    let t = hex_text(id);
    let s = cursor_text(p, id);
    cursor.id.lemma_len();
    lemma_hex_fixed_value(u, 16);
    lemma_pow16_15();
    lemma_hex_text_digits(id);
    lemma_node_id_text_round_trip(cursor.id);
    assert(s[0] == 'v' && s[1] == '1' && s[2] == ':');
    crate::text::lemma_index_of(s, ':', 2);
    assert(s.take(2) =~= seq!['v', '1']);
    let r1 = s.skip(3);
    assert(r1 =~= h + seq![':'] + t);
    assert forall|j: int| 0 <= j < 16 implies r1[j] != ':' by {
        assert(r1[j] == h[j]);
        assert(hex_value(h[j]) is Some);
    }
    crate::text::lemma_index_of(r1, ':', 16);
    let r2 = r1.skip(17);
    assert(r2 =~= t);
    crate::text::lemma_index_of(r2, ':', r2.len() as int);
    assert(r1.take(16) =~= h);
    assert(hex_value(h[0]) is Some);
    assert(u < pow16(16));
    assert(hex_digits_value(h) == Some(u));
    assert(radix16_value(h) == Some(u));
    assert(decode_hex_spec(r2) == Some(id));
    let w: u64 = p as u64;
    assert((w as i64) == p) by (bit_vector)
        requires
            w == p as u64,
    ;
    assert(u as u64 == w);
}

proof fn lemma_hex_text_digits(id: Seq<u8>)
    ensures
        forall|j: int| 0 <= j < hex_text(id).len() ==> #[trigger] hex_text(id)[j] != ':',
{
    assert forall|j: int| 0 <= j < hex_text(id).len() implies #[trigger] hex_text(id)[j] != ':' by {
        let n = if j % 2 == 0 {
            id[j / 2] / 16
        } else {
            id[j / 2] % 16
        };
        assert(hex_text(id)[j] == hex_digit(n));
    }
}

/// Error returned when parsing a textual pagination cursor.
#[derive(Clone, Copy, Debug, PartialEq, Eq)]
pub struct ParseCursorError;

impl ParseCursorError {
    /// The human-readable description of the error.
    pub fn to_string(&self) -> (s: String)
        ensures
            s@ == "invalid pagination cursor"@,
    {
        String::from_str("invalid pagination cursor")
    }
}

impl core::str::FromStr for Cursor {
    type Err = ParseCursorError;

    fn from_str(value: &str) -> (r: Result<Self, Self::Err>)
        ensures
            match parse_cursor_spec(value@) {
                Some(parts) => r matches Ok(c) && c@ == parts,
                None => r is Err,
            },
    {
        Cursor::parse(value)
    }
}

} // verus!
