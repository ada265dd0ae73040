//! Character classification, UTF-8 lengths and text conversions.

use vstd::prelude::*;

verus! {

/// Unicode `White_Space` property, as used by `char::is_whitespace`.
pub open spec fn is_ws(c: char) -> bool {
    let u = c as u32;
    ||| 0x09 <= u <= 0x0d
    ||| u == 0x20
    ||| u == 0x85
    ||| u == 0xa0
    ||| u == 0x1680
    ||| 0x2000 <= u <= 0x200a
    ||| u == 0x2028
    ||| u == 0x2029
    ||| u == 0x202f
    ||| u == 0x205f
    ||| u == 0x3000
}

/// Whether `c` has the Unicode `White_Space` property.
pub fn is_whitespace(c: char) -> (r: bool)
    ensures
        r == is_ws(c),
{
    let u = c as u32;
    (0x09 <= u && u <= 0x0d) || u == 0x20 || u == 0x85 || u == 0xa0 || u == 0x1680 || (0x2000
        <= u && u <= 0x200a) || u == 0x2028 || u == 0x2029 || u == 0x202f || u == 0x205f || u
        == 0x3000
}

/// Collects the characters of a string slice.
pub fn chars_of(s: &str) -> (v: Vec<char>)
    ensures
        v@ == s@,
{
    let mut v: Vec<char> = Vec::new();
    for c in it: s.chars()
        invariant
            v@ == it.seq().take(it.index() as int),
    {
        v.push(c);
    }
    v
}

/// `String::push`: appends `c` at the end of `s`.
#[verifier::external_body]
pub(crate) fn push_char(s: &mut String, c: char)
    ensures
        final(s)@ == old(s)@.push(c),
{
    s.push(c);
}

/// Builds a string from its characters.
pub fn string_of(chars: &[char]) -> (s: String)
    ensures
        s@ == chars@,
{
    let mut s = String::new();
    let mut i: usize = 0;
    while i < chars.len()
        invariant
            i <= chars@.len(),
            s@ == chars@.take(i as int),
        decreases chars@.len() - i,
    {
        push_char(&mut s, chars[i]);
        assert(chars@.take(i + 1) =~= chars@.take(i as int).push(chars@[i as int]));
        i += 1;
    }
    assert(chars@.take(chars@.len() as int) =~= chars@);
    s
}

/// Index of the first `ch` in `s`, or the length of `s` when it has none.
pub open spec fn index_of(s: Seq<char>, ch: char) -> int
    decreases s.len(),
{
    if s.len() == 0 {
        0
    } else if s[0] == ch {
        0
    } else {
        1 + index_of(s.drop_first(), ch)
    }
}

/// The first `ch` of `s` is at `k` when none comes before it.
pub proof fn lemma_index_of(s: Seq<char>, ch: char, k: int)
    requires
        0 <= k <= s.len(),
        forall|j: int| 0 <= j < k ==> s[j] != ch,
        k == s.len() || s[k] == ch,
    ensures
        index_of(s, ch) == k,
    decreases k,
{
    if k > 0 {
        lemma_index_of(s.drop_first(), ch, k - 1);
    }
}

/// The first `ch` of `s` lies within `s`, and no `ch` comes before it.
pub proof fn lemma_index_of_bounds(s: Seq<char>, ch: char)
    ensures
        0 <= index_of(s, ch) <= s.len(),
        forall|j: int| 0 <= j < index_of(s, ch) ==> s[j] != ch,
        index_of(s, ch) < s.len() ==> s[index_of(s, ch)] == ch,
    decreases s.len(),
{
    if s.len() > 0 && s[0] != ch {
        lemma_index_of_bounds(s.drop_first(), ch);
        assert forall|j: int| 0 <= j < index_of(s, ch) implies s[j] != ch by {
            if j > 0 {
                assert(s[j] == s.drop_first()[j - 1]);
            }
        }
    }
}

/// Position of the first `ch` in `c` at or after `from`, or the length of
/// `c` when there is none.
pub fn find_char(c: &Vec<char>, from: usize, ch: char) -> (e: usize)
    requires
        from <= c@.len(),
    ensures
        from <= e <= c@.len(),
        e - from == index_of(c@.skip(from as int), ch),
        forall|j: int| from <= j < e ==> c@[j] != ch,
        e < c@.len() ==> c@[e as int] == ch,
{
    let mut e = from;
    while e < c.len() && c[e] != ch
        invariant
            from <= e <= c@.len(),
            forall|j: int| from <= j < e ==> c@[j] != ch,
        decreases c@.len() - e,
    {
        e += 1;
    }
    proof {
        lemma_index_of(c@.skip(from as int), ch, e - from);
    }
    e
}

/// The characters `c[from..to]` as a string.
pub fn sub_string_of(c: &Vec<char>, from: usize, to: usize) -> (s: String)
    requires
        from <= to <= c@.len(),
    ensures
        s@ == c@.subrange(from as int, to as int),
{
    let mut s = String::new();
    let mut i = from;
    while i < to
        invariant
            from <= i <= to <= c@.len(),
            s@ =~= c@.subrange(from as int, i as int),
        decreases to - i,
    {
        push_char(&mut s, c[i]);
        i += 1;
    }
    s
}

/// Number of bytes in the UTF-8 encoding of `c`.
pub open spec fn char_len(c: char) -> nat {
    let u = c as u32;
    if u <= 0x7f {
        1
    } else if u <= 0x7ff {
        2
    } else if u <= 0xffff {
        3
    } else {
        4
    }
}

/// Number of bytes in the UTF-8 encoding of `s`.
pub open spec fn utf8_len(s: Seq<char>) -> nat
    decreases s.len(),
{
    if s.len() == 0 {
        0
    } else {
        char_len(s[0]) + utf8_len(s.drop_first())
    }
}

/// The encoding of two texts one after the other is as long as both.
pub proof fn lemma_utf8_len_concat(a: Seq<char>, b: Seq<char>)
    ensures
        utf8_len(a + b) == utf8_len(a) + utf8_len(b),
    decreases a.len(),
{
    if a.len() > 0 {
        assert((a + b).drop_first() =~= a.drop_first() + b);
        lemma_utf8_len_concat(a.drop_first(), b);
    } else {
        assert(a + b =~= b);
    }
}

/// One more character adds its own encoded length.
pub proof fn lemma_utf8_len_take(s: Seq<char>, k: int)
    requires
        0 <= k < s.len(),
    ensures
        utf8_len(s.take(k + 1)) == utf8_len(s.take(k)) + char_len(s[k]),
{
    assert(s.take(k + 1) =~= s.take(k) + seq![s[k]]);
    lemma_utf8_len_concat(s.take(k), seq![s[k]]);
    assert(seq![s[k]].drop_first() =~= Seq::<char>::empty());
    assert(utf8_len(Seq::<char>::empty()) == 0);
    assert(utf8_len(seq![s[k]]) == char_len(s[k]));
}

/// A single character is encoded in its own length.
pub proof fn lemma_utf8_len_single(c: char)
    ensures
        utf8_len(seq![c]) == char_len(c),
{
    assert(seq![c].drop_first() =~= Seq::<char>::empty());
    assert(utf8_len(Seq::<char>::empty()) == 0);
}

/// Every character takes at least one byte.
pub proof fn lemma_len_le_utf8(s: Seq<char>)
    ensures
        s.len() <= utf8_len(s),
    decreases s.len(),
{
    if s.len() > 0 {
        lemma_len_le_utf8(s.drop_first());
    }
}

/// A prefix is never longer than the whole text.
pub proof fn lemma_utf8_len_prefix(s: Seq<char>, k: int)
    requires
        0 <= k <= s.len(),
    ensures
        utf8_len(s.take(k)) <= utf8_len(s),
{
    assert(s =~= s.take(k) + s.skip(k));
    lemma_utf8_len_concat(s.take(k), s.skip(k));
}

/// `char::len_utf8`: number of bytes in the UTF-8 encoding of `c`.
pub fn len_utf8(c: char) -> (n: usize)
    ensures
        n == char_len(c),
{
    let u = c as u32;
    if u <= 0x7f {
        1
    } else if u <= 0x7ff {
        2
    } else if u <= 0xffff {
        3
    } else {
        4
    }
}

/// Byte offset of character `character` of `text`, or the byte length of
/// `text` when it has fewer characters.
pub fn char_to_byte(text: &str, character: usize) -> (b: usize)
    requires
        utf8_len(text@) <= usize::MAX,
    ensures
        b == utf8_len(text@.take(if character <= text@.len() {
            character as int
        } else {
            text@.len() as int
        })),
{
    let chars = chars_of(text);
    let limit = if character <= chars.len() {
        character
    } else {
        chars.len()
    };
    proof {
        lemma_utf8_len_prefix(text@, limit as int);
    }
    let ghost total = utf8_len(text@);
    let mut i: usize = 0;
    let mut b: usize = 0;
    assert(text@.take(0) =~= Seq::<char>::empty());
    while i < limit
        invariant
            i <= limit <= chars@.len(),
            chars@ == text@,
            b == utf8_len(text@.take(i as int)),
            utf8_len(text@.take(limit as int)) <= total <= usize::MAX,
        decreases limit - i,
    {
        proof {
            lemma_utf8_len_take(text@, i as int);
            lemma_utf8_len_prefix(text@.take(limit as int), i + 1);
            assert(text@.take(limit as int).take(i + 1) =~= text@.take(i + 1));
        }
        b = b + len_utf8(chars[i]);
        i += 1;
    }
    b
}

/// `s` with the characters `from..to` replaced by `middle`.
pub fn splice(s: &str, from: usize, to: usize, middle: &str) -> (r: String)
    requires
        from <= to <= s@.len(),
    ensures
        r@ == s@.take(from as int) + middle@ + s@.skip(to as int),
{
    let n = s.unicode_len();
    let mut r = String::from_str(s.substring_char(0, from));
    r.append(middle);
    r.append(s.substring_char(to, n));
    assert(s@.subrange(to as int, n as int) =~= s@.skip(to as int));
    r
}

/// A one-character string.
pub fn char_string(c: char) -> (r: String)
    ensures
        r@ == seq![c],
{
    let mut r = String::new();
    push_char(&mut r, c);
    r
}

/// Whether `char::is_alphanumeric` holds of `c` (Unicode `Alphabetic` or
/// `Numeric`).
pub uninterp spec fn unicode_alphanumeric(c: char) -> bool;

/// `char::is_alphanumeric`: whether `c` is alphabetic or numeric in Unicode.
/// Beyond naming its result, this claims that ASCII letters and digits are
/// alphanumeric and that no other ASCII character is.
#[verifier::external_body]
pub(crate) fn is_alphanumeric(c: char) -> (r: bool)
    ensures
        r == unicode_alphanumeric(c),
        ('a' <= c <= 'z' || 'A' <= c <= 'Z' || '0' <= c <= '9') ==> r,
        ((c as u32) < 0x80 && !('a' <= c <= 'z' || 'A' <= c <= 'Z' || '0' <= c <= '9')) ==> !r,
{
    c.is_alphanumeric()
}

/// The decimal digit of `d` (below ten).
pub open spec fn decimal_digit(d: nat) -> char {
    (48 + d) as char
}

/// Decimal text of a natural number, without sign or leading zeros.
pub open spec fn decimal(n: nat) -> Seq<char>
    decreases n,
{
    if n < 10 {
        seq![decimal_digit(n)]
    } else {
        decimal(n / 10).push(decimal_digit(n % 10))
    }
}

/// Decimal text of an integer: a `-` before the digits of a negative one.
pub open spec fn signed_decimal(n: int) -> Seq<char> {
    if n < 0 {
        seq!['-'] + decimal((-n) as nat)
    } else {
        decimal(n as nat)
    }
}

fn decimal_char(d: u64) -> (c: char)
    requires
        d < 10,
    ensures
        c == decimal_digit(d as nat),
{
    (48 + d as u8) as char
}

/// Decimal text of `n`, as `n.to_string()` writes it.
pub fn decimal_text(n: u64) -> (s: String)
    ensures
        s@ == decimal(n as nat),
    decreases n,
{
    if n < 10 {
        char_string(decimal_char(n))
    } else {
        let mut s = decimal_text(n / 10);
        push_char(&mut s, decimal_char(n % 10));
        s
    }
}

/// Decimal text of a signed `n`, as `n.to_string()` writes it.
pub fn signed_decimal_text(n: i64) -> (s: String)
    ensures
        s@ == signed_decimal(n as int),
{
    if n < 0 {
        let magnitude: u64 = if n == i64::MIN {
            9223372036854775808u64
        } else {
            (-n) as u64
        };
        let mut s = char_string('-');
        let digits = decimal_text(magnitude);
        s.append(digits.as_str());
        s
    } else {
        decimal_text(n as u64)
    }
}

/// The text that `format!("{:?}", s)` writes for a string `s`: `s` between
/// double quotes, each character escaped as `char::escape_debug` does.
pub uninterp spec fn debug_text(s: Seq<char>) -> Seq<char>;

/// `<str as Debug>::fmt`: the quoted and escaped form of `s`. The contract
/// names the result and claims nothing more of it.
#[verifier::external_body]
pub(crate) fn debug_quoted(s: &str) -> (r: String)
    ensures
        r@ == debug_text(s@),
{
    format!("{s:?}")
}

/// Concatenation of two strings.
pub fn concat2(a: &str, b: &str) -> (r: String)
    ensures
        r@ == a@ + b@,
{
    let mut r = String::from_str(a);
    r.append(b);
    r
}

/// Concatenation of three strings.
pub fn concat3(a: &str, b: &str, c: &str) -> (r: String)
    ensures
        r@ == a@ + b@ + c@,
{
    let mut r = String::from_str(a);
    r.append(b);
    r.append(c);
    r
}

/// Whether byte offset `b` of the UTF-8 encoding of `s` falls between two
/// characters.
pub open spec fn is_char_boundary(s: Seq<char>, b: int) -> bool {
    exists|k: int| 0 <= k <= s.len() && utf8_len(#[trigger] s.take(k)) == b
}

/// The index of the character that starts at byte `b` of `s` (or the
/// length of `s` for its byte length).
pub open spec fn char_index(s: Seq<char>, b: int) -> int {
    choose|k: int| 0 <= k <= s.len() && utf8_len(#[trigger] s.take(k)) == b
}

/// Every character takes at least one byte, so longer prefixes are longer
/// in bytes.
pub proof fn lemma_utf8_len_strictly_increasing(s: Seq<char>, i: int, j: int)
    requires
        0 <= i < j <= s.len(),
    ensures
        utf8_len(s.take(i)) < utf8_len(s.take(j)),
    decreases j - i,
{
    lemma_utf8_len_take(s, j - 1);
    if i < j - 1 {
        lemma_utf8_len_strictly_increasing(s, i, j - 1);
    }
}

/// The character index of a boundary is the only prefix of that length.
pub proof fn lemma_char_index(s: Seq<char>, b: int, k: int)
    requires
        0 <= k <= s.len(),
        utf8_len(s.take(k)) == b,
    ensures
        is_char_boundary(s, b),
        char_index(s, b) == k,
{
    let c = char_index(s, b);
    assert(utf8_len(s.take(c)) == b);
    if c < k {
        lemma_utf8_len_strictly_increasing(s, c, k);
    } else if k < c {
        lemma_utf8_len_strictly_increasing(s, k, c);
    }
}

/// The index of the character that starts at byte `byte` of `chars`.
pub fn byte_to_char(chars: &Vec<char>, byte: usize) -> (k: usize)
    requires
        is_char_boundary(chars@, byte as int),
    ensures
        k == char_index(chars@, byte as int),
        k <= chars@.len(),
        utf8_len(chars@.take(k as int)) == byte,
{
    let ghost target = char_index(chars@, byte as int);
    let n = chars.len();
    let mut k: usize = 0;
    let mut acc: usize = 0;
    assert(chars@.take(0) =~= Seq::<char>::empty());
    while acc < byte
        invariant
            0 <= target <= chars@.len() == n,
            utf8_len(chars@.take(target)) == byte,
            k <= target,
            acc == utf8_len(chars@.take(k as int)),
            acc <= byte,
        decreases target - k,
    {
        proof {
            if k as int == target {
                assert(false);
            }
            lemma_utf8_len_take(chars@, k as int);
            if k + 1 < target {
                lemma_utf8_len_strictly_increasing(chars@, k + 1, target);
            }
        }
        acc = acc + len_utf8(chars[k]);
        k = k + 1;
    }
    proof {
        if k < target {
            lemma_utf8_len_strictly_increasing(chars@, k as int, target);
        }
        lemma_char_index(chars@, byte as int, k as int);
    }
    k
}

/// `s` with every line feed replaced by `with`.
pub open spec fn replace_newlines_spec(s: Seq<char>, with: Seq<char>) -> Seq<char>
    decreases s.len(),
{
    if s.len() == 0 {
        seq![]
    } else {
        replace_newlines_spec(s.drop_last(), with) + if s.last() == '\n' {
            with
        } else {
            seq![s.last()]
        }
    }
}

/// Number of line feeds in `s`.
pub open spec fn newline_count(s: Seq<char>) -> nat
    decreases s.len(),
{
    if s.len() == 0 {
        0
    } else {
        newline_count(s.drop_last()) + if s.last() == '\n' {
            1nat
        } else {
            0nat
        }
    }
}

/// Replacing line feeds keeps every other character in order and puts
/// `with` in place of each line feed: a text without line feeds is kept as
/// it is, no line feed is left when `with` holds none, and the result is
/// longer by `with.len() - 1` for each line feed.
pub proof fn lemma_replace_newlines(s: Seq<char>, with: Seq<char>)
    ensures
        !s.contains('\n') ==> replace_newlines_spec(s, with) == s,
        !with.contains('\n') ==> !replace_newlines_spec(s, with).contains('\n'),
        replace_newlines_spec(s, with).len() == s.len() + newline_count(s) * (with.len() - 1),
    decreases s.len(),
{
    if s.len() > 0 {
        let prev = s.drop_last();
        lemma_replace_newlines(prev, with);
        let r = replace_newlines_spec(s, with);
        let rp = replace_newlines_spec(prev, with);
        assert(r.len() == rp.len() + if s.last() == '\n' {
            with.len() as int
        } else {
            1int
        });
        if !s.contains('\n') {
            assert(!prev.contains('\n')) by {
                if prev.contains('\n') {
                    let j = choose|j: int| 0 <= j < prev.len() && prev[j] == '\n';
                    assert(s[j] == '\n');
                }
            }
            assert(s.last() != '\n') by {
                assert(s[s.len() - 1] == s.last());
            }
            assert(r =~= s);
        }
        if !with.contains('\n') {
            assert(!r.contains('\n')) by {
                if r.contains('\n') {
                    let j = choose|j: int| 0 <= j < r.len() && r[j] == '\n';
                    if j < rp.len() {
                        assert(rp[j] == '\n');
                    } else if s.last() == '\n' {
                        assert(with[j - rp.len()] == '\n');
                    } else {
                        assert(s.last() == '\n');
                    }
                }
            }
        }
        let w: int = with.len() - 1;
        let a: int = newline_count(prev) as int;
        if s.last() == '\n' {
            assert(newline_count(s) == a + 1);
            assert((a + 1) * w == a * w + w) by (nonlinear_arith);
        } else {
            assert(newline_count(s) == a);
        }
        assert(r.len() == s.len() + newline_count(s) * w);
    } else {
        assert(newline_count(s) == 0);
        assert(replace_newlines_spec(s, with).len() == 0);
    }
}

/// `s.replace('\n', with)`.
pub fn replace_newlines(s: &str, with: &str) -> (r: String)
    ensures
        r@ == replace_newlines_spec(s@, with@),
{
    let chars = chars_of(s);
    let mut r = String::new();
    let mut i: usize = 0;
    assert(s@.take(0) =~= Seq::<char>::empty());
    while i < chars.len()
        invariant
            i <= chars@.len(),
            chars@ == s@,
            r@ == replace_newlines_spec(s@.take(i as int), with@),
        decreases chars@.len() - i,
    {
        assert(s@.take(i + 1).drop_last() =~= s@.take(i as int));
        if chars[i] == '\n' {
            r.append(with);
        } else {
            push_char(&mut r, chars[i]);
        }
        i += 1;
    }
    assert(s@.take(i as int) =~= s@);
    r
}

} // verus!
