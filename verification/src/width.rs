//! Terminal display widths of characters and text.

use vstd::prelude::*;

use crate::text::push_char;

verus! {

/// Column width that the Unicode width tables of the `unicode-width` crate
/// give a character at or above U+00A0.
pub uninterp spec fn table_width(c: char) -> usize;

/// What `UnicodeWidthChar::width` returns: `None` for control characters,
/// one column for printable ASCII, the table width otherwise.
pub open spec fn unicode_width(c: char) -> Option<nat> {
    let u = c as u32;
    if u < 0x20 || (0x7f <= u && u < 0xa0) {
        None
    } else if u < 0x7f {
        Some(1)
    } else {
        Some(table_width(c) as nat)
    }
}

/// `<char as unicode_width::UnicodeWidthChar>::width`: `None` for the C0
/// and C1 control characters, one column for printable ASCII, and the width
/// of the crate's tables otherwise, which never exceeds three columns.
#[verifier::external_body]
fn unicode_char_width(c: char) -> (r: Option<usize>)
    ensures
        (c as u32) < 0x20 || (0x7f <= (c as u32) && (c as u32) < 0xa0) ==> r is None,
        0x20 <= (c as u32) && (c as u32) < 0x7f ==> r == Some(1usize),
        (c as u32) >= 0xa0 ==> r == Some(table_width(c)),
        r matches Some(w) ==> w <= 3,
{
    unicode_width::UnicodeWidthChar::width(c)
}

/// Whether `c` is a control character (general category `Cc`), as
/// `char::is_control` says.
pub open spec fn is_control_char(c: char) -> bool {
    let u = c as u32;
    u <= 0x1f || (0x7f <= u && u <= 0x9f)
}

/// Whether `c` is a control character (general category `Cc`).
pub fn is_control(c: char) -> (r: bool)
    ensures
        r == is_control_char(c),
{
    let u = c as u32;
    u <= 0x1f || (0x7f <= u && u <= 0x9f)
}

/// Width of a character as printed: its table width, zero for controls.
pub open spec fn plain_width(c: char) -> nat {
    match unicode_width(c) {
        Some(w) => w,
        None => 0,
    }
}

/// How the editor shows a character: control characters become `↵`.
pub open spec fn shown_char(c: char) -> char {
    if is_control_char(c) {
        '↵'
    } else {
        c
    }
}

/// Width of a character as the editor shows it.
pub open spec fn shown_width(c: char) -> nat {
    plain_width(shown_char(c))
}

/// Printed width of a character; zero for control characters.
pub fn char_width(c: char) -> (w: usize)
    ensures
        w == plain_width(c),
        w <= 3,
{
    match unicode_char_width(c) {
        Some(w) => w,
        None => 0,
    }
}

/// The character the editor shows for `c`.
pub fn show_char(c: char) -> (r: char)
    ensures
        r == shown_char(c),
{
    if is_control(c) {
        '↵'
    } else {
        c
    }
}

/// Width of a character as the editor shows it.
pub fn shown_char_width(c: char) -> (w: usize)
    ensures
        w == shown_width(c),
        w <= 3,
{
    char_width(show_char(c))
}

/// Total printed width of a text.
pub open spec fn text_width(s: Seq<char>) -> nat
    decreases s.len(),
{
    if s.len() == 0 {
        0
    } else {
        text_width(s.drop_last()) + plain_width(s.last())
    }
}

/// Total width of a text as the editor shows it.
pub open spec fn shown_text_width(s: Seq<char>) -> nat
    decreases s.len(),
{
    if s.len() == 0 {
        0
    } else {
        shown_text_width(s.drop_last()) + shown_width(s.last())
    }
}

/// Number of characters of the longest prefix of `s`, from character `k`
/// on, whose printed width fits in `width` columns.
pub open spec fn fit_len(s: Seq<char>, width: nat, k: int) -> int
    decreases s.len() - k,
{
    if k < 0 || k >= s.len() || text_width(s.take(k + 1)) > width {
        k
    } else {
        fit_len(s, width, k + 1)
    }
}

/// The longest prefix of `s` whose printed width fits in `width` columns.
pub open spec fn fitted(s: Seq<char>, width: nat) -> Seq<char> {
    s.take(fit_len(s, width, 0))
}

proof fn lemma_fit_len(s: Seq<char>, width: nat, i: int)
    requires
        0 <= i <= s.len(),
        forall|k: int| 0 <= k < i ==> text_width(#[trigger] s.take(k + 1)) <= width,
    ensures
        fit_len(s, width, 0) == fit_len(s, width, i),
    decreases i,
{
    if i > 0 {
        lemma_fit_len(s, width, i - 1);
    }
}

/// The longest prefix of `text` whose printed width fits in `width` columns.
pub fn fit(text: &str, width: usize) -> (r: String)
    ensures
        r@.len() <= text@.len(),
        r@ == text@.take(r@.len() as int),
        text_width(r@) <= width,
        r@.len() == text@.len() || text_width(text@.take(r@.len() + 1int)) > width,
        r@ == fitted(text@, width as nat),
{
    let chars = crate::text::chars_of(text);
    let mut fitted = String::new();
    let mut used: usize = 0;
    let mut i: usize = 0;
    assert(text@.take(0) =~= Seq::<char>::empty());
    while i < chars.len()
        invariant
            i <= chars@.len(),
            chars@ == text@,
            fitted@ == text@.take(i as int),
            used == text_width(text@.take(i as int)),
            used <= width,
            forall|k: int| 0 <= k < i ==> text_width(#[trigger] text@.take(k + 1)) <= width,
        decreases chars@.len() - i,
    {
        let w = char_width(chars[i]);
        assert(text@.take(i + 1).drop_last() =~= text@.take(i as int));
        if w > width - used {
            proof {
                lemma_fit_len(text@, width as nat, i as int);
            }
            return fitted;
        }
        push_char(&mut fitted, chars[i]);
        used = used + w;
        i += 1;
        assert(fitted@ =~= text@.take(i as int));
    }
    assert(text@.take(i as int) =~= text@);
    proof {
        lemma_fit_len(text@, width as nat, i as int);
    }
    fitted
}

/// The lines of a wrapped text, one after the other.
pub open spec fn concat_lines(lines: Seq<Seq<char>>) -> Seq<char>
    decreases lines.len(),
{
    if lines.len() == 0 {
        seq![]
    } else {
        concat_lines(lines.drop_last()) + lines.last()
    }
}

/// `lines` is `text` wrapped greedily at `width` columns: every line holds
/// at least one character, fits unless it is a single character, and the
/// next line's first character would not have fitted after it.
pub open spec fn is_wrapping(lines: Seq<Seq<char>>, text: Seq<char>, width: nat) -> bool {
    &&& concat_lines(lines) == text
    &&& forall|i: int|
        0 <= i < lines.len() ==> (#[trigger] lines[i]).len() >= 1 && (lines[i].len() == 1
            || text_width(lines[i]) <= width)
    &&& forall|i: int|
        0 <= i < lines.len() - 1 ==> text_width(#[trigger] lines[i]) + plain_width(lines[i + 1][0])
            > width
}

/// Progress of the greedy wrapping of the first `n` characters of `s`: the
/// finished lines, the current line and its width. A character that does
/// not fit after a non-empty line starts a new one.
pub open spec fn plain_wrap_run(s: Seq<char>, n: int, width: nat) -> (Seq<Seq<char>>, Seq<char>, nat)
    decreases n,
{
    if n <= 0 || n > s.len() {
        (Seq::empty(), Seq::empty(), 0nat)
    } else {
        let (done, line, used) = plain_wrap_run(s, n - 1, width);
        let c = s[n - 1];
        let w = plain_width(c);
        if line.len() > 0 && used + w > width {
            (done.push(line), seq![c], w)
        } else {
            (done, line.push(c), used + w)
        }
    }
}

/// The lines of `s` wrapped greedily at `width` columns.
pub open spec fn wrapped_text(s: Seq<char>, width: nat) -> Seq<Seq<char>> {
    let (done, line, _) = plain_wrap_run(s, s.len() as int, width);
    done.push(line)
}

/// Wraps `text` into lines of at most `width` columns; an empty text is one
/// empty line.
pub fn wrap_text(text: &str, width: usize) -> (lines: Vec<String>)
    ensures
        text@.len() == 0 ==> crate::outline::strings_view(lines@) == seq![Seq::<char>::empty()],
        text@.len() > 0 ==> is_wrapping(crate::outline::strings_view(lines@), text@, width as nat),
        crate::outline::strings_view(lines@) == wrapped_text(text@, width as nat),
{
    let chars = crate::text::chars_of(text);
    let mut lines: Vec<String> = Vec::new();
    if chars.len() == 0 {
        lines.push(String::new());
        assert(crate::outline::strings_view(lines@) =~= seq![Seq::<char>::empty()]);
        return lines;
    }
    let mut line = String::new();
    let mut line_width: usize = 0;
    let mut line_len: usize = 0;
    let mut i: usize = 0;
    assert(text@.take(0) =~= Seq::<char>::empty());
    assert(crate::outline::strings_view(lines@) =~= Seq::<Seq<char>>::empty());
    while i < chars.len()
        invariant
            i <= chars@.len(),
            chars@ == text@,
            line_len == line@.len(),
            concat_lines(crate::outline::strings_view(lines@)) + line@ == text@.take(i as int),
            line_width == text_width(line@),
            line@.len() <= 1 || line_width <= width,
            line@.len() <= 1 ==> line_width <= 3,
            i > 0 ==> line@.len() > 0,
            i == 0 ==> lines@.len() == 0 && line@.len() == 0,
            forall|k: int|
                0 <= k < lines@.len() ==> (#[trigger] lines@[k])@.len() >= 1 && (lines@[k]@.len()
                    == 1 || text_width(lines@[k]@) <= width),
            forall|k: int|
                0 <= k < lines@.len() - 1 ==> text_width(#[trigger] lines@[k]@) + plain_width(
                    lines@[k + 1]@[0],
                ) > width,
            lines@.len() > 0 && line@.len() > 0 ==> text_width(lines@.last()@) + plain_width(
                line@[0],
            ) > width,
            plain_wrap_run(text@, i as int, width as nat) == (crate::outline::strings_view(lines@), line@, line_width as nat),
        decreases chars@.len() - i,
    {
        let c = chars[i];
        let w = char_width(c);
        if line_len > 0 && (line_width > width || w > width - line_width) {
            let ghost old_lines = lines@;
            let ghost old_line = line@;
            lines.push(line);
            proof {
                assert(crate::outline::strings_view(lines@).drop_last() =~= crate::outline::strings_view(old_lines));
                assert(crate::outline::strings_view(lines@).last() == old_line);
                assert forall|k: int| 0 <= k < lines@.len() - 1 implies text_width(#[trigger] lines@[k]@) + plain_width(
                    lines@[k + 1]@[0],
                ) > width by {
                    if k < old_lines.len() - 1 {
                        assert(lines@[k] == old_lines[k] && lines@[k + 1] == old_lines[k + 1]);
                    } else {
                        assert(lines@[k] == old_lines.last());
                        assert(lines@[k + 1]@ == old_line);
                    }
                }
            }
            line = String::new();
            line_width = 0;
            line_len = 0;
            assert(concat_lines(crate::outline::strings_view(lines@)) + line@ =~= text@.take(i as int));
        }
        let ghost before = line@;
        push_char(&mut line, c);
        line_width = line_width + w;
        line_len = line_len + 1;
        proof {
            assert(line@.drop_last() =~= before);
            assert(line@.last() == c);
            assert(text_width(line@) == text_width(before) + plain_width(c));
            assert(text@.take(i + 1) =~= text@.take(i as int).push(c));
            assert(concat_lines(crate::outline::strings_view(lines@)) + line@ =~= (concat_lines(
                crate::outline::strings_view(lines@),
            ) + before).push(c));
            if before.len() > 0 {
                assert(line@[0] == before[0]);
            }
        }
        i += 1;
    }
    let ghost old_lines = lines@;
    let ghost old_line = line@;
    lines.push(line);
    proof {
        assert(crate::outline::strings_view(lines@).drop_last() =~= crate::outline::strings_view(old_lines));
        assert(crate::outline::strings_view(lines@).last() == old_line);
        assert(text@.take(i as int) =~= text@);
        assert forall|k: int| 0 <= k < lines@.len() - 1 implies text_width(#[trigger] lines@[k]@) + plain_width(
            lines@[k + 1]@[0],
        ) > width by {
            if k < old_lines.len() - 1 {
                assert(lines@[k] == old_lines[k] && lines@[k + 1] == old_lines[k + 1]);
            } else {
                assert(lines@[k] == old_lines.last());
                assert(lines@[k + 1]@ == old_line);
            }
        }
        let sv = crate::outline::strings_view(lines@);
        assert forall|k: int| 0 <= k < sv.len() implies (#[trigger] sv[k]).len() >= 1 && (sv[k].len() == 1
            || text_width(sv[k]) <= width) by {
            assert(sv[k] == lines@[k]@);
        }
        assert forall|k: int| 0 <= k < sv.len() - 1 implies text_width(#[trigger] sv[k]) + plain_width(sv[k + 1][0])
            > width by {
            assert(sv[k] == lines@[k]@);
            assert(sv[k + 1] == lines@[k + 1]@);
        }
    }
    lines
}

} // verus!
