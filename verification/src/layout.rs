//! Terminal page geometry and the text of outline lines.

use vstd::prelude::*;

use crate::editor::Editor;
use crate::identity::NodeId;
use crate::model::{Node, Placement};
use crate::outline::strings_view;
use crate::text::{char_len, len_utf8, push_char, utf8_len};
use crate::width::{char_width, plain_width, show_char, shown_char, shown_char_width, shown_text_width, shown_width, text_width};

verus! {

/// Column where outline content starts.
pub const CONTENT_LEFT: usize = 2;

/// Row of the focus title.
pub const TITLE_ROW: usize = 1;

/// First row of the outline body.
pub const BODY_START: usize = 3;

/// Rows kept for the footer.
pub const FOOTER_HEIGHT: usize = 2;

/// Width left for content in a terminal `total_width` columns wide: the
/// left margin is removed, and at least one column remains.
pub fn content_width(total_width: usize) -> (r: usize)
    ensures
        ({
            let margin = if total_width == 0 {
                0
            } else if total_width - 1 < CONTENT_LEFT {
                total_width - 1
            } else {
                CONTENT_LEFT as int
            };
            r == if total_width - margin >= 1 {
                total_width - margin
            } else {
                1
            }
        }),
{
    let left = if CONTENT_LEFT < total_width.saturating_sub(1) {
        CONTENT_LEFT
    } else {
        total_width.saturating_sub(1)
    };
    let rest = total_width.saturating_sub(left);
    if rest >= 1 {
        rest
    } else {
        1
    }
}

/// Rows left for the outline once the title, the footer and an open
/// completion panel are placed.
pub fn outline_height(total_height: usize, completion_height: usize) -> (r: usize)
    requires
        completion_height <= usize::MAX - BODY_START - FOOTER_HEIGHT,
    ensures
        r == if total_height >= BODY_START + FOOTER_HEIGHT + completion_height {
            total_height - (BODY_START + FOOTER_HEIGHT + completion_height)
        } else {
            0
        },
{
    total_height.saturating_sub(BODY_START + FOOTER_HEIGHT + completion_height)
}

/// Rows of the completion panel: none unless a tag or reference prompt is
/// open, otherwise six rows, fewer when the terminal is short.
pub fn completion_height(prompt_open: bool, height: usize) -> (r: usize)
    ensures
        !prompt_open ==> r == 0,
        prompt_open ==> r == if height >= BODY_START + FOOTER_HEIGHT + 1 + 6 {
            6
        } else if height >= BODY_START + FOOTER_HEIGHT + 1 {
            height - (BODY_START + FOOTER_HEIGHT + 1)
        } else {
            0
        },
{
    if !prompt_open {
        return 0;
    }
    let room = height.saturating_sub(BODY_START + FOOTER_HEIGHT + 1);
    if room < 6 {
        room
    } else {
        6
    }
}

/// `usize` to `u16`, saturating at `u16::MAX`.
pub fn to_u16(value: usize) -> (r: u16)
    ensures
        r == if value <= u16::MAX {
            value as int
        } else {
            u16::MAX as int
        },
{
    if value <= 65535 {
        value as u16
    } else {
        65535
    }
}

/// Splits `text` at the last character boundary at or before byte
/// `requested`, so that a styled prefix never cuts a character.
pub fn split_content<'a>(text: &'a str, requested: usize) -> (r: (&'a str, &'a str))
    requires
        utf8_len(text@) <= usize::MAX,
    ensures
        r.0@ + r.1@ == text@,
        utf8_len(r.0@) <= requested,
        r.0@.len() == text@.len() || utf8_len(text@.take(r.0@.len() + 1int)) > requested,
{
    let chars = crate::text::chars_of(text);
    let n = chars.len();
    let mut k: usize = 0;
    let mut bytes: usize = 0;
    assert(text@.take(0) =~= Seq::<char>::empty());
    while k < n
        invariant
            k <= n == chars@.len() == text@.len(),
            chars@ == text@,
            utf8_len(text@) <= usize::MAX,
            bytes == utf8_len(text@.take(k as int)),
            bytes <= requested,
        ensures
            k <= n,
            bytes == utf8_len(text@.take(k as int)),
            k == n || utf8_len(text@.take(k + 1)) > requested,
        decreases n - k,
    {
        proof {
            crate::text::lemma_utf8_len_take(text@, k as int);
            crate::text::lemma_utf8_len_prefix(text@, k + 1);
        }
        let size = len_utf8(chars[k]);
        if size > requested - bytes {
            break ;
        }
        bytes = bytes + size;
        k += 1;
    }
    let front = text.substring_char(0, k);
    let back = text.substring_char(k, n);
    assert(front@ =~= text@.take(k as int));
    assert(front@ + back@ =~= text@);
    (front, back)
}

/// The indentation drawn for a row: a guide bar for each ancestor level
/// that has a following sibling, blank space otherwise.
pub open spec fn guide_text(guides: Seq<bool>) -> Seq<char>
    decreases guides.len(),
{
    if guides.len() == 0 {
        seq![]
    } else {
        guide_text(guides.drop_last()) + if guides.last() {
            seq!['│', ' ']
        } else {
            seq![' ', ' ']
        }
    }
}

/// The indentation of a row with the given guides.
pub fn guide_prefix(guides: &Vec<bool>) -> (r: String)
    ensures
        r@ == guide_text(guides@),
{
    let mut r = String::new();
    let mut i: usize = 0;
    assert(guides@.take(0) =~= Seq::<bool>::empty());
    while i < guides.len()
        invariant
            i <= guides@.len(),
            r@ == guide_text(guides@.take(i as int)),
        decreases guides@.len() - i,
    {
        assert(guides@.take(i + 1).drop_last() =~= guides@.take(i as int));
        if guides[i] {
            push_char(&mut r, '│');
        } else {
            push_char(&mut r, ' ');
        }
        push_char(&mut r, ' ');
        i += 1;
        assert(r@ =~= guide_text(guides@.take(i as int)));
    }
    assert(guides@.take(i as int) =~= guides@);
    r
}

/// Tags as they are shown: `#tag`, separated by single spaces.
pub open spec fn tags_text(tags: Seq<Seq<char>>) -> Seq<char>
    decreases tags.len(),
{
    if tags.len() == 0 {
        seq![]
    } else if tags.len() == 1 {
        seq!['#'] + tags[0]
    } else {
        tags_text(tags.drop_last()) + seq![' ', '#'] + tags.last()
    }
}

/// The shown tags of a node.
pub fn tags_line(tags: &Vec<String>) -> (r: String)
    ensures
        r@ == tags_text(strings_view(tags@)),
{
    let mut r = String::new();
    let mut i: usize = 0;
    let ghost v = strings_view(tags@);
    assert(v.take(0) =~= Seq::<Seq<char>>::empty());
    while i < tags.len()
        invariant
            i <= tags@.len(),
            v == strings_view(tags@),
            r@ == tags_text(v.take(i as int)),
        decreases tags@.len() - i,
    {
        let ghost before = r@;
        if i > 0 {
            push_char(&mut r, ' ');
        }
        push_char(&mut r, '#');
        r.append(tags[i].as_str());
        proof {
            let t = v.take(i + 1);
            assert(t.drop_last() =~= v.take(i as int));
            assert(t.last() == tags@[i as int]@);
            if i == 0 {
                assert(r@ =~= seq!['#'] + t[0]);
            } else {
                assert(r@ =~= before + seq![' ', '#'] + t.last());
            }
        }
        i += 1;
    }
    assert(v.take(i as int) =~= v);
    r
}

/// The text an editor shows: its text, then its tags after two spaces.
pub fn editor_text(editor: &Editor) -> (r: String)
    ensures
        editor.tags@.len() == 0 ==> r@ == editor.text@,
        editor.tags@.len() > 0 ==> r@ == editor.text@ + seq![' ', ' '] + tags_text(
            strings_view(editor.tags@),
        ),
{
    if editor.tags.len() == 0 {
        return editor.text.clone();
    }
    let tags = tags_line(&editor.tags);
    let mut r = editor.text.clone();
    push_char(&mut r, ' ');
    push_char(&mut r, ' ');
    r.append(tags.as_str());
    assert(r@ =~= editor.text@ + seq![' ', ' '] + tags_text(strings_view(editor.tags@)));
    r
}

/// Total width of `chars[from..to]` as the editor shows it.
pub fn shown_range_width(chars: &Vec<char>, from: usize, to: usize) -> (w: usize)
    requires
        from <= to <= chars@.len(),
        chars@.len() <= usize::MAX / 4,
    ensures
        w == shown_text_width(chars@.subrange(from as int, to as int)),
        w <= 3 * (to - from),
{
    let mut w: usize = 0;
    let mut i = from;
    assert(chars@.subrange(from as int, from as int) =~= Seq::<char>::empty());
    while i < to
        invariant
            from <= i <= to <= chars@.len(),
            chars@.len() <= usize::MAX / 4,
            w == shown_text_width(chars@.subrange(from as int, i as int)),
            w <= 3 * (i - from),
        decreases to - i,
    {
        assert(chars@.subrange(from as int, i + 1).drop_last() =~= chars@.subrange(from as int, i as int));
        w = w + shown_char_width(chars[i]);
        i += 1;
    }
    w
}

/// Total width of characters as the editor shows them.
pub fn display_width(characters: &Vec<char>) -> (w: usize)
    requires
        characters@.len() <= usize::MAX / 4,
    ensures
        w == shown_text_width(characters@),
{
    let w = shown_range_width(characters, 0, characters.len());
    assert(characters@.subrange(0, characters@.len() as int) =~= characters@);
    w
}

/// The characters as the editor shows them.
pub open spec fn shown_seq(s: Seq<char>) -> Seq<char> {
    s.map_values(|c: char| shown_char(c))
}

/// `view`, with the caret at `column`, is what a one-line input `width`
/// columns wide shows of `s` with the caret at character `cursor`.
pub open spec fn input_view(s: Seq<char>, cursor: int, width: usize, view: Seq<char>, column: int) -> bool {
    let limit: int = if width >= 2 {
        width - 1
    } else {
        1
    };
    exists|start: int|
        {
            &&& 0 <= start <= cursor
            &&& (start == cursor || shown_text_width(s.subrange(start, cursor)) < limit)
            &&& forall|k: int|
                0 <= k < start ==> shown_text_width(#[trigger] s.subrange(k, cursor)) >= limit
            &&& column == shown_text_width(s.subrange(start, cursor))
            &&& view.len() <= s.len() - start
            &&& view == shown_seq(s.subrange(start, start + view.len()))
            &&& shown_text_width(s.subrange(start, start + view.len())) <= width
            &&& (start + view.len() == s.len() || shown_text_width(
                s.subrange(start, start + view.len() + 1),
            ) > width)
        }
}

/// The visible part of a one-line input `width` columns wide, scrolled so
/// that the caret stays in view, and the caret's column within it.
///
/// The view starts at the first character from which the text up to the
/// caret is narrower than the input (keeping one column for the caret); it
/// then holds as many shown characters as fit in `width` columns.
pub fn editor_view(text: &str, cursor: usize, width: usize) -> (r: (String, usize))
    requires
        cursor <= text@.len(),
        text@.len() <= usize::MAX / 4,
    ensures
        input_view(text@, cursor as int, width, r.0@, r.1 as int),
{
    let characters = crate::text::chars_of(text);
    let n = characters.len();
    let limit = if width >= 2 {
        width - 1
    } else {
        1
    };
    let mut start: usize = 0;
    while start < cursor && shown_range_width(&characters, start, cursor) >= limit
        invariant
            start <= cursor <= n == characters@.len() == text@.len(),
            characters@ == text@,
            n <= usize::MAX / 4,
            forall|k: int|
                0 <= k < start ==> shown_text_width(#[trigger] text@.subrange(k, cursor as int))
                    >= limit,
        decreases cursor - start,
    {
        start += 1;
    }
    let cursor_column = shown_range_width(&characters, start, cursor);
    let mut view = String::new();
    let mut used: usize = 0;
    let mut i = start;
    assert(text@.subrange(start as int, start as int) =~= Seq::<char>::empty());
    while i < n
        invariant
            start <= i <= n == characters@.len() == text@.len(),
            characters@ == text@,
            view@ == shown_seq(text@.subrange(start as int, i as int)),
            used == shown_text_width(text@.subrange(start as int, i as int)),
            used <= width,
        ensures
            start <= i <= n,
            view@ == shown_seq(text@.subrange(start as int, i as int)),
            used == shown_text_width(text@.subrange(start as int, i as int)),
            used <= width,
            i == n || shown_text_width(text@.subrange(start as int, i + 1)) > width,
        decreases n - i,
    {
        let shown = show_char(characters[i]);
        let w = char_width(shown);
        assert(text@.subrange(start as int, i + 1).drop_last() =~= text@.subrange(start as int, i as int));
        if w > width - used {
            break ;
        }
        push_char(&mut view, shown);
        used = used + w;
        i += 1;
        assert(view@ =~= shown_seq(text@.subrange(start as int, i as int)));
    }
    assert(view@.len() == i - start);
    assert(text@.subrange(start as int, start + view@.len()) =~= text@.subrange(start as int, i as int));
    (view, cursor_column)
}

/// One rendered outline row.
#[derive(Clone, Debug, PartialEq, Eq)]
pub struct DisplayLine {
    /// Whether the row belongs to the selection.
    pub selected: bool,
    /// The row's text, prefix included.
    pub text: String,
    /// Column of the caret on this row, if it is there.
    pub cursor: Option<usize>,
    /// Byte offset where the row's content starts after its prefix.
    pub content_start: usize,
}

/// An empty row.
pub fn blank_line() -> (r: DisplayLine)
    ensures
        !r.selected,
        r.text@.len() == 0,
        r.cursor is None,
        r.content_start == 0,
{
    DisplayLine { selected: false, text: String::new(), cursor: None, content_start: 0 }
}

/// Index of the first selected row, if any.
pub open spec fn first_selected(lines: Seq<DisplayLine>) -> Option<int>
    decreases lines.len(),
{
    if lines.len() == 0 {
        None
    } else if lines[0].selected {
        Some(0)
    } else {
        match first_selected(lines.drop_first()) {
            Some(i) => Some(i + 1),
            None => None,
        }
    }
}

/// Index of the last selected row, if any.
pub open spec fn last_selected(lines: Seq<DisplayLine>) -> Option<int>
    decreases lines.len(),
{
    if lines.len() == 0 {
        None
    } else if lines.last().selected {
        Some(lines.len() - 1)
    } else {
        last_selected(lines.drop_last())
    }
}

/// Index of the first row holding the caret, if any.
pub open spec fn first_cursor(lines: Seq<DisplayLine>) -> Option<int>
    decreases lines.len(),
{
    if lines.len() == 0 {
        None
    } else if lines[0].cursor is Some {
        Some(0)
    } else {
        match first_cursor(lines.drop_first()) {
            Some(i) => Some(i + 1),
            None => None,
        }
    }
}

/// The scroll offset that keeps the selection, then the caret, in a body of
/// `body_height` rows, starting from `scroll`.
pub open spec fn scroll_spec(lines: Seq<DisplayLine>, scroll: int, body_height: int) -> int {
    let start = match first_selected(lines) {
        Some(i) => i,
        None => 0,
    };
    let end = match last_selected(lines) {
        Some(i) => i,
        None => start,
    };
    let s1 = if start < scroll {
        start
    } else if body_height > 0 && end >= scroll + body_height {
        if end + 1 - start > body_height {
            start
        } else {
            end + 1 - body_height
        }
    } else {
        scroll
    };
    let s2 = match first_cursor(lines) {
        Some(c) => if c < s1 {
            c
        } else if body_height > 0 && c >= s1 + body_height {
            c + 1 - body_height
        } else {
            s1
        },
        None => s1,
    };
    let max_scroll = if lines.len() >= body_height {
        lines.len() - body_height
    } else {
        0
    };
    if s2 < max_scroll {
        s2
    } else {
        max_scroll
    }
}

fn find_first_selected(lines: &Vec<DisplayLine>) -> (r: Option<usize>)
    ensures
        match first_selected(lines@) {
            Some(i) => r == Some(i as usize),
            None => r is None,
        },
        r matches Some(i) ==> i < lines@.len(),
        first_selected(lines@) matches Some(i) ==> 0 <= i < lines@.len(),
{
    let mut i: usize = 0;
    while i < lines.len()
        invariant
            i <= lines@.len(),
            forall|k: int| 0 <= k < i ==> !(#[trigger] lines@[k]).selected,
        decreases lines@.len() - i,
    {
        if lines[i].selected {
            proof {
                lemma_first_selected(lines@, i as int);
            }
            return Some(i);
        }
        i += 1;
    }
    proof {
        lemma_first_selected(lines@, lines@.len() as int);
    }
    None
}

proof fn lemma_first_selected(lines: Seq<DisplayLine>, i: int)
    requires
        0 <= i <= lines.len(),
        forall|k: int| 0 <= k < i ==> !(#[trigger] lines[k]).selected,
        i < lines.len() ==> lines[i].selected,
    ensures
        first_selected(lines) == if i < lines.len() {
            Some(i)
        } else {
            None::<int>
        },
    decreases i,
{
    if i > 0 {
        assert forall|k: int| 0 <= k < i - 1 implies !(#[trigger] lines.drop_first()[k]).selected by {
            assert(lines.drop_first()[k] == lines[k + 1]);
        }
        lemma_first_selected(lines.drop_first(), i - 1);
    }
}

fn find_first_cursor(lines: &Vec<DisplayLine>) -> (r: Option<usize>)
    ensures
        match first_cursor(lines@) {
            Some(i) => r == Some(i as usize),
            None => r is None,
        },
        r matches Some(i) ==> i < lines@.len(),
        first_cursor(lines@) matches Some(i) ==> 0 <= i < lines@.len(),
{
    let mut i: usize = 0;
    while i < lines.len()
        invariant
            i <= lines@.len(),
            forall|k: int| 0 <= k < i ==> (#[trigger] lines@[k]).cursor is None,
        decreases lines@.len() - i,
    {
        if lines[i].cursor.is_some() {
            proof {
                lemma_first_cursor(lines@, i as int);
            }
            return Some(i);
        }
        i += 1;
    }
    proof {
        lemma_first_cursor(lines@, lines@.len() as int);
    }
    None
}

proof fn lemma_first_cursor(lines: Seq<DisplayLine>, i: int)
    requires
        0 <= i <= lines.len(),
        forall|k: int| 0 <= k < i ==> (#[trigger] lines[k]).cursor is None,
        i < lines.len() ==> lines[i].cursor is Some,
    ensures
        first_cursor(lines) == if i < lines.len() {
            Some(i)
        } else {
            None::<int>
        },
    decreases i,
{
    if i > 0 {
        assert forall|k: int| 0 <= k < i - 1 implies (#[trigger] lines.drop_first()[k]).cursor is None by {
            assert(lines.drop_first()[k] == lines[k + 1]);
        }
        lemma_first_cursor(lines.drop_first(), i - 1);
    }
}

fn find_last_selected(lines: &Vec<DisplayLine>) -> (r: Option<usize>)
    ensures
        match last_selected(lines@) {
            Some(i) => r == Some(i as usize),
            None => r is None,
        },
        r matches Some(i) ==> i < lines@.len(),
        last_selected(lines@) matches Some(i) ==> 0 <= i < lines@.len(),
{
    let mut i: usize = lines.len();
    assert(lines@.take(lines@.len() as int) =~= lines@);
    while i > 0
        invariant
            i <= lines@.len(),
            last_selected(lines@) == last_selected(lines@.take(i as int)),
        decreases i,
    {
        assert(lines@.take(i as int).last() == lines@[i - 1]);
        if lines[i - 1].selected {
            return Some(i - 1);
        }
        assert(lines@.take(i as int).drop_last() =~= lines@.take(i - 1));
        i -= 1;
    }
    None
}

/// Adjusts the scroll offset so that the selection, then the caret, stay in
/// a body of `body_height` rows.
pub fn frame_scroll(lines: &Vec<DisplayLine>, scroll: usize, body_height: usize) -> (r: usize)
    ensures
        r == scroll_spec(lines@, scroll as int, body_height as int),
{
    let n = lines.len();
    let selected_start = match find_first_selected(lines) {
        Some(i) => i,
        None => 0,
    };
    let selected_end = match find_last_selected(lines) {
        Some(i) => i,
        None => selected_start,
    };
    let ghost spec_start = match first_selected(lines@) {
        Some(i) => i,
        None => 0,
    };
    let ghost spec_end = match last_selected(lines@) {
        Some(i) => i,
        None => spec_start,
    };
    assert(selected_start == spec_start);
    assert(selected_end == spec_end);
    assert(selected_end < n || selected_end == 0);
    let mut scroll = scroll;
    if selected_start < scroll {
        scroll = selected_start;
    } else if body_height > 0 && selected_end >= scroll && selected_end - scroll >= body_height {
        let tall = selected_end + 1 >= selected_start && selected_end + 1 - selected_start
            > body_height;
        scroll = if tall {
            selected_start
        } else {
            selected_end + 1 - body_height
        };
    }
    if let Some(cursor_line) = find_first_cursor(lines) {
        if cursor_line < scroll {
            scroll = cursor_line;
        } else if body_height > 0 && cursor_line - scroll >= body_height {
            scroll = cursor_line + 1 - body_height;
        }
    }
    let max_scroll = lines.len().saturating_sub(body_height);
    if scroll < max_scroll {
        scroll
    } else {
        max_scroll
    }
}

} // verus!
