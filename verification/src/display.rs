//! The rows of the outline view: wrapped node texts, the inline editor and
//! the draft of a new node.

use vstd::prelude::*;

use crate::editor::{EditTarget, Editor};
use crate::identity::NodeId;
use crate::layout::{editor_text, tags_line, tags_text, DisplayLine};
use crate::model::{Node, NodeReference, Placement};
use crate::outline::strings_view;
use crate::text::{
    byte_to_char, char_index, chars_of, concat2, is_char_boundary, lemma_utf8_len_strictly_increasing,
    push_char, replace_newlines, replace_newlines_spec, sub_string_of, utf8_len,
};
use crate::width::{char_width, plain_width, show_char, shown_char, wrap_text, wrapped_text};

verus! {

/// Progress of the greedy wrapping of an edited text: the finished rows
/// (with the caret column of the row that holds it), the current row, its
/// width, and the caret column on it.
pub type WrapState = (Seq<(Seq<char>, Option<nat>)>, Seq<char>, nat, Option<nat>);

/// The wrapping after character `i` (`c`) is placed. A caret that sits on a
/// full row opens the next row; a character that does not fit on a non-empty
/// row starts a new one.
pub open spec fn wrap_step(st: WrapState, i: int, c: char, cursor: int, width: nat) -> WrapState {
    let (done, line, used, caret) = st;
    let (done, line, used, caret) = if i == cursor && used == width && line.len() > 0 {
        (done.push((line, caret)), Seq::<char>::empty(), 0nat, None::<nat>)
    } else {
        (done, line, used, caret)
    };
    let caret = if i == cursor {
        Some(used)
    } else {
        caret
    };
    let shown = shown_char(c);
    let w = plain_width(shown);
    let (done, line, used, caret) = if line.len() > 0 && used + w > width {
        (
            done.push((line, caret)),
            Seq::<char>::empty(),
            0nat,
            if i == cursor {
                Some(0nat)
            } else {
                None::<nat>
            },
        )
    } else {
        (done, line, used, caret)
    };
    (done, line.push(shown), used + w, caret)
}

/// The wrapping after the first `n` characters of `s`.
pub open spec fn wrap_run(s: Seq<char>, n: int, cursor: int, width: nat) -> WrapState
    decreases n,
{
    if n <= 0 || n > s.len() {
        (Seq::empty(), Seq::empty(), 0nat, None)
    } else {
        wrap_step(wrap_run(s, n - 1, cursor, width), n - 1, s[n - 1], cursor, width)
    }
}

/// The rows of an edited text wrapped at `width` columns, each with the
/// caret's column when the caret is on it. A caret at the very end of a
/// full row is shown at the start of one more, empty row.
pub open spec fn wrapped_editor_text(s: Seq<char>, cursor: int, width: nat) -> Seq<
    (Seq<char>, Option<nat>),
> {
    let (done, line, used, caret) = wrap_run(s, s.len() as int, cursor, width);
    if cursor == s.len() {
        if used == width && line.len() > 0 {
            done.push((line, caret)).push((Seq::<char>::empty(), Some(0nat)))
        } else {
            done.push((line, Some(used)))
        }
    } else {
        done.push((line, caret))
    }
}

/// The rows of a wrapped text with their caret columns, as plain values.
pub open spec fn rows_view(rows: Seq<(String, Option<usize>)>) -> Seq<(Seq<char>, Option<nat>)> {
    rows.map_values(
        |row: (String, Option<usize>)|
            (
                row.0@,
                match row.1 {
                    Some(c) => Some(c as nat),
                    None => None,
                },
            ),
    )
}

/// Wraps an edited text at `width` columns and places its caret (given in
/// characters) on the row that holds it. Control characters are shown as `↵`.
pub fn wrap_editor_text(text: &str, width: usize, cursor: usize) -> (rows: Vec<(String, Option<usize>)>)
    ensures
        rows_view(rows@) == wrapped_editor_text(text@, cursor as int, width as nat),
{
    let characters = chars_of(text);
    let n = characters.len();
    let mut lines: Vec<(String, Option<usize>)> = Vec::new();
    let mut line = String::new();
    let mut line_width: usize = 0;
    let mut line_cursor: Option<usize> = None;
    let mut index: usize = 0;
    let mut line_len: usize = 0;
    assert(rows_view(lines@) =~= Seq::<(Seq<char>, Option<nat>)>::empty());
    while index < n
        invariant
            index <= n == characters@.len() == text@.len(),
            characters@ == text@,
            ({
                let st = wrap_run(text@, index as int, cursor as int, width as nat);
                &&& rows_view(lines@) == st.0
                &&& line@ == st.1
                &&& line_width == st.2
                &&& (match line_cursor {
                    Some(c) => st.3 == Some(c as nat),
                    None => st.3 is None,
                })
            }),
            line_len == 0 ==> line_width == 0,
            line_len <= 1 || line_width <= width,
            line_len <= 1 ==> line_width <= 3,
            line_len == line@.len(),
            line_len <= index,
        decreases n - index,
    {
        let character = characters[index];
        if index == cursor && line_width == width && line_len > 0 {
            let ghost before = rows_view(lines@);
            lines.push((line, line_cursor));
            assert(rows_view(lines@) =~= before.push((rows_view(lines@).last().0, rows_view(lines@).last().1)));
            line = String::new();
            line_width = 0;
            line_len = 0;
            line_cursor = None;
        }
        if index == cursor {
            line_cursor = Some(line_width);
        }
        let shown = show_char(character);
        let character_width = char_width(shown);
        assert(character_width == plain_width(shown_char(character)));
        if line_len > 0 && (line_width > width || character_width > width - line_width) {
            let ghost before = rows_view(lines@);
            lines.push((line, line_cursor));
            assert(rows_view(lines@) =~= before.push((rows_view(lines@).last().0, rows_view(lines@).last().1)));
            line = String::new();
            line_width = 0;
            line_len = 0;
            line_cursor = if index == cursor {
                Some(0)
            } else {
                None
            };
        }
        push_char(&mut line, shown);
        line_width = line_width + character_width;
        line_len = line_len + 1;
        index += 1;
    }
    if cursor == n {
        if line_width == width && line_len > 0 {
            let ghost before = rows_view(lines@);
            lines.push((line, line_cursor));
            assert(rows_view(lines@) =~= before.push((rows_view(lines@).last().0, rows_view(lines@).last().1)));
            line = String::new();
            line_cursor = Some(0);
        } else {
            line_cursor = Some(line_width);
        }
    }
    let ghost before = rows_view(lines@);
    lines.push((line, line_cursor));
    assert(rows_view(lines@) =~= before.push((rows_view(lines@).last().0, rows_view(lines@).last().1)));
    lines
}

/// Columns of indentation per outline level.
pub const OUTLINE_INDENT: usize = 4;

/// The displayed width of a string as `unicode-width` computes it from its
/// characters and the sequences they form.
pub uninterp spec fn str_width(s: Seq<char>) -> usize;

/// `<str as unicode_width::UnicodeWidthStr>::width`: the displayed width of
/// `s`. The contract names the result and claims nothing more of it.
#[verifier::external_body]
pub(crate) fn text_columns(s: &str) -> (r: usize)
    ensures
        r == str_width(s@),
{
    unicode_width::UnicodeWidthStr::width(s)
}

/// The indentation of an outline row at `depth`: four columns per level,
/// holding a hierarchy line when `lines` is on.
pub open spec fn indent_text(depth: nat, lines: bool) -> Seq<char>
    decreases depth,
{
    if depth == 0 {
        seq![]
    } else {
        indent_text((depth - 1) as nat, lines) + if lines {
            seq!['│', ' ', ' ', ' ']
        } else {
            seq![' ', ' ', ' ', ' ']
        }
    }
}

/// The indentation of a row is four columns per level: each level starts
/// with the guide `│` when guides are shown, else a space, and continues
/// with three spaces.
pub proof fn lemma_indent_text_levels(depth: nat, lines: bool)
    ensures
        indent_text(depth, lines).len() == 4 * depth,
        forall|i: int|
            0 <= i < 4 * depth ==> #[trigger] indent_text(depth, lines)[i] == (if i % 4 == 0 && lines {
                '│'
            } else {
                ' '
            }),
    decreases depth,
{
    if depth > 0 {
        lemma_indent_text_levels((depth - 1) as nat, lines);
        let prev = indent_text((depth - 1) as nat, lines);
        assert forall|i: int| 0 <= i < 4 * depth implies #[trigger] indent_text(depth, lines)[i] == (
        if i % 4 == 0 && lines {
            '│'
        } else {
            ' '
        }) by {
            if i < 4 * (depth - 1) {
                assert(indent_text(depth, lines)[i] == prev[i]);
            } else {
                assert(i - 4 * (depth - 1) < 4);
                assert(i % 4 == i - 4 * (depth - 1)) by (nonlinear_arith)
                    requires
                        4 * (depth - 1) <= i < 4 * depth,
                ;
            }
        }
    }
}

/// The indentation of an outline row at `depth`.
pub fn indent_prefix(depth: usize, lines: bool) -> (r: String)
    ensures
        r@ == indent_text(depth as nat, lines),
{
    let mut r = String::new();
    let mut level: usize = 0;
    while level < depth
        invariant
            level <= depth,
            r@ == indent_text(level as nat, lines),
        decreases depth - level,
    {
        if lines {
            push_char(&mut r, '│');
        } else {
            push_char(&mut r, ' ');
        }
        push_char(&mut r, ' ');
        push_char(&mut r, ' ');
        push_char(&mut r, ' ');
        level += 1;
        assert(r@ =~= indent_text(level as nat, lines));
    }
    r
}

/// Character index where the text before reference `i` resumes: the end of
/// the previous label, or the start of the text.
pub open spec fn resume_at(s: Seq<char>, refs: Seq<NodeReference>, i: int) -> int {
    if i <= 0 {
        0
    } else {
        char_index(s, refs[i - 1].label_end as int)
    }
}

/// Every label boundary falls between characters, and each label starts
/// after the end of the previous one.
pub open spec fn refs_in_order(s: Seq<char>, refs: Seq<NodeReference>) -> bool {
    forall|i: int|
        0 <= i < refs.len() ==> {
            &&& is_char_boundary(s, #[trigger] refs[i].label_start as int)
            &&& is_char_boundary(s, refs[i].label_end as int)
            &&& resume_at(s, refs, i) <= char_index(s, refs[i].label_start as int)
        }
}

/// The text up to the end of the `n`-th label, each label replaced by the
/// current text of its target.
pub open spec fn resolved_upto(s: Seq<char>, refs: Seq<NodeReference>, n: int) -> Seq<char>
    decreases n,
{
    if n <= 0 {
        seq![]
    } else {
        resolved_upto(s, refs, n - 1) + s.subrange(
            resume_at(s, refs, n - 1),
            char_index(s, refs[n - 1].label_start as int),
        ) + refs[n - 1].target_text@
    }
}

/// A node's text with the label of every inline reference replaced by the
/// current text of its target.
pub open spec fn resolved(s: Seq<char>, refs: Seq<NodeReference>) -> Seq<char> {
    resolved_upto(s, refs, refs.len() as int) + s.skip(resume_at(s, refs, refs.len() as int))
}

/// The text of a node as the outline shows it: references resolved to the
/// current text of their targets.
pub fn resolved_text(node: &Node) -> (r: String)
    requires
        refs_in_order(node.text@, node.references@),
    ensures
        r@ == resolved(node.text@, node.references@),
{
    let ghost s = node.text@;
    let ghost refs = node.references@;
    let chars = chars_of(node.text.as_str());
    let mut text = String::new();
    let mut cursor: usize = 0;
    let mut i: usize = 0;
    while i < node.references.len()
        invariant
            i <= refs.len(),
            s == node.text@ && refs == node.references@,
            chars@ == s,
            refs_in_order(s, refs),
            cursor == resume_at(s, refs, i as int),
            cursor <= s.len(),
            text@ == resolved_upto(s, refs, i as int),
        decreases refs.len() - i,
    {
        let reference = &node.references[i];
        assert(is_char_boundary(s, refs[i as int].label_start as int));
        let start = byte_to_char(&chars, reference.label_start);
        let before = sub_string_of(&chars, cursor, start);
        text.append(before.as_str());
        text.append(reference.target_text.as_str());
        cursor = byte_to_char(&chars, reference.label_end);
        i += 1;
    }
    let rest = sub_string_of(&chars, cursor, chars.len());
    text.append(rest.as_str());
    assert(s.subrange(cursor as int, s.len() as int) =~= s.skip(cursor as int));
    text
}

/// Number of characters in the labels of the first `n` references.
pub open spec fn label_chars(s: Seq<char>, refs: Seq<NodeReference>, n: int) -> int
    decreases n,
{
    if n <= 0 {
        0
    } else {
        label_chars(s, refs, n - 1) + (char_index(s, refs[n - 1].label_end as int) - char_index(
            s,
            refs[n - 1].label_start as int,
        ))
    }
}

/// Number of characters in the target texts of the first `n` references.
pub open spec fn target_chars(refs: Seq<NodeReference>, n: int) -> int
    decreases n,
{
    if n <= 0 {
        0
    } else {
        target_chars(refs, n - 1) + refs[n - 1].target_text@.len()
    }
}

/// Where the `i`-th label, or the text before it, stands in the resolved
/// text: its place in `s`, less the labels before it, plus their targets.
pub open spec fn resolved_place(s: Seq<char>, refs: Seq<NodeReference>, i: int, at: int) -> int {
    at - label_chars(s, refs, i) + target_chars(refs, i)
}

proof fn lemma_boundary_index(s: Seq<char>, b: int)
    requires
        is_char_boundary(s, b),
    ensures
        0 <= char_index(s, b) <= s.len(),
        utf8_len(s.take(char_index(s, b))) == b,
{
}

proof fn lemma_label_indices(s: Seq<char>, r: NodeReference)
    requires
        is_char_boundary(s, r.label_start as int),
        is_char_boundary(s, r.label_end as int),
        r.label_start <= r.label_end,
    ensures
        0 <= char_index(s, r.label_start as int) <= char_index(s, r.label_end as int) <= s.len(),
{
    lemma_boundary_index(s, r.label_start as int);
    lemma_boundary_index(s, r.label_end as int);
    let a = char_index(s, r.label_start as int);
    let b = char_index(s, r.label_end as int);
    if b < a {
        lemma_utf8_len_strictly_increasing(s, b, a);
    }
}

proof fn lemma_resolved_upto_len(s: Seq<char>, refs: Seq<NodeReference>, n: int)
    requires
        refs_in_order(s, refs),
        forall|i: int| 0 <= i < refs.len() ==> (#[trigger] refs[i]).label_start <= refs[i].label_end,
        0 <= n <= refs.len(),
    ensures
        0 <= resume_at(s, refs, n) <= s.len(),
        resolved_upto(s, refs, n).len() == resolved_place(s, refs, n, resume_at(s, refs, n)),
    decreases n,
{
    if n > 0 {
        lemma_resolved_upto_len(s, refs, n - 1);
        assert(refs_in_order(s, refs) ==> is_char_boundary(s, refs[n - 1].label_start as int));
        lemma_label_indices(s, refs[n - 1]);
    }
}

proof fn lemma_resolved_upto_prefix(s: Seq<char>, refs: Seq<NodeReference>, m: int, n: int)
    requires
        0 <= m <= n,
    ensures
        resolved_upto(s, refs, m).len() <= resolved_upto(s, refs, n).len(),
        resolved_upto(s, refs, n).take(resolved_upto(s, refs, m).len() as int) == resolved_upto(
            s,
            refs,
            m,
        ),
    decreases n - m,
{
    let target = resolved_upto(s, refs, m);
    if m < n {
        lemma_resolved_upto_prefix(s, refs, m, n - 1);
        let a = resolved_upto(s, refs, n - 1);
        let whole = resolved_upto(s, refs, n);
        assert(whole.take(a.len() as int) =~= a);
        assert(whole.take(target.len() as int) =~= a.take(target.len() as int));
    } else {
        assert(target.take(target.len() as int) =~= target);
    }
}

proof fn lemma_resolved_piece(s: Seq<char>, refs: Seq<NodeReference>, i: int)
    requires
        refs_in_order(s, refs),
        forall|i: int| 0 <= i < refs.len() ==> (#[trigger] refs[i]).label_start <= refs[i].label_end,
        0 <= i < refs.len(),
    ensures
        ({
            let start = char_index(s, refs[i].label_start as int);
            let p = resolved_place(s, refs, i, start);
            let q = resolved_place(s, refs, i, resume_at(s, refs, i));
            &&& resolved(s, refs).subrange(q, p) == s.subrange(resume_at(s, refs, i), start)
            &&& resolved(s, refs).subrange(p, p + refs[i].target_text@.len())
                == refs[i].target_text@
        }),
{
    let n = refs.len() as int;
    let r = resolved(s, refs);
    let all = resolved_upto(s, refs, n);
    let start = char_index(s, refs[i].label_start as int);
    assert(is_char_boundary(s, refs[i].label_start as int));
    lemma_label_indices(s, refs[i]);
    lemma_resolved_upto_len(s, refs, i);
    lemma_resolved_upto_prefix(s, refs, i + 1, n);
    let before = resolved_upto(s, refs, i);
    let piece = s.subrange(resume_at(s, refs, i), start);
    let t = refs[i].target_text@;
    let upto = resolved_upto(s, refs, i + 1);
    assert(upto == before + piece + t);
    let q = before.len() as int;
    let p = q + piece.len();
    assert(all.take(upto.len() as int) == upto);
    assert(r == all + s.skip(resume_at(s, refs, n)));
    assert(r.subrange(q, p) =~= upto.subrange(q, p));
    assert(upto.subrange(q, p) =~= piece);
    assert(r.subrange(p, p + t.len()) =~= upto.subrange(p, p + t.len()));
    assert(upto.subrange(p, p + t.len()) =~= t);
}

/// Resolving references replaces the label of each reference by the
/// current text of its target and keeps the rest of the text: the text
/// before each label, each target text and the text after the last label
/// stand one after the other, so the result is as long as the text less
/// the labels plus the targets. Without references it is the text itself.
pub proof fn lemma_resolved_replaces_labels(s: Seq<char>, refs: Seq<NodeReference>)
    requires
        refs_in_order(s, refs),
        forall|i: int| 0 <= i < refs.len() ==> (#[trigger] refs[i]).label_start <= refs[i].label_end,
    ensures
        resolved(s, refs).len() == s.len() - label_chars(s, refs, refs.len() as int) + target_chars(
            refs,
            refs.len() as int,
        ),
        refs.len() == 0 ==> resolved(s, refs) == s,
        forall|i: int|
            0 <= i < refs.len() ==> {
                let start = char_index(s, (#[trigger] refs[i]).label_start as int);
                let p = resolved_place(s, refs, i, start);
                let q = resolved_place(s, refs, i, resume_at(s, refs, i));
                &&& resolved(s, refs).subrange(q, p) == s.subrange(resume_at(s, refs, i), start)
                &&& resolved(s, refs).subrange(p, p + refs[i].target_text@.len())
                    == refs[i].target_text@
            },
        resolved(s, refs).skip(
            resolved_place(s, refs, refs.len() as int, resume_at(s, refs, refs.len() as int)),
        ) == s.skip(resume_at(s, refs, refs.len() as int)),
{
    let n = refs.len() as int;
    let r = resolved(s, refs);
    let all = resolved_upto(s, refs, n);
    lemma_resolved_upto_len(s, refs, n);
    let rest = s.skip(resume_at(s, refs, n));
    assert(r == all + rest);
    assert(r.skip(all.len() as int) =~= rest);
    if n == 0 {
        assert(r =~= s);
    }
    assert forall|i: int| 0 <= i < refs.len() implies {
        let start = char_index(s, (#[trigger] refs[i]).label_start as int);
        let p = resolved_place(s, refs, i, start);
        let q = resolved_place(s, refs, i, resume_at(s, refs, i));
        &&& r.subrange(q, p) == s.subrange(resume_at(s, refs, i), start)
        &&& r.subrange(p, p + refs[i].target_text@.len()) == refs[i].target_text@
    } by {
        lemma_resolved_piece(s, refs, i);
    }
}

/// The text shown for a node on its outline row: resolved references, line
/// breaks as ` ↵ `, and its tags after two spaces.
pub open spec fn node_shown(node: Node) -> Seq<char> {
    let text = replace_newlines_spec(resolved(node.text@, node.references@), " ↵ "@);
    if node.tags@.len() == 0 {
        text
    } else {
        text + seq![' ', ' '] + tags_text(strings_view(node.tags@))
    }
}

/// The text shown for a node on its outline row.
pub fn shown_node_text(node: &Node) -> (r: String)
    requires
        refs_in_order(node.text@, node.references@),
    ensures
        r@ == node_shown(*node),
{
    let plain = resolved_text(node);
    let text = replace_newlines(plain.as_str(), " ↵ ");
    if node.tags.len() == 0 {
        return text;
    }
    let tags = tags_line(&node.tags);
    let mut r = text;
    push_char(&mut r, ' ');
    push_char(&mut r, ' ');
    r.append(tags.as_str());
    assert(r@ =~= replace_newlines_spec(resolved(node.text@, node.references@), " ↵ "@) + seq![
        ' ',
        ' ',
    ] + tags_text(strings_view(node.tags@)));
    r
}

/// The text an open editor shows: its text, then its tags after two spaces.
pub open spec fn editor_shown(editor: Editor) -> Seq<char> {
    if editor.tags@.len() == 0 {
        editor.text@
    } else {
        editor.text@ + seq![' ', ' '] + tags_text(strings_view(editor.tags@))
    }
}

/// A rendered row as plain values: selection, text, caret column and the
/// byte offset where its content starts.
pub type LineView = (bool, Seq<char>, Option<nat>, usize);

/// A rendered row as plain values.
pub open spec fn line_view(line: DisplayLine) -> LineView {
    (
        line.selected,
        line.text@,
        match line.cursor {
            Some(c) => Some(c as nat),
            None => None,
        },
        line.content_start,
    )
}

/// Rendered rows as plain values.
pub open spec fn lines_view(lines: Seq<DisplayLine>) -> Seq<LineView> {
    lines.map_values(|line: DisplayLine| line_view(line))
}

/// Columns left for text after a row prefix, at least one.
pub open spec fn available_columns(prefix: Seq<char>, width: nat) -> nat {
    if width > str_width(prefix) {
        (width - str_width(prefix)) as nat
    } else {
        1
    }
}

/// The screen column of a caret at column `c` of the text after `lead`
/// (saturating at `usize::MAX`).
pub open spec fn caret_column(lead: Seq<char>, c: nat) -> nat {
    if str_width(lead) + c <= usize::MAX {
        (str_width(lead) + c) as nat
    } else {
        usize::MAX as nat
    }
}

/// The byte length of the UTF-8 encoding of `s`, as `str::len` gives it.
pub open spec fn byte_len(s: Seq<char>) -> usize {
    vstd::utf8::encode_utf8(s).len() as usize
}

/// The rows of an edited text after `prefix` (first row) or `continuation`
/// (later rows): all selected, the caret on the row that holds it.
pub open spec fn editor_rows(
    prefix: Seq<char>,
    continuation: Seq<char>,
    text: Seq<char>,
    cursor: int,
    width: nat,
) -> Seq<LineView> {
    let rows = wrapped_editor_text(text, cursor, available_columns(prefix, width));
    Seq::new(
        rows.len(),
        |i: int|
            {
                let lead = if i == 0 {
                    prefix
                } else {
                    continuation
                };
                (
                    true,
                    lead + rows[i].0,
                    match rows[i].1 {
                        Some(c) => Some(caret_column(lead, c)),
                        None => None,
                    },
                    byte_len(lead),
                )
            },
    )
}

/// The rows of a node's text after `prefix` (first row) or `continuation`
/// (later rows).
pub open spec fn text_rows(
    selected: bool,
    prefix: Seq<char>,
    continuation: Seq<char>,
    text: Seq<char>,
    width: nat,
) -> Seq<LineView> {
    let rows = wrapped_text(text, available_columns(prefix, width));
    Seq::new(
        rows.len(),
        |i: int|
            {
                let lead = if i == 0 {
                    prefix
                } else {
                    continuation
                };
                (selected, lead + rows[i], None, byte_len(lead))
            },
    )
}

fn prefix_columns(prefix: &str, width: usize) -> (r: usize)
    ensures
        r == available_columns(prefix@, width as nat),
{
    let used = text_columns(prefix);
    if width > used {
        width - used
    } else {
        1
    }
}

fn lead_row(selected: bool, lead: &str, content: &str, cursor: Option<usize>) -> (r: DisplayLine)
    ensures
        line_view(r) == (
            selected,
            lead@ + content@,
            match cursor {
                Some(c) => Some(caret_column(lead@, c as nat)),
                None => None,
            },
            byte_len(lead@),
        ),
{
    let caret = match cursor {
        Some(c) => Some(text_columns(lead).saturating_add(c)),
        None => None,
    };
    DisplayLine {
        selected,
        text: concat2(lead, content),
        cursor: caret,
        content_start: lead.len(),
    }
}

/// The rows of an edited text after a prefix and its continuation.
pub fn editor_lines(prefix: &str, continuation: &str, text: &str, cursor: usize, width: usize) -> (r:
    Vec<DisplayLine>)
    ensures
        lines_view(r@) == editor_rows(prefix@, continuation@, text@, cursor as int, width as nat),
{
    let available = prefix_columns(prefix, width);
    let rows = wrap_editor_text(text, available, cursor);
    let ghost spec_rows = rows_view(rows@);
    let mut r: Vec<DisplayLine> = Vec::new();
    let mut i: usize = 0;
    while i < rows.len()
        invariant
            i <= rows@.len(),
            spec_rows == rows_view(rows@),
            spec_rows == wrapped_editor_text(text@, cursor as int, available as nat),
            available == available_columns(prefix@, width as nat),
            lines_view(r@) == editor_rows(prefix@, continuation@, text@, cursor as int, width as nat).take(
                i as int,
            ),
        decreases rows@.len() - i,
    {
        let lead = if i == 0 {
            prefix
        } else {
            continuation
        };
        let row = lead_row(true, lead, rows[i].0.as_str(), rows[i].1);
        let ghost before = r@;
        r.push(row);
        proof {
            let want = editor_rows(prefix@, continuation@, text@, cursor as int, width as nat);
            assert(spec_rows[i as int] == (rows@[i as int].0@, match rows@[i as int].1 {
                Some(c) => Some(c as nat),
                None => None::<nat>,
            }));
            assert(line_view(row) == want[i as int]);
            assert(r@ == before.push(row));
            assert(lines_view(r@) =~= lines_view(before).push(line_view(row)));
            assert(lines_view(r@) =~= want.take(i + 1));
        }
        i += 1;
    }
    assert(editor_rows(prefix@, continuation@, text@, cursor as int, width as nat).take(i as int)
        =~= editor_rows(prefix@, continuation@, text@, cursor as int, width as nat));
    r
}

/// The rows of a node's text after a prefix and its continuation.
pub fn text_lines(selected: bool, prefix: &str, continuation: &str, text: &str, width: usize) -> (r:
    Vec<DisplayLine>)
    ensures
        lines_view(r@) == text_rows(selected, prefix@, continuation@, text@, width as nat),
{
    let available = prefix_columns(prefix, width);
    let rows = wrap_text(text, available);
    let ghost spec_rows = strings_view(rows@);
    let mut r: Vec<DisplayLine> = Vec::new();
    let mut i: usize = 0;
    while i < rows.len()
        invariant
            i <= rows@.len(),
            spec_rows == strings_view(rows@),
            spec_rows == wrapped_text(text@, available as nat),
            available == available_columns(prefix@, width as nat),
            lines_view(r@) == text_rows(selected, prefix@, continuation@, text@, width as nat).take(
                i as int,
            ),
        decreases rows@.len() - i,
    {
        let lead = if i == 0 {
            prefix
        } else {
            continuation
        };
        let row = lead_row(selected, lead, rows[i].as_str(), None);
        let ghost before = r@;
        r.push(row);
        proof {
            let want = text_rows(selected, prefix@, continuation@, text@, width as nat);
            assert(spec_rows[i as int] == rows@[i as int]@);
            assert(line_view(row) == want[i as int]);
            assert(lines_view(r@) =~= lines_view(before).push(line_view(row)));
            assert(lines_view(r@) =~= want.take(i + 1));
        }
        i += 1;
    }
    assert(text_rows(selected, prefix@, continuation@, text@, width as nat).take(i as int)
        =~= text_rows(selected, prefix@, continuation@, text@, width as nat));
    r
}

/// A node shown in the outline at a depth below the focus.
#[derive(Clone, Debug, PartialEq, Eq)]
pub struct VisibleNode {
    /// The node.
    pub node: Node,
    /// Number of levels below the focus (zero for its children).
    pub depth: usize,
}

/// Index of the first visible node with identity `id`, if any.
pub open spec fn position_of(visible: Seq<VisibleNode>, id: NodeId) -> Option<int>
    decreases visible.len(),
{
    if visible.len() == 0 {
        None
    } else if visible[0].node.id@ == id@ {
        Some(0)
    } else {
        match position_of(visible.drop_first(), id) {
            Some(i) => Some(i + 1),
            None => None,
        }
    }
}

proof fn lemma_position_of(visible: Seq<VisibleNode>, id: NodeId, i: int)
    requires
        0 <= i <= visible.len(),
        forall|k: int| 0 <= k < i ==> (#[trigger] visible[k]).node.id@ != id@,
        i < visible.len() ==> visible[i].node.id@ == id@,
    ensures
        position_of(visible, id) == if i < visible.len() {
            Some(i)
        } else {
            None::<int>
        },
    decreases i,
{
    if i > 0 {
        assert forall|k: int| 0 <= k < i - 1 implies (#[trigger] visible.drop_first()[k]).node.id@
            != id@ by {
            assert(visible.drop_first()[k] == visible[k + 1]);
        }
        lemma_position_of(visible.drop_first(), id, i - 1);
    }
}

/// Index of the first visible node with identity `id`.
pub fn find_visible(visible: &Vec<VisibleNode>, id: NodeId) -> (r: Option<usize>)
    ensures
        match position_of(visible@, id) {
            Some(i) => r == Some(i as usize) && 0 <= i < visible@.len(),
            None => r is None,
        },
{
    let mut i: usize = 0;
    while i < visible.len()
        invariant
            i <= visible@.len(),
            forall|k: int| 0 <= k < i ==> (#[trigger] visible@[k]).node.id@ != id@,
        decreases visible@.len() - i,
    {
        if visible[i].node.id == id {
            proof {
                lemma_position_of(visible@, id, i as int);
            }
            return Some(i);
        }
        i += 1;
    }
    proof {
        lemma_position_of(visible@, id, visible@.len() as int);
    }
    None
}

/// The first index from `from` on that holds no descendant of a node at
/// `depth`: the end of that node's visible subtree.
pub open spec fn subtree_end(visible: Seq<VisibleNode>, from: int, depth: nat) -> int
    decreases visible.len() - from,
{
    if from < 0 || from >= visible.len() || visible[from].depth <= depth {
        from
    } else {
        subtree_end(visible, from + 1, depth)
    }
}

fn skip_subtree(visible: &Vec<VisibleNode>, from: usize, depth: usize) -> (r: usize)
    requires
        from <= visible@.len(),
    ensures
        r == subtree_end(visible@, from as int, depth as nat),
        from <= r <= visible@.len(),
    decreases visible@.len() - from,
{
    if from < visible.len() && visible[from].depth > depth {
        skip_subtree(visible, from + 1, depth)
    } else {
        from
    }
}

/// Whether two optional identities are both absent or the same node.
pub open spec fn same_option_id(a: Option<NodeId>, b: Option<NodeId>) -> bool {
    match (a, b) {
        (Some(x), Some(y)) => x@ == y@,
        (None, None) => true,
        _ => false,
    }
}

fn equal_option_ids(a: Option<NodeId>, b: Option<NodeId>) -> (r: bool)
    ensures
        r == same_option_id(a, b),
{
    match (a, b) {
        (Some(x), Some(y)) => x == y,
        (None, None) => true,
        _ => false,
    }
}

/// Where the draft of a new node is shown among the visible nodes, and at
/// which depth: before or after (its subtree) a reference sibling, first
/// or last under its parent, or at the top or the bottom when the parent is
/// the focus. `None` when the reference or the parent is not visible.
pub open spec fn draft_spec(
    visible: Seq<VisibleNode>,
    focus: Option<NodeId>,
    parent_id: Option<NodeId>,
    placement: Placement,
) -> Option<(int, nat)> {
    match placement {
        Placement::Before(reference) => match position_of(visible, reference) {
            Some(i) => Some((i, visible[i].depth as nat)),
            None => None,
        },
        Placement::After(reference) => match position_of(visible, reference) {
            Some(i) => Some((subtree_end(visible, i + 1, visible[i].depth as nat), visible[i].depth as nat)),
            None => None,
        },
        Placement::First => if same_option_id(parent_id, focus) {
            Some((0, 0))
        } else {
            match parent_id {
                Some(parent) => match position_of(visible, parent) {
                    Some(i) => Some((i + 1, (visible[i].depth + 1) as nat)),
                    None => None,
                },
                None => None,
            }
        },
        Placement::Last => if same_option_id(parent_id, focus) {
            Some((visible.len() as int, 0))
        } else {
            match parent_id {
                Some(parent) => match position_of(visible, parent) {
                    Some(i) => Some(
                        (
                            subtree_end(visible, i + 1, visible[i].depth as nat),
                            (visible[i].depth + 1) as nat,
                        ),
                    ),
                    None => None,
                },
                None => None,
            }
        },
    }
}

/// No visible node is at the deepest representable depth, so a child of any
/// of them has a depth too.
pub open spec fn depths_bounded(visible: Seq<VisibleNode>) -> bool {
    forall|i: int| 0 <= i < visible.len() ==> (#[trigger] visible[i]).depth < usize::MAX
}

/// Index and depth of the draft of a new node among the visible nodes.
pub fn draft_position(
    visible: &Vec<VisibleNode>,
    focus: Option<NodeId>,
    parent_id: Option<NodeId>,
    placement: Placement,
) -> (r: Option<(usize, usize)>)
    requires
        depths_bounded(visible@),
    ensures
        match draft_spec(visible@, focus, parent_id, placement) {
            Some((index, depth)) => r == Some((index as usize, depth as usize)) && 0 <= index
                <= visible@.len() && depth <= usize::MAX,
            None => r is None,
        },
{
    let n = visible.len();
    match placement {
        Placement::Before(reference) => {
            let index = find_visible(visible, reference)?;
            Some((index, visible[index].depth))
        },
        Placement::After(reference) => {
            let index = find_visible(visible, reference)?;
            let depth = visible[index].depth;
            Some((skip_subtree(visible, index + 1, depth), depth))
        },
        Placement::First => {
            if equal_option_ids(parent_id, focus) {
                return Some((0, 0));
            }
            let parent = parent_id?;
            let index = find_visible(visible, parent)?;
            Some((index + 1, visible[index].depth + 1))
        },
        Placement::Last => {
            if equal_option_ids(parent_id, focus) {
                return Some((visible.len(), 0));
            }
            let parent = parent_id?;
            let index = find_visible(visible, parent)?;
            let depth = visible[index].depth;
            Some((skip_subtree(visible, index + 1, depth), depth + 1))
        },
    }
}

/// What the outline shows: the visible nodes under the focus, the open
/// editor, the selection, the expanded nodes and whether hierarchy lines
/// are drawn.
#[derive(Clone, Debug, PartialEq, Eq)]
pub struct OutlineView {
    /// Nodes shown under the focus, in outline order.
    pub visible: Vec<VisibleNode>,
    /// The open inline editor, if any.
    pub editor: Option<Editor>,
    /// The zoomed node, or `None` for the root.
    pub focus: Option<NodeId>,
    /// The selected node.
    pub selected: Option<NodeId>,
    /// Nodes whose children are shown.
    pub expanded: Vec<NodeId>,
    /// Whether hierarchy lines are drawn in the indentation.
    pub lines: bool,
}

/// Whether `ids` holds the node `id`.
pub open spec fn contains_id(ids: Seq<NodeId>, id: NodeId) -> bool {
    exists|k: int| 0 <= k < ids.len() && (#[trigger] ids[k])@ == id@
}

/// Whether `ids` holds the node `id`.
pub fn has_id(ids: &Vec<NodeId>, id: NodeId) -> (r: bool)
    ensures
        r == contains_id(ids@, id),
{
    let mut i: usize = 0;
    while i < ids.len()
        invariant
            i <= ids@.len(),
            forall|k: int| 0 <= k < i ==> (#[trigger] ids@[k])@ != id@,
        decreases ids@.len() - i,
    {
        if ids[i] == id {
            assert(ids@[i as int]@ == id@);
            return true;
        }
        i += 1;
    }
    false
}

/// The bullet of a node: open or closed triangle for a node with children,
/// a dot otherwise.
pub open spec fn marker(has_children: bool, expanded: bool) -> char {
    if has_children {
        if expanded {
            '▾'
        } else {
            '▸'
        }
    } else {
        '•'
    }
}

/// Whether the open editor is the draft of a new node.
pub open spec fn has_draft(view: OutlineView) -> bool {
    view.editor matches Some(e) && e.target is New
}

/// Where the draft of a new node is shown, and at which depth.
pub open spec fn draft_of(view: OutlineView) -> Option<(int, nat)> {
    match view.editor {
        Some(e) => match e.target {
            EditTarget::New { parent_id, placement } => draft_spec(
                view.visible@,
                view.focus,
                parent_id,
                placement,
            ),
            EditTarget::Existing(_) => None,
        },
        None => None,
    }
}

/// Whether a visible node's row is selected: it is the selection and no
/// draft is open.
pub open spec fn row_selected(view: OutlineView, item: VisibleNode) -> bool {
    !has_draft(view) && (view.selected matches Some(s) && s@ == item.node.id@)
}

/// Whether the open editor edits this visible node.
pub open spec fn editing_item(view: OutlineView, item: VisibleNode) -> bool {
    view.editor matches Some(e) && (e.target matches EditTarget::Existing(id) && id@
        == item.node.id@)
}

/// The rows of a visible node: its prefix (selector, indentation and
/// bullet), then either the open editor or its shown text, wrapped.
pub open spec fn item_rows(view: OutlineView, item: VisibleNode, width: nat) -> Seq<LineView> {
    let indent = indent_text(item.depth as nat, view.lines);
    let selected = row_selected(view, item);
    let selector = if selected {
        seq!['›', ' ']
    } else {
        seq![' ', ' ']
    };
    let prefix = selector + indent + seq![
        marker(item.node.has_children, contains_id(view.expanded@, item.node.id)),
        ' ',
    ];
    let continuation = seq![' ', ' '] + indent + seq![' ', ' '];
    if editing_item(view, item) {
        let editor = view.editor.unwrap();
        editor_rows(prefix, continuation, editor_shown(editor), editor.cursor as int, width)
    } else {
        text_rows(selected, prefix, continuation, node_shown(item.node), width)
    }
}

/// The rows of the draft of a new node at `depth`.
pub open spec fn draft_rows(editor: Editor, depth: nat, lines: bool, width: nat) -> Seq<LineView> {
    let indent = indent_text(depth, lines);
    editor_rows(
        seq!['›', ' '] + indent + seq!['•', ' '],
        seq![' ', ' '] + indent + seq![' ', ' '],
        editor_shown(editor),
        editor.cursor as int,
        width,
    )
}

/// The rows of the first `k` positions of the outline: at each position the
/// draft, when it is shown there, then the visible node.
pub open spec fn display_upto(view: OutlineView, k: int, width: nat) -> Seq<LineView>
    decreases k,
{
    if k <= 0 {
        seq![]
    } else {
        let index = k - 1;
        let before = display_upto(view, k - 1, width);
        let with_draft = match draft_of(view) {
            Some((draft_index, depth)) => if draft_index == index {
                before + draft_rows(view.editor.unwrap(), depth, view.lines, width)
            } else {
                before
            },
            None => before,
        };
        if index < view.visible@.len() {
            with_draft + item_rows(view, view.visible@[index], width)
        } else {
            with_draft
        }
    }
}

/// The rows shown for an empty outline.
pub open spec fn empty_outline_rows() -> Seq<LineView> {
    seq![
        (false, "  No bullets yet"@, None, 2usize),
        (false, Seq::<char>::empty(), None, 0usize),
        (false, "  Press o to start writing"@, None, 2usize),
    ]
}

/// All rows of the outline.
pub open spec fn display_spec(view: OutlineView, width: nat) -> Seq<LineView> {
    let rows = display_upto(view, view.visible@.len() + 1int, width);
    if rows.len() == 0 {
        empty_outline_rows()
    } else {
        rows
    }
}

/// Every visible node's inline references are in order.
pub open spec fn references_in_order(visible: Seq<VisibleNode>) -> bool {
    forall|i: int|
        0 <= i < visible.len() ==> refs_in_order(
            (#[trigger] visible[i]).node.text@,
            visible[i].node.references@,
        )
}

fn extend_lines(lines: &mut Vec<DisplayLine>, rows: Vec<DisplayLine>)
    ensures
        lines_view(final(lines)@) == lines_view(old(lines)@) + lines_view(rows@),
{
    let ghost start = lines@;
    let mut rows = rows;
    let ghost added = rows@;
    lines.append(&mut rows);
    assert(lines_view(lines@) =~= lines_view(start) + lines_view(added));
}

fn draft_lines(editor: &Editor, depth: usize, lines: bool, width: usize) -> (r: Vec<DisplayLine>)
    ensures
        lines_view(r@) == draft_rows(*editor, depth as nat, lines, width as nat),
{
    let indent = indent_prefix(depth, lines);
    let mut prefix = String::from_str("› ");
    prefix.append(indent.as_str());
    prefix.append("• ");
    let mut continuation = String::from_str("  ");
    continuation.append(indent.as_str());
    continuation.append("  ");
    let text = editor_text(editor);
    proof {
        reveal_strlit("› ");
        reveal_strlit("• ");
        reveal_strlit("  ");
        assert(prefix@ =~= seq!['›', ' '] + indent_text(depth as nat, lines) + seq!['•', ' ']);
        assert(continuation@ =~= seq![' ', ' '] + indent_text(depth as nat, lines) + seq![' ', ' ']);
    }
    editor_lines(prefix.as_str(), continuation.as_str(), text.as_str(), editor.cursor, width)
}

fn item_lines(view: &OutlineView, item: &VisibleNode, drafting: bool, width: usize) -> (r: Vec<
    DisplayLine,
>)
    requires
        refs_in_order(item.node.text@, item.node.references@),
        drafting == has_draft(*view),
    ensures
        lines_view(r@) == item_rows(*view, *item, width as nat),
{
    let selected = !drafting && match view.selected {
        Some(id) => id == item.node.id,
        None => false,
    };
    let indent = indent_prefix(item.depth, view.lines);
    let expanded = has_id(&view.expanded, item.node.id);
    let bullet = if item.node.has_children {
        if expanded {
            '▾'
        } else {
            '▸'
        }
    } else {
        '•'
    };
    let mut prefix = String::new();
    if selected {
        push_char(&mut prefix, '›');
    } else {
        push_char(&mut prefix, ' ');
    }
    push_char(&mut prefix, ' ');
    prefix.append(indent.as_str());
    push_char(&mut prefix, bullet);
    push_char(&mut prefix, ' ');
    let mut continuation = String::new();
    push_char(&mut continuation, ' ');
    push_char(&mut continuation, ' ');
    continuation.append(indent.as_str());
    push_char(&mut continuation, ' ');
    push_char(&mut continuation, ' ');
    proof {
        let sel = if selected {
            seq!['›', ' ']
        } else {
            seq![' ', ' ']
        };
        assert(selected == row_selected(*view, *item));
        assert(prefix@ =~= sel + indent_text(item.depth as nat, view.lines) + seq![
            marker(item.node.has_children, contains_id(view.expanded@, item.node.id)),
            ' ',
        ]);
        assert(continuation@ =~= seq![' ', ' '] + indent_text(item.depth as nat, view.lines)
            + seq![' ', ' ']);
    }
    match &view.editor {
        Some(editor) => match &editor.target {
            EditTarget::Existing(id) => {
                if *id == item.node.id {
                    let text = editor_text(editor);
                    return editor_lines(
                        prefix.as_str(),
                        continuation.as_str(),
                        text.as_str(),
                        editor.cursor,
                        width,
                    );
                }
            },
            EditTarget::New { .. } => {},
        },
        None => {},
    }
    let text = shown_node_text(&item.node);
    text_lines(selected, prefix.as_str(), continuation.as_str(), text.as_str(), width)
}

fn message_line(text: &str) -> (r: DisplayLine)
    ensures
        line_view(r) == (false, text@, None::<nat>, 2usize),
{
    DisplayLine { selected: false, text: String::from_str(text), cursor: None, content_start: 2 }
}

/// The rows of the outline at `width` columns: each visible node with its
/// selector, indentation and bullet, the open editor in place of the node it
/// edits, and the draft of a new node at its position.
pub fn display_lines(view: &OutlineView, width: usize) -> (lines: Vec<DisplayLine>)
    requires
        depths_bounded(view.visible@),
        references_in_order(view.visible@),
    ensures
        lines_view(lines@) == display_spec(*view, width as nat),
{
    let visible = &view.visible;
    let n = visible.len();
    let drafting = match &view.editor {
        Some(editor) => match &editor.target {
            EditTarget::New { .. } => true,
            EditTarget::Existing(_) => false,
        },
        None => false,
    };
    let draft = match &view.editor {
        Some(editor) => match &editor.target {
            EditTarget::New { parent_id, placement } => draft_position(
                visible,
                view.focus,
                *parent_id,
                *placement,
            ),
            EditTarget::Existing(_) => None,
        },
        None => None,
    };
    let mut lines: Vec<DisplayLine> = Vec::new();
    let mut index: usize = 0;
    assert(lines_view(lines@) =~= Seq::<LineView>::empty());
    loop
        invariant_except_break
            lines_view(lines@) == display_upto(*view, index as int, width as nat),
        invariant
            index <= n == view.visible@.len(),
            *visible == view.visible,
            references_in_order(view.visible@),
            drafting == has_draft(*view),
            match draft_of(*view) {
                Some((i, d)) => draft == Some((i as usize, d as usize)) && 0 <= i <= n
                    && d <= usize::MAX && view.editor is Some,
                None => draft is None,
            },
        ensures
            lines_view(lines@) == display_upto(*view, n + 1, width as nat),
        decreases n - index,
    {
        let ghost before = lines@;
        match draft {
            Some((draft_index, depth)) => {
                if draft_index == index {
                    match &view.editor {
                        Some(editor) => {
                            let rows = draft_lines(editor, depth, view.lines, width);
                            extend_lines(&mut lines, rows);
                        },
                        None => {},
                    }
                }
            },
            None => {},
        }
        assert(lines_view(lines@) == match draft_of(*view) {
            Some((di, d)) => if di == index {
                lines_view(before) + draft_rows(view.editor.unwrap(), d, view.lines, width as nat)
            } else {
                lines_view(before)
            },
            None => lines_view(before),
        });
        if index == n {
            break ;
        }
        let item = &visible[index];
        assert(refs_in_order(view.visible@[index as int].node.text@, view.visible@[index as int].node.references@));
        let rows = item_lines(view, item, drafting, width);
        extend_lines(&mut lines, rows);
        index += 1;
    }
    if lines.len() == 0 {
        let first = message_line("  No bullets yet");
        let blank = crate::layout::blank_line();
        let last = message_line("  Press o to start writing");
        lines.push(first);
        lines.push(blank);
        lines.push(last);
        assert(lines@ =~= seq![first, blank, last]);
        assert(blank.text@ =~= Seq::<char>::empty());
        assert(lines_view(lines@) =~= empty_outline_rows());
    }
    lines
}

/// Depth of the visible node `id`, or zero when it is not visible.
pub open spec fn visible_depth(visible: Seq<VisibleNode>, id: NodeId) -> nat {
    match position_of(visible, id) {
        Some(i) => visible[i].depth as nat,
        None => 0,
    }
}

/// Depth at which the open editor is shown: that of the node it edits, of
/// the sibling its draft is placed against, or one below the draft's parent
/// (zero at the focus, or when that node is not visible).
pub open spec fn editor_depth(view: OutlineView) -> nat {
    match view.editor {
        None => 0,
        Some(e) => match e.target {
            EditTarget::Existing(id) => visible_depth(view.visible@, id),
            EditTarget::New { parent_id, placement } => match placement {
                Placement::Before(id) => visible_depth(view.visible@, id),
                Placement::After(id) => visible_depth(view.visible@, id),
                _ => if same_option_id(parent_id, view.focus) {
                    0
                } else {
                    match parent_id {
                        Some(parent) => match position_of(view.visible@, parent) {
                            Some(i) => (view.visible@[i].depth + 1) as nat,
                            None => 0,
                        },
                        None => 0,
                    }
                },
            },
        },
    }
}

/// Every visible node is shallow enough for its indentation to be counted
/// in columns.
pub open spec fn depths_fit(visible: Seq<VisibleNode>) -> bool {
    forall|i: int| 0 <= i < visible.len() ==> (#[trigger] visible[i]).depth <= (usize::MAX - 8) / 4
}

fn depth_of(visible: &Vec<VisibleNode>, id: NodeId) -> (r: usize)
    requires
        depths_fit(visible@),
    ensures
        r == visible_depth(visible@, id),
        r <= (usize::MAX - 8) / 4,
{
    let n = visible.len();
    match find_visible(visible, id) {
        Some(i) => {
            assert(position_of(visible@, id) == Some(i as int));
            assert(visible@[i as int].depth <= (usize::MAX - 8) / 4);
            visible[i].depth
        },
        None => 0,
    }
}

/// Columns left for the text of the open editor in a viewport `viewport`
/// columns wide: the selector, the indentation of its depth and its bullet
/// take `4 + 4 × depth` columns, and at least one column remains.
pub fn editor_width(view: &OutlineView, viewport: usize) -> (r: usize)
    requires
        depths_fit(view.visible@),
    ensures
        r == (if viewport > 4 + 4 * editor_depth(*view) {
            viewport - (4 + 4 * editor_depth(*view))
        } else {
            1
        }),
{
    let n = view.visible.len();
    let depth: usize = match &view.editor {
        None => 0,
        Some(editor) => match &editor.target {
            EditTarget::Existing(id) => depth_of(&view.visible, *id),
            EditTarget::New { parent_id, placement } => match placement {
                Placement::Before(id) => depth_of(&view.visible, *id),
                Placement::After(id) => depth_of(&view.visible, *id),
                _ => if equal_option_ids(*parent_id, view.focus) {
                    0
                } else {
                    match parent_id {
                        Some(parent) => match find_visible(&view.visible, *parent) {
                            Some(i) => {
                                assert(view.visible@[i as int].depth <= (usize::MAX - 8) / 4);
                                view.visible[i].depth + 1
                            },
                            None => 0,
                        },
                        None => 0,
                    }
                },
            },
        },
    };
    assert(depth == editor_depth(*view));
    assert(depth <= (usize::MAX - 8) / 4 + 1);
    let used = 4 + depth * OUTLINE_INDENT;
    if viewport > used {
        viewport - used
    } else {
        1
    }
}

/// How a piece of row content is styled.
#[derive(Clone, Copy, Debug, PartialEq, Eq, Structural)]
pub enum SpanKind {
    /// A `[[reference]]`, brackets included.
    Reference,
    /// A `#tag` that starts a word.
    Tag,
    /// Plain text.
    Plain,
}

/// Index of the first `]]` in `t`, if any.
pub open spec fn closing_pair(t: Seq<char>) -> Option<int>
    decreases t.len(),
{
    if t.len() < 2 {
        None
    } else if t[0] == ']' && t[1] == ']' {
        Some(0)
    } else {
        match closing_pair(t.drop_first()) {
            Some(k) => Some(k + 1),
            None => None,
        }
    }
}

/// Index of the first white-space character of `t`, or its length.
pub open spec fn first_space(t: Seq<char>) -> int
    decreases t.len(),
{
    if t.len() == 0 {
        0
    } else if crate::text::is_ws(t[0]) {
        0
    } else {
        1 + first_space(t.drop_first())
    }
}

/// The span that starts at character `i` of `s` and its length: a
/// `[[label]]` closed later in the text, a `#tag` at the start of a word
/// (up to the next white space), or a single plain character.
pub open spec fn span_at(s: Seq<char>, i: int) -> (SpanKind, int) {
    let rest = s.skip(i);
    if rest.len() >= 2 && rest[0] == '[' && rest[1] == '[' && closing_pair(rest.skip(2)) is Some {
        (SpanKind::Reference, closing_pair(rest.skip(2))->0 + 4)
    } else if rest[0] == '#' && (i == 0 || crate::text::is_ws(s[i - 1])) {
        (SpanKind::Tag, 1 + first_space(rest.skip(1)))
    } else {
        (SpanKind::Plain, 1)
    }
}

proof fn lemma_closing_pair_bounds(t: Seq<char>)
    ensures
        closing_pair(t) matches Some(k) ==> 0 <= k && k + 2 <= t.len() && t[k] == ']' && t[k + 1]
            == ']',
    decreases t.len(),
{
    if t.len() >= 2 && !(t[0] == ']' && t[1] == ']') {
        lemma_closing_pair_bounds(t.drop_first());
    }
}

proof fn lemma_first_space_bounds(t: Seq<char>)
    ensures
        0 <= first_space(t) <= t.len(),
    decreases t.len(),
{
    if t.len() > 0 && !crate::text::is_ws(t[0]) {
        lemma_first_space_bounds(t.drop_first());
    }
}

proof fn lemma_span_bounds(s: Seq<char>, i: int)
    requires
        0 <= i < s.len(),
    ensures
        1 <= span_at(s, i).1 <= s.len() - i,
{
    let rest = s.skip(i);
    lemma_closing_pair_bounds(rest.skip(2));
    lemma_first_space_bounds(rest.skip(1));
}

/// The styled spans of `s` from character `i` on.
pub open spec fn spans_from(s: Seq<char>, i: int) -> Seq<(SpanKind, Seq<char>)>
    decreases s.len() - i,
{
    if i < 0 || i >= s.len() {
        seq![]
    } else {
        let (kind, len) = span_at(s, i);
        if len < 1 || i + len > s.len() {
            seq![]
        } else {
            seq![(kind, s.subrange(i, i + len))] + spans_from(s, i + len)
        }
    }
}

/// Spans as plain values.
pub open spec fn spans_view(spans: Seq<(SpanKind, String)>) -> Seq<(SpanKind, Seq<char>)> {
    spans.map_values(|span: (SpanKind, String)| (span.0, span.1@))
}

fn find_closing(c: &Vec<char>, from: usize) -> (r: Option<usize>)
    requires
        from <= c@.len(),
    ensures
        match closing_pair(c@.skip(from as int)) {
            Some(k) => r == Some((k + from) as usize) && 0 <= k && k + from + 2 <= c@.len(),
            None => r is None,
        },
        r matches Some(k) ==> k + 2 <= c@.len(),
{
    proof {
        lemma_closing_pair_bounds(c@.skip(from as int));
    }
    let n = c.len();
    let mut k = from;
    assert(c@.skip(from as int) =~= c@.skip(k as int));
    while n - k > 1 && !(c[k] == ']' && c[k + 1] == ']')
        invariant
            from <= k <= n == c@.len(),
            closing_pair(c@.skip(from as int)) == match closing_pair(c@.skip(k as int)) {
                Some(j) => Some(j + (k - from)),
                None => None::<int>,
            },
        decreases n - k,
    {
        assert(c@.skip(k as int).drop_first() =~= c@.skip(k + 1));
        k += 1;
    }
    if n - k > 1 {
        assert(c@.skip(k as int)[0] == c@[k as int] && c@.skip(k as int)[1] == c@[k + 1]);
        Some(k)
    } else {
        None
    }
}

fn find_space(c: &Vec<char>, from: usize) -> (r: usize)
    requires
        from <= c@.len(),
    ensures
        r == from + first_space(c@.skip(from as int)),
{
    let n = c.len();
    let mut k = from;
    assert(c@.skip(from as int) =~= c@.skip(k as int));
    while k < n && !crate::text::is_whitespace(c[k])
        invariant
            from <= k <= n == c@.len(),
            from + first_space(c@.skip(from as int)) == k + first_space(c@.skip(k as int)),
        decreases n - k,
    {
        assert(c@.skip(k as int).drop_first() =~= c@.skip(k + 1));
        k += 1;
    }
    if k < n {
        assert(c@.skip(k as int)[0] == c@[k as int]);
    }
    k
}

/// Splits row content into styled spans: `[[references]]`, `#tags` that
/// start a word, and plain characters.
pub fn inline_spans(content: &str) -> (r: Vec<(SpanKind, String)>)
    ensures
        spans_view(r@) == spans_from(content@, 0),
{
    let c = chars_of(content);
    let n = c.len();
    let mut spans: Vec<(SpanKind, String)> = Vec::new();
    let mut i: usize = 0;
    assert(spans_view(spans@) =~= Seq::<(SpanKind, Seq<char>)>::empty());
    while i < n
        invariant
            i <= n == c@.len(),
            c@ == content@,
            spans_view(spans@) + spans_from(content@, i as int) == spans_from(content@, 0),
        decreases n - i,
    {
        proof {
            lemma_span_bounds(content@, i as int);
        }
        let ghost rest = content@.skip(i as int);
        let ghost expected = span_at(content@, i as int);
        let opens = n - i > 1 && c[i] == '[' && c[i + 1] == '[';
        proof {
            assert(rest[0] == c@[i as int]);
            assert(rest.skip(1) =~= c@.skip(i + 1));
            if n - i > 1 {
                assert(rest[1] == c@[i + 1]);
                assert(rest.skip(2) =~= c@.skip(i + 2));
            }
        }
        let reference_end = if opens {
            find_closing(&c, i + 2)
        } else {
            None
        };
        let kind: SpanKind;
        let end: usize;
        if let Some(k) = reference_end {
            assert(closing_pair(rest.skip(2)) is Some);
            assert(expected == (SpanKind::Reference, closing_pair(rest.skip(2))->0 + 4));
            kind = SpanKind::Reference;
            end = k + 2;
            assert(end == i + expected.1);
        } else {
            assert(!(rest.len() >= 2 && rest[0] == '[' && rest[1] == '[' && closing_pair(rest.skip(2)) is Some));
            if c[i] == '#' && (i == 0 || crate::text::is_whitespace(c[i - 1])) {
                assert(expected == (SpanKind::Tag, 1 + first_space(rest.skip(1))));
                kind = SpanKind::Tag;
                end = find_space(&c, i + 1);
                assert(end == i + expected.1);
            } else {
                assert(expected == (SpanKind::Plain, 1int));
                kind = SpanKind::Plain;
                end = i + 1;
                assert(end == i + expected.1);
            }
        }
        assert(kind == expected.0 && end == i + expected.1);
        let text = crate::text::sub_string_of(&c, i, end);
        let ghost before = spans_view(spans@);
        spans.push((kind, text));
        assert(spans_view(spans@) =~= before.push((kind, text@)));
        i = end;
    }
    assert(spans_from(content@, n as int) =~= Seq::<(SpanKind, Seq<char>)>::empty());
    assert(spans_view(spans@) =~= spans_from(content@, 0));
    spans
}

} // verus!
