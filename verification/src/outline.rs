//! Portable indented plain-text outlines, as copied to and pasted from the
//! system clipboard.

use vstd::prelude::*;

use crate::display::{contains_id, has_id};
use crate::error::Error;
use crate::hex::hex_text;
use crate::identity::NodeId;
use crate::model::Node;
use crate::text::{is_whitespace, is_ws, push_char, string_of};
use crate::workspace::{contains_line_break, has_line_break};

verus! {

// ---------------------------------------------------------------------------
// Lines, as `str::lines` splits them.
// ---------------------------------------------------------------------------

/// Index of the first line feed of `s`, or its length when it has none.
pub open spec fn first_newline(s: Seq<char>) -> int
    decreases s.len(),
{
    if s.len() == 0 {
        0
    } else if s[0] == '\n' {
        0
    } else {
        1 + first_newline(s.drop_first())
    }
}

/// The lines of `s`: split at each `\n`, a `\r` right before a `\n` removed,
/// and no empty line after a final line ending.
pub open spec fn lines_spec(s: Seq<char>) -> Seq<Seq<char>>
    decreases s.len(),
{
    if s.len() == 0 {
        seq![]
    } else {
        let e = first_newline(s);
        let raw = s.take(e);
        let line = if e < s.len() && raw.len() > 0 && raw.last() == '\r' {
            raw.drop_last()
        } else {
            raw
        };
        if e < s.len() {
            proof {
                lemma_first_newline_bounds(s);
            }
            seq![line] + lines_spec(s.skip(e + 1))
        } else {
            seq![line]
        }
    }
}

/// The first line feed is at `k` when none comes before it.
pub proof fn lemma_first_newline(s: Seq<char>, k: int)
    requires
        0 <= k <= s.len(),
        forall|j: int| 0 <= j < k ==> s[j] != '\n',
        k == s.len() || s[k] == '\n',
    ensures
        first_newline(s) == k,
    decreases k,
{
    if k > 0 {
        lemma_first_newline(s.drop_first(), k - 1);
    }
}

/// The first line feed lies within the text.
pub proof fn lemma_first_newline_bounds(s: Seq<char>)
    ensures
        0 <= first_newline(s) <= s.len(),
    decreases s.len(),
{
    if s.len() > 0 && s[0] != '\n' {
        lemma_first_newline_bounds(s.drop_first());
    }
}

// ---------------------------------------------------------------------------
// One line of an outline.
// ---------------------------------------------------------------------------

/// Number of leading white-space characters of `s`.
pub open spec fn leading_ws(s: Seq<char>) -> int
    decreases s.len(),
{
    if s.len() > 0 && is_ws(s[0]) {
        1 + leading_ws(s.drop_first())
    } else {
        0
    }
}

/// Indentation width of a line: leading spaces count one, leading tabs four.
pub open spec fn indent_width(s: Seq<char>) -> int
    decreases s.len(),
{
    if s.len() > 0 && s[0] == ' ' {
        1 + indent_width(s.drop_first())
    } else if s.len() > 0 && s[0] == '\t' {
        4 + indent_width(s.drop_first())
    } else {
        0
    }
}

/// A line holds no content when it is only white space.
pub open spec fn is_blank(line: Seq<char>) -> bool {
    leading_ws(line) == line.len()
}

/// The content of a line: leading white space and one bullet marker removed.
pub open spec fn line_content(line: Seq<char>) -> Seq<char> {
    let c = line.skip(leading_ws(line));
    if c.len() >= 2 && (c[0] == '-' || c[0] == '*' || c[0] == '+') && c[1] == ' ' {
        c.skip(2)
    } else {
        c
    }
}

/// End of `c.take(n)` once trailing white space is removed.
pub open spec fn trim_end_at(c: Seq<char>, n: int) -> int
    decreases n,
{
    if n <= 0 {
        0
    } else if is_ws(c[n - 1]) {
        trim_end_at(c, n - 1)
    } else {
        n
    }
}

/// Start of the last white-space separated token of `c.take(m)`.
pub open spec fn token_start(c: Seq<char>, m: int) -> int
    decreases m,
{
    if m <= 0 {
        0
    } else if is_ws(c[m - 1]) {
        m
    } else {
        token_start(c, m - 1)
    }
}

/// The trailing `#tag` tokens of `c.take(cursor)`, in reading order, and the
/// start of the first of them.
pub open spec fn scan_tags(c: Seq<char>, cursor: int) -> (Seq<Seq<char>>, Option<int>)
    decreases cursor,
{
    let m = trim_end_at(c, cursor);
    let t = token_start(c, m);
    if 0 <= t && t + 2 <= m && m <= cursor && c[t] == '#' {
        let inner = scan_tags(c, t);
        (
            inner.0.push(c.subrange(t + 1, m)),
            if inner.1 is Some {
                inner.1
            } else {
                Some(t)
            },
        )
    } else {
        (seq![], None)
    }
}

/// Where the text of a content ends: one character before its first tag, or
/// at its end when it has none.
pub open spec fn text_end(c: Seq<char>) -> int {
    match scan_tags(c, c.len() as int).1 {
        Some(b) => if b > 0 {
            b - 1
        } else {
            0
        },
        None => c.len() as int,
    }
}

/// Removing the byte before the first tag would split a multi-byte character.
pub open spec fn tag_split_inside_char(c: Seq<char>) -> bool {
    match scan_tags(c, c.len() as int).1 {
        Some(b) => b > 0 && c[b - 1] as u32 >= 0x80,
        None => false,
    }
}

/// One parsed outline item: depth, text and tags.
pub type OutlineEntry = (nat, Seq<char>, Seq<Seq<char>>);

/// The item that a non-blank line stands for at a given depth.
pub open spec fn entry_of(line: Seq<char>, depth: nat) -> OutlineEntry {
    let c = line_content(line);
    (depth, c.take(text_end(c)), scan_tags(c, c.len() as int).0)
}

// ---------------------------------------------------------------------------
// The indentation stack.
// ---------------------------------------------------------------------------

/// Pops every level deeper than `indent`.
pub open spec fn pop_deeper(levels: Seq<int>, indent: int) -> Seq<int>
    decreases levels.len(),
{
    if levels.len() > 0 && levels.last() > indent {
        pop_deeper(levels.drop_last(), indent)
    } else {
        levels
    }
}

/// The indentation levels after one more line, or `None` when the line does
/// not return to an earlier level.
pub open spec fn next_levels(levels: Seq<int>, indent: int) -> Option<Seq<int>> {
    if levels.len() == 0 || indent > levels.last() {
        Some(levels.push(indent))
    } else {
        let kept = pop_deeper(levels, indent);
        if kept.len() > 0 && kept.last() == indent {
            Some(kept)
        } else {
            None
        }
    }
}

/// State of reading an outline line by line.
pub enum OutlineState {
    /// Levels of the open indentation and the items read so far.
    Reading(Seq<int>, Seq<OutlineEntry>),
    /// A line's indentation matches no earlier level.
    Misaligned,
    /// A line's first tag follows a multi-byte white-space character.
    Unsplittable,
}

/// The state after reading the given lines.
pub open spec fn read_lines(lines: Seq<Seq<char>>) -> OutlineState
    decreases lines.len(),
{
    if lines.len() == 0 {
        OutlineState::Reading(seq![], seq![])
    } else {
        match read_lines(lines.drop_last()) {
            OutlineState::Reading(levels, items) => {
                let line = lines.last();
                if is_blank(line) {
                    OutlineState::Reading(levels, items)
                } else {
                    match next_levels(levels, indent_width(line)) {
                        None => OutlineState::Misaligned,
                        Some(next) => if tag_split_inside_char(line_content(line)) {
                            OutlineState::Unsplittable
                        } else {
                            OutlineState::Reading(
                                next,
                                items.push(entry_of(line, (next.len() - 1) as nat)),
                            )
                        },
                    }
                }
            },
            other => other,
        }
    }
}

// ---------------------------------------------------------------------------
// Reading one line.
// ---------------------------------------------------------------------------

pub fn leading_ws_exec(s: &Vec<char>) -> (n: usize)
    ensures
        n == leading_ws(s@),
        n <= s@.len(),
{
    let mut i: usize = 0;
    assert(s@.skip(0) =~= s@);
    while i < s.len() && is_whitespace(s[i])
        invariant
            i <= s@.len(),
            leading_ws(s@) == i + leading_ws(s@.skip(i as int)),
        decreases s@.len() - i,
    {
        assert(s@.skip(i as int).drop_first() =~= s@.skip(i + 1));
        i += 1;
    }
    i
}

proof fn lemma_indent_width_bound(s: Seq<char>)
    ensures
        0 <= indent_width(s) <= 4 * s.len(),
    decreases s.len(),
{
    if s.len() > 0 {
        lemma_indent_width_bound(s.drop_first());
    }
}

fn indent_width_exec(s: &Vec<char>) -> (n: usize)
    requires
        s@.len() <= usize::MAX / 4,
    ensures
        n == indent_width(s@),
{
    let mut i: usize = 0;
    let mut total: usize = 0;
    assert(s@.skip(0) =~= s@);
    while i < s.len() && (s[i] == ' ' || s[i] == '\t')
        invariant
            i <= s@.len(),
            s@.len() <= usize::MAX / 4,
            total <= 4 * i,
            indent_width(s@) == total + indent_width(s@.skip(i as int)),
        decreases s@.len() - i,
    {
        assert(s@.skip(i as int).drop_first() =~= s@.skip(i + 1));
        assert(s@.skip(i as int)[0] == s@[i as int]);
        if s[i] == ' ' {
            total += 1;
        } else {
            total += 4;
        }
        i += 1;
    }
    total
}

fn trim_end_exec(c: &Vec<char>, n: usize) -> (m: usize)
    requires
        n <= c@.len(),
    ensures
        m == trim_end_at(c@, n as int),
        m <= n,
{
    let mut k = n;
    while k > 0 && is_whitespace(c[k - 1])
        invariant
            k <= n <= c@.len(),
            trim_end_at(c@, n as int) == trim_end_at(c@, k as int),
        decreases k,
    {
        k -= 1;
    }
    k
}

fn token_start_exec(c: &Vec<char>, m: usize) -> (t: usize)
    requires
        m <= c@.len(),
    ensures
        t == token_start(c@, m as int),
        t <= m,
{
    let mut k = m;
    while k > 0 && !is_whitespace(c[k - 1])
        invariant
            k <= m <= c@.len(),
            token_start(c@, m as int) == token_start(c@, k as int),
        decreases k,
    {
        k -= 1;
    }
    k
}

/// The view of a list of strings as a list of character sequences.
pub open spec fn strings_view(v: Seq<String>) -> Seq<Seq<char>> {
    v.map_values(|s: String| s@)
}

/// The characters `c[from..to]` as a string.
pub fn sub_string(c: &Vec<char>, from: usize, to: usize) -> (s: String)
    requires
        from <= to <= c@.len(),
    ensures
        s@ == c@.subrange(from as int, to as int),
{
    let mut s = String::new();
    let mut i = from;
    while i < to
        invariant
            from <= i <= to <= c@.len(),
            s@ =~= c@.subrange(from as int, i as int),
        decreases to - i,
    {
        crate::text::push_char(&mut s, c[i]);
        i += 1;
    }
    s
}

fn scan_tags_exec(c: &Vec<char>) -> (r: (Vec<String>, Option<usize>))
    ensures
        strings_view(r.0@) == scan_tags(c@, c@.len() as int).0,
        match scan_tags(c@, c@.len() as int).1 {
            Some(b) => r.1 == Some(b as usize),
            None => r.1 is None,
        },
{
    let mut cursor = c.len();
    let mut starts: Vec<usize> = Vec::new();
    let mut ends: Vec<usize> = Vec::new();
    let mut boundary: Option<usize> = None;
    let ghost total = scan_tags(c@, c@.len() as int);
    let ghost mut found: Seq<Seq<char>> = seq![];
    loop
        invariant
            cursor <= c@.len(),
            starts@.len() == ends@.len() == found.len(),
            forall|j: int|
                0 <= j < starts@.len() ==> starts@[j] <= ends@[j] <= c@.len() && found[found.len()
                    - 1 - j] == c@.subrange(starts@[j] as int, ends@[j] as int),
            total.0 == scan_tags(c@, cursor as int).0 + found,
            match scan_tags(c@, cursor as int).1 {
                Some(b) => total.1 == Some(b),
                None => match boundary {
                    Some(b) => total.1 == Some(b as int),
                    None => total.1 is None,
                },
            },
        ensures
            scan_tags(c@, cursor as int).0.len() == 0,
            scan_tags(c@, cursor as int).1 is None,
        decreases cursor,
    {
        let m = trim_end_exec(c, cursor);
        let t = token_start_exec(c, m);
        if m >= 2 && t <= m - 2 && c[t] == '#' {
            let ghost before = found;
            proof {
                found = seq![c@.subrange(t + 1, m as int)] + found;
                assert(scan_tags(c@, cursor as int).0 == scan_tags(c@, t as int).0.push(
                    c@.subrange(t + 1, m as int),
                ));
                assert(scan_tags(c@, t as int).0.push(c@.subrange(t + 1, m as int)) + before
                    =~= scan_tags(c@, t as int).0 + found);
            }
            let ghost old_starts = starts@;
            starts.push(t + 1);
            ends.push(m);
            assert forall|j: int| #![trigger starts@[j]] 0 <= j < old_starts.len() implies found[found.len() - 1 - j]
                == before[before.len() - 1 - j] by {}
            assert(found[found.len() - 1 - old_starts.len()] == found[0]);
            boundary = Some(t);
            cursor = t;
        } else {
            break ;
        }
    }
    assert(found =~= total.0);
    let mut tags: Vec<String> = Vec::new();
    let mut j = starts.len();
    while j > 0
        invariant
            j <= starts@.len(),
            starts@.len() == ends@.len() == found.len(),
            forall|k: int|
                0 <= k < starts@.len() ==> starts@[k] <= ends@[k] <= c@.len() && found[found.len()
                    - 1 - k] == c@.subrange(starts@[k] as int, ends@[k] as int),
            strings_view(tags@) =~= found.take(found.len() - j),
        decreases j,
    {
        j -= 1;
        let piece = sub_string(c, starts[j], ends[j]);
        let ghost old_tags = tags@;
        tags.push(piece);
        assert(strings_view(tags@) =~= strings_view(old_tags).push(piece@));
        assert(found.take(found.len() - j) =~= found.take(found.len() - j - 1).push(
            found[found.len() - 1 - j],
        ));
    }
    (tags, boundary)
}

// ---------------------------------------------------------------------------
// Reading a whole outline.
// ---------------------------------------------------------------------------

/// One item read from a pasted outline.
#[derive(Clone, Debug, PartialEq, Eq)]
pub struct ParsedNode {
    /// Nesting depth, zero for top-level items.
    pub depth: usize,
    /// Plain text of the item, without its bullet marker and tags.
    pub text: String,
    /// Trailing `#tags` of the item, without their marker, in reading order.
    pub tags: Vec<String>,
}

impl View for ParsedNode {
    type V = OutlineEntry;

    open spec fn view(&self) -> OutlineEntry {
        (self.depth as nat, self.text@, strings_view(self.tags@))
    }
}

/// The view of a list of parsed items.
pub open spec fn entries_view(v: Seq<ParsedNode>) -> Seq<OutlineEntry> {
    v.map_values(|p: ParsedNode| p@)
}

/// The view of a stack of indentation levels.
pub open spec fn levels_view(v: Seq<usize>) -> Seq<int> {
    v.map_values(|x: usize| x as int)
}

/// Once reading fails, later lines do not change the outcome.
pub proof fn lemma_read_lines_failure_persists(lines: Seq<Seq<char>>, k: int)
    requires
        0 <= k <= lines.len(),
        !(read_lines(lines.take(k)) is Reading),
    ensures
        read_lines(lines) == read_lines(lines.take(k)),
    decreases lines.len() - k,
{
    if k < lines.len() {
        let next = lines.take(k + 1);
        assert(next.drop_last() =~= lines.take(k));
        lemma_read_lines_failure_persists(lines, k + 1);
    } else {
        assert(lines.take(k) =~= lines);
    }
}

pub fn copy_range(c: &Vec<char>, from: usize, to: usize) -> (v: Vec<char>)
    requires
        from <= to <= c@.len(),
    ensures
        v@ == c@.subrange(from as int, to as int),
{
    let mut v: Vec<char> = Vec::new();
    let mut i = from;
    while i < to
        invariant
            from <= i <= to <= c@.len(),
            v@ =~= c@.subrange(from as int, i as int),
        decreases to - i,
    {
        v.push(c[i]);
        i += 1;
    }
    v
}

/// The item of a non-blank line at the given depth.
fn entry_exec(line: &Vec<char>, depth: usize) -> (p: ParsedNode)
    requires
        !is_blank(line@),
        !tag_split_inside_char(line_content(line@)),
    ensures
        p@ == entry_of(line@, depth as nat),
{
    let lead = leading_ws_exec(line);
    let mut from = lead;
    if line.len() - lead >= 2 && (line[lead] == '-' || line[lead] == '*' || line[lead] == '+')
        && line[lead + 1] == ' ' {
        from = lead + 2;
    }
    let content = copy_range(line, from, line.len());
    assert(content@ =~= line_content(line@));
    let (tags, boundary) = scan_tags_exec(&content);
    proof {
        lemma_scan_tags_boundary(content@, content@.len() as int);
    }
    let end = match boundary {
        Some(b) => if b > 0 {
            b - 1
        } else {
            0
        },
        None => content.len(),
    };
    proof {
        lemma_scan_tags_boundary(content@, content@.len() as int);
    }
    assert(end as int == text_end(content@));
    let text = sub_string(&content, 0, end);
    assert(text@ =~= content@.take(text_end(content@)));
    ParsedNode { depth, text, tags }
}

/// A bullet marker, `- `, `* ` or `+ `, after the indentation of a line is
/// not part of its content: the content is what follows the marker, and the
/// item text of the line is a prefix of it. A line without a marker keeps
/// all that follows its indentation.
pub proof fn lemma_bullet_marker_removed(line: Seq<char>, depth: nat)
    ensures
        ({
            let after = line.skip(leading_ws(line));
            let marked = after.len() >= 2 && (after[0] == '-' || after[0] == '*' || after[0] == '+')
                && after[1] == ' ';
            &&& marked ==> line_content(line) == line.skip(leading_ws(line) + 2)
            &&& !marked ==> line_content(line) == after
            &&& entry_of(line, depth).1 == line_content(line).take(
                entry_of(line, depth).1.len() as int,
            )
            &&& entry_of(line, depth).1.len() <= line_content(line).len()
        }),
{
    lemma_leading_ws_bounds(line);
    let after = line.skip(leading_ws(line));
    if after.len() >= 2 && (after[0] == '-' || after[0] == '*' || after[0] == '+') && after[1] == ' ' {
        assert(after.skip(2) =~= line.skip(leading_ws(line) + 2));
    }
    let c = line_content(line);
    lemma_text_end_bounds(c);
}

proof fn lemma_leading_ws_bounds(s: Seq<char>)
    ensures
        0 <= leading_ws(s) <= s.len(),
    decreases s.len(),
{
    if s.len() > 0 && is_ws(s[0]) {
        lemma_leading_ws_bounds(s.drop_first());
    }
}

proof fn lemma_text_end_bounds(c: Seq<char>)
    ensures
        0 <= text_end(c) <= c.len(),
{
    lemma_scan_tags_boundary(c, c.len() as int);
}

/// The number of lines that hold content.
pub open spec fn content_line_count(lines: Seq<Seq<char>>) -> nat
    decreases lines.len(),
{
    if lines.len() == 0 {
        0
    } else if is_blank(lines.last()) {
        content_line_count(lines.drop_last())
    } else {
        content_line_count(lines.drop_last()) + 1
    }
}

/// A word: not empty, and without white space.
pub open spec fn is_word(s: Seq<char>) -> bool {
    s.len() > 0 && forall|k: int| 0 <= k < s.len() ==> !is_ws(#[trigger] s[k])
}

proof fn lemma_token_has_no_ws(c: Seq<char>, m: int)
    requires
        0 <= m <= c.len(),
    ensures
        forall|k: int| token_start(c, m) <= k < m ==> !is_ws(#[trigger] c[k]),
    decreases m,
{
    if m > 0 && !is_ws(c[m - 1]) {
        lemma_token_has_no_ws(c, m - 1);
    }
}

proof fn lemma_scan_tags_words(c: Seq<char>, cursor: int)
    requires
        0 <= cursor <= c.len(),
    ensures
        forall|i: int|
            0 <= i < scan_tags(c, cursor).0.len() ==> is_word(#[trigger] scan_tags(c, cursor).0[i]),
    decreases cursor,
{
    let m = trim_end_at(c, cursor);
    lemma_trim_end_bounds(c, cursor);
    let t = token_start(c, m);
    lemma_token_start_bounds(c, m);
    if 0 <= t && t + 2 <= m && m <= cursor && c[t] == '#' {
        lemma_scan_tags_words(c, t);
        lemma_token_has_no_ws(c, m);
        let tag = c.subrange(t + 1, m);
        assert forall|k: int| 0 <= k < tag.len() implies !is_ws(#[trigger] tag[k]) by {
            assert(tag[k] == c[t + 1 + k]);
        }
        let inner = scan_tags(c, t).0;
        let all = inner.push(tag);
        assert forall|i: int| 0 <= i < all.len() implies is_word(#[trigger] all[i]) by {
            if i < inner.len() {
                assert(all[i] == inner[i]);
            }
        }
    }
}

proof fn lemma_read_lines_shape(lines: Seq<Seq<char>>)
    ensures
        read_lines(lines) matches OutlineState::Reading(levels, items) ==> {
            &&& items.len() == content_line_count(lines)
            &&& items.len() == 0 ==> levels.len() == 0
            &&& items.len() > 0 ==> items[0].0 == 0
            &&& forall|i: int, t: int|
                0 <= i < items.len() && 0 <= t < items[i].2.len() ==> is_word(
                    #[trigger] items[i].2[t],
                )
        },
    decreases lines.len(),
{
    if lines.len() > 0 {
        lemma_read_lines_shape(lines.drop_last());
        match read_lines(lines.drop_last()) {
            OutlineState::Reading(levels, items) => {
                let line = lines.last();
                if !is_blank(line) {
                    match next_levels(levels, indent_width(line)) {
                        Some(next) => if !tag_split_inside_char(line_content(line)) {
                            let c = line_content(line);
                            let entry = entry_of(line, (next.len() - 1) as nat);
                            lemma_scan_tags_words(c, c.len() as int);
                            let all = items.push(entry);
                            assert forall|i: int, t: int|
                                0 <= i < all.len() && 0 <= t < all[i].2.len() implies is_word(
                                #[trigger] all[i].2[t],
                            ) by {
                                if i < items.len() {
                                    assert(all[i] == items[i]);
                                }
                            }
                            if items.len() == 0 {
                                assert(next == seq![indent_width(line)]);
                            } else {
                                assert(all[0] == items[0]);
                            }
                        },
                        None => {},
                    }
                }
            },
            _ => {},
        }
    }
}

/// Every outline that the clipboard parse accepts holds one item per line
/// with content, starts at the top level, and has only words as tags.
pub proof fn lemma_parsed_outline_shape(text: Seq<char>, items: Seq<ParsedNode>)
    requires
        read_lines(lines_spec(text)) matches OutlineState::Reading(_, entries) && entries_view(items)
            == entries,
    ensures
        items.len() == content_line_count(lines_spec(text)),
        items.len() > 0 ==> items[0].depth == 0,
        forall|i: int, t: int|
            0 <= i < items.len() && 0 <= t < items[i].tags@.len() ==> is_word(
                #[trigger] items[i].tags@[t]@,
            ),
{
    lemma_read_lines_shape(lines_spec(text));
    let entries = entries_view(items);
    assert(entries.len() == items.len());
    if items.len() > 0 {
        assert(entries[0] == items[0]@);
    }
    assert forall|i: int, t: int|
        0 <= i < items.len() && 0 <= t < items[i].tags@.len() implies is_word(
        #[trigger] items[i].tags@[t]@,
    ) by {
        assert(entries[i] == items[i]@);
        assert(entries[i].2 == strings_view(items[i].tags@));
        assert(strings_view(items[i].tags@)[t] == items[i].tags@[t]@);
        assert(is_word(entries[i].2[t]));
    }
}

/// The start of the first tag lies within the scanned prefix.
pub proof fn lemma_scan_tags_boundary(c: Seq<char>, cursor: int)
    requires
        0 <= cursor <= c.len(),
    ensures
        scan_tags(c, cursor).1 matches Some(b) ==> 0 <= b <= cursor,
    decreases cursor,
{
    let m = trim_end_at(c, cursor);
    let t = token_start(c, m);
    if 0 <= t && t + 2 <= m && m <= cursor && c[t] == '#' {
        lemma_scan_tags_boundary(c, t);
    }
}

/// Applies one line's indentation to the stack of levels.
fn step_levels(levels: &mut Vec<usize>, indent: usize) -> (ok: bool)
    ensures
        match next_levels(levels_view(old(levels)@), indent as int) {
            Some(next) => ok && levels_view(final(levels)@) == next,
            None => !ok,
        },
{
    let ghost old_levels = levels_view(levels@);
    if levels.len() == 0 || indent > levels[levels.len() - 1] {
        levels.push(indent);
        assert(levels_view(levels@) =~= old_levels.push(indent as int));
        return true;
    }
    while levels.len() > 0 && levels[levels.len() - 1] > indent
        invariant
            pop_deeper(old_levels, indent as int) == pop_deeper(levels_view(levels@), indent as int),
        decreases levels@.len(),
    {
        let ghost cur = levels@;
        levels.pop();
        assert(levels_view(levels@) =~= levels_view(cur).drop_last());
    }
    assert(pop_deeper(levels_view(levels@), indent as int) == levels_view(levels@));
    levels.len() > 0 && levels[levels.len() - 1] == indent
}

/// The lines of a text start with its first line, then the lines after it.
proof fn lemma_lines_step(text: Seq<char>, start: int, e: int, line: Seq<char>)
    requires
        0 <= start < e <= text.len() || 0 <= start == e < text.len(),
        forall|j: int| start <= j < e ==> text[j] != '\n',
        e == text.len() || text[e] == '\n',
        line == (if e < text.len() && e > start && text[e - 1] == '\r' {
            text.subrange(start, e - 1)
        } else {
            text.subrange(start, e)
        }),
    ensures
        lines_spec(text.skip(start)) == seq![line] + (if e < text.len() {
            lines_spec(text.skip(e + 1))
        } else {
            seq![]
        }),
{
    let rest = text.skip(start);
    lemma_first_newline(rest, e - start);
    let raw = rest.take(e - start);
    assert(raw =~= text.subrange(start, e));
    if e < text.len() && e > start && text[e - 1] == '\r' {
        assert(line =~= raw.drop_last());
    } else {
        assert(line =~= raw);
    }
    if e < text.len() {
        assert(rest.skip(e - start + 1) =~= text.skip(e + 1));
    }
}

/// Reads portable indented clipboard text into outline items.
///
/// Blank lines are skipped; an item's depth follows its indentation, which
/// must return to an earlier level when it decreases.
pub fn parse_outline(text: &str) -> (r: Result<Vec<ParsedNode>, Error>)
    requires
        text@.len() <= usize::MAX / 4,
        !(read_lines(lines_spec(text@)) is Unsplittable),
    ensures
        match read_lines(lines_spec(text@)) {
            OutlineState::Reading(_, items) => if items.len() == 0 {
                r matches Err(Error::InvalidClipboard(m)) && m@ == "the clipboard is empty"@
            } else {
                r matches Ok(v) && entries_view(v@) == items
            },
            OutlineState::Misaligned => r matches Err(Error::InvalidClipboard(m)) && m@
                == "indentation does not match an earlier level"@,
            OutlineState::Unsplittable => false,
        },
{
    let chars = crate::text::chars_of(text);
    let n = chars.len();
    let mut start: usize = 0;
    let mut levels: Vec<usize> = Vec::new();
    let mut result: Vec<ParsedNode> = Vec::new();
    let ghost all = lines_spec(text@);
    let ghost mut done: Seq<Seq<char>> = seq![];
    assert(text@.skip(0) =~= text@);
    assert(levels_view(levels@) =~= seq![]);
    assert(entries_view(result@) =~= seq![]);
    assert(done + all =~= all);
    while start < n
        invariant
            start <= n == chars@.len() == text@.len(),
            n <= usize::MAX / 4,
            chars@ == text@,
            all == lines_spec(text@),
            !(read_lines(all) is Unsplittable),
            all == done + lines_spec(text@.skip(start as int)),
            read_lines(done) == OutlineState::Reading(levels_view(levels@), entries_view(result@)),
        decreases n - start,
    {
        let mut e = start;
        while e < n && chars[e] != '\n'
            invariant
                start <= e <= n == chars@.len(),
                forall|j: int| start <= j < e ==> chars@[j] != '\n',
            decreases n - e,
        {
            e += 1;
        }
        let mut le = e;
        if e < n && le > start && chars[le - 1] == '\r' {
            le -= 1;
        }
        let line = copy_range(&chars, start, le);
        proof {
            lemma_lines_step(text@, start as int, e as int, line@);
        }
        let ghost before = done;
        let ghost before_levels = levels_view(levels@);
        proof {
            done = done.push(line@);
            assert(done.drop_last() =~= before);
        }
        let lead = leading_ws_exec(&line);
        if lead < line.len() {
            let indent = indent_width_exec(&line);
            if !step_levels(&mut levels, indent) {
                proof {
                    assert(read_lines(done) == OutlineState::Misaligned);
                    assert(all.take(done.len() as int) =~= done);
                    lemma_read_lines_failure_persists(all, done.len() as int);
                }
                return Err(
                    Error::InvalidClipboard(
                        String::from_str("indentation does not match an earlier level"),
                    ),
                );
            }
            proof {
                if tag_split_inside_char(line_content(line@)) {
                    assert(read_lines(done) == OutlineState::Unsplittable);
                    assert(all.take(done.len() as int) =~= done);
                    lemma_read_lines_failure_persists(all, done.len() as int);
                }
            }
            let item = entry_exec(&line, levels.len() - 1);
            let ghost old_result = result@;
            result.push(item);
            assert(entries_view(result@) =~= entries_view(old_result).push(item@));
        }
        start = if e < n {
            e + 1
        } else {
            n
        };
        proof {
            if e < n {
                assert(all == done + lines_spec(text@.skip(start as int)));
            } else {
                assert(text@.skip(start as int) =~= seq![]);
                assert(all =~= done);
            }
        }
    }
    assert(text@.skip(n as int) =~= seq![]);
    assert(all =~= done);
    if result.len() == 0 {
        return Err(Error::InvalidClipboard(String::from_str("the clipboard is empty")));
    }
    Ok(result)
}

/// The characters of each line.
pub open spec fn char_lines_view(v: Seq<Vec<char>>) -> Seq<Seq<char>> {
    v.map_values(|line: Vec<char>| line@)
}

/// Splits a text into lines as `str::lines` does.
pub fn split_lines(text: &str) -> (r: Vec<Vec<char>>)
    ensures
        char_lines_view(r@) == lines_spec(text@),
{
    let chars = crate::text::chars_of(text);
    let n = chars.len();
    let mut start: usize = 0;
    let mut lines: Vec<Vec<char>> = Vec::new();
    assert(text@.skip(0) =~= text@);
    assert(char_lines_view(lines@) =~= seq![]);
    while start < n
        invariant
            start <= n == chars@.len() == text@.len(),
            chars@ == text@,
            lines_spec(text@) == char_lines_view(lines@) + lines_spec(text@.skip(start as int)),
        decreases n - start,
    {
        let mut e = start;
        while e < n && chars[e] != '\n'
            invariant
                start <= e <= n == chars@.len(),
                forall|j: int| start <= j < e ==> chars@[j] != '\n',
            decreases n - e,
        {
            e += 1;
        }
        let mut le = e;
        if e < n && le > start && chars[le - 1] == '\r' {
            le -= 1;
        }
        let line = copy_range(&chars, start, le);
        proof {
            lemma_lines_step(text@, start as int, e as int, line@);
        }
        let ghost before = char_lines_view(lines@);
        lines.push(line);
        assert(char_lines_view(lines@) =~= before.push(line@));
        start = if e < n {
            e + 1
        } else {
            n
        };
        proof {
            if e >= n {
                assert(text@.skip(start as int) =~= seq![]);
            }
        }
    }
    assert(text@.skip(n as int) =~= seq![]);
    lines
}

/// `s` without white space at either end, as `str::trim` leaves it.
pub open spec fn trimmed(s: Seq<char>) -> Seq<char> {
    let a = leading_ws(s);
    let b = trim_end_at(s, s.len() as int);
    if a < b {
        s.subrange(a, b)
    } else {
        seq![]
    }
}

/// `s` without white space at either end.
pub fn trim_chars(s: &Vec<char>) -> (r: Vec<char>)
    ensures
        r@ == trimmed(s@),
{
    let a = leading_ws_exec(s);
    let mut b = s.len();
    while b > 0 && is_whitespace(s[b - 1])
        invariant
            b <= s@.len(),
            trim_end_at(s@, s@.len() as int) == trim_end_at(s@, b as int),
        decreases b,
    {
        b -= 1;
    }
    if a < b {
        copy_range(s, a, b)
    } else {
        Vec::new()
    }
}

/// Why a subtree could not be written as an outline.
#[derive(Clone, Copy, Debug, PartialEq, Eq)]
pub enum SubtreeFailure {
    /// A node was reached twice.
    Cycle,
    /// A reached node is not among the loaded nodes.
    MissingNode,
    /// A node's text holds a line break.
    LineBreak(NodeId),
}

/// Index of the first loaded node with identity `id`.
pub open spec fn node_index(nodes: Seq<Node>, id: NodeId) -> Option<int>
    decreases nodes.len(),
{
    if nodes.len() == 0 {
        None
    } else if nodes[0].id@ == id@ {
        Some(0)
    } else {
        match node_index(nodes.drop_first(), id) {
            Some(i) => Some(i + 1),
            None => None,
        }
    }
}

proof fn lemma_node_index(nodes: Seq<Node>, id: NodeId, i: int)
    requires
        0 <= i <= nodes.len(),
        forall|k: int| 0 <= k < i ==> (#[trigger] nodes[k]).id@ != id@,
        i < nodes.len() ==> nodes[i].id@ == id@,
    ensures
        node_index(nodes, id) == if i < nodes.len() {
            Some(i)
        } else {
            None::<int>
        },
    decreases i,
{
    if i > 0 {
        assert forall|k: int| 0 <= k < i - 1 implies (#[trigger] nodes.drop_first()[k]).id@ != id@ by {
            assert(nodes.drop_first()[k] == nodes[k + 1]);
        }
        lemma_node_index(nodes.drop_first(), id, i - 1);
    }
}

fn find_node(nodes: &Vec<Node>, id: NodeId) -> (r: Option<usize>)
    ensures
        match node_index(nodes@, id) {
            Some(i) => r == Some(i as usize) && 0 <= i < nodes@.len(),
            None => r is None,
        },
{
    let mut i: usize = 0;
    while i < nodes.len()
        invariant
            i <= nodes@.len(),
            forall|k: int| 0 <= k < i ==> (#[trigger] nodes@[k]).id@ != id@,
        decreases nodes@.len() - i,
    {
        if nodes[i].id == id {
            proof {
                lemma_node_index(nodes@, id, i as int);
            }
            return Some(i);
        }
        i += 1;
    }
    proof {
        lemma_node_index(nodes@, id, nodes@.len() as int);
    }
    None
}

/// The ordered children of `id`: those of its first entry, or none.
pub open spec fn children_of(children: Seq<(NodeId, Vec<(i64, NodeId)>)>, id: NodeId) -> Seq<(i64, NodeId)>
    decreases children.len(),
{
    if children.len() == 0 {
        seq![]
    } else if children[0].0@ == id@ {
        children[0].1@
    } else {
        children_of(children.drop_first(), id)
    }
}

fn find_children(children: &Vec<(NodeId, Vec<(i64, NodeId)>)>, id: NodeId) -> (r: Option<usize>)
    ensures
        match r {
            Some(i) => i < children@.len() && children@[i as int].1@ == children_of(children@, id),
            None => children_of(children@, id).len() == 0,
        },
{
    let mut i: usize = 0;
    assert(children@.skip(0) =~= children@);
    while i < children.len()
        invariant
            i <= children@.len(),
            children_of(children@, id) == children_of(children@.skip(i as int), id),
        decreases children@.len() - i,
    {
        assert(children@.skip(i as int)[0] == children@[i as int]);
        assert(children@.skip(i as int).drop_first() =~= children@.skip(i + 1));
        if children[i].0 == id {
            return Some(i);
        }
        i += 1;
    }
    assert(children@.skip(i as int).len() == 0);
    None
}

/// No identity is loaded twice, as in a map keyed by identity.
pub open spec fn node_ids_distinct(nodes: Seq<Node>) -> bool {
    forall|i: int, j: int|
        0 <= i < j < nodes.len() ==> (#[trigger] nodes[i]).id@ != (#[trigger] nodes[j]).id@
}

/// No parent has two lists of children, as in a map keyed by identity.
pub open spec fn child_keys_distinct(children: Seq<(NodeId, Vec<(i64, NodeId)>)>) -> bool {
    forall|i: int, j: int|
        0 <= i < j < children.len() ==> (#[trigger] children[i]).0@ != (#[trigger] children[j]).0@
}

/// Where each identity is loaded once, looking a node up by its identity
/// finds its own entry, wherever it stands.
pub proof fn lemma_node_lookup_unique(nodes: Seq<Node>, k: int)
    requires
        node_ids_distinct(nodes),
        0 <= k < nodes.len(),
    ensures
        node_index(nodes, nodes[k].id) == Some(k),
{
    assert forall|j: int| 0 <= j < k implies (#[trigger] nodes[j]).id@ != nodes[k].id@ by {}
    lemma_node_index(nodes, nodes[k].id, k);
}

/// Where each parent has one list of children, looking its children up
/// gives that list, wherever it stands.
pub proof fn lemma_children_lookup_unique(children: Seq<(NodeId, Vec<(i64, NodeId)>)>, k: int)
    requires
        child_keys_distinct(children),
        0 <= k < children.len(),
    ensures
        children_of(children, children[k].0) == children[k].1@,
    decreases k,
{
    if k > 0 {
        let rest = children.drop_first();
        assert(children[0].0@ != children[k].0@);
        assert forall|i: int, j: int| 0 <= i < j < rest.len() implies (#[trigger] rest[i]).0@ != (
        #[trigger] rest[j]).0@ by {
            assert(rest[i] == children[i + 1] && rest[j] == children[j + 1]);
        }
        assert(rest[k - 1] == children[k]);
        lemma_children_lookup_unique(rest, k - 1);
    }
}

/// The tags of a copied bullet: ` #tag` for each.
pub open spec fn tags_suffix(tags: Seq<Seq<char>>) -> Seq<char>
    decreases tags.len(),
{
    if tags.len() == 0 {
        seq![]
    } else {
        tags_suffix(tags.drop_last()) + seq![' ', '#'] + tags.last()
    }
}

/// Two spaces for each level of depth.
pub open spec fn depth_indent(depth: nat) -> Seq<char>
    decreases depth,
{
    if depth == 0 {
        seq![]
    } else {
        depth_indent((depth - 1) as nat) + seq![' ', ' ']
    }
}

/// The line of a copied node: its indentation, `- `, its text and its tags.
pub open spec fn bullet_line(node: Node, depth: nat) -> Seq<char> {
    depth_indent(depth) + seq!['-', ' '] + node.text@ + tags_suffix(strings_view(node.tags@))
        + seq!['\n']
}

/// Nodes still to write (the last one first), nodes written, and the text.
pub type WriteState = (Seq<(NodeId, nat)>, Seq<NodeId>, Seq<char>);

/// The pending nodes once the children of a node at `depth` are added, so
/// that its first child is written next.
pub open spec fn with_children(pending: Seq<(NodeId, nat)>, kids: Seq<(i64, NodeId)>, depth: nat) -> Seq<
    (NodeId, nat),
> {
    pending + Seq::new(kids.len(), |i: int| (kids[kids.len() - 1 - i].1, depth + 1))
}

/// Writes the next pending node: a node reached twice is a cycle, one that
/// is not loaded is missing, and a text with a line break cannot be copied.
pub open spec fn write_step(
    nodes: Seq<Node>,
    children: Seq<(NodeId, Vec<(i64, NodeId)>)>,
    st: WriteState,
) -> Result<WriteState, (SubtreeFailure, Seq<char>)> {
    let (pending, visited, out) = st;
    let (id, depth) = pending.last();
    let rest = pending.drop_last();
    if contains_id(visited, id) {
        Err((SubtreeFailure::Cycle, out))
    } else {
        match node_index(nodes, id) {
            None => Err((SubtreeFailure::MissingNode, out)),
            Some(i) => if has_line_break(nodes[i].text@) {
                Err((SubtreeFailure::LineBreak(id), out))
            } else {
                Ok(
                    (
                        with_children(rest, children_of(children, id), depth),
                        visited.push(id),
                        out + bullet_line(nodes[i], depth),
                    ),
                )
            },
        }
    }
}

/// Writes pending nodes until none is left, at most `fuel` of them.
pub open spec fn write_run(
    nodes: Seq<Node>,
    children: Seq<(NodeId, Vec<(i64, NodeId)>)>,
    st: WriteState,
    fuel: nat,
) -> Result<WriteState, (SubtreeFailure, Seq<char>)>
    decreases fuel,
{
    if fuel == 0 || st.0.len() == 0 {
        Ok(st)
    } else {
        match write_step(nodes, children, st) {
            Err(e) => Err(e),
            Ok(next) => write_run(nodes, children, next, (fuel - 1) as nat),
        }
    }
}

/// The outline of the subtree of `root`, appended to `out`: each node in
/// depth-first order, children in their order, or why it cannot be written
/// with the text written until then.
pub open spec fn subtree_text(
    root: NodeId,
    nodes: Seq<Node>,
    children: Seq<(NodeId, Vec<(i64, NodeId)>)>,
    out: Seq<char>,
) -> Result<Seq<char>, (SubtreeFailure, Seq<char>)> {
    match write_run(nodes, children, (seq![(root, 0nat)], seq![], out), nodes.len() + 1) {
        Ok(st) => Ok(st.2),
        Err(e) => Err(e),
    }
}

/// The identities of the loaded nodes, as byte sequences.
pub open spec fn id_views(ids: Seq<NodeId>) -> Seq<Seq<u8>> {
    ids.map_values(|id: NodeId| id@)
}

proof fn lemma_visited_bound(visited: Seq<NodeId>, nodes: Seq<Node>)
    requires
        id_views(visited).no_duplicates(),
        forall|k: int| 0 <= k < visited.len() ==> node_index(nodes, #[trigger] visited[k]) is Some,
    ensures
        visited.len() <= nodes.len(),
{
    let vs = id_views(visited);
    let ns = nodes.map_values(|node: Node| node.id@);
    vs.unique_seq_to_set();
    assert forall|x: Seq<u8>| vs.to_set().contains(x) implies ns.to_set().contains(x) by {
        let k = choose|k: int| 0 <= k < vs.len() && vs[k] == x;
        assert(vs[k] == visited[k]@);
        lemma_node_index_found(nodes, visited[k]);
        let i = node_index(nodes, visited[k])->0;
        assert(ns[i] == x);
    }
    vstd::seq_lib::seq_to_set_is_finite(ns);
    vstd::set_lib::lemma_len_subset(vs.to_set(), ns.to_set());
    ns.lemma_cardinality_of_set();
}

proof fn lemma_node_index_found(nodes: Seq<Node>, id: NodeId)
    requires
        node_index(nodes, id) is Some,
    ensures
        0 <= node_index(nodes, id)->0 < nodes.len(),
        nodes[node_index(nodes, id)->0].id@ == id@,
    decreases nodes.len(),
{
    if nodes.len() > 0 && nodes[0].id@ != id@ {
        lemma_node_index_found(nodes.drop_first(), id);
    }
}

fn write_bullet(output: &mut String, node: &Node, depth: usize)
    ensures
        final(output)@ == old(output)@ + bullet_line(*node, depth as nat),
{
    let ghost start = output@;
    let mut level: usize = 0;
    while level < depth
        invariant
            level <= depth,
            output@ == start + depth_indent(level as nat),
        decreases depth - level,
    {
        push_char(output, ' ');
        push_char(output, ' ');
        level += 1;
        assert(output@ =~= start + depth_indent(level as nat));
    }
    push_char(output, '-');
    push_char(output, ' ');
    output.append(node.text.as_str());
    let ghost head = output@;
    let ghost tags = strings_view(node.tags@);
    let mut i: usize = 0;
    assert(tags.take(0) =~= Seq::<Seq<char>>::empty());
    while i < node.tags.len()
        invariant
            i <= node.tags@.len(),
            tags == strings_view(node.tags@),
            output@ == head + tags_suffix(tags.take(i as int)),
        decreases node.tags@.len() - i,
    {
        assert(tags.take(i + 1).drop_last() =~= tags.take(i as int));
        push_char(output, ' ');
        push_char(output, '#');
        output.append(node.tags[i].as_str());
        i += 1;
        assert(output@ =~= head + tags_suffix(tags.take(i as int)));
    }
    assert(tags.take(i as int) =~= tags);
    push_char(output, '\n');
    assert(output@ =~= start + bullet_line(*node, depth as nat));
}

/// The error reported for a subtree that cannot be written.
pub open spec fn failure_error(failure: SubtreeFailure, error: Error) -> bool {
    match failure {
        SubtreeFailure::Cycle => error matches Error::InvalidDatabase(m) && m@
            == "a cycle exists in a copied subtree"@,
        SubtreeFailure::MissingNode => error matches Error::InvalidDatabase(m) && m@
            == "a copied subtree contains a missing node"@,
        SubtreeFailure::LineBreak(id) => error matches Error::InvalidClipboard(m) && m@ == "node "@
            + hex_text(id@) + " contains a line break"@,
    }
}

/// Appends the subtree of `root` to `output` as portable indented bullets:
/// each node on its own line, two spaces of indentation per level, `- `,
/// its text and its tags; children follow their parent in their order.
pub fn write_subtree(
    root: NodeId,
    nodes: &Vec<Node>,
    children: &Vec<(NodeId, Vec<(i64, NodeId)>)>,
    output: &mut String,
) -> (r: Result<(), Error>)
    ensures
        match subtree_text(root, nodes@, children@, old(output)@) {
            Ok(text) => r is Ok && final(output)@ == text,
            Err((failure, text)) => (r matches Err(e) && failure_error(failure, e)) && final(output)@
                == text,
        },
{
    let node_count = nodes.len();
    let ghost fuel0 = (nodes@.len() + 1) as nat;
    let ghost initial: WriteState = (seq![(root, 0nat)], seq![], old(output)@);
    let mut pending: Vec<(NodeId, usize)> = Vec::new();
    pending.push((root, 0));
    let mut visited: Vec<NodeId> = Vec::new();
    let ghost mut pending_view: Seq<(NodeId, nat)> = seq![(root, 0nat)];
    assert(pending@.map_values(|p: (NodeId, usize)| (p.0, p.1 as nat)) =~= pending_view);
    assert(id_views(visited@) =~= Seq::<Seq<u8>>::empty());
    while pending.len() > 0
        invariant
            pending@.map_values(|p: (NodeId, usize)| (p.0, p.1 as nat)) == pending_view,
            forall|k: int| 0 <= k < pending@.len() ==> #[trigger] pending@[k].1 <= visited@.len(),
            id_views(visited@).no_duplicates(),
            forall|k: int| 0 <= k < visited@.len() ==> node_index(nodes@, #[trigger] visited@[k]) is Some,
            visited@.len() <= nodes@.len(),
            node_count == nodes@.len(),
            fuel0 == nodes@.len() + 1,
            initial == (seq![(root, 0nat)], Seq::<NodeId>::empty(), old(output)@),
            write_run(nodes@, children@, (pending_view, visited@, output@), (fuel0 - visited@.len()) as nat)
                == write_run(nodes@, children@, initial, fuel0),
        decreases nodes@.len() - visited@.len(),
    {
        let ghost st: WriteState = (pending_view, visited@, output@);
        let ghost fuel = (fuel0 - visited@.len()) as nat;
        let ghost before = pending@;
        assert(before.len() > 0);
        assert(pending_view.len() == before.len());
        let (id, depth) = pending.pop().unwrap();
        assert(before.last() == (id, depth));
        assert(pending_view.last() == (id, depth as nat));
        if has_id(&visited, id) {
            assert(write_step(nodes@, children@, st) == Err::<WriteState, (SubtreeFailure, Seq<char>)>((SubtreeFailure::Cycle, output@)));
            assert(st.0.len() > 0 && fuel >= 1);
            assert(write_run(nodes@, children@, st, fuel) == Err::<WriteState, (SubtreeFailure, Seq<char>)>((SubtreeFailure::Cycle, output@)));
            assert(write_run(nodes@, children@, initial, fuel0) == Err::<WriteState, (SubtreeFailure, Seq<char>)>((SubtreeFailure::Cycle, output@)));
            assert(subtree_text(root, nodes@, children@, old(output)@) == Err::<Seq<char>, (SubtreeFailure, Seq<char>)>((SubtreeFailure::Cycle, output@)));
            return Err(Error::InvalidDatabase(String::from_str("a cycle exists in a copied subtree")));
        }
        let index = match find_node(nodes, id) {
            Some(i) => i,
            None => {
                assert(write_step(nodes@, children@, st) == Err::<WriteState, (SubtreeFailure, Seq<char>)>((SubtreeFailure::MissingNode, output@)));
            assert(st.0.len() > 0 && fuel >= 1);
            assert(write_run(nodes@, children@, st, fuel) == Err::<WriteState, (SubtreeFailure, Seq<char>)>((SubtreeFailure::MissingNode, output@)));
            assert(write_run(nodes@, children@, initial, fuel0) == Err::<WriteState, (SubtreeFailure, Seq<char>)>((SubtreeFailure::MissingNode, output@)));
            assert(subtree_text(root, nodes@, children@, old(output)@) == Err::<Seq<char>, (SubtreeFailure, Seq<char>)>((SubtreeFailure::MissingNode, output@)));
                return Err(
                    Error::InvalidDatabase(String::from_str("a copied subtree contains a missing node")),
                );
            },
        };
        let node = &nodes[index];
        if contains_line_break(node.text.as_str()) {
            let mut message = String::from_str("node ");
            message.append(id.to_string().as_str());
            message.append(" contains a line break");
            return Err(Error::InvalidClipboard(message));
        }
        write_bullet(output, node, depth);
        proof {
            let vs = id_views(visited@);
            assert(!vs.contains(id@)) by {
                if vs.contains(id@) {
                    let k = choose|k: int| 0 <= k < vs.len() && vs[k] == id@;
                    assert(visited@[k]@ == id@);
                }
            }
        }
        let ghost old_visited = visited@;
        visited.push(id);
        proof {
            assert(id_views(visited@) =~= id_views(old_visited).push(id@));
            assert forall|k: int| 0 <= k < visited@.len() implies node_index(nodes@, #[trigger] visited@[k]) is Some by {
                if k < old_visited.len() {
                    assert(visited@[k] == old_visited[k]);
                }
            }
            lemma_visited_bound(visited@, nodes@);
        }
        let ghost rest_view = pending_view.drop_last();
        assert(pending@.map_values(|p: (NodeId, usize)| (p.0, p.1 as nat)) =~= rest_view);
        match find_children(children, id) {
            Some(c) => {
                let kids = &children[c].1;
                let mut j: usize = kids.len();
                while j > 0
                    invariant
                        j <= kids@.len(),
                        kids@ == children_of(children@, id),
                        depth < visited@.len() <= nodes@.len(),
                        node_count == nodes@.len(),
                        forall|k: int| 0 <= k < pending@.len() ==> #[trigger] pending@[k].1 <= visited@.len(),
                        pending@.map_values(|p: (NodeId, usize)| (p.0, p.1 as nat)) == rest_view
                            + Seq::new((kids@.len() - j) as nat, |i: int| (kids@[kids@.len() - 1 - i].1, depth as nat + 1)),
                    decreases j,
                {
                    let ghost prev = pending@;
                    pending.push((kids[j - 1].1, depth + 1));
                    proof {
                        assert(pending@.map_values(|p: (NodeId, usize)| (p.0, p.1 as nat)) =~= prev.map_values(|p: (NodeId, usize)| (p.0, p.1 as nat)).push((kids@[j - 1].1, depth as nat + 1)));
                        assert(rest_view + Seq::new((kids@.len() - (j - 1)) as nat, |i: int| (kids@[kids@.len() - 1 - i].1, depth as nat + 1)) =~= (rest_view + Seq::new((kids@.len() - j) as nat, |i: int| (kids@[kids@.len() - 1 - i].1, depth as nat + 1))).push((kids@[j - 1].1, depth as nat + 1)));
                    }
                    j -= 1;
                }
            },
            None => {},
        }
        proof {
            let kids = children_of(children@, id);
            pending_view = with_children(rest_view, kids, depth as nat);
            assert(pending@.map_values(|p: (NodeId, usize)| (p.0, p.1 as nat)) =~= pending_view);
            assert(write_step(nodes@, children@, st) == Ok::<WriteState, (SubtreeFailure, Seq<char>)>((pending_view, visited@, output@)));
        }
    }
    proof {
        assert(pending_view.len() == 0);
    }
    Ok(())
}

// ---------------------------------------------------------------------------
// Copied bullets read back.
// ---------------------------------------------------------------------------

/// The last white-space separated token of `text` looks like a `#tag`: it
/// starts with `#` and has more after it.
pub open spec fn ends_with_tag_token(text: Seq<char>) -> bool {
    let m = trim_end_at(text, text.len() as int);
    let t = token_start(text, m);
    t + 2 <= m && text[t] == '#'
}

/// Every tag is a non-empty word without white space.
pub open spec fn tags_are_words(tags: Seq<Seq<char>>) -> bool {
    forall|i: int|
        0 <= i < tags.len() ==> (#[trigger] tags[i]).len() > 0 && forall|j: int|
            0 <= j < tags[i].len() ==> !is_ws(#[trigger] tags[i][j])
}

/// The line a node at `depth` is copied to, without its line ending.
pub open spec fn copied_line(text: Seq<char>, tags: Seq<Seq<char>>, depth: nat) -> Seq<char> {
    depth_indent(depth) + seq!['-', ' '] + text + tags_suffix(tags)
}

proof fn lemma_trim_end_bounds(c: Seq<char>, n: int)
    requires
        0 <= n,
    ensures
        0 <= trim_end_at(c, n) <= n,
    decreases n,
{
    if n > 0 && is_ws(c[n - 1]) {
        lemma_trim_end_bounds(c, n - 1);
    }
}

proof fn lemma_token_start_bounds(c: Seq<char>, m: int)
    requires
        0 <= m,
    ensures
        0 <= token_start(c, m) <= m,
    decreases m,
{
    if m > 0 && !is_ws(c[m - 1]) {
        lemma_token_start_bounds(c, m - 1);
    }
}

proof fn lemma_trim_end_prefix(a: Seq<char>, b: Seq<char>, n: int)
    requires
        0 <= n <= a.len(),
        n <= b.len(),
        a.take(n) =~= b.take(n),
    ensures
        trim_end_at(a, n) == trim_end_at(b, n),
    decreases n,
{
    if n > 0 {
        assert(a[n - 1] == a.take(n)[n - 1]);
        assert(b[n - 1] == b.take(n)[n - 1]);
        assert(a.take(n - 1) =~= a.take(n).take(n - 1));
        assert(b.take(n - 1) =~= b.take(n).take(n - 1));
        lemma_trim_end_prefix(a, b, n - 1);
    }
}

proof fn lemma_token_start_prefix(a: Seq<char>, b: Seq<char>, m: int)
    requires
        0 <= m <= a.len(),
        m <= b.len(),
        a.take(m) =~= b.take(m),
    ensures
        token_start(a, m) == token_start(b, m),
    decreases m,
{
    if m > 0 {
        assert(a[m - 1] == a.take(m)[m - 1]);
        assert(b[m - 1] == b.take(m)[m - 1]);
        assert(a.take(m - 1) =~= a.take(m).take(m - 1));
        assert(b.take(m - 1) =~= b.take(m).take(m - 1));
        lemma_token_start_prefix(a, b, m - 1);
    }
}

/// The tags found before `cursor` depend only on the first `cursor`
/// characters.
proof fn lemma_scan_tags_prefix(a: Seq<char>, b: Seq<char>, cursor: int)
    requires
        0 <= cursor <= a.len(),
        cursor <= b.len(),
        a.take(cursor) =~= b.take(cursor),
    ensures
        scan_tags(a, cursor) == scan_tags(b, cursor),
    decreases cursor,
{
    lemma_trim_end_prefix(a, b, cursor);
    lemma_trim_end_bounds(a, cursor);
    let m = trim_end_at(a, cursor);
    assert(a.take(m) =~= a.take(cursor).take(m));
    assert(b.take(m) =~= b.take(cursor).take(m));
    lemma_token_start_prefix(a, b, m);
    lemma_token_start_bounds(a, m);
    let t = token_start(a, m);
    if 0 <= t && t + 2 <= m && m <= cursor && a[t] == '#' {
        assert(a[t] == a.take(cursor)[t]);
        assert(b[t] == b.take(cursor)[t]);
        assert(a.take(t) =~= a.take(cursor).take(t));
        assert(b.take(t) =~= b.take(cursor).take(t));
        lemma_scan_tags_prefix(a, b, t);
        assert(a.subrange(t + 1, m) =~= b.subrange(t + 1, m)) by {
            assert forall|j: int| t + 1 <= j < m implies a[j] == b[j] by {
                assert(a[j] == a.take(cursor)[j]);
                assert(b[j] == b.take(cursor)[j]);
            }
        }
    } else if 0 <= t && t + 2 <= m && m <= cursor {
        assert(a[t] == a.take(cursor)[t]);
        assert(b[t] == b.take(cursor)[t]);
    }
}

proof fn lemma_tags_suffix_len(tags: Seq<Seq<char>>)
    ensures
        tags_suffix(tags).len() >= 0,
        tags.len() > 0 ==> tags_suffix(tags).len() >= 2,
    decreases tags.len(),
{
    if tags.len() > 0 {
        lemma_tags_suffix_len(tags.drop_last());
    }
}

/// Going back over a non-empty word ends at the white space before it.
proof fn lemma_token_start_over_word(c: Seq<char>, start: int, m: int)
    requires
        1 <= start <= m <= c.len(),
        is_ws(c[start - 1]),
        forall|j: int| start <= j < m ==> !is_ws(#[trigger] c[j]),
    ensures
        token_start(c, m) == start,
    decreases m - start,
{
    if m > start {
        lemma_token_start_over_word(c, start, m - 1);
    }
}

/// Scanning `text` followed by the suffix of the first `k` tags finds those
/// tags, the first of them just after `text` and its space.
proof fn lemma_scan_suffix(text: Seq<char>, tags: Seq<Seq<char>>, k: int)
    requires
        0 <= k <= tags.len(),
        !ends_with_tag_token(text),
        tags_are_words(tags),
    ensures
        ({
            let c = text + tags_suffix(tags.take(k));
            scan_tags(c, c.len() as int) == (
                tags.take(k),
                if k == 0 {
                    None::<int>
                } else {
                    Some(text.len() + 1int)
                },
            )
        }),
    decreases k,
{
    let c = text + tags_suffix(tags.take(k));
    if k == 0 {
        assert(tags.take(0) =~= Seq::<Seq<char>>::empty());
        assert(c =~= text);
        lemma_trim_end_bounds(text, text.len() as int);
        let m = trim_end_at(text, text.len() as int);
        lemma_token_start_bounds(text, m);
    } else {
        let prev = text + tags_suffix(tags.take(k - 1));
        assert(tags.take(k).drop_last() =~= tags.take(k - 1));
        let tag = tags[k - 1];
        assert(tags.take(k).last() == tag);
        assert(c =~= prev + seq![' ', '#'] + tag);
        lemma_scan_suffix(text, tags, k - 1);
        let n = c.len() as int;
        let p = prev.len() as int;
        assert(tags[k - 1].len() > 0);
        // the last character is the end of a word
        assert(!is_ws(c[n - 1])) by {
            assert(c[n - 1] == tag[tag.len() - 1]);
        }
        assert(trim_end_at(c, n) == n);
        assert forall|j: int| p + 1 <= j < n implies !is_ws(#[trigger] c[j]) by {
            if j == p + 1 {
                assert(c[j] == '#');
            } else {
                assert(c[j] == tag[j - p - 2]);
            }
        }
        assert(c[p] == ' ');
        lemma_token_start_over_word(c, p + 1, n);
        assert(c[p + 1] == '#');
        // what comes before the space scans as the previous tags
        assert(trim_end_at(c, p + 1) == trim_end_at(c, p));
        assert(c.take(p) =~= prev.take(p));
        lemma_scan_tags_prefix(c, prev, p);
        assert(prev.take(p) =~= prev);
        assert(scan_tags(c, p + 1) == scan_tags(c, p));
        assert(c.subrange(p + 2, n) =~= tag);
        assert(tags.take(k) =~= tags.take(k - 1).push(tag));
        if k == 1 {
            assert(p == text.len()) by {
                assert(tags.take(0) =~= Seq::<Seq<char>>::empty());
            }
        }
    }
}

/// A copied bullet reads back as the text and tags it was copied from, at
/// the depth its indentation gives, when its text does not end with a
/// `#tag`-like token and its tags are non-empty words.
pub proof fn lemma_copied_line_reads_back(text: Seq<char>, tags: Seq<Seq<char>>, depth: nat, at: nat)
    requires
        !ends_with_tag_token(text),
        tags_are_words(tags),
    ensures
        !is_blank(copied_line(text, tags, depth)),
        !tag_split_inside_char(line_content(copied_line(text, tags, depth))),
        entry_of(copied_line(text, tags, depth), at) == (at, text, tags),
{
    let line = copied_line(text, tags, depth);
    let indent = depth_indent(depth);
    lemma_depth_indent(depth);
    let c = text + tags_suffix(tags);
    assert(line =~= indent + (seq!['-', ' '] + c));
    lemma_leading_ws_spaces(indent, seq!['-', ' '] + c);
    assert(line.skip(indent.len() as int) =~= seq!['-', ' '] + c);
    assert(line_content(line) =~= c);
    assert(tags.take(tags.len() as int) =~= tags);
    lemma_scan_suffix(text, tags, tags.len() as int);
    if tags.len() > 0 {
        assert(c[text.len() as int] == ' ') by {
            lemma_tags_suffix_len(tags);
            lemma_tags_suffix_start(tags);
            assert(c[text.len() as int] == tags_suffix(tags)[0]);
        }
    }
    assert(c.take(text_end(c)) =~= text);
}

/// The indentation of depth `d` is `2 d` spaces.
proof fn lemma_depth_indent(depth: nat)
    ensures
        depth_indent(depth).len() == 2 * depth,
        forall|j: int| 0 <= j < depth_indent(depth).len() ==> #[trigger] depth_indent(depth)[j] == ' ',
    decreases depth,
{
    if depth > 0 {
        lemma_depth_indent((depth - 1) as nat);
    }
}

proof fn lemma_leading_ws_spaces(spaces: Seq<char>, rest: Seq<char>)
    requires
        forall|j: int| 0 <= j < spaces.len() ==> #[trigger] spaces[j] == ' ',
        rest.len() > 0 && !is_ws(rest[0]),
    ensures
        leading_ws(spaces + rest) == spaces.len(),
    decreases spaces.len(),
{
    if spaces.len() > 0 {
        assert((spaces + rest).drop_first() =~= spaces.drop_first() + rest);
        lemma_leading_ws_spaces(spaces.drop_first(), rest);
    } else {
        assert(spaces + rest =~= rest);
    }
}

proof fn lemma_tags_suffix_start(tags: Seq<Seq<char>>)
    requires
        tags.len() > 0,
    ensures
        tags_suffix(tags).len() >= 2,
        tags_suffix(tags)[0] == ' ',
    decreases tags.len(),
{
    let prefix = tags_suffix(tags.drop_last());
    assert(tags_suffix(tags) == prefix + seq![' ', '#'] + tags.last());
    if tags.len() > 1 {
        lemma_tags_suffix_start(tags.drop_last());
        assert(tags_suffix(tags)[0] == prefix[0]);
    } else {
        assert(tags.drop_last() =~= Seq::<Seq<char>>::empty());
        assert(prefix =~= Seq::<char>::empty());
        assert(tags_suffix(tags)[0] == ' ');
    }
}

} // verus!
