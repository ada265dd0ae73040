//! Inline editor state and terminal-width-aware caret movement.

use vstd::prelude::*;

use crate::identity::NodeId;
use crate::model::{Placement, ReferenceInput};
use crate::outline::trim_end_at;
use crate::width::{shown_char_width, shown_width};
use crate::text::{is_alphanumeric, is_whitespace, is_ws, unicode_alphanumeric, char_len, char_string, char_to_byte, len_utf8, splice, utf8_len};
use crate::text::{char_index, is_char_boundary, lemma_char_index, lemma_utf8_len_concat, lemma_utf8_len_strictly_increasing};

verus! {

/// What an open editor will write when it is committed.
#[derive(Clone, Debug, PartialEq, Eq)]
pub enum EditTarget {
    /// The text of an existing node.
    Existing(NodeId),
    /// A new node at the given destination.
    New {
        /// Parent of the new node, or `None` for a root.
        parent_id: Option<NodeId>,
        /// Placement among the new node's siblings.
        placement: Placement,
    },
}

/// Text being edited inline, with its caret, stable references and tags.
#[derive(Clone, Debug, PartialEq, Eq)]
pub struct Editor {
    /// What the editor writes to.
    pub target: EditTarget,
    /// The edited text.
    pub text: String,
    /// Caret position, in characters from the start of the text.
    pub cursor: usize,
    /// Stable references inside the text, by UTF-8 byte range of their label.
    pub references: Vec<ReferenceInput>,
    /// Tags attached to the edited node.
    pub tags: Vec<String>,
}

/// `x.saturating_sub(2)`.
pub open spec fn minus_two(x: usize) -> int {
    if x >= 2 {
        x - 2
    } else {
        0
    }
}

/// `x.saturating_add(2)`.
pub open spec fn plus_two(x: usize) -> int {
    if x + 2 <= usize::MAX {
        x + 2
    } else {
        usize::MAX as int
    }
}

/// The references kept after inserting `added` bytes at byte `at`: a
/// reference whose `[[label]]` token strictly surrounds the insertion point
/// is dropped, one that starts at or after it moves right.
pub open spec fn refs_after_insert(refs: Seq<ReferenceInput>, at: int, added: int) -> Seq<
    ReferenceInput,
>
    decreases refs.len(),
{
    if refs.len() == 0 {
        seq![]
    } else {
        let rest = refs_after_insert(refs.drop_last(), at, added);
        let r = refs.last();
        if at > minus_two(r.label_start) && at < plus_two(r.label_end) {
            rest
        } else if at <= minus_two(r.label_start) {
            rest.push(
                ReferenceInput {
                    label_start: (r.label_start + added) as usize,
                    label_end: (r.label_end + added) as usize,
                    target_id: r.target_id,
                },
            )
        } else {
            rest.push(r)
        }
    }
}

/// The references kept after removing the bytes `start..end`: a reference
/// whose token overlaps the range is dropped, one after it moves left.
pub open spec fn refs_after_remove(refs: Seq<ReferenceInput>, start: int, end: int) -> Seq<
    ReferenceInput,
>
    decreases refs.len(),
{
    if refs.len() == 0 {
        seq![]
    } else {
        let rest = refs_after_remove(refs.drop_last(), start, end);
        let r = refs.last();
        if start < plus_two(r.label_end) && end > minus_two(r.label_start) {
            rest
        } else if end <= minus_two(r.label_start) {
            rest.push(
                ReferenceInput {
                    label_start: (r.label_start - (end - start)) as usize,
                    label_end: (r.label_end - (end - start)) as usize,
                    target_id: r.target_id,
                },
            )
        } else {
            rest.push(r)
        }
    }
}

/// Every reference label is a byte range within the first `bound` bytes.
pub open spec fn refs_within(refs: Seq<ReferenceInput>, bound: int) -> bool {
    forall|i: int|
        0 <= i < refs.len() ==> (#[trigger] refs[i]).label_start <= refs[i].label_end <= bound
}

/// The byte offset of character `k` of `s`.
pub open spec fn byte_at(s: Seq<char>, k: int) -> int {
    utf8_len(s.take(k)) as int
}

fn insert_refs(refs: &Vec<ReferenceInput>, at: usize, added: usize, bound: usize) -> (r: Vec<
    ReferenceInput,
>)
    requires
        refs_within(refs@, bound as int),
        at <= bound,
        bound + added <= usize::MAX,
    ensures
        r@ == refs_after_insert(refs@, at as int, added as int),
        refs_within(r@, bound + added),
{
    let mut out: Vec<ReferenceInput> = Vec::new();
    let mut i: usize = 0;
    while i < refs.len()
        invariant
            i <= refs@.len(),
            refs_within(refs@, bound as int),
            at <= bound,
            bound + added <= usize::MAX,
            refs_within(out@, bound + added),
            out@ == refs_after_insert(refs@.take(i as int), at as int, added as int),
        decreases refs@.len() - i,
    {
        let r = refs[i];
        let token_start = r.label_start.saturating_sub(2);
        let token_end = r.label_end.saturating_add(2);
        assert(refs@.take(i + 1).drop_last() =~= refs@.take(i as int));
        assert(refs@[i as int] == r);
        let ghost before = out@;
        if at > token_start && at < token_end {
        } else if at <= token_start {
            out.push(
                ReferenceInput {
                    label_start: r.label_start + added,
                    label_end: r.label_end + added,
                    target_id: r.target_id,
                },
            );
        } else {
            out.push(r);
        }
        assert forall|k: int| 0 <= k < out@.len() implies (#[trigger] out@[k]).label_start
            <= out@[k].label_end <= bound + added by {
            if k < before.len() {
                assert(out@[k] == before[k]);
            }
        }
        i += 1;
    }
    assert(refs@.take(refs@.len() as int) =~= refs@);
    out
}

fn remove_refs(refs: &Vec<ReferenceInput>, start: usize, end: usize, bound: usize) -> (r: Vec<
    ReferenceInput,
>)
    requires
        start <= end <= bound,
        refs_within(refs@, bound as int),
    ensures
        r@ == refs_after_remove(refs@, start as int, end as int),
        refs_within(r@, bound - (end - start)),
{
    let removed = end - start;
    let mut out: Vec<ReferenceInput> = Vec::new();
    let mut i: usize = 0;
    while i < refs.len()
        invariant
            i <= refs@.len(),
            start <= end <= bound,
            removed == end - start,
            refs_within(refs@, bound as int),
            refs_within(out@, bound - removed),
            out@ == refs_after_remove(refs@.take(i as int), start as int, end as int),
        decreases refs@.len() - i,
    {
        let r = refs[i];
        let token_start = r.label_start.saturating_sub(2);
        let token_end = r.label_end.saturating_add(2);
        assert(refs@.take(i + 1).drop_last() =~= refs@.take(i as int));
        assert(refs@[i as int] == r);
        let ghost before = out@;
        if start < token_end && end > token_start {
        } else if end <= token_start {
            out.push(
                ReferenceInput {
                    label_start: r.label_start - removed,
                    label_end: r.label_end - removed,
                    target_id: r.target_id,
                },
            );
        } else {
            out.push(r);
        }
        assert forall|k: int| 0 <= k < out@.len() implies (#[trigger] out@[k]).label_start
            <= out@[k].label_end <= bound - removed by {
            if k < before.len() {
                assert(out@[k] == before[k]);
            }
        }
        i += 1;
    }
    assert(refs@.take(refs@.len() as int) =~= refs@);
    out
}

/// The references after inserting the characters of `t` one by one at byte
/// `at`.
pub open spec fn refs_after_text(refs: Seq<ReferenceInput>, at: int, t: Seq<char>) -> Seq<
    ReferenceInput,
>
    decreases t.len(),
{
    if t.len() == 0 {
        refs
    } else {
        refs_after_insert(
            refs_after_text(refs, at, t.drop_last()),
            at + utf8_len(t.drop_last()),
            char_len(t.last()) as int,
        )
    }
}

/// Characters that belong to words: alphanumerics and `_`.
pub open spec fn is_word_char(c: char) -> bool {
    unicode_alphanumeric(c) || c == '_'
}

/// Whether `c` belongs to words.
pub fn word_character(c: char) -> (r: bool)
    ensures
        r == is_word_char(c),
{
    is_alphanumeric(c) || c == '_'
}

/// Start of the run of non-white-space characters of the same word class
/// that ends at `k`.
pub open spec fn back_same(s: Seq<char>, k: int, word: bool) -> int
    decreases k,
{
    if k <= 0 {
        0
    } else if !is_ws(s[k - 1]) && is_word_char(s[k - 1]) == word {
        back_same(s, k - 1, word)
    } else {
        k
    }
}

/// First non-white-space position at or after `k`.
pub open spec fn skip_ws_forward(s: Seq<char>, k: int) -> int
    decreases s.len() - k,
{
    if k >= s.len() {
        s.len() as int
    } else if is_ws(s[k]) {
        skip_ws_forward(s, k + 1)
    } else {
        k
    }
}

/// End of the run of non-white-space characters of the same word class that
/// starts at `k`.
pub open spec fn forward_same(s: Seq<char>, k: int, word: bool) -> int
    decreases s.len() - k,
{
    if k >= s.len() {
        s.len() as int
    } else if !is_ws(s[k]) && is_word_char(s[k]) == word {
        forward_same(s, k + 1, word)
    } else {
        k
    }
}

/// Where a word move from `k` lands: backwards over white space and then
/// over one run of word or non-word characters, or forwards likewise.
pub open spec fn word_target(s: Seq<char>, k: int, backwards: bool) -> int {
    if backwards {
        let k1 = trim_end_at(s, k);
        if k1 <= 0 {
            0
        } else {
            back_same(s, k1, is_word_char(s[k1 - 1]))
        }
    } else {
        let k1 = skip_ws_forward(s, k);
        if k1 >= s.len() {
            s.len() as int
        } else {
            forward_same(s, k1, is_word_char(s[k1]))
        }
    }
}

/// Row and column of the caret before character `i` when `s` is wrapped at
/// `width` columns (at least one).
pub open spec fn caret_at(s: Seq<char>, width: nat, i: nat) -> (nat, nat)
    decreases i,
{
    let before = if i == 0 {
        (0nat, 0nat)
    } else {
        let p = caret_at(s, width, (i - 1) as nat);
        (p.0, p.1 + shown_width(s[i - 1]))
    };
    if (before.1 == width && before.1 > 0) || (i < s.len() && before.1 > 0 && before.1
        + shown_width(s[i as int]) > width) {
        (before.0 + 1, 0nat)
    } else {
        before
    }
}

/// The wrap width actually used: at least one column.
pub open spec fn wrap_width(width: usize) -> nat {
    if width == 0 {
        1
    } else {
        width as nat
    }
}

/// Row and column of every caret position of `text` (before each character
/// and after the last) when wrapped at `width` columns.
pub fn caret_positions(text: &str, width: usize) -> (positions: Vec<(usize, usize)>)
    requires
        text@.len() <= usize::MAX / 4,
    ensures
        positions@.len() == text@.len() + 1,
        forall|i: int|
            0 <= i <= text@.len() ==> (#[trigger] positions@[i]).0 == caret_at(text@, wrap_width(width), i as nat).0
                && positions@[i].1 == caret_at(text@, wrap_width(width), i as nat).1,
{
    let width = if width == 0 {
        1
    } else {
        width
    };
    let characters = crate::text::chars_of(text);
    let n = characters.len();
    let mut positions: Vec<(usize, usize)> = Vec::new();
    let mut row: usize = 0;
    let mut column: usize = 0;
    let mut index: usize = 0;
    while index <= n
        invariant
            index <= n + 1,
            n == characters@.len() == text@.len(),
            characters@ == text@,
            n <= usize::MAX / 4,
            width >= 1,
            width as nat == wrap_width(width),
            positions@.len() == index,
            row <= index,
            column <= 3 * index,
            index <= n ==> (row as nat, column as nat) == (if index == 0 {
                (0nat, 0nat)
            } else {
                let p = caret_at(text@, width as nat, (index - 1) as nat);
                (p.0, p.1 + shown_width(text@[index - 1]))
            }),
            forall|i: int|
                0 <= i < index ==> (#[trigger] positions@[i]).0 == caret_at(text@, width as nat, i as nat).0
                    && positions@[i].1 == caret_at(text@, width as nat, i as nat).1,
        decreases n + 1 - index,
    {
        let mut wraps = false;
        let mut next_width: usize = 0;
        if index < n {
            next_width = shown_char_width(characters[index]);
            wraps = column > 0 && (column > width || next_width > width - column);
        }
        let ghost before = (row as nat, column as nat);
        proof {
            if index < n {
                assert(next_width == shown_width(text@[index as int]));
            }
        }
        if (column == width && column > 0) || wraps {
            row = row + 1;
            column = 0;
        }
        assert(caret_at(text@, width as nat, index as nat) == (row as nat, column as nat));
        positions.push((row, column));
        if index < n {
            column = column + next_width;
        }
        index = index + 1;
    }
    positions
}

impl Editor {
    /// The caret lies within the text and every reference label is a byte
    /// range of the text.
    pub open spec fn wf(&self) -> bool {
        &&& self.cursor <= self.text@.len()
        &&& refs_within(self.references@, utf8_len(self.text@) as int)
    }

    /// Opens an editor on `text` with the caret at its end.
    pub fn new(target: EditTarget, text: String, references: Vec<ReferenceInput>, tags: Vec<String>) -> (r: Self)
        ensures
            r.target == target,
            r.text == text,
            r.cursor == text@.len(),
            r.references == references,
            r.tags == tags,
    {
        let cursor = text.as_str().unicode_len();
        Editor { target, text, cursor, references, tags }
    }

    /// Opens an editor on an empty text.
    pub fn empty(target: EditTarget) -> (r: Self)
        ensures
            r.target == target,
            r.text@.len() == 0,
            r.cursor == 0,
            r.references@.len() == 0,
            r.tags@.len() == 0,
            r.wf(),
    {
        Self::new(target, String::new(), Vec::new(), Vec::new())
    }

    fn byte_length(&self) -> (n: usize)
        requires
            utf8_len(self.text@) <= usize::MAX,
        ensures
            n == utf8_len(self.text@),
    {
        let n = self.text.as_str().unicode_len();
        let b = char_to_byte(self.text.as_str(), n);
        assert(self.text@.take(n as int) =~= self.text@);
        b
    }

    /// Inserts a character at the caret and moves the caret after it.
    pub fn insert(&mut self, character: char)
        requires
            old(self).wf(),
            utf8_len(old(self).text@) + 4 <= usize::MAX,
        ensures
            final(self).wf(),
            final(self).text@ == old(self).text@.take(old(self).cursor as int) + seq![character]
                + old(self).text@.skip(old(self).cursor as int),
            final(self).cursor == old(self).cursor + 1,
            final(self).references@ == refs_after_insert(
                old(self).references@,
                byte_at(old(self).text@, old(self).cursor as int),
                char_len(character) as int,
            ),
            final(self).target == old(self).target,
            final(self).tags == old(self).tags,
    {
        let total = self.byte_length();
        let byte = char_to_byte(self.text.as_str(), self.cursor);
        let added = len_utf8(character);
        proof {
            crate::text::lemma_utf8_len_prefix(self.text@, self.cursor as int);
        }
        self.references = insert_refs(&self.references, byte, added, total);
        let inserted = char_string(character);
        let ghost old_text = self.text@;
        self.text = splice(self.text.as_str(), self.cursor, self.cursor, inserted.as_str());
        proof {
            let k = old(self).cursor as int;
            crate::text::lemma_utf8_len_concat(old_text.take(k) + seq![character], old_text.skip(k));
            crate::text::lemma_utf8_len_concat(old_text.take(k), seq![character]);
            crate::text::lemma_utf8_len_concat(old_text.take(k), old_text.skip(k));
            assert(old_text =~= old_text.take(k) + old_text.skip(k));
            crate::text::lemma_utf8_len_single(character);
            crate::text::lemma_len_le_utf8(old_text);
        }
        self.cursor = self.cursor + 1;
    }

    /// Removes the character before the caret.
    pub fn backspace(&mut self)
        requires
            old(self).wf(),
            utf8_len(old(self).text@) <= usize::MAX,
        ensures
            final(self).wf(),
            old(self).cursor == 0 ==> *final(self) == *old(self),
            old(self).cursor > 0 ==> {
                &&& final(self).text@ == old(self).text@.take(old(self).cursor - 1) + old(
                    self,
                ).text@.skip(old(self).cursor as int)
                &&& final(self).cursor == old(self).cursor - 1
                &&& final(self).references@ == refs_after_remove(
                    old(self).references@,
                    byte_at(old(self).text@, old(self).cursor - 1),
                    byte_at(old(self).text@, old(self).cursor as int),
                )
                &&& final(self).target == old(self).target
                &&& final(self).tags == old(self).tags
            },
    {
        if self.cursor == 0 {
            return;
        }
        self.remove_char(self.cursor - 1);
        self.cursor = self.cursor - 1;
    }

    /// Removes the character after the caret.
    pub fn delete(&mut self)
        requires
            old(self).wf(),
            utf8_len(old(self).text@) <= usize::MAX,
        ensures
            final(self).wf(),
            old(self).cursor == old(self).text@.len() ==> *final(self) == *old(self),
            old(self).cursor < old(self).text@.len() ==> {
                &&& final(self).text@ == old(self).text@.take(old(self).cursor as int) + old(
                    self,
                ).text@.skip(old(self).cursor + 1)
                &&& final(self).cursor == old(self).cursor
                &&& final(self).references@ == refs_after_remove(
                    old(self).references@,
                    byte_at(old(self).text@, old(self).cursor as int),
                    byte_at(old(self).text@, old(self).cursor + 1),
                )
                &&& final(self).target == old(self).target
                &&& final(self).tags == old(self).tags
            },
    {
        if self.cursor == self.text.as_str().unicode_len() {
            return;
        }
        self.remove_char(self.cursor);
    }

    /// Removes character `k`, dropping or moving the references it affects.
    fn remove_char(&mut self, k: usize)
        requires
            k < old(self).text@.len(),
            refs_within(old(self).references@, utf8_len(old(self).text@) as int),
            utf8_len(old(self).text@) <= usize::MAX,
        ensures
            final(self).text@ == old(self).text@.take(k as int) + old(self).text@.skip(k + 1),
            final(self).references@ == refs_after_remove(
                old(self).references@,
                byte_at(old(self).text@, k as int),
                byte_at(old(self).text@, k + 1),
            ),
            refs_within(final(self).references@, utf8_len(final(self).text@) as int),
            final(self).cursor == old(self).cursor,
            final(self).target == old(self).target,
            final(self).tags == old(self).tags,
    {
        let total = self.byte_length();
        proof {
            crate::text::lemma_len_le_utf8(self.text@);
        }
        let start = char_to_byte(self.text.as_str(), k);
        let end = char_to_byte(self.text.as_str(), k + 1);
        let ghost t = self.text@;
        proof {
            crate::text::lemma_utf8_len_take(t, k as int);
            crate::text::lemma_utf8_len_prefix(t, k + 1);
        }
        self.remove_range(start, end, total);
        self.text = splice(self.text.as_str(), k, k + 1, "");
        proof {
            reveal_strlit("");
            assert(self.text@ =~= t.take(k as int) + t.skip(k + 1));
            assert(t =~= t.take(k + 1) + t.skip(k + 1));
            crate::text::lemma_utf8_len_concat(t.take(k + 1), t.skip(k + 1));
            crate::text::lemma_utf8_len_concat(t.take(k as int), t.skip(k + 1));
        }
    }

    /// Drops the references that overlap the bytes `start..end` and moves
    /// the ones after them left.
    fn remove_range(&mut self, start: usize, end: usize, total: usize)
        requires
            start <= end <= total,
            refs_within(old(self).references@, total as int),
        ensures
            final(self).references@ == refs_after_remove(old(self).references@, start as int, end as int),
            refs_within(final(self).references@, total - (end - start)),
            final(self).text == old(self).text,
            final(self).cursor == old(self).cursor,
            final(self).target == old(self).target,
            final(self).tags == old(self).tags,
    {
        self.references = remove_refs(&self.references, start, end, total);
    }

    /// Inserts every character of `text` at the caret.
    pub fn insert_text(&mut self, text: &str)
        requires
            old(self).wf(),
            utf8_len(old(self).text@) + utf8_len(text@) + 4 <= usize::MAX,
        ensures
            final(self).wf(),
            final(self).text@ == old(self).text@.take(old(self).cursor as int) + text@ + old(
                self,
            ).text@.skip(old(self).cursor as int),
            final(self).cursor == old(self).cursor + text@.len(),
            final(self).references@ == refs_after_text(
                old(self).references@,
                byte_at(old(self).text@, old(self).cursor as int),
                text@,
            ),
            final(self).target == old(self).target,
            final(self).tags == old(self).tags,
    {
        let chars = crate::text::chars_of(text);
        let ghost t0 = self.text@;
        let ghost c0 = self.cursor as int;
        let ghost at = byte_at(t0, c0);
        let mut i: usize = 0;
        assert(text@.take(0) =~= Seq::<char>::empty());
        assert(t0.take(c0) + text@.take(0) + t0.skip(c0) =~= t0);
        proof {
            crate::text::lemma_utf8_len_concat(t0.take(c0), t0.skip(c0));
            assert(t0 =~= t0.take(c0) + t0.skip(c0));
        }
        while i < chars.len()
            invariant
                i <= chars@.len(),
                chars@ == text@,
                0 <= c0 <= t0.len(),
                at == byte_at(t0, c0),
                utf8_len(t0) + utf8_len(text@) + 4 <= usize::MAX,
                utf8_len(t0) == utf8_len(t0.take(c0)) + utf8_len(t0.skip(c0)),
                self.wf(),
                self.text@ == t0.take(c0) + text@.take(i as int) + t0.skip(c0),
                self.cursor == c0 + i,
                self.references@ == refs_after_text(old(self).references@, at, text@.take(i as int)),
                self.target == old(self).target,
                self.tags == old(self).tags,
            decreases chars@.len() - i,
        {
            let ghost prefix = text@.take(i as int);
            proof {
                crate::text::lemma_utf8_len_take(text@, i as int);
                crate::text::lemma_utf8_len_prefix(text@, i + 1);
                crate::text::lemma_utf8_len_concat(t0.take(c0) + prefix, t0.skip(c0));
                crate::text::lemma_utf8_len_concat(t0.take(c0), prefix);
                assert(self.text@.take(self.cursor as int) =~= t0.take(c0) + prefix);
                assert(text@.take(i + 1).drop_last() =~= prefix);
                assert(text@.take(i + 1).last() == chars@[i as int]);
            }
            self.insert(chars[i]);
            proof {
                assert(self.text@ =~= t0.take(c0) + text@.take(i + 1) + t0.skip(c0));
            }
            i += 1;
        }
        assert(text@.take(i as int) =~= text@);
    }

    /// Moves the caret over one word: backwards when `direction` is
    /// negative, forwards otherwise.
    pub fn move_word(&mut self, direction: isize)
        requires
            old(self).wf(),
        ensures
            final(self).cursor == word_target(old(self).text@, old(self).cursor as int, direction < 0),
            final(self).text == old(self).text,
            final(self).references == old(self).references,
            final(self).target == old(self).target,
            final(self).tags == old(self).tags,
            final(self).wf(),
    {
        let characters = crate::text::chars_of(self.text.as_str());
        let ghost s = characters@;
        if direction < 0 {
            let mut k = self.cursor;
            while k > 0 && is_whitespace(characters[k - 1])
                invariant
                    k <= self.cursor <= s.len(),
                    s == characters@,
                    trim_end_at(s, self.cursor as int) == trim_end_at(s, k as int),
                decreases k,
            {
                k -= 1;
            }
            if k == 0 {
                self.cursor = 0;
                return;
            }
            let word = word_character(characters[k - 1]);
            let ghost k1 = k as int;
            while k > 0 && !is_whitespace(characters[k - 1]) && word_character(characters[k - 1]) == word
                invariant
                    k <= k1 <= s.len(),
                    s == characters@,
                    back_same(s, k1, word) == back_same(s, k as int, word),
                decreases k,
            {
                k -= 1;
            }
            self.cursor = k;
        } else {
            let n = characters.len();
            let mut k = self.cursor;
            while k < n && is_whitespace(characters[k])
                invariant
                    self.cursor <= k <= n == s.len(),
                    s == characters@,
                    skip_ws_forward(s, self.cursor as int) == skip_ws_forward(s, k as int),
                decreases n - k,
            {
                k += 1;
            }
            if k == n {
                self.cursor = n;
                return;
            }
            let word = word_character(characters[k]);
            let ghost k1 = k as int;
            while k < n && !is_whitespace(characters[k]) && word_character(characters[k]) == word
                invariant
                    k1 <= k <= n == s.len(),
                    s == characters@,
                    forward_same(s, k1, word) == forward_same(s, k as int, word),
                decreases n - k,
            {
                k += 1;
            }
            self.cursor = k;
        }
    }

    /// Removes the word before the caret, as a backward word move spans it.
    pub fn backspace_word(&mut self)
        requires
            old(self).wf(),
            utf8_len(old(self).text@) <= usize::MAX,
        ensures
            final(self).wf(),
            ({
                let k = word_target(old(self).text@, old(self).cursor as int, true);
                &&& final(self).cursor == k
                &&& final(self).text@ == old(self).text@.take(k) + old(self).text@.skip(
                    old(self).cursor as int,
                )
                &&& final(self).references@ == (if k == old(self).cursor {
                    old(self).references@
                } else {
                    refs_after_remove(
                        old(self).references@,
                        byte_at(old(self).text@, k),
                        byte_at(old(self).text@, old(self).cursor as int),
                    )
                })
            }),
            final(self).target == old(self).target,
            final(self).tags == old(self).tags,
    {
        let end = self.cursor;
        self.move_word(-1);
        let start = self.cursor;
        proof {
            lemma_back_word_bounds(self.text@, end as int);
        }
        if start == end {
            assert(self.text@.take(end as int) + self.text@.skip(end as int) =~= self.text@);
            return;
        }
        let total = self.byte_length();
        let start_byte = char_to_byte(self.text.as_str(), start);
        let end_byte = char_to_byte(self.text.as_str(), end);
        let ghost t = self.text@;
        proof {
            crate::text::lemma_utf8_len_prefix(t.take(end as int), start as int);
            assert(t.take(end as int).take(start as int) =~= t.take(start as int));
            crate::text::lemma_utf8_len_prefix(t, end as int);
        }
        self.remove_range(start_byte, end_byte, total);
        self.text = splice(self.text.as_str(), start, end, "");
        proof {
            reveal_strlit("");
            assert(self.text@ =~= t.take(start as int) + t.skip(end as int));
            assert(t =~= t.take(end as int) + t.skip(end as int));
            assert(t.take(end as int) =~= t.take(start as int) + t.subrange(start as int, end as int));
            crate::text::lemma_utf8_len_concat(t.take(end as int), t.skip(end as int));
            crate::text::lemma_utf8_len_concat(t.take(start as int), t.subrange(start as int, end as int));
            crate::text::lemma_utf8_len_concat(t.take(start as int), t.skip(end as int));
        }
    }
}

/// The row reached from `row` by moving `direction` rows, saturating at
/// zero and at the largest `usize`.
pub open spec fn target_row(row: int, direction: isize) -> int {
    if row + direction < 0 {
        0
    } else if row + direction > usize::MAX {
        usize::MAX as int
    } else {
        row + direction
    }
}

/// `|a - b|`.
pub open spec fn distance(a: int, b: int) -> int {
    if a >= b {
        a - b
    } else {
        b - a
    }
}

/// Caret position `a` is at least as good a landing place as `b` when moving
/// vertically from column `column` and position `from`: a closer column
/// first, then a closer position, then the earlier one.
pub open spec fn closer(s: Seq<char>, width: nat, column: int, from: int, a: int, b: int) -> bool {
    let da = distance(caret_at(s, width, a as nat).1 as int, column);
    let db = distance(caret_at(s, width, b as nat).1 as int, column);
    da < db || (da == db && (distance(a, from) < distance(b, from) || (distance(a, from)
        == distance(b, from) && a <= b)))
}

impl Editor {
    /// Moves the caret to the adjacent visual line of the text wrapped at
    /// `width` columns, keeping its column as well as possible. Returns
    /// whether the caret moved to another line.
    pub fn move_vertical(&mut self, direction: isize, width: usize) -> (moved: bool)
        requires
            old(self).wf(),
            old(self).text@.len() <= usize::MAX / 4,
        ensures
            final(self).wf(),
            final(self).text == old(self).text,
            final(self).references == old(self).references,
            final(self).target == old(self).target,
            final(self).tags == old(self).tags,
            ({
                let s = old(self).text@;
                let w = wrap_width(width);
                let here = caret_at(s, w, old(self).cursor as nat);
                let target = target_row(here.0 as int, direction);
                &&& moved == (target != here.0 && exists|j: int|
                    0 <= j <= s.len() && #[trigger] caret_at(s, w, j as nat).0 == target)
                &&& moved ==> caret_at(s, w, final(self).cursor as nat).0 == target && forall|j: int|
                    0 <= j <= s.len() && #[trigger] caret_at(s, w, j as nat).0 == target ==> closer(
                        s,
                        w,
                        here.1 as int,
                        old(self).cursor as int,
                        final(self).cursor as int,
                        j,
                    )
                &&& !moved ==> final(self).cursor == old(self).cursor
            }),
    {
        let positions = caret_positions(self.text.as_str(), width);
        let ghost s = self.text@;
        let ghost w = wrap_width(width);
        let (row, column) = positions[self.cursor];
        assert(positions@[self.cursor as int].0 == caret_at(s, w, self.cursor as nat).0);
        let target: usize = if direction < 0 {
            let back = (-(direction + 1)) as usize + 1;
            if back > row {
                0
            } else {
                row - back
            }
        } else {
            let ahead = direction as usize;
            if ahead > usize::MAX - row {
                usize::MAX
            } else {
                row + ahead
            }
        };
        assert(target as int == target_row(row as int, direction));
        if target == row {
            return false;
        }
        let cursor = self.cursor;
        let mut best: Option<usize> = None;
        let mut best_distance: usize = 0;
        let mut best_offset: usize = 0;
        let mut j: usize = 0;
        while j < positions.len()
            invariant
                j <= positions@.len() == s.len() + 1,
                cursor <= s.len(),
                forall|i: int|
                    0 <= i <= s.len() ==> (#[trigger] positions@[i]).0 == caret_at(s, w, i as nat).0
                        && positions@[i].1 == caret_at(s, w, i as nat).1,
                column == caret_at(s, w, cursor as nat).1,
                match best {
                    Some(b) => {
                        &&& b < j
                        &&& caret_at(s, w, b as nat).0 == target
                        &&& best_distance == distance(caret_at(s, w, b as nat).1 as int, column as int)
                        &&& best_offset == distance(b as int, cursor as int)
                        &&& forall|i: int|
                            0 <= i < j && #[trigger] caret_at(s, w, i as nat).0 == target ==> closer(
                                s,
                                w,
                                column as int,
                                cursor as int,
                                b as int,
                                i,
                            )
                    },
                    None => forall|i: int| 0 <= i < j ==> #[trigger] caret_at(s, w, i as nat).0 != target,
                },
            decreases positions@.len() - j,
        {
            let (candidate_row, candidate_column) = positions[j];
            assert(positions@[j as int].0 == caret_at(s, w, j as nat).0);
            if candidate_row == target {
                let d = if candidate_column >= column {
                    candidate_column - column
                } else {
                    column - candidate_column
                };
                let o = if j >= cursor {
                    j - cursor
                } else {
                    cursor - j
                };
                let better = match best {
                    None => true,
                    Some(_) => d < best_distance || (d == best_distance && o < best_offset),
                };
                if better {
                    best = Some(j);
                    best_distance = d;
                    best_offset = o;
                }
            }
            j += 1;
        }
        match best {
            Some(b) => {
                assert(caret_at(s, w, b as nat).0 == target);
                let ghost bi: int = b as int;
                assert(bi <= s.len());
                assert(caret_at(s, w, bi as nat).0 == target as int);
                assert(exists|j: int| 0 <= j <= s.len() && #[trigger] caret_at(s, w, j as nat).0 == target as int);
                assert(forall|i: int|
                    0 <= i <= s.len() && #[trigger] caret_at(s, w, i as nat).0 == target ==> closer(
                        s,
                        w,
                        column as int,
                        cursor as int,
                        b as int,
                        i,
                    ));
                assert(column == caret_at(s, w, cursor as nat).1);
                self.cursor = b;
                true
            },
            None => false,
        }
    }

    /// Moves the caret to the start or, with `end`, the end of its visual
    /// line of the text wrapped at `width` columns.
    pub fn move_to_visual_edge(&mut self, end: bool, width: usize)
        requires
            old(self).wf(),
            old(self).text@.len() <= usize::MAX / 4,
        ensures
            final(self).wf(),
            final(self).text == old(self).text,
            final(self).references == old(self).references,
            final(self).target == old(self).target,
            final(self).tags == old(self).tags,
            ({
                let s = old(self).text@;
                let w = wrap_width(width);
                let row = caret_at(s, w, old(self).cursor as nat).0;
                &&& caret_at(s, w, final(self).cursor as nat).0 == row
                &&& forall|j: int|
                    0 <= j <= s.len() && #[trigger] caret_at(s, w, j as nat).0 == row ==> (if end {
                        j <= final(self).cursor
                    } else {
                        final(self).cursor <= j
                    })
            }),
    {
        let positions = caret_positions(self.text.as_str(), width);
        let ghost s = self.text@;
        let ghost w = wrap_width(width);
        let row = positions[self.cursor].0;
        let cursor = self.cursor;
        let mut found: usize = cursor;
        let mut seen = false;
        let mut j: usize = 0;
        while j < positions.len()
            invariant
                j <= positions@.len() == s.len() + 1,
                cursor <= s.len(),
                found <= s.len(),
                forall|i: int|
                    0 <= i <= s.len() ==> (#[trigger] positions@[i]).0 == caret_at(s, w, i as nat).0
                        && positions@[i].1 == caret_at(s, w, i as nat).1,
                row == caret_at(s, w, cursor as nat).0,
                caret_at(s, w, found as nat).0 == row,
                seen ==> found < j,
                !seen ==> found == cursor && forall|i: int| 0 <= i < j ==> #[trigger] caret_at(s, w, i as nat).0 != row,
                seen ==> forall|i: int|
                    0 <= i < j && #[trigger] caret_at(s, w, i as nat).0 == row ==> (if end {
                        i <= found
                    } else {
                        found <= i
                    }),
            decreases positions@.len() - j,
        {
            assert(positions@[j as int].0 == caret_at(s, w, j as nat).0);
            if positions[j].0 == row && (end || !seen) {
                found = j;
                seen = true;
            }
            j += 1;
        }
        self.cursor = found;
    }
}

/// A backward word move never moves the caret forward.
pub proof fn lemma_back_word_bounds(s: Seq<char>, k: int)
    requires
        0 <= k <= s.len(),
    ensures
        0 <= word_target(s, k, true) <= k,
{
    lemma_trim_end_bounds(s, k);
    let k1 = trim_end_at(s, k);
    if k1 > 0 {
        lemma_back_same_bounds(s, k1, is_word_char(s[k1 - 1]));
    }
}

proof fn lemma_trim_end_bounds(s: Seq<char>, k: int)
    requires
        0 <= k <= s.len(),
    ensures
        0 <= trim_end_at(s, k) <= k,
    decreases k,
{
    if k > 0 {
        lemma_trim_end_bounds(s, k - 1);
    }
}

proof fn lemma_back_same_bounds(s: Seq<char>, k: int, word: bool)
    requires
        0 <= k <= s.len(),
    ensures
        0 <= back_same(s, k, word) <= k,
    decreases k,
{
    if k > 0 {
        lemma_back_same_bounds(s, k - 1, word);
    }
}

/// `s[k..m]` is white space and `s[m..t]` is one run of non-white-space
/// characters of the class of `s[m]` (word or not), which the character at
/// `t`, if any, does not continue.
pub open spec fn spaced_run_forward(s: Seq<char>, k: int, m: int, t: int) -> bool {
    &&& 0 <= k <= m < t <= s.len()
    &&& forall|j: int| k <= j < m ==> is_ws(#[trigger] s[j])
    &&& forall|j: int|
        m <= j < t ==> !is_ws(#[trigger] s[j]) && is_word_char(s[j]) == is_word_char(s[m])
    &&& t == s.len() || is_ws(s[t]) || is_word_char(s[t]) != is_word_char(s[m])
}

/// `s[m..k]` is white space and `s[t..m]` is one run of non-white-space
/// characters of the class of `s[m - 1]`, which the character before `t`,
/// if any, does not continue.
pub open spec fn spaced_run_backward(s: Seq<char>, t: int, m: int, k: int) -> bool {
    &&& 0 <= t < m <= k <= s.len()
    &&& forall|j: int| m <= j < k ==> is_ws(#[trigger] s[j])
    &&& forall|j: int|
        t <= j < m ==> !is_ws(#[trigger] s[j]) && is_word_char(s[j]) == is_word_char(s[m - 1])
    &&& t == 0 || is_ws(s[t - 1]) || is_word_char(s[t - 1]) != is_word_char(s[m - 1])
}

proof fn lemma_skip_ws_forward(s: Seq<char>, k: int)
    requires
        0 <= k <= s.len(),
    ensures
        k <= skip_ws_forward(s, k) <= s.len(),
        forall|j: int| k <= j < skip_ws_forward(s, k) ==> is_ws(#[trigger] s[j]),
        skip_ws_forward(s, k) < s.len() ==> !is_ws(s[skip_ws_forward(s, k)]),
    decreases s.len() - k,
{
    if k < s.len() && is_ws(s[k]) {
        lemma_skip_ws_forward(s, k + 1);
    }
}

proof fn lemma_forward_same(s: Seq<char>, k: int, word: bool)
    requires
        0 <= k <= s.len(),
    ensures
        k <= forward_same(s, k, word) <= s.len(),
        forall|j: int|
            k <= j < forward_same(s, k, word) ==> !is_ws(#[trigger] s[j]) && is_word_char(s[j])
                == word,
        forward_same(s, k, word) < s.len() ==> is_ws(s[forward_same(s, k, word)]) || is_word_char(
            s[forward_same(s, k, word)],
        ) != word,
    decreases s.len() - k,
{
    if k < s.len() && !is_ws(s[k]) && is_word_char(s[k]) == word {
        lemma_forward_same(s, k + 1, word);
    }
}

proof fn lemma_trim_end_spaces(s: Seq<char>, k: int)
    requires
        0 <= k <= s.len(),
    ensures
        forall|j: int| trim_end_at(s, k) <= j < k ==> is_ws(#[trigger] s[j]),
        trim_end_at(s, k) > 0 ==> !is_ws(s[trim_end_at(s, k) - 1]),
    decreases k,
{
    if k > 0 && is_ws(s[k - 1]) {
        lemma_trim_end_spaces(s, k - 1);
    }
}

proof fn lemma_back_same(s: Seq<char>, k: int, word: bool)
    requires
        0 <= k <= s.len(),
    ensures
        forall|j: int|
            back_same(s, k, word) <= j < k ==> !is_ws(#[trigger] s[j]) && is_word_char(s[j])
                == word,
        back_same(s, k, word) > 0 ==> is_ws(s[back_same(s, k, word) - 1]) || is_word_char(
            s[back_same(s, k, word) - 1],
        ) != word,
    decreases k,
{
    if k > 0 && !is_ws(s[k - 1]) && is_word_char(s[k - 1]) == word {
        lemma_back_same(s, k - 1, word);
    }
}

/// A forward word move (Control or Alt with Right) lands at the end of the
/// next word: past any white space, then past the whole run of word
/// characters, or of other non-white-space characters, that follows; with
/// only white space left it lands at the end of the text.
pub proof fn lemma_word_right_lands_at_word_end(s: Seq<char>, k: int)
    requires
        0 <= k <= s.len(),
    ensures
        k <= word_target(s, k, false) <= s.len(),
        (forall|j: int| k <= j < s.len() ==> is_ws(#[trigger] s[j])) ==> word_target(s, k, false)
            == s.len(),
        (exists|j: int| k <= j < s.len() && !is_ws(#[trigger] s[j])) ==> exists|m: int|
            #[trigger] spaced_run_forward(s, k, m, word_target(s, k, false)),
{
    lemma_skip_ws_forward(s, k);
    let m = skip_ws_forward(s, k);
    if m < s.len() {
        lemma_forward_same(s, m, is_word_char(s[m]));
        assert(forward_same(s, m, is_word_char(s[m])) > m);
        assert(spaced_run_forward(s, k, m, word_target(s, k, false)));
    } else {
        assert forall|j: int| k <= j < s.len() implies is_ws(#[trigger] s[j]) by {}
    }
}

/// A backward word move (Control or Alt with Left) lands at the start of
/// the previous word: back over any white space, then over the whole run of
/// word characters, or of other non-white-space characters, before it; with
/// only white space before the caret it lands at the start of the text.
pub proof fn lemma_word_left_lands_at_word_start(s: Seq<char>, k: int)
    requires
        0 <= k <= s.len(),
    ensures
        0 <= word_target(s, k, true) <= k,
        (forall|j: int| 0 <= j < k ==> is_ws(#[trigger] s[j])) ==> word_target(s, k, true) == 0,
        (exists|j: int| 0 <= j < k && !is_ws(#[trigger] s[j])) ==> exists|m: int|
            #[trigger] spaced_run_backward(s, word_target(s, k, true), m, k),
{
    lemma_back_word_bounds(s, k);
    lemma_trim_end_bounds(s, k);
    lemma_trim_end_spaces(s, k);
    let m = trim_end_at(s, k);
    if m > 0 {
        lemma_back_same(s, m, is_word_char(s[m - 1]));
        lemma_back_same_bounds(s, m, is_word_char(s[m - 1]));
        assert(back_same(s, m, is_word_char(s[m - 1])) < m);
        assert(spaced_run_backward(s, word_target(s, k, true), m, k));
    } else {
        assert forall|j: int| 0 <= j < k implies is_ws(#[trigger] s[j]) by {}
    }
}

/// The characters that the label of `r` spans in `s`.
pub open spec fn label_text(s: Seq<char>, r: ReferenceInput) -> Seq<char> {
    s.subrange(char_index(s, r.label_start as int), char_index(s, r.label_end as int))
}

/// The label of `r` spans whole characters of `s`.
pub open spec fn label_in(s: Seq<char>, r: ReferenceInput) -> bool {
    &&& is_char_boundary(s, r.label_start as int)
    &&& is_char_boundary(s, r.label_end as int)
    &&& r.label_start <= r.label_end
}

/// The `[[label]]` token of `r` strictly surrounds byte `at`.
pub open spec fn token_surrounds(r: ReferenceInput, at: int) -> bool {
    r.label_start - 2 < at && at < r.label_end + 2 && !(r.label_start < 2 && at == 0)
}

/// How many of `refs` have a token that strictly surrounds byte `at`.
pub open spec fn surrounding_count(refs: Seq<ReferenceInput>, at: int) -> int
    decreases refs.len(),
{
    if refs.len() == 0 {
        0
    } else {
        surrounding_count(refs.drop_last(), at) + if token_surrounds(refs.last(), at) {
            1int
        } else {
            0int
        }
    }
}

/// Some reference of `refs` has the target of `r2`, and its label in `s`
/// spans the characters that the label of `r2` spans in `s2`.
pub open spec fn carried_over(s: Seq<char>, refs: Seq<ReferenceInput>, s2: Seq<char>, r2: ReferenceInput) -> bool {
    exists|i: int|
        0 <= i < refs.len() && refs[i].target_id == r2.target_id && label_text(s2, r2) == label_text(
            s,
            #[trigger] refs[i],
        )
}

proof fn lemma_boundary_prefix(s: Seq<char>, b: int, k: int)
    requires
        is_char_boundary(s, b),
        0 <= k <= s.len(),
    ensures
        0 <= char_index(s, b) <= s.len(),
        utf8_len(s.take(char_index(s, b))) == b,
        char_index(s, b) < k ==> b < utf8_len(s.take(k)),
        char_index(s, b) > k ==> b > utf8_len(s.take(k)),
{
    let j = char_index(s, b);
    if j < k {
        lemma_utf8_len_strictly_increasing(s, j, k);
    } else if j > k {
        lemma_utf8_len_strictly_increasing(s, k, j);
    }
}

proof fn lemma_inserted_prefix(s: Seq<char>, k: int, c: char, j: int)
    requires
        0 <= k <= s.len(),
        0 <= j <= s.len(),
    ensures
        j <= k ==> (s.take(k) + seq![c] + s.skip(k)).take(j) == s.take(j),
        j >= k ==> utf8_len((s.take(k) + seq![c] + s.skip(k)).take(j + 1)) == utf8_len(s.take(j))
            + char_len(c),
{
    let s2 = s.take(k) + seq![c] + s.skip(k);
    if j <= k {
        assert(s2.take(j) =~= s.take(j));
    }
    if j >= k {
        let mid = s.subrange(k, j);
        assert(s2.take(j + 1) =~= s.take(k) + (seq![c] + mid));
        assert(s.take(j) =~= s.take(k) + mid);
        lemma_utf8_len_concat(s.take(k), seq![c] + mid);
        lemma_utf8_len_concat(seq![c], mid);
        lemma_utf8_len_concat(s.take(k), mid);
        crate::text::lemma_utf8_len_single(c);
    }
}

proof fn lemma_label_before_insert(s: Seq<char>, k: int, c: char, r: ReferenceInput)
    requires
        0 <= k <= s.len(),
        label_in(s, r),
        r.label_end <= utf8_len(s.take(k)),
    ensures
        label_text(s.take(k) + seq![c] + s.skip(k), r) == label_text(s, r),
{
    let s2 = s.take(k) + seq![c] + s.skip(k);
    lemma_boundary_prefix(s, r.label_start as int, k);
    lemma_boundary_prefix(s, r.label_end as int, k);
    let js = char_index(s, r.label_start as int);
    let je = char_index(s, r.label_end as int);
    lemma_boundary_prefix(s, r.label_end as int, js);
    lemma_inserted_prefix(s, k, c, js);
    lemma_inserted_prefix(s, k, c, je);
    lemma_char_index(s2, r.label_start as int, js);
    lemma_char_index(s2, r.label_end as int, je);
    assert(s2.subrange(js, je) =~= s.subrange(js, je));
}

proof fn lemma_label_after_insert(s: Seq<char>, k: int, c: char, r: ReferenceInput)
    requires
        0 <= k <= s.len(),
        label_in(s, r),
        utf8_len(s.take(k)) <= r.label_start,
        utf8_len(s) + 4 <= usize::MAX,
    ensures
        label_text(
            s.take(k) + seq![c] + s.skip(k),
            ReferenceInput {
                label_start: (r.label_start + char_len(c)) as usize,
                label_end: (r.label_end + char_len(c)) as usize,
                target_id: r.target_id,
            },
        ) == label_text(s, r),
{
    let s2 = s.take(k) + seq![c] + s.skip(k);
    let r2 = ReferenceInput {
        label_start: (r.label_start + char_len(c)) as usize,
        label_end: (r.label_end + char_len(c)) as usize,
        target_id: r.target_id,
    };
    lemma_boundary_prefix(s, r.label_start as int, k);
    lemma_boundary_prefix(s, r.label_end as int, k);
    let js = char_index(s, r.label_start as int);
    let je = char_index(s, r.label_end as int);
    lemma_boundary_prefix(s, r.label_end as int, js);
    lemma_inserted_prefix(s, k, c, js);
    lemma_inserted_prefix(s, k, c, je);
    crate::text::lemma_utf8_len_prefix(s, je);
    assert(r2.label_start == r.label_start + char_len(c));
    assert(r2.label_end == r.label_end + char_len(c));
    lemma_char_index(s2, r2.label_start as int, js + 1);
    lemma_char_index(s2, r2.label_end as int, je + 1);
    assert(s2.subrange(js + 1, je + 1) =~= s.subrange(js, je));
}

/// Inserting a character keeps the references whose `[[label]]` token does
/// not surround the caret, and each kept label still spans the characters
/// it spanned before, now at their new place; the others are dropped.
pub proof fn lemma_insert_keeps_labels(s: Seq<char>, k: int, c: char, refs: Seq<ReferenceInput>)
    requires
        0 <= k <= s.len(),
        utf8_len(s) + 4 <= usize::MAX,
        forall|i: int| 0 <= i < refs.len() ==> label_in(s, #[trigger] refs[i]),
    ensures
        ({
            let s2 = s.take(k) + seq![c] + s.skip(k);
            let out = refs_after_insert(refs, byte_at(s, k), char_len(c) as int);
            &&& out.len() == refs.len() - surrounding_count(refs, byte_at(s, k))
            &&& forall|j: int| 0 <= j < out.len() ==> carried_over(s, refs, s2, #[trigger] out[j])
        }),
    decreases refs.len(),
{
    if refs.len() > 0 {
        let s2 = s.take(k) + seq![c] + s.skip(k);
        let at = byte_at(s, k);
        let prev = refs.drop_last();
        assert forall|i: int| 0 <= i < prev.len() implies label_in(s, #[trigger] prev[i]) by {
            assert(prev[i] == refs[i]);
        }
        lemma_insert_keeps_labels(s, k, c, prev);
        let rest = refs_after_insert(prev, at, char_len(c) as int);
        let out = refs_after_insert(refs, at, char_len(c) as int);
        let r = refs.last();
        assert(label_in(s, refs[refs.len() - 1]));
        crate::text::lemma_utf8_len_prefix(s, k);
        assert forall|j: int| 0 <= j < rest.len() implies carried_over(s, refs, s2, #[trigger] rest[j]) by {
            assert(carried_over(s, prev, s2, rest[j]));
            let i = choose|i: int|
                0 <= i < prev.len() && prev[i].target_id == rest[j].target_id && label_text(s2, rest[j])
                    == label_text(s, #[trigger] prev[i]);
            assert(prev[i] == refs[i]);
        }
        if at > minus_two(r.label_start) && at < plus_two(r.label_end) {
            assert(out == rest);
        } else if at <= minus_two(r.label_start) {
            lemma_boundary_prefix(s, r.label_end as int, s.len() as int);
            assert(s.take(s.len() as int) =~= s);
            lemma_label_after_insert(s, k, c, r);
            let r2 = out[out.len() - 1];
            assert(label_text(s2, r2) == label_text(s, refs[refs.len() - 1]));
            assert forall|j: int| 0 <= j < out.len() implies carried_over(s, refs, s2, #[trigger] out[j]) by {
                if j < rest.len() {
                    assert(out[j] == rest[j]);
                }
            }
        } else {
            lemma_label_before_insert(s, k, c, r);
            assert(label_text(s2, out[out.len() - 1]) == label_text(s, refs[refs.len() - 1]));
            assert forall|j: int| 0 <= j < out.len() implies carried_over(s, refs, s2, #[trigger] out[j]) by {
                if j < rest.len() {
                    assert(out[j] == rest[j]);
                }
            }
        }
    }
}

/// The `[[label]]` token of `r` overlaps the byte range `start..end` (the
/// token's end saturating at the largest byte offset).
pub open spec fn token_overlaps(r: ReferenceInput, start: int, end: int) -> bool {
    start < plus_two(r.label_end) && end > r.label_start - 2 && (r.label_start >= 2 || end > 0)
}

/// How many of `refs` have a token that overlaps `start..end`.
pub open spec fn overlapping_count(refs: Seq<ReferenceInput>, start: int, end: int) -> int
    decreases refs.len(),
{
    if refs.len() == 0 {
        0
    } else {
        overlapping_count(refs.drop_last(), start, end) + if token_overlaps(refs.last(), start, end) {
            1int
        } else {
            0int
        }
    }
}

proof fn lemma_removed_prefix(s: Seq<char>, k: int, k2: int, j: int)
    requires
        0 <= k <= k2 <= s.len(),
        0 <= j <= s.len(),
    ensures
        j <= k ==> (s.take(k) + s.skip(k2)).take(j) == s.take(j),
        j >= k2 ==> utf8_len((s.take(k) + s.skip(k2)).take(j - (k2 - k))) == utf8_len(s.take(j))
            - (utf8_len(s.take(k2)) - utf8_len(s.take(k))),
{
    let s2 = s.take(k) + s.skip(k2);
    if j <= k {
        assert(s2.take(j) =~= s.take(j));
    }
    if j >= k2 {
        let tail = s.subrange(k2, j);
        assert(s2.take(j - (k2 - k)) =~= s.take(k) + tail);
        assert(s.take(j) =~= s.take(k2) + tail);
        lemma_utf8_len_concat(s.take(k), tail);
        lemma_utf8_len_concat(s.take(k2), tail);
    }
}

proof fn lemma_label_before_removal(s: Seq<char>, k: int, k2: int, r: ReferenceInput)
    requires
        0 <= k <= k2 <= s.len(),
        label_in(s, r),
        r.label_end <= utf8_len(s.take(k)),
    ensures
        label_text(s.take(k) + s.skip(k2), r) == label_text(s, r),
{
    let s2 = s.take(k) + s.skip(k2);
    lemma_boundary_prefix(s, r.label_start as int, k);
    lemma_boundary_prefix(s, r.label_end as int, k);
    let js = char_index(s, r.label_start as int);
    let je = char_index(s, r.label_end as int);
    lemma_boundary_prefix(s, r.label_end as int, js);
    lemma_removed_prefix(s, k, k2, js);
    lemma_removed_prefix(s, k, k2, je);
    lemma_char_index(s2, r.label_start as int, js);
    lemma_char_index(s2, r.label_end as int, je);
    assert(s2.subrange(js, je) =~= s.subrange(js, je));
}

proof fn lemma_label_after_removal(s: Seq<char>, k: int, k2: int, r: ReferenceInput)
    requires
        0 <= k <= k2 <= s.len(),
        label_in(s, r),
        utf8_len(s.take(k2)) <= r.label_start,
    ensures
        ({
            let removed = utf8_len(s.take(k2)) - utf8_len(s.take(k));
            label_text(
                s.take(k) + s.skip(k2),
                ReferenceInput {
                    label_start: (r.label_start - removed) as usize,
                    label_end: (r.label_end - removed) as usize,
                    target_id: r.target_id,
                },
            ) == label_text(s, r)
        }),
{
    let s2 = s.take(k) + s.skip(k2);
    let removed = utf8_len(s.take(k2)) - utf8_len(s.take(k));
    let d = k2 - k;
    crate::text::lemma_utf8_len_prefix(s.take(k2), k);
    assert(s.take(k2).take(k) =~= s.take(k));
    let r2 = ReferenceInput {
        label_start: (r.label_start - removed) as usize,
        label_end: (r.label_end - removed) as usize,
        target_id: r.target_id,
    };
    lemma_boundary_prefix(s, r.label_start as int, k2);
    lemma_boundary_prefix(s, r.label_end as int, k2);
    let js = char_index(s, r.label_start as int);
    let je = char_index(s, r.label_end as int);
    lemma_boundary_prefix(s, r.label_end as int, js);
    lemma_removed_prefix(s, k, k2, js);
    lemma_removed_prefix(s, k, k2, je);
    assert(r2.label_start == r.label_start - removed);
    assert(r2.label_end == r.label_end - removed);
    lemma_char_index(s2, r2.label_start as int, js - d);
    lemma_char_index(s2, r2.label_end as int, je - d);
    assert(s2.subrange(js - d, je - d) =~= s.subrange(js, je));
}

/// Removing the characters `k..k2` keeps the references whose `[[label]]`
/// token does not overlap them, and each kept label still spans the
/// characters it spanned before, now at their new place; the others are
/// dropped.
pub proof fn lemma_removal_keeps_labels(s: Seq<char>, k: int, k2: int, refs: Seq<ReferenceInput>)
    requires
        0 <= k <= k2 <= s.len(),
        forall|i: int| 0 <= i < refs.len() ==> label_in(s, #[trigger] refs[i]),
    ensures
        ({
            let s2 = s.take(k) + s.skip(k2);
            let out = refs_after_remove(refs, byte_at(s, k), byte_at(s, k2));
            &&& out.len() == refs.len() - overlapping_count(refs, byte_at(s, k), byte_at(s, k2))
            &&& forall|j: int| 0 <= j < out.len() ==> carried_over(s, refs, s2, #[trigger] out[j])
        }),
    decreases refs.len(),
{
    if refs.len() > 0 {
        let s2 = s.take(k) + s.skip(k2);
        let start = byte_at(s, k);
        let end = byte_at(s, k2);
        let prev = refs.drop_last();
        assert forall|i: int| 0 <= i < prev.len() implies label_in(s, #[trigger] prev[i]) by {
            assert(prev[i] == refs[i]);
        }
        lemma_removal_keeps_labels(s, k, k2, prev);
        let rest = refs_after_remove(prev, start, end);
        let out = refs_after_remove(refs, start, end);
        let r = refs.last();
        assert(label_in(s, refs[refs.len() - 1]));
        if k < k2 {
            lemma_utf8_len_strictly_increasing(s, k, k2);
        }
        lemma_boundary_prefix(s, r.label_end as int, s.len() as int);
        assert(s.take(s.len() as int) =~= s);
        crate::text::lemma_utf8_len_prefix(s, k);
        assert forall|j: int| 0 <= j < rest.len() implies carried_over(s, refs, s2, #[trigger] rest[j]) by {
            assert(carried_over(s, prev, s2, rest[j]));
            let i = choose|i: int|
                0 <= i < prev.len() && prev[i].target_id == rest[j].target_id && label_text(s2, rest[j])
                    == label_text(s, #[trigger] prev[i]);
            assert(prev[i] == refs[i]);
        }
        if start < plus_two(r.label_end) && end > minus_two(r.label_start) {
            assert(out == rest);
        } else if end <= minus_two(r.label_start) {
            lemma_label_after_removal(s, k, k2, r);
            assert(label_text(s2, out[out.len() - 1]) == label_text(s, refs[refs.len() - 1]));
            assert forall|j: int| 0 <= j < out.len() implies carried_over(s, refs, s2, #[trigger] out[j]) by {
                if j < rest.len() {
                    assert(out[j] == rest[j]);
                }
            }
        } else {
            lemma_label_before_removal(s, k, k2, r);
            assert(label_text(s2, out[out.len() - 1]) == label_text(s, refs[refs.len() - 1]));
            assert forall|j: int| 0 <= j < out.len() implies carried_over(s, refs, s2, #[trigger] out[j]) by {
                if j < rest.len() {
                    assert(out[j] == rest[j]);
                }
            }
        }
    }
}

/// How the caret positions of a wrapped text follow one another: the
/// text starts at row 0, column 0; each character either advances the
/// column by its width on the same row or moves to the start of the next
/// row, which happens only when the row is full or the next character does
/// not fit; and a character that does not start a row fits on its row.
pub proof fn lemma_caret_layout(s: Seq<char>, width: nat, i: nat)
    requires
        width >= 1,
        i < s.len(),
    ensures
        caret_at(s, width, 0) == (0nat, 0nat),
        ({
            let a = caret_at(s, width, i);
            let b = caret_at(s, width, (i + 1) as nat);
            &&& (b.0 == a.0 && b.1 == a.1 + shown_width(s[i as int])) || (b.0 == a.0 + 1 && b.1 == 0)
            &&& b.0 == a.0 + 1 ==> (a.1 + shown_width(s[i as int]) == width || (i + 1 < s.len()
                && a.1 + shown_width(s[i as int]) + shown_width(s[i + 1int]) > width))
            &&& a.1 > 0 ==> a.1 + shown_width(s[i as int]) <= width
        }),
{
    let a = caret_at(s, width, i);
    if i > 0 {
        let p = caret_at(s, width, (i - 1) as nat);
        let before = (p.0, p.1 + shown_width(s[i - 1]));
        assert(a == before || a == (before.0 + 1, 0nat));
    }
}

} // verus!
