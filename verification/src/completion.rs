//! Inline `[[reference]]` completion inside the editor.

use vstd::prelude::*;

use crate::editor::{byte_at, refs_after_insert, refs_after_remove, refs_after_text, Editor};
use crate::identity::NodeId;
use crate::keys::{Key, KeyCode};
use crate::model::{Node, ReferenceInput};
use crate::prompts::{next_index, previous_index, without_last_char, ReferencePrompt};
use crate::text::{char_len, char_to_byte, chars_of, lemma_utf8_len_concat, push_char, utf8_len};

verus! {

/// The text, caret and references of an editor.
pub type EditorState = (Seq<char>, int, Seq<ReferenceInput>);

/// The text, caret and references of an editor.
pub open spec fn editor_state(editor: Editor) -> EditorState {
    (editor.text@, editor.cursor as int, editor.references@)
}

/// The state after typing `c` at the caret.
pub open spec fn typed(st: EditorState, c: char) -> EditorState {
    let (text, cursor, refs) = st;
    (
        text.take(cursor) + seq![c] + text.skip(cursor),
        cursor + 1,
        refs_after_insert(refs, byte_at(text, cursor), char_len(c) as int),
    )
}

/// The state after removing the character before the caret.
pub open spec fn backspaced(st: EditorState) -> EditorState {
    let (text, cursor, refs) = st;
    if cursor == 0 {
        st
    } else {
        (
            text.take(cursor - 1) + text.skip(cursor),
            cursor - 1,
            refs_after_remove(refs, byte_at(text, cursor - 1), byte_at(text, cursor)),
        )
    }
}

/// The state after `n` backspaces.
pub open spec fn backspaced_times(st: EditorState, n: nat) -> EditorState
    decreases n,
{
    if n == 0 {
        st
    } else {
        backspaced(backspaced_times(st, (n - 1) as nat))
    }
}

/// The state after typing the characters of `s` one by one.
pub open spec fn typed_all(st: EditorState, s: Seq<char>) -> EditorState
    decreases s.len(),
{
    if s.len() == 0 {
        st
    } else {
        typed(typed_all(st, s.drop_last()), s.last())
    }
}

/// The state after completing a reference: with a chosen target, the typed
/// query is replaced by the target's text, closed with `]]`, and a reference
/// to the target covers that label; without one, `]]` closes the literal.
pub open spec fn completed(st: EditorState, query_len: nat, target: Option<(Seq<char>, NodeId)>) -> EditorState {
    match target {
        Some((label, id)) => {
            let a = backspaced_times(st, query_len);
            let start = byte_at(a.0, a.1);
            let b = typed_all(a, label);
            let end = byte_at(b.0, b.1);
            let c = typed_all(b, seq![']', ']']);
            (
                c.0,
                c.1,
                c.2.push(
                    ReferenceInput {
                        label_start: start as usize,
                        label_end: end as usize,
                        target_id: id,
                    },
                ),
            )
        },
        None => typed_all(st, seq![']', ']']),
    }
}

/// The target chosen in a reference prompt: the selected result's text and
/// identity.
pub open spec fn chosen_target(prompt: ReferencePrompt) -> Option<(Seq<char>, NodeId)> {
    if prompt.selected < prompt.results@.len() {
        let node = prompt.results@[prompt.selected as int];
        Some((node.text@, node.id))
    } else {
        None
    }
}

proof fn lemma_typed_all(text: Seq<char>, cursor: int, refs: Seq<ReferenceInput>, s: Seq<char>)
    requires
        0 <= cursor <= text.len(),
    ensures
        typed_all((text, cursor, refs), s).0 == text.take(cursor) + s + text.skip(cursor),
        typed_all((text, cursor, refs), s).1 == cursor + s.len(),
    decreases s.len(),
{
    if s.len() > 0 {
        let rest = s.drop_last();
        lemma_typed_all(text, cursor, refs, rest);
        let t1 = typed_all((text, cursor, refs), rest).0;
        let c1 = typed_all((text, cursor, refs), rest).1;
        assert(t1.take(c1) =~= text.take(cursor) + rest);
        assert(t1.skip(c1) =~= text.skip(cursor));
        assert(text.take(cursor) + rest + seq![s.last()] + text.skip(cursor) =~= text.take(cursor)
            + s + text.skip(cursor));
    }
}

proof fn lemma_typed_len(text: Seq<char>, k: int, c: char)
    requires
        0 <= k <= text.len(),
    ensures
        utf8_len(text.take(k) + seq![c] + text.skip(k)) == utf8_len(text) + char_len(c),
{
    lemma_utf8_len_concat(text.take(k) + seq![c], text.skip(k));
    lemma_utf8_len_concat(text.take(k), seq![c]);
    lemma_utf8_len_concat(text.take(k), text.skip(k));
    assert(text =~= text.take(k) + text.skip(k));
    crate::text::lemma_utf8_len_single(c);
}

proof fn lemma_backspaced_len(text: Seq<char>, k: int)
    requires
        0 < k <= text.len(),
    ensures
        utf8_len(text.take(k - 1) + text.skip(k)) <= utf8_len(text),
{
    lemma_utf8_len_concat(text.take(k - 1), text.skip(k));
    lemma_utf8_len_concat(text.take(k - 1), text.skip(k - 1));
    assert(text =~= text.take(k - 1) + text.skip(k - 1));
    assert(text.skip(k - 1) =~= seq![text[k - 1]] + text.skip(k));
    lemma_utf8_len_concat(seq![text[k - 1]], text.skip(k));
}

fn type_char(editor: &mut Editor, c: char)
    requires
        old(editor).wf(),
        utf8_len(old(editor).text@) + 4 <= usize::MAX,
    ensures
        final(editor).wf(),
        editor_state(*final(editor)) == typed(editor_state(*old(editor)), c),
        utf8_len(final(editor).text@) == utf8_len(old(editor).text@) + char_len(c),
        final(editor).target == old(editor).target,
        final(editor).tags == old(editor).tags,
{
    editor.insert(c);
    proof {
        lemma_typed_len(old(editor).text@, old(editor).cursor as int, c);
    }
}

fn type_text(editor: &mut Editor, text: &str)
    requires
        old(editor).wf(),
        utf8_len(old(editor).text@) + 4 * text@.len() + 4 <= usize::MAX,
    ensures
        final(editor).wf(),
        editor_state(*final(editor)) == typed_all(editor_state(*old(editor)), text@),
        utf8_len(final(editor).text@) <= utf8_len(old(editor).text@) + 4 * text@.len(),
        final(editor).target == old(editor).target,
        final(editor).tags == old(editor).tags,
{
    let chars = chars_of(text);
    let ghost start = editor_state(*editor);
    let ghost base = utf8_len(editor.text@);
    let mut i: usize = 0;
    assert(text@.take(0) =~= Seq::<char>::empty());
    while i < chars.len()
        invariant
            i <= chars@.len(),
            chars@ == text@,
            editor.wf(),
            editor_state(*editor) == typed_all(start, text@.take(i as int)),
            utf8_len(editor.text@) <= base + 4 * i,
            base + 4 * text@.len() + 4 <= usize::MAX,
            editor.target == old(editor).target,
            editor.tags == old(editor).tags,
        decreases chars@.len() - i,
    {
        assert(text@.take(i + 1).drop_last() =~= text@.take(i as int));
        type_char(editor, chars[i]);
        proof {
            crate::text::lemma_utf8_len_single(chars@[i as int]);
        }
        i += 1;
    }
    assert(text@.take(i as int) =~= text@);
}

fn erase(editor: &mut Editor, count: usize)
    requires
        old(editor).wf(),
        utf8_len(old(editor).text@) <= usize::MAX,
    ensures
        final(editor).wf(),
        editor_state(*final(editor)) == backspaced_times(editor_state(*old(editor)), count as nat),
        utf8_len(final(editor).text@) <= utf8_len(old(editor).text@),
        final(editor).target == old(editor).target,
        final(editor).tags == old(editor).tags,
{
    let ghost start = editor_state(*editor);
    let ghost base = utf8_len(editor.text@);
    let mut done: usize = 0;
    while done < count
        invariant
            done <= count,
            editor.wf(),
            base <= usize::MAX,
            editor_state(*editor) == backspaced_times(start, done as nat),
            utf8_len(editor.text@) <= base,
            editor.target == old(editor).target,
            editor.tags == old(editor).tags,
        decreases count - done,
    {
        let ghost before = *editor;
        editor.backspace();
        proof {
            if before.cursor > 0 {
                lemma_backspaced_len(before.text@, before.cursor as int);
            }
        }
        done += 1;
    }
}

/// Completes the reference typed after `[[`: with a selected result, the
/// query is replaced by the result's text, closed with `]]`, and a stable
/// reference to it covers the label; without one, `]]` closes the literal
/// text.
pub fn commit_reference(editor: &mut Editor, prompt: &ReferencePrompt)
    requires
        old(editor).wf(),
        prompt.selected < prompt.results@.len() ==> utf8_len(old(editor).text@) + 4
            * prompt.results@[prompt.selected as int].text@.len() + 16 <= usize::MAX,
        utf8_len(old(editor).text@) + 16 <= usize::MAX,
    ensures
        final(editor).wf(),
        editor_state(*final(editor)) == completed(
            editor_state(*old(editor)),
            prompt.query@.len(),
            chosen_target(*prompt),
        ),
        final(editor).target == old(editor).target,
        final(editor).tags == old(editor).tags,
{
    let ghost start = editor_state(*editor);
    if prompt.selected < prompt.results.len() {
        let target = &prompt.results[prompt.selected];
        let count = prompt.query.as_str().unicode_len();
        erase(editor, count);
        let ghost a = editor_state(*editor);
        assert(a == backspaced_times(start, prompt.query@.len()));
        let label_start = char_to_byte(editor.text.as_str(), editor.cursor);
        proof {
            assert(editor.text@.take(editor.cursor as int) =~= editor.text@.take(
                if editor.cursor <= editor.text@.len() {
                    editor.cursor as int
                } else {
                    editor.text@.len() as int
                },
            ));
        }
        type_text(editor, target.text.as_str());
        let ghost b = editor_state(*editor);
        proof {
            lemma_typed_all(a.0, a.1, a.2, target.text@);
            assert(b.0.take(b.1) =~= a.0.take(a.1) + target.text@);
            lemma_utf8_len_concat(a.0.take(a.1), target.text@);
        }
        let label_end = char_to_byte(editor.text.as_str(), editor.cursor);
        proof {
            assert(editor.text@.take(editor.cursor as int) =~= editor.text@.take(
                if editor.cursor <= editor.text@.len() {
                    editor.cursor as int
                } else {
                    editor.text@.len() as int
                },
            ));
        }
        proof {
            reveal_strlit("]]");
            assert("]]"@ =~= seq![']', ']']);
        }
        type_text(editor, "]]");
        proof {
            lemma_typed_all(b.0, b.1, b.2, seq![']', ']']);
            let t = editor.text@;
            assert(t =~= b.0.take(b.1) + (seq![']', ']'] + b.0.skip(b.1)));
            lemma_utf8_len_concat(b.0.take(b.1), seq![']', ']'] + b.0.skip(b.1));
        }
        let ghost refs_before = editor.references@;
        editor.references.push(ReferenceInput { label_start, label_end, target_id: target.id });
        proof {
            assert forall|i: int| 0 <= i < editor.references@.len() implies (
            #[trigger] editor.references@[i]).label_start <= editor.references@[i].label_end
                <= utf8_len(editor.text@) by {
                if i < refs_before.len() {
                    assert(editor.references@[i] == refs_before[i]);
                }
            }
        }
    } else {
        proof {
            reveal_strlit("]]");
            assert("]]"@ =~= seq![']', ']']);
        }
        type_text(editor, "]]");
    }
}

/// What the session must do after a key in reference completion.
#[derive(Clone, Copy, Debug, PartialEq, Eq, Structural)]
pub enum ReferenceOutcome {
    /// Nothing more.
    Nothing,
    /// The query changed: search again.
    Refresh,
    /// Complete the reference with the selected result.
    Commit,
    /// Close the prompt, keeping the literal text.
    Close,
}

/// Handles a key in reference completion: Escape closes, Enter and Tab
/// complete, the arrows move the selection, Backspace removes a character
/// from the editor and the query (closing the prompt when the query is
/// empty), `]` is typed and closes the prompt, and plain characters are
/// typed into both.
pub fn reference_key(prompt: &mut ReferencePrompt, editor: &mut Editor, key: Key) -> (outcome:
    ReferenceOutcome)
    requires
        old(editor).wf(),
        utf8_len(old(editor).text@) + 4 <= usize::MAX,
    ensures
        final(editor).wf(),
        final(prompt).results == old(prompt).results,
        final(editor).target == old(editor).target,
        final(editor).tags == old(editor).tags,
        match key.code {
            KeyCode::Esc => outcome == ReferenceOutcome::Close && *final(prompt) == *old(prompt)
                && *final(editor) == *old(editor),
            KeyCode::Enter | KeyCode::Tab => outcome == ReferenceOutcome::Commit && *final(prompt)
                == *old(prompt) && *final(editor) == *old(editor),
            KeyCode::Up => outcome == ReferenceOutcome::Nothing && final(prompt).selected
                == previous_index(old(prompt).selected) && final(prompt).query == old(prompt).query
                && *final(editor) == *old(editor),
            KeyCode::Down => outcome == ReferenceOutcome::Nothing && final(prompt).selected
                == next_index(old(prompt).selected, old(prompt).results@.len()) && final(prompt).query == old(prompt).query && *final(editor) == *old(editor),
            KeyCode::Backspace => editor_state(*final(editor)) == backspaced(
                editor_state(*old(editor)),
            ) && final(prompt).selected == old(prompt).selected && if old(prompt).query@.len()
                == 0 {
                outcome == ReferenceOutcome::Close && final(prompt).query == old(prompt).query
            } else {
                outcome == ReferenceOutcome::Refresh && final(prompt).query@ == old(prompt).query@.drop_last()
            },
            KeyCode::Char(c) => if c == ']' {
                outcome == ReferenceOutcome::Close && editor_state(*final(editor)) == typed(
                    editor_state(*old(editor)),
                    c,
                ) && *final(prompt) == *old(prompt)
            } else if key.is_shortcut() {
                outcome == ReferenceOutcome::Nothing && *final(prompt) == *old(prompt)
                    && *final(editor) == *old(editor)
            } else {
                outcome == ReferenceOutcome::Refresh && editor_state(*final(editor)) == typed(
                    editor_state(*old(editor)),
                    c,
                ) && final(prompt).query@ == old(prompt).query@.push(c) && final(prompt).selected
                    == old(prompt).selected
            },
            _ => outcome == ReferenceOutcome::Nothing && *final(prompt) == *old(prompt)
                && *final(editor) == *old(editor),
        },
{
    match key.code {
        KeyCode::Esc => ReferenceOutcome::Close,
        KeyCode::Enter | KeyCode::Tab => ReferenceOutcome::Commit,
        KeyCode::Up => {
            prompt.selected = prompt.selected.saturating_sub(1);
            ReferenceOutcome::Nothing
        },
        KeyCode::Down => {
            let last = prompt.results.len().saturating_sub(1);
            prompt.selected = if prompt.selected < last {
                prompt.selected + 1
            } else {
                last
            };
            ReferenceOutcome::Nothing
        },
        KeyCode::Backspace => {
            let empty = prompt.query.as_str().unicode_len() == 0;
            editor.backspace();
            if empty {
                ReferenceOutcome::Close
            } else {
                prompt.query = without_last_char(prompt.query.as_str());
                ReferenceOutcome::Refresh
            }
        },
        KeyCode::Char(c) => {
            if c == ']' {
                type_char(editor, c);
                ReferenceOutcome::Close
            } else if key.shortcut() {
                ReferenceOutcome::Nothing
            } else {
                type_char(editor, c);
                push_char(&mut prompt.query, c);
                ReferenceOutcome::Refresh
            }
        },
        _ => ReferenceOutcome::Nothing,
    }
}

/// Index of the first `]` of `s`, if any.
pub open spec fn first_closing(s: Seq<char>) -> Option<int>
    decreases s.len(),
{
    if s.len() == 0 {
        None
    } else {
        match first_closing(s.drop_last()) {
            Some(k) => Some(k),
            None => if s.last() == ']' {
                Some(s.len() - 1)
            } else {
                None
            },
        }
    }
}

/// Pastes text (already on one line) while reference completion is open:
/// the editor gets all of it; the query gets what comes before the first
/// `]`, which closes the prompt, or all of it. Returns whether the prompt
/// closes.
pub fn paste_into_reference(prompt: &mut ReferencePrompt, editor: &mut Editor, pasted: &str) -> (closed: bool)
    requires
        old(editor).wf(),
        utf8_len(old(editor).text@) + utf8_len(pasted@) + 4 <= usize::MAX,
    ensures
        final(editor).wf(),
        final(editor).text@ == old(editor).text@.take(old(editor).cursor as int) + pasted@ + old(
            editor,
        ).text@.skip(old(editor).cursor as int),
        final(editor).cursor == old(editor).cursor + pasted@.len(),
        final(editor).references@ == refs_after_text(
            old(editor).references@,
            byte_at(old(editor).text@, old(editor).cursor as int),
            pasted@,
        ),
        final(editor).target == old(editor).target,
        final(editor).tags == old(editor).tags,
        final(prompt).results == old(prompt).results,
        final(prompt).selected == old(prompt).selected,
        closed == first_closing(pasted@) is Some,
        final(prompt).query@ == old(prompt).query@ + match first_closing(pasted@) {
            Some(k) => pasted@.take(k),
            None => pasted@,
        },
{
    editor.insert_text(pasted);
    let chars = chars_of(pasted);
    let mut k: usize = 0;
    assert(pasted@.take(0) =~= Seq::<char>::empty());
    while k < chars.len() && chars[k] != ']'
        invariant
            k <= chars@.len(),
            chars@ == pasted@,
            first_closing(pasted@.take(k as int)) is None,
        decreases chars@.len() - k,
    {
        assert(pasted@.take(k + 1).drop_last() =~= pasted@.take(k as int));
        k += 1;
    }
    let closed = k < chars.len();
    if closed {
        assert(pasted@.take(k + 1).drop_last() =~= pasted@.take(k as int));
        proof {
            lemma_first_closing_prefix(pasted@, k + 1);
        }
    } else {
        assert(pasted@.take(k as int) =~= pasted@);
    }
    let mut i: usize = 0;
    while i < k
        invariant
            i <= k <= chars@.len(),
            chars@ == pasted@,
            prompt.query@ == old(prompt).query@ + pasted@.take(i as int),
            prompt.results == old(prompt).results,
            prompt.selected == old(prompt).selected,
        decreases k - i,
    {
        push_char(&mut prompt.query, chars[i]);
        assert(pasted@.take(i + 1) =~= pasted@.take(i as int).push(chars@[i as int]));
        i += 1;
    }
    closed
}

proof fn lemma_first_closing_prefix(s: Seq<char>, n: int)
    requires
        0 <= n <= s.len(),
        first_closing(s.take(n)) is Some,
    ensures
        first_closing(s) == first_closing(s.take(n)),
    decreases s.len() - n,
{
    if n < s.len() {
        assert(s.take(n + 1).drop_last() =~= s.take(n));
        lemma_first_closing_prefix(s, n + 1);
    } else {
        assert(s.take(n) =~= s);
    }
}

} // verus!
