//! Applying an editor key to the open inline editor. What needs the outline
//! (persisting, moving to another bullet, opening prompts) is handed back to
//! the caller as an [`EditorFollowUp`].

use vstd::prelude::*;

use crate::editor::{
    byte_at, caret_at, closer, minus_two, plus_two, refs_after_insert, refs_after_remove,
    refs_within, target_row, word_target, wrap_width, EditTarget, Editor,
};
use crate::identity::NodeId;
use crate::model::{Node, NodeReference, Placement, ReferenceInput};
use crate::keys::EditorKeyAction;
use crate::text::{char_len, lemma_utf8_len_concat, lemma_utf8_len_prefix, lemma_utf8_len_single, utf8_len};

verus! {

/// What the caller does after an editor key was applied to the editor.
#[derive(Clone, Copy, Debug, PartialEq, Eq, Structural)]
pub enum EditorFollowUp {
    /// Nothing more: the key only changed the editor.
    Stay,
    /// Persist the text and leave the editor.
    Finish,
    /// Persist the text and zoom into the edited node.
    Zoom,
    /// Persist the text and continue with a sibling draft.
    CreateSibling,
    /// Move the edited node under its previous sibling.
    Indent,
    /// Move the edited node after its parent.
    Outdent,
    /// The caret is on the first visual line: edit the previous bullet.
    PreviousBullet,
    /// The caret is on the last visual line: edit the next bullet.
    NextBullet,
    /// Open tag completion for the edited node.
    Tag,
    /// `[[` was typed: open reference completion.
    Reference,
}

/// The two editors hold the same text, references, target and tags.
pub open spec fn same_content(before: Editor, after: Editor) -> bool {
    &&& after.text == before.text
    &&& after.references == before.references
    &&& after.target == before.target
    &&& after.tags == before.tags
}

/// `after` is `before` with `c` typed at the caret.
pub open spec fn typed_at_caret(before: Editor, after: Editor, c: char) -> bool {
    let k = before.cursor as int;
    &&& after.text@ == before.text@.take(k) + seq![c] + before.text@.skip(k)
    &&& after.cursor == before.cursor + 1
    &&& after.references@ == refs_after_insert(
        before.references@,
        byte_at(before.text@, k),
        char_len(c) as int,
    )
    &&& after.target == before.target
    &&& after.tags == before.tags
}

/// `after` is `before` without the character that precedes the caret
/// (unchanged at the start of the text).
pub open spec fn backspaced_at_caret(before: Editor, after: Editor) -> bool {
    let k = before.cursor as int;
    if k == 0 {
        after == before
    } else {
        &&& after.text@ == before.text@.take(k - 1) + before.text@.skip(k)
        &&& after.cursor == k - 1
        &&& after.references@ == refs_after_remove(
            before.references@,
            byte_at(before.text@, k - 1),
            byte_at(before.text@, k),
        )
        &&& after.target == before.target
        &&& after.tags == before.tags
    }
}

/// `after` is `before` without the character that follows the caret
/// (unchanged at the end of the text).
pub open spec fn deleted_at_caret(before: Editor, after: Editor) -> bool {
    let k = before.cursor as int;
    if k == before.text@.len() {
        after == before
    } else {
        &&& after.text@ == before.text@.take(k) + before.text@.skip(k + 1)
        &&& after.cursor == k
        &&& after.references@ == refs_after_remove(
            before.references@,
            byte_at(before.text@, k),
            byte_at(before.text@, k + 1),
        )
        &&& after.target == before.target
        &&& after.tags == before.tags
    }
}

/// `after` is `before` without the word before the caret.
pub open spec fn word_deleted(before: Editor, after: Editor) -> bool {
    let k = word_target(before.text@, before.cursor as int, true);
    &&& after.cursor == k
    &&& after.text@ == before.text@.take(k) + before.text@.skip(before.cursor as int)
    &&& after.references@ == (if k == before.cursor {
        before.references@
    } else {
        refs_after_remove(
            before.references@,
            byte_at(before.text@, k),
            byte_at(before.text@, before.cursor as int),
        )
    })
    &&& after.target == before.target
    &&& after.tags == before.tags
}

/// Whether the caret at `cursor` of `text` wrapped at `width` has a visual
/// line in `direction`.
pub open spec fn can_move_vertically(text: Seq<char>, cursor: usize, direction: isize, width: usize) -> bool {
    let w = wrap_width(width);
    let here = caret_at(text, w, cursor as nat);
    let target = target_row(here.0 as int, direction);
    target != here.0 && exists|j: int|
        0 <= j <= text.len() && #[trigger] caret_at(text, w, j as nat).0 == target
}

/// `after` has the caret of `before` moved one visual line in `direction`,
/// to the position of that line closest to its column, or left in place
/// where there is no such line.
pub open spec fn moved_vertically(before: Editor, after: Editor, direction: isize, width: usize) -> bool {
    let s = before.text@;
    let w = wrap_width(width);
    let here = caret_at(s, w, before.cursor as nat);
    let target = target_row(here.0 as int, direction);
    &&& same_content(before, after)
    &&& if can_move_vertically(s, before.cursor, direction, width) {
        &&& caret_at(s, w, after.cursor as nat).0 == target
        &&& forall|j: int|
            0 <= j <= s.len() && #[trigger] caret_at(s, w, j as nat).0 == target ==> closer(
                s,
                w,
                here.1 as int,
                before.cursor as int,
                after.cursor as int,
                j,
            )
    } else {
        after.cursor == before.cursor
    }
}

/// `after` has the caret of `before` at the start or, with `end`, the end
/// of its visual line.
pub open spec fn moved_to_edge(before: Editor, after: Editor, end: bool, width: usize) -> bool {
    let s = before.text@;
    let w = wrap_width(width);
    let row = caret_at(s, w, before.cursor as nat).0;
    &&& same_content(before, after)
    &&& caret_at(s, w, after.cursor as nat).0 == row
    &&& forall|j: int|
        0 <= j <= s.len() && #[trigger] caret_at(s, w, j as nat).0 == row ==> (if end {
            j <= after.cursor
        } else {
            after.cursor <= j
        })
}

/// Typing `[` right after a `[` opens reference completion.
pub open spec fn opens_reference(before: Editor, c: char) -> bool {
    c == '[' && before.cursor >= 1 && before.text@[before.cursor - 1] == '['
}

/// What the caller does after `action` on `before`, for actions that
/// leave the editor as it is.
pub open spec fn handed_over(action: EditorKeyAction) -> Option<EditorFollowUp> {
    match action {
        EditorKeyAction::Finish => Some(EditorFollowUp::Finish),
        EditorKeyAction::Zoom => Some(EditorFollowUp::Zoom),
        EditorKeyAction::CreateSibling => Some(EditorFollowUp::CreateSibling),
        EditorKeyAction::Indent => Some(EditorFollowUp::Indent),
        EditorKeyAction::Outdent => Some(EditorFollowUp::Outdent),
        EditorKeyAction::Tag => Some(EditorFollowUp::Tag),
        EditorKeyAction::Ignore => Some(EditorFollowUp::Stay),
        _ => None,
    }
}

/// What `action` does to the editor `before`, giving `after`, and what the
/// caller does next (`r`).
pub open spec fn editor_key_applied(
    before: Editor,
    after: Editor,
    action: EditorKeyAction,
    width: usize,
    r: EditorFollowUp,
) -> bool {
    match action {
        EditorKeyAction::LineUp => moved_vertically(before, after, -1isize, width) && r == (
        if can_move_vertically(before.text@, before.cursor, -1isize, width) {
            EditorFollowUp::Stay
        } else {
            EditorFollowUp::PreviousBullet
        }),
        EditorKeyAction::LineDown => moved_vertically(before, after, 1isize, width) && r == (
        if can_move_vertically(before.text@, before.cursor, 1isize, width) {
            EditorFollowUp::Stay
        } else {
            EditorFollowUp::NextBullet
        }),
        EditorKeyAction::WordLeft => same_content(before, after) && after.cursor == word_target(
            before.text@,
            before.cursor as int,
            true,
        ) && r == EditorFollowUp::Stay,
        EditorKeyAction::WordRight => same_content(before, after) && after.cursor == word_target(
            before.text@,
            before.cursor as int,
            false,
        ) && r == EditorFollowUp::Stay,
        EditorKeyAction::CharLeft => same_content(before, after) && after.cursor == (if before.cursor
            > 0 {
            before.cursor - 1
        } else {
            0
        }) && r == EditorFollowUp::Stay,
        EditorKeyAction::CharRight => same_content(before, after) && after.cursor == (
        if before.cursor < before.text@.len() {
            before.cursor + 1
        } else {
            before.text@.len() as int
        }) && r == EditorFollowUp::Stay,
        EditorKeyAction::TextStart => same_content(before, after) && after.cursor == 0 && r
            == EditorFollowUp::Stay,
        EditorKeyAction::TextEnd => same_content(before, after) && after.cursor
            == before.text@.len() && r == EditorFollowUp::Stay,
        EditorKeyAction::LineStart => moved_to_edge(before, after, false, width) && r
            == EditorFollowUp::Stay,
        EditorKeyAction::LineEnd => moved_to_edge(before, after, true, width) && r
            == EditorFollowUp::Stay,
        EditorKeyAction::DeleteWord => word_deleted(before, after) && r == EditorFollowUp::Stay,
        EditorKeyAction::Backspace => backspaced_at_caret(before, after) && r
            == EditorFollowUp::Stay,
        EditorKeyAction::Delete => deleted_at_caret(before, after) && r == EditorFollowUp::Stay,
        EditorKeyAction::Insert(c) => typed_at_caret(before, after, c) && r == (
        if opens_reference(before, c) {
            EditorFollowUp::Reference
        } else {
            EditorFollowUp::Stay
        }),
        _ => after == before && Some(r) == handed_over(action),
    }
}

impl Editor {
    /// Applies an editor key to the editor, with the text wrapped at `width`
    /// columns, and says what the caller does next.
    pub fn apply_key(&mut self, action: EditorKeyAction, width: usize) -> (r: EditorFollowUp)
        requires
            old(self).wf(),
            utf8_len(old(self).text@) + 4 <= usize::MAX,
            old(self).text@.len() <= usize::MAX / 4,
        ensures
            final(self).wf(),
            editor_key_applied(*old(self), *final(self), action, width, r),
    {
        match action {
            EditorKeyAction::LineUp => {
                if self.move_vertical(-1, width) {
                    EditorFollowUp::Stay
                } else {
                    EditorFollowUp::PreviousBullet
                }
            },
            EditorKeyAction::LineDown => {
                if self.move_vertical(1, width) {
                    EditorFollowUp::Stay
                } else {
                    EditorFollowUp::NextBullet
                }
            },
            EditorKeyAction::WordLeft => {
                self.move_word(-1);
                EditorFollowUp::Stay
            },
            EditorKeyAction::WordRight => {
                self.move_word(1);
                EditorFollowUp::Stay
            },
            EditorKeyAction::CharLeft => {
                self.cursor = self.cursor.saturating_sub(1);
                EditorFollowUp::Stay
            },
            EditorKeyAction::CharRight => {
                let len = self.text.as_str().unicode_len();
                if self.cursor < len {
                    self.cursor = self.cursor + 1;
                }
                EditorFollowUp::Stay
            },
            EditorKeyAction::TextStart => {
                self.cursor = 0;
                EditorFollowUp::Stay
            },
            EditorKeyAction::TextEnd => {
                self.cursor = self.text.as_str().unicode_len();
                EditorFollowUp::Stay
            },
            EditorKeyAction::LineStart => {
                self.move_to_visual_edge(false, width);
                EditorFollowUp::Stay
            },
            EditorKeyAction::LineEnd => {
                self.move_to_visual_edge(true, width);
                EditorFollowUp::Stay
            },
            EditorKeyAction::DeleteWord => {
                self.backspace_word();
                EditorFollowUp::Stay
            },
            EditorKeyAction::Backspace => {
                self.backspace();
                EditorFollowUp::Stay
            },
            EditorKeyAction::Delete => {
                self.delete();
                EditorFollowUp::Stay
            },
            EditorKeyAction::Insert(c) => {
                let reference = c == '[' && self.cursor >= 1 && self.text.as_str().get_char(
                    self.cursor - 1,
                ) == '[';
                self.insert(c);
                if reference {
                    EditorFollowUp::Reference
                } else {
                    EditorFollowUp::Stay
                }
            },
            EditorKeyAction::Finish => EditorFollowUp::Finish,
            EditorKeyAction::Zoom => EditorFollowUp::Zoom,
            EditorKeyAction::CreateSibling => EditorFollowUp::CreateSibling,
            EditorKeyAction::Indent => EditorFollowUp::Indent,
            EditorKeyAction::Outdent => EditorFollowUp::Outdent,
            EditorKeyAction::Tag => EditorFollowUp::Tag,
            EditorKeyAction::Ignore => EditorFollowUp::Stay,
        }
    }
}

/// Caret keys keep the text and move the caret as their names say: Left
/// and Right by one character within the text, Home and End with Control
/// to the text edges, and word moves never past where they started from
/// in the other direction; Left then Right comes back unless the caret was
/// at the start.
pub proof fn lemma_caret_keys(before: Editor, after: Editor, back: Editor, width: usize, r: EditorFollowUp, r2: EditorFollowUp)
    requires
        before.wf(),
    ensures
        editor_key_applied(before, after, EditorKeyAction::CharLeft, width, r) ==> after.text
            == before.text && (if before.cursor == 0 {
            after.cursor == 0
        } else {
            after.cursor + 1 == before.cursor
        }),
        editor_key_applied(before, after, EditorKeyAction::CharRight, width, r) ==> after.text
            == before.text && (if before.cursor == before.text@.len() {
            after.cursor == before.cursor
        } else {
            after.cursor == before.cursor + 1
        }),
        editor_key_applied(before, after, EditorKeyAction::TextStart, width, r) ==> after.text
            == before.text && after.cursor == 0,
        editor_key_applied(before, after, EditorKeyAction::TextEnd, width, r) ==> after.text
            == before.text && after.cursor == before.text@.len(),
        editor_key_applied(before, after, EditorKeyAction::WordLeft, width, r) ==> after.text
            == before.text && after.cursor <= before.cursor,
        editor_key_applied(before, after, EditorKeyAction::WordRight, width, r) ==> after.text
            == before.text && before.cursor <= after.cursor <= before.text@.len(),
        editor_key_applied(before, after, EditorKeyAction::CharLeft, width, r)
            && editor_key_applied(after, back, EditorKeyAction::CharRight, width, r2) && before.cursor
            > 0 ==> back.cursor == before.cursor,
{
    crate::editor::lemma_word_right_lands_at_word_end(before.text@, before.cursor as int);
    crate::editor::lemma_back_word_bounds(before.text@, before.cursor as int);
}

/// A reference label follows its `[[` and the byte `at` is not strictly
/// inside its `[[label]]` token.
pub open spec fn reference_clear_of(r: ReferenceInput, at: int) -> bool {
    &&& r.label_start >= 2
    &&& !(at > minus_two(r.label_start) && at < plus_two(r.label_end))
}

proof fn lemma_insert_then_remove(refs: Seq<ReferenceInput>, at: int, added: int, bound: int)
    requires
        0 <= at,
        1 <= added,
        refs_within(refs, bound),
        bound + added <= usize::MAX,
        forall|i: int| 0 <= i < refs.len() ==> reference_clear_of(#[trigger] refs[i], at),
    ensures
        refs_after_remove(refs_after_insert(refs, at, added), at, at + added) == refs,
    decreases refs.len(),
{
    if refs.len() > 0 {
        let prev = refs.drop_last();
        assert(refs_within(prev, bound)) by {
            assert forall|i: int| 0 <= i < prev.len() implies (#[trigger] prev[i]).label_start
                <= prev[i].label_end <= bound by {
                assert(prev[i] == refs[i]);
            }
        }
        assert forall|i: int| 0 <= i < prev.len() implies reference_clear_of(#[trigger] prev[i], at) by {
            assert(prev[i] == refs[i]);
        }
        lemma_insert_then_remove(prev, at, added, bound);
        let r = refs.last();
        assert(r == refs[refs.len() - 1]);
        assert(reference_clear_of(r, at));
        let inserted = refs_after_insert(refs, at, added);
        let rest = refs_after_insert(prev, at, added);
        if at <= minus_two(r.label_start) {
            let moved = ReferenceInput {
                label_start: (r.label_start + added) as usize,
                label_end: (r.label_end + added) as usize,
                target_id: r.target_id,
            };
            assert(inserted == rest.push(moved));
            assert(inserted.drop_last() =~= rest);
            assert(refs_after_remove(inserted, at, at + added) == refs_after_remove(rest, at, at
                + added).push(r));
        } else {
            assert(inserted == rest.push(r));
            assert(inserted.drop_last() =~= rest);
            assert(refs_after_remove(inserted, at, at + added) == refs_after_remove(rest, at, at
                + added).push(r));
        }
        assert(prev.push(r) =~= refs);
    }
}

/// Backspace right after typing a character gives back the editor from
/// before the character was typed: its text, caret, target and tags, and
/// its references when the caret was not inside a `[[label]]` token.
pub proof fn lemma_backspace_undoes_typing(before: Editor, typed: Editor, after: Editor, c: char)
    requires
        before.wf(),
        utf8_len(before.text@) + 4 <= usize::MAX,
        typed_at_caret(before, typed, c),
        backspaced_at_caret(typed, after),
    ensures
        after.text@ == before.text@,
        after.cursor == before.cursor,
        after.target == before.target,
        after.tags == before.tags,
        (forall|i: int|
            0 <= i < before.references@.len() ==> reference_clear_of(
                #[trigger] before.references@[i],
                byte_at(before.text@, before.cursor as int),
            )) ==> after.references@ == before.references@,
{
    let k = before.cursor as int;
    let s = before.text@;
    let t = typed.text@;
    assert(t.take(k) =~= s.take(k));
    assert(t.skip(k + 1) =~= s.skip(k));
    assert(s.take(k) + s.skip(k) =~= s);
    assert(t.take(k + 1) =~= s.take(k) + seq![c]);
    lemma_utf8_len_concat(s.take(k), seq![c]);
    lemma_utf8_len_single(c);
    lemma_utf8_len_prefix(s, k);
    let at = byte_at(s, k);
    assert(byte_at(t, k) == at);
    assert(byte_at(t, k + 1) == at + char_len(c));
    if forall|i: int|
        0 <= i < before.references@.len() ==> reference_clear_of(#[trigger] before.references@[i], at) {
        assert(char_len(c) >= 1);
        assert(char_len(c) <= 4);
        lemma_insert_then_remove(before.references@, at, char_len(c) as int, utf8_len(s) as int);
    }
}

/// Why a node cannot be opened in the editor.
pub const PROTECTED_NODE_MESSAGE: &'static str = "Protected Journal nodes cannot be edited";

/// The editable form of a resolved reference: its label range and target.
pub open spec fn reference_input_of(reference: NodeReference) -> ReferenceInput {
    ReferenceInput {
        label_start: reference.label_start,
        label_end: reference.label_end,
        target_id: reference.target_id,
    }
}

/// An editor on the text of `node`, with its references and tags and the
/// caret at the end; none for a protected system node.
pub fn editor_for_node(node: &Node) -> (r: Option<Editor>)
    ensures
        node.system is Some <==> r is None,
        r matches Some(e) ==> {
            &&& e.target == EditTarget::Existing(node.id)
            &&& e.text == node.text
            &&& e.cursor == node.text@.len()
            &&& e.references@ == node.references@.map_values(|x: NodeReference| reference_input_of(x))
            &&& e.tags@ == node.tags@
        },
{
    if node.system.is_some() {
        return None;
    }
    let mut references: Vec<ReferenceInput> = Vec::new();
    let mut i: usize = 0;
    while i < node.references.len()
        invariant
            i <= node.references@.len(),
            references@ == node.references@.take(i as int).map_values(
                |x: NodeReference| reference_input_of(x),
            ),
        decreases node.references@.len() - i,
    {
        let reference = &node.references[i];
        references.push(
            ReferenceInput {
                label_start: reference.label_start,
                label_end: reference.label_end,
                target_id: reference.target_id,
            },
        );
        assert(references@ =~= node.references@.take(i + 1).map_values(
            |x: NodeReference| reference_input_of(x),
        ));
        i += 1;
    }
    assert(node.references@.take(i as int) =~= node.references@);
    let mut tags: Vec<String> = Vec::new();
    let mut j: usize = 0;
    while j < node.tags.len()
        invariant
            j <= node.tags@.len(),
            tags@ == node.tags@.take(j as int),
        decreases node.tags@.len() - j,
    {
        tags.push(node.tags[j].clone());
        assert(tags@ =~= node.tags@.take(j + 1));
        j += 1;
    }
    assert(node.tags@.take(j as int) =~= node.tags@);
    Some(Editor::new(EditTarget::Existing(node.id), node.text.clone(), references, tags))
}

/// Where a new bullet typed next to the selection goes: after (or, with
/// `before`, before) the selected node among its siblings, or last (first)
/// under the focus when nothing is selected.
pub open spec fn sibling_target(selected: Option<(Option<NodeId>, NodeId)>, focus: Option<NodeId>, before: bool) -> EditTarget {
    match selected {
        Some((parent_id, id)) => EditTarget::New {
            parent_id,
            placement: if before {
                Placement::Before(id)
            } else {
                Placement::After(id)
            },
        },
        None => EditTarget::New {
            parent_id: focus,
            placement: if before {
                Placement::First
            } else {
                Placement::Last
            },
        },
    }
}

/// An empty editor for a new bullet next to the selected node (its parent
/// and identity), or under the focus when nothing is selected.
pub fn sibling_draft(selected: Option<(Option<NodeId>, NodeId)>, focus: Option<NodeId>, before: bool) -> (r: Editor)
    ensures
        r.target == sibling_target(selected, focus, before),
        r.text@.len() == 0,
        r.cursor == 0,
        r.references@.len() == 0,
        r.tags@.len() == 0,
        r.wf(),
{
    let target = match selected {
        Some((parent_id, id)) => EditTarget::New {
            parent_id,
            placement: if before {
                Placement::Before(id)
            } else {
                Placement::After(id)
            },
        },
        None => EditTarget::New {
            parent_id: focus,
            placement: if before {
                Placement::First
            } else {
                Placement::Last
            },
        },
    };
    Editor::empty(target)
}

} // verus!
