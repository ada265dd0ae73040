//! Selection moves in the outline and its backlinks, the focus title, and
//! the text handed over by a paste.

use vstd::prelude::*;

use crate::display::{find_visible, position_of, VisibleNode};
use crate::identity::NodeId;
use crate::model::Node;
use crate::text::{chars_of, push_char, replace_newlines, replace_newlines_spec};

verus! {

/// A selection move in the outline.
#[derive(Clone, Copy, Debug, PartialEq, Eq)]
pub struct SelectionStep {
    /// The newly selected node.
    pub selected: Option<NodeId>,
    /// Whether the move goes past the last node into the backlinks.
    pub into_backlinks: bool,
}

/// Index of the selected node among the visible ones, or zero.
pub open spec fn current_index(visible: Seq<VisibleNode>, selected: Option<NodeId>) -> int {
    match selected {
        Some(id) => match position_of(visible, id) {
            Some(i) => i,
            None => 0,
        },
        None => 0,
    }
}

/// `current` moved by `direction` rows, kept within `len` rows.
pub open spec fn stepped(current: int, direction: isize, len: int) -> int {
    let moved = if current + direction < 0 {
        0
    } else {
        current + direction
    };
    if moved <= len - 1 {
        moved
    } else {
        len - 1
    }
}

/// Moves the selection by `direction` visible rows: from the selected node
/// (the first one when none is visible), within the visible nodes; moving
/// down from the last node, or in an empty outline, goes on to the
/// backlinks.
pub open spec fn selection_step_spec(
    visible: Seq<VisibleNode>,
    selected: Option<NodeId>,
    direction: isize,
) -> SelectionStep {
    if visible.len() == 0 {
        SelectionStep { selected: None, into_backlinks: direction > 0 }
    } else {
        let current = current_index(visible, selected);
        let next = stepped(current, direction, visible.len() as int);
        SelectionStep {
            selected: Some(visible[next].node.id),
            into_backlinks: direction > 0 && next == current && current + 1 == visible.len(),
        }
    }
}

/// Moves the selection by `direction` visible rows.
pub fn step_selection(visible: &Vec<VisibleNode>, selected: Option<NodeId>, direction: isize) -> (r:
    SelectionStep)
    ensures
        r == selection_step_spec(visible@, selected, direction),
{
    let n = visible.len();
    if n == 0 {
        return SelectionStep { selected: None, into_backlinks: direction > 0 };
    }
    let current = match selected {
        Some(id) => match find_visible(visible, id) {
            Some(i) => i,
            None => 0,
        },
        None => 0,
    };
    let moved: usize = if direction < 0 {
        let back: usize = if direction == isize::MIN {
            (isize::MAX as usize) + 1
        } else {
            (-direction) as usize
        };
        current.saturating_sub(back)
    } else {
        current.saturating_add(direction as usize)
    };
    let next = if moved <= n - 1 {
        moved
    } else {
        n - 1
    };
    SelectionStep {
        selected: Some(visible[next].node.id),
        into_backlinks: direction > 0 && next == current && current + 1 == n,
    }
}

/// The selected backlink after a move by `direction`: up from the first
/// one leaves the backlinks, down stops at the last one.
pub open spec fn backlink_step_spec(selected: usize, direction: isize, len: usize) -> Option<usize> {
    if direction < 0 {
        if selected > 0 {
            Some((selected - 1) as usize)
        } else {
            None
        }
    } else if direction > 0 {
        let last: int = if len >= 1 {
            len - 1
        } else {
            0
        };
        Some(
            if selected + 1 <= last {
                (selected + 1) as usize
            } else {
                last as usize
            },
        )
    } else {
        Some(selected)
    }
}

/// The selected backlink after a move by `direction`.
pub fn step_backlink(selected: usize, direction: isize, len: usize) -> (r: Option<usize>)
    ensures
        r == backlink_step_spec(selected, direction, len),
{
    if direction < 0 {
        if selected > 0 {
            Some(selected - 1)
        } else {
            None
        }
    } else if direction > 0 {
        let last = len.saturating_sub(1);
        Some(
            if selected < last {
                selected + 1
            } else {
                last
            },
        )
    } else {
        Some(selected)
    }
}

/// The node selected by Home (`last` false) or End (`last` true).
pub fn edge_selection(visible: &Vec<VisibleNode>, last: bool) -> (r: Option<NodeId>)
    ensures
        visible@.len() == 0 ==> r is None,
        visible@.len() > 0 ==> r == Some(
            if last {
                visible@.last().node.id
            } else {
                visible@[0].node.id
            },
        ),
{
    let n = visible.len();
    if n == 0 {
        None
    } else if last {
        Some(visible[n - 1].node.id)
    } else {
        Some(visible[0].node.id)
    }
}

/// The title of a focus: `root`, then the text of each node of its path
/// (line breaks as spaces), separated by ` › `.
pub open spec fn focus_title(path: Seq<Node>) -> Seq<char>
    decreases path.len(),
{
    if path.len() == 0 {
        "root"@
    } else {
        focus_title(path.drop_last()) + " › "@ + replace_newlines_spec(path.last().text@, " "@)
    }
}

/// The title of the focus with the given path from the root.
pub fn focus_label(path: &Vec<Node>) -> (r: String)
    ensures
        r@ == focus_title(path@),
{
    let mut label = String::from_str("root");
    let mut i: usize = 0;
    assert(path@.take(0) =~= Seq::<Node>::empty());
    while i < path.len()
        invariant
            i <= path@.len(),
            label@ == focus_title(path@.take(i as int)),
        decreases path@.len() - i,
    {
        assert(path@.take(i + 1).drop_last() =~= path@.take(i as int));
        label.append(" › ");
        let flat = replace_newlines(path[i].text.as_str(), " ");
        label.append(flat.as_str());
        i += 1;
    }
    assert(path@.take(i as int) =~= path@);
    label
}

/// Pasted text on one line: `\r\n`, `\r` and `\n` each become one space.
pub open spec fn flattened(s: Seq<char>) -> Seq<char>
    decreases s.len(),
{
    if s.len() == 0 {
        seq![]
    } else if s.len() >= 2 && s[0] == '\r' && s[1] == '\n' {
        seq![' '] + flattened(s.skip(2))
    } else if s[0] == '\r' || s[0] == '\n' {
        seq![' '] + flattened(s.drop_first())
    } else {
        seq![s[0]] + flattened(s.drop_first())
    }
}

proof fn lemma_flattened_step(s: Seq<char>, i: int)
    requires
        0 <= i < s.len(),
    ensures
        flattened(s.skip(i)) == if i + 1 < s.len() && s[i] == '\r' && s[i + 1] == '\n' {
            seq![' '] + flattened(s.skip(i + 2))
        } else if s[i] == '\r' || s[i] == '\n' {
            seq![' '] + flattened(s.skip(i + 1))
        } else {
            seq![s[i]] + flattened(s.skip(i + 1))
        },
{
    let t = s.skip(i);
    assert(t[0] == s[i]);
    if t.len() >= 2 {
        assert(t[1] == s[i + 1]);
        assert(t.skip(2) =~= s.skip(i + 2));
    }
    assert(t.drop_first() =~= s.skip(i + 1));
}

/// Pasted text on one line, as the client inserts it.
pub fn flatten_line_breaks(text: &str) -> (r: String)
    ensures
        r@ == flattened(text@),
{
    let chars = chars_of(text);
    let n = chars.len();
    let mut r = String::new();
    let mut i: usize = 0;
    assert(text@.skip(0) =~= text@);
    while i < n
        invariant
            i <= n == chars@.len() == text@.len(),
            chars@ == text@,
            r@ + flattened(text@.skip(i as int)) == flattened(text@),
        decreases n - i,
    {
        proof {
            lemma_flattened_step(text@, i as int);
        }
        let ghost before = r@;
        if i + 1 < n && chars[i] == '\r' && chars[i + 1] == '\n' {
            push_char(&mut r, ' ');
            assert(r@ + flattened(text@.skip(i + 2)) =~= before + flattened(text@.skip(i as int)));
            i += 2;
        } else {
            if chars[i] == '\r' || chars[i] == '\n' {
                push_char(&mut r, ' ');
            } else {
                push_char(&mut r, chars[i]);
            }
            assert(r@ + flattened(text@.skip(i + 1)) =~= before + flattened(text@.skip(i as int)));
            i += 1;
        }
    }
    assert(text@.skip(n as int) =~= Seq::<char>::empty());
    assert(r@ =~= flattened(text@));
    r
}

/// The characters of pasted text that extend a tag query: neither white
/// space nor `#`.
pub open spec fn tag_chars(s: Seq<char>) -> Seq<char>
    decreases s.len(),
{
    if s.len() == 0 {
        seq![]
    } else if crate::text::is_ws(s.last()) || s.last() == '#' {
        tag_chars(s.drop_last())
    } else {
        tag_chars(s.drop_last()).push(s.last())
    }
}

/// The characters of pasted text that extend a tag query.
pub fn tag_query_chars(text: &str) -> (r: String)
    ensures
        r@ == tag_chars(text@),
{
    let chars = chars_of(text);
    let mut r = String::new();
    let mut i: usize = 0;
    assert(text@.take(0) =~= Seq::<char>::empty());
    while i < chars.len()
        invariant
            i <= chars@.len(),
            chars@ == text@,
            r@ == tag_chars(text@.take(i as int)),
        decreases chars@.len() - i,
    {
        assert(text@.take(i + 1).drop_last() =~= text@.take(i as int));
        let c = chars[i];
        if !crate::text::is_whitespace(c) && c != '#' {
            push_char(&mut r, c);
        }
        i += 1;
    }
    assert(text@.take(i as int) =~= text@);
    r
}

/// Whether row `k` is a candidate for the editor to move to from row
/// `index`.
pub open spec fn editable_toward(visible: Seq<VisibleNode>, index: int, backwards: bool, k: int) -> bool {
    0 <= k < visible.len() && (if backwards {
        k < index
    } else {
        k > index
    }) && visible[k].node.system is None
}

/// The node the editor moves to from row `index` when the caret leaves its
/// first (`backwards`) or last line: the closest row in that direction
/// whose node can be edited.
pub fn adjacent_editable(visible: &Vec<VisibleNode>, index: usize, backwards: bool) -> (r: Option<usize>)
    requires
        index < visible@.len(),
    ensures
        match r {
            Some(k) => editable_toward(visible@, index as int, backwards, k as int) && forall|j: int|
                #[trigger] editable_toward(visible@, index as int, backwards, j) ==> (if backwards {
                    j <= k
                } else {
                    k <= j
                }),
            None => forall|j: int| !#[trigger] editable_toward(visible@, index as int, backwards, j),
        },
{
    if backwards {
        let mut k = index;
        while k > 0
            invariant
                k <= index < visible@.len(),
                backwards,
                forall|j: int| k <= j < index ==> !#[trigger] editable_toward(visible@, index as int, backwards, j),
            decreases k,
        {
            if visible[k - 1].node.system.is_none() {
                return Some(k - 1);
            }
            k -= 1;
        }
        None
    } else {
        let n = visible.len();
        let mut k = index + 1;
        while k < n
            invariant
                n == visible@.len(),
                index < k <= visible@.len(),
                !backwards,
                forall|j: int| index < j < k ==> !#[trigger] editable_toward(visible@, index as int, backwards, j),
            decreases visible@.len() - k,
        {
            if visible[k].node.system.is_none() {
                return Some(k);
            }
            k += 1;
        }
        None
    }
}

/// The node that Enter opens in the backlinks: the referencing node at the
/// end of the selected context.
pub fn backlink_target(view: &crate::prompts::BacklinkView) -> (r: Option<NodeId>)
    ensures
        r == (match view.selected {
            Some(k) => if k < view.contexts@.len() && view.contexts@[k as int]@.len() > 0 {
                Some(view.contexts@[k as int]@.last().id)
            } else {
                None
            },
            None => None,
        }),
{
    match view.selected {
        Some(k) => if k < view.contexts.len() && view.contexts[k].len() > 0 {
            let n = view.contexts[k].len();
            Some(view.contexts[k][n - 1].id)
        } else {
            None
        },
        None => None,
    }
}

} // verus!
