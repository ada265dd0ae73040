//! The decisions of structural edits: where an indented or outdented bullet
//! or draft goes, and what the outline shows after a new node is created.

use vstd::prelude::*;

use crate::editor::EditTarget;
use crate::identity::NodeId;
use crate::model::{Node, Placement};
use crate::prompts::{has_infix, occurs};
use crate::display::VisibleNode;
use crate::text::{chars_of, concat3, decimal, decimal_text};
use crate::cache::keys_distinct;
use crate::outline::node_ids_distinct;
use crate::visible::{branch_index, find_branch, same_key, Branches};

verus! {

/// Why a protected node stays where it is.
pub const PROTECTED_MOVE_MESSAGE: &'static str = "Protected Journal nodes cannot be moved";

/// Why a bullet without a previous sibling is not indented.
pub const NO_PREVIOUS_SIBLING_MESSAGE: &'static str = "There is no previous sibling to indent under";

/// Why a root bullet is not outdented.
pub const AT_ROOT_MESSAGE: &'static str = "The node is already at the root";

/// Why a draft at the focus level is not outdented.
pub const AT_OUTLINE_LEVEL_MESSAGE: &'static str = "The bullet is already at the current outline level";

/// Why a protected node is not deleted.
pub const PROTECTED_DELETE_MESSAGE: &'static str = "Protected Journal nodes cannot be deleted";

/// Why an empty draft is dropped.
pub const EMPTY_NODE_MESSAGE: &'static str = "Empty node not created";

/// What indenting or outdenting the selected bullet does.
#[derive(Clone, Copy, Debug, PartialEq, Eq)]
pub enum MovePlan {
    /// Nothing to do.
    Nothing,
    /// The move is refused, with this status.
    Refused(&'static str),
    /// Move the node last under `parent`.
    UnderLast {
        /// The node.
        node: NodeId,
        /// Its new parent.
        parent: NodeId,
    },
    /// Move the node right after its parent, whose own parent must be
    /// looked up.
    AfterParent {
        /// The node.
        node: NodeId,
        /// Its current parent.
        parent: NodeId,
    },
}

/// The position of node `id` among `nodes`, if it is there.
pub open spec fn position_in(nodes: Seq<Node>, id: NodeId) -> Option<int>
    decreases nodes.len(),
{
    if nodes.len() == 0 {
        None
    } else {
        match position_in(nodes.drop_last(), id) {
            Some(k) => Some(k),
            None => if nodes.last().id@ == id@ {
                Some(nodes.len() - 1)
            } else {
                None
            },
        }
    }
}

/// Indenting `node`: protected nodes stay; a node whose siblings are not
/// loaded or that is not among them is left alone; the first sibling has
/// nothing to go under; any other moves last under its previous sibling.
pub open spec fn indent_plan_spec(branches: Seq<(Option<NodeId>, Vec<Node>)>, node: Node) -> MovePlan {
    if node.system is Some {
        MovePlan::Refused(PROTECTED_MOVE_MESSAGE)
    } else {
        match branch_index(branches, node.parent_id) {
            None => MovePlan::Nothing,
            Some(b) => match position_in(branches[b].1@, node.id) {
                None => MovePlan::Nothing,
                Some(k) => if k == 0 {
                    MovePlan::Refused(NO_PREVIOUS_SIBLING_MESSAGE)
                } else {
                    MovePlan::UnderLast { node: node.id, parent: branches[b].1@[k - 1].id }
                },
            },
        }
    }
}

proof fn lemma_position_in_bounds(nodes: Seq<Node>, id: NodeId)
    ensures
        position_in(nodes, id) matches Some(k) ==> 0 <= k < nodes.len() && nodes[k].id@ == id@,
    decreases nodes.len(),
{
    if nodes.len() > 0 {
        lemma_position_in_bounds(nodes.drop_last(), id);
    }
}

fn find_position(nodes: &Vec<Node>, id: NodeId) -> (r: Option<usize>)
    ensures
        match position_in(nodes@, id) {
            Some(k) => r == Some(k as usize),
            None => r is None,
        },
        r matches Some(k) ==> k < nodes@.len() && position_in(nodes@, id) == Some(k as int),
{
    proof {
        lemma_position_in_bounds(nodes@, id);
    }
    let mut i: usize = 0;
    assert(nodes@.take(0) =~= Seq::<Node>::empty());
    while i < nodes.len()
        invariant
            i <= nodes@.len(),
            position_in(nodes@.take(i as int), id) is None,
            position_in(nodes@, id) matches Some(k) ==> 0 <= k < nodes@.len(),
        decreases nodes@.len() - i,
    {
        assert(nodes@.take(i + 1).drop_last() =~= nodes@.take(i as int));
        if nodes[i].id == id {
            proof {
                lemma_position_in_prefix(nodes@, id, i + 1);
            }
            return Some(i);
        }
        i += 1;
    }
    assert(nodes@.take(i as int) =~= nodes@);
    None
}

proof fn lemma_position_in_prefix(nodes: Seq<Node>, id: NodeId, n: int)
    requires
        0 <= n <= nodes.len(),
        position_in(nodes.take(n), id) is Some,
    ensures
        position_in(nodes, id) == position_in(nodes.take(n), id),
    decreases nodes.len() - n,
{
    if n < nodes.len() {
        assert(nodes.take(n + 1).drop_last() =~= nodes.take(n));
        lemma_position_in_prefix(nodes, id, n + 1);
    } else {
        assert(nodes.take(n) =~= nodes);
    }
}

/// What indenting the selected node does.
pub fn indent_plan(branches: &Branches, node: &Node) -> (r: MovePlan)
    ensures
        r == indent_plan_spec(branches@, *node),
{
    if node.system.is_some() {
        return MovePlan::Refused(PROTECTED_MOVE_MESSAGE);
    }
    match find_branch(branches, node.parent_id) {
        None => MovePlan::Nothing,
        Some(b) => match find_position(&branches[b].1, node.id) {
            None => MovePlan::Nothing,
            Some(k) => if k == 0 {
                MovePlan::Refused(NO_PREVIOUS_SIBLING_MESSAGE)
            } else {
                MovePlan::UnderLast { node: node.id, parent: branches[b].1[k - 1].id }
            },
        },
    }
}

/// Indenting moves a bullet last under the sibling immediately before it:
/// where each parent has one loaded branch and each sibling is loaded once,
/// a movable node at index `k` of its loaded siblings is refused at index 0
/// and otherwise goes under the sibling at index `k - 1`.
pub proof fn lemma_indent_under_previous_sibling(
    branches: Seq<(Option<NodeId>, Vec<Node>)>,
    node: Node,
    b: int,
    k: int,
)
    requires
        keys_distinct(branches),
        0 <= b < branches.len(),
        same_key(branches[b].0, node.parent_id),
        node_ids_distinct(branches[b].1@),
        0 <= k < branches[b].1@.len(),
        branches[b].1@[k].id@ == node.id@,
        node.system is None,
    ensures
        k == 0 ==> indent_plan_spec(branches, node) == MovePlan::Refused(
            NO_PREVIOUS_SIBLING_MESSAGE,
        ),
        k > 0 ==> indent_plan_spec(branches, node) == (MovePlan::UnderLast {
            node: node.id,
            parent: branches[b].1@[k - 1].id,
        }),
{
    lemma_branch_index_found(branches, node.parent_id, b);
    lemma_position_in_found(branches[b].1@, node.id, k);
}

proof fn lemma_branch_index_found(branches: Seq<(Option<NodeId>, Vec<Node>)>, key: Option<NodeId>, b: int)
    requires
        keys_distinct(branches),
        0 <= b < branches.len(),
        same_key(branches[b].0, key),
    ensures
        branch_index(branches, key) == Some(b),
    decreases branches.len(),
{
    let prev = branches.drop_last();
    if b < branches.len() - 1 {
        assert forall|i: int, j: int| 0 <= i < j < prev.len() implies !same_key(
            #[trigger] prev[i].0,
            #[trigger] prev[j].0,
        ) by {
            assert(prev[i] == branches[i] && prev[j] == branches[j]);
        }
        assert(prev[b] == branches[b]);
        lemma_branch_index_found(prev, key, b);
    } else {
        lemma_branch_index_absent(prev, key, branches[b].0);
    }
}

proof fn lemma_branch_index_absent(
    branches: Seq<(Option<NodeId>, Vec<Node>)>,
    key: Option<NodeId>,
    other: Option<NodeId>,
)
    requires
        forall|i: int| 0 <= i < branches.len() ==> !same_key(#[trigger] branches[i].0, other),
        same_key(other, key),
    ensures
        branch_index(branches, key) is None,
    decreases branches.len(),
{
    if branches.len() > 0 {
        let prev = branches.drop_last();
        assert forall|i: int| 0 <= i < prev.len() implies !same_key(#[trigger] prev[i].0, other) by {
            assert(prev[i] == branches[i]);
        }
        lemma_branch_index_absent(prev, key, other);
        assert(!same_key(branches[branches.len() - 1].0, other));
    }
}

proof fn lemma_position_in_found(nodes: Seq<Node>, id: NodeId, k: int)
    requires
        node_ids_distinct(nodes),
        0 <= k < nodes.len(),
        nodes[k].id@ == id@,
    ensures
        position_in(nodes, id) == Some(k),
    decreases nodes.len(),
{
    let prev = nodes.drop_last();
    if k < nodes.len() - 1 {
        assert forall|i: int, j: int| 0 <= i < j < prev.len() implies (#[trigger] prev[i]).id@ != (
        #[trigger] prev[j]).id@ by {
            assert(prev[i] == nodes[i] && prev[j] == nodes[j]);
        }
        assert(prev[k] == nodes[k]);
        lemma_position_in_found(prev, id, k);
    } else {
        lemma_position_in_absent(prev, id);
    }
}

proof fn lemma_position_in_absent(nodes: Seq<Node>, id: NodeId)
    requires
        forall|i: int| 0 <= i < nodes.len() ==> (#[trigger] nodes[i]).id@ != id@,
    ensures
        position_in(nodes, id) is None,
    decreases nodes.len(),
{
    if nodes.len() > 0 {
        let prev = nodes.drop_last();
        assert forall|i: int| 0 <= i < prev.len() implies (#[trigger] prev[i]).id@ != id@ by {
            assert(prev[i] == nodes[i]);
        }
        lemma_position_in_absent(prev, id);
        assert(nodes[nodes.len() - 1].id@ != id@);
    }
}

/// Outdenting `node`: protected nodes stay, a root has nowhere to go, any
/// other moves right after its parent.
pub open spec fn outdent_plan_spec(node: Node) -> MovePlan {
    if node.system is Some {
        MovePlan::Refused(PROTECTED_MOVE_MESSAGE)
    } else {
        match node.parent_id {
            None => MovePlan::Refused(AT_ROOT_MESSAGE),
            Some(parent) => MovePlan::AfterParent { node: node.id, parent },
        }
    }
}

/// Outdenting a bullet that was just indented names the sibling it went
/// under: where indenting moves `node` under `parent`, the node as moved
/// (same identity, with `parent` as its parent) outdents to right after
/// `parent`.
pub proof fn lemma_outdent_after_indent(
    branches: Seq<(Option<NodeId>, Vec<Node>)>,
    node: Node,
    moved: Node,
    parent: NodeId,
)
    requires
        indent_plan_spec(branches, node) == (MovePlan::UnderLast { node: node.id, parent }),
        moved.id == node.id,
        moved.parent_id == Some(parent),
        moved.system == node.system,
    ensures
        outdent_plan_spec(moved) == (MovePlan::AfterParent { node: node.id, parent }),
{
}

/// Outdenting moves a movable bullet right after its current parent; a
/// root bullet is refused as already at the root.
pub proof fn lemma_outdent_after_parent(node: Node)
    requires
        node.system is None,
    ensures
        node.parent_id matches Some(p) ==> outdent_plan_spec(node) == (MovePlan::AfterParent {
            node: node.id,
            parent: p,
        }),
        node.parent_id is None ==> outdent_plan_spec(node) == MovePlan::Refused(AT_ROOT_MESSAGE),
{
}

/// What outdenting the selected node does: protected nodes stay, a root
/// has nowhere to go, any other moves after its parent.
pub fn outdent_plan(node: &Node) -> (r: MovePlan)
    ensures
        r == outdent_plan_spec(*node),
{
    if node.system.is_some() {
        return MovePlan::Refused(PROTECTED_MOVE_MESSAGE);
    }
    match node.parent_id {
        None => MovePlan::Refused(AT_ROOT_MESSAGE),
        Some(parent) => MovePlan::AfterParent { node: node.id, parent },
    }
}

/// Where an indented draft goes: last under the bullet it would follow
/// (the one it is placed after, or the last loaded sibling when it goes
/// last); none when it goes first or before a bullet.
pub open spec fn indented_draft_spec(
    branches: Seq<(Option<NodeId>, Vec<Node>)>,
    parent_id: Option<NodeId>,
    placement: Placement,
) -> Option<EditTarget> {
    let previous = match placement {
        Placement::After(id) => Some(id),
        Placement::Last => match branch_index(branches, parent_id) {
            Some(b) => if branches[b].1@.len() > 0 {
                Some(branches[b].1@.last().id)
            } else {
                None
            },
            None => None,
        },
        _ => None,
    };
    match previous {
        Some(id) => Some(EditTarget::New { parent_id: Some(id), placement: Placement::Last }),
        None => None,
    }
}

/// Where an indented draft goes.
pub fn indented_draft(branches: &Branches, parent_id: Option<NodeId>, placement: Placement) -> (r: Option<EditTarget>)
    ensures
        r == indented_draft_spec(branches@, parent_id, placement),
{
    let previous = match placement {
        Placement::After(id) => Some(id),
        Placement::Last => match find_branch(branches, parent_id) {
            Some(b) => {
                let n = branches[b].1.len();
                if n > 0 {
                    Some(branches[b].1[n - 1].id)
                } else {
                    None
                }
            },
            None => None,
        },
        _ => None,
    };
    match previous {
        Some(id) => Some(EditTarget::New { parent_id: Some(id), placement: Placement::Last }),
        None => None,
    }
}

/// An indented draft goes last under the bullet right before it: the one
/// it is placed after, or, when it goes last among loaded siblings, the
/// last of them; a draft that goes first or before a bullet, or last among
/// no loaded sibling, has nothing to go under.
pub proof fn lemma_indented_draft_under_previous(
    branches: Seq<(Option<NodeId>, Vec<Node>)>,
    parent_id: Option<NodeId>,
    placement: Placement,
)
    requires
        keys_distinct(branches),
    ensures
        placement matches Placement::After(id) ==> indented_draft_spec(branches, parent_id, placement)
            == Some(EditTarget::New { parent_id: Some(id), placement: Placement::Last }),
        placement is First || placement is Before ==> indented_draft_spec(
            branches,
            parent_id,
            placement,
        ) is None,
        placement is Last ==> forall|b: int|
            0 <= b < branches.len() && same_key(#[trigger] branches[b].0, parent_id) ==> if branches[b].1@.len()
                > 0 {
                indented_draft_spec(branches, parent_id, placement) == Some(
                    EditTarget::New {
                        parent_id: Some(branches[b].1@[branches[b].1@.len() - 1].id),
                        placement: Placement::Last,
                    },
                )
            } else {
                indented_draft_spec(branches, parent_id, placement) is None
            },
        placement is Last && (forall|b: int|
            0 <= b < branches.len() ==> !same_key(#[trigger] branches[b].0, parent_id))
            ==> indented_draft_spec(branches, parent_id, placement) is None,
{
    assert forall|b: int|
        0 <= b < branches.len() && same_key(#[trigger] branches[b].0, parent_id) implies branch_index(
        branches,
        parent_id,
    ) == Some(b) by {
        lemma_branch_index_found(branches, parent_id, b);
    }
    if forall|b: int| 0 <= b < branches.len() ==> !same_key(#[trigger] branches[b].0, parent_id) {
        lemma_branch_index_absent(branches, parent_id, parent_id);
    }
}

/// Where an outdented draft goes: right after its parent, under the
/// parent's own parent (`grandparent`, once looked up); nowhere at the
/// focus level or at the root, or when the parent is not found.
pub open spec fn outdented_draft_spec(
    parent_id: Option<NodeId>,
    focus: Option<NodeId>,
    grandparent: Option<Option<NodeId>>,
) -> Option<EditTarget> {
    if same_key(parent_id, focus) {
        None
    } else {
        match (parent_id, grandparent) {
            (Some(parent), Some(above)) => Some(
                EditTarget::New { parent_id: above, placement: Placement::After(parent) },
            ),
            _ => None,
        }
    }
}

/// Outdenting a draft that was just indented puts it back where it was:
/// a draft placed right after bullet `x` under `parent` goes last under
/// `x` when indented, and right after `x` under `parent` again when
/// outdented, unless `x` is the focus.
pub proof fn lemma_outdent_undoes_indent(
    branches: Seq<(Option<NodeId>, Vec<Node>)>,
    parent: Option<NodeId>,
    x: NodeId,
    focus: Option<NodeId>,
)
    requires
        !same_key(Some(x), focus),
    ensures
        indented_draft_spec(branches, parent, Placement::After(x)) == Some(
            EditTarget::New { parent_id: Some(x), placement: Placement::Last },
        ),
        outdented_draft_spec(Some(x), focus, Some(parent)) == Some(
            EditTarget::New { parent_id: parent, placement: Placement::After(x) },
        ),
{
}

/// An outdented draft goes right after its parent, under its grandparent,
/// whenever it is below the focus level and its grandparent is known; it
/// stays at the focus level and at the root.
pub proof fn lemma_outdented_draft_after_parent(
    parent_id: Option<NodeId>,
    focus: Option<NodeId>,
    grandparent: Option<Option<NodeId>>,
)
    ensures
        same_key(parent_id, focus) ==> outdented_draft_spec(parent_id, focus, grandparent) is None,
        parent_id is None ==> outdented_draft_spec(parent_id, focus, grandparent) is None,
        forall|p: NodeId, g: Option<NodeId>|
            !same_key(parent_id, focus) && parent_id == Some(p) && grandparent == Some(g) ==> #[trigger] outdented_draft_spec(
                parent_id,
                focus,
                grandparent,
            ) == Some(EditTarget::New { parent_id: g, placement: Placement::After(p) }),
{
}

/// Where an outdented draft goes.
pub fn outdented_draft(parent_id: Option<NodeId>, focus: Option<NodeId>, grandparent: Option<Option<NodeId>>) -> (r: Option<EditTarget>)
    ensures
        r == outdented_draft_spec(parent_id, focus, grandparent),
{
    let same = match (parent_id, focus) {
        (None, None) => true,
        (Some(p), Some(f)) => p == f,
        _ => false,
    };
    if same {
        return None;
    }
    match (parent_id, grandparent) {
        (Some(parent), Some(above)) => Some(
            EditTarget::New { parent_id: above, placement: Placement::After(parent) },
        ),
        _ => None,
    }
}

/// How many siblings to load again after creating a node among `nodes`
/// (`None` when they are not loaded): as many as were loaded, and one more
/// when the node goes after the last loaded one, or last while every
/// sibling is loaded.
pub open spec fn restore_count_spec(nodes: Option<Seq<Node>>, more_to_load: bool, placement: Placement) -> int {
    match nodes {
        None => 0,
        Some(nodes) => {
            let needs_next = match placement {
                Placement::After(reference) => nodes.len() > 0 && nodes.last().id@ == reference@,
                Placement::Last => !more_to_load,
                _ => false,
            };
            nodes.len() + if needs_next {
                1int
            } else {
                0int
            }
        },
    }
}

/// How many siblings to load again after creating a node.
pub fn restore_count(nodes: Option<&Vec<Node>>, more_to_load: bool, placement: Placement) -> (r: usize)
    requires
        nodes matches Some(v) ==> v@.len() < usize::MAX,
    ensures
        r == restore_count_spec(
            match nodes {
                Some(v) => Some(v@),
                None => None,
            },
            more_to_load,
            placement,
        ),
{
    match nodes {
        None => 0,
        Some(nodes) => {
            let n = nodes.len();
            let needs_next = match placement {
                Placement::After(reference) => n > 0 && nodes[n - 1].id == reference,
                Placement::Last => !more_to_load,
                _ => false,
            };
            if needs_next {
                n + 1
            } else {
                n
            }
        },
    }
}

/// Index of the first `[[` in `s`, if any.
pub open spec fn first_opening(s: Seq<char>) -> Option<int>
    decreases s.len(),
{
    if s.len() < 2 {
        None
    } else {
        match first_opening(s.drop_last()) {
            Some(k) => Some(k),
            None => if s[s.len() - 2] == '[' && s[s.len() - 1] == '[' {
                Some(s.len() - 2)
            } else {
                None
            },
        }
    }
}

/// Whether creating a node with `text` under a parent may create new root
/// concepts: the text holds a `[[` closed later by `]]`.
pub open spec fn may_create_roots(parent_id: Option<NodeId>, text: Seq<char>) -> bool {
    parent_id is Some && match first_opening(text) {
        Some(k) => has_infix(text.skip(k + 2), seq![']', ']']),
        None => false,
    }
}

proof fn lemma_first_opening_prefix(s: Seq<char>, n: int)
    requires
        2 <= n <= s.len(),
        first_opening(s.take(n)) is Some,
    ensures
        first_opening(s) == first_opening(s.take(n)),
    decreases s.len() - n,
{
    if n < s.len() {
        assert(s.take(n + 1).drop_last() =~= s.take(n));
        lemma_first_opening_prefix(s, n + 1);
    } else {
        assert(s.take(n) =~= s);
    }
}

/// Whether creating a node with `text` under `parent_id` may create new
/// root concepts.
pub fn may_create_root_concepts(parent_id: Option<NodeId>, text: &str) -> (r: bool)
    ensures
        r == may_create_roots(parent_id, text@),
{
    if parent_id.is_none() {
        return false;
    }
    let chars = chars_of(text);
    let n = chars.len();
    if n < 2 {
        return false;
    }
    let mut k: usize = 0;
    while k + 1 < n && !(chars[k] == '[' && chars[k + 1] == '[')
        invariant
            n == chars@.len(),
            chars@ == text@,
            n >= 2,
            k + 1 <= n,
            first_opening(text@.take(k + 1)) is None,
        decreases n - k,
    {
        assert(text@.take(k + 2).drop_last() =~= text@.take(k + 1));
        k += 1;
    }
    if k + 1 >= n {
        assert(text@.take(k + 1) =~= text@);
        return false;
    }
    assert(text@.take(k + 2).drop_last() =~= text@.take(k + 1));
    proof {
        lemma_first_opening_prefix(text@, k + 2);
    }
    let mut rest: Vec<char> = Vec::new();
    let mut i = k + 2;
    while i < n
        invariant
            k + 2 <= i <= n,
            n == chars@.len(),
            chars@ == text@,
            rest@ == text@.subrange(k + 2, i as int),
        decreases n - i,
    {
        rest.push(chars[i]);
        assert(rest@ =~= text@.subrange(k + 2, i + 1));
        i += 1;
    }
    assert(rest@ =~= text@.skip(k + 2));
    let mut closing: Vec<char> = Vec::new();
    closing.push(']');
    closing.push(']');
    assert(closing@ =~= seq![']', ']']);
    occurs(&rest, &closing)
}

/// The selection and the status once a node is created: the new node when
/// it is among the loaded siblings, else the bullet it was placed next to
/// (or its parent).
pub fn selection_after_create(loaded: bool, created: NodeId, parent_id: Option<NodeId>, placement: Placement) -> (r: (Option<NodeId>, &'static str))
    ensures
        r.0 == (if loaded {
            Some(created)
        } else {
            match placement {
                Placement::Before(reference) => Some(reference),
                Placement::After(reference) => Some(reference),
                _ => parent_id,
            }
        }),
        r.1 == (if loaded {
            "Created"
        } else {
            "Created outside the loaded page"
        }),
{
    if loaded {
        (Some(created), "Created")
    } else {
        let fallback = match placement {
            Placement::Before(reference) => Some(reference),
            Placement::After(reference) => Some(reference),
            _ => parent_id,
        };
        (fallback, "Created outside the loaded page")
    }
}

/// The selection after a delete: the row at the deleted node's index, or
/// the last row when fewer remain.
pub fn selection_after_delete(after: &Vec<VisibleNode>, index: usize) -> (r: Option<NodeId>)
    ensures
        after@.len() == 0 ==> r is None,
        after@.len() > 0 ==> r == Some(
            after@[if index < after@.len() {
                index as int
            } else {
                after@.len() - 1
            }].node.id,
        ),
{
    let n = after.len();
    if n == 0 {
        None
    } else if index < n {
        Some(after[index].node.id)
    } else {
        Some(after[n - 1].node.id)
    }
}

/// The status after a delete: how many nodes went, and that they were
/// copied.
pub fn deleted_status(deleted: u64) -> (r: String)
    ensures
        r@ == "Deleted "@ + decimal(deleted as nat) + " node(s); subtree copied"@,
{
    let count = decimal_text(deleted);
    concat3("Deleted ", count.as_str(), " node(s); subtree copied")
}

} // verus!
