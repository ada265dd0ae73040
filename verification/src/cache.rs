//! Keeping the loaded nodes up to date after one of them changed: its
//! copies are replaced, references to it show its new text, and a node
//! without children is no longer expanded.

use vstd::prelude::*;

use crate::identity::NodeId;
use crate::model::{Node, NodeReference, SystemNode};
use crate::display::{contains_id, has_id};
use crate::visible::{
    branch_index, find_branch, find_node, first_node, holds_id, same_key, slot_node, slot_valid,
    visible_slots, visible_spec, Branches, VisibleSlot,
};

verus! {

/// The nodes the terminal keeps loaded.
pub struct LoadedNodes {
    /// The path from the root to the focus.
    pub focus_path: Vec<Node>,
    /// The loaded children of each parent.
    pub branches: Branches,
    /// The expanded nodes.
    pub expanded: Vec<NodeId>,
    /// The paths of the open backlink contexts (none when closed).
    pub contexts: Vec<Vec<Node>>,
}

/// No parent has two loaded branches.
pub open spec fn keys_distinct(branches: Seq<(Option<NodeId>, Vec<Node>)>) -> bool {
    forall|i: int, j: int|
        0 <= i < j < branches.len() ==> !same_key(#[trigger] branches[i].0, #[trigger] branches[j].0)
}

/// No identity occurs twice.
pub open spec fn ids_distinct(ids: Seq<NodeId>) -> bool {
    forall|i: int, j: int| 0 <= i < j < ids.len() ==> (#[trigger] ids[i])@ != (#[trigger] ids[j])@
}

impl LoadedNodes {
    /// The loaded nodes are well formed: each parent has at most one loaded
    /// branch, and each node is expanded at most once.
    pub open spec fn wf(&self) -> bool {
        &&& keys_distinct(self.branches@)
        &&& ids_distinct(self.expanded@)
    }
}

/// The two nodes hold the same values.
pub open spec fn same_node(a: Node, b: Node) -> bool {
    &&& a.id == b.id
    &&& a.parent_id == b.parent_id
    &&& a.has_children == b.has_children
    &&& a.text@ == b.text@
    &&& a.system == b.system
    &&& a.tags@ == b.tags@
    &&& a.references@ == b.references@
}

/// `updated` in place of a node with its identity, else the node itself.
pub open spec fn base_node(node: Node, updated: Node) -> Node {
    if node.id@ == updated.id@ {
        updated
    } else {
        node
    }
}

/// A reference to `updated` shows its new text; others are unchanged.
pub open spec fn reference_refreshed(reference: NodeReference, updated: Node) -> NodeReference {
    if reference.target_id@ == updated.id@ {
        NodeReference {
            label_start: reference.label_start,
            label_end: reference.label_end,
            target_id: reference.target_id,
            target_text: updated.text,
        }
    } else {
        reference
    }
}

/// `after` is `before` once `updated` is known: replaced by it when it is
/// the same node, and with its references to it showing its new text.
pub open spec fn node_refreshed(before: Node, after: Node, updated: Node) -> bool {
    let base = base_node(before, updated);
    &&& after.id == base.id
    &&& after.parent_id == base.parent_id
    &&& after.has_children == base.has_children
    &&& after.text@ == base.text@
    &&& after.system == base.system
    &&& after.tags@ == base.tags@
    &&& after.references@ == base.references@.map_values(
        |r: NodeReference| reference_refreshed(r, updated),
    )
}

/// Each node of `after` is the node of `before` at its index, refreshed.
pub open spec fn nodes_refreshed(before: Seq<Node>, after: Seq<Node>, updated: Node) -> bool {
    &&& after.len() == before.len()
    &&& forall|i: int|
        0 <= i < before.len() ==> node_refreshed(before[i], #[trigger] after[i], updated)
}

/// The branches without those loaded for parent `key`.
pub open spec fn without_key(branches: Seq<(Option<NodeId>, Vec<Node>)>, key: Option<NodeId>) -> Seq<
    (Option<NodeId>, Vec<Node>),
>
    decreases branches.len(),
{
    if branches.len() == 0 {
        seq![]
    } else {
        let rest = without_key(branches.drop_last(), key);
        if same_key(branches.last().0, key) {
            rest
        } else {
            rest.push(branches.last())
        }
    }
}

/// The identities other than `id`, in order.
pub open spec fn without_id(ids: Seq<NodeId>, id: NodeId) -> Seq<NodeId>
    decreases ids.len(),
{
    if ids.len() == 0 {
        seq![]
    } else {
        let rest = without_id(ids.drop_last(), id);
        if ids.last()@ == id@ {
            rest
        } else {
            rest.push(ids.last())
        }
    }
}

proof fn lemma_without_key_wf(branches: Seq<(Option<NodeId>, Vec<Node>)>, key: Option<NodeId>)
    ensures
        forall|m: int|
            0 <= m < without_key(branches, key).len() ==> exists|i: int|
                0 <= i < branches.len() && (#[trigger] without_key(branches, key)[m]) == branches[i],
        keys_distinct(branches) ==> keys_distinct(without_key(branches, key)),
    decreases branches.len(),
{
    if branches.len() > 0 {
        let prev = branches.drop_last();
        lemma_without_key_wf(prev, key);
        let rest = without_key(prev, key);
        let r = without_key(branches, key);
        assert forall|m: int| 0 <= m < r.len() implies exists|i: int|
            0 <= i < branches.len() && (#[trigger] r[m]) == branches[i] by {
            if m < rest.len() {
                assert(r[m] == rest[m]);
                let k = choose|k: int| 0 <= k < prev.len() && rest[m] == prev[k];
                assert(prev[k] == branches[k]);
            } else {
                assert(r[m] == branches[branches.len() - 1]);
            }
        }
        if keys_distinct(branches) {
            assert forall|i: int, j: int| 0 <= i < j < prev.len() implies !same_key(
                #[trigger] prev[i].0,
                #[trigger] prev[j].0,
            ) by {
                assert(prev[i] == branches[i] && prev[j] == branches[j]);
            }
            assert forall|i: int, j: int| 0 <= i < j < r.len() implies !same_key(
                #[trigger] r[i].0,
                #[trigger] r[j].0,
            ) by {
                if j < rest.len() {
                    assert(r[i] == rest[i] && r[j] == rest[j]);
                } else {
                    assert(r[i] == rest[i]);
                    let k = choose|k: int| 0 <= k < prev.len() && rest[i] == prev[k];
                    assert(prev[k] == branches[k]);
                    assert(r[j] == branches[branches.len() - 1]);
                    assert(!same_key(branches[k].0, branches[branches.len() - 1].0));
                }
            }
        }
    }
}

proof fn lemma_without_id_wf(ids: Seq<NodeId>, id: NodeId)
    ensures
        forall|m: int|
            0 <= m < without_id(ids, id).len() ==> exists|i: int|
                0 <= i < ids.len() && (#[trigger] without_id(ids, id)[m]) == ids[i],
        ids_distinct(ids) ==> ids_distinct(without_id(ids, id)),
    decreases ids.len(),
{
    if ids.len() > 0 {
        let prev = ids.drop_last();
        lemma_without_id_wf(prev, id);
        let rest = without_id(prev, id);
        let r = without_id(ids, id);
        assert forall|m: int| 0 <= m < r.len() implies exists|i: int|
            0 <= i < ids.len() && (#[trigger] r[m]) == ids[i] by {
            if m < rest.len() {
                assert(r[m] == rest[m]);
                let k = choose|k: int| 0 <= k < prev.len() && rest[m] == prev[k];
                assert(prev[k] == ids[k]);
            } else {
                assert(r[m] == ids[ids.len() - 1]);
            }
        }
        if ids_distinct(ids) {
            assert forall|i: int, j: int| 0 <= i < j < prev.len() implies (#[trigger] prev[i])@ != (
            #[trigger] prev[j])@ by {
                assert(prev[i] == ids[i] && prev[j] == ids[j]);
            }
            assert forall|i: int, j: int| 0 <= i < j < r.len() implies (#[trigger] r[i])@ != (
            #[trigger] r[j])@ by {
                if j < rest.len() {
                    assert(r[i] == rest[i] && r[j] == rest[j]);
                } else {
                    assert(r[i] == rest[i]);
                    let k = choose|k: int| 0 <= k < prev.len() && rest[i] == prev[k];
                    assert(prev[k] == ids[k]);
                    assert(r[j] == ids[ids.len() - 1]);
                    assert(ids[k]@ != ids[ids.len() - 1]@);
                }
            }
        }
    }
}

proof fn lemma_push_absent(ids: Seq<NodeId>, id: NodeId)
    requires
        ids_distinct(ids),
        !contains_id(ids, id),
    ensures
        ids_distinct(ids.push(id)),
{
    let r = ids.push(id);
    assert forall|i: int, j: int| 0 <= i < j < r.len() implies (#[trigger] r[i])@ != (
    #[trigger] r[j])@ by {
        assert(r[i] == ids[i]);
        if j < ids.len() {
            assert(r[j] == ids[j]);
        } else {
            assert(r[j] == id);
            if ids[i]@ == id@ {
                assert(contains_id(ids, id));
            }
        }
    }
}

/// A copy of a node.
pub fn copy_node(node: &Node) -> (r: Node)
    ensures
        same_node(r, *node),
{
    let system = match &node.system {
        None => None,
        Some(SystemNode::Journal) => Some(SystemNode::Journal),
        Some(SystemNode::JournalDay { date }) => Some(SystemNode::JournalDay { date: date.clone() }),
    };
    let mut tags: Vec<String> = Vec::new();
    let mut i: usize = 0;
    while i < node.tags.len()
        invariant
            i <= node.tags@.len(),
            tags@ == node.tags@.take(i as int),
        decreases node.tags@.len() - i,
    {
        tags.push(node.tags[i].clone());
        assert(tags@ =~= node.tags@.take(i + 1));
        i += 1;
    }
    assert(node.tags@.take(i as int) =~= node.tags@);
    let mut references: Vec<NodeReference> = Vec::new();
    let mut j: usize = 0;
    while j < node.references.len()
        invariant
            j <= node.references@.len(),
            references@ == node.references@.take(j as int),
        decreases node.references@.len() - j,
    {
        let reference = &node.references[j];
        references.push(
            NodeReference {
                label_start: reference.label_start,
                label_end: reference.label_end,
                target_id: reference.target_id,
                target_text: reference.target_text.clone(),
            },
        );
        assert(references@ =~= node.references@.take(j + 1));
        j += 1;
    }
    assert(node.references@.take(j as int) =~= node.references@);
    Node {
        id: node.id,
        parent_id: node.parent_id,
        has_children: node.has_children,
        text: node.text.clone(),
        system,
        tags,
        references,
    }
}

/// `node` once `updated` is known: replaced by it when it is the same node,
/// and with its references to it showing its new text.
pub fn refreshed_node(node: &Node, updated: &Node) -> (r: Node)
    ensures
        node_refreshed(*node, r, *updated),
{
    let same = node.id == updated.id;
    let base = if same {
        copy_node(updated)
    } else {
        copy_node(node)
    };
    let ghost wanted = base_node(*node, *updated).references@;
    assert(base.references@ == wanted);
    let mut references: Vec<NodeReference> = Vec::new();
    let mut i: usize = 0;
    while i < base.references.len()
        invariant
            i <= base.references@.len(),
            base.references@ == wanted,
            references@ == wanted.take(i as int).map_values(
                |r: NodeReference| reference_refreshed(r, *updated),
            ),
        decreases base.references@.len() - i,
    {
        let reference = &base.references[i];
        let text = if reference.target_id == updated.id {
            updated.text.clone()
        } else {
            reference.target_text.clone()
        };
        references.push(
            NodeReference {
                label_start: reference.label_start,
                label_end: reference.label_end,
                target_id: reference.target_id,
                target_text: text,
            },
        );
        assert(references@ =~= wanted.take(i + 1).map_values(
            |r: NodeReference| reference_refreshed(r, *updated),
        ));
        i += 1;
    }
    assert(wanted.take(i as int) =~= wanted);
    Node {
        id: base.id,
        parent_id: base.parent_id,
        has_children: base.has_children,
        text: base.text,
        system: base.system,
        tags: base.tags,
        references,
    }
}

fn refreshed_nodes(nodes: &Vec<Node>, updated: &Node) -> (r: Vec<Node>)
    ensures
        nodes_refreshed(nodes@, r@, *updated),
{
    let mut r: Vec<Node> = Vec::new();
    let mut i: usize = 0;
    while i < nodes.len()
        invariant
            i <= nodes@.len(),
            r@.len() == i,
            forall|k: int| 0 <= k < i ==> node_refreshed(nodes@[k], #[trigger] r@[k], *updated),
        decreases nodes@.len() - i,
    {
        r.push(refreshed_node(&nodes[i], updated));
        i += 1;
    }
    r
}

impl LoadedNodes {
    /// Takes a changed node into account: every loaded copy of it is
    /// replaced (in the focus path, the branches and the backlink
    /// contexts), references to it in the branches and contexts show its
    /// new text, and when it has no children any more it is collapsed and
    /// its loaded children are dropped.
    pub fn update_node(&mut self, updated: &Node)
        ensures
            final(self).focus_path@.len() == old(self).focus_path@.len(),
            forall|i: int|
                0 <= i < old(self).focus_path@.len() ==> same_node(
                    #[trigger] final(self).focus_path@[i],
                    base_node(old(self).focus_path@[i], *updated),
                ),
            ({
                let kept = if updated.has_children {
                    old(self).branches@
                } else {
                    without_key(old(self).branches@, Some(updated.id))
                };
                &&& final(self).branches@.len() == kept.len()
                &&& forall|i: int|
                    0 <= i < kept.len() ==> (#[trigger] final(self).branches@[i]).0 == kept[i].0
                        && nodes_refreshed(kept[i].1@, final(self).branches@[i].1@, *updated)
            }),
            final(self).expanded@ == (if updated.has_children {
                old(self).expanded@
            } else {
                without_id(old(self).expanded@, updated.id)
            }),
            final(self).contexts@.len() == old(self).contexts@.len(),
            forall|i: int|
                0 <= i < old(self).contexts@.len() ==> nodes_refreshed(
                    old(self).contexts@[i]@,
                    #[trigger] final(self).contexts@[i]@,
                    *updated,
                ),
            old(self).wf() ==> final(self).wf(),
    {
        let mut path: Vec<Node> = Vec::new();
        let mut i: usize = 0;
        while i < self.focus_path.len()
            invariant
                i <= self.focus_path@.len(),
                self.focus_path == old(self).focus_path,
                path@.len() == i,
                forall|k: int|
                    0 <= k < i ==> same_node(
                        #[trigger] path@[k],
                        base_node(self.focus_path@[k], *updated),
                    ),
            decreases self.focus_path@.len() - i,
        {
            let node = &self.focus_path[i];
            let copy = if node.id == updated.id {
                copy_node(updated)
            } else {
                copy_node(node)
            };
            path.push(copy);
            i += 1;
        }
        self.focus_path = path;

        if !updated.has_children {
            self.remove_branches_of(updated.id);
            self.collapse(updated.id);
        }
        let ghost kept = self.branches@;
        let mut branches: Branches = Vec::new();
        let mut b: usize = 0;
        while b < self.branches.len()
            invariant
                b <= self.branches@.len(),
                self.branches@ == kept,
                branches@.len() == b,
                forall|k: int|
                    0 <= k < b ==> (#[trigger] branches@[k]).0 == kept[k].0 && nodes_refreshed(
                        kept[k].1@,
                        branches@[k].1@,
                        *updated,
                    ),
            decreases self.branches@.len() - b,
        {
            let nodes = refreshed_nodes(&self.branches[b].1, updated);
            branches.push((self.branches[b].0, nodes));
            b += 1;
        }
        proof {
            if keys_distinct(kept) {
                assert forall|i: int, j: int| 0 <= i < j < branches@.len() implies !same_key(
                    #[trigger] branches@[i].0,
                    #[trigger] branches@[j].0,
                ) by {
                    assert(branches@[i].0 == kept[i].0 && branches@[j].0 == kept[j].0);
                }
            }
        }
        self.branches = branches;

        let mut contexts: Vec<Vec<Node>> = Vec::new();
        let mut c: usize = 0;
        while c < self.contexts.len()
            invariant
                c <= self.contexts@.len(),
                self.contexts == old(self).contexts,
                contexts@.len() == c,
                forall|k: int|
                    0 <= k < c ==> nodes_refreshed(
                        self.contexts@[k]@,
                        #[trigger] contexts@[k]@,
                        *updated,
                    ),
            decreases self.contexts@.len() - c,
        {
            contexts.push(refreshed_nodes(&self.contexts[c], updated));
            c += 1;
        }
        self.contexts = contexts;
    }

    fn remove_branches_of(&mut self, id: NodeId)
        ensures
            final(self).branches@ == without_key(old(self).branches@, Some(id)),
            final(self).focus_path == old(self).focus_path,
            final(self).expanded == old(self).expanded,
            final(self).contexts == old(self).contexts,
            keys_distinct(old(self).branches@) ==> keys_distinct(final(self).branches@),
    {
        proof {
            lemma_without_key_wf(self.branches@, Some(id));
        }
        let ghost orig = self.branches@;
        let ghost mut k: int = 0;
        let mut i: usize = 0;
        assert(orig.take(0) =~= Seq::<(Option<NodeId>, Vec<Node>)>::empty());
        assert(orig.skip(0) =~= orig);
        while i < self.branches.len()
            invariant
                0 <= k <= orig.len(),
                i == without_key(orig.take(k), Some(id)).len(),
                self.branches@ == without_key(orig.take(k), Some(id)) + orig.skip(k),
                self.focus_path == old(self).focus_path,
                self.expanded == old(self).expanded,
                self.contexts == old(self).contexts,
            decreases self.branches@.len() - i,
        {
            let ghost before = self.branches@;
            let ghost next = orig.take(k + 1);
            assert(next.drop_last() =~= orig.take(k));
            assert(before[i as int] == orig[k]);
            let matches = match self.branches[i].0 {
                Some(key) => key == id,
                None => false,
            };
            if matches {
                self.branches.remove(i);
                proof {
                    assert(self.branches@ =~= without_key(next, Some(id)) + orig.skip(k + 1));
                    k = k + 1;
                }
            } else {
                proof {
                    assert(before =~= without_key(next, Some(id)) + orig.skip(k + 1));
                    k = k + 1;
                }
                i += 1;
            }
        }
        proof {
            if k < orig.len() {
                assert(self.branches@.len() > i);
            }
            assert(orig.take(k) =~= orig);
            assert(orig.skip(k) =~= Seq::<(Option<NodeId>, Vec<Node>)>::empty());
            assert(self.branches@ =~= without_key(orig, Some(id)));
        }
    }

    fn collapse(&mut self, id: NodeId)
        ensures
            final(self).expanded@ == without_id(old(self).expanded@, id),
            final(self).focus_path == old(self).focus_path,
            final(self).branches == old(self).branches,
            final(self).contexts == old(self).contexts,
            ids_distinct(old(self).expanded@) ==> ids_distinct(final(self).expanded@),
    {
        proof {
            lemma_without_id_wf(self.expanded@, id);
        }
        let ghost orig = self.expanded@;
        let ghost mut k: int = 0;
        let mut i: usize = 0;
        assert(orig.take(0) =~= Seq::<NodeId>::empty());
        assert(orig.skip(0) =~= orig);
        while i < self.expanded.len()
            invariant
                0 <= k <= orig.len(),
                i == without_id(orig.take(k), id).len(),
                self.expanded@ == without_id(orig.take(k), id) + orig.skip(k),
                self.focus_path == old(self).focus_path,
                self.branches == old(self).branches,
                self.contexts == old(self).contexts,
            decreases self.expanded@.len() - i,
        {
            let ghost before = self.expanded@;
            let ghost next = orig.take(k + 1);
            assert(next.drop_last() =~= orig.take(k));
            assert(before[i as int] == orig[k]);
            if self.expanded[i] == id {
                self.expanded.remove(i);
                proof {
                    assert(self.expanded@ =~= without_id(next, id) + orig.skip(k + 1));
                    k = k + 1;
                }
            } else {
                proof {
                    assert(before =~= without_id(next, id) + orig.skip(k + 1));
                    k = k + 1;
                }
                i += 1;
            }
        }
        proof {
            if k < orig.len() {
                assert(self.expanded@.len() > i);
            }
            assert(orig.take(k) =~= orig);
            assert(orig.skip(k) =~= Seq::<NodeId>::empty());
            assert(self.expanded@ =~= without_id(orig, id));
        }
    }
}

/// Once a changed node is taken into account, every refreshed copy of it
/// holds its new values, and every refreshed reference to it shows its new
/// text.
pub proof fn lemma_refreshed_nodes_current(before: Seq<Node>, after: Seq<Node>, updated: Node)
    requires
        nodes_refreshed(before, after, updated),
    ensures
        forall|i: int|
            0 <= i < after.len() && (#[trigger] after[i]).id@ == updated.id@ ==> {
                &&& after[i].text@ == updated.text@
                &&& after[i].parent_id == updated.parent_id
                &&& after[i].has_children == updated.has_children
                &&& after[i].system == updated.system
                &&& after[i].tags@ == updated.tags@
            },
        forall|i: int, k: int|
            0 <= i < after.len() && 0 <= k < after[i].references@.len() && (
            #[trigger] after[i].references@[k]).target_id@ == updated.id@ ==> after[i].references@[k].target_text
                == updated.text,
{
    assert forall|i: int| 0 <= i < after.len() && (#[trigger] after[i]).id@ == updated.id@ implies {
        &&& after[i].text@ == updated.text@
        &&& after[i].parent_id == updated.parent_id
        &&& after[i].has_children == updated.has_children
        &&& after[i].system == updated.system
        &&& after[i].tags@ == updated.tags@
    } by {
        assert(node_refreshed(before[i], after[i], updated));
    }
    assert forall|i: int, k: int|
        0 <= i < after.len() && 0 <= k < after[i].references@.len() && (
        #[trigger] after[i].references@[k]).target_id@ == updated.id@ implies after[i].references@[k].target_text
        == updated.text by {
        assert(node_refreshed(before[i], after[i], updated));
        let base = base_node(before[i], updated);
        assert(after[i].references@[k] == reference_refreshed(base.references@[k], updated));
    }
}

proof fn lemma_found_selected(branches: Seq<(Option<NodeId>, Vec<Node>)>, id: NodeId, b: usize, i: usize)
    requires
        first_node(branches, id) == Some((b as int, i as int)),
        b < branches.len(),
        i < branches[b as int].1@.len(),
    ensures
        selected_at(branches, Some(id)) == Some(branches[b as int].1@[i as int]),
{
}

/// Whether a key needs a branch that is not loaded yet.
#[derive(Clone, Copy, Debug, PartialEq, Eq)]
pub enum Expansion {
    /// The key was applied.
    Done,
    /// The children of this node must be loaded first; the key changed
    /// nothing.
    LoadBranch(NodeId),
}

/// The selected node, where it is loaded.
pub open spec fn selected_at(branches: Seq<(Option<NodeId>, Vec<Node>)>, selected: Option<NodeId>) -> Option<Node> {
    match selected {
        Some(id) => match first_node(branches, id) {
            Some((b, i)) => Some(branches[b].1@[i]),
            None => None,
        },
        None => None,
    }
}

/// `ids` with `id` added at the end when it is not there yet.
pub open spec fn with_id(ids: Seq<NodeId>, id: NodeId) -> Seq<NodeId> {
    if contains_id(ids, id) {
        ids
    } else {
        ids.push(id)
    }
}

impl LoadedNodes {
    /// The selected node, where it is loaded.
    pub fn selected_node(&self, selected: Option<NodeId>) -> (r: Option<Node>)
        ensures
            match selected_at(self.branches@, selected) {
                Some(node) => r matches Some(n) && same_node(n, node),
                None => r is None,
            },
    {
        match selected {
            None => None,
            Some(id) => match find_node(&self.branches, id) {
                Some((b, i)) => {
                    proof {
                        lemma_found_selected(self.branches@, id, b, i);
                    }
                    Some(copy_node(&self.branches[b].1[i]))
                },
                None => None,
            },
        }
    }

    /// Left arrow: collapses the selected node when it is expanded, else
    /// selects its parent unless that is the focus.
    pub fn move_left(&mut self, selected: &mut Option<NodeId>, focus: Option<NodeId>)
        requires
            selected_at(old(self).branches@, *old(selected)) matches Some(node) ==> (node.parent_id
                is None && !contains_id(old(self).expanded@, node.id) ==> focus is None),
        ensures
            final(self).branches == old(self).branches,
            final(self).focus_path == old(self).focus_path,
            final(self).contexts == old(self).contexts,
            old(self).wf() ==> final(self).wf(),
            match selected_at(old(self).branches@, *old(selected)) {
                None => final(self).expanded == old(self).expanded && *final(selected) == *old(selected),
                Some(node) => if contains_id(old(self).expanded@, node.id) {
                    final(self).expanded@ == without_id(old(self).expanded@, node.id) && *final(selected) == *old(selected)
                } else {
                    final(self).expanded == old(self).expanded && *final(selected) == (if same_key(
                        node.parent_id,
                        focus,
                    ) {
                        *old(selected)
                    } else {
                        node.parent_id
                    })
                },
            },
    {
        let id = match *selected {
            Some(id) => id,
            None => return ,
        };
        let (b, i) = match find_node(&self.branches, id) {
            Some(found) => found,
            None => return ,
        };
        let node_id = self.branches[b].1[i].id;
        let parent_id = self.branches[b].1[i].parent_id;
        if has_id(&self.expanded, node_id) {
            self.collapse(node_id);
            return ;
        }
        let same = match (parent_id, focus) {
            (None, None) => true,
            (Some(p), Some(f)) => p == f,
            _ => false,
        };
        if !same {
            *selected = parent_id;
        }
    }

    /// Right arrow: expands the selected node when it has children (once its
    /// children are loaded) and selects its first loaded child.
    pub fn move_right(&mut self, selected: &mut Option<NodeId>) -> (r: Expansion)
        ensures
            old(self).wf() ==> final(self).wf(),
            final(self).branches == old(self).branches,
            final(self).focus_path == old(self).focus_path,
            final(self).contexts == old(self).contexts,
            match selected_at(old(self).branches@, *old(selected)) {
                Some(node) => if !node.has_children {
                    r == Expansion::Done && final(self).expanded == old(self).expanded && *final(selected) == *old(selected)
                } else {
                    match branch_index(old(self).branches@, Some(node.id)) {
                        None => if contains_id(old(self).expanded@, node.id) {
                            r == Expansion::Done && final(self).expanded == old(self).expanded
                                && *final(selected) == *old(selected)
                        } else {
                            r == Expansion::LoadBranch(node.id) && final(self).expanded == old(self).expanded && *final(selected) == *old(selected)
                        },
                        Some(c) => {
                            &&& r == Expansion::Done
                            &&& final(self).expanded@ == with_id(old(self).expanded@, node.id)
                            &&& *final(selected) == (if old(self).branches@[c].1@.len() > 0 {
                                Some(old(self).branches@[c].1@[0].id)
                            } else {
                                *old(selected)
                            })
                        },
                    }
                },
                None => r == Expansion::Done && final(self).expanded == old(self).expanded
                    && *final(selected) == *old(selected),
            },
    {
        let id = match *selected {
            Some(id) => id,
            None => return Expansion::Done,
        };
        let (b, i) = match find_node(&self.branches, id) {
            Some(found) => found,
            None => return Expansion::Done,
        };
        if !self.branches[b].1[i].has_children {
            return Expansion::Done;
        }
        let node_id = self.branches[b].1[i].id;
        let expanded = has_id(&self.expanded, node_id);
        match find_branch(&self.branches, Some(node_id)) {
            None => if expanded {
                Expansion::Done
            } else {
                Expansion::LoadBranch(node_id)
            },
            Some(c) => {
                if !expanded {
                    proof {
                        if ids_distinct(self.expanded@) {
                            lemma_push_absent(self.expanded@, node_id);
                        }
                    }
                    self.expanded.push(node_id);
                }
                if self.branches[c].1.len() > 0 {
                    *selected = Some(self.branches[c].1[0].id);
                }
                Expansion::Done
            },
        }
    }

    /// Space: collapses the selected node when it is expanded, else expands
    /// it (once its children are loaded) when it has children.
    pub fn toggle_selected(&mut self, selected: Option<NodeId>) -> (r: Expansion)
        ensures
            old(self).wf() ==> final(self).wf(),
            final(self).branches == old(self).branches,
            final(self).focus_path == old(self).focus_path,
            final(self).contexts == old(self).contexts,
            match selected_at(old(self).branches@, selected) {
                Some(node) => if !node.has_children {
                    r == Expansion::Done && final(self).expanded == old(self).expanded
                } else if contains_id(old(self).expanded@, node.id) {
                    r == Expansion::Done && final(self).expanded@ == without_id(
                        old(self).expanded@,
                        node.id,
                    )
                } else if branch_index(old(self).branches@, Some(node.id)) is None {
                    r == Expansion::LoadBranch(node.id) && final(self).expanded == old(self).expanded
                } else {
                    r == Expansion::Done && final(self).expanded@ == old(self).expanded@.push(node.id)
                },
                None => r == Expansion::Done && final(self).expanded == old(self).expanded,
            },
    {
        let id = match selected {
            Some(id) => id,
            None => return Expansion::Done,
        };
        let (b, i) = match find_node(&self.branches, id) {
            Some(found) => found,
            None => return Expansion::Done,
        };
        if !self.branches[b].1[i].has_children {
            return Expansion::Done;
        }
        let node_id = self.branches[b].1[i].id;
        if has_id(&self.expanded, node_id) {
            self.collapse(node_id);
            return Expansion::Done;
        }
        match find_branch(&self.branches, Some(node_id)) {
            None => Expansion::LoadBranch(node_id),
            Some(_) => {
                proof {
                    if ids_distinct(self.expanded@) {
                        lemma_push_absent(self.expanded@, node_id);
                    }
                }
                self.expanded.push(node_id);
                Expansion::Done
            },
        }
    }
}

/// The branches left once the children of each pruned node are dropped.
pub open spec fn branches_without(branches: Seq<(Option<NodeId>, Vec<Node>)>, pruned: Seq<NodeId>) -> Seq<
    (Option<NodeId>, Vec<Node>),
>
    decreases pruned.len(),
{
    if pruned.len() == 0 {
        branches
    } else {
        without_key(branches_without(branches, pruned.drop_last()), Some(pruned.last()))
    }
}

/// The expanded nodes left once the pruned ones are collapsed.
pub open spec fn expanded_without(expanded: Seq<NodeId>, pruned: Seq<NodeId>) -> Seq<NodeId>
    decreases pruned.len(),
{
    if pruned.len() == 0 {
        expanded
    } else {
        without_id(expanded_without(expanded, pruned.drop_last()), pruned.last())
    }
}

impl LoadedNodes {
    /// Forgets nodes that a save pruned: their loaded children are dropped
    /// and they are no longer expanded.
    pub fn forget_pruned(&mut self, pruned: &Vec<NodeId>)
        ensures
            final(self).branches@ == branches_without(old(self).branches@, pruned@),
            final(self).expanded@ == expanded_without(old(self).expanded@, pruned@),
            final(self).focus_path == old(self).focus_path,
            final(self).contexts == old(self).contexts,
            old(self).wf() ==> final(self).wf(),
    {
        let mut i: usize = 0;
        assert(pruned@.take(0) =~= Seq::<NodeId>::empty());
        while i < pruned.len()
            invariant
                i <= pruned@.len(),
                self.branches@ == branches_without(old(self).branches@, pruned@.take(i as int)),
                self.expanded@ == expanded_without(old(self).expanded@, pruned@.take(i as int)),
                self.focus_path == old(self).focus_path,
                self.contexts == old(self).contexts,
                old(self).wf() ==> self.wf(),
            decreases pruned@.len() - i,
        {
            assert(pruned@.take(i + 1).drop_last() =~= pruned@.take(i as int));
            self.remove_branches_of(pruned[i]);
            self.collapse(pruned[i]);
            i += 1;
        }
        assert(pruned@.take(i as int) =~= pruned@);
    }
}

/// Expanding a collapsed node and collapsing it again gives back the
/// expanded nodes.
pub proof fn lemma_expand_then_collapse(expanded: Seq<NodeId>, id: NodeId)
    requires
        !contains_id(expanded, id),
    ensures
        contains_id(expanded.push(id), id),
        without_id(expanded.push(id), id) == expanded,
{
    assert(expanded.push(id)[expanded.len() as int] == id);
    assert(expanded.push(id).drop_last() =~= expanded);
    lemma_without_absent(expanded, id);
}

proof fn lemma_without_absent(ids: Seq<NodeId>, id: NodeId)
    requires
        !contains_id(ids, id),
    ensures
        without_id(ids, id) == ids,
    decreases ids.len(),
{
    if ids.len() > 0 {
        let prev = ids.drop_last();
        assert(!contains_id(prev, id)) by {
            if contains_id(prev, id) {
                let k = choose|k: int| 0 <= k < prev.len() && (#[trigger] prev[k])@ == id@;
                assert(ids[k] == prev[k]);
            }
        }
        lemma_without_absent(prev, id);
        assert(ids[ids.len() - 1] == ids.last());
        assert(prev.push(ids.last()) =~= ids);
    }
}

/// The identities of the nodes without children, in order.
pub open spec fn childless_ids(nodes: Seq<Node>) -> Seq<NodeId>
    decreases nodes.len(),
{
    if nodes.len() == 0 {
        seq![]
    } else if nodes.last().has_children {
        childless_ids(nodes.drop_last())
    } else {
        childless_ids(nodes.drop_last()).push(nodes.last().id)
    }
}

/// The branches with `nodes` as the loaded children of `parent`: in place
/// of the branch already loaded for it, else added last.
pub open spec fn with_branch(
    branches: Seq<(Option<NodeId>, Vec<Node>)>,
    parent: Option<NodeId>,
    nodes: Vec<Node>,
) -> Seq<(Option<NodeId>, Vec<Node>)> {
    match branch_index(branches, parent) {
        Some(b) => branches.update(b, (parent, nodes)),
        None => branches.push((parent, nodes)),
    }
}

proof fn lemma_branch_index_spec(branches: Seq<(Option<NodeId>, Vec<Node>)>, key: Option<NodeId>)
    ensures
        branch_index(branches, key) matches Some(b) ==> 0 <= b < branches.len() && same_key(
            branches[b].0,
            key,
        ),
        branch_index(branches, key) is None ==> forall|i: int|
            0 <= i < branches.len() ==> !same_key(#[trigger] branches[i].0, key),
    decreases branches.len(),
{
    if branches.len() > 0 {
        let prev = branches.drop_last();
        lemma_branch_index_spec(prev, key);
        assert forall|i: int| 0 <= i < prev.len() implies prev[i] == #[trigger] branches[i] by {}
    }
}

proof fn lemma_with_branch_wf(
    branches: Seq<(Option<NodeId>, Vec<Node>)>,
    parent: Option<NodeId>,
    nodes: Vec<Node>,
)
    requires
        keys_distinct(branches),
    ensures
        keys_distinct(with_branch(branches, parent, nodes)),
{
    lemma_branch_index_spec(branches, parent);
    let r = with_branch(branches, parent, nodes);
    match branch_index(branches, parent) {
        Some(b) => {
            assert forall|i: int, j: int| 0 <= i < j < r.len() implies !same_key(
                #[trigger] r[i].0,
                #[trigger] r[j].0,
            ) by {
                if i == b {
                    assert(!same_key(branches[b].0, branches[j].0));
                } else if j == b {
                    assert(!same_key(branches[i].0, branches[b].0));
                } else {
                    assert(!same_key(branches[i].0, branches[j].0));
                }
            }
        },
        None => {
            assert forall|i: int, j: int| 0 <= i < j < r.len() implies !same_key(
                #[trigger] r[i].0,
                #[trigger] r[j].0,
            ) by {
                assert(r[i] == branches[i]);
                if j < branches.len() {
                    assert(r[j] == branches[j]);
                } else {
                    assert(!same_key(branches[i].0, parent));
                }
            }
        },
    }
}

/// For each shown row that is expanded, its node and how many of its
/// children are loaded.
pub open spec fn open_counts(
    branches: Seq<(Option<NodeId>, Vec<Node>)>,
    expanded: Seq<NodeId>,
    slots: Seq<VisibleSlot>,
) -> Seq<(NodeId, int)>
    decreases slots.len(),
{
    if slots.len() == 0 {
        seq![]
    } else {
        let rest = open_counts(branches, expanded, slots.drop_last());
        let id = slot_node(branches, slots.last()).id;
        if contains_id(expanded, id) {
            rest.push(
                (
                    id,
                    match branch_index(branches, Some(id)) {
                        Some(c) => branches[c].1@.len() as int,
                        None => 0,
                    },
                ),
            )
        } else {
            rest
        }
    }
}

fn childless(nodes: &Vec<Node>) -> (r: Vec<NodeId>)
    ensures
        r@ == childless_ids(nodes@),
{
    let mut r: Vec<NodeId> = Vec::new();
    let mut i: usize = 0;
    assert(nodes@.take(0) =~= Seq::<Node>::empty());
    while i < nodes.len()
        invariant
            i <= nodes@.len(),
            r@ == childless_ids(nodes@.take(i as int)),
        decreases nodes@.len() - i,
    {
        assert(nodes@.take(i + 1).drop_last() =~= nodes@.take(i as int));
        if !nodes[i].has_children {
            r.push(nodes[i].id);
        }
        i += 1;
    }
    assert(nodes@.take(i as int) =~= nodes@);
    r
}

impl LoadedNodes {
    /// Installs a freshly loaded first page of the children of `parent`:
    /// nodes that have no children any more are collapsed and their loaded
    /// children dropped, then the page replaces what was loaded for
    /// `parent`.
    pub fn install_branch(&mut self, parent: Option<NodeId>, nodes: Vec<Node>)
        ensures
            final(self).branches@ == with_branch(
                branches_without(old(self).branches@, childless_ids(nodes@)),
                parent,
                nodes,
            ),
            final(self).expanded@ == expanded_without(old(self).expanded@, childless_ids(nodes@)),
            final(self).focus_path == old(self).focus_path,
            final(self).contexts == old(self).contexts,
            old(self).wf() ==> final(self).wf(),
    {
        let gone = childless(&nodes);
        self.forget_pruned(&gone);
        let ghost kept = self.branches@;
        proof {
            if keys_distinct(kept) {
                lemma_with_branch_wf(kept, parent, nodes);
            }
        }
        match find_branch(&self.branches, parent) {
            Some(b) => {
                self.branches.set(b, (parent, nodes));
            },
            None => {
                self.branches.push((parent, nodes));
            },
        }
    }

    /// For each shown row that is expanded, its node and how many of its
    /// children are loaded, in the order of the rows.
    pub fn open_branch_counts(&self, focus: Option<NodeId>) -> (r: Vec<(NodeId, usize)>)
        ensures
            r@.map_values(|e: (NodeId, usize)| (e.0, e.1 as int)) == open_counts(
                self.branches@,
                self.expanded@,
                visible_spec(self.branches@, self.expanded@, focus),
            ),
    {
        let slots = visible_slots(&self.branches, &self.expanded, focus);
        let ghost all = slots@;
        let mut r: Vec<(NodeId, usize)> = Vec::new();
        let mut k: usize = 0;
        assert(all.take(0) =~= Seq::<VisibleSlot>::empty());
        while k < slots.len()
            invariant
                k <= slots@.len(),
                all == slots@,
                forall|j: int| 0 <= j < slots@.len() ==> slot_valid(self.branches@, #[trigger] slots@[j]),
                r@.map_values(|e: (NodeId, usize)| (e.0, e.1 as int)) == open_counts(
                    self.branches@,
                    self.expanded@,
                    all.take(k as int),
                ),
            decreases slots@.len() - k,
        {
            let slot = slots[k];
            assert(slot_valid(self.branches@, slots@[k as int]));
            assert(all.take(k + 1).drop_last() =~= all.take(k as int));
            assert(all.take(k + 1).last() == slot);
            let id = self.branches[slot.branch].1[slot.index].id;
            if has_id(&self.expanded, id) {
                let count = match find_branch(&self.branches, Some(id)) {
                    Some(c) => self.branches[c].1.len(),
                    None => 0,
                };
                let ghost before = r@;
                r.push((id, count));
                assert(r@.map_values(|e: (NodeId, usize)| (e.0, e.1 as int)) =~= before.map_values(
                    |e: (NodeId, usize)| (e.0, e.1 as int),
                ).push((id, count as int)));
            }
            k += 1;
        }
        assert(all.take(k as int) =~= all);
        r
    }
}

} // verus!
