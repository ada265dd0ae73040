//! Which loaded nodes the outline shows, and at which depth: the children
//! of the focus, and below each expanded node its loaded children.

use vstd::prelude::*;

use crate::display::{contains_id, has_id};
use crate::identity::NodeId;
use crate::model::Node;

verus! {

/// A row of the outline: node `index` of loaded branch `branch`, `depth`
/// levels below the focus.
#[derive(Clone, Copy, Debug, PartialEq, Eq, Structural)]
pub struct VisibleSlot {
    /// Index of the branch in the loaded branches.
    pub branch: usize,
    /// Index of the node within its branch.
    pub index: usize,
    /// Levels below the focus (zero for its children).
    pub depth: usize,
}

/// The loaded children of each parent (`None` for the roots), by parent.
pub type Branches = Vec<(Option<NodeId>, Vec<Node>)>;

/// Whether two parent keys name the same parent.
pub open spec fn same_key(a: Option<NodeId>, b: Option<NodeId>) -> bool {
    match (a, b) {
        (None, None) => true,
        (Some(x), Some(y)) => x@ == y@,
        _ => false,
    }
}

/// Index of the first branch loaded for parent `key`, if any.
pub open spec fn branch_index(branches: Seq<(Option<NodeId>, Vec<Node>)>, key: Option<NodeId>) -> Option<int>
    decreases branches.len(),
{
    if branches.len() == 0 {
        None
    } else {
        match branch_index(branches.drop_last(), key) {
            Some(i) => Some(i),
            None => if same_key(branches.last().0, key) {
                Some(branches.len() - 1)
            } else {
                None
            },
        }
    }
}

/// The rows for the nodes of branch `b` from index `from` on, at `depth`:
/// each node, then, when it is expanded and `budget` allows one more level,
/// the rows of its loaded children.
pub open spec fn listed(
    branches: Seq<(Option<NodeId>, Vec<Node>)>,
    expanded: Seq<NodeId>,
    b: int,
    from: int,
    depth: nat,
    budget: nat,
) -> Seq<VisibleSlot>
    decreases budget, branches[b].1@.len() - from,
{
    if b < 0 || b >= branches.len() || from < 0 || from >= branches[b].1@.len() {
        seq![]
    } else {
        let id = branches[b].1@[from].id;
        let below = if budget > 0 && contains_id(expanded, id) {
            match branch_index(branches, Some(id)) {
                Some(c) => listed(branches, expanded, c, 0, depth + 1, (budget - 1) as nat),
                None => seq![],
            }
        } else {
            seq![]
        };
        seq![VisibleSlot { branch: b as usize, index: from as usize, depth: depth as usize }] + below
            + listed(branches, expanded, b, from + 1, depth, budget)
    }
}

/// The rows of the outline focused on `focus`: the loaded children of the
/// focus in order, each followed by the rows below it when it is expanded.
/// Levels are expanded at most as many times as there are loaded branches,
/// which a tree of branches never reaches.
pub open spec fn visible_spec(
    branches: Seq<(Option<NodeId>, Vec<Node>)>,
    expanded: Seq<NodeId>,
    focus: Option<NodeId>,
) -> Seq<VisibleSlot> {
    match branch_index(branches, focus) {
        Some(b) => listed(branches, expanded, b, 0, 0, branches.len()),
        None => seq![],
    }
}

proof fn lemma_branch_index_bounds(branches: Seq<(Option<NodeId>, Vec<Node>)>, key: Option<NodeId>)
    ensures
        branch_index(branches, key) matches Some(i) ==> 0 <= i < branches.len(),
    decreases branches.len(),
{
    if branches.len() > 0 {
        lemma_branch_index_bounds(branches.drop_last(), key);
    }
}

fn same_parent(a: Option<NodeId>, b: Option<NodeId>) -> (r: bool)
    ensures
        r == same_key(a, b),
{
    match (a, b) {
        (None, None) => true,
        (Some(x), Some(y)) => x == y,
        _ => false,
    }
}

/// Index of the first branch loaded for parent `key`.
pub fn find_branch(branches: &Branches, key: Option<NodeId>) -> (r: Option<usize>)
    ensures
        match branch_index(branches@, key) {
            Some(i) => r == Some(i as usize),
            None => r is None,
        },
        r matches Some(i) ==> i < branches@.len() && branch_index(branches@, key) == Some(i as int),
        branch_index(branches@, key) matches Some(i) ==> 0 <= i < branches@.len(),
{
    proof {
        lemma_branch_index_bounds(branches@, key);
    }
    let mut i: usize = 0;
    assert(branches@.take(0) =~= Seq::<(Option<NodeId>, Vec<Node>)>::empty());
    while i < branches.len()
        invariant
            i <= branches@.len(),
            branch_index(branches@.take(i as int), key) is None,
            branch_index(branches@, key) matches Some(j) ==> 0 <= j < branches@.len(),
        decreases branches@.len() - i,
    {
        let ghost next = branches@.take(i + 1);
        assert(next.drop_last() =~= branches@.take(i as int));
        if same_parent(branches[i].0, key) {
            proof {
                lemma_branch_index_prefix(branches@, key, i + 1);
            }
            return Some(i);
        }
        i += 1;
    }
    proof {
        assert(branches@.take(i as int) =~= branches@);
    }
    None
}

proof fn lemma_branch_index_prefix(branches: Seq<(Option<NodeId>, Vec<Node>)>, key: Option<NodeId>, n: int)
    requires
        0 <= n <= branches.len(),
        branch_index(branches.take(n), key) is Some,
    ensures
        branch_index(branches, key) == branch_index(branches.take(n), key),
    decreases branches.len() - n,
{
    if n < branches.len() {
        let next = branches.take(n + 1);
        assert(next.drop_last() =~= branches.take(n));
        lemma_branch_index_prefix(branches, key, n + 1);
    } else {
        assert(branches.take(n) =~= branches);
    }
}

fn list_branch(
    branches: &Branches,
    expanded: &Vec<NodeId>,
    b: usize,
    depth: usize,
    budget: usize,
    out: &mut Vec<VisibleSlot>,
)
    requires
        b < branches@.len(),
        depth + budget <= branches@.len(),
    ensures
        final(out)@ == old(out)@ + listed(branches@, expanded@, b as int, 0, depth as nat, budget as nat),
        forall|k: int|
            old(out)@.len() <= k < final(out)@.len() ==> slot_valid(branches@, #[trigger] final(out)@[k]),
    decreases budget,
{
    let total = branches.len();
    let nodes = &branches[b].1;
    let n = nodes.len();
    let mut from: usize = 0;
    while from < n
        invariant
            total == branches@.len(),
            b < branches@.len(),
            depth + budget <= branches@.len(),
            nodes == &branches@[b as int].1,
            n == nodes@.len(),
            from <= n,
            out@ + listed(branches@, expanded@, b as int, from as int, depth as nat, budget as nat)
                == old(out)@ + listed(branches@, expanded@, b as int, 0, depth as nat, budget as nat),
            old(out)@.len() <= out@.len(),
            forall|k: int|
                old(out)@.len() <= k < out@.len() ==> slot_valid(branches@, #[trigger] out@[k]),
        decreases n - from,
    {
        let id = nodes[from].id;
        let ghost before = out@;
        let ghost rest = listed(branches@, expanded@, b as int, from + 1, depth as nat, budget as nat);
        out.push(VisibleSlot { branch: b, index: from, depth });
        let ghost mid = out@;
        let ghost below = if budget > 0 && contains_id(expanded@, id) {
            match branch_index(branches@, Some(id)) {
                Some(c) => listed(
                    branches@,
                    expanded@,
                    c,
                    0,
                    (depth + 1) as nat,
                    (budget - 1) as nat,
                ),
                None => seq![],
            }
        } else {
            seq![]
        };
        if budget > 0 && has_id(expanded, id) {
            match find_branch(branches, Some(id)) {
                Some(c) => {
                    list_branch(branches, expanded, c, depth + 1, budget - 1, out);
                    assert(out@ =~= mid + below);
                },
                None => {
                    assert(out@ =~= mid + below);
                },
            }
        } else {
            assert(out@ =~= mid + below);
        }
        proof {
            let here = listed(branches@, expanded@, b as int, from as int, depth as nat, budget as nat);
            assert(here == seq![VisibleSlot { branch: b, index: from, depth }] + below + rest);
            assert(mid =~= before.push(VisibleSlot { branch: b, index: from, depth }));
            assert(out@ + rest =~= before + here);
        }
        from += 1;
    }
}

/// The rows of the outline focused on `focus`, from the loaded branches
/// and the expanded nodes.
pub fn visible_slots(branches: &Branches, expanded: &Vec<NodeId>, focus: Option<NodeId>) -> (r: Vec<VisibleSlot>)
    ensures
        r@ == visible_spec(branches@, expanded@, focus),
        forall|k: int| 0 <= k < r@.len() ==> slot_valid(branches@, #[trigger] r@[k]),
{
    let mut out: Vec<VisibleSlot> = Vec::new();
    match find_branch(branches, focus) {
        Some(b) => {
            let total = branches.len();
            list_branch(branches, expanded, b, 0, total, &mut out);
            assert(out@ =~= visible_spec(branches@, expanded@, focus));
        },
        None => {},
    }
    out
}

/// Whether a row names a loaded node.
pub open spec fn slot_valid(branches: Seq<(Option<NodeId>, Vec<Node>)>, slot: VisibleSlot) -> bool {
    slot.branch < branches.len() && slot.index < branches[slot.branch as int].1@.len()
}

/// The node a row names.
pub open spec fn slot_node(branches: Seq<(Option<NodeId>, Vec<Node>)>, slot: VisibleSlot) -> Node {
    branches[slot.branch as int].1@[slot.index as int]
}

/// Whether the outline focused on `focus` shows node `id`.
pub fn is_visible(branches: &Branches, expanded: &Vec<NodeId>, focus: Option<NodeId>, id: NodeId) -> (r: bool)
    ensures
        r == exists|k: int|
            0 <= k < visible_spec(branches@, expanded@, focus).len() && slot_node(
                branches@,
                #[trigger] visible_spec(branches@, expanded@, focus)[k],
            ).id@ == id@,
{
    let slots = visible_slots(branches, expanded, focus);
    let mut k: usize = 0;
    while k < slots.len()
        invariant
            k <= slots@.len(),
            slots@ == visible_spec(branches@, expanded@, focus),
            forall|j: int| 0 <= j < slots@.len() ==> slot_valid(branches@, #[trigger] slots@[j]),
            forall|j: int| 0 <= j < k ==> slot_node(branches@, #[trigger] slots@[j]).id@ != id@,
        decreases slots@.len() - k,
    {
        let slot = slots[k];
        assert(slot_valid(branches@, slots@[k as int]));
        if branches[slot.branch].1[slot.index].id == id {
            return true;
        }
        k += 1;
    }
    false
}

/// Branch `b` holds at index `i` a node with identity `id`.
pub open spec fn holds_id(branches: Seq<(Option<NodeId>, Vec<Node>)>, id: NodeId, b: int, i: int) -> bool {
    0 <= b < branches.len() && 0 <= i < branches[b].1@.len() && branches[b].1@[i].id@ == id@
}

/// Position `(b, i)` comes before position `(c, j)`.
pub open spec fn earlier(b: int, i: int, c: int, j: int) -> bool {
    b < c || (b == c && i < j)
}

/// `(b, i)` is the first position, branch by branch, holding node `id`.
pub open spec fn is_first_node(branches: Seq<(Option<NodeId>, Vec<Node>)>, id: NodeId, b: int, i: int) -> bool {
    &&& holds_id(branches, id, b, i)
    &&& forall|c: int, j: int| #[trigger] holds_id(branches, id, c, j) ==> !earlier(c, j, b, i)
}

/// The first position holding node `id`, if any.
pub open spec fn first_node(branches: Seq<(Option<NodeId>, Vec<Node>)>, id: NodeId) -> Option<(int, int)> {
    if exists|b: int, i: int| is_first_node(branches, id, b, i) {
        Some(choose|b: int, i: int| is_first_node(branches, id, b, i))
    } else {
        None
    }
}

proof fn lemma_first_node_unique(branches: Seq<(Option<NodeId>, Vec<Node>)>, id: NodeId, b: int, i: int)
    requires
        is_first_node(branches, id, b, i),
    ensures
        first_node(branches, id) == Some((b, i)),
{
    let (c, j) = choose|c: int, j: int| is_first_node(branches, id, c, j);
    assert(holds_id(branches, id, c, j));
    assert(holds_id(branches, id, b, i));
    assert(!earlier(c, j, b, i));
    assert(!earlier(b, i, c, j));
}

/// Where node `id` is loaded first, branch by branch, if it is.
pub fn find_node(branches: &Branches, id: NodeId) -> (r: Option<(usize, usize)>)
    ensures
        r matches Some((b, i)) ==> first_node(branches@, id) == Some((b as int, i as int)) && b
            < branches@.len() && i < branches@[b as int].1@.len(),
        r is None ==> first_node(branches@, id) is None && forall|b: int, i: int|
            !holds_id(branches@, id, b, i),
        first_node(branches@, id) matches Some((b, i)) ==> is_first_node(branches@, id, b, i),
{
    let mut b: usize = 0;
    while b < branches.len()
        invariant
            b <= branches@.len(),
            forall|c: int, i: int| 0 <= c < b ==> !#[trigger] holds_id(branches@, id, c, i),
        decreases branches@.len() - b,
    {
        let nodes = &branches[b].1;
        let mut i: usize = 0;
        while i < nodes.len()
            invariant
                b < branches@.len(),
                nodes == &branches@[b as int].1,
                i <= nodes@.len(),
                forall|c: int, k: int| 0 <= c < b ==> !#[trigger] holds_id(branches@, id, c, k),
                forall|j: int| 0 <= j < i ==> !#[trigger] holds_id(branches@, id, b as int, j),
            decreases nodes@.len() - i,
        {
            if nodes[i].id == id {
                proof {
                    assert(holds_id(branches@, id, b as int, i as int));
                    assert(is_first_node(branches@, id, b as int, i as int));
                    lemma_first_node_unique(branches@, id, b as int, i as int);
                }
                return Some((b, i));
            }
            i += 1;
        }
        b += 1;
    }
    proof {
        assert forall|c: int, k: int| !holds_id(branches@, id, c, k) by {}
        assert(!exists|c: int, k: int| is_first_node(branches@, id, c, k));
    }
    None
}

/// Whether node `id` is the last loaded child of `parent`, so that the
/// next page of siblings is due when the selection moves past it.
pub fn is_last_loaded(branches: &Branches, parent: Option<NodeId>, id: NodeId) -> (r: bool)
    ensures
        r == (branch_index(branches@, parent) matches Some(b) && branches@[b].1@.len() > 0
            && branches@[b].1@.last().id@ == id@),
{
    match find_branch(branches, parent) {
        None => false,
        Some(b) => {
            let n = branches[b].1.len();
            n > 0 && branches[b].1[n - 1].id == id
        },
    }
}

} // verus!
