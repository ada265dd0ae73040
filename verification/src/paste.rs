//! Where each item of a pasted outline goes: under the destination or
//! under an earlier item, and in which order among its siblings.

use vstd::prelude::*;

use crate::error::Error;
use crate::outline::{
    entries_view, lines_spec, parse_outline, pop_deeper, read_lines, OutlineEntry, OutlineState,
    ParsedNode,
};

verus! {

/// The parent of a pasted item.
#[derive(Clone, Copy, Debug, PartialEq, Eq, Structural)]
pub enum PasteParent {
    /// The parent of the paste destination.
    Destination,
    /// The pasted item at this index.
    Item(usize),
}

/// The place of a pasted item among its siblings.
#[derive(Clone, Copy, Debug, PartialEq, Eq, Structural)]
pub enum PastePlace {
    /// The placement of the paste destination (the first top-level item).
    Destination,
    /// Right after the top-level item at this index.
    AfterItem(usize),
    /// After the existing children (nested items).
    Last,
}

/// The parent and the place of one pasted item.
#[derive(Clone, Copy, Debug, PartialEq, Eq, Structural)]
pub struct PasteSlot {
    /// Where the item goes.
    pub parent: PasteParent,
    /// Its place among its siblings.
    pub place: PastePlace,
}

/// The depths of the parsed items.
pub open spec fn depths_of(items: Seq<ParsedNode>) -> Seq<usize> {
    items.map_values(|item: ParsedNode| item.depth)
}

/// The number of open levels before item `i`: one more than the depth of
/// the item before it, none before the first.
pub open spec fn open_levels(depths: Seq<usize>, i: int) -> int {
    if i <= 0 {
        0
    } else {
        depths[i - 1] + 1
    }
}

/// Every item is at most one level deeper than the item before it, and the
/// first one is at the top level.
pub open spec fn levels_connected(depths: Seq<usize>) -> bool {
    forall|i: int| 0 <= i < depths.len() ==> #[trigger] depths[i] <= open_levels(depths, i)
}

/// The index of the last item before item `i` at depth `k`, or -1.
pub open spec fn last_at_depth(depths: Seq<usize>, i: int, k: int) -> int
    decreases i,
{
    if i <= 0 {
        -1
    } else if depths[i - 1] == k {
        i - 1
    } else {
        last_at_depth(depths, i - 1, k)
    }
}

/// Where item `i` goes: a top-level item under the destination's parent,
/// the first one at the destination's place and each later one right
/// after the previous top-level item; a nested item last under the closest
/// earlier item one level up.
pub open spec fn slot_of(depths: Seq<usize>, i: int) -> PasteSlot {
    if depths[i] == 0 {
        let previous = last_at_depth(depths, i, 0);
        PasteSlot {
            parent: PasteParent::Destination,
            place: if previous < 0 {
                PastePlace::Destination
            } else {
                PastePlace::AfterItem(previous as usize)
            },
        }
    } else {
        PasteSlot {
            parent: PasteParent::Item(last_at_depth(depths, i, depths[i] - 1) as usize),
            place: PastePlace::Last,
        }
    }
}

proof fn lemma_last_at_depth_bounds(depths: Seq<usize>, i: int, k: int)
    requires
        0 <= i <= depths.len(),
    ensures
        -1 <= last_at_depth(depths, i, k) < i,
        last_at_depth(depths, i, k) >= 0 ==> depths[last_at_depth(depths, i, k)] == k,
    decreases i,
{
    if i > 0 && depths[i - 1] != k {
        lemma_last_at_depth_bounds(depths, i - 1, k);
    }
}

proof fn lemma_last_at_depth_closest(depths: Seq<usize>, i: int, k: int)
    requires
        0 <= i <= depths.len(),
    ensures
        forall|m: int| last_at_depth(depths, i, k) < m < i ==> #[trigger] depths[m] != k,
    decreases i,
{
    if i > 0 && depths[i - 1] != k {
        lemma_last_at_depth_closest(depths, i - 1, k);
    }
}

/// Plans where the items of a parsed outline go. Fails, as the paste does,
/// when an item is more than one level deeper than the item before it.
pub fn paste_plan(items: &Vec<ParsedNode>) -> (r: Result<Vec<PasteSlot>, Error>)
    ensures
        levels_connected(depths_of(items@)) ==> (r matches Ok(slots) && slots@.len() == items@.len()
            && forall|i: int| 0 <= i < items@.len() ==> #[trigger] slots@[i] == slot_of(
            depths_of(items@),
            i,
        )),
        !levels_connected(depths_of(items@)) ==> (r matches Err(Error::InvalidClipboard(m)) && m@
            == "indentation skips a parent level"@),
{
    let ghost depths = depths_of(items@);
    let mut parents: Vec<usize> = Vec::new();
    let mut previous_root: Option<usize> = None;
    let mut slots: Vec<PasteSlot> = Vec::new();
    let mut i: usize = 0;
    while i < items.len()
        invariant
            i <= items@.len(),
            depths == depths_of(items@),
            parents@.len() == open_levels(depths, i as int),
            forall|k: int|
                0 <= k < parents@.len() ==> #[trigger] parents@[k] == last_at_depth(depths, i as int, k),
            previous_root == (if last_at_depth(depths, i as int, 0) < 0 {
                None::<usize>
            } else {
                Some(last_at_depth(depths, i as int, 0) as usize)
            }),
            slots@.len() == i,
            forall|j: int| 0 <= j < i ==> #[trigger] slots@[j] == slot_of(depths, j),
            forall|j: int| 0 <= j < i ==> #[trigger] depths[j] <= open_levels(depths, j),
        decreases items@.len() - i,
    {
        let depth = items[i].depth;
        assert(depths[i as int] == depth);
        proof {
            lemma_last_at_depth_bounds(depths, i as int, 0);
        }
        if depth > parents.len() {
            assert(!levels_connected(depths)) by {
                assert(!(depths[i as int] <= open_levels(depths, i as int)));
            }
            return Err(Error::InvalidClipboard(String::from_str("indentation skips a parent level")));
        }
        parents.truncate(depth);
        let slot = if depth == 0 {
            PasteSlot {
                parent: PasteParent::Destination,
                place: match previous_root {
                    Some(root) => PastePlace::AfterItem(root),
                    None => PastePlace::Destination,
                },
            }
        } else {
            PasteSlot { parent: PasteParent::Item(parents[depth - 1]), place: PastePlace::Last }
        };
        assert(slot == slot_of(depths, i as int));
        slots.push(slot);
        parents.push(i);
        if depth == 0 {
            previous_root = Some(i);
        }
        proof {
            let n = (i + 1) as int;
            assert forall|k: int| 0 <= k < parents@.len() implies #[trigger] parents@[k]
                == last_at_depth(depths, n, k) by {
                if k < depth {
                    assert(depths[n - 1] != k);
                } else {
                    assert(depths[n - 1] == k);
                }
            }
            assert forall|j: int| 0 <= j < n implies #[trigger] slots@[j] == slot_of(depths, j) by {
                if j < i {
                } else {
                }
            }
        }
        i += 1;
    }
    proof {
        assert forall|j: int| 0 <= j < depths.len() implies #[trigger] depths[j] <= open_levels(
            depths,
            j,
        ) by {}
    }
    Ok(slots)
}

/// Each read item is at most one level below the item before it, and the
/// open levels are one more than the depth of the last item.
spec fn read_levels_connected(levels: Seq<int>, items: Seq<OutlineEntry>) -> bool {
    &&& items.len() == 0 ==> levels.len() == 0
    &&& items.len() > 0 ==> levels.len() == items.last().0 + 1
    &&& forall|i: int|
        0 <= i < items.len() ==> (#[trigger] items[i]).0 <= (if i == 0 {
            0
        } else {
            items[i - 1].0 + 1
        })
}

proof fn lemma_pop_deeper_len(levels: Seq<int>, indent: int)
    ensures
        pop_deeper(levels, indent).len() <= levels.len(),
    decreases levels.len(),
{
    if levels.len() > 0 && levels.last() > indent {
        lemma_pop_deeper_len(levels.drop_last(), indent);
    }
}

proof fn lemma_read_lines_connected(lines: Seq<Seq<char>>)
    ensures
        read_lines(lines) matches OutlineState::Reading(levels, items) ==> read_levels_connected(
            levels,
            items,
        ),
    decreases lines.len(),
{
    if lines.len() > 0 {
        lemma_read_lines_connected(lines.drop_last());
        match read_lines(lines.drop_last()) {
            OutlineState::Reading(levels, items) => {
                let line = lines.last();
                lemma_pop_deeper_len(levels, crate::outline::indent_width(line));
                match read_lines(lines) {
                    OutlineState::Reading(next, all) => {
                        if all.len() > items.len() {
                            assert forall|i: int| 0 <= i < all.len() implies (#[trigger] all[i]).0 <= (
                            if i == 0 {
                                0
                            } else {
                                all[i - 1].0 + 1
                            }) by {
                                if i < items.len() {
                                    assert(all[i] == items[i]);
                                    if i > 0 {
                                        assert(all[i - 1] == items[i - 1]);
                                    }
                                } else if i > 0 {
                                    assert(all[i - 1] == items[i - 1]);
                                }
                            }
                        }
                    },
                    _ => {},
                }
            },
            _ => {},
        }
    }
}

/// Every outline that the clipboard parse accepts is pasted without an
/// indentation error: each of its items is at most one level deeper than
/// the item before it.
pub proof fn lemma_parsed_outline_levels_connected(text: Seq<char>, items: Seq<ParsedNode>)
    requires
        read_lines(lines_spec(text)) matches OutlineState::Reading(_, entries) && entries_view(items)
            == entries,
    ensures
        levels_connected(depths_of(items)),
{
    lemma_read_lines_connected(lines_spec(text));
    let entries = entries_view(items);
    assert forall|i: int| 0 <= i < depths_of(items).len() implies #[trigger] depths_of(items)[i]
        <= open_levels(depths_of(items), i) by {
        assert(entries[i].0 == items[i].depth);
        if i > 0 {
            assert(entries[i - 1].0 == items[i - 1].depth);
        }
    }
}

/// Reads clipboard text as an outline and plans where each of its items
/// goes, as a paste does before it writes anything.
pub fn plan_paste(text: &str) -> (r: Result<(Vec<ParsedNode>, Vec<PasteSlot>), Error>)
    requires
        text@.len() <= usize::MAX / 4,
        !(read_lines(lines_spec(text@)) is Unsplittable),
    ensures
        match read_lines(lines_spec(text@)) {
            OutlineState::Reading(_, entries) => if entries.len() == 0 {
                r matches Err(Error::InvalidClipboard(m)) && m@ == "the clipboard is empty"@
            } else {
                r matches Ok((items, slots)) && entries_view(items@) == entries && slots@.len()
                    == items@.len() && forall|i: int|
                    0 <= i < items@.len() ==> #[trigger] slots@[i] == slot_of(depths_of(items@), i)
            },
            OutlineState::Misaligned => r matches Err(Error::InvalidClipboard(m)) && m@
                == "indentation does not match an earlier level"@,
            OutlineState::Unsplittable => false,
        },
{
    match parse_outline(text) {
        Err(error) => Err(error),
        Ok(items) => {
            proof {
                lemma_parsed_outline_levels_connected(text@, items@);
            }
            match paste_plan(&items) {
                Ok(slots) => Ok((items, slots)),
                Err(error) => Err(error),
            }
        },
    }
}

/// In a paste plan, every nested item goes under an earlier item exactly
/// one level up, and every top-level item after an earlier top-level item
/// (the first one at the destination's place).
pub proof fn lemma_paste_parents_come_first(depths: Seq<usize>, i: int)
    requires
        0 <= i < depths.len() <= usize::MAX,
        levels_connected(depths),
    ensures
        slot_of(depths, i).parent matches PasteParent::Item(j) ==> j < i && depths[j as int] + 1
            == depths[i],
        slot_of(depths, i).parent matches PasteParent::Item(j) ==> forall|m: int|
            j < m < i ==> #[trigger] depths[m] != depths[i] - 1,
        slot_of(depths, i).place matches PastePlace::AfterItem(j) ==> j < i && depths[j as int]
            == 0,
        slot_of(depths, i).place matches PastePlace::AfterItem(j) ==> forall|m: int|
            j < m < i ==> #[trigger] depths[m] != 0,
        slot_of(depths, i).place == PastePlace::Destination <==> (depths[i] == 0 && forall|m: int|
            0 <= m < i ==> #[trigger] depths[m] != 0),
        depths[i] == 0 <==> slot_of(depths, i).parent == PasteParent::Destination,
{
    lemma_last_at_depth_bounds(depths, i, 0);
    lemma_last_at_depth_closest(depths, i, 0);
    if depths[i] > 0 {
        lemma_last_at_depth_bounds(depths, i, depths[i] - 1);
        lemma_last_at_depth_closest(depths, i, depths[i] - 1);
        lemma_level_opened(depths, i, depths[i] - 1);
    }
}

/// Below the open levels before item `i`, each level has an earlier item.
proof fn lemma_level_opened(depths: Seq<usize>, i: int, k: int)
    requires
        0 <= i <= depths.len(),
        0 <= k < open_levels(depths, i),
        forall|j: int| 0 <= j < i ==> #[trigger] depths[j] <= open_levels(depths, j),
    ensures
        last_at_depth(depths, i, k) >= 0,
    decreases i,
{
    if i > 0 && depths[i - 1] != k {
        assert(k < depths[i - 1]);
        assert(depths[i - 1] <= open_levels(depths, i - 1));
        lemma_level_opened(depths, i - 1, k);
    }
}

} // verus!
