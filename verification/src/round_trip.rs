//! A copied subtree reads back as the nodes it was copied from: the text
//! written for a subtree parses into their texts and tags, at their depths,
//! in the order they were written.

use vstd::prelude::*;

use crate::model::Node;
use crate::identity::NodeId;
use crate::outline::{
    bullet_line, children_of, copied_line, depth_indent, ends_with_tag_token, entry_of,
    first_newline, indent_width, is_blank, lemma_copied_line_reads_back, lemma_first_newline,
    lemma_first_newline_bounds, line_content, lines_spec, next_levels, node_index, pop_deeper,
    read_lines, strings_view, subtree_text, tag_split_inside_char, tags_are_words, tags_suffix,
    with_children, write_run, write_step, OutlineEntry, OutlineState, WriteState,
};
use crate::text::is_ws;
use crate::workspace::has_line_break;

verus! {

/// A node whose copied line reads back as its text and tags: the text does
/// not end with a `#tag`-like token and every tag is a non-empty word.
pub open spec fn copyable(node: Node) -> bool {
    !ends_with_tag_token(node.text@) && tags_are_words(strings_view(node.tags@))
}

/// The nodes written by the run from `st`, with their depths, after the
/// ones already in `written`.
pub open spec fn written_run(
    nodes: Seq<Node>,
    children: Seq<(NodeId, Vec<(i64, NodeId)>)>,
    st: WriteState,
    written: Seq<(nat, Node)>,
    fuel: nat,
) -> Seq<(nat, Node)>
    decreases fuel,
{
    if fuel == 0 || st.0.len() == 0 {
        written
    } else {
        match write_step(nodes, children, st) {
            Err(_) => written,
            Ok(next) => {
                let (id, depth) = st.0.last();
                written_run(
                    nodes,
                    children,
                    next,
                    written.push((depth, nodes[node_index(nodes, id)->0])),
                    (fuel - 1) as nat,
                )
            },
        }
    }
}

/// The nodes of the subtree of `root`, with their depths, in the order they
/// are copied.
pub open spec fn copied_nodes(
    root: NodeId,
    nodes: Seq<Node>,
    children: Seq<(NodeId, Vec<(i64, NodeId)>)>,
) -> Seq<(nat, Node)> {
    written_run(nodes, children, (seq![(root, 0nat)], seq![], seq![]), seq![], nodes.len() + 1)
}

/// The text written for nodes at their depths.
pub open spec fn lines_text(written: Seq<(nat, Node)>) -> Seq<char>
    decreases written.len(),
{
    if written.len() == 0 {
        seq![]
    } else {
        lines_text(written.drop_last()) + bullet_line(written.last().1, written.last().0)
    }
}

/// The outline items that written nodes stand for.
pub open spec fn written_entries(written: Seq<(nat, Node)>) -> Seq<OutlineEntry> {
    written.map_values(|e: (nat, Node)| (e.0, e.1.text@, strings_view(e.1.tags@)))
}

/// The first node is at the top level and each is at most one level
/// deeper than the one before it.
pub open spec fn depths_connected(written: Seq<(nat, Node)>) -> bool {
    &&& written.len() > 0 ==> written[0].0 == 0
    &&& forall|i: int| 1 <= i < written.len() ==> #[trigger] written[i].0 <= written[i - 1].0 + 1
}

/// Every written node can be copied and read back.
pub open spec fn all_copyable(written: Seq<(nat, Node)>) -> bool {
    forall|i: int|
        0 <= i < written.len() ==> copyable(#[trigger] written[i].1) && !has_line_break(
            written[i].1.text@,
        )
}

/// What holds of a run while it writes.
spec fn run_inv(st: WriteState, written: Seq<(nat, Node)>) -> bool {
    &&& st.2 == lines_text(written)
    &&& forall|i: int, j: int| 0 <= i < j < st.0.len() ==> st.0[i].1 <= st.0[j].1
    &&& st.0.len() > 0 ==> st.0.last().1 <= (if written.len() == 0 {
        0
    } else {
        written.last().0 + 1
    })
    &&& depths_connected(written)
    &&& all_copyable(written)
}

proof fn lemma_node_index_found(nodes: Seq<Node>, id: NodeId)
    requires
        node_index(nodes, id) is Some,
    ensures
        0 <= node_index(nodes, id)->0 < nodes.len(),
    decreases nodes.len(),
{
    if nodes.len() > 0 && nodes[0].id@ != id@ {
        lemma_node_index_found(nodes.drop_first(), id);
    }
}

proof fn lemma_run(
    nodes: Seq<Node>,
    children: Seq<(NodeId, Vec<(i64, NodeId)>)>,
    st: WriteState,
    written: Seq<(nat, Node)>,
    fuel: nat,
)
    requires
        run_inv(st, written),
        forall|k: int| 0 <= k < nodes.len() ==> copyable(#[trigger] nodes[k]),
    ensures
        write_run(nodes, children, st, fuel) matches Ok(fin) ==> {
            let w = written_run(nodes, children, st, written, fuel);
            &&& fin.2 == lines_text(w)
            &&& depths_connected(w)
            &&& all_copyable(w)
            &&& w.len() >= written.len()
        },
    decreases fuel,
{
    if fuel == 0 || st.0.len() == 0 {
    } else {
        match write_step(nodes, children, st) {
            Err(_) => {},
            Ok(next) => {
                let (pending, visited, out) = st;
                let (id, depth) = pending.last();
                let rest = pending.drop_last();
                lemma_node_index_found(nodes, id);
                let i = node_index(nodes, id)->0;
                let node = nodes[i];
                let w2 = written.push((depth, node));
                let kids = children_of(children, id);
                assert(next.0 == with_children(rest, kids, depth));
                assert(lines_text(w2) == lines_text(written) + bullet_line(node, depth)) by {
                    assert(w2.drop_last() =~= written);
                }
                assert forall|a: int, b: int| 0 <= a < b < next.0.len() implies next.0[a].1
                    <= next.0[b].1 by {
                    if b < rest.len() {
                        assert(next.0[a] == pending[a]);
                        assert(next.0[b] == pending[b]);
                    } else if a < rest.len() {
                        assert(next.0[a] == pending[a]);
                        assert(pending[a].1 <= pending.last().1);
                    } else {
                    }
                }
                if next.0.len() > 0 {
                    if kids.len() > 0 {
                    } else {
                        assert(next.0 =~= rest);
                        assert(rest.last() == pending[pending.len() - 2]);
                    }
                }
                assert(depths_connected(w2)) by {
                    assert forall|k: int| 1 <= k < w2.len() implies #[trigger] w2[k].0 <= w2[k
                        - 1].0 + 1 by {
                        if k < written.len() {
                            assert(w2[k] == written[k]);
                            assert(w2[k - 1] == written[k - 1]);
                        }
                    }
                }
                assert(all_copyable(w2)) by {
                    assert forall|k: int| 0 <= k < w2.len() implies copyable(#[trigger] w2[k].1)
                        && !has_line_break(w2[k].1.text@) by {
                        if k < written.len() {
                            assert(w2[k] == written[k]);
                        }
                    }
                }
                lemma_run(nodes, children, next, w2, (fuel - 1) as nat);
            },
        }
    }
}

/// The text written for a subtree is the lines of its copied nodes, which
/// start at the top level, go at most one level deeper at a time, and can
/// all be read back.
proof fn lemma_subtree_text_lines(
    root: NodeId,
    nodes: Seq<Node>,
    children: Seq<(NodeId, Vec<(i64, NodeId)>)>,
)
    requires
        forall|k: int| 0 <= k < nodes.len() ==> copyable(#[trigger] nodes[k]),
        subtree_text(root, nodes, children, seq![]) is Ok,
    ensures
        ({
            let w = copied_nodes(root, nodes, children);
            &&& subtree_text(root, nodes, children, seq![])->Ok_0 == lines_text(w)
            &&& depths_connected(w)
            &&& all_copyable(w)
        }),
{
    let st: WriteState = (seq![(root, 0nat)], seq![], seq![]);
    assert(lines_text(Seq::<(nat, Node)>::empty()) == Seq::<char>::empty());
    lemma_run(nodes, children, st, seq![], nodes.len() + 1);
}

/// The lines of written nodes, without their line endings.
pub open spec fn written_lines(written: Seq<(nat, Node)>) -> Seq<Seq<char>> {
    written.map_values(|e: (nat, Node)| copied_line(e.1.text@, strings_view(e.1.tags@), e.0))
}

/// The open indentation levels once a line at `depth` is read: two columns
/// per level.
pub open spec fn levels_upto(depth: nat) -> Seq<int> {
    Seq::new(depth + 1, |k: int| 2 * k)
}

proof fn lemma_first_newline_append(s: Seq<char>, t: Seq<char>)
    requires
        exists|j: int| 0 <= j < s.len() && s[j] == '\n',
    ensures
        first_newline(s + t) == first_newline(s),
        first_newline(s) < s.len(),
{
    lemma_first_newline_bounds(s);
    let k = first_newline(s);
    lemma_first_newline_is_first(s);
    if k == s.len() {
        let j = choose|j: int| 0 <= j < s.len() && s[j] == '\n';
        assert(false);
    }
    lemma_first_newline(s + t, k);
}

proof fn lemma_first_newline_is_first(s: Seq<char>)
    ensures
        forall|j: int| 0 <= j < first_newline(s) && j < s.len() ==> s[j] != '\n',
        first_newline(s) < s.len() ==> s[first_newline(s)] == '\n',
    decreases s.len(),
{
    lemma_first_newline_bounds(s);
    if s.len() > 0 && s[0] != '\n' {
        lemma_first_newline_is_first(s.drop_first());
        lemma_first_newline_bounds(s.drop_first());
        assert forall|j: int| 0 <= j < first_newline(s) && j < s.len() implies s[j] != '\n' by {
            if j > 0 {
                assert(s[j] == s.drop_first()[j - 1]);
            }
        }
        if first_newline(s) < s.len() {
            assert(s[first_newline(s)] == s.drop_first()[first_newline(s) - 1]);
        }
    }
}

/// A line without line breaks, and its line ending, add one line.
proof fn lemma_lines_push(s: Seq<char>, line: Seq<char>)
    requires
        s.len() == 0 || s.last() == '\n',
        forall|j: int| 0 <= j < line.len() ==> line[j] != '\n' && line[j] != '\r',
    ensures
        lines_spec(s + line + seq!['\n']) == lines_spec(s).push(line),
    decreases s.len(),
{
    let full = s + line + seq!['\n'];
    if s.len() == 0 {
        assert(full =~= line + seq!['\n']);
        lemma_first_newline(full, line.len() as int);
        assert(full.take(line.len() as int) =~= line);
        assert(full.skip(line.len() + 1int) =~= Seq::<char>::empty());
        if line.len() > 0 {
            assert(line.last() != '\r');
        }
        assert(lines_spec(Seq::<char>::empty()) =~= Seq::<Seq<char>>::empty());
        assert(lines_spec(full) =~= seq![line]);
    } else {
        assert(s[s.len() - 1] == '\n');
        lemma_first_newline_append(s, line + seq!['\n']);
        lemma_first_newline_bounds(s);
        assert(full =~= s + (line + seq!['\n']));
        let e = first_newline(s);
        assert(full.take(e) =~= s.take(e));
        let rest = s.skip(e + 1);
        assert(full.skip(e + 1) =~= rest + line + seq!['\n']);
        if rest.len() > 0 {
            assert(rest.last() == s.last());
        }
        lemma_lines_push(rest, line);
        assert(lines_spec(s) == seq![if e < s.len() && s.take(e).len() > 0 && s.take(e).last()
            == '\r' {
            s.take(e).drop_last()
        } else {
            s.take(e)
        }] + lines_spec(rest));
    }
}

/// The text written for nodes splits into their lines.
proof fn lemma_lines_of_text(written: Seq<(nat, Node)>)
    requires
        all_copyable(written),
    ensures
        lines_spec(lines_text(written)) == written_lines(written),
        lines_text(written).len() == 0 || lines_text(written).last() == '\n',
    decreases written.len(),
{
    if written.len() == 0 {
        assert(lines_spec(Seq::<char>::empty()) =~= Seq::<Seq<char>>::empty());
        assert(written_lines(written) =~= Seq::<Seq<char>>::empty());
    } else {
        let prev = written.drop_last();
        assert(all_copyable(prev)) by {
            assert forall|i: int| 0 <= i < prev.len() implies copyable(#[trigger] prev[i].1)
                && !has_line_break(prev[i].1.text@) by {
                assert(prev[i] == written[i]);
            }
        }
        lemma_lines_of_text(prev);
        let (depth, node) = written.last();
        assert(copyable(written[written.len() - 1].1));
        assert(!has_line_break(written[written.len() - 1].1.text@));
        let tags = strings_view(node.tags@);
        let line = copied_line(node.text@, tags, depth);
        assert(bullet_line(node, depth) =~= line + seq!['\n']);
        lemma_line_has_no_break(node.text@, tags, depth);
        assert(lines_text(written) =~= lines_text(prev) + line + seq!['\n']);
        lemma_lines_push(lines_text(prev), line);
        assert(written_lines(written) =~= written_lines(prev).push(line));
    }
}

proof fn lemma_tags_suffix_chars(tags: Seq<Seq<char>>)
    requires
        tags_are_words(tags),
    ensures
        forall|j: int|
            0 <= j < tags_suffix(tags).len() ==> !is_ws(#[trigger] tags_suffix(tags)[j])
                || tags_suffix(tags)[j] == ' ',
    decreases tags.len(),
{
    if tags.len() > 0 {
        let prev = tags.drop_last();
        assert(tags_are_words(prev)) by {
            assert forall|i: int| 0 <= i < prev.len() implies (#[trigger] prev[i]).len() > 0
                && forall|j: int| 0 <= j < prev[i].len() ==> !is_ws(#[trigger] prev[i][j]) by {
                assert(prev[i] == tags[i]);
            }
        }
        lemma_tags_suffix_chars(prev);
        let last = tags.last();
        assert(tags[tags.len() - 1] == last);
        let p = tags_suffix(prev);
        assert forall|j: int| 0 <= j < tags_suffix(tags).len() implies !is_ws(
            #[trigger] tags_suffix(tags)[j],
        ) || tags_suffix(tags)[j] == ' ' by {
            if j < p.len() {
                assert(tags_suffix(tags)[j] == p[j]);
            } else if j >= p.len() + 2 {
                assert(tags_suffix(tags)[j] == last[j - p.len() - 2]);
            }
        }
    }
}

proof fn lemma_line_has_no_break(text: Seq<char>, tags: Seq<Seq<char>>, depth: nat)
    requires
        !has_line_break(text),
        tags_are_words(tags),
    ensures
        forall|j: int|
            0 <= j < copied_line(text, tags, depth).len() ==> copied_line(text, tags, depth)[j]
                != '\n' && copied_line(text, tags, depth)[j] != '\r',
{
    let line = copied_line(text, tags, depth);
    let indent = depth_indent(depth);
    lemma_depth_indent_spaces(depth);
    lemma_tags_suffix_chars(tags);
    let suffix = tags_suffix(tags);
    assert forall|j: int| 0 <= j < line.len() implies line[j] != '\n' && line[j] != '\r' by {
        let a = indent.len() as int;
        if j < a {
            assert(line[j] == indent[j]);
        } else if j < a + 2 {
        } else if j < a + 2 + text.len() {
            assert(line[j] == text[j - a - 2]);
        } else {
            assert(line[j] == suffix[j - a - 2 - text.len()]);
        }
    }
}

proof fn lemma_depth_indent_spaces(depth: nat)
    ensures
        depth_indent(depth).len() == 2 * depth,
        forall|j: int| 0 <= j < depth_indent(depth).len() ==> #[trigger] depth_indent(depth)[j] == ' ',
    decreases depth,
{
    if depth > 0 {
        lemma_depth_indent_spaces((depth - 1) as nat);
    }
}

proof fn lemma_indent_width_spaces(spaces: Seq<char>, rest: Seq<char>)
    requires
        forall|j: int| 0 <= j < spaces.len() ==> #[trigger] spaces[j] == ' ',
        rest.len() > 0 && rest[0] != ' ' && rest[0] != '\t',
    ensures
        indent_width(spaces + rest) == spaces.len(),
    decreases spaces.len(),
{
    if spaces.len() > 0 {
        assert((spaces + rest).drop_first() =~= spaces.drop_first() + rest);
        lemma_indent_width_spaces(spaces.drop_first(), rest);
    } else {
        assert(spaces + rest =~= rest);
    }
}

proof fn lemma_pop_to(depth: nat, target: nat)
    requires
        target <= depth,
    ensures
        pop_deeper(levels_upto(depth), 2 * target as int) == levels_upto(target),
    decreases depth - target,
{
    if depth > target {
        assert(levels_upto(depth).drop_last() =~= levels_upto((depth - 1) as nat));
        lemma_pop_to((depth - 1) as nat, target);
    }
}

/// Reading the line of a node at most one level below the previous line
/// opens exactly the levels up to its own.
proof fn lemma_next_level(depth: nat, next: nat)
    requires
        next <= depth + 1,
    ensures
        next_levels(levels_upto(depth), 2 * next as int) == Some(levels_upto(next)),
{
    if next == depth + 1 {
        assert(levels_upto(depth).push(2 * next as int) =~= levels_upto(next));
    } else {
        lemma_pop_to(depth, next);
    }
}

/// Reading the lines of written nodes gives them back as outline items.
proof fn lemma_read_written(written: Seq<(nat, Node)>)
    requires
        written.len() > 0,
        depths_connected(written),
        all_copyable(written),
    ensures
        read_lines(written_lines(written)) == OutlineState::Reading(
            levels_upto(written.last().0),
            written_entries(written),
        ),
    decreases written.len(),
{
    let lines = written_lines(written);
    let (depth, node) = written.last();
    let tags = strings_view(node.tags@);
    let line = copied_line(node.text@, tags, depth);
    assert(copyable(written[written.len() - 1].1));
    lemma_copied_line_reads_back(node.text@, tags, depth, depth);
    lemma_depth_indent_spaces(depth);
    assert(line =~= depth_indent(depth) + (seq!['-', ' '] + node.text@ + tags_suffix(tags)));
    lemma_indent_width_spaces(depth_indent(depth), seq!['-', ' '] + node.text@ + tags_suffix(tags));
    assert(lines.last() == line);
    let prev = written.drop_last();
    assert(lines.drop_last() =~= written_lines(prev));
    if written.len() == 1 {
        assert(written[0].0 == 0);
        assert(written_lines(prev) =~= Seq::<Seq<char>>::empty());
        assert(read_lines(Seq::<Seq<char>>::empty()) == OutlineState::Reading(
            Seq::<int>::empty(),
            Seq::<OutlineEntry>::empty(),
        ));
        assert(next_levels(Seq::<int>::empty(), 0) == Some(seq![0int]));
        assert(seq![0int] =~= levels_upto(0));
        assert(written_entries(written) =~= seq![(0nat, node.text@, tags)]);
    } else {
        assert(depths_connected(prev)) by {
            assert forall|i: int| 1 <= i < prev.len() implies #[trigger] prev[i].0 <= prev[i - 1].0
                + 1 by {
                assert(prev[i] == written[i]);
                assert(prev[i - 1] == written[i - 1]);
            }
            assert(prev[0] == written[0]);
        }
        assert(all_copyable(prev)) by {
            assert forall|i: int| 0 <= i < prev.len() implies copyable(#[trigger] prev[i].1)
                && !has_line_break(prev[i].1.text@) by {
                assert(prev[i] == written[i]);
            }
        }
        lemma_read_written(prev);
        let before = prev.last().0;
        assert(prev.last() == written[written.len() - 2]);
        assert(depth <= before + 1);
        lemma_next_level(before, depth);
        assert(written_entries(written) =~= written_entries(prev).push((depth, node.text@, tags)));
    }
}

/// A copied subtree reads back as the nodes it was copied from: when every
/// loaded node can be copied (its text does not end with a `#tag`-like
/// token and its tags are non-empty words) and the subtree is written
/// without failure, the outline read from its text holds, in order, the
/// depth, text and tags of each copied node.
pub proof fn lemma_copied_subtree_reads_back(
    root: NodeId,
    nodes: Seq<Node>,
    children: Seq<(NodeId, Vec<(i64, NodeId)>)>,
)
    requires
        forall|k: int| 0 <= k < nodes.len() ==> copyable(#[trigger] nodes[k]),
        subtree_text(root, nodes, children, seq![]) is Ok,
    ensures
        read_lines(lines_spec(subtree_text(root, nodes, children, seq![])->Ok_0)) matches OutlineState::Reading(
            _,
            items,
        ) && items == written_entries(copied_nodes(root, nodes, children)) && items.len() > 0,
{
    lemma_subtree_text_lines(root, nodes, children);
    let w = copied_nodes(root, nodes, children);
    lemma_lines_of_text(w);
    lemma_root_written(root, nodes, children);
    lemma_read_written(w);
}

proof fn lemma_root_written(root: NodeId, nodes: Seq<Node>, children: Seq<(NodeId, Vec<(i64, NodeId)>)>)
    requires
        subtree_text(root, nodes, children, seq![]) is Ok,
    ensures
        copied_nodes(root, nodes, children).len() > 0,
{
    let st: WriteState = (seq![(root, 0nat)], seq![], seq![]);
    let fuel = nodes.len() + 1;
    assert(fuel > 0);
    match write_step(nodes, children, st) {
        Err(_) => {
            assert(write_run(nodes, children, st, fuel as nat) is Err);
        },
        Ok(next) => {
            lemma_written_grows(nodes, children, next, seq![(0nat, nodes[node_index(nodes, root)->0])], (fuel - 1) as nat);
        },
    }
}

proof fn lemma_written_grows(
    nodes: Seq<Node>,
    children: Seq<(NodeId, Vec<(i64, NodeId)>)>,
    st: WriteState,
    written: Seq<(nat, Node)>,
    fuel: nat,
)
    ensures
        written_run(nodes, children, st, written, fuel).len() >= written.len(),
    decreases fuel,
{
    if fuel > 0 && st.0.len() > 0 {
        match write_step(nodes, children, st) {
            Err(_) => {},
            Ok(next) => {
                let (id, depth) = st.0.last();
                lemma_written_grows(
                    nodes,
                    children,
                    next,
                    written.push((depth, nodes[node_index(nodes, id)->0])),
                    (fuel - 1) as nat,
                );
            },
        }
    }
}

} // verus!
