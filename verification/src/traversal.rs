//! The subtree-skipping traversal over the flat, pre-order filesystem table,
//! and the laws that make the flat encoding losslessly reconstructible.
//!
//! Flat indices are 1-based: index 0 is the implicit root, and the entry at
//! flat index `i` is `nodes[i - 1]`. A directory at flat index `p` owns the
//! contiguous index range `[p + 1, end)` given by its stored end boundary.

use vstd::prelude::*;

use crate::NodeModel;

verus! {

/// Every directory's stored end boundary lies strictly past its own index
/// and within the table: at seq position `j` (flat index `j + 1`), the
/// boundary is in `(j + 1, len + 1]`.
pub open spec fn node_ranges_ok(nodes: Seq<NodeModel>) -> bool {
    forall|j: int|
        0 <= j < nodes.len() && (#[trigger] nodes[j]) is Directory ==> j + 1
            < nodes[j].subtree_end() <= nodes.len() + 1
}

/// Directory subtrees nest: a directory that starts inside another's range
/// also ends within it.
pub open spec fn nodes_nested(nodes: Seq<NodeModel>) -> bool {
    forall|i: int, j: int|
        0 <= i < j < nodes.len() && (#[trigger] nodes[i]) is Directory && (#[trigger] nodes[j])
            is Directory && j + 1 < nodes[i].subtree_end() ==> nodes[j].subtree_end()
            <= nodes[i].subtree_end()
}

/// Structural well-formedness of the flat table: the pre-order invariant
/// that traversal relies on.
pub open spec fn table_wf(nodes: Seq<NodeModel>) -> bool {
    node_ranges_ok(nodes) && nodes_nested(nodes)
}

/// Every directory at a flat index in `[start, end)` ends at or before
/// `end`: the range is closed under taking subtrees.
pub open spec fn range_closed(nodes: Seq<NodeModel>, start: int, end: int) -> bool {
    forall|j: int|
        start <= j + 1 < end && 0 <= j < nodes.len() && (#[trigger] nodes[j]) is Directory
            ==> nodes[j].subtree_end() <= end
}

/// The flat index of the sibling following the entry at flat index `i`: one
/// past a file, the stored end boundary of a directory. Degenerate boundaries
/// (at or before the directory itself) still advance by one.
pub open spec fn next_sibling(nodes: Seq<NodeModel>, i: int) -> int
    recommends
        1 <= i <= nodes.len(),
{
    match nodes[i - 1] {
        NodeModel::File { .. } => i + 1,
        NodeModel::Directory { end_index, .. } => if end_index <= i {
            i + 1
        } else {
            end_index as int
        },
    }
}

/// `next_sibling`, clamped so it never passes `end`.
pub open spec fn step_within(nodes: Seq<NodeModel>, i: int, end: int) -> int {
    let nxt = next_sibling(nodes, i);
    if nxt > end {
        end
    } else {
        nxt
    }
}

/// The flat indices of the direct children of whatever node owns the range
/// `[start, end)`: a cursor starts at `start` and repeatedly jumps to the
/// next sibling, skipping every directory's subtree whole.
pub open spec fn child_indices(nodes: Seq<NodeModel>, start: int, end: int) -> Seq<int>
    decreases end - start,
{
    if start < 1 || start >= end || start > nodes.len() {
        Seq::empty()
    } else {
        seq![start] + child_indices(nodes, step_within(nodes, start, end), end)
    }
}

/// The flat indices visited by a fully recursive descent over the range
/// `[start, end)`, in depth-first pre-order: each child, then — for a
/// directory — everything inside its subtree, then the next sibling.
pub open spec fn full_walk(nodes: Seq<NodeModel>, start: int, end: int) -> Seq<int>
    decreases end - start,
{
    if start < 1 || start >= end || start > nodes.len() {
        Seq::empty()
    } else {
        let e = step_within(nodes, start, end);
        if nodes[start - 1] is Directory {
            seq![start] + full_walk(nodes, start + 1, e) + full_walk(nodes, e, end)
        } else {
            seq![start] + full_walk(nodes, start + 1, end)
        }
    }
}

/// The sequence `start, start + 1, ..., end - 1`.
pub open spec fn int_range(start: int, end: int) -> Seq<int> {
    Seq::new(if end >= start { (end - start) as nat } else { 0 }, |k: int| start + k)
}

/// On a well-formed table, the fully recursive descent over a closed range
/// visits exactly the indices of that range, in order.
pub proof fn lemma_full_walk_range(nodes: Seq<NodeModel>, start: int, end: int)
    requires
        table_wf(nodes),
        1 <= start <= end <= nodes.len() + 1,
        range_closed(nodes, start, end),
    ensures
        full_walk(nodes, start, end) =~= int_range(start, end),
    decreases end - start,
{
    if start >= end {
    } else {
        let e = step_within(nodes, start, end);
        if nodes[start - 1] is Directory {
            let e0 = nodes[start - 1].subtree_end();
            assert(start < e0 <= nodes.len() + 1);  // node_ranges_ok at j == start - 1
            assert(e0 <= end);  // range_closed at j == start - 1
            assert(e == e0);
            assert(range_closed(nodes, start + 1, e0)) by {
                assert forall|j: int|
                    start + 1 <= j + 1 < e0 && 0 <= j < nodes.len() && (#[trigger] nodes[j])
                        is Directory implies nodes[j].subtree_end() <= e0 by {
                    assert(nodes[start - 1] is Directory);
                    assert(nodes[start - 1].subtree_end() == e0);
                };
            };
            assert(range_closed(nodes, e0, end));
            lemma_full_walk_range(nodes, start + 1, e0);
            lemma_full_walk_range(nodes, e0, end);
        } else {
            assert(range_closed(nodes, start + 1, end));
            lemma_full_walk_range(nodes, start + 1, end);
        }
    }
}

/// Law: on a well-formed table, fully recursive descent from the root
/// produces exactly the flat entry range `[1, total_node_count)` — that is,
/// `total_node_count - 1` entries, each flat index exactly once, in
/// depth-first pre-order.
pub proof fn lemma_full_descent_visits_each_entry_once(nodes: Seq<NodeModel>)
    requires
        table_wf(nodes),
    ensures
        full_walk(nodes, 1, nodes.len() as int + 1) =~= int_range(1, nodes.len() as int + 1),
        full_walk(nodes, 1, nodes.len() as int + 1).len() == nodes.len(),
        forall|k1: int, k2: int|
            0 <= k1 < k2 < full_walk(nodes, 1, nodes.len() as int + 1).len() ==> #[trigger] full_walk(
                nodes,
                1,
                nodes.len() as int + 1,
            )[k1] != #[trigger] full_walk(nodes, 1, nodes.len() as int + 1)[k2],
{
    lemma_full_walk_range(nodes, 1, nodes.len() as int + 1);
}

/// Law: a directory whose end boundary equals its own index plus one owns an
/// empty range, so iterating its children yields no entries.
pub proof fn lemma_empty_directory(nodes: Seq<NodeModel>, i: int)
    requires
        1 <= i <= nodes.len(),
        nodes[i - 1] is Directory,
        nodes[i - 1].subtree_end() == i + 1,
    ensures
        child_indices(nodes, i + 1, nodes[i - 1].subtree_end()).len() == 0,
{
}

/// The indices produced for a range stay within it, increase strictly, and
/// advance by `step_within` from each one to the next.
pub proof fn lemma_child_indices_structure(nodes: Seq<NodeModel>, start: int, end: int)
    ensures
        forall|k: int|
            0 <= k < child_indices(nodes, start, end).len() ==> start <= #[trigger] child_indices(
                nodes,
                start,
                end,
            )[k] < end && child_indices(nodes, start, end)[k] <= nodes.len(),
        child_indices(nodes, start, end).len() > 0 ==> child_indices(nodes, start, end)[0] == start,
        forall|k: int|
            0 < k < child_indices(nodes, start, end).len() ==> #[trigger] child_indices(
                nodes,
                start,
                end,
            )[k] == step_within(nodes, child_indices(nodes, start, end)[k - 1], end),
        forall|k1: int, k2: int|
            0 <= k1 < k2 < child_indices(nodes, start, end).len() ==> #[trigger] child_indices(
                nodes,
                start,
                end,
            )[k1] < #[trigger] child_indices(nodes, start, end)[k2],
    decreases end - start,
{
    let ci = child_indices(nodes, start, end);
    if start < 1 || start >= end || start > nodes.len() {
    } else {
        let nxt = step_within(nodes, start, end);
        let tail = child_indices(nodes, nxt, end);
        lemma_child_indices_structure(nodes, nxt, end);
        assert(start < nxt <= end);
        assert forall|k: int| 0 < k < ci.len() implies #[trigger] ci[k] == step_within(
            nodes,
            ci[k - 1],
            end,
        ) by {
            assert(ci[k] == tail[k - 1]);
            if k == 1 {
                assert(tail.len() > 0);
                assert(tail[0] == nxt);
            } else {
                assert(ci[k - 1] == tail[k - 2]);
                assert(tail[k - 1] == step_within(nodes, tail[k - 2], end));
            }
        };
        assert forall|k1: int, k2: int| 0 <= k1 < k2 < ci.len() implies #[trigger] ci[k1]
            < #[trigger] ci[k2] by {
            if k1 == 0 {
                assert(ci[k2] == tail[k2 - 1]);
                assert(nxt <= tail[k2 - 1]);
            } else {
                assert(ci[k1] == tail[k1 - 1]);
                assert(ci[k2] == tail[k2 - 1]);
            }
        };
    }
}

/// Law: producing the children of a range never yields an index inside a
/// child directory's subtree — the open interval between a directory and its
/// end boundary is skipped whole, on any table.
pub proof fn lemma_children_skip_subtrees(nodes: Seq<NodeModel>, start: int, end: int)
    ensures
        forall|k: int, m: int|
            (0 <= k < child_indices(nodes, start, end).len() && 0 <= m < child_indices(
                nodes,
                start,
                end,
            ).len() && nodes[#[trigger] child_indices(nodes, start, end)[k] - 1] is Directory) ==> !(
            child_indices(nodes, start, end)[k] < #[trigger] child_indices(nodes, start, end)[m]
                < nodes[child_indices(nodes, start, end)[k] - 1].subtree_end()),
{
    lemma_child_indices_structure(nodes, start, end);
    assert forall|k: int, m: int|
        (0 <= k < child_indices(nodes, start, end).len() && 0 <= m < child_indices(
            nodes,
            start,
            end,
        ).len() && nodes[#[trigger] child_indices(nodes, start, end)[k] - 1] is Directory
            && child_indices(nodes, start, end)[k] < #[trigger] child_indices(
            nodes,
            start,
            end,
        )[m]) implies !(child_indices(nodes, start, end)[k] < child_indices(nodes, start, end)[m]
        < nodes[child_indices(nodes, start, end)[k] - 1].subtree_end()) by {
        let ci = child_indices(nodes, start, end);
        let c = ci[k];
        let e0 = nodes[c - 1].subtree_end();
        // `m` comes after `k`, so `ci[m]` is at or past the clamped jump from `c`.
        assert(m > k);
        assert(ci[k + 1] == step_within(nodes, c, end));
        if e0 <= c {
            // the interval (c, e0) is empty
        } else {
            assert(next_sibling(nodes, c) == e0);
            if e0 > end {
                assert(ci[m] < end);
            } else {
                assert(k + 1 <= m);
                if k + 1 < m {
                    assert(ci[k + 1] < ci[m]);
                }
                assert(ci[m] >= e0);
            }
        }
    };
}

} // verus!
