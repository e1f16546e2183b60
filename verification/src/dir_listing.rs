//! The directory view: borrowed cursors over the flat filesystem table.
//!
//! A [`DirEntry`] is an ephemeral view over one node, the table it came
//! from, and its own flat index; navigation is computed on demand from index
//! arithmetic and the stored end boundaries, never from stored links.

use vstd::prelude::*;

use crate::codec::str_eq;
use crate::traversal::{child_indices, full_walk, lemma_full_descent_visits_each_entry_once, step_within, table_wf};
use crate::{FileSystem, FsNode, NodeModel};

verus! {

/// A file within the filesystem: the range of the data backing it within the
/// disc image itself, exactly `(offset, size)` as decoded.
#[derive(Debug, Clone, Copy, PartialEq, Eq, Structural)]
pub struct File {
    pub offset: u32,
    pub size: u32,
}

/// An entry representing one node within the image's filesystem: a borrowed
/// view over the node, the flat table it came from, and its own flat index.
#[derive(Clone, Copy)]
pub struct DirEntry<'a> {
    /// The node this entry stands for.
    pub node: &'a FsNode,
    /// A backreference to all the stored entries of the filesystem.
    pub files: &'a Vec<FsNode>,
    /// The flat index of this entry's node (1-based; 0 is the implicit root).
    pub index: usize,
}

impl<'a> DirEntry<'a> {
    /// The models of all the stored entries of the table this entry borrows.
    pub open spec fn nodes(self) -> Seq<NodeModel> {
        self.files.deep_view()
    }

    /// This entry's flat index.
    pub open spec fn idx(self) -> int {
        self.index as int
    }

    /// The model of this entry's node.
    pub open spec fn model(self) -> NodeModel {
        self.node.deep_view()
    }

    /// The entry points at a real slot of its table.
    pub open spec fn inv(self) -> bool {
        &&& 1 <= self.idx() <= self.nodes().len()
        &&& self.model() == self.nodes()[self.idx() - 1]
    }

    /// Whether this entry is a directory.
    pub fn is_dir(&self) -> (r: bool)
        ensures
            r == (self.model() is Directory),
    {
        match self.node {
            FsNode::Directory { .. } => true,
            FsNode::File { .. } => false,
        }
    }

    /// Whether this entry is a file.
    pub fn is_file(&self) -> (r: bool)
        ensures
            r == (self.model() is File),
    {
        match self.node {
            FsNode::Directory { .. } => false,
            FsNode::File { .. } => true,
        }
    }

    /// The entry's name.
    pub fn entry_name(&self) -> (r: &'a str)
        ensures
            r@ == self.model().name(),
    {
        match self.node {
            FsNode::File { name, .. } => name.as_str(),
            FsNode::Directory { name, .. } => name.as_str(),
        }
    }

    /// For a file entry, the byte range backing it, with no transformation
    /// applied; for a directory, nothing.
    pub fn as_file(&self) -> (r: Option<File>)
        ensures
            match self.model() {
                NodeModel::File { offset, size, .. } => r == Some((File { offset, size })),
                NodeModel::Directory { .. } => r is None,
            },
    {
        match self.node {
            FsNode::File { offset, size, .. } => Some(File { offset: *offset, size: *size }),
            FsNode::Directory { .. } => None,
        }
    }

    /// For a directory entry, its direct children — the nodes its own range
    /// `[index + 1, end_index)` yields under subtree skipping — in original
    /// order; for a file entry, nothing.
    pub fn iter_dir(&self) -> (r: Option<Vec<DirEntry<'a>>>)
        requires
            self.inv(),
        ensures
            r is Some <==> self.model() is Directory,
            r matches Some(v) ==> {
                let ci = child_indices(self.nodes(), self.idx() + 1, self.model().subtree_end());
                &&& v@.len() == ci.len()
                &&& forall|k: int|
                    0 <= k < v@.len() ==> {
                        &&& (#[trigger] v@[k]).idx() == ci[k]
                        &&& v@[k].inv()
                        &&& v@[k].nodes() == self.nodes()
                        &&& v@[k].model() == self.nodes()[ci[k] - 1]
                    }
            },
    {
        match self.node {
            FsNode::Directory { end_index, .. } => {
                let start = self.index as u128 + 1;
                Some(range_children(self.files, start, *end_index as u128))
            },
            FsNode::File { .. } => None,
        }
    }
}

/// The direct children of whatever node owns the flat range `[start, end)`:
/// one borrowed entry per child index, skipping each child directory's
/// subtree whole.
#[verifier::loop_isolation(false)]
fn range_children<'a>(files: &'a Vec<FsNode>, start: u128, end: u128) -> (r: Vec<DirEntry<'a>>)
    requires
        1 <= start,
    ensures
        ({
            let ci = child_indices(files.deep_view(), start as int, end as int);
            &&& r@.len() == ci.len()
            &&& forall|k: int|
                0 <= k < r@.len() ==> {
                    &&& (#[trigger] r@[k]).idx() == ci[k]
                    &&& r@[k].inv()
                    &&& r@[k].nodes() == files.deep_view()
                    &&& r@[k].model() == files.deep_view()[ci[k] - 1]
                }
        }),
{
    let ghost nodes = files.deep_view();
    let mut out: Vec<DirEntry<'a>> = Vec::new();
    if start >= end {
        return out;
    }
    let flen = files.len();
    let mut cur: u128 = start;
    while cur < end && cur <= flen as u128
        invariant
            start <= cur <= end,
            child_indices(nodes, start as int, end as int) =~= entry_indices(out@)
                + child_indices(nodes, cur as int, end as int),
            forall|k: int|
                0 <= k < out@.len() ==> {
                    &&& (#[trigger] out@[k]).inv()
                    &&& out@[k].nodes() == nodes
                },
        decreases end - cur,
    {
        let i = (cur - 1) as usize;
        let entry = DirEntry { node: &files[i], files, index: cur as usize };
        let next: u128 = match &files[i] {
            FsNode::File { .. } => cur + 1,
            FsNode::Directory { end_index, .. } => {
                let e = *end_index as u128;
                if e <= cur {
                    cur + 1
                } else if e > end {
                    end
                } else {
                    e
                }
            },
        };
        proof {
            assert(next == step_within(nodes, cur as int, end as int));
            assert(child_indices(nodes, cur as int, end as int) == seq![cur as int]
                + child_indices(nodes, next as int, end as int));
            assert(entry_indices(out@.push(entry)) =~= entry_indices(out@).push(cur as int));
            assert(entry_indices(out@) + child_indices(nodes, cur as int, end as int)
                =~= entry_indices(out@.push(entry)) + child_indices(nodes, next as int, end as int));
        }
        out.push(entry);
        cur = next;
    }
    proof {
        assert(child_indices(nodes, cur as int, end as int) =~= Seq::<int>::empty());
        assert(child_indices(nodes, start as int, end as int) =~= entry_indices(out@));
        assert forall|k: int| 0 <= k < out@.len() implies (#[trigger] out@[k]).idx()
            == child_indices(nodes, start as int, end as int)[k] by {
            assert(entry_indices(out@)[k] == out@[k].idx());
        };
    }
    out
}

/// The flat indices of a sequence of entries, in order.
pub open spec fn entry_indices<'a>(es: Seq<DirEntry<'a>>) -> Seq<int> {
    Seq::new(es.len(), |k: int| es[k].idx())
}

/// One node of the filesystem, addressed by the path components leading to
/// it from the root: a directory as a bare path, a file together with the
/// byte range to extract.
#[derive(Debug, PartialEq, Eq)]
pub struct ExtractEntry {
    pub path: Vec<String>,
    pub file: Option<File>,
}

/// The mathematical shape of an [`ExtractEntry`].
pub struct ExtractModel {
    pub path: Seq<Seq<char>>,
    pub file: Option<File>,
}

impl DeepView for ExtractEntry {
    type V = ExtractModel;

    open spec fn deep_view(&self) -> ExtractModel {
        ExtractModel { path: self.path.deep_view(), file: self.file }
    }
}

/// One line of a tree listing: an entry's name at its depth below the root.
#[derive(Debug, PartialEq, Eq)]
pub struct TreeLine {
    pub depth: usize,
    pub name: String,
}

/// The mathematical shape of a [`TreeLine`].
pub struct TreeLineModel {
    pub depth: int,
    pub name: Seq<char>,
}

impl DeepView for TreeLine {
    type V = TreeLineModel;

    open spec fn deep_view(&self) -> TreeLineModel {
        TreeLineModel { depth: self.depth as int, name: self.name@ }
    }
}

/// The extraction list of the range `[start, end)` under `prefix`: every
/// node a fully recursive descent reaches, in depth-first pre-order, each
/// with the path components leading to it.
pub open spec fn spec_extract_entries(
    nodes: Seq<NodeModel>,
    start: int,
    end: int,
    prefix: Seq<Seq<char>>,
) -> Seq<ExtractModel>
    decreases end - start,
{
    if start < 1 || start >= end || start > nodes.len() {
        Seq::empty()
    } else {
        let e = step_within(nodes, start, end);
        match nodes[start - 1] {
            NodeModel::File { name, offset, size } => seq![
                ExtractModel { path: prefix.push(name), file: Some((File { offset, size })) },
            ] + spec_extract_entries(nodes, start + 1, end, prefix),
            NodeModel::Directory { name, .. } => seq![
                ExtractModel { path: prefix.push(name), file: None },
            ] + spec_extract_entries(nodes, start + 1, e, prefix.push(name))
                + spec_extract_entries(nodes, e, end, prefix),
        }
    }
}

/// The tree listing of the range `[start, end)`: every node a fully
/// recursive descent reaches, in depth-first pre-order, each with its depth.
pub open spec fn spec_tree_lines(
    nodes: Seq<NodeModel>,
    start: int,
    end: int,
    depth: int,
) -> Seq<TreeLineModel>
    decreases end - start,
{
    if start < 1 || start >= end || start > nodes.len() {
        Seq::empty()
    } else {
        let e = step_within(nodes, start, end);
        match nodes[start - 1] {
            NodeModel::File { name, .. } => seq![TreeLineModel { depth, name }]
                + spec_tree_lines(nodes, start + 1, end, depth),
            NodeModel::Directory { name, .. } => seq![TreeLineModel { depth, name }]
                + spec_tree_lines(nodes, start + 1, e, depth + 1)
                + spec_tree_lines(nodes, e, end, depth),
        }
    }
}

/// A copy of `prefix` with `name` appended.
fn path_push(prefix: &Vec<String>, name: &String) -> (r: Vec<String>)
    ensures
        r.deep_view() == prefix.deep_view().push(name@),
{
    let mut r: Vec<String> = Vec::new();
    let n = prefix.len();
    let mut i: usize = 0;
    while i < n
        invariant
            0 <= i <= n,
            n == prefix@.len(),
            r@.len() == i as int,
            forall|j: int| 0 <= j < i as int ==> r@[j] == prefix@[j],
        decreases n - i,
    {
        r.push(prefix[i].clone());
        i = i + 1;
    }
    r.push(name.clone());
    proof {
        assert forall|j: int| 0 <= j < r@.len() implies #[trigger] r.deep_view()[j]
            == prefix.deep_view().push(name@)[j] by {
            if j < prefix@.len() {
                assert(r@[j] == prefix@[j]);
            } else {
                assert(r@[j] == *name);
            }
        };
        assert(r.deep_view() =~= prefix.deep_view().push(name@));
    }
    r
}

/// The first index among `ci` whose node is named `name`, scanning in order;
/// nothing when no node among them has that name.
pub open spec fn spec_find_child(nodes: Seq<NodeModel>, ci: Seq<int>, name: Seq<char>) -> Option<
    int,
>
    decreases ci.len(),
{
    if ci.len() == 0 {
        None
    } else if nodes[ci[0] - 1].name() == name {
        Some(ci[0])
    } else {
        spec_find_child(nodes, ci.drop_first(), name)
    }
}

/// Scans `entries` in order for the first one whose name is `child_name`.
#[verifier::loop_isolation(false)]
fn find_by_name<'a>(entries: &Vec<DirEntry<'a>>, child_name: &str) -> (r: Option<DirEntry<'a>>)
    requires
        forall|k: int|
            0 <= k < entries@.len() ==> (#[trigger] entries@[k]).inv() && entries@[k].nodes()
                == entries@[0].nodes(),
    ensures
        ({
            let nodes = if entries@.len() == 0 {
                Seq::<NodeModel>::empty()
            } else {
                entries@[0].nodes()
            };
            match r {
                None => spec_find_child(nodes, entry_indices(entries@), child_name@) is None,
                Some(e) => {
                    &&& spec_find_child(nodes, entry_indices(entries@), child_name@) == Some(
                        e.idx(),
                    )
                    &&& e.inv()
                    &&& e.nodes() == nodes
                    &&& e.model() == nodes[e.idx() - 1]
                },
            }
        }),
{
    let ghost nodes = if entries@.len() == 0 {
        Seq::<NodeModel>::empty()
    } else {
        entries@[0].nodes()
    };
    let n = entries.len();
    let mut k: usize = 0;
    proof {
        assert(entry_indices(entries@).skip(0) =~= entry_indices(entries@));
    }
    while k < n
        invariant
            0 <= k <= n,
            n == entries@.len(),
            spec_find_child(nodes, entry_indices(entries@), child_name@) == spec_find_child(
                nodes,
                entry_indices(entries@).skip(k as int),
                child_name@,
            ),
        decreases n - k,
    {
        let entry = entries[k];
        if str_eq(entry.entry_name(), child_name) {
            proof {
                let rest = entry_indices(entries@).skip(k as int);
                assert(rest[0] == entry.idx());
                assert(nodes[entry.idx() - 1].name() == child_name@);
            }
            return Some(entry);
        }
        proof {
            let rest = entry_indices(entries@).skip(k as int);
            assert(rest[0] == entry.idx());
            assert(nodes[entry.idx() - 1].name() != child_name@);
            assert(rest.drop_first() =~= entry_indices(entries@).skip(k as int + 1));
        }
        k = k + 1;
    }
    proof {
        assert(entry_indices(entries@).skip(n as int) =~= Seq::<int>::empty());
    }
    None
}

/// Appends to `out`, in depth-first pre-order, one entry for every node a
/// recursive descent over the range `[start, end)` reaches, with `prefix` as
/// the path taken so far.
#[verifier::loop_isolation(false)]
fn walk_extract(
    files: &Vec<FsNode>,
    start: u128,
    end: u128,
    prefix: &Vec<String>,
    out: &mut Vec<ExtractEntry>,
)
    requires
        1 <= start <= end,
    ensures
        final(out).deep_view() =~= old(out).deep_view() + spec_extract_entries(
            files.deep_view(),
            start as int,
            end as int,
            prefix.deep_view(),
        ),
    decreases end - start,
{
    let ghost nodes = files.deep_view();
    let ghost base = old(out).deep_view();
    let ghost pfx = prefix.deep_view();
    let flen = files.len();
    let mut cur: u128 = start;
    while cur < end && cur <= flen as u128
        invariant
            start <= cur <= end,
            out.deep_view().len() >= base.len(),
            out.deep_view().subrange(0, base.len() as int) =~= base,
            spec_extract_entries(nodes, start as int, end as int, pfx) =~= out.deep_view().skip(
                base.len() as int,
            ) + spec_extract_entries(nodes, cur as int, end as int, pfx),
        decreases end - cur,
    {
        let i = (cur - 1) as usize;
        let ghost taken = out.deep_view().skip(base.len() as int);
        match &files[i] {
            FsNode::File { name, offset, size } => {
                let path = path_push(prefix, name);
                let entry = ExtractEntry { path, file: Some(File { offset: *offset, size: *size }) };
                proof {
                    let m = ExtractModel { path: pfx.push(name@), file: Some(File { offset: *offset, size: *size }) };
                    assert(entry.deep_view() == m);
                    assert(spec_extract_entries(nodes, cur as int, end as int, pfx) == seq![m]
                        + spec_extract_entries(nodes, cur as int + 1, end as int, pfx));
                    assert(out.deep_view().push(entry.deep_view()).skip(base.len() as int) =~= taken.push(m));
                    assert(taken + (seq![m] + spec_extract_entries(nodes, cur as int + 1, end as int, pfx))
                        =~= taken.push(m) + spec_extract_entries(nodes, cur as int + 1, end as int, pfx));
                    assert(out.deep_view().push(entry.deep_view()).subrange(0, base.len() as int) =~= base);
                }
                out.push(entry);
                cur = cur + 1;
            },
            FsNode::Directory { name, end_index, .. } => {
                let e = *end_index as u128;
                let next: u128 = if e <= cur {
                    cur + 1
                } else if e > end {
                    end
                } else {
                    e
                };
                let dir_path = path_push(prefix, name);
                let child_prefix = path_push(prefix, name);
                let entry = ExtractEntry { path: dir_path, file: None };
                proof {
                    assert(next == step_within(nodes, cur as int, end as int));
                    let m = ExtractModel { path: pfx.push(name@), file: None };
                    assert(entry.deep_view() == m);
                    assert(spec_extract_entries(nodes, cur as int, end as int, pfx) == seq![m]
                        + spec_extract_entries(nodes, cur as int + 1, next as int, pfx.push(name@))
                        + spec_extract_entries(nodes, next as int, end as int, pfx));
                    assert(out.deep_view().push(entry.deep_view()).skip(base.len() as int) =~= taken.push(m));
                    assert(out.deep_view().push(entry.deep_view()).subrange(0, base.len() as int) =~= base);
                }
                out.push(entry);
                if next > cur + 1 {
                    let ghost mid = out.deep_view();
                    walk_extract(files, cur + 1, next, &child_prefix, out);
                    proof {
                        let sub = spec_extract_entries(
                            nodes,
                            cur as int + 1,
                            next as int,
                            pfx.push(name@),
                        );
                        assert(out.deep_view() =~= mid + sub);
                        assert(out.deep_view().skip(base.len() as int) =~= taken.push(
                            ExtractModel { path: pfx.push(name@), file: None },
                        ) + sub);
                        assert(out.deep_view().subrange(0, base.len() as int) =~= base);
                    }
                } else {
                    proof {
                        assert(spec_extract_entries(
                            nodes,
                            cur as int + 1,
                            next as int,
                            pfx.push(name@),
                        ) =~= Seq::<ExtractModel>::empty());
                    }
                }
                proof {
                    let m = ExtractModel { path: pfx.push(name@), file: None };
                    let sub = spec_extract_entries(
                        nodes,
                        cur as int + 1,
                        next as int,
                        pfx.push(name@),
                    );
                    let rest = spec_extract_entries(nodes, next as int, end as int, pfx);
                    assert(taken + (seq![m] + sub + rest) =~= (taken.push(m) + sub) + rest);
                }
                cur = next;
            },
        }
    }
    proof {
        assert(spec_extract_entries(nodes, cur as int, end as int, pfx) =~= Seq::<
            ExtractModel,
        >::empty());
        assert(out.deep_view() =~= out.deep_view().subrange(0, base.len() as int)
            + out.deep_view().skip(base.len() as int));
    }
}

/// Appends to `out`, in depth-first pre-order, one line for every node a
/// recursive descent over the range `[start, end)` reaches, with `depth` as
/// the nesting depth of the range's own children.
#[verifier::loop_isolation(false)]
fn walk_tree(files: &Vec<FsNode>, start: u128, end: u128, depth: usize, out: &mut Vec<TreeLine>)
    requires
        1 <= start <= end,
        depth as int + (end as int - start as int) <= usize::MAX as int + 1,
    ensures
        final(out).deep_view() =~= old(out).deep_view() + spec_tree_lines(
            files.deep_view(),
            start as int,
            end as int,
            depth as int,
        ),
    decreases end - start,
{
    let ghost nodes = files.deep_view();
    let ghost base = old(out).deep_view();
    let flen = files.len();
    let mut cur: u128 = start;
    while cur < end && cur <= flen as u128
        invariant
            start <= cur <= end,
            out.deep_view().len() >= base.len(),
            out.deep_view().subrange(0, base.len() as int) =~= base,
            spec_tree_lines(nodes, start as int, end as int, depth as int) =~= out.deep_view().skip(
                base.len() as int,
            ) + spec_tree_lines(nodes, cur as int, end as int, depth as int),
        decreases end - cur,
    {
        let i = (cur - 1) as usize;
        let ghost taken = out.deep_view().skip(base.len() as int);
        match &files[i] {
            FsNode::File { name, .. } => {
                let entry = TreeLine { depth, name: name.clone() };
                proof {
                    let m = TreeLineModel { depth: depth as int, name: name@ };
                    assert(entry.deep_view() == m);
                    assert(spec_tree_lines(nodes, cur as int, end as int, depth as int) == seq![m]
                        + spec_tree_lines(nodes, cur as int + 1, end as int, depth as int));
                    assert(out.deep_view().push(entry.deep_view()).skip(base.len() as int)
                        =~= taken.push(m));
                    assert(taken + (seq![m] + spec_tree_lines(
                        nodes,
                        cur as int + 1,
                        end as int,
                        depth as int,
                    )) =~= taken.push(m) + spec_tree_lines(
                        nodes,
                        cur as int + 1,
                        end as int,
                        depth as int,
                    ));
                    assert(out.deep_view().push(entry.deep_view()).subrange(0, base.len() as int)
                        =~= base);
                }
                out.push(entry);
                cur = cur + 1;
            },
            FsNode::Directory { name, end_index, .. } => {
                let e = *end_index as u128;
                let next: u128 = if e <= cur {
                    cur + 1
                } else if e > end {
                    end
                } else {
                    e
                };
                let entry = TreeLine { depth, name: name.clone() };
                proof {
                    assert(next == step_within(nodes, cur as int, end as int));
                    let m = TreeLineModel { depth: depth as int, name: name@ };
                    assert(entry.deep_view() == m);
                    assert(spec_tree_lines(nodes, cur as int, end as int, depth as int) == seq![m]
                        + spec_tree_lines(nodes, cur as int + 1, next as int, depth as int + 1)
                        + spec_tree_lines(nodes, next as int, end as int, depth as int));
                    assert(out.deep_view().push(entry.deep_view()).skip(base.len() as int)
                        =~= taken.push(m));
                    assert(out.deep_view().push(entry.deep_view()).subrange(0, base.len() as int)
                        =~= base);
                }
                out.push(entry);
                if next > cur + 1 {
                    let ghost mid = out.deep_view();
                    walk_tree(files, cur + 1, next, depth + 1, out);
                    proof {
                        let sub = spec_tree_lines(
                            nodes,
                            cur as int + 1,
                            next as int,
                            depth as int + 1,
                        );
                        assert(out.deep_view() =~= mid + sub);
                        assert(out.deep_view().skip(base.len() as int) =~= taken.push(
                            TreeLineModel { depth: depth as int, name: name@ },
                        ) + sub);
                        assert(out.deep_view().subrange(0, base.len() as int) =~= base);
                    }
                } else {
                    proof {
                        assert(spec_tree_lines(
                            nodes,
                            cur as int + 1,
                            next as int,
                            depth as int + 1,
                        ) =~= Seq::<TreeLineModel>::empty());
                    }
                }
                proof {
                    let m = TreeLineModel { depth: depth as int, name: name@ };
                    let sub = spec_tree_lines(nodes, cur as int + 1, next as int, depth as int + 1);
                    let rest = spec_tree_lines(nodes, next as int, end as int, depth as int);
                    assert(taken + (seq![m] + sub + rest) =~= (taken.push(m) + sub) + rest);
                }
                cur = next;
            },
        }
    }
    proof {
        assert(spec_tree_lines(nodes, cur as int, end as int, depth as int) =~= Seq::<
            TreeLineModel,
        >::empty());
        assert(out.deep_view() =~= out.deep_view().subrange(0, base.len() as int)
            + out.deep_view().skip(base.len() as int));
    }
}

impl FileSystem {
    /// Iterates over the root of the filesystem: its direct children, in
    /// original order, each child directory's subtree skipped whole.
    pub fn iter_root<'a>(&'a self) -> (r: Vec<DirEntry<'a>>)
        ensures
            ({
                let ci = child_indices(
                    self.files.deep_view(),
                    1,
                    self.files@.len() as int + 1,
                );
                &&& r@.len() == ci.len()
                &&& forall|k: int|
                    0 <= k < r@.len() ==> {
                        &&& (#[trigger] r@[k]).idx() == ci[k]
                        &&& r@[k].inv()
                        &&& r@[k].nodes() == self.files.deep_view()
                        &&& r@[k].model() == self.files.deep_view()[ci[k] - 1]
                    }
            }),
    {
        let end = self.files.len() as u128 + 1;
        range_children(&self.files, 1, end)
    }

    /// Every node of the tree, in depth-first pre-order, each with the path
    /// components leading to it from the root: directories as bare paths,
    /// files with the byte range to extract.
    pub fn extract_entries(&self) -> (r: Vec<ExtractEntry>)
        ensures
            r.deep_view() =~= spec_extract_entries(
                self.files.deep_view(),
                1,
                self.files@.len() as int + 1,
                Seq::empty(),
            ),
    {
        let mut out: Vec<ExtractEntry> = Vec::new();
        let prefix: Vec<String> = Vec::new();
        proof {
            assert(prefix.deep_view() =~= Seq::<Seq<char>>::empty());
        }
        walk_extract(&self.files, 1, self.files.len() as u128 + 1, &prefix, &mut out);
        out
    }

    /// One line per node of the tree, in depth-first pre-order, with nesting
    /// depth starting at 1 for the root's direct children.
    pub fn tree_lines(&self) -> (r: Vec<TreeLine>)
        ensures
            r.deep_view() =~= spec_tree_lines(
                self.files.deep_view(),
                1,
                self.files@.len() as int + 1,
                1,
            ),
    {
        let mut out: Vec<TreeLine> = Vec::new();
        walk_tree(&self.files, 1, self.files.len() as u128 + 1, 1, &mut out);
        out
    }

    /// Looks `child_name` up among the root's direct children, in order,
    /// returning the first match; nothing when no direct child has that
    /// name. A missing name is not an error.
    pub fn get_child<'a>(&'a self, child_name: &str) -> (r: Option<DirEntry<'a>>)
        ensures
            ({
                let nodes = self.files.deep_view();
                let ci = child_indices(nodes, 1, self.files@.len() as int + 1);
                match r {
                    None => spec_find_child(nodes, ci, child_name@) is None,
                    Some(e) => {
                        &&& spec_find_child(nodes, ci, child_name@) == Some(e.idx())
                        &&& e.inv()
                        &&& e.nodes() == nodes
                        &&& e.model() == nodes[e.idx() - 1]
                    },
                }
            }),
    {
        let entries = self.iter_root();
        proof {
            let nodes = self.files.deep_view();
            let ci = child_indices(nodes, 1, self.files@.len() as int + 1);
            assert(entry_indices(entries@) =~= ci);
        }
        find_by_name(&entries, child_name)
    }
}

/// The tree listing and the extraction list each carry exactly one element
/// per index of the fully recursive walk of the same range.
pub proof fn lemma_listings_match_walk(
    nodes: Seq<NodeModel>,
    start: int,
    end: int,
    depth: int,
    prefix: Seq<Seq<char>>,
)
    ensures
        spec_tree_lines(nodes, start, end, depth).len() == full_walk(nodes, start, end).len(),
        spec_extract_entries(nodes, start, end, prefix).len() == full_walk(nodes, start, end).len(),
    decreases end - start,
{
    if start < 1 || start >= end || start > nodes.len() {
    } else {
        let e = step_within(nodes, start, end);
        if nodes[start - 1] is Directory {
            lemma_listings_match_walk(nodes, start + 1, e, depth + 1, prefix.push(nodes[start - 1].name()));
            lemma_listings_match_walk(nodes, e, end, depth, prefix);
        } else {
            lemma_listings_match_walk(nodes, start + 1, end, depth, prefix);
        }
    }
}

/// Law: on a well-formed table, the tree listing and the extraction list of
/// the whole tree each produce exactly `total_node_count - 1` elements — one
/// per stored entry.
pub proof fn lemma_full_descent_count(nodes: Seq<NodeModel>)
    requires
        table_wf(nodes),
    ensures
        spec_tree_lines(nodes, 1, nodes.len() as int + 1, 1).len() == nodes.len(),
        spec_extract_entries(nodes, 1, nodes.len() as int + 1, Seq::empty()).len() == nodes.len(),
{
    lemma_full_descent_visits_each_entry_once(nodes);
    lemma_listings_match_walk(nodes, 1, nodes.len() as int + 1, 1, Seq::empty());
}

impl<'a> DirEntry<'a> {
    /// For a directory entry, looks `child_name` up among its direct
    /// children, in order, returning the first match; nothing when no direct
    /// child has that name or the entry is a file.
    pub fn get_child(&self, child_name: &str) -> (r: Option<DirEntry<'a>>)
        requires
            self.inv(),
        ensures
            self.model() is File ==> r is None,
            self.model() is Directory ==> ({
                let ci = child_indices(self.nodes(), self.idx() + 1, self.model().subtree_end());
                match r {
                    None => spec_find_child(self.nodes(), ci, child_name@) is None,
                    Some(e) => {
                        &&& spec_find_child(self.nodes(), ci, child_name@) == Some(e.idx())
                        &&& e.inv()
                        &&& e.nodes() == self.nodes()
                        &&& e.model() == self.nodes()[e.idx() - 1]
                    },
                }
            }),
    {
        match self.iter_dir() {
            None => None,
            Some(entries) => {
                proof {
                    let ci = child_indices(
                        self.nodes(),
                        self.idx() + 1,
                        self.model().subtree_end(),
                    );
                    assert(entry_indices(entries@) =~= ci);
                }
                find_by_name(&entries, child_name)
            },
        }
    }
}

} // verus!
