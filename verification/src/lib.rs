//! A verified reader for GCM disc images: raw bit-for-bit images of GameCube
//! optical discs.
//!
//! The library decodes, from an in-memory byte source:
//!
//! * the disc descriptor (game id, disc number, revision, internal title),
//! * the boot executable (DOL) header and blob,
//! * the filesystem table: a flat, pre-order array of file and directory
//!   nodes that is reinterpreted as a directory tree by a subtree-skipping
//!   traversal.
//!
//! Every decoding and traversal function carries a contract that pins its
//! result down as a function of the input bytes, and the traversal comes with
//! proved laws: a full recursive descent visits every entry of a well-formed
//! table exactly once, and skipping a directory's subtree never touches an
//! index inside it.

use vstd::prelude::*;

pub mod codec;
pub mod dir_listing;
pub mod dol;
pub mod error;
pub mod traversal;

pub use dir_listing::{DirEntry, ExtractEntry, File, TreeLine};
pub use dol::{DolFile, DolHeader};
pub use error::GcmError;

use codec::{read_u24_be, read_u32_be, read_text, spec_read_text, spec_u24_be, spec_u32_be};
use dol::{spec_parse_dol, DolModel};
use error::ErrorModel;
use traversal::table_wf;

verus! {

/// The fixed 32-bit value every disc image must carry at offset 0x1c.
pub const DISC_MAGIC: u32 = 0xc2339f3d;

/// The type tag of a directory node (files carry tag 0), and the tag the
/// root descriptor must carry.
pub const DIRECTORY_TAG: u8 = 1;

/// A 6-character ID for a game.
#[derive(Debug, Clone, Copy, PartialEq, Eq)]
pub struct GameId(pub [u8; 6]);

impl DeepView for GameId {
    type V = Seq<u8>;

    open spec fn deep_view(&self) -> Seq<u8> {
        self.0@
    }
}

/// The root node of the filesystem, under which all the other nodes fall.
///
/// `total_node_count` counts the implicit root itself, so a decoded table
/// holds `total_node_count - 1` stored entries.
#[derive(Debug, Clone, Copy, PartialEq, Eq)]
pub struct RootNode {
    pub name_offset: u32,
    pub node_start_index: u32,
    pub total_node_count: u32,
}

/// A parsed node of the filesystem: a file, or a directory whose subtree
/// occupies the flat index range `[index + 1, end_index)`.
#[derive(Debug, PartialEq, Eq)]
pub enum FsNode {
    File { name: String, offset: u32, size: u32 },
    Directory { name: String, parent_index: u32, end_index: u32 },
}

/// The mathematical shape of an [`FsNode`]: the same fields, with the name
/// abstracted to its characters.
pub enum NodeModel {
    File { name: Seq<char>, offset: u32, size: u32 },
    Directory { name: Seq<char>, parent_index: u32, end_index: u32 },
}

impl DeepView for FsNode {
    type V = NodeModel;

    open spec fn deep_view(&self) -> NodeModel {
        match self {
            FsNode::File { name, offset, size } => NodeModel::File {
                name: name@,
                offset: *offset,
                size: *size,
            },
            FsNode::Directory { name, parent_index, end_index } => NodeModel::Directory {
                name: name@,
                parent_index: *parent_index,
                end_index: *end_index,
            },
        }
    }
}

impl NodeModel {
    /// The node's name, whichever variant it is.
    pub open spec fn name(self) -> Seq<char> {
        match self {
            NodeModel::File { name, .. } => name,
            NodeModel::Directory { name, .. } => name,
        }
    }

    /// The exclusive flat-index bound of a directory's subtree.
    pub open spec fn subtree_end(self) -> int
        recommends
            self is Directory,
    {
        match self {
            NodeModel::File { .. } => 0,
            NodeModel::Directory { end_index, .. } => end_index as int,
        }
    }
}

/// The parsed filesystem table: the root descriptor plus the flat, pre-order
/// sequence of stored entries. The entry at flat index `i` (1-based; index 0
/// is the implicit root) is `files[i - 1]`.
#[derive(Debug, PartialEq, Eq)]
pub struct FileSystem {
    pub root: RootNode,
    pub files: Vec<FsNode>,
}

/// The mathematical shape of a [`FileSystem`].
pub struct FsModel {
    pub root: RootNode,
    pub entries: Seq<NodeModel>,
}

impl DeepView for FileSystem {
    type V = FsModel;

    open spec fn deep_view(&self) -> FsModel {
        FsModel { root: self.root, entries: self.files.deep_view() }
    }
}

/// The node record stored at `pos`: a type tag (0 file, 1 directory), a
/// 3-byte name offset resolved against the name-table `base`, then two
/// 32-bit fields whose meaning the tag decides.
///
/// * `IoFailure` when the 12-byte record runs past the end of the source;
/// * `BadMagic` when the tag is neither 0 nor 1;
/// * whatever resolving the name yields, when that fails.
pub open spec fn spec_parse_node(b: Seq<u8>, pos: int, base: int) -> Result<NodeModel, ErrorModel> {
    if pos < 0 || pos + 12 > b.len() {
        Err(ErrorModel::IoFailure)
    } else {
        let tag = b[pos];
        if tag != 0 && tag != DIRECTORY_TAG {
            Err(ErrorModel::BadMagic)
        } else {
            match spec_read_text(b, base + spec_u24_be(b, pos + 1)) {
                Err(e) => Err(e),
                Ok(name) => if tag == 0 {
                    Ok(
                        NodeModel::File {
                            name,
                            offset: spec_u32_be(b, pos + 4),
                            size: spec_u32_be(b, pos + 8),
                        },
                    )
                } else {
                    Ok(
                        NodeModel::Directory {
                            name,
                            parent_index: spec_u32_be(b, pos + 4),
                            end_index: spec_u32_be(b, pos + 8),
                        },
                    )
                },
            }
        }
    }
}

/// The first `k` node records of the run starting at `pos`, each 12 bytes
/// after the one before; the first failure aborts the whole run.
pub open spec fn spec_parse_entries(b: Seq<u8>, pos: int, base: int, k: nat) -> Result<
    Seq<NodeModel>,
    ErrorModel,
>
    decreases k,
{
    if k == 0 {
        Ok(Seq::empty())
    } else {
        match spec_parse_entries(b, pos, base, (k - 1) as nat) {
            Err(e) => Err(e),
            Ok(s) => match spec_parse_node(b, pos + 12 * (k - 1), base) {
                Err(e) => Err(e),
                Ok(n) => Ok(s.push(n)),
            },
        }
    }
}

/// A failed run stays failed, with the same error, however far it is
/// extended: the error of the earliest failing record wins.
proof fn lemma_parse_entries_err_persists(b: Seq<u8>, pos: int, base: int, k1: nat, k2: nat)
    requires
        k1 <= k2,
        spec_parse_entries(b, pos, base, k1) is Err,
    ensures
        spec_parse_entries(b, pos, base, k2) == spec_parse_entries(b, pos, base, k1),
    decreases k2,
{
    if k1 < k2 {
        lemma_parse_entries_err_persists(b, pos, base, k1, (k2 - 1) as nat);
    }
}

/// The filesystem table stored at `fs_offset`: the root descriptor (tag,
/// which must be the directory tag; name offset; start index; total node
/// count), then `total_node_count - 1` node records, whose names live in the
/// name table at `fs_offset + total_node_count * 12`.
///
/// A zero node count, and a decoded table that is not structurally
/// well-formed, fail with `BadMagic`: such an image is malformed.
pub open spec fn spec_parse_fs(b: Seq<u8>, fs_offset: int) -> Result<FsModel, ErrorModel> {
    if fs_offset < 0 || fs_offset + 12 > b.len() {
        Err(ErrorModel::IoFailure)
    } else if b[fs_offset] != DIRECTORY_TAG {
        Err(ErrorModel::BadMagic)
    } else {
        let name_offset = spec_u24_be(b, fs_offset + 1);
        let node_start_index = spec_u32_be(b, fs_offset + 4);
        let count = spec_u32_be(b, fs_offset + 8);
        if count == 0 {
            Err(ErrorModel::BadMagic)
        } else {
            let base = fs_offset + 12 * count;
            match spec_parse_entries(b, fs_offset + 12, base, (count - 1) as nat) {
                Err(e) => Err(e),
                Ok(entries) => if table_wf(entries) {
                    Ok(
                        FsModel {
                            root: RootNode { name_offset, node_start_index, total_node_count: count },
                            entries,
                        },
                    )
                } else {
                    Err(ErrorModel::BadMagic)
                },
            }
        }
    }
}

/// Decodes the node record stored at `pos`, resolving its name against the
/// name-table `base`.
fn parse_node(bytes: &[u8], pos: u128, base: u128) -> (r: Result<FsNode, GcmError>)
    requires
        pos < 0x2_0000_0000_0000_0000,
        base < 0x2_0000_0000_0000_0000,
    ensures
        match r {
            Ok(n) => spec_parse_node(bytes@, pos as int, base as int) matches Ok(m) && n.deep_view()
                == m,
            Err(e) => spec_parse_node(bytes@, pos as int, base as int) matches Err(m)
                && e.deep_view() == m,
        },
{
    let len = bytes.len();
    if pos + 12 > len as u128 {
        return Err(GcmError::IoFailure);
    }
    let p = pos as usize;
    let tag = bytes[p];
    if tag != 0 && tag != 1 {
        return Err(GcmError::BadMagic);
    }
    let name_off = read_u24_be(bytes, p + 1);
    let npos: u128 = base + name_off as u128;
    if npos > len as u128 {
        return Err(GcmError::IoFailure);
    }
    let name = match read_text(bytes, npos as u64) {
        Ok(s) => s,
        Err(e) => return Err(e),
    };
    let a = read_u32_be(bytes, p + 4);
    let c = read_u32_be(bytes, p + 8);
    if tag == 0 {
        Ok(FsNode::File { name, offset: a, size: c })
    } else {
        Ok(FsNode::Directory { name, parent_index: a, end_index: c })
    }
}

/// Checks the structural well-formedness of a decoded table: every
/// directory's end boundary is sane and directory subtrees nest.
#[verifier::loop_isolation(false)]
fn check_table_wf(files: &Vec<FsNode>) -> (r: bool)
    ensures
        r == table_wf(files.deep_view()),
{
    let ghost nodes = files.deep_view();
    let n = files.len();
    let mut j: usize = 0;
    while j < n
        invariant
            0 <= j <= n,
            forall|a: int|
                0 <= a < j as int && (#[trigger] nodes[a]) is Directory ==> a + 1
                    < nodes[a].subtree_end() <= nodes.len() + 1,
        decreases n - j,
    {
        match &files[j] {
            FsNode::Directory { end_index, .. } => {
                let e = *end_index as u128;
                if !(e > j as u128 + 1 && e <= n as u128 + 1) {
                    proof {
                        assert(nodes[j as int] is Directory);
                        assert(!traversal::node_ranges_ok(nodes));
                    }
                    return false;
                }
            },
            FsNode::File { .. } => {},
        }
        j = j + 1;
    }
    proof {
        assert(traversal::node_ranges_ok(nodes));
    }
    let mut i: usize = 0;
    while i < n
        invariant
            0 <= i <= n,
            traversal::node_ranges_ok(nodes),
            forall|a: int, b: int|
                0 <= a < b < nodes.len() && a < i as int && (#[trigger] nodes[a]) is Directory && (
                #[trigger] nodes[b]) is Directory && b + 1 < nodes[a].subtree_end()
                    ==> nodes[b].subtree_end() <= nodes[a].subtree_end(),
        decreases n - i,
    {
        let ei_opt: Option<u32> = match &files[i] {
            FsNode::Directory { end_index, .. } => Some(*end_index),
            FsNode::File { .. } => None,
        };
        match ei_opt {
            Some(ei) => {
                let mut b: usize = i + 1;
                while b < n
                    invariant
                        i < b <= n,
                        i < n,
                        nodes[i as int] is Directory,
                        ei as int == nodes[i as int].subtree_end(),
                        forall|b2: int|
                            (i as int) < b2 < (b as int) && (#[trigger] nodes[b2]) is Directory && b2 + 1
                                < nodes[i as int].subtree_end() ==> nodes[b2].subtree_end()
                                <= nodes[i as int].subtree_end(),
                    decreases n - b,
                {
                    match &files[b] {
                        FsNode::Directory { end_index, .. } => {
                            if b as u128 + 1 < ei as u128 && !(*end_index <= ei) {
                                proof {
                                    assert(nodes[b as int] is Directory);
                                    assert(!traversal::nodes_nested(nodes));
                                }
                                return false;
                            }
                        },
                        FsNode::File { .. } => {},
                    }
                    b = b + 1;
                }
            },
            None => {
                proof {
                    assert(nodes[i as int] is File);
                }
            },
        }
        i = i + 1;
    }
    proof {
        assert(traversal::nodes_nested(nodes));
    }
    true
}

impl FileSystem {
    /// Decodes the filesystem table stored at `fs_offset`, exactly as
    /// [`spec_parse_fs`] states: the root descriptor, then the flat run of
    /// node records with their names resolved against the name table, and a
    /// check that the table is structurally well-formed.
    ///
    /// A decoded table therefore always satisfies [`table_wf`], and holds
    /// `total_node_count - 1` entries.
    #[verifier::loop_isolation(false)]
    pub fn from_bytes(bytes: &[u8], fs_offset: u64) -> (r: Result<FileSystem, GcmError>)
        ensures
            match r {
                Ok(fs) => {
                    &&& spec_parse_fs(bytes@, fs_offset as int) matches Ok(m) && fs.deep_view()
                        == m
                    &&& table_wf(fs.files.deep_view())
                    &&& fs.root.total_node_count as int == fs.files@.len() + 1
                },
                Err(e) => spec_parse_fs(bytes@, fs_offset as int) matches Err(m) && e.deep_view()
                    == m,
            },
    {
        let len64 = bytes.len() as u64;
        if fs_offset > len64 || len64 - fs_offset < 12 {
            return Err(GcmError::IoFailure);
        }
        let p = fs_offset as usize;
        let tag = bytes[p];
        if tag != 1 {
            return Err(GcmError::BadMagic);
        }
        let name_offset = read_u24_be(bytes, p + 1);
        let node_start_index = read_u32_be(bytes, p + 4);
        let count = read_u32_be(bytes, p + 8);
        if count == 0 {
            return Err(GcmError::BadMagic);
        }
        let base: u128 = fs_offset as u128 + 12 * count as u128;
        let mut files: Vec<FsNode> = Vec::new();
        proof {
            assert(files.deep_view() =~= Seq::<NodeModel>::empty());
        }
        let mut i: u32 = 0;
        while i < count - 1
            invariant
                0 <= i <= count - 1,
                1 <= count,
                fs_offset <= len64,
                base == fs_offset as int + 12 * count,
                spec_parse_entries(bytes@, fs_offset as int + 12, base as int, i as nat) == Ok::<
                    Seq<NodeModel>,
                    ErrorModel,
                >(files.deep_view()),
                files@.len() == i as int,
            decreases count - i,
        {
            let pos: u128 = fs_offset as u128 + 12 + 12 * i as u128;
            match parse_node(bytes, pos, base) {
                Ok(node) => {
                    let ghost prev = files.deep_view();
                    let ghost nm = node.deep_view();
                    files.push(node);
                    proof {
                        assert(files.deep_view() =~= prev.push(nm));
                        assert(spec_parse_entries(
                            bytes@,
                            fs_offset as int + 12,
                            base as int,
                            (i + 1) as nat,
                        ) == Ok::<Seq<NodeModel>, ErrorModel>(prev.push(nm)));
                    }
                },
                Err(e) => {
                    proof {
                        assert(spec_parse_entries(
                            bytes@,
                            fs_offset as int + 12,
                            base as int,
                            (i + 1) as nat,
                        ) == Err::<Seq<NodeModel>, ErrorModel>(e.deep_view()));
                        lemma_parse_entries_err_persists(
                            bytes@,
                            fs_offset as int + 12,
                            base as int,
                            (i + 1) as nat,
                            (count - 1) as nat,
                        );
                    }
                    return Err(e);
                },
            }
            i = i + 1;
        }
        if !check_table_wf(&files) {
            return Err(GcmError::BadMagic);
        }
        let root = RootNode { name_offset, node_start_index, total_node_count: count };
        Ok(FileSystem { root, files })
    }
}

/// Law: each decoded entry equals the node parsed from its own 12-byte
/// record against the fixed name-table base, and nothing else — decoding
/// sibling entries earlier, later, or not at all cannot change it, and name
/// resolution for a given entry always returns the same text.
pub proof fn lemma_entry_depends_on_own_record_only(b: Seq<u8>, pos: int, base: int, k: nat)
    requires
        spec_parse_entries(b, pos, base, k) is Ok,
    ensures
        spec_parse_entries(b, pos, base, k) matches Ok(s) ==> {
            &&& s.len() == k
            &&& forall|i: int|
                0 <= i < k ==> spec_parse_node(b, pos + 12 * i, base) == Ok::<
                    NodeModel,
                    ErrorModel,
                >(#[trigger] s[i])
        },
    decreases k,
{
    if k > 0 {
        lemma_entry_depends_on_own_record_only(b, pos, base, (k - 1) as nat);
    }
}

/// Law (round trip): decoding a byte source, discarding the result, and
/// decoding the same bytes again yields structurally identical images —
/// equal identifiers, titles, executables, and trees. The decoded image is
/// a function of the bytes alone.
pub proof fn lemma_redecode_identical(b: Seq<u8>, m1: GcmModel, m2: GcmModel)
    requires
        spec_parse_gcm(b) == Ok::<GcmModel, ErrorModel>(m1),
        spec_parse_gcm(b) == Ok::<GcmModel, ErrorModel>(m2),
    ensures
        m1 == m2,
{
}

/// A parsed GCM disc image.
#[derive(Debug, PartialEq, Eq)]
pub struct GcmFile {
    pub game_id: GameId,
    pub disc_number: u8,
    pub revision: u8,
    pub internal_name: String,
    pub dol_offset: u32,
    pub dol: DolFile,
    pub fs_offset: u32,
    pub fs_size: u32,
    pub max_fs_size: u32,
    pub filesystem: FileSystem,
}

/// The mathematical shape of a [`GcmFile`].
pub struct GcmModel {
    pub game_id: Seq<u8>,
    pub disc_number: u8,
    pub revision: u8,
    pub internal_name: Seq<char>,
    pub dol_offset: u32,
    pub dol: DolModel,
    pub fs_offset: u32,
    pub fs_size: u32,
    pub max_fs_size: u32,
    pub filesystem: FsModel,
}

impl DeepView for GcmFile {
    type V = GcmModel;

    open spec fn deep_view(&self) -> GcmModel {
        GcmModel {
            game_id: self.game_id.deep_view(),
            disc_number: self.disc_number,
            revision: self.revision,
            internal_name: self.internal_name@,
            dol_offset: self.dol_offset,
            dol: self.dol.deep_view(),
            fs_offset: self.fs_offset,
            fs_size: self.fs_size,
            max_fs_size: self.max_fs_size,
            filesystem: self.filesystem.deep_view(),
        }
    }
}

/// The whole disc image: the magic constant at 0x1c, the identifiers at the
/// start, the internal title at 0x20, the executable pointer at 0x420 with
/// the DOL it points to, and the filesystem location fields at 0x424 with
/// the table they point to.
pub open spec fn spec_parse_gcm(b: Seq<u8>) -> Result<GcmModel, ErrorModel> {
    if b.len() < 0x20 {
        Err(ErrorModel::IoFailure)
    } else if spec_u32_be(b, 0x1c) != DISC_MAGIC {
        Err(ErrorModel::BadMagic)
    } else {
        match spec_read_text(b, 0x20) {
            Err(e) => Err(e),
            Ok(internal_name) => if b.len() < 0x430 {
                Err(ErrorModel::IoFailure)
            } else {
                let dol_offset = spec_u32_be(b, 0x420);
                match spec_parse_dol(b, dol_offset as int) {
                    Err(e) => Err(e),
                    Ok(dol) => {
                        let fs_offset = spec_u32_be(b, 0x424);
                        match spec_parse_fs(b, fs_offset as int) {
                            Err(e) => Err(e),
                            Ok(filesystem) => Ok(
                                GcmModel {
                                    game_id: b.subrange(0, 6),
                                    disc_number: b[6],
                                    revision: b[7],
                                    internal_name,
                                    dol_offset,
                                    dol,
                                    fs_offset,
                                    fs_size: spec_u32_be(b, 0x428),
                                    max_fs_size: spec_u32_be(b, 0x42c),
                                    filesystem,
                                },
                            ),
                        }
                    },
                }
            },
        }
    }
}

impl GcmFile {
    /// Decodes a whole disc image from an in-memory byte source, exactly as
    /// [`spec_parse_gcm`] states. The result is pinned down as a function of
    /// the bytes alone: decoding the same bytes again yields a structurally
    /// identical image.
    ///
    /// A successfully decoded filesystem table is always structurally
    /// well-formed, so traversal over it cannot fail.
    #[verifier::loop_isolation(false)]
    pub fn from_bytes(bytes: &[u8]) -> (r: Result<GcmFile, GcmError>)
        ensures
            match r {
                Ok(g) => {
                    &&& spec_parse_gcm(bytes@) matches Ok(m) && g.deep_view() == m
                    &&& table_wf(g.filesystem.files.deep_view())
                    &&& g.filesystem.root.total_node_count as int == g.filesystem.files@.len() + 1
                },
                Err(e) => spec_parse_gcm(bytes@) matches Err(m) && e.deep_view() == m,
            },
    {
        let len = bytes.len();
        if len < 0x20 {
            return Err(GcmError::IoFailure);
        }
        if read_u32_be(bytes, 0x1c) != DISC_MAGIC {
            return Err(GcmError::BadMagic);
        }
        let game_id = GameId([bytes[0], bytes[1], bytes[2], bytes[3], bytes[4], bytes[5]]);
        proof {
            assert(game_id.deep_view() =~= bytes@.subrange(0, 6));
        }
        let disc_number = bytes[6];
        let revision = bytes[7];
        let internal_name = match read_text(bytes, 0x20) {
            Ok(s) => s,
            Err(e) => return Err(e),
        };
        if len < 0x430 {
            return Err(GcmError::IoFailure);
        }
        let dol_offset = read_u32_be(bytes, 0x420);
        let dol = match DolFile::from_bytes(bytes, dol_offset as u64) {
            Ok(d) => d,
            Err(e) => return Err(e),
        };
        let fs_offset = read_u32_be(bytes, 0x424);
        let fs_size = read_u32_be(bytes, 0x428);
        let max_fs_size = read_u32_be(bytes, 0x42c);
        let filesystem = match FileSystem::from_bytes(bytes, fs_offset as u64) {
            Ok(f) => f,
            Err(e) => return Err(e),
        };
        Ok(
            GcmFile {
                game_id,
                disc_number,
                revision,
                internal_name,
                dol_offset,
                dol,
                fs_offset,
                fs_size,
                max_fs_size,
                filesystem,
            },
        )
    }
}

} // verus!
