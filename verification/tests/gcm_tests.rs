//! End-to-end tests over hand-built disc images.

use gc_gcm::{DolFile, FsNode, GcmError, GcmFile};

/// Writes a 32-bit big-endian value at `pos`.
fn put_u32(v: &mut Vec<u8>, pos: usize, x: u32) {
    let b = x.to_be_bytes();
    v[pos] = b[0];
    v[pos + 1] = b[1];
    v[pos + 2] = b[2];
    v[pos + 3] = b[3];
}

/// Writes a 24-bit big-endian value at `pos`.
fn put_u24(v: &mut Vec<u8>, pos: usize, x: u32) {
    let b = x.to_be_bytes();
    v[pos] = b[1];
    v[pos + 1] = b[2];
    v[pos + 2] = b[3];
}

fn put_bytes(v: &mut Vec<u8>, pos: usize, bytes: &[u8]) {
    for (i, b) in bytes.iter().enumerate() {
        v[pos + i] = *b;
    }
}

/// Writes one 12-byte node record at flat index `idx` of the table at `fs`.
fn put_node(v: &mut Vec<u8>, fs: usize, idx: usize, tag: u8, name_off: u32, a: u32, b: u32) {
    let pos = fs + 12 * idx;
    v[pos] = tag;
    put_u24(v, pos + 1, name_off);
    put_u32(v, pos + 4, a);
    put_u32(v, pos + 8, b);
}

const FS: usize = 0x800;
const DOL: usize = 0x1000;

/// A disc image whose descriptor fields are filled in and whose DOL has one
/// 0x100-byte section starting at the header itself, with no filesystem yet.
fn base_image() -> Vec<u8> {
    let mut v = vec![0u8; 0x2000];
    put_bytes(&mut v, 0, b"GALE01");
    v[6] = 0;
    v[7] = 2;
    put_u32(&mut v, 0x1c, 0xc2339f3d);
    put_bytes(&mut v, 0x20, b"Test Game\0");
    put_u32(&mut v, 0x420, DOL as u32);
    put_u32(&mut v, 0x424, FS as u32);
    put_u32(&mut v, 0x428, 0x100);
    put_u32(&mut v, 0x42c, 0x200);
    put_u32(&mut v, DOL, 0); // section_offsets[0]
    put_u32(&mut v, DOL + 72, 0x8000_0000); // section_addresses[0]
    put_u32(&mut v, DOL + 144, 0x100); // section_lengths[0]
    put_u32(&mut v, DOL + 216, 0x8040_0000); // bss_address
    put_u32(&mut v, DOL + 220, 0x20); // bss_length
    put_u32(&mut v, DOL + 224, 0x8000_0100); // entrypoint
    for i in 0..0x100 {
        v[DOL + 0xe4 + i] = (i % 251) as u8;
    }
    v
}

/// The worked scenario: 6 nodes in all (the implicit root plus 5 stored
/// entries): directory "A" holding "a.txt" and "b.txt", then directory "B"
/// holding "c.txt".
fn scenario_image() -> Vec<u8> {
    let mut v = base_image();
    put_node(&mut v, FS, 0, 1, 0, 0, 6); // root: start index 0, 6 nodes
    put_node(&mut v, FS, 1, 1, 0, 0, 4); // "A": directory, end boundary 4
    put_node(&mut v, FS, 2, 0, 2, 0x100, 10); // "a.txt"
    put_node(&mut v, FS, 3, 0, 8, 0x200, 20); // "b.txt"
    put_node(&mut v, FS, 4, 1, 14, 0, 6); // "B": directory, end boundary 6
    put_node(&mut v, FS, 5, 0, 16, 0x300, 30); // "c.txt"
    let base = FS + 6 * 12;
    put_bytes(&mut v, base, b"A\0a.txt\0b.txt\0B\0c.txt\0");
    v
}

#[test]
fn scenario_root_children() {
    let v = scenario_image();
    let iso = GcmFile::from_bytes(&v).unwrap();
    let root = iso.filesystem.iter_root();
    assert_eq!(root.len(), 2);
    assert_eq!(root[0].entry_name(), "A");
    assert_eq!(root[1].entry_name(), "B");
    assert!(root[0].is_dir() && !root[0].is_file());
    assert!(root[1].is_dir());

    let a_children = root[0].iter_dir().unwrap();
    assert_eq!(a_children.len(), 2);
    assert_eq!(a_children[0].entry_name(), "a.txt");
    assert_eq!(a_children[1].entry_name(), "b.txt");
    assert!(a_children[0].is_file());

    let b_children = root[1].iter_dir().unwrap();
    assert_eq!(b_children.len(), 1);
    assert_eq!(b_children[0].entry_name(), "c.txt");

    // Full recursive walk: 2 + 2 + 1 = 5 = total_node_count - 1.
    assert_eq!(root.len() + a_children.len() + b_children.len(), 5);
    assert_eq!(iso.filesystem.root.total_node_count, 6);
}

#[test]
fn full_descent_visits_each_entry_once() {
    let v = scenario_image();
    let iso = GcmFile::from_bytes(&v).unwrap();
    let lines = iso.filesystem.tree_lines();
    assert_eq!(lines.len(), 5);
    let names: Vec<&str> = lines.iter().map(|l| l.name.as_str()).collect();
    assert_eq!(names, ["A", "a.txt", "b.txt", "B", "c.txt"]);
    let depths: Vec<usize> = lines.iter().map(|l| l.depth).collect();
    assert_eq!(depths, [1, 2, 2, 1, 2]);
}

#[test]
fn extract_entries_carry_full_paths() {
    let v = scenario_image();
    let iso = GcmFile::from_bytes(&v).unwrap();
    let entries = iso.filesystem.extract_entries();
    assert_eq!(entries.len(), 5);
    let paths: Vec<Vec<&str>> = entries
        .iter()
        .map(|e| e.path.iter().map(|s| s.as_str()).collect())
        .collect();
    assert_eq!(
        paths,
        [
            vec!["A"],
            vec!["A", "a.txt"],
            vec!["A", "b.txt"],
            vec!["B"],
            vec!["B", "c.txt"],
        ]
    );
    assert!(entries[0].file.is_none());
    let f = entries[1].file.unwrap();
    assert_eq!((f.offset, f.size), (0x100, 10));
    let f = entries[4].file.unwrap();
    assert_eq!((f.offset, f.size), (0x300, 30));
}

#[test]
fn empty_directory_yields_no_entries() {
    let mut v = base_image();
    put_node(&mut v, FS, 0, 1, 0, 0, 2); // root: 2 nodes
    put_node(&mut v, FS, 1, 1, 0, 0, 2); // "empty": end boundary = index + 1
    let base = FS + 2 * 12;
    put_bytes(&mut v, base, b"empty\0");
    let iso = GcmFile::from_bytes(&v).unwrap();
    let root = iso.filesystem.iter_root();
    assert_eq!(root.len(), 1);
    assert_eq!(root[0].entry_name(), "empty");
    let children = root[0].iter_dir().unwrap();
    assert_eq!(children.len(), 0);
}

#[test]
fn root_only_table() {
    let mut v = base_image();
    put_node(&mut v, FS, 0, 1, 0, 0, 1); // root alone
    let iso = GcmFile::from_bytes(&v).unwrap();
    assert_eq!(iso.filesystem.files.len(), 0);
    assert_eq!(iso.filesystem.iter_root().len(), 0);
    assert_eq!(iso.filesystem.tree_lines().len(), 0);
}

#[test]
fn lookup_missing_name_returns_none() {
    let v = scenario_image();
    let iso = GcmFile::from_bytes(&v).unwrap();
    assert!(iso.filesystem.get_child("missing").is_none());
    let a = iso.filesystem.get_child("A").unwrap();
    assert!(a.get_child("missing").is_none());
    // Grandchildren are not direct children.
    assert!(iso.filesystem.get_child("a.txt").is_none());
    // Looking inside a file finds nothing.
    let a_txt = a.get_child("a.txt").unwrap();
    assert!(a_txt.get_child("anything").is_none());
}

#[test]
fn lookup_finds_first_match_in_order() {
    let v = scenario_image();
    let iso = GcmFile::from_bytes(&v).unwrap();
    let b = iso.filesystem.get_child("B").unwrap();
    assert!(b.is_dir());
    let c = b.get_child("c.txt").unwrap();
    let f = c.as_file().unwrap();
    assert_eq!((f.offset, f.size), (0x300, 30));
}

#[test]
fn file_range_is_exactly_as_decoded() {
    let v = scenario_image();
    let iso = GcmFile::from_bytes(&v).unwrap();
    let a = iso.filesystem.get_child("A").unwrap();
    let children = a.iter_dir().unwrap();
    let f = children[0].as_file().unwrap();
    assert_eq!((f.offset, f.size), (0x100, 10));
    let f = children[1].as_file().unwrap();
    assert_eq!((f.offset, f.size), (0x200, 20));
    // A directory has no file range.
    assert!(a.as_file().is_none());
}

#[test]
fn descriptor_fields_decoded() {
    let v = scenario_image();
    let iso = GcmFile::from_bytes(&v).unwrap();
    assert_eq!(&iso.game_id.0, b"GALE01");
    assert_eq!(iso.disc_number, 0);
    assert_eq!(iso.revision, 2);
    assert_eq!(iso.internal_name, "Test Game");
    assert_eq!(iso.dol_offset, DOL as u32);
    assert_eq!(iso.fs_size, 0x100);
    assert_eq!(iso.max_fs_size, 0x200);
    match &iso.filesystem.files[0] {
        FsNode::Directory { name, parent_index, end_index } => {
            assert_eq!(name.as_str(), "A");
            assert_eq!(*parent_index, 0);
            assert_eq!(*end_index, 4);
        }
        FsNode::File { .. } => panic!("index 1 must be a directory"),
    }
}

#[test]
fn round_trip_redecode_is_identical() {
    let v = scenario_image();
    let first = GcmFile::from_bytes(&v).unwrap();
    let second = GcmFile::from_bytes(&v).unwrap();
    assert_eq!(first, second);
}

#[test]
fn name_resolution_ignores_name_table_order() {
    // Same tree as the scenario, but the names are packed into the name
    // table in a different order than their entries; only the per-entry
    // offsets against the fixed base decide.
    let mut v = base_image();
    put_node(&mut v, FS, 0, 1, 0, 0, 6);
    put_node(&mut v, FS, 1, 1, 20, 0, 4); // "A"
    put_node(&mut v, FS, 2, 0, 6, 0x100, 10); // "a.txt"
    put_node(&mut v, FS, 3, 0, 14, 0x200, 20); // "b.txt"
    put_node(&mut v, FS, 4, 1, 12, 0, 6); // "B"
    put_node(&mut v, FS, 5, 0, 0, 0x300, 30); // "c.txt"
    let base = FS + 6 * 12;
    put_bytes(&mut v, base, b"c.txt\0a.txt\0B\0b.txt\0A\0");
    let iso = GcmFile::from_bytes(&v).unwrap();
    let lines = iso.filesystem.tree_lines();
    let names: Vec<&str> = lines.iter().map(|l| l.name.as_str()).collect();
    assert_eq!(names, ["A", "a.txt", "b.txt", "B", "c.txt"]);
}

#[test]
fn non_ascii_name_decoded_as_utf8() {
    let mut v = base_image();
    put_node(&mut v, FS, 0, 1, 0, 0, 2);
    put_node(&mut v, FS, 1, 0, 0, 0x100, 1);
    let base = FS + 2 * 12;
    put_bytes(&mut v, base, "é★.txt\0".as_bytes());
    let iso = GcmFile::from_bytes(&v).unwrap();
    let root = iso.filesystem.iter_root();
    assert_eq!(root[0].entry_name(), "é★.txt");
}

#[test]
fn invalid_utf8_name_preserves_raw_bytes() {
    let mut v = base_image();
    put_node(&mut v, FS, 0, 1, 0, 0, 2);
    put_node(&mut v, FS, 1, 0, 0, 0x100, 1);
    let base = FS + 2 * 12;
    put_bytes(&mut v, base, &[0xff, 0xfe, 0x41, 0x00]);
    let err = GcmFile::from_bytes(&v).unwrap_err();
    assert_eq!(err, GcmError::DecodeError(vec![0xff, 0xfe, 0x41]));
}

#[test]
fn wrong_disc_magic_is_bad_magic() {
    let mut v = scenario_image();
    put_u32(&mut v, 0x1c, 0xdeadbeef);
    assert_eq!(GcmFile::from_bytes(&v).unwrap_err(), GcmError::BadMagic);
}

#[test]
fn wrong_root_tag_is_bad_magic() {
    let mut v = scenario_image();
    v[FS] = 0;
    assert_eq!(GcmFile::from_bytes(&v).unwrap_err(), GcmError::BadMagic);
}

#[test]
fn unknown_node_tag_is_bad_magic() {
    let mut v = scenario_image();
    v[FS + 12 * 2] = 7;
    assert_eq!(GcmFile::from_bytes(&v).unwrap_err(), GcmError::BadMagic);
}

#[test]
fn zero_node_count_is_bad_magic() {
    let mut v = base_image();
    put_node(&mut v, FS, 0, 1, 0, 0, 0);
    assert_eq!(GcmFile::from_bytes(&v).unwrap_err(), GcmError::BadMagic);
}

#[test]
fn end_boundary_past_table_is_bad_magic() {
    let mut v = base_image();
    put_node(&mut v, FS, 0, 1, 0, 0, 2);
    put_node(&mut v, FS, 1, 1, 0, 0, 10); // boundary beyond the 2-node table
    let base = FS + 2 * 12;
    put_bytes(&mut v, base, b"d\0");
    assert_eq!(GcmFile::from_bytes(&v).unwrap_err(), GcmError::BadMagic);
}

#[test]
fn overlapping_subtrees_are_bad_magic() {
    let mut v = base_image();
    put_node(&mut v, FS, 0, 1, 0, 0, 4);
    put_node(&mut v, FS, 1, 1, 0, 0, 3); // "d1": subtree is [2, 3)
    put_node(&mut v, FS, 2, 1, 3, 0, 4); // "d2": starts inside d1, ends outside
    put_node(&mut v, FS, 3, 0, 6, 0x100, 1); // "f"
    let base = FS + 4 * 12;
    put_bytes(&mut v, base, b"d1\0d2\0f\0");
    assert_eq!(GcmFile::from_bytes(&v).unwrap_err(), GcmError::BadMagic);
}

#[test]
fn truncated_image_is_io_failure() {
    let v = vec![0u8; 0x10];
    assert_eq!(GcmFile::from_bytes(&v).unwrap_err(), GcmError::IoFailure);
    let mut v = scenario_image();
    v.truncate(0x428); // filesystem location fields cut off
    assert_eq!(GcmFile::from_bytes(&v).unwrap_err(), GcmError::IoFailure);
}

#[test]
fn unterminated_name_is_io_failure() {
    let mut v = base_image();
    put_node(&mut v, FS, 0, 1, 0, 0, 2);
    // Name offset points past everything: no terminator before the end.
    put_node(&mut v, FS, 1, 0, 0xff_ffff, 0x100, 1);
    assert_eq!(GcmFile::from_bytes(&v).unwrap_err(), GcmError::IoFailure);
}

#[test]
fn dol_pointer_past_end_is_io_failure() {
    let mut v = scenario_image();
    put_u32(&mut v, 0x420, 0x3000); // beyond the 0x2000-byte image
    assert_eq!(GcmFile::from_bytes(&v).unwrap_err(), GcmError::IoFailure);
}

#[test]
fn dol_header_and_raw_data_decoded() {
    let v = scenario_image();
    let iso = GcmFile::from_bytes(&v).unwrap();
    assert_eq!(iso.dol.header.section_offsets[0], 0);
    assert_eq!(iso.dol.header.section_addresses[0], 0x8000_0000);
    assert_eq!(iso.dol.header.section_lengths[0], 0x100);
    assert_eq!(iso.dol.header.bss_address, 0x8040_0000);
    assert_eq!(iso.dol.header.bss_length, 0x20);
    assert_eq!(iso.dol.header.entrypoint, 0x8000_0100);
    assert_eq!(iso.dol.raw_data.len(), 0x100);
    assert_eq!(&iso.dol.raw_data[..], &v[DOL..DOL + 0x100]);
}

#[test]
fn calculate_file_size_takes_furthest_section() {
    let v = scenario_image();
    let dol = DolFile::from_bytes(&v, DOL as u64).unwrap();
    assert_eq!(dol.header.calculate_file_size(), 0x100);
    let mut v2 = v.clone();
    put_u32(&mut v2, DOL + 4, 0x180); // section_offsets[1]
    put_u32(&mut v2, DOL + 148, 0x40); // section_lengths[1]: reaches 0x1c0
    let dol = DolFile::from_bytes(&v2, DOL as u64).unwrap();
    assert_eq!(dol.header.calculate_file_size(), 0x1c0);
    assert_eq!(dol.raw_data.len(), 0x1c0);
}

#[test]
fn standalone_dol_at_offset_zero() {
    let v = scenario_image();
    let blob = v[DOL..DOL + 0x100].to_vec();
    let dol = DolFile::from_bytes(&blob, 0).unwrap();
    assert_eq!(dol.header.entrypoint, 0x8000_0100);
    assert_eq!(dol.raw_data, blob);
}

#[test]
fn fs_pointer_past_end_is_io_failure() {
    let mut v = scenario_image();
    put_u32(&mut v, 0x424, 0x3000); // beyond the 0x2000-byte image
    assert_eq!(GcmFile::from_bytes(&v).unwrap_err(), GcmError::IoFailure);
}

#[test]
fn mixed_root_children_in_original_order() {
    let mut v = base_image();
    put_node(&mut v, FS, 0, 1, 0, 0, 4);
    put_node(&mut v, FS, 1, 0, 0, 0x400, 7); // "root.bin"
    put_node(&mut v, FS, 2, 1, 9, 0, 4); // "D"
    put_node(&mut v, FS, 3, 0, 11, 0x500, 3); // "x"
    let base = FS + 4 * 12;
    put_bytes(&mut v, base, b"root.bin\0D\0x\0");
    let iso = GcmFile::from_bytes(&v).unwrap();
    let root = iso.filesystem.iter_root();
    assert_eq!(root.len(), 2);
    assert_eq!(root[0].entry_name(), "root.bin");
    assert!(root[0].is_file());
    assert_eq!(root[1].entry_name(), "D");
    let d_children = root[1].iter_dir().unwrap();
    assert_eq!(d_children.len(), 1);
    assert_eq!(d_children[0].entry_name(), "x");
    let f = d_children[0].as_file().unwrap();
    assert_eq!((f.offset, f.size), (0x500, 3));
}

#[test]
fn lookup_by_non_ascii_name() {
    let mut v = base_image();
    put_node(&mut v, FS, 0, 1, 0, 0, 2);
    put_node(&mut v, FS, 1, 0, 0, 0x180, 4);
    let base = FS + 2 * 12;
    put_bytes(&mut v, base, "é★.txt\0".as_bytes());
    let iso = GcmFile::from_bytes(&v).unwrap();
    let entry = iso.filesystem.get_child("é★.txt").unwrap();
    let f = entry.as_file().unwrap();
    assert_eq!((f.offset, f.size), (0x180, 4));
    assert!(iso.filesystem.get_child("e★.txt").is_none());
}
