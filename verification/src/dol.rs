//! The DOL executable: the boot program embedded in a disc image, a flat
//! header of 18 section records followed by the raw bytes that back them.

use vstd::prelude::*;
use vstd::slice::{slice_subrange, slice_to_vec};

use crate::codec::{read_u32_be, spec_u32_be};
use crate::error::{ErrorModel, GcmError};

verus! {

broadcast use vstd::array::group_array_axioms;

/// The header of a DOL executable, describing the 18 loadable sections as
/// well as the bss region and the entrypoint of the executable.
#[derive(Debug, Clone, Copy, PartialEq, Eq)]
pub struct DolHeader {
    pub section_offsets: [u32; 18],
    pub section_addresses: [u32; 18],
    pub section_lengths: [u32; 18],
    pub bss_address: u32,
    pub bss_length: u32,
    pub entrypoint: u32,
}

/// The mathematical shape of a [`DolHeader`].
pub struct DolHeaderModel {
    pub section_offsets: Seq<u32>,
    pub section_addresses: Seq<u32>,
    pub section_lengths: Seq<u32>,
    pub bss_address: u32,
    pub bss_length: u32,
    pub entrypoint: u32,
}

impl DeepView for DolHeader {
    type V = DolHeaderModel;

    open spec fn deep_view(&self) -> DolHeaderModel {
        DolHeaderModel {
            section_offsets: self.section_offsets@,
            section_addresses: self.section_addresses@,
            section_lengths: self.section_lengths@,
            bss_address: self.bss_address,
            bss_length: self.bss_length,
            entrypoint: self.entrypoint,
        }
    }
}

/// A DOL executable: its header and the raw bytes that back it.
#[derive(Debug, PartialEq, Eq)]
pub struct DolFile {
    pub header: DolHeader,
    pub raw_data: Vec<u8>,
}

/// The mathematical shape of a [`DolFile`].
pub struct DolModel {
    pub header: DolHeaderModel,
    pub raw_data: Seq<u8>,
}

impl DeepView for DolFile {
    type V = DolModel;

    open spec fn deep_view(&self) -> DolModel {
        DolModel { header: self.header.deep_view(), raw_data: self.raw_data@ }
    }
}

/// The header stored at `pos`: three blocks of 18 big-endian 32-bit words
/// (offsets, load addresses, lengths), then bss address, bss length and
/// entrypoint.
pub open spec fn spec_dol_header(b: Seq<u8>, pos: int) -> DolHeaderModel {
    DolHeaderModel {
        section_offsets: Seq::new(18, |i: int| spec_u32_be(b, pos + 4 * i)),
        section_addresses: Seq::new(18, |i: int| spec_u32_be(b, pos + 72 + 4 * i)),
        section_lengths: Seq::new(18, |i: int| spec_u32_be(b, pos + 144 + 4 * i)),
        bss_address: spec_u32_be(b, pos + 216),
        bss_length: spec_u32_be(b, pos + 220),
        entrypoint: spec_u32_be(b, pos + 224),
    }
}

/// The furthest byte any of the first `k` sections reaches:
/// `max(section_offset + section_length)`, 0 when `k` is 0.
pub open spec fn spec_max_section_end(offsets: Seq<u32>, lengths: Seq<u32>, k: int) -> int
    decreases k,
{
    if k <= 0 {
        0
    } else {
        let e = offsets[k - 1] + lengths[k - 1];
        let m = spec_max_section_end(offsets, lengths, k - 1);
        if e > m {
            e
        } else {
            m
        }
    }
}

/// The total size of the file backing a header: the furthest byte any of its
/// 18 sections reaches.
pub open spec fn spec_dol_file_size(h: DolHeaderModel) -> int {
    spec_max_section_end(h.section_offsets, h.section_lengths, 18)
}

/// The DOL stored at `pos`: its 228-byte header, then — rereading from the
/// header's own start — as many raw bytes as the furthest section reaches.
/// `IoFailure` when the source ends before either read completes.
pub open spec fn spec_parse_dol(b: Seq<u8>, pos: int) -> Result<DolModel, ErrorModel> {
    if pos < 0 || pos + 228 > b.len() {
        Err(ErrorModel::IoFailure)
    } else {
        let h = spec_dol_header(b, pos);
        let size = spec_dol_file_size(h);
        if pos + size > b.len() {
            Err(ErrorModel::IoFailure)
        } else {
            Ok(DolModel { header: h, raw_data: b.subrange(pos, pos + size) })
        }
    }
}

/// Reads 18 consecutive big-endian 32-bit words starting at `pos`.
fn read_u32_array(bytes: &[u8], pos: usize) -> (r: [u32; 18])
    requires
        pos + 72 <= bytes@.len(),
    ensures
        r@ =~= Seq::new(18, |i: int| spec_u32_be(bytes@, pos + 4 * i)),
{
    let n = bytes.len();
    let mut r = [0u32; 18];
    let mut i: usize = 0;
    while i < 18
        invariant
            0 <= i <= 18,
            n == bytes@.len(),
            pos + 72 <= n,
            r@.len() == 18,
            forall|j: int| 0 <= j < i as int ==> r@[j] == spec_u32_be(bytes@, pos + 4 * j),
        decreases 18 - i,
    {
        r[i] = read_u32_be(bytes, pos + 4 * i);
        i = i + 1;
    }
    r
}

/// The furthest byte any section reaches, computed without overflow.
fn max_section_end(offsets: &[u32; 18], lengths: &[u32; 18]) -> (r: u64)
    ensures
        r == spec_max_section_end(offsets@, lengths@, 18),
{
    let mut m: u64 = 0;
    let mut i: usize = 0;
    while i < 18
        invariant
            0 <= i <= 18,
            m == spec_max_section_end(offsets@, lengths@, i as int),
        decreases 18 - i,
    {
        let e = offsets[i] as u64 + lengths[i] as u64;
        if e > m {
            m = e;
        }
        i = i + 1;
    }
    m
}

impl DolHeader {
    /// The total size of the file backing this header: the furthest byte any
    /// of its sections reaches, `max(section_offset + section_length)`.
    pub fn calculate_file_size(&self) -> (r: usize)
        requires
            spec_dol_file_size(self.deep_view()) <= usize::MAX,
        ensures
            r == spec_dol_file_size(self.deep_view()),
    {
        let m = max_section_end(&self.section_offsets, &self.section_lengths);
        m as usize
    }
}

impl DolFile {
    /// Decodes the DOL stored at `offset`: the header's fields, and the raw
    /// bytes backing the executable, exactly as [`spec_parse_dol`] states.
    pub fn from_bytes(bytes: &[u8], offset: u64) -> (r: Result<DolFile, GcmError>)
        ensures
            match r {
                Ok(d) => spec_parse_dol(bytes@, offset as int) matches Ok(m) && d.deep_view() == m,
                Err(e) => spec_parse_dol(bytes@, offset as int) matches Err(m) && e.deep_view()
                    == m,
            },
    {
        let len64 = bytes.len() as u64;
        if offset > len64 || len64 - offset < 228 {
            return Err(GcmError::IoFailure);
        }
        let p = offset as usize;
        let section_offsets = read_u32_array(bytes, p);
        let section_addresses = read_u32_array(bytes, p + 72);
        let section_lengths = read_u32_array(bytes, p + 144);
        let header = DolHeader {
            section_offsets,
            section_addresses,
            section_lengths,
            bss_address: read_u32_be(bytes, p + 216),
            bss_length: read_u32_be(bytes, p + 220),
            entrypoint: read_u32_be(bytes, p + 224),
        };
        proof {
            let h = spec_dol_header(bytes@, offset as int);
            assert(header.section_offsets@ =~= h.section_offsets);
            assert(header.section_addresses@ =~= h.section_addresses);
            assert(header.section_lengths@ =~= h.section_lengths);
            assert(header.deep_view() == h);
        }
        let size = max_section_end(&section_offsets, &section_lengths);
        if size > len64 - offset {
            return Err(GcmError::IoFailure);
        }
        let raw = slice_to_vec(slice_subrange(bytes, p, p + size as usize));
        Ok(DolFile { header, raw_data: raw })
    }
}

} // verus!
