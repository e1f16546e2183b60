//! Primitive decoder: fixed-width big-endian integers, the non-standard
//! 3-byte integer, and null-terminated text resolved at an absolute position.
//!
//! Every reader is a pure function of the byte source and a position; nothing
//! here keeps a cursor, so resolving a name can never disturb the position a
//! caller uses for its own sequential reads.

use vstd::prelude::*;
use vstd::slice::{slice_subrange, slice_to_vec};
use vstd::utf8::{decode_utf8, valid_utf8, encode_utf8_decode_utf8};
use vstd::string::StringSliceAdditionalSpecFns;

use crate::error::{ErrorModel, GcmError};

verus! {

/// The value of the 4-byte big-endian integer stored at `pos`.
pub open spec fn spec_u32_be(b: Seq<u8>, pos: int) -> u32
    recommends
        0 <= pos,
        pos + 4 <= b.len(),
{
    (b[pos] * 0x100_0000 + b[pos + 1] * 0x1_0000 + b[pos + 2] * 0x100 + b[pos + 3]) as u32
}

/// The value of the 3-byte big-endian integer stored at `pos`, zero-extended
/// to 32 bits.
pub open spec fn spec_u24_be(b: Seq<u8>, pos: int) -> u32
    recommends
        0 <= pos,
        pos + 3 <= b.len(),
{
    (b[pos] * 0x1_0000 + b[pos + 1] * 0x100 + b[pos + 2]) as u32
}

/// Reads the 4-byte big-endian integer at `pos`.
pub fn read_u32_be(bytes: &[u8], pos: usize) -> (r: u32)
    requires
        pos + 4 <= bytes@.len(),
    ensures
        r == spec_u32_be(bytes@, pos as int),
{
    let b0 = bytes[pos] as u32;
    let b1 = bytes[pos + 1] as u32;
    let b2 = bytes[pos + 2] as u32;
    let b3 = bytes[pos + 3] as u32;
    b0 * 0x100_0000 + b1 * 0x1_0000 + b2 * 0x100 + b3
}

/// Reads the 3-byte big-endian integer at `pos`, zero-extended to 32 bits.
pub fn read_u24_be(bytes: &[u8], pos: usize) -> (r: u32)
    requires
        pos + 3 <= bytes@.len(),
    ensures
        r == spec_u24_be(bytes@, pos as int),
{
    let b0 = bytes[pos] as u32;
    let b1 = bytes[pos + 1] as u32;
    let b2 = bytes[pos + 2] as u32;
    b0 * 0x1_0000 + b1 * 0x100 + b2
}

/// The position of the first zero byte at or after `pos`, or the length of
/// the source if there is none.
pub open spec fn spec_nul_pos(b: Seq<u8>, pos: int) -> int
    decreases b.len() - pos,
{
    if pos < 0 || pos >= b.len() {
        b.len() as int
    } else if b[pos] == 0 {
        pos
    } else {
        spec_nul_pos(b, pos + 1)
    }
}

/// What the position returned by [`spec_nul_pos`] means: it never precedes
/// `pos`, everything before it is nonzero, and it lands on a zero byte
/// unless there is none.
pub proof fn lemma_nul_pos(b: Seq<u8>, pos: int)
    requires
        0 <= pos <= b.len(),
    ensures
        pos <= spec_nul_pos(b, pos) <= b.len(),
        spec_nul_pos(b, pos) < b.len() ==> b[spec_nul_pos(b, pos)] == 0,
        forall|i: int| pos <= i < spec_nul_pos(b, pos) ==> b[i] != 0,
    decreases b.len() - pos,
{
    if pos < b.len() && b[pos] != 0 {
        lemma_nul_pos(b, pos + 1);
    }
}

/// Finds the first zero byte at or after `pos`.
pub fn find_nul(bytes: &[u8], pos: usize) -> (r: usize)
    requires
        pos <= bytes@.len(),
    ensures
        r == spec_nul_pos(bytes@, pos as int),
{
    let mut i: usize = pos;
    while i < bytes.len()
        invariant
            pos <= i <= bytes@.len(),
            spec_nul_pos(bytes@, pos as int) == spec_nul_pos(bytes@, i as int),
        decreases bytes@.len() - i,
    {
        if bytes[i] == 0 {
            return i;
        }
        i = i + 1;
    }
    i
}

/// The bytes of the null-terminated record at `pos`: everything up to, and
/// not including, the first zero byte.
pub open spec fn spec_cstr_bytes(b: Seq<u8>, pos: int) -> Seq<u8>
    recommends
        0 <= pos <= b.len(),
{
    b.subrange(pos, spec_nul_pos(b, pos))
}

/// The null-terminated text record at absolute position `pos`: its bytes run
/// to the first zero byte and decode as UTF-8.
///
/// * `IoFailure` when `pos` lies past the end of the source or no terminator
///   is found before the end;
/// * `DecodeError`, carrying the raw bytes, when they are not valid UTF-8.
pub open spec fn spec_read_text(b: Seq<u8>, pos: int) -> Result<Seq<char>, ErrorModel> {
    if pos < 0 || pos > b.len() || spec_nul_pos(b, pos) == b.len() {
        Err(ErrorModel::IoFailure)
    } else {
        let raw = spec_cstr_bytes(b, pos);
        if valid_utf8(raw) {
            Ok(decode_utf8(raw))
        } else {
            Err(ErrorModel::DecodeError(raw))
        }
    }
}

/// Relies on `String::from_utf8`: it returns `Ok` exactly when the bytes are
/// valid UTF-8, and then the string holds the characters they encode.
#[verifier::external_body]
fn utf8_to_string(bytes: &Vec<u8>) -> (r: Option<String>)
    ensures
        r matches Some(s) ==> valid_utf8(bytes@) && s@ == decode_utf8(bytes@),
        r is None ==> !valid_utf8(bytes@),
{
    String::from_utf8(bytes.clone()).ok()
}

/// Reads the null-terminated text record at absolute position `pos`.
pub fn read_text(bytes: &[u8], pos: u64) -> (r: Result<String, GcmError>)
    ensures
        match r {
            Ok(s) => spec_read_text(bytes@, pos as int) matches Ok(t) && s@ == t,
            Err(e) => spec_read_text(bytes@, pos as int) matches Err(m) && e.deep_view() == m,
        },
{
    let len = bytes.len();
    if pos > len as u64 {
        return Err(GcmError::IoFailure);
    }
    let p = pos as usize;
    let end = find_nul(bytes, p);
    proof {
        lemma_nul_pos(bytes@, p as int);
    }
    if end == len {
        return Err(GcmError::IoFailure);
    }
    let raw = slice_to_vec(slice_subrange(bytes, p, end));
    match utf8_to_string(&raw) {
        Some(s) => Ok(s),
        None => Err(GcmError::DecodeError(raw)),
    }
}

/// Compares two strings by their characters.
pub fn str_eq(a: &str, b: &str) -> (r: bool)
    ensures
        r == (a@ == b@),
{
    let ab = a.as_bytes();
    let bb = b.as_bytes();
    proof {
        encode_utf8_decode_utf8(a@);
        encode_utf8_decode_utf8(b@);
    }
    if ab.len() != bb.len() {
        return false;
    }
    let n = ab.len();
    let mut i: usize = 0;
    while i < n
        invariant
            n == ab@.len() == bb@.len(),
            0 <= i <= n,
            forall|j: int| 0 <= j < i ==> ab@[j] == bb@[j],
            ab@ == a.spec_bytes(),
            bb@ == b.spec_bytes(),
            decode_utf8(a.spec_bytes()) == a@,
            decode_utf8(b.spec_bytes()) == b@,
        decreases n - i,
    {
        if ab[i] != bb[i] {
            proof {
                assert(a.spec_bytes() != b.spec_bytes());
            }
            return false;
        }
        i = i + 1;
    }
    proof {
        assert(ab@ =~= bb@);
    }
    true
}

} // verus!
