//! Errors raised while decoding a disc image.
//!
//! Name lookups that find nothing are not errors: they are reported as an
//! absent result (`None`) by the directory view.

use vstd::prelude::*;

verus! {

/// An error resulting from decoding a disc image.
#[derive(Debug, PartialEq, Eq)]
pub enum GcmError {
    /// A fixed-value field did not match: the image is malformed or not a
    /// disc image at all.
    BadMagic,
    /// A text field's bytes were not valid text. The raw bytes are preserved
    /// for diagnostic display rather than dropped.
    DecodeError(Vec<u8>),
    /// The underlying byte source ended before a read could complete.
    IoFailure,
}

/// The mathematical shape of a [`GcmError`]: the same variants, with the
/// preserved raw bytes abstracted to a byte sequence.
pub enum ErrorModel {
    BadMagic,
    DecodeError(Seq<u8>),
    IoFailure,
}

impl DeepView for GcmError {
    type V = ErrorModel;

    open spec fn deep_view(&self) -> ErrorModel {
        match self {
            GcmError::BadMagic => ErrorModel::BadMagic,
            GcmError::DecodeError(raw) => ErrorModel::DecodeError(raw@),
            GcmError::IoFailure => ErrorModel::IoFailure,
        }
    }
}

} // verus!
