//! The error taxonomy of the read path.

use vstd::prelude::*;

verus! {

/// Every failure a public operation can report.
///
/// `MalformedAddress` is raised before any network interaction; `NotFound`
/// reports a missing key or bucket; `StoreUnavailable` stands for a
/// transport or access failure; `ShortRead` reports a range stream that
/// ended before the promised length; `PartialBatchFailure` reports a batch
/// assembly that was finished while chunks were still missing.
#[derive(Clone, Copy, Debug, PartialEq, Eq, Structural)]
pub enum StoreError {
    MalformedAddress,
    NotFound,
    StoreUnavailable,
    ShortRead,
    PartialBatchFailure,
}

impl StoreError {
    /// A short, stable description of the error kind.
    pub fn describe(&self) -> (r: &'static str)
        ensures
            r@ == self.describe_spec(),
    {
        match self {
            StoreError::MalformedAddress => "malformed address",
            StoreError::NotFound => "object not found",
            StoreError::StoreUnavailable => "store unavailable",
            StoreError::ShortRead => "short read from store",
            StoreError::PartialBatchFailure => "partial batch failure",
        }
    }

    pub open spec fn describe_spec(self) -> Seq<char> {
        match self {
            StoreError::MalformedAddress => "malformed address"@,
            StoreError::NotFound => "object not found"@,
            StoreError::StoreUnavailable => "store unavailable"@,
            StoreError::ShortRead => "short read from store"@,
            StoreError::PartialBatchFailure => "partial batch failure"@,
        }
    }
}

} // verus!
