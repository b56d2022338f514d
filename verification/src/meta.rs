//! Object metadata and the outcome of a `Head` call.

use vstd::prelude::*;

use crate::errors::StoreError;

verus! {

/// The storage class reported when the store omits the field: `STANDARD`.
pub open spec fn default_storage_class() -> Seq<u8> {
    seq![83u8, 84u8, 65u8, 78u8, 68u8, 65u8, 82u8, 68u8]
}

/// The byte string `STANDARD`, the default storage class.
pub fn default_storage_class_bytes() -> (r: Vec<u8>)
    ensures
        r@ == default_storage_class(),
{
    let mut v: Vec<u8> = Vec::new();
    v.push(83);
    v.push(84);
    v.push(65);
    v.push(78);
    v.push(68);
    v.push(65);
    v.push(82);
    v.push(68);
    proof {
        assert(v@ =~= default_storage_class());
    }
    v
}

/// The metadata of one object, as reported by a `Head` call, with the
/// optional storage class already normalized to its default.
#[derive(Debug)]
pub struct ObjectMetadata {
    /// The object's size in bytes.
    pub size: usize,
    /// The entity tag, when the store reports one.
    pub e_tag: Option<Vec<u8>>,
    /// The last-modified time in seconds since the epoch, when reported.
    pub last_modified_secs: Option<i64>,
    /// The version id, when the store reports one.
    pub version_id: Option<Vec<u8>>,
    /// The storage class; `STANDARD` when the store omits it.
    pub storage_class: Vec<u8>,
}

impl ObjectMetadata {
    /// Normalize the raw fields of a `Head` response: every field is kept
    /// as reported, except that a missing storage class becomes `STANDARD`.
    pub fn from_head(
        size: usize,
        e_tag: Option<Vec<u8>>,
        last_modified_secs: Option<i64>,
        version_id: Option<Vec<u8>>,
        storage_class: Option<Vec<u8>>,
    ) -> (m: ObjectMetadata)
        ensures
            m.size == size,
            m.e_tag == e_tag,
            m.last_modified_secs == last_modified_secs,
            m.version_id == version_id,
            storage_class matches Some(sc) ==> m.storage_class == sc,
            storage_class is None ==> m.storage_class@ == default_storage_class(),
    {
        let sc = match storage_class {
            Some(sc) => sc,
            None => default_storage_class_bytes(),
        };
        ObjectMetadata { size, e_tag, last_modified_secs, version_id, storage_class: sc }
    }
}

/// What a `Head` call came back with: the object's metadata, a report
/// that the key is missing, or a transport or access failure.
#[derive(Debug)]
pub enum HeadResult {
    Found(ObjectMetadata),
    Missing,
    Failed,
}

/// The error a failed `Head` outcome stands for: a missing key is
/// `NotFound`, a transport or access failure is `StoreUnavailable`.
pub open spec fn head_failure_error(h: HeadResult) -> StoreError {
    match h {
        HeadResult::Missing => StoreError::NotFound,
        _ => StoreError::StoreUnavailable,
    }
}

/// Turn the outcome of a single `Head` call into the result of `stat`:
/// the metadata when the object exists, `NotFound` when the store reports
/// a missing key, and `StoreUnavailable` on a transport failure. The two
/// failure kinds are never folded into one another.
pub fn stat_outcome(h: HeadResult) -> (r: Result<ObjectMetadata, StoreError>)
    ensures
        h matches HeadResult::Found(m) ==> (r matches Ok(out) && out == m),
        h is Missing ==> r == Err::<ObjectMetadata, StoreError>(StoreError::NotFound),
        h is Failed ==> r == Err::<ObjectMetadata, StoreError>(StoreError::StoreUnavailable),
{
    match h {
        HeadResult::Found(m) => Ok(m),
        HeadResult::Missing => Err(StoreError::NotFound),
        HeadResult::Failed => Err(StoreError::StoreUnavailable),
    }
}

} // verus!
