//! The listing engine: accumulating the pages of a paginated listing, in
//! store order, until the store reports the last page.

use vstd::prelude::*;

use crate::errors::StoreError;

verus! {

/// One page of a listing, as the store returned it: the keys and the
/// one-level pseudo-directory prefixes of the page, in store order,
/// whether more pages follow, and the continuation token for them.
pub struct ListPage {
    pub keys: Vec<Vec<u8>>,
    pub prefixes: Vec<Vec<u8>>,
    pub is_truncated: bool,
    pub next_token: Option<Vec<u8>>,
}

/// What the listing engine asks its caller to do next: fetch the next
/// page with this continuation token, or stop, the listing is complete.
#[derive(Debug)]
pub enum ListStep {
    Continue(Vec<u8>),
    Done,
}

/// The accumulated state of one listing call. Pages are absorbed in the
/// order the store returns them, and their entries are kept in exactly
/// that order — page by page, never re-sorted, nothing dropped, nothing
/// repeated.
pub struct ListingCursor {
    /// The entries of every page absorbed so far, in page order.
    pub entries: Vec<Vec<u8>>,
    /// Whether the store has reported the last page.
    pub finished: bool,
}

impl ListingCursor {
    /// A cursor with no page absorbed yet.
    pub fn start() -> (r: ListingCursor)
        ensures
            r.entries@ == Seq::<Vec<u8>>::empty(),
            !r.finished,
    {
        ListingCursor { entries: Vec::new(), finished: false }
    }

    /// Absorb the next page: its keys, then its prefixes, are appended to
    /// the entries, and the page decides how to go on. A truncated page
    /// carries the continuation token for the next call; a truncated page
    /// without one is a protocol violation, reported as a store failure
    /// with the cursor left unchanged; a final page finishes the listing.
    pub fn absorb_page(&mut self, page: ListPage) -> (r: Result<ListStep, StoreError>)
        requires
            !old(self).finished,
        ensures
            r is Ok ==> final(self).entries@ == old(self).entries@ + page.keys@ + page.prefixes@,
            r is Ok <==> (page.is_truncated ==> page.next_token is Some),
            !page.is_truncated ==> (r matches Ok(step) && step is Done) && final(self).finished,
            (page.is_truncated && page.next_token is Some) ==> ((r matches Ok(step)
                && step matches ListStep::Continue(t) && Some(t) == page.next_token)
                && !final(self).finished),
            r is Err ==> *final(self) == *old(self) && r == Err::<ListStep, StoreError>(
                StoreError::StoreUnavailable,
            ),
    {
        let ListPage { mut keys, mut prefixes, is_truncated, next_token } = page;
        if is_truncated {
            match next_token {
                Some(t) => {
                    self.entries.append(&mut keys);
                    self.entries.append(&mut prefixes);
                    Ok(ListStep::Continue(t))
                },
                None => Err(StoreError::StoreUnavailable),
            }
        } else {
            self.entries.append(&mut keys);
            self.entries.append(&mut prefixes);
            self.finished = true;
            Ok(ListStep::Done)
        }
    }

    /// Release the accumulated entries of a finished listing: the exact
    /// concatenation of all pages' entries, in page order.
    pub fn finish(self) -> (r: Vec<Vec<u8>>)
        requires
            self.finished,
        ensures
            r@ == self.entries@,
    {
        self.entries
    }
}

} // verus!
