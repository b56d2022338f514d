//! The address parser: a path names an object as `bucket/key`, with the
//! bucket as the first path component and everything after the separator
//! that ends it as the key.

use vstd::prelude::*;

use crate::errors::StoreError;

verus! {

/// The path separator of the store, `/`.
pub const SEPARATOR: u8 = 47;

/// A parsed object address: the bucket and the key within it. A trailing
/// separator on the input path survives in the key, so a directory marker
/// stays distinct from a same-named object.
#[derive(Debug)]
pub struct ObjectAddress {
    pub bucket: Vec<u8>,
    pub key: Vec<u8>,
}

/// The first index at or after `i` whose byte is not the separator;
/// `s.len()` when every byte from `i` on is a separator.
pub open spec fn find_non_sep(s: Seq<u8>, i: int) -> int
    decreases s.len() - i,
{
    if i < 0 || i >= s.len() {
        s.len() as int
    } else if s[i] != SEPARATOR {
        i
    } else {
        find_non_sep(s, i + 1)
    }
}

/// The first index at or after `i` whose byte is the separator; `s.len()`
/// when no separator follows.
pub open spec fn find_sep(s: Seq<u8>, i: int) -> int
    decreases s.len() - i,
{
    if i < 0 || i >= s.len() {
        s.len() as int
    } else if s[i] == SEPARATOR {
        i
    } else {
        find_sep(s, i + 1)
    }
}

/// A path is well-formed when it has a first component: some byte that is
/// not a separator must exist, else there is no bucket name.
pub open spec fn parse_ok(s: Seq<u8>) -> bool {
    find_non_sep(s, 0) < s.len()
}

/// The bucket a well-formed path names: its first component, the bytes
/// from the first non-separator up to the separator that ends it.
pub open spec fn bucket_of(s: Seq<u8>) -> Seq<u8> {
    let b = find_non_sep(s, 0);
    s.subrange(b, find_sep(s, b))
}

/// The key a well-formed path names: the bytes after the separator that
/// ends the bucket, verbatim, so trailing separators survive. A path that
/// ends right at that separator is a bare directory marker and keeps it
/// as its key; a path without one names the bucket itself, with an empty
/// key.
pub open spec fn key_of(s: Seq<u8>) -> Seq<u8> {
    let j = find_sep(s, find_non_sep(s, 0));
    if j >= s.len() {
        Seq::empty()
    } else if j + 1 == s.len() {
        seq![SEPARATOR]
    } else {
        s.subrange(j + 1, s.len() as int)
    }
}

/// Split a path into the object address it names. Fails, before any
/// network interaction, exactly on the paths with no first component.
pub fn parse(path: &[u8]) -> (r: Result<ObjectAddress, StoreError>)
    ensures
        r is Ok <==> parse_ok(path@),
        r matches Ok(a) ==> a.bucket@ == bucket_of(path@) && a.key@ == key_of(path@),
        r is Err ==> r == Err::<ObjectAddress, StoreError>(StoreError::MalformedAddress),
{
    let ghost s = path@;
    let n = path.len();
    let mut i: usize = 0;
    while i < n && path[i] == SEPARATOR
        invariant
            s == path@,
            n == s.len(),
            0 <= i <= n,
            find_non_sep(s, 0) == find_non_sep(s, i as int),
        decreases n - i,
    {
        i = i + 1;
    }
    if i == n {
        return Err(StoreError::MalformedAddress);
    }
    let mut j: usize = i;
    while j < n && path[j] != SEPARATOR
        invariant
            s == path@,
            n == s.len(),
            i <= j <= n,
            find_sep(s, i as int) == find_sep(s, j as int),
        decreases n - j,
    {
        j = j + 1;
    }
    proof {
        assert(find_non_sep(s, 0) == i);
        assert(find_sep(s, i as int) == j);
    }
    let mut bucket: Vec<u8> = Vec::new();
    let mut k: usize = i;
    while k < j
        invariant
            s == path@,
            n == s.len(),
            i <= k <= j <= n,
            bucket@ =~= s.subrange(i as int, k as int),
        decreases j - k,
    {
        bucket.push(path[k]);
        k = k + 1;
    }
    let mut key: Vec<u8> = Vec::new();
    if j < n {
        if j + 1 == n {
            key.push(SEPARATOR);
            proof {
                assert(key@ =~= seq![SEPARATOR]);
            }
        } else {
            let mut k2: usize = j + 1;
            while k2 < n
                invariant
                    s == path@,
                    n == s.len(),
                    j + 1 <= k2 <= n,
                    key@ =~= s.subrange(j + 1, k2 as int),
                decreases n - k2,
            {
                key.push(path[k2]);
                k2 = k2 + 1;
            }
        }
    }
    Ok(ObjectAddress { bucket, key })
}

/// The first separator at or after `i` comes no later than any separator
/// at or after `i`.
proof fn lemma_find_sep_le(s: Seq<u8>, i: int, k: int)
    requires
        0 <= i <= k < s.len(),
        s[k] == SEPARATOR,
    ensures
        find_sep(s, i) <= k,
    decreases k - i,
{
    if i < k && s[i] != SEPARATOR {
        lemma_find_sep_le(s, i + 1, k);
    }
}

/// Trailing separators propagate: the key of every well-formed path that
/// ends with the separator also ends with it, so a directory marker never
/// collapses into the address of a same-named object.
pub proof fn lemma_trailing_separator_propagates(s: Seq<u8>)
    requires
        parse_ok(s),
        s.len() > 0,
        s.last() == SEPARATOR,
    ensures
        key_of(s).len() > 0,
        key_of(s).last() == SEPARATOR,
{
    let b = find_non_sep(s, 0);
    lemma_find_non_sep_bounds(s, 0);
    assert(s[b] != SEPARATOR);
    assert(b < s.len() - 1);
    lemma_find_sep_le(s, b, s.len() - 1);
    lemma_find_sep_bounds(s, b);
    let j = find_sep(s, b);
    if j + 1 < s.len() {
        assert(key_of(s) == s.subrange(j + 1, s.len() as int));
        assert(key_of(s).last() == s[s.len() - 1]);
    }
}

/// `find_sep` lands between `i` and the length.
proof fn lemma_find_sep_bounds(s: Seq<u8>, i: int)
    requires
        0 <= i <= s.len(),
    ensures
        i <= find_sep(s, i) <= s.len(),
    decreases s.len() - i,
{
    if i < s.len() && s[i] != SEPARATOR {
        lemma_find_sep_bounds(s, i + 1);
    }
}

/// `find_non_sep` lands between `i` and the length, on a non-separator
/// byte when one exists.
proof fn lemma_find_non_sep_bounds(s: Seq<u8>, i: int)
    requires
        0 <= i <= s.len(),
    ensures
        i <= find_non_sep(s, i) <= s.len(),
        find_non_sep(s, i) < s.len() ==> s[find_non_sep(s, i)] != SEPARATOR,
    decreases s.len() - i,
{
    if i < s.len() && s[i] == SEPARATOR {
        lemma_find_non_sep_bounds(s, i + 1);
    }
}

} // verus!
