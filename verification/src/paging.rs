//! Pages of a list: skip the first items, then take up to a limit.

use vstd::prelude::*;

verus! {

/// Where a page of a list of `len` items starts: at `from_index`, at the
/// start where none is given, at the end where it lies beyond.
pub open spec fn page_start(len: nat, from_index: Option<u128>) -> nat {
    match from_index {
        Some(i) => if i as nat > len {
            len
        } else {
            i as nat
        },
        None => 0,
    }
}

/// Where the page ends: `limit` items after its start, or at the end of the
/// list where fewer are left. Without a limit the page is empty.
pub open spec fn page_end(len: nat, from_index: Option<u128>, limit: Option<u64>) -> nat {
    let start = page_start(len, from_index);
    match limit {
        Some(l) => if l as nat > len - start {
            len
        } else {
            start + l as nat
        },
        None => start,
    }
}

/// The page of `s`.
pub open spec fn page<A>(s: Seq<A>, from_index: Option<u128>, limit: Option<u64>) -> Seq<A> {
    s.subrange(
        page_start(s.len(), from_index) as int,
        page_end(s.len(), from_index, limit) as int,
    )
}

/// The positions at which the page of a list of `len` items starts and
/// ends.
pub fn page_bounds(len: usize, from_index: Option<u128>, limit: Option<u64>) -> (r: (usize, usize))
    ensures
        r.0 == page_start(len as nat, from_index),
        r.1 == page_end(len as nat, from_index, limit),
        r.0 <= r.1 <= len,
{
    let start: usize = match from_index {
        Some(i) => if i > len as u128 {
            len
        } else {
            i as usize
        },
        None => 0,
    };
    let end: usize = match limit {
        Some(l) => if l as u128 > (len - start) as u128 {
            len
        } else {
            start + l as usize
        },
        None => start,
    };
    (start, end)
}

} // verus!
