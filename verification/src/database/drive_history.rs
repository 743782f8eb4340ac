//! The history of inventoried Google Drive items: records, versions and the paging of
//! their listings.
use vstd::prelude::*;

verus! {

/// An inventoried Drive item as listed: removed items carry when they went missing.
#[derive(Debug, Clone)]
pub struct Record {
    pub item_id: String,
    pub name: String,
    pub path: String,
    pub owner: String,
    pub last_seen: String,
    pub removed_at: String,
    pub removed: bool,
    pub metadata: String,
}

/// One recorded version of an item's metadata.
#[derive(Debug, Clone)]
pub struct Version {
    pub recorded_at: String,
    pub metadata: String,
}

/// The page size asked for, kept between 1 and 200.
pub open spec fn page_size(limit: usize) -> usize {
    if limit < 1 {
        1
    } else if limit > 200 {
        200
    } else {
        limit
    }
}

/// The first row of the page: the offset asked for, but never past the start of the
/// last page (the first page when there are no rows).
pub open spec fn page_start(total: usize, offset: usize, limit: usize) -> usize {
    let size = page_size(limit);
    let last = (if total == 0 { 0 } else { total - 1 }) / (size as int) * size;
    if offset <= last {
        offset
    } else {
        last as usize
    }
}

/// The window of a listing of `total` rows: its first row and its size.
pub fn page(total: usize, offset: usize, limit: usize) -> (r: (usize, usize))
    ensures
        r == (page_start(total, offset, limit), page_size(limit)),
        r.0 == 0 || r.0 < total,
        r.0 % r.1 == 0 || r.0 == offset,
{
    let size = if limit < 1 {
        1
    } else if limit > 200 {
        200
    } else {
        limit
    };
    let q = total.saturating_sub(1) / size;
    assert(q * size <= total.saturating_sub(1) as int) by (nonlinear_arith)
        requires
            q == total.saturating_sub(1) as int / size as int,
            size > 0,
    ;
    let last = q * size;
    let start = if offset < last {
        offset
    } else {
        last
    };
    proof {
        assert(last as int % size as int == 0) by (nonlinear_arith)
            requires
                last == q * size,
                size > 0,
        ;
    }
    (start, size)
}

} // verus!
