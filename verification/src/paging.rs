//! Pagination over query results: a 0-based page index and an explicit page
//! size select a slice of the filtered items; the reported total is always
//! the full filtered count.

use vstd::prelude::*;

verus! {

/// One page of query results, tagged with the request that produced it.
pub struct Paged<T> {
    pub items: Vec<T>,
    pub page: u32,
    pub page_size: u32,
    pub total: u32,
}

/// Start of the requested page, clamped to the number of items.
pub open spec fn page_start(len: int, page: int, page_size: int) -> int {
    if page * page_size <= len {
        page * page_size
    } else {
        len
    }
}

/// End of the requested page, clamped to the number of items.
pub open spec fn page_end(len: int, page: int, page_size: int) -> int {
    if page * page_size + page_size <= len {
        page * page_size + page_size
    } else {
        len
    }
}

/// Slice the page `[page * page_size, page * page_size + page_size)` out of
/// `items`, clamped to the available range; a start index at or past the end
/// yields an empty page, never an error. The reported total is the full
/// input count, and the returned item count is
/// `min(page_size, max(0, total - page * page_size))`.
pub fn paginate<T>(items: Vec<T>, page: u32, page_size: u32) -> (r: Paged<T>)
    requires
        items@.len() <= u32::MAX,
    ensures
        r.items@ == items@.subrange(
            page_start(items@.len() as int, page as int, page_size as int),
            page_end(items@.len() as int, page as int, page_size as int),
        ),
        r.page == page,
        r.page_size == page_size,
        r.total == items@.len(),
        r.items@.len() == if items@.len() - page * page_size < 0 {
            0
        } else if page_size <= items@.len() - page * page_size {
            page_size as int
        } else {
            items@.len() - page * page_size
        },
{
    let total: u32 = items.len() as u32;
    proof {
        assert((page as int) * (page_size as int) <= 0xffff_ffff * 0xffff_ffff)
            by (nonlinear_arith)
            requires
                page <= 0xffff_ffffu32,
                page_size <= 0xffff_ffffu32,
        ;
    }
    let start_wide: u64 = (page as u64) * (page_size as u64);
    let mut items = items;
    if start_wide >= items.len() as u64 {
        items.clear();
        return Paged { items, page, page_size, total };
    }
    let start: usize = start_wide as usize;
    let mut tail = items.split_off(start);
    tail.truncate(page_size as usize);
    Paged { items: tail, page, page_size, total }
}

} // verus!
