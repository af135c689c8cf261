//! Cutting a sequence into pages. Page numbers start at 1.
use vstd::prelude::*;

verus! {

/// The number of pages that `total` rows fill, `per_page` rows to a page.
pub open spec fn page_count(total: int, per_page: int) -> int {
    if total <= 0 || per_page <= 0 {
        0
    } else {
        (total + per_page - 1) / per_page
    }
}

/// Where page `page` starts.
pub open spec fn page_start(page: int, per_page: int) -> int {
    (page - 1) * per_page
}

/// Where page `page` ends in a sequence of `len` rows.
pub open spec fn page_end(len: int, page: int, per_page: int) -> int {
    if page_start(page, per_page) + per_page <= len {
        page_start(page, per_page) + per_page
    } else {
        len
    }
}

/// The rows of page `page`. A page past the end is empty.
pub open spec fn page_of<T>(rows: Seq<T>, page: int, per_page: int) -> Seq<T> {
    if page_start(page, per_page) >= rows.len() {
        Seq::empty()
    } else {
        rows.subrange(page_start(page, per_page), page_end(rows.len() as int, page, per_page))
    }
}

/// A length as a 32-bit counter, saturating.
pub open spec fn clamp_u32(n: int) -> u32 {
    if n > u32::MAX {
        u32::MAX
    } else if n < 0 {
        0
    } else {
        n as u32
    }
}

/// A length as a 32-bit counter, saturating.
pub fn count_u32(n: usize) -> (c: u32)
    ensures
        c == clamp_u32(n as int),
{
    if n > u32::MAX as usize {
        u32::MAX
    } else {
        n as u32
    }
}

/// The number of pages that `total` rows fill.
pub fn total_pages(total: u32, per_page: u32) -> (pages: u32)
    requires
        per_page > 0,
    ensures
        pages == page_count(total as int, per_page as int),
        pages <= total,
{
    if total == 0 {
        return 0;
    }
    let sum: u64 = total as u64 + per_page as u64 - 1;
    let pages: u64 = sum / (per_page as u64);
    proof {
        let t = total as int;
        let p = per_page as int;
        assert((t + p - 1) / p <= t) by (nonlinear_arith)
            requires
                t >= 1,
                p >= 1,
        ;
    }
    pages as u32
}

/// The bounds of page `page` in a sequence of `len` rows: an empty range at
/// the end for a page past the last.
pub fn page_bounds(len: usize, page: u32, per_page: u32) -> (bounds: (usize, usize))
    requires
        page >= 1,
        per_page > 0,
    ensures
        bounds.0 <= bounds.1 <= len,
        page_start(page as int, per_page as int) < len ==> bounds.0 == page_start(
            page as int,
            per_page as int,
        ) && bounds.1 == page_end(len as int, page as int, per_page as int),
        page_start(page as int, per_page as int) >= len ==> bounds.0 == len && bounds.1 == len,
{
    let ghost start_int = page_start(page as int, per_page as int);
    proof {
        let a = page as int - 1;
        let b = per_page as int;
        assert(0 <= a * b <= 0xffff_ffff * 0xffff_ffff) by (nonlinear_arith)
            requires
                0 <= a <= 0xffff_ffff,
                0 <= b <= 0xffff_ffff,
        ;
    }
    let start: u64 = (page as u64 - 1) * (per_page as u64);
    if start >= len as u64 {
        return (len, len);
    }
    let start: usize = start as usize;
    let room: usize = len - start;
    let end: usize = if per_page as u64 <= room as u64 {
        start + per_page as usize
    } else {
        len
    };
    (start, end)
}

/// The rows between the bounds of a page are the page.
pub proof fn lemma_page_of<T>(rows: Seq<T>, page: int, per_page: int)
    requires
        page >= 1,
        per_page > 0,
    ensures
        0 <= page_start(page, per_page),
        page_of(rows, page, per_page).len() <= per_page,
        page_start(page, per_page) >= rows.len() ==> page_of(rows, page, per_page)
            == rows.subrange(rows.len() as int, rows.len() as int),
        forall|k: int|
            0 <= k < page_of(rows, page, per_page).len() ==> #[trigger] page_of(
                rows,
                page,
                per_page,
            )[k] == rows[page_start(page, per_page) + k],
{
    assert((page - 1) * per_page >= 0) by (nonlinear_arith)
        requires
            page >= 1,
            per_page > 0,
    ;
    assert(rows.subrange(rows.len() as int, rows.len() as int) =~= Seq::<T>::empty());
}

} // verus!
