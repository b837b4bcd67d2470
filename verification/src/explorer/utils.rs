//! Pages over a list.

use vstd::prelude::*;

verus! {

/// One page of a list: the places that it covers, from `from` up to and
/// without `to`, counted from 0, and the pages before and after it, if
/// there are any. Pages are counted from 1.
#[derive(Clone, Copy, Debug, PartialEq, Eq)]
pub struct Pagination {
    pub from: u64,
    pub to: u64,
    pub prev_page: Option<u64>,
    pub next_page: Option<u64>,
}

/// The smaller of `a` and `b`.
pub open spec fn least(a: int, b: int) -> int {
    if a < b {
        a
    } else {
        b
    }
}

/// Page `page` of a list of `count` items, `size` items to the page.
///
/// Page 1 begins at the first item, and every page begins where the one
/// before it ends. A page past the end of the list is empty, and so is
/// page 0. A page has a next page where items are left after it, and a
/// page before it where it is not the first.
pub open spec fn pagination(count: u64, size: u64, page: u64) -> Pagination {
    let start = if page == 0 {
        0
    } else {
        (page - 1) * size
    };
    Pagination {
        from: least(start, count as int) as u64,
        to: least(page * size, count as int) as u64,
        prev_page: if page > 1 {
            Some((page - 1) as u64)
        } else {
            None
        },
        next_page: if size > 0 && page * size < count {
            Some((page + 1) as u64)
        } else {
            None
        },
    }
}

/// Page `page_no` of a list of `count` items, `page_size` items to the
/// page.
pub fn paginate(count: u64, page_size: u64, page_no: u64) -> (pg: Pagination)
    ensures
        pg == pagination(count, page_size, page_no),
        pg.from <= pg.to <= count,
        pg.to - pg.from <= page_size,
{
    proof {
        assert(0 <= page_no * page_size <= 0xffff_ffff_ffff_ffff * 0xffff_ffff_ffff_ffff)
            by (nonlinear_arith)
            requires
                0 <= page_no <= 0xffff_ffff_ffff_ffff,
                0 <= page_size <= 0xffff_ffff_ffff_ffff,
        ;
        if page_no > 0 {
            assert(0 <= (page_no - 1) * page_size <= page_no * page_size) by (nonlinear_arith)
                requires
                    page_no >= 1,
                    page_size >= 0,
            ;
        }
    }
    let total: u128 = count as u128;
    let end: u128 = (page_no as u128) * (page_size as u128);
    let start: u128 = if page_no == 0 {
        0
    } else {
        ((page_no - 1) as u128) * (page_size as u128)
    };
    proof {
        if page_no > 0 {
            assert((page_no - 1) * page_size + page_size == page_no * page_size)
                by (nonlinear_arith);
            assert((page_no - 1) * page_size >= 0) by (nonlinear_arith)
                requires
                    page_no >= 1,
                    page_size >= 0,
            ;
        }
        if page_size > 0 && end < total {
            assert(page_no < count) by (nonlinear_arith)
                requires
                    page_size > 0,
                    page_no * page_size < count,
                    page_no >= 0,
            ;
        }
    }
    let from: u64 = if start < total {
        start as u64
    } else {
        count
    };
    let to: u64 = if end < total {
        end as u64
    } else {
        count
    };
    let prev_page: Option<u64> = if page_no > 1 {
        Some(page_no - 1)
    } else {
        None
    };
    let next_page: Option<u64> = if page_size > 0 && end < total {
        Some(page_no + 1)
    } else {
        None
    };
    Pagination { from, to, prev_page, next_page }
}

/// How many pages a list of `count` items fills, `size` items to the
/// page.
pub open spec fn page_count(count: u64, size: u64) -> int {
    (count + size - 1) / (size as int)
}

/// The pages cover the list without gap or overlap: each page begins
/// where the one before it ends, the first begins at the first item, and
/// the last page ends with the list.
pub proof fn lemma_pages_are_adjacent(count: u64, size: u64, page: u64)
    requires
        size > 0,
        1 <= page < u64::MAX,
    ensures
        pagination(count, size, 1).from == 0,
        pagination(count, size, (page + 1) as u64).from == pagination(count, size, page).to,
        page >= page_count(count, size) ==> pagination(count, size, page).to == count,
{
    assert(((page + 1) - 1) * size == page * size) by (nonlinear_arith);
    assert((1 - 1) * size == 0) by (nonlinear_arith);
    if page >= page_count(count, size) {
        lemma_page_count(count, size, page);
    }
}

/// Every page but the last has a next page, and the last has none: of the
/// pages 1 to [`page_count`], page `page` names `page + 1` as its next
/// page where it is not the last, and no page where it is.
pub proof fn lemma_next_page_until_last(count: u64, size: u64, page: u64)
    requires
        size > 0,
        1 <= page <= page_count(count, size),
    ensures
        page < page_count(count, size) ==> pagination(count, size, page).next_page == Some(
            (page + 1) as u64,
        ),
        page == page_count(count, size) ==> pagination(count, size, page).next_page.is_none(),
        pagination(count, size, page).from < pagination(count, size, page).to,
{
    lemma_page_count(count, size, page);
    if page > 1 {
        lemma_page_count(count, size, (page - 1) as u64);
    }
    assert((page - 1) * size < count) by {
        if page > 1 {
            assert((page - 1) < page_count(count, size));
        } else {
            assert((page - 1) * size == 0) by (nonlinear_arith)
                requires
                    page == 1,
            ;
            assert(page_count(count, size) >= 1);
            assert(count > 0) by (nonlinear_arith)
                requires
                    (count + size - 1) / (size as int) >= 1,
                    size > 0,
            ;
        }
    }
    assert((page - 1) * size < page * size) by (nonlinear_arith)
        requires
            size > 0,
    ;
}

/// A page leaves items after it exactly where it comes before the last
/// page.
proof fn lemma_page_count(count: u64, size: u64, page: u64)
    requires
        size > 0,
    ensures
        page * size < count <==> page < page_count(count, size),
{
    let n = count + size - 1;
    let q = n / (size as int);
    let r = n % (size as int);
    assert(n == q * size + r && 0 <= r < size) by (nonlinear_arith)
        requires
            q == n / (size as int),
            r == n % (size as int),
            size > 0,
    ;
    if page < q {
        assert(page * size <= (q - 1) * size) by (nonlinear_arith)
            requires
                page <= q - 1,
                size > 0,
        ;
        assert((q - 1) * size == q * size - size) by (nonlinear_arith);
    } else {
        assert(page * size >= q * size) by (nonlinear_arith)
            requires
                page >= q,
                size > 0,
        ;
    }
}

} // verus!
