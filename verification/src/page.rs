//! Stateless paging: a `(limit, offset)` pair selects a window of a listing.

use vstd::prelude::*;

verus! {

/// First position of the window that `limit_offset` selects out of `total` items.
pub open spec fn window_start(total: int, limit_offset: Option<(usize, usize)>) -> int {
    match limit_offset {
        None => 0,
        Some((_, offset)) => if offset <= total { offset as int } else { total },
    }
}

/// Position one past the last item of the window.
pub open spec fn window_end(total: int, limit_offset: Option<(usize, usize)>) -> int {
    match limit_offset {
        None => total,
        Some((limit, offset)) => if offset + limit <= total { offset + limit } else { total },
    }
}

/// The page of `items` that `limit_offset` selects: everything when it is
/// absent, else at most `limit` items starting at `offset`.
pub open spec fn page_of<T>(items: Seq<T>, limit_offset: Option<(usize, usize)>) -> Seq<T> {
    items.subrange(
        window_start(items.len() as int, limit_offset),
        window_end(items.len() as int, limit_offset),
    )
}

/// Computes the bounds of the window over a listing of `total` items.
pub fn page_window(total: usize, limit_offset: Option<(usize, usize)>) -> (r: (usize, usize))
    ensures
        r.0 == window_start(total as int, limit_offset),
        r.1 == window_end(total as int, limit_offset),
        r.0 <= r.1 <= total,
{
    match limit_offset {
        None => (0, total),
        Some((limit, offset)) => {
            if offset >= total {
                (total, total)
            } else if limit >= total - offset {
                (offset, total)
            } else {
                (offset, offset + limit)
            }
        },
    }
}

/// Returns the selected page of `items` together with the number of all items.
pub fn paginate(items: &Vec<String>, limit_offset: Option<(usize, usize)>) -> (r: (
    Vec<String>,
    usize,
))
    ensures
        r.0@ == page_of(items@, limit_offset),
        r.1 == items@.len(),
{
    let total: usize = items.len();
    let (start, end) = page_window(total, limit_offset);
    let mut out: Vec<String> = Vec::new();
    let mut i: usize = start;
    while i < end
        invariant
            start <= i <= end <= items@.len(),
            out@ == items@.subrange(start as int, i as int),
        decreases end - i,
    {
        out.push(items[i].clone());
        proof {
            assert(out@ =~= items@.subrange(start as int, i + 1));
        }
        i = i + 1;
    }
    (out, total)
}

/// Consecutive pages of a fixed listing neither overlap nor leave a gap:
/// the page at offset `a` with limit `b - a` followed by the page at offset
/// `b` with limit `n` is the page at offset `a` with limit `b - a + n`.
pub proof fn lemma_pages_concatenate<T>(items: Seq<T>, a: usize, b: usize, n: usize)
    requires
        a <= b,
        b + n <= usize::MAX,
    ensures
        page_of(items, Some(((b - a) as usize, a))) + page_of(items, Some((n, b))) == page_of(
            items,
            Some(((b - a + n) as usize, a)),
        ),
{
    assert(page_of(items, Some(((b - a) as usize, a))) + page_of(items, Some((n, b))) =~= page_of(
        items,
        Some(((b - a + n) as usize, a)),
    ));
}

} // verus!
