use vstd::prelude::*;

verus! {

/// Which page of the archive to list, and how long a page is.
/// `page` counts from 1.
pub struct PaginationCursor {
    pub page: Option<u32>,
    pub limit: Option<i32>,
}

impl Default for PaginationCursor {
    fn default() -> (r: PaginationCursor)
        ensures
            r.page is None,
            r.limit is None,
    {
        PaginationCursor { page: None, limit: None }
    }
}

/// One page of a listing.
pub struct Paginated<T> {
    pub items: Vec<T>,
    pub total_pages: usize,
    pub page: usize,
}

/// A cursor the archive cannot be listed with.
#[derive(Debug, Clone, Copy, PartialEq, Eq, Structural)]
pub enum PageError {
    /// Pages count from 1.
    ZeroPage,
    /// A page cannot hold a negative number of items.
    NegativeLimit,
}

/// The window of rows a cursor selects.
#[derive(Debug, Clone, Copy, PartialEq, Eq, Structural)]
pub struct PageQuery {
    /// How many rows a page fetches: the requested limit and one more.
    pub limit: i64,
    /// How many rows come before the page.
    pub offset: i64,
    /// The page number, from 1.
    pub page: usize,
}

/// The page length asked for; 100 when none is given.
pub open spec fn requested_limit(c: PaginationCursor) -> int {
    match c.limit {
        Some(l) => l as int,
        None => 100,
    }
}

pub open spec fn spec_page_query(c: PaginationCursor) -> Result<PageQuery, PageError> {
    if c.page == Some(0u32) {
        Err(PageError::ZeroPage)
    } else if requested_limit(c) < 0 {
        Err(PageError::NegativeLimit)
    } else {
        let limit = requested_limit(c) + 1;
        Ok(PageQuery {
            limit: limit as i64,
            offset: match c.page {
                Some(p) => ((p - 1) * limit) as i64,
                None => 0,
            },
            page: match c.page {
                Some(p) => p as usize,
                None => 1,
            },
        })
    }
}

proof fn lemma_offset_fits(p: int, limit: int)
    requires
        1 <= p <= u32::MAX,
        1 <= limit <= i32::MAX + 1,
    ensures
        0 <= (p - 1) * limit <= u32::MAX * (i32::MAX + 1),
{
    assert(0 <= (p - 1) * limit <= u32::MAX * (i32::MAX + 1)) by (nonlinear_arith)
        requires
            1 <= p <= u32::MAX,
            1 <= limit <= i32::MAX + 1,
    ;
}

/// A window that a cursor selects starts at a row and holds at least one.
pub proof fn lemma_page_query_bounds(c: PaginationCursor)
    ensures
        spec_page_query(c) matches Ok(q) ==> q.limit >= 1 && q.offset >= 0,
{
    if let Some(p) = c.page {
        if p != 0 && requested_limit(c) >= 0 {
            lemma_offset_fits(p as int, requested_limit(c) + 1);
        }
    }
}

/// The window of archive rows a cursor selects.
pub fn page_query(c: &PaginationCursor) -> (r: Result<PageQuery, PageError>)
    ensures
        r == spec_page_query(*c),
{
    if c.page == Some(0u32) {
        return Err(PageError::ZeroPage);
    }
    let requested: i64 = match c.limit {
        Some(l) => l as i64,
        None => 100,
    };
    if requested < 0 {
        return Err(PageError::NegativeLimit);
    }
    let limit: i64 = requested + 1;
    let offset: i64 = match c.page {
        Some(p) => {
            proof {
                lemma_offset_fits(p as int, limit as int);
            }
            (p as i64 - 1) * limit
        },
        None => 0,
    };
    let page: usize = match c.page {
        Some(p) => p as usize,
        None => 1,
    };
    Ok(PageQuery { limit, offset, page })
}

} // verus!
