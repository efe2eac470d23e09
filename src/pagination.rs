use vstd::prelude::*;

verus! {

/// Page size used when a page is requested without a size.
pub const DEFAULT_PAGE_SIZE: i32 = 25;

/// `a / b` rounded up, for `a >= 0` and `b > 0`.
pub open spec fn ceil_div(a: int, b: int) -> int {
    (a + b - 1) / b
}

/// The rows of page `page` when `rows` is cut into pages of `size` rows.
pub open spec fn page_items<U>(rows: Seq<U>, page: int, size: int) -> Seq<U> {
    let start = if page * size < rows.len() { page * size } else { rows.len() as int };
    let end = if page * size + size < rows.len() { page * size + size } else { rows.len() as int };
    rows.subrange(start, end)
}

/// Pages `0..n` of `rows`, cut `size` rows each, one after the other.
pub open spec fn concat_pages<U>(rows: Seq<U>, size: int, n: nat) -> Seq<U>
    decreases n,
{
    if n == 0 {
        Seq::empty()
    } else {
        concat_pages(rows, size, (n - 1) as nat) + page_items(rows, n - 1, size)
    }
}

proof fn lemma_pages_prefix<U>(rows: Seq<U>, size: int, k: nat)
    requires
        size > 0,
    ensures
        concat_pages(rows, size, k) == rows.subrange(
            0,
            if k * size < rows.len() { k * size } else { rows.len() as int },
        ),
    decreases k,
{
    if k == 0 {
        assert(concat_pages(rows, size, k) =~= rows.subrange(0, 0));
    } else {
        let j = (k - 1) as nat;
        lemma_pages_prefix(rows, size, j);
        assert(j * size + size == k * size && j * size >= 0) by (nonlinear_arith)
            requires
                j + 1 == k,
                size > 0,
        ;
        let a = if j * size < rows.len() { j * size } else { rows.len() as int };
        let b = if k * size < rows.len() { k * size } else { rows.len() as int };
        assert(rows.subrange(0, a) + rows.subrange(a, b) =~= rows.subrange(0, b));
    }
}

/// Cutting a result set into pages of `size` rows and putting the pages
/// `0..ceil(len / size)` back together in order gives the result set again:
/// no row is lost and none is repeated.
pub proof fn lemma_pages_reassemble<U>(rows: Seq<U>, size: int)
    requires
        size > 0,
    ensures
        concat_pages(rows, size, ceil_div(rows.len() as int, size) as nat) == rows,
{
    let len = rows.len() as int;
    let n = ceil_div(len, size);
    vstd::arithmetic::div_mod::lemma_fundamental_div_mod(len + size - 1, size);
    assert(n >= 0) by {
        vstd::arithmetic::div_mod::lemma_div_pos_is_pos(len + size - 1, size);
    }
    assert(n * size >= len) by (nonlinear_arith)
        requires
            len + size - 1 == size * n + (len + size - 1) % size,
            (len + size - 1) % size < size,
    ;
    lemma_pages_prefix(rows, size, n as nat);
    assert(rows.subrange(0, len) =~= rows);
}

/// The size of a requested page.
pub open spec fn effective_size(page_size: Option<i32>) -> i32 {
    match page_size {
        Some(s) => s,
        None => DEFAULT_PAGE_SIZE,
    }
}

/// The error, if any, of a request for `page` with `page_size` rows.
pub open spec fn load_error(page: Option<i32>, page_size: Option<i32>) -> Option<PageError> {
    match page {
        None => None,
        Some(n) => if n < 0 {
            Some(PageError::InvalidPage)
        } else if effective_size(page_size) <= 0 {
            Some(PageError::InvalidPageSize)
        } else {
            None
        },
    }
}

/// `p` is what a request for `page` with `page_size` returns on `rows`.
pub open spec fn is_loaded_page<U>(
    p: PaginationPage<U>,
    rows: Seq<U>,
    page: Option<i32>,
    page_size: Option<i32>,
) -> bool {
    match page {
        None => {
            &&& p.items@ == rows
            &&& p.page is None
            &&& p.page_count is None
            &&& p.page_size is None
            &&& p.total_count is None
        },
        Some(n) => {
            let s = effective_size(page_size);
            &&& p.page == page
            &&& p.page_size == Some(s)
            &&& p.total_count == Some(rows.len() as i32)
            &&& p.page_count == Some(ceil_div(rows.len() as int, s as int) as i32)
            &&& p.items@ == page_items(rows, n as int, s as int)
        },
    }
}

/// Why a page could not be produced.
#[derive(Debug, Clone, Copy, PartialEq, Eq, Structural)]
pub enum PageError {
    /// A negative page index.
    InvalidPage,
    /// A page size of zero or less.
    InvalidPageSize,
}

/// One page of a result set, with the metadata of the paging; the metadata is
/// `None` when no page was requested.
pub struct PaginationPage<T> {
    pub page: Option<i32>,
    pub page_count: Option<i32>,
    pub page_size: Option<i32>,
    pub total_count: Option<i32>,
    pub items: Vec<T>,
}

/// A filtered and ordered result set together with the page to cut from it.
pub struct Paginated<T> {
    pub query: T,
    pub page: i32,
    pub page_size: i32,
}

/// Wraps a result set for paging with the default page size.
pub trait Paginate: Sized {
    fn paginate(self, page: i32) -> (r: Paginated<Self>)
        ensures
            r.query == self,
            r.page == page,
            r.page_size == DEFAULT_PAGE_SIZE,
    ;
}

impl<T> Paginate for T {
    fn paginate(self, page: i32) -> (r: Paginated<Self>) {
        Paginated { query: self, page, page_size: DEFAULT_PAGE_SIZE }
    }
}

impl<U> Paginated<Vec<U>> {
    pub fn page_size(self, page_size: i32) -> (r: Self)
        ensures
            r.query == self.query,
            r.page == self.page,
            r.page_size == page_size,
    {
        Paginated { page_size, ..self }
    }

    /// Cuts the requested page out of the result set and returns it with the
    /// number of rows of the whole set, which does not depend on the page.
    pub fn load_and_count(self) -> (r: Result<(Vec<U>, i32), PageError>)
        requires
            self.query@.len() <= i32::MAX,
        ensures
            self.page < 0 ==> r == Err::<(Vec<U>, i32), PageError>(PageError::InvalidPage),
            self.page >= 0 && self.page_size <= 0 ==> r == Err::<(Vec<U>, i32), PageError>(
                PageError::InvalidPageSize,
            ),
            self.page >= 0 && self.page_size > 0 ==> r is Ok,
            r matches Ok((items, total)) ==> {
                &&& items@ == page_items(self.query@, self.page as int, self.page_size as int)
                &&& total == self.query@.len()
            },
    {
        if self.page < 0 {
            return Err(PageError::InvalidPage);
        }
        if self.page_size <= 0 {
            return Err(PageError::InvalidPageSize);
        }
        let total = self.query.len();
        let page: u64 = self.page as u64;
        let size: u64 = self.page_size as u64;
        assert(page * size <= 0x7fff_ffff * 0x7fff_ffff) by (nonlinear_arith)
            requires
                page <= 0x7fff_ffff,
                size <= 0x7fff_ffff,
        ;
        let offset: u64 = page * size;
        let end: u64 = offset + self.page_size as u64;
        let mut rows = self.query;
        let start: usize = if offset < total as u64 { offset as usize } else { total };
        let stop: usize = if end < total as u64 { end as usize } else { total };
        let mut items = rows.split_off(start);
        items.truncate(stop - start);
        Ok((items, total as i32))
    }
}

/// A result set that can be loaded whole or one page at a time.
pub trait LoadPaginated<U>: Sized {
    spec fn rows(&self) -> Seq<U>;

    /// Without a page, all rows and no metadata. With a page, that page of
    /// `page_size` rows (the default when none is given), the number of rows
    /// of the whole set, and the number of pages.
    fn load_with_pagination(self, page: Option<i32>, page_size: Option<i32>) -> (r: Result<
        PaginationPage<U>,
        PageError,
    >)
        requires
            self.rows().len() <= i32::MAX,
        ensures
            match load_error(page, page_size) {
                Some(e) => r == Err::<PaginationPage<U>, PageError>(e),
                None => (r matches Ok(p) && is_loaded_page(p, self.rows(), page, page_size)),
            },
    ;
}

impl<U> LoadPaginated<U> for Vec<U> {
    open spec fn rows(&self) -> Seq<U> {
        self@
    }

    fn load_with_pagination(self, page: Option<i32>, page_size: Option<i32>) -> (r: Result<
        PaginationPage<U>,
        PageError,
    >) {
        match page {
            None => Ok(
                PaginationPage {
                    page,
                    page_count: None,
                    page_size: None,
                    total_count: None,
                    items: self,
                },
            ),
            Some(n) => {
                let size = match page_size {
                    Some(s) => s,
                    None => DEFAULT_PAGE_SIZE,
                };
                let query = self.paginate(n).page_size(size);
                let (items, total) = query.load_and_count()?;
                let count: i64 = (total as i64 + size as i64 - 1) / size as i64;
                assert(0 <= count <= total) by (nonlinear_arith)
                    requires
                        count == (total as int + size as int - 1) / (size as int),
                        size > 0,
                        total >= 0,
                ;
                Ok(
                    PaginationPage {
                        page,
                        page_count: Some(count as i32),
                        page_size: Some(size),
                        total_count: Some(total),
                        items,
                    },
                )
            },
        }
    }
}

} // verus!
