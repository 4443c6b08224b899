//! Pages over result lists.
use vstd::prelude::*;

verus! {

/// Entries per page unless asked otherwise.
pub const DEFAULT_PAGE_SIZE: u32 = 20;

/// Most entries per page.
pub const MAX_PAGE_SIZE: u32 = 100;

/// Why page parameters were refused.
#[derive(Clone, Copy, Debug, PartialEq, Eq, Structural)]
pub enum ErrorCode {
    /// The page size is zero.
    InvalidPageSize,
    /// The page size exceeds `MAX_PAGE_SIZE`.
    PageSizeTooLarge,
}

/// Which page, of how many entries.
#[derive(Clone, Copy, Debug, PartialEq, Eq, Structural)]
pub struct PaginationParams {
    pub page: u32,
    pub page_size: u32,
}

/// A page of entries and where it stands among all of them.
pub struct PaginationResult<T> {
    pub items: Vec<T>,
    pub total_count: u32,
    pub page: u32,
    pub page_size: u32,
    pub total_pages: u32,
    pub has_next: bool,
    pub has_prev: bool,
}

impl Default for PaginationParams {
    /// The first page of `DEFAULT_PAGE_SIZE` entries.
    fn default() -> (r: Self)
        ensures
            r.page == 0,
            r.page_size == DEFAULT_PAGE_SIZE,
    {
        PaginationParams { page: 0, page_size: DEFAULT_PAGE_SIZE }
    }
}

impl PaginationParams {
    /// Page `page` with the size clamped to `1 ..= MAX_PAGE_SIZE`.
    pub fn new(page: u32, page_size: u32) -> (r: Self)
        ensures
            r.page == page,
            r.page_size == if page_size > MAX_PAGE_SIZE {
                MAX_PAGE_SIZE
            } else if page_size < 1 {
                1
            } else {
                page_size
            },
    {
        let capped = if page_size < MAX_PAGE_SIZE {
            page_size
        } else {
            MAX_PAGE_SIZE
        };
        let size = if capped > 1 {
            capped
        } else {
            1
        };
        PaginationParams { page, page_size: size }
    }

    /// Index of the page's first entry.
    pub fn offset(&self) -> (r: u32)
        requires
            self.page * self.page_size <= u32::MAX,
        ensures
            r == self.page * self.page_size,
    {
        self.page * self.page_size
    }

    /// Entries per page.
    pub fn limit(&self) -> (r: u32)
        ensures
            r == self.page_size,
    {
        self.page_size
    }

    /// Checks the page size: `InvalidPageSize` for zero,
    /// `PageSizeTooLarge` above `MAX_PAGE_SIZE`.
    pub fn validate(&self) -> (r: Result<(), ErrorCode>)
        ensures
            r == if self.page_size == 0 {
                Err::<(), ErrorCode>(ErrorCode::InvalidPageSize)
            } else if self.page_size > MAX_PAGE_SIZE {
                Err(ErrorCode::PageSizeTooLarge)
            } else {
                Ok(())
            },
    {
        if self.page_size == 0 {
            return Err(ErrorCode::InvalidPageSize);
        }
        if self.page_size > MAX_PAGE_SIZE {
            return Err(ErrorCode::PageSizeTooLarge);
        }
        Ok(())
    }
}

/// Pages needed for `total` entries, `size` a page.
pub open spec fn pages_for(total: int, size: int) -> int {
    if total == 0 {
        0
    } else {
        (total + size - 1) / size
    }
}

impl<T> PaginationResult<T> {
    /// The page `items` of `total_count` entries under `params`.
    pub fn new(items: Vec<T>, total_count: u32, params: PaginationParams) -> (r: Self)
        requires
            params.page_size > 0,
        ensures
            r.items == items,
            r.total_count == total_count,
            r.page == params.page,
            r.page_size == params.page_size,
            r.total_pages == pages_for(total_count as int, params.page_size as int),
            r.has_next == (params.page + 1 < r.total_pages),
            r.has_prev == (params.page > 0),
    {
        let total_pages = if total_count == 0 {
            0
        } else {
            let full = total_count / params.page_size;
            if total_count % params.page_size == 0 {
                full
            } else {
                assert(params.page_size >= 2);
                assert(full <= total_count / 2) by (nonlinear_arith)
                    requires
                        params.page_size >= 2,
                        full == total_count / params.page_size,
                ;
                full + 1
            }
        };
        assert(total_pages == pages_for(total_count as int, params.page_size as int)) by (nonlinear_arith)
            requires
                params.page_size > 0,
                total_count == 0 ==> total_pages == 0,
                total_count > 0 ==> total_pages == total_count / params.page_size + if total_count
                    % params.page_size == 0 {
                    0int
                } else {
                    1int
                },
        ;
        let has_next = (params.page as u64) + 1 < total_pages as u64;
        let has_prev = params.page > 0;
        PaginationResult {
            items,
            total_count,
            page: params.page,
            page_size: params.page_size,
            total_pages,
            has_next,
            has_prev,
        }
    }

    /// A page of nothing.
    pub fn empty(params: PaginationParams) -> (r: Self)
        requires
            params.page_size > 0,
        ensures
            r.items@.len() == 0,
            r.total_count == 0,
            r.total_pages == 0,
            !r.has_next,
            r.has_prev == (params.page > 0),
    {
        Self::new(Vec::new(), 0, params)
    }
}

/// The entries of page `params` of `data`.
pub fn paginate_slice(data: &[u64], params: PaginationParams) -> (r: PaginationResult<u64>)
    requires
        params.page_size > 0,
        data@.len() <= u32::MAX,
        params.page * params.page_size <= u32::MAX,
    ensures
        r.total_count == data@.len(),
        r.page == params.page,
        r.total_pages == pages_for(data@.len() as int, params.page_size as int),
        r.items@ == if params.page * params.page_size >= data@.len() {
            Seq::empty()
        } else if params.page * params.page_size + params.page_size <= data@.len() {
            data@.subrange(params.page * params.page_size, params.page * params.page_size + params.page_size)
        } else {
            data@.subrange(params.page * params.page_size, data@.len() as int)
        },
{
    let total_count = data.len() as u32;
    let offset = params.offset() as usize;
    let limit = params.limit() as usize;
    let mut items: Vec<u64> = Vec::new();
    if offset < data.len() {
        let end = if limit <= data.len() - offset {
            offset + limit
        } else {
            data.len()
        };
        let mut i: usize = offset;
        while i < end
            invariant
                offset <= i <= end <= data@.len(),
                items@ == data@.subrange(offset as int, i as int),
            decreases end - i,
        {
            items.push(data[i]);
            i = i + 1;
            assert(items@ =~= data@.subrange(offset as int, i as int));
        }
    }
    PaginationResult::new(items, total_count, params)
}

/// The index range `start .. end` of page `params`.
pub fn calculate_range(params: PaginationParams) -> (r: (usize, usize))
    requires
        params.page * params.page_size + params.page_size <= u32::MAX,
    ensures
        r.0 == params.page * params.page_size,
        r.1 == r.0 + params.page_size,
{
    let start = params.offset() as usize;
    let end = start + params.limit() as usize;
    (start, end)
}

/// Checks the page parameters; see `PaginationParams::validate`.
pub fn validate_pagination(params: &PaginationParams) -> (r: Result<(), ErrorCode>)
    ensures
        r == if params.page_size == 0 {
            Err::<(), ErrorCode>(ErrorCode::InvalidPageSize)
        } else if params.page_size > MAX_PAGE_SIZE {
            Err(ErrorCode::PageSizeTooLarge)
        } else {
            Ok(())
        },
{
    params.validate()
}

} // verus!
