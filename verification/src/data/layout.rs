//! The page layout descriptor shared by all pages of a database instance.

use vstd::prelude::*;
use crate::data::page::PageError;

verus! {

/// Number of bytes taken by the page header.
pub const PAGE_HEADER_SIZE: usize = 14;

/// Number of bytes of one slot entry.
pub const SLOT_SIZE: usize = 7;

/// Number of bytes of the page file header.
pub const FILE_HEADER_SIZE: usize = 8;

/// Smallest page size a layout accepts.
pub const MIN_PAGE_SIZE: usize = 32;

/// Largest page size a layout accepts. The page header stores the byte length
/// of the slot array as a signed 32-bit number, so the data region may not be
/// longer than that number can say.
pub const MAX_PAGE_SIZE: usize = 2147483661;

/// Largest record a slot can describe: its length field has 16 bits.
pub const MAX_ROW_LENGTH: usize = 65535;

/// Whether `page_size` is a page size that a layout accepts.
pub open spec fn valid_page_size(page_size: int) -> bool {
    MIN_PAGE_SIZE <= page_size <= MAX_PAGE_SIZE
}

/// Byte offset in the page file at which the page with id `page_id` starts.
pub open spec fn page_position(page_size: int, page_id: int) -> int {
    FILE_HEADER_SIZE + (page_id - 1) * page_size
}

/// Parameters of the page format: the page size, from which every offset
/// within a page and within the page file follows.
#[derive(Debug, Clone, Copy)]
pub struct PageDataLayout {
    page_size: usize,
}

impl PageDataLayout {
    #[verifier::type_invariant]
    spec fn inv(self) -> bool {
        valid_page_size(self.page_size as int)
    }

    /// The configured page size.
    pub closed spec fn spec_page_size(&self) -> int {
        self.page_size as int
    }

    /// The size of the data region of a page: what the header leaves.
    pub open spec fn spec_page_data_size(&self) -> int {
        self.spec_page_size() - PAGE_HEADER_SIZE
    }

    /// A layout for pages of `page_size` bytes.
    pub fn new(page_size: usize) -> (r: Result<PageDataLayout, PageError>)
        ensures
            valid_page_size(page_size as int) ==> r is Ok && r->Ok_0.spec_page_size() == page_size,
            !valid_page_size(page_size as int) ==> r == Err::<PageDataLayout, PageError>(
                PageError::InvalidPageSize,
            ),
    {
        if page_size < MIN_PAGE_SIZE || page_size > MAX_PAGE_SIZE {
            Err(PageError::InvalidPageSize)
        } else {
            Ok(PageDataLayout { page_size })
        }
    }

    /// Size of a page in bytes.
    pub fn page_size(&self) -> (r: usize)
        ensures
            r == self.spec_page_size(),
            valid_page_size(r as int),
    {
        proof {
            use_type_invariant(self);
        }
        self.page_size
    }

    /// Size of the data region of a page in bytes.
    pub fn page_data_size(&self) -> (r: usize)
        ensures
            r == self.spec_page_data_size(),
            valid_page_size(self.spec_page_size()),
    {
        proof {
            use_type_invariant(self);
        }
        self.page_size - PAGE_HEADER_SIZE
    }

    /// Offset of the data region within a page: the size of the page header.
    pub fn data_offset(&self) -> (r: usize)
        ensures
            r == PAGE_HEADER_SIZE,
    {
        PAGE_HEADER_SIZE
    }

    /// Size of one slot entry in bytes.
    pub fn slot_size(&self) -> (r: usize)
        ensures
            r == SLOT_SIZE,
    {
        SLOT_SIZE
    }

    /// Size of the page file header in bytes.
    pub fn metadata_size(&self) -> (r: usize)
        ensures
            r == FILE_HEADER_SIZE,
    {
        FILE_HEADER_SIZE
    }

    /// Byte offset in the page file at which the page with id `page_id`
    /// starts. Ids start at 1; there is no page 0 in a file.
    pub fn page_position(&self, page_id: i32) -> (r: u64)
        requires
            page_id >= 1,
        ensures
            r == page_position(self.spec_page_size(), page_id as int),
            valid_page_size(self.spec_page_size()),
    {
        proof {
            use_type_invariant(self);
        }
        let index: u64 = (page_id - 1) as u64;
        let size: u64 = self.page_size as u64;
        assert(index * size <= 2147483646 * 2147483661) by (nonlinear_arith)
            requires
                0 <= index <= 2147483646,
                0 <= size <= 2147483661,
        ;
        FILE_HEADER_SIZE as u64 + index * size
    }
}

} // verus!
