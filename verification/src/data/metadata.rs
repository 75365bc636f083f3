//! The header of a page file: the allocator of page ids and the page count.

use vstd::prelude::*;
use crate::data::bigendian::{be32, from_be32, push_i32, read_i32, signed32, unsigned32};
use crate::data::layout::{PageDataLayout, FILE_HEADER_SIZE};

verus! {

/// The header of a page file as a mathematical value.
pub struct MetadataView {
    pub next_id: int,
    pub number_of_pages: int,
}

impl MetadataView {
    /// The header of a file without pages: the first id to give out is 1.
    pub open spec fn fresh() -> MetadataView {
        MetadataView { next_id: 1, number_of_pages: 0 }
    }

    /// Whether the header is one that this engine writes: ids start at 1,
    /// and no count is negative.
    pub open spec fn valid(self) -> bool {
        1 <= self.next_id < 2147483648 && 0 <= self.number_of_pages < 2147483648
    }

    /// Whether another page can be allocated: both numbers can go up.
    pub open spec fn can_allocate(self) -> bool {
        self.next_id < 2147483647 && self.number_of_pages < 2147483647
    }

    /// The header after a page was allocated.
    pub open spec fn allocate(self) -> MetadataView {
        MetadataView { next_id: self.next_id + 1, number_of_pages: self.number_of_pages + 1 }
    }

    /// The eight bytes of the header on disk: the two numbers, each as four
    /// bytes, most significant first.
    pub open spec fn to_bytes(self) -> Seq<u8> {
        be32(unsigned32(self.next_id)) + be32(unsigned32(self.number_of_pages))
    }

    /// The header that the first eight bytes of `bytes` spell out.
    pub open spec fn parse(bytes: Seq<u8>) -> MetadataView {
        MetadataView {
            next_id: signed32(from_be32(bytes.subrange(0, 4))),
            number_of_pages: signed32(from_be32(bytes.subrange(4, 8))),
        }
    }

    /// Whether `bytes` starts with a header that this engine writes.
    pub open spec fn is_image(bytes: Seq<u8>) -> bool {
        bytes.len() >= FILE_HEADER_SIZE && Self::parse(bytes).valid()
    }

    /// A header read back is the header that was written, whatever follows
    /// its eight bytes.
    pub proof fn lemma_round_trip(self, rest: Seq<u8>)
        requires
            self.valid(),
        ensures
            self.to_bytes().len() == FILE_HEADER_SIZE,
            MetadataView::is_image(self.to_bytes() + rest),
            MetadataView::parse(self.to_bytes() + rest) == self,
    {
        let bytes = self.to_bytes() + rest;
        crate::data::bigendian::lemma_be32_round_trip(
            unsigned32(self.next_id),
            bytes.subrange(0, 4),
        );
        crate::data::bigendian::lemma_be32_round_trip(
            unsigned32(self.number_of_pages),
            bytes.subrange(4, 8),
        );
        crate::data::bigendian::lemma_signed_round_trip(self.next_id);
        crate::data::bigendian::lemma_signed_round_trip(self.number_of_pages);
        assert(bytes.subrange(0, 4) =~= be32(unsigned32(self.next_id)));
        assert(bytes.subrange(4, 8) =~= be32(unsigned32(self.number_of_pages)));
    }
}

/// The header of a page file.
#[derive(Debug, Clone, Copy)]
pub struct PageFileMetadata {
    next_id: i32,
    number_of_pages: i32,
}

impl View for PageFileMetadata {
    type V = MetadataView;

    closed spec fn view(&self) -> MetadataView {
        MetadataView {
            next_id: self.next_id as int,
            number_of_pages: self.number_of_pages as int,
        }
    }
}

impl PageFileMetadata {
    #[verifier::type_invariant]
    spec fn inv(self) -> bool {
        self.next_id >= 1 && self.number_of_pages >= 0
    }

    /// The header of a file without pages.
    pub fn new() -> (metadata: PageFileMetadata)
        ensures
            metadata@ == MetadataView::fresh(),
    {
        PageFileMetadata { next_id: 1, number_of_pages: 0 }
    }

    /// The id that the next allocated page gets.
    pub fn next_id(&self) -> (id: i32)
        ensures
            id == self@.next_id,
            self@.valid(),
    {
        proof {
            use_type_invariant(self);
        }
        self.next_id
    }

    /// Number of pages of the file.
    pub fn number_of_pages(&self) -> (n: i32)
        ensures
            n == self@.number_of_pages,
            self@.valid(),
    {
        proof {
            use_type_invariant(self);
        }
        self.number_of_pages
    }

    /// Whether another page can be allocated.
    pub fn can_allocate(&self) -> (b: bool)
        ensures
            b == self@.can_allocate(),
            self@.valid(),
    {
        proof {
            use_type_invariant(self);
        }
        self.next_id < i32::MAX && self.number_of_pages < i32::MAX
    }

    /// Gives out the next page id, and counts the page.
    pub fn allocate_next_page_id(&mut self) -> (id: i32)
        requires
            old(self)@.can_allocate(),
        ensures
            id == old(self)@.next_id,
            id >= 1,
            final(self)@ == old(self)@.allocate(),
    {
        proof {
            use_type_invariant(&*self);
        }
        let id: i32 = self.next_id;
        self.next_id = id + 1;
        self.number_of_pages = self.number_of_pages + 1;
        id
    }

    /// The header as it stands at the start of the file.
    pub fn serialize(&self, layout: &PageDataLayout) -> (bytes: Vec<u8>)
        ensures
            bytes@ == self@.to_bytes(),
            bytes@.len() == FILE_HEADER_SIZE,
    {
        let mut bytes: Vec<u8> = Vec::with_capacity(layout.metadata_size());
        push_i32(&mut bytes, self.next_id);
        push_i32(&mut bytes, self.number_of_pages);
        assert(bytes@ =~= self@.to_bytes());
        bytes
    }

    /// The header that `bytes` starts with; `None` where there are fewer than
    /// eight bytes, the next id is not positive, or the page count is
    /// negative.
    pub fn deserialize(bytes: &[u8]) -> (r: Option<PageFileMetadata>)
        ensures
            r is Some <==> MetadataView::is_image(bytes@),
            r is Some ==> r->Some_0@ == MetadataView::parse(bytes@),
    {
        if bytes.len() < FILE_HEADER_SIZE {
            return None;
        }
        let next_id: i32 = read_i32(bytes, 0);
        let number_of_pages: i32 = read_i32(bytes, 4);
        proof {
            crate::data::bigendian::lemma_be32_round_trip(0, bytes@.subrange(0, 4));
            crate::data::bigendian::lemma_be32_round_trip(0, bytes@.subrange(4, 8));
            crate::data::bigendian::lemma_signed_round_trip(from_be32(bytes@.subrange(0, 4)));
            crate::data::bigendian::lemma_signed_round_trip(from_be32(bytes@.subrange(4, 8)));
        }
        if next_id < 1 || number_of_pages < 0 {
            return None;
        }
        Some(PageFileMetadata { next_id, number_of_pages })
    }
}

} // verus!
