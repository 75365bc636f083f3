//! Slotted pages: a header, slot entries that grow up from the low end of the
//! data region, and a heap of records that grows down from its high end.

use vstd::prelude::*;
use vstd::slice::{slice_subrange, slice_to_vec};
use vstd::string::StringExecFns;
use crate::data::bigendian::{
    copy_into,
    from_be32,
    lemma_be32_round_trip,
    lemma_signed_round_trip,
    push_i32,
    push_u16,
    push_u32,
    read_i32,
    read_u16,
    read_u32,
};
pub use crate::data::layout::PageDataLayout;
use crate::data::layout::{MAX_ROW_LENGTH, PAGE_HEADER_SIZE, SLOT_SIZE};
pub use crate::data::metadata::PageFileMetadata;
use crate::data::page_lemmas::{
    lemma_count_live_push,
    lemma_count_live_update,
    lemma_first_reusable_unique,
    lemma_largest_deleted_take,
};
use crate::data::page_model::{
    count_live,
    first_reusable,
    is_first_reusable,
    largest_deleted,
    reusable,
    PageView,
};
use crate::data::slot::Slot;
use crate::store::PageRowIterator;
use crate::table::TableSchema;

verus! {

/// Why an operation on a page or a layout was refused.
#[derive(Debug, Clone, Copy, PartialEq, Eq, Structural)]
pub enum PageError {
    /// The page size is not one that a layout accepts.
    InvalidPageSize,
    /// The page cannot take the record: it is too large, or no space is left.
    InsertRowError,
    /// The bytes read are not a page.
    ReadPageError,
}

impl PageError {
    /// The message that describes the failure as a mathematical value.
    pub open spec fn spec_message(&self) -> Seq<char> {
        match self {
            PageError::InvalidPageSize => "Invalid page size."@,
            PageError::InsertRowError => "Failed to insert row into page. Page is full."@,
            PageError::ReadPageError => "Failed to read page from file."@,
        }
    }

    /// The message that describes the failure.
    pub fn message(&self) -> (text: String)
        ensures
            text@ == self.spec_message(),
    {
        match self {
            PageError::InvalidPageSize => String::from_str("Invalid page size."),
            PageError::InsertRowError => String::from_str(
                "Failed to insert row into page. Page is full.",
            ),
            PageError::ReadPageError => String::from_str("Failed to read page from file."),
        }
    }
}

/// Whether a record of `len` bytes can take the place of `slot`.
fn reusable_slot(slot: &Slot, len: usize) -> (b: bool)
    ensures
        b == reusable(*slot, len as int),
{
    slot.deleted && slot.record_length as usize >= len
}

/// A page in memory. It borrows the layout that it was made for.
pub struct Page<'a> {
    layout: &'a PageDataLayout,
    number_of_records: u16,
    data_offset: u32,
    page_id: i32,
    slots: Vec<Slot>,
    data: Vec<u8>,
}

impl<'a> View for Page<'a> {
    type V = PageView;

    closed spec fn view(&self) -> PageView {
        PageView {
            page_size: self.layout.spec_page_size(),
            page_id: self.page_id as int,
            data_offset: self.data_offset as int,
            slots: self.slots@,
            heap: self.data@.subrange(self.data_offset as int, self.data@.len() as int),
        }
    }
}

impl<'a> Page<'a> {
    /// Whether the fields agree with each other beyond what the model says:
    /// the data region has its size, and the stored record count is the
    /// number of live slots.
    pub closed spec fn consistent(&self) -> bool {
        &&& self.data@.len() == self.layout.spec_page_data_size()
        &&& self.number_of_records == count_live(self.slots@)
    }

    /// The invariant of a page in memory.
    pub open spec fn wf(&self) -> bool {
        self@.valid() && self.consistent()
    }

    /// The layout that the page was made for.
    pub closed spec fn spec_layout(&self) -> PageDataLayout {
        *self.layout
    }

    /// An empty page: no slots, the record heap empty at the top of the data
    /// region, and the id 0 of a page that no file holds yet.
    pub fn new(layout: &'a PageDataLayout) -> (page: Page<'a>)
        ensures
            page.wf(),
            page@ == PageView::empty(layout.spec_page_size()),
            page@.number_of_records() == 0,
            page.spec_layout() == *layout,
    {
        let size: usize = layout.page_data_size();
        let page = Page {
            layout,
            number_of_records: 0,
            data_offset: size as u32,
            page_id: 0,
            slots: Vec::new(),
            data: vec![0u8; size],
        };
        assert(page@.heap =~= Seq::<u8>::empty());
        assert(page@.slots =~= Seq::<Slot>::empty());
        page
    }

    /// The layout that the page was made for.
    pub fn layout(&self) -> (layout: &'a PageDataLayout)
        ensures
            *layout == self.spec_layout(),
            layout.spec_page_size() == self@.page_size,
    {
        self.layout
    }

    /// The id of the page; 0 until one was assigned.
    pub fn page_id(&self) -> (id: i32)
        ensures
            id == self@.page_id,
    {
        self.page_id
    }

    /// Assigns the id that the page file allocated for this page.
    pub fn set_page_id(&mut self, id: i32)
        ensures
            final(self)@ == old(self)@.with_page_id(id as int),
            old(self).wf() ==> final(self).wf(),
            final(self).spec_layout() == old(self).spec_layout(),
    {
        self.page_id = id;
    }

    /// Number of live records.
    pub fn number_of_records(&self) -> (n: u16)
        requires
            self.wf(),
        ensures
            n == self@.number_of_records(),
    {
        self.number_of_records
    }

    /// Offset in the data region at which the record heap starts.
    pub fn data_offset(&self) -> (offset: u32)
        ensures
            offset == self@.data_offset,
    {
        self.data_offset
    }

    /// The slots, deleted ones included, in index order.
    pub fn slots(&self) -> (slots: &Vec<Slot>)
        ensures
            slots@ == self@.slots,
    {
        &self.slots
    }

    /// Number of bytes that the slot array takes on disk.
    pub fn slots_byte_length(&self) -> (n: i32)
        requires
            self.wf(),
        ensures
            n == self@.slots_size(),
    {
        (self.slots.len() * SLOT_SIZE) as i32
    }

    /// The record heap: the bytes of the data region from the data offset
    /// on. The record inserted last, where it took no deleted slot, comes
    /// first.
    pub fn row_data(&self) -> (heap: &[u8])
        requires
            self.wf(),
        ensures
            heap@ == self@.heap,
    {
        slice_subrange(self.data.as_slice(), self.data_offset as usize, self.data.len())
    }

    /// Number of bytes that the record heap takes.
    pub fn row_data_size(&self) -> (n: usize)
        requires
            self.wf(),
        ensures
            n == self@.row_data_size(),
    {
        self.data.len() - self.data_offset as usize
    }

    /// The length of the largest deleted slot.
    fn fragmented_free(&self) -> (n: usize)
        ensures
            n == largest_deleted(self.slots@),
    {
        let mut largest: u16 = 0;
        let mut i: usize = 0;
        while i < self.slots.len()
            invariant
                i <= self.slots@.len(),
                largest == largest_deleted(self.slots@.take(i as int)),
            decreases self.slots@.len() - i,
        {
            proof {
                lemma_largest_deleted_take(self.slots@, i as int);
            }
            if self.slots[i].deleted && self.slots[i].record_length > largest {
                largest = self.slots[i].record_length;
            }
            i = i + 1;
        }
        assert(self.slots@.take(i as int) =~= self.slots@);
        largest as usize
    }

    /// Number of bytes of the largest record that the page may take: the
    /// larger of the room in the free region, less one slot entry, and the
    /// largest deleted slot.
    pub fn space_remaining(&self) -> (n: usize)
        requires
            self.wf(),
        ensures
            n == self@.space_remaining(),
    {
        let gap: usize = self.data_offset as usize - self.slots.len() * SLOT_SIZE;
        let contiguous: usize = if gap >= SLOT_SIZE {
            gap - SLOT_SIZE
        } else {
            0
        };
        let fragmented: usize = self.fragmented_free();
        if contiguous >= fragmented {
            contiguous
        } else {
            fragmented
        }
    }

    /// The index of the first deleted slot of at least `len` bytes, or the
    /// number of slots where there is none.
    fn find_reusable(&self, len: usize) -> (k: usize)
        ensures
            k == first_reusable(self.slots@, len as int),
            is_first_reusable(self.slots@, len as int, k as int),
    {
        let mut i: usize = 0;
        while i < self.slots.len() && !reusable_slot(&self.slots[i], len)
            invariant
                i <= self.slots@.len(),
                forall|j: int| 0 <= j < i ==> !reusable(#[trigger] self.slots@[j], len as int),
            decreases self.slots@.len() - i,
        {
            i = i + 1;
        }
        proof {
            lemma_first_reusable_unique(self.slots@, len as int, i as int);
        }
        i
    }

    /// Whether the page takes `bytes` as a record: they are not more than a
    /// slot can describe, the record count can go up, and a deleted slot can
    /// hold them or the free region has room for them and for their slot.
    pub fn can_insert(&self, bytes: &[u8]) -> (b: bool)
        requires
            self.wf(),
        ensures
            b == self@.can_insert(bytes@.len() as int),
    {
        let len: usize = bytes.len();
        if len > MAX_ROW_LENGTH || self.number_of_records == 65535 {
            return false;
        }
        let k: usize = self.find_reusable(len);
        if k < self.slots.len() {
            return true;
        }
        let gap: usize = self.data_offset as usize - self.slots.len() * SLOT_SIZE;
        len + SLOT_SIZE <= gap
    }

    /// Stores `bytes` as a record: in the first deleted slot that is large
    /// enough, which then holds just these bytes, or else at the bottom of
    /// the record heap under a new slot. Refuses where `can_insert` says no,
    /// and leaves the page as it was.
    pub fn insert_record(&mut self, bytes: Vec<u8>) -> (r: Result<(), PageError>)
        requires
            old(self).wf(),
        ensures
            final(self).wf(),
            final(self).spec_layout() == old(self).spec_layout(),
            old(self)@.can_insert(bytes@.len() as int) ==> r is Ok && final(self)@ == old(
                self,
            )@.insert(bytes@) && final(self)@.number_of_records() == old(
                self,
            )@.number_of_records() + 1,
            !old(self)@.can_insert(bytes@.len() as int) ==> r == Err::<(), PageError>(
                PageError::InsertRowError,
            ) && final(self)@ == old(self)@,
    {
        if !self.can_insert(bytes.as_slice()) {
            return Err(PageError::InsertRowError);
        }
        let len: usize = bytes.len();
        let k: usize = self.find_reusable(len);
        proof {
            old(self)@.lemma_insert_valid(bytes@);
        }
        if k < self.slots.len() {
            let slot: Slot = self.slots[k];
            let revived = Slot {
                deleted: false,
                page_offset: slot.page_offset,
                record_length: len as u16,
            };
            assert(slot.end() <= old(self)@.data_size());
            copy_into(&mut self.data, slot.page_offset as usize, bytes.as_slice());
            self.slots.set(k, revived);
            self.number_of_records = self.number_of_records + 1;
            proof {
                lemma_count_live_update(old(self).slots@, k as int, revived);
                assert(self@.heap =~= old(self)@.reuse(k as int, bytes@).heap);
            }
        } else {
            let start: usize = self.data_offset as usize - len;
            let fresh = Slot {
                deleted: false,
                page_offset: start as u32,
                record_length: len as u16,
            };
            copy_into(&mut self.data, start, bytes.as_slice());
            self.slots.push(fresh);
            self.data_offset = start as u32;
            self.number_of_records = self.number_of_records + 1;
            proof {
                lemma_count_live_push(old(self).slots@, fresh);
                assert(self@.heap =~= old(self)@.append(bytes@).heap);
            }
        }
        Ok(())
    }

    /// Marks the record of slot `index` deleted, so that a later record may
    /// take its place. Says whether there was a live record to delete.
    pub fn delete_record(&mut self, index: usize) -> (deleted: bool)
        requires
            old(self).wf(),
        ensures
            final(self).wf(),
            final(self).spec_layout() == old(self).spec_layout(),
            deleted == old(self)@.is_live(index as int),
            deleted ==> final(self)@ == old(self)@.delete(index as int),
            deleted ==> final(self)@.number_of_records() + 1 == old(self)@.number_of_records(),
            !deleted ==> final(self)@ == old(self)@,
    {
        if index >= self.slots.len() || self.slots[index].deleted {
            return false;
        }
        let slot: Slot = self.slots[index];
        let gone = Slot {
            deleted: true,
            page_offset: slot.page_offset,
            record_length: slot.record_length,
        };
        proof {
            old(self)@.lemma_delete_valid(index as int);
            lemma_count_live_update(old(self).slots@, index as int, gone);
        }
        self.slots.set(index, gone);
        self.number_of_records = self.number_of_records - 1;
        true
    }

    /// The record of slot `index`, where that slot exists and is live.
    pub fn record(&self, index: usize) -> (r: Option<&[u8]>)
        requires
            self.wf(),
        ensures
            r is Some <==> self@.is_live(index as int),
            r is Some ==> r->Some_0@ == self@.record(index as int),
    {
        if index >= self.slots.len() || self.slots[index].deleted {
            return None;
        }
        let slot: Slot = self.slots[index];
        assert(slot.end() <= self@.data_size());
        let start: usize = slot.page_offset as usize;
        let end: usize = start + slot.record_length as usize;
        let bytes = slice_subrange(self.data.as_slice(), start, end);
        assert(bytes@ =~= self@.record(index as int));
        Some(bytes)
    }

    /// The page as it stands on disk: the header, the slot entries, zeros up
    /// to the record heap, and the record heap.
    pub fn serialize(&self) -> (out: Vec<u8>)
        requires
            self.wf(),
        ensures
            out@ == self@.to_bytes(),
    {
        let page_size: usize = self.layout.page_size();
        let slot_count: usize = self.slots.len();
        let mut out: Vec<u8> = Vec::with_capacity(page_size);
        push_u16(&mut out, self.number_of_records);
        push_u32(&mut out, self.data_offset);
        push_i32(&mut out, self.page_id);
        push_u32(&mut out, (slot_count * SLOT_SIZE) as u32);
        assert(out@ =~= self@.header());
        let mut i: usize = 0;
        while i < slot_count
            invariant
                self.wf(),
                slot_count == self.slots@.len(),
                i <= slot_count,
                out@.len() == PAGE_HEADER_SIZE + SLOT_SIZE * i,
                forall|k: int| 0 <= k < out@.len() ==> out@[k] == self@.byte_at(k),
            decreases slot_count - i,
        {
            let ghost before = out@;
            self.slots[i].write_to(&mut out);
            assert forall|k: int| 0 <= k < out@.len() implies out@[k] == self@.byte_at(k) by {
                if k >= before.len() {
                    let j = k - before.len();
                    assert(out@[k] == self.slots@[i as int].to_bytes()[j]);
                    assert(k - PAGE_HEADER_SIZE == SLOT_SIZE * i + j);
                    assert((k - PAGE_HEADER_SIZE) / (SLOT_SIZE as int) == i);
                    assert((k - PAGE_HEADER_SIZE) % (SLOT_SIZE as int) == j);
                } else {
                    assert(out@[k] == before[k]);
                }
            }
            i = i + 1;
        }
        let heap_start: usize = PAGE_HEADER_SIZE + self.data_offset as usize;
        while out.len() < heap_start
            invariant
                self.wf(),
                heap_start == PAGE_HEADER_SIZE + self.data_offset,
                PAGE_HEADER_SIZE + self@.slots_size() <= out@.len() <= heap_start,
                forall|k: int| 0 <= k < out@.len() ==> out@[k] == self@.byte_at(k),
            decreases heap_start - out@.len(),
        {
            out.push(0u8);
        }
        let ghost before = out@;
        out.extend_from_slice(self.row_data());
        assert(out@ =~= self@.to_bytes()) by {
            assert(out@.len() == self@.page_size);
            assert forall|k: int| 0 <= k < out@.len() implies out@[k] == self@.byte_at(k) by {
                if k < before.len() {
                    assert(out@[k] == before[k]);
                }
            }
        }
        out
    }

    /// The page that `bytes` stands for under `layout`. Refuses bytes that
    /// are no image of a page: of another length than the page size, with a
    /// slot array that is not made of whole entries or reaches into the record
    /// heap, with a slot that lies outside the heap or not below the slot
    /// before it, with a flag that is neither 0 nor 1, or with a record count
    /// that is not the number of live slots.
    pub fn deserialize(bytes: &[u8], layout: &'a PageDataLayout) -> (r: Result<Page<'a>, PageError>)
        ensures
            r is Ok <==> PageView::is_image(bytes@, layout.spec_page_size()),
            r is Ok ==> r->Ok_0.wf() && r->Ok_0@ == PageView::parse(
                bytes@,
                layout.spec_page_size(),
            ) && r->Ok_0.spec_layout() == *layout,
            r is Err ==> r->Err_0 == PageError::ReadPageError,
    {
        let page_size: usize = layout.page_size();
        if bytes.len() != page_size {
            return Err(PageError::ReadPageError);
        }
        let ghost parsed = PageView::parse(bytes@, page_size as int);
        let number_of_records: u16 = read_u16(bytes, 0);
        let data_offset: u32 = read_u32(bytes, 2);
        let page_id: i32 = read_i32(bytes, 6);
        let stated: i32 = read_i32(bytes, 10);
        proof {
            lemma_be32_round_trip(0, bytes@.subrange(6, 10));
            lemma_signed_round_trip(from_be32(bytes@.subrange(6, 10)));
        }
        if stated < 0 {
            return Err(PageError::ReadPageError);
        }
        let slots_size: usize = stated as usize;
        if slots_size % SLOT_SIZE != 0 || slots_size > data_offset as usize || data_offset as usize
            > page_size - PAGE_HEADER_SIZE {
            return Err(PageError::ReadPageError);
        }
        let slot_count: usize = slots_size / SLOT_SIZE;
        assert(parsed.slots.len() == slot_count);
        let data_size: usize = page_size - PAGE_HEADER_SIZE;
        let mut slots: Vec<Slot> = Vec::new();
        let mut live: usize = 0;
        let mut i: usize = 0;
        while i < slot_count
            invariant
                bytes@.len() == page_size,
                parsed == PageView::parse(bytes@, page_size as int),
                parsed.slots.len() == slot_count,
                parsed.data_offset == data_offset,
                data_size == page_size - PAGE_HEADER_SIZE,
                SLOT_SIZE * slot_count <= data_offset <= data_size,
                i <= slot_count,
                slots@ == parsed.slots.take(i as int),
                live == count_live(slots@),
                live <= i,
                forall|j: int|
                    0 <= j < i ==> Slot::is_entry(#[trigger] PageView::entry_at(bytes@, j)),
                forall|j: int|
                    0 <= j < i ==> data_offset <= (#[trigger] parsed.slots[j]).page_offset
                        && parsed.slots[j].end() <= data_size,
                forall|a: int, b: int|
                    0 <= a < b < i ==> (#[trigger] parsed.slots[b]).end() <= (
                    #[trigger] parsed.slots[a]).page_offset,
            decreases slot_count - i,
        {
            let at: usize = PAGE_HEADER_SIZE + SLOT_SIZE * i;
            assert(bytes@.subrange(at as int, at + 7) == PageView::entry_at(bytes@, i as int));
            let slot: Slot = match Slot::read_from(bytes, at) {
                Some(slot) => slot,
                None => {
                    return Err(PageError::ReadPageError);
                },
            };
            assert(slot == parsed.slots[i as int]);
            let end: u64 = slot.page_offset as u64 + slot.record_length as u64;
            if slot.page_offset < data_offset || end > data_size as u64 {
                return Err(PageError::ReadPageError);
            }
            if i > 0 && end > slots[i - 1].page_offset as u64 {
                assert(slots@[i - 1] == parsed.slots[i - 1]);
                return Err(PageError::ReadPageError);
            }
            proof {
                lemma_count_live_push(slots@, slot);
                assert(parsed.slots.take(i + 1) =~= slots@.push(slot));
                assert forall|a: int, b: int| 0 <= a < b < i + 1 implies (
                #[trigger] parsed.slots[b]).end() <= (#[trigger] parsed.slots[a]).page_offset by {
                    if b == i && a < i - 1 {
                        assert(slots@[i - 1] == parsed.slots[i - 1]);
                        assert(parsed.slots[i - 1].end() <= parsed.slots[a].page_offset);
                    } else if b == i {
                        assert(slots@[i - 1] == parsed.slots[i - 1]);
                    }
                }
            }
            if !slot.deleted {
                live = live + 1;
            }
            slots.push(slot);
            i = i + 1;
        }
        assert(slots@ =~= parsed.slots);
        if live != number_of_records as usize {
            return Err(PageError::ReadPageError);
        }
        let data: Vec<u8> = slice_to_vec(slice_subrange(bytes, PAGE_HEADER_SIZE, page_size));
        let page = Page { layout, number_of_records, data_offset, page_id, slots, data };
        assert(page@.heap =~= parsed.heap);
        assert(page@ == parsed);
        Ok(page)
    }
    /// An iterator over the rows of the page under `schema`.
    pub fn rows<'p>(&'p self, schema: &'p TableSchema) -> (it: PageRowIterator<'p>)
        requires
            self.wf(),
        ensures
            it.wf(),
            it.remaining() == self@.live_records(),
            it.types() == schema.types(),
    {
        PageRowIterator::new(self, schema)
    }

    /// An iterator over the live records, from the first slot on.
    pub fn record_iterator<'p>(&'p self) -> (it: RecordIterator<'p, 'a>)
        requires
            self.wf(),
        ensures
            it.wf(),
            it.page() == self@,
            it.position() == 0,
            it.remaining() == self@.live_records(),
    {
        RecordIterator { page: self, index: 0 }
    }
}

/// Walks the slots of a page in index order and yields the record of each
/// live one. The page cannot change while the iterator borrows it.
pub struct RecordIterator<'p, 'a> {
    page: &'p Page<'a>,
    index: usize,
}

impl<'p, 'a> RecordIterator<'p, 'a> {
    /// The page that is iterated.
    pub closed spec fn page(&self) -> PageView {
        self.page@
    }

    /// The index of the slot that is looked at next.
    pub closed spec fn position(&self) -> int {
        self.index as int
    }

    /// The invariant of the iterator.
    pub closed spec fn wf(&self) -> bool {
        self.page.wf() && self.index <= self.page.slots@.len()
    }

    /// The records that are still to come, each with the index of its slot.
    pub open spec fn remaining(&self) -> Seq<(int, Seq<u8>)> {
        self.page().records_between(self.position(), self.page().slots.len() as int)
    }

    /// The next live record and the index of its slot; `None` when no live
    /// record is left.
    pub fn next(&mut self) -> (r: Option<(usize, &'p [u8])>)
        requires
            old(self).wf(),
        ensures
            final(self).wf(),
            final(self).page() == old(self).page(),
            r is None <==> old(self).remaining().len() == 0,
            r is None ==> final(self).remaining().len() == 0,
            r is Some ==> old(self).remaining() == seq![(r->Some_0.0 as int, r->Some_0.1@)]
                + final(self).remaining() && final(self).position() == r->Some_0.0 + 1
                && old(self).position() <= r->Some_0.0,
    {
        let page: &'p Page<'a> = self.page;
        let count: usize = page.slots.len();
        while self.index < count && page.slots[self.index].deleted
            invariant
                page.wf(),
                self.page == page,
                count == page.slots@.len(),
                old(self).index <= self.index <= count,
                self.remaining() == old(self).remaining(),
            decreases count - self.index,
        {
            self.index = self.index + 1;
        }
        if self.index >= count {
            return None;
        }
        let at: usize = self.index;
        let record = page.record(at);
        assert(self.remaining() == seq![(at as int, page@.record(at as int))]
            + page@.records_between(at + 1, count as int));
        self.index = at + 1;
        match record {
            Some(bytes) => Some((at, bytes)),
            None => None,
        }
    }
}

} // verus!
