//! The mathematical model of a slotted page: what a page is, what inserting
//! and deleting do to it, and which bytes stand for it on disk.

use vstd::prelude::*;
use crate::data::bigendian::{be16, be32, from_be16, from_be32, signed32, unsigned32};
use crate::data::layout::{valid_page_size, MAX_ROW_LENGTH, PAGE_HEADER_SIZE, SLOT_SIZE};
use crate::data::slot::Slot;

verus! {

/// Number of slots of `slots` that hold a live record.
pub open spec fn count_live(slots: Seq<Slot>) -> nat
    decreases slots.len(),
{
    if slots.len() == 0 {
        0
    } else {
        count_live(slots.drop_last()) + if slots.last().deleted {
            0nat
        } else {
            1nat
        }
    }
}

/// The largest record length among the deleted slots of `slots`; 0 if none
/// is deleted.
pub open spec fn largest_deleted(slots: Seq<Slot>) -> int
    decreases slots.len(),
{
    if slots.len() == 0 {
        0
    } else {
        let rest = largest_deleted(slots.drop_last());
        if slots.last().deleted && slots.last().record_length > rest {
            slots.last().record_length as int
        } else {
            rest
        }
    }
}

/// Whether a record of `len` bytes can take the place of `slot`.
pub open spec fn reusable(slot: Slot, len: int) -> bool {
    slot.deleted && slot.record_length >= len
}

/// Whether `k` is the index of the first slot that a record of `len` bytes
/// can reuse, or the number of slots where there is none.
pub open spec fn is_first_reusable(slots: Seq<Slot>, len: int, k: int) -> bool {
    &&& 0 <= k <= slots.len()
    &&& k < slots.len() ==> reusable(slots[k], len)
    &&& forall|j: int| 0 <= j < k ==> !reusable(#[trigger] slots[j], len)
}

/// The index of the first slot that a record of `len` bytes can reuse, or the
/// number of slots where there is none.
pub open spec fn first_reusable(slots: Seq<Slot>, len: int) -> int {
    choose|k: int| is_first_reusable(slots, len, k)
}

/// A page as a mathematical value. `heap` holds the bytes of the data region
/// from `data_offset` to its end: the record heap. What lies below it in the
/// data region is no part of the page's value.
pub struct PageView {
    pub page_size: int,
    pub page_id: int,
    pub data_offset: int,
    pub slots: Seq<Slot>,
    pub heap: Seq<u8>,
}

impl PageView {
    /// The page without records for pages of `page_size` bytes.
    pub open spec fn empty(page_size: int) -> PageView {
        PageView {
            page_size,
            page_id: 0,
            data_offset: page_size - PAGE_HEADER_SIZE,
            slots: Seq::empty(),
            heap: Seq::empty(),
        }
    }

    /// Size of the data region.
    pub open spec fn data_size(self) -> int {
        self.page_size - PAGE_HEADER_SIZE
    }

    /// Number of bytes that the slot array takes at the start of the data
    /// region.
    pub open spec fn slots_size(self) -> int {
        SLOT_SIZE * self.slots.len()
    }

    /// Number of live records.
    pub open spec fn number_of_records(self) -> nat {
        count_live(self.slots)
    }

    /// Number of bytes that the record heap takes.
    pub open spec fn row_data_size(self) -> int {
        self.data_size() - self.data_offset
    }

    /// The invariant of a page. The slot array and the record heap share the
    /// data region without meeting; every slot lies within the heap; and the
    /// slots lie in the heap as they were made, a later one below an earlier
    /// one, so that no two of them overlap.
    pub open spec fn valid(self) -> bool {
        &&& valid_page_size(self.page_size)
        &&& -2147483648 <= self.page_id < 2147483648
        &&& self.slots_size() <= self.data_offset <= self.data_size()
        &&& self.heap.len() == self.data_size() - self.data_offset
        &&& forall|i: int|
            0 <= i < self.slots.len() ==> self.data_offset <= (#[trigger] self.slots[i]).page_offset
                && self.slots[i].end() <= self.data_size()
        &&& forall|i: int, j: int|
            0 <= i < j < self.slots.len() ==> (#[trigger] self.slots[j]).end() <= (
            #[trigger] self.slots[i]).page_offset
        &&& count_live(self.slots) <= 65535
    }

    /// The bytes of the record of slot `i`.
    pub open spec fn record(self, i: int) -> Seq<u8> {
        self.heap.subrange(
            self.slots[i].page_offset - self.data_offset,
            self.slots[i].end() - self.data_offset,
        )
    }

    /// The live records of the slots from `lo` up to `hi`, each with the index
    /// of its slot, in slot order.
    pub open spec fn records_between(self, lo: int, hi: int) -> Seq<(int, Seq<u8>)>
        decreases hi - lo,
    {
        if lo >= hi {
            Seq::empty()
        } else if self.slots[lo].deleted {
            self.records_between(lo + 1, hi)
        } else {
            seq![(lo, self.record(lo))] + self.records_between(lo + 1, hi)
        }
    }

    /// The live records of the page, each with the index of its slot, in slot
    /// order.
    pub open spec fn live_records(self) -> Seq<(int, Seq<u8>)> {
        self.records_between(0, self.slots.len() as int)
    }

    /// Room between the slot array and the record heap for a record that
    /// needs a new slot: the slot's own entry is taken off.
    pub open spec fn contiguous_free(self) -> int {
        if self.data_offset - self.slots_size() >= SLOT_SIZE {
            self.data_offset - self.slots_size() - SLOT_SIZE
        } else {
            0
        }
    }

    /// Room in the largest deleted slot.
    pub open spec fn fragmented_free(self) -> int {
        largest_deleted(self.slots)
    }

    /// The larger of the two kinds of room.
    pub open spec fn space_remaining(self) -> int {
        if self.contiguous_free() >= self.fragmented_free() {
            self.contiguous_free()
        } else {
            self.fragmented_free()
        }
    }

    /// Whether a record of `len` bytes needs and finds room for a new slot.
    pub open spec fn fits_new_slot(self, len: int) -> bool {
        len + SLOT_SIZE <= self.data_offset - self.slots_size()
    }

    /// Whether the page takes a record of `len` bytes: a slot can describe
    /// it, the record count can go up, and a deleted slot can hold it or the
    /// free region has room for it and for its slot.
    pub open spec fn can_insert(self, len: int) -> bool {
        &&& len <= MAX_ROW_LENGTH
        &&& count_live(self.slots) < 65535
        &&& (first_reusable(self.slots, len) < self.slots.len() || self.fits_new_slot(len))
    }

    /// The page after `r` went into the deleted slot `k`: the slot is live
    /// again, holds just `r`, and starts where it did.
    pub open spec fn reuse(self, k: int, r: Seq<u8>) -> PageView {
        let at = self.slots[k].page_offset - self.data_offset;
        PageView {
            slots: self.slots.update(
                k,
                Slot {
                    deleted: false,
                    page_offset: self.slots[k].page_offset,
                    record_length: r.len() as u16,
                },
            ),
            heap: self.heap.subrange(0, at) + r + self.heap.subrange(
                at + r.len(),
                self.heap.len() as int,
            ),
            ..self
        }
    }

    /// The page after `r` went to the bottom of the heap, under a new slot.
    pub open spec fn append(self, r: Seq<u8>) -> PageView {
        PageView {
            data_offset: self.data_offset - r.len(),
            slots: self.slots.push(
                Slot {
                    deleted: false,
                    page_offset: (self.data_offset - r.len()) as u32,
                    record_length: r.len() as u16,
                },
            ),
            heap: r + self.heap,
            ..self
        }
    }

    /// The page after the insertion of `r`: into the first deleted slot that
    /// is large enough, else under a new slot.
    pub open spec fn insert(self, r: Seq<u8>) -> PageView {
        let k = first_reusable(self.slots, r.len() as int);
        if k < self.slots.len() {
            self.reuse(k, r)
        } else {
            self.append(r)
        }
    }

    /// The page after `insert_record` was called with `r`: it holds `r` where
    /// it could take it, and is as it was where it could not.
    pub open spec fn offer(self, r: Seq<u8>) -> PageView {
        if self.can_insert(r.len() as int) {
            self.insert(r)
        } else {
            self
        }
    }

    /// The page after `insert_record` was called with each of `records` in
    /// turn.
    pub open spec fn offer_all(self, records: Seq<Seq<u8>>) -> PageView
        decreases records.len(),
    {
        if records.len() == 0 {
            self
        } else {
            self.offer_all(records.drop_last()).offer(records.last())
        }
    }

    /// Whether slot `i` exists and holds a live record.
    pub open spec fn is_live(self, i: int) -> bool {
        0 <= i < self.slots.len() && !self.slots[i].deleted
    }

    /// The page after slot `i` was marked deleted. The slot keeps its place
    /// and its length, for a later record to reuse.
    pub open spec fn delete(self, i: int) -> PageView {
        PageView {
            slots: self.slots.update(i, Slot { deleted: true, ..self.slots[i] }),
            ..self
        }
    }

    /// The same page under another id.
    pub open spec fn with_page_id(self, page_id: int) -> PageView {
        PageView { page_id, ..self }
    }

    /// The fourteen bytes of the page header.
    pub open spec fn header(self) -> Seq<u8> {
        be16(self.number_of_records() as int) + be32(self.data_offset) + be32(
            unsigned32(self.page_id),
        ) + be32(self.slots_size())
    }

    /// The byte at offset `k` of the page on disk: header, slot array, zeros
    /// up to the record heap, record heap.
    pub open spec fn byte_at(self, k: int) -> u8 {
        if k < PAGE_HEADER_SIZE {
            self.header()[k]
        } else if k < PAGE_HEADER_SIZE + self.slots_size() {
            self.slots[(k - PAGE_HEADER_SIZE) / (SLOT_SIZE as int)].to_bytes()[(k
                - PAGE_HEADER_SIZE) % (SLOT_SIZE as int)]
        } else if k < PAGE_HEADER_SIZE + self.data_offset {
            0u8
        } else {
            self.heap[k - PAGE_HEADER_SIZE - self.data_offset]
        }
    }

    /// The page on disk.
    pub open spec fn to_bytes(self) -> Seq<u8> {
        Seq::new(self.page_size as nat, |k: int| self.byte_at(k))
    }

    /// The seven bytes of the `i`-th slot entry of the page image `bytes`.
    pub open spec fn entry_at(bytes: Seq<u8>, i: int) -> Seq<u8> {
        bytes.subrange(
            PAGE_HEADER_SIZE + SLOT_SIZE * i,
            PAGE_HEADER_SIZE + SLOT_SIZE * i + SLOT_SIZE,
        )
    }

    /// The byte length of the slot array that the header of `bytes` states.
    pub open spec fn stated_slots_size(bytes: Seq<u8>) -> int {
        signed32(from_be32(bytes.subrange(10, 14)))
    }

    /// The page that the fields of the image `bytes` spell out.
    pub open spec fn parse(bytes: Seq<u8>, page_size: int) -> PageView {
        let data_offset = from_be32(bytes.subrange(2, 6));
        PageView {
            page_size,
            page_id: signed32(from_be32(bytes.subrange(6, 10))),
            data_offset,
            slots: Seq::new(
                (Self::stated_slots_size(bytes) / (SLOT_SIZE as int)) as nat,
                |i: int| Slot::from_bytes(Self::entry_at(bytes, i)),
            ),
            heap: bytes.subrange(PAGE_HEADER_SIZE + data_offset, page_size),
        }
    }

    /// Whether `bytes` is the image of a page of `page_size` bytes: of the
    /// right length, with a slot array of whole entries that fits below the
    /// record heap, flags of 0 or 1, a record count that is the number of live
    /// slots, and fields that make a valid page. The bytes between the slot
    /// array and the record heap are free.
    pub open spec fn is_image(bytes: Seq<u8>, page_size: int) -> bool {
        let stated = Self::stated_slots_size(bytes);
        let page = Self::parse(bytes, page_size);
        &&& valid_page_size(page_size)
        &&& bytes.len() == page_size
        &&& 0 <= stated <= page.data_offset <= page_size - PAGE_HEADER_SIZE
        &&& stated % (SLOT_SIZE as int) == 0
        &&& forall|i: int|
            0 <= i < page.slots.len() ==> Slot::is_entry(#[trigger] Self::entry_at(bytes, i))
        &&& page.valid()
        &&& from_be16(bytes.subrange(0, 2)) == page.number_of_records()
    }
}

} // verus!
