//! Facts about the page model that the operations on pages rest on.

use vstd::prelude::*;
use crate::data::bigendian::{
    be16,
    be32,
    lemma_be16_round_trip,
    lemma_be32_round_trip,
    lemma_signed_round_trip,
    unsigned32,
};
use crate::data::layout::{PAGE_HEADER_SIZE, SLOT_SIZE};
use crate::data::page_model::{
    count_live,
    first_reusable,
    is_first_reusable,
    largest_deleted,
    reusable,
    PageView,
};
use crate::data::slot::Slot;

verus! {

/// A slot more counts for one where it is live.
pub proof fn lemma_count_live_push(slots: Seq<Slot>, slot: Slot)
    ensures
        count_live(slots.push(slot)) == count_live(slots) + if slot.deleted {
            0nat
        } else {
            1nat
        },
{
    assert(slots.push(slot).drop_last() =~= slots);
}

/// Replacing a slot changes the count by what the two slots differ in.
pub proof fn lemma_count_live_update(slots: Seq<Slot>, i: int, slot: Slot)
    requires
        0 <= i < slots.len(),
    ensures
        count_live(slots.update(i, slot)) + (if slots[i].deleted {
            0nat
        } else {
            1nat
        }) == count_live(slots) + (if slot.deleted {
            0nat
        } else {
            1nat
        }),
    decreases slots.len(),
{
    let after = slots.update(i, slot);
    if i == slots.len() - 1 {
        assert(after.drop_last() =~= slots.drop_last());
    } else {
        lemma_count_live_update(slots.drop_last(), i, slot);
        assert(after.drop_last() =~= slots.drop_last().update(i, slot));
    }
}

/// The largest deleted length of a prefix, grown by the slot that follows it.
pub proof fn lemma_largest_deleted_take(slots: Seq<Slot>, i: int)
    requires
        0 <= i < slots.len(),
    ensures
        largest_deleted(slots.take(i + 1)) == if slots[i].deleted && slots[i].record_length
            > largest_deleted(slots.take(i)) {
            slots[i].record_length as int
        } else {
            largest_deleted(slots.take(i))
        },
{
    assert(slots.take(i + 1).drop_last() =~= slots.take(i));
}

/// The largest deleted length bounds every deleted slot, and some deleted
/// slot has it unless it is 0.
pub proof fn lemma_largest_deleted(slots: Seq<Slot>)
    ensures
        0 <= largest_deleted(slots) <= 65535,
        forall|i: int|
            0 <= i < slots.len() && (#[trigger] slots[i]).deleted ==> slots[i].record_length
                <= largest_deleted(slots),
        largest_deleted(slots) > 0 ==> exists|i: int|
            0 <= i < slots.len() && (#[trigger] slots[i]).deleted && slots[i].record_length
                == largest_deleted(slots),
    decreases slots.len(),
{
    if slots.len() > 0 {
        let rest = slots.drop_last();
        lemma_largest_deleted(rest);
        assert forall|i: int|
            0 <= i < slots.len() && (#[trigger] slots[i]).deleted implies slots[i].record_length
            <= largest_deleted(slots) by {
            if i < slots.len() - 1 {
                assert(rest[i] == slots[i]);
            }
        }
        if largest_deleted(slots) > 0 {
            if slots.last().deleted && slots.last().record_length > largest_deleted(rest) {
                assert(slots[slots.len() - 1].deleted);
            } else {
                let i = choose|i: int|
                    0 <= i < rest.len() && (#[trigger] rest[i]).deleted && rest[i].record_length
                        == largest_deleted(rest);
                assert(slots[i] == rest[i]);
            }
        }
    }
}

/// There is a first reusable slot or none, and `first_reusable` names it.
pub proof fn lemma_first_reusable(slots: Seq<Slot>, len: int)
    ensures
        is_first_reusable(slots, len, first_reusable(slots, len)),
    decreases slots.len(),
{
    if slots.len() == 0 {
        assert(is_first_reusable(slots, len, 0));
    } else {
        let rest = slots.drop_last();
        lemma_first_reusable(rest, len);
        let k = first_reusable(rest, len);
        assert forall|j: int| 0 <= j < k implies !reusable(#[trigger] slots[j], len) by {
            assert(rest[j] == slots[j]);
        }
        if k < rest.len() {
            assert(rest[k] == slots[k]);
            assert(is_first_reusable(slots, len, k));
        } else if reusable(slots.last(), len) {
            assert(is_first_reusable(slots, len, slots.len() - 1));
        } else {
            assert(is_first_reusable(slots, len, slots.len() as int));
        }
    }
}

/// Only one index is that of the first reusable slot.
pub proof fn lemma_first_reusable_unique(slots: Seq<Slot>, len: int, k: int)
    requires
        is_first_reusable(slots, len, k),
    ensures
        k == first_reusable(slots, len),
{
    lemma_first_reusable(slots, len);
    let f = first_reusable(slots, len);
    if k < f {
        assert(!reusable(slots[k], len));
    } else if f < k {
        assert(!reusable(slots[f], len));
    }
}

/// A record that is not empty can reuse a slot just when it is no longer
/// than the largest deleted slot.
pub proof fn lemma_reusable_by_length(slots: Seq<Slot>, len: int)
    requires
        len > 0,
    ensures
        first_reusable(slots, len) < slots.len() <==> len <= largest_deleted(slots),
{
    lemma_first_reusable(slots, len);
    lemma_largest_deleted(slots);
    let f = first_reusable(slots, len);
    if len <= largest_deleted(slots) {
        let i = choose|i: int|
            0 <= i < slots.len() && (#[trigger] slots[i]).deleted && slots[i].record_length
                == largest_deleted(slots);
        assert(reusable(slots[i], len));
    }
}

impl PageView {
    /// What the invariant says of two slots: they share no byte.
    pub proof fn lemma_slots_disjoint(self, i: int, j: int)
        requires
            self.valid(),
            0 <= i < self.slots.len(),
            0 <= j < self.slots.len(),
            i != j,
        ensures
            self.slots[i].end() <= self.slots[j].page_offset || self.slots[j].end()
                <= self.slots[i].page_offset,
    {
    }

    /// The empty page is valid.
    pub proof fn lemma_empty_valid(page_size: int)
        requires
            crate::data::layout::valid_page_size(page_size),
        ensures
            PageView::empty(page_size).valid(),
            PageView::empty(page_size).number_of_records() == 0,
    {
    }

    /// Inserting keeps a page valid. In particular no two slots overlap after
    /// any number of insertions.
    pub proof fn lemma_insert_valid(self, r: Seq<u8>)
        requires
            self.valid(),
            self.can_insert(r.len() as int),
        ensures
            self.insert(r).valid(),
            self.insert(r).number_of_records() == self.number_of_records() + 1,
            self.insert(r).page_id == self.page_id,
            self.insert(r).page_size == self.page_size,
    {
        let len = r.len() as int;
        lemma_first_reusable(self.slots, len);
        let k = first_reusable(self.slots, len);
        let after = self.insert(r);
        if k < self.slots.len() {
            lemma_count_live_update(self.slots, k, after.slots[k]);
            assert forall|i: int| 0 <= i < after.slots.len() implies self.data_offset <= (
            #[trigger] after.slots[i]).page_offset && after.slots[i].end()
                <= self.data_size() by {
                assert(self.slots[i].end() <= self.data_size());
            }
            assert forall|i: int, j: int| 0 <= i < j < after.slots.len() implies (
            #[trigger] after.slots[j]).end() <= (#[trigger] after.slots[i]).page_offset by {
                assert(self.slots[j].end() <= self.slots[i].page_offset);
            }
        } else {
            lemma_count_live_push(self.slots, after.slots.last());
            assert forall|i: int| 0 <= i < after.slots.len() implies after.data_offset <= (
            #[trigger] after.slots[i]).page_offset && after.slots[i].end()
                <= after.data_size() by {
                if i < self.slots.len() {
                    assert(self.slots[i].end() <= self.data_size());
                }
            }
            assert forall|i: int, j: int| 0 <= i < j < after.slots.len() implies (
            #[trigger] after.slots[j]).end() <= (#[trigger] after.slots[i]).page_offset by {
                if j < self.slots.len() {
                    assert(self.slots[j].end() <= self.slots[i].page_offset);
                } else {
                    assert(self.data_offset <= self.slots[i].page_offset);
                }
            }
        }
    }

    /// After any sequence of insertions, no two slots of a page overlap. This
    /// holds of the live slots in particular, whatever was deleted and reused
    /// on the way.
    pub proof fn lemma_offer_all_valid(self, records: Seq<Seq<u8>>, i: int, j: int)
        requires
            self.valid(),
        ensures
            self.offer_all(records).valid(),
            0 <= i < self.offer_all(records).slots.len() && 0 <= j < self.offer_all(
                records,
            ).slots.len() && i != j ==> self.offer_all(records).slots[i].end() <= self.offer_all(
                records,
            ).slots[j].page_offset || self.offer_all(records).slots[j].end() <= self.offer_all(
                records,
            ).slots[i].page_offset,
        decreases records.len(),
    {
        if records.len() > 0 {
            let before = self.offer_all(records.drop_last());
            self.lemma_offer_all_valid(records.drop_last(), i, j);
            if before.can_insert(records.last().len() as int) {
                before.lemma_insert_valid(records.last());
            }
        }
    }

    /// Deleting a live record keeps a page valid and takes one off the count.
    pub proof fn lemma_delete_valid(self, i: int)
        requires
            self.valid(),
            self.is_live(i),
        ensures
            self.delete(i).valid(),
            self.delete(i).number_of_records() + 1 == self.number_of_records(),
    {
        let after = self.delete(i);
        lemma_count_live_update(self.slots, i, after.slots[i]);
        assert forall|k: int| 0 <= k < after.slots.len() implies self.data_offset <= (
        #[trigger] after.slots[k]).page_offset && after.slots[k].end() <= self.data_size() by {
            assert(self.slots[k].end() <= self.data_size());
        }
        assert forall|a: int, b: int| 0 <= a < b < after.slots.len() implies (
        #[trigger] after.slots[b]).end() <= (#[trigger] after.slots[a]).page_offset by {
            assert(self.slots[b].end() <= self.slots[a].page_offset);
        }
    }
    /// The records of a range of slots are those of its two parts, one after
    /// the other.
    pub proof fn lemma_records_split(self, lo: int, mid: int, hi: int)
        requires
            lo <= mid <= hi,
        ensures
            self.records_between(lo, hi) == self.records_between(lo, mid) + self.records_between(
                mid,
                hi,
            ),
        decreases mid - lo,
    {
        if lo < mid {
            self.lemma_records_split(lo + 1, mid, hi);
            if self.slots[lo].deleted {
            } else {
                assert(self.records_between(lo, hi) =~= self.records_between(lo, mid)
                    + self.records_between(mid, hi));
            }
        } else {
            assert(self.records_between(lo, hi) =~= self.records_between(lo, mid)
                + self.records_between(mid, hi));
        }
    }

    /// Two pages whose slots of a range agree in liveness and in the bytes of
    /// their records have the same records there.
    pub proof fn lemma_records_agree(self, other: PageView, lo: int, hi: int)
        requires
            forall|i: int|
                lo <= i < hi ==> (#[trigger] self.slots[i]).deleted == other.slots[i].deleted,
            forall|i: int|
                lo <= i < hi && !self.slots[i].deleted ==> #[trigger] self.record(i)
                    == other.record(i),
        ensures
            self.records_between(lo, hi) == other.records_between(lo, hi),
        decreases hi - lo,
    {
        if lo < hi {
            self.lemma_records_agree(other, lo + 1, hi);
            assert(self.slots[lo].deleted == other.slots[lo].deleted);
            if !self.slots[lo].deleted {
                assert(self.record(lo) == other.record(lo));
            }
        }
    }

    /// What iterating finds after an insertion. Where the record went under a
    /// new slot, the records are the old ones and then the new one, so it is
    /// the last that the iteration yields. Where it went into a deleted slot,
    /// it is found at that slot's index, between the records that were there:
    /// every other record is what it was.
    pub proof fn lemma_insert_records(self, r: Seq<u8>)
        requires
            self.valid(),
            self.can_insert(r.len() as int),
        ensures
            ({
                let k = first_reusable(self.slots, r.len() as int);
                let n = self.slots.len() as int;
                let after = self.insert(r);
                &&& 0 <= k <= n
                &&& after.is_live(k)
                &&& after.record(k) == r
                &&& k == n ==> after.live_records() == self.live_records().push((n, r))
                &&& k < n ==> self.slots[k].deleted && after.slots.len() == n
                    && after.slots[k].page_offset == self.slots[k].page_offset
                    && after.live_records() == self.records_between(0, k) + seq![(k, r)]
                    + self.records_between(k + 1, n)
                &&& forall|j: int|
                    0 <= j < n && j != k ==> after.slots[j] == self.slots[j]
                        && #[trigger] after.record(j) == self.record(j)
            }),
    {
        let len = r.len() as int;
        lemma_first_reusable(self.slots, len);
        let k = first_reusable(self.slots, len);
        let n = self.slots.len() as int;
        let after = self.insert(r);
        self.lemma_insert_valid(r);
        if k < n {
            let at = self.slots[k].page_offset - self.data_offset;
            assert(self.slots[k].end() <= self.data_size());
            assert(after.record(k) =~= r);
            assert forall|j: int| 0 <= j < n && j != k implies after.slots[j] == self.slots[j]
                && #[trigger] after.record(j) == self.record(j) by {
                self.lemma_slots_disjoint(j, k);
                assert(self.slots[j].end() <= self.data_size());
                assert(after.record(j) =~= self.record(j));
            }
            after.lemma_records_split(0, k, n);
            after.lemma_records_split(k, k + 1, n);
            after.lemma_records_agree(self, 0, k);
            after.lemma_records_agree(self, k + 1, n);
            assert(after.records_between(k + 1, k + 1) =~= Seq::<(int, Seq<u8>)>::empty());
            assert(after.records_between(k, k + 1) =~= seq![(k, r)]);
        } else {
            assert(after.record(n) =~= r);
            assert forall|j: int| 0 <= j < n implies after.slots[j] == self.slots[j]
                && #[trigger] after.record(j) == self.record(j) by {
                assert(self.slots[j].end() <= self.data_size());
                assert(after.record(j) =~= self.record(j));
            }
            after.lemma_records_split(0, n, n + 1);
            after.lemma_records_agree(self, 0, n);
            assert(after.records_between(n + 1, n + 1) =~= Seq::<(int, Seq<u8>)>::empty());
            assert(after.records_between(n, n + 1) =~= seq![(n, r)]);
            assert(seq![(n, r)] =~= Seq::<(int, Seq<u8>)>::empty().push((n, r)));
            assert(self.live_records() + seq![(n, r)] =~= self.live_records().push((n, r)));
        }
    }

    /// What iterating finds after a deletion: the records that were there,
    /// without that of the deleted slot.
    pub proof fn lemma_delete_records(self, i: int)
        requires
            self.valid(),
            self.is_live(i),
        ensures
            self.delete(i).live_records() == self.records_between(0, i) + self.records_between(
                i + 1,
                self.slots.len() as int,
            ),
            self.live_records() == self.records_between(0, i) + seq![(i, self.record(i))]
                + self.records_between(i + 1, self.slots.len() as int),
    {
        let n = self.slots.len() as int;
        let after = self.delete(i);
        after.lemma_records_split(0, i, n);
        after.lemma_records_split(i, i + 1, n);
        self.lemma_records_split(0, i, n);
        self.lemma_records_split(i, i + 1, n);
        after.lemma_records_agree(self, 0, i);
        after.lemma_records_agree(self, i + 1, n);
        assert(after.records_between(i + 1, i + 1) =~= Seq::<(int, Seq<u8>)>::empty());
        assert(self.records_between(i + 1, i + 1) =~= Seq::<(int, Seq<u8>)>::empty());
        assert(after.records_between(i, i + 1) =~= Seq::<(int, Seq<u8>)>::empty());
        assert(self.records_between(i, i + 1) =~= seq![(i, self.record(i))]);
        assert(after.live_records() =~= self.records_between(0, i) + self.records_between(
            i + 1,
            n,
        ));
    }

    /// How `can_insert` and `space_remaining` go together. A page takes no
    /// record that is longer than the space that remains, and it takes every
    /// record that is not empty, no longer than that space and than a slot
    /// can describe, as long as the record count can go up. An empty record
    /// needs a deleted slot or room for a slot entry.
    pub proof fn lemma_can_insert_space(self, len: int)
        requires
            self.valid(),
            0 <= len,
        ensures
            self.can_insert(len) ==> len <= self.space_remaining(),
            0 < len <= self.space_remaining() && len <= 65535 && self.number_of_records() < 65535
                ==> self.can_insert(len),
    {
        lemma_first_reusable(self.slots, len);
        lemma_largest_deleted(self.slots);
        if len > 0 {
            lemma_reusable_by_length(self.slots, len);
        }
    }

    /// Where the four fields of the header stand in the image of a page.
    proof fn lemma_image_header(self)
        requires
            self.valid(),
        ensures
            self.to_bytes().subrange(0, 2) == be16(self.number_of_records() as int),
            self.to_bytes().subrange(2, 6) == be32(self.data_offset),
            self.to_bytes().subrange(6, 10) == be32(unsigned32(self.page_id)),
            self.to_bytes().subrange(10, 14) == be32(self.slots_size()),
    {
        let b = self.to_bytes();
        let h = self.header();
        assert(h.len() == 14);
        assert(b.subrange(0, 14) =~= h);
        assert(h.subrange(0, 2) =~= be16(self.number_of_records() as int));
        assert(h.subrange(2, 6) =~= be32(self.data_offset));
        assert(h.subrange(6, 10) =~= be32(unsigned32(self.page_id)));
        assert(h.subrange(10, 14) =~= be32(self.slots_size()));
        assert(b.subrange(0, 2) =~= b.subrange(0, 14).subrange(0, 2));
        assert(b.subrange(2, 6) =~= b.subrange(0, 14).subrange(2, 6));
        assert(b.subrange(6, 10) =~= b.subrange(0, 14).subrange(6, 10));
        assert(b.subrange(10, 14) =~= b.subrange(0, 14).subrange(10, 14));
    }

    /// Where the entry of slot `i` stands in the image of a page.
    proof fn lemma_image_entry(self, i: int)
        requires
            self.valid(),
            0 <= i < self.slots.len(),
        ensures
            PageView::entry_at(self.to_bytes(), i) == self.slots[i].to_bytes(),
    {
        let b = self.to_bytes();
        let e = PageView::entry_at(b, i);
        assert(e.len() == 7);
        assert forall|j: int| 0 <= j < 7 implies e[j] == self.slots[i].to_bytes()[j] by {
            let k = PAGE_HEADER_SIZE + SLOT_SIZE * i + j;
            assert(e[j] == b[k]);
            assert((k - PAGE_HEADER_SIZE) / (SLOT_SIZE as int) == i);
            assert((k - PAGE_HEADER_SIZE) % (SLOT_SIZE as int) == j);
        }
        assert(e =~= self.slots[i].to_bytes());
    }

    /// The fields that the image of a valid page spells out are its own.
    proof fn lemma_image_fields(self)
        requires
            self.valid(),
        ensures
            PageView::stated_slots_size(self.to_bytes()) == self.slots_size(),
            PageView::parse(self.to_bytes(), self.page_size).data_offset == self.data_offset,
            PageView::parse(self.to_bytes(), self.page_size).page_id == self.page_id,
            PageView::parse(self.to_bytes(), self.page_size).page_size == self.page_size,
            PageView::parse(self.to_bytes(), self.page_size).slots.len() == self.slots.len(),
            crate::data::bigendian::from_be16(self.to_bytes().subrange(0, 2))
                == self.number_of_records(),
    {
        let b = self.to_bytes();
        self.lemma_image_header();
        lemma_be16_round_trip(self.number_of_records() as int, b.subrange(0, 2));
        lemma_be32_round_trip(self.data_offset, b.subrange(2, 6));
        lemma_be32_round_trip(unsigned32(self.page_id), b.subrange(6, 10));
        lemma_be32_round_trip(self.slots_size(), b.subrange(10, 14));
        lemma_signed_round_trip(self.page_id);
        lemma_signed_round_trip(self.slots_size());
    }

    /// The image of a valid page is an image, and it spells out that page.
    pub proof fn lemma_image_round_trip(self)
        requires
            self.valid(),
        ensures
            PageView::is_image(self.to_bytes(), self.page_size),
            PageView::parse(self.to_bytes(), self.page_size) == self,
    {
        let b = self.to_bytes();
        let n = self.slots.len() as int;
        let parsed = PageView::parse(b, self.page_size);
        self.lemma_image_fields();
        assert forall|i: int| 0 <= i < n implies parsed.slots[i] == self.slots[i]
            && Slot::is_entry(#[trigger] PageView::entry_at(b, i)) by {
            self.lemma_image_entry(i);
            self.slots[i].lemma_round_trip(self.slots[i].to_bytes());
        }
        assert(parsed.slots =~= self.slots);
        assert(parsed.heap =~= self.heap);
        assert(parsed == self);
    }

    /// Writing a page, reading it back and writing it again gives the same
    /// bytes as writing it once.
    pub proof fn lemma_serialize_round_trip(self)
        requires
            self.valid(),
        ensures
            PageView::is_image(self.to_bytes(), self.page_size),
            PageView::parse(self.to_bytes(), self.page_size).to_bytes() == self.to_bytes(),
    {
        self.lemma_image_round_trip();
    }
}

} // verus!
