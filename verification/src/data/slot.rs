//! Slot entries: the seven-byte descriptors that locate the records of a page.

use vstd::prelude::*;
use crate::data::bigendian::{
    be16,
    be32,
    from_be16,
    from_be32,
    lemma_be16_round_trip,
    lemma_be32_round_trip,
    push_u16,
    push_u32,
    read_u16,
    read_u32,
};

verus! {

/// Locates one record within the data region of a page. `record_length` is
/// what the slot holds now; `page_offset` is where its bytes start.
#[derive(Debug, Clone, Copy, PartialEq, Eq, Structural)]
pub struct Slot {
    pub deleted: bool,
    pub page_offset: u32,
    pub record_length: u16,
}

impl Slot {
    /// The offset just behind the record's last byte.
    pub open spec fn end(self) -> int {
        self.page_offset + self.record_length
    }

    /// The seven bytes of the entry: flag, offset, length.
    pub open spec fn to_bytes(self) -> Seq<u8> {
        seq![if self.deleted { 1u8 } else { 0u8 }] + be32(self.page_offset as int) + be16(
            self.record_length as int,
        )
    }

    /// Whether `b` is an entry: seven bytes that start with a flag of 0 or 1.
    pub open spec fn is_entry(b: Seq<u8>) -> bool {
        b.len() == 7 && b[0] <= 1
    }

    /// The slot that the entry `b` describes.
    pub open spec fn from_bytes(b: Seq<u8>) -> Slot {
        Slot {
            deleted: b[0] == 1,
            page_offset: from_be32(b.subrange(1, 5)) as u32,
            record_length: from_be16(b.subrange(5, 7)) as u16,
        }
    }

    /// An entry read back is the slot that was written, and an entry written
    /// back is the entry that was read.
    pub proof fn lemma_round_trip(self, b: Seq<u8>)
        ensures
            Slot::is_entry(self.to_bytes()),
            Slot::from_bytes(self.to_bytes()) == self,
            Slot::is_entry(b) ==> Slot::from_bytes(b).to_bytes() =~= b,
    {
        let image = self.to_bytes();
        lemma_be32_round_trip(self.page_offset as int, image.subrange(1, 5));
        lemma_be16_round_trip(self.record_length as int, image.subrange(5, 7));
        assert(image.subrange(1, 5) =~= be32(self.page_offset as int));
        assert(image.subrange(5, 7) =~= be16(self.record_length as int));
        if Slot::is_entry(b) {
            lemma_be32_round_trip(0, b.subrange(1, 5));
            lemma_be16_round_trip(0, b.subrange(5, 7));
            let back = Slot::from_bytes(b).to_bytes();
            assert(back.len() == 7);
            assert forall|i: int| 0 <= i < 7 implies back[i] == b[i] by {
                if 1 <= i < 5 {
                    assert(back[i] == be32(from_be32(b.subrange(1, 5)))[i - 1]);
                    assert(b.subrange(1, 5)[i - 1] == b[i]);
                } else if 5 <= i {
                    assert(back[i] == be16(from_be16(b.subrange(5, 7)))[i - 5]);
                    assert(b.subrange(5, 7)[i - 5] == b[i]);
                }
            }
        }
    }

    /// Appends the entry to `out`.
    pub fn write_to(&self, out: &mut Vec<u8>)
        ensures
            final(out)@ == old(out)@ + self.to_bytes(),
    {
        out.push(if self.deleted { 1u8 } else { 0u8 });
        push_u32(out, self.page_offset);
        push_u16(out, self.record_length);
        assert(out@ =~= old(out)@ + self.to_bytes());
    }

    /// The entry as seven bytes.
    pub fn serialize(&self) -> (out: Vec<u8>)
        ensures
            out@ == self.to_bytes(),
    {
        let mut out: Vec<u8> = Vec::new();
        self.write_to(&mut out);
        assert(out@ =~= self.to_bytes());
        out
    }

    /// Reads the entry that starts at `at`. `None` where its flag is neither
    /// 0 nor 1.
    pub fn read_from(b: &[u8], at: usize) -> (r: Option<Slot>)
        requires
            at + 7 <= b@.len(),
        ensures
            r is Some <==> Slot::is_entry(b@.subrange(at as int, at + 7)),
            r is Some ==> r->Some_0 == Slot::from_bytes(b@.subrange(at as int, at + 7)),
    {
        let ghost entry = b@.subrange(at as int, at + 7);
        assert(entry[0] == b@[at as int]);
        assert(entry.subrange(1, 5) =~= b@.subrange(at + 1, at + 5));
        assert(entry.subrange(5, 7) =~= b@.subrange(at + 5, at + 7));
        let flag: u8 = b[at];
        if flag > 1 {
            return None;
        }
        let page_offset: u32 = read_u32(b, at + 1);
        let record_length: u16 = read_u16(b, at + 5);
        Some(Slot { deleted: flag == 1, page_offset, record_length })
    }

    /// The slot that the seven bytes of `b` describe. `None` where `b` is no
    /// entry.
    pub fn deserialize(b: &[u8]) -> (r: Option<Slot>)
        ensures
            r is Some <==> Slot::is_entry(b@),
            r is Some ==> r->Some_0 == Slot::from_bytes(b@),
    {
        if b.len() != 7 {
            return None;
        }
        assert(b@.subrange(0, 7) =~= b@);
        Slot::read_from(b, 0)
    }
}

} // verus!
