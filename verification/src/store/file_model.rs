//! The mathematical model of a page file: its bytes, where the header and
//! the pages stand in them, and what writing does to them.

use vstd::prelude::*;
use crate::data::layout::{page_position, valid_page_size, FILE_HEADER_SIZE};
use crate::data::metadata::MetadataView;
use crate::data::page_model::PageView;

verus! {

/// The bytes of a file after `data` was written at offset `at`. A write
/// behind the end of the file leaves zeros between the old end and `at`.
pub open spec fn write_at(file: Seq<u8>, at: int, data: Seq<u8>) -> Seq<u8> {
    let len = if at + data.len() > file.len() {
        at + data.len()
    } else {
        file.len() as int
    };
    Seq::new(
        len as nat,
        |i: int|
            if at <= i < at + data.len() {
                data[i - at]
            } else if i < file.len() {
                file[i]
            } else {
                0u8
            },
    )
}

/// The bytes of a page file that is read for the first time: a file that
/// does not exist yet is made with the header of a file without pages.
pub open spec fn initialized(file: Option<Seq<u8>>) -> Seq<u8> {
    match file {
        Some(bytes) => bytes,
        None => MetadataView::fresh().to_bytes(),
    }
}

/// The bytes of the file at which the page with id `page_id` stands.
pub open spec fn page_bytes(file: Seq<u8>, page_size: int, page_id: int) -> Seq<u8> {
    file.subrange(
        page_position(page_size, page_id),
        page_position(page_size, page_id) + page_size,
    )
}

/// Whether a read of the page with id `page_id` gets all its bytes: the file
/// is there, the id is at least 1, and the file reaches to the end of the
/// page.
pub open spec fn reaches_page(file: Option<Seq<u8>>, page_size: int, page_id: int) -> bool {
    &&& file is Some
    &&& page_id >= 1
    &&& page_position(page_size, page_id) + page_size <= file->Some_0.len()
}

/// Whether the file holds a page with id `page_id`: the id is at least 1,
/// the file reaches to the end of the page, and the bytes are a page image.
pub open spec fn has_page(file: Seq<u8>, page_size: int, page_id: int) -> bool {
    &&& page_id >= 1
    &&& page_position(page_size, page_id) + page_size <= file.len()
    &&& PageView::is_image(page_bytes(file, page_size, page_id), page_size)
}

/// The page with id `page_id` that the file holds.
pub open spec fn page_of(file: Seq<u8>, page_size: int, page_id: int) -> PageView {
    PageView::parse(page_bytes(file, page_size, page_id), page_size)
}

/// The file after `page` was written to the place of `page_id`.
pub open spec fn with_page(file: Seq<u8>, page_size: int, page_id: int, page: PageView) -> Seq<
    u8,
> {
    write_at(file, page_position(page_size, page_id), page.to_bytes())
}

/// The file after `metadata` was written to its start.
pub open spec fn with_metadata(file: Seq<u8>, metadata: MetadataView) -> Seq<u8> {
    write_at(file, 0, metadata.to_bytes())
}

/// Whether a page of `length` bytes can be written to the place of `page_id`:
/// the file is there, the id is at least 1, and the page ends within
/// `capacity`, the length that no file exceeds.
pub open spec fn can_write_page(
    file: Option<Seq<u8>>,
    capacity: int,
    page_size: int,
    page_id: int,
    length: int,
) -> bool {
    &&& file is Some
    &&& page_id >= 1
    &&& page_position(page_size, page_id) + length <= capacity
}

/// Whether a page can be allocated in `file`: it has a header, an id is left
/// to give out, and the new page ends within `capacity`.
pub open spec fn can_allocate_page(file: Seq<u8>, capacity: int, page_size: int) -> bool {
    &&& MetadataView::is_image(file)
    &&& MetadataView::parse(file).can_allocate()
    &&& page_position(page_size, MetadataView::parse(file).next_id) + page_size <= capacity
}

/// The page that an allocation in `file` makes: an empty page with the next
/// id of the file's header.
pub open spec fn allocated_page(file: Seq<u8>, page_size: int) -> PageView {
    PageView::empty(page_size).with_page_id(MetadataView::parse(file).next_id)
}

/// The file after a page was allocated: the header counts the page and has
/// moved on to the next id, and the empty page stands at its place.
pub open spec fn allocated(file: Seq<u8>, page_size: int) -> Seq<u8> {
    let metadata = MetadataView::parse(file);
    with_page(
        with_metadata(file, metadata.allocate()),
        page_size,
        metadata.next_id,
        allocated_page(file, page_size),
    )
}

/// A page that was written is the page that the file holds at its place.
pub proof fn lemma_written_page(file: Seq<u8>, page_id: int, page: PageView)
    requires
        page.valid(),
        page_id >= 1,
    ensures
        has_page(with_page(file, page.page_size, page_id, page), page.page_size, page_id),
        page_of(with_page(file, page.page_size, page_id, page), page.page_size, page_id) == page,
{
    let page_size = page.page_size;
    let after = with_page(file, page_size, page_id, page);
    let at = page_position(page_size, page_id);
    assert(at >= 8) by (nonlinear_arith)
        requires
            at == 8 + (page_id - 1) * page_size,
            page_id >= 1,
            page_size >= 32,
    ;
    assert(page_bytes(after, page_size, page_id) =~= page.to_bytes());
    page.lemma_image_round_trip();
}

/// Writing a page leaves the other pages of the file and its header as they
/// were.
pub proof fn lemma_written_page_frame(
    file: Seq<u8>,
    page_size: int,
    page_id: int,
    page: PageView,
    other: int,
)
    requires
        valid_page_size(page_size),
        page.page_size == page_size,
        page_id >= 1,
        other >= 1,
        other != page_id,
        file.len() >= FILE_HEADER_SIZE,
    ensures
        MetadataView::parse(with_page(file, page_size, page_id, page)) == MetadataView::parse(
            file,
        ),
        with_page(file, page_size, page_id, page).len() >= file.len(),
        page_position(page_size, other) + page_size <= file.len() ==> page_bytes(
            with_page(file, page_size, page_id, page),
            page_size,
            other,
        ) == page_bytes(file, page_size, other),
{
    let after = with_page(file, page_size, page_id, page);
    let at = page_position(page_size, page_id);
    let there = page_position(page_size, other);
    assert(at >= 8) by (nonlinear_arith)
        requires
            at == 8 + (page_id - 1) * page_size,
            page_id >= 1,
            page_size >= 32,
    ;
    assert(there + page_size <= at || at + page_size <= there) by (nonlinear_arith)
        requires
            at == 8 + (page_id - 1) * page_size,
            there == 8 + (other - 1) * page_size,
            other != page_id,
            page_size >= 32,
    ;
    assert(after.subrange(0, 4) =~= file.subrange(0, 4));
    assert(after.subrange(4, 8) =~= file.subrange(4, 8));
    if there + page_size <= file.len() {
        assert(page_bytes(after, page_size, other) =~= page_bytes(file, page_size, other));
    }
}

/// Writing the header leaves the pages of the file as they were, and the
/// header read back is the one written.
pub proof fn lemma_written_metadata(
    file: Seq<u8>,
    metadata: MetadataView,
    page_size: int,
    page_id: int,
)
    requires
        metadata.valid(),
        valid_page_size(page_size),
        page_id >= 1,
        file.len() >= FILE_HEADER_SIZE,
    ensures
        with_metadata(file, metadata).len() == file.len(),
        MetadataView::is_image(with_metadata(file, metadata)),
        MetadataView::parse(with_metadata(file, metadata)) == metadata,
        page_position(page_size, page_id) + page_size <= file.len() ==> page_bytes(
            with_metadata(file, metadata),
            page_size,
            page_id,
        ) == page_bytes(file, page_size, page_id),
{
    let after = with_metadata(file, metadata);
    let at = page_position(page_size, page_id);
    assert(at >= 8) by (nonlinear_arith)
        requires
            at == 8 + (page_id - 1) * page_size,
            page_id >= 1,
            page_size >= 32,
    ;
    metadata.lemma_round_trip(file.subrange(8, file.len() as int));
    assert(after =~= metadata.to_bytes() + file.subrange(8, file.len() as int));
    if at + page_size <= file.len() {
        assert(page_bytes(after, page_size, page_id) =~= page_bytes(file, page_size, page_id));
    }
}

/// What an allocation does. The file then holds the empty page under the id
/// that its header gave out, which `read_page` finds there, and its header
/// has moved on: the next id is one more. The first id of a file that did
/// not exist is 1, so the ids of a file are 1, 2, 3 and so on.
pub proof fn lemma_allocated(file: Seq<u8>, page_size: int)
    requires
        valid_page_size(page_size),
        MetadataView::is_image(file),
        MetadataView::parse(file).can_allocate(),
    ensures
        MetadataView::parse(initialized(None)) == MetadataView::fresh(),
        MetadataView::is_image(initialized(None)),
        allocated_page(file, page_size).valid(),
        allocated_page(file, page_size).page_id == MetadataView::parse(file).next_id,
        MetadataView::is_image(allocated(file, page_size)),
        MetadataView::parse(allocated(file, page_size)) == MetadataView::parse(file).allocate(),
        has_page(allocated(file, page_size), page_size, MetadataView::parse(file).next_id),
        page_of(allocated(file, page_size), page_size, MetadataView::parse(file).next_id)
            == allocated_page(file, page_size),
{
    let metadata = MetadataView::parse(file);
    let page = allocated_page(file, page_size);
    let id = metadata.next_id;
    let counted = with_metadata(file, metadata.allocate());
    MetadataView::fresh().lemma_round_trip(Seq::empty());
    let header = MetadataView::fresh().to_bytes();
    assert(header + Seq::<u8>::empty() =~= header);
    PageView::lemma_empty_valid(page_size);
    assert(page.slots == PageView::empty(page_size).slots);
    lemma_written_metadata(file, metadata.allocate(), page_size, id);
    lemma_written_page(counted, id, page);
    let after = allocated(file, page_size);
    let at = page_position(page_size, id);
    assert(at >= 8) by (nonlinear_arith)
        requires
            at == 8 + (id - 1) * page_size,
            id >= 1,
            page_size >= 32,
    ;
    assert(after.subrange(0, 4) =~= counted.subrange(0, 4));
    assert(after.subrange(4, 8) =~= counted.subrange(4, 8));
}

/// An operation that changes a page file: the allocation of a page, or the
/// writing of a page to the place of its id.
pub enum FileOp {
    Allocate,
    Write(PageView),
}

impl FileOp {
    /// Whether the operation can be done on `file` with pages of `page_size`
    /// bytes: an allocation needs a header with an id left to give out, a
    /// write a valid page of that size with an id.
    pub open spec fn applies(self, file: Seq<u8>, page_size: int) -> bool {
        match self {
            FileOp::Allocate => MetadataView::is_image(file) && MetadataView::parse(
                file,
            ).can_allocate(),
            FileOp::Write(page) => page.valid() && page.page_size == page_size && page.page_id
                >= 1,
        }
    }

    /// The file after the operation.
    pub open spec fn apply(self, file: Seq<u8>, page_size: int) -> Seq<u8> {
        match self {
            FileOp::Allocate => allocated(file, page_size),
            FileOp::Write(page) => with_page(file, page_size, page.page_id, page),
        }
    }
}

/// The file after the operations `ops` were done on it, one after the other.
pub open spec fn after_ops(file: Seq<u8>, page_size: int, ops: Seq<FileOp>) -> Seq<u8>
    decreases ops.len(),
{
    if ops.len() == 0 {
        file
    } else {
        ops.last().apply(after_ops(file, page_size, ops.drop_last()), page_size)
    }
}

/// Whether each of the operations `ops` can be done when its turn comes.
pub open spec fn ops_apply(file: Seq<u8>, page_size: int, ops: Seq<FileOp>) -> bool
    decreases ops.len(),
{
    ops.len() == 0 || (ops_apply(file, page_size, ops.drop_last()) && ops.last().applies(
        after_ops(file, page_size, ops.drop_last()),
        page_size,
    ))
}

/// An allocation or a write leaves a page that stands under its own id in
/// the file standing there under its own id: it is left alone, or another
/// page with the same id takes its place.
pub proof fn lemma_op_keeps_page(file: Seq<u8>, page_size: int, k: int, op: FileOp)
    requires
        valid_page_size(page_size),
        file.len() >= FILE_HEADER_SIZE,
        has_page(file, page_size, k),
        page_of(file, page_size, k).page_id == k,
        op.applies(file, page_size),
    ensures
        op.apply(file, page_size).len() >= FILE_HEADER_SIZE,
        has_page(op.apply(file, page_size), page_size, k),
        page_of(op.apply(file, page_size), page_size, k).page_id == k,
{
    match op {
        FileOp::Write(page) => {
            lemma_page_written_over(file, page_size, k, page.page_id, page);
        },
        FileOp::Allocate => {
            let metadata = MetadataView::parse(file);
            let counted = with_metadata(file, metadata.allocate());
            lemma_allocated(file, page_size);
            lemma_written_metadata(file, metadata.allocate(), page_size, k);
            assert(has_page(counted, page_size, k));
            assert(page_of(counted, page_size, k) == page_of(file, page_size, k));
            lemma_page_written_over(
                counted,
                page_size,
                k,
                metadata.next_id,
                allocated_page(file, page_size),
            );
        },
    }
}

/// A write of a page with the id `page_id` leaves a page that stands under
/// its own id `k` standing there under its own id.
proof fn lemma_page_written_over(
    file: Seq<u8>,
    page_size: int,
    k: int,
    page_id: int,
    page: PageView,
)
    requires
        valid_page_size(page_size),
        file.len() >= FILE_HEADER_SIZE,
        has_page(file, page_size, k),
        page_of(file, page_size, k).page_id == k,
        page.valid(),
        page.page_size == page_size,
        page.page_id == page_id,
        page_id >= 1,
    ensures
        with_page(file, page_size, page_id, page).len() >= FILE_HEADER_SIZE,
        has_page(with_page(file, page_size, page_id, page), page_size, k),
        page_of(with_page(file, page_size, page_id, page), page_size, k).page_id == k,
{
    if page_id == k {
        lemma_written_page(file, k, page);
    } else {
        lemma_written_page_frame(file, page_size, page_id, page, k);
    }
    lemma_written_page_frame(file, page_size, page_id, page, page_id + 1);
}

/// A page that stands under its own id in a file stands there under its own
/// id after any run of allocations and writes on the file.
pub proof fn lemma_page_stays(file: Seq<u8>, page_size: int, k: int, ops: Seq<FileOp>)
    requires
        valid_page_size(page_size),
        file.len() >= FILE_HEADER_SIZE,
        has_page(file, page_size, k),
        page_of(file, page_size, k).page_id == k,
        ops_apply(file, page_size, ops),
    ensures
        after_ops(file, page_size, ops).len() >= FILE_HEADER_SIZE,
        has_page(after_ops(file, page_size, ops), page_size, k),
        page_of(after_ops(file, page_size, ops), page_size, k).page_id == k,
    decreases ops.len(),
{
    if ops.len() > 0 {
        lemma_page_stays(file, page_size, k, ops.drop_last());
        lemma_op_keeps_page(
            after_ops(file, page_size, ops.drop_last()),
            page_size,
            k,
            ops.last(),
        );
    }
}

/// The page that an allocation has made is found under the id that was given
/// out, and has that id, after any run of allocations and writes that follow
/// the allocation: a read of that id gives a page with that id.
pub proof fn lemma_allocated_page_stays(file: Seq<u8>, page_size: int, ops: Seq<FileOp>)
    requires
        valid_page_size(page_size),
        MetadataView::is_image(file),
        MetadataView::parse(file).can_allocate(),
        ops_apply(allocated(file, page_size), page_size, ops),
    ensures
        has_page(
            after_ops(allocated(file, page_size), page_size, ops),
            page_size,
            MetadataView::parse(file).next_id,
        ),
        page_of(
            after_ops(allocated(file, page_size), page_size, ops),
            page_size,
            MetadataView::parse(file).next_id,
        ).page_id == MetadataView::parse(file).next_id,
{
    lemma_allocated(file, page_size);
    lemma_page_stays(
        allocated(file, page_size),
        page_size,
        MetadataView::parse(file).next_id,
        ops,
    );
}

/// Number of allocations among the operations `ops`.
pub open spec fn allocations(ops: Seq<FileOp>) -> nat
    decreases ops.len(),
{
    if ops.len() == 0 {
        0
    } else {
        allocations(ops.drop_last()) + if ops.last() is Allocate {
            1nat
        } else {
            0nat
        }
    }
}

/// The ids that allocations give out only go up: after any run of
/// allocations and writes, the next id of the file is what it was and one
/// more for each allocation, and so is its page count. A write never changes
/// them.
pub proof fn lemma_ids_after_ops(file: Seq<u8>, page_size: int, ops: Seq<FileOp>)
    requires
        valid_page_size(page_size),
        MetadataView::is_image(file),
        ops_apply(file, page_size, ops),
    ensures
        MetadataView::is_image(after_ops(file, page_size, ops)),
        MetadataView::parse(after_ops(file, page_size, ops)).next_id == MetadataView::parse(
            file,
        ).next_id + allocations(ops),
        MetadataView::parse(after_ops(file, page_size, ops)).number_of_pages
            == MetadataView::parse(file).number_of_pages + allocations(ops),
    decreases ops.len(),
{
    if ops.len() > 0 {
        let before = after_ops(file, page_size, ops.drop_last());
        lemma_ids_after_ops(file, page_size, ops.drop_last());
        match ops.last() {
            FileOp::Allocate => {
                lemma_allocated(before, page_size);
            },
            FileOp::Write(page) => {
                lemma_written_page_frame(before, page_size, page.page_id, page, page.page_id + 1);
            },
        }
    }
}

/// The file after `k` pages were allocated in it, one after the other.
pub open spec fn allocated_times(file: Seq<u8>, page_size: int, k: nat) -> Seq<u8>
    decreases k,
{
    if k == 0 {
        file
    } else {
        allocated(allocated_times(file, page_size, (k - 1) as nat), page_size)
    }
}

/// The ids that allocation gives out go up by one each time, and they start
/// at 1: in a file that did not exist before, the allocation after `k` others
/// makes the page with id `k + 1`.
pub proof fn lemma_allocation_ids(page_size: int, k: nat)
    requires
        valid_page_size(page_size),
        k < 2147483646,
    ensures
        MetadataView::is_image(allocated_times(initialized(None), page_size, k)),
        MetadataView::parse(allocated_times(initialized(None), page_size, k)) == (MetadataView {
            next_id: k as int + 1,
            number_of_pages: k as int,
        }),
        allocated_page(allocated_times(initialized(None), page_size, k), page_size).page_id == k
            + 1,
    decreases k,
{
    let fresh = initialized(None);
    if k == 0 {
        MetadataView::fresh().lemma_round_trip(Seq::empty());
        assert(MetadataView::fresh().to_bytes() + Seq::<u8>::empty() =~= fresh);
    } else {
        lemma_allocation_ids(page_size, (k - 1) as nat);
        lemma_allocated(allocated_times(fresh, page_size, (k - 1) as nat), page_size);
    }
}

} // verus!
