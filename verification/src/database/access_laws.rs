//! What an insertion does to the rows of a table: the row is there
//! afterwards, between the rows that were there before, and the file stays
//! one that the next insertion and the next scan can work on.

use vstd::prelude::*;
use crate::data::layout::{page_position, valid_page_size};
use crate::data::metadata::MetadataView;
use crate::data::page_lemmas::lemma_first_reusable;
use crate::data::page_model::{first_reusable, PageView};
use crate::database::access_model::{
    file_records,
    first_fit,
    has_pages,
    insertable,
    inserted,
    is_first_fit,
    lemma_file_records_split,
    lemma_record_rows_concat,
    lemma_records_from_agree,
    records_from,
    scannable,
    table_rows,
};
use crate::store::file_model::{
    allocated,
    allocated_page,
    has_page,
    initialized,
    lemma_allocated,
    lemma_written_metadata,
    lemma_written_page,
    lemma_written_page_frame,
    page_of,
    with_metadata,
    with_page,
};
use crate::store::{record_rows, records_are_rows};
use crate::table::table::{lemma_row_round_trip, parse_row, row_bytes, validation, CellView};
use crate::table::{column_types, Column, ColumnType};

verus! {

/// Whether the file is one that insertions into a file that did not exist
/// have made: the header counts the pages that were allocated, and each page
/// stands at the place of its id.
pub open spec fn healthy(file: Seq<u8>, page_size: int) -> bool {
    let metadata = MetadataView::parse(file);
    &&& MetadataView::is_image(file)
    &&& metadata.next_id == metadata.number_of_pages + 1
    &&& forall|j: int|
        1 <= j <= metadata.number_of_pages ==> #[trigger] has_page(file, page_size, j) && page_of(
            file,
            page_size,
            j,
        ).page_id == j
}

/// A page that took a record has the records that it had, and the new one
/// between them.
proof fn lemma_page_records_after_insert(page: PageView, r: Seq<u8>)
    requires
        page.valid(),
        page.can_insert(r.len() as int),
    ensures
        ({
            let s = first_reusable(page.slots, r.len() as int);
            let m = page.slots.len() as int;
            &&& 0 <= s <= m
            &&& page.live_records() == page.records_between(0, s) + page.records_between(s + 1, m)
            &&& page.insert(r).live_records() == page.records_between(0, s) + seq![(s, r)]
                + page.records_between(s + 1, m)
        }),
{
    let s = first_reusable(page.slots, r.len() as int);
    let m = page.slots.len() as int;
    lemma_first_reusable(page.slots, r.len() as int);
    page.lemma_insert_records(r);
    if s < m {
        page.lemma_records_split(0, s, m);
        assert(page.slots[s].deleted);
        assert(page.records_between(s, m) == page.records_between(s + 1, m));
    } else {
        assert(page.records_between(m + 1, m) =~= Seq::<(int, Seq<u8>)>::empty());
        assert(page.live_records() =~= page.records_between(0, m) + page.records_between(
            m + 1,
            m,
        ));
        assert(page.live_records().push((m, r)) =~= page.records_between(0, m) + seq![(m, r)]
            + page.records_between(m + 1, m));
    }
}

/// What replacing a page of a file does: the header and the other pages
/// stay, and the page is the new one.
pub proof fn lemma_page_replaced(file: Seq<u8>, page_size: int, k: int, page: PageView, n: int)
    requires
        valid_page_size(page_size),
        file.len() >= 8,
        has_pages(file, page_size, n),
        1 <= k <= n,
        page.valid(),
        page.page_size == page_size,
    ensures
        with_page(file, page_size, k, page).len() >= 8,
        MetadataView::parse(with_page(file, page_size, k, page)) == MetadataView::parse(file),
        has_pages(with_page(file, page_size, k, page), page_size, n),
        page_of(with_page(file, page_size, k, page), page_size, k) == page,
        forall|j: int|
            1 <= j <= n && j != k ==> #[trigger] page_of(
                with_page(file, page_size, k, page),
                page_size,
                j,
            ) == page_of(file, page_size, j),
{
    let after = with_page(file, page_size, k, page);
    lemma_written_page(file, k, page);
    lemma_written_page_frame(file, page_size, k, page, k + 1);
    assert forall|j: int| 1 <= j <= n && j != k implies has_page(after, page_size, j)
        && #[trigger] page_of(after, page_size, j) == page_of(file, page_size, j) by {
        assert(has_page(file, page_size, j));
        lemma_written_page_frame(file, page_size, k, page, j);
    }
    assert forall|j: int| 1 <= j <= n implies has_page(after, page_size, j) by {
        if j != k {
            assert(page_of(after, page_size, j) == page_of(file, page_size, j));
        }
    }
}

/// The records of a file around one of its pages: those of the pages before
/// it, its own, and those of the pages behind it. What the other pages hold
/// is the same in a file that differs in this page only.
pub proof fn lemma_records_around(file: Seq<u8>, other: Seq<u8>, page_size: int, k: int, n: int)
    requires
        1 <= k <= n,
        forall|j: int|
            1 <= j <= n && j != k ==> #[trigger] page_of(other, page_size, j) == page_of(
                file,
                page_size,
                j,
            ),
    ensures
        file_records(file, page_size, n) == file_records(file, page_size, k - 1) + page_of(
            file,
            page_size,
            k,
        ).live_records() + records_from(file, page_size, k, n),
        file_records(other, page_size, n) == file_records(file, page_size, k - 1) + page_of(
            other,
            page_size,
            k,
        ).live_records() + records_from(file, page_size, k, n),
{
    lemma_file_records_split(file, page_size, k, n);
    lemma_file_records_split(other, page_size, k, n);
    lemma_file_records_split(file, page_size, 0, k - 1);
    lemma_file_records_split(other, page_size, 0, k - 1);
    assert forall|j: int| 0 < j <= k - 1 implies #[trigger] page_of(other, page_size, j)
        == page_of(file, page_size, j) by {}
    assert forall|j: int| k < j <= n implies #[trigger] page_of(other, page_size, j) == page_of(
        file,
        page_size,
        j,
    ) by {}
    lemma_records_from_agree(other, file, page_size, 0, k - 1);
    lemma_records_from_agree(other, file, page_size, k, n);
    assert(file_records(file, page_size, 0) =~= Seq::<(int, Seq<u8>)>::empty());
    assert(file_records(other, page_size, 0) =~= Seq::<(int, Seq<u8>)>::empty());
    assert(file_records(other, page_size, k - 1) =~= file_records(file, page_size, k - 1));
}

/// The records of the pages before the page `k` and of its slots before `s`.
pub open spec fn records_before(file: Seq<u8>, page_size: int, k: int, s: int) -> Seq<
    (int, Seq<u8>),
> {
    file_records(file, page_size, k - 1) + page_of(file, page_size, k).records_between(0, s)
}

/// The records of the slots behind `s` of the page `k` and of the pages
/// behind it, up to the page `n`.
pub open spec fn records_behind(file: Seq<u8>, page_size: int, k: int, s: int, n: int) -> Seq<
    (int, Seq<u8>),
> {
    page_of(file, page_size, k).records_between(
        s + 1,
        page_of(file, page_size, k).slots.len() as int,
    ) + records_from(file, page_size, k, n)
}

/// What an insertion into the page `k` does to the records of a file: the
/// new record stands between those that were before its slot and those that
/// were behind it.
pub proof fn lemma_records_after_insert(file: Seq<u8>, page_size: int, k: int, n: int, r: Seq<u8>)
    requires
        valid_page_size(page_size),
        file.len() >= 8,
        has_pages(file, page_size, n),
        1 <= k <= n,
        page_of(file, page_size, k).can_insert(r.len() as int),
    ensures
        ({
            let page = page_of(file, page_size, k);
            let s = first_reusable(page.slots, r.len() as int);
            let after = with_page(file, page_size, k, page.insert(r));
            &&& after.len() >= 8
            &&& MetadataView::parse(after) == MetadataView::parse(file)
            &&& has_pages(after, page_size, n)
            &&& file_records(file, page_size, n) == records_before(file, page_size, k, s)
                + records_behind(file, page_size, k, s, n)
            &&& file_records(after, page_size, n) == records_before(file, page_size, k, s) + seq![
                (s, r),
            ] + records_behind(file, page_size, k, s, n)
        }),
{
    let page = page_of(file, page_size, k);
    let s = first_reusable(page.slots, r.len() as int);
    let after = with_page(file, page_size, k, page.insert(r));
    assert(has_page(file, page_size, k));
    assert(page.valid());
    page.lemma_insert_valid(r);
    lemma_page_replaced(file, page_size, k, page.insert(r), n);
    lemma_records_around(file, after, page_size, k, n);
    lemma_page_records_after_insert(page, r);
    let before = file_records(file, page_size, k - 1);
    let behind = records_from(file, page_size, k, n);
    let m = page.slots.len() as int;
    lemma_regroup(
        before,
        page.records_between(0, s),
        Seq::empty(),
        page.records_between(s + 1, m),
        behind,
    );
    lemma_regroup(
        before,
        page.records_between(0, s),
        seq![(s, r)],
        page.records_between(s + 1, m),
        behind,
    );
    assert(page.records_between(0, s) + Seq::<(int, Seq<u8>)>::empty() + page.records_between(
        s + 1,
        m,
    ) =~= page.live_records());
}

/// Five runs, one after the other, are the same run however they are
/// grouped.
proof fn lemma_regroup<T>(a: Seq<T>, b: Seq<T>, x: Seq<T>, c: Seq<T>, d: Seq<T>)
    ensures
        a + (b + x + c) + d == (a + b) + x + (c + d),
        x.len() == 0 ==> a + (b + x + c) + d == (a + b) + (c + d),
{
    assert(a + (b + x + c) + d =~= (a + b) + x + (c + d));
    if x.len() == 0 {
        assert(a + (b + x + c) + d =~= (a + b) + (c + d));
    }
}

/// A row that was inserted into a page of the file is found by a scan, among
/// the rows that were there.
pub proof fn lemma_insert_into_page_visible(
    file: Seq<u8>,
    page_size: int,
    columns: Seq<Column>,
    cells: Seq<CellView>,
)
    requires
        valid_page_size(page_size),
        validation(cells, columns) is None,
        scannable(file, page_size, column_types(columns)),
        is_first_fit(
            file,
            page_size,
            row_bytes(cells).len() as int,
            first_fit(file, page_size, row_bytes(cells).len() as int),
        ),
        first_fit(file, page_size, row_bytes(cells).len() as int) <= MetadataView::parse(
            file,
        ).number_of_pages,
        page_of(
            file,
            page_size,
            first_fit(file, page_size, row_bytes(cells).len() as int),
        ).page_id == first_fit(file, page_size, row_bytes(cells).len() as int),
    ensures
        scannable(inserted(file, page_size, row_bytes(cells)), page_size, column_types(columns)),
        exists|i: int|
            0 <= i <= table_rows(file, page_size, column_types(columns)).len() && table_rows(
                inserted(file, page_size, row_bytes(cells)),
                page_size,
                column_types(columns),
            ) == #[trigger] table_rows(file, page_size, column_types(columns)).insert(i, cells),
{
    let types = column_types(columns);
    let r = row_bytes(cells);
    let n = MetadataView::parse(file).number_of_pages;
    let k = first_fit(file, page_size, r.len() as int);
    let page = page_of(file, page_size, k);
    let s = first_reusable(page.slots, r.len() as int);
    let after = with_page(file, page_size, k, page.insert(r));
    assert(after == inserted(file, page_size, r));
    lemma_records_after_insert(file, page_size, k, n, r);
    let head = records_before(file, page_size, k, s);
    let tail = records_behind(file, page_size, k, s, n);
    lemma_rows_with_one_more(head, tail, s, columns, cells);
    let rows = table_rows(file, page_size, types);
    assert(table_rows(after, page_size, types) == rows.insert(head.len() as int, cells));
    assert(rows.len() == head.len() + tail.len());
}

/// The rows of a run of records into which the encoding of a valid row was
/// put are the rows of the run with that row put in at the same place.
proof fn lemma_rows_with_one_more(
    head: Seq<(int, Seq<u8>)>,
    tail: Seq<(int, Seq<u8>)>,
    slot: int,
    columns: Seq<Column>,
    cells: Seq<CellView>,
)
    requires
        validation(cells, columns) is None,
        records_are_rows(head + tail, column_types(columns)),
    ensures
        records_are_rows(head + seq![(slot, row_bytes(cells))] + tail, column_types(columns)),
        record_rows(head + seq![(slot, row_bytes(cells))] + tail, column_types(columns))
            == record_rows(head + tail, column_types(columns)).insert(head.len() as int, cells),
{
    let types = column_types(columns);
    let r = row_bytes(cells);
    let one = seq![(slot, r)];
    lemma_row_round_trip(cells, columns, Seq::empty());
    assert(r + Seq::<u8>::empty() =~= r);
    assert(parse_row(r, types) == Some((cells, r.len() as int)));
    lemma_record_rows_concat(head, tail, types);
    lemma_record_rows_concat(head, one, types);
    lemma_record_rows_concat(head + one, tail, types);
    assert(records_are_rows(one, types)) by {
        assert forall|i: int| 0 <= i < one.len() implies parse_row((#[trigger] one[i]).1, types)
            is Some by {
            assert(one[i] == (slot, r));
        }
    }
    assert(record_rows(one, types) =~= seq![cells]);
    let rows = record_rows(head + tail, types);
    assert(record_rows(head + one + tail, types) =~= rows.insert(head.len() as int, cells));
}

/// What allocating a page does to the pages of a file: those that were
/// there stay, and the new one is there too.
pub proof fn lemma_allocated_pages(file: Seq<u8>, page_size: int)
    requires
        valid_page_size(page_size),
        MetadataView::is_image(file),
        MetadataView::parse(file).can_allocate(),
        MetadataView::parse(file).next_id == MetadataView::parse(file).number_of_pages + 1,
        has_pages(file, page_size, MetadataView::parse(file).number_of_pages),
    ensures
        allocated(file, page_size).len() >= 8,
        has_pages(
            allocated(file, page_size),
            page_size,
            MetadataView::parse(file).number_of_pages + 1,
        ),
        forall|j: int|
            1 <= j <= MetadataView::parse(file).number_of_pages ==> #[trigger] page_of(
                allocated(file, page_size),
                page_size,
                j,
            ) == page_of(file, page_size, j),
{
    let metadata = MetadataView::parse(file);
    let n = metadata.number_of_pages;
    let empty = allocated_page(file, page_size);
    let counted = with_metadata(file, metadata.allocate());
    let made = allocated(file, page_size);
    lemma_allocated(file, page_size);
    assert forall|j: int| 1 <= j <= n implies has_page(made, page_size, j) && #[trigger] page_of(
        made,
        page_size,
        j,
    ) == page_of(file, page_size, j) by {
        assert(has_page(file, page_size, j));
        lemma_written_metadata(file, metadata.allocate(), page_size, j);
        lemma_written_page_frame(counted, page_size, n + 1, empty, j);
    }
    assert forall|j: int| 1 <= j <= n + 1 implies has_page(made, page_size, j) by {
        if j <= n {
            assert(page_of(made, page_size, j) == page_of(file, page_size, j));
        }
    }
}

/// What allocating a page and writing to it does: the header counts one
/// page more, the pages that were there stay, and the new page is the one
/// written.
pub proof fn lemma_page_added(file: Seq<u8>, page_size: int, page: PageView)
    requires
        valid_page_size(page_size),
        MetadataView::is_image(file),
        MetadataView::parse(file).can_allocate(),
        MetadataView::parse(file).next_id == MetadataView::parse(file).number_of_pages + 1,
        has_pages(file, page_size, MetadataView::parse(file).number_of_pages),
        page.valid(),
        page.page_size == page_size,
    ensures
        ({
            let n = MetadataView::parse(file).number_of_pages;
            let after = with_page(allocated(file, page_size), page_size, n + 1, page);
            &&& MetadataView::is_image(after)
            &&& MetadataView::parse(after) == MetadataView::parse(file).allocate()
            &&& has_pages(after, page_size, n + 1)
            &&& page_of(after, page_size, n + 1) == page
            &&& forall|j: int|
                1 <= j <= n ==> #[trigger] page_of(after, page_size, j) == page_of(
                    file,
                    page_size,
                    j,
                )
        }),
{
    let n = MetadataView::parse(file).number_of_pages;
    let made = allocated(file, page_size);
    let after = with_page(made, page_size, n + 1, page);
    lemma_allocated(file, page_size);
    lemma_allocated_pages(file, page_size);
    lemma_page_replaced(made, page_size, n + 1, page, n + 1);
    assert forall|j: int| 1 <= j <= n implies #[trigger] page_of(after, page_size, j) == page_of(
        file,
        page_size,
        j,
    ) by {
        assert(page_of(after, page_size, j) == page_of(made, page_size, j));
        assert(page_of(made, page_size, j) == page_of(file, page_size, j));
    }
    assert(after.len() >= 8);
}

/// A row that was inserted into a page that was allocated for it is the last
/// that a scan finds, behind the rows that were there.
pub proof fn lemma_insert_into_new_page_visible(
    file: Seq<u8>,
    page_size: int,
    columns: Seq<Column>,
    cells: Seq<CellView>,
)
    requires
        valid_page_size(page_size),
        validation(cells, columns) is None,
        scannable(file, page_size, column_types(columns)),
        MetadataView::parse(file).can_allocate(),
        MetadataView::parse(file).next_id == MetadataView::parse(file).number_of_pages + 1,
        allocated_page(file, page_size).can_insert(row_bytes(cells).len() as int),
        first_fit(file, page_size, row_bytes(cells).len() as int) == MetadataView::parse(
            file,
        ).number_of_pages + 1,
    ensures
        scannable(inserted(file, page_size, row_bytes(cells)), page_size, column_types(columns)),
        table_rows(inserted(file, page_size, row_bytes(cells)), page_size, column_types(columns))
            == table_rows(file, page_size, column_types(columns)).push(cells),
{
    let types = column_types(columns);
    let r = row_bytes(cells);
    let n = MetadataView::parse(file).number_of_pages;
    let page = allocated_page(file, page_size);
    let after = with_page(allocated(file, page_size), page_size, n + 1, page.insert(r));
    assert(after == inserted(file, page_size, r));
    lemma_allocated(file, page_size);
    page.lemma_insert_valid(r);
    lemma_page_added(file, page_size, page.insert(r));
    lemma_file_records_split(file, page_size, 0, n);
    lemma_file_records_split(after, page_size, 0, n);
    lemma_records_from_agree(after, file, page_size, 0, n);
    let before = file_records(file, page_size, n);
    assert(file_records(file, page_size, 0) =~= Seq::<(int, Seq<u8>)>::empty());
    assert(file_records(after, page_size, 0) =~= Seq::<(int, Seq<u8>)>::empty());
    assert(file_records(after, page_size, n) =~= before);
    lemma_new_page_records(page_size, page.page_id, r);
    let none = Seq::<(int, Seq<u8>)>::empty();
    assert(before + none =~= before);
    assert(file_records(after, page_size, n + 1) =~= before + seq![(0int, r)] + none);
    lemma_rows_with_one_more(before, none, 0, columns, cells);
    assert(record_rows(before, types).insert(before.len() as int, cells) =~= record_rows(
        before,
        types,
    ).push(cells));
}

/// An empty page that took a record holds that record and no other.
proof fn lemma_new_page_records(page_size: int, page_id: int, r: Seq<u8>)
    requires
        valid_page_size(page_size),
        -2147483648 <= page_id < 2147483648,
        PageView::empty(page_size).with_page_id(page_id).can_insert(r.len() as int),
    ensures
        PageView::empty(page_size).with_page_id(page_id).insert(r).live_records() == seq![
            (0int, r),
        ],
{
    let page = PageView::empty(page_size).with_page_id(page_id);
    PageView::lemma_empty_valid(page_size);
    assert(page.slots == PageView::empty(page_size).slots);
    lemma_page_records_after_insert(page, r);
    assert(page.slots.len() == 0);
    assert(page.records_between(0, 0) =~= Seq::<(int, Seq<u8>)>::empty());
    assert(page.records_between(1, 0) =~= Seq::<(int, Seq<u8>)>::empty());
    assert(page.insert(r).live_records() =~= seq![(0int, r)]);
}

/// A file that insertions have made stays such a file under an insertion.
pub proof fn lemma_insert_keeps_healthy(file: Seq<u8>, page_size: int, r: Seq<u8>)
    requires
        valid_page_size(page_size),
        healthy(file, page_size),
        is_first_fit(
            file,
            page_size,
            r.len() as int,
            first_fit(file, page_size, r.len() as int),
        ),
        first_fit(file, page_size, r.len() as int) > MetadataView::parse(file).number_of_pages
            ==> MetadataView::parse(file).can_allocate() && allocated_page(
            file,
            page_size,
        ).can_insert(r.len() as int),
    ensures
        healthy(inserted(file, page_size, r), page_size),
{
    let n = MetadataView::parse(file).number_of_pages;
    let k = first_fit(file, page_size, r.len() as int);
    let after = inserted(file, page_size, r);
    assert(has_pages(file, page_size, n)) by {
        assert forall|j: int| 1 <= j <= n implies has_page(file, page_size, j) by {}
    }
    if k <= n {
        let page = page_of(file, page_size, k);
        assert(has_page(file, page_size, k));
        page.lemma_insert_valid(r);
        lemma_page_replaced(file, page_size, k, page.insert(r), n);
        assert forall|j: int| 1 <= j <= n implies #[trigger] has_page(after, page_size, j)
            && page_of(after, page_size, j).page_id == j by {
            assert(has_page(file, page_size, j));
            if j != k {
                assert(page_of(after, page_size, j) == page_of(file, page_size, j));
            }
        }
    } else {
        let page = allocated_page(file, page_size);
        lemma_allocated(file, page_size);
        page.lemma_insert_valid(r);
        lemma_page_added(file, page_size, page.insert(r));
        assert forall|j: int| 1 <= j <= n + 1 implies #[trigger] has_page(after, page_size, j)
            && page_of(after, page_size, j).page_id == j by {
            if j <= n {
                assert(has_page(file, page_size, j));
                assert(page_of(after, page_size, j) == page_of(file, page_size, j));
            }
        }
    }
}

/// Whether `k` is the id of the first among the first `m` pages that takes a
/// record of `len` bytes, or `m + 1` where none of them does.
spec fn is_first_fit_among(file: Seq<u8>, page_size: int, len: int, m: int, k: int) -> bool {
    &&& 1 <= k <= m + 1
    &&& forall|j: int|
        1 <= j < k ==> #[trigger] has_page(file, page_size, j) && !page_of(
            file,
            page_size,
            j,
        ).can_insert(len)
    &&& k <= m ==> has_page(file, page_size, k) && page_of(file, page_size, k).can_insert(len)
}

/// Where none of the first `m` pages takes a record, the first fit among them
/// is behind them.
proof fn lemma_none_fits(file: Seq<u8>, page_size: int, len: int, m: int)
    requires
        0 <= m,
        forall|j: int|
            1 <= j < m + 1 ==> #[trigger] has_page(file, page_size, j) && !page_of(
                file,
                page_size,
                j,
            ).can_insert(len),
    ensures
        is_first_fit_among(file, page_size, len, m, m + 1),
{
}

/// Among pages that are all there, one is the first that takes a record, or
/// none does.
proof fn lemma_first_fit_among(file: Seq<u8>, page_size: int, len: int, m: int)
    requires
        0 <= m,
        has_pages(file, page_size, m),
    ensures
        exists|k: int| is_first_fit_among(file, page_size, len, m, k),
    decreases m,
{
    if m == 0 {
        assert(is_first_fit_among(file, page_size, len, m, 1));
    } else {
        let fewer = m - 1;
        lemma_first_fit_among(file, page_size, len, fewer);
        let k = choose|k: int| is_first_fit_among(file, page_size, len, fewer, k);
        assert(is_first_fit_among(file, page_size, len, fewer, k));
        assert(has_page(file, page_size, m));
        if k <= m - 1 {
            assert(is_first_fit_among(file, page_size, len, m, k));
        } else if page_of(file, page_size, m).can_insert(len) {
            assert(is_first_fit_among(file, page_size, len, m, m));
        } else {
            assert forall|j: int| 1 <= j < m + 1 implies #[trigger] has_page(file, page_size, j)
                && !page_of(file, page_size, j).can_insert(len) by {
                if j < m {
                    assert(1 <= j < k);
                    assert(has_page(file, page_size, j));
                    assert(!page_of(file, page_size, j).can_insert(len));
                }
            }
            lemma_none_fits(file, page_size, len, m);
        }
    }
}

/// In a file whose pages are all there, `first_fit` names the first page
/// that takes a record, or one more than the page count.
pub proof fn lemma_first_fit(file: Seq<u8>, page_size: int, len: int)
    requires
        MetadataView::is_image(file),
        has_pages(file, page_size, MetadataView::parse(file).number_of_pages),
    ensures
        is_first_fit(file, page_size, len, first_fit(file, page_size, len)),
{
    let n = MetadataView::parse(file).number_of_pages;
    lemma_first_fit_among(file, page_size, len, n);
    let k = choose|k: int| is_first_fit_among(file, page_size, len, n, k);
    assert(is_first_fit(file, page_size, len, k));
}

/// A row that was inserted is found by the next scan. In a file that
/// insertions have made and that can be scanned, a row that fits the schema
/// and an empty page goes in, as long as ids are left to give out and the
/// store has room for one page more. The file is then again one that
/// insertions have made and that can be scanned, and its rows are those that
/// it had with the new row among them.
pub proof fn lemma_insert_visible(
    file: Seq<u8>,
    page_size: int,
    capacity: int,
    columns: Seq<Column>,
    cells: Seq<CellView>,
)
    requires
        valid_page_size(page_size),
        validation(cells, columns) is None,
        healthy(file, page_size),
        scannable(file, page_size, column_types(columns)),
        MetadataView::parse(file).can_allocate(),
        PageView::empty(page_size).can_insert(row_bytes(cells).len() as int),
    ensures
        page_position(page_size, MetadataView::parse(file).next_id) + page_size <= capacity
            ==> insertable(file, page_size, capacity, row_bytes(cells).len() as int),
        healthy(inserted(file, page_size, row_bytes(cells)), page_size),
        scannable(inserted(file, page_size, row_bytes(cells)), page_size, column_types(columns)),
        exists|i: int|
            0 <= i <= table_rows(file, page_size, column_types(columns)).len() && table_rows(
                inserted(file, page_size, row_bytes(cells)),
                page_size,
                column_types(columns),
            ) == #[trigger] table_rows(file, page_size, column_types(columns)).insert(i, cells),
{
    let types = column_types(columns);
    let r = row_bytes(cells);
    let n = MetadataView::parse(file).number_of_pages;
    lemma_first_fit(file, page_size, r.len() as int);
    let k = first_fit(file, page_size, r.len() as int);
    assert(allocated_page(file, page_size).slots == PageView::empty(page_size).slots);
    assert(allocated_page(file, page_size).can_insert(r.len() as int));
    lemma_insert_keeps_healthy(file, page_size, r);
    if k <= n {
        assert(has_page(file, page_size, k));
        assert(page_position(page_size, k) <= page_position(page_size, n + 1))
            by (nonlinear_arith)
            requires
                1 <= k <= n,
                page_size >= 32,
        ;
        lemma_insert_into_page_visible(file, page_size, columns, cells);
    } else {
        lemma_insert_into_new_page_visible(file, page_size, columns, cells);
        let rows = table_rows(file, page_size, types);
        assert(rows.insert(rows.len() as int, cells) =~= rows.push(cells));
    }
}

/// The file that the first reading of a table makes is one that insertions
/// can work on, and it has no rows.
pub proof fn lemma_fresh_file(page_size: int, types: Seq<ColumnType>)
    requires
        valid_page_size(page_size),
    ensures
        healthy(initialized(None), page_size),
        scannable(initialized(None), page_size, types),
        table_rows(initialized(None), page_size, types).len() == 0,
{
    let file = initialized(None);
    MetadataView::fresh().lemma_round_trip(Seq::empty());
    assert(MetadataView::fresh().to_bytes() + Seq::<u8>::empty() =~= file);
}

} // verus!
