//! The mathematical model of table access: the rows that a page file holds,
//! the page that an insertion goes to, and the file that it leaves behind.

use vstd::prelude::*;
use crate::data::metadata::MetadataView;
use crate::store::file_model::{
    allocated,
    allocated_page,
    can_allocate_page,
    can_write_page,
    has_page,
    page_of,
    with_page,
};
use crate::store::{record_rows, records_are_rows};
use crate::table::table::{parse_row, Cell, CellView, Row};
use crate::table::ColumnType;

verus! {

/// The live records of the pages with the ids 1 to `k`, in the order of the
/// page ids and, within a page, of the slots.
pub open spec fn file_records(file: Seq<u8>, page_size: int, k: int) -> Seq<(int, Seq<u8>)>
    decreases k,
{
    if k <= 0 {
        Seq::empty()
    } else {
        file_records(file, page_size, k - 1) + page_of(file, page_size, k).live_records()
    }
}

/// Whether the file holds the pages with the ids 1 to `k`.
pub open spec fn has_pages(file: Seq<u8>, page_size: int, k: int) -> bool {
    forall|j: int| 1 <= j <= k ==> has_page(file, page_size, j)
}

/// Whether a table can be scanned: the file has a header, it holds as many
/// pages as the header states, and every live record is a row of the schema.
pub open spec fn scannable(file: Seq<u8>, page_size: int, types: Seq<ColumnType>) -> bool {
    let n = MetadataView::parse(file).number_of_pages;
    &&& MetadataView::is_image(file)
    &&& has_pages(file, page_size, n)
    &&& records_are_rows(file_records(file, page_size, n), types)
}

/// The rows of a table: those of its pages in the order of the page ids and,
/// within a page, of the slots.
pub open spec fn table_rows(file: Seq<u8>, page_size: int, types: Seq<ColumnType>) -> Seq<
    Seq<CellView>,
> {
    record_rows(file_records(file, page_size, MetadataView::parse(file).number_of_pages), types)
}

/// The rows among `rows` whose cell at `index` is `cell`, in their order.
pub open spec fn matching(rows: Seq<Seq<CellView>>, index: int, cell: CellView) -> Seq<
    Seq<CellView>,
>
    decreases rows.len(),
{
    if rows.len() == 0 {
        Seq::empty()
    } else if rows.last()[index] == cell {
        matching(rows.drop_last(), index, cell).push(rows.last())
    } else {
        matching(rows.drop_last(), index, cell)
    }
}

/// The rows that are wanted among `rows`: all of them, or those with a given
/// cell at a given index.
pub open spec fn selection(rows: Seq<Seq<CellView>>, wanted: Option<(int, CellView)>) -> Seq<
    Seq<CellView>,
> {
    match wanted {
        None => rows,
        Some((index, cell)) => matching(rows, index, cell),
    }
}

/// What is wanted, as a mathematical value.
pub open spec fn wanted_view(wanted: Option<(usize, &Cell)>) -> Option<(int, CellView)> {
    match wanted {
        None => None,
        Some((index, cell)) => Some((index as int, cell@)),
    }
}

/// The rows as mathematical values.
pub open spec fn rows_view(rows: Seq<Row>) -> Seq<Seq<CellView>> {
    Seq::new(rows.len(), |i: int| rows[i]@)
}

/// Whether `k` is the id of the first page that takes a record of `len`
/// bytes, or one more than the page count where none does. The pages before
/// it are all there, and none of them takes the record.
pub open spec fn is_first_fit(file: Seq<u8>, page_size: int, len: int, k: int) -> bool {
    let n = MetadataView::parse(file).number_of_pages;
    &&& 1 <= k <= n + 1
    &&& forall|j: int|
        1 <= j < k ==> #[trigger] has_page(file, page_size, j) && !page_of(
            file,
            page_size,
            j,
        ).can_insert(len)
    &&& k <= n ==> has_page(file, page_size, k) && page_of(file, page_size, k).can_insert(len)
}

/// The id of the first page that takes a record of `len` bytes, or one more
/// than the page count where none does.
pub open spec fn first_fit(file: Seq<u8>, page_size: int, len: int) -> int {
    choose|k: int| is_first_fit(file, page_size, len, k)
}

/// Only one id is that of the first page that takes a record.
pub proof fn lemma_first_fit_unique(file: Seq<u8>, page_size: int, len: int, k: int)
    requires
        is_first_fit(file, page_size, len, k),
    ensures
        k == first_fit(file, page_size, len),
{
    let f = first_fit(file, page_size, len);
    if k < f {
        assert(has_page(file, page_size, k));
    } else if f < k {
        assert(has_page(file, page_size, f));
    }
}

/// The file after the record `r` was inserted: into the first page in id
/// order that takes it, which is then written back under its own id, or,
/// where no page takes it, into a page that is allocated for it.
pub open spec fn inserted(file: Seq<u8>, page_size: int, r: Seq<u8>) -> Seq<u8> {
    let k = first_fit(file, page_size, r.len() as int);
    if k <= MetadataView::parse(file).number_of_pages {
        let page = page_of(file, page_size, k);
        with_page(file, page_size, page.page_id, page.insert(r))
    } else {
        let page = allocated_page(file, page_size);
        with_page(allocated(file, page_size), page_size, page.page_id, page.insert(r))
    }
}

/// The wanted rows of two runs of rows are those of the one and then those
/// of the other.
pub proof fn lemma_selection_concat(
    first: Seq<Seq<CellView>>,
    second: Seq<Seq<CellView>>,
    wanted: Option<(int, CellView)>,
)
    ensures
        selection(first + second, wanted) == selection(first, wanted) + selection(second, wanted),
    decreases second.len(),
{
    match wanted {
        None => {},
        Some((index, cell)) => {
            if second.len() == 0 {
                assert(first + second =~= first);
                assert(matching(first, index, cell) + matching(second, index, cell) =~= matching(
                    first,
                    index,
                    cell,
                ));
            } else {
                lemma_selection_concat(first, second.drop_last(), wanted);
                assert((first + second).drop_last() =~= first + second.drop_last());
                assert((first + second).last() == second.last());
                if second.last()[index] == cell {
                    assert(matching(first + second, index, cell) =~= matching(first, index, cell)
                        + matching(second, index, cell));
                }
            }
        },
    }
}

/// Whether a record of `len` bytes can be inserted into the file, in a store
/// whose files do not exceed `capacity`: the file has a header, its pages
/// are there up to the first that takes the record, and that page can be
/// written back under its id; or none takes it, and a page can be allocated
/// that does.
pub open spec fn insertable(file: Seq<u8>, page_size: int, capacity: int, len: int) -> bool {
    let k = first_fit(file, page_size, len);
    &&& MetadataView::is_image(file)
    &&& is_first_fit(file, page_size, len, k)
    &&& if k <= MetadataView::parse(file).number_of_pages {
        can_write_page(
            Some(file),
            capacity,
            page_size,
            page_of(file, page_size, k).page_id,
            page_size,
        )
    } else {
        can_allocate_page(file, capacity, page_size) && allocated_page(
            file,
            page_size,
        ).can_insert(len)
    }
}

/// What an insertion of a record of `len` bytes that cannot be done says:
/// which step it failed at. The header could not be read; a page could not
/// be read before one took the record; the page that took it could not be
/// written back; no page could be allocated; or the page that was allocated
/// did not take the record either.
pub open spec fn refusal_reason(file: Seq<u8>, page_size: int, capacity: int, len: int) -> Seq<
    char,
> {
    let k = first_fit(file, page_size, len);
    if !MetadataView::is_image(file) {
        "Cannot retrieve page iterator"@
    } else if !is_first_fit(file, page_size, len, k) {
        "Cannot read page"@
    } else if k <= MetadataView::parse(file).number_of_pages {
        "Cannot write page"@
    } else if !can_allocate_page(file, capacity, page_size) {
        "Cannot allocate page"@
    } else {
        "Failed to insert row into page."@
    }
}

/// What a scan of a file that cannot be scanned says: the header could not
/// be read, a page could not be read, or a record is no row of the schema.
/// Where pages are missing and records are no rows, the scan says what it
/// meets first.
pub open spec fn scan_failure(
    file: Seq<u8>,
    page_size: int,
    types: Seq<ColumnType>,
    text: Seq<char>,
) -> bool {
    if !MetadataView::is_image(file) {
        text == "Couldn't read metadata"@
    } else if has_pages(file, page_size, MetadataView::parse(file).number_of_pages) {
        text == "Cell deserialization error"@
    } else {
        text == "Failed to read page from file."@ || text == "Cell deserialization error"@
    }
}

/// The file after an insertion of a record of `len` bytes that failed: it is
/// as it was, but where a page was allocated that did not take the record
/// either.
pub open spec fn after_refusal(file: Seq<u8>, page_size: int, capacity: int, len: int) -> Seq<
    u8,
> {
    let k = first_fit(file, page_size, len);
    if MetadataView::is_image(file) && is_first_fit(file, page_size, len, k) && k
        > MetadataView::parse(file).number_of_pages && can_allocate_page(
        file,
        capacity,
        page_size,
    ) {
        allocated(file, page_size)
    } else {
        file
    }
}

/// Where a page is missing before any page took the record, no page is the
/// first to take it.
pub proof fn lemma_no_first_fit(file: Seq<u8>, page_size: int, len: int, k: int, f: int)
    requires
        1 <= k <= MetadataView::parse(file).number_of_pages,
        !has_page(file, page_size, k),
        forall|j: int|
            1 <= j < k ==> #[trigger] has_page(file, page_size, j) && !page_of(
                file,
                page_size,
                j,
            ).can_insert(len),
    ensures
        !is_first_fit(file, page_size, len, f),
{
    if is_first_fit(file, page_size, len, f) {
        if f < k {
            assert(has_page(file, page_size, f));
        } else if f > k {
            assert(has_page(file, page_size, k));
        }
    }
}

/// The live records of the pages with the ids from `lo + 1` to `hi`.
pub open spec fn records_from(file: Seq<u8>, page_size: int, lo: int, hi: int) -> Seq<
    (int, Seq<u8>),
>
    decreases hi - lo,
{
    if hi <= lo {
        Seq::empty()
    } else {
        records_from(file, page_size, lo, hi - 1) + page_of(file, page_size, hi).live_records()
    }
}

/// The records of the first `hi` pages are those of the first `lo` and then
/// those of the pages from `lo + 1` to `hi`.
pub proof fn lemma_file_records_split(file: Seq<u8>, page_size: int, lo: int, hi: int)
    requires
        0 <= lo <= hi,
    ensures
        file_records(file, page_size, hi) == file_records(file, page_size, lo) + records_from(
            file,
            page_size,
            lo,
            hi,
        ),
    decreases hi - lo,
{
    if lo < hi {
        lemma_file_records_split(file, page_size, lo, hi - 1);
        assert(file_records(file, page_size, hi) =~= file_records(file, page_size, lo)
            + records_from(file, page_size, lo, hi));
    } else {
        assert(file_records(file, page_size, hi) =~= file_records(file, page_size, lo)
            + records_from(file, page_size, lo, hi));
    }
}

/// Two files that hold the same pages from `lo + 1` to `hi` hold the same
/// records there.
pub proof fn lemma_records_from_agree(
    file: Seq<u8>,
    other: Seq<u8>,
    page_size: int,
    lo: int,
    hi: int,
)
    requires
        forall|j: int|
            lo < j <= hi ==> #[trigger] page_of(file, page_size, j) == page_of(other, page_size, j),
    ensures
        records_from(file, page_size, lo, hi) == records_from(other, page_size, lo, hi),
    decreases hi - lo,
{
    if lo < hi {
        lemma_records_from_agree(file, other, page_size, lo, hi - 1);
        assert(page_of(file, page_size, hi) == page_of(other, page_size, hi));
    }
}

/// The rows of two runs of records are the rows of the one and then the rows
/// of the other.
pub proof fn lemma_record_rows_concat(
    first: Seq<(int, Seq<u8>)>,
    second: Seq<(int, Seq<u8>)>,
    types: Seq<ColumnType>,
)
    ensures
        record_rows(first + second, types) == record_rows(first, types) + record_rows(
            second,
            types,
        ),
        records_are_rows(first + second, types) <==> records_are_rows(first, types)
            && records_are_rows(second, types),
{
    let both = first + second;
    assert(record_rows(both, types) =~= record_rows(first, types) + record_rows(second, types));
    if records_are_rows(both, types) {
        assert forall|i: int| 0 <= i < first.len() implies parse_row(
            (#[trigger] first[i]).1,
            types,
        ) is Some by {
            assert(both[i] == first[i]);
        }
        assert forall|i: int| 0 <= i < second.len() implies parse_row(
            (#[trigger] second[i]).1,
            types,
        ) is Some by {
            assert(both[first.len() + i] == second[i]);
        }
    }
    if records_are_rows(first, types) && records_are_rows(second, types) {
        assert forall|i: int| 0 <= i < both.len() implies parse_row(
            (#[trigger] both[i]).1,
            types,
        ) is Some by {
            if i < first.len() {
                assert(both[i] == first[i]);
            } else {
                assert(both[i] == second[i - first.len()]);
            }
        }
    }
}

} // verus!
