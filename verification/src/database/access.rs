//! Table access: inserting rows into a table's page file and scanning them.

use vstd::prelude::*;
use vstd::string::StringExecFns;
use crate::data::layout::PageDataLayout;
use crate::data::metadata::MetadataView;
use crate::data::page::{Page, PageError};
use crate::database::access_model::{
    after_refusal,
    file_records,
    first_fit,
    has_pages,
    insertable,
    inserted,
    is_first_fit,
    lemma_file_records_split,
    lemma_first_fit_unique,
    lemma_no_first_fit,
    lemma_record_rows_concat,
    lemma_selection_concat,
    matching,
    records_from,
    refusal_reason,
    rows_view,
    scan_failure,
    scannable,
    selection,
    table_rows,
    wanted_view,
};
use crate::store::file_model::{has_page, initialized, page_of};
use crate::store::{
    record_rows,
    records_are_rows,
    PageIterator,
    PageRowIterator,
    Store,
    StoreError,
};
use crate::table::table::{
    lemma_parse_cells_count,
    lemma_row_round_trip,
    parse_row,
    row_bytes,
    validation,
    Cell,
    CellDeserializationError,
    CellView,
    Row,
    RowValidationError,
    Table,
    ValidationFailure,
};
use crate::table::{column_index, Column, ColumnType, TableSchema};
use crate::text::{trim, trimmed};

verus! {

/// Why a table could not be written to or read.
#[derive(Debug)]
pub enum TableAccessError {
    /// The row was not inserted.
    InsertRowError(String),
    /// The rows were not loaded.
    LoadRowsError(String),
}

impl TableAccessError {
    /// The message that describes the failure as a mathematical value.
    pub open spec fn spec_message(&self) -> Seq<char> {
        match self {
            TableAccessError::InsertRowError(text) => "TableAccessError - insert error: "@ + text@,
            TableAccessError::LoadRowsError(text) => "TableAccessError - load error: "@ + text@,
        }
    }

    /// Whether this is the failure of an insertion, with `text` as its detail.
    pub open spec fn is_insert_error(&self, text: Seq<char>) -> bool {
        self matches TableAccessError::InsertRowError(detail) && detail@ == text
    }

    /// Whether this is the failure of a scan, with `text` as its detail.
    pub open spec fn is_load_error(&self, text: Seq<char>) -> bool {
        self matches TableAccessError::LoadRowsError(detail) && detail@ == text
    }

    /// Whether this is one of the failures of a scan: the header or a page
    /// could not be read, or a record is no row of the schema.
    pub open spec fn is_scan_error(&self) -> bool {
        ||| self.is_load_error("Couldn't read metadata"@)
        ||| self.is_load_error("Failed to read page from file."@)
        ||| self.is_load_error("Cell deserialization error"@)
    }

    /// Whether this is one of the failures of an insertion behind the
    /// validation of the row: a step of it that the store or the page
    /// refused.
    pub open spec fn is_store_insert_error(&self) -> bool {
        ||| self.is_insert_error("Cannot retrieve page iterator"@)
        ||| self.is_insert_error("Cannot read page"@)
        ||| self.is_insert_error("Cannot write page"@)
        ||| self.is_insert_error("Cannot allocate page"@)
        ||| self.is_insert_error("Failed to insert row into page."@)
        ||| self.is_insert_error("Cannot write new allocated page"@)
    }

    /// The detail of the failure as a mathematical value.
    pub open spec fn detail(&self) -> Seq<char> {
        match self {
            TableAccessError::InsertRowError(text) => text@,
            TableAccessError::LoadRowsError(text) => text@,
        }
    }

    /// The message that describes the failure.
    pub fn message(&self) -> (text: String)
        ensures
            text@ == self.spec_message(),
    {
        match self {
            TableAccessError::InsertRowError(detail) => {
                let mut text = String::from_str("TableAccessError - insert error: ");
                text.append(detail.as_str());
                text
            },
            TableAccessError::LoadRowsError(detail) => {
                let mut text = String::from_str("TableAccessError - load error: ");
                text.append(detail.as_str());
                text
            },
        }
    }

    /// The failure of a table access that a failure of a page stands for: no
    /// room for an insertion, or an unreadable page for a scan.
    pub fn from_page_error(err: PageError) -> (r: TableAccessError)
        ensures
            match err {
                PageError::ReadPageError => r.is_load_error("Failed to read page from file."@),
                _ => r.is_insert_error("Failed to insert row into page."@),
            },
    {
        match err {
            PageError::ReadPageError => TableAccessError::LoadRowsError(
                String::from_str("Failed to read page from file."),
            ),
            _ => TableAccessError::InsertRowError(
                String::from_str("Failed to insert row into page."),
            ),
        }
    }

    /// The failure of an insertion whose row does not fit the schema.
    pub fn from_validation_error(err: &RowValidationError) -> (r: TableAccessError)
        ensures
            r.is_insert_error(validation_message(err@)),
    {
        let mut text = String::from_str("Row validation error: ");
        let detail: String = err.message();
        text.append(detail.as_str());
        TableAccessError::InsertRowError(text)
    }
}

/// What an insertion says of a row that does not fit the schema.
pub open spec fn validation_message(failure: ValidationFailure) -> Seq<char> {
    "Row validation error: "@ + failure.message()
}

/// What a search says of a column that the schema does not have.
pub open spec fn missing_column_message(name: Seq<char>) -> Seq<char> {
    "Column '"@ + name + "' not found!"@
}

/// Adds to `rows` the rows of `page` that are wanted: all of them, or those
/// with a given cell at a given index. Fails where a record of the page is no
/// row of the schema.
fn collect_rows(
    page: &Page,
    schema: &TableSchema,
    wanted: Option<(usize, &Cell)>,
    rows: &mut Vec<Row>,
) -> (r: Result<(), CellDeserializationError>)
    requires
        page.wf(),
        wanted is Some ==> wanted->Some_0.0 < schema.types().len(),
    ensures
        r is Ok <==> records_are_rows(page@.live_records(), schema.types()),
        r is Ok ==> rows_view(final(rows)@) == rows_view(old(rows)@) + selection(
            record_rows(page@.live_records(), schema.types()),
            wanted_view(wanted),
        ),
{
    let ghost types = schema.types();
    let ghost choice = wanted_view(wanted);
    let ghost all = page@.live_records();
    let ghost start = rows_view(rows@);
    let ghost mut consumed = Seq::<(int, Seq<u8>)>::empty();
    let mut page_rows = PageRowIterator::new(page, schema);
    let mut more: bool = true;
    assert(consumed + page_rows.remaining() =~= all);
    assert(start + selection(record_rows(consumed, types), choice) =~= start);
    while more
        invariant
            page_rows.wf(),
            page_rows.types() == types,
            types == schema.types(),
            all == page@.live_records(),
            choice == wanted_view(wanted),
            wanted is Some ==> wanted->Some_0.0 < types.len(),
            consumed + page_rows.remaining() == all,
            !more ==> page_rows.remaining().len() == 0,
            records_are_rows(consumed, types),
            rows_view(rows@) == start + selection(record_rows(consumed, types), choice),
        decreases page_rows.remaining().len() + if more { 1int } else { 0int },
    {
        let ghost remaining = page_rows.remaining();
        match page_rows.next() {
            None => {
                more = false;
            },
            Some(Err(e)) => {
                proof {
                    lemma_record_rows_concat(consumed, remaining, types);
                    assert(parse_row(remaining[0].1, types) is None);
                    assert(!records_are_rows(remaining, types));
                }
                return Err(e);
            },
            Some(Ok((_, row))) => {
                let ghost first = remaining[0];
                let ghost grown = consumed.push(first);
                proof {
                    assert(grown + remaining.drop_first() =~= consumed + remaining);
                    assert(row@ == parse_row(first.1, types)->Some_0.0);
                    assert(record_rows(grown, types) =~= record_rows(consumed, types).push(row@));
                    assert(record_rows(grown, types).drop_last() =~= record_rows(consumed, types));
                    assert forall|i: int| 0 <= i < grown.len() implies parse_row(
                        (#[trigger] grown[i]).1,
                        types,
                    ) is Some by {
                        if i < consumed.len() {
                            assert(grown[i] == consumed[i]);
                        }
                    }
                    lemma_parse_cells_count(first.1, types, types.len() as int);
                    consumed = grown;
                }
                let keep: bool = match wanted {
                    None => true,
                    Some((index, cell)) => {
                        let cells: &Vec<Cell> = row.cells();
                        assert(cells@.len() == row@.len());
                        assert(cells@[index as int]@ == row@[index as int]);
                        cells[index].equals(cell)
                    },
                };
                if keep {
                    assert(rows_view(rows@.push(row)) =~= rows_view(rows@).push(row@));
                    assert(start + selection(record_rows(consumed, types), choice) =~= (start
                        + selection(record_rows(consumed, types).drop_last(), choice)).push(row@));
                    rows.push(row);
                }
            },
        }
    }
    assert(consumed =~= all);
    Ok(())
}

/// Reads the pages on from the first until one takes `record`, and hands
/// that page out; `None` where none of the pages takes it. Fails where a page
/// cannot be read before one took the record.
fn first_page_with_room<'s, 'db, S: Store>(
    pages: &mut PageIterator<'s, 'db, S>,
    record: &[u8],
) -> (r: Result<Option<Page<'db>>, StoreError>)
    requires
        old(pages).wf(),
        old(pages).position() == 1,
        old(pages).modelled() ==> old(pages).file() is Some && old(pages).total()
            == MetadataView::parse(old(pages).file()->Some_0).number_of_pages,
    ensures
        r is Ok && r->Ok_0 is Some ==> r->Ok_0->Some_0.wf() && r->Ok_0->Some_0@.can_insert(
            record@.len() as int,
        ),
        old(pages).modelled() && r is Ok ==> is_first_fit(
            old(pages).file()->Some_0,
            old(pages).page_size(),
            record@.len() as int,
            first_fit(old(pages).file()->Some_0, old(pages).page_size(), record@.len() as int),
        ),
        old(pages).modelled() && r is Ok && r->Ok_0 is Some ==> first_fit(
            old(pages).file()->Some_0,
            old(pages).page_size(),
            record@.len() as int,
        ) <= old(pages).total() && r->Ok_0->Some_0@ == page_of(
            old(pages).file()->Some_0,
            old(pages).page_size(),
            first_fit(old(pages).file()->Some_0, old(pages).page_size(), record@.len() as int),
        ),
        old(pages).modelled() && r is Ok && r->Ok_0 is None ==> first_fit(
            old(pages).file()->Some_0,
            old(pages).page_size(),
            record@.len() as int,
        ) == old(pages).total() + 1,
        old(pages).modelled() && old(pages).reliable() && r is Err ==> !is_first_fit(
            old(pages).file()->Some_0,
            old(pages).page_size(),
            record@.len() as int,
            first_fit(old(pages).file()->Some_0, old(pages).page_size(), record@.len() as int),
        ),
{
    let ghost modelled = pages.modelled();
    let ghost reliable = pages.reliable();
    let ghost file = pages.file()->Some_0;
    let ghost page_size = pages.page_size();
    let ghost total = pages.total();
    let ghost len = record@.len() as int;
    loop
        invariant
            pages.wf(),
            pages.modelled() == modelled,
            pages.reliable() == reliable,
            pages.page_size() == page_size,
            pages.total() == total,
            modelled == old(pages).modelled(),
            reliable == old(pages).reliable(),
            page_size == old(pages).page_size(),
            total == old(pages).total(),
            modelled ==> old(pages).file() == Some(file),
            len == record@.len(),
            modelled ==> pages.file() == Some(file) && total == MetadataView::parse(
                file,
            ).number_of_pages,
            modelled ==> forall|j: int|
                1 <= j < pages.position() ==> #[trigger] has_page(file, page_size, j) && !page_of(
                    file,
                    page_size,
                    j,
                ).can_insert(len),
        decreases total + 1 - pages.position(),
    {
        let ghost k = pages.position();
        match pages.next() {
            None => {
                proof {
                    if modelled {
                        assert(is_first_fit(file, page_size, len, total + 1));
                        lemma_first_fit_unique(file, page_size, len, total + 1);
                    }
                }
                return Ok(None);
            },
            Some(Err(e)) => {
                proof {
                    if modelled && reliable {
                        lemma_no_first_fit(
                            file,
                            page_size,
                            len,
                            k,
                            first_fit(file, page_size, len),
                        );
                    }
                }
                return Err(e);
            },
            Some(Ok(page)) => {
                if page.can_insert(record) {
                    proof {
                        if modelled {
                            assert(is_first_fit(file, page_size, len, k));
                            lemma_first_fit_unique(file, page_size, len, k);
                        }
                    }
                    return Ok(Some(page));
                }
                proof {
                    if modelled {
                        assert forall|j: int| 1 <= j < k + 1 implies #[trigger] has_page(
                            file,
                            page_size,
                            j,
                        ) && !page_of(file, page_size, j).can_insert(len) by {
                            if j == k {
                                assert(has_page(file, page_size, k));
                            }
                        }
                    }
                }
            },
        }
    }
}

/// Access to one table: its schema, the store that keeps its page file, and
/// the layout of its pages.
pub struct TableAccess<'db, S: Store> {
    table: &'db Table,
    store: S,
    layout: &'db PageDataLayout,
}

impl<'db, S: Store> TableAccess<'db, S> {
    /// The store as it is now.
    pub closed spec fn spec_store(&self) -> S {
        self.store
    }

    /// The table that is accessed.
    pub closed spec fn spec_table(&self) -> &Table {
        self.table
    }

    /// The page size of the layout.
    pub closed spec fn page_size(&self) -> int {
        self.layout.spec_page_size()
    }

    /// The bytes of the table's page file, as the store holds them.
    pub open spec fn file(&self) -> Option<Seq<u8>> {
        self.spec_store().file(self.spec_table().id as int)
    }

    /// The bytes of the table's page file once it was read for the first
    /// time: a file that did not exist is made then.
    pub open spec fn opened(&self) -> Seq<u8> {
        initialized(self.file())
    }

    /// The columns of the table.
    pub open spec fn columns(&self) -> Seq<Column> {
        self.spec_table().schema.columns@
    }

    /// The types of the table's columns.
    pub open spec fn types(&self) -> Seq<ColumnType> {
        self.spec_table().schema.types()
    }

    /// The rows of the table, as a scan finds them.
    pub open spec fn rows(&self) -> Seq<Seq<CellView>> {
        table_rows(self.opened(), self.page_size(), self.types())
    }

    /// What holds of the table's page file after a scan that did not fail:
    /// but for being made where it did not exist, it is as it was, and it
    /// could be scanned.
    pub open spec fn scanned(&self, before: &Self) -> bool {
        &&& self.file() == Some(before.opened())
        &&& scannable(before.opened(), before.page_size(), before.types())
    }

    /// Whether the record `r` can be inserted.
    pub open spec fn accepts(&self, r: Seq<u8>) -> bool {
        insertable(self.opened(), self.page_size(), self.capacity(), r.len() as int)
    }

    /// What holds of the table's page file after an insertion of the record
    /// `r` that failed.
    pub open spec fn refused(&self, before: &Self, r: Seq<u8>) -> bool {
        self.file() == Some(
            after_refusal(before.opened(), before.page_size(), before.capacity(), r.len() as int),
        )
    }

    /// What holds of the table's page file after an insertion of the record
    /// `r` that did not fail: the file had a header, its pages were there up
    /// to the first that took the record, and the file is what it was with
    /// the record inserted.
    pub open spec fn took(&self, before: &Self, r: Seq<u8>) -> bool {
        &&& MetadataView::is_image(before.opened())
        &&& is_first_fit(
            before.opened(),
            before.page_size(),
            r.len() as int,
            first_fit(before.opened(), before.page_size(), r.len() as int),
        )
        &&& self.file() == Some(inserted(before.opened(), before.page_size(), r))
    }

    /// Whether the store keeps account of its files. What is said of the
    /// table's page file holds where it does.
    pub open spec fn modelled(&self) -> bool {
        self.spec_store().modelled()
    }

    /// Whether the store keeps account of its files and fails only where
    /// they leave it no choice. It is then told when an operation fails.
    pub open spec fn reliable(&self) -> bool {
        self.spec_store().modelled() && self.spec_store().reliable()
    }

    /// The length that no file of the store can exceed.
    pub open spec fn capacity(&self) -> int {
        self.spec_store().capacity()
    }

    /// What holds after every operation: the table, the layout and the kind
    /// of the store are the same, and the files of other tables are
    /// untouched.
    pub open spec fn same_access(&self, before: &Self) -> bool {
        &&& self.spec_table() == before.spec_table()
        &&& self.page_size() == before.page_size()
        &&& self.modelled() == before.modelled()
        &&& self.reliable() == before.reliable()
        &&& self.capacity() == before.capacity()
        &&& before.modelled() ==> forall|t: int|
            t != self.spec_table().id ==> self.spec_store().file(t) == before.spec_store().file(t)
    }

    /// Access to `table` in `store`, with pages of `layout`.
    pub fn new(table: &'db Table, store: S, layout: &'db PageDataLayout) -> (access: TableAccess<
        'db,
        S,
    >)
        ensures
            access.spec_store() == store,
            access.spec_table() == table,
            access.page_size() == layout.spec_page_size(),
    {
        TableAccess { table, store, layout }
    }

    /// The store.
    pub fn store(&self) -> (store: &S)
        ensures
            *store == self.spec_store(),
    {
        &self.store
    }

    /// Gives the store back.
    pub fn into_store(self) -> (store: S)
        ensures
            store == self.spec_store(),
    {
        self.store
    }

    /// Reads the rows of all pages of the table, in the order of the page ids
    /// and, within a page, of the slots, and keeps those that are wanted: all
    /// of them, or those with a given cell at a given index.
    fn scan(&mut self, wanted: Option<(usize, &Cell)>) -> (r: Result<Vec<Row>, TableAccessError>)
        requires
            wanted is Some ==> wanted->Some_0.0 < old(self).types().len(),
        ensures
            final(self).same_access(old(self)),
            old(self).modelled() && old(self).file() is Some ==> final(self).file() == old(
                self,
            ).file(),
            old(self).modelled() && r is Ok ==> final(self).scanned(old(self)) && rows_view(
                r->Ok_0@,
            ) == selection(old(self).rows(), wanted_view(wanted)),
            old(self).reliable() ==> final(self).file() == Some(old(self).opened()) && (r is Ok
                <==> scannable(old(self).opened(), old(self).page_size(), old(self).types())),
            old(self).reliable() && r is Err ==> scan_failure(
                old(self).opened(),
                old(self).page_size(),
                old(self).types(),
                r->Err_0.detail(),
            ),
            r is Err ==> r->Err_0.is_scan_error(),
    {
        let ghost file = initialized(old(self).file());
        let ghost page_size = self.page_size();
        let ghost types = self.types();
        let ghost choice = wanted_view(wanted);
        let ghost modelled = self.modelled();
        let ghost reliable = self.reliable();
        let mut rows: Vec<Row> = Vec::new();
        let mut pages = match PageIterator::new(self.table, &mut self.store, self.layout) {
            Ok(pages) => pages,
            Err(_) => {
                return Err(
                    TableAccessError::LoadRowsError(String::from_str("Couldn't read metadata")),
                );
            },
        };
        let ghost total = pages.total();
        let mut more: bool = true;
        #[verifier::loop_isolation(false)]
        while more
            invariant
                pages.wf(),
                pages.modelled() == modelled,
                reliable ==> modelled && pages.reliable(),
                pages.page_size() == page_size,
                pages.total() == total,
                pages.position() <= total + 1 || !more,
                !more ==> pages.position() > total,
                modelled ==> total == MetadataView::parse(file).number_of_pages,
                modelled ==> pages.file() == Some(file) && 1 <= pages.position() <= total + 1
                    && has_pages(file, page_size, pages.position() - 1) && records_are_rows(
                    file_records(file, page_size, pages.position() - 1),
                    types,
                ) && rows_view(rows@) == selection(
                    record_rows(file_records(file, page_size, pages.position() - 1), types),
                    choice,
                ),
            decreases total + 1 - pages.position() + if more { 1int } else { 0int },
        {
            let ghost k = pages.position();
            match pages.next() {
                None => {
                    more = false;
                },
                Some(Err(_)) => {
                    assert(reliable ==> !has_page(file, page_size, k));
                    return Err(TableAccessError::from_page_error(PageError::ReadPageError));
                },
                Some(Ok(page)) => {
                    let ghost before = file_records(file, page_size, k - 1);
                    let ghost here = page@.live_records();
                    proof {
                        if modelled {
                            lemma_record_rows_concat(before, here, types);
                            lemma_selection_concat(
                                record_rows(before, types),
                                record_rows(here, types),
                                choice,
                            );
                            lemma_file_records_split(file, page_size, k, total);
                            lemma_record_rows_concat(
                                file_records(file, page_size, k),
                                records_from(file, page_size, k, total),
                                types,
                            );
                        }
                    }
                    match collect_rows(&page, self.table.schema(), wanted, &mut rows) {
                        Ok(()) => {},
                        Err(e) => {
                            return Err(TableAccessError::LoadRowsError(e.message()));
                        },
                    }
                },
            }
        }
        Ok(rows)
    }

    /// Loads the rows of all pages of the table, in the order of the page
    /// ids and, within a page, of the slots.
    pub fn load_all(&mut self) -> (r: Result<Vec<Row>, TableAccessError>)
        ensures
            final(self).same_access(old(self)),
            old(self).modelled() && old(self).file() is Some ==> final(self).file() == old(
                self,
            ).file(),
            old(self).modelled() && r is Ok ==> final(self).scanned(old(self)) && rows_view(
                r->Ok_0@,
            ) == old(self).rows(),
            old(self).reliable() ==> final(self).file() == Some(old(self).opened()) && (r is Ok
                <==> scannable(old(self).opened(), old(self).page_size(), old(self).types())),
            old(self).reliable() && r is Err ==> scan_failure(
                old(self).opened(),
                old(self).page_size(),
                old(self).types(),
                r->Err_0.detail(),
            ),
            r is Err ==> r->Err_0.is_scan_error(),
    {
        self.scan(None)
    }

    /// Finds the rows whose cell at the index `index` is `cell`, by a scan of
    /// the whole table: the rows of all pages in the order of the page ids
    /// and, within a page, of the slots, of which those are kept that have
    /// the cell.
    pub fn find_in_column(&mut self, index: usize, cell: &Cell) -> (r: Result<
        Vec<Row>,
        TableAccessError,
    >)
        requires
            index < old(self).columns().len(),
        ensures
            final(self).same_access(old(self)),
            old(self).modelled() && old(self).file() is Some ==> final(self).file() == old(
                self,
            ).file(),
            old(self).modelled() && r is Ok ==> final(self).scanned(old(self)) && rows_view(
                r->Ok_0@,
            ) == matching(old(self).rows(), index as int, cell@),
            old(self).reliable() ==> final(self).file() == Some(old(self).opened()) && (r is Ok
                <==> scannable(old(self).opened(), old(self).page_size(), old(self).types())),
            old(self).reliable() && r is Err ==> scan_failure(
                old(self).opened(),
                old(self).page_size(),
                old(self).types(),
                r->Err_0.detail(),
            ),
            r is Err ==> r->Err_0.is_scan_error(),
    {
        self.scan(Some((index, cell)))
    }

    /// Finds the rows whose cell in the column named `col_name` is `cell`, by
    /// a scan of the whole table. The name is taken without the white space
    /// around it. Fails, before anything is read, where no column has that
    /// name.
    pub fn find(&mut self, col_name: &str, cell: Cell) -> (r: Result<Vec<Row>, TableAccessError>)
        ensures
            final(self).same_access(old(self)),
            old(self).modelled() && old(self).file() is Some ==> final(self).file() == old(
                self,
            ).file(),
            column_index(old(self).columns(), trimmed(col_name@)) == old(self).columns().len()
                ==> final(self).spec_store() == old(self).spec_store() && r is Err
                && r->Err_0.is_load_error(missing_column_message(col_name@)),
            old(self).modelled() && r is Ok ==> final(self).scanned(old(self)) && rows_view(
                r->Ok_0@,
            ) == matching(
                old(self).rows(),
                column_index(old(self).columns(), trimmed(col_name@)),
                cell@,
            ),
            old(self).reliable() && column_index(old(self).columns(), trimmed(col_name@)) < old(
                self,
            ).columns().len() ==> final(self).file() == Some(old(self).opened()) && (r is Ok
                <==> scannable(old(self).opened(), old(self).page_size(), old(self).types()))
                && (r is Err ==> scan_failure(
                old(self).opened(),
                old(self).page_size(),
                old(self).types(),
                r->Err_0.detail(),
            )),
            r is Err ==> r->Err_0.is_scan_error() || r->Err_0.is_load_error(
                missing_column_message(col_name@),
            ),
    {
        let name: &str = trim(col_name);
        let index: usize = match self.table.schema().column_index(name) {
            Some(index) => index,
            None => {
                let mut text = String::from_str("Column '");
                text.append(col_name);
                text.append("' not found!");
                return Err(TableAccessError::LoadRowsError(text));
            },
        };
        self.find_in_column(index, &cell)
    }

    /// Inserts `row` into the table. The row is held against the schema
    /// first, and nothing is read or written where it does not fit. It then
    /// goes into the first page in id order that takes it, or into a page that
    /// is allocated for it where none does.
    pub fn insert(&mut self, row: &Row) -> (r: Result<(), TableAccessError>)
        ensures
            final(self).same_access(old(self)),
            match validation(row@, old(self).columns()) {
                Some(failure) => final(self).spec_store() == old(self).spec_store() && r is Err
                    && r->Err_0.is_insert_error(validation_message(failure)),
                None => (old(self).modelled() && r is Ok ==> final(self).took(
                    old(self),
                    row_bytes(row@),
                )) && (old(self).reliable() ==> (r is Ok <==> old(self).accepts(row_bytes(row@)))
                    && (r is Err ==> final(self).refused(old(self), row_bytes(row@))
                    && r->Err_0.is_insert_error(
                    refusal_reason(
                        old(self).opened(),
                        old(self).page_size(),
                        old(self).capacity(),
                        row_bytes(row@).len() as int,
                    ),
                ))) && (r is Err ==> r->Err_0.is_store_insert_error()),
            },
            r is Err ==> r->Err_0 is InsertRowError,
    {
        match row.validate(self.table.schema()) {
            Ok(()) => {},
            Err(e) => {
                return Err(TableAccessError::from_validation_error(&e));
            },
        }
        proof {
            lemma_row_round_trip(row@, self.table.schema.columns@, Seq::empty());
        }
        let ghost file = initialized(old(self).file());
        let ghost page_size = self.page_size();
        let ghost modelled = self.modelled();
        let ghost reliable = self.reliable();
        let row_data: Vec<u8> = row.serialize();
        let ghost len = row_data@.len() as int;
        let mut pages = match PageIterator::new(self.table, &mut self.store, self.layout) {
            Ok(pages) => pages,
            Err(_) => {
                return Err(
                    TableAccessError::InsertRowError(
                        String::from_str("Cannot retrieve page iterator"),
                    ),
                );
            },
        };
        let found = match first_page_with_room(&mut pages, row_data.as_slice()) {
            Ok(found) => found,
            Err(_) => {
                return Err(TableAccessError::InsertRowError(String::from_str("Cannot read page")));
            },
        };
        match found {
            Some(mut page) => {
                proof {
                    page@.lemma_insert_valid(row_data@);
                }
                match page.insert_record(row_data) {
                    Ok(()) => {},
                    Err(e) => {
                        return Err(TableAccessError::from_page_error(e));
                    },
                }
                match self.store.write_page(self.layout, &page, self.table) {
                    Ok(()) => {},
                    Err(_) => {
                        return Err(
                            TableAccessError::InsertRowError(String::from_str("Cannot write page")),
                        );
                    },
                }
            },
            None => {
                let mut page = match self.store.allocate_page(self.layout, self.table) {
                    Ok(page) => page,
                    Err(_) => {
                        return Err(
                            TableAccessError::InsertRowError(
                                String::from_str("Cannot allocate page"),
                            ),
                        );
                    },
                };
                proof {
                    if page@.can_insert(len) {
                        page@.lemma_insert_valid(row_data@);
                    }
                }
                match page.insert_record(row_data) {
                    Ok(()) => {},
                    Err(e) => {
                        return Err(TableAccessError::from_page_error(e));
                    },
                }
                match self.store.write_page(self.layout, &page, self.table) {
                    Ok(()) => {},
                    Err(_) => {
                        return Err(
                            TableAccessError::InsertRowError(
                                String::from_str("Cannot write new allocated page"),
                            ),
                        );
                    },
                }
            },
        }
        Ok(())
    }
}

} // verus!
