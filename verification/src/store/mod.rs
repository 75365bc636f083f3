//! The store: where the page files of the tables are kept.

pub mod file_model;
pub mod memory_store;

use vstd::prelude::*;
use vstd::string::StringExecFns;
use crate::data::layout::{PageDataLayout, FILE_HEADER_SIZE};
use crate::data::metadata::{MetadataView, PageFileMetadata};
use crate::data::page::Page;
use crate::store::file_model::{
    allocated,
    allocated_page,
    can_allocate_page,
    can_write_page,
    has_page,
    initialized,
    page_of,
    reaches_page,
    with_page,
};
use crate::data::page::RecordIterator;
use crate::table::table::{parse_row, CellDeserializationError, CellView, Row, Table};
use crate::table::{ColumnType, TableSchema};

verus! {

/// Why the store could not do what it was asked.
#[derive(Debug)]
pub enum StoreError {
    /// Reading or writing failed, or the file is shorter than what was to be
    /// read from it.
    IoError(String),
    /// The bytes read are not what they should be.
    DeserializationError(String),
}

impl StoreError {
    /// The message that describes the failure as a mathematical value.
    pub open spec fn spec_message(&self) -> Seq<char> {
        match self {
            StoreError::IoError(text) => "StoreError - I/O Error: "@ + text@,
            StoreError::DeserializationError(text) => "StoreError - Deserialization Error: "@
                + text@,
        }
    }

    /// The detail of the failure as a mathematical value.
    pub open spec fn detail(&self) -> Seq<char> {
        match self {
            StoreError::IoError(text) => text@,
            StoreError::DeserializationError(text) => text@,
        }
    }

    /// The message that describes the failure.
    pub fn message(&self) -> (text: String)
        ensures
            text@ == self.spec_message(),
    {
        match self {
            StoreError::IoError(detail) => {
                let mut text = String::from_str("StoreError - I/O Error: ");
                text.append(detail.as_str());
                text
            },
            StoreError::DeserializationError(detail) => {
                let mut text = String::from_str("StoreError - Deserialization Error: ");
                text.append(detail.as_str());
                text
            },
        }
    }
}

/// Keeps one page file for each table, found by the table's id. Every
/// operation may fail.
///
/// A store may keep account of its files: then `modelled` holds of it, `file`
/// says what bytes it holds for a table, and the contracts say what each
/// operation that did not fail has read from these bytes or done to them,
/// and which files it left alone either way. Of a store that keeps no
/// account the contracts say only that the pages it hands out are well
/// formed.
///
/// A store that keeps account may also be `reliable`: it fails only where
/// what is asked for is not in its files, or where what is to be written has
/// no place in them. The contracts then say just when each operation fails,
/// and what it leaves behind when it does.
pub trait Store {
    /// Whether the store keeps account of its files.
    open spec fn modelled(&self) -> bool {
        false
    }

    /// The bytes of the page file of the table with id `table_id`; `None`
    /// where the store has no such file.
    open spec fn file(&self, table_id: int) -> Option<Seq<u8>> {
        None
    }

    /// Whether the store fails only where its files leave it no choice.
    open spec fn reliable(&self) -> bool {
        false
    }

    /// The length that no file of the store can exceed.
    open spec fn capacity(&self) -> int {
        0
    }

    /// Reads the header of the table's page file. A file that does not exist
    /// is made first, with the header of a file without pages.
    fn read_metadata(&mut self, layout: &PageDataLayout, table: &Table) -> (r: Result<
        PageFileMetadata,
        StoreError,
    >)
        ensures
            final(self).modelled() == old(self).modelled(),
            final(self).reliable() == old(self).reliable(),
            final(self).capacity() == old(self).capacity(),
            old(self).modelled() ==> forall|t: int|
                t != table.id ==> final(self).file(t) == old(self).file(t),
            old(self).modelled() && old(self).file(table.id as int) is Some ==> final(self).file(
                table.id as int,
            ) == old(self).file(table.id as int),
            old(self).modelled() && r is Ok ==> final(self).file(table.id as int) == Some(
                initialized(old(self).file(table.id as int)),
            ) && MetadataView::is_image(initialized(old(self).file(table.id as int)))
                && r->Ok_0@ == MetadataView::parse(initialized(old(self).file(table.id as int))),
            old(self).modelled() && old(self).reliable() ==> final(self).file(table.id as int)
                == Some(initialized(old(self).file(table.id as int))) && (r is Ok
                <==> MetadataView::is_image(initialized(old(self).file(table.id as int)))),
            old(self).modelled() && old(self).reliable() && r is Err ==> (r->Err_0 is IoError
                <==> initialized(old(self).file(table.id as int)).len() < FILE_HEADER_SIZE),
    ;

    /// Reads the page with id `page_id` from the table's page file.
    fn read_page<'db>(&self, layout: &'db PageDataLayout, page_id: i32, table: &Table) -> (r:
        Result<Page<'db>, StoreError>)
        ensures
            r is Ok ==> r->Ok_0.wf(),
            self.modelled() && r is Ok ==> self.file(table.id as int) is Some && has_page(
                self.file(table.id as int)->Some_0,
                layout.spec_page_size(),
                page_id as int,
            ) && r->Ok_0@ == page_of(
                self.file(table.id as int)->Some_0,
                layout.spec_page_size(),
                page_id as int,
            ),
            self.modelled() && self.reliable() ==> (r is Ok <==> self.file(table.id as int) is Some
                && has_page(
                self.file(table.id as int)->Some_0,
                layout.spec_page_size(),
                page_id as int,
            )),
            self.modelled() && self.reliable() && r is Err ==> (r->Err_0 is IoError
                <==> !reaches_page(
                self.file(table.id as int),
                layout.spec_page_size(),
                page_id as int,
            )),
    ;

    /// Writes `page` to the place of its id in the table's page file, which
    /// must exist.
    fn write_page(&mut self, layout: &PageDataLayout, page: &Page, table: &Table) -> (r: Result<
        (),
        StoreError,
    >)
        requires
            page.wf(),
        ensures
            final(self).modelled() == old(self).modelled(),
            final(self).reliable() == old(self).reliable(),
            final(self).capacity() == old(self).capacity(),
            old(self).modelled() ==> forall|t: int|
                t != table.id ==> final(self).file(t) == old(self).file(t),
            old(self).modelled() && r is Ok ==> page@.page_id >= 1 && old(self).file(
                table.id as int,
            ) is Some && final(self).file(table.id as int) == Some(
                with_page(
                    old(self).file(table.id as int)->Some_0,
                    layout.spec_page_size(),
                    page@.page_id,
                    page@,
                ),
            ),
            old(self).modelled() && old(self).reliable() ==> (r is Ok <==> can_write_page(
                old(self).file(table.id as int),
                old(self).capacity(),
                layout.spec_page_size(),
                page@.page_id,
                page@.page_size,
            )) && (r is Err ==> r->Err_0 is IoError && final(self).file(table.id as int) == old(
                self,
            ).file(table.id as int)),
    ;

    /// Allocates a page in the table's page file: takes the next id from the
    /// header, writes the header back, and writes an empty page with that id
    /// to its place.
    fn allocate_page<'db>(&mut self, layout: &'db PageDataLayout, table: &Table) -> (r: Result<
        Page<'db>,
        StoreError,
    >)
        ensures
            final(self).modelled() == old(self).modelled(),
            final(self).reliable() == old(self).reliable(),
            final(self).capacity() == old(self).capacity(),
            r is Ok ==> r->Ok_0.wf(),
            old(self).modelled() ==> forall|t: int|
                t != table.id ==> final(self).file(t) == old(self).file(t),
            old(self).modelled() && old(self).reliable() ==> (r is Ok <==> can_allocate_page(
                initialized(old(self).file(table.id as int)),
                old(self).capacity(),
                layout.spec_page_size(),
            )) && (r is Err ==> final(self).file(table.id as int) == Some(
                initialized(old(self).file(table.id as int)),
            )),
            old(self).modelled() && old(self).reliable() && r is Err ==> (
            r->Err_0 is DeserializationError <==> initialized(
                old(self).file(table.id as int),
            ).len() >= FILE_HEADER_SIZE && !MetadataView::is_image(
                initialized(old(self).file(table.id as int)),
            )),
            old(self).modelled() && r is Ok ==> MetadataView::is_image(
                initialized(old(self).file(table.id as int)),
            ) && MetadataView::parse(initialized(old(self).file(table.id as int))).can_allocate()
                && final(self).file(table.id as int) == Some(
                allocated(initialized(old(self).file(table.id as int)), layout.spec_page_size()),
            ) && r->Ok_0@ == allocated_page(
                initialized(old(self).file(table.id as int)),
                layout.spec_page_size(),
            ),
    ;
}

/// Yields the pages of a table's page file in the order of their ids, from 1
/// up to the page count that the header of the file stated when the iterator
/// was made. Each page is read from the store when it is asked for.
pub struct PageIterator<'s, 'db, S: Store> {
    layout: &'db PageDataLayout,
    store: &'s S,
    table: &'s Table,
    current_page_id: i64,
    total_pages: i32,
}

impl<'s, 'db, S: Store> PageIterator<'s, 'db, S> {
    /// Whether the store keeps account of its files.
    pub closed spec fn modelled(&self) -> bool {
        self.store.modelled()
    }

    /// Whether the store fails only where its files leave it no choice.
    pub closed spec fn reliable(&self) -> bool {
        self.store.reliable()
    }

    /// The bytes of the file that is iterated, as the store holds them.
    pub closed spec fn file(&self) -> Option<Seq<u8>> {
        self.store.file(self.table.id as int)
    }

    /// The page size that the pages are read with.
    pub closed spec fn page_size(&self) -> int {
        self.layout.spec_page_size()
    }

    /// The id of the page that is read next.
    pub closed spec fn position(&self) -> int {
        self.current_page_id as int
    }

    /// The id of the last page that is read.
    pub closed spec fn total(&self) -> int {
        self.total_pages as int
    }

    /// The invariant of the iterator: it stands at a page of the file or
    /// just behind the last.
    pub open spec fn wf(&self) -> bool {
        1 <= self.position() <= self.total() + 1
    }

    /// An iterator over the pages of the table's page file. Reads the header
    /// of the file, which makes the file where it does not exist.
    pub fn new(table: &'s Table, store: &'s mut S, layout: &'db PageDataLayout) -> (r: Result<
        PageIterator<'s, 'db, S>,
        StoreError,
    >)
        ensures
            final(store).modelled() == old(store).modelled(),
            final(store).reliable() == old(store).reliable(),
            final(store).capacity() == old(store).capacity(),
            old(store).modelled() ==> forall|t: int|
                t != table.id ==> final(store).file(t) == old(store).file(t),
            old(store).modelled() && old(store).reliable() ==> final(store).file(table.id as int)
                == Some(initialized(old(store).file(table.id as int))) && (r is Ok
                <==> MetadataView::is_image(initialized(old(store).file(table.id as int)))),
            old(store).modelled() && old(store).reliable() && r is Err ==> (r->Err_0 is IoError
                <==> initialized(old(store).file(table.id as int)).len() < FILE_HEADER_SIZE),
            old(store).modelled() && old(store).file(table.id as int) is Some ==> final(store).file(
                table.id as int,
            ) == old(store).file(table.id as int),
            r is Ok ==> r->Ok_0.wf() && r->Ok_0.modelled() == old(store).modelled()
                && r->Ok_0.reliable() == old(store).reliable() && r->Ok_0.page_size()
                == layout.spec_page_size() && r->Ok_0.position() == 1,
            old(store).modelled() && r is Ok ==> final(store).file(table.id as int) == Some(
                initialized(old(store).file(table.id as int)),
            ) && MetadataView::is_image(initialized(old(store).file(table.id as int)))
                && r->Ok_0.file() == final(store).file(table.id as int) && r->Ok_0.total()
                == MetadataView::parse(
                initialized(old(store).file(table.id as int)),
            ).number_of_pages,
    {
        let metadata: PageFileMetadata = match store.read_metadata(layout, table) {
            Ok(metadata) => metadata,
            Err(e) => {
                return Err(e);
            },
        };
        let total_pages: i32 = metadata.number_of_pages();
        Ok(PageIterator { table, layout, store: &*store, current_page_id: 1, total_pages })
    }

    /// The next page, or why it could not be read; `None` behind the last
    /// page. A page that could not be read is passed over.
    pub fn next(&mut self) -> (r: Option<Result<Page<'db>, StoreError>>)
        requires
            old(self).wf(),
        ensures
            final(self).wf(),
            final(self).modelled() == old(self).modelled(),
            final(self).reliable() == old(self).reliable(),
            final(self).file() == old(self).file(),
            final(self).page_size() == old(self).page_size(),
            final(self).total() == old(self).total(),
            r is None <==> old(self).position() > old(self).total(),
            r is None ==> final(self).position() == old(self).position(),
            r is Some ==> final(self).position() == old(self).position() + 1,
            r is Some && r->Some_0 is Ok ==> r->Some_0->Ok_0.wf(),
            old(self).modelled() && r is Some && r->Some_0 is Ok ==> old(self).file() is Some
                && has_page(old(self).file()->Some_0, old(self).page_size(), old(self).position())
                && r->Some_0->Ok_0@ == page_of(
                old(self).file()->Some_0,
                old(self).page_size(),
                old(self).position(),
            ),
            old(self).modelled() && old(self).reliable() && r is Some ==> (r->Some_0 is Ok <==> old(
                self,
            ).file() is Some && has_page(
                old(self).file()->Some_0,
                old(self).page_size(),
                old(self).position(),
            )),
            old(self).modelled() && old(self).reliable() && r is Some && r->Some_0 is Err ==> (
            r->Some_0->Err_0 is IoError <==> !reaches_page(
                old(self).file(),
                old(self).page_size(),
                old(self).position(),
            )),
    {
        if self.current_page_id > self.total_pages as i64 {
            return None;
        }
        let page_id: i32 = self.current_page_id as i32;
        let page = self.store.read_page(self.layout, page_id, self.table);
        self.current_page_id = self.current_page_id + 1;
        Some(page)
    }
}

/// The rows that the given records encode under `types`, in order: of each
/// record what its start spells out.
pub open spec fn record_rows(records: Seq<(int, Seq<u8>)>, types: Seq<ColumnType>) -> Seq<
    Seq<CellView>,
> {
    Seq::new(records.len(), |i: int| parse_row(records[i].1, types)->Some_0.0)
}

/// Whether each of the given records starts with a row under `types`.
pub open spec fn records_are_rows(records: Seq<(int, Seq<u8>)>, types: Seq<ColumnType>) -> bool {
    forall|i: int| 0 <= i < records.len() ==> parse_row((#[trigger] records[i]).1, types) is Some
}

/// Yields the rows of a page: the live records in slot order, each read
/// under the schema, with the index of its slot.
pub struct PageRowIterator<'a> {
    records: RecordIterator<'a, 'a>,
    schema: &'a TableSchema,
}

impl<'a> PageRowIterator<'a> {
    /// The records that are still to come, each with the index of its slot.
    pub closed spec fn remaining(&self) -> Seq<(int, Seq<u8>)> {
        self.records.remaining()
    }

    /// The types of the columns that the rows are read under.
    pub closed spec fn types(&self) -> Seq<ColumnType> {
        self.schema.types()
    }

    /// The invariant of the iterator.
    pub closed spec fn wf(&self) -> bool {
        self.records.wf()
    }

    /// An iterator over the rows of `page` under `schema`.
    pub fn new(page: &'a Page<'a>, schema: &'a TableSchema) -> (it: PageRowIterator<'a>)
        requires
            page.wf(),
        ensures
            it.wf(),
            it.remaining() == page@.live_records(),
            it.types() == schema.types(),
    {
        PageRowIterator { records: page.record_iterator(), schema }
    }

    /// The next row and the index of its slot, or that the next record is no
    /// row under the schema; `None` when no record is left.
    pub fn next(&mut self) -> (r: Option<Result<(usize, Row), CellDeserializationError>>)
        requires
            old(self).wf(),
        ensures
            final(self).wf(),
            final(self).types() == old(self).types(),
            r is None <==> old(self).remaining().len() == 0,
            r is None ==> final(self).remaining().len() == 0,
            r is Some ==> old(self).remaining().len() > 0,
            r is Some ==> final(self).remaining() == old(self).remaining().drop_first(),
            r is Some ==> (r->Some_0 is Ok <==> parse_row(
                old(self).remaining()[0].1,
                old(self).types(),
            ) is Some),
            r is Some && r->Some_0 is Ok ==> r->Some_0->Ok_0.0 == old(self).remaining()[0].0
                && r->Some_0->Ok_0.1@ == parse_row(
                old(self).remaining()[0].1,
                old(self).types(),
            )->Some_0.0,
    {
        match self.records.next() {
            None => None,
            Some((index, bytes)) => {
                assert(old(self).remaining()[0] == (index as int, bytes@));
                assert(self.remaining() =~= old(self).remaining().drop_first());
                match Row::deserialize(bytes, self.schema) {
                    Ok((row, _)) => Some(Ok((index, row))),
                    Err(e) => Some(Err(e)),
                }
            },
        }
    }
}

} // verus!
