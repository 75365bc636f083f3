use pagedb::data::layout::PageDataLayout;
use pagedb::data::metadata::PageFileMetadata;
use pagedb::data::page::Page;
use pagedb::database::access::{TableAccess, TableAccessError};
use pagedb::store::memory_store::MemoryStore;
use pagedb::store::{Store, StoreError};
use pagedb::table::table::{Cell, Row, Table};
use pagedb::table::{Column, ColumnType, TableSchema};

/// A store of its own making: it passes every call on, but for the calls
/// that it was told to fail.
struct Failing {
    inner: MemoryStore,
    metadata_reads_left: usize,
    page_reads_left: std::cell::Cell<usize>,
    writes_left: usize,
    allocations_left: usize,
}

impl Failing {
    fn new() -> Self {
        Failing {
            inner: MemoryStore::new(),
            metadata_reads_left: usize::MAX,
            page_reads_left: std::cell::Cell::new(usize::MAX),
            writes_left: usize::MAX,
            allocations_left: usize::MAX,
        }
    }
}

fn failure() -> StoreError {
    StoreError::IoError("device gone".to_string())
}

impl Store for Failing {
    fn read_metadata(
        &mut self,
        layout: &PageDataLayout,
        table: &Table,
    ) -> Result<PageFileMetadata, StoreError> {
        if self.metadata_reads_left == 0 {
            return Err(failure());
        }
        self.metadata_reads_left -= 1;
        self.inner.read_metadata(layout, table)
    }

    fn read_page<'db>(
        &self,
        layout: &'db PageDataLayout,
        page_id: i32,
        table: &Table,
    ) -> Result<Page<'db>, StoreError> {
        if self.page_reads_left.get() == 0 {
            return Err(failure());
        }
        self.page_reads_left.set(self.page_reads_left.get() - 1);
        self.inner.read_page(layout, page_id, table)
    }

    fn write_page(
        &mut self,
        layout: &PageDataLayout,
        page: &Page,
        table: &Table,
    ) -> Result<(), StoreError> {
        if self.writes_left == 0 {
            return Err(failure());
        }
        self.writes_left -= 1;
        self.inner.write_page(layout, page, table)
    }

    fn allocate_page<'db>(
        &mut self,
        layout: &'db PageDataLayout,
        table: &Table,
    ) -> Result<Page<'db>, StoreError> {
        if self.allocations_left == 0 {
            return Err(failure());
        }
        self.allocations_left -= 1;
        self.inner.allocate_page(layout, table)
    }
}

fn numbers() -> Table {
    Table::new(
        7,
        "numbers".to_owned(),
        TableSchema::new(vec![Column::new(1, "n", ColumnType::Int)]),
    )
}

fn number(n: i32) -> Row {
    Row::new(vec![Cell::Int(n)])
}

fn insert_error(err: TableAccessError) -> String {
    match err {
        TableAccessError::InsertRowError(text) => text,
        other => panic!("{:?}", other),
    }
}

fn load_error(err: TableAccessError) -> String {
    match err {
        TableAccessError::LoadRowsError(text) => text,
        other => panic!("{:?}", other),
    }
}

#[test]
fn a_store_of_ones_own_serves_table_access() {
    let table = numbers();
    let layout = PageDataLayout::new(64).unwrap();
    let mut access = TableAccess::new(&table, Failing::new(), &layout);
    for n in 0..10 {
        access.insert(&number(n)).unwrap();
    }
    let rows = access.load_all().unwrap();
    assert_eq!(rows.len(), 10);
    for n in 0..10 {
        assert_eq!(rows[n].cells(), number(n as i32).cells());
    }
    let found = access.find("n", Cell::Int(4)).unwrap();
    assert_eq!(found.len(), 1);
    assert_eq!(found[0].cells(), number(4).cells());
}

#[test]
fn insert_says_which_step_failed() {
    let table = numbers();
    let layout = PageDataLayout::new(64).unwrap();

    let mut store = Failing::new();
    store.metadata_reads_left = 0;
    let mut access = TableAccess::new(&table, store, &layout);
    assert_eq!(
        insert_error(access.insert(&number(1)).unwrap_err()),
        "Cannot retrieve page iterator"
    );

    let mut store = Failing::new();
    store.allocations_left = 0;
    let mut access = TableAccess::new(&table, store, &layout);
    assert_eq!(insert_error(access.insert(&number(1)).unwrap_err()), "Cannot allocate page");

    // the allocation writes the empty page itself; the write of the row fails
    let mut store = Failing::new();
    store.writes_left = 0;
    let mut access = TableAccess::new(&table, store, &layout);
    assert_eq!(
        insert_error(access.insert(&number(1)).unwrap_err()),
        "Cannot write new allocated page"
    );

    let mut store = Failing::new();
    store.writes_left = 1;
    let mut access = TableAccess::new(&table, store, &layout);
    access.insert(&number(1)).unwrap();
    assert_eq!(insert_error(access.insert(&number(2)).unwrap_err()), "Cannot write page");

    let mut store = Failing::new();
    store.page_reads_left.set(0);
    let mut access = TableAccess::new(&table, store, &layout);
    access.insert(&number(1)).unwrap();
    assert_eq!(insert_error(access.insert(&number(2)).unwrap_err()), "Cannot read page");
}

#[test]
fn scans_say_which_step_failed() {
    let table = numbers();
    let layout = PageDataLayout::new(64).unwrap();

    let mut store = Failing::new();
    store.metadata_reads_left = 1;
    let mut access = TableAccess::new(&table, store, &layout);
    access.insert(&number(1)).unwrap();
    assert_eq!(load_error(access.load_all().unwrap_err()), "Couldn't read metadata");
    assert_eq!(load_error(access.find("n", Cell::Int(1)).unwrap_err()), "Couldn't read metadata");

    let mut store = Failing::new();
    store.page_reads_left.set(1);
    let mut access = TableAccess::new(&table, store, &layout);
    access.insert(&number(1)).unwrap();
    assert_eq!(access.load_all().unwrap().len(), 1);
    assert_eq!(load_error(access.load_all().unwrap_err()), "Failed to read page from file.");
}

#[test]
fn store_errors_have_messages() {
    assert_eq!(failure().message(), "StoreError - I/O Error: device gone");
    assert_eq!(
        StoreError::DeserializationError("bad".to_string()).message(),
        "StoreError - Deserialization Error: bad"
    );
    assert_eq!(
        pagedb::data::page::PageError::InsertRowError.message(),
        "Failed to insert row into page. Page is full."
    );
    assert_eq!(
        pagedb::data::page::PageError::ReadPageError.message(),
        "Failed to read page from file."
    );
    assert_eq!(pagedb::data::page::PageError::InvalidPageSize.message(), "Invalid page size.");
}
