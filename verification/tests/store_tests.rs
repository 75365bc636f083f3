use pagedb::data::page::{Page, PageDataLayout};
use pagedb::store::memory_store::MemoryStore;
use pagedb::store::{PageIterator, Store, StoreError};
use pagedb::table::table::{Cell, Row, Table};
use pagedb::table::{Column, ColumnType, TableSchema};

struct Sequence {
    col_id: i32,
    current: i32,
}

impl Sequence {
    fn serialize(&self) -> Vec<u8> {
        let mut buf = [0; 8];
        buf[0..4].copy_from_slice(&self.col_id.to_be_bytes());
        buf[4..8].copy_from_slice(&self.current.to_be_bytes());
        buf.to_vec()
    }

    fn deserialize(data: &[u8]) -> Self {
        let col_id = i32::from_be_bytes(data[0..4].try_into().unwrap());
        let current = i32::from_be_bytes(data[4..8].try_into().unwrap());

        Self { col_id, current }
    }
}

fn test_table(id: i32) -> Table {
    let schema = TableSchema::new(vec![Column::new(1, "id", ColumnType::Int)]);
    Table::new(id, "test".to_owned(), schema)
}

#[test]
fn should_allocate_and_write_page() {
    let mut store = MemoryStore::new();

    let layout = PageDataLayout::new(128).unwrap();

    let table = test_table(1);

    let mut new_page = store.allocate_page(&layout, &table).unwrap();
    assert_eq!(new_page.page_id(), 1);

    let row = Row::new(vec![Cell::Int(42)]);

    new_page.insert_record(row.serialize()).unwrap();

    store.write_page(&layout, &new_page, &table).unwrap();

    let loaded_page = store.read_page(&layout, 1, &table).unwrap();

    let (row, _) = Row::deserialize(loaded_page.row_data(), table.schema()).unwrap();

    assert_eq!(row.cells().len(), 1);
    assert!(matches!(row.cells().get(0).unwrap(), Cell::Int(42)));

    let mut records = loaded_page.record_iterator();
    let (index, bytes) = records.next().unwrap();
    assert_eq!(index, 0);
    assert_eq!(bytes, &[0, 0, 0, 42]);
    assert!(records.next().is_none());
}

#[test]
fn should_can_allocate_twice() {
    let mut store = MemoryStore::new();

    let layout = PageDataLayout::new(128).unwrap();

    let table = test_table(1);

    // Create first page (stays empty)
    let first_page = store.allocate_page(&layout, &table).unwrap();
    assert_eq!(first_page.page_id(), 1);

    store.write_page(&layout, &first_page, &table).unwrap();

    // Create second page with a row
    let mut second_page = store.allocate_page(&layout, &table).unwrap();
    assert_eq!(second_page.page_id(), 2);

    let row = Row::new(vec![Cell::Int(42)]);

    second_page.insert_record(row.serialize()).unwrap();
    store.write_page(&layout, &second_page, &table).unwrap();
    let loaded_page = store.read_page(&layout, 2, &table).unwrap();

    let (row, _) = Row::deserialize(loaded_page.row_data(), table.schema()).unwrap();

    assert_eq!(row.cells().len(), 1);
    assert!(matches!(row.cells().get(0).unwrap(), Cell::Int(42)));
    assert_eq!(loaded_page.page_id(), 2);

    let first = store.read_page(&layout, 1, &table).unwrap();
    assert_eq!(first.page_id(), 1);
    assert_eq!(first.number_of_records(), 0);
    assert_eq!(first.slots().len(), 0);
    assert_eq!(first.data_offset(), 114);
}

#[test]
fn should_be_able_to_store_arbitrary_data() {
    let mut store = MemoryStore::new();

    let layout = PageDataLayout::new(128).unwrap();

    let table = test_table(1);

    // Create page for sequences
    let mut seq_page = store.allocate_page(&layout, &table).unwrap();

    let seq = Sequence { col_id: 1, current: 3 };

    seq_page.insert_record(seq.serialize()).unwrap();
    store.write_page(&layout, &seq_page, &table).unwrap();

    let loaded_page = store.read_page(&layout, 1, &table).unwrap();

    let seq_loaded: Sequence = Sequence::deserialize(loaded_page.row_data());

    assert_eq!(seq_loaded.col_id, 1);
    assert_eq!(seq_loaded.current, 3);
}

#[test]
fn should_iterate_over_pages() {
    let mut store = MemoryStore::new();

    let layout = PageDataLayout::new(32).unwrap();

    let table = test_table(1);

    let mut new_page = store.allocate_page(&layout, &table).unwrap();
    assert_eq!(new_page.page_id(), 1);

    let row = Row::new(vec![Cell::Int(42)]);

    new_page.insert_record(row.serialize()).unwrap();
    store.write_page(&layout, &new_page, &table).unwrap();

    let mut iter = PageIterator::new(&table, &mut store, &layout).unwrap();

    let page = iter.next().unwrap().unwrap();

    assert_eq!(page.page_id(), 1);
    let _ = matches!(page.data_offset(), 28);
    assert_eq!(page.data_offset(), 14);
    assert!(iter.next().is_none());
    assert!(iter.next().is_none());
}

#[test]
fn allocation_gives_out_the_ids_from_one_up() {
    let mut store = MemoryStore::new();
    let layout = PageDataLayout::new(64).unwrap();
    let table = test_table(3);
    for expected in 1..=20 {
        let page = store.allocate_page(&layout, &table).unwrap();
        assert_eq!(page.page_id(), expected);
        assert_eq!(page.number_of_records(), 0);
        let read = store.read_page(&layout, expected, &table).unwrap();
        assert_eq!(read.page_id(), expected);
    }
    let metadata = store.read_metadata(&layout, &table).unwrap();
    assert_eq!(metadata.next_id(), 21);
    assert_eq!(metadata.number_of_pages(), 20);
}

#[test]
fn reading_the_header_makes_the_file() {
    let mut store = MemoryStore::new();
    let layout = PageDataLayout::new(64).unwrap();
    let table = test_table(1);
    assert!(matches!(store.read_page(&layout, 1, &table), Err(StoreError::IoError(_))));
    let metadata = store.read_metadata(&layout, &table).unwrap();
    assert_eq!(metadata.next_id(), 1);
    assert_eq!(metadata.number_of_pages(), 0);
    // the file is there now, without pages
    assert!(matches!(store.read_page(&layout, 1, &table), Err(StoreError::IoError(_))));
    let mut pages = PageIterator::new(&table, &mut store, &layout).unwrap();
    assert!(pages.next().is_none());
}

#[test]
fn tables_have_files_of_their_own() {
    let mut store = MemoryStore::new();
    let layout = PageDataLayout::new(64).unwrap();
    let first = test_table(1);
    let second = test_table(2);
    let mut page = store.allocate_page(&layout, &first).unwrap();
    page.insert_record(vec![1, 2, 3]).unwrap();
    store.write_page(&layout, &page, &first).unwrap();
    assert_eq!(store.read_metadata(&layout, &second).unwrap().number_of_pages(), 0);
    let other = store.allocate_page(&layout, &second).unwrap();
    assert_eq!(other.page_id(), 1);
    assert_eq!(store.read_page(&layout, 1, &second).unwrap().number_of_records(), 0);
    assert_eq!(store.read_page(&layout, 1, &first).unwrap().row_data(), &[1, 2, 3]);
    assert_eq!(store.read_metadata(&layout, &first).unwrap().number_of_pages(), 1);
}

#[test]
fn store_refuses_what_it_cannot_do() {
    let mut store = MemoryStore::new();
    let layout = PageDataLayout::new(64).unwrap();
    let table = test_table(1);
    let mut page = Page::new(&layout);
    // no file yet
    page.set_page_id(1);
    assert!(matches!(store.write_page(&layout, &page, &table), Err(StoreError::IoError(_))));
    store.read_metadata(&layout, &table).unwrap();
    // a page without an id has no place
    page.set_page_id(0);
    assert!(matches!(store.write_page(&layout, &page, &table), Err(StoreError::IoError(_))));
    page.set_page_id(-1);
    assert!(matches!(store.write_page(&layout, &page, &table), Err(StoreError::IoError(_))));
    assert!(matches!(store.read_page(&layout, 0, &table), Err(StoreError::IoError(_))));
    assert!(matches!(store.read_page(&layout, -4, &table), Err(StoreError::IoError(_))));
    // behind the end of the file
    assert!(matches!(store.read_page(&layout, 1, &table), Err(StoreError::IoError(_))));
    page.set_page_id(1);
    store.write_page(&layout, &page, &table).unwrap();
    assert!(store.read_page(&layout, 1, &table).is_ok());
    assert!(matches!(store.read_page(&layout, 2, &table), Err(StoreError::IoError(_))));
}

#[test]
fn writing_behind_the_end_leaves_zeros_between() {
    let mut store = MemoryStore::new();
    let layout = PageDataLayout::new(32).unwrap();
    let table = test_table(1);
    store.read_metadata(&layout, &table).unwrap();
    let mut page = Page::new(&layout);
    page.set_page_id(3);
    page.insert_record(vec![7, 7]).unwrap();
    store.write_page(&layout, &page, &table).unwrap();
    let third = store.read_page(&layout, 3, &table).unwrap();
    assert_eq!(third.page_id(), 3);
    assert_eq!(third.row_data(), &[7, 7]);
    // a page of zeros reads as a page that is full of nothing
    let first = store.read_page(&layout, 1, &table).unwrap();
    assert_eq!(first.page_id(), 0);
    assert_eq!(first.data_offset(), 0);
    assert_eq!(first.slots().len(), 0);
    assert!(!first.can_insert(&[]));
}

#[test]
fn pages_under_another_layout_are_not_pages() {
    let mut store = MemoryStore::new();
    let small = PageDataLayout::new(32).unwrap();
    let large = PageDataLayout::new(64).unwrap();
    let table = test_table(1);
    let mut page = store.allocate_page(&large, &table).unwrap();
    page.insert_record(vec![1, 2, 3, 4]).unwrap();
    store.write_page(&large, &page, &table).unwrap();
    // the data offset of the larger page lies behind the data region of the smaller
    assert!(matches!(
        store.read_page(&small, 1, &table),
        Err(StoreError::DeserializationError(_))
    ));
    assert!(store.read_page(&large, 1, &table).is_ok());
}

#[test]
fn page_file_is_a_header_and_the_pages_one_after_the_other() {
    let mut store = MemoryStore::new();
    let layout = PageDataLayout::new(32).unwrap();
    let table = test_table(1);
    assert!(store.file_bytes(&table).is_none());

    store.read_metadata(&layout, &table).unwrap();
    assert_eq!(store.file_bytes(&table).unwrap(), &vec![0, 0, 0, 1, 0, 0, 0, 0]);

    let mut first = store.allocate_page(&layout, &table).unwrap();
    let second = store.allocate_page(&layout, &table).unwrap();
    first.insert_record(vec![0xaa, 0xbb]).unwrap();
    store.write_page(&layout, &first, &table).unwrap();

    let file = store.file_bytes(&table).unwrap();
    assert_eq!(file.len(), 8 + 2 * 32);
    // next id, number of pages
    assert_eq!(&file[0..8], &[0, 0, 0, 3, 0, 0, 0, 2]);
    assert_eq!(&file[8..40], &first.serialize()[..]);
    assert_eq!(&file[40..72], &second.serialize()[..]);
    assert_eq!(
        &file[8..40],
        &[
            0, 1, 0, 0, 0, 16, 0, 0, 0, 1, 0, 0, 0, 7, // header of page 1
            0, 0, 0, 0, 16, 0, 2, // its slot
            0, 0, 0, 0, 0, 0, 0, 0, 0, // free
            0xaa, 0xbb, // its record
        ]
    );
    assert_eq!(
        &file[40..54],
        &[0, 0, 0, 0, 0, 18, 0, 0, 0, 2, 0, 0, 0, 0] // header of page 2
    );
    assert_eq!(&file[54..72], &[0; 18]);
    assert!(store.file_bytes(&test_table(2)).is_none());
}

#[test]
fn reads_that_do_not_get_their_bytes_are_io_errors() {
    let mut store = MemoryStore::new();
    let layout = PageDataLayout::new(32).unwrap();
    let table = test_table(1);
    // no file
    assert!(matches!(store.read_page(&layout, 1, &table), Err(StoreError::IoError(_))));
    store.allocate_page(&layout, &table).unwrap();
    // the file ends before the end of the page
    assert!(matches!(store.read_page(&layout, 2, &table), Err(StoreError::IoError(_))));
    assert!(matches!(store.read_page(&layout, 100, &table), Err(StoreError::IoError(_))));
    let large = PageDataLayout::new(64).unwrap();
    assert!(matches!(store.read_page(&large, 1, &table), Err(StoreError::IoError(_))));
    // no such id
    assert!(matches!(store.read_page(&layout, 0, &table), Err(StoreError::IoError(_))));
    // all bytes are there, but they are no page
    store.allocate_page(&large, &table).unwrap();
    assert!(matches!(
        store.read_page(&layout, 3, &table),
        Err(StoreError::DeserializationError(_))
    ));
    // the header of a file that is made is read without failure
    let other = test_table(2);
    let metadata = store.read_metadata(&layout, &other).unwrap();
    assert_eq!(metadata.next_id(), 1);
    assert_eq!(store.file_bytes(&other).unwrap(), &vec![0, 0, 0, 1, 0, 0, 0, 0]);
}
