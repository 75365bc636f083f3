use pagedb::data::page::PageDataLayout;
use pagedb::database::access::{TableAccess, TableAccessError};
use pagedb::database::Database;
use pagedb::store::memory_store::MemoryStore;
use pagedb::store::Store;
use pagedb::table::table::{Cell, Row, Table};
use pagedb::table::{Column, ColumnType, TableSchema};

fn people() -> Table {
    let schema = TableSchema::new(vec![
        Column::new(1, "id", ColumnType::Int),
        Column::new(2, "name", ColumnType::Varchar(10)),
    ]);
    Table::new(1, "test".to_owned(), schema)
}

fn person(id: i32, name: &str) -> Row {
    Row::new(vec![Cell::Int(id), Cell::Varchar(name.to_owned())])
}

#[test]
fn should_insert_two_rows() {
    let schema = TableSchema::new(vec![Column::new(1, "name", ColumnType::Varchar(10))]);

    let table = Table::new(1, "test".to_owned(), schema);
    let store = MemoryStore::new();
    let layout = PageDataLayout::new(64).unwrap();

    let mut access = TableAccess::new(&table, store, &layout);

    let first_row = Row::new(vec![Cell::Varchar("Hans".to_owned())]);
    let second_row = Row::new(vec![Cell::Varchar("Rabbit".to_owned())]);

    access.insert(&first_row).unwrap();
    access.insert(&second_row).unwrap();

    let rows = access.load_all().unwrap();
    assert_eq!(rows.len(), 2);
    assert_eq!(rows[0].cells(), first_row.cells());
    assert_eq!(rows[1].cells(), second_row.cells());
}

#[test]
fn should_find_a_row() {
    let table = people();
    let store = MemoryStore::new();
    let layout = PageDataLayout::new(64).unwrap();

    let mut access = TableAccess::new(&table, store, &layout);

    let first_row = person(1, "Hans");
    let second_row = person(2, "Rabbit");

    access.insert(&first_row).unwrap();
    access.insert(&second_row).unwrap();

    let rows = access.find("name", Cell::Varchar("Hans".to_owned())).unwrap();
    assert_eq!(rows.len(), 1);
    let row = rows.get(0).unwrap();
    assert!(
        matches!(row.cells().as_slice(), [Cell::Int(id), Cell::Varchar(name)] if *id == 1 && name == "Hans")
    )
}

#[test]
fn find_takes_the_name_without_the_space_around_it() {
    let table = people();
    let layout = PageDataLayout::new(64).unwrap();
    let mut access = TableAccess::new(&table, MemoryStore::new(), &layout);
    access.insert(&person(1, "Hans")).unwrap();
    access.insert(&person(2, "Rabbit")).unwrap();
    access.insert(&person(2, "Hans")).unwrap();

    let rows = access.find("  name\t", Cell::Varchar("Rabbit".to_owned())).unwrap();
    assert_eq!(rows.len(), 1);
    assert_eq!(rows[0].cells(), person(2, "Rabbit").cells());
    let rows = access.find(" id ", Cell::Int(2)).unwrap();
    assert_eq!(rows.len(), 2);
    assert_eq!(rows[0].cells(), person(2, "Rabbit").cells());
    assert_eq!(rows[1].cells(), person(2, "Hans").cells());
    // a cell of another type is equal to none
    assert!(access.find("id", Cell::Byte(2)).unwrap().is_empty());
    assert!(access.find("name", Cell::Varchar("hans".to_owned())).unwrap().is_empty());
}

#[test]
fn find_fails_on_a_column_that_is_not_there() {
    let table = people();
    let layout = PageDataLayout::new(64).unwrap();
    let mut access = TableAccess::new(&table, MemoryStore::new(), &layout);
    let err = access.find(" age", Cell::Int(1)).unwrap_err();
    match &err {
        TableAccessError::LoadRowsError(text) => assert_eq!(text, "Column ' age' not found!"),
        other => panic!("{:?}", other),
    }
    assert_eq!(err.message(), "TableAccessError - load error: Column ' age' not found!");
    // nothing was read: the file was not even made
    let layout_again = PageDataLayout::new(64).unwrap();
    let store = access.into_store();
    assert!(store.read_page(&layout_again, 1, &table).is_err());
}

#[test]
fn insert_refuses_rows_that_do_not_fit_before_anything_is_written() {
    let table = people();
    let layout = PageDataLayout::new(64).unwrap();
    let mut access = TableAccess::new(&table, MemoryStore::new(), &layout);

    let err = access.insert(&Row::new(vec![Cell::Int(1)])).unwrap_err();
    match &err {
        TableAccessError::InsertRowError(text) => {
            assert_eq!(text, "Row validation error: Row length does not match schema")
        }
        other => panic!("{:?}", other),
    }
    assert_eq!(
        err.message(),
        "TableAccessError - insert error: Row validation error: Row length does not match schema"
    );
    let err = access
        .insert(&Row::new(vec![Cell::Varchar("x".to_owned()), Cell::Varchar("y".to_owned())]))
        .unwrap_err();
    match &err {
        TableAccessError::InsertRowError(text) => {
            assert_eq!(text, "Row validation error: Type mismatch for column 'id'")
        }
        other => panic!("{:?}", other),
    }
    let err = access.insert(&person(2, "ThisNameIsWayTooLong")).unwrap_err();
    match &err {
        TableAccessError::InsertRowError(text) => assert_eq!(
            text,
            "Row validation error: Varchar length exceeds maximum of 10 for column 'name'"
        ),
        other => panic!("{:?}", other),
    }

    // the store has no file for the table: nothing was written
    let mut store = access.into_store();
    assert!(store.read_page(&layout, 1, &table).is_err());
    let metadata = store.read_metadata(&layout, &table).unwrap();
    assert_eq!(metadata.number_of_pages(), 0);
}

#[test]
fn insert_takes_the_first_page_with_room() {
    let table = people();
    let layout = PageDataLayout::new(64).unwrap();
    let mut access = TableAccess::new(&table, MemoryStore::new(), &layout);
    // a row of 4 + 2 + 10 bytes and its slot take 23 of the 50 bytes of a page
    for i in 0..5 {
        access.insert(&person(i, "0123456789")).unwrap();
    }
    let mut store = access.into_store();
    assert_eq!(store.read_metadata(&layout, &table).unwrap().number_of_pages(), 3);
    assert_eq!(store.read_page(&layout, 1, &table).unwrap().number_of_records(), 2);
    assert_eq!(store.read_page(&layout, 2, &table).unwrap().number_of_records(), 2);
    assert_eq!(store.read_page(&layout, 3, &table).unwrap().number_of_records(), 1);

    // a deleted record in the first page makes room there
    let mut first = store.read_page(&layout, 1, &table).unwrap();
    assert!(first.delete_record(1));
    store.write_page(&layout, &first, &table).unwrap();
    let mut access = TableAccess::new(&table, store, &layout);
    access.insert(&person(9, "new")).unwrap();
    let rows = access.load_all().unwrap();
    assert_eq!(rows.len(), 5);
    assert_eq!(rows[0].cells(), person(0, "0123456789").cells());
    assert_eq!(rows[1].cells(), person(9, "new").cells());
    assert_eq!(rows[2].cells(), person(2, "0123456789").cells());
    assert_eq!(rows[4].cells(), person(4, "0123456789").cells());
    assert_eq!(access.store().read_page(&layout, 1, &table).unwrap().slots().len(), 2);
}

#[test]
fn insert_fails_where_not_even_a_new_page_takes_the_row() {
    let schema = TableSchema::new(vec![Column::new(1, "text", ColumnType::Varchar(100))]);
    let table = Table::new(1, "test".to_owned(), schema);
    let layout = PageDataLayout::new(32).unwrap();
    let mut access = TableAccess::new(&table, MemoryStore::new(), &layout);
    let err = access.insert(&Row::new(vec![Cell::Varchar("x".repeat(10))])).unwrap_err();
    match &err {
        TableAccessError::InsertRowError(text) => {
            assert_eq!(text, "Failed to insert row into page.")
        }
        other => panic!("{:?}", other),
    }
    assert!(access.load_all().unwrap().is_empty());
    // the page that was allocated for the row is there, and empty
    assert_eq!(access.store().read_page(&layout, 1, &table).unwrap().number_of_records(), 0);
    access.insert(&Row::new(vec![Cell::Varchar("x".repeat(9))])).unwrap();
    assert_eq!(access.load_all().unwrap().len(), 1);
    let mut store = access.into_store();
    assert_eq!(store.read_metadata(&layout, &table).unwrap().number_of_pages(), 1);
}

#[test]
fn load_all_fails_on_records_that_are_no_rows() {
    let table = people();
    let layout = PageDataLayout::new(64).unwrap();
    let mut store = MemoryStore::new();
    let mut page = store.allocate_page(&layout, &table).unwrap();
    page.insert_record(vec![0, 0, 0, 1, 0, 1, 0xff]).unwrap();
    store.write_page(&layout, &page, &table).unwrap();
    let mut access = TableAccess::new(&table, store, &layout);
    let err = access.load_all().unwrap_err();
    match &err {
        TableAccessError::LoadRowsError(text) => assert_eq!(text, "Cell deserialization error"),
        other => panic!("{:?}", other),
    }
}

#[test]
fn load_all_fails_on_pages_that_are_missing() {
    let table = people();
    let small = PageDataLayout::new(32).unwrap();
    let large = PageDataLayout::new(64).unwrap();
    let mut store = MemoryStore::new();
    store.allocate_page(&small, &table).unwrap();
    let mut access = TableAccess::new(&table, store, &large);
    let err = access.load_all().unwrap_err();
    match &err {
        TableAccessError::LoadRowsError(text) => {
            assert_eq!(text, "Failed to read page from file.")
        }
        other => panic!("{:?}", other),
    }
    let err = access.insert(&person(1, "a")).unwrap_err();
    assert!(matches!(err, TableAccessError::InsertRowError(_)));
}

#[test]
fn database_keeps_its_store() {
    let database = Database::new("main", MemoryStore::new());
    assert_eq!(database.name, "main");
    let mut store = database.into_store();
    let layout = PageDataLayout::new(64).unwrap();
    assert_eq!(store.allocate_page(&layout, &people()).unwrap().page_id(), 1);
}

#[test]
fn find_takes_off_what_unicode_calls_white_space_and_nothing_else() {
    let table = people();
    let layout = PageDataLayout::new(64).unwrap();
    let mut access = TableAccess::new(&table, MemoryStore::new(), &layout);
    access.insert(&person(1, "Hans")).unwrap();

    for around in [
        "\u{9}", "\u{a}", "\u{b}", "\u{c}", "\u{d}", " ", "\u{85}", "\u{a0}", "\u{1680}",
        "\u{2000}", "\u{2005}", "\u{200a}", "\u{2028}", "\u{2029}", "\u{202f}", "\u{205f}",
        "\u{3000}",
    ] {
        let name = format!("{}{}id{}", around, around, around);
        assert_eq!(access.find(&name, Cell::Int(1)).unwrap().len(), 1);
    }
    // no white space: the zero width space, the Mongolian vowel separator, the
    // byte order mark, a control character
    for around in ["\u{200b}", "\u{180e}", "\u{feff}", "\u{1c}", "\u{8}"] {
        assert!(access.find(&format!("{}id", around), Cell::Int(1)).is_err());
        assert!(access.find(&format!("id{}", around), Cell::Int(1)).is_err());
    }
    // white space within the name stays
    assert!(access.find("i d", Cell::Int(1)).is_err());
}

#[test]
fn find_in_column_scans_by_index() {
    let table = people();
    let layout = PageDataLayout::new(64).unwrap();
    let mut access = TableAccess::new(&table, MemoryStore::new(), &layout);
    assert!(access.find_in_column(0, &Cell::Int(1)).unwrap().is_empty());
    access.insert(&person(1, "Hans")).unwrap();
    access.insert(&person(2, "Rabbit")).unwrap();
    access.insert(&person(1, "Fox")).unwrap();
    access.insert(&person(3, "Hans")).unwrap();

    let rows = access.find_in_column(0, &Cell::Int(1)).unwrap();
    assert_eq!(rows.len(), 2);
    assert_eq!(rows[0].cells(), person(1, "Hans").cells());
    assert_eq!(rows[1].cells(), person(1, "Fox").cells());
    let rows = access.find_in_column(1, &Cell::Varchar("Hans".to_owned())).unwrap();
    assert_eq!(rows.len(), 2);
    assert_eq!(rows[0].cells(), person(1, "Hans").cells());
    assert_eq!(rows[1].cells(), person(3, "Hans").cells());
    assert!(access.find_in_column(1, &Cell::Int(1)).unwrap().is_empty());
    assert!(access.find_in_column(0, &Cell::Int(4)).unwrap().is_empty());
}

#[test]
fn white_space_is_the_same_characters_for_the_scan_and_for_std() {
    let listed = |c: char| {
        let n = c as u32;
        (0x09..=0x0d).contains(&n)
            || n == 0x20
            || n == 0x85
            || n == 0xa0
            || n == 0x1680
            || (0x2000..=0x200a).contains(&n)
            || n == 0x2028
            || n == 0x2029
            || n == 0x202f
            || n == 0x205f
            || n == 0x3000
    };
    for n in 0..=0x10ffffu32 {
        if let Some(c) = char::from_u32(n) {
            assert_eq!(c.is_whitespace(), listed(c), "U+{:04X}", n);
            let text = format!("{}x{}", c, c);
            assert_eq!(text.trim() == "x", listed(c), "U+{:04X}", n);
        }
    }
}
