use pagedb::data::page::{Page, PageDataLayout};
use pagedb::table::table::{Cell, CellDeserializationError, Row, RowValidationError, Table};
use pagedb::table::{Column, ColumnType, TableSchema};

fn sample_row() -> Row {
    Row::new(vec![Cell::Int(42), Cell::Varchar("hello".to_string()), Cell::Byte(1)])
}

fn sample_schema() -> TableSchema {
    TableSchema::new(vec![
        Column::new(1, "id", ColumnType::Int),
        Column::new(2, "name", ColumnType::Varchar(50)),
        Column::new(3, "flag", ColumnType::Byte),
    ])
}

#[test]
fn should_serialize_deserialize_row() {
    let columns = vec![
        Column::new(1, "id", ColumnType::Int),
        Column::new(2, "name", ColumnType::Varchar(25)),
    ];
    let schema = TableSchema::new(columns);

    let row = Row::new(vec![Cell::Int(42), Cell::Varchar("TestName".to_string())]);

    let serialized = row.serialize();
    let (deserialized, _) = Row::deserialize(&serialized, &schema).unwrap();

    match (&row.cells()[0], &deserialized.cells()[0]) {
        (Cell::Int(a), Cell::Int(b)) => assert_eq!(a, b),
        _ => panic!("Mismatched cell types for first cell"),
    }

    match (&row.cells()[1], &deserialized.cells()[1]) {
        (Cell::Varchar(a), Cell::Varchar(b)) => assert_eq!(a, b),
        _ => panic!("Mismatched cell types for second cell"),
    }
}

#[test]
fn test_row_validation() {
    let schema = TableSchema {
        columns: vec![
            Column { id: 1, name: "id".to_string(), col_type: ColumnType::Int },
            Column { id: 2, name: "name".to_string(), col_type: ColumnType::Varchar(10) },
        ],
    };

    let valid_row = Row::new(vec![Cell::Int(1), Cell::Varchar("Alice".to_string())]);

    assert!(valid_row.validate(&schema).is_ok());

    let invalid_row_length = Row::new(vec![Cell::Int(1)]);

    let invalid_row_length_res = invalid_row_length.validate(&schema);
    assert!(invalid_row_length_res.is_err());
    assert_eq!(invalid_row_length_res.unwrap_err(), RowValidationError::LengthMismatch);

    let invalid_row_type = Row::new(vec![
        Cell::Varchar("NotAnInt".to_string()),
        Cell::Varchar("Bob".to_string()),
    ]);

    let invalid_row_type_res = invalid_row_type.validate(&schema);
    assert!(invalid_row_type_res.is_err());
    assert_eq!(
        invalid_row_type_res.unwrap_err(),
        RowValidationError::TypeMismatch("id".to_string())
    );

    let invalid_row_varchar_length = Row::new(vec![
        Cell::Int(2),
        Cell::Varchar("ThisNameIsWayTooLong".to_string()),
    ]);

    let invalid_row_varchar_length_res = invalid_row_varchar_length.validate(&schema);
    assert!(invalid_row_varchar_length_res.is_err());
    assert_eq!(
        invalid_row_varchar_length_res.unwrap_err(),
        RowValidationError::VarcharTooLong(10, "name".to_string())
    );
}

// A row is stored without framing: the index of a row and its deleted flag
// are those of the slot that holds it in a page.

#[test]
fn test_row_serialize_basic() {
    let row = sample_row();

    let serialized = row.serialize();

    // Cell 1: Int
    assert_eq!(&serialized[0..4], &42i32.to_be_bytes());
    // Varchar("hello"): 2 bytes length + 5 bytes data
    assert_eq!(&serialized[4..6], &5u16.to_be_bytes());
    assert_eq!(&serialized[6..11], b"hello");
    // Byte(1): 1 byte
    assert_eq!(serialized[11], 1);
    assert_eq!(serialized.len(), 12);

    // The row at index 100 of a page, not deleted
    let layout = PageDataLayout::new(4096).unwrap();
    let mut page = Page::new(&layout);
    for _ in 0..100 {
        page.insert_record(Row::new(vec![Cell::Int(0)]).serialize()).unwrap();
    }
    page.insert_record(row.serialize()).unwrap();
    let image = page.serialize();
    let entry = 14 + 7 * 100;
    // Deleted flag
    assert_eq!(image[entry], 0);
    let offset = page.slots()[100].page_offset as usize;
    assert_eq!(&image[entry + 1..entry + 5], &(offset as u32).to_be_bytes());
    assert_eq!(&image[entry + 5..entry + 7], &12u16.to_be_bytes());
    assert_eq!(&image[14 + offset..14 + offset + 12], &serialized[..]);
}

#[test]
fn test_row_serialize_deleted_flag() {
    let row = Row::new(vec![Cell::Int(99)]);
    let serialized = row.serialize();
    assert_eq!(&serialized[0..4], &99i32.to_be_bytes());

    let layout = PageDataLayout::new(4096).unwrap();
    let mut page = Page::new(&layout);
    for _ in 0..50 {
        page.insert_record(Row::new(vec![Cell::Int(0)]).serialize()).unwrap();
    }
    page.insert_record(serialized).unwrap();
    assert!(page.delete_record(50));

    let image = page.serialize();
    // Deleted: true, at the entry of index 50
    assert_eq!(image[14 + 7 * 50], 1);
    assert_eq!(image[14 + 7 * 49], 0);
}

#[test]
fn test_row_serialize_empty_varchar() {
    let row = Row::new(vec![Cell::Varchar(String::new())]);

    let serialized = row.serialize();

    // Varchar length: 0
    assert_eq!(&serialized[0..2], &0u16.to_be_bytes());
    assert_eq!(serialized.len(), 2);

    let layout = PageDataLayout::new(64).unwrap();
    let mut page = Page::new(&layout);
    page.insert_record(serialized).unwrap();
    let image = page.serialize();
    // Deleted: false, at the entry of index 0
    assert_eq!(image[14], 0);
    assert_eq!(image.len(), 64);
}

#[test]
fn test_row_deserialize_basic() {
    let schema = sample_schema();

    let mut data = Vec::new();
    // Int(42)
    data.extend(42i32.to_be_bytes());
    // Varchar("hello")
    data.extend(5u16.to_be_bytes());
    data.extend_from_slice(b"hello");
    // Byte(1)
    data.push(1);

    let (row, bytes_read) = Row::deserialize(&data, &schema).unwrap();

    assert_eq!(bytes_read, data.len());

    let cells = row.cells();

    assert!(matches!(&cells[0], Cell::Int(42)));
    assert!(matches!(&cells[1], Cell::Varchar(s) if s == "hello"));
    assert!(matches!(&cells[2], Cell::Byte(1)));

    // The same row read from index 100 of a page
    let layout = PageDataLayout::new(4096).unwrap();
    let mut page = Page::new(&layout);
    for _ in 0..100 {
        page.insert_record(
            Row::new(vec![Cell::Int(7), Cell::Varchar(String::new()), Cell::Byte(0)]).serialize(),
        )
        .unwrap();
    }
    page.insert_record(data.clone()).unwrap();
    let mut rows = page.rows(&schema);
    let mut last = None;
    while let Some(next) = rows.next() {
        last = Some(next.unwrap());
    }
    let (index, row) = last.unwrap();
    assert_eq!(index, 100);
    assert_eq!(page.slots()[100].deleted, false);
    assert!(matches!(&row.cells()[0], Cell::Int(42)));
    assert!(matches!(&row.cells()[1], Cell::Varchar(s) if s == "hello"));
    assert!(matches!(&row.cells()[2], Cell::Byte(1)));
}

#[test]
fn test_row_deserialize_deleted_flag() {
    let schema = TableSchema::new(vec![Column::new(1, "id", ColumnType::Int)]);

    let mut data = Vec::new();
    // Int(99)
    data.extend(99i32.to_be_bytes());

    let (row, _) = Row::deserialize(&data, &schema).unwrap();
    assert!(matches!(&row.cells()[0], Cell::Int(99)));

    let layout = PageDataLayout::new(4096).unwrap();
    let mut page = Page::new(&layout);
    for _ in 0..50 {
        page.insert_record(Row::new(vec![Cell::Int(0)]).serialize()).unwrap();
    }
    page.insert_record(data).unwrap();
    assert!(page.delete_record(50));

    let loaded = Page::deserialize(&page.serialize(), &layout).unwrap();
    assert_eq!(loaded.slots().len(), 51);
    assert_eq!(loaded.slots()[50].deleted, true);
    assert_eq!(loaded.slots()[49].deleted, false);
    assert_eq!(loaded.number_of_records(), 50);
    let mut rows = loaded.rows(&schema);
    let mut count = 0;
    while let Some(next) = rows.next() {
        let (index, row) = next.unwrap();
        assert!(index < 50);
        assert!(matches!(&row.cells()[0], Cell::Int(0)));
        count += 1;
    }
    assert_eq!(count, 50);
}

#[test]
fn test_table_file_path() {
    let schema = TableSchema::new(vec![Column::new(1, "id", ColumnType::Int)]);

    let table = Table::new(42, "users".to_string(), schema);

    assert_eq!(table.file_path(), "table_42.dat");
}

#[test]
fn should_validate_valid_row() {
    let schema = TableSchema::new(vec![
        Column::new(1, "id", ColumnType::Int),
        Column::new(2, "name", ColumnType::Varchar(50)),
        Column::new(3, "active", ColumnType::Byte),
    ]);

    let table = Table::new(1, "users".to_string(), schema);

    let valid_row = Row::new(vec![
        Cell::Int(100),
        Cell::Varchar("John Doe".to_string()),
        Cell::Byte(128),
    ]);

    assert!(table.validate_row(&valid_row).is_ok());
}

#[test]
fn should_not_validate_row_with_extra_cell() {
    let schema = TableSchema::new(vec![
        Column::new(1, "id", ColumnType::Int),
        Column::new(2, "name", ColumnType::Varchar(50)),
    ]);

    let table = Table::new(1, "users".to_string(), schema);

    let invalid_row = Row::new(vec![
        Cell::Int(100),
        Cell::Varchar("John Doe".to_string()),
        Cell::Byte(1), // Extra cell
    ]);

    let result = table.validate_row(&invalid_row);
    assert!(result.is_err());
    assert!(matches!(result.unwrap_err(), RowValidationError::LengthMismatch));
}

#[test]
fn should_not_validate_when_type_mismatch() {
    let schema = TableSchema::new(vec![
        Column::new(1, "id", ColumnType::Int),
        Column::new(2, "name", ColumnType::Varchar(50)),
    ]);

    let table = Table::new(1, "users".to_string(), schema);

    let invalid_row = Row::new(vec![Cell::Int(100), Cell::Byte(1)]);

    let result = table.validate_row(&invalid_row);
    assert!(result.is_err());

    assert!(matches!(result.unwrap_err(), RowValidationError::TypeMismatch(name) if name == "name"));
}

#[test]
fn test_table_validate_row_varchar_too_long() {
    let schema = TableSchema::new(vec![Column::new(1, "name", ColumnType::Varchar(10))]);

    let table = Table::new(1, "users".to_string(), schema);

    // Row with varchar longer than max length
    let invalid_row = Row::new(vec![Cell::Varchar(
        "This string is way too long for the column".to_string(),
    )]);

    let result = table.validate_row(&invalid_row);
    assert!(result.is_err());
    assert!(
        matches!(result.unwrap_err(), RowValidationError::VarcharTooLong(10, name) if name == "name")
    );
}

#[test]
fn validation_failures_in_column_order() {
    let schema = TableSchema::new(vec![
        Column::new(1, "id", ColumnType::Int),
        Column::new(2, "name", ColumnType::Varchar(10)),
    ]);

    assert_eq!(
        Row::new(vec![Cell::Int(1)]).validate(&schema).unwrap_err(),
        RowValidationError::LengthMismatch
    );
    assert_eq!(
        Row::new(vec![Cell::Varchar("x".to_string()), Cell::Varchar("y".to_string())])
            .validate(&schema)
            .unwrap_err(),
        RowValidationError::TypeMismatch("id".to_string())
    );
    assert_eq!(
        Row::new(vec![Cell::Int(2), Cell::Varchar("ThisNameIsWayTooLong".to_string())])
            .validate(&schema)
            .unwrap_err(),
        RowValidationError::VarcharTooLong(10, "name".to_string())
    );
    // the first failure wins: the type of the first column, not the length of the second
    assert_eq!(
        Row::new(vec![Cell::Byte(2), Cell::Varchar("ThisNameIsWayTooLong".to_string())])
            .validate(&schema)
            .unwrap_err(),
        RowValidationError::TypeMismatch("id".to_string())
    );
    // the length of a text counts in bytes
    assert_eq!(
        Row::new(vec![Cell::Int(2), Cell::Varchar("ääääää".to_string())])
            .validate(&schema)
            .unwrap_err(),
        RowValidationError::VarcharTooLong(10, "name".to_string())
    );
    assert!(Row::new(vec![Cell::Int(2), Cell::Varchar("äääää".to_string())])
        .validate(&schema)
        .is_ok());
}

#[test]
fn validation_messages() {
    assert_eq!(RowValidationError::LengthMismatch.message(), "Row length does not match schema");
    assert_eq!(
        RowValidationError::TypeMismatch("id".to_string()).message(),
        "Type mismatch for column 'id'"
    );
    assert_eq!(
        RowValidationError::VarcharTooLong(10, "name".to_string()).message(),
        "Varchar length exceeds maximum of 10 for column 'name'"
    );
    assert_eq!(
        RowValidationError::VarcharTooLong(65535, "n".to_string()).message(),
        "Varchar length exceeds maximum of 65535 for column 'n'"
    );
    assert_eq!(CellDeserializationError::InvalidData.message(), "Cell deserialization error");
}

#[test]
fn file_path_of_other_ids() {
    let table = |id: i32| {
        Table::new(id, "t".to_string(), TableSchema::new(vec![Column::new(1, "id", ColumnType::Int)]))
    };
    assert_eq!(table(1).file_path(), "table_1.dat");
    assert_eq!(table(0).file_path(), "table_0.dat");
    assert_eq!(table(-5).file_path(), "table_-5.dat");
    assert_eq!(table(i32::MAX).file_path(), "table_2147483647.dat");
    assert_eq!(table(i32::MIN).file_path(), "table_-2147483648.dat");
}

#[test]
fn cell_encodings() {
    assert_eq!(Cell::Int(42).serialize(), vec![0, 0, 0, 42]);
    assert_eq!(Cell::Int(-1).serialize(), vec![255, 255, 255, 255]);
    assert_eq!(Cell::Int(i32::MIN).serialize(), vec![128, 0, 0, 0]);
    assert_eq!(Cell::Int(0x01020304).serialize(), vec![1, 2, 3, 4]);
    assert_eq!(Cell::Byte(200).serialize(), vec![200]);
    assert_eq!(Cell::Varchar("Hans".to_string()).serialize(), vec![0, 4, b'H', b'a', b'n', b's']);
    assert_eq!(Cell::Varchar("ä".to_string()).serialize(), vec![0, 2, 0xc3, 0xa4]);
    let long = "x".repeat(300);
    let bytes = Cell::Varchar(long).serialize();
    assert_eq!(&bytes[0..2], &[1, 44]);
    assert_eq!(bytes.len(), 302);
}

#[test]
fn cell_deserialize_reads_what_the_column_says() {
    let int = Column::new(1, "a", ColumnType::Int);
    let text = Column::new(2, "b", ColumnType::Varchar(4));
    let byte = Column::new(3, "c", ColumnType::Byte);

    let (cell, taken) = Cell::deserialize(&[255, 255, 255, 254, 9, 9], &int).unwrap();
    assert_eq!(cell, Cell::Int(-2));
    assert_eq!(taken, 4);

    let (cell, taken) = Cell::deserialize(&[0, 2, 0xc3, 0xa4, 7], &text).unwrap();
    assert_eq!(cell, Cell::Varchar("ä".to_string()));
    assert_eq!(taken, 4);

    let (cell, taken) = Cell::deserialize(&[0, 0], &text).unwrap();
    assert_eq!(cell, Cell::Varchar(String::new()));
    assert_eq!(taken, 2);

    let (cell, taken) = Cell::deserialize(&[9, 8], &byte).unwrap();
    assert_eq!(cell, Cell::Byte(9));
    assert_eq!(taken, 1);
}

#[test]
fn cell_deserialize_refuses_bad_bytes() {
    let int = Column::new(1, "a", ColumnType::Int);
    let text = Column::new(2, "b", ColumnType::Varchar(4));
    let byte = Column::new(3, "c", ColumnType::Byte);
    let bad = CellDeserializationError::InvalidData;

    // too short
    assert_eq!(Cell::deserialize(&[0, 0, 0], &int).unwrap_err(), bad);
    assert_eq!(Cell::deserialize(&[0], &text).unwrap_err(), bad);
    assert_eq!(Cell::deserialize(&[0, 3, b'a', b'b'], &text).unwrap_err(), bad);
    assert_eq!(Cell::deserialize(&[], &byte).unwrap_err(), bad);
    // longer than the column allows
    assert_eq!(Cell::deserialize(&[0, 5, 1, 2, 3, 4, 5], &text).unwrap_err(), bad);
    // not UTF-8
    assert_eq!(Cell::deserialize(&[0, 2, 0xc3, 0x28], &text).unwrap_err(), bad);
    assert_eq!(Cell::deserialize(&[0, 1, 0xff], &text).unwrap_err(), bad);
}

#[test]
fn row_round_trips_through_its_encoding() {
    let schema = TableSchema::new(vec![
        Column::new(1, "id", ColumnType::Int),
        Column::new(2, "name", ColumnType::Varchar(10)),
        Column::new(3, "flag", ColumnType::Byte),
        Column::new(4, "note", ColumnType::Varchar(0)),
    ]);
    let row = Row::new(vec![
        Cell::Int(-7),
        Cell::Varchar("Rabbit".to_string()),
        Cell::Byte(255),
        Cell::Varchar(String::new()),
    ]);
    assert!(row.validate(&schema).is_ok());
    let mut bytes = row.serialize();
    assert_eq!(bytes, vec![255, 255, 255, 249, 0, 6, b'R', b'a', b'b', b'b', b'i', b't', 255, 0, 0]);
    let (back, taken) = Row::deserialize(&bytes, &schema).unwrap();
    assert_eq!(back.cells(), row.cells());
    assert_eq!(taken, 15);
    // bytes behind the row are not looked at
    bytes.extend_from_slice(&[1, 2, 3]);
    let (back, taken) = Row::deserialize(&bytes, &schema).unwrap();
    assert_eq!(back.cells(), row.cells());
    assert_eq!(taken, 15);
    // a row that ends too soon is refused
    assert_eq!(
        Row::deserialize(&bytes[0..13], &schema).unwrap_err(),
        CellDeserializationError::InvalidData
    );
}

#[test]
fn cells_compare_by_value() {
    assert!(Cell::Int(1).equals(&Cell::Int(1)));
    assert!(!Cell::Int(1).equals(&Cell::Int(2)));
    assert!(!Cell::Int(1).equals(&Cell::Byte(1)));
    assert!(Cell::Varchar("a".to_string()).equals(&Cell::Varchar("a".to_string())));
    assert!(!Cell::Varchar("a".to_string()).equals(&Cell::Varchar("b".to_string())));
    assert!(Cell::Byte(3).equals(&Cell::Byte(3)));
}

#[test]
fn column_index_finds_the_first_of_a_name() {
    let schema = TableSchema::new(vec![
        Column::new(1, "id", ColumnType::Int),
        Column::new(2, "name", ColumnType::Varchar(10)),
        Column::new(3, "name", ColumnType::Byte),
    ]);
    assert_eq!(schema.column_index("id"), Some(0));
    assert_eq!(schema.column_index("name"), Some(1));
    assert_eq!(schema.column_index("age"), None);
    assert_eq!(schema.column_index(" name"), None);
}
