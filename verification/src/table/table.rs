//! Cells, rows and tables: validation against a schema and the row encoding.

use vstd::prelude::*;
use vstd::slice::{slice_subrange, slice_to_vec};
use vstd::string::StringExecFns;
use vstd::utf8::{decode_utf8, encode_utf8, valid_utf8};
use crate::data::bigendian::{
    be16,
    be32,
    from_be16,
    from_be32,
    push_i32,
    push_u16,
    read_i32,
    read_u16,
    signed32,
    unsigned32,
};
use crate::data::bigendian::{lemma_be16_round_trip, lemma_be32_round_trip, lemma_signed_round_trip};
use crate::table::{column_types, Column, ColumnType, TableSchema};
use crate::text::{decimal, decimal_string, string_from_utf8};

verus! {

/// A value of one of the column types.
#[derive(Debug, PartialEq, Eq)]
pub enum Cell {
    Int(i32),
    Varchar(String),
    Byte(u8),
}

/// A cell as a mathematical value.
pub enum CellView {
    Int(i32),
    Varchar(Seq<char>),
    Byte(u8),
}

impl CellView {
    /// Whether the cell has an encoding: the length of a text must fit the
    /// two bytes that state it.
    pub open spec fn encodable(self) -> bool {
        match self {
            CellView::Varchar(s) => encode_utf8(s).len() <= 65535,
            _ => true,
        }
    }

    /// The encoding of the cell: a number as four bytes, most significant
    /// first; a text as the length of its UTF-8 form in two bytes, most
    /// significant first, and then that form; a byte as itself.
    pub open spec fn to_bytes(self) -> Seq<u8> {
        match self {
            CellView::Int(i) => be32(unsigned32(i as int)),
            CellView::Varchar(s) => be16(encode_utf8(s).len() as int) + encode_utf8(s),
            CellView::Byte(b) => seq![b],
        }
    }

    /// Why the cell cannot stand in `column`, if it cannot: its type is not
    /// the column's, or it is a text longer than the column allows.
    pub open spec fn failure(self, column: Column) -> Option<ValidationFailure> {
        match (self, column.col_type) {
            (CellView::Int(_), ColumnType::Int) => None,
            (CellView::Varchar(s), ColumnType::Varchar(max_len)) => if encode_utf8(s).len()
                > max_len {
                Some(ValidationFailure::VarcharTooLong(max_len, column.name@))
            } else {
                None
            },
            (CellView::Byte(_), ColumnType::Byte) => None,
            _ => Some(ValidationFailure::TypeMismatch(column.name@)),
        }
    }

    /// The cell that the start of `bytes` encodes under `col_type`, and the
    /// number of bytes that it takes. `None` where the bytes end too soon,
    /// where a text is longer than the column allows, or where its bytes are
    /// not valid UTF-8.
    pub open spec fn parse(bytes: Seq<u8>, col_type: ColumnType) -> Option<(CellView, int)> {
        match col_type {
            ColumnType::Int => if bytes.len() < 4 {
                None
            } else {
                Some((CellView::Int(signed32(from_be32(bytes.subrange(0, 4))) as i32), 4))
            },
            ColumnType::Varchar(max_len) => if bytes.len() < 2 {
                None
            } else {
                let len = from_be16(bytes.subrange(0, 2));
                if bytes.len() < 2 + len || len > max_len || !valid_utf8(
                    bytes.subrange(2, 2 + len),
                ) {
                    None
                } else {
                    Some((CellView::Varchar(decode_utf8(bytes.subrange(2, 2 + len))), 2 + len))
                }
            },
            ColumnType::Byte => if bytes.len() < 1 {
                None
            } else {
                Some((CellView::Byte(bytes[0]), 1))
            },
        }
    }
}

/// Why a row does not fit a schema, as a mathematical value.
pub enum ValidationFailure {
    LengthMismatch,
    TypeMismatch(Seq<char>),
    VarcharTooLong(u16, Seq<char>),
}

/// Why a row does not fit a schema.
#[derive(PartialEq, Debug)]
pub enum RowValidationError {
    /// The row has not as many cells as the schema has columns.
    LengthMismatch,
    /// The cell in the named column is not of the column's type.
    TypeMismatch(String),
    /// The text in the named column is longer than the column allows.
    VarcharTooLong(u16, String),
}

impl View for RowValidationError {
    type V = ValidationFailure;

    open spec fn view(&self) -> ValidationFailure {
        match self {
            RowValidationError::LengthMismatch => ValidationFailure::LengthMismatch,
            RowValidationError::TypeMismatch(name) => ValidationFailure::TypeMismatch(name@),
            RowValidationError::VarcharTooLong(max_len, name) => ValidationFailure::VarcharTooLong(
                *max_len,
                name@,
            ),
        }
    }
}

impl ValidationFailure {
    /// The message that describes the failure.
    pub open spec fn message(self) -> Seq<char> {
        match self {
            ValidationFailure::LengthMismatch => "Row length does not match schema"@,
            ValidationFailure::TypeMismatch(name) => "Type mismatch for column '"@ + name + "'"@,
            ValidationFailure::VarcharTooLong(max_len, name) =>
                "Varchar length exceeds maximum of "@ + decimal(max_len as int)
                    + " for column '"@ + name + "'"@,
        }
    }
}

impl RowValidationError {
    /// The message that describes the failure.
    pub fn message(&self) -> (text: String)
        ensures
            text@ == self@.message(),
    {
        match self {
            RowValidationError::LengthMismatch => String::from_str(
                "Row length does not match schema",
            ),
            RowValidationError::TypeMismatch(name) => {
                let mut text = String::from_str("Type mismatch for column '");
                text.append(name.as_str());
                text.append("'");
                text
            },
            RowValidationError::VarcharTooLong(max_len, name) => {
                let mut text = String::from_str("Varchar length exceeds maximum of ");
                let digits = decimal_string(*max_len as i64);
                text.append(digits.as_str());
                text.append(" for column '");
                text.append(name.as_str());
                text.append("'");
                text
            },
        }
    }
}

/// Why bytes are not the encoding of a cell or a row.
#[derive(Debug, Clone, Copy, PartialEq, Eq, Structural)]
pub enum CellDeserializationError {
    /// The bytes end too soon, a text is longer than its column allows, or
    /// its bytes are not valid UTF-8.
    InvalidData,
}

impl CellDeserializationError {
    /// The message that describes the failure.
    pub fn message(&self) -> (text: String)
        ensures
            text@ == "Cell deserialization error"@,
    {
        String::from_str("Cell deserialization error")
    }
}

impl View for Cell {
    type V = CellView;

    open spec fn view(&self) -> CellView {
        match self {
            Cell::Int(i) => CellView::Int(*i),
            Cell::Varchar(s) => CellView::Varchar(s@),
            Cell::Byte(b) => CellView::Byte(*b),
        }
    }
}

impl Cell {
    /// Whether the two cells hold the same value.
    pub fn equals(&self, other: &Cell) -> (same: bool)
        ensures
            same == (self@ == other@),
    {
        match (self, other) {
            (Cell::Int(a), Cell::Int(b)) => *a == *b,
            (Cell::Varchar(a), Cell::Varchar(b)) => *a == *b,
            (Cell::Byte(a), Cell::Byte(b)) => *a == *b,
            _ => false,
        }
    }

    /// The encoding of the cell.
    pub fn serialize(&self) -> (bytes: Vec<u8>)
        requires
            self@.encodable(),
        ensures
            bytes@ == self@.to_bytes(),
    {
        let mut bytes: Vec<u8> = Vec::new();
        match self {
            Cell::Int(i) => {
                push_i32(&mut bytes, *i);
            },
            Cell::Varchar(s) => {
                let text: &[u8] = s.as_str().as_bytes();
                push_u16(&mut bytes, text.len() as u16);
                bytes.extend_from_slice(text);
            },
            Cell::Byte(b) => {
                bytes.push(*b);
            },
        }
        assert(bytes@ =~= self@.to_bytes());
        bytes
    }

    /// Reads the cell of `column` that `row_data` starts with, and says how
    /// many bytes it took.
    pub fn deserialize(row_data: &[u8], column: &Column) -> (r: Result<
        (Cell, usize),
        CellDeserializationError,
    >)
        ensures
            match CellView::parse(row_data@, column.col_type) {
                Some((cell, taken)) => r is Ok && r->Ok_0.0@ == cell && r->Ok_0.1 == taken,
                None => r == Err::<(Cell, usize), CellDeserializationError>(
                    CellDeserializationError::InvalidData,
                ),
            },
    {
        match column.col_type {
            ColumnType::Int => {
                if row_data.len() < 4 {
                    return Err(CellDeserializationError::InvalidData);
                }
                let value: i32 = read_i32(row_data, 0);
                Ok((Cell::Int(value), 4))
            },
            ColumnType::Varchar(max_len) => {
                if row_data.len() < 2 {
                    return Err(CellDeserializationError::InvalidData);
                }
                let len: usize = read_u16(row_data, 0) as usize;
                if row_data.len() - 2 < len {
                    return Err(CellDeserializationError::InvalidData);
                }
                if len > max_len as usize {
                    return Err(CellDeserializationError::InvalidData);
                }
                let text: Vec<u8> = slice_to_vec(slice_subrange(row_data, 2, 2 + len));
                match string_from_utf8(text) {
                    Some(s) => Ok((Cell::Varchar(s), 2 + len)),
                    None => Err(CellDeserializationError::InvalidData),
                }
            },
            ColumnType::Byte => {
                if row_data.len() < 1 {
                    return Err(CellDeserializationError::InvalidData);
                }
                Ok((Cell::Byte(row_data[0]), 1))
            },
        }
    }
}

/// The cells of a row as mathematical values.
pub open spec fn cells_view(cells: Seq<Cell>) -> Seq<CellView> {
    Seq::new(cells.len(), |i: int| cells[i]@)
}

/// Whether every cell has an encoding.
pub open spec fn row_encodable(cells: Seq<CellView>) -> bool {
    forall|i: int| 0 <= i < cells.len() ==> (#[trigger] cells[i]).encodable()
}

/// The encoding of a row: the encodings of its cells, one after the other,
/// with nothing between them and nothing around them.
pub open spec fn row_bytes(cells: Seq<CellView>) -> Seq<u8>
    decreases cells.len(),
{
    if cells.len() == 0 {
        Seq::empty()
    } else {
        row_bytes(cells.drop_last()) + cells.last().to_bytes()
    }
}

/// The first failure among the first `k` cells, each held against the column
/// at its position.
pub open spec fn first_failure(cells: Seq<CellView>, columns: Seq<Column>, k: int) -> Option<
    ValidationFailure,
>
    decreases k,
{
    if k <= 0 {
        None
    } else {
        match first_failure(cells, columns, k - 1) {
            Some(failure) => Some(failure),
            None => cells[k - 1].failure(columns[k - 1]),
        }
    }
}

/// Why the cells do not fit the columns, if they do not: their number is not
/// that of the columns, or else the first failure of a cell in column order.
pub open spec fn validation(cells: Seq<CellView>, columns: Seq<Column>) -> Option<
    ValidationFailure,
> {
    if cells.len() != columns.len() {
        Some(ValidationFailure::LengthMismatch)
    } else {
        first_failure(cells, columns, cells.len() as int)
    }
}

/// The cells that the start of `bytes` encodes under the first `k` of
/// `types`, and the number of bytes that they take. `None` where one of them
/// cannot be read.
pub open spec fn parse_cells(bytes: Seq<u8>, types: Seq<ColumnType>, k: int) -> Option<
    (Seq<CellView>, int),
>
    decreases k,
{
    if k <= 0 {
        Some((Seq::empty(), 0))
    } else {
        match parse_cells(bytes, types, k - 1) {
            None => None,
            Some((cells, taken)) => match CellView::parse(
                bytes.subrange(taken, bytes.len() as int),
                types[k - 1],
            ) {
                None => None,
                Some((cell, more)) => Some((cells.push(cell), taken + more)),
            },
        }
    }
}

/// The row that the start of `bytes` encodes under `types`, and the number
/// of bytes that it takes.
pub open spec fn parse_row(bytes: Seq<u8>, types: Seq<ColumnType>) -> Option<(Seq<CellView>, int)> {
    parse_cells(bytes, types, types.len() as int)
}

/// A row: its cells in the order of the columns.
#[derive(Debug)]
pub struct Row {
    cells: Vec<Cell>,
}

impl View for Row {
    type V = Seq<CellView>;

    closed spec fn view(&self) -> Seq<CellView> {
        cells_view(self.cells@)
    }
}

impl Row {
    /// A row of the given cells.
    pub fn new(cells: Vec<Cell>) -> (row: Row)
        ensures
            row@ == cells_view(cells@),
    {
        Row { cells }
    }

    /// The cells of the row.
    pub fn cells(&self) -> (cells: &Vec<Cell>)
        ensures
            cells_view(cells@) == self@,
    {
        &self.cells
    }

    /// The encoding of the row.
    pub fn serialize(&self) -> (bytes: Vec<u8>)
        requires
            row_encodable(self@),
        ensures
            bytes@ == row_bytes(self@),
    {
        let mut bytes: Vec<u8> = Vec::new();
        let mut i: usize = 0;
        while i < self.cells.len()
            invariant
                i <= self.cells@.len(),
                row_encodable(self@),
                bytes@ == row_bytes(self@.take(i as int)),
            decreases self.cells@.len() - i,
        {
            assert(self@[i as int].encodable());
            let cell: Vec<u8> = self.cells[i].serialize();
            bytes.extend_from_slice(cell.as_slice());
            assert(self@.take(i + 1).drop_last() =~= self@.take(i as int));
            i = i + 1;
        }
        assert(self@.take(i as int) =~= self@);
        bytes
    }

    /// Reads the row that `row_data` starts with under `schema`, and says how
    /// many bytes it took. Bytes behind the row are not looked at.
    pub fn deserialize(row_data: &[u8], schema: &TableSchema) -> (r: Result<
        (Row, usize),
        CellDeserializationError,
    >)
        ensures
            match parse_row(row_data@, schema.types()) {
                Some((cells, taken)) => r is Ok && r->Ok_0.0@ == cells && r->Ok_0.1 == taken,
                None => r == Err::<(Row, usize), CellDeserializationError>(
                    CellDeserializationError::InvalidData,
                ),
            },
    {
        let ghost types = schema.types();
        let mut cells: Vec<Cell> = Vec::new();
        let mut offset: usize = 0;
        let mut i: usize = 0;
        while i < schema.columns.len()
            invariant
                types == schema.types(),
                i <= schema.columns@.len(),
                offset <= row_data@.len(),
                parse_cells(row_data@, types, i as int) == Some(
                    (cells_view(cells@), offset as int),
                ),
            decreases schema.columns@.len() - i,
        {
            let rest: &[u8] = slice_subrange(row_data, offset, row_data.len());
            assert(types[i as int] == schema.columns@[i as int].col_type);
            match Cell::deserialize(rest, &schema.columns[i]) {
                Ok((cell, taken)) => {
                    assert(taken <= rest@.len()) by {
                        CellView::lemma_parse_taken(rest@, types[i as int]);
                    }
                    assert(cells_view(cells@.push(cell)) =~= cells_view(cells@).push(cell@));
                    offset = offset + taken;
                    cells.push(cell);
                },
                Err(e) => {
                    proof {
                        lemma_parse_cells_fails(row_data@, types, i as int + 1, types.len() as int);
                    }
                    return Err(e);
                },
            }
            i = i + 1;
        }
        Ok((Row { cells }, offset))
    }

    /// Holds the row against `schema`: as many cells as columns, then cell by
    /// cell in column order the type and, for a text, its length in bytes.
    /// The first failure found is the one returned.
    pub fn validate(&self, schema: &TableSchema) -> (r: Result<(), RowValidationError>)
        ensures
            match validation(self@, schema.columns@) {
                None => r is Ok,
                Some(failure) => r is Err && r->Err_0@ == failure,
            },
    {
        if self.cells.len() != schema.columns.len() {
            return Err(RowValidationError::LengthMismatch);
        }
        let mut i: usize = 0;
        while i < self.cells.len()
            invariant
                i <= self.cells@.len(),
                self.cells@.len() == schema.columns@.len(),
                first_failure(self@, schema.columns@, i as int) is None,
            decreases self.cells@.len() - i,
        {
            let column: &Column = &schema.columns[i];
            proof {
                assert(self@[i as int] == self.cells@[i as int]@);
                assert(first_failure(self@, schema.columns@, i + 1) == self@[i as int].failure(
                    schema.columns@[i as int],
                ));
                lemma_first_failure_stays(
                    self@,
                    schema.columns@,
                    i + 1,
                    self.cells@.len() as int,
                );
            }
            let cell: &Cell = &self.cells[i];
            let fits: bool = match cell {
                Cell::Int(_) => match column.col_type {
                    ColumnType::Int => true,
                    _ => false,
                },
                Cell::Varchar(input) => match column.col_type {
                    ColumnType::Varchar(max_len) => {
                        if input.as_str().as_bytes().len() > max_len as usize {
                            return Err(
                                RowValidationError::VarcharTooLong(max_len, column.name.clone()),
                            );
                        }
                        true
                    },
                    _ => false,
                },
                Cell::Byte(_) => match column.col_type {
                    ColumnType::Byte => true,
                    _ => false,
                },
            };
            if !fits {
                return Err(RowValidationError::TypeMismatch(column.name.clone()));
            }
            i = i + 1;
        }
        Ok(())
    }
}

impl CellView {
    /// A cell that was read took no more bytes than there are.
    pub proof fn lemma_parse_taken(bytes: Seq<u8>, col_type: ColumnType)
        ensures
            CellView::parse(bytes, col_type) is Some ==> 0 < CellView::parse(
                bytes,
                col_type,
            )->Some_0.1 <= bytes.len(),
    {
    }
}

impl CellView {
    /// A cell that fits its column has an encoding, and reading that encoding
    /// gives the cell back, whatever bytes follow it.
    pub proof fn lemma_round_trip(self, column: Column, rest: Seq<u8>)
        requires
            self.failure(column) is None,
        ensures
            self.encodable(),
            CellView::parse(self.to_bytes() + rest, column.col_type) == Some(
                (self, self.to_bytes().len() as int),
            ),
    {
        let bytes = self.to_bytes() + rest;
        match self {
            CellView::Int(i) => {
                lemma_be32_round_trip(unsigned32(i as int), bytes.subrange(0, 4));
                lemma_signed_round_trip(i as int);
                assert(bytes.subrange(0, 4) =~= be32(unsigned32(i as int)));
            },
            CellView::Varchar(s) => {
                let text = encode_utf8(s);
                lemma_be16_round_trip(text.len() as int, bytes.subrange(0, 2));
                assert(bytes.subrange(0, 2) =~= be16(text.len() as int));
                assert(bytes.subrange(2, 2 + text.len() as int) =~= text);
                vstd::utf8::encode_utf8_valid_utf8(s);
                vstd::utf8::encode_utf8_decode_utf8(s);
            },
            CellView::Byte(b) => {},
        }
    }
}

/// Cells that fit their columns fit them one by one.
pub proof fn lemma_valid_cells(cells: Seq<CellView>, columns: Seq<Column>, k: int)
    requires
        0 <= k,
        first_failure(cells, columns, k) is None,
    ensures
        forall|i: int| 0 <= i < k ==> (#[trigger] cells[i]).failure(columns[i]) is None,
    decreases k,
{
    if k > 0 {
        lemma_valid_cells(cells, columns, k - 1);
    }
}

/// Reading the encoding of the first `k` cells of a row that fits its
/// columns gives these cells back, whatever bytes follow the encoding.
pub proof fn lemma_cells_round_trip(
    cells: Seq<CellView>,
    columns: Seq<Column>,
    k: int,
    rest: Seq<u8>,
)
    requires
        0 <= k <= cells.len(),
        cells.len() == columns.len(),
        forall|i: int| 0 <= i < k ==> (#[trigger] cells[i]).failure(columns[i]) is None,
    ensures
        parse_cells(row_bytes(cells.take(k)) + rest, column_types(columns), k) == Some(
            (cells.take(k), row_bytes(cells.take(k)).len() as int),
        ),
    decreases k,
{
    let types = column_types(columns);
    let bytes = row_bytes(cells.take(k)) + rest;
    if k == 0 {
        assert(cells.take(0) =~= Seq::<CellView>::empty());
    } else {
        let before = cells.take(k - 1);
        let cell = cells[k - 1];
        let tail = cell.to_bytes() + rest;
        assert(cells.take(k).drop_last() =~= before);
        assert(bytes =~= row_bytes(before) + tail);
        lemma_cells_round_trip(cells, columns, k - 1, tail);
        let taken = row_bytes(before).len() as int;
        assert(bytes.subrange(taken, bytes.len() as int) =~= tail);
        cell.lemma_round_trip(columns[k - 1], rest);
        assert(before.push(cell) =~= cells.take(k));
    }
}

/// A row that fits a schema has an encoding, and reading that encoding under
/// the schema gives the row back, whatever bytes follow it.
pub proof fn lemma_row_round_trip(cells: Seq<CellView>, columns: Seq<Column>, rest: Seq<u8>)
    requires
        validation(cells, columns) is None,
    ensures
        row_encodable(cells),
        parse_row(row_bytes(cells) + rest, column_types(columns)) == Some(
            (cells, row_bytes(cells).len() as int),
        ),
{
    lemma_valid_cells(cells, columns, cells.len() as int);
    lemma_cells_round_trip(cells, columns, cells.len() as int, rest);
    assert(cells.take(cells.len() as int) =~= cells);
    assert forall|i: int| 0 <= i < cells.len() implies (#[trigger] cells[i]).encodable() by {
        cells[i].lemma_round_trip(columns[i], rest);
    }
}

/// A failure among the first `k` cells is the first failure of any more.
pub proof fn lemma_first_failure_stays(
    cells: Seq<CellView>,
    columns: Seq<Column>,
    k: int,
    n: int,
)
    requires
        k <= n,
    ensures
        first_failure(cells, columns, k) is Some ==> first_failure(cells, columns, n)
            == first_failure(cells, columns, k),
    decreases n - k,
{
    if k < n {
        lemma_first_failure_stays(cells, columns, k, n - 1);
    }
}

/// Reading `k` cells gives `k` cells.
pub proof fn lemma_parse_cells_count(bytes: Seq<u8>, types: Seq<ColumnType>, k: int)
    requires
        0 <= k,
    ensures
        parse_cells(bytes, types, k) is Some ==> parse_cells(bytes, types, k)->Some_0.0.len() == k,
    decreases k,
{
    if k > 0 {
        lemma_parse_cells_count(bytes, types, k - 1);
    }
}

/// Where the first `k` cells cannot be read, no more of them can.
pub proof fn lemma_parse_cells_fails(bytes: Seq<u8>, types: Seq<ColumnType>, k: int, n: int)
    requires
        k <= n,
        parse_cells(bytes, types, k) is None,
    ensures
        parse_cells(bytes, types, n) is None,
    decreases n - k,
{
    if k < n {
        lemma_parse_cells_fails(bytes, types, k, n - 1);
    }
}

/// A table: its id, its name and its schema.
pub struct Table {
    pub id: i32,
    pub name: String,
    pub schema: TableSchema,
}

impl Table {
    /// The name of the table's page file as a mathematical value.
    pub open spec fn spec_file_path(&self) -> Seq<char> {
        "table_"@ + decimal(self.id as int) + ".dat"@
    }

    /// A table with the given id, name and schema.
    pub fn new(id: i32, name: String, schema: TableSchema) -> (table: Table)
        ensures
            table.id == id,
            table.name == name,
            table.schema == schema,
    {
        Table { id, name, schema }
    }

    /// The schema of the table.
    pub fn schema(&self) -> (schema: &TableSchema)
        ensures
            *schema == self.schema,
    {
        &self.schema
    }

    /// The name of the table's page file: `table_`, the id in decimal, and
    /// `.dat`.
    pub fn file_path(&self) -> (path: String)
        ensures
            path@ == self.spec_file_path(),
    {
        let mut path = String::from_str("table_");
        let digits = decimal_string(self.id as i64);
        path.append(digits.as_str());
        path.append(".dat");
        path
    }

    /// Holds `row` against the schema of the table.
    pub fn validate_row(&self, row: &Row) -> (r: Result<(), RowValidationError>)
        ensures
            match validation(row@, self.schema.columns@) {
                None => r is Ok,
                Some(failure) => r is Err && r->Err_0@ == failure,
            },
    {
        row.validate(&self.schema)
    }
}

} // verus!
