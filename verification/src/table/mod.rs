//! Table schemas: the columns of a table and their types.

pub mod table;

use vstd::prelude::*;
use vstd::string::StringExecFns;

verus! {

/// The type of a column, which is also the type of the cells in it.
#[derive(Debug, Clone, Copy, PartialEq, Eq, Structural)]
pub enum ColumnType {
    /// A signed 32-bit number.
    Int,
    /// Text of at most so many bytes in UTF-8.
    Varchar(u16),
    /// One byte.
    Byte,
}

/// A column of a table.
#[derive(Debug)]
pub struct Column {
    pub id: i32,
    pub name: String,
    pub col_type: ColumnType,
}

/// The columns of a table, in the order in which a row holds its cells.
#[derive(Debug)]
pub struct TableSchema {
    pub columns: Vec<Column>,
}

/// The types of the given columns, in order.
pub open spec fn column_types(columns: Seq<Column>) -> Seq<ColumnType> {
    Seq::new(columns.len(), |i: int| columns[i].col_type)
}

/// Whether `k` is the index of the first column named `name`, or the number
/// of columns where none has that name.
pub open spec fn is_column_index(columns: Seq<Column>, name: Seq<char>, k: int) -> bool {
    &&& 0 <= k <= columns.len()
    &&& k < columns.len() ==> columns[k].name@ == name
    &&& forall|j: int| 0 <= j < k ==> (#[trigger] columns[j]).name@ != name
}

/// The index of the first column named `name`, or the number of columns
/// where none has that name.
pub open spec fn column_index(columns: Seq<Column>, name: Seq<char>) -> int {
    choose|k: int| is_column_index(columns, name, k)
}

/// Only one index is that of the first column of a name.
pub proof fn lemma_column_index_unique(columns: Seq<Column>, name: Seq<char>, k: int)
    requires
        is_column_index(columns, name, k),
    ensures
        k == column_index(columns, name),
{
    let f = column_index(columns, name);
    if k < f {
        assert(columns[k].name@ != name);
    } else if f < k {
        assert(columns[f].name@ != name);
    }
}

impl TableSchema {
    /// The index of the first column named `name`; `None` where no column
    /// has that name.
    pub fn column_index(&self, name: &str) -> (r: Option<usize>)
        ensures
            is_column_index(self.columns@, name@, column_index(self.columns@, name@)),
            match r {
                Some(k) => k == column_index(self.columns@, name@) && k < self.columns@.len(),
                None => column_index(self.columns@, name@) == self.columns@.len(),
            },
    {
        let wanted: String = String::from_str(name);
        let mut i: usize = 0;
        while i < self.columns.len() && self.columns[i].name != wanted
            invariant
                wanted@ == name@,
                i <= self.columns@.len(),
                forall|j: int| 0 <= j < i ==> (#[trigger] self.columns@[j]).name@ != name@,
            decreases self.columns@.len() - i,
        {
            i = i + 1;
        }
        proof {
            lemma_column_index_unique(self.columns@, name@, i as int);
        }
        if i < self.columns.len() {
            Some(i)
        } else {
            None
        }
    }

    /// The types of the columns, in order.
    pub open spec fn types(&self) -> Seq<ColumnType> {
        column_types(self.columns@)
    }

    /// The names of the columns, in order.
    pub open spec fn names(&self) -> Seq<Seq<char>> {
        Seq::new(self.columns@.len(), |i: int| self.columns@[i].name@)
    }

    /// A schema of the given columns, of which there is at least one.
    pub fn new(columns: Vec<Column>) -> (schema: TableSchema)
        requires
            columns@.len() > 0,
        ensures
            schema.columns == columns,
    {
        TableSchema { columns }
    }
}

impl Column {
    /// A column with the given id, name and type.
    pub fn new(id: i32, name: &str, col_type: ColumnType) -> (column: Column)
        ensures
            column.id == id,
            column.name@ == name@,
            column.col_type == col_type,
    {
        Column { id, name: String::from_str(name), col_type }
    }
}

} // verus!
