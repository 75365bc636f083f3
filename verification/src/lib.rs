//! A small slotted-page storage engine: page layout, pages with slot reuse,
//! the per-table page file, and the table access path built over them.

pub mod data;
pub mod database;
pub mod store;
pub mod table;
pub mod text;
