//! On-disk data structures: the page layout, slots, pages and the header of
//! a page file.

pub mod bigendian;
pub mod layout;
pub mod metadata;
pub mod page;
pub mod page_lemmas;
pub mod page_model;
pub mod slot;
