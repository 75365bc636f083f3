//! The database: a name and the store that keeps its tables.

pub mod access;
pub mod access_laws;
pub mod access_model;

use vstd::prelude::*;
use vstd::string::StringExecFns;
use crate::store::Store;

verus! {

/// A database owns the store that keeps the page files of its tables.
pub struct Database<S: Store> {
    pub name: String,
    store: S,
}

impl<S: Store> Database<S> {
    /// The name of the database.
    pub closed spec fn spec_name(&self) -> Seq<char> {
        self.name@
    }

    /// The store of the database.
    pub closed spec fn spec_store(&self) -> S {
        self.store
    }

    /// A database named `name` over `store`.
    pub fn new(name: &str, store: S) -> (database: Database<S>)
        ensures
            database.spec_name() == name@,
            database.spec_store() == store,
    {
        Database { name: String::from_str(name), store }
    }

    /// Gives the store back.
    pub fn into_store(self) -> (store: S)
        ensures
            store == self.spec_store(),
    {
        self.store
    }
}

} // verus!
