//! A small record-oriented storage engine: typed rows packed into bounded
//! pages, and the bridge from a parsed statement to a storage operation.
//!
//! The crate holds the engine's decisions only. Reading directories, pages and
//! the catalog file, and writing them back, is left to the caller, who hands
//! in what the page store reports and carries out the writes that come back.

pub mod codec;
pub mod database;
pub mod decimal;
pub mod errors;
pub mod page;
pub mod schema;
pub mod statement;
pub mod table;

use crate::errors::SchemaError;
use crate::page::Page;
use crate::schema::Table;
use crate::table::create_check;
use vstd::prelude::*;

verus! {

/// Lays out the namespace of a new table: checks the table's columns and
/// returns the page its heap starts with, page 0, empty. `namespace_exists`
/// says whether the page store already holds a namespace of this name.
pub fn create_table(table: &Table, namespace_exists: bool) -> (r: Result<Page, SchemaError>)
    ensures
        match r {
            Ok(page) => create_check(table.columns.deep_view(), namespace_exists) is Ok
                && page.number == 0 && page.content@ == Seq::<u8>::empty(),
            Err(e) => create_check(table.columns.deep_view(), namespace_exists) is Err
                && create_check(table.columns.deep_view(), namespace_exists)->Err_0 == e,
        },
{
    match table.check(namespace_exists) {
        Ok(()) => Ok(Page { number: 0, content: Vec::new() }),
        Err(e) => Err(e),
    }
}

} // verus!
