//! The in-process service handle a hosting server wraps.
//!
//! The store's operations are plain calls (`Parser::parse_schema`,
//! `Parser::parse_model`, `Table::add_row`, `Table::query_by_id`,
//! `Table::query_where`); a host translates its requests into those calls
//! and this handle is what it registers.  The handle itself carries no
//! state: every table is owned by its creator.

use vstd::prelude::*;

verus! {

/// A stateless handle for a hosting service to register.
pub struct CrudSerivice {}

impl CrudSerivice {
    /// A fresh handle.
    pub fn new() -> (s: CrudSerivice)
        ensures
            s == (CrudSerivice {  }),
    {
        CrudSerivice {  }
    }
}

} // verus!
