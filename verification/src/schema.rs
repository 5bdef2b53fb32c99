//! The version of a database's schema.

use vstd::prelude::*;

verus! {

/// The version that this build brings a database to.
pub const LATEST_VERSION: u32 = 3;

/// The version that a database has: its own mark, or, without one, that of the table in which
/// older builds kept it.
pub open spec fn version_of(mark: i64, table: i64) -> i64 {
    if mark != 0 {
        mark
    } else {
        table
    }
}

/// The mark that a database gets before it is brought up to date, where that differs from the one
/// it has: a version that only the table of older builds knows becomes the mark. So no step is
/// taken twice.
pub fn promoted_version(has_table: bool, mark: i64, table: i64) -> (r: Option<i64>)
    ensures
        r == (if has_table && mark == 0 && table > 0 {
            Some(table)
        } else {
            None
        }),
        r is Some ==> r->0 == version_of(mark, table),
        r is Some ==> has_table && mark == 0 && r->0 > 0,
        mark != 0 ==> r is None,
{
    if has_table && mark == 0 && table > 0 {
        Some(table)
    } else {
        None
    }
}

/// The version of a database, or 0 for a fresh one.
pub fn current_version(mark: i64, table: i64) -> (r: u32)
    ensures
        r == version_of(mark, table) as u32,
{
    if mark != 0 {
        #[verifier::truncate]
        (mark as u32)
    } else {
        #[verifier::truncate]
        (table as u32)
    }
}

/// A promotion does not change the version of a database.
pub proof fn promotion_keeps_the_version(mark: i64, table: i64)
    requires
        mark == 0,
        table > 0,
    ensures
        version_of(table, table) == version_of(mark, table),
{
}

} // verus!
