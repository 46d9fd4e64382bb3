//! The decision that follows looking a record up before creating it.
use vstd::prelude::*;

verus! {

/// A database query that failed.
#[derive(Debug)]
pub struct DatabaseError;

/// What to do after looking a record up by name.
#[derive(Debug)]
pub enum LookupStep<T> {
    /// The record exists: use it.
    Use(T),
    /// There is no such record: create it.
    Create,
    /// The query failed: the caller gives up.
    Fail,
}

/// The step that follows a lookup: use what was found, create what was
/// not, and give up when the query failed.
pub fn after_lookup<T>(found: Result<Option<T>, DatabaseError>) -> (r: LookupStep<T>)
    ensures
        match found {
            Ok(Some(v)) => r == LookupStep::Use(v),
            Ok(None) => r is Create,
            Err(_) => r is Fail,
        },
{
    match found {
        Ok(Some(v)) => LookupStep::Use(v),
        Ok(None) => LookupStep::Create,
        Err(_) => LookupStep::Fail,
    }
}

} // verus!
