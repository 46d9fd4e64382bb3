use vstd::prelude::*;

verus! {

/// A series that characters belong to.
#[derive(Debug)]
pub struct Serie {
    pub id: u32,
    pub name: String,
}

/// The id of a series, as looking a series up or creating it answers.
#[derive(Debug)]
pub struct SerieIdInResponse {
    pub id: u32,
}

} // verus!
