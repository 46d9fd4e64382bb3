use vstd::prelude::*;

verus! {

/// A character that rolls have shown, with the series it belongs to.
#[derive(Debug)]
pub struct Character {
    pub id: u32,
    pub name: String,
    pub series_id: u32,
    pub image: String,
}

} // verus!
