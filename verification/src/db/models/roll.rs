use vstd::prelude::*;

verus! {

/// What a roll message of the Mudae bot shows: a character, its series and
/// the link to its picture.
#[derive(Debug)]
pub struct EmbedRoll {
    pub name: String,
    pub serie: String,
    pub url: String,
}

impl EmbedRoll {
    pub fn new(name: String, serie: String, url: String) -> (r: Self)
        ensures
            r.name == name,
            r.serie == serie,
            r.url == url,
    {
        Self { name, serie, url }
    }
}

} // verus!
