use vstd::prelude::*;

verus! {

/// A custom image that a user added for a character: the link to it.
#[derive(Debug)]
pub struct CustomImage {
    pub image_url: String,
}

} // verus!
