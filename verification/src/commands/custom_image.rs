//! Where custom images may be hosted.
use vstd::prelude::*;

use crate::text::{chars_of, has_prefix, starts_with};

verus! {

/// Links to images on Imgur's image server start with this.
pub const IMGUR_IMAGE_PREFIX: &'static str = "https://i.imgur.com/";

/// Links to images on Imgchest's file server start with this.
pub const IMGCHEST_FILE_PREFIX: &'static str = "https://cdn.imgchest.com/files/";

/// Links to Imgur pages start with this.
pub const IMGUR_PREFIX: &'static str = "https://imgur.com/";

/// A link is accepted when it points into Imgur or Imgchest.
pub open spec fn is_valid_host(link: Seq<char>) -> bool {
    ||| has_prefix(link, IMGUR_IMAGE_PREFIX@)
    ||| has_prefix(link, IMGCHEST_FILE_PREFIX@)
    ||| has_prefix(link, IMGUR_PREFIX@)
}

/// Whether `link` is hosted on Imgur or Imgchest.
pub fn check_valid_host(link: &str) -> (r: bool)
    ensures
        r == is_valid_host(link@),
{
    let chars = chars_of(link);
    starts_with(&chars, &chars_of(IMGUR_IMAGE_PREFIX)) || starts_with(
        &chars,
        &chars_of(IMGCHEST_FILE_PREFIX),
    ) || starts_with(&chars, &chars_of(IMGUR_PREFIX))
}

} // verus!
