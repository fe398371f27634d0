//! Which files count as photographs.

use vstd::prelude::*;
use vstd::string::*;
use crate::text::{chars_of, lowered, lowered_text_of, same_text};

verus! {

/// An extension, in lower case, of a photograph: an image or a camera's
/// raw format.
pub open spec fn image_extension(e: Seq<char>) -> bool {
    ||| e == "jpg"@
    ||| e == "jpeg"@
    ||| e == "png"@
    ||| e == "heic"@
    ||| e == "tif"@
    ||| e == "tiff"@
    ||| e == "arw"@
    ||| e == "nef"@
    ||| e == "dng"@
    ||| e == "cr2"@
}

/// Whether `ext` is the extension of a photograph, in whatever case it
/// is written.
pub fn is_img_ext(ext: &str) -> (r: bool)
    ensures
        r == image_extension(lowered(ext@)),
{
    let chars = chars_of(ext);
    let low = lowered_text_of(&chars, 0, chars.len());
    assert(chars@.subrange(0, chars@.len() as int) =~= chars@);
    let e = low.as_str();
    same_text(e, "jpg") || same_text(e, "jpeg") || same_text(e, "png") || same_text(e, "heic")
        || same_text(e, "tif") || same_text(e, "tiff") || same_text(e, "arw") || same_text(
        e,
        "nef",
    ) || same_text(e, "dng") || same_text(e, "cr2")
}

} // verus!
