//! The label that a photo editor attaches to a photograph.

use vstd::prelude::*;

verus! {

/// Colour label and star rating of a photograph.
#[derive(Debug, PartialEq, Eq)]
pub struct LabelInfo {
    pub color: i32,
    pub rate: i32,
}

} // verus!
