//! Light sources.

use vstd::prelude::*;
use crate::tags::is_word;

verus! {

/// The kinds of light.
#[derive(Clone, Copy, Debug, PartialEq, Eq, Structural)]
pub enum LightType {
    Point,
}

impl LightType {
    /// The kind of light that a tag names: `point`.
    pub open spec fn tagged(tag: Seq<char>) -> Option<LightType> {
        if tag == "point"@ {
            Some(LightType::Point)
        } else {
            None
        }
    }

    /// The choice that the tag names, or `None` for an unknown tag.
    pub fn from_tag(tag: &str) -> (r: Option<LightType>)
        ensures
            r == LightType::tagged(tag@),
    {
        if is_word(tag, "point") {
            Some(LightType::Point)
        } else {
            None
        }
    }
}

} // verus!
