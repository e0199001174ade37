//! Pixel reconstruction filters.

use vstd::prelude::*;
use crate::tags::is_word;

verus! {

/// The reconstruction filters.
#[derive(Clone, Copy, Debug, PartialEq, Eq, Structural)]
pub enum FilterType {
    Box,
    Triangle,
    Gaussian,
    Mitchell,
    LanczosSinc,
}

impl FilterType {
    /// The filter that a tag names: `box`, `triangle`, `gaussian`, `mitchell`, `lanczos`.
    pub open spec fn tagged(tag: Seq<char>) -> Option<FilterType> {
        if tag == "box"@ {
            Some(FilterType::Box)
        } else if tag == "triangle"@ {
            Some(FilterType::Triangle)
        } else if tag == "gaussian"@ {
            Some(FilterType::Gaussian)
        } else if tag == "mitchell"@ {
            Some(FilterType::Mitchell)
        } else if tag == "lanczos"@ {
            Some(FilterType::LanczosSinc)
        } else {
            None
        }
    }

    /// The choice that the tag names, or `None` for an unknown tag.
    pub fn from_tag(tag: &str) -> (r: Option<FilterType>)
        ensures
            r == FilterType::tagged(tag@),
    {
        if is_word(tag, "box") {
            Some(FilterType::Box)
        } else if is_word(tag, "triangle") {
            Some(FilterType::Triangle)
        } else if is_word(tag, "gaussian") {
            Some(FilterType::Gaussian)
        } else if is_word(tag, "mitchell") {
            Some(FilterType::Mitchell)
        } else if is_word(tag, "lanczos") {
            Some(FilterType::LanczosSinc)
        } else {
            None
        }
    }
}

} // verus!
