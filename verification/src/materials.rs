//! Surface materials.

use vstd::prelude::*;
use crate::tags::is_word;

verus! {

/// The kinds of material.
#[derive(Clone, Copy, Debug, PartialEq, Eq, Structural)]
pub enum MaterialType {
    Matte,
    EmissiveMatte,
}

impl MaterialType {
    /// The kind of material that a tag names: `matte`, `emissive-matte`.
    pub open spec fn tagged(tag: Seq<char>) -> Option<MaterialType> {
        if tag == "matte"@ {
            Some(MaterialType::Matte)
        } else if tag == "emissive-matte"@ {
            Some(MaterialType::EmissiveMatte)
        } else {
            None
        }
    }

    /// The choice that the tag names, or `None` for an unknown tag.
    pub fn from_tag(tag: &str) -> (r: Option<MaterialType>)
        ensures
            r == MaterialType::tagged(tag@),
    {
        if is_word(tag, "matte") {
            Some(MaterialType::Matte)
        } else if is_word(tag, "emissive-matte") {
            Some(MaterialType::EmissiveMatte)
        } else {
            None
        }
    }
}

} // verus!
