//! The words by which a scene description names its choices.

use vstd::prelude::*;
use vstd::string::StringExecFns;

verus! {

/// Whether the tag is the given word.
pub fn is_word(tag: &str, word: &str) -> (b: bool)
    ensures
        b == (tag@ == word@),
{
    let a = String::from_str(tag);
    let b = String::from_str(word);
    a == b
}

} // verus!
