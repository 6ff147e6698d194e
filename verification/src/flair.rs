//! The site's standing word and tagline.
use vstd::prelude::*;

verus! {

/// The word the site is branded with.
pub fn get_word() -> (w: &'static str)
    ensures
        w@ == "deliriums"@,
{
    "deliriums"
}

/// The site's tagline.
pub fn get_tagline() -> (t: &'static str)
    ensures
        t@ == "a little rusty"@,
{
    "a little rusty"
}

} // verus!
