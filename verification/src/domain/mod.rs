//! The normalised records the commands show and filter.
pub mod arrangement;
pub mod category;
pub mod person;
pub mod service;
pub mod song;

use vstd::prelude::*;

verus! {

/// `None` for the empty string, the string otherwise.
pub open spec fn none_if_empty_spec(s: String) -> Option<String> {
    if s@.len() == 0 {
        None
    } else {
        Some(s)
    }
}

/// `None` for the empty string, the string otherwise.
pub(crate) fn none_if_empty(s: String) -> (r: Option<String>)
    ensures
        r == none_if_empty_spec(s),
{
    if s.as_str().unicode_len() == 0 {
        None
    } else {
        Some(s)
    }
}

} // verus!
