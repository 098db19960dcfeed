//! When to ask for the next page of a listing.
//!
//! Listings come back a page at a time. After each page the caller reports
//! what it got, and `next_page` says which page to ask for next, if any.
use vstd::prelude::*;

verus! {

/// The most pages any listing is walked through.
pub const MAX_PAGES: u32 = 1000;

/// The page size that counts: the one the answer reports, or the one asked
/// for when the answer reports none.
pub open spec fn page_limit(per_page: u32, page_size: u32) -> u32 {
    if per_page == 0 { page_size } else { per_page }
}

/// The page to ask for after page `page`, which held `got` records, given the
/// page size and total the answer reported (0 when not reported), the page
/// size asked for, and `collected` records kept so far: none once a page
/// comes back short, once the reported total is reached, or after page
/// `MAX_PAGES`.
pub open spec fn next_page_spec(
    page: u32,
    got: u32,
    per_page: u32,
    total: u32,
    collected: u32,
    page_size: u32,
) -> Option<u32> {
    if got < page_limit(per_page, page_size) || (total > 0 && collected >= total) {
        None
    } else if page >= MAX_PAGES {
        None
    } else {
        Some((page + 1) as u32)
    }
}

/// Which page to ask for next (see `next_page_spec`).
pub fn next_page(page: u32, got: u32, per_page: u32, total: u32, collected: u32, page_size: u32) -> (r: Option<u32>)
    ensures
        r == next_page_spec(page, got, per_page, total, collected, page_size),
{
    let limit = if per_page == 0 { page_size } else { per_page };
    if got < limit || (total > 0 && collected >= total) {
        None
    } else if page >= MAX_PAGES {
        None
    } else {
        Some(page + 1)
    }
}

} // verus!
