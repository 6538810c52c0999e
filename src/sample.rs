//! The random choice of which listing page and which item on it to feature.
use rand::Rng;
use vstd::prelude::*;

verus! {

/// How many items the listing shows in all; it shows none past this count.
pub const WORKSHOP_MAX_ITEMS: usize = 50000;

/// Items per listing page; the listing offers 9, 18 or 30.
pub const ITEMS_PER_PAGE: usize = 9;

/// The last page number worth asking for (pages are 1-indexed).
pub open spec fn max_page() -> int {
    WORKSHOP_MAX_ITEMS / ITEMS_PER_PAGE + 1
}

/// A page of the listing and an item on it, both 1-indexed.
#[derive(Debug, Clone, Copy, PartialEq, Eq, Structural)]
pub struct ListingPick {
    pub page: usize,
    pub item: usize,
}

/// Relies on `rand::thread_rng` and `Rng::gen_range` over an inclusive range,
/// which yields a value between the bounds, both included, and panics on an
/// empty range.
#[verifier::external_body]
fn random_between(low: usize, high: usize) -> (r: usize)
    requires
        low <= high,
    ensures
        low <= r <= high,
{
    rand::thread_rng().gen_range(low..=high)
}

/// A page between 1 and the last page, and an item between 1 and the number
/// of items per page, each drawn at random.
pub fn pick_listing_position() -> (r: ListingPick)
    ensures
        1 <= r.page <= max_page(),
        1 <= r.item <= ITEMS_PER_PAGE,
{
    let max_page: usize = WORKSHOP_MAX_ITEMS / ITEMS_PER_PAGE + 1;
    let page = random_between(1, max_page);
    let item = random_between(1, ITEMS_PER_PAGE);
    ListingPick { page, item }
}

} // verus!
