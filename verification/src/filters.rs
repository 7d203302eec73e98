//! Filter projections: which of the three optional dimensions an
//! aggregation engine keys its buckets by.

use vstd::prelude::*;

use crate::aggregates::AggregatesBucket;
use crate::user_tag::{TagView, UserTag};

verus! {

#[derive(Clone, Copy, Debug, PartialEq, Eq, Structural)]
pub struct AggregatesFilter {
    pub origin: bool,
    pub brand_id: bool,
    pub category_id: bool,
}

/// The eight projections, in the order engines are spawned.
pub open spec fn all_filters() -> Seq<AggregatesFilter> {
    seq![
        AggregatesFilter { origin: true, brand_id: true, category_id: true },
        AggregatesFilter { origin: false, brand_id: true, category_id: true },
        AggregatesFilter { origin: true, brand_id: false, category_id: true },
        AggregatesFilter { origin: false, brand_id: false, category_id: true },
        AggregatesFilter { origin: true, brand_id: true, category_id: false },
        AggregatesFilter { origin: false, brand_id: true, category_id: false },
        AggregatesFilter { origin: true, brand_id: false, category_id: false },
        AggregatesFilter { origin: false, brand_id: false, category_id: false },
    ]
}

/// Where a given projection stands in `all_filters`.
pub open spec fn filter_index(f: AggregatesFilter) -> int {
    (if f.origin {
        0int
    } else {
        1int
    }) + (if f.brand_id {
        0int
    } else {
        2int
    }) + (if f.category_id {
        0int
    } else {
        4int
    })
}

/// Every projection appears in `all_filters`, at its index: the eight cover
/// the power set of the three dimensions.
pub proof fn lemma_all_filters_complete(f: AggregatesFilter)
    ensures
        0 <= filter_index(f) < 8,
        all_filters()[filter_index(f)] == f,
{
}

impl AggregatesFilter {
    /// One filter per projection, eight in all.
    pub fn all() -> (r: Vec<AggregatesFilter>)
        ensures
            r@ == all_filters(),
    {
        let mut filters: Vec<AggregatesFilter> = Vec::new();
        filters.push(AggregatesFilter { origin: true, brand_id: true, category_id: true });
        filters.push(AggregatesFilter { origin: false, brand_id: true, category_id: true });
        filters.push(AggregatesFilter { origin: true, brand_id: false, category_id: true });
        filters.push(AggregatesFilter { origin: false, brand_id: false, category_id: true });
        filters.push(AggregatesFilter { origin: true, brand_id: true, category_id: false });
        filters.push(AggregatesFilter { origin: false, brand_id: true, category_id: false });
        filters.push(AggregatesFilter { origin: true, brand_id: false, category_id: false });
        filters.push(AggregatesFilter { origin: false, brand_id: false, category_id: false });
        proof {
            assert(filters@ =~= all_filters());
        }
        filters
    }

    /// The bucket an event lands in under this projection: its minute, and
    /// each kept dimension's value.
    pub fn make_bucket(&self, tag: &UserTag) -> (r: AggregatesBucket)
        requires
            tag@.wf(),
        ensures
            r.timestamp == tag@.time.spec_minutes(),
            opt_view(r.origin) == (if self.origin {
                Some(tag@.origin)
            } else {
                None::<Seq<char>>
            }),
            opt_view(r.brand_id) == (if self.brand_id {
                Some(tag@.brand_id)
            } else {
                None::<Seq<char>>
            }),
            opt_view(r.category_id) == (if self.category_id {
                Some(tag@.category_id)
            } else {
                None::<Seq<char>>
            }),
    {
        AggregatesBucket {
            timestamp: tag.time.total_minutes(),
            origin: if self.origin {
                Some(tag.origin.clone())
            } else {
                None
            },
            brand_id: if self.brand_id {
                Some(tag.product_info.brand_id.clone())
            } else {
                None
            },
            category_id: if self.category_id {
                Some(tag.product_info.category_id.clone())
            } else {
                None
            },
        }
    }
}

/// The view of an optional dimension value.
pub open spec fn opt_view(o: Option<String>) -> Option<Seq<char>> {
    match o {
        Some(s) => Some(s@),
        None => None,
    }
}

} // verus!
