//! Projections as a bit mask, and the store keys they produce for the
//! aggregate point-reads of a query.

use vstd::prelude::*;

use crate::aggregates::{set_name_of, spec_db_set_name, AggregatesQuery};
use crate::datetime::DateTime;
use crate::text::{dec_str_int, string_from_chars};
use crate::user_tag::{action_db_name_spec, Action, UserTag};

verus! {

/// A projection, one bit per kept dimension.
#[derive(Clone, Copy, Debug, PartialEq, Eq, Structural)]
pub struct AggregatesCombination {
    pub x: u8,
}

pub open spec fn spec_has_origin(c: AggregatesCombination) -> bool {
    c.x & 1 != 0
}

pub open spec fn spec_has_brand_id(c: AggregatesCombination) -> bool {
    c.x & 2 != 0
}

pub open spec fn spec_has_category_id(c: AggregatesCombination) -> bool {
    c.x & 4 != 0
}

impl AggregatesCombination {
    pub fn has_origin(&self) -> (r: bool)
        ensures
            r == spec_has_origin(*self),
    {
        self.x & 0x1 != 0
    }

    pub fn has_brand_id(&self) -> (r: bool)
        ensures
            r == spec_has_brand_id(*self),
    {
        self.x & 0x2 != 0
    }

    pub fn has_category_id(&self) -> (r: bool)
        ensures
            r == spec_has_category_id(*self),
    {
        self.x & 0x4 != 0
    }

    /// The projection a query selects: the dimensions it filters by.
    pub fn from_aggregates_query(query: &AggregatesQuery) -> (r: AggregatesCombination)
        ensures
            r == spec_query_combination(*query),
            spec_has_origin(r) == (query.origin is Some),
            spec_has_brand_id(r) == (query.brand_id is Some),
            spec_has_category_id(r) == (query.category_id is Some),
    {
        let o: u8 = if query.origin.is_some() {
            1
        } else {
            0
        };
        let b: u8 = if query.brand_id.is_some() {
            2
        } else {
            0
        };
        let c: u8 = if query.category_id.is_some() {
            4
        } else {
            0
        };
        let x = o | b | c;
        proof {
            assert((o | b | c) & 1 == o && (o | b | c) & 2 == b && (o | b | c) & 4 == c)
                by (bit_vector)
                requires
                    o == 0 || o == 1,
                    b == 0 || b == 2,
                    c == 0 || c == 4,
            ;
        }
        AggregatesCombination { x }
    }

    /// Name of the store set this projection writes and reads.
    pub fn set(&self, action: Action) -> (r: String)
        ensures
            r@ == spec_db_set_name(
                action,
                spec_has_origin(*self),
                spec_has_brand_id(*self),
                spec_has_category_id(*self),
            ),
    {
        set_name_of(action, self.has_origin(), self.has_brand_id(), self.has_category_id())
    }

    /// The store user key of one minute under this projection.
    pub fn user_key(
        &self,
        action: Action,
        origin: &str,
        brand_id: &str,
        category_id: &str,
        time: i64,
    ) -> (r: String)
        ensures
            r@ == spec_user_key(*self, action, origin@, brand_id@, category_id@, time as int),
    {
        let mut v: Vec<char> = Vec::new();
        crate::codec::push_chars(&mut v, action.db_name());
        proof {
            assert(Seq::<char>::empty() + action_db_name_spec(action) =~= action_db_name_spec(
                action,
            ));
        }
        if self.has_origin() {
            crate::codec::push_chars(&mut v, "---");
            crate::codec::push_chars(&mut v, origin);
        } else {
            proof {
                assert(v@ + Seq::<char>::empty() =~= v@);
            }
        }
        if self.has_brand_id() {
            crate::codec::push_chars(&mut v, "---");
            crate::codec::push_chars(&mut v, brand_id);
        } else {
            proof {
                assert(v@ + Seq::<char>::empty() =~= v@);
            }
        }
        if self.has_category_id() {
            crate::codec::push_chars(&mut v, "---");
            crate::codec::push_chars(&mut v, category_id);
        } else {
            proof {
                assert(v@ + Seq::<char>::empty() =~= v@);
            }
        }
        crate::codec::push_chars(&mut v, "---");
        crate::text::push_i64(&mut v, time);
        proof {
            assert(v@ =~= spec_user_key(
                *self,
                action,
                origin@,
                brand_id@,
                category_id@,
                time as int,
            ));
        }
        string_from_chars(&v)
    }

    /// The key the given event updates under this projection.
    pub fn user_key_from_tag(&self, tag: &UserTag) -> (r: String)
        requires
            tag@.wf(),
        ensures
            r@ == spec_user_key(
                *self,
                tag.action,
                tag@.origin,
                tag@.brand_id,
                tag@.category_id,
                tag@.time.spec_minutes(),
            ),
    {
        let time = tag.time.total_minutes();
        self.user_key(
            tag.action,
            tag.origin.as_str(),
            tag.product_info.brand_id.as_str(),
            tag.product_info.category_id.as_str(),
            time,
        )
    }

    /// The keys a query reads: one per bucket of its range, in order.
    #[verifier::rlimit(100)]
    pub fn user_key_iter(query: &AggregatesQuery) -> (r: Vec<String>)
        requires
            query.wf(),
        ensures
            r@.len() == query.time_range.to.spec_minutes() - query.time_range.from.spec_minutes(),
            forall|i: int|
                0 <= i < r@.len() ==> (#[trigger] r@[i])@ == spec_user_key(
                    spec_query_combination(*query),
                    query.action,
                    crate::aggregates::opt_chars(query.origin),
                    crate::aggregates::opt_chars(query.brand_id),
                    crate::aggregates::opt_chars(query.category_id),
                    query.time_range.from.spec_minutes() + i,
                ),
    {
        let action = query.action;
        let origin = match &query.origin {
            Some(s) => s.clone(),
            None => String::new(),
        };
        let brand_id = match &query.brand_id {
            Some(s) => s.clone(),
            None => String::new(),
        };
        let category_id = match &query.category_id {
            Some(s) => s.clone(),
            None => String::new(),
        };
        proof {
            assert(origin@ =~= crate::aggregates::opt_chars(query.origin));
            assert(brand_id@ =~= crate::aggregates::opt_chars(query.brand_id));
            assert(category_id@ =~= crate::aggregates::opt_chars(query.category_id));
        }
        let combination = Self::from_aggregates_query(query);
        let starts = query.time_range.bucket_starts();
        let n = starts.len();
        let mut out: Vec<String> = Vec::new();
        let mut i: usize = 0;
        while i < n
            invariant
                0 <= i <= n,
                n == starts@.len(),
                query.wf(),
                action == query.action,
                combination == spec_query_combination(*query),
                origin@ == crate::aggregates::opt_chars(query.origin),
                brand_id@ == crate::aggregates::opt_chars(query.brand_id),
                category_id@ == crate::aggregates::opt_chars(query.category_id),
                forall|k: int|
                    0 <= k < n ==> (#[trigger] starts@[k]).wf() && starts@[k].spec_minutes()
                        == query.time_range.from.spec_minutes() + k,
                out@.len() == i,
                forall|k: int|
                    0 <= k < i ==> (#[trigger] out@[k])@ == spec_user_key(
                        spec_query_combination(*query),
                        query.action,
                        crate::aggregates::opt_chars(query.origin),
                        crate::aggregates::opt_chars(query.brand_id),
                        crate::aggregates::opt_chars(query.category_id),
                        query.time_range.from.spec_minutes() + k,
                    ),
            decreases n - i,
        {
            let time = starts[i].total_minutes();
            let key = combination.user_key(
                action,
                origin.as_str(),
                brand_id.as_str(),
                category_id.as_str(),
                time,
            );
            proof {
                assert(key@ == spec_user_key(
                    combination,
                    action,
                    origin@,
                    brand_id@,
                    category_id@,
                    time as int,
                ));
            }
            out.push(key);
            proof {
                assert(out@[i as int] == key);
                assert(forall|k: int| 0 <= k < i ==> out@[k] == out@.drop_last()[k]);
                assert(starts@[i as int].spec_minutes() == query.time_range.from.spec_minutes()
                    + i);
                assert((out@[i as int])@ == spec_user_key(
                    spec_query_combination(*query),
                    query.action,
                    crate::aggregates::opt_chars(query.origin),
                    crate::aggregates::opt_chars(query.brand_id),
                    crate::aggregates::opt_chars(query.category_id),
                    query.time_range.from.spec_minutes() + i,
                ));
            }
            i += 1;
        }
        out
    }
}

/// The store user key under a projection: action, each kept dimension, and
/// the minute, `---`-separated.
pub open spec fn spec_user_key(
    c: AggregatesCombination,
    action: Action,
    origin: Seq<char>,
    brand_id: Seq<char>,
    category_id: Seq<char>,
    time: int,
) -> Seq<char> {
    action_db_name_spec(action) + (if spec_has_origin(c) {
        "---"@ + origin
    } else {
        Seq::empty()
    }) + (if spec_has_brand_id(c) {
        "---"@ + brand_id
    } else {
        Seq::empty()
    }) + (if spec_has_category_id(c) {
        "---"@ + category_id
    } else {
        Seq::empty()
    }) + "---"@ + dec_str_int(time)
}

/// The mask of the projection a query selects.
pub open spec fn spec_query_combination(q: AggregatesQuery) -> AggregatesCombination {
    AggregatesCombination {
        x: ((if q.origin is Some {
            1u8
        } else {
            0u8
        }) | (if q.brand_id is Some {
            2u8
        } else {
            0u8
        }) | (if q.category_id is Some {
            4u8
        } else {
            0u8
        })),
    }
}

proof fn lemma_query_combination_bits(q: AggregatesQuery)
    ensures
        spec_has_origin(spec_query_combination(q)) == (q.origin is Some),
        spec_has_brand_id(spec_query_combination(q)) == (q.brand_id is Some),
        spec_has_category_id(spec_query_combination(q)) == (q.category_id is Some),
{
    let o: u8 = if q.origin is Some {
        1
    } else {
        0
    };
    let b: u8 = if q.brand_id is Some {
        2
    } else {
        0
    };
    let c: u8 = if q.category_id is Some {
        4
    } else {
        0
    };
    assert(((o | b | c) & 1 == o) && ((o | b | c) & 2 == b) && ((o | b | c) & 4 == c))
        by (bit_vector)
        requires
            o == 0 || o == 1,
            b == 0 || b == 2,
            c == 0 || c == 4,
    ;
}

} // verus!
