//! Aggregate queries over per-minute buckets, and their replies.

use vstd::prelude::*;

use crate::datetime::{render_seconds, DateTime};
use crate::text::{dec_str, dec_str_int, render_u64, string_from_chars};
use crate::time_range::BucketsRange;
use crate::user_tag::{action_name, Action};

verus! {

#[derive(PartialEq, Eq, Clone, Copy, Debug, Structural)]
pub enum Aggregate {
    Count,
    SumPrice,
}

/// Name of the store bin holding this aggregate.
pub open spec fn aggregate_db_name(a: Aggregate) -> Seq<char> {
    match a {
        Aggregate::Count => "count"@,
        Aggregate::SumPrice => "sum_price"@,
    }
}

/// Name under which queries and reply columns spell this aggregate.
pub open spec fn aggregate_name(a: Aggregate) -> Seq<char> {
    match a {
        Aggregate::Count => "COUNT"@,
        Aggregate::SumPrice => "SUM_PRICE"@,
    }
}

impl Aggregate {
    pub fn db_name(self) -> (r: &'static str)
        ensures
            r@ == aggregate_db_name(self),
    {
        match self {
            Aggregate::Count => "count",
            Aggregate::SumPrice => "sum_price",
        }
    }

    pub fn name(self) -> (r: &'static str)
        ensures
            r@ == aggregate_name(self),
    {
        match self {
            Aggregate::Count => "COUNT",
            Aggregate::SumPrice => "SUM_PRICE",
        }
    }
}

/// One minute of one filter projection: the store key of an aggregate record.
/// A dimension left out by the projection is absent.
#[derive(Debug, Clone, PartialEq, Eq)]
pub struct AggregatesBucket {
    pub timestamp: i64,
    pub origin: Option<String>,
    pub brand_id: Option<String>,
    pub category_id: Option<String>,
}

/// The characters a bucket dimension contributes to the store key.
pub open spec fn opt_chars(o: Option<String>) -> Seq<char> {
    match o {
        Some(s) => s@,
        None => Seq::empty(),
    }
}

/// The store user key of a bucket: minute and dimensions, `--`-separated.
pub open spec fn bucket_key(b: AggregatesBucket) -> Seq<char> {
    dec_str_int(b.timestamp as int) + "--"@ + opt_chars(b.origin) + "--"@ + opt_chars(b.brand_id)
        + "--"@ + opt_chars(b.category_id)
}

impl AggregatesBucket {
    /// The bucket of an instant: minutes since the epoch label it.
    pub fn new(
        time: &DateTime,
        origin: Option<String>,
        brand_id: Option<String>,
        category_id: Option<String>,
    ) -> (r: AggregatesBucket)
        requires
            time.wf(),
        ensures
            r.timestamp == time.spec_minutes(),
            r.origin == origin,
            r.brand_id == brand_id,
            r.category_id == category_id,
    {
        AggregatesBucket { timestamp: time.total_minutes(), origin, brand_id, category_id }
    }

    /// Renders the store user key.
    pub fn db_key(&self) -> (r: String)
        ensures
            r@ == bucket_key(*self),
    {
        let mut v: Vec<char> = Vec::new();
        crate::text::push_i64(&mut v, self.timestamp);
        proof {
            assert(Seq::<char>::empty() + dec_str_int(self.timestamp as int) =~= dec_str_int(
                self.timestamp as int,
            ));
        }
        crate::codec::push_chars(&mut v, "--");
        match &self.origin {
            Some(o) => crate::codec::push_chars(&mut v, o.as_str()),
            None => {
                proof {
                    assert(v@ + Seq::<char>::empty() =~= v@);
                }
            },
        }
        crate::codec::push_chars(&mut v, "--");
        match &self.brand_id {
            Some(o) => crate::codec::push_chars(&mut v, o.as_str()),
            None => {
                proof {
                    assert(v@ + Seq::<char>::empty() =~= v@);
                }
            },
        }
        crate::codec::push_chars(&mut v, "--");
        match &self.category_id {
            Some(o) => crate::codec::push_chars(&mut v, o.as_str()),
            None => {
                proof {
                    assert(v@ + Seq::<char>::empty() =~= v@);
                }
            },
        }
        string_from_chars(&v)
    }
}

/// Counts and price sums of one bucket row.
#[derive(Debug, Clone, PartialEq, Eq, Structural)]
pub struct AggregatesRow {
    pub sum_price: u64,
    pub count: u64,
}

impl AggregatesRow {
    /// The row of a bucket the store holds nothing for.
    pub fn zero() -> (r: AggregatesRow)
        ensures
            r.sum_price == 0 && r.count == 0,
    {
        AggregatesRow { sum_price: 0, count: 0 }
    }
}

#[derive(Debug, Clone)]
pub struct AggregatesQuery {
    pub time_range: BucketsRange,
    pub action: Action,
    pub origin: Option<String>,
    pub brand_id: Option<String>,
    pub category_id: Option<String>,
    pub aggregates: Vec<Aggregate>,
}

impl AggregatesQuery {
    /// A valid query: a valid range and one or two distinct aggregates.
    pub open spec fn wf(self) -> bool {
        &&& self.time_range.wf()
        &&& 1 <= self.aggregates@.len() <= 2
        &&& self.aggregates@.len() == 2 ==> self.aggregates@[0] != self.aggregates@[1]
    }

    pub fn aggregates(&self) -> (r: &Vec<Aggregate>)
        ensures
            r == self.aggregates,
    {
        &self.aggregates
    }

    /// Name of the store set this query reads: action and kept dimensions.
    pub fn db_set_name(&self) -> (r: String)
        ensures
            r@ == spec_db_set_name(
                self.action,
                self.origin is Some,
                self.brand_id is Some,
                self.category_id is Some,
            ),
    {
        set_name_of(
            self.action,
            self.origin.is_some(),
            self.brand_id.is_some(),
            self.category_id.is_some(),
        )
    }

    /// Checks the dense row list against the range and builds the reply.
    /// Fails exactly when the row count differs from the bucket count.
    pub fn make_reply(self, rows: Vec<AggregatesRow>) -> (r: Result<AggregatesReply, ReplyError>)
        requires
            self.wf(),
        ensures
            match r {
                Ok(reply) => {
                    &&& rows@.len() == self.time_range.to.spec_minutes()
                        - self.time_range.from.spec_minutes()
                    &&& reply.wf()
                    &&& reply.query == self
                    &&& reply.rows == rows
                },
                Err(e) => e == ReplyError::RowCount && rows@.len()
                    != self.time_range.to.spec_minutes() - self.time_range.from.spec_minutes(),
            },
    {
        let count = self.time_range.buckets_count();
        if rows.len() != count {
            return Err(ReplyError::RowCount);
        }
        let starts = self.time_range.bucket_starts();
        Ok(AggregatesReply { query: self, starts, rows })
    }
}

/// The views of a list of query parameter pairs.
pub open spec fn pair_views(ps: Seq<(String, String)>) -> Seq<(Seq<char>, Seq<char>)> {
    ps.map_values(|p: (String, String)| (p.0@, p.1@))
}

/// How many pairs carry the given key.
pub open spec fn key_count(ps: Seq<(Seq<char>, Seq<char>)>, k: Seq<char>) -> int
    decreases ps.len(),
{
    if ps.len() == 0 {
        0
    } else {
        key_count(ps.drop_last(), k) + if ps.last().0 == k {
            1int
        } else {
            0int
        }
    }
}

/// The values of the `aggregates` pairs, in order.
pub open spec fn agg_names(ps: Seq<(Seq<char>, Seq<char>)>) -> Seq<Seq<char>>
    decreases ps.len(),
{
    if ps.len() == 0 {
        Seq::empty()
    } else {
        agg_names(ps.drop_last()) + if ps.last().0 == "aggregates"@ {
            seq![ps.last().1]
        } else {
            Seq::empty()
        }
    }
}

/// One pair read against the query's fields; unknown keys fit no query.
pub open spec fn pair_consistent(
    p: (Seq<char>, Seq<char>),
    tr: Option<BucketsRange>,
    act: Option<Action>,
    origin: Option<String>,
    brand_id: Option<String>,
    category_id: Option<String>,
) -> bool {
    if p.0 == "time_range"@ {
        match tr {
            Some(tr) => crate::time_range::buckets_range_denotes(p.1, tr.from, tr.to),
            None => false,
        }
    } else if p.0 == "action"@ {
        match act {
            Some(a) => p.1 == action_name(a),
            None => false,
        }
    } else if p.0 == "origin"@ {
        match origin {
            Some(o) => p.1 == o@,
            None => false,
        }
    } else if p.0 == "brand_id"@ {
        match brand_id {
            Some(o) => p.1 == o@,
            None => false,
        }
    } else if p.0 == "category_id"@ {
        match category_id {
            Some(o) => p.1 == o@,
            None => false,
        }
    } else if p.0 == "aggregates"@ {
        true
    } else {
        false
    }
}

/// The pairs spell out exactly this query: every pair matches a field, each
/// field is named as often as the query holds it, and the `aggregates`
/// values list the query's aggregates in order.
pub open spec fn query_denotes(ps: Seq<(Seq<char>, Seq<char>)>, q: AggregatesQuery) -> bool {
    &&& forall|j: int|
        0 <= j < ps.len() ==> pair_consistent(
            #[trigger] ps[j],
            Some(q.time_range),
            Some(q.action),
            q.origin,
            q.brand_id,
            q.category_id,
        )
    &&& key_count(ps, "time_range"@) == 1
    &&& key_count(ps, "action"@) == 1
    &&& key_count(ps, "origin"@) == (if q.origin is Some {
        1int
    } else {
        0int
    })
    &&& key_count(ps, "brand_id"@) == (if q.brand_id is Some {
        1int
    } else {
        0int
    })
    &&& key_count(ps, "category_id"@) == (if q.category_id is Some {
        1int
    } else {
        0int
    })
    &&& agg_names(ps) == q.aggregates@.map_values(|a: Aggregate| aggregate_name(a))
}

/// A prefix never names a key more often than the whole list.
proof fn lemma_key_count_mono(ps: Seq<(Seq<char>, Seq<char>)>, k: Seq<char>, m: int)
    requires
        0 <= m <= ps.len(),
    ensures
        key_count(ps.subrange(0, m), k) <= key_count(ps, k),
    decreases ps.len() - m,
{
    if m == ps.len() {
        assert(ps.subrange(0, m) =~= ps);
    } else {
        lemma_key_count_mono(ps, k, m + 1);
        assert(ps.subrange(0, m + 1).drop_last() =~= ps.subrange(0, m));
        assert(key_count(ps.subrange(0, m + 1), k) >= key_count(ps.subrange(0, m), k));
    }
}

/// The aggregate values of a prefix lead those of the whole list.
proof fn lemma_agg_names_prefix(ps: Seq<(Seq<char>, Seq<char>)>, m: int)
    requires
        0 <= m <= ps.len(),
    ensures
        agg_names(ps.subrange(0, m)).len() <= agg_names(ps).len(),
        forall|k: int|
            0 <= k < agg_names(ps.subrange(0, m)).len() ==> #[trigger] agg_names(ps)[k]
                == agg_names(ps.subrange(0, m))[k],
    decreases ps.len() - m,
{
    if m == ps.len() {
        assert(ps.subrange(0, m) =~= ps);
    } else {
        lemma_agg_names_prefix(ps, m + 1);
        assert(ps.subrange(0, m + 1).drop_last() =~= ps.subrange(0, m));
        let a = agg_names(ps.subrange(0, m));
        let b = agg_names(ps.subrange(0, m + 1));
        assert(forall|k: int| 0 <= k < a.len() ==> #[trigger] b[k] == a[k]);
    }
}

impl AggregatesQuery {
    /// Reads a query from its URL parameter pairs.  Succeeds exactly on pair
    /// lists that spell out a valid query, and returns that query.
    #[verifier::rlimit(100)]
    pub fn from_pairs(pairs: Vec<(String, String)>) -> (r: Option<AggregatesQuery>)
        ensures
            match r {
                Some(q) => q.wf() && query_denotes(pair_views(pairs@), q),
                None => forall|q: AggregatesQuery|
                    q.wf() ==> !query_denotes(pair_views(pairs@), q),
            },
    {
        let ghost ps = pair_views(pairs@);
        proof {
            reveal_strlit("time_range");
            reveal_strlit("action");
            reveal_strlit("origin");
            reveal_strlit("brand_id");
            reveal_strlit("category_id");
            reveal_strlit("aggregates");
        }
        let mut time_range: Option<BucketsRange> = None;
        let mut action: Option<Action> = None;
        let mut origin: Option<String> = None;
        let mut brand_id: Option<String> = None;
        let mut category_id: Option<String> = None;
        let mut aggregates: Vec<Aggregate> = Vec::new();
        let n = pairs.len();
        let mut i: usize = 0;
        while i < n
            invariant
                0 <= i <= n,
                n == pairs@.len(),
                ps == pair_views(pairs@),
                key_count(ps.subrange(0, i as int), "time_range"@) == (if time_range is Some {
                    1int
                } else {
                    0int
                }),
                key_count(ps.subrange(0, i as int), "action"@) == (if action is Some {
                    1int
                } else {
                    0int
                }),
                key_count(ps.subrange(0, i as int), "origin"@) == (if origin is Some {
                    1int
                } else {
                    0int
                }),
                key_count(ps.subrange(0, i as int), "brand_id"@) == (if brand_id is Some {
                    1int
                } else {
                    0int
                }),
                key_count(ps.subrange(0, i as int), "category_id"@) == (if category_id is Some {
                    1int
                } else {
                    0int
                }),
                agg_names(ps.subrange(0, i as int)) == aggregates@.map_values(
                    |a: Aggregate| aggregate_name(a),
                ),
                aggregates@.len() <= 2,
                aggregates@.len() == 2 ==> aggregates@[0] != aggregates@[1],
                time_range matches Some(tr) ==> tr.wf(),
                forall|j: int|
                    0 <= j < i ==> pair_consistent(
                        #[trigger] ps[j],
                        time_range,
                        action,
                        origin,
                        brand_id,
                        category_id,
                    ),
            decreases n - i,
        {
            let ghost pre = ps.subrange(0, i as int);
            let ghost cur = ps.subrange(0, i + 1);
            let ghost tr0 = time_range;
            let ghost act0 = action;
            let ghost org0 = origin;
            let ghost br0 = brand_id;
            let ghost cat0 = category_id;
            proof {
                reveal_strlit("time_range");
                reveal_strlit("action");
                reveal_strlit("origin");
                reveal_strlit("brand_id");
                reveal_strlit("category_id");
                reveal_strlit("aggregates");
                reveal_strlit("COUNT");
                reveal_strlit("SUM_PRICE");
                assert(cur.drop_last() =~= pre);
                assert(cur.last() == ps[i as int]);
                assert(ps[i as int] == (pairs@[i as int].0@, pairs@[i as int].1@));
                assert("time_range"@.len() == 10 && "action"@.len() == 6 && "origin"@.len() == 6
                    && "brand_id"@.len() == 8 && "category_id"@.len() == 11 && "aggregates"@.len()
                    == 10);
                assert("origin"@[0] == 'o' && "action"@[0] == 'a' && "time_range"@[0] == 't'
                    && "aggregates"@[0] == 'a' && "aggregates"@[1] == 'g' && "action"@[1] == 'c');
            }
            let key = pairs[i].0.as_str();
            let value = pairs[i].1.as_str();
            if crate::text::str_eq(key, "time_range") {
                if time_range.is_some() {
                    proof {
                        lemma_key_count_mono(ps, "time_range"@, i + 1);
                    }
                    return None;
                }
                match BucketsRange::parse(value) {
                    Some(tr) => {
                        time_range = Some(tr);
                    },
                    None => {
                        proof {
                            assert forall|q: AggregatesQuery| q.wf() implies !query_denotes(
                                ps,
                                q,
                            ) by {
                                if query_denotes(ps, q) {
                                    assert(pair_consistent(
                                        ps[i as int],
                                        Some(q.time_range),
                                        Some(q.action),
                                        q.origin,
                                        q.brand_id,
                                        q.category_id,
                                    ));
                                }
                            }
                        }
                        return None;
                    },
                }
            } else if crate::text::str_eq(key, "action") {
                if action.is_some() {
                    proof {
                        lemma_key_count_mono(ps, "action"@, i + 1);
                    }
                    return None;
                }
                if crate::text::str_eq(value, "VIEW") {
                    action = Some(Action::View);
                } else if crate::text::str_eq(value, "BUY") {
                    action = Some(Action::Buy);
                } else {
                    proof {
                        assert forall|q: AggregatesQuery| q.wf() implies !query_denotes(ps, q) by {
                            if query_denotes(ps, q) {
                                assert(pair_consistent(
                                    ps[i as int],
                                    Some(q.time_range),
                                    Some(q.action),
                                    q.origin,
                                    q.brand_id,
                                    q.category_id,
                                ));
                            }
                        }
                    }
                    return None;
                }
            } else if crate::text::str_eq(key, "origin") {
                if origin.is_some() {
                    proof {
                        lemma_key_count_mono(ps, "origin"@, i + 1);
                    }
                    return None;
                }
                origin = Some(pairs[i].1.clone());
            } else if crate::text::str_eq(key, "brand_id") {
                if brand_id.is_some() {
                    proof {
                        lemma_key_count_mono(ps, "brand_id"@, i + 1);
                    }
                    return None;
                }
                brand_id = Some(pairs[i].1.clone());
            } else if crate::text::str_eq(key, "category_id") {
                if category_id.is_some() {
                    proof {
                        lemma_key_count_mono(ps, "category_id"@, i + 1);
                    }
                    return None;
                }
                category_id = Some(pairs[i].1.clone());
            } else if crate::text::str_eq(key, "aggregates") {
                if aggregates.len() >= 2 {
                    proof {
                        lemma_agg_names_prefix(ps, i + 1);
                        assert forall|q: AggregatesQuery| q.wf() implies !query_denotes(ps, q) by {
                            if query_denotes(ps, q) {
                                assert(agg_names(ps).len()
                                    == q.aggregates@.map_values(
                                    |a: Aggregate| aggregate_name(a),
                                ).len());
                                assert(agg_names(cur).len() == 3);
                            }
                        }
                    }
                    return None;
                }
                let a = if crate::text::str_eq(value, "COUNT") {
                    Aggregate::Count
                } else if crate::text::str_eq(value, "SUM_PRICE") {
                    Aggregate::SumPrice
                } else {
                    proof {
                        lemma_agg_names_prefix(ps, i + 1);
                        assert forall|q: AggregatesQuery| q.wf() implies !query_denotes(ps, q) by {
                            if query_denotes(ps, q) {
                                let names = q.aggregates@.map_values(
                                    |a: Aggregate| aggregate_name(a),
                                );
                                let pos = agg_names(pre).len() as int;
                                assert(agg_names(cur)[pos] == ps[i as int].1);
                                assert(agg_names(ps)[pos] == ps[i as int].1);
                                assert(names[pos] == aggregate_name(q.aggregates@[pos]));
                            }
                        }
                    }
                    return None;
                };
                if aggregates.len() == 1 {
                    let first = aggregates[0];
                    if (matches!(first, Aggregate::Count) && matches!(a, Aggregate::Count)) || (
                    matches!(first, Aggregate::SumPrice) && matches!(a, Aggregate::SumPrice)) {
                        proof {
                            lemma_agg_names_prefix(ps, i + 1);
                            assert forall|q: AggregatesQuery| q.wf() implies !query_denotes(
                                ps,
                                q,
                            ) by {
                                if query_denotes(ps, q) {
                                    let names = q.aggregates@.map_values(
                                        |a: Aggregate| aggregate_name(a),
                                    );
                                    assert(agg_names(cur)[0] == agg_names(pre)[0]);
                                    assert(agg_names(cur)[1] == ps[i as int].1);
                                    assert(agg_names(ps)[0] == aggregate_name(aggregates@[0]));
                                    assert(agg_names(ps)[1] == aggregate_name(a));
                                    assert(names[0] == aggregate_name(q.aggregates@[0]));
                                    assert(names[1] == aggregate_name(q.aggregates@[1]));
                                    assert(q.aggregates@[0] == q.aggregates@[1]);
                                }
                            }
                        }
                        return None;
                    }
                }
                let ghost old_aggs = aggregates@;
                aggregates.push(a);
                proof {
                    assert(aggregates@.map_values(|a: Aggregate| aggregate_name(a))
                        =~= old_aggs.map_values(|a: Aggregate| aggregate_name(a)).push(
                        aggregate_name(a),
                    ));
                    assert(agg_names(cur) =~= agg_names(pre).push(ps[i as int].1));
                }
            } else {
                proof {
                    assert forall|q: AggregatesQuery| q.wf() implies !query_denotes(ps, q) by {
                        if query_denotes(ps, q) {
                            assert(pair_consistent(
                                ps[i as int],
                                Some(q.time_range),
                                Some(q.action),
                                q.origin,
                                q.brand_id,
                                q.category_id,
                            ));
                        }
                    }
                }
                return None;
            }
            proof {
                assert forall|j: int|
                    0 <= j < i + 1 implies pair_consistent(
                    #[trigger] ps[j],
                    time_range,
                    action,
                    origin,
                    brand_id,
                    category_id,
                ) by {
                    if j < i {
                        assert(pair_consistent(ps[j], tr0, act0, org0, br0, cat0));
                    }
                }
            }
            proof {
                assert(key_count(cur, "time_range"@) == key_count(pre, "time_range"@) + (
                if ps[i as int].0 == "time_range"@ {
                    1int
                } else {
                    0int
                }));
                assert(key_count(cur, "action"@) == key_count(pre, "action"@) + (
                if ps[i as int].0 == "action"@ {
                    1int
                } else {
                    0int
                }));
                assert(key_count(cur, "origin"@) == key_count(pre, "origin"@) + (
                if ps[i as int].0 == "origin"@ {
                    1int
                } else {
                    0int
                }));
                assert(key_count(cur, "brand_id"@) == key_count(pre, "brand_id"@) + (
                if ps[i as int].0 == "brand_id"@ {
                    1int
                } else {
                    0int
                }));
                assert(key_count(cur, "category_id"@) == key_count(pre, "category_id"@) + (
                if ps[i as int].0 == "category_id"@ {
                    1int
                } else {
                    0int
                }));
            }
            i += 1;
        }
        let tr = match time_range {
            Some(tr) => tr,
            None => {
                proof {
                    assert(ps.subrange(0, n as int) =~= ps);
                }
                return None;
            },
        };
        let act = match action {
            Some(a) => a,
            None => {
                proof {
                    assert(ps.subrange(0, n as int) =~= ps);
                }
                return None;
            },
        };
        if aggregates.len() == 0 {
            proof {
                assert(ps.subrange(0, n as int) =~= ps);
                assert forall|q: AggregatesQuery| q.wf() implies !query_denotes(ps, q) by {
                    if query_denotes(ps, q) {
                        assert(agg_names(ps).len() == q.aggregates@.map_values(
                            |a: Aggregate| aggregate_name(a),
                        ).len());
                    }
                }
            }
            return None;
        }
        let q = AggregatesQuery {
            time_range: tr,
            action: act,
            origin,
            brand_id,
            category_id,
            aggregates,
        };
        proof {
            assert(ps.subrange(0, n as int) =~= ps);
        }
        Some(q)
    }
}

/// The store set name for an action and a projection.
pub open spec fn spec_db_set_name(a: Action, origin: bool, brand: bool, category: bool) -> Seq<
    char,
> {
    crate::user_tag::action_db_name_spec(a) + (if origin {
        "-origin"@
    } else {
        Seq::empty()
    }) + (if brand {
        "-brand_id"@
    } else {
        Seq::empty()
    }) + (if category {
        "-category_id"@
    } else {
        Seq::empty()
    })
}

/// Renders the store set name for an action and a projection.
pub fn set_name_of(a: Action, origin: bool, brand: bool, category: bool) -> (r: String)
    ensures
        r@ == spec_db_set_name(a, origin, brand, category),
{
    let mut v: Vec<char> = Vec::new();
    crate::codec::push_chars(&mut v, a.db_name());
    proof {
        assert(Seq::<char>::empty() + crate::user_tag::action_db_name_spec(a)
            =~= crate::user_tag::action_db_name_spec(a));
    }
    if origin {
        crate::codec::push_chars(&mut v, "-origin");
    } else {
        proof {
            assert(v@ + Seq::<char>::empty() =~= v@);
        }
    }
    if brand {
        crate::codec::push_chars(&mut v, "-brand_id");
    } else {
        proof {
            assert(v@ + Seq::<char>::empty() =~= v@);
        }
    }
    if category {
        crate::codec::push_chars(&mut v, "-category_id");
    } else {
        proof {
            assert(v@ + Seq::<char>::empty() =~= v@);
        }
    }
    string_from_chars(&v)
}

#[derive(Debug, PartialEq, Eq, Clone, Copy, Structural)]
pub enum ReplyError {
    RowCount,
}

/// A reply ready to serialize: the query, the bucket starts of its range in
/// order, and one row per bucket.
#[derive(Debug, Clone)]
pub struct AggregatesReply {
    pub query: AggregatesQuery,
    pub starts: Vec<DateTime>,
    pub rows: Vec<AggregatesRow>,
}

/// The views of a list of strings.
pub open spec fn str_views(l: Seq<String>) -> Seq<Seq<char>> {
    l.map_values(|s: String| s@)
}

/// The reply's column headers: bucket, action, kept dimensions, then the
/// aggregates in request order.
pub open spec fn spec_columns(q: AggregatesQuery) -> Seq<Seq<char>> {
    seq!["1m_bucket"@, "action"@] + (if q.origin is Some {
        seq!["origin"@]
    } else {
        Seq::empty()
    }) + (if q.brand_id is Some {
        seq!["brand_id"@]
    } else {
        Seq::empty()
    }) + (if q.category_id is Some {
        seq!["category_id"@]
    } else {
        Seq::empty()
    }) + q.aggregates@.map_values(|a: Aggregate| aggregate_name(a))
}

/// One reply row: bucket label, action, kept dimension values, then the
/// requested aggregates of the row as decimal strings.
pub open spec fn spec_row(q: AggregatesQuery, b: DateTime, row: AggregatesRow) -> Seq<Seq<char>> {
    seq![render_seconds(b), action_name(q.action)] + (match q.origin {
        Some(o) => seq![o@],
        None => Seq::empty(),
    }) + (match q.brand_id {
        Some(o) => seq![o@],
        None => Seq::empty(),
    }) + (match q.category_id {
        Some(o) => seq![o@],
        None => Seq::empty(),
    }) + q.aggregates@.map_values(
        |a: Aggregate|
            match a {
                Aggregate::Count => dec_str(row.count as nat),
                Aggregate::SumPrice => dec_str(row.sum_price as nat),
            },
    )
}

impl AggregatesReply {
    /// Rows align with the range's buckets, in increasing minute order.
    pub open spec fn wf(self) -> bool {
        &&& self.query.wf()
        &&& self.rows@.len() == self.starts@.len()
        &&& self.starts@.len() == self.query.time_range.to.spec_minutes()
            - self.query.time_range.from.spec_minutes()
        &&& forall|i: int|
            0 <= i < self.starts@.len() ==> {
                &&& (#[trigger] self.starts@[i]).wf()
                &&& self.starts@[i].spec_minutes() == self.query.time_range.from.spec_minutes()
                    + i
                &&& self.starts@[i].second == 0
                &&& self.starts@[i].milli == 0
            }
    }

    /// The reply's column headers.
    pub fn columns(&self) -> (r: Vec<String>)
        ensures
            str_views(r@) == spec_columns(self.query),
    {
        let mut out: Vec<String> = Vec::new();
        out.push(String::from_str("1m_bucket"));
        out.push(String::from_str("action"));
        if self.query.origin.is_some() {
            out.push(String::from_str("origin"));
        }
        if self.query.brand_id.is_some() {
            out.push(String::from_str("brand_id"));
        }
        if self.query.category_id.is_some() {
            out.push(String::from_str("category_id"));
        }
        let ghost head = str_views(out@);
        proof {
            assert(head =~= spec_columns(self.query).subrange(
                0,
                spec_columns(self.query).len() - self.query.aggregates@.len(),
            ));
        }
        let n = self.query.aggregates.len();
        let mut i: usize = 0;
        while i < n
            invariant
                0 <= i <= n,
                n == self.query.aggregates@.len(),
                str_views(out@) == head + self.query.aggregates@.subrange(0, i as int).map_values(
                    |a: Aggregate| aggregate_name(a),
                ),
            decreases n - i,
        {
            let a = self.query.aggregates[i];
            let ghost prev = out@;
            out.push(String::from_str(a.name()));
            proof {
                let f = |a: Aggregate| aggregate_name(a);
                assert(str_views(out@) =~= str_views(prev).push(aggregate_name(a)));
                assert(self.query.aggregates@.subrange(0, i + 1) =~= self.query.aggregates@
                    .subrange(0, i as int).push(a));
                assert(self.query.aggregates@.subrange(0, i as int).push(a).map_values(f)
                    =~= self.query.aggregates@.subrange(0, i as int).map_values(f).push(
                    aggregate_name(a),
                ));
                assert(str_views(prev).push(aggregate_name(a)) =~= head + self.query.aggregates@
                    .subrange(0, i as int).map_values(f).push(aggregate_name(a)));
            }
            i += 1;
        }
        proof {
            assert(self.query.aggregates@.subrange(0, n as int) =~= self.query.aggregates@);
            assert(str_views(out@) =~= spec_columns(self.query));
        }
        out
    }

    /// The reply's rows, one per bucket, in bucket order.
    pub fn render_rows(&self) -> (r: Vec<Vec<String>>)
        requires
            self.wf(),
        ensures
            r@.len() == self.rows@.len(),
            forall|i: int|
                0 <= i < r@.len() ==> str_views(#[trigger] r@[i]@) == spec_row(
                    self.query,
                    self.starts@[i],
                    self.rows@[i],
                ),
    {
        let n = self.rows.len();
        let mut out: Vec<Vec<String>> = Vec::new();
        let mut i: usize = 0;
        while i < n
            invariant
                0 <= i <= n,
                self.wf(),
                n == self.rows@.len(),
                out@.len() == i,
                forall|k: int|
                    0 <= k < i ==> str_views(#[trigger] out@[k]@) == spec_row(
                        self.query,
                        self.starts@[k],
                        self.rows@[k],
                    ),
            decreases n - i,
        {
            let row = self.render_row(i);
            out.push(row);
            i += 1;
        }
        out
    }

    #[verifier::rlimit(60)]
    fn render_row(&self, i: usize) -> (r: Vec<String>)
        requires
            self.wf(),
            i < self.rows@.len(),
        ensures
            str_views(r@) == spec_row(self.query, self.starts@[i as int], self.rows@[i as int]),
    {
        let b = &self.starts[i];
        let row = &self.rows[i];
        let mut out: Vec<String> = Vec::new();
        let mut label: Vec<char> = Vec::new();
        crate::datetime::push_seconds(&mut label, b);
        proof {
            assert(Seq::<char>::empty() + render_seconds(self.starts@[i as int]) =~= render_seconds(
                self.starts@[i as int],
            ));
        }
        out.push(string_from_chars(&label));
        out.push(String::from_str(self.query.action.name()));
        match &self.query.origin {
            Some(o) => out.push(o.clone()),
            None => {},
        }
        match &self.query.brand_id {
            Some(o) => out.push(o.clone()),
            None => {},
        }
        match &self.query.category_id {
            Some(o) => out.push(o.clone()),
            None => {},
        }
        let ghost head = str_views(out@);
        proof {
            let full = spec_row(self.query, self.starts@[i as int], self.rows@[i as int]);
            assert(head =~= full.subrange(0, full.len() - self.query.aggregates@.len()));
        }
        let n = self.query.aggregates.len();
        let mut k: usize = 0;
        while k < n
            invariant
                0 <= k <= n,
                self.wf(),
                i < self.rows@.len(),
                n == self.query.aggregates@.len(),
                row == self.rows@[i as int],
                str_views(out@) == head + self.query.aggregates@.subrange(0, k as int).map_values(
                    |a: Aggregate|
                        match a {
                            Aggregate::Count => dec_str(self.rows@[i as int].count as nat),
                            Aggregate::SumPrice => dec_str(self.rows@[i as int].sum_price as nat),
                        },
                ),
            decreases n - k,
        {
            let a = self.query.aggregates[k];
            let cell = match a {
                Aggregate::Count => render_u64(row.count),
                Aggregate::SumPrice => render_u64(row.sum_price),
            };
            let ghost prev = out@;
            let ghost cellv = cell@;
            out.push(cell);
            proof {
                let f = |a: Aggregate|
                    match a {
                        Aggregate::Count => dec_str(self.rows@[i as int].count as nat),
                        Aggregate::SumPrice => dec_str(self.rows@[i as int].sum_price as nat),
                    };
                assert(cellv == f(a));
                assert(str_views(out@) =~= str_views(prev).push(cellv));
                assert(self.query.aggregates@.subrange(0, k + 1) =~= self.query.aggregates@
                    .subrange(0, k as int).push(a));
                assert(self.query.aggregates@.subrange(0, k as int).push(a).map_values(f)
                    =~= self.query.aggregates@.subrange(0, k as int).map_values(f).push(f(a)));
                assert(str_views(prev).push(cellv) =~= head + self.query.aggregates@.subrange(
                    0,
                    k as int,
                ).map_values(f).push(f(a)));
            }
            k += 1;
        }
        proof {
            assert(self.query.aggregates@.subrange(0, n as int) =~= self.query.aggregates@);
            assert(str_views(out@) =~= spec_row(
                self.query,
                self.starts@[i as int],
                self.rows@[i as int],
            ));
        }
        out
    }
}

} // verus!
