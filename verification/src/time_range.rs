//! Time ranges: the millisecond-precision form used by profile queries and
//! the minute-aligned form used by aggregate queries.
//!
//! Both serialize as `<from>_<to>` with `from <= to`; the minute-aligned
//! form demands second precision, both endpoints on minute boundaries and a
//! span of at most ten minutes.

use vstd::prelude::*;

use crate::datetime::{
    is_millis_form, lemma_minutes_bound, parse_millis_region, parse_seconds_region,
    render_millis, render_seconds, DateTime,
};
use crate::text::chars_of;

verus! {

#[derive(Debug, PartialEq, Eq, Clone, Copy)]
pub struct TimeRange<const BUCKETS: bool> {
    pub from: DateTime,
    pub to: DateTime,
}

pub type SimpleTimeRange = TimeRange<false>;

pub type BucketsRange = TimeRange<true>;

impl<const BUCKETS: bool> TimeRange<BUCKETS> {
    pub open spec fn wf(self) -> bool {
        &&& self.from.wf()
        &&& self.to.wf()
        &&& self.from.spec_millis() <= self.to.spec_millis()
        &&& BUCKETS ==> {
            &&& self.from.second == 0 && self.from.milli == 0
            &&& self.to.second == 0 && self.to.milli == 0
            &&& self.to.spec_minutes() - self.from.spec_minutes() <= 10
        }
    }

    pub fn from(&self) -> (r: &DateTime)
        ensures
            r == self.from,
    {
        &self.from
    }

    pub fn to(&self) -> (r: &DateTime)
        ensures
            r == self.to,
    {
        &self.to
    }
}

/// The string is `<from>_<to>` in millisecond-or-second precision.
pub open spec fn simple_range_denotes(s: Seq<char>, fr: DateTime, to: DateTime) -> bool {
    exists|i: int|
        0 <= i < s.len() && #[trigger] s[i] == '_' && is_millis_form(s.subrange(0, i), fr)
            && is_millis_form(s.subrange(i + 1, s.len() as int), to)
}

/// The string is `<from>_<to>` in second precision exactly.
pub open spec fn buckets_range_denotes(s: Seq<char>, fr: DateTime, to: DateTime) -> bool {
    &&& fr.wf() && to.wf()
    &&& s.len() == 39
    &&& s[19] == '_'
    &&& s.subrange(0, 19) == render_seconds(fr) && fr.milli == 0
    &&& s.subrange(20, 39) == render_seconds(to) && to.milli == 0
}

impl SimpleTimeRange {
    /// Reads a `<from>_<to>` range string with millisecond-or-second
    /// endpoints; fails exactly on strings that denote no ordered range.
    pub fn parse(s: &str) -> (r: Option<SimpleTimeRange>)
        ensures
            match r {
                Some(tr) => tr.wf() && simple_range_denotes(s@, tr.from, tr.to),
                None => forall|fr: DateTime, to: DateTime|
                    fr.wf() && to.wf() && fr.spec_millis() <= to.spec_millis()
                        ==> !simple_range_denotes(s@, fr, to),
            },
    {
        let v = chars_of(s);
        let n = v.len();
        let split: usize = if n >= 20 && sep(&v, 19) {
            19
        } else if n >= 24 && sep(&v, 23) {
            23
        } else {
            proof {
                assert forall|fr: DateTime, to: DateTime|
                    fr.wf() && to.wf() && fr.spec_millis()
                        <= to.spec_millis() implies !simple_range_denotes(s@, fr, to) by {
                    if simple_range_denotes(s@, fr, to) {
                        let i = choose|i: int|
                            0 <= i < s@.len() && #[trigger] s@[i] == '_' && is_millis_form(
                                s@.subrange(0, i),
                                fr,
                            ) && is_millis_form(s@.subrange(i + 1, s@.len() as int), to);
                        assert(render_seconds(fr).len() == 19);
                        assert(render_millis(fr).len() == 23);
                        assert(render_seconds(to).len() == 19);
                        assert(render_millis(to).len() == 23);
                        assert(s@.subrange(0, i).len() == i);
                        assert(i == 19 || i == 23);
                        assert(s@.subrange(i + 1, s@.len() as int).len() == s@.len() - i - 1);
                        assert(s@.len() >= i + 1 + 19);
                    }
                }
            }
            return None;
        };
        let fr = match parse_millis_region(&v, 0, split) {
            Some(fr) => fr,
            None => {
                proof {
                    lemma_no_simple_split(s@, split as int);
                }
                return None;
            },
        };
        let to = match parse_millis_region(&v, split + 1, n) {
            Some(to) => to,
            None => {
                proof {
                    lemma_no_simple_split(s@, split as int);
                }
                return None;
            },
        };
        if !fr.not_after(&to) {
            proof {
                assert forall|f2: DateTime, t2: DateTime|
                    f2.wf() && t2.wf() && f2.spec_millis()
                        <= t2.spec_millis() implies !simple_range_denotes(s@, f2, t2) by {
                    if simple_range_denotes(s@, f2, t2) {
                        lemma_simple_split_unique(s@, split as int, f2, t2, fr, to);
                    }
                }
            }
            return None;
        }
        proof {
            assert(simple_range_denotes(s@, fr, to)) by {
                assert(s@[split as int] == '_');
                assert(is_millis_form(s@.subrange(0, split as int), fr));
                assert(is_millis_form(s@.subrange(split + 1, s@.len() as int), to));
            }
        }
        Some(TimeRange { from: fr, to })
    }
}

fn sep(v: &Vec<char>, i: usize) -> (r: bool)
    requires
        i < v@.len(),
    ensures
        r == (v@[i as int] == '_'),
{
    v[i] == '_'
}

/// If one endpoint around an underscore at a known split fails to parse, no
/// pair denotes the string: another split would put `.` and `_` in one place.
proof fn lemma_no_simple_split(s: Seq<char>, split: int)
    requires
        split == 19 || split == 23,
        0 <= split < s.len(),
        s[split] == '_',
        split == 23 ==> s.len() < 20 || s[19] != '_',
        (forall|dt: DateTime| !#[trigger] is_millis_form(s.subrange(0, split), dt)) || (forall|
            dt: DateTime,
        |
            !#[trigger] is_millis_form(s.subrange(split + 1, s.len() as int), dt)),
    ensures
        forall|fr: DateTime, to: DateTime| !simple_range_denotes(s, fr, to),
{
    assert forall|fr: DateTime, to: DateTime| !simple_range_denotes(s, fr, to) by {
        if simple_range_denotes(s, fr, to) {
            let i = choose|i: int|
                0 <= i < s.len() && #[trigger] s[i] == '_' && is_millis_form(s.subrange(0, i), fr)
                    && is_millis_form(s.subrange(i + 1, s.len() as int), to);
            assert(render_seconds(fr).len() == 19);
            assert(render_millis(fr).len() == 23);
            assert(s.subrange(0, i).len() == i);
            assert(i == 19 || i == 23);
            if i != split {
                if i == 19 && split == 23 {
                    assert(false);
                } else {
                    // i == 23, split == 19: the 23-character prefix form has a
                    // dot where the underscore stands.
                    let a = s.subrange(0, 23);
                    assert(a.len() == 23);
                    assert(a == crate::datetime::render_millis(fr));
                    assert(a[19] == '.');
                    assert(a[19] == s[19]);
                    assert(false);
                }
            }
        }
    }
}

/// Both pairs denoting the string through the same split are equal.
proof fn lemma_simple_split_unique(
    s: Seq<char>,
    split: int,
    f1: DateTime,
    t1: DateTime,
    f2: DateTime,
    t2: DateTime,
)
    requires
        split == 19 || split == 23,
        0 <= split < s.len(),
        s[split] == '_',
        split == 23 ==> s.len() < 20 || s[19] != '_',
        simple_range_denotes(s, f1, t1),
        is_millis_form(s.subrange(0, split), f2),
        is_millis_form(s.subrange(split + 1, s.len() as int), t2),
    ensures
        f1 == f2 && t1 == t2,
{
    let i = choose|i: int|
        0 <= i < s.len() && #[trigger] s[i] == '_' && is_millis_form(s.subrange(0, i), f1)
            && is_millis_form(s.subrange(i + 1, s.len() as int), t1);
    assert(render_seconds(f1).len() == 19);
    assert(render_millis(f1).len() == 23);
    assert(s.subrange(0, i).len() == i);
    assert(i == 19 || i == 23);
    if i != split {
        if i == 23 && split == 19 {
            let a = s.subrange(0, 23);
            assert(a == crate::datetime::render_millis(f1));
            assert(a[19] == '.');
            assert(a[19] == s[19]);
        }
        assert(false);
    }
    crate::datetime::lemma_millis_form_unique(s.subrange(0, split), f1, f2);
    crate::datetime::lemma_millis_form_unique(s.subrange(split + 1, s.len() as int), t1, t2);
}

impl BucketsRange {
    /// Reads a `<from>_<to>` range string with second-precision endpoints on
    /// minute boundaries spanning at most ten minutes; fails exactly on
    /// strings that denote no such range.
    pub fn parse(s: &str) -> (r: Option<BucketsRange>)
        ensures
            match r {
                Some(tr) => tr.wf() && buckets_range_denotes(s@, tr.from, tr.to),
                None => forall|fr: DateTime, to: DateTime|
                    !(buckets_range_denotes(s@, fr, to) && fr.second == 0 && to.second == 0
                        && fr.spec_millis() <= to.spec_millis() && to.spec_minutes()
                        - fr.spec_minutes() <= 10),
            },
    {
        let v = chars_of(s);
        let n = v.len();
        if n != 39 {
            return None;
        }
        if !sep(&v, 19) {
            return None;
        }
        let fr = match parse_seconds_region(&v, 0, 19) {
            Some(fr) => fr,
            None => {
                return None;
            },
        };
        let to = match parse_seconds_region(&v, 20, 39) {
            Some(to) => to,
            None => {
                return None;
            },
        };
        proof {
            assert forall|f2: DateTime, t2: DateTime|
                buckets_range_denotes(s@, f2, t2) implies f2 == fr && t2 == to by {
                crate::datetime::lemma_render_seconds_unique(s@.subrange(0, 19), f2, fr);
                crate::datetime::lemma_render_seconds_unique(s@.subrange(20, 39), t2, to);
            }
        }
        if fr.second != 0 || to.second != 0 {
            return None;
        }
        if !fr.not_after(&to) {
            return None;
        }
        let fm = fr.total_minutes();
        let tm = to.total_minutes();
        if tm - fm > 10 {
            return None;
        }
        Some(TimeRange { from: fr, to })
    }

    /// How many one-minute buckets the range spans.
    pub fn buckets_count(&self) -> (r: usize)
        requires
            self.wf(),
        ensures
            r == self.to.spec_minutes() - self.from.spec_minutes(),
            r <= 10,
    {
        let fm = self.from.total_minutes();
        let tm = self.to.total_minutes();
        (tm - fm) as usize
    }

    /// The starts of the buckets, in increasing order, one minute apart:
    /// the range's own start, then each minute's calendar successor.
    #[verifier::rlimit(100)]
    #[verifier::spinoff_prover]
    pub fn bucket_starts(&self) -> (r: Vec<DateTime>)
        requires
            self.wf(),
        ensures
            r@.len() == self.to.spec_minutes() - self.from.spec_minutes(),
            r@.len() > 0 ==> r@[0] == self.from,
            forall|i: int|
                0 <= i < r@.len() - 1 ==> r@[i + 1] == crate::datetime::spec_succ_minute(
                    #[trigger] r@[i],
                ),
            forall|i: int|
                0 <= i < r@.len() ==> {
                    &&& (#[trigger] r@[i]).wf()
                    &&& r@[i].spec_minutes() == self.from.spec_minutes() + i
                    &&& r@[i].second == 0
                    &&& r@[i].milli == 0
                },
    {
        let count = self.buckets_count();
        let mut out: Vec<DateTime> = Vec::new();
        let mut cur = self.from;
        while out.len() < count
            invariant
                self.wf(),
                count == self.to.spec_minutes() - self.from.spec_minutes(),
                out@.len() <= count,
                out@.len() > 0 ==> out@[0] == self.from,
                forall|i: int|
                    0 <= i < out@.len() - 1 ==> out@[i + 1] == crate::datetime::spec_succ_minute(
                        #[trigger] out@[i],
                    ),
                out@.len() < count ==> {
                    &&& cur.wf()
                    &&& cur.second == 0
                    &&& cur.milli == 0
                    &&& cur.spec_minutes() == self.from.spec_minutes() + out@.len()
                    &&& (out@.len() > 0 ==> cur == crate::datetime::spec_succ_minute(
                        out@.last(),
                    ))
                },
                forall|i: int|
                    0 <= i < out@.len() ==> {
                        &&& (#[trigger] out@[i]).wf()
                        &&& out@[i].spec_minutes() == self.from.spec_minutes() + i
                        &&& out@[i].second == 0
                        &&& out@[i].milli == 0
                    },
            decreases count - out@.len(),
        {
            out.push(cur);
            if out.len() < count {
                proof {
                    lemma_minutes_bound(self.to);
                }
                cur = cur.succ_minute();
            }
        }
        out
    }
}

} // verus!
