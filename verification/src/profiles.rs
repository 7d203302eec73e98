//! Per-user profiles: bounded, time-descending event histories, queried over
//! a time window.

use vstd::prelude::*;

use crate::codec::{all_wf, seq_views};
use crate::datetime::DateTime;
use crate::time_range::SimpleTimeRange;
use crate::user_tag::{TagView, UserTag};

verus! {

/// The most recent events a profile keeps per action.
pub const PROFILE_TAGS_LIMIT: usize = 200;

#[derive(Debug, Clone)]
pub struct UserProfilesQuery {
    pub time_range: SimpleTimeRange,
    pub limit: u32,
}

impl UserProfilesQuery {
    /// The limit a query gets when it names none.
    pub fn default_limit() -> (r: u32)
        ensures
            r == 200,
    {
        200
    }

    pub open spec fn wf(self) -> bool {
        self.time_range.wf()
    }

    /// The limit actually applied: the query's, capped at the profile bound.
    pub fn effective_limit(&self) -> (r: usize)
        ensures
            r == spec_effective_limit(self.limit as int),
    {
        if self.limit > 200 {
            200
        } else {
            self.limit as usize
        }
    }
}

pub open spec fn spec_effective_limit(limit: int) -> int {
    if limit > 200 {
        200
    } else {
        limit
    }
}

#[derive(Debug, Clone)]
pub struct UserProfilesReply {
    pub cookie: String,
    pub views: Vec<UserTag>,
    pub buys: Vec<UserTag>,
}

/// Newest first: timestamps never increase along the list.
pub open spec fn sorted_desc(l: Seq<TagView>) -> bool {
    forall|i: int, j: int|
        0 <= i < j < l.len() ==> (#[trigger] l[i]).time.spec_millis() >= (#[trigger] l[j]).time.spec_millis()
}

/// Inserts an event into a descending list, after events of equal time.
pub open spec fn insert_desc(l: Seq<TagView>, t: TagView) -> Seq<TagView>
    decreases l.len(),
{
    if l.len() > 0 && l[0].time.spec_millis() >= t.time.spec_millis() {
        seq![l[0]] + insert_desc(l.drop_first(), t)
    } else {
        seq![t] + l
    }
}

/// The first `n` items, or all of them where fewer exist.
pub open spec fn clip<T>(s: Seq<T>, n: int) -> Seq<T> {
    if n <= s.len() {
        s.subrange(0, n)
    } else {
        s
    }
}

/// What a profile update stores: the event in time order, oldest overflow
/// dropped past the bound.
pub open spec fn spec_profile_update(l: Seq<TagView>, t: TagView) -> Seq<TagView> {
    clip(insert_desc(l, t), 200)
}

/// Inserting at the first index holding a strictly older event realizes the
/// ordered insertion.
proof fn lemma_insert_desc_at(l: Seq<TagView>, t: TagView, idx: int)
    requires
        0 <= idx <= l.len(),
        forall|k: int| 0 <= k < idx ==> (#[trigger] l[k]).time.spec_millis() >= t.time.spec_millis(),
        idx < l.len() ==> l[idx].time.spec_millis() < t.time.spec_millis(),
    ensures
        insert_desc(l, t) == l.insert(idx, t),
    decreases l.len(),
{
    if l.len() > 0 && l[0].time.spec_millis() >= t.time.spec_millis() {
        assert(idx >= 1);
        let rest = l.drop_first();
        assert(forall|k: int| 0 <= k < idx - 1 ==> (#[trigger] rest[k]).time.spec_millis()
            >= t.time.spec_millis());
        lemma_insert_desc_at(rest, t, idx - 1);
        assert(insert_desc(l, t) =~= l.insert(idx, t));
    } else {
        assert(idx == 0) by {
            if idx > 0 {
                assert(l[0].time.spec_millis() >= t.time.spec_millis());
            }
        }
        assert(insert_desc(l, t) =~= l.insert(0, t));
    }
}

/// Applies one event to a stored profile list: inserted in descending time
/// order after equal times, then trimmed to the newest two hundred.
pub fn apply_profile_update(tags: &mut Vec<UserTag>, tag: UserTag)
    requires
        sorted_desc(seq_views(old(tags)@)),
        all_wf(seq_views(old(tags)@)),
        tag@.wf(),
    ensures
        seq_views(final(tags)@) == spec_profile_update(seq_views(old(tags)@), tag@),
        final(tags)@.len() <= 200,
        sorted_desc(seq_views(final(tags)@)),
        all_wf(seq_views(final(tags)@)),
{
    let ghost l = seq_views(tags@);
    let t_ms = tag.time.timestamp_millis();
    let idx = find_insert_at(tags, t_ms);
    tags.insert(idx, tag);
    proof {
        lemma_insert_desc_at(l, tag@, idx as int);
        assert(seq_views(tags@) =~= l.insert(idx as int, tag@));
    }
    tags.truncate(PROFILE_TAGS_LIMIT);
    proof {
        let ins = l.insert(idx as int, tag@);
        if ins.len() > 200 {
            assert(seq_views(tags@) =~= clip(ins, 200));
        } else {
            assert(seq_views(tags@) =~= clip(ins, 200));
        }
        let r = seq_views(tags@);
        assert forall|i: int, j: int| 0 <= i < j < r.len() implies (#[trigger] r[i]).time.spec_millis()
            >= (#[trigger] r[j]).time.spec_millis() by {
            lemma_insert_sorted(l, tag@, idx as int);
            assert(r[i] == ins[i] && r[j] == ins[j]);
        }
        assert forall|i: int| 0 <= i < r.len() implies (#[trigger] r[i]).wf() by {
            assert(r[i] == ins[i]);
            if i < idx {
                assert(ins[i] == l[i]);
            } else if i == idx {
                assert(ins[i] == tag@);
            } else {
                assert(ins[i] == l[i - 1]);
            }
        }
    }
}

/// The index before which a new event of the given time belongs: after all
/// entries at least as recent.
fn find_insert_at(tags: &Vec<UserTag>, t_ms: i64) -> (idx: usize)
    requires
        all_wf(seq_views(tags@)),
    ensures
        0 <= idx <= tags@.len(),
        forall|k: int|
            0 <= k < idx ==> (#[trigger] seq_views(tags@)[k]).time.spec_millis() >= t_ms,
        idx < tags@.len() ==> seq_views(tags@)[idx as int].time.spec_millis() < t_ms,
{
    let ghost l = seq_views(tags@);
    let n = tags.len();
    let mut idx: usize = 0;
    while idx < n
        invariant
            0 <= idx <= n,
            n == tags@.len(),
            l == seq_views(tags@),
            all_wf(l),
            forall|k: int| 0 <= k < idx ==> (#[trigger] l[k]).time.spec_millis() >= t_ms,
        decreases n - idx,
    {
        proof {
            assert(l[idx as int].wf());
            assert(l[idx as int] == tags@[idx as int]@);
        }
        if tags[idx].time.timestamp_millis() < t_ms {
            return idx;
        }
        idx += 1;
    }
    idx
}

/// Ordered insertion at the right index keeps the list ordered.
proof fn lemma_insert_sorted(l: Seq<TagView>, t: TagView, idx: int)
    requires
        sorted_desc(l),
        0 <= idx <= l.len(),
        forall|k: int| 0 <= k < idx ==> (#[trigger] l[k]).time.spec_millis() >= t.time.spec_millis(),
        idx < l.len() ==> l[idx].time.spec_millis() < t.time.spec_millis(),
    ensures
        sorted_desc(l.insert(idx, t)),
{
    let r = l.insert(idx, t);
    assert forall|i: int, j: int| 0 <= i < j < r.len() implies (#[trigger] r[i]).time.spec_millis()
        >= (#[trigger] r[j]).time.spec_millis() by {
        if i < idx {
            assert(r[i] == l[i]);
        } else if i == idx {
            assert(r[i] == t);
        } else {
            assert(r[i] == l[i - 1]);
        }
        if j < idx {
            assert(r[j] == l[j]);
        } else if j == idx {
            assert(r[j] == t);
        } else {
            assert(r[j] == l[j - 1]);
        }
    }
}

/// The events of a list inside the half-open window, oldest last, in order.
pub open spec fn window(l: Seq<TagView>, lo: int, hi: int) -> Seq<TagView>
    decreases l.len(),
{
    if l.len() == 0 {
        Seq::empty()
    } else {
        window(l.drop_last(), lo, hi) + (if lo <= l.last().time.spec_millis() < hi {
            seq![l.last()]
        } else {
            Seq::empty()
        })
    }
}

/// Keeps the events with `from <= time < to`, at most `limit` of them.
pub fn filter_window(tags: &Vec<UserTag>, range: &SimpleTimeRange, limit: usize) -> (r: Vec<
    UserTag,
>)
    requires
        all_wf(seq_views(tags@)),
        range.wf(),
    ensures
        seq_views(r@) == clip(
            window(seq_views(tags@), range.from.spec_millis(), range.to.spec_millis()),
            limit as int,
        ),
        all_wf(seq_views(r@)),
{
    let ghost l = seq_views(tags@);
    let lo = range.from.timestamp_millis();
    let hi = range.to.timestamp_millis();
    let n = tags.len();
    let mut out: Vec<UserTag> = Vec::new();
    let mut i: usize = 0;
    while i < n
        invariant
            0 <= i <= n,
            n == tags@.len(),
            l == seq_views(tags@),
            all_wf(l),
            range.wf(),
            lo == range.from.spec_millis(),
            hi == range.to.spec_millis(),
            seq_views(out@) == window(l.subrange(0, i as int), lo as int, hi as int),
            all_wf(seq_views(out@)),
        decreases n - i,
    {
        proof {
            assert(l[i as int].wf());
            assert(l.subrange(0, i + 1).drop_last() =~= l.subrange(0, i as int));
            assert(l.subrange(0, i + 1).last() == l[i as int]);
        }
        let ghost prev = seq_views(out@);
        let t = &tags[i];
        let ms = t.time.timestamp_millis();
        if lo <= ms && ms < hi {
            out.push(t.duplicate());
            proof {
                assert(tags@[i as int]@ == l[i as int]);
                assert(seq_views(out@) =~= prev.push(l[i as int]));
                assert(window(l.subrange(0, i + 1), lo as int, hi as int) =~= prev.push(
                    l[i as int],
                ));
            }
        } else {
            proof {
                assert(window(l.subrange(0, i + 1), lo as int, hi as int) =~= prev);
            }
        }
        i += 1;
    }
    proof {
        assert(l.subrange(0, n as int) =~= l);
    }
    out.truncate(limit);
    proof {
        let w = window(l, lo as int, hi as int);
        if limit as int <= w.len() {
            assert(seq_views(out@) =~= clip(w, limit as int));
        } else {
            assert(seq_views(out@) =~= clip(w, limit as int));
        }
    }
    out
}

/// Neighbours in order at one index.
spec fn pair_ok(l: Seq<TagView>, k: int) -> bool {
    l[k].time.spec_millis() >= l[k + 1].time.spec_millis()
}

/// A list ordered between neighbours is ordered throughout.
proof fn lemma_adjacent_sorted_all(l: Seq<TagView>)
    requires
        forall|k: int| 0 <= k < l.len() - 1 ==> #[trigger] pair_ok(l, k),
    ensures
        sorted_desc(l),
{
    assert forall|a: int, b: int| 0 <= a < b < l.len() implies (
    #[trigger] l[a]).time.spec_millis() >= (#[trigger] l[b]).time.spec_millis() by {
        lemma_adjacent_sorted(l, a, b);
    }
}

/// Adjacent order decides the whole order.
proof fn lemma_adjacent_sorted(l: Seq<TagView>, i: int, j: int)
    requires
        forall|k: int| 0 <= k < l.len() - 1 ==> #[trigger] pair_ok(l, k),
        0 <= i <= j < l.len(),
    ensures
        l[i].time.spec_millis() >= l[j].time.spec_millis(),
    decreases j - i,
{
    if i < j {
        assert(pair_ok(l, i));
        lemma_adjacent_sorted(l, i + 1, j);
    }
}

/// Whether the list is newest first.
#[verifier::rlimit(100)]
pub fn is_sorted_desc(tags: &Vec<UserTag>) -> (r: bool)
    requires
        all_wf(seq_views(tags@)),
    ensures
        r == sorted_desc(seq_views(tags@)),
{
    let ghost l = seq_views(tags@);
    let n = tags.len();
    if n == 0 {
        return true;
    }
    let mut i: usize = 0;
    while i < n - 1
        invariant
            0 <= i <= n - 1,
            n >= 1,
            n == tags@.len(),
            l == seq_views(tags@),
            all_wf(l),
            forall|k: int| 0 <= k < i ==> #[trigger] pair_ok(l, k),
        decreases n - i,
    {
        proof {
            assert(l[i as int].wf());
            assert(l[i + 1].wf());
        }
        if tags[i].time.timestamp_millis() < tags[i + 1].time.timestamp_millis() {
            proof {
                assert(!pair_ok(l, i as int));
                assert(!sorted_desc(l)) by {
                    if sorted_desc(l) {
                        assert(l[i as int].time.spec_millis() >= l[i + 1].time.spec_millis());
                    }
                }
            }
            return false;
        }
        proof {
            assert(pair_ok(l, i as int));
        }
        i += 1;
    }
    proof {
        lemma_adjacent_sorted_all(l);
    }
    true
}

#[derive(Debug, Clone, Copy, PartialEq, Eq, Structural)]
pub enum ProfileDataError {
    Malformed,
}

/// The read-and-apply half of one profile compare-and-set attempt: reads the
/// stored list (an absent record stands for an empty one), inserts the event
/// and trims, and renders the payload to write back.  Fails exactly when the
/// stored payload is the rendering of no sorted, well-formed event list.
pub fn next_profile_payload(stored: Option<&str>, tag: &UserTag) -> (r: Result<
    String,
    ProfileDataError,
>)
    requires
        tag@.wf(),
    ensures
        match r {
            Ok(p) => exists|ts: Seq<TagView>|
                {
                    &&& match stored {
                        Some(s) => s@ == crate::codec::spec_render_tags(ts),
                        None => ts == Seq::<TagView>::empty(),
                    }
                    &&& #[trigger] sorted_desc(ts)
                    &&& all_wf(ts)
                    &&& p@ == crate::codec::spec_render_tags(spec_profile_update(ts, tag@))
                },
            Err(e) => {
                &&& e == ProfileDataError::Malformed
                &&& stored is Some
                &&& match stored {
                    Some(s) => forall|ts: Seq<TagView>|
                        sorted_desc(ts) && all_wf(ts) ==> s@ != #[trigger]
                        crate::codec::spec_render_tags(ts),
                    None => false,
                }
            },
        },
{
    let mut tags: Vec<UserTag> = match stored {
        None => Vec::new(),
        Some(s) => match crate::codec::parse_user_tags(s) {
            Some(ts) => ts,
            None => {
                return Err(ProfileDataError::Malformed);
            },
        },
    };
    proof {
        if stored is None {
            assert(seq_views(tags@) =~= Seq::<TagView>::empty());
        }
    }
    if !is_sorted_desc(&tags) {
        proof {
            match stored {
                Some(s) => {
                    assert forall|ts: Seq<TagView>|
                        sorted_desc(ts) && all_wf(ts) implies s@ != #[trigger]
                        crate::codec::spec_render_tags(ts) by {
                        if s@ == crate::codec::spec_render_tags(ts) {
                            assert(ts == seq_views(tags@));
                        }
                    }
                },
                None => {
                    assert(sorted_desc(seq_views(tags@)));
                },
            }
        }
        return Err(ProfileDataError::Malformed);
    }
    let ghost ts = seq_views(tags@);
    apply_profile_update(&mut tags, tag.duplicate());
    let payload = crate::codec::render_user_tags(&tags);
    proof {
        assert(match stored {
            Some(s) => s@ == crate::codec::spec_render_tags(ts),
            None => ts == Seq::<TagView>::empty(),
        } && sorted_desc(ts) && all_wf(ts) && payload@ == crate::codec::spec_render_tags(
            spec_profile_update(ts, tag@),
        ));
    }
    Ok(payload)
}

/// Events inside the window stay inside it.
proof fn lemma_window_in_range(l: Seq<TagView>, lo: int, hi: int)
    ensures
        forall|i: int|
            0 <= i < window(l, lo, hi).len() ==> lo <= (#[trigger] window(l, lo, hi)[i]).time.spec_millis() < hi,
    decreases l.len(),
{
    if l.len() > 0 {
        lemma_window_in_range(l.drop_last(), lo, hi);
        let w = window(l, lo, hi);
        let p = window(l.drop_last(), lo, hi);
        assert forall|i: int| 0 <= i < w.len() implies lo <= (#[trigger] w[i]).time.spec_millis()
            < hi by {
            if i < p.len() {
                assert(w[i] == p[i]);
            } else {
                assert(w[i] == l.last());
            }
        }
    }
}

/// Profile window: the reply holds at most `limit` events, each inside the
/// half-open query window.
pub proof fn lemma_profile_window(l: Seq<TagView>, lo: int, hi: int, limit: int)
    requires
        0 <= limit,
    ensures
        clip(window(l, lo, hi), limit).len() <= limit,
        forall|i: int|
            0 <= i < clip(window(l, lo, hi), limit).len() ==> lo <= (#[trigger] clip(
                window(l, lo, hi),
                limit,
            )[i]).time.spec_millis() < hi,
{
    lemma_window_in_range(l, lo, hi);
    let w = window(l, lo, hi);
    let c = clip(w, limit);
    assert forall|i: int| 0 <= i < c.len() implies lo <= (#[trigger] c[i]).time.spec_millis()
        < hi by {
        assert(c[i] == w[i]);
    }
}

/// The stored profile after a run of updates, starting from an empty record.
pub open spec fn profile_after(ts: Seq<TagView>) -> Seq<TagView>
    decreases ts.len(),
{
    if ts.len() == 0 {
        Seq::empty()
    } else {
        spec_profile_update(profile_after(ts.drop_last()), ts.last())
    }
}

/// Profile trimming: when events arrive in strictly increasing time order,
/// the stored list ends as exactly the newest two hundred of them, newest
/// first; everything older is gone.
pub proof fn lemma_profile_history(ts: Seq<TagView>)
    requires
        forall|i: int, j: int|
            0 <= i < j < ts.len() ==> (#[trigger] ts[i]).time.spec_millis() < (
            #[trigger] ts[j]).time.spec_millis(),
    ensures
        profile_after(ts) == clip(ts.reverse(), 200),
    decreases ts.len(),
{
    if ts.len() == 0 {
        assert(profile_after(ts) =~= clip(ts.reverse(), 200));
    } else {
        let dl = ts.drop_last();
        let t = ts.last();
        assert(forall|i: int| 0 <= i < dl.len() ==> #[trigger] dl[i] == ts[i]);
        lemma_profile_history(dl);
        let p = profile_after(dl);
        if p.len() > 0 {
            assert(p[0] == dl.reverse()[0]);
            assert(dl.reverse()[0] == dl[dl.len() - 1]);
            assert(dl[dl.len() - 1].time.spec_millis() < t.time.spec_millis());
        }
        assert(insert_desc(p, t) == seq![t] + p);
        assert(profile_after(ts) == clip(seq![t] + clip(dl.reverse(), 200), 200));
        assert(ts.reverse()[0] == t);
        assert(forall|k: int| 1 <= k < ts.len() ==> ts.reverse()[k] == #[trigger] dl.reverse()[k
            - 1]);
        assert(clip(seq![t] + clip(dl.reverse(), 200), 200) =~= clip(ts.reverse(), 200));
    }
}

/// Builds the profile reply: both stored lists cut to the query's window and
/// limit.
pub fn make_profile_reply(
    cookie: String,
    views: Vec<UserTag>,
    buys: Vec<UserTag>,
    query: &UserProfilesQuery,
) -> (r: UserProfilesReply)
    requires
        all_wf(seq_views(views@)),
        all_wf(seq_views(buys@)),
        query.wf(),
    ensures
        r.cookie == cookie,
        seq_views(r.views@) == clip(
            window(
                seq_views(views@),
                query.time_range.from.spec_millis(),
                query.time_range.to.spec_millis(),
            ),
            spec_effective_limit(query.limit as int),
        ),
        seq_views(r.buys@) == clip(
            window(
                seq_views(buys@),
                query.time_range.from.spec_millis(),
                query.time_range.to.spec_millis(),
            ),
            spec_effective_limit(query.limit as int),
        ),
{
    let limit = query.effective_limit();
    let views = filter_window(&views, &query.time_range, limit);
    let buys = filter_window(&buys, &query.time_range, limit);
    UserProfilesReply { cookie, views, buys }
}

} // verus!
