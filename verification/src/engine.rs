//! The aggregation engine: in-memory batching of per-bucket counts and price
//! sums under one filter projection, with per-partition offsets to commit
//! after a successful flush.

use vstd::prelude::*;

use crate::aggregates::AggregatesBucket;
use crate::filters::{opt_view, AggregatesFilter};
use crate::user_tag::{Action, TagView, UserTag};

verus! {

/// One partition of the event broker.
#[derive(Debug, Clone, PartialEq, Eq)]
pub struct SubStream {
    pub topic: String,
    pub partition: i32,
}

/// An event as delivered: the tag and where it sat on the broker.
#[derive(Debug, Clone)]
pub struct Event {
    pub inner: UserTag,
    pub substream: SubStream,
    pub offset: i64,
}

/// Ghost image of a bucket: the minute and the kept dimension values.
pub ghost struct BucketView {
    pub timestamp: int,
    pub origin: Option<Seq<char>>,
    pub brand_id: Option<Seq<char>>,
    pub category_id: Option<Seq<char>>,
}

pub open spec fn bucket_view(b: AggregatesBucket) -> BucketView {
    BucketView {
        timestamp: b.timestamp as int,
        origin: opt_view(b.origin),
        brand_id: opt_view(b.brand_id),
        category_id: opt_view(b.category_id),
    }
}

/// The accumulator key an event lands on under a projection.
pub open spec fn key_of(f: AggregatesFilter, tv: TagView) -> (Action, BucketView) {
    (
        tv.action,
        BucketView {
            timestamp: tv.time.spec_minutes(),
            origin: if f.origin {
                Some(tv.origin)
            } else {
                None
            },
            brand_id: if f.brand_id {
                Some(tv.brand_id)
            } else {
                None
            },
            category_id: if f.category_id {
                Some(tv.category_id)
            } else {
                None
            },
        },
    )
}

/// How many of the events land on this key under the projection.
pub open spec fn totals_count(evs: Seq<TagView>, f: AggregatesFilter, key: (Action, BucketView)) -> int
    decreases evs.len(),
{
    if evs.len() == 0 {
        0
    } else {
        totals_count(evs.drop_last(), f, key) + if key_of(f, evs.last()) == key {
            1int
        } else {
            0int
        }
    }
}

/// The prices of the events landing on this key, summed.
pub open spec fn totals_sum(evs: Seq<TagView>, f: AggregatesFilter, key: (Action, BucketView)) -> int
    decreases evs.len(),
{
    if evs.len() == 0 {
        0
    } else {
        totals_sum(evs.drop_last(), f, key) + if key_of(f, evs.last()) == key {
            evs.last().price as int
        } else {
            0int
        }
    }
}

/// One event folded into the accumulator.
pub open spec fn acc_step(
    m: Map<(Action, BucketView), (int, int)>,
    f: AggregatesFilter,
    tv: TagView,
) -> Map<(Action, BucketView), (int, int)> {
    let k = key_of(f, tv);
    let prev = if m.dom().contains(k) {
        m[k]
    } else {
        (0int, 0int)
    };
    m.insert(k, (prev.0 + 1, prev.1 + tv.price))
}

/// The accumulator after a run of events, starting empty.
pub open spec fn acc_after(f: AggregatesFilter, evs: Seq<TagView>) -> Map<
    (Action, BucketView),
    (int, int),
>
    decreases evs.len(),
{
    if evs.len() == 0 {
        Map::empty()
    } else {
        acc_step(acc_after(f, evs.drop_last()), f, evs.last())
    }
}

/// Aggregate sum of sums: after a full run of events the accumulator holds,
/// for every key, exactly the count of matching events and the sum of their
/// prices — and nothing for keys no event hit.
pub proof fn lemma_sum_of_sums(f: AggregatesFilter, evs: Seq<TagView>, key: (Action, BucketView))
    ensures
        acc_after(f, evs).dom().contains(key) ==> acc_after(f, evs)[key] == (
            totals_count(evs, f, key),
            totals_sum(evs, f, key),
        ),
        !acc_after(f, evs).dom().contains(key) ==> totals_count(evs, f, key) == 0 && totals_sum(
            evs,
            f,
            key,
        ) == 0,
    decreases evs.len(),
{
    if evs.len() > 0 {
        lemma_sum_of_sums(f, evs.drop_last(), key);
    }
}

/// Totals add across consecutive runs of events.
pub proof fn lemma_totals_concat(
    f: AggregatesFilter,
    evs1: Seq<TagView>,
    evs2: Seq<TagView>,
    key: (Action, BucketView),
)
    ensures
        totals_count(evs1 + evs2, f, key) == totals_count(evs1, f, key) + totals_count(
            evs2,
            f,
            key,
        ),
        totals_sum(evs1 + evs2, f, key) == totals_sum(evs1, f, key) + totals_sum(evs2, f, key),
    decreases evs2.len(),
{
    if evs2.len() == 0 {
        assert(evs1 + evs2 =~= evs1);
    } else {
        assert((evs1 + evs2).drop_last() =~= evs1 + evs2.drop_last());
        lemma_totals_concat(f, evs1, evs2.drop_last(), key);
        assert((evs1 + evs2).last() == evs2.last());
    }
}

/// The delta one run of events leaves pending for a key.
pub open spec fn pending_delta(
    f: AggregatesFilter,
    evs: Seq<TagView>,
    key: (Action, BucketView),
) -> (int, int) {
    if acc_after(f, evs).dom().contains(key) {
        acc_after(f, evs)[key]
    } else {
        (0int, 0int)
    }
}

/// Replay after an uncommitted flush: one run's delta reaches the store but
/// its offsets are never committed, so the events replay and a second run's
/// delta lands on top.  The record then holds the totals over everything
/// processed, duplicates included — at-least-once with deterministic
/// re-aggregation.
pub proof fn lemma_replay_totals(
    f: AggregatesFilter,
    evs1: Seq<TagView>,
    evs2: Seq<TagView>,
    key: (Action, BucketView),
)
    ensures
        crate::cas::apply_deltas(
            (0int, 0int),
            seq![pending_delta(f, evs1, key), pending_delta(f, evs2, key)],
        ) == (totals_count(evs1 + evs2, f, key), totals_sum(evs1 + evs2, f, key)),
{
    lemma_sum_of_sums(f, evs1, key);
    lemma_sum_of_sums(f, evs2, key);
    lemma_totals_concat(f, evs1, evs2, key);
    let d1 = pending_delta(f, evs1, key);
    let d2 = pending_delta(f, evs2, key);
    let ds = seq![d1, d2];
    assert(ds.drop_last() =~= seq![d1]);
    assert(seq![d1].drop_last() =~= Seq::<(int, int)>::empty());
    assert(crate::cas::apply_deltas((0int, 0int), Seq::<(int, int)>::empty()) == (0int, 0int));
    assert(seq![d1].last() == d1);
    assert(crate::cas::apply_deltas((0int, 0int), seq![d1]) == (0 + d1.0, 0 + d1.1));
    assert(ds.last() == d2);
    assert(crate::cas::apply_deltas((0int, 0int), ds) == (d1.0 + d2.0, d1.1 + d2.1));
}

/// The accumulator's view: entries as a map.
pub open spec fn store_view(entries: Seq<((Action, AggregatesBucket), (u64, u64))>) -> Map<
    (Action, BucketView),
    (int, int),
>
    decreases entries.len(),
{
    if entries.len() == 0 {
        Map::empty()
    } else {
        store_view(entries.drop_last()).insert(
            entry_key(entries.last()),
            (entries.last().1.0 as int, entries.last().1.1 as int),
        )
    }
}

pub open spec fn entry_key(e: ((Action, AggregatesBucket), (u64, u64))) -> (Action, BucketView) {
    (e.0.0, bucket_view(e.0.1))
}

pub open spec fn entry_keys_unique(entries: Seq<((Action, AggregatesBucket), (u64, u64))>) -> bool {
    forall|i: int, j: int|
        0 <= i < j < entries.len() ==> entry_key(#[trigger] entries[i]) != entry_key(
            #[trigger] entries[j],
        )
}

/// The offset list's view: highest offset seen per partition.
pub open spec fn offsets_view(offs: Seq<(SubStream, i64)>) -> Map<(Seq<char>, int), int>
    decreases offs.len(),
{
    if offs.len() == 0 {
        Map::empty()
    } else {
        offsets_view(offs.drop_last()).insert(
            (offs.last().0.topic@, offs.last().0.partition as int),
            offs.last().1 as int,
        )
    }
}

pub open spec fn offset_keys_unique(offs: Seq<(SubStream, i64)>) -> bool {
    forall|i: int, j: int|
        0 <= i < j < offs.len() ==> (#[trigger] offs[i]).0.topic@ != (#[trigger] offs[j]).0.topic@
            || offs[i].0.partition != offs[j].0.partition
}

proof fn lemma_store_view_index(entries: Seq<((Action, AggregatesBucket), (u64, u64))>, idx: int)
    requires
        entry_keys_unique(entries),
        0 <= idx < entries.len(),
    ensures
        store_view(entries).dom().contains(entry_key(entries[idx])),
        store_view(entries)[entry_key(entries[idx])] == (
            entries[idx].1.0 as int,
            entries[idx].1.1 as int,
        ),
    decreases entries.len(),
{
    if idx < entries.len() - 1 {
        assert(forall|i: int, j: int|
            0 <= i < j < entries.len() - 1 ==> entry_key(#[trigger] entries.drop_last()[i])
                != entry_key(#[trigger] entries.drop_last()[j]));
        lemma_store_view_index(entries.drop_last(), idx);
        assert(entry_key(entries[idx]) != entry_key(entries.last()));
    }
}

proof fn lemma_store_view_absent(
    entries: Seq<((Action, AggregatesBucket), (u64, u64))>,
    key: (Action, BucketView),
)
    requires
        forall|i: int| 0 <= i < entries.len() ==> entry_key(#[trigger] entries[i]) != key,
    ensures
        !store_view(entries).dom().contains(key),
    decreases entries.len(),
{
    if entries.len() > 0 {
        assert(forall|i: int|
            0 <= i < entries.len() - 1 ==> entry_key(#[trigger] entries.drop_last()[i]) != key);
        lemma_store_view_absent(entries.drop_last(), key);
    }
}

proof fn lemma_store_view_update(
    entries: Seq<((Action, AggregatesBucket), (u64, u64))>,
    idx: int,
    e: ((Action, AggregatesBucket), (u64, u64)),
)
    requires
        entry_keys_unique(entries),
        0 <= idx < entries.len(),
        entry_key(e) == entry_key(entries[idx]),
    ensures
        store_view(entries.update(idx, e)) == store_view(entries).insert(
            entry_key(e),
            (e.1.0 as int, e.1.1 as int),
        ),
        entry_keys_unique(entries.update(idx, e)),
    decreases entries.len(),
{
    let upd = entries.update(idx, e);
    assert forall|i: int, j: int| 0 <= i < j < upd.len() implies entry_key(#[trigger] upd[i])
        != entry_key(#[trigger] upd[j]) by {
        if i != idx && j != idx {
            assert(upd[i] == entries[i] && upd[j] == entries[j]);
        } else if i == idx {
            assert(upd[j] == entries[j]);
        } else {
            assert(upd[i] == entries[i]);
        }
    }
    if idx == entries.len() - 1 {
        assert(upd.drop_last() =~= entries.drop_last());
        assert(store_view(upd) =~= store_view(entries).insert(
            entry_key(e),
            (e.1.0 as int, e.1.1 as int),
        ));
    } else {
        assert(forall|i: int, j: int|
            0 <= i < j < entries.len() - 1 ==> entry_key(#[trigger] entries.drop_last()[i])
                != entry_key(#[trigger] entries.drop_last()[j]));
        lemma_store_view_update(entries.drop_last(), idx, e);
        assert(upd.drop_last() =~= entries.drop_last().update(idx, e));
        assert(upd.last() == entries.last());
        assert(entry_key(entries.last()) != entry_key(entries[idx]));
        assert(store_view(upd) =~= store_view(entries).insert(
            entry_key(e),
            (e.1.0 as int, e.1.1 as int),
        ));
    }
}

/// One aggregation engine: its projection and what it has not flushed yet.
pub struct AggregatesProcessor {
    pub filter: AggregatesFilter,
    pub to_store: Vec<((Action, AggregatesBucket), (u64, u64))>,
    pub to_mark: Vec<(SubStream, i64)>,
}

impl AggregatesProcessor {
    pub open spec fn wf(self) -> bool {
        entry_keys_unique(self.to_store@) && offset_keys_unique(self.to_mark@)
    }

    pub open spec fn pending(self) -> Map<(Action, BucketView), (int, int)> {
        store_view(self.to_store@)
    }

    pub open spec fn offsets(self) -> Map<(Seq<char>, int), int> {
        offsets_view(self.to_mark@)
    }

    /// A fresh engine: nothing pending, nothing to commit.
    pub fn new(filter: AggregatesFilter) -> (r: AggregatesProcessor)
        ensures
            r.wf(),
            r.filter == filter,
            r.pending() == Map::<(Action, BucketView), (int, int)>::empty(),
            r.offsets() == Map::<(Seq<char>, int), int>::empty(),
    {
        AggregatesProcessor { filter, to_store: Vec::new(), to_mark: Vec::new() }
    }

    /// Accumulates one event: its bucket's count and price sum grow by the
    /// event, and its partition's offset is remembered.  Fails exactly when
    /// a counter would no longer fit, leaving the engine unchanged.
    pub fn record_event(&mut self, ev: &Event) -> (r: bool)
        requires
            old(self).wf(),
            ev.inner@.wf(),
        ensures
            final(self).wf(),
            final(self).filter == old(self).filter,
            r ==> final(self).pending() == acc_step(
                old(self).pending(),
                old(self).filter,
                ev.inner@,
            ) && final(self).offsets() == old(self).offsets().insert(
                (ev.substream.topic@, ev.substream.partition as int),
                ev.offset as int,
            ),
            !r ==> {
                &&& *final(self) == *old(self)
                &&& old(self).pending().dom().contains(key_of(old(self).filter, ev.inner@))
                &&& {
                    let prev = old(self).pending()[key_of(old(self).filter, ev.inner@)];
                    prev.0 + 1 > u64::MAX || prev.1 + ev.inner@.price > u64::MAX
                }
            },
    {
        let f = self.filter;
        let bucket = f.make_bucket(&ev.inner);
        let act = ev.inner.action;
        let price: u64 = ev.inner.product_info.price as u64;
        let ghost key = key_of(f, ev.inner@);
        proof {
            assert(bucket_view(bucket) == key.1);
        }
        let n = self.to_store.len();
        let mut i: usize = 0;
        while i < n
            invariant
                0 <= i <= n,
                n == self.to_store@.len(),
                *self == *old(self),
                old(self).wf(),
                ev.inner@.wf(),
                f == old(self).filter,
                price == ev.inner@.price,
                act == ev.inner@.action,
                key == key_of(f, ev.inner@),
                bucket_view(bucket) == key.1,
                act == key.0,
                forall|k: int| 0 <= k < i ==> entry_key(#[trigger] self.to_store@[k]) != key,
            decreases n - i,
        {
            let hit = action_eq(self.to_store[i].0.0, act) && bucket_eq(
                &self.to_store[i].0.1,
                &bucket,
            );
            if hit {
                let c = self.to_store[i].1.0;
                let s = self.to_store[i].1.1;
                if c == u64::MAX || price > u64::MAX - s {
                    proof {
                        lemma_store_view_index(self.to_store@, i as int);
                    }
                    return false;
                }
                let e = ((act, bucket), (c + 1, s + price));
                proof {
                    assert(entry_key(e) == entry_key(self.to_store@[i as int]));
                    lemma_store_view_index(self.to_store@, i as int);
                    lemma_store_view_update(self.to_store@, i as int, e);
                }
                self.to_store[i] = e;
                self.record_offset(ev);
                return true;
            }
            i += 1;
        }
        proof {
            lemma_store_view_absent(self.to_store@, key);
        }
        let e = ((act, bucket), (1u64, price));
        let ghost entries0 = self.to_store@;
        self.to_store.push(e);
        proof {
            assert(self.to_store@.drop_last() =~= entries0);
            assert(forall|k: int|
                0 <= k < entries0.len() ==> #[trigger] self.to_store@[k] == entries0[k]);
        }
        self.record_offset(ev);
        true
    }

    /// Remembers the event's offset for its partition, overwriting an
    /// earlier one.
    fn record_offset(&mut self, ev: &Event)
        requires
            offset_keys_unique(old(self).to_mark@),
        ensures
            final(self).filter == old(self).filter,
            final(self).to_store == old(self).to_store,
            offset_keys_unique(final(self).to_mark@),
            offsets_view(final(self).to_mark@) == offsets_view(old(self).to_mark@).insert(
                (ev.substream.topic@, ev.substream.partition as int),
                ev.offset as int,
            ),
    {
        let ghost skey = (ev.substream.topic@, ev.substream.partition as int);
        let n = self.to_mark.len();
        let mut i: usize = 0;
        while i < n
            invariant
                0 <= i <= n,
                n == self.to_mark@.len(),
                *self == *old(self),
                offset_keys_unique(self.to_mark@),
                forall|k: int|
                    0 <= k < i ==> ((#[trigger] self.to_mark@[k]).0.topic@ != ev.substream.topic@
                        || self.to_mark@[k].0.partition != ev.substream.partition),
            decreases n - i,
        {
            let hit = crate::text::str_eq(
                self.to_mark[i].0.topic.as_str(),
                ev.substream.topic.as_str(),
            ) && self.to_mark[i].0.partition == ev.substream.partition;
            if hit {
                let e = (
                    SubStream {
                        topic: ev.substream.topic.clone(),
                        partition: ev.substream.partition,
                    },
                    ev.offset,
                );
                proof {
                    lemma_offsets_update(self.to_mark@, i as int, e);
                }
                self.to_mark[i] = e;
                return ;
            }
            i += 1;
        }
        proof {
            lemma_offsets_absent(self.to_mark@, skey);
        }
        let ghost offs0 = self.to_mark@;
        self.to_mark.push(
            (SubStream { topic: ev.substream.topic.clone(), partition: ev.substream.partition },
            ev.offset),
        );
        proof {
            assert(self.to_mark@.drop_last() =~= offs0);
            assert(forall|k: int| 0 <= k < offs0.len() ==> #[trigger] self.to_mark@[k] == offs0[k]);
        }
    }

    /// Takes everything pending for a flush, leaving the engine empty.
    pub fn drain(&mut self) -> (r: (
        Vec<((Action, AggregatesBucket), (u64, u64))>,
        Vec<(SubStream, i64)>,
    ))
        requires
            old(self).wf(),
        ensures
            final(self).wf(),
            final(self).filter == old(self).filter,
            final(self).pending() == Map::<(Action, BucketView), (int, int)>::empty(),
            final(self).offsets() == Map::<(Seq<char>, int), int>::empty(),
            entry_keys_unique(r.0@),
            store_view(r.0@) == old(self).pending(),
            offset_keys_unique(r.1@),
            offsets_view(r.1@) == old(self).offsets(),
    {
        let mut entries: Vec<((Action, AggregatesBucket), (u64, u64))> = Vec::new();
        let mut offs: Vec<(SubStream, i64)> = Vec::new();
        core::mem::swap(&mut self.to_store, &mut entries);
        core::mem::swap(&mut self.to_mark, &mut offs);
        (entries, offs)
    }
}

fn action_eq(a: Action, b: Action) -> (r: bool)
    ensures
        r == (a == b),
{
    match (a, b) {
        (Action::View, Action::View) => true,
        (Action::Buy, Action::Buy) => true,
        _ => false,
    }
}

fn opt_str_eq(a: &Option<String>, b: &Option<String>) -> (r: bool)
    ensures
        r == (opt_view(*a) == opt_view(*b)),
{
    match (a, b) {
        (Some(x), Some(y)) => {
            let e = crate::text::str_eq(x.as_str(), y.as_str());
            proof {
                if x@ == y@ {
                    assert(opt_view(*a) == opt_view(*b));
                }
            }
            e
        },
        (None, None) => true,
        _ => false,
    }
}

fn bucket_eq(a: &AggregatesBucket, b: &AggregatesBucket) -> (r: bool)
    ensures
        r == (bucket_view(*a) == bucket_view(*b)),
{
    let r = a.timestamp == b.timestamp && opt_str_eq(&a.origin, &b.origin) && opt_str_eq(
        &a.brand_id,
        &b.brand_id,
    ) && opt_str_eq(&a.category_id, &b.category_id);
    proof {
        if r {
            assert(bucket_view(*a) == bucket_view(*b));
        }
    }
    r
}

proof fn lemma_offsets_update(offs: Seq<(SubStream, i64)>, idx: int, e: (SubStream, i64))
    requires
        offset_keys_unique(offs),
        0 <= idx < offs.len(),
        e.0.topic@ == offs[idx].0.topic@,
        e.0.partition == offs[idx].0.partition,
    ensures
        offsets_view(offs.update(idx, e)) == offsets_view(offs).insert(
            (e.0.topic@, e.0.partition as int),
            e.1 as int,
        ),
        offset_keys_unique(offs.update(idx, e)),
    decreases offs.len(),
{
    let upd = offs.update(idx, e);
    assert forall|i: int, j: int| 0 <= i < j < upd.len() implies ((#[trigger] upd[i]).0.topic@
        != (#[trigger] upd[j]).0.topic@ || upd[i].0.partition != upd[j].0.partition) by {
        if i != idx && j != idx {
            assert(upd[i] == offs[i] && upd[j] == offs[j]);
        } else if i == idx {
            assert(upd[j] == offs[j]);
        } else {
            assert(upd[i] == offs[i]);
        }
    }
    if idx == offs.len() - 1 {
        assert(upd.drop_last() =~= offs.drop_last());
        assert(offsets_view(upd) =~= offsets_view(offs).insert(
            (e.0.topic@, e.0.partition as int),
            e.1 as int,
        ));
    } else {
        assert(forall|i: int, j: int|
            0 <= i < j < offs.len() - 1 ==> ((#[trigger] offs.drop_last()[i]).0.topic@ != (
            #[trigger] offs.drop_last()[j]).0.topic@ || offs.drop_last()[i].0.partition
                != offs.drop_last()[j].0.partition));
        lemma_offsets_update(offs.drop_last(), idx, e);
        assert(upd.drop_last() =~= offs.drop_last().update(idx, e));
        assert(upd.last() == offs.last());
        assert(offs.last().0.topic@ != offs[idx].0.topic@ || offs.last().0.partition
            != offs[idx].0.partition);
        assert(offsets_view(upd) =~= offsets_view(offs).insert(
            (e.0.topic@, e.0.partition as int),
            e.1 as int,
        ));
    }
}

proof fn lemma_offsets_absent(offs: Seq<(SubStream, i64)>, key: (Seq<char>, int))
    requires
        forall|i: int|
            0 <= i < offs.len() ==> ((#[trigger] offs[i]).0.topic@ != key.0 || offs[i].0.partition
                != key.1),
    ensures
        !offsets_view(offs).dom().contains(key),
    decreases offs.len(),
{
    if offs.len() > 0 {
        assert(forall|i: int|
            0 <= i < offs.len() - 1 ==> ((#[trigger] offs.drop_last()[i]).0.topic@ != key.0
                || offs.drop_last()[i].0.partition != key.1));
        lemma_offsets_absent(offs.drop_last(), key);
    }
}

/// The engine's phases, as the flush cycle drives them.
#[derive(Clone, Copy, Debug, PartialEq, Eq, Structural)]
pub enum EnginePhase {
    Running,
    Flushing,
    Committing,
    Failed,
    Stopped,
}

/// What can happen to a running engine.
#[derive(Clone, Copy, Debug, PartialEq, Eq, Structural)]
pub enum EngineSignal {
    EventArrived,
    TickFired,
    FlushOk,
    FlushErr,
    CommitOk,
    CommitErr,
    StopRequested,
}

/// The engine's flush cycle: accumulate while running; a tick starts a
/// flush; only a whole successful flush advances to committing offsets; any
/// failure is terminal, so offsets stay behind the stored aggregates and the
/// events replay.
pub open spec fn spec_engine_step(phase: EnginePhase, sig: EngineSignal) -> EnginePhase {
    match (phase, sig) {
        (EnginePhase::Running, EngineSignal::EventArrived) => EnginePhase::Running,
        (EnginePhase::Running, EngineSignal::TickFired) => EnginePhase::Flushing,
        (EnginePhase::Running, EngineSignal::StopRequested) => EnginePhase::Stopped,
        (EnginePhase::Flushing, EngineSignal::FlushOk) => EnginePhase::Committing,
        (EnginePhase::Flushing, EngineSignal::FlushErr) => EnginePhase::Failed,
        (EnginePhase::Committing, EngineSignal::CommitOk) => EnginePhase::Running,
        (EnginePhase::Committing, EngineSignal::CommitErr) => EnginePhase::Failed,
        (_, _) => phase,
    }
}

/// One transition of the engine's flush cycle.
pub fn engine_step(phase: EnginePhase, sig: EngineSignal) -> (r: EnginePhase)
    ensures
        r == spec_engine_step(phase, sig),
{
    match (phase, sig) {
        (EnginePhase::Running, EngineSignal::EventArrived) => EnginePhase::Running,
        (EnginePhase::Running, EngineSignal::TickFired) => EnginePhase::Flushing,
        (EnginePhase::Running, EngineSignal::StopRequested) => EnginePhase::Stopped,
        (EnginePhase::Flushing, EngineSignal::FlushOk) => EnginePhase::Committing,
        (EnginePhase::Flushing, EngineSignal::FlushErr) => EnginePhase::Failed,
        (EnginePhase::Committing, EngineSignal::CommitOk) => EnginePhase::Running,
        (EnginePhase::Committing, EngineSignal::CommitErr) => EnginePhase::Failed,
        (p, _) => p,
    }
}

} // verus!
