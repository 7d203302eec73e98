use allezon::aggregates::{Aggregate, AggregatesBucket, AggregatesQuery, AggregatesRow};
use allezon::cas::{on_read, on_write, ReadOutcome, UpdateState, WriteOutcome};
use allezon::codec::{parse_user_tag, parse_user_tags, render_user_tag, render_user_tags};
use allezon::combination::AggregatesCombination;
use allezon::datetime::DateTime;
use allezon::db_ops::OperateDbRequest;
use allezon::engine::{AggregatesProcessor, Event, SubStream};
use allezon::filters::AggregatesFilter;
use allezon::gateway::assemble_rows;
use allezon::profiles::{apply_profile_update, filter_window, make_profile_reply, UserProfilesQuery};
use allezon::retry::RetryPolicy;
use allezon::time_range::{BucketsRange, SimpleTimeRange};
use allezon::user_tag::{Action, Device, ProductInfo, UserTag};

fn dt(year: u16, month: u8, day: u8, hour: u8, minute: u8, second: u8, milli: u16) -> DateTime {
    DateTime { year, month, day, hour, minute, second, milli }
}

fn ss(v: &[&str]) -> Vec<String> {
    v.iter().map(|s| s.to_string()).collect()
}

fn tag(time: DateTime, cookie: &str, action: Action, origin: &str, price: i32) -> UserTag {
    UserTag {
        time,
        cookie: cookie.to_string(),
        country: "PL".to_string(),
        device: Device::Pc,
        action,
        origin: origin.to_string(),
        product_info: ProductInfo {
            product_id: 1,
            brand_id: "B1".to_string(),
            category_id: "C1".to_string(),
            price,
        },
    }
}

fn ev(t: &UserTag, partition: i32, offset: i64) -> Event {
    Event {
        inner: t.duplicate(),
        substream: SubStream { topic: "user-tags".to_string(), partition },
        offset,
    }
}

/// One CAS update driven to completion against a tiny in-memory record.
fn run_update(store: &mut Option<(i64, i64, u32)>, d_count: i64, d_sum: i64) {
    let mut retries = 0;
    loop {
        let read = match *store {
            Some((c, s, g)) => ReadOutcome::Found { count: c, sum_price: s, generation: g },
            None => ReadOutcome::Missing,
        };
        let state = on_read(d_count, d_sum, read);
        match state {
            UpdateState::Writing { count, sum_price, generation } => {
                let current_gen = store.map(|r| r.2).unwrap_or(0);
                let outcome = if generation == current_gen {
                    *store = Some((count, sum_price, current_gen + 1));
                    WriteOutcome::Stored
                } else {
                    WriteOutcome::GenerationConflict
                };
                match on_write(outcome) {
                    UpdateState::Done => return,
                    UpdateState::Reading => {
                        retries += 1;
                        assert!(retries < 10);
                    }
                    other => panic!("unexpected state {:?}", other),
                }
            }
            other => panic!("unexpected state {:?}", other),
        }
    }
}

#[test]
fn single_event_both_aggregates() {
    // One BUY at 2022-03-22T12:15:30Z, price 100, no dimensions kept.
    let t = tag(dt(2022, 3, 22, 12, 15, 30, 0), "c1", Action::Buy, "EU", 100);
    let filter = AggregatesFilter { origin: false, brand_id: false, category_id: false };
    let mut engine = AggregatesProcessor::new(filter);
    assert!(engine.record_event(&ev(&t, 0, 1)));
    let (entries, offsets) = engine.drain();
    assert_eq!(entries.len(), 1);
    let ((action, bucket), (count, sum)) = &entries[0];
    assert_eq!(*action, Action::Buy);
    assert_eq!((*count, *sum), (1, 100));
    assert_eq!(offsets.len(), 1);
    assert_eq!(offsets[0].1, 1);

    // Flush through the compare-and-set path.
    let mut store: Option<(i64, i64, u32)> = None;
    run_update(&mut store, *count as i64, *sum as i64);
    let (c, s, _) = store.unwrap();

    // Query the bucket back.
    let range = BucketsRange::parse("2022-03-22T12:15:00_2022-03-22T12:16:00").unwrap();
    let sparse = vec![(bucket.timestamp, c, s)];
    let rows = assemble_rows(&range, &sparse).unwrap();
    let query = AggregatesQuery {
        time_range: range,
        action: Action::Buy,
        origin: None,
        brand_id: None,
        category_id: None,
        aggregates: vec![Aggregate::Count, Aggregate::SumPrice],
    };
    let reply = query.make_reply(rows).unwrap();
    assert_eq!(reply.columns(), ss(&["1m_bucket", "action", "COUNT", "SUM_PRICE"]));
    assert_eq!(
        reply.render_rows(),
        vec![ss(&["2022-03-22T12:15:00", "BUY", "1", "100"])]
    );
}

#[test]
fn projection_masking() {
    // The same event, under the origin projection.
    let t = tag(dt(2022, 3, 22, 12, 15, 30, 0), "c1", Action::Buy, "EU", 100);
    let combination = AggregatesCombination { x: 1 };
    let written_key = combination.user_key_from_tag(&t);

    let range = BucketsRange::parse("2022-03-22T12:15:00_2022-03-22T12:16:00").unwrap();
    let base = AggregatesQuery {
        time_range: range.clone(),
        action: Action::Buy,
        origin: Some("US".to_string()),
        brand_id: None,
        category_id: None,
        aggregates: vec![Aggregate::Count, Aggregate::SumPrice],
    };

    // origin=US reads a different key, finds nothing, and reports zeros.
    let us_keys = AggregatesCombination::user_key_iter(&base);
    assert_eq!(us_keys.len(), 1);
    assert_ne!(us_keys[0], written_key);
    let rows = assemble_rows(&range, &vec![]).unwrap();
    let reply = base.clone().make_reply(rows).unwrap();
    assert_eq!(
        reply.render_rows(),
        vec![ss(&["2022-03-22T12:15:00", "BUY", "US", "0", "0"])]
    );

    // origin=EU reads the written key.
    let mut eu = base;
    eu.origin = Some("EU".to_string());
    let eu_keys = AggregatesCombination::user_key_iter(&eu);
    assert_eq!(eu_keys[0], written_key);
    let minute = t.time.total_minutes();
    let rows = assemble_rows(&range, &vec![(minute, 1, 100)]).unwrap();
    let reply = eu.make_reply(rows).unwrap();
    assert_eq!(
        reply.render_rows(),
        vec![ss(&["2022-03-22T12:15:00", "BUY", "EU", "1", "100"])]
    );
}

#[test]
fn profile_trimming() {
    // 250 VIEW events with strictly increasing timestamps keep the newest 200.
    let mut stored: Vec<UserTag> = Vec::new();
    let mut times: Vec<DateTime> = Vec::new();
    for i in 0..250u16 {
        let time = dt(2022, 1, 1, (i / 60) as u8, (i % 60) as u8, 0, 0);
        times.push(time);
        apply_profile_update(&mut stored, tag(time, "c1", Action::View, "EU", 1));
    }
    assert_eq!(stored.len(), 200);
    // Newest first; the oldest fifty dropped.
    assert_eq!(stored[0].time, times[249]);
    assert_eq!(stored[199].time, times[50]);
    for w in stored.windows(2) {
        assert!(w[0].time.timestamp_millis() > w[1].time.timestamp_millis());
    }
}

#[test]
fn time_window_filter() {
    let mut events: Vec<UserTag> = Vec::new();
    for i in 0..5u8 {
        events.push(tag(dt(2022, 1, 1, 10, i, 0, 0), "c1", Action::View, "EU", 1));
    }
    let range = SimpleTimeRange::parse("2022-01-01T10:01:00.000_2022-01-01T10:03:00.000").unwrap();
    let kept = filter_window(&events, &range, 200);
    assert_eq!(kept.len(), 2);
    assert_eq!(kept[0].time, dt(2022, 1, 1, 10, 1, 0, 0));
    assert_eq!(kept[1].time, dt(2022, 1, 1, 10, 2, 0, 0));

    let query = UserProfilesQuery { time_range: range, limit: 1 };
    let reply = make_profile_reply("c1".to_string(), events, Vec::new(), &query);
    assert_eq!(reply.views.len(), 1);
    assert_eq!(reply.buys.len(), 0);
    assert_eq!(reply.cookie, "c1");
}

#[test]
fn replay_idempotence_of_aggregates() {
    // A flush lands in the store, but the offsets are never marked; the
    // events replay, and the stored value is the sum over everything
    // processed: at-least-once is the accepted contract.
    let t1 = tag(dt(2022, 3, 22, 12, 15, 10, 0), "c1", Action::Buy, "EU", 10);
    let t2 = tag(dt(2022, 3, 22, 12, 15, 40, 0), "c2", Action::Buy, "EU", 20);
    let filter = AggregatesFilter { origin: false, brand_id: false, category_id: false };

    let mut store: Option<(i64, i64, u32)> = None;

    let mut engine = AggregatesProcessor::new(filter);
    assert!(engine.record_event(&ev(&t1, 0, 7)));
    assert!(engine.record_event(&ev(&t2, 0, 8)));
    let (entries, _offsets) = engine.drain();
    assert_eq!(entries.len(), 1);
    run_update(&mut store, entries[0].1 .0 as i64, entries[0].1 .1 as i64);
    // The crash happens here, before the offsets are marked processed.

    // On restart the same events are consumed again.
    let mut engine = AggregatesProcessor::new(filter);
    assert!(engine.record_event(&ev(&t1, 0, 7)));
    assert!(engine.record_event(&ev(&t2, 0, 8)));
    let (entries, offsets) = engine.drain();
    run_update(&mut store, entries[0].1 .0 as i64, entries[0].1 .1 as i64);
    assert_eq!(offsets[0].1, 8);

    let (c, s, _) = store.unwrap();
    assert_eq!((c, s), (4, 60));
}

#[test]
fn cas_contention() {
    // Two engines update the same bucket with delta (1, 10); whatever the
    // interleaving, the record ends at (2, 20).
    let mut store: Option<(i64, i64, u32)> = None;

    // Both read before either writes.
    let first = on_read(1, 10, ReadOutcome::Missing);
    let second = on_read(1, 10, ReadOutcome::Missing);
    let (c1, s1, g1) = match first {
        UpdateState::Writing { count, sum_price, generation } => (count, sum_price, generation),
        other => panic!("unexpected state {:?}", other),
    };
    assert_eq!((c1, s1, g1), (1, 10, 0));

    // The first write lands.
    store = Some((c1, s1, 1));
    assert_eq!(on_write(WriteOutcome::Stored), UpdateState::Done);

    // The second write conflicts and retries from the read.
    match second {
        UpdateState::Writing { generation, .. } => assert_eq!(generation, 0),
        other => panic!("unexpected state {:?}", other),
    }
    assert_eq!(on_write(WriteOutcome::GenerationConflict), UpdateState::Reading);
    run_update(&mut store, 1, 10);

    let (c, s, g) = store.unwrap();
    assert_eq!((c, s), (2, 20));
    assert_eq!(g, 2);
}

#[test]
fn event_json_round_trip() {
    let as_str = "{\"time\":\"2022-03-22T12:15:30.000Z\",\"cookie\":\"c1\",\"country\":\"PL\",\"device\":\"PC\",\"action\":\"BUY\",\"origin\":\"EU\",\"product_info\":{\"product_id\":1,\"brand_id\":\"B1\",\"category_id\":\"C1\",\"price\":100}}";
    let parsed = parse_user_tag(as_str).unwrap();
    assert_eq!(parsed, tag(dt(2022, 3, 22, 12, 15, 30, 0), "c1", Action::Buy, "EU", 100));
    assert_eq!(render_user_tag(&parsed), as_str);

    // A list of two events.
    let both = vec![parsed.duplicate(), parsed.duplicate()];
    let listed = render_user_tags(&both);
    let back = parse_user_tags(&listed).unwrap();
    assert_eq!(back, both);
    assert_eq!(render_user_tags(&back), listed);

    // Rejected inputs: empty, truncated, and any non-canonical spelling of
    // the schema (reordered keys, inserted whitespace).
    assert!(parse_user_tag("").is_none());
    assert!(parse_user_tag("{\"time\":\"2022-03-22T12:15:30.000Z\"}").is_none());
    let reordered = as_str.replace(
        "\"cookie\":\"c1\",\"country\":\"PL\"",
        "\"country\":\"PL\",\"cookie\":\"c1\"",
    );
    assert!(parse_user_tag(&reordered).is_none());
    let spaced = as_str.replace("{\"time\"", "{ \"time\"");
    assert!(parse_user_tag(&spaced).is_none());
}

#[test]
fn aggregates_query_from_pairs() {
    let pairs = |v: &[(&str, &str)]| -> Vec<(String, String)> {
        v.iter().map(|(a, b)| (a.to_string(), b.to_string())).collect()
    };
    let ok = AggregatesQuery::from_pairs(pairs(&[
        ("time_range", "2022-03-22T12:15:00_2022-03-22T12:16:00"),
        ("action", "BUY"),
        ("origin", "EU"),
        ("aggregates", "COUNT"),
        ("aggregates", "SUM_PRICE"),
    ]))
    .unwrap();
    assert_eq!(ok.action, Action::Buy);
    assert_eq!(ok.origin.as_deref(), Some("EU"));
    assert_eq!(ok.aggregates, vec![Aggregate::Count, Aggregate::SumPrice]);

    // Duplicate aggregate.
    assert!(AggregatesQuery::from_pairs(pairs(&[
        ("time_range", "2022-03-22T12:15:00_2022-03-22T12:16:00"),
        ("action", "BUY"),
        ("aggregates", "COUNT"),
        ("aggregates", "COUNT"),
    ]))
    .is_none());

    // Three aggregates.
    assert!(AggregatesQuery::from_pairs(pairs(&[
        ("time_range", "2022-03-22T12:15:00_2022-03-22T12:16:00"),
        ("action", "BUY"),
        ("aggregates", "COUNT"),
        ("aggregates", "SUM_PRICE"),
        ("aggregates", "COUNT"),
    ]))
    .is_none());

    // Unknown parameter.
    assert!(AggregatesQuery::from_pairs(pairs(&[
        ("time_range", "2022-03-22T12:15:00_2022-03-22T12:16:00"),
        ("action", "BUY"),
        ("aggregates", "COUNT"),
        ("limit", "5"),
    ]))
    .is_none());

    // Duplicated parameter.
    assert!(AggregatesQuery::from_pairs(pairs(&[
        ("time_range", "2022-03-22T12:15:00_2022-03-22T12:16:00"),
        ("time_range", "2022-03-22T12:15:00_2022-03-22T12:16:00"),
        ("action", "BUY"),
        ("aggregates", "COUNT"),
    ]))
    .is_none());

    // No aggregates, and a range over ten minutes.
    assert!(AggregatesQuery::from_pairs(pairs(&[
        ("time_range", "2022-03-22T12:15:00_2022-03-22T12:16:00"),
        ("action", "BUY"),
    ]))
    .is_none());
    assert!(AggregatesQuery::from_pairs(pairs(&[
        ("time_range", "2022-03-22T12:15:00_2022-03-22T12:26:00"),
        ("action", "BUY"),
        ("aggregates", "COUNT"),
    ]))
    .is_none());
}

#[test]
fn store_names() {
    let t = tag(dt(2022, 3, 22, 12, 15, 30, 0), "c1", Action::Buy, "EU", 100);
    let minute = t.time.total_minutes();

    let combination = AggregatesCombination { x: 0b101 };
    assert!(combination.has_origin());
    assert!(!combination.has_brand_id());
    assert!(combination.has_category_id());
    assert_eq!(combination.set(Action::Buy), "buy-origin-category_id");
    assert_eq!(
        combination.user_key_from_tag(&t),
        format!("buy---EU---C1---{}", minute)
    );

    let bucket = AggregatesBucket::new(&t.time, Some("EU".to_string()), None, None);
    assert_eq!(bucket.db_key(), format!("{}--EU----", minute));

    let filter = AggregatesFilter { origin: true, brand_id: false, category_id: false };
    let b = filter.make_bucket(&t);
    assert_eq!(b.origin.as_deref(), Some("EU"));
    assert_eq!(b.brand_id, None);
    assert_eq!(b.timestamp, minute);

    assert_eq!(AggregatesFilter::all().len(), 8);
}

#[test]
fn db_ops_render() {
    let t = tag(dt(2022, 3, 22, 12, 15, 30, 0), "c1", Action::Buy, "EU", 100);
    let add = OperateDbRequest::update_aggregate_record(&t);
    assert_eq!(
        add.render(),
        "{\"opsList\":[{\"type\":\"ADD\",\"binName\":\"count\",\"incr\":1},{\"type\":\"ADD\",\"binName\":\"sum_price\",\"incr\":100}]}"
    );

    let order = OperateDbRequest::list_set_order();
    assert_eq!(
        order.render(),
        "{\"opsList\":[{\"type\":\"LIST_SET_ORDER\",\"binName\":\"user_tags\",\"listOrder\":\"ORDERED\"}]}"
    );

    let millis = t.time.timestamp_millis();
    let update = OperateDbRequest::update_user_profile(t.duplicate());
    let expected = format!(
        "{{\"opsList\":[{{\"type\":\"LIST_APPEND\",\"binName\":\"user_tags\",\"value\":[{},{}]}},{{\"type\":\"LIST_TRIM\",\"binName\":\"user_tags\",\"index\":0,\"count\":200}}]}}",
        -millis,
        render_user_tag(&t),
    );
    assert_eq!(update.render(), expected);
}

#[test]
fn profile_payload_step() {
    let t1 = tag(dt(2022, 3, 22, 12, 15, 30, 0), "c1", Action::View, "EU", 5);
    let t2 = tag(dt(2022, 3, 22, 12, 16, 30, 0), "c1", Action::View, "EU", 7);

    // An absent record starts from the empty list.
    let p1 = allezon::profiles::next_profile_payload(None, &t1).unwrap();
    assert_eq!(p1, format!("[{}]", render_user_tag(&t1)));

    // The next event lands before the older one.
    let p2 = allezon::profiles::next_profile_payload(Some(p1.as_str()), &t2).unwrap();
    assert_eq!(p2, format!("[{},{}]", render_user_tag(&t2), render_user_tag(&t1)));

    // A corrupt payload is malformed, not empty.
    assert!(allezon::profiles::next_profile_payload(Some("nonsense"), &t1).is_err());
}

#[test]
fn retry_budget() {
    let mut policy = RetryPolicy::new(100, 250);
    assert_eq!(policy.next_backoff(), Some(100));
    assert_eq!(policy.next_backoff(), Some(150));
    assert_eq!(policy.next_backoff(), Some(225));
    assert_eq!(policy.next_backoff(), None);
}

#[test]
fn engine_totals() {
    // Three events, two buckets; each bucket holds its own totals.
    let filter = AggregatesFilter { origin: false, brand_id: false, category_id: false };
    let mut engine = AggregatesProcessor::new(filter);
    let a1 = tag(dt(2022, 3, 22, 12, 15, 1, 0), "c1", Action::Buy, "EU", 10);
    let a2 = tag(dt(2022, 3, 22, 12, 15, 59, 0), "c2", Action::Buy, "EU", 20);
    let b1 = tag(dt(2022, 3, 22, 12, 16, 1, 0), "c3", Action::Buy, "EU", 40);
    assert!(engine.record_event(&ev(&a1, 0, 1)));
    assert!(engine.record_event(&ev(&a2, 1, 2)));
    assert!(engine.record_event(&ev(&b1, 0, 3)));
    let (mut entries, mut offsets) = engine.drain();
    entries.sort_by_key(|e| e.0 .1.timestamp);
    assert_eq!(entries.len(), 2);
    assert_eq!(entries[0].1, (2, 30));
    assert_eq!(entries[1].1, (1, 40));
    offsets.sort_by_key(|o| o.0.partition);
    assert_eq!(offsets.len(), 2);
    assert_eq!((offsets[0].0.partition, offsets[0].1), (0, 3));
    assert_eq!((offsets[1].0.partition, offsets[1].1), (1, 2));
}
