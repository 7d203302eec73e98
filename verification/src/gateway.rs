//! The pure half of the record store gateway's aggregate read: recomposing
//! dense per-minute rows from whatever sparse records the batch read found.

use vstd::prelude::*;

use crate::aggregates::AggregatesRow;
use crate::time_range::BucketsRange;

verus! {

#[derive(Debug, Clone, Copy, PartialEq, Eq, Structural)]
pub enum StoreDataError {
    Malformed,
}

/// Sparse records fit the range: every minute inside it, values are counts
/// (not negative), and no minute repeats.
pub open spec fn clean_records(sparse: Seq<(i64, i64, i64)>, from_min: int, to_min: int) -> bool {
    &&& forall|j: int|
        0 <= j < sparse.len() ==> {
            &&& from_min <= (#[trigger] sparse[j]).0 < to_min
            &&& sparse[j].1 >= 0
            &&& sparse[j].2 >= 0
        }
    &&& forall|i: int, j: int|
        0 <= i < j < sparse.len() ==> (#[trigger] sparse[i]).0 != (#[trigger] sparse[j]).0
}

/// Builds one reply row per bucket of the range, in bucket order: the
/// record's values where the batch read found one, zeros otherwise; in any
/// record order.  Fails exactly when the records do not fit the range.
pub fn assemble_rows(range: &BucketsRange, sparse: &Vec<(i64, i64, i64)>) -> (r: Result<
    Vec<AggregatesRow>,
    StoreDataError,
>)
    requires
        range.wf(),
    ensures
        match r {
            Ok(rows) => {
                &&& clean_records(
                    sparse@,
                    range.from.spec_minutes(),
                    range.to.spec_minutes(),
                )
                &&& rows@.len() == range.to.spec_minutes() - range.from.spec_minutes()
                &&& forall|j: int|
                    0 <= j < sparse@.len() ==> rows@[(#[trigger] sparse@[j]).0
                        - range.from.spec_minutes()] == (AggregatesRow {
                        count: sparse@[j].1 as u64,
                        sum_price: sparse@[j].2 as u64,
                    })
                &&& forall|b: int|
                    0 <= b < rows@.len() && (forall|j: int|
                        0 <= j < sparse@.len() ==> (#[trigger] sparse@[j]).0
                            != range.from.spec_minutes() + b) ==> (#[trigger] rows@[b])
                        == (AggregatesRow { count: 0, sum_price: 0 })
            },
            Err(e) => e == StoreDataError::Malformed && !clean_records(
                sparse@,
                range.from.spec_minutes(),
                range.to.spec_minutes(),
            ),
        },
{
    let count = range.buckets_count();
    let from_min = range.from.total_minutes();
    let mut rows: Vec<AggregatesRow> = Vec::new();
    let mut filled: Vec<bool> = Vec::new();
    let mut b: usize = 0;
    while b < count
        invariant
            0 <= b <= count,
            rows@.len() == b,
            filled@.len() == b,
            forall|k: int| 0 <= k < b ==> #[trigger] rows@[k] == (AggregatesRow {
                count: 0,
                sum_price: 0,
            }),
            forall|k: int| 0 <= k < b ==> !(#[trigger] filled@[k]),
        decreases count - b,
    {
        rows.push(AggregatesRow::zero());
        filled.push(false);
        b += 1;
    }
    let n = sparse.len();
    let mut i: usize = 0;
    while i < n
        invariant
            0 <= i <= n,
            n == sparse@.len(),
            range.wf(),
            count == range.to.spec_minutes() - range.from.spec_minutes(),
            count <= 10,
            from_min == range.from.spec_minutes(),
            rows@.len() == count,
            filled@.len() == count,
            forall|j: int|
                0 <= j < i ==> {
                    &&& from_min <= (#[trigger] sparse@[j]).0 < from_min + count
                    &&& sparse@[j].1 >= 0
                    &&& sparse@[j].2 >= 0
                    &&& rows@[sparse@[j].0 - from_min] == (AggregatesRow {
                        count: sparse@[j].1 as u64,
                        sum_price: sparse@[j].2 as u64,
                    })
                },
            forall|k: int|
                0 <= k < count ==> ((#[trigger] filled@[k]) <==> exists|j: int|
                    0 <= j < i && (#[trigger] sparse@[j]).0 == from_min + k),
            forall|k: int|
                0 <= k < count && !filled@[k] ==> #[trigger] rows@[k] == (AggregatesRow {
                    count: 0,
                    sum_price: 0,
                }),
            forall|i1: int, j1: int|
                0 <= i1 < j1 < i ==> (#[trigger] sparse@[i1]).0 != (#[trigger] sparse@[j1]).0,
        decreases n - i,
    {
        let (m, c, s) = sparse[i];
        proof {
            crate::datetime::lemma_minutes_bound(range.from);
        }
        if m < from_min || m >= from_min + count as i64 {
            return Err(StoreDataError::Malformed);
        }
        if c < 0 || s < 0 {
            return Err(StoreDataError::Malformed);
        }
        let idx = (m - from_min) as usize;
        if filled[idx] {
            proof {
                let j = choose|j: int| 0 <= j < i && (#[trigger] sparse@[j]).0 == from_min + idx;
                assert(sparse@[j].0 == sparse@[i as int].0);
            }
            return Err(StoreDataError::Malformed);
        }
        proof {
            assert forall|i1: int| 0 <= i1 < i implies (#[trigger] sparse@[i1]).0
                != sparse@[i as int].0 by {
                if sparse@[i1].0 == sparse@[i as int].0 {
                    assert(filled@[idx as int]);
                }
            }
        }
        rows[idx] = AggregatesRow { count: c as u64, sum_price: s as u64 };
        filled[idx] = true;
        proof {
            assert forall|k: int|
                0 <= k < count implies ((#[trigger] filled@[k]) <==> exists|j: int|
                    0 <= j < i + 1 && (#[trigger] sparse@[j]).0 == from_min + k) by {
                if k == idx {
                    assert(sparse@[i as int].0 == from_min + k);
                } else {
                    if filled@[k] {
                        let j = choose|j: int|
                            0 <= j < i && (#[trigger] sparse@[j]).0 == from_min + k;
                        assert(0 <= j < i + 1 && sparse@[j].0 == from_min + k);
                    }
                    if exists|j: int| 0 <= j < i + 1 && (#[trigger] sparse@[j]).0 == from_min + k {
                        let j = choose|j: int|
                            0 <= j < i + 1 && (#[trigger] sparse@[j]).0 == from_min + k;
                        assert(j < i);
                    }
                }
            }
        }
        i += 1;
    }
    Ok(rows)
}

} // verus!
