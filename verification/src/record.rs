//! Polled records, and the choice of the latest among them.

use vstd::prelude::*;

verus! {

/// One record of the open-interest series.
#[derive(Debug)]
pub struct InterestData {
    /// The contract that the record is about.
    pub symbol: String,
    /// Open interest in the base asset, as decimal text.
    pub sum_open_interest: String,
    /// Open interest as notional value, as decimal text.
    pub sum_open_interest_value: String,
    /// When the record was taken, in milliseconds since the epoch.
    pub timestamp: i64,
}

/// One record of a long/short ratio series.
#[derive(Debug)]
pub struct LongShortData {
    /// The contract that the record is about.
    pub symbol: String,
    /// Long over short, as decimal text.
    pub long_short_ratio: String,
    /// The long share as a fraction of one, as decimal text.
    pub long_account: String,
    /// The short share as a fraction of one, as decimal text.
    pub short_account: String,
    /// When the record was taken, in milliseconds since the epoch.
    pub timestamp: i64,
}

/// Whether `at` is the last position at which `keys` holds its greatest
/// value.
pub open spec fn is_last_maximum(keys: Seq<i64>, at: int) -> bool {
    &&& 0 <= at < keys.len()
    &&& forall|j: int| 0 <= j < keys.len() ==> #[trigger] keys[j] <= keys[at]
    &&& forall|j: int| at < j < keys.len() ==> #[trigger] keys[j] < keys[at]
}

/// The last position at which `keys` holds its greatest value.
pub open spec fn last_maximum(keys: Seq<i64>) -> int {
    choose|at: int| is_last_maximum(keys, at)
}

/// There is one last maximum only.
pub proof fn lemma_last_maximum(keys: Seq<i64>, at: int)
    requires
        is_last_maximum(keys, at),
    ensures
        last_maximum(keys) == at,
{
    let other = last_maximum(keys);
    assert(is_last_maximum(keys, other));
    if other < at {
        assert(keys[at] < keys[other] && keys[at] <= keys[other]);
    } else if at < other {
        assert(keys[other] < keys[at] && keys[other] <= keys[at]);
    }
}

/// A sequence that is not empty has a last maximum.
pub proof fn lemma_last_maximum_exists(keys: Seq<i64>)
    requires
        keys.len() > 0,
    ensures
        is_last_maximum(keys, last_maximum(keys)),
    decreases keys.len(),
{
    if keys.len() == 1 {
        assert(is_last_maximum(keys, 0));
    } else {
        let front = keys.drop_last();
        lemma_last_maximum_exists(front);
        let at = last_maximum(front);
        if keys.last() >= front[at] {
            assert forall|j: int| 0 <= j < keys.len() implies #[trigger] keys[j] <= keys.last() by {
                if j < front.len() {
                    assert(front[j] <= front[at]);
                }
            }
            assert(is_last_maximum(keys, keys.len() - 1));
        } else {
            assert forall|j: int| 0 <= j < keys.len() implies #[trigger] keys[j] <= keys[at] by {
                if j < front.len() {
                    assert(front[j] <= front[at]);
                }
            }
            assert forall|j: int| at < j < keys.len() implies #[trigger] keys[j] < keys[at] by {
                if j < front.len() {
                    assert(front[j] < front[at]);
                }
            }
            assert(is_last_maximum(keys, at));
        }
    }
}

/// The entry of `data` with the greatest key, and the last of them where
/// several have it; none where `data` is empty. `key_fn` is called once on
/// each entry, from the first to the last.
pub fn get_last_data<T, F: Fn(&T) -> i64>(data: &[T], key_fn: F) -> (result: Option<&T>)
    requires
        forall|i: int| 0 <= i < data@.len() ==> call_requires(key_fn, (&#[trigger] data@[i],)),
    ensures
        result is None <==> data@.len() == 0,
        result matches Some(entry) ==> exists|keys: Seq<i64>, at: int|
            {
                &&& keys.len() == data@.len()
                &&& forall|j: int|
                    0 <= j < keys.len() ==> call_ensures(key_fn, (&data@[j],), #[trigger] keys[j])
                &&& is_last_maximum(keys, at)
                &&& *entry == data@[at]
            },
{
    if data.len() == 0 {
        return None;
    }
    let mut best: usize = 0;
    let mut best_key = key_fn(&data[0]);
    let ghost mut keys: Seq<i64> = seq![best_key];
    let mut index: usize = 1;
    while index < data.len()
        invariant
            forall|i: int| 0 <= i < data@.len() ==> call_requires(key_fn, (&#[trigger] data@[i],)),
            1 <= index <= data@.len(),
            keys.len() == index,
            forall|j: int|
                0 <= j < keys.len() ==> call_ensures(key_fn, (&data@[j],), #[trigger] keys[j]),
            is_last_maximum(keys, best as int),
            best_key == keys[best as int],
        decreases data@.len() - index,
    {
        let key = key_fn(&data[index]);
        proof {
            let ghost before = keys;
            keys = keys.push(key);
            assert(forall|j: int| 0 <= j < index ==> keys[j] == before[j]);
        }
        if key >= best_key {
            best = index;
            best_key = key;
        }
        index = index + 1;
    }
    Some(&data[best])
}

/// The timestamps of `records`, in their order.
pub open spec fn interest_times(records: Seq<InterestData>) -> Seq<i64> {
    records.map_values(|record: InterestData| record.timestamp)
}

/// The timestamps of `records`, in their order.
pub open spec fn long_short_times(records: Seq<LongShortData>) -> Seq<i64> {
    records.map_values(|record: LongShortData| record.timestamp)
}

/// When `record` was taken.
fn interest_time(record: &InterestData) -> (time: i64)
    ensures
        time == record.timestamp,
{
    record.timestamp
}

/// When `record` was taken.
fn long_short_time(record: &LongShortData) -> (time: i64)
    ensures
        time == record.timestamp,
{
    record.timestamp
}

/// The entry of `data` at the last maximum of `times`, where `key_fn` gives
/// each entry its time.
fn latest_of<T, F: Fn(&T) -> i64>(
    data: &[T],
    key_fn: F,
    Ghost(times): Ghost<Seq<i64>>,
) -> (result: Option<&T>)
    requires
        times.len() == data@.len(),
        forall|i: int| 0 <= i < data@.len() ==> call_requires(key_fn, (&#[trigger] data@[i],)),
        forall|i: int, key: i64|
            0 <= i < data@.len() && #[trigger] call_ensures(key_fn, (&data@[i],), key) ==> key
                == times[i],
    ensures
        result is None <==> data@.len() == 0,
        result matches Some(entry) ==> *entry == data@[last_maximum(times)],
        result is Some ==> is_last_maximum(times, last_maximum(times)),
{
    let result = get_last_data(data, key_fn);
    proof {
        if result is Some {
            let (keys, at) = choose|keys: Seq<i64>, at: int|
                {
                    &&& keys.len() == data@.len()
                    &&& forall|j: int|
                        0 <= j < keys.len() ==> call_ensures(
                            key_fn,
                            (&data@[j],),
                            #[trigger] keys[j],
                        )
                    &&& is_last_maximum(keys, at)
                    &&& *result->0 == data@[at]
                };
            assert(keys =~= times);
            lemma_last_maximum(times, at);
        }
    }
    result
}

/// The record with the greatest timestamp, and the last of them where
/// several have it; none where there is no record.
pub fn latest_interest(records: &[InterestData]) -> (result: Option<&InterestData>)
    ensures
        result is None <==> records@.len() == 0,
        result matches Some(entry) ==> *entry == records@[last_maximum(interest_times(records@))],
        result matches Some(entry) ==> forall|j: int|
            0 <= j < records@.len() ==> (#[trigger] records@[j]).timestamp <= entry.timestamp,
{
    let ghost times = interest_times(records@);
    let result = latest_of(records, interest_time, Ghost(times));
    assert(forall|j: int| 0 <= j < records@.len() ==> (#[trigger] records@[j]).timestamp == times[j]);
    result
}

/// The record with the greatest timestamp, and the last of them where
/// several have it; none where there is no record.
pub fn latest_long_short(records: &[LongShortData]) -> (result: Option<&LongShortData>)
    ensures
        result is None <==> records@.len() == 0,
        result matches Some(entry) ==> *entry == records@[last_maximum(long_short_times(records@))],
        result matches Some(entry) ==> forall|j: int|
            0 <= j < records@.len() ==> (#[trigger] records@[j]).timestamp <= entry.timestamp,
{
    let ghost times = long_short_times(records@);
    let result = latest_of(records, long_short_time, Ghost(times));
    assert(forall|j: int| 0 <= j < records@.len() ==> (#[trigger] records@[j]).timestamp == times[j]);
    result
}

} // verus!
