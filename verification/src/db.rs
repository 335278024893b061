//! The row shapes of the database and the conversions between rows and the
//! library's values: flattening the configuration into rows when it is
//! saved, and rebuilding configuration and telemetry samples from the rows
//! that queries return.
use vstd::prelude::*;
use crate::config::{AllFansBoost, Config, FanMode, TempUnit, Theme};
use crate::curve::CurvePoint;
use crate::text::decimal_string;
use crate::state::{FanReading, Sample, TempReading};
use crate::table::{entries_map, ids_distinct, FanTable};

verus! {

/// Hard cap on rows returned by a single range query. Without it, a wide
/// range (e.g. the full retention window at a 1s interval) could pull
/// hundreds of thousands of rows into memory in one shot.
pub const MAX_RANGE_ROWS: i64 = 20_000;

// ---------------------------------------------------------------------------
// Telemetry
// ---------------------------------------------------------------------------

/// The readings of the rows stamped `ts`, in row order.
pub open spec fn readings_at<T>(rows: Seq<(u64, T)>, ts: u64) -> Seq<T>
    decreases rows.len(),
{
    if rows.len() == 0 {
        Seq::empty()
    } else {
        (if rows[0].0 == ts {
            seq![rows[0].1]
        } else {
            Seq::empty()
        }) + readings_at(rows.drop_first(), ts)
    }
}

/// Some row is stamped `ts`.
pub open spec fn stamped<T>(rows: Seq<(u64, T)>, ts: u64) -> bool {
    exists|i: int| 0 <= i < rows.len() && rows[i].0 == ts
}

/// Some sample is stamped `ts`.
pub open spec fn has_sample(samples: Seq<Sample>, ts: u64) -> bool {
    exists|i: int| 0 <= i < samples.len() && samples[i].timestamp_ms == ts
}

/// Samples are in strictly increasing timestamp order.
pub open spec fn strictly_ordered(samples: Seq<Sample>) -> bool {
    forall|i: int, j: int|
        0 <= i < j < samples.len() ==> samples[i].timestamp_ms < samples[j].timestamp_ms
}

proof fn lemma_readings_unstamped<T>(rows: Seq<(u64, T)>, ts: u64)
    requires
        !stamped(rows, ts),
    ensures
        readings_at(rows, ts) == Seq::<T>::empty(),
    decreases rows.len(),
{
    if rows.len() > 0 {
        assert forall|i: int| 0 <= i < rows.drop_first().len() implies rows.drop_first()[i].0
            != ts by {
            assert(rows.drop_first()[i] == rows[i + 1]);
        }
        lemma_readings_unstamped(rows.drop_first(), ts);
        assert(rows[0].0 != ts);
        assert(Seq::<T>::empty() + Seq::<T>::empty() =~= Seq::<T>::empty());
    }
}

/// `samples` are the rows grouped by timestamp: one sample per timestamp
/// that some row carries, oldest first, each holding that timestamp's
/// readings in row order.
pub open spec fn grouped(
    samples: Seq<Sample>,
    temp_rows: Seq<(u64, TempReading)>,
    fan_rows: Seq<(u64, FanReading)>,
) -> bool {
    &&& strictly_ordered(samples)
    &&& forall|ts: u64|
        #![trigger has_sample(samples, ts)]
        has_sample(samples, ts) <==> stamped(temp_rows, ts) || stamped(fan_rows, ts)
    &&& forall|i: int|
        #![trigger samples[i]]
        0 <= i < samples.len() ==> samples[i].temps@ == readings_at(
            temp_rows,
            samples[i].timestamp_ms,
        ) && samples[i].fans@ == readings_at(fan_rows, samples[i].timestamp_ms)
}

/// How many of `rows` are stamped with one of `stamps`, stamp by stamp.
pub open spec fn rows_at<T>(stamps: Seq<u64>, rows: Seq<(u64, T)>) -> int
    decreases stamps.len(),
{
    if stamps.len() == 0 {
        0
    } else {
        rows_at(stamps.drop_last(), rows) + readings_at(rows, stamps.last()).len()
    }
}

/// How often `x` occurs in `stamps`.
pub open spec fn occurrences(stamps: Seq<u64>, x: u64) -> int
    decreases stamps.len(),
{
    if stamps.len() == 0 {
        0
    } else {
        occurrences(stamps.drop_last(), x) + if stamps.last() == x {
            1int
        } else {
            0int
        }
    }
}

/// The timestamps of the samples, in order.
pub open spec fn sample_stamps(samples: Seq<Sample>) -> Seq<u64> {
    samples.map_values(|s: Sample| s.timestamp_ms)
}

/// The number of temperature readings over all samples.
pub open spec fn temp_total(samples: Seq<Sample>) -> int
    decreases samples.len(),
{
    if samples.len() == 0 {
        0
    } else {
        temp_total(samples.drop_last()) + samples.last().temps@.len()
    }
}

/// The number of fan readings over all samples.
pub open spec fn fan_total(samples: Seq<Sample>) -> int
    decreases samples.len(),
{
    if samples.len() == 0 {
        0
    } else {
        fan_total(samples.drop_last()) + samples.last().fans@.len()
    }
}

proof fn lemma_rows_at_step<T>(stamps: Seq<u64>, rows: Seq<(u64, T)>)
    requires
        rows.len() > 0,
    ensures
        rows_at(stamps, rows) == rows_at(stamps, rows.drop_first()) + occurrences(stamps, rows[0].0),
    decreases stamps.len(),
{
    if stamps.len() > 0 {
        lemma_rows_at_step(stamps.drop_last(), rows);
    }
}

proof fn lemma_occurrences_none(stamps: Seq<u64>, x: u64)
    requires
        forall|j: int| 0 <= j < stamps.len() ==> stamps[j] != x,
    ensures
        occurrences(stamps, x) == 0,
    decreases stamps.len(),
{
    if stamps.len() > 0 {
        lemma_occurrences_none(stamps.drop_last(), x);
    }
}

proof fn lemma_occurrences_once(stamps: Seq<u64>, x: u64, k: int)
    requires
        0 <= k < stamps.len(),
        stamps[k] == x,
        forall|i: int, j: int| 0 <= i < j < stamps.len() ==> stamps[i] < stamps[j],
    ensures
        occurrences(stamps, x) == 1,
    decreases stamps.len(),
{
    let d = stamps.drop_last();
    if k == stamps.len() - 1 {
        assert forall|j: int| 0 <= j < d.len() implies d[j] != x by {
            assert(stamps[j] < stamps[k]);
        }
        lemma_occurrences_none(d, x);
    } else {
        assert(stamps.last() != x) by {
            assert(stamps[k] < stamps[stamps.len() - 1]);
        }
        lemma_occurrences_once(d, x, k);
    }
}

/// `x` is one of `stamps`.
pub open spec fn listed(stamps: Seq<u64>, x: u64) -> bool {
    exists|j: int| 0 <= j < stamps.len() && stamps[j] == x
}

proof fn lemma_rows_at_all<T>(stamps: Seq<u64>, rows: Seq<(u64, T)>)
    requires
        forall|i: int, j: int| 0 <= i < j < stamps.len() ==> stamps[i] < stamps[j],
        forall|i: int| 0 <= i < rows.len() ==> listed(stamps, (#[trigger] rows[i]).0),
    ensures
        rows_at(stamps, rows) == rows.len(),
    decreases rows.len(),
{
    if rows.len() == 0 {
        lemma_rows_at_empty(stamps, rows);
    } else {
        let rest = rows.drop_first();
        assert forall|i: int| 0 <= i < rest.len() implies listed(stamps, (#[trigger] rest[i]).0) by {
            assert(rest[i] == rows[i + 1]);
            assert(listed(stamps, rows[i + 1].0));
        }
        lemma_rows_at_all(stamps, rest);
        lemma_rows_at_step(stamps, rows);
        assert(listed(stamps, rows[0].0));
        let k = choose|j: int| 0 <= j < stamps.len() && stamps[j] == rows[0].0;
        lemma_occurrences_once(stamps, rows[0].0, k);
    }
}

proof fn lemma_rows_at_empty<T>(stamps: Seq<u64>, rows: Seq<(u64, T)>)
    requires
        rows.len() == 0,
    ensures
        rows_at(stamps, rows) == 0,
    decreases stamps.len(),
{
    if stamps.len() > 0 {
        lemma_rows_at_empty(stamps.drop_last(), rows);
    }
}

proof fn lemma_totals(samples: Seq<Sample>, temp_rows: Seq<(u64, TempReading)>, fan_rows: Seq<(u64, FanReading)>)
    requires
        forall|i: int|
            #![trigger samples[i]]
            0 <= i < samples.len() ==> samples[i].temps@ == readings_at(
                temp_rows,
                samples[i].timestamp_ms,
            ) && samples[i].fans@ == readings_at(fan_rows, samples[i].timestamp_ms),
    ensures
        temp_total(samples) == rows_at(sample_stamps(samples), temp_rows),
        fan_total(samples) == rows_at(sample_stamps(samples), fan_rows),
    decreases samples.len(),
{
    if samples.len() > 0 {
        let d = samples.drop_last();
        assert forall|i: int| #![trigger d[i]] 0 <= i < d.len() implies d[i].temps@ == readings_at(
            temp_rows,
            d[i].timestamp_ms,
        ) && d[i].fans@ == readings_at(fan_rows, d[i].timestamp_ms) by {
            assert(d[i] == samples[i]);
        }
        lemma_totals(d, temp_rows, fan_rows);
        assert(sample_stamps(samples).drop_last() =~= sample_stamps(d));
        assert(samples.last() == samples[samples.len() - 1]);
    }
}

/// What a range query gives, grouped: when every row that the query
/// returned lies in `[from_ms, to_ms]`, every sample does too, the samples'
/// timestamps strictly increase, they hold every returned reading exactly
/// once (so never more readings than the query's row limit), and no rows
/// give no samples.
pub proof fn lemma_range_samples(
    samples: Seq<Sample>,
    temp_rows: Seq<(u64, TempReading)>,
    fan_rows: Seq<(u64, FanReading)>,
    from_ms: u64,
    to_ms: u64,
)
    requires
        grouped(samples, temp_rows, fan_rows),
        forall|i: int| 0 <= i < temp_rows.len() ==> from_ms <= (#[trigger] temp_rows[i]).0 <= to_ms,
        forall|i: int| 0 <= i < fan_rows.len() ==> from_ms <= (#[trigger] fan_rows[i]).0 <= to_ms,
    ensures
        strictly_ordered(samples),
        forall|i: int| 0 <= i < samples.len() ==> from_ms <= (#[trigger] samples[i]).timestamp_ms <= to_ms,
        temp_total(samples) == temp_rows.len(),
        fan_total(samples) == fan_rows.len(),
        temp_rows.len() == 0 && fan_rows.len() == 0 ==> samples.len() == 0,
{
    let stamps = sample_stamps(samples);
    assert forall|i: int| 0 <= i < samples.len() implies from_ms <= (#[trigger] samples[i]).timestamp_ms
        <= to_ms by {
        assert(has_sample(samples, samples[i].timestamp_ms));
    }
    assert forall|i: int, j: int| 0 <= i < j < stamps.len() implies stamps[i] < stamps[j] by {
        assert(samples[i].timestamp_ms < samples[j].timestamp_ms);
    }
    assert forall|i: int| 0 <= i < temp_rows.len() implies listed(stamps, (#[trigger] temp_rows[i]).0) by {
        assert(stamped(temp_rows, temp_rows[i].0));
        assert(has_sample(samples, temp_rows[i].0));
        let k = choose|k: int| 0 <= k < samples.len() && samples[k].timestamp_ms == temp_rows[i].0;
        assert(stamps[k] == temp_rows[i].0);
    }
    assert forall|i: int| 0 <= i < fan_rows.len() implies listed(stamps, (#[trigger] fan_rows[i]).0) by {
        assert(stamped(fan_rows, fan_rows[i].0));
        assert(has_sample(samples, fan_rows[i].0));
        let k = choose|k: int| 0 <= k < samples.len() && samples[k].timestamp_ms == fan_rows[i].0;
        assert(stamps[k] == fan_rows[i].0);
    }
    lemma_totals(samples, temp_rows, fan_rows);
    lemma_rows_at_all(stamps, temp_rows);
    lemma_rows_at_all(stamps, fan_rows);
    if temp_rows.len() == 0 && fan_rows.len() == 0 && samples.len() > 0 {
        assert(has_sample(samples, samples[0].timestamp_ms));
    }
}

/// Finds the sample stamped `ts`, inserting an empty one at its place in
/// timestamp order if there is none.
fn slot_for(samples: &mut Vec<Sample>, ts: u64) -> (k: usize)
    requires
        strictly_ordered(old(samples)@),
    ensures
        strictly_ordered(final(samples)@),
        k < final(samples)@.len(),
        final(samples)@[k as int].timestamp_ms == ts,
        has_sample(old(samples)@, ts) ==> final(samples)@ == old(samples)@,
        !has_sample(old(samples)@, ts) ==> k <= old(samples)@.len(),
        !has_sample(old(samples)@, ts) ==> final(samples)@ == old(samples)@.insert(
            k as int,
            final(samples)@[k as int],
        ) && final(samples)@[k as int].temps@.len() == 0 && final(samples)@[k as int].fans@.len()
            == 0,
{
    let mut j = samples.len();
    while j > 0 && samples[j - 1].timestamp_ms > ts
        invariant
            j <= samples@.len(),
            forall|i: int| j <= i < samples@.len() ==> samples@[i].timestamp_ms > ts,
        decreases j,
    {
        j = j - 1;
    }
    if j > 0 && samples[j - 1].timestamp_ms == ts {
        return j - 1;
    }
    proof {
        assert forall|i: int| 0 <= i < samples@.len() implies samples@[i].timestamp_ms != ts by {
            if i < j - 1 {
                assert(samples@[i].timestamp_ms < samples@[j - 1].timestamp_ms);
            }
        }
    }
    samples.insert(j, Sample { timestamp_ms: ts, temps: Vec::new(), fans: Vec::new() });
    j
}

/// Reconstructs the samples of a time range from its temperature rows and
/// fan rows (each a timestamp and a reading): one sample per timestamp,
/// oldest first, holding that timestamp's readings in row order.
pub fn group_samples(temp_rows: Vec<(u64, TempReading)>, fan_rows: Vec<(u64, FanReading)>) -> (samples: Vec<Sample>)
    ensures
        grouped(samples@, temp_rows@, fan_rows@),
{
    let ghost all_temps = temp_rows@;
    let ghost all_fans = fan_rows@;
    let mut samples: Vec<Sample> = Vec::new();
    let mut rows = temp_rows;
    while rows.len() > 0
        invariant
            rows@.len() <= all_temps.len(),
            rows@ == all_temps.take(rows@.len() as int),
            strictly_ordered(samples@),
            forall|ts: u64|
                #![trigger has_sample(samples@, ts)]
                has_sample(samples@, ts) <==> stamped(all_temps.skip(rows@.len() as int), ts),
            forall|i: int|
                #![trigger samples@[i]] 0 <= i < samples@.len() ==> samples@[i].temps@ == readings_at(
                    all_temps.skip(rows@.len() as int),
                    samples@[i].timestamp_ms,
                ) && samples@[i].fans@.len() == 0,
        decreases rows@.len(),
    {
        let ghost pre = samples@;
        let ghost done = all_temps.skip(rows@.len() as int);
        let row = rows.pop().unwrap();
        let ghost now = all_temps.skip(rows@.len() as int);
        proof {
            assert(now.drop_first() =~= done);
            assert(now[0] == row);
            lemma_stamped_cons(now, done);
        }
        let (ts, reading) = row;
        let k = slot_for(&mut samples, ts);
        let ghost mid = samples@;
        proof {
            lemma_slot_keeps(pre, mid, k as int, ts);
            if !has_sample(pre, ts) {
                lemma_readings_unstamped(done, ts);
            }
            assert forall|i: int|
                #![trigger mid[i]] 0 <= i < mid.len() implies mid[i].temps@ == readings_at(
                    done,
                    mid[i].timestamp_ms,
                ) && mid[i].fans@.len() == 0 by {
                if i != k || has_sample(pre, ts) {
                    let j = if has_sample(pre, ts) || i < k { i } else { i - 1 };
                    assert(mid[i] == pre[j]);
                }
            }
        }
        let mut s = samples.remove(k);
        let ghost s0 = s;
        s.temps.insert(0, reading);
        samples.insert(k, s);
        proof {
            let cur = samples@;
            assert(s0 == mid[k as int]);
            assert(s.temps@ == s0.temps@.insert(0, reading));
            assert(s.timestamp_ms == ts);
            assert(cur =~= mid.update(k as int, s));
            lemma_readings_cons(now, done, ts);
            assert forall|i: int|
                #![trigger cur[i]] 0 <= i < cur.len() implies cur[i].temps@ == readings_at(
                    now,
                    cur[i].timestamp_ms,
                ) && cur[i].fans@.len() == 0 by {
                if i == k {
                    assert(s.temps@ =~= seq![reading] + readings_at(done, ts));
                } else {
                    assert(cur[i] == mid[i]);
                    lemma_readings_cons(now, done, cur[i].timestamp_ms);
                    assert(mid[i].timestamp_ms != ts);
                    assert(readings_at(now, cur[i].timestamp_ms) =~= readings_at(
                        done,
                        cur[i].timestamp_ms,
                    ));
                }
            }
            assert forall|t: u64| #![trigger has_sample(cur, t)]
                has_sample(cur, t) <==> stamped(now, t) by {
                lemma_update_same_stamps(mid, k as int, s, t);
            }
        }
    }
    proof {
        assert(all_temps.skip(0) =~= all_temps);
        assert(all_fans.skip(all_fans.len() as int) =~= Seq::<(u64, FanReading)>::empty());
        assert forall|i: int| #![trigger samples@[i]] 0 <= i < samples@.len() implies samples@[i].fans@ == readings_at(
            all_fans.skip(all_fans.len() as int),
            samples@[i].timestamp_ms,
        ) by {
            assert(samples@[i].fans@.len() == 0);
            assert(samples@[i].fans@ =~= Seq::<FanReading>::empty());
        }
    }
    let mut rows = fan_rows;
    while rows.len() > 0
        invariant
            rows@.len() <= all_fans.len(),
            rows@ == all_fans.take(rows@.len() as int),
            strictly_ordered(samples@),
            forall|ts: u64|
                #![trigger has_sample(samples@, ts)]
                has_sample(samples@, ts) <==> stamped(all_temps, ts) || stamped(
                    all_fans.skip(rows@.len() as int),
                    ts,
                ),
            forall|i: int|
                #![trigger samples@[i]] 0 <= i < samples@.len() ==> samples@[i].temps@ == readings_at(
                    all_temps,
                    samples@[i].timestamp_ms,
                ) && samples@[i].fans@ == readings_at(
                    all_fans.skip(rows@.len() as int),
                    samples@[i].timestamp_ms,
                ),
        decreases rows@.len(),
    {
        let ghost pre = samples@;
        let ghost done = all_fans.skip(rows@.len() as int);
        let row = rows.pop().unwrap();
        let ghost now = all_fans.skip(rows@.len() as int);
        proof {
            assert(now.drop_first() =~= done);
            assert(now[0] == row);
            lemma_stamped_cons(now, done);
        }
        let (ts, reading) = row;
        let k = slot_for(&mut samples, ts);
        let ghost mid = samples@;
        proof {
            lemma_slot_keeps(pre, mid, k as int, ts);
            if !has_sample(pre, ts) {
                lemma_readings_unstamped(done, ts);
                lemma_readings_unstamped(all_temps, ts);
            }
            assert forall|i: int|
                #![trigger mid[i]] 0 <= i < mid.len() implies mid[i].temps@ == readings_at(
                    all_temps,
                    mid[i].timestamp_ms,
                ) && mid[i].fans@ == readings_at(done, mid[i].timestamp_ms) by {
                if i != k || has_sample(pre, ts) {
                    let j = if has_sample(pre, ts) || i < k { i } else { i - 1 };
                    assert(mid[i] == pre[j]);
                }
            }
        }
        let mut s = samples.remove(k);
        let ghost s0 = s;
        s.fans.insert(0, reading);
        samples.insert(k, s);
        proof {
            let cur = samples@;
            assert(s0 == mid[k as int]);
            assert(s.fans@ == s0.fans@.insert(0, reading));
            assert(s.timestamp_ms == ts);
            assert(cur =~= mid.update(k as int, s));
            lemma_readings_cons(now, done, ts);
            assert forall|i: int|
                #![trigger cur[i]] 0 <= i < cur.len() implies cur[i].temps@ == readings_at(
                    all_temps,
                    cur[i].timestamp_ms,
                ) && cur[i].fans@ == readings_at(now, cur[i].timestamp_ms) by {
                if i == k {
                    assert(s.fans@ =~= seq![reading] + readings_at(done, ts));
                } else {
                    assert(cur[i] == mid[i]);
                    lemma_readings_cons(now, done, cur[i].timestamp_ms);
                    assert(mid[i].timestamp_ms != ts);
                    assert(readings_at(now, cur[i].timestamp_ms) =~= readings_at(
                        done,
                        cur[i].timestamp_ms,
                    ));
                }
            }
            assert forall|t: u64| #![trigger has_sample(cur, t)]
                has_sample(cur, t) <==> stamped(all_temps, t) || stamped(now, t) by {
                lemma_update_same_stamps(mid, k as int, s, t);
            }
        }
    }
    proof {
        assert(all_fans.skip(0) =~= all_fans);
    }
    samples
}

proof fn lemma_stamped_cons<T>(now: Seq<(u64, T)>, done: Seq<(u64, T)>)
    requires
        now.len() > 0,
        now.drop_first() == done,
    ensures
        forall|ts: u64| stamped(now, ts) <==> now[0].0 == ts || stamped(done, ts),
{
    assert forall|ts: u64| stamped(now, ts) <==> now[0].0 == ts || stamped(done, ts) by {
        if stamped(done, ts) {
            let i = choose|i: int| 0 <= i < done.len() && done[i].0 == ts;
            assert(now[i + 1] == done[i]);
        }
        if stamped(now, ts) && now[0].0 != ts {
            let i = choose|i: int| 0 <= i < now.len() && now[i].0 == ts;
            assert(done[i - 1] == now[i]);
        }
    }
}

proof fn lemma_readings_cons<T>(now: Seq<(u64, T)>, done: Seq<(u64, T)>, ts: u64)
    requires
        now.len() > 0,
        now.drop_first() == done,
    ensures
        now[0].0 == ts ==> readings_at(now, ts) == seq![now[0].1] + readings_at(done, ts),
        now[0].0 != ts ==> readings_at(now, ts) == readings_at(done, ts),
{
    assert(Seq::<T>::empty() + readings_at(done, ts) =~= readings_at(done, ts));
}

/// What `slot_for` leaves behind, index by index.
proof fn lemma_slot_keeps(pre: Seq<Sample>, mid: Seq<Sample>, k: int, ts: u64)
    requires
        strictly_ordered(pre),
        strictly_ordered(mid),
        0 <= k < mid.len(),
        mid[k].timestamp_ms == ts,
        has_sample(pre, ts) ==> mid == pre,
        !has_sample(pre, ts) ==> k <= pre.len(),
        !has_sample(pre, ts) ==> mid == pre.insert(k, mid[k]),
    ensures
        forall|i: int| 0 <= i < mid.len() && i != k ==> mid[i].timestamp_ms != ts,
        forall|t: u64| #![trigger has_sample(mid, t)] has_sample(mid, t) <==> has_sample(pre, t) || t == ts,
        !has_sample(pre, ts) ==> mid.len() == pre.len() + 1,
        !has_sample(pre, ts) ==> forall|i: int| 0 <= i < k ==> #[trigger] mid[i] == pre[i],
        !has_sample(pre, ts) ==> forall|i: int| k < i < mid.len() ==> #[trigger] mid[i] == pre[i - 1],
{
    if !has_sample(pre, ts) {
        pre.insert_ensures(k, mid[k]);
    }
    assert forall|i: int| 0 <= i < mid.len() && i != k implies mid[i].timestamp_ms != ts by {
        if i < k {
            assert(mid[i].timestamp_ms < mid[k].timestamp_ms);
        } else {
            assert(mid[k].timestamp_ms < mid[i].timestamp_ms);
        }
    }
    assert forall|t: u64| #![trigger has_sample(mid, t)] has_sample(mid, t) <==> has_sample(pre, t) || t == ts by {
        if has_sample(pre, t) {
            let i = choose|i: int| 0 <= i < pre.len() && pre[i].timestamp_ms == t;
            if has_sample(pre, ts) || i < k {
                assert(mid[i] == pre[i]);
            } else {
                assert(mid[i + 1] == pre[i + 1 - 1]);
            }
        }
        if t == ts {
            assert(mid[k].timestamp_ms == t);
        }
        if has_sample(mid, t) && t != ts {
            let i = choose|i: int| 0 <= i < mid.len() && mid[i].timestamp_ms == t;
            if has_sample(pre, ts) || i < k {
                assert(pre[i] == mid[i]);
            } else {
                assert(i != k);
                assert(pre[i - 1] == mid[i]);
            }
        }
    }
}

proof fn lemma_update_same_stamps(mid: Seq<Sample>, k: int, s: Sample, t: u64)
    requires
        0 <= k < mid.len(),
        s.timestamp_ms == mid[k].timestamp_ms,
    ensures
        has_sample(mid.update(k, s), t) <==> has_sample(mid, t),
{
    let cur = mid.update(k, s);
    if has_sample(mid, t) {
        let i = choose|i: int| 0 <= i < mid.len() && mid[i].timestamp_ms == t;
        assert(cur[i].timestamp_ms == t);
    }
    if has_sample(cur, t) {
        let i = choose|i: int| 0 <= i < cur.len() && cur[i].timestamp_ms == t;
        assert(mid[i].timestamp_ms == t);
    }
}

// ---------------------------------------------------------------------------
// Configuration rows
// ---------------------------------------------------------------------------

/// A curve row as stored: fan id, position of the point in the curve, point.
pub open spec fn curve_row_view(r: (String, u64, CurvePoint)) -> (Seq<char>, u64, CurvePoint) {
    (r.0@, r.1, r.2)
}

/// The rows of one fan's curve, position by position.
pub open spec fn fan_curve_rows(id: Seq<char>, pts: Seq<CurvePoint>) -> Seq<(Seq<char>, u64, CurvePoint)> {
    Seq::new(pts.len(), |j: int| (id, j as u64, pts[j]))
}

/// The rows of every curve, fan after fan.
pub open spec fn curves_rows(e: Seq<(String, Vec<CurvePoint>)>) -> Seq<(Seq<char>, u64, CurvePoint)>
    decreases e.len(),
{
    if e.len() == 0 {
        Seq::empty()
    } else {
        curves_rows(e.drop_last()) + fan_curve_rows(e.last().0@, e.last().1@)
    }
}

/// The curve rows that saving `curves` writes: one per point, with the
/// point's position within its curve.
pub fn curve_rows(curves: &FanTable<Vec<CurvePoint>>) -> (rows: Vec<(String, u64, CurvePoint)>)
    ensures
        rows@.map_values(|r: (String, u64, CurvePoint)| curve_row_view(r)) == curves_rows(
            curves.entry_seq(),
        ),
{
    let mut rows: Vec<(String, u64, CurvePoint)> = Vec::new();
    let n = curves.len();
    for i in 0..n
        invariant
            n == curves.entry_seq().len(),
            rows@.map_values(|r: (String, u64, CurvePoint)| curve_row_view(r)) == curves_rows(
                curves.entry_seq().take(i as int),
            ),
    {
        let entry = curves.entry(i);
        let ghost base = rows@.map_values(|r: (String, u64, CurvePoint)| curve_row_view(r));
        let m = entry.1.len();
        for j in 0..m
            invariant
                m == entry.1@.len(),
                rows@.map_values(|r: (String, u64, CurvePoint)| curve_row_view(r)) == base
                    + fan_curve_rows(entry.0@, entry.1@.take(j as int)),
        {
            let ghost before = rows@;
            let id = entry.0.clone();
            rows.push((id, j as u64, entry.1[j]));
            proof {
                assert(rows@ == before.push((id, j as u64, entry.1@[j as int])));
                assert(rows@.map_values(|r: (String, u64, CurvePoint)| curve_row_view(r))
                    =~= before.map_values(|r: (String, u64, CurvePoint)| curve_row_view(r)).push(
                    (entry.0@, j as u64, entry.1@[j as int]),
                ));
                assert(fan_curve_rows(entry.0@, entry.1@.take(j + 1)) =~= fan_curve_rows(
                    entry.0@,
                    entry.1@.take(j as int),
                ).push((entry.0@, j as u64, entry.1@[j as int])));
                assert(rows@.map_values(|r: (String, u64, CurvePoint)| curve_row_view(r))
                    =~= base + fan_curve_rows(entry.0@, entry.1@.take(j + 1)));
            }
        }
        proof {
            let e = curves.entry_seq().take(i + 1);
            assert(e.drop_last() =~= curves.entry_seq().take(i as int));
            assert(entry.1@.take(m as int) =~= entry.1@);
        }
    }
    proof {
        assert(curves.entry_seq().take(n as int) =~= curves.entry_seq());
    }
    rows
}

/// The points of the rows of fan `id`, in row order.
pub open spec fn points_of(rows: Seq<(Seq<char>, CurvePoint)>, id: Seq<char>) -> Seq<CurvePoint>
    decreases rows.len(),
{
    if rows.len() == 0 {
        Seq::empty()
    } else {
        points_of(rows.drop_last(), id) + (if rows.last().0 == id {
            seq![rows.last().1]
        } else {
            Seq::empty()
        })
    }
}

/// Some row belongs to fan `id`.
pub open spec fn mentions<P>(rows: Seq<(Seq<char>, P)>, id: Seq<char>) -> bool {
    exists|i: int| 0 <= i < rows.len() && rows[i].0 == id
}

/// A loaded curve row (fan id and point) by its view.
pub open spec fn point_row_view(r: (String, CurvePoint)) -> (Seq<char>, CurvePoint) {
    (r.0@, r.1)
}

/// Rebuilds the curves from their rows (in position order within each fan):
/// every fan that has rows gets its points in row order.
pub fn group_curve_rows(rows: &[(String, CurvePoint)]) -> (curves: FanTable<Vec<CurvePoint>>)
    ensures
        forall|k: Seq<char>|
            #[trigger] curves.map().contains_key(k) <==> mentions(
                rows@.map_values(|r: (String, CurvePoint)| point_row_view(r)),
                k,
            ),
        forall|k: Seq<char>|
            #[trigger] curves.map().contains_key(k) ==> curves.map()[k]@ == points_of(
                rows@.map_values(|r: (String, CurvePoint)| point_row_view(r)),
                k,
            ),
{
    let ghost views = rows@.map_values(|r: (String, CurvePoint)| point_row_view(r));
    let mut curves: FanTable<Vec<CurvePoint>> = FanTable::new();
    let n = rows.len();
    for i in 0..n
        invariant
            n == rows@.len(),
            views == rows@.map_values(|r: (String, CurvePoint)| point_row_view(r)),
            forall|k: Seq<char>|
                #[trigger] curves.map().contains_key(k) <==> mentions(views.take(i as int), k),
            forall|k: Seq<char>|
                #[trigger] curves.map().contains_key(k) ==> curves.map()[k]@ == points_of(
                    views.take(i as int),
                    k,
                ),
    {
        let row = &rows[i];
        let ghost pre = curves.map();
        let ghost id = row.0@;
        let mut points = match curves.remove(row.0.as_str()) {
            Some(p) => p,
            None => Vec::new(),
        };
        points.push(row.1);
        curves.insert(row.0.clone(), points);
        proof {
            let before = views.take(i as int);
            let after = views.take(i + 1);
            assert(after.drop_last() =~= before);
            assert(after.last() == (id, row.1));
            if !pre.contains_key(id) {
                assert(!mentions(before, id));
                lemma_points_unmentioned(before, id);
            }
            assert forall|k: Seq<char>|
                #[trigger] curves.map().contains_key(k) <==> mentions(after, k) by {
                if mentions(before, k) {
                    let j = choose|j: int| 0 <= j < before.len() && before[j].0 == k;
                    assert(after[j] == before[j]);
                }
                if mentions(after, k) && k != id {
                    let j = choose|j: int| 0 <= j < after.len() && after[j].0 == k;
                    assert(before[j] == after[j]);
                }
                if k == id {
                    assert(after[i as int].0 == k);
                }
            }
            assert forall|k: Seq<char>| #[trigger] curves.map().contains_key(k) implies curves.map()[k]@
                == points_of(after, k) by {
                if k == id {
                    assert(points_of(after, k) =~= points_of(before, k).push(row.1));
                } else {
                    assert(points_of(after, k) =~= points_of(before, k));
                }
            }
        }
    }
    proof {
        assert(views.take(n as int) =~= views);
    }
    curves
}

proof fn lemma_points_unmentioned(rows: Seq<(Seq<char>, CurvePoint)>, id: Seq<char>)
    requires
        !mentions(rows, id),
    ensures
        points_of(rows, id) == Seq::<CurvePoint>::empty(),
    decreases rows.len(),
{
    if rows.len() > 0 {
        assert forall|j: int| 0 <= j < rows.drop_last().len() implies rows.drop_last()[j].0 != id by {
            assert(rows.drop_last()[j] == rows[j]);
        }
        lemma_points_unmentioned(rows.drop_last(), id);
        assert(rows[rows.len() - 1].0 != id);
        assert(Seq::<CurvePoint>::empty() + Seq::<CurvePoint>::empty() =~= Seq::<CurvePoint>::empty());
    }
}

/// The manual-boost rows that saving `boosts` writes: one per fan.
pub fn manual_boost_rows(boosts: &FanTable<u8>) -> (rows: Vec<(String, u8)>)
    ensures
        rows@.len() == boosts.entry_seq().len(),
        forall|i: int|
            #![trigger rows@[i]]
            0 <= i < rows@.len() ==> rows@[i].0@ == boosts.entry_seq()[i].0@ && rows@[i].1
                == boosts.entry_seq()[i].1,
{
    let mut rows: Vec<(String, u8)> = Vec::new();
    let n = boosts.len();
    for i in 0..n
        invariant
            n == boosts.entry_seq().len(),
            rows@.len() == i,
            forall|k: int|
                #![trigger rows@[k]]
                0 <= k < i ==> rows@[k].0@ == boosts.entry_seq()[k].0@ && rows@[k].1
                    == boosts.entry_seq()[k].1,
    {
        let e = boosts.entry(i);
        rows.push((e.0.clone(), e.1));
    }
    rows
}

/// The map that a list of (fan id, percentage) rows describes (a later row
/// wins over an earlier one for the same fan).
pub open spec fn rows_map(rows: Seq<(Seq<char>, u8)>) -> Map<Seq<char>, u8>
    decreases rows.len(),
{
    if rows.len() == 0 {
        Map::empty()
    } else {
        rows_map(rows.drop_last()).insert(rows.last().0, rows.last().1)
    }
}

/// A loaded manual-boost row by its view.
pub open spec fn boost_row_view(r: (String, u8)) -> (Seq<char>, u8) {
    (r.0@, r.1)
}

/// Rebuilds the manual boosts from their rows.
pub fn collect_manual_boosts(rows: &[(String, u8)]) -> (boosts: FanTable<u8>)
    ensures
        boosts.map() == rows_map(rows@.map_values(|r: (String, u8)| boost_row_view(r))),
{
    let ghost views = rows@.map_values(|r: (String, u8)| boost_row_view(r));
    let mut boosts: FanTable<u8> = FanTable::new();
    let n = rows.len();
    for i in 0..n
        invariant
            n == rows@.len(),
            views == rows@.map_values(|r: (String, u8)| boost_row_view(r)),
            boosts.map() == rows_map(views.take(i as int)),
    {
        boosts.insert(rows[i].0.clone(), rows[i].1);
        proof {
            assert(views.take(i + 1).drop_last() =~= views.take(i as int));
        }
    }
    proof {
        assert(views.take(n as int) =~= views);
    }
    boosts
}

/// Curve rows without their positions, as a query ordered by position
/// returns them.
pub open spec fn without_positions(rows: Seq<(Seq<char>, u64, CurvePoint)>) -> Seq<(Seq<char>, CurvePoint)> {
    rows.map_values(|r: (Seq<char>, u64, CurvePoint)| (r.0, r.2))
}

proof fn lemma_points_of_concat(a: Seq<(Seq<char>, CurvePoint)>, b: Seq<(Seq<char>, CurvePoint)>, k: Seq<char>)
    ensures
        points_of(a + b, k) == points_of(a, k) + points_of(b, k),
        mentions(a + b, k) <==> mentions(a, k) || mentions(b, k),
    decreases b.len(),
{
    if b.len() == 0 {
        assert(a + b =~= a);
        assert(points_of(a, k) + Seq::<CurvePoint>::empty() =~= points_of(a, k));
    } else {
        lemma_points_of_concat(a, b.drop_last(), k);
        assert((a + b).drop_last() =~= a + b.drop_last());
        assert((a + b).last() == b.last());
    }
    if mentions(a + b, k) {
        let i = choose|i: int| 0 <= i < (a + b).len() && (a + b)[i].0 == k;
        if i >= a.len() {
            assert(b[i - a.len()].0 == k);
        }
    }
    if mentions(b, k) {
        let i = choose|i: int| 0 <= i < b.len() && b[i].0 == k;
        assert((a + b)[i + a.len()] == b[i]);
    }
}

proof fn lemma_points_of_block(id: Seq<char>, pts: Seq<CurvePoint>, k: Seq<char>)
    ensures
        points_of(without_positions(fan_curve_rows(id, pts)), k) == if id == k {
            pts
        } else {
            Seq::<CurvePoint>::empty()
        },
        mentions(without_positions(fan_curve_rows(id, pts)), k) <==> id == k && pts.len() > 0,
    decreases pts.len(),
{
    let rows = without_positions(fan_curve_rows(id, pts));
    if pts.len() > 0 {
        lemma_points_of_block(id, pts.drop_last(), k);
        assert(rows.drop_last() =~= without_positions(fan_curve_rows(id, pts.drop_last())));
        assert(rows.last() == (id, pts.last()));
        if id == k {
            assert(pts.drop_last().push(pts.last()) =~= pts);
        } else {
            assert(Seq::<CurvePoint>::empty() + Seq::<CurvePoint>::empty() =~= Seq::<CurvePoint>::empty());
        }
        if id == k {
            assert(rows[0].0 == k);
        }
    } else {
        assert(rows =~= Seq::<(Seq<char>, CurvePoint)>::empty());
    }
}

/// Saving curves and loading them back gives the same curves minus the empty
/// ones: a fan comes back exactly when its curve has points, and every saved
/// fan's points come back in order.
pub proof fn lemma_curve_rows_roundtrip(e: Seq<(String, Vec<CurvePoint>)>)
    requires
        ids_distinct(e),
    ensures
        forall|k: Seq<char>|
            #[trigger] mentions(without_positions(curves_rows(e)), k) <==> entries_map(e).contains_key(k)
                && entries_map(e)[k]@.len() > 0,
        forall|k: Seq<char>|
            #[trigger] entries_map(e).contains_key(k) ==> points_of(without_positions(curves_rows(e)), k)
                == entries_map(e)[k]@,
    decreases e.len(),
{
    if e.len() > 0 {
        let d = e.drop_last();
        assert(ids_distinct(d));
        lemma_curve_rows_roundtrip(d);
        crate::table::lemma_entries_map(d);
        let a = without_positions(curves_rows(d));
        let b = without_positions(fan_curve_rows(e.last().0@, e.last().1@));
        assert(without_positions(curves_rows(e)) =~= a + b);
        let last = e.last().0@;
        assert(!entries_map(d).contains_key(last)) by {
            if crate::table::has_id(d, last) {
                let i = choose|i: int| 0 <= i < d.len() && d[i].0@ == last;
                assert(e[i].0@ == e[e.len() - 1].0@);
            }
        }
        assert(!mentions(a, last));
        lemma_points_unmentioned(a, last);
        assert forall|k: Seq<char>|
            #[trigger] mentions(without_positions(curves_rows(e)), k) <==> entries_map(e).contains_key(k)
                && entries_map(e)[k]@.len() > 0 by {
            lemma_points_of_concat(a, b, k);
            lemma_points_of_block(last, e.last().1@, k);
        }
        assert forall|k: Seq<char>|
            #[trigger] entries_map(e).contains_key(k) implies points_of(without_positions(curves_rows(e)), k)
                == entries_map(e)[k]@ by {
            lemma_points_of_concat(a, b, k);
            lemma_points_of_block(last, e.last().1@, k);
            if k == last {
                assert(Seq::<CurvePoint>::empty() + e.last().1@ =~= e.last().1@);
            } else {
                assert(points_of(a, k) + Seq::<CurvePoint>::empty() =~= points_of(a, k));
            }
        }
    }
}

/// Saving the manual boosts and loading them back gives the same map.
pub proof fn lemma_boost_rows_roundtrip(e: Seq<(String, u8)>)
    ensures
        rows_map(e.map_values(|r: (String, u8)| boost_row_view(r))) == entries_map(e),
    decreases e.len(),
{
    if e.len() > 0 {
        lemma_boost_rows_roundtrip(e.drop_last());
        assert(e.map_values(|r: (String, u8)| boost_row_view(r)).drop_last() =~= e.drop_last().map_values(
            |r: (String, u8)| boost_row_view(r),
        ));
    }
}

// ---------------------------------------------------------------------------
// Sample rows
// ---------------------------------------------------------------------------

/// The temperature rows of a sample: each reading stamped with its time.
pub open spec fn temp_rows_of(s: Sample) -> Seq<(u64, TempReading)> {
    s.temps@.map_values(|t: TempReading| (s.timestamp_ms, t))
}

/// The fan rows of a sample: each reading stamped with its time.
pub open spec fn fan_rows_of(s: Sample) -> Seq<(u64, FanReading)> {
    s.fans@.map_values(|f: FanReading| (s.timestamp_ms, f))
}

/// The rows that storing a sample writes, temperatures and fans.
pub fn sample_rows(sample: Sample) -> (rows: (Vec<(u64, TempReading)>, Vec<(u64, FanReading)>))
    ensures
        rows.0@ == temp_rows_of(sample),
        rows.1@ == fan_rows_of(sample),
{
    let ghost orig = sample;
    let ts = sample.timestamp_ms;
    let Sample { timestamp_ms: _, temps: mut temps, fans: mut fans } = sample;
    let mut temp_rows: Vec<(u64, TempReading)> = Vec::new();
    while temps.len() > 0
        invariant
            temps@.len() <= orig.temps@.len(),
            temps@ == orig.temps@.take(temps@.len() as int),
            temp_rows@ == temp_rows_of(orig).skip(temps@.len() as int),
            ts == orig.timestamp_ms,
        decreases temps@.len(),
    {
        let t = temps.pop().unwrap();
        temp_rows.insert(0, (ts, t));
        proof {
            assert(temp_rows@ =~= temp_rows_of(orig).skip(temps@.len() as int));
        }
    }
    let mut fan_rows: Vec<(u64, FanReading)> = Vec::new();
    while fans.len() > 0
        invariant
            fans@.len() <= orig.fans@.len(),
            fans@ == orig.fans@.take(fans@.len() as int),
            fan_rows@ == fan_rows_of(orig).skip(fans@.len() as int),
            ts == orig.timestamp_ms,
        decreases fans@.len(),
    {
        let f = fans.pop().unwrap();
        fan_rows.insert(0, (ts, f));
        proof {
            assert(fan_rows@ =~= fan_rows_of(orig).skip(fans@.len() as int));
        }
    }
    proof {
        assert(temp_rows_of(orig).skip(0) =~= temp_rows_of(orig));
        assert(fan_rows_of(orig).skip(0) =~= fan_rows_of(orig));
    }
    (temp_rows, fan_rows)
}

/// The temperature rows of several samples, sample after sample.
pub open spec fn all_temp_rows(ss: Seq<Sample>) -> Seq<(u64, TempReading)>
    decreases ss.len(),
{
    if ss.len() == 0 {
        Seq::empty()
    } else {
        all_temp_rows(ss.drop_last()) + temp_rows_of(ss.last())
    }
}

/// The fan rows of several samples, sample after sample.
pub open spec fn all_fan_rows(ss: Seq<Sample>) -> Seq<(u64, FanReading)>
    decreases ss.len(),
{
    if ss.len() == 0 {
        Seq::empty()
    } else {
        all_fan_rows(ss.drop_last()) + fan_rows_of(ss.last())
    }
}

proof fn lemma_readings_concat<T>(a: Seq<(u64, T)>, b: Seq<(u64, T)>, ts: u64)
    ensures
        readings_at(a + b, ts) == readings_at(a, ts) + readings_at(b, ts),
        stamped(a + b, ts) <==> stamped(a, ts) || stamped(b, ts),
    decreases a.len(),
{
    if a.len() == 0 {
        assert(a + b =~= b);
        assert(Seq::<T>::empty() + readings_at(b, ts) =~= readings_at(b, ts));
    } else {
        lemma_readings_concat(a.drop_first(), b, ts);
        assert((a + b).drop_first() =~= a.drop_first() + b);
        assert((a + b)[0] == a[0]);
        let h = if a[0].0 == ts {
            seq![a[0].1]
        } else {
            Seq::<T>::empty()
        };
        assert(h + (readings_at(a.drop_first(), ts) + readings_at(b, ts)) =~= (h + readings_at(
            a.drop_first(),
            ts,
        )) + readings_at(b, ts));
    }
    if stamped(a + b, ts) {
        let i = choose|i: int| 0 <= i < (a + b).len() && (a + b)[i].0 == ts;
        if i >= a.len() {
            assert(b[i - a.len()].0 == ts);
        }
    }
    if stamped(b, ts) {
        let i = choose|i: int| 0 <= i < b.len() && b[i].0 == ts;
        assert((a + b)[i + a.len()] == b[i]);
    }
    if stamped(a, ts) {
        let i = choose|i: int| 0 <= i < a.len() && a[i].0 == ts;
        assert((a + b)[i] == a[i]);
    }
}

proof fn lemma_readings_stamped_block<T>(rows: Seq<(u64, T)>, stamp: u64, items: Seq<T>, ts: u64)
    requires
        rows == items.map_values(|x: T| (stamp, x)),
    ensures
        readings_at(rows, ts) == if stamp == ts {
            items
        } else {
            Seq::<T>::empty()
        },
        stamped(rows, ts) <==> stamp == ts && items.len() > 0,
    decreases items.len(),
{
    if items.len() > 0 {
        let rest = items.drop_first();
        assert(rows.drop_first() =~= rest.map_values(|x: T| (stamp, x)));
        lemma_readings_stamped_block(rows.drop_first(), stamp, rest, ts);
        if stamp == ts {
            assert(seq![items[0]] + rest =~= items);
            assert(rows[0].0 == ts);
        } else {
            assert(Seq::<T>::empty() + Seq::<T>::empty() =~= Seq::<T>::empty());
        }
    } else {
        assert(rows =~= Seq::<(u64, T)>::empty());
    }
}

/// A sample carries at least one reading.
pub open spec fn has_readings(s: Sample) -> bool {
    s.temps@.len() > 0 || s.fans@.len() > 0
}

proof fn lemma_all_rows(ss: Seq<Sample>, ts: u64)
    requires
        strictly_ordered(ss),
    ensures
        stamped(all_temp_rows(ss), ts) || stamped(all_fan_rows(ss), ts) <==> exists|i: int|
            0 <= i < ss.len() && ss[i].timestamp_ms == ts && has_readings(ss[i]),
        forall|i: int|
            0 <= i < ss.len() && ss[i].timestamp_ms == ts ==> readings_at(all_temp_rows(ss), ts)
                == ss[i].temps@ && readings_at(all_fan_rows(ss), ts) == ss[i].fans@,
        !has_sample(ss, ts) ==> readings_at(all_temp_rows(ss), ts) == Seq::<TempReading>::empty()
            && readings_at(all_fan_rows(ss), ts) == Seq::<FanReading>::empty(),
    decreases ss.len(),
{
    if ss.len() == 0 {
    } else {
        let d = ss.drop_last();
        let l = ss.last();
        assert(strictly_ordered(d));
        lemma_all_rows(d, ts);
        lemma_readings_concat(all_temp_rows(d), temp_rows_of(l), ts);
        lemma_readings_concat(all_fan_rows(d), fan_rows_of(l), ts);
        lemma_readings_stamped_block(temp_rows_of(l), l.timestamp_ms, l.temps@, ts);
        lemma_readings_stamped_block(fan_rows_of(l), l.timestamp_ms, l.fans@, ts);
        let n = ss.len() - 1;
        assert forall|i: int| 0 <= i < d.len() implies d[i] == ss[i] by {}
        if l.timestamp_ms == ts {
            assert(!has_sample(d, ts)) by {
                if has_sample(d, ts) {
                    let i = choose|i: int| 0 <= i < d.len() && d[i].timestamp_ms == ts;
                    assert(ss[i].timestamp_ms < ss[n].timestamp_ms);
                }
            }
            assert(Seq::<TempReading>::empty() + l.temps@ =~= l.temps@);
            assert(Seq::<FanReading>::empty() + l.fans@ =~= l.fans@);
            if exists|i: int| 0 <= i < ss.len() && ss[i].timestamp_ms == ts && has_readings(ss[i]) {
                let i = choose|i: int| 0 <= i < ss.len() && ss[i].timestamp_ms == ts && has_readings(ss[i]);
                if i < n {
                    assert(ss[i].timestamp_ms < ss[n].timestamp_ms);
                }
            }
            if has_readings(l) {
                assert(ss[n] == l);
            }
            assert forall|i: int| 0 <= i < ss.len() && ss[i].timestamp_ms == ts implies i == n by {
                if i < n {
                    assert(ss[i].timestamp_ms < ss[n].timestamp_ms);
                }
            }
        } else {
            assert(readings_at(all_temp_rows(d), ts) + Seq::<TempReading>::empty() =~= readings_at(all_temp_rows(d), ts));
            assert(readings_at(all_fan_rows(d), ts) + Seq::<FanReading>::empty() =~= readings_at(all_fan_rows(d), ts));
            if exists|i: int| 0 <= i < ss.len() && ss[i].timestamp_ms == ts && has_readings(ss[i]) {
                let i = choose|i: int| 0 <= i < ss.len() && ss[i].timestamp_ms == ts && has_readings(ss[i]);
                assert(i < n);
                assert(d[i] == ss[i]);
            }
            if exists|i: int| 0 <= i < d.len() && d[i].timestamp_ms == ts && has_readings(d[i]) {
                let i = choose|i: int| 0 <= i < d.len() && d[i].timestamp_ms == ts && has_readings(d[i]);
                assert(ss[i] == d[i]);
            }
            if !has_sample(ss, ts) {
                assert(!has_sample(d, ts)) by {
                    if has_sample(d, ts) {
                        let i = choose|i: int| 0 <= i < d.len() && d[i].timestamp_ms == ts;
                        assert(ss[i] == d[i]);
                    }
                }
            }
        }
    }
}

/// Storing samples (oldest first, each with at least one reading) and
/// reading their rows back gives the same samples: same timestamps in the
/// same order, same readings.
pub proof fn lemma_sample_rows_roundtrip(ss: Seq<Sample>, out: Seq<Sample>)
    requires
        strictly_ordered(ss),
        forall|i: int| 0 <= i < ss.len() ==> #[trigger] has_readings(ss[i]),
        grouped(out, all_temp_rows(ss), all_fan_rows(ss)),
    ensures
        out.len() == ss.len(),
        forall|i: int|
            #![trigger out[i]]
            0 <= i < out.len() ==> out[i].timestamp_ms == ss[i].timestamp_ms && out[i].temps@
                == ss[i].temps@ && out[i].fans@ == ss[i].fans@,
    decreases ss.len(),
{
    assert forall|ts: u64| #[trigger] has_sample(out, ts) <==> has_sample(ss, ts) by {
        lemma_all_rows(ss, ts);
        if has_sample(ss, ts) {
            let i = choose|i: int| 0 <= i < ss.len() && ss[i].timestamp_ms == ts;
            assert(has_readings(ss[i]));
        }
        if has_sample(out, ts) {
            assert(exists|i: int| 0 <= i < ss.len() && ss[i].timestamp_ms == ts && has_readings(ss[i]));
        }
    }
    lemma_same_stamps(out, ss);
    assert forall|i: int|
        #![trigger out[i]]
        0 <= i < out.len() implies out[i].timestamp_ms == ss[i].timestamp_ms && out[i].temps@
            == ss[i].temps@ && out[i].fans@ == ss[i].fans@ by {
        lemma_all_rows(ss, out[i].timestamp_ms);
    }
}

proof fn lemma_same_stamps(a: Seq<Sample>, b: Seq<Sample>)
    requires
        strictly_ordered(a),
        strictly_ordered(b),
        forall|ts: u64| #[trigger] has_sample(a, ts) <==> has_sample(b, ts),
    ensures
        a.len() == b.len(),
        forall|i: int| 0 <= i < a.len() ==> a[i].timestamp_ms == b[i].timestamp_ms,
    decreases a.len() + b.len(),
{
    if a.len() == 0 || b.len() == 0 {
        if a.len() > 0 {
            assert(has_sample(a, a[0].timestamp_ms));
            assert(has_sample(b, a[0].timestamp_ms));
        }
        if b.len() > 0 {
            assert(has_sample(b, b[0].timestamp_ms));
            assert(has_sample(a, b[0].timestamp_ms));
        }
    } else {
        let la = a.last().timestamp_ms;
        let lb = b.last().timestamp_ms;
        assert(has_sample(a, la));
        assert(has_sample(b, lb));
        assert(has_sample(b, la));
        assert(has_sample(a, lb));
        let j = choose|j: int| 0 <= j < b.len() && b[j].timestamp_ms == la;
        let k = choose|k: int| 0 <= k < a.len() && a[k].timestamp_ms == lb;
        assert(la == lb) by {
            if j < b.len() - 1 {
                assert(b[j].timestamp_ms < b[b.len() - 1].timestamp_ms);
            }
            if k < a.len() - 1 {
                assert(a[k].timestamp_ms < a[a.len() - 1].timestamp_ms);
            }
        }
        let da = a.drop_last();
        let db = b.drop_last();
        assert forall|ts: u64| #[trigger] has_sample(da, ts) <==> has_sample(db, ts) by {
            if has_sample(da, ts) {
                let i = choose|i: int| 0 <= i < da.len() && da[i].timestamp_ms == ts;
                assert(a[i].timestamp_ms < la);
                assert(has_sample(a, ts));
                assert(has_sample(b, ts));
                let m = choose|m: int| 0 <= m < b.len() && b[m].timestamp_ms == ts;
                assert(m < b.len() - 1);
                assert(db[m].timestamp_ms == ts);
            }
            if has_sample(db, ts) {
                let i = choose|i: int| 0 <= i < db.len() && db[i].timestamp_ms == ts;
                assert(b[i].timestamp_ms < lb);
                assert(has_sample(b, ts));
                assert(has_sample(a, ts));
                let m = choose|m: int| 0 <= m < a.len() && a[m].timestamp_ms == ts;
                assert(m < a.len() - 1);
                assert(da[m].timestamp_ms == ts);
            }
        }
        lemma_same_stamps(da, db);
        assert forall|i: int| 0 <= i < a.len() implies a[i].timestamp_ms == b[i].timestamp_ms by {
            if i < a.len() - 1 {
                assert(da[i] == a[i]);
                assert(db[i] == b[i]);
            }
        }
    }
}

// ---------------------------------------------------------------------------
// Scalar settings
// ---------------------------------------------------------------------------

pub const KEY_UPDATE_INTERVAL: &'static str = "updateIntervalSecs";

pub const KEY_TEMP_UNIT: &'static str = "tempUnit";

pub const KEY_THEME: &'static str = "theme";

pub const KEY_MODE: &'static str = "mode";

pub const KEY_VENDOR_OVERRIDE: &'static str = "vendorOverride";

pub const KEY_RETENTION_DAYS: &'static str = "historyRetentionDays";

pub const KEY_ALL_FANS_BOOST: &'static str = "allFansBoost";

/// What `serde_json::from_str::<u64>` gives for `text` (none when it fails).
pub uninterp spec fn json_u64(text: Seq<char>) -> Option<u64>;

/// What `serde_json::from_str::<u32>` gives for `text` (none when it fails).
pub uninterp spec fn json_u32(text: Seq<char>) -> Option<u32>;

/// What `serde_json::from_str::<Option<String>>` gives for `text` (none when
/// it fails; `Some(None)` for JSON `null`).
pub uninterp spec fn json_optional_string(text: Seq<char>) -> Option<Option<Seq<char>>>;

/// The text of `serde_json::to_string` for an `Option<String>`.
pub uninterp spec fn json_optional_string_text(value: Option<Seq<char>>) -> Seq<char>;

/// An optional string by its view.
pub open spec fn optional_view(v: Option<String>) -> Option<Seq<char>> {
    match v {
        Some(s) => Some(s@),
        None => None,
    }
}

/// `serde_json::from_str::<u64>`, failures as `None`. The decimal text of a
/// `u64` (digits without a leading zero, which is how serde_json writes one)
/// parses back to that number.
#[verifier::external_body]
fn parse_json_u64(text: &str) -> (r: Option<u64>)
    ensures
        r == json_u64(text@),
        forall|n: u64| text@ == crate::text::decimal(n as nat) ==> r == Some(n),
{
    serde_json::from_str::<u64>(text).ok()
}

/// `serde_json::from_str::<u32>`, failures as `None`. The decimal text of a
/// `u32` parses back to that number.
#[verifier::external_body]
fn parse_json_u32(text: &str) -> (r: Option<u32>)
    ensures
        r == json_u32(text@),
        forall|n: u32| text@ == crate::text::decimal(n as nat) ==> r == Some(n),
{
    serde_json::from_str::<u32>(text).ok()
}

/// `serde_json::from_str::<Option<String>>`, failures as `None`. What
/// `serde_json::to_string` writes for an `Option<String>` (`null`, or the
/// string quoted and escaped) parses back to that value.
#[verifier::external_body]
fn parse_json_optional_string(text: &str) -> (r: Option<Option<String>>)
    ensures
        match r {
            None => json_optional_string(text@) is None,
            Some(v) => json_optional_string(text@) == Some(optional_view(v)),
        },
        forall|v: Option<Seq<char>>|
            text@ == json_optional_string_text(v) ==> r is Some && optional_view(r->0) == v,
{
    serde_json::from_str::<Option<String>>(text).ok()
}

/// `serde_json::to_string` of an `Option<String>`, which cannot fail: its
/// documentation names as the only failures a `Serialize` impl that fails or
/// a map with non-string keys.
#[verifier::external_body]
fn optional_string_json(value: &Option<String>) -> (s: String)
    ensures
        s@ == json_optional_string_text(optional_view(*value)),
{
    match serde_json::to_string(value) {
        Ok(s) => s,
        Err(_) => String::new(),
    }
}

/// The value a stored setting gives: its parse when there is one, else the
/// current value.
pub open spec fn stored_or<T>(stored: Option<Seq<char>>, parse: spec_fn(Seq<char>) -> Option<T>, current: T) -> T {
    match stored {
        Some(text) => match parse(text) {
            Some(v) => v,
            None => current,
        },
        None => current,
    }
}

/// Applies parsed scalar settings: each value that is present replaces the
/// current one, the others stay.
pub fn apply_parsed_settings(
    config: &mut Config,
    interval: Option<u64>,
    vendor_override: Option<Option<String>>,
    retention_days: Option<u32>,
)
    ensures
        final(config).update_interval_secs == match interval {
            Some(v) => v,
            None => old(config).update_interval_secs,
        },
        optional_view(final(config).vendor_override) == match vendor_override {
            Some(v) => optional_view(v),
            None => optional_view(old(config).vendor_override),
        },
        final(config).history_retention_days == match retention_days {
            Some(v) => v,
            None => old(config).history_retention_days,
        },
        final(config).temp_unit == old(config).temp_unit,
        final(config).theme == old(config).theme,
        final(config).mode == old(config).mode,
        final(config).manual_boosts == old(config).manual_boosts,
        final(config).curves == old(config).curves,
        final(config).all_fans_boost == old(config).all_fans_boost,
{
    if let Some(v) = interval {
        config.update_interval_secs = v;
    }
    if let Some(v) = vendor_override {
        config.vendor_override = v;
    }
    if let Some(v) = retention_days {
        config.history_retention_days = v;
    }
}

/// Loads the plain scalar settings (interval, vendor override, retention)
/// from their stored JSON texts: each one that is present and parses
/// replaces the current value, any other keeps it. The texts that
/// [`plain_settings`] writes load back to the values they were written from.
pub fn apply_plain_settings(
    config: &mut Config,
    interval: Option<&str>,
    vendor_override: Option<&str>,
    retention_days: Option<&str>,
)
    ensures
        final(config).update_interval_secs == stored_or(
            match interval { Some(t) => Some(t@), None => None },
            |t: Seq<char>| json_u64(t),
            old(config).update_interval_secs,
        ),
        optional_view(final(config).vendor_override) == stored_or(
            match vendor_override { Some(t) => Some(t@), None => None },
            |t: Seq<char>| json_optional_string(t),
            optional_view(old(config).vendor_override),
        ),
        final(config).history_retention_days == stored_or(
            match retention_days { Some(t) => Some(t@), None => None },
            |t: Seq<char>| json_u32(t),
            old(config).history_retention_days,
        ),
        forall|n: u64|
            (interval matches Some(t) && t@ == #[trigger] crate::text::decimal(n as nat))
                ==> final(config).update_interval_secs == n,
        forall|v: Option<Seq<char>>|
            (vendor_override matches Some(t) && t@ == #[trigger] json_optional_string_text(v))
                ==> optional_view(final(config).vendor_override) == v,
        forall|n: u32|
            (retention_days matches Some(t) && t@ == #[trigger] crate::text::decimal(n as nat))
                ==> final(config).history_retention_days == n,
        final(config).temp_unit == old(config).temp_unit,
        final(config).theme == old(config).theme,
        final(config).mode == old(config).mode,
        final(config).manual_boosts == old(config).manual_boosts,
        final(config).curves == old(config).curves,
        final(config).all_fans_boost == old(config).all_fans_boost,
{
    let parsed_interval = match interval {
        Some(t) => parse_json_u64(t),
        None => None,
    };
    let parsed_vendor = match vendor_override {
        Some(t) => parse_json_optional_string(t),
        None => None,
    };
    let parsed_retention = match retention_days {
        Some(t) => parse_json_u32(t),
        None => None,
    };
    apply_parsed_settings(config, parsed_interval, parsed_vendor, parsed_retention);
}

/// The stored texts of the plain scalar settings, keyed: the interval and
/// the retention as decimal numbers, the vendor override as JSON.
pub fn plain_settings(config: &Config) -> (rows: Vec<(&'static str, String)>)
    ensures
        rows@.len() == 3,
        rows@[0].0@ == KEY_UPDATE_INTERVAL@,
        rows@[0].1@ == crate::text::decimal(config.update_interval_secs as nat),
        rows@[1].0@ == KEY_VENDOR_OVERRIDE@,
        rows@[1].1@ == json_optional_string_text(optional_view(config.vendor_override)),
        rows@[2].0@ == KEY_RETENTION_DAYS@,
        rows@[2].1@ == crate::text::decimal(config.history_retention_days as nat),
{
    let mut rows: Vec<(&'static str, String)> = Vec::new();
    rows.push((KEY_UPDATE_INTERVAL, decimal_string(config.update_interval_secs)));
    rows.push((KEY_VENDOR_OVERRIDE, optional_string_json(&config.vendor_override)));
    rows.push((KEY_RETENTION_DAYS, decimal_string(config.history_retention_days as u64)));
    rows
}

// ---------------------------------------------------------------------------
// Loading a configuration
// ---------------------------------------------------------------------------

/// What the database holds of a configuration, as read back: the stored
/// texts of the plain settings, the enum settings as parsed, and the rows of
/// the manual boosts and of the curves (each fan's points in position
/// order). Missing settings, and tables that could not be read, are `None`.
pub struct StoredConfig {
    pub update_interval: Option<String>,
    pub vendor_override: Option<String>,
    pub retention_days: Option<String>,
    pub temp_unit: Option<TempUnit>,
    pub theme: Option<Theme>,
    pub mode: Option<FanMode>,
    pub all_fans_boost: Option<AllFansBoost>,
    pub manual_boosts: Option<Vec<(String, u8)>>,
    pub curve_points: Option<Vec<(String, CurvePoint)>>,
}

/// An optional string by the characters it holds.
pub open spec fn text_view(t: Option<String>) -> Option<Seq<char>> {
    match t {
        Some(s) => Some(s@),
        None => None,
    }
}

/// Curve rows read back that hold, fan by fan, the same points in the same
/// order as the rows `written` (whatever the order of the fans).
pub open spec fn same_curve_points(read: Seq<(Seq<char>, CurvePoint)>, written: Seq<(Seq<char>, CurvePoint)>) -> bool {
    forall|k: Seq<char>|
        #![trigger mentions(read, k)]
        #![trigger points_of(read, k)]
        mentions(read, k) == mentions(written, k) && points_of(read, k) == points_of(written, k)
}

/// `stored` is what saving `saved` writes ([`plain_settings`],
/// [`manual_boost_rows`], [`curve_rows`], the enum settings), read back.
pub open spec fn stored_from(stored: StoredConfig, saved: Config) -> bool {
    &&& text_view(stored.update_interval) == Some(crate::text::decimal(saved.update_interval_secs as nat))
    &&& text_view(stored.vendor_override) == Some(
        json_optional_string_text(optional_view(saved.vendor_override)),
    )
    &&& text_view(stored.retention_days) == Some(crate::text::decimal(saved.history_retention_days as nat))
    &&& stored.temp_unit == Some(saved.temp_unit)
    &&& stored.theme == Some(saved.theme)
    &&& stored.mode == Some(saved.mode)
    &&& stored.all_fans_boost == Some(saved.all_fans_boost)
    &&& stored.manual_boosts matches Some(rows) && rows@.map_values(|r: (String, u8)| boost_row_view(r))
        == saved.manual_boosts.entry_seq().map_values(|r: (String, u8)| boost_row_view(r))
    &&& stored.curve_points matches Some(rows) && same_curve_points(
        rows@.map_values(|r: (String, CurvePoint)| point_row_view(r)),
        without_positions(curves_rows(saved.curves.entry_seq())),
    )
    &&& ids_distinct(saved.curves.entry_seq())
}

/// `loaded` gives back `saved`: every setting, the manual boosts, and the
/// curves minus the empty ones, each with its points in order.
pub open spec fn loads_back(loaded: Config, saved: Config) -> bool {
    &&& loaded.update_interval_secs == saved.update_interval_secs
    &&& optional_view(loaded.vendor_override) == optional_view(saved.vendor_override)
    &&& loaded.history_retention_days == saved.history_retention_days
    &&& loaded.temp_unit == saved.temp_unit
    &&& loaded.theme == saved.theme
    &&& loaded.mode == saved.mode
    &&& loaded.all_fans_boost == saved.all_fans_boost
    &&& loaded.manual_boosts.map() == saved.manual_boosts.map()
    &&& forall|k: Seq<char>|
        #[trigger] loaded.curves.map().contains_key(k) <==> saved.curves.map().contains_key(k)
            && saved.curves.map()[k]@.len() > 0
    &&& forall|k: Seq<char>|
        #[trigger] loaded.curves.map().contains_key(k) ==> loaded.curves.map()[k]@
            == saved.curves.map()[k]@
}

fn str_of(t: &Option<String>) -> (r: Option<&str>)
    ensures
        match r {
            Some(x) => text_view(*t) == Some(x@),
            None => t is None,
        },
{
    match t {
        Some(s) => Some(s.as_str()),
        None => None,
    }
}

/// Rebuilds the configuration from what the database holds: each setting
/// that is stored and parses replaces the default, the manual boosts and the
/// curves come from their rows. What saving a configuration writes loads
/// back to that configuration (curves without points are not kept).
pub fn load_config(stored: &StoredConfig) -> (c: Config)
    ensures
        c.update_interval_secs == stored_or(text_view(stored.update_interval), |t: Seq<char>| json_u64(t), 2u64),
        optional_view(c.vendor_override) == stored_or(
            text_view(stored.vendor_override),
            |t: Seq<char>| json_optional_string(t),
            None::<Seq<char>>,
        ),
        c.history_retention_days == stored_or(text_view(stored.retention_days), |t: Seq<char>| json_u32(t), 7u32),
        c.temp_unit == match stored.temp_unit { Some(u) => u, None => TempUnit::Celsius },
        c.theme == match stored.theme { Some(t) => t, None => Theme::System },
        c.mode == match stored.mode { Some(m) => m, None => FanMode::Auto },
        c.all_fans_boost == match stored.all_fans_boost {
            Some(b) => b,
            None => AllFansBoost { enabled: false, percent: 50 },
        },
        c.manual_boosts.map() == match stored.manual_boosts {
            Some(rows) => rows_map(rows@.map_values(|r: (String, u8)| boost_row_view(r))),
            None => Map::<Seq<char>, u8>::empty(),
        },
        stored.curve_points is None ==> c.curves.map() == Map::<Seq<char>, Vec<CurvePoint>>::empty(),
        stored.curve_points matches Some(rows) ==> forall|k: Seq<char>|
            #[trigger] c.curves.map().contains_key(k) <==> mentions(
                rows@.map_values(|r: (String, CurvePoint)| point_row_view(r)),
                k,
            ),
        stored.curve_points matches Some(rows) ==> forall|k: Seq<char>|
            #[trigger] c.curves.map().contains_key(k) ==> c.curves.map()[k]@ == points_of(
                rows@.map_values(|r: (String, CurvePoint)| point_row_view(r)),
                k,
            ),
        forall|saved: Config| #[trigger] stored_from(*stored, saved) ==> loads_back(c, saved),
{
    let mut c = Config::default();
    apply_plain_settings(
        &mut c,
        str_of(&stored.update_interval),
        str_of(&stored.vendor_override),
        str_of(&stored.retention_days),
    );
    if let Some(u) = stored.temp_unit {
        c.temp_unit = u;
    }
    if let Some(t) = stored.theme {
        c.theme = t;
    }
    if let Some(m) = stored.mode {
        c.mode = m;
    }
    if let Some(b) = stored.all_fans_boost {
        c.all_fans_boost = b;
    }
    if let Some(rows) = &stored.manual_boosts {
        c.manual_boosts = collect_manual_boosts(rows.as_slice());
    }
    if let Some(rows) = &stored.curve_points {
        c.curves = group_curve_rows(rows.as_slice());
    }
    proof {
        assert forall|saved: Config| #[trigger] stored_from(*stored, saved) implies loads_back(c, saved) by {
            let e = saved.curves.entry_seq();
            lemma_boost_rows_roundtrip(saved.manual_boosts.entry_seq());
            lemma_curve_rows_roundtrip(e);
            let written = without_positions(curves_rows(e));
            let rows = stored.curve_points->0;
            let read = rows@.map_values(|r: (String, CurvePoint)| point_row_view(r));
            assert forall|k: Seq<char>|
                #[trigger] c.curves.map().contains_key(k) <==> saved.curves.map().contains_key(k)
                    && saved.curves.map()[k]@.len() > 0 by {
                assert(mentions(read, k) == mentions(written, k));
            }
            assert forall|k: Seq<char>|
                #[trigger] c.curves.map().contains_key(k) implies c.curves.map()[k]@
                    == saved.curves.map()[k]@ by {
                assert(mentions(read, k) == mentions(written, k));
                assert(points_of(read, k) == points_of(written, k));
            }
        }
    }
    c
}

} // verus!
