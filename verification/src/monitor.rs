//! The decisions of the monitoring loop: which boost the curve engine writes
//! to each fan on a tick, and which telemetry is old enough to purge.
use vstd::prelude::*;
use crate::commands::{ranges_valid, FanSlot};
use crate::config::{Config, FanMode};
use crate::curve::{
    boost_for, default_curve, default_points, evaluate_spec, hysteresis_next, hysteresis_output,
    CurvePoint, Hysteresis,
};
use crate::state::{FanReading, Inner, Sample, TempReading};
use crate::text::{decimal, push_decimal, push_str};

verus! {

/// The highest of the temperatures (`s` non-empty).
pub open spec fn seq_max(s: Seq<i32>) -> int
    recommends
        s.len() > 0,
    decreases s.len(),
{
    if s.len() <= 1 {
        s[0] as int
    } else {
        let m = seq_max(s.drop_last());
        if s.last() > m {
            s.last() as int
        } else {
            m
        }
    }
}

/// Reference temperature for the fan at position `i`: the sensor at the
/// same position if there is one (fan1↔temp1: CPU Fan↔CPU), otherwise the
/// highest temperature; none without readings.
pub open spec fn reference_temp(temps: Seq<i32>, i: int) -> Option<i32> {
    if i < temps.len() {
        Some(temps[i])
    } else if temps.len() == 0 {
        None
    } else {
        Some(seq_max(temps) as i32)
    }
}

proof fn lemma_seq_max(s: Seq<i32>)
    requires
        s.len() > 0,
    ensures
        forall|j: int| 0 <= j < s.len() ==> s[j] <= seq_max(s),
        exists|j: int| 0 <= j < s.len() && s[j] == seq_max(s),
    decreases s.len(),
{
    if s.len() == 1 {
        assert(s[0] == seq_max(s));
    } else {
        let d = s.drop_last();
        lemma_seq_max(d);
        assert forall|j: int| 0 <= j < s.len() implies s[j] <= seq_max(s) by {
            if j < d.len() {
                assert(s[j] == d[j]);
            }
        }
        if s.last() > seq_max(d) {
            assert(s[s.len() - 1] == seq_max(s));
        } else {
            let k = choose|k: int| 0 <= k < d.len() && d[k] == seq_max(d);
            assert(s[k] == seq_max(s));
        }
    }
}

/// Which temperature a fan follows: the reading at its own position when
/// there is one; otherwise the hottest reading (one of the readings, and
/// none is hotter); nothing without readings.
pub proof fn lemma_reference_temp(temps: Seq<i32>, i: int)
    requires
        0 <= i,
    ensures
        i < temps.len() ==> reference_temp(temps, i) == Some(temps[i]),
        temps.len() == 0 ==> reference_temp(temps, i) is None,
        i >= temps.len() > 0 ==> (reference_temp(temps, i) matches Some(t) && (exists|j: int|
            0 <= j < temps.len() && temps[j] == t) && forall|j: int|
            0 <= j < temps.len() ==> temps[j] <= t),
{
    if i >= temps.len() > 0 {
        lemma_seq_max(temps);
    }
}

/// The curve a fan follows: its saved curve, or the default one when none
/// (or an empty one) was saved.
pub open spec fn curve_of(curves: Map<Seq<char>, Vec<CurvePoint>>, id: Seq<char>) -> Seq<
    CurvePoint,
> {
    if curves.contains_key(id) && curves[id]@.len() > 0 {
        curves[id]@
    } else {
        default_curve()
    }
}

/// The hysteresis state recorded for `id` (none yet if absent).
pub open spec fn state_of(states: Map<Seq<char>, Option<(i32, u8)>>, id: Seq<char>) -> Option<
    (i32, u8),
> {
    if states.contains_key(id) {
        states[id]
    } else {
        None
    }
}

/// The hysteresis states (by their view) after the curve engine has handled
/// `fans` in order, and the boost written to each of them (none for a fan
/// without a reference temperature).
pub open spec fn curve_tick_spec(
    states: Map<Seq<char>, Option<(i32, u8)>>,
    curves: Map<Seq<char>, Vec<CurvePoint>>,
    temps: Seq<i32>,
    fans: Seq<FanSlot>,
) -> (Map<Seq<char>, Option<(i32, u8)>>, Seq<Option<u8>>)
    decreases fans.len(),
{
    if fans.len() == 0 {
        (states, Seq::empty())
    } else {
        let (st, out) = curve_tick_spec(states, curves, temps, fans.drop_last());
        let i = fans.len() - 1;
        let f = fans.last();
        match reference_temp(temps, i) {
            None => (st, out.push(None)),
            Some(t) => {
                let prev = state_of(st, f.id@);
                let target = evaluate_spec(curve_of(curves, f.id@), t as int);
                let pct = hysteresis_output(prev, target, t as int);
                (
                    st.insert(f.id@, hysteresis_next(prev, target, t)),
                    out.push(Some(boost_for(pct, f.boost_range.0 as int, f.boost_range.1 as int) as u8)),
                )
            },
        }
    }
}

/// The view of every hysteresis state in a map.
pub open spec fn state_views(m: Map<Seq<char>, Hysteresis>) -> Map<Seq<char>, Option<(i32, u8)>> {
    m.map_values(|h: Hysteresis| h@)
}

/// The highest temperature of the readings, if any.
pub fn max_temp(temps: &[i32]) -> (m: Option<i32>)
    ensures
        temps@.len() == 0 ==> m is None,
        temps@.len() > 0 ==> m == Some(seq_max(temps@) as i32),
{
    let n = temps.len();
    if n == 0 {
        return None;
    }
    let mut m: i32 = temps[0];
    for i in 1..n
        invariant
            n == temps@.len(),
            n > 0,
            m as int == seq_max(temps@.take(i as int)),
    {
        assert(temps@.take(i + 1).drop_last() =~= temps@.take(i as int));
        if temps[i] > m {
            m = temps[i];
        }
    }
    assert(temps@.take(n as int) =~= temps@);
    Some(m)
}

impl Inner {
    /// One tick of the curve engine. In Auto mode each fan follows its curve
    /// (or the default one) at its reference temperature, through its
    /// hysteresis; the result holds, fan by fan, the boost to write (none
    /// without readings). In the other modes nothing is written.
    pub fn curve_tick(&mut self, temps: &[i32], fans: &[FanSlot]) -> (boosts: Vec<Option<u8>>)
        requires
            old(self).config.mode == FanMode::Auto && temps@.len() > 0 ==> ranges_valid(fans@),
        ensures
            old(self).config.mode != FanMode::Auto ==> *final(self) == *old(self) && boosts@.len()
                == 0,
            old(self).config.mode == FanMode::Auto ==> {
                let (st, out) = curve_tick_spec(
                    state_views(old(self).curve_states.map()),
                    old(self).config.curves.map(),
                    temps@,
                    fans@,
                );
                &&& boosts@ == out
                &&& state_views(final(self).curve_states.map()) == st
                &&& final(self).config == old(self).config
                &&& final(self).history == old(self).history
            },
    {
        let mut boosts: Vec<Option<u8>> = Vec::new();
        if self.config.mode != FanMode::Auto {
            return boosts;
        }
        let max = max_temp(temps);
        let defaults = default_points();
        let n = fans.len();
        let ghost states0 = state_views(self.curve_states.map());
        for i in 0..n
            invariant
                n == fans@.len(),
                temps@.len() > 0 ==> ranges_valid(fans@),
                max == (if temps@.len() == 0 { None } else { Some(seq_max(temps@) as i32) }),
                defaults@ == default_curve(),
                self.config == old(self).config,
                self.history == old(self).history,
                self.config.mode == FanMode::Auto,
                states0 == state_views(old(self).curve_states.map()),
                ({
                    let (st, out) = curve_tick_spec(
                        states0,
                        self.config.curves.map(),
                        temps@,
                        fans@.take(i as int),
                    );
                    &&& boosts@ == out
                    &&& state_views(self.curve_states.map()) == st
                }),
        {
            let ghost pre_states = state_views(self.curve_states.map());
            let ghost pre_boosts = boosts@;
            proof {
                assert(fans@.take(i + 1).drop_last() =~= fans@.take(i as int));
                assert(fans@.take(i + 1).last() == fans@[i as int]);
            }
            let fan = &fans[i];
            let temp: Option<i32> = if i < temps.len() {
                Some(temps[i])
            } else {
                max
            };
            assert(temp == reference_temp(temps@, i as int));
            match temp {
                None => {
                    boosts.push(None);
                },
                Some(t) => {
                    let points: &[CurvePoint] = match self.config.curves.get(fan.id.as_str()) {
                        Some(p) => if p.len() > 0 {
                            p.as_slice()
                        } else {
                            defaults.as_slice()
                        },
                        None => defaults.as_slice(),
                    };
                    assert(points@ == crate::monitor::curve_of(
                        self.config.curves.map(),
                        fan.id@,
                    ));
                    let mut h = match self.curve_states.get(fan.id.as_str()) {
                        Some(h) => *h,
                        None => Hysteresis::new(),
                    };
                    assert(h@ == state_of(pre_states, fan.id@));
                    let percent = h.update(points, t);
                    let boost = crate::curve::percent_to_boost(percent, fan.boost_range);
                    self.curve_states.insert(fan.id.clone(), h);
                    proof {
                        assert(state_views(self.curve_states.map()) =~= pre_states.insert(
                            fan.id@,
                            h@,
                        ));
                    }
                    boosts.push(Some(boost));
                },
            }
        }
        proof {
            assert(fans@.take(n as int) =~= fans@);
        }
        boosts
    }
}

/// How far back telemetry is kept: `now_ms` minus the retention period
/// (saturating at 0).
pub open spec fn cutoff_for(now_ms: int, retention_days: int) -> int {
    let keep = retention_days * 24 * 3600 * 1000;
    if now_ms > keep {
        now_ms - keep
    } else {
        0
    }
}

/// Readings older than this timestamp are purged: now minus the configured
/// retention (sanitized to 1..=365 days).
pub fn purge_cutoff(config: &Config, now_ms: u64) -> (cutoff: u64)
    ensures
        cutoff == cutoff_for(now_ms as int, crate::config::clamp(config.history_retention_days as int, 1, 365)),
{
    let days = config.retention_days() as u64;
    let keep: u64 = days * 24 * 3600 * 1000;
    if now_ms > keep {
        now_ms - keep
    } else {
        0
    }
}

// ---------------------------------------------------------------------------
// Tray status line
// ---------------------------------------------------------------------------

/// `m` millidegrees as whole degrees, rounded to nearest with ties to even
/// (for `m >= 0`).
pub open spec fn round_degrees(m: int) -> int {
    let q = m / 1000;
    let r = m % 1000;
    if r > 500 || (r == 500 && q % 2 == 1) {
        q + 1
    } else {
        q
    }
}

/// A temperature as whole degrees, keeping the sign of negative readings
/// (as `{:.0}` does: -0.4 °C shows as "-0").
pub open spec fn degrees_text(m: int) -> Seq<char> {
    if m < 0 {
        "-"@ + decimal(round_degrees(-m) as nat)
    } else {
        decimal(round_degrees(m) as nat)
    }
}

/// "CPU 52°C".
pub open spec fn temp_part(t: TempReading) -> Seq<char> {
    t.label@ + " "@ + degrees_text(t.millicelsius as int) + "°C"@
}

/// "2400 RPM" for every fan with a reading.
pub open spec fn rpm_parts(fans: Seq<FanReading>) -> Seq<Seq<char>>
    decreases fans.len(),
{
    if fans.len() == 0 {
        Seq::empty()
    } else {
        rpm_parts(fans.drop_last()) + match fans.last().rpm {
            Some(rpm) => seq![decimal(rpm as nat) + " RPM"@],
            None => Seq::empty(),
        }
    }
}

/// A fan has a speed reading.
pub open spec fn has_rpm(f: FanReading) -> bool {
    f.rpm is Some
}

/// The speed part of a fan with a reading: "2400 RPM".
pub open spec fn rpm_text(f: FanReading) -> Seq<char> {
    decimal(f.rpm->0 as nat) + " RPM"@
}

/// The speed parts are one per fan that has a reading, whatever its value
/// (a stopped fan shows "0 RPM"), in fan order: the fans with a reading,
/// each as its speed and " RPM".
pub proof fn lemma_rpm_parts(fans: Seq<FanReading>)
    ensures
        rpm_parts(fans) == fans.filter(|f: FanReading| has_rpm(f)).map_values(
            |f: FanReading| rpm_text(f),
        ),
    decreases fans.len(),
{
    reveal(Seq::filter);
    if fans.len() > 0 {
        let d = fans.drop_last();
        lemma_rpm_parts(d);
        let fd = d.filter(|f: FanReading| has_rpm(f));
        let ff = fans.filter(|f: FanReading| has_rpm(f));
        if has_rpm(fans.last()) {
            assert(ff == fd.push(fans.last()));
            assert(ff.map_values(|f: FanReading| rpm_text(f)) =~= fd.map_values(
                |f: FanReading| rpm_text(f),
            ) + seq![rpm_text(fans.last())]);
        } else {
            assert(ff == fd);
            assert(rpm_parts(fans) =~= rpm_parts(d));
        }
    } else {
        assert(fans.filter(|f: FanReading| has_rpm(f)) =~= Seq::<FanReading>::empty());
    }
}

/// The parts of the status line: every temperature, then every fan speed.
pub open spec fn status_parts(s: Sample) -> Seq<Seq<char>> {
    s.temps@.map_values(|t: TempReading| temp_part(t)) + rpm_parts(s.fans@)
}

/// `parts` joined with `sep` between them.
pub open spec fn join(parts: Seq<Seq<char>>, sep: Seq<char>) -> Seq<char>
    decreases parts.len(),
{
    if parts.len() == 0 {
        Seq::empty()
    } else if parts.len() == 1 {
        parts[0]
    } else {
        join(parts.drop_last(), sep) + sep + parts.last()
    }
}

/// The separator between the parts of the status line.
pub open spec fn status_sep() -> Seq<char> {
    " · "@
}

/// The status line: the parts joined with " · ", or "No readings".
pub open spec fn status_text(s: Sample) -> Seq<char> {
    if status_parts(s).len() == 0 {
        "No readings"@
    } else {
        join(status_parts(s), status_sep())
    }
}

/// Appends the rounded whole degrees of `m` millidegrees.
fn push_degrees(out: &mut String, m: i32)
    ensures
        final(out)@ == old(out)@ + degrees_text(m as int),
{
    let neg = m < 0;
    let a: u64 = if neg {
        (-(m as i64)) as u64
    } else {
        m as u64
    };
    let q = a / 1000;
    let r = a % 1000;
    let d = if r > 500 || (r == 500 && q % 2 == 1) {
        q + 1
    } else {
        q
    };
    assert(d == round_degrees(if neg { -(m as int) } else { m as int }));
    if neg {
        push_str(out, "-");
    }
    push_decimal(out, d);
    proof {
        if neg {
            assert(out@ =~= old(out)@ + ("-"@ + decimal(d as nat)));
        }
    }
}

/// Appends `part` to `out`, preceded by the separator unless it is the first.
fn push_part(out: &mut String, parts: Ghost<Seq<Seq<char>>>, first: bool, part: &str)
    requires
        old(out)@ == join(parts@, status_sep()),
        first == (parts@.len() == 0),
    ensures
        final(out)@ == join(parts@.push(part@), status_sep()),
{
    if !first {
        push_str(out, " · ");
    }
    push_str(out, part);
    proof {
        let p2 = parts@.push(part@);
        assert(p2.drop_last() =~= parts@);
        if parts@.len() == 0 {
            assert(out@ =~= part@);
        }
    }
}

/// Compact summary for the tray menu/tooltip, e.g.
/// "CPU 52°C · GPU 48°C · 2400 RPM".
pub fn status_line(sample: &Sample) -> (line: String)
    ensures
        line@ == status_text(*sample),
{
    let mut out = String::new();
    let ghost mut parts: Seq<Seq<char>> = Seq::empty();
    let mut any = false;
    let nt = sample.temps.len();
    for i in 0..nt
        invariant
            nt == sample.temps@.len(),
            parts == sample.temps@.take(i as int).map_values(|t: TempReading| temp_part(t)),
            out@ == join(parts, status_sep()),
            any == (parts.len() > 0),
    {
        let t = &sample.temps[i];
        let mut part = t.label.clone();
        push_str(&mut part, " ");
        push_degrees(&mut part, t.millicelsius);
        push_str(&mut part, "°C");
        assert(part@ =~= temp_part(*t));
        push_part(&mut out, Ghost(parts), !any, part.as_str());
        any = true;
        proof {
            assert(sample.temps@.take(i + 1).map_values(|t: TempReading| temp_part(t))
                =~= parts.push(part@));
            parts = parts.push(part@);
        }
    }
    proof {
        assert(sample.temps@.take(nt as int) =~= sample.temps@);
    }
    let ghost temp_parts = parts;
    let nf = sample.fans.len();
    for i in 0..nf
        invariant
            nf == sample.fans@.len(),
            temp_parts == sample.temps@.map_values(|t: TempReading| temp_part(t)),
            parts == temp_parts + rpm_parts(sample.fans@.take(i as int)),
            out@ == join(parts, status_sep()),
            any == (parts.len() > 0),
    {
        proof {
            assert(sample.fans@.take(i + 1).drop_last() =~= sample.fans@.take(i as int));
        }
        match sample.fans[i].rpm {
            Some(rpm) => {
                let mut part = String::new();
                push_decimal(&mut part, rpm as u64);
                push_str(&mut part, " RPM");
                push_part(&mut out, Ghost(parts), !any, part.as_str());
                any = true;
                proof {
                    assert(part@ =~= decimal(rpm as nat) + " RPM"@);
                    assert(temp_parts + rpm_parts(sample.fans@.take(i + 1)) =~= parts.push(part@));
                    parts = parts.push(part@);
                }
            },
            None => {
                proof {
                    assert(rpm_parts(sample.fans@.take(i + 1)) =~= rpm_parts(sample.fans@.take(i as int)));
                }
            },
        }
    }
    proof {
        assert(sample.fans@.take(nf as int) =~= sample.fans@);
    }
    if !any {
        return "No readings".to_owned();
    }
    out
}

/// The curve engine writes one decision per fan: a boost within that fan's
/// range whenever there is a reading, nothing for any fan when there is none;
/// and the boost is never below the one of the fan's curve at its reference
/// temperature (the hysteresis only ever holds the fan higher).
pub proof fn lemma_curve_tick_bounds(
    states: Map<Seq<char>, Option<(i32, u8)>>,
    curves: Map<Seq<char>, Vec<CurvePoint>>,
    temps: Seq<i32>,
    fans: Seq<FanSlot>,
)
    requires
        ranges_valid(fans),
    ensures
        ({
            let out = curve_tick_spec(states, curves, temps, fans).1;
            &&& out.len() == fans.len()
            &&& temps.len() == 0 ==> forall|i: int| 0 <= i < out.len() ==> out[i] is None
            &&& temps.len() > 0 ==> forall|i: int| 0 <= i < out.len() ==> out[i] is Some
            &&& forall|i: int|
                0 <= i < out.len() ==> (#[trigger] out[i] matches Some(b) ==> fans[i].boost_range.0
                    <= b <= fans[i].boost_range.1 && reference_temp(temps, i) is Some && b
                    >= boost_for(
                    evaluate_spec(curve_of(curves, fans[i].id@), reference_temp(temps, i)->0 as int),
                    fans[i].boost_range.0 as int,
                    fans[i].boost_range.1 as int,
                ))
        }),
    decreases fans.len(),
{
    if fans.len() > 0 {
        let d = fans.drop_last();
        assert(ranges_valid(d)) by {
            assert forall|i: int| 0 <= i < d.len() implies d[i].boost_range.0 <= d[i].boost_range.1 by {
                assert(d[i] == fans[i]);
            }
        }
        lemma_curve_tick_bounds(states, curves, temps, d);
        let (st, out0) = curve_tick_spec(states, curves, temps, d);
        let out = curve_tick_spec(states, curves, temps, fans).1;
        let i = fans.len() - 1;
        let f = fans.last();
        assert forall|k: int| 0 <= k < i implies out[k] == out0[k] by {}
        match reference_temp(temps, i) {
            None => {},
            Some(t) => {
                let prev = state_of(st, f.id@);
                let target = evaluate_spec(curve_of(curves, f.id@), t as int);
                let pct = hysteresis_output(prev, target, t as int);
                let lo = f.boost_range.0 as int;
                let hi = f.boost_range.1 as int;
                crate::curve::lemma_hysteresis_never_below_curve(prev, target, t as int);
                crate::curve::lemma_sort_by_temp(curve_of(curves, f.id@));
                crate::curve::lemma_curve_value_bounds(
                    crate::curve::sort_by_temp(curve_of(curves, f.id@)),
                    t as int,
                );
                assert(0 <= target);
                crate::curve::lemma_boost_for_monotone(target, pct, lo, hi);
                crate::curve::lemma_boost_for_in_range(pct, lo, hi);
            },
        }
    }
}

/// The purge cutoff never lies in the future, nor more than a year (the
/// longest retention) in the past.
pub proof fn lemma_purge_cutoff_bounds(now_ms: int, days: int)
    requires
        now_ms >= 0,
        1 <= days <= 365,
    ensures
        0 <= cutoff_for(now_ms, days) <= now_ms,
        now_ms - cutoff_for(now_ms, days) <= 365 * 24 * 3600 * 1000,
{
}

// ---------------------------------------------------------------------------
// Loop timing
// ---------------------------------------------------------------------------

/// How often old telemetry is purged from the database, in milliseconds.
pub const PURGE_INTERVAL_MS: u64 = 3_600_000;

/// The longest single sleep, so that lowering the interval in Settings takes
/// effect without waiting for a long sleep to end.
pub const SLEEP_SLICE_MS: u64 = 250;

/// A purge is due on the first tick and then once per `PURGE_INTERVAL_MS`.
pub fn purge_due(since_last_purge_ms: Option<u64>) -> (due: bool)
    ensures
        due == match since_last_purge_ms {
            None => true,
            Some(e) => e >= PURGE_INTERVAL_MS,
        },
{
    match since_last_purge_ms {
        None => true,
        Some(e) => e >= PURGE_INTERVAL_MS,
    }
}

/// The purge schedule's step: whether the iteration at `now_ms` purges,
/// given when the last purge ran (on the same monotonic clock), and when the
/// last purge has run after it.
pub open spec fn purge_next(last_purge_ms: Option<u64>, now_ms: u64) -> (bool, Option<u64>) {
    let due = match last_purge_ms {
        None => true,
        Some(l) => now_ms >= l + PURGE_INTERVAL_MS,
    };
    if due {
        (true, Some(now_ms))
    } else {
        (false, last_purge_ms)
    }
}

/// Decides whether the iteration at `now_ms` purges, and returns the new
/// time of the last purge.
pub fn purge_step(last_purge_ms: Option<u64>, now_ms: u64) -> (r: (bool, Option<u64>))
    ensures
        r == purge_next(last_purge_ms, now_ms),
{
    let since = match last_purge_ms {
        None => None,
        Some(l) => Some(if now_ms >= l { now_ms - l } else { 0 }),
    };
    if purge_due(since) {
        (true, Some(now_ms))
    } else {
        (false, last_purge_ms)
    }
}

/// The time of the last purge after iterations at `times`, from the start.
pub open spec fn purge_state(times: Seq<u64>) -> Option<u64>
    decreases times.len(),
{
    if times.len() == 0 {
        None
    } else {
        purge_next(purge_state(times.drop_last()), times.last()).1
    }
}

/// Whether iteration `j` of the iterations at `times` purges.
pub open spec fn purges_at(times: Seq<u64>, j: int) -> bool {
    purge_next(purge_state(times.take(j)), times[j]).0
}

/// Times that never go back.
pub open spec fn nondecreasing(times: Seq<u64>) -> bool {
    forall|i: int, j: int| 0 <= i <= j < times.len() ==> times[i] <= times[j]
}

proof fn lemma_purge_state(times: Seq<u64>, j: int)
    requires
        0 < j <= times.len(),
    ensures
        exists|i: int|
            0 <= i < j && purges_at(times, i) && purge_state(times.take(j)) == Some(times[i])
                && forall|k: int| i < k < j ==> !#[trigger] purges_at(times, k),
    decreases j,
{
    let t = times.take(j);
    assert(t.drop_last() =~= times.take(j - 1));
    assert(t.last() == times[j - 1]);
    if j == 1 {
        assert(purges_at(times, 0));
    } else {
        lemma_purge_state(times, j - 1);
        let i = choose|i: int|
            0 <= i < j - 1 && purges_at(times, i) && purge_state(times.take(j - 1)) == Some(times[i])
                && forall|k: int| i < k < j - 1 ==> !#[trigger] purges_at(times, k);
        if !purges_at(times, j - 1) {
            assert(forall|k: int| i < k < j ==> !#[trigger] purges_at(times, k));
        } else {
            assert(forall|k: int| j - 1 < k < j ==> !#[trigger] purges_at(times, k));
        }
    }
}

/// The purge schedule over a run of iterations: the first iteration purges,
/// two purges are never less than `PURGE_INTERVAL_MS` apart, and once that
/// long has passed since the last purge, the next iteration purges.
pub proof fn lemma_purge_schedule(times: Seq<u64>)
    requires
        nondecreasing(times),
    ensures
        times.len() > 0 ==> purges_at(times, 0),
        forall|i: int, j: int|
            0 <= i < j < times.len() && #[trigger] purges_at(times, i) && #[trigger] purges_at(times, j)
                ==> times[j] - times[i] >= PURGE_INTERVAL_MS,
        forall|i: int, j: int|
            0 <= i < j < times.len() && #[trigger] purges_at(times, i) && (forall|k: int|
                i < k < j ==> !#[trigger] purges_at(times, k)) && times[j] - times[i] >= PURGE_INTERVAL_MS
                ==> #[trigger] purges_at(times, j),
{
    if times.len() > 0 {
        assert(times.take(0) =~= Seq::<u64>::empty());
    }
    assert forall|i: int, j: int|
        0 <= i < j < times.len() && #[trigger] purges_at(times, i) && #[trigger] purges_at(times, j)
            implies times[j] - times[i] >= PURGE_INTERVAL_MS by {
        lemma_purge_state(times, j);
        let m = choose|m: int|
            0 <= m < j && purges_at(times, m) && purge_state(times.take(j)) == Some(times[m])
                && forall|k: int| m < k < j ==> !#[trigger] purges_at(times, k);
        if m < i {
            assert(!purges_at(times, i));
        }
        assert(times[i] <= times[m]);
    }
    assert forall|i: int, j: int|
        0 <= i < j < times.len() && #[trigger] purges_at(times, i) && (forall|k: int|
            i < k < j ==> !#[trigger] purges_at(times, k)) && times[j] - times[i] >= PURGE_INTERVAL_MS
            implies #[trigger] purges_at(times, j) by {
        lemma_purge_state(times, j);
        let m = choose|m: int|
            0 <= m < j && purges_at(times, m) && purge_state(times.take(j)) == Some(times[m])
                && forall|k: int| m < k < j ==> !#[trigger] purges_at(times, k);
        if m < i {
            assert(!purges_at(times, i));
        }
        if m > i {
            assert(!purges_at(times, m));
        }
    }
}

/// The sleep decision `elapsed_ms` into an iteration that began with the
/// interval `start_interval_ms`; `current_interval_ms` is the interval as
/// re-read from the configuration after the last sleep (none before the
/// first sleep). The iteration waits until the starting interval has passed,
/// in slices of at most `SLEEP_SLICE_MS`, and ends early when, after a
/// slice, the re-read interval has passed (a lowered interval cuts it short).
pub open spec fn sleep_decision(elapsed_ms: u64, start_interval_ms: u64, current_interval_ms: Option<u64>) -> Option<u64> {
    if elapsed_ms >= start_interval_ms {
        None
    } else if current_interval_ms matches Some(c) && elapsed_ms >= c {
        None
    } else if start_interval_ms - elapsed_ms < SLEEP_SLICE_MS {
        Some((start_interval_ms - elapsed_ms) as u64)
    } else {
        Some(SLEEP_SLICE_MS)
    }
}

/// How long to sleep next (none: the iteration is over); see
/// [`sleep_decision`].
pub fn next_sleep_ms(elapsed_ms: u64, start_interval_ms: u64, current_interval_ms: Option<u64>) -> (s: Option<u64>)
    ensures
        s == sleep_decision(elapsed_ms, start_interval_ms, current_interval_ms),
{
    if elapsed_ms >= start_interval_ms {
        return None;
    }
    if let Some(c) = current_interval_ms {
        if elapsed_ms >= c {
            return None;
        }
    }
    let remaining = start_interval_ms - elapsed_ms;
    Some(if remaining < SLEEP_SLICE_MS { remaining } else { SLEEP_SLICE_MS })
}

/// The sleeps of an iteration: before the first one only the starting
/// interval counts, so an iteration that has not reached it always sleeps
/// once; every sleep lasts at most `SLEEP_SLICE_MS` and never past the
/// starting interval, so the configuration is re-read at least that often;
/// and the iteration ends exactly when the starting interval, or the
/// interval re-read after a sleep, has passed.
pub proof fn lemma_sleep_slices(elapsed_ms: u64, start_interval_ms: u64, current_interval_ms: Option<u64>)
    ensures
        elapsed_ms < start_interval_ms ==> sleep_decision(elapsed_ms, start_interval_ms, None) is Some,
        sleep_decision(elapsed_ms, start_interval_ms, current_interval_ms) matches Some(s) ==> 0 < s
            <= SLEEP_SLICE_MS && elapsed_ms + s <= start_interval_ms,
        sleep_decision(elapsed_ms, start_interval_ms, current_interval_ms) is None <==> (elapsed_ms
            >= start_interval_ms || (current_interval_ms matches Some(c) && elapsed_ms >= c)),
{
}

} // verus!
