//! Fan curves: interpolation of a boost percentage from a temperature,
//! hysteresis against oscillation, and the conversions between percentages
//! and the vendor's raw boost range.
//!
//! Temperatures are fixed point, in millidegrees Celsius (the unit in which
//! hwmon reports them), so 67.5 °C is `67_500`.
use vstd::prelude::*;

verus! {

/// Hysteresis in millidegrees: when cooling down, the fan isn't lowered until
/// the temperature drops at least this much below the point where the
/// current value was set. When heating up, it responds immediately.
pub const HYSTERESIS_MC: i32 = 2000;

/// One point of a fan curve: at `temp_mc` millidegrees the fan runs at
/// `percent` % boost.
#[derive(Clone, Copy, Debug, PartialEq, Eq, Structural)]
pub struct CurvePoint {
    pub temp_mc: i32,
    pub percent: u8,
}

// ---------------------------------------------------------------------------
// Ordering of curve points
// ---------------------------------------------------------------------------

/// `s` is ordered by temperature, lowest first.
pub open spec fn sorted_by_temp(s: Seq<CurvePoint>) -> bool {
    forall|i: int, j: int| 0 <= i <= j < s.len() ==> s[i].temp_mc <= s[j].temp_mc
}

/// Inserts `p` into `s` after every point whose temperature is not above
/// `p`'s, which keeps points of equal temperature in their original order.
pub open spec fn insert_by_temp(s: Seq<CurvePoint>, p: CurvePoint) -> Seq<CurvePoint>
    decreases s.len(),
{
    if s.len() == 0 {
        seq![p]
    } else if p.temp_mc < s.last().temp_mc {
        insert_by_temp(s.drop_last(), p).push(s.last())
    } else {
        s.push(p)
    }
}

/// The stable sort of `s` by temperature.
pub open spec fn sort_by_temp(s: Seq<CurvePoint>) -> Seq<CurvePoint>
    decreases s.len(),
{
    if s.len() == 0 {
        s
    } else {
        insert_by_temp(sort_by_temp(s.drop_last()), s.last())
    }
}

proof fn lemma_insert_at(s: Seq<CurvePoint>, p: CurvePoint, j: int)
    requires
        0 <= j <= s.len(),
        j == 0 || s[j - 1].temp_mc <= p.temp_mc,
        forall|k: int| j <= k < s.len() ==> s[k].temp_mc > p.temp_mc,
    ensures
        insert_by_temp(s, p) == s.insert(j, p),
    decreases s.len(),
{
    if s.len() == 0 {
        assert(s.insert(j, p) =~= seq![p]);
    } else if p.temp_mc < s.last().temp_mc {
        lemma_insert_at(s.drop_last(), p, j);
        assert(s.drop_last().insert(j, p).push(s.last()) =~= s.insert(j, p));
    } else {
        assert(s.push(p) =~= s.insert(j, p));
    }
}

proof fn lemma_insert_sorted(s: Seq<CurvePoint>, p: CurvePoint)
    requires
        sorted_by_temp(s),
    ensures
        sorted_by_temp(insert_by_temp(s, p)),
        insert_by_temp(s, p).to_multiset() == s.to_multiset().insert(p),
        insert_by_temp(s, p).len() == s.len() + 1,
    decreases s.len(),
{
    broadcast use vstd::seq_lib::group_to_multiset_ensures;
    if s.len() == 0 {
        assert(seq![p] =~= Seq::<CurvePoint>::empty().push(p));
    } else if p.temp_mc < s.last().temp_mc {
        let r = insert_by_temp(s.drop_last(), p);
        lemma_insert_sorted(s.drop_last(), p);
        assert(s.drop_last().push(s.last()) =~= s);
        assert forall|i: int| 0 <= i < r.len() implies r[i].temp_mc <= s.last().temp_mc by {
            assert(r.to_multiset().count(r[i]) > 0);
            assert(s.drop_last().to_multiset().insert(p).count(r[i]) > 0);
            if r[i] != p {
                assert(s.drop_last().to_multiset().count(r[i]) > 0);
                assert(s.drop_last().contains(r[i]));
            }
        }
    } else {
    }
}

/// The stable sort yields a sorted rearrangement of its input.
pub proof fn lemma_sort_by_temp(s: Seq<CurvePoint>)
    ensures
        sorted_by_temp(sort_by_temp(s)),
        sort_by_temp(s).to_multiset() == s.to_multiset(),
        sort_by_temp(s).len() == s.len(),
    decreases s.len(),
{
    broadcast use vstd::seq_lib::group_to_multiset_ensures;
    if s.len() > 0 {
        lemma_sort_by_temp(s.drop_last());
        lemma_insert_sorted(sort_by_temp(s.drop_last()), s.last());
        assert(s.drop_last().push(s.last()) =~= s);
    }
}

/// A sequence that is already sorted is left unchanged by the sort.
pub proof fn lemma_sort_of_sorted(s: Seq<CurvePoint>)
    requires
        sorted_by_temp(s),
    ensures
        sort_by_temp(s) == s,
    decreases s.len(),
{
    if s.len() > 0 {
        let d = s.drop_last();
        assert(sorted_by_temp(d));
        lemma_sort_of_sorted(d);
        assert(d.push(s.last()) =~= s);
    }
}

/// Returns the points ordered by temperature, lowest first; points with equal
/// temperatures keep their relative order.
pub fn sort_points(points: &[CurvePoint]) -> (sorted: Vec<CurvePoint>)
    ensures
        sorted@ == sort_by_temp(points@),
{
    let mut sorted: Vec<CurvePoint> = Vec::new();
    let n = points.len();
    for i in 0..n
        invariant
            n == points@.len(),
            sorted@ == sort_by_temp(points@.take(i as int)),
    {
        let p = points[i];
        proof {
            lemma_sort_by_temp(points@.take(i as int));
        }
        let mut j = sorted.len();
        while j > 0 && sorted[j - 1].temp_mc > p.temp_mc
            invariant
                j <= sorted.len(),
                forall|k: int| j <= k < sorted.len() ==> sorted@[k].temp_mc > p.temp_mc,
            decreases j,
        {
            j = j - 1;
        }
        proof {
            lemma_insert_at(sorted@, p, j as int);
            assert(points@.take(i + 1).drop_last() =~= points@.take(i as int));
            assert(points@.take(i + 1).last() == p);
        }
        sorted.insert(j, p);
    }
    proof {
        assert(points@.take(n as int) =~= points@);
    }
    sorted
}

// ---------------------------------------------------------------------------
// Curve evaluation
// ---------------------------------------------------------------------------

/// `p` capped at 100.
pub open spec fn cap100(p: int) -> int {
    if p < 100 {
        p
    } else {
        100
    }
}

/// Linear interpolation between `a` and `b` at temperature `t`, rounded to
/// the nearest integer with halves rounded up.
pub open spec fn interpolate(a: CurvePoint, b: CurvePoint, t: int) -> int {
    let span = b.temp_mc - a.temp_mc;
    let num = a.percent * span + (t - a.temp_mc) * (b.percent - a.percent);
    (2 * num + span) / (2 * span)
}

/// The first index from `j` on whose temperature is at or above `t`
/// (`s.len()` if there is none).
pub open spec fn first_reaching(s: Seq<CurvePoint>, t: int, j: int) -> int
    recommends
        0 <= j,
    decreases s.len() - j,
{
    if j >= s.len() {
        s.len() as int
    } else if t <= s[j].temp_mc {
        j
    } else {
        first_reaching(s, t, j + 1)
    }
}

/// The value of a curve whose points are already in temperature order:
/// saturated to the first/last point outside their range, interpolated
/// between the two points that enclose `t` inside it, 0 with no points;
/// always capped at 100.
pub open spec fn curve_value(s: Seq<CurvePoint>, t: int) -> int {
    if s.len() == 0 {
        0
    } else if t <= s[0].temp_mc {
        cap100(s[0].percent as int)
    } else if t >= s.last().temp_mc {
        cap100(s.last().percent as int)
    } else {
        let j = first_reaching(s, t, 1);
        if j < s.len() {
            cap100(interpolate(s[j - 1], s[j], t))
        } else {
            cap100(s.last().percent as int)
        }
    }
}

/// What `evaluate` returns: the curve value over the sorted points.
pub open spec fn evaluate_spec(points: Seq<CurvePoint>, t: int) -> int {
    curve_value(sort_by_temp(points), t)
}

proof fn lemma_interpolate_bounds(a: CurvePoint, b: CurvePoint, t: int)
    requires
        a.temp_mc < t <= b.temp_mc,
    ensures
        0 <= a.percent * (b.temp_mc - a.temp_mc) + (t - a.temp_mc) * (b.percent - a.percent),
        0 <= interpolate(a, b, t) <= 255,
{
    let span = b.temp_mc - a.temp_mc;
    let ap = a.percent as int;
    let bp = b.percent as int;
    let x = t - a.temp_mc;
    let num = ap * span + x * (bp - ap);
    assert(num == ap * (span - x) + bp * x) by (nonlinear_arith)
        requires
            num == ap * span + x * (bp - ap),
    ;
    assert(0 <= num <= 255 * span) by (nonlinear_arith)
        requires
            num == ap * (span - x) + bp * x,
            0 <= ap <= 255,
            0 <= bp <= 255,
            0 < x <= span,
    ;
    assert(0 <= (2 * num + span) / (2 * span) <= 255) by (nonlinear_arith)
        requires
            0 <= num <= 255 * span,
            0 < span,
    ;
}

/// Linearly interpolates the boost % for a temperature (in millidegrees).
/// Out of range it saturates to the first/last point; with no points it
/// returns 0 (pure auto mode). The points may come in any order.
pub fn evaluate(points: &[CurvePoint], temp_mc: i32) -> (pct: u8)
    ensures
        pct == evaluate_spec(points@, temp_mc as int),
        pct <= 100,
{
    let sorted = sort_points(points);
    let n = sorted.len();
    if n == 0 {
        return 0;
    }
    let first = sorted[0];
    let last = sorted[n - 1];
    if temp_mc <= first.temp_mc {
        return if first.percent < 100 { first.percent } else { 100 };
    }
    if temp_mc >= last.temp_mc {
        return if last.percent < 100 { last.percent } else { 100 };
    }
    let ghost s = sorted@;
    assert(s.last() == last);
    let mut k: usize = 1;
    while k < n
        invariant
            1 <= k <= n,
            n == s.len(),
            s == sorted@,
            s == sort_by_temp(points@),
            s[0] == first,
            s.last() == last,
            first.temp_mc < temp_mc < last.temp_mc,
            temp_mc > s[k - 1].temp_mc,
            first_reaching(s, temp_mc as int, 1) == first_reaching(s, temp_mc as int, k as int),
        decreases n - k,
    {
        let a = sorted[k - 1];
        let b = sorted[k];
        if temp_mc <= b.temp_mc {
            proof {
                lemma_interpolate_bounds(a, b, temp_mc as int);
            }
            let span: i64 = b.temp_mc as i64 - a.temp_mc as i64;
            let x: i64 = temp_mc as i64 - a.temp_mc as i64;
            let dp: i64 = b.percent as i64 - a.percent as i64;
            assert(0 < x <= span < 0x1_0000_0000);
            assert(-256 < dp < 256);
            assert(a.percent as i64 * span <= 255 * 0x1_0000_0000) by (nonlinear_arith)
                requires
                    0 <= a.percent <= 255,
                    0 < span < 0x1_0000_0000,
            ;
            assert(-256 * 0x1_0000_0000 <= x * dp <= 256 * 0x1_0000_0000) by (nonlinear_arith)
                requires
                    0 < x < 0x1_0000_0000,
                    -256 < dp < 256,
            ;
            let num: i64 = a.percent as i64 * span + x * dp;
            let q: i64 = (2 * num + span) / (2 * span);
            assert(q == interpolate(a, b, temp_mc as int));
            let v: u8 = q as u8;
            assert(v == q);
            assert(first_reaching(s, temp_mc as int, k as int) == k as int);
            assert(s[0] == first);
            assert(curve_value(s, temp_mc as int) == cap100(interpolate(s[k - 1], s[k as int], temp_mc as int)));
            return if v < 100 { v } else { 100 };
        }
        k = k + 1;
    }
    // Unreachable: the last point is hotter than `temp_mc`, so the scan
    // stops at or before it.
    assert(false);
    if last.percent < 100 { last.percent } else { 100 }
}

// ---------------------------------------------------------------------------
// Hysteresis
// ---------------------------------------------------------------------------

/// What `Hysteresis::update` returns for the state `applied`, the curve's
/// target `target` and the temperature `t`.
pub open spec fn hysteresis_output(applied: Option<(i32, u8)>, target: int, t: int) -> int {
    match applied {
        None => target,
        Some((at, ap)) => if target > ap || t <= at - HYSTERESIS_MC {
            target
        } else {
            ap as int
        },
    }
}

/// The state that `Hysteresis::update` leaves behind.
pub open spec fn hysteresis_next(applied: Option<(i32, u8)>, target: int, t: i32) -> Option<
    (i32, u8),
> {
    match applied {
        None => Some((t, target as u8)),
        Some((at, ap)) => if target > ap || t <= at - HYSTERESIS_MC {
            Some((t, target as u8))
        } else {
            applied
        },
    }
}

/// Hysteresis state per fan for curve mode: the temperature at which the
/// current value was applied, and that value.
#[derive(Debug, Clone, Copy)]
pub struct Hysteresis {
    applied: Option<(i32, u8)>,
}

impl View for Hysteresis {
    type V = Option<(i32, u8)>;

    closed spec fn view(&self) -> Option<(i32, u8)> {
        self.applied
    }
}

impl Default for Hysteresis {
    fn default() -> (h: Self)
        ensures
            h@ == None::<(i32, u8)>,
    {
        Hysteresis { applied: None }
    }
}

impl Hysteresis {
    /// A state with nothing applied yet.
    pub fn new() -> (h: Self)
        ensures
            h@ == None::<(i32, u8)>,
    {
        Hysteresis { applied: None }
    }

    /// Decides the % to apply for `temp_mc`. Increases are applied
    /// immediately; decreases only when the temperature drops
    /// `HYSTERESIS_MC` below the point where the current value was set.
    pub fn update(&mut self, points: &[CurvePoint], temp_mc: i32) -> (pct: u8)
        ensures
            pct == hysteresis_output(old(self)@, evaluate_spec(points@, temp_mc as int), temp_mc as int),
            final(self)@ == hysteresis_next(old(self)@, evaluate_spec(points@, temp_mc as int), temp_mc),
    {
        let target = evaluate(points, temp_mc);
        match self.applied {
            None => {
                self.applied = Some((temp_mc, target));
                target
            },
            Some((applied_temp, applied_pct)) => {
                if target > applied_pct || (temp_mc as i64) <= applied_temp as i64
                    - HYSTERESIS_MC as i64 {
                    self.applied = Some((temp_mc, target));
                    target
                } else {
                    applied_pct
                }
            },
        }
    }

    /// Forgets the applied value, so the next update follows the curve.
    pub fn reset(&mut self)
        ensures
            final(self)@ == None::<(i32, u8)>,
    {
        self.applied = None;
    }
}

// ---------------------------------------------------------------------------
// Percent <-> boost
// ---------------------------------------------------------------------------

/// Value of `percent_to_boost`: the percentage (capped at 100) mapped
/// linearly onto `[min, max]`, rounded down.
pub open spec fn boost_for(percent: int, min: int, max: int) -> int {
    min + cap100(percent) * (max - min) / 100
}

/// Conversion % (0-100) → boost value within the vendor's range.
pub fn percent_to_boost(percent: u8, range: (u8, u8)) -> (boost: u8)
    requires
        range.0 <= range.1,
    ensures
        boost == boost_for(percent as int, range.0 as int, range.1 as int),
        range.0 <= boost <= range.1,
{
    let (min, max) = range;
    let pct: u32 = if percent < 100 { percent as u32 } else { 100 };
    let span: u32 = max as u32 - min as u32;
    assert(pct * span <= 100 * span) by (nonlinear_arith)
        requires pct <= 100;
    assert(pct * span / 100 <= span) by (nonlinear_arith)
        requires pct * span <= 100 * span;
    (min as u32 + pct * span / 100) as u8
}

/// Value of `boost_to_percent`: the boost, clamped into `[min, max]`, as the
/// nearest percentage of the range (halves rounded up); 0 for an empty range.
pub open spec fn percent_for(boost: int, min: int, max: int) -> int {
    if max <= min {
        0
    } else {
        let clamped = if boost < min {
            min
        } else if boost > max {
            max
        } else {
            boost
        };
        ((clamped - min) * 100 + (max - min) / 2) / (max - min)
    }
}

/// Inverse conversion, to show the current boost as %.
pub fn boost_to_percent(boost: u8, range: (u8, u8)) -> (pct: u8)
    ensures
        pct == percent_for(boost as int, range.0 as int, range.1 as int),
        pct <= 100,
{
    let (min, max) = range;
    if max <= min {
        return 0;
    }
    let clamped: u32 = if boost < min {
        min as u32
    } else if boost > max {
        max as u32
    } else {
        boost as u32
    };
    let span: u32 = max as u32 - min as u32;
    let off: u32 = clamped - min as u32;
    assert(off * 100 <= span * 100) by (nonlinear_arith)
        requires off <= span;
    assert((off * 100 + span / 2) / (span as int) <= 100) by (nonlinear_arith)
        requires off * 100 <= span * 100, span > 0;
    ((off * 100 + span / 2) / span) as u8
}

// ---------------------------------------------------------------------------
// Default curve
// ---------------------------------------------------------------------------

/// The default curve: quiet at idle, aggressive near throttling.
pub open spec fn default_curve() -> Seq<CurvePoint> {
    seq![
        CurvePoint { temp_mc: 40_000, percent: 0 },
        CurvePoint { temp_mc: 60_000, percent: 25 },
        CurvePoint { temp_mc: 75_000, percent: 55 },
        CurvePoint { temp_mc: 85_000, percent: 80 },
        CurvePoint { temp_mc: 95_000, percent: 100 },
    ]
}

/// Default curve: quiet at idle, aggressive near throttling.
pub fn default_points() -> (points: Vec<CurvePoint>)
    ensures
        points@ == default_curve(),
{
    let mut points: Vec<CurvePoint> = Vec::new();
    points.push(CurvePoint { temp_mc: 40_000, percent: 0 });
    points.push(CurvePoint { temp_mc: 60_000, percent: 25 });
    points.push(CurvePoint { temp_mc: 75_000, percent: 55 });
    points.push(CurvePoint { temp_mc: 85_000, percent: 80 });
    points.push(CurvePoint { temp_mc: 95_000, percent: 100 });
    assert(points@ =~= default_curve());
    points
}

// ---------------------------------------------------------------------------
// Laws
// ---------------------------------------------------------------------------

/// No two points share a temperature.
pub open spec fn temps_distinct(s: Seq<CurvePoint>) -> bool {
    forall|i: int, j: int|
        0 <= i < s.len() && 0 <= j < s.len() && i != j ==> s[i].temp_mc != s[j].temp_mc
}

/// Temperatures strictly increase along `s`.
pub open spec fn strictly_sorted_by_temp(s: Seq<CurvePoint>) -> bool {
    forall|i: int, j: int| 0 <= i < j < s.len() ==> s[i].temp_mc < s[j].temp_mc
}

proof fn lemma_sorted_distinct_is_strict(out: Seq<CurvePoint>, p: Seq<CurvePoint>)
    requires
        sorted_by_temp(out),
        out.to_multiset() == p.to_multiset(),
        temps_distinct(p),
    ensures
        strictly_sorted_by_temp(out),
{
    broadcast use vstd::seq_lib::group_to_multiset_ensures;
    assert(p.no_duplicates()) by {
        assert forall|i: int, j: int| 0 <= i < p.len() && 0 <= j < p.len() && i != j implies p[i]
            != p[j] by {
            assert(p[i].temp_mc != p[j].temp_mc);
        }
    }
    p.lemma_multiset_has_no_duplicates();
    out.lemma_multiset_has_no_duplicates_conv();
    assert forall|i: int, j: int| 0 <= i < j < out.len() implies out[i].temp_mc < out[j].temp_mc by {
        assert(out[i] != out[j]);
        assert(out.to_multiset().count(out[i]) > 0);
        assert(out.to_multiset().count(out[j]) > 0);
        assert(p.contains(out[i]));
        assert(p.contains(out[j]));
        let a = choose|a: int| 0 <= a < p.len() && p[a] == out[i];
        let b = choose|b: int| 0 <= b < p.len() && p[b] == out[j];
        assert(a != b);
    }
}

proof fn lemma_strict_unique(s1: Seq<CurvePoint>, s2: Seq<CurvePoint>)
    requires
        strictly_sorted_by_temp(s1),
        strictly_sorted_by_temp(s2),
        forall|x: CurvePoint| s1.contains(x) <==> s2.contains(x),
    ensures
        s1 == s2,
    decreases s1.len(),
{
    if s1.len() == 0 {
        if s2.len() > 0 {
            assert(s2.contains(s2[0]));
        }
        assert(s1 =~= s2);
    } else {
        assert(s1.contains(s1.last()));
        assert(s2.len() > 0);
        assert(s2.contains(s2.last()));
        let k = choose|k: int| 0 <= k < s2.len() && s2[k] == s1.last();
        let j = choose|j: int| 0 <= j < s1.len() && s1[j] == s2.last();
        assert(s1.last() == s2.last()) by {
            if k != s2.len() - 1 {
                assert(s2[k].temp_mc < s2.last().temp_mc);
                if j != s1.len() - 1 {
                    assert(s1[j].temp_mc < s1.last().temp_mc);
                }
            }
        }
        let d1 = s1.drop_last();
        let d2 = s2.drop_last();
        assert forall|x: CurvePoint| d1.contains(x) <==> d2.contains(x) by {
            if d1.contains(x) {
                let a = choose|a: int| 0 <= a < d1.len() && d1[a] == x;
                assert(s1.contains(x));
                assert(x.temp_mc < s1.last().temp_mc);
                let b = choose|b: int| 0 <= b < s2.len() && s2[b] == x;
                assert(b != s2.len() - 1);
                assert(d2[b] == x);
            }
            if d2.contains(x) {
                let a = choose|a: int| 0 <= a < d2.len() && d2[a] == x;
                assert(s2.contains(x));
                assert(x.temp_mc < s2.last().temp_mc);
                let b = choose|b: int| 0 <= b < s1.len() && s1[b] == x;
                assert(b != s1.len() - 1);
                assert(d1[b] == x);
            }
        }
        lemma_strict_unique(d1, d2);
        assert(d1.push(s1.last()) =~= s1);
        assert(d2.push(s2.last()) =~= s2);
    }
}

/// Points with pairwise distinct temperatures give the same curve whatever
/// order they come in.
pub proof fn lemma_evaluate_order_independent(p1: Seq<CurvePoint>, p2: Seq<CurvePoint>, t: int)
    requires
        temps_distinct(p1),
        p1.to_multiset() == p2.to_multiset(),
    ensures
        evaluate_spec(p1, t) == evaluate_spec(p2, t),
{
    broadcast use vstd::seq_lib::group_to_multiset_ensures;
    lemma_sort_by_temp(p1);
    lemma_sort_by_temp(p2);
    let s1 = sort_by_temp(p1);
    let s2 = sort_by_temp(p2);
    lemma_sorted_distinct_is_strict(s1, p1);
    lemma_sorted_distinct_is_strict(s2, p1);
    assert forall|x: CurvePoint| s1.contains(x) <==> s2.contains(x) by {
        assert(s1.to_multiset().count(x) == s2.to_multiset().count(x));
    }
    lemma_strict_unique(s1, s2);
}

proof fn lemma_first_reaching_at(s: Seq<CurvePoint>, j: int, k: int)
    requires
        strictly_sorted_by_temp(s),
        1 <= k <= j < s.len(),
    ensures
        first_reaching(s, s[j].temp_mc as int, k) == j,
    decreases j - k,
{
    if k < j {
        assert(s[k].temp_mc < s[j].temp_mc);
        lemma_first_reaching_at(s, j, k + 1);
    }
}

/// On a curve whose temperatures strictly increase, the value at a point's
/// temperature is that point's percentage (capped at 100).
pub proof fn lemma_curve_hits_points(s: Seq<CurvePoint>, j: int)
    requires
        strictly_sorted_by_temp(s),
        0 <= j < s.len(),
    ensures
        curve_value(s, s[j].temp_mc as int) == cap100(s[j].percent as int),
{
    let t = s[j].temp_mc as int;
    if j == 0 {
    } else if j == s.len() - 1 {
        assert(s[0].temp_mc < t);
    } else {
        assert(s[0].temp_mc < t);
        assert(t < s.last().temp_mc);
        lemma_first_reaching_at(s, j, 1);
        let a = s[j - 1];
        let b = s[j];
        let span = b.temp_mc - a.temp_mc;
        assert(span > 0);
        let ap = a.percent as int;
        let bp = b.percent as int;
        assert(interpolate(a, b, t) == bp) by (nonlinear_arith)
            requires
                interpolate(a, b, t) == (2 * (ap * span + span * (bp - ap)) + span) / (2 * span),
                span > 0,
        ;
    }
}

/// A curve whose points have pairwise distinct temperatures passes through
/// each of its points, whatever order they come in.
pub proof fn lemma_evaluate_hits_points(p: Seq<CurvePoint>, j: int)
    requires
        temps_distinct(p),
        0 <= j < p.len(),
    ensures
        evaluate_spec(p, p[j].temp_mc as int) == cap100(p[j].percent as int),
{
    broadcast use vstd::seq_lib::group_to_multiset_ensures;
    lemma_sort_by_temp(p);
    let s = sort_by_temp(p);
    lemma_sorted_distinct_is_strict(s, p);
    assert(p.to_multiset().count(p[j]) > 0);
    assert(s.contains(p[j]));
    let k = choose|k: int| 0 <= k < s.len() && s[k] == p[j];
    lemma_curve_hits_points(s, k);
}

/// The hysteresis never lets the fan run below the curve: what `update`
/// applies is at least the curve's value, and an increase of the curve is
/// applied at once.
pub proof fn lemma_hysteresis_never_below_curve(applied: Option<(i32, u8)>, target: int, t: int)
    ensures
        hysteresis_output(applied, target, t) >= target,
        applied matches Some((_, ap)) && target > ap ==> hysteresis_output(applied, target, t)
            == target,
{
}

/// A drop of the curve within the hysteresis band keeps the applied value and
/// the state; a temperature at least `HYSTERESIS_MC` below the point where
/// the value was applied follows the curve again.
pub proof fn lemma_hysteresis_band(at: i32, ap: u8, target: int, t: i32)
    requires
        target <= ap,
    ensures
        t > at - HYSTERESIS_MC ==> hysteresis_output(Some((at, ap)), target, t as int) == ap
            && hysteresis_next(Some((at, ap)), target, t) == Some((at, ap)),
        t <= at - HYSTERESIS_MC ==> hysteresis_output(Some((at, ap)), target, t as int) == target
            && hysteresis_next(Some((at, ap)), target, t) == Some((t, target as u8)),
{
}

/// With nothing applied (fresh or reset), the hysteresis follows the curve.
pub proof fn lemma_hysteresis_fresh(target: int, t: i32)
    ensures
        hysteresis_output(None, target, t as int) == target,
        hysteresis_next(None, target, t) == Some((t, target as u8)),
{
}

/// `percent_to_boost` maps 0 % to the bottom and 100 % (and above) to the
/// top of the range, and never decreases as the percentage grows.
pub proof fn lemma_boost_for_monotone(p1: int, p2: int, min: int, max: int)
    requires
        0 <= p1 <= p2,
        0 <= min <= max,
    ensures
        boost_for(0, min, max) == min,
        boost_for(100, min, max) == max,
        boost_for(p1, min, max) <= boost_for(p2, min, max),
{
    let c1 = cap100(p1);
    let c2 = cap100(p2);
    let span = max - min;
    assert(c1 * span / 100 <= c2 * span / 100) by (nonlinear_arith)
        requires
            0 <= c1 <= c2,
            0 <= span,
    ;
    assert(100 * span / 100 == span) by (nonlinear_arith);
    assert(0 * span / 100 == 0) by (nonlinear_arith);
}

/// Converting a percentage to a boost and back gives the percentage (capped
/// at 100) exactly when the rounding down in `percent_to_boost` loses at most
/// half a percent of the range.
pub proof fn lemma_percent_boost_roundtrip(percent: int, min: int, max: int)
    requires
        0 <= percent,
        0 <= min < max,
        (cap100(percent) * (max - min)) % 100 <= (max - min) / 2,
    ensures
        percent_for(boost_for(percent, min, max), min, max) == cap100(percent),
{
    let p = cap100(percent);
    let s = max - min;
    let b = p * s / 100;
    let r = (p * s) % 100;
    assert(p * s == 100 * b + r) by (nonlinear_arith)
        requires b == p * s / 100, r == (p * s) % 100;
    assert(0 <= r < 100) by (nonlinear_arith)
        requires r == (p * s) % 100;
    assert(0 <= b <= s) by (nonlinear_arith)
        requires b == p * s / 100, 0 <= p <= 100, s > 0;
    assert((b * 100 + s / 2) / s == p) by (nonlinear_arith)
        requires
            p * s == 100 * b + r,
            0 <= r <= s / 2,
            s > 0,
            0 <= p,
    ;
}

/// In particular, for a range at least 199 steps wide (such as 0-255) every
/// percentage survives the round trip.
pub proof fn lemma_percent_boost_roundtrip_wide(percent: int, min: int, max: int)
    requires
        0 <= percent,
        0 <= min,
        max - min >= 199,
    ensures
        percent_for(boost_for(percent, min, max), min, max) == cap100(percent),
{
    let p = cap100(percent);
    let s = max - min;
    assert((p * s) % 100 < 100) by (nonlinear_arith)
        requires s > 0, 0 <= p;
    lemma_percent_boost_roundtrip(percent, min, max);
}

/// `boost_to_percent` maps the bottom of a proper range to 0 % and the top
/// to 100 %.
pub proof fn lemma_percent_for_ends(min: int, max: int)
    requires
        0 <= min < max,
    ensures
        percent_for(min, min, max) == 0,
        percent_for(max, min, max) == 100,
{
    let s = max - min;
    assert((s / 2) / s == 0) by (nonlinear_arith)
        requires s > 0;
    assert((s * 100 + s / 2) / s == 100) by (nonlinear_arith)
        requires s > 0;
}

proof fn lemma_first_reaching_bounds(s: Seq<CurvePoint>, t: int, k: int)
    requires
        1 <= k <= s.len(),
        t > s[k - 1].temp_mc,
    ensures
        k <= first_reaching(s, t, k) <= s.len(),
        first_reaching(s, t, k) < s.len() ==> s[first_reaching(s, t, k) - 1].temp_mc < t
            <= s[first_reaching(s, t, k)].temp_mc,
    decreases s.len() - k,
{
    if k < s.len() && t > s[k].temp_mc {
        lemma_first_reaching_bounds(s, t, k + 1);
    }
}

/// The curve's value is a percentage: between 0 and 100.
pub proof fn lemma_curve_value_bounds(s: Seq<CurvePoint>, t: int)
    ensures
        0 <= curve_value(s, t) <= 100,
{
    if s.len() > 0 && t > s[0].temp_mc && t < s.last().temp_mc {
        lemma_first_reaching_bounds(s, t, 1);
        let j = first_reaching(s, t, 1);
        if j < s.len() {
            lemma_interpolate_bounds(s[j - 1], s[j], t);
        }
    }
}

/// `percent_to_boost` stays within the range for any percentage.
pub proof fn lemma_boost_for_in_range(p: int, min: int, max: int)
    requires
        0 <= p,
        0 <= min <= max,
    ensures
        min <= boost_for(p, min, max) <= max,
{
    let c = cap100(p);
    let span = max - min;
    assert(0 <= c * span / 100 <= span) by (nonlinear_arith)
        requires
            0 <= c <= 100,
            0 <= span,
    ;
}

/// A hysteresis state built from curve values stays a percentage: with a
/// target and an applied value of at most 100, the output and the new
/// applied value are at most 100.
pub proof fn lemma_hysteresis_stays_percentage(applied: Option<(i32, u8)>, target: int, t: i32)
    requires
        0 <= target <= 100,
        applied matches Some((_, ap)) ==> ap <= 100,
    ensures
        hysteresis_output(applied, target, t as int) <= 100,
        hysteresis_next(applied, target, t) matches Some((_, ap)) && ap <= 100,
{
}

/// Out of the curve's range the value saturates: at or below the coolest
/// point it is that point's percentage, at or above the hottest point that
/// point's (capped at 100), whatever order the points come in; with no
/// points it is 0.
pub proof fn lemma_evaluate_saturates(p: Seq<CurvePoint>, j: int, t: int)
    requires
        temps_distinct(p),
        0 <= j < p.len(),
    ensures
        (forall|i: int| 0 <= i < p.len() ==> p[j].temp_mc <= p[i].temp_mc) && t <= p[j].temp_mc
            ==> evaluate_spec(p, t) == cap100(p[j].percent as int),
        (forall|i: int| 0 <= i < p.len() ==> p[i].temp_mc <= p[j].temp_mc) && t >= p[j].temp_mc
            ==> evaluate_spec(p, t) == cap100(p[j].percent as int),
        evaluate_spec(Seq::<CurvePoint>::empty(), t) == 0,
{
    broadcast use vstd::seq_lib::group_to_multiset_ensures;
    lemma_sort_by_temp(p);
    let s = sort_by_temp(p);
    lemma_sorted_distinct_is_strict(s, p);
    assert(p.to_multiset().count(p[j]) > 0);
    assert(s.contains(p[j]));
    let k = choose|k: int| 0 <= k < s.len() && s[k] == p[j];
    assert(s.to_multiset().count(s[0]) > 0);
    assert(p.contains(s[0]));
    let a = choose|a: int| 0 <= a < p.len() && p[a] == s[0];
    let last = s.len() - 1;
    assert(s.to_multiset().count(s[last]) > 0);
    assert(p.contains(s[last]));
    let b = choose|b: int| 0 <= b < p.len() && p[b] == s[last];
    if forall|i: int| 0 <= i < p.len() ==> p[j].temp_mc <= p[i].temp_mc {
        assert(p[j].temp_mc <= p[a].temp_mc);
        if k > 0 {
            assert(s[0].temp_mc < s[k].temp_mc);
        }
        assert(k == 0);
    }
    if forall|i: int| 0 <= i < p.len() ==> p[i].temp_mc <= p[j].temp_mc {
        assert(p[b].temp_mc <= p[j].temp_mc);
        if k < last {
            assert(s[k].temp_mc < s[last].temp_mc);
        }
        assert(k == last);
        if t >= p[j].temp_mc && last > 0 {
            assert(s[0].temp_mc < s[last].temp_mc);
        }
    }
    assert(sort_by_temp(Seq::<CurvePoint>::empty()).len() == 0);
}

/// Percentages do not fall along `s`.
pub open spec fn percents_rise(s: Seq<CurvePoint>) -> bool {
    forall|i: int, j: int| 0 <= i <= j < s.len() ==> s[i].percent <= s[j].percent
}

proof fn lemma_interpolate_monotone(a: CurvePoint, b: CurvePoint, t1: int, t2: int)
    requires
        a.temp_mc < t1 <= t2 <= b.temp_mc,
        a.percent <= b.percent,
    ensures
        a.percent <= interpolate(a, b, t1) <= interpolate(a, b, t2) <= b.percent,
{
    let span = b.temp_mc - a.temp_mc;
    let ap = a.percent as int;
    let bp = b.percent as int;
    let x1 = t1 - a.temp_mc;
    let x2 = t2 - a.temp_mc;
    let n1 = ap * span + x1 * (bp - ap);
    let n2 = ap * span + x2 * (bp - ap);
    assert(ap * span <= n1 <= n2 <= bp * span) by (nonlinear_arith)
        requires
            n1 == ap * span + x1 * (bp - ap),
            n2 == ap * span + x2 * (bp - ap),
            0 < x1 <= x2 <= span,
            ap <= bp,
    ;
    assert((2 * (ap * span) + span) / (2 * span) == ap) by (nonlinear_arith)
        requires
            span > 0,
            ap >= 0,
    ;
    assert((2 * (bp * span) + span) / (2 * span) == bp) by (nonlinear_arith)
        requires
            span > 0,
            bp >= 0,
    ;
    vstd::arithmetic::div_mod::lemma_div_is_ordered(2 * (ap * span) + span, 2 * n1 + span, 2 * span);
    vstd::arithmetic::div_mod::lemma_div_is_ordered(2 * n1 + span, 2 * n2 + span, 2 * span);
    vstd::arithmetic::div_mod::lemma_div_is_ordered(2 * n2 + span, 2 * (bp * span) + span, 2 * span);
}

proof fn lemma_first_reaching_below(s: Seq<CurvePoint>, t: int, k: int)
    requires
        0 <= k < s.len(),
        t <= s.last().temp_mc,
    ensures
        first_reaching(s, t, k) < s.len(),
    decreases s.len() - k,
{
    if t > s[k].temp_mc {
        assert(k != s.len() - 1);
        lemma_first_reaching_below(s, t, k + 1);
    }
}

/// Inside the curve's range, the segment that `t` falls in: the first point
/// at or above `t` and the one before it.
proof fn lemma_segment(s: Seq<CurvePoint>, t: int)
    requires
        s.len() > 0,
        s[0].temp_mc < t < s.last().temp_mc,
    ensures
        1 <= first_reaching(s, t, 1) < s.len(),
        s[first_reaching(s, t, 1) - 1].temp_mc < t <= s[first_reaching(s, t, 1)].temp_mc,
        curve_value(s, t) == cap100(
            interpolate(s[first_reaching(s, t, 1) - 1], s[first_reaching(s, t, 1)], t),
        ),
{
    lemma_first_reaching_bounds(s, t, 1);
    lemma_first_reaching_below(s, t, 1);
}

/// On a curve ordered by temperature whose percentages do not fall, the
/// value does not fall as the temperature rises.
pub proof fn lemma_curve_value_monotone(s: Seq<CurvePoint>, t1: int, t2: int)
    requires
        sorted_by_temp(s),
        percents_rise(s),
        t1 <= t2,
    ensures
        curve_value(s, t1) <= curve_value(s, t2),
{
    if s.len() > 0 {
        let n = s.len() as int;
        assert(s[0].percent <= s[n - 1].percent);
        if t1 <= s[0].temp_mc {
            if t2 > s[0].temp_mc && t2 < s.last().temp_mc {
                lemma_segment(s, t2);
                let j = first_reaching(s, t2, 1);
                lemma_interpolate_monotone(s[j - 1], s[j], t2, t2);
                assert(s[0].percent <= s[j - 1].percent);
            }
        } else if t2 >= s.last().temp_mc {
            if t1 < s.last().temp_mc {
                lemma_segment(s, t1);
                let j = first_reaching(s, t1, 1);
                lemma_interpolate_monotone(s[j - 1], s[j], t1, t1);
                assert(s[j].percent <= s[n - 1].percent);
            }
        } else {
            lemma_segment(s, t1);
            lemma_segment(s, t2);
            let j1 = first_reaching(s, t1, 1);
            let j2 = first_reaching(s, t2, 1);
            if j2 < j1 {
                assert(s[j2].temp_mc <= s[j1 - 1].temp_mc);
            }
            if j1 == j2 {
                lemma_interpolate_monotone(s[j1 - 1], s[j1], t1, t2);
            } else {
                lemma_interpolate_monotone(s[j1 - 1], s[j1], t1, t1);
                lemma_interpolate_monotone(s[j2 - 1], s[j2], t2, t2);
                assert(s[j1].percent <= s[j2 - 1].percent);
            }
        }
    }
}

/// A curve whose percentages do not fall when its points are ordered by
/// temperature gives a value that does not fall as the temperature rises,
/// whatever order the points come in.
pub proof fn lemma_evaluate_monotone(p: Seq<CurvePoint>, t1: int, t2: int)
    requires
        percents_rise(sort_by_temp(p)),
        t1 <= t2,
    ensures
        evaluate_spec(p, t1) <= evaluate_spec(p, t2),
{
    lemma_sort_by_temp(p);
    lemma_curve_value_monotone(sort_by_temp(p), t1, t2);
}

/// Whenever `update` follows the curve (the state was empty, the curve rose
/// above the held value, or the temperature dropped far enough), it applies
/// the curve's value and remembers the current temperature with it; so a
/// later drop of `HYSTERESIS_MC` below that temperature follows the curve
/// again, whatever the curve gives there.
pub proof fn lemma_hysteresis_tracks_applied_point(
    applied: Option<(i32, u8)>,
    target1: int,
    t1: i32,
    target2: int,
    t2: i32,
)
    requires
        0 <= target1 <= 255,
        match applied {
            None => true,
            Some((at, ap)) => target1 > ap || t1 <= at - HYSTERESIS_MC,
        },
    ensures
        hysteresis_output(applied, target1, t1 as int) == target1,
        hysteresis_next(applied, target1, t1) == Some((t1, target1 as u8)),
        t2 <= t1 - HYSTERESIS_MC ==> hysteresis_output(
            hysteresis_next(applied, target1, t1),
            target2,
            t2 as int,
        ) == target2,
        applied matches Some((at, ap)) && target1 > ap ==> hysteresis_next(applied, target1, t1)
            == Some((t1, target1 as u8)),
{
}

} // verus!
