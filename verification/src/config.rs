//! User settings: fan mode, units, theme, per-fan manual boosts and curves.
use vstd::prelude::*;
use crate::curve::CurvePoint;
use crate::table::FanTable;

verus! {

/// `Auto` always runs the curve engine (the saved curve of each fan, or the
/// default curve if none was saved, on every tick); `Manual` re-applies a
/// fixed per-fan percentage instead; `Disabled` hands every fan back to the
/// EC once and the app doesn't touch them again until another mode is picked.
#[derive(Debug, Clone, Copy, PartialEq, Eq, Structural)]
pub enum FanMode {
    Auto,
    Manual,
    Disabled,
}

/// Unit in which the UI shows temperatures.
#[derive(Debug, Clone, Copy, PartialEq, Eq, Structural)]
pub enum TempUnit {
    Celsius,
    Fahrenheit,
}

/// UI colour theme.
#[derive(Debug, Clone, Copy, PartialEq, Eq, Structural)]
pub enum Theme {
    System,
    Light,
    Dark,
}

/// Switch that sets every fan to the same manual boost percentage, or back
/// to automatic control when turned off.
#[derive(Debug, Clone, Copy, PartialEq, Eq, Structural)]
pub struct AllFansBoost {
    pub enabled: bool,
    pub percent: u8,
}

impl Default for AllFansBoost {
    fn default() -> (b: Self)
        ensures
            b == (AllFansBoost { enabled: false, percent: 50 }),
    {
        AllFansBoost { enabled: false, percent: 50 }
    }
}

impl AllFansBoost {
    /// Sanitized boost percentage, in case a stale/corrupt value ever
    /// exceeds 100 (percent is a plain u8, not itself bounded at 100).
    pub fn percent(&self) -> (p: u8)
        ensures
            p == if self.percent < 100 { self.percent } else { 100 },
    {
        if self.percent < 100 {
            self.percent
        } else {
            100
        }
    }
}

/// The whole configuration.
#[derive(Debug, Clone)]
pub struct Config {
    pub update_interval_secs: u64,
    pub temp_unit: TempUnit,
    pub theme: Theme,
    pub mode: FanMode,
    /// Manual % (0-100) per fan id, used when mode == Manual.
    pub manual_boosts: FanTable<u8>,
    /// Curve points per fan id, used when mode == Auto.
    pub curves: FanTable<Vec<CurvePoint>>,
    /// Vendor chosen manually in Settings when automatic detection fails.
    pub vendor_override: Option<String>,
    /// How many days of telemetry history to keep in the database.
    pub history_retention_days: u32,
    /// Switch that sets every fan to a fixed manual boost, all at once.
    pub all_fans_boost: AllFansBoost,
}

/// `v` clamped into `[lo, hi]`.
pub open spec fn clamp(v: int, lo: int, hi: int) -> int {
    if v < lo {
        lo
    } else if v > hi {
        hi
    } else {
        v
    }
}

impl Default for Config {
    fn default() -> (c: Self)
        ensures
            c.update_interval_secs == 2,
            c.temp_unit == TempUnit::Celsius,
            c.theme == Theme::System,
            c.mode == FanMode::Auto,
            c.manual_boosts.map() == Map::<Seq<char>, u8>::empty(),
            c.curves.map() == Map::<Seq<char>, Vec<CurvePoint>>::empty(),
            c.vendor_override == None::<String>,
            c.history_retention_days == 7,
            c.all_fans_boost == (AllFansBoost { enabled: false, percent: 50 }),
    {
        Config {
            update_interval_secs: 2,
            temp_unit: TempUnit::Celsius,
            theme: Theme::System,
            mode: FanMode::Auto,
            manual_boosts: FanTable::new(),
            curves: FanTable::new(),
            vendor_override: None,
            history_retention_days: 7,
            all_fans_boost: AllFansBoost::default(),
        }
    }
}

impl Config {
    /// Sanitized interval: minimum 1s to avoid saturation, maximum 60s.
    pub fn interval_secs(&self) -> (s: u64)
        ensures
            s == clamp(self.update_interval_secs as int, 1, 60),
    {
        if self.update_interval_secs < 1 {
            1
        } else if self.update_interval_secs > 60 {
            60
        } else {
            self.update_interval_secs
        }
    }

    /// Sanitized retention: at least 1 day, at most 1 year.
    pub fn retention_days(&self) -> (d: u32)
        ensures
            d == clamp(self.history_retention_days as int, 1, 365),
    {
        if self.history_retention_days < 1 {
            1
        } else if self.history_retention_days > 365 {
            365
        } else {
            self.history_retention_days
        }
    }
}

} // verus!
