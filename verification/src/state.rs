//! Live telemetry and the mutable state shared by the commands and the
//! monitor loop.
use vstd::prelude::*;
use std::collections::VecDeque;
use crate::config::Config;
use crate::curve::Hysteresis;
use crate::table::FanTable;

verus! {

/// Samples retained in the ring buffer (~2 min with the default 2s interval).
pub const HISTORY_CAPACITY: usize = 60;

/// One temperature reading, in millidegrees Celsius.
#[derive(Debug, Clone)]
pub struct TempReading {
    pub label: String,
    pub millicelsius: i32,
}

/// One fan reading.
#[derive(Debug, Clone)]
pub struct FanReading {
    pub id: String,
    pub label: String,
    pub rpm: Option<u32>,
    /// Current boost expressed as 0-100.
    pub boost_percent: Option<u8>,
    pub max_rpm: Option<u32>,
}

/// Everything read in one monitor tick.
#[derive(Debug, Clone)]
pub struct Sample {
    pub timestamp_ms: u64,
    pub temps: Vec<TempReading>,
    pub fans: Vec<FanReading>,
}

/// The history after `push_sample`: the oldest sample is dropped once the
/// buffer is full, then the new one is appended.
pub open spec fn history_push(h: Seq<Sample>, s: Sample) -> Seq<Sample> {
    if h.len() >= HISTORY_CAPACITY {
        h.drop_first().push(s)
    } else {
        h.push(s)
    }
}

/// The state that commands and the monitor loop share.
pub struct Inner {
    pub config: Config,
    pub history: VecDeque<Sample>,
    /// Hysteresis state per fan id, alive only while mode == Auto.
    pub curve_states: FanTable<Hysteresis>,
}

impl Inner {
    /// Fresh state for `config`: no history, no hysteresis.
    pub fn new(config: Config) -> (s: Self)
        ensures
            s.config == config,
            s.history@ == Seq::<Sample>::empty(),
            s.curve_states.map() == Map::<Seq<char>, Hysteresis>::empty(),
    {
        Inner { config, history: VecDeque::with_capacity(HISTORY_CAPACITY), curve_states: FanTable::new() }
    }

    /// Appends a sample to the ring buffer, dropping the oldest one when it
    /// already holds `HISTORY_CAPACITY` samples.
    pub fn push_sample(&mut self, sample: Sample)
        ensures
            final(self).history@ == history_push(old(self).history@, sample),
            final(self).config == old(self).config,
            final(self).curve_states == old(self).curve_states,
    {
        if self.history.len() >= HISTORY_CAPACITY {
            let _ = self.history.pop_front();
        }
        self.history.push_back(sample);
    }
}

/// The ring buffer never holds more than `HISTORY_CAPACITY` samples: a push
/// onto a history within the limit keeps it within the limit, ends with the
/// new sample, and holds the latest samples (the previous history and the new
/// one, minus the oldest beyond the limit).
pub proof fn lemma_history_window(h: Seq<Sample>, s: Sample)
    requires
        h.len() <= HISTORY_CAPACITY,
    ensures
        history_push(h, s).len() <= HISTORY_CAPACITY,
        history_push(h, s).last() == s,
        history_push(h, s) == h.push(s).skip(h.push(s).len() - history_push(h, s).len()),
        history_push(h, s).len() == if h.len() < HISTORY_CAPACITY {
            h.len() + 1
        } else {
            HISTORY_CAPACITY as nat
        },
{
    if h.len() >= HISTORY_CAPACITY {
        assert(h.drop_first().push(s) =~= h.push(s).skip(1));
    } else {
        assert(h.push(s).skip(0) =~= h.push(s));
    }
}

} // verus!
