//! The records a sweep produces.

use vstd::prelude::*;
use crate::mode::Mode;

verus! {

/// The unit in which a program reported its elapsed time.
#[derive(Debug, Clone, Copy, PartialEq, Eq, Structural)]
pub enum TimeUnit {
    /// Microseconds: one millionth of a second.
    Micros,
    /// Milliseconds: one thousandth of a second.
    Millis,
    /// Seconds.
    Seconds,
}

/// An elapsed time as it was reported: the text of a number, and its unit.
///
/// The number is kept as text so that no digit is lost; turning it into a
/// machine number is left to whoever shows or compares it.
#[derive(Debug, Clone, PartialEq, Eq)]
pub struct TimeReading {
    pub number: String,
    pub unit: TimeUnit,
}

/// The metrics of one successful run.
#[derive(Debug, Clone, PartialEq, Eq)]
pub struct Stats {
    pub time: TimeReading,
    pub rwts: u64,
}

/// One result of a sweep: what ran, and what it measured. `stats` is absent
/// when the run failed at any stage.
#[derive(Debug, Clone, PartialEq, Eq)]
pub struct Datum {
    pub rev: String,
    pub file: String,
    pub mode: Mode,
    pub stats: Option<Stats>,
}

/// The mathematical content of a [`Stats`].
pub struct StatsView {
    pub number: Seq<char>,
    pub unit: TimeUnit,
    pub rwts: u64,
}

/// The mathematical content of a [`Datum`].
pub struct DatumView {
    pub rev: Seq<char>,
    pub file: Seq<char>,
    pub mode: Mode,
    pub stats: Option<StatsView>,
}

impl View for Stats {
    type V = StatsView;

    open spec fn view(&self) -> StatsView {
        StatsView { number: self.time.number@, unit: self.time.unit, rwts: self.rwts }
    }
}

impl View for Datum {
    type V = DatumView;

    open spec fn view(&self) -> DatumView {
        DatumView {
            rev: self.rev@,
            file: self.file@,
            mode: self.mode,
            stats: stats_content(self.stats),
        }
    }
}

/// The content of optional metrics.
pub open spec fn stats_content(stats: Option<Stats>) -> Option<StatsView> {
    match stats {
        Some(s) => Some(s@),
        None => None,
    }
}

/// The contents of a list of results.
pub open spec fn views(data: Seq<Datum>) -> Seq<DatumView> {
    data.map_values(|d: Datum| d@)
}

} // verus!
