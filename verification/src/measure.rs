//! Metric Descriptors: how each metric kind is named, tagged for the raw
//! data files, and displayed.

use vstd::prelude::*;

use crate::display::{dec_seq, format_seconds, seconds_seq, u64_dec};
use crate::measure_key::MeasureKey;

verus! {

/// The human-readable name of a metric kind.
pub open spec fn spec_measure_name(key: MeasureKey) -> Seq<char> {
    match key {
        MeasureKey::WallTime => "Time (in seconds)"@,
        MeasureKey::MaxRss => "Max RSS (in megabytes)"@,
        MeasureKey::UserDefinedMetric => "User defined metric"@,
    }
}

/// The stable lowercase tag of a metric kind, used to name raw-data
/// files; an external contract that must never change.
pub open spec fn spec_measure_id(key: MeasureKey) -> Seq<char> {
    match key {
        MeasureKey::WallTime => "wall-time"@,
        MeasureKey::MaxRss => "max-rss"@,
        MeasureKey::UserDefinedMetric => "user-defined-metric"@,
    }
}

/// The display of a raw sample: nanoseconds as fixed-point seconds, bytes
/// as whole mebibytes, the user metric as itself.
pub open spec fn spec_display_value(key: MeasureKey, raw: u64) -> Seq<char> {
    match key {
        MeasureKey::WallTime => seconds_seq(raw as nat),
        MeasureKey::MaxRss => dec_seq((raw as nat) / 1048576),
        MeasureKey::UserDefinedMetric => dec_seq(raw as nat),
    }
}

pub fn measure_name(key: MeasureKey) -> (s: &'static str)
    ensures
        s@ == spec_measure_name(key),
{
    match key {
        MeasureKey::WallTime => "Time (in seconds)",
        MeasureKey::MaxRss => "Max RSS (in megabytes)",
        MeasureKey::UserDefinedMetric => "User defined metric",
    }
}

pub fn measure_id(key: MeasureKey) -> (s: &'static str)
    ensures
        s@ == spec_measure_id(key),
{
    match key {
        MeasureKey::WallTime => "wall-time",
        MeasureKey::MaxRss => "max-rss",
        MeasureKey::UserDefinedMetric => "user-defined-metric",
    }
}

pub fn display_value(key: MeasureKey, raw: u64) -> (s: String)
    ensures
        s@ == spec_display_value(key, raw),
{
    match key {
        MeasureKey::WallTime => format_seconds(raw),
        MeasureKey::MaxRss => u64_dec(raw / 1048576),
        MeasureKey::UserDefinedMetric => u64_dec(raw),
    }
}

/// One metric kind as a value with its descriptor behaviour.
pub trait MeasureDyn {
    /// The kind this descriptor stands for.
    spec fn spec_key(&self) -> MeasureKey;

    fn key(&self) -> (k: MeasureKey)
        ensures
            k == self.spec_key(),
    ;

    fn name(&self) -> (s: &'static str)
        ensures
            s@ == spec_measure_name(self.spec_key()),
    ;

    fn id(&self) -> (s: &'static str)
        ensures
            s@ == spec_measure_id(self.spec_key()),
    ;

    fn number_to_display(&self, number: u64) -> (s: String)
        ensures
            s@ == spec_display_value(self.spec_key(), number),
    ;
}

/// Wall-clock time, sampled in nanoseconds.
pub struct WallTime;

/// Peak resident set size, sampled in bytes.
pub struct MaxRss;

/// The optional user-supplied metric, sampled as a plain integer.
pub struct UserDefinedMetric;

impl MeasureDyn for WallTime {
    open spec fn spec_key(&self) -> MeasureKey {
        MeasureKey::WallTime
    }

    fn key(&self) -> MeasureKey {
        MeasureKey::WallTime
    }

    fn name(&self) -> &'static str {
        measure_name(MeasureKey::WallTime)
    }

    fn id(&self) -> &'static str {
        measure_id(MeasureKey::WallTime)
    }

    fn number_to_display(&self, number: u64) -> String {
        display_value(MeasureKey::WallTime, number)
    }
}

impl MeasureDyn for MaxRss {
    open spec fn spec_key(&self) -> MeasureKey {
        MeasureKey::MaxRss
    }

    fn key(&self) -> MeasureKey {
        MeasureKey::MaxRss
    }

    fn name(&self) -> &'static str {
        measure_name(MeasureKey::MaxRss)
    }

    fn id(&self) -> &'static str {
        measure_id(MeasureKey::MaxRss)
    }

    fn number_to_display(&self, number: u64) -> String {
        display_value(MeasureKey::MaxRss, number)
    }
}

impl MeasureDyn for UserDefinedMetric {
    open spec fn spec_key(&self) -> MeasureKey {
        MeasureKey::UserDefinedMetric
    }

    fn key(&self) -> MeasureKey {
        MeasureKey::UserDefinedMetric
    }

    fn name(&self) -> &'static str {
        measure_name(MeasureKey::UserDefinedMetric)
    }

    fn id(&self) -> &'static str {
        measure_id(MeasureKey::UserDefinedMetric)
    }

    fn number_to_display(&self, number: u64) -> String {
        display_value(MeasureKey::UserDefinedMetric, number)
    }
}

} // verus!
