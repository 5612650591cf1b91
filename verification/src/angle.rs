//! Sexagesimal angle components: hour angles (right ascension) and
//! degree/arcminute/arcsecond angles (declination).
//!
//! Fractional seconds are held in thousandths (milli-seconds of time,
//! milli-arcseconds of angle), and decimal angles in micro-arcseconds, so
//! every conversion here is exact integer arithmetic.

use vstd::prelude::*;

verus! {

/// Micro-arcseconds in one degree.
pub const UAS_PER_DEGREE: i64 = 3_600_000_000;

/// Micro-arcseconds in one arcminute.
pub const UAS_PER_ARC_MIN: i64 = 60_000_000;

/// Micro-arcseconds in one milli-arcsecond.
pub const UAS_PER_MILLI_ARC_SEC: i64 = 1_000;

/// Micro-arcseconds in one milli-second of time (one second of time is
/// fifteen arcseconds of rotation).
pub const UAS_PER_MILLI_TIME_SEC: i64 = 15_000;

/// A sexagesimal time-angle: hours, minutes, and seconds of time, the
/// seconds in thousandths. Right ascensions are written this way.
///
/// The components are trusted to be well formed by the caller; no range
/// beyond each field's natural bounds is enforced, matching the catalog
/// convention that hours run 0-23, minutes 0-59 and seconds below 60.
#[derive(Clone, Copy, Debug, PartialEq, Eq, Structural)]
pub struct HourAngle {
    pub hours: u8,
    pub minutes: u8,
    /// Seconds of time, in thousandths of a second.
    pub seconds_milli: u32,
}

impl HourAngle {
    /// The whole angle as milli-seconds of time.
    pub open spec fn spec_millis(self) -> int {
        self.hours * 3_600_000 + self.minutes * 60_000 + self.seconds_milli
    }

    /// The whole angle in micro-arcseconds.
    pub open spec fn spec_uas(self) -> int {
        self.spec_millis() * UAS_PER_MILLI_TIME_SEC
    }

    pub fn new(hours: u8, minutes: u8, seconds_milli: u32) -> (r: Self)
        ensures
            r == (HourAngle { hours, minutes, seconds_milli }),
    {
        HourAngle { hours, minutes, seconds_milli }
    }

    /// Total seconds of time, in thousandths: `hours*3600 + minutes*60 +
    /// seconds`, scaled by 1000.
    pub fn to_sec(&self) -> (r: u64)
        ensures
            r == self.spec_millis(),
    {
        self.hours as u64 * 3_600_000 + self.minutes as u64 * 60_000 + self.seconds_milli as u64
    }

    /// One full day of time-seconds, in thousandths.
    pub fn max_secs() -> (r: u64)
        ensures
            r == 86_400_000,
    {
        86_400_000
    }

    /// The angle in micro-arcseconds: total seconds of time divided by 240
    /// gives degrees, so one milli-second of time is 15_000 micro-arcseconds.
    pub fn to_degrees(&self) -> (r: i64)
        ensures
            r == self.spec_uas(),
    {
        self.to_sec() as i64 * UAS_PER_MILLI_TIME_SEC
    }
}

/// A sexagesimal angle: signed base degrees, arcminutes, and arcseconds, the
/// arcseconds in thousandths. Declinations are written this way, with the
/// sign of the whole angle carried externally by the parser and `base` left
/// as the unsigned magnitude there.
#[derive(Clone, Copy, Debug, PartialEq, Eq, Structural)]
pub struct Degree {
    pub base: i16,
    pub arc_mins: u8,
    /// Arcseconds, in thousandths of an arcsecond.
    pub arc_secs_milli: u32,
}

impl Degree {
    /// The decimal angle in micro-arcseconds: `base + arc_mins/60 +
    /// arc_secs/3600` degrees. The arcminute and arcsecond terms are always
    /// added, whatever the sign of `base`.
    pub open spec fn spec_uas(self) -> int {
        self.base * UAS_PER_DEGREE + self.arc_mins * UAS_PER_ARC_MIN + self.arc_secs_milli
            * UAS_PER_MILLI_ARC_SEC
    }

    pub fn new(base: i16, arc_mins: u8, arc_secs_milli: u32) -> (r: Self)
        ensures
            r == (Degree { base, arc_mins, arc_secs_milli }),
    {
        Degree { base, arc_mins, arc_secs_milli }
    }

    /// The decimal angle in micro-arcseconds.
    pub fn to_decimal(&self) -> (r: i64)
        ensures
            r == self.spec_uas(),
    {
        self.base as i64 * UAS_PER_DEGREE + self.arc_mins as i64 * UAS_PER_ARC_MIN
            + self.arc_secs_milli as i64 * UAS_PER_MILLI_ARC_SEC
    }
}

} // verus!
