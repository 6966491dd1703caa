//! The fields of one chart text that the converter reads and writes, as
//! plain values. Numbers that the text holds as integers are kept as the
//! text itself; tempo, scroll speed and difficulty are decimals.
use vstd::prelude::*;

verus! {

/// One line of the timing list.
#[derive(Debug)]
pub struct OsuTimingPoint {
    /// Start time, as written.
    pub time: String,
    /// A tempo change when set; a scroll-speed change otherwise.
    pub uninherited: bool,
    /// Beats per bar.
    pub meter: i32,
    /// Tempo, for a tempo change whose beat length is a number.
    pub bpm: Option<rust_decimal::Decimal>,
    /// Scroll-speed multiplier, for a scroll-speed change whose beat length
    /// is a number.
    pub velocity_multiplier: Option<rust_decimal::Decimal>,
    /// Sample volume, in percent.
    pub volume: i32,
}

/// The kind of a hit object, as far as the converter cares.
#[derive(Debug)]
pub enum OsuHitKind {
    Circle,
    Hold { end_time: String },
    Other,
}

/// One hit object.
#[derive(Debug)]
pub struct OsuHitObject {
    /// Pixel x-coordinate, as written.
    pub x: String,
    /// Time, as written.
    pub time: String,
    pub kind: OsuHitKind,
}

/// The fields of one chart text.
#[derive(Debug)]
pub struct OsuChart {
    pub title: Option<String>,
    pub title_unicode: Option<String>,
    pub artist: Option<String>,
    pub artist_unicode: Option<String>,
    pub creator: Option<String>,
    pub version: Option<String>,
    /// The density field, which holds the lane count.
    pub circle_size: Option<String>,
    pub hp_drain_rate: Option<rust_decimal::Decimal>,
    pub overall_difficulty: Option<rust_decimal::Decimal>,
    /// Relative path of the audio file.
    pub audio_filename: Option<String>,
    pub audio_lead_in: Option<String>,
    pub preview_time: Option<String>,
    pub timing_points: Vec<OsuTimingPoint>,
    pub hit_objects: Vec<OsuHitObject>,
    /// Relative path of the image of the first background event.
    pub background: Option<String>,
}

} // verus!
