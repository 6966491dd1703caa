//! Encoding one beatmap into a chart record: the inverse of decoding, with
//! the two timing lists merged into one and lanes placed at pixel columns.
use crate::chart::{OsuChart, OsuHitKind, OsuHitObject, OsuTimingPoint};
use crate::collect::{lemma_collect_pointwise, lemma_collect_total};
use crate::decoder::{
    bpm_point_of, bpm_reader, decodes_to, effect_point_of, effect_reader, lane_count_of, object_of,
    object_reader, opt_i32_of,
};
use crate::error::{ConvertError, Field};
use crate::lane::{lemma_lane_centre, x_from_column, x_of_column};
use crate::number_text::{
    format_i32, format_u32, lemma_i32_text_round_trip, lemma_u32_text_round_trip, text_of_int,
    text_of_u64,
};
use crate::resource::{path_for, ResourceEntry, ResourceOut};
use crate::timing::{
    bpm_of_event, effect_of_event, lemma_split_merged, merge_timing, merged, TimePoint,
};
use crate::types::{basename_of, Beatmap, BpmTimePoint, EffectTimePoint, Object};
use vstd::prelude::*;

verus! {

/// Sample volume, in percent, of every timing line written.
pub const DEFAULT_VOLUME: i32 = 100;

/// The meter written for `beats_per_bar` beats per bar.
pub open spec fn meter_of(beats_per_bar: u32) -> i32 {
    if beats_per_bar <= i32::MAX {
        beats_per_bar as i32
    } else {
        i32::MAX
    }
}

/// `tp` is the timing line written for `t`: a tempo change carries its
/// beats per bar, a scroll-speed change a meter of zero.
pub open spec fn encodes_event(t: TimePoint, tp: OsuTimingPoint) -> bool {
    &&& tp.time@ == text_of_int(t.offset_spec() as int)
    &&& tp.volume == DEFAULT_VOLUME
    &&& match t {
        TimePoint::Bpm(p) => tp.uninherited && tp.meter == meter_of(p.beats_per_bar) && tp.bpm
            == Some(p.bpm) && tp.velocity_multiplier is None,
        TimePoint::Effect(e) => !tp.uninherited && tp.meter == 0 && tp.bpm is None
            && tp.velocity_multiplier == Some(e.velocity_multiplier),
    }
}

/// `h` is the chart line written for `o` in a chart of `cc` lanes.
pub open spec fn encodes_object(o: Object, cc: u32, h: OsuHitObject) -> bool {
    match o {
        Object::Note { column, offset } => h.x@ == text_of_int(x_of_column(column as int, cc as int))
            && h.time@ == text_of_int(offset as int) && h.kind is Circle,
        Object::LongNote { column, offset, end_offset } => h.x@ == text_of_int(
            x_of_column(column as int, cc as int),
        ) && h.time@ == text_of_int(offset as int) && match h.kind {
            OsuHitKind::Hold { end_time } => end_time@ == text_of_int(end_offset as int),
            _ => false,
        },
    }
}

pub open spec fn opt_view(o: Option<String>) -> Option<Seq<char>> {
    match o {
        Some(s) => Some(s@),
        None => None,
    }
}

pub open spec fn opt_int_text(o: Option<i32>) -> Option<Seq<char>> {
    match o {
        Some(n) => Some(text_of_int(n as int)),
        None => None,
    }
}

/// The output path of a medium under the assignment `a`.
pub open spec fn media_path(a: Seq<(Seq<u8>, Seq<char>)>, e: Option<ResourceEntry>) -> Option<
    Seq<char>,
> {
    match e {
        Some(x) => path_for(a, x.content()),
        None => None,
    }
}

/// `c` is the chart record written for `b` when its media were given the
/// paths `a`.
pub open spec fn encodes(b: Beatmap, a: Seq<(Seq<u8>, Seq<char>)>, c: OsuChart) -> bool {
    &&& c.title == b.title.latin
    &&& c.title_unicode == b.title.unicode
    &&& c.artist == b.artist.latin
    &&& c.artist_unicode == b.artist.unicode
    &&& c.creator == b.creator
    &&& c.version == b.version
    &&& b.column_count is Some
    &&& opt_view(c.circle_size) == Some(text_of_int(b.column_count->0 as int))
    &&& c.hp_drain_rate == b.hp_difficulty
    &&& c.overall_difficulty == b.acc_difficulty
    &&& opt_view(c.audio_lead_in) == opt_int_text(b.audio_lead_in)
    &&& opt_view(c.preview_time) == opt_int_text(b.preview_time)
    &&& opt_view(c.audio_filename) == media_path(a, b.audio)
    &&& opt_view(c.background) == media_path(a, b.background)
    &&& c.timing_points@.len() == merged(b.bpm_time_points@, b.effect_time_points@).len()
    &&& forall|i: int|
        0 <= i < c.timing_points@.len() ==> encodes_event(
            merged(b.bpm_time_points@, b.effect_time_points@)[i],
            #[trigger] c.timing_points@[i],
        )
    &&& c.hit_objects@.len() == b.objects@.len()
    &&& forall|i: int|
        0 <= i < c.hit_objects@.len() ==> encodes_object(
            b.objects@[i],
            b.column_count->0,
            #[trigger] c.hit_objects@[i],
        )
}

/// The timing line for one entry of the merged list.
pub fn encode_event(t: &TimePoint) -> (r: OsuTimingPoint)
    ensures
        encodes_event(*t, r),
{
    match t {
        TimePoint::Bpm(p) => {
            let meter: i32 = if p.beats_per_bar <= i32::MAX as u32 {
                p.beats_per_bar as i32
            } else {
                i32::MAX
            };
            OsuTimingPoint {
                time: format_i32(p.offset),
                uninherited: true,
                meter,
                bpm: Some(p.bpm),
                velocity_multiplier: None,
                volume: DEFAULT_VOLUME,
            }
        },
        TimePoint::Effect(e) => OsuTimingPoint {
            time: format_i32(e.offset),
            uninherited: false,
            meter: 0,
            bpm: None,
            velocity_multiplier: Some(e.velocity_multiplier),
            volume: DEFAULT_VOLUME,
        },
    }
}

/// The timing list of a beatmap: its tempo and scroll-speed changes merged.
pub fn encode_timing(b: &Beatmap) -> (r: Vec<OsuTimingPoint>)
    ensures
        r@.len() == merged(b.bpm_time_points@, b.effect_time_points@).len(),
        forall|i: int|
            0 <= i < r@.len() ==> encodes_event(
                merged(b.bpm_time_points@, b.effect_time_points@)[i],
                #[trigger] r@[i],
            ),
{
    let events = merge_timing(&b.bpm_time_points, &b.effect_time_points);
    let mut out: Vec<OsuTimingPoint> = Vec::new();
    let mut i: usize = 0;
    while i < events.len()
        invariant
            0 <= i <= events@.len(),
            out@.len() == i,
            forall|j: int| 0 <= j < i ==> encodes_event(events@[j], #[trigger] out@[j]),
        decreases events@.len() - i,
    {
        out.push(encode_event(&events[i]));
        i = i + 1;
    }
    out
}

/// The chart line for one hit object in a chart of `cc` lanes.
pub fn encode_object(o: &Object, cc: u32) -> (r: OsuHitObject)
    requires
        cc > 0,
    ensures
        encodes_object(*o, cc, r),
{
    match o {
        Object::Note { column, offset } => OsuHitObject {
            x: text_of_u64(x_from_column(*column, cc)),
            time: format_i32(*offset),
            kind: OsuHitKind::Circle,
        },
        Object::LongNote { column, offset, end_offset } => OsuHitObject {
            x: text_of_u64(x_from_column(*column, cc)),
            time: format_i32(*offset),
            kind: OsuHitKind::Hold { end_time: format_i32(*end_offset) },
        },
    }
}

/// The chart lines of a beatmap's hit objects, in order.
pub fn encode_objects(objects: &Vec<Object>, cc: u32) -> (r: Vec<OsuHitObject>)
    requires
        cc > 0,
    ensures
        r@.len() == objects@.len(),
        forall|i: int| 0 <= i < r@.len() ==> encodes_object(objects@[i], cc, #[trigger] r@[i]),
{
    let mut out: Vec<OsuHitObject> = Vec::new();
    let mut i: usize = 0;
    while i < objects.len()
        invariant
            cc > 0,
            0 <= i <= objects@.len(),
            out@.len() == i,
            forall|j: int| 0 <= j < i ==> encodes_object(objects@[j], cc, #[trigger] out@[j]),
        decreases objects@.len() - i,
    {
        out.push(encode_object(&objects[i], cc));
        i = i + 1;
    }
    out
}

fn media_name(out: &ResourceOut, e: &Option<ResourceEntry>) -> (r: Option<String>)
    requires
        out.wf(),
    ensures
        opt_view(r) == media_path(out.assignment(), *e),
{
    match e {
        Some(x) => match out.get_path_from_entry(x) {
            Some(p) => Some(p.clone()),
            None => None,
        },
        None => None,
    }
}

fn opt_format_i32(o: Option<i32>) -> (r: Option<String>)
    ensures
        opt_view(r) == opt_int_text(o),
{
    match o {
        Some(n) => Some(format_i32(n)),
        None => None,
    }
}

fn clone_opt(o: &Option<String>) -> (r: Option<String>)
    ensures
        r == *o,
{
    match o {
        Some(s) => Some(s.clone()),
        None => None,
    }
}

/// Encodes one beatmap whose media were given the paths in `out`. Fails
/// when the beatmap has no lane count (or one of zero), or no audio.
pub fn encode_beatmap(b: &Beatmap, out: &ResourceOut) -> (r: Result<OsuChart, ConvertError>)
    requires
        out.wf(),
    ensures
        r is Err <==> (b.column_count is None || b.column_count == Some(0u32) || b.audio is None),
        (b.column_count is None || b.column_count == Some(0u32)) ==> r == Err::<
            OsuChart,
            ConvertError,
        >(ConvertError::MissingField(Field::ColumnCount)),
        (b.column_count matches Some(n) && n > 0 && b.audio is None) ==> r == Err::<
            OsuChart,
            ConvertError,
        >(ConvertError::MissingField(Field::Audio)),
        r is Ok ==> encodes(*b, out.assignment(), r->Ok_0),
{
    let cc = match b.column_count {
        Some(n) => if n > 0 {
            n
        } else {
            return Err(ConvertError::MissingField(Field::ColumnCount));
        },
        None => {
            return Err(ConvertError::MissingField(Field::ColumnCount));
        },
    };
    if b.audio.is_none() {
        return Err(ConvertError::MissingField(Field::Audio));
    }
    Ok(
        OsuChart {
            title: clone_opt(&b.title.latin),
            title_unicode: clone_opt(&b.title.unicode),
            artist: clone_opt(&b.artist.latin),
            artist_unicode: clone_opt(&b.artist.unicode),
            creator: clone_opt(&b.creator),
            version: clone_opt(&b.version),
            circle_size: Some(format_u32(cc)),
            hp_drain_rate: b.hp_difficulty,
            overall_difficulty: b.acc_difficulty,
            audio_filename: media_name(out, &b.audio),
            audio_lead_in: opt_format_i32(b.audio_lead_in),
            preview_time: opt_format_i32(b.preview_time),
            timing_points: encode_timing(b),
            hit_objects: encode_objects(&b.objects, cc),
            background: media_name(out, &b.background),
        },
    )
}

/// The name of the chart file written for `b`: its basename and the chart
/// extension.
pub fn chart_file_name(b: &Beatmap) -> (r: String)
    ensures
        r@ == basename_of(*b) + crate::bundle::chart_extension(),
{
    let mut name = b.make_basename();
    let ext = ".osu";
    proof {
        reveal_strlit(".osu");
        assert(ext@ =~= seq!['.', 'o', 's', 'u']);
    }
    name.append(ext);
    name
}

/// A beatmap that encoding keeps whole: a lane count from 1 to 256, every
/// object in one of its lanes, and every tempo change with a positive
/// number of beats per bar that the chart text can hold.
pub open spec fn round_trips(b: Beatmap) -> bool {
    &&& b.column_count matches Some(n) && 1 <= n <= 256
    &&& forall|i: int|
        0 <= i < b.objects@.len() ==> (#[trigger] b.objects@[i]).column_spec()
            < b.column_count->0
    &&& forall|i: int|
        0 <= i < b.bpm_time_points@.len() ==> 1 <= (#[trigger] b.bpm_time_points@[i]).beats_per_bar
            <= i32::MAX
}

proof fn lemma_object_round_trip(o: Object, cc: u32, h: OsuHitObject)
    requires
        1 <= cc <= 256,
        o.column_spec() < cc,
        encodes_object(o, cc, h),
    ensures
        object_of(h, cc) == Some(o),
{
    let col = o.column_spec();
    lemma_lane_centre(col, cc);
    let x = x_of_column(col as int, cc as int);
    lemma_u32_text_round_trip(x as u32);
    match o {
        Object::Note { column, offset } => {
            lemma_i32_text_round_trip(offset);
        },
        Object::LongNote { column, offset, end_offset } => {
            lemma_i32_text_round_trip(offset);
            lemma_i32_text_round_trip(end_offset);
        },
    }
}

proof fn lemma_event_round_trip(t: TimePoint, tp: OsuTimingPoint)
    requires
        encodes_event(t, tp),
        t matches TimePoint::Bpm(p) ==> 1 <= p.beats_per_bar <= i32::MAX,
    ensures
        bpm_point_of(tp) == bpm_of_event(t),
        effect_point_of(tp) == effect_of_event(t),
{
    lemma_i32_text_round_trip(t.offset_spec());
}

proof fn lemma_opt_i32_round_trip(o: Option<i32>, s: Option<String>)
    requires
        opt_view(s) == opt_int_text(o),
    ensures
        opt_i32_of(s) == o,
{
    if let Some(n) = o {
        lemma_i32_text_round_trip(n);
    }
}

/// Decoding the chart record written for a beatmap gives back its titles,
/// artists, creator, version, lane count, difficulty numbers, lead-in and
/// preview times, its tempo and scroll-speed changes, and its objects.
pub proof fn lemma_decode_encode(b: Beatmap, a: Seq<(Seq<u8>, Seq<char>)>, c: OsuChart, d: Beatmap)
    requires
        round_trips(b),
        encodes(b, a, c),
        decodes_to(c, d),
    ensures
        d.title.latin == b.title.latin,
        d.title.unicode == b.title.unicode,
        d.artist.latin == b.artist.latin,
        d.artist.unicode == b.artist.unicode,
        d.creator == b.creator,
        d.version == b.version,
        d.column_count == b.column_count,
        d.hp_difficulty == b.hp_difficulty,
        d.acc_difficulty == b.acc_difficulty,
        d.audio_lead_in == b.audio_lead_in,
        d.preview_time == b.preview_time,
        d.bpm_time_points@ == b.bpm_time_points@,
        d.effect_time_points@ == b.effect_time_points@,
        d.objects@ == b.objects@,
{
    let cc = b.column_count->0;
    lemma_u32_text_round_trip(cc);
    assert(lane_count_of(c) == Some(cc));
    lemma_opt_i32_round_trip(b.audio_lead_in, c.audio_lead_in);
    lemma_opt_i32_round_trip(b.preview_time, c.preview_time);
    let m = merged(b.bpm_time_points@, b.effect_time_points@);
    lemma_split_merged(b.bpm_time_points@, b.effect_time_points@);
    assert forall|i: int| 0 <= i < m.len() implies (#[trigger] m[i] matches TimePoint::Bpm(p) ==> 1
        <= p.beats_per_bar <= i32::MAX) by {
        lemma_merged_members(b.bpm_time_points@, b.effect_time_points@, i);
    }
    assert forall|i: int| 0 <= i < c.timing_points@.len() implies bpm_reader()(
        #[trigger] c.timing_points@[i],
    ) == (|t: TimePoint| bpm_of_event(t))(m[i]) && effect_reader()(c.timing_points@[i]) == (|
        t: TimePoint,
    | effect_of_event(t))(m[i]) by {
        lemma_event_round_trip(m[i], c.timing_points@[i]);
    }
    lemma_collect_pointwise(c.timing_points@, m, bpm_reader(), |t: TimePoint| bpm_of_event(t));
    lemma_collect_pointwise(
        c.timing_points@,
        m,
        effect_reader(),
        |t: TimePoint| effect_of_event(t),
    );
    assert forall|i: int| 0 <= i < c.hit_objects@.len() implies object_reader(cc)(
        #[trigger] c.hit_objects@[i],
    ) == Some(b.objects@[i]) by {
        lemma_object_round_trip(b.objects@[i], cc, c.hit_objects@[i]);
    }
    lemma_collect_total(c.hit_objects@, b.objects@, object_reader(cc));
}

/// Every tempo change in a merged list is one of the list's tempo changes.
proof fn lemma_merged_members(
    b: Seq<BpmTimePoint>,
    e: Seq<EffectTimePoint>,
    i: int,
)
    requires
        0 <= i < merged(b, e).len(),
    ensures
        merged(b, e)[i] matches TimePoint::Bpm(p) ==> b.contains(p),
    decreases b.len() + e.len(),
{
    if b.len() == 0 && e.len() == 0 {
    } else if e.len() == 0 || (b.len() > 0 && b[0].offset <= e[0].offset) {
        if i > 0 {
            lemma_merged_members(b.drop_first(), e, i - 1);
            if let TimePoint::Bpm(p) = merged(b, e)[i] {
                let k = choose|k: int| 0 <= k < b.drop_first().len() && b.drop_first()[k] == p;
                assert(b[k + 1] == p);
            }
        } else {
            assert(b[0] == b[0]);
        }
    } else {
        if i > 0 {
            lemma_merged_members(b, e.drop_first(), i - 1);
        }
    }
}

} // verus!
