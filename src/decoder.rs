//! Decoding one chart record into a beatmap, best-effort: only the lane
//! count is mandatory, and timing entries or hit objects whose numbers do
//! not read are dropped.
use crate::chart::{OsuChart, OsuHitKind, OsuHitObject, OsuTimingPoint};
use crate::collect::{collect, lemma_collect_push};
use crate::error::{ConvertError, Field};
use crate::lane::{column_from_x, column_of_x};
use crate::number_text::{i32_of_text, parse_i32, parse_u32, u32_of_text};
use crate::resource::{extends, inserted, lemma_inserted_extends, ResourceEntry, ResourcePool};
use crate::types::{
    media_held, Beatmap, BpmTimePoint, EffectTimePoint, LatinAndUnicodeString, Object,
};
use vstd::prelude::*;

verus! {

/// The lane count a chart states: its density field read as a positive
/// integer.
pub open spec fn lane_count_of(c: OsuChart) -> Option<u32> {
    match c.circle_size {
        Some(s) => match u32_of_text(s@) {
            Some(n) => if n > 0 {
                Some(n)
            } else {
                None
            },
            None => None,
        },
        None => None,
    }
}

/// The integer an optional text field denotes.
pub open spec fn opt_i32_of(o: Option<String>) -> Option<i32> {
    match o {
        Some(s) => i32_of_text(s@),
        None => None,
    }
}

/// The tempo change a timing line makes, if it is one and its numbers read.
pub open spec fn bpm_point_of(tp: OsuTimingPoint) -> Option<BpmTimePoint> {
    if tp.uninherited && tp.meter >= 1 && i32_of_text(tp.time@) is Some && tp.bpm is Some {
        Some(
            BpmTimePoint {
                offset: i32_of_text(tp.time@)->0,
                bpm: tp.bpm->0,
                beats_per_bar: tp.meter as u32,
            },
        )
    } else {
        None
    }
}

/// The scroll-speed change a timing line makes, if it is one and its
/// numbers read.
pub open spec fn effect_point_of(tp: OsuTimingPoint) -> Option<EffectTimePoint> {
    if !tp.uninherited && i32_of_text(tp.time@) is Some && tp.velocity_multiplier is Some {
        Some(
            EffectTimePoint {
                offset: i32_of_text(tp.time@)->0,
                velocity_multiplier: tp.velocity_multiplier->0,
            },
        )
    } else {
        None
    }
}

/// The hit object a chart line makes in a chart of `cc` lanes: its lane is
/// `floor(x * cc / 512)`, which must be one of the chart's lanes.
pub open spec fn object_of(h: OsuHitObject, cc: u32) -> Option<Object> {
    match (u32_of_text(h.x@), i32_of_text(h.time@)) {
        (Some(x), Some(t)) => {
            let col = column_of_x(x as int, cc as int);
            if col < cc {
                match h.kind {
                    OsuHitKind::Circle => Some(Object::Note { column: col as u32, offset: t }),
                    OsuHitKind::Hold { end_time } => match i32_of_text(end_time@) {
                        Some(e) => Some(
                            Object::LongNote { column: col as u32, offset: t, end_offset: e },
                        ),
                        None => None,
                    },
                    OsuHitKind::Other => None,
                }
            } else {
                None
            }
        },
        _ => None,
    }
}

pub open spec fn bpm_reader() -> spec_fn(OsuTimingPoint) -> Option<BpmTimePoint> {
    |t: OsuTimingPoint| bpm_point_of(t)
}

pub open spec fn effect_reader() -> spec_fn(OsuTimingPoint) -> Option<EffectTimePoint> {
    |t: OsuTimingPoint| effect_point_of(t)
}

pub open spec fn object_reader(cc: u32) -> spec_fn(OsuHitObject) -> Option<Object> {
    |h: OsuHitObject| object_of(h, cc)
}

/// Every field of `b` but its media is what `c` states.
pub open spec fn decodes_to(c: OsuChart, b: Beatmap) -> bool {
    &&& b.title.latin == c.title
    &&& b.title.unicode == c.title_unicode
    &&& b.artist.latin == c.artist
    &&& b.artist.unicode == c.artist_unicode
    &&& b.creator == c.creator
    &&& b.version == c.version
    &&& lane_count_of(c) is Some
    &&& b.column_count == lane_count_of(c)
    &&& b.hp_difficulty == c.hp_drain_rate
    &&& b.acc_difficulty == c.overall_difficulty
    &&& b.audio_lead_in == opt_i32_of(c.audio_lead_in)
    &&& b.preview_time == opt_i32_of(c.preview_time)
    &&& b.bpm_time_points@ == collect(c.timing_points@, bpm_reader())
    &&& b.effect_time_points@ == collect(c.timing_points@, effect_reader())
    &&& b.objects@ == collect(c.hit_objects@, object_reader(lane_count_of(c)->0))
}

/// The media of `b` are the files that `c` references and that gave the
/// bytes `audio` and `background`: present exactly when both the reference
/// and the bytes are, and holding those bytes.
pub open spec fn media_read(
    b: Beatmap,
    c: OsuChart,
    audio: Option<Vec<u8>>,
    background: Option<Vec<u8>>,
) -> bool {
    &&& (b.audio is Some <==> (c.audio_filename is Some && audio is Some))
    &&& b.audio is Some ==> b.audio->0.content() == audio->0@
    &&& (b.background is Some <==> (c.background is Some && background is Some))
    &&& b.background is Some ==> b.background->0.content() == background->0@
}

/// A medium referenced by `path` whose file gave `bytes` is stored and
/// referenced by `r`; one that is not referenced or could not be read is
/// left out.
pub open spec fn resolved(
    before: ResourcePool,
    after: ResourcePool,
    path: Option<String>,
    bytes: Option<Vec<u8>>,
    r: Option<ResourceEntry>,
) -> bool {
    if path is Some && bytes is Some {
        r is Some && inserted(before, after, path->0@, bytes->0@, r->0)
    } else {
        r is None && after == before
    }
}

fn clone_opt(o: &Option<String>) -> (r: Option<String>)
    ensures
        r == *o,
{
    match o {
        Some(s) => Some(s.clone()),
        None => None,
    }
}

/// Reads the lane count out of the density field.
pub fn lane_count(c: &OsuChart) -> (r: Option<u32>)
    ensures
        r == lane_count_of(*c),
{
    match &c.circle_size {
        Some(s) => match parse_u32(s.as_str()) {
            Some(n) => if n > 0 {
                Some(n)
            } else {
                None
            },
            None => None,
        },
        None => None,
    }
}

fn opt_parse_i32(o: &Option<String>) -> (r: Option<i32>)
    ensures
        r == opt_i32_of(*o),
{
    match o {
        Some(s) => parse_i32(s.as_str()),
        None => None,
    }
}

/// The tempo change a timing line makes.
pub fn bpm_point(tp: &OsuTimingPoint) -> (r: Option<BpmTimePoint>)
    ensures
        r == bpm_point_of(*tp),
{
    if !tp.uninherited || tp.meter < 1 {
        return None;
    }
    match (parse_i32(tp.time.as_str()), tp.bpm) {
        (Some(offset), Some(bpm)) => Some(
            BpmTimePoint { offset, bpm, beats_per_bar: tp.meter as u32 },
        ),
        _ => None,
    }
}

/// The scroll-speed change a timing line makes.
pub fn effect_point(tp: &OsuTimingPoint) -> (r: Option<EffectTimePoint>)
    ensures
        r == effect_point_of(*tp),
{
    if tp.uninherited {
        return None;
    }
    match (parse_i32(tp.time.as_str()), tp.velocity_multiplier) {
        (Some(offset), Some(velocity_multiplier)) => Some(
            EffectTimePoint { offset, velocity_multiplier },
        ),
        _ => None,
    }
}

/// Splits the timing list into its tempo changes and its scroll-speed
/// changes, each in the list's order.
pub fn split_timing(tps: &Vec<OsuTimingPoint>) -> (r: (Vec<BpmTimePoint>, Vec<EffectTimePoint>))
    ensures
        r.0@ == collect(tps@, bpm_reader()),
        r.1@ == collect(tps@, effect_reader()),
{
    let mut bpms: Vec<BpmTimePoint> = Vec::new();
    let mut effects: Vec<EffectTimePoint> = Vec::new();
    let mut i: usize = 0;
    proof {
        assert(tps@.take(0) =~= Seq::<OsuTimingPoint>::empty());
    }
    while i < tps.len()
        invariant
            0 <= i <= tps@.len(),
            bpms@ == collect(tps@.take(i as int), bpm_reader()),
            effects@ == collect(tps@.take(i as int), effect_reader()),
        decreases tps@.len() - i,
    {
        proof {
            lemma_collect_push(tps@, bpm_reader(), i as int);
            lemma_collect_push(tps@, effect_reader(), i as int);
        }
        match bpm_point(&tps[i]) {
            Some(p) => {
                bpms.push(p);
            },
            None => {},
        }
        match effect_point(&tps[i]) {
            Some(p) => {
                effects.push(p);
            },
            None => {},
        }
        proof {
            assert(bpms@ =~= collect(tps@.take(i + 1), bpm_reader()));
            assert(effects@ =~= collect(tps@.take(i + 1), effect_reader()));
        }
        i = i + 1;
    }
    proof {
        assert(tps@.take(i as int) =~= tps@);
    }
    (bpms, effects)
}

/// The hit object a chart line makes in a chart of `cc` lanes.
pub fn decode_object(h: &OsuHitObject, cc: u32) -> (r: Option<Object>)
    ensures
        r == object_of(*h, cc),
{
    match (parse_u32(h.x.as_str()), parse_i32(h.time.as_str())) {
        (Some(x), Some(t)) => {
            let col = column_from_x(x, cc);
            if col < cc as u64 {
                match &h.kind {
                    OsuHitKind::Circle => Some(Object::Note { column: col as u32, offset: t }),
                    OsuHitKind::Hold { end_time } => match parse_i32(end_time.as_str()) {
                        Some(e) => Some(
                            Object::LongNote { column: col as u32, offset: t, end_offset: e },
                        ),
                        None => None,
                    },
                    OsuHitKind::Other => None,
                }
            } else {
                None
            }
        },
        _ => None,
    }
}

/// The hit objects of a chart of `cc` lanes, in order.
pub fn decode_objects(hs: &Vec<OsuHitObject>, cc: u32) -> (r: Vec<Object>)
    ensures
        r@ == collect(hs@, object_reader(cc)),
{
    let mut out: Vec<Object> = Vec::new();
    let mut i: usize = 0;
    proof {
        assert(hs@.take(0) =~= Seq::<OsuHitObject>::empty());
    }
    while i < hs.len()
        invariant
            0 <= i <= hs@.len(),
            out@ == collect(hs@.take(i as int), object_reader(cc)),
        decreases hs@.len() - i,
    {
        proof {
            lemma_collect_push(hs@, object_reader(cc), i as int);
        }
        match decode_object(&hs[i], cc) {
            Some(o) => {
                out.push(o);
            },
            None => {},
        }
        proof {
            assert(out@ =~= collect(hs@.take(i + 1), object_reader(cc)));
        }
        i = i + 1;
    }
    proof {
        assert(hs@.take(i as int) =~= hs@);
    }
    out
}

/// Stores a medium that the chart references, when its file could be read.
pub fn resolve_media(path: &Option<String>, bytes: Option<Vec<u8>>, pool: &mut ResourcePool) -> (r:
    Option<ResourceEntry>)
    requires
        old(pool).wf(),
    ensures
        final(pool).wf(),
        resolved(*old(pool), *final(pool), *path, bytes, r),
        extends(old(pool).contents(), final(pool).contents()),
        r matches Some(e) ==> final(pool).contents().contains(e),
{
    match (path, bytes) {
        (Some(p), Some(b)) => {
            let (held, _) = pool.insert_bytes(p.clone(), b);
            proof {
                lemma_inserted_extends(*old(pool), *pool, p@, b@, held);
            }
            Some(held)
        },
        _ => {
            assert(old(pool).contents() =~= pool.contents());
            None
        },
    }
}

/// Decodes one chart, storing its audio and background in `pool`. `audio`
/// and `background` are the bytes of the files that the chart references,
/// where they could be read. Fails, leaving `pool` as it was, exactly when
/// the chart states no lane count.
pub fn decode_chart(
    chart: &OsuChart,
    audio: Option<Vec<u8>>,
    background: Option<Vec<u8>>,
    pool: &mut ResourcePool,
) -> (r: Result<Beatmap, ConvertError>)
    requires
        old(pool).wf(),
    ensures
        final(pool).wf(),
        extends(old(pool).contents(), final(pool).contents()),
        r is Err <==> lane_count_of(*chart) is None,
        r is Err ==> r == Err::<Beatmap, ConvertError>(ConvertError::MissingField(Field::ColumnCount))
            && *final(pool) == *old(pool),
        r is Ok ==> decodes_to(*chart, r->Ok_0),
        r is Ok ==> media_held(r->Ok_0, final(pool).contents()),
        r is Ok ==> media_read(r->Ok_0, *chart, audio, background),
        r is Ok ==> exists|mid: ResourcePool|
            resolved(*old(pool), mid, chart.audio_filename, audio, r->Ok_0.audio) && resolved(
                mid,
                *final(pool),
                chart.background,
                background,
                r->Ok_0.background,
            ),
{
    let cc = match lane_count(chart) {
        Some(n) => n,
        None => {
            return Err(ConvertError::MissingField(Field::ColumnCount));
        },
    };
    let (bpm_time_points, effect_time_points) = split_timing(&chart.timing_points);
    let objects = decode_objects(&chart.hit_objects, cc);
    let audio_entry = resolve_media(&chart.audio_filename, audio, pool);
    let ghost mid = *pool;
    let background_entry = resolve_media(&chart.background, background, pool);
    let b = Beatmap {
        title: LatinAndUnicodeString {
            latin: clone_opt(&chart.title),
            unicode: clone_opt(&chart.title_unicode),
        },
        artist: LatinAndUnicodeString {
            latin: clone_opt(&chart.artist),
            unicode: clone_opt(&chart.artist_unicode),
        },
        version: clone_opt(&chart.version),
        creator: clone_opt(&chart.creator),
        column_count: Some(cc),
        audio: audio_entry,
        audio_lead_in: opt_parse_i32(&chart.audio_lead_in),
        preview_time: opt_parse_i32(&chart.preview_time),
        background: background_entry,
        hp_difficulty: chart.hp_drain_rate,
        acc_difficulty: chart.overall_difficulty,
        bpm_time_points,
        effect_time_points,
        objects,
    };
    proof {
        assert(resolved(*old(pool), mid, chart.audio_filename, audio, b.audio));
        if b.audio is Some {
            let e = b.audio->0;
            let k = choose|k: int| 0 <= k < mid.contents().len() && mid.contents()[k] == e;
            assert(pool.contents()[k] == e);
        }
    }
    Ok(b)
}

} // verus!
