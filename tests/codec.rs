use rust_decimal::Decimal;
use univsrg::chart::{OsuChart, OsuHitKind, OsuHitObject, OsuTimingPoint};
use univsrg::decoder::decode_chart;
use univsrg::encoder::{chart_file_name, encode_beatmap};
use univsrg::error::{ConvertError, Field};
use univsrg::resource::{ResourceOut, ResourcePool};
use univsrg::types::{Beatmap, BpmTimePoint, EffectTimePoint, LatinAndUnicodeString, Object};

fn text(s: &str) -> Option<String> {
    Some(String::from(s))
}

fn timing(time: &str, uninherited: bool, meter: i32, bpm: Option<Decimal>, sv: Option<Decimal>) -> OsuTimingPoint {
    OsuTimingPoint {
        time: String::from(time),
        uninherited,
        meter,
        bpm,
        velocity_multiplier: sv,
        volume: 100,
    }
}

fn hit(x: &str, time: &str, kind: OsuHitKind) -> OsuHitObject {
    OsuHitObject { x: String::from(x), time: String::from(time), kind }
}

fn sample_chart() -> OsuChart {
    OsuChart {
        title: text("Title"),
        title_unicode: text("タイトル"),
        artist: text("Artist"),
        artist_unicode: None,
        creator: text("Mapper"),
        version: text("Hard"),
        circle_size: text("4"),
        hp_drain_rate: Some(Decimal::new(75, 1)),
        overall_difficulty: Some(Decimal::new(8, 0)),
        audio_filename: text("audio.mp3"),
        audio_lead_in: text("0"),
        preview_time: text("-1"),
        timing_points: vec![
            timing("0", true, 4, Some(Decimal::new(120, 0)), None),
            timing("500", false, 4, None, Some(Decimal::new(15, 1))),
            timing("oops", true, 4, Some(Decimal::new(90, 0)), None),
            timing("700", true, 0, Some(Decimal::new(90, 0)), None),
            timing("800", true, 3, None, None),
        ],
        hit_objects: vec![
            hit("64", "100", OsuHitKind::Circle),
            hit("448", "200", OsuHitKind::Hold { end_time: String::from("400") }),
            hit("192", "300", OsuHitKind::Other),
            hit("600", "300", OsuHitKind::Circle),
            hit("256.5", "300", OsuHitKind::Circle),
        ],
        background: text("bg.jpg"),
    }
}

#[test]
fn decodes_the_modelled_fields() {
    let mut pool = ResourcePool::new();
    let b = decode_chart(&sample_chart(), Some(vec![1, 2, 3]), Some(vec![9]), &mut pool).unwrap();
    assert_eq!(b.title.latin.as_deref(), Some("Title"));
    assert_eq!(b.title.unicode_or_latin().map(|s| s.as_str()), Some("タイトル"));
    assert_eq!(b.artist.unicode_or_latin().map(|s| s.as_str()), Some("Artist"));
    assert_eq!(b.column_count, Some(4));
    assert_eq!(b.hp_difficulty, Some(Decimal::new(75, 1)));
    assert_eq!(b.audio_lead_in, Some(0));
    assert_eq!(b.preview_time, Some(-1));
    assert_eq!(
        b.bpm_time_points,
        vec![BpmTimePoint { offset: 0, bpm: Decimal::new(120, 0), beats_per_bar: 4 }]
    );
    assert_eq!(
        b.effect_time_points,
        vec![EffectTimePoint { offset: 500, velocity_multiplier: Decimal::new(15, 1) }]
    );
    assert_eq!(
        b.objects,
        vec![
            Object::Note { column: 0, offset: 100 },
            Object::LongNote { column: 3, offset: 200, end_offset: 400 },
        ]
    );
    assert_eq!(b.audio.as_ref().unwrap().0.bytes, vec![1, 2, 3]);
    assert_eq!(b.background.as_ref().unwrap().0.original_path, "bg.jpg");
    assert_eq!(pool.entries().len(), 2);
}

#[test]
fn decoding_without_a_lane_count_fails_and_stores_nothing() {
    let mut pool = ResourcePool::new();
    let mut chart = sample_chart();
    chart.circle_size = None;
    let r = decode_chart(&chart, Some(vec![1]), None, &mut pool);
    assert!(matches!(r, Err(ConvertError::MissingField(Field::ColumnCount))));
    assert_eq!(pool.entries().len(), 0);
    let mut chart = sample_chart();
    chart.circle_size = text("4.5");
    assert!(decode_chart(&chart, None, None, &mut pool).is_err());
    let mut chart = sample_chart();
    chart.circle_size = text("0");
    assert!(decode_chart(&chart, None, None, &mut pool).is_err());
}

#[test]
fn unreadable_media_are_left_out() {
    let mut pool = ResourcePool::new();
    let b = decode_chart(&sample_chart(), None, None, &mut pool).unwrap();
    assert!(b.audio.is_none());
    assert!(b.background.is_none());
    assert_eq!(pool.entries().len(), 0);
}

fn sample_beatmap(pool: &mut ResourcePool) -> Beatmap {
    let mut b = Beatmap::new();
    b.title = LatinAndUnicodeString { latin: text("Song"), unicode: text("歌") };
    b.artist = LatinAndUnicodeString { latin: text("Band"), unicode: None };
    b.creator = text("Me");
    b.version = text("Easy");
    b.column_count = Some(7);
    b.audio = Some(pool.insert_bytes(String::from("song.ogg"), vec![4, 4]).0);
    b.audio_lead_in = Some(-20);
    b.preview_time = Some(12000);
    b.hp_difficulty = Some(Decimal::new(8, 0));
    b.acc_difficulty = Some(Decimal::new(65, 1));
    b.bpm_time_points = vec![
        BpmTimePoint { offset: 0, bpm: Decimal::new(120, 0), beats_per_bar: 4 },
        BpmTimePoint { offset: 1000, bpm: Decimal::new(1405, 1), beats_per_bar: 3 },
    ];
    b.effect_time_points = vec![
        EffectTimePoint { offset: 0, velocity_multiplier: Decimal::new(15, 1) },
        EffectTimePoint { offset: 500, velocity_multiplier: Decimal::new(2, 0) },
    ];
    b.objects = vec![
        Object::Note { column: 0, offset: 10 },
        Object::LongNote { column: 6, offset: -5, end_offset: 900 },
        Object::Note { column: 3, offset: 2147483647 },
    ];
    b
}

#[test]
fn decoding_an_encoded_beatmap_gives_its_fields_back() {
    let mut pool = ResourcePool::new();
    let b = sample_beatmap(&mut pool);
    let mut out = ResourceOut::new();
    out.inflate(true, &pool).unwrap();
    let chart = encode_beatmap(&b, &out).unwrap();
    assert_eq!(chart.audio_filename.as_deref(), Some("song.ogg"));
    assert_eq!(chart.circle_size.as_deref(), Some("7"));
    let xs: Vec<&str> = chart.hit_objects.iter().map(|h| h.x.as_str()).collect();
    assert_eq!(xs, vec!["36", "475", "256"]);
    let times: Vec<&str> = chart.timing_points.iter().map(|t| t.time.as_str()).collect();
    assert_eq!(times, vec!["0", "0", "500", "1000"]);
    let meters: Vec<i32> = chart.timing_points.iter().map(|t| t.meter).collect();
    assert_eq!(meters, vec![4, 0, 0, 3]);

    let mut pool2 = ResourcePool::new();
    let d = decode_chart(&chart, Some(vec![4, 4]), None, &mut pool2).unwrap();
    assert_eq!(d.title.latin, b.title.latin);
    assert_eq!(d.title.unicode, b.title.unicode);
    assert_eq!(d.artist.latin, b.artist.latin);
    assert_eq!(d.artist.unicode, b.artist.unicode);
    assert_eq!(d.creator, b.creator);
    assert_eq!(d.version, b.version);
    assert_eq!(d.column_count, b.column_count);
    assert_eq!(d.hp_difficulty, b.hp_difficulty);
    assert_eq!(d.acc_difficulty, b.acc_difficulty);
    assert_eq!(d.audio_lead_in, b.audio_lead_in);
    assert_eq!(d.preview_time, b.preview_time);
    assert_eq!(d.bpm_time_points, b.bpm_time_points);
    assert_eq!(d.effect_time_points, b.effect_time_points);
    assert_eq!(d.objects, b.objects);
}

#[test]
fn encoding_needs_a_lane_count_and_audio() {
    let mut pool = ResourcePool::new();
    let out = ResourceOut::new();
    let mut b = sample_beatmap(&mut pool);
    b.column_count = None;
    assert!(matches!(encode_beatmap(&b, &out), Err(ConvertError::MissingField(Field::ColumnCount))));
    b.column_count = Some(0);
    assert!(matches!(encode_beatmap(&b, &out), Err(ConvertError::MissingField(Field::ColumnCount))));
    b.column_count = Some(4);
    b.audio = None;
    assert!(matches!(encode_beatmap(&b, &out), Err(ConvertError::MissingField(Field::Audio))));
}

#[test]
fn chart_file_names_join_the_present_parts() {
    let mut b = Beatmap::new();
    assert_eq!(b.make_basename(), "");
    b.version = text("Hard");
    assert_eq!(chart_file_name(&b), "Hard.osu");
    b.title = LatinAndUnicodeString { latin: text("Latin"), unicode: None };
    assert_eq!(b.make_basename(), "Latin - Hard");
    b.title.unicode = text("Uni");
    b.creator = text("Who");
    assert_eq!(b.make_basename(), "Who - Uni - Hard");
    b.creator = text("");
    assert_eq!(b.make_basename(), "Uni - Hard");
}

#[test]
fn best_available_renderings() {
    let s = LatinAndUnicodeString { latin: text("a"), unicode: text("b") };
    assert_eq!(s.latin_or_unicode().map(|x| x.as_str()), Some("a"));
    assert_eq!(s.unicode_or_latin().map(|x| x.as_str()), Some("b"));
    let only_latin = LatinAndUnicodeString { latin: text("a"), unicode: None };
    assert_eq!(only_latin.unicode_or_latin().map(|x| x.as_str()), Some("a"));
    let none = LatinAndUnicodeString::new();
    assert!(none.latin_or_unicode().is_none());
}
