use univsrg::bundle::{append_bundle, is_chart_file_name, ChartSource, ExtractedBundle};
use univsrg::chart::{OsuChart, OsuHitKind, OsuHitObject};
use univsrg::error::{ConvertError, Field};
use univsrg::traits::{AppendToUnivsrg, ToOsu};
use univsrg::types::Package;

fn chart(version: &str, lanes: Option<&str>, audio: &str) -> OsuChart {
    OsuChart {
        title: Some(String::from("Song")),
        title_unicode: None,
        artist: None,
        artist_unicode: None,
        creator: Some(String::from("Me")),
        version: Some(String::from(version)),
        circle_size: lanes.map(String::from),
        hp_drain_rate: None,
        overall_difficulty: None,
        audio_filename: Some(String::from(audio)),
        audio_lead_in: None,
        preview_time: None,
        timing_points: vec![],
        hit_objects: vec![OsuHitObject {
            x: String::from("256"),
            time: String::from("0"),
            kind: OsuHitKind::Circle,
        }],
        background: None,
    }
}

fn source(version: &str, lanes: Option<&str>, audio: &str, bytes: Vec<u8>) -> ChartSource {
    ChartSource { chart: chart(version, lanes, audio), audio: Some(bytes), background: None }
}

#[test]
fn a_chart_without_lane_count_is_skipped_and_the_rest_decode() {
    let mut package = Package::new();
    let charts = vec![
        source("Easy", Some("4"), "a.mp3", vec![1]),
        source("Broken", None, "a.mp3", vec![1]),
        source("Hard", Some("7"), "a.mp3", vec![1]),
    ];
    let failures = append_bundle(&mut package, charts, true);
    assert_eq!(failures, vec![(1, ConvertError::MissingField(Field::ColumnCount))]);
    let versions: Vec<&str> =
        package.beatmaps.iter().map(|b| b.version.as_deref().unwrap()).collect();
    assert_eq!(versions, vec!["Easy", "Hard"]);
    assert_eq!(package.resource_pool.entries().len(), 1);
}

#[test]
fn media_shared_across_bundles_are_stored_once() {
    let mut package = Package::new();
    let first = ExtractedBundle { charts: vec![source("A", Some("4"), "x.mp3", vec![5, 5])] };
    let second = ExtractedBundle { charts: vec![source("B", Some("4"), "y.mp3", vec![5, 5])] };
    assert!(first.append_to_univsrg(&mut package).is_empty());
    assert!(second.append_to_univsrg(&mut package).is_empty());
    assert_eq!(package.beatmaps.len(), 2);
    assert_eq!(package.resource_pool.entries().len(), 1);
    assert!(package.resource_pool.get_entry_from_path("x.mp3").is_none());
    assert!(package.resource_pool.get_entry_from_path("y.mp3").is_some());
}

#[test]
fn compiling_skips_beatmaps_without_audio() {
    let mut package = Package::new();
    let charts = vec![
        source("Easy", Some("4"), "a.mp3", vec![1]),
        ChartSource { chart: chart("Mute", Some("4"), "none.mp3"), audio: None, background: None },
        source("Hard", Some("7"), "b.mp3", vec![2]),
    ];
    assert!(append_bundle(&mut package, charts, false).is_empty());
    let bundle = package.to_osu(true).unwrap();
    let names: Vec<&str> = bundle.charts.iter().map(|c| c.file_name.as_str()).collect();
    assert_eq!(names, vec!["Me - Song - Easy.osu", "Me - Song - Hard.osu"]);
    assert_eq!(bundle.failures, vec![(1, ConvertError::MissingField(Field::Audio))]);
    let audio: Vec<&str> =
        bundle.charts.iter().map(|c| c.chart.audio_filename.as_deref().unwrap()).collect();
    assert_eq!(audio, vec!["a.mp3", "b.mp3"]);
    assert_eq!(bundle.resources.assigned().len(), 2);
}

#[test]
fn chart_files_are_recognised_by_extension() {
    assert!(is_chart_file_name("Me - Song - Easy.osu"));
    assert!(is_chart_file_name("a.osu"));
    assert!(!is_chart_file_name(".osu"));
    assert!(!is_chart_file_name("song.mp3"));
    assert!(!is_chart_file_name("chart.osb"));
    assert!(!is_chart_file_name("osu"));
}

#[test]
fn compiling_into_a_non_empty_directory_fails() {
    let mut package = Package::new();
    let charts = vec![source("Easy", Some("4"), "a.mp3", vec![1])];
    assert!(append_bundle(&mut package, charts, true).is_empty());
    assert!(matches!(package.to_osu(false), Err(ConvertError::AlreadyExists)));
}
