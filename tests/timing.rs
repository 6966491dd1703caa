use rust_decimal::Decimal;
use univsrg::timing::{merge_timing, TimePoint};
use univsrg::types::{BpmTimePoint, EffectTimePoint};

fn bpm(offset: i32, bpm: i64, beats_per_bar: u32) -> BpmTimePoint {
    BpmTimePoint { offset, bpm: Decimal::new(bpm, 0), beats_per_bar }
}

fn effect(offset: i32, mantissa: i64, scale: u32) -> EffectTimePoint {
    EffectTimePoint { offset, velocity_multiplier: Decimal::new(mantissa, scale) }
}

#[test]
fn merge_puts_tempo_before_scroll_speed_at_equal_offsets() {
    let b = vec![bpm(0, 120, 4)];
    let e = vec![effect(0, 15, 1)];
    let merged = merge_timing(&b, &e);
    assert_eq!(merged, vec![TimePoint::Bpm(bpm(0, 120, 4)), TimePoint::Effect(effect(0, 15, 1))]);
}

#[test]
fn merge_interleaves_by_offset() {
    let b = vec![bpm(0, 120, 4), bpm(1000, 140, 4)];
    let e = vec![effect(500, 20, 1)];
    let merged = merge_timing(&b, &e);
    assert_eq!(
        merged,
        vec![
            TimePoint::Bpm(bpm(0, 120, 4)),
            TimePoint::Effect(effect(500, 20, 1)),
            TimePoint::Bpm(bpm(1000, 140, 4)),
        ]
    );
}

#[test]
fn merge_of_empty_lists_is_empty() {
    assert!(merge_timing(&vec![], &vec![]).is_empty());
    let e = vec![effect(5, 1, 0), effect(7, 2, 0)];
    assert_eq!(
        merge_timing(&vec![], &e),
        vec![TimePoint::Effect(effect(5, 1, 0)), TimePoint::Effect(effect(7, 2, 0))]
    );
}
