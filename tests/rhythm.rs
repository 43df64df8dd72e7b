use chart_converter::common::{Key, KeyType, TimingChangeType};
use chart_converter::helpers::{approx_eq, find_sliderend_time, merge_bpm_and_stops, thresholded_ceil};
use chart_converter::rhythm::{
    calculate_beat_from_time, calculate_time_from_beat, count_at_most_i32, BEAT_ROUNDING_THRESHOLD,
};

#[test]
fn beat_at_one_second_under_120_bpm() {
    let times = vec![0];
    let bpms = vec![120_000];
    assert_eq!(calculate_beat_from_time(1000, 0, &times, &bpms), 1920);
}

#[test]
fn beat_before_start_is_zero() {
    assert_eq!(calculate_beat_from_time(-5, 0, &vec![0], &vec![120_000]), 0);
}

#[test]
fn beat_with_empty_or_mismatched_tempo_is_sentinel() {
    assert_eq!(calculate_beat_from_time(100, 0, &vec![], &vec![]), -1);
    assert_eq!(calculate_beat_from_time(100, 0, &vec![0, 10], &vec![120_000]), -1);
}

#[test]
fn beat_across_tempo_change() {
    // 120 BPM for 1000 ms (2 beats), then 60 BPM for 1000 ms (1 beat)
    let times = vec![0, 1000];
    let bpms = vec![120_000, 60_000];
    assert_eq!(calculate_beat_from_time(2000, 0, &times, &bpms), 2880);
}

#[test]
fn beat_rounds_up_near_whole_beat() {
    // 990 ms at 60 BPM is 0.99 beat: rounded up to 1 beat
    assert_eq!(calculate_beat_from_time(990, 0, &vec![0], &vec![60_000]), 960);
    // 900 ms is 0.9 beat: kept
    assert_eq!(calculate_beat_from_time(900, 0, &vec![0], &vec![60_000]), 864);
}

#[test]
fn beat_is_monotonic_in_time() {
    let times = vec![0, 700, 1500];
    let bpms = vec![150_000, 90_000, 200_000];
    let mut last = i64::MIN;
    let mut t = -100;
    while t < 4000 {
        let b = calculate_beat_from_time(t, 0, &times, &bpms);
        assert!(b >= last);
        last = b;
        t += 7;
    }
}

#[test]
fn time_of_beat_with_stop() {
    let beats = vec![0, 3840];
    let values = vec![120_000, 500];
    let kinds = vec![TimingChangeType::Bpm, TimingChangeType::Stop];
    assert_eq!(calculate_time_from_beat(7680, 0, &beats, &values, &kinds), 4500);
    assert_eq!(calculate_time_from_beat(-1, 250, &beats, &values, &kinds), 250);
    assert_eq!(calculate_time_from_beat(10, 0, &vec![], &vec![], &vec![]), -1);
}

#[test]
fn beat_time_round_trip_constant_tempo() {
    let bpm = 174_000;
    let times = vec![300];
    let bpms = vec![bpm];
    let beats = vec![0];
    let kinds = vec![TimingChangeType::Bpm];
    for b in [0i64, 240, 960, 1440, 5000, 123_456] {
        let t = calculate_time_from_beat(b, 300, &beats, &bpms, &kinds);
        let back = calculate_beat_from_time(t as i32, 300, &times, &bpms);
        assert!(back >= b - bpm / 62500 - 1 && back <= b + 960 - BEAT_ROUNDING_THRESHOLD, "{} {}", b, back);
    }
}

#[test]
fn thresholded_ceil_examples() {
    assert_eq!(thresholded_ceil(1900, 912), 1920);
    assert_eq!(thresholded_ceil(1000, 912), 1000);
    assert_eq!(thresholded_ceil(-5, 912), -5);
}

#[test]
fn approx_eq_examples() {
    assert!(approx_eq(100, 244, 144));
    assert!(!approx_eq(100, 245, 144));
}

#[test]
fn merge_bpm_only_and_stop_only() {
    let (b, v, k) = merge_bpm_and_stops(vec![0], vec![120_000], vec![3840], vec![500]);
    assert_eq!(b, vec![0, 3840]);
    assert_eq!(v, vec![120_000, 500]);
    assert_eq!(k, vec![TimingChangeType::Bpm, TimingChangeType::Stop]);
}

#[test]
fn merge_is_stable_and_sorted() {
    let (b, v, k) = merge_bpm_and_stops(vec![3840, 0], vec![150_000, 120_000], vec![3840, 960], vec![250, 100]);
    assert_eq!(b, vec![0, 960, 3840, 3840]);
    assert_eq!(v, vec![120_000, 100, 150_000, 250]);
    assert_eq!(
        k,
        vec![TimingChangeType::Bpm, TimingChangeType::Stop, TimingChangeType::Bpm, TimingChangeType::Stop]
    );
}

#[test]
fn merge_single_list_keeps_order() {
    let (b, _, k) = merge_bpm_and_stops(vec![960, 0], vec![1, 2], vec![], vec![]);
    assert_eq!(b, vec![960, 0]);
    assert_eq!(k, vec![TimingChangeType::Bpm, TimingChangeType::Bpm]);
}

#[test]
fn partition_point_counts() {
    let s = vec![0, 10, 10, 20];
    assert_eq!(count_at_most_i32(&s, 10), 3);
    assert_eq!(count_at_most_i32(&s, -1), 0);
}

#[test]
fn slider_end_lookup() {
    let times = vec![0, 100, 200];
    let rows = vec![
        vec![Key::slider_start(Some(200)), Key::empty()],
        vec![Key::empty(), Key::normal()],
        vec![Key::slider_end(), Key::empty()],
    ];
    assert_eq!(find_sliderend_time(0, 0, &times, &rows), 200);
    assert_eq!(find_sliderend_time(1, 1, &times, &rows), 100);
    assert_eq!(find_sliderend_time(5, 0, &times, &rows), 0);
    assert_eq!(rows[0][0].key_type, KeyType::SliderStart);
}

#[test]
fn beat_with_equal_change_times_uses_the_later() {
    // two changes at the same time: the second tempo holds
    let times = vec![0, 0];
    let bpms = vec![60_000, 120_000];
    assert_eq!(calculate_beat_from_time(1000, 0, &times, &bpms), 1920);
}

#[test]
fn beat_at_extreme_range_does_not_overflow() {
    let b = calculate_beat_from_time(i32::MAX, i32::MIN, &vec![i32::MIN], &vec![chart_converter::common::MAX_MILLI_BPM]);
    assert_eq!(b, ((u32::MAX as i64) * chart_converter::common::MAX_MILLI_BPM) / 62500);
}

#[test]
fn time_before_first_tempo_change_passes_no_time() {
    // no tempo before beat 4: the first four beats take no time
    let beats = vec![3840];
    let values = vec![120_000];
    let kinds = vec![TimingChangeType::Bpm];
    assert_eq!(calculate_time_from_beat(3840, 100, &beats, &values, &kinds), 100);
    assert_eq!(calculate_time_from_beat(4800, 100, &beats, &values, &kinds), 600);
}
