use chart_converter::chart::{ChartInfo, Metadata};
use chart_converter::charts::{build_osu_chart, build_qua_chart, build_sm_chart, is_valid_tempo_list};
use chart_converter::common::{GameMode, Key, KeyType, TimingChangeType};
use chart_converter::errors::{ParseError, WriteError};
use chart_converter::hitobjects::HitObjects;
use chart_converter::numbers::{parse_decimal_milli, parse_int, split_fields};
use chart_converter::osu::{
    parse_hitobject, parse_timing_point,
    beatlength_to_bpm, beatlength_to_multiplier, bpm_to_beatlength, column_to_coords, coords_to_column,
    multiplier_to_beatlength, process_hitobjects, process_timing_points, validate_mode_mania, OsuHitObject,
    OsuTimingPoint, HOLD_NOTE,
};
use chart_converter::quaver::{
    process_notes, quaver_hitsound, quaver_key_count, quaver_keysound, quaver_mode_label, quaver_sound_effect,
    QuaverHitObject,
};
use chart_converter::sound::{HitSoundType, KeySound, KeySoundRow, SoundBank, SoundEffect};
use chart_converter::stepmania::{
    get_sm_note_type, measure_indices, notes_to_hitobjects, pad_measure, padded_measures, parse_beats,
    parse_keys_in_row, parse_notes_grid,
    sm_row_to_chars, sm_timing_points, snap_to_nearest_note_type_normed, MeasureRange,
};
use chart_converter::timeline::TimelineTimingPoint;
use chart_converter::writer::{note_records, osu_hit_object_records, osu_timing_records, quaver_hit_object_records};

fn row(s: &str) -> Vec<Key> {
    parse_keys_in_row(s)
}

fn grid(beats: &[i64], rows: &[&str]) -> HitObjects {
    let mut h = HitObjects::with_capacity(rows.len());
    for (i, r) in rows.iter().enumerate() {
        h.add_hitobject(i as i32 * 100, beats[i], KeySoundRow::empty(), row(r));
    }
    h
}

#[test]
fn osu_single_note_lands_on_beat_two() {
    let (tp, offset) = process_timing_points(&vec![OsuTimingPoint { time: 0, beat_length_us: 500_000, uninherited: true }]).unwrap();
    assert_eq!(offset, 0);
    assert_eq!(tp.bpms(), vec![120_000]);
    let h = process_hitobjects(
        &vec![OsuHitObject { x: 64, time: 1000, kind: 1, end_time: 0, hitsound: 0, volume: 0, sample: None }],
        4,
        offset,
        &tp.bpm_times(),
        &tp.bpms(),
    );
    assert_eq!(h.rows.len(), 1);
    assert_eq!(h.beats[0], 1920);
    assert_eq!(h.times[0], 1000);
    assert_eq!(h.rows[0][0].key_type, KeyType::Normal);
    for c in 1..4 {
        assert_eq!(h.rows[0][c].key_type, KeyType::Empty);
    }
}

#[test]
fn parsers_store_no_empty_rows() {
    // an object without the note bit gives no event, hence no row
    let h = process_hitobjects(
        &vec![OsuHitObject { x: 64, time: 0, kind: 2, end_time: 0, hitsound: 0, volume: 0, sample: None }, OsuHitObject { x: 500, time: 10, kind: 1, end_time: 0, hitsound: 0, volume: 0, sample: None }],
        4,
        0,
        &vec![0],
        &vec![120_000],
    );
    assert_eq!(h.rows.len(), 1);
    assert!(h.rows.iter().all(|r| r.iter().any(|k| k.key_type != KeyType::Empty)));
    let grid_rows = vec![vec![row("0000"), row("1000"), row("0000"), row("0001")]];
    let h2 = notes_to_hitobjects(&grid_rows, 0, &vec![0], &vec![120_000], &vec![TimingChangeType::Bpm]).unwrap();
    assert_eq!(h2.rows.len(), 2);
    assert!(h2.rows.iter().all(|r| r.iter().any(|k| k.key_type != KeyType::Empty)));
}

#[test]
fn osu_hold_note_and_coincident_note() {
    let h = process_hitobjects(
        &vec![
            OsuHitObject { x: 0, time: 0, kind: HOLD_NOTE, end_time: 500, hitsound: 0, volume: 0, sample: None },
            OsuHitObject { x: 0, time: 0, kind: 1, end_time: 0, hitsound: 0, volume: 0, sample: None },
            OsuHitObject { x: 200, time: 500, kind: 5, end_time: 0, hitsound: 0, volume: 0, sample: None },
        ],
        4,
        0,
        &vec![0],
        &vec![120_000],
    );
    assert_eq!(h.rows.len(), 2);
    assert_eq!(h.rows[0][0], Key::slider_start(Some(500)));
    assert_eq!(h.rows[1][0].key_type, KeyType::SliderEnd);
    assert_eq!(h.rows[1][1].key_type, KeyType::Normal);
    assert_eq!(h.beats[1], 960);
}

#[test]
fn osu_timing_points_to_changes() {
    let (tp, offset) = process_timing_points(&vec![
        OsuTimingPoint { time: 100, beat_length_us: 500_000, uninherited: true },
        OsuTimingPoint { time: 1100, beat_length_us: -50_000, uninherited: false },
    ])
    .unwrap();
    assert_eq!(offset, 100);
    assert_eq!(tp.times, vec![100, 1100]);
    assert_eq!(tp.beats, vec![0, 1920]);
    assert_eq!(tp.sv(), vec![2000]);
    assert!(!tp.is_bpms_empty());
    assert!(process_timing_points(&vec![OsuTimingPoint { time: 0, beat_length_us: 0, uninherited: true }]).is_err());
}

#[test]
fn osu_lane_and_tempo_conversions() {
    assert_eq!(coords_to_column(64, 4), 0);
    assert_eq!(coords_to_column(448, 4), 3);
    assert_eq!(column_to_coords(1, 4), 192);
    assert_eq!(column_to_coords(1, 7), 109);
    assert_eq!(column_to_coords(7, 8), 480);
    assert_eq!(beatlength_to_bpm(500_000), 120_000);
    assert_eq!(bpm_to_beatlength(120_000), 500_000);
    assert_eq!(beatlength_to_multiplier(-50_000), 2000);
    assert_eq!(beatlength_to_multiplier(0), 10_000_000);
    assert_eq!(multiplier_to_beatlength(2000), -50_000);
    assert_eq!(multiplier_to_beatlength(0), -10_000_000);
}

#[test]
fn osu_mode_validation() {
    assert_eq!(validate_mode_mania("3"), Ok(true));
    match validate_mode_mania("0") {
        Err(ParseError::InvalidMode(found, expected)) => {
            assert_eq!(found, "Standard");
            assert_eq!(expected, GameMode::Mania);
        }
        _ => panic!("expected a mode error"),
    }
    match validate_mode_mania("9") {
        Err(ParseError::InvalidMode(found, _)) => assert_eq!(found, "Unknown"),
        _ => panic!("expected a mode error"),
    }
}

#[test]
fn measure_padding_quarter_notes() {
    let h = grid(&[0, 960, 1920, 2880], &["1000", "0100", "0010", "0001"]);
    let m = pad_measure(&h, &MeasureRange(0, 4, false));
    assert_eq!(m.len(), 4);
    for i in 0..4 {
        assert_eq!(m[i], h.rows[i]);
    }
}

#[test]
fn measure_padding_fills_gaps_and_empty_ranges() {
    let h = grid(&[0, 480, 1920], &["1000", "0100", "0010"]);
    let m = pad_measure(&h, &MeasureRange(0, 3, false));
    assert_eq!(m.len(), 8);
    assert_eq!(m[0], h.rows[0]);
    assert_eq!(m[1], h.rows[1]);
    assert_eq!(m[4], h.rows[2]);
    assert_eq!(m[2], vec![Key::empty(); 4]);
    let silent = pad_measure(&h, &MeasureRange(0, 0, true));
    assert_eq!(silent, vec![vec![Key::empty(); 4]; 4]);
}

#[test]
fn snapping_to_note_types() {
    assert_eq!(snap_to_nearest_note_type_normed(960), 960);
    assert_eq!(snap_to_nearest_note_type_normed(100), 120);
    assert_eq!(snap_to_nearest_note_type_normed(3840), 960);
    assert_eq!(snap_to_nearest_note_type_normed(1), 20);
}

#[test]
fn measures_split_with_silence() {
    let h = grid(&[0, 960, 3840, 19200], &["1000", "0100", "0010", "0001"]);
    let ranges = measure_indices(&h);
    assert_eq!(
        ranges,
        vec![
            MeasureRange(0, 2, false),
            MeasureRange(2, 3, false),
            MeasureRange(2, 3, true),
            MeasureRange(3, 3, true),
            MeasureRange(3, 3, true),
            MeasureRange(3, 3, true),
            MeasureRange(3, 4, false),
        ]
    );
    assert_eq!(padded_measures(&h).len(), ranges.len());
}

#[test]
fn sm_rows_read_and_write() {
    let r = parse_keys_in_row("1234MFx0");
    let kinds: Vec<KeyType> = r.iter().map(|k| k.key_type).collect();
    assert_eq!(
        kinds,
        vec![
            KeyType::Normal,
            KeyType::SliderStart,
            KeyType::SliderEnd,
            KeyType::SliderStart,
            KeyType::Mine,
            KeyType::Fake,
            KeyType::Unknown,
            KeyType::Empty
        ]
    );
    assert_eq!(sm_row_to_chars(&r), vec!['1', '2', '3', '2', 'M', 'F', '0', '0']);
    assert_eq!(get_sm_note_type('4'), Key::slider_start(None));
}

#[test]
fn sm_grid_rows_and_times() {
    let measures = vec![vec![row("1000"), row("0000"), row("0100"), row("0000")], vec![row("0010"), row("0001")]];
    let h = notes_to_hitobjects(&measures, 0, &vec![0], &vec![120_000], &vec![TimingChangeType::Bpm]).unwrap();
    assert_eq!(h.beats, vec![0, 1920, 3840, 5760]);
    assert_eq!(h.times, vec![0, 1000, 2000, 3000]);
}

#[test]
fn sm_stop_gives_halt_and_resume() {
    let tp = sm_timing_points(0, &vec![0, 3840], &vec![120_000, 500], &vec![TimingChangeType::Bpm, TimingChangeType::Stop]).unwrap();
    // a stop's own beat counts it as passed: its halt comes after its pause
    assert_eq!(tp.times, vec![0, 2500, 3000]);
    assert_eq!(tp.beats, vec![0, 3840, 3840]);
    assert_eq!(tp.changes[1].change_type, TimingChangeType::Sv);
    assert_eq!(tp.changes[1].value, 0);
    assert_eq!(tp.changes[2].value, 1000);
}

#[test]
fn quaver_lanes_widen_key_count() {
    let objs = vec![
        QuaverHitObject { time: 0, lane: 1, end_time: 0, keysound: None },
        QuaverHitObject { time: 500, lane: 9, end_time: 1000, keysound: None },
    ];
    let (h, kc) = process_notes(&objs, 7, 0, &vec![0], &vec![120_000]).unwrap();
    assert_eq!(kc, 9);
    assert_eq!(h.rows.len(), 3);
    assert_eq!(h.rows[0].len(), 9);
    assert_eq!(h.rows[1][8], Key::slider_start(Some(1000)));
    assert_eq!(h.rows[2][8].key_type, KeyType::SliderEnd);
    assert!(process_notes(&vec![QuaverHitObject { time: 0, lane: 0, end_time: 0, keysound: None }], 4, 0, &vec![0], &vec![1]).is_err());
}

#[test]
fn quaver_modes() {
    assert_eq!(quaver_key_count("Keys4"), Ok(4));
    assert_eq!(quaver_key_count("Keys7"), Ok(7));
    assert!(quaver_key_count("Keys5").is_err());
    assert_eq!(quaver_mode_label(4), Ok("Keys4"));
    assert_eq!(quaver_mode_label(8), Ok("Keys7"));
    match quaver_mode_label(5) {
        Err(WriteError::InvalidKeyCount(n, _, _)) => assert_eq!(n, 5),
        _ => panic!("expected a key count error"),
    }
}

#[test]
fn chart_round_trip_through_osu_records() {
    let points = vec![OsuTimingPoint { time: 0, beat_length_us: 500_000, uninherited: true }];
    let objs = vec![
        OsuHitObject { x: 64, time: 0, kind: 1, end_time: 0, hitsound: 0, volume: 0, sample: None },
        OsuHitObject { x: 192, time: 500, kind: HOLD_NOTE, end_time: 1000, hitsound: 0, volume: 0, sample: None },
        OsuHitObject { x: 448, time: 1000, kind: 1, end_time: 0, hitsound: 0, volume: 0, sample: None },
    ];
    let chart = build_osu_chart(Metadata::empty(), ChartInfo::empty(), SoundBank::new(), &points, &objs).unwrap();
    let written = osu_hit_object_records(&chart);
    assert_eq!(written, objs);
    let again = build_osu_chart(Metadata::empty(), ChartInfo::empty(), SoundBank::new(), &osu_timing_records(&chart.timing_points), &written).unwrap();
    assert_eq!(again.hitobjects.rows, chart.hitobjects.rows);
    assert_eq!(again.chartinfo.key_count, chart.chartinfo.key_count);
    let q = quaver_hit_object_records(&chart);
    assert_eq!(q[1], QuaverHitObject { time: 500, lane: 2, end_time: 1000, keysound: None });
    assert_eq!(note_records(&chart.hitobjects, 4).len(), 3);
}

#[test]
fn sm_chart_builds() {
    let measures = vec![vec![row("1000"), row("0100"), row("0010"), row("0001")]];
    let c = build_sm_chart(Metadata::empty(), ChartInfo::empty(), vec![0], vec![120_000], vec![3840], vec![500], &measures).unwrap();
    assert_eq!(c.hitobjects.rows.len(), 4);
    assert_eq!(c.timing_points.times.len(), 3);
}

#[test]
fn qua_chart_builds() {
    let changes = vec![TimelineTimingPoint { time: 0, value: 120_000, change_type: TimingChangeType::Bpm }];
    let objs = vec![QuaverHitObject { time: 1000, lane: 2, end_time: 0, keysound: None }];
    let c = build_qua_chart(Metadata::empty(), ChartInfo::empty(), SoundBank::new(), &changes, &objs).unwrap();
    assert_eq!(c.hitobjects.beats, vec![1920]);
    assert_eq!(c.hitobjects.rows[0][1].key_type, KeyType::Normal);
    assert!(is_valid_tempo_list(&vec![0, 10], &vec![1, 2]));
    assert!(!is_valid_tempo_list(&vec![10, 0], &vec![1, 2]));
}

#[test]
fn osu_lines_are_read() {
    assert_eq!(
        parse_hitobject("64,192,1000,1,0,0:0:0:0:").unwrap(),
        OsuHitObject { x: 64, time: 1000, kind: 1, end_time: 0, hitsound: 0, volume: 0, sample: None }
    );
    assert_eq!(
        parse_hitobject("192,192,500,128,0,1500:0:0:0:0:").unwrap(),
        OsuHitObject { x: 192, time: 500, kind: HOLD_NOTE, end_time: 1500, hitsound: 0, volume: 0, sample: None }
    );
    assert!(parse_hitobject("64,192").is_err());
    assert!(parse_hitobject("a,192,1000,1,0").is_err());
    assert_eq!(
        parse_timing_point("100,333.3333,4,1,0,100,1,0").unwrap(),
        OsuTimingPoint { time: 100, beat_length_us: 333_333, uninherited: true }
    );
    assert_eq!(
        parse_timing_point("200,-50,4,1,0,100,0,0").unwrap(),
        OsuTimingPoint { time: 200, beat_length_us: -50_000, uninherited: false }
    );
    assert!(parse_timing_point("200,-50,4,1,0,100,2,0").is_err());
}

#[test]
fn numbers_are_read() {
    assert_eq!(parse_int(b"-42"), Some(-42));
    assert_eq!(parse_int(b"+7"), Some(7));
    assert_eq!(parse_int(b"4x"), None);
    assert_eq!(parse_int(b""), None);
    assert_eq!(parse_decimal_milli(b"0.5"), Some(500));
    assert_eq!(parse_decimal_milli(b"-66.6666"), Some(-66_666));
    assert_eq!(parse_decimal_milli(b"12"), Some(12_000));
    assert_eq!(parse_decimal_milli(b"1.2.3"), None);
    assert_eq!(split_fields(b"a,,b", b','), vec![b"a".to_vec(), vec![], b"b".to_vec()]);
}

#[test]
fn sm_lists_and_grid_are_read() {
    let (b, v) = parse_beats("0.000=120.000,\n4.000=150.5, bad, 2.333=60");
    assert_eq!(b, vec![0, 3840, 2240]);
    assert_eq!(v, vec![120_000, 150_500, 60_000]);
    let g = parse_notes_grid("\n1000\n0000\n  0100 \n0000\n,\n0010\n0001\n");
    assert_eq!(g.len(), 2);
    assert_eq!(g[0].len(), 4);
    assert_eq!(g[1].len(), 2);
    assert_eq!(g[0][2][1].key_type, KeyType::Normal);
    assert_eq!(g[1][1][3].key_type, KeyType::Normal);
}

#[test]
fn measure_padding_finest_subdivision() {
    let h = grid(&[0, 20], &["1000", "0100"]);
    let m = pad_measure(&h, &MeasureRange(0, 2, false));
    assert_eq!(m.len(), 192);
    assert_eq!(m[0], h.rows[0]);
    assert_eq!(m[1], h.rows[1]);
    assert_eq!(m[2], vec![Key::empty(); 4]);
}

#[test]
fn lane_coordinates_read_back() {
    for k in 1..=128usize {
        for c in 0..k {
            assert_eq!(coords_to_column(column_to_coords(c, k) as u32, k as u8), c);
        }
    }
}

#[test]
fn osu_sounds_are_kept() {
    let objs = vec![
        OsuHitObject { x: 64, time: 0, kind: 1, end_time: 0, hitsound: 2, volume: 50, sample: None },
        OsuHitObject { x: 192, time: 0, kind: 1, end_time: 0, hitsound: 0, volume: 70, sample: Some(3) },
        OsuHitObject { x: 320, time: 500, kind: 1, end_time: 0, hitsound: 0, volume: 0, sample: None },
    ];
    let h = process_hitobjects(&objs, 4, 0, &vec![0], &vec![120_000]);
    assert_eq!(h.keysounds[0].len(), 4);
    assert_eq!(h.keysounds[0].get(0), KeySound::of_type(50, HitSoundType::Whistle));
    assert_eq!(h.keysounds[0].get(1), KeySound::with_custom(70, 3, Some(HitSoundType::Normal)));
    assert_eq!(h.keysounds[0].get(2), KeySound::normal(100));
    assert!(h.keysounds[1].is_marked_empty());
    let points = vec![OsuTimingPoint { time: 0, beat_length_us: 500_000, uninherited: true }];
    let chart = build_osu_chart(Metadata::empty(), ChartInfo::empty(), SoundBank::new(), &points, &objs).unwrap();
    assert_eq!(osu_hit_object_records(&chart), objs);
    let q = quaver_hit_object_records(&chart);
    assert_eq!(q[0].keysound, Some(KeySound::of_type(50, HitSoundType::Whistle)));
    assert_eq!(q[2].keysound, None);
}

#[test]
fn osu_hit_sample_volume_is_read() {
    let o = parse_hitobject("64,192,1000,1,2,0:0:0:60:clap.wav").unwrap();
    assert_eq!((o.hitsound, o.volume, o.sample), (2, 60, None));
    let h = parse_hitobject("64,192,1000,128,0,1500:0:0:0:40:a-very-long-sample-file-name.wav").unwrap();
    assert_eq!((h.end_time, h.volume), (1500, 40));
}

#[test]
fn quaver_sounds_and_widening() {
    assert_eq!(quaver_keysound(HitSoundType::Normal, None), None);
    assert_eq!(quaver_keysound(HitSoundType::Clap, None), Some(KeySound::of_type(100, HitSoundType::Clap)));
    // sample numbers are 1-based in Quaver files
    assert_eq!(quaver_keysound(HitSoundType::Normal, Some((2, 30))), Some(KeySound::with_custom(30, 1, None)));
    assert_eq!(quaver_hitsound("Clap"), HitSoundType::Clap);
    assert_eq!(quaver_hitsound("WHISTLE"), HitSoundType::Whistle);
    assert_eq!(quaver_hitsound("finish"), HitSoundType::Finish);
    assert_eq!(quaver_hitsound("Drum"), HitSoundType::Normal);
    assert_eq!(quaver_sound_effect(10, 3, 80), SoundEffect::new(10, 80, 2));
    let objs = vec![
        QuaverHitObject { time: 0, lane: 10, end_time: 0, keysound: None },
        QuaverHitObject { time: 100, lane: 8, end_time: 0, keysound: None },
    ];
    let (h, kc) = process_notes(&objs, 7, 0, &vec![0], &vec![120_000]).unwrap();
    assert_eq!(kc, 10);
    assert_eq!(h.rows[0][9].key_type, KeyType::Normal);
}

#[test]
fn builders_refuse_bad_tempo() {
    let measures = vec![vec![row("1000")]];
    assert!(build_sm_chart(Metadata::empty(), ChartInfo::empty(), vec![0], vec![0], vec![], vec![], &measures).is_err());
    assert!(build_sm_chart(Metadata::empty(), ChartInfo::empty(), vec![0], vec![-5_000], vec![], vec![], &measures).is_err());
    let sv_only = vec![TimelineTimingPoint { time: 0, value: 1000, change_type: TimingChangeType::Sv }];
    let objs = vec![QuaverHitObject { time: 0, lane: 1, end_time: 0, keysound: None }];
    assert!(build_qua_chart(Metadata::empty(), ChartInfo::empty(), SoundBank::new(), &sv_only, &objs).is_err());
    let zero = vec![TimelineTimingPoint { time: 0, value: 0, change_type: TimingChangeType::Bpm }];
    assert!(build_qua_chart(Metadata::empty(), ChartInfo::empty(), SoundBank::new(), &zero, &objs).is_err());
    let wide = vec![QuaverHitObject { time: 0, lane: 300, end_time: 0, keysound: None }];
    let ok = vec![TimelineTimingPoint { time: 0, value: 120_000, change_type: TimingChangeType::Bpm }];
    assert!(build_qua_chart(Metadata::empty(), ChartInfo::empty(), SoundBank::new(), &ok, &wide).is_err());
    let bad = vec![OsuTimingPoint { time: 0, beat_length_us: -1, uninherited: true }];
    assert!(build_osu_chart(Metadata::empty(), ChartInfo::empty(), SoundBank::new(), &bad, &vec![]).is_err());
}

#[test]
fn chart_counts_rows_and_notes() {
    let measures = vec![vec![row("1100"), row("0000"), row("0010"), row("0000")]];
    let c = build_sm_chart(Metadata::empty(), ChartInfo::empty(), vec![0], vec![120_000], vec![], vec![], &measures).unwrap();
    assert_eq!(c.chartinfo.row_count, 2);
    assert_eq!(c.chartinfo.object_count, 3);
}

#[test]
fn sm_row_reads_one_cell_per_char() {
    let r = parse_keys_in_row("1é0");
    assert_eq!(r.len(), 3);
    assert_eq!(r[1].key_type, KeyType::Unknown);
}

#[test]
fn quaver_error_names_the_format() {
    match quaver_mode_label(6) {
        Err(WriteError::InvalidKeyCount(n, supported, format)) => {
            assert_eq!(n, 6);
            assert_eq!(supported, "4k, 7k and 7k+1");
            assert_eq!(format, "Quaver");
        }
        _ => panic!("expected a key count error"),
    }
}
