use chart_converter::chart::{ChartInfo, Metadata};
use chart_converter::common::{Key, KeyType, TimingChangeType};
use chart_converter::sound::{HitSoundType, KeySound, KeySoundRow, SoundBank, SoundEffect};
use chart_converter::timeline::{Timeline, TimelineHitObject, TimelineTimingPoint};
use chart_converter::timing_points::{TimingChange, TimingPoints};

#[test]
fn sound_bank_deduplicates_paths() {
    let mut bank = SoundBank::new();
    assert!(bank.is_empty());
    assert_eq!(bank.add_sound_sample("a.wav".to_string()), 0);
    assert_eq!(bank.add_sound_sample("b.wav".to_string()), 1);
    assert_eq!(bank.add_sound_sample("a.wav".to_string()), 0);
    assert_eq!(bank.get_index_sample(&"b.wav".to_string()), Some(1));
    assert!(bank.contains_path(&"a.wav".to_string()));
    assert_eq!(bank.sample_count(), 2);
    assert_eq!(bank.get_sample_paths(), vec!["a.wav".to_string(), "b.wav".to_string()]);
    assert!(!bank.is_empty());
}

#[test]
fn sound_bank_indexed_samples() {
    let mut bank = SoundBank::new();
    bank.add_sound_sample_with_index(3, "c.wav".to_string());
    assert_eq!(bank.get_sample_paths().len(), 4);
    assert_eq!(bank.get_sound_sample(3), Some("c.wav".to_string()));
    assert_eq!(bank.get_sound_sample(1), None);
    assert_eq!(bank.sample_count(), 1);
    bank.add_sound_sample_with_index(3, "d.wav".to_string());
    assert!(!bank.contains_path(&"c.wav".to_string()));
    assert_eq!(bank.get_index_sample(&"d.wav".to_string()), Some(3));
    bank.add_sound_sample_with_index(0, String::new());
    assert_eq!(bank.sample_count(), 1);
    bank.add_sound_effect(SoundEffect::new(10, 80, 3));
    assert_eq!(bank.sound_effects.len(), 1);
}

#[test]
fn key_sounds() {
    assert_eq!(KeySound::clap(50).hitsound_type, HitSoundType::Clap);
    assert_eq!(KeySound::with_custom(70, 2, None).sample, Some(2));
    let row = KeySoundRow::with_unwrap(&[None, Some(KeySound::finish(20))]);
    assert_eq!(row.len(), 2);
    assert_eq!(row.get(0), KeySound::normal(100));
    assert_eq!(row.get(1).hitsound_type, HitSoundType::Finish);
    assert!(KeySoundRow::with_capacity(3).is_empty);
    assert_eq!(KeySoundRow::with_capacity(3).get_sounds().len(), 3);
}

#[test]
fn keys_and_defaults() {
    assert_eq!(Key::slider_start(Some(5)).slider_end_time(), Some(5));
    assert_eq!(Key::mine().key_type, KeyType::Mine);
    assert_eq!(Key::fake().key_type, KeyType::Fake);
    assert_eq!(Key::unknown().key_type, KeyType::Unknown);
    let m = Metadata::empty();
    assert_eq!(m.title, "Unknown Title");
    assert_eq!(m.creator, "Unknown Creator");
    let c = ChartInfo::empty();
    assert_eq!(c.key_count, 4);
}

#[test]
fn timeline_sorts_and_inserts() {
    let mut t: Timeline<TimelineHitObject> = Timeline::new();
    t.add(TimelineHitObject { time: 50, column: 0, key: Key::normal(), keysound: None });
    t.add(TimelineHitObject { time: 10, column: 1, key: Key::normal(), keysound: None });
    assert_eq!(t.len(), 2);
    t.sort();
    t.add_sorted(TimelineHitObject { time: 20, column: 2, key: Key::normal(), keysound: None });
    let mut tp = TimingPoints::with_capacity(2);
    let mut tt: Timeline<TimelineTimingPoint> = Timeline::with_capacity(2);
    tt.add(TimelineTimingPoint { time: 1000, value: 60_000, change_type: TimingChangeType::Bpm });
    tt.add(TimelineTimingPoint { time: 0, value: 120_000, change_type: TimingChangeType::Bpm });
    tt.to_timing_points(&mut tp, 0);
    assert_eq!(tp.times, vec![0, 1000]);
    assert_eq!(tp.beats, vec![0, 1920]);
    assert_eq!(tp.changes[0], TimingChange { change_type: TimingChangeType::Bpm, value: 120_000 });
    assert!(tp.is_sv_empty());
    assert!(!t.is_empty());
}

#[test]
fn sound_bank_index_holds_its_path() {
    let mut bank = SoundBank::new();
    let i = bank.add_sound_sample("hit.wav".to_string());
    let j = bank.add_sound_sample("hit.wav".to_string());
    assert_eq!(i, j);
    assert_eq!(bank.get_sound_sample(j), Some("hit.wav".to_string()));
    bank.add_sound_sample_with_index(5, "a.wav".to_string());
    bank.add_sound_sample_with_index(7, "a.wav".to_string());
    bank.add_sound_sample_with_index(5, "b.wav".to_string());
    // the path that stood at slot 5 is forgotten, whatever index it had
    assert_eq!(bank.get_index_sample(&"a.wav".to_string()), None);
    assert_eq!(bank.get_sound_sample(7), Some("a.wav".to_string()));
    assert_eq!(bank.get_index_sample(&"b.wav".to_string()), Some(5));
}

#[test]
fn sample_events_cap_volume() {
    let mut bank = SoundBank::new();
    let i = bank.add_sample_event(100, 150, "s.wav".to_string());
    let j = bank.add_sample_event(200, 40, "s.wav".to_string());
    assert_eq!(i, j);
    assert_eq!(bank.sound_effects, vec![SoundEffect::new(100, 100, i), SoundEffect::new(200, 40, i)]);
}
