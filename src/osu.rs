//! osu!mania's encodings: lanes as x coordinates, tempo as beat lengths,
//! hold notes as start and end events, and the game-mode check.
use vstd::prelude::*;
use vstd::string::{StringExecFns, StringSliceAdditionalSpecFns};
use crate::common::{GameMode, Key, KeyType, TimingChangeType, MAX_MILLI_BPM, MAX_SEGMENTS};
use crate::errors::ParseError;
use crate::numbers::{
    MAX_DIGITS, index_of, int_of, lemma_index_of_public, milli_of_decimal, parse_decimal_milli,
    parse_int, split_fields, split_on,
};
use crate::hitobjects::HitObjects;
use crate::sound::{HitSoundType, KeySound, builtin_sound};
use crate::rhythm::valid_tempo_list;
use crate::timeline::TimelineItem;
use crate::timeline::{
    Timeline, TimelineHitObject, TimelineTimingPoint, timing_entries, insert_by_time, holds_groups, nonempty_groups, row_groups, sorted_by_time,
    timeline_of,
};
use crate::timing_points::{TimingChange, TimingPoints, times_of_kind, values_of_kind};
use crate::timeline::lemma_entries_tempo_list;

verus! {

/// Width of the osu! playfield in coordinate units.
pub const PLAYFIELD_WIDTH: u64 = 512;

/// Microseconds per minute times a thousand: `milli_bpm = this / beat_length_us`.
pub const BEAT_LENGTH_SCALE: i64 = 60_000_000_000;

/// Scroll velocity (thousandths) given to a zero beat length.
pub const SV_FOR_ZERO_BEAT_LENGTH: i64 = 10_000_000;

/// Lane of an x coordinate: `floor(x * key_count / 512)`.
pub fn coords_to_column(coords: u32, key_count: u8) -> (r: usize)
    ensures
        r == (coords as int) * (key_count as int) / 512,
{
    proof {
        assert((coords as int) * (key_count as int) <= 0xffff_ffff * 255) by (nonlinear_arith)
            requires
                coords <= 0xffff_ffff,
                key_count <= 255,
        ;
        assert((coords as int) * (key_count as int) / 512 <= 0x7fff_ffff) by (nonlinear_arith)
            requires
                (coords as int) * (key_count as int) <= 0xffff_ffff * 255,
        ;
    }
    ((coords as u64) * (key_count as u64) / PLAYFIELD_WIDTH) as usize
}

/// x coordinate written for a lane: the centre of its share of the
/// playfield, `floor(column * 512 / key_count) + floor(256 / key_count)`.
pub fn column_to_coords(column: usize, key_count: usize) -> (r: u64)
    requires
        key_count > 0,
        column < key_count,
    ensures
        r == (column as int) * 512 / (key_count as int) + 256int / (key_count as int),
        r < 512,
{
    proof {
        let k = key_count as int;
        let c = column as int;
        let f = c * 512 / k;
        let g = 256int / k;
        assert(f * k <= c * 512 && g * k <= 256) by (nonlinear_arith)
            requires
                k > 0,
                c >= 0,
                f == c * 512 / k,
                g == 256int / k,
        ;
        assert((f + g) * k < 512 * k) by (nonlinear_arith)
            requires
                f * k <= c * 512,
                g * k <= 256,
                c < k,
        ;
        assert(f + g < 512) by (nonlinear_arith)
            requires
                (f + g) * k < 512 * k,
                k > 0,
        ;
    }
    ((column as u128) * 512 / (key_count as u128) + 256 / (key_count as u128)) as u64
}

/// For up to 128 lanes, the x coordinate written for a lane reads back as
/// the same lane.
pub proof fn lemma_lane_round_trip(column: int, key_count: int)
    requires
        1 <= key_count <= 128,
        0 <= column < key_count,
    ensures
        ((column * 512 / key_count + 256int / key_count) * key_count) / 512 == column,
{
    let k = key_count;
    let c = column;
    let f = c * 512 / k;
    let g = 256int / k;
    assert(f * k <= c * 512 && c * 512 < (f + 1) * k && g * k <= 256 && 256 < (g + 1) * k) by (nonlinear_arith)
        requires
            k >= 1,
            c >= 0,
            f == c * 512 / k,
            g == 256int / k,
    ;
    let x = (f + g) * k;
    assert(c * 512 <= x && x < (c + 1) * 512) by (nonlinear_arith)
        requires
            f * k <= c * 512,
            c * 512 < (f + 1) * k,
            g * k <= 256,
            256 < (g + 1) * k,
            x == (f + g) * k,
            1 <= k <= 128,
    ;
    assert(x / 512 == c) by (nonlinear_arith)
        requires
            c * 512 <= x,
            x < (c + 1) * 512,
    ;
}

/// Tempo (thousandths of a BPM) of a beat length in microseconds.
pub fn beatlength_to_bpm(beat_length_us: i64) -> (r: i64)
    requires
        beat_length_us > 0,
    ensures
        r == BEAT_LENGTH_SCALE / beat_length_us,
{
    BEAT_LENGTH_SCALE / beat_length_us
}

/// Scroll velocity (thousandths) of an inherited point's beat length in
/// microseconds: `-100 / beat_length` as a multiplier, rounded toward zero;
/// a fixed extreme value for a zero length.
pub open spec fn multiplier_of(beat_length_us: int) -> int {
    if beat_length_us == 0 {
        SV_FOR_ZERO_BEAT_LENGTH as int
    } else if beat_length_us < 0 {
        100_000_000int / (-beat_length_us)
    } else {
        -(100_000_000int / beat_length_us)
    }
}

pub fn beatlength_to_multiplier(beat_length_us: i64) -> (r: i64)
    requires
        beat_length_us > i64::MIN,
    ensures
        r == multiplier_of(beat_length_us as int),
{
    if beat_length_us == 0 {
        SV_FOR_ZERO_BEAT_LENGTH
    } else if beat_length_us < 0 {
        100_000_000i64 / (-beat_length_us)
    } else {
        -(100_000_000i64 / beat_length_us)
    }
}

/// Beat length (microseconds) of a tempo in thousandths of a BPM.
pub fn bpm_to_beatlength(bpm: i64) -> (r: i64)
    requires
        bpm > 0,
    ensures
        r == BEAT_LENGTH_SCALE / bpm,
{
    BEAT_LENGTH_SCALE / bpm
}

/// Beat length (microseconds) of an inherited point for a scroll velocity in
/// thousandths: `-100 / |multiplier|`, and -10000 ms for a zero multiplier.
pub fn multiplier_to_beatlength(multiplier: i64) -> (r: i64)
    requires
        multiplier > i64::MIN,
    ensures
        r == (if multiplier == 0 {
            -10_000_000int
        } else {
            -(100_000_000int / (if multiplier < 0 { -(multiplier as int) } else { multiplier as int }))
        }),
{
    if multiplier == 0 {
        -10_000_000
    } else {
        let m = if multiplier < 0 { -multiplier } else { multiplier };
        -(100_000_000 / m)
    }
}

/// Name of an osu! game mode number; "Unknown" for anything else.
pub open spec fn osu_mode_name(mode: Seq<u8>) -> Seq<char> {
    if mode == seq![48u8] {
        "Standard"@
    } else if mode == seq![49u8] {
        "Taiko"@
    } else if mode == seq![50u8] {
        "Catch"@
    } else if mode == seq![51u8] {
        "Mania"@
    } else {
        "Unknown"@
    }
}

/// Accepts only the mania mode (`3`); any other mode is an error naming it.
pub fn validate_mode_mania(mode: &str) -> (r: Result<bool, ParseError>)
    ensures
        mode.spec_bytes() == seq![51u8] ==> r == Ok::<bool, ParseError>(true),
        mode.spec_bytes() != seq![51u8] ==> match r {
            Err(ParseError::InvalidMode(found, expected)) => found@ == osu_mode_name(mode.spec_bytes())
                && expected == GameMode::Mania,
            _ => false,
        },
{
    let b = mode.as_bytes();
    let one = b.len() == 1;
    if one && b[0] == 51u8 {
        proof {
            assert(b@ =~= seq![51u8]);
        }
        return Ok(true);
    }
    let name = if one && b[0] == 48u8 {
        proof { assert(b@ =~= seq![48u8]); }
        String::from_str("Standard")
    } else if one && b[0] == 49u8 {
        proof { assert(b@ =~= seq![49u8]); }
        String::from_str("Taiko")
    } else if one && b[0] == 50u8 {
        proof { assert(b@ =~= seq![50u8]); }
        String::from_str("Catch")
    } else {
        proof {
            if b@ == seq![48u8] || b@ == seq![49u8] || b@ == seq![50u8] || b@ == seq![51u8] {
                assert(b@.len() == 1);
                assert(b@[0] == b[0]);
            }
        }
        String::from_str("Unknown")
    };
    Err(ParseError::InvalidMode(name, GameMode::Mania))
}

/// One `[TimingPoints]` line, as numbers: time, beat length in
/// microseconds, and whether the point sets a tempo (uninherited) rather than
/// a scroll velocity.
#[derive(Debug, Clone, Copy, PartialEq, Eq, Structural)]
pub struct OsuTimingPoint {
    pub time: i32,
    pub beat_length_us: i64,
    pub uninherited: bool,
}

/// The change a timing point stands for: a tempo of `60000 / beat_length`
/// for an uninherited point, which must be positive and within range; a
/// velocity of `-100 / beat_length` otherwise. `None` when out of range.
pub open spec fn osu_change(p: OsuTimingPoint) -> Option<TimelineTimingPoint> {
    if p.uninherited {
        if p.beat_length_us > 0 && 1 <= BEAT_LENGTH_SCALE / p.beat_length_us <= MAX_MILLI_BPM {
            Some(TimelineTimingPoint { time: p.time, value: (BEAT_LENGTH_SCALE / p.beat_length_us) as i64, change_type: TimingChangeType::Bpm })
        } else {
            None
        }
    } else if p.beat_length_us > i64::MIN {
        Some(TimelineTimingPoint { time: p.time, value: multiplier_of(p.beat_length_us as int) as i64, change_type: TimingChangeType::Sv })
    } else {
        None
    }
}

/// Every point stands for a change and there are few enough to convert.
pub open spec fn osu_points_valid(points: Seq<OsuTimingPoint>) -> bool {
    &&& points.len() <= MAX_SEGMENTS
    &&& forall|i: int| 0 <= i < points.len() ==> (#[trigger] osu_change(points[i])).is_some()
}

/// The changes of valid points, in file order.
pub open spec fn osu_changes(points: Seq<OsuTimingPoint>) -> Seq<TimelineTimingPoint> {
    Seq::new(points.len(), |i: int| osu_change(points[i]).unwrap())
}

/// Rhythmic origin of an osu! chart: its first timing point's time, or 0.
pub open spec fn osu_offset(points: Seq<OsuTimingPoint>) -> i32 {
    if points.len() > 0 { points[0].time } else { 0 }
}

/// `tp` holds the entries of the points' changes put in time order, each
/// inserted after the earlier ones of the same time (so a file already in
/// order keeps its order).
pub open spec fn osu_timing_from(tp: TimingPoints, offset: i32, points: Seq<OsuTimingPoint>) -> bool {
    let items = timeline_of(osu_changes(points));
    &&& tp.wf()
    &&& tp.times@ == timing_entries(items, offset).map_values(|e: (i32, i64, TimingChange)| e.0)
    &&& tp.beats@ == timing_entries(items, offset).map_values(|e: (i32, i64, TimingChange)| e.1)
    &&& tp.changes@ == timing_entries(items, offset).map_values(|e: (i32, i64, TimingChange)| e.2)
}

/// Reads the `[TimingPoints]` section: each point becomes a tempo or
/// velocity change at its beat from the first point's time. Fails on a tempo
/// that is not positive or out of range. Points are kept in time order as
/// they are read. Returns the timing lists and the chart's offset.
pub fn process_timing_points(points: &Vec<OsuTimingPoint>) -> (r: Result<(TimingPoints, i32), ParseError>)
    ensures
        r.is_ok() == osu_points_valid(points@),
        r.is_ok() ==> r.unwrap().1 == osu_offset(points@),
        r.is_ok() ==> osu_timing_from(r.unwrap().0, r.unwrap().1, points@),
        r.is_ok() ==> valid_tempo_list(
            times_of_kind(r.unwrap().0.times@, r.unwrap().0.changes@, TimingChangeType::Bpm),
            values_of_kind(r.unwrap().0.changes@, TimingChangeType::Bpm),
        ),
{
    if points.len() > MAX_SEGMENTS {
        return Err(ParseError::InvalidChart(String::from_str("too many timing points")));
    }
    let mut timeline: Timeline<TimelineTimingPoint> = Timeline::with_capacity(points.len());
    let mut i: usize = 0;
    while i < points.len()
        invariant
            i <= points@.len(),
            points@.len() <= MAX_SEGMENTS,
            timeline.wf(),
            forall|k: int| 0 <= k < i ==> (#[trigger] osu_change(points@[k])).is_some(),
            timeline.items() == timeline_of(osu_changes(points@).subrange(0, i as int)),
            timeline.known_sorted(),
            sorted_by_time(timeline.items()),
        decreases points@.len() - i,
    {
        let p = points[i];
        let change = if p.uninherited {
            if p.beat_length_us <= 0 || BEAT_LENGTH_SCALE / p.beat_length_us < 1
                || BEAT_LENGTH_SCALE / p.beat_length_us > MAX_MILLI_BPM {
                proof {
                    assert(osu_change(points@[i as int]).is_none());
                }
                return Err(ParseError::InvalidChart(String::from_str("a tempo point's beat length is out of range")));
            }
            TimelineTimingPoint { time: p.time, value: beatlength_to_bpm(p.beat_length_us), change_type: TimingChangeType::Bpm }
        } else {
            if p.beat_length_us == i64::MIN {
                proof {
                    assert(osu_change(points@[i as int]).is_none());
                }
                return Err(ParseError::InvalidChart(String::from_str("a velocity point's beat length is out of range")));
            }
            TimelineTimingPoint { time: p.time, value: beatlength_to_multiplier(p.beat_length_us), change_type: TimingChangeType::Sv }
        };
        timeline.add_sorted(change);
        proof {
            assert(change == osu_change(points@[i as int]).unwrap());
            let c = osu_changes(points@);
            assert(c.subrange(0, i + 1).drop_last() =~= c.subrange(0, i as int));
            assert(c.subrange(0, i + 1).last() == change);
        }
        i += 1;
    }
    let offset: i32 = if points.len() > 0 { points[0].time } else { 0 };
    let ghost changes = osu_changes(points@);
    proof {
        assert(changes.subrange(0, i as int) =~= changes);
        let items = timeline.items();
        assert forall|k: int| 0 <= k < items.len() && (#[trigger] items[k]).change_type == TimingChangeType::Bpm
            implies 0 <= items[k].value <= MAX_MILLI_BPM by {
            lemma_timeline_of_members(changes);
            let j = choose|j: int| 0 <= j < changes.len() && changes[j] == items[k];
            assert(osu_change(points@[j]).is_some());
        }
        lemma_timeline_of_len(changes);
    }
    let mut tp = TimingPoints::with_capacity(points.len());
    let ghost t0 = tp;
    timeline.to_timing_points(&mut tp, offset);
    proof {
        let items = timeline.items();
        assert(t0.times@ =~= Seq::<i32>::empty());
        assert(t0.beats@ =~= Seq::<i64>::empty());
        assert(t0.changes@ =~= Seq::<TimingChange>::empty());
        assert(tp.times@ =~= timing_entries(items, offset).map_values(|e: (i32, i64, TimingChange)| e.0));
        assert(tp.beats@ =~= timing_entries(items, offset).map_values(|e: (i32, i64, TimingChange)| e.1));
        assert(tp.changes@ =~= timing_entries(items, offset).map_values(|e: (i32, i64, TimingChange)| e.2));
        assert(osu_points_valid(points@));
        lemma_entries_tempo_list(items, offset);
    }
    Ok((tp, offset))
}

/// Every event of the time-ordered timeline is one of the given events.
pub proof fn lemma_timeline_of_members(events: Seq<TimelineTimingPoint>)
    ensures
        forall|k: int| 0 <= k < timeline_of(events).len() ==> exists|j: int| 0 <= j < events.len() && events[j] == #[trigger] timeline_of(events)[k],
    decreases events.len(),
{
    if events.len() > 0 {
        let prev = events.drop_last();
        lemma_timeline_of_members(prev);
        let t = timeline_of(prev);
        let x = events.last();
        lemma_insert_by_time_members(t, x);
        assert forall|k: int| 0 <= k < timeline_of(events).len() implies exists|j: int| 0 <= j < events.len() && events[j] == #[trigger] timeline_of(events)[k] by {
            let u = timeline_of(events);
            if u[k] == x {
                assert(events[events.len() - 1] == x);
            } else {
                let m = choose|m: int| 0 <= m < t.len() && t[m] == u[k];
                let j = choose|j: int| 0 <= j < prev.len() && prev[j] == t[m];
                assert(events[j] == prev[j]);
            }
        }
    }
}

proof fn lemma_insert_by_time_members(s: Seq<TimelineTimingPoint>, x: TimelineTimingPoint)
    ensures
        insert_by_time(s, x).len() == s.len() + 1,
        forall|k: int| 0 <= k < insert_by_time(s, x).len() ==> #[trigger] insert_by_time(s, x)[k] == x || exists|m: int| 0 <= m < s.len() && s[m] == insert_by_time(s, x)[k],
    decreases s.len(),
{
    if s.len() > 0 && x.spec_time() < s.last().spec_time() {
        let p = s.drop_last();
        lemma_insert_by_time_members(p, x);
        assert forall|k: int| 0 <= k < insert_by_time(s, x).len() implies #[trigger] insert_by_time(s, x)[k] == x || exists|m: int| 0 <= m < s.len() && s[m] == insert_by_time(s, x)[k] by {
            let u = insert_by_time(s, x);
            if k == u.len() - 1 {
                assert(s[s.len() - 1] == u[k]);
            } else if u[k] != x {
                let m = choose|m: int| 0 <= m < p.len() && p[m] == insert_by_time(p, x)[k];
                assert(s[m] == p[m]);
            }
        }
    } else if s.len() > 0 {
        assert forall|k: int| 0 <= k < insert_by_time(s, x).len() implies #[trigger] insert_by_time(s, x)[k] == x || exists|m: int| 0 <= m < s.len() && s[m] == insert_by_time(s, x)[k] by {
            if k < s.len() {
                assert(s[k] == insert_by_time(s, x)[k]);
            }
        }
    }
}

/// The time-ordered timeline holds as many events as were given.
pub proof fn lemma_timeline_of_len(events: Seq<TimelineTimingPoint>)
    ensures
        timeline_of(events).len() == events.len(),
    decreases events.len(),
{
    if events.len() > 0 {
        lemma_timeline_of_len(events.drop_last());
        lemma_insert_by_time_members(timeline_of(events.drop_last()), events.last());
    }
}

/// One `[HitObjects]` line, as numbers: x coordinate, time, type flags,
/// (for a hold note) the end time, the hit sound, the sample volume, and the
/// sound bank index of its custom sample file, if any.
#[derive(Debug, Clone, Copy, PartialEq, Eq, Structural)]
pub struct OsuHitObject {
    pub x: u32,
    pub time: i32,
    pub kind: u8,
    pub end_time: i32,
    pub hitsound: u8,
    pub volume: u8,
    pub sample: Option<usize>,
}

/// The built-in sound an osu! hit sound number stands for.
pub open spec fn osu_hitsound_type(hitsound: u8) -> HitSoundType {
    if hitsound == 1 {
        HitSoundType::Clap
    } else if hitsound == 2 {
        HitSoundType::Whistle
    } else if hitsound == 3 {
        HitSoundType::Finish
    } else {
        HitSoundType::Normal
    }
}

/// The sound of a hit object: its custom sample when it has one; otherwise
/// its built-in hit sound, none for a plain normal sound. Volume at most 100.
pub open spec fn osu_keysound(o: OsuHitObject) -> Option<KeySound> {
    let t = osu_hitsound_type(o.hitsound);
    let v: u8 = if o.volume > 100 { 100 } else { o.volume };
    match o.sample {
        Some(i) => Some(KeySound { volume: v, hitsound_type: t, sample: Some(i), has_custom: true }),
        None => if t == HitSoundType::Normal {
            None
        } else {
            Some(builtin_sound(v, t))
        },
    }
}

/// The sound of a hit object (see `osu_keysound`).
pub fn osu_keysound_of(o: &OsuHitObject) -> (r: Option<KeySound>)
    ensures
        r == osu_keysound(*o),
{
    let t = match o.hitsound {
        1u8 => HitSoundType::Clap,
        2u8 => HitSoundType::Whistle,
        3u8 => HitSoundType::Finish,
        _ => HitSoundType::Normal,
    };
    let v: u8 = if o.volume > 100 { 100 } else { o.volume };
    match o.sample {
        Some(i) => Some(KeySound::with_custom(v, i, Some(t))),
        None => if t == HitSoundType::Normal { None } else { Some(KeySound::of_type(v, t)) },
    }
}

/// Type flag of a mania hold note.
pub const HOLD_NOTE: u8 = 128;

/// Timeline events of one hit object: a hold note gives a slider start (with
/// its end time and sound) and a slider end; an object with the circle bit a
/// note with its sound; anything else nothing.
pub open spec fn object_events(o: OsuHitObject, key_count: u8) -> Seq<TimelineHitObject> {
    let column = ((o.x as int) * (key_count as int) / 512) as usize;
    if o.kind == HOLD_NOTE {
        seq![
            TimelineHitObject { time: o.time, column, key: Key { key_type: KeyType::SliderStart, slider_end_time: Some(o.end_time) }, keysound: osu_keysound(o) },
            TimelineHitObject { time: o.end_time, column, key: Key { key_type: KeyType::SliderEnd, slider_end_time: None }, keysound: None },
        ]
    } else if o.kind % 2 == 1 {
        seq![TimelineHitObject { time: o.time, column, key: Key { key_type: KeyType::Normal, slider_end_time: None }, keysound: osu_keysound(o) }]
    } else {
        seq![]
    }
}

/// Events of the first `n` hit objects, in order.
pub open spec fn osu_events(objs: Seq<OsuHitObject>, key_count: u8) -> Seq<TimelineHitObject>
    decreases objs.len(),
{
    if objs.len() == 0 {
        seq![]
    } else {
        osu_events(objs.drop_last(), key_count) + object_events(objs.last(), key_count)
    }
}

proof fn lemma_timeline_of_push(events: Seq<TimelineHitObject>, x: TimelineHitObject)
    ensures
        timeline_of(events.push(x)) == crate::timeline::insert_by_time(timeline_of(events), x),
{
    assert(events.push(x).drop_last() =~= events);
}

/// Builds the row grid of an osu!mania chart's hit objects: each object
/// placed in its lane, hold notes as a start and an end event, events kept in
/// time order, then folded into rows at their beats from `offset`.
pub fn process_hitobjects(
    objs: &Vec<OsuHitObject>,
    key_count: u8,
    offset: i32,
    bpm_times: &Vec<i32>,
    bpms: &Vec<i64>,
) -> (r: HitObjects)
    requires
        valid_tempo_list(bpm_times@, bpms@),
    ensures
        r.wf(),
        holds_groups(
            r,
            nonempty_groups(row_groups(timeline_of(osu_events(objs@, key_count)), key_count as nat)),
            offset,
            bpm_times@,
            bpms@,
        ),
{
    let mut timeline: Timeline<TimelineHitObject> = Timeline::with_capacity(objs.len());
    let mut i: usize = 0;
    while i < objs.len()
        invariant
            i <= objs@.len(),
            timeline.wf(),
            sorted_by_time(timeline.items()),
            timeline.items() == timeline_of(osu_events(objs@.subrange(0, i as int), key_count)),
        decreases objs@.len() - i,
    {
        let o = objs[i];
        let ghost before = osu_events(objs@.subrange(0, i as int), key_count);
        proof {
            assert(objs@.subrange(0, i + 1).drop_last() =~= objs@.subrange(0, i as int));
        }
        let column = coords_to_column(o.x, key_count);
        let sound = osu_keysound_of(&o);
        if o.kind == HOLD_NOTE {
            let start = TimelineHitObject { time: o.time, column, key: Key::slider_start(Some(o.end_time)), keysound: sound };
            let end = TimelineHitObject { time: o.end_time, column, key: Key::slider_end(), keysound: None };
            timeline.add_sorted(start);
            timeline.add_sorted(end);
            proof {
                lemma_timeline_of_push(before, start);
                lemma_timeline_of_push(before.push(start), end);
                assert(before + object_events(o, key_count) =~= before.push(start).push(end));
            }
        } else if o.kind % 2 == 1 {
            let note = TimelineHitObject { time: o.time, column, key: Key::normal(), keysound: sound };
            timeline.add_sorted(note);
            proof {
                lemma_timeline_of_push(before, note);
                assert(before + object_events(o, key_count) =~= before.push(note));
            }
        } else {
            proof {
                assert(before + object_events(o, key_count) =~= before);
            }
        }
        i += 1;
    }
    proof {
        assert(objs@.subrange(0, i as int) =~= objs@);
    }
    timeline.to_new_hitobjects(key_count as usize, offset, bpm_times, bpms)
}

/// Text before the first `:`.
pub open spec fn before_colon(s: Seq<u8>) -> Seq<u8> {
    s.subrange(0, index_of(s, 58u8))
}

/// Volume of a line's hit sample: its fourth `:`-separated part (fifth for
/// a hold note, whose end time comes first), or 0 when it is missing, longer
/// than 18 characters or not a byte.
pub open spec fn sample_volume(f: Seq<Seq<u8>>, hold: bool) -> u8 {
    let parts = if f.len() > 5 { split_on(f[5], 58u8) } else { seq![] };
    let idx: int = if hold { 4 } else { 3 };
    if parts.len() > idx && parts[idx].len() <= MAX_DIGITS && int_of(parts[idx]).is_some()
        && 0 <= int_of(parts[idx]).unwrap() <= 255 {
        int_of(parts[idx]).unwrap() as u8
    } else {
        0
    }
}

/// The hit object a `[HitObjects]` line describes: x, y, time, type and hit
/// sound as integers in their ranges, for a hold note the end time that
/// opens the sixth field, and the sample volume; no custom sample.
pub open spec fn hitobject_of_line(line: Seq<u8>) -> Option<OsuHitObject> {
    let f = split_on(line, 44u8);
    if f.len() < 5 {
        None
    } else {
        let x = int_of(f[0]);
        let y = int_of(f[1]);
        let t = int_of(f[2]);
        let k = int_of(f[3]);
        let hs = int_of(f[4]);
        if x.is_some() && 0 <= x.unwrap() <= u32::MAX && y.is_some() && 0 <= y.unwrap() <= u32::MAX
            && t.is_some() && i32::MIN <= t.unwrap() <= i32::MAX && k.is_some() && 0 <= k.unwrap() <= 255
            && hs.is_some() && 0 <= hs.unwrap() <= 255 {
            if k.unwrap() == HOLD_NOTE {
                let e = if f.len() > 5 { int_of(before_colon(f[5])) } else { None };
                if e.is_some() && i32::MIN <= e.unwrap() <= i32::MAX {
                    Some(OsuHitObject {
                        x: x.unwrap() as u32,
                        time: t.unwrap() as i32,
                        kind: HOLD_NOTE,
                        end_time: e.unwrap() as i32,
                        hitsound: hs.unwrap() as u8,
                        volume: sample_volume(f, true),
                        sample: None,
                    })
                } else {
                    None
                }
            } else {
                Some(OsuHitObject {
                    x: x.unwrap() as u32,
                    time: t.unwrap() as i32,
                    kind: k.unwrap() as u8,
                    end_time: 0,
                    hitsound: hs.unwrap() as u8,
                    volume: sample_volume(f, false),
                    sample: None,
                })
            }
        } else {
            None
        }
    }
}

fn int_field(fields: &Vec<Vec<u8>>, i: usize, lo: i64, hi: i64) -> (r: Option<i64>)
    requires
        i < fields@.len(),
    ensures
        r.is_some() ==> int_of(fields@[i as int]@) == Some(r.unwrap() as int) && lo <= r.unwrap() <= hi,
        int_of(fields@[i as int]@).is_some() && fields@[i as int]@.len() <= MAX_DIGITS && lo <= int_of(fields@[i as int]@).unwrap() <= hi ==> r.is_some(),
{
    match parse_int(fields[i].as_slice()) {
        Some(v) => if lo <= v && v <= hi { Some(v) } else { None },
        None => None,
    }
}

fn invalid_line(what: &str) -> (r: ParseError)
{
    ParseError::InvalidChart(String::from_str(what))
}

/// The numbers a hit object line is read from are at most 18 characters
/// long: its first five fields and, for a hold note, the end time.
pub open spec fn short_numbers(line: Seq<u8>) -> bool {
    let f = split_on(line, 44u8);
    &&& forall|i: int| 0 <= i < 5 && i < f.len() ==> (#[trigger] f[i]).len() <= MAX_DIGITS
    &&& f.len() > 5 ==> before_colon(f[5]).len() <= MAX_DIGITS
}

/// The numbers a timing point line is read from are short enough: integer
/// fields at most 18 characters, decimal fields at most 15 before the point.
pub open spec fn short_timing_numbers(line: Seq<u8>) -> bool {
    let f = split_on(line, 44u8);
    f.len() >= 8 ==> {
        &&& f[0].len() <= MAX_DIGITS
        &&& f[4].len() <= MAX_DIGITS
        &&& f[7].len() <= MAX_DIGITS
        &&& index_of(f[1], 46u8) <= 15
        &&& index_of(f[2], 46u8) <= 15
        &&& index_of(f[3], 46u8) <= 15
        &&& index_of(f[5], 46u8) <= 15
    }
}

/// Reads a `[HitObjects]` line; succeeds on every line that describes a hit
/// object and whose numbers are short enough to read.
pub fn parse_hitobject(line: &str) -> (r: Result<OsuHitObject, ParseError>)
    ensures
        r.is_ok() ==> hitobject_of_line(line.spec_bytes()) == Some(r.unwrap()),
        hitobject_of_line(line.spec_bytes()).is_some() && short_numbers(line.spec_bytes()) ==> r.is_ok(),
{
    let fields = split_fields(line.as_bytes(), 44u8);
    if fields.len() < 5 {
        return Err(invalid_line("a hit object needs at least five fields"));
    }
    let x = match int_field(&fields, 0, 0, 0xffff_ffff) { Some(v) => v, None => return Err(invalid_line("bad X coordinate in a hit object")) };
    let y = match int_field(&fields, 1, 0, 0xffff_ffff) { Some(v) => v, None => return Err(invalid_line("bad Y coordinate in a hit object")) };
    let t = match int_field(&fields, 2, i32::MIN as i64, i32::MAX as i64) { Some(v) => v, None => return Err(invalid_line("bad time in a hit object")) };
    let k = match int_field(&fields, 3, 0, 255) { Some(v) => v, None => return Err(invalid_line("bad note type in a hit object")) };
    let hs = match int_field(&fields, 4, 0, 255) { Some(v) => v, None => return Err(invalid_line("bad hit sound in a hit object")) };
    if k == HOLD_NOTE as i64 {
        if fields.len() < 6 {
            return Err(invalid_line("a hold note needs its end time"));
        }
        let f5 = fields[5].as_slice();
        let mut c: usize = 0;
        while c < f5.len() && f5[c] != 58u8
            invariant
                c <= f5@.len(),
                forall|j: int| 0 <= j < c ==> f5@[j] != 58u8,
            decreases f5@.len() - c,
        {
            c += 1;
        }
        proof {
            lemma_index_of_public(f5@, 58u8, c as int);
        }
        let head = slice_prefix(f5, c);
        proof {
            assert(f5@ == split_on(line.spec_bytes(), 44u8)[5]);
            assert(head@ == before_colon(f5@));
        }
        let e = match parse_int(head.as_slice()) {
            Some(v) => v,
            None => return Err(invalid_line("bad end time in a hold note")),
        };
        if e < i32::MIN as i64 || e > i32::MAX as i64 {
            return Err(invalid_line("bad end time in a hold note"));
        }
        let volume = hit_sample_volume(&fields, true);
        Ok(OsuHitObject { x: x as u32, time: t as i32, kind: HOLD_NOTE, end_time: e as i32, hitsound: hs as u8, volume, sample: None })
    } else {
        let volume = hit_sample_volume(&fields, false);
        Ok(OsuHitObject { x: x as u32, time: t as i32, kind: k as u8, end_time: 0, hitsound: hs as u8, volume, sample: None })
    }
}

fn hit_sample_volume(fields: &Vec<Vec<u8>>, hold: bool) -> (r: u8)
    requires
        fields@.len() >= 5,
    ensures
        r == sample_volume(fields@.map_values(|f: Vec<u8>| f@), hold),
{
    let ghost fv = fields@.map_values(|f: Vec<u8>| f@);
    if fields.len() <= 5 {
        return 0;
    }
    let parts = split_fields(fields[5].as_slice(), 58u8);
    let idx: usize = if hold { 4 } else { 3 };
    proof {
        assert(fv[5] == fields@[5]@);
    }
    if parts.len() <= idx || parts[idx].len() > MAX_DIGITS {
        return 0;
    }
    match parse_int(parts[idx].as_slice()) {
        Some(v) => if 0 <= v && v <= 255 { v as u8 } else { 0 },
        None => 0,
    }
}

fn slice_prefix(s: &[u8], n: usize) -> (r: Vec<u8>)
    requires
        n <= s@.len(),
    ensures
        r@ == s@.subrange(0, n as int),
{
    let mut out: Vec<u8> = Vec::with_capacity(n);
    let mut i: usize = 0;
    while i < n
        invariant
            i <= n,
            n <= s@.len(),
            out@ == s@.subrange(0, i as int),
        decreases n - i,
    {
        out.push(s[i]);
        i += 1;
        assert(out@ =~= s@.subrange(0, i as int));
    }
    out
}

/// The timing point a `[TimingPoints]` line describes: time, beat length
/// (read in microseconds), meter, sample set and index, volume, the
/// uninherited flag (`0` or `1`) and effects.
pub open spec fn timing_point_of_line(line: Seq<u8>) -> Option<OsuTimingPoint> {
    let f = split_on(line, 44u8);
    if f.len() < 8 {
        None
    } else {
        let t = int_of(f[0]);
        let bl = milli_of_decimal(f[1]);
        let flag = f[6];
        if t.is_some() && i32::MIN <= t.unwrap() <= i32::MAX && bl.is_some() && milli_of_decimal(f[2]).is_some()
            && milli_of_decimal(f[3]).is_some() && int_of(f[4]).is_some() && milli_of_decimal(f[5]).is_some()
            && (flag == seq![48u8] || flag == seq![49u8]) && int_of(f[7]).is_some() && 0 <= int_of(f[7]).unwrap() <= u32::MAX {
            Some(OsuTimingPoint { time: t.unwrap() as i32, beat_length_us: bl.unwrap() as i64, uninherited: flag == seq![49u8] })
        } else {
            None
        }
    }
}

/// Reads a `[TimingPoints]` line; succeeds on every line that describes a
/// timing point and whose numbers are short enough to read.
pub fn parse_timing_point(line: &str) -> (r: Result<OsuTimingPoint, ParseError>)
    ensures
        r.is_ok() ==> timing_point_of_line(line.spec_bytes()) == Some(r.unwrap()),
        timing_point_of_line(line.spec_bytes()).is_some() && short_timing_numbers(line.spec_bytes()) ==> r.is_ok(),
{
    let fields = split_fields(line.as_bytes(), 44u8);

    if fields.len() < 8 {
        return Err(invalid_line("a timing point needs eight fields"));
    }
    let t = match int_field(&fields, 0, i32::MIN as i64, i32::MAX as i64) { Some(v) => v, None => return Err(invalid_line("bad time in a timing point")) };
    let bl = match parse_decimal_milli(fields[1].as_slice()) { Some(v) => v, None => return Err(invalid_line("bad beat length in a timing point")) };
    if parse_decimal_milli(fields[2].as_slice()).is_none() || parse_decimal_milli(fields[3].as_slice()).is_none()
        || parse_int(fields[4].as_slice()).is_none() || parse_decimal_milli(fields[5].as_slice()).is_none() {
        return Err(invalid_line("bad meter, sample or volume in a timing point"));
    }
    let flag = &fields[6];
    let uninherited = if flag.len() == 1 && flag[0] == 49u8 {
        proof { assert(flag@ =~= seq![49u8]); }
        true
    } else if flag.len() == 1 && flag[0] == 48u8 {
        proof { assert(flag@ =~= seq![48u8]); }
        false
    } else {
        return Err(invalid_line("uninherited flag should be 0 or 1"));
    };
    if int_field(&fields, 7, 0, 0xffff_ffff).is_none() {
        return Err(invalid_line("bad effects in a timing point"));
    }
    Ok(OsuTimingPoint { time: t as i32, beat_length_us: bl, uninherited })
}

} // verus!
