//! What the writers need from a chart, as plain records: its notes with
//! their lanes and hold ends, and its timing changes in each format's terms.
use vstd::prelude::*;
use crate::chart::Chart;
use crate::common::{Key, KeyType, TimingChangeType};
use crate::helpers::{find_sliderend_time, sliderend_time_spec};
use crate::hitobjects::HitObjects;
use crate::osu::{
    OsuHitObject, OsuTimingPoint, HOLD_NOTE, bpm_to_beatlength, column_to_coords,
    multiplier_to_beatlength,
};
use crate::quaver::QuaverHitObject;
use crate::sound::{HitSoundType, KeySound, builtin_sound};
use crate::timing_points::TimingPoints;
use crate::common::{MAX_MILLI_BPM};
use crate::osu::{lemma_timeline_of_len, lemma_timeline_of_members, osu_change, osu_changes, osu_points_valid, osu_timing_from};
use crate::timeline::{timeline_of, timing_entries};

verus! {

/// One note of a chart: its time, lane, for a hold note the time it ends,
/// and its sound.
#[derive(Debug, Clone, Copy, PartialEq, Eq, Structural)]
pub struct NoteRecord {
    pub time: i32,
    pub column: usize,
    pub hold_end: Option<i32>,
    pub sound: KeySound,
}

/// The sound of lane `c` of row `i`: the row's own sound for the lane, or a
/// normal sound at full volume when the row has none.
pub open spec fn lane_sound(h: HitObjects, i: int, c: int) -> KeySound {
    let ks = h.keysounds@[i];
    if ks.empty_flag() || c >= ks@.len() { builtin_sound(100, HitSoundType::Normal) } else { ks@[c] }
}

/// The note a cell stands for: a note for `Normal`; a hold for
/// `SliderStart`, ending at its own end time or else at the next slider end
/// in its lane; nothing for other cells.
pub open spec fn cell_note(h: HitObjects, i: int, c: int) -> Option<NoteRecord> {
    let key = h.rows@[i]@[c];
    match key.key_type {
        KeyType::Normal => Some(NoteRecord { time: h.times@[i], column: c as usize, hold_end: None, sound: lane_sound(h, i, c) }),
        KeyType::SliderStart => Some(NoteRecord {
            time: h.times@[i],
            column: c as usize,
            hold_end: Some(match key.slider_end_time {
                Some(t) => t,
                None => sliderend_time_spec(i, c, h.times@, h.rows@),
            }),
            sound: lane_sound(h, i, c),
        }),
        _ => None,
    }
}

/// Notes of lanes `[0, c)` of row `i`.
pub open spec fn lane_notes(h: HitObjects, i: int, c: int) -> Seq<NoteRecord>
    decreases c,
{
    if c <= 0 {
        seq![]
    } else {
        let prev = lane_notes(h, i, c - 1);
        match cell_note(h, i, c - 1) {
            Some(n) => prev.push(n),
            None => prev,
        }
    }
}

/// Notes of rows `[0, i)`, row by row, lane by lane.
pub open spec fn row_notes(h: HitObjects, i: int) -> Seq<NoteRecord>
    decreases i,
{
    if i <= 0 {
        seq![]
    } else {
        row_notes(h, i - 1) + lane_notes(h, i - 1, h.rows@[i - 1]@.len() as int)
    }
}

/// Every row is `key_count` lanes wide.
pub open spec fn rows_width(h: HitObjects, key_count: nat) -> bool {
    forall|i: int| 0 <= i < h.rows.len() ==> (#[trigger] h.rows@[i])@.len() == key_count
}

/// All notes of the chart's rows, row by row and lane by lane.
pub fn note_records(h: &HitObjects, key_count: usize) -> (r: Vec<NoteRecord>)
    requires
        h.wf(),
        rows_width(*h, key_count as nat),
    ensures
        r@ == row_notes(*h, h.rows.len() as int),
{
    let mut out: Vec<NoteRecord> = Vec::new();
    let mut i: usize = 0;
    while i < h.rows.len()
        invariant
            i <= h.rows.len(),
            h.wf(),
            rows_width(*h, key_count as nat),
            out@ == row_notes(*h, i as int),
        decreases h.rows.len() - i,
    {
        let ghost before = out@;
        let mut c: usize = 0;
        while c < key_count
            invariant
                i < h.rows.len(),
                c <= key_count,
                h.wf(),
                rows_width(*h, key_count as nat),
                h.rows@[i as int]@.len() == key_count,
                out@ == before + lane_notes(*h, i as int, c as int),
            decreases key_count - c,
        {
            let key: Key = h.rows[i][c];
            let ks = &h.keysounds[i];
            let sound = if ks.is_marked_empty() || c >= ks.len() { KeySound::normal(100) } else { ks.get(c) };
            match key.key_type {
                KeyType::Normal => {
                    out.push(NoteRecord { time: h.times[i], column: c, hold_end: None, sound });
                },
                KeyType::SliderStart => {
                    let end = match key.slider_end_time {
                        Some(t) => t,
                        None => find_sliderend_time(i, c, &h.times, &h.rows),
                    };
                    out.push(NoteRecord { time: h.times[i], column: c, hold_end: Some(end), sound });
                },
                _ => {},
            }
            proof {
                assert(out@ =~= before + lane_notes(*h, i as int, c + 1));
            }
            c += 1;
        }
        i += 1;
    }
    out
}

/// osu! hit sound number of a built-in sound.
pub open spec fn hitsound_code(t: HitSoundType) -> u8 {
    match t {
        HitSoundType::Normal => 0,
        HitSoundType::Clap => 1,
        HitSoundType::Whistle => 2,
        HitSoundType::Finish => 3,
    }
}

/// The osu! line fields of a note: its lane's x coordinate, time, a hold
/// note's end, its hit sound, its volume (full volume written as 0), and its
/// custom sample.
pub open spec fn osu_record(n: NoteRecord, key_count: int) -> OsuHitObject {
    OsuHitObject {
        x: ((n.column as int) * 512 / key_count + 256int / key_count) as u32,
        time: n.time,
        kind: if n.hold_end.is_some() { HOLD_NOTE } else { 1u8 },
        end_time: match n.hold_end {
            Some(t) => t,
            None => 0,
        },
        hitsound: hitsound_code(n.sound.hitsound_type),
        volume: if n.sound.volume >= 100 { 0 } else { n.sound.volume },
        sample: if n.sound.has_custom { n.sound.sample } else { None },
    }
}

/// The chart's notes as osu!mania hit object fields.
pub fn osu_hit_object_records(chart: &Chart) -> (r: Vec<OsuHitObject>)
    requires
        chart.wf(),
        chart.chartinfo.key_count > 0,
    ensures
        r@ == row_notes(chart.hitobjects, chart.hitobjects.rows.len() as int).map_values(
            |n: NoteRecord| osu_record(n, chart.chartinfo.key_count as int),
        ),
{
    let kc = chart.chartinfo.key_count as usize;
    let notes = note_records(&chart.hitobjects, kc);
    proof {
        lemma_note_columns(chart.hitobjects, kc as nat, chart.hitobjects.rows.len() as int);
    }
    let mut out: Vec<OsuHitObject> = Vec::with_capacity(notes.len());
    let mut i: usize = 0;
    while i < notes.len()
        invariant
            i <= notes@.len(),
            kc == chart.chartinfo.key_count,
            kc > 0,
            forall|j: int| 0 <= j < notes@.len() ==> (#[trigger] notes@[j]).column < kc,
            out@ == notes@.subrange(0, i as int).map_values(|n: NoteRecord| osu_record(n, kc as int)),
        decreases notes@.len() - i,
    {
        let n = notes[i];
        let x = column_to_coords(n.column, kc);
        proof {
            assert((n.column as int) * 512 / (kc as int) <= 512) by (nonlinear_arith)
                requires
                    n.column < kc,
                    kc > 0,
            ;
        }
        let hitsound: u8 = match n.sound.hitsound_type {
            HitSoundType::Normal => 0,
            HitSoundType::Clap => 1,
            HitSoundType::Whistle => 2,
            HitSoundType::Finish => 3,
        };
        let volume: u8 = if n.sound.volume >= 100 { 0 } else { n.sound.volume };
        let sample = if n.sound.has_custom { n.sound.sample } else { None };
        let rec = match n.hold_end {
            Some(t) => OsuHitObject { x: x as u32, time: n.time, kind: HOLD_NOTE, end_time: t, hitsound, volume, sample },
            None => OsuHitObject { x: x as u32, time: n.time, kind: 1, end_time: 0, hitsound, volume, sample },
        };
        out.push(rec);
        i += 1;
        proof {
            assert(out@ =~= notes@.subrange(0, i as int).map_values(|n: NoteRecord| osu_record(n, kc as int)));
        }
    }
    proof {
        assert(notes@.subrange(0, i as int) =~= notes@);
    }
    out
}

proof fn lemma_lane_columns(h: HitObjects, i: int, c: int)
    requires
        0 <= c,
    ensures
        forall|j: int| 0 <= j < lane_notes(h, i, c).len() ==> (#[trigger] lane_notes(h, i, c)[j]).column < c,
    decreases c,
{
    if c > 0 {
        lemma_lane_columns(h, i, c - 1);
    }
}

proof fn lemma_note_columns(h: HitObjects, key_count: nat, i: int)
    requires
        rows_width(h, key_count),
        i <= h.rows.len(),
    ensures
        forall|j: int| 0 <= j < row_notes(h, i).len() ==> (#[trigger] row_notes(h, i)[j]).column < key_count,
    decreases i,
{
    if i > 0 {
        lemma_note_columns(h, key_count, i - 1);
        let w = h.rows@[i - 1]@.len() as int;
        lemma_lane_columns(h, i - 1, w);
        let a = row_notes(h, i - 1);
        let b = lane_notes(h, i - 1, w);
        assert forall|j: int| 0 <= j < row_notes(h, i).len() implies (#[trigger] row_notes(h, i)[j]).column < key_count by {
            if j < a.len() {
                assert(row_notes(h, i)[j] == a[j]);
            } else {
                assert(row_notes(h, i)[j] == b[j - a.len()]);
            }
        }
    }
}

/// Tempos are positive and velocities representable: what the writers need
/// to turn changes into beat lengths.
pub open spec fn writable_changes(tp: TimingPoints) -> bool {
    forall|i: int|
        0 <= i < tp.changes.len() ==> {
            &&& ((#[trigger] tp.changes@[i]).change_type == TimingChangeType::Bpm ==> tp.changes@[i].value > 0)
            &&& (tp.changes@[i].change_type == TimingChangeType::Sv ==> tp.changes@[i].value > i64::MIN)
        }
}

/// The osu! timing point of a change: a tempo as an uninherited beat length,
/// a velocity as an inherited one; stops have none.
pub open spec fn osu_timing_record(time: i32, kind: TimingChangeType, value: i64) -> Option<OsuTimingPoint> {
    match kind {
        TimingChangeType::Bpm => Some(OsuTimingPoint { time, beat_length_us: (60_000_000_000int / (value as int)) as i64, uninherited: true }),
        TimingChangeType::Sv => Some(OsuTimingPoint {
            time,
            beat_length_us: (if value == 0 {
                -10_000_000int
            } else {
                -(100_000_000int / (if value < 0 { -(value as int) } else { value as int }))
            }) as i64,
            uninherited: false,
        }),
        TimingChangeType::Stop => None,
    }
}

/// osu! timing points of the first `n` changes.
pub open spec fn osu_timing_records_spec(tp: TimingPoints, n: int) -> Seq<OsuTimingPoint>
    decreases n,
{
    if n <= 0 {
        seq![]
    } else {
        let prev = osu_timing_records_spec(tp, n - 1);
        match osu_timing_record(tp.times@[n - 1], tp.changes@[n - 1].change_type, tp.changes@[n - 1].value) {
            Some(p) => prev.push(p),
            None => prev,
        }
    }
}

/// The chart's changes as osu! timing point fields.
pub fn osu_timing_records(tp: &TimingPoints) -> (r: Vec<OsuTimingPoint>)
    requires
        tp.wf(),
        writable_changes(*tp),
    ensures
        r@ == osu_timing_records_spec(*tp, tp.changes.len() as int),
{
    let mut out: Vec<OsuTimingPoint> = Vec::new();
    let mut i: usize = 0;
    while i < tp.changes.len()
        invariant
            i <= tp.changes.len(),
            tp.wf(),
            writable_changes(*tp),
            out@ == osu_timing_records_spec(*tp, i as int),
        decreases tp.changes.len() - i,
    {
        let ch = tp.changes[i];
        let t = tp.times[i];
        match ch.change_type {
            TimingChangeType::Bpm => {
                out.push(OsuTimingPoint { time: t, beat_length_us: bpm_to_beatlength(ch.value), uninherited: true });
            },
            TimingChangeType::Sv => {
                out.push(OsuTimingPoint { time: t, beat_length_us: multiplier_to_beatlength(ch.value), uninherited: false });
            },
            TimingChangeType::Stop => {},
        }
        i += 1;
    }
    out
}

proof fn lemma_records_len(tp: TimingPoints, n: int)
    ensures
        osu_timing_records_spec(tp, n).len() <= (if n < 0 { 0 } else { n }),
    decreases n,
{
    if n > 0 {
        lemma_records_len(tp, n - 1);
    }
}

proof fn lemma_records_readable(tp: TimingPoints, n: int)
    requires
        0 <= n <= tp.changes.len(),
        tp.wf(),
        forall|i: int|
            0 <= i < tp.changes.len() && (#[trigger] tp.changes@[i]).change_type == TimingChangeType::Bpm ==> 1
                <= tp.changes@[i].value <= MAX_MILLI_BPM,
        forall|i: int|
            0 <= i < tp.changes.len() && (#[trigger] tp.changes@[i]).change_type == TimingChangeType::Sv ==> -MAX_MILLI_BPM
                <= tp.changes@[i].value <= MAX_MILLI_BPM,
    ensures
        forall|k: int| 0 <= k < osu_timing_records_spec(tp, n).len() ==> (#[trigger] osu_change(osu_timing_records_spec(tp, n)[k])).is_some(),
    decreases n,
{
    if n > 0 {
        lemma_records_readable(tp, n - 1);
        let c = tp.changes@[n - 1];
        let v = c.value as int;
        if c.change_type == TimingChangeType::Bpm {
            let bl = 60_000_000_000int / v;
            assert(600 <= bl && 1 <= 60_000_000_000int / bl <= MAX_MILLI_BPM) by (nonlinear_arith)
                requires
                    1 <= v <= 100_000_000,
                    bl == 60_000_000_000int / v,
            ;
        } else if c.change_type == TimingChangeType::Sv && v != 0 {
            let m = if v < 0 { -v } else { v };
            assert(0 <= 100_000_000int / m <= 100_000_000) by (nonlinear_arith)
                requires
                    1 <= m,
            ;
        }
    }
}

/// The timing points written for an osu! chart's timing entries read back:
/// every one stands for a change again.
pub proof fn lemma_written_timing_rereads(tp: TimingPoints, offset: i32, points: Seq<OsuTimingPoint>)
    requires
        osu_points_valid(points),
        osu_timing_from(tp, offset, points),
    ensures
        writable_changes(tp),
        osu_points_valid(osu_timing_records_spec(tp, tp.changes.len() as int)),
{
    let changes = osu_changes(points);
    let items = timeline_of(changes);
    lemma_timeline_of_members(changes);
    lemma_timeline_of_len(changes);
    assert forall|i: int| 0 <= i < tp.changes.len() implies {
        &&& ((#[trigger] tp.changes@[i]).change_type == TimingChangeType::Bpm ==> 1 <= tp.changes@[i].value
            <= MAX_MILLI_BPM)
        &&& (tp.changes@[i].change_type == TimingChangeType::Sv ==> -MAX_MILLI_BPM <= tp.changes@[i].value
            <= MAX_MILLI_BPM)
    } by {
        assert(tp.changes@[i] == timing_entries(items, offset)[i].2);
        let j = choose|j: int| 0 <= j < changes.len() && changes[j] == #[trigger] items[i];
        assert(osu_change(points[j]).is_some());
        let bl = points[j].beat_length_us as int;
        if !points[j].uninherited && bl != 0 {
            if bl < 0 {
                assert(0 <= 100_000_000int / (-bl) <= 100_000_000) by (nonlinear_arith)
                    requires
                        bl < 0,
                ;
            } else {
                assert(0 <= 100_000_000int / bl <= 100_000_000) by (nonlinear_arith)
                    requires
                        bl > 0,
                ;
            }
        }
    }
    lemma_records_readable(tp, tp.changes.len() as int);
    lemma_records_len(tp, tp.changes.len() as int);
}

/// The Quaver fields of a note: 1-based lane, end time 0 for a plain note,
/// and its sound unless that is a plain normal sound.
pub open spec fn quaver_record(n: NoteRecord) -> QuaverHitObject {
    QuaverHitObject {
        time: n.time,
        lane: (n.column + 1) as usize,
        end_time: match n.hold_end {
            Some(t) => t,
            None => 0,
        },
        keysound: if n.sound.has_custom || n.sound.hitsound_type != HitSoundType::Normal { Some(n.sound) } else { None },
    }
}

/// The chart's notes as Quaver hit object fields.
pub fn quaver_hit_object_records(chart: &Chart) -> (r: Vec<QuaverHitObject>)
    requires
        chart.wf(),
    ensures
        r@ == row_notes(chart.hitobjects, chart.hitobjects.rows.len() as int).map_values(
            |n: NoteRecord| quaver_record(n),
        ),
{
    let kc = chart.chartinfo.key_count as usize;
    let notes = note_records(&chart.hitobjects, kc);
    proof {
        lemma_note_columns(chart.hitobjects, kc as nat, chart.hitobjects.rows.len() as int);
    }
    let mut out: Vec<QuaverHitObject> = Vec::with_capacity(notes.len());
    let mut i: usize = 0;
    while i < notes.len()
        invariant
            i <= notes@.len(),
            kc == chart.chartinfo.key_count,
            forall|j: int| 0 <= j < notes@.len() ==> (#[trigger] notes@[j]).column < kc,
            kc <= 255,
            out@ == notes@.subrange(0, i as int).map_values(|n: NoteRecord| quaver_record(n)),
        decreases notes@.len() - i,
    {
        let n = notes[i];
        let rec = QuaverHitObject {
            time: n.time,
            lane: n.column + 1,
            end_time: match n.hold_end {
                Some(t) => t,
                None => 0,
            },
            keysound: if n.sound.has_custom || n.sound.hitsound_type != HitSoundType::Normal { Some(n.sound) } else { None },
        };
        out.push(rec);
        i += 1;
        proof {
            assert(out@ =~= notes@.subrange(0, i as int).map_values(|n: NoteRecord| quaver_record(n)));
        }
    }
    proof {
        assert(notes@.subrange(0, i as int) =~= notes@);
    }
    out
}

} // verus!
