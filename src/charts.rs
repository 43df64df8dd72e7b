//! Assembling a chart from a format's parsed sections.
use vstd::prelude::*;
use vstd::string::StringExecFns;
use crate::chart::{Chart, ChartInfo, Metadata, counts_match};
use crate::hitobjects::HitObjects;
use crate::common::{Key, TimingChangeType, MAX_MILLI_BPM, MAX_SEGMENTS, MAX_TICKS};
use crate::errors::ParseError;
use crate::helpers::{BeatChange, merge_bpm_and_stops, merged_changes};
use crate::osu::{
    OsuHitObject, OsuTimingPoint, osu_events, osu_offset, osu_points_valid, osu_timing_from,
    process_hitobjects, process_timing_points,
};
use crate::quaver::{QuaverHitObject, lanes_valid, process_notes, qua_events, widened_key_count};
use crate::rhythm::{valid_change_list, valid_tempo_list};
use crate::sound::SoundBank;
use crate::stepmania::{
    MAX_MEASURES, entry_times_fit, grid_times_fit, change_list_entries, grid_entries, grid_rows, grid_view, notes_to_hitobjects, rows_are,
    sm_timing_points, timing_is,
};
use crate::timeline::{
    Timeline, TimelineTimingPoint, holds_groups, lemma_entries_tempo_list, nonempty_groups, row_groups, sorted_by_time,
    timeline_of, timing_entries,
};
use crate::timing_points::{TimingChange, TimingPoints, times_of_kind, values_of_kind};

verus! {

/// Whether a tempo list can be used for conversion.
pub fn is_valid_tempo_list(times: &Vec<i32>, bpms: &Vec<i64>) -> (r: bool)
    ensures
        r == valid_tempo_list(times@, bpms@),
{
    if times.len() > MAX_SEGMENTS {
        return false;
    }
    let mut i: usize = 0;
    while i < bpms.len()
        invariant
            i <= bpms.len(),
            forall|k: int| 0 <= k < i ==> 0 <= #[trigger] bpms@[k] <= MAX_MILLI_BPM,
        decreases bpms.len() - i,
    {
        if bpms[i] < 0 || bpms[i] > MAX_MILLI_BPM {
            return false;
        }
        i += 1;
    }
    let mut j: usize = 1;
    while j < times.len()
        invariant
            1 <= j,
            j <= times.len() || times.len() == 0,
            forall|a: int, b: int| 0 <= a <= b < j && b < times.len() ==> times@[a] <= times@[b],
        decreases times.len() - j,
    {
        if times[j - 1] > times[j] {
            return false;
        }
        j += 1;
    }
    true
}

/// Whether a beat-keyed change list can be used for conversion.
pub fn is_valid_change_list(beats: &Vec<i64>, values: &Vec<i64>, kinds: &Vec<TimingChangeType>) -> (r: bool)
    ensures
        r == valid_change_list(beats@, values@, kinds@),
{
    if beats.len() > MAX_SEGMENTS || kinds.len() != values.len() {
        return false;
    }
    let mut i: usize = 0;
    while i < beats.len()
        invariant
            i <= beats.len(),
            forall|k: int| 0 <= k < i ==> -MAX_TICKS <= #[trigger] beats@[k] <= MAX_TICKS,
            forall|a: int, b: int| 0 <= a <= b < i ==> beats@[a] <= beats@[b],
        decreases beats.len() - i,
    {
        if beats[i] < -MAX_TICKS || beats[i] > MAX_TICKS {
            return false;
        }
        if i > 0 && beats[i - 1] > beats[i] {
            return false;
        }
        i += 1;
    }
    let mut k: usize = 0;
    while k < values.len()
        invariant
            k <= values.len(),
            kinds.len() == values.len(),
            forall|m: int| 0 <= m < k ==> -MAX_TICKS <= #[trigger] values@[m] <= MAX_TICKS,
            forall|m: int| 0 <= m < k && kinds@[m] == TimingChangeType::Bpm ==> 0 <= #[trigger] values@[m] <= MAX_MILLI_BPM,
        decreases values.len() - k,
    {
        if values[k] < -MAX_TICKS || values[k] > MAX_TICKS {
            return false;
        }
        if kinds[k] == TimingChangeType::Bpm && (values[k] < 0 || values[k] > MAX_MILLI_BPM) {
            return false;
        }
        k += 1;
    }
    true
}

/// `c` is `info` with the rhythmic origin `offset` and the lane count
/// `key_count`, and the counts of the rows `h`.
pub open spec fn info_of(c: ChartInfo, info: ChartInfo, offset: i32, key_count: u8, h: HitObjects) -> bool {
    &&& c.difficulty_name == info.difficulty_name
    &&& c.bg_path == info.bg_path
    &&& c.song_path == info.song_path
    &&& c.preview_time == info.preview_time
    &&& c.audio_offset == offset
    &&& c.key_count == key_count
    &&& counts_match(c, h)
}

fn finish_info(info: ChartInfo, offset: i32, key_count: u8, h: &HitObjects) -> (r: ChartInfo)
    ensures
        info_of(r, info, offset, key_count, *h),
{
    let mut info = info;
    info.audio_offset = offset;
    info.key_count = key_count;
    info.row_count = h.rows.len();
    info.object_count = h.object_count();
    info
}

/// Builds an osu!mania chart from its parsed sections: the timing points set
/// the rhythmic origin and tempo list, then the hit objects are folded into
/// rows. Succeeds exactly when every timing point stands for a change. No
/// stored row is all empty.
pub fn build_osu_chart(
    metadata: Metadata,
    chartinfo: ChartInfo,
    soundbank: SoundBank,
    points: &Vec<OsuTimingPoint>,
    objects: &Vec<OsuHitObject>,
) -> (r: Result<Chart, ParseError>)
    ensures
        r.is_ok() == osu_points_valid(points@),
        r.is_ok() ==> {
            let c = r.unwrap();
            let tp = c.timing_points;
            &&& c.hitobjects.wf()
            &&& info_of(c.chartinfo, chartinfo, osu_offset(points@), chartinfo.key_count, c.hitobjects)
            &&& c.metadata == metadata
            &&& c.soundbank == Some(soundbank)
            &&& osu_timing_from(tp, osu_offset(points@), points@)
            &&& holds_groups(
                c.hitobjects,
                nonempty_groups(row_groups(timeline_of(osu_events(objects@, chartinfo.key_count)), chartinfo.key_count as nat)),
                osu_offset(points@),
                times_of_kind(tp.times@, tp.changes@, TimingChangeType::Bpm),
                values_of_kind(tp.changes@, TimingChangeType::Bpm),
            )
        },
{
    let (tp, offset) = match process_timing_points(points) {
        Ok(x) => x,
        Err(e) => return Err(e),
    };
    let bpm_times = tp.bpm_times();
    let bpms = tp.bpms();
    let h = process_hitobjects(objects, chartinfo.key_count, offset, &bpm_times, &bpms);
    let kc = chartinfo.key_count;
    let info = finish_info(chartinfo, offset, kc, &h);
    Ok(Chart::new(metadata, info, tp, h, Some(soundbank)))
}

/// Every tempo of a change list is positive.
pub open spec fn tempos_positive(values: Seq<i64>, kinds: Seq<TimingChangeType>) -> bool {
    forall|i: int| 0 <= i < values.len() && i < kinds.len() && kinds[i] == TimingChangeType::Bpm ==> #[trigger] values[i] >= 1
}

fn check_tempos_positive(values: &Vec<i64>, kinds: &Vec<TimingChangeType>) -> (r: bool)
    ensures
        r == tempos_positive(values@, kinds@),
{
    let mut i: usize = 0;
    while i < values.len()
        invariant
            i <= values.len(),
            forall|j: int| 0 <= j < i && j < kinds@.len() && kinds@[j] == TimingChangeType::Bpm ==> #[trigger] values@[j] >= 1,
        decreases values.len() - i,
    {
        if i < kinds.len() && kinds[i] == TimingChangeType::Bpm && values[i] < 1 {
            return false;
        }
        i += 1;
    }
    true
}

/// When a StepMania chart can be read: both lists pair beats with values,
/// the merged change list is in order and in range with positive tempos,
/// every timing entry and every row falls at a time that fits, and the grid
/// has not too many measures.
pub open spec fn sm_chart_ok(
    bpm_beats: Seq<i64>,
    bpm_values: Seq<i64>,
    stop_beats: Seq<i64>,
    stop_values: Seq<i64>,
    measures: Seq<Vec<Vec<Key>>>,
    offset: i32,
) -> bool {
    let m = merged_changes(bpm_beats, bpm_values, stop_beats, stop_values);
    let beats = m.map_values(|e: BeatChange| e.0);
    let values = m.map_values(|e: BeatChange| e.1);
    let kinds = m.map_values(|e: BeatChange| e.2);
    &&& bpm_beats.len() == bpm_values.len()
    &&& stop_beats.len() == stop_values.len()
    &&& valid_change_list(beats, values, kinds)
    &&& tempos_positive(values, kinds)
    &&& entry_times_fit(change_list_entries(m.len() as int, offset, beats, values, kinds))
    &&& measures.len() <= MAX_MEASURES
    &&& grid_times_fit(grid_rows(grid_view(measures)), offset, beats, values, kinds)
}

/// Builds a StepMania chart from its parsed sections: `#BPMS` and `#STOPS`
/// (beats in ticks) are merged into one change list, which places the timing
/// entries and the rows of the note grid. A tempo that is not positive is an
/// error. No stored row is all empty.
pub fn build_sm_chart(
    metadata: Metadata,
    chartinfo: ChartInfo,
    bpm_beats: Vec<i64>,
    bpm_values: Vec<i64>,
    stop_beats: Vec<i64>,
    stop_values: Vec<i64>,
    measures: &Vec<Vec<Vec<Key>>>,
) -> (r: Result<Chart, ParseError>)
    ensures
        r.is_ok() == sm_chart_ok(bpm_beats@, bpm_values@, stop_beats@, stop_values@, measures@, chartinfo.audio_offset),
        r.is_ok() ==> {
            let c = r.unwrap();
            let m = merged_changes(bpm_beats@, bpm_values@, stop_beats@, stop_values@);
            let beats = m.map_values(|e: BeatChange| e.0);
            let values = m.map_values(|e: BeatChange| e.1);
            let kinds = m.map_values(|e: BeatChange| e.2);
            &&& c.hitobjects.wf()
            &&& c.metadata == metadata
            &&& info_of(c.chartinfo, chartinfo, chartinfo.audio_offset, chartinfo.key_count, c.hitobjects)
            &&& timing_is(c.timing_points, change_list_entries(m.len() as int, chartinfo.audio_offset, beats, values, kinds))
            &&& rows_are(c.hitobjects, grid_entries(grid_rows(grid_view(measures@)), chartinfo.audio_offset, beats, values, kinds))
        },
{
    if bpm_beats.len() != bpm_values.len() || stop_beats.len() != stop_values.len() {
        return Err(ParseError::InvalidChart(String::from_str("tempo or stop list is malformed")));
    }
    let ghost m = merged_changes(bpm_beats@, bpm_values@, stop_beats@, stop_values@);
    let (beats, values, kinds) = merge_bpm_and_stops(bpm_beats, bpm_values, stop_beats, stop_values);
    proof {
        assert(beats@ =~= m.map_values(|e: BeatChange| e.0));
        assert(values@ =~= m.map_values(|e: BeatChange| e.1));
        assert(kinds@ =~= m.map_values(|e: BeatChange| e.2));
    }
    if !is_valid_change_list(&beats, &values, &kinds) {
        return Err(ParseError::InvalidChart(String::from_str("tempo or stop list out of order or out of range")));
    }
    if !check_tempos_positive(&values, &kinds) {
        return Err(ParseError::InvalidChart(String::from_str("a tempo must be positive")));
    }
    let tp = match sm_timing_points(chartinfo.audio_offset, &beats, &values, &kinds) {
        Ok(t) => t,
        Err(e) => return Err(e),
    };
    let h = match notes_to_hitobjects(measures, chartinfo.audio_offset, &beats, &values, &kinds) {
        Ok(h) => h,
        Err(e) => return Err(e),
    };
    let offset = chartinfo.audio_offset;
    let kc = chartinfo.key_count;
    let info = finish_info(chartinfo, offset, kc, &h);
    Ok(Chart::new(metadata, info, tp, h, None))
}

/// Timing entries of tempo and velocity changes put in time order (each
/// inserted after the earlier ones of the same time), beats taken from
/// `offset`.
pub open spec fn timing_of_changes(tp: TimingPoints, changes: Seq<TimelineTimingPoint>, offset: i32) -> bool {
    let items = timeline_of(changes);
    &&& tp.wf()
    &&& tp.times@ == timing_entries(items, offset).map_values(|e: (i32, i64, TimingChange)| e.0)
    &&& tp.beats@ == timing_entries(items, offset).map_values(|e: (i32, i64, TimingChange)| e.1)
    &&& tp.changes@ == timing_entries(items, offset).map_values(|e: (i32, i64, TimingChange)| e.2)
}

/// Time of the first tempo change of a list.
pub open spec fn first_bpm_time(items: Seq<TimelineTimingPoint>) -> Option<i32>
    decreases items.len(),
{
    if items.len() == 0 {
        None
    } else {
        let p = first_bpm_time(items.drop_last());
        if p.is_some() {
            p
        } else if items.last().change_type == TimingChangeType::Bpm {
            Some(items.last().time)
        } else {
            None
        }
    }
}

/// Rhythmic origin of a Quaver chart: its earliest tempo change's time.
pub open spec fn qua_offset(changes: Seq<TimelineTimingPoint>) -> i32 {
    first_bpm_time(timeline_of(changes)).unwrap()
}

/// Builds a Quaver chart from its parsed sections: tempo and velocity points
/// (already in tempo and velocity units) give the timing entries, from the
/// earliest tempo change's time, then the hit objects are folded into rows,
/// widening the lane count to hold every lane. Fails on a tempo that is not
/// positive or out of range, without a tempo change, on a lane below 1, or
/// when the lane count passes 255. No stored row is all empty.
/// Few enough changes to convert, every tempo positive and in range.
pub open spec fn qua_changes_valid(changes: Seq<TimelineTimingPoint>) -> bool {
    &&& changes.len() <= MAX_SEGMENTS
    &&& forall|i: int|
        0 <= i < changes.len() && (#[trigger] changes[i]).change_type == TimingChangeType::Bpm ==> 1
            <= changes[i].value <= MAX_MILLI_BPM
}

pub fn build_qua_chart(
    metadata: Metadata,
    chartinfo: ChartInfo,
    soundbank: SoundBank,
    changes: &Vec<TimelineTimingPoint>,
    objects: &Vec<QuaverHitObject>,
) -> (r: Result<Chart, ParseError>)
    ensures
        r.is_ok() == (qua_changes_valid(changes@) && lanes_valid(objects@) && first_bpm_time(
            timeline_of(changes@),
        ).is_some() && widened_key_count(objects@, chartinfo.key_count as int) <= 255),
        r.is_ok() ==> {
            let c = r.unwrap();
            let tp = c.timing_points;
            let kc = widened_key_count(objects@, chartinfo.key_count as int);
            &&& c.hitobjects.wf()
            &&& c.metadata == metadata
            &&& c.soundbank == Some(soundbank)
            &&& info_of(c.chartinfo, chartinfo, qua_offset(changes@), kc as u8, c.hitobjects)
            &&& timing_of_changes(tp, changes@, qua_offset(changes@))
            &&& holds_groups(
                c.hitobjects,
                nonempty_groups(row_groups(timeline_of(qua_events(objects@)), kc as nat)),
                qua_offset(changes@),
                times_of_kind(tp.times@, tp.changes@, TimingChangeType::Bpm),
                values_of_kind(tp.changes@, TimingChangeType::Bpm),
            )
        },
{
    if changes.len() > MAX_SEGMENTS {
        return Err(ParseError::InvalidChart(String::from_str("too many timing points")));
    }
    let mut timeline: Timeline<TimelineTimingPoint> = Timeline::with_capacity(changes.len());
    let mut i: usize = 0;
    while i < changes.len()
        invariant
            i <= changes@.len(),
            changes@.len() <= MAX_SEGMENTS,
            timeline.wf(),
            timeline.known_sorted(),
            sorted_by_time(timeline.items()),
            timeline.items() == timeline_of(changes@.subrange(0, i as int)),
            forall|k: int| 0 <= k < i && (#[trigger] changes@[k]).change_type == TimingChangeType::Bpm ==> 1
                <= changes@[k].value <= MAX_MILLI_BPM,
        decreases changes@.len() - i,
    {
        let c = changes[i];
        if c.change_type == TimingChangeType::Bpm && (c.value < 1 || c.value > MAX_MILLI_BPM) {
            proof {
                assert(!(1 <= changes@[i as int].value <= MAX_MILLI_BPM));
            }
            return Err(ParseError::InvalidChart(String::from_str("a tempo must be positive and in range")));
        }
        timeline.add_sorted(c);
        proof {
            assert(changes@.subrange(0, i + 1).drop_last() =~= changes@.subrange(0, i as int));
        }
        i += 1;
    }
    proof {
        assert(changes@.subrange(0, i as int) =~= changes@);
        let items = timeline.items();
        assert forall|k: int| 0 <= k < items.len() && (#[trigger] items[k]).change_type == TimingChangeType::Bpm
            implies 0 <= items[k].value <= MAX_MILLI_BPM by {
            crate::osu::lemma_timeline_of_members(changes@);
            let j = choose|j: int| 0 <= j < changes@.len() && changes@[j] == items[k];
        }
        crate::osu::lemma_timeline_of_len(changes@);
    }
    let mut first: Option<i32> = None;
    let mut q: usize = 0;
    while q < timeline.len()
        invariant
            q <= timeline.items().len(),
            first == first_bpm_time(timeline.items().subrange(0, q as int)),
        decreases timeline.items().len() - q,
    {
        proof {
            assert(timeline.items().subrange(0, q + 1).drop_last() =~= timeline.items().subrange(0, q as int));
        }
        let e = timeline.get(q);
        if first.is_none() && e.change_type == TimingChangeType::Bpm {
            first = Some(e.time);
        }
        q += 1;
    }
    proof {
        assert(timeline.items().subrange(0, q as int) =~= timeline.items());
    }
    let offset: i32 = match first {
        Some(t) => t,
        None => return Err(ParseError::InvalidChart(String::from_str("No BPM data provided in the chart"))),
    };
    let mut tp = TimingPoints::with_capacity(changes.len());
    let ghost t0 = tp;
    timeline.to_timing_points(&mut tp, offset);
    proof {
        let items = timeline.items();
        assert(t0.times@ =~= Seq::<i32>::empty());
        assert(t0.beats@ =~= Seq::<i64>::empty());
        assert(t0.changes@ =~= Seq::<TimingChange>::empty());
        assert(tp.times@ =~= timing_entries(items, offset).map_values(|e: (i32, i64, TimingChange)| e.0));
        assert(tp.beats@ =~= timing_entries(items, offset).map_values(|e: (i32, i64, TimingChange)| e.1));
        assert(tp.changes@ =~= timing_entries(items, offset).map_values(|e: (i32, i64, TimingChange)| e.2));
        lemma_entries_tempo_list(items, offset);
    }
    let bpm_times = tp.bpm_times();
    let bpms = tp.bpms();
    let (h, kc) = match process_notes(objects, chartinfo.key_count as usize, offset, &bpm_times, &bpms) {
        Ok(x) => x,
        Err(e) => return Err(e),
    };
    if kc > 255 {
        return Err(ParseError::InvalidChart(String::from_str("a lane is beyond the largest lane count")));
    }
    let info = finish_info(chartinfo, offset, kc as u8, &h);
    Ok(Chart::new(metadata, info, tp, h, Some(soundbank)))
}

} // verus!
