//! StepMania's fixed note grid: reading rows of note characters, placing
//! measures on beats, and padding measures to a uniform subdivision.
use vstd::prelude::*;
use vstd::string::{StrSliceExecFns, StringSliceAdditionalSpecFns};
use crate::numbers::{
    index_of, lemma_index_of_public, milli_of_decimal, parse_decimal_milli, split_fields, split_on,
    trim_bounds, trim_ws,
};
use crate::common::{Key, KeyType, empty_key, empty_row, TICKS_PER_MEASURE};
use crate::hitobjects::HitObjects;
use crate::common::{TimingChangeType, row_has_content};
use crate::errors::ParseError;
use crate::rhythm::{calculate_time_from_beat, time_from_beat, valid_change_list};
use crate::sound::KeySoundRow;
use crate::timing_points::{TimingChange, TimingPoints};
use vstd::string::StringExecFns;

verus! {

/// Largest distance, in ticks, between a row and the grid slot it fills
/// (0.15 of a beat).
pub const SLOT_TOLERANCE: i64 = 144;

/// Note subdivision `i` of the nine StepMania supports, as a beat gap in
/// ticks: 4th, 8th, 12th, 16th, 24th, 32nd, 48th, 64th and 192nd notes.
pub open spec fn note_type(i: int) -> int {
    if i == 0 { 960 }
    else if i == 1 { 480 }
    else if i == 2 { 320 }
    else if i == 3 { 240 }
    else if i == 4 { 160 }
    else if i == 5 { 120 }
    else if i == 6 { 80 }
    else if i == 7 { 60 }
    else { 20 }
}

pub open spec fn note_dist(i: int, gap: int) -> int {
    let d = note_type(i) - gap;
    if d >= 0 { d } else { -d }
}

/// The subdivision closest to `gap`; of equally close ones, the coarsest.
pub open spec fn is_nearest_note_type(r: int, gap: int) -> bool {
    exists|idx: int|
        0 <= idx < 9 && r == note_type(idx) && (forall|j: int| 0 <= j < 9 ==> note_dist(idx, gap) <= note_dist(j, gap))
            && (forall|j: int| 0 <= j < idx ==> note_dist(j, gap) > note_dist(idx, gap))
}

fn note_type_at(i: usize) -> (r: i64)
    requires
        i < 9,
    ensures
        r == note_type(i as int),
{
    match i {
        0 => 960,
        1 => 480,
        2 => 320,
        3 => 240,
        4 => 160,
        5 => 120,
        6 => 80,
        7 => 60,
        _ => 20,
    }
}

/// Snaps a beat gap (ticks) to the nearest of the nine note subdivisions.
pub fn snap_to_nearest_note_type_normed(beat: i64) -> (r: i64)
    ensures
        is_nearest_note_type(r as int, beat as int),
{
    let mut min_diff: i128 = i128::MAX;
    let mut best: usize = 0;
    let mut k: usize = 0;
    while k < 9
        invariant
            k <= 9,
            best < 9,
            k > 0 ==> best < k,
            k > 0 ==> min_diff == note_dist(best as int, beat as int),
            k == 0 ==> min_diff == i128::MAX && best == 0,
            forall|j: int| 0 <= j < k ==> note_dist(best as int, beat as int) <= note_dist(j, beat as int),
            forall|j: int| 0 <= j < best ==> note_dist(j, beat as int) > note_dist(best as int, beat as int),
        decreases 9 - k,
    {
        let c = note_type_at(k);
        let d0: i128 = c as i128 - beat as i128;
        let d: i128 = if d0 >= 0 { d0 } else { -d0 };
        if d < min_diff {
            min_diff = d;
            best = k;
        }
        k += 1;
    }
    note_type_at(best)
}

/// A run of rows `[start, end)` of a chart forming one measure, or a measure
/// of silence.
#[derive(Debug, Clone, Copy, PartialEq, Eq, Structural)]
pub struct MeasureRange(pub usize, pub usize, pub bool);

impl MeasureRange {
    pub fn start(&self) -> (r: usize)
        ensures
            r == self.0,
    {
        self.0
    }

    pub fn end(&self) -> (r: usize)
        ensures
            r == self.1,
    {
        self.1
    }

    pub fn is_empty(&self) -> (r: bool)
        ensures
            r == self.2,
    {
        self.2
    }
}

/// Smallest positive gap between consecutive beats of `b[..hi]`, starting
/// from a whole measure.
pub open spec fn min_gap(b: Seq<i64>, hi: int) -> int
    decreases hi,
{
    if hi <= 1 {
        TICKS_PER_MEASURE as int
    } else {
        let m = min_gap(b, hi - 1);
        let d = b[hi - 1] - b[hi - 2];
        if d < m && d > 0 { d } else { m }
    }
}

/// `n` rows of `key_count` empty cells.
pub open spec fn empty_rows(n: nat, key_count: nat) -> Seq<Seq<Key>> {
    Seq::new(n, |i: int| Seq::new(key_count, |j: int| empty_key()))
}

/// The first `k` slots of a padded measure, and how many rows they used:
/// slot `k` takes the next unused row when that row's beat (relative to the
/// measure's first row) lies within the tolerance of `k * step`, else an
/// empty row.
pub open spec fn pad_slots(b: Seq<i64>, rows: Seq<Seq<Key>>, step: int, key_count: nat, k: nat) -> (Seq<Seq<Key>>, int)
    decreases k,
{
    if k == 0 {
        (seq![], 0)
    } else {
        let (acc, p) = pad_slots(b, rows, step, key_count, (k - 1) as nat);
        let e = (k - 1) * step;
        if p < b.len() && -(SLOT_TOLERANCE as int) <= (b[p] - b[0]) - e <= SLOT_TOLERANCE {
            (acc.push(rows[p]), p + 1)
        } else {
            (acc.push(Seq::new(key_count, |j: int| empty_key())), p)
        }
    }
}

/// The padded grid of one measure: four empty rows for a silent or empty
/// range; otherwise as many slots as the snapped smallest gap fits in a
/// measure, each filled by `pad_slots`.
pub open spec fn padded_measure(h: HitObjects, range: MeasureRange) -> Seq<Seq<Key>> {
    let kc: nat = if h.rows.len() > 0 { h.rows@[0]@.len() } else { 0 };
    let hi = if (range.1 as int) < h.rows.len() { range.1 as int } else { h.rows.len() as int };
    if range.2 || range.0 as int >= hi {
        empty_rows(4, kc)
    } else {
        let b = h.beats@.subrange(range.0 as int, hi);
        let rows = h.rows@.subrange(range.0 as int, hi).map_values(|r: Vec<Key>| r@);
        let step = choose|s: int| is_nearest_note_type(s, min_gap(b, b.len() as int));
        pad_slots(b, rows, step, kc, (TICKS_PER_MEASURE as int / step) as nat).0
    }
}

proof fn lemma_nearest_unique(r1: int, r2: int, gap: int)
    requires
        is_nearest_note_type(r1, gap),
        is_nearest_note_type(r2, gap),
    ensures
        r1 == r2,
{
    let i1 = choose|idx: int|
        0 <= idx < 9 && r1 == note_type(idx) && (forall|j: int| 0 <= j < 9 ==> note_dist(idx, gap) <= note_dist(j, gap))
            && (forall|j: int| 0 <= j < idx ==> note_dist(j, gap) > note_dist(idx, gap));
    let i2 = choose|idx: int|
        0 <= idx < 9 && r2 == note_type(idx) && (forall|j: int| 0 <= j < 9 ==> note_dist(idx, gap) <= note_dist(j, gap))
            && (forall|j: int| 0 <= j < idx ==> note_dist(j, gap) > note_dist(idx, gap));
    if i1 < i2 {
        assert(note_dist(i1, gap) > note_dist(i2, gap));
    } else if i2 < i1 {
        assert(note_dist(i2, gap) > note_dist(i1, gap));
    }
}

fn empty_measure(key_count: usize) -> (r: Vec<Vec<Key>>)
    ensures
        r@.map_values(|x: Vec<Key>| x@) == empty_rows(4, key_count as nat),
{
    let mut m: Vec<Vec<Key>> = Vec::new();
    let mut i: usize = 0;
    while i < 4
        invariant
            i <= 4,
            m@.map_values(|x: Vec<Key>| x@) == empty_rows(i as nat, key_count as nat),
        decreases 4 - i,
    {
        let ghost before = m@;
        let row = empty_row(key_count);
        m.push(row);
        proof {
            let mv = m@.map_values(|x: Vec<Key>| x@);
            let bv = before.map_values(|x: Vec<Key>| x@);
            assert(mv =~= bv.push(row@));
            assert(empty_rows((i + 1) as nat, key_count as nat) =~= empty_rows(i as nat, key_count as nat).push(
                Seq::new(key_count as nat, |j: int| empty_key()),
            ));
        }
        i += 1;
    }
    m
}

/// Pads one measure of the chart's rows to StepMania's uniform grid.
pub fn pad_measure(rows: &HitObjects, range: &MeasureRange) -> (r: Vec<Vec<Key>>)
    requires
        rows.wf(),
    ensures
        r@.map_values(|x: Vec<Key>| x@) == padded_measure(*rows, *range),
{
    let key_count: usize = if rows.rows.len() > 0 { rows.rows[0].len() } else { 0 };
    let hi: usize = if range.1 < rows.rows.len() { range.1 } else { rows.rows.len() };
    if range.2 || range.0 >= hi {
        return empty_measure(key_count);
    }
    let s = range.0;
    let minimal = measure_min_gap(rows, s, hi);
    let ghost b = rows.beats@.subrange(s as int, hi as int);
    let step = snap_to_nearest_note_type_normed(minimal as i64);
    proof {
        let sp = choose|sp: int| is_nearest_note_type(sp, min_gap(b, b.len() as int));
        lemma_nearest_unique(sp, step as int, min_gap(b, b.len() as int));
        let idx = choose|idx: int|
            0 <= idx < 9 && step == note_type(idx) && (forall|j: int| 0 <= j < 9 ==> note_dist(idx, minimal as int) <= note_dist(j, minimal as int))
                && (forall|j: int| 0 <= j < idx ==> note_dist(j, minimal as int) > note_dist(idx, minimal as int));
        assert(20 <= step <= 960);
        let c = TICKS_PER_MEASURE as int / step as int;
        assert(c <= 192) by (nonlinear_arith)
            requires
                20 <= step,
                c == 3840int / (step as int),
        ;
    }
    let count: usize = (TICKS_PER_MEASURE / step) as usize;
    fill_slots(rows, s, hi, step, count, key_count)
}

fn measure_min_gap(rows: &HitObjects, s: usize, hi: usize) -> (r: i128)
    requires
        rows.wf(),
        s < hi <= rows.rows.len(),
    ensures
        r == min_gap(rows.beats@.subrange(s as int, hi as int), (hi - s) as int),
        0 < r <= TICKS_PER_MEASURE,
{
    let ghost b = rows.beats@.subrange(s as int, hi as int);
    let mut minimal: i128 = TICKS_PER_MEASURE as i128;
    let mut i: usize = s + 1;
    while i < hi
        invariant
            s < i <= hi,
            hi <= rows.rows.len(),
            rows.wf(),
            b == rows.beats@.subrange(s as int, hi as int),
            minimal == min_gap(b, (i - s) as int),
        decreases hi - i,
    {
        let diff: i128 = rows.beats[i] as i128 - rows.beats[i - 1] as i128;
        proof {
            assert(b[(i - s) as int] == rows.beats@[i as int]);
            assert(b[(i - s - 1) as int] == rows.beats@[i - 1]);
        }
        if diff < minimal && diff > 0 {
            minimal = diff;
        }
        i += 1;
    }
    proof {
        lemma_min_gap_range(b, b.len() as int);
    }
    minimal
}

#[verifier::rlimit(50)]
fn fill_slots(rows: &HitObjects, s: usize, hi: usize, step: i64, count: usize, key_count: usize) -> (r: Vec<Vec<Key>>)
    requires
        rows.wf(),
        s < hi <= rows.rows.len(),
        20 <= step <= 960,
        count <= 192,
    ensures
        r@.map_values(|x: Vec<Key>| x@) == pad_slots(
            rows.beats@.subrange(s as int, hi as int),
            rows.rows@.subrange(s as int, hi as int).map_values(|r: Vec<Key>| r@),
            step as int,
            key_count as nat,
            count as nat,
        ).0,
{
    let ghost b = rows.beats@.subrange(s as int, hi as int);
    let ghost rs = rows.rows@.subrange(s as int, hi as int).map_values(|r: Vec<Key>| r@);
    let first_beat = rows.beats[s];
    let mut out: Vec<Vec<Key>> = Vec::with_capacity(count);
    let mut p: usize = 0;
    let m: usize = hi - s;
    let mut k: usize = 0;
    while k < count
        invariant
            k <= count,
            count <= 192,
            20 <= step <= 960,
            m == b.len(),
            hi <= rows.rows.len(),
            s < hi,
            m == hi - s,
            rows.wf(),
            first_beat == b[0],
            b == rows.beats@.subrange(s as int, hi as int),
            rs == rows.rows@.subrange(s as int, hi as int).map_values(|r: Vec<Key>| r@),
            (out@.map_values(|x: Vec<Key>| x@), p as int) == pad_slots(b, rs, step as int, key_count as nat, k as nat),
            p <= k,
            p <= m,
        decreases count - k,
    {
        proof {
            assert(0 <= (k as int) * (step as int) <= 192 * 960) by (nonlinear_arith)
                requires
                    k < count,
                    count <= 192,
                    20 <= step <= 960,
            ;
        }
        let e: i128 = (k as i128) * (step as i128);
        let fits = if p < m {
            let rel: i128 = rows.beats[s + p] as i128 - first_beat as i128;
            proof {
                assert(b[p as int] == rows.beats@[s + p]);
            }
            -(SLOT_TOLERANCE as i128) <= rel - e && rel - e <= SLOT_TOLERANCE as i128
        } else {
            false
        };
        let ghost before = out@;
        if fits {
            out.push(rows.rows[s + p].clone());
            proof {
                assert(rs[p as int] == rows.rows@[s + p]@);
            }
            p += 1;
        } else {
            out.push(empty_row(key_count));
        }
        proof {
            assert(out@.map_values(|x: Vec<Key>| x@) =~= before.map_values(|x: Vec<Key>| x@).push(out@.last()@));
        }
        k += 1;
    }
    out
}

/// The cell a StepMania note character stands for: `0` empty, `1` note,
/// `2` and `4` hold or roll start, `3` hold end, `M` mine, `F` fake, anything
/// else unknown.
pub open spec fn sm_key(c: char) -> Key {
    if c == '0' {
        Key { key_type: KeyType::Empty, slider_end_time: None }
    } else if c == '1' {
        Key { key_type: KeyType::Normal, slider_end_time: None }
    } else if c == '2' || c == '4' {
        Key { key_type: KeyType::SliderStart, slider_end_time: None }
    } else if c == '3' {
        Key { key_type: KeyType::SliderEnd, slider_end_time: None }
    } else if c == 'M' {
        Key { key_type: KeyType::Mine, slider_end_time: None }
    } else if c == 'F' {
        Key { key_type: KeyType::Fake, slider_end_time: None }
    } else {
        Key { key_type: KeyType::Unknown, slider_end_time: None }
    }
}

/// Reads one note character.
pub fn get_sm_note_type(note: char) -> (r: Key)
    ensures
        r == sm_key(note),
{
    match note {
        '0' => Key::empty(),
        '1' => Key::normal(),
        '2' | '4' => Key::slider_start(None),
        '3' => Key::slider_end(),
        'M' => Key::mine(),
        'F' => Key::fake(),
        _ => Key::unknown(),
    }
}

/// Reads a row of note characters, one cell per character.
pub fn parse_keys_in_row(row: &str) -> (r: Vec<Key>)
    ensures
        r@ == row@.map_values(|c: char| sm_key(c)),
{
    let n = row.unicode_len();
    let mut result: Vec<Key> = Vec::with_capacity(n);
    let mut i: usize = 0;
    while i < n
        invariant
            i <= n,
            n == row@.len(),
            result@ == row@.subrange(0, i as int).map_values(|c: char| sm_key(c)),
        decreases n - i,
    {
        result.push(get_sm_note_type(row.get_char(i)));
        i += 1;
        assert(result@ =~= row@.subrange(0, i as int).map_values(|c: char| sm_key(c)));
    }
    assert(row@.subrange(0, i as int) =~= row@);
    result
}

/// The StepMania character for a cell.
pub open spec fn sm_char(k: KeyType) -> char {
    match k {
        KeyType::Empty => '0',
        KeyType::Normal => '1',
        KeyType::SliderStart => '2',
        KeyType::SliderEnd => '3',
        KeyType::Mine => 'M',
        KeyType::Fake => 'F',
        KeyType::Unknown => '0',
    }
}

/// Writes a row as StepMania note characters.
pub fn sm_row_to_chars(row: &Vec<Key>) -> (r: Vec<char>)
    ensures
        r@ == row@.map_values(|k: Key| sm_char(k.key_type)),
{
    let mut out: Vec<char> = Vec::with_capacity(row.len());
    let mut i: usize = 0;
    while i < row.len()
        invariant
            i <= row@.len(),
            out@ == row@.subrange(0, i as int).map_values(|k: Key| sm_char(k.key_type)),
        decreases row@.len() - i,
    {
        let c = match row[i].key_type {
            KeyType::Empty => '0',
            KeyType::Normal => '1',
            KeyType::SliderStart => '2',
            KeyType::SliderEnd => '3',
            KeyType::Mine => 'M',
            KeyType::Fake => 'F',
            KeyType::Unknown => '0',
        };
        out.push(c);
        i += 1;
        assert(out@ =~= row@.subrange(0, i as int).map_values(|k: Key| sm_char(k.key_type)));
    }
    assert(row@.subrange(0, i as int) =~= row@);
    out
}

/// Measure number of a beat (ticks): the beat rounded to a 24th of a beat,
/// divided into measures; 0 for negative beats.
pub open spec fn measure_of(beat: int) -> int {
    if beat < 0 { 0 } else { ((beat + 20) / 40) / 96 }
}

/// Gap, in ticks, after which empty measures are inserted (5 beats).
pub const MEASURE_GAP_TICKS: i64 = 4800;

/// Scan state over rows: ranges so far, first row of the open measure, its
/// measure number, its beat, and the previous row's beat.
pub type MeasureScan = (Seq<MeasureRange>, int, int, int, int);

/// `n` silent ranges: the first over `[cur, i)`, the rest over `[i, i)`.
pub open spec fn silent_ranges(cur: int, i: int, n: nat) -> Seq<MeasureRange> {
    Seq::new(n, |k: int| if k == 0 { MeasureRange(cur as usize, i as usize, true) } else { MeasureRange(i as usize, i as usize, true) })
}

/// The scan state after the first `i` rows.
pub open spec fn measure_scan(beats: Seq<i64>, i: nat) -> MeasureScan
    decreases i,
{
    if i == 0 {
        (seq![], 0, 0, 0, 0)
    } else {
        let (ranges, cur, prev_measure, prev_measure_beat, prev_beat) = measure_scan(beats, (i - 1) as nat);
        let row = i - 1;
        let beat = beats[row] as int;
        let m = measure_of(beat);
        if m != prev_measure {
            let opened = ranges.push(MeasureRange(cur as usize, row as usize, false));
            let gaps: nat = if beat - prev_measure_beat > MEASURE_GAP_TICKS as int && beat - prev_beat >= 0 {
                ((beat - prev_beat) / (TICKS_PER_MEASURE as int)) as nat
            } else {
                0
            };
            (opened + silent_ranges(cur, row, gaps), row, m, beat, beat)
        } else {
            (ranges, cur, prev_measure, prev_measure_beat, beat)
        }
    }
}

/// How the rows split into StepMania measures: a range opens at each row
/// whose measure number differs from the open one's, with empty measures
/// inserted where more than five beats pass; the last range runs to the end.
pub open spec fn measure_ranges(beats: Seq<i64>) -> Seq<MeasureRange> {
    let st = measure_scan(beats, beats.len());
    st.0.push(MeasureRange(st.1 as usize, beats.len() as usize, false))
}

fn measure_number(beat: i64) -> (r: i64)
    ensures
        r == measure_of(beat as int),
{
    if beat < 0 { 0 } else { ((beat as i128 + 20) / 40 / 96) as i64 }
}

/// Splits the chart's rows into StepMania measures.
pub fn measure_indices(hitobjects: &HitObjects) -> (r: Vec<MeasureRange>)
    requires
        hitobjects.wf(),
    ensures
        r@ == measure_ranges(hitobjects.beats@),
{
    let n = hitobjects.beats.len();
    let ghost beats = hitobjects.beats@;
    let mut out: Vec<MeasureRange> = Vec::new();
    let mut cur: usize = 0;
    let mut prev_measure: i64 = 0;
    let mut prev_measure_beat: i64 = 0;
    let mut prev_beat: i64 = 0;
    let mut i: usize = 0;
    while i < n
        invariant
            i <= n,
            n == beats.len(),
            beats == hitobjects.beats@,
            cur <= i,
            (out@, cur as int, prev_measure as int, prev_measure_beat as int, prev_beat as int)
                == measure_scan(beats, i as nat),
        decreases n - i,
    {
        let beat = hitobjects.beats[i];
        let m = measure_number(beat);
        if m != prev_measure {
            out.push(MeasureRange(cur, i, false));
            let ghost opened = out@;
            let d1: i128 = beat as i128 - prev_measure_beat as i128;
            let d2: i128 = beat as i128 - prev_beat as i128;
            if d1 > MEASURE_GAP_TICKS as i128 && d2 >= 0 {
                let count: u64 = (d2 / (TICKS_PER_MEASURE as i128)) as u64;
                let mut k: u64 = 0;
                let ghost first = cur;
                while k < count
                    invariant
                        k <= count,
                        cur == (if k == 0 { first } else { i }),
                        out@ == opened + silent_ranges(first as int, i as int, k as nat),
                    decreases count - k,
                {
                    out.push(MeasureRange(cur, i, true));
                    cur = i;
                    k += 1;
                    assert(out@ =~= opened + silent_ranges(first as int, i as int, k as nat));
                }
                proof {
                    assert(count as nat == ((beat - prev_beat) / (TICKS_PER_MEASURE as int)) as nat);
                }
            } else {
                assert(out@ =~= opened + silent_ranges(cur as int, i as int, 0));
            }
            cur = i;
            prev_measure = m;
            prev_measure_beat = beat;
        }
        prev_beat = beat;
        i += 1;
    }
    out.push(MeasureRange(cur, n, false));
    out
}

/// The chart's rows as StepMania measures, each padded to its grid.
pub fn padded_measures(hitobjects: &HitObjects) -> (r: Vec<Vec<Vec<Key>>>)
    requires
        hitobjects.wf(),
    ensures
        r@.len() == measure_ranges(hitobjects.beats@).len(),
        forall|j: int|
            0 <= j < r@.len() ==> (#[trigger] r@[j])@.map_values(|x: Vec<Key>| x@) == padded_measure(
                *hitobjects,
                measure_ranges(hitobjects.beats@)[j],
            ),
{
    let ranges = measure_indices(hitobjects);
    let mut out: Vec<Vec<Vec<Key>>> = Vec::with_capacity(ranges.len());
    let mut i: usize = 0;
    while i < ranges.len()
        invariant
            i <= ranges@.len(),
            hitobjects.wf(),
            ranges@ == measure_ranges(hitobjects.beats@),
            out@.len() == i,
            forall|j: int|
                0 <= j < i ==> (#[trigger] out@[j])@.map_values(|x: Vec<Key>| x@) == padded_measure(
                    *hitobjects,
                    ranges@[j],
                ),
        decreases ranges@.len() - i,
    {
        out.push(pad_measure(hitobjects, &ranges[i]));
        i += 1;
    }
    out
}

/// Rows of a measure's lines: each line trimmed, blank lines dropped, each
/// byte read as a cell (note characters are ASCII; a byte of a wider
/// character reads as unknown).
pub open spec fn measure_rows(lines: Seq<Seq<u8>>) -> Seq<Seq<Key>>
    decreases lines.len(),
{
    if lines.len() == 0 {
        seq![]
    } else {
        let prev = measure_rows(lines.drop_last());
        let t = trim_ws(lines.last());
        if t.len() == 0 {
            prev
        } else {
            prev.push(t.map_values(|c: u8| sm_key(c as char)))
        }
    }
}

/// The note grid of a `#NOTES` block: measures separated by `,`, rows by
/// line breaks.
pub open spec fn notes_grid(raw: Seq<u8>) -> Seq<Seq<Seq<Key>>> {
    split_on(raw, 44u8).map_values(|m: Seq<u8>| measure_rows(split_on(m, 10u8)))
}

fn keys_of(s: &[u8], lo: usize, hi: usize) -> (r: Vec<Key>)
    requires
        lo <= hi <= s@.len(),
    ensures
        r@ == s@.subrange(lo as int, hi as int).map_values(|c: u8| sm_key(c as char)),
{
    let mut out: Vec<Key> = Vec::with_capacity(hi - lo);
    let mut i: usize = lo;
    while i < hi
        invariant
            lo <= i <= hi,
            hi <= s@.len(),
            out@ == s@.subrange(lo as int, i as int).map_values(|c: u8| sm_key(c as char)),
        decreases hi - i,
    {
        out.push(get_sm_note_type(s[i] as char));
        i += 1;
        assert(out@ =~= s@.subrange(lo as int, i as int).map_values(|c: u8| sm_key(c as char)));
    }
    out
}

/// Reads the note grid of a `#NOTES` block.
pub fn parse_notes_grid(raw: &str) -> (r: Vec<Vec<Vec<Key>>>)
    ensures
        grid_view(r@) == notes_grid(raw.spec_bytes()),
{
    let measures = split_fields(raw.as_bytes(), 44u8);
    let ghost g = notes_grid(raw.spec_bytes());
    let mut out: Vec<Vec<Vec<Key>>> = Vec::with_capacity(measures.len());
    let mut mi: usize = 0;
    while mi < measures.len()
        invariant
            mi <= measures@.len(),
            measures@.len() == split_on(raw.spec_bytes(), 44u8).len(),
            forall|i: int| 0 <= i < measures@.len() ==> (#[trigger] measures@[i])@ == split_on(raw.spec_bytes(), 44u8)[i],
            g == notes_grid(raw.spec_bytes()),
            out@.len() == mi,
            forall|i: int| 0 <= i < mi ==> (#[trigger] out@[i])@.map_values(|r: Vec<Key>| r@) == g[i],
        decreases measures@.len() - mi,
    {
        let m = measures[mi].as_slice();
        let lines = split_fields(m, 10u8);
        let mut rows: Vec<Vec<Key>> = Vec::new();
        let mut li: usize = 0;
        while li < lines.len()
            invariant
                li <= lines@.len(),
                lines@.len() == split_on(m@, 10u8).len(),
                forall|i: int| 0 <= i < lines@.len() ==> (#[trigger] lines@[i])@ == split_on(m@, 10u8)[i],
                rows@.map_values(|r: Vec<Key>| r@) == measure_rows(split_on(m@, 10u8).subrange(0, li as int)),
            decreases lines@.len() - li,
        {
            let line = lines[li].as_slice();
            let (lo, hi) = trim_bounds(line, 0, line.len());
            let ghost ls = split_on(m@, 10u8);
            proof {
                assert(ls.subrange(0, li + 1).drop_last() =~= ls.subrange(0, li as int));
                assert(line@.subrange(0, line@.len() as int) =~= line@);
            }
            if hi > lo {
                let ghost before = rows@;
                rows.push(keys_of(line, lo, hi));
                proof {
                    assert(rows@.map_values(|r: Vec<Key>| r@) =~= before.map_values(|r: Vec<Key>| r@).push(rows@.last()@));
                }
            }
            li += 1;
        }
        proof {
            assert(split_on(m@, 10u8).subrange(0, li as int) =~= split_on(m@, 10u8));
        }
        out.push(rows);
        mi += 1;
    }
    proof {
        assert(grid_view(out@) =~= g);
    }
    out
}

/// Ticks of a beat given in thousandths, rounded to the nearest tick.
pub open spec fn ticks_of_milli_beat(m: int) -> int {
    (m * 24 + 12) / 25
}

/// Whether a number is read: well formed, with at most 15 characters
/// before its point.
pub open spec fn readable_decimal(s: Seq<u8>) -> bool {
    milli_of_decimal(s).is_some() && index_of(s, 46u8) <= 15
}

/// The `beat=value` pairs of a `#BPMS` or `#STOPS` list, up to the first two
/// `=`-separated parts of each comma-separated item, trimmed; items that do
/// not read are skipped. Beats in ticks, values in thousandths.
pub open spec fn beat_pairs(items: Seq<Seq<u8>>) -> Seq<(int, int)>
    decreases items.len(),
{
    if items.len() == 0 {
        seq![]
    } else {
        let prev = beat_pairs(items.drop_last());
        let parts = split_on(trim_ws(items.last()), 61u8);
        if parts.len() >= 2 && readable_decimal(parts[0]) && readable_decimal(parts[1]) {
            prev.push((ticks_of_milli_beat(milli_of_decimal(parts[0]).unwrap()), milli_of_decimal(parts[1]).unwrap()))
        } else {
            prev
        }
    }
}

fn read_decimal(s: &[u8]) -> (r: Option<i64>)
    ensures
        r.is_some() == readable_decimal(s@),
        r.is_some() ==> milli_of_decimal(s@) == Some(r.unwrap() as int),
{
    let mut k: usize = 0;
    while k < s.len() && s[k] != 46u8
        invariant
            k <= s@.len(),
            forall|j: int| 0 <= j < k ==> s@[j] != 46u8,
        decreases s@.len() - k,
    {
        k += 1;
    }
    proof {
        lemma_index_of_public(s@, 46u8, k as int);
    }
    if k > 15 {
        return None;
    }
    parse_decimal_milli(s)
}

/// Reads a `#BPMS` or `#STOPS` list into beats (ticks) and values
/// (thousandths of a BPM, or milliseconds of pause).
pub fn parse_beats(raw: &str) -> (r: (Vec<i64>, Vec<i64>))
    ensures
        r.0@.len() == r.1@.len(),
        r.0@.len() == beat_pairs(split_on(raw.spec_bytes(), 44u8)).len(),
        forall|i: int|
            0 <= i < r.0@.len() ==> (#[trigger] r.0@[i]) as int == beat_pairs(split_on(raw.spec_bytes(), 44u8))[i].0
                && r.1@[i] as int == beat_pairs(split_on(raw.spec_bytes(), 44u8))[i].1,
{
    let items = split_fields(raw.as_bytes(), 44u8);
    let ghost all = split_on(raw.spec_bytes(), 44u8);
    let mut beats: Vec<i64> = Vec::new();
    let mut values: Vec<i64> = Vec::new();
    let mut i: usize = 0;
    while i < items.len()
        invariant
            i <= items@.len(),
            items@.len() == all.len(),
            all == split_on(raw.spec_bytes(), 44u8),
            forall|j: int| 0 <= j < items@.len() ==> (#[trigger] items@[j])@ == all[j],
            beats@.len() == values@.len(),
            beats@.len() == beat_pairs(all.subrange(0, i as int)).len(),
            forall|j: int|
                0 <= j < beats@.len() ==> (#[trigger] beats@[j]) as int == beat_pairs(all.subrange(0, i as int))[j].0
                    && values@[j] as int == beat_pairs(all.subrange(0, i as int))[j].1,
        decreases items@.len() - i,
    {
        let item = items[i].as_slice();
        let (lo, hi) = trim_bounds(item, 0, item.len());
        let t = copy_range(item, lo, hi);
        let parts = split_fields(t.as_slice(), 61u8);
        proof {
            assert(all.subrange(0, i + 1).drop_last() =~= all.subrange(0, i as int));
            assert(item@.subrange(0, item@.len() as int) =~= item@);
        }
        let ghost prev_pairs = beat_pairs(all.subrange(0, i as int));
        let ghost next_pairs = beat_pairs(all.subrange(0, i + 1));
        let ghost sp = split_on(trim_ws(all[i as int]), 61u8);
        proof {
            assert(t@ == trim_ws(all[i as int]));
        }
        let mut pushed = false;
        if parts.len() >= 2 {
            let b = read_decimal(parts[0].as_slice());
            let v = read_decimal(parts[1].as_slice());
            if b.is_some() && v.is_some() {
                let bm = b.unwrap();
                let num: i128 = bm as i128 * 24 + 12;
                let ticks: i128 = if num >= 0 { num / 25 } else { -((-num + 24) / 25) };
                proof {
                    if num < 0 {
                        assert(-((-(num as int) + 24) / 25) == (num as int) / 25) by (nonlinear_arith)
                            requires
                                num < 0,
                        ;
                    }
                    assert(i64::MIN <= ticks <= i64::MAX) by (nonlinear_arith)
                        requires
                            -9_223_372_036_854_775_808 <= bm <= 9_223_372_036_854_775_807,
                            num == bm * 24 + 12,
                            ticks == num / 25,
                    ;
                }
                let ghost bl = beats@;
                let ghost vl = values@;
                beats.push(ticks as i64);
                values.push(v.unwrap());
                pushed = true;
                proof {
                    assert(next_pairs == prev_pairs.push((ticks as int, v.unwrap() as int)));
                    assert forall|j: int| 0 <= j < beats@.len() implies (#[trigger] beats@[j]) as int == next_pairs[j].0
                        && values@[j] as int == next_pairs[j].1 by {
                        if j < bl.len() {
                            assert(beats@[j] == bl[j]);
                            assert(values@[j] == vl[j]);
                        }
                    }
                }
            }
        }
        proof {
            if !pushed {
                assert(next_pairs == prev_pairs);
            }
        }
        i += 1;
    }
    proof {
        assert(all.subrange(0, i as int) =~= all);
    }
    (beats, values)
}

fn copy_range(s: &[u8], lo: usize, hi: usize) -> (r: Vec<u8>)
    requires
        lo <= hi <= s@.len(),
    ensures
        r@ == s@.subrange(lo as int, hi as int),
{
    let mut out: Vec<u8> = Vec::with_capacity(hi - lo);
    let mut i: usize = lo;
    while i < hi
        invariant
            lo <= i <= hi,
            hi <= s@.len(),
            out@ == s@.subrange(lo as int, i as int),
        decreases hi - i,
    {
        out.push(s[i]);
        i += 1;
        assert(out@ =~= s@.subrange(lo as int, i as int));
    }
    out
}

/// Largest number of measures a note grid may hold.
pub const MAX_MEASURES: usize = 268435455;

/// A note grid read as nested sequences.
pub open spec fn grid_view(ms: Seq<Vec<Vec<Key>>>) -> Seq<Seq<Seq<Key>>> {
    Seq::new(ms.len(), |i: int| ms[i]@.map_values(|r: Vec<Key>| r@))
}

/// Every row of the grid with its beat (ticks): measure `i` starts at beat
/// `4 i`, and its `n` rows divide it evenly.
pub open spec fn grid_rows(ms: Seq<Seq<Seq<Key>>>) -> Seq<(int, Seq<Key>)>
    decreases ms.len(),
{
    if ms.len() == 0 {
        seq![]
    } else {
        let mi = ms.len() - 1;
        let m = ms.last();
        grid_rows(ms.drop_last()) + Seq::new(m.len(), |ri: int| (
            mi * (TICKS_PER_MEASURE as int) + ri * (TICKS_PER_MEASURE as int) / (m.len() as int),
            m[ri],
        ))
    }
}

/// Whether every row's time, under the change list, fits in an `i32`.
pub open spec fn grid_times_fit(
    rows: Seq<(int, Seq<Key>)>,
    start: i32,
    beats: Seq<i64>,
    values: Seq<i64>,
    kinds: Seq<TimingChangeType>,
) -> bool {
    forall|j: int|
        0 <= j < rows.len() ==> i32::MIN <= #[trigger] time_from_beat(rows[j].0, start as int, beats, values, kinds)
            <= i32::MAX
}

/// The rows of the grid that hold a note, with their times and beats.
pub open spec fn grid_entries(
    rows: Seq<(int, Seq<Key>)>,
    start: i32,
    beats: Seq<i64>,
    values: Seq<i64>,
    kinds: Seq<TimingChangeType>,
) -> Seq<(int, int, Seq<Key>)>
    decreases rows.len(),
{
    if rows.len() == 0 {
        seq![]
    } else {
        let prev = grid_entries(rows.drop_last(), start, beats, values, kinds);
        let (b, r) = rows.last();
        if row_has_content(r) {
            prev.push((time_from_beat(b, start as int, beats, values, kinds), b, r))
        } else {
            prev
        }
    }
}

/// The stored rows of `h` are exactly `e`, in order.
pub open spec fn rows_are(h: HitObjects, e: Seq<(int, int, Seq<Key>)>) -> bool {
    &&& h.rows.len() == e.len()
    &&& forall|j: int| 0 <= j < e.len() ==> #[trigger] h.times@[j] as int == e[j].0
    &&& forall|j: int| 0 <= j < e.len() ==> #[trigger] h.beats@[j] as int == e[j].1
    &&& forall|j: int| 0 <= j < e.len() ==> (#[trigger] h.rows@[j])@ == e[j].2
}

/// Builds the row grid of a StepMania note section: each row at its beat in
/// the measure grid, its time taken from `start_time` under the merged change
/// list; rows with no note are not stored. Fails when a time does not fit in
/// an `i32` or the grid has too many measures.
pub fn notes_to_hitobjects(
    measures: &Vec<Vec<Vec<Key>>>,
    start_time: i32,
    beats: &Vec<i64>,
    values: &Vec<i64>,
    kinds: &Vec<TimingChangeType>,
) -> (r: Result<HitObjects, ParseError>)
    requires
        valid_change_list(beats@, values@, kinds@),
    ensures
        match r {
            Ok(h) => {
                &&& measures@.len() <= MAX_MEASURES
                &&& grid_times_fit(grid_rows(grid_view(measures@)), start_time, beats@, values@, kinds@)
                &&& h.wf()
                &&& rows_are(h, grid_entries(grid_rows(grid_view(measures@)), start_time, beats@, values@, kinds@))
            },
            Err(_) => measures@.len() > MAX_MEASURES || !grid_times_fit(
                grid_rows(grid_view(measures@)),
                start_time,
                beats@,
                values@,
                kinds@,
            ),
        },
{
    if measures.len() > MAX_MEASURES {
        return Err(ParseError::InvalidChart(String::from_str("too many measures in the note data")));
    }
    let ghost g = grid_view(measures@);
    let mut h = HitObjects::with_capacity(0);
    let mut mi: usize = 0;
    let ghost mut done: Seq<(int, Seq<Key>)> = seq![];
    proof {
        assert(g.subrange(0, 0) =~= Seq::<Seq<Seq<Key>>>::empty());
    }
    while mi < measures.len()
        invariant
            mi <= measures@.len(),
            measures@.len() <= MAX_MEASURES,
            g == grid_view(measures@),
            valid_change_list(beats@, values@, kinds@),
            done == grid_rows(g.subrange(0, mi as int)),
            grid_times_fit(done, start_time, beats@, values@, kinds@),
            h.wf(),
            rows_are(h, grid_entries(done, start_time, beats@, values@, kinds@)),
        decreases measures@.len() - mi,
    {
        let measure = &measures[mi];
        let rc = measure.len();
        let ghost before = done;
        let ghost mrows = Seq::new(g[mi as int].len(), |ri: int| (
            mi * (TICKS_PER_MEASURE as int) + ri * (TICKS_PER_MEASURE as int) / (g[mi as int].len() as int),
            g[mi as int][ri],
        ));
        proof {
            assert(g.subrange(0, mi + 1).drop_last() =~= g.subrange(0, mi as int));
            assert(grid_rows(g.subrange(0, mi + 1)) == before + mrows);
        }
        let mut ri: usize = 0;
        while ri < rc
            invariant
                ri <= rc,
                rc == measure@.len(),
                measure == &measures@[mi as int],
                mi < measures@.len(),
                measures@.len() <= MAX_MEASURES,
                g == grid_view(measures@),
                valid_change_list(beats@, values@, kinds@),
                mrows.len() == rc,
                mrows == Seq::new(g[mi as int].len(), |ri: int| (
                    mi * (TICKS_PER_MEASURE as int) + ri * (TICKS_PER_MEASURE as int) / (g[mi as int].len() as int),
                    g[mi as int][ri],
                )),
                done == before + mrows.subrange(0, ri as int),
                before == grid_rows(g.subrange(0, mi as int)),
                grid_rows(g.subrange(0, mi + 1)) == before + mrows,
                grid_times_fit(done, start_time, beats@, values@, kinds@),
                h.wf(),
                rows_are(h, grid_entries(done, start_time, beats@, values@, kinds@)),
            decreases rc - ri,
        {
            proof {
                assert((ri as int) * 3840 / (rc as int) < 3840) by (nonlinear_arith)
                    requires
                        ri < rc,
                ;
                assert((ri as int) * 3840 / (rc as int) >= 0) by (nonlinear_arith)
                    requires
                        ri < rc,
                ;
                assert((mi as int) * 3840 <= 268435455 * 3840) by (nonlinear_arith)
                    requires
                        mi <= 268435455,
                ;
            }
            let offset_in: i64 = ((ri as u128) * 3840 / (rc as u128)) as i64;
            let beat: i64 = (mi as i64) * TICKS_PER_MEASURE + offset_in;
            let t = calculate_time_from_beat(beat, start_time, beats, values, kinds);
            let ghost entry = mrows[ri as int];
            proof {
                assert(entry.0 == beat as int);
                assert(measure@[ri as int]@ == entry.1);
            }
            if t < i32::MIN as i128 || t > i32::MAX as i128 {
                proof {
                    assert(mrows.subrange(0, ri + 1) =~= mrows.subrange(0, ri as int).push(entry));
                    lemma_times_fit_prefix(done.push(entry), grid_rows(g), start_time, beats@, values@, kinds@, g, mi as int, before, mrows, ri as int);
                }
                return Err(ParseError::InvalidChart(String::from_str("a row's time does not fit in milliseconds")));
            }
            let row = measure[ri].clone();
            proof {
                assert(row@ == measure@[ri as int]@);
            }
            let ghost hb = h;
            h.add_hitobject(t as i32, beat, KeySoundRow::empty(), row);
            proof {
                let nd = done.push(entry);
                assert(nd.drop_last() =~= done);
                assert(mrows.subrange(0, ri + 1) =~= mrows.subrange(0, ri as int).push(entry));
                assert(before + mrows.subrange(0, ri + 1) =~= nd);
                let e0 = grid_entries(done, start_time, beats@, values@, kinds@);
                if row_has_content(entry.1) {
                    assert(grid_entries(nd, start_time, beats@, values@, kinds@) == e0.push(
                        (time_from_beat(entry.0, start_time as int, beats@, values@, kinds@), entry.0, entry.1),
                    ));
                    let e1 = grid_entries(nd, start_time, beats@, values@, kinds@);
                    assert forall|j: int| 0 <= j < e1.len() implies #[trigger] h.times@[j] as int == e1[j].0 by {
                        if j < e0.len() {
                            assert(h.times@[j] == hb.times@[j]);
                        }
                    }
                    assert forall|j: int| 0 <= j < e1.len() implies #[trigger] h.beats@[j] as int == e1[j].1 by {
                        if j < e0.len() {
                            assert(h.beats@[j] == hb.beats@[j]);
                        }
                    }
                    assert forall|j: int| 0 <= j < e1.len() implies (#[trigger] h.rows@[j])@ == e1[j].2 by {
                        if j < e0.len() {
                            assert(h.rows@[j] == hb.rows@[j]);
                        }
                    }
                    assert(rows_are(h, grid_entries(nd, start_time, beats@, values@, kinds@)));
                } else {
                    assert(grid_entries(nd, start_time, beats@, values@, kinds@) == e0);
                    assert(rows_are(h, grid_entries(nd, start_time, beats@, values@, kinds@)));
                }
                done = nd;
            }
            ri += 1;
        }
        proof {
            assert(mrows.subrange(0, rc as int) =~= mrows);
        }
        mi += 1;
    }
    proof {
        assert(g.subrange(0, mi as int) =~= g);
    }
    Ok(h)
}

/// Stop pause: the scroll velocity that halts scrolling, and the one that
/// resumes it (thousandths).
pub const SV_HALT: i64 = 0;
pub const SV_RESUME: i64 = 1000;

/// Timing entries of change `i`: a tempo change gives one entry at its time;
/// a stop gives a halt at its time and a resume after its pause, both at its
/// beat; other kinds give none.
pub open spec fn change_entries(
    i: int,
    start: i32,
    beats: Seq<i64>,
    values: Seq<i64>,
    kinds: Seq<TimingChangeType>,
) -> Seq<(int, int, TimingChange)> {
    let t = time_from_beat(beats[i] as int, start as int, beats, values, kinds);
    let b = beats[i] as int;
    match kinds[i] {
        TimingChangeType::Bpm => seq![(t, b, TimingChange { change_type: TimingChangeType::Bpm, value: values[i] })],
        TimingChangeType::Stop => seq![
            (t, b, TimingChange { change_type: TimingChangeType::Sv, value: SV_HALT }),
            (t + values[i], b, TimingChange { change_type: TimingChangeType::Sv, value: SV_RESUME }),
        ],
        TimingChangeType::Sv => seq![],
    }
}

/// Timing entries of the first `n` changes.
pub open spec fn change_list_entries(
    n: int,
    start: i32,
    beats: Seq<i64>,
    values: Seq<i64>,
    kinds: Seq<TimingChangeType>,
) -> Seq<(int, int, TimingChange)>
    decreases n,
{
    if n <= 0 {
        seq![]
    } else {
        change_list_entries(n - 1, start, beats, values, kinds) + change_entries(n - 1, start, beats, values, kinds)
    }
}

/// Every entry's time fits in an `i32`.
pub open spec fn entry_times_fit(e: Seq<(int, int, TimingChange)>) -> bool {
    forall|j: int| 0 <= j < e.len() ==> i32::MIN <= #[trigger] e[j].0 <= i32::MAX
}

/// The timing lists hold exactly `e`, in order.
pub open spec fn timing_is(tp: TimingPoints, e: Seq<(int, int, TimingChange)>) -> bool {
    &&& tp.wf()
    &&& tp.changes.len() == e.len()
    &&& forall|j: int| 0 <= j < e.len() ==> #[trigger] tp.times@[j] as int == e[j].0
    &&& forall|j: int| 0 <= j < e.len() ==> #[trigger] tp.beats@[j] as int == e[j].1
    &&& forall|j: int| 0 <= j < e.len() ==> #[trigger] tp.changes@[j] == e[j].2
}

fn push_entry(tp: &mut TimingPoints, time: i128, beat: i64, change: TimingChange, Ghost(e): Ghost<Seq<(int, int, TimingChange)>>)
    requires
        timing_is(*old(tp), e),
        i32::MIN <= time <= i32::MAX,
    ensures
        timing_is(*final(tp), e.push((time as int, beat as int, change))),
{
    let ghost before = *tp;
    tp.add(time as i32, beat, change);
    proof {
        let e1 = e.push((time as int, beat as int, change));
        assert forall|j: int| 0 <= j < e1.len() implies #[trigger] tp.times@[j] as int == e1[j].0 by {
            if j < e.len() {
                assert(tp.times@[j] == before.times@[j]);
            }
        }
        assert forall|j: int| 0 <= j < e1.len() implies #[trigger] tp.beats@[j] as int == e1[j].1 by {
            if j < e.len() {
                assert(tp.beats@[j] == before.beats@[j]);
            }
        }
        assert forall|j: int| 0 <= j < e1.len() implies #[trigger] tp.changes@[j] == e1[j].2 by {
            if j < e.len() {
                assert(tp.changes@[j] == before.changes@[j]);
            }
        }
    }
}

/// Timing entries of StepMania's merged change list: each change placed at
/// its time from `start_time`. Fails when a time does not fit in an `i32`.
pub fn sm_timing_points(
    start_time: i32,
    beats: &Vec<i64>,
    values: &Vec<i64>,
    kinds: &Vec<TimingChangeType>,
) -> (r: Result<TimingPoints, ParseError>)
    requires
        valid_change_list(beats@, values@, kinds@),
        beats@.len() == values@.len(),
    ensures
        match r {
            Ok(tp) => entry_times_fit(change_list_entries(beats@.len() as int, start_time, beats@, values@, kinds@))
                && timing_is(tp, change_list_entries(beats@.len() as int, start_time, beats@, values@, kinds@)),
            Err(_) => !entry_times_fit(change_list_entries(beats@.len() as int, start_time, beats@, values@, kinds@)),
        },
{
    let mut tp = TimingPoints::with_capacity(beats.len());
    let n = beats.len();
    let mut i: usize = 0;
    while i < n
        invariant
            i <= n,
            n == beats@.len(),
            n == values@.len(),
            valid_change_list(beats@, values@, kinds@),
            entry_times_fit(change_list_entries(i as int, start_time, beats@, values@, kinds@)),
            timing_is(tp, change_list_entries(i as int, start_time, beats@, values@, kinds@)),
        decreases n - i,
    {
        let ghost prev = change_list_entries(i as int, start_time, beats@, values@, kinds@);
        let ghost mine = change_entries(i as int, start_time, beats@, values@, kinds@);
        let ghost all_i = change_list_entries(n as int, start_time, beats@, values@, kinds@);
        proof {
            assert(change_list_entries(i + 1, start_time, beats@, values@, kinds@) == prev + mine);
            lemma_entries_prefix(n as int, i + 1, start_time, beats@, values@, kinds@);
        }
        let b = beats[i];
        let v = values[i];
        let t = calculate_time_from_beat(b, start_time, beats, values, kinds);
        match kinds[i] {
            TimingChangeType::Bpm => {
                if t < i32::MIN as i128 || t > i32::MAX as i128 {
                    proof {
                        assert(all_i[prev.len() as int] == (prev + mine)[prev.len() as int]);
                        assert(!(i32::MIN <= all_i[prev.len() as int].0 <= i32::MAX));
                    }
                    return Err(ParseError::InvalidChart(String::from_str("a tempo change's time does not fit in milliseconds")));
                }
                push_entry(&mut tp, t, b, TimingChange { change_type: TimingChangeType::Bpm, value: v }, Ghost(prev));
                proof {
                    assert(prev + mine =~= prev.push(mine[0]));
                }
            },
            TimingChangeType::Stop => {
                let t2: i128 = t + v as i128;
                if t < i32::MIN as i128 || t > i32::MAX as i128 || t2 < i32::MIN as i128 || t2 > i32::MAX as i128 {
                    proof {
                        assert(all_i[prev.len() as int] == (prev + mine)[prev.len() as int]);
                        assert(all_i[prev.len() as int + 1] == (prev + mine)[prev.len() as int + 1]);
                        if t < i32::MIN as i128 || t > i32::MAX as i128 {
                            assert(!(i32::MIN <= all_i[prev.len() as int].0 <= i32::MAX));
                        } else {
                            assert(!(i32::MIN <= all_i[prev.len() as int + 1].0 <= i32::MAX));
                        }
                    }
                    return Err(ParseError::InvalidChart(String::from_str("a stop's time does not fit in milliseconds")));
                }
                push_entry(&mut tp, t, b, TimingChange { change_type: TimingChangeType::Sv, value: SV_HALT }, Ghost(prev));
                push_entry(&mut tp, t2, b, TimingChange { change_type: TimingChangeType::Sv, value: SV_RESUME }, Ghost(prev.push(mine[0])));
                proof {
                    assert(prev + mine =~= prev.push(mine[0]).push(mine[1]));
                }
            },
            TimingChangeType::Sv => {
                proof {
                    assert(prev + mine =~= prev);
                }
            },
        }
        i += 1;
    }
    Ok(tp)
}

proof fn lemma_entries_prefix(
    n: int,
    k: int,
    start: i32,
    beats: Seq<i64>,
    values: Seq<i64>,
    kinds: Seq<TimingChangeType>,
)
    requires
        0 <= k <= n,
    ensures
        change_list_entries(n, start, beats, values, kinds).len() >= change_list_entries(k, start, beats, values, kinds).len(),
        forall|j: int|
            0 <= j < change_list_entries(k, start, beats, values, kinds).len() ==> change_list_entries(n, start, beats, values, kinds)[j]
                == change_list_entries(k, start, beats, values, kinds)[j],
    decreases n - k,
{
    if k < n {
        lemma_entries_prefix(n, k + 1, start, beats, values, kinds);
    }
}

proof fn lemma_times_fit_prefix(
    bad: Seq<(int, Seq<Key>)>,
    all: Seq<(int, Seq<Key>)>,
    start: i32,
    beats: Seq<i64>,
    values: Seq<i64>,
    kinds: Seq<TimingChangeType>,
    g: Seq<Seq<Seq<Key>>>,
    mi: int,
    before: Seq<(int, Seq<Key>)>,
    mrows: Seq<(int, Seq<Key>)>,
    ri: int,
)
    requires
        0 <= mi < g.len(),
        0 <= ri < mrows.len(),
        before == grid_rows(g.subrange(0, mi)),
        grid_rows(g.subrange(0, mi + 1)) == before + mrows,
        bad == before + mrows.subrange(0, ri + 1),
        !(i32::MIN <= time_from_beat(bad.last().0, start as int, beats, values, kinds) <= i32::MAX),
        all == grid_rows(g),
    ensures
        !grid_times_fit(all, start, beats, values, kinds),
{
    lemma_grid_rows_prefix(g, mi + 1);
    let j = before.len() + ri;
    assert(all[j] == bad.last());
}

proof fn lemma_grid_rows_prefix(g: Seq<Seq<Seq<Key>>>, k: int)
    requires
        0 <= k <= g.len(),
    ensures
        grid_rows(g).len() >= grid_rows(g.subrange(0, k)).len(),
        forall|j: int| 0 <= j < grid_rows(g.subrange(0, k)).len() ==> grid_rows(g)[j] == grid_rows(g.subrange(0, k))[j],
    decreases g.len() - k,
{
    if k < g.len() {
        lemma_grid_rows_prefix(g, k + 1);
        assert(g.subrange(0, k + 1).drop_last() =~= g.subrange(0, k));
    } else {
        assert(g.subrange(0, k) =~= g);
    }
}

proof fn lemma_min_gap_range(b: Seq<i64>, hi: int)
    ensures
        0 < min_gap(b, hi) <= TICKS_PER_MEASURE,
    decreases hi,
{
    if hi > 1 {
        lemma_min_gap_range(b, hi - 1);
    }
}

} // verus!
