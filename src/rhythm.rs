//! Conversion between time and beat position under a piecewise tempo.
use vstd::prelude::*;
use crate::common::{
    TimingChangeType, MAX_MILLI_BPM, MAX_SEGMENTS, MS_MILLI_BPM_PER_TICK, MAX_TICKS,
    TICKS_PER_BEAT,
};
use crate::helpers::{thresholded_ceil, thresholded_ceil_spec};

verus! {

/// Fraction of a beat, in ticks, from which a beat position is rounded up to
/// the next whole beat (0.95 of a beat).
pub const BEAT_ROUNDING_THRESHOLD: i64 = 912;

/// Length of the overlap of `[lo, hi)` and `[a, b)`.
pub open spec fn overlap(lo: int, hi: int, a: int, b: int) -> int {
    let l = if lo > a { lo } else { a };
    let h = if hi < b { hi } else { b };
    if h > l { h - l } else { 0 }
}

/// Sorted ascending.
pub open spec fn sorted_i32(s: Seq<i32>) -> bool {
    forall|i: int, j: int| 0 <= i <= j < s.len() ==> s[i] <= s[j]
}

/// Sorted ascending.
pub open spec fn sorted_i64(s: Seq<i64>) -> bool {
    forall|i: int, j: int| 0 <= i <= j < s.len() ==> s[i] <= s[j]
}

/// End of tempo segment `i`: the next change, or `t` for the last one.
pub open spec fn seg_end(times: Seq<i32>, i: int, t: int) -> int {
    if i + 1 < times.len() { times[i + 1] as int } else { t }
}

/// Tempo times elapsed milliseconds, for the part of segment `i` that lies in
/// `[start, t)`.
pub open spec fn tempo_term(times: Seq<i32>, bpms: Seq<i64>, start: int, t: int, i: int) -> int {
    bpms[i] * overlap(times[i] as int, seg_end(times, i, t), start, t)
}

pub open spec fn tempo_sum(times: Seq<i32>, bpms: Seq<i64>, start: int, t: int, lo: int, hi: int) -> int
    decreases hi - lo,
{
    if lo >= hi {
        0
    } else {
        tempo_term(times, bpms, start, t, lo) + tempo_sum(times, bpms, start, t, lo + 1, hi)
    }
}

/// Integral of the tempo (thousandths of a BPM) over `[start, t)` in
/// milliseconds. Before the first change the tempo is 0; each change holds
/// until the next.
pub open spec fn tempo_integral(times: Seq<i32>, bpms: Seq<i64>, start: int, t: int) -> int {
    tempo_sum(times, bpms, start, t, 0, times.len() as int)
}

/// Beat position, in ticks, of time `t` measured from `start`: the tempo
/// integral converted to ticks (rounded down), then rounded up to a whole
/// beat from 0.95 of a beat on. 0 before `start`; -1 when the tempo list is
/// empty or the two lists differ in length.
pub open spec fn beat_from_time(t: int, start: int, times: Seq<i32>, bpms: Seq<i64>) -> int {
    if times.len() == 0 || times.len() != bpms.len() {
        -1
    } else if t < start {
        0
    } else {
        thresholded_ceil_spec(
            tempo_integral(times, bpms, start, t) / (MS_MILLI_BPM_PER_TICK as int),
            BEAT_ROUNDING_THRESHOLD as int,
        )
    }
}

/// Tempo list usable for conversion: sorted, tempos within range.
pub open spec fn valid_tempo_list(times: Seq<i32>, bpms: Seq<i64>) -> bool {
    &&& sorted_i32(times)
    &&& times.len() <= MAX_SEGMENTS
    &&& forall|i: int| 0 <= i < bpms.len() ==> 0 <= #[trigger] bpms[i] <= MAX_MILLI_BPM
}

proof fn lemma_sum_split(times: Seq<i32>, bpms: Seq<i64>, start: int, t: int, lo: int, mid: int, hi: int)
    requires
        lo <= mid <= hi,
    ensures
        tempo_sum(times, bpms, start, t, lo, hi) == tempo_sum(times, bpms, start, t, lo, mid)
            + tempo_sum(times, bpms, start, t, mid, hi),
    decreases mid - lo,
{
    if lo < mid {
        lemma_sum_split(times, bpms, start, t, lo + 1, mid, hi);
    }
}

proof fn lemma_sum_zero(times: Seq<i32>, bpms: Seq<i64>, start: int, t: int, lo: int, hi: int)
    requires
        forall|k: int| lo <= k < hi ==> tempo_term(times, bpms, start, t, k) == 0,
    ensures
        tempo_sum(times, bpms, start, t, lo, hi) == 0,
    decreases hi - lo,
{
    if lo < hi {
        lemma_sum_zero(times, bpms, start, t, lo + 1, hi);
    }
}

/// Number of leading entries not greater than `x` (the partition point).
pub fn count_at_most_i32(s: &Vec<i32>, x: i64) -> (r: usize)
    requires
        sorted_i32(s@),
    ensures
        r <= s.len(),
        forall|k: int| 0 <= k < r ==> s@[k] <= x,
        forall|k: int| r <= k < s.len() ==> s@[k] > x,
{
    let mut lo: usize = 0;
    let mut hi: usize = s.len();
    while lo < hi
        invariant
            lo <= hi <= s.len(),
            sorted_i32(s@),
            forall|k: int| 0 <= k < lo ==> s@[k] <= x,
            forall|k: int| hi <= k < s.len() ==> s@[k] > x,
        decreases hi - lo,
    {
        let mid = lo + (hi - lo) / 2;
        if s[mid] as i64 <= x {
            lo = mid + 1;
        } else {
            hi = mid;
        }
    }
    lo
}

/// Number of leading entries not greater than `x` (the partition point).
pub fn count_at_most_i64(s: &Vec<i64>, x: i64) -> (r: usize)
    requires
        sorted_i64(s@),
    ensures
        r <= s.len(),
        forall|k: int| 0 <= k < r ==> s@[k] <= x,
        forall|k: int| r <= k < s.len() ==> s@[k] > x,
{
    let mut lo: usize = 0;
    let mut hi: usize = s.len();
    while lo < hi
        invariant
            lo <= hi <= s.len(),
            sorted_i64(s@),
            forall|k: int| 0 <= k < lo ==> s@[k] <= x,
            forall|k: int| hi <= k < s.len() ==> s@[k] > x,
        decreases hi - lo,
    {
        let mid = lo + (hi - lo) / 2;
        if s[mid] <= x {
            lo = mid + 1;
        } else {
            hi = mid;
        }
    }
    lo
}

fn overlap_exec(lo: i64, hi: i64, a: i64, b: i64) -> (r: i64)
    requires
        -0x1_0000_0000 <= lo <= 0x1_0000_0000,
        -0x1_0000_0000 <= hi <= 0x1_0000_0000,
        -0x1_0000_0000 <= a <= 0x1_0000_0000,
        -0x1_0000_0000 <= b <= 0x1_0000_0000,
    ensures
        r == overlap(lo as int, hi as int, a as int, b as int),
{
    let l = if lo > a { lo } else { a };
    let h = if hi < b { hi } else { b };
    if h > l { h - l } else { 0 }
}

/// Beat position, in ticks, of `time` measured from `start_time` under the
/// tempo changes `(bpm_times[i], bpms[i])` (thousandths of a BPM), which must
/// be sorted by time. Returns 0 before `start_time` and -1 for an empty or
/// mismatched tempo list.
pub fn calculate_beat_from_time(time: i32, start_time: i32, bpm_times: &Vec<i32>, bpms: &Vec<i64>) -> (r: i64)
    requires
        valid_tempo_list(bpm_times@, bpms@),
    ensures
        r == beat_from_time(time as int, start_time as int, bpm_times@, bpms@),
{
    if bpm_times.len() == 0 || bpms.len() == 0 || bpm_times.len() != bpms.len() {
        return -1;
    }
    if time < start_time {
        return 0;
    }
    let ghost ts = bpm_times@;
    let ghost bs = bpms@;
    let ghost st = start_time as int;
    let ghost tt = time as int;
    let n = bpm_times.len();
    let start_idx = count_at_most_i32(bpm_times, start_time as i64);
    let end_idx = count_at_most_i32(bpm_times, time as i64);
    let first = if start_idx > 0 { start_idx - 1 } else { 0 };
    proof {
        if start_idx > 0 {
            assert(ts[start_idx - 1] <= tt);
        }
        assert forall|k: int| 0 <= k < first implies tempo_term(ts, bs, st, tt, k) == 0 by {
            assert(k + 1 < start_idx);
        }
        assert forall|k: int| end_idx <= k < n implies tempo_term(ts, bs, st, tt, k) == 0 by {
            assert(ts[k] > tt);
        }
        lemma_sum_zero(ts, bs, st, tt, 0, first as int);
        lemma_sum_zero(ts, bs, st, tt, end_idx as int, n as int);
        lemma_sum_split(ts, bs, st, tt, 0, first as int, n as int);
        if start_idx > end_idx {
            assert(ts[end_idx as int] <= st);
        }
    }
    let mut acc: i128 = 0;
    let mut i: usize = first;
    while i < end_idx
        invariant
            first <= i <= end_idx,
            end_idx <= n,
            n == bpm_times.len(),
            n == bpms.len(),
            ts == bpm_times@,
            bs == bpms@,
            st == start_time as int,
            tt == time as int,
            st <= tt,
            valid_tempo_list(ts, bs),
            0 <= acc <= (i - first) * (MAX_MILLI_BPM as int) * 0x1_0000_0000,
            acc == tempo_sum(ts, bs, st, tt, first as int, i as int),
        decreases end_idx - i,
    {
        let hi: i64 = if i + 1 < n { bpm_times[i + 1] as i64 } else { time as i64 };
        let ov = overlap_exec(bpm_times[i] as i64, hi, start_time as i64, time as i64);
        let b = bpms[i];
        proof {
            assert(0 <= ov <= 0x1_0000_0000);
            assert(0 <= b <= MAX_MILLI_BPM);
            assert(0 <= b * ov <= (MAX_MILLI_BPM as int) * 0x1_0000_0000) by (nonlinear_arith)
                requires
                    0 <= ov <= 0x1_0000_0000,
                    0 <= b <= MAX_MILLI_BPM,
            ;
            lemma_sum_split(ts, bs, st, tt, first as int, i as int, i + 1);
            assert(tempo_sum(ts, bs, st, tt, i + 1, i + 1) == 0);
            assert(tempo_sum(ts, bs, st, tt, i as int, i + 1) == tempo_term(ts, bs, st, tt, i as int));
            assert(ov == overlap(ts[i as int] as int, seg_end(ts, i as int, tt), st, tt));
            assert(i - first < MAX_SEGMENTS);
            assert((i + 1 - first) * (MAX_MILLI_BPM as int) * 0x1_0000_0000 == (i - first) * (
            MAX_MILLI_BPM as int) * 0x1_0000_0000 + (MAX_MILLI_BPM as int) * 0x1_0000_0000)
                by (nonlinear_arith);
            assert((i - first) * (MAX_MILLI_BPM as int) * 0x1_0000_0000 <= (MAX_SEGMENTS as int) * (
            MAX_MILLI_BPM as int) * 0x1_0000_0000) by (nonlinear_arith)
                requires
                    i - first < MAX_SEGMENTS,
            ;
        }
        acc = acc + (b as i128) * (ov as i128);
        i += 1;
    }
    proof {
        lemma_sum_split(ts, bs, st, tt, first as int, end_idx as int, n as int);
        assert((end_idx - first) * (MAX_MILLI_BPM as int) * 0x1_0000_0000 <= (MAX_SEGMENTS as int) * (
        MAX_MILLI_BPM as int) * 0x1_0000_0000) by (nonlinear_arith)
            requires
                end_idx - first <= MAX_SEGMENTS,
        ;
    }
    let ticks: i64 = (acc / (MS_MILLI_BPM_PER_TICK as i128)) as i64;
    thresholded_ceil(ticks, BEAT_ROUNDING_THRESHOLD)
}

proof fn lemma_sum_nonneg_mono(times: Seq<i32>, bpms: Seq<i64>, start: int, t1: int, t2: int, lo: int, hi: int)
    requires
        t1 <= t2,
        lo >= 0,
        hi <= bpms.len(),
        hi <= times.len(),
        forall|i: int| 0 <= i < bpms.len() ==> 0 <= #[trigger] bpms[i],
    ensures
        0 <= tempo_sum(times, bpms, start, t1, lo, hi) <= tempo_sum(times, bpms, start, t2, lo, hi),
    decreases hi - lo,
{
    if lo < hi {
        lemma_sum_nonneg_mono(times, bpms, start, t1, t2, lo + 1, hi);
        let o1 = overlap(times[lo] as int, seg_end(times, lo, t1), start, t1);
        let o2 = overlap(times[lo] as int, seg_end(times, lo, t2), start, t2);
        assert(0 <= o1 <= o2);
        let b = bpms[lo] as int;
        assert(0 <= b * o1 <= b * o2) by (nonlinear_arith)
            requires
                0 <= o1 <= o2,
                0 <= b,
        ;
    }
}

proof fn lemma_thresholded_mono(v1: int, v2: int, th: int)
    requires
        0 <= v1 <= v2,
    ensures
        v1 <= thresholded_ceil_spec(v1, th) <= thresholded_ceil_spec(v2, th),
{
}

/// For a fixed tempo list, the beat position never decreases as time
/// advances.
pub proof fn lemma_beat_monotonic(t1: int, t2: int, start: int, times: Seq<i32>, bpms: Seq<i64>)
    requires
        valid_tempo_list(times, bpms),
        t1 <= t2,
    ensures
        beat_from_time(t1, start, times, bpms) <= beat_from_time(t2, start, times, bpms),
{
    if times.len() != 0 && times.len() == bpms.len() {
        let n = times.len() as int;
        lemma_sum_nonneg_mono(times, bpms, start, t1, t2, 0, n);
        lemma_sum_nonneg_mono(times, bpms, start, t2, t2, 0, n);
        let k = MS_MILLI_BPM_PER_TICK as int;
        let i1 = tempo_integral(times, bpms, start, t1);
        let i2 = tempo_integral(times, bpms, start, t2);
        assert(0 <= i1 / k <= i2 / k) by (nonlinear_arith)
            requires
                0 <= i1 <= i2,
                k == 62500,
        ;
        lemma_thresholded_mono(i1 / k, i2 / k, BEAT_ROUNDING_THRESHOLD as int);
        lemma_thresholded_mono(0, i2 / k, BEAT_ROUNDING_THRESHOLD as int);
    }
}

/// Tempo in force during change segment `i` of a beat-keyed change list: a
/// BPM entry sets its own value; a stop or velocity entry after beat 0 keeps
/// the tempo before it; one at or before beat 0 leaves no tempo (0).
pub open spec fn tempo_at(beats: Seq<i64>, values: Seq<i64>, kinds: Seq<TimingChangeType>, i: int) -> int
    decreases i,
{
    if i < 0 {
        0
    } else if kinds[i] == TimingChangeType::Bpm {
        values[i] as int
    } else if beats[i] > 0 && i > 0 {
        tempo_at(beats, values, kinds, i - 1)
    } else {
        0
    }
}

/// End of beat segment `i`: the next change, or `b` for the last one.
pub open spec fn beat_seg_end(beats: Seq<i64>, i: int, b: int) -> int {
    if i + 1 < beats.len() { beats[i + 1] as int } else { b }
}

/// Milliseconds spent in change segment `i` up to beat `b` (ticks), rounded
/// down, plus the pause of a stop placed in `(0, b]`.
pub open spec fn time_term(beats: Seq<i64>, values: Seq<i64>, kinds: Seq<TimingChangeType>, b: int, i: int) -> int {
    let tempo = tempo_at(beats, values, kinds, i);
    let ov = overlap(beats[i] as int, beat_seg_end(beats, i, b), 0, b);
    let play = if tempo != 0 { ov * (MS_MILLI_BPM_PER_TICK as int) / tempo } else { 0 };
    let pause = if kinds[i] == TimingChangeType::Stop && 0 < beats[i] <= b { values[i] as int } else { 0 };
    play + pause
}

pub open spec fn time_sum(beats: Seq<i64>, values: Seq<i64>, kinds: Seq<TimingChangeType>, b: int, lo: int, hi: int) -> int
    decreases hi - lo,
{
    if lo >= hi {
        0
    } else {
        time_term(beats, values, kinds, b, lo) + time_sum(beats, values, kinds, b, lo + 1, hi)
    }
}

/// Time, in milliseconds, of beat `b` (ticks from beat 0 at `start`) under a
/// beat-keyed list of tempo changes and stops. `start` for a negative beat;
/// -1 when the list is empty or beats and values differ in length.
pub open spec fn time_from_beat(
    b: int,
    start: int,
    beats: Seq<i64>,
    values: Seq<i64>,
    kinds: Seq<TimingChangeType>,
) -> int {
    if beats.len() == 0 || values.len() == 0 || beats.len() != values.len() {
        -1
    } else if b < 0 {
        start
    } else {
        start + time_sum(beats, values, kinds, b, 0, beats.len() as int)
    }
}

/// Change list usable for conversion: sorted by beat, beats and pauses within
/// range, tempos within range.
pub open spec fn valid_change_list(beats: Seq<i64>, values: Seq<i64>, kinds: Seq<TimingChangeType>) -> bool {
    &&& sorted_i64(beats)
    &&& beats.len() <= MAX_SEGMENTS
    &&& kinds.len() == values.len()
    &&& forall|i: int| 0 <= i < beats.len() ==> -MAX_TICKS <= #[trigger] beats[i] <= MAX_TICKS
    &&& forall|i: int| 0 <= i < values.len() ==> -MAX_TICKS <= #[trigger] values[i] <= MAX_TICKS
    &&& forall|i: int|
        0 <= i < values.len() && kinds[i] == TimingChangeType::Bpm ==> 0 <= #[trigger] values[i]
            <= MAX_MILLI_BPM
}

proof fn lemma_time_split(beats: Seq<i64>, values: Seq<i64>, kinds: Seq<TimingChangeType>, b: int, lo: int, mid: int, hi: int)
    requires
        lo <= mid <= hi,
    ensures
        time_sum(beats, values, kinds, b, lo, hi) == time_sum(beats, values, kinds, b, lo, mid)
            + time_sum(beats, values, kinds, b, mid, hi),
    decreases mid - lo,
{
    if lo < mid {
        lemma_time_split(beats, values, kinds, b, lo + 1, mid, hi);
    }
}

proof fn lemma_time_zero(beats: Seq<i64>, values: Seq<i64>, kinds: Seq<TimingChangeType>, b: int, lo: int, hi: int)
    requires
        forall|k: int| lo <= k < hi ==> time_term(beats, values, kinds, b, k) == 0,
    ensures
        time_sum(beats, values, kinds, b, lo, hi) == 0,
    decreases hi - lo,
{
    if lo < hi {
        lemma_time_zero(beats, values, kinds, b, lo + 1, hi);
    }
}

proof fn lemma_tempo_range(beats: Seq<i64>, values: Seq<i64>, kinds: Seq<TimingChangeType>, i: int)
    requires
        valid_change_list(beats, values, kinds),
        beats.len() == values.len(),
        i < beats.len(),
    ensures
        0 <= tempo_at(beats, values, kinds, i) <= MAX_MILLI_BPM,
    decreases i,
{
    if i >= 0 && kinds[i] != TimingChangeType::Bpm && beats[i] > 0 && i > 0 {
        lemma_tempo_range(beats, values, kinds, i - 1);
    }
}

/// Time, in milliseconds, of `beat` (ticks) measured from `start_time` under a
/// list of tempo changes and stops keyed by beat and sorted by it. A BPM entry
/// holds a tempo in thousandths of a BPM; a stop entry a pause in
/// milliseconds. Returns `start_time` for a negative beat and -1 for an empty
/// or mismatched list.
pub fn calculate_time_from_beat(
    beat: i64,
    start_time: i32,
    bpm_beats: &Vec<i64>,
    bpm_or_duration: &Vec<i64>,
    change_types: &Vec<TimingChangeType>,
) -> (r: i128)
    requires
        valid_change_list(bpm_beats@, bpm_or_duration@, change_types@),
        -MAX_TICKS <= beat <= MAX_TICKS,
    ensures
        r == time_from_beat(beat as int, start_time as int, bpm_beats@, bpm_or_duration@, change_types@),
        -0x1_0000_0000_0000_0000_0000 <= r <= 0x1_0000_0000_0000_0000_0000,
{
    if bpm_beats.len() == 0 || bpm_or_duration.len() == 0 || bpm_beats.len() != bpm_or_duration.len() {
        return -1;
    }
    if beat < 0 {
        return start_time as i128;
    }
    let ghost bs = bpm_beats@;
    let ghost vs = bpm_or_duration@;
    let ghost ks = change_types@;
    let ghost bb = beat as int;
    let n = bpm_beats.len();
    let start_idx = count_at_most_i64(bpm_beats, 0);
    let end_idx = count_at_most_i64(bpm_beats, beat);
    let first = if start_idx > 0 { start_idx - 1 } else { 0 };
    proof {
        assert forall|k: int| 0 <= k < first implies time_term(bs, vs, ks, bb, k) == 0 by {
            assert(k + 1 < start_idx);
            let ov = overlap(bs[k] as int, beat_seg_end(bs, k, bb), 0, bb);
            assert(ov == 0);
            let t = tempo_at(bs, vs, ks, k);
            if t != 0 {
                assert(ov * 62500 / t == 0) by (nonlinear_arith)
                    requires
                        ov == 0,
                        t != 0,
                ;
            }
        }
        assert forall|k: int| end_idx <= k < n implies time_term(bs, vs, ks, bb, k) == 0 by {
            assert(bs[k] > bb);
            let ov = overlap(bs[k] as int, beat_seg_end(bs, k, bb), 0, bb);
            assert(ov == 0);
            let t = tempo_at(bs, vs, ks, k);
            if t != 0 {
                assert(ov * 62500 / t == 0) by (nonlinear_arith)
                    requires
                        ov == 0,
                        t != 0,
                ;
            }
        }
        lemma_time_zero(bs, vs, ks, bb, 0, first as int);
        lemma_time_zero(bs, vs, ks, bb, end_idx as int, n as int);
        lemma_time_split(bs, vs, ks, bb, 0, first as int, n as int);
        if start_idx > end_idx {
            assert(bs[end_idx as int] <= 0);
        }
        lemma_time_split(bs, vs, ks, bb, first as int, end_idx as int, n as int);
    }
    let mut acc: i128 = 0;
    let mut current: i64 = 0;
    let mut i: usize = first;
    while i < end_idx
        invariant
            first <= i <= end_idx,
            end_idx <= n,
            start_idx <= n,
            first == (if start_idx > 0 { start_idx - 1 } else { 0 }),
            forall|k: int| start_idx <= k < n ==> bs[k] > 0,
            forall|k: int| 0 <= k < start_idx ==> bs[k] <= 0,
            n == bpm_beats.len(),
            n == bpm_or_duration.len(),
            bs == bpm_beats@,
            vs == bpm_or_duration@,
            ks == change_types@,
            bb == beat as int,
            0 <= bb <= MAX_TICKS,
            valid_change_list(bs, vs, ks),
            i > first ==> current == tempo_at(bs, vs, ks, i - 1),
            -((i - first) as int) * 0x400_0000_0000_0000 <= acc <= (i - first) * 0x400_0000_0000_0000,
            acc == time_sum(bs, vs, ks, bb, first as int, i as int),
        decreases end_idx - i,
    {
        let kind = change_types[i];
        let value = bpm_or_duration[i];
        let here = bpm_beats[i];
        proof {
            if i > first {
                lemma_tempo_range(bs, vs, ks, i - 1);
            }
        }
        let tempo: i64 = match kind {
            TimingChangeType::Bpm => value,
            _ => if here > 0 && i > 0 && i > first { current } else { 0 },
        };
        proof {
            if kind != TimingChangeType::Bpm && here > 0 && i > 0 && i == first {
                // the first visited segment after beat 0 has no predecessor at or before 0
                assert(start_idx == 0);
            }
            assert(tempo == tempo_at(bs, vs, ks, i as int));
            lemma_tempo_range(bs, vs, ks, i as int);
        }
        let hi: i64 = if i + 1 < n { bpm_beats[i + 1] } else { beat };
        let l: i64 = if here > 0 { here } else { 0 };
        let h: i64 = if hi < beat { hi } else { beat };
        let ov: i64 = if h > l { h - l } else { 0 };
        let play: i128 = if tempo != 0 {
            (ov as i128) * (MS_MILLI_BPM_PER_TICK as i128) / (tempo as i128)
        } else {
            0
        };
        let pause: i128 = match kind {
            TimingChangeType::Stop => if 0 < here && here <= beat { value as i128 } else { 0 },
            _ => 0,
        };
        proof {
            assert(ov == overlap(bs[i as int] as int, beat_seg_end(bs, i as int, bb), 0, bb));
            assert(h <= beat && l >= 0);
            assert(0 <= ov <= MAX_TICKS);
            if tempo != 0 {
                assert(0 <= (ov as int) * 62500 / (tempo as int) <= (ov as int) * 62500) by (nonlinear_arith)
                    requires
                        0 <= ov,
                        1 <= tempo,
                ;
            }
            lemma_time_split(bs, vs, ks, bb, first as int, i as int, i + 1);
            assert(time_sum(bs, vs, ks, bb, i + 1, i + 1) == 0);
            assert(time_sum(bs, vs, ks, bb, i as int, i + 1) == time_term(bs, vs, ks, bb, i as int));
            assert(i - first < MAX_SEGMENTS);
            assert((i - first) * 0x400_0000_0000_0000 <= (MAX_SEGMENTS as int) * 0x400_0000_0000_0000)
                by (nonlinear_arith)
                requires
                    i - first < MAX_SEGMENTS,
            ;
        }
        acc = acc + play + pause;
        current = tempo;
        i += 1;
    }
    proof {
        assert((i - first) * 0x400_0000_0000_0000 <= (MAX_SEGMENTS as int) * 0x400_0000_0000_0000)
            by (nonlinear_arith)
            requires
                i - first <= MAX_SEGMENTS,
        ;
    }
    (start_time as i128) + acc
}

/// Under one constant tempo `bpm` starting at `start`, turning a beat into a
/// time and that time back into a beat gives the beat again, up to one
/// millisecond's worth of ticks below (the time is rounded down to a whole
/// millisecond) and up to the whole-beat rounding above.
pub proof fn lemma_beat_time_round_trip(b: int, start: i32, bpm: i64)
    requires
        0 <= b <= MAX_TICKS,
        1 <= bpm <= MAX_MILLI_BPM,
    ensures
        ({
            let t = time_from_beat(b, start as int, seq![0i64], seq![bpm], seq![TimingChangeType::Bpm]);
            let r = beat_from_time(t, start as int, seq![start], seq![bpm]);
            &&& t >= start
            &&& b - (bpm / MS_MILLI_BPM_PER_TICK) - 1 <= r
            &&& r <= b + (TICKS_PER_BEAT - BEAT_ROUNDING_THRESHOLD)
        }),
{
    let beats = seq![0i64];
    let values = seq![bpm];
    let kinds = seq![TimingChangeType::Bpm];
    let k = MS_MILLI_BPM_PER_TICK as int;
    let bi = bpm as int;
    assert(tempo_at(beats, values, kinds, 0) == bi);
    assert(overlap(0, beat_seg_end(beats, 0, b), 0, b) == b);
    assert(time_sum(beats, values, kinds, b, 1, 1) == 0);
    let d = b * k / bi;
    assert(time_term(beats, values, kinds, b, 0) == d);
    let t = time_from_beat(b, start as int, beats, values, kinds);
    assert(t == start + d);
    assert(0 <= d) by (nonlinear_arith)
        requires
            0 <= b,
            k == 62500,
            1 <= bi,
            d == b * k / bi,
    ;
    assert(d * bi <= b * k && b * k < (d + 1) * bi) by (nonlinear_arith)
        requires
            0 <= b,
            k == 62500,
            1 <= bi,
            d == b * k / bi,
    ;
    let times = seq![start];
    let bpms = seq![bpm];
    let s0 = start as int;
    assert(tempo_sum(times, bpms, s0, t, 1, 1) == 0);
    assert(overlap(times[0] as int, seg_end(times, 0, t), s0, t) == d);
    let integral = tempo_integral(times, bpms, s0, t);
    assert(integral == bi * d);
    let m = integral / k;
    assert(b - bi / k - 1 <= m <= b) by (nonlinear_arith)
        requires
            d * bi <= b * k,
            b * k < (d + 1) * bi,
            integral == bi * d,
            m == integral / k,
            k == 62500,
            1 <= bi,
    ;
    assert(0 <= m) by (nonlinear_arith)
        requires
            integral == bi * d,
            0 <= d,
            1 <= bi,
            m == integral / k,
            k == 62500,
    ;
}

} // verus!
