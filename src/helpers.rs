//! Small numeric helpers on ticks, and the merge of StepMania's tempo lists.
use vstd::prelude::*;
use crate::common::{TimingChangeType, Key, KeyType, TICKS_PER_BEAT};

verus! {

/// `value` rounded up to the next whole beat when its fraction of a beat
/// (in ticks) is at least `threshold`; otherwise unchanged.
pub open spec fn thresholded_ceil_spec(value: int, threshold: int) -> int {
    if value >= 0 && value % (TICKS_PER_BEAT as int) >= threshold {
        (value / (TICKS_PER_BEAT as int) + 1) * (TICKS_PER_BEAT as int)
    } else {
        value
    }
}

/// Rounds a tick count up to the next whole beat when its fractional part is
/// at least `threshold` ticks; values below the threshold are kept.
pub fn thresholded_ceil(value: i64, threshold: i64) -> (r: i64)
    requires
        value <= i64::MAX - TICKS_PER_BEAT,
    ensures
        r == thresholded_ceil_spec(value as int, threshold as int),
{
    if value >= 0 && value % TICKS_PER_BEAT >= threshold {
        (value / TICKS_PER_BEAT + 1) * TICKS_PER_BEAT
    } else {
        value
    }
}

/// Whether two tick counts lie within `margin` of each other.
pub fn approx_eq(a: i64, b: i64, margin: i64) -> (r: bool)
    ensures
        r == ((a - b) <= margin && (b - a) <= margin),
{
    let d: i128 = a as i128 - b as i128;
    d <= margin as i128 && -d <= margin as i128
}

/// One entry of a merged StepMania change list: beat (ticks), value, kind.
pub type BeatChange = (i64, i64, TimingChangeType);

/// `s` with `x` inserted after every entry whose beat is not greater than
/// `x`'s: a stable insertion by beat.
pub open spec fn insert_by_beat(s: Seq<BeatChange>, x: BeatChange) -> Seq<BeatChange>
    decreases s.len(),
{
    if s.len() == 0 {
        seq![x]
    } else if x.0 < s.last().0 {
        insert_by_beat(s.drop_last(), x).push(s.last())
    } else {
        s.push(x)
    }
}

/// Stable sort by beat: entries inserted one by one in their given order.
pub open spec fn stable_sort_by_beat(s: Seq<BeatChange>) -> Seq<BeatChange>
    decreases s.len(),
{
    if s.len() == 0 {
        seq![]
    } else {
        insert_by_beat(stable_sort_by_beat(s.drop_last()), s.last())
    }
}

/// Pairs of beats and values tagged with one kind.
pub open spec fn tagged(beats: Seq<i64>, values: Seq<i64>, kind: TimingChangeType) -> Seq<BeatChange> {
    Seq::new(beats.len(), |i: int| (beats[i], values[i], kind))
}

/// Sorted ascending by beat.
pub open spec fn sorted_by_beat(s: Seq<BeatChange>) -> bool {
    forall|i: int, j: int| 0 <= i < j < s.len() ==> s[i].0 <= s[j].0
}

proof fn lemma_insert_by_beat(s: Seq<BeatChange>, x: BeatChange)
    requires
        sorted_by_beat(s),
    ensures
        sorted_by_beat(insert_by_beat(s, x)),
        insert_by_beat(s, x).len() == s.len() + 1,
        insert_by_beat(s, x).to_multiset() == s.to_multiset().insert(x),
    decreases s.len(),
{
    if s.len() == 0 {
        assert(seq![x] =~= seq![].push(x));
        s.to_multiset_ensures();
        seq![x].to_multiset_ensures();
        assert(s =~= Seq::<BeatChange>::empty());
    } else if x.0 < s.last().0 {
        let t = s.drop_last();
        assert(sorted_by_beat(t));
        lemma_insert_by_beat(t, x);
        let u = insert_by_beat(t, x);
        u.to_multiset_ensures();
        t.to_multiset_ensures();
        assert(s =~= t.push(s.last()));
        s.to_multiset_ensures();
        assert forall|i: int, j: int| 0 <= i < j < u.push(s.last()).len() implies
            u.push(s.last())[i].0 <= u.push(s.last())[j].0 by {
            if j == u.len() {
                // every element of u is t's or x, all at most s.last()
                assert(u.to_multiset().count(u[i]) > 0);
                if u[i] != x {
                    assert(t.to_multiset().count(u[i]) > 0);
                    let k = choose|k: int| 0 <= k < t.len() && t[k] == u[i];
                    assert(s[k] == t[k]);
                }
            }
        }
        assert(u.push(s.last()).to_multiset() =~= u.to_multiset().insert(s.last()));
        assert(s.to_multiset() =~= t.to_multiset().insert(s.last()));
        assert(u.push(s.last()).to_multiset() =~= s.to_multiset().insert(x));
    } else {
        s.to_multiset_ensures();
    }
}

proof fn lemma_stable_sort(s: Seq<BeatChange>)
    ensures
        sorted_by_beat(stable_sort_by_beat(s)),
        stable_sort_by_beat(s).to_multiset() == s.to_multiset(),
        stable_sort_by_beat(s).len() == s.len(),
    decreases s.len(),
{
    if s.len() == 0 {
        assert(stable_sort_by_beat(s) =~= s);
    } else {
        lemma_stable_sort(s.drop_last());
        lemma_insert_by_beat(stable_sort_by_beat(s.drop_last()), s.last());
        assert(s =~= s.drop_last().push(s.last()));
        s.drop_last().to_multiset_ensures();
    }
}

/// Sorting StepMania's merged change list keeps every entry and orders the
/// result by beat.
pub proof fn lemma_merged_changes_sorted(s: Seq<BeatChange>)
    ensures
        sorted_by_beat(stable_sort_by_beat(s)),
        stable_sort_by_beat(s).to_multiset() == s.to_multiset(),
{
    lemma_stable_sort(s);
}

proof fn lemma_insert_at(s: Seq<BeatChange>, x: BeatChange, p: int)
    requires
        0 <= p <= s.len(),
        forall|k: int| p <= k < s.len() ==> s[k].0 > x.0,
        p == 0 || s[p - 1].0 <= x.0,
    ensures
        insert_by_beat(s, x) == s.insert(p, x),
    decreases s.len(),
{
    if s.len() == 0 {
        assert(s.insert(p, x) =~= seq![x]);
    } else if x.0 < s.last().0 {
        lemma_insert_at(s.drop_last(), x, p);
        assert(s.insert(p, x) =~= s.drop_last().insert(p, x).push(s.last()));
    } else {
        assert(s.insert(p, x) =~= s.push(x));
    }
}

/// Three parallel lists read as one list of entries.
pub open spec fn zip_changes(
    beats: Seq<i64>,
    values: Seq<i64>,
    kinds: Seq<TimingChangeType>,
) -> Seq<BeatChange> {
    Seq::new(beats.len(), |i: int| (beats[i], values[i], kinds[i]))
}

/// The merged change list of StepMania's `#BPMS` and `#STOPS`: when one list
/// is empty the other, tagged, in its own order; when both are present their
/// concatenation sorted stably by beat.
pub open spec fn merged_changes(
    bpm_beats: Seq<i64>,
    bpm_values: Seq<i64>,
    stop_beats: Seq<i64>,
    stop_values: Seq<i64>,
) -> Seq<BeatChange> {
    let b = tagged(bpm_beats, bpm_values, TimingChangeType::Bpm);
    let s = tagged(stop_beats, stop_values, TimingChangeType::Stop);
    if bpm_beats.len() == 0 {
        s
    } else if stop_beats.len() == 0 {
        b
    } else {
        stable_sort_by_beat(b + s)
    }
}

fn insert_sorted(res: &mut Vec<BeatChange>, x: BeatChange)
    ensures
        final(res)@ == insert_by_beat(old(res)@, x),
{
    let mut p: usize = res.len();
    while p > 0 && res[p - 1].0 > x.0
        invariant
            p <= res.len(),
            forall|k: int| p <= k < res.len() ==> res@[k].0 > x.0,
        decreases p,
    {
        p -= 1;
    }
    proof {
        lemma_insert_at(res@, x, p as int);
    }
    res.insert(p, x);
}

fn tag_all(out: &mut Vec<BeatChange>, beats: &Vec<i64>, values: &Vec<i64>, kind: TimingChangeType)
    requires
        beats.len() == values.len(),
    ensures
        final(out)@ == old(out)@ + tagged(beats@, values@, kind),
{
    let ghost start = out@;
    let mut i: usize = 0;
    while i < beats.len()
        invariant
            i <= beats.len(),
            beats.len() == values.len(),
            out@ == start + tagged(beats@, values@, kind).subrange(0, i as int),
        decreases beats.len() - i,
    {
        out.push((beats[i], values[i], kind));
        i += 1;
        assert(out@ =~= start + tagged(beats@, values@, kind).subrange(0, i as int));
    }
    assert(tagged(beats@, values@, kind).subrange(0, i as int) =~= tagged(beats@, values@, kind));
}

fn split_changes(c: &Vec<BeatChange>) -> (r: (Vec<i64>, Vec<i64>, Vec<TimingChangeType>))
    ensures
        r.0.len() == c.len(),
        r.1.len() == c.len(),
        r.2.len() == c.len(),
        zip_changes(r.0@, r.1@, r.2@) == c@,
{
    let mut beats: Vec<i64> = Vec::with_capacity(c.len());
    let mut values: Vec<i64> = Vec::with_capacity(c.len());
    let mut kinds: Vec<TimingChangeType> = Vec::with_capacity(c.len());
    let mut i: usize = 0;
    while i < c.len()
        invariant
            i <= c.len(),
            beats.len() == i,
            values.len() == i,
            kinds.len() == i,
            zip_changes(beats@, values@, kinds@) == c@.subrange(0, i as int),
        decreases c.len() - i,
    {
        let e = c[i];
        beats.push(e.0);
        values.push(e.1);
        kinds.push(e.2);
        i += 1;
        assert(zip_changes(beats@, values@, kinds@) =~= c@.subrange(0, i as int));
    }
    assert(c@.subrange(0, i as int) =~= c@);
    (beats, values, kinds)
}

/// Merges StepMania's `#BPMS` and `#STOPS` lists into one change list: with
/// one list empty, the other tagged as it stands; with both present, their
/// concatenation sorted stably by beat. Returns parallel beats, values, kinds.
pub fn merge_bpm_and_stops(
    bpms_beats: Vec<i64>,
    bpms_values: Vec<i64>,
    stops_beats: Vec<i64>,
    stops_values: Vec<i64>,
) -> (r: (Vec<i64>, Vec<i64>, Vec<TimingChangeType>))
    requires
        bpms_beats.len() == bpms_values.len(),
        stops_beats.len() == stops_values.len(),
    ensures
        r.0.len() == r.1.len() && r.1.len() == r.2.len(),
        zip_changes(r.0@, r.1@, r.2@) == merged_changes(
            bpms_beats@,
            bpms_values@,
            stops_beats@,
            stops_values@,
        ),
{
    let mut all: Vec<BeatChange> = Vec::new();
    tag_all(&mut all, &bpms_beats, &bpms_values, TimingChangeType::Bpm);
    tag_all(&mut all, &stops_beats, &stops_values, TimingChangeType::Stop);
    assert(all@ =~= Seq::empty() + tagged(bpms_beats@, bpms_values@, TimingChangeType::Bpm)
        + tagged(stops_beats@, stops_values@, TimingChangeType::Stop));
    if bpms_beats.len() == 0 || stops_beats.len() == 0 {
        proof {
            if bpms_beats.len() == 0 {
                assert(all@ =~= tagged(stops_beats@, stops_values@, TimingChangeType::Stop));
            } else {
                assert(all@ =~= tagged(bpms_beats@, bpms_values@, TimingChangeType::Bpm));
            }
        }
        return split_changes(&all);
    }
    let mut sorted: Vec<BeatChange> = Vec::with_capacity(all.len());
    let mut i: usize = 0;
    while i < all.len()
        invariant
            i <= all.len(),
            sorted@ == stable_sort_by_beat(all@.subrange(0, i as int)),
        decreases all.len() - i,
    {
        proof {
            assert(all@.subrange(0, i + 1).drop_last() =~= all@.subrange(0, i as int));
        }
        insert_sorted(&mut sorted, all[i]);
        i += 1;
    }
    assert(all@.subrange(0, i as int) =~= all@);
    split_changes(&sorted)
}

/// Time of the first row at or after `j` whose lane `key` holds a slider end.
pub open spec fn next_slider_end(j: int, key: int, times: Seq<i32>, rows: Seq<Vec<Key>>) -> Option<i32>
    decreases times.len() - j,
{
    if j < 0 || j >= times.len() {
        None
    } else if rows[j]@[key].key_type == KeyType::SliderEnd {
        Some(times[j])
    } else {
        next_slider_end(j + 1, key, times, rows)
    }
}

/// Time of the first slider end in lane `key_idx` after row `start_idx`;
/// the start row's own time when none follows; 0 when `start_idx` is past
/// the last row.
pub open spec fn sliderend_time_spec(start_idx: int, key_idx: int, times: Seq<i32>, rows: Seq<Vec<Key>>) -> i32 {
    if start_idx >= times.len() {
        0
    } else {
        match next_slider_end(start_idx + 1, key_idx, times, rows) {
            Some(t) => t,
            None => times[start_idx],
        }
    }
}

/// Finds when the slider starting in lane `key_idx` of row `start_idx` ends.
pub fn find_sliderend_time(start_idx: usize, key_idx: usize, times: &Vec<i32>, rows: &Vec<Vec<Key>>) -> (r: i32)
    requires
        times.len() == rows.len(),
        forall|i: int| 0 <= i < rows.len() ==> key_idx < rows@[i].len(),
    ensures
        r == sliderend_time_spec(start_idx as int, key_idx as int, times@, rows@),
{
    if start_idx >= times.len() {
        return 0;
    }
    let mut j: usize = start_idx + 1;
    while j < times.len()
        invariant
            start_idx < j <= times.len(),
            times.len() == rows.len(),
            forall|i: int| 0 <= i < rows.len() ==> key_idx < rows@[i].len(),
            next_slider_end(start_idx + 1, key_idx as int, times@, rows@)
                == next_slider_end(j as int, key_idx as int, times@, rows@),
        decreases times.len() - j,
    {
        if rows[j][key_idx].key_type == KeyType::SliderEnd {
            return times[j];
        }
        j += 1;
    }
    times[start_idx]
}

} // verus!