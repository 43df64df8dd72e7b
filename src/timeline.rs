//! Time-ordered event buffers that parsers fill and then fold into a chart's
//! row grid or timing lists.
use vstd::prelude::*;
use crate::common::{Key, KeyType, empty_key, empty_row, row_has_content};
use crate::hitobjects::HitObjects;
use crate::rhythm::{beat_from_time, calculate_beat_from_time, valid_tempo_list};
use crate::sound::{KeySound, KeySoundRow, unwrap_sound};
use crate::timing_points::{TimingChange, TimingPoints, times_of_kind, values_of_kind};
use crate::common::TimingChangeType;

verus! {

/// An event placed at a time in milliseconds.
pub trait TimelineItem {
    spec fn spec_time(&self) -> i32;

    fn time(&self) -> (r: i32)
        ensures
            r == self.spec_time(),
    ;
}

/// One note endpoint: a key placed in a lane at a time.
#[derive(Debug, Clone, Copy, PartialEq, Eq, Structural)]
pub struct TimelineHitObject {
    pub time: i32,
    pub column: usize,
    pub key: Key,
    pub keysound: Option<KeySound>,
}

/// One timing change at a time.
#[derive(Debug, Clone, Copy, PartialEq, Eq, Structural)]
pub struct TimelineTimingPoint {
    pub time: i32,
    pub value: i64,
    pub change_type: TimingChangeType,
}

impl TimelineItem for TimelineHitObject {
    open spec fn spec_time(&self) -> i32 {
        self.time
    }

    fn time(&self) -> (r: i32) {
        self.time
    }
}

impl TimelineItem for TimelineTimingPoint {
    open spec fn spec_time(&self) -> i32 {
        self.time
    }

    fn time(&self) -> (r: i32) {
        self.time
    }
}

/// Sorted by time, ties in any order.
pub open spec fn sorted_by_time<Item: TimelineItem>(s: Seq<Item>) -> bool {
    forall|i: int, j: int| 0 <= i <= j < s.len() ==> s[i].spec_time() <= s[j].spec_time()
}

/// An append-only list of events that remembers whether it is still in time
/// order.
pub struct Timeline<Item> {
    timeline: Vec<Item>,
    is_sorted: bool,
}

impl<Item: TimelineItem> Timeline<Item> {
    /// The events, in stored order.
    pub closed spec fn items(&self) -> Seq<Item> {
        self.timeline@
    }

    /// Whether the events are known to be in time order.
    pub closed spec fn known_sorted(&self) -> bool {
        self.is_sorted
    }

    /// The sorted flag is truthful.
    pub closed spec fn wf(&self) -> bool {
        self.is_sorted ==> sorted_by_time(self.timeline@)
    }

    pub fn with_capacity(capacity: usize) -> (r: Self)
        ensures
            r.wf(),
            r.items().len() == 0,
            r.known_sorted(),
            sorted_by_time(r.items()),
    {
        Timeline { timeline: Vec::with_capacity(capacity), is_sorted: true }
    }

    pub fn new() -> (r: Self)
        ensures
            r.wf(),
            r.items().len() == 0,
            r.known_sorted(),
            sorted_by_time(r.items()),
    {
        Timeline { timeline: Vec::new(), is_sorted: true }
    }

    /// Appends an event; the timeline stays marked sorted only while events
    /// arrive in time order.
    pub fn add(&mut self, timeline_object: Item)
        requires
            old(self).wf(),
        ensures
            final(self).wf(),
            final(self).known_sorted() ==> sorted_by_time(final(self).items()),
            final(self).items() == old(self).items().push(timeline_object),
            final(self).known_sorted() == (old(self).known_sorted() && (old(self).items().len() == 0
                || timeline_object.spec_time() >= old(self).items().last().spec_time())),
    {
        if self.is_sorted && self.timeline.len() > 0 {
            let last = self.timeline.len() - 1;
            self.is_sorted = timeline_object.time() >= self.timeline[last].time();
        }
        self.timeline.push(timeline_object);
    }

    pub fn len(&self) -> (r: usize)
        ensures
            r == self.items().len(),
    {
        self.timeline.len()
    }

    pub fn is_empty(&self) -> (r: bool)
        ensures
            r == (self.items().len() == 0),
    {
        self.timeline.len() == 0
    }

    /// The event at `index`.
    pub fn get(&self, index: usize) -> (r: &Item)
        requires
            index < self.items().len(),
        ensures
            *r == self.items()[index as int],
    {
        &self.timeline[index]
    }

    /// Makes room for `additional` more events.
    pub fn reserve(&mut self, additional: usize)
        requires
            old(self).wf(),
        ensures
            final(self).wf(),
            final(self).known_sorted() ==> sorted_by_time(final(self).items()),
            final(self).items() == old(self).items(),
            final(self).known_sorted() == old(self).known_sorted(),
    {
        self.timeline.reserve(additional);
    }

    /// Position after every event not later than `t`, in a sorted timeline.
    fn upper_bound(&self, t: i32) -> (r: usize)
        requires
            sorted_by_time(self.items()),
        ensures
            r <= self.items().len(),
            forall|k: int| 0 <= k < r ==> self.items()[k].spec_time() <= t,
            forall|k: int| r <= k < self.items().len() ==> self.items()[k].spec_time() > t,
    {
        let mut lo: usize = 0;
        let mut hi: usize = self.timeline.len();
        while lo < hi
            invariant
                lo <= hi <= self.timeline.len(),
                sorted_by_time(self.timeline@),
                forall|k: int| 0 <= k < lo ==> self.timeline@[k].spec_time() <= t,
                forall|k: int| hi <= k < self.timeline@.len() ==> self.timeline@[k].spec_time() > t,
            decreases hi - lo,
        {
            let mid = lo + (hi - lo) / 2;
            if self.timeline[mid].time() <= t {
                lo = mid + 1;
            } else {
                hi = mid;
            }
        }
        lo
    }

    /// Inserts an event into a sorted timeline at its place in time order,
    /// after the events of the same time.
    pub fn add_sorted(&mut self, timeline_object: Item)
        requires
            old(self).wf(),
            sorted_by_time(old(self).items()),
        ensures
            final(self).wf(),
            sorted_by_time(final(self).items()),
            final(self).known_sorted() == old(self).known_sorted(),
            final(self).items().to_multiset() == old(self).items().to_multiset().insert(timeline_object),
            final(self).items() == insert_by_time(old(self).items(), timeline_object),
    {
        let t = timeline_object.time();
        let p = self.upper_bound(t);
        let ghost before = self.timeline@;
        self.timeline.insert(p, timeline_object);
        proof {
            before.insert_ensures(p as int, timeline_object);
            assert forall|i: int, j: int| 0 <= i <= j < self.timeline@.len() implies
                self.timeline@[i].spec_time() <= self.timeline@[j].spec_time() by {
                if i < p && j > p {
                    assert(self.timeline@[j] == before[j - 1]);
                } else if i < p && j == p {
                } else if i == p && j > p {
                    assert(self.timeline@[j] == before[j - 1]);
                } else if i > p {
                    assert(self.timeline@[j] == before[j - 1]);
                    assert(self.timeline@[i] == before[i - 1]);
                }
            }
            assert(self.timeline@.to_multiset() =~= before.to_multiset().insert(timeline_object)) by {
                lemma_insert_multiset(before, p as int, timeline_object);
            }
            lemma_insert_by_time_at(before, timeline_object, p as int);
        }
    }

    /// Puts the events in time order unless they are known to be in it.
    pub fn sort(&mut self)
        requires
            old(self).wf(),
        ensures
            final(self).wf(),
            final(self).known_sorted(),
            sorted_by_time(final(self).items()),
            final(self).items().to_multiset() == old(self).items().to_multiset(),
            old(self).known_sorted() ==> final(self).items() == old(self).items(),
    {
        if self.is_sorted {
            return;
        }
        let n = self.timeline.len();
        let mut i: usize = 0;
        while i < n
            invariant
                i <= n,
                n == self.timeline.len(),
                sorted_by_time(self.timeline@.subrange(0, i as int)),
                self.timeline@.to_multiset() == old(self).timeline@.to_multiset(),
            decreases n - i,
        {
            let ghost before = self.timeline@;
            let x = self.timeline.remove(i);
            let p = upper_bound_prefix(&self.timeline, i, x.time());
            self.timeline.insert(p, x);
            proof {
                let mid = before.remove(i as int);
                assert(mid.subrange(0, i as int) =~= before.subrange(0, i as int));
                assert(before =~= mid.insert(i as int, x));
                lemma_insert_multiset(mid, i as int, x);
                lemma_insert_multiset(mid, p as int, x);
                let now = self.timeline@;
                assert(now =~= mid.insert(p as int, x));
                let pre = now.subrange(0, i + 1);
                assert forall|a: int, b: int| #![trigger pre[a], pre[b]] 0 <= a <= b < i + 1 implies
                    pre[a].spec_time() <= pre[b].spec_time() by {
                    assert(pre[a] == now[a]);
                    assert(pre[b] == now[b]);
                    if a < p && b > p {
                        assert(now[b] == mid[b - 1]);
                        assert(mid.subrange(0, i as int)[b - 1] == mid[b - 1]);
                        assert(mid.subrange(0, i as int)[a] == mid[a]);
                    } else if a < p && b == p {
                        assert(now[a] == mid[a]);
                    } else if a < p {
                        assert(now[a] == mid[a]);
                        assert(now[b] == mid[b]);
                        assert(mid.subrange(0, i as int)[b] == mid[b]);
                        assert(mid.subrange(0, i as int)[a] == mid[a]);
                    } else if a == p && b > p {
                        assert(now[b] == mid[b - 1]);
                    } else if a > p {
                        assert(now[b] == mid[b - 1]);
                        assert(now[a] == mid[a - 1]);
                        assert(mid.subrange(0, i as int)[b - 1] == mid[b - 1]);
                        assert(mid.subrange(0, i as int)[a - 1] == mid[a - 1]);
                    }
                }
            }
            i += 1;
        }
        assert(self.timeline@.subrange(0, n as int) =~= self.timeline@);
        self.is_sorted = true;
    }
}

/// `s` with `x` placed after every element not later than it.
pub open spec fn insert_by_time<Item: TimelineItem>(s: Seq<Item>, x: Item) -> Seq<Item>
    decreases s.len(),
{
    if s.len() == 0 {
        seq![x]
    } else if x.spec_time() < s.last().spec_time() {
        insert_by_time(s.drop_last(), x).push(s.last())
    } else {
        s.push(x)
    }
}

proof fn lemma_insert_by_time_at<Item: TimelineItem>(s: Seq<Item>, x: Item, p: int)
    requires
        0 <= p <= s.len(),
        forall|k: int| p <= k < s.len() ==> s[k].spec_time() > x.spec_time(),
        p == 0 || s[p - 1].spec_time() <= x.spec_time(),
    ensures
        insert_by_time(s, x) == s.insert(p, x),
    decreases s.len(),
{
    if s.len() == 0 {
        assert(s.insert(p, x) =~= seq![x]);
    } else if x.spec_time() < s.last().spec_time() {
        lemma_insert_by_time_at(s.drop_last(), x, p);
        assert(s.insert(p, x) =~= s.drop_last().insert(p, x).push(s.last()));
    } else {
        assert(s.insert(p, x) =~= s.push(x));
    }
}

/// Timeline built by inserting each event in turn at its place in time.
pub open spec fn timeline_of<Item: TimelineItem>(events: Seq<Item>) -> Seq<Item>
    decreases events.len(),
{
    if events.len() == 0 {
        seq![]
    } else {
        insert_by_time(timeline_of(events.drop_last()), events.last())
    }
}

/// Position after every element of `v[..end]` not later than `t`, where that
/// prefix is sorted.
fn upper_bound_prefix<Item: TimelineItem>(v: &Vec<Item>, end: usize, t: i32) -> (r: usize)
    requires
        end <= v.len(),
        sorted_by_time(v@.subrange(0, end as int)),
    ensures
        r <= end,
        forall|k: int| 0 <= k < r ==> v@[k].spec_time() <= t,
        forall|k: int| r <= k < end ==> v@[k].spec_time() > t,
{
    let mut lo: usize = 0;
    let mut hi: usize = end;
    while lo < hi
        invariant
            lo <= hi <= end,
            end <= v.len(),
            sorted_by_time(v@.subrange(0, end as int)),
            forall|k: int| 0 <= k < lo ==> v@[k].spec_time() <= t,
            forall|k: int| hi <= k < end ==> v@[k].spec_time() > t,
        decreases hi - lo,
    {
        let mid = lo + (hi - lo) / 2;
        proof {
            assert(v@.subrange(0, end as int)[mid as int] == v@[mid as int]);
            assert forall|k: int| 0 <= k <= mid implies v@[k].spec_time() <= v@[mid as int].spec_time() by {
                assert(v@.subrange(0, end as int)[k] == v@[k]);
            }
            assert forall|k: int| mid <= k < end implies v@[k].spec_time() >= v@[mid as int].spec_time() by {
                assert(v@.subrange(0, end as int)[k] == v@[k]);
            }
        }
        if v[mid].time() <= t {
            lo = mid + 1;
        } else {
            hi = mid;
        }
    }
    lo
}

/// Whether an event writes its lane: a slider start always does; a note or a
/// slider end does unless a slider start holds the lane; other kinds and
/// lanes beyond the row never do.
pub open spec fn writes_cell(row: Seq<Key>, ev: TimelineHitObject) -> bool {
    let c = ev.column as int;
    c < row.len() && match ev.key.key_type {
        KeyType::SliderStart => true,
        KeyType::Normal | KeyType::SliderEnd => row[c].key_type != KeyType::SliderStart,
        _ => false,
    }
}

/// A row after one event: the event's key in its lane when it writes it.
pub open spec fn apply_event(row: Seq<Key>, ev: TimelineHitObject) -> Seq<Key> {
    if writes_cell(row, ev) { row.update(ev.column as int, ev.key) } else { row }
}

/// A row's lane sounds after one event: the event's sound in its lane when
/// it writes the lane of `row` (the row before the event).
pub open spec fn apply_sound(row: Seq<Key>, sounds: Seq<Option<KeySound>>, ev: TimelineHitObject) -> Seq<Option<KeySound>> {
    if writes_cell(row, ev) && (ev.column as int) < sounds.len() {
        sounds.update(ev.column as int, ev.keysound)
    } else {
        sounds
    }
}

/// A row in the making: its time, its cells and the sound of each lane.
pub type RowGroup = (i32, Seq<Key>, Seq<Option<KeySound>>);

/// One row per run of consecutive events sharing a time: the time, and the
/// cells and lane sounds that the run's events build from an empty row of
/// `key_count` lanes.
pub open spec fn row_groups(items: Seq<TimelineHitObject>, key_count: nat) -> Seq<RowGroup>
    decreases items.len(),
{
    if items.len() == 0 {
        seq![]
    } else {
        let prev = row_groups(items.drop_last(), key_count);
        let x = items.last();
        if prev.len() > 0 && prev.last().0 == x.time {
            let (t, r, snd) = prev.last();
            prev.drop_last().push((x.time, apply_event(r, x), apply_sound(r, snd, x)))
        } else {
            let r = Seq::new(key_count, |i: int| empty_key());
            let snd = Seq::new(key_count, |i: int| None::<KeySound>);
            prev.push((x.time, apply_event(r, x), apply_sound(r, snd, x)))
        }
    }
}

/// The groups whose row holds a non-empty cell.
pub open spec fn nonempty_groups(g: Seq<RowGroup>) -> Seq<RowGroup>
    decreases g.len(),
{
    if g.len() == 0 {
        seq![]
    } else if row_has_content(g.last().1) {
        nonempty_groups(g.drop_last()).push(g.last())
    } else {
        nonempty_groups(g.drop_last())
    }
}

/// No lane has a sound.
pub open spec fn silent(sounds: Seq<Option<KeySound>>) -> bool {
    forall|i: int| 0 <= i < sounds.len() ==> (#[trigger] sounds[i]).is_none()
}

/// The stored sounds of a row: none when no lane has a sound, otherwise one
/// per lane, a lane without its own sound getting a normal sound at full
/// volume.
pub open spec fn sound_row(sounds: Seq<Option<KeySound>>) -> Seq<KeySound> {
    if silent(sounds) {
        seq![]
    } else {
        sounds.map_values(|o: Option<KeySound>| unwrap_sound(o))
    }
}

/// `after` is `before` with one row appended for each group, at the group's
/// time, at the beat that time has under the tempo list, with the group's
/// sounds.
pub open spec fn appended_rows(
    before: HitObjects,
    after: HitObjects,
    g: Seq<RowGroup>,
    offset: i32,
    bpm_times: Seq<i32>,
    bpms: Seq<i64>,
) -> bool {
    let n = before.rows.len();
    &&& after.rows.len() == n + g.len()
    &&& after.times.len() == n + g.len()
    &&& after.beats.len() == n + g.len()
    &&& after.keysounds.len() == n + g.len()
    &&& after.rows@.subrange(0, n as int) == before.rows@
    &&& after.times@.subrange(0, n as int) == before.times@
    &&& after.beats@.subrange(0, n as int) == before.beats@
    &&& after.keysounds@.subrange(0, n as int) == before.keysounds@
    &&& forall|j: int|
        0 <= j < g.len() ==> {
            &&& (#[trigger] after.rows@[n + j])@ == g[j].1
            &&& after.times@[n + j] == g[j].0
            &&& after.beats@[n + j] == beat_from_time(g[j].0 as int, offset as int, bpm_times, bpms)
            &&& after.keysounds@[n + j]@ == sound_row(g[j].2)
            &&& after.keysounds@[n + j].empty_flag() == silent(g[j].2)
        }
}

/// `h` holds exactly one row per group, at the group's time and at the beat
/// that time has under the tempo list.
pub open spec fn holds_groups(
    h: HitObjects,
    g: Seq<RowGroup>,
    offset: i32,
    bpm_times: Seq<i32>,
    bpms: Seq<i64>,
) -> bool {
    &&& h.rows.len() == g.len()
    &&& forall|j: int|
        0 <= j < g.len() ==> {
            &&& (#[trigger] h.rows@[j])@ == g[j].1
            &&& h.times@[j] == g[j].0
            &&& h.beats@[j] == beat_from_time(g[j].0 as int, offset as int, bpm_times, bpms)
            &&& h.keysounds@[j]@ == sound_row(g[j].2)
            &&& h.keysounds@[j].empty_flag() == silent(g[j].2)
        }
}

proof fn lemma_appended_to_empty(
    before: HitObjects,
    after: HitObjects,
    g: Seq<RowGroup>,
    offset: i32,
    bpm_times: Seq<i32>,
    bpms: Seq<i64>,
)
    requires
        before.rows.len() == 0,
        appended_rows(before, after, g, offset, bpm_times, bpms),
    ensures
        holds_groups(after, g, offset, bpm_times, bpms),
{
    assert forall|j: int| 0 <= j < g.len() implies {
        &&& (#[trigger] after.rows@[j])@ == g[j].1
        &&& after.times@[j] == g[j].0
        &&& after.beats@[j] == beat_from_time(g[j].0 as int, offset as int, bpm_times, bpms)
        &&& after.keysounds@[j]@ == sound_row(g[j].2)
        &&& after.keysounds@[j].empty_flag() == silent(g[j].2)
    } by {
        assert(after.rows@[0 + j] == after.rows@[j]);
    }
}

fn apply_event_exec(row: &mut Vec<Key>, sounds: &mut Vec<Option<KeySound>>, ev: &TimelineHitObject)
    ensures
        final(row)@ == apply_event(old(row)@, *ev),
        final(sounds)@ == apply_sound(old(row)@, old(sounds)@, *ev),
{
    let c = ev.column;
    if c < row.len() {
        let writes = match ev.key.key_type {
            KeyType::SliderStart => true,
            KeyType::Normal | KeyType::SliderEnd => row[c].key_type != KeyType::SliderStart,
            _ => false,
        };
        if writes {
            row.set(c, ev.key);
            if c < sounds.len() {
                sounds.set(c, ev.keysound);
            }
        }
    }
}

/// A lane-sound list of `n` lanes without sounds.
fn no_sounds(n: usize) -> (r: Vec<Option<KeySound>>)
    ensures
        r@ == Seq::new(n as nat, |i: int| None::<KeySound>),
{
    let mut r: Vec<Option<KeySound>> = Vec::with_capacity(n);
    let mut i: usize = 0;
    while i < n
        invariant
            i <= n,
            r@ == Seq::new(i as nat, |j: int| None::<KeySound>),
        decreases n - i,
    {
        r.push(None);
        i += 1;
        assert(r@ =~= Seq::new(i as nat, |j: int| None::<KeySound>));
    }
    r
}

/// The stored sounds of a row (see `sound_row`).
fn sound_row_exec(sounds: &Vec<Option<KeySound>>) -> (r: KeySoundRow)
    ensures
        r@ == sound_row(sounds@),
        r.empty_flag() == silent(sounds@),
{
    let mut i: usize = 0;
    while i < sounds.len()
        invariant
            i <= sounds.len(),
            forall|j: int| 0 <= j < i ==> (#[trigger] sounds@[j]).is_none(),
        decreases sounds.len() - i,
    {
        if sounds[i].is_some() {
            let r = KeySoundRow::with_unwrap(sounds.as_slice());
            proof {
                assert(!silent(sounds@));
                assert(r@ =~= sounds@.map_values(|o: Option<KeySound>| unwrap_sound(o)));
            }
            return r;
        }
        i += 1;
    }
    KeySoundRow::empty()
}

fn flush_row(
    hitobjects: &mut HitObjects,
    time: i32,
    row: Vec<Key>,
    sounds: Vec<Option<KeySound>>,
    offset: i32,
    bpms_times: &Vec<i32>,
    bpms: &Vec<i64>,
    Ghost(start): Ghost<HitObjects>,
    Ghost(done): Ghost<Seq<RowGroup>>,
)
    requires
        old(hitobjects).wf(),
        valid_tempo_list(bpms_times@, bpms@),
        appended_rows(start, *old(hitobjects), nonempty_groups(done), offset, bpms_times@, bpms@),
    ensures
        final(hitobjects).wf(),
        appended_rows(start, *final(hitobjects), nonempty_groups(done.push((time, row@, sounds@))), offset, bpms_times@, bpms@),
{
    let ghost g = done.push((time, row@, sounds@));
    assert(g.drop_last() =~= done);
    let ghost rv = row@;
    let beat = calculate_beat_from_time(time, offset, bpms_times, bpms);
    let ks = sound_row_exec(&sounds);
    hitobjects.add_hitobject(time, beat, ks, row);
    proof {
        let n = start.rows.len();
        let ng = nonempty_groups(g);
        if row_has_content(rv) {
            assert(ng == nonempty_groups(done).push((time, rv, sounds@)));
            assert(hitobjects.rows@.subrange(0, n as int) =~= old(hitobjects).rows@.subrange(0, n as int));
            assert(hitobjects.times@.subrange(0, n as int) =~= old(hitobjects).times@.subrange(0, n as int));
            assert(hitobjects.beats@.subrange(0, n as int) =~= old(hitobjects).beats@.subrange(0, n as int));
            assert(hitobjects.keysounds@.subrange(0, n as int) =~= old(hitobjects).keysounds@.subrange(0, n as int));
            assert forall|j: int| 0 <= j < ng.len() implies {
                &&& (#[trigger] hitobjects.rows@[n + j])@ == ng[j].1
                &&& hitobjects.times@[n + j] == ng[j].0
                &&& hitobjects.beats@[n + j] == beat_from_time(ng[j].0 as int, offset as int, bpms_times@, bpms@)
                &&& hitobjects.keysounds@[n + j]@ == sound_row(ng[j].2)
                &&& hitobjects.keysounds@[n + j].empty_flag() == silent(ng[j].2)
            } by {
                if j < ng.len() - 1 {
                    assert(hitobjects.rows@[n + j] == old(hitobjects).rows@[n + j]);
                    assert(hitobjects.keysounds@[n + j] == old(hitobjects).keysounds@[n + j]);
                }
            }
        } else {
            assert(ng == nonempty_groups(done));
        }
    }
}

/// Times of the tempo events, in order.
pub open spec fn tempo_times(items: Seq<TimelineTimingPoint>) -> Seq<i32>
    decreases items.len(),
{
    if items.len() == 0 {
        seq![]
    } else if items.last().change_type == TimingChangeType::Bpm {
        tempo_times(items.drop_last()).push(items.last().time)
    } else {
        tempo_times(items.drop_last())
    }
}

/// Values of the tempo events, in order.
pub open spec fn tempo_values(items: Seq<TimelineTimingPoint>) -> Seq<i64>
    decreases items.len(),
{
    if items.len() == 0 {
        seq![]
    } else if items.last().change_type == TimingChangeType::Bpm {
        tempo_values(items.drop_last()).push(items.last().value)
    } else {
        tempo_values(items.drop_last())
    }
}

/// Timing events whose tempos lie in the accepted range, few enough to
/// convert.
pub open spec fn valid_timing_events(items: Seq<TimelineTimingPoint>) -> bool {
    &&& items.len() <= crate::common::MAX_SEGMENTS
    &&& forall|i: int|
        0 <= i < items.len() && (#[trigger] items[i]).change_type == TimingChangeType::Bpm ==> 0
            <= items[i].value <= crate::common::MAX_MILLI_BPM
}

proof fn lemma_kind_lists(items: Seq<TimelineTimingPoint>)
    ensures
        times_of_kind(
            Seq::new(items.len(), |i: int| items[i].time),
            Seq::new(items.len(), |i: int| TimingChange { change_type: items[i].change_type, value: items[i].value }),
            TimingChangeType::Bpm,
        ) == tempo_times(items),
        values_of_kind(
            Seq::new(items.len(), |i: int| TimingChange { change_type: items[i].change_type, value: items[i].value }),
            TimingChangeType::Bpm,
        ) == tempo_values(items),
    decreases items.len(),
{
    if items.len() > 0 {
        let p = items.drop_last();
        lemma_kind_lists(p);
        let ts = Seq::new(items.len(), |i: int| items[i].time);
        let cs = Seq::new(items.len(), |i: int| TimingChange { change_type: items[i].change_type, value: items[i].value });
        assert(ts.drop_last() =~= Seq::new(p.len(), |i: int| p[i].time));
        assert(cs.drop_last() =~= Seq::new(p.len(), |i: int| TimingChange { change_type: p[i].change_type, value: p[i].value }));
    }
}

/// The tempo list read back from the timing entries of sorted, valid events
/// can be used for conversion.
pub proof fn lemma_entries_tempo_list(items: Seq<TimelineTimingPoint>, offset: i32)
    requires
        valid_timing_events(items),
        sorted_by_time(items),
    ensures
        valid_tempo_list(
            times_of_kind(
                timing_entries(items, offset).map_values(|e: (i32, i64, TimingChange)| e.0),
                timing_entries(items, offset).map_values(|e: (i32, i64, TimingChange)| e.2),
                TimingChangeType::Bpm,
            ),
            values_of_kind(
                timing_entries(items, offset).map_values(|e: (i32, i64, TimingChange)| e.2),
                TimingChangeType::Bpm,
            ),
        ),
{
    lemma_kind_lists(items);
    lemma_tempo_lists(items);
    assert(timing_entries(items, offset).map_values(|e: (i32, i64, TimingChange)| e.0) =~= Seq::new(items.len(), |i: int| items[i].time));
    assert(timing_entries(items, offset).map_values(|e: (i32, i64, TimingChange)| e.2) =~= Seq::new(
        items.len(),
        |i: int| TimingChange { change_type: items[i].change_type, value: items[i].value },
    ));
}

proof fn lemma_tempo_lists(items: Seq<TimelineTimingPoint>)
    requires
        valid_timing_events(items),
        sorted_by_time(items),
    ensures
        valid_tempo_list(tempo_times(items), tempo_values(items)),
        tempo_times(items).len() == tempo_values(items).len(),
        tempo_times(items).len() <= items.len(),
        forall|k: int| 0 <= k < tempo_times(items).len() ==> exists|j: int| 0 <= j < items.len() && #[trigger] tempo_times(items)[k] == items[j].time && items.last().time >= items[j].time,
    decreases items.len(),
{
    if items.len() > 0 {
        let prev = items.drop_last();
        assert(sorted_by_time(prev));
        assert forall|i: int| 0 <= i < prev.len() && (#[trigger] prev[i]).change_type == TimingChangeType::Bpm
            implies 0 <= prev[i].value <= crate::common::MAX_MILLI_BPM by {
            assert(prev[i] == items[i]);
        }
        lemma_tempo_lists(prev);
        let t = tempo_times(items);
        let tp = tempo_times(prev);
        assert forall|k: int| 0 <= k < tp.len() implies exists|j: int| 0 <= j < items.len() && #[trigger] tp[k] == items[j].time && items.last().time >= items[j].time by {
            let j = choose|j: int| 0 <= j < prev.len() && tp[k] == prev[j].time && prev.last().time >= prev[j].time;
            assert(items[j] == prev[j]);
        }
        if items.last().change_type == TimingChangeType::Bpm {
            assert forall|a: int, b: int| 0 <= a <= b < t.len() implies t[a] <= t[b] by {
                if b == t.len() - 1 && a < b {
                    let j = choose|j: int| 0 <= j < items.len() && tp[a] == items[j].time && items.last().time >= items[j].time;
                }
            }
            assert forall|k: int| 0 <= k < t.len() implies exists|j: int| 0 <= j < items.len() && #[trigger] t[k] == items[j].time && items.last().time >= items[j].time by {
                if k == t.len() - 1 {
                    assert(t[k] == items[items.len() - 1].time);
                } else {
                    assert(t[k] == tp[k]);
                }
            }
            assert forall|i: int| 0 <= i < tempo_values(items).len() implies 0 <= #[trigger] tempo_values(items)[i] <= crate::common::MAX_MILLI_BPM by {
                if i < tempo_values(prev).len() {
                    assert(tempo_values(items)[i] == tempo_values(prev)[i]);
                }
            }
        }
    }
}

/// The entries a run of timing events adds: each event's time, its beat
/// under the events' own tempo list, and its change.
pub open spec fn timing_entries(items: Seq<TimelineTimingPoint>, offset: i32) -> Seq<(i32, i64, TimingChange)> {
    Seq::new(items.len(), |i: int| (
        items[i].time,
        beat_from_time(items[i].time as int, offset as int, tempo_times(items), tempo_values(items)) as i64,
        TimingChange { change_type: items[i].change_type, value: items[i].value },
    ))
}

proof fn lemma_insert_multiset<A>(s: Seq<A>, p: int, x: A)
    requires
        0 <= p <= s.len(),
    ensures
        s.insert(p, x).to_multiset() == s.to_multiset().insert(x),
{
    let a = s.subrange(0, p);
    let b = s.subrange(p, s.len() as int);
    assert(s =~= a + b);
    assert(s.insert(p, x) =~= a.push(x) + b);
    vstd::seq_lib::lemma_multiset_commutative(a, b);
    vstd::seq_lib::lemma_multiset_commutative(a.push(x), b);
    a.to_multiset_ensures();
    assert(a.push(x).to_multiset() == a.to_multiset().insert(x));
    assert(s.insert(p, x).to_multiset() =~= s.to_multiset().insert(x));
}

impl Timeline<TimelineTimingPoint> {
    fn tempo_lists(&self) -> (r: (Vec<i32>, Vec<i64>))
        ensures
            r.0@ == tempo_times(self.items()),
            r.1@ == tempo_values(self.items()),
    {
        let mut times: Vec<i32> = Vec::new();
        let mut values: Vec<i64> = Vec::new();
        let mut i: usize = 0;
        while i < self.timeline.len()
            invariant
                i <= self.timeline.len(),
                times@ == tempo_times(self.timeline@.subrange(0, i as int)),
                values@ == tempo_values(self.timeline@.subrange(0, i as int)),
            decreases self.timeline.len() - i,
        {
            proof {
                assert(self.timeline@.subrange(0, i + 1).drop_last() =~= self.timeline@.subrange(0, i as int));
            }
            let e = self.timeline[i];
            if e.change_type == TimingChangeType::Bpm {
                times.push(e.time);
                values.push(e.value);
            }
            i += 1;
        }
        assert(self.timeline@.subrange(0, i as int) =~= self.timeline@);
        (times, values)
    }

    /// Sorts the events by time and appends one timing entry per event, its
    /// beat taken from `offset` under the tempo events among them.
    pub fn to_timing_points(&mut self, timing_points: &mut TimingPoints, offset: i32)
        requires
            old(self).wf(),
            old(timing_points).wf(),
            valid_timing_events(old(self).items()),
        ensures
            final(self).wf(),
            sorted_by_time(final(self).items()),
            final(self).items().to_multiset() == old(self).items().to_multiset(),
            old(self).known_sorted() ==> final(self).items() == old(self).items(),
            final(timing_points).wf(),
            final(timing_points).times@ == old(timing_points).times@ + timing_entries(final(self).items(), offset).map_values(|e: (i32, i64, TimingChange)| e.0),
            final(timing_points).beats@ == old(timing_points).beats@ + timing_entries(final(self).items(), offset).map_values(|e: (i32, i64, TimingChange)| e.1),
            final(timing_points).changes@ == old(timing_points).changes@ + timing_entries(final(self).items(), offset).map_values(|e: (i32, i64, TimingChange)| e.2),
    {
        self.sort();
        proof {
            let items = self.timeline@;
            assert forall|i: int| 0 <= i < items.len() && (#[trigger] items[i]).change_type == TimingChangeType::Bpm
                implies 0 <= items[i].value <= crate::common::MAX_MILLI_BPM by {
                items.to_multiset_ensures();
                old(self).timeline@.to_multiset_ensures();
                assert(items.contains(items[i]));
                assert(items.to_multiset().count(items[i]) > 0);
                assert(old(self).timeline@.to_multiset().count(items[i]) > 0);
                assert(old(self).timeline@.contains(items[i]));
            }
            items.to_multiset_ensures();
            old(self).timeline@.to_multiset_ensures();
            lemma_tempo_lists(items);
        }
        let (bpm_times, bpms) = self.tempo_lists();
        let ghost items = self.timeline@;
        let ghost entries = timing_entries(items, offset);
        let ghost t0 = timing_points.times@;
        let ghost b0 = timing_points.beats@;
        let ghost c0 = timing_points.changes@;
        let mut i: usize = 0;
        while i < self.timeline.len()
            invariant
                i <= self.timeline.len(),
                items == self.timeline@,
                entries == timing_entries(items, offset),
                bpm_times@ == tempo_times(items),
                bpms@ == tempo_values(items),
                valid_tempo_list(bpm_times@, bpms@),
                timing_points.times@ == t0 + entries.subrange(0, i as int).map_values(|e: (i32, i64, TimingChange)| e.0),
                timing_points.beats@ == b0 + entries.subrange(0, i as int).map_values(|e: (i32, i64, TimingChange)| e.1),
                timing_points.changes@ == c0 + entries.subrange(0, i as int).map_values(|e: (i32, i64, TimingChange)| e.2),
            decreases self.timeline.len() - i,
        {
            let e = self.timeline[i];
            let beat = calculate_beat_from_time(e.time, offset, &bpm_times, &bpms);
            timing_points.add(e.time, beat, TimingChange { change_type: e.change_type, value: e.value });
            proof {
                assert(entries[i as int].1 == beat);
                assert(timing_points.times@ =~= t0 + entries.subrange(0, i + 1).map_values(|e: (i32, i64, TimingChange)| e.0));
                assert(timing_points.beats@ =~= b0 + entries.subrange(0, i + 1).map_values(|e: (i32, i64, TimingChange)| e.1));
                assert(timing_points.changes@ =~= c0 + entries.subrange(0, i + 1).map_values(|e: (i32, i64, TimingChange)| e.2));
            }
            i += 1;
        }
        assert(entries.subrange(0, i as int) =~= entries);
    }
}

impl Timeline<TimelineHitObject> {
    /// Folds the events into a fresh row grid (see `to_hitobjects`).
    pub fn to_new_hitobjects(&self, key_count: usize, offset: i32, bpms_times: &Vec<i32>, bpms: &Vec<i64>) -> (r: HitObjects)
        requires
            valid_tempo_list(bpms_times@, bpms@),
        ensures
            r.wf(),
            holds_groups(r, nonempty_groups(row_groups(self.items(), key_count as nat)), offset, bpms_times@, bpms@),
    {
        let mut h = HitObjects::with_capacity(0);
        let ghost h0 = h;
        self.to_hitobjects(&mut h, offset, key_count, bpms_times, bpms);
        proof {
            lemma_appended_to_empty(h0, h, nonempty_groups(row_groups(self.items(), key_count as nat)), offset, bpms_times@, bpms@);
        }
        h
    }

    /// Folds the events into rows: each run of events sharing a time gives one
    /// row of `key_count` lanes, placed at its beat from `offset` under the
    /// tempo list; rows left all empty are not stored.
    pub fn to_hitobjects(
        &self,
        hitobjects: &mut HitObjects,
        offset: i32,
        key_count: usize,
        bpms_times: &Vec<i32>,
        bpms: &Vec<i64>,
    )
        requires
            old(hitobjects).wf(),
            valid_tempo_list(bpms_times@, bpms@),
        ensures
            final(hitobjects).wf(),
            appended_rows(
                *old(hitobjects),
                *final(hitobjects),
                nonempty_groups(row_groups(self.items(), key_count as nat)),
                offset,
                bpms_times@,
                bpms@,
            ),
    {
        let ghost start = *hitobjects;
        let ghost items = self.timeline@;
        let n = self.timeline.len();
        if n == 0 {
            proof {
                assert(hitobjects.rows@.subrange(0, hitobjects.rows.len() as int) =~= hitobjects.rows@);
                assert(hitobjects.times@.subrange(0, hitobjects.rows.len() as int) =~= hitobjects.times@);
                assert(hitobjects.beats@.subrange(0, hitobjects.rows.len() as int) =~= hitobjects.beats@);
                assert(hitobjects.keysounds@.subrange(0, hitobjects.rows.len() as int) =~= hitobjects.keysounds@);
            }
            return;
        }
        let mut current_time: i32 = self.timeline[0].time;
        let mut row = empty_row(key_count);
        let mut sounds = no_sounds(key_count);
        let ghost mut done: Seq<RowGroup> = seq![];
        proof {
            assert(hitobjects.rows@.subrange(0, hitobjects.rows.len() as int) =~= hitobjects.rows@);
            assert(hitobjects.times@.subrange(0, hitobjects.rows.len() as int) =~= hitobjects.times@);
            assert(hitobjects.beats@.subrange(0, hitobjects.rows.len() as int) =~= hitobjects.beats@);
            assert(hitobjects.keysounds@.subrange(0, hitobjects.rows.len() as int) =~= hitobjects.keysounds@);
            assert(items.subrange(0, 0) =~= Seq::<TimelineHitObject>::empty());
        }
        let mut i: usize = 0;
        while i < n
            invariant
                i <= n,
                n == self.timeline.len(),
                items == self.timeline@,
                hitobjects.wf(),
                valid_tempo_list(bpms_times@, bpms@),
                appended_rows(start, *hitobjects, nonempty_groups(done), offset, bpms_times@, bpms@),
                i == 0 ==> done.len() == 0 && row@ == Seq::new(key_count as nat, |k: int| empty_key())
                    && sounds@ == Seq::new(key_count as nat, |k: int| None::<KeySound>)
                    && current_time == items[0].time,
                i > 0 ==> row_groups(items.subrange(0, i as int), key_count as nat) == done.push(
                    (current_time, row@, sounds@),
                ),
            decreases n - i,
        {
            let ev = self.timeline[i];
            proof {
                assert(items.subrange(0, i + 1).drop_last() =~= items.subrange(0, i as int));
                assert(items.subrange(0, i + 1).last() == ev);
            }
            if i > 0 && ev.time != current_time {
                let ghost cur = (current_time, row@, sounds@);
                let finished = row;
                let finished_sounds = sounds;
                flush_row(hitobjects, current_time, finished, finished_sounds, offset, bpms_times, bpms, Ghost(start), Ghost(done));
                proof {
                    done = done.push(cur);
                }
                current_time = ev.time;
                row = empty_row(key_count);
                sounds = no_sounds(key_count);
            }
            apply_event_exec(&mut row, &mut sounds, &ev);
            proof {
                if i == 0 {
                    assert(row_groups(items.subrange(0, 0), key_count as nat) =~= seq![]);
                }
            }
            i += 1;
        }
        flush_row(hitobjects, current_time, row, sounds, offset, bpms_times, bpms, Ghost(start), Ghost(done));
        proof {
            assert(items.subrange(0, n as int) =~= items);
        }
    }
}

} // verus!
