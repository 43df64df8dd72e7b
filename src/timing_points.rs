//! Tempo, scroll-velocity and stop changes of a chart, in time order.
use vstd::prelude::*;
use crate::common::TimingChangeType;

verus! {

/// One change: its kind and value (thousandths of a BPM, thousandths of a
/// velocity multiplier, or milliseconds of pause).
#[derive(Debug, Clone, Copy, PartialEq, Eq, Structural)]
pub struct TimingChange {
    pub change_type: TimingChangeType,
    pub value: i64,
}

/// Values of the changes of one kind, in order.
pub open spec fn values_of_kind(changes: Seq<TimingChange>, kind: TimingChangeType) -> Seq<i64>
    decreases changes.len(),
{
    if changes.len() == 0 {
        seq![]
    } else if changes.last().change_type == kind {
        values_of_kind(changes.drop_last(), kind).push(changes.last().value)
    } else {
        values_of_kind(changes.drop_last(), kind)
    }
}

/// Times of the changes of one kind, in order.
pub open spec fn times_of_kind(times: Seq<i32>, changes: Seq<TimingChange>, kind: TimingChangeType) -> Seq<i32>
    decreases changes.len(),
{
    if changes.len() == 0 || times.len() == 0 {
        seq![]
    } else if changes.last().change_type == kind {
        times_of_kind(times.drop_last(), changes.drop_last(), kind).push(times.last())
    } else {
        times_of_kind(times.drop_last(), changes.drop_last(), kind)
    }
}

/// Whether any change is of the kind.
pub open spec fn has_kind(changes: Seq<TimingChange>, kind: TimingChangeType) -> bool {
    exists|i: int| 0 <= i < changes.len() && changes[i].change_type == kind
}

/// Changes with their times (ms) and beats (ticks), in parallel lists.
#[derive(Debug, Clone)]
pub struct TimingPoints {
    pub times: Vec<i32>,
    pub beats: Vec<i64>,
    pub changes: Vec<TimingChange>,
}

impl TimingPoints {
    /// The parallel lists agree in length.
    pub open spec fn wf(&self) -> bool {
        &&& self.times.len() == self.changes.len()
        &&& self.beats.len() == self.changes.len()
    }

    pub fn with_capacity(capacity: usize) -> (r: Self)
        ensures
            r.wf(),
            r.changes.len() == 0,
    {
        TimingPoints {
            times: Vec::with_capacity(capacity),
            beats: Vec::with_capacity(capacity),
            changes: Vec::with_capacity(capacity),
        }
    }

    pub fn new(times: Vec<i32>, beats: Vec<i64>, changes: Vec<TimingChange>) -> (r: Self)
        ensures
            r.times == times,
            r.beats == beats,
            r.changes == changes,
    {
        TimingPoints { times, beats, changes }
    }

    pub fn add(&mut self, time: i32, beat: i64, change: TimingChange)
        ensures
            final(self).times@ == old(self).times@.push(time),
            final(self).beats@ == old(self).beats@.push(beat),
            final(self).changes@ == old(self).changes@.push(change),
    {
        self.times.push(time);
        self.beats.push(beat);
        self.changes.push(change);
    }

    fn has_change_of(&self, kind: TimingChangeType) -> (r: bool)
        ensures
            r == has_kind(self.changes@, kind),
    {
        let mut i: usize = 0;
        while i < self.changes.len()
            invariant
                i <= self.changes.len(),
                forall|j: int| 0 <= j < i ==> self.changes@[j].change_type != kind,
            decreases self.changes.len() - i,
        {
            if self.changes[i].change_type == kind {
                return true;
            }
            i += 1;
        }
        false
    }

    /// Whether no change sets a tempo.
    pub fn is_bpms_empty(&self) -> (r: bool)
        ensures
            r == !has_kind(self.changes@, TimingChangeType::Bpm),
    {
        !self.has_change_of(TimingChangeType::Bpm)
    }

    /// Whether no change sets a scroll velocity.
    pub fn is_sv_empty(&self) -> (r: bool)
        ensures
            r == !has_kind(self.changes@, TimingChangeType::Sv),
    {
        !self.has_change_of(TimingChangeType::Sv)
    }

    fn values_of(&self, kind: TimingChangeType) -> (r: Vec<i64>)
        ensures
            r@ == values_of_kind(self.changes@, kind),
    {
        let mut out: Vec<i64> = Vec::new();
        let mut i: usize = 0;
        while i < self.changes.len()
            invariant
                i <= self.changes.len(),
                out@ == values_of_kind(self.changes@.subrange(0, i as int), kind),
            decreases self.changes.len() - i,
        {
            proof {
                assert(self.changes@.subrange(0, i + 1).drop_last() =~= self.changes@.subrange(0, i as int));
            }
            if self.changes[i].change_type == kind {
                out.push(self.changes[i].value);
            }
            i += 1;
        }
        assert(self.changes@.subrange(0, i as int) =~= self.changes@);
        out
    }

    /// The tempos, in order.
    pub fn bpms(&self) -> (r: Vec<i64>)
        ensures
            r@ == values_of_kind(self.changes@, TimingChangeType::Bpm),
    {
        self.values_of(TimingChangeType::Bpm)
    }

    /// The scroll velocities, in order.
    pub fn sv(&self) -> (r: Vec<i64>)
        ensures
            r@ == values_of_kind(self.changes@, TimingChangeType::Sv),
    {
        self.values_of(TimingChangeType::Sv)
    }

    /// The times of the tempo changes, in order.
    pub fn bpm_times(&self) -> (r: Vec<i32>)
        requires
            self.wf(),
        ensures
            r@ == times_of_kind(self.times@, self.changes@, TimingChangeType::Bpm),
            r@.len() == values_of_kind(self.changes@, TimingChangeType::Bpm).len(),
    {
        let mut out: Vec<i32> = Vec::new();
        let mut i: usize = 0;
        while i < self.changes.len()
            invariant
                self.wf(),
                i <= self.changes.len(),
                out@ == times_of_kind(self.times@.subrange(0, i as int), self.changes@.subrange(0, i as int), TimingChangeType::Bpm),
                out@.len() == values_of_kind(self.changes@.subrange(0, i as int), TimingChangeType::Bpm).len(),
            decreases self.changes.len() - i,
        {
            proof {
                assert(self.changes@.subrange(0, i + 1).drop_last() =~= self.changes@.subrange(0, i as int));
                assert(self.times@.subrange(0, i + 1).drop_last() =~= self.times@.subrange(0, i as int));
            }
            if self.changes[i].change_type == TimingChangeType::Bpm {
                out.push(self.times[i]);
            }
            i += 1;
        }
        assert(self.changes@.subrange(0, i as int) =~= self.changes@);
        assert(self.times@.subrange(0, i as int) =~= self.times@);
        out
    }
}

} // verus!
