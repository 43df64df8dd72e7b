//! The dense row grid of a chart: one row per instant, one cell per lane.
use vstd::prelude::*;
use crate::common::{Key, KeyType, has_content, row_has_content};
use crate::sound::KeySoundRow;

verus! {

/// Number of non-empty cells in a row.
pub open spec fn notes_in_row(row: Seq<Key>) -> nat
    decreases row.len(),
{
    if row.len() == 0 {
        0
    } else {
        notes_in_row(row.drop_last()) + if row.last().key_type != KeyType::Empty { 1nat } else { 0nat }
    }
}

/// Number of non-empty cells in the rows, capped at `usize::MAX`.
pub open spec fn notes_in(rows: Seq<Vec<Key>>) -> usize
    decreases rows.len(),
{
    if rows.len() == 0 {
        0
    } else {
        let t = notes_in(rows.drop_last()) as int + notes_in_row(rows.last()@);
        if t > usize::MAX { usize::MAX } else { t as usize }
    }
}

/// Rows of key cells with their times (ms), beats (ticks) and sounds, in
/// parallel lists.
#[derive(Debug, Clone)]
pub struct HitObjects {
    pub times: Vec<i32>,
    pub rows: Vec<Vec<Key>>,
    pub beats: Vec<i64>,
    pub keysounds: Vec<KeySoundRow>,
}

impl HitObjects {
    /// The parallel lists agree in length and no stored row is all empty.
    pub open spec fn wf(&self) -> bool {
        &&& self.times.len() == self.rows.len()
        &&& self.beats.len() == self.rows.len()
        &&& self.keysounds.len() == self.rows.len()
        &&& forall|i: int| 0 <= i < self.rows.len() ==> row_has_content(#[trigger] self.rows@[i]@)
    }

    pub fn with_capacity(capacity: usize) -> (r: Self)
        ensures
            r.wf(),
            r.rows.len() == 0,
    {
        HitObjects {
            times: Vec::with_capacity(capacity),
            rows: Vec::with_capacity(capacity),
            beats: Vec::with_capacity(capacity),
            keysounds: Vec::with_capacity(capacity),
        }
    }

    pub fn new(times: Vec<i32>, keysounds: Vec<KeySoundRow>, rows: Vec<Vec<Key>>, beats: Vec<i64>) -> (r: Self)
        ensures
            r.times == times,
            r.keysounds == keysounds,
            r.rows == rows,
            r.beats == beats,
    {
        HitObjects { times, rows, beats, keysounds }
    }

    /// Number of non-empty cells in the stored rows (capped at `usize::MAX`).
    pub fn object_count(&self) -> (r: usize)
        ensures
            r == notes_in(self.rows@),
    {
        let mut n: usize = 0;
        let mut i: usize = 0;
        while i < self.rows.len()
            invariant
                i <= self.rows.len(),
                n == notes_in(self.rows@.subrange(0, i as int)),
            decreases self.rows.len() - i,
        {
            proof {
                assert(self.rows@.subrange(0, i + 1).drop_last() =~= self.rows@.subrange(0, i as int));
            }
            let row = &self.rows[i];
            let mut m: usize = n;
            let mut c: usize = 0;
            while c < row.len()
                invariant
                    c <= row@.len(),
                    m as int == (if n as int + notes_in_row(row@.subrange(0, c as int)) > usize::MAX {
                        usize::MAX as int
                    } else {
                        n as int + notes_in_row(row@.subrange(0, c as int))
                    }),
                decreases row@.len() - c,
            {
                proof {
                    assert(row@.subrange(0, c + 1).drop_last() =~= row@.subrange(0, c as int));
                }
                if row[c].key_type != KeyType::Empty && m < usize::MAX {
                    m = m + 1;
                }
                c += 1;
            }
            proof {
                assert(row@.subrange(0, c as int) =~= row@);
            }
            n = m;
            i += 1;
        }
        proof {
            assert(self.rows@.subrange(0, i as int) =~= self.rows@);
        }
        n
    }

    /// Appends a row, unless every cell of it is empty.
    pub fn add_hitobject(&mut self, time: i32, beat: i64, hitsound: KeySoundRow, row: Vec<Key>)
        requires
            old(self).wf(),
        ensures
            final(self).wf(),
            row_has_content(row@) ==> {
                &&& final(self).times@ == old(self).times@.push(time)
                &&& final(self).beats@ == old(self).beats@.push(beat)
                &&& final(self).rows@ == old(self).rows@.push(row)
                &&& final(self).keysounds@ == old(self).keysounds@.push(hitsound)
            },
            !row_has_content(row@) ==> *final(self) == *old(self),
    {
        if !has_content(&row) {
            return;
        }
        self.times.push(time);
        self.keysounds.push(hitsound);
        self.beats.push(beat);
        self.rows.push(row);
        proof {
            assert forall|i: int| 0 <= i < self.rows.len() implies row_has_content(#[trigger] self.rows@[i]@) by {
                if i < old(self).rows.len() {
                    assert(self.rows@[i] == old(self).rows@[i]);
                }
            }
        }
    }
}

} // verus!
