//! Quaver's encodings: 1-based lanes that may widen the chart, hold notes
//! marked by an end time, and the `Keys4` / `Keys7` modes.
use vstd::prelude::*;
use vstd::string::{StringExecFns, StringSliceAdditionalSpecFns};
use crate::common::{Key, KeyType};
use crate::errors::{ParseError, WriteError};
use crate::hitobjects::HitObjects;
use crate::sound::{HitSoundType, KeySound, SoundEffect, builtin_sound};
use crate::rhythm::valid_tempo_list;
use crate::timeline::{
    Timeline, TimelineHitObject, holds_groups, nonempty_groups, row_groups, sorted_by_time,
    timeline_of, insert_by_time,
};

verus! {

/// One hit object block, as numbers: start time, 1-based lane, end time (0
/// for a plain note), and its key sound, if any.
#[derive(Debug, Clone, Copy, PartialEq, Eq, Structural)]
pub struct QuaverHitObject {
    pub time: i32,
    pub lane: usize,
    pub end_time: i32,
    pub keysound: Option<KeySound>,
}

/// Timeline events of one object in 0-based lane `lane - 1`: a hold note
/// gives a slider start and end, a plain note one note.
pub open spec fn qua_object_events(o: QuaverHitObject) -> Seq<TimelineHitObject> {
    let column = (o.lane - 1) as usize;
    if o.end_time != 0 {
        seq![
            TimelineHitObject { time: o.time, column, key: Key { key_type: KeyType::SliderStart, slider_end_time: Some(o.end_time) }, keysound: o.keysound },
            TimelineHitObject { time: o.end_time, column, key: Key { key_type: KeyType::SliderEnd, slider_end_time: None }, keysound: None },
        ]
    } else {
        seq![TimelineHitObject { time: o.time, column, key: Key { key_type: KeyType::Normal, slider_end_time: None }, keysound: o.keysound }]
    }
}

pub open spec fn qua_events(objs: Seq<QuaverHitObject>) -> Seq<TimelineHitObject>
    decreases objs.len(),
{
    if objs.len() == 0 {
        seq![]
    } else {
        qua_events(objs.drop_last()) + qua_object_events(objs.last())
    }
}

/// Lane count after reading the objects: widened to hold every object's
/// lane, so the declared count or the largest 1-based lane, whichever is
/// greater.
pub open spec fn widened_key_count(objs: Seq<QuaverHitObject>, key_count: int) -> int
    decreases objs.len(),
{
    if objs.len() == 0 {
        key_count
    } else {
        let p = widened_key_count(objs.drop_last(), key_count);
        if objs.last().lane > p { objs.last().lane as int } else { p }
    }
}

/// Sound bank index of a 1-based Quaver sample number (0 stays 0).
pub open spec fn sample_index(sample: usize) -> usize {
    if sample > 0 { (sample - 1) as usize } else { 0 }
}

/// The sound of a hit object block: a custom sample (1-based number,
/// volume) with the block's hit sound; else its built-in hit sound at full
/// volume; none for a plain normal sound.
pub open spec fn quaver_keysound_spec(hitsound: HitSoundType, sample: Option<(usize, u8)>) -> Option<KeySound> {
    match sample {
        Some((i, v)) => Some(KeySound { volume: v, hitsound_type: hitsound, sample: Some(sample_index(i)), has_custom: true }),
        None => if hitsound == HitSoundType::Normal { None } else { Some(builtin_sound(100, hitsound)) },
    }
}

/// The sound of a hit object block (see `quaver_keysound_spec`).
pub fn quaver_keysound(hitsound: HitSoundType, sample: Option<(usize, u8)>) -> (r: Option<KeySound>)
    ensures
        r == quaver_keysound_spec(hitsound, sample),
{
    match sample {
        Some((i, v)) => {
            let index = if i > 0 { i - 1 } else { 0 };
            Some(KeySound::with_custom(v, index, Some(hitsound)))
        },
        None => if hitsound == HitSoundType::Normal { None } else { Some(KeySound::of_type(100, hitsound)) },
    }
}

/// A sound effect of the `SoundEffects` list: its time, 1-based sample
/// number and volume.
pub fn quaver_sound_effect(time: i32, sample: usize, volume: u8) -> (r: SoundEffect)
    ensures
        r == (SoundEffect { time, volume, sample: sample_index(sample) }),
{
    let index = if sample > 0 { sample - 1 } else { 0 };
    SoundEffect::new(time, volume, index)
}

/// ASCII letter in lower case; other bytes unchanged.
pub open spec fn ascii_lower(c: u8) -> u8 {
    if 65 <= c <= 90 { (c + 32) as u8 } else { c }
}

/// `s` spells `word` (lower case) with letters in either case.
pub open spec fn spells(s: Seq<u8>, word: Seq<u8>) -> bool {
    s.len() == word.len() && forall|i: int| 0 <= i < s.len() ==> ascii_lower(#[trigger] s[i]) == word[i]
}

/// The built-in sound a `HitSound` value names: `Clap`, `Whistle` or
/// `Finish` in any letter case; anything else is normal.
pub open spec fn quaver_hitsound_spec(name: Seq<u8>) -> HitSoundType {
    if spells(name, seq![99u8, 108u8, 97u8, 112u8]) {
        HitSoundType::Clap
    } else if spells(name, seq![119u8, 104u8, 105u8, 115u8, 116u8, 108u8, 101u8]) {
        HitSoundType::Whistle
    } else if spells(name, seq![102u8, 105u8, 110u8, 105u8, 115u8, 104u8]) {
        HitSoundType::Finish
    } else {
        HitSoundType::Normal
    }
}

fn spells_exec(s: &[u8], word: &[u8]) -> (r: bool)
    ensures
        r == spells(s@, word@),
{
    if s.len() != word.len() {
        return false;
    }
    let mut i: usize = 0;
    while i < s.len()
        invariant
            i <= s@.len(),
            s@.len() == word@.len(),
            forall|j: int| 0 <= j < i ==> ascii_lower(#[trigger] s@[j]) == word@[j],
        decreases s@.len() - i,
    {
        let c = s[i];
        let l: u8 = if 65u8 <= c && c <= 90u8 { c + 32 } else { c };
        if l != word[i] {
            return false;
        }
        i += 1;
    }
    true
}

/// Reads a `HitSound` value (see `quaver_hitsound_spec`).
pub fn quaver_hitsound(name: &str) -> (r: HitSoundType)
    ensures
        r == quaver_hitsound_spec(name.spec_bytes()),
{
    let b = name.as_bytes();
    let clap: [u8; 4] = [99u8, 108u8, 97u8, 112u8];
    let whistle: [u8; 7] = [119u8, 104u8, 105u8, 115u8, 116u8, 108u8, 101u8];
    let finish: [u8; 6] = [102u8, 105u8, 110u8, 105u8, 115u8, 104u8];
    proof {
        assert(clap@ =~= seq![99u8, 108u8, 97u8, 112u8]);
        assert(whistle@ =~= seq![119u8, 104u8, 105u8, 115u8, 116u8, 108u8, 101u8]);
        assert(finish@ =~= seq![102u8, 105u8, 110u8, 105u8, 115u8, 104u8]);
    }
    if spells_exec(b, clap.as_slice()) {
        HitSoundType::Clap
    } else if spells_exec(b, whistle.as_slice()) {
        HitSoundType::Whistle
    } else if spells_exec(b, finish.as_slice()) {
        HitSoundType::Finish
    } else {
        HitSoundType::Normal
    }
}

/// Every lane is 1-based.
pub open spec fn lanes_valid(objs: Seq<QuaverHitObject>) -> bool {
    forall|i: int| 0 <= i < objs.len() ==> (#[trigger] objs[i]).lane >= 1
}

proof fn lemma_timeline_of_push(events: Seq<TimelineHitObject>, x: TimelineHitObject)
    ensures
        timeline_of(events.push(x)) == insert_by_time(timeline_of(events), x),
{
    assert(events.push(x).drop_last() =~= events);
}

/// Builds the row grid of a Quaver chart's hit objects, widening the lane
/// count to hold every object's lane. Fails on a lane below 1. Returns the rows and
/// the lane count.
pub fn process_notes(
    objs: &Vec<QuaverHitObject>,
    key_count: usize,
    offset: i32,
    bpm_times: &Vec<i32>,
    bpms: &Vec<i64>,
) -> (r: Result<(HitObjects, usize), ParseError>)
    requires
        valid_tempo_list(bpm_times@, bpms@),
    ensures
        r.is_ok() == lanes_valid(objs@),
        r.is_ok() ==> {
            let (h, kc) = r.unwrap();
            &&& kc == widened_key_count(objs@, key_count as int)
            &&& h.wf()
            &&& holds_groups(h, nonempty_groups(row_groups(timeline_of(qua_events(objs@)), kc as nat)), offset, bpm_times@, bpms@)
        },
{
    let mut timeline: Timeline<TimelineHitObject> = Timeline::with_capacity(objs.len());
    let mut kc: usize = key_count;
    let mut i: usize = 0;
    while i < objs.len()
        invariant
            i <= objs@.len(),
            timeline.wf(),
            sorted_by_time(timeline.items()),
            timeline.items() == timeline_of(qua_events(objs@.subrange(0, i as int))),
            kc == widened_key_count(objs@.subrange(0, i as int), key_count as int),
            lanes_valid(objs@.subrange(0, i as int)),
        decreases objs@.len() - i,
    {
        let o = objs[i];
        let ghost before = qua_events(objs@.subrange(0, i as int));
        proof {
            assert(objs@.subrange(0, i + 1).drop_last() =~= objs@.subrange(0, i as int));
            assert(objs@.subrange(0, i + 1).last() == o);
        }
        if o.lane == 0 {
            proof {
                assert(!lanes_valid(objs@)) by {
                    assert(objs@[i as int].lane < 1);
                }
            }
            return Err(ParseError::InvalidChart(String::from_str("a hit object's lane must be at least 1")));
        }
        let lane = o.lane - 1;
        if o.lane > kc {
            kc = o.lane;
        }
        if o.end_time != 0 {
            let start = TimelineHitObject { time: o.time, column: lane, key: Key::slider_start(Some(o.end_time)), keysound: o.keysound };
            let end = TimelineHitObject { time: o.end_time, column: lane, key: Key::slider_end(), keysound: None };
            timeline.add_sorted(start);
            timeline.add_sorted(end);
            proof {
                lemma_timeline_of_push(before, start);
                lemma_timeline_of_push(before.push(start), end);
                assert(before + qua_object_events(o) =~= before.push(start).push(end));
            }
        } else {
            let note = TimelineHitObject { time: o.time, column: lane, key: Key::normal(), keysound: o.keysound };
            timeline.add_sorted(note);
            proof {
                lemma_timeline_of_push(before, note);
                assert(before + qua_object_events(o) =~= before.push(note));
            }
        }
        proof {
            assert forall|k: int| 0 <= k < i + 1 implies (#[trigger] objs@.subrange(0, i + 1)[k]).lane >= 1 by {
                if k < i {
                    assert(objs@.subrange(0, i + 1)[k] == objs@.subrange(0, i as int)[k]);
                }
            }
        }
        i += 1;
    }
    proof {
        assert(objs@.subrange(0, i as int) =~= objs@);
    }
    let h = timeline.to_new_hitobjects(kc, offset, bpm_times, bpms);
    Ok((h, kc))
}

/// Lane count of a Quaver mode name: `Keys4` or `Keys7`.
pub fn quaver_key_count(mode: &str) -> (r: Result<u8, ParseError>)
    ensures
        mode.spec_bytes() == "Keys4"@.map_values(|c: char| c as u8) ==> r == Ok::<u8, ParseError>(4),
        mode.spec_bytes() == "Keys7"@.map_values(|c: char| c as u8) ==> r == Ok::<u8, ParseError>(7),
        r.is_ok() ==> mode.spec_bytes() == "Keys4"@.map_values(|c: char| c as u8)
            || mode.spec_bytes() == "Keys7"@.map_values(|c: char| c as u8),
{
    let b = mode.as_bytes();
    proof {
        reveal_strlit("Keys4");
        reveal_strlit("Keys7");
    }
    if b.len() == 5 && b[0] == 75u8 && b[1] == 101u8 && b[2] == 121u8 && b[3] == 115u8 {
        if b[4] == 52u8 {
            proof {
                assert(b@ =~= "Keys4"@.map_values(|c: char| c as u8));
            }
            return Ok(4);
        } else if b[4] == 55u8 {
            proof {
                assert(b@ =~= "Keys7"@.map_values(|c: char| c as u8));
            }
            return Ok(7);
        }
    }
    proof {
        if b@ == "Keys4"@.map_values(|c: char| c as u8) {
            assert(b@[4] == 52u8);
        }
        if b@ == "Keys7"@.map_values(|c: char| c as u8) {
            assert(b@[4] == 55u8);
        }
    }
    Err(ParseError::InvalidChart(String::from_str("Quaver only supports Keys4 and Keys7 for Mode")))
}

/// Mode name Quaver gets for a lane count: `Keys4` for 4, `Keys7` for 7 and
/// for 8; other counts cannot be written.
pub fn quaver_mode_label(key_count: u8) -> (r: Result<&'static str, WriteError>)
    ensures
        key_count == 4 ==> r.is_ok() && r.unwrap()@ == "Keys4"@,
        (key_count == 7 || key_count == 8) ==> r.is_ok() && r.unwrap()@ == "Keys7"@,
        !(key_count == 4 || key_count == 7 || key_count == 8) ==> match r {
            Err(WriteError::InvalidKeyCount(n, supported, format)) => n == key_count && supported@
                == "4k, 7k and 7k+1"@ && format@ == "Quaver"@,
            _ => false,
        },
{
    if key_count == 4 {
        Ok("Keys4")
    } else if key_count == 7 || key_count == 8 {
        Ok("Keys7")
    } else {
        Err(WriteError::InvalidKeyCount(key_count, String::from_str("4k, 7k and 7k+1"), String::from_str("Quaver")))
    }
}

} // verus!
