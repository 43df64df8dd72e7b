//! Hit sounds of notes and the bank of custom audio samples a chart uses.
use vstd::prelude::*;

verus! {

/// Built-in hit sound kinds.
#[derive(Debug, Clone, Copy, PartialEq, Eq, Structural)]
pub enum HitSoundType {
    Normal,
    Clap,
    Whistle,
    Finish,
}

/// A sample played at a given time, independent of any note.
#[derive(Debug, Clone, Copy, PartialEq, Eq, Structural)]
pub struct SoundEffect {
    pub time: i32,
    pub volume: u8,
    pub sample: usize,
}

impl SoundEffect {
    pub fn new(time: i32, volume: u8, sample: usize) -> (r: Self)
        ensures
            r == (SoundEffect { time, volume, sample }),
    {
        SoundEffect { time, volume, sample }
    }
}

/// The sound a note makes: a built-in kind, optionally a custom sample.
#[derive(Debug, Clone, Copy, PartialEq, Eq, Structural)]
pub struct KeySound {
    pub volume: u8,
    pub hitsound_type: HitSoundType,
    pub sample: Option<usize>,
    pub has_custom: bool,
}

/// A built-in hit sound of the given kind and volume.
pub open spec fn builtin_sound(volume: u8, t: HitSoundType) -> KeySound {
    KeySound { volume, hitsound_type: t, sample: None, has_custom: false }
}

impl KeySound {
    pub fn of_type(volume: u8, hitsound_type: HitSoundType) -> (r: Self)
        ensures
            r == builtin_sound(volume, hitsound_type),
    {
        KeySound { volume, hitsound_type, sample: None, has_custom: false }
    }

    pub fn normal(volume: u8) -> (r: Self)
        ensures
            r == builtin_sound(volume, HitSoundType::Normal),
    {
        KeySound::of_type(volume, HitSoundType::Normal)
    }

    pub fn clap(volume: u8) -> (r: Self)
        ensures
            r == builtin_sound(volume, HitSoundType::Clap),
    {
        KeySound::of_type(volume, HitSoundType::Clap)
    }

    pub fn whistle(volume: u8) -> (r: Self)
        ensures
            r == builtin_sound(volume, HitSoundType::Whistle),
    {
        KeySound::of_type(volume, HitSoundType::Whistle)
    }

    pub fn finish(volume: u8) -> (r: Self)
        ensures
            r == builtin_sound(volume, HitSoundType::Finish),
    {
        KeySound::of_type(volume, HitSoundType::Finish)
    }

    /// A custom sample; the kind defaults to `Normal`.
    pub fn with_custom(volume: u8, sample_index: usize, hitsound_type: Option<HitSoundType>) -> (r: Self)
        ensures
            r == (KeySound {
                volume,
                hitsound_type: match hitsound_type {
                    Some(t) => t,
                    None => HitSoundType::Normal,
                },
                sample: Some(sample_index),
                has_custom: true,
            }),
    {
        let hstype = match hitsound_type {
            Some(t) => t,
            None => HitSoundType::Normal,
        };
        KeySound { volume, hitsound_type: hstype, sample: Some(sample_index), has_custom: true }
    }
}

/// A given sound, or a normal sound at full volume.
pub open spec fn unwrap_sound(o: Option<KeySound>) -> KeySound {
    match o {
        Some(s) => s,
        None => builtin_sound(100, HitSoundType::Normal),
    }
}

/// The sounds of one row, one per lane.
#[derive(Debug, Clone)]
pub struct KeySoundRow {
    sounds: Vec<KeySound>,
    pub is_empty: bool,
}

impl View for KeySoundRow {
    type V = Seq<KeySound>;

    closed spec fn view(&self) -> Seq<KeySound> {
        self.sounds@
    }
}

impl KeySoundRow {
    /// Whether the row was built without sounds of its own.
    pub closed spec fn empty_flag(&self) -> bool {
        self.is_empty
    }

    /// `capacity` normal sounds at full volume, marked empty.
    pub fn with_capacity(capacity: usize) -> (r: Self)
        ensures
            r@ == Seq::new(capacity as nat, |i: int| builtin_sound(100, HitSoundType::Normal)),
            r.empty_flag(),
    {
        let mut sounds: Vec<KeySound> = Vec::with_capacity(capacity);
        let mut i: usize = 0;
        while i < capacity
            invariant
                i <= capacity,
                sounds@ == Seq::new(i as nat, |j: int| builtin_sound(100, HitSoundType::Normal)),
            decreases capacity - i,
        {
            sounds.push(KeySound::normal(100));
            i += 1;
            assert(sounds@ =~= Seq::new(i as nat, |j: int| builtin_sound(100, HitSoundType::Normal)));
        }
        KeySoundRow { sounds, is_empty: true }
    }

    pub fn empty() -> (r: Self)
        ensures
            r@ == Seq::<KeySound>::empty(),
            r.empty_flag(),
    {
        KeySoundRow { sounds: Vec::new(), is_empty: true }
    }

    pub fn with(sounds: Vec<KeySound>) -> (r: Self)
        ensures
            r@ == sounds@,
            !r.empty_flag(),
    {
        KeySoundRow { sounds, is_empty: false }
    }

    /// Each missing sound replaced by a normal sound at full volume.
    pub fn with_unwrap(sounds: &[Option<KeySound>]) -> (r: Self)
        ensures
            r@ == Seq::new(sounds@.len(), |i: int| unwrap_sound(sounds@[i])),
            !r.empty_flag(),
    {
        let mut out: Vec<KeySound> = Vec::with_capacity(sounds.len());
        let mut i: usize = 0;
        while i < sounds.len()
            invariant
                i <= sounds@.len(),
                out@ == Seq::new(i as nat, |j: int| unwrap_sound(sounds@[j])),
            decreases sounds@.len() - i,
        {
            let s = match sounds[i] {
                Some(s) => s,
                None => KeySound::normal(100),
            };
            out.push(s);
            i += 1;
            assert(out@ =~= Seq::new(i as nat, |j: int| unwrap_sound(sounds@[j])));
        }
        KeySoundRow { sounds: out, is_empty: false }
    }

    /// Whether the row was built without sounds of its own.
    pub fn is_marked_empty(&self) -> (r: bool)
        ensures
            r == self.empty_flag(),
    {
        self.is_empty
    }

    pub fn get_sounds(&self) -> (r: &Vec<KeySound>)
        ensures
            r@ == self@,
    {
        &self.sounds
    }

    pub fn len(&self) -> (r: usize)
        ensures
            r == self@.len(),
    {
        self.sounds.len()
    }

    /// The sound of lane `index`.
    pub fn get(&self, index: usize) -> (r: KeySound)
        requires
            index < self@.len(),
        ensures
            r == self@[index as int],
    {
        self.sounds[index]
    }
}

/// Path-to-index table read as a map; a later entry for a path overrides an
/// earlier one.
pub open spec fn entries_map(entries: Seq<(String, usize)>) -> Map<Seq<char>, usize>
    decreases entries.len(),
{
    if entries.len() == 0 {
        Map::empty()
    } else {
        entries_map(entries.drop_last()).insert(entries.last().0@, entries.last().1)
    }
}

/// The path at `index`, empty past the end.
pub open spec fn slot_path(paths: Seq<String>, index: int) -> Seq<char> {
    if 0 <= index < paths.len() { paths[index]@ } else { Seq::empty() }
}

/// Number of non-empty paths.
pub open spec fn count_nonempty(paths: Seq<String>) -> nat
    decreases paths.len(),
{
    if paths.len() == 0 {
        0
    } else {
        count_nonempty(paths.drop_last()) + if paths.last()@.len() > 0 { 1nat } else { 0nat }
    }
}

/// The audio files and custom samples a chart uses, and its scheduled sound
/// effects. Sample paths are indexed; an empty path marks a free index.
#[derive(Debug, Clone)]
pub struct SoundBank {
    pub audio_tracks: Vec<String>,
    sound_sample_paths: Vec<String>,
    pub sound_effects: Vec<SoundEffect>,
    sample_map: Vec<(String, usize)>,
}

impl SoundBank {
    /// Audio track paths.
    pub closed spec fn tracks(&self) -> Seq<String> {
        self.audio_tracks@
    }

    /// Scheduled sound effects.
    pub closed spec fn effects(&self) -> Seq<SoundEffect> {
        self.sound_effects@
    }

    /// Sample paths by index.
    pub closed spec fn paths(&self) -> Seq<String> {
        self.sound_sample_paths@
    }

    /// Index of each known sample path.
    pub closed spec fn index_map(&self) -> Map<Seq<char>, usize> {
        entries_map(self.sample_map@)
    }

    /// Each known path's index is in range, and holds that path unless the
    /// path is empty.
    pub closed spec fn wf(&self) -> bool {
        forall|p: Seq<char>| #[trigger] self.index_map().contains_key(p) ==> self.index_map()[p] < self.paths().len()
            && (p.len() == 0 || self.paths()[self.index_map()[p] as int]@ == p)
    }

    pub fn new() -> (r: Self)
        ensures
            r.wf(),
            r.paths().len() == 0,
            r.index_map() == Map::<Seq<char>, usize>::empty(),
            r.tracks().len() == 0,
            r.effects().len() == 0,
    {
        SoundBank {
            audio_tracks: Vec::new(),
            sound_sample_paths: Vec::new(),
            sound_effects: Vec::new(),
            sample_map: Vec::new(),
        }
    }

    fn lookup(&self, path: &String) -> (r: Option<usize>)
        ensures
            r == (if self.index_map().contains_key(path@) {
                Some(self.index_map()[path@])
            } else {
                None
            }),
    {
        let mut i: usize = self.sample_map.len();
        assert(self.sample_map@.subrange(0, i as int) =~= self.sample_map@);
        while i > 0
            invariant
                i <= self.sample_map.len(),
                entries_map(self.sample_map@.subrange(0, i as int)).contains_key(path@) ==
                    self.index_map().contains_key(path@),
                entries_map(self.sample_map@.subrange(0, i as int)).contains_key(path@) ==>
                    entries_map(self.sample_map@.subrange(0, i as int))[path@]
                        == self.index_map()[path@],
            decreases i,
        {
            proof {
                assert(self.sample_map@.subrange(0, i as int).drop_last() =~= self.sample_map@.subrange(0, i - 1));
            }
            if self.sample_map[i - 1].0 == *path {
                return Some(self.sample_map[i - 1].1);
            }
            i -= 1;
        }
        proof {
            assert(self.sample_map@ =~= self.sample_map@.subrange(0, self.sample_map@.len() as int));
        }
        None
    }

    /// The index of `path`, registering it at the next free index when new.
    pub fn add_sound_sample(&mut self, path: String) -> (r: usize)
        ensures
            old(self).index_map().contains_key(path@) ==> r == old(self).index_map()[path@]
                && final(self).paths() == old(self).paths()
                && final(self).index_map() == old(self).index_map(),
            !old(self).index_map().contains_key(path@) ==> r == old(self).paths().len()
                && final(self).paths() == old(self).paths().push(path)
                && final(self).index_map() == old(self).index_map().insert(path@, r),
            final(self).tracks() == old(self).tracks(),
            final(self).effects() == old(self).effects(),
            old(self).wf() ==> final(self).wf() && r < final(self).paths().len() && (path@.len() > 0
                ==> final(self).paths()[r as int]@ == path@),
    {
        match self.lookup(&path) {
            Some(index) => index,
            None => {
                let index = self.sound_sample_paths.len();
                self.sound_sample_paths.push(path.clone());
                self.sample_map.push((path, index));
                proof {
                    assert(self.sample_map@.drop_last() =~= old(self).sample_map@);
                }
                index
            },
        }
    }

    fn remove_path(&mut self, path: &String)
        ensures
            final(self).index_map() == old(self).index_map().remove(path@),
            final(self).paths() == old(self).paths(),
            final(self).tracks() == old(self).tracks(),
            final(self).effects() == old(self).effects(),
    {
        let mut kept: Vec<(String, usize)> = Vec::new();
        let mut i: usize = 0;
        while i < self.sample_map.len()
            invariant
                i <= self.sample_map.len(),
                entries_map(kept@) == entries_map(self.sample_map@.subrange(0, i as int)).remove(path@),
            decreases self.sample_map.len() - i,
        {
            let ghost before = self.sample_map@.subrange(0, i as int);
            proof {
                assert(self.sample_map@.subrange(0, i + 1).drop_last() =~= before);
            }
            if self.sample_map[i].0 != *path {
                let e = (self.sample_map[i].0.clone(), self.sample_map[i].1);
                let ghost old_kept = kept@;
                kept.push(e);
                proof {
                    assert(kept@.drop_last() =~= old_kept);
                    assert(e.0@ != path@);
                    assert(entries_map(kept@) =~= entries_map(self.sample_map@.subrange(0, i + 1)).remove(path@));
                }
            } else {
                proof {
                    assert(entries_map(kept@) =~= entries_map(self.sample_map@.subrange(0, i + 1)).remove(path@));
                }
            }
            i += 1;
        }
        proof {
            assert(self.sample_map@.subrange(0, i as int) =~= self.sample_map@);
        }
        self.sample_map = kept;
    }

    /// Places `path` at `index`, growing the table with free slots as needed
    /// and forgetting the path that stood there, whatever index it was known
    /// by. An empty path changes nothing.
    pub fn add_sound_sample_with_index(&mut self, index: usize, path: String)
        requires
            index < usize::MAX,
        ensures
            path@.len() == 0 ==> *final(self) == *old(self),
            path@.len() > 0 ==> {
                &&& final(self).paths().len() == (if index < old(self).paths().len() {
                    old(self).paths().len() as int
                } else {
                    index + 1
                })
                &&& final(self).paths()[index as int]@ == path@
                &&& forall|j: int|
                    0 <= j < final(self).paths().len() && j != index ==> (if j < old(self).paths().len() {
                        final(self).paths()[j] == old(self).paths()[j]
                    } else {
                        final(self).paths()[j]@.len() == 0
                    })
                &&& final(self).index_map() == (if slot_path(old(self).paths(), index as int).len() > 0 {
                    old(self).index_map().remove(slot_path(old(self).paths(), index as int))
                } else {
                    old(self).index_map()
                }).insert(path@, index)
            },
            old(self).wf() ==> final(self).wf(),
            final(self).tracks() == old(self).tracks(),
            final(self).effects() == old(self).effects(),
    {
        if path.as_str().is_empty() {
            return;
        }
        let ghost orig = self.sound_sample_paths@;
        while self.sound_sample_paths.len() <= index
            invariant
                path@.len() > 0,
                index < usize::MAX,
                orig == old(self).paths(),
                self.sample_map == old(self).sample_map,
                self.audio_tracks == old(self).audio_tracks,
                self.sound_effects == old(self).sound_effects,
                orig.len() <= self.sound_sample_paths@.len(),
                self.sound_sample_paths@.len() <= if index < orig.len() {
                    orig.len() as int
                } else {
                    index + 1
                },
                forall|j: int| 0 <= j < orig.len() ==> self.sound_sample_paths@[j] == orig[j],
                forall|j: int| orig.len() <= j < self.sound_sample_paths@.len() ==> self.sound_sample_paths@[j]@.len() == 0,
            decreases index + 1 - self.sound_sample_paths.len(),
        {
            let ghost before = self.sound_sample_paths@;
            self.sound_sample_paths.push(String::new());
            assert(self.sound_sample_paths@.drop_last() =~= before);
            assert(self.sound_sample_paths@.last()@.len() == 0);
            assert forall|j: int| orig.len() <= j < self.sound_sample_paths@.len() implies self.sound_sample_paths@[j]@.len() == 0 by {
                if j < before.len() {
                    assert(self.sound_sample_paths@[j] == before[j]);
                }
            }
        }
        let old_path = self.sound_sample_paths[index].clone();
        proof {
            if index < orig.len() {
                assert(old_path == orig[index as int]);
            }
            assert(old_path@ =~= slot_path(orig, index as int));
            assert(self.index_map() == old(self).index_map());
        }
        if !old_path.as_str().is_empty() {
            self.remove_path(&old_path);
        }
        let ghost mid_map = self.sample_map@;
        let ghost mid = self.index_map();
        self.sound_sample_paths.set(index, path.clone());
        self.sample_map.push((path, index));
        proof {
            assert(self.sample_map@.drop_last() =~= mid_map);
            assert(self.index_map() == mid.insert(path@, index));
            if index < orig.len() {
                assert(old_path == orig[index as int]);
            } else {
                assert(old_path@.len() == 0);
                if old(self).wf() && old(self).index_map().contains_key(old_path@) {
                    assert(old(self).index_map()[old_path@] < orig.len());
                }
            }
            if old(self).wf() {
                assert forall|q: Seq<char>| #[trigger] self.index_map().contains_key(q) implies self.index_map()[q]
                    < self.paths().len() && (q.len() == 0 || self.paths()[self.index_map()[q] as int]@ == q) by {
                    if q != path@ {
                        let k = old(self).index_map()[q];
                        assert(old(self).index_map().contains_key(q));
                        assert(k < orig.len());
                        if k == index && q.len() > 0 {
                            assert(orig[index as int]@ == q);
                        }
                    }
                }
            }
        }
    }

    /// Registers a sample file and schedules it at `time`, its volume capped
    /// at 100. Returns the sample's index.
    pub fn add_sample_event(&mut self, time: i32, volume: u8, path: String) -> (r: usize)
        ensures
            old(self).index_map().contains_key(path@) ==> r == old(self).index_map()[path@]
                && final(self).paths() == old(self).paths()
                && final(self).index_map() == old(self).index_map(),
            !old(self).index_map().contains_key(path@) ==> r == old(self).paths().len()
                && final(self).paths() == old(self).paths().push(path)
                && final(self).index_map() == old(self).index_map().insert(path@, r),
            final(self).effects() == old(self).effects().push(
                SoundEffect { time, volume: if volume > 100 { 100 } else { volume }, sample: r },
            ),
            final(self).tracks() == old(self).tracks(),
            old(self).wf() ==> final(self).wf(),
    {
        let index = self.add_sound_sample(path);
        let capped: u8 = if volume > 100 { 100 } else { volume };
        self.add_sound_effect(SoundEffect::new(time, capped, index));
        index
    }

    pub fn add_sound_effect(&mut self, sound_effect: SoundEffect)
        ensures
            final(self).effects() == old(self).effects().push(sound_effect),
            final(self).paths() == old(self).paths(),
            final(self).index_map() == old(self).index_map(),
            final(self).tracks() == old(self).tracks(),
            old(self).wf() ==> final(self).wf(),
    {
        self.sound_effects.push(sound_effect);
    }

    /// The path at `index`, unless the index is free or out of range.
    pub fn get_sound_sample(&self, index: usize) -> (r: Option<String>)
        ensures
            r == (if index < self.paths().len() && self.paths()[index as int]@.len() > 0 {
                Some(self.paths()[index as int])
            } else {
                None
            }),
    {
        if index < self.sound_sample_paths.len() && !self.sound_sample_paths[index].as_str().is_empty() {
            Some(self.sound_sample_paths[index].clone())
        } else {
            None
        }
    }

    pub fn get_index_sample(&self, sample_path: &String) -> (r: Option<usize>)
        ensures
            r == (if self.index_map().contains_key(sample_path@) {
                Some(self.index_map()[sample_path@])
            } else {
                None
            }),
    {
        self.lookup(sample_path)
    }

    pub fn get_sample_paths(&self) -> (r: Vec<String>)
        ensures
            r@ == self.paths(),
    {
        let mut out: Vec<String> = Vec::with_capacity(self.sound_sample_paths.len());
        let mut i: usize = 0;
        while i < self.sound_sample_paths.len()
            invariant
                i <= self.sound_sample_paths.len(),
                out@ == self.sound_sample_paths@.subrange(0, i as int),
            decreases self.sound_sample_paths.len() - i,
        {
            out.push(self.sound_sample_paths[i].clone());
            i += 1;
            assert(out@ =~= self.sound_sample_paths@.subrange(0, i as int));
        }
        assert(self.sound_sample_paths@.subrange(0, i as int) =~= self.sound_sample_paths@);
        out
    }

    pub fn contains_path(&self, path: &String) -> (r: bool)
        ensures
            r == self.index_map().contains_key(path@),
    {
        self.lookup(path).is_some()
    }

    /// Number of occupied sample indices.
    pub fn sample_count(&self) -> (r: usize)
        ensures
            r == count_nonempty(self.paths()),
    {
        let mut n: usize = 0;
        let mut i: usize = 0;
        while i < self.sound_sample_paths.len()
            invariant
                i <= self.sound_sample_paths.len(),
                n == count_nonempty(self.sound_sample_paths@.subrange(0, i as int)),
                n <= i,
            decreases self.sound_sample_paths.len() - i,
        {
            proof {
                assert(self.sound_sample_paths@.subrange(0, i + 1).drop_last()
                    =~= self.sound_sample_paths@.subrange(0, i as int));
            }
            if !self.sound_sample_paths[i].as_str().is_empty() {
                n += 1;
            }
            i += 1;
        }
        assert(self.sound_sample_paths@.subrange(0, i as int) =~= self.sound_sample_paths@);
        n
    }

    /// Whether no sample path is known.
    pub fn is_empty(&self) -> (r: bool)
        ensures
            r == (self.index_map().dom() == Set::<Seq<char>>::empty()),
    {
        proof {
            lemma_entries_map_finite(self.sample_map@);
            if self.sample_map@.len() > 0 {
                assert(self.index_map().contains_key(self.sample_map@.last().0@));
            } else {
                assert(self.index_map() =~= Map::<Seq<char>, usize>::empty());
            }
        }
        self.sample_map.len() == 0
    }
}

proof fn lemma_entries_map_finite(entries: Seq<(String, usize)>)
    ensures
        entries_map(entries).dom().finite(),
    decreases entries.len(),
{
    if entries.len() > 0 {
        lemma_entries_map_finite(entries.drop_last());
    }
}

} // verus!
