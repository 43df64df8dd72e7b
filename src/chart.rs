//! The format-neutral chart: metadata, chart information, timing, notes.
use vstd::prelude::*;
use vstd::string::StringExecFns;
use crate::hitobjects::{HitObjects, notes_in};
use crate::sound::SoundBank;
use crate::timing_points::TimingPoints;

verus! {

/// Descriptive text of a chart.
#[derive(Debug, Clone)]
pub struct Metadata {
    pub title: String,
    pub alt_title: String,
    pub artist: String,
    pub alt_artist: String,
    pub creator: String,
    pub genre: String,
    pub tags: Vec<String>,
    pub source: String,
}

impl Metadata {
    pub fn new(
        title: String,
        alt_title: String,
        artist: String,
        alt_artist: String,
        creator: String,
        genre: String,
        source: String,
        tags: Vec<String>,
    ) -> (r: Self)
        ensures
            r == (Metadata { title, alt_title, artist, alt_artist, creator, genre, tags, source }),
    {
        Metadata { title, alt_title, artist, alt_artist, creator, genre, tags, source }
    }

    /// Metadata with the default text for each field and no tags.
    pub fn empty() -> (r: Self)
        ensures
            r.title@ == "Unknown Title"@,
            r.alt_title@ == "Unknown Title"@,
            r.artist@ == "Unknown Artist"@,
            r.alt_artist@ == "Unknown Artist"@,
            r.creator@ == "Unknown Creator"@,
            r.genre@ == "Unknown Genre"@,
            r.source@ == "Unknown Source"@,
            r.tags@.len() == 0,
    {
        Metadata {
            title: String::from_str("Unknown Title"),
            alt_title: String::from_str("Unknown Title"),
            artist: String::from_str("Unknown Artist"),
            alt_artist: String::from_str("Unknown Artist"),
            creator: String::from_str("Unknown Creator"),
            genre: String::from_str("Unknown Genre"),
            tags: Vec::new(),
            source: String::from_str("Unknown Source"),
        }
    }
}

/// Playable-difficulty information: names, paths, offsets (ms), lane count,
/// and the number of stored rows and of notes in them.
#[derive(Debug, Clone)]
pub struct ChartInfo {
    pub difficulty_name: String,
    pub bg_path: String,
    pub song_path: String,
    pub audio_offset: i32,
    pub preview_time: i32,
    pub key_count: u8,
    pub row_count: usize,
    pub object_count: usize,
}

/// Two chart informations agree on everything but the row and note counts.
pub open spec fn same_info(a: ChartInfo, b: ChartInfo) -> bool {
    &&& a.difficulty_name == b.difficulty_name
    &&& a.bg_path == b.bg_path
    &&& a.song_path == b.song_path
    &&& a.audio_offset == b.audio_offset
    &&& a.preview_time == b.preview_time
    &&& a.key_count == b.key_count
}

/// The counts of `info` are those of the rows `h`.
pub open spec fn counts_match(info: ChartInfo, h: HitObjects) -> bool {
    &&& info.row_count == h.rows.len()
    &&& info.object_count == notes_in(h.rows@)
}

impl ChartInfo {
    pub fn new(
        difficulty_name: String,
        bg_path: String,
        song_path: String,
        audio_offset: i32,
        preview_time: i32,
        key_count: u8,
    ) -> (r: Self)
        ensures
            r == (ChartInfo {
                difficulty_name,
                bg_path,
                song_path,
                audio_offset,
                preview_time,
                key_count,
                row_count: 0,
                object_count: 0,
            }),
    {
        ChartInfo {
            difficulty_name,
            bg_path,
            song_path,
            audio_offset,
            preview_time,
            key_count,
            row_count: 0,
            object_count: 0,
        }
    }

    /// Empty names and paths, zero offsets, four lanes.
    pub fn empty() -> (r: Self)
        ensures
            r.difficulty_name@.len() == 0,
            r.bg_path@.len() == 0,
            r.song_path@.len() == 0,
            r.audio_offset == 0,
            r.preview_time == 0,
            r.key_count == 4,
            r.row_count == 0,
            r.object_count == 0,
    {
        ChartInfo {
            difficulty_name: String::new(),
            bg_path: String::new(),
            song_path: String::new(),
            audio_offset: 0,
            preview_time: 0,
            key_count: 4,
            row_count: 0,
            object_count: 0,
        }
    }
}

/// One playable difficulty of a song.
#[derive(Debug, Clone)]
pub struct Chart {
    pub metadata: Metadata,
    pub chartinfo: ChartInfo,
    pub timing_points: TimingPoints,
    pub hitobjects: HitObjects,
    pub soundbank: Option<SoundBank>,
}

impl Chart {
    /// Every stored row is as wide as the chart has lanes, and the row grid
    /// and timing lists are well formed.
    pub open spec fn wf(&self) -> bool {
        &&& self.hitobjects.wf()
        &&& self.timing_points.wf()
        &&& forall|i: int|
            0 <= i < self.hitobjects.rows.len() ==> #[trigger] self.hitobjects.rows@[i]@.len()
                == self.chartinfo.key_count
    }

    pub fn new(
        metadata: Metadata,
        chartinfo: ChartInfo,
        timing_points: TimingPoints,
        hitobjects: HitObjects,
        soundbank: Option<SoundBank>,
    ) -> (r: Self)
        ensures
            r == (Chart { metadata, chartinfo, timing_points, hitobjects, soundbank }),
    {
        Chart { metadata, chartinfo, timing_points, hitobjects, soundbank }
    }
}

} // verus!
