//! Shared vocabulary: lane states, tempo change kinds and unit constants.
use vstd::prelude::*;

verus! {

/// Ticks in one quarter-note beat.
pub const TICKS_PER_BEAT: i64 = 960;

/// Ticks in one 4-beat measure.
pub const TICKS_PER_MEASURE: i64 = 3840;

/// Milliseconds times thousandths of a BPM per tick:
/// `ticks = ms * milli_bpm / MS_MILLI_BPM_PER_TICK`.
pub const MS_MILLI_BPM_PER_TICK: i64 = 62500;

/// Largest tempo accepted, in thousandths of a BPM (100 000 BPM).
pub const MAX_MILLI_BPM: i64 = 100_000_000;

/// Largest number of tempo changes a converter accepts.
pub const MAX_SEGMENTS: usize = 1048576;

/// Largest absolute beat position accepted, in ticks.
pub const MAX_TICKS: i64 = 1099511627776;

/// Kind of a tempo change.
#[derive(Debug, Clone, Copy, PartialEq, Eq, Structural)]
pub enum TimingChangeType {
    /// A new tempo, in thousandths of a BPM.
    Bpm,
    /// A scroll-velocity multiplier, in thousandths.
    Sv,
    /// A pause, in milliseconds.
    Stop,
}

/// Game modes a chart may target.
#[derive(Debug, Clone, Copy, PartialEq, Eq, Structural)]
pub enum GameMode {
    Mania,
    Taiko,
    Catch,
}

impl GameMode {
    /// The mode's lower-case name.
    pub fn name(&self) -> (r: &'static str)
        ensures
            r@ == game_mode_name(*self)@,
    {
        match self {
            GameMode::Mania => "mania",
            GameMode::Taiko => "taiko",
            GameMode::Catch => "catch",
        }
    }
}

pub open spec fn game_mode_name(m: GameMode) -> &'static str {
    match m {
        GameMode::Mania => "mania",
        GameMode::Taiko => "taiko",
        GameMode::Catch => "catch",
    }
}

/// State of one lane in one row.
#[derive(Debug, Clone, Copy, PartialEq, Eq, Structural)]
pub enum KeyType {
    Empty,
    Normal,
    SliderStart,
    SliderEnd,
    Mine,
    Fake,
    Unknown,
}

/// One lane's cell: its state, and for a slider start the time its slider ends.
#[derive(Debug, Clone, Copy, PartialEq, Eq, Structural)]
pub struct Key {
    pub key_type: KeyType,
    pub slider_end_time: Option<i32>,
}

impl Key {
    pub fn empty() -> (r: Self)
        ensures
            r == (Key { key_type: KeyType::Empty, slider_end_time: None }),
    {
        Key { key_type: KeyType::Empty, slider_end_time: None }
    }

    pub fn normal() -> (r: Self)
        ensures
            r == (Key { key_type: KeyType::Normal, slider_end_time: None }),
    {
        Key { key_type: KeyType::Normal, slider_end_time: None }
    }

    pub fn slider_start(value: Option<i32>) -> (r: Self)
        ensures
            r == (Key { key_type: KeyType::SliderStart, slider_end_time: value }),
    {
        Key { key_type: KeyType::SliderStart, slider_end_time: value }
    }

    pub fn slider_end() -> (r: Self)
        ensures
            r == (Key { key_type: KeyType::SliderEnd, slider_end_time: None }),
    {
        Key { key_type: KeyType::SliderEnd, slider_end_time: None }
    }

    pub fn mine() -> (r: Self)
        ensures
            r == (Key { key_type: KeyType::Mine, slider_end_time: None }),
    {
        Key { key_type: KeyType::Mine, slider_end_time: None }
    }

    pub fn fake() -> (r: Self)
        ensures
            r == (Key { key_type: KeyType::Fake, slider_end_time: None }),
    {
        Key { key_type: KeyType::Fake, slider_end_time: None }
    }

    pub fn unknown() -> (r: Self)
        ensures
            r == (Key { key_type: KeyType::Unknown, slider_end_time: None }),
    {
        Key { key_type: KeyType::Unknown, slider_end_time: None }
    }

    pub fn slider_end_time(&self) -> (r: Option<i32>)
        ensures
            r == self.slider_end_time,
    {
        self.slider_end_time
    }
}

/// A row holds at least one cell that is not empty.
pub open spec fn row_has_content(row: Seq<Key>) -> bool {
    exists|i: int| 0 <= i < row.len() && row[i].key_type != KeyType::Empty
}

/// The empty cell.
pub open spec fn empty_key() -> Key {
    Key { key_type: KeyType::Empty, slider_end_time: None }
}

/// A row of `n` empty cells.
pub fn empty_row(n: usize) -> (r: Vec<Key>)
    ensures
        r@ == Seq::new(n as nat, |i: int| empty_key()),
{
    let mut r: Vec<Key> = Vec::with_capacity(n);
    let mut i: usize = 0;
    while i < n
        invariant
            i <= n,
            r@ == Seq::new(i as nat, |j: int| empty_key()),
        decreases n - i,
    {
        r.push(Key::empty());
        i += 1;
        assert(r@ =~= Seq::new(i as nat, |j: int| empty_key()));
    }
    r
}

/// Whether any cell of the row is not empty.
pub fn has_content(row: &Vec<Key>) -> (r: bool)
    ensures
        r == row_has_content(row@),
{
    let mut i: usize = 0;
    while i < row.len()
        invariant
            i <= row.len(),
            forall|j: int| 0 <= j < i ==> row@[j].key_type == KeyType::Empty,
        decreases row.len() - i,
    {
        if row[i].key_type != KeyType::Empty {
            return true;
        }
        i += 1;
    }
    false
}

} // verus!
