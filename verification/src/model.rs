//! The library's records: tracks and what is built from them.
//!
//! Paths are kept as text (see `pathname`).

use vstd::prelude::*;

use crate::numbers::{parse_bounded, parse_u64};
use crate::text::{
    chars_of, find_char_from, index_from, normalize_chars, normalize_ws, slice_of, string_of, trim,
    trim_chars,
};

verus! {

#[derive(Debug, Clone, PartialEq)]
pub struct Track {
    pub id: String,
    pub source_id: String,
    pub relative_path: String,
    pub path: String,
    pub title: String,
    pub artist: String,
    pub album_artist: String,
    pub album: String,
    pub genre: String,
    pub year: Option<i32>,
    pub disc_number: u32,
    pub track_number: u32,
    pub duration_ms: u64,
    pub cover_path: Option<String>,
    pub available: bool,
    pub favorite: bool,
}

/// `Unknown Artist`, shown for a track without one.
pub open spec fn unknown_artist() -> Seq<char> {
    seq!['U', 'n', 'k', 'n', 'o', 'w', 'n', ' ', 'A', 'r', 't', 'i', 's', 't']
}

/// The text "Unknown Artist".
pub fn unknown_artist_text() -> (s: &'static str)
    ensures
        s@ == unknown_artist(),
{
    let s = "Unknown Artist";
    proof {
        reveal_strlit("Unknown Artist");
    }
    s
}

impl Track {
    pub fn display_artist(&self) -> (s: &str)
        ensures
            s@ == if self.artist@.len() == 0 {
                unknown_artist()
            } else {
                self.artist@
            },
    {
        if self.artist.as_str().is_empty() {
            unknown_artist_text()
        } else {
            self.artist.as_str()
        }
    }
}

#[derive(Debug, Clone, PartialEq, Eq)]
pub struct Album {
    pub key: String,
    pub title: String,
    pub artist: String,
    pub year: Option<i32>,
    pub cover_path: Option<String>,
    pub track_ids: Vec<String>,
    pub available_tracks: usize,
}

#[derive(Debug, Clone, PartialEq, Eq)]
pub struct Artist {
    pub name: String,
    pub track_ids: Vec<String>,
    pub album_count: usize,
}

#[derive(Debug, Clone, PartialEq, Eq)]
pub struct Playlist {
    pub id: i64,
    pub name: String,
    pub track_ids: Vec<String>,
}

#[derive(Debug, Clone, PartialEq, Eq)]
pub struct TrackStats {
    pub track_id: String,
    pub play_count: u64,
    pub total_listen_ms: u64,
    pub last_played_at: Option<i64>,
    pub resume_position_ms: u64,
}

#[derive(Debug, Clone, PartialEq, Eq)]
pub struct HistoryEntry {
    pub id: i64,
    pub track_id: String,
    pub started_at: i64,
    pub listened_ms: u64,
    pub position_ms: u64,
    pub counted: bool,
    pub completed: bool,
}

#[derive(Debug, Clone, Copy, PartialEq, Eq)]
pub enum SmartMatch {
    All,
    Any,
}

/// The value a smart-playlist rule compares against, as it was stored: the
/// parts of a JSON value that rules read.
#[derive(Debug, Clone, PartialEq)]
pub enum RuleValue {
    Text(String),
    Integer(i64),
    Boolean(bool),
    /// Anything else: null, a fraction, an integer outside `i64`, a list or
    /// an object. No rule reads anything from it.
    Other,
}

impl RuleValue {
    /// `Value::as_str`.
    pub fn as_str(&self) -> (r: Option<&str>)
        ensures
            match self {
                RuleValue::Text(s) => r matches Some(t) && t@ == s@,
                _ => r is None,
            },
    {
        match self {
            RuleValue::Text(s) => Some(s.as_str()),
            _ => None,
        }
    }

    /// `Value::as_i64`.
    pub fn as_i64(&self) -> (r: Option<i64>)
        ensures
            match self {
                RuleValue::Integer(v) => r == Some(*v),
                _ => r is None,
            },
    {
        match self {
            RuleValue::Integer(v) => Some(*v),
            _ => None,
        }
    }

    /// `Value::as_bool`.
    pub fn as_bool(&self) -> (r: Option<bool>)
        ensures
            match self {
                RuleValue::Boolean(v) => r == Some(*v),
                _ => r is None,
            },
    {
        match self {
            RuleValue::Boolean(v) => Some(*v),
            _ => None,
        }
    }
}

#[derive(Debug, Clone, PartialEq)]
pub struct SmartRule {
    pub field: String,
    pub operator: String,
    pub value: RuleValue,
}

#[derive(Debug, Clone, PartialEq)]
pub struct SmartPlaylist {
    pub id: i64,
    /// Name as stored. For a seeded preset this is the original English text;
    /// what the interface shows comes from `preset_key`.
    pub name: String,
    /// Translation key, for the playlists muscli seeds itself. `None` means a
    /// playlist the user made, whose name is theirs and is never translated.
    pub preset_key: Option<String>,
    pub match_mode: SmartMatch,
    pub rules: Vec<SmartRule>,
    pub sort_field: String,
    pub descending: bool,
    pub limit: Option<usize>,
}

impl SmartPlaylist {
    /// What to show. A playlist muscli seeded follows the interface language;
    /// one the user made keeps the name they gave it.
    pub fn display_name(&self, translator: &crate::i18n::Translator) -> (name: String)
        ensures
            name@ == match self.preset_key {
                Some(key) => crate::i18n::translation(
                    translator.english(),
                    translator.spanish(),
                    translator.active(),
                    key@,
                ),
                None => self.name@,
            },
    {
        match &self.preset_key {
            Some(key) => crate::i18n::lookup(translator, key.as_str()),
            None => self.name.clone(),
        }
    }
}

#[derive(Debug, Clone, PartialEq, Eq)]
pub struct SavedQueue {
    pub id: i64,
    pub name: String,
    pub track_ids: Vec<String>,
}

#[derive(Debug, Clone, Copy, PartialEq, Eq, Structural)]
pub enum RepeatMode {
    Off,
    Track,
    Queue,
}

impl RepeatMode {
    pub open spec fn successor(self) -> RepeatMode {
        match self {
            RepeatMode::Off => RepeatMode::Track,
            RepeatMode::Track => RepeatMode::Queue,
            RepeatMode::Queue => RepeatMode::Off,
        }
    }

    pub fn next(self) -> (r: Self)
        ensures
            r == self.successor(),
    {
        match self {
            RepeatMode::Off => RepeatMode::Track,
            RepeatMode::Track => RepeatMode::Queue,
            RepeatMode::Queue => RepeatMode::Off,
        }
    }
}

/// Pressing the repeat key three times comes back to where it started, and
/// every mode is reached on the way.
pub proof fn lemma_repeat_cycles(mode: RepeatMode)
    ensures
        mode.successor().successor().successor() == mode,
        mode.successor() != mode,
        mode.successor().successor() != mode,
{
}

impl Default for RepeatMode {
    fn default() -> (r: Self)
        ensures
            r == RepeatMode::Off,
    {
        RepeatMode::Off
    }
}

#[derive(Debug, Clone, Copy, PartialEq, Eq, Structural)]
pub enum PlaybackStatus {
    Stopped,
    Paused,
    Playing,
}

/// The number before any `/` in a tag such as `3/12`, or 0 where there is
/// none to read.
pub open spec fn slash_number(value: Option<Seq<char>>) -> nat {
    match value {
        None => 0,
        Some(v) => {
            let first = match index_from(v, '/', 0) {
                Some(k) => v.take(k),
                None => v,
            };
            match parse_bounded(trim(first), u32::MAX as nat) {
                Some(n) => n,
                None => 0,
            }
        },
    }
}

/// A tag that starts with a run of ASCII digits, alone or followed by a
/// `/` and anything, reads as the value of those digits, where it fits in a
/// `u32`: `5` is 5 and `5/12` is 5.
pub proof fn lemma_slash_number_reads_the_leading_digits(digits: Seq<char>, rest: Seq<char>)
    requires
        digits.len() > 0,
        crate::numbers::all_digits(digits),
        crate::numbers::digits_value(digits) <= u32::MAX,
        rest.len() == 0 || rest[0] == '/',
    ensures
        slash_number(Some(digits + rest)) == crate::numbers::digits_value(digits),
{
    let v = digits + rest;
    assert(forall|i: int| 0 <= i < digits.len() ==> v[i] == digits[i]);
    assert(forall|i: int| 0 <= i < digits.len() ==> crate::text::is_digit(#[trigger] digits[i]));
    if rest.len() == 0 {
        assert(v =~= digits);
        assert(!(exists|i: int| 0 <= i < v.len() && v[i] == '/'));
        assert(index_from(v, '/', 0) is None);
    } else {
        assert(v[digits.len() as int] == '/');
        let k = choose|i: int| 0 <= i < v.len() && v[i] == '/' && forall|j: int| 0 <= j < i ==> v[j] != '/';
        assert(k == digits.len()) by {
            if k < digits.len() {
                assert(crate::text::is_digit(digits[k]));
            }
        }
        assert(index_from(v, '/', 0) == Some(digits.len() as int));
        assert(v.take(digits.len() as int) =~= digits);
    }
    assert(!crate::text::is_ws(digits[0]));
    assert(!crate::text::is_ws(digits.last()));
    assert(crate::text::trim_start(digits) == digits);
    assert(crate::text::trim_end(digits) == digits);
    assert(trim(digits) == digits);
    assert(crate::numbers::unsigned_body(digits) == digits);
}

pub fn parse_slash_number(value: Option<&str>) -> (n: u32)
    ensures
        n == slash_number(match value {
            Some(v) => Some(v@),
            None => None,
        }),
{
    let v = match value {
        Some(v) => chars_of(v),
        None => return 0,
    };
    let first = match find_char_from(&v, '/', 0) {
        Some(k) => slice_of(&v, 0, k),
        None => slice_of(&v, 0, v.len()),
    };
    assert(first@ == match index_from(v@, '/', 0) {
        Some(k) => v@.take(k),
        None => v@,
    }) by {
        if let Some(k) = index_from(v@, '/', 0) {
            assert(first@ =~= v@.take(k));
        } else {
            assert(first@ =~= v@);
        }
    }
    match parse_u64(&trim_chars(&first)) {
        Some(n) => if n <= u32::MAX as u64 {
            n as u32
        } else {
            0
        },
        None => 0,
    }
}

/// White space runs collapsed to single spaces, none at the ends.
pub fn normalize_text(value: &str) -> (out: String)
    ensures
        out@ == normalize_ws(value@),
{
    let v = chars_of(value);
    let n = normalize_chars(&v);
    string_of(&n)
}

} // verus!
