//! The command line, as the program's argument parser fills it in, and the
//! decisions the commands make before they do anything.

use vstd::prelude::*;

use crate::control::RemoteCommand as Request;
use crate::text::{chars_of, string_of};

verus! {

/// What `muscli` was asked to do.
#[derive(Debug, Clone)]
pub struct Cli {
    /// Start with the compact player layout.
    pub compact: bool,
    /// Interface language: auto, en or es.
    pub lang: Option<String>,
    pub command: Option<Command>,
}

#[derive(Debug, Clone)]
pub enum Command {
    /// Manage indexed music folders.
    Library { command: LibraryCommand },
    /// Show what you have been listening to.
    Summary { days: Option<i64> },
    /// Check runtime and desktop integration.
    Doctor,
    /// Configure desktop integration.
    Setup { command: SetupCommand },
    /// List the key bindings in effect.
    Keys,
    /// Import and export M3U playlists.
    Playlist { command: PlaylistCommand },
    /// Manage lyrics, which are never imported automatically.
    Lyrics { command: LyricsCommand },
    /// Control the running muscli instance.
    Remote { command: RemoteCommand },
}

#[derive(Debug, Clone)]
pub enum LibraryCommand {
    /// Save an additional music folder.
    Add { path: String },
    /// Remove a saved music folder.
    Remove { path: String },
    /// List configured and auto-discovered folders.
    List,
    /// Rebuild the incremental library index now.
    Rescan,
    /// Remove stale tracks and dangling covers while preserving unplugged
    /// volumes.
    Prune,
    /// Analyze loudness without modifying audio files.
    AnalyzeGain { force: bool },
    /// Write cached ReplayGain results into the audio files themselves.
    WriteGain { yes: bool },
}

#[derive(Debug, Clone, Copy, PartialEq, Eq, Structural)]
pub enum RemoteCommand {
    /// Change the volume of muscli only.
    Volume { command: VolumeCommand },
    /// Toggle mute for muscli only.
    MuteToggle,
}

#[derive(Debug, Clone, Copy, PartialEq, Eq, Structural)]
pub enum VolumeCommand {
    /// Raise the volume by one step.
    Up,
    /// Lower the volume by one step.
    Down,
    /// Set the volume to an exact percentage.
    SetPercent { percent: u8 },
}

#[derive(Debug, Clone)]
pub enum SetupCommand {
    /// Enable the built-in Omarchy MPRIS widget and desktop launcher.
    Omarchy { undo: bool },
    /// Configure local Discord/Vesktop Rich Presence.
    Discord { application_id: String, large_image: String },
}

#[derive(Debug, Clone)]
pub enum LyricsCommand {
    /// Copy an .lrc file into the lyrics directory.
    Import { path: String, track: Option<String>, artist: Option<String>, title: Option<String> },
    /// Show where lyrics are stored.
    Where,
}

#[derive(Debug, Clone)]
pub enum PlaylistCommand {
    /// Write a playlist to an .m3u8 file.
    Export { name: String, path: String },
    /// Read an .m3u/.m3u8 file into a playlist.
    Import { path: String, name: Option<String> },
}

/// The request a `remote` command sends. A volume above 100% asks for 100%.
pub open spec fn request_for(command: RemoteCommand) -> Request {
    match command {
        RemoteCommand::Volume { command } => match command {
            VolumeCommand::Up => Request::VolumeUp,
            VolumeCommand::Down => Request::VolumeDown,
            VolumeCommand::SetPercent { percent } => Request::VolumeSet(
                if percent > 100 {
                    100u8
                } else {
                    percent
                },
            ),
        },
        RemoteCommand::MuteToggle => Request::MuteToggle,
    }
}

/// The request a `remote` command sends.
pub fn remote_request(command: RemoteCommand) -> (r: Request)
    ensures
        r == request_for(command),
        crate::control::sendable(r),
{
    match command {
        RemoteCommand::Volume { command } => match command {
            VolumeCommand::Up => Request::VolumeUp,
            VolumeCommand::Down => Request::VolumeDown,
            VolumeCommand::SetPercent { percent } => Request::VolumeSet(
                if percent > 100 {
                    100
                } else {
                    percent
                },
            ),
        },
        RemoteCommand::MuteToggle => Request::MuteToggle,
    }
}

/// A `lyrics import` that says neither which track nor which artist and
/// title the lyrics belong to.
#[derive(Debug, Clone, Copy, PartialEq, Eq, Structural)]
pub struct UnnamedLyrics;

/// The file name imported lyrics are stored under: the track's id where one
/// is given, which ties them to one exact file; else a name from the artist
/// and title, which survives that file being moved.
pub fn lyrics_import_name(track: Option<&str>, artist: Option<&str>, title: Option<&str>) -> (r:
    Result<String, UnnamedLyrics>)
    ensures
        match r {
            Ok(name) => match track {
                Some(id) => name@ == id@ + ".lrc"@,
                None => artist matches Some(a) && title matches Some(t) && name@
                    == crate::lyrics::descriptive_name_spec(a@, t@),
            },
            Err(_) => track is None && (artist is None || title is None),
        },
{
    match track {
        Some(id) => {
            let mut file = chars_of(id);
            file.push('.');
            file.push('l');
            file.push('r');
            file.push('c');
            proof {
                reveal_strlit(".lrc");
            }
            assert(file@ =~= id@ + ".lrc"@);
            Ok(string_of(&file))
        },
        None => match (artist, title) {
            (Some(a), Some(t)) => Ok(crate::lyrics::descriptive_name(a, t)),
            _ => Err(UnnamedLyrics),
        },
    }
}

/// Whether a Discord application id is one: a non-empty run of ASCII
/// digits.
pub open spec fn valid_application_id(id: Seq<char>) -> bool {
    id.len() > 0 && forall|i: int| 0 <= i < id.len() ==> crate::text::is_digit(#[trigger] id[i])
}

/// Whether a Discord application id is one.
pub fn is_application_id(id: &str) -> (b: bool)
    ensures
        b == valid_application_id(id@),
{
    let chars = chars_of(id);
    if chars.len() == 0 {
        return false;
    }
    let mut i: usize = 0;
    while i < chars.len()
        invariant
            i <= chars@.len(),
            chars@ == id@,
            forall|j: int| 0 <= j < i ==> crate::text::is_digit(#[trigger] chars@[j]),
        decreases chars.len() - i,
    {
        if !('0' <= chars[i] && chars[i] <= '9') {
            assert(!crate::text::is_digit(chars@[i as int]));
            return false;
        }
        i = i + 1;
    }
    true
}

} // verus!
