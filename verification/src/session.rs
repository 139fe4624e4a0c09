//! What the player decides as it starts and as its loop turns: which part of
//! the saved queue survives a rescan, where playback resumes, and when a
//! pending rescan or a redraw is due. The waiting, playing and drawing are
//! the program's; it hands the outcomes here and acts on the answers.

use vstd::prelude::*;

use crate::text::string_views;

verus! {

/// The saved queue as it stands once the library is loaded again.
pub struct RestoredSession {
    /// The saved queue, without the tracks the library no longer has.
    pub queue: Vec<String>,
    /// The saved position, where it still points into the queue.
    pub queue_index: Option<usize>,
    /// Whether the queue lost tracks, and so must be saved again.
    pub queue_dirty: bool,
}

/// Whether an id is among `known`.
pub open spec fn known_in(known: Seq<Seq<char>>) -> spec_fn(Seq<char>) -> bool {
    |id: Seq<char>| known.contains(id)
}

/// The saved position, where it still points into a queue of `len` tracks.
pub open spec fn kept_index(current_index: Option<usize>, len: nat) -> Option<usize> {
    match current_index {
        Some(i) => if i < len { Some(i) } else { None },
        None => None,
    }
}

/// Where playback of the restored track starts: nowhere if it cannot be
/// played; with resume on, where its statistics say it was left if that is
/// past the start, else the saved session's position; with resume off, at
/// the start.
pub open spec fn resume_at(
    current_available: bool,
    resume_enabled: bool,
    stats_resume_ms: Option<u64>,
    saved_position_ms: u64,
) -> Option<u64> {
    if !current_available {
        None
    } else if resume_enabled {
        Some(
            match stats_resume_ms {
                Some(p) => if p > 0 { p } else { saved_position_ms },
                None => saved_position_ms,
            },
        )
    } else {
        Some(0)
    }
}

fn is_known(known: &[String], id: &String) -> (b: bool)
    ensures
        b == string_views(known@).contains(id@),
{
    let mut i: usize = 0;
    while i < known.len()
        invariant
            i <= known@.len(),
            forall|j: int| 0 <= j < i ==> string_views(known@)[j] != id@,
        decreases known.len() - i,
    {
        if known[i] == *id {
            assert(string_views(known@)[i as int] == id@);
            return true;
        }
        i = i + 1;
    }
    false
}

/// The saved queue restored against the library as loaded now: tracks it no
/// longer knows leave the queue, a position past the end is dropped, and a
/// queue that lost tracks is marked to be saved again.
pub fn restore_session(queue: Vec<String>, current_index: Option<usize>, known: &[String]) -> (r: RestoredSession)
    ensures
        string_views(r.queue@) == string_views(queue@).filter(known_in(string_views(known@))),
        r.queue_dirty == (r.queue@.len() != queue@.len()),
        r.queue_index == kept_index(current_index, r.queue@.len()),
{
    let ghost ids = string_views(queue@);
    let ghost keep = known_in(string_views(known@));
    let mut kept: Vec<String> = Vec::new();
    let mut i: usize = 0;
    assert(ids.take(0).filter(keep) =~= Seq::<Seq<char>>::empty());
    assert(string_views(kept@) =~= Seq::<Seq<char>>::empty());
    while i < queue.len()
        invariant
            i <= queue@.len(),
            ids == string_views(queue@),
            keep == known_in(string_views(known@)),
            string_views(kept@) == ids.take(i as int).filter(keep),
            kept@.len() <= i,
            ids.take(i as int).filter(keep).len() <= i,
        decreases queue.len() - i,
    {
        assert(ids.take(i + 1).drop_last() =~= ids.take(i as int));
        assert(ids.take(i + 1).last() == queue@[i as int]@);
        proof {
            reveal_with_fuel(Seq::filter, 1);
        }
        if is_known(known, &queue[i]) {
            let ghost before = kept@;
            kept.push(queue[i].clone());
            assert(string_views(kept@) =~= string_views(before).push(queue@[i as int]@));
        }
        i = i + 1;
    }
    assert(ids.take(queue@.len() as int) =~= ids);
    let len = kept.len();
    let queue_dirty = len != queue.len();
    let queue_index = match current_index {
        Some(i) => if i < len { Some(i) } else { None },
        None => None,
    };
    RestoredSession { queue: kept, queue_index, queue_dirty }
}

/// Restoring a session a second time changes nothing more: a restored
/// queue holds only tracks the library knows, keeps its position, and is not
/// marked to be saved again.
pub proof fn lemma_restore_is_settled(queue: Seq<Seq<char>>, known: Seq<Seq<char>>, current_index: Option<usize>)
    ensures
        queue.filter(known_in(known)).filter(known_in(known)) == queue.filter(known_in(known)),
        kept_index(kept_index(current_index, queue.filter(known_in(known)).len()), queue.filter(known_in(known)).len())
            == kept_index(current_index, queue.filter(known_in(known)).len()),
    decreases queue.len(),
{
    reveal_with_fuel(Seq::filter, 1);
    let keep = known_in(known);
    if queue.len() > 0 {
        lemma_restore_is_settled(queue.drop_last(), known, current_index);
        let rest = queue.drop_last().filter(keep);
        if keep(queue.last()) {
            assert(rest.push(queue.last()).drop_last() =~= rest);
        }
    }
}

/// Where playback of the restored track starts, or `None` where the track
/// cannot be played and nothing is loaded.
pub fn resume_position(
    current_available: bool,
    resume_enabled: bool,
    stats_resume_ms: Option<u64>,
    saved_position_ms: u64,
) -> (r: Option<u64>)
    ensures
        r == resume_at(current_available, resume_enabled, stats_resume_ms, saved_position_ms),
{
    if !current_available {
        None
    } else if resume_enabled {
        match stats_resume_ms {
            Some(p) => if p > 0 { Some(p) } else { Some(saved_position_ms) },
            None => Some(saved_position_ms),
        }
    } else {
        Some(0)
    }
}

/// What the status line first says: a problem with the key bindings, else
/// a warning from the audio output, else one from the media controls; with
/// none of them, `None`, and the line tells that the library is loading.
pub fn startup_notice(
    binding_problem: Option<String>,
    backend_warning: Option<String>,
    media_warning: Option<String>,
) -> (r: Option<String>)
    ensures
        r == (if binding_problem is Some {
            binding_problem
        } else if backend_warning is Some {
            backend_warning
        } else {
            media_warning
        }),
{
    match binding_problem {
        Some(problem) => Some(problem),
        None => match backend_warning {
            Some(warning) => Some(warning),
            None => media_warning,
        },
    }
}

/// Whether the player starts compact: when asked to on the command line or
/// by the configuration.
pub fn starts_compact(requested: bool, configured: bool) -> (b: bool)
    ensures
        b == (requested || configured),
{
    requested || configured
}

/// How long, in milliseconds, a pending rescan waits after the last one.
pub const SCAN_DEBOUNCE_MS: u64 = 2000;

/// Whether the changes seen on disk are due to be scanned: there are some,
/// no scan is running, and the last one started more than
/// `SCAN_DEBOUNCE_MS` ago.
pub fn scan_due(pending: bool, running: bool, since_last_ms: u64) -> (b: bool)
    ensures
        b == (pending && !running && since_last_ms > SCAN_DEBOUNCE_MS),
{
    pending && !running && since_last_ms > SCAN_DEBOUNCE_MS
}

/// How long, in milliseconds, the loop waits for an event before it looks
/// after the playback position and the rest: a quarter second while
/// playing, a second otherwise.
pub fn maintenance_delay_ms(playing: bool) -> (ms: u64)
    ensures
        ms == (if playing { 250u64 } else { 1000u64 }),
{
    if playing {
        250
    } else {
        1000
    }
}

/// Whether the screen is redrawn for the moving position alone: while
/// playing, at most four times a second.
pub fn periodic_draw_due(playing: bool, since_draw_ms: u64) -> (b: bool)
    ensures
        b == (playing && since_draw_ms >= 250),
{
    playing && since_draw_ms >= 250
}

} // verus!
