//! What the interface decides without drawing: the views and their titles,
//! how a selection moves, which rows of a table are visible, how a length of
//! time is shown, and how a shuffled queue starts.

use rand::seq::SliceRandom;
use vstd::prelude::*;
use vstd::view::View as _;

use crate::i18n::{translation, Translator};
use crate::numbers::{decimal, decimal2, decimal2_chars, decimal_chars};
use crate::text::{chars_eq, chars_of, extend_chars, string_of, string_views};

verus! {

#[derive(Debug, Clone, Copy, PartialEq, Eq, Structural)]
pub enum View {
    Home,
    Albums,
    AlbumDetail,
    Artists,
    ArtistDetail,
    Genres,
    GenreDetail,
    Tracks,
    Playlists,
    SmartPlaylists,
    SmartPlaylistDetail,
    Favorites,
    History,
    Search,
    Queue,
    Settings,
    Help,
    Lyrics,
}

/// The translation key of a view's title.
pub open spec fn title_key(view: View) -> Seq<char> {
    match view {
        View::Home => "view.home"@,
        View::Albums => "view.albums"@,
        View::AlbumDetail => "view.album"@,
        View::Artists => "view.artists"@,
        View::ArtistDetail => "view.artist"@,
        View::Genres => "view.genres"@,
        View::GenreDetail => "view.genre"@,
        View::Tracks => "view.tracks"@,
        View::Playlists => "view.playlists"@,
        View::SmartPlaylists => "view.smart_playlists"@,
        View::SmartPlaylistDetail => "view.smart_playlist"@,
        View::Favorites => "view.favorites"@,
        View::History => "view.history"@,
        View::Search => "view.search"@,
        View::Queue => "view.queue"@,
        View::Settings => "view.settings"@,
        View::Help => "view.help"@,
        View::Lyrics => "view.lyrics"@,
    }
}

/// The icon of a view. A detail view shares its list's icon.
pub open spec fn icon_of(view: View) -> Seq<char> {
    match view {
        View::Home => "󰋜"@,
        View::Albums => "󰀥"@,
        View::AlbumDetail => "󰀥"@,
        View::Artists => "󰠃"@,
        View::ArtistDetail => "󰠃"@,
        View::Genres => "󰌳"@,
        View::GenreDetail => "󰌳"@,
        View::Tracks => "󰎆"@,
        View::Playlists => "󰲸"@,
        View::SmartPlaylists => "󰘬"@,
        View::SmartPlaylistDetail => "󰘬"@,
        View::Favorites => "󰋑"@,
        View::History => "󰋚"@,
        View::Search => "󰍉"@,
        View::Queue => "󰕲"@,
        View::Settings => "󰒓"@,
        View::Help => "󰋖"@,
        View::Lyrics => "󰲹"@,
    }
}

impl View {
    /// The view's title in the interface language.
    pub fn title(self, translator: &Translator) -> (t: String)
        ensures
            t@ == translation(translator.english(), translator.spanish(), translator.active(), title_key(self)),
    {
        let key = match self {
            View::Home => "view.home",
            View::Albums => "view.albums",
            View::AlbumDetail => "view.album",
            View::Artists => "view.artists",
            View::ArtistDetail => "view.artist",
            View::Genres => "view.genres",
            View::GenreDetail => "view.genre",
            View::Tracks => "view.tracks",
            View::Playlists => "view.playlists",
            View::SmartPlaylists => "view.smart_playlists",
            View::SmartPlaylistDetail => "view.smart_playlist",
            View::Favorites => "view.favorites",
            View::History => "view.history",
            View::Search => "view.search",
            View::Queue => "view.queue",
            View::Settings => "view.settings",
            View::Help => "view.help",
            View::Lyrics => "view.lyrics",
        };
        crate::i18n::lookup(translator, key)
    }

    /// The view's icon.
    pub fn icon(self) -> (s: &'static str)
        ensures
            s@ == icon_of(self),
    {
        match self {
            View::Home => "󰋜",
            View::Albums => "󰀥",
            View::AlbumDetail => "󰀥",
            View::Artists => "󰠃",
            View::ArtistDetail => "󰠃",
            View::Genres => "󰌳",
            View::GenreDetail => "󰌳",
            View::Tracks => "󰎆",
            View::Playlists => "󰲸",
            View::SmartPlaylists => "󰘬",
            View::SmartPlaylistDetail => "󰘬",
            View::Favorites => "󰋑",
            View::History => "󰋚",
            View::Search => "󰍉",
            View::Queue => "󰕲",
            View::Settings => "󰒓",
            View::Help => "󰋖",
            View::Lyrics => "󰲹",
        }
    }
}

/// `value` kept within `lo..=hi`.
pub open spec fn clamped(value: int, lo: int, hi: int) -> int {
    if value < lo {
        lo
    } else if value > hi {
        hi
    } else {
        value
    }
}

/// Where a selection lands when moved by `amount` in a list of `len`: as
/// far as the list allows, and 0 in an empty list.
pub open spec fn shifted(current: int, amount: int, len: int) -> int {
    if len == 0 {
        0
    } else {
        clamped(current + amount, 0, len - 1)
    }
}

/// Move a selection by `amount` within a list of `len` entries.
pub fn shifted_index(current: usize, amount: isize, len: usize) -> (i: usize)
    requires
        current <= isize::MAX,
        len - 1 <= isize::MAX,
        isize::MIN <= current + amount <= isize::MAX,
    ensures
        i == shifted(current as int, amount as int, len as int),
{
    if len == 0 {
        return 0;
    }
    let moved: isize = current as isize + amount;
    let last: isize = (len - 1) as isize;
    if moved < 0 {
        0
    } else if moved > last {
        last as usize
    } else {
        moved as usize
    }
}

/// A length of time as minutes and seconds, `m:ss`.
pub open spec fn duration_text(ms: nat) -> Seq<char> {
    let seconds = ms / 1000;
    decimal(seconds / 60) + seq![':'] + decimal2(seconds % 60)
}

/// A length of time in milliseconds as `m:ss`.
pub fn format_duration(ms: u64) -> (s: String)
    ensures
        s@ == duration_text(ms as nat),
{
    let seconds = ms / 1000;
    let mut out = decimal_chars(seconds / 60);
    out.push(':');
    let rest = decimal2_chars(seconds % 60);
    extend_chars(&mut out, &rest);
    string_of(&out)
}

/// The rows of a track table shown with `height` lines, one of which is the
/// header: from the top, or from where the selection is the last row shown.
pub open spec fn viewport(len: int, selected: int, height: int) -> (int, int) {
    let rows = if height > 0 {
        height - 1
    } else {
        0
    };
    if rows == 0 {
        (0, 0)
    } else {
        let start = if selected >= rows {
            selected + 1 - rows
        } else {
            0
        };
        let end = if start + rows < len {
            start + rows
        } else {
            len
        };
        (start, end)
    }
}

/// The rows of a track table that are visible.
pub fn track_viewport(len: usize, selected: usize, height: usize) -> (r: std::ops::Range<usize>)
    requires
        selected < usize::MAX,
    ensures
        (r.start as int, r.end as int) == viewport(len as int, selected as int, height as int),
{
    let rows = if height > 0 {
        height - 1
    } else {
        0
    };
    if rows == 0 {
        return 0..0;
    }
    let start = if selected >= rows {
        selected + 1 - rows
    } else {
        0
    };
    let end = if start < len && rows < len - start {
        start + rows
    } else {
        len
    };
    start..end
}

/// The queue after the track to start with is moved to the front by a
/// swap, if it is in the queue; otherwise the queue is unchanged.
pub open spec fn front_first(queue: Seq<Seq<char>>, target: Option<Seq<char>>) -> Seq<Seq<char>> {
    match target {
        Some(t) => if queue.contains(t) {
            let i = choose|i: int| 0 <= i < queue.len() && queue[i] == t && forall|j: int| 0 <= j < i ==> queue[j] != t;
            queue.update(0, t).update(i, queue[0])
        } else {
            queue
        },
        None => queue,
    }
}

proof fn lemma_front_first_at(queue: Seq<Seq<char>>, t: Seq<char>, i: int)
    requires
        0 <= i < queue.len(),
        queue[i] == t,
        forall|j: int| 0 <= j < i ==> queue[j] != t,
    ensures
        front_first(queue, Some(t)) == queue.update(0, t).update(i, queue[0]),
{
    assert(queue.contains(t));
    let c = choose|c: int| 0 <= c < queue.len() && queue[c] == t && forall|j: int| 0 <= j < c ==> queue[j] != t;
    assert(0 <= c < queue.len() && queue[c] == t && forall|j: int| 0 <= j < c ==> queue[j] != t);
    if c < i {
        assert(queue[c] != t);
    } else if c > i {
        assert(queue[i] != t);
    }
}

/// Start a freshly shuffled queue: the chosen track, if there is one and it
/// is in the queue, is swapped to the front, and playing starts at the
/// front. Returns where playing starts.
pub fn bring_to_front(queue: &mut Vec<String>, target: Option<&str>) -> (start: usize)
    ensures
        start == 0,
        crate::text::string_views(final(queue)@) == front_first(
            crate::text::string_views(old(queue)@),
            match target {
                Some(t) => Some(t@),
                None => None,
            },
        ),
{
    let ghost before = crate::text::string_views(queue@);
    match target {
        Some(t) => {
            let wanted = chars_of(t);
            let mut i: usize = 0;
            while i < queue.len()
                invariant
                    i <= queue@.len(),
                    before == crate::text::string_views(queue@),
                    before == crate::text::string_views(old(queue)@),
                    target == Some(t),
                    wanted@ == t@,
                    forall|j: int| 0 <= j < i ==> before[j] != t@,
                decreases queue.len() - i,
            {
                if chars_eq(&chars_of(queue[i].as_str()), &wanted) {
                    proof {
                        lemma_front_first_at(before, t@, i as int);
                    }
                    if i > 0 {
                        let ghost q0 = queue@;
                        let item = queue.remove(i);
                        let first = queue.remove(0);
                        queue.insert(0, item);
                        queue.insert(i, first);
                        assert(queue@ =~= q0.update(0, q0[i as int]).update(i as int, q0[0]));
                    }
                    assert(crate::text::string_views(queue@) =~= before.update(0, t@).update(i as int, before[0]));
                    return 0;
                }
                i = i + 1;
            }
            assert(!before.contains(t@));
            0
        },
        None => 0,
    }
}


/// The chosen track of a queue, as text.
pub open spec fn target_view(target: Option<&str>) -> Option<Seq<char>> {
    match target {
        Some(t) => Some(t@),
        None => None,
    }
}

proof fn lemma_first_occurrence(queue: Seq<Seq<char>>, t: Seq<char>, k: int)
    requires
        0 <= k < queue.len(),
        queue[k] == t,
    ensures
        exists|i: int| 0 <= i < queue.len() && queue[i] == t && forall|j: int| 0 <= j < i ==> queue[j] != t,
    decreases k,
{
    if exists|j: int| 0 <= j < k && queue[j] == t {
        let j = choose|j: int| 0 <= j < k && queue[j] == t;
        lemma_first_occurrence(queue, t, j);
    } else {
        assert(forall|j: int| 0 <= j < k ==> queue[j] != t);
    }
}

/// Swapping the chosen track to the front keeps every entry, as many times
/// as before, and puts the chosen track first when it is there.
pub proof fn lemma_front_first_keeps_every_track(queue: Seq<Seq<char>>, target: Option<Seq<char>>)
    ensures
        front_first(queue, target).len() == queue.len(),
        front_first(queue, target).to_multiset() == queue.to_multiset(),
        target matches Some(t) ==> (queue.contains(t) ==> front_first(queue, target)[0] == t),
{
    broadcast use vstd::multiset::group_multiset_axioms;

    if let Some(t) = target {
        if queue.contains(t) {
            let k = choose|k: int| 0 <= k < queue.len() && queue[k] == t;
            lemma_first_occurrence(queue, t, k);
            let i = choose|i: int| 0 <= i < queue.len() && queue[i] == t && forall|j: int| 0 <= j < i ==> queue[j] != t;
            let first = queue.update(0, t);
            vstd::seq_lib::to_multiset_update(queue, 0, t);
            vstd::seq_lib::to_multiset_update(first, i, queue[0]);
            assert(first[i] == t);
            vstd::seq_lib::to_multiset_contains(queue, t);
            vstd::seq_lib::to_multiset_contains(queue, queue[0]);
            let m = queue.to_multiset();
            assert(m.count(queue[0]) > 0);
            assert(m.insert(t).count(queue[0]) > 0);
            assert(m.insert(t).remove(queue[0]).insert(queue[0]) =~= m.insert(t));
            assert(m.insert(t).remove(t) =~= m);
            assert(first.update(i, queue[0]).to_multiset() =~= queue.to_multiset());
        }
    }
}

/// rand's standard generator, carried through to the shuffle.
#[verifier::external_type_specification]
#[verifier::external_body]
pub struct ExStdRng(rand::rngs::StdRng);

/// The shuffle of rand's `SliceRandom`: the queue is put in an order drawn
/// from `rng`. It only swaps entries, so the queue keeps every entry, as many
/// times as before; which order comes out is not stated.
#[verifier::external_body]
fn shuffle_queue(queue: &mut Vec<String>, rng: &mut rand::rngs::StdRng)
    ensures
        final(queue)@.len() == old(queue)@.len(),
        string_views(final(queue)@).to_multiset() == string_views(old(queue)@).to_multiset(),
{
    queue.shuffle(rng);
}

/// Start a freshly shuffled queue: its entries are put in an order drawn
/// from `rng`, then the chosen track, if it is among them, is swapped to the
/// front. Playing starts at the front, so the result is always 0.
pub fn prepare_shuffled_queue(queue: &mut Vec<String>, target: Option<&str>, rng: &mut rand::rngs::StdRng) -> (start: usize)
    ensures
        start == 0,
        exists|shuffled: Seq<Seq<char>>|
            #![trigger front_first(shuffled, target_view(target))]
            shuffled.to_multiset() == string_views(old(queue)@).to_multiset()
                && string_views(final(queue)@) == front_first(shuffled, target_view(target)),
        final(queue)@.len() == old(queue)@.len(),
        string_views(final(queue)@).to_multiset() == string_views(old(queue)@).to_multiset(),
        target matches Some(t) ==> (string_views(old(queue)@).contains(t@) ==> final(queue)@[0]@ == t@),
{
    shuffle_queue(queue, rng);
    let ghost shuffled = string_views(queue@);
    let start = bring_to_front(queue, target);
    proof {
        lemma_front_first_keeps_every_track(shuffled, target_view(target));
        if let Some(t) = target {
            if string_views(old(queue)@).contains(t@) {
                vstd::seq_lib::to_multiset_contains(string_views(old(queue)@), t@);
                vstd::seq_lib::to_multiset_contains(shuffled, t@);
            }
        }
        assert(string_views(queue@) == front_first(shuffled, target_view(target)));
    }
    start
}


/// How the terminal shows pictures.
#[derive(Debug, Clone, Copy, PartialEq, Eq, Structural)]
pub enum ImageProtocol {
    Halfblocks,
    Sixel,
    Kitty,
    Iterm2,
}

/// Whether moving a cover on screen needs the whole screen painted again.
/// Kitty placements and halfblocks live in ordinary cells and go with them;
/// sixel and iTerm2 pictures stay behind unless the screen is repainted.
pub fn cover_layout_requires_full_repaint(protocol: ImageProtocol) -> (r: bool)
    ensures
        r == (protocol == ImageProtocol::Sixel || protocol == ImageProtocol::Iterm2),
{
    match protocol {
        ImageProtocol::Sixel | ImageProtocol::Iterm2 => true,
        _ => false,
    }
}

/// A rectangle of terminal cells.
#[derive(Debug, Clone, Copy, PartialEq, Eq, Structural)]
pub struct Area {
    pub x: u16,
    pub y: u16,
    pub width: u16,
    pub height: u16,
}

/// `a - b`, or 0 when `b` is larger.
pub open spec fn less(a: int, b: int) -> int {
    if a > b {
        a - b
    } else {
        0
    }
}

/// A `width` by `height` rectangle in the middle of `area`.
pub fn centered(area: Area, width: u16, height: u16) -> (r: Area)
    requires
        area.x + less(area.width as int, width as int) / 2 <= u16::MAX,
        area.y + less(area.height as int, height as int) / 2 <= u16::MAX,
    ensures
        r.x == area.x + less(area.width as int, width as int) / 2,
        r.y == area.y + less(area.height as int, height as int) / 2,
        r.width == width,
        r.height == height,
{
    let spare_width: u16 = if area.width > width {
        area.width - width
    } else {
        0
    };
    let spare_height: u16 = if area.height > height {
        area.height - height
    } else {
        0
    };
    Area { x: area.x + spare_width / 2, y: area.y + spare_height / 2, width, height }
}
} // verus!
