//! What the interface lists and plays, apart from drawing it: the entries of
//! each view, the track under the selection, the detail views opened on top
//! of one another, and how a selection becomes the play queue.
//!
//! A map from a track id (or an album key, or an artist name) to its place is
//! read here as the first place that has it; the library keeps these unique.

use vstd::prelude::*;
use vstd::view::View as _;

use crate::features::{stats_for, stats_lookup, Genre};
use crate::i18n::{lookup, translation, Translator};
use crate::model::{Album, Artist, HistoryEntry, Playlist, SmartPlaylist, Track, TrackStats};
use crate::sorting::{insert_by, lemma_insert_by_at, lemma_sorted_by_push, sorted_by};
use crate::text::{opt_chars, string_views};
use crate::tui::{front_first, prepare_shuffled_queue, View};

verus! {

/// What a detail view shows.
#[derive(Debug, Clone, PartialEq, Eq)]
pub enum NavTarget {
    Album(String),
    Artist(String),
    Genre(String),
    SmartPlaylist(i64),
}

/// A detail view that is open: what it shows, the view it was opened from,
/// and the selection there when it was opened.
#[derive(Debug, Clone, PartialEq, Eq)]
pub struct NavFrame {
    pub target: NavTarget,
    pub parent: View,
    pub selection: usize,
}

/// Which pane the arrow keys move in.
#[derive(Debug, Clone, Copy, PartialEq, Eq, Structural)]
pub enum Focus {
    Sidebar,
    Content,
}

/// The state the views are read from.
pub struct Browser {
    pub tracks: Vec<Track>,
    /// Places in `tracks` of the favourite tracks.
    pub favorite_indices: Vec<usize>,
    pub albums: Vec<Album>,
    pub artists: Vec<Artist>,
    pub genres: Vec<Genre>,
    pub playlists: Vec<Playlist>,
    pub smart_playlists: Vec<SmartPlaylist>,
    /// The tracks of each smart playlist, by its id.
    pub smart_matches: Vec<(i64, Vec<String>)>,
    pub history: Vec<HistoryEntry>,
    pub home_tracks: Vec<String>,
    /// Places in `tracks` of the search results, best first.
    pub search_matches: Vec<usize>,
    /// Which search the results should answer; an answer to an older one
    /// is dropped.
    pub search_generation: u64,
    pub queue: Vec<String>,
    pub queue_index: Option<usize>,
    pub view: View,
    pub focus: Focus,
    pub selected: usize,
    /// Open detail views, outermost first; empty in a top-level view.
    pub nav: Vec<NavFrame>,
    /// Keys of the albums and singles of the innermost open artist.
    pub artist_release_keys: Vec<String>,
    /// In a genre: 0 lists its albums, 1 its artists, anything else its tracks.
    pub genre_tab: usize,
    /// How many entries the settings view has.
    pub settings_len: usize,
    /// The line shown in the status bar.
    pub status: String,
}

/// The first place at or after `from` whose key is `want`.
pub open spec fn first_keyed<T>(s: Seq<T>, key: spec_fn(T) -> Seq<char>, want: Seq<char>, from: int) -> Option<int>
    decreases s.len() - from,
{
    if from < 0 || from >= s.len() {
        None
    } else if key(s[from]) == want {
        Some(from)
    } else {
        first_keyed(s, key, want, from + 1)
    }
}

pub open spec fn track_id_of() -> spec_fn(Track) -> Seq<char> {
    |t: Track| t.id@
}

pub open spec fn album_key_of() -> spec_fn(Album) -> Seq<char> {
    |a: Album| a.key@
}

pub open spec fn artist_name_of() -> spec_fn(Artist) -> Seq<char> {
    |a: Artist| a.name@
}

pub open spec fn genre_name_of() -> spec_fn(Genre) -> Seq<char> {
    |g: Genre| g.name@
}

/// `r` as the optional place `o`.
pub open spec fn found_at(r: Option<usize>, o: Option<int>) -> bool {
    match r {
        Some(i) => o == Some(i as int),
        None => o is None,
    }
}

/// The place of the track with this id.
pub open spec fn track_place(b: &Browser, id: Seq<char>) -> Option<int> {
    first_keyed(b.tracks@, track_id_of(), id, 0)
}

/// The place of the album with this key.
pub open spec fn album_place(b: &Browser, key: Seq<char>) -> Option<int> {
    first_keyed(b.albums@, album_key_of(), key, 0)
}

/// The place of the artist with this name.
pub open spec fn artist_place(b: &Browser, name: Seq<char>) -> Option<int> {
    first_keyed(b.artists@, artist_name_of(), name, 0)
}

/// The album shown by the innermost open album view.
pub open spec fn opened_album_key(nav: Seq<NavFrame>) -> Option<Seq<char>>
    decreases nav.len(),
{
    if nav.len() == 0 {
        None
    } else {
        match nav.last().target {
            NavTarget::Album(key) => Some(key@),
            _ => opened_album_key(nav.drop_last()),
        }
    }
}

/// The artist shown by the innermost open artist view.
pub open spec fn opened_artist_name(nav: Seq<NavFrame>) -> Option<Seq<char>>
    decreases nav.len(),
{
    if nav.len() == 0 {
        None
    } else {
        match nav.last().target {
            NavTarget::Artist(name) => Some(name@),
            _ => opened_artist_name(nav.drop_last()),
        }
    }
}

/// The genre shown by the innermost open genre view.
pub open spec fn opened_genre_name(nav: Seq<NavFrame>) -> Option<Seq<char>>
    decreases nav.len(),
{
    if nav.len() == 0 {
        None
    } else {
        match nav.last().target {
            NavTarget::Genre(name) => Some(name@),
            _ => opened_genre_name(nav.drop_last()),
        }
    }
}

/// The smart playlist shown by the innermost open smart-playlist view.
pub open spec fn opened_smart_playlist(nav: Seq<NavFrame>) -> Option<i64>
    decreases nav.len(),
{
    if nav.len() == 0 {
        None
    } else {
        match nav.last().target {
            NavTarget::SmartPlaylist(id) => Some(id),
            _ => opened_smart_playlist(nav.drop_last()),
        }
    }
}

/// The view the innermost detail view was opened from.
pub open spec fn nav_parent(nav: Seq<NavFrame>) -> Option<View> {
    if nav.len() == 0 {
        None
    } else {
        Some(nav.last().parent)
    }
}

impl Browser {
    /// Every place the state keeps in `tracks` is a place of `tracks`.
    pub open spec fn wf(&self) -> bool {
        &&& forall|i: int| 0 <= i < self.favorite_indices@.len() ==> self.favorite_indices@[i] < self.tracks@.len()
        &&& forall|i: int| 0 <= i < self.search_matches@.len() ==> self.search_matches@[i] < self.tracks@.len()
    }

    /// The place of the track with this id.
    pub fn track_position(&self, id: &String) -> (r: Option<usize>)
        ensures
            found_at(r, track_place(self, id@)),
            r matches Some(i) ==> i < self.tracks@.len(),
    {
        let mut i: usize = 0;
        while i < self.tracks.len()
            invariant
                i <= self.tracks@.len(),
                track_place(self, id@) == first_keyed(self.tracks@, track_id_of(), id@, i as int),
            decreases self.tracks.len() - i,
        {
            if self.tracks[i].id == *id {
                return Some(i);
            }
            i = i + 1;
        }
        None
    }

    /// The place of the album with this key.
    pub fn album_position(&self, key: &String) -> (r: Option<usize>)
        ensures
            found_at(r, album_place(self, key@)),
            r matches Some(i) ==> i < self.albums@.len(),
    {
        let mut i: usize = 0;
        while i < self.albums.len()
            invariant
                i <= self.albums@.len(),
                album_place(self, key@) == first_keyed(self.albums@, album_key_of(), key@, i as int),
            decreases self.albums.len() - i,
        {
            if self.albums[i].key == *key {
                return Some(i);
            }
            i = i + 1;
        }
        None
    }

    /// The place of the artist with this name.
    pub fn artist_position(&self, name: &String) -> (r: Option<usize>)
        ensures
            found_at(r, artist_place(self, name@)),
            r matches Some(i) ==> i < self.artists@.len(),
    {
        let mut i: usize = 0;
        while i < self.artists.len()
            invariant
                i <= self.artists@.len(),
                artist_place(self, name@) == first_keyed(self.artists@, artist_name_of(), name@, i as int),
            decreases self.artists.len() - i,
        {
            if self.artists[i].name == *name {
                return Some(i);
            }
            i = i + 1;
        }
        None
    }
}


/// The album the innermost open album view shows.
pub open spec fn opened_album(b: &Browser) -> Option<int> {
    match opened_album_key(b.nav@) {
        Some(key) => album_place(b, key),
        None => None,
    }
}

/// The genre the innermost open genre view shows.
pub open spec fn opened_genre(b: &Browser) -> Option<int> {
    match opened_genre_name(b.nav@) {
        Some(name) => first_keyed(b.genres@, genre_name_of(), name, 0),
        None => None,
    }
}

/// The tracks of the open genre.
pub open spec fn genre_track_ids(b: &Browser) -> Seq<Seq<char>> {
    match opened_genre(b) {
        Some(i) => string_views(b.genres@[i].track_ids@),
        None => seq![],
    }
}

/// The first entry at or after `from` for this smart playlist.
pub open spec fn smart_place(m: Seq<(i64, Vec<String>)>, id: i64, from: int) -> Option<int>
    decreases m.len() - from,
{
    if from < 0 || from >= m.len() {
        None
    } else if m[from].0 == id {
        Some(from)
    } else {
        smart_place(m, id, from + 1)
    }
}

/// The tracks of a smart playlist; none for one not evaluated.
pub open spec fn smart_ids(b: &Browser, id: i64) -> Seq<Seq<char>> {
    match smart_place(b.smart_matches@, id, 0) {
        Some(i) => string_views(b.smart_matches@[i].1@),
        None => seq![],
    }
}

/// The tracks of the open smart playlist.
pub open spec fn smart_track_ids(b: &Browser) -> Seq<Seq<char>> {
    match opened_smart_playlist(b.nav@) {
        Some(id) => smart_ids(b, id),
        None => seq![],
    }
}

/// The genre a track is filed under among the first `n` genres: the last
/// of them that lists it.
pub open spec fn genre_within(genres: Seq<Genre>, id: Seq<char>, n: int) -> Option<Seq<char>>
    decreases n,
{
    if n <= 0 {
        None
    } else if string_views(genres[n - 1].track_ids@).contains(id) {
        Some(genres[n - 1].name@)
    } else {
        genre_within(genres, id, n - 1)
    }
}

/// The genre a track is filed under.
pub open spec fn genre_of(b: &Browser, id: Seq<char>) -> Option<Seq<char>> {
    genre_within(b.genres@, id, b.genres@.len() as int)
}

/// Whether one of these tracks is filed under genre `g`.
pub open spec fn has_genre(genres: Seq<Genre>, ids: Seq<Seq<char>>, g: Seq<char>) -> bool {
    exists|k: int| 0 <= k < ids.len() && genre_within(genres, #[trigger] ids[k], genres.len() as int) == Some(g)
}

/// Places among the first `n` albums of those with a track in genre `g`.
pub open spec fn albums_in_genre(albums: Seq<Album>, genres: Seq<Genre>, g: Seq<char>, n: int) -> Seq<usize>
    decreases n,
{
    if n <= 0 {
        seq![]
    } else {
        albums_in_genre(albums, genres, g, n - 1) + if has_genre(genres, string_views(albums[n - 1].track_ids@), g) {
            seq![(n - 1) as usize]
        } else {
            seq![]
        }
    }
}

/// Places among the first `n` artists of those with a track in genre `g`.
pub open spec fn artists_in_genre(artists: Seq<Artist>, genres: Seq<Genre>, g: Seq<char>, n: int) -> Seq<usize>
    decreases n,
{
    if n <= 0 {
        seq![]
    } else {
        artists_in_genre(artists, genres, g, n - 1) + if has_genre(genres, string_views(artists[n - 1].track_ids@), g) {
            seq![(n - 1) as usize]
        } else {
            seq![]
        }
    }
}

/// The albums listed in the open genre.
pub open spec fn genre_album_indices(b: &Browser) -> Seq<usize> {
    match opened_genre_name(b.nav@) {
        Some(g) => albums_in_genre(b.albums@, b.genres@, g, b.albums@.len() as int),
        None => seq![],
    }
}

/// The artists listed in the open genre.
pub open spec fn genre_artist_indices(b: &Browser) -> Seq<usize> {
    match opened_genre_name(b.nav@) {
        Some(g) => artists_in_genre(b.artists@, b.genres@, g, b.artists@.len() as int),
        None => seq![],
    }
}

proof fn lemma_albums_in_genre_bound(albums: Seq<Album>, genres: Seq<Genre>, g: Seq<char>, n: int)
    requires
        n <= albums.len(),
    ensures
        forall|k: int| 0 <= k < albums_in_genre(albums, genres, g, n).len() ==> albums_in_genre(albums, genres, g, n)[k] < albums.len(),
        albums_in_genre(albums, genres, g, n).len() <= if n < 0 { 0 } else { n },
    decreases n,
{
    if n > 0 {
        lemma_albums_in_genre_bound(albums, genres, g, n - 1);
    }
}

proof fn lemma_artists_in_genre_bound(artists: Seq<Artist>, genres: Seq<Genre>, g: Seq<char>, n: int)
    requires
        n <= artists.len(),
    ensures
        forall|k: int| 0 <= k < artists_in_genre(artists, genres, g, n).len() ==> artists_in_genre(artists, genres, g, n)[k] < artists.len(),
        artists_in_genre(artists, genres, g, n).len() <= if n < 0 { 0 } else { n },
    decreases n,
{
    if n > 0 {
        lemma_artists_in_genre_bound(artists, genres, g, n - 1);
    }
}

/// The album under the selection: in an artist, one of its releases.
pub open spec fn selected_album(b: &Browser) -> Option<int> {
    if b.view == View::ArtistDetail {
        if b.selected < b.artist_release_keys@.len() {
            album_place(b, b.artist_release_keys@[b.selected as int]@)
        } else {
            None
        }
    } else if b.selected < b.albums@.len() {
        Some(b.selected as int)
    } else {
        None
    }
}

/// The place of the track that is playing.
pub open spec fn current_place(b: &Browser) -> Option<int> {
    match b.queue_index {
        Some(i) => if i < b.queue@.len() {
            track_place(b, b.queue@[i as int]@)
        } else {
            None
        },
        None => None,
    }
}

fn text_in(list: &Vec<String>, want: &String) -> (r: bool)
    ensures
        r == string_views(list@).contains(want@),
{
    let mut j: usize = 0;
    while j < list.len()
        invariant
            j <= list@.len(),
            forall|k: int| 0 <= k < j ==> string_views(list@)[k] != want@,
        decreases list.len() - j,
    {
        if list[j] == *want {
            assert(string_views(list@)[j as int] == want@);
            return true;
        }
        j = j + 1;
    }
    false
}

impl Browser {
    /// The album the innermost open album view shows.
    pub fn opened_album(&self) -> (r: Option<usize>)
        ensures
            found_at(r, opened_album(self)),
            r matches Some(i) ==> i < self.albums@.len(),
    {
        let mut n: usize = self.nav.len();
        assert(self.nav@.take(self.nav@.len() as int) =~= self.nav@);
        while n > 0
            invariant
                n <= self.nav@.len(),
                opened_album_key(self.nav@) == opened_album_key(self.nav@.take(n as int)),
            decreases n,
        {
            let ghost prefix = self.nav@.take(n as int);
            assert(prefix.drop_last() =~= self.nav@.take(n - 1));
            match &self.nav[n - 1].target {
                NavTarget::Album(key) => {
                    return self.album_position(key);
                },
                _ => {},
            }
            n = n - 1;
        }
        None
    }

    /// The name of the genre the innermost open genre view shows.
    pub fn opened_genre_name(&self) -> (r: Option<&String>)
        ensures
            match r {
                Some(name) => opened_genre_name(self.nav@) == Some(name@),
                None => opened_genre_name(self.nav@) is None,
            },
    {
        let mut n: usize = self.nav.len();
        assert(self.nav@.take(self.nav@.len() as int) =~= self.nav@);
        while n > 0
            invariant
                n <= self.nav@.len(),
                opened_genre_name(self.nav@) == opened_genre_name(self.nav@.take(n as int)),
            decreases n,
        {
            let ghost prefix = self.nav@.take(n as int);
            assert(prefix.drop_last() =~= self.nav@.take(n - 1));
            match &self.nav[n - 1].target {
                NavTarget::Genre(name) => {
                    return Some(name);
                },
                _ => {},
            }
            n = n - 1;
        }
        None
    }

    /// The id of the smart playlist the innermost open view of one shows.
    pub fn opened_smart_playlist(&self) -> (r: Option<i64>)
        ensures
            r == opened_smart_playlist(self.nav@),
    {
        let mut n: usize = self.nav.len();
        assert(self.nav@.take(self.nav@.len() as int) =~= self.nav@);
        while n > 0
            invariant
                n <= self.nav@.len(),
                opened_smart_playlist(self.nav@) == opened_smart_playlist(self.nav@.take(n as int)),
            decreases n,
        {
            let ghost prefix = self.nav@.take(n as int);
            assert(prefix.drop_last() =~= self.nav@.take(n - 1));
            match &self.nav[n - 1].target {
                NavTarget::SmartPlaylist(id) => {
                    return Some(*id);
                },
                _ => {},
            }
            n = n - 1;
        }
        None
    }

    /// The name of the artist the innermost open artist view shows.
    pub fn opened_artist_name(&self) -> (r: Option<&String>)
        ensures
            match r {
                Some(name) => opened_artist_name(self.nav@) == Some(name@),
                None => opened_artist_name(self.nav@) is None,
            },
    {
        let mut n: usize = self.nav.len();
        assert(self.nav@.take(self.nav@.len() as int) =~= self.nav@);
        while n > 0
            invariant
                n <= self.nav@.len(),
                opened_artist_name(self.nav@) == opened_artist_name(self.nav@.take(n as int)),
            decreases n,
        {
            let ghost prefix = self.nav@.take(n as int);
            assert(prefix.drop_last() =~= self.nav@.take(n - 1));
            match &self.nav[n - 1].target {
                NavTarget::Artist(name) => {
                    return Some(name);
                },
                _ => {},
            }
            n = n - 1;
        }
        None
    }

    /// The view the innermost detail view was opened from.
    pub fn nav_parent(&self) -> (r: Option<View>)
        ensures
            r == nav_parent(self.nav@),
    {
        if self.nav.len() == 0 {
            None
        } else {
            Some(self.nav[self.nav.len() - 1].parent)
        }
    }

    /// The genre a track is filed under: the last genre that lists it.
    pub fn genre_of(&self, id: &String) -> (r: Option<&String>)
        ensures
            match r {
                Some(name) => genre_of(self, id@) == Some(name@),
                None => genre_of(self, id@) is None,
            },
    {
        let mut n: usize = self.genres.len();
        while n > 0
            invariant
                n <= self.genres@.len(),
                genre_of(self, id@) == genre_within(self.genres@, id@, n as int),
            decreases n,
        {
            if text_in(&self.genres[n - 1].track_ids, id) {
                return Some(&self.genres[n - 1].name);
            }
            n = n - 1;
        }
        None
    }

    fn in_genre(&self, ids: &Vec<String>, g: &String) -> (r: bool)
        ensures
            r == has_genre(self.genres@, string_views(ids@), g@),
    {
        let mut k: usize = 0;
        while k < ids.len()
            invariant
                k <= ids@.len(),
                forall|j: int| 0 <= j < k ==> genre_of(self, #[trigger] string_views(ids@)[j]) != Some(g@),
            decreases ids.len() - k,
        {
            match self.genre_of(&ids[k]) {
                Some(name) => {
                    if *name == *g {
                        assert(string_views(ids@)[k as int] == ids@[k as int]@);
                        return true;
                    }
                },
                None => {},
            }
            assert(string_views(ids@)[k as int] == ids@[k as int]@);
            k = k + 1;
        }
        false
    }

    /// The albums listed in the open genre.
    pub fn genre_album_indices(&self) -> (r: Vec<usize>)
        ensures
            r@ == genre_album_indices(self),
    {
        let mut out: Vec<usize> = Vec::new();
        match self.opened_genre_name() {
            Some(g) => {
                let mut i: usize = 0;
                while i < self.albums.len()
                    invariant
                        i <= self.albums@.len(),
                        out@ == albums_in_genre(self.albums@, self.genres@, g@, i as int),
                    decreases self.albums.len() - i,
                {
                    if self.in_genre(&self.albums[i].track_ids, g) {
                        out.push(i);
                    }
                    i = i + 1;
                }
            },
            None => {},
        }
        out
    }

    /// The artists listed in the open genre.
    pub fn genre_artist_indices(&self) -> (r: Vec<usize>)
        ensures
            r@ == genre_artist_indices(self),
    {
        let mut out: Vec<usize> = Vec::new();
        match self.opened_genre_name() {
            Some(g) => {
                let mut i: usize = 0;
                while i < self.artists.len()
                    invariant
                        i <= self.artists@.len(),
                        out@ == artists_in_genre(self.artists@, self.genres@, g@, i as int),
                    decreases self.artists.len() - i,
                {
                    if self.in_genre(&self.artists[i].track_ids, g) {
                        out.push(i);
                    }
                    i = i + 1;
                }
            },
            None => {},
        }
        out
    }

    /// The album under the selection; in an artist, one of its releases.
    pub fn selected_album(&self) -> (r: Option<usize>)
        ensures
            found_at(r, selected_album(self)),
            r matches Some(i) ==> i < self.albums@.len(),
    {
        if self.view == View::ArtistDetail {
            if self.selected < self.artist_release_keys.len() {
                self.album_position(&self.artist_release_keys[self.selected])
            } else {
                None
            }
        } else if self.selected < self.albums.len() {
            Some(self.selected)
        } else {
            None
        }
    }

    /// The track that is playing.
    pub fn current_track(&self) -> (r: Option<&Track>)
        ensures
            match r {
                Some(t) => exists|p: int| current_place(self) == Some(p) && *t == self.tracks@[p],
                None => current_place(self) is None,
            },
    {
        match self.queue_index {
            Some(i) => {
                if i < self.queue.len() {
                    match self.track_position(&self.queue[i]) {
                        Some(p) => Some(&self.tracks[p]),
                        None => None,
                    }
                } else {
                    None
                }
            },
            None => None,
        }
    }
}

/// The `i`-th text, if there is one.
pub open spec fn text_at(s: Seq<Seq<char>>, i: int) -> Option<Seq<char>> {
    if 0 <= i < s.len() {
        Some(s[i])
    } else {
        None
    }
}

/// How many entries the open genre lists on its current tab.
pub open spec fn genre_items_len(b: &Browser) -> int {
    if b.genre_tab == 0 {
        genre_album_indices(b).len() as int
    } else if b.genre_tab == 1 {
        genre_artist_indices(b).len() as int
    } else {
        genre_track_ids(b).len() as int
    }
}

/// The tracks of the open album.
pub open spec fn opened_album_ids(b: &Browser) -> Seq<Seq<char>> {
    match opened_album(b) {
        Some(i) => string_views(b.albums@[i].track_ids@),
        None => seq![],
    }
}

/// How many entries the current view lists.
pub open spec fn item_count(b: &Browser) -> int {
    match b.view {
        View::Home => b.home_tracks@.len() as int,
        View::Albums => b.albums@.len() as int,
        View::ArtistDetail => b.artist_release_keys@.len() as int,
        View::AlbumDetail => opened_album_ids(b).len() as int,
        View::Artists => b.artists@.len() as int,
        View::Genres => b.genres@.len() as int,
        View::GenreDetail => genre_items_len(b),
        View::Tracks => b.tracks@.len() as int,
        View::Playlists => b.playlists@.len() as int,
        View::SmartPlaylists => b.smart_playlists@.len() as int,
        View::SmartPlaylistDetail => smart_track_ids(b).len() as int,
        View::Favorites => b.favorite_indices@.len() as int,
        View::History => b.history@.len() as int,
        View::Search => b.search_matches@.len() as int,
        View::Queue => b.queue@.len() as int,
        View::Lyrics => 0,
        View::Settings => b.settings_len as int,
        View::Help => 0,
    }
}

/// How many tracks the current view lists as a track table.
pub open spec fn track_view_len(b: &Browser) -> int {
    match b.view {
        View::Tracks => b.tracks@.len() as int,
        View::Favorites => b.favorite_indices@.len() as int,
        View::Search => b.search_matches@.len() as int,
        View::History => b.history@.len() as int,
        View::SmartPlaylistDetail => smart_track_ids(b).len() as int,
        View::Queue => b.queue@.len() as int,
        View::AlbumDetail => opened_album_ids(b).len() as int,
        _ => 0,
    }
}

/// The place in `tracks` of a track id, if there is an id.
pub open spec fn place_of_text(b: &Browser, id: Option<Seq<char>>) -> Option<int> {
    match id {
        Some(id) => track_place(b, id),
        None => None,
    }
}

/// The ids of the history, newest first as it is kept.
pub open spec fn history_ids(h: Seq<HistoryEntry>) -> Seq<Seq<char>> {
    Seq::new(h.len(), |i: int| h[i].track_id@)
}

/// The place in `tracks` of the row at `position` of the track table shown.
pub open spec fn track_index_at(b: &Browser, position: int) -> Option<int> {
    match b.view {
        View::Tracks => if 0 <= position < b.tracks@.len() {
            Some(position)
        } else {
            None
        },
        View::Favorites => if 0 <= position < b.favorite_indices@.len() {
            Some(b.favorite_indices@[position] as int)
        } else {
            None
        },
        View::Search => if 0 <= position < b.search_matches@.len() {
            Some(b.search_matches@[position] as int)
        } else {
            None
        },
        View::History => place_of_text(b, text_at(history_ids(b.history@), position)),
        View::SmartPlaylistDetail => place_of_text(b, text_at(smart_track_ids(b), position)),
        View::Queue => place_of_text(b, text_at(string_views(b.queue@), position)),
        View::AlbumDetail => place_of_text(b, text_at(opened_album_ids(b), position)),
        _ => None,
    }
}

/// The ids of the favourite tracks, in library order.
pub open spec fn favorite_ids(tracks: Seq<Track>) -> Seq<Seq<char>>
    decreases tracks.len(),
{
    if tracks.len() == 0 {
        seq![]
    } else {
        favorite_ids(tracks.drop_last()) + if tracks.last().favorite {
            seq![tracks.last().id@]
        } else {
            seq![]
        }
    }
}

/// The ids of the tracks at these places.
pub open spec fn ids_at(tracks: Seq<Track>, places: Seq<usize>) -> Seq<Seq<char>> {
    Seq::new(places.len(), |k: int| tracks[places[k] as int].id@)
}

/// The ids of all tracks.
pub open spec fn all_ids(tracks: Seq<Track>) -> Seq<Seq<char>> {
    Seq::new(tracks.len(), |k: int| tracks[k].id@)
}

/// The tracks of the `i`-th entry of a list of track-id lists, or none.
pub open spec fn ids_of_entry(lists: Seq<Seq<Seq<char>>>, i: int) -> Seq<Seq<char>> {
    if 0 <= i < lists.len() {
        lists[i]
    } else {
        seq![]
    }
}

pub open spec fn album_lists(b: &Browser) -> Seq<Seq<Seq<char>>> {
    Seq::new(b.albums@.len(), |i: int| string_views(b.albums@[i].track_ids@))
}

pub open spec fn artist_lists(b: &Browser) -> Seq<Seq<Seq<char>>> {
    Seq::new(b.artists@.len(), |i: int| string_views(b.artists@[i].track_ids@))
}

pub open spec fn genre_lists(b: &Browser) -> Seq<Seq<Seq<char>>> {
    Seq::new(b.genres@.len(), |i: int| string_views(b.genres@[i].track_ids@))
}

pub open spec fn playlist_lists(b: &Browser) -> Seq<Seq<Seq<char>>> {
    Seq::new(b.playlists@.len(), |i: int| string_views(b.playlists@[i].track_ids@))
}

pub open spec fn smart_lists(b: &Browser) -> Seq<Seq<Seq<char>>> {
    Seq::new(b.smart_playlists@.len(), |i: int| smart_ids(b, b.smart_playlists@[i].id))
}

/// The tracks of the selected album of an artist.
pub open spec fn selected_album_ids(b: &Browser) -> Seq<Seq<char>> {
    match selected_album(b) {
        Some(i) => string_views(b.albums@[i].track_ids@),
        None => seq![],
    }
}

/// The tracks that playing the current view would queue.
pub open spec fn view_track_ids(b: &Browser) -> Seq<Seq<char>> {
    let s = b.selected as int;
    match b.view {
        View::Home => string_views(b.home_tracks@),
        View::Tracks => all_ids(b.tracks@),
        View::Favorites => favorite_ids(b.tracks@),
        View::Search => ids_at(b.tracks@, b.search_matches@),
        View::Lyrics => seq![],
        View::Queue => string_views(b.queue@),
        View::Albums => ids_of_entry(album_lists(b), s),
        View::AlbumDetail => opened_album_ids(b),
        View::Artists => ids_of_entry(artist_lists(b), s),
        View::Genres => ids_of_entry(genre_lists(b), s),
        View::GenreDetail => genre_track_ids(b),
        View::ArtistDetail => selected_album_ids(b),
        View::Playlists => ids_of_entry(playlist_lists(b), s),
        View::SmartPlaylists => ids_of_entry(smart_lists(b), s),
        View::SmartPlaylistDetail => smart_track_ids(b),
        View::History => history_ids(b.history@),
        View::Settings | View::Help => seq![],
    }
}

/// Playing a selected playlist, album or artist queues exactly its tracks,
/// in its order; in the track list, the whole library in library order; in
/// the queue, the queue as it stands.
pub proof fn lemma_selection_queues_its_own_tracks(b: &Browser)
    ensures
        b.view == View::Playlists && b.selected < b.playlists@.len() ==> view_track_ids(b) == string_views(
            b.playlists@[b.selected as int].track_ids@,
        ),
        b.view == View::Albums && b.selected < b.albums@.len() ==> view_track_ids(b) == string_views(
            b.albums@[b.selected as int].track_ids@,
        ),
        b.view == View::Artists && b.selected < b.artists@.len() ==> view_track_ids(b) == string_views(
            b.artists@[b.selected as int].track_ids@,
        ),
        b.view == View::Tracks ==> view_track_ids(b).len() == b.tracks@.len() && forall|k: int|
            0 <= k < b.tracks@.len() ==> #[trigger] view_track_ids(b)[k] == b.tracks@[k].id@,
        b.view == View::Queue ==> view_track_ids(b) == string_views(b.queue@),
{
}

/// The first track of an entry of a list of track-id lists.
pub open spec fn first_of_entry(lists: Seq<Seq<Seq<char>>>, i: int) -> Option<Seq<char>> {
    text_at(ids_of_entry(lists, i), 0)
}

/// The track under the selection in an open genre.
pub open spec fn genre_selected_track(b: &Browser) -> Option<Seq<char>> {
    let s = b.selected as int;
    if b.genre_tab == 0 {
        if s < genre_album_indices(b).len() {
            first_of_entry(album_lists(b), genre_album_indices(b)[s] as int)
        } else {
            None
        }
    } else if b.genre_tab == 1 {
        if s < genre_artist_indices(b).len() {
            first_of_entry(artist_lists(b), genre_artist_indices(b)[s] as int)
        } else {
            None
        }
    } else {
        text_at(genre_track_ids(b), s)
    }
}

/// The track under the selection: in a list of groups, the first track of
/// the selected group.
pub open spec fn selected_track_id(b: &Browser) -> Option<Seq<char>> {
    let s = b.selected as int;
    match b.view {
        View::Home => text_at(string_views(b.home_tracks@), s),
        View::Tracks => text_at(all_ids(b.tracks@), s),
        View::Favorites => text_at(ids_at(b.tracks@, b.favorite_indices@), s),
        View::Search => text_at(ids_at(b.tracks@, b.search_matches@), s),
        View::Lyrics => match current_place(b) {
            Some(p) => Some(b.tracks@[p].id@),
            None => None,
        },
        View::Queue => text_at(string_views(b.queue@), s),
        View::Albums => first_of_entry(album_lists(b), s),
        View::AlbumDetail => text_at(opened_album_ids(b), s),
        View::Artists => first_of_entry(artist_lists(b), s),
        View::Genres => first_of_entry(genre_lists(b), s),
        View::GenreDetail => genre_selected_track(b),
        View::ArtistDetail => text_at(selected_album_ids(b), 0),
        View::Playlists => first_of_entry(playlist_lists(b), s),
        View::SmartPlaylists => first_of_entry(smart_lists(b), s),
        View::SmartPlaylistDetail => text_at(smart_track_ids(b), s),
        View::History => text_at(history_ids(b.history@), s),
        View::Settings | View::Help => None,
    }
}

fn copy_ids(list: &Vec<String>) -> (r: Vec<String>)
    ensures
        string_views(r@) == string_views(list@),
{
    let mut out: Vec<String> = Vec::new();
    let mut i: usize = 0;
    while i < list.len()
        invariant
            i <= list@.len(),
            string_views(out@) == string_views(list@).take(i as int),
        decreases list.len() - i,
    {
        let item = list[i].clone();
        let ghost before = out@;
        out.push(item);
        proof {
            assert(out@ == before.push(item));
            assert(string_views(before).len() == before.len());
            assert(before.len() == i);
            assert(string_views(out@).len() == i + 1);
            assert(item@ == list@[i as int]@);
            assert forall|k: int| 0 <= k < i + 1 implies string_views(out@)[k] == string_views(list@).take(i + 1)[k] by {
                if k < i {
                    assert(string_views(before)[k] == string_views(list@).take(i as int)[k]);
                }
            }
            assert(string_views(out@) =~= string_views(list@).take(i + 1));
        }
        i = i + 1;
    }
    assert(string_views(list@).take(list@.len() as int) =~= string_views(list@));
    out
}

fn first_text(list: &Vec<String>) -> (r: Option<String>)
    ensures
        opt_chars(r) == text_at(string_views(list@), 0),
{
    if list.len() > 0 {
        Some(list[0].clone())
    } else {
        None
    }
}

fn text_at_place(list: &Vec<String>, i: usize) -> (r: Option<String>)
    ensures
        opt_chars(r) == text_at(string_views(list@), i as int),
{
    if i < list.len() {
        Some(list[i].clone())
    } else {
        None
    }
}

impl Browser {
    /// The tracks of a smart playlist; none for one not evaluated.
    pub fn evaluate_smart(&self, id: i64) -> (r: Vec<String>)
        ensures
            string_views(r@) == smart_ids(self, id),
    {
        let mut i: usize = 0;
        while i < self.smart_matches.len()
            invariant
                i <= self.smart_matches@.len(),
                smart_place(self.smart_matches@, id, 0) == smart_place(self.smart_matches@, id, i as int),
            decreases self.smart_matches.len() - i,
        {
            if self.smart_matches[i].0 == id {
                return copy_ids(&self.smart_matches[i].1);
            }
            i = i + 1;
        }
        assert(string_views(Seq::<String>::empty()) =~= Seq::<Seq<char>>::empty());
        Vec::new()
    }

    /// The tracks of the open smart playlist.
    pub fn smart_track_ids(&self) -> (r: Vec<String>)
        ensures
            string_views(r@) == smart_track_ids(self),
    {
        match self.opened_smart_playlist() {
            Some(id) => self.evaluate_smart(id),
            None => {
                assert(string_views(Seq::<String>::empty()) =~= Seq::<Seq<char>>::empty());
                Vec::new()
            },
        }
    }

    /// The tracks of the open genre.
    pub fn genre_track_ids(&self) -> (r: Vec<String>)
        ensures
            string_views(r@) == genre_track_ids(self),
    {
        match self.opened_genre_name() {
            Some(name) => {
                let mut i: usize = 0;
                while i < self.genres.len()
                    invariant
                        i <= self.genres@.len(),
                        opened_genre(self) == first_keyed(self.genres@, genre_name_of(), name@, i as int),
                    decreases self.genres.len() - i,
                {
                    if self.genres[i].name == *name {
                        return copy_ids(&self.genres[i].track_ids);
                    }
                    i = i + 1;
                }
            },
            None => {},
        }
        assert(string_views(Seq::<String>::empty()) =~= Seq::<Seq<char>>::empty());
        Vec::new()
    }

    /// The tracks of the open album.
    pub fn opened_album_ids(&self) -> (r: Vec<String>)
        ensures
            string_views(r@) == opened_album_ids(self),
    {
        match self.opened_album() {
            Some(i) => copy_ids(&self.albums[i].track_ids),
            None => {
                assert(string_views(Seq::<String>::empty()) =~= Seq::<Seq<char>>::empty());
                Vec::new()
            },
        }
    }

    /// How many entries the open genre lists on its current tab.
    pub fn genre_items_len(&self) -> (n: usize)
        ensures
            n == genre_items_len(self),
    {
        if self.genre_tab == 0 {
            self.genre_album_indices().len()
        } else if self.genre_tab == 1 {
            self.genre_artist_indices().len()
        } else {
            self.genre_track_ids().len()
        }
    }

    /// How many entries the current view lists.
    pub fn item_count(&self) -> (n: usize)
        ensures
            n == item_count(self),
    {
        match self.view {
            View::Home => self.home_tracks.len(),
            View::Albums => self.albums.len(),
            View::ArtistDetail => self.artist_release_keys.len(),
            View::AlbumDetail => self.opened_album_ids().len(),
            View::Artists => self.artists.len(),
            View::Genres => self.genres.len(),
            View::GenreDetail => self.genre_items_len(),
            View::Tracks => self.tracks.len(),
            View::Playlists => self.playlists.len(),
            View::SmartPlaylists => self.smart_playlists.len(),
            View::SmartPlaylistDetail => self.smart_track_ids().len(),
            View::Favorites => self.favorite_indices.len(),
            View::History => self.history.len(),
            View::Search => self.search_matches.len(),
            View::Queue => self.queue.len(),
            View::Lyrics => 0,
            View::Settings => self.settings_len,
            View::Help => 0,
        }
    }

    /// How many tracks the current view lists as a track table.
    pub fn track_view_len(&self) -> (n: usize)
        ensures
            n == track_view_len(self),
    {
        match self.view {
            View::Tracks => self.tracks.len(),
            View::Favorites => self.favorite_indices.len(),
            View::Search => self.search_matches.len(),
            View::History => self.history.len(),
            View::SmartPlaylistDetail => self.smart_track_ids().len(),
            View::Queue => self.queue.len(),
            View::AlbumDetail => self.opened_album_ids().len(),
            _ => 0,
        }
    }

    fn place_of(&self, id: Option<String>) -> (r: Option<usize>)
        ensures
            found_at(r, place_of_text(self, opt_chars(id))),
    {
        match id {
            Some(id) => self.track_position(&id),
            None => None,
        }
    }

    /// The place in `tracks` of the row at `position` of the track table shown.
    pub fn track_index_at_view_position(&self, position: usize) -> (r: Option<usize>)
        ensures
            found_at(r, track_index_at(self, position as int)),
    {
        match self.view {
            View::Tracks => if position < self.tracks.len() {
                Some(position)
            } else {
                None
            },
            View::Favorites => if position < self.favorite_indices.len() {
                Some(self.favorite_indices[position])
            } else {
                None
            },
            View::Search => if position < self.search_matches.len() {
                Some(self.search_matches[position])
            } else {
                None
            },
            View::History => {
                let id = if position < self.history.len() {
                    Some(self.history[position].track_id.clone())
                } else {
                    None
                };
                self.place_of(id)
            },
            View::SmartPlaylistDetail => self.place_of(text_at_place(&self.smart_track_ids(), position)),
            View::Queue => self.place_of(text_at_place(&self.queue, position)),
            View::AlbumDetail => self.place_of(text_at_place(&self.opened_album_ids(), position)),
            _ => None,
        }
    }
}

fn no_ids() -> (r: Vec<String>)
    ensures
        string_views(r@) == Seq::<Seq<char>>::empty(),
{
    let r: Vec<String> = Vec::new();
    assert(string_views(r@) =~= Seq::<Seq<char>>::empty());
    r
}

impl Browser {
    fn all_track_ids(&self) -> (r: Vec<String>)
        ensures
            string_views(r@) == all_ids(self.tracks@),
    {
        let mut out: Vec<String> = Vec::new();
        let mut i: usize = 0;
        while i < self.tracks.len()
            invariant
                i <= self.tracks@.len(),
                string_views(out@) == all_ids(self.tracks@).take(i as int),
            decreases self.tracks.len() - i,
        {
            let id = self.tracks[i].id.clone();
            let ghost before = out@;
            out.push(id);
            proof {
                assert(string_views(before).len() == before.len());
                assert(string_views(out@) =~= all_ids(self.tracks@).take(i + 1)) by {
                    assert forall|k: int| 0 <= k < i implies string_views(out@)[k] == all_ids(self.tracks@).take(i + 1)[k] by {
                        assert(string_views(before)[k] == all_ids(self.tracks@).take(i as int)[k]);
                    }
                }
            }
            i = i + 1;
        }
        assert(all_ids(self.tracks@).take(self.tracks@.len() as int) =~= all_ids(self.tracks@));
        out
    }

    fn favorite_track_ids(&self) -> (r: Vec<String>)
        ensures
            string_views(r@) == favorite_ids(self.tracks@),
    {
        let mut out: Vec<String> = Vec::new();
        let mut i: usize = 0;
        assert(string_views(out@) =~= favorite_ids(self.tracks@.take(0)));
        while i < self.tracks.len()
            invariant
                i <= self.tracks@.len(),
                string_views(out@) == favorite_ids(self.tracks@.take(i as int)),
            decreases self.tracks.len() - i,
        {
            assert(self.tracks@.take(i + 1).drop_last() =~= self.tracks@.take(i as int));
            if self.tracks[i].favorite {
                let id = self.tracks[i].id.clone();
                let ghost before = out@;
                out.push(id);
                proof {
                    assert(string_views(before).len() == before.len());
                    assert(string_views(out@) =~= string_views(before) + seq![self.tracks@[i as int].id@]);
                }
            }
            i = i + 1;
        }
        assert(self.tracks@.take(self.tracks@.len() as int) =~= self.tracks@);
        out
    }

    fn ids_at_places(&self, places: &Vec<usize>) -> (r: Vec<String>)
        requires
            forall|k: int| 0 <= k < places@.len() ==> places@[k] < self.tracks@.len(),
        ensures
            string_views(r@) == ids_at(self.tracks@, places@),
    {
        let mut out: Vec<String> = Vec::new();
        let mut i: usize = 0;
        while i < places.len()
            invariant
                i <= places@.len(),
                forall|k: int| 0 <= k < places@.len() ==> places@[k] < self.tracks@.len(),
                string_views(out@) == ids_at(self.tracks@, places@).take(i as int),
            decreases places.len() - i,
        {
            let id = self.tracks[places[i]].id.clone();
            let ghost before = out@;
            out.push(id);
            proof {
                assert(string_views(before).len() == before.len());
                assert(string_views(out@) =~= ids_at(self.tracks@, places@).take(i + 1)) by {
                    assert forall|k: int| 0 <= k < i implies string_views(out@)[k] == ids_at(self.tracks@, places@).take(i + 1)[k] by {
                        assert(string_views(before)[k] == ids_at(self.tracks@, places@).take(i as int)[k]);
                    }
                }
            }
            i = i + 1;
        }
        assert(ids_at(self.tracks@, places@).take(places@.len() as int) =~= ids_at(self.tracks@, places@));
        out
    }

    fn history_track_ids(&self) -> (r: Vec<String>)
        ensures
            string_views(r@) == history_ids(self.history@),
    {
        let mut out: Vec<String> = Vec::new();
        let mut i: usize = 0;
        while i < self.history.len()
            invariant
                i <= self.history@.len(),
                string_views(out@) == history_ids(self.history@).take(i as int),
            decreases self.history.len() - i,
        {
            let id = self.history[i].track_id.clone();
            let ghost before = out@;
            out.push(id);
            proof {
                assert(string_views(before).len() == before.len());
                assert(string_views(out@) =~= history_ids(self.history@).take(i + 1)) by {
                    assert forall|k: int| 0 <= k < i implies string_views(out@)[k] == history_ids(self.history@).take(i + 1)[k] by {
                        assert(string_views(before)[k] == history_ids(self.history@).take(i as int)[k]);
                    }
                }
            }
            i = i + 1;
        }
        assert(history_ids(self.history@).take(self.history@.len() as int) =~= history_ids(self.history@));
        out
    }

    /// The tracks of the selected album of an artist.
    fn selected_album_ids(&self) -> (r: Vec<String>)
        ensures
            string_views(r@) == selected_album_ids(self),
    {
        match self.selected_album() {
            Some(i) => copy_ids(&self.albums[i].track_ids),
            None => no_ids(),
        }
    }

    /// The tracks that playing the current view would queue.
    pub fn view_track_ids(&self) -> (r: Vec<String>)
        requires
            self.wf(),
        ensures
            string_views(r@) == view_track_ids(self),
    {
        let s = self.selected;
        match self.view {
            View::Home => copy_ids(&self.home_tracks),
            View::Tracks => self.all_track_ids(),
            View::Favorites => self.favorite_track_ids(),
            View::Search => self.ids_at_places(&self.search_matches),
            View::Lyrics => no_ids(),
            View::Queue => copy_ids(&self.queue),
            View::Albums => if s < self.albums.len() {
                copy_ids(&self.albums[s].track_ids)
            } else {
                no_ids()
            },
            View::AlbumDetail => self.opened_album_ids(),
            View::Artists => if s < self.artists.len() {
                copy_ids(&self.artists[s].track_ids)
            } else {
                no_ids()
            },
            View::Genres => if s < self.genres.len() {
                copy_ids(&self.genres[s].track_ids)
            } else {
                no_ids()
            },
            View::GenreDetail => self.genre_track_ids(),
            View::ArtistDetail => self.selected_album_ids(),
            View::Playlists => if s < self.playlists.len() {
                copy_ids(&self.playlists[s].track_ids)
            } else {
                no_ids()
            },
            View::SmartPlaylists => if s < self.smart_playlists.len() {
                self.evaluate_smart(self.smart_playlists[s].id)
            } else {
                no_ids()
            },
            View::SmartPlaylistDetail => self.smart_track_ids(),
            View::History => self.history_track_ids(),
            View::Settings | View::Help => no_ids(),
        }
    }

    /// The track under the selection in an open genre.
    pub fn genre_selected_track_id(&self) -> (r: Option<String>)
        ensures
            opt_chars(r) == genre_selected_track(self),
    {
        let s = self.selected;
        if self.genre_tab == 0 {
            let indices = self.genre_album_indices();
            proof {
                match opened_genre_name(self.nav@) {
                    Some(g) => lemma_albums_in_genre_bound(self.albums@, self.genres@, g, self.albums@.len() as int),
                    None => {},
                }
            }
            if s < indices.len() {
                first_text(&self.albums[indices[s]].track_ids)
            } else {
                None
            }
        } else if self.genre_tab == 1 {
            let indices = self.genre_artist_indices();
            proof {
                match opened_genre_name(self.nav@) {
                    Some(g) => lemma_artists_in_genre_bound(self.artists@, self.genres@, g, self.artists@.len() as int),
                    None => {},
                }
            }
            if s < indices.len() {
                first_text(&self.artists[indices[s]].track_ids)
            } else {
                None
            }
        } else {
            text_at_place(&self.genre_track_ids(), s)
        }
    }

    /// The track under the selection; in a list of groups, the first track
    /// of the selected group.
    pub fn selected_track_id(&self) -> (r: Option<String>)
        requires
            self.wf(),
        ensures
            opt_chars(r) == selected_track_id(self),
    {
        let s = self.selected;
        match self.view {
            View::Home => text_at_place(&self.home_tracks, s),
            View::Tracks => if s < self.tracks.len() {
                Some(self.tracks[s].id.clone())
            } else {
                None
            },
            View::Favorites => if s < self.favorite_indices.len() {
                Some(self.tracks[self.favorite_indices[s]].id.clone())
            } else {
                None
            },
            View::Search => if s < self.search_matches.len() {
                Some(self.tracks[self.search_matches[s]].id.clone())
            } else {
                None
            },
            View::Lyrics => match self.current_track() {
                Some(track) => Some(track.id.clone()),
                None => None,
            },
            View::Queue => text_at_place(&self.queue, s),
            View::Albums => if s < self.albums.len() {
                first_text(&self.albums[s].track_ids)
            } else {
                None
            },
            View::AlbumDetail => text_at_place(&self.opened_album_ids(), s),
            View::Artists => if s < self.artists.len() {
                first_text(&self.artists[s].track_ids)
            } else {
                None
            },
            View::Genres => if s < self.genres.len() {
                first_text(&self.genres[s].track_ids)
            } else {
                None
            },
            View::GenreDetail => self.genre_selected_track_id(),
            View::ArtistDetail => first_text(&self.selected_album_ids()),
            View::Playlists => if s < self.playlists.len() {
                first_text(&self.playlists[s].track_ids)
            } else {
                None
            },
            View::SmartPlaylists => if s < self.smart_playlists.len() {
                first_text(&self.evaluate_smart(self.smart_playlists[s].id))
            } else {
                None
            },
            View::SmartPlaylistDetail => text_at_place(&self.smart_track_ids(), s),
            View::History => if s < self.history.len() {
                Some(self.history[s].track_id.clone())
            } else {
                None
            },
            View::Settings | View::Help => None,
        }
    }
}

/// Everything but the position in the views is as it was.
pub open spec fn same_library(a: &Browser, b: &Browser) -> bool {
    &&& same_catalogue(a, b)
    &&& a.queue@ == b.queue@
    &&& a.queue_index == b.queue_index
}

/// Everything but the position in the views and the queue is as it was.
pub open spec fn same_catalogue(a: &Browser, b: &Browser) -> bool {
    &&& a.tracks@ == b.tracks@
    &&& a.favorite_indices@ == b.favorite_indices@
    &&& a.albums@ == b.albums@
    &&& a.artists@ == b.artists@
    &&& a.genres@ == b.genres@
    &&& a.playlists@ == b.playlists@
    &&& a.smart_playlists@ == b.smart_playlists@
    &&& a.smart_matches@ == b.smart_matches@
    &&& a.history@ == b.history@
    &&& a.home_tracks@ == b.home_tracks@
    &&& a.search_matches@ == b.search_matches@
    &&& a.settings_len == b.settings_len
}

/// Nothing has changed.
pub open spec fn unchanged(a: &Browser, b: &Browser) -> bool {
    &&& same_library(a, b)
    &&& a.view == b.view
    &&& a.focus == b.focus
    &&& a.selected == b.selected
    &&& a.nav@ == b.nav@
    &&& a.artist_release_keys@ == b.artist_release_keys@
    &&& a.genre_tab == b.genre_tab
    &&& a.status@ == b.status@
}

/// The views of the sidebar, top to bottom.
pub open spec fn sidebar_views() -> Seq<View> {
    seq![
        View::Home,
        View::Albums,
        View::Artists,
        View::Genres,
        View::Tracks,
        View::Playlists,
        View::SmartPlaylists,
        View::Favorites,
        View::History,
        View::Search,
        View::Queue,
        View::Lyrics,
        View::Settings,
        View::Help,
    ]
}

/// Where a view stands in the sidebar; a view not listed there counts as
/// the first.
pub open spec fn sidebar_place(v: View) -> int {
    match v {
        View::Home => 0,
        View::Albums => 1,
        View::Artists => 2,
        View::Genres => 3,
        View::Tracks => 4,
        View::Playlists => 5,
        View::SmartPlaylists => 6,
        View::Favorites => 7,
        View::History => 8,
        View::Search => 9,
        View::Queue => 10,
        View::Lyrics => 11,
        View::Settings => 12,
        View::Help => 13,
        _ => 0,
    }
}

/// The sidebar entry a view belongs to: a detail view belongs to the list
/// it was opened from.
pub open spec fn sidebar_entry(view: View, parent: Option<View>) -> View {
    match view {
        View::ArtistDetail => View::Artists,
        View::GenreDetail => View::Genres,
        View::SmartPlaylistDetail => View::SmartPlaylists,
        View::AlbumDetail => if parent == Some(View::ArtistDetail) {
            View::Artists
        } else {
            View::Albums
        },
        v => v,
    }
}

/// The keys of the albums among the first `n` that share a track with `ids`.
pub open spec fn albums_sharing(albums: Seq<Album>, ids: Seq<Seq<char>>, n: int) -> Seq<Seq<char>>
    decreases n,
{
    if n <= 0 {
        seq![]
    } else {
        albums_sharing(albums, ids, n - 1) + if exists|k: int|
            0 <= k < albums[n - 1].track_ids@.len() && #[trigger] ids.contains(albums[n - 1].track_ids@[k]@) {
            seq![albums[n - 1].key@]
        } else {
            seq![]
        }
    }
}

/// The releases of the innermost open artist: the albums that share a
/// track with it.
pub open spec fn release_keys(b: &Browser) -> Seq<Seq<char>> {
    match opened_artist_name(b.nav@) {
        Some(name) => match artist_place(b, name) {
            Some(a) => albums_sharing(b.albums@, string_views(b.artists@[a].track_ids@), b.albums@.len() as int),
            None => seq![],
        },
        None => seq![],
    }
}

/// How many albums the album grid shows.
pub open spec fn visible_album_len(b: &Browser) -> int {
    if b.view == View::ArtistDetail {
        b.artist_release_keys@.len() as int
    } else {
        b.albums@.len() as int
    }
}

/// The album at a position of the album grid.
pub open spec fn visible_album_index_at(b: &Browser, position: int) -> Option<int> {
    if b.view == View::ArtistDetail {
        if 0 <= position < b.artist_release_keys@.len() {
            album_place(b, b.artist_release_keys@[position]@)
        } else {
            None
        }
    } else if 0 <= position < b.albums@.len() {
        Some(position)
    } else {
        None
    }
}

impl Browser {
    /// Open a detail view on top of the current one, remembering where it
    /// was opened from.
    pub fn push_nav(&mut self, target: NavTarget, view: View)
        ensures
            final(self).nav@ == old(self).nav@.push(NavFrame { target, parent: old(self).view, selection: old(self).selected }),
            final(self).view == view,
            final(self).selected == 0,
            final(self).focus == old(self).focus,
            final(self).genre_tab == old(self).genre_tab,
            final(self).artist_release_keys@ == old(self).artist_release_keys@,
            final(self).status@ == old(self).status@,
            same_library(&*final(self), &*old(self)),
    {
        let frame = NavFrame { target, parent: self.view, selection: self.selected };
        self.nav.push(frame);
        self.view = view;
        self.selected = 0;
    }

    /// Close the innermost detail view and go back to the view it was
    /// opened from; nothing happens when none is open.
    pub fn pop_nav(&mut self) -> (r: Option<NavFrame>)
        ensures
            old(self).nav@.len() == 0 ==> r is None && final(self).nav@ == old(self).nav@ && final(self).view == old(self).view,
            old(self).nav@.len() > 0 ==> r == Some(old(self).nav@.last()) && final(self).nav@ == old(self).nav@.drop_last()
                && final(self).view == old(self).nav@.last().parent,
            final(self).selected == old(self).selected,
            final(self).focus == old(self).focus,
            final(self).genre_tab == old(self).genre_tab,
            final(self).artist_release_keys@ == old(self).artist_release_keys@,
            final(self).status@ == old(self).status@,
            same_library(&*final(self), &*old(self)),
    {
        match self.nav.pop() {
            Some(frame) => {
                self.view = frame.parent;
                Some(frame)
            },
            None => None,
        }
    }

    /// Close every detail view.
    pub fn clear_nav(&mut self)
        ensures
            final(self).nav@.len() == 0,
            final(self).view == old(self).view,
            final(self).selected == old(self).selected,
            final(self).focus == old(self).focus,
            final(self).genre_tab == old(self).genre_tab,
            final(self).artist_release_keys@ == old(self).artist_release_keys@,
            final(self).status@ == old(self).status@,
            same_library(&*final(self), &*old(self)),
    {
        self.nav.clear();
    }

    /// Move the selection by `amount`. In the sidebar this moves to another
    /// view, closing every detail view; in the content it moves within the
    /// list, as far as the list allows.
    pub fn move_selection(&mut self, amount: isize)
        requires
            old(self).focus == Focus::Sidebar ==> sidebar_place(sidebar_entry(old(self).view, nav_parent(old(self).nav@))) + amount <= isize::MAX,
            old(self).focus == Focus::Content ==> {
                &&& old(self).selected <= isize::MAX
                &&& isize::MIN <= old(self).selected + amount <= isize::MAX
                &&& item_count(&*old(self)) - 1 <= isize::MAX
            },
        ensures
            old(self).focus == Focus::Sidebar ==> {
                &&& final(self).view == sidebar_views()[crate::tui::shifted(
                    sidebar_place(sidebar_entry(old(self).view, nav_parent(old(self).nav@))),
                    amount as int,
                    14,
                )]
                &&& final(self).nav@.len() == 0
                &&& final(self).selected == 0
            },
            old(self).focus == Focus::Content ==> {
                &&& final(self).view == old(self).view
                &&& final(self).nav@ == old(self).nav@
                &&& final(self).selected == crate::tui::shifted(old(self).selected as int, amount as int, item_count(&*old(self)))
            },
            final(self).focus == old(self).focus,
            final(self).genre_tab == old(self).genre_tab,
            final(self).artist_release_keys@ == old(self).artist_release_keys@,
            final(self).status@ == old(self).status@,
            same_library(&*final(self), &*old(self)),
    {
        if self.focus == Focus::Sidebar {
            let parent = self.nav_parent();
            let entry = match self.view {
                View::ArtistDetail => View::Artists,
                View::GenreDetail => View::Genres,
                View::SmartPlaylistDetail => View::SmartPlaylists,
                View::AlbumDetail => if parent == Some(View::ArtistDetail) {
                    View::Artists
                } else {
                    View::Albums
                },
                view => view,
            };
            let current: usize = match entry {
                View::Home => 0,
                View::Albums => 1,
                View::Artists => 2,
                View::Genres => 3,
                View::Tracks => 4,
                View::Playlists => 5,
                View::SmartPlaylists => 6,
                View::Favorites => 7,
                View::History => 8,
                View::Search => 9,
                View::Queue => 10,
                View::Lyrics => 11,
                View::Settings => 12,
                View::Help => 13,
                _ => 0,
            };
            let next = crate::tui::shifted_index(current, amount, 14);
            self.view = sidebar_view_at(next);
            self.clear_nav();
            self.selected = 0;
        } else {
            let count = self.item_count();
            self.selected = crate::tui::shifted_index(self.selected, amount, count);
        }
    }

    /// How many albums the album grid shows.
    pub fn visible_album_len(&self) -> (n: usize)
        ensures
            n == visible_album_len(self),
    {
        if self.view == View::ArtistDetail {
            self.artist_release_keys.len()
        } else {
            self.albums.len()
        }
    }

    /// The album at a position of the album grid.
    pub fn visible_album_index_at(&self, position: usize) -> (r: Option<usize>)
        ensures
            found_at(r, visible_album_index_at(self, position as int)),
    {
        if self.view == View::ArtistDetail {
            if position < self.artist_release_keys.len() {
                self.album_position(&self.artist_release_keys[position])
            } else {
                None
            }
        } else if position < self.albums.len() {
            Some(position)
        } else {
            None
        }
    }

    fn shares_track(&self, album: usize, ids: &Vec<String>) -> (r: bool)
        requires
            album < self.albums@.len(),
        ensures
            r == exists|k: int|
                0 <= k < self.albums@[album as int].track_ids@.len() && #[trigger] string_views(ids@).contains(
                    self.albums@[album as int].track_ids@[k]@,
                ),
    {
        let tracks = &self.albums[album].track_ids;
        let mut k: usize = 0;
        while k < tracks.len()
            invariant
                album < self.albums@.len(),
                tracks@ == self.albums@[album as int].track_ids@,
                k <= tracks@.len(),
                forall|j: int| 0 <= j < k ==> !#[trigger] string_views(ids@).contains(tracks@[j]@),
            decreases tracks.len() - k,
        {
            if text_in(ids, &tracks[k]) {
                return true;
            }
            k = k + 1;
        }
        false
    }

    /// Work out again the releases of the innermost open artist.
    pub fn refresh_artist_releases(&mut self)
        ensures
            string_views(final(self).artist_release_keys@) == release_keys(&*old(self)),
            final(self).view == old(self).view,
            final(self).nav@ == old(self).nav@,
            final(self).selected == old(self).selected,
            final(self).focus == old(self).focus,
            final(self).genre_tab == old(self).genre_tab,
            final(self).status@ == old(self).status@,
            same_library(&*final(self), &*old(self)),
    {
        let keys = self.release_keys();
        self.artist_release_keys = keys;
    }

    fn release_keys(&self) -> (r: Vec<String>)
        ensures
            string_views(r@) == release_keys(self),
    {
        let name = match self.opened_artist_name() {
            Some(name) => name,
            None => {
                return no_ids();
            },
        };
        let artist = match self.artist_position(name) {
            Some(a) => a,
            None => {
                return no_ids();
            },
        };
        let ids = &self.artists[artist].track_ids;
        let mut out: Vec<String> = Vec::new();
        let mut i: usize = 0;
        assert(string_views(out@) =~= albums_sharing(self.albums@, string_views(ids@), 0));
        while i < self.albums.len()
            invariant
                i <= self.albums@.len(),
                string_views(out@) == albums_sharing(self.albums@, string_views(ids@), i as int),
            decreases self.albums.len() - i,
        {
            if self.shares_track(i, ids) {
                let key = self.albums[i].key.clone();
                let ghost before = out@;
                out.push(key);
                proof {
                    assert(string_views(before).len() == before.len());
                    assert(string_views(out@) =~= string_views(before) + seq![self.albums@[i as int].key@]);
                }
            }
            i = i + 1;
        }
        out
    }
}

/// The view at a place of the sidebar.
fn sidebar_view_at(i: usize) -> (v: View)
    requires
        i < 14,
    ensures
        v == sidebar_views()[i as int],
{
    match i {
        0 => View::Home,
        1 => View::Albums,
        2 => View::Artists,
        3 => View::Genres,
        4 => View::Tracks,
        5 => View::Playlists,
        6 => View::SmartPlaylists,
        7 => View::Favorites,
        8 => View::History,
        9 => View::Search,
        10 => View::Queue,
        11 => View::Lyrics,
        12 => View::Settings,
        _ => View::Help,
    }
}

/// The status line for a translation key.
pub open spec fn status_text(t: &Translator, key: Seq<char>) -> Seq<char> {
    translation(t.english(), t.spanish(), t.active(), key)
}

/// The first place at or after `from` holding `want`.
pub open spec fn first_text_at(s: Seq<Seq<char>>, want: Seq<char>, from: int) -> Option<int>
    decreases s.len() - from,
{
    if from < 0 || from >= s.len() {
        None
    } else if s[from] == want {
        Some(from)
    } else {
        first_text_at(s, want, from + 1)
    }
}

/// The keys of the albums at these places.
pub open spec fn keys_at(b: &Browser, places: Seq<usize>) -> Seq<Seq<char>> {
    Seq::new(places.len(), |k: int| b.albums@[places[k] as int].key@)
}

/// The names of the artists at these places.
pub open spec fn names_at(b: &Browser, places: Seq<usize>) -> Seq<Seq<char>> {
    Seq::new(places.len(), |k: int| b.artists@[places[k] as int].name@)
}

/// `o`, or `d` when there is none.
pub open spec fn or_else(o: Option<int>, d: int) -> int {
    match o {
        Some(v) => v,
        None => d,
    }
}

/// The smaller of `a` and `len - 1`, with an empty list counting as one.
pub open spec fn at_most_last(a: int, len: int) -> int {
    let last = if len > 0 {
        len - 1
    } else {
        0
    };
    if a < last {
        a
    } else {
        last
    }
}

/// The ids among `ids` of tracks that are in the library and available.
pub open spec fn playable(tracks: Seq<Track>, ids: Seq<Seq<char>>) -> Seq<Seq<char>>
    decreases ids.len(),
{
    if ids.len() == 0 {
        seq![]
    } else {
        playable(tracks, ids.drop_last()) + match first_keyed(tracks, track_id_of(), ids.last(), 0) {
            Some(i) => if tracks[i].available {
                seq![ids.last()]
            } else {
                seq![]
            },
            None => seq![],
        }
    }
}

/// The track to start with: none for a list of groups, which plays from
/// its first track; otherwise the track under the selection.
pub open spec fn start_target(b: &Browser) -> Option<Seq<char>> {
    match b.view {
        View::Albums | View::Artists | View::Genres | View::ArtistDetail | View::Playlists
        | View::SmartPlaylists => None,
        View::GenreDetail => if b.genre_tab != 2 {
            None
        } else {
            selected_track_id(b)
        },
        _ => selected_track_id(b),
    }
}

fn first_text_place(s: &Vec<String>, want: &String) -> (r: Option<usize>)
    ensures
        found_at(r, first_text_at(string_views(s@), want@, 0)),
        r matches Some(i) ==> i < s@.len(),
{
    let mut i: usize = 0;
    while i < s.len()
        invariant
            i <= s@.len(),
            first_text_at(string_views(s@), want@, 0) == first_text_at(string_views(s@), want@, i as int),
        decreases s.len() - i,
    {
        if s[i] == *want {
            return Some(i);
        }
        i = i + 1;
    }
    None
}

impl Browser {
    fn album_keys_at(&self, places: &Vec<usize>) -> (r: Vec<String>)
        requires
            forall|k: int| 0 <= k < places@.len() ==> places@[k] < self.albums@.len(),
        ensures
            string_views(r@) == keys_at(self, places@),
    {
        let mut out: Vec<String> = Vec::new();
        let mut i: usize = 0;
        while i < places.len()
            invariant
                i <= places@.len(),
                forall|k: int| 0 <= k < places@.len() ==> places@[k] < self.albums@.len(),
                string_views(out@) == keys_at(self, places@).take(i as int),
            decreases places.len() - i,
        {
            let key = self.albums[places[i]].key.clone();
            let ghost before = out@;
            out.push(key);
            proof {
                assert(string_views(before).len() == before.len());
                assert(string_views(out@) =~= keys_at(self, places@).take(i + 1)) by {
                    assert forall|k: int| 0 <= k < i implies string_views(out@)[k] == keys_at(self, places@).take(i + 1)[k] by {
                        assert(string_views(before)[k] == keys_at(self, places@).take(i as int)[k]);
                    }
                }
            }
            i = i + 1;
        }
        assert(keys_at(self, places@).take(places@.len() as int) =~= keys_at(self, places@));
        out
    }

    fn artist_names_at(&self, places: &Vec<usize>) -> (r: Vec<String>)
        requires
            forall|k: int| 0 <= k < places@.len() ==> places@[k] < self.artists@.len(),
        ensures
            string_views(r@) == names_at(self, places@),
    {
        let mut out: Vec<String> = Vec::new();
        let mut i: usize = 0;
        while i < places.len()
            invariant
                i <= places@.len(),
                forall|k: int| 0 <= k < places@.len() ==> places@[k] < self.artists@.len(),
                string_views(out@) == names_at(self, places@).take(i as int),
            decreases places.len() - i,
        {
            let name = self.artists[places[i]].name.clone();
            let ghost before = out@;
            out.push(name);
            proof {
                assert(string_views(before).len() == before.len());
                assert(string_views(out@) =~= names_at(self, places@).take(i + 1)) by {
                    assert forall|k: int| 0 <= k < i implies string_views(out@)[k] == names_at(self, places@).take(i + 1)[k] by {
                        assert(string_views(before)[k] == names_at(self, places@).take(i as int)[k]);
                    }
                }
            }
            i = i + 1;
        }
        assert(names_at(self, places@).take(places@.len() as int) =~= names_at(self, places@));
        out
    }

    fn all_album_keys(&self) -> (r: Vec<String>)
        ensures
            string_views(r@) == Seq::new(self.albums@.len(), |k: int| self.albums@[k].key@),
    {
        let mut out: Vec<String> = Vec::new();
        let mut i: usize = 0;
        while i < self.albums.len()
            invariant
                i <= self.albums@.len(),
                string_views(out@) == Seq::new(self.albums@.len(), |k: int| self.albums@[k].key@).take(i as int),
            decreases self.albums.len() - i,
        {
            let key = self.albums[i].key.clone();
            let ghost before = out@;
            out.push(key);
            proof {
                let all = Seq::new(self.albums@.len(), |k: int| self.albums@[k].key@);
                assert(string_views(before).len() == before.len());
                assert(string_views(out@) =~= all.take(i + 1)) by {
                    assert forall|k: int| 0 <= k < i implies string_views(out@)[k] == all.take(i + 1)[k] by {
                        assert(string_views(before)[k] == all.take(i as int)[k]);
                    }
                }
            }
            i = i + 1;
        }
        assert(Seq::new(self.albums@.len(), |k: int| self.albums@[k].key@).take(self.albums@.len() as int)
            =~= Seq::new(self.albums@.len(), |k: int| self.albums@[k].key@));
        out
    }

    /// Open the selected artist, listing its releases.
    pub fn open_selected_artist(&mut self, translator: &Translator)
        ensures
            old(self).selected >= old(self).artists@.len() ==> unchanged(&*final(self), &*old(self)),
            old(self).selected < old(self).artists@.len() ==> {
                &&& final(self).nav@ == old(self).nav@.push(NavFrame {
                    target: NavTarget::Artist(old(self).artists@[old(self).selected as int].name),
                    parent: old(self).view,
                    selection: old(self).selected,
                })
                &&& final(self).view == View::ArtistDetail
                &&& final(self).selected == 0
                &&& final(self).status@ == status_text(translator, "status.pick_release"@)
                &&& string_views(final(self).artist_release_keys@) == release_keys(&*final(self))
                &&& same_library(&*final(self), &*old(self))
            },
    {
        if self.selected >= self.artists.len() {
            return;
        }
        let name = self.artists[self.selected].name.clone();
        self.push_nav(NavTarget::Artist(name), View::ArtistDetail);
        self.refresh_artist_releases();
        self.status = lookup(translator, "status.pick_release");
    }

    /// Open the selected album.
    pub fn open_selected_album(&mut self, translator: &Translator)
        ensures
            selected_album(&*old(self)) is None ==> unchanged(&*final(self), &*old(self)),
            selected_album(&*old(self)) matches Some(a) ==> {
                &&& final(self).nav@ == old(self).nav@.push(NavFrame {
                    target: NavTarget::Album(old(self).albums@[a].key),
                    parent: old(self).view,
                    selection: old(self).selected,
                })
                &&& final(self).view == View::AlbumDetail
                &&& final(self).selected == 0
                &&& final(self).status@ == status_text(translator, "status.pick_track"@)
                &&& final(self).artist_release_keys@ == old(self).artist_release_keys@
                &&& same_library(&*final(self), &*old(self))
            },
    {
        let key = match self.selected_album() {
            Some(a) => self.albums[a].key.clone(),
            None => {
                return;
            },
        };
        self.push_nav(NavTarget::Album(key), View::AlbumDetail);
        self.status = lookup(translator, "status.pick_track");
    }

    /// Close an open album and select it again in the list it was opened
    /// from; a rescan may have moved it, so it is looked up by its key.
    pub fn close_album_detail(&mut self)
        ensures
            old(self).view != View::AlbumDetail || old(self).nav@.len() == 0 ==> unchanged(&*final(self), &*old(self)),
            old(self).view == View::AlbumDetail && old(self).nav@.len() > 0 ==> {
                let frame = old(self).nav@.last();
                &&& final(self).nav@ == old(self).nav@.drop_last()
                &&& final(self).view == frame.parent
                &&& same_library(&*final(self), &*old(self))
                &&& final(self).artist_release_keys@ == old(self).artist_release_keys@
                &&& match frame.target {
                    NavTarget::Album(key) => {
                        let found = if frame.parent == View::ArtistDetail {
                            first_text_at(string_views(old(self).artist_release_keys@), key@, 0)
                        } else if frame.parent == View::GenreDetail {
                            first_text_at(keys_at(&*final(self), genre_album_indices(&*final(self))), key@, 0)
                        } else {
                            first_text_at(Seq::new(old(self).albums@.len(), |k: int| old(self).albums@[k].key@), key@, 0)
                        };
                        &&& final(self).selected == at_most_last(or_else(found, frame.selection as int), item_count(&*final(self)))
                        &&& final(self).status@.len() == 0
                    },
                    _ => final(self).selected == old(self).selected && final(self).status@ == old(self).status@,
                }
            },
    {
        if self.view != View::AlbumDetail {
            return;
        }
        let frame = match self.pop_nav() {
            Some(frame) => frame,
            None => {
                return;
            },
        };
        let key = match &frame.target {
            NavTarget::Album(key) => key,
            _ => {
                return;
            },
        };
        let found = if frame.parent == View::ArtistDetail {
            first_text_place(&self.artist_release_keys, key)
        } else if frame.parent == View::GenreDetail {
            let indices = self.genre_album_indices();
            proof {
                match opened_genre_name(self.nav@) {
                    Some(g) => lemma_albums_in_genre_bound(self.albums@, self.genres@, g, self.albums@.len() as int),
                    None => {},
                }
            }
            first_text_place(&self.album_keys_at(&indices), key)
        } else {
            first_text_place(&self.all_album_keys(), key)
        };
        let wanted = match found {
            Some(i) => i,
            None => frame.selection,
        };
        let count = self.item_count();
        let last = if count > 0 {
            count - 1
        } else {
            0
        };
        self.selected = if wanted < last {
            wanted
        } else {
            last
        };
        self.status = String::new();
    }

    /// Close an open artist and select it again in the list it was opened
    /// from; a rescan may have moved it, so it is looked up by its name.
    pub fn close_artist_detail(&mut self)
        ensures
            old(self).view != View::ArtistDetail || old(self).nav@.len() == 0 ==> unchanged(&*final(self), &*old(self)),
            old(self).view == View::ArtistDetail && old(self).nav@.len() > 0 ==> {
                let frame = old(self).nav@.last();
                &&& final(self).nav@ == old(self).nav@.drop_last()
                &&& final(self).view == frame.parent
                &&& same_library(&*final(self), &*old(self))
                &&& match frame.target {
                    NavTarget::Artist(name) => {
                        let found = if frame.parent == View::GenreDetail {
                            first_text_at(names_at(&*final(self), genre_artist_indices(&*final(self))), name@, 0)
                        } else {
                            artist_place(&*final(self), name@)
                        };
                        &&& final(self).selected == at_most_last(or_else(found, frame.selection as int), old(self).artists@.len() as int)
                        &&& string_views(final(self).artist_release_keys@) == release_keys(&*final(self))
                        &&& final(self).status@.len() == 0
                    },
                    _ => final(self).selected == old(self).selected && final(self).status@ == old(self).status@
                        && final(self).artist_release_keys@ == old(self).artist_release_keys@,
                }
            },
    {
        if self.view != View::ArtistDetail {
            return;
        }
        let frame = match self.pop_nav() {
            Some(frame) => frame,
            None => {
                return;
            },
        };
        let name = match &frame.target {
            NavTarget::Artist(name) => name,
            _ => {
                return;
            },
        };
        let found = if frame.parent == View::GenreDetail {
            let indices = self.genre_artist_indices();
            proof {
                match opened_genre_name(self.nav@) {
                    Some(g) => lemma_artists_in_genre_bound(self.artists@, self.genres@, g, self.artists@.len() as int),
                    None => {},
                }
            }
            first_text_place(&self.artist_names_at(&indices), name)
        } else {
            self.artist_position(name)
        };
        let wanted = match found {
            Some(i) => i,
            None => frame.selection,
        };
        let count = self.artists.len();
        let last = if count > 0 {
            count - 1
        } else {
            0
        };
        self.selected = if wanted < last {
            wanted
        } else {
            last
        };
        self.refresh_artist_releases();
        self.status = String::new();
    }
}

/// What playing the selection leaves behind: the playable tracks of the view
/// become the queue, starting at the track under the selection (or, when
/// shuffling, in an order drawn at random with that track first); with
/// nothing playable the queue is left alone and the status says so.
pub open spec fn activated(before: &Browser, after: &Browser, t: &Translator, shuffle: bool, started: bool) -> bool {
    let ids = playable(before.tracks@, view_track_ids(before));
    let target = start_target(before);
    &&& same_catalogue(after, before)
    &&& after.view == before.view
    &&& after.focus == before.focus
    &&& after.selected == before.selected
    &&& after.nav@ == before.nav@
    &&& after.artist_release_keys@ == before.artist_release_keys@
    &&& after.genre_tab == before.genre_tab
    &&& started == (ids.len() > 0)
    &&& !started ==> {
        &&& after.queue@ == before.queue@
        &&& after.queue_index == before.queue_index
        &&& after.status@ == status_text(t, "status.nothing_playable"@)
    }
    &&& started ==> after.status@ == before.status@
    &&& started && !shuffle ==> {
        &&& string_views(after.queue@) == ids
        &&& after.queue_index == Some(
            (match target {
                Some(id) => or_else(first_text_at(ids, id, 0), 0),
                None => 0,
            }) as usize,
        )
    }
    &&& started && shuffle ==> {
        &&& exists|shuffled: Seq<Seq<char>>|
            #![trigger front_first(shuffled, target)]
            shuffled.to_multiset() == ids.to_multiset() && string_views(after.queue@) == front_first(shuffled, target)
        &&& after.queue_index == Some(0usize)
    }
}

/// The view that opening the selection shows, and what it shows; none when
/// the selection is past the end of the list.
pub open spec fn open_target(b: &Browser) -> Option<(NavTarget, View)> {
    let s = b.selected as int;
    match b.view {
        View::Artists => if s < b.artists@.len() {
            Some((NavTarget::Artist(b.artists@[s].name), View::ArtistDetail))
        } else {
            None
        },
        View::Albums | View::ArtistDetail => match selected_album(b) {
            Some(a) => Some((NavTarget::Album(b.albums@[a].key), View::AlbumDetail)),
            None => None,
        },
        View::Genres => if s < b.genres@.len() {
            Some((NavTarget::Genre(b.genres@[s].name), View::GenreDetail))
        } else {
            None
        },
        View::GenreDetail => if b.genre_tab == 0 && s < genre_album_indices(b).len() {
            Some((NavTarget::Album(b.albums@[genre_album_indices(b)[s] as int].key), View::AlbumDetail))
        } else if b.genre_tab == 1 && s < genre_artist_indices(b).len() {
            Some((NavTarget::Artist(b.artists@[genre_artist_indices(b)[s] as int].name), View::ArtistDetail))
        } else {
            None
        },
        View::SmartPlaylists => if s < b.smart_playlists@.len() {
            Some((NavTarget::SmartPlaylist(b.smart_playlists@[s].id), View::SmartPlaylistDetail))
        } else {
            None
        },
        _ => None,
    }
}

/// Whether the selection of this view opens another view rather than
/// playing.
pub open spec fn opens_a_view(b: &Browser) -> bool {
    match b.view {
        View::Artists | View::Albums | View::ArtistDetail | View::Genres | View::SmartPlaylists => true,
        View::GenreDetail => b.genre_tab < 2,
        _ => false,
    }
}

impl Browser {
    fn playable_ids(&self, ids: &Vec<String>) -> (r: Vec<String>)
        ensures
            string_views(r@) == playable(self.tracks@, string_views(ids@)),
    {
        let mut out: Vec<String> = Vec::new();
        let mut i: usize = 0;
        assert(string_views(ids@).take(0) =~= Seq::<Seq<char>>::empty());
        assert(string_views(out@) =~= Seq::<Seq<char>>::empty());
        while i < ids.len()
            invariant
                i <= ids@.len(),
                string_views(out@) == playable(self.tracks@, string_views(ids@).take(i as int)),
            decreases ids.len() - i,
        {
            assert(string_views(ids@).take(i + 1).drop_last() =~= string_views(ids@).take(i as int));
            assert(string_views(ids@).take(i + 1).last() == ids@[i as int]@);
            match self.track_position(&ids[i]) {
                Some(p) => {
                    if self.tracks[p].available {
                        let id = ids[i].clone();
                        let ghost before = out@;
                        out.push(id);
                        proof {
                            assert(string_views(before).len() == before.len());
                            assert(string_views(out@) =~= string_views(before) + seq![ids@[i as int]@]);
                        }
                    }
                },
                None => {},
            }
            i = i + 1;
        }
        assert(string_views(ids@).take(ids@.len() as int) =~= string_views(ids@));
        out
    }

    /// Play the selection: the playable tracks of the view become the queue.
    /// Returns whether there was anything to play.
    pub fn activate_selection(&mut self, translator: &Translator, shuffle: bool, rng: &mut rand::rngs::StdRng) -> (started: bool)
        requires
            old(self).wf(),
        ensures
            activated(&*old(self), &*final(self), translator, shuffle, started),
    {
        let listed = self.view_track_ids();
        let mut ids = self.playable_ids(&listed);
        if ids.len() == 0 {
            self.status = lookup(translator, "status.nothing_playable");
            return false;
        }
        let target = match self.view {
            View::Albums | View::Artists | View::Genres | View::ArtistDetail | View::Playlists
            | View::SmartPlaylists => None,
            View::GenreDetail => if self.genre_tab != 2 {
                None
            } else {
                self.selected_track_id()
            },
            _ => self.selected_track_id(),
        };
        let ghost wanted = crate::text::opt_chars(target);
        assert(wanted == start_target(&*old(self)));
        let start = if shuffle {
            let chosen: Option<&str> = match &target {
                Some(id) => Some(id.as_str()),
                None => None,
            };
            assert(crate::tui::target_view(chosen) == wanted);
            prepare_shuffled_queue(&mut ids, chosen, rng)
        } else {
            match &target {
                Some(id) => match first_text_place(&ids, id) {
                    Some(p) => p,
                    None => 0,
                },
                None => 0,
            }
        };
        self.queue = ids;
        self.queue_index = Some(start);
        true
    }

    /// Open the selection when it stands for a group (an artist, an album,
    /// a genre, a smart playlist), otherwise play it. Returns whether
    /// playing started.
    pub fn activate_or_open(&mut self, translator: &Translator, shuffle: bool, rng: &mut rand::rngs::StdRng) -> (started: bool)
        requires
            old(self).wf(),
        ensures
            opens_a_view(&*old(self)) ==> {
                &&& !started
                &&& same_library(&*final(self), &*old(self))
                &&& match open_target(&*old(self)) {
                    Some((target, view)) => {
                        &&& final(self).nav@ == old(self).nav@.push(NavFrame { target, parent: old(self).view, selection: old(self).selected })
                        &&& final(self).view == view
                        &&& final(self).selected == 0
                        &&& view == View::GenreDetail ==> final(self).genre_tab == 0
                        &&& view == View::ArtistDetail ==> string_views(final(self).artist_release_keys@) == release_keys(&*final(self))
                    },
                    None => unchanged(&*final(self), &*old(self)),
                }
            },
            !opens_a_view(&*old(self)) ==> activated(&*old(self), &*final(self), translator, shuffle, started),
    {
        let s = self.selected;
        if self.view == View::Artists {
            self.open_selected_artist(translator);
            false
        } else if self.view == View::Albums || self.view == View::ArtistDetail {
            self.open_selected_album(translator);
            false
        } else if self.view == View::Genres {
            if s < self.genres.len() {
                let name = self.genres[s].name.clone();
                self.push_nav(NavTarget::Genre(name), View::GenreDetail);
                self.genre_tab = 0;
            }
            false
        } else if self.view == View::GenreDetail && self.genre_tab == 0 {
            let indices = self.genre_album_indices();
            proof {
                match opened_genre_name(self.nav@) {
                    Some(g) => lemma_albums_in_genre_bound(self.albums@, self.genres@, g, self.albums@.len() as int),
                    None => {},
                }
            }
            if s < indices.len() {
                let key = self.albums[indices[s]].key.clone();
                self.push_nav(NavTarget::Album(key), View::AlbumDetail);
            }
            false
        } else if self.view == View::GenreDetail && self.genre_tab == 1 {
            let indices = self.genre_artist_indices();
            proof {
                match opened_genre_name(self.nav@) {
                    Some(g) => lemma_artists_in_genre_bound(self.artists@, self.genres@, g, self.artists@.len() as int),
                    None => {},
                }
            }
            if s < indices.len() {
                let name = self.artists[indices[s]].name.clone();
                self.push_nav(NavTarget::Artist(name), View::ArtistDetail);
                self.refresh_artist_releases();
            }
            false
        } else if self.view == View::SmartPlaylists {
            if s < self.smart_playlists.len() {
                let id = self.smart_playlists[s].id;
                self.push_nav(NavTarget::SmartPlaylist(id), View::SmartPlaylistDetail);
            }
            false
        } else {
            self.activate_selection(translator, shuffle, rng)
        }
    }
}

/// `d * 95`, or the largest `u64` when that does not fit.
pub open spec fn times95(d: u64) -> int {
    if d * 95 > u64::MAX {
        u64::MAX as int
    } else {
        d * 95
    }
}

/// A track to go on with, with when it was last played (0 for never):
/// one left past its first half minute and before 95% of it.
pub open spec fn resume_entry(t: Track, stats: Seq<TrackStats>) -> Option<(i64, Seq<char>)> {
    match stats_for(stats, t.id@) {
        Some(st) => if st.resume_position_ms >= 30_000 && st.resume_position_ms < times95(t.duration_ms) / 100 {
            Some((
                match st.last_played_at {
                    Some(at) => at,
                    None => 0,
                },
                t.id@,
            ))
        } else {
            None
        },
        None => None,
    }
}

/// The tracks to go on with, in library order.
pub open spec fn continuing(tracks: Seq<Track>, stats: Seq<TrackStats>) -> Seq<(i64, Seq<char>)>
    decreases tracks.len(),
{
    if tracks.len() == 0 {
        seq![]
    } else {
        continuing(tracks.drop_last(), stats) + match resume_entry(tracks.last(), stats) {
            Some(e) => seq![e],
            None => seq![],
        }
    }
}

/// Most recently played first.
pub open spec fn played_later() -> spec_fn((i64, Seq<char>), (i64, Seq<char>)) -> bool {
    |a: (i64, Seq<char>), b: (i64, Seq<char>)| a.0 > b.0
}

/// `ids`, followed by the tracks of `rest` not in it yet, until there are
/// twenty.
pub open spec fn add_history(ids: Seq<Seq<char>>, rest: Seq<Seq<char>>) -> Seq<Seq<char>>
    decreases rest.len(),
{
    if rest.len() == 0 {
        ids
    } else {
        let next = if ids.contains(rest[0]) {
            ids
        } else {
            ids.push(rest[0])
        };
        if next.len() >= 20 {
            next
        } else {
            add_history(next, rest.drop_first())
        }
    }
}

/// The home view: up to eight tracks to go on with, most recently played
/// first, then recently played tracks, twenty at most in all.
pub open spec fn home_tracks_for(tracks: Seq<Track>, stats: Seq<TrackStats>, history: Seq<HistoryEntry>) -> Seq<Seq<char>> {
    let ordered = sorted_by(continuing(tracks, stats), played_later());
    let n = if ordered.len() < 8 {
        ordered.len()
    } else {
        8
    };
    add_history(Seq::new(n, |k: int| ordered[k].1), history_ids(history))
}

/// The view of pairs of a time and a track id.
pub open spec fn entry_views(v: Seq<(i64, String)>) -> Seq<(i64, Seq<char>)> {
    Seq::new(v.len(), |k: int| (v[k].0, v[k].1@))
}

fn resume_entry_of(t: &Track, stats: &[TrackStats]) -> (r: Option<(i64, String)>)
    ensures
        match r {
            Some(e) => resume_entry(*t, stats@) == Some((e.0, e.1@)),
            None => resume_entry(*t, stats@) is None,
        },
{
    match stats_lookup(stats, t.id.as_str()) {
        Some(st) => {
            let limit = match t.duration_ms.checked_mul(95) {
                Some(v) => v,
                None => u64::MAX,
            };
            if st.resume_position_ms >= 30_000 && st.resume_position_ms < limit / 100 {
                let at = match st.last_played_at {
                    Some(at) => at,
                    None => 0,
                };
                Some((at, t.id.clone()))
            } else {
                None
            }
        },
        None => None,
    }
}

impl Browser {
    /// Work out again what the home view lists.
    pub fn rebuild_home_tracks(&mut self, stats: &[TrackStats])
        ensures
            string_views(final(self).home_tracks@) == home_tracks_for(old(self).tracks@, stats@, old(self).history@),
            final(self).tracks@ == old(self).tracks@,
            final(self).favorite_indices@ == old(self).favorite_indices@,
            final(self).albums@ == old(self).albums@,
            final(self).artists@ == old(self).artists@,
            final(self).genres@ == old(self).genres@,
            final(self).playlists@ == old(self).playlists@,
            final(self).smart_playlists@ == old(self).smart_playlists@,
            final(self).smart_matches@ == old(self).smart_matches@,
            final(self).history@ == old(self).history@,
            final(self).search_matches@ == old(self).search_matches@,
            final(self).queue@ == old(self).queue@,
            final(self).queue_index == old(self).queue_index,
            final(self).settings_len == old(self).settings_len,
            final(self).view == old(self).view,
            final(self).focus == old(self).focus,
            final(self).selected == old(self).selected,
            final(self).nav@ == old(self).nav@,
            final(self).artist_release_keys@ == old(self).artist_release_keys@,
            final(self).genre_tab == old(self).genre_tab,
            final(self).status@ == old(self).status@,
    {
        let ids = self.home_tracks_from(stats);
        self.home_tracks = ids;
    }

    fn home_tracks_from(&self, stats: &[TrackStats]) -> (r: Vec<String>)
        ensures
            string_views(r@) == home_tracks_for(self.tracks@, stats@, self.history@),
    {
        let ghost before = played_later();
        let mut sorted: Vec<(i64, String)> = Vec::new();
        let mut i: usize = 0;
        assert(self.tracks@.take(0) =~= Seq::<Track>::empty());
        assert(entry_views(sorted@) =~= Seq::<(i64, Seq<char>)>::empty());
        while i < self.tracks.len()
            invariant
                i <= self.tracks@.len(),
                before == played_later(),
                entry_views(sorted@) == sorted_by(continuing(self.tracks@.take(i as int), stats@), before),
            decreases self.tracks.len() - i,
        {
            let ghost done = self.tracks@.take(i as int);
            assert(self.tracks@.take(i + 1).drop_last() =~= done);
            assert(self.tracks@.take(i + 1).last() == self.tracks@[i as int]);
            match resume_entry_of(&self.tracks[i], stats) {
                Some(entry) => {
                    let mut p: usize = 0;
                    while p < sorted.len() && !(entry.0 > sorted[p].0)
                        invariant
                            p <= sorted@.len(),
                            forall|j: int| 0 <= j < p ==> !(entry.0 > (#[trigger] sorted@[j]).0),
                        decreases sorted.len() - p,
                    {
                        p = p + 1;
                    }
                    let ghost old_sorted = entry_views(sorted@);
                    let ghost e = (entry.0, entry.1@);
                    proof {
                        assert forall|j: int| 0 <= j < p implies !before(e, #[trigger] old_sorted[j]) by {
                            assert(old_sorted[j].0 == sorted@[j].0);
                        }
                        if p < sorted@.len() {
                            assert(old_sorted[p as int].0 == sorted@[p as int].0);
                        }
                        lemma_insert_by_at(old_sorted, e, before, p as int);
                        lemma_sorted_by_push(continuing(done, stats@), e, before);
                        assert(continuing(self.tracks@.take(i + 1), stats@) == continuing(done, stats@).push(e));
                    }
                    let ghost raw = sorted@;
                    sorted.insert(p, entry);
                    proof {
                        assert(sorted@ == raw.insert(p as int, entry));
                        assert(entry_views(sorted@) =~= old_sorted.take(p as int) + seq![e] + old_sorted.skip(p as int));
                    }
                },
                None => {
                    proof {
                        assert(continuing(self.tracks@.take(i + 1), stats@) =~= continuing(done, stats@));
                    }
                },
            }
            i = i + 1;
        }
        assert(self.tracks@.take(self.tracks@.len() as int) =~= self.tracks@);
        let ghost ordered = entry_views(sorted@);
        let count: usize = if sorted.len() < 8 {
            sorted.len()
        } else {
            8
        };
        let mut ids: Vec<String> = Vec::new();
        let mut k: usize = 0;
        while k < count
            invariant
                k <= count,
                count <= sorted@.len(),
                ordered == entry_views(sorted@),
                string_views(ids@) == Seq::new(count as nat, |j: int| ordered[j].1).take(k as int),
            decreases count - k,
        {
            let id = sorted[k].1.clone();
            let ghost prior = ids@;
            ids.push(id);
            proof {
                let first = Seq::new(count as nat, |j: int| ordered[j].1);
                assert(string_views(prior).len() == prior.len());
                assert(string_views(ids@) =~= first.take(k + 1)) by {
                    assert forall|j: int| 0 <= j < k implies string_views(ids@)[j] == first.take(k + 1)[j] by {
                        assert(string_views(prior)[j] == first.take(k as int)[j]);
                    }
                }
            }
            k = k + 1;
        }
        let ghost first = Seq::new(count as nat, |j: int| ordered[j].1);
        assert(first.take(count as int) =~= first);
        let ghost target = home_tracks_for(self.tracks@, stats@, self.history@);
        let ghost hist = history_ids(self.history@);
        assert(target == add_history(first, hist));
        assert(hist.skip(0) =~= hist);
        let mut h: usize = 0;
        while h < self.history.len()
            invariant
                h <= self.history@.len(),
                hist == history_ids(self.history@),
                target == home_tracks_for(self.tracks@, stats@, self.history@),
                target == add_history(string_views(ids@), hist.skip(h as int)),
            decreases self.history.len() - h,
        {
            let ghost rest = hist.skip(h as int);
            assert(rest[0] == self.history@[h as int].track_id@);
            assert(rest.drop_first() =~= hist.skip(h + 1));
            let ghost cur = string_views(ids@);
            let seen = text_in(&ids, &self.history[h].track_id);
            if !seen {
                let id = self.history[h].track_id.clone();
                let ghost prior = ids@;
                ids.push(id);
                proof {
                    assert(string_views(prior).len() == prior.len());
                    assert(string_views(ids@) =~= string_views(prior).push(rest[0]));
                }
            }
            let ghost next = if cur.contains(rest[0]) {
                cur
            } else {
                cur.push(rest[0])
            };
            assert(string_views(ids@) == next);
            assert(string_views(ids@).len() == ids@.len());
            assert(add_history(cur, rest) == if next.len() >= 20 {
                next
            } else {
                add_history(next, rest.drop_first())
            });
            if ids.len() >= 20 {
                return ids;
            }
            assert(string_views(ids@).len() == ids@.len());
            h = h + 1;
        }
        assert(hist.skip(self.history@.len() as int) =~= Seq::<Seq<char>>::empty());
        ids
    }
}

impl Browser {
    /// Take the results of a search, unless a newer search has started
    /// since; in the search view the selection is kept within them.
    pub fn handle_search_result(&mut self, generation: u64, matches: Vec<usize>)
        requires
            forall|k: int| 0 <= k < matches@.len() ==> matches@[k] < old(self).tracks@.len(),
        ensures
            generation != old(self).search_generation ==> unchanged(&*final(self), &*old(self))
                && final(self).search_generation == old(self).search_generation,
            generation == old(self).search_generation ==> {
                &&& final(self).search_matches@ == matches@
                &&& final(self).view == View::Search ==> final(self).selected == at_most_last(old(self).selected as int, matches@.len() as int)
                &&& final(self).view != View::Search ==> final(self).selected == old(self).selected
                &&& final(self).view == old(self).view
                &&& final(self).nav@ == old(self).nav@
                &&& final(self).search_generation == old(self).search_generation
            },
            final(self).tracks@ == old(self).tracks@,
            final(self).queue@ == old(self).queue@,
            final(self).status@ == old(self).status@,
    {
        if generation != self.search_generation {
            return;
        }
        let len = matches.len();
        self.search_matches = matches;
        if self.view == View::Search {
            let last = if len > 0 {
                len - 1
            } else {
                0
            };
            if self.selected > last {
                self.selected = last;
            }
        }
    }
}

/// The track under the selection, as a place in `tracks`.
pub open spec fn selected_place(b: &Browser) -> Option<int> {
    place_of_text(b, selected_track_id(b))
}

/// The track the detail pane describes: in an album or an artist the one
/// under the selection, else the one playing, each falling back on the
/// other.
pub open spec fn detail_place(b: &Browser) -> Option<int> {
    if b.view == View::AlbumDetail || b.view == View::ArtistDetail {
        match selected_place(b) {
            Some(p) => Some(p),
            None => current_place(b),
        }
    } else {
        match current_place(b) {
            Some(p) => Some(p),
            None => selected_place(b),
        }
    }
}

impl Browser {
    /// The track under the selection.
    pub fn selected_track(&self) -> (r: Option<usize>)
        requires
            self.wf(),
        ensures
            found_at(r, selected_place(self)),
            r matches Some(i) ==> i < self.tracks@.len(),
    {
        match self.selected_track_id() {
            Some(id) => self.track_position(&id),
            None => None,
        }
    }

    /// The track the detail pane describes.
    pub fn detail_track(&self) -> (r: Option<&Track>)
        requires
            self.wf(),
        ensures
            match r {
                Some(t) => exists|p: int| detail_place(self) == Some(p) && *t == self.tracks@[p],
                None => detail_place(self) is None,
            },
    {
        let selected = self.selected_track();
        let detail_first = self.view == View::AlbumDetail || self.view == View::ArtistDetail;
        if detail_first {
            match selected {
                Some(p) => Some(&self.tracks[p]),
                None => self.current_track(),
            }
        } else {
            match self.current_track() {
                Some(t) => Some(t),
                None => match selected {
                    Some(p) => Some(&self.tracks[p]),
                    None => None,
                },
            }
        }
    }

    /// Start a new search for `query`: results of any earlier search are
    /// dropped, and a number for the new one is handed out, unless the query
    /// is blank, which lists nothing.
    pub fn begin_search(&mut self, query: &str) -> (generation: Option<u64>)
        ensures
            final(self).search_generation == (if old(self).search_generation == u64::MAX {
                0
            } else {
                old(self).search_generation + 1
            }),
            final(self).search_matches@.len() == 0,
            generation == if crate::text::trim(query@).len() == 0 {
                None
            } else {
                Some(final(self).search_generation)
            },
            final(self).tracks@ == old(self).tracks@,
            final(self).view == old(self).view,
            final(self).selected == old(self).selected,
            final(self).nav@ == old(self).nav@,
            final(self).queue@ == old(self).queue@,
            final(self).status@ == old(self).status@,
    {
        self.search_generation = if self.search_generation == u64::MAX {
            0
        } else {
            self.search_generation + 1
        };
        self.search_matches.clear();
        let trimmed = crate::text::trim_chars(&crate::text::chars_of(query));
        if trimmed.len() == 0 {
            None
        } else {
            Some(self.search_generation)
        }
    }
}
} // verus!
