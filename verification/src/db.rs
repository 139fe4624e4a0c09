//! The records the library database reads and writes, and the grouping of
//! tracks into albums and artists that the browser shows.
//!
//! The database itself is SQLite and lives with the program; what it is
//! asked to store, and what is built from what it returns, is decided here.

use vstd::prelude::*;

use crate::grouping::{by_pair, by_text, lemma_pair_order, lemma_text_order, lemma_upsert_at, strict_total, text_less, upsert};
use crate::model::{unknown_artist, Album, Artist, Track};
use crate::library::{same_chars_ignoring_case, same_ignoring_ascii_case};
use crate::text::{chars_eq, chars_of, opt_chars, string_of, string_views};
use crate::unicode::{lowercase_text, to_lowercase};

verus! {

/// A track as a scan found it, with what identifies the file's version.
#[derive(Debug, Clone)]
pub struct ScannedTrack {
    pub track: Track,
    pub file_size: u64,
    pub modified_ns: i64,
}

/// One step of listening to a track, as the player reports it.
#[derive(Debug, Clone, Copy)]
pub struct HistoryUpdate<'a> {
    pub history_id: i64,
    pub track_id: &'a str,
    pub listened_delta_ms: u64,
    pub position_ms: u64,
    pub was_counted: bool,
    pub count_now: bool,
    pub completed: bool,
}

/// What a history update writes: the history row's listened time and
/// position, and what is added to the track's statistics. SQLite integers
/// are signed, so times are capped at `i64::MAX`.
#[derive(Debug, Clone, Copy, PartialEq, Eq, Structural)]
pub struct HistoryWrite {
    pub listened_delta_ms: i64,
    pub position_ms: i64,
    /// One play is counted the first time a listen is counted, and never again.
    pub play_increment: i64,
    /// Where to resume: nowhere once the track was heard to the end.
    pub resume_position_ms: i64,
}

/// `min(v, i64::MAX)`.
pub open spec fn sql_int(v: u64) -> i64 {
    if v > i64::MAX as u64 {
        i64::MAX
    } else {
        v as i64
    }
}

fn cap_sql(v: u64) -> (r: i64)
    ensures
        r == sql_int(v),
{
    if v > i64::MAX as u64 {
        i64::MAX
    } else {
        v as i64
    }
}

/// What a history update writes.
pub fn history_write(update: &HistoryUpdate) -> (w: HistoryWrite)
    ensures
        w.listened_delta_ms == sql_int(update.listened_delta_ms),
        w.position_ms == sql_int(update.position_ms),
        w.play_increment == if update.count_now && !update.was_counted {
            1i64
        } else {
            0i64
        },
        w.resume_position_ms == if update.completed {
            0i64
        } else {
            sql_int(update.position_ms)
        },
{
    HistoryWrite {
        listened_delta_ms: cap_sql(update.listened_delta_ms),
        position_ms: cap_sql(update.position_ms),
        play_increment: if update.count_now && !update.was_counted {
            1
        } else {
            0
        },
        resume_position_ms: if update.completed {
            0
        } else {
            cap_sql(update.position_ms)
        },
    }
}

/// What the doctor reports of the library's rows.
#[derive(Debug, Clone)]
pub struct LibraryHealth {
    pub tracks: usize,
    pub unavailable_tracks: usize,
    pub missing_tracks_on_available_sources: usize,
    /// The number of distinct cover files that tracks point to and that are
    /// not there.
    pub dangling_covers: usize,
    /// Each source's root and whether it is connected.
    pub sources: Vec<(String, bool)>,
}

/// One track row as the health check sees it: whether its source is
/// connected and mounted, whether its file is there, and its cover with
/// whether that file is there.
#[derive(Debug, Clone)]
pub struct HealthRow {
    pub source_available: bool,
    pub source_mounted: bool,
    pub file_present: bool,
    pub cover: Option<(String, bool)>,
}

/// Whether a row is a track missing from a connected source.
pub open spec fn missing_on_connected(row: HealthRow) -> bool {
    row.source_available && row.source_mounted && !row.file_present
}

/// The number of rows missing from connected sources.
pub open spec fn missing_count(rows: Seq<HealthRow>) -> nat
    decreases rows.len(),
{
    if rows.len() == 0 {
        0
    } else {
        missing_count(rows.drop_last()) + if missing_on_connected(rows.last()) {
            1nat
        } else {
            0nat
        }
    }
}

/// Whether a row points to the cover `p` and that file is not there.
pub open spec fn dangles(row: HealthRow, p: Seq<char>) -> bool {
    match row.cover {
        Some(c) => c.0@ == p && !c.1,
        None => false,
    }
}

/// The cover paths that rows point to and that are not there.
pub open spec fn dangling_set(rows: Seq<HealthRow>) -> Set<Seq<char>> {
    Set::new(|p: Seq<char>| exists|i: int| 0 <= i < rows.len() && #[trigger] dangles(rows[i], p))
}

proof fn lemma_dangling_step(rows: Seq<HealthRow>, row: HealthRow)
    ensures
        dangling_set(rows.push(row)) == match row.cover {
            Some(c) => if !c.1 {
                dangling_set(rows).insert(c.0@)
            } else {
                dangling_set(rows)
            },
            None => dangling_set(rows),
        },
{
    let after = rows.push(row);
    let target = match row.cover {
        Some(c) => if !c.1 {
            dangling_set(rows).insert(c.0@)
        } else {
            dangling_set(rows)
        },
        None => dangling_set(rows),
    };
    assert forall|p: Seq<char>| #[trigger] dangling_set(after).contains(p) implies target.contains(p) by {
        let k = choose|k: int| 0 <= k < after.len() && #[trigger] dangles(after[k], p);
        if k < rows.len() {
            assert(after[k] == rows[k]);
            assert(dangling_set(rows).contains(p));
        }
    }
    assert forall|p: Seq<char>| target.contains(p) implies #[trigger] dangling_set(after).contains(p) by {
        if dangling_set(rows).contains(p) {
            let k = choose|k: int| 0 <= k < rows.len() && #[trigger] dangles(rows[k], p);
            assert(after[k] == rows[k]);
            assert(dangles(after[k], p));
        } else {
            assert(dangles(after[rows.len() as int], p));
        }
    }
    assert(dangling_set(after) =~= target);
}

pub proof fn lemma_to_set_push(s: Seq<Seq<char>>, x: Seq<char>)
    ensures
        s.push(x).to_set() == s.to_set().insert(x),
{
    let t = s.push(x);
    assert forall|p: Seq<char>| #[trigger] t.to_set().contains(p) implies s.to_set().insert(x).contains(p) by {
        let j = choose|j: int| 0 <= j < t.len() && t[j] == p;
        if j < s.len() {
            assert(s[j] == p);
        }
    }
    assert forall|p: Seq<char>| s.to_set().insert(x).contains(p) implies #[trigger] t.to_set().contains(p) by {
        if p == x {
            assert(t[s.len() as int] == p);
        } else {
            let j = choose|j: int| 0 <= j < s.len() && s[j] == p;
            assert(t[j] == p);
        }
    }
    assert(t.to_set() =~= s.to_set().insert(x));
}

fn contains_text(items: &Vec<Vec<char>>, x: &Vec<char>) -> (b: bool)
    ensures
        b == crate::text::vec_views(items@).contains(x@),
{
    let mut i: usize = 0;
    while i < items.len()
        invariant
            i <= items@.len(),
            forall|j: int| 0 <= j < i ==> items@[j]@ != x@,
        decreases items.len() - i,
    {
        if chars_eq(&items[i], x) {
            assert(crate::text::vec_views(items@)[i as int] == x@);
            return true;
        }
        i = i + 1;
    }
    assert(!crate::text::vec_views(items@).contains(x@)) by {
        if crate::text::vec_views(items@).contains(x@) {
            let j = choose|j: int| 0 <= j < items@.len() && crate::text::vec_views(items@)[j] == x@;
            assert(items@[j]@ == x@);
        }
    }
    false
}

/// The health report from the counts and rows the database returned.
pub fn library_health(
    tracks: usize,
    unavailable_tracks: usize,
    sources: Vec<(String, bool)>,
    rows: &[HealthRow],
) -> (h: LibraryHealth)
    ensures
        h.tracks == tracks,
        h.unavailable_tracks == unavailable_tracks,
        h.missing_tracks_on_available_sources == missing_count(rows@),
        h.dangling_covers == dangling_set(rows@).len(),
        h.sources@ == sources@,
{
    let mut missing: usize = 0;
    let mut dangling: Vec<Vec<char>> = Vec::new();
    let mut i: usize = 0;
    while i < rows.len()
        invariant
            i <= rows@.len(),
            missing == missing_count(rows@.take(i as int)),
            missing <= i,
            crate::text::vec_views(dangling@).no_duplicates(),
            crate::text::vec_views(dangling@).to_set() == dangling_set(rows@.take(i as int)),
        decreases rows.len() - i,
    {
        let row = &rows[i];
        let ghost before = rows@.take(i as int);
        let ghost after = rows@.take(i + 1);
        proof {
            assert(after.drop_last() =~= before);
            assert(after.last() == rows@[i as int]);
        }
        if row.source_available && row.source_mounted && !row.file_present {
            missing = missing + 1;
        }
        let ghost old_views = crate::text::vec_views(dangling@);
        proof {
            lemma_dangling_step(before, rows@[i as int]);
        }
        match &row.cover {
            Some(c) => {
                if !c.1 {
                    let path = chars_of(c.0.as_str());
                    if !contains_text(&dangling, &path) {
                        dangling.push(path);
                        assert(crate::text::vec_views(dangling@) =~= old_views.push(c.0@));
                        proof {
                            lemma_to_set_push(old_views, c.0@);
                        }
                    } else {
                        assert(old_views.to_set().insert(c.0@) =~= old_views.to_set());
                    }
                }
            },
            None => {},
        }
        i = i + 1;
    }
    assert(rows@.take(rows@.len() as int) =~= rows@);
    proof {
        crate::text::vec_views(dangling@).unique_seq_to_set();
    }
    LibraryHealth {
        tracks,
        unavailable_tracks,
        missing_tracks_on_available_sources: missing,
        dangling_covers: dangling.len(),
        sources,
    }
}

/// An album as text and numbers.
pub struct AlbumView {
    pub key: Seq<char>,
    pub title: Seq<char>,
    pub artist: Seq<char>,
    pub year: Option<i32>,
    pub cover_path: Option<Seq<char>>,
    pub track_ids: Seq<Seq<char>>,
    pub available_tracks: nat,
}

impl View for Album {
    type V = AlbumView;

    open spec fn view(&self) -> AlbumView {
        AlbumView {
            key: self.key@,
            title: self.title@,
            artist: self.artist@,
            year: self.year,
            cover_path: opt_chars(self.cover_path),
            track_ids: string_views(self.track_ids@),
            available_tracks: self.available_tracks as nat,
        }
    }
}

/// The artist an album is filed under: its album artist, or the track's
/// artist where there is none.
pub open spec fn album_artist_of(t: Track) -> Seq<char> {
    if t.album_artist@.len() == 0 {
        t.artist@
    } else {
        t.album_artist@
    }
}

/// What identifies an album: its artist and title, lower-cased.
pub open spec fn album_key_of(t: Track) -> (Seq<char>, Seq<char>) {
    (lowercase_text(album_artist_of(t)), lowercase_text(t.album@))
}

/// The album a track starts.
pub open spec fn fresh_album(t: Track) -> AlbumView {
    let k = album_key_of(t);
    AlbumView {
        key: k.0 + seq!['\u{1f}'] + k.1,
        title: t.album@,
        artist: album_artist_of(t),
        year: t.year,
        cover_path: opt_chars(t.cover_path),
        track_ids: seq![t.id@],
        available_tracks: if t.available {
            1
        } else {
            0
        },
    }
}

/// A track added to its album: its id appended, counted if available, and
/// its cover taken if the album has none yet.
pub open spec fn add_to_album(t: Track) -> spec_fn(AlbumView) -> AlbumView {
    |a: AlbumView|
        AlbumView {
            key: a.key,
            title: a.title,
            artist: a.artist,
            year: a.year,
            cover_path: if a.cover_path is None {
                opt_chars(t.cover_path)
            } else {
                a.cover_path
            },
            track_ids: a.track_ids.push(t.id@),
            available_tracks: a.available_tracks + if t.available {
                1nat
            } else {
                0nat
            },
        }
}

/// The albums of the tracks under their keys, in key order.
pub open spec fn album_groups(tracks: Seq<Track>) -> Seq<((Seq<char>, Seq<char>), AlbumView)>
    decreases tracks.len(),
{
    if tracks.len() == 0 {
        seq![]
    } else {
        let t = tracks.last();
        upsert(album_groups(tracks.drop_last()), album_key_of(t), by_pair(), fresh_album(t), add_to_album(t))
    }
}

/// The albums as `group_albums` returns them: one per album key, in key
/// order, each named and dated as its first track has it.
pub open spec fn albums_spec(tracks: Seq<Track>) -> Seq<AlbumView> {
    let gs = album_groups(tracks);
    Seq::new(gs.len(), |i: int| gs[i].1)
}

/// The album keys and albums side by side.
pub open spec fn keyed_albums(
    artists: Seq<Vec<char>>,
    titles: Seq<Vec<char>>,
    albums: Seq<Album>,
) -> Seq<((Seq<char>, Seq<char>), AlbumView)> {
    Seq::new(albums.len(), |i: int| ((artists[i]@, titles[i]@), albums[i]@))
}

fn pair_less(a0: &[char], a1: &[char], b0: &[char], b1: &[char]) -> (r: bool)
    ensures
        r == crate::grouping::pair_lt((a0@, a1@), (b0@, b1@)),
{
    text_less(a0, b0) || (chars_eq(a0, b0) && text_less(a1, b1))
}

fn clone_opt(o: &Option<String>) -> (r: Option<String>)
    ensures
        opt_chars(r) == opt_chars(*o),
{
    match o {
        Some(s) => Some(s.clone()),
        None => None,
    }
}

proof fn lemma_string_views_push(v: Seq<String>, x: String)
    ensures
        string_views(v.push(x)) == string_views(v).push(x@),
{
    assert(string_views(v.push(x)) =~= string_views(v).push(x@));
}

/// The albums of the tracks, as the album browser lists them.
pub fn group_albums(tracks: &[Track]) -> (albums: Vec<Album>)
    ensures
        Seq::new(albums@.len(), |i: int| albums@[i]@) == albums_spec(tracks@),
{
    let mut artist_keys: Vec<Vec<char>> = Vec::new();
    let mut title_keys: Vec<Vec<char>> = Vec::new();
    let mut albums: Vec<Album> = Vec::new();
    let mut i: usize = 0;
    proof {
        lemma_pair_order();
        assert(keyed_albums(artist_keys@, title_keys@, albums@) =~= album_groups(tracks@.take(0)));
    }
    while i < tracks.len()
        invariant
            i <= tracks@.len(),
            artist_keys@.len() == albums@.len(),
            title_keys@.len() == albums@.len(),
            strict_total(by_pair()),
            keyed_albums(artist_keys@, title_keys@, albums@) == album_groups(tracks@.take(i as int)),
            forall|j: int| 0 <= j < albums@.len() ==> (#[trigger] albums@[j]).available_tracks <= albums@[j].track_ids@.len(),
        decreases tracks.len() - i,
    {
        let t = &tracks[i];
        let ghost tv = tracks@.take(i + 1);
        proof {
            assert(tv.drop_last() =~= tracks@.take(i as int));
            assert(tv.last() == *t);
        }
        let artist: &String = if t.album_artist.as_str().is_empty() {
            &t.artist
        } else {
            &t.album_artist
        };
        assert(artist@ == album_artist_of(*t));
        let k0 = chars_of(to_lowercase(artist.as_str()).as_str());
        let k1 = chars_of(to_lowercase(t.album.as_str()).as_str());
        let ghost key = (k0@, k1@);
        assert(key == album_key_of(*t));
        let ghost gs = keyed_albums(artist_keys@, title_keys@, albums@);
        let mut p: usize = 0;
        while p < albums.len() && pair_less(&artist_keys[p], &title_keys[p], &k0, &k1)
            invariant
                p <= albums@.len(),
                artist_keys@.len() == albums@.len(),
                title_keys@.len() == albums@.len(),
                gs == keyed_albums(artist_keys@, title_keys@, albums@),
                key == (k0@, k1@),
                forall|j: int| 0 <= j < p ==> #[trigger] by_pair()(gs[j].0, key),
            decreases albums.len() - p,
        {
            assert(gs[p as int].0 == (artist_keys@[p as int]@, title_keys@[p as int]@));
            p = p + 1;
        }
        proof {
            if p < albums@.len() {
                assert(gs[p as int].0 == (artist_keys@[p as int]@, title_keys@[p as int]@));
            }
            lemma_upsert_at(gs, key, by_pair(), fresh_album(*t), add_to_album(*t), p as int);
        }
        if p < albums.len() && chars_eq(&artist_keys[p], &k0) && chars_eq(&title_keys[p], &k1) {
            let ghost old_albums = albums@;
            let mut a = albums.remove(p);
            let ghost a_old = a@;
            assert(a.available_tracks <= a.track_ids@.len()) by {
                assert(old_albums[p as int] == a);
            }
            let ghost ids = a.track_ids@;
            let id = t.id.clone();
            a.track_ids.push(id);
            proof {
                lemma_string_views_push(ids, id);
            }
            let n = a.track_ids.len();
            assert(a.available_tracks < n);
            if t.available {
                a.available_tracks = a.available_tracks + 1;
            }
            if a.cover_path.is_none() {
                a.cover_path = clone_opt(&t.cover_path);
            }
            assert(a@ == add_to_album(*t)(a_old));
            albums.insert(p, a);
            proof {
                assert(albums@ =~= old_albums.update(p as int, a));
                assert(keyed_albums(artist_keys@, title_keys@, albums@) =~= gs.take(p as int) + seq![
                    (key, add_to_album(*t)(gs[p as int].1)),
                ] + gs.skip(p + 1));
                assert forall|j: int| 0 <= j < albums@.len() implies (#[trigger] albums@[j]).available_tracks
                    <= albums@[j].track_ids@.len() by {
                    if j != p {
                        assert(albums@[j] == old_albums[j]);
                    }
                }
            }
        } else {
            let ghost old_albums = albums@;
            let mut ids: Vec<String> = Vec::new();
            ids.push(t.id.clone());
            let mut key_text = k0.clone();
            key_text.push('\u{1f}');
            let mut j: usize = 0;
            let ghost head = key_text@;
            while j < k1.len()
                invariant
                    j <= k1@.len(),
                    key_text@ == head + k1@.take(j as int),
                decreases k1.len() - j,
            {
                key_text.push(k1[j]);
                j = j + 1;
                assert(key_text@ =~= head + k1@.take(j as int));
            }
            assert(k1@.take(k1@.len() as int) =~= k1@);
            let a = Album {
                key: string_of(&key_text),
                title: t.album.clone(),
                artist: artist.clone(),
                year: t.year,
                cover_path: clone_opt(&t.cover_path),
                track_ids: ids,
                available_tracks: if t.available {
                    1
                } else {
                    0
                },
            };
            proof {
                assert(string_views(ids@) =~= seq![t.id@]);
                assert(a.key@ == k0@ + seq!['\u{1f}'] + k1@);
                assert(a@.key == fresh_album(*t).key);
                assert(a@.track_ids == fresh_album(*t).track_ids);
                assert(a@.cover_path == fresh_album(*t).cover_path);
                assert(a@.available_tracks == fresh_album(*t).available_tracks);
                assert(a@ == fresh_album(*t));
            }
            artist_keys.insert(p, k0);
            title_keys.insert(p, k1);
            albums.insert(p, a);
            proof {
                assert(keyed_albums(artist_keys@, title_keys@, albums@) =~= gs.take(p as int) + seq![
                    (key, fresh_album(*t)),
                ] + gs.skip(p as int));
                assert forall|j: int| 0 <= j < albums@.len() implies (#[trigger] albums@[j]).available_tracks
                    <= albums@[j].track_ids@.len() by {
                    if j < p {
                        assert(albums@[j] == old_albums[j]);
                    } else if j > p {
                        assert(albums@[j] == old_albums[j - 1]);
                    }
                }
            }
        }
        i = i + 1;
    }
    assert(tracks@.take(tracks@.len() as int) =~= tracks@);
    assert(Seq::new(albums@.len(), |i: int| albums@[i]@) =~= albums_spec(tracks@));
    albums
}

/// An artist as text and numbers.
pub struct ArtistView {
    pub name: Seq<char>,
    pub track_ids: Seq<Seq<char>>,
    pub album_count: nat,
}

impl View for Artist {
    type V = ArtistView;

    open spec fn view(&self) -> ArtistView {
        ArtistView {
            name: self.name@,
            track_ids: string_views(self.track_ids@),
            album_count: self.album_count as nat,
        }
    }
}

/// The name a track is listed under among artists.
pub open spec fn artist_name_of(t: Track) -> Seq<char> {
    if t.artist@.len() == 0 {
        unknown_artist()
    } else {
        t.artist@
    }
}

/// An artist's tracks, and the lower-cased titles of its albums.
pub type ArtistTally = (Seq<Seq<char>>, Set<Seq<char>>);

/// The artist a track starts.
pub open spec fn fresh_artist(t: Track) -> ArtistTally {
    (seq![t.id@], set![lowercase_text(t.album@)])
}

/// A track added to its artist.
pub open spec fn add_to_artist(t: Track) -> spec_fn(ArtistTally) -> ArtistTally {
    |v: ArtistTally| (v.0.push(t.id@), v.1.insert(lowercase_text(t.album@)))
}

/// The artists of the tracks under their names, in name order.
pub open spec fn artist_groups(tracks: Seq<Track>) -> Seq<(Seq<char>, ArtistTally)>
    decreases tracks.len(),
{
    if tracks.len() == 0 {
        seq![]
    } else {
        let t = tracks.last();
        upsert(artist_groups(tracks.drop_last()), artist_name_of(t), by_text(), fresh_artist(t), add_to_artist(t))
    }
}

/// The artists as `group_artists` returns them: one per name, in name order,
/// with their tracks in library order and the number of distinct albums
/// (by lower-cased title) among them.
pub open spec fn artists_spec(tracks: Seq<Track>) -> Seq<ArtistView> {
    let gs = artist_groups(tracks);
    Seq::new(gs.len(), |i: int| ArtistView { name: gs[i].0, track_ids: gs[i].1.0, album_count: gs[i].1.1.len() })
}

/// The artists being built, with the albums seen for each.
pub open spec fn keyed_artists(
    names: Seq<Vec<char>>,
    artists: Seq<Artist>,
    albums: Seq<Vec<Vec<char>>>,
) -> Seq<(Seq<char>, ArtistTally)> {
    Seq::new(
        artists.len(),
        |i: int| (names[i]@, (string_views(artists[i].track_ids@), crate::text::vec_views(albums[i]@).to_set())),
    )
}

/// The artists of the tracks, as the artist browser lists them.
pub fn group_artists(tracks: &[Track]) -> (artists: Vec<Artist>)
    ensures
        Seq::new(artists@.len(), |i: int| artists@[i]@) == artists_spec(tracks@),
{
    let mut names: Vec<Vec<char>> = Vec::new();
    let mut artists: Vec<Artist> = Vec::new();
    let mut albums: Vec<Vec<Vec<char>>> = Vec::new();
    let mut i: usize = 0;
    proof {
        lemma_text_order();
        assert(keyed_artists(names@, artists@, albums@) =~= artist_groups(tracks@.take(0)));
    }
    while i < tracks.len()
        invariant
            i <= tracks@.len(),
            names@.len() == artists@.len(),
            albums@.len() == artists@.len(),
            strict_total(by_text()),
            keyed_artists(names@, artists@, albums@) == artist_groups(tracks@.take(i as int)),
            forall|j: int| 0 <= j < artists@.len() ==> (#[trigger] artists@[j]).name@ == names@[j]@,
            forall|j: int| 0 <= j < artists@.len() ==> (#[trigger] artists@[j]).album_count == albums@[j]@.len(),
            forall|j: int| 0 <= j < albums@.len() ==> crate::text::vec_views((#[trigger] albums@[j])@).no_duplicates(),
        decreases tracks.len() - i,
    {
        let t = &tracks[i];
        let ghost tv = tracks@.take(i + 1);
        proof {
            assert(tv.drop_last() =~= tracks@.take(i as int));
            assert(tv.last() == *t);
        }
        let name: Vec<char> = if t.artist.as_str().is_empty() {
            proof {
                reveal_strlit("Unknown Artist");
            }
            chars_of("Unknown Artist")
        } else {
            chars_of(t.artist.as_str())
        };
        assert(name@ == artist_name_of(*t));
        let album_key = chars_of(to_lowercase(t.album.as_str()).as_str());
        let ghost gs = keyed_artists(names@, artists@, albums@);
        let mut p: usize = 0;
        while p < names.len() && text_less(&names[p], &name)
            invariant
                p <= names@.len(),
                names@.len() == artists@.len(),
                albums@.len() == artists@.len(),
                gs == keyed_artists(names@, artists@, albums@),
                forall|j: int| 0 <= j < p ==> #[trigger] by_text()(gs[j].0, name@),
            decreases names.len() - p,
        {
            assert(gs[p as int].0 == names@[p as int]@);
            p = p + 1;
        }
        proof {
            if p < names@.len() {
                assert(gs[p as int].0 == names@[p as int]@);
            }
            lemma_upsert_at(gs, name@, by_text(), fresh_artist(*t), add_to_artist(*t), p as int);
        }
        if p < names.len() && chars_eq(&names[p], &name) {
            let ghost old_artists = artists@;
            let ghost old_albums = albums@;
            let mut a = artists.remove(p);
            let mut seen = albums.remove(p);
            let ghost ids = a.track_ids@;
            let ghost seen_before = crate::text::vec_views(seen@);
            assert(old_albums[p as int] == seen);
            assert(old_artists[p as int] == a);
            let id = t.id.clone();
            a.track_ids.push(id);
            proof {
                lemma_string_views_push(ids, id);
            }
            if !contains_text(&seen, &album_key) {
                seen.push(album_key);
                assert(crate::text::vec_views(seen@) =~= seen_before.push(lowercase_text(t.album@)));
                proof {
                    lemma_to_set_push(seen_before, lowercase_text(t.album@));
                }
            } else {
                assert(seen_before.to_set().insert(lowercase_text(t.album@)) =~= seen_before.to_set());
            }
            a.album_count = seen.len();
            artists.insert(p, a);
            albums.insert(p, seen);
            proof {
                assert(artists@ =~= old_artists.update(p as int, a));
                assert(albums@ =~= old_albums.update(p as int, seen));
                assert(keyed_artists(names@, artists@, albums@) =~= gs.take(p as int) + seq![
                    (name@, add_to_artist(*t)(gs[p as int].1)),
                ] + gs.skip(p + 1));
            }
        } else {
            let ghost old_artists = artists@;
            let ghost old_albums = albums@;
            let mut ids: Vec<String> = Vec::new();
            ids.push(t.id.clone());
            let mut seen: Vec<Vec<char>> = Vec::new();
            seen.push(album_key);
            let a = Artist { name: string_of(&name), track_ids: ids, album_count: 1 };
            proof {
                assert(string_views(ids@) =~= seq![t.id@]);
                assert(crate::text::vec_views(seen@) =~= seq![lowercase_text(t.album@)]);
                assert(seq![lowercase_text(t.album@)].to_set() =~= set![lowercase_text(t.album@)]) by {
                    let q = seq![lowercase_text(t.album@)];
                    assert forall|x: Seq<char>| q.to_set().contains(x) implies set![lowercase_text(t.album@)].contains(x) by {
                        let j = choose|j: int| 0 <= j < q.len() && q[j] == x;
                    }
                    assert forall|x: Seq<char>| set![lowercase_text(t.album@)].contains(x) implies q.to_set().contains(x) by {
                        assert(q[0] == x);
                    }
                }
            }
            names.insert(p, name);
            artists.insert(p, a);
            albums.insert(p, seen);
            proof {
                assert(keyed_artists(names@, artists@, albums@) =~= gs.take(p as int) + seq![
                    (name@, fresh_artist(*t)),
                ] + gs.skip(p as int));
                assert forall|j: int| 0 <= j < albums@.len() implies crate::text::vec_views(
                    (#[trigger] albums@[j])@,
                ).no_duplicates() by {
                    if j < p {
                        assert(albums@[j] == old_albums[j]);
                    } else if j > p {
                        assert(albums@[j] == old_albums[j - 1]);
                    }
                }
                assert forall|j: int| 0 <= j < artists@.len() implies (#[trigger] artists@[j]).album_count
                    == albums@[j]@.len() by {
                    if j < p {
                        assert(albums@[j] == old_albums[j]);
                        assert(artists@[j] == old_artists[j]);
                    } else if j > p {
                        assert(albums@[j] == old_albums[j - 1]);
                        assert(artists@[j] == old_artists[j - 1]);
                    }
                }
                assert forall|j: int| 0 <= j < artists@.len() implies (#[trigger] artists@[j]).name@ == names@[j]@ by {
                    if j < p {
                        assert(artists@[j] == old_artists[j]);
                    } else if j > p {
                        assert(artists@[j] == old_artists[j - 1]);
                    }
                }
            }
        }
        i = i + 1;
    }
    assert(tracks@.take(tracks@.len() as int) =~= tracks@);
    proof {
        let gs = artist_groups(tracks@);
        assert forall|j: int| 0 <= j < artists@.len() implies #[trigger] artists@[j]@ == ArtistView {
            name: gs[j].0,
            track_ids: gs[j].1.0,
            album_count: gs[j].1.1.len(),
        } by {
            crate::text::vec_views(albums@[j]@).unique_seq_to_set();
            assert(keyed_artists(names@, artists@, albums@)[j] == gs[j]);
        }
    }
    assert(Seq::new(artists@.len(), |i: int| artists@[i]@) =~= artists_spec(tracks@));
    artists
}

/// What the library index holds of a track, for telling a moved file from
/// a new one.
#[derive(Debug, Clone)]
pub struct TrackRow {
    pub id: String,
    pub available: bool,
    pub file_size: i64,
    pub duration_ms: i64,
    pub title: String,
    pub artist: String,
    pub album: String,
    pub disc_number: u32,
    pub track_number: u32,
}

/// A track that the scan no longer found, with a known size and length: it
/// may have moved.
pub open spec fn may_have_moved(old: TrackRow) -> bool {
    !old.available && old.file_size > 0 && old.duration_ms > 0
}

/// Whether `new`, found by the scan, looks like the recording `old` was:
/// another id, the same size, length, disc and track number, and the same
/// title, artist and album without regard to ASCII case.
pub open spec fn same_recording(old: TrackRow, new: TrackRow) -> bool {
    &&& new.available
    &&& new.id@ != old.id@
    &&& new.file_size == old.file_size
    &&& new.duration_ms == old.duration_ms
    &&& same_ignoring_ascii_case(new.title@, old.title@)
    &&& same_ignoring_ascii_case(new.artist@, old.artist@)
    &&& same_ignoring_ascii_case(new.album@, old.album@)
    &&& new.disc_number == old.disc_number
    &&& new.track_number == old.track_number
}

/// The rows that look like the recording `old` was.
pub open spec fn matches_of(rows: Seq<TrackRow>, old: TrackRow) -> Seq<TrackRow> {
    rows.filter(|new: TrackRow| same_recording(old, new))
}

/// The moves a source's rows show, in the order of the rows: each track
/// that may have moved and that exactly one found track looks like, paired
/// with that track's id.
pub open spec fn moves_in(olds: Seq<TrackRow>, rows: Seq<TrackRow>) -> Seq<(Seq<char>, Seq<char>)>
    decreases olds.len(),
{
    if olds.len() == 0 {
        seq![]
    } else {
        let before = moves_in(olds.drop_last(), rows);
        let old = olds.last();
        if may_have_moved(old) && matches_of(rows, old).len() == 1 {
            before.push((old.id@, matches_of(rows, old)[0].id@))
        } else {
            before
        }
    }
}

/// The ids of a list of moves.
pub open spec fn move_views(moves: Seq<(String, String)>) -> Seq<(Seq<char>, Seq<char>)> {
    Seq::new(moves.len(), |i: int| (moves[i].0@, moves[i].1@))
}

fn looks_like(old: &TrackRow, new: &TrackRow) -> (b: bool)
    ensures
        b == same_recording(*old, *new),
{
    new.available && new.id != old.id && new.file_size == old.file_size
        && new.duration_ms == old.duration_ms
        && same_chars_ignoring_case(&chars_of(new.title.as_str()), &chars_of(old.title.as_str()))
        && same_chars_ignoring_case(&chars_of(new.artist.as_str()), &chars_of(old.artist.as_str()))
        && same_chars_ignoring_case(&chars_of(new.album.as_str()), &chars_of(old.album.as_str()))
        && new.disc_number == old.disc_number && new.track_number == old.track_number
}

/// The tracks of one source that moved: each one the scan no longer found
/// whose size and length are known, paired with the one track the scan did
/// find that looks like it, where there is exactly one. A track that two
/// found tracks look like is left alone.
pub fn moved_tracks(rows: &[TrackRow]) -> (moves: Vec<(String, String)>)
    ensures
        move_views(moves@) == moves_in(rows@, rows@),
{
    let mut moves: Vec<(String, String)> = Vec::new();
    let mut i: usize = 0;
    assert(move_views(moves@) =~= moves_in(rows@.take(0), rows@));
    while i < rows.len()
        invariant
            i <= rows@.len(),
            move_views(moves@) == moves_in(rows@.take(i as int), rows@),
        decreases rows.len() - i,
    {
        let old = &rows[i];
        let ghost keep = |new: TrackRow| same_recording(*old, new);
        assert(rows@.take(i + 1).drop_last() =~= rows@.take(i as int));
        assert(rows@.take(i + 1).last() == *old);
        if !old.available && old.file_size > 0 && old.duration_ms > 0 {
            let mut count: usize = 0;
            let mut found: usize = 0;
            let mut j: usize = 0;
            assert(rows@.take(0).filter(keep) =~= Seq::<TrackRow>::empty());
            while j < rows.len()
                invariant
                    j <= rows@.len(),
                    i < rows@.len(),
                    *old == rows@[i as int],
                    keep == (|new: TrackRow| same_recording(*old, new)),
                    count == rows@.take(j as int).filter(keep).len(),
                    count <= j,
                    count >= 1 ==> found < j && rows@.take(j as int).filter(keep)[0] == rows@[found as int],
                decreases rows.len() - j,
            {
                proof {
                    reveal_with_fuel(Seq::filter, 1);
                    assert(rows@.take(j + 1).drop_last() =~= rows@.take(j as int));
                    rows@.take(j as int).lemma_filter_len(keep);
                }
                if looks_like(old, &rows[j]) {
                    if count == 0 {
                        found = j;
                    }
                    proof {
                        let f = rows@.take(j as int).filter(keep);
                        assert(rows@.take(j + 1).filter(keep) == f.push(rows@[j as int]));
                    }
                    count = count + 1;
                } else {
                    proof {
                        assert(rows@.take(j + 1).filter(keep) == rows@.take(j as int).filter(keep));
                    }
                }
                j = j + 1;
            }
            assert(rows@.take(rows@.len() as int) =~= rows@);
            assert(matches_of(rows@, *old) =~= rows@.filter(keep));
            if count == 1 {
                let ghost before = moves@;
                moves.push((old.id.clone(), rows[found].id.clone()));
                assert(move_views(moves@) =~= move_views(before).push((old.id@, rows@[found as int].id@)));
            }
        }
        i = i + 1;
    }
    assert(rows@.take(rows@.len() as int) =~= rows@);
    moves
}

} // verus!
