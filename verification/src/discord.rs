//! What Discord Rich Presence shows for the track that is playing.
//!
//! The connection to Discord is the program's; this module decides what is
//! sent: the text fields, cut to what Discord accepts, the picture, and the
//! time span of the track.

use vstd::prelude::*;

use crate::i18n::{argument_views, filled, translation, Translator};
use crate::model::{PlaybackStatus, Track};
use crate::text::{chars_of, contains_chars, contains_seq, string_of};
use crate::unicode::{alphanumeric, is_alphanumeric, lowercase_text, to_lowercase};

verus! {

/// The first `max_chars` characters of `value`.
pub open spec fn limited_spec(value: Seq<char>, max_chars: nat) -> Seq<char> {
    if max_chars < value.len() {
        value.take(max_chars as int)
    } else {
        value
    }
}

/// At most `max_chars` characters of `value`, counted as characters and not
/// bytes, so that a multi-byte character is never cut in half.
pub fn limited(value: &str, max_chars: usize) -> (out: String)
    ensures
        out@ == limited_spec(value@, max_chars as nat),
{
    let chars = chars_of(value);
    if max_chars < chars.len() {
        let mut out: Vec<char> = Vec::new();
        let mut i: usize = 0;
        while i < max_chars
            invariant
                i <= max_chars < chars@.len(),
                out@ == chars@.take(i as int),
            decreases max_chars - i,
        {
            out.push(chars[i]);
            i = i + 1;
            assert(out@ =~= chars@.take(i as int));
        }
        string_of(&out)
    } else {
        string_of(&chars)
    }
}

/// The number of alphanumeric characters at the end of `s`.
pub open spec fn alnum_tail(s: Seq<char>) -> nat
    decreases s.len(),
{
    if s.len() > 0 && alphanumeric(s.last()) {
        1 + alnum_tail(s.drop_last())
    } else {
        0
    }
}

/// The maximal runs of alphanumeric characters of `s`: what splitting on
/// every other character and dropping the empty pieces leaves.
pub open spec fn alnum_words(s: Seq<char>) -> Seq<Seq<char>>
    decreases s.len(),
{
    if s.len() == 0 {
        seq![]
    } else if !alphanumeric(s.last()) {
        alnum_words(s.drop_last())
    } else {
        let k = alnum_tail(s);
        if 0 < k <= s.len() {
            alnum_words(s.subrange(0, s.len() - k)).push(s.subrange(s.len() - k, s.len() as int))
        } else {
            seq![]
        }
    }
}

proof fn lemma_alnum_tail(s: Seq<char>)
    ensures
        alnum_tail(s) <= s.len(),
        s.len() > 0 && alphanumeric(s.last()) ==> alnum_tail(s) >= 1,
        alnum_tail(s) < s.len() ==> !alphanumeric(s[s.len() - alnum_tail(s) - 1]),
    decreases s.len(),
{
    if s.len() > 0 && alphanumeric(s.last()) {
        lemma_alnum_tail(s.drop_last());
        if alnum_tail(s) < s.len() {
            assert(s[s.len() - alnum_tail(s) - 1] == s.drop_last()[s.drop_last().len() - alnum_tail(
                s.drop_last(),
            ) - 1]);
        }
    }
}

/// How the words change when one character is appended.
proof fn lemma_alnum_words_push(s: Seq<char>, c: char)
    ensures
        !alphanumeric(c) ==> alnum_words(s.push(c)) == alnum_words(s),
        alphanumeric(c) && (s.len() == 0 || !alphanumeric(s.last())) ==> alnum_words(s.push(c))
            == alnum_words(s).push(seq![c]),
        alphanumeric(c) && s.len() > 0 && alphanumeric(s.last()) ==> alnum_words(s).len() > 0
            && alnum_words(s.push(c)) == alnum_words(s).drop_last().push(alnum_words(s).last().push(c)),
{
    let t = s.push(c);
    assert(t.drop_last() =~= s);
    if alphanumeric(c) {
        lemma_alnum_tail(t);
        lemma_alnum_tail(s);
        let k = alnum_tail(t);
        if s.len() == 0 || !alphanumeric(s.last()) {
            assert(alnum_tail(s) == 0);
            assert(k == 1);
            assert(t.subrange(0, t.len() - 1) =~= s);
            assert(t.subrange(t.len() - 1, t.len() as int) =~= seq![c]);
        } else {
            let j = alnum_tail(s);
            assert(k == j + 1);
            assert(t.subrange(0, t.len() - k) =~= s.subrange(0, s.len() - j));
            assert(t.subrange(t.len() - k, t.len() as int) =~= s.subrange(s.len() - j, s.len() as int).push(
                c,
            ));
        }
    }
}

fn alnum_words_of(s: &[char]) -> (ws: Vec<Vec<char>>)
    ensures
        crate::text::vec_views(ws@) == alnum_words(s@),
{
    let mut ws: Vec<Vec<char>> = Vec::new();
    let mut i: usize = 0;
    let mut previous_alnum = false;
    assert(crate::text::vec_views(ws@) =~= alnum_words(s@.take(0)));
    while i < s.len()
        invariant
            i <= s@.len(),
            crate::text::vec_views(ws@) == alnum_words(s@.take(i as int)),
            previous_alnum == (i > 0 && alphanumeric(s@[i - 1])),
        decreases s.len() - i,
    {
        let c = s[i];
        let ghost p = s@.take(i as int);
        proof {
            assert(s@.take(i + 1) =~= p.push(c));
            lemma_alnum_words_push(p, c);
            if i > 0 {
                assert(p.last() == s@[i - 1]);
            }
        }
        let keep = is_alphanumeric(c);
        if keep {
            if !previous_alnum {
                let mut w: Vec<char> = Vec::new();
                w.push(c);
                let ghost before = ws@;
                ws.push(w);
                assert(crate::text::vec_views(ws@) =~= crate::text::vec_views(before).push(seq![c]));
            } else {
                let ghost before = ws@;
                assert(crate::text::vec_views(before).len() > 0);
                let mut w = ws.pop().unwrap();
                let ghost last = w@;
                assert(last == crate::text::vec_views(before).last());
                w.push(c);
                ws.push(w);
                assert(crate::text::vec_views(ws@) =~= crate::text::vec_views(before).drop_last().push(
                    last.push(c),
                ));
            }
        }
        previous_alnum = keep;
        i = i + 1;
    }
    assert(s@.take(s@.len() as int) =~= s@);
    ws
}

/// Whether `first` is directly followed by `second` among `words`.
pub open spec fn adjacent(words: Seq<Seq<char>>, first: Seq<char>, second: Seq<char>) -> bool {
    exists|i: int| 0 <= i && i + 1 < words.len() && #[trigger] words[i] == first && words[i + 1] == second
}

/// The genres that show the DJ picture, lower-cased.
pub open spec fn dj_genres() -> Seq<Seq<char>> {
    seq![
        "electronic"@,
        "electrónica"@,
        "electronica"@,
        "dance"@,
        "house"@,
        "techno"@,
        "trance"@,
        "edm"@,
        "dubstep"@,
        "drum and bass"@,
        "dnb"@,
    ]
}

/// The picture for a track: the Daft Punk one for Daft Punk (whatever the
/// genre), the metal one for metal, the DJ one for electronic music and
/// `fallback` for everything else. Names and genres are compared
/// lower-cased, and the artist by whole words.
pub open spec fn presence_image_spec(artist: Seq<char>, genre: Seq<char>, fallback: Seq<char>) -> Seq<
    char,
> {
    if adjacent(alnum_words(lowercase_text(artist)), "daft"@, "punk"@) {
        "daft_punk"@
    } else if contains_seq(lowercase_text(genre), "metal"@) {
        "peter_metal"@
    } else if exists|k: int| 0 <= k < dj_genres().len() && contains_seq(lowercase_text(genre), #[trigger] dj_genres()[k]) {
        "peter_dj"@
    } else {
        fallback
    }
}

fn dj_genre_list() -> (out: Vec<&'static str>)
    ensures
        out@.len() == dj_genres().len(),
        forall|k: int| 0 <= k < out@.len() ==> (#[trigger] out@[k])@ == dj_genres()[k],
{
    let out = vec![
        "electronic",
        "electrónica",
        "electronica",
        "dance",
        "house",
        "techno",
        "trance",
        "edm",
        "dubstep",
        "drum and bass",
        "dnb",
    ];
    assert(out@[0]@ == dj_genres()[0]);
    assert(out@[10]@ == dj_genres()[10]);
    out
}

/// The picture Discord shows for a track.
pub fn presence_image<'a>(artist: &str, genre: &str, fallback: &'a str) -> (image: &'a str)
    ensures
        image@ == presence_image_spec(artist@, genre@, fallback@),
{
    let lowered = to_lowercase(artist);
    let words = alnum_words_of(&chars_of(lowered.as_str()));
    let ghost ws = crate::text::vec_views(words@);
    let daft = chars_of("daft");
    let punk = chars_of("punk");
    let mut i: usize = 0;
    let mut found = false;
    while i < words.len()
        invariant
            i <= words@.len(),
            ws == crate::text::vec_views(words@),
            daft@ == "daft"@,
            punk@ == "punk"@,
            found ==> adjacent(ws, "daft"@, "punk"@),
            !found ==> forall|j: int| 0 <= j < i && j + 1 < ws.len() ==> !(#[trigger] ws[j] == "daft"@ && ws[j + 1] == "punk"@),
        decreases words.len() - i,
    {
        if i + 1 < words.len() && crate::text::chars_eq(&words[i], &daft) && crate::text::chars_eq(
            &words[i + 1],
            &punk,
        ) {
            assert(ws[i as int] == "daft"@ && ws[i + 1] == "punk"@);
            found = true;
        }
        i = i + 1;
    }
    assert(found == adjacent(ws, "daft"@, "punk"@));
    if found {
        return "daft_punk";
    }
    let genre_lowered = chars_of(to_lowercase(genre).as_str());
    if contains_chars(&genre_lowered, &chars_of("metal")) {
        return "peter_metal";
    }
    let kinds = dj_genre_list();
    let mut k: usize = 0;
    while k < kinds.len()
        invariant
            k <= kinds@.len(),
            kinds@.len() == dj_genres().len(),
            forall|j: int| 0 <= j < kinds@.len() ==> (#[trigger] kinds@[j])@ == dj_genres()[j],
            genre_lowered@ == lowercase_text(genre@),
            !adjacent(alnum_words(lowercase_text(artist@)), "daft"@, "punk"@),
            !contains_seq(lowercase_text(genre@), "metal"@),
            forall|j: int| 0 <= j < k ==> !contains_seq(genre_lowered@, #[trigger] dj_genres()[j]),
        decreases kinds.len() - k,
    {
        if contains_chars(&genre_lowered, &chars_of(kinds[k])) {
            assert(contains_seq(lowercase_text(genre@), dj_genres()[k as int]));
            return "peter_dj";
        }
        k = k + 1;
    }
    fallback
}

/// What is shown for a track that is playing or paused.
#[derive(Debug, Clone)]
pub struct Presence {
    pub title: String,
    pub artist: String,
    pub album: String,
    pub genre: String,
    pub status: PlaybackStatus,
    pub position_ms: u64,
    pub duration_ms: u64,
}

/// What the presence worker is asked to show: the track while one is loaded
/// and not stopped, and nothing otherwise.
pub fn presence_for(
    track: Option<&Track>,
    status: PlaybackStatus,
    position_ms: u64,
    duration_ms: u64,
) -> (p: Option<Presence>)
    ensures
        match p {
            Some(pr) => track matches Some(t) && status != PlaybackStatus::Stopped && pr.title@
                == t.title@ && pr.artist@ == t.artist@ && pr.album@ == t.album@ && pr.genre@
                == t.genre@ && pr.status == status && pr.position_ms == position_ms && pr.duration_ms
                == duration_ms,
            None => track is None || status == PlaybackStatus::Stopped,
        },
{
    match track {
        Some(t) => if status != PlaybackStatus::Stopped {
            Some(
                Presence {
                    title: t.title.clone(),
                    artist: t.artist.clone(),
                    album: t.album.clone(),
                    genre: t.genre.clone(),
                    status,
                    position_ms,
                    duration_ms,
                },
            )
        } else {
            None
        },
        None => None,
    }
}

/// The longest text Discord takes in a field.
pub const FIELD_CHARS: usize = 120;

/// The fields of a Discord activity.
#[derive(Debug, Clone)]
pub struct ActivityFields {
    /// The title.
    pub details: String,
    /// The artist, or while paused the paused line naming the artist.
    pub state: String,
    pub large_image: String,
    /// The album.
    pub large_text: String,
    /// When the track started and will end, while it plays.
    pub timestamps: Option<(i64, i64)>,
}

/// `a.saturating_sub(b)` for `i64`.
pub open spec fn i64_sat(v: int) -> int {
    if v > i64::MAX {
        i64::MAX as int
    } else if v < i64::MIN {
        i64::MIN as int
    } else {
        v
    }
}

/// `min(v, i64::MAX)`.
pub open spec fn capped(v: u64) -> int {
    if v > i64::MAX {
        i64::MAX as int
    } else {
        v as int
    }
}

/// Where a playing track started and will end, `now` being the time in
/// milliseconds since the epoch.
pub open spec fn track_span(now: i64, position_ms: u64, duration_ms: u64) -> (int, int) {
    let start = i64_sat(now - capped(position_ms));
    (start, i64_sat(start + capped(duration_ms)))
}

fn sat_i64(v: i128) -> (r: i64)
    requires
        -0x1_0000_0000_0000_0000_0000 < v < 0x1_0000_0000_0000_0000_0000,
    ensures
        r as int == i64_sat(v as int),
{
    if v > i64::MAX as i128 {
        i64::MAX
    } else if v < i64::MIN as i128 {
        i64::MIN
    } else {
        v as i64
    }
}

fn cap(v: u64) -> (r: i128)
    ensures
        r as int == capped(v),
{
    if v > i64::MAX as u64 {
        i64::MAX as i128
    } else {
        v as i128
    }
}

/// The activity for a presence: `large_image` is the picture to fall back
/// on, and `now` the time in milliseconds since the epoch.
pub fn activity_fields(translator: &Translator, presence: &Presence, large_image: &str, now: i64) -> (a:
    ActivityFields)
    ensures
        a.details@ == limited_spec(presence.title@, 120),
        a.state@ == if presence.status == PlaybackStatus::Paused {
            limited_spec(
                filled(
                    translation(
                        translator.english(),
                        translator.spanish(),
                        translator.active(),
                        "label.paused_presence"@,
                    ),
                    seq![("artist"@, limited_spec(presence.artist@, 120))],
                ),
                120,
            )
        } else {
            limited_spec(presence.artist@, 120)
        },
        a.large_image@ == presence_image_spec(presence.artist@, presence.genre@, large_image@),
        a.large_text@ == limited_spec(presence.album@, 120),
        a.timestamps == if presence.status == PlaybackStatus::Playing && presence.duration_ms > 0 {
            let span = track_span(now, presence.position_ms, presence.duration_ms);
            Some((span.0 as i64, span.1 as i64))
        } else {
            None::<(i64, i64)>
        },
{
    let details = limited(presence.title.as_str(), FIELD_CHARS);
    let artist = limited(presence.artist.as_str(), FIELD_CHARS);
    let image = presence_image(presence.artist.as_str(), presence.genre.as_str(), large_image);
    let state = if presence.status == PlaybackStatus::Paused {
        let arguments = vec![("artist", artist)];
        assert(argument_views(arguments@) =~= seq![("artist"@, limited_spec(presence.artist@, 120))]);
        let paused = crate::i18n::format(translator, "label.paused_presence", &arguments);
        limited(paused.as_str(), FIELD_CHARS)
    } else {
        artist
    };
    let timestamps = if presence.status == PlaybackStatus::Playing && presence.duration_ms > 0 {
        let start = sat_i64(now as i128 - cap(presence.position_ms));
        let end = sat_i64(start as i128 + cap(presence.duration_ms));
        Some((start, end))
    } else {
        None
    };
    ActivityFields {
        details,
        state,
        large_image: image.to_owned(),
        large_text: limited(presence.album.as_str(), FIELD_CHARS),
        timestamps,
    }
}

} // verus!
