//! Searching, grouping and smart playlists.

use vstd::prelude::*;

use crate::grouping::{
    by_text, lemma_text_order, lemma_upsert_at, strict_total, text_less, text_lt, upsert,
};
use crate::model::{SmartMatch, SmartPlaylist, SmartRule, Track, TrackStats};
use crate::sorting::{insert_by, lemma_insert_by_at, lemma_sorted_by_push, sorted_by};
use crate::text::{
    chars_eq, chars_of, contains_seq, first_occurrence, find_seq, is_whitespace, is_ws, join_space,
    normalize_chars, normalize_ws, slice_of, starts_with, string_of, trim, trim_chars, words,
    lemma_words_push, lemma_words_nonempty, utf8_len, utf8_len_of, vec_views, string_views,
};
use crate::unicode::{
    char_to_lowercase, combining_mark, is_combining_mark, lowercase_of, nfkd, nfkd_of,
};

verus! {

/// The characters that are not combining marks, in order.
pub open spec fn unmarked(cs: Seq<char>) -> Seq<char>
    decreases cs.len(),
{
    if cs.len() == 0 {
        seq![]
    } else if combining_mark(cs.last()) {
        unmarked(cs.drop_last())
    } else {
        unmarked(cs.drop_last()).push(cs.last())
    }
}

/// Each character replaced by its lower case.
pub open spec fn lowered(cs: Seq<char>) -> Seq<char>
    decreases cs.len(),
{
    if cs.len() == 0 {
        seq![]
    } else {
        lowered(cs.drop_last()) + lowercase_of(cs.last())
    }
}

/// The form text is compared in: decomposed, without accents, lower case,
/// and with white space collapsed.
pub open spec fn folded(s: Seq<char>) -> Seq<char> {
    normalize_ws(lowered(unmarked(nfkd_of(s))))
}

/// `fold` over characters.
pub fn fold_chars(value: &str) -> (out: Vec<char>)
    ensures
        out@ == folded(value@),
{
    let decomposed = nfkd(value);
    let mut plain: Vec<char> = Vec::new();
    let mut i: usize = 0;
    while i < decomposed.len()
        invariant
            i <= decomposed@.len(),
            plain@ == unmarked(decomposed@.take(i as int)),
        decreases decomposed.len() - i,
    {
        let ghost t = decomposed@.take(i + 1);
        assert(t.drop_last() =~= decomposed@.take(i as int));
        if !is_combining_mark(decomposed[i]) {
            plain.push(decomposed[i]);
        }
        i = i + 1;
    }
    assert(decomposed@.take(decomposed@.len() as int) =~= decomposed@);
    let mut lower: Vec<char> = Vec::new();
    let mut j: usize = 0;
    while j < plain.len()
        invariant
            j <= plain@.len(),
            lower@ == lowered(plain@.take(j as int)),
        decreases plain.len() - j,
    {
        let ghost t = plain@.take(j + 1);
        assert(t.drop_last() =~= plain@.take(j as int));
        let more = char_to_lowercase(plain[j]);
        let mut k: usize = 0;
        let ghost start = lower@;
        while k < more.len()
            invariant
                k <= more@.len(),
                lower@ == start + more@.take(k as int),
            decreases more.len() - k,
        {
            lower.push(more[k]);
            k = k + 1;
            assert(lower@ =~= start + more@.take(k as int));
        }
        assert(more@.take(more@.len() as int) =~= more@);
        j = j + 1;
    }
    assert(plain@.take(plain@.len() as int) =~= plain@);
    normalize_chars(&lower)
}

/// Text in the form it is compared in: decomposed, without accents, lower
/// case, and with white space collapsed.
pub fn fold(value: &str) -> (out: String)
    ensures
        out@ == folded(value@),
{
    string_of(&fold_chars(value))
}

/// The smallest of three.
pub open spec fn min3(a: nat, b: nat, c: nat) -> nat {
    let m = if a <= b {
        a
    } else {
        b
    };
    if m <= c {
        m
    } else {
        c
    }
}

/// The edit distance between two texts: insertions, deletions and
/// substitutions of single characters.
pub open spec fn lev(a: Seq<char>, b: Seq<char>) -> nat
    decreases a.len() + b.len(),
{
    if a.len() == 0 {
        b.len()
    } else if b.len() == 0 {
        a.len()
    } else {
        min3(
            lev(a.drop_last(), b) + 1,
            lev(a, b.drop_last()) + 1,
            lev(a.drop_last(), b.drop_last()) + if a.last() == b.last() {
                0nat
            } else {
                1nat
            },
        )
    }
}

/// The distance never exceeds the longer of the two lengths.
pub proof fn lemma_lev_bound(a: Seq<char>, b: Seq<char>)
    ensures
        lev(a, b) <= a.len() || lev(a, b) <= b.len(),
        lev(a, b) <= if a.len() >= b.len() {
            a.len()
        } else {
            b.len()
        },
    decreases a.len() + b.len(),
{
    if a.len() > 0 && b.len() > 0 {
        lemma_lev_bound(a.drop_last(), b.drop_last());
    }
}

/// The Levenshtein distance between two texts, counted in characters.
pub fn levenshtein(left: &str, right: &str) -> (d: usize)
    ensures
        d == lev(left@, right@),
{
    let l = chars_of(left);
    let r = chars_of(right);
    levenshtein_chars(&l, &r)
}

fn levenshtein_chars(left: &[char], right: &[char]) -> (d: usize)
    ensures
        d == lev(left@, right@),
{
    let n = right.len();
    let ll = left.len();
    assert(ll == left@.len());
    let mut previous: Vec<usize> = Vec::new();
    previous.push(0);
    let mut j: usize = 0;
    while j < n
        invariant
            j <= n,
            n == right@.len(),
            previous@.len() == j + 1,
            forall|c: int| 0 <= c <= j ==> previous@[c] == lev(Seq::<char>::empty(), right@.take(c)),
        decreases n - j,
    {
        previous.push(j + 1);
        j = j + 1;
    }
    let mut row: usize = 0;
    while row < left.len()
        invariant
            row <= left@.len(),
            left@.len() <= usize::MAX,
            n == right@.len(),
            previous@.len() == n + 1,
            forall|c: int| 0 <= c <= n ==> previous@[c] == lev(left@.take(row as int), right@.take(c)),
        decreases left.len() - row,
    {
        let ghost a = left@.take(row + 1);
        assert(a.drop_last() =~= left@.take(row as int));
        let left_char = left[row];
        let mut current: Vec<usize> = Vec::new();
        current.push(row + 1);
        proof {
            assert(right@.take(0) =~= Seq::<char>::empty());
        }
        let mut column: usize = 0;
        while column < n
            invariant
                column <= n,
                n == right@.len(),
                previous@.len() == n + 1,
                row < left@.len(),
                left@.len() <= usize::MAX,
                a == left@.take(row + 1),
                a.drop_last() == left@.take(row as int),
                a.last() == left_char,
                forall|c: int| 0 <= c <= n ==> previous@[c] == lev(a.drop_last(), right@.take(c)),
                current@.len() == column + 1,
                forall|c: int| 0 <= c <= column ==> current@[c] == lev(a, right@.take(c)),
            decreases n - column,
        {
            let ghost b = right@.take(column + 1);
            assert(b.drop_last() =~= right@.take(column as int));
            assert(b.last() == right@[column as int]);
            proof {
                lemma_lev_bound(a, b);
            }
            let deletion = previous[column + 1].saturating_add(1);
            let insertion = current[column].saturating_add(1);
            let substitution = previous[column].saturating_add(if left_char != right[column] {
                1
            } else {
                0
            });
            let m = if deletion <= insertion {
                deletion
            } else {
                insertion
            };
            let best = if m <= substitution {
                m
            } else {
                substitution
            };
            proof {
                let x = lev(a.drop_last(), b) + 1;
                let y = lev(a, b.drop_last()) + 1;
                let z = lev(a.drop_last(), b.drop_last()) + if a.last() == b.last() {
                    0nat
                } else {
                    1nat
                };
                assert(previous@[column + 1] == lev(a.drop_last(), b));
                assert(current@[column as int] == lev(a, b.drop_last()));
                assert(previous@[column as int] == lev(a.drop_last(), b.drop_last()));
                assert(lev(a, b) == min3(x, y, z));
                assert(a.len() <= usize::MAX && b.len() <= usize::MAX);
                assert(lev(a, b) <= usize::MAX);
                assert(deletion == if x <= usize::MAX { x } else { usize::MAX as nat });
                assert(insertion == if y <= usize::MAX { y } else { usize::MAX as nat });
                assert(substitution == if z <= usize::MAX { z } else { usize::MAX as nat });
                assert(best == lev(a, b));
            }
            current.push(best);
            column = column + 1;
        }
        previous = current;
        row = row + 1;
    }
    assert(left@.take(left@.len() as int) =~= left@);
    assert(right@.take(n as int) =~= right@);
    previous[n]
}

/// `a - b`, or zero where `b` is larger.
pub open spec fn sat_sub(a: int, b: int) -> int {
    if b >= a {
        0
    } else {
        a - b
    }
}

/// The smallest distance from any of the words to `query`.
pub open spec fn min_word_lev(ws: Seq<Seq<char>>, query: Seq<char>) -> nat
    decreases ws.len(),
{
    if ws.len() <= 1 {
        lev(ws[0], query)
    } else {
        let a = min_word_lev(ws.drop_last(), query);
        let b = lev(ws.last(), query);
        if a <= b {
            a
        } else {
            b
        }
    }
}

/// How well a folded field matches a folded query, higher being better:
/// an exact match, then a prefix (shorter fields first), then a substring
/// (earlier first), then a word within a third of the query's length in
/// edits (at least one edit allowed). Positions and lengths are in bytes.
pub open spec fn fuzzy_score_spec(value: Seq<char>, query: Seq<char>) -> Option<int> {
    if value == query {
        Some(10_000)
    } else if query.is_prefix_of(value) {
        Some(sat_sub(9_000, utf8_len(value) - utf8_len(query)))
    } else {
        match first_occurrence(value, query) {
            Some(p) => Some(sat_sub(8_000, utf8_len(value.take(p)) as int)),
            None => word_score(value, query),
        }
    }
}

/// The score of the word of `value` closest to `query`, when it is within a
/// third of the query's length in edits (at least one edit allowed).
pub open spec fn word_score(value: Seq<char>, query: Seq<char>) -> Option<int> {
    let ws = words(value);
    if ws.len() == 0 {
        None
    } else {
        let d = min_word_lev(ws, query);
        let allowed = if query.len() / 3 >= 1 {
            query.len() / 3
        } else {
            1
        };
        if d <= allowed {
            Some(sat_sub(5_000, (d * 100) as int))
        } else {
            None
        }
    }
}

fn sat_sub_exec(a: u128, b: u128) -> (r: usize)
    requires
        a <= 10_000,
    ensures
        r == sat_sub(a as int, b as int),
{
    if b >= a {
        0
    } else {
        (a - b) as usize
    }
}

/// How well `value` matches `query`; both already folded.
pub fn fuzzy_score(value: &str, query: &str) -> (r: Option<usize>)
    ensures
        match r {
            Some(v) => fuzzy_score_spec(value@, query@) == Some(v as int),
            None => fuzzy_score_spec(value@, query@) is None,
        },
{
    fuzzy_score_chars(&chars_of(value), &chars_of(query))
}

fn fuzzy_score_chars(value: &[char], query: &[char]) -> (r: Option<usize>)
    ensures
        match r {
            Some(v) => fuzzy_score_spec(value@, query@) == Some(v as int),
            None => fuzzy_score_spec(value@, query@) is None,
        },
{
    if chars_eq(value, query) {
        return Some(10_000);
    }
    if starts_with(value, query) {
        let vl = utf8_len_of(value, value.len());
        let ql = utf8_len_of(query, query.len());
        proof {
            assert(value@.take(value@.len() as int) =~= value@);
            assert(query@.take(query@.len() as int) =~= query@);
            lemma_utf8_len_prefix(value@, query@.len() as int);
            assert(value@.take(query@.len() as int) =~= query@);
        }
        return Some(sat_sub_exec(9_000, vl - ql));
    }
    if let Some(position) = find_seq(value, query) {
        let before = utf8_len_of(value, position);
        return Some(sat_sub_exec(8_000, before));
    }
    word_score_exec(value, query)
}

fn word_score_exec(value: &[char], query: &[char]) -> (r: Option<usize>)
    ensures
        match r {
            Some(v) => word_score(value@, query@) == Some(v as int),
            None => word_score(value@, query@) is None,
        },
{
    let ws = crate::text::words_of(value);
    if ws.len() == 0 {
        return None;
    }
    let mut best = levenshtein_chars(&ws[0], query);
    let mut i: usize = 1;
    assert(vec_views(ws@)[0] == ws@[0]@);
    while i < ws.len()
        invariant
            1 <= i <= ws@.len(),
            vec_views(ws@) == words(value@),
            best == min_word_lev(vec_views(ws@).take(i as int), query@),
        decreases ws.len() - i,
    {
        let d = levenshtein_chars(&ws[i], query);
        proof {
            let t = vec_views(ws@).take(i + 1);
            assert(t.drop_last() =~= vec_views(ws@).take(i as int));
            assert(t.last() == ws@[i as int]@);
        }
        if d < best {
            best = d;
        }
        i = i + 1;
    }
    assert(vec_views(ws@).take(ws@.len() as int) =~= vec_views(ws@));
    let third = query.len() / 3;
    let allowed = if third >= 1 {
        third
    } else {
        1
    };
    if best <= allowed {
        let scaled: u128 = (best as u128) * 100;
        Some(sat_sub_exec(5_000, scaled))
    } else {
        None
    }
}

proof fn lemma_utf8_len_prefix(s: Seq<char>, k: int)
    requires
        0 <= k <= s.len(),
    ensures
        utf8_len(s.take(k)) <= utf8_len(s),
    decreases s.len() - k,
{
    if k < s.len() {
        lemma_utf8_len_prefix(s, k + 1);
        assert(s.take(k + 1).drop_last() =~= s.take(k));
    } else {
        assert(s.take(k) =~= s);
    }
}

/// The better of two optional scores.
pub open spec fn opt_max(a: Option<int>, b: Option<int>) -> Option<int> {
    match (a, b) {
        (Some(x), Some(y)) => Some(if x >= y {
            x
        } else {
            y
        }),
        (Some(x), None) => Some(x),
        (None, Some(y)) => Some(y),
        (None, None) => None,
    }
}

/// The best score of a track's title, artist, album and genre.
pub open spec fn track_score(t: Track, query: Seq<char>) -> Option<int> {
    opt_max(
        opt_max(
            opt_max(fuzzy_score_spec(folded(t.title@), query), fuzzy_score_spec(folded(t.artist@), query)),
            fuzzy_score_spec(folded(t.album@), query),
        ),
        fuzzy_score_spec(folded(t.genre@), query),
    )
}

/// Each matching track's position and score, in library order.
pub open spec fn scored(tracks: Seq<Track>, query: Seq<char>) -> Seq<(usize, usize)>
    decreases tracks.len(),
{
    if tracks.len() == 0 {
        seq![]
    } else {
        let rest = scored(tracks.drop_last(), query);
        match track_score(tracks.last(), query) {
            Some(s) => rest.push(((tracks.len() - 1) as usize, s as usize)),
            None => rest,
        }
    }
}

/// Higher scores first, and earlier tracks first among equal scores.
pub open spec fn ranks_before(a: (usize, usize), b: (usize, usize)) -> bool {
    a.1 > b.1 || (a.1 == b.1 && a.0 < b.0)
}

/// `ranks_before`, as a relation for `sorted_by`.
pub open spec fn by_rank() -> spec_fn((usize, usize), (usize, usize)) -> bool {
    |a: (usize, usize), b: (usize, usize)| ranks_before(a, b)
}

/// The positions of the best `limit` matches for `query`, best first.
pub open spec fn search_spec(tracks: Seq<Track>, query: Seq<char>, limit: nat) -> Seq<usize> {
    let q = folded(trim(query));
    if q.len() == 0 {
        seq![]
    } else {
        let ranked = sorted_by(scored(tracks, q), by_rank());
        let n = if limit <= ranked.len() {
            limit
        } else {
            ranked.len()
        };
        Seq::new(n, |i: int| ranked[i].0)
    }
}

/// Whether the optional score `a` is at least `b`: where `b` is a score, so
/// is `a`, and no lower.
pub open spec fn scores_at_least(a: Option<int>, b: Option<int>) -> bool {
    b matches Some(y) ==> (a matches Some(x) && x >= y)
}

/// A track is scored on every one of its fields: its score is at least the
/// score of its title, of its artist, of its album and of its genre, and it
/// is the score of one of them.
pub proof fn lemma_track_score_covers_every_field(t: Track, query: Seq<char>)
    ensures
        scores_at_least(track_score(t, query), fuzzy_score_spec(folded(t.title@), query)),
        scores_at_least(track_score(t, query), fuzzy_score_spec(folded(t.artist@), query)),
        scores_at_least(track_score(t, query), fuzzy_score_spec(folded(t.album@), query)),
        scores_at_least(track_score(t, query), fuzzy_score_spec(folded(t.genre@), query)),
        track_score(t, query) is Some ==> {
            ||| track_score(t, query) == fuzzy_score_spec(folded(t.title@), query)
            ||| track_score(t, query) == fuzzy_score_spec(folded(t.artist@), query)
            ||| track_score(t, query) == fuzzy_score_spec(folded(t.album@), query)
            ||| track_score(t, query) == fuzzy_score_spec(folded(t.genre@), query)
        },
{
}

/// A field equal to the query is an exact match, the best score there is.
pub proof fn lemma_exact_field_scores_highest(value: Seq<char>)
    ensures
        fuzzy_score_spec(value, value) == Some(10_000int),
{
}

proof fn lemma_scored_len(tracks: Seq<Track>, query: Seq<char>)
    ensures
        scored(tracks, query).len() <= tracks.len(),
    decreases tracks.len(),
{
    if tracks.len() > 0 {
        lemma_scored_len(tracks.drop_last(), query);
    }
}

proof fn lemma_scored_has(tracks: Seq<Track>, query: Seq<char>, i: int)
    requires
        0 <= i < tracks.len(),
        track_score(tracks[i], query) is Some,
    ensures
        exists|e: (usize, usize)| #[trigger] scored(tracks, query).contains(e) && e.0 == i as usize,
    decreases tracks.len(),
{
    let rest = scored(tracks.drop_last(), query);
    if i == tracks.len() - 1 {
        let s = track_score(tracks.last(), query)->0;
        let e = ((tracks.len() - 1) as usize, s as usize);
        assert(scored(tracks, query) == rest.push(e));
        assert(scored(tracks, query)[rest.len() as int] == e);
        assert(scored(tracks, query).contains(e));
    } else {
        assert(tracks.drop_last()[i] == tracks[i]);
        lemma_scored_has(tracks.drop_last(), query, i);
        let e = choose|e: (usize, usize)| #[trigger] rest.contains(e) && e.0 == i as usize;
        let k = choose|k: int| 0 <= k < rest.len() && rest[k] == e;
        match track_score(tracks.last(), query) {
            Some(s) => {
                let x = ((tracks.len() - 1) as usize, s as usize);
                assert(scored(tracks, query) == rest.push(x));
                assert(scored(tracks, query)[k] == e);
            },
            None => {},
        }
        assert(scored(tracks, query).contains(e));
    }
}

/// With room for every track, a search finds every track that matches on
/// any of its fields.
pub proof fn lemma_every_match_is_found(tracks: Seq<Track>, query: Seq<char>, limit: nat, i: int)
    requires
        0 <= i < tracks.len(),
        limit >= tracks.len(),
        folded(trim(query)).len() > 0,
        track_score(tracks[i], folded(trim(query))) is Some,
    ensures
        search_spec(tracks, query, limit).contains(i as usize),
{
    broadcast use vstd::seq_lib::group_to_multiset_ensures;

    let q = folded(trim(query));
    let sc = scored(tracks, q);
    let ranked = sorted_by(sc, by_rank());
    lemma_scored_len(tracks, q);
    lemma_scored_has(tracks, q, i);
    crate::sorting::lemma_sorted_by_multiset(sc, by_rank());
    crate::sorting::lemma_sorted_by_len(sc, by_rank());
    let e = choose|e: (usize, usize)| #[trigger] sc.contains(e) && e.0 == i as usize;
    assert(sc.to_multiset().count(e) > 0);
    assert(ranked.contains(e));
    let k = choose|k: int| 0 <= k < ranked.len() && ranked[k] == e;
    let found = search_spec(tracks, query, limit);
    assert(found[k] == i as usize);
}

/// Searching by artist finds the artist's tracks: with room for every
/// track, a track whose artist is the query (both folded) is found, and
/// scores as an exact match.
pub proof fn lemma_artist_search_finds_the_artist(tracks: Seq<Track>, query: Seq<char>, limit: nat, i: int)
    requires
        0 <= i < tracks.len(),
        limit >= tracks.len(),
        folded(trim(query)).len() > 0,
        folded(tracks[i].artist@) == folded(trim(query)),
    ensures
        search_spec(tracks, query, limit).contains(i as usize),
        track_score(tracks[i], folded(trim(query))) matches Some(s) && s >= 10_000,
{
    let q = folded(trim(query));
    lemma_exact_field_scores_highest(q);
    lemma_track_score_covers_every_field(tracks[i], q);
    lemma_every_match_is_found(tracks, query, limit, i);
}

fn track_score_exec(t: &Track, query: &Vec<char>) -> (r: Option<usize>)
    ensures
        match r {
            Some(v) => track_score(*t, query@) == Some(v as int),
            None => track_score(*t, query@) is None,
        },
{
    let a = fuzzy_score_chars(&fold_chars(t.title.as_str()), query);
    let b = fuzzy_score_chars(&fold_chars(t.artist.as_str()), query);
    let c = fuzzy_score_chars(&fold_chars(t.album.as_str()), query);
    let d = fuzzy_score_chars(&fold_chars(t.genre.as_str()), query);
    let ab = opt_max_exec(a, b);
    let abc = opt_max_exec(ab, c);
    opt_max_exec(abc, d)
}

fn opt_max_exec(a: Option<usize>, b: Option<usize>) -> (r: Option<usize>)
    ensures
        opt_int(r) == opt_max(opt_int(a), opt_int(b)),
{
    match (a, b) {
        (Some(x), Some(y)) => Some(if x >= y {
            x
        } else {
            y
        }),
        (Some(x), None) => Some(x),
        (None, Some(y)) => Some(y),
        (None, None) => None,
    }
}

/// An optional count as an optional integer.
pub open spec fn opt_int(o: Option<usize>) -> Option<int> {
    match o {
        Some(v) => Some(v as int),
        None => None,
    }
}

/// Fuzzy search over titles, artists, albums and genres.
///
/// Returns the positions of at most `limit` matching tracks, best match
/// first and library order among equals.
pub fn fuzzy_search(tracks: &[Track], query: &str, limit: usize) -> (found: Vec<usize>)
    ensures
        found@ == search_spec(tracks@, query@, limit as nat),
{
    let trimmed = trim_chars(&chars_of(query));
    let q = fold_chars(string_of(&trimmed).as_str());
    if q.len() == 0 {
        return Vec::new();
    }
    let mut ranked: Vec<(usize, usize)> = Vec::new();
    let mut i: usize = 0;
    while i < tracks.len()
        invariant
            i <= tracks@.len(),
            q@ == folded(trim(query@)),
            ranked@ == sorted_by(scored(tracks@.take(i as int), q@), by_rank()),
        decreases tracks.len() - i,
    {
        let ghost t = tracks@.take(i + 1);
        proof {
            assert(t.drop_last() =~= tracks@.take(i as int));
            assert(t.last() == tracks@[i as int]);
        }
        match track_score_exec(&tracks[i], &q) {
            Some(score) => {
                let entry = (i, score);
                let mut p: usize = 0;
                while p < ranked.len() && !(score > ranked[p].1 || (score == ranked[p].1 && i
                    < ranked[p].0))
                    invariant
                        p <= ranked@.len(),
                        entry == (i, score),
                        forall|j: int| 0 <= j < p ==> !ranks_before(entry, #[trigger] ranked@[j]),
                    decreases ranked.len() - p,
                {
                    p = p + 1;
                }
                let ghost sorted = ranked@;
                proof {
                    lemma_insert_by_at(sorted, entry, by_rank(), p as int);
                    lemma_sorted_by_push(scored(tracks@.take(i as int), q@), entry, by_rank());
                }
                ranked.insert(p, entry);
                assert(ranked@ =~= sorted.take(p as int) + seq![entry] + sorted.skip(p as int));
            },
            None => {},
        }
        i = i + 1;
    }
    assert(tracks@.take(tracks@.len() as int) =~= tracks@);
    let n = if limit <= ranked.len() {
        limit
    } else {
        ranked.len()
    };
    let mut found: Vec<usize> = Vec::new();
    let mut k: usize = 0;
    while k < n
        invariant
            k <= n <= ranked@.len(),
            found@ == Seq::new(k as nat, |j: int| ranked@[j].0),
        decreases n - k,
    {
        found.push(ranked[k].0);
        k = k + 1;
        assert(found@ =~= Seq::new(k as nat, |j: int| ranked@[j].0));
    }
    found
}

#[derive(Debug, Clone, PartialEq, Eq)]
pub struct Genre {
    pub name: String,
    pub track_ids: Vec<String>,
}

/// A genre as its name and the ids of its tracks.
pub struct GenreView {
    pub name: Seq<char>,
    pub track_ids: Seq<Seq<char>>,
}

impl View for Genre {
    type V = GenreView;

    open spec fn view(&self) -> GenreView {
        GenreView { name: self.name@, track_ids: string_views(self.track_ids@) }
    }
}

/// `Sin género`, the group of tracks without a genre.
pub open spec fn no_genre() -> Seq<char> {
    seq!['S', 'i', 'n', ' ', 'g', 'é', 'n', 'e', 'r', 'o']
}

/// The genre a track is listed under.
pub open spec fn genre_name(t: Track) -> Seq<char> {
    if trim(t.genre@).len() == 0 {
        no_genre()
    } else {
        trim(t.genre@)
    }
}

/// A track id added to a genre.
pub open spec fn add_to_genre(id: Seq<char>) -> spec_fn(GenreView) -> GenreView {
    |g: GenreView| GenreView { name: g.name, track_ids: g.track_ids.push(id) }
}

/// The genres of the tracks, each under its folded name, in order of that
/// name. A genre is named as its first track spells it.
pub open spec fn genre_groups(tracks: Seq<Track>) -> Seq<(Seq<char>, GenreView)>
    decreases tracks.len(),
{
    if tracks.len() == 0 {
        seq![]
    } else {
        let t = tracks.last();
        let name = genre_name(t);
        upsert(
            genre_groups(tracks.drop_last()),
            folded(name),
            by_text(),
            GenreView { name, track_ids: seq![t.id@] },
            add_to_genre(t.id@),
        )
    }
}

/// The genres as `group_genres` returns them.
pub open spec fn genres_spec(tracks: Seq<Track>) -> Seq<GenreView> {
    Seq::new(genre_groups(tracks).len(), |i: int| genre_groups(tracks)[i].1)
}

/// Keys and genres side by side.
pub open spec fn keyed_genres(keys: Seq<Vec<char>>, genres: Seq<Genre>) -> Seq<(Seq<char>, GenreView)> {
    Seq::new(keys.len(), |i: int| (keys[i]@, genres[i]@))
}

proof fn lemma_string_views_push(v: Seq<String>, x: String)
    ensures
        string_views(v.push(x)) == string_views(v).push(x@),
{
    assert(string_views(v.push(x)) =~= string_views(v).push(x@));
}

/// The tracks grouped by genre, as the genre browser lists them.
pub fn group_genres(tracks: &[Track]) -> (genres: Vec<Genre>)
    ensures
        Seq::new(genres@.len(), |i: int| genres@[i]@) == genres_spec(tracks@),
{
    let no_genre_chars = vec!['S', 'i', 'n', ' ', 'g', 'é', 'n', 'e', 'r', 'o'];
    assert(no_genre_chars@ =~= no_genre());
    let mut keys: Vec<Vec<char>> = Vec::new();
    let mut genres: Vec<Genre> = Vec::new();
    let mut i: usize = 0;
    proof {
        lemma_text_order();
        assert(keyed_genres(keys@, genres@) =~= genre_groups(tracks@.take(0)));
    }
    while i < tracks.len()
        invariant
            i <= tracks@.len(),
            keys@.len() == genres@.len(),
            no_genre_chars@ == no_genre(),
            strict_total(by_text()),
            keyed_genres(keys@, genres@) == genre_groups(tracks@.take(i as int)),
        decreases tracks.len() - i,
    {
        let t = &tracks[i];
        let ghost tv = tracks@.take(i + 1);
        proof {
            assert(tv.drop_last() =~= tracks@.take(i as int));
            assert(tv.last() == *t);
        }
        let trimmed = trim_chars(&chars_of(t.genre.as_str()));
        let name = if trimmed.len() == 0 {
            slice_of(&no_genre_chars, 0, no_genre_chars.len())
        } else {
            trimmed
        };
        assert(name@ == genre_name(*t));
        let key = fold_chars(string_of(&name).as_str());
        let ghost gs = keyed_genres(keys@, genres@);
        let mut p: usize = 0;
        while p < keys.len() && text_less(&keys[p], &key)
            invariant
                p <= keys@.len(),
                keys@.len() == genres@.len(),
                gs == keyed_genres(keys@, genres@),
                forall|j: int| 0 <= j < p ==> #[trigger] by_text()(gs[j].0, key@),
            decreases keys.len() - p,
        {
            assert(gs[p as int].0 == keys@[p as int]@);
            p = p + 1;
        }
        let ghost fresh = GenreView { name: name@, track_ids: seq![t.id@] };
        proof {
            if p < keys@.len() {
                assert(gs[p as int].0 == keys@[p as int]@);
            }
            lemma_upsert_at(gs, key@, by_text(), fresh, add_to_genre(t.id@), p as int);
        }
        if p < keys.len() && chars_eq(&keys[p], &key) {
            let ghost old_keys = keys@;
            let ghost old_genres = genres@;
            let mut g = genres.remove(p);
            let ghost g_old = g@;
            let id = t.id.clone();
            let ghost ids = g.track_ids@;
            g.track_ids.push(id);
            proof {
                lemma_string_views_push(ids, id);
                assert(g@ == add_to_genre(t.id@)(g_old));
            }
            genres.insert(p, g);
            proof {
                assert(genres@ =~= old_genres.update(p as int, g));
                assert(keyed_genres(keys@, genres@) =~= gs.take(p as int) + seq![
                    (key@, add_to_genre(t.id@)(gs[p as int].1)),
                ] + gs.skip(p + 1));
            }
        } else {
            let ghost old_keys = keys@;
            let ghost old_genres = genres@;
            let mut ids: Vec<String> = Vec::new();
            ids.push(t.id.clone());
            let g = Genre { name: string_of(&name), track_ids: ids };
            proof {
                assert(string_views(ids@) =~= seq![t.id@]);
                assert(g@ == fresh);
            }
            keys.insert(p, key);
            genres.insert(p, g);
            proof {
                assert(keyed_genres(keys@, genres@) =~= gs.take(p as int) + seq![(key@, fresh)] + gs.skip(
                    p as int,
                ));
            }
        }
        i = i + 1;
    }
    assert(tracks@.take(tracks@.len() as int) =~= tracks@);
    assert(Seq::new(genres@.len(), |i: int| genres@[i]@) =~= genres_spec(tracks@));
    genres
}

/// The statistics kept for a track, as a map lookup by track id finds them.
pub open spec fn stats_for(stats: Seq<TrackStats>, id: Seq<char>) -> Option<TrackStats>
    decreases stats.len(),
{
    if stats.len() == 0 {
        None
    } else if stats[0].track_id@ == id {
        Some(stats[0])
    } else {
        stats_for(stats.drop_first(), id)
    }
}

/// When a track was added, as a map lookup by track id finds it.
pub open spec fn added_for(added: Seq<(String, i64)>, id: Seq<char>) -> Option<i64>
    decreases added.len(),
{
    if added.len() == 0 {
        None
    } else if added[0].0@ == id {
        Some(added[0].1)
    } else {
        added_for(added.drop_first(), id)
    }
}

pub(crate) fn stats_lookup<'a>(stats: &'a [TrackStats], id: &str) -> (r: Option<&'a TrackStats>)
    ensures
        match r {
            Some(s) => stats_for(stats@, id@) == Some(*s),
            None => stats_for(stats@, id@) is None,
        },
{
    let key = chars_of(id);
    let mut i: usize = 0;
    assert(stats@.skip(0) =~= stats@);
    while i < stats.len()
        invariant
            i <= stats@.len(),
            key@ == id@,
            stats_for(stats@, id@) == stats_for(stats@.skip(i as int), id@),
        decreases stats.len() - i,
    {
        let ghost rest = stats@.skip(i as int);
        assert(rest[0] == stats@[i as int]);
        assert(rest.drop_first() =~= stats@.skip(i + 1));
        if chars_eq(&chars_of(stats[i].track_id.as_str()), &key) {
            return Some(&stats[i]);
        }
        i = i + 1;
    }
    None
}

fn added_lookup(added: &[(String, i64)], id: &str) -> (r: Option<i64>)
    ensures
        r == added_for(added@, id@),
{
    let key = chars_of(id);
    let mut i: usize = 0;
    assert(added@.skip(0) =~= added@);
    while i < added.len()
        invariant
            i <= added@.len(),
            key@ == id@,
            added_for(added@, id@) == added_for(added@.skip(i as int), id@),
        decreases added.len() - i,
    {
        let ghost rest = added@.skip(i as int);
        assert(rest[0] == added@[i as int]);
        assert(rest.drop_first() =~= added@.skip(i + 1));
        if chars_eq(&chars_of(added[i].0.as_str()), &key) {
            return Some(added[i].1);
        }
        i = i + 1;
    }
    None
}

/// `now.saturating_sub(then)` for `i64`.
pub open spec fn elapsed(now: i64, then: i64) -> int {
    let d = now - then;
    if d > i64::MAX {
        i64::MAX as int
    } else if d < i64::MIN {
        i64::MIN as int
    } else {
        d
    }
}

/// The play count, zero for a track never played.
pub open spec fn play_count_of(stats: Option<TrackStats>) -> u64 {
    match stats {
        Some(s) => s.play_count,
        None => 0,
    }
}

/// When a track was last played, if ever.
pub open spec fn last_played_of(stats: Option<TrackStats>) -> Option<i64> {
    match stats {
        Some(s) => s.last_played_at,
        None => None,
    }
}

/// Whether one rule holds of one track. A rule this version does not know
/// holds of nothing.
pub open spec fn rule_holds(
    rule: SmartRule,
    track: Track,
    stats: Option<TrackStats>,
    added: Seq<(String, i64)>,
    now: i64,
) -> bool {
    let text = match rule.value {
        crate::model::RuleValue::Text(s) => s@,
        _ => Seq::<char>::empty(),
    };
    let number: int = match rule.value {
        crate::model::RuleValue::Integer(v) => v as int,
        _ => 0,
    };
    let flag = match rule.value {
        crate::model::RuleValue::Boolean(b) => b,
        _ => false,
    };
    let at_least = if number > 0 {
        number
    } else {
        0
    };
    let f = rule.field@;
    let op = rule.operator@;
    if f == "title"@ && op == "contains"@ {
        contains_seq(folded(track.title@), folded(text))
    } else if f == "artist"@ && op == "contains"@ {
        contains_seq(folded(track.artist@), folded(text))
    } else if f == "album"@ && op == "contains"@ {
        contains_seq(folded(track.album@), folded(text))
    } else if f == "genre"@ && op == "contains"@ {
        contains_seq(folded(track.genre@), folded(text))
    } else if f == "favorite"@ && op == "is"@ {
        track.favorite == flag
    } else if f == "available"@ && op == "is"@ {
        track.available == flag
    } else if f == "played"@ && op == "is"@ {
        (play_count_of(stats) > 0) == flag
    } else if f == "play_count"@ && op == "gte"@ {
        play_count_of(stats) >= at_least
    } else if f == "duration_ms"@ && op == "gte"@ {
        track.duration_ms >= at_least
    } else if f == "added_days"@ && op == "lte"@ {
        match added_for(added, track.id@) {
            Some(ts) => elapsed(now, ts) <= number * 86_400,
            None => false,
        }
    } else if f == "last_played_days"@ && op == "lte"@ {
        match last_played_of(stats) {
            Some(ts) => elapsed(now, ts) <= number * 86_400,
            None => false,
        }
    } else {
        false
    }
}

/// The text a rule compares with, empty for a rule that holds no text.
pub open spec fn rule_text(rule: SmartRule) -> Seq<char> {
    match rule.value {
        crate::model::RuleValue::Text(s) => s@,
        _ => Seq::<char>::empty(),
    }
}

/// A "contains" rule reads the field it names: on the title, artist, album
/// or genre it holds of a track exactly when that field, folded, contains
/// the rule's text, folded.
pub proof fn lemma_contains_rules_read_their_field(
    rule: SmartRule,
    track: Track,
    stats: Option<TrackStats>,
    added: Seq<(String, i64)>,
    now: i64,
)
    requires
        rule.operator@ == "contains"@,
    ensures
        rule.field@ == "title"@ ==> rule_holds(rule, track, stats, added, now) == contains_seq(
            folded(track.title@),
            folded(rule_text(rule)),
        ),
        rule.field@ == "artist"@ ==> rule_holds(rule, track, stats, added, now) == contains_seq(
            folded(track.artist@),
            folded(rule_text(rule)),
        ),
        rule.field@ == "album"@ ==> rule_holds(rule, track, stats, added, now) == contains_seq(
            folded(track.album@),
            folded(rule_text(rule)),
        ),
        rule.field@ == "genre"@ ==> rule_holds(rule, track, stats, added, now) == contains_seq(
            folded(track.genre@),
            folded(rule_text(rule)),
        ),
{
    reveal_strlit("title");
    reveal_strlit("artist");
    reveal_strlit("album");
    reveal_strlit("genre");
    reveal_strlit("contains");
    assert("artist"@.len() != "title"@.len());
    assert("album"@[0] != "title"@[0]);
    assert("album"@.len() != "artist"@.len());
    assert("genre"@[0] != "title"@[0]);
    assert("genre"@.len() != "artist"@.len());
    assert("genre"@[0] != "album"@[0]);
}

fn is_literal(value: &String, literal: &str) -> (b: bool)
    ensures
        b == (value@ == literal@),
{
    chars_eq(&chars_of(value.as_str()), &chars_of(literal))
}

fn within_days(now: i64, ts: i64, days: i64) -> (b: bool)
    ensures
        b == (elapsed(now, ts) <= days * 86_400),
{
    let d: i128 = now as i128 - ts as i128;
    let clamped: i128 = if d > i64::MAX as i128 {
        i64::MAX as i128
    } else if d < i64::MIN as i128 {
        i64::MIN as i128
    } else {
        d
    };
    let limit: i128 = days as i128 * 86_400;
    clamped <= limit
}

fn contains_folded(field: &String, text: &str) -> (b: bool)
    ensures
        b == contains_seq(folded(field@), folded(text@)),
{
    crate::text::contains_chars(&fold_chars(field.as_str()), &fold_chars(text))
}

/// Whether one rule holds of one track.
pub fn rule_matches(
    rule: &SmartRule,
    track: &Track,
    stats: Option<&TrackStats>,
    added_at: &[(String, i64)],
    now: i64,
) -> (b: bool)
    ensures
        b == rule_holds(*rule, *track, match stats {
            Some(s) => Some(*s),
            None => None,
        }, added_at@, now),
{
    let text: &str = match rule.value.as_str() {
        Some(t) => t,
        None => "",
    };
    proof {
        reveal_strlit("");
    }
    assert(text@ == match rule.value {
        crate::model::RuleValue::Text(s) => s@,
        _ => Seq::<char>::empty(),
    });
    let number: i64 = match rule.value.as_i64() {
        Some(v) => v,
        None => 0,
    };
    let flag: bool = match rule.value.as_bool() {
        Some(v) => v,
        None => false,
    };
    let plays: u64 = match stats {
        Some(s) => s.play_count,
        None => 0,
    };
    let at_least: u64 = if number > 0 {
        number as u64
    } else {
        0
    };
    let f = &rule.field;
    let op = &rule.operator;
    if is_literal(f, "title") && is_literal(op, "contains") {
        contains_folded(&track.title, text)
    } else if is_literal(f, "artist") && is_literal(op, "contains") {
        contains_folded(&track.artist, text)
    } else if is_literal(f, "album") && is_literal(op, "contains") {
        contains_folded(&track.album, text)
    } else if is_literal(f, "genre") && is_literal(op, "contains") {
        contains_folded(&track.genre, text)
    } else if is_literal(f, "favorite") && is_literal(op, "is") {
        track.favorite == flag
    } else if is_literal(f, "available") && is_literal(op, "is") {
        track.available == flag
    } else if is_literal(f, "played") && is_literal(op, "is") {
        (plays > 0) == flag
    } else if is_literal(f, "play_count") && is_literal(op, "gte") {
        plays >= at_least
    } else if is_literal(f, "duration_ms") && is_literal(op, "gte") {
        track.duration_ms >= at_least
    } else if is_literal(f, "added_days") && is_literal(op, "lte") {
        match added_lookup(added_at, track.id.as_str()) {
            Some(ts) => within_days(now, ts, number),
            None => false,
        }
    } else if is_literal(f, "last_played_days") && is_literal(op, "lte") {
        let last = match stats {
            Some(s) => s.last_played_at,
            None => None,
        };
        match last {
            Some(ts) => within_days(now, ts, number),
            None => false,
        }
    } else {
        false
    }
}

/// Whether every rule holds.
pub open spec fn all_hold(
    rules: Seq<SmartRule>,
    track: Track,
    stats: Option<TrackStats>,
    added: Seq<(String, i64)>,
    now: i64,
) -> bool {
    forall|j: int| 0 <= j < rules.len() ==> rule_holds(#[trigger] rules[j], track, stats, added, now)
}

/// Whether some rule holds.
pub open spec fn any_holds(
    rules: Seq<SmartRule>,
    track: Track,
    stats: Option<TrackStats>,
    added: Seq<(String, i64)>,
    now: i64,
) -> bool {
    exists|j: int| 0 <= j < rules.len() && rule_holds(#[trigger] rules[j], track, stats, added, now)
}

/// Whether a track belongs to a smart playlist.
pub open spec fn in_smart_playlist(
    playlist: SmartPlaylist,
    track: Track,
    stats: Seq<TrackStats>,
    added: Seq<(String, i64)>,
    now: i64,
) -> bool {
    let s = stats_for(stats, track.id@);
    match playlist.match_mode {
        SmartMatch::All => all_hold(playlist.rules@, track, s, added, now),
        SmartMatch::Any => any_holds(playlist.rules@, track, s, added, now),
    }
}

/// The tracks that belong to a smart playlist, in library order.
pub open spec fn smart_members(
    playlist: SmartPlaylist,
    tracks: Seq<Track>,
    stats: Seq<TrackStats>,
    added: Seq<(String, i64)>,
    now: i64,
) -> Seq<Track>
    decreases tracks.len(),
{
    if tracks.len() == 0 {
        seq![]
    } else {
        let rest = smart_members(playlist, tracks.drop_last(), stats, added, now);
        if in_smart_playlist(playlist, tracks.last(), stats, added, now) {
            rest.push(tracks.last())
        } else {
            rest
        }
    }
}

/// Whether a sort field orders by a number rather than by title.
pub open spec fn numeric_field(field: Seq<char>) -> bool {
    field == "added_at"@ || field == "last_played"@ || field == "play_count"@ || field
        == "duration"@
}

/// An optional timestamp as a number that orders as `Option` does: a
/// missing one before every present one.
pub open spec fn opt_key(o: Option<i64>) -> int {
    match o {
        Some(v) => v as int,
        None => i64::MIN - 1,
    }
}

/// The number a numeric sort field orders a track by.
pub open spec fn sort_number(
    field: Seq<char>,
    stats: Seq<TrackStats>,
    added: Seq<(String, i64)>,
    t: Track,
) -> int {
    if field == "added_at"@ {
        opt_key(added_for(added, t.id@))
    } else if field == "last_played"@ {
        opt_key(last_played_of(stats_for(stats, t.id@)))
    } else if field == "play_count"@ {
        play_count_of(stats_for(stats, t.id@)) as int
    } else {
        t.duration_ms as int
    }
}

/// Ascending order by a sort field; any field this version does not know
/// orders by folded title.
pub open spec fn sort_less(
    field: Seq<char>,
    stats: Seq<TrackStats>,
    added: Seq<(String, i64)>,
    a: Track,
    b: Track,
) -> bool {
    if numeric_field(field) {
        sort_number(field, stats, added, a) < sort_number(field, stats, added, b)
    } else {
        text_lt(folded(a.title@), folded(b.title@))
    }
}

/// The order of a smart playlist, reversed when it is descending.
pub open spec fn smart_before(
    playlist: SmartPlaylist,
    stats: Seq<TrackStats>,
    added: Seq<(String, i64)>,
) -> spec_fn(Track, Track) -> bool {
    |a: Track, b: Track|
        if playlist.descending {
            sort_less(playlist.sort_field@, stats, added, b, a)
        } else {
            sort_less(playlist.sort_field@, stats, added, a, b)
        }
}

/// The ids a smart playlist lists: its members in its order (stable, so
/// members that tie keep library order), cut to its limit.
pub open spec fn smart_playlist_ids(
    playlist: SmartPlaylist,
    tracks: Seq<Track>,
    stats: Seq<TrackStats>,
    added: Seq<(String, i64)>,
    now: i64,
) -> Seq<Seq<char>> {
    let ordered = sorted_by(
        smart_members(playlist, tracks, stats, added, now),
        smart_before(playlist, stats, added),
    );
    let n = match playlist.limit {
        Some(l) => if l < ordered.len() {
            l as nat
        } else {
            ordered.len()
        },
        None => ordered.len(),
    };
    Seq::new(n, |i: int| ordered[i].id@)
}

fn playlist_holds(
    playlist: &SmartPlaylist,
    track: &Track,
    stats: &[TrackStats],
    added_at: &[(String, i64)],
    now: i64,
) -> (b: bool)
    ensures
        b == in_smart_playlist(*playlist, *track, stats@, added_at@, now),
{
    let s = stats_lookup(stats, track.id.as_str());
    let ghost sv = stats_for(stats@, track.id@);
    let all = match playlist.match_mode {
        SmartMatch::All => true,
        SmartMatch::Any => false,
    };
    let rules = &playlist.rules;
    let mut j: usize = 0;
    while j < rules.len()
        invariant
            j <= rules@.len(),
            rules@ == playlist.rules@,
            sv == stats_for(stats@, track.id@),
            sv == match s {
                Some(x) => Some(*x),
                None => None,
            },
            all == (playlist.match_mode == SmartMatch::All),
            all ==> forall|k: int| 0 <= k < j ==> rule_holds(#[trigger] rules@[k], *track, sv, added_at@, now),
            !all ==> forall|k: int| 0 <= k < j ==> !rule_holds(#[trigger] rules@[k], *track, sv, added_at@, now),
        decreases rules.len() - j,
    {
        let h = rule_matches(&rules[j], track, s, added_at, now);
        assert(h == rule_holds(rules@[j as int], *track, sv, added_at@, now));
        if all && !h {
            assert(!all_hold(playlist.rules@, *track, sv, added_at@, now));
            return false;
        }
        if !all && h {
            assert(any_holds(playlist.rules@, *track, sv, added_at@, now));
            return true;
        }
        j = j + 1;
    }
    all
}

fn sort_number_exec(
    field: &String,
    stats: &[TrackStats],
    added_at: &[(String, i64)],
    t: &Track,
) -> (k: i128)
    ensures
        k == sort_number(field@, stats@, added_at@, *t),
{
    if is_literal(field, "added_at") {
        match added_lookup(added_at, t.id.as_str()) {
            Some(v) => v as i128,
            None => i64::MIN as i128 - 1,
        }
    } else if is_literal(field, "last_played") {
        let last = match stats_lookup(stats, t.id.as_str()) {
            Some(s) => s.last_played_at,
            None => None,
        };
        match last {
            Some(v) => v as i128,
            None => i64::MIN as i128 - 1,
        }
    } else if is_literal(field, "play_count") {
        match stats_lookup(stats, t.id.as_str()) {
            Some(s) => s.play_count as i128,
            None => 0,
        }
    } else {
        t.duration_ms as i128
    }
}

fn key_before(numeric: bool, descending: bool, na: i128, ta: &[char], nb: i128, tb: &[char]) -> (r:
    bool)
    ensures
        r == if numeric {
            if descending {
                nb < na
            } else {
                na < nb
            }
        } else {
            if descending {
                text_lt(tb@, ta@)
            } else {
                text_lt(ta@, tb@)
            }
        },
{
    if numeric {
        if descending {
            nb < na
        } else {
            na < nb
        }
    } else {
        if descending {
            text_less(tb, ta)
        } else {
            text_less(ta, tb)
        }
    }
}

/// The tracks of `tracks` at the given positions.
pub open spec fn at_positions(tracks: Seq<Track>, positions: Seq<usize>) -> Seq<Track> {
    Seq::new(positions.len(), |j: int| tracks[positions[j] as int])
}

/// The ids of the tracks a smart playlist lists, in its order.
///
/// `stats` holds at most one entry per track id (the first is the one read),
/// and so does `added_at`, which pairs a track id with when it was added.
pub fn evaluate_smart_playlist(
    playlist: &SmartPlaylist,
    tracks: &[Track],
    stats: &[TrackStats],
    added_at: &[(String, i64)],
    now: i64,
) -> (ids: Vec<String>)
    ensures
        string_views(ids@) == smart_playlist_ids(*playlist, tracks@, stats@, added_at@, now),
{
    let field = &playlist.sort_field;
    let numeric = is_literal(field, "added_at") || is_literal(field, "last_played") || is_literal(
        field,
        "play_count",
    ) || is_literal(field, "duration");
    let descending = playlist.descending;
    let ghost before = smart_before(*playlist, stats@, added_at@);
    let mut order: Vec<usize> = Vec::new();
    let mut numbers: Vec<i128> = Vec::new();
    let mut titles: Vec<Vec<char>> = Vec::new();
    let mut i: usize = 0;
    while i < tracks.len()
        invariant
            i <= tracks@.len(),
            field@ == playlist.sort_field@,
            descending == playlist.descending,
            numeric == numeric_field(field@),
            before == smart_before(*playlist, stats@, added_at@),
            order@.len() == numbers@.len(),
            order@.len() == titles@.len(),
            forall|j: int| 0 <= j < order@.len() ==> #[trigger] order@[j] < i,
            forall|j: int|
                0 <= j < order@.len() ==> numbers@[j] == sort_number(
                    field@,
                    stats@,
                    added_at@,
                    tracks@[#[trigger] order@[j] as int],
                ),
            forall|j: int|
                0 <= j < order@.len() ==> (#[trigger] titles@[j])@ == folded(
                    tracks@[order@[j] as int].title@,
                ),
            at_positions(tracks@, order@) == sorted_by(
                smart_members(*playlist, tracks@.take(i as int), stats@, added_at@, now),
                before,
            ),
        decreases tracks.len() - i,
    {
        let ghost t = tracks@.take(i + 1);
        proof {
            assert(t.drop_last() =~= tracks@.take(i as int));
            assert(t.last() == tracks@[i as int]);
        }
        let track = &tracks[i];
        if playlist_holds(playlist, track, stats, added_at, now) {
            let number = sort_number_exec(field, stats, added_at, track);
            let title = fold_chars(track.title.as_str());
            let mut p: usize = 0;
            while p < order.len() && !key_before(
                numeric,
                descending,
                number,
                &title,
                numbers[p],
                &titles[p],
            )
                invariant
                    p <= order@.len(),
                    order@.len() == numbers@.len(),
                    order@.len() == titles@.len(),
                    numeric == numeric_field(field@),
                    descending == playlist.descending,
                    field@ == playlist.sort_field@,
                    before == smart_before(*playlist, stats@, added_at@),
                    number == sort_number(field@, stats@, added_at@, *track),
                    title@ == folded(track.title@),
                    forall|j: int|
                        0 <= j < order@.len() ==> numbers@[j] == sort_number(
                            field@,
                            stats@,
                            added_at@,
                            tracks@[#[trigger] order@[j] as int],
                        ),
                    forall|j: int|
                        0 <= j < order@.len() ==> (#[trigger] titles@[j])@ == folded(
                            tracks@[order@[j] as int].title@,
                        ),
                    forall|j: int|
                        0 <= j < p ==> !before(*track, #[trigger] at_positions(tracks@, order@)[j]),
                decreases order.len() - p,
            {
                p = p + 1;
            }
            let ghost sorted = at_positions(tracks@, order@);
            proof {
                if p < order@.len() {
                    assert(sorted[p as int] == tracks@[order@[p as int] as int]);
                }
                lemma_insert_by_at(sorted, *track, before, p as int);
                lemma_sorted_by_push(
                    smart_members(*playlist, tracks@.take(i as int), stats@, added_at@, now),
                    *track,
                    before,
                );
            }
            let ghost old_order = order@;
            let ghost old_numbers = numbers@;
            let ghost old_titles = titles@;
            order.insert(p, i);
            numbers.insert(p, number);
            titles.insert(p, title);
            proof {
                assert(at_positions(tracks@, order@) =~= sorted.take(p as int) + seq![*track]
                    + sorted.skip(p as int));
                assert forall|j: int| 0 <= j < order@.len() implies #[trigger] order@[j] < i + 1 by {
                    if j < p {
                        assert(order@[j] == old_order[j]);
                    } else if j > p {
                        assert(order@[j] == old_order[j - 1]);
                    }
                }
                assert forall|j: int|
                    0 <= j < order@.len() implies numbers@[j] == sort_number(
                        field@,
                        stats@,
                        added_at@,
                        tracks@[#[trigger] order@[j] as int],
                    ) by {
                    if j < p {
                        assert(order@[j] == old_order[j]);
                        assert(numbers@[j] == old_numbers[j]);
                    } else if j > p {
                        assert(order@[j] == old_order[j - 1]);
                        assert(numbers@[j] == old_numbers[j - 1]);
                    }
                }
                assert forall|j: int|
                    0 <= j < order@.len() implies (#[trigger] titles@[j])@ == folded(
                        tracks@[order@[j] as int].title@,
                    ) by {
                    if j < p {
                        assert(order@[j] == old_order[j]);
                        assert(titles@[j] == old_titles[j]);
                    } else if j > p {
                        assert(order@[j] == old_order[j - 1]);
                        assert(titles@[j] == old_titles[j - 1]);
                    }
                }
            }
        }
        i = i + 1;
    }
    assert(tracks@.take(tracks@.len() as int) =~= tracks@);
    let ghost ordered = at_positions(tracks@, order@);
    let n = match playlist.limit {
        Some(l) => if l < order.len() {
            l
        } else {
            order.len()
        },
        None => order.len(),
    };
    let mut ids: Vec<String> = Vec::new();
    let mut k: usize = 0;
    while k < n
        invariant
            k <= n <= order@.len(),
            ordered == at_positions(tracks@, order@),
            forall|j: int| 0 <= j < order@.len() ==> #[trigger] order@[j] < tracks@.len(),
            string_views(ids@) == Seq::new(k as nat, |j: int| ordered[j].id@),
        decreases n - k,
    {
        let id = tracks[order[k]].id.clone();
        proof {
            lemma_string_views_push(ids@, id);
        }
        ids.push(id);
        k = k + 1;
        assert(string_views(ids@) =~= Seq::new(k as nat, |j: int| ordered[j].id@));
    }
    ids
}

} // verus!
