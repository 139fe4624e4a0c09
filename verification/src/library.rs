//! Scanning music folders: which files are tracks, what a track is called
//! when its tags say nothing, how sources and tracks are identified, and the
//! bookkeeping of a scan.
//!
//! Walking the folders, reading tags and decoding covers is the program's
//! work; it hands the results here.

use vstd::prelude::*;

use crate::i18n::ascii_lower_code;
use crate::pathname::{
    extension_chars, extension_of, file_name_of, file_stem_of, parent_of, path_file_name,
    path_file_stem, path_parent,
    strip_path_prefix, stripped_path,
};
use crate::db::ScannedTrack;
use crate::grouping::{text_less, text_lt};
use crate::model::Track;
use crate::sorting::{lemma_insert_by_at, lemma_sorted_by_push, sorted_by};
use crate::model::{normalize_text, parse_slash_number, slash_number};
use crate::numbers::parse_u64;
use crate::text::{chars_eq, chars_of, normalize_ws, opt_chars, string_of, string_views};

verus! {

/// The BLAKE3 hash of `input`.
pub uninterp spec fn blake3_digest(input: Seq<u8>) -> Seq<u8>;

/// `blake3::hash`, as its 32 bytes.
///
/// Trusted: the bytes are the BLAKE3 hash of `input`, named by
/// `blake3_digest`, and there are 32 of them (`OUT_LEN`).
#[verifier::external_body]
fn blake3_hash(input: &[u8]) -> (digest: [u8; 32])
    ensures
        digest@ == blake3_digest(input@),
{
    *blake3::hash(input).as_bytes()
}

/// A hexadecimal digit, lower case.
pub open spec fn hex_digit(n: nat) -> char {
    if n < 10 {
        crate::numbers::digit_char(n)
    } else if n == 10 {
        'a'
    } else if n == 11 {
        'b'
    } else if n == 12 {
        'c'
    } else if n == 13 {
        'd'
    } else if n == 14 {
        'e'
    } else {
        'f'
    }
}

/// Bytes in lower-case hexadecimal, two digits each, as `Hash::to_hex`
/// writes them.
pub open spec fn lower_hex(bytes: Seq<u8>) -> Seq<char>
    decreases bytes.len(),
{
    if bytes.len() == 0 {
        seq![]
    } else {
        let b = bytes.last();
        lower_hex(bytes.drop_last()) + seq![hex_digit((b / 16) as nat), hex_digit((b % 16) as nat)]
    }
}

fn hex_digit_of(n: u8) -> (c: char)
    requires
        n < 16,
    ensures
        c == hex_digit(n as nat),
{
    if n < 10 {
        crate::numbers::digit_to_char(n as u64)
    } else if n == 10 {
        'a'
    } else if n == 11 {
        'b'
    } else if n == 12 {
        'c'
    } else if n == 13 {
        'd'
    } else if n == 14 {
        'e'
    } else {
        'f'
    }
}

/// The hash of a text, as the hexadecimal of the BLAKE3 hash of its UTF-8
/// bytes.
pub open spec fn hash_hex_spec(text: Seq<char>) -> Seq<char> {
    lower_hex(blake3_digest(vstd::utf8::encode_utf8(text)))
}

/// The hash of a text, in hexadecimal.
pub fn hash_hex(text: &str) -> (h: String)
    ensures
        h@ == hash_hex_spec(text@),
{
    let digest = blake3_hash(text.as_bytes());
    let mut out: Vec<char> = Vec::new();
    let mut i: usize = 0;
    while i < 32
        invariant
            i <= 32,
            digest@.len() == 32,
            out@ == lower_hex(digest@.take(i as int)),
        decreases 32 - i,
    {
        let b = digest[i];
        let ghost t = digest@.take(i + 1);
        assert(t.drop_last() =~= digest@.take(i as int));
        assert(t.last() == b);
        out.push(hex_digit_of(b / 16));
        out.push(hex_digit_of(b % 16));
        i = i + 1;
        assert(out@ =~= lower_hex(t));
    }
    assert(digest@.take(32) =~= digest@);
    string_of(&out)
}

fn concat3(a: &str, sep: char, b: &str) -> (out: String)
    ensures
        out@ == a@ + seq![sep] + b@,
{
    let mut chars = chars_of(a);
    chars.push(sep);
    let rest = chars_of(b);
    let ghost head = chars@;
    let mut i: usize = 0;
    while i < rest.len()
        invariant
            i <= rest@.len(),
            chars@ == head + rest@.take(i as int),
        decreases rest.len() - i,
    {
        chars.push(rest[i]);
        i = i + 1;
        assert(chars@ =~= head + rest@.take(i as int));
    }
    assert(rest@.take(rest@.len() as int) =~= rest@);
    string_of(&chars)
}

/// What identifies a music source, before it is hashed: the volume's UUID
/// and the folder's place within the volume where there is a UUID, so the
/// same drive is recognised wherever it is mounted; the path otherwise.
pub open spec fn source_identity_spec(
    uuid: Option<Seq<char>>,
    mount_target: Option<Seq<char>>,
    root: Seq<char>,
) -> Seq<char> {
    match uuid {
        Some(u) => {
            let within = match mount_target {
                Some(m) => match stripped_path(root, m) {
                    Some(rest) => rest,
                    None => root,
                },
                None => root,
            };
            "uuid:"@ + u + seq!['\0'] + within
        },
        None => "path:"@ + root,
    }
}

/// A folder keeps its identity when its drive is mounted somewhere else:
/// with a volume UUID, what counts is the folder's place within the volume.
pub proof fn lemma_identity_follows_the_volume(
    uuid: Seq<char>,
    first_mount: Seq<char>,
    first_root: Seq<char>,
    second_mount: Seq<char>,
    second_root: Seq<char>,
)
    requires
        stripped_path(first_root, first_mount) is Some,
        stripped_path(first_root, first_mount) == stripped_path(second_root, second_mount),
    ensures
        source_identity_spec(Some(uuid), Some(first_mount), first_root) == source_identity_spec(
            Some(uuid),
            Some(second_mount),
            second_root,
        ),
{
}

/// Separate folders on one volume are separate sources: where their places
/// within the volume differ, so do their identities.
pub proof fn lemma_folders_on_one_volume_stay_apart(uuid: Seq<char>, mount: Seq<char>, first: Seq<char>, second: Seq<char>)
    requires
        stripped_path(first, mount) is Some,
        stripped_path(second, mount) is Some,
        stripped_path(first, mount) != stripped_path(second, mount),
    ensures
        source_identity_spec(Some(uuid), Some(mount), first) != source_identity_spec(Some(uuid), Some(mount), second),
{
    let head = "uuid:"@ + uuid + seq!['\0'];
    let a = stripped_path(first, mount)->0;
    let b = stripped_path(second, mount)->0;
    if head + a == head + b {
        assert((head + a).skip(head.len() as int) =~= a);
        assert((head + b).skip(head.len() as int) =~= b);
    }
}

/// An optional string slice as text.
pub open spec fn opt_str_view(o: Option<&str>) -> Option<Seq<char>> {
    match o {
        Some(s) => Some(s@),
        None => None,
    }
}

/// What identifies a music source, before it is hashed.
pub fn source_identity(uuid: Option<&str>, mount_target: Option<&str>, root: &str) -> (id: String)
    ensures
        id@ == source_identity_spec(opt_str_view(uuid), opt_str_view(mount_target), root@),
{
    match uuid {
        Some(u) => {
            let within: String = match mount_target {
                Some(m) => match strip_path_prefix(root, m) {
                    Some(rest) => rest,
                    None => root.to_owned(),
                },
                None => root.to_owned(),
            };
            let prefix = "uuid:";
            proof {
                reveal_strlit("uuid:");
            }
            let mut head = chars_of(prefix);
            let tail = chars_of(u);
            let mut i: usize = 0;
            let ghost start = head@;
            while i < tail.len()
                invariant
                    i <= tail@.len(),
                    head@ == start + tail@.take(i as int),
                decreases tail.len() - i,
            {
                head.push(tail[i]);
                i = i + 1;
                assert(head@ =~= start + tail@.take(i as int));
            }
            assert(tail@.take(tail@.len() as int) =~= tail@);
            concat3(string_of(&head).as_str(), '\0', within.as_str())
        },
        None => {
            let mut head = chars_of("path:");
            let tail = chars_of(root);
            let mut i: usize = 0;
            let ghost start = head@;
            while i < tail.len()
                invariant
                    i <= tail@.len(),
                    head@ == start + tail@.take(i as int),
                decreases tail.len() - i,
            {
                head.push(tail[i]);
                i = i + 1;
                assert(head@ =~= start + tail@.take(i as int));
            }
            assert(tail@.take(tail@.len() as int) =~= tail@);
            string_of(&head)
        },
    }
}

/// The id of a music source: the hash of its identity.
pub fn source_id(uuid: Option<&str>, mount_target: Option<&str>, root: &str) -> (id: String)
    ensures
        id@ == hash_hex_spec(source_identity_spec(opt_str_view(uuid), opt_str_view(mount_target), root@)),
{
    let identity = source_identity(uuid, mount_target, root);
    hash_hex(identity.as_str())
}

/// The id of a track: the hash of its source's id and its path within the
/// source.
pub fn track_id(source_id: &str, relative: &str) -> (id: String)
    ensures
        id@ == hash_hex_spec(source_id@ + seq!['\0'] + relative@),
{
    let joined = concat3(source_id, '\0', relative);
    hash_hex(joined.as_str())
}

/// What a cached cover is filed under: the hash of its album's artist and
/// title.
pub fn cover_key(artist: &str, album: &str) -> (key: String)
    ensures
        key@ == hash_hex_spec(artist@ + seq!['\0'] + album@),
{
    let joined = concat3(artist, '\0', album);
    hash_hex(joined.as_str())
}

/// Whether a file-name character is part of a track-number prefix.
pub open spec fn is_number_prefix_char(c: char) -> bool {
    ('0' <= c && c <= '9') || c == ' ' || c == '-' || c == '.' || c == '_'
}

/// The number of prefix characters at the start of `s`.
pub open spec fn number_prefix_len(s: Seq<char>) -> nat
    decreases s.len(),
{
    if s.len() > 0 && is_number_prefix_char(s[0]) {
        1 + number_prefix_len(s.drop_first())
    } else {
        0
    }
}

/// A file name without a leading track number such as `01 - `; a name that
/// is nothing but such a prefix is kept whole.
pub open spec fn strip_track_prefix_spec(stem: Seq<char>) -> Seq<char> {
    let k = number_prefix_len(stem);
    if k >= stem.len() {
        stem
    } else {
        stem.skip(k as int)
    }
}

proof fn lemma_number_prefix(s: Seq<char>, k: int)
    requires
        0 <= k <= s.len(),
        forall|j: int| 0 <= j < k ==> is_number_prefix_char(#[trigger] s[j]),
        k == s.len() || !is_number_prefix_char(s[k]),
    ensures
        number_prefix_len(s) == k,
    decreases k,
{
    if k > 0 {
        let t = s.drop_first();
        assert forall|j: int| 0 <= j < k - 1 implies is_number_prefix_char(#[trigger] t[j]) by {
            assert(t[j] == s[j + 1]);
        }
        if k < s.len() {
            assert(t[k - 1] == s[k]);
        }
        lemma_number_prefix(t, k - 1);
    } else {
    }
}

/// A file name without a leading track number, for a track whose tags give
/// no title.
pub fn strip_track_prefix(stem: &str) -> (out: String)
    ensures
        out@ == strip_track_prefix_spec(stem@),
{
    let chars = chars_of(stem);
    let mut k: usize = 0;
    while k < chars.len() && (('0' <= chars[k] && chars[k] <= '9') || chars[k] == ' ' || chars[k]
        == '-' || chars[k] == '.' || chars[k] == '_')
        invariant
            k <= chars@.len(),
            forall|j: int| 0 <= j < k ==> is_number_prefix_char(#[trigger] chars@[j]),
        decreases chars.len() - k,
    {
        k = k + 1;
    }
    proof {
        lemma_number_prefix(chars@, k as int);
    }
    if k >= chars.len() {
        stem.to_owned()
    } else {
        let rest = crate::text::slice_of(&chars, k, chars.len());
        string_of(&rest)
    }
}

/// Whether two texts are the same once ASCII capitals are lowered in both
/// (`str::eq_ignore_ascii_case`).
pub open spec fn same_ignoring_ascii_case(a: Seq<char>, b: Seq<char>) -> bool {
    a.len() == b.len() && forall|i: int|
        0 <= i < a.len() ==> ascii_lower_code(#[trigger] a[i]) == ascii_lower_code(b[i])
}

/// The formats indexed when the configuration names none: FLAC, MP3,
/// M4A/AAC/ALAC, Ogg, Opus, WAV, AIFF, WavPack and Monkey's Audio.
pub open spec fn default_extension_list() -> Seq<Seq<char>> {
    seq![
        "flac"@, "mp3"@, "m4a"@, "aac"@, "alac"@, "ogg"@, "oga"@, "opus"@, "wav"@, "aiff"@, "aif"@,
        "wv"@, "ape"@,
    ]
}

/// Whether a file name's extension is one of `extensions`, in any ASCII case.
pub open spec fn has_audio_extension(name: Seq<char>, extensions: Seq<Seq<char>>) -> bool {
    match extension_of(name) {
        Some(e) => exists|i: int| 0 <= i < extensions.len() && same_ignoring_ascii_case(e, #[trigger] extensions[i]),
        None => false,
    }
}

/// Whether a path names a file of one of the indexed formats.
pub open spec fn is_audio_path(path: Seq<char>, extensions: Seq<Seq<char>>) -> bool {
    match path_file_name(path) {
        Some(name) => has_audio_extension(name, extensions),
        None => false,
    }
}

/// The extensions to index: the configured ones, or the built-in list
/// where the configuration names none.
pub open spec fn effective_extensions(configured: Seq<Seq<char>>) -> Seq<Seq<char>> {
    if configured.len() == 0 {
        default_extension_list()
    } else {
        configured
    }
}

pub(crate) fn same_chars_ignoring_case(a: &Vec<char>, b: &Vec<char>) -> (r: bool)
    ensures
        r == same_ignoring_ascii_case(a@, b@),
{
    if a.len() != b.len() {
        return false;
    }
    let mut i: usize = 0;
    while i < a.len()
        invariant
            i <= a@.len(),
            a@.len() == b@.len(),
            forall|j: int| 0 <= j < i ==> ascii_lower_code(#[trigger] a@[j]) == ascii_lower_code(b@[j]),
        decreases a.len() - i,
    {
        if crate::i18n::lower_code(a[i]) != crate::i18n::lower_code(b[i]) {
            return false;
        }
        i = i + 1;
    }
    true
}

/// The extensions indexed when the configuration names none.
pub fn default_extensions() -> (r: Vec<String>)
    ensures
        string_views(r@) == default_extension_list(),
{
    let mut r: Vec<String> = Vec::new();
    r.push("flac".to_string());
    r.push("mp3".to_string());
    r.push("m4a".to_string());
    r.push("aac".to_string());
    r.push("alac".to_string());
    r.push("ogg".to_string());
    r.push("oga".to_string());
    r.push("opus".to_string());
    r.push("wav".to_string());
    r.push("aiff".to_string());
    r.push("aif".to_string());
    r.push("wv".to_string());
    r.push("ape".to_string());
    assert(string_views(r@) =~= default_extension_list());
    r
}

/// The extensions to index: the configured ones, or the built-in list
/// where the configuration names none.
pub fn scan_extensions(configured: Vec<String>) -> (r: Vec<String>)
    ensures
        string_views(r@) == effective_extensions(string_views(configured@)),
{
    if configured.len() == 0 {
        default_extensions()
    } else {
        configured
    }
}

/// Whether a file name has one of `extensions`, compared without regard to
/// ASCII case.
pub fn is_audio_name(name: &str, extensions: &[String]) -> (b: bool)
    ensures
        b == has_audio_extension(name@, string_views(extensions@)),
{
    match extension_chars(&chars_of(name)) {
        Some(e) => {
            let mut i: usize = 0;
            while i < extensions.len()
                invariant
                    i <= extensions@.len(),
                    extension_of(name@) == Some(e@),
                    forall|j: int| 0 <= j < i ==> !same_ignoring_ascii_case(e@, #[trigger] string_views(extensions@)[j]),
                decreases extensions.len() - i,
            {
                if same_chars_ignoring_case(&e, &chars_of(extensions[i].as_str())) {
                    assert(same_ignoring_ascii_case(e@, string_views(extensions@)[i as int]));
                    return true;
                }
                i = i + 1;
            }
            false
        },
        None => false,
    }
}

/// Whether a path names a file of one of the indexed formats.
pub fn is_audio_file(path: &str, extensions: &[String]) -> (b: bool)
    ensures
        b == is_audio_path(path@, string_views(extensions@)),
{
    match file_name_of(path) {
        Some(name) => is_audio_name(name.as_str(), extensions),
        None => false,
    }
}

/// A track copied field by field.
fn copy_track(t: &Track) -> (r: Track)
    ensures
        r == *t,
{
    Track {
        id: t.id.clone(),
        source_id: t.source_id.clone(),
        relative_path: t.relative_path.clone(),
        path: t.path.clone(),
        title: t.title.clone(),
        artist: t.artist.clone(),
        album_artist: t.album_artist.clone(),
        album: t.album.clone(),
        genre: t.genre.clone(),
        year: t.year,
        disc_number: t.disc_number,
        track_number: t.track_number,
        duration_ms: t.duration_ms,
        cover_path: match &t.cover_path {
            Some(c) => Some(c.clone()),
            None => None,
        },
        available: t.available,
        favorite: t.favorite,
    }
}

/// Whether two tracks agree in everything but where the file is and
/// whether it is available.
pub open spec fn same_but_location(a: Track, b: Track) -> bool {
    &&& a.id == b.id
    &&& a.source_id == b.source_id
    &&& a.relative_path == b.relative_path
    &&& a.title == b.title
    &&& a.artist == b.artist
    &&& a.album_artist == b.album_artist
    &&& a.album == b.album
    &&& a.genre == b.genre
    &&& a.year == b.year
    &&& a.disc_number == b.disc_number
    &&& a.track_number == b.track_number
    &&& a.duration_ms == b.duration_ms
    &&& a.cover_path == b.cover_path
    &&& a.favorite == b.favorite
}

/// Whether what an earlier scan read of a file can be used again: the
/// file's size and modification time are what they were, and the cover it
/// pointed to (if any) is still a valid cached cover.
pub open spec fn reusable(cached: Option<ScannedTrack>, fingerprint: Option<(u64, i64)>, cover_valid: bool) -> bool {
    match (fingerprint, cached) {
        (Some(f), Some(c)) => c.file_size == f.0 && c.modified_ns == f.1 && (c.track.cover_path is None || cover_valid),
        _ => false,
    }
}

/// What an earlier scan read of a file, carried over to where the file is
/// now, when nothing about it changed.
pub fn reuse_cached(
    cached: Option<&ScannedTrack>,
    fingerprint: Option<(u64, i64)>,
    cover_valid: bool,
    path: &str,
) -> (r: Option<ScannedTrack>)
    ensures
        r is Some <==> reusable(
            match cached {
                Some(c) => Some(*c),
                None => None,
            },
            fingerprint,
            cover_valid,
        ),
        r matches Some(s) ==> cached matches Some(c) && s.file_size == c.file_size && s.modified_ns
            == c.modified_ns && s.track.path@ == path@ && s.track.available && same_but_location(
            s.track,
            c.track,
        ),
{
    match (fingerprint, cached) {
        (Some(f), Some(c)) => {
            if c.file_size == f.0 && c.modified_ns == f.1 && (c.track.cover_path.is_none()
                || cover_valid) {
                let mut track = copy_track(&c.track);
                track.path = path.to_owned();
                track.available = true;
                Some(ScannedTrack { track, file_size: c.file_size, modified_ns: c.modified_ns })
            } else {
                None
            }
        },
        _ => None,
    }
}

/// The order a scan lists its tracks in: by album artist, album, disc,
/// track number and title.
pub open spec fn scan_lt(a: Track, b: Track) -> bool {
    if a.album_artist@ != b.album_artist@ {
        text_lt(a.album_artist@, b.album_artist@)
    } else if a.album@ != b.album@ {
        text_lt(a.album@, b.album@)
    } else if a.disc_number != b.disc_number {
        a.disc_number < b.disc_number
    } else if a.track_number != b.track_number {
        a.track_number < b.track_number
    } else {
        text_lt(a.title@, b.title@)
    }
}

/// `scan_lt` on scanned tracks, as a relation for `sorted_by`.
pub open spec fn by_scan_order() -> spec_fn(ScannedTrack, ScannedTrack) -> bool {
    |a: ScannedTrack, b: ScannedTrack| scan_lt(a.track, b.track)
}

fn text_eq(a: &String, b: &String) -> (r: bool)
    ensures
        r == (a@ == b@),
{
    chars_eq(&chars_of(a.as_str()), &chars_of(b.as_str()))
}

fn text_lt_exec(a: &String, b: &String) -> (r: bool)
    ensures
        r == text_lt(a@, b@),
{
    text_less(&chars_of(a.as_str()), &chars_of(b.as_str()))
}

fn scan_less(a: &Track, b: &Track) -> (r: bool)
    ensures
        r == scan_lt(*a, *b),
{
    if !text_eq(&a.album_artist, &b.album_artist) {
        text_lt_exec(&a.album_artist, &b.album_artist)
    } else if !text_eq(&a.album, &b.album) {
        text_lt_exec(&a.album, &b.album)
    } else if a.disc_number != b.disc_number {
        a.disc_number < b.disc_number
    } else if a.track_number != b.track_number {
        a.track_number < b.track_number
    } else {
        text_lt_exec(&a.title, &b.title)
    }
}

/// What one scan of one source found.
#[derive(Debug, Clone)]
pub struct SourceScan {
    pub id: String,
    pub root: String,
    pub label: String,
    pub tracks: Vec<ScannedTrack>,
    /// Every audio file seen, by its path within the source, whether or not
    /// it could be read; each once.
    pub seen_paths: Vec<String>,
    pub skipped: usize,
    pub errors: Vec<String>,
}

impl SourceScan {
    /// The paths seen, as a set.
    pub open spec fn seen(&self) -> Set<Seq<char>> {
        string_views(self.seen_paths@).to_set()
    }

    /// Each path is seen once.
    pub open spec fn wf(&self) -> bool {
        string_views(self.seen_paths@).no_duplicates()
    }

    /// A scan that has found nothing yet.
    pub fn new(id: String, root: String, label: String) -> (s: Self)
        ensures
            s.wf(),
            s.id == id,
            s.root == root,
            s.label == label,
            s.tracks@.len() == 0,
            s.seen() == Set::<Seq<char>>::empty(),
            s.skipped == 0,
            s.errors@.len() == 0,
    {
        let s = SourceScan {
            id,
            root,
            label,
            tracks: Vec::new(),
            seen_paths: Vec::new(),
            skipped: 0,
            errors: Vec::new(),
        };
        assert(s.seen() =~= Set::<Seq<char>>::empty());
        s
    }

    /// Note an audio file as seen. A path seen before is not listed again.
    pub fn see(&mut self, relative: String)
        ensures
            old(self).wf() ==> final(self).wf(),
            final(self).seen() == old(self).seen().insert(relative@),
            final(self).tracks@ == old(self).tracks@,
            final(self).skipped == old(self).skipped,
            final(self).errors@ == old(self).errors@,
            final(self).id == old(self).id,
            final(self).root == old(self).root,
            final(self).label == old(self).label,
    {
        let ghost before = string_views(self.seen_paths@);
        let mut i: usize = 0;
        let mut present = false;
        while i < self.seen_paths.len()
            invariant
                i <= self.seen_paths@.len(),
                before == string_views(self.seen_paths@),
                present ==> before.contains(relative@),
                !present ==> forall|j: int| 0 <= j < i ==> before[j] != relative@,
            decreases self.seen_paths.len() - i,
        {
            if text_eq(&self.seen_paths[i], &relative) {
                assert(before[i as int] == relative@);
                present = true;
            }
            i = i + 1;
        }
        if present {
            assert(before.to_set().insert(relative@) =~= before.to_set());
        } else {
            let ghost r = relative@;
            self.seen_paths.push(relative);
            assert(string_views(self.seen_paths@) =~= before.push(r));
            proof {
                crate::db::lemma_to_set_push(before, r);
            }
        }
    }

    /// Keep a track that was read.
    pub fn add_track(&mut self, track: ScannedTrack)
        ensures
            final(self).tracks@ == old(self).tracks@.push(track),
            final(self).seen_paths@ == old(self).seen_paths@,
            final(self).skipped == old(self).skipped,
            final(self).errors@ == old(self).errors@,
            final(self).id == old(self).id,
            final(self).root == old(self).root,
            final(self).label == old(self).label,
    {
        self.tracks.push(track);
    }

    /// Count a file that could not be read, with why.
    pub fn add_failure(&mut self, error: String)
        requires
            old(self).skipped < usize::MAX,
        ensures
            final(self).skipped == old(self).skipped + 1,
            final(self).errors@ == old(self).errors@.push(error),
            final(self).tracks@ == old(self).tracks@,
            final(self).seen_paths@ == old(self).seen_paths@,
            final(self).id == old(self).id,
            final(self).root == old(self).root,
            final(self).label == old(self).label,
    {
        self.skipped = self.skipped + 1;
        self.errors.push(error);
    }

    /// Put the tracks in the order a scan lists them: by album artist,
    /// album, disc, track number and title, keeping the order they were
    /// found in among equals.
    pub fn sort_tracks(&mut self)
        ensures
            final(self).tracks@ == sorted_by(old(self).tracks@, by_scan_order()),
            final(self).seen_paths@ == old(self).seen_paths@,
            final(self).skipped == old(self).skipped,
            final(self).errors@ == old(self).errors@,
            final(self).id == old(self).id,
            final(self).root == old(self).root,
            final(self).label == old(self).label,
    {
        let ghost original = self.tracks@;
        let mut pending: Vec<ScannedTrack> = Vec::new();
        std::mem::swap(&mut pending, &mut self.tracks);
        let mut sorted: Vec<ScannedTrack> = Vec::new();
        let mut n: usize = 0;
        let total = pending.len();
        assert(pending@ =~= original.skip(0));
        assert(sorted@ =~= sorted_by(original.take(0), by_scan_order()));
        while n < total
            invariant
                n <= total,
                total == original.len(),
                pending@ == original.skip(n as int),
                sorted@ == sorted_by(original.take(n as int), by_scan_order()),
            decreases total - n,
        {
            let ghost rest = pending@;
            let item = pending.remove(0);
            assert(item == original[n as int]);
            assert(pending@ =~= original.skip(n + 1));
            let mut p: usize = 0;
            while p < sorted.len() && !scan_less(&item.track, &sorted[p].track)
                invariant
                    p <= sorted@.len(),
                    forall|j: int| 0 <= j < p ==> !by_scan_order()(item, #[trigger] sorted@[j]),
                decreases sorted.len() - p,
            {
                p = p + 1;
            }
            proof {
                lemma_insert_by_at(sorted@, item, by_scan_order(), p as int);
                assert(original.take(n + 1) =~= original.take(n as int).push(item));
                lemma_sorted_by_push(original.take(n as int), item, by_scan_order());
            }
            let ghost s0 = sorted@;
            sorted.insert(p, item);
            assert(sorted@ =~= s0.take(p as int) + seq![item] + s0.skip(p as int));
            n = n + 1;
        }
        assert(original.take(total as int) =~= original);
        self.tracks = sorted;
    }
}

/// What a scan of every source added up to.
#[derive(Debug, Clone)]
pub struct ScanReport {
    pub sources: usize,
    pub tracks: usize,
    pub skipped: usize,
    pub errors: Vec<String>,
}

impl Default for ScanReport {
    fn default() -> (r: Self)
        ensures
            r.sources == 0,
            r.tracks == 0,
            r.skipped == 0,
            r.errors@.len() == 0,
    {
        ScanReport { sources: 0, tracks: 0, skipped: 0, errors: Vec::new() }
    }
}

impl ScanReport {
    /// Count a source that was scanned.
    pub fn add_scan(&mut self, scan: &SourceScan)
        requires
            old(self).sources < usize::MAX,
            old(self).tracks + scan.tracks@.len() <= usize::MAX,
            old(self).skipped + scan.skipped <= usize::MAX,
        ensures
            final(self).sources == old(self).sources + 1,
            final(self).tracks == old(self).tracks + scan.tracks@.len(),
            final(self).skipped == old(self).skipped + scan.skipped,
            final(self).errors@ == old(self).errors@ + scan.errors@,
    {
        self.sources = self.sources + 1;
        self.tracks = self.tracks + scan.tracks.len();
        self.skipped = self.skipped + scan.skipped;
        let ghost start = self.errors@;
        let mut i: usize = 0;
        while i < scan.errors.len()
            invariant
                i <= scan.errors@.len(),
                self.errors@ == start + scan.errors@.take(i as int),
                self.sources == old(self).sources + 1,
                self.tracks == old(self).tracks + scan.tracks@.len(),
                self.skipped == old(self).skipped + scan.skipped,
            decreases scan.errors.len() - i,
        {
            self.errors.push(scan.errors[i].clone());
            i = i + 1;
            assert(self.errors@ =~= start + scan.errors@.take(i as int));
        }
        assert(scan.errors@.take(scan.errors@.len() as int) =~= scan.errors@);
    }

    /// Note a source that could not be scanned, with why.
    pub fn add_error(&mut self, error: String)
        ensures
            final(self).errors@ == old(self).errors@.push(error),
            final(self).sources == old(self).sources,
            final(self).tracks == old(self).tracks,
            final(self).skipped == old(self).skipped,
    {
        self.errors.push(error);
    }
}

/// The tags of a file that a track is built from, as the file has them.
#[derive(Debug, Clone)]
pub struct TagValues {
    pub title: Option<String>,
    pub artist: Option<String>,
    pub album: Option<String>,
    pub album_artist: Option<String>,
    pub genre: Option<String>,
    pub recording_date: Option<String>,
    pub year: Option<String>,
    pub disc_number: Option<String>,
    pub track_number: Option<String>,
}

/// A tag's value with its white space normalised.
pub open spec fn tag_value(o: Option<String>) -> Option<Seq<char>> {
    match o {
        Some(s) => Some(normalize_ws(s@)),
        None => None,
    }
}

/// A value, or `fallback` where there is none or it is empty.
pub open spec fn nonempty_or(o: Option<Seq<char>>, fallback: Seq<char>) -> Seq<char> {
    match o {
        Some(v) => if v.len() > 0 {
            v
        } else {
            fallback
        },
        None => fallback,
    }
}

/// A value, or `fallback` where there is none.
pub open spec fn value_or(o: Option<Seq<char>>, fallback: Seq<char>) -> Seq<char> {
    match o {
        Some(v) => v,
        None => fallback,
    }
}

/// The file name without its extension, for a track without a title tag.
pub open spec fn stem_of(path: Seq<char>) -> Seq<char> {
    value_or(path_file_stem(path), "Unknown Track"@)
}

/// The name of the folder holding the file, for a track without an album
/// tag.
pub open spec fn album_folder_of(path: Seq<char>) -> Seq<char> {
    match path_parent(path) {
        Some(p) => value_or(path_file_name(p), "Unknown Album"@),
        None => "Unknown Album"@,
    }
}

/// The name of the folder above that, for a track without an artist tag.
pub open spec fn artist_folder_of(path: Seq<char>) -> Seq<char> {
    match path_parent(path) {
        Some(p) => match path_parent(p) {
            Some(q) => value_or(path_file_name(q), "Unknown Artist"@),
            None => "Unknown Artist"@,
        },
        None => "Unknown Artist"@,
    }
}

/// What `str::parse::<i32>` reads from a text of at most four characters:
/// an optional sign, then one or more ASCII digits.
pub open spec fn parse_small_signed(s: Seq<char>) -> Option<int> {
    if s.len() > 0 && s[0] == '-' {
        let body = s.drop_first();
        if body.len() > 0 && crate::numbers::all_digits(body) {
            Some(-(crate::numbers::digits_value(body) as int))
        } else {
            None
        }
    } else {
        match crate::numbers::parse_unsigned(s) {
            Some(v) => Some(v as int),
            None => None,
        }
    }
}

/// The year a date tag gives: its first four bytes read as a number. Only
/// four ASCII characters can be read as one, so that is what is required.
pub open spec fn year_of(date: Seq<char>) -> Option<int> {
    if date.len() >= 4 && forall|j: int| 0 <= j < 4 ==> (#[trigger] date[j] as u32) < 128 {
        parse_small_signed(date.take(4))
    } else {
        None
    }
}

/// The year of a track: from its recording date, or else its year tag.
pub open spec fn track_year(tags: TagValues) -> Option<int> {
    let date = match tag_value(tags.recording_date) {
        Some(v) => Some(v),
        None => tag_value(tags.year),
    };
    match date {
        Some(v) => year_of(v),
        None => None,
    }
}

/// The path of a file within its source.
pub open spec fn relative_to(path: Seq<char>, root: Seq<char>) -> Seq<char> {
    value_or(stripped_path(path, root), path)
}

fn opt_normalized(o: &Option<String>) -> (r: Option<String>)
    ensures
        opt_chars(r) == tag_value(*o),
{
    match o {
        Some(s) => Some(normalize_text(s.as_str())),
        None => None,
    }
}

fn nonempty_or_exec(o: Option<String>, fallback: String) -> (r: String)
    ensures
        r@ == nonempty_or(opt_chars(o), fallback@),
{
    match o {
        Some(v) => if v.as_str().is_empty() {
            fallback
        } else {
            v
        },
        None => fallback,
    }
}

fn value_or_exec(o: Option<String>, fallback: &str) -> (r: String)
    ensures
        r@ == value_or(opt_chars(o), fallback@),
{
    match o {
        Some(v) => v,
        None => fallback.to_owned(),
    }
}

fn year_from(date: &String) -> (r: Option<i32>)
    ensures
        match r {
            Some(y) => year_of(date@) == Some(y as int),
            None => year_of(date@) is None,
        },
{
    let chars = chars_of(date.as_str());
    if chars.len() < 4 || !((chars[0] as u32) < 128 && (chars[1] as u32) < 128 && (chars[2] as u32)
        < 128 && (chars[3] as u32) < 128) {
        proof {
            if chars@.len() >= 4 {
                assert(!((chars@[0] as u32) < 128 && (chars@[1] as u32) < 128 && (chars@[2] as u32) < 128
                    && (chars@[3] as u32) < 128));
            }
        }
        return None;
    }
    assert forall|j: int| 0 <= j < 4 implies (#[trigger] chars@[j] as u32) < 128 by {
        if j == 0 {
        } else if j == 1 {
        } else if j == 2 {
        } else {
        }
    }
    let first4 = crate::text::slice_of(&chars, 0, 4);
    assert(first4@ =~= date@.take(4));
    if first4[0] == '-' {
        let body = crate::text::slice_of(&first4, 1, 4);
        assert(body@ =~= first4@.drop_first());
        if body[0] == '+' {
            assert(!crate::numbers::all_digits(body@)) by {
                assert(!crate::text::is_digit(body@[0]));
            }
            return None;
        }
        assert(crate::numbers::unsigned_body(body@) == body@);
        match parse_u64(&body) {
            Some(v) => {
                proof {
                    lemma_digits_bound(body@);
                    assert(pow10(3) == 1000) by {
                        reveal_with_fuel(pow10, 4);
                    }
                    assert(v == crate::numbers::digits_value(body@));
                    assert(parse_small_signed(first4@) == Some(-(v as int)));
                    assert(date@.len() >= 4 && forall|j: int| 0 <= j < 4 ==> (#[trigger] date@[j] as u32) < 128);
                    assert(year_of(date@) == Some(-(v as int)));
                }
                let y: i32 = -(v as i32);
                assert(y as int == -(v as int));
                Some(y)
            },
            None => {
                proof {
                    if crate::numbers::all_digits(body@) {
                        lemma_digits_bound(body@);
                        assert(pow10(3) == 1000) by {
                            reveal_with_fuel(pow10, 4);
                        }
                    }
                }
                None
            },
        }
    } else {
        match parse_u64(&first4) {
            Some(v) => {
                proof {
                    let b = crate::numbers::unsigned_body(first4@);
                    lemma_digits_bound(b);
                    assert(pow10(4) == 10000) by {
                        reveal_with_fuel(pow10, 5);
                    }
                    assert(pow10(3) == 1000) by {
                        reveal_with_fuel(pow10, 4);
                    }
                    assert(v == crate::numbers::digits_value(b));
                    assert(first4@[0] != '-');
                    assert(parse_small_signed(first4@) == Some(v as int));
                    assert(date@.len() >= 4 && forall|j: int| 0 <= j < 4 ==> (#[trigger] date@[j] as u32) < 128);
                    assert(year_of(date@) == Some(v as int));
                }
                let y: i32 = v as i32;
                assert(y as int == v as int);
                Some(y)
            },
            None => {
                proof {
                    let b = crate::numbers::unsigned_body(first4@);
                    if crate::numbers::all_digits(b) {
                        lemma_digits_bound(b);
                        assert(pow10(4) == 10000) by {
                            reveal_with_fuel(pow10, 5);
                        }
                        assert(pow10(3) == 1000) by {
                            reveal_with_fuel(pow10, 4);
                        }
                    }
                }
                None
            },
        }
    }
}

/// `10` to the power `n`.
pub open spec fn pow10(n: nat) -> nat
    decreases n,
{
    if n == 0 {
        1
    } else {
        10 * pow10((n - 1) as nat)
    }
}

proof fn lemma_digits_bound(s: Seq<char>)
    requires
        crate::numbers::all_digits(s),
    ensures
        crate::numbers::digits_value(s) < pow10(s.len()),
    decreases s.len(),
{
    if s.len() > 0 {
        assert(crate::numbers::all_digits(s.drop_last())) by {
            assert forall|i: int| 0 <= i < s.drop_last().len() implies crate::text::is_digit(#[trigger] s.drop_last()[i]) by {
                assert(s.drop_last()[i] == s[i]);
            }
        }
        lemma_digits_bound(s.drop_last());
        assert(crate::text::is_digit(s[s.len() - 1]));
        assert(crate::text::digit_value(s.last()) < 10);
    }
}


/// What a source is called: its folder's name, or `Music`.
pub fn source_label(root: &str) -> (label: String)
    ensures
        label@ == value_or(path_file_name(root@), "Music"@),
{
    value_or_exec(file_name_of(root), "Music")
}

fn parent_name(path: &str, fallback: &str) -> (name: String)
    ensures
        name@ == match path_parent(path@) {
            Some(p) => value_or(path_file_name(p), fallback@),
            None => fallback@,
        },
{
    match parent_of(path) {
        Some(p) => value_or_exec(file_name_of(p.as_str()), fallback),
        None => fallback.to_owned(),
    }
}

/// A track built from a file's tags, with what its path says standing in
/// for missing tags: the file name (less any track number) for the title,
/// the folder for the album and the folder above it for the artist. The
/// album artist falls back to the artist. Values are taken with their white
/// space normalised; a track number or disc number is the number before any
/// `/`.
pub fn track_from_tags(
    source_id: &str,
    root: &str,
    path: &str,
    tags: &TagValues,
    duration_ms: u64,
    cover_path: Option<String>,
) -> (t: Track)
    ensures
        t.id@ == hash_hex_spec(source_id@ + seq!['\0'] + relative_to(path@, root@)),
        t.source_id@ == source_id@,
        t.relative_path@ == relative_to(path@, root@),
        t.path@ == path@,
        t.title@ == nonempty_or(tag_value(tags.title), strip_track_prefix_spec(stem_of(path@))),
        t.artist@ == nonempty_or(tag_value(tags.artist), artist_folder_of(path@)),
        t.album@ == nonempty_or(tag_value(tags.album), album_folder_of(path@)),
        t.album_artist@ == nonempty_or(tag_value(tags.album_artist), t.artist@),
        t.genre@ == value_or(tag_value(tags.genre), Seq::<char>::empty()),
        match t.year {
            Some(y) => track_year(*tags) == Some(y as int),
            None => track_year(*tags) is None,
        },
        t.disc_number == slash_number(tag_value(tags.disc_number)),
        t.track_number == slash_number(tag_value(tags.track_number)),
        t.duration_ms == duration_ms,
        opt_chars(t.cover_path) == opt_chars(cover_path),
        t.available,
        !t.favorite,
{
    let stem = value_or_exec(file_stem_of(path), "Unknown Track");
    let album_folder = parent_name(path, "Unknown Album");
    let artist_folder: String = match parent_of(path) {
        Some(p) => parent_name(p.as_str(), "Unknown Artist"),
        None => "Unknown Artist".to_owned(),
    };
    let title = nonempty_or_exec(opt_normalized(&tags.title), strip_track_prefix(stem.as_str()));
    let artist = nonempty_or_exec(opt_normalized(&tags.artist), artist_folder);
    let album = nonempty_or_exec(opt_normalized(&tags.album), album_folder);
    let album_artist = nonempty_or_exec(opt_normalized(&tags.album_artist), artist.clone());
    let genre: String = match opt_normalized(&tags.genre) {
        Some(g) => g,
        None => String::new(),
    };
    let date = match opt_normalized(&tags.recording_date) {
        Some(v) => Some(v),
        None => opt_normalized(&tags.year),
    };
    let year = match &date {
        Some(v) => year_from(v),
        None => None,
    };
    let disc = opt_normalized(&tags.disc_number);
    let disc_number = parse_slash_number(
        match &disc {
            Some(v) => Some(v.as_str()),
            None => None,
        },
    );
    let number = opt_normalized(&tags.track_number);
    let track_number = parse_slash_number(
        match &number {
            Some(v) => Some(v.as_str()),
            None => None,
        },
    );
    let relative = value_or_exec(strip_path_prefix(path, root), path);
    let id = track_id(source_id, relative.as_str());
    Track {
        id,
        source_id: source_id.to_owned(),
        relative_path: relative,
        path: path.to_owned(),
        title,
        artist,
        album_artist,
        album,
        genre,
        year,
        disc_number,
        track_number,
        duration_ms,
        cover_path,
        available: true,
        favorite: false,
    }
}

/// The names a cover image beside the files is looked for under, in order.
pub const COVER_NAMES: [&'static str; 7] = [
    "cover.jpg",
    "cover.jpeg",
    "cover.png",
    "folder.jpg",
    "folder.png",
    "Cover.jpg",
    "Folder.jpg",
];

/// The longest side, in pixels, of a cached cover.
pub const COVER_SIDE: u32 = 512;

/// What `image` makes of `picture`: decoded in whatever format its bytes
/// show, scaled, up or down, to fit a `side` by `side` square with its proportions
/// kept, and encoded as PNG; `None` where it cannot be decoded or encoded.
pub uninterp spec fn cover_thumbnail_png(picture: Seq<u8>, side: u32) -> Option<Seq<u8>>;

/// `image::load_from_memory`, `DynamicImage::thumbnail` and
/// `DynamicImage::write_to` in the PNG format.
///
/// Trusted: the result is `cover_thumbnail_png` of the bytes and the side,
/// whether it is a picture or `None`. What the pixels are is not stated.
#[verifier::external_body]
fn thumbnail_png(picture: &[u8], side: u32) -> (r: Option<Vec<u8>>)
    ensures
        match r {
            Some(png) => cover_thumbnail_png(picture@, side) == Some(png@),
            None => cover_thumbnail_png(picture@, side) is None,
        },
{
    let image = image::load_from_memory(picture).ok()?;
    let mut png = std::io::Cursor::new(Vec::new());
    image.thumbnail(side, side).write_to(&mut png, image::ImageFormat::Png).ok()?;
    Some(png.into_inner())
}

/// The thumbnail of the first of `pictures` that decodes.
pub open spec fn first_thumbnail(pictures: Seq<Seq<u8>>, side: u32) -> Option<Seq<u8>>
    decreases pictures.len(),
{
    if pictures.len() == 0 {
        None
    } else {
        match cover_thumbnail_png(pictures[0], side) {
            Some(png) => Some(png),
            None => first_thumbnail(pictures.skip(1), side),
        }
    }
}

/// The cover of a track: its embedded picture where that decodes, else the
/// first of the pictures beside it, in `COVER_NAMES` order, that does.
pub open spec fn chosen_cover(embedded: Option<Seq<u8>>, folder: Seq<Seq<u8>>) -> Option<Seq<u8>> {
    match embedded {
        Some(picture) => match cover_thumbnail_png(picture, COVER_SIDE) {
            Some(png) => Some(png),
            None => first_thumbnail(folder, COVER_SIDE),
        },
        None => first_thumbnail(folder, COVER_SIDE),
    }
}

/// The bytes of a picture, where there is one.
pub open spec fn picture_view(picture: Option<&[u8]>) -> Option<Seq<u8>> {
    match picture {
        Some(p) => Some(p@),
        None => None,
    }
}

/// The views of a list of pictures.
pub open spec fn picture_views(pictures: Seq<Vec<u8>>) -> Seq<Seq<u8>> {
    Seq::new(pictures.len(), |i: int| pictures[i]@)
}

fn first_thumbnail_of(pictures: &[Vec<u8>]) -> (r: Option<Vec<u8>>)
    ensures
        match r {
            Some(png) => first_thumbnail(picture_views(pictures@), COVER_SIDE) == Some(png@),
            None => first_thumbnail(picture_views(pictures@), COVER_SIDE) is None,
        },
{
    let ghost all = picture_views(pictures@);
    assert(all.skip(0) =~= all);
    let mut i: usize = 0;
    while i < pictures.len()
        invariant
            i <= pictures@.len(),
            all == picture_views(pictures@),
            first_thumbnail(all, COVER_SIDE) == first_thumbnail(all.skip(i as int), COVER_SIDE),
        decreases pictures.len() - i,
    {
        let ghost rest = all.skip(i as int);
        assert(rest[0] == pictures@[i as int]@);
        assert(rest.skip(1) =~= all.skip(i + 1));
        match thumbnail_png(pictures[i].as_slice(), COVER_SIDE) {
            Some(png) => {
                return Some(png);
            },
            None => {},
        }
        i = i + 1;
    }
    assert(all.skip(i as int).len() == 0);
    None
}

/// The cover to cache for a track, as PNG bytes: its embedded picture where
/// that decodes, else the first of the pictures found beside it, listed in
/// `COVER_NAMES` order, that does; each scaled to fit `COVER_SIDE`.
pub fn cover_png(embedded: Option<&[u8]>, folder: &[Vec<u8>]) -> (r: Option<Vec<u8>>)
    ensures
        match r {
            Some(png) => chosen_cover(picture_view(embedded), picture_views(folder@)) == Some(png@),
            None => chosen_cover(picture_view(embedded), picture_views(folder@)) is None,
        },
{
    match embedded {
        Some(picture) => match thumbnail_png(picture, COVER_SIDE) {
            Some(png) => Some(png),
            None => first_thumbnail_of(folder),
        },
        None => first_thumbnail_of(folder),
    }
}

/// A file in the cover cache: its path, size and when it was last used, in
/// seconds since the epoch.
#[derive(Debug, Clone)]
pub struct CachedCover {
    pub path: String,
    pub len: u64,
    pub last_used: u64,
}

/// The total size of the files.
pub open spec fn total_len(files: Seq<CachedCover>) -> nat
    decreases files.len(),
{
    if files.len() == 0 {
        0
    } else {
        total_len(files.drop_last()) + files.last().len as nat
    }
}

/// Positions in the cache, ordered by when their file was last used.
pub open spec fn by_last_use(files: Seq<CachedCover>) -> spec_fn(usize, usize) -> bool {
    |a: usize, b: usize| files[a as int].last_used < files[b as int].last_used
}

/// The order covers are evicted in: least recently used first, and in the
/// order they were listed among equals.
pub fn eviction_order(files: &[CachedCover]) -> (order: Vec<usize>)
    ensures
        order@ == sorted_by(Seq::new(files@.len(), |i: int| i as usize), by_last_use(files@)),
{
    let ghost all = Seq::new(files@.len(), |i: int| i as usize);
    let ghost before = by_last_use(files@);
    let mut order: Vec<usize> = Vec::new();
    let mut i: usize = 0;
    assert(all.take(0) =~= Seq::<usize>::empty());
    while i < files.len()
        invariant
            i <= files@.len(),
            all == Seq::new(files@.len(), |k: int| k as usize),
            before == by_last_use(files@),
            forall|j: int| 0 <= j < order@.len() ==> #[trigger] order@[j] < i,
            order@ == sorted_by(all.take(i as int), before),
        decreases files.len() - i,
    {
        let mut p: usize = 0;
        while p < order.len() && !(files[i].last_used < files[order[p]].last_used)
            invariant
                p <= order@.len(),
                i < files@.len(),
                before == by_last_use(files@),
                forall|j: int| 0 <= j < order@.len() ==> #[trigger] order@[j] < i,
                forall|j: int| 0 <= j < p ==> !before(i, #[trigger] order@[j]),
            decreases order.len() - p,
        {
            p = p + 1;
        }
        proof {
            lemma_insert_by_at(order@, i, before, p as int);
            assert(all.take(i + 1) =~= all.take(i as int).push(i));
            lemma_sorted_by_push(all.take(i as int), i, before);
        }
        let ghost o = order@;
        order.insert(p, i);
        assert(order@ =~= o.take(p as int) + seq![i] + o.skip(p as int));
        i = i + 1;
    }
    assert(all.take(files@.len() as int) =~= all);
    order
}

/// How much the cover cache holds, against what it may hold.
#[derive(Debug, Clone, Copy)]
pub struct CachePruning {
    pub total: u64,
    pub max_bytes: u64,
}

impl CachePruning {
    /// The cache as it is listed, against a limit.
    pub fn new(files: &[CachedCover], max_bytes: u64) -> (c: Self)
        requires
            total_len(files@) <= u64::MAX,
        ensures
            c.total == total_len(files@),
            c.max_bytes == max_bytes,
    {
        let mut total: u64 = 0;
        let mut i: usize = 0;
        while i < files.len()
            invariant
                i <= files@.len(),
                total == total_len(files@.take(i as int)),
                total_len(files@) <= u64::MAX,
            decreases files.len() - i,
        {
            proof {
                assert(files@.take(i + 1).drop_last() =~= files@.take(i as int));
                lemma_total_len_prefix(files@, i + 1);
            }
            total = total + files[i].len;
            i = i + 1;
        }
        assert(files@.take(files@.len() as int) =~= files@);
        CachePruning { total, max_bytes }
    }

    /// Whether the cache is still over its limit.
    pub fn over_limit(&self) -> (b: bool)
        ensures
            b == (self.total > self.max_bytes),
    {
        self.total > self.max_bytes
    }

    /// Count a file as removed.
    pub fn removed(&mut self, len: u64)
        ensures
            final(self).total == if old(self).total >= len {
                (old(self).total - len) as u64
            } else {
                0u64
            },
            final(self).max_bytes == old(self).max_bytes,
    {
        self.total = if self.total >= len {
            self.total - len
        } else {
            0
        };
    }
}

proof fn lemma_total_len_prefix(files: Seq<CachedCover>, k: int)
    requires
        0 <= k <= files.len(),
    ensures
        total_len(files.take(k)) <= total_len(files),
    decreases files.len() - k,
{
    if k < files.len() {
        lemma_total_len_prefix(files, k + 1);
        assert(files.take(k + 1).drop_last() =~= files.take(k));
    } else {
        assert(files.take(k) =~= files);
    }
}

} // verus!
