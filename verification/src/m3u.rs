//! M3U and M3U8 playlists.
//!
//! The format is barely a format: a list of paths, optionally with `#EXTINF`
//! lines carrying a duration and a display name. That looseness is the whole
//! problem, so the rules used here are written down rather than implied: the
//! contracts below are those rules.

use vstd::prelude::*;

use crate::numbers::{decimal, decimal_chars, lemma_decimal_digits};
use crate::pathname::{is_absolute_path, join_chars, path_join, same_path, strip_path_prefix, stripped_path};
use crate::text::{
    opt_chars, opt_seq,
    chars_of, find_char_from, index_from, is_digit, is_ws, lead_ws, lemma_lead_ws_is,
    lemma_lines_append, lemma_lines_cons, lemma_lines_end, lemma_tail_ws_is,
    lemma_trim_after_trim_end, lemma_trim_end, lemma_trim_nonws_start, lemma_trim_start,
    lemma_trim_end_append, lemma_trim_strip_cr, lemma_trimmed_ends, lines,
    lines_from, next_line, slice_of, starts_with, string_of, strip_cr, tail_ws, trim, trim_chars,
    trim_end, trim_start,
};

verus! {

/// One entry read from a playlist file.
#[derive(Debug, Clone, PartialEq, Eq)]
pub struct Entry {
    pub path: String,
    /// The `#EXTINF` display name, when the file carried one. Only used to
    /// report what could not be resolved.
    pub label: Option<String>,
}

/// An entry as its characters.
pub struct EntryView {
    pub path: Seq<char>,
    pub label: Option<Seq<char>>,
}

impl View for Entry {
    type V = EntryView;

    open spec fn view(&self) -> EntryView {
        EntryView { path: self.path@, label: opt_chars(self.label) }
    }
}

/// The entries as their characters.
pub open spec fn entry_views(entries: Seq<Entry>) -> Seq<EntryView> {
    entries.map_values(|e: Entry| e@)
}

/// `#EXTINF:`
pub open spec fn extinf_prefix() -> Seq<char> {
    seq!['#', 'E', 'X', 'T', 'I', 'N', 'F', ':']
}

/// The name an `#EXTINF:<seconds>,<name>` line gives: everything after the
/// first comma, trimmed, or nothing when there is no comma.
pub open spec fn extinf_label(line: Seq<char>) -> Option<Seq<char>> {
    let rest = line.skip(8);
    match index_from(rest, ',', 0) {
        Some(k) => Some(trim(rest.skip(k + 1))),
        None => None,
    }
}

/// An ASCII letter.
pub open spec fn is_ascii_alpha(c: char) -> bool {
    ('a' <= c && c <= 'z') || ('A' <= c && c <= 'Z')
}

/// `C:/...`: a Windows path with a drive, which is absolute on any system.
pub open spec fn is_drive_absolute(p: Seq<char>) -> bool {
    p.len() >= 3 && is_ascii_alpha(p[0]) && p[1] == ':' && p[2] == '/'
}

/// Backslash separators written as forward slashes.
pub open spec fn forward_slashes(p: Seq<char>) -> Seq<char> {
    p.map_values(|c: char| if c == '\\' { '/' } else { c })
}

/// Where an entry line points: absolute lines as they are, relative ones
/// against the playlist's own directory.
pub open spec fn resolve_entry(line: Seq<char>, base: Seq<char>) -> Seq<char> {
    let normalised = forward_slashes(line);
    if is_absolute_path(normalised) || is_drive_absolute(normalised) {
        normalised
    } else {
        path_join(base, normalised)
    }
}

/// The entries read from `ls`, given the label still waiting for an entry.
pub open spec fn parse_lines(ls: Seq<Seq<char>>, base: Seq<char>, pending: Option<Seq<char>>) -> Seq<
    EntryView,
>
    decreases ls.len(),
{
    if ls.len() == 0 {
        seq![]
    } else {
        let line = trim(ls[0]);
        let rest = ls.drop_first();
        if line.len() == 0 {
            parse_lines(rest, base, pending)
        } else if extinf_prefix().is_prefix_of(line) {
            parse_lines(rest, base, extinf_label(line))
        } else if line[0] == '#' {
            parse_lines(rest, base, pending)
        } else {
            seq![EntryView { path: resolve_entry(line, base), label: pending }] + parse_lines(
                rest,
                base,
                None,
            )
        }
    }
}

/// The entries of a playlist whose text is `source`, in its directory `base`.
pub open spec fn parse_spec(source: Seq<char>, base: Seq<char>) -> Seq<EntryView> {
    parse_lines(lines(source), base, None)
}

fn is_ascii_alpha_exec(c: char) -> (b: bool)
    ensures
        b == is_ascii_alpha(c),
{
    ('a' <= c && c <= 'z') || ('A' <= c && c <= 'Z')
}

/// `windows_drive_absolute` over characters.
fn windows_drive_absolute(p: &[char]) -> (b: bool)
    ensures
        b == is_drive_absolute(p@),
{
    p.len() >= 3 && is_ascii_alpha_exec(p[0]) && p[1] == ':' && p[2] == '/'
}

fn forward_slashes_exec(p: &[char]) -> (out: Vec<char>)
    ensures
        out@ == forward_slashes(p@),
{
    let mut out: Vec<char> = Vec::new();
    let mut i: usize = 0;
    while i < p.len()
        invariant
            i <= p@.len(),
            out@ == forward_slashes(p@.take(i as int)),
        decreases p.len() - i,
    {
        let c = p[i];
        out.push(if c == '\\' { '/' } else { c });
        i = i + 1;
        assert(out@ =~= forward_slashes(p@.take(i as int)));
    }
    assert(p@.take(p@.len() as int) =~= p@);
    out
}

fn extinf_chars() -> (out: Vec<char>)
    ensures
        out@ == extinf_prefix(),
{
    let v = vec!['#', 'E', 'X', 'T', 'I', 'N', 'F', ':'];
    assert(v@ =~= extinf_prefix());
    v
}

fn extinf_label_exec(line: &[char]) -> (r: Option<Vec<char>>)
    requires
        line@.len() >= 8,
    ensures
        opt_seq(r) == extinf_label(line@),
{
    let rest = slice_of(line, 8, line.len());
    assert(rest@ =~= line@.skip(8));
    match find_char_from(&rest, ',', 0) {
        Some(k) => {
            let after = slice_of(&rest, k + 1, rest.len());
            assert(after@ =~= rest@.skip(k + 1));
            Some(trim_chars(&after))
        },
        None => None,
    }
}

fn opt_string(o: Option<Vec<char>>) -> (r: Option<String>)
    ensures
        opt_chars(r) == opt_seq(o),
{
    match o {
        Some(v) => Some(string_of(&v)),
        None => None,
    }
}

/// What one line contributes: the entries it yields, and the label left
/// waiting for the next entry.
pub open spec fn line_step(raw: Seq<char>, base: Seq<char>, pending: Option<Seq<char>>) -> (
    Seq<EntryView>,
    Option<Seq<char>>,
) {
    let line = trim(raw);
    if line.len() == 0 {
        (seq![], pending)
    } else if extinf_prefix().is_prefix_of(line) {
        (seq![], extinf_label(line))
    } else if line[0] == '#' {
        (seq![], pending)
    } else {
        (seq![EntryView { path: resolve_entry(line, base), label: pending }], None)
    }
}

proof fn lemma_parse_lines_step(ls: Seq<Seq<char>>, base: Seq<char>, pending: Option<Seq<char>>)
    requires
        ls.len() > 0,
    ensures
        parse_lines(ls, base, pending) == line_step(ls[0], base, pending).0 + parse_lines(
            ls.drop_first(),
            base,
            line_step(ls[0], base, pending).1,
        ),
{
    let line = trim(ls[0]);
    let rest = ls.drop_first();
    if line.len() == 0 || extinf_prefix().is_prefix_of(line) || line[0] == '#' {
        assert(seq![] + parse_lines(rest, base, line_step(ls[0], base, pending).1) =~= parse_lines(
            rest,
            base,
            line_step(ls[0], base, pending).1,
        ));
    }
}

/// Reads one line into `entries`, carrying the `#EXTINF` label in `pending`.
fn parse_line(
    raw: &[char],
    base: &[char],
    prefix: &[char],
    entries: &mut Vec<Entry>,
    pending: &mut Option<Vec<char>>,
)
    requires
        prefix@ == extinf_prefix(),
    ensures
        entry_views(final(entries)@) == entry_views(old(entries)@) + line_step(
            raw@,
            base@,
            opt_seq(*old(pending)),
        ).0,
        opt_seq(*final(pending)) == line_step(raw@, base@, opt_seq(*old(pending))).1,
{
    let line = trim_chars(raw);
    if line.len() == 0 {
        assert(entry_views(entries@) + seq![] =~= entry_views(entries@));
    } else if starts_with(&line, prefix) {
        *pending = extinf_label_exec(&line);
        assert(entry_views(entries@) + seq![] =~= entry_views(entries@));
    } else if line[0] == '#' {
        assert(entry_views(entries@) + seq![] =~= entry_views(entries@));
    } else {
        let normalised = forward_slashes_exec(&line);
        let path = if (normalised.len() > 0 && normalised[0] == '/') || windows_drive_absolute(
            &normalised,
        ) {
            normalised
        } else {
            join_chars(base, &normalised)
        };
        let ghost pend = opt_seq(*pending);
        let taken = pending.take();
        let label = opt_string(taken);
        let entry = Entry { path: string_of(&path), label };
        let ghost before = entries@;
        entries.push(entry);
        proof {
            let e = EntryView { path: resolve_entry(trim(raw@), base@), label: pend };
            assert(entry@ == e);
            assert(entry_views(entries@) =~= entry_views(before) + seq![e]);
        }
    }
}

/// Parse a playlist.
///
/// Relative entries are resolved against `base`, which is the directory the
/// playlist itself lives in - that is what makes a playlist portable alongside
/// the music it refers to. Comments other than `#EXTINF` are ignored, and a
/// malformed `#EXTINF` costs its label, not its entry.
pub fn parse(source: &str, base: &str) -> (entries: Vec<Entry>)
    ensures
        entry_views(entries@) == parse_spec(source@, base@),
{
    let s = chars_of(source);
    let b = chars_of(base);
    let prefix = extinf_chars();
    let mut entries: Vec<Entry> = Vec::new();
    let mut pending: Option<Vec<char>> = None;
    let mut pos: usize = 0;
    assert(entry_views(entries@) + parse_lines(lines_from(s@, 0), b@, None) =~= parse_spec(
        source@,
        base@,
    ));
    while pos < s.len()
        invariant
            pos <= s@.len(),
            s@ == source@,
            b@ == base@,
            prefix@ == extinf_prefix(),
            entry_views(entries@) + parse_lines(lines_from(s@, pos as int), b@, opt_seq(pending))
                == parse_spec(source@, base@),
        decreases s.len() - pos,
    {
        let (raw, next) = next_line(&s, pos);
        let ghost ls = lines_from(s@, pos as int);
        let ghost before = entry_views(entries@);
        let ghost pend = opt_seq(pending);
        proof {
            assert(ls[0] == raw@);
            assert(ls.drop_first() =~= lines_from(s@, next as int));
            lemma_parse_lines_step(ls, b@, pend);
        }
        parse_line(&raw, &b, &prefix, &mut entries, &mut pending);
        proof {
            let st = line_step(raw@, b@, pend);
            assert(before + (st.0 + parse_lines(ls.drop_first(), b@, st.1)) =~= (before + st.0)
                + parse_lines(ls.drop_first(), b@, st.1));
        }
        pos = next;
    }
    proof {
        crate::text::lemma_lines_end(s@, pos as int);
    }
    assert(entry_views(entries@) + seq![] =~= entry_views(entries@));
    entries
}

/// `#EXTM3U` and its line ending.
pub open spec fn m3u_header() -> Seq<char> {
    seq!['#', 'E', 'X', 'T', 'M', '3', 'U', '\n']
}

/// The characters of an optional string slice.
pub open spec fn opt_str(o: Option<&str>) -> Option<Seq<char>> {
    match o {
        Some(s) => Some(s@),
        None => None,
    }
}

/// How a path is written: relative to `base` where `base` is a prefix of
/// it, as it is otherwise, and with forward slashes either way.
pub open spec fn written_form(path: Seq<char>, base: Option<Seq<char>>) -> Seq<char> {
    let w = match base {
        Some(b) => match stripped_path(path, b) {
            Some(r) => r,
            None => path,
        },
        None => path,
    };
    forward_slashes(w)
}

/// The two lines written for one track.
pub open spec fn render_entry(path: Seq<char>, label: Seq<char>, duration_ms: nat, base: Option<Seq<char>>) -> Seq<char> {
    extinf_prefix() + decimal(duration_ms / 1000) + seq![','] + label + seq!['\n'] + written_form(
        path,
        base,
    ) + seq!['\n']
}

/// The lines written for the tracks, in order.
pub open spec fn render_entries(tracks: Seq<(String, String, u64)>, base: Option<Seq<char>>) -> Seq<char>
    decreases tracks.len(),
{
    if tracks.len() == 0 {
        seq![]
    } else {
        render_entries(tracks.drop_last(), base) + render_entry(
            tracks.last().0@,
            tracks.last().1@,
            tracks.last().2 as nat,
            base,
        )
    }
}

/// A whole playlist as text.
pub open spec fn render_spec(tracks: Seq<(String, String, u64)>, base: Option<Seq<char>>) -> Seq<char> {
    m3u_header() + render_entries(tracks, base)
}

fn append(out: &mut Vec<char>, more: &[char])
    ensures
        final(out)@ == old(out)@ + more@,
{
    let mut i: usize = 0;
    let ghost start = out@;
    while i < more.len()
        invariant
            i <= more@.len(),
            out@ == start + more@.take(i as int),
        decreases more.len() - i,
    {
        out.push(more[i]);
        i = i + 1;
        assert(out@ =~= start + more@.take(i as int));
    }
    assert(more@.take(more@.len() as int) =~= more@);
}

/// Render a playlist.
///
/// Paths are written relative to `base` when they sit underneath it, so a
/// playlist exported next to the music stays valid if the whole tree moves.
/// Anything outside is written absolute, because a relative path would be a
/// guess.
/// Every track path that `base` is taken off gives the same path back when
/// the rest is joined onto `base` again.
pub open spec fn rejoins(tracks: Seq<(String, String, u64)>, base: Seq<char>) -> bool {
    forall|i: int| 0 <= i < tracks.len() ==> match stripped_path(#[trigger] tracks[i].0@, base) {
        Some(rest) => same_path(path_join(base, rest), tracks[i].0@),
        None => true,
    }
}

pub fn render(tracks: &[(String, String, u64)], base: Option<&str>) -> (output: String)
    ensures
        output@ == render_spec(tracks@, opt_str(base)),
        base matches Some(b) ==> rejoins(tracks@, b@),
{
    let mut out: Vec<char> = vec!['#', 'E', 'X', 'T', 'M', '3', 'U', '\n'];
    assert(out@ =~= m3u_header() + render_entries(tracks@.take(0), opt_str(base)));
    let prefix = extinf_chars();
    let mut i: usize = 0;
    while i < tracks.len()
        invariant
            i <= tracks@.len(),
            prefix@ == extinf_prefix(),
            out@ == m3u_header() + render_entries(tracks@.take(i as int), opt_str(base)),
            base matches Some(b) ==> forall|j: int| 0 <= j < i ==> match stripped_path(#[trigger] tracks@[j].0@, b@) {
                Some(rest) => same_path(path_join(b@, rest), tracks@[j].0@),
                None => true,
            },
        decreases tracks.len() - i,
    {
        let (path, label, duration_ms) = &tracks[i];
        let written = match base {
            Some(b) => match strip_path_prefix(path.as_str(), b) {
                Some(rest) => rest,
                None => path.clone(),
            },
            None => path.clone(),
        };
        let written_chars = chars_of(written.as_str());
        let slashed = forward_slashes_exec(&written_chars);
        let ghost before = out@;
        append(&mut out, &prefix);
        let secs = decimal_chars(*duration_ms / 1000);
        append(&mut out, &secs);
        out.push(',');
        let label_chars = chars_of(label.as_str());
        append(&mut out, &label_chars);
        out.push('\n');
        append(&mut out, &slashed);
        out.push('\n');
        proof {
            let t = tracks@.take(i + 1);
            assert(t.drop_last() =~= tracks@.take(i as int));
            assert(t.last() == tracks@[i as int]);
            assert(slashed@ == written_form(path@, opt_str(base)));
            assert(out@ =~= before + render_entry(path@, label@, *duration_ms as nat, opt_str(base)));
        }
        i = i + 1;
    }
    assert(tracks@.take(tracks@.len() as int) =~= tracks@);
    string_of(&out)
}

/// A line that reads back as itself: not empty, not a comment, without a
/// line break and without white space at either end.
pub open spec fn plain_line(w: Seq<char>) -> bool {
    &&& w.len() > 0
    &&& w[0] != '#'
    &&& trim(w) == w
    &&& forall|i: int| 0 <= i < w.len() ==> w[i] != '\n'
}

/// No line break in `s`.
pub open spec fn single_line(s: Seq<char>) -> bool {
    forall|i: int| 0 <= i < s.len() ==> s[i] != '\n'
}

/// The `#EXTINF` line written for a track, without its line ending.
pub open spec fn info_line(t: (String, String, u64)) -> Seq<char> {
    extinf_prefix() + decimal((t.2 as nat) / 1000) + seq![','] + t.1@
}

/// The lines written for the tracks, in order.
pub open spec fn rendered_lines(tracks: Seq<(String, String, u64)>, base: Seq<char>) -> Seq<Seq<char>>
    decreases tracks.len(),
{
    if tracks.len() == 0 {
        seq![]
    } else {
        rendered_lines(tracks.drop_last(), base) + seq![
            strip_cr(info_line(tracks.last())),
            strip_cr(written_form(tracks.last().0@, Some(base))),
        ]
    }
}

/// The label still waiting for an entry after reading `ls`.
pub open spec fn pending_after(ls: Seq<Seq<char>>, base: Seq<char>, pending: Option<Seq<char>>) -> Option<
    Seq<char>,
>
    decreases ls.len(),
{
    if ls.len() == 0 {
        pending
    } else {
        pending_after(ls.drop_first(), base, line_step(ls[0], base, pending).1)
    }
}

proof fn lemma_render_lines(tracks: Seq<(String, String, u64)>, base: Seq<char>)
    requires
        forall|i: int| 0 <= i < tracks.len() ==> single_line(#[trigger] tracks[i].1@),
        forall|i: int| 0 <= i < tracks.len() ==> single_line(written_form(#[trigger] tracks[i].0@, Some(base))),
    ensures
        lines(render_entries(tracks, Some(base))) == rendered_lines(tracks, base),
        render_entries(tracks, Some(base)).len() == 0 || render_entries(tracks, Some(base)).last() == '\n',
    decreases tracks.len(),
{
    if tracks.len() > 0 {
        let init = tracks.drop_last();
        let t = tracks.last();
        assert(t == tracks[tracks.len() - 1]);
        assert forall|i: int| 0 <= i < init.len() implies single_line(#[trigger] init[i].1@) by {
            assert(init[i] == tracks[i]);
        }
        assert forall|i: int| 0 <= i < init.len() implies single_line(written_form(#[trigger] init[i].0@, Some(base))) by {
            assert(init[i] == tracks[i]);
        }
        lemma_render_lines(init, base);
        let l1 = info_line(t);
        let l2 = written_form(t.0@, Some(base));
        lemma_decimal_digits((t.2 as nat) / 1000);
        assert(single_line(l1)) by {
            let d = decimal((t.2 as nat) / 1000);
            assert forall|i: int| 0 <= i < l1.len() implies l1[i] != '\n' by {
                if i < 8 {
                } else if i < 8 + d.len() {
                    assert(l1[i] == d[i - 8]);
                    assert(is_digit(d[i - 8]));
                } else if i == 8 + d.len() {
                } else {
                    assert(l1[i] == t.1@[i - 9 - d.len()]);
                }
            }
        }
        let e = render_entry(t.0@, t.1@, t.2 as nat, Some(base));
        assert(e =~= l1 + seq!['\n'] + (l2 + seq!['\n'] + Seq::<char>::empty()));
        lemma_lines_cons(l1, l2 + seq!['\n'] + Seq::<char>::empty());
        lemma_lines_cons(l2, Seq::<char>::empty());
        lemma_lines_end(Seq::<char>::empty(), 0);
        assert(lines(e) =~= seq![strip_cr(l1), strip_cr(l2)]);
        lemma_lines_append(render_entries(init, Some(base)), e);
        assert(render_entries(tracks, Some(base)) == render_entries(init, Some(base)) + e);
        assert(rendered_lines(tracks, base) == rendered_lines(init, base) + seq![strip_cr(l1), strip_cr(l2)]);
        assert(e.last() == '\n');
        assert((render_entries(init, Some(base)) + e).last() == '\n');
    } else {
        lemma_lines_end(render_entries(tracks, Some(base)), 0);
    }
}

proof fn lemma_parse_lines_append(a: Seq<Seq<char>>, b: Seq<Seq<char>>, base: Seq<char>, pending: Option<Seq<char>>)
    ensures
        parse_lines(a + b, base, pending) == parse_lines(a, base, pending) + parse_lines(
            b,
            base,
            pending_after(a, base, pending),
        ),
        pending_after(a + b, base, pending) == pending_after(b, base, pending_after(a, base, pending)),
    decreases a.len(),
{
    if a.len() == 0 {
        assert(a + b =~= b);
        assert(parse_lines(a, base, pending) =~= seq![]);
        assert(seq![] + parse_lines(b, base, pending) =~= parse_lines(b, base, pending));
    } else {
        let st = line_step(a[0], base, pending);
        lemma_parse_lines_step(a + b, base, pending);
        lemma_parse_lines_step(a, base, pending);
        assert((a + b)[0] == a[0]);
        assert((a + b).drop_first() =~= a.drop_first() + b);
        lemma_parse_lines_append(a.drop_first(), b, base, st.1);
        assert(st.0 + (parse_lines(a.drop_first(), base, st.1) + parse_lines(
            b,
            base,
            pending_after(a.drop_first(), base, st.1),
        )) =~= (st.0 + parse_lines(a.drop_first(), base, st.1)) + parse_lines(
            b,
            base,
            pending_after(a.drop_first(), base, st.1),
        ));
    }
}

/// What one rendered track reads back as.
pub open spec fn read_back(t: (String, String, u64), base: Seq<char>) -> EntryView {
    EntryView { path: resolve_entry(written_form(t.0@, Some(base)), base), label: Some(trim(t.1@)) }
}

proof fn lemma_extinf_label_of(d: Seq<char>, lab: Seq<char>)
    requires
        forall|i: int| 0 <= i < d.len() ==> is_digit(#[trigger] d[i]),
    ensures
        extinf_label(extinf_prefix() + d + seq![','] + lab) == Some(trim(lab)),
{
    let line = extinf_prefix() + d + seq![','] + lab;
    let rest = line.skip(8);
    assert(rest =~= d + seq![','] + lab);
    assert forall|j: int| 0 <= j < d.len() implies rest[j] != ',' by {
        assert(rest[j] == d[j]);
        assert(is_digit(d[j]));
    }
    crate::text::lemma_index_from_is(rest, ',', 0, d.len() as int);
    assert(rest.skip(d.len() as int + 1) =~= lab);
}

proof fn lemma_info_line_step(t: (String, String, u64), base: Seq<char>, pending: Option<Seq<char>>)
    requires
        single_line(t.1@),
    ensures
        line_step(strip_cr(info_line(t)), base, pending) == (Seq::<EntryView>::empty(), Some(trim(t.1@))),
{
    let l1 = info_line(t);
    let d = decimal((t.2 as nat) / 1000);
    lemma_decimal_digits((t.2 as nat) / 1000);
    let x = strip_cr(l1);
    assert(x[0] == '#');
    lemma_trim_nonws_start(x);
    lemma_trim_strip_cr(l1);
    let head = extinf_prefix() + d + seq![','];
    assert(l1 =~= head + t.1@);
    lemma_trim_end_append(head, t.1@);
    let line = trim(x);
    assert(line == head + trim_end(t.1@));
    assert(extinf_prefix().is_prefix_of(line)) by {
        assert forall|i: int| 0 <= i < 8 implies extinf_prefix()[i] == line[i] by {
            assert(line[i] == head[i]);
        }
    }
    lemma_extinf_label_of(d, trim_end(t.1@));
    assert(line =~= extinf_prefix() + d + seq![','] + trim_end(t.1@));
    lemma_trim_after_trim_end(t.1@);
}

proof fn lemma_written_step(w: Seq<char>, base: Seq<char>, pending: Option<Seq<char>>)
    requires
        plain_line(w),
    ensures
        line_step(strip_cr(w), base, pending) == (seq![EntryView { path: resolve_entry(w, base), label: pending }], None::<Seq<char>>),
{
    lemma_trimmed_ends(w);
    assert(strip_cr(w) == w) by {
        if w.last() == '\r' {
            assert(is_ws('\r'));
        }
    }
    assert(!extinf_prefix().is_prefix_of(w)) by {
        if extinf_prefix().is_prefix_of(w) {
            assert(w[0] == extinf_prefix()[0]);
        }
    }
}

proof fn lemma_header_step(base: Seq<char>, pending: Option<Seq<char>>)
    ensures
        line_step(strip_cr(seq!['#', 'E', 'X', 'T', 'M', '3', 'U']), base, pending) == (Seq::<EntryView>::empty(), pending),
{
    let h = seq!['#', 'E', 'X', 'T', 'M', '3', 'U'];
    assert(strip_cr(h) == h);
    lemma_lead_ws_is(h, 0);
    lemma_trim_start(h);
    assert(trim_start(h) =~= h);
    lemma_tail_ws_is(h, 0);
    lemma_trim_end(h);
    assert(trim(h) =~= h);
    assert(!extinf_prefix().is_prefix_of(h));
}

/// What is written can be read back.
///
/// Parsing the text that `render` writes for `tracks` against `base`, in that
/// same directory, gives one entry per track, in order: its label, trimmed,
/// and the path as written, resolved against `base` the way any entry is.
/// This holds wherever no label spans lines and every written path is a plain
/// line (see `plain_line`).
pub proof fn lemma_render_then_parse(tracks: Seq<(String, String, u64)>, base: Seq<char>)
    requires
        forall|i: int| 0 <= i < tracks.len() ==> single_line(#[trigger] tracks[i].1@),
        forall|i: int| 0 <= i < tracks.len() ==> plain_line(written_form(#[trigger] tracks[i].0@, Some(base))),
    ensures
        parse_spec(render_spec(tracks, Some(base)), base) == tracks.map_values(
            |t: (String, String, u64)| read_back(t, base),
        ),
{
    assert forall|i: int| 0 <= i < tracks.len() implies single_line(written_form(#[trigger] tracks[i].0@, Some(base))) by {
        assert(plain_line(written_form(tracks[i].0@, Some(base))));
    }
    lemma_render_lines(tracks, base);
    let h = seq!['#', 'E', 'X', 'T', 'M', '3', 'U'];
    assert(m3u_header() =~= h + seq!['\n'] + Seq::<char>::empty());
    assert(render_spec(tracks, Some(base)) =~= h + seq!['\n'] + render_entries(tracks, Some(base)));
    assert forall|j: int| 0 <= j < h.len() implies h[j] != '\n' by {}
    lemma_lines_cons(h, render_entries(tracks, Some(base)));
    let ls = rendered_lines(tracks, base);
    lemma_parse_lines_step(seq![strip_cr(h)] + ls, base, None);
    lemma_header_step(base, None);
    assert((seq![strip_cr(h)] + ls).drop_first() =~= ls);
    assert(Seq::<EntryView>::empty() + parse_lines(ls, base, None) =~= parse_lines(ls, base, None));
    lemma_parse_rendered(tracks, base);
}

/// What a track's path is written as before its backslashes are turned:
/// its part under `base`, or the whole path where it is not under `base`.
pub open spec fn unslashed_form(path: Seq<char>, base: Seq<char>) -> Seq<char> {
    match stripped_path(path, base) {
        Some(rest) => rest,
        None => path,
    }
}

/// What is written can be read back: a playlist written for absolute track
/// paths, relative to `base`, reads back as the same tracks in the same
/// order, each with its label and with its path, the same path as the
/// track's; a path not under `base` comes back letter for letter. Paths with
/// a backslash, or whose written form reads as a drive letter path, are
/// left out: writing turns their backslashes.
pub proof fn lemma_written_paths_read_back(tracks: Seq<(String, String, u64)>, base: Seq<char>)
    requires
        rejoins(tracks, base),
        forall|i: int| 0 <= i < tracks.len() ==> single_line(#[trigger] tracks[i].1@),
        forall|i: int| 0 <= i < tracks.len() ==> trim(#[trigger] tracks[i].1@) == tracks[i].1@,
        forall|i: int| 0 <= i < tracks.len() ==> is_absolute_path(#[trigger] tracks[i].0@),
        forall|i: int| 0 <= i < tracks.len() ==> plain_line(written_form(#[trigger] tracks[i].0@, Some(base))),
        forall|i: int|
            0 <= i < tracks.len() ==> forward_slashes(unslashed_form(#[trigger] tracks[i].0@, base))
                == unslashed_form(tracks[i].0@, base),
        forall|i: int| 0 <= i < tracks.len() ==> !is_drive_absolute(unslashed_form(#[trigger] tracks[i].0@, base)),
    ensures
        parse_spec(render_spec(tracks, Some(base)), base).len() == tracks.len(),
        forall|i: int|
            0 <= i < tracks.len() ==> (#[trigger] parse_spec(render_spec(tracks, Some(base)), base)[i]).label
                == Some(tracks[i].1@),
        forall|i: int|
            0 <= i < tracks.len() ==> match stripped_path(tracks[i].0@, base) {
                Some(_) => same_path((#[trigger] parse_spec(render_spec(tracks, Some(base)), base)[i]).path, tracks[i].0@),
                None => parse_spec(render_spec(tracks, Some(base)), base)[i].path == tracks[i].0@,
            },
{
    lemma_render_then_parse(tracks, base);
    let out = parse_spec(render_spec(tracks, Some(base)), base);
    assert forall|i: int| 0 <= i < tracks.len() implies match stripped_path(tracks[i].0@, base) {
        Some(_) => same_path((#[trigger] out[i]).path, tracks[i].0@),
        None => out[i].path == tracks[i].0@,
    } by {
        let p = tracks[i].0@;
        let raw = unslashed_form(p, base);
        assert(out[i] == read_back(tracks[i], base));
        assert(written_form(p, Some(base)) == forward_slashes(raw));
        assert(out[i].path == resolve_entry(raw, base));
        match stripped_path(p, base) {
            Some(rest) => {
                assert(raw == rest);
                assert(same_path(path_join(base, rest), p));
            },
            None => {
                assert(raw == p);
            },
        }
    }
    assert forall|i: int| 0 <= i < tracks.len() implies (#[trigger] out[i]).label == Some(tracks[i].1@) by {
        assert(out[i] == read_back(tracks[i], base));
    }
}

proof fn lemma_parse_rendered(tracks: Seq<(String, String, u64)>, base: Seq<char>)
    requires
        forall|i: int| 0 <= i < tracks.len() ==> single_line(#[trigger] tracks[i].1@),
        forall|i: int| 0 <= i < tracks.len() ==> plain_line(written_form(#[trigger] tracks[i].0@, Some(base))),
    ensures
        parse_lines(rendered_lines(tracks, base), base, None) == tracks.map_values(
            |t: (String, String, u64)| read_back(t, base),
        ),
        pending_after(rendered_lines(tracks, base), base, None) is None,
    decreases tracks.len(),
{
    if tracks.len() == 0 {
        assert(parse_lines(rendered_lines(tracks, base), base, None) =~= seq![]);
        assert(tracks.map_values(|t: (String, String, u64)| read_back(t, base)) =~= seq![]);
    } else {
        let init = tracks.drop_last();
        let t = tracks.last();
        assert(t == tracks[tracks.len() - 1]);
        assert forall|i: int| 0 <= i < init.len() implies single_line(#[trigger] init[i].1@) by {
            assert(init[i] == tracks[i]);
        }
        assert forall|i: int| 0 <= i < init.len() implies plain_line(written_form(#[trigger] init[i].0@, Some(base))) by {
            assert(init[i] == tracks[i]);
        }
        lemma_parse_rendered(init, base);
        let pair = seq![strip_cr(info_line(t)), strip_cr(written_form(t.0@, Some(base)))];
        lemma_parse_lines_append(rendered_lines(init, base), pair, base, None);
        lemma_info_line_step(t, base, None);
        let w = written_form(t.0@, Some(base));
        lemma_written_step(w, base, Some(trim(t.1@)));
        lemma_parse_lines_step(pair, base, None);
        let rest = pair.drop_first();
        assert(rest =~= seq![strip_cr(w)]);
        lemma_parse_lines_step(rest, base, Some(trim(t.1@)));
        assert(rest.drop_first() =~= Seq::<Seq<char>>::empty());
        assert(parse_lines(pair, base, None) =~= seq![read_back(t, base)]);
        assert(pending_after(rest.drop_first(), base, None) is None);
        assert(pending_after(rest, base, Some(trim(t.1@))) is None);
        assert(pending_after(pair, base, None) is None);
        assert(tracks.map_values(|t: (String, String, u64)| read_back(t, base)) =~= init.map_values(
            |t: (String, String, u64)| read_back(t, base),
        ).push(read_back(t, base)));
    }
}

} // verus!
