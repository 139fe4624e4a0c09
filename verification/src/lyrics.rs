//! Lyrics.
//!
//! Lyrics live in their own directory and are only ever put there on purpose.
//! The library scanner never looks at `.lrc` files sitting beside the audio:
//! those files belong to whoever put them there, and silently absorbing them
//! would make the library index depend on material muscli did not index.

use vstd::prelude::*;

use crate::numbers::{digits_value, parse_bounded, parse_u64};
use crate::sorting::{insert_by, lemma_insert_by_at, lemma_sorted_by_push, sorted_by};
use crate::text::{
    vec_views,
    chars_of, find_char_from, index_from, is_digit, is_whitespace, is_ws, lead_ws, lemma_lines_end,
    lemma_lines_step, lemma_trim_start, lines, lines_from, next_line, slice_of, string_of, trim,
    trim_chars, trim_start,
};

use crate::features::{fold_chars, folded};
use crate::model::Track;
use crate::pathname::{join_path, path_join};
use crate::unicode::{alphanumeric, is_alphanumeric};

verus! {

/// One timed line of an LRC file.
#[derive(Debug, Clone, PartialEq, Eq)]
pub struct LyricLine {
    pub at_ms: u64,
    pub text: String,
}

/// A line as its time and characters.
pub struct LineView {
    pub at_ms: u64,
    pub text: Seq<char>,
}

impl View for LyricLine {
    type V = LineView;

    open spec fn view(&self) -> LineView {
        LineView { at_ms: self.at_ms, text: self.text@ }
    }
}

/// A parsed lyrics file.
#[derive(Debug, Clone, PartialEq, Eq)]
pub struct Lyrics {
    pub lines: Vec<LyricLine>,
    /// True when no line carried a timestamp, so the text cannot follow
    /// playback and is shown as a plain block.
    pub unsynced: bool,
}

/// The lines as their views.
pub open spec fn line_views(lines: Seq<LyricLine>) -> Seq<LineView> {
    lines.map_values(|l: LyricLine| l@)
}

/// The last line whose time has been reached at `position_ms`.
pub open spec fn last_reached(lines: Seq<LineView>, position_ms: u64) -> Option<int> {
    if exists|i: int| 0 <= i < lines.len() && lines[i].at_ms <= position_ms {
        Some(
            choose|i: int|
                0 <= i < lines.len() && lines[i].at_ms <= position_ms && forall|j: int|
                    i < j < lines.len() ==> lines[j].at_ms > position_ms,
        )
    } else {
        None
    }
}

impl Lyrics {
    /// The line that should be highlighted at `position_ms`.
    ///
    /// The last line whose timestamp has passed, so a long instrumental gap
    /// keeps the previous line lit rather than going blank.
    pub fn line_at(&self, position_ms: u64) -> (r: Option<usize>)
        ensures
            self.unsynced ==> r is None,
            !self.unsynced ==> match r {
                Some(i) => last_reached(line_views(self.lines@), position_ms) == Some(i as int),
                None => last_reached(line_views(self.lines@), position_ms) is None,
            },
    {
        if self.unsynced {
            return None;
        }
        let ghost v = line_views(self.lines@);
        let mut i = self.lines.len();
        while i > 0
            invariant
                i <= self.lines@.len(),
                !self.unsynced,
                v == line_views(self.lines@),
                forall|j: int| i <= j < v.len() ==> v[j].at_ms > position_ms,
            decreases i,
        {
            if self.lines[i - 1].at_ms <= position_ms {
                proof {
                    let k = (i - 1) as int;
                    assert(v[k].at_ms <= position_ms);
                    let w = choose|w: int|
                        0 <= w < v.len() && v[w].at_ms <= position_ms && forall|j: int|
                            w < j < v.len() ==> v[j].at_ms > position_ms;
                    if w < k {
                        assert(v[k].at_ms > position_ms);
                    } else if w > k {
                        assert(v[w].at_ms > position_ms);
                    }
                }
                return Some(i - 1);
            }
            i = i - 1;
        }
        None
    }

    pub fn is_empty(&self) -> (b: bool)
        ensures
            b == (self.lines@.len() == 0),
    {
        self.lines.len() == 0
    }
}

/// `text.split_once(c)`.
pub open spec fn split_once(s: Seq<char>, c: char) -> Option<(Seq<char>, Seq<char>)> {
    match index_from(s, c, 0) {
        Some(k) => Some((s.take(k), s.skip(k + 1))),
        None => None,
    }
}

/// The first position holding `.` or `:`.
pub open spec fn first_fraction_sep(s: Seq<char>) -> Option<int> {
    if exists|i: int| 0 <= i < s.len() && (s[i] == '.' || s[i] == ':') {
        Some(
            choose|i: int|
                0 <= i < s.len() && (s[i] == '.' || s[i] == ':') && forall|j: int|
                    0 <= j < i ==> !(s[j] == '.' || s[j] == ':'),
        )
    } else {
        None
    }
}

/// The ASCII digits of `s`, in order.
pub open spec fn keep_digits(s: Seq<char>) -> Seq<char>
    decreases s.len(),
{
    if s.len() == 0 {
        seq![]
    } else if is_digit(s.last()) {
        keep_digits(s.drop_last()).push(s.last())
    } else {
        keep_digits(s.drop_last())
    }
}

/// Milliseconds from the fraction after the seconds: one digit is tenths,
/// two are hundredths, three or more are taken as milliseconds.
pub open spec fn fraction_ms(fraction: Seq<char>) -> Option<nat> {
    let digits = keep_digits(fraction);
    if digits.len() == 0 {
        None
    } else {
        match parse_bounded(digits, u64::MAX as nat) {
            Some(v) => if digits.len() == 1 {
                Some(v * 100)
            } else if digits.len() == 2 {
                Some(v * 10)
            } else {
                Some(v)
            },
            None => None,
        }
    }
}

#[verifier::opaque]
/// The time an LRC tag stands for, `mm:ss`, `mm:ss.xx` or `mm:ss.xxx`, in
/// milliseconds; `None` for a tag that is not a time, or whose time does not
/// fit in a `u64`.
pub open spec fn timestamp_ms(tag: Seq<char>) -> Option<nat> {
    match split_once(tag, ':') {
        None => None,
        Some((minutes, rest)) => match parse_bounded(trim(minutes), u64::MAX as nat) {
            None => None,
            Some(m) => {
                let (seconds, fraction) = match first_fraction_sep(rest) {
                    Some(k) => (rest.take(k), Some(rest.skip(k + 1))),
                    None => (rest, None),
                };
                match parse_bounded(trim(seconds), u64::MAX as nat) {
                    None => None,
                    Some(s) => {
                        let millis = match fraction {
                            Some(f) => fraction_ms(f),
                            None => Some(0nat),
                        };
                        match millis {
                            None => None,
                            Some(ms) => {
                                let total = m * 60_000 + s * 1_000 + ms;
                                if total <= u64::MAX {
                                    Some(total)
                                } else {
                                    None
                                }
                            },
                        }
                    },
                }
            },
        },
    }
}

fn split_once_exec(s: &[char], c: char) -> (r: Option<(Vec<char>, Vec<char>)>)
    ensures
        match r {
            Some((a, b)) => split_once(s@, c) == Some((a@, b@)),
            None => split_once(s@, c) is None,
        },
{
    match find_char_from(s, c, 0) {
        Some(k) => {
            assert(k < s.len());
            let a = slice_of(s, 0, k);
            let b = slice_of(s, k + 1, s.len());
            assert(a@ =~= s@.take(k as int));
            assert(b@ =~= s@.skip(k + 1));
            Some((a, b))
        },
        None => None,
    }
}

fn first_fraction_sep_exec(s: &[char]) -> (r: Option<usize>)
    ensures
        match r {
            Some(k) => first_fraction_sep(s@) == Some(k as int) && k < s@.len(),
            None => first_fraction_sep(s@) is None,
        },
{
    let mut i: usize = 0;
    while i < s.len()
        invariant
            i <= s@.len(),
            forall|j: int| 0 <= j < i ==> !(s@[j] == '.' || s@[j] == ':'),
        decreases s.len() - i,
    {
        if s[i] == '.' || s[i] == ':' {
            proof {
                let w = choose|w: int|
                    0 <= w < s@.len() && (s@[w] == '.' || s@[w] == ':') && forall|j: int|
                        0 <= j < w ==> !(s@[j] == '.' || s@[j] == ':');
                assert(0 <= i < s@.len() && (s@[i as int] == '.' || s@[i as int] == ':'));
                if w < i {
                } else if w > i {
                    assert(!(s@[i as int] == '.' || s@[i as int] == ':'));
                }
            }
            return Some(i);
        }
        i = i + 1;
    }
    None
}

proof fn lemma_keep_digits(s: Seq<char>)
    ensures
        forall|i: int| 0 <= i < keep_digits(s).len() ==> is_digit(#[trigger] keep_digits(s)[i]),
    decreases s.len(),
{
    if s.len() > 0 {
        lemma_keep_digits(s.drop_last());
        if is_digit(s.last()) {
            let k = keep_digits(s.drop_last());
            assert forall|i: int| 0 <= i < keep_digits(s).len() implies is_digit(#[trigger] keep_digits(s)[i]) by {
                if i < k.len() {
                    assert(keep_digits(s)[i] == k[i]);
                }
            }
        }
    }
}

fn keep_digits_exec(s: &[char]) -> (out: Vec<char>)
    ensures
        out@ == keep_digits(s@),
{
    let mut out: Vec<char> = Vec::new();
    let mut i: usize = 0;
    while i < s.len()
        invariant
            i <= s@.len(),
            out@ == keep_digits(s@.take(i as int)),
        decreases s.len() - i,
    {
        let ghost t = s@.take(i + 1);
        assert(t.drop_last() =~= s@.take(i as int));
        if '0' <= s[i] && s[i] <= '9' {
            out.push(s[i]);
        }
        i = i + 1;
    }
    assert(s@.take(s@.len() as int) =~= s@);
    out
}

fn fraction_ms_exec(fraction: &[char]) -> (r: Option<u64>)
    ensures
        match r {
            Some(v) => fraction_ms(fraction@) == Some(v as nat),
            None => fraction_ms(fraction@) is None,
        },
{
    let digits = keep_digits_exec(fraction);
    if digits.len() == 0 {
        return None;
    }
    proof {
        lemma_keep_digits(fraction@);
    }
    match parse_u64(&digits) {
        Some(v) => {
            if digits.len() == 1 {
                // a single digit is at most 9
                assert(v < 10) by {
                    assert(is_digit(digits@[0]));
                    assert(crate::numbers::unsigned_body(digits@) == digits@);
                    assert(digits@.drop_last().len() == 0);
                    assert(digits_value(digits@.drop_last()) == 0);
                }
                Some(v * 100)
            } else if digits.len() == 2 {
                two_digit_value(&digits, v)
            } else {
                Some(v)
            }
        },
        None => None,
    }
}

fn two_digit_value(digits: &Vec<char>, v: u64) -> (r: Option<u64>)
    requires
        digits@.len() == 2,
        is_digit(digits@[0]),
        parse_bounded(digits@, u64::MAX as nat) == Some(v as nat),
    ensures
        r == Some((v * 10) as u64),
        v * 10 <= u64::MAX,
{
    assert(crate::numbers::unsigned_body(digits@) == digits@);
    let ghost d = digits@;
    assert(d.drop_last().drop_last().len() == 0);
    assert(d.drop_last().last() == d[0]);
    assert(digits_value(d.drop_last()) == digits_value(d.drop_last().drop_last()) * 10 + crate::text::digit_value(d[0]));
    assert(v < 100);
    Some(v * 10)
}

/// `mm:ss`, `mm:ss.xx` or `mm:ss.xxx`.
pub fn parse_timestamp(tag: &str) -> (r: Option<u64>)
    ensures
        match r {
            Some(v) => timestamp_ms(tag@) == Some(v as nat),
            None => timestamp_ms(tag@) is None,
        },
{
    timestamp_of(&chars_of(tag))
}

/// The time a tag stands for, from its characters.
fn timestamp_of(tag: &[char]) -> (r: Option<u64>)
    ensures
        match r {
            Some(v) => timestamp_ms(tag@) == Some(v as nat),
            None => timestamp_ms(tag@) is None,
        },
{
    reveal(timestamp_ms);
    let (minutes, rest) = match split_once_exec(tag, ':') {
        Some(parts) => parts,
        None => return None,
    };
    let m = match parse_u64(&trim_chars(&minutes)) {
        Some(m) => m,
        None => return None,
    };
    let (seconds, fraction) = match first_fraction_sep_exec(&rest) {
        Some(k) => (slice_of(&rest, 0, k), Some(slice_of(&rest, k + 1, rest.len()))),
        None => (slice_of(&rest, 0, rest.len()), None),
    };
    assert(match first_fraction_sep(rest@) {
        Some(k) => seconds@ == rest@.take(k) && crate::text::opt_seq(fraction) == Some(rest@.skip(k + 1)),
        None => seconds@ == rest@ && crate::text::opt_seq(fraction) is None,
    }) by {
        if let Some(k) = first_fraction_sep(rest@) {
            assert(seconds@ =~= rest@.take(k));
        } else {
            assert(seconds@ =~= rest@);
        }
    }
    let s = match parse_u64(&trim_chars(&seconds)) {
        Some(s) => s,
        None => return None,
    };
    let millis = match fraction {
        Some(f) => match fraction_ms_exec(&f) {
            Some(ms) => ms,
            None => return None,
        },
        None => 0,
    };
    let mm = m.checked_mul(60_000);
    let ss = s.checked_mul(1_000);
    match (mm, ss) {
        (Some(mm), Some(ss)) => match mm.checked_add(ss) {
            Some(a) => a.checked_add(millis),
            None => None,
        },
        _ => None,
    }
}

/// The times carried by the tags at the start of `rest`, after those already
/// in `stamps`, and the text that follows them. A tag that is not a time is
/// metadata: the scan stops and the line has no text.
pub open spec fn scan_tags(rest: Seq<char>, stamps: Seq<u64>) -> (Seq<u64>, Seq<char>)
    decreases rest.len(),
{
    if rest.len() > 0 && rest[0] == '[' {
        match index_from(rest, ']', 0) {
            None => (stamps, rest),
            Some(close) => if 1 <= close < rest.len() {
                match timestamp_ms(rest.subrange(1, close)) {
                    Some(t) => {
                        proof {
                            lemma_trim_start(rest.skip(close + 1));
                        }
                        scan_tags(trim_start(rest.skip(close + 1)), stamps.push(t as u64))
                    },
                    None => (stamps, seq![]),
                }
            } else {
                (stamps, rest)
            },
        }
    } else {
        (stamps, rest)
    }
}

/// One line of lyrics for each time, all with the same text.
pub open spec fn stamped(stamps: Seq<u64>, text: Seq<char>) -> Seq<LineView> {
    Seq::new(stamps.len(), |i: int| LineView { at_ms: stamps[i], text })
}

/// Plain text lines, none of them timed.
pub open spec fn plain_lines(untimed: Seq<Seq<char>>) -> Seq<LineView> {
    Seq::new(untimed.len(), |i: int| LineView { at_ms: 0, text: untimed[i] })
}

/// The order lyrics are shown in, as a relation for `sorted_by`.
pub open spec fn by_time() -> spec_fn(LineView, LineView) -> bool {
    |a: LineView, b: LineView| earlier(a, b)
}

/// What one line of an LRC file adds: timed lines, one per time it carries,
/// or a line of plain text.
pub open spec fn lrc_line(raw: Seq<char>, timed: Seq<LineView>, untimed: Seq<Seq<char>>) -> (
    Seq<LineView>,
    Seq<Seq<char>>,
) {
    let trimmed = trim(raw);
    if trimmed.len() == 0 {
        (timed, untimed)
    } else {
        let (stamps, text) = scan_tags(trimmed, seq![]);
        if stamps.len() == 0 {
            if text.len() > 0 {
                (timed, untimed.push(text))
            } else {
                (timed, untimed)
            }
        } else {
            (timed + stamped(stamps, text), untimed)
        }
    }
}

/// The timed and plain lines of a whole file, in file order.
pub open spec fn lrc_collect(ls: Seq<Seq<char>>) -> (Seq<LineView>, Seq<Seq<char>>)
    decreases ls.len(),
{
    if ls.len() == 0 {
        (seq![], seq![])
    } else {
        let (timed, untimed) = lrc_collect(ls.drop_last());
        lrc_line(ls.last(), timed, untimed)
    }
}

/// The order lyrics are shown in: by time, and in file order for equal times.
pub open spec fn earlier(a: LineView, b: LineView) -> bool {
    a.at_ms < b.at_ms
}

/// The lyrics read from `source`: its lines and whether they are unsynced.
pub open spec fn parse_lrc_spec(source: Seq<char>) -> (Seq<LineView>, bool) {
    let (timed, untimed) = lrc_collect(lines(source));
    if timed.len() == 0 {
        (plain_lines(untimed), true)
    } else {
        (sorted_by(timed, by_time()), false)
    }
}

/// The tags at the start of a trimmed line.
fn scan_tags_exec(line: &[char]) -> (r: (Vec<u64>, Vec<char>))
    ensures
        scan_tags(line@, seq![]) == (r.0@, r.1@),
{
    let mut rest = slice_of(line, 0, line.len());
    assert(rest@ =~= line@);
    let mut stamps: Vec<u64> = Vec::new();
    while rest.len() > 0 && rest[0] == '['
        invariant
            scan_tags(rest@, stamps@) == scan_tags(line@, seq![]),
        decreases rest.len(),
    {
        let close = match find_char_from(&rest, ']', 0) {
            Some(close) => close,
            None => {
                return (stamps, rest);
            },
        };
        assert(close >= 1);
        let tag = slice_of(&rest, 1, close);
        match timestamp_of(&tag) {
            Some(at_ms) => {
                let after = slice_of(&rest, close + 1, rest.len());
                assert(after@ =~= rest@.skip(close + 1));
                let next = trim_start_exec(&after);
                proof {
                    lemma_trim_start(after@);
                }
                stamps.push(at_ms);
                rest = next;
            },
            None => {
                return (stamps, Vec::new());
            },
        }
    }
    (stamps, rest)
}

/// `str::trim_start` over characters.
fn trim_start_exec(s: &[char]) -> (out: Vec<char>)
    ensures
        out@ == trim_start(s@),
{
    proof {
        lemma_trim_start(s@);
    }
    let mut lo: usize = 0;
    while lo < s.len() && is_whitespace(s[lo])
        invariant
            lo <= s@.len(),
            lo <= lead_ws(s@),
            lead_ws(s@) <= s@.len(),
            lead_ws(s@) < s@.len() ==> !is_ws(s@[lead_ws(s@) as int]),
        decreases s.len() - lo,
    {
        proof {
            if lo == lead_ws(s@) {
                assert(!is_ws(s@[lo as int]));
            }
        }
        lo = lo + 1;
    }
    assert(lo == lead_ws(s@)) by {
        if lo < lead_ws(s@) {
            assert(is_ws(s@[lo as int]));
        }
    }
    slice_of(s, lo, s.len())
}

proof fn lemma_line_views_push(v: Seq<LyricLine>, x: LyricLine)
    ensures
        line_views(v.push(x)) == line_views(v).push(x@),
{
    assert forall|i: int| 0 <= i < v.len() + 1 implies #[trigger] line_views(v.push(x))[i] == line_views(v).push(x@)[i] by {
        if i < v.len() {
            assert(v.push(x)[i] == v[i]);
        }
    }
    assert(line_views(v.push(x)) =~= line_views(v).push(x@));
}

/// Sorts lines by time, keeping file order for equal times.
fn sort_by_time(lines: Vec<LyricLine>) -> (out: Vec<LyricLine>)
    ensures
        line_views(out@) == sorted_by(line_views(lines@), by_time()),
{
    let ghost orig = line_views(lines@);
    let mut input = lines;
    let mut out: Vec<LyricLine> = Vec::new();
    let ghost mut k: int = 0;
    while input.len() > 0
        invariant
            0 <= k <= orig.len(),
            line_views(input@) == orig.skip(k),
            line_views(out@) == sorted_by(orig.take(k), by_time()),
        decreases input.len(),
    {
        let ghost old_input = input@;
        let x = input.remove(0);
        let ghost xv = x@;
        proof {
            assert(line_views(old_input).len() == orig.len() - k);
            assert(line_views(old_input)[0] == old_input[0]@);
            assert(orig.skip(k)[0] == orig[k]);
        }
        let mut p: usize = 0;
        while p < out.len() && !(x.at_ms < out[p].at_ms)
            invariant
                p <= out@.len(),
                forall|j: int| 0 <= j < p ==> !earlier(xv, #[trigger] line_views(out@)[j]),
                xv == x@,
            decreases out.len() - p,
        {
            assert(line_views(out@)[p as int] == out@[p as int]@);
            p = p + 1;
        }
        let ghost sorted = line_views(out@);
        proof {
            if p < out@.len() {
                assert(sorted[p as int] == out@[p as int]@);
            }
            lemma_insert_by_at(sorted, xv, by_time(), p as int);
            lemma_sorted_by_push(orig.take(k), xv, by_time());
            assert(orig.take(k + 1) =~= orig.take(k).push(xv));
        }
        out.insert(p, x);
        proof {
            assert(line_views(out@) =~= sorted.take(p as int) + seq![xv] + sorted.skip(p as int));
            assert forall|i: int| 0 <= i < input@.len() implies #[trigger] line_views(input@)[i] == orig.skip(k + 1)[i] by {
                assert(input@[i] == old_input[i + 1]);
                assert(line_views(old_input)[i + 1] == old_input[i + 1]@);
                assert(orig.skip(k)[i + 1] == orig.skip(k + 1)[i]);
            }
            assert(line_views(input@) =~= orig.skip(k + 1));
            k = k + 1;
        }
    }
    assert(orig.take(k) =~= orig);
    out
}

/// Parse LRC text.
///
/// Handles the common shapes: several timestamps on one line, two- or
/// three-digit fractions, and metadata tags such as `[ar:...]`, which are
/// skipped rather than shown as lyrics.
pub fn parse_lrc(source: &str) -> (lyrics: Lyrics)
    ensures
        (line_views(lyrics.lines@), lyrics.unsynced) == parse_lrc_spec(source@),
{
    let s = chars_of(source);
    let mut timed: Vec<LyricLine> = Vec::new();
    let mut untimed: Vec<Vec<char>> = Vec::new();
    let ghost mut processed: Seq<Seq<char>> = seq![];
    let mut pos: usize = 0;
    proof {
        assert(processed + lines_from(s@, 0) =~= lines(s@));
    }
    while pos < s.len()
        invariant
            pos <= s@.len(),
            s@ == source@,
            processed + lines_from(s@, pos as int) == lines(s@),
            (line_views(timed@), vec_views(untimed@)) == lrc_collect(processed),
        decreases s.len() - pos,
    {
        let (raw, next) = next_line(&s, pos);
        let ghost ls = lines_from(s@, pos as int);
        proof {
            assert(ls[0] == raw@);
            assert(ls.drop_first() =~= lines_from(s@, next as int));
            assert(processed.push(raw@) + lines_from(s@, next as int) =~= processed + ls);
            assert(processed.push(raw@).drop_last() =~= processed);
        }
        let ghost old_timed = line_views(timed@);
        let ghost old_untimed = vec_views(untimed@);
        let trimmed = trim_chars(&raw);
        if trimmed.len() > 0 {
            let (stamps, text) = scan_tags_exec(&trimmed);
            if stamps.len() == 0 {
                if text.len() > 0 {
                    untimed.push(text);
                    assert(vec_views(untimed@) =~= old_untimed.push(text@));
                }
            } else {
                let mut j: usize = 0;
                while j < stamps.len()
                    invariant
                        j <= stamps@.len(),
                        line_views(timed@) == old_timed + stamped(stamps@.take(j as int), text@),
                    decreases stamps.len() - j,
                {
                    let line = LyricLine { at_ms: stamps[j], text: string_of(&text) };
                    let ghost tv = timed@;
                    timed.push(line);
                    proof {
                        lemma_line_views_push(tv, line);
                        assert(stamped(stamps@.take(j + 1), text@) =~= stamped(stamps@.take(j as int), text@).push(line@));
                        assert(old_timed + stamped(stamps@.take(j + 1), text@) =~= (old_timed + stamped(stamps@.take(j as int), text@)).push(line@));
                    }
                    j = j + 1;
                }
                assert(stamps@.take(stamps@.len() as int) =~= stamps@);
            }
        }
        proof {
            processed = processed.push(raw@);
        }
        pos = next;
    }
    proof {
        lemma_lines_end(s@, pos as int);
        assert(processed =~= lines(s@));
    }
    if timed.len() == 0 {
        let mut plain: Vec<LyricLine> = Vec::new();
        let mut j: usize = 0;
        while j < untimed.len()
            invariant
                j <= untimed@.len(),
                line_views(plain@) == plain_lines(vec_views(untimed@).take(j as int)),
            decreases untimed.len() - j,
        {
            let line = LyricLine { at_ms: 0, text: string_of(&untimed[j]) };
            let ghost pv = plain@;
            plain.push(line);
            proof {
                lemma_line_views_push(pv, line);
                assert(vec_views(untimed@)[j as int] == untimed@[j as int]@);
                assert(plain_lines(vec_views(untimed@).take(j + 1)) =~= plain_lines(vec_views(untimed@).take(j as int)).push(line@));
            }
            j = j + 1;
        }
        assert(vec_views(untimed@).take(untimed@.len() as int) =~= vec_views(untimed@));
        return Lyrics { lines: plain, unsynced: true };
    }
    let lines = sort_by_time(timed);
    Lyrics { lines, unsynced: false }
}

/// Lines in order of time.
pub open spec fn in_time_order(ls: Seq<LineView>) -> bool {
    forall|i: int, j: int| 0 <= i < j < ls.len() ==> ls[i].at_ms <= ls[j].at_ms
}

proof fn lemma_insert_keeps_bound(s: Seq<LineView>, x: LineView, lo: u64)
    requires
        x.at_ms >= lo,
        forall|i: int| 0 <= i < s.len() ==> #[trigger] s[i].at_ms >= lo,
    ensures
        forall|i: int| 0 <= i < insert_by(s, x, by_time()).len() ==> #[trigger] insert_by(s, x, by_time())[i].at_ms >= lo,
    decreases s.len(),
{
    let r = insert_by(s, x, by_time());
    if s.len() == 0 {
    } else if earlier(x, s[0]) {
        assert forall|i: int| 0 <= i < r.len() implies #[trigger] r[i].at_ms >= lo by {
            if i > 0 {
                assert(r[i] == s[i - 1]);
            }
        }
    } else {
        let t = s.drop_first();
        assert forall|i: int| 0 <= i < t.len() implies #[trigger] t[i].at_ms >= lo by {
            assert(t[i] == s[i + 1]);
        }
        lemma_insert_keeps_bound(t, x, lo);
        assert forall|i: int| 0 <= i < r.len() implies #[trigger] r[i].at_ms >= lo by {
            if i > 0 {
                assert(r[i] == insert_by(t, x, by_time())[i - 1]);
            }
        }
    }
}

proof fn lemma_insert_in_order(s: Seq<LineView>, x: LineView)
    requires
        in_time_order(s),
    ensures
        in_time_order(insert_by(s, x, by_time())),
    decreases s.len(),
{
    let r = insert_by(s, x, by_time());
    if s.len() == 0 {
    } else if earlier(x, s[0]) {
        assert forall|i: int, j: int| 0 <= i < j < r.len() implies r[i].at_ms <= r[j].at_ms by {
            assert(r[j] == s[j - 1]);
            if i > 0 {
                assert(r[i] == s[i - 1]);
            } else {
                assert(s[0].at_ms <= s[j - 1].at_ms);
            }
        }
    } else {
        let t = s.drop_first();
        assert(in_time_order(t)) by {
            assert forall|i: int, j: int| 0 <= i < j < t.len() implies t[i].at_ms <= t[j].at_ms by {
                assert(t[i] == s[i + 1]);
                assert(t[j] == s[j + 1]);
            }
        }
        lemma_insert_in_order(t, x);
        assert forall|i: int| 0 <= i < t.len() implies #[trigger] t[i].at_ms >= s[0].at_ms by {
            assert(t[i] == s[i + 1]);
        }
        lemma_insert_keeps_bound(t, x, s[0].at_ms);
        let it = insert_by(t, x, by_time());
        assert forall|i: int, j: int| 0 <= i < j < r.len() implies r[i].at_ms <= r[j].at_ms by {
            assert(r[j] == it[j - 1]);
            if i > 0 {
                assert(r[i] == it[i - 1]);
            }
        }
    }
}

proof fn lemma_sorted_in_order(s: Seq<LineView>)
    ensures
        in_time_order(sorted_by(s, by_time())),
    decreases s.len(),
{
    if s.len() > 0 {
        lemma_sorted_in_order(s.drop_last());
        lemma_insert_in_order(sorted_by(s.drop_last(), by_time()), s.last());
    }
}

/// A synced file is ordered by time: when lyrics carry timestamps, their
/// lines come out in order of time, every timed line of the file among them
/// exactly as often as the file has it.
pub proof fn lemma_synced_lyrics_are_in_time_order(source: Seq<char>)
    ensures
        !parse_lrc_spec(source).1 ==> in_time_order(parse_lrc_spec(source).0),
        !parse_lrc_spec(source).1 ==> parse_lrc_spec(source).0.to_multiset() == lrc_collect(lines(source)).0.to_multiset(),
{
    let timed = lrc_collect(lines(source)).0;
    if timed.len() > 0 {
        lemma_sorted_in_order(timed);
        crate::sorting::lemma_sorted_by_multiset(timed, by_time());
    }
}

/// The times a line carries: the time tags at its start, read in order.
pub open spec fn line_times(raw: Seq<char>) -> Seq<u64> {
    scan_tags(trim(raw), seq![]).0
}

/// How many time tags the lines carry in all.
pub open spec fn time_tag_count(ls: Seq<Seq<char>>) -> nat
    decreases ls.len(),
{
    if ls.len() == 0 {
        0
    } else {
        time_tag_count(ls.drop_last()) + line_times(ls.last()).len()
    }
}

proof fn lemma_collected_per_tag(ls: Seq<Seq<char>>)
    ensures
        lrc_collect(ls).0.len() == time_tag_count(ls),
    decreases ls.len(),
{
    if ls.len() > 0 {
        lemma_collected_per_tag(ls.drop_last());
        let raw = ls.last();
        let trimmed = trim(raw);
        if trimmed.len() == 0 {
            assert(scan_tags(trimmed, seq![]) == (Seq::<u64>::empty(), trimmed));
        }
    }
}

/// Every time tag makes one line: each tag at the start of a line that is
/// not metadata gives one lyric line at its time, whether or not text
/// follows, so a file with time tags is synced and has as many lines as it
/// has tags; a file without any is read as plain text.
pub proof fn lemma_one_line_per_time_tag(source: Seq<char>)
    ensures
        time_tag_count(lines(source)) > 0 ==> !parse_lrc_spec(source).1
            && parse_lrc_spec(source).0.len() == time_tag_count(lines(source)),
        time_tag_count(lines(source)) == 0 ==> parse_lrc_spec(source).1,
{
    let timed = lrc_collect(lines(source)).0;
    lemma_collected_per_tag(lines(source));
    crate::sorting::lemma_sorted_by_len(timed, by_time());
}

/// The times of a single line's tags are the times of the lines it makes,
/// in the order the tags come, and each of those lines has the text after
/// the tags.
pub proof fn lemma_each_tag_gives_its_time(raw: Seq<char>, timed: Seq<LineView>, untimed: Seq<Seq<char>>)
    requires
        line_times(raw).len() > 0,
    ensures
        lrc_line(raw, timed, untimed).0.len() == timed.len() + line_times(raw).len(),
        forall|i: int| 0 <= i < line_times(raw).len() ==>
            (#[trigger] lrc_line(raw, timed, untimed).0[timed.len() + i]).at_ms == line_times(raw)[i]
            && lrc_line(raw, timed, untimed).0[timed.len() + i].text == scan_tags(trim(raw), seq![]).1,
{
    let trimmed = trim(raw);
    if trimmed.len() == 0 {
        assert(scan_tags(trimmed, seq![]) == (Seq::<u64>::empty(), trimmed));
    }
}

/// A character kept in a file name derived from tags: letters, digits and
/// spaces stay, anything else becomes `-`.
pub open spec fn safe_char(c: char) -> char {
    if alphanumeric(c) || c == ' ' {
        c
    } else {
        '-'
    }
}

/// A tag value made safe for a file name: folded, then with every character
/// that is not a letter, a digit or a space replaced by `-`.
pub open spec fn cleaned(value: Seq<char>) -> Seq<char> {
    let f = folded(value);
    Seq::new(f.len(), |i: int| safe_char(f[i]))
}

/// The file name `descriptive_name` gives.
pub open spec fn descriptive_name_spec(artist: Seq<char>, title: Seq<char>) -> Seq<char> {
    cleaned(artist) + " - "@ + cleaned(title) + ".lrc"@
}

fn cleaned_chars(value: &str, out: &mut Vec<char>)
    ensures
        final(out)@ == old(out)@ + cleaned(value@),
{
    let f = fold_chars(value);
    let ghost start = out@;
    let mut i: usize = 0;
    while i < f.len()
        invariant
            i <= f@.len(),
            f@ == folded(value@),
            out@ == start + Seq::new(i as nat, |k: int| safe_char(f@[k])),
        decreases f.len() - i,
    {
        let c = f[i];
        let keep = is_alphanumeric(c) || c == ' ';
        out.push(if keep {
            c
        } else {
            '-'
        });
        i = i + 1;
        assert(out@ =~= start + Seq::new(i as nat, |k: int| safe_char(f@[k])));
    }
    assert(Seq::new(f@.len(), |k: int| safe_char(f@[k])) =~= cleaned(value@));
}

/// A filename derived from the tags, for lyrics imported without a track id.
pub fn descriptive_name(artist: &str, title: &str) -> (name: String)
    ensures
        name@ == descriptive_name_spec(artist@, title@),
{
    let mut out: Vec<char> = Vec::new();
    cleaned_chars(artist, &mut out);
    out.push(' ');
    out.push('-');
    out.push(' ');
    cleaned_chars(title, &mut out);
    out.push('.');
    out.push('l');
    out.push('r');
    out.push('c');
    proof {
        reveal_strlit(" - ");
        reveal_strlit(".lrc");
    }
    assert(out@ =~= descriptive_name_spec(artist@, title@));
    string_of(&out)
}

/// Where a track's lyrics would be stored: `<id>.lrc` in the lyrics
/// directory.
pub fn lyrics_path(lyrics_dir: &str, track: &Track) -> (path: String)
    ensures
        path@ == path_join(lyrics_dir@, track.id@ + ".lrc"@),
{
    let mut file = chars_of(track.id.as_str());
    file.push('.');
    file.push('l');
    file.push('r');
    file.push('c');
    proof {
        reveal_strlit(".lrc");
    }
    assert(file@ =~= track.id@ + ".lrc"@);
    join_path(lyrics_dir, string_of(&file).as_str())
}

/// The places a track's lyrics are looked for, in order: by its id, then
/// by its artist and title. The second is what makes lyrics survive a file
/// being moved: the id is derived from the path, so moving the audio
/// changes it.
pub fn lyrics_candidates(lyrics_dir: &str, track: &Track) -> (paths: Vec<String>)
    ensures
        paths@.len() == 2,
        paths@[0]@ == path_join(lyrics_dir@, track.id@ + ".lrc"@),
        paths@[1]@ == path_join(lyrics_dir@, descriptive_name_spec(track.artist@, track.title@)),
{
    let mut paths: Vec<String> = Vec::new();
    paths.push(lyrics_path(lyrics_dir, track));
    let name = descriptive_name(track.artist.as_str(), track.title.as_str());
    paths.push(join_path(lyrics_dir, name.as_str()));
    paths
}

/// Whether a name given for imported lyrics is a single plain file name,
/// which keeps the file inside the lyrics directory: not empty, not `.` or
/// `..`, and without a separator.
pub open spec fn plain_file_name(name: Seq<char>) -> bool {
    &&& name.len() > 0
    &&& name != seq!['.']
    &&& name != seq!['.', '.']
    &&& forall|i: int| 0 <= i < name.len() ==> name[i] != '/'
}

/// Whether a name given for imported lyrics is a single plain file name.
pub fn is_plain_file_name(name: &str) -> (b: bool)
    ensures
        b == plain_file_name(name@),
{
    let chars = chars_of(name);
    if chars.len() == 0 {
        return false;
    }
    if chars.len() == 1 && chars[0] == '.' {
        assert(chars@ =~= seq!['.']);
        return false;
    }
    if chars.len() == 2 && chars[0] == '.' && chars[1] == '.' {
        assert(chars@ =~= seq!['.', '.']);
        return false;
    }
    assert(chars@ != seq!['.']);
    assert(chars@ != seq!['.', '.']);
    let mut i: usize = 0;
    while i < chars.len()
        invariant
            i <= chars@.len(),
            chars@ == name@,
            forall|j: int| 0 <= j < i ==> chars@[j] != '/',
        decreases chars.len() - i,
    {
        if chars[i] == '/' {
            assert(chars@[i as int] == '/');
            assert(!plain_file_name(name@));
            return false;
        }
        i = i + 1;
    }
    true
}

} // verus!
