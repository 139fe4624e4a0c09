//! Character-level text handling shared by the parsers.
//!
//! Everything here works on `Seq<char>` in its contracts and on `Vec<char>`
//! or `&str` in code, so that the parsers above can be stated over the
//! characters a user actually wrote.

use vstd::prelude::*;

verus! {

/// The Unicode `White_Space` property, which is what `char::is_whitespace`
/// tests and therefore what `trim` and `split_whitespace` strip.
pub open spec fn is_ws(c: char) -> bool {
    let u = c as u32;
    ||| 9 <= u <= 13
    ||| u == 32
    ||| u == 0x85
    ||| u == 0xA0
    ||| u == 0x1680
    ||| 0x2000 <= u <= 0x200A
    ||| u == 0x2028
    ||| u == 0x2029
    ||| u == 0x202F
    ||| u == 0x205F
    ||| u == 0x3000
}

/// `char::is_whitespace`.
pub fn is_whitespace(c: char) -> (b: bool)
    ensures
        b == is_ws(c),
{
    let u = c as u32;
    (9 <= u && u <= 13) || u == 32 || u == 0x85 || u == 0xA0 || u == 0x1680 || (0x2000 <= u && u
        <= 0x200A) || u == 0x2028 || u == 0x2029 || u == 0x202F || u == 0x205F || u == 0x3000
}

/// An ASCII decimal digit.
pub open spec fn is_digit(c: char) -> bool {
    '0' <= c && c <= '9'
}

/// The value of an ASCII digit.
pub open spec fn digit_value(c: char) -> nat {
    ((c as u32) - ('0' as u32)) as nat
}

/// `s` with leading white space removed.
pub open spec fn trim_start(s: Seq<char>) -> Seq<char>
    decreases s.len(),
{
    if s.len() > 0 && is_ws(s[0]) {
        trim_start(s.drop_first())
    } else {
        s
    }
}

/// `s` with trailing white space removed.
pub open spec fn trim_end(s: Seq<char>) -> Seq<char>
    decreases s.len(),
{
    if s.len() > 0 && is_ws(s.last()) {
        trim_end(s.drop_last())
    } else {
        s
    }
}

/// `str::trim`: white space removed at both ends.
pub open spec fn trim(s: Seq<char>) -> Seq<char> {
    trim_end(trim_start(s))
}

/// The number of leading white-space characters.
pub open spec fn lead_ws(s: Seq<char>) -> nat
    decreases s.len(),
{
    if s.len() > 0 && is_ws(s[0]) {
        1 + lead_ws(s.drop_first())
    } else {
        0
    }
}

/// The number of trailing white-space characters.
pub open spec fn tail_ws(s: Seq<char>) -> nat
    decreases s.len(),
{
    if s.len() > 0 && is_ws(s.last()) {
        1 + tail_ws(s.drop_last())
    } else {
        0
    }
}

pub proof fn lemma_trim_start(s: Seq<char>)
    ensures
        lead_ws(s) <= s.len(),
        trim_start(s) == s.subrange(lead_ws(s) as int, s.len() as int),
        forall|i: int| 0 <= i < lead_ws(s) ==> #[trigger] is_ws(s[i]),
        lead_ws(s) < s.len() ==> !is_ws(s[lead_ws(s) as int]),
    decreases s.len(),
{
    if s.len() > 0 && is_ws(s[0]) {
        lemma_trim_start(s.drop_first());
        assert forall|i: int| 0 <= i < lead_ws(s) implies #[trigger] is_ws(s[i]) by {
            if i > 0 {
                assert(s[i] == s.drop_first()[i - 1]);
            }
        }
        assert(s.drop_first().subrange(lead_ws(s.drop_first()) as int, s.drop_first().len() as int)
            =~= s.subrange(lead_ws(s) as int, s.len() as int));
    } else {
        assert(s.subrange(0, s.len() as int) =~= s);
    }
}

pub proof fn lemma_trim_end(s: Seq<char>)
    ensures
        tail_ws(s) <= s.len(),
        trim_end(s) == s.subrange(0, s.len() - tail_ws(s)),
        forall|i: int| s.len() - tail_ws(s) <= i < s.len() ==> #[trigger] is_ws(s[i]),
        tail_ws(s) < s.len() ==> !is_ws(s[s.len() - tail_ws(s) - 1]),
    decreases s.len(),
{
    if s.len() > 0 && is_ws(s.last()) {
        lemma_trim_end(s.drop_last());
        assert forall|i: int| s.len() - tail_ws(s) <= i < s.len() implies #[trigger] is_ws(s[i]) by {
            if i < s.len() - 1 {
                assert(s[i] == s.drop_last()[i]);
            }
        }
        assert(s.drop_last().subrange(0, s.drop_last().len() - tail_ws(s.drop_last()))
            =~= s.subrange(0, s.len() - tail_ws(s)));
    } else {
        assert(s.subrange(0, s.len() as int) =~= s);
    }
}

/// The characters of a string slice, in order.
pub fn chars_of(s: &str) -> (out: Vec<char>)
    ensures
        out@ == s@,
{
    let mut out: Vec<char> = Vec::new();
    for c in it: s.chars()
        invariant
            out@ == it.seq().take(it.index() as int),
    {
        out.push(c);
    }
    out
}

/// `String::push`: appends one character.
#[verifier::external_body]
fn push_char(s: &mut String, c: char)
    ensures
        final(s)@ == old(s)@.push(c),
{
    s.push(c);
}

/// A string holding exactly the given characters.
pub fn string_of(chars: &[char]) -> (s: String)
    ensures
        s@ == chars@,
{
    let mut s = String::new();
    let mut i: usize = 0;
    while i < chars.len()
        invariant
            i <= chars.len(),
            s@ == chars@.subrange(0, i as int),
        decreases chars.len() - i,
    {
        push_char(&mut s, chars[i]);
        i = i + 1;
        assert(s@ == chars@.subrange(0, i as int));
    }
    assert(chars@.subrange(0, chars@.len() as int) == chars@);
    s
}

/// A copy of `s[lo..hi]`.
pub fn slice_of(s: &[char], lo: usize, hi: usize) -> (out: Vec<char>)
    requires
        lo <= hi <= s@.len(),
    ensures
        out@ == s@.subrange(lo as int, hi as int),
{
    let mut out: Vec<char> = Vec::new();
    let mut i = lo;
    while i < hi
        invariant
            lo <= i <= hi <= s@.len(),
            out@ == s@.subrange(lo as int, i as int),
        decreases hi - i,
    {
        out.push(s[i]);
        i = i + 1;
        assert(out@ =~= s@.subrange(lo as int, i as int));
    }
    out
}

/// `str::trim` over characters.
pub fn trim_chars(s: &[char]) -> (out: Vec<char>)
    ensures
        out@ == trim(s@),
{
    proof {
        lemma_trim_start(s@);
    }
    let mut lo: usize = 0;
    while lo < s.len() && is_whitespace(s[lo])
        invariant
            lo <= s@.len(),
            lo <= lead_ws(s@),
            lead_ws(s@) <= s@.len(),
            lead_ws(s@) < s@.len() ==> !is_ws(s@[lead_ws(s@) as int]),
        decreases s.len() - lo,
    {
        proof {
            if lo == lead_ws(s@) {
                assert(!is_ws(s@[lo as int]));
            }
        }
        lo = lo + 1;
    }
    assert(lo == lead_ws(s@)) by {
        if lo < lead_ws(s@) {
            assert(is_ws(s@[lo as int]));
        }
    }
    let ghost t = s@.subrange(lo as int, s@.len() as int);
    proof {
        lemma_trim_end(t);
    }
    let mut hi: usize = s.len();
    while hi > lo && is_whitespace(s[hi - 1])
        invariant
            lo <= hi <= s@.len(),
            t == s@.subrange(lo as int, s@.len() as int),
            s@.len() - hi <= tail_ws(t),
            tail_ws(t) <= t.len(),
            tail_ws(t) < t.len() ==> !is_ws(t[t.len() - tail_ws(t) - 1]),
        decreases hi,
    {
        proof {
            if s@.len() - hi == tail_ws(t) {
                assert(t[t.len() - tail_ws(t) - 1] == s@[hi - 1]);
            }
        }
        hi = hi - 1;
    }
    assert(s@.len() - hi == tail_ws(t)) by {
        if s@.len() - hi < tail_ws(t) {
            assert(t[hi - lo - 1] == s@[hi - 1]);
            assert(is_ws(t[hi - lo - 1]));
        }
    }
    assert(t.subrange(0, t.len() - tail_ws(t)) =~= s@.subrange(lo as int, hi as int));
    slice_of(s, lo, hi)
}

/// Whether two character sequences are equal.
pub fn chars_eq(a: &[char], b: &[char]) -> (eq: bool)
    ensures
        eq == (a@ == b@),
{
    if a.len() != b.len() {
        return false;
    }
    let mut i: usize = 0;
    while i < a.len()
        invariant
            a@.len() == b@.len(),
            i <= a@.len(),
            forall|j: int| 0 <= j < i ==> a@[j] == b@[j],
        decreases a.len() - i,
    {
        if a[i] != b[i] {
            return false;
        }
        i = i + 1;
    }
    assert(a@ =~= b@);
    true
}

/// Whether `s` begins with `prefix`.
pub fn starts_with(s: &[char], prefix: &[char]) -> (b: bool)
    ensures
        b == prefix@.is_prefix_of(s@),
{
    if prefix.len() > s.len() {
        return false;
    }
    let mut i: usize = 0;
    while i < prefix.len()
        invariant
            prefix@.len() <= s@.len(),
            i <= prefix@.len(),
            forall|j: int| 0 <= j < i ==> prefix@[j] == s@[j],
        decreases prefix.len() - i,
    {
        if prefix[i] != s[i] {
            return false;
        }
        i = i + 1;
    }
    true
}

/// `t` occurs in `s` at position `i`.
pub open spec fn occurs_at(s: Seq<char>, t: Seq<char>, i: int) -> bool {
    0 <= i && i + t.len() <= s.len() && s.subrange(i, i + t.len()) == t
}

/// `str::contains` with a string pattern.
pub open spec fn contains_seq(s: Seq<char>, t: Seq<char>) -> bool {
    exists|i: int| occurs_at(s, t, i)
}

/// `str::find` with a string pattern: the first position at which `t` occurs.
pub open spec fn first_occurrence(s: Seq<char>, t: Seq<char>) -> Option<int> {
    if contains_seq(s, t) {
        Some(choose|i: int| occurs_at(s, t, i) && forall|j: int| 0 <= j < i ==> !occurs_at(s, t, j))
    } else {
        None
    }
}

/// Whether `t` occurs in `s` at `i`.
fn occurs_at_exec(s: &[char], t: &[char], i: usize) -> (b: bool)
    requires
        i <= s@.len(),
    ensures
        b == occurs_at(s@, t@, i as int),
{
    if t.len() > s.len() - i {
        return false;
    }
    let mut k: usize = 0;
    while k < t.len()
        invariant
            i + t@.len() <= s@.len(),
            s@.len() <= usize::MAX,
            k <= t@.len(),
            forall|j: int| 0 <= j < k ==> s@[i + j] == t@[j],
        decreases t.len() - k,
    {
        if s[i + k] != t[k] {
            assert(s@.subrange(i as int, i + t@.len())[k as int] != t@[k as int]);
            return false;
        }
        k = k + 1;
    }
    assert(s@.subrange(i as int, i + t@.len()) =~= t@);
    true
}

/// `str::find`: the first position at which `t` occurs in `s`.
pub fn find_seq(s: &[char], t: &[char]) -> (r: Option<usize>)
    ensures
        r matches Some(i) ==> first_occurrence(s@, t@) == Some(i as int),
        r matches Some(i) ==> occurs_at(s@, t@, i as int),
        r is None ==> first_occurrence(s@, t@) is None,
{
    let mut i: usize = 0;
    loop
        invariant
            i <= s@.len(),
            forall|j: int| 0 <= j < i ==> !occurs_at(s@, t@, j),
        ensures
            forall|j: int| 0 <= j <= s@.len() ==> !occurs_at(s@, t@, j),
        decreases s.len() - i,
    {
        if occurs_at_exec(s, t, i) {
            proof {
                let w = choose|k: int|
                    occurs_at(s@, t@, k) && forall|j: int| 0 <= j < k ==> !occurs_at(s@, t@, j);
                assert(occurs_at(s@, t@, i as int));
                assert(contains_seq(s@, t@));
                if w < i {
                } else if w > i {
                    assert(!occurs_at(s@, t@, i as int));
                }
            }
            return Some(i);
        }
        if i == s.len() {
            break;
        }
        i = i + 1;
    }
    assert(!contains_seq(s@, t@)) by {
        if contains_seq(s@, t@) {
            let k = choose|k: int| occurs_at(s@, t@, k);
            assert(k <= s@.len());
        }
    }
    None
}

/// Where the next replacement happens.
#[verifier::opaque]
pub open spec fn next_match(s: Seq<char>, from: Seq<char>) -> Option<int> {
    first_occurrence(s, from)
}

/// `str::replace` with a non-empty pattern: each occurrence of `from`, taken
/// from left to right without overlapping, replaced by `to`.
#[verifier::opaque]
pub open spec fn replaced(s: Seq<char>, from: Seq<char>, to: Seq<char>) -> Seq<char>
    decreases s.len(),
{
    if from.len() == 0 {
        s
    } else {
        match next_match(s, from) {
            Some(i) => if 0 <= i && i + from.len() <= s.len() {
                s.take(i) + to + replaced(s.skip(i + from.len()), from, to)
            } else {
                s
            },
            None => s,
        }
    }
}

fn find_match(s: &[char], from: &[char]) -> (r: Option<usize>)
    ensures
        r matches Some(i) ==> next_match(s@, from@) == Some(i as int) && i + from@.len() <= s@.len(),
        r matches Some(i) ==> occurs_at(s@, from@, i as int),
        r is None ==> next_match(s@, from@) is None,
{
    reveal(next_match);
    find_seq(s, from)
}

/// One replacement of `replaced`.
pub proof fn lemma_replaced_step(s: Seq<char>, from: Seq<char>, to: Seq<char>, i: int)
    requires
        from.len() > 0,
        next_match(s, from) == Some(i),
        0 <= i,
        i + from.len() <= s.len(),
    ensures
        replaced(s, from, to) == s.take(i) + to + replaced(s.skip(i + from.len()), from, to),
{
    reveal(replaced);
}

/// Nothing to replace.
pub proof fn lemma_replaced_none(s: Seq<char>, from: Seq<char>, to: Seq<char>)
    requires
        next_match(s, from) is None,
    ensures
        replaced(s, from, to) == s,
{
    reveal(replaced);
}

/// Appends `more` to `out`.
pub fn extend_chars(out: &mut Vec<char>, more: &[char])
    ensures
        final(out)@ == old(out)@ + more@,
{
    let ghost start = out@;
    let mut i: usize = 0;
    while i < more.len()
        invariant
            i <= more@.len(),
            out@ == start + more@.take(i as int),
        decreases more.len() - i,
    {
        out.push(more[i]);
        i = i + 1;
        assert(out@ =~= start + more@.take(i as int));
    }
    assert(more@.take(more@.len() as int) =~= more@);
}

/// `str::replace` with a non-empty pattern.
pub fn replace_chars(s: &[char], from: &[char], to: &[char]) -> (out: Vec<char>)
    requires
        from@.len() > 0,
    ensures
        out@ == replaced(s@, from@, to@),
    decreases s@.len(),
{
    match find_match(s, from) {
        None => {
            proof {
                lemma_replaced_none(s@, from@, to@);
            }
            slice_of(s, 0, s.len())
        },
        Some(i) => {
            assert(i + from@.len() <= s@.len());
            proof {
                lemma_replaced_step(s@, from@, to@, i as int);
            }
            let mut out = slice_of(s, 0, i);
            extend_chars(&mut out, to);
            let total = s.len();
            let skip = from.len();
            assert(i + skip <= total);
            let next = slice_of(s, i + skip, total);
            let rest = replace_chars(&next, from, to);
            extend_chars(&mut out, &rest);
            assert(next@ =~= s@.skip(i + from@.len()));
            out
        },
    }
}

/// `str::contains` with a string pattern.
pub fn contains_chars(s: &[char], t: &[char]) -> (b: bool)
    ensures
        b == contains_seq(s@, t@),
{
    find_seq(s, t).is_some()
}

/// The first position at or after `from` holding `c`.
pub open spec fn index_from(s: Seq<char>, c: char, from: int) -> Option<int> {
    if exists|i: int| from <= i < s.len() && s[i] == c {
        Some(choose|i: int| from <= i < s.len() && s[i] == c && forall|j: int| from <= j < i ==> s[j] != c)
    } else {
        None
    }
}

/// The first position at or after `from` holding `c`.
pub fn find_char_from(s: &[char], c: char, from: usize) -> (r: Option<usize>)
    requires
        from <= s@.len(),
    ensures
        r matches Some(i) ==> index_from(s@, c, from as int) == Some(i as int),
        r is None ==> index_from(s@, c, from as int) is None,
        r matches Some(i) ==> from <= i < s@.len() && s@[i as int] == c,
{
    let mut i = from;
    while i < s.len()
        invariant
            from <= i <= s@.len(),
            forall|j: int| from <= j < i ==> s@[j] != c,
        decreases s.len() - i,
    {
        if s[i] == c {
            proof {
                let w = choose|k: int|
                    from <= k < s@.len() && s@[k] == c && forall|j: int| from <= j < k ==> s@[j] != c;
                assert(from <= i < s@.len() && s@[i as int] == c);
                if w < i {
                } else if w > i {
                    assert(s@[i as int] != c);
                }
            }
            return Some(i);
        }
        i = i + 1;
    }
    None
}


/// The number of non-white-space characters at the end of `s`.
pub open spec fn word_tail(s: Seq<char>) -> nat
    decreases s.len(),
{
    if s.len() > 0 && !is_ws(s.last()) {
        1 + word_tail(s.drop_last())
    } else {
        0
    }
}

/// `str::split_whitespace`: the maximal runs of non-white-space characters.
pub open spec fn words(s: Seq<char>) -> Seq<Seq<char>>
    decreases s.len(),
{
    if s.len() == 0 {
        seq![]
    } else if is_ws(s.last()) {
        words(s.drop_last())
    } else {
        let k = word_tail(s);
        if 0 < k <= s.len() {
            words(s.subrange(0, s.len() - k)).push(s.subrange(s.len() - k, s.len() as int))
        } else {
            seq![]
        }
    }
}

/// The words joined with single spaces, as `join(" ")` does.
pub open spec fn join_space(ws: Seq<Seq<char>>) -> Seq<char>
    decreases ws.len(),
{
    if ws.len() == 0 {
        seq![]
    } else if ws.len() == 1 {
        ws[0]
    } else {
        join_space(ws.drop_last()) + seq![' '] + ws.last()
    }
}

/// Runs of white space collapsed to one space, and none at either end.
pub open spec fn normalize_ws(s: Seq<char>) -> Seq<char> {
    join_space(words(s))
}

pub proof fn lemma_word_tail(s: Seq<char>)
    ensures
        word_tail(s) <= s.len(),
        s.len() > 0 && !is_ws(s.last()) ==> word_tail(s) >= 1,
        forall|i: int| s.len() - word_tail(s) <= i < s.len() ==> !is_ws(#[trigger] s[i]),
        word_tail(s) < s.len() ==> is_ws(s[s.len() - word_tail(s) - 1]),
    decreases s.len(),
{
    if s.len() > 0 && !is_ws(s.last()) {
        lemma_word_tail(s.drop_last());
        assert forall|i: int| s.len() - word_tail(s) <= i < s.len() implies !is_ws(#[trigger] s[i]) by {
            if i < s.len() - 1 {
                assert(s[i] == s.drop_last()[i]);
            }
        }
        if word_tail(s) < s.len() {
            assert(s[s.len() - word_tail(s) - 1] == s.drop_last()[s.drop_last().len() - word_tail(s.drop_last()) - 1]);
        }
    }
}

pub proof fn lemma_words_nonempty(s: Seq<char>)
    ensures
        forall|i: int| 0 <= i < words(s).len() ==> #[trigger] words(s)[i].len() > 0,
    decreases s.len(),
{
    if s.len() == 0 {
    } else if is_ws(s.last()) {
        lemma_words_nonempty(s.drop_last());
        assert(words(s) == words(s.drop_last()));
    } else {
        lemma_word_tail(s);
        let k = word_tail(s);
        let pre = s.subrange(0, s.len() - k);
        lemma_words_nonempty(pre);
        let tail = s.subrange(s.len() - k, s.len() as int);
        assert(words(s) == words(pre).push(tail));
        assert forall|i: int| 0 <= i < words(s).len() implies #[trigger] words(s)[i].len() > 0 by {
            if i < words(pre).len() {
                assert(words(s)[i] == words(pre)[i]);
            } else {
                assert(words(s)[i] == tail);
            }
        }
    }
}

pub proof fn lemma_join_nonempty(ws: Seq<Seq<char>>)
    requires
        ws.len() > 0,
        forall|i: int| 0 <= i < ws.len() ==> #[trigger] ws[i].len() > 0,
    ensures
        join_space(ws).len() > 0,
{
    if ws.len() > 1 {
        assert(ws.last().len() > 0);
    } else {
        assert(ws[0].len() > 0);
    }
}

/// How the words of a text change when one character is appended.
pub proof fn lemma_words_push(s: Seq<char>, c: char)
    ensures
        is_ws(c) ==> words(s.push(c)) == words(s),
        !is_ws(c) && (s.len() == 0 || is_ws(s.last())) ==> words(s.push(c)) == words(s).push(seq![c]),
        !is_ws(c) && s.len() > 0 && !is_ws(s.last()) ==> words(s).len() > 0 && words(s.push(c))
            == words(s).drop_last().push(words(s).last().push(c)),
{
    let t = s.push(c);
    assert(t.drop_last() =~= s);
    if !is_ws(c) {
        lemma_word_tail(t);
        lemma_word_tail(s);
        let k = word_tail(t);
        if s.len() == 0 || is_ws(s.last()) {
            assert(word_tail(s) == 0);
            assert(k == 1);
            assert(t.subrange(0, t.len() - 1) =~= s);
            assert(t.subrange(t.len() - 1, t.len() as int) =~= seq![c]);
        } else {
            let j = word_tail(s);
            assert(k == j + 1);
            assert(t.subrange(0, t.len() - k) =~= s.subrange(0, s.len() - j));
            assert(t.subrange(t.len() - k, t.len() as int) =~= s.subrange(s.len() - j, s.len() as int).push(c));
        }
    }
}

/// `split_whitespace().collect::<Vec<_>>().join(" ")`.
pub fn normalize_chars(s: &[char]) -> (out: Vec<char>)
    ensures
        out@ == normalize_ws(s@),
{
    let mut out: Vec<char> = Vec::new();
    let mut i: usize = 0;
    while i < s.len()
        invariant
            i <= s@.len(),
            out@ == join_space(words(s@.take(i as int))),
        decreases s.len() - i,
    {
        let c = s[i];
        let ghost p = s@.take(i as int);
        proof {
            assert(s@.take(i + 1) =~= p.push(c));
            lemma_words_push(p, c);
            lemma_words_nonempty(p);
            if words(p).len() > 0 {
                lemma_join_nonempty(words(p));
            }
        }
        if !is_whitespace(c) {
            if i > 0 && is_whitespace(s[i - 1]) && out.len() > 0 {
                out.push(' ');
            }
            out.push(c);
            proof {
                let ws = words(p);
                if i == 0 || is_ws(p.last()) {
                    if ws.len() == 0 {
                        assert(out@ =~= join_space(ws.push(seq![c])));
                    } else {
                        assert(ws.push(seq![c]).drop_last() =~= ws);
                        assert(out@ =~= join_space(ws.push(seq![c])));
                    }
                } else {
                    let w2 = ws.drop_last().push(ws.last().push(c));
                    assert(w2.drop_last() =~= ws.drop_last());
                    if ws.len() == 1 {
                        assert(out@ =~= join_space(w2));
                    } else {
                        assert(out@ =~= join_space(w2));
                    }
                }
            }
        }
        i = i + 1;
    }
    assert(s@.take(s@.len() as int) =~= s@);
    out
}


/// A line without the carriage return of a `\r\n` ending.
pub open spec fn strip_cr(s: Seq<char>) -> Seq<char> {
    if s.len() > 0 && s.last() == '\r' {
        s.drop_last()
    } else {
        s
    }
}

/// `str::lines` of `s[pos..]`: split at each `\n`, a `\r` before it dropped,
/// and no empty line after a final `\n`.
#[verifier::opaque]
pub open spec fn lines_from(s: Seq<char>, pos: int) -> Seq<Seq<char>>
    decreases s.len() - pos,
{
    if pos < 0 || pos >= s.len() {
        seq![]
    } else {
        match index_from(s, '\n', pos) {
            Some(k) => if pos <= k < s.len() {
                seq![strip_cr(s.subrange(pos, k))] + lines_from(s, k + 1)
            } else {
                seq![]
            },
            None => seq![s.subrange(pos, s.len() as int)],
        }
    }
}

/// `str::lines`.
pub open spec fn lines(s: Seq<char>) -> Seq<Seq<char>> {
    lines_from(s, 0)
}

/// Past the end there are no more lines.
pub proof fn lemma_lines_end(s: Seq<char>, pos: int)
    requires
        pos >= s.len(),
    ensures
        lines_from(s, pos) == Seq::<Seq<char>>::empty(),
{
    reveal(lines_from);
}

/// The first line of `s[pos..]` and the rest.
pub proof fn lemma_lines_step(s: Seq<char>, pos: int)
    requires
        0 <= pos < s.len(),
    ensures
        index_from(s, '\n', pos) matches Some(k) ==> (pos <= k < s.len() ==> lines_from(s, pos)
            == seq![strip_cr(s.subrange(pos, k))] + lines_from(s, k + 1)),
        index_from(s, '\n', pos) is None ==> lines_from(s, pos) == seq![s.subrange(pos, s.len() as int)],
{
    reveal(lines_from);
}

/// The line that starts at `pos`, and where the next one starts.
#[verifier::spinoff_prover]
#[verifier::rlimit(40)]
pub fn next_line(s: &[char], pos: usize) -> (r: (Vec<char>, usize))
    requires
        pos < s@.len(),
    ensures
        pos < r.1 <= s@.len(),
        lines_from(s@, pos as int) == seq![r.0@] + lines_from(s@, r.1 as int),
{
    proof {
        lemma_lines_step(s@, pos as int);
        lemma_lines_end(s@, s@.len() as int);
    }
    match find_char_from(s, '\n', pos) {
        Some(k) => {
            let mut end = k;
            if end > pos && s[end - 1] == '\r' {
                end = end - 1;
            }
            let line = slice_of(s, pos, end);
            assert(line@ =~= strip_cr(s@.subrange(pos as int, k as int)));
            assert(k < s.len());
            let next: usize = k + 1;
            (line, next)
        },
        None => {
            let line = slice_of(s, pos, s.len());
            assert(lines_from(s@, s@.len() as int) =~= seq![]);
            assert(seq![line@] + lines_from(s@, s@.len() as int) =~= seq![line@]);
            (line, s.len())
        },
    }
}

/// `index_from` is the first match at or after `from`.
pub proof fn lemma_index_from_is(s: Seq<char>, c: char, from: int, k: int)
    requires
        from <= k < s.len(),
        s[k] == c,
        forall|j: int| from <= j < k ==> s[j] != c,
    ensures
        index_from(s, c, from) == Some(k),
{
    assert(exists|i: int| from <= i < s.len() && s[i] == c);
    let w = choose|i: int| from <= i < s.len() && s[i] == c && forall|j: int| from <= j < i ==> s[j] != c;
    assert(from <= w < s.len() && s[w] == c && forall|j: int| from <= j < w ==> s[j] != c);
    if w < k {
        assert(s[w] != c);
    } else if w > k {
        assert(s[k] != c);
    }
}

/// `index_from` finds nothing where nothing matches.
pub proof fn lemma_index_from_none(s: Seq<char>, c: char, from: int)
    requires
        forall|j: int| from <= j < s.len() ==> s[j] != c,
    ensures
        index_from(s, c, from) is None,
{
}

/// What `index_from` finds.
pub proof fn lemma_index_from_ensures(s: Seq<char>, c: char, from: int)
    requires
        0 <= from,
    ensures
        match index_from(s, c, from) {
            Some(k) => from <= k < s.len() && s[k] == c && forall|j: int| from <= j < k ==> s[j] != c,
            None => forall|j: int| from <= j < s.len() ==> s[j] != c,
        },
    decreases s.len() - from,
{
    if from >= s.len() {
    } else if s[from] == c {
        lemma_index_from_is(s, c, from, from);
    } else {
        lemma_index_from_ensures(s, c, from + 1);
        match index_from(s, c, from + 1) {
            Some(k) => {
                assert forall|j: int| from <= j < k implies s[j] != c by {
                    if j > from {
                    }
                }
                lemma_index_from_is(s, c, from, k);
            },
            None => {
                assert forall|j: int| from <= j < s.len() implies s[j] != c by {
                    if j > from {
                    }
                }
                lemma_index_from_none(s, c, from);
            },
        }
    }
}

/// Lines do not depend on what comes before the position they start at.
#[verifier::spinoff_prover]
#[verifier::rlimit(40)]
pub proof fn lemma_lines_shift(p: Seq<char>, y: Seq<char>, q: int)
    requires
        0 <= q,
    ensures
        lines_from(p + y, p.len() + q) == lines_from(y, q),
    decreases y.len() - q,
{
    let s = p + y;
    let pos = p.len() + q;
    if q >= y.len() {
        lemma_lines_end(s, pos);
        lemma_lines_end(y, q);
    } else {
        lemma_lines_step(s, pos);
        lemma_lines_step(y, q);
        lemma_index_from_ensures(y, '\n', q);
        if let Some(k) = index_from(y, '\n', q) {
            assert forall|j: int| pos <= j < p.len() + k implies s[j] != '\n' by {
                assert(s[j] == y[j - p.len()]);
            }
            lemma_index_from_is(s, '\n', pos, p.len() + k);
            assert(s.subrange(pos, p.len() + k) =~= y.subrange(q, k));
            lemma_lines_shift(p, y, k + 1);
        } else {
            assert forall|j: int| pos <= j < s.len() implies s[j] != '\n' by {
                assert(s[j] == y[j - p.len()]);
            }
            lemma_index_from_none(s, '\n', pos);
            lemma_index_from_none(y, '\n', q);
            assert(s.subrange(pos, s.len() as int) =~= y.subrange(q, y.len() as int));
        }
    }
}

/// A line ended by `\n` comes first, then the lines of the rest.
pub proof fn lemma_lines_cons(x: Seq<char>, y: Seq<char>)
    requires
        forall|j: int| 0 <= j < x.len() ==> x[j] != '\n',
    ensures
        lines(x + seq!['\n'] + y) == seq![strip_cr(x)] + lines(y),
{
    let s = x + seq!['\n'] + y;
    lemma_lines_step(s, 0);
    assert forall|j: int| 0 <= j < x.len() implies s[j] != '\n' by {
        assert(s[j] == x[j]);
    }
    lemma_index_from_is(s, '\n', 0, x.len() as int);
    assert(s.subrange(0, x.len() as int) =~= x);
    assert(s =~= (x + seq!['\n']) + y);
    lemma_lines_shift(x + seq!['\n'], y, 0);
}

/// Lines of text that ends a line are the lines of its two parts.
pub proof fn lemma_lines_append(a: Seq<char>, b: Seq<char>)
    requires
        a.len() == 0 || a.last() == '\n',
    ensures
        lines(a + b) == lines(a) + lines(b),
    decreases a.len(),
{
    if a.len() == 0 {
        assert(a + b =~= b);
        lemma_lines_end(a, 0);
        assert(lines(a) + lines(b) =~= lines(b));
    } else {
        lemma_index_from_ensures(a, '\n', 0);
        assert(a[a.len() - 1] == '\n');
        let k = index_from(a, '\n', 0)->Some_0;
        let x = a.subrange(0, k);
        let rest = a.subrange(k + 1, a.len() as int);
        assert(a =~= x + seq!['\n'] + rest);
        assert(a + b =~= x + seq!['\n'] + (rest + b));
        lemma_lines_cons(x, rest);
        lemma_lines_cons(x, rest + b);
        if rest.len() > 0 {
            assert(rest.last() == a.last());
        }
        lemma_lines_append(rest, b);
        assert(lines(a) + lines(b) =~= seq![strip_cr(x)] + (lines(rest) + lines(b)));
    }
}

/// `lead_ws` is the length of the white-space run that starts `s`.
pub proof fn lemma_lead_ws_is(s: Seq<char>, k: int)
    requires
        0 <= k <= s.len(),
        forall|i: int| 0 <= i < k ==> #[trigger] is_ws(s[i]),
        k == s.len() || !is_ws(s[k]),
    ensures
        lead_ws(s) == k,
{
    lemma_trim_start(s);
    let l = lead_ws(s) as int;
    if l < k {
        assert(is_ws(s[l]));
    } else if l > k {
        assert(is_ws(s[k]));
    }
}

/// `tail_ws` is the length of the white-space run that ends `s`.
pub proof fn lemma_tail_ws_is(s: Seq<char>, k: int)
    requires
        0 <= k <= s.len(),
        forall|i: int| s.len() - k <= i < s.len() ==> #[trigger] is_ws(s[i]),
        k == s.len() || !is_ws(s[s.len() - k - 1]),
    ensures
        tail_ws(s) == k,
{
    lemma_trim_end(s);
    let l = tail_ws(s) as int;
    if l < k {
        assert(is_ws(s[s.len() - l - 1]));
    } else if l > k {
        assert(is_ws(s[s.len() - k - 1]));
    }
}

/// Trimming what has already lost its trailing white space changes nothing
/// more than trimming the original does.
pub proof fn lemma_trim_after_trim_end(s: Seq<char>)
    ensures
        trim(trim_end(s)) == trim(s),
{
    lemma_trim_end(s);
    lemma_trim_start(s);
    let e = trim_end(s);
    lemma_trim_start(e);
    let a = trim_start(s);
    lemma_trim_end(a);
    let b = trim_start(e);
    lemma_trim_end(b);
    let l = lead_ws(s) as int;
    let t = tail_ws(s) as int;
    if l + t >= s.len() {
        // all white space
        assert forall|i: int| 0 <= i < s.len() implies #[trigger] is_ws(s[i]) by {
            if i >= l {
                assert(i >= s.len() - t);
            }
        }
        assert forall|i: int| 0 <= i < e.len() implies #[trigger] is_ws(e[i]) by {
            assert(e[i] == s[i]);
        }
        lemma_lead_ws_is(e, e.len() as int);
        assert forall|i: int| a.len() - a.len() <= i < a.len() implies #[trigger] is_ws(a[i]) by {
            assert(a[i] == s[i + l]);
        }
        lemma_tail_ws_is(a, a.len() as int);
        assert(trim(s) =~= trim(e));
    } else {
        assert(!is_ws(s[l]));
        assert forall|i: int| 0 <= i < l implies #[trigger] is_ws(e[i]) by {
            assert(e[i] == s[i]);
        }
        assert(e[l] == s[l]);
        lemma_lead_ws_is(e, l);
        assert forall|i: int| a.len() - t <= i < a.len() implies #[trigger] is_ws(a[i]) by {
            assert(a[i] == s[i + l]);
        }
        assert(a[a.len() - t - 1] == s[s.len() - t - 1]);
        lemma_tail_ws_is(a, t);
        lemma_tail_ws_is(b, 0);
        assert(trim(s) =~= trim(e));
    }
}

/// Dropping the carriage return of a line ending does not change its trim.
pub proof fn lemma_trim_strip_cr(s: Seq<char>)
    ensures
        trim_end(strip_cr(s)) == trim_end(s),
{
    if s.len() > 0 && s.last() == '\r' {
        assert(is_ws('\r'));
    }
}

/// A trimmed, non-empty text starts and ends with something other than
/// white space.
pub proof fn lemma_trimmed_ends(w: Seq<char>)
    requires
        trim(w) == w,
        w.len() > 0,
    ensures
        !is_ws(w[0]),
        !is_ws(w.last()),
{
    lemma_trim_start(w);
    let a = trim_start(w);
    lemma_trim_end(a);
    assert(lead_ws(w) == 0);
    assert(a =~= w);
    assert(tail_ws(a) == 0);
}

/// Where text starts with something other than white space, trimming it
/// only trims its end.
pub proof fn lemma_trim_nonws_start(x: Seq<char>)
    requires
        x.len() > 0,
        !is_ws(x[0]),
    ensures
        trim(x) == trim_end(x),
{
    lemma_lead_ws_is(x, 0);
    lemma_trim_start(x);
    assert(trim_start(x) =~= x);
}

/// Trailing white space in `x` is all that trimming the end of `h + x`
/// removes, when `h` ends with something else.
pub proof fn lemma_trim_end_append(h: Seq<char>, x: Seq<char>)
    requires
        h.len() > 0,
        !is_ws(h.last()),
    ensures
        trim_end(h + x) == h + trim_end(x),
    decreases x.len(),
{
    if x.len() == 0 {
        assert(h + x =~= h);
        assert(h + trim_end(x) =~= h);
    } else if is_ws(x.last()) {
        assert((h + x).drop_last() =~= h + x.drop_last());
        lemma_trim_end_append(h, x.drop_last());
    } else {
        assert((h + x).last() == x.last());
    }
}

/// The characters of an optional string.
pub open spec fn opt_chars(o: Option<String>) -> Option<Seq<char>> {
    match o {
        Some(s) => Some(s@),
        None => None,
    }
}

/// The characters of an optional character vector.
pub open spec fn opt_seq(o: Option<Vec<char>>) -> Option<Seq<char>> {
    match o {
        Some(v) => Some(v@),
        None => None,
    }
}

/// The characters of each vector.
pub open spec fn vec_views(v: Seq<Vec<char>>) -> Seq<Seq<char>> {
    Seq::new(v.len(), |i: int| v[i]@)
}

/// The characters of each string.
pub open spec fn string_views(v: Seq<String>) -> Seq<Seq<char>> {
    Seq::new(v.len(), |i: int| v[i]@)
}

/// `str::split_whitespace`, collected.
pub fn words_of(s: &[char]) -> (ws: Vec<Vec<char>>)
    ensures
        vec_views(ws@) == words(s@),
{
    let mut ws: Vec<Vec<char>> = Vec::new();
    let mut i: usize = 0;
    assert(vec_views(ws@) =~= words(s@.take(0)));
    while i < s.len()
        invariant
            i <= s@.len(),
            vec_views(ws@) == words(s@.take(i as int)),
        decreases s.len() - i,
    {
        let c = s[i];
        let ghost p = s@.take(i as int);
        proof {
            assert(s@.take(i + 1) =~= p.push(c));
            lemma_words_push(p, c);
        }
        if !is_whitespace(c) {
            if i == 0 || is_whitespace(s[i - 1]) {
                let mut w: Vec<char> = Vec::new();
                w.push(c);
                let ghost before = ws@;
                ws.push(w);
                assert(vec_views(ws@) =~= vec_views(before).push(seq![c]));
            } else {
                let ghost before = ws@;
                assert(vec_views(before).len() > 0);
                let mut w = ws.pop().unwrap();
                let ghost last = w@;
                assert(last == vec_views(before).last());
                w.push(c);
                ws.push(w);
                assert(vec_views(ws@) =~= vec_views(before).drop_last().push(last.push(c)));
            }
        }
        i = i + 1;
    }
    assert(s@.take(s@.len() as int) =~= s@);
    ws
}

/// The number of bytes a character takes in UTF-8.
pub open spec fn utf8_width(c: char) -> nat {
    let u = c as u32;
    if u < 0x80 {
        1
    } else if u < 0x800 {
        2
    } else if u < 0x10000 {
        3
    } else {
        4
    }
}

/// The length in bytes of the UTF-8 encoding of a text, which is what
/// `str::len` reports.
pub open spec fn utf8_len(s: Seq<char>) -> nat
    decreases s.len(),
{
    if s.len() == 0 {
        0
    } else {
        utf8_len(s.drop_last()) + utf8_width(s.last())
    }
}

/// `str::len` of the text `s[..n]`.
pub fn utf8_len_of(s: &[char], n: usize) -> (len: u128)
    requires
        n <= s@.len(),
    ensures
        len == utf8_len(s@.take(n as int)),
{
    let mut total: u128 = 0;
    let mut i: usize = 0;
    while i < n
        invariant
            i <= n <= s@.len(),
            total == utf8_len(s@.take(i as int)),
            total <= 4 * i,
        decreases n - i,
    {
        let ghost t = s@.take(i + 1);
        assert(t.drop_last() =~= s@.take(i as int));
        let u = s[i] as u32;
        let w: u128 = if u < 0x80 {
            1
        } else if u < 0x800 {
            2
        } else if u < 0x10000 {
            3
        } else {
            4
        };
        total = total + w;
        i = i + 1;
    }
    total
}

} // verus!
