//! File-system paths held as text.
//!
//! The library keeps paths as strings so that its contracts can speak of the
//! characters in them. Joining, absoluteness, file names and stems follow
//! `std::path` on Unix, stated character by character; taking a prefix off
//! and the parent are component-wise in `std::path` and are left to it.

use vstd::prelude::*;

use crate::text::{chars_of, string_of};

verus! {

/// `Path::is_absolute` on Unix: the path starts at the root.
pub open spec fn is_absolute_path(p: Seq<char>) -> bool {
    p.len() > 0 && p[0] == '/'
}

/// `Path::join` on Unix: an absolute `rel` replaces `base`; otherwise `rel` is
/// appended after a separator, unless `base` is empty or already ends in one.
pub open spec fn path_join(base: Seq<char>, rel: Seq<char>) -> Seq<char> {
    if is_absolute_path(rel) {
        rel
    } else if base.len() == 0 || base.last() == '/' {
        base + rel
    } else {
        base + seq!['/'] + rel
    }
}

/// What `Path::strip_prefix` leaves of `path` once `base` is taken off, as
/// text, or `None` where `base` is not a prefix of `path`.
pub uninterp spec fn stripped_path(path: Seq<char>, base: Seq<char>) -> Option<Seq<char>>;

/// `Path::join` over characters.
pub fn join_chars(base: &[char], rel: &[char]) -> (out: Vec<char>)
    ensures
        out@ == path_join(base@, rel@),
{
    let mut out: Vec<char> = Vec::new();
    if rel.len() > 0 && rel[0] == '/' {
        let mut i: usize = 0;
        while i < rel.len()
            invariant
                i <= rel@.len(),
                out@ == rel@.take(i as int),
            decreases rel.len() - i,
        {
            out.push(rel[i]);
            i = i + 1;
            assert(out@ =~= rel@.take(i as int));
        }
        assert(rel@.take(rel@.len() as int) =~= rel@);
        return out;
    }
    let mut i: usize = 0;
    while i < base.len()
        invariant
            i <= base@.len(),
            out@ == base@.take(i as int),
        decreases base.len() - i,
    {
        out.push(base[i]);
        i = i + 1;
        assert(out@ =~= base@.take(i as int));
    }
    assert(base@.take(base@.len() as int) =~= base@);
    if base.len() > 0 && base[base.len() - 1] != '/' {
        out.push('/');
    }
    let ghost head = out@;
    let mut j: usize = 0;
    while j < rel.len()
        invariant
            j <= rel@.len(),
            out@ == head + rel@.take(j as int),
        decreases rel.len() - j,
    {
        out.push(rel[j]);
        j = j + 1;
        assert(out@ =~= head + rel@.take(j as int));
    }
    assert(rel@.take(rel@.len() as int) =~= rel@);
    assert(out@ =~= path_join(base@, rel@));
    out
}

/// `Path::join` for paths held as strings.
pub fn join_path(base: &str, rel: &str) -> (out: String)
    ensures
        out@ == path_join(base@, rel@),
{
    let b = chars_of(base);
    let r = chars_of(rel);
    let joined = join_chars(&b, &r);
    string_of(&joined)
}

/// Whether `Path::new(a) == Path::new(b)`: the two texts name the same
/// path, component by component.
pub uninterp spec fn same_path(a: Seq<char>, b: Seq<char>) -> bool;

/// `Path::strip_prefix`: `path` relative to `base`, when `base` is a prefix
/// of it in the component-wise sense of `std::path`. The contract names the
/// result, and states what the function's documentation promises of it:
/// joined onto `base`, it gives `path` back, as a path.
#[verifier::external_body]
pub(crate) fn strip_path_prefix(path: &str, base: &str) -> (r: Option<String>)
    ensures
        match r {
            Some(rest) => stripped_path(path@, base@) == Some(rest@) && same_path(path_join(base@, rest@), path@),
            None => stripped_path(path@, base@) is None,
        },
{
    std::path::Path::new(path).strip_prefix(base).ok().map(|rest| rest.to_string_lossy().into_owned())
}

/// `Path::extension` of a file name: what follows its last dot, where the
/// dot is not the first character.
pub open spec fn extension_of(name: Seq<char>) -> Option<Seq<char>> {
    if name == seq!['.', '.'] {
        None
    } else if exists|i: int| 0 < i < name.len() && name[i] == '.' {
        let i = choose|i: int|
            0 < i < name.len() && name[i] == '.' && forall|j: int| i < j < name.len() ==> name[j] != '.';
        Some(name.skip(i + 1))
    } else {
        None
    }
}

/// Where the last segment of a path starts: just after its last separator,
/// or at the start where it has none.
pub open spec fn segment_start(p: Seq<char>) -> nat
    decreases p.len(),
{
    if p.len() == 0 || p.last() == '/' {
        p.len()
    } else {
        segment_start(p.drop_last())
    }
}

pub proof fn lemma_segment_start(p: Seq<char>)
    ensures
        segment_start(p) <= p.len(),
        p.len() > 0 && p.last() != '/' ==> segment_start(p) < p.len(),
        forall|i: int| segment_start(p) <= i < p.len() ==> p[i] != '/',
        segment_start(p) > 0 ==> p[segment_start(p) - 1] == '/',
    decreases p.len(),
{
    if p.len() > 0 && p.last() != '/' {
        let q = p.drop_last();
        lemma_segment_start(q);
        assert forall|i: int| segment_start(p) <= i < p.len() implies p[i] != '/' by {
            if i < q.len() {
                assert(q[i] == p[i]);
            }
        }
        if segment_start(p) > 0 {
            assert(q[segment_start(p) - 1] == p[segment_start(p) - 1]);
        }
    }
}

/// `Path::file_name` on Unix: the last component of the path, where that is
/// a name. Separators at the end and `.` components are passed over; a path
/// that ends in `..`, is only a root, or is empty has none.
pub open spec fn path_file_name(p: Seq<char>) -> Option<Seq<char>>
    decreases p.len(),
{
    if p.len() == 0 {
        None
    } else if p.last() == '/' {
        path_file_name(p.drop_last())
    } else {
        let k = segment_start(p);
        proof {
            lemma_segment_start(p);
        }
        let seg = p.subrange(k as int, p.len() as int);
        if seg == seq!['.'] {
            if k == 0 {
                None
            } else {
                path_file_name(p.take(k as int))
            }
        } else if seg == seq!['.', '.'] {
            None
        } else {
            Some(seg)
        }
    }
}

/// `Path::file_stem` of a file name: the name up to its extension's dot.
pub open spec fn stem_of(name: Seq<char>) -> Seq<char> {
    match extension_of(name) {
        Some(e) => name.take(name.len() - e.len() - 1),
        None => name,
    }
}

/// `Path::file_stem` on Unix: the file name without its extension.
pub open spec fn path_file_stem(p: Seq<char>) -> Option<Seq<char>> {
    match path_file_name(p) {
        Some(name) => Some(stem_of(name)),
        None => None,
    }
}

/// `Components::as_path` from the back on Unix: separators and `.`
/// components at the end are passed over, but not a root or a leading `.`.
pub open spec fn trim_back(q: Seq<char>) -> Seq<char>
    decreases q.len(),
{
    if q.len() == 0 {
        q
    } else if q.last() == '/' {
        if q.len() == 1 {
            q
        } else {
            trim_back(q.drop_last())
        }
    } else {
        let k = segment_start(q);
        proof {
            lemma_segment_start(q);
        }
        if q.subrange(k as int, q.len() as int) == seq!['.'] && k > 0 {
            trim_back(q.take(k as int))
        } else {
            q
        }
    }
}

/// `Path::parent` on Unix: the path without its last component, where it
/// has one that is not a root; separators and `.` components at the end
/// are passed over first, and the rest loses those it ends in.
pub open spec fn path_parent(p: Seq<char>) -> Option<Seq<char>>
    decreases p.len(),
{
    if p.len() == 0 {
        None
    } else if p.last() == '/' {
        path_parent(p.drop_last())
    } else {
        let k = segment_start(p);
        proof {
            lemma_segment_start(p);
        }
        if p.subrange(k as int, p.len() as int) == seq!['.'] && k > 0 {
            path_parent(p.take(k as int))
        } else {
            Some(trim_back(p.take(k as int)))
        }
    }
}

/// `Path::file_name` on Unix.
pub fn file_name_of(path: &str) -> (r: Option<String>)
    ensures
        match r {
            Some(name) => path_file_name(path@) == Some(name@),
            None => path_file_name(path@) is None,
        },
{
    let p = chars_of(path);
    let mut n: usize = p.len();
    assert(p@.take(n as int) =~= p@);
    while n > 0
        invariant
            n <= p@.len(),
            p@ == path@,
            path_file_name(path@) == path_file_name(p@.take(n as int)),
        decreases n,
    {
        let ghost q = p@.take(n as int);
        if p[n - 1] == '/' {
            assert(q.drop_last() =~= p@.take(n - 1));
            n = n - 1;
        } else {
            let mut k: usize = n - 1;
            while k > 0 && p[k - 1] != '/'
                invariant
                    k < n,
                    n <= p@.len(),
                    forall|i: int| k <= i < n ==> p@[i] != '/',
                decreases k,
            {
                k = k - 1;
            }
            proof {
                lemma_segment_start(q);
                assert(segment_start(q) == k) by {
                    if segment_start(q) < k {
                        assert(q[k - 1] == '/');
                    } else if segment_start(q) > k {
                        assert(q[segment_start(q) - 1] == '/');
                    }
                }
                assert(q.take(k as int) =~= p@.take(k as int));
            }
            let seg = crate::text::slice_of(&p, k, n);
            assert(seg@ =~= q.subrange(k as int, q.len() as int));
            if seg.len() == 1 && seg[0] == '.' {
                assert(seg@ =~= seq!['.']);
                if k == 0 {
                    return None;
                }
                n = k;
            } else if seg.len() == 2 && seg[0] == '.' && seg[1] == '.' {
                assert(seg@ =~= seq!['.', '.']);
                return None;
            } else {
                assert(seg@ != seq!['.']);
                assert(seg@ != seq!['.', '.']);
                return Some(string_of(&seg));
            }
        }
    }
    assert(p@.take(0) =~= Seq::<char>::empty());
    None
}

/// `Path::file_stem` on Unix.
pub fn file_stem_of(path: &str) -> (r: Option<String>)
    ensures
        match r {
            Some(stem) => path_file_stem(path@) == Some(stem@),
            None => path_file_stem(path@) is None,
        },
{
    match file_name_of(path) {
        Some(name) => {
            let chars = chars_of(name.as_str());
            match extension_chars(&chars) {
                Some(e) => {
                    let stem = crate::text::slice_of(&chars, 0, chars.len() - e.len() - 1);
                    assert(stem@ =~= chars@.take(chars@.len() - e@.len() - 1));
                    Some(string_of(&stem))
                },
                None => Some(name),
            }
        },
        None => None,
    }
}

pub(crate) fn extension_chars(name: &Vec<char>) -> (r: Option<Vec<char>>)
    ensures
        r matches Some(e) ==> extension_of(name@) == Some(e@) && e@.len() + 2 <= name@.len(),
        r is None ==> extension_of(name@) is None,
{
    if name.len() == 2 && name[0] == '.' && name[1] == '.' {
        assert(name@ =~= seq!['.', '.']);
        return None;
    }
    assert(name@ != seq!['.', '.']);
    let mut i: usize = name.len();
    while i > 0 && name[i - 1] != '.'
        invariant
            i <= name@.len(),
            forall|j: int| i <= j < name@.len() ==> name@[j] != '.',
        decreases i,
    {
        i = i - 1;
    }
    if i <= 1 {
        proof {
            if exists|k: int| 0 < k < name@.len() && name@[k] == '.' {
                let k = choose|k: int| 0 < k < name@.len() && name@[k] == '.';
                assert(k >= i);
            }
        }
        return None;
    }
    let dot = i - 1;
    proof {
        let w = choose|k: int|
            0 < k < name@.len() && name@[k] == '.' && forall|j: int| k < j < name@.len() ==> name@[j] != '.';
        assert(0 < dot < name@.len() && name@[dot as int] == '.');
        if w < dot {
            assert(name@[dot as int] != '.');
        } else if w > dot {
            assert(name@[w] != '.');
        }
    }
    Some(crate::text::slice_of(name, i, name.len()))
}

/// Where the last segment of the first `n` characters starts.
fn segment_start_of(p: &Vec<char>, n: usize) -> (k: usize)
    requires
        0 < n <= p@.len(),
        p@[n - 1] != '/',
    ensures
        k == segment_start(p@.take(n as int)),
        k < n,
{
    let ghost q = p@.take(n as int);
    let mut k: usize = n - 1;
    while k > 0 && p[k - 1] != '/'
        invariant
            k < n,
            n <= p@.len(),
            forall|i: int| k <= i < n ==> p@[i] != '/',
        decreases k,
    {
        k = k - 1;
    }
    proof {
        lemma_segment_start(q);
        if segment_start(q) < k {
            assert(q[k - 1] == '/');
        } else if segment_start(q) > k {
            assert(q[segment_start(q) - 1] == '/');
        }
    }
    k
}

/// Whether the characters from `k` to `n` are a lone `.`.
fn is_dot(p: &Vec<char>, k: usize, n: usize) -> (b: bool)
    requires
        k <= n <= p@.len(),
    ensures
        b == (p@.subrange(k as int, n as int) == seq!['.']),
{
    let b = n - k == 1 && p[k] == '.';
    proof {
        let seg = p@.subrange(k as int, n as int);
        if seg == seq!['.'] {
            assert(seg.len() == 1);
            assert(seg[0] == p@[k as int]);
        }
        if b {
            assert(p@.subrange(k as int, n as int) =~= seq!['.']);
        }
    }
    b
}

/// How many of the first `n` characters `trim_back` keeps.
fn trim_back_len(p: &Vec<char>, len: usize) -> (m: usize)
    requires
        len <= p@.len(),
    ensures
        m <= len,
        trim_back(p@.take(len as int)) == p@.take(m as int),
{
    let ghost start = len as int;
    let mut n: usize = len;
    while n > 0
        invariant
            n <= start <= p@.len(),
            start == len,
            trim_back(p@.take(start)) == trim_back(p@.take(n as int)),
        decreases n,
    {
        let ghost q = p@.take(n as int);
        if p[n - 1] == '/' {
            if n == 1 {
                return 1;
            }
            assert(q.drop_last() =~= p@.take(n - 1));
            n = n - 1;
        } else {
            let k = segment_start_of(p, n);
            assert(q.subrange(k as int, q.len() as int) =~= p@.subrange(k as int, n as int));
            if k > 0 && is_dot(p, k, n) {
                assert(q.take(k as int) =~= p@.take(k as int));
                n = k;
            } else {
                return n;
            }
        }
    }
    n
}

/// `Path::parent` on Unix.
pub fn parent_of(path: &str) -> (r: Option<String>)
    ensures
        match r {
            Some(parent) => path_parent(path@) == Some(parent@),
            None => path_parent(path@) is None,
        },
{
    let p = chars_of(path);
    let mut n: usize = p.len();
    assert(p@.take(n as int) =~= p@);
    while n > 0
        invariant
            n <= p@.len(),
            p@ == path@,
            path_parent(path@) == path_parent(p@.take(n as int)),
        decreases n,
    {
        let ghost q = p@.take(n as int);
        if p[n - 1] == '/' {
            assert(q.drop_last() =~= p@.take(n - 1));
            n = n - 1;
        } else {
            let k = segment_start_of(&p, n);
            assert(q.subrange(k as int, q.len() as int) =~= p@.subrange(k as int, n as int));
            assert(q.take(k as int) =~= p@.take(k as int));
            if k > 0 && is_dot(&p, k, n) {
                n = k;
            } else {
                let m = trim_back_len(&p, k);
                let kept = crate::text::slice_of(&p, 0, m);
                assert(kept@ =~= p@.take(m as int));
                return Some(string_of(&kept));
            }
        }
    }
    assert(p@.take(0) =~= Seq::<char>::empty());
    None
}

} // verus!
