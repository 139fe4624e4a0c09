//! Timing spans written to a profile log when profiling is switched on.
//!
//! The program reads the switch from the environment, keeps the clock and
//! appends the lines; where the log goes and what a line says is decided
//! here.

use vstd::prelude::*;

use crate::numbers::{decimal, decimal_chars};
use crate::pathname::{join_path, path_join};
use crate::text::{chars_of, extend_chars, string_of};

verus! {

#[verifier::external_type_specification]
#[verifier::external_body]
pub struct ExInstant(std::time::Instant);

/// `Instant::now`. Nothing is claimed of the reading.
#[verifier::external_body]
fn now() -> std::time::Instant {
    std::time::Instant::now()
}

/// A piece of work being timed.
pub struct ProfileSpan {
    pub name: &'static str,
    pub started: std::time::Instant,
    /// Where its line goes, when profiling is on.
    pub path: Option<String>,
}

/// Start timing `name`; its line goes to `path`, if profiling is on.
pub fn span(name: &'static str, path: Option<String>) -> (s: ProfileSpan)
    ensures
        s.name == name,
        s.path == path,
{
    ProfileSpan { name, started: now(), path }
}

/// Where the profile log goes, from the `MUSCLI_PROFILE` setting: nowhere
/// when it is unset, empty or `0`; `muscli-profile.log` in the temporary
/// directory when it is `1`; else the path it names.
pub open spec fn profile_destination_spec(value: Option<Seq<char>>, temp_dir: Seq<char>) -> Option<Seq<char>> {
    match value {
        None => None,
        Some(v) => if v.len() == 0 || v == seq!['0'] {
            None
        } else if v == seq!['1'] {
            Some(path_join(temp_dir, "muscli-profile.log"@))
        } else {
            Some(v)
        },
    }
}

/// Where the profile log goes.
pub fn profile_destination(value: Option<&str>, temp_dir: &str) -> (p: Option<String>)
    ensures
        crate::text::opt_chars(p) == profile_destination_spec(
            match value {
                Some(v) => Some(v@),
                None => None,
            },
            temp_dir@,
        ),
{
    match value {
        None => None,
        Some(v) => {
            let c = chars_of(v);
            if c.len() == 0 || (c.len() == 1 && c[0] == '0') {
                proof {
                    if c@.len() == 1 {
                        assert(c@ =~= seq!['0']);
                    }
                }
                None
            } else if c.len() == 1 && c[0] == '1' {
                assert(c@ =~= seq!['1']);
                Some(join_path(temp_dir, "muscli-profile.log"))
            } else {
                assert(c@ != seq!['0']) by {
                    if c@ == seq!['0'] {
                        assert(c@.len() == 1);
                    }
                }
                assert(c@ != seq!['1']) by {
                    if c@ == seq!['1'] {
                        assert(c@.len() == 1);
                    }
                }
                Some(v.to_owned())
            }
        },
    }
}

/// `n` with at least three digits, as `{:03}` writes it.
pub open spec fn decimal3(n: nat) -> Seq<char> {
    if n < 10 {
        seq!['0', '0'] + decimal(n)
    } else if n < 100 {
        seq!['0'] + decimal(n)
    } else {
        decimal(n)
    }
}

/// One line of the profile log: the process, the span's name and how long
/// it took, in milliseconds to the microsecond.
pub open spec fn profile_line_spec(process: u32, name: Seq<char>, millis: u64, micros: u32) -> Seq<char> {
    decimal(process as nat) + seq!['\t'] + name + seq!['\t'] + decimal(millis as nat) + seq!['.'] + decimal3(
        (micros % 1000) as nat,
    ) + seq!['m', 's']
}

/// One line of the profile log, for a span that took `millis` whole
/// milliseconds and `micros` microseconds past the last whole millisecond's
/// second.
pub fn profile_line(process: u32, name: &str, millis: u64, micros: u32) -> (line: String)
    ensures
        line@ == profile_line_spec(process, name@, millis, micros),
{
    let mut out = decimal_chars(process as u64);
    out.push('\t');
    extend_chars(&mut out, &chars_of(name));
    out.push('\t');
    extend_chars(&mut out, &decimal_chars(millis));
    out.push('.');
    let fraction = (micros % 1000) as u64;
    if fraction < 10 {
        out.push('0');
        out.push('0');
    } else if fraction < 100 {
        out.push('0');
    }
    extend_chars(&mut out, &decimal_chars(fraction));
    out.push('m');
    out.push('s');
    assert(out@ =~= profile_line_spec(process, name@, millis, micros));
    string_of(&out)
}

} // verus!
