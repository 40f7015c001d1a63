//! Log verbosity: the level names the settings accept.

use vstd::prelude::*;
use crate::text::{chars_of, push_char, text_eq};

verus! {

/// How much the dashboard writes to its log.
#[derive(Clone, Copy, Debug, PartialEq, Eq, Structural)]
pub enum LogLevel {
    Trace,
    Debug,
    Info,
    Warn,
    Error,
}

/// An ASCII capital letter as its small letter; any other character as it is.
pub open spec fn ascii_lower(c: char) -> char {
    if 'A' <= c && c <= 'Z' {
        ((c as u32) + 32) as char
    } else {
        c
    }
}

/// A text with its ASCII capitals made small.
pub open spec fn ascii_lowercase(s: Seq<char>) -> Seq<char> {
    s.map_values(|c: char| ascii_lower(c))
}

/// The level a small-letter name stands for.
pub open spec fn level_named(s: Seq<char>) -> Option<LogLevel> {
    if s == "trace"@ {
        Some(LogLevel::Trace)
    } else if s == "debug"@ {
        Some(LogLevel::Debug)
    } else if s == "info"@ {
        Some(LogLevel::Info)
    } else if s == "warn"@ {
        Some(LogLevel::Warn)
    } else if s == "error"@ {
        Some(LogLevel::Error)
    } else {
        None
    }
}

/// `s` with its ASCII capitals made small.
pub fn to_ascii_lowercase(s: &str) -> (r: String)
    ensures
        r@ == ascii_lowercase(s@),
{
    let v = chars_of(s);
    let mut r = String::new();
    let mut i: usize = 0;
    while i < v.len()
        invariant
            0 <= i <= v.len(),
            v@ == s@,
            r@ == ascii_lowercase(s@.take(i as int)),
        decreases v.len() - i,
    {
        let c = v[i];
        let d = if 'A' <= c && c <= 'Z' {
            (((c as u32) as u8) + 32) as char
        } else {
            c
        };
        assert(d == ascii_lower(c));
        push_char(&mut r, d);
        assert(ascii_lowercase(s@.take(i + 1)) =~= ascii_lowercase(s@.take(i as int)).push(ascii_lower(c)));
        i += 1;
    }
    assert(s@.take(v.len() as int) =~= s@);
    r
}

/// The level a name stands for, in any mix of capital and small letters.
pub fn parse_level(level: &str) -> (r: Result<LogLevel, String>)
    ensures
        match level_named(ascii_lowercase(level@)) {
            Some(l) => r == Ok::<LogLevel, String>(l),
            None => r matches Err(e) && e@ == "unsupported log level: "@ + level@,
        },
{
    let low = to_ascii_lowercase(level);
    let name = low.as_str();
    if text_eq(name, "trace") {
        Ok(LogLevel::Trace)
    } else if text_eq(name, "debug") {
        Ok(LogLevel::Debug)
    } else if text_eq(name, "info") {
        Ok(LogLevel::Info)
    } else if text_eq(name, "warn") {
        Ok(LogLevel::Warn)
    } else if text_eq(name, "error") {
        Ok(LogLevel::Error)
    } else {
        let mut e = String::from_str("unsupported log level: ");
        e.append(level);
        Err(e)
    }
}

} // verus!
