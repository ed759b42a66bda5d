use vstd::prelude::*;

use crate::text::{parse_u32, parse_u32_spec};

verus! {

/// What `regex` finds of the groups named `g1`, `g2` and `g3` in the first
/// match of `pattern` in `text`: `None` when the pattern does not compile
/// or does not match, else the text each group took part in, if any.
pub uninterp spec fn regex_groups(
    pattern: Seq<char>,
    text: Seq<char>,
    g1: Seq<char>,
    g2: Seq<char>,
    g3: Seq<char>,
) -> Option<(Option<Seq<char>>, Option<Seq<char>>, Option<Seq<char>>)>;

/// The groups found, as the contracts see them.
pub open spec fn groups_view(r: Option<(Option<String>, Option<String>, Option<String>)>) -> Option<
    (Option<Seq<char>>, Option<Seq<char>>, Option<Seq<char>>),
> {
    match r {
        Some((a, b, c)) => Some(
            (
                match a {
                    Some(x) => Some(x@),
                    None => None,
                },
                match b {
                    Some(x) => Some(x@),
                    None => None,
                },
                match c {
                    Some(x) => Some(x@),
                    None => None,
                },
            ),
        ),
        None => None,
    }
}

/// The first match of `pattern` in `text`, as the texts of the groups
/// named `g1`, `g2` and `g3`.
///
/// Wraps `regex::Regex::new`, `Regex::captures` and `Captures::name`. The
/// contract names the result after the pattern, the text and the group
/// names, and says nothing more of it.
#[verifier::external_body]
fn find_groups(pattern: &str, text: &str, g1: &str, g2: &str, g3: &str) -> (r: Option<
    (Option<String>, Option<String>, Option<String>),
>)
    ensures
        groups_view(r) == regex_groups(pattern@, text@, g1@, g2@, g3@),
{
    let re = match regex::Regex::new(pattern) {
        Ok(re) => re,
        Err(_) => return None,
    };
    let c = re.captures(text)?;
    Some((
        c.name(g1).map(|m| m.as_str().to_string()),
        c.name(g2).map(|m| m.as_str().to_string()),
        c.name(g3).map(|m| m.as_str().to_string()),
    ))
}

/// How a typed timecode is read: optional minutes and a colon, seconds,
/// and an optional fraction after a dot, taken as milliseconds.
pub open spec fn timecode_pattern() -> Seq<char> {
    "((?<minutes>\\d+)\\:)?(?<seconds>\\d+)(\\.(?<frac>\\d+))?"@
}

/// The value of a part that was typed: its number, or 0 when it is missing
/// or is not one.
pub open spec fn part_value(g: Option<Seq<char>>) -> nat {
    match g {
        Some(t) => match parse_u32_spec(t) {
            Some(v) => v as nat,
            None => 0,
        },
        None => 0,
    }
}

/// The milliseconds that the parts of a typed timecode stand for.
pub open spec fn timecode_ms(minutes: Option<Seq<char>>, seconds: Option<Seq<char>>, frac: Option<Seq<char>>) -> nat {
    part_value(frac) + part_value(seconds) * 1000 + part_value(minutes) * 60 * 1000
}

fn part(g: &Option<String>) -> (v: u32)
    ensures
        v == part_value(match g {
            Some(x) => Some(x@),
            None => None,
        }),
{
    match g {
        Some(t) => match parse_u32(t.as_str()) {
            Some(v) => v,
            None => 0,
        },
        None => 0,
    }
}

/// The milliseconds of a typed timecode's parts, when they fit.
pub fn timecode_from_parts(minutes: &Option<String>, seconds: &Option<String>, frac: &Option<String>) -> (ms: u32)
    requires
        timecode_ms(
            match minutes {
                Some(x) => Some(x@),
                None => None,
            },
            match seconds {
                Some(x) => Some(x@),
                None => None,
            },
            match frac {
                Some(x) => Some(x@),
                None => None,
            },
        ) <= u32::MAX,
    ensures
        ms == timecode_ms(
            match minutes {
                Some(x) => Some(x@),
                None => None,
            },
            match seconds {
                Some(x) => Some(x@),
                None => None,
            },
            match frac {
                Some(x) => Some(x@),
                None => None,
            },
        ),
{
    let m = part(minutes);
    let s = part(seconds);
    let f = part(frac);
    assert(s as nat * 1000 <= u32::MAX);
    assert(m as nat * 60 * 1000 <= u32::MAX);
    f + s * 1000 + m * 60 * 1000
}

/// Reads a typed timecode into milliseconds: `None` when it does not match,
/// or when its value does not fit.
pub fn parse_timecode(text: &str) -> (r: Option<u32>)
    ensures
        match regex_groups(timecode_pattern(), text@, "minutes"@, "seconds"@, "frac"@) {
            None => r is None,
            Some((m, s, f)) => if timecode_ms(m, s, f) <= u32::MAX {
                r == Some(timecode_ms(m, s, f) as u32)
            } else {
                r is None
            },
        },
{
    let groups = find_groups(
        "((?<minutes>\\d+)\\:)?(?<seconds>\\d+)(\\.(?<frac>\\d+))?",
        text,
        "minutes",
        "seconds",
        "frac",
    );
    match groups {
        None => None,
        Some((m, s, f)) => {
            let mv = part(&m) as u64;
            let sv = part(&s) as u64;
            let fv = part(&f) as u64;
            let total: u64 = fv + sv * 1000 + mv * 60 * 1000;
            if total > u32::MAX as u64 {
                None
            } else {
                Some(timecode_from_parts(&m, &s, &f))
            }
        },
    }
}

} // verus!
