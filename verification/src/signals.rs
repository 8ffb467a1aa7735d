//! Reading signal names and numbers as unit files write them (`SIGTERM`, `term`, `15`).
use vstd::prelude::*;
use crate::text::{
    all_digits, chars_of, concat, digits_value, has_prefix, parse_unsigned, starts_with, string_of, trim,
    trim_str,
};

verus! {

/// The number of `SIGHUP`, the signal a reload sends when nothing else is configured.
pub const SIGHUP_NUMBER: i32 = 1;

/// The signal spelled exactly `name` (`"SIGTERM"`) on this platform, as its number.
pub uninterp spec fn signal_named(name: Seq<char>) -> Option<i32>;

/// `n` is the number of a signal of this platform.
pub uninterp spec fn signal_exists(n: i32) -> bool;

/// `nix`'s `Signal::from_str`: the signal whose name is exactly `name`, as its number;
/// `None` for any other text. Which names exist is left to the platform.
#[verifier::external_body]
fn signal_from_name(name: &str) -> (r: Option<i32>)
    ensures
        r == signal_named(name@),
{
    name.parse::<nix::sys::signal::Signal>().ok().map(|s| s as i32)
}

/// `nix`'s `Signal::try_from`: the signal numbered `n`, whose number is `n` itself,
/// when the platform has one.
#[verifier::external_body]
fn signal_from_number(n: i32) -> (r: Option<i32>)
    ensures
        r == (if signal_exists(n) { Some(n) } else { None }),
{
    nix::sys::signal::Signal::try_from(n).ok().map(|s| s as i32)
}

/// ASCII upper-casing of one character.
pub open spec fn upper(c: char) -> char {
    if 'a' <= c && c <= 'z' {
        ((c as u32) - 32) as char
    } else {
        c
    }
}

/// `str::to_ascii_uppercase`.
pub open spec fn upper_seq(s: Seq<char>) -> Seq<char> {
    s.map_values(|c: char| upper(c))
}

/// What `str::parse::<i32>` gives: an optional sign, then decimal digits, in range.
pub open spec fn parse_i32(s: Seq<char>) -> Option<int> {
    if s.len() > 1 && s[0] == '-' {
        let d = s.drop_first();
        if all_digits(d) && digits_value(d) <= 2147483648 {
            Some(-(digits_value(d) as int))
        } else {
            None
        }
    } else {
        match parse_unsigned(s, i32::MAX as nat) {
            Some(n) => Some(n as int),
            None => None,
        }
    }
}

/// The signal `s` names: its exact name, its upper-cased name, the upper-cased name
/// with `SIG` put in front, or its number, tried in that order on the trimmed text;
/// `SIGHUP` when none of them is a signal.
pub open spec fn signal_of(s: Seq<char>) -> i32 {
    let t = trim(s);
    let up = upper_seq(t);
    if signal_named(t) is Some {
        signal_named(t)->0
    } else if signal_named(up) is Some {
        signal_named(up)->0
    } else if !starts_with(up, "SIG"@) && signal_named("SIG"@ + up) is Some {
        signal_named("SIG"@ + up)->0
    } else if parse_i32(t) is Some && signal_exists(parse_i32(t)->0 as i32) {
        parse_i32(t)->0 as i32
    } else {
        SIGHUP_NUMBER
    }
}

fn upper_char(c: char) -> (r: char)
    ensures
        r == upper(c),
{
    if 'a' <= c && c <= 'z' {
        ((c as u8) - 32) as char
    } else {
        c
    }
}

fn upper_string(s: &str) -> (r: String)
    ensures
        r@ == upper_seq(s@),
{
    let v = chars_of(s);
    let mut out: Vec<char> = Vec::new();
    let mut i: usize = 0;
    while i < v.len()
        invariant
            i <= v@.len(),
            v@ == s@,
            out@ == upper_seq(v@.take(i as int)),
        decreases v.len() - i,
    {
        out.push(upper_char(v[i]));
        i = i + 1;
        assert(upper_seq(v@.take(i as int)) =~= upper_seq(v@.take(i - 1)).push(upper(v@[i - 1])));
    }
    assert(v@.take(v@.len() as int) =~= v@);
    string_of(out.as_slice())
}

/// `str::parse::<i32>`.
pub fn parse_i32_str(s: &str) -> (r: Option<i32>)
    ensures
        match parse_i32(s@) {
            Some(n) => r == Some(n as i32) && i32::MIN <= n <= i32::MAX,
            None => r is None,
        },
{
    let v = chars_of(s);
    let n = v.len();
    if n > 1 && v[0] == '-' {
        let ghost d = v@.drop_first();
        assert(v@.subrange(1, n as int) =~= d);
        if v[1] == '+' {
            assert(!crate::text::is_digit(d[0]));
            return None;
        }
        assert(crate::text::unsigned_digits(d) == d);
        match crate::text::parse_u64_range(v.as_slice(), 1, n) {
            Some(m) => {
                if m <= 2147483648 {
                    if m == 2147483648 {
                        Some(i32::MIN)
                    } else {
                        Some(-(m as i32))
                    }
                } else {
                    None
                }
            },
            None => None,
        }
    } else {
        assert(v@.subrange(0, n as int) =~= v@);
        match crate::text::parse_u64_range(v.as_slice(), 0, n) {
            Some(m) => {
                if m <= 2147483647 {
                    Some(m as i32)
                } else {
                    None
                }
            },
            None => None,
        }
    }
}

/// The signal a unit file's `KillSignal=`-style value names (`SIGTERM`, `term`, `15`);
/// `SIGHUP` when it names none.
pub fn parse_signal(s: &str) -> (r: i32)
    ensures
        r == signal_of(s@),
{
    let t = trim_str(s);
    if let Some(sig) = signal_from_name(t.as_str()) {
        return sig;
    }
    let up = upper_string(t.as_str());
    if let Some(sig) = signal_from_name(up.as_str()) {
        return sig;
    }
    let uv = chars_of(up.as_str());
    let sig_prefix = chars_of("SIG");
    proof {
        reveal_strlit("SIG");
    }
    if !has_prefix(uv.as_slice(), sig_prefix.as_slice()) {
        let named = concat("SIG", up.as_str());
        if let Some(sig) = signal_from_name(named.as_str()) {
            return sig;
        }
    }
    match parse_i32_str(t.as_str()) {
        Some(n) => match signal_from_number(n) {
            Some(sig) => sig,
            None => SIGHUP_NUMBER,
        },
        None => SIGHUP_NUMBER,
    }
}

} // verus!
