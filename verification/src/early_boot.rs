//! Decisions of early boot that read configuration text: the desktop user that gets
//! access to the virtual terminals, the display manager's uid, and whether SELinux
//! enforces.
use vstd::prelude::*;
use crate::text::{chars_of, has_prefix, lines, pieces, split_char, split_lines, split_once, split_once_str, starts_with,
    str_eq, str_to_string, string_of_range, strings_view, trim, trim_str};

verus! {

/// `s` without the leading characters equal to `c`.
pub open spec fn trim_start_char(s: Seq<char>, c: char) -> Seq<char>
    decreases s.len(),
{
    if s.len() > 0 && s[0] == c {
        trim_start_char(s.drop_first(), c)
    } else {
        s
    }
}

/// `s` without the trailing characters equal to `c`.
pub open spec fn trim_end_char(s: Seq<char>, c: char) -> Seq<char>
    decreases s.len(),
{
    if s.len() > 0 && s.last() == c {
        trim_end_char(s.drop_last(), c)
    } else {
        s
    }
}

/// `str::trim_matches(c)`.
pub open spec fn trim_char(s: Seq<char>, c: char) -> Seq<char> {
    trim_end_char(trim_start_char(s, c), c)
}

/// `str::trim_matches(c)`, as an owned string.
pub fn trim_matches_char(s: &str, c: char) -> (r: String)
    ensures
        r@ == trim_char(s@, c),
{
    let v = chars_of(s);
    let mut a: usize = 0;
    assert(v@.skip(0) =~= v@);
    while a < v.len() && v[a] == c
        invariant
            a <= v@.len(),
            trim_start_char(v@.skip(a as int), c) == trim_start_char(v@, c),
        decreases v@.len() - a,
    {
        assert(v@.skip(a as int).drop_first() =~= v@.skip(a + 1));
        a = a + 1;
    }
    let ghost t = v@.skip(a as int);
    assert(trim_start_char(t, c) == t);
    let mut b: usize = v.len();
    while b > a && v[b - 1] == c
        invariant
            a <= b <= v@.len(),
            t == v@.skip(a as int),
            trim_end_char(v@.subrange(a as int, b as int), c) == trim_end_char(t, c),
        decreases b,
    {
        assert(v@.subrange(a as int, b as int).drop_last() =~= v@.subrange(a as int, b - 1));
        b = b - 1;
    }
    assert(v@.subrange(a as int, v@.len() as int) =~= t) by {}
    string_of_range(v.as_slice(), a, b)
}

/// The user named by one line of the desktop file: a trimmed line that starts with
/// `user` and holds `=`, its value trimmed and stripped of quotes, when not empty.
pub open spec fn user_value(line: Seq<char>) -> Option<Seq<char>> {
    let t = trim(line);
    if starts_with(t, "user"@) {
        match split_once(t, '=') {
            Some((_, v)) => {
                let u = trim_char(trim_char(trim(v), '"'), '\'');
                if u.len() > 0 { Some(u) } else { None }
            },
            None => None,
        }
    } else {
        None
    }
}

/// The first user that the lines `ls` name.
pub open spec fn first_user(ls: Seq<Seq<char>>) -> Option<Seq<char>>
    decreases ls.len(),
{
    if ls.len() == 0 {
        None
    } else {
        match user_value(ls[0]) {
            Some(u) => Some(u),
            None => first_user(ls.drop_first()),
        }
    }
}

/// The desktop user for the desktop file's contents `raw`: the first user it names, or
/// `Sisyphus` when it names none or could not be read.
pub open spec fn desktop_user_of(raw: Option<Seq<char>>) -> Seq<char> {
    match raw {
        Some(r) => match first_user(lines(r)) {
            Some(u) => u,
            None => "Sisyphus"@,
        },
        None => "Sisyphus"@,
    }
}

/// The user a line of the desktop file names, as `user_value` says.
pub fn line_user(line: &str) -> (r: Option<String>)
    ensures
        match user_value(line@) {
            Some(u) => r matches Some(x) && x@ == u,
            None => r is None,
        },
{
    proof {
        reveal_strlit("user");
    }
    let t = trim_str(line);
    let tv = chars_of(t.as_str());
    let p = chars_of("user");
    if !has_prefix(tv.as_slice(), p.as_slice()) {
        return None;
    }
    match split_once_str(t.as_str(), '=') {
        Some((_, v)) => {
            let v1 = trim_str(v.as_str());
            let v2 = trim_matches_char(v1.as_str(), '"');
            let u = trim_matches_char(v2.as_str(), '\'');
            let uv = chars_of(u.as_str());
            if uv.len() > 0 {
                Some(u)
            } else {
                None
            }
        },
        None => None,
    }
}

/// The desktop user for the file contents `raw`, as `desktop_user_of` says.
pub fn desktop_user(raw: Option<&str>) -> (r: String)
    ensures
        r@ == desktop_user_of(match raw {
            Some(v) => Some(v@),
            None => None,
        }),
{
    match raw {
        Some(text) => {
            let ls = split_lines(text);
            let ghost lv = strings_view(ls@);
            let mut i: usize = 0;
            assert(lv.skip(0) =~= lv);
            while i < ls.len()
                invariant
                    i <= ls@.len(),
                    lv == strings_view(ls@),
                    lv == lines(text@),
                    raw == Some(text),
                    first_user(lv) == first_user(lv.skip(i as int)),
                decreases ls@.len() - i,
            {
                let ghost rest = lv.skip(i as int);
                assert(rest[0] == ls@[i as int]@);
                assert(rest.drop_first() =~= lv.skip(i + 1));
                match line_user(ls[i].as_str()) {
                    Some(u) => {
                        return u;
                    },
                    None => {},
                }
                i = i + 1;
            }
            assert(lv.skip(ls@.len() as int) =~= Seq::<Seq<char>>::empty());
            str_to_string("Sisyphus")
        },
        None => str_to_string("Sisyphus"),
    }
}

/// The uid field of a `passwd` entry, as `line.split(':').nth(2)` gives it.
pub open spec fn passwd_uid_field(line: Seq<char>) -> Option<Seq<char>> {
    let p = pieces(line, ':');
    if p.len() > 2 { Some(p[2]) } else { None }
}

/// The uid field of the `passwd` entry `line`, as `passwd_uid_field` says.
pub fn passwd_uid(line: &str) -> (r: Option<String>)
    ensures
        match passwd_uid_field(line@) {
            Some(f) => r matches Some(x) && x@ == f,
            None => r is None,
        },
{
    let p = split_char(line, ':');
    if p.len() > 2 {
        Some(str_to_string(p[2].as_str()))
    } else {
        None
    }
}

/// Some line of `config` reads `SELINUX=enforcing`, trimmed.
pub open spec fn has_enforcing_line(config: Seq<char>) -> bool {
    exists|i: int| 0 <= i < lines(config).len() && trim(#[trigger] lines(config)[i]) == "SELINUX=enforcing"@
}

/// SELinux enforces: the kernel's `enforce` file reads `1` (trimmed); where it could
/// not be read, the configuration file `config` has a line `SELINUX=enforcing` (trimmed).
pub open spec fn enforcing_of(enforce: Option<Seq<char>>, config: Option<Seq<char>>) -> bool {
    match enforce {
        Some(e) => trim(e) == "1"@,
        None => match config {
            Some(c) => has_enforcing_line(c),
            None => false,
        },
    }
}

/// Whether SELinux enforces, as `enforcing_of` says.
pub fn selinux_enforcing(enforce: Option<&str>, config: Option<&str>) -> (r: bool)
    ensures
        r == enforcing_of(
            match enforce {
                Some(v) => Some(v@),
                None => None,
            },
            match config {
                Some(v) => Some(v@),
                None => None,
            },
        ),
{
    match enforce {
        Some(e) => {
            let t = trim_str(e);
            str_eq(t.as_str(), "1")
        },
        None => match config {
            Some(c) => {
                let ls = split_lines(c);
                let ghost lv = strings_view(ls@);
                let mut i: usize = 0;
                while i < ls.len()
                    invariant
                        i <= ls@.len(),
                        lv == strings_view(ls@),
                        lv == lines(c@),
                        enforce is None,
                        config == Some(c),
                        forall|j: int| 0 <= j < i ==> trim(#[trigger] lv[j]) != "SELINUX=enforcing"@,
                    decreases ls@.len() - i,
                {
                    assert(lv[i as int] == ls@[i as int]@);
                    let t = trim_str(ls[i].as_str());
                    if str_eq(t.as_str(), "SELINUX=enforcing") {
                        assert(lv.len() == ls@.len());
                        assert(0 <= i < lines(c@).len());
                        assert(trim(lines(c@)[i as int]) == "SELINUX=enforcing"@);
                        assert(has_enforcing_line(c@));
                        return true;
                    }
                    i = i + 1;
                }
                false
            },
            None => false,
        },
    }
}

/// What starting a service takes besides launching its command.
#[derive(Debug, Clone, Copy, PartialEq, Eq, Structural)]
pub enum StartStep {
    /// `forge-early`: the manager runs early boot itself and launches nothing.
    EarlyBoot,
    /// `user-sessions`: logins are allowed before the launch.
    AllowLogins,
    /// `dbus`: the system bus's runtime directory is prepared first.
    SystemBus,
    /// Nothing more.
    Launch,
}

pub open spec fn start_step_of(name: Seq<char>) -> StartStep {
    if name == "forge-early"@ {
        StartStep::EarlyBoot
    } else if name == "user-sessions"@ {
        StartStep::AllowLogins
    } else if name == "dbus"@ {
        StartStep::SystemBus
    } else {
        StartStep::Launch
    }
}

/// The step starting the service `name` takes, as `start_step_of` says.
pub fn start_step(name: &str) -> (r: StartStep)
    ensures
        r == start_step_of(name@),
{
    if str_eq(name, "forge-early") {
        StartStep::EarlyBoot
    } else if str_eq(name, "user-sessions") {
        StartStep::AllowLogins
    } else if str_eq(name, "dbus") {
        StartStep::SystemBus
    } else {
        StartStep::Launch
    }
}

} // verus!
