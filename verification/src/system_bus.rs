//! What the `org.freedesktop.systemd1` service the init process offers decides:
//! unit names, session leaders and the greeter's environment.
use vstd::prelude::*;
use crate::text::{chars_of, contains_seq, contains_str, ends_with, has_prefix, has_suffix, lines, parse_u32_range,
    parse_unsigned, second_piece_seq, second_piece_str, split_lines, split_once, split_once_str, starts_with, str_eq, str_to_string, string_of_range,
    strings_view, strip_suffix, strip_suffix_str, trim, trim_str};

verus! {

/// `name` with every trailing `.service` removed, as `trim_end_matches` removes them.
pub open spec fn without_service_suffix(name: Seq<char>) -> Seq<char>
    decreases name.len(),
{
    if name.len() >= 8 && ends_with(name, ".service"@) {
        without_service_suffix(name.take(name.len() - 8))
    } else {
        name
    }
}

/// The unit a `StartUnit`/`StopUnit` call names: the name without its `.service` suffixes.
pub fn dbus_unit_name(name: &str) -> (r: String)
    ensures
        r@ == without_service_suffix(name@),
{
    let v = chars_of(name);
    let suffix = chars_of(".service");
    proof {
        reveal_strlit(".service");
    }
    let mut end = v.len();
    assert(v@.take(end as int) =~= name@);
    while end >= 8 && crate::text::has_suffix(&v.as_slice()[0..end], suffix.as_slice())
        invariant
            end <= v@.len(),
            v@ == name@,
            suffix@ == ".service"@,
            without_service_suffix(v@.take(end as int)) == without_service_suffix(name@),
        decreases end,
    {
        let ghost t = v@.take(end as int);
        assert(v@.subrange(0, end as int) =~= t);
        assert(t.take(t.len() - 8) =~= v@.take(end - 8));
        end = end - 8;
    }
    let ghost t = v@.take(end as int);
    assert(v@.subrange(0, end as int) =~= t);
    assert(v@.take(v@.len() as int) =~= v@);
    string_of_range(v.as_slice(), 0, end)
}

/// What starting a unit over D-Bus does besides starting it.
#[derive(Debug, Clone, Copy, PartialEq, Eq, Structural)]
pub enum StartHook {
    /// `user@….service`: the user manager stands in.
    UserManager,
    /// `user-sessions.service`: logins are allowed.
    AllowLogins,
    Nothing,
}

/// The hook a `StartUnit` call of `name` runs.
pub open spec fn start_hook_of(name: Seq<char>) -> StartHook {
    if starts_with(name, "user@"@) && ends_with(name, ".service"@) {
        StartHook::UserManager
    } else if name == "user-sessions.service"@ || name == "systemd-user-sessions.service"@ {
        StartHook::AllowLogins
    } else {
        StartHook::Nothing
    }
}

/// The hook a `StartUnit` call of `name` runs.
pub fn start_hook(name: &str) -> (r: StartHook)
    ensures
        r == start_hook_of(name@),
{
    let v = chars_of(name);
    let p = chars_of("user@");
    let s = chars_of(".service");
    if has_prefix(v.as_slice(), p.as_slice()) && has_suffix(v.as_slice(), s.as_slice()) {
        StartHook::UserManager
    } else if str_eq(name, "user-sessions.service") || str_eq(name, "systemd-user-sessions.service") {
        StartHook::AllowLogins
    } else {
        StartHook::Nothing
    }
}

/// One property of a `StartTransientUnit` call, as plain values: its name, the
/// number it holds when it is one, and the numbers of its items when it is an array.
/// The second `'@'`-separated piece of `s`, as `s.split('@').nth(1)` gives it.
pub open spec fn second_piece(s: Seq<char>) -> Option<Seq<char>> {
    match split_once(s, '@') {
        Some((_, rest)) => match split_once(rest, '@') {
            Some((p, _)) => Some(p),
            None => Some(rest),
        },
        None => None,
    }
}

/// The uid named by a `user@<uid>.service` unit.
pub open spec fn user_manager_uid_of(unit: Seq<char>) -> Option<nat> {
    match second_piece(unit) {
        Some(p) => match strip_suffix(p, ".service"@) {
            Some(d) => parse_unsigned(d, u32::MAX as nat),
            None => None,
        },
        None => None,
    }
}

/// The uid whose session manager a `user@<uid>.service` unit stands for; `None` for a
/// malformed unit name.
pub fn user_manager_uid(unit: &str) -> (r: Option<u32>)
    ensures
        match user_manager_uid_of(unit@) {
            Some(n) => r == Some(n as u32),
            None => r is None,
        },
{
    let rest = match split_once_str(unit, '@') {
        Some((_, b)) => b,
        None => {
            return None;
        },
    };
    let piece = match split_once_str(rest.as_str(), '@') {
        Some((a, _)) => a,
        None => rest,
    };
    let digits = match strip_suffix_str(piece.as_str(), ".service") {
        Some(d) => d,
        None => {
            return None;
        },
    };
    let v = chars_of(digits.as_str());
    assert(v@.subrange(0, v@.len() as int) =~= v@);
    parse_u32_range(v.as_slice(), 0, v.len())
}

#[derive(Debug)]
pub struct Property {
    pub key: String,
    pub number: Option<u32>,
    pub items: Option<Vec<Option<u32>>>,
}

/// The numbers among `items`, in order.
pub open spec fn numbers_in(items: Seq<Option<u32>>) -> Seq<u32>
    decreases items.len(),
{
    if items.len() == 0 {
        Seq::empty()
    } else {
        let r = numbers_in(items.drop_last());
        match items.last() {
            Some(n) => r.push(n),
            None => r,
        }
    }
}

/// The `Leader` a session's properties name after reading the first `n`: the last
/// `Leader` seen (which may hold no number), and the pids of the `PIDs` arrays.
pub open spec fn leader_state(props: Seq<Property>) -> (Option<u32>, Seq<u32>)
    decreases props.len(),
{
    if props.len() == 0 {
        (None, Seq::empty())
    } else {
        let (leader, pids) = leader_state(props.drop_last());
        let p = props.last();
        if p.key@ == "Leader"@ {
            (p.number, pids)
        } else if p.key@ == "PIDs"@ {
            match p.items {
                Some(items) => (leader, pids + numbers_in(items@)),
                None => (leader, pids),
            }
        } else {
            (leader, pids)
        }
    }
}

/// The session leader the properties name: the `Leader`, else the first of the `PIDs`.
pub open spec fn leader_of(props: Seq<Property>) -> Option<u32> {
    let (leader, pids) = leader_state(props);
    match leader {
        Some(l) => Some(l),
        None => if pids.len() > 0 { Some(pids[0]) } else { None },
    }
}

/// The session leader of a transient scope, from its properties.
pub fn leader_from_properties(props: &Vec<Property>) -> (r: Option<u32>)
    ensures
        r == leader_of(props@),
{
    let mut leader: Option<u32> = None;
    let mut pids: Vec<u32> = Vec::new();
    let mut i: usize = 0;
    while i < props.len()
        invariant
            i <= props@.len(),
            (leader, pids@) == leader_state(props@.take(i as int)),
        decreases props@.len() - i,
    {
        let p = &props[i];
        assert(props@.take(i + 1).drop_last() =~= props@.take(i as int));
        assert(props@.take(i + 1).last() == props@[i as int]);
        if str_eq(p.key.as_str(), "Leader") {
            leader = p.number;
        } else if str_eq(p.key.as_str(), "PIDs") {
            match &p.items {
                Some(items) => {
                    let ghost before = pids@;
                    let mut j: usize = 0;
                    while j < items.len()
                        invariant
                            j <= items@.len(),
                            pids@ == before + numbers_in(items@.take(j as int)),
                        decreases items@.len() - j,
                    {
                        assert(items@.take(j + 1).drop_last() =~= items@.take(j as int));
                        match items[j] {
                            Some(n) => {
                                pids.push(n);
                            },
                            None => {},
                        }
                        j = j + 1;
                        assert(pids@ =~= before + numbers_in(items@.take(j as int)));
                    }
                    assert(items@.take(items@.len() as int) =~= items@);
                },
                None => {},
            }
        }
        i = i + 1;
    }
    assert(props@.take(props@.len() as int) =~= props@);
    match leader {
        Some(l) => Some(l),
        None => if pids.len() > 0 { Some(pids[0]) } else { None },
    }
}

/// The settings of an environment-style file: its trimmed lines that hold `=` and are
/// no comment.
pub open spec fn setting_lines(ls: Seq<Seq<char>>) -> Seq<Seq<char>>
    decreases ls.len(),
{
    if ls.len() == 0 {
        Seq::empty()
    } else {
        let r = setting_lines(ls.drop_last());
        let t = trim(ls.last());
        if t.len() > 0 && contains_seq(t, "="@) && !starts_with(t, "#"@) { r.push(t) } else { r }
    }
}

/// The settings in the text `text`, as `setting_lines` says, in order.
pub fn settings_in(text: &str) -> (r: Vec<String>)
    ensures
        strings_view(r@) == setting_lines(lines(text@)),
{
    let mut out: Vec<String> = Vec::new();
    let ls = split_lines(text);
    let ghost lv = strings_view(ls@);
    let mut i: usize = 0;
    while i < ls.len()
        invariant
            i <= ls@.len(),
            lv == strings_view(ls@),
            lv == lines(text@),
            strings_view(out@) == setting_lines(lv.take(i as int)),
        decreases ls@.len() - i,
    {
        assert(lv.take(i + 1).drop_last() =~= lv.take(i as int));
        assert(lv.take(i + 1).last() == ls@[i as int]@);
        let t = trim_str(ls[i].as_str());
        let tv = chars_of(t.as_str());
        let hash = chars_of("#");
        if tv.len() > 0 && contains_str(tv.as_slice(), "=") && !has_prefix(tv.as_slice(), hash.as_slice()) {
            let ghost before = out@;
            out.push(t);
            assert(strings_view(out@) =~= strings_view(before).push(tv@));
        }
        i = i + 1;
    }
    assert(lv.take(ls@.len() as int) =~= lv);
    out
}

/// The environment the `Environment` property reports: the settings of the greeter's
/// file `raw`, or, when it holds none or could not be read, the NVIDIA defaults.
pub open spec fn greeter_env(raw: Option<Seq<char>>) -> Seq<Seq<char>> {
    let found = match raw {
        Some(r) => setting_lines(lines(r)),
        None => Seq::empty(),
    };
    if found.len() > 0 {
        found
    } else {
        seq!["WLR_NO_HARDWARE_CURSORS=1"@, "__GLX_VENDOR_LIBRARY_NAME=nvidia"@, "GBM_BACKEND=nvidia-drm"@]
    }
}

/// The greeter environment for the file contents `raw`, as `greeter_env` says.
pub fn read_greeter_environment(raw: Option<&str>) -> (r: Vec<String>)
    ensures
        strings_view(r@) == greeter_env(match raw {
            Some(v) => Some(v@),
            None => None,
        }),
{
    let mut out: Vec<String> = match raw {
        Some(text) => settings_in(text),
        None => Vec::new(),
    };
    if out.len() == 0 {
        out = vec![
            str_to_string("WLR_NO_HARDWARE_CURSORS=1"),
            str_to_string("__GLX_VENDOR_LIBRARY_NAME=nvidia"),
            str_to_string("GBM_BACKEND=nvidia-drm"),
        ];
        assert(strings_view(out@) =~= seq!["WLR_NO_HARDWARE_CURSORS=1"@, "__GLX_VENDOR_LIBRARY_NAME=nvidia"@, "GBM_BACKEND=nvidia-drm"@]);
    }
    out
}

/// The locale the `Locale` property reports: the settings of the locale file `raw`, or,
/// when it holds none or could not be read, `LANG=en_US.UTF-8`.
pub open spec fn locale_env(raw: Option<Seq<char>>) -> Seq<Seq<char>> {
    let found = match raw {
        Some(r) => setting_lines(lines(r)),
        None => Seq::empty(),
    };
    if found.len() > 0 {
        found
    } else {
        seq!["LANG=en_US.UTF-8"@]
    }
}

/// The locale settings for the file contents `raw`, as `locale_env` says.
pub fn read_locale_settings(raw: Option<&str>) -> (r: Vec<String>)
    ensures
        strings_view(r@) == locale_env(match raw {
            Some(v) => Some(v@),
            None => None,
        }),
{
    let mut out: Vec<String> = match raw {
        Some(text) => settings_in(text),
        None => Vec::new(),
    };
    if out.len() == 0 {
        out = vec![str_to_string("LANG=en_US.UTF-8")];
        assert(strings_view(out@) =~= seq!["LANG=en_US.UTF-8"@]);
    }
    out
}

/// The locale file `SetLocale` writes: each entry that holds `=`, each followed by a
/// newline.
pub open spec fn locale_file(entries: Seq<Seq<char>>) -> Seq<char>
    decreases entries.len(),
{
    if entries.len() == 0 {
        Seq::empty()
    } else {
        let r = locale_file(entries.drop_last());
        if contains_seq(entries.last(), "="@) { r + entries.last() + seq!['\n'] } else { r }
    }
}

/// The contents `SetLocale` writes for `entries`, as `locale_file` says; the file is
/// written only when this is not empty.
pub fn locale_file_contents(entries: &Vec<String>) -> (r: String)
    ensures
        r@ == locale_file(strings_view(entries@)),
{
    let ghost ev = strings_view(entries@);
    let mut out = String::new();
    let mut i: usize = 0;
    while i < entries.len()
        invariant
            i <= entries@.len(),
            ev == strings_view(entries@),
            out@ == locale_file(ev.take(i as int)),
        decreases entries@.len() - i,
    {
        assert(ev.take(i + 1).drop_last() =~= ev.take(i as int));
        assert(ev.take(i + 1).last() == entries@[i as int]@);
        let v = chars_of(entries[i].as_str());
        if contains_str(v.as_slice(), "=") {
            let ghost before = out@;
            let mut k: usize = 0;
            while k < v.len()
                invariant
                    k <= v@.len(),
                    out@ == before + v@.take(k as int),
                decreases v@.len() - k,
            {
                out.push(v[k]);
                assert(v@.take(k + 1) =~= v@.take(k as int).push(v@[k as int]));
                k = k + 1;
            }
            assert(v@.take(v@.len() as int) =~= v@);
            out.push('\n');
        }
        i = i + 1;
    }
    assert(ev.take(entries@.len() as int) =~= ev);
    out
}

/// The time zone the `Timezone` property reports for the target `link` of
/// `/etc/localtime`: the part after `zoneinfo/`, or `UTC` when there is none or the link
/// could not be read.
pub open spec fn timezone_of(link: Option<Seq<char>>) -> Seq<char> {
    match link {
        Some(l) => match second_piece_seq(l, "zoneinfo/"@) {
            Some(z) => z,
            None => "UTC"@,
        },
        None => "UTC"@,
    }
}

/// The time zone for the link target `link`, as `timezone_of` says.
pub fn timezone_from_link(link: Option<&str>) -> (r: String)
    ensures
        r@ == timezone_of(match link {
            Some(l) => Some(l@),
            None => None,
        }),
{
    proof {
        reveal_strlit("zoneinfo/");
    }
    match link {
        Some(l) => match second_piece_str(l, "zoneinfo/") {
            Some(z) => z,
            None => str_to_string("UTC"),
        },
        None => str_to_string("UTC"),
    }
}

} // verus!
