//! OpenRC-style runlevel enablement (`rc-update`).
//!
//! A service is enabled for a runlevel by a marker named after it in the
//! runlevel's directory. Runlevels stack: each level inherits the services of
//! the levels it builds on (`graphical` → `multi-user` → `boot` → `sysinit`;
//! `single` → `sysinit`). The marker tree is held here as plain data; reading
//! and writing the directories is the caller's business.
use vstd::prelude::*;
use crate::text::{join, join_path, str_eq, str_to_string, strings_view};

verus! {

/// What Unicode lowercasing makes of a string.
pub uninterp spec fn lowercase(s: Seq<char>) -> Seq<char>;

/// `str::to_lowercase`: the claim is only that the result is a function of the input.
#[verifier::external_body]
fn to_lowercase(s: &str) -> (r: String)
    ensures
        r@ == lowercase(s@),
{
    s.to_lowercase()
}

/// The runlevel database: whether its root exists, whether it was seeded, and the
/// markers found in each runlevel directory.
#[derive(Debug, Clone)]
pub struct RcDatabase {
    pub root_exists: bool,
    pub seeded: bool,
    pub levels: Vec<(String, Vec<String>)>,
}

/// The runlevel of a boot target.
pub open spec fn runlevel_of(target: Seq<char>) -> Seq<char> {
    let l = lowercase(target);
    if l == "graphical"@ {
        "graphical"@
    } else if l == "multi-user"@ {
        "multi-user"@
    } else if l == "rescue"@ || l == "single"@ || l == "emergency"@ {
        "single"@
    } else if l == "sysinit"@ {
        "sysinit"@
    } else if l == "boot"@ {
        "boot"@
    } else {
        target
    }
}

/// The runlevels `runlevel` inherits from, most specific first.
pub open spec fn ancestors(runlevel: Seq<char>) -> Seq<Seq<char>> {
    if runlevel == "graphical"@ {
        seq!["graphical"@, "multi-user"@, "boot"@, "sysinit"@]
    } else if runlevel == "multi-user"@ {
        seq!["multi-user"@, "boot"@, "sysinit"@]
    } else if runlevel == "boot"@ {
        seq!["boot"@, "sysinit"@]
    } else if runlevel == "sysinit"@ {
        seq!["sysinit"@]
    } else if runlevel == "single"@ || runlevel == "rescue"@ || runlevel == "emergency"@ {
        seq!["single"@, "sysinit"@]
    } else {
        Seq::empty()
    }
}

/// Maps a boot target name to its runlevel.
pub fn target_to_runlevel(target: &str) -> (r: String)
    ensures
        r@ == runlevel_of(target@),
{
    let l = to_lowercase(target);
    let ls = l.as_str();
    proof {
        reveal_strlit("graphical");
        reveal_strlit("multi-user");
        reveal_strlit("rescue");
        reveal_strlit("single");
        reveal_strlit("emergency");
        reveal_strlit("sysinit");
        reveal_strlit("boot");
    }
    if str_eq(ls, "graphical") {
        "graphical".to_string()
    } else if str_eq(ls, "multi-user") {
        "multi-user".to_string()
    } else if str_eq(ls, "rescue") || str_eq(ls, "single") || str_eq(ls, "emergency") {
        "single".to_string()
    } else if str_eq(ls, "sysinit") {
        "sysinit".to_string()
    } else if str_eq(ls, "boot") {
        "boot".to_string()
    } else {
        str_to_string(target)
    }
}

/// The ancestor chain of `runlevel`, from most specific to most general.
pub fn runlevel_ancestors(runlevel: &str) -> (r: Vec<String>)
    ensures
        strings_view(r@) == ancestors(runlevel@),
{
    proof {
        reveal_strlit("graphical");
        reveal_strlit("multi-user");
        reveal_strlit("rescue");
        reveal_strlit("single");
        reveal_strlit("emergency");
        reveal_strlit("sysinit");
        reveal_strlit("boot");
    }
    let mut r: Vec<String> = Vec::new();
    if str_eq(runlevel, "graphical") {
        r.push("graphical".to_string());
        r.push("multi-user".to_string());
        r.push("boot".to_string());
        r.push("sysinit".to_string());
    } else if str_eq(runlevel, "multi-user") {
        r.push("multi-user".to_string());
        r.push("boot".to_string());
        r.push("sysinit".to_string());
    } else if str_eq(runlevel, "boot") {
        r.push("boot".to_string());
        r.push("sysinit".to_string());
    } else if str_eq(runlevel, "sysinit") {
        r.push("sysinit".to_string());
    } else if str_eq(runlevel, "single") || str_eq(runlevel, "rescue") || str_eq(runlevel, "emergency") {
        r.push("single".to_string());
        r.push("sysinit".to_string());
    }
    assert(strings_view(r@) =~= ancestors(runlevel@));
    r
}

/// The directory of `runlevel` under the database root `root`.
pub fn runlevel_dir(root: &str, runlevel: &str) -> (r: String)
    ensures
        r@ == join_path(root@, runlevel@),
{
    join(root, runlevel)
}

/// The marker that enables `service` at `runlevel`.
pub fn marker_path(root: &str, runlevel: &str, service: &str) -> (r: String)
    ensures
        r@ == join_path(join_path(root@, runlevel@), service@),
{
    let dir = runlevel_dir(root, runlevel);
    join(dir.as_str(), service)
}

/// `runlevels` (a unit's own list) admits `runlevel`: it is empty, or one of its
/// entries is an ancestor of `runlevel`.
pub open spec fn eligible(unit_runlevels: Seq<Seq<char>>, runlevel: Seq<char>) -> bool {
    unit_runlevels.len() == 0 || exists|i: int|
        0 <= i < unit_runlevels.len() && ancestors(runlevel).contains(#[trigger] unit_runlevels[i])
}

/// Whether a unit's `runlevels` field allows it to run at `runlevel`.
pub fn unit_eligible_for_runlevel(unit_runlevels: &Vec<String>, runlevel: &str) -> (r: bool)
    ensures
        r == eligible(strings_view(unit_runlevels@), runlevel@),
{
    if unit_runlevels.len() == 0 {
        return true;
    }
    let anc = runlevel_ancestors(runlevel);
    let mut i: usize = 0;
    while i < unit_runlevels.len()
        invariant
            i <= unit_runlevels@.len(),
            strings_view(anc@) == ancestors(runlevel@),
            forall|j: int| 0 <= j < i ==> !ancestors(runlevel@).contains(#[trigger] strings_view(unit_runlevels@)[j]),
        decreases unit_runlevels@.len() - i,
    {
        if contains_string(&anc, unit_runlevels[i].as_str()) {
            assert(ancestors(runlevel@).contains(strings_view(unit_runlevels@)[i as int]));
            return true;
        }
        i = i + 1;
    }
    false
}

/// `v` holds the string `s`.
pub fn contains_string(v: &Vec<String>, s: &str) -> (r: bool)
    ensures
        r == strings_view(v@).contains(s@),
{
    let mut i: usize = 0;
    while i < v.len()
        invariant
            i <= v@.len(),
            forall|j: int| 0 <= j < i ==> v@[j]@ != s@,
        decreases v@.len() - i,
    {
        if str_eq(v[i].as_str(), s) {
            assert(strings_view(v@)[i as int] == s@);
            return true;
        }
        i = i + 1;
    }
    assert(!strings_view(v@).contains(s@)) by {
        if strings_view(v@).contains(s@) {
            let j = choose|j: int| 0 <= j < strings_view(v@).len() && strings_view(v@)[j] == s@;
            assert(v@[j]@ == s@);
        }
    }
    false
}

impl RcDatabase {
    /// The runlevel directories with the names of their markers.
    pub open spec fn view_levels(&self) -> Seq<(Seq<char>, Seq<Seq<char>>)> {
        self.levels@.map_values(|l: (String, Vec<String>)| (l.0@, strings_view(l.1@)))
    }

    /// A marker for `service` lies in the directory of `level`.
    pub open spec fn has_marker(&self, level: Seq<char>, service: Seq<char>) -> bool {
        levels_have(self.view_levels(), level, service)
    }

    /// A marker for `service` lies in some runlevel directory.
    pub open spec fn any_marker(&self, service: Seq<char>) -> bool {
        levels_any(self.view_levels(), service)
    }

    /// Whether `service` runs at `runlevel`: it must be eligible by its own
    /// `runlevels`; with no database everything runs; a marker anywhere in the
    /// ancestor chain enables it; a seeded database enables nothing else; an
    /// unseeded one enables what was never registered anywhere.
    pub open spec fn enabled(&self, service: Seq<char>, runlevel: Seq<char>, unit_runlevels: Seq<Seq<char>>) -> bool {
        if !eligible(unit_runlevels, runlevel) {
            false
        } else if !self.root_exists {
            true
        } else if exists|a: int| 0 <= a < ancestors(runlevel).len() && self.has_marker(#[trigger] ancestors(runlevel)[a], service) {
            true
        } else if self.seeded {
            false
        } else {
            !self.any_marker(service)
        }
    }

    /// A database whose root does not exist.
    pub fn absent() -> (r: Self)
        ensures
            !r.root_exists,
            !r.seeded,
            r.levels@.len() == 0,
    {
        RcDatabase { root_exists: false, seeded: false, levels: Vec::new() }
    }

    /// True once the database was seeded.
    pub fn is_database_active(&self) -> (r: bool)
        ensures
            r == self.seeded,
    {
        self.seeded
    }

    /// The marker for `service` lies in the directory of `level`.
    pub fn marker_exists(&self, level: &str, service: &str) -> (r: bool)
        ensures
            r == self.has_marker(level@, service@),
    {
        let mut i: usize = 0;
        while i < self.levels.len()
            invariant
                i <= self.levels@.len(),
                forall|j: int| 0 <= j < i ==> !((#[trigger] self.view_levels()[j]).0 == level@
                    && self.view_levels()[j].1.contains(service@)),
            decreases self.levels@.len() - i,
        {
            if str_eq(self.levels[i].0.as_str(), level) && contains_string(&self.levels[i].1, service) {
                assert(self.view_levels()[i as int].0 == level@);
                return true;
            }
            i = i + 1;
        }
        false
    }

    /// A marker for `service` lies in some runlevel directory.
    pub fn any_marker_for_service(&self, service: &str) -> (r: bool)
        ensures
            r == self.any_marker(service@),
    {
        let mut i: usize = 0;
        while i < self.levels.len()
            invariant
                i <= self.levels@.len(),
                forall|j: int| 0 <= j < i ==> !(#[trigger] self.view_levels()[j]).1.contains(service@),
            decreases self.levels@.len() - i,
        {
            if contains_string(&self.levels[i].1, service) {
                assert(self.view_levels()[i as int].1.contains(service@));
                return true;
            }
            i = i + 1;
        }
        false
    }

    /// Is `service` enabled for `runlevel`?
    pub fn is_enabled(&self, service: &str, runlevel: &str, unit_runlevels: &Vec<String>) -> (r: bool)
        ensures
            r == self.enabled(service@, runlevel@, strings_view(unit_runlevels@)),
    {
        if !unit_eligible_for_runlevel(unit_runlevels, runlevel) {
            return false;
        }
        if !self.root_exists {
            return true;
        }
        let anc = runlevel_ancestors(runlevel);
        let mut i: usize = 0;
        while i < anc.len()
            invariant
                i <= anc@.len(),
                self.root_exists,
                eligible(strings_view(unit_runlevels@), runlevel@),
                strings_view(anc@) == ancestors(runlevel@),
                forall|a: int| 0 <= a < i ==> !self.has_marker(#[trigger] ancestors(runlevel@)[a], service@),
            decreases anc@.len() - i,
        {
            assert(strings_view(anc@)[i as int] == anc@[i as int]@);
            if self.marker_exists(anc[i].as_str(), service) {
                assert(self.has_marker(ancestors(runlevel@)[i as int], service@));
                assert(0 <= i < ancestors(runlevel@).len());
                return true;
            }
            i = i + 1;
        }
        if self.seeded {
            return false;
        }
        !self.any_marker_for_service(service)
    }

    /// Enables `service` at `runlevel` (`rc-update add`): its marker is created, and
    /// with it the runlevel directory and the database root.
    pub fn enable(&mut self, service: &str, runlevel: &str)
        ensures
            enable_effect(*old(self), *final(self), service@, runlevel@),
    {
        self.root_exists = true;
        let ghost old_levels = self.view_levels();
        assert(old_levels == old(self).view_levels());
        let mut i: usize = 0;
        while i < self.levels.len()
            invariant
                i <= self.levels@.len(),
                self.root_exists,
                self.seeded == old(self).seeded,
                old_levels == old(self).view_levels(),
                self.view_levels() == old_levels,
                forall|j: int| 0 <= j < i ==> (#[trigger] old_levels[j]).0 != runlevel@,
            decreases self.levels@.len() - i,
        {
            if str_eq(self.levels[i].0.as_str(), runlevel) {
                assert(old_levels[i as int].0 == runlevel@);
                if !contains_string(&self.levels[i].1, service) {
                    let ghost before = self.levels@;
                    let entry = &mut self.levels[i];
                    entry.1.push(str_to_string(service));
                    assert(strings_view(self.levels@[i as int].1@) =~= old_levels[i as int].1.push(service@));
                    assert(self.view_levels() =~= old_levels.update(i as int, (runlevel@, old_levels[i as int].1.push(service@))));
                    assert(self.view_levels()[i as int].1[old_levels[i as int].1.len() as int] == service@);
                } else {
                    assert(old_levels[i as int].1.contains(service@));
                }
                assert(self.view_levels()[i as int].1.contains(service@));
                assert forall|l: Seq<char>, sv: Seq<char>|
                    #![trigger self.has_marker(l, sv)]
                    self.has_marker(l, sv) <==> (levels_have(old_levels, l, sv) || (l == runlevel@ && sv == service@)) by {
                    if self.has_marker(l, sv) {
                        let j = choose|j: int| 0 <= j < self.view_levels().len() && (#[trigger] self.view_levels()[j]).0 == l
                            && self.view_levels()[j].1.contains(sv);
                        if j != i {
                            assert(old_levels[j] == self.view_levels()[j]);
                        } else if !(l == runlevel@ && sv == service@) {
                            let m = choose|m: int| 0 <= m < self.view_levels()[j].1.len() && self.view_levels()[j].1[m] == sv;
                            if m < old_levels[j].1.len() {
                                assert(old_levels[j].1[m] == sv);
                            }
                        }
                    }
                    if levels_have(old_levels, l, sv) {
                        let j = choose|j: int| 0 <= j < old_levels.len() && (#[trigger] old_levels[j]).0 == l
                            && old_levels[j].1.contains(sv);
                        let m = choose|m: int| 0 <= m < old_levels[j].1.len() && old_levels[j].1[m] == sv;
                        assert(self.view_levels()[j].1[m] == sv);
                    }
                    if l == runlevel@ && sv == service@ {
                        assert(self.view_levels()[i as int].1.contains(service@));
                    }
                }
                assert forall|sv: Seq<char>|
                    #![trigger self.any_marker(sv)]
                    self.any_marker(sv) <==> (levels_any(old_levels, sv) || sv == service@) by {
                    if self.any_marker(sv) {
                        let j = choose|j: int| 0 <= j < self.view_levels().len() && (#[trigger] self.view_levels()[j]).1.contains(sv);
                        if j != i {
                            assert(old_levels[j] == self.view_levels()[j]);
                        } else if sv != service@ {
                            let m = choose|m: int| 0 <= m < self.view_levels()[j].1.len() && self.view_levels()[j].1[m] == sv;
                            if m < old_levels[j].1.len() {
                                assert(old_levels[j].1[m] == sv);
                            }
                        }
                    }
                    if levels_any(old_levels, sv) {
                        let j = choose|j: int| 0 <= j < old_levels.len() && (#[trigger] old_levels[j]).1.contains(sv);
                        let m = choose|m: int| 0 <= m < old_levels[j].1.len() && old_levels[j].1[m] == sv;
                        assert(self.view_levels()[j].1[m] == sv);
                    }
                    if sv == service@ {
                        assert(self.view_levels()[i as int].1.contains(service@));
                    }
                }
                return;
            }
            i = i + 1;
        }
        let mut markers: Vec<String> = Vec::new();
        markers.push(str_to_string(service));
        assert(strings_view(markers@) =~= seq![service@]);
        self.levels.push((str_to_string(runlevel), markers));
        assert(self.view_levels() =~= old_levels.push((runlevel@, seq![service@])));
        let ghost n = old_levels.len() as int;
        assert(self.view_levels()[n].1.contains(service@)) by {
            assert(self.view_levels()[n].1[0] == service@);
        }
        assert forall|l: Seq<char>, sv: Seq<char>|
            #![trigger self.has_marker(l, sv)]
            self.has_marker(l, sv) <==> (levels_have(old_levels, l, sv) || (l == runlevel@ && sv == service@)) by {
            if self.has_marker(l, sv) {
                let j = choose|j: int| 0 <= j < self.view_levels().len() && (#[trigger] self.view_levels()[j]).0 == l
                    && self.view_levels()[j].1.contains(sv);
                if j < n {
                    assert(old_levels[j] == self.view_levels()[j]);
                }
            }
            if levels_have(old_levels, l, sv) {
                let j = choose|j: int| 0 <= j < old_levels.len() && (#[trigger] old_levels[j]).0 == l
                    && old_levels[j].1.contains(sv);
                assert(self.view_levels()[j] == old_levels[j]);
            }
        }
        assert forall|sv: Seq<char>|
            #![trigger self.any_marker(sv)]
            self.any_marker(sv) <==> (levels_any(old_levels, sv) || sv == service@) by {
            if self.any_marker(sv) {
                let j = choose|j: int| 0 <= j < self.view_levels().len() && (#[trigger] self.view_levels()[j]).1.contains(sv);
                if j < n {
                    assert(old_levels[j] == self.view_levels()[j]);
                }
            }
            if levels_any(old_levels, sv) {
                let j = choose|j: int| 0 <= j < old_levels.len() && (#[trigger] old_levels[j]).1.contains(sv);
                assert(self.view_levels()[j] == old_levels[j]);
            }
        }
    }

    /// Disables `service` at `runlevel` (`rc-update del`): its marker there is removed.
    pub fn disable(&mut self, service: &str, runlevel: &str)
        ensures
            disable_effect(*old(self), *final(self), service@, runlevel@),
    {
        let ghost old_levels = self.view_levels();
        let mut out: Vec<(String, Vec<String>)> = Vec::new();
        let mut i: usize = 0;
        while i < self.levels.len()
            invariant
                i <= self.levels@.len(),
                self.view_levels() == old_levels,
                out@.len() == i,
                forall|j: int| 0 <= j < i ==> (#[trigger] out@[j]).0@ == old_levels[j].0,
                forall|j: int, x: Seq<char>|
                    #![trigger strings_view(out@[j].1@).contains(x)]
                    #![trigger old_levels[j].1.contains(x)]
                    0 <= j < i ==> (strings_view(out@[j].1@).contains(x)
                    <==> (old_levels[j].1.contains(x) && !(old_levels[j].0 == runlevel@ && x == service@))),
            decreases self.levels@.len() - i,
        {
            let is_level = str_eq(self.levels[i].0.as_str(), runlevel);
            let src = &self.levels[i].1;
            let mut kept: Vec<String> = Vec::new();
            let mut m: usize = 0;
            while m < src.len()
                invariant
                    m <= src@.len(),
                    forall|x: Seq<char>| strings_view(kept@).contains(x) <==> (exists|q: int| 0 <= q < m && (#[trigger] src@[q])@ == x
                        && !(is_level && x == service@)),
                decreases src@.len() - m,
            {
                let drop = is_level && str_eq(src[m].as_str(), service);
                if !drop {
                    let ghost before = kept@;
                    kept.push(src[m].clone());
                    assert forall|x: Seq<char>| strings_view(kept@).contains(x) <==> (exists|q: int| 0 <= q < m + 1 && (#[trigger] src@[q])@ == x
                        && !(is_level && x == service@)) by {
                        if strings_view(kept@).contains(x) {
                            let p = choose|p: int| 0 <= p < strings_view(kept@).len() && strings_view(kept@)[p] == x;
                            if p < before.len() {
                                assert(strings_view(before)[p] == x);
                                assert(strings_view(before).contains(x));
                            } else {
                                assert(src@[m as int]@ == x);
                            }
                        }
                        if exists|q: int| 0 <= q < m + 1 && (#[trigger] src@[q])@ == x && !(is_level && x == service@) {
                            let q = choose|q: int| 0 <= q < m + 1 && (#[trigger] src@[q])@ == x && !(is_level && x == service@);
                            if q < m {
                                assert(strings_view(before).contains(x));
                                let p = choose|p: int| 0 <= p < strings_view(before).len() && strings_view(before)[p] == x;
                                assert(strings_view(kept@)[p] == x);
                            } else {
                                assert(strings_view(kept@)[before.len() as int] == x);
                            }
                        }
                    }
                } else {
                    assert forall|x: Seq<char>| strings_view(kept@).contains(x) <==> (exists|q: int| 0 <= q < m + 1 && (#[trigger] src@[q])@ == x
                        && !(is_level && x == service@)) by {
                        if exists|q: int| 0 <= q < m + 1 && (#[trigger] src@[q])@ == x && !(is_level && x == service@) {
                            let q = choose|q: int| 0 <= q < m + 1 && (#[trigger] src@[q])@ == x && !(is_level && x == service@);
                            assert(q < m);
                        }
                    }
                }
                m = m + 1;
            }
            assert forall|x: Seq<char>| strings_view(kept@).contains(x)
                <==> (old_levels[i as int].1.contains(x) && !(old_levels[i as int].0 == runlevel@ && x == service@)) by {
                if old_levels[i as int].1.contains(x) {
                    let q = choose|q: int| 0 <= q < old_levels[i as int].1.len() && old_levels[i as int].1[q] == x;
                    assert(src@[q]@ == x);
                }
                if exists|q: int| 0 <= q < src@.len() && (#[trigger] src@[q])@ == x && !(is_level && x == service@) {
                    let q = choose|q: int| 0 <= q < src@.len() && (#[trigger] src@[q])@ == x && !(is_level && x == service@);
                    assert(old_levels[i as int].1[q] == x);
                }
            }
            out.push((str_to_string(self.levels[i].0.as_str()), kept));
            i = i + 1;
        }
        self.levels = out;
        assert forall|l: Seq<char>, sv: Seq<char>|
            #![trigger self.has_marker(l, sv)]
            self.has_marker(l, sv) <==> (levels_have(old_levels, l, sv) && !(l == runlevel@ && sv == service@)) by {
            if self.has_marker(l, sv) {
                let j = choose|j: int| 0 <= j < self.view_levels().len() && (#[trigger] self.view_levels()[j]).0 == l
                    && self.view_levels()[j].1.contains(sv);
                assert(strings_view(self.levels@[j].1@).contains(sv));
            }
            if levels_have(old_levels, l, sv) && !(l == runlevel@ && sv == service@) {
                let j = choose|j: int| 0 <= j < old_levels.len() && (#[trigger] old_levels[j]).0 == l
                    && old_levels[j].1.contains(sv);
                assert(strings_view(self.levels@[j].1@).contains(sv));
                assert(self.view_levels()[j].1.contains(sv));
            }
        }
    }
}

/// A marker for `service` lies in the directory `level` of `levels`.
pub open spec fn levels_have(levels: Seq<(Seq<char>, Seq<Seq<char>>)>, level: Seq<char>, service: Seq<char>) -> bool {
    exists|i: int| 0 <= i < levels.len() && (#[trigger] levels[i]).0 == level && levels[i].1.contains(service)
}

/// A marker for `service` lies in some directory of `levels`.
pub open spec fn levels_any(levels: Seq<(Seq<char>, Seq<Seq<char>>)>, service: Seq<char>) -> bool {
    exists|i: int| 0 <= i < levels.len() && (#[trigger] levels[i]).1.contains(service)
}

/// `after` is `before` once `service` was enabled at `runlevel`: the database root
/// exists and the marker was added, nothing else changed.
pub open spec fn enable_effect(before: RcDatabase, after: RcDatabase, service: Seq<char>, runlevel: Seq<char>) -> bool {
    &&& after.root_exists
    &&& after.seeded == before.seeded
    &&& forall|l: Seq<char>, s: Seq<char>|
        #![trigger after.has_marker(l, s)]
        after.has_marker(l, s) <==> (before.has_marker(l, s) || (l == runlevel && s == service))
    &&& forall|s: Seq<char>|
        #![trigger after.any_marker(s)]
        after.any_marker(s) <==> (before.any_marker(s) || s == service)
}

/// `after` is `before` once `service` was disabled at `runlevel`: that one marker is
/// gone, nothing else changed.
pub open spec fn disable_effect(before: RcDatabase, after: RcDatabase, service: Seq<char>, runlevel: Seq<char>) -> bool {
    &&& after.root_exists == before.root_exists
    &&& after.seeded == before.seeded
    &&& forall|l: Seq<char>, s: Seq<char>|
        #![trigger after.has_marker(l, s)]
        after.has_marker(l, s) <==> (before.has_marker(l, s) && !(l == runlevel && s == service))
}

/// Enabling a service at a runlevel enables it at every runlevel that inherits that
/// one (`graphical` inherits `multi-user`, `boot` and `sysinit`), wherever its own
/// `runlevels` let it run.
pub proof fn law_enable_reaches_inheriting_levels(
    before: RcDatabase,
    after: RcDatabase,
    service: Seq<char>,
    runlevel: Seq<char>,
    at: Seq<char>,
    unit_runlevels: Seq<Seq<char>>,
)
    requires
        enable_effect(before, after, service, runlevel),
        ancestors(at).contains(runlevel),
        eligible(unit_runlevels, at),
    ensures
        after.enabled(service, at, unit_runlevels),
{
    let a = choose|a: int| 0 <= a < ancestors(at).len() && ancestors(at)[a] == runlevel;
    assert(after.has_marker(ancestors(at)[a], service));
}

/// In a seeded database, enabling a service at a runlevel does not enable it at a
/// runlevel that does not inherit that one (`boot` does not inherit `multi-user`;
/// `single` does not inherit `boot`), when nothing that runlevel inherits had it.
pub proof fn law_enable_stays_in_its_branch(
    before: RcDatabase,
    after: RcDatabase,
    service: Seq<char>,
    runlevel: Seq<char>,
    at: Seq<char>,
    unit_runlevels: Seq<Seq<char>>,
)
    requires
        enable_effect(before, after, service, runlevel),
        before.seeded,
        !ancestors(at).contains(runlevel),
        forall|a: int| 0 <= a < ancestors(at).len() ==> !before.has_marker(#[trigger] ancestors(at)[a], service),
    ensures
        !after.enabled(service, at, unit_runlevels),
{
    assert forall|a: int| 0 <= a < ancestors(at).len() implies !after.has_marker(#[trigger] ancestors(at)[a], service) by {
        assert(!before.has_marker(ancestors(at)[a], service));
        if ancestors(at)[a] == runlevel {
            assert(ancestors(at).contains(runlevel));
        }
    }
}

/// Disabling undoes enabling: in a seeded database where no runlevel that `at`
/// inherits had the service, enabling it at a runlevel and disabling it there again
/// leaves it disabled at `at`.
pub proof fn law_disable_undoes_enable(
    db0: RcDatabase,
    db1: RcDatabase,
    db2: RcDatabase,
    service: Seq<char>,
    runlevel: Seq<char>,
    at: Seq<char>,
    unit_runlevels: Seq<Seq<char>>,
)
    requires
        enable_effect(db0, db1, service, runlevel),
        disable_effect(db1, db2, service, runlevel),
        db0.seeded,
        forall|a: int| 0 <= a < ancestors(at).len() ==> !db0.has_marker(#[trigger] ancestors(at)[a], service),
    ensures
        !db2.enabled(service, at, unit_runlevels),
{
    assert forall|a: int| 0 <= a < ancestors(at).len() implies !db2.has_marker(#[trigger] ancestors(at)[a], service) by {
        assert(!db0.has_marker(ancestors(at)[a], service));
        assert(db1.has_marker(ancestors(at)[a], service) <==> (db0.has_marker(ancestors(at)[a], service)
            || (ancestors(at)[a] == runlevel)));
    }
}

/// The runlevel names are distinct from one another.
proof fn lemma_level_names_distinct()
    ensures
        "graphical"@ != "multi-user"@,
        "graphical"@ != "boot"@,
        "graphical"@ != "sysinit"@,
        "graphical"@ != "single"@,
        "graphical"@ != "rescue"@,
        "graphical"@ != "emergency"@,
        "multi-user"@ != "boot"@,
        "multi-user"@ != "sysinit"@,
        "multi-user"@ != "single"@,
        "multi-user"@ != "rescue"@,
        "multi-user"@ != "emergency"@,
        "boot"@ != "sysinit"@,
        "boot"@ != "single"@,
        "boot"@ != "rescue"@,
        "boot"@ != "emergency"@,
        "sysinit"@ != "single"@,
        "sysinit"@ != "rescue"@,
        "sysinit"@ != "emergency"@,
        "single"@ != "rescue"@,
        "single"@ != "emergency"@,
        "rescue"@ != "emergency"@,
{
    reveal_strlit("graphical");
    reveal_strlit("multi-user");
    reveal_strlit("boot");
    reveal_strlit("sysinit");
    reveal_strlit("single");
    reveal_strlit("rescue");
    reveal_strlit("emergency");
    assert("graphical"@.len() == 9);
    assert("multi-user"@.len() == 10);
    assert("boot"@.len() == 4);
    assert("sysinit"@.len() == 7);
    assert("single"@.len() == 6);
    assert("rescue"@.len() == 6);
    assert("emergency"@.len() == 9);
    assert("graphical"@[0] != "emergency"@[0]);
    assert("single"@[0] != "rescue"@[0]);
}

/// The inheritance chain of a runlevel, most specific first, ends in `sysinit`,
/// names no runlevel twice, and is closed under inheritance: each runlevel in it
/// inherits exactly the rest of the chain. `single` is a branch of its own that
/// neither `multi-user` nor `graphical` inherits.
pub proof fn law_runlevel_chain(r: Seq<char>)
    ensures
        ancestors(r).len() > 0 ==> ancestors(r).last() == "sysinit"@,
        forall|i: int, j: int| 0 <= i < j < ancestors(r).len() ==> ancestors(r)[i] != ancestors(r)[j],
        forall|i: int| 0 <= i < ancestors(r).len() ==> #[trigger] ancestors(ancestors(r)[i]) == ancestors(r).skip(i),
        !ancestors("multi-user"@).contains("single"@),
        !ancestors("graphical"@).contains("single"@),
{
    lemma_level_names_distinct();
    let a = ancestors(r);
    assert forall|i: int| 0 <= i < a.len() implies #[trigger] ancestors(a[i]) == a.skip(i) by {
        if r == "graphical"@ {
            assert(a.skip(1) =~= seq!["multi-user"@, "boot"@, "sysinit"@]);
            assert(a.skip(2) =~= seq!["boot"@, "sysinit"@]);
            assert(a.skip(3) =~= seq!["sysinit"@]);
        } else if r == "multi-user"@ {
            assert(a.skip(1) =~= seq!["boot"@, "sysinit"@]);
            assert(a.skip(2) =~= seq!["sysinit"@]);
        } else if r == "boot"@ {
            assert(a.skip(1) =~= seq!["sysinit"@]);
        } else if r == "single"@ || r == "rescue"@ || r == "emergency"@ {
            assert(a.skip(1) =~= seq!["sysinit"@]);
        }
        assert(a.skip(0) =~= a);
    }
    let mu = ancestors("multi-user"@);
    let g = ancestors("graphical"@);
    assert(!mu.contains("single"@)) by {
        if mu.contains("single"@) {
            let k = choose|k: int| 0 <= k < mu.len() && mu[k] == "single"@;
        }
    }
    assert(!g.contains("single"@)) by {
        if g.contains("single"@) {
            let k = choose|k: int| 0 <= k < g.len() && g[k] == "single"@;
        }
    }
}

/// A unit allowed to run at a runlevel may run at every runlevel that inherits it.
pub proof fn law_eligibility_inherited(unit_runlevels: Seq<Seq<char>>, r1: Seq<char>, r2: Seq<char>)
    requires
        ancestors(r2).contains(r1),
        eligible(unit_runlevels, r1),
    ensures
        eligible(unit_runlevels, r2),
{
    law_runlevel_chain(r2);
    let a2 = ancestors(r2);
    let p = choose|p: int| 0 <= p < a2.len() && a2[p] == r1;
    assert(ancestors(a2[p]) == a2.skip(p));
    if unit_runlevels.len() > 0 {
        let i = choose|i: int| 0 <= i < unit_runlevels.len() && ancestors(r1).contains(#[trigger] unit_runlevels[i]);
        let q = choose|q: int| 0 <= q < ancestors(r1).len() && ancestors(r1)[q] == unit_runlevels[i];
        assert(a2[p + q] == unit_runlevels[i]);
        assert(ancestors(r2).contains(unit_runlevels[i]));
    }
}

} // verus!
