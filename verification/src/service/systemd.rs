//! systemd unit files: sections of `Key=value` lines, and the names they use.
use vstd::prelude::*;
use crate::text::{
    chars_of, lower, lower_seq, split_lines, split_once, split_once_str, split_words, str_eq,
    str_eq_ignore_case, str_to_string, string_of_range, strings_view, strip_suffix,
    strip_suffix_str, trim, trim_str, words, lines,
};
use super::forge::RestartPolicy;
use crate::environment::{env_pair, pairs_view, parse_environment_line};
use super::manifest::ServiceType;

verus! {

/// The entries of an association list, a later entry of a key replacing an earlier one.
pub open spec fn assoc_map<A>(s: Seq<(Seq<char>, A)>) -> Map<Seq<char>, A>
    decreases s.len(),
{
    if s.len() == 0 {
        Map::empty()
    } else {
        assoc_map(s.drop_last()).insert(s.last().0, s.last().1)
    }
}

/// No key occurs twice.
pub open spec fn assoc_unique<A>(s: Seq<(Seq<char>, A)>) -> bool {
    forall|i: int, j: int| 0 <= i < s.len() && 0 <= j < s.len() && i != j ==> (#[trigger] s[i]).0 != (#[trigger] s[j]).0
}

pub proof fn lemma_assoc_absent<A>(s: Seq<(Seq<char>, A)>, k: Seq<char>)
    requires
        forall|i: int| 0 <= i < s.len() ==> (#[trigger] s[i]).0 != k,
    ensures
        !assoc_map(s).dom().contains(k),
    decreases s.len(),
{
    if s.len() > 0 {
        assert forall|i: int| 0 <= i < s.drop_last().len() implies (#[trigger] s.drop_last()[i]).0 != k by {
            assert(s.drop_last()[i] == s[i]);
        }
        lemma_assoc_absent(s.drop_last(), k);
    }
}

pub proof fn lemma_assoc_get<A>(s: Seq<(Seq<char>, A)>, j: int)
    requires
        assoc_unique(s),
        0 <= j < s.len(),
    ensures
        assoc_map(s).dom().contains(s[j].0),
        assoc_map(s)[s[j].0] == s[j].1,
    decreases s.len(),
{
    if j < s.len() - 1 {
        assert forall|a: int, b: int| 0 <= a < s.drop_last().len() && 0 <= b < s.drop_last().len() && a != b
            implies (#[trigger] s.drop_last()[a]).0 != (#[trigger] s.drop_last()[b]).0 by {
            assert(s.drop_last()[a] == s[a] && s.drop_last()[b] == s[b]);
        }
        assert(s.drop_last()[j] == s[j]);
        lemma_assoc_get(s.drop_last(), j);
        assert(s.last().0 != s[j].0);
    }
}

pub proof fn lemma_assoc_update<A>(s: Seq<(Seq<char>, A)>, j: int, v: A)
    requires
        assoc_unique(s),
        0 <= j < s.len(),
    ensures
        assoc_map(s.update(j, (s[j].0, v))) == assoc_map(s).insert(s[j].0, v),
        assoc_unique(s.update(j, (s[j].0, v))),
    decreases s.len(),
{
    let s2 = s.update(j, (s[j].0, v));
    assert forall|a: int, b: int| 0 <= a < s2.len() && 0 <= b < s2.len() && a != b
        implies (#[trigger] s2[a]).0 != (#[trigger] s2[b]).0 by {
        assert(s2[a].0 == s[a].0 && s2[b].0 == s[b].0);
    }
    if j == s.len() - 1 {
        assert(s2.drop_last() =~= s.drop_last());
        assert forall|i: int| 0 <= i < s.drop_last().len() implies (#[trigger] s.drop_last()[i]).0 != s[j].0 by {
            assert(s.drop_last()[i] == s[i]);
        }
        lemma_assoc_absent(s.drop_last(), s[j].0);
        assert(assoc_map(s2) =~= assoc_map(s).insert(s[j].0, v));
    } else {
        assert(s2.drop_last() =~= s.drop_last().update(j, (s[j].0, v)));
        assert forall|a: int, b: int| 0 <= a < s.drop_last().len() && 0 <= b < s.drop_last().len() && a != b
            implies (#[trigger] s.drop_last()[a]).0 != (#[trigger] s.drop_last()[b]).0 by {
            assert(s.drop_last()[a] == s[a] && s.drop_last()[b] == s[b]);
        }
        assert(s.drop_last()[j] == s[j]);
        lemma_assoc_update(s.drop_last(), j, v);
        assert(s.last().0 != s[j].0);
        assert(assoc_map(s2) =~= assoc_map(s).insert(s[j].0, v));
    }
}

pub proof fn lemma_assoc_push<A>(s: Seq<(Seq<char>, A)>, k: Seq<char>, v: A)
    requires
        assoc_unique(s),
        forall|i: int| 0 <= i < s.len() ==> (#[trigger] s[i]).0 != k,
    ensures
        assoc_map(s.push((k, v))) == assoc_map(s).insert(k, v),
        assoc_unique(s.push((k, v))),
{
    assert(s.push((k, v)).drop_last() =~= s);
    assert forall|a: int, b: int| 0 <= a < s.push((k, v)).len() && 0 <= b < s.push((k, v)).len() && a != b
        implies (#[trigger] s.push((k, v))[a]).0 != (#[trigger] s.push((k, v))[b]).0 by {
        if a < s.len() && b < s.len() {
            assert(s.push((k, v))[a] == s[a] && s.push((k, v))[b] == s[b]);
        } else if a < s.len() {
            assert(s.push((k, v))[a] == s[a]);
        } else {
            assert(s.push((k, v))[b] == s[b]);
        }
    }
}

/// A unit file: its sections, each with its keys and their values in order.
#[derive(Debug)]
pub struct SystemdUnit {
    pub sections: Vec<(String, Vec<(String, Vec<String>)>)>,
}

/// The keys of one section as plain values.
pub open spec fn keys_view(v: Seq<(String, Vec<String>)>) -> Seq<(Seq<char>, Seq<Seq<char>>)> {
    v.map_values(|e: (String, Vec<String>)| (e.0@, strings_view(e.1@)))
}

/// The sections as plain values.
pub open spec fn sections_view(v: Seq<(String, Vec<(String, Vec<String>)>)>) -> Seq<(Seq<char>, Map<Seq<char>, Seq<Seq<char>>>)> {
    v.map_values(|e: (String, Vec<(String, Vec<String>)>)| (e.0@, assoc_map(keys_view(e.1@))))
}

/// The sections hold no name twice, and no section a key twice.
pub open spec fn unit_wf(v: Seq<(String, Vec<(String, Vec<String>)>)>) -> bool {
    &&& assoc_unique(sections_view(v))
    &&& forall|i: int| 0 <= i < v.len() ==> assoc_unique(keys_view(#[trigger] v[i].1@))
}

/// What a parse has read: the current section and the sections so far.
pub struct UnitText {
    pub current: Seq<char>,
    pub sections: Map<Seq<char>, Map<Seq<char>, Seq<Seq<char>>>>,
}

/// The values of `key` in section `sec` of `m`, none when absent.
pub open spec fn values_of(m: Map<Seq<char>, Map<Seq<char>, Seq<Seq<char>>>>, sec: Seq<char>, key: Seq<char>) -> Seq<Seq<char>> {
    if m.dom().contains(sec) && m[sec].dom().contains(key) {
        m[sec][key]
    } else {
        Seq::empty()
    }
}

/// Reads one line: blank lines and `#` or `;` comments are skipped, `[name]`
/// opens a section, `key = value` adds a value to the key in the current section.
pub open spec fn read_line(st: UnitText, line: Seq<char>) -> UnitText {
    let l = trim(line);
    if l.len() == 0 || l[0] == '#' || l[0] == ';' {
        st
    } else if l[0] == '[' && l.last() == ']' {
        let name = l.subrange(1, l.len() - 1);
        UnitText {
            current: name,
            sections: if st.sections.dom().contains(name) { st.sections } else { st.sections.insert(name, Map::empty()) },
        }
    } else {
        match split_once(l, '=') {
            Some((k, v)) => {
                let sec = if st.sections.dom().contains(st.current) { st.sections[st.current] } else { Map::empty() };
                UnitText {
                    current: st.current,
                    sections: st.sections.insert(
                        st.current,
                        sec.insert(trim(k), values_of(st.sections, st.current, trim(k)).push(trim(v))),
                    ),
                }
            },
            None => st,
        }
    }
}

/// The text of a unit read line by line, starting in the unnamed section.
pub open spec fn read_lines(ls: Seq<Seq<char>>) -> UnitText
    decreases ls.len(),
{
    if ls.len() == 0 {
        UnitText { current: Seq::empty(), sections: Map::empty() }
    } else {
        read_line(read_lines(ls.drop_last()), ls.last())
    }
}

impl SystemdUnit {
    /// The sections as a map from section name to key to values.
    pub open spec fn view_map(&self) -> Map<Seq<char>, Map<Seq<char>, Seq<Seq<char>>>> {
        assoc_map(sections_view(self.sections@))
    }

    /// Position of section `name`.
    fn find_section(&self, name: &str) -> (r: Option<usize>)
        requires
            unit_wf(self.sections@),
        ensures
            match r {
                Some(i) => i < self.sections@.len() && self.sections@[i as int].0@ == name@
                    && self.view_map().dom().contains(name@)
                    && self.view_map()[name@] == assoc_map(keys_view(self.sections@[i as int].1@)),
                None => !self.view_map().dom().contains(name@)
                    && forall|j: int| 0 <= j < self.sections@.len() ==> (#[trigger] sections_view(self.sections@)[j]).0 != name@,
            },
    {
        let ghost sv = sections_view(self.sections@);
        let mut i: usize = 0;
        while i < self.sections.len() && !str_eq(self.sections[i].0.as_str(), name)
            invariant
                i <= self.sections@.len(),
                sv == sections_view(self.sections@),
                forall|j: int| 0 <= j < i ==> (#[trigger] sv[j]).0 != name@,
            decreases self.sections@.len() - i,
        {
            i = i + 1;
        }
        if i < self.sections.len() {
            proof {
                lemma_assoc_get(sv, i as int);
            }
            Some(i)
        } else {
            proof {
                lemma_assoc_absent(sv, name@);
            }
            None
        }
    }

    /// Parses the text of a unit file.
    pub fn parse(content: &str) -> (r: Self)
        ensures
            unit_wf(r.sections@),
            r.view_map() == read_lines(lines(content@)).sections,
    {
        let ls = split_lines(content);
        let ghost lv = strings_view(ls@);
        let mut unit = SystemdUnit { sections: Vec::new() };
        let mut current = String::new();
        let mut i: usize = 0;
        assert(lv.take(0) =~= Seq::<Seq<char>>::empty());
        assert(unit.view_map() =~= Map::<Seq<char>, Map<Seq<char>, Seq<Seq<char>>>>::empty());
        while i < ls.len()
            invariant
                i <= ls@.len(),
                lv == strings_view(ls@),
                lv == lines(content@),
                unit_wf(unit.sections@),
                read_lines(lv.take(i as int)) == (UnitText { current: current@, sections: unit.view_map() }),
            decreases ls@.len() - i,
        {
            assert(lv.take(i + 1).drop_last() =~= lv.take(i as int));
            assert(lv.take(i + 1).last() == ls@[i as int]@);
            let line = trim_str(ls[i].as_str());
            let lc = chars_of(line.as_str());
            let n = lc.len();
            if n == 0 || lc[0] == '#' || lc[0] == ';' {
            } else if lc[0] == '[' && lc[n - 1] == ']' {
                let name = string_of_range(lc.as_slice(), 1, n - 1);
                unit.open_section(&name);
                current = name;
            } else {
                match split_once_str(line.as_str(), '=') {
                    Some((k, v)) => {
                        let key = trim_str(k.as_str());
                        let value = trim_str(v.as_str());
                        unit.add_value(&current, key, value);
                    },
                    None => {},
                }
            }
            i = i + 1;
        }
        assert(lv.take(ls@.len() as int) =~= lv);
        unit
    }

    /// Makes sure section `name` exists.
    fn open_section(&mut self, name: &String)
        requires
            unit_wf(old(self).sections@),
        ensures
            unit_wf(final(self).sections@),
            final(self).view_map() == if old(self).view_map().dom().contains(name@) {
                old(self).view_map()
            } else {
                old(self).view_map().insert(name@, Map::empty())
            },
    {
        match self.find_section(name.as_str()) {
            Some(_) => {},
            None => {
                let ghost sv = sections_view(self.sections@);
                let ghost old_secs = self.sections@;
                self.sections.push((str_to_string(name.as_str()), Vec::new()));
                proof {
                    assert(keys_view(Seq::<(String, Vec<String>)>::empty()) =~= Seq::<(Seq<char>, Seq<Seq<char>>)>::empty());
                    assert(assoc_map(Seq::<(Seq<char>, Seq<Seq<char>>)>::empty()) =~= Map::<Seq<char>, Seq<Seq<char>>>::empty());
                    assert(sections_view(self.sections@) =~= sv.push((name@, Map::<Seq<char>, Seq<Seq<char>>>::empty())));
                    lemma_assoc_push(sv, name@, Map::<Seq<char>, Seq<Seq<char>>>::empty());
                    assert forall|i: int| 0 <= i < self.sections@.len() implies assoc_unique(keys_view(#[trigger] self.sections@[i].1@)) by {
                        if i < old_secs.len() {
                            assert(self.sections@[i] == old_secs[i]);
                        } else {
                            assert(keys_view(self.sections@[i].1@) =~= Seq::<(Seq<char>, Seq<Seq<char>>)>::empty());
                        }
                    }
                }
            },
        }
    }

    /// Adds `value` to `key` in section `section`, creating both as needed.
    fn add_value(&mut self, section: &String, key: String, value: String)
        requires
            unit_wf(old(self).sections@),
        ensures
            unit_wf(final(self).sections@),
            final(self).view_map() == old(self).view_map().insert(
                section@,
                (if old(self).view_map().dom().contains(section@) { old(self).view_map()[section@] } else { Map::empty() }).insert(
                    key@,
                    values_of(old(self).view_map(), section@, key@).push(value@),
                ),
            ),
    {
        self.open_section(section);
        let ghost m1 = self.view_map();
        let s = match self.find_section(section.as_str()) {
            Some(s) => s,
            None => {
                return;
            },
        };
        let ghost sv = sections_view(self.sections@);
        let ghost old_secs = self.sections@;
        let ghost kv = keys_view(self.sections@[s as int].1@);
        let keys = &self.sections[s].1;
        let mut j: usize = 0;
        while j < keys.len() && !str_eq(keys[j].0.as_str(), key.as_str())
            invariant
                j <= keys@.len(),
                kv == keys_view(keys@),
                forall|q: int| 0 <= q < j ==> (#[trigger] kv[q]).0 != key@,
            decreases keys@.len() - j,
        {
            j = j + 1;
        }
        let found = j < keys.len();
        let mut entry = self.sections.remove(s);
        let ghost e0 = entry.1@;
        assert(keys_view(e0) == kv);
        if found {
            proof {
                lemma_assoc_get(kv, j as int);
            }
            let mut e = entry.1.remove(j);
            let ghost ev = e.1@;
            e.1.push(value);
            let ghost e_new = e;
            entry.1.insert(j, e);
            proof {
                assert(entry.1@ =~= e0.update(j as int, e_new));
                assert(strings_view(e_new.1@) =~= strings_view(ev).push(value@));
                assert(keys_view(entry.1@) =~= kv.update(j as int, (kv[j as int].0, kv[j as int].1.push(value@))));
            }
        } else {
            proof {
                lemma_assoc_absent(kv, key@);
            }
            let mut vals: Vec<String> = Vec::new();
            vals.push(value);
            let ghost vv = vals@;
            assert(strings_view(vv) =~= seq![value@]);
            entry.1.push((key, vals));
            proof {
                assert(keys_view(entry.1@) =~= kv.push((key@, seq![value@])));
            }
        }
        self.sections.insert(s, entry);
        proof {
            let nk = self.sections@[s as int].1@;
            if found {
                lemma_assoc_update(kv, j as int, kv[j as int].1.push(value@));
            } else {
                lemma_assoc_push(kv, key@, seq![value@]);
                assert(seq![value@] =~= Seq::<Seq<char>>::empty().push(value@));
            }
            assert(sections_view(self.sections@) =~= sv.update(s as int, (sv[s as int].0, assoc_map(keys_view(nk)))));
            lemma_assoc_update(sv, s as int, assoc_map(keys_view(nk)));
            assert forall|i: int| 0 <= i < self.sections@.len() implies assoc_unique(keys_view(#[trigger] self.sections@[i].1@)) by {
                if i != s {
                    assert(self.sections@[i] == old_secs[i]);
                }
            }
        }
    }

    /// Makes sure section `name` exists.
    pub fn open_section_pub(&mut self, name: &String)
        requires
            unit_wf(old(self).sections@),
        ensures
            unit_wf(final(self).sections@),
            final(self).view_map() == if old(self).view_map().dom().contains(name@) {
                old(self).view_map()
            } else {
                old(self).view_map().insert(name@, Map::empty())
            },
    {
        self.open_section(name)
    }

    /// The keys of section `name`.
    pub fn section(&self, name: &str) -> (r: Option<&Vec<(String, Vec<String>)>>)
        requires
            unit_wf(self.sections@),
        ensures
            match r {
                Some(v) => self.view_map().dom().contains(name@) && assoc_map(keys_view(v@)) == self.view_map()[name@]
                    && assoc_unique(keys_view(v@)),
                None => !self.view_map().dom().contains(name@),
            },
    {
        match self.find_section(name) {
            Some(i) => Some(&self.sections[i].1),
            None => None,
        }
    }

    /// The values of `key` in section `section`, none when either is absent.
    pub fn values(&self, section: &str, key: &str) -> (r: Vec<String>)
        requires
            unit_wf(self.sections@),
        ensures
            strings_view(r@) == values_of(self.view_map(), section@, key@),
    {
        match self.section(section) {
            Some(keys) => {
                let ghost kv = keys_view(keys@);
                let mut j: usize = 0;
                while j < keys.len() && !str_eq(keys[j].0.as_str(), key)
                    invariant
                        j <= keys@.len(),
                        kv == keys_view(keys@),
                        forall|q: int| 0 <= q < j ==> (#[trigger] kv[q]).0 != key@,
                    decreases keys@.len() - j,
                {
                    j = j + 1;
                }
                if j < keys.len() {
                    proof {
                        lemma_assoc_get(kv, j as int);
                    }
                    let vals = &keys[j].1;
                    let mut out: Vec<String> = Vec::new();
                    let mut m: usize = 0;
                    while m < vals.len()
                        invariant
                            m <= vals@.len(),
                            strings_view(out@) == strings_view(vals@).take(m as int),
                        decreases vals@.len() - m,
                    {
                        let ghost before = strings_view(out@);
                        out.push(str_to_string(vals[m].as_str()));
                        assert(strings_view(out@) =~= before.push(vals@[m as int]@));
                        assert(strings_view(vals@).take(m + 1) =~= strings_view(vals@).take(m as int).push(vals@[m as int]@));
                        m = m + 1;
                    }
                    assert(strings_view(vals@).take(vals@.len() as int) =~= strings_view(vals@));
                    out
                } else {
                    proof {
                        lemma_assoc_absent(kv, key@);
                    }
                    let out: Vec<String> = Vec::new();
                    assert(strings_view(out@) =~= Seq::<Seq<char>>::empty());
                    out
                }
            },
            None => {
                let out: Vec<String> = Vec::new();
                assert(strings_view(out@) =~= Seq::<Seq<char>>::empty());
                out
            },
        }
    }

    /// The first value of `key` in section `section`.
    pub fn get(&self, section: &str, key: &str) -> (r: Option<String>)
        requires
            unit_wf(self.sections@),
        ensures
            values_of(self.view_map(), section@, key@).len() == 0 ==> r is None,
            values_of(self.view_map(), section@, key@).len() > 0 ==> (r matches Some(v)
                && v@ == values_of(self.view_map(), section@, key@)[0]),
    {
        let vals = self.values(section, key);
        if vals.len() > 0 {
            assert(strings_view(vals@)[0] == vals@[0]@);
            Some(str_to_string(vals[0].as_str()))
        } else {
            None
        }
    }

    /// The unit names listed by `key` in section `section`: each value split at
    /// whitespace, each word normalized.
    pub fn list(&self, section: &str, key: &str) -> (r: Vec<String>)
        requires
            unit_wf(self.sections@),
        ensures
            strings_view(r@) == listed_names(values_of(self.view_map(), section@, key@)),
    {
        let vals = self.values(section, key);
        let ghost vv = strings_view(vals@);
        let mut out: Vec<String> = Vec::new();
        let mut i: usize = 0;
        assert(vv.take(0) =~= Seq::<Seq<char>>::empty());
        while i < vals.len()
            invariant
                i <= vals@.len(),
                vv == strings_view(vals@),
                strings_view(out@) == listed_names(vv.take(i as int)),
            decreases vals@.len() - i,
        {
            assert(vv.take(i + 1).drop_last() =~= vv.take(i as int));
            assert(vv.take(i + 1).last() == vals@[i as int]@);
            let parts = split_words(vals[i].as_str());
            let ghost before = strings_view(out@);
            let ghost pv = strings_view(parts@);
            let mut j: usize = 0;
            while j < parts.len()
                invariant
                    j <= parts@.len(),
                    pv == strings_view(parts@),
                    strings_view(out@) == before + pv.take(j as int).map_values(|w: Seq<char>| normalized(w)),
                decreases parts@.len() - j,
            {
                let ghost b2 = strings_view(out@);
                out.push(normalize_unit_name(parts[j].as_str()));
                assert(strings_view(out@) =~= b2.push(normalized(parts@[j as int]@)));
                assert(pv[j as int] == parts@[j as int]@);
                j = j + 1;
                assert(pv.take(j as int).map_values(|w: Seq<char>| normalized(w)) =~= pv.take(j - 1).map_values(
                    |w: Seq<char>| normalized(w)).push(normalized(pv[j - 1])));
                assert(strings_view(out@) =~= before + pv.take(j as int).map_values(|w: Seq<char>| normalized(w)));
            }
            assert(pv.take(parts@.len() as int) =~= pv);
            i = i + 1;
        }
        assert(vv.take(vals@.len() as int) =~= vv);
        out
    }
}

/// A unit name without its type suffix: `.service` is stripped from the trimmed
/// name; `.socket`, `.target`, `.device`, `.timer` and `.mount` from the name as given.
pub open spec fn normalized(name: Seq<char>) -> Seq<char> {
    if strip_suffix(trim(name), ".service"@) is Some {
        strip_suffix(trim(name), ".service"@)->0
    } else if strip_suffix(name, ".socket"@) is Some {
        strip_suffix(name, ".socket"@)->0
    } else if strip_suffix(name, ".target"@) is Some {
        strip_suffix(name, ".target"@)->0
    } else if strip_suffix(name, ".device"@) is Some {
        strip_suffix(name, ".device"@)->0
    } else if strip_suffix(name, ".timer"@) is Some {
        strip_suffix(name, ".timer"@)->0
    } else if strip_suffix(name, ".mount"@) is Some {
        strip_suffix(name, ".mount"@)->0
    } else {
        name
    }
}

/// The names a list of values gives: every word of every value, normalized.
pub open spec fn listed_names(vals: Seq<Seq<char>>) -> Seq<Seq<char>>
    decreases vals.len(),
{
    if vals.len() == 0 {
        Seq::empty()
    } else {
        listed_names(vals.drop_last()) + words(vals.last()).map_values(|w: Seq<char>| normalized(w))
    }
}

/// Strips the unit type suffix from `name`.
pub fn normalize_unit_name(name: &str) -> (r: String)
    ensures
        r@ == normalized(name@),
{
    let t = trim_str(name);
    match strip_suffix_str(t.as_str(), ".service") {
        Some(s) => {
            return s;
        },
        None => {},
    }
    match strip_suffix_str(name, ".socket") {
        Some(s) => {
            return s;
        },
        None => {},
    }
    match strip_suffix_str(name, ".target") {
        Some(s) => {
            return s;
        },
        None => {},
    }
    match strip_suffix_str(name, ".device") {
        Some(s) => {
            return s;
        },
        None => {},
    }
    match strip_suffix_str(name, ".timer") {
        Some(s) => {
            return s;
        },
        None => {},
    }
    match strip_suffix_str(name, ".mount") {
        Some(s) => {
            return s;
        },
        None => {},
    }
    str_to_string(name)
}

/// What `Path::file_stem` gives for `path`.
pub uninterp spec fn file_stem_of(path: Seq<char>) -> Option<Seq<char>>;

/// `Path::file_stem`: the claim is only that the result is a function of the path.
#[verifier::external_body]
fn path_file_stem(path: &str) -> (r: Option<String>)
    ensures
        match file_stem_of(path@) {
            Some(s) => r matches Some(x) && x@ == s,
            None => r is None,
        },
{
    std::path::Path::new(path).file_stem().and_then(|s| s.to_str()).map(|s| s.to_string())
}

/// The unit name of the unit file at `path`: its file stem, normalized; `"unknown"`
/// when the path has none.
pub fn unit_name_from_path(path: &str) -> (r: String)
    ensures
        r@ == match file_stem_of(path@) {
            Some(s) => normalized(s),
            None => "unknown"@,
        },
{
    match path_file_stem(path) {
        Some(s) => normalize_unit_name(s.as_str()),
        None => "unknown".to_string(),
    }
}

/// The restart policy a `Restart=` value names, ignoring ASCII case.
pub open spec fn restart_of(value: Seq<char>) -> RestartPolicy {
    let l = lower_seq(value);
    if l == lower_seq("always"@) {
        RestartPolicy::Always
    } else if l == lower_seq("on-failure"@) || l == lower_seq("on-abnormal"@) || l == lower_seq("on-abort"@) || l == lower_seq("on-watchdog"@) {
        RestartPolicy::OnFailure
    } else {
        RestartPolicy::No
    }
}

/// The `Restart=` values, in any ASCII case: `always` restarts after every exit;
/// `on-failure`, `on-abnormal`, `on-abort` and `on-watchdog` restart after a failure;
/// `no`, and any value not listed here, never restart.
pub proof fn law_restart_values(value: Seq<char>)
    ensures
        lower_seq(value) == "always"@ ==> restart_of(value) == RestartPolicy::Always,
        lower_seq(value) == "on-failure"@ ==> restart_of(value) == RestartPolicy::OnFailure,
        lower_seq(value) == "on-abnormal"@ ==> restart_of(value) == RestartPolicy::OnFailure,
        lower_seq(value) == "on-abort"@ ==> restart_of(value) == RestartPolicy::OnFailure,
        lower_seq(value) == "on-watchdog"@ ==> restart_of(value) == RestartPolicy::OnFailure,
        lower_seq(value) == "no"@ ==> restart_of(value) == RestartPolicy::No,
        lower_seq(value) != "always"@ && lower_seq(value) != "on-failure"@ && lower_seq(value) != "on-abnormal"@
            && lower_seq(value) != "on-abort"@ && lower_seq(value) != "on-watchdog"@
            ==> restart_of(value) == RestartPolicy::No,
{
    reveal_strlit("always");
    reveal_strlit("on-failure");
    reveal_strlit("on-abnormal");
    reveal_strlit("on-abort");
    reveal_strlit("on-watchdog");
    reveal_strlit("no");
    let names = seq!["always"@, "on-failure"@, "on-abnormal"@, "on-abort"@, "on-watchdog"@];
    assert forall|a: Seq<char>| names.contains(a) implies #[trigger] lower_seq(a) =~= a by {
        let k = choose|k: int| 0 <= k < names.len() && names[k] == a;
        assert forall|i: int| 0 <= i < a.len() implies lower(a[i]) == a[i] by {
            if k == 0 { assert(a =~= seq!['a', 'l', 'w', 'a', 'y', 's']); }
            else if k == 1 { assert(a =~= seq!['o', 'n', '-', 'f', 'a', 'i', 'l', 'u', 'r', 'e']); }
            else if k == 2 { assert(a =~= seq!['o', 'n', '-', 'a', 'b', 'n', 'o', 'r', 'm', 'a', 'l']); }
            else if k == 3 { assert(a =~= seq!['o', 'n', '-', 'a', 'b', 'o', 'r', 't']); }
            else { assert(a =~= seq!['o', 'n', '-', 'w', 'a', 't', 'c', 'h', 'd', 'o', 'g']); }
        }
    }
    assert(names.contains(names[0]) && names.contains(names[1]) && names.contains(names[2]));
    assert(names.contains(names[3]) && names.contains(names[4]));
    assert(lower_seq("always"@) == "always"@);
    assert(lower_seq("on-failure"@) == "on-failure"@);
    assert(lower_seq("on-abnormal"@) == "on-abnormal"@);
    assert(lower_seq("on-abort"@) == "on-abort"@);
    assert(lower_seq("on-watchdog"@) == "on-watchdog"@);
    assert("on-abnormal"@[3] != "on-watchdog"@[3]);
}

/// Maps a `Restart=` value to a restart policy.
pub fn map_restart(value: &str) -> (r: RestartPolicy)
    ensures
        r == restart_of(value@),
{
    if str_eq_ignore_case(value, "always") {
        RestartPolicy::Always
    } else if str_eq_ignore_case(value, "on-failure") || str_eq_ignore_case(value, "on-abnormal")
        || str_eq_ignore_case(value, "on-abort") || str_eq_ignore_case(value, "on-watchdog") {
        RestartPolicy::OnFailure
    } else {
        RestartPolicy::No
    }
}

/// The service type a `Type=` value names, ignoring ASCII case.
pub open spec fn service_type_of(value: Seq<char>) -> ServiceType {
    let l = lower_seq(value);
    if l == lower_seq("notify"@) {
        ServiceType::Notify
    } else if l == lower_seq("notify-reload"@) {
        ServiceType::NotifyReload
    } else if l == lower_seq("oneshot"@) {
        ServiceType::Oneshot
    } else if l == lower_seq("dbus"@) {
        ServiceType::Dbus
    } else if l == lower_seq("forking"@) {
        ServiceType::Forking
    } else {
        ServiceType::Simple
    }
}

/// Maps a `Type=` value to a service type.
pub fn map_service_type(value: &str) -> (r: ServiceType)
    ensures
        r == service_type_of(value@),
{
    if str_eq_ignore_case(value, "notify") {
        ServiceType::Notify
    } else if str_eq_ignore_case(value, "notify-reload") {
        ServiceType::NotifyReload
    } else if str_eq_ignore_case(value, "oneshot") {
        ServiceType::Oneshot
    } else if str_eq_ignore_case(value, "dbus") {
        ServiceType::Dbus
    } else if str_eq_ignore_case(value, "forking") {
        ServiceType::Forking
    } else {
        ServiceType::Simple
    }
}


/// The words `shell_words::split` makes of `line`, or nothing when a quote is not closed.
pub uninterp spec fn shell_split(line: Seq<char>) -> Option<Seq<Seq<char>>>;

/// `shell_words::split`: the words are a function of the line; its only error,
/// `ParseError`, reads "missing closing quote".
#[verifier::external_body]
fn shell_words_split(line: &str) -> (r: Result<Vec<String>, String>)
    ensures
        match shell_split(line@) {
            Some(w) => r matches Ok(v) && strings_view(v@) == w,
            None => r matches Err(e) && e@ == "missing closing quote"@,
        },
{
    shell_words::split(line).map_err(|e| e.to_string())
}

/// Splits an `ExecStart=` line into the program and its arguments.
pub fn parse_exec_start(line: &str) -> (r: Result<(String, Vec<String>), String>)
    ensures
        match shell_split(line@) {
            None => r matches Err(e) && e@ == "missing closing quote"@,
            Some(w) => if w.len() == 0 {
                r matches Err(e) && e@ == "ExecStart is empty"@
            } else {
                r matches Ok((p, a)) && p@ == w[0] && strings_view(a@) == w.drop_first()
            },
        },
{
    let parts = match shell_words_split(line) {
        Ok(p) => p,
        Err(e) => {
            return Err(e);
        },
    };
    if parts.len() == 0 {
        return Err("ExecStart is empty".to_string());
    }
    let program = str_to_string(parts[0].as_str());
    let mut args: Vec<String> = Vec::new();
    let mut i: usize = 1;
    let ghost pv = strings_view(parts@);
    assert(strings_view(args@) =~= pv.subrange(1, 1));
    while i < parts.len()
        invariant
            1 <= i <= parts@.len(),
            pv == strings_view(parts@),
            strings_view(args@) == pv.subrange(1, i as int),
        decreases parts@.len() - i,
    {
        let ghost before = strings_view(args@);
        args.push(str_to_string(parts[i].as_str()));
        assert(strings_view(args@) =~= before.push(parts@[i as int]@));
        assert(pv.subrange(1, i + 1) =~= pv.subrange(1, i as int).push(parts@[i as int]@));
        i = i + 1;
    }
    assert(pv.subrange(1, pv.len() as int) =~= pv.drop_first());
    assert(pv[0] == parts@[0]@);
    Ok((program, args))
}

/// The paths an `EnvironmentFile=` line names, in order.
pub open spec fn env_file_paths(vals: Seq<Seq<char>>) -> Seq<Seq<char>>
    decreases vals.len(),
{
    if vals.len() == 0 {
        Seq::empty()
    } else {
        env_file_paths(vals.drop_last()) + words(vals.last())
    }
}

/// The environment files a service names in `EnvironmentFile=`, in the order
/// they are read.
pub fn environment_file_paths(unit: &SystemdUnit) -> (r: Vec<String>)
    requires
        unit_wf(unit.sections@),
    ensures
        strings_view(r@) == env_file_paths(values_of(unit.view_map(), "Service"@, "EnvironmentFile"@)),
{
    let vals = unit.values("Service", "EnvironmentFile");
    let ghost vv = strings_view(vals@);
    let mut out: Vec<String> = Vec::new();
    let mut i: usize = 0;
    assert(vv.take(0) =~= Seq::<Seq<char>>::empty());
    while i < vals.len()
        invariant
            i <= vals@.len(),
            vv == strings_view(vals@),
            strings_view(out@) == env_file_paths(vv.take(i as int)),
        decreases vals@.len() - i,
    {
        assert(vv.take(i + 1).drop_last() =~= vv.take(i as int));
        assert(vv.take(i + 1).last() == vals@[i as int]@);
        let ws = split_words(vals[i].as_str());
        let ghost before = strings_view(out@);
        let ghost wv = strings_view(ws@);
        let mut j: usize = 0;
        while j < ws.len()
            invariant
                j <= ws@.len(),
                wv == strings_view(ws@),
                strings_view(out@) == before + wv.take(j as int),
            decreases ws@.len() - j,
        {
            let ghost b2 = strings_view(out@);
            out.push(str_to_string(ws[j].as_str()));
            assert(strings_view(out@) =~= b2.push(ws@[j as int]@));
            assert(wv.take(j + 1) =~= wv.take(j as int).push(ws@[j as int]@));
            j = j + 1;
        }
        assert(wv.take(ws@.len() as int) =~= wv);
        i = i + 1;
    }
    assert(vv.take(vals@.len() as int) =~= vv);
    out
}

/// The pairs the `KEY=value` items give, skipping items without `=`.
pub open spec fn item_pairs(items: Seq<Seq<char>>) -> Seq<(Seq<char>, Seq<char>)>
    decreases items.len(),
{
    if items.len() == 0 {
        Seq::empty()
    } else {
        let r = item_pairs(items.drop_last());
        match env_pair(items.last()) {
            Some(p) => r.push(p),
            None => r,
        }
    }
}

/// The pairs of `Environment=` lines: each line split as a shell would, or at
/// whitespace when its quotes do not close.
pub open spec fn environment_pairs(lines: Seq<Seq<char>>) -> Seq<(Seq<char>, Seq<char>)>
    decreases lines.len(),
{
    if lines.len() == 0 {
        Seq::empty()
    } else {
        environment_pairs(lines.drop_last()) + item_pairs(
            match shell_split(lines.last()) {
                Some(w) => w,
                None => words(lines.last()),
            },
        )
    }
}

/// Appends the pairs of `items` to `env`.
fn push_item_pairs(env: &mut Vec<(String, String)>, items: &Vec<String>)
    ensures
        pairs_view(final(env)@) == pairs_view(old(env)@) + item_pairs(strings_view(items@)),
{
    let ghost iv = strings_view(items@);
    let ghost e0 = pairs_view(env@);
    let mut i: usize = 0;
    assert(iv.take(0) =~= Seq::<Seq<char>>::empty());
    assert(e0 + item_pairs(iv.take(0)) =~= e0);
    while i < items.len()
        invariant
            i <= items@.len(),
            iv == strings_view(items@),
            e0 == pairs_view(old(env)@),
            pairs_view(env@) == e0 + item_pairs(iv.take(i as int)),
        decreases items@.len() - i,
    {
        assert(iv.take(i + 1).drop_last() =~= iv.take(i as int));
        assert(iv.take(i + 1).last() == items@[i as int]@);
        let ghost before = pairs_view(env@);
        match parse_environment_line(items[i].as_str()) {
            Some(p) => {
                let ghost pv = (p.0@, p.1@);
                env.push(p);
                assert(pairs_view(env@) =~= before.push(pv));
            },
            None => {},
        }
        i = i + 1;
    }
    assert(iv.take(items@.len() as int) =~= iv);
}

/// The environment of a service: the pairs read from its environment files
/// (`file_pairs`, in the order of `environment_file_paths`), then those of its
/// `Environment=` lines.
pub fn collect_service_environment(unit: &SystemdUnit, file_pairs: Vec<(String, String)>) -> (r: Vec<(String, String)>)
    requires
        unit_wf(unit.sections@),
    ensures
        pairs_view(r@) == pairs_view(file_pairs@) + environment_pairs(values_of(unit.view_map(), "Service"@, "Environment"@)),
{
    let mut env = file_pairs;
    let ghost e0 = pairs_view(env@);
    let lines = unit.values("Service", "Environment");
    let ghost lv = strings_view(lines@);
    let mut i: usize = 0;
    assert(lv.take(0) =~= Seq::<Seq<char>>::empty());
    assert(e0 + environment_pairs(lv.take(0)) =~= e0);
    while i < lines.len()
        invariant
            i <= lines@.len(),
            lv == strings_view(lines@),
            pairs_view(env@) == e0 + environment_pairs(lv.take(i as int)),
        decreases lines@.len() - i,
    {
        assert(lv.take(i + 1).drop_last() =~= lv.take(i as int));
        assert(lv.take(i + 1).last() == lines@[i as int]@);
        let items = match shell_words_split(lines[i].as_str()) {
            Ok(parts) => parts,
            Err(_) => split_words(lines[i].as_str()),
        };
        let ghost before = pairs_view(env@);
        push_item_pairs(&mut env, &items);
        assert(pairs_view(env@) =~= e0 + environment_pairs(lv.take(i + 1)));
        i = i + 1;
    }
    assert(lv.take(lines@.len() as int) =~= lv);
    env
}

} // verus!
