//! Drop-in fragments that amend a unit: `<unit>.d/*.conf` and TOML tables.
use vstd::prelude::*;
use super::manifest::ServiceManifest;
use super::systemd::{
    assoc_map, assoc_unique, keys_view, lemma_assoc_absent, lemma_assoc_get, lemma_assoc_push,
    lemma_assoc_update, sections_view, unit_wf, values_of, SystemdUnit,
};
use crate::text::{concat, join, join_path, split_once, split_once_str, split_words, str_eq,
    str_to_string, strings_view, words};

verus! {

/// `m` with each key of `keys` set to its values.
pub open spec fn overlay_keys(m: Map<Seq<char>, Seq<Seq<char>>>, keys: Seq<(Seq<char>, Seq<Seq<char>>)>) -> Map<Seq<char>, Seq<Seq<char>>>
    decreases keys.len(),
{
    if keys.len() == 0 {
        m
    } else {
        overlay_keys(m, keys.drop_last()).insert(keys.last().0, keys.last().1)
    }
}

/// The sections of `m` with the sections `secs` laid over them key by key.
pub open spec fn overlay_sections(
    m: Map<Seq<char>, Map<Seq<char>, Seq<Seq<char>>>>,
    secs: Seq<(Seq<char>, Seq<(Seq<char>, Seq<Seq<char>>)>)>,
) -> Map<Seq<char>, Map<Seq<char>, Seq<Seq<char>>>>
    decreases secs.len(),
{
    if secs.len() == 0 {
        m
    } else {
        let before = overlay_sections(m, secs.drop_last());
        let name = secs.last().0;
        let base = if before.dom().contains(name) { before[name] } else { Map::empty() };
        before.insert(name, overlay_keys(base, secs.last().1))
    }
}

/// The sections of a unit as a list of their key lists.
pub open spec fn section_lists(v: Seq<(String, Vec<(String, Vec<String>)>)>) -> Seq<(Seq<char>, Seq<(Seq<char>, Seq<Seq<char>>)>)> {
    v.map_values(|e: (String, Vec<(String, Vec<String>)>)| (e.0@, keys_view(e.1@)))
}

impl SystemdUnit {
    /// Sets `key` in section `section` to `values`, creating both as needed.
    pub fn set_values(&mut self, section: &String, key: &String, values: &Vec<String>)
        requires
            unit_wf(old(self).sections@),
        ensures
            unit_wf(final(self).sections@),
            final(self).view_map() == old(self).view_map().insert(
                section@,
                (if old(self).view_map().dom().contains(section@) { old(self).view_map()[section@] } else { Map::empty() }).insert(
                    key@,
                    strings_view(values@),
                ),
            ),
    {
        let ghost sv0 = sections_view(self.sections@);
        let mut s: usize = 0;
        while s < self.sections.len() && !str_eq(self.sections[s].0.as_str(), section.as_str())
            invariant
                s <= self.sections@.len(),
                sv0 == sections_view(self.sections@),
                forall|q: int| 0 <= q < s ==> (#[trigger] sv0[q]).0 != section@,
            decreases self.sections@.len() - s,
        {
            s = s + 1;
        }
        let mut copied: Vec<String> = Vec::new();
        let mut i: usize = 0;
        while i < values.len()
            invariant
                i <= values@.len(),
                strings_view(copied@) == strings_view(values@).take(i as int),
            decreases values@.len() - i,
        {
            let ghost before = strings_view(copied@);
            copied.push(str_to_string(values[i].as_str()));
            assert(strings_view(copied@) =~= before.push(values@[i as int]@));
            assert(strings_view(values@).take(i + 1) =~= strings_view(values@).take(i as int).push(values@[i as int]@));
            i = i + 1;
        }
        assert(strings_view(values@).take(values@.len() as int) =~= strings_view(values@));
        if s == self.sections.len() {
            proof {
                lemma_assoc_absent(sv0, section@);
            }
            let ghost old_secs = self.sections@;
            let mut keys: Vec<(String, Vec<String>)> = Vec::new();
            let ghost cv = strings_view(copied@);
            keys.push((str_to_string(key.as_str()), copied));
            proof {
                assert(keys_view(keys@) =~= seq![(key@, cv)]);
                assert(seq![(key@, cv)].drop_last() =~= Seq::<(Seq<char>, Seq<Seq<char>>)>::empty());
                assert(assoc_map(seq![(key@, cv)].drop_last()) =~= Map::<Seq<char>, Seq<Seq<char>>>::empty());
                assert(assoc_map(keys_view(keys@)) =~= Map::<Seq<char>, Seq<Seq<char>>>::empty().insert(key@, cv));
            }
            let ghost km = assoc_map(keys_view(keys@));
            self.sections.push((str_to_string(section.as_str()), keys));
            proof {
                assert(sections_view(self.sections@) =~= sv0.push((section@, km)));
                lemma_assoc_push(sv0, section@, km);
                assert forall|i: int| 0 <= i < self.sections@.len() implies assoc_unique(keys_view(#[trigger] self.sections@[i].1@)) by {
                    if i < old_secs.len() {
                        assert(self.sections@[i] == old_secs[i]);
                    }
                }
            }
        } else {
            proof {
                lemma_assoc_get(sv0, s as int);
            }
            let ghost old_secs = self.sections@;
            let mut entry = self.sections.remove(s);
            let ghost kv = keys_view(entry.1@);
            assert(kv == keys_view(old_secs[s as int].1@));
            let mut j: usize = 0;
            while j < entry.1.len() && !str_eq(entry.1[j].0.as_str(), key.as_str())
                invariant
                    j <= entry.1@.len(),
                    kv == keys_view(entry.1@),
                    forall|q: int| 0 <= q < j ==> (#[trigger] kv[q]).0 != key@,
                decreases entry.1@.len() - j,
            {
                j = j + 1;
            }
            let ghost cv = strings_view(copied@);
            if j < entry.1.len() {
                proof {
                    lemma_assoc_get(kv, j as int);
                }
                let mut e = entry.1.remove(j);
                e.1 = copied;
                let ghost en = e;
                entry.1.insert(j, e);
                proof {
                    assert(keys_view(entry.1@) =~= kv.update(j as int, (kv[j as int].0, cv)));
                    lemma_assoc_update(kv, j as int, cv);
                }
            } else {
                proof {
                    lemma_assoc_absent(kv, key@);
                }
                entry.1.push((str_to_string(key.as_str()), copied));
                proof {
                    assert(keys_view(entry.1@) =~= kv.push((key@, cv)));
                    lemma_assoc_push(kv, key@, cv);
                }
            }
            let ghost km = assoc_map(keys_view(entry.1@));
            self.sections.insert(s, entry);
            proof {
                assert(sections_view(self.sections@) =~= sv0.update(s as int, (sv0[s as int].0, km)));
                lemma_assoc_update(sv0, s as int, km);
                assert forall|i: int| 0 <= i < self.sections@.len() implies assoc_unique(keys_view(#[trigger] self.sections@[i].1@)) by {
                    if i != s {
                        assert(self.sections@[i] == old_secs[i]);
                    }
                }
            }
        }
    }
}

/// Lays the sections of `overlay` over `base`: each key the overlay sets replaces
/// the base's values of that key; sections the overlay lacks stay as they are.
pub fn merge_systemd_unit(base: &mut SystemdUnit, overlay: &SystemdUnit)
    requires
        unit_wf(old(base).sections@),
    ensures
        unit_wf(final(base).sections@),
        final(base).view_map() == overlay_sections(old(base).view_map(), section_lists(overlay.sections@)),
{
    let ghost secs = section_lists(overlay.sections@);
    let ghost m0 = base.view_map();
    let mut i: usize = 0;
    assert(secs.take(0) =~= Seq::<(Seq<char>, Seq<(Seq<char>, Seq<Seq<char>>)>)>::empty());
    while i < overlay.sections.len()
        invariant
            i <= overlay.sections@.len(),
            secs == section_lists(overlay.sections@),
            m0 == old(base).view_map(),
            unit_wf(base.sections@),
            base.view_map() == overlay_sections(m0, secs.take(i as int)),
        decreases overlay.sections@.len() - i,
    {
        let section = &overlay.sections[i].0;
        let keys = &overlay.sections[i].1;
        let ghost kv = keys_view(keys@);
        let ghost before = base.view_map();
        let ghost basesec = if before.dom().contains(section@) { before[section@] } else { Map::<Seq<char>, Seq<Seq<char>>>::empty() };
        assert(secs[i as int] == (section@, kv));
        assert(secs.take(i + 1).drop_last() =~= secs.take(i as int));
        if keys.len() == 0 {
            let empty: Vec<String> = Vec::new();
            let ghost m1 = base.view_map();
            proof {
                assert(kv =~= Seq::<(Seq<char>, Seq<Seq<char>>)>::empty());
            }
            base.open_section_pub(section);
            assert(base.view_map() =~= before.insert(section@, overlay_keys(basesec, kv)));
        } else {
            let mut j: usize = 0;
            assert(kv.take(0) =~= Seq::<(Seq<char>, Seq<Seq<char>>)>::empty());
            while j < keys.len()
                invariant
                    j <= keys@.len(),
                    kv == keys_view(keys@),
                    keys@.len() > 0,
                    basesec == (if before.dom().contains(section@) { before[section@] } else { Map::<Seq<char>, Seq<Seq<char>>>::empty() }),
                    unit_wf(base.sections@),
                    j > 0 ==> base.view_map() == before.insert(section@, overlay_keys(basesec, kv.take(j as int))),
                    j == 0 ==> base.view_map() == before,
                decreases keys@.len() - j,
            {
                assert(kv.take(j + 1).drop_last() =~= kv.take(j as int));
                assert(kv[j as int] == (keys@[j as int].0@, strings_view(keys@[j as int].1@)));
                let ghost pre = base.view_map();
                base.set_values(section, &keys[j].0, &keys[j].1);
                proof {
                    let ps = if pre.dom().contains(section@) { pre[section@] } else { Map::<Seq<char>, Seq<Seq<char>>>::empty() };
                    assert(base.view_map() == pre.insert(section@, ps.insert(kv[j as int].0, kv[j as int].1)));
                    if j == 0 {
                        assert(pre == before);
                        assert(ps == basesec);
                        assert(kv.take(0) =~= Seq::<(Seq<char>, Seq<Seq<char>>)>::empty());
                        assert(kv.take(1).drop_last() =~= kv.take(0));
                        assert(overlay_keys(basesec, kv.take(0)) == basesec);
                        assert(kv.take(1).last() == kv[0]);
                        assert(overlay_keys(basesec, kv.take(1)) == basesec.insert(kv[0].0, kv[0].1));
                        assert(base.view_map() =~= before.insert(section@, overlay_keys(basesec, kv.take(1))));
                    } else {
                        assert(base.view_map() =~= before.insert(section@, overlay_keys(basesec, kv.take(j + 1))));
                    }
                }
                j = j + 1;
            }
            assert(kv.take(keys@.len() as int) =~= kv);
        }
        i = i + 1;
    }
    assert(secs.take(overlay.sections@.len() as int) =~= secs);
}

/// The drop-in directories of `unit_name`, in the order they are read.
pub fn list_dropin_dirs(unit_dir: &str, systemd_dir: &str, unit_name: &str) -> (r: Vec<String>)
    ensures
        strings_view(r@) == seq![
            join_path(unit_dir@, unit_name@ + ".forge.toml.d"@),
            join_path(unit_dir@, unit_name@ + ".d"@),
            join_path(systemd_dir@, unit_name@ + ".service.d"@),
            join_path(systemd_dir@, unit_name@ + ".d"@),
        ],
{
    let a = concat(unit_name, ".forge.toml.d");
    let b = concat(unit_name, ".d");
    let c = concat(unit_name, ".service.d");
    let mut r: Vec<String> = Vec::new();
    r.push(join(unit_dir, a.as_str()));
    r.push(join(unit_dir, b.as_str()));
    r.push(join(systemd_dir, c.as_str()));
    r.push(join(systemd_dir, b.as_str()));
    assert(strings_view(r@) =~= seq![
        join_path(unit_dir@, unit_name@ + ".forge.toml.d"@),
        join_path(unit_dir@, unit_name@ + ".d"@),
        join_path(systemd_dir@, unit_name@ + ".service.d"@),
        join_path(systemd_dir@, unit_name@ + ".d"@),
    ]);
    r
}

/// The `KEY=value` words of `Environment=` lines, split at the first `=` and kept as written.
pub open spec fn raw_env_pairs(lines: Seq<Seq<char>>) -> Seq<(Seq<char>, Seq<char>)>
    decreases lines.len(),
{
    if lines.len() == 0 {
        Seq::empty()
    } else {
        raw_env_pairs(lines.drop_last()) + split_pairs(words(lines.last()))
    }
}

/// The words that hold `=`, split at the first one.
pub open spec fn split_pairs(ws: Seq<Seq<char>>) -> Seq<(Seq<char>, Seq<char>)>
    decreases ws.len(),
{
    if ws.len() == 0 {
        Seq::empty()
    } else {
        let r = split_pairs(ws.drop_last());
        match split_once(ws.last(), '=') {
            Some(p) => r.push(p),
            None => r,
        }
    }
}

/// Applies a `.conf` drop-in to a service manifest: the words of its first
/// `After=` in `[Unit]` extend the ordering, and the `KEY=value` words of its
/// `Environment=` lines in `[Service]` extend the environment.
pub fn apply_conf_dropin(manifest: &mut ServiceManifest, overlay: &SystemdUnit)
    requires
        unit_wf(overlay.sections@),
    ensures
        strings_view(final(manifest).after@) == strings_view(old(manifest).after@) + {
            let a = values_of(overlay.view_map(), "Unit"@, "After"@);
            if a.len() > 0 { words(a[0]) } else { Seq::empty() }
        },
        final(manifest).environment@.map_values(|p: (String, String)| (p.0@, p.1@))
            == old(manifest).environment@.map_values(|p: (String, String)| (p.0@, p.1@))
            + raw_env_pairs(values_of(overlay.view_map(), "Service"@, "Environment"@)),
        *final(manifest) == (ServiceManifest { after: final(manifest).after, environment: final(manifest).environment, ..*old(manifest) }),
{
    match overlay.get("Unit", "After") {
        Some(after) => {
            let ws = split_words(after.as_str());
            let ghost wv = strings_view(ws@);
            let ghost a0 = strings_view(manifest.after@);
            let mut i: usize = 0;
            while i < ws.len()
                invariant
                    i <= ws@.len(),
                    wv == strings_view(ws@),
                    strings_view(manifest.after@) == a0 + wv.take(i as int),
                    *manifest == (ServiceManifest { after: manifest.after, environment: manifest.environment, ..*old(manifest) }),
                    manifest.environment == old(manifest).environment,
                    a0 == strings_view(old(manifest).after@),
                decreases ws@.len() - i,
            {
                let ghost before = strings_view(manifest.after@);
                manifest.after.push(str_to_string(ws[i].as_str()));
                assert(strings_view(manifest.after@) =~= before.push(ws@[i as int]@));
                assert(wv.take(i + 1) =~= wv.take(i as int).push(ws@[i as int]@));
                i = i + 1;
            }
            assert(wv.take(ws@.len() as int) =~= wv);
        },
        None => {
            assert(strings_view(manifest.after@) =~= strings_view(manifest.after@) + Seq::<Seq<char>>::empty());
        },
    }
    let lines = overlay.values("Service", "Environment");
    let ghost a1 = manifest.after@;
    let ghost lv = strings_view(lines@);
    let ghost e0 = manifest.environment@.map_values(|p: (String, String)| (p.0@, p.1@));
    let mut i: usize = 0;
    assert(lv.take(0) =~= Seq::<Seq<char>>::empty());
    assert(e0 + raw_env_pairs(lv.take(0)) =~= e0);
    while i < lines.len()
        invariant
            i <= lines@.len(),
            lv == strings_view(lines@),
            manifest.environment@.map_values(|p: (String, String)| (p.0@, p.1@)) == e0 + raw_env_pairs(lv.take(i as int)),
            *manifest == (ServiceManifest { after: manifest.after, environment: manifest.environment, ..*old(manifest) }),
            manifest.after@ == a1,
        decreases lines@.len() - i,
    {
        assert(lv.take(i + 1).drop_last() =~= lv.take(i as int));
        assert(lv.take(i + 1).last() == lines@[i as int]@);
        let ws = split_words(lines[i].as_str());
        let ghost wv = strings_view(ws@);
        let ghost b0 = manifest.environment@.map_values(|p: (String, String)| (p.0@, p.1@));
        let mut j: usize = 0;
        assert(wv.take(0) =~= Seq::<Seq<char>>::empty());
        assert(b0 + split_pairs(wv.take(0)) =~= b0);
        while j < ws.len()
            invariant
                j <= ws@.len(),
                wv == strings_view(ws@),
                manifest.environment@.map_values(|p: (String, String)| (p.0@, p.1@)) == b0 + split_pairs(wv.take(j as int)),
                manifest.after@ == a1,
                *manifest == (ServiceManifest { after: manifest.after, environment: manifest.environment, ..*old(manifest) }),
            decreases ws@.len() - j,
        {
            assert(wv.take(j + 1).drop_last() =~= wv.take(j as int));
            assert(wv.take(j + 1).last() == ws@[j as int]@);
            let ghost before = manifest.environment@.map_values(|p: (String, String)| (p.0@, p.1@));
            match split_once_str(ws[j].as_str(), '=') {
                Some(p) => {
                    let ghost pv = (p.0@, p.1@);
                    manifest.environment.push(p);
                    assert(manifest.environment@.map_values(|p: (String, String)| (p.0@, p.1@)) =~= before.push(pv));
                },
                None => {},
            }
            j = j + 1;
        }
        assert(wv.take(ws@.len() as int) =~= wv);
        i = i + 1;
    }
    assert(lv.take(lines@.len() as int) =~= lv);
}

/// The `[service]` table of a TOML drop-in, as plain values: the items of its
/// `after` array and the entries of its `environment` table, each with its string
/// value, or nothing when the item is not a string.
#[derive(Debug, Clone)]
pub struct TomlDropin {
    pub after: Vec<Option<String>>,
    pub environment: Vec<(String, Option<String>)>,
}

/// The string items among `items`.
pub open spec fn string_items(items: Seq<Option<String>>) -> Seq<Seq<char>>
    decreases items.len(),
{
    if items.len() == 0 {
        Seq::empty()
    } else {
        let r = string_items(items.drop_last());
        match items.last() {
            Some(s) => r.push(s@),
            None => r,
        }
    }
}

/// The entries among `items` whose value is a string.
pub open spec fn string_entries(items: Seq<(String, Option<String>)>) -> Seq<(Seq<char>, Seq<char>)>
    decreases items.len(),
{
    if items.len() == 0 {
        Seq::empty()
    } else {
        let r = string_entries(items.drop_last());
        match items.last().1 {
            Some(s) => r.push((items.last().0@, s@)),
            None => r,
        }
    }
}

/// Applies a TOML drop-in: string items of `after` extend the ordering, string
/// entries of `environment` the environment.
pub fn merge_toml_dropin(manifest: &mut ServiceManifest, dropin: &TomlDropin)
    ensures
        strings_view(final(manifest).after@) == strings_view(old(manifest).after@) + string_items(dropin.after@),
        final(manifest).environment@.map_values(|p: (String, String)| (p.0@, p.1@))
            == old(manifest).environment@.map_values(|p: (String, String)| (p.0@, p.1@)) + string_entries(dropin.environment@),
        *final(manifest) == (ServiceManifest { after: final(manifest).after, environment: final(manifest).environment, ..*old(manifest) }),
{
    let ghost a0 = strings_view(manifest.after@);
    let mut i: usize = 0;
    assert(dropin.after@.take(0) =~= Seq::<Option<String>>::empty());
    assert(a0 + string_items(dropin.after@.take(0)) =~= a0);
    while i < dropin.after.len()
        invariant
            i <= dropin.after@.len(),
            strings_view(manifest.after@) == a0 + string_items(dropin.after@.take(i as int)),
            a0 == strings_view(old(manifest).after@),
            manifest.environment == old(manifest).environment,
            *manifest == (ServiceManifest { after: manifest.after, environment: manifest.environment, ..*old(manifest) }),
        decreases dropin.after@.len() - i,
    {
        assert(dropin.after@.take(i + 1).drop_last() =~= dropin.after@.take(i as int));
        match &dropin.after[i] {
            Some(s) => {
                let ghost before = strings_view(manifest.after@);
                manifest.after.push(str_to_string(s.as_str()));
                assert(strings_view(manifest.after@) =~= before.push(s@));
            },
            None => {},
        }
        i = i + 1;
    }
    assert(dropin.after@.take(dropin.after@.len() as int) =~= dropin.after@);
    let ghost e0 = manifest.environment@.map_values(|p: (String, String)| (p.0@, p.1@));
    let mut j: usize = 0;
    assert(dropin.environment@.take(0) =~= Seq::<(String, Option<String>)>::empty());
    assert(e0 + string_entries(dropin.environment@.take(0)) =~= e0);
    while j < dropin.environment.len()
        invariant
            j <= dropin.environment@.len(),
            manifest.environment@.map_values(|p: (String, String)| (p.0@, p.1@)) == e0 + string_entries(dropin.environment@.take(j as int)),
            e0 == old(manifest).environment@.map_values(|p: (String, String)| (p.0@, p.1@)),
            strings_view(manifest.after@) == a0 + string_items(dropin.after@),
            *manifest == (ServiceManifest { after: manifest.after, environment: manifest.environment, ..*old(manifest) }),
        decreases dropin.environment@.len() - j,
    {
        assert(dropin.environment@.take(j + 1).drop_last() =~= dropin.environment@.take(j as int));
        let ghost before = manifest.environment@.map_values(|p: (String, String)| (p.0@, p.1@));
        match &dropin.environment[j].1 {
            Some(s) => {
                let k = str_to_string(dropin.environment[j].0.as_str());
                manifest.environment.push((k, str_to_string(s.as_str())));
                assert(manifest.environment@.map_values(|p: (String, String)| (p.0@, p.1@)) =~= before.push(
                    (dropin.environment@[j as int].0@, s@)));
            },
            None => {},
        }
        j = j + 1;
    }
    assert(dropin.environment@.take(dropin.environment@.len() as int) =~= dropin.environment@);
}

} // verus!
