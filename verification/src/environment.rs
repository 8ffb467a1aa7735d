//! Service environments: `KEY=value` pairs from `Environment=` and `EnvironmentFile=`.
use vstd::prelude::*;
use crate::text::{
    chars_of, lines, split_lines, split_once, split_once_str, str_eq, str_to_string, string_of_range,
    strings_view, trim, trim_str, starts_with,
};

verus! {

/// A value with surrounding whitespace removed and, when it is wrapped in a pair
/// of double or of single quotes, without them.
pub open spec fn unquoted(v: Seq<char>) -> Seq<char> {
    let t = trim(v);
    if t.len() >= 2 && ((t[0] == '"' && t.last() == '"') || (t[0] == '\'' && t.last() == '\'')) {
        t.subrange(1, t.len() - 1)
    } else {
        t
    }
}

/// `value` trimmed and unquoted.
pub fn strip_quotes(value: &str) -> (r: String)
    ensures
        r@ == unquoted(value@),
{
    let t = trim_str(value);
    let v = chars_of(t.as_str());
    let n = v.len();
    if n >= 2 && ((v[0] == '"' && v[n - 1] == '"') || (v[0] == '\'' && v[n - 1] == '\'')) {
        string_of_range(v.as_slice(), 1, n - 1)
    } else {
        t
    }
}

/// The pair a `KEY=value` item gives: the key trimmed, the value trimmed and unquoted.
pub open spec fn env_pair(item: Seq<char>) -> Option<(Seq<char>, Seq<char>)> {
    match split_once(item, '=') {
        Some((k, v)) => Some((trim(k), unquoted(v))),
        None => None,
    }
}

/// Parses one `KEY=value` item; an item without `=` gives nothing.
pub fn parse_environment_line(value: &str) -> (r: Option<(String, String)>)
    ensures
        match env_pair(value@) {
            Some((k, v)) => r matches Some((a, b)) && a@ == k && b@ == v,
            None => r is None,
        },
{
    match split_once_str(value, '=') {
        Some((k, v)) => Some((trim_str(k.as_str()), strip_quotes(v.as_str()))),
        None => None,
    }
}

/// A line of an environment file that holds nothing: blank, or a `#` or `;` comment.
pub open spec fn skipped_line(line: Seq<char>) -> bool {
    let t = trim(line);
    t.len() == 0 || t[0] == '#' || t[0] == ';'
}

/// The pairs of the environment file `raw`, in order.
pub open spec fn env_file_pairs(ls: Seq<Seq<char>>) -> Seq<(Seq<char>, Seq<char>)>
    decreases ls.len(),
{
    if ls.len() == 0 {
        Seq::empty()
    } else {
        let r = env_file_pairs(ls.drop_last());
        let l = ls.last();
        if !skipped_line(l) && env_pair(trim(l)) is Some {
            r.push(env_pair(trim(l))->0)
        } else {
            r
        }
    }
}

/// The pairs as plain values.
pub open spec fn pairs_view(v: Seq<(String, String)>) -> Seq<(Seq<char>, Seq<char>)> {
    v.map_values(|p: (String, String)| (p.0@, p.1@))
}

/// Parses the text of an environment file.
pub fn parse_environment_file(raw: &str) -> (r: Vec<(String, String)>)
    ensures
        pairs_view(r@) == env_file_pairs(lines(raw@)),
{
    let ls = split_lines(raw);
    let ghost lv = strings_view(ls@);
    let mut out: Vec<(String, String)> = Vec::new();
    let mut i: usize = 0;
    assert(lv.take(0) =~= Seq::<Seq<char>>::empty());
    while i < ls.len()
        invariant
            i <= ls@.len(),
            lv == strings_view(ls@),
            lv == lines(raw@),
            pairs_view(out@) == env_file_pairs(lv.take(i as int)),
        decreases ls@.len() - i,
    {
        assert(lv.take(i + 1).drop_last() =~= lv.take(i as int));
        assert(lv.take(i + 1).last() == ls@[i as int]@);
        let line = trim_str(ls[i].as_str());
        let lc = chars_of(line.as_str());
        let skip = lc.len() == 0 || lc[0] == '#' || lc[0] == ';';
        if !skip {
            match parse_environment_line(line.as_str()) {
                Some(p) => {
                    let ghost before = out@;
                    let ghost pv = (p.0@, p.1@);
                    out.push(p);
                    assert(pairs_view(out@) =~= pairs_view(before).push(pv));
                },
                None => {},
            }
        }
        i = i + 1;
    }
    assert(lv.take(ls@.len() as int) =~= lv);
    out
}

/// The variables `pairs` set, a later pair replacing an earlier one of the same key.
pub open spec fn env_map(pairs: Seq<(Seq<char>, Seq<char>)>) -> Map<Seq<char>, Seq<char>>
    decreases pairs.len(),
{
    if pairs.len() == 0 {
        Map::empty()
    } else {
        env_map(pairs.drop_last()).insert(pairs.last().0, pairs.last().1)
    }
}

/// No key occurs twice in `pairs`.
pub open spec fn keys_unique(pairs: Seq<(Seq<char>, Seq<char>)>) -> bool {
    forall|i: int, j: int| 0 <= i < pairs.len() && 0 <= j < pairs.len() && i != j ==> (#[trigger] pairs[i]).0 != (#[trigger] pairs[j]).0
}

/// With unique keys, replacing the value of one pair replaces that variable alone.
pub proof fn lemma_env_map_update(pairs: Seq<(Seq<char>, Seq<char>)>, j: int, v: Seq<char>)
    requires
        keys_unique(pairs),
        0 <= j < pairs.len(),
    ensures
        env_map(pairs.update(j, (pairs[j].0, v))) == env_map(pairs).insert(pairs[j].0, v),
    decreases pairs.len(),
{
    let p2 = pairs.update(j, (pairs[j].0, v));
    if j == pairs.len() - 1 {
        assert(p2.drop_last() =~= pairs.drop_last());
        lemma_env_map_absent(pairs.drop_last(), pairs[j].0);
        assert(env_map(pairs).insert(pairs[j].0, v) =~= env_map(pairs.drop_last()).insert(pairs[j].0, v));
    } else {
        assert(p2.drop_last() =~= pairs.drop_last().update(j, (pairs[j].0, v)));
        assert forall|a: int, b: int| 0 <= a < pairs.drop_last().len() && 0 <= b < pairs.drop_last().len() && a != b
            implies (#[trigger] pairs.drop_last()[a]).0 != (#[trigger] pairs.drop_last()[b]).0 by {
            assert(pairs.drop_last()[a] == pairs[a] && pairs.drop_last()[b] == pairs[b]);
        }
        lemma_env_map_update(pairs.drop_last(), j, v);
        assert(pairs.last().0 != pairs[j].0);
        assert(env_map(p2) =~= env_map(pairs).insert(pairs[j].0, v));
    }
}

/// A key no pair has is not set.
pub proof fn lemma_env_map_absent(pairs: Seq<(Seq<char>, Seq<char>)>, k: Seq<char>)
    requires
        forall|i: int| 0 <= i < pairs.len() ==> (#[trigger] pairs[i]).0 != k,
    ensures
        !env_map(pairs).dom().contains(k),
    decreases pairs.len(),
{
    if pairs.len() > 0 {
        assert forall|i: int| 0 <= i < pairs.drop_last().len() implies (#[trigger] pairs.drop_last()[i]).0 != k by {
            assert(pairs.drop_last()[i] == pairs[i]);
        }
        lemma_env_map_absent(pairs.drop_last(), k);
    }
}

/// Sets variable `k` to `v` in `out`, where each variable occurs once.
fn set_var(out: &mut Vec<(String, String)>, k: &String, v: &String)
    requires
        keys_unique(pairs_view(old(out)@)),
    ensures
        keys_unique(pairs_view(final(out)@)),
        env_map(pairs_view(final(out)@)) == env_map(pairs_view(old(out)@)).insert(k@, v@),
{
    let ghost ov = pairs_view(out@);
    let mut j: usize = 0;
    while j < out.len() && !str_eq(out[j].0.as_str(), k.as_str())
        invariant
            j <= out@.len(),
            ov == pairs_view(out@),
            forall|q: int| 0 <= q < j ==> (#[trigger] ov[q]).0 != k@,
        decreases out@.len() - j,
    {
        j = j + 1;
    }
    if j < out.len() {
        assert(ov[j as int].0 == k@);
        let kk = str_to_string(out[j].0.as_str());
        let vv = str_to_string(v.as_str());
        let entry = &mut out[j];
        *entry = (kk, vv);
        proof {
            assert(pairs_view(out@) =~= ov.update(j as int, (ov[j as int].0, v@)));
            lemma_env_map_update(ov, j as int, v@);
            assert forall|a: int, b: int| 0 <= a < pairs_view(out@).len() && 0 <= b < pairs_view(out@).len() && a != b
                implies (#[trigger] pairs_view(out@)[a]).0 != (#[trigger] pairs_view(out@)[b]).0 by {
                assert(pairs_view(out@)[a].0 == ov[a].0 && pairs_view(out@)[b].0 == ov[b].0);
            }
        }
    } else {
        out.push((str_to_string(k.as_str()), str_to_string(v.as_str())));
        proof {
            assert(pairs_view(out@) =~= ov.push((k@, v@)));
            assert(ov.push((k@, v@)).drop_last() =~= ov);
            assert forall|a: int, b: int| 0 <= a < pairs_view(out@).len() && 0 <= b < pairs_view(out@).len() && a != b
                implies (#[trigger] pairs_view(out@)[a]).0 != (#[trigger] pairs_view(out@)[b]).0 by {
                if a < ov.len() && b < ov.len() {
                    assert(pairs_view(out@)[a] == ov[a] && pairs_view(out@)[b] == ov[b]);
                } else if a < ov.len() {
                    assert(pairs_view(out@)[a] == ov[a]);
                } else {
                    assert(pairs_view(out@)[b] == ov[b]);
                }
            }
        }
    }
}

/// Sets each variable of `pairs` in `out`, in order; `out` held the variables of `prefix`.
fn set_all(out: &mut Vec<(String, String)>, pairs: &Vec<(String, String)>, prefix: Ghost<Seq<(Seq<char>, Seq<char>)>>)
    requires
        keys_unique(pairs_view(old(out)@)),
        env_map(pairs_view(old(out)@)) == env_map(prefix@),
    ensures
        keys_unique(pairs_view(final(out)@)),
        env_map(pairs_view(final(out)@)) == env_map(prefix@ + pairs_view(pairs@)),
{
    let ghost pv = pairs_view(pairs@);
    let mut i: usize = 0;
    assert(prefix@ + pv.take(0) =~= prefix@);
    while i < pairs.len()
        invariant
            i <= pairs@.len(),
            pv == pairs_view(pairs@),
            keys_unique(pairs_view(out@)),
            env_map(pairs_view(out@)) == env_map(prefix@ + pv.take(i as int)),
        decreases pairs@.len() - i,
    {
        set_var(out, &pairs[i].0, &pairs[i].1);
        assert((prefix@ + pv.take(i + 1)).drop_last() =~= prefix@ + pv.take(i as int));
        assert((prefix@ + pv.take(i + 1)).last() == pv[i as int]);
        i = i + 1;
    }
    assert(pv.take(pairs@.len() as int) =~= pv);
}

/// The environment `extra` laid over `base`: each variable once, with the value
/// of its last setting.
pub fn merge_environment(base: &Vec<(String, String)>, extra: &Vec<(String, String)>) -> (r: Vec<(String, String)>)
    ensures
        env_map(pairs_view(r@)) == env_map(pairs_view(base@) + pairs_view(extra@)),
        keys_unique(pairs_view(r@)),
{
    let mut out: Vec<(String, String)> = Vec::new();
    let ghost e = Seq::<(Seq<char>, Seq<char>)>::empty();
    assert(pairs_view(out@) =~= e);
    set_all(&mut out, base, Ghost(e));
    assert(e + pairs_view(base@) =~= pairs_view(base@));
    set_all(&mut out, extra, Ghost(pairs_view(base@)));
    assert(env_map(pairs_view(out@)) == env_map(pairs_view(base@) + pairs_view(extra@)));
    out
}

/// Merging settings, a later one wins: a name the later list sets has the value it
/// sets last there; any other name keeps what the earlier list gave it, if anything.
pub proof fn law_later_settings_win(base: Seq<(Seq<char>, Seq<char>)>, extra: Seq<(Seq<char>, Seq<char>)>, key: Seq<char>)
    ensures
        env_map(extra).dom().contains(key) ==> env_map(base + extra).dom().contains(key)
            && env_map(base + extra)[key] == env_map(extra)[key],
        !env_map(extra).dom().contains(key) ==> (env_map(base + extra).dom().contains(key)
            == env_map(base).dom().contains(key)) && (env_map(base).dom().contains(key)
            ==> env_map(base + extra)[key] == env_map(base)[key]),
    decreases extra.len(),
{
    if extra.len() == 0 {
        assert(base + extra =~= base);
    } else {
        assert((base + extra).drop_last() =~= base + extra.drop_last());
        assert((base + extra).last() == extra.last());
        law_later_settings_win(base, extra.drop_last(), key);
    }
}

} // verus!
