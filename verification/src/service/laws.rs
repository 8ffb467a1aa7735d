//! What holds of the manager's boot plan as a whole: ordering, waves, cycles and the
//! order services stop in.
use vstd::prelude::*;
use super::forge::{
    add_provides, history, provider, recent, RESTART_BURST_MAX, RESTART_BURST_WINDOW_MS,
    bootable_at, complete, deps_placed, inserted, is_wave, leveled, lookup, order_deps, ordering_names, placed,
    names_unique, ready, resolve_in, services_in, stop_sequence, unit_ordering, Unit, UnitKey, UnitKind,
};
use crate::text::strings_view;

verus! {

/// A name listed among what a service requires is among the names it is ordered after.
pub proof fn lemma_required_is_ordering(after: Seq<Seq<char>>, reqs: Seq<Seq<char>>, name: Seq<char>)
    requires
        reqs.contains(name),
    ensures
        ordering_names(after, reqs).contains(name),
    decreases reqs.len(),
{
    let o = ordering_names(after, reqs.drop_last());
    if reqs.last() == name {
        if !o.contains(name) {
            assert(o.push(name)[o.len() as int] == name);
        }
    } else {
        let i = choose|i: int| 0 <= i < reqs.len() && reqs[i] == name;
        assert(reqs.drop_last()[i] == name);
        lemma_required_is_ordering(after, reqs.drop_last(), name);
        let j = choose|j: int| 0 <= j < o.len() && o[j] == name;
        if !o.contains(reqs.last()) {
            assert(o.push(reqs.last())[j] == name);
        }
    }
}

/// A name among `names` that resolves to an active unit other than a target gives
/// that unit among the ordering dependencies.
pub proof fn lemma_order_deps_contains(
    units: Seq<Unit>,
    prov: Seq<(String, UnitKey)>,
    active: Seq<bool>,
    names: Seq<Seq<char>>,
    name: Seq<char>,
)
    requires
        names.contains(name),
        resolve_in(units, prov, name) is Some,
        active[resolve_in(units, prov, name)->0],
        !(units[resolve_in(units, prov, name)->0].kind is Target),
    ensures
        order_deps(units, prov, active, names).contains(resolve_in(units, prov, name)->0 as usize),
    decreases names.len(),
{
    let d = resolve_in(units, prov, name)->0;
    let r = order_deps(units, prov, active, names.drop_last());
    if names.last() == name {
        assert(r.push(d as usize)[r.len() as int] == d as usize);
    } else {
        let i = choose|i: int| 0 <= i < names.len() && names[i] == name;
        assert(names.drop_last()[i] == name);
        lemma_order_deps_contains(units, prov, active, names.drop_last(), name);
        let j = choose|j: int| 0 <= j < r.len() && r[j] == d as usize;
        match resolve_in(units, prov, names.last()) {
            Some(e) => {
                if active[e] && !(units[e].kind is Target) {
                    assert(r.push(e as usize)[j] == d as usize);
                }
            },
            None => {},
        }
    }
}

/// A service is ordered after every unit it requires, whether or not `after` names
/// it: once dependencies are resolved (each ordering unit's dependencies are the
/// `order_deps` of its `unit_ordering`), a required name that resolves to an active
/// unit other than a target is among the service's dependencies.
pub proof fn law_requires_imply_ordering(
    units: Seq<Unit>,
    prov: Seq<(String, UnitKey)>,
    active: Seq<bool>,
    k: int,
    name: Seq<char>,
)
    requires
        0 <= k < units.len(),
        units[k].kind is Service,
        strings_view(units[k].kind->Service_requires@).contains(name),
        resolve_in(units, prov, name) is Some,
        active[resolve_in(units, prov, name)->0],
        !(units[resolve_in(units, prov, name)->0].kind is Target),
    ensures
        order_deps(units, prov, active, unit_ordering(units[k].kind)).contains(resolve_in(units, prov, name)->0 as usize),
{
    let after = strings_view(units[k].kind->Service_after@);
    let reqs = strings_view(units[k].kind->Service_requires@);
    lemma_required_is_ordering(after, reqs, name);
    lemma_order_deps_contains(units, prov, active, ordering_names(after, reqs), name);
}

/// Boot waves start a unit only after everything it depends on: every dependency of
/// a unit in wave `i` is in a wave before `i`, and every unit in a wave is bootable.
pub proof fn law_waves_follow_dependencies(units: Seq<Unit>, active: Seq<bool>, w: Seq<Seq<usize>>, i: int, x: int)
    requires
        leveled(units, active, w),
        0 <= i < w.len(),
        0 <= x < w[i].len(),
    ensures
        bootable_at(units, active, w[i][x] as int),
        deps_placed(units, w, i, w[i][x] as int),
        !placed(w, i, w[i][x] as int),
{
    assert(is_wave(units, active, w, i));
    let k = w[i][x] as int;
    assert(exists|y: int| 0 <= y < w[i].len() && #[trigger] w[i][y] as int == k);
    assert(ready(units, active, w, i, k));
}

/// A unit placed in waves `j1` and `j2` is placed once: the two are the same wave and
/// the same position.
proof fn lemma_placed_once(units: Seq<Unit>, active: Seq<bool>, w: Seq<Seq<usize>>, j1: int, i1: int, j2: int, i2: int)
    requires
        leveled(units, active, w),
        0 <= j1 < w.len(),
        0 <= i1 < w[j1].len(),
        0 <= j2 < w.len(),
        0 <= i2 < w[j2].len(),
        w[j1][i1] == w[j2][i2],
    ensures
        j1 == j2,
        i1 == i2,
{
    if j1 < j2 {
        law_waves_follow_dependencies(units, active, w, j2, i2);
        assert(placed(w, j2, w[j2][i2] as int)) by {
            assert(w[j1][i1] as int == w[j2][i2] as int);
        }
    } else if j2 < j1 {
        law_waves_follow_dependencies(units, active, w, j1, i1);
        assert(placed(w, j1, w[j1][i1] as int)) by {
            assert(w[j2][i2] as int == w[j1][i1] as int);
        }
    } else {
        assert(is_wave(units, active, w, j1));
        if i1 != i2 {
            assert(w[j1][i1] != w[j1][i2]);
        }
    }
}

/// Every bootable unit starts exactly once: with complete waves it is in one wave, at
/// one position, and nowhere else.
pub proof fn law_each_unit_boots_once(units: Seq<Unit>, active: Seq<bool>, w: Seq<Seq<usize>>, k: int)
    requires
        leveled(units, active, w),
        complete(units, active, w),
        bootable_at(units, active, k),
    ensures
        placed(w, w.len() as int, k),
        forall|j1: int, i1: int, j2: int, i2: int|
            0 <= j1 < w.len() && 0 <= i1 < w[j1].len() && 0 <= j2 < w.len() && 0 <= i2 < w[j2].len()
                && #[trigger] w[j1][i1] as int == k && #[trigger] w[j2][i2] as int == k ==> j1 == j2 && i1 == i2,
{
    assert forall|j1: int, i1: int, j2: int, i2: int|
        0 <= j1 < w.len() && 0 <= i1 < w[j1].len() && 0 <= j2 < w.len() && 0 <= i2 < w[j2].len()
            && #[trigger] w[j1][i1] as int == k && #[trigger] w[j2][i2] as int == k implies j1 == j2 && i1 == i2 by {
        lemma_placed_once(units, active, w, j1, i1, j2, i2);
    }
}

/// `(j, i)` is a position in `w` that holds unit `k`.
pub open spec fn at(w: Seq<Seq<usize>>, j: int, i: int, k: int) -> bool {
    0 <= j < w.len() && 0 <= i < w[j].len() && w[j][i] as int == k
}

/// A placed unit is in a later wave than each of its dependencies.
proof fn lemma_dependency_earlier(units: Seq<Unit>, active: Seq<bool>, w: Seq<Seq<usize>>, a: usize, b: usize)
    requires
        leveled(units, active, w),
        placed(w, w.len() as int, a as int),
        units[a as int].dependencies@.contains(b),
    ensures
        placed(w, w.len() as int, b as int),
        forall|ja: int, ia: int, jb: int, ib: int|
            #[trigger] at(w, ja, ia, a as int) && #[trigger] at(w, jb, ib, b as int) ==> jb < ja,
{
    let (ja, ia) = choose|j: int, i: int| 0 <= j < w.len() && 0 <= i < w[j].len() && #[trigger] w[j][i] as int == a as int;
    law_waves_follow_dependencies(units, active, w, ja, ia);
    let d = choose|d: int| 0 <= d < units[a as int].dependencies@.len() && units[a as int].dependencies@[d] == b;
    assert(w[ja][ia] == a);
    assert(placed(w, ja, units[a as int].dependencies@[d] as int));
    let (jb, ib) = choose|j: int, i: int| 0 <= j < ja && 0 <= i < w[j].len() && #[trigger] w[j][i] as int == b as int;
    assert(w[jb][ib] as int == b as int);
    assert(placed(w, w.len() as int, b as int));
    assert forall|ja2: int, ia2: int, jb2: int, ib2: int|
        #[trigger] at(w, ja2, ia2, a as int) && #[trigger] at(w, jb2, ib2, b as int) implies jb2 < ja2 by {
        lemma_placed_once(units, active, w, ja, ia, ja2, ia2);
        lemma_placed_once(units, active, w, jb, ib, jb2, ib2);
    }
}

/// Along a dependency path from `c[0]`, whose units are all placed, waves get earlier.
proof fn lemma_path_earlier(units: Seq<Unit>, active: Seq<bool>, w: Seq<Seq<usize>>, c: Seq<usize>, m: int)
    requires
        leveled(units, active, w),
        complete(units, active, w),
        0 < m < c.len(),
        forall|i: int| 0 <= i < c.len() ==> bootable_at(units, active, #[trigger] c[i] as int),
        forall|i: int| 0 <= i < c.len() - 1 ==> units[#[trigger] c[i] as int].dependencies@.contains(c[i + 1]),
    ensures
        forall|j0: int, i0: int, jm: int, im: int|
            #[trigger] at(w, j0, i0, c[0] as int) && #[trigger] at(w, jm, im, c[m] as int) ==> jm < j0,
    decreases m,
{
    assert(bootable_at(units, active, c[m - 1] as int));
    assert(units[c[m - 1] as int].dependencies@.contains(c[m]));
    lemma_dependency_earlier(units, active, w, c[m - 1], c[m]);
    if m > 1 {
        lemma_path_earlier(units, active, w, c, m - 1);
        let (jp, ip) = choose|j: int, i: int| 0 <= j < w.len() && 0 <= i < w[j].len() && #[trigger] w[j][i] as int == c[m - 1] as int;
        assert(at(w, jp, ip, c[m - 1] as int));
        assert forall|j0: int, i0: int, jm: int, im: int|
            #[trigger] at(w, j0, i0, c[0] as int) && #[trigger] at(w, jm, im, c[m] as int) implies jm < j0 by {
            assert(at(w, jp, ip, c[m - 1] as int));
        }
    }
}

/// A dependency cycle among bootable units can never be booted: no leveled waves
/// place all of them. `c` lists the cycle: each unit depends on the next, and the
/// last on the first.
pub proof fn law_cycles_never_complete(units: Seq<Unit>, active: Seq<bool>, w: Seq<Seq<usize>>, c: Seq<usize>)
    requires
        leveled(units, active, w),
        c.len() > 0,
        forall|i: int| 0 <= i < c.len() ==> bootable_at(units, active, #[trigger] c[i] as int),
        forall|i: int| 0 <= i < c.len() - 1 ==> units[#[trigger] c[i] as int].dependencies@.contains(c[i + 1]),
        units[c.last() as int].dependencies@.contains(c[0]),
    ensures
        !complete(units, active, w),
{
    if complete(units, active, w) {
        let l = c.len() - 1;
        assert(bootable_at(units, active, c[l] as int));
        assert(bootable_at(units, active, c[0] as int));
        lemma_dependency_earlier(units, active, w, c[l], c[0]);
        let (j0, i0) = choose|j: int, i: int| 0 <= j < w.len() && 0 <= i < w[j].len() && #[trigger] w[j][i] as int == c[0] as int;
        let (jl, il) = choose|j: int, i: int| 0 <= j < w.len() && 0 <= i < w[j].len() && #[trigger] w[j][i] as int == c[l] as int;
        assert(at(w, j0, i0, c[0] as int));
        assert(at(w, jl, il, c[l] as int));
        if l > 0 {
            lemma_path_earlier(units, active, w, c, l);
        }
    }
}

/// Registering keeps unit names unique, so a lookup by name finds the one unit of
/// that name: an insertion into a table without repeated names leaves none.
pub proof fn law_names_stay_unique(units0: Seq<Unit>, units1: Seq<Unit>, name: Seq<char>, kind: UnitKind, k: int)
    requires
        names_unique(units0),
        inserted(units0, units1, name, kind, k),
    ensures
        names_unique(units1),
        lookup(units1, name) == Some(k),
{
    if lookup(units0, name) is None {
        assert(!exists|i: int| 0 <= i < units0.len() && (#[trigger] units0[i]).name@ == name);
        assert forall|i: int, j: int|
            0 <= i < units1.len() && 0 <= j < units1.len() && i != j implies (#[trigger] units1[i]).name@
                != (#[trigger] units1[j]).name@ by {
            if i < units0.len() && j < units0.len() {
                assert(units1[i] == units0[i] && units1[j] == units0[j]);
            } else if i < units0.len() {
                assert(units1[i] == units0[i]);
            } else if j < units0.len() {
                assert(units1[j] == units0[j]);
            }
        }
        assert(units1[k].name@ == name);
        let c = choose|i: int| 0 <= i < units1.len() && (#[trigger] units1[i]).name@ == name;
        assert(c == k);
    } else {
        let c = choose|i: int| 0 <= i < units1.len() && (#[trigger] units1[i]).name@ == name;
        assert(c == k);
    }
}

/// A second registration of a name changes nothing: the unit table and the key stay
/// those of the first registration, whatever kind the second one asked for.
pub proof fn law_first_registration_wins(
    units0: Seq<Unit>,
    units1: Seq<Unit>,
    units2: Seq<Unit>,
    name: Seq<char>,
    kind1: UnitKind,
    kind2: UnitKind,
    k1: int,
    k2: int,
)
    requires
        inserted(units0, units1, name, kind1, k1),
        inserted(units1, units2, name, kind2, k2),
    ensures
        units2 == units1,
        k2 == k1,
        lookup(units0, name) is None ==> units1[k1].kind == kind1,
{
    if lookup(units0, name) is None {
        assert(units1[k1].name@ == name);
        assert(exists|i: int| 0 <= i < units1.len() && (#[trigger] units1[i]).name@ == name);
        let j = choose|i: int| 0 <= i < units1.len() && (#[trigger] units1[i]).name@ == name;
        if j < units0.len() {
            assert(units1.drop_last()[j] == units0[j]);
            assert(units0[j].name@ == name);
        }
        let x = lookup(units1, name)->0;
        assert(units1[x].name@ == name);
        if x < units0.len() {
            assert(units1.drop_last()[x] == units0[x]);
            assert(units0[x].name@ == name);
        }
    }
}

/// `services_in` keeps every service of `keys`.
proof fn lemma_services_in_contains(units: Seq<Unit>, keys: Seq<usize>, x: usize)
    requires
        keys.contains(x),
        x < units.len(),
        units[x as int].kind is Service,
    ensures
        services_in(units, keys).contains(x),
    decreases keys.len(),
{
    let r = services_in(units, keys.drop_last());
    if keys.last() == x {
        assert(r.push(x)[r.len() as int] == x);
    } else {
        let i = choose|i: int| 0 <= i < keys.len() && keys[i] == x;
        assert(keys.drop_last()[i] == x);
        lemma_services_in_contains(units, keys.drop_last(), x);
        let j = choose|j: int| 0 <= j < r.len() && r[j] == x;
        if keys.last() < units.len() && units[keys.last() as int].kind is Service {
            assert(r.push(keys.last())[j] == x);
        }
    }
}

/// The stop sequence of two runs of waves one after the other: the later run's
/// services first.
proof fn lemma_stop_sequence_append(units: Seq<Unit>, u: Seq<Seq<usize>>, v: Seq<Seq<usize>>)
    ensures
        stop_sequence(units, u + v) == stop_sequence(units, v) + stop_sequence(units, u),
    decreases u.len(),
{
    if u.len() == 0 {
        assert(u + v =~= v);
        assert(stop_sequence(units, v) + Seq::<usize>::empty() =~= stop_sequence(units, v));
    } else {
        assert((u + v).drop_first() =~= u.drop_first() + v);
        assert((u + v)[0] == u[0]);
        lemma_stop_sequence_append(units, u.drop_first(), v);
        assert(stop_sequence(units, u + v) =~= stop_sequence(units, v) + stop_sequence(units, u));
    }
}

/// The stop sequence holds every service of every wave.
proof fn lemma_stop_sequence_contains(units: Seq<Unit>, w: Seq<Seq<usize>>, j: int, x: usize)
    requires
        0 <= j < w.len(),
        w[j].contains(x),
        x < units.len(),
        units[x as int].kind is Service,
    ensures
        stop_sequence(units, w.skip(j)).contains(x),
        stop_sequence(units, w.take(j + 1)).contains(x),
{
    lemma_services_in_contains(units, w[j], x);
    let sv = services_in(units, w[j]);
    let t = stop_sequence(units, w.skip(j + 1));
    assert(w.skip(j).drop_first() =~= w.skip(j + 1));
    assert(stop_sequence(units, w.skip(j)) == t + sv);
    let i = choose|i: int| 0 <= i < sv.len() && sv[i] == x;
    assert((t + sv)[t.len() + i] == x);
    assert(w.take(j + 1) =~= w.take(j) + seq![w[j]]);
    lemma_stop_sequence_append(units, w.take(j), seq![w[j]]);
    let one = seq![w[j]];
    assert(one.drop_first() =~= Seq::<Seq<usize>>::empty());
    assert(one[0] == w[j]);
    assert(stop_sequence(units, one.drop_first()) == Seq::<usize>::empty());
    assert(stop_sequence(units, one) == stop_sequence(units, one.drop_first()) + services_in(units, one[0]));
    assert(stop_sequence(units, one) =~= sv);
    assert((sv + stop_sequence(units, w.take(j)))[i] == x);
}

/// Shutdown stops a service before every service it depends on: in the stop
/// sequence of leveled waves, a service that depends on another service comes first.
pub proof fn law_dependents_stop_first(units: Seq<Unit>, active: Seq<bool>, w: Seq<Seq<usize>>, a: usize, b: usize)
    requires
        leveled(units, active, w),
        placed(w, w.len() as int, a as int),
        units[a as int].dependencies@.contains(b),
        units[a as int].kind is Service,
        b < units.len(),
        units[b as int].kind is Service,
    ensures
        exists|p: int, q: int|
            0 <= p < q < stop_sequence(units, w).len() && #[trigger] stop_sequence(units, w)[p] == a
                && #[trigger] stop_sequence(units, w)[q] == b,
{
    lemma_dependency_earlier(units, active, w, a, b);
    let (ja, ia) = choose|j: int, i: int| 0 <= j < w.len() && 0 <= i < w[j].len() && #[trigger] w[j][i] as int == a as int;
    let (jb, ib) = choose|j: int, i: int| 0 <= j < w.len() && 0 <= i < w[j].len() && #[trigger] w[j][i] as int == b as int;
    assert(at(w, ja, ia, a as int) && at(w, jb, ib, b as int));
    assert(jb < ja);
    assert(a < units.len()) by {
        law_waves_follow_dependencies(units, active, w, ja, ia);
    }
    assert(w[ja][ia] == a);
    assert(w[jb][ib] == b);
    lemma_stop_sequence_contains(units, w, ja, a);
    lemma_stop_sequence_contains(units, w, jb, b);
    assert(w =~= w.take(ja) + w.skip(ja));
    lemma_stop_sequence_append(units, w.take(ja), w.skip(ja));
    let hi = stop_sequence(units, w.skip(ja));
    let lo = stop_sequence(units, w.take(ja));
    assert(w.take(ja) =~= w.take(jb + 1) + w.take(ja).skip(jb + 1));
    lemma_stop_sequence_append(units, w.take(jb + 1), w.take(ja).skip(jb + 1));
    let lo_tail = stop_sequence(units, w.take(jb + 1));
    assert(w.take(ja).take(jb + 1) =~= w.take(jb + 1));
    let p = choose|p: int| 0 <= p < hi.len() && hi[p] == a;
    let q0 = choose|q: int| 0 <= q < lo_tail.len() && lo_tail[q] == b;
    let mid = stop_sequence(units, w.take(ja).skip(jb + 1));
    assert(lo == mid + lo_tail);
    let q = hi.len() + mid.len() + q0;
    assert(stop_sequence(units, w) == hi + (mid + lo_tail));
    assert((hi + (mid + lo_tail))[p] == a);
    assert((hi + (mid + lo_tail))[q] == b);
}

/// No virtual name is claimed twice in `prov`.
pub open spec fn claims_unique(prov: Seq<(String, UnitKey)>) -> bool {
    forall|i: int, j: int| 0 <= i < prov.len() && 0 <= j < prov.len() && i != j ==> (#[trigger] prov[i]).0@ != (#[trigger] prov[j]).0@
}

/// The claim of a virtual name in a table where names are unique is the entry of that name.
proof fn lemma_provider_entry(prov: Seq<(String, UnitKey)>, i: int)
    requires
        claims_unique(prov),
        0 <= i < prov.len(),
    ensures
        provider(prov, prov[i].0@) == Some(prov[i].1 as int),
{
    let j = choose|j: int| 0 <= j < prov.len() && (#[trigger] prov[j]).0@ == prov[i].0@;
    assert(prov[j].0@ == prov[i].0@);
}

/// Adding a claim of another name leaves the claim of `n` as it was.
proof fn lemma_provider_push(before: Seq<(String, UnitKey)>, e: (String, UnitKey), n: Seq<char>)
    requires
        claims_unique(before),
        e.0@ != n,
    ensures
        provider(before.push(e), n) == provider(before, n),
{
    let after = before.push(e);
    if exists|i: int| 0 <= i < after.len() && (#[trigger] after[i]).0@ == n {
        let i = choose|i: int| 0 <= i < after.len() && (#[trigger] after[i]).0@ == n;
        assert(i < before.len());
        assert(before[i] == after[i]);
    }
    if exists|i: int| 0 <= i < before.len() && (#[trigger] before[i]).0@ == n {
        let i = choose|i: int| 0 <= i < before.len() && (#[trigger] before[i]).0@ == n;
        assert(before[i] == after[i]);
        let j = choose|j: int| 0 <= j < after.len() && (#[trigger] after[j]).0@ == n;
        let k = choose|k: int| 0 <= k < before.len() && (#[trigger] before[k]).0@ == n;
        assert(j < before.len());
        assert(after[j] == before[j]);
        assert(j == k);
    }
    assert(provider(before.push(e), n) == provider(before, n));
}

/// The first claim of a virtual name wins: once a unit provides a name, units that
/// claim it later do not take it over; a name nobody provided goes to the first unit
/// that claims it; and no name is ever claimed twice.
pub proof fn law_first_claim_wins(prov: Seq<(String, UnitKey)>, names: Seq<String>, key: UnitKey, n: Seq<char>)
    requires
        claims_unique(prov),
    ensures
        claims_unique(add_provides(prov, names, key)),
        provider(prov, n) is Some ==> provider(add_provides(prov, names, key), n) == provider(prov, n),
        provider(prov, n) is None ==> provider(add_provides(prov, names, key), n) == if exists|i: int|
            0 <= i < names.len() && (#[trigger] names[i])@ == n {
            Some(key as int)
        } else {
            None
        },
    decreases names.len(),
{
    if names.len() > 0 {
        let before = add_provides(prov, names.drop_last(), key);
        let last = names.last();
        law_first_claim_wins(prov, names.drop_last(), key, n);
        law_first_claim_wins(prov, names.drop_last(), key, last@);
        let in_rest = exists|i: int| 0 <= i < names.drop_last().len() && (#[trigger] names.drop_last()[i])@ == n;
        let in_all = exists|i: int| 0 <= i < names.len() && (#[trigger] names[i])@ == n;
        if in_rest {
            let i = choose|i: int| 0 <= i < names.drop_last().len() && (#[trigger] names.drop_last()[i])@ == n;
            assert(names[i] == names.drop_last()[i]);
        }
        if in_all && last@ != n {
            let i = choose|i: int| 0 <= i < names.len() && (#[trigger] names[i])@ == n;
            assert(names.drop_last()[i] == names[i]);
        }
        if last@ == n {
            assert(names[names.len() - 1]@ == n);
        }
        if provider(before, last@) is None {
            let after = before.push((last, key));
            assert forall|i: int, j: int| 0 <= i < after.len() && 0 <= j < after.len() && i != j
                implies (#[trigger] after[i]).0@ != (#[trigger] after[j]).0@ by {
                if i < before.len() && j == before.len() {
                    assert(before[i] == after[i]);
                    lemma_provider_entry(before, i);
                } else if j < before.len() && i == before.len() {
                    assert(before[j] == after[j]);
                    lemma_provider_entry(before, j);
                } else {
                    assert(before[i] == after[i]);
                    assert(before[j] == after[j]);
                }
            }
            if last@ == n {
                lemma_provider_entry(after, before.len() as int);
            } else {
                lemma_provider_push(before, (last, key), n);
            }
        }
    }
}

/// Keeping only the times of a window never adds any.
proof fn lemma_recent_len(times: Seq<u64>, now: u64)
    ensures
        recent(times, now).len() <= times.len(),
{
    times.lemma_filter_len(|t: u64| now - t < RESTART_BURST_WINDOW_MS);
}

/// The restart burst limit holds: a service's restart history, which starts empty,
/// never holds more than `RESTART_BURST_MAX` times, whatever `restart_allowed`
/// answers; so no more than that many restarts lie in any window.
pub proof fn law_restart_history_bounded(times: Seq<u64>, now: u64, allowed: bool, next: Seq<u64>)
    requires
        times.len() <= RESTART_BURST_MAX,
        allowed == (recent(times, now).len() < RESTART_BURST_MAX),
        next == if allowed {
            recent(times, now).push(now)
        } else {
            recent(times, now)
        },
    ensures
        next.len() <= RESTART_BURST_MAX,
        allowed ==> recent(next, now).len() <= RESTART_BURST_MAX,
{
    lemma_recent_len(times, now);
    if allowed {
        lemma_recent_len(next, now);
    }
}

} // verus!
