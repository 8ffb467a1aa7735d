//! Reachability over adjacency lists of unit keys.
//!
//! The unit graph of the init system is held as one adjacency list per unit;
//! the closures that boot planning needs (what a target pulls in, what
//! `requires` makes mandatory, which sockets a service brings along) are all
//! reachability questions answered here.
use vstd::prelude::*;

verus! {

/// `adj[a]` lists `b`.
pub open spec fn edge(adj: Seq<Seq<usize>>, a: int, b: int) -> bool {
    0 <= a < adj.len() && exists|j: int| 0 <= j < adj[a].len() && #[trigger] adj[a][j] as int == b
}

/// `p` is a non-empty walk along edges of `adj`.
pub open spec fn is_path(adj: Seq<Seq<usize>>, p: Seq<int>) -> bool {
    &&& p.len() > 0
    &&& forall|i: int| 0 <= i < p.len() - 1 ==> #[trigger] edge(adj, p[i], p[i + 1])
}

/// `k` can be reached from a member of `start` along edges of `adj`.
pub open spec fn reachable(adj: Seq<Seq<usize>>, start: Set<int>, k: int) -> bool {
    exists|p: Seq<int>| #[trigger] is_path(adj, p) && start.contains(p[0]) && p.last() == k
}

/// All entries of the adjacency lists are keys below `n`.
pub open spec fn adj_bounded(adj: Seq<Seq<usize>>, n: nat) -> bool {
    &&& adj.len() == n
    &&& forall|a: int, j: int| 0 <= a < n && 0 <= j < adj[a].len() ==> #[trigger] adj[a][j] < n
}

/// The keys whose flag is set.
pub open spec fn flagged(v: Seq<bool>) -> Set<int> {
    Set::new(|k: int| 0 <= k < v.len() && v[k])
}

/// The keys listed in `v`.
pub open spec fn listed(v: Seq<usize>) -> Set<int> {
    Set::new(|k: int| exists|i: int| 0 <= i < v.len() && v[i] == k)
}

/// `s` is closed under the edges of `adj`.
pub open spec fn closed(adj: Seq<Seq<usize>>, s: Set<int>) -> bool {
    forall|a: int, b: int| s.contains(a) && #[trigger] edge(adj, a, b) ==> s.contains(b)
}

pub proof fn lemma_path_step(adj: Seq<Seq<usize>>, start: Set<int>, a: int, b: int)
    requires
        reachable(adj, start, a),
        edge(adj, a, b),
    ensures
        reachable(adj, start, b),
{
    let p = choose|p: Seq<int>| #[trigger] is_path(adj, p) && start.contains(p[0]) && p.last() == a;
    let q = p.push(b);
    assert forall|i: int| 0 <= i < q.len() - 1 implies #[trigger] edge(adj, q[i], q[i + 1]) by {
        if i < p.len() - 1 {
            assert(edge(adj, p[i], p[i + 1]));
        }
    }
    assert(is_path(adj, q));
}

pub proof fn lemma_start_reachable(adj: Seq<Seq<usize>>, start: Set<int>, k: int)
    requires
        start.contains(k),
    ensures
        reachable(adj, start, k),
{
    let p = seq![k];
    assert(is_path(adj, p));
}

/// A closed set holding the start holds everything reachable from it.
pub proof fn lemma_closed_contains_reachable(
    adj: Seq<Seq<usize>>,
    start: Set<int>,
    s: Set<int>,
    k: int,
)
    requires
        start.subset_of(s),
        closed(adj, s),
        reachable(adj, start, k),
    ensures
        s.contains(k),
{
    let p = choose|p: Seq<int>| #[trigger] is_path(adj, p) && start.contains(p[0]) && p.last() == k;
    lemma_path_in_closed(adj, s, p, p.len() - 1);
}

proof fn lemma_path_in_closed(adj: Seq<Seq<usize>>, s: Set<int>, p: Seq<int>, i: int)
    requires
        is_path(adj, p),
        s.contains(p[0]),
        closed(adj, s),
        0 <= i < p.len(),
    ensures
        s.contains(p[i]),
    decreases i,
{
    if i > 0 {
        lemma_path_in_closed(adj, s, p, i - 1);
        let j = i - 1;
        assert(edge(adj, p[j], p[j + 1]));
    }
}

/// `x` waits in `q` at or after position `head`.
pub open spec fn queued(q: Seq<usize>, head: int, x: int) -> bool {
    exists|i: int| head <= i < q.len() && #[trigger] q[i] as int == x
}

/// The number of unset flags.
pub open spec fn count_unset(v: Seq<bool>) -> nat
    decreases v.len(),
{
    if v.len() == 0 {
        0
    } else {
        count_unset(v.drop_last()) + if v.last() {
            0nat
        } else {
            1nat
        }
    }
}

pub proof fn lemma_count_unset_set(v: Seq<bool>, k: int)
    requires
        0 <= k < v.len(),
        !v[k],
    ensures
        count_unset(v.update(k, true)) + 1 == count_unset(v),
    decreases v.len(),
{
    if k == v.len() - 1 {
        assert(v.update(k, true).drop_last() =~= v.drop_last());
    } else {
        assert(v.update(k, true).drop_last() =~= v.drop_last().update(k, true));
        lemma_count_unset_set(v.drop_last(), k);
    }
}

pub proof fn lemma_queued_push(q: Seq<usize>, head: int, x: int, b: usize)
    requires
        0 <= head,
        queued(q, head, x),
    ensures
        queued(q.push(b), head, x),
{
    assert(exists|i: int| head <= i < q.len() && #[trigger] q[i] as int == x);
    let i = choose|i: int| head <= i < q.len() && #[trigger] q[i] as int == x;
    assert(head <= i < q.len());
    assert(q.push(b)[i] == q[i]);
}

pub proof fn lemma_queued_pop(q: Seq<usize>, head: int, x: int)
    requires
        queued(q, head, x),
        0 <= head < q.len(),
        q[head] != x,
    ensures
        queued(q, head + 1, x),
{
    let i = choose|i: int| head <= i < q.len() && #[trigger] q[i] as int == x;
    assert(i != head);
}

/// Breadth-first search from `start` over `adj`, as the target closure walks it:
/// a key is marked when it is taken from the queue, and the walk stops at the first
/// taken key whose `stop` flag is set.
pub fn bfs(adj: &Vec<Vec<usize>>, start: &Vec<usize>, stop: &Vec<bool>) -> (r: Result<
    Vec<bool>,
    usize,
>)
    requires
        adj_bounded(adj@.map_values(|l: Vec<usize>| l@), adj@.len()),
        stop@.len() == adj@.len(),
        forall|i: int| 0 <= i < start@.len() ==> #[trigger] start@[i] < adj@.len(),
    ensures
        match r {
            Ok(seen) => {
                &&& seen@.len() == adj@.len()
                &&& forall|k: int|
                    0 <= k < adj@.len() ==> (seen@[k] <==> reachable(
                        adj@.map_values(|l: Vec<usize>| l@),
                        listed(start@),
                        k,
                    ))
                &&& forall|k: int| 0 <= k < adj@.len() && seen@[k] ==> !stop@[k]
            },
            Err(k) => {
                &&& k < adj@.len()
                &&& stop@[k as int]
                &&& reachable(adj@.map_values(|l: Vec<usize>| l@), listed(start@), k as int)
            },
        },
{
    let ghost g = adj@.map_values(|l: Vec<usize>| l@);
    let ghost st = listed(start@);
    let n = adj.len();
    let mut seen: Vec<bool> = Vec::new();
    let mut i: usize = 0;
    while i < n
        invariant
            i <= n,
            seen@.len() == i,
            forall|k: int| 0 <= k < i ==> !seen@[k],
        decreases n - i,
    {
        seen.push(false);
        i = i + 1;
    }
    let mut queue: Vec<usize> = Vec::new();
    let mut j: usize = 0;
    while j < start.len()
        invariant
            j <= start@.len(),
            queue@ == start@.take(j as int),
        decreases start.len() - j,
    {
        queue.push(start[j]);
        j = j + 1;
        assert(queue@ =~= start@.take(j as int));
    }
    assert(start@.take(start@.len() as int) =~= start@);
    assert forall|x: int| st.contains(x) implies queued(queue@, 0, x) by {
        let i = choose|i: int| 0 <= i < start@.len() && start@[i] == x;
        assert(queue@[i] == x);
    }
    assert forall|i: int| 0 <= i < queue@.len() implies reachable(g, st, #[trigger] queue@[i] as int) by {
        assert(st.contains(queue@[i] as int));
        lemma_start_reachable(g, st, queue@[i] as int);
    }
    let mut head: usize = 0;
    while head < queue.len()
        invariant
            n == adj@.len(),
            g == adj@.map_values(|l: Vec<usize>| l@),
            st == listed(start@),
            adj_bounded(g, n as nat),
            stop@.len() == n,
            seen@.len() == n,
            head <= queue@.len(),
            forall|i: int| 0 <= i < queue@.len() ==> #[trigger] queue@[i] < n,
            forall|i: int| 0 <= i < queue@.len() ==> reachable(g, st, #[trigger] queue@[i] as int),
            forall|k: int| 0 <= k < n && #[trigger] seen@[k] ==> reachable(g, st, k),
            forall|k: int| 0 <= k < n && #[trigger] seen@[k] ==> !stop@[k],
            forall|x: int| st.contains(x) ==> (0 <= x < n && seen@[x]) || queued(queue@, head as int, x),
            forall|a: int, b: int|
                0 <= a < n && seen@[a] && #[trigger] edge(g, a, b) ==> (0 <= b < n && seen@[b])
                    || queued(queue@, head as int, b),
        decreases count_unset(seen@), queue@.len() - head,
    {
        let key = queue[head];
        let ghost q0 = queue@;
        let ghost h0 = head as int;
        head = head + 1;
        if seen[key] {
            assert forall|x: int| st.contains(x) implies (0 <= x < n && seen@[x]) || queued(queue@, head as int, x) by {
                if !(0 <= x < n && seen@[x]) {
                    lemma_queued_pop(q0, h0, x);
                }
            }
            assert forall|a: int, b: int|
                0 <= a < n && seen@[a] && #[trigger] edge(g, a, b) implies (0 <= b < n && seen@[b])
                    || queued(queue@, head as int, b) by {
                if !(0 <= b < n && seen@[b]) {
                    lemma_queued_pop(q0, h0, b);
                }
            }
            continue;
        }
        if stop[key] {
            return Err(key);
        }
        let ghost s0 = seen@;
        proof {
            lemma_count_unset_set(s0, key as int);
        }
        seen.set(key, true);
        let nexts = &adj[key];
        assert(nexts@ == g[key as int]);
        let mut t: usize = 0;
        while t < nexts.len()
            invariant
                n == adj@.len(),
                g == adj@.map_values(|l: Vec<usize>| l@),
                st == listed(start@),
                adj_bounded(g, n as nat),
                key < n,
                nexts@ == g[key as int],
                t <= nexts@.len(),
                head <= q0.len(),
                queue@.len() >= q0.len(),
                queue@.subrange(0, q0.len() as int) == q0,
                forall|i: int| 0 <= i < queue@.len() ==> #[trigger] queue@[i] < n,
                forall|i: int| 0 <= i < queue@.len() ==> reachable(g, st, #[trigger] queue@[i] as int),
                reachable(g, st, key as int),
                forall|u: int| 0 <= u < t ==> queued(queue@, head as int, #[trigger] nexts@[u] as int),
            decreases nexts.len() - t,
        {
            let b = nexts[t];
            let ghost qb = queue@;
            proof {
                assert(g[key as int][t as int] == b);
                assert(edge(g, key as int, b as int));
                lemma_path_step(g, st, key as int, b as int);
                assert forall|u: int| 0 <= u < t implies queued(qb.push(b), head as int, #[trigger] nexts@[u] as int) by {
                    lemma_queued_push(qb, head as int, nexts@[u] as int, b);
                }
                assert(qb.push(b)[qb.len() as int] == b);
            }
            queue.push(b);
            assert(queue@.subrange(0, q0.len() as int) =~= q0) by {
                assert(qb.subrange(0, q0.len() as int) == q0);
            }
            t = t + 1;
        }
        proof {
            assert forall|x: int| st.contains(x) implies (0 <= x < n && seen@[x]) || queued(queue@, head as int, x) by {
                if !(0 <= x < n && seen@[x]) {
                    assert(x != key);
                    lemma_queued_pop(q0, h0, x);
                    let w = choose|w: int| head <= w < q0.len() && #[trigger] q0[w] as int == x;
                    assert(queue@[w] == q0[w]);
                }
            }
            assert forall|a: int, b: int|
                0 <= a < n && seen@[a] && #[trigger] edge(g, a, b) implies (0 <= b < n && seen@[b])
                    || queued(queue@, head as int, b) by {
                if !(0 <= b < n && seen@[b]) {
                    if a == key {
                        let u = choose|u: int| 0 <= u < g[a].len() && #[trigger] g[a][u] as int == b;
                        assert(queued(queue@, head as int, nexts@[u] as int));
                    } else {
                        assert(s0[a]);
                        assert(b != key);
                        lemma_queued_pop(q0, h0, b);
                        let w = choose|w: int| head <= w < q0.len() && #[trigger] q0[w] as int == b;
                        assert(queue@[w] == q0[w]);
                    }
                }
            }
        }
    }
    proof {
        assert forall|k: int| 0 <= k < n && reachable(g, st, k) implies seen@[k] by {
            let s = flagged(seen@);
            assert forall|x: int| st.contains(x) implies s.contains(x) by {}
            assert forall|a: int, b: int| s.contains(a) && #[trigger] edge(g, a, b) implies s.contains(b) by {}
            lemma_closed_contains_reachable(g, st, s, k);
        }
    }
    Ok(seen)
}


/// The keys an edge of `adj` leads to from a member of `s`.
pub open spec fn successors(adj: Seq<Seq<usize>>, s: Set<int>) -> Set<int> {
    Set::new(|b: int| exists|a: int| s.contains(a) && #[trigger] edge(adj, a, b))
}

/// An edge leads to `b` from a flagged key below `upto`.
pub open spec fn succ_upto(adj: Seq<Seq<usize>>, flags: Seq<bool>, upto: int, b: int) -> bool {
    exists|a: int| 0 <= a < upto && flags[a] && #[trigger] edge(adj, a, b)
}

/// The keys an edge leads to from a flagged key, listed (possibly more than once).
pub fn successor_keys(adj: &Vec<Vec<usize>>, flags: &Vec<bool>) -> (r: Vec<usize>)
    requires
        flags@.len() == adj@.len(),
        adj_bounded(adj@.map_values(|l: Vec<usize>| l@), adj@.len()),
    ensures
        listed(r@) == successors(adj@.map_values(|l: Vec<usize>| l@), flagged(flags@)),
        forall|i: int| 0 <= i < r@.len() ==> #[trigger] r@[i] < adj@.len(),
{
    let ghost g = adj@.map_values(|l: Vec<usize>| l@);
    let n = adj.len();
    let mut r: Vec<usize> = Vec::new();
    let mut a: usize = 0;
    while a < n
        invariant
            n == adj@.len(),
            flags@.len() == n,
            g == adj@.map_values(|l: Vec<usize>| l@),
            adj_bounded(g, n as nat),
            a <= n,
            forall|i: int| 0 <= i < r@.len() ==> #[trigger] r@[i] < n,
            forall|b: int| listed(r@).contains(b) <==> succ_upto(g, flags@, a as int, b),
        decreases n - a,
    {
        if flags[a] {
            let row = &adj[a];
            assert(row@ == g[a as int]);
            let mut j: usize = 0;
            while j < row.len()
                invariant
                    n == adj@.len(),
                    flags@.len() == n,
                    g == adj@.map_values(|l: Vec<usize>| l@),
                    adj_bounded(g, n as nat),
                    a < n,
                    flags@[a as int],
                    row@ == g[a as int],
                    j <= row@.len(),
                    forall|i: int| 0 <= i < r@.len() ==> #[trigger] r@[i] < n,
                    forall|b: int| listed(r@).contains(b) <==> (succ_upto(g, flags@, a as int, b)
                        || exists|x: int| 0 <= x < j && row@[x] as int == b),
                decreases row@.len() - j,
            {
                let ghost before = r@;
                let v = row[j];
                assert(v < n) by {
                    assert(g[a as int][j as int] < n);
                }
                r.push(v);
                assert forall|b: int| listed(r@).contains(b) <==> (succ_upto(g, flags@, a as int, b)
                    || exists|x: int| 0 <= x < j + 1 && row@[x] as int == b) by {
                    if listed(r@).contains(b) {
                        let i = choose|i: int| 0 <= i < r@.len() && r@[i] == b;
                        if i < before.len() {
                            assert(listed(before).contains(b));
                        } else {
                            assert(row@[j as int] as int == b);
                        }
                    }
                    if succ_upto(g, flags@, a as int, b) || exists|x: int| 0 <= x < j + 1 && row@[x] as int == b {
                        if succ_upto(g, flags@, a as int, b) || exists|x: int| 0 <= x < j && row@[x] as int == b {
                            assert(listed(before).contains(b));
                            let i = choose|i: int| 0 <= i < before.len() && before[i] == b;
                            assert(r@[i] == b);
                        } else {
                            assert(r@[before.len() as int] == b);
                        }
                    }
                }
                j = j + 1;
            }
            assert forall|b: int| listed(r@).contains(b) <==> succ_upto(g, flags@, a + 1, b) by {
                if succ_upto(g, flags@, a + 1, b) {
                    let x = choose|x: int| 0 <= x < a + 1 && flags@[x] && #[trigger] edge(g, x, b);
                    if x == a {
                        let y = choose|y: int| 0 <= y < g[a as int].len() && #[trigger] g[a as int][y] as int == b;
                        assert(row@[y] as int == b);
                    } else {
                        assert(succ_upto(g, flags@, a as int, b));
                    }
                }
                if exists|x: int| 0 <= x < row@.len() && row@[x] as int == b {
                    let x = choose|x: int| 0 <= x < row@.len() && row@[x] as int == b;
                    assert(edge(g, a as int, b));
                }
                if succ_upto(g, flags@, a as int, b) {
                    let x = choose|x: int| 0 <= x < a && flags@[x] && #[trigger] edge(g, x, b);
                    assert(0 <= x < a + 1 && flags@[x] && edge(g, x, b));
                }
            }
        } else {
            assert forall|b: int| succ_upto(g, flags@, a as int, b) <==> succ_upto(g, flags@, a + 1, b) by {
                if succ_upto(g, flags@, a + 1, b) {
                    let x = choose|x: int| 0 <= x < a + 1 && flags@[x] && #[trigger] edge(g, x, b);
                    assert(x != a);
                }
                if succ_upto(g, flags@, a as int, b) {
                    let x = choose|x: int| 0 <= x < a && flags@[x] && #[trigger] edge(g, x, b);
                    assert(0 <= x < a + 1 && flags@[x] && edge(g, x, b));
                }
            }
        }
        a = a + 1;
    }
    assert(listed(r@) =~= successors(g, flagged(flags@))) by {
        assert forall|b: int| successors(g, flagged(flags@)).contains(b) <==> succ_upto(g, flags@, n as int, b) by {
            if successors(g, flagged(flags@)).contains(b) {
                let x = choose|x: int| flagged(flags@).contains(x) && #[trigger] edge(g, x, b);
                assert(0 <= x < n && flags@[x]);
            }
            if succ_upto(g, flags@, n as int, b) {
                let x = choose|x: int| 0 <= x < n && flags@[x] && #[trigger] edge(g, x, b);
                assert(flagged(flags@).contains(x));
            }
        }
    }
    r
}

/// The keys whose flag is set, in increasing order.
pub fn flagged_keys(v: &Vec<bool>) -> (r: Vec<usize>)
    ensures
        listed(r@) == flagged(v@),
        forall|i: int| 0 <= i < r@.len() ==> #[trigger] r@[i] < v@.len(),
{
    let mut r: Vec<usize> = Vec::new();
    let mut k: usize = 0;
    while k < v.len()
        invariant
            k <= v@.len(),
            forall|i: int| 0 <= i < r@.len() ==> #[trigger] r@[i] < k,
            forall|x: int| listed(r@).contains(x) <==> (0 <= x < k && v@[x]),
        decreases v@.len() - k,
    {
        if v[k] {
            let ghost before = r@;
            r.push(k);
            assert forall|x: int| listed(r@).contains(x) <==> (0 <= x < k + 1 && v@[x]) by {
                if listed(r@).contains(x) {
                    let i = choose|i: int| 0 <= i < r@.len() && r@[i] == x;
                    if i < before.len() {
                        assert(listed(before).contains(x));
                    }
                }
                if 0 <= x < k + 1 && v@[x] {
                    if x < k {
                        assert(listed(before).contains(x));
                        let i = choose|i: int| 0 <= i < before.len() && before[i] == x;
                        assert(r@[i] == x);
                    } else {
                        assert(r@[before.len() as int] == x);
                    }
                }
            }
        } else {
            assert forall|x: int| listed(r@).contains(x) <==> (0 <= x < k + 1 && v@[x]) by {
                if listed(r@).contains(x) {
                    let i = choose|i: int| 0 <= i < r@.len() && r@[i] == x;
                    assert(r@[i] < k);
                }
            }
        }
        k = k + 1;
    }
    assert(listed(r@) =~= flagged(v@));
    r
}


/// Whatever is reachable from keys below `n` over bounded lists is below `n`.
pub proof fn lemma_reachable_bounded(adj: Seq<Seq<usize>>, start: Set<int>, n: nat, k: int)
    requires
        adj_bounded(adj, n),
        forall|x: int| start.contains(x) ==> 0 <= x < n,
        reachable(adj, start, k),
    ensures
        0 <= k < n,
{
    let p = choose|p: Seq<int>| #[trigger] is_path(adj, p) && start.contains(p[0]) && p.last() == k;
    if p.len() > 1 {
        let i = p.len() - 2;
        let a = p[i];
        assert(edge(adj, p[i], p[i + 1]));
        assert(p[i + 1] == k);
        let j = choose|j: int| 0 <= j < adj[a].len() && #[trigger] adj[a][j] as int == k;
        assert(adj[a][j] < n);
    }
}

} // verus!
