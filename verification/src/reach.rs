//! Reachability over adjacency lists, the traversal every projection of the
//! graph (syntax tree, control flow, dependences) is queried with.

use vstd::prelude::*;

verus! {

/// Every successor index is a valid vertex.
pub open spec fn adj_ok(adj: Seq<Vec<usize>>) -> bool {
    forall|u: int, k: int| 0 <= u < adj.len() && 0 <= k < adj[u]@.len() ==> (#[trigger] adj[u]@[k]) < adj.len()
}

/// `v` is a successor of `u`.
pub open spec fn step(adj: Seq<Vec<usize>>, u: int, v: int) -> bool {
    0 <= u < adj.len() && exists|k: int| 0 <= k < adj[u]@.len() && adj[u]@[k] as int == v
}

/// `p` is a walk: a non-empty sequence of vertices, each a successor of the one before.
pub open spec fn is_path(adj: Seq<Vec<usize>>, p: Seq<int>) -> bool {
    &&& p.len() >= 1
    &&& forall|i: int| 0 <= i < p.len() ==> 0 <= #[trigger] p[i] < adj.len()
    &&& forall|i: int| 0 <= i < p.len() - 1 ==> step(adj, #[trigger] p[i], p[i + 1])
}

/// There is a walk from `u` to `v` (every vertex reaches itself).
pub open spec fn reaches(adj: Seq<Vec<usize>>, u: int, v: int) -> bool {
    exists|p: Seq<int>| #[trigger] is_path(adj, p) && p[0] == u && p.last() == v
}

/// Some start vertex reaches `v`.
pub open spec fn reached_from(adj: Seq<Vec<usize>>, starts: Seq<usize>, v: int) -> bool {
    exists|k: int| 0 <= k < starts.len() && #[trigger] reaches(adj, starts[k] as int, v)
}

/// Number of `false` entries.
pub open spec fn count_unset(s: Seq<bool>) -> nat
    decreases s.len(),
{
    if s.len() == 0 {
        0
    } else {
        count_unset(s.drop_last()) + if s.last() { 0nat } else { 1nat }
    }
}

proof fn lemma_count_unset_set(s: Seq<bool>, i: int)
    requires
        0 <= i < s.len(),
        !s[i],
    ensures
        count_unset(s.update(i, true)) + 1 == count_unset(s),
    decreases s.len(),
{
    let t = s.update(i, true);
    if i == s.len() - 1 {
        assert(t.drop_last() =~= s.drop_last());
    } else {
        assert(t.drop_last() =~= s.drop_last().update(i, true));
        lemma_count_unset_set(s.drop_last(), i);
    }
}

/// Every vertex reaches itself.
pub proof fn lemma_reaches_refl(adj: Seq<Vec<usize>>, u: int)
    requires
        0 <= u < adj.len(),
    ensures
        reaches(adj, u, u),
{
    let p = seq![u];
    assert(is_path(adj, p));
}

/// A walk extends by one edge.
pub proof fn lemma_reaches_step(adj: Seq<Vec<usize>>, u: int, v: int, w: int)
    requires
        reaches(adj, u, v),
        step(adj, v, w),
        adj_ok(adj),
    ensures
        reaches(adj, u, w),
{
    let p = choose|p: Seq<int>| #[trigger] is_path(adj, p) && p[0] == u && p.last() == v;
    let q = p.push(w);
    let j = choose|j: int| 0 <= j < adj[v]@.len() && adj[v]@[j] as int == w;
    assert(adj[v]@[j] < adj.len());
    assert forall|i: int| 0 <= i < q.len() implies 0 <= #[trigger] q[i] < adj.len() by {
        if i < p.len() {
            assert(q[i] == p[i]);
        }
    }
    assert forall|i: int| 0 <= i < q.len() - 1 implies step(adj, #[trigger] q[i], q[i + 1]) by {
        if i < p.len() - 1 {
            assert(q[i] == p[i] && q[i + 1] == p[i + 1]);
        }
    }
    assert(is_path(adj, q));
}

/// Walks compose.
pub proof fn lemma_reaches_trans(adj: Seq<Vec<usize>>, u: int, v: int, w: int)
    requires
        reaches(adj, u, v),
        reaches(adj, v, w),
    ensures
        reaches(adj, u, w),
{
    let p = choose|p: Seq<int>| #[trigger] is_path(adj, p) && p[0] == u && p.last() == v;
    let q = choose|q: Seq<int>| #[trigger] is_path(adj, q) && q[0] == v && q.last() == w;
    let r = p + q.drop_first();
    assert forall|i: int| 0 <= i < r.len() implies 0 <= #[trigger] r[i] < adj.len() by {
        if i >= p.len() {
            assert(r[i] == q[i - p.len() + 1]);
        }
    }
    assert forall|i: int| 0 <= i < r.len() - 1 implies step(adj, #[trigger] r[i], r[i + 1]) by {
        if i < p.len() - 1 {
            assert(r[i] == p[i] && r[i + 1] == p[i + 1]);
        } else if i == p.len() - 1 {
            assert(r[i] == q[0]);
            assert(r[i + 1] == q[1]);
        } else {
            assert(r[i] == q[i - p.len() + 1]);
            assert(r[i + 1] == q[i - p.len() + 2]);
        }
    }
    if q.len() == 1 {
        assert(r =~= p);
    } else {
        assert(r.last() == q.last());
    }
    assert(is_path(adj, r));
}

/// A set that holds `u` and every successor of its members holds everything `u` reaches.
pub proof fn lemma_closed_holds_reach(adj: Seq<Vec<usize>>, set: Seq<bool>, u: int, v: int)
    requires
        set.len() == adj.len(),
        0 <= u < adj.len(),
        set[u],
        forall|x: int, y: int| 0 <= x < adj.len() && set[x] && #[trigger] step(adj, x, y) ==> set[y],
        reaches(adj, u, v),
    ensures
        set[v],
{
    let p = choose|p: Seq<int>| #[trigger] is_path(adj, p) && p[0] == u && p.last() == v;
    lemma_closed_holds_path(adj, set, p, p.len() - 1);
}

proof fn lemma_closed_holds_path(adj: Seq<Vec<usize>>, set: Seq<bool>, p: Seq<int>, i: int)
    requires
        set.len() == adj.len(),
        is_path(adj, p),
        0 <= i < p.len(),
        set[p[0]],
        forall|x: int, y: int| 0 <= x < adj.len() && set[x] && #[trigger] step(adj, x, y) ==> set[y],
    ensures
        set[p[i]],
    decreases i,
{
    if i > 0 {
        lemma_closed_holds_path(adj, set, p, i - 1);
        assert(step(adj, p[i - 1], p[i]));
    }
}

proof fn lemma_count_all_unset(s: Seq<bool>)
    requires
        forall|t: int| 0 <= t < s.len() ==> !s[t],
    ensures
        count_unset(s) == s.len(),
    decreases s.len(),
{
    if s.len() > 0 {
        lemma_count_all_unset(s.drop_last());
    }
}

/// Marks every vertex reachable from some vertex of `starts`.
pub fn reachable(adj: &Vec<Vec<usize>>, starts: &Vec<usize>) -> (r: Vec<bool>)
    requires
        adj_ok(adj@),
        forall|k: int| 0 <= k < starts@.len() ==> starts@[k] < adj@.len(),
    ensures
        r@.len() == adj@.len(),
        forall|v: int| 0 <= v < adj@.len() ==> (r@[v] <==> reached_from(adj@, starts@, v)),
{
    let n = adj.len();
    let mut seen: Vec<bool> = Vec::new();
    let mut i: usize = 0;
    while i < n
        invariant
            n == adj@.len(),
            i <= n,
            seen@.len() == i,
            forall|j: int| 0 <= j < i ==> !seen@[j],
        decreases n - i,
    {
        seen.push(false);
        i = i + 1;
    }
    proof {
        lemma_count_all_unset(seen@);
    }
    let mut stack: Vec<usize> = Vec::new();
    let mut s: usize = 0;
    while s < starts.len()
        invariant
            n == adj@.len(),
            adj_ok(adj@),
            forall|k: int| 0 <= k < starts@.len() ==> starts@[k] < adj@.len(),
            seen@.len() == n,
            s <= starts@.len(),
            count_unset(seen@) + stack@.len() <= n,
            forall|k: int| 0 <= k < stack@.len() ==> (#[trigger] stack@[k]) < n && seen@[stack@[k] as int],
            forall|v: int| 0 <= v < n && seen@[v] ==> stack@.contains(v as usize),
            forall|v: int| 0 <= v < n && seen@[v] ==> reached_from(adj@, starts@, v),
            forall|k: int| 0 <= k < s ==> seen@[#[trigger] starts@[k] as int],
        decreases starts@.len() - s,
    {
        let v = starts[s];
        if !seen[v] {
            proof {
                lemma_count_unset_set(seen@, v as int);
                lemma_reaches_refl(adj@, v as int);
                assert(reaches(adj@, starts@[s as int] as int, v as int));
            }
            let ghost prev_stack = stack@;
            let ghost prev_seen = seen@;
            seen.set(v, true);
            stack.push(v);
            proof {
                assert forall|x: int| 0 <= x < n && seen@[x] implies stack@.contains(x as usize) by {
                    if x == v {
                        assert(stack@[prev_stack.len() as int] == v);
                    } else {
                        assert(prev_seen[x]);
                        let k = choose|k: int| 0 <= k < prev_stack.len() && prev_stack[k] == x as usize;
                        assert(stack@[k] == x as usize);
                    }
                }
                assert forall|k: int| 0 <= k < stack@.len() implies (#[trigger] stack@[k]) < n && seen@[stack@[k] as int] by {
                    if k < prev_stack.len() {
                        assert(stack@[k] == prev_stack[k]);
                    }
                }
            }
        }
        s = s + 1;
    }
    while stack.len() > 0
        invariant
            n == adj@.len(),
            adj_ok(adj@),
            seen@.len() == n,
            forall|k: int| 0 <= k < stack@.len() ==> (#[trigger] stack@[k]) < n && seen@[stack@[k] as int],
            forall|k: int| 0 <= k < starts@.len() ==> starts@[k] < adj@.len(),
            forall|k: int| 0 <= k < starts@.len() ==> seen@[#[trigger] starts@[k] as int],
            forall|v: int| 0 <= v < n && seen@[v] ==> reached_from(adj@, starts@, v),
            forall|v: int, w: int| 0 <= v < n && seen@[v] && !stack@.contains(v as usize) && #[trigger] step(adj@, v, w) ==> seen@[w],
        decreases stack@.len() + 2 * count_unset(seen@),
    {
        let ghost before = stack@.len() + 2 * count_unset(seen@);
        let ghost old_stack = stack@;
        let v = stack.pop().unwrap();
        proof {
            assert(old_stack =~= stack@.push(v));
            assert forall|x: int| 0 <= x < n && x != v && !stack@.contains(x as usize) implies !#[trigger] old_stack.contains(x as usize) by {
                if old_stack.contains(x as usize) {
                    let k = choose|k: int| 0 <= k < old_stack.len() && old_stack[k] == x as usize;
                    if k < stack@.len() {
                        assert(stack@[k] == x as usize);
                    }
                }
            }
            assert forall|k: int| 0 <= k < stack@.len() implies (#[trigger] stack@[k]) < n && seen@[stack@[k] as int] by {
                assert(stack@[k] == old_stack[k]);
            }
        }
        let succ = &adj[v];
        let mut j: usize = 0;
        while j < succ.len()
            invariant
                n == adj@.len(),
                adj_ok(adj@),
                v < n,
                seen@[v as int],
                succ@ == adj@[v as int]@,
                j <= succ@.len(),
                seen@.len() == n,
                stack@.len() + 2 * count_unset(seen@) + 1 <= before,
                forall|k: int| 0 <= k < stack@.len() ==> (#[trigger] stack@[k]) < n && seen@[stack@[k] as int],
                forall|k: int| 0 <= k < starts@.len() ==> starts@[k] < adj@.len(),
                forall|k: int| 0 <= k < starts@.len() ==> seen@[#[trigger] starts@[k] as int],
                forall|x: int| 0 <= x < n && seen@[x] ==> reached_from(adj@, starts@, x),
                forall|k: int| 0 <= k < j ==> seen@[#[trigger] succ@[k] as int],
                forall|x: int, w: int| 0 <= x < n && x != v && seen@[x] && !stack@.contains(x as usize) && #[trigger] step(adj@, x, w) ==> seen@[w],
            decreases succ@.len() - j,
        {
            let w = succ[j];
            assert(w < n);
            if !seen[w] {
                proof {
                    lemma_count_unset_set(seen@, w as int);
                    assert(reached_from(adj@, starts@, v as int));
                    let k = choose|k: int| 0 <= k < starts@.len() && #[trigger] reaches(adj@, starts@[k] as int, v as int);
                    assert(adj@[v as int]@[j as int] == w);
                    assert(step(adj@, v as int, w as int));
                    lemma_reaches_step(adj@, starts@[k] as int, v as int, w as int);
                }
                let ghost prev_stack = stack@;
                let ghost prev_seen = seen@;
                seen.set(w, true);
                stack.push(w);
                proof {
                    assert forall|k: int| 0 <= k < starts@.len() implies seen@[#[trigger] starts@[k] as int] by {
                        assert(prev_seen[starts@[k] as int]);
                    }
                    assert forall|k: int| 0 <= k < j implies seen@[#[trigger] succ@[k] as int] by {
                        assert(prev_seen[succ@[k] as int]);
                    }
                    assert forall|k: int| 0 <= k < stack@.len() implies (#[trigger] stack@[k]) < n && seen@[stack@[k] as int] by {
                        if k < prev_stack.len() {
                            assert(stack@[k] == prev_stack[k]);
                        }
                    }
                    assert forall|x: int, y: int| 0 <= x < n && x != v && seen@[x] && !stack@.contains(x as usize) && #[trigger] step(adj@, x, y) implies seen@[y] by {
                        if x != w {
                            assert(prev_seen[x]);
                            if prev_stack.contains(x as usize) {
                                let k = choose|k: int| 0 <= k < prev_stack.len() && prev_stack[k] == x as usize;
                                assert(stack@[k] == x as usize);
                            }
                        } else {
                            assert(stack@[prev_stack.len() as int] == w);
                        }
                    }
                }
            }
            j = j + 1;
        }
        proof {
            assert forall|x: int, w: int| 0 <= x < n && seen@[x] && !stack@.contains(x as usize) && #[trigger] step(adj@, x, w) implies seen@[w] by {
                if x == v {
                    let k = choose|k: int| 0 <= k < adj@[v as int]@.len() && adj@[v as int]@[k] as int == w;
                    assert(succ@[k] as int == w);
                }
            }
        }
    }
    proof {
        assert forall|v: int| 0 <= v < n && reached_from(adj@, starts@, v) implies seen@[v] by {
            let k = choose|k: int| 0 <= k < starts@.len() && #[trigger] reaches(adj@, starts@[k] as int, v);
            lemma_closed_holds_reach(adj@, seen@, starts@[k] as int, v);
        }
    }
    seen
}

/// `p` is a walk of the relation `rel` over vertices `0..n`.
pub open spec fn rel_path(rel: spec_fn(int, int) -> bool, n: int, p: Seq<int>) -> bool {
    &&& p.len() >= 1
    &&& forall|i: int| 0 <= i < p.len() ==> 0 <= #[trigger] p[i] < n
    &&& forall|i: int| 0 <= i < p.len() - 1 ==> rel(#[trigger] p[i], p[i + 1])
}

/// There is a walk of `rel` over `0..n` from `u` to `v`.
pub open spec fn rel_reaches(rel: spec_fn(int, int) -> bool, n: int, u: int, v: int) -> bool {
    exists|p: Seq<int>| #[trigger] rel_path(rel, n, p) && p[0] == u && p.last() == v
}

/// Walks of a relation compose.
pub proof fn lemma_rel_reaches_trans(rel: spec_fn(int, int) -> bool, n: int, u: int, v: int, w: int)
    requires
        rel_reaches(rel, n, u, v),
        rel_reaches(rel, n, v, w),
    ensures
        rel_reaches(rel, n, u, w),
{
    let p = choose|p: Seq<int>| #[trigger] rel_path(rel, n, p) && p[0] == u && p.last() == v;
    let q = choose|q: Seq<int>| #[trigger] rel_path(rel, n, q) && q[0] == v && q.last() == w;
    let r = p + q.drop_first();
    assert forall|i: int| 0 <= i < r.len() implies 0 <= #[trigger] r[i] < n by {
        if i >= p.len() {
            assert(r[i] == q[i - p.len() + 1]);
        }
    }
    assert forall|i: int| 0 <= i < r.len() - 1 implies rel(#[trigger] r[i], r[i + 1]) by {
        if i < p.len() - 1 {
            assert(r[i] == p[i] && r[i + 1] == p[i + 1]);
        } else if i == p.len() - 1 {
            assert(r[i] == q[0]);
            assert(r[i + 1] == q[1]);
        } else {
            assert(r[i] == q[i - p.len() + 1]);
            assert(r[i + 1] == q[i - p.len() + 2]);
        }
    }
    if q.len() == 1 {
        assert(r =~= p);
    } else {
        assert(r.last() == q.last());
    }
    assert(rel_path(rel, n, r));
}

/// One arc of a relation between vertices of `0..n` is a walk.
pub proof fn lemma_rel_reaches_arc(rel: spec_fn(int, int) -> bool, n: int, u: int, v: int)
    requires
        0 <= u < n,
        0 <= v < n,
        rel(u, v),
    ensures
        rel_reaches(rel, n, u, v),
{
    let p = seq![u, v];
    assert(p[0] == u && p[1] == v);
    assert(rel_path(rel, n, p));
}

/// Every vertex of `0..n` reaches itself.
pub proof fn lemma_rel_reaches_refl(rel: spec_fn(int, int) -> bool, n: int, u: int)
    requires
        0 <= u < n,
    ensures
        rel_reaches(rel, n, u, u),
{
    let p = seq![u];
    assert(rel_path(rel, n, p));
}

/// Adjacency lists that realise `rel` on `0..adj.len()`.
pub open spec fn realises(adj: Seq<Vec<usize>>, rel: spec_fn(int, int) -> bool) -> bool {
    &&& adj_ok(adj)
    &&& forall|a: int, b: int| 0 <= a < adj.len() && 0 <= b < adj.len() ==> (step(adj, a, b) <==> #[trigger] rel(a, b))
}

/// Walks of adjacency lists are the walks of the relation they realise.
pub proof fn lemma_realises_reaches(adj: Seq<Vec<usize>>, rel: spec_fn(int, int) -> bool, u: int, v: int)
    requires
        realises(adj, rel),
    ensures
        reaches(adj, u, v) <==> rel_reaches(rel, adj.len() as int, u, v),
{
    if reaches(adj, u, v) {
        let p = choose|p: Seq<int>| #[trigger] is_path(adj, p) && p[0] == u && p.last() == v;
        assert forall|i: int| 0 <= i < p.len() - 1 implies rel(#[trigger] p[i], p[i + 1]) by {
            assert(step(adj, p[i], p[i + 1]));
            assert(0 <= p[i + 1] < adj.len());
        }
        assert(rel_path(rel, adj.len() as int, p));
    }
    if rel_reaches(rel, adj.len() as int, u, v) {
        let p = choose|p: Seq<int>| #[trigger] rel_path(rel, adj.len() as int, p) && p[0] == u && p.last() == v;
        assert forall|i: int| 0 <= i < p.len() - 1 implies step(adj, #[trigger] p[i], p[i + 1]) by {
            assert(rel(p[i], p[i + 1]));
            assert(0 <= p[i + 1] < adj.len());
        }
        assert(is_path(adj, p));
    }
}

/// Adjacency lists with every edge turned around.
pub fn reverse_adjacency(adj: &Vec<Vec<usize>>) -> (r: Vec<Vec<usize>>)
    requires
        adj_ok(adj@),
    ensures
        r@.len() == adj@.len(),
        adj_ok(r@),
        forall|a: int, b: int| 0 <= a < adj@.len() && 0 <= b < adj@.len() ==> (step(r@, a, b) <==> step(adj@, b, a)),
{
    let n = adj.len();
    let mut r: Vec<Vec<usize>> = Vec::new();
    let mut i: usize = 0;
    while i < n
        invariant
            n == adj@.len(),
            i <= n,
            r@.len() == i,
            forall|j: int| 0 <= j < i ==> (#[trigger] r@[j])@.len() == 0,
        decreases n - i,
    {
        r.push(Vec::new());
        i = i + 1;
    }
    let mut u: usize = 0;
    while u < n
        invariant
            n == adj@.len(),
            adj_ok(adj@),
            r@.len() == n,
            u <= n,
            adj_ok(r@),
            forall|a: int, b: int| 0 <= a < n && 0 <= b < n ==> (step(r@, a, b) <==> (step(adj@, b, a) && b < u)),
        decreases n - u,
    {
        let row = &adj[u];
        let mut k: usize = 0;
        while k < row.len()
            invariant
                n == adj@.len(),
                adj_ok(adj@),
                u < n,
                row@ == adj@[u as int]@,
                r@.len() == n,
                k <= row@.len(),
                adj_ok(r@),
                forall|a: int, b: int| 0 <= a < n && 0 <= b < n ==> (step(r@, a, b) <==>
                    ((step(adj@, b, a) && b < u) || (b == u && exists|t: int| 0 <= t < k && row@[t] as int == a))),
            decreases row@.len() - k,
        {
            let w = row[k];
            assert(w < n);
            let ghost prev = r@;
            let mut cell: Vec<usize> = Vec::new();
            r.set_and_swap(w, &mut cell);
            cell.push(u);
            r.set_and_swap(w, &mut cell);
            proof {
                assert(r@[w as int]@ == prev[w as int]@.push(u));
                assert forall|x: int, y: int| 0 <= x < r@.len() && 0 <= y < r@[x]@.len() implies (#[trigger] r@[x]@[y]) < r@.len() by {
                    if x != w || y < prev[w as int]@.len() {
                        assert(prev[x]@[y] == r@[x]@[y]);
                    }
                }
                assert forall|a: int, b: int| 0 <= a < n && 0 <= b < n implies (step(r@, a, b) <==>
                    ((step(adj@, b, a) && b < u) || (b == u && exists|t: int| 0 <= t < k + 1 && row@[t] as int == a))) by {
                    if a == w && b == u {
                        assert(r@[a]@[prev[a]@.len() as int] as int == b);
                        assert(row@[k as int] as int == a);
                    } else {
                        if step(r@, a, b) {
                            let t = choose|t: int| 0 <= t < r@[a]@.len() && r@[a]@[t] as int == b;
                            if a == w {
                                assert(t < prev[a]@.len());
                            }
                            assert(prev[a]@[t] == r@[a]@[t]);
                            assert(step(prev, a, b));
                        }
                        if step(prev, a, b) {
                            let t = choose|t: int| 0 <= t < prev[a]@.len() && prev[a]@[t] as int == b;
                            assert(prev[a]@[t] == r@[a]@[t]);
                            assert(step(r@, a, b));
                        }
                        if b == u && exists|t: int| 0 <= t < k + 1 && row@[t] as int == a {
                            let t = choose|t: int| 0 <= t < k + 1 && row@[t] as int == a;
                            if t == k {
                                assert(a == w);
                            }
                        }
                    }
                }
            }
            k = k + 1;
        }
        proof {
            assert forall|a: int, b: int| 0 <= a < n && 0 <= b < n implies (step(r@, a, b) <==> (step(adj@, b, a) && b < u + 1)) by {
                if b == u {
                    if step(adj@, b, a) {
                        let t = choose|t: int| 0 <= t < adj@[b]@.len() && adj@[b]@[t] as int == a;
                        assert(row@[t] as int == a);
                    }
                    if exists|t: int| 0 <= t < row@.len() && row@[t] as int == a {
                        let t = choose|t: int| 0 <= t < row@.len() && row@[t] as int == a;
                        assert(adj@[b]@[t] as int == a);
                    }
                }
            }
        }
        u = u + 1;
    }
    r
}

/// Walks of reversed adjacency lists are the walks of the unreversed lists, turned around.
pub proof fn lemma_reverse_reaches(adj: Seq<Vec<usize>>, radj: Seq<Vec<usize>>, a: int, b: int)
    requires
        radj.len() == adj.len(),
        forall|x: int, y: int| 0 <= x < adj.len() && 0 <= y < adj.len() ==> (step(radj, x, y) <==> step(adj, y, x)),
        reaches(radj, a, b),
    ensures
        reaches(adj, b, a),
{
    let p = choose|p: Seq<int>| #[trigger] is_path(radj, p) && p[0] == a && p.last() == b;
    let q = p.reverse();
    assert forall|i: int| 0 <= i < q.len() implies 0 <= #[trigger] q[i] < adj.len() by {
        assert(q[i] == p[p.len() - 1 - i]);
    }
    assert forall|i: int| 0 <= i < q.len() - 1 implies step(adj, #[trigger] q[i], q[i + 1]) by {
        let j = p.len() - 2 - i;
        assert(q[i] == p[j + 1]);
        assert(q[i + 1] == p[j]);
        assert(step(radj, p[j], p[j + 1]));
    }
    assert(is_path(adj, q));
    assert(q[0] == b);
    assert(q.last() == a);
}

/// The edges of `adj` whose source is kept by `src` and whose target by `dst`.
pub fn restrict(adj: &Vec<Vec<usize>>, src: &Vec<bool>, dst: &Vec<bool>) -> (r: Vec<Vec<usize>>)
    requires
        adj_ok(adj@),
        src@.len() == adj@.len(),
        dst@.len() == adj@.len(),
    ensures
        r@.len() == adj@.len(),
        adj_ok(r@),
        forall|a: int, b: int| 0 <= a < adj@.len() && 0 <= b < adj@.len() ==>
            (step(r@, a, b) <==> (step(adj@, a, b) && src@[a] && dst@[b])),
{
    let n = adj.len();
    let mut r: Vec<Vec<usize>> = Vec::new();
    let mut u: usize = 0;
    while u < n
        invariant
            n == adj@.len(),
            adj_ok(adj@),
            src@.len() == n,
            dst@.len() == n,
            u <= n,
            r@.len() == u,
            forall|x: int, y: int| 0 <= x < u && 0 <= y < r@[x]@.len() ==> (#[trigger] r@[x]@[y]) < n,
            forall|a: int, b: int| 0 <= a < u && 0 <= b < n ==> (step(r@, a, b) <==> (step(adj@, a, b) && src@[a] && dst@[b])),
        decreases n - u,
    {
        let row = &adj[u];
        let mut out: Vec<usize> = Vec::new();
        let mut k: usize = 0;
        if src[u] {
            while k < row.len()
                invariant
                    n == adj@.len(),
                    adj_ok(adj@),
                    u < n,
                    row@ == adj@[u as int]@,
                    dst@.len() == n,
                    k <= row@.len(),
                    forall|y: int| 0 <= y < out@.len() ==> (#[trigger] out@[y]) < n,
                    forall|b: usize| b < n ==> (#[trigger] out@.contains(b) <==> (dst@[b as int] && row@.take(k as int).contains(b))),
                decreases row@.len() - k,
            {
                let w = row[k];
                assert(adj@[u as int]@[k as int] < n);
                let ghost prev = out@;
                if dst[w] {
                    out.push(w);
                }
                proof {
                    assert(row@.take(k + 1) =~= row@.take(k as int).push(w));
                    assert forall|y: int| 0 <= y < out@.len() implies (#[trigger] out@[y]) < n by {
                        if y < prev.len() {
                            assert(out@[y] == prev[y]);
                        }
                    }
                    assert forall|b: usize| b < n implies (#[trigger] out@.contains(b) <==> (dst@[b as int] && row@.take(k + 1).contains(b))) by {
                        if out@.contains(b) {
                            let y = choose|y: int| 0 <= y < out@.len() && out@[y] == b;
                            if y < prev.len() {
                                assert(prev[y] == b);
                                assert(prev.contains(b));
                                let t = choose|t: int| 0 <= t < k && #[trigger] row@.take(k as int)[t] == b;
                                assert(row@.take(k + 1)[t] == b);
                            } else {
                                assert(row@.take(k + 1)[k as int] == b);
                            }
                        }
                        if dst@[b as int] && row@.take(k + 1).contains(b) {
                            let t = choose|t: int| 0 <= t < k + 1 && #[trigger] row@.take(k + 1)[t] == b;
                            if t < k {
                                assert(row@.take(k as int)[t] == b);
                                assert(prev.contains(b));
                                let y = choose|y: int| 0 <= y < prev.len() && prev[y] == b;
                                assert(out@[y] == prev[y]);
                            } else {
                                assert(out@[prev.len() as int] == b);
                            }
                        }
                    }
                }
                k = k + 1;
            }
            assert(row@.take(row@.len() as int) =~= row@);
        }
        proof {
            assert forall|b: usize| b < n implies (#[trigger] out@.contains(b) <==> (src@[u as int] && dst@[b as int] && row@.contains(b))) by {
                if !src@[u as int] {
                    assert(out@.len() == 0);
                }
            }
        }
        r.push(out);
        proof {
            assert forall|a: int, b: int| 0 <= a < u + 1 && 0 <= b < n implies (step(r@, a, b) <==> (step(adj@, a, b) && src@[a] && dst@[b])) by {
                if a == u {
                    assert(r@[a]@ == out@);
                    let bb = b as usize;
                    assert(bb as int == b);
                    if step(adj@, a, b) && src@[a] && dst@[b] {
                        let t = choose|t: int| 0 <= t < adj@[a]@.len() && adj@[a]@[t] as int == b;
                        assert(row@[t] == bb);
                        assert(row@.contains(bb));
                        assert(out@.contains(bb));
                        let y = choose|y: int| 0 <= y < out@.len() && out@[y] == bb;
                        assert(r@[a]@[y] as int == b);
                    }
                    if step(r@, a, b) {
                        let y = choose|y: int| 0 <= y < r@[a]@.len() && r@[a]@[y] as int == b;
                        assert(out@[y] == bb);
                        assert(out@.contains(bb));
                        let t = choose|t: int| 0 <= t < row@.len() && row@[t] == bb;
                        assert(adj@[a]@[t] as int == b);
                    }
                } else {
                    assert(r@[a] == r@.drop_last()[a]);
                }
            }
            assert forall|x: int, y: int| 0 <= x < u + 1 && 0 <= y < r@[x]@.len() implies (#[trigger] r@[x]@[y]) < n by {
                if x < u {
                    assert(r@[x] == r@.drop_last()[x]);
                }
            }
        }
        u = u + 1;
    }
    r
}

/// The union of two adjacency relations on the same vertices.
pub fn union_adjacency(x: &Vec<Vec<usize>>, y: &Vec<Vec<usize>>) -> (r: Vec<Vec<usize>>)
    requires
        adj_ok(x@),
        adj_ok(y@),
        x@.len() == y@.len(),
    ensures
        r@.len() == x@.len(),
        adj_ok(r@),
        forall|a: int, b: int| 0 <= a < x@.len() && 0 <= b < x@.len() ==>
            (step(r@, a, b) <==> (step(x@, a, b) || step(y@, a, b))),
{
    let n = x.len();
    let mut r: Vec<Vec<usize>> = Vec::new();
    let mut u: usize = 0;
    while u < n
        invariant
            n == x@.len(),
            n == y@.len(),
            adj_ok(x@),
            adj_ok(y@),
            u <= n,
            r@.len() == u,
            forall|a: int, k: int| 0 <= a < u && 0 <= k < r@[a]@.len() ==> (#[trigger] r@[a]@[k]) < n,
            forall|a: int, b: int| 0 <= a < u && 0 <= b < n ==> (step(r@, a, b) <==> (step(x@, a, b) || step(y@, a, b))),
        decreases n - u,
    {
        let mut row: Vec<usize> = Vec::new();
        let xr = &x[u];
        let yr = &y[u];
        let mut k: usize = 0;
        while k < xr.len()
            invariant
                xr@ == x@[u as int]@,
                k <= xr@.len(),
                row@ == xr@.take(k as int),
            decreases xr@.len() - k,
        {
            row.push(xr[k]);
            k = k + 1;
            proof { assert(row@ =~= xr@.take(k as int)); }
        }
        let mut j: usize = 0;
        while j < yr.len()
            invariant
                xr@ == x@[u as int]@,
                yr@ == y@[u as int]@,
                j <= yr@.len(),
                row@ == xr@ + yr@.take(j as int),
            decreases yr@.len() - j,
        {
            row.push(yr[j]);
            j = j + 1;
            proof { assert(row@ =~= xr@ + yr@.take(j as int)); }
        }
        proof {
            assert(row@ =~= xr@ + yr@);
        }
        r.push(row);
        proof {
            assert forall|a: int, t: int| 0 <= a < u + 1 && 0 <= t < r@[a]@.len() implies (#[trigger] r@[a]@[t]) < n by {
                if a < u {
                    assert(r@[a] == r@.drop_last()[a]);
                } else if t < xr@.len() {
                    assert(r@[a]@[t] == x@[a]@[t]);
                } else {
                    assert(r@[a]@[t] == y@[a]@[t - xr@.len()]);
                }
            }
            assert forall|a: int, b: int| 0 <= a < u + 1 && 0 <= b < n implies (step(r@, a, b) <==> (step(x@, a, b) || step(y@, a, b))) by {
                if a < u {
                    assert(r@[a] == r@.drop_last()[a]);
                } else {
                    if step(r@, a, b) {
                        let t = choose|t: int| 0 <= t < r@[a]@.len() && r@[a]@[t] as int == b;
                        if t < xr@.len() {
                            assert(x@[a]@[t] == r@[a]@[t]);
                        } else {
                            assert(y@[a]@[t - xr@.len()] == r@[a]@[t]);
                        }
                    }
                    if step(x@, a, b) {
                        let t = choose|t: int| 0 <= t < x@[a]@.len() && x@[a]@[t] as int == b;
                        assert(r@[a]@[t] == x@[a]@[t]);
                    }
                    if step(y@, a, b) {
                        let t = choose|t: int| 0 <= t < y@[a]@.len() && y@[a]@[t] as int == b;
                        assert(r@[a]@[t + xr@.len()] == y@[a]@[t]);
                    }
                }
            }
        }
        u = u + 1;
    }
    r
}

/// `b` occurs in `r`.
pub open spec fn in_list(r: Seq<usize>, b: int) -> bool {
    exists|k: int| 0 <= k < r.len() && r[k] as int == b
}

/// Every successor of a vertex marked in `sel`, with repeats.
pub fn gather(adj: &Vec<Vec<usize>>, sel: &Vec<bool>) -> (r: Vec<usize>)
    requires
        adj_ok(adj@),
        sel@.len() == adj@.len(),
    ensures
        forall|k: int| 0 <= k < r@.len() ==> (#[trigger] r@[k]) < adj@.len(),
        forall|b: int| 0 <= b < adj@.len() ==> (#[trigger] in_list(r@, b) <==>
            exists|s: int| 0 <= s < adj@.len() && sel@[s] && #[trigger] step(adj@, s, b)),
{
    let n = adj.len();
    let mut r: Vec<usize> = Vec::new();
    let mut s: usize = 0;
    while s < n
        invariant
            n == adj@.len(),
            adj_ok(adj@),
            sel@.len() == n,
            s <= n,
            forall|k: int| 0 <= k < r@.len() ==> (#[trigger] r@[k]) < n,
            forall|b: int| 0 <= b < n ==> (#[trigger] in_list(r@, b) <==>
                exists|t: int| 0 <= t < s && sel@[t] && #[trigger] step(adj@, t, b)),
        decreases n - s,
    {
        if sel[s] {
            let row = &adj[s];
            let mut j: usize = 0;
            let ghost base = r@;
            while j < row.len()
                invariant
                    n == adj@.len(),
                    adj_ok(adj@),
                    s < n,
                    row@ == adj@[s as int]@,
                    j <= row@.len(),
                    r@ == base + row@.take(j as int),
                    forall|k: int| 0 <= k < base.len() ==> (#[trigger] base[k]) < n,
                decreases row@.len() - j,
            {
                assert(adj@[s as int]@[j as int] < n);
                r.push(row[j]);
                j = j + 1;
                proof { assert(r@ =~= base + row@.take(j as int)); }
            }
            proof {
                assert(row@.take(row@.len() as int) =~= row@);
                assert forall|k: int| 0 <= k < r@.len() implies (#[trigger] r@[k]) < n by {
                    if k >= base.len() {
                        assert(r@[k] == adj@[s as int]@[k - base.len()]);
                    } else {
                        assert(r@[k] == base[k]);
                    }
                }
                assert forall|b: int| 0 <= b < n implies (#[trigger] in_list(r@, b) <==>
                    exists|t: int| 0 <= t < s + 1 && sel@[t] && #[trigger] step(adj@, t, b)) by {
                    assert(in_list(base, b) <==> exists|t: int| 0 <= t < s && sel@[t] && #[trigger] step(adj@, t, b));
                    if in_list(r@, b) {
                        let k = choose|k: int| 0 <= k < r@.len() && r@[k] as int == b;
                        if k < base.len() {
                            assert(base[k] as int == b);
                            assert(in_list(base, b));
                        } else {
                            assert(adj@[s as int]@[k - base.len()] as int == b);
                            assert(step(adj@, s as int, b));
                        }
                    }
                    if exists|t: int| 0 <= t < s + 1 && sel@[t] && #[trigger] step(adj@, t, b) {
                        let t = choose|t: int| 0 <= t < s + 1 && sel@[t] && #[trigger] step(adj@, t, b);
                        if t < s {
                            let k = choose|k: int| 0 <= k < base.len() && base[k] as int == b;
                            assert(r@[k] == base[k]);
                        } else {
                            let q = choose|q: int| 0 <= q < adj@[s as int]@.len() && adj@[s as int]@[q] as int == b;
                            assert(r@[base.len() + q] as int == b);
                        }
                    }
                }
            }
        } else {
            proof {
                assert forall|b: int| 0 <= b < n implies (#[trigger] in_list(r@, b) <==>
                    exists|t: int| 0 <= t < s + 1 && sel@[t] && #[trigger] step(adj@, t, b)) by {
                    if exists|t: int| 0 <= t < s + 1 && sel@[t] && #[trigger] step(adj@, t, b) {
                        let t = choose|t: int| 0 <= t < s + 1 && sel@[t] && #[trigger] step(adj@, t, b);
                        assert(t < s);
                    }
                }
            }
        }
        s = s + 1;
    }
    r
}


// ---------------------------------------------------------------------------
// Walks confined to one label
// ---------------------------------------------------------------------------

/// `p` is a walk every vertex `x` of which carries `label[x] == key`.
pub open spec fn walk_within(adj: Seq<Vec<usize>>, label: Seq<usize>, key: usize, p: Seq<int>) -> bool {
    &&& is_path(adj, p)
    &&& forall|i: int| 0 <= i < p.len() ==> label[#[trigger] p[i]] == key
}

/// There is a walk from `u` to `v` that stays on vertices labelled `key`.
pub open spec fn reaches_within(adj: Seq<Vec<usize>>, label: Seq<usize>, key: usize, u: int, v: int) -> bool {
    exists|p: Seq<int>| #[trigger] walk_within(adj, label, key, p) && p[0] == u && p.last() == v
}

/// A confined walk is a walk.
pub proof fn lemma_within_reaches(adj: Seq<Vec<usize>>, label: Seq<usize>, key: usize, u: int, v: int)
    requires
        reaches_within(adj, label, key, u, v),
    ensures
        reaches(adj, u, v),
        0 <= v < adj.len(),
        label[v] == key,
{
    let p = choose|p: Seq<int>| #[trigger] walk_within(adj, label, key, p) && p[0] == u && p.last() == v;
    assert(is_path(adj, p));
    assert(label[p[p.len() - 1]] == key);
}

/// A walk all of whose vertices lie between its ends stays on any label
/// those vertices share.
pub proof fn lemma_within_between(adj: Seq<Vec<usize>>, label: Seq<usize>, key: usize, u: int, v: int)
    requires
        reaches(adj, u, v),
        forall|x: int| 0 <= x < adj.len() && reaches(adj, u, x) && reaches(adj, x, v) ==> label[x] == key,
    ensures
        reaches_within(adj, label, key, u, v),
{
    let p = choose|p: Seq<int>| #[trigger] is_path(adj, p) && p[0] == u && p.last() == v;
    assert forall|i: int| 0 <= i < p.len() implies label[#[trigger] p[i]] == key by {
        let a = p.subrange(0, i + 1);
        let b = p.subrange(i, p.len() as int);
        assert forall|k: int| 0 <= k < a.len() - 1 implies step(adj, #[trigger] a[k], a[k + 1]) by {
            assert(a[k] == p[k] && a[k + 1] == p[k + 1]);
        }
        assert forall|k: int| 0 <= k < b.len() - 1 implies step(adj, #[trigger] b[k], b[k + 1]) by {
            assert(b[k] == p[i + k] && b[k + 1] == p[i + k + 1]);
        }
        assert(is_path(adj, a));
        assert(is_path(adj, b));
        assert(b.last() == v);
    }
    assert(walk_within(adj, label, key, p));
}

/// A confined walk extends by one edge into a vertex with the same label.
proof fn lemma_within_step(adj: Seq<Vec<usize>>, label: Seq<usize>, key: usize, u: int, v: int, w: int)
    requires
        reaches_within(adj, label, key, u, v),
        step(adj, v, w),
        adj_ok(adj),
        label[w] == key,
    ensures
        reaches_within(adj, label, key, u, w),
{
    let p = choose|p: Seq<int>| #[trigger] walk_within(adj, label, key, p) && p[0] == u && p.last() == v;
    let q = p.push(w);
    let j = choose|j: int| 0 <= j < adj[v]@.len() && adj[v]@[j] as int == w;
    assert(adj[v]@[j] < adj.len());
    assert forall|i: int| 0 <= i < q.len() implies 0 <= #[trigger] q[i] < adj.len() && label[q[i]] == key by {
        if i < p.len() {
            assert(q[i] == p[i]);
        }
    }
    assert forall|i: int| 0 <= i < q.len() - 1 implies step(adj, #[trigger] q[i], q[i + 1]) by {
        if i < p.len() - 1 {
            assert(q[i] == p[i] && q[i + 1] == p[i + 1]);
        }
    }
    assert(walk_within(adj, label, key, q));
}

proof fn lemma_within_closed_path(adj: Seq<Vec<usize>>, label: Seq<usize>, key: usize, set: Seq<bool>, p: Seq<int>, i: int)
    requires
        set.len() == adj.len(),
        walk_within(adj, label, key, p),
        0 <= i < p.len(),
        set[p[0]],
        forall|x: int, y: int| 0 <= x < adj.len() && set[x] && #[trigger] step(adj, x, y) && label[y] == key ==> set[y],
    ensures
        set[p[i]],
    decreases i,
{
    if i > 0 {
        lemma_within_closed_path(adj, label, key, set, p, i - 1);
        assert(step(adj, p[i - 1], p[i]));
        assert(label[p[i]] == key);
    }
}

/// The vertices whose stamp is `epoch`.
pub open spec fn stamped(s: Seq<usize>, epoch: usize) -> Seq<bool> {
    Seq::new(s.len(), |i: int| s[i] == epoch)
}

/// Stamps with `epoch` every vertex reached from `start` by a walk that stays
/// on vertices `x` with `label[x] == key`, leaving every other stamp as it
/// was, and lists the vertices it stamped.
pub fn search(
    adj: &Vec<Vec<usize>>,
    start: usize,
    label: &Vec<usize>,
    key: usize,
    seen: &mut Vec<usize>,
    epoch: usize,
) -> (found: Vec<usize>)
    requires
        adj_ok(adj@),
        label@.len() == adj@.len(),
        old(seen)@.len() == adj@.len(),
        start < adj@.len(),
        label@[start as int] == key,
        forall|x: int| 0 <= x < adj@.len() ==> old(seen)@[x] != epoch,
    ensures
        final(seen)@.len() == adj@.len(),
        forall|x: int| 0 <= x < adj@.len() ==>
            (final(seen)@[x] == epoch <==> reaches_within(adj@, label@, key, start as int, x)),
        forall|x: int| 0 <= x < adj@.len() && final(seen)@[x] != epoch ==> final(seen)@[x] == old(seen)@[x],
        forall|k: int| 0 <= k < found@.len() ==> (#[trigger] found@[k]) < adj@.len(),
        forall|x: int| 0 <= x < adj@.len() ==> (found@.contains(x as usize) <==> final(seen)@[x] == epoch),
{
    let n = adj.len();
    let ghost initial = seen@;
    proof {
        let p = seq![start as int];
        assert(walk_within(adj@, label@, key, p));
        assert(stamped(seen@.update(start as int, epoch), epoch) =~= stamped(seen@, epoch).update(start as int, true));
    }
    seen.set(start, epoch);
    let mut stack: Vec<usize> = Vec::new();
    stack.push(start);
    let mut found: Vec<usize> = Vec::new();
    found.push(start);
    proof {
        assert forall|x: int| 0 <= x < n && seen@[x] == epoch implies stack@.contains(x as usize) && found@.contains(x as usize) by {
            assert(x == start);
            assert(stack@[0] == start && found@[0] == start);
        }
    }
    while stack.len() > 0
        invariant
            n == adj@.len(),
            adj_ok(adj@),
            label@.len() == n,
            seen@.len() == n,
            initial.len() == n,
            start < n,
            seen@[start as int] == epoch,
            forall|k: int| 0 <= k < stack@.len() ==> (#[trigger] stack@[k]) < n && seen@[stack@[k] as int] == epoch,
            forall|k: int| 0 <= k < found@.len() ==> (#[trigger] found@[k]) < n,
            forall|x: int| 0 <= x < n ==> (found@.contains(x as usize) <==> seen@[x] == epoch),
            forall|x: int| 0 <= x < n && seen@[x] == epoch ==> reaches_within(adj@, label@, key, start as int, x),
            forall|x: int| 0 <= x < n && seen@[x] != epoch ==> seen@[x] == initial[x],
            forall|x: int, w: int| 0 <= x < n && seen@[x] == epoch && !stack@.contains(x as usize) && #[trigger] step(adj@, x, w)
                && label@[w] == key ==> seen@[w] == epoch,
        decreases stack@.len() + 2 * count_unset(stamped(seen@, epoch)),
    {
        let ghost before = stack@.len() + 2 * count_unset(stamped(seen@, epoch));
        let ghost old_stack = stack@;
        let v = stack.pop().unwrap();
        proof {
            assert(old_stack =~= stack@.push(v));
            assert forall|x: int| 0 <= x < n && x != v && !stack@.contains(x as usize) implies !#[trigger] old_stack.contains(x as usize) by {
                if old_stack.contains(x as usize) {
                    let k = choose|k: int| 0 <= k < old_stack.len() && old_stack[k] == x as usize;
                    if k < stack@.len() {
                        assert(stack@[k] == x as usize);
                    }
                }
            }
            assert forall|k: int| 0 <= k < stack@.len() implies (#[trigger] stack@[k]) < n && seen@[stack@[k] as int] == epoch by {
                assert(stack@[k] == old_stack[k]);
            }
        }
        let succ = &adj[v];
        let mut j: usize = 0;
        while j < succ.len()
            invariant
                n == adj@.len(),
                adj_ok(adj@),
                label@.len() == n,
                v < n,
                seen@[v as int] == epoch,
                succ@ == adj@[v as int]@,
                j <= succ@.len(),
                seen@.len() == n,
                initial.len() == n,
                start < n,
                seen@[start as int] == epoch,
                stack@.len() + 2 * count_unset(stamped(seen@, epoch)) + 1 <= before,
                forall|k: int| 0 <= k < stack@.len() ==> (#[trigger] stack@[k]) < n && seen@[stack@[k] as int] == epoch,
                forall|k: int| 0 <= k < found@.len() ==> (#[trigger] found@[k]) < n,
                forall|x: int| 0 <= x < n ==> (found@.contains(x as usize) <==> seen@[x] == epoch),
                forall|x: int| 0 <= x < n && seen@[x] == epoch ==> reaches_within(adj@, label@, key, start as int, x),
                forall|x: int| 0 <= x < n && seen@[x] != epoch ==> seen@[x] == initial[x],
                forall|k: int| 0 <= k < j && label@[succ@[k] as int] == key ==> seen@[#[trigger] succ@[k] as int] == epoch,
                forall|x: int, w: int| 0 <= x < n && x != v && seen@[x] == epoch && !stack@.contains(x as usize)
                    && #[trigger] step(adj@, x, w) && label@[w] == key ==> seen@[w] == epoch,
            decreases succ@.len() - j,
        {
            let w = succ[j];
            assert(w < n);
            if seen[w] != epoch && label[w] == key {
                proof {
                    lemma_count_unset_set(stamped(seen@, epoch), w as int);
                    assert(stamped(seen@.update(w as int, epoch), epoch) =~= stamped(seen@, epoch).update(w as int, true));
                    assert(adj@[v as int]@[j as int] == w);
                    assert(step(adj@, v as int, w as int));
                    lemma_within_step(adj@, label@, key, start as int, v as int, w as int);
                }
                let ghost prev_stack = stack@;
                let ghost prev_seen = seen@;
                let ghost prev_found = found@;
                seen.set(w, epoch);
                stack.push(w);
                found.push(w);
                proof {
                    assert forall|k: int| 0 <= k < j && label@[succ@[k] as int] == key implies seen@[#[trigger] succ@[k] as int] == epoch by {
                        assert(prev_seen[succ@[k] as int] == epoch);
                    }
                    assert forall|k: int| 0 <= k < stack@.len() implies (#[trigger] stack@[k]) < n && seen@[stack@[k] as int] == epoch by {
                        if k < prev_stack.len() {
                            assert(stack@[k] == prev_stack[k]);
                        }
                    }
                    assert forall|k: int| 0 <= k < found@.len() implies (#[trigger] found@[k]) < n by {
                        if k < prev_found.len() {
                            assert(found@[k] == prev_found[k]);
                        }
                    }
                    assert forall|x: int| 0 <= x < n implies (found@.contains(x as usize) <==> seen@[x] == epoch) by {
                        if found@.contains(x as usize) {
                            let t = choose|t: int| 0 <= t < found@.len() && found@[t] == x as usize;
                            if t < prev_found.len() {
                                assert(prev_found[t] == x as usize);
                            }
                        }
                        if seen@[x] == epoch {
                            if x == w {
                                assert(found@[prev_found.len() as int] == w);
                            } else {
                                assert(prev_found.contains(x as usize));
                                let t = choose|t: int| 0 <= t < prev_found.len() && prev_found[t] == x as usize;
                                assert(found@[t] == x as usize);
                            }
                        }
                    }
                    assert forall|x: int, y: int| 0 <= x < n && x != v && seen@[x] == epoch && !stack@.contains(x as usize)
                        && #[trigger] step(adj@, x, y) && label@[y] == key implies seen@[y] == epoch by {
                        if x != w {
                            assert(prev_seen[x] == epoch);
                            if prev_stack.contains(x as usize) {
                                let k = choose|k: int| 0 <= k < prev_stack.len() && prev_stack[k] == x as usize;
                                assert(stack@[k] == x as usize);
                            }
                        } else {
                            assert(stack@[prev_stack.len() as int] == w);
                        }
                    }
                }
            }
            j = j + 1;
        }
        proof {
            assert forall|x: int, w: int| 0 <= x < n && seen@[x] == epoch && !stack@.contains(x as usize)
                && #[trigger] step(adj@, x, w) && label@[w] == key implies seen@[w] == epoch by {
                if x == v {
                    let k = choose|k: int| 0 <= k < adj@[v as int]@.len() && adj@[v as int]@[k] as int == w;
                    assert(succ@[k] as int == w);
                }
            }
        }
    }
    proof {
        assert forall|x: int| 0 <= x < n && reaches_within(adj@, label@, key, start as int, x) implies seen@[x] == epoch by {
            let marks = stamped(seen@, epoch);
            let p = choose|p: Seq<int>| #[trigger] walk_within(adj@, label@, key, p) && p[0] == start as int && p.last() == x;
            assert forall|a: int, b: int| 0 <= a < n && marks[a] && #[trigger] step(adj@, a, b) && label@[b] == key implies marks[b] by {
                let k = choose|k: int| 0 <= k < adj@[a]@.len() && adj@[a]@[k] as int == b;
                assert(adj@[a]@[k] < n);
            }
            lemma_within_closed_path(adj@, label@, key, marks, p, p.len() - 1);
        }
    }
    found
}

} // verus!
