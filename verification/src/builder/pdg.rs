//! Program dependence: control dependence read off the post-dominator tree of
//! a function's control-flow graph, data dependence projected from the
//! data-flow graph, and program slices over both.
//!
//! Control dependence is the post-dominance frontier: the control-flow graph
//! is reversed, every exit is linked from a virtual exit, and for each join
//! `b` of the reversed graph every node met on the walk from a predecessor of
//! `b` up the dominator tree to the immediate dominator of `b` is control
//! dependent on `b`.

use vstd::prelude::*;
use petgraph::algo::dominators::simple_fast;
use petgraph::graphmap::DiGraphMap;
use crate::graph::{lemma_select_step, select, CodePropertyGraph, CpgEdge, CpgEdgeKind, CpgNodeKind, DfgEdgeKind, NodeId};
use crate::overlay::{overlay_adjacency, overlay_below, overlay_reached, overlay_reaches, overlay_rel, picks, reached_nodes, Overlay};
use crate::reach::{
    adj_ok, rel_path, lemma_realises_reaches, lemma_reverse_reaches, reachable, reached_from, reaches, realises, rel_reaches,
    restrict, reverse_adjacency, step,
};

verus! {

/// Id of the virtual exit that every exit of a function is linked from.
/// Node ids are indices below the node count, which never reaches it.
pub const VIRTUAL_EXIT: u32 = 4294967295u32;

/// The immediate dominator recorded for `x`; none past the table.
pub open spec fn idom_at(idom: Seq<Option<u32>>, x: u32) -> Option<u32> {
    if (x as int) < idom.len() { idom[x as int] } else { None }
}

/// `d` is met on the walk from `x` up the dominator tree, stopping before
/// `stop` and after at most `fuel` steps.
pub open spec fn walk_visits(idom: Seq<Option<u32>>, x: u32, stop: u32, d: u32, fuel: nat) -> bool
    decreases fuel,
{
    x != stop && (x == d || (fuel > 0 && match idom_at(idom, x) {
        Some(y) => walk_visits(idom, y, stop, d, (fuel - 1) as nat),
        None => false,
    }))
}

/// `q` precedes `a` in the reversed graph: a successor of `a` under `rel`,
/// or the virtual exit when `a` is linked from it.
pub open spec fn rev_pred(rel: spec_fn(int, int) -> bool, n: int, linked: Seq<bool>, a: int, q: u32) -> bool {
    ((q as int) < n && rel(a, q as int)) || (q == VIRTUAL_EXIT && linked[a])
}

/// `a` has two distinct predecessors in the reversed graph.
pub open spec fn is_join(rel: spec_fn(int, int) -> bool, n: int, linked: Seq<bool>, a: int) -> bool {
    exists|p: u32, q: u32| p != q && #[trigger] rev_pred(rel, n, linked, a, p) && #[trigger] rev_pred(rel, n, linked, a, q)
}

/// `d` is control dependent on `a`: `a` is a member join with an immediate
/// dominator `stop`, and `d` (not the virtual exit) is met walking up the
/// dominator tree from a predecessor of `a` to `stop`.
pub open spec fn cd_rel(
    rel: spec_fn(int, int) -> bool,
    n: int,
    member: Seq<bool>,
    linked: Seq<bool>,
    idom: Seq<Option<u32>>,
    a: u32,
    d: u32,
) -> bool {
    &&& (a as int) < n
    &&& member[a as int]
    &&& is_join(rel, n, linked, a as int)
    &&& d != VIRTUAL_EXIT
    &&& match idom_at(idom, a) {
        Some(stop) => exists|q: u32| #[trigger] rev_pred(rel, n, linked, a as int, q) && walk_visits(idom, q, stop, d, (n + 1) as nat),
        None => false,
    }
}

/// The walk relation of adjacency lists.
pub open spec fn adj_rel(adj: Seq<Vec<usize>>) -> spec_fn(int, int) -> bool {
    |a: int, b: int| step(adj, a, b)
}

/// Whether `v` holds `x`.
fn holds_u32(v: &Vec<u32>, x: u32) -> (r: bool)
    ensures
        r == v@.contains(x),
{
    let mut i: usize = 0;
    while i < v.len()
        invariant
            i <= v@.len(),
            forall|k: int| 0 <= k < i ==> v@[k] != x,
        decreases v@.len() - i,
    {
        if v[i] == x {
            assert(v@[i as int] == x);
            return true;
        }
        i = i + 1;
    }
    false
}

/// The distinct predecessors of `a` in the reversed graph: its successors,
/// then the virtual exit when `a` is linked from it.
fn reversed_preds(succ: &Vec<Vec<usize>>, a: usize, linked: bool) -> (r: Vec<u32>)
    requires
        adj_ok(succ@),
        a < succ@.len(),
        succ@.len() <= u32::MAX,
    ensures
        r@.no_duplicates(),
        forall|q: u32| r@.contains(q) <==> (((q as int) < succ@.len() && step(succ@, a as int, q as int)) || (q == VIRTUAL_EXIT && linked)),
{
    let n = succ.len();
    let list = &succ[a];
    let mut r: Vec<u32> = Vec::new();
    let mut k: usize = 0;
    while k < list.len()
        invariant
            adj_ok(succ@),
            a < succ@.len(),
            n == succ@.len(),
            n <= u32::MAX,
            list@ == succ@[a as int]@,
            k <= list@.len(),
            r@.no_duplicates(),
            forall|q: u32| r@.contains(q) <==> exists|j: int| 0 <= j < k && list@[j] as int == q as int,
            forall|t: int| 0 <= t < r@.len() ==> (r@[t] as int) < n,
        decreases list@.len() - k,
    {
        let x = list[k];
        assert(x < n);
        let xs = x as u32;
        let ghost prev = r@;
        if !holds_u32(&r, xs) {
            r.push(xs);
            proof {
                assert forall|s: int, t: int| 0 <= s < t < r@.len() implies r@[s] != r@[t] by {
                    if t == r@.len() - 1 {
                        assert(prev.contains(r@[s]) || s == t);
                    }
                }
            }
        }
        proof {
            assert forall|q: u32| r@.contains(q) <==> exists|j: int| 0 <= j < k + 1 && list@[j] as int == q as int by {
                if r@.contains(q) && !prev.contains(q) {
                    assert(q == xs);
                    assert(list@[k as int] as int == q as int);
                }
                if exists|j: int| 0 <= j < k + 1 && list@[j] as int == q as int {
                    let j = choose|j: int| 0 <= j < k + 1 && list@[j] as int == q as int;
                    if j == k {
                        assert(q == xs);
                        if !prev.contains(q) {
                            assert(r@[r@.len() - 1] == q);
                        }
                    } else {
                        assert(prev.contains(q));
                        let t = choose|t: int| 0 <= t < prev.len() && prev[t] == q;
                        assert(r@[t] == q);
                    }
                }
            }
        }
        k = k + 1;
    }
    proof {
        assert forall|q: u32| r@.contains(q) <==> ((q as int) < n && step(succ@, a as int, q as int)) by {
            if r@.contains(q) {
                let j = choose|j: int| 0 <= j < k && list@[j] as int == q as int;
                let t = choose|t: int| 0 <= t < r@.len() && r@[t] == q;
                assert((r@[t] as int) < n);
            }
            if (q as int) < n && step(succ@, a as int, q as int) {
                let j = choose|j: int| 0 <= j < succ@[a as int]@.len() && succ@[a as int]@[j] as int == q as int;
                assert(list@[j] as int == q as int);
            }
        }
    }
    if linked {
        let ghost prev = r@;
        assert(!prev.contains(VIRTUAL_EXIT)) by {
            if prev.contains(VIRTUAL_EXIT) {
                let t = choose|t: int| 0 <= t < prev.len() && prev[t] == VIRTUAL_EXIT;
                assert((prev[t] as int) < n);
            }
        }
        r.push(VIRTUAL_EXIT);
        proof {
            assert forall|s: int, t: int| 0 <= s < t < r@.len() implies r@[s] != r@[t] by {
                if t == r@.len() - 1 {
                    assert(prev.contains(r@[s]));
                }
            }
            assert forall|q: u32| r@.contains(q) <==> (((q as int) < n && step(succ@, a as int, q as int)) || q == VIRTUAL_EXIT) by {
                if r@.contains(q) && q != VIRTUAL_EXIT {
                    let t = choose|t: int| 0 <= t < r@.len() && r@[t] == q;
                    assert(t < prev.len());
                    assert(prev.contains(q));
                }
                if ((q as int) < n && step(succ@, a as int, q as int)) {
                    assert(prev.contains(q));
                    let t = choose|t: int| 0 <= t < prev.len() && prev[t] == q;
                    assert(r@[t] == q);
                }
                if q == VIRTUAL_EXIT {
                    assert(r@[r@.len() - 1] == q);
                }
            }
        }
    }
    r
}

/// Walks from `q` up the dominator tree towards `stop`, recording `(a, d)`
/// for every node `d` met (the virtual exit aside) that `stamp` does not
/// already mark as recorded for `a`.
fn walk_up(
    idom: &Vec<Option<u32>>,
    q: u32,
    stop: u32,
    a: usize,
    stamp: &mut Vec<u64>,
    out: &mut Vec<(NodeId, NodeId)>,
)
    requires
        idom@.len() == old(stamp)@.len(),
        idom@.len() <= u32::MAX,
        a < idom@.len(),
        (q as int) < idom@.len() || q == VIRTUAL_EXIT,
        forall|x: int| 0 <= x < idom@.len() ==> (#[trigger] idom@[x] matches Some(y) ==> ((y as int) < idom@.len() || y == VIRTUAL_EXIT)),
        forall|d: int| 0 <= d < idom@.len() ==> #[trigger] old(stamp)@[d] <= a + 1,
        forall|d: u32| (d as int) < idom@.len() ==> (old(stamp)@[d as int] == a + 1 <==> #[trigger] old(out)@.contains((NodeId(a as u32), NodeId(d)))),
        old(out)@.no_duplicates(),
    ensures
        final(stamp)@.len() == old(stamp)@.len(),
        forall|d: int| 0 <= d < idom@.len() ==> #[trigger] final(stamp)@[d] <= a + 1,
        forall|d: u32| (d as int) < idom@.len() ==> (final(stamp)@[d as int] == a + 1 <==> #[trigger] final(out)@.contains((NodeId(a as u32), NodeId(d)))),
        final(out)@.no_duplicates(),
        final(out)@.len() >= old(out)@.len(),
        final(out)@.subrange(0, old(out)@.len() as int) == old(out)@,
        forall|k: int| old(out)@.len() <= k < final(out)@.len() ==> (#[trigger] final(out)@[k]).0 == NodeId(a as u32),
        forall|d: u32| #[trigger] final(out)@.contains((NodeId(a as u32), NodeId(d))) <==>
            (old(out)@.contains((NodeId(a as u32), NodeId(d)))
                || (d != VIRTUAL_EXIT && walk_visits(idom@, q, stop, d, (idom@.len() + 1) as nat))),
{
    let n = idom.len();
    let ghost fuel = (n + 1) as nat;
    let ghost out0 = out@;
    let ghost mut vis: Set<u32> = Set::empty();
    let mut runner = q;
    let mut left: u64 = n as u64 + 1;
    loop
        invariant_except_break
            forall|d: u32| #![trigger walk_visits(idom@, q, stop, d, fuel)] walk_visits(idom@, q, stop, d, fuel) <==> (vis.contains(d) || walk_visits(idom@, runner, stop, d, left as nat)),
        invariant
            n == idom@.len(),
            n <= u32::MAX,
            a < n,
            stamp@.len() == n,
            (runner as int) < n || runner == VIRTUAL_EXIT,
            left <= fuel,
            forall|x: int| 0 <= x < n ==> (#[trigger] idom@[x] matches Some(y) ==> ((y as int) < n || y == VIRTUAL_EXIT)),
            forall|d: int| 0 <= d < n ==> #[trigger] stamp@[d] <= a + 1,
            forall|d: u32| (d as int) < n ==> (stamp@[d as int] == a + 1 <==> #[trigger] out@.contains((NodeId(a as u32), NodeId(d)))),
            out@.no_duplicates(),
            out@.len() >= out0.len(),
            out@.subrange(0, out0.len() as int) == out0,
            forall|k: int| out0.len() <= k < out@.len() ==> (#[trigger] out@[k]).0 == NodeId(a as u32),
            forall|d: u32| vis.contains(d) ==> d == VIRTUAL_EXIT || (d as int) < n,
            forall|d: u32| #[trigger] out@.contains((NodeId(a as u32), NodeId(d))) <==>
                (out0.contains((NodeId(a as u32), NodeId(d))) || (d != VIRTUAL_EXIT && vis.contains(d))),
        ensures
            stamp@.len() == n,
            forall|d: int| 0 <= d < n ==> #[trigger] stamp@[d] <= a + 1,
            forall|d: u32| (d as int) < n ==> (stamp@[d as int] == a + 1 <==> #[trigger] out@.contains((NodeId(a as u32), NodeId(d)))),
            out@.no_duplicates(),
            out@.len() >= out0.len(),
            out@.subrange(0, out0.len() as int) == out0,
            forall|k: int| out0.len() <= k < out@.len() ==> (#[trigger] out@[k]).0 == NodeId(a as u32),
            forall|d: u32| walk_visits(idom@, q, stop, d, fuel) <==> vis.contains(d),
            forall|d: u32| #[trigger] out@.contains((NodeId(a as u32), NodeId(d))) <==>
                (out0.contains((NodeId(a as u32), NodeId(d))) || (d != VIRTUAL_EXIT && vis.contains(d))),
        decreases left,
    {
        if runner == stop {
            proof {
                assert forall|d: u32| walk_visits(idom@, q, stop, d, fuel) <==> vis.contains(d) by {
                    assert(!walk_visits(idom@, runner, stop, d, left as nat));
                }
            }
            break;
        }
        let ghost prev_out = out@;
        let ghost prev_stamp = stamp@;
        let ghost prev_vis = vis;
        let ghost mut pushed = false;
        if runner != VIRTUAL_EXIT {
            let r = runner as usize;
            if stamp[r] != a as u64 + 1 {
                proof { pushed = true; }
                stamp.set(r, a as u64 + 1);
                let pair = (NodeId(a as u32), NodeId(runner));
                assert(!prev_out.contains(pair));
                out.push(pair);
                proof {
                    assert forall|s: int, t: int| 0 <= s < t < out@.len() implies out@[s] != out@[t] by {
                        if t == out@.len() - 1 {
                            assert(prev_out.contains(out@[s]));
                        }
                    }
                    assert(out@.subrange(0, out0.len() as int) =~= prev_out.subrange(0, out0.len() as int));
                }
            }
        }
        proof {
            vis = vis.insert(runner);
            assert forall|d: u32| (d as int) < n implies (stamp@[d as int] == a + 1 <==> #[trigger] out@.contains((NodeId(a as u32), NodeId(d)))) by {
                assert(prev_stamp[d as int] == a + 1 <==> prev_out.contains((NodeId(a as u32), NodeId(d))));
                if pushed {
                    assert(out@ == prev_out.push((NodeId(a as u32), NodeId(runner))));
                    assert(stamp@ == prev_stamp.update(runner as int, (a + 1) as u64));
                    if d == runner {
                        assert(out@[out@.len() - 1] == (NodeId(a as u32), NodeId(d)));
                    }
                } else {
                    assert(out@ == prev_out);
                    assert(stamp@ == prev_stamp);
                }
                if out@.contains((NodeId(a as u32), NodeId(d))) && !prev_out.contains((NodeId(a as u32), NodeId(d))) {
                    let t = choose|t: int| 0 <= t < out@.len() && out@[t] == (NodeId(a as u32), NodeId(d));
                    assert(t == out@.len() - 1);
                }
                if prev_out.contains((NodeId(a as u32), NodeId(d))) {
                    let t = choose|t: int| 0 <= t < prev_out.len() && prev_out[t] == (NodeId(a as u32), NodeId(d));
                    assert(out@[t] == prev_out[t]);
                }
            }
            assert forall|d: u32| #[trigger] out@.contains((NodeId(a as u32), NodeId(d))) <==>
                (out0.contains((NodeId(a as u32), NodeId(d))) || (d != VIRTUAL_EXIT && vis.contains(d))) by {
                if out@.contains((NodeId(a as u32), NodeId(d))) && !prev_out.contains((NodeId(a as u32), NodeId(d))) {
                    let t = choose|t: int| 0 <= t < out@.len() && out@[t] == (NodeId(a as u32), NodeId(d));
                    assert(t == out@.len() - 1);
                }
                if prev_out.contains((NodeId(a as u32), NodeId(d))) {
                    let t = choose|t: int| 0 <= t < prev_out.len() && prev_out[t] == (NodeId(a as u32), NodeId(d));
                    assert(out@[t] == prev_out[t]);
                }
                if d == runner && d != VIRTUAL_EXIT && !prev_out.contains((NodeId(a as u32), NodeId(d))) {
                    assert(stamp@[d as int] == a + 1);
                }
            }
            assert forall|k: int| out0.len() <= k < out@.len() implies (#[trigger] out@[k]).0 == NodeId(a as u32) by {
                if k < prev_out.len() {
                    assert(out@[k] == prev_out[k]);
                }
            }
        }
        if left == 0 {
            proof {
                assert forall|d: u32| walk_visits(idom@, q, stop, d, fuel) <==> vis.contains(d) by {
                    assert(walk_visits(idom@, runner, stop, d, 0) <==> runner == d);
                }
            }
            break;
        }
        let next = if (runner as usize) < n { idom[runner as usize] } else { None };
        match next {
            Some(y) => {
                proof {
                    assert(idom_at(idom@, runner) == Some(y));
                    assert forall|d: u32| walk_visits(idom@, q, stop, d, fuel) <==> (vis.contains(d) || walk_visits(idom@, y, stop, d, (left - 1) as nat)) by {
                        assert(walk_visits(idom@, q, stop, d, fuel) <==> (prev_vis.contains(d) || walk_visits(idom@, runner, stop, d, left as nat)));
                        assert(walk_visits(idom@, runner, stop, d, left as nat) <==> (runner == d || walk_visits(idom@, y, stop, d, (left - 1) as nat)));
                    }
                }
                runner = y;
                left = left - 1;
            },
            None => {
                proof {
                    assert(idom_at(idom@, runner) is None);
                    assert forall|d: u32| walk_visits(idom@, q, stop, d, fuel) <==> vis.contains(d) by {
                        assert(walk_visits(idom@, q, stop, d, fuel) <==> (prev_vis.contains(d) || walk_visits(idom@, runner, stop, d, left as nat)));
                        assert(walk_visits(idom@, runner, stop, d, left as nat) <==> runner == d);
                    }
                }
                break;
            },
        }
    }
}

/// A walk up a table whose entries are ids below `n` or the virtual exit
/// meets only such ids.
proof fn lemma_walk_range(idom: Seq<Option<u32>>, x: u32, stop: u32, d: u32, fuel: nat)
    requires
        (x as int) < idom.len() || x == VIRTUAL_EXIT,
        forall|i: int| 0 <= i < idom.len() ==> (#[trigger] idom[i] matches Some(y) ==> ((y as int) < idom.len() || y == VIRTUAL_EXIT)),
        walk_visits(idom, x, stop, d, fuel),
    ensures
        (d as int) < idom.len() || d == VIRTUAL_EXIT,
    decreases fuel,
{
    if x != d {
        match idom_at(idom, x) {
            Some(y) => {
                assert(idom[x as int] == Some(y));
                lemma_walk_range(idom, y, stop, d, (fuel - 1) as nat);
            },
            None => {},
        }
    }
}

/// A duplicate-free listing of a predecessor set has two entries exactly when
/// the node is a join.
proof fn lemma_join_listing(preds: Seq<u32>, rel: spec_fn(int, int) -> bool, n: int, linked: Seq<bool>, a: int)
    requires
        preds.no_duplicates(),
        forall|q: u32| preds.contains(q) <==> rev_pred(rel, n, linked, a, q),
    ensures
        is_join(rel, n, linked, a) <==> preds.len() >= 2,
{
    if preds.len() >= 2 {
        assert(preds.contains(preds[0]));
        assert(preds.contains(preds[1]));
        assert(rev_pred(rel, n, linked, a, preds[0]) && rev_pred(rel, n, linked, a, preds[1]));
    }
    if is_join(rel, n, linked, a) {
        let (p, q) = choose|p: u32, q: u32| p != q && #[trigger] rev_pred(rel, n, linked, a, p) && #[trigger] rev_pred(rel, n, linked, a, q);
        assert(preds.contains(p));
        assert(preds.contains(q));
        let i = choose|i: int| 0 <= i < preds.len() && preds[i] == p;
        let j = choose|j: int| 0 <= j < preds.len() && preds[j] == q;
        assert(i != j);
    }
}

/// The control-dependence pairs `(controller, dependent)` of a control-flow
/// graph given by its member nodes `member`, its successor lists `succ`
/// (restricted to members), the nodes `linked` from the virtual exit, and
/// `idom`, the immediate dominators of the reversed graph rooted at the
/// virtual exit: the pairs of [`cd_rel`], each once.
pub fn control_dependence_from(
    member: &Vec<bool>,
    succ: &Vec<Vec<usize>>,
    linked: &Vec<bool>,
    idom: &Vec<Option<u32>>,
) -> (r: Vec<(NodeId, NodeId)>)
    requires
        succ@.len() == member@.len(),
        linked@.len() == member@.len(),
        idom@.len() == member@.len(),
        member@.len() <= u32::MAX,
        adj_ok(succ@),
        forall|x: int| 0 <= x < idom@.len() ==> (#[trigger] idom@[x] matches Some(y) ==> ((y as int) < idom@.len() || y == VIRTUAL_EXIT)),
    ensures
        r@.no_duplicates(),
        forall|a: u32, d: u32| #[trigger] r@.contains((NodeId(a), NodeId(d))) <==>
            cd_rel(adj_rel(succ@), member@.len() as int, member@, linked@, idom@, a, d),
        forall|k: int| 0 <= k < r@.len() ==> (#[trigger] r@[k]).0.0 < member@.len() && r@[k].1.0 < member@.len(),
{
    let n = member.len();
    let ghost rel = adj_rel(succ@);
    let ghost fuel = (n + 1) as nat;
    let mut stamp: Vec<u64> = Vec::new();
    let mut i: usize = 0;
    while i < n
        invariant
            i <= n,
            stamp@.len() == i,
            forall|d: int| 0 <= d < i ==> #[trigger] stamp@[d] == 0,
        decreases n - i,
    {
        stamp.push(0);
        i = i + 1;
    }
    let mut out: Vec<(NodeId, NodeId)> = Vec::new();
    let mut a: usize = 0;
    while a < n
        invariant
            n == member@.len(),
            succ@.len() == n,
            linked@.len() == n,
            idom@.len() == n,
            n <= u32::MAX,
            adj_ok(succ@),
            rel == adj_rel(succ@),
            fuel == (n + 1) as nat,
            forall|x: int| 0 <= x < n ==> (#[trigger] idom@[x] matches Some(y) ==> ((y as int) < n || y == VIRTUAL_EXIT)),
            a <= n,
            stamp@.len() == n,
            forall|d: int| 0 <= d < n ==> #[trigger] stamp@[d] <= a,
            forall|k: int| 0 <= k < out@.len() ==> ((#[trigger] out@[k]).0.0 as int) < a,
            out@.no_duplicates(),
            forall|x: u32, d: u32| #[trigger] out@.contains((NodeId(x), NodeId(d))) <==>
                ((x as int) < a && cd_rel(rel, n as int, member@, linked@, idom@, x, d)),
        decreases n - a,
    {
        let ghost out_a = out@;
        if member[a] {
            let preds = reversed_preds(succ, a, linked[a]);
            proof {
                lemma_join_listing(preds@, rel, n as int, linked@, a as int);
            }
            if preds.len() >= 2 {
                match idom[a] {
                    Some(stop) => {
                        let mut j: usize = 0;
                        while j < preds.len()
                            invariant
                                n == member@.len(),
                                idom@.len() == n,
                                n <= u32::MAX,
                                a < n,
                                fuel == (n + 1) as nat,
                                forall|x: int| 0 <= x < n ==> (#[trigger] idom@[x] matches Some(y) ==> ((y as int) < n || y == VIRTUAL_EXIT)),
                                forall|q: u32| preds@.contains(q) ==> ((q as int) < n || q == VIRTUAL_EXIT),
                                j <= preds@.len(),
                                stamp@.len() == n,
                                forall|d: int| 0 <= d < n ==> #[trigger] stamp@[d] <= a + 1,
                                forall|d: u32| (d as int) < n ==> (stamp@[d as int] == a + 1 <==> #[trigger] out@.contains((NodeId(a as u32), NodeId(d)))),
                                out@.no_duplicates(),
                                out@.len() >= out_a.len(),
                                out@.subrange(0, out_a.len() as int) == out_a,
                                forall|k: int| out_a.len() <= k < out@.len() ==> (#[trigger] out@[k]).0 == NodeId(a as u32),
                                forall|k: int| 0 <= k < out_a.len() ==> ((#[trigger] out_a[k]).0.0 as int) < a,
                                forall|d: u32| #[trigger] out@.contains((NodeId(a as u32), NodeId(d))) <==>
                                    (d != VIRTUAL_EXIT && exists|t: int| 0 <= t < j && #[trigger] walk_visits(idom@, preds@[t], stop, d, fuel)),
                            decreases preds@.len() - j,
                        {
                            let q = preds[j];
                            assert(preds@.contains(q));
                            let ghost before = out@;
                            walk_up(idom, q, stop, a, &mut stamp, &mut out);
                            proof {
                                assert(out@.subrange(0, out_a.len() as int) =~= before.subrange(0, out_a.len() as int));
                                assert forall|k: int| out_a.len() <= k < out@.len() implies (#[trigger] out@[k]).0 == NodeId(a as u32) by {
                                    if k < before.len() {
                                        assert(out@.subrange(0, before.len() as int)[k] == before[k]);
                                    }
                                }
                                assert forall|d: u32| #[trigger] out@.contains((NodeId(a as u32), NodeId(d))) <==>
                                    (d != VIRTUAL_EXIT && exists|t: int| 0 <= t < j + 1 && #[trigger] walk_visits(idom@, preds@[t], stop, d, fuel)) by {
                                    if d != VIRTUAL_EXIT && walk_visits(idom@, q, stop, d, fuel) {
                                        assert(walk_visits(idom@, preds@[j as int], stop, d, fuel));
                                    }
                                    if d != VIRTUAL_EXIT && exists|t: int| 0 <= t < j + 1 && #[trigger] walk_visits(idom@, preds@[t], stop, d, fuel) {
                                        let t = choose|t: int| 0 <= t < j + 1 && #[trigger] walk_visits(idom@, preds@[t], stop, d, fuel);
                                        if t < j {
                                            assert(before.contains((NodeId(a as u32), NodeId(d))));
                                        }
                                    }
                                }
                            }
                            j = j + 1;
                        }
                        proof {
                            assert(idom_at(idom@, a as u32) == Some(stop));
                            assert forall|d: u32| #[trigger] out@.contains((NodeId(a as u32), NodeId(d))) <==>
                                cd_rel(rel, n as int, member@, linked@, idom@, a as u32, d) by {
                                if out@.contains((NodeId(a as u32), NodeId(d))) {
                                    let t = choose|t: int| 0 <= t < preds@.len() && #[trigger] walk_visits(idom@, preds@[t], stop, d, fuel);
                                    assert(preds@.contains(preds@[t]));
                                    assert(rev_pred(rel, n as int, linked@, a as int, preds@[t]));
                                }
                                if cd_rel(rel, n as int, member@, linked@, idom@, a as u32, d) {
                                    let q = choose|q: u32| #[trigger] rev_pred(rel, n as int, linked@, a as int, q) && walk_visits(idom@, q, stop, d, fuel);
                                    assert(preds@.contains(q));
                                    let t = choose|t: int| 0 <= t < preds@.len() && preds@[t] == q;
                                    assert(walk_visits(idom@, preds@[t], stop, d, fuel));
                                }
                            }
                        }
                    },
                    None => {
                        proof {
                            assert(idom_at(idom@, a as u32) is None);
                        }
                    },
                }
            }
        }
        proof {
            assert forall|k: int| 0 <= k < out@.len() implies ((#[trigger] out@[k]).0.0 as int) < a + 1 by {
                if k < out_a.len() {
                    assert(out@.subrange(0, out_a.len() as int)[k] == out_a[k]);
                }
            }
            assert forall|x: u32, d: u32| #[trigger] out@.contains((NodeId(x), NodeId(d))) <==>
                ((x as int) < a + 1 && cd_rel(rel, n as int, member@, linked@, idom@, x, d)) by {
                if x as int != a as int {
                    if out@.contains((NodeId(x), NodeId(d))) {
                        let k = choose|k: int| 0 <= k < out@.len() && out@[k] == (NodeId(x), NodeId(d));
                        if k >= out_a.len() {
                            assert(out@[k].0 == NodeId(a as u32));
                        } else {
                            assert(out@.subrange(0, out_a.len() as int)[k] == out_a[k]);
                            assert(out_a.contains((NodeId(x), NodeId(d))));
                        }
                    }
                    if (x as int) < a && cd_rel(rel, n as int, member@, linked@, idom@, x, d) {
                        assert(out_a.contains((NodeId(x), NodeId(d))));
                        let k = choose|k: int| 0 <= k < out_a.len() && out_a[k] == (NodeId(x), NodeId(d));
                        assert(out@.subrange(0, out_a.len() as int)[k] == out_a[k]);
                    }
                } else {
                    assert(x == a as u32);
                    if !out@.contains((NodeId(x), NodeId(d))) {
                    }
                }
            }
        }
        a = a + 1;
    }
    proof {
        assert forall|k: int| 0 <= k < out@.len() implies (#[trigger] out@[k]).0.0 < n && out@[k].1.0 < n by {
            let (x, y) = out@[k];
            assert(out@.contains((NodeId(x.0), NodeId(y.0))));
            let stop = idom_at(idom@, x.0)->0;
            let q = choose|q: u32| #[trigger] rev_pred(rel, n as int, linked@, x.0 as int, q) && walk_visits(idom@, q, stop, y.0, fuel);
            lemma_walk_range(idom@, q, stop, y.0, fuel);
        }
    }
    out
}

// ---------------------------------------------------------------------------
// Post-dominators of a function's control-flow graph
// ---------------------------------------------------------------------------

/// The immediate-dominator table that `petgraph`'s dominator algorithm
/// computes for the nodes `0..n` of the graph with `edges`, rooted at `root`.
pub uninterp spec fn immediate_dominators_of(n: usize, edges: Seq<(u32, u32)>, root: u32) -> Seq<Option<u32>>;

/// The arcs of `edges`.
pub open spec fn arc_rel(edges: Seq<(u32, u32)>) -> spec_fn(int, int) -> bool {
    |a: int, b: int| exists|k: int| 0 <= k < edges.len() && edges[k].0 as int == a && edges[k].1 as int == b
}

/// Every walk of `edges` from `root` to `x` passes through `d`.
pub open spec fn dominates(edges: Seq<(u32, u32)>, root: u32, d: int, x: int) -> bool {
    forall|p: Seq<int>| #[trigger] rel_path(arc_rel(edges), root + 1, p) && p[0] == root && p.last() == x ==> p.contains(d)
}

/// `y` is the immediate dominator of `x` in the graph of `edges` rooted at
/// `root`: `y` dominates `x` and differs from it, and every node that
/// dominates `x` and differs from it dominates `y` too.
pub open spec fn immediately_dominates(edges: Seq<(u32, u32)>, root: u32, y: int, x: int) -> bool {
    &&& y != x
    &&& dominates(edges, root, y, x)
    &&& forall|d: int| d != x && #[trigger] dominates(edges, root, d, x) ==> dominates(edges, root, d, y)
}

/// Immediate dominators of the nodes `0..n` in the graph of `edges` rooted at
/// `root` (`petgraph::algo::dominators::simple_fast` on a `DiGraphMap`, read
/// back with `Dominators::immediate_dominator`). Claimed, as the
/// documentation gives it: the table has one entry per node; a node has an
/// entry exactly when the root reaches it (the documentation gives `None` for
/// the nodes the root does not reach, and for the root, which is not among
/// `0..n`); the entry is the node's immediate dominator, a node of the graph;
/// and the table is the named result of the arguments.
#[verifier::external_body]
fn immediate_dominators(n: usize, edges: &Vec<(u32, u32)>, root: u32) -> (r: Vec<Option<u32>>)
    requires
        n <= root,
        forall|k: int| 0 <= k < edges@.len() ==>
            ((#[trigger] edges@[k]).0 < n || edges@[k].0 == root) && (edges@[k].1 < n || edges@[k].1 == root),
    ensures
        r@ == immediate_dominators_of(n, edges@, root),
        r@.len() == n,
        forall|x: int| 0 <= x < r@.len() ==> (#[trigger] r@[x] matches Some(y) ==> ((y as int) < n || y == root)),
        forall|x: int| 0 <= x < r@.len() ==>
            ((#[trigger] r@[x] is Some) <==> rel_reaches(arc_rel(edges@), root + 1, root as int, x)),
        forall|x: int| 0 <= x < r@.len() ==>
            (#[trigger] r@[x] matches Some(y) ==> immediately_dominates(edges@, root, y as int, x)),
{
    let mut graph: DiGraphMap<u32, ()> = DiGraphMap::new();
    graph.add_node(root);
    for v in 0..n {
        graph.add_node(v as u32);
    }
    for &(a, b) in edges.iter() {
        graph.add_edge(a, b, ());
    }
    let dominators = simple_fast(&graph, root);
    (0..n).map(|v| dominators.immediate_dominator(v as u32)).collect()
}

/// The nodes of `function`'s control-flow graph: those it reaches over
/// control-flow edges other than calls into callees.
pub open spec fn cfg_members(g: CodePropertyGraph, function: NodeId) -> Seq<bool> {
    Seq::new(g.nodes_view().len(), |v: int| overlay_reaches(g, Overlay::IntraControlFlow, function, NodeId(v as u32)))
}

/// `rel` between members.
pub open spec fn within(rel: spec_fn(int, int) -> bool, member: Seq<bool>) -> spec_fn(int, int) -> bool {
    |a: int, b: int| 0 <= a < member.len() && 0 <= b < member.len() && member[a] && member[b] && rel(a, b)
}

/// The edges of `function`'s control-flow graph.
pub open spec fn cfg_rel(g: CodePropertyGraph, function: NodeId) -> spec_fn(int, int) -> bool {
    within(overlay_rel(g, Overlay::IntraControlFlow), cfg_members(g, function))
}

/// `v` leaves `function`'s control-flow graph: a member without successors,
/// a return or throw, or a recorded exit.
pub open spec fn is_cfg_exit(g: CodePropertyGraph, function: NodeId, v: int) -> bool {
    &&& 0 <= v < g.nodes_view().len()
    &&& cfg_members(g, function)[v]
    &&& (!(exists|s: int| #[trigger] cfg_rel(g, function)(v, s))
        || g.nodes_view()[v].kind is Return
        || g.nodes_view()[v].kind is Throw
        || g.exits_view().contains(NodeId(v as u32)))
}

/// The members linked from the virtual exit: the exits, and the members that
/// reach no exit.
pub open spec fn exit_linked(g: CodePropertyGraph, function: NodeId) -> Seq<bool> {
    Seq::new(g.nodes_view().len(), |v: int| cfg_members(g, function)[v] && (is_cfg_exit(g, function, v)
        || !(exists|e: int| is_cfg_exit(g, function, e) && #[trigger] rel_reaches(cfg_rel(g, function), g.nodes_view().len() as int, v, e))))
}

/// A control-flow edge between members, turned around.
pub open spec fn rev_cfg_edge(member: Seq<bool>) -> spec_fn(CpgEdge) -> Option<(u32, u32)> {
    |e: CpgEdge| if picks(Overlay::IntraControlFlow, e) is Some && (e.source.0 as int) < member.len()
        && (e.target.0 as int) < member.len() && member[e.source.0 as int] && member[e.target.0 as int] {
        Some((e.target.0, e.source.0))
    } else {
        None
    }
}

/// The edges from the virtual exit to the linked nodes below `n`, in id order.
pub open spec fn exit_links(linked: Seq<bool>, n: int) -> Seq<(u32, u32)>
    decreases n,
{
    if n <= 0 {
        Seq::empty()
    } else {
        exit_links(linked, n - 1) + if linked[n - 1] { seq![(VIRTUAL_EXIT, (n - 1) as u32)] } else { Seq::empty() }
    }
}

/// The reversed control-flow graph of `function`, in edge order, then the
/// links from the virtual exit.
pub open spec fn reversed_cfg_edges(g: CodePropertyGraph, function: NodeId) -> Seq<(u32, u32)> {
    select(g.edges_view(), rev_cfg_edge(cfg_members(g, function))) + exit_links(exit_linked(g, function), g.nodes_view().len() as int)
}

/// Immediate post-dominators of `function`'s control-flow nodes.
pub open spec fn post_dominators(g: CodePropertyGraph, function: NodeId) -> Seq<Option<u32>> {
    immediate_dominators_of(g.nodes_view().len() as usize, reversed_cfg_edges(g, function), VIRTUAL_EXIT)
}

/// `function`'s control-flow graph has two nodes.
pub open spec fn two_members(g: CodePropertyGraph, function: NodeId) -> bool {
    exists|u: int, v: int| 0 <= u < v < g.nodes_view().len() && #[trigger] cfg_members(g, function)[u] && #[trigger] cfg_members(g, function)[v]
}

/// `function`'s control-flow graph has an exit.
pub open spec fn has_cfg_exit(g: CodePropertyGraph, function: NodeId) -> bool {
    exists|v: int| #[trigger] is_cfg_exit(g, function, v)
}

/// `d` is control dependent on `a` within `function`.
pub open spec fn control_dependent(g: CodePropertyGraph, function: NodeId, a: NodeId, d: NodeId) -> bool {
    &&& g.valid(function)
    &&& two_members(g, function)
    &&& has_cfg_exit(g, function)
    &&& cd_rel(cfg_rel(g, function), g.nodes_view().len() as int, cfg_members(g, function),
            exit_linked(g, function), post_dominators(g, function), a.0, d.0)
}

/// Whether two entries are set.
fn two_set(member: &Vec<bool>) -> (r: bool)
    ensures
        r == exists|u: int, v: int| 0 <= u < v < member@.len() && #[trigger] member@[u] && #[trigger] member@[v],
{
    let mut first = false;
    let mut v: usize = 0;
    while v < member.len()
        invariant
            v <= member@.len(),
            first == exists|u: int| 0 <= u < v && #[trigger] member@[u],
            !exists|u: int, w: int| 0 <= u < w < v && #[trigger] member@[u] && #[trigger] member@[w],
        decreases member@.len() - v,
    {
        if member[v] {
            if first {
                return true;
            }
            first = true;
        }
        v = v + 1;
    }
    false
}

/// The links from the virtual exit go to linked ids below `n`.
proof fn lemma_exit_links_range(linked: Seq<bool>, n: int, k: int)
    requires
        0 <= n <= u32::MAX,
        0 <= k < exit_links(linked, n).len(),
    ensures
        exit_links(linked, n)[k].0 == VIRTUAL_EXIT,
        (exit_links(linked, n)[k].1 as int) < n,
    decreases n,
{
    if n > 0 {
        let init = exit_links(linked, n - 1);
        if k < init.len() {
            lemma_exit_links_range(linked, n - 1, k);
        }
    }
}

/// Every edge handed to the dominator computation joins nodes below the node
/// count or the virtual exit.
proof fn lemma_edge_ends(g: CodePropertyGraph, function: NodeId, k: int)
    requires
        g.wf(),
        0 <= k < reversed_cfg_edges(g, function).len(),
    ensures
        ((reversed_cfg_edges(g, function)[k].0 as int) < g.nodes_view().len() || reversed_cfg_edges(g, function)[k].0 == VIRTUAL_EXIT),
        ((reversed_cfg_edges(g, function)[k].1 as int) < g.nodes_view().len() || reversed_cfg_edges(g, function)[k].1 == VIRTUAL_EXIT),
{
    let member = cfg_members(g, function);
    let sel = select(g.edges_view(), rev_cfg_edge(member));
    if k < sel.len() {
        let x = sel[k];
        assert(sel.contains(x));
        crate::graph::lemma_select_member(g.edges_view(), rev_cfg_edge(member), x);
        let j = choose|j: int| 0 <= j < g.edges_view().len() && rev_cfg_edge(member)(g.edges_view()[j]) == Some(x);
        assert(reversed_cfg_edges(g, function)[k] == x);
    } else {
        lemma_exit_links_range(exit_linked(g, function), g.nodes_view().len() as int, k - sel.len());
    }
}

/// The control-dependence pairs `(controller, dependent)` of `function`, each
/// once: the pairs of [`control_dependent`]. A loop guard is its own
/// controller through the back edge.
pub fn compute_control_dependence(g: &CodePropertyGraph, function: NodeId) -> (r: Vec<(NodeId, NodeId)>)
    requires
        g.wf(),
    ensures
        r@.no_duplicates(),
        forall|k: int| 0 <= k < r@.len() ==> g.valid((#[trigger] r@[k]).0) && g.valid(r@[k].1),
        forall|a: NodeId, d: NodeId| #[trigger] r@.contains((a, d)) <==> control_dependent(*g, function, a, d),
{
    let n = g.node_count();
    if function.0 as usize >= n {
        return Vec::new();
    }
    let ghost gv = *g;
    let ghost nn = n as int;
    let starts: Vec<NodeId> = vec![function];
    let member = reached_nodes(g, Overlay::IntraControlFlow, &starts);
    proof {
        assert forall|v: int| 0 <= v < nn implies member@[v] == cfg_members(gv, function)[v] by {
            if overlay_reached(gv, Overlay::IntraControlFlow, starts@, NodeId(v as u32)) {
                let k = choose|k: int| 0 <= k < starts@.len() && #[trigger] overlay_reaches(gv, Overlay::IntraControlFlow, starts@[k], NodeId(v as u32));
                assert(starts@[k] == function);
            }
            if overlay_reaches(gv, Overlay::IntraControlFlow, function, NodeId(v as u32)) {
                assert(overlay_reaches(gv, Overlay::IntraControlFlow, starts@[0], NodeId(v as u32)));
            }
        }
        assert(member@ =~= cfg_members(gv, function));
    }
    if !two_set(&member) {
        return Vec::new();
    }
    let adj = overlay_adjacency(g, Overlay::IntraControlFlow);
    let succ = restrict(&adj, &member, &member);
    let ghost rel = cfg_rel(gv, function);
    proof {
        assert forall|a: int, b: int| #[trigger] adj_rel(succ@)(a, b) == rel(a, b) by {
            if step(succ@, a, b) {
                let k = choose|k: int| 0 <= k < succ@[a]@.len() && succ@[a]@[k] as int == b;
                assert(succ@[a]@[k] < nn);
            }
            if 0 <= a < nn && 0 <= b < nn {
                assert(step(adj@, a, b) <==> overlay_rel(gv, Overlay::IntraControlFlow)(a, b));
            }
        }
        assert(adj_rel(succ@) =~= rel);
        assert(realises(succ@, rel));
    }
    let exits = g.cfg_exits();
    let mut is_exit: Vec<bool> = Vec::new();
    let mut exit_list: Vec<usize> = Vec::new();
    let mut v: usize = 0;
    while v < n
        invariant
            n == gv.nodes_view().len(),
            gv == *g,
            gv.wf(),
            member@ == cfg_members(gv, function),
            succ@.len() == n,
            adj_ok(succ@),
            adj_rel(succ@) == rel,
            rel == cfg_rel(gv, function),
            exits@ == gv.exits_view(),
            v <= n,
            is_exit@.len() == v,
            forall|x: int| 0 <= x < v ==> (#[trigger] is_exit@[x] <==> is_cfg_exit(gv, function, x)),
            forall|k: int| 0 <= k < exit_list@.len() ==> (#[trigger] exit_list@[k]) < v && is_cfg_exit(gv, function, exit_list@[k] as int),
            forall|x: int| 0 <= x < v && is_cfg_exit(gv, function, x) ==> exists|k: int| 0 <= k < exit_list@.len() && #[trigger] exit_list@[k] == x,
        decreases n - v,
    {
        let mut e = false;
        if member[v] {
            if succ[v].len() == 0 {
                e = true;
            } else {
                match g.node(NodeId(v as u32)) {
                    Some(node) => {
                        match node.kind {
                            CpgNodeKind::Return => { e = true; },
                            CpgNodeKind::Throw => { e = true; },
                            _ => {},
                        }
                    },
                    None => {},
                }
                if !e {
                    e = crate::graph::contains_id(exits, NodeId(v as u32));
                }
            }
        }
        proof {
            assert(NodeId(v as u32).0 as int == v as int);
            if succ@[v as int]@.len() == 0 {
                assert(!exists|s: int| #[trigger] rel(v as int, s)) by {
                    if exists|s: int| #[trigger] rel(v as int, s) {
                        let s = choose|s: int| #[trigger] rel(v as int, s);
                        assert(adj_rel(succ@)(v as int, s));
                    }
                }
            } else {
                assert(succ@[v as int]@[0] < n);
                assert(adj_rel(succ@)(v as int, succ@[v as int]@[0] as int));
                assert(rel(v as int, succ@[v as int]@[0] as int));
            }
            assert(e == is_cfg_exit(gv, function, v as int));
        }
        let ghost prev_list = exit_list@;
        is_exit.push(e);
        if e {
            exit_list.push(v);
        }
        proof {
            assert forall|x: int| 0 <= x < v + 1 && is_cfg_exit(gv, function, x) implies exists|k: int| 0 <= k < exit_list@.len() && #[trigger] exit_list@[k] == x by {
                if x == v {
                    assert(exit_list@[exit_list@.len() - 1] == x);
                } else {
                    let k = choose|k: int| 0 <= k < prev_list.len() && #[trigger] prev_list[k] == x;
                    assert(exit_list@[k] == prev_list[k]);
                }
            }
        }
        v = v + 1;
    }
    if exit_list.len() == 0 {
        proof {
            assert(!has_cfg_exit(gv, function)) by {
                if has_cfg_exit(gv, function) {
                    let x = choose|x: int| #[trigger] is_cfg_exit(gv, function, x);
                    let k = choose|k: int| 0 <= k < exit_list@.len() && #[trigger] exit_list@[k] == x;
                }
            }
        }
        return Vec::new();
    }
    let radj = reverse_adjacency(&succ);
    let back = reachable(&radj, &exit_list);
    let mut linked: Vec<bool> = Vec::new();
    let mut v: usize = 0;
    while v < n
        invariant
            n == gv.nodes_view().len(),
            member@ == cfg_members(gv, function),
            succ@.len() == n,
            radj@.len() == n,
            back@.len() == n,
            realises(succ@, rel),
            rel == cfg_rel(gv, function),
            forall|a: int, b: int| 0 <= a < n && 0 <= b < n ==> (step(radj@, a, b) <==> step(succ@, b, a)),
            forall|x: int| 0 <= x < n ==> (back@[x] <==> reached_from(radj@, exit_list@, x)),
            is_exit@.len() == n,
            forall|x: int| 0 <= x < n ==> (#[trigger] is_exit@[x] <==> is_cfg_exit(gv, function, x)),
            forall|k: int| 0 <= k < exit_list@.len() ==> (#[trigger] exit_list@[k]) < n && is_cfg_exit(gv, function, exit_list@[k] as int),
            forall|x: int| 0 <= x < n && is_cfg_exit(gv, function, x) ==> exists|k: int| 0 <= k < exit_list@.len() && #[trigger] exit_list@[k] == x,
            v <= n,
            linked@.len() == v,
            forall|x: int| 0 <= x < v ==> #[trigger] linked@[x] == exit_linked(gv, function)[x],
        decreases n - v,
    {
        let l = member[v] && (is_exit[v] || !back[v]);
        proof {
            let x = v as int;
            let reach_exit = exists|e: int| is_cfg_exit(gv, function, e) && #[trigger] rel_reaches(rel, n as int, x, e);
            if back@[x] {
                let k = choose|k: int| 0 <= k < exit_list@.len() && #[trigger] reaches(radj@, exit_list@[k] as int, x);
                lemma_reverse_reaches(succ@, radj@, exit_list@[k] as int, x);
                lemma_realises_reaches(succ@, rel, x, exit_list@[k] as int);
                assert(rel_reaches(rel, n as int, x, exit_list@[k] as int));
            }
            if reach_exit {
                let e = choose|e: int| is_cfg_exit(gv, function, e) && #[trigger] rel_reaches(rel, n as int, x, e);
                lemma_realises_reaches(succ@, rel, x, e);
                lemma_reverse_reaches(radj@, succ@, x, e);
                let k = choose|k: int| 0 <= k < exit_list@.len() && #[trigger] exit_list@[k] == e;
                assert(reaches(radj@, exit_list@[k] as int, x));
            }
            assert(back@[x] == reach_exit);
        }
        linked.push(l);
        v = v + 1;
    }
    let ghost linked_spec = exit_linked(gv, function);
    assert(linked@ =~= linked_spec);
    let all = g.edges();
    let mut edges: Vec<(u32, u32)> = Vec::new();
    let mut k: usize = 0;
    while k < all.len()
        invariant
            n == gv.nodes_view().len(),
            all@ == gv.edges_view(),
            gv.wf(),
            member@ == cfg_members(gv, function),
            k <= all@.len(),
            edges@ == select(all@.take(k as int), rev_cfg_edge(member@)),
        decreases all@.len() - k,
    {
        proof { lemma_select_step(all@, k as int, rev_cfg_edge(member@)); }
        let e = all[k];
        let intra = match e.kind {
            crate::graph::CpgEdgeKind::ControlFlow(crate::graph::CfgEdgeKind::Call) => false,
            crate::graph::CpgEdgeKind::ControlFlow(_) => true,
            _ => false,
        };
        if intra && (e.source.0 as usize) < n && (e.target.0 as usize) < n
            && member[e.source.0 as usize] && member[e.target.0 as usize] {
            edges.push((e.target.0, e.source.0));
        }
        k = k + 1;
    }
    assert(all@.take(all@.len() as int) =~= all@);
    let ghost first = edges@;
    let mut v: usize = 0;
    while v < n
        invariant
            n == gv.nodes_view().len(),
            gv.wf(),
            linked@ == linked_spec,
            linked@.len() == n,
            v <= n,
            edges@ == first + exit_links(linked_spec, v as int),
        decreases n - v,
    {
        if linked[v] {
            edges.push((VIRTUAL_EXIT, v as u32));
        }
        proof {
            assert(exit_links(linked_spec, v as int + 1) == exit_links(linked_spec, v as int)
                + if linked_spec[v as int] { seq![(VIRTUAL_EXIT, v as u32)] } else { Seq::empty() });
        }
        v = v + 1;
        assert(edges@ =~= first + exit_links(linked_spec, v as int));
    }
    assert(edges@ == reversed_cfg_edges(gv, function));
    proof {
        assert forall|k: int| 0 <= k < edges@.len() implies
            ((#[trigger] edges@[k]).0 < n || edges@[k].0 == VIRTUAL_EXIT) && (edges@[k].1 < n || edges@[k].1 == VIRTUAL_EXIT) by {
            lemma_edge_ends(gv, function, k);
        }
    }
    let idom = immediate_dominators(n, &edges, VIRTUAL_EXIT);
    let r = control_dependence_from(&member, &succ, &linked, &idom);
    proof {
        assert(two_members(gv, function));
        assert(has_cfg_exit(gv, function)) by {
            assert(is_cfg_exit(gv, function, exit_list@[0] as int));
        }
        assert forall|k: int| 0 <= k < r@.len() implies gv.valid((#[trigger] r@[k]).0) && gv.valid(r@[k].1) by {}
        assert forall|a: NodeId, d: NodeId| #[trigger] r@.contains((a, d)) <==> control_dependent(gv, function, a, d) by {
            assert(NodeId(a.0) == a && NodeId(d.0) == d);
            assert(r@.contains((NodeId(a.0), NodeId(d.0))) <==> cd_rel(adj_rel(succ@), n as int, member@, linked@, idom@, a.0, d.0));
        }
    }
    r
}

// ---------------------------------------------------------------------------
// Data dependence
// ---------------------------------------------------------------------------

/// `v` is `function` or lies below it in the syntax tree.
pub open spec fn in_function(g: CodePropertyGraph, function: NodeId, v: NodeId) -> bool {
    v == function || overlay_below(g, Overlay::Ast, function, v)
}

/// A def-use or reaching-definition edge.
pub open spec fn is_def_use_kind(k: CpgEdgeKind) -> bool {
    k == CpgEdgeKind::DataFlow(DfgEdgeKind::DefUse) || k == CpgEdgeKind::DataFlow(DfgEdgeKind::ReachingDef)
}

/// Edge `k` carries a definition at `a` to a use at `d`, both within `function`.
pub open spec fn data_edge_at(g: CodePropertyGraph, function: NodeId, k: int, a: NodeId, d: NodeId) -> bool {
    &&& 0 <= k < g.edges_view().len()
    &&& g.edges_view()[k].source == a
    &&& g.edges_view()[k].target == d
    &&& is_def_use_kind(g.edges_view()[k].kind)
    &&& in_function(g, function, a)
    &&& in_function(g, function, d)
}

/// `d` is data dependent on `a` within `function`.
pub open spec fn data_dependent(g: CodePropertyGraph, function: NodeId, a: NodeId, d: NodeId) -> bool {
    exists|k: int| #[trigger] data_edge_at(g, function, k, a, d)
}

/// Whether `v` holds the pair `x`.
fn holds_pair(v: &Vec<(NodeId, NodeId)>, x: (NodeId, NodeId)) -> (r: bool)
    ensures
        r == v@.contains(x),
{
    let mut i: usize = 0;
    while i < v.len()
        invariant
            i <= v@.len(),
            forall|k: int| 0 <= k < i ==> v@[k] != x,
        decreases v@.len() - i,
    {
        if v[i].0 == x.0 && v[i].1 == x.1 {
            assert(v@[i as int] == x);
            return true;
        }
        i = i + 1;
    }
    false
}

/// Marks `function` and the nodes below it in the syntax tree.
fn function_marks(g: &CodePropertyGraph, function: NodeId) -> (mark: Vec<bool>)
    requires
        g.wf(),
    ensures
        mark@.len() == g.nodes_view().len(),
        forall|x: int| 0 <= x < mark@.len() ==> (#[trigger] mark@[x] <==> in_function(*g, function, NodeId(x as u32))),
{
    let n = g.node_count();
    let below = g.ast_descendants(function);
    let mut mark: Vec<bool> = Vec::new();
    let mut v: usize = 0;
    while v < n
        invariant
            n == g.nodes_view().len(),
            v <= n,
            mark@.len() == v,
            forall|x: int| 0 <= x < v ==> !#[trigger] mark@[x],
        decreases n - v,
    {
        mark.push(false);
        v = v + 1;
    }
    if (function.0 as usize) < n {
        mark.set(function.0 as usize, true);
    }
    let mut i: usize = 0;
    while i < below.len()
        invariant
            g.wf(),
            n == g.nodes_view().len(),
            mark@.len() == n,
            forall|k: int| 0 <= k < below@.len() ==> g.valid(#[trigger] below@[k]),
            forall|w: NodeId| g.valid(w) ==> (below@.contains(w) <==> w != function && overlay_below(*g, Overlay::Ast, function, w)),
            i <= below@.len(),
            forall|x: int| 0 <= x < n ==> (#[trigger] mark@[x] <==> (x == function.0 as int
                || exists|k: int| 0 <= k < i && below@[k].0 as int == x)),
        decreases below@.len() - i,
    {
        let w = below[i];
        assert(g.valid(w));
        mark.set(w.0 as usize, true);
        proof {
            assert forall|x: int| 0 <= x < n implies (#[trigger] mark@[x] <==> (x == function.0 as int
                || exists|k: int| 0 <= k < i + 1 && below@[k].0 as int == x)) by {
                if x == w.0 as int {
                    assert(below@[i as int].0 as int == x);
                }
            }
        }
        i = i + 1;
    }
    proof {
        assert forall|x: int| 0 <= x < n implies (#[trigger] mark@[x] <==> in_function(*g, function, NodeId(x as u32))) by {
            let w = NodeId(x as u32);
            assert(w.0 as int == x);
            assert(g.valid(w));
            if exists|k: int| 0 <= k < below@.len() && below@[k].0 as int == x {
                let k = choose|k: int| 0 <= k < below@.len() && below@[k].0 as int == x;
                assert(below@[k] == w);
                assert(below@.contains(w));
            }
            if w != function && overlay_below(*g, Overlay::Ast, function, w) {
                assert(below@.contains(w));
                let k = choose|k: int| 0 <= k < below@.len() && below@[k] == w;
                assert(below@[k].0 as int == x);
            }
        }
    }
    mark
}

/// The data-dependence pairs `(definition, use)` of `function`, each once, in
/// the order their first edge appears: the pairs of [`data_dependent`].
pub fn compute_data_dependence(g: &CodePropertyGraph, function: NodeId) -> (r: Vec<(NodeId, NodeId)>)
    requires
        g.wf(),
    ensures
        r@.no_duplicates(),
        forall|a: NodeId, d: NodeId| #[trigger] r@.contains((a, d)) <==> data_dependent(*g, function, a, d),
{
    let n = g.node_count();
    let mark = function_marks(g, function);
    let all = g.edges();
    let mut out: Vec<(NodeId, NodeId)> = Vec::new();
    let mut k: usize = 0;
    while k < all.len()
        invariant
            g.wf(),
            n == g.nodes_view().len(),
            all@ == g.edges_view(),
            mark@.len() == n,
            forall|x: int| 0 <= x < n ==> (#[trigger] mark@[x] <==> in_function(*g, function, NodeId(x as u32))),
            k <= all@.len(),
            out@.no_duplicates(),
            forall|a: NodeId, d: NodeId| #[trigger] out@.contains((a, d)) <==> exists|j: int| 0 <= j < k && #[trigger] data_edge_at(*g, function, j, a, d),
        decreases all@.len() - k,
    {
        let e = all[k];
        assert(g.valid(e.source) && g.valid(e.target));
        let kind_ok = match e.kind {
            CpgEdgeKind::DataFlow(DfgEdgeKind::DefUse) => true,
            CpgEdgeKind::DataFlow(DfgEdgeKind::ReachingDef) => true,
            _ => false,
        };
        let ghost prev = out@;
        proof {
            assert(NodeId(e.source.0 as int as u32) == e.source);
            assert(NodeId(e.target.0 as int as u32) == e.target);
        }
        let hit = kind_ok && mark[e.source.0 as usize] && mark[e.target.0 as usize];
        assert(hit == data_edge_at(*g, function, k as int, e.source, e.target));
        if hit && !holds_pair(&out, (e.source, e.target)) {
            out.push((e.source, e.target));
            proof {
                assert forall|s: int, t: int| 0 <= s < t < out@.len() implies out@[s] != out@[t] by {
                    if t == out@.len() - 1 {
                        assert(prev.contains(out@[s]));
                    }
                }
            }
        }
        proof {
            assert forall|a: NodeId, d: NodeId| #[trigger] out@.contains((a, d)) <==> exists|j: int| 0 <= j < k + 1 && #[trigger] data_edge_at(*g, function, j, a, d) by {
                if out@.contains((a, d)) && !prev.contains((a, d)) {
                    assert(data_edge_at(*g, function, k as int, a, d));
                }
                if prev.contains((a, d)) {
                    let t = choose|t: int| 0 <= t < prev.len() && prev[t] == (a, d);
                    assert(out@[t] == prev[t]);
                }
                if exists|j: int| 0 <= j < k + 1 && #[trigger] data_edge_at(*g, function, j, a, d) {
                    let j = choose|j: int| 0 <= j < k + 1 && #[trigger] data_edge_at(*g, function, j, a, d);
                    if j == k {
                        if !prev.contains((a, d)) {
                            assert(out@[out@.len() - 1] == (a, d));
                        }
                    } else {
                        assert(prev.contains((a, d)));
                    }
                }
            }
        }
        k = k + 1;
    }
    out
}

// ---------------------------------------------------------------------------
// The builder
// ---------------------------------------------------------------------------

/// `new` is `old` with dependence edges added for `function`: every
/// control- and data-dependence pair of `old` is present as an edge of its
/// kind, and every added edge is such a pair that `old` lacked, added once.
pub open spec fn pdg_built(old: CodePropertyGraph, new: CodePropertyGraph, function: NodeId) -> bool {
    &&& new.nodes_view() == old.nodes_view()
    &&& new.entries_view() == old.entries_view()
    &&& new.exits_view() == old.exits_view()
    &&& new.language_view() == old.language_view()
    &&& new.source_code_view() == old.source_code_view()
    &&& new.source_path_view() == old.source_path_view()
    &&& new.edges_view().len() >= old.edges_view().len()
    &&& new.edges_view().subrange(0, old.edges_view().len() as int) == old.edges_view()
    &&& new.edges_view().subrange(old.edges_view().len() as int, new.edges_view().len() as int).no_duplicates()
    &&& forall|k: int| old.edges_view().len() <= k < new.edges_view().len() ==> {
        let e = #[trigger] new.edges_view()[k];
        &&& !old.has(e)
        &&& ((e.kind == CpgEdgeKind::ControlDependence && control_dependent(old, function, e.source, e.target))
            || (e.kind == CpgEdgeKind::DataDependence && data_dependent(old, function, e.source, e.target)))
    }
    &&& forall|a: NodeId, d: NodeId| #[trigger] control_dependent(old, function, a, d) ==>
        new.has(CpgEdge { source: a, target: d, kind: CpgEdgeKind::ControlDependence })
    &&& forall|a: NodeId, d: NodeId| #[trigger] data_dependent(old, function, a, d) ==>
        new.has(CpgEdge { source: a, target: d, kind: CpgEdgeKind::DataDependence })
}

/// Adds program-dependence edges to a graph that already carries its
/// control-flow and data-flow edges.
#[derive(Clone, Copy, Debug)]
pub struct PdgBuilder {}

impl Default for PdgBuilder {
    fn default() -> (r: PdgBuilder)
        ensures
            r == (PdgBuilder {}),
    {
        PdgBuilder {}
    }
}

impl PdgBuilder {
    /// A builder.
    pub fn new() -> (r: PdgBuilder)
        ensures
            r == (PdgBuilder {}),
    {
        PdgBuilder {}
    }

    /// Adds a control-dependence edge for every pair of
    /// [`compute_control_dependence`] and a data-dependence edge for every
    /// pair of [`compute_data_dependence`], skipping edges already present.
    pub fn build(&self, cpg: &mut CodePropertyGraph, function: NodeId)
        requires
            old(cpg).wf(),
        ensures
            final(cpg).wf(),
            pdg_built(*old(cpg), *final(cpg), function),
    {
        let ghost g0 = *cpg;
        let control = compute_control_dependence(cpg, function);
        let data = compute_data_dependence(cpg, function);
        let mut i: usize = 0;
        while i < control.len()
            invariant
                cpg.wf(),
                g0.wf(),
                forall|k: int| 0 <= k < control@.len() ==> g0.valid((#[trigger] control@[k]).0) && g0.valid(control@[k].1),
                forall|a: NodeId, d: NodeId| #[trigger] control@.contains((a, d)) <==> control_dependent(g0, function, a, d),
                i <= control@.len(),
                cpg.nodes_view() == g0.nodes_view(),
                cpg.entries_view() == g0.entries_view(),
                cpg.exits_view() == g0.exits_view(),
                cpg.language_view() == g0.language_view(),
                cpg.source_code_view() == g0.source_code_view(),
                cpg.source_path_view() == g0.source_path_view(),
                cpg.edges_view().len() >= g0.edges_view().len(),
                cpg.edges_view().subrange(0, g0.edges_view().len() as int) == g0.edges_view(),
                cpg.edges_view().subrange(g0.edges_view().len() as int, cpg.edges_view().len() as int).no_duplicates(),
                forall|k: int| g0.edges_view().len() <= k < cpg.edges_view().len() ==> {
                    let e = #[trigger] cpg.edges_view()[k];
                    &&& !g0.has(e)
                    &&& e.kind == CpgEdgeKind::ControlDependence && control_dependent(g0, function, e.source, e.target)
                },
                forall|t: int| 0 <= t < i ==> cpg.has(CpgEdge { source: (#[trigger] control@[t]).0, target: control@[t].1, kind: CpgEdgeKind::ControlDependence }),
            decreases control@.len() - i,
        {
            let (a, d) = control[i];
            assert(control@.contains((a, d)));
            self.add_new_edge(cpg, a, d, CpgEdgeKind::ControlDependence, Ghost(g0));
            i = i + 1;
        }
        proof {
            assert forall|a: NodeId, d: NodeId| #[trigger] control_dependent(g0, function, a, d) implies
                cpg.has(CpgEdge { source: a, target: d, kind: CpgEdgeKind::ControlDependence }) by {
                assert(control@.contains((a, d)));
                let t = choose|t: int| 0 <= t < control@.len() && control@[t] == (a, d);
                assert(cpg.has(CpgEdge { source: control@[t].0, target: control@[t].1, kind: CpgEdgeKind::ControlDependence }));
            }
        }
        let mut j: usize = 0;
        while j < data.len()
            invariant
                cpg.wf(),
                g0.wf(),
                forall|a: NodeId, d: NodeId| #[trigger] data@.contains((a, d)) <==> data_dependent(g0, function, a, d),
                j <= data@.len(),
                cpg.nodes_view() == g0.nodes_view(),
                cpg.entries_view() == g0.entries_view(),
                cpg.exits_view() == g0.exits_view(),
                cpg.language_view() == g0.language_view(),
                cpg.source_code_view() == g0.source_code_view(),
                cpg.source_path_view() == g0.source_path_view(),
                cpg.edges_view().len() >= g0.edges_view().len(),
                cpg.edges_view().subrange(0, g0.edges_view().len() as int) == g0.edges_view(),
                cpg.edges_view().subrange(g0.edges_view().len() as int, cpg.edges_view().len() as int).no_duplicates(),
                forall|k: int| g0.edges_view().len() <= k < cpg.edges_view().len() ==> {
                    let e = #[trigger] cpg.edges_view()[k];
                    &&& !g0.has(e)
                    &&& ((e.kind == CpgEdgeKind::ControlDependence && control_dependent(g0, function, e.source, e.target))
                        || (e.kind == CpgEdgeKind::DataDependence && data_dependent(g0, function, e.source, e.target)))
                },
                forall|a: NodeId, d: NodeId| #[trigger] control_dependent(g0, function, a, d) ==>
                    cpg.has(CpgEdge { source: a, target: d, kind: CpgEdgeKind::ControlDependence }),
                forall|t: int| 0 <= t < j ==> cpg.has(CpgEdge { source: (#[trigger] data@[t]).0, target: data@[t].1, kind: CpgEdgeKind::DataDependence }),
            decreases data@.len() - j,
        {
            let (a, d) = data[j];
            assert(data@.contains((a, d)));
            let ghost before = *cpg;
            proof {
                let k = choose|k: int| #[trigger] data_edge_at(g0, function, k, a, d);
                assert(g0.valid(g0.edges_view()[k].source));
            }
            self.add_new_edge(cpg, a, d, CpgEdgeKind::DataDependence, Ghost(g0));
            proof {
                assert forall|a2: NodeId, d2: NodeId| #[trigger] control_dependent(g0, function, a2, d2) implies
                    cpg.has(CpgEdge { source: a2, target: d2, kind: CpgEdgeKind::ControlDependence }) by {
                    assert(before.has(CpgEdge { source: a2, target: d2, kind: CpgEdgeKind::ControlDependence }));
                }
            }
            j = j + 1;
        }
        proof {
            assert forall|a: NodeId, d: NodeId| #[trigger] data_dependent(g0, function, a, d) implies
                cpg.has(CpgEdge { source: a, target: d, kind: CpgEdgeKind::DataDependence }) by {
                assert(data@.contains((a, d)));
                let t = choose|t: int| 0 <= t < data@.len() && data@[t] == (a, d);
                assert(cpg.has(CpgEdge { source: data@[t].0, target: data@[t].1, kind: CpgEdgeKind::DataDependence }));
            }
        }
    }

    /// Adds `source -> target` labelled `kind` unless present; the edges added
    /// since `g0` stay new and distinct.
    fn add_new_edge(&self, cpg: &mut CodePropertyGraph, source: NodeId, target: NodeId, kind: CpgEdgeKind, Ghost(g0): Ghost<CodePropertyGraph>)
        requires
            old(cpg).wf(),
            old(cpg).valid(source),
            old(cpg).valid(target),
            old(cpg).edges_view().len() >= g0.edges_view().len(),
            old(cpg).edges_view().subrange(0, g0.edges_view().len() as int) == g0.edges_view(),
            old(cpg).edges_view().subrange(g0.edges_view().len() as int, old(cpg).edges_view().len() as int).no_duplicates(),
        ensures
            final(cpg).wf(),
            final(cpg).nodes_view() == old(cpg).nodes_view(),
            final(cpg).entries_view() == old(cpg).entries_view(),
            final(cpg).exits_view() == old(cpg).exits_view(),
            final(cpg).language_view() == old(cpg).language_view(),
            final(cpg).source_code_view() == old(cpg).source_code_view(),
            final(cpg).source_path_view() == old(cpg).source_path_view(),
            final(cpg).has(CpgEdge { source, target, kind }),
            forall|e: CpgEdge| old(cpg).has(e) ==> final(cpg).has(e),
            final(cpg).edges_view().len() >= g0.edges_view().len(),
            final(cpg).edges_view().subrange(0, g0.edges_view().len() as int) == g0.edges_view(),
            final(cpg).edges_view().subrange(g0.edges_view().len() as int, final(cpg).edges_view().len() as int).no_duplicates(),
            forall|k: int| g0.edges_view().len() <= k < final(cpg).edges_view().len() ==>
                (k < old(cpg).edges_view().len() && #[trigger] final(cpg).edges_view()[k] == old(cpg).edges_view()[k])
                || (final(cpg).edges_view()[k] == CpgEdge { source, target, kind } && !old(cpg).has(CpgEdge { source, target, kind })),
    {
        let ghost before = cpg.edges_view();
        let added = cpg.connect_unique(source, target, kind);
        proof {
            let m = g0.edges_view().len() as int;
            let after = cpg.edges_view();
            if added {
                assert(after == before.push(CpgEdge { source, target, kind }));
                assert(after.subrange(0, m) =~= before.subrange(0, m));
                let tail = after.subrange(m, after.len() as int);
                let old_tail = before.subrange(m, before.len() as int);
                assert forall|s: int, t: int| 0 <= s < t < tail.len() implies tail[s] != tail[t] by {
                    if t == tail.len() - 1 {
                        assert(tail[s] == before[m + s]);
                        assert(before.contains(tail[s]));
                    } else {
                        assert(tail[s] == old_tail[s] && tail[t] == old_tail[t]);
                    }
                }
            }
            assert forall|e: CpgEdge| before.contains(e) implies cpg.has(e) by {
                let t = choose|t: int| 0 <= t < before.len() && before[t] == e;
                assert(after[t] == before[t]);
            }
        }
    }
}

// ---------------------------------------------------------------------------
// Rebuilding
// ---------------------------------------------------------------------------

/// Appending edges that `f` maps to nothing leaves the selection unchanged.
proof fn lemma_select_none_suffix<T>(s: Seq<CpgEdge>, t: Seq<CpgEdge>, f: spec_fn(CpgEdge) -> Option<T>)
    requires
        forall|i: int| 0 <= i < t.len() ==> (#[trigger] f(t[i])) is None,
    ensures
        select(s + t, f) == select(s, f),
    decreases t.len(),
{
    if t.len() == 0 {
        assert(s + t =~= s);
    } else {
        let init = t.drop_last();
        assert((s + t).drop_last() =~= s + init);
        assert((s + t).last() == t[t.len() - 1]);
        assert forall|i: int| 0 <= i < init.len() implies (#[trigger] f(init[i])) is None by {
            assert(init[i] == t[i]);
        }
        lemma_select_none_suffix(s, init, f);
    }
}

/// Dependence edges are invisible to the dependence relations: a graph that
/// differs from another only by dependence edges appended has the same
/// control- and data-dependence pairs.
proof fn lemma_dependence_edges_invisible(g0: CodePropertyGraph, g1: CodePropertyGraph, function: NodeId)
    requires
        g1.nodes_view() == g0.nodes_view(),
        g1.exits_view() == g0.exits_view(),
        g1.edges_view().len() >= g0.edges_view().len(),
        g1.edges_view().subrange(0, g0.edges_view().len() as int) == g0.edges_view(),
        forall|k: int| g0.edges_view().len() <= k < g1.edges_view().len() ==> (#[trigger] g1.edges_view()[k]).kind.spec_is_pdg(),
    ensures
        forall|a: NodeId, d: NodeId| control_dependent(g1, function, a, d) == control_dependent(g0, function, a, d),
        forall|a: NodeId, d: NodeId| data_dependent(g1, function, a, d) == data_dependent(g0, function, a, d),
{
    let m = g0.edges_view().len() as int;
    let e0 = g0.edges_view();
    let e1 = g1.edges_view();
    let tail = e1.subrange(m, e1.len() as int);
    assert(e1 =~= e0 + tail);
    assert forall|o: Overlay| (o == Overlay::IntraControlFlow || o == Overlay::Ast) implies overlay_rel(g1, o) == overlay_rel(g0, o) by {
        assert forall|a: int, b: int| #[trigger] overlay_rel(g1, o)(a, b) == overlay_rel(g0, o)(a, b) by {
            if overlay_rel(g1, o)(a, b) {
                let k = choose|k: int| 0 <= k < e1.len() && #[trigger] picks(o, e1[k]) == Some((a, b));
                if k >= m {
                    assert(e1[k].kind.spec_is_pdg());
                } else {
                    assert(e1[k] == e0[k]);
                    assert(picks(o, e0[k]) == Some((a, b)));
                }
            }
            if overlay_rel(g0, o)(a, b) {
                let k = choose|k: int| 0 <= k < e0.len() && #[trigger] picks(o, e0[k]) == Some((a, b));
                assert(e1[k] == e0[k]);
                assert(picks(o, e1[k]) == Some((a, b)));
            }
        }
        assert(overlay_rel(g1, o) =~= overlay_rel(g0, o));
    }
    assert(overlay_rel(g1, Overlay::IntraControlFlow) == overlay_rel(g0, Overlay::IntraControlFlow));
    assert(overlay_rel(g1, Overlay::Ast) == overlay_rel(g0, Overlay::Ast));
    assert(cfg_members(g1, function) =~= cfg_members(g0, function));
    assert(cfg_rel(g1, function) == cfg_rel(g0, function));
    assert forall|v: int| is_cfg_exit(g1, function, v) == is_cfg_exit(g0, function, v) by {}
    assert(exit_linked(g1, function) =~= exit_linked(g0, function)) by {
        assert forall|v: int| 0 <= v < g0.nodes_view().len() implies exit_linked(g1, function)[v] == exit_linked(g0, function)[v] by {
            assert forall|e: int| is_cfg_exit(g1, function, e) == is_cfg_exit(g0, function, e) by {}
        }
    }
    let member = cfg_members(g0, function);
    assert forall|i: int| 0 <= i < tail.len() implies (#[trigger] rev_cfg_edge(member)(tail[i])) is None by {
        assert(tail[i] == e1[m + i]);
        assert(e1[m + i].kind.spec_is_pdg());
    }
    lemma_select_none_suffix(e0, tail, rev_cfg_edge(member));
    assert(reversed_cfg_edges(g1, function) == reversed_cfg_edges(g0, function));
    assert(post_dominators(g1, function) == post_dominators(g0, function));
    assert(two_members(g1, function) == two_members(g0, function));
    assert(has_cfg_exit(g1, function) == has_cfg_exit(g0, function)) by {
        if has_cfg_exit(g1, function) {
            let v = choose|v: int| #[trigger] is_cfg_exit(g1, function, v);
            assert(is_cfg_exit(g0, function, v));
        }
        if has_cfg_exit(g0, function) {
            let v = choose|v: int| #[trigger] is_cfg_exit(g0, function, v);
            assert(is_cfg_exit(g1, function, v));
        }
    }
    assert forall|a: NodeId, d: NodeId| data_dependent(g1, function, a, d) == data_dependent(g0, function, a, d) by {
        assert forall|v: NodeId| in_function(g1, function, v) == in_function(g0, function, v) by {}
        if data_dependent(g1, function, a, d) {
            let k = choose|k: int| #[trigger] data_edge_at(g1, function, k, a, d);
            if k >= m {
                assert(e1[k].kind.spec_is_pdg());
            } else {
                assert(e1[k] == e0[k]);
                assert(data_edge_at(g0, function, k, a, d));
            }
        }
        if data_dependent(g0, function, a, d) {
            let k = choose|k: int| #[trigger] data_edge_at(g0, function, k, a, d);
            assert(e1[k] == e0[k]);
            assert(data_edge_at(g1, function, k, a, d));
        }
    }
}

/// `function`'s control flow is straight-line: every node of it has at most
/// one successor, and the nodes that end it, or that lead to no end, have
/// none.
pub open spec fn straight_line(g: CodePropertyGraph, function: NodeId) -> bool {
    &&& forall|a: int, s1: int, s2: int| #[trigger] cfg_rel(g, function)(a, s1) && #[trigger] cfg_rel(g, function)(a, s2) ==> s1 == s2
    &&& forall|a: int, s: int| 0 <= a < g.nodes_view().len() && exit_linked(g, function)[a] ==> !#[trigger] cfg_rel(g, function)(a, s)
}

/// Straight-line code has no control dependence: no node of it is control
/// dependent on another, and building its dependence edges adds no
/// control-dependence edge.
pub proof fn law_straight_line_no_control_dependence(g0: CodePropertyGraph, g1: CodePropertyGraph, function: NodeId)
    requires
        pdg_built(g0, g1, function),
        straight_line(g0, function),
    ensures
        forall|a: NodeId, d: NodeId| !#[trigger] control_dependent(g0, function, a, d),
        forall|k: int| g0.edges_view().len() <= k < g1.edges_view().len() ==>
            (#[trigger] g1.edges_view()[k]).kind != CpgEdgeKind::ControlDependence,
{
    let n = g0.nodes_view().len() as int;
    let rel = cfg_rel(g0, function);
    let linked = exit_linked(g0, function);
    assert forall|a: NodeId, d: NodeId| !#[trigger] control_dependent(g0, function, a, d) by {
        if control_dependent(g0, function, a, d) {
            let x = a.0 as int;
            assert(is_join(rel, n, linked, x));
            let (p, q) = choose|p: u32, q: u32| p != q && #[trigger] rev_pred(rel, n, linked, x, p) && #[trigger] rev_pred(rel, n, linked, x, q);
            if (p as int) < n && rel(x, p as int) {
                if (q as int) < n && rel(x, q as int) {
                    assert(p as int == q as int);
                } else {
                    assert(linked[x]);
                    assert(!rel(x, p as int));
                }
            } else {
                assert(linked[x]);
                if (q as int) < n && rel(x, q as int) {
                    assert(!rel(x, q as int));
                }
            }
        }
    }
    assert forall|k: int| g0.edges_view().len() <= k < g1.edges_view().len() implies
        (#[trigger] g1.edges_view()[k]).kind != CpgEdgeKind::ControlDependence by {
        let e = g1.edges_view()[k];
        if e.kind == CpgEdgeKind::ControlDependence {
            assert(!control_dependent(g0, function, e.source, e.target));
        }
    }
}

/// Building the dependence edges of a function a second time adds nothing:
/// the second build leaves the edges as the first left them.
pub proof fn law_pdg_build_idempotent(g0: CodePropertyGraph, g1: CodePropertyGraph, g2: CodePropertyGraph, function: NodeId)
    requires
        pdg_built(g0, g1, function),
        pdg_built(g1, g2, function),
    ensures
        g2.edges_view() == g1.edges_view(),
{
    assert forall|k: int| g0.edges_view().len() <= k < g1.edges_view().len() implies (#[trigger] g1.edges_view()[k]).kind.spec_is_pdg() by {
        let e = g1.edges_view()[k];
    }
    lemma_dependence_edges_invisible(g0, g1, function);
    if g2.edges_view().len() > g1.edges_view().len() {
        let k = g1.edges_view().len() as int;
        let e = g2.edges_view()[k];
        assert(!g1.has(e));
        if e.kind == CpgEdgeKind::ControlDependence {
            assert(control_dependent(g0, function, e.source, e.target));
            assert(e == CpgEdge { source: e.source, target: e.target, kind: CpgEdgeKind::ControlDependence });
        } else {
            assert(data_dependent(g0, function, e.source, e.target));
            assert(e == CpgEdge { source: e.source, target: e.target, kind: CpgEdgeKind::DataDependence });
        }
    }
    assert(g2.edges_view() =~= g2.edges_view().subrange(0, g1.edges_view().len() as int));
}

// ---------------------------------------------------------------------------
// Slicing
// ---------------------------------------------------------------------------

/// The dependence neighbour an edge gives `n`: the source of a dependence
/// edge into `n` when `backward`, the target of one out of `n` otherwise.
pub open spec fn sel_dependence(n: NodeId, backward: bool) -> spec_fn(CpgEdge) -> Option<NodeId> {
    |e: CpgEdge| if e.kind.spec_is_pdg() && (if backward { e.target == n } else { e.source == n }) {
        Some(if backward { e.source } else { e.target })
    } else {
        None
    }
}

/// The dependence neighbours of `n`, in edge order.
pub open spec fn dependence_neighbours(g: CodePropertyGraph, n: NodeId, backward: bool) -> Seq<NodeId> {
    select(g.edges_view(), sel_dependence(n, backward))
}

/// Offers `nbrs` to the slice `order` one at a time: the slice stops, for
/// good, when it holds `cap` nodes as a neighbour is offered; otherwise a
/// neighbour it lacks is appended. The new slice, and whether it stopped.
pub open spec fn offer(order: Seq<NodeId>, nbrs: Seq<NodeId>, cap: nat) -> (Seq<NodeId>, bool)
    decreases nbrs.len(),
{
    if nbrs.len() == 0 {
        (order, false)
    } else if order.len() >= cap {
        (order, true)
    } else {
        let next = if order.contains(nbrs[0]) { order } else { order.push(nbrs[0]) };
        offer(next, nbrs.drop_first(), cap)
    }
}

/// Breadth-first growth of a slice: the nodes of `order` from `head` on are
/// still to be expanded, in order; at most `fuel` of them are.
pub open spec fn grow(g: CodePropertyGraph, backward: bool, order: Seq<NodeId>, head: nat, cap: nat, fuel: nat) -> Seq<NodeId>
    decreases fuel,
{
    if fuel == 0 || head >= order.len() {
        order
    } else {
        let (next, stopped) = offer(order, dependence_neighbours(g, order[head as int], backward), cap);
        if stopped {
            next
        } else {
            grow(g, backward, next, head + 1, cap, (fuel - 1) as nat)
        }
    }
}

/// The slice of `criterion` bounded by `max_nodes`, in the order its nodes
/// are found: empty when the bound is zero or the criterion is no node.
pub open spec fn slice_order(g: CodePropertyGraph, criterion: NodeId, max_nodes: nat, backward: bool) -> Seq<NodeId> {
    if max_nodes == 0 || !g.valid(criterion) {
        Seq::empty()
    } else {
        grow(g, backward, seq![criterion], 0, max_nodes, (g.nodes_view().len() + 1) as nat)
    }
}

/// The dependence neighbours of `n`, in edge order.
fn dependence_neighbour_list(g: &CodePropertyGraph, n: NodeId, backward: bool) -> (r: Vec<NodeId>)
    requires
        g.wf(),
    ensures
        r@ == dependence_neighbours(*g, n, backward),
        forall|k: int| 0 <= k < r@.len() ==> g.valid(#[trigger] r@[k]),
{
    let all = g.edges();
    let mut r: Vec<NodeId> = Vec::new();
    let mut i: usize = 0;
    while i < all.len()
        invariant
            g.wf(),
            all@ == g.edges_view(),
            i <= all@.len(),
            r@ == select(all@.take(i as int), sel_dependence(n, backward)),
            forall|k: int| 0 <= k < r@.len() ==> g.valid(#[trigger] r@[k]),
        decreases all@.len() - i,
    {
        proof { lemma_select_step(all@, i as int, sel_dependence(n, backward)); }
        let e = all[i];
        assert(g.valid(e.source) && g.valid(e.target));
        let pdg = match e.kind {
            CpgEdgeKind::ControlDependence => true,
            CpgEdgeKind::DataDependence => true,
            _ => false,
        };
        if pdg {
            if backward {
                if e.target == n {
                    r.push(e.source);
                }
            } else {
                if e.source == n {
                    r.push(e.target);
                }
            }
        }
        i = i + 1;
    }
    assert(all@.take(all@.len() as int) =~= all@);
    r
}

/// The bounded breadth-first slice of `criterion` over dependence edges,
/// backward or forward: [`slice_order`].
fn slice(g: &CodePropertyGraph, criterion: NodeId, max_nodes: usize, backward: bool) -> (r: Vec<NodeId>)
    requires
        g.wf(),
    ensures
        r@ == slice_order(*g, criterion, max_nodes as nat, backward),
{
    let n = g.node_count();
    if max_nodes == 0 || criterion.0 as usize >= n {
        return Vec::new();
    }
    let ghost cap = max_nodes as nat;
    let ghost target = slice_order(*g, criterion, cap, backward);
    let mut mark: Vec<bool> = Vec::new();
    let mut v: usize = 0;
    while v < n
        invariant
            v <= n,
            mark@.len() == v,
            forall|x: int| 0 <= x < v ==> !#[trigger] mark@[x],
        decreases n - v,
    {
        mark.push(false);
        v = v + 1;
    }
    mark.set(criterion.0 as usize, true);
    let mut order: Vec<NodeId> = vec![criterion];
    assert(order@ =~= seq![criterion]);
    proof {
        assert forall|x: int| 0 <= x < n implies (#[trigger] mark@[x] <==> order@.contains(NodeId(x as u32))) by {
            assert(NodeId(x as u32).0 as int == x);
            if order@.contains(NodeId(x as u32)) {
                assert(order@[0] == NodeId(x as u32));
            }
            if x == criterion.0 as int {
                assert(order@[0] == NodeId(x as u32));
            }
        }
    }
    let mut head: usize = 0;
    let mut fuel: u64 = n as u64 + 1;
    while head < order.len() && fuel > 0
        invariant
            g.wf(),
            n == g.nodes_view().len(),
            cap == max_nodes as nat,
            target == slice_order(*g, criterion, cap, backward),
            mark@.len() == n,
            forall|k: int| 0 <= k < order@.len() ==> g.valid(#[trigger] order@[k]),
            forall|x: int| 0 <= x < n ==> (#[trigger] mark@[x] <==> order@.contains(NodeId(x as u32))),
            grow(*g, backward, order@, head as nat, cap, fuel as nat) == target,
        decreases fuel,
    {
        let nbrs = dependence_neighbour_list(g, order[head], backward);
        let ghost o0 = order@;
        let ghost h = head as nat;
        let ghost f = fuel as nat;
        assert(nbrs@.skip(0) =~= nbrs@);
        let mut i: usize = 0;
        while i < nbrs.len()
            invariant
                g.wf(),
                n == g.nodes_view().len(),
                cap == max_nodes as nat,
                target == slice_order(*g, criterion, cap, backward),
                mark@.len() == n,
                forall|k: int| 0 <= k < nbrs@.len() ==> g.valid(#[trigger] nbrs@[k]),
                forall|k: int| 0 <= k < order@.len() ==> g.valid(#[trigger] order@[k]),
                forall|x: int| 0 <= x < n ==> (#[trigger] mark@[x] <==> order@.contains(NodeId(x as u32))),
                i <= nbrs@.len(),
                offer(o0, nbrs@, cap) == offer(order@, nbrs@.skip(i as int), cap),
                (h as int) < o0.len(),
                f > 0,
                nbrs@ == dependence_neighbours(*g, o0[h as int], backward),
                grow(*g, backward, o0, h, cap, f) == target,
            decreases nbrs@.len() - i,
        {
            if order.len() >= max_nodes {
                proof {
                    assert(offer(order@, nbrs@.skip(i as int), cap) == (order@, true));
                    assert(grow(*g, backward, o0, h, cap, f) == order@);
                }
                return order;
            }
            let x = nbrs[i];
            let ghost before = order@;
            proof {
                assert(nbrs@.skip(i as int)[0] == x);
                assert(nbrs@.skip(i as int).drop_first() =~= nbrs@.skip(i as int + 1));
                assert(NodeId(x.0 as int as u32) == x);
                assert(mark@[x.0 as int] == before.contains(x));
            }
            if !mark[x.0 as usize] {
                mark.set(x.0 as usize, true);
                order.push(x);
                proof {
                    assert forall|y: int| 0 <= y < n implies (#[trigger] mark@[y] <==> order@.contains(NodeId(y as u32))) by {
                        if y == x.0 as int {
                            assert(order@[order@.len() - 1] == x);
                        } else {
                            assert(NodeId(y as u32) != x);
                            if order@.contains(NodeId(y as u32)) {
                                let t = choose|t: int| 0 <= t < order@.len() && order@[t] == NodeId(y as u32);
                                assert(t < before.len());
                                assert(before.contains(NodeId(y as u32)));
                            }
                            if before.contains(NodeId(y as u32)) {
                                let t = choose|t: int| 0 <= t < before.len() && before[t] == NodeId(y as u32);
                                assert(order@[t] == before[t]);
                            }
                        }
                    }
                }
            }
            i = i + 1;
        }
        proof {
            assert(nbrs@.skip(i as int).len() == 0);
            assert(offer(o0, nbrs@, cap) == (order@, false));
            assert(grow(*g, backward, o0, h, cap, f) == grow(*g, backward, order@, h + 1, cap, (f - 1) as nat));
        }
        head = head + 1;
        fuel = fuel - 1;
    }
    assert(grow(*g, backward, order@, head as nat, cap, fuel as nat) == order@);
    order
}

/// The backward slice of `criterion`: the nodes it depends on, transitively,
/// over incoming control- and data-dependence edges, itself first, in the
/// order a breadth-first search finds them; the search stops once the slice
/// holds `max_nodes` nodes.
pub fn backward_slice(cpg: &CodePropertyGraph, criterion: NodeId, max_nodes: usize) -> (r: Vec<NodeId>)
    requires
        cpg.wf(),
    ensures
        r@ == slice_order(*cpg, criterion, max_nodes as nat, true),
{
    slice(cpg, criterion, max_nodes, true)
}

/// The forward slice of `criterion`: the nodes it affects, transitively,
/// over outgoing control- and data-dependence edges, itself first, in the
/// order a breadth-first search finds them; the search stops once the slice
/// holds `max_nodes` nodes.
pub fn forward_slice(cpg: &CodePropertyGraph, criterion: NodeId, max_nodes: usize) -> (r: Vec<NodeId>)
    requires
        cpg.wf(),
    ensures
        r@ == slice_order(*cpg, criterion, max_nodes as nat, false),
{
    slice(cpg, criterion, max_nodes, false)
}

// ---------------------------------------------------------------------------
// What slices satisfy
// ---------------------------------------------------------------------------

/// The overlay a slice walks: dependence edges against their direction when
/// `backward`, along it otherwise.
pub open spec fn slice_overlay(backward: bool) -> Overlay {
    if backward { Overlay::DependenceReversed } else { Overlay::Dependence }
}

/// `a` begins `b`.
pub open spec fn begins(a: Seq<NodeId>, b: Seq<NodeId>) -> bool {
    a.len() <= b.len() && b.subrange(0, a.len() as int) == a
}

proof fn lemma_begins_trans(a: Seq<NodeId>, b: Seq<NodeId>, c: Seq<NodeId>)
    requires
        begins(a, b),
        begins(b, c),
    ensures
        begins(a, c),
{
    assert(c.subrange(0, a.len() as int) =~= c.subrange(0, b.len() as int).subrange(0, a.len() as int));
}

proof fn lemma_begins_contains(a: Seq<NodeId>, b: Seq<NodeId>, x: NodeId)
    requires
        begins(a, b),
        a.contains(x),
    ensures
        b.contains(x),
{
    let i = choose|i: int| 0 <= i < a.len() && a[i] == x;
    assert(b.subrange(0, a.len() as int)[i] == b[i]);
}

/// What one offer does: it extends the slice, within the bound, without
/// repeats, with offered nodes only; a stop leaves the slice full, and a
/// completed offer leaves every offered node in the slice.
proof fn lemma_offer(order: Seq<NodeId>, nbrs: Seq<NodeId>, cap: nat)
    ensures
        begins(order, offer(order, nbrs, cap).0),
        order.len() <= cap ==> offer(order, nbrs, cap).0.len() <= cap,
        order.no_duplicates() ==> offer(order, nbrs, cap).0.no_duplicates(),
        forall|x: NodeId| #[trigger] offer(order, nbrs, cap).0.contains(x) ==> order.contains(x) || nbrs.contains(x),
        offer(order, nbrs, cap).1 ==> offer(order, nbrs, cap).0.len() >= cap,
        !offer(order, nbrs, cap).1 ==> forall|x: NodeId| #[trigger] nbrs.contains(x) ==> offer(order, nbrs, cap).0.contains(x),
    decreases nbrs.len(),
{
    assert(order.subrange(0, order.len() as int) =~= order);
    if nbrs.len() > 0 && order.len() < cap {
        let y = nbrs[0];
        let next = if order.contains(y) { order } else { order.push(y) };
        let rest = nbrs.drop_first();
        lemma_offer(next, rest, cap);
        let r = offer(next, rest, cap).0;
        assert(begins(order, next)) by {
            assert(next.subrange(0, order.len() as int) =~= order);
        }
        lemma_begins_trans(order, next, r);
        if order.no_duplicates() && !order.contains(y) {
            assert(next.no_duplicates()) by {
                assert forall|i: int, j: int| 0 <= i < j < next.len() implies next[i] != next[j] by {
                    if j == order.len() {
                        assert(order.contains(next[i]));
                    }
                }
            }
        }
        assert forall|x: NodeId| #[trigger] r.contains(x) implies order.contains(x) || nbrs.contains(x) by {
            if next.contains(x) && !order.contains(x) {
                assert(x == y);
                assert(nbrs[0] == x);
            }
            if rest.contains(x) {
                let i = choose|i: int| 0 <= i < rest.len() && rest[i] == x;
                assert(nbrs[i + 1] == x);
            }
        }
        if !offer(next, rest, cap).1 {
            assert forall|x: NodeId| #[trigger] nbrs.contains(x) implies r.contains(x) by {
                let i = choose|i: int| 0 <= i < nbrs.len() && nbrs[i] == x;
                if i == 0 {
                    assert(next.contains(x)) by {
                        if !order.contains(y) {
                            assert(next[order.len() as int] == y);
                        }
                    }
                    lemma_begins_contains(next, r, x);
                } else {
                    assert(rest[i - 1] == x);
                    assert(rest.contains(x));
                }
            }
        }
    }
}

/// A smaller bound offers a slice that begins the larger bound's slice, and
/// the very same slice when it did not stop.
proof fn lemma_offer_monotone(order: Seq<NodeId>, nbrs: Seq<NodeId>, lo: nat, hi: nat)
    requires
        lo <= hi,
    ensures
        begins(offer(order, nbrs, lo).0, offer(order, nbrs, hi).0),
        !offer(order, nbrs, lo).1 ==> offer(order, nbrs, lo) == offer(order, nbrs, hi),
    decreases nbrs.len(),
{
    if nbrs.len() == 0 {
        assert(begins(order, order)) by { assert(order.subrange(0, order.len() as int) =~= order); }
    } else if order.len() >= hi {
        assert(begins(order, order)) by { assert(order.subrange(0, order.len() as int) =~= order); }
    } else if order.len() >= lo {
        lemma_offer(order, nbrs, hi);
    } else {
        let y = nbrs[0];
        let next = if order.contains(y) { order } else { order.push(y) };
        lemma_offer_monotone(next, nbrs.drop_first(), lo, hi);
    }
}

/// Growth extends the slice, within the bound, without repeats.
proof fn lemma_grow(g: CodePropertyGraph, backward: bool, order: Seq<NodeId>, head: nat, cap: nat, fuel: nat)
    ensures
        begins(order, grow(g, backward, order, head, cap, fuel)),
        order.len() <= cap ==> grow(g, backward, order, head, cap, fuel).len() <= cap,
        order.no_duplicates() ==> grow(g, backward, order, head, cap, fuel).no_duplicates(),
    decreases fuel,
{
    if fuel == 0 || head >= order.len() {
        assert(order.subrange(0, order.len() as int) =~= order);
    } else {
        let nbrs = dependence_neighbours(g, order[head as int], backward);
        lemma_offer(order, nbrs, cap);
        let (next, stopped) = offer(order, nbrs, cap);
        if !stopped {
            lemma_grow(g, backward, next, head + 1, cap, (fuel - 1) as nat);
            lemma_begins_trans(order, next, grow(g, backward, next, head + 1, cap, (fuel - 1) as nat));
        }
    }
}

/// A smaller bound grows a slice that begins the larger bound's slice.
proof fn lemma_grow_monotone(g: CodePropertyGraph, backward: bool, order: Seq<NodeId>, head: nat, lo: nat, hi: nat, fuel: nat)
    requires
        lo <= hi,
    ensures
        begins(grow(g, backward, order, head, lo, fuel), grow(g, backward, order, head, hi, fuel)),
    decreases fuel,
{
    if fuel == 0 || head >= order.len() {
        assert(order.subrange(0, order.len() as int) =~= order);
    } else {
        let nbrs = dependence_neighbours(g, order[head as int], backward);
        lemma_offer_monotone(order, nbrs, lo, hi);
        let (n1, s1) = offer(order, nbrs, lo);
        let (n2, s2) = offer(order, nbrs, hi);
        if !s1 {
            lemma_grow_monotone(g, backward, n1, head + 1, lo, hi, (fuel - 1) as nat);
        } else if !s2 {
            lemma_grow(g, backward, n2, head + 1, hi, (fuel - 1) as nat);
            lemma_begins_trans(n1, n2, grow(g, backward, n2, head + 1, hi, (fuel - 1) as nat));
        }
    }
}

/// The neighbours a slice takes from `x` are its overlay successors.
proof fn lemma_neighbour_step(g: CodePropertyGraph, x: NodeId, y: NodeId, backward: bool)
    ensures
        dependence_neighbours(g, x, backward).contains(y) <==> overlay_rel(g, slice_overlay(backward))(x.0 as int, y.0 as int),
{
    let f = sel_dependence(x, backward);
    crate::graph::lemma_select_member(g.edges_view(), f, y);
    let o = slice_overlay(backward);
    if dependence_neighbours(g, x, backward).contains(y) {
        let k = choose|k: int| 0 <= k < g.edges_view().len() && f(g.edges_view()[k]) == Some(y);
        assert(picks(o, g.edges_view()[k]) == Some((x.0 as int, y.0 as int)));
    }
    if overlay_rel(g, o)(x.0 as int, y.0 as int) {
        let k = choose|k: int| 0 <= k < g.edges_view().len() && #[trigger] picks(o, g.edges_view()[k]) == Some((x.0 as int, y.0 as int));
        let e = g.edges_view()[k];
        if backward {
            assert(e.target.0 == x.0 && e.source.0 == y.0);
            assert(e.target == x && e.source == y);
        } else {
            assert(e.source.0 == x.0 && e.target.0 == y.0);
            assert(e.source == x && e.target == y);
        }
        assert(f(e) == Some(y));
    }
}

/// A walk extended by one more step is a walk.
proof fn lemma_rel_reaches_step(rel: spec_fn(int, int) -> bool, n: int, u: int, v: int, w: int)
    requires
        rel_reaches(rel, n, u, v),
        rel(v, w),
        0 <= w < n,
    ensures
        rel_reaches(rel, n, u, w),
{
    let p = choose|p: Seq<int>| #[trigger] rel_path(rel, n, p) && p[0] == u && p.last() == v;
    let q = p.push(w);
    assert forall|i: int| 0 <= i < q.len() - 1 implies rel(#[trigger] q[i], q[i + 1]) by {
        if i < p.len() - 1 {
            assert(q[i] == p[i] && q[i + 1] == p[i + 1]);
        } else {
            assert(q[i] == v);
        }
    }
    assert(rel_path(rel, n, q));
}

/// Growth keeps every node of the slice reached from `c`.
proof fn lemma_grow_reach(g: CodePropertyGraph, backward: bool, c: NodeId, order: Seq<NodeId>, head: nat, cap: nat, fuel: nat)
    requires
        g.wf(),
        forall|x: NodeId| #[trigger] order.contains(x) ==> overlay_reaches(g, slice_overlay(backward), c, x),
    ensures
        forall|x: NodeId| #[trigger] grow(g, backward, order, head, cap, fuel).contains(x) ==> overlay_reaches(g, slice_overlay(backward), c, x),
    decreases fuel,
{
    if fuel > 0 && head < order.len() {
        let src = order[head as int];
        let nbrs = dependence_neighbours(g, src, backward);
        lemma_offer(order, nbrs, cap);
        let (next, stopped) = offer(order, nbrs, cap);
        assert(order.contains(src));
        assert forall|x: NodeId| #[trigger] next.contains(x) implies overlay_reaches(g, slice_overlay(backward), c, x) by {
            if !order.contains(x) {
                assert(nbrs.contains(x));
                lemma_neighbour_step(g, src, x, backward);
                let o = slice_overlay(backward);
                let k = choose|k: int| 0 <= k < g.edges_view().len() && #[trigger] picks(o, g.edges_view()[k]) == Some((src.0 as int, x.0 as int));
                assert(g.valid(g.edges_view()[k].source) && g.valid(g.edges_view()[k].target));
                lemma_rel_reaches_step(overlay_rel(g, o), g.nodes_view().len() as int, c.0 as int, src.0 as int, x.0 as int);
            }
        }
        assert(grow(g, backward, order, head, cap, fuel) == if stopped { next } else { grow(g, backward, next, head + 1, cap, (fuel - 1) as nat) });
        if !stopped {
            lemma_grow_reach(g, backward, c, next, head + 1, cap, (fuel - 1) as nat);
        }
    }
}

/// Distinct node ids below `n` number at most `n`.
proof fn lemma_distinct_ids_bound(s: Seq<NodeId>, n: int)
    requires
        0 <= n,
        s.no_duplicates(),
        forall|i: int| 0 <= i < s.len() ==> (#[trigger] s[i]).0 < n,
    ensures
        s.len() <= n,
{
    let f = |x: NodeId| x.0 as int;
    let t = s.map_values(f);
    assert(vstd::relations::injective(f)) by {
        assert forall|a: NodeId, b: NodeId| #[trigger] f(a) == #[trigger] f(b) implies a == b by {
            assert(a.0 == b.0);
        }
    }
    s.lemma_no_duplicates_injective(f);
    t.unique_seq_to_set();
    assert(t.to_set().subset_of(vstd::set_lib::set_int_range(0, n))) by {
        assert forall|x: int| #[trigger] t.to_set().contains(x) implies vstd::set_lib::set_int_range(0, n).contains(x) by {
            assert(t.contains(x));
            let i = choose|i: int| 0 <= i < t.len() && t[i] == x;
            assert(s[i].0 < n);
        }
    }
    vstd::set_lib::lemma_int_range(0, n);
    vstd::set_lib::lemma_len_subset(t.to_set(), vstd::set_lib::set_int_range(0, n));
}

/// Growth that ends below the bound, from a slice whose expanded nodes have
/// all their neighbours in it, ends with a slice whose nodes all have.
proof fn lemma_grow_closed(g: CodePropertyGraph, backward: bool, order: Seq<NodeId>, head: nat, cap: nat, fuel: nat)
    requires
        g.wf(),
        head <= order.len(),
        order.no_duplicates(),
        order.len() <= cap,
        forall|i: int| 0 <= i < order.len() ==> g.valid(#[trigger] order[i]),
        forall|i: int, y: NodeId| 0 <= i < head && #[trigger] dependence_neighbours(g, order[i], backward).contains(y) ==> order.contains(y),
        head + fuel >= g.nodes_view().len() + 1,
        grow(g, backward, order, head, cap, fuel).len() < cap,
    ensures
        forall|i: int, y: NodeId| 0 <= i < grow(g, backward, order, head, cap, fuel).len()
            && #[trigger] dependence_neighbours(g, grow(g, backward, order, head, cap, fuel)[i], backward).contains(y)
            ==> grow(g, backward, order, head, cap, fuel).contains(y),
    decreases fuel,
{
    lemma_distinct_ids_bound(order, g.nodes_view().len() as int);
    if fuel > 0 && head < order.len() {
        let src = order[head as int];
        let nbrs = dependence_neighbours(g, src, backward);
        lemma_offer(order, nbrs, cap);
        let (next, stopped) = offer(order, nbrs, cap);
        assert(!stopped);
        assert forall|i: int| 0 <= i < next.len() implies g.valid(#[trigger] next[i]) by {
            assert(next.contains(next[i]));
            if !order.contains(next[i]) {
                let y = next[i];
                assert(nbrs.contains(y));
                lemma_neighbour_step(g, src, y, backward);
                let o = slice_overlay(backward);
                let k = choose|k: int| 0 <= k < g.edges_view().len() && #[trigger] picks(o, g.edges_view()[k]) == Some((src.0 as int, y.0 as int));
                assert(g.valid(g.edges_view()[k].source) && g.valid(g.edges_view()[k].target));
            } else {
                let j = choose|j: int| 0 <= j < order.len() && order[j] == next[i];
                assert(g.valid(order[j]));
            }
        }
        assert forall|i: int, y: NodeId| 0 <= i < head + 1 && #[trigger] dependence_neighbours(g, next[i], backward).contains(y) implies next.contains(y) by {
            assert(next.subrange(0, order.len() as int)[i] == next[i]);
            assert(next[i] == order[i]);
            if i < head {
                assert(order.contains(y));
                lemma_begins_contains(order, next, y);
            }
        }
        assert(grow(g, backward, order, head, cap, fuel) == grow(g, backward, next, head + 1, cap, (fuel - 1) as nat));
        lemma_grow_closed(g, backward, next, head + 1, cap, (fuel - 1) as nat);
    } else {
        assert(head >= order.len());
        assert(grow(g, backward, order, head, cap, fuel) == order);
    }
}

/// Along a walk from a node of a closed set, every later node is in the set.
proof fn lemma_closed_path(g: CodePropertyGraph, backward: bool, set: Seq<NodeId>, p: Seq<int>, i: int)
    requires
        g.wf(),
        0 <= i < p.len(),
        rel_path(overlay_rel(g, slice_overlay(backward)), g.nodes_view().len() as int, p),
        set.contains(NodeId(p[i] as u32)),
        forall|i: int, y: NodeId| 0 <= i < set.len() && #[trigger] dependence_neighbours(g, set[i], backward).contains(y) ==> set.contains(y),
    ensures
        set.contains(NodeId(p.last() as u32)),
    decreases p.len() - i,
{
    if i < p.len() - 1 {
        let o = slice_overlay(backward);
        let n = g.nodes_view().len() as int;
        let x = NodeId(p[i] as u32);
        let y = NodeId(p[i + 1] as u32);
        assert(overlay_rel(g, o)(p[i], p[i + 1]));
        assert(0 <= p[i] < n && 0 <= p[i + 1] < n);
        assert(x.0 as int == p[i] && y.0 as int == p[i + 1]);
        lemma_neighbour_step(g, x, y, backward);
        let t = choose|t: int| 0 <= t < set.len() && set[t] == x;
        assert(dependence_neighbours(g, set[t], backward).contains(y));
        lemma_closed_path(g, backward, set, p, i + 1);
    }
}

/// A closed set holding `c` holds every node `c` reaches.
proof fn lemma_closed_holds(g: CodePropertyGraph, backward: bool, set: Seq<NodeId>, c: NodeId, v: NodeId)
    requires
        g.wf(),
        set.contains(c),
        forall|i: int, y: NodeId| 0 <= i < set.len() && #[trigger] dependence_neighbours(g, set[i], backward).contains(y) ==> set.contains(y),
        overlay_reaches(g, slice_overlay(backward), c, v),
    ensures
        set.contains(v),
{
    let o = slice_overlay(backward);
    let n = g.nodes_view().len() as int;
    let p = choose|p: Seq<int>| #[trigger] rel_path(overlay_rel(g, o), n, p) && p[0] == c.0 as int && p.last() == v.0 as int;
    assert(NodeId(p[0] as u32) == c);
    lemma_closed_path(g, backward, set, p, 0);
    assert(NodeId(p.last() as u32) == v);
}

/// A slice holds at most its bound, without repeats; a zero bound or an id
/// that is no node gives the empty slice.
pub proof fn law_slice_bounded(g: CodePropertyGraph, criterion: NodeId, max_nodes: nat, backward: bool)
    ensures
        slice_order(g, criterion, max_nodes, backward).len() <= max_nodes,
        slice_order(g, criterion, max_nodes, backward).no_duplicates(),
        (max_nodes == 0 || !g.valid(criterion)) ==> slice_order(g, criterion, max_nodes, backward).len() == 0,
{
    if max_nodes > 0 && g.valid(criterion) {
        lemma_grow(g, backward, seq![criterion], 0, max_nodes, (g.nodes_view().len() + 1) as nat);
    }
}

/// A slice with room for a node begins with its criterion.
pub proof fn law_slice_has_criterion(g: CodePropertyGraph, criterion: NodeId, max_nodes: nat, backward: bool)
    requires
        max_nodes >= 1,
        g.valid(criterion),
    ensures
        slice_order(g, criterion, max_nodes, backward).len() >= 1,
        slice_order(g, criterion, max_nodes, backward)[0] == criterion,
{
    let s = slice_order(g, criterion, max_nodes, backward);
    lemma_grow(g, backward, seq![criterion], 0, max_nodes, (g.nodes_view().len() + 1) as nat);
    assert(s.subrange(0, 1)[0] == s[0]);
}

/// Every node of a slice is reached from its criterion along dependence
/// edges (against their direction for a backward slice).
pub proof fn law_slice_within_reach(g: CodePropertyGraph, criterion: NodeId, max_nodes: nat, backward: bool)
    requires
        g.wf(),
    ensures
        forall|v: NodeId| #[trigger] slice_order(g, criterion, max_nodes, backward).contains(v) ==>
            overlay_reaches(g, slice_overlay(backward), criterion, v),
{
    if max_nodes > 0 && g.valid(criterion) {
        let o = slice_overlay(backward);
        let n = g.nodes_view().len() as int;
        assert(overlay_reaches(g, o, criterion, criterion)) by {
            let p = seq![criterion.0 as int];
            assert(rel_path(overlay_rel(g, o), n, p));
        }
        assert forall|x: NodeId| #[trigger] seq![criterion].contains(x) implies overlay_reaches(g, o, criterion, x) by {
            assert(seq![criterion][0] == x);
        }
        lemma_grow_reach(g, backward, criterion, seq![criterion], 0, max_nodes, (n + 1) as nat);
    }
}

/// Slices grow with their bound: the slice for a smaller bound begins the
/// slice for a larger one, so it is a subset of it.
pub proof fn law_slice_monotone(g: CodePropertyGraph, criterion: NodeId, lo: nat, hi: nat, backward: bool)
    requires
        lo <= hi,
    ensures
        begins(slice_order(g, criterion, lo, backward), slice_order(g, criterion, hi, backward)),
        forall|v: NodeId| #[trigger] slice_order(g, criterion, lo, backward).contains(v) ==> slice_order(g, criterion, hi, backward).contains(v),
{
    let a = slice_order(g, criterion, lo, backward);
    let b = slice_order(g, criterion, hi, backward);
    if lo == 0 || !g.valid(criterion) {
        assert(b.subrange(0, 0) =~= a);
    } else {
        lemma_grow_monotone(g, backward, seq![criterion], 0, lo, hi, (g.nodes_view().len() + 1) as nat);
    }
    assert forall|v: NodeId| #[trigger] a.contains(v) implies b.contains(v) by {
        lemma_begins_contains(a, b, v);
    }
}

/// A slice that ends below its bound is complete: it holds every node its
/// criterion reaches along dependence edges.
pub proof fn law_slice_complete(g: CodePropertyGraph, criterion: NodeId, max_nodes: nat, backward: bool)
    requires
        g.wf(),
        g.valid(criterion),
        slice_order(g, criterion, max_nodes, backward).len() < max_nodes,
    ensures
        forall|v: NodeId| overlay_reaches(g, slice_overlay(backward), criterion, v) ==>
            #[trigger] slice_order(g, criterion, max_nodes, backward).contains(v),
{
    let start = seq![criterion];
    let fuel = (g.nodes_view().len() + 1) as nat;
    let s = slice_order(g, criterion, max_nodes, backward);
    assert(start.no_duplicates());
    lemma_grow_closed(g, backward, start, 0, max_nodes, fuel);
    law_slice_has_criterion(g, criterion, max_nodes, backward);
    assert(s.contains(criterion)) by { assert(s[0] == criterion); }
    assert forall|v: NodeId| overlay_reaches(g, slice_overlay(backward), criterion, v) implies #[trigger] s.contains(v) by {
        lemma_closed_holds(g, backward, s, criterion, v);
    }
}

} // verus!
