//! The control flow of each construct, stated over the syntax tree: the
//! edges a pass wires, in the order it wires them, the nodes control leaves a
//! construct from, and the loop and try frames it carries down the tree.
//!
//! The rules read only node kinds and syntax children, never control-flow
//! edges; this is why running the pass again adds nothing.

use vstd::prelude::*;
use crate::graph::{function_ids, select, sel_ast_child, CfgEdgeKind, CodePropertyGraph, CpgEdge, CpgNode, CpgNodeKind, NodeId};
use super::cfg::{kids, flow, CfgExtractorConfig};

verus! {

/// What the pass reads of a graph: its nodes and each node's syntax children.
#[verifier::ext_equal]
pub struct Ast {
    pub nodes: Seq<CpgNode>,
    pub children: spec_fn(NodeId) -> Seq<NodeId>,
}

/// The syntax tree of `g`.
pub open spec fn ast_of(g: &CodePropertyGraph) -> Ast {
    Ast { nodes: g.nodes_view(), children: |n: NodeId| kids(g, n) }
}

/// A control-flow edge to be wired: from, to, label.
#[derive(Clone, Copy, Debug)]
pub struct Link {
    pub from: NodeId,
    pub to: NodeId,
    pub kind: CfgEdgeKind,
}

/// The edge a link stands for.
pub open spec fn edge_of(l: Link) -> CpgEdge {
    flow(l.from, l.to, l.kind)
}

/// An enclosing loop: its node, where `continue` goes, the breaks met so far.
#[verifier::ext_equal]
pub struct LoopFrame {
    pub loop_id: NodeId,
    pub continue_target: NodeId,
    pub breaks: Seq<NodeId>,
}

/// What the pass carries down the tree: the nodes on the current descent,
/// the enclosing loops, and the catch handlers of the enclosing try blocks.
#[verifier::ext_equal]
pub struct Walk {
    pub on_path: Seq<bool>,
    pub loops: Seq<LoopFrame>,
    pub tries: Seq<Seq<NodeId>>,
}

/// After a construct: all links wired so far, the nodes control leaves the
/// construct from, and the state carried on.
#[verifier::ext_equal]
pub struct Flow {
    pub links: Seq<Link>,
    pub exits: Seq<NodeId>,
    pub walk: Walk,
}

/// The state at the start of a function of a graph with `n` nodes.
pub open spec fn start_walk(n: nat) -> Walk {
    Walk { on_path: Seq::new(n, |i: int| false), loops: Seq::empty(), tries: Seq::empty() }
}

/// The kind of `id`, if it is a node.
pub open spec fn kind_at(a: Ast, id: NodeId) -> Option<CpgNodeKind> {
    if (id.0 as int) < a.nodes.len() { Some(a.nodes[id.0 as int].kind) } else { None }
}

/// A link labelled `k` from each of `sources` to `target`.
pub open spec fn fan_in(sources: Seq<NodeId>, target: NodeId, k: CfgEdgeKind) -> Seq<Link> {
    sources.map_values(|s: NodeId| Link { from: s, to: target, kind: k })
}

/// A link labelled `k` from `source` to each of `targets`.
pub open spec fn fan_out(source: NodeId, targets: Seq<NodeId>, k: CfgEdgeKind) -> Seq<Link> {
    targets.map_values(|t: NodeId| Link { from: source, to: t, kind: k })
}

/// `exits`, or the construct itself when control leaves it from nowhere else.
pub open spec fn or_self(exits: Seq<NodeId>, id: NodeId) -> Seq<NodeId> {
    if exits.len() == 0 { seq![id] } else { exits }
}

/// Whether `id` is a jump (`return`, `break`, `continue`, `throw`).
pub open spec fn is_jump(a: Ast, id: NodeId) -> bool {
    match kind_at(a, id) {
        Some(CpgNodeKind::Return) | Some(CpgNodeKind::Break) | Some(CpgNodeKind::Continue) | Some(CpgNodeKind::Throw) => true,
        _ => false,
    }
}

/// Whether `id` is a match arm.
pub open spec fn is_arm(a: Ast, id: NodeId) -> bool {
    kind_at(a, id) matches Some(CpgNodeKind::MatchArm)
}

/// Where the `false` branch of a conditional goes: into an `else` wrapper's
/// first child, else the branch itself.
pub open spec fn else_target(a: Ast, x: NodeId) -> NodeId {
    if kind_at(a, x) matches Some(CpgNodeKind::Else) && (a.children)(x).len() > 0 { (a.children)(x)[0] } else { x }
}

/// `w` with the path marks `m`.
pub open spec fn with_marks(w: Walk, m: Seq<bool>) -> Walk {
    Walk { on_path: m, loops: w.loops, tries: w.tries }
}

/// Control flow through `id` and what it encloses, after `links`. A node
/// that is not in the graph, is already on the current descent, or is reached
/// with no depth left is its own exit.
pub open spec fn node_flow(cfg: CfgExtractorConfig, a: Ast, id: NodeId, w: Walk, links: Seq<Link>, fuel: nat) -> Flow
    decreases fuel, 0int, 0int,
{
    match kind_at(a, id) {
        None => Flow { links, exits: seq![id], walk: w },
        Some(k) => {
            let i = id.0 as int;
            if w.on_path[i] || fuel == 0 {
                Flow { links, exits: seq![id], walk: w }
            } else {
                let o = kind_flow(cfg, a, k, id, with_marks(w, w.on_path.update(i, true)), links, (fuel - 1) as nat);
                Flow { links: o.links, exits: o.exits, walk: with_marks(o.walk, o.walk.on_path.update(i, false)) }
            }
        },
    }
}

/// Control flow through `id` by its kind `k`.
pub open spec fn kind_flow(cfg: CfgExtractorConfig, a: Ast, k: CpgNodeKind, id: NodeId, w: Walk, links: Seq<Link>, fuel: nat) -> Flow
    decreases fuel, 5int, 0int,
{
    match k {
        CpgNodeKind::Block { .. } => block_flow(cfg, a, id, w, links, fuel),
        CpgNodeKind::If => if_flow(cfg, a, id, w, links, fuel),
        CpgNodeKind::While => while_flow(cfg, a, id, w, links, fuel),
        CpgNodeKind::For => for_flow(cfg, a, id, w, links, fuel),
        CpgNodeKind::Loop => loop_flow(cfg, a, id, w, links, fuel),
        CpgNodeKind::Match => match_flow(cfg, a, id, w, links, fuel),
        CpgNodeKind::Return => return_flow(cfg, a, id, w, links, fuel),
        CpgNodeKind::Break => break_flow(id, w, links),
        CpgNodeKind::Continue => continue_flow(id, w, links),
        CpgNodeKind::Try => try_flow(cfg, a, id, w, links, fuel),
        CpgNodeKind::Throw => throw_flow(cfg, a, id, w, links, fuel),
        CpgNodeKind::Call { .. } => if cfg.include_call_edges {
            call_flow(cfg, a, id, w, links, fuel)
        } else {
            seq_flow(cfg, a, id, w, links, fuel)
        },
        _ => seq_flow(cfg, a, id, w, links, fuel),
    }
}

/// A block: it enters its first statement; each statement flows from the
/// exits of the one before, unless that one was a jump.
pub open spec fn block_flow(cfg: CfgExtractorConfig, a: Ast, id: NodeId, w: Walk, links: Seq<Link>, fuel: nat) -> Flow
    decreases fuel, 3int, 0int,
{
    let ch = (a.children)(id);
    if ch.len() == 0 {
        Flow { links, exits: seq![id], walk: w }
    } else {
        block_steps(cfg, a, id, ch, 0, Seq::empty(), Seq::empty(), false, w,
            links.push(Link { from: id, to: ch[0], kind: CfgEdgeKind::Sequential }), fuel)
    }
}

/// The statements of a block from the `i`-th on: `current` are the exits to
/// flow into the next statement, `all` the exits of the jumps met, `ended`
/// whether one was met. The block's exits are those of the jumps, then those
/// of the last statement unless a jump was met.
pub open spec fn block_steps(cfg: CfgExtractorConfig, a: Ast, id: NodeId, ch: Seq<NodeId>, i: int,
    current: Seq<NodeId>, all: Seq<NodeId>, ended: bool, w: Walk, links: Seq<Link>, fuel: nat) -> Flow
    decreases fuel, 2int, ch.len() - i,
{
    if i >= ch.len() {
        Flow { links, exits: or_self(if ended { all } else { all + current }, id), walk: w }
    } else {
        let child = ch[i];
        let o = node_flow(cfg, a, child, w, links + fan_in(current, child, CfgEdgeKind::Sequential), fuel);
        if is_jump(a, child) {
            block_steps(cfg, a, id, ch, i + 1, if i + 1 < ch.len() { Seq::empty() } else { current },
                all + o.exits, true, o.walk, o.links, fuel)
        } else {
            block_steps(cfg, a, id, ch, i + 1, o.exits, all, ended, o.walk, o.links, fuel)
        }
    }
}

/// A conditional: it enters its condition, which flows to the `then` branch
/// when true and to the `else` branch, if any, when false.
pub open spec fn if_flow(cfg: CfgExtractorConfig, a: Ast, id: NodeId, w: Walk, links: Seq<Link>, fuel: nat) -> Flow
    decreases fuel, 3int, 0int,
{
    let ch = (a.children)(id);
    if ch.len() == 0 {
        Flow { links, exits: seq![id], walk: w }
    } else if ch.len() == 1 {
        Flow { links: links.push(Link { from: id, to: ch[0], kind: CfgEdgeKind::Sequential }), exits: seq![ch[0]], walk: w }
    } else {
        let cond = ch[0];
        let then_branch = ch[1];
        let o = node_flow(cfg, a, then_branch, w,
            links.push(Link { from: id, to: cond, kind: CfgEdgeKind::Sequential })
                .push(Link { from: cond, to: then_branch, kind: CfgEdgeKind::ConditionalTrue }), fuel);
        if ch.len() == 2 {
            Flow { links: o.links, exits: or_self(o.exits.push(cond), id), walk: o.walk }
        } else {
            let e = else_target(a, ch[2]);
            let o2 = node_flow(cfg, a, e, o.walk, o.links.push(Link { from: cond, to: e, kind: CfgEdgeKind::ConditionalFalse }), fuel);
            Flow { links: o2.links, exits: or_self(o.exits + o2.exits, id), walk: o2.walk }
        }
    }
}

/// A loop body under a new loop frame for `id`: the body's exits flow back
/// to `header`; the exits are the breaks met inside.
pub open spec fn loop_body_flow(cfg: CfgExtractorConfig, a: Ast, id: NodeId, body: NodeId, header: NodeId,
    continue_target: NodeId, w: Walk, links: Seq<Link>, fuel: nat) -> Flow
    decreases fuel, 1int, 0int,
{
    let frame = LoopFrame { loop_id: id, continue_target, breaks: Seq::empty() };
    let o = node_flow(cfg, a, body, Walk { on_path: w.on_path, loops: w.loops.push(frame), tries: w.tries }, links, fuel);
    Flow {
        links: o.links + fan_in(o.exits, header, CfgEdgeKind::LoopBack),
        exits: o.walk.loops.last().breaks,
        walk: Walk { on_path: o.walk.on_path, loops: o.walk.loops.drop_last(), tries: o.walk.tries },
    }
}

/// A `while` loop: condition, body when true, back to the condition; it is
/// left from the condition and from its breaks.
pub open spec fn while_flow(cfg: CfgExtractorConfig, a: Ast, id: NodeId, w: Walk, links: Seq<Link>, fuel: nat) -> Flow
    decreases fuel, 3int, 0int,
{
    let ch = (a.children)(id);
    if ch.len() < 2 {
        Flow { links, exits: seq![id], walk: w }
    } else {
        let cond = ch[0];
        let body = ch[1];
        let o = loop_body_flow(cfg, a, id, body, cond, cond, w,
            links.push(Link { from: id, to: cond, kind: CfgEdgeKind::Sequential })
                .push(Link { from: cond, to: body, kind: CfgEdgeKind::ConditionalTrue }), fuel);
        Flow { links: o.links, exits: seq![cond] + o.exits, walk: o.walk }
    }
}

/// A `for` loop: it is its own header and enters its body (its last child);
/// it is left from itself and from its breaks.
pub open spec fn for_flow(cfg: CfgExtractorConfig, a: Ast, id: NodeId, w: Walk, links: Seq<Link>, fuel: nat) -> Flow
    decreases fuel, 3int, 0int,
{
    let ch = (a.children)(id);
    if ch.len() == 0 {
        Flow { links, exits: seq![id], walk: w }
    } else {
        let body = ch.last();
        let o = loop_body_flow(cfg, a, id, body, id, id, w,
            links.push(Link { from: id, to: body, kind: CfgEdgeKind::ConditionalTrue }), fuel);
        Flow { links: o.links, exits: seq![id] + o.exits, walk: o.walk }
    }
}

/// An unconditional loop: it enters its body (its first child) and is left
/// only from its breaks.
pub open spec fn loop_flow(cfg: CfgExtractorConfig, a: Ast, id: NodeId, w: Walk, links: Seq<Link>, fuel: nat) -> Flow
    decreases fuel, 3int, 0int,
{
    let ch = (a.children)(id);
    if ch.len() == 0 {
        Flow { links, exits: seq![id], walk: w }
    } else {
        loop_body_flow(cfg, a, id, ch[0], id, id, w, links.push(Link { from: id, to: ch[0], kind: CfgEdgeKind::Sequential }), fuel)
    }
}

/// A match: a first child that is not an arm is the scrutinee, entered
/// first; every arm is a case of the scrutinee (or of the match) and flows
/// into its body (its last child).
pub open spec fn match_flow(cfg: CfgExtractorConfig, a: Ast, id: NodeId, w: Walk, links: Seq<Link>, fuel: nat) -> Flow
    decreases fuel, 3int, 0int,
{
    let ch = (a.children)(id);
    if ch.len() == 0 {
        Flow { links, exits: seq![id], walk: w }
    } else if ch.len() > 1 && !is_arm(a, ch[0]) {
        match_arms(cfg, a, id, ch, 1, ch[0], Seq::empty(), w, links.push(Link { from: id, to: ch[0], kind: CfgEdgeKind::Sequential }), fuel)
    } else {
        match_arms(cfg, a, id, ch, 0, id, Seq::empty(), w, links, fuel)
    }
}

/// The children of a match from the `k`-th on, cases of `source`; an arm
/// without a body is its own exit.
pub open spec fn match_arms(cfg: CfgExtractorConfig, a: Ast, id: NodeId, ch: Seq<NodeId>, k: int, source: NodeId,
    exits: Seq<NodeId>, w: Walk, links: Seq<Link>, fuel: nat) -> Flow
    decreases fuel, 2int, ch.len() - k,
{
    if k >= ch.len() {
        Flow { links, exits: or_self(exits, id), walk: w }
    } else {
        let arm = ch[k];
        if is_arm(a, arm) {
            let body = (a.children)(arm);
            let cased = links.push(Link { from: source, to: arm, kind: CfgEdgeKind::Case });
            if body.len() > 0 {
                let o = node_flow(cfg, a, body.last(), w, cased.push(Link { from: arm, to: body.last(), kind: CfgEdgeKind::Sequential }), fuel);
                match_arms(cfg, a, id, ch, k + 1, source, exits + o.exits, o.walk, o.links, fuel)
            } else {
                match_arms(cfg, a, id, ch, k + 1, source, exits.push(arm), w, cased, fuel)
            }
        } else {
            match_arms(cfg, a, id, ch, k + 1, source, exits, w, links, fuel)
        }
    }
}

/// A return: it evaluates its value (its first child), then leaves.
pub open spec fn return_flow(cfg: CfgExtractorConfig, a: Ast, id: NodeId, w: Walk, links: Seq<Link>, fuel: nat) -> Flow
    decreases fuel, 3int, 0int,
{
    let ch = (a.children)(id);
    if ch.len() > 0 {
        let o = node_flow(cfg, a, ch[0], w, links.push(Link { from: id, to: ch[0], kind: CfgEdgeKind::Sequential }), fuel);
        Flow { links: o.links, exits: seq![id], walk: o.walk }
    } else {
        Flow { links, exits: seq![id], walk: w }
    }
}

/// A break: it jumps to the innermost loop and is recorded among its breaks.
pub open spec fn break_flow(id: NodeId, w: Walk, links: Seq<Link>) -> Flow {
    if w.loops.len() > 0 {
        let top = w.loops.last();
        Flow {
            links: links.push(Link { from: id, to: top.loop_id, kind: CfgEdgeKind::Break }),
            exits: Seq::empty(),
            walk: Walk {
                on_path: w.on_path,
                loops: w.loops.update(w.loops.len() - 1,
                    LoopFrame { loop_id: top.loop_id, continue_target: top.continue_target, breaks: top.breaks.push(id) }),
                tries: w.tries,
            },
        }
    } else {
        Flow { links, exits: Seq::empty(), walk: w }
    }
}

/// A continue: it jumps to the innermost loop's continue target.
pub open spec fn continue_flow(id: NodeId, w: Walk, links: Seq<Link>) -> Flow {
    if w.loops.len() > 0 {
        Flow {
            links: links.push(Link { from: id, to: w.loops.last().continue_target, kind: CfgEdgeKind::Continue }),
            exits: Seq::empty(),
            walk: w,
        }
    } else {
        Flow { links, exits: Seq::empty(), walk: w }
    }
}

/// The parts of a try among `s`: its body (the first block), its catch
/// handlers in order, and its `finally` block (the last one).
pub open spec fn try_parts(a: Ast, s: Seq<NodeId>) -> (Option<NodeId>, Seq<NodeId>, Option<NodeId>)
    decreases s.len(),
{
    if s.len() == 0 {
        (None, Seq::empty(), None)
    } else {
        let (body, catches, fin) = try_parts(a, s.drop_last());
        let x = s.last();
        match kind_at(a, x) {
            Some(CpgNodeKind::Block { .. }) => (if body is None { Some(x) } else { body }, catches, fin),
            Some(CpgNodeKind::Catch) => (body, catches.push(x), fin),
            Some(CpgNodeKind::Finally) => (body, catches, Some(x)),
            _ => (body, catches, fin),
        }
    }
}

/// A try: it enters its body, run with its catch handlers as the targets of
/// throws; the body and each handler's body flow into the `finally` block
/// when there is one, whose exits then leave the try. Without exceptions it
/// is an ordinary node.
pub open spec fn try_flow(cfg: CfgExtractorConfig, a: Ast, id: NodeId, w: Walk, links: Seq<Link>, fuel: nat) -> Flow
    decreases fuel, 4int, 0int,
{
    if !cfg.include_exceptions {
        seq_flow(cfg, a, id, w, links, fuel)
    } else {
        let (body, catches, fin) = try_parts(a, (a.children)(id));
        let s = match body {
            Some(b) => {
                let o = node_flow(cfg, a, b, Walk { on_path: w.on_path, loops: w.loops, tries: w.tries.push(catches) },
                    links.push(Link { from: id, to: b, kind: CfgEdgeKind::Sequential }), fuel);
                let after = Walk { on_path: o.walk.on_path, loops: o.walk.loops, tries: o.walk.tries.drop_last() };
                match fin {
                    Some(f) => Flow { links: o.links + fan_in(o.exits, f, CfgEdgeKind::Sequential), exits: Seq::empty(), walk: after },
                    None => Flow { links: o.links, exits: o.exits, walk: after },
                }
            },
            None => Flow { links, exits: Seq::empty(), walk: w },
        };
        let h = catch_flows(cfg, a, catches, 0, fin, s.exits, s.walk, s.links, fuel);
        match fin {
            Some(f) => {
                let o = node_flow(cfg, a, f, h.walk, h.links, fuel);
                Flow { links: o.links, exits: or_self(h.exits + o.exits, id), walk: o.walk }
            },
            None => Flow { links: h.links, exits: or_self(h.exits, id), walk: h.walk },
        }
    }
}

/// The catch handlers from the `k`-th on: each enters its body (its last
/// child), whose exits flow into `fin` when there is one.
pub open spec fn catch_flows(cfg: CfgExtractorConfig, a: Ast, cs: Seq<NodeId>, k: int, fin: Option<NodeId>,
    exits: Seq<NodeId>, w: Walk, links: Seq<Link>, fuel: nat) -> Flow
    decreases fuel, 2int, cs.len() - k,
{
    if k >= cs.len() {
        Flow { links, exits, walk: w }
    } else {
        let c = cs[k];
        let body = (a.children)(c);
        if body.len() > 0 {
            let o = node_flow(cfg, a, body.last(), w, links.push(Link { from: c, to: body.last(), kind: CfgEdgeKind::Sequential }), fuel);
            match fin {
                Some(f) => catch_flows(cfg, a, cs, k + 1, fin, exits, o.walk, o.links + fan_in(o.exits, f, CfgEdgeKind::Sequential), fuel),
                None => catch_flows(cfg, a, cs, k + 1, fin, exits + o.exits, o.walk, o.links, fuel),
            }
        } else {
            catch_flows(cfg, a, cs, k + 1, fin, exits, w, links, fuel)
        }
    }
}

/// A throw: it evaluates its operand (its first child), then jumps to every
/// catch handler of the innermost try. Without exceptions it is its own exit.
pub open spec fn throw_flow(cfg: CfgExtractorConfig, a: Ast, id: NodeId, w: Walk, links: Seq<Link>, fuel: nat) -> Flow
    decreases fuel, 3int, 0int,
{
    if !cfg.include_exceptions {
        Flow { links, exits: seq![id], walk: w }
    } else {
        let ch = (a.children)(id);
        let o = if ch.len() > 0 {
            node_flow(cfg, a, ch[0], w, links.push(Link { from: id, to: ch[0], kind: CfgEdgeKind::Sequential }), fuel)
        } else {
            Flow { links, exits: Seq::empty(), walk: w }
        };
        if o.walk.tries.len() > 0 {
            Flow { links: o.links + fan_out(id, o.walk.tries.last(), CfgEdgeKind::Throw), exits: Seq::empty(), walk: o.walk }
        } else {
            Flow { links: o.links, exits: Seq::empty(), walk: o.walk }
        }
    }
}

/// A call: it enters each argument in order, then flows to its resolved
/// target, if any; it is its own exit.
pub open spec fn call_flow(cfg: CfgExtractorConfig, a: Ast, id: NodeId, w: Walk, links: Seq<Link>, fuel: nat) -> Flow
    decreases fuel, 3int, 0int,
{
    let o = call_args(cfg, a, id, (a.children)(id), 0, w, links, fuel);
    let wired = match kind_at(a, id) {
        Some(CpgNodeKind::Call { target: Some(t), .. }) => o.links.push(Link { from: id, to: t, kind: CfgEdgeKind::Call }),
        _ => o.links,
    };
    Flow { links: wired, exits: seq![id], walk: o.walk }
}

/// The arguments of a call from the `k`-th on.
pub open spec fn call_args(cfg: CfgExtractorConfig, a: Ast, id: NodeId, ch: Seq<NodeId>, k: int, w: Walk,
    links: Seq<Link>, fuel: nat) -> Flow
    decreases fuel, 2int, ch.len() - k,
{
    if k >= ch.len() {
        Flow { links, exits: Seq::empty(), walk: w }
    } else {
        let o = node_flow(cfg, a, ch[k], w, links.push(Link { from: id, to: ch[k], kind: CfgEdgeKind::Sequential }), fuel);
        call_args(cfg, a, id, ch, k + 1, o.walk, o.links, fuel)
    }
}

/// Any other node: it enters its first child and its children run in turn
/// (with no edges between them); it is left from the last child's exits, or
/// from itself when it has no children.
pub open spec fn seq_flow(cfg: CfgExtractorConfig, a: Ast, id: NodeId, w: Walk, links: Seq<Link>, fuel: nat) -> Flow
    decreases fuel, 3int, 0int,
{
    let ch = (a.children)(id);
    if ch.len() == 0 {
        Flow { links, exits: seq![id], walk: w }
    } else {
        chain_flow(cfg, a, ch, 0, Seq::empty(), w, links.push(Link { from: id, to: ch[0], kind: CfgEdgeKind::Sequential }), fuel)
    }
}

/// The children from the `k`-th on, each processed in turn; the exits are
/// the last one's.
pub open spec fn chain_flow(cfg: CfgExtractorConfig, a: Ast, ch: Seq<NodeId>, k: int, exits: Seq<NodeId>, w: Walk,
    links: Seq<Link>, fuel: nat) -> Flow
    decreases fuel, 1int, ch.len() - k,
{
    if k >= ch.len() {
        Flow { links, exits, walk: w }
    } else {
        let o = node_flow(cfg, a, ch[k], w, links, fuel);
        chain_flow(cfg, a, ch, k + 1, o.exits, o.walk, o.links, fuel)
    }
}

/// Control flow of function `f`: it flows into its body (its last child),
/// processed from a fresh state with as much depth as there are nodes.
pub open spec fn function_flow(cfg: CfgExtractorConfig, a: Ast, f: NodeId) -> Flow {
    let ch = (a.children)(f);
    if ch.len() > 0 {
        node_flow(cfg, a, ch.last(), start_walk(a.nodes.len()),
            seq![Link { from: f, to: ch.last(), kind: CfgEdgeKind::Sequential }], a.nodes.len())
    } else {
        Flow { links: Seq::empty(), exits: Seq::empty(), walk: start_walk(a.nodes.len()) }
    }
}

/// The links of the functions `fs`, one function after the other.
pub open spec fn functions_links(cfg: CfgExtractorConfig, a: Ast, fs: Seq<NodeId>) -> Seq<Link>
    decreases fs.len(),
{
    if fs.len() == 0 {
        Seq::empty()
    } else {
        functions_links(cfg, a, fs.drop_last()) + function_flow(cfg, a, fs.last()).links
    }
}

/// The exits of the bodies of the functions `fs`, one function after the other.
pub open spec fn functions_exits(cfg: CfgExtractorConfig, a: Ast, fs: Seq<NodeId>) -> Seq<NodeId>
    decreases fs.len(),
{
    if fs.len() == 0 {
        Seq::empty()
    } else {
        functions_exits(cfg, a, fs.drop_last()) + function_flow(cfg, a, fs.last()).exits
    }
}

/// `base` with the edge of each link of `links` between nodes below `n`
/// appended in turn, unless already there.
pub open spec fn with_links(base: Seq<CpgEdge>, links: Seq<Link>, n: nat) -> Seq<CpgEdge>
    decreases links.len(),
{
    if links.len() == 0 {
        base
    } else {
        let b = with_links(base, links.drop_last(), n);
        let e = edge_of(links.last());
        if (e.source.0 as int) < n && (e.target.0 as int) < n && !b.contains(e) { b.push(e) } else { b }
    }
}

/// `base` with each of `ids` appended in turn, unless already there.
pub open spec fn with_ids(base: Seq<NodeId>, ids: Seq<NodeId>) -> Seq<NodeId>
    decreases ids.len(),
{
    if ids.len() == 0 {
        base
    } else {
        let b = with_ids(base, ids.drop_last());
        if b.contains(ids.last()) { b } else { b.push(ids.last()) }
    }
}

/// What one run of the control-flow pass with options `cfg` makes of `old`:
/// the same nodes; the links of every function, in node order, wired after
/// `old`'s edges (each edge once, and only between nodes of the graph); the
/// functions added to the entry points and the exits of their bodies to the
/// exit points (each once).
pub open spec fn cfg_extracted(cfg: CfgExtractorConfig, old: &CodePropertyGraph, new: &CodePropertyGraph) -> bool {
    let fs = function_ids(old.nodes_view(), old.nodes_view().len() as int);
    &&& new.wf()
    &&& new.nodes_view() == old.nodes_view()
    &&& new.edges_view() == with_links(old.edges_view(), functions_links(cfg, ast_of(old), fs), old.nodes_view().len())
    &&& new.entries_view() == with_ids(old.entries_view(), fs)
    &&& new.exits_view() == with_ids(old.exits_view(), functions_exits(cfg, ast_of(old), fs))
}

/// The false path of an `if` without an `else` falls through: the condition
/// is among the exits of the `if`, so the statement after it is entered from
/// the condition as well as from the end of the `then` branch.
pub proof fn law_if_without_else_exits_from_condition(cfg: CfgExtractorConfig, a: Ast, id: NodeId, w: Walk,
    links: Seq<Link>, fuel: nat)
    requires
        kind_at(a, id) == Some(CpgNodeKind::If),
        (a.children)(id).len() == 2,
        !w.on_path[id.0 as int],
        fuel > 0,
    ensures
        node_flow(cfg, a, id, w, links, fuel).exits.contains((a.children)(id)[0]),
{
    let w1 = with_marks(w, w.on_path.update(id.0 as int, true));
    let ch = (a.children)(id);
    let cond = ch[0];
    let then_branch = ch[1];
    let o = node_flow(cfg, a, then_branch, w1,
        links.push(Link { from: id, to: cond, kind: CfgEdgeKind::Sequential })
            .push(Link { from: cond, to: then_branch, kind: CfgEdgeKind::ConditionalTrue }), (fuel - 1) as nat);
    let f = if_flow(cfg, a, id, w1, links, (fuel - 1) as nat);
    assert(f.exits == o.exits.push(cond));
    assert(f.exits[f.exits.len() - 1] == cond);
    assert(node_flow(cfg, a, id, w, links, fuel).exits == f.exits);
}

/// Running the control-flow pass on its own result changes nothing: no
/// edge, entry point or exit point is added the second time.
pub proof fn law_cfg_extract_idempotent(cfg: CfgExtractorConfig, g0: &CodePropertyGraph, g1: &CodePropertyGraph,
    g2: &CodePropertyGraph)
    requires
        cfg_extracted(cfg, g0, g1),
        cfg_extracted(cfg, g1, g2),
    ensures
        g2.edges_view() == g1.edges_view(),
        g2.entries_view() == g1.entries_view(),
        g2.exits_view() == g1.exits_view(),
{
    let n = g0.nodes_view().len();
    let fs = function_ids(g0.nodes_view(), n as int);
    let links = functions_links(cfg, ast_of(g0), fs);
    let exits = functions_exits(cfg, ast_of(g0), fs);
    lemma_with_links_shape(g0.edges_view(), links, n);
    lemma_ast_kept(g0, g1);
    lemma_with_links_covers(g0.edges_view(), links, n);
    lemma_with_links_noop(g1.edges_view(), links, n);
    lemma_with_ids_covers(g0.entries_view(), fs);
    lemma_with_ids_noop(g1.entries_view(), fs);
    lemma_with_ids_covers(g0.exits_view(), exits);
    lemma_with_ids_noop(g1.exits_view(), exits);
}

/// Selecting from edges whose tail yields nothing selects from the head.
pub proof fn lemma_select_head<T>(s: Seq<CpgEdge>, m: int, f: spec_fn(CpgEdge) -> Option<T>)
    requires
        0 <= m <= s.len(),
        forall|j: int| m <= j < s.len() ==> (#[trigger] f(s[j])) is None,
    ensures
        select(s, f) == select(s.subrange(0, m), f),
    decreases s.len(),
{
    if s.len() == m {
        assert(s.subrange(0, m) =~= s);
    } else {
        let init = s.drop_last();
        assert forall|j: int| m <= j < init.len() implies (#[trigger] f(init[j])) is None by {
            assert(init[j] == s[j]);
        }
        lemma_select_head(init, m, f);
        assert(init.subrange(0, m) =~= s.subrange(0, m));
        assert(f(s[s.len() - 1]) is None);
    }
}

/// Appending control-flow edges leaves the syntax tree as it was.
pub proof fn lemma_ast_kept(old: &CodePropertyGraph, new: &CodePropertyGraph)
    requires
        new.nodes_view() == old.nodes_view(),
        new.edges_view().len() >= old.edges_view().len(),
        new.edges_view().subrange(0, old.edges_view().len() as int) == old.edges_view(),
        forall|j: int| old.edges_view().len() <= j < new.edges_view().len() ==> (#[trigger] new.edges_view()[j]).kind.spec_is_cfg(),
    ensures
        ast_of(new) == ast_of(old),
{
    assert forall|n: NodeId| kids(new, n) == kids(old, n) by {
        assert forall|j: int| old.edges_view().len() <= j < new.edges_view().len()
            implies (#[trigger] sel_ast_child(n)(new.edges_view()[j])) is None by {
            assert(new.edges_view()[j].kind.spec_is_cfg());
        }
        lemma_select_head(new.edges_view(), old.edges_view().len() as int, sel_ast_child(n));
    }
    assert(ast_of(new).children =~= ast_of(old).children);
    assert(ast_of(new) =~= ast_of(old));
}

/// Graphs with the same nodes and edges have the same syntax tree.
pub proof fn lemma_ast_same(a: &CodePropertyGraph, b: &CodePropertyGraph)
    requires
        a.nodes_view() == b.nodes_view(),
        a.edges_view() == b.edges_view(),
    ensures
        ast_of(a) == ast_of(b),
{
    assert(ast_of(a).children =~= ast_of(b).children);
    assert(ast_of(a) =~= ast_of(b));
}

/// Wiring two lists in turn wires their concatenation.
pub proof fn lemma_with_links_compose(base: Seq<CpgEdge>, a: Seq<Link>, b: Seq<Link>, n: nat)
    ensures
        with_links(with_links(base, a, n), b, n) == with_links(base, a + b, n),
    decreases b.len(),
{
    if b.len() == 0 {
        assert(a + b =~= a);
    } else {
        lemma_with_links_compose(base, a, b.drop_last(), n);
        assert((a + b).drop_last() =~= a + b.drop_last());
        assert((a + b).last() == b.last());
    }
}

/// Adding two lists of ids in turn adds their concatenation.
pub proof fn lemma_with_ids_compose(base: Seq<NodeId>, a: Seq<NodeId>, b: Seq<NodeId>)
    ensures
        with_ids(with_ids(base, a), b) == with_ids(base, a + b),
    decreases b.len(),
{
    if b.len() == 0 {
        assert(a + b =~= a);
    } else {
        lemma_with_ids_compose(base, a, b.drop_last());
        assert((a + b).drop_last() =~= a + b.drop_last());
        assert((a + b).last() == b.last());
    }
}

/// Wiring keeps the edges there and appends only control-flow edges.
pub proof fn lemma_with_links_shape(base: Seq<CpgEdge>, links: Seq<Link>, n: nat)
    ensures
        with_links(base, links, n).len() >= base.len(),
        with_links(base, links, n).subrange(0, base.len() as int) == base,
        forall|j: int| base.len() <= j < with_links(base, links, n).len()
            ==> (#[trigger] with_links(base, links, n)[j]).kind.spec_is_cfg(),
    decreases links.len(),
{
    if links.len() == 0 {
        assert(base.subrange(0, base.len() as int) =~= base);
    } else {
        lemma_with_links_shape(base, links.drop_last(), n);
        let b = with_links(base, links.drop_last(), n);
        let r = with_links(base, links, n);
        assert(r.subrange(0, base.len() as int) =~= b.subrange(0, base.len() as int));
        assert forall|j: int| base.len() <= j < r.len() implies (#[trigger] r[j]).kind.spec_is_cfg() by {
            if j < b.len() {
                assert(r[j] == b[j]);
            }
        }
    }
}

/// After wiring, every edge of a link between nodes below `n` is there, and
/// so is every edge that was there before.
pub proof fn lemma_with_links_covers(base: Seq<CpgEdge>, links: Seq<Link>, n: nat)
    ensures
        forall|k: int| 0 <= k < links.len() && (links[k].from.0 as int) < n && (links[k].to.0 as int) < n
            ==> with_links(base, links, n).contains(#[trigger] edge_of(links[k])),
        forall|e: CpgEdge| base.contains(e) ==> with_links(base, links, n).contains(e),
    decreases links.len(),
{
    if links.len() > 0 {
        let init = links.drop_last();
        lemma_with_links_covers(base, init, n);
        let b = with_links(base, init, n);
        let r = with_links(base, links, n);
        assert forall|e: CpgEdge| b.contains(e) implies r.contains(e) by {
            let w = choose|w: int| 0 <= w < b.len() && b[w] == e;
            assert(r[w] == e);
        }
        assert forall|k: int| 0 <= k < links.len() && (links[k].from.0 as int) < n && (links[k].to.0 as int) < n
            implies r.contains(#[trigger] edge_of(links[k])) by {
            if k < init.len() {
                assert(init[k] == links[k]);
                assert(b.contains(edge_of(init[k])));
            } else if !b.contains(edge_of(links[k])) {
                assert(r[b.len() as int] == edge_of(links[k]));
            }
        }
    }
}

/// Wiring links whose edges are all there (or join a node not below `n`)
/// changes nothing.
pub proof fn lemma_with_links_noop(base: Seq<CpgEdge>, links: Seq<Link>, n: nat)
    requires
        forall|k: int| 0 <= k < links.len() && (links[k].from.0 as int) < n && (links[k].to.0 as int) < n
            ==> base.contains(#[trigger] edge_of(links[k])),
    ensures
        with_links(base, links, n) == base,
    decreases links.len(),
{
    if links.len() > 0 {
        let init = links.drop_last();
        assert forall|k: int| 0 <= k < init.len() && (init[k].from.0 as int) < n && (init[k].to.0 as int) < n
            implies base.contains(#[trigger] edge_of(init[k])) by {
            assert(init[k] == links[k]);
        }
        lemma_with_links_noop(base, init, n);
        assert(links.last() == links[links.len() - 1]);
    }
}

/// After adding, every id of the list is there, and so is every id that was
/// there before.
pub proof fn lemma_with_ids_covers(base: Seq<NodeId>, ids: Seq<NodeId>)
    ensures
        forall|k: int| 0 <= k < ids.len() ==> with_ids(base, ids).contains(#[trigger] ids[k]),
        forall|x: NodeId| base.contains(x) ==> with_ids(base, ids).contains(x),
    decreases ids.len(),
{
    if ids.len() > 0 {
        let init = ids.drop_last();
        lemma_with_ids_covers(base, init);
        let b = with_ids(base, init);
        let r = with_ids(base, ids);
        assert forall|x: NodeId| b.contains(x) implies r.contains(x) by {
            let w = choose|w: int| 0 <= w < b.len() && b[w] == x;
            assert(r[w] == x);
        }
        assert forall|k: int| 0 <= k < ids.len() implies r.contains(#[trigger] ids[k]) by {
            if k < init.len() {
                assert(init[k] == ids[k]);
                assert(b.contains(init[k]));
            } else if !b.contains(ids[k]) {
                assert(r[b.len() as int] == ids[k]);
            }
        }
    }
}

/// Adding ids that are all there changes nothing.
pub proof fn lemma_with_ids_noop(base: Seq<NodeId>, ids: Seq<NodeId>)
    requires
        forall|k: int| 0 <= k < ids.len() ==> base.contains(#[trigger] ids[k]),
    ensures
        with_ids(base, ids) == base,
    decreases ids.len(),
{
    if ids.len() > 0 {
        let init = ids.drop_last();
        assert forall|k: int| 0 <= k < init.len() implies base.contains(#[trigger] init[k]) by {
            assert(init[k] == ids[k]);
        }
        lemma_with_ids_noop(base, init);
        assert(ids.last() == ids[ids.len() - 1]);
    }
}

} // verus!
