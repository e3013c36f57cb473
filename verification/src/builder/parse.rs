//! Parsing with tree-sitter, and reading a tree-sitter parse tree into a
//! [`SyntaxTree`] of plain values.
//!
//! Each parser, tree and node carries, as ghost values, the language of the
//! grammar it was made with, the text that was parsed and (for a node) the
//! child positions that lead to it from the root. What tree-sitter reports of
//! a node is named over those plain values: the parse depends on the grammar
//! and the text alone, and a node of it is found again by its path.

use vstd::prelude::*;
use tree_sitter::Language as Grammar;
use crate::graph::Language;
use crate::syntax::{good_span, opt_text, SyntaxTree};
use super::parser_registry::TsGrammar;

verus! {

/// A tree-sitter grammar, carried through opaquely.
#[verifier::external_type_specification]
#[verifier::external_body]
pub struct ExGrammar(Grammar);

/// A tree-sitter parser.
#[verifier::external_type_specification]
#[verifier::external_body]
pub struct ExParser(tree_sitter::Parser);

/// A tree-sitter parse tree.
#[verifier::external_type_specification]
#[verifier::external_body]
pub struct ExTree(tree_sitter::Tree);

/// A node of a tree-sitter parse tree.
#[verifier::external_type_specification]
#[verifier::external_body]
pub struct ExNode<'tree>(tree_sitter::Node<'tree>);

/// Why a grammar could not be set on a parser.
#[verifier::external_type_specification]
#[verifier::external_body]
pub struct ExGrammarError(tree_sitter::LanguageError);

/// A parser, with the language of the grammar set on it (none yet).
pub struct TsParser {
    pub(crate) parser: tree_sitter::Parser,
    /// The language of the grammar set on the parser.
    pub(crate) language: Ghost<Option<Language>>,
}

/// A parse tree, with the language it was parsed as and the parsed text.
pub struct TsTree {
    pub(crate) tree: tree_sitter::Tree,
    /// The language of the grammar that parsed the text.
    pub(crate) language: Ghost<Language>,
    /// The parsed text.
    pub(crate) text: Ghost<Seq<char>>,
}

/// A node of a parse tree, found by the child positions that lead to it
/// from the root.
pub struct TsNode<'t> {
    pub(crate) node: tree_sitter::Node<'t>,
    /// The language of the parse.
    pub(crate) language: Ghost<Language>,
    /// The parsed text.
    pub(crate) text: Ghost<Seq<char>>,
    /// The child positions from the root to the node.
    pub(crate) path: Ghost<Seq<u32>>,
}

impl TsParser {
    /// The language of the grammar set on the parser, if any.
    pub closed spec fn lang(&self) -> Option<Language> {
        self.language@
    }
}

impl TsTree {
    /// The language of the grammar that parsed the text.
    pub closed spec fn lang(&self) -> Language {
        self.language@
    }

    /// The parsed text.
    pub closed spec fn text(&self) -> Seq<char> {
        self.text@
    }
}

impl<'t> View for TsNode<'t> {
    type V = (Language, Seq<char>, Seq<u32>);

    closed spec fn view(&self) -> (Language, Seq<char>, Seq<u32>) {
        (self.language@, self.text@, self.path@)
    }
}

/// The grammar kind of the node at path `node.2` in the parse of `node.1` as `node.0`.
pub uninterp spec fn ts_kind(node: (Language, Seq<char>, Seq<u32>)) -> Seq<char>;

/// Whether the grammar names the node at path `node.2` in the parse of `node.1` as `node.0`.
pub uninterp spec fn ts_named(node: (Language, Seq<char>, Seq<u32>)) -> bool;

/// The first byte of the node at path `node.2` in the parse of `node.1` as `node.0`.
pub uninterp spec fn ts_start(node: (Language, Seq<char>, Seq<u32>)) -> usize;

/// One past the last byte of the node at path `node.2` in the parse of `node.1` as `node.0`.
pub uninterp spec fn ts_end(node: (Language, Seq<char>, Seq<u32>)) -> usize;

/// The number of children of the node at path `node.2` in the parse of `node.1` as `node.0`.
pub uninterp spec fn ts_child_count(node: (Language, Seq<char>, Seq<u32>)) -> u32;

/// Whether the node at path `node.2` in the parse of `node.1` as `node.0` has an `i`-th child.
pub uninterp spec fn ts_has_child(node: (Language, Seq<char>, Seq<u32>), i: u32) -> bool;

/// The field name of the `i`-th child of the node at path `node.2` in the parse of `node.1` as `node.0`.
pub uninterp spec fn ts_field(node: (Language, Seq<char>, Seq<u32>), i: u32) -> Option<Seq<char>>;

/// Whether tree-sitter accepts the grammar of `language` for parsing: its ABI
/// version is one the library reads and the grammar can be used to parse.
pub uninterp spec fn ts_accepts(language: Language) -> bool;

/// Whether parsing `text` with the grammar of `language` gives a tree.
pub uninterp spec fn ts_parses(language: Language, text: Seq<char>) -> bool;

/// A fresh parser without a grammar (`tree_sitter::Parser::new`).
#[verifier::external_body]
pub(crate) fn new_parser() -> (r: TsParser)
    ensures
        r.lang() is None,
{
    TsParser { parser: tree_sitter::Parser::new(), language: Ghost(None) }
}

/// Sets the grammar of a parser (`tree_sitter::Parser::set_language`). It
/// fails, leaving the parser as it was, when the grammar's ABI version is
/// incompatible with the library or the grammar cannot be used for parsing.
#[verifier::external_body]
pub(crate) fn set_grammar(parser: &mut TsParser, grammar: &TsGrammar) -> (r: Result<(), tree_sitter::LanguageError>)
    ensures
        r is Ok <==> ts_accepts(grammar.lang()),
        r is Ok ==> final(parser).lang() == Some(grammar.lang()),
        r is Err ==> final(parser).lang() == old(parser).lang(),
{
    let r = parser.parser.set_language(&grammar.handle);
    if r.is_ok() {
        parser.language = Ghost(Some(grammar.language@));
    }
    r
}

/// The message of a grammar error (its `Display`, via `ToString::to_string`).
#[verifier::external_body]
pub(crate) fn grammar_error_text(e: &tree_sitter::LanguageError) -> String {
    e.to_string()
}

/// Parses a text (`tree_sitter::Parser::parse` with no previous tree, no
/// timeout and no cancellation): `None` when the parser has no grammar;
/// otherwise a tree exactly when the grammar and the text give one (the
/// source also returns `None` on an external scanner's error, which depends
/// on them alone), and then the parse of `source` as the parser's language.
#[verifier::external_body]
pub(crate) fn parse_text(parser: &mut TsParser, source: &str) -> (r: Option<TsTree>)
    ensures
        final(parser).lang() == old(parser).lang(),
        old(parser).lang() is None ==> r is None,
        old(parser).lang() matches Some(l) ==> (r is Some <==> ts_parses(l, source@)),
        r matches Some(t) ==> old(parser).lang() == Some(t.lang()) && t.text() == source@,
{
    match parser.parser.parse(source, None) {
        Some(tree) => Some(TsTree { tree, language: Ghost(parser.language@.unwrap()), text: Ghost(source@) }),
        None => None,
    }
}

/// The root node of a tree (`tree_sitter::Tree::root_node`): the node at the empty path.
#[verifier::external_body]
fn root_of(tree: &TsTree) -> (r: TsNode<'_>)
    ensures
        r@ == (tree.lang(), tree.text(), Seq::<u32>::empty()),
{
    TsNode { node: tree.tree.root_node(), language: Ghost(tree.language@), text: Ghost(tree.text@), path: Ghost(Seq::empty()) }
}

/// The grammar kind of a node (`tree_sitter::Node::kind`).
#[verifier::external_body]
fn kind_of(node: &TsNode) -> (r: String)
    ensures
        r@ == ts_kind(node@),
{
    node.node.kind().to_owned()
}

/// Whether the grammar names a node (`tree_sitter::Node::is_named`).
#[verifier::external_body]
fn named_of(node: &TsNode) -> (r: bool)
    ensures
        r == ts_named(node@),
{
    node.node.is_named()
}

/// First byte of a node (`tree_sitter::Node::start_byte`).
#[verifier::external_body]
fn start_of(node: &TsNode) -> (r: usize)
    ensures
        r == ts_start(node@),
{
    node.node.start_byte()
}

/// One past the last byte of a node (`tree_sitter::Node::end_byte`).
#[verifier::external_body]
fn end_of(node: &TsNode) -> (r: usize)
    ensures
        r == ts_end(node@),
{
    node.node.end_byte()
}

/// Number of children of a node (`tree_sitter::Node::child_count`).
#[verifier::external_body]
fn child_count_of(node: &TsNode) -> (r: u32)
    ensures
        r == ts_child_count(node@),
{
    node.node.child_count()
}

/// The `i`-th child of a node (`tree_sitter::Node::child`): the node one
/// step further down the path, at position `i`.
#[verifier::external_body]
fn child_of<'t>(node: &TsNode<'t>, i: u32) -> (r: Option<TsNode<'t>>)
    ensures
        r is Some == ts_has_child(node@, i),
        r matches Some(c) ==> c@ == (node@.0, node@.1, node@.2.push(i)),
{
    match node.node.child(i) {
        Some(c) => Some(TsNode { node: c, language: Ghost(node.language@), text: Ghost(node.text@), path: Ghost(node.path@.push(i)) }),
        None => None,
    }
}

/// The field name of the `i`-th child of a node (`tree_sitter::Node::field_name_for_child`).
#[verifier::external_body]
fn field_of(node: &TsNode, i: u32) -> (r: Option<String>)
    ensures
        opt_text(r) == ts_field(node@, i),
{
    node.node.field_name_for_child(i).map(|f| f.to_owned())
}

/// The positions below `count` at which the node `node` has a child, in order.
pub open spec fn child_positions(node: (Language, Seq<char>, Seq<u32>), count: int) -> Seq<u32>
    decreases count,
{
    if count <= 0 {
        Seq::empty()
    } else {
        child_positions(node, count - 1) + if ts_has_child(node, (count - 1) as u32) { seq![(count - 1) as u32] } else { Seq::empty() }
    }
}

/// Node `i` of `t` is the parse's node at `node`: same kind, naming and span.
pub open spec fn mirrors(t: SyntaxTree, i: int, node: (Language, Seq<char>, Seq<u32>)) -> bool {
    &&& t.node(i).kind == ts_kind(node)
    &&& t.node(i).named == ts_named(node)
    &&& t.node(i).start == ts_start(node)
    &&& t.node(i).end == ts_end(node)
}

/// The children of node `i` of `t` are the parse's children of the node at
/// `paths[i]` at the positions below `count`, in order, under their field names.
pub open spec fn children_read(t: SyntaxTree, language: Language, text: Seq<char>, paths: Seq<Seq<u32>>, i: int, count: int) -> bool {
    let ks = child_positions((language, text, paths[i]), count);
    &&& t.node(i).children.len() == ks.len()
    &&& forall|j: int| 0 <= j < ks.len() ==> {
        &&& paths[#[trigger] t.node(i).children[j] as int] == paths[i].push(ks[j])
        &&& t.node(i).fields[j] == ts_field((language, text, paths[i]), ks[j])
    }
}

/// `t` is read off the parse of `text` as `language`, its nodes lying at
/// `paths`: the root first, each node the parse's node at its path, and
/// each node's children all the parse's children of it, in order, under
/// their field names.
pub open spec fn read_off(t: SyntaxTree, language: Language, text: Seq<char>, paths: Seq<Seq<u32>>) -> bool {
    &&& paths.len() == t.size()
    &&& t.size() > 0
    &&& paths[0] == Seq::<u32>::empty()
    &&& forall|i: int| 0 <= i < t.size() ==> mirrors(t, i, (language, text, #[trigger] paths[i]))
    &&& forall|i: int| 0 <= i < t.size() ==>
        #[trigger] children_read(t, language, text, paths, i, ts_child_count((language, text, paths[i])) as int)
}

/// Reading the children of node `x` stays true when the tree and the paths
/// grow without touching node `x` or the paths of the nodes before.
proof fn lemma_children_read_kept(t0: SyntaxTree, t: SyntaxTree, language: Language, text: Seq<char>,
    p0: Seq<Seq<u32>>, paths: Seq<Seq<u32>>, x: int, count: int)
    requires
        t0.wf(),
        0 <= x < t0.size(),
        p0.len() == t0.size(),
        paths.len() >= p0.len(),
        forall|y: int| 0 <= y < p0.len() ==> #[trigger] paths[y] == p0[y],
        t.node(x) == t0.node(x),
        children_read(t0, language, text, p0, x, count),
    ensures
        children_read(t, language, text, paths, x, count),
{
    assert(t0.node_ok(x));
    assert(paths[x] == p0[x]);
    let ks = child_positions((language, text, paths[x]), count);
    assert forall|j: int| 0 <= j < ks.len() implies {
        &&& paths[#[trigger] t.node(x).children[j] as int] == paths[x].push(ks[j])
        &&& t.node(x).fields[j] == ts_field((language, text, paths[x]), ks[j])
    } by {
        let c = t0.node(x).children[j];
        assert(c < t0.size());
        assert(paths[c as int] == p0[c as int]);
    }
}

/// `p` leads from the root to a node of the parse of `text` as `language`.
pub open spec fn in_parse(language: Language, text: Seq<char>, p: Seq<u32>) -> bool
    decreases p.len(),
{
    p.len() == 0 || (in_parse(language, text, p.drop_last()) && ts_has_child((language, text, p.drop_last()), p.last()))
}

/// No path of `paths` leads one step below `q`.
pub open spec fn childless(paths: Seq<Seq<u32>>, q: Seq<u32>) -> bool {
    forall|y: int| 0 <= y < paths.len() && paths[y].len() > 0 ==> #[trigger] paths[y].drop_last() != q
}

/// Reading the parse of `text` as `language` against `source` fails: a node
/// of the parse has a span that is not a span of `source` on character
/// boundaries, or the parse has more nodes than an arena can index.
pub open spec fn read_fails(language: Language, text: Seq<char>, source: Seq<char>) -> bool {
    ||| exists|p: Seq<u32>| #[trigger] in_parse(language, text, p)
        && !good_span(source, ts_start((language, text, p)) as int, ts_end((language, text, p)) as int)
    ||| exists|ps: Seq<Seq<u32>>| ps.len() + 1 >= usize::MAX && ps.no_duplicates()
        && forall|k: int| 0 <= k < ps.len() ==> in_parse(language, text, #[trigger] ps[k])
}

/// Node `i` waits on `stack` to have its children read.
pub open spec fn pending<'t>(stack: Seq<(TsNode<'t>, usize)>, i: int) -> bool {
    exists|k: int| 0 <= k < stack.len() && #[trigger] stack[k].1 as int == i
}

/// Reads a tree-sitter parse tree of `source` into a [`SyntaxTree`]: every
/// node with its kind, whether it is named, its byte span, its parent and its
/// children with their field names. `None` when a span the tree reports is not
/// a span of `source` on character boundaries (the tree was not parsed from
/// this text), or when the tree has more nodes than an arena can index.
pub fn syntax_tree(tree: &TsTree, source: &str) -> (r: Option<SyntaxTree>)
    ensures
        r matches Some(t) ==> t.wf() && t.source_view() == source@
            && exists|paths: Seq<Seq<u32>>| read_off(t, tree.lang(), tree.text(), paths),
        r is None ==> read_fails(tree.lang(), tree.text(), source@),
{
    let ghost lang = tree.lang();
    let ghost text = tree.text();
    let root = root_of(tree);
    let mut t = SyntaxTree::new(source.to_owned());
    let root_id = match t.push(None, None, kind_of(&root), named_of(&root), start_of(&root), end_of(&root)) {
        Some(i) => i,
        None => {
            assert(in_parse(lang, text, Seq::<u32>::empty()));
            return None;
        },
    };
    let ghost mut paths: Seq<Seq<u32>> = seq![Seq::<u32>::empty()];
    let mut stack: Vec<(TsNode, usize)> = Vec::new();
    stack.push((root, root_id));
    proof {
        assert(stack@[0].1 == 0);
        assert(pending(stack@, 0));
    }
    while stack.len() > 0
        invariant
            lang == tree.lang(),
            text == tree.text(),
            t.wf(),
            t.source_view() == source@,
            t.size() > 0,
            paths.len() == t.size(),
            paths[0] == Seq::<u32>::empty(),
            forall|i: int| 0 <= i < t.size() ==> mirrors(t, i, (lang, text, #[trigger] paths[i])),
            forall|i: int| 0 <= i < t.size() ==> in_parse(lang, text, #[trigger] paths[i]),
            paths.no_duplicates(),
            forall|y: int| 0 <= y < t.size() && (#[trigger] paths[y]).len() > 0 ==>
                exists|x: int| 0 <= x < t.size() && paths[x] == paths[y].drop_last(),
            forall|x: int| 0 <= x < t.size() && #[trigger] pending(stack@, x) ==> childless(paths, paths[x]),
            forall|k: int| 0 <= k < stack@.len() ==> (#[trigger] stack@[k]).1 < t.size()
                && stack@[k].0@ == (lang, text, paths[stack@[k].1 as int]),
            forall|k1: int, k2: int| 0 <= k1 < k2 < stack@.len() ==> (#[trigger] stack@[k1]).1 != (#[trigger] stack@[k2]).1,
            forall|i: int| 0 <= i < t.size() && #[trigger] pending(stack@, i) ==> t.node(i).children.len() == 0,
            forall|i: int| 0 <= i < t.size() && !#[trigger] pending(stack@, i) ==>
                children_read(t, lang, text, paths, i, ts_child_count((lang, text, paths[i])) as int),
        decreases 2 * (usize::MAX - t.size()) + stack@.len(),
    {
        let ghost m0 = 2 * (usize::MAX - t.size()) + stack@.len();
        let ghost before = stack@;
        let (node, id) = match stack.pop() {
            Some(e) => e,
            None => return None,
        };
        proof {
            assert(before[before.len() - 1] == (node, id));
            assert(stack@ =~= before.drop_last());
            assert(pending(before, id as int));
            assert(!pending(stack@, id as int)) by {
                if pending(stack@, id as int) {
                    let k = choose|k: int| 0 <= k < stack@.len() && #[trigger] stack@[k].1 as int == id as int;
                    assert(before[k] == stack@[k]);
                }
            }
            assert forall|i: int| 0 <= i < t.size() && i != id && pending(before, i) implies #[trigger] pending(stack@, i) by {
                let k = choose|k: int| 0 <= k < before.len() && #[trigger] before[k].1 as int == i;
                assert(k < stack@.len());
                assert(stack@[k] == before[k]);
            }
            assert forall|i: int| 0 <= i < t.size() && #[trigger] pending(stack@, i) implies pending(before, i) by {
                let k = choose|k: int| 0 <= k < stack@.len() && #[trigger] stack@[k].1 as int == i;
                assert(before[k] == stack@[k]);
            }
            assert(t.node(id as int).children.len() == 0);
            assert(child_positions(node@, 0) =~= Seq::<u32>::empty());
            assert(childless(paths, paths[id as int]));
        }
        let count = child_count_of(&node);
        let ghost pid = id as int;
        let mut i: u32 = 0;
        while i < count
            invariant
                lang == tree.lang(),
                text == tree.text(),
                t.wf(),
                t.source_view() == source@,
                t.size() > 0,
                paths.len() == t.size(),
                paths[0] == Seq::<u32>::empty(),
                forall|x: int| 0 <= x < t.size() ==> mirrors(t, x, (lang, text, #[trigger] paths[x])),
                forall|x: int| 0 <= x < t.size() ==> in_parse(lang, text, #[trigger] paths[x]),
                paths.no_duplicates(),
                forall|y: int| 0 <= y < t.size() && (#[trigger] paths[y]).len() > 0 ==>
                    exists|x: int| 0 <= x < t.size() && paths[x] == paths[y].drop_last(),
                forall|x: int| 0 <= x < t.size() && #[trigger] pending(stack@, x) ==> childless(paths, paths[x]),
                forall|y: int| 0 <= y < t.size() && (#[trigger] paths[y]).len() > 0 && paths[y].drop_last() == paths[pid] ==>
                    paths[y].last() < i,
                id < t.size(),
                pid == id as int,
                node@ == (lang, text, paths[pid]),
                count == ts_child_count(node@),
                i <= count,
                !pending(stack@, pid),
                forall|k: int| 0 <= k < stack@.len() ==> (#[trigger] stack@[k]).1 < t.size()
                    && stack@[k].0@ == (lang, text, paths[stack@[k].1 as int]),
                forall|k1: int, k2: int| 0 <= k1 < k2 < stack@.len() ==> (#[trigger] stack@[k1]).1 != (#[trigger] stack@[k2]).1,
                forall|x: int| 0 <= x < t.size() && #[trigger] pending(stack@, x) ==> t.node(x).children.len() == 0,
                forall|x: int| 0 <= x < t.size() && x != pid && !#[trigger] pending(stack@, x) ==>
                    children_read(t, lang, text, paths, x, ts_child_count((lang, text, paths[x])) as int),
                children_read(t, lang, text, paths, pid, i as int),
                2 * (usize::MAX - t.size()) + stack@.len() < m0,
            decreases count - i,
        {
            let ghost t0 = t;
            let ghost s0 = stack@;
            let ghost p0 = paths;
            proof {
                assert(child_positions(node@, i + 1) == child_positions(node@, i as int)
                    + if ts_has_child(node@, i) { seq![i] } else { Seq::<u32>::empty() });
            }
            if let Some(c) = child_of(&node, i) {
                let field = field_of(&node, i);
                let ghost fv = opt_text(field);
                let ghost q = p0[pid].push(i);
                proof {
                    assert(q.drop_last() =~= p0[pid]);
                    assert(q.last() == i);
                    assert(in_parse(lang, text, q));
                }
                let cid = match t.push(Some(id), field, kind_of(&c), named_of(&c), start_of(&c), end_of(&c)) {
                    Some(x) => x,
                    None => {
                        proof {
                            if t0.size() + 1 >= usize::MAX {
                                assert(forall|k: int| 0 <= k < p0.len() ==> in_parse(lang, text, #[trigger] p0[k]));
                                assert(exists|ps: Seq<Seq<u32>>| ps.len() + 1 >= usize::MAX && ps.no_duplicates()
                                    && forall|k: int| 0 <= k < ps.len() ==> in_parse(lang, text, #[trigger] ps[k])) by {
                                    assert(p0.len() + 1 >= usize::MAX);
                                }
                            } else {
                                assert(c@ == (lang, text, q));
                                assert(!good_span(source@, ts_start((lang, text, q)) as int, ts_end((lang, text, q)) as int));
                                assert(exists|p: Seq<u32>| #[trigger] in_parse(lang, text, p)
                                    && !good_span(source@, ts_start((lang, text, p)) as int, ts_end((lang, text, p)) as int));
                            }
                        }
                        return None;
                    },
                };
                proof {
                    assert(!p0.contains(q)) by {
                        if p0.contains(q) {
                            let y = choose|y: int| 0 <= y < p0.len() && p0[y] == q;
                            assert(p0[y].len() > 0);
                            assert(p0[y].drop_last() == p0[pid]);
                        }
                    }
                    paths = p0.push(q);
                    assert(paths.no_duplicates()) by {
                        assert forall|a: int, b: int| 0 <= a < paths.len() && 0 <= b < paths.len() && a != b implies paths[a] != paths[b] by {
                            if a < p0.len() && b < p0.len() {
                                assert(paths[a] == p0[a] && paths[b] == p0[b]);
                            } else if a < p0.len() {
                                assert(paths[a] == p0[a]);
                                assert(p0.contains(p0[a]));
                            } else {
                                assert(paths[b] == p0[b]);
                                assert(p0.contains(p0[b]));
                            }
                        }
                    }
                    assert forall|x: int| 0 <= x < paths.len() implies in_parse(lang, text, #[trigger] paths[x]) by {
                        if x < p0.len() {
                            assert(paths[x] == p0[x]);
                        }
                    }
                    assert forall|y: int| 0 <= y < paths.len() && (#[trigger] paths[y]).len() > 0 implies
                        exists|x: int| 0 <= x < paths.len() && paths[x] == paths[y].drop_last() by {
                        if y < p0.len() {
                            assert(paths[y] == p0[y]);
                            let x = choose|x: int| 0 <= x < p0.len() && p0[x] == p0[y].drop_last();
                            assert(paths[x] == p0[x]);
                        } else {
                            assert(paths[pid] == q.drop_last());
                        }
                    }
                    assert(childless(paths, q)) by {
                        assert forall|y: int| 0 <= y < paths.len() && paths[y].len() > 0 implies #[trigger] paths[y].drop_last() != q by {
                            if y < p0.len() {
                                assert(paths[y] == p0[y]);
                                if p0[y].drop_last() == q {
                                    let x = choose|x: int| 0 <= x < p0.len() && p0[x] == p0[y].drop_last();
                                    assert(p0.contains(p0[x]));
                                }
                            } else {
                                assert(paths[y].drop_last() =~= p0[pid]);
                                assert(p0[pid].len() < q.len());
                            }
                        }
                    }
                    assert forall|x: int| 0 <= x < p0.len() && pending(s0, x) implies childless(paths, paths[x]) by {
                        assert(paths[x] == p0[x]);
                        assert(childless(p0, p0[x]));
                        assert(x != pid);
                        assert forall|y: int| 0 <= y < paths.len() && paths[y].len() > 0 implies #[trigger] paths[y].drop_last() != paths[x] by {
                            if y < p0.len() {
                                assert(paths[y] == p0[y]);
                            } else {
                                assert(paths[y].drop_last() =~= p0[pid]);
                                assert(p0[pid] != p0[x]);
                            }
                        }
                    }
                    assert forall|y: int| 0 <= y < paths.len() && (#[trigger] paths[y]).len() > 0 && paths[y].drop_last() == paths[pid] implies
                        paths[y].last() < i + 1 by {
                        if y < p0.len() {
                            assert(paths[y] == p0[y]);
                        }
                    }
                    assert(cid as int == t0.size());
                    assert(paths[pid] == p0[pid]);
                    assert(fv == ts_field(node@, i));
                    assert(t.node(pid).children == t0.node(pid).children.push(cid));
                    assert(t.node(pid).fields == t0.node(pid).fields.push(fv));
                    assert(t0.node(pid).children.len() == child_positions(node@, i as int).len());
                }
                stack.push((c, cid));
                proof {
                    assert forall|x: int| 0 <= x < paths.len() && #[trigger] pending(stack@, x) implies childless(paths, paths[x]) by {
                        if x == cid as int {
                            assert(paths[x] == q);
                        } else {
                            let k = choose|k: int| 0 <= k < stack@.len() && #[trigger] stack@[k].1 as int == x;
                            if k < s0.len() {
                                assert(stack@[k] == s0[k]);
                                assert(pending(s0, x));
                            } else {
                                assert(stack@[k].1 == cid);
                            }
                        }
                    }
                    let ks = child_positions(node@, i + 1);
                    assert(ks == child_positions(node@, i as int).push(i));
                    assert forall|x: int| 0 <= x < t.size() implies mirrors(t, x, (lang, text, #[trigger] paths[x])) by {
                        if x < t0.size() {
                            assert(paths[x] == p0[x]);
                            assert(t.node(x).kind == t0.node(x).kind);
                        }
                    }
                    assert forall|k: int| 0 <= k < stack@.len() implies (#[trigger] stack@[k]).1 < t.size()
                        && stack@[k].0@ == (lang, text, paths[stack@[k].1 as int]) by {
                        if k < s0.len() {
                            assert(stack@[k] == s0[k]);
                        }
                    }
                    assert forall|k1: int, k2: int| 0 <= k1 < k2 < stack@.len() implies (#[trigger] stack@[k1]).1 != (#[trigger] stack@[k2]).1 by {
                        assert(stack@[k1] == s0[k1]);
                        if k2 < s0.len() {
                            assert(stack@[k2] == s0[k2]);
                        }
                    }
                    assert(!pending(stack@, pid)) by {
                        if pending(stack@, pid) {
                            let k = choose|k: int| 0 <= k < stack@.len() && #[trigger] stack@[k].1 as int == pid;
                            if k < s0.len() {
                                assert(stack@[k] == s0[k]);
                            }
                        }
                    }
                    assert forall|x: int| 0 <= x < t.size() && #[trigger] pending(stack@, x) implies t.node(x).children.len() == 0 by {
                        if x < t0.size() {
                            let k = choose|k: int| 0 <= k < stack@.len() && #[trigger] stack@[k].1 as int == x;
                            if k < s0.len() {
                                assert(stack@[k] == s0[k]);
                                assert(pending(s0, x));
                            }
                            assert(x != pid);
                        }
                    }
                    assert forall|x: int| 0 <= x < t.size() && x != pid && !#[trigger] pending(stack@, x) implies
                        children_read(t, lang, text, paths, x, ts_child_count((lang, text, paths[x])) as int) by {
                        assert(x < t0.size()) by {
                            if x == t0.size() {
                                assert(stack@[stack@.len() - 1].1 as int == x);
                            }
                        }
                        assert(!pending(s0, x)) by {
                            if pending(s0, x) {
                                let k = choose|k: int| 0 <= k < s0.len() && #[trigger] s0[k].1 as int == x;
                                assert(stack@[k] == s0[k]);
                            }
                        }
                        assert(children_read(t0, lang, text, p0, x, ts_child_count((lang, text, p0[x])) as int));
                        assert(Some(x as usize) != Some(id));
                        assert(t.node(x) == t0.node(x));
                        assert(paths[x] == p0[x]);
                        lemma_children_read_kept(t0, t, lang, text, p0, paths, x, ts_child_count((lang, text, p0[x])) as int);
                    }
                    let kp = child_positions(node@, i + 1);
                    assert(t.node(pid).children == t0.node(pid).children.push(cid));
                    assert forall|j: int| 0 <= j < kp.len() implies {
                        &&& paths[#[trigger] t.node(pid).children[j] as int] == paths[pid].push(kp[j])
                        &&& t.node(pid).fields[j] == ts_field((lang, text, paths[pid]), kp[j])
                    } by {
                        assert(t.node_ok(pid));
                        if j < kp.len() - 1 {
                            let c = t0.node(pid).children[j];
                            assert(t0.node_ok(pid));
                            assert(c < t0.size());
                            assert(t.node(pid).children[j] == c);
                            assert(t.node(pid).fields[j] == t0.node(pid).fields[j]);
                            assert(paths[c as int] == p0[c as int]);
                            assert(kp[j] == child_positions(node@, i as int)[j]);
                            assert(p0[c as int] == p0[pid].push(child_positions((lang, text, p0[pid]), i as int)[j]));
                        } else {
                            assert(t.node(pid).children[j] == cid);
                            assert(paths[cid as int] == p0[pid].push(i));
                        }
                    }
                }
            } else {
                proof {
                    assert(child_positions(node@, i + 1) =~= child_positions(node@, i as int));
                }
            }
            i = i + 1;
        }
        proof {
            assert forall|x: int| 0 <= x < t.size() && !#[trigger] pending(stack@, x) implies
                children_read(t, lang, text, paths, x, ts_child_count((lang, text, paths[x])) as int) by {
                if x == pid {
                    assert(paths[pid] == node@.2);
                }
            }
        }
    }
    proof {
        assert forall|x: int| 0 <= x < t.size() implies
            #[trigger] children_read(t, lang, text, paths, x, ts_child_count((lang, text, paths[x])) as int) by {
            assert(!pending(stack@, x));
        }
        assert(read_off(t, lang, text, paths));
    }
    Some(t)
}

} // verus!
