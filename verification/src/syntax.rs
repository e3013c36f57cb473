//! A parse tree held as plain values: an arena of nodes, each with its grammar
//! kind, whether the grammar names it, its byte span in the source, its parent,
//! and its children with the field name under which each child stands.
//!
//! Node 0 is the root. A child always has a larger index than its parent, so a
//! walk down the tree terminates, and every span lies on character boundaries
//! of the source, so the text of every node can be cut out of it.

use vstd::prelude::*;
use vstd::utf8::*;
use vstd::string::*;

verus! {

broadcast use {encode_utf8_decode_utf8, encode_utf8_valid_utf8};

/// What a node holds, as mathematical values.
pub struct NodeView {
    pub kind: Seq<char>,
    pub named: bool,
    pub start: usize,
    pub end: usize,
    pub parent: Option<usize>,
    pub children: Seq<usize>,
    pub fields: Seq<Option<Seq<char>>>,
}

/// One node of a [`SyntaxTree`].
#[derive(Clone, Debug)]
pub struct SyntaxNode {
    kind: String,
    named: bool,
    start: usize,
    end: usize,
    parent: Option<usize>,
    children: Vec<usize>,
    fields: Vec<Option<String>>,
}

/// An optional string, as text.
pub open spec fn opt_text(o: Option<String>) -> Option<Seq<char>> {
    match o {
        Some(s) => Some(s@),
        None => None,
    }
}

/// The field names of a child list, as text.
pub open spec fn field_views(fields: Seq<Option<String>>) -> Seq<Option<Seq<char>>> {
    Seq::new(fields.len(), |j: int| opt_text(fields[j]))
}

impl View for SyntaxNode {
    type V = NodeView;

    closed spec fn view(&self) -> NodeView {
        NodeView {
            kind: self.kind@,
            named: self.named,
            start: self.start,
            end: self.end,
            parent: self.parent,
            children: self.children@,
            fields: field_views(self.fields@),
        }
    }
}

/// A parse tree over its source text.
#[derive(Clone, Debug)]
pub struct SyntaxTree {
    source: String,
    nodes: Vec<SyntaxNode>,
}

/// The UTF-8 bytes of a text.
pub open spec fn bytes_of(s: Seq<char>) -> Seq<u8> {
    encode_utf8(s)
}

/// `[start, end)` is a span of `s` that begins and ends on character boundaries.
pub open spec fn good_span(s: Seq<char>, start: int, end: int) -> bool {
    &&& 0 <= start <= end <= bytes_of(s).len()
    &&& is_char_boundary(bytes_of(s), start)
    &&& is_char_boundary(bytes_of(s), end)
}

/// The text of `s` between two byte offsets.
pub open spec fn span_text(s: Seq<char>, start: int, end: int) -> Seq<char> {
    decode_utf8(bytes_of(s).subrange(start, end))
}

/// Index of the first entry of `fields` equal to `Some(f)`, if any.
pub open spec fn is_first_field(fields: Seq<Option<Seq<char>>>, f: Seq<char>, j: int) -> bool {
    &&& 0 <= j < fields.len()
    &&& fields[j] == Some(f)
    &&& forall|k: int| 0 <= k < j ==> fields[k] != Some(f)
}

impl SyntaxTree {
    /// The source text.
    pub closed spec fn source_view(&self) -> Seq<char> {
        self.source@
    }

    /// The nodes, by index.
    pub closed spec fn nodes_view(&self) -> Seq<NodeView> {
        self.nodes@.map_values(|n: SyntaxNode| n@)
    }

    /// Number of nodes.
    pub open spec fn size(&self) -> nat {
        self.nodes_view().len()
    }

    /// `i` is the index of a node.
    pub open spec fn has_node(&self, i: int) -> bool {
        0 <= i < self.size()
    }

    /// The node at index `i`.
    pub open spec fn node(&self, i: int) -> NodeView {
        self.nodes_view()[i]
    }

    /// The text of node `i`.
    pub open spec fn text_of(&self, i: int) -> Seq<char> {
        span_text(self.source_view(), self.node(i).start as int, self.node(i).end as int)
    }

    /// The child of node `i` under field `f` (the first one, if several).
    pub open spec fn field_child(&self, i: int, f: Seq<char>) -> Option<usize> {
        if exists|j: int| is_first_field(self.node(i).fields, f, j) {
            Some(self.node(i).children[choose|j: int| is_first_field(self.node(i).fields, f, j)])
        } else {
            None
        }
    }

    /// The children of node `i` that the grammar names, in order.
    pub open spec fn named_children_of(&self, i: int) -> Seq<usize> {
        self.named_among(self.node(i).children)
    }

    /// The entries of `cs` that name named nodes, in order.
    pub open spec fn named_among(&self, cs: Seq<usize>) -> Seq<usize>
        decreases cs.len(),
    {
        if cs.len() == 0 {
            Seq::empty()
        } else {
            let rest = self.named_among(cs.drop_last());
            if self.node(cs.last() as int).named {
                rest.push(cs.last())
            } else {
                rest
            }
        }
    }

    /// Well-formed node `i`: children after it and pointing back to it, a
    /// parent before it (none only for the root), a span on character boundaries.
    pub open spec fn node_ok(&self, i: int) -> bool {
        let v = self.node(i);
        &&& v.children.len() == v.fields.len()
        &&& forall|j: int| 0 <= j < v.children.len() ==>
            i < #[trigger] v.children[j] < self.size() && self.node(v.children[j] as int).parent == Some(i as usize)
        &&& (i == 0) == (v.parent is None)
        &&& v.parent matches Some(p) ==> p < i
        &&& good_span(self.source_view(), v.start as int, v.end as int)
    }

    /// Every node is well formed and the arena can still grow.
    pub open spec fn wf(&self) -> bool {
        &&& self.size() < usize::MAX
        &&& forall|i: int| 0 <= i < self.size() ==> #[trigger] self.node_ok(i)
    }

    /// An empty tree over `source`.
    pub fn new(source: String) -> (r: SyntaxTree)
        ensures
            r.wf(),
            r.size() == 0,
            r.source_view() == source@,
    {
        SyntaxTree { source, nodes: Vec::new() }
    }

    /// Adds a node under `parent` (under field `field`), spanning bytes
    /// `[start, end)` of the source, and returns its index. The first node is the
    /// root and has no parent; every later node has one. Refused (`None`, tree
    /// unchanged) when the parent is missing or unknown, or the span is not a
    /// span of the source on character boundaries.
    pub fn push(&mut self, parent: Option<usize>, field: Option<String>, kind: String, named: bool, start: usize, end: usize) -> (r: Option<usize>)
        requires
            old(self).wf(),
        ensures
            final(self).wf(),
            final(self).source_view() == old(self).source_view(),
            r is Some == (
                old(self).size() + 1 < usize::MAX
                && (parent is None) == (old(self).size() == 0)
                && (parent matches Some(p) ==> p < old(self).size())
                && good_span(old(self).source_view(), start as int, end as int)),
            r is None ==> final(self).nodes_view() == old(self).nodes_view(),
            r matches Some(k) ==> {
                &&& k == old(self).size()
                &&& final(self).size() == old(self).size() + 1
                &&& final(self).node(k as int) == (NodeView {
                    kind: kind@, named, start, end, parent,
                    children: Seq::empty(), fields: Seq::empty(),
                })
                &&& forall|i: int| 0 <= i < old(self).size() && Some(i as usize) != parent ==>
                    #[trigger] final(self).node(i) == old(self).node(i)
                &&& parent matches Some(p) ==> final(self).node(p as int) == (NodeView {
                    children: old(self).node(p as int).children.push(k),
                    fields: old(self).node(p as int).fields.push(opt_text(field)),
                    ..old(self).node(p as int)
                })
            },
    {
        let n = self.nodes.len();
        if n + 1 >= usize::MAX {
            return None;
        }
        match parent {
            None => {
                if n != 0 {
                    return None;
                }
            }
            Some(p) => {
                if p >= n {
                    return None;
                }
            }
        }
        let src = self.source.as_str();
        let len = src.as_bytes().len();
        let ok = start <= end && end <= len && src.is_char_boundary(start) && src.is_char_boundary(end);
        proof {
            assert(src@ == old(self).source_view());
            assert(src.spec_bytes() == bytes_of(old(self).source_view()));
            assert(len == bytes_of(old(self).source_view()).len());
            assert(ok == good_span(old(self).source_view(), start as int, end as int));
        }
        if !ok {
            return None;
        }
        let ghost old_nodes = self.nodes_view();
        let ghost fv: Option<Seq<char>> = opt_text(field);
        self.nodes.push(SyntaxNode {
            kind, named, start, end, parent, children: Vec::new(), fields: Vec::new(),
        });
        proof {
            assert(field_views(Seq::<Option<String>>::empty()) =~= Seq::empty());
            assert(self.nodes_view() =~= old_nodes.push(self.nodes@[n as int]@));
        }
        match parent {
            None => {}
            Some(p) => {
                let mut pn = SyntaxNode {
                    kind: String::new(), named: false, start: 0, end: 0, parent: None,
                    children: Vec::new(), fields: Vec::new(),
                };
                self.nodes.set_and_swap(p, &mut pn);
                let ghost before = pn@;
                let ghost before_fields = pn.fields@;
                pn.children.push(n);
                pn.fields.push(field);
                proof {
                    assert(field_views(pn.fields@) =~= field_views(before_fields).push(fv));
                }
                self.nodes.set_and_swap(p, &mut pn);
            }
        }
        proof {
            assert forall|i: int| 0 <= i < self.size() implies #[trigger] self.node_ok(i) by {
                assert(old(self).node_ok(i) || i == n);
                if i < n {
                    assert(old(self).node_ok(i));
                    let v = self.node(i);
                    let ov = old(self).node(i);
                    assert forall|j: int| 0 <= j < v.children.len() implies
                        i < #[trigger] v.children[j] < self.size() && self.node(v.children[j] as int).parent == Some(i as usize) by {
                        if j < ov.children.len() {
                            assert(v.children[j] == ov.children[j]);
                            let c = ov.children[j] as int;
                            assert(old(self).node_ok(c));
                        }
                    }
                }
            }
        }
        Some(n)
    }

    /// Number of nodes.
    pub fn len(&self) -> (r: usize)
        ensures
            r == self.size(),
    {
        self.nodes.len()
    }

    /// The source text.
    pub fn source(&self) -> (r: &str)
        ensures
            r@ == self.source_view(),
    {
        self.source.as_str()
    }

    /// The grammar kind of node `i`.
    pub fn kind(&self, i: usize) -> (r: &str)
        requires
            self.has_node(i as int),
        ensures
            r@ == self.node(i as int).kind,
    {
        self.nodes[i].kind.as_str()
    }

    /// Whether the grammar names node `i` (rather than it being a bare token).
    pub fn is_named(&self, i: usize) -> (r: bool)
        requires
            self.has_node(i as int),
        ensures
            r == self.node(i as int).named,
    {
        self.nodes[i].named
    }

    /// First byte of node `i`.
    pub fn start_byte(&self, i: usize) -> (r: usize)
        requires
            self.has_node(i as int),
        ensures
            r == self.node(i as int).start,
    {
        self.nodes[i].start
    }

    /// One past the last byte of node `i`.
    pub fn end_byte(&self, i: usize) -> (r: usize)
        requires
            self.has_node(i as int),
        ensures
            r == self.node(i as int).end,
    {
        self.nodes[i].end
    }

    /// The parent of node `i`.
    pub fn parent(&self, i: usize) -> (r: Option<usize>)
        requires
            self.has_node(i as int),
        ensures
            r == self.node(i as int).parent,
    {
        self.nodes[i].parent
    }

    /// The children of node `i`, in order.
    pub fn children(&self, i: usize) -> (r: &Vec<usize>)
        requires
            self.has_node(i as int),
        ensures
            r@ == self.node(i as int).children,
    {
        &self.nodes[i].children
    }

    /// The field name of the `j`-th child of node `i`.
    pub fn field_name_for_child(&self, i: usize, j: usize) -> (r: Option<&str>)
        requires
            self.wf(),
            self.has_node(i as int),
        ensures
            j < self.node(i as int).fields.len() ==> match r {
                Some(s) => self.node(i as int).fields[j as int] == Some(s@),
                None => self.node(i as int).fields[j as int] is None,
            },
            j >= self.node(i as int).fields.len() ==> r is None,
    {
        proof { assert(self.node_ok(i as int)); }
        let fs = &self.nodes[i].fields;
        if j < fs.len() {
            match &fs[j] {
                Some(s) => Some(s.as_str()),
                None => None,
            }
        } else {
            None
        }
    }

    /// The text of node `i`.
    pub fn text(&self, i: usize) -> (r: &str)
        requires
            self.wf(),
            self.has_node(i as int),
        ensures
            r@ == self.text_of(i as int),
    {
        proof { assert(self.node_ok(i as int)); }
        let start = self.nodes[i].start;
        let end = self.nodes[i].end;
        let src = self.source.as_str();
        let ghost bytes = src.spec_bytes();
        let (pre, _) = src.split_at(end);
        proof { lemma_boundary_in_prefix(bytes, end as int, start as int); }
        let (_, mid) = pre.split_at(start);
        proof {
            assert(mid.spec_bytes() =~= bytes.subrange(start as int, end as int));
            assert(decode_utf8(encode_utf8(mid@)) == mid@);
        }
        mid
    }

    /// The first child of node `i` under field `f`.
    pub fn child_by_field_name(&self, i: usize, f: &str) -> (r: Option<usize>)
        requires
            self.wf(),
            self.has_node(i as int),
        ensures
            r == self.field_child(i as int, f@),
            r matches Some(c) ==> self.has_node(c as int) && i < c,
    {
        proof { assert(self.node_ok(i as int)); }
        let node = &self.nodes[i];
        let ghost fs = self.node(i as int).fields;
        let mut j: usize = 0;
        while j < node.fields.len()
            invariant
                self.wf(),
                self.node_ok(i as int),
                fs == self.node(i as int).fields,
                fs == field_views(node.fields@),
                node.children@ == self.node(i as int).children,
                node.fields@.len() == node.children@.len(),
                j <= node.fields@.len(),
                forall|k: int| 0 <= k < j ==> fs[k] != Some(f@),
            decreases node.fields@.len() - j,
        {
            let hit = match &node.fields[j] {
                Some(s) => crate::text::str_eq(s.as_str(), f),
                None => false,
            };
            if hit {
                proof {
                    assert(is_first_field(fs, f@, j as int));
                    let w = choose|w: int| is_first_field(fs, f@, w);
                    assert(w == j as int) by {
                        if w < j { assert(fs[w] != Some(f@)); }
                        if w > j { assert(fs[j as int] != Some(f@)); }
                    }
                    assert(self.node_ok(i as int));
                }
                return Some(node.children[j]);
            }
            j = j + 1;
        }
        proof {
            assert(!exists|w: int| is_first_field(fs, f@, w));
        }
        None
    }

    /// The named children of node `i`, in order.
    pub fn named_children(&self, i: usize) -> (r: Vec<usize>)
        requires
            self.wf(),
            self.has_node(i as int),
        ensures
            r@ == self.named_children_of(i as int),
            forall|k: int| 0 <= k < r@.len() ==> i < #[trigger] r@[k] && self.has_node(r@[k] as int),
    {
        proof { assert(self.node_ok(i as int)); }
        let cs = &self.nodes[i].children;
        let mut r: Vec<usize> = Vec::new();
        let mut j: usize = 0;
        while j < cs.len()
            invariant
                self.wf(),
                self.node_ok(i as int),
                cs@ == self.node(i as int).children,
                j <= cs@.len(),
                r@ == self.named_among(cs@.take(j as int)),
                forall|k: int| 0 <= k < r@.len() ==> i < #[trigger] r@[k] && self.has_node(r@[k] as int),
            decreases cs@.len() - j,
        {
            let c = cs[j];
            proof {
                assert(cs@.take(j + 1).drop_last() =~= cs@.take(j as int));
                assert(cs@.take(j + 1).last() == c);
            }
            if self.nodes[c].named {
                r.push(c);
            }
            j = j + 1;
        }
        proof { assert(cs@.take(cs@.len() as int) =~= cs@); }
        r
    }
}

/// A character boundary inside a prefix that ends on a boundary is a boundary
/// of the prefix.
proof fn lemma_boundary_in_prefix(bytes: Seq<u8>, end: int, start: int)
    requires
        valid_utf8(bytes),
        0 <= start <= end <= bytes.len(),
        is_char_boundary(bytes, start),
        is_char_boundary(bytes, end),
    ensures
        is_char_boundary(bytes.subrange(0, end), start),
{
    let pre = bytes.subrange(0, end);
    valid_utf8_split(bytes, end);
    if start == end {
        is_char_boundary_start_end_of_seq(pre);
    } else if start == 0 {
        is_char_boundary_start_end_of_seq(pre);
    } else {
        is_char_boundary_iff_not_is_continuation_byte(bytes, start);
        is_char_boundary_iff_not_is_continuation_byte(pre, start);
    }
}

} // verus!
