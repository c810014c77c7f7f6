//! Rust source parsed by tree-sitter, held as a tree of plain values that the rules read.

use crate::text::chars_eq;
use vstd::pervasive::VecAdditionalExecFns;
use vstd::prelude::*;

verus! {

#[verifier::external_type_specification]
#[verifier::external_body]
pub struct ExParser(tree_sitter::Parser);

#[verifier::external_type_specification]
#[verifier::external_body]
pub struct ExTree(tree_sitter::Tree);

#[verifier::external_type_specification]
#[verifier::external_body]
pub struct ExNode<'tree>(tree_sitter::Node<'tree>);

/// `Parser::new`: a parser with no language yet. The parser is opaque here; nothing is
/// stated of it.
#[verifier::external_body]
fn new_parser() -> (r: tree_sitter::Parser) {
    tree_sitter::Parser::new()
}

/// `Parser::set_language` with the Rust grammar of `tree-sitter-rust`: whether the parser
/// accepted it. It does: `set_language` accepts grammars of ABI versions 13 to 15 that are
/// parseable, and `tree-sitter-rust`'s generated grammar has ABI version 15.
#[verifier::external_body]
fn set_rust_language(p: &mut tree_sitter::Parser) -> (r: bool)
    ensures
        r,
{
    p.set_language(&tree_sitter_rust::LANGUAGE.into()).is_ok()
}

/// A new `Parser`, given the Rust grammar with `Parser::set_language`, then `Parser::parse` of
/// the whole text with no earlier tree. There is a tree: the grammar is accepted (see
/// `set_rust_language`), and `parse` gives `None` only for a parser without a language (no
/// timeout or cancellation is set). Nothing is stated of the tree, which is opaque here.
#[verifier::external_body]
fn parse_with_rust_grammar(source: &[u8]) -> (r: Option<tree_sitter::Tree>)
    ensures
        r is Some,
{
    let mut p = tree_sitter::Parser::new();
    p.set_language(&tree_sitter_rust::LANGUAGE.into()).ok()?;
    p.parse(source, None)
}

/// `Tree::root_node`. The tree and its nodes are opaque here; nothing is stated of the node.
#[verifier::external_body]
fn tree_root<'t>(t: &'t tree_sitter::Tree) -> (r: tree_sitter::Node<'t>) {
    t.root_node()
}

/// `Node::kind`, as an owned string. The node is opaque here; nothing is stated of the kind.
#[verifier::external_body]
fn node_kind(n: &tree_sitter::Node) -> (r: String) {
    n.kind().to_string()
}

/// `Node::is_named`. The node is opaque here; nothing is stated of the answer.
#[verifier::external_body]
fn node_is_named(n: &tree_sitter::Node) -> (r: bool) {
    n.is_named()
}

/// `Node::child_count`. The node is opaque here; nothing is stated of the count.
#[verifier::external_body]
fn node_child_count(n: &tree_sitter::Node) -> (r: u32) {
    n.child_count()
}

/// `Node::child`: the child at an index, if there is one. The node is opaque here; nothing is
/// stated of the child, nor of when there is one.
#[verifier::external_body]
fn node_child<'t>(n: &tree_sitter::Node<'t>, i: u32) -> (r: Option<tree_sitter::Node<'t>>) {
    n.child(i)
}

/// `Node::field_name_for_child`, as an owned string. The node is opaque here; nothing is
/// stated of the name.
#[verifier::external_body]
fn node_field_name(n: &tree_sitter::Node, i: u32) -> (r: Option<String>) {
    n.field_name_for_child(i).map(|f| f.to_string())
}

/// `Node::range`: the node's start and end bytes, and its start and end rows and columns.
/// tree-sitter keeps offsets, rows and columns as `u32` and widens them, and computes the end
/// as the start plus the node's size (`ts_node_end_byte`, `ts_node_end_point`), so the start
/// comes at or before the end, by bytes and by (row, column). Which bytes and positions these
/// are is not stated: the node is opaque here.
#[verifier::external_body]
fn node_range(n: &tree_sitter::Node) -> (r: (usize, usize, usize, usize, usize, usize))
    ensures
        r.0 <= r.1,
        r.2 <= u32::MAX && r.3 <= u32::MAX && r.4 <= u32::MAX && r.5 <= u32::MAX,
        r.2 < r.4 || (r.2 == r.4 && r.3 <= r.5),
{
    let g = n.range();
    (g.start_byte, g.end_byte, g.start_point.row, g.start_point.column, g.end_point.row, g.end_point.column)
}

/// `Node::descendant_count`: the nodes of the subtree, the node itself included, so at least
/// one, as its documentation says. The node is opaque here; nothing more is stated of the
/// count.
#[verifier::external_body]
fn node_descendant_count(n: &tree_sitter::Node) -> (r: usize)
    ensures
        r >= 1,
{
    n.descendant_count()
}

/// One node of a syntax tree: its kind, the field it fills in its parent, where it lies, and
/// the indices of its parent and children in the tree.
#[derive(Debug, Clone)]
pub struct SyntaxNode {
    pub kind: String,
    pub named: bool,
    pub field: Option<String>,
    pub parent: Option<usize>,
    pub children: Vec<usize>,
    pub start_byte: usize,
    pub end_byte: usize,
    pub start_row: usize,
    pub start_column: usize,
    pub end_row: usize,
    pub end_column: usize,
}

/// A syntax tree whose nodes are numbered in preorder: the root is node 0, and a node comes
/// before its children, which come in order.
#[derive(Debug, Clone)]
pub struct SyntaxTree {
    pub nodes: Vec<SyntaxNode>,
}

impl SyntaxNode {
    /// The node starts at or before it ends, by bytes and by (row, column).
    pub open spec fn in_order(&self) -> bool {
        &&& self.start_byte <= self.end_byte
        &&& self.start_row < self.end_row || (self.start_row == self.end_row && self.start_column <= self.end_column)
    }
}

impl SyntaxTree {
    /// The tree is well formed: it has a root, every index points into it, parents and
    /// children agree, a node's children come after it in increasing order, and every row and
    /// column can be counted from 1.
    pub open spec fn wf(&self) -> bool {
        let ns = self.nodes@;
        &&& ns.len() > 0
        &&& ns[0].parent is None
        &&& forall|i: int| 0 < i < ns.len() ==> ((#[trigger] ns[i]).parent matches Some(p) && p < i
            && ns[p as int].children@.contains(i as usize))
        &&& forall|i: int, j: int| 0 <= i < ns.len() && 0 <= j < ns[i].children@.len() ==>
            i < #[trigger] ns[i].children@[j] < ns.len() && ns[ns[i].children@[j] as int].parent == Some(i as usize)
        &&& forall|i: int, j: int, k: int| 0 <= i < ns.len() && 0 <= j < k < ns[i].children@.len() ==>
            #[trigger] ns[i].children@[j] < #[trigger] ns[i].children@[k]
        &&& forall|i: int| 0 <= i < ns.len() ==> (#[trigger] ns[i]).start_row < usize::MAX && ns[i].start_column < usize::MAX
            && ns[i].end_row < usize::MAX && ns[i].end_column < usize::MAX
        &&& forall|i: int| 0 <= i < ns.len() ==> (#[trigger] ns[i]).in_order()
    }
}

/// Parses Rust source with tree-sitter's Rust grammar. There is always a tree, also for text
/// that is not valid Rust (tree-sitter marks such parts with `ERROR` nodes).
pub fn parse_source(source: &[u8]) -> (r: Option<tree_sitter::Tree>)
    ensures
        r is Some,
{
    parse_with_rust_grammar(source)
}

/// A parser for Rust source; tree-sitter accepts the Rust grammar, so there always is one.
pub fn make_parser() -> (r: Option<tree_sitter::Parser>)
    ensures
        r is Some,
{
    let mut parser = new_parser();
    if set_rust_language(&mut parser) { Some(parser) } else { None }
}

fn node_data(n: &tree_sitter::Node, parent: Option<usize>, field: Option<String>) -> (r: Option<SyntaxNode>)
    ensures
        r matches Some(d) ==> d.parent == parent && d.field == field && d.children@.len() == 0
            && d.start_row < usize::MAX && d.start_column < usize::MAX && d.end_row < usize::MAX
            && d.end_column < usize::MAX && d.in_order(),
        u32::MAX < usize::MAX ==> r is Some,
{
    let (sb, eb, sr, sc, er, ec) = node_range(n);
    if sr == usize::MAX || sc == usize::MAX || er == usize::MAX || ec == usize::MAX {
        return None;
    }
    Some(SyntaxNode {
        kind: node_kind(n),
        named: node_is_named(n),
        field,
        parent,
        children: Vec::new(),
        start_byte: sb,
        end_byte: eb,
        start_row: sr,
        start_column: sc,
        end_row: er,
        end_column: ec,
    })
}

/// The nodes with their children filled in from the parent links, in order.
spec fn children_of(parents: Seq<Option<usize>>, p: int, upto: int) -> Seq<usize>
    decreases upto,
{
    if upto <= 0 {
        Seq::empty()
    } else if parents[upto - 1] == Some(p as usize) {
        children_of(parents, p, upto - 1).push((upto - 1) as usize)
    } else {
        children_of(parents, p, upto - 1)
    }
}

proof fn lemma_children_of(parents: Seq<Option<usize>>, p: int, upto: int)
    requires
        0 <= upto <= parents.len(),
        parents.len() <= usize::MAX,
        0 <= p <= usize::MAX,
    ensures
        forall|j: int| 0 <= j < children_of(parents, p, upto).len() ==> {
            let c = #[trigger] children_of(parents, p, upto)[j];
            0 <= c < upto && parents[c as int] == Some(p as usize)
        },
        forall|j: int, k: int| 0 <= j < k < children_of(parents, p, upto).len() ==>
            #[trigger] children_of(parents, p, upto)[j] < #[trigger] children_of(parents, p, upto)[k],
        forall|c: int| 0 <= c < upto && parents[c] == Some(p as usize) ==> children_of(parents, p, upto).contains(c as usize),
    decreases upto,
{
    if upto > 0 {
        lemma_children_of(parents, p, upto - 1);
        let prev = children_of(parents, p, upto - 1);
        if parents[upto - 1] == Some(p as usize) {
            let cur = prev.push((upto - 1) as usize);
            assert forall|c: int| 0 <= c < upto && parents[c] == Some(p as usize) implies cur.contains(c as usize) by {
                if c < upto - 1 {
                    assert(prev.contains(c as usize));
                    let j = choose|j: int| 0 <= j < prev.len() && prev[j] == c as usize;
                    assert(cur[j] == c as usize);
                } else {
                    assert(cur[prev.len() as int] == c as usize);
                }
            }
        }
    }
}

/// The syntax tree of a parsed text, numbered in preorder; nothing when the parser reports a
/// row or column that cannot be counted from 1, which can happen only where `usize` is no wider
/// than `u32`.
pub fn syntax_tree(tree: &tree_sitter::Tree) -> (r: Option<SyntaxTree>)
    ensures
        r matches Some(t) ==> t.wf(),
        u32::MAX < usize::MAX ==> r is Some,
{
    let root = tree_root(tree);
    let budget = node_descendant_count(&root);
    let mut flat: Vec<SyntaxNode> = Vec::new();
    let mut stack: Vec<(tree_sitter::Node, Option<usize>, Option<String>)> = Vec::new();
    stack.push((root, None, None));
    while stack.len() > 0 && flat.len() < budget
        invariant
            forall|i: int| 0 <= i < flat@.len() ==> (#[trigger] flat@[i]).children@.len() == 0
                && flat@[i].start_row < usize::MAX && flat@[i].start_column < usize::MAX
                && flat@[i].end_row < usize::MAX && flat@[i].end_column < usize::MAX && flat@[i].in_order(),
            flat@.len() > 0 ==> flat@[0].parent is None,
            forall|i: int| 0 < i < flat@.len() ==> ((#[trigger] flat@[i]).parent matches Some(p) && p < i),
            forall|k: int| 0 <= k < stack@.len() ==> match (#[trigger] stack@[k]).1 {
                Some(p) => p < flat@.len(),
                None => flat@.len() == 0,
            },
            flat@.len() == 0 ==> stack@.len() == 1,
            budget >= 1,
        decreases budget - flat@.len(),
    {
        let (node, parent, field) = stack.pop().unwrap();
        let idx = flat.len();
        match node_data(&node, parent, field) {
            Some(d) => {
                flat.push(d);
            },
            None => {
                return None;
            },
        }
        let count = node_child_count(&node);
        let mut k: u32 = count;
        while k > 0
            invariant
                k <= count,
                idx < flat@.len(),
                forall|q: int| 0 <= q < stack@.len() ==> match (#[trigger] stack@[q]).1 {
                    Some(p) => p < flat@.len(),
                    None => flat@.len() == 0,
                },
            decreases k,
        {
            k = k - 1;
            match node_child(&node, k) {
                Some(c) => {
                    let f = node_field_name(&node, k);
                    stack.push((c, Some(idx), f));
                },
                None => {},
            }
        }
    }
    if flat.len() == 0 {
        return None;
    }
    let ghost parents = flat@.map_values(|d: SyntaxNode| d.parent);
    let n = flat.len();
    let mut lists: Vec<Vec<usize>> = Vec::new();
    for q in 0..n
        invariant
            lists@.len() == q,
            forall|k: int| 0 <= k < q ==> (#[trigger] lists@[k])@ == children_of(parents, k, 0),
    {
        lists.push(Vec::new());
    }
    for c in 0..n
        invariant
            n == flat@.len(),
            parents == flat@.map_values(|d: SyntaxNode| d.parent),
            lists@.len() == n,
            flat@[0].parent is None,
            forall|i: int| 0 < i < flat@.len() ==> ((#[trigger] flat@[i]).parent matches Some(p) && p < i),
            forall|q: int| 0 <= q < n ==> (#[trigger] lists@[q])@ == children_of(parents, q, c as int),
    {
        let ghost before = lists@;
        match flat[c].parent {
            Some(p) => {
                proof {
                    assert(parents[c as int] == Some(p));
                    if c == 0 { assert(flat@[0].parent is None); }
                }
                lists[p].push(c);
                proof {
                    assert forall|q: int| 0 <= q < n implies (#[trigger] lists@[q])@ == children_of(parents, q, c + 1) by {
                        if q != p { assert(lists@[q] == before[q]); }
                    }
                }
            },
            None => {
                proof {
                    assert(parents[c as int] is None);
                    assert forall|q: int| 0 <= q < n implies (#[trigger] lists@[q])@ == children_of(parents, q, c + 1) by {}
                }
            },
        }
    }
    let mut nodes: Vec<SyntaxNode> = Vec::new();
    let mut rest = flat;
    let mut spare = lists;
    let ghost flat0 = rest@;
    let ghost lists0 = spare@;
    for i in 0..n
        invariant
            rest@.len() == n,
            spare@.len() == n,
            flat0.len() == n,
            lists0.len() == n,
            nodes@.len() == i,
            forall|k: int| i <= k < n ==> rest@[k] == flat0[k] && spare@[k] == lists0[k],
            forall|k: int| 0 <= k < i ==> (#[trigger] nodes@[k]) == (SyntaxNode { children: lists0[k], ..flat0[k] }),
    {
        let mut d = SyntaxNode {
            kind: String::new(),
            named: false,
            field: None,
            parent: None,
            children: Vec::new(),
            start_byte: 0,
            end_byte: 0,
            start_row: 0,
            start_column: 0,
            end_row: 0,
            end_column: 0,
        };
        rest.set_and_swap(i, &mut d);
        let mut cs: Vec<usize> = Vec::new();
        spare.set_and_swap(i, &mut cs);
        nodes.push(SyntaxNode { children: cs, ..d });
    }
    let t = SyntaxTree { nodes };
    proof {
        let ns = t.nodes@;
        assert(ns.len() == n);
        assert forall|i: int| 0 <= i < n implies #[trigger] ns[i].children@ == children_of(parents, i, n as int)
            && ns[i].parent == parents[i] by {
            assert(ns[i] == (SyntaxNode { children: lists0[i], ..flat0[i] }));
        }
        assert forall|i: int| 0 < i < ns.len() implies ((#[trigger] ns[i]).parent matches Some(p) && p < i
            && ns[p as int].children@.contains(i as usize)) by {
            assert(ns[i].parent == parents[i]);
            assert(flat0[i].parent == parents[i]);
            let p = ns[i].parent->Some_0;
            lemma_children_of(parents, p as int, n as int);
        }
        assert forall|i: int, j: int| 0 <= i < ns.len() && 0 <= j < ns[i].children@.len() implies
            i < #[trigger] ns[i].children@[j] < ns.len() && ns[ns[i].children@[j] as int].parent == Some(i as usize) by {
            lemma_children_of(parents, i, n as int);
            let c = ns[i].children@[j] as int;
            assert(ns[c].parent == parents[c]);
            assert(flat0[c].parent == parents[c]);
        }
        assert forall|i: int, j: int, k: int| 0 <= i < ns.len() && 0 <= j < k < ns[i].children@.len() implies
            #[trigger] ns[i].children@[j] < #[trigger] ns[i].children@[k] by {
            lemma_children_of(parents, i, n as int);
        }
        assert forall|i: int| 0 <= i < ns.len() implies (#[trigger] ns[i]).start_row < usize::MAX && ns[i].start_column < usize::MAX
            && ns[i].end_row < usize::MAX && ns[i].end_column < usize::MAX && ns[i].in_order() by {
            assert(ns[i] == (SyntaxNode { children: lists0[i], ..flat0[i] }));
        }
        assert(ns[0].parent is None) by {
            assert(ns[0] == (SyntaxNode { children: lists0[0], ..flat0[0] }));
        }
    }
    Some(t)
}

/// The first of the nodes `cs[k..]` that fills the field `f`.
pub open spec fn first_with_field(t: SyntaxTree, cs: Seq<usize>, f: Seq<char>, k: int) -> Option<int>
    decreases cs.len() - k,
{
    if k < 0 || k >= cs.len() {
        None
    } else if cs[k] < t.nodes@.len() && (t.nodes@[cs[k] as int].field matches Some(x) && x@ == f) {
        Some(cs[k] as int)
    } else {
        first_with_field(t, cs, f, k + 1)
    }
}

/// The first child of node `i` that fills the field `f`, as `Node::child_by_field_name`
/// finds it.
pub open spec fn field_child(t: SyntaxTree, i: int, f: Seq<char>) -> Option<int> {
    first_with_field(t, t.nodes@[i].children@, f, 0)
}

/// The position of `x` among `cs`, or `-1`.
pub open spec fn position_in(cs: Seq<usize>, x: int) -> int
    decreases cs.len(),
{
    if cs.len() == 0 {
        -1
    } else if position_in(cs.drop_last(), x) >= 0 {
        position_in(cs.drop_last(), x)
    } else if cs.last() == x {
        cs.len() - 1
    } else {
        -1
    }
}

/// The last of the nodes `cs[..k]` that is named.
pub open spec fn last_named_before(t: SyntaxTree, cs: Seq<usize>, k: int) -> Option<int>
    decreases k,
{
    if k <= 0 || k > cs.len() {
        None
    } else if cs[k - 1] < t.nodes@.len() && t.nodes@[cs[k - 1] as int].named {
        Some(cs[k - 1] as int)
    } else {
        last_named_before(t, cs, k - 1)
    }
}

/// The named sibling just before node `i`, as `Node::prev_named_sibling` finds it.
pub open spec fn prev_named_sibling(t: SyntaxTree, i: int) -> Option<int> {
    match t.nodes@[i].parent {
        Some(p) => if p < t.nodes@.len() {
            let cs = t.nodes@[p as int].children@;
            last_named_before(t, cs, position_in(cs, i))
        } else {
            None
        },
        None => None,
    }
}

/// The sibling just before node `i`, as `Node::prev_sibling` finds it.
pub open spec fn prev_sibling(t: SyntaxTree, i: int) -> Option<int> {
    match t.nodes@[i].parent {
        Some(p) => if p < t.nodes@.len() {
            let cs = t.nodes@[p as int].children@;
            let k = position_in(cs, i);
            if k > 0 { Some(cs[k - 1] as int) } else { None }
        } else {
            None
        },
        None => None,
    }
}

proof fn lemma_position_in(cs: Seq<usize>, x: int)
    ensures
        -1 <= position_in(cs, x) < cs.len(),
        position_in(cs, x) >= 0 ==> cs[position_in(cs, x)] == x,
        position_in(cs, x) < 0 ==> !cs.contains(x as usize) || x < 0 || x > usize::MAX,
    decreases cs.len(),
{
    if cs.len() > 0 {
        lemma_position_in(cs.drop_last(), x);
        if position_in(cs, x) < 0 && 0 <= x <= usize::MAX {
            if cs.contains(x as usize) {
                let j = choose|j: int| 0 <= j < cs.len() && cs[j] == x as usize;
                if j < cs.len() - 1 {
                    assert(cs.drop_last()[j] == cs[j]);
                }
            }
        }
    }
}

impl SyntaxTree {
    /// The first child of node `i` that fills the field `f`.
    pub fn child_by_field(&self, i: usize, f: &str) -> (r: Option<usize>)
        requires
            i < self.nodes@.len(),
        ensures
            match r {
                Some(c) => field_child(*self, i as int, f@) == Some(c as int) && c < self.nodes@.len(),
                None => field_child(*self, i as int, f@) is None,
            },
    {
        let cs = &self.nodes[i].children;
        let fc = crate::text::chars_of(f);
        let mut k: usize = 0;
        while k < cs.len()
            invariant
                cs@ == self.nodes@[i as int].children@,
                fc@ == f@,
                k <= cs@.len(),
                field_child(*self, i as int, f@) == first_with_field(*self, cs@, f@, k as int),
            decreases cs@.len() - k,
        {
            let c = cs[k];
            if c < self.nodes.len() {
                match &self.nodes[c].field {
                    Some(x) => {
                        let xc = crate::text::chars_of(x.as_str());
                        if chars_eq(xc.as_slice(), fc.as_slice()) {
                            return Some(c);
                        }
                    },
                    None => {},
                }
            }
            k = k + 1;
        }
        None
    }

    fn position_of(&self, p: usize, i: usize) -> (r: Option<usize>)
        requires
            p < self.nodes@.len(),
        ensures
            match r {
                Some(k) => position_in(self.nodes@[p as int].children@, i as int) == k
                    && k < self.nodes@[p as int].children@.len(),
                None => position_in(self.nodes@[p as int].children@, i as int) < 0,
            },
    {
        let cs = &self.nodes[p].children;
        proof { lemma_position_in(cs@, i as int); }
        let mut k: usize = 0;
        while k < cs.len()
            invariant
                cs@ == self.nodes@[p as int].children@,
                k <= cs@.len(),
                forall|j: int| 0 <= j < k ==> cs@[j] != i,
                -1 <= position_in(cs@, i as int) < cs@.len(),
                position_in(cs@, i as int) >= 0 ==> cs@[position_in(cs@, i as int)] == i,
                position_in(cs@, i as int) < 0 ==> !cs@.contains(i),
            decreases cs@.len() - k,
        {
            if cs[k] == i {
                proof { lemma_position_first(cs@, i as int, k as int); }
                return Some(k);
            }
            k = k + 1;
        }
        proof {
            if position_in(cs@, i as int) >= 0 {
                assert(cs@[position_in(cs@, i as int)] == i);
            }
        }
        None
    }

    /// The named sibling just before node `i`.
    pub fn prev_named_sibling(&self, i: usize) -> (r: Option<usize>)
        requires
            i < self.nodes@.len(),
        ensures
            match r {
                Some(s) => prev_named_sibling(*self, i as int) == Some(s as int) && s < self.nodes@.len(),
                None => prev_named_sibling(*self, i as int) is None,
            },
    {
        match self.nodes[i].parent {
            Some(p) => {
                if p >= self.nodes.len() {
                    return None;
                }
                match self.position_of(p, i) {
                    Some(pos) => {
                        let cs = &self.nodes[p].children;
                        let mut k = pos;
                        while k > 0
                            invariant
                                i < self.nodes@.len(),
                                p < self.nodes@.len(),
                                self.nodes@[i as int].parent == Some(p),
                                position_in(cs@, i as int) == pos,
                                cs@ == self.nodes@[p as int].children@,
                                k <= pos < cs@.len(),
                                last_named_before(*self, cs@, pos as int) == last_named_before(*self, cs@, k as int),
                            decreases k,
                        {
                            let c = cs[k - 1];
                            if c < self.nodes.len() && self.nodes[c].named {
                                return Some(c);
                            }
                            k = k - 1;
                        }
                        None
                    },
                    None => None,
                }
            },
            None => None,
        }
    }

    /// The sibling just before node `i`.
    pub fn prev_sibling(&self, i: usize) -> (r: Option<usize>)
        requires
            i < self.nodes@.len(),
            self.wf(),
        ensures
            match r {
                Some(s) => prev_sibling(*self, i as int) == Some(s as int) && s < self.nodes@.len(),
                None => prev_sibling(*self, i as int) is None,
            },
    {
        match self.nodes[i].parent {
            Some(p) => {
                if p >= self.nodes.len() {
                    return None;
                }
                match self.position_of(p, i) {
                    Some(pos) => {
                        if pos > 0 {
                            let s = self.nodes[p].children[pos - 1];
                            proof {
                                assert(self.nodes@[p as int].children@[pos - 1] == s);
                            }
                            Some(s)
                        } else {
                            None
                        }
                    },
                    None => None,
                }
            },
            None => None,
        }
    }
}

pub(crate) proof fn lemma_position_first(cs: Seq<usize>, x: int, k: int)
    requires
        0 <= k < cs.len(),
        cs[k] == x,
        forall|j: int| 0 <= j < k ==> cs[j] != x,
    ensures
        position_in(cs, x) == k,
    decreases cs.len(),
{
    if k < cs.len() - 1 {
        assert forall|j: int| 0 <= j < k implies cs.drop_last()[j] != x by { assert(cs.drop_last()[j] == cs[j]); }
        lemma_position_first(cs.drop_last(), x, k);
    } else {
        lemma_position_in(cs.drop_last(), x);
        if position_in(cs.drop_last(), x) >= 0 {
            let q = position_in(cs.drop_last(), x);
            assert(cs.drop_last()[q] == cs[q]);
        }
    }
}

} // verus!
