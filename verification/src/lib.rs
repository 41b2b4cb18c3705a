//! A parser for a small textual schema language: `interface` records with
//! typed, required/optional fields, nested interfaces, and enumerations.
//!
//! The pipeline is: source text -> [`lexer::get_tokens`] -> token sequence ->
//! [`get_ast_tree`] -> [`Tree`] of [`Node`]s, or [`parse`] for both steps at
//! once.  Lexing is total: unrecognized input becomes `Unknown` tokens.
//! Parsing returns a typed [`errors::ParseError`] on malformed input; no
//! function panics, and the first error stops the whole parse.

use vstd::prelude::*;

pub mod enumerate;
pub mod errors;
pub mod grammar;
pub mod helpers;
pub mod interface;
pub mod lexer;
pub mod roundtrip;
pub mod serialize;
pub mod tokens;
pub mod types;
pub mod variables;

use crate::enumerate::parse_enum;
use crate::enumerate::Enum;
use crate::errors::ParseError;
use crate::grammar::lemma_parse_enum_bounds;
use crate::grammar::lemma_parse_interface_bounds;
use crate::grammar::next_scan_index;
use crate::grammar::spec_parse_top;
use crate::grammar::SpecEntity;
use crate::grammar::SpecNode;
use crate::helpers::create_linear_numbers_array;
use crate::interface::parse_interface;
use crate::interface::Interface;
use crate::lexer::get_tokens;
use crate::tokens::spec_tokenize;
use crate::tokens::tokens_view;
use crate::tokens::Span;
use crate::tokens::TokenDeclaration;
use crate::tokens::TokenType;

verus! {

/// What a tree node holds: an interface or an enumeration.
#[derive(Debug)]
pub enum Entity {
    Interface(Interface),
    Enum(Enum),
}

/// One parsed declaration: the half-open token-index range it consumed,
/// its nested declarations in source order, and its entity.  A node
/// exclusively owns its children.
#[derive(Debug)]
pub struct Node {
    pub range: Span,
    pub nodes: Vec<Node>,
    pub entity: Entity,
}

/// The parse result: the top-level nodes in source order, plus the indices
/// of every token already attributed to some node, so that tokens folded
/// into a parent are never dispatched again at the top level.
#[derive(Debug)]
pub struct Tree {
    pub nodes: Vec<Node>,
    pub parsed_indicies: Vec<usize>,
}

impl View for Entity {
    type V = SpecEntity;

    open spec fn view(&self) -> SpecEntity {
        match self {
            Entity::Interface(i) => SpecEntity::Interface(i@),
            Entity::Enum(e) => SpecEntity::Enum(e@),
        }
    }
}

/// The mathematical value of a node, nested nodes included.
pub open spec fn spec_node_view(n: Node) -> SpecNode
    decreases n,
{
    SpecNode {
        start: n.range.start as int,
        end: n.range.end as int,
        nodes: spec_nodes_view(n.nodes@),
        entity: n.entity@,
    }
}

/// The mathematical values of a node sequence.
pub open spec fn spec_nodes_view(nodes: Seq<Node>) -> Seq<SpecNode>
    decreases nodes,
{
    if nodes.len() == 0 {
        Seq::empty()
    } else {
        spec_nodes_view(nodes.drop_last()).push(spec_node_view(nodes.last()))
    }
}

impl View for Node {
    type V = SpecNode;

    open spec fn view(&self) -> SpecNode {
        spec_node_view(*self)
    }
}

/// A node sequence's view has one element per node, in order.
pub proof fn lemma_nodes_view(nodes: Seq<Node>)
    ensures
        spec_nodes_view(nodes).len() == nodes.len(),
        forall|k: int|
            0 <= k < nodes.len() ==> spec_nodes_view(nodes)[k] == spec_node_view(nodes[k]),
    decreases nodes.len(),
{
    if nodes.len() > 0 {
        lemma_nodes_view(nodes.drop_last());
    }
}

/// Appending a node to a sequence appends its view.
pub proof fn lemma_nodes_view_push(nodes: Seq<Node>, n: Node)
    ensures
        spec_nodes_view(nodes.push(n)) == spec_nodes_view(nodes).push(spec_node_view(n)),
{
    assert(nodes.push(n).drop_last() =~= nodes);
    assert(nodes.push(n).last() == n);
}


/// Top-level nodes consume disjoint token ranges, in source order.
pub open spec fn nodes_disjoint(nodes: Seq<Node>) -> bool {
    forall|j: int, k: int|
        0 <= j < k < nodes.len() ==> (#[trigger] nodes[j]).range.end <= (#[trigger] nodes[k]).range.start
}

/// Whether some node's consumed range covers token index `t`.
pub open spec fn covered_by_nodes(nodes: Seq<Node>, t: usize) -> bool {
    exists|k: int|
        0 <= k < nodes.len() && (#[trigger] nodes[k]).range.start <= t < nodes[k].range.end
}

fn contains_index(v: &Vec<usize>, x: usize) -> (b: bool)
    ensures
        b == v@.contains(x),
{
    let mut k: usize = 0;
    while k < v.len()
        invariant
            0 <= k <= v@.len(),
            forall|j: int| 0 <= j < k ==> v@[j] != x,
        decreases v@.len() - k,
    {
        if v[k] == x {
            return true;
        }
        k = k + 1;
    }
    false
}

impl Tree {
    /// Appends a node and records every token index in its consumed range,
    /// without duplicating indices already recorded.
    pub fn add_node(&mut self, node: Node)
        ensures
            final(self).nodes@ == old(self).nodes@.push(node),
            forall|t: usize|
                #[trigger] final(self).parsed_indicies@.contains(t) <==> (old(
                    self,
                ).parsed_indicies@.contains(t) || node.range.start <= t < node.range.end),
    {
        let range = node.range;
        if range.start < range.end {
            let indices = create_linear_numbers_array(range.start, range.end - 1);
            let mut k: usize = 0;
            while k < indices.len()
                invariant
                    0 <= k <= indices@.len(),
                    indices@.len() == range.end - range.start,
                    forall|j: int| 0 <= j < indices@.len() ==> indices@[j] == range.start + j,
                    forall|t: usize|
                        #[trigger] self.parsed_indicies@.contains(t) <==> (old(
                            self,
                        ).parsed_indicies@.contains(t) || range.start <= t < range.start + k),
                    self.nodes@ == old(self).nodes@,
                decreases indices@.len() - k,
            {
                let index = indices[k];
                if !contains_index(&self.parsed_indicies, index) {
                    let ghost prev = self.parsed_indicies@;
                    self.parsed_indicies.push(index);
                    proof {
                        assert forall|t: usize| #[trigger]
                            self.parsed_indicies@.contains(t) implies (prev.contains(t) || t
                            == index) by {
                            let j = choose|j: int|
                                0 <= j < self.parsed_indicies@.len() && self.parsed_indicies@[j]
                                    == t;
                            if j < prev.len() {
                                assert(prev[j] == t);
                            }
                        }
                        assert forall|t: usize| prev.contains(t) implies #[trigger]
                            self.parsed_indicies@.contains(t) by {
                            let j = choose|j: int| 0 <= j < prev.len() && prev[j] == t;
                            assert(self.parsed_indicies@[j] == t);
                        }
                        assert(self.parsed_indicies@[prev.len() as int] == index);
                        assert(self.parsed_indicies@.contains(index));
                    }
                }
                k = k + 1;
            }
        }
        self.nodes.push(node);
    }

    /// An empty tree: no nodes, no consumed indices.
    pub fn default() -> (r: Tree)
        ensures
            r.nodes@ == Seq::<Node>::empty(),
            r.parsed_indicies@ == Seq::<usize>::empty(),
    {
        Tree { nodes: Vec::new(), parsed_indicies: Vec::new() }
    }
}

/// Assembles the tree from a token sequence.
///
/// Walks the tokens in order, skipping whitespace and dispatching each
/// `interface`/`enum` keyword that is not already inside a parsed node to
/// its parser; any other top-level token is an `UnknownTopLevelConstruct`.
/// On success the tree holds the top-level nodes in source order; their
/// consumed ranges are disjoint, and `parsed_indicies` holds exactly the
/// token indices those ranges cover, so a token belongs to at most one
/// node's range.
#[verifier::loop_isolation(false)]
pub fn get_ast_tree(tokens: Vec<TokenDeclaration>) -> (r: Result<Tree, ParseError>)
    ensures
        ({
            let ts = tokens_view(tokens@);
            match spec_parse_top(ts, 0) {
                Ok(ns) => r matches Ok(tree) && spec_nodes_view(tree.nodes@) == ns
                    && nodes_disjoint(tree.nodes@) && (forall|t: usize|
                    #[trigger] tree.parsed_indicies@.contains(t) <==> covered_by_nodes(
                        tree.nodes@,
                        t,
                    )),
                Err(e) => r matches Err(e2) && e2 == e,
            }
        }),
{
    let ghost ts = tokens_view(tokens@);
    let mut tree = Tree::default();
    let mut i: usize = 0;
    while i < tokens.len()
        invariant
            0 <= i <= tokens.len(),
            match spec_parse_top(ts, i as int) {
                Ok(ns) => spec_parse_top(ts, 0) == Ok::<Seq<SpecNode>, ParseError>(
                    spec_nodes_view(tree.nodes@) + ns,
                ),
                Err(e) => spec_parse_top(ts, 0) == Err::<Seq<SpecNode>, ParseError>(e),
            },
            forall|k: int|
                0 <= k < tree.nodes@.len() ==> (#[trigger] tree.nodes@[k]).range.start
                    < tree.nodes@[k].range.end <= i,
            nodes_disjoint(tree.nodes@),
            forall|t: usize|
                #[trigger] tree.parsed_indicies@.contains(t) <==> covered_by_nodes(tree.nodes@, t),
        decreases tokens@.len() - i,
    {
        let kind = tokens[i].token_type;
        if kind == TokenType::Whitespace {
            i = i + 1;
        } else if kind == TokenType::InterfaceDeclaration {
            match parse_interface(&tokens, i) {
                Err(e) => {
                    return Err(e);
                },
                Ok(node) => {
                    proof {
                        lemma_parse_interface_bounds(ts, i as int);
                        assert(next_scan_index(i as int, node.range.end as int, ts.len() as int)
                            == node.range.end as int);
                        lemma_nodes_view_push(tree.nodes@, node);
                        if let Ok(ns) = spec_parse_top(ts, node.range.end as int) {
                            assert(spec_nodes_view(tree.nodes@) + (seq![node@] + ns)
                                =~= spec_nodes_view(tree.nodes@.push(node)) + ns);
                        }
                    }
                    let next = node.range.end;
                    let ghost prev_nodes = tree.nodes@;
                    tree.add_node(node);
                    proof {
                        assert forall|t: usize| covered_by_nodes(tree.nodes@, t) <==> (
                        covered_by_nodes(prev_nodes, t) || node.range.start <= t
                            < node.range.end) by {
                            if covered_by_nodes(prev_nodes, t) {
                                let k = choose|k: int|
                                    0 <= k < prev_nodes.len() && (#[trigger] prev_nodes[k]).range.start
                                        <= t < prev_nodes[k].range.end;
                                assert(tree.nodes@[k].range.start <= t < tree.nodes@[k].range.end);
                            }
                            if node.range.start <= t < node.range.end {
                                assert(tree.nodes@[prev_nodes.len() as int].range.start <= t
                                    < tree.nodes@[prev_nodes.len() as int].range.end);
                            }
                            if covered_by_nodes(tree.nodes@, t) {
                                let k = choose|k: int|
                                    0 <= k < tree.nodes@.len() && (#[trigger] tree.nodes@[k]).range.start
                                        <= t < tree.nodes@[k].range.end;
                                if k < prev_nodes.len() {
                                    assert(prev_nodes[k].range.start <= t
                                        < prev_nodes[k].range.end);
                                }
                            }
                        }
                    }
                    i = next;
                },
            }
        } else if kind == TokenType::EnumerateDeclaration {
            match parse_enum(&tokens, i) {
                Err(e) => {
                    return Err(e);
                },
                Ok(node) => {
                    proof {
                        lemma_parse_enum_bounds(ts, i as int);
                        assert(next_scan_index(i as int, node.range.end as int, ts.len() as int)
                            == node.range.end as int);
                        lemma_nodes_view_push(tree.nodes@, node);
                        if let Ok(ns) = spec_parse_top(ts, node.range.end as int) {
                            assert(spec_nodes_view(tree.nodes@) + (seq![node@] + ns)
                                =~= spec_nodes_view(tree.nodes@.push(node)) + ns);
                        }
                    }
                    let next = node.range.end;
                    let ghost prev_nodes = tree.nodes@;
                    tree.add_node(node);
                    proof {
                        assert forall|t: usize| covered_by_nodes(tree.nodes@, t) <==> (
                        covered_by_nodes(prev_nodes, t) || node.range.start <= t
                            < node.range.end) by {
                            if covered_by_nodes(prev_nodes, t) {
                                let k = choose|k: int|
                                    0 <= k < prev_nodes.len() && (#[trigger] prev_nodes[k]).range.start
                                        <= t < prev_nodes[k].range.end;
                                assert(tree.nodes@[k].range.start <= t < tree.nodes@[k].range.end);
                            }
                            if node.range.start <= t < node.range.end {
                                assert(tree.nodes@[prev_nodes.len() as int].range.start <= t
                                    < tree.nodes@[prev_nodes.len() as int].range.end);
                            }
                            if covered_by_nodes(tree.nodes@, t) {
                                let k = choose|k: int|
                                    0 <= k < tree.nodes@.len() && (#[trigger] tree.nodes@[k]).range.start
                                        <= t < tree.nodes@[k].range.end;
                                if k < prev_nodes.len() {
                                    assert(prev_nodes[k].range.start <= t
                                        < prev_nodes[k].range.end);
                                }
                            }
                        }
                    }
                    i = next;
                },
            }
        } else {
            return Err(errors::ParseError::UnknownTopLevelConstruct { span: tokens[i].span });
        }
    }
    assert(spec_nodes_view(tree.nodes@) + Seq::<SpecNode>::empty() =~= spec_nodes_view(
        tree.nodes@,
    ));
    Ok(tree)
}

/// Parses a whole source text: tokenizes it, then assembles the tree.
/// A pure function of the source; the first error encountered stops the
/// parse and is returned unchanged.
#[verifier::rlimit(60)]
pub fn parse(source: &str) -> (r: Result<Tree, ParseError>)
    ensures
        ({
            match spec_parse_top(spec_tokenize(source@), 0) {
                Ok(ns) => r matches Ok(tree) && spec_nodes_view(tree.nodes@) == ns
                    && nodes_disjoint(tree.nodes@) && (forall|t: usize|
                    #[trigger] tree.parsed_indicies@.contains(t) <==> covered_by_nodes(
                        tree.nodes@,
                        t,
                    )),
                Err(e) => r matches Err(e2) && e2 == e,
            }
        }),
{
    let tokens = get_tokens(source);
    get_ast_tree(tokens)
}

} // verus!
