//! Interfaces and their parser.
//!
//! An interface is `interface Name { Body* } ;` where each body item is a
//! field, a nested interface, or a nested enum.  Fields keep their own
//! source order and nested declarations theirs; the two orders are
//! independent of one another.

use vstd::prelude::*;

use crate::enumerate::parse_enum;
use crate::errors::Expected;
use crate::errors::ParseContext;
use crate::errors::ParseError;
use crate::grammar::lemma_parse_enum_bounds;
use crate::grammar::lemma_parse_interface_bounds;
use crate::grammar::lemma_parse_variable_bounds;
use crate::grammar::next_scan_index;
use crate::grammar::spec_parse_interface;
use crate::grammar::spec_parse_interface_body;
use crate::grammar::SpecInterface;
use crate::grammar::SpecNode;
use crate::grammar::SpecVariable;
use crate::helpers::lemma_next_significant_bounds;
use crate::helpers::next_token_with_index;
use crate::lemma_nodes_view_push;
use crate::spec_nodes_view;
use crate::tokens::tokens_view;
use crate::tokens::Span;
use crate::tokens::TokenDeclaration;
use crate::tokens::TokenType;
use crate::variables::parse_variable;
use crate::variables::variables_view;
use crate::variables::InterfaceVariable;
use crate::Entity;
use crate::Node;

verus! {

/// A record-like schema entity: a name and its typed fields, in source
/// order.  Nested interfaces and enums live on the surrounding [`Node`].
#[derive(Debug)]
pub struct Interface {
    pub name: String,
    pub variables: Vec<InterfaceVariable>,
}

impl View for Interface {
    type V = SpecInterface;

    open spec fn view(&self) -> SpecInterface {
        SpecInterface { name: self.name@, variables: variables_view(self.variables@) }
    }
}

/// Parses an interface declaration at its `interface` keyword and returns
/// a node spanning from the keyword through the terminating `;`, carrying
/// the interface's fields and its nested declarations.  A body whose `}`
/// is missing, or is not followed (modulo whitespace) by `;`, is an
/// `UnterminatedBlock` carrying the opening `{`'s span.
pub fn parse_interface(tokens: &Vec<TokenDeclaration>, start_index: usize) -> (r: Result<
    Node,
    ParseError,
>)
    ensures
        ({
            let ts = tokens_view(tokens@);
            match spec_parse_interface(ts, start_index as int) {
                Ok(p) => r matches Ok(node) && node@ == p.0 && node.range.start == start_index
                    && node.range.end == p.1,
                Err(e) => r matches Err(e2) && e2 == e,
            }
        }),
    decreases tokens@.len() - start_index, 0int,
{
    let ghost ts = tokens_view(tokens@);
    if start_index >= tokens.len() {
        return Err(ParseError::UnexpectedEndOfInput { context: ParseContext::InterfaceHeader });
    }
    if tokens[start_index].token_type != TokenType::InterfaceDeclaration {
        return Err(
            ParseError::UnexpectedToken {
                expected: Expected::InterfaceKeyword,
                actual: tokens[start_index].token_type,
                span: tokens[start_index].span,
            },
        );
    }
    proof {
        lemma_next_significant_bounds(ts, start_index as int, 1);
    }
    let (name_at, name_token) = match next_token_with_index(tokens, start_index, None) {
        Ok(p) => p,
        Err(_) => {
            return Err(
                ParseError::UnexpectedEndOfInput { context: ParseContext::InterfaceHeader },
            );
        },
    };
    if name_token.token_type != TokenType::Text {
        return Err(
            ParseError::UnexpectedToken {
                expected: Expected::Name,
                actual: name_token.token_type,
                span: name_token.span,
            },
        );
    }
    let name = match name_token.value {
        Some(s) => s,
        None => String::new(),
    };
    assert(name@ == ts[name_at as int].text);
    proof {
        lemma_next_significant_bounds(ts, name_at as int, 1);
    }
    let (brace_at, brace_token) = match next_token_with_index(tokens, name_at, None) {
        Ok(p) => p,
        Err(_) => {
            return Err(
                ParseError::UnexpectedEndOfInput { context: ParseContext::InterfaceHeader },
            );
        },
    };
    if brace_token.token_type != TokenType::RightCurlyBraces {
        return Err(
            ParseError::UnexpectedToken {
                expected: Expected::OpeningBrace,
                actual: brace_token.token_type,
                span: brace_token.span,
            },
        );
    }
    let opening = brace_token.span;
    let (nodes, variables, close) = match parse_interface_body(tokens, brace_at + 1, opening) {
        Ok(p) => p,
        Err(e) => {
            return Err(e);
        },
    };
    proof {
        lemma_next_significant_bounds(ts, close as int, 1);
    }
    let (semicolon_at, semicolon) = match next_token_with_index(tokens, close, None) {
        Ok(p) => p,
        Err(_) => {
            return Err(ParseError::UnterminatedBlock { opening });
        },
    };
    if semicolon.token_type != TokenType::Semicolon {
        return Err(ParseError::UnterminatedBlock { opening });
    }
    let node = Node {
        range: Span { start: start_index, end: semicolon_at + 1 },
        nodes,
        entity: Entity::Interface(Interface { name, variables }),
    };
    proof {
        if let Ok(p) = spec_parse_interface(ts, start_index as int) {
            assert(node@ =~~= p.0);
        }
    }
    Ok(node)
}


/// The body scan of an interface: collects fields and nested declarations
/// until the closing `}`, whose index is returned with them.
#[verifier::loop_isolation(false)]
fn parse_interface_body(tokens: &Vec<TokenDeclaration>, from: usize, opening: Span) -> (r: Result<
    (Vec<Node>, Vec<InterfaceVariable>, usize),
    ParseError,
>)
    requires
        from <= tokens@.len(),
    ensures
        ({
            let ts = tokens_view(tokens@);
            match spec_parse_interface_body(ts, from as int, opening) {
                Ok(p) => r matches Ok(q) && spec_nodes_view(q.0@) == p.0 && variables_view(q.1@)
                    == p.1 && q.2 == p.2,
                Err(e) => r matches Err(e2) && e2 == e,
            }
        }),
    decreases tokens@.len() - from, 1int,
{
    let ghost ts = tokens_view(tokens@);
    let mut nodes: Vec<Node> = Vec::new();
    let mut variables: Vec<InterfaceVariable> = Vec::new();
    let mut i = from;
    loop
        invariant
            from <= i <= tokens.len(),
            match spec_parse_interface_body(ts, i as int, opening) {
                Ok(p) => spec_parse_interface_body(ts, from as int, opening) == Ok::<
                    (Seq<SpecNode>, Seq<SpecVariable>, int),
                    ParseError,
                >((spec_nodes_view(nodes@) + p.0, variables_view(variables@) + p.1, p.2)),
                Err(e) => spec_parse_interface_body(ts, from as int, opening) == Err::<
                    (Seq<SpecNode>, Seq<SpecVariable>, int),
                    ParseError,
                >(e),
            },
        decreases tokens@.len() - i,
    {
        if i >= tokens.len() {
            return Err(ParseError::UnterminatedBlock { opening });
        }
        let kind = tokens[i].token_type;
        if kind == TokenType::Whitespace {
            i = i + 1;
        } else if kind == TokenType::LeftCurlyBraces {
            assert(spec_nodes_view(nodes@) + Seq::<SpecNode>::empty() =~= spec_nodes_view(nodes@));
            assert(variables_view(variables@) + Seq::<SpecVariable>::empty() =~= variables_view(
                variables@,
            ));
            return Ok((nodes, variables, i));
        } else if kind == TokenType::RequiredModifier || kind == TokenType::OptionalModifier {
            match parse_variable(tokens, i) {
                Err(e) => {
                    return Err(e);
                },
                Ok((variable, span)) => {
                    proof {
                        lemma_parse_variable_bounds(ts, i as int);
                        assert(next_scan_index(i as int, span.end as int, ts.len() as int)
                            == span.end as int);
                        assert(variables_view(variables@.push(variable)) =~= variables_view(
                            variables@,
                        ).push(variable@));
                        if let Ok(p) = spec_parse_interface_body(ts, span.end as int, opening) {
                            assert(variables_view(variables@) + (seq![variable@] + p.1)
                                =~= variables_view(variables@.push(variable)) + p.1);
                        }
                    }
                    variables.push(variable);
                    i = span.end;
                },
            }
        } else if kind == TokenType::InterfaceDeclaration {
            match parse_interface(tokens, i) {
                Err(e) => {
                    return Err(e);
                },
                Ok(child) => {
                    proof {
                        lemma_parse_interface_bounds(ts, i as int);
                        assert(next_scan_index(i as int, child.range.end as int, ts.len() as int)
                            == child.range.end as int);
                        lemma_nodes_view_push(nodes@, child);
                        if let Ok(p) = spec_parse_interface_body(
                            ts,
                            child.range.end as int,
                            opening,
                        ) {
                            assert(spec_nodes_view(nodes@) + (seq![child@] + p.0)
                                =~= spec_nodes_view(nodes@.push(child)) + p.0);
                        }
                    }
                    let next = child.range.end;
                    nodes.push(child);
                    i = next;
                },
            }
        } else if kind == TokenType::EnumerateDeclaration {
            match parse_enum(tokens, i) {
                Err(e) => {
                    return Err(e);
                },
                Ok(child) => {
                    proof {
                        lemma_parse_enum_bounds(ts, i as int);
                        assert(next_scan_index(i as int, child.range.end as int, ts.len() as int)
                            == child.range.end as int);
                        lemma_nodes_view_push(nodes@, child);
                        if let Ok(p) = spec_parse_interface_body(
                            ts,
                            child.range.end as int,
                            opening,
                        ) {
                            assert(spec_nodes_view(nodes@) + (seq![child@] + p.0)
                                =~= spec_nodes_view(nodes@.push(child)) + p.0);
                        }
                    }
                    let next = child.range.end;
                    nodes.push(child);
                    i = next;
                },
            }
        } else {
            return Err(
                ParseError::UnexpectedToken {
                    expected: Expected::BodyItem,
                    actual: kind,
                    span: tokens[i].span,
                },
            );
        }
    }
}

} // verus!
