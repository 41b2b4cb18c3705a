//! Enumerations and their parser.
//!
//! An enumeration is `enum Name { Variant* } ;` where each variant is
//! `Name : (Text | QuotedString) ;`.  A variant's value is recorded
//! verbatim, without resolving bare identifiers against other declarations;
//! that validation belongs to a later semantic-analysis pass.

use vstd::prelude::*;

use crate::errors::Expected;
use crate::errors::ParseContext;
use crate::errors::ParseError;
use crate::grammar::lemma_parse_multiline_bounds;
use crate::grammar::lemma_parse_variant_bounds;
use crate::grammar::next_scan_index;
use crate::grammar::spec_parse_enum;
use crate::grammar::spec_parse_enum_body;
use crate::grammar::spec_parse_variant;
use crate::grammar::SpecEnum;
use crate::grammar::SpecEnumVariant;
use crate::helpers::lemma_next_significant_bounds;
use crate::helpers::next_token_with_index;
use crate::tokens::tokens_view;
use crate::tokens::Span;
use crate::tokens::TokenDeclaration;
use crate::tokens::TokenType;
use crate::types::parse_multiline_string;
use crate::Entity;
use crate::Node;

verus! {

/// A named set of variants.
#[derive(Debug)]
pub struct Enum {
    pub name: String,
    pub variants: Vec<EnumVariant>,
}

/// One variant: a name and its optional literal or symbolic value.
#[derive(Debug)]
pub struct EnumVariant {
    pub name: String,
    pub value: Option<String>,
}

impl View for EnumVariant {
    type V = SpecEnumVariant;

    open spec fn view(&self) -> SpecEnumVariant {
        SpecEnumVariant {
            name: self.name@,
            value: match self.value {
                Some(s) => Some(s@),
                None => None,
            },
        }
    }
}

impl View for Enum {
    type V = SpecEnum;

    open spec fn view(&self) -> SpecEnum {
        SpecEnum { name: self.name@, variants: variants_view(self.variants@) }
    }
}

/// The views of a variant sequence.
pub open spec fn variants_view(vs: Seq<EnumVariant>) -> Seq<SpecEnumVariant> {
    vs.map_values(|v: EnumVariant| v@)
}

/// Parses one enum variant at its name token and returns it with the
/// half-open token-index range it consumed, through the terminating `;`.
pub fn parse_variant(tokens: &Vec<TokenDeclaration>, start_index: usize) -> (r: Result<
    (EnumVariant, Span),
    ParseError,
>)
    ensures
        ({
            let ts = tokens_view(tokens@);
            match spec_parse_variant(ts, start_index as int) {
                Ok(p) => r matches Ok(q) && q.0@ == p.0 && q.1.start == start_index && q.1.end
                    == p.1,
                Err(e) => r matches Err(e2) && e2 == e,
            }
        }),
{
    let ghost ts = tokens_view(tokens@);
    if start_index >= tokens.len() {
        return Err(ParseError::UnexpectedEndOfInput { context: ParseContext::EnumVariant });
    }
    if tokens[start_index].token_type != TokenType::Text {
        return Err(
            ParseError::UnexpectedToken {
                expected: Expected::Name,
                actual: tokens[start_index].token_type,
                span: tokens[start_index].span,
            },
        );
    }
    let name = match &tokens[start_index].value {
        Some(s) => s.clone(),
        None => String::new(),
    };
    assert(name@ == ts[start_index as int].text);
    proof {
        lemma_next_significant_bounds(ts, start_index as int, 1);
    }
    let (connector_at, connector) = match next_token_with_index(tokens, start_index, None) {
        Ok(p) => p,
        Err(_) => {
            return Err(ParseError::UnexpectedEndOfInput { context: ParseContext::EnumVariant });
        },
    };
    if connector.token_type != TokenType::VariableConnection {
        return Err(
            ParseError::UnexpectedToken {
                expected: Expected::Connector,
                actual: connector.token_type,
                span: connector.span,
            },
        );
    }
    proof {
        lemma_next_significant_bounds(ts, connector_at as int, 1);
    }
    let (value_at, value_token) = match next_token_with_index(tokens, connector_at, None) {
        Ok(p) => p,
        Err(_) => {
            return Err(ParseError::UnexpectedEndOfInput { context: ParseContext::EnumVariant });
        },
    };
    let (value, last): (String, usize) = if value_token.token_type == TokenType::Text {
        let v = match value_token.value {
            Some(s) => s,
            None => String::new(),
        };
        assert(v@ == ts[value_at as int].text);
        (v, value_at)
    } else if value_token.token_type == TokenType::Quotes {
        match parse_multiline_string(tokens, value_at) {
            Ok((text, span)) => {
                proof {
                    lemma_parse_multiline_bounds(ts, value_at as int);
                }
                (text, span.end - 1)
            },
            Err(e) => {
                return Err(e);
            },
        }
    } else {
        return Err(
            ParseError::UnexpectedToken {
                expected: Expected::VariantValue,
                actual: value_token.token_type,
                span: value_token.span,
            },
        );
    };
    proof {
        lemma_next_significant_bounds(ts, last as int, 1);
    }
    let (semicolon_at, semicolon) = match next_token_with_index(tokens, last, None) {
        Ok(p) => p,
        Err(_) => {
            return Err(ParseError::UnexpectedEndOfInput { context: ParseContext::EnumVariant });
        },
    };
    if semicolon.token_type != TokenType::Semicolon {
        return Err(
            ParseError::UnexpectedToken {
                expected: Expected::Semicolon,
                actual: semicolon.token_type,
                span: semicolon.span,
            },
        );
    }
    let variant = EnumVariant { name, value: Some(value) };
    Ok((variant, Span { start: start_index, end: semicolon_at + 1 }))
}

/// Parses an enumeration declaration at its `enum` keyword and returns a
/// childless node spanning from the keyword through the terminating `;`.
/// A body whose `}` is missing, or is not followed (modulo whitespace) by
/// `;`, is an `UnterminatedBlock` carrying the opening `{`'s span.
pub fn parse_enum(tokens: &Vec<TokenDeclaration>, start_index: usize) -> (r: Result<
    Node,
    ParseError,
>)
    ensures
        ({
            let ts = tokens_view(tokens@);
            match spec_parse_enum(ts, start_index as int) {
                Ok(p) => r matches Ok(node) && node@ == p.0 && node.range.start == start_index
                    && node.range.end == p.1,
                Err(e) => r matches Err(e2) && e2 == e,
            }
        }),
{
    let ghost ts = tokens_view(tokens@);
    if start_index >= tokens.len() {
        return Err(ParseError::UnexpectedEndOfInput { context: ParseContext::EnumHeader });
    }
    if tokens[start_index].token_type != TokenType::EnumerateDeclaration {
        return Err(
            ParseError::UnexpectedToken {
                expected: Expected::EnumKeyword,
                actual: tokens[start_index].token_type,
                span: tokens[start_index].span,
            },
        );
    }
    proof {
        lemma_next_significant_bounds(ts, start_index as int, 1);
    }
    let (name_at, name_token) = match next_token_with_index(tokens, start_index, None) {
        Ok(p) => p,
        Err(_) => {
            return Err(ParseError::UnexpectedEndOfInput { context: ParseContext::EnumHeader });
        },
    };
    if name_token.token_type != TokenType::Text {
        return Err(
            ParseError::UnexpectedToken {
                expected: Expected::Name,
                actual: name_token.token_type,
                span: name_token.span,
            },
        );
    }
    let name = match name_token.value {
        Some(s) => s,
        None => String::new(),
    };
    assert(name@ == ts[name_at as int].text);
    proof {
        lemma_next_significant_bounds(ts, name_at as int, 1);
    }
    let (brace_at, brace_token) = match next_token_with_index(tokens, name_at, None) {
        Ok(p) => p,
        Err(_) => {
            return Err(ParseError::UnexpectedEndOfInput { context: ParseContext::EnumHeader });
        },
    };
    if brace_token.token_type != TokenType::RightCurlyBraces {
        return Err(
            ParseError::UnexpectedToken {
                expected: Expected::OpeningBrace,
                actual: brace_token.token_type,
                span: brace_token.span,
            },
        );
    }
    let opening = brace_token.span;
    let (variants, close) = match parse_enum_body(tokens, brace_at + 1, opening) {
        Ok(p) => p,
        Err(e) => {
            return Err(e);
        },
    };
    proof {
        lemma_next_significant_bounds(ts, close as int, 1);
    }
    let (semicolon_at, semicolon) = match next_token_with_index(tokens, close, None) {
        Ok(p) => p,
        Err(_) => {
            return Err(ParseError::UnterminatedBlock { opening });
        },
    };
    if semicolon.token_type != TokenType::Semicolon {
        return Err(ParseError::UnterminatedBlock { opening });
    }
    let node = Node {
        range: Span { start: start_index, end: semicolon_at + 1 },
        nodes: Vec::new(),
        entity: Entity::Enum(Enum { name, variants }),
    };
    proof {
        if let Ok(p) = spec_parse_enum(ts, start_index as int) {
            assert(crate::spec_nodes_view(node.nodes@) =~= Seq::<
                crate::grammar::SpecNode,
            >::empty());
            assert(node@ =~~= p.0);
        }
    }
    Ok(node)
}


/// The body scan of an enumeration: collects variants until the closing
/// `}`, whose index is returned with them.
#[verifier::loop_isolation(false)]
fn parse_enum_body(tokens: &Vec<TokenDeclaration>, from: usize, opening: Span) -> (r: Result<
    (Vec<EnumVariant>, usize),
    ParseError,
>)
    requires
        from <= tokens@.len(),
    ensures
        ({
            let ts = tokens_view(tokens@);
            match spec_parse_enum_body(ts, from as int, opening) {
                Ok(p) => r matches Ok(q) && variants_view(q.0@) == p.0 && q.1 == p.1,
                Err(e) => r matches Err(e2) && e2 == e,
            }
        }),
{
    let ghost ts = tokens_view(tokens@);
    let mut variants: Vec<EnumVariant> = Vec::new();
    let mut i = from;
    loop
        invariant
            from <= i <= tokens.len(),
            match spec_parse_enum_body(ts, i as int, opening) {
                Ok(p) => spec_parse_enum_body(ts, from as int, opening) == Ok::<
                    (Seq<SpecEnumVariant>, int),
                    ParseError,
                >((variants_view(variants@) + p.0, p.1)),
                Err(e) => spec_parse_enum_body(ts, from as int, opening) == Err::<
                    (Seq<SpecEnumVariant>, int),
                    ParseError,
                >(e),
            },
        decreases tokens@.len() - i,
    {
        if i >= tokens.len() {
            return Err(ParseError::UnterminatedBlock { opening });
        }
        let kind = tokens[i].token_type;
        if kind == TokenType::Whitespace {
            i = i + 1;
        } else if kind == TokenType::LeftCurlyBraces {
            assert(variants_view(variants@) + Seq::<SpecEnumVariant>::empty() =~= variants_view(
                variants@,
            ));
            return Ok((variants, i));
        } else if kind == TokenType::Text {
            match parse_variant(tokens, i) {
                Err(e) => {
                    return Err(e);
                },
                Ok((variant, span)) => {
                    proof {
                        lemma_parse_variant_bounds(ts, i as int);
                        assert(next_scan_index(i as int, span.end as int, ts.len() as int)
                            == span.end as int);
                        assert(variants_view(variants@.push(variant)) =~= variants_view(
                            variants@,
                        ).push(variant@));
                        if let Ok(p) = spec_parse_enum_body(ts, span.end as int, opening) {
                            assert(variants_view(variants@) + (seq![variant@] + p.0)
                                =~= variants_view(variants@.push(variant)) + p.0);
                        }
                    }
                    variants.push(variant);
                    i = span.end;
                },
            }
        } else {
            return Err(
                ParseError::UnexpectedToken {
                    expected: Expected::VariantNameOrClosingBrace,
                    actual: kind,
                    span: tokens[i].span,
                },
            );
        }
    }
}

} // verus!
