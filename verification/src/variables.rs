//! Interface fields and their parser.
//!
//! A field is `("required" | "optional") Name ":" Type ";"`.  Exactly one
//! modifier is accepted: a second modifier token before the name, same or
//! opposite, is a [`ParseError::DuplicateModifier`], distinct from the other
//! `UnexpectedToken` cases so callers can produce a specific diagnostic.

use vstd::prelude::*;

use crate::errors::Expected;
use crate::errors::ParseContext;
use crate::errors::ParseError;
use crate::grammar::lemma_parse_variable_type_bounds;
use crate::grammar::spec_parse_variable;
use crate::grammar::spec_parse_variable_rest;
use crate::grammar::SpecVariable;
use crate::helpers::lemma_next_significant_bounds;
use crate::helpers::next_token_with_index;
use crate::tokens::tokens_view;
use crate::tokens::Span;
use crate::tokens::TokenDeclaration;
use crate::tokens::TokenType;
use crate::types::parse_variable_type;
use crate::types::VariableType;

verus! {

/// One typed field of an interface.
#[derive(Debug)]
pub struct InterfaceVariable {
    pub name: String,
    pub variable_type: VariableType,
    pub is_required: bool,
}

impl View for InterfaceVariable {
    type V = SpecVariable;

    open spec fn view(&self) -> SpecVariable {
        SpecVariable {
            name: self.name@,
            variable_type: self.variable_type@,
            is_required: self.is_required,
        }
    }
}

/// The views of a field sequence.
pub open spec fn variables_view(vs: Seq<InterfaceVariable>) -> Seq<SpecVariable> {
    vs.map_values(|v: InterfaceVariable| v@)
}

/// Parses a field declaration at its `required`/`optional` modifier token
/// and returns the field with the half-open token-index range it consumed,
/// from the modifier through the terminating `;`.
pub fn parse_variable(tokens: &Vec<TokenDeclaration>, start_index: usize) -> (r: Result<
    (InterfaceVariable, Span),
    ParseError,
>)
    ensures
        ({
            let ts = tokens_view(tokens@);
            match spec_parse_variable(ts, start_index as int) {
                Ok(p) => r matches Ok(q) && q.0@ == p.0 && q.1.start == start_index && q.1.end
                    == p.1,
                Err(e) => r matches Err(e2) && e2 == e,
            }
        }),
{
    let ghost ts = tokens_view(tokens@);
    if start_index >= tokens.len() {
        return Err(ParseError::UnexpectedEndOfInput { context: ParseContext::Variable });
    }
    let modifier = tokens[start_index].token_type;
    if modifier != TokenType::RequiredModifier && modifier != TokenType::OptionalModifier {
        return Err(
            ParseError::UnexpectedToken {
                expected: Expected::Modifier,
                actual: modifier,
                span: tokens[start_index].span,
            },
        );
    }
    let is_required = modifier == TokenType::RequiredModifier;
    proof {
        lemma_next_significant_bounds(ts, start_index as int, 1);
    }
    let (name_at, name_token) = match next_token_with_index(tokens, start_index, None) {
        Ok(p) => p,
        Err(_) => {
            return Err(ParseError::UnexpectedEndOfInput { context: ParseContext::Variable });
        },
    };
    if name_token.token_type == TokenType::RequiredModifier || name_token.token_type
        == TokenType::OptionalModifier {
        return Err(ParseError::DuplicateModifier { span: name_token.span });
    }
    if name_token.token_type != TokenType::Text {
        return Err(
            ParseError::UnexpectedToken {
                expected: Expected::Name,
                actual: name_token.token_type,
                span: name_token.span,
            },
        );
    }
    let name = match name_token.value {
        Some(s) => s,
        None => String::new(),
    };
    assert(name@ == ts[name_at as int].text);
    proof {
        lemma_next_significant_bounds(ts, name_at as int, 1);
    }
    let (connector_at, connector) = match next_token_with_index(tokens, name_at, None) {
        Ok(p) => p,
        Err(_) => {
            return Err(ParseError::UnexpectedEndOfInput { context: ParseContext::Variable });
        },
    };
    if connector.token_type != TokenType::VariableConnection {
        return Err(
            ParseError::UnexpectedToken {
                expected: Expected::Connector,
                actual: connector.token_type,
                span: connector.span,
            },
        );
    }
    proof {
        lemma_next_significant_bounds(ts, connector_at as int, 1);
    }
    let (type_at, _) = match next_token_with_index(tokens, connector_at, None) {
        Ok(p) => p,
        Err(_) => {
            return Err(ParseError::UnexpectedEndOfInput { context: ParseContext::Variable });
        },
    };
    let (variable_type, type_span) = match parse_variable_type(tokens, type_at) {
        Ok(p) => p,
        Err(e) => {
            return Err(e);
        },
    };
    proof {
        lemma_parse_variable_type_bounds(ts, type_at as int);
        lemma_next_significant_bounds(ts, type_span.end as int - 1, 1);
    }
    let (semicolon_at, semicolon) = match next_token_with_index(tokens, type_span.end - 1, None) {
        Ok(p) => p,
        Err(_) => {
            return Err(ParseError::UnexpectedEndOfInput { context: ParseContext::Variable });
        },
    };
    if semicolon.token_type != TokenType::Semicolon {
        return Err(
            ParseError::UnexpectedToken {
                expected: Expected::Semicolon,
                actual: semicolon.token_type,
                span: semicolon.span,
            },
        );
    }
    let variable = InterfaceVariable { name, variable_type, is_required };
    assert(spec_parse_variable(ts, start_index as int) == spec_parse_variable_rest(
        ts,
        start_index as int,
        name_at as int,
        is_required,
    ));
    Ok((variable, Span { start: start_index, end: semicolon_at + 1 }))
}

} // verus!
