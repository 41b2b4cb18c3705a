//! Field types and their parsers: the `String` type with its optional
//! literal constant, and the quoted multi-line string scanner.
//!
//! Each function returns exactly what its `spec_parse_*` counterpart in
//! [`crate::grammar`] describes, together with the half-open token-index
//! range it consumed.

use vstd::prelude::*;
use vstd::string::StringExecFns;

use crate::errors::Expected;
use crate::errors::ParseContext;
use crate::errors::ParseError;
use crate::grammar::lemma_parse_multiline_bounds;
use crate::grammar::spec_parse_multiline_string;
use crate::grammar::spec_parse_string;
use crate::grammar::spec_parse_string_close;
use crate::grammar::spec_parse_string_literal;
use crate::grammar::spec_parse_variable_type;
use crate::grammar::spec_multiline_body;
use crate::grammar::SpecVariableType;
use crate::helpers::lemma_next_significant_bounds;
use crate::helpers::next_token_with_index;
use crate::tokens::tokens_view;
use crate::tokens::Span;
use crate::tokens::TokenDeclaration;
use crate::tokens::TokenType;

verus! {

/// A field's type.  `String` may carry a literal constant; the other
/// primitive type keywords are recognized lexically but have no literal
/// grammar yet.
#[derive(Debug, PartialEq)]
pub enum VariableType {
    String(Option<String>),
}

impl View for VariableType {
    type V = SpecVariableType;

    open spec fn view(&self) -> SpecVariableType {
        match self {
            VariableType::String(literal) => SpecVariableType::String(
                match literal {
                    Some(s) => Some(s@),
                    None => None,
                },
            ),
        }
    }
}

/// Parses a quoted, possibly multi-line, string starting at its opening
/// quote token.  The literal is the concatenation of the verbatim texts of
/// every token between the two quotes, so interior whitespace is preserved
/// exactly; the returned range runs from the opening quote through the
/// closing quote.  Reaching the end of the stream without a closing quote
/// is an `UnterminatedStringLiteral`.
#[verifier::loop_isolation(false)]
pub fn parse_multiline_string(tokens: &Vec<TokenDeclaration>, start_index: usize) -> (r: Result<
    (String, Span),
    ParseError,
>)
    ensures
        ({
            let ts = tokens_view(tokens@);
            match spec_parse_multiline_string(ts, start_index as int) {
                Ok(p) => r matches Ok(q) && q.0@ == p.0 && q.1.start == start_index && q.1.end
                    == p.1,
                Err(e) => r matches Err(e2) && e2 == e,
            }
        }),
{
    let ghost ts = tokens_view(tokens@);
    if start_index >= tokens.len() {
        return Err(ParseError::UnexpectedEndOfInput { context: ParseContext::StringLiteral });
    }
    if tokens[start_index].token_type != TokenType::Quotes {
        return Err(
            ParseError::UnexpectedToken {
                expected: Expected::Quote,
                actual: tokens[start_index].token_type,
                span: tokens[start_index].span,
            },
        );
    }
    let opening = tokens[start_index].span;
    let mut result = String::new();
    let mut i = start_index + 1;
    loop
        invariant
            start_index + 1 <= i <= tokens.len(),
            match spec_multiline_body(ts, i as int, opening) {
                Ok(p) => spec_multiline_body(ts, (start_index + 1) as int, opening) == Ok::<
                    (Seq<char>, int),
                    ParseError,
                >((result@ + p.0, p.1)),
                Err(e) => spec_multiline_body(ts, (start_index + 1) as int, opening) == Err::<
                    (Seq<char>, int),
                    ParseError,
                >(e),
            },
        decreases tokens@.len() - i,
    {
        if i >= tokens.len() {
            return Err(ParseError::UnterminatedStringLiteral { opening });
        }
        if tokens[i].token_type == TokenType::Quotes {
            assert(result@ + Seq::<char>::empty() =~= result@);
            return Ok((result, Span { start: start_index, end: i + 1 }));
        }
        let ghost before = result@;
        match &tokens[i].value {
            Some(v) => result.append(v.as_str()),
            None => (),
        }
        assert(result@ == before + ts[i as int].text);
        proof {
            if let Ok(p) = spec_multiline_body(ts, i + 1, opening) {
                assert(before + (ts[i as int].text + p.0) =~= result@ + p.0);
            }
        }
        i = i + 1;
    }
}

/// Parses the literal constant of a `String` type, starting at the `{`
/// after the keyword: a bare text token or a quoted string, then the
/// closing `}`.  `brace` is the `{`'s index and `type_at` the keyword's,
/// which the returned range starts at.
fn parse_string_literal(tokens: &Vec<TokenDeclaration>, brace: usize, type_at: usize) -> (r:
    Result<(VariableType, Span), ParseError>)
    ensures
        ({
            let ts = tokens_view(tokens@);
            match spec_parse_string_literal(ts, brace as int) {
                Ok(p) => r matches Ok(q) && q.0@ == p.0 && q.1.start == type_at && q.1.end == p.1,
                Err(e) => r matches Err(e2) && e2 == e,
            }
        }),
{
    let ghost ts = tokens_view(tokens@);
    proof {
        lemma_next_significant_bounds(ts, brace as int, 1);
    }
    let (k, literal_token) = match next_token_with_index(tokens, brace, None) {
        Ok(p) => p,
        Err(_) => {
            return Err(ParseError::UnexpectedEndOfInput { context: ParseContext::VariableType });
        },
    };
    if literal_token.token_type == TokenType::Text {
        let text = match literal_token.value {
            Some(s) => s,
            None => String::new(),
        };
        assert(text@ == ts[k as int].text);
        parse_string_close(tokens, k, type_at, text, Ghost(ts[k as int].text))
    } else if literal_token.token_type == TokenType::Quotes {
        match parse_multiline_string(tokens, k) {
            Ok((text, span)) => {
                proof {
                    lemma_parse_multiline_bounds(ts, k as int);
                }
                parse_string_close(tokens, span.end - 1, type_at, text, Ghost(text@))
            },
            Err(e) => Err(e),
        }
    } else {
        Err(
            ParseError::UnexpectedToken {
                expected: Expected::LiteralValue,
                actual: literal_token.token_type,
                span: literal_token.span,
            },
        )
    }
}

/// The `}` closing a literal constant; `last` is the literal's final token
/// and `type_at` the `String` keyword the returned range starts at.
fn parse_string_close(
    tokens: &Vec<TokenDeclaration>,
    last: usize,
    type_at: usize,
    text: String,
    Ghost(spec_text): Ghost<Seq<char>>,
) -> (r: Result<(VariableType, Span), ParseError>)
    requires
        text@ == spec_text,
    ensures
        ({
            let ts = tokens_view(tokens@);
            match spec_parse_string_close(ts, last as int, spec_text) {
                Ok(p) => r matches Ok(q) && q.0@ == p.0 && q.1.start == type_at && q.1.end == p.1,
                Err(e) => r matches Err(e2) && e2 == e,
            }
        }),
{
    let ghost ts = tokens_view(tokens@);
    proof {
        lemma_next_significant_bounds(ts, last as int, 1);
    }
    let (m, close_token) = match next_token_with_index(tokens, last, None) {
        Ok(p) => p,
        Err(_) => {
            return Err(ParseError::UnexpectedEndOfInput { context: ParseContext::VariableType });
        },
    };
    if close_token.token_type == TokenType::LeftCurlyBraces {
        let n = tokens.len();
        assert(m < n);
        Ok((VariableType::String(Some(text)), Span { start: type_at, end: m + 1 }))
    } else {
        Err(
            ParseError::UnexpectedToken {
                expected: Expected::ClosingBrace,
                actual: close_token.token_type,
                span: close_token.span,
            },
        )
    }
}

/// Parses a `String` type at its keyword.  A `String` directly followed
/// (modulo whitespace) by `;` is a plain string type with no literal, and
/// the consumed range is exactly the keyword token; a following `{` opens
/// a required literal constant; anything else is an `UnexpectedToken`.
pub fn parse_string(tokens: &Vec<TokenDeclaration>, start_index: usize) -> (r: Result<
    (VariableType, Span),
    ParseError,
>)
    ensures
        ({
            let ts = tokens_view(tokens@);
            match spec_parse_string(ts, start_index as int) {
                Ok(p) => r matches Ok(q) && q.0@ == p.0 && q.1.start == start_index && q.1.end
                    == p.1,
                Err(e) => r matches Err(e2) && e2 == e,
            }
        }),
{
    let ghost ts = tokens_view(tokens@);
    if start_index >= tokens.len() {
        return Err(ParseError::UnexpectedEndOfInput { context: ParseContext::VariableType });
    }
    if tokens[start_index].token_type != TokenType::StringType {
        return Err(
            ParseError::UnexpectedToken {
                expected: Expected::TypeKeyword,
                actual: tokens[start_index].token_type,
                span: tokens[start_index].span,
            },
        );
    }
    proof {
        lemma_next_significant_bounds(ts, start_index as int, 1);
    }
    let (j, following) = match next_token_with_index(tokens, start_index, None) {
        Ok(p) => p,
        Err(_) => {
            return Err(ParseError::UnexpectedEndOfInput { context: ParseContext::VariableType });
        },
    };
    if following.token_type == TokenType::Semicolon {
        Ok((VariableType::String(None), Span { start: start_index, end: start_index + 1 }))
    } else if following.token_type == TokenType::RightCurlyBraces {
        parse_string_literal(tokens, j, start_index)
    } else {
        Err(
            ParseError::UnexpectedToken {
                expected: Expected::SemicolonOrOpeningBrace,
                actual: following.token_type,
                span: following.span,
            },
        )
    }
}

/// Dispatches a field type on its keyword token.  Only `String` has a
/// grammar; any other token is an `UnexpectedToken` naming the keyword set.
pub fn parse_variable_type(tokens: &Vec<TokenDeclaration>, start_index: usize) -> (r: Result<
    (VariableType, Span),
    ParseError,
>)
    ensures
        ({
            let ts = tokens_view(tokens@);
            match spec_parse_variable_type(ts, start_index as int) {
                Ok(p) => r matches Ok(q) && q.0@ == p.0 && q.1.start == start_index && q.1.end
                    == p.1,
                Err(e) => r matches Err(e2) && e2 == e,
            }
        }),
{
    if start_index >= tokens.len() {
        return Err(ParseError::UnexpectedEndOfInput { context: ParseContext::VariableType });
    }
    if tokens[start_index].token_type == TokenType::StringType {
        parse_string(tokens, start_index)
    } else {
        Err(
            ParseError::UnexpectedToken {
                expected: Expected::TypeKeyword,
                actual: tokens[start_index].token_type,
                span: tokens[start_index].span,
            },
        )
    }
}

} // verus!
