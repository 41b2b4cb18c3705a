//! The grammar, as mathematics.
//!
//! Every parsing function of the library is proved to return exactly what the
//! corresponding `spec_parse_*` function here describes: the same tree on
//! success and the same typed error on failure.  The functions operate over
//! the token views ([`SpecToken`]) of the lexer's output, scan strictly
//! forward, and on success return the parsed value together with the
//! exclusive token index one past the last token the construct consumed.
//!
//! Grammar, with `(ws)` for ignored whitespace:
//! ```text
//! Program   ::= (Interface | Enum)*
//! Interface ::= "interface" Name "{" Body* "}" ";"
//! Body      ::= Variable | Interface | Enum
//! Variable  ::= ("required" | "optional") Name ":" Type ";"
//! Type      ::= "String" [ "{" (Text | QuotedString) "}" ]
//! Enum      ::= "enum" Name "{" Variant* "}" ";"
//! Variant   ::= Name ":" (Text | QuotedString) ";"
//! QuotedString ::= '"' anything* '"'
//! ```

use vstd::prelude::*;

use crate::errors::Expected;
use crate::errors::ParseContext;
use crate::errors::ParseError;
use crate::helpers::lemma_next_significant_bounds;
use crate::helpers::next_significant;
use crate::tokens::Span;
use crate::tokens::SpecToken;
use crate::tokens::TokenType;

verus! {

/// A field's mathematical value: name, type, and whether it is required.
#[verifier::ext_equal]
pub struct SpecVariable {
    pub name: Seq<char>,
    pub variable_type: SpecVariableType,
    pub is_required: bool,
}

/// A field type's mathematical value.
#[verifier::ext_equal]
pub enum SpecVariableType {
    /// A string-typed field, with its literal constant where one is given.
    String(Option<Seq<char>>),
}

/// An enum variant's mathematical value: name and optional value.
#[verifier::ext_equal]
pub struct SpecEnumVariant {
    pub name: Seq<char>,
    pub value: Option<Seq<char>>,
}

/// An enumeration's mathematical value.
#[verifier::ext_equal]
pub struct SpecEnum {
    pub name: Seq<char>,
    pub variants: Seq<SpecEnumVariant>,
}

/// An interface's mathematical value: name and fields, in source order.
#[verifier::ext_equal]
pub struct SpecInterface {
    pub name: Seq<char>,
    pub variables: Seq<SpecVariable>,
}

/// What a node holds: an interface or an enumeration.
#[verifier::ext_equal]
pub enum SpecEntity {
    Interface(SpecInterface),
    Enum(SpecEnum),
}

/// A tree node's mathematical value: the half-open token-index range it
/// consumed, its nested nodes in source order, and its entity.
#[verifier::ext_equal]
pub struct SpecNode {
    pub start: int,
    pub end: int,
    pub nodes: Seq<SpecNode>,
    pub entity: SpecEntity,
}

/// Where a body scan resumes after a sub-construct that consumed the tokens
/// `[i, end)`: at `end`.  Clamped so that the scan always advances and stays
/// within the stream; the clamps never bind, since every parser consumes at
/// least one token and stops within the stream.
pub open spec fn next_scan_index(i: int, end: int, len: int) -> int {
    let j = if end > i + 1 {
        end
    } else {
        i + 1
    };
    if j > len {
        len
    } else {
        j
    }
}

/// Parses a quoted, possibly multi-line, string starting at its opening
/// quote.  The literal's text is the concatenation of the verbatim texts of
/// every token between the two quote tokens, so interior whitespace is
/// preserved exactly as written.
pub open spec fn spec_parse_multiline_string(ts: Seq<SpecToken>, start: int) -> Result<
    (Seq<char>, int),
    ParseError,
>
    decreases ts.len() - start, 1int,
{
    if !(0 <= start < ts.len()) {
        Err(ParseError::UnexpectedEndOfInput { context: ParseContext::StringLiteral })
    } else if ts[start].kind != TokenType::Quotes {
        Err(
            ParseError::UnexpectedToken {
                expected: Expected::Quote,
                actual: ts[start].kind,
                span: ts[start].span,
            },
        )
    } else {
        spec_multiline_body(ts, start + 1, ts[start].span)
    }
}

/// The scan inside a quoted string: everything up to the closing quote is
/// the literal, verbatim.
pub open spec fn spec_multiline_body(ts: Seq<SpecToken>, i: int, opening: Span) -> Result<
    (Seq<char>, int),
    ParseError,
>
    decreases ts.len() - i, 0int,
{
    if !(0 <= i < ts.len()) {
        Err(ParseError::UnterminatedStringLiteral { opening })
    } else if ts[i].kind == TokenType::Quotes {
        Ok((Seq::empty(), i + 1))
    } else {
        match spec_multiline_body(ts, i + 1, opening) {
            Ok((rest, end)) => Ok((ts[i].text + rest, end)),
            Err(e) => Err(e),
        }
    }
}

/// Parses a `String` type at its keyword: either a plain type (directly
/// followed by `;`, which is not consumed) or a literal constant in braces.
pub open spec fn spec_parse_string(ts: Seq<SpecToken>, start: int) -> Result<
    (SpecVariableType, int),
    ParseError,
>
    decreases ts.len() - start, 1int,
    via spec_parse_string_decreases
{
    if !(0 <= start < ts.len()) {
        Err(ParseError::UnexpectedEndOfInput { context: ParseContext::VariableType })
    } else if ts[start].kind != TokenType::StringType {
        Err(
            ParseError::UnexpectedToken {
                expected: Expected::TypeKeyword,
                actual: ts[start].kind,
                span: ts[start].span,
            },
        )
    } else {
        match next_significant(ts, start, 1) {
            None => Err(ParseError::UnexpectedEndOfInput { context: ParseContext::VariableType }),
            Some(j) => {
                if ts[j].kind == TokenType::Semicolon {
                    Ok((SpecVariableType::String(None), start + 1))
                } else if ts[j].kind == TokenType::RightCurlyBraces {
                    spec_parse_string_literal(ts, j)
                } else {
                    Err(
                        ParseError::UnexpectedToken {
                            expected: Expected::SemicolonOrOpeningBrace,
                            actual: ts[j].kind,
                            span: ts[j].span,
                        },
                    )
                }
            },
        }
    }
}

/// Parses the literal constant of a `String` type, starting at the `{` that
/// follows the keyword: a bare text token or a quoted string, then the
/// closing `}`.
pub open spec fn spec_parse_string_literal(ts: Seq<SpecToken>, brace: int) -> Result<
    (SpecVariableType, int),
    ParseError,
>
    decreases ts.len() - brace, 0int,
    via spec_parse_string_literal_decreases
{
    match next_significant(ts, brace, 1) {
        None => Err(ParseError::UnexpectedEndOfInput { context: ParseContext::VariableType }),
        Some(k) => {
            if ts[k].kind == TokenType::Text {
                spec_parse_string_close(ts, k, ts[k].text)
            } else if ts[k].kind == TokenType::Quotes {
                match spec_parse_multiline_string(ts, k) {
                    Ok((text, mend)) => spec_parse_string_close(ts, mend - 1, text),
                    Err(e) => Err(e),
                }
            } else {
                Err(
                    ParseError::UnexpectedToken {
                        expected: Expected::LiteralValue,
                        actual: ts[k].kind,
                        span: ts[k].span,
                    },
                )
            }
        },
    }
}

/// The `}` after a literal constant; `last` is the literal's last token.
pub open spec fn spec_parse_string_close(ts: Seq<SpecToken>, last: int, text: Seq<char>) -> Result<
    (SpecVariableType, int),
    ParseError,
> {
    match next_significant(ts, last, 1) {
        None => Err(ParseError::UnexpectedEndOfInput { context: ParseContext::VariableType }),
        Some(m) => {
            if ts[m].kind == TokenType::LeftCurlyBraces {
                Ok((SpecVariableType::String(Some(text)), m + 1))
            } else {
                Err(
                    ParseError::UnexpectedToken {
                        expected: Expected::ClosingBrace,
                        actual: ts[m].kind,
                        span: ts[m].span,
                    },
                )
            }
        },
    }
}

/// Dispatches on a type keyword.  Only `String` has a grammar; the other
/// type keywords are recognized lexically but have no literal grammar yet.
pub open spec fn spec_parse_variable_type(ts: Seq<SpecToken>, start: int) -> Result<
    (SpecVariableType, int),
    ParseError,
>
    decreases ts.len() - start, 2int,
{
    if !(0 <= start < ts.len()) {
        Err(ParseError::UnexpectedEndOfInput { context: ParseContext::VariableType })
    } else if ts[start].kind == TokenType::StringType {
        spec_parse_string(ts, start)
    } else {
        Err(
            ParseError::UnexpectedToken {
                expected: Expected::TypeKeyword,
                actual: ts[start].kind,
                span: ts[start].span,
            },
        )
    }
}

/// Parses a field declaration at its `required`/`optional` modifier.
/// Exactly one modifier is accepted: a second modifier token, same or
/// opposite, before the name is a `DuplicateModifier` error.
pub open spec fn spec_parse_variable(ts: Seq<SpecToken>, start: int) -> Result<
    (SpecVariable, int),
    ParseError,
>
    decreases ts.len() - start, 3int,
    via spec_parse_variable_decreases
{
    if !(0 <= start < ts.len()) {
        Err(ParseError::UnexpectedEndOfInput { context: ParseContext::Variable })
    } else if ts[start].kind != TokenType::RequiredModifier && ts[start].kind
        != TokenType::OptionalModifier {
        Err(
            ParseError::UnexpectedToken {
                expected: Expected::Modifier,
                actual: ts[start].kind,
                span: ts[start].span,
            },
        )
    } else {
        let required = ts[start].kind == TokenType::RequiredModifier;
        match next_significant(ts, start, 1) {
            None => Err(ParseError::UnexpectedEndOfInput { context: ParseContext::Variable }),
            Some(j) => {
                if ts[j].kind == TokenType::RequiredModifier || ts[j].kind
                    == TokenType::OptionalModifier {
                    Err(ParseError::DuplicateModifier { span: ts[j].span })
                } else if ts[j].kind != TokenType::Text {
                    Err(
                        ParseError::UnexpectedToken {
                            expected: Expected::Name,
                            actual: ts[j].kind,
                            span: ts[j].span,
                        },
                    )
                } else {
                    spec_parse_variable_rest(ts, start, j, required)
                }
            },
        }
    }
}

/// The connector, type and semicolon of a field declaration; `name_at` is
/// the index of the field's name token.
pub open spec fn spec_parse_variable_rest(
    ts: Seq<SpecToken>,
    start: int,
    name_at: int,
    required: bool,
) -> Result<(SpecVariable, int), ParseError>
    decreases ts.len() - name_at, 4int,
    via spec_parse_variable_rest_decreases
{
    if !(0 <= name_at < ts.len()) {
        Err(ParseError::UnexpectedEndOfInput { context: ParseContext::Variable })
    } else {
        match next_significant(ts, name_at, 1) {
            None => Err(ParseError::UnexpectedEndOfInput { context: ParseContext::Variable }),
            Some(c) => {
                if ts[c].kind != TokenType::VariableConnection {
                    Err(
                        ParseError::UnexpectedToken {
                            expected: Expected::Connector,
                            actual: ts[c].kind,
                            span: ts[c].span,
                        },
                    )
                } else {
                    match next_significant(ts, c, 1) {
                        None => Err(
                            ParseError::UnexpectedEndOfInput { context: ParseContext::Variable },
                        ),
                        Some(t) => match spec_parse_variable_type(ts, t) {
                            Err(e) => Err(e),
                            Ok((vt, tend)) => match next_significant(ts, tend - 1, 1) {
                                None => Err(
                                    ParseError::UnexpectedEndOfInput {
                                        context: ParseContext::Variable,
                                    },
                                ),
                                Some(s) => {
                                    if ts[s].kind == TokenType::Semicolon {
                                        Ok(
                                            (
                                                SpecVariable {
                                                    name: ts[name_at].text,
                                                    variable_type: vt,
                                                    is_required: required,
                                                },
                                                s + 1,
                                            ),
                                        )
                                    } else {
                                        Err(
                                            ParseError::UnexpectedToken {
                                                expected: Expected::Semicolon,
                                                actual: ts[s].kind,
                                                span: ts[s].span,
                                            },
                                        )
                                    }
                                },
                            },
                        },
                    }
                }
            },
        }
    }
}

/// Parses an enum variant at its name: `Name ":" (Text | QuotedString) ";"`.
/// The value is recorded verbatim, without resolving bare identifiers.
pub open spec fn spec_parse_variant(ts: Seq<SpecToken>, start: int) -> Result<
    (SpecEnumVariant, int),
    ParseError,
>
    decreases ts.len() - start, 3int,
    via spec_parse_variant_decreases
{
    if !(0 <= start < ts.len()) {
        Err(ParseError::UnexpectedEndOfInput { context: ParseContext::EnumVariant })
    } else if ts[start].kind != TokenType::Text {
        Err(
            ParseError::UnexpectedToken {
                expected: Expected::Name,
                actual: ts[start].kind,
                span: ts[start].span,
            },
        )
    } else {
        match next_significant(ts, start, 1) {
            None => Err(ParseError::UnexpectedEndOfInput { context: ParseContext::EnumVariant }),
            Some(c) => {
                if ts[c].kind != TokenType::VariableConnection {
                    Err(
                        ParseError::UnexpectedToken {
                            expected: Expected::Connector,
                            actual: ts[c].kind,
                            span: ts[c].span,
                        },
                    )
                } else {
                    match next_significant(ts, c, 1) {
                        None => Err(
                            ParseError::UnexpectedEndOfInput { context: ParseContext::EnumVariant },
                        ),
                        Some(v) => {
                            if ts[v].kind == TokenType::Text {
                                spec_parse_variant_close(ts, v, ts[start].text, ts[v].text)
                            } else if ts[v].kind == TokenType::Quotes {
                                match spec_parse_multiline_string(ts, v) {
                                    Ok((text, mend)) => spec_parse_variant_close(
                                        ts,
                                        mend - 1,
                                        ts[start].text,
                                        text,
                                    ),
                                    Err(e) => Err(e),
                                }
                            } else {
                                Err(
                                    ParseError::UnexpectedToken {
                                        expected: Expected::VariantValue,
                                        actual: ts[v].kind,
                                        span: ts[v].span,
                                    },
                                )
                            }
                        },
                    }
                }
            },
        }
    }
}

/// The semicolon ending an enum variant; `last` is the value's last token.
pub open spec fn spec_parse_variant_close(
    ts: Seq<SpecToken>,
    last: int,
    name: Seq<char>,
    value: Seq<char>,
) -> Result<(SpecEnumVariant, int), ParseError> {
    match next_significant(ts, last, 1) {
        None => Err(ParseError::UnexpectedEndOfInput { context: ParseContext::EnumVariant }),
        Some(s) => {
            if ts[s].kind == TokenType::Semicolon {
                Ok((SpecEnumVariant { name, value: Some(value) }, s + 1))
            } else {
                Err(
                    ParseError::UnexpectedToken {
                        expected: Expected::Semicolon,
                        actual: ts[s].kind,
                        span: ts[s].span,
                    },
                )
            }
        },
    }
}

/// Parses an enumeration declaration at its `enum` keyword.
pub open spec fn spec_parse_enum(ts: Seq<SpecToken>, start: int) -> Result<
    (SpecNode, int),
    ParseError,
>
    decreases ts.len() - start, 4int,
    via spec_parse_enum_decreases
{
    if !(0 <= start < ts.len()) {
        Err(ParseError::UnexpectedEndOfInput { context: ParseContext::EnumHeader })
    } else if ts[start].kind != TokenType::EnumerateDeclaration {
        Err(
            ParseError::UnexpectedToken {
                expected: Expected::EnumKeyword,
                actual: ts[start].kind,
                span: ts[start].span,
            },
        )
    } else {
        match next_significant(ts, start, 1) {
            None => Err(ParseError::UnexpectedEndOfInput { context: ParseContext::EnumHeader }),
            Some(n) => {
                if ts[n].kind != TokenType::Text {
                    Err(
                        ParseError::UnexpectedToken {
                            expected: Expected::Name,
                            actual: ts[n].kind,
                            span: ts[n].span,
                        },
                    )
                } else {
                    match next_significant(ts, n, 1) {
                        None => Err(
                            ParseError::UnexpectedEndOfInput { context: ParseContext::EnumHeader },
                        ),
                        Some(b) => {
                            if ts[b].kind != TokenType::RightCurlyBraces {
                                Err(
                                    ParseError::UnexpectedToken {
                                        expected: Expected::OpeningBrace,
                                        actual: ts[b].kind,
                                        span: ts[b].span,
                                    },
                                )
                            } else {
                                match spec_parse_enum_body(ts, b + 1, ts[b].span) {
                                    Err(e) => Err(e),
                                    Ok((variants, close)) => match next_significant(ts, close, 1) {
                                        None => Err(
                                            ParseError::UnterminatedBlock { opening: ts[b].span },
                                        ),
                                        Some(s) => {
                                            if ts[s].kind == TokenType::Semicolon {
                                                Ok(
                                                    (
                                                        SpecNode {
                                                            start,
                                                            end: s + 1,
                                                            nodes: Seq::empty(),
                                                            entity: SpecEntity::Enum(
                                                                SpecEnum {
                                                                    name: ts[n].text,
                                                                    variants,
                                                                },
                                                            ),
                                                        },
                                                        s + 1,
                                                    ),
                                                )
                                            } else {
                                                Err(
                                                    ParseError::UnterminatedBlock {
                                                        opening: ts[b].span,
                                                    },
                                                )
                                            }
                                        },
                                    },
                                }
                            }
                        },
                    }
                }
            },
        }
    }
}

/// The body of an enumeration: variants until the closing `}`, whose index
/// is returned.  Running out of tokens before the `}` is an unterminated
/// block, reported with the span of the `{` that opened it.
pub open spec fn spec_parse_enum_body(ts: Seq<SpecToken>, i: int, opening: Span) -> Result<
    (Seq<SpecEnumVariant>, int),
    ParseError,
>
    decreases ts.len() - i, 5int,
{
    if !(0 <= i < ts.len()) {
        Err(ParseError::UnterminatedBlock { opening })
    } else if ts[i].kind == TokenType::Whitespace {
        spec_parse_enum_body(ts, i + 1, opening)
    } else if ts[i].kind == TokenType::LeftCurlyBraces {
        Ok((Seq::empty(), i))
    } else if ts[i].kind == TokenType::Text {
        match spec_parse_variant(ts, i) {
            Err(e) => Err(e),
            Ok((variant, end)) => match spec_parse_enum_body(
                ts,
                next_scan_index(i, end, ts.len() as int),
                opening,
            ) {
                Err(e) => Err(e),
                Ok((variants, close)) => Ok((seq![variant] + variants, close)),
            },
        }
    } else {
        Err(
            ParseError::UnexpectedToken {
                expected: Expected::VariantNameOrClosingBrace,
                actual: ts[i].kind,
                span: ts[i].span,
            },
        )
    }
}

/// Parses an interface declaration at its `interface` keyword.
pub open spec fn spec_parse_interface(ts: Seq<SpecToken>, start: int) -> Result<
    (SpecNode, int),
    ParseError,
>
    decreases ts.len() - start, 4int,
    via spec_parse_interface_decreases
{
    if !(0 <= start < ts.len()) {
        Err(ParseError::UnexpectedEndOfInput { context: ParseContext::InterfaceHeader })
    } else if ts[start].kind != TokenType::InterfaceDeclaration {
        Err(
            ParseError::UnexpectedToken {
                expected: Expected::InterfaceKeyword,
                actual: ts[start].kind,
                span: ts[start].span,
            },
        )
    } else {
        match next_significant(ts, start, 1) {
            None => Err(
                ParseError::UnexpectedEndOfInput { context: ParseContext::InterfaceHeader },
            ),
            Some(n) => {
                if ts[n].kind != TokenType::Text {
                    Err(
                        ParseError::UnexpectedToken {
                            expected: Expected::Name,
                            actual: ts[n].kind,
                            span: ts[n].span,
                        },
                    )
                } else {
                    match next_significant(ts, n, 1) {
                        None => Err(
                            ParseError::UnexpectedEndOfInput {
                                context: ParseContext::InterfaceHeader,
                            },
                        ),
                        Some(b) => {
                            if ts[b].kind != TokenType::RightCurlyBraces {
                                Err(
                                    ParseError::UnexpectedToken {
                                        expected: Expected::OpeningBrace,
                                        actual: ts[b].kind,
                                        span: ts[b].span,
                                    },
                                )
                            } else {
                                match spec_parse_interface_body(ts, b + 1, ts[b].span) {
                                    Err(e) => Err(e),
                                    Ok((nodes, variables, close)) => match next_significant(
                                        ts,
                                        close,
                                        1,
                                    ) {
                                        None => Err(
                                            ParseError::UnterminatedBlock { opening: ts[b].span },
                                        ),
                                        Some(s) => {
                                            if ts[s].kind == TokenType::Semicolon {
                                                Ok(
                                                    (
                                                        SpecNode {
                                                            start,
                                                            end: s + 1,
                                                            nodes,
                                                            entity: SpecEntity::Interface(
                                                                SpecInterface {
                                                                    name: ts[n].text,
                                                                    variables,
                                                                },
                                                            ),
                                                        },
                                                        s + 1,
                                                    ),
                                                )
                                            } else {
                                                Err(
                                                    ParseError::UnterminatedBlock {
                                                        opening: ts[b].span,
                                                    },
                                                )
                                            }
                                        },
                                    },
                                }
                            }
                        },
                    }
                }
            },
        }
    }
}

/// The body of an interface: fields, nested interfaces and nested enums
/// until the closing `}`, whose index is returned.  Fields keep their own
/// order and nested nodes theirs; the two orders are independent.
pub open spec fn spec_parse_interface_body(ts: Seq<SpecToken>, i: int, opening: Span) -> Result<
    (Seq<SpecNode>, Seq<SpecVariable>, int),
    ParseError,
>
    decreases ts.len() - i, 5int,
{
    if !(0 <= i < ts.len()) {
        Err(ParseError::UnterminatedBlock { opening })
    } else if ts[i].kind == TokenType::Whitespace {
        spec_parse_interface_body(ts, i + 1, opening)
    } else if ts[i].kind == TokenType::LeftCurlyBraces {
        Ok((Seq::empty(), Seq::empty(), i))
    } else if ts[i].kind == TokenType::RequiredModifier || ts[i].kind
        == TokenType::OptionalModifier {
        match spec_parse_variable(ts, i) {
            Err(e) => Err(e),
            Ok((variable, end)) => match spec_parse_interface_body(
                ts,
                next_scan_index(i, end, ts.len() as int),
                opening,
            ) {
                Err(e) => Err(e),
                Ok((nodes, variables, close)) => Ok((nodes, seq![variable] + variables, close)),
            },
        }
    } else if ts[i].kind == TokenType::InterfaceDeclaration {
        match spec_parse_interface(ts, i) {
            Err(e) => Err(e),
            Ok((child, end)) => match spec_parse_interface_body(
                ts,
                next_scan_index(i, end, ts.len() as int),
                opening,
            ) {
                Err(e) => Err(e),
                Ok((nodes, variables, close)) => Ok((seq![child] + nodes, variables, close)),
            },
        }
    } else if ts[i].kind == TokenType::EnumerateDeclaration {
        match spec_parse_enum(ts, i) {
            Err(e) => Err(e),
            Ok((child, end)) => match spec_parse_interface_body(
                ts,
                next_scan_index(i, end, ts.len() as int),
                opening,
            ) {
                Err(e) => Err(e),
                Ok((nodes, variables, close)) => Ok((seq![child] + nodes, variables, close)),
            },
        }
    } else {
        Err(
            ParseError::UnexpectedToken {
                expected: Expected::BodyItem,
                actual: ts[i].kind,
                span: ts[i].span,
            },
        )
    }
}

/// Parses a whole program: top-level interfaces and enums, in order.
/// Whitespace between declarations is skipped; any other token outside a
/// declaration is an unknown top-level construct.
pub open spec fn spec_parse_top(ts: Seq<SpecToken>, i: int) -> Result<Seq<SpecNode>, ParseError>
    decreases ts.len() - i, 5int,
{
    if !(0 <= i < ts.len()) {
        Ok(Seq::empty())
    } else if ts[i].kind == TokenType::Whitespace {
        spec_parse_top(ts, i + 1)
    } else if ts[i].kind == TokenType::InterfaceDeclaration {
        match spec_parse_interface(ts, i) {
            Err(e) => Err(e),
            Ok((node, end)) => match spec_parse_top(ts, next_scan_index(i, end, ts.len() as int)) {
                Err(e) => Err(e),
                Ok(nodes) => Ok(seq![node] + nodes),
            },
        }
    } else if ts[i].kind == TokenType::EnumerateDeclaration {
        match spec_parse_enum(ts, i) {
            Err(e) => Err(e),
            Ok((node, end)) => match spec_parse_top(ts, next_scan_index(i, end, ts.len() as int)) {
                Err(e) => Err(e),
                Ok(nodes) => Ok(seq![node] + nodes),
            },
        }
    } else {
        Err(ParseError::UnknownTopLevelConstruct { span: ts[i].span })
    }
}


#[via_fn]
proof fn spec_parse_string_decreases(ts: Seq<SpecToken>, start: int) {
    lemma_next_significant_bounds(ts, start, 1);
}

#[via_fn]
proof fn spec_parse_string_literal_decreases(ts: Seq<SpecToken>, brace: int) {
    lemma_next_significant_bounds(ts, brace, 1);
}

#[via_fn]
proof fn spec_parse_variable_decreases(ts: Seq<SpecToken>, start: int) {
    lemma_next_significant_bounds(ts, start, 1);
}

#[via_fn]
proof fn spec_parse_variable_rest_decreases(
    ts: Seq<SpecToken>,
    start: int,
    name_at: int,
    required: bool,
) {
    lemma_next_significant_bounds(ts, name_at, 1);
    if let Some(c) = next_significant(ts, name_at, 1) {
        lemma_next_significant_bounds(ts, c, 1);
    }
}

#[via_fn]
proof fn spec_parse_variant_decreases(ts: Seq<SpecToken>, start: int) {
    lemma_next_significant_bounds(ts, start, 1);
    if let Some(c) = next_significant(ts, start, 1) {
        lemma_next_significant_bounds(ts, c, 1);
    }
}

#[via_fn]
proof fn spec_parse_enum_decreases(ts: Seq<SpecToken>, start: int) {
    lemma_next_significant_bounds(ts, start, 1);
    if let Some(n) = next_significant(ts, start, 1) {
        lemma_next_significant_bounds(ts, n, 1);
    }
}

#[via_fn]
proof fn spec_parse_interface_decreases(ts: Seq<SpecToken>, start: int) {
    lemma_next_significant_bounds(ts, start, 1);
    if let Some(n) = next_significant(ts, start, 1) {
        lemma_next_significant_bounds(ts, n, 1);
    }
}


/// Every successful parse consumes at least one token and stops within the
/// stream: the returned exclusive end index lies in `(start, ts.len()]`.
/// One lemma per grammar rule, proved by mutual induction below.
pub proof fn lemma_multiline_body_bounds(ts: Seq<SpecToken>, i: int, opening: Span)
    ensures
        spec_multiline_body(ts, i, opening) matches Ok(p) ==> i < p.1 <= ts.len(),
    decreases ts.len() - i, 0int,
{
    if 0 <= i < ts.len() && ts[i].kind != TokenType::Quotes {
        lemma_multiline_body_bounds(ts, i + 1, opening);
    }
}

pub proof fn lemma_parse_multiline_bounds(ts: Seq<SpecToken>, start: int)
    ensures
        spec_parse_multiline_string(ts, start) matches Ok(p) ==> start + 2 <= p.1 <= ts.len(),
{
    if 0 <= start < ts.len() && ts[start].kind == TokenType::Quotes {
        lemma_multiline_body_bounds(ts, start + 1, ts[start].span);
    }
}

pub proof fn lemma_parse_string_close_bounds(ts: Seq<SpecToken>, last: int, text: Seq<char>)
    ensures
        spec_parse_string_close(ts, last, text) matches Ok(p) ==> last + 1 < p.1 <= ts.len(),
{
    lemma_next_significant_bounds(ts, last, 1);
}

pub proof fn lemma_parse_string_literal_bounds(ts: Seq<SpecToken>, brace: int)
    ensures
        spec_parse_string_literal(ts, brace) matches Ok(p) ==> brace < p.1 <= ts.len(),
{
    lemma_next_significant_bounds(ts, brace, 1);
    if let Some(k) = next_significant(ts, brace, 1) {
        if ts[k].kind == TokenType::Text {
            lemma_parse_string_close_bounds(ts, k, ts[k].text);
        } else if ts[k].kind == TokenType::Quotes {
            lemma_parse_multiline_bounds(ts, k);
            if let Ok((text, mend)) = spec_parse_multiline_string(ts, k) {
                lemma_parse_string_close_bounds(ts, mend - 1, text);
            }
        }
    }
}

pub proof fn lemma_parse_string_bounds(ts: Seq<SpecToken>, start: int)
    ensures
        spec_parse_string(ts, start) matches Ok(p) ==> start < p.1 <= ts.len(),
{
    lemma_next_significant_bounds(ts, start, 1);
    if 0 <= start < ts.len() && ts[start].kind == TokenType::StringType {
        if let Some(j) = next_significant(ts, start, 1) {
            if ts[j].kind == TokenType::RightCurlyBraces {
                lemma_parse_string_literal_bounds(ts, j);
            }
        }
    }
}

pub proof fn lemma_parse_variable_type_bounds(ts: Seq<SpecToken>, start: int)
    ensures
        spec_parse_variable_type(ts, start) matches Ok(p) ==> start < p.1 <= ts.len(),
{
    lemma_parse_string_bounds(ts, start);
}

pub proof fn lemma_parse_variable_rest_bounds(
    ts: Seq<SpecToken>,
    start: int,
    name_at: int,
    required: bool,
)
    ensures
        spec_parse_variable_rest(ts, start, name_at, required) matches Ok(p) ==> name_at < p.1
            <= ts.len(),
{
    lemma_next_significant_bounds(ts, name_at, 1);
    if let Some(c) = next_significant(ts, name_at, 1) {
        lemma_next_significant_bounds(ts, c, 1);
        if let Some(t) = next_significant(ts, c, 1) {
            lemma_parse_variable_type_bounds(ts, t);
            if let Ok((vt, tend)) = spec_parse_variable_type(ts, t) {
                lemma_next_significant_bounds(ts, tend - 1, 1);
            }
        }
    }
}

pub proof fn lemma_parse_variable_bounds(ts: Seq<SpecToken>, start: int)
    ensures
        spec_parse_variable(ts, start) matches Ok(p) ==> start < p.1 <= ts.len(),
{
    lemma_next_significant_bounds(ts, start, 1);
    if let Some(j) = next_significant(ts, start, 1) {
        lemma_parse_variable_rest_bounds(ts, start, j, ts[start].kind == TokenType::RequiredModifier);
    }
}

pub proof fn lemma_parse_variant_close_bounds(
    ts: Seq<SpecToken>,
    last: int,
    name: Seq<char>,
    value: Seq<char>,
)
    ensures
        spec_parse_variant_close(ts, last, name, value) matches Ok(p) ==> last + 1 < p.1
            <= ts.len(),
{
    lemma_next_significant_bounds(ts, last, 1);
}

pub proof fn lemma_parse_variant_bounds(ts: Seq<SpecToken>, start: int)
    ensures
        spec_parse_variant(ts, start) matches Ok(p) ==> start < p.1 <= ts.len(),
{
    lemma_next_significant_bounds(ts, start, 1);
    if 0 <= start < ts.len() && ts[start].kind == TokenType::Text {
        if let Some(c) = next_significant(ts, start, 1) {
            lemma_next_significant_bounds(ts, c, 1);
            if let Some(v) = next_significant(ts, c, 1) {
                if ts[v].kind == TokenType::Text {
                    lemma_parse_variant_close_bounds(ts, v, ts[start].text, ts[v].text);
                } else if ts[v].kind == TokenType::Quotes {
                    lemma_parse_multiline_bounds(ts, v);
                    if let Ok((text, mend)) = spec_parse_multiline_string(ts, v) {
                        lemma_parse_variant_close_bounds(ts, mend - 1, ts[start].text, text);
                    }
                }
            }
        }
    }
}

/// A successful body scan stops at the closing brace: the returned index is
/// a `}` token at or after the scan's start, within the stream.
pub proof fn lemma_parse_enum_body_bounds(ts: Seq<SpecToken>, i: int, opening: Span)
    ensures
        spec_parse_enum_body(ts, i, opening) matches Ok(p) ==> i <= p.1 < ts.len() && ts[p.1].kind
            == TokenType::LeftCurlyBraces,
    decreases ts.len() - i, 5int,
{
    if 0 <= i < ts.len() {
        if ts[i].kind == TokenType::Whitespace {
            lemma_parse_enum_body_bounds(ts, i + 1, opening);
        } else if ts[i].kind == TokenType::Text {
            if let Ok((variant, end)) = spec_parse_variant(ts, i) {
                lemma_parse_enum_body_bounds(ts, next_scan_index(i, end, ts.len() as int), opening);
            }
        }
    }
}

pub proof fn lemma_parse_enum_bounds(ts: Seq<SpecToken>, start: int)
    ensures
        spec_parse_enum(ts, start) matches Ok(p) ==> start < p.1 <= ts.len() && p.0.start == start
            && p.0.end == p.1,
{
    lemma_next_significant_bounds(ts, start, 1);
    if 0 <= start < ts.len() && ts[start].kind == TokenType::EnumerateDeclaration {
        if let Some(n) = next_significant(ts, start, 1) {
            lemma_next_significant_bounds(ts, n, 1);
            if let Some(b) = next_significant(ts, n, 1) {
                if ts[b].kind == TokenType::RightCurlyBraces {
                    lemma_parse_enum_body_bounds(ts, b + 1, ts[b].span);
                    if let Ok((variants, close)) = spec_parse_enum_body(ts, b + 1, ts[b].span) {
                        lemma_next_significant_bounds(ts, close, 1);
                    }
                }
            }
        }
    }
}

pub proof fn lemma_parse_interface_body_bounds(ts: Seq<SpecToken>, i: int, opening: Span)
    ensures
        spec_parse_interface_body(ts, i, opening) matches Ok(p) ==> i <= p.2 < ts.len()
            && ts[p.2].kind == TokenType::LeftCurlyBraces,
    decreases ts.len() - i, 5int,
{
    if 0 <= i < ts.len() {
        if ts[i].kind == TokenType::Whitespace {
            lemma_parse_interface_body_bounds(ts, i + 1, opening);
        } else if ts[i].kind == TokenType::RequiredModifier || ts[i].kind
            == TokenType::OptionalModifier {
            if let Ok((variable, end)) = spec_parse_variable(ts, i) {
                lemma_parse_interface_body_bounds(
                    ts,
                    next_scan_index(i, end, ts.len() as int),
                    opening,
                );
            }
        } else if ts[i].kind == TokenType::InterfaceDeclaration {
            if let Ok((child, end)) = spec_parse_interface(ts, i) {
                lemma_parse_interface_body_bounds(
                    ts,
                    next_scan_index(i, end, ts.len() as int),
                    opening,
                );
            }
        } else if ts[i].kind == TokenType::EnumerateDeclaration {
            if let Ok((child, end)) = spec_parse_enum(ts, i) {
                lemma_parse_interface_body_bounds(
                    ts,
                    next_scan_index(i, end, ts.len() as int),
                    opening,
                );
            }
        }
    }
}

pub proof fn lemma_parse_interface_bounds(ts: Seq<SpecToken>, start: int)
    ensures
        spec_parse_interface(ts, start) matches Ok(p) ==> start < p.1 <= ts.len() && p.0.start
            == start && p.0.end == p.1,
{
    lemma_next_significant_bounds(ts, start, 1);
    if 0 <= start < ts.len() && ts[start].kind == TokenType::InterfaceDeclaration {
        if let Some(n) = next_significant(ts, start, 1) {
            lemma_next_significant_bounds(ts, n, 1);
            if let Some(b) = next_significant(ts, n, 1) {
                if ts[b].kind == TokenType::RightCurlyBraces {
                    lemma_parse_interface_body_bounds(ts, b + 1, ts[b].span);
                    if let Ok((nodes, variables, close)) = spec_parse_interface_body(
                        ts,
                        b + 1,
                        ts[b].span,
                    ) {
                        lemma_next_significant_bounds(ts, close, 1);
                    }
                }
            }
        }
    }
}

} // verus!
