//! The parse error taxonomy.
//!
//! Every parsing function returns a typed result; no function aborts.  The
//! first error encountered stops the whole parse and is propagated upward
//! unchanged, carrying the span of the offending token.

use vstd::prelude::*;

use crate::tokens::Span;
use crate::tokens::TokenType;

verus! {

/// What a parser was looking for when it met an unexpected token.
/// Each variant stands for the set of token kinds acceptable at that point.
#[derive(Debug, Clone, Copy, PartialEq, Eq, Structural)]
pub enum Expected {
    /// The `interface` keyword opening an interface declaration.
    InterfaceKeyword,
    /// The `enum` keyword opening an enumeration declaration.
    EnumKeyword,
    /// A free-text name after `interface`, `enum`, or a field modifier.
    Name,
    /// The `{` opening a declaration body or a literal constant.
    OpeningBrace,
    /// The `}` closing a literal constant.
    ClosingBrace,
    /// A `required`/`optional` field modifier.
    Modifier,
    /// A field, nested interface, nested enum, or the `}` closing the body.
    BodyItem,
    /// An enum variant name or the `}` closing the enum body.
    VariantNameOrClosingBrace,
    /// The `:` connecting a name to its type or value.
    Connector,
    /// A type keyword such as `String`.
    TypeKeyword,
    /// The `;` ending a field or an enum variant.
    Semicolon,
    /// A `;` for a plain field or a `{` opening a literal constant.
    SemicolonOrOpeningBrace,
    /// A bare text literal or a quoted string.
    LiteralValue,
    /// The `"` opening a quoted string.
    Quote,
    /// An enum variant's bare text value or a quoted string.
    VariantValue,
}

/// Where the token stream ran out.
#[derive(Debug, Clone, Copy, PartialEq, Eq, Structural)]
pub enum ParseContext {
    /// Scanning forward for the next significant token.
    TokenStream,
    /// Reading an interface declaration's name or opening brace.
    InterfaceHeader,
    /// Reading an enumeration declaration's name or opening brace.
    EnumHeader,
    /// Reading a field declaration.
    Variable,
    /// Reading an enum variant.
    EnumVariant,
    /// Reading a field's type or literal constant.
    VariableType,
    /// Reading a quoted string literal.
    StringLiteral,
}

/// A parse failure.  Lexing itself cannot fail; these are the only ways a
/// parse ends other than success, and each carries the span of the token
/// (or the opening token of the construct) at fault.
#[derive(Debug, Clone, Copy, PartialEq, Eq, Structural)]
pub enum ParseError {
    /// A token of the wrong kind where `expected` describes what was allowed.
    UnexpectedToken { expected: Expected, actual: TokenType, span: Span },
    /// The token stream ran out in the middle of a construct.
    UnexpectedEndOfInput { context: ParseContext },
    /// A second `required`/`optional` modifier before a field's name.
    DuplicateModifier { span: Span },
    /// A declaration body whose `}` is missing, or is not followed by `;`.
    /// Carries the span of the `{` that opened the body.
    UnterminatedBlock { opening: Span },
    /// A quoted literal with no closing quote; carries the opening quote's span.
    UnterminatedStringLiteral { opening: Span },
    /// A top-level token that opens no declaration.
    UnknownTopLevelConstruct { span: Span },
}

} // verus!
