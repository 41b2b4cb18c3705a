//! Token-cursor helpers.
//!
//! All parsers scan the token sequence through [`next_token_with_index`]
//! instead of doing index arithmetic of their own, which decouples the
//! grammar rules from source formatting: whitespace tokens are first-class
//! in the token sequence but never significant between grammar symbols.

use vstd::prelude::*;

use crate::errors::ParseContext;
use crate::errors::ParseError;
use crate::tokens::tokens_view;
use crate::tokens::Span;
use crate::tokens::SpecToken;
use crate::tokens::TokenDeclaration;
use crate::tokens::TokenType;

verus! {

/// Index of the next significant token: scanning forward from `from`, all
/// whitespace tokens are passed over, the first `skip` significant tokens
/// are passed over too, and the next significant one is the result.  `None`
/// when the stream runs out first.
pub open spec fn next_significant(ts: Seq<SpecToken>, from: int, skip: nat) -> Option<int>
    decreases ts.len() - from, skip,
{
    if !(0 <= from < ts.len()) {
        None
    } else if ts[from].kind == TokenType::Whitespace {
        next_significant(ts, from + 1, skip)
    } else if skip > 0 {
        next_significant(ts, from + 1, (skip - 1) as nat)
    } else {
        Some(from)
    }
}

/// How many significant tokens a cursor call passes over: one when the
/// caller gives no count.
pub open spec fn skip_count(skip: Option<usize>) -> nat {
    match skip {
        None => 1,
        Some(k) => k as nat,
    }
}

/// A found token lies within the stream, is significant, and never before
/// the scan's start; when at least one significant token is skipped, it lies
/// strictly after the start.
pub proof fn lemma_next_significant_bounds(ts: Seq<SpecToken>, from: int, skip: nat)
    ensures
        next_significant(ts, from, skip) matches Some(j) ==> from <= j < ts.len() && ts[j].kind
            != TokenType::Whitespace,
        skip > 0 ==> (next_significant(ts, from, skip) matches Some(j) ==> from < j),
    decreases ts.len() - from, skip,
{
    if 0 <= from < ts.len() {
        if ts[from].kind == TokenType::Whitespace {
            lemma_next_significant_bounds(ts, from + 1, skip);
        } else if skip > 0 {
            lemma_next_significant_bounds(ts, from + 1, (skip - 1) as nat);
        }
    }
}

/// An owned copy of a token, equal to the original.
pub(crate) fn clone_declaration(t: &TokenDeclaration) -> (r: TokenDeclaration)
    ensures
        r == *t,
{
    TokenDeclaration {
        token_type: t.token_type,
        value: match &t.value {
            Some(s) => Some(s.clone()),
            None => None,
        },
        span: t.span,
    }
}

/// Finds the next significant token at or after `start_index`, skipping
/// whitespace tokens and, before that, `skip` significant tokens (one when
/// `skip` is `None`).  Returns its index and the token, or a typed failure
/// when the stream is exhausted first; never aborts.
pub fn next_token_with_index(
    tokens: &Vec<TokenDeclaration>,
    start_index: usize,
    skip: Option<usize>,
) -> (r: Result<(usize, TokenDeclaration), ParseError>)
    ensures
        match next_significant(tokens_view(tokens@), start_index as int, skip_count(skip)) {
            Some(j) => r matches Ok(p) && p.0 == j && p.1 == tokens@[j],
            None => r == Err::<(usize, TokenDeclaration), ParseError>(
                ParseError::UnexpectedEndOfInput { context: ParseContext::TokenStream },
            ),
        },
{
    let ghost ts = tokens_view(tokens@);
    let ghost skip0 = skip_count(skip);
    let mut remaining: usize = match skip {
        None => 1,
        Some(k) => k,
    };
    let mut i = start_index;
    loop
        invariant
            start_index <= i,
            ts == tokens_view(tokens@),
            next_significant(ts, start_index as int, skip0) == next_significant(
                ts,
                i as int,
                remaining as nat,
            ),
        ensures
            next_significant(ts, start_index as int, skip0) matches Some(j) && i == j && i
                < tokens.len() || next_significant(ts, start_index as int, skip0) is None && i
                >= tokens.len(),
        decreases tokens@.len() - i, remaining,
    {
        if i >= tokens.len() {
            break ;
        }
        if tokens[i].token_type == TokenType::Whitespace {
            i = i + 1;
        } else if remaining > 0 {
            remaining = remaining - 1;
            i = i + 1;
        } else {
            break ;
        }
    }
    if i < tokens.len() {
        Ok((i, clone_declaration(&tokens[i])))
    } else {
        Err(ParseError::UnexpectedEndOfInput { context: ParseContext::TokenStream })
    }
}

/// The next significant token itself; a typed failure when none is left.
pub fn next_token(
    tokens: &Vec<TokenDeclaration>,
    start_index: usize,
    skip: Option<usize>,
) -> (r: Result<TokenDeclaration, ParseError>)
    ensures
        match next_significant(tokens_view(tokens@), start_index as int, skip_count(skip)) {
            Some(j) => r matches Ok(t) && t == tokens@[j],
            None => r == Err::<TokenDeclaration, ParseError>(
                ParseError::UnexpectedEndOfInput { context: ParseContext::TokenStream },
            ),
        },
{
    match next_token_with_index(tokens, start_index, skip) {
        Ok((_, token)) => Ok(token),
        Err(e) => Err(e),
    }
}

/// The next significant token's index; a typed failure when none is left.
pub fn next_token_index(
    tokens: &Vec<TokenDeclaration>,
    start_index: usize,
    skip: Option<usize>,
) -> (r: Result<usize, ParseError>)
    ensures
        match next_significant(tokens_view(tokens@), start_index as int, skip_count(skip)) {
            Some(j) => r matches Ok(i) && i == j,
            None => r == Err::<usize, ParseError>(
                ParseError::UnexpectedEndOfInput { context: ParseContext::TokenStream },
            ),
        },
{
    match next_token_with_index(tokens, start_index, skip) {
        Ok((index, _)) => Ok(index),
        Err(e) => Err(e),
    }
}

/// The numbers `from` through `to`, inclusive on both ends, in order;
/// empty when `from` exceeds `to`.
pub fn create_linear_numbers_array(from: usize, to: usize) -> (r: Vec<usize>)
    requires
        to < usize::MAX,
    ensures
        r@.len() == if from <= to {
            to - from + 1
        } else {
            0
        },
        forall|k: int| 0 <= k < r@.len() ==> r@[k] == from + k,
{
    let mut numbers: Vec<usize> = Vec::new();
    if from > to {
        return numbers;
    }
    let mut current = from;
    while current <= to
        invariant
            to < usize::MAX,
            from <= current <= to + 1,
            numbers@.len() == current - from,
            forall|k: int| 0 <= k < numbers@.len() ==> numbers@[k] == from + k,
        decreases to + 1 - current,
    {
        numbers.push(current);
        current = current + 1;
    }
    numbers
}

/// The characters of `s` whose positions lie in `span`, clipped to the text.
pub open spec fn spec_slice(s: Seq<char>, span: Span) -> Seq<char> {
    let lo = if span.start as int <= s.len() {
        span.start as int
    } else {
        s.len() as int
    };
    let hi = if span.end as int <= s.len() {
        span.end as int
    } else {
        s.len() as int
    };
    if lo < hi {
        s.subrange(lo, hi)
    } else {
        Seq::empty()
    }
}

/// The source text inside `span`: character positions from `span.start`
/// up to but not including `span.end`, clipped to the source's length.
pub fn get_slice_from_source(source: &str, span: Span) -> (r: String)
    ensures
        r@ == spec_slice(source@, span),
{
    let n = source.unicode_len();
    let lo = if span.start <= n {
        span.start
    } else {
        n
    };
    let hi = if span.end <= n {
        span.end
    } else {
        n
    };
    if lo < hi {
        let slice = source.substring_char(lo, hi);
        slice.to_owned()
    } else {
        assert(spec_slice(source@, span) =~= Seq::empty());
        String::new()
    }
}

} // verus!
