//! The executable lexer.
//!
//! [`get_tokens`] splits source text into the token sequence described by
//! [`spec_tokenize`]: maximal runs of word characters (classified as keywords
//! or free text), maximal whitespace runs, one-character punctuation tokens,
//! and maximal runs of unrecognized characters.  Lexing never fails and the
//! spans of the produced tokens cover the whole input with no gaps or
//! overlaps.

use vstd::prelude::*;

use crate::tokens::is_punct_char;
use crate::tokens::is_whitespace_char;
use crate::tokens::is_word_char;
use crate::tokens::lemma_token_end_past;
use crate::tokens::lemma_unknown_end_bounds;
use crate::tokens::lemma_whitespace_end_bounds;
use crate::tokens::lemma_word_end_bounds;
use crate::tokens::spec_tokenize;
use crate::tokens::spec_tokenize_from;
use crate::tokens::token_end;
use crate::tokens::token_kind_at;
use crate::tokens::tokens_view;
use crate::tokens::unknown_end;
use crate::tokens::whitespace_end;
use crate::tokens::word_end;
use crate::tokens::word_kind;
use crate::tokens::Span;
use crate::tokens::TokenDeclaration;
use crate::tokens::TokenType;

verus! {

fn is_whitespace(c: char) -> (b: bool)
    ensures
        b == is_whitespace_char(c),
{
    c == ' ' || c == '\t' || c == '\n' || c == '\u{c}'
}

fn is_word(c: char) -> (b: bool)
    ensures
        b == is_word_char(c),
{
    ('a' <= c && c <= 'z') || ('A' <= c && c <= 'Z') || ('0' <= c && c <= '9') || c == '_'
}

fn is_punct(c: char) -> (b: bool)
    ensures
        b == is_punct_char(c),
{
    c == '{' || c == '}' || c == ':' || c == ';' || c == '"'
}

fn scan_word_end(source: &str, from: usize, n: usize) -> (e: usize)
    requires
        from <= n,
        n == source@.len(),
    ensures
        e == word_end(source@, from as int),
        from <= e <= n,
{
    let mut i = from;
    while i < n && is_word(source.get_char(i))
        invariant
            from <= i <= n,
            n == source@.len(),
            word_end(source@, from as int) == word_end(source@, i as int),
        decreases n - i,
    {
        i = i + 1;
    }
    i
}

fn scan_whitespace_end(source: &str, from: usize, n: usize) -> (e: usize)
    requires
        from <= n,
        n == source@.len(),
    ensures
        e == whitespace_end(source@, from as int),
        from <= e <= n,
{
    let mut i = from;
    while i < n && is_whitespace(source.get_char(i))
        invariant
            from <= i <= n,
            n == source@.len(),
            whitespace_end(source@, from as int) == whitespace_end(source@, i as int),
        decreases n - i,
    {
        i = i + 1;
    }
    i
}

fn scan_unknown_end(source: &str, from: usize, n: usize) -> (e: usize)
    requires
        from <= n,
        n == source@.len(),
    ensures
        e == unknown_end(source@, from as int),
        from <= e <= n,
{
    let mut i = from;
    loop
        invariant
            from <= i <= n,
            n == source@.len(),
            unknown_end(source@, from as int) == unknown_end(source@, i as int),
        ensures
            i == unknown_end(source@, from as int),
        decreases n - i,
    {
        if i >= n {
            break ;
        }
        let c = source.get_char(i);
        if is_whitespace(c) || is_word(c) || is_punct(c) {
            break ;
        }
        i = i + 1;
    }
    i
}

/// Whether the characters of `source` in `[start, end)` spell exactly `kw`.
fn range_is(source: &str, start: usize, end: usize, kw: &str) -> (b: bool)
    requires
        start <= end <= source@.len(),
    ensures
        b == (source@.subrange(start as int, end as int) == kw@),
{
    let klen = kw.unicode_len();
    if end - start != klen {
        assert(source@.subrange(start as int, end as int).len() != kw@.len());
        return false;
    }
    let mut j: usize = 0;
    while j < klen
        invariant
            0 <= j <= klen,
            start <= end <= source@.len(),
            end - start == klen,
            klen == kw@.len(),
            forall|k: int| 0 <= k < j ==> source@.subrange(start as int, end as int)[k] == kw@[k],
        decreases klen - j,
    {
        if source.get_char(start + j) != kw.get_char(j) {
            assert(source@.subrange(start as int, end as int)[j as int] != kw@[j as int]);
            return false;
        }
        j = j + 1;
    }
    assert(source@.subrange(start as int, end as int) =~= kw@);
    true
}

/// The token kind of the word run in `[start, end)`.
fn classify_word(source: &str, start: usize, end: usize) -> (k: TokenType)
    requires
        start <= end <= source@.len(),
    ensures
        k == word_kind(source@.subrange(start as int, end as int)),
{
    if range_is(source, start, end, "interface") {
        TokenType::InterfaceDeclaration
    } else if range_is(source, start, end, "enum") {
        TokenType::EnumerateDeclaration
    } else if range_is(source, start, end, "required") {
        TokenType::RequiredModifier
    } else if range_is(source, start, end, "optional") {
        TokenType::OptionalModifier
    } else if range_is(source, start, end, "String") {
        TokenType::StringType
    } else if range_is(source, start, end, "Int") {
        TokenType::IntegerType
    } else if range_is(source, start, end, "Boolean") {
        TokenType::BooleanType
    } else {
        TokenType::Text
    }
}

/// Splits the whole source into tokens.
///
/// Lexing is total: it never fails, and unrecognized character runs become
/// `Unknown` tokens.  The result is exactly [`spec_tokenize`] of the source.
/// The spans of the output cover `[0, len)` with no gaps or overlaps: the
/// first token starts at position `0`, each token starts where the previous
/// one ends, every token is nonempty, and the last token ends at the source
/// length.  Every token carries its verbatim source slice as its value.
#[verifier::rlimit(60)]
pub fn get_tokens(source: &str) -> (r: Vec<TokenDeclaration>)
    ensures
        tokens_view(r@) == spec_tokenize(source@),
        r@.len() == 0 <==> source@.len() == 0,
        r@.len() > 0 ==> r@[0].span.start == 0,
        r@.len() > 0 ==> r@[r@.len() - 1].span.end == source@.len(),
        forall|k: int| 0 <= k < r@.len() ==> (#[trigger] r@[k]).span.start < r@[k].span.end <= source@.len(),
        forall|k: int| 0 <= k < r@.len() - 1 ==> (#[trigger] r@[k]).span.end == r@[k + 1].span.start,
        forall|k: int|
            0 <= k < r@.len() ==> ((#[trigger] r@[k]).value matches Some(v) && v@
                == source@.subrange(r@[k].span.start as int, r@[k].span.end as int)),
{
    let n = source.unicode_len();
    let mut declarations: Vec<TokenDeclaration> = Vec::new();
    let mut i: usize = 0;
    while i < n
        invariant
            0 <= i <= n,
            n == source@.len(),
            spec_tokenize(source@) == tokens_view(declarations@) + spec_tokenize_from(
                source@,
                i as int,
            ),
            declarations@.len() == 0 <==> i == 0,
            declarations@.len() > 0 ==> declarations@[0].span.start == 0,
            declarations@.len() > 0 ==> declarations@[declarations@.len() - 1].span.end == i,
            forall|k: int|
                0 <= k < declarations@.len() ==> (#[trigger] declarations@[k]).span.start
                    < declarations@[k].span.end <= n,
            forall|k: int|
                0 <= k < declarations@.len() - 1 ==> (#[trigger] declarations@[k]).span.end
                    == declarations@[k + 1].span.start,
            forall|k: int|
                0 <= k < declarations@.len() ==> ((#[trigger] declarations@[k]).value matches Some(
                    v,
                ) && v@ == source@.subrange(
                    declarations@[k].span.start as int,
                    declarations@[k].span.end as int,
                )),
        decreases n - i,
    {
        let ghost s = source@;
        let c = source.get_char(i);
        let (end, kind): (usize, TokenType) = if is_whitespace(c) {
            (scan_whitespace_end(source, i, n), TokenType::Whitespace)
        } else if is_word(c) {
            let e = scan_word_end(source, i, n);
            (e, classify_word(source, i, e))
        } else if is_punct(c) {
            let k = if c == '{' {
                TokenType::RightCurlyBraces
            } else if c == '}' {
                TokenType::LeftCurlyBraces
            } else if c == ':' {
                TokenType::VariableConnection
            } else if c == ';' {
                TokenType::Semicolon
            } else {
                TokenType::Quotes
            };
            (i + 1, k)
        } else {
            (scan_unknown_end(source, i, n), TokenType::Unknown)
        };
        proof {
            lemma_token_end_past(s, i as int);
            lemma_word_end_bounds(s, i as int);
            lemma_whitespace_end_bounds(s, i as int);
            lemma_unknown_end_bounds(s, i as int);
        }
        assert(end == token_end(s, i as int));
        assert(kind == token_kind_at(s, i as int));
        let slice = source.substring_char(i, end);
        let text = slice.to_owned();
        let declaration = TokenDeclaration {
            token_type: kind,
            value: Some(text),
            span: Span { start: i, end },
        };
        let ghost prev = declarations@;
        declarations.push(declaration);
        proof {
            assert(declaration@ == spec_tokenize_from(s, i as int)[0]);
            assert(tokens_view(declarations@) =~= tokens_view(prev) + seq![declaration@]);
            assert(tokens_view(declarations@) + spec_tokenize_from(s, end as int)
                =~= tokens_view(prev) + spec_tokenize_from(s, i as int));
        }
        i = end;
    }
    assert(spec_tokenize_from(source@, i as int) =~= Seq::empty());
    assert(tokens_view(declarations@) =~= tokens_view(declarations@) + Seq::empty());
    declarations
}

} // verus!
