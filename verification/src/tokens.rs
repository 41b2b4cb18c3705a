//! Token model: source spans, token kinds, and the mathematical description
//! of how source text splits into tokens.
//!
//! Tokenization is total and covers the whole input: every character of the
//! source belongs to exactly one token.  The split is described by
//! [`spec_tokenize`], which the executable lexer is proved to implement.

use vstd::prelude::*;

verus! {

/// A half-open range of source character positions.
#[derive(Debug, Clone, Copy, PartialEq, Eq, Structural)]
pub struct Span {
    pub start: usize,
    pub end: usize,
}

/// The kind of a token.
///
/// Spellings: `InterfaceDeclaration` is `interface`, `RightCurlyBraces` is `{`,
/// `LeftCurlyBraces` is `}`, `RequiredModifier` is `required`, `OptionalModifier`
/// is `optional`, `VariableConnection` is `:`, `StringType` is `String`,
/// `IntegerType` is `Int`, `BooleanType` is `Boolean`, `Semicolon` is `;`,
/// `EnumerateDeclaration` is `enum`, `Quotes` is `"`.  `Text` is a run of
/// letters, digits and underscores that spells no keyword, `Whitespace` a run
/// of blanks, and `Unknown` a run of any other characters.
#[derive(Debug, Clone, Copy, PartialEq, Eq, Structural)]
pub enum TokenType {
    InterfaceDeclaration,
    RightCurlyBraces,
    LeftCurlyBraces,
    RequiredModifier,
    OptionalModifier,
    VariableConnection,
    StringType,
    IntegerType,
    BooleanType,
    Semicolon,
    EnumerateDeclaration,
    Text,
    Quotes,
    Whitespace,
    Unknown,
}

/// One token: its kind, its verbatim source text, and its source span.
#[derive(Debug, Clone)]
pub struct TokenDeclaration {
    pub token_type: TokenType,
    pub value: Option<String>,
    pub span: Span,
}

/// The mathematical value of a token: kind, text and span as plain values.
#[verifier::ext_equal]
pub struct SpecToken {
    pub kind: TokenType,
    pub text: Seq<char>,
    pub span: Span,
}

impl View for TokenDeclaration {
    type V = SpecToken;

    open spec fn view(&self) -> SpecToken {
        SpecToken {
            kind: self.token_type,
            text: match self.value {
                Some(s) => s@,
                None => Seq::empty(),
            },
            span: self.span,
        }
    }
}

/// The views of a token sequence.
pub open spec fn tokens_view(tokens: Seq<TokenDeclaration>) -> Seq<SpecToken> {
    tokens.map_values(|t: TokenDeclaration| t@)
}

/// Whitespace characters: blank, tab, newline, form feed.
pub open spec fn is_whitespace_char(c: char) -> bool {
    c == ' ' || c == '\t' || c == '\n' || c == '\u{c}'
}

/// Word characters: letters, digits and underscore.
pub open spec fn is_word_char(c: char) -> bool {
    ('a' <= c && c <= 'z') || ('A' <= c && c <= 'Z') || ('0' <= c && c <= '9') || c == '_'
}

/// Characters that form a one-character token of their own.
pub open spec fn is_punct_char(c: char) -> bool {
    c == '{' || c == '}' || c == ':' || c == ';' || c == '"'
}

/// Characters that no token class recognizes; runs of them become `Unknown`.
pub open spec fn is_unknown_char(c: char) -> bool {
    !is_whitespace_char(c) && !is_word_char(c) && !is_punct_char(c)
}

/// The kind of the one-character token a punctuation character makes.
pub open spec fn punct_kind(c: char) -> TokenType {
    if c == '{' {
        TokenType::RightCurlyBraces
    } else if c == '}' {
        TokenType::LeftCurlyBraces
    } else if c == ':' {
        TokenType::VariableConnection
    } else if c == ';' {
        TokenType::Semicolon
    } else {
        TokenType::Quotes
    }
}

/// The kind a word run makes: a keyword where it spells one, else `Text`.
pub open spec fn word_kind(w: Seq<char>) -> TokenType {
    if w == "interface"@ {
        TokenType::InterfaceDeclaration
    } else if w == "enum"@ {
        TokenType::EnumerateDeclaration
    } else if w == "required"@ {
        TokenType::RequiredModifier
    } else if w == "optional"@ {
        TokenType::OptionalModifier
    } else if w == "String"@ {
        TokenType::StringType
    } else if w == "Int"@ {
        TokenType::IntegerType
    } else if w == "Boolean"@ {
        TokenType::BooleanType
    } else {
        TokenType::Text
    }
}

/// First position at or after `i` that is not a word character.
pub open spec fn word_end(s: Seq<char>, i: int) -> int
    decreases s.len() - i,
{
    if 0 <= i < s.len() && is_word_char(s[i]) {
        word_end(s, i + 1)
    } else {
        i
    }
}

/// First position at or after `i` that is not a whitespace character.
pub open spec fn whitespace_end(s: Seq<char>, i: int) -> int
    decreases s.len() - i,
{
    if 0 <= i < s.len() && is_whitespace_char(s[i]) {
        whitespace_end(s, i + 1)
    } else {
        i
    }
}

/// First position at or after `i` that is not an unrecognized character.
pub open spec fn unknown_end(s: Seq<char>, i: int) -> int
    decreases s.len() - i,
{
    if 0 <= i < s.len() && is_unknown_char(s[i]) {
        unknown_end(s, i + 1)
    } else {
        i
    }
}

/// Where the token starting at position `i` ends (exclusive).
pub open spec fn token_end(s: Seq<char>, i: int) -> int {
    if is_whitespace_char(s[i]) {
        whitespace_end(s, i)
    } else if is_word_char(s[i]) {
        word_end(s, i)
    } else if is_punct_char(s[i]) {
        i + 1
    } else {
        unknown_end(s, i)
    }
}

/// The kind of the token starting at position `i`.
pub open spec fn token_kind_at(s: Seq<char>, i: int) -> TokenType {
    if is_whitespace_char(s[i]) {
        TokenType::Whitespace
    } else if is_word_char(s[i]) {
        word_kind(s.subrange(i, word_end(s, i)))
    } else if is_punct_char(s[i]) {
        punct_kind(s[i])
    } else {
        TokenType::Unknown
    }
}

/// The token sequence of the source from position `i` on.
pub open spec fn spec_tokenize_from(s: Seq<char>, i: int) -> Seq<SpecToken>
    decreases s.len() - i,
{
    if 0 <= i < s.len() {
        let raw = token_end(s, i);
        let e = if i + 1 <= raw <= s.len() {
            raw
        } else {
            i + 1
        };
        let tok = SpecToken {
            kind: token_kind_at(s, i),
            text: s.subrange(i, e),
            span: Span {
                start: #[verifier::truncate] (i as usize),
                end: #[verifier::truncate] (e as usize),
            },
        };
        seq![tok] + spec_tokenize_from(s, e)
    } else {
        Seq::empty()
    }
}

/// The token sequence of a whole source text.
pub open spec fn spec_tokenize(s: Seq<char>) -> Seq<SpecToken> {
    spec_tokenize_from(s, 0)
}

/// A token never ends before the position after its start: every token is
/// at least one character long, so tokenization always advances.
pub proof fn lemma_token_end_past(s: Seq<char>, i: int)
    requires
        0 <= i < s.len(),
    ensures
        i + 1 <= token_end(s, i) <= s.len(),
{
    lemma_word_end_bounds(s, i);
    lemma_whitespace_end_bounds(s, i);
    lemma_unknown_end_bounds(s, i);
}

pub proof fn lemma_word_end_bounds(s: Seq<char>, i: int)
    requires
        0 <= i <= s.len(),
    ensures
        i <= word_end(s, i) <= s.len(),
        i < s.len() && is_word_char(s[i]) ==> i + 1 <= word_end(s, i),
    decreases s.len() - i,
{
    if i < s.len() && is_word_char(s[i]) {
        lemma_word_end_bounds(s, i + 1);
    }
}

pub proof fn lemma_whitespace_end_bounds(s: Seq<char>, i: int)
    requires
        0 <= i <= s.len(),
    ensures
        i <= whitespace_end(s, i) <= s.len(),
        i < s.len() && is_whitespace_char(s[i]) ==> i + 1 <= whitespace_end(s, i),
    decreases s.len() - i,
{
    if i < s.len() && is_whitespace_char(s[i]) {
        lemma_whitespace_end_bounds(s, i + 1);
    }
}

pub proof fn lemma_unknown_end_bounds(s: Seq<char>, i: int)
    requires
        0 <= i <= s.len(),
    ensures
        i <= unknown_end(s, i) <= s.len(),
        i < s.len() && is_unknown_char(s[i]) ==> i + 1 <= unknown_end(s, i),
    decreases s.len() - i,
{
    if i < s.len() && is_unknown_char(s[i]) {
        lemma_unknown_end_bounds(s, i + 1);
    }
}


/// The concatenated texts of a token sequence.
pub open spec fn texts_of(ts: Seq<SpecToken>) -> Seq<char>
    decreases ts.len(),
{
    if ts.len() == 0 {
        Seq::empty()
    } else {
        ts[0].text + texts_of(ts.drop_first())
    }
}

/// Concatenating token sequences concatenates their texts.
pub proof fn lemma_texts_of_concat(a: Seq<SpecToken>, b: Seq<SpecToken>)
    ensures
        texts_of(a + b) == texts_of(a) + texts_of(b),
    decreases a.len(),
{
    if a.len() == 0 {
        assert(a + b =~= b);
        assert(texts_of(a) + texts_of(b) =~= texts_of(b));
    } else {
        assert((a + b).drop_first() =~= a.drop_first() + b);
        lemma_texts_of_concat(a.drop_first(), b);
        assert(a[0].text + (texts_of(a.drop_first()) + texts_of(b)) =~= (a[0].text + texts_of(
            a.drop_first(),
        )) + texts_of(b));
    }
}

/// Tokenization loses nothing: the concatenated texts of the tokens of a
/// source, from any position on, reproduce that source exactly.
pub proof fn lemma_tokenize_covers_from(s: Seq<char>, i: int)
    requires
        0 <= i <= s.len(),
    ensures
        texts_of(spec_tokenize_from(s, i)) == s.subrange(i, s.len() as int),
    decreases s.len() - i,
{
    if i < s.len() {
        lemma_token_end_past(s, i);
        let e = token_end(s, i);
        lemma_tokenize_covers_from(s, e);
        assert(spec_tokenize_from(s, i).drop_first() =~= spec_tokenize_from(s, e));
        assert(s.subrange(i, e) + s.subrange(e, s.len() as int) =~= s.subrange(
            i,
            s.len() as int,
        ));
    } else {
        assert(s.subrange(i, s.len() as int) =~= Seq::empty());
    }
}

/// The tokens of a whole source concatenate back to it, verbatim.
pub proof fn lemma_tokenize_covers(s: Seq<char>)
    ensures
        texts_of(spec_tokenize(s)) == s,
{
    lemma_tokenize_covers_from(s, 0);
    assert(s.subrange(0, s.len() as int) =~= s);
}

/// A source without a quote character tokenizes without a quote token.
pub proof fn lemma_tokenize_no_quotes(s: Seq<char>, i: int)
    requires
        0 <= i <= s.len(),
        forall|j: int| 0 <= j < s.len() ==> s[j] != '"',
    ensures
        forall|k: int|
            0 <= k < spec_tokenize_from(s, i).len() ==> (#[trigger] spec_tokenize_from(s, i)[k]).kind
                != TokenType::Quotes,
    decreases s.len() - i,
{
    if i < s.len() {
        lemma_token_end_past(s, i);
        let e = token_end(s, i);
        lemma_tokenize_no_quotes(s, e);
        assert(spec_tokenize_from(s, i)[0].kind == token_kind_at(s, i));
        assert(token_kind_at(s, i) != TokenType::Quotes);
        assert forall|k: int|
            0 <= k < spec_tokenize_from(s, i).len() implies (#[trigger] spec_tokenize_from(
            s,
            i,
        )[k]).kind != TokenType::Quotes by {
            if k > 0 {
                assert(spec_tokenize_from(s, i)[k] == spec_tokenize_from(s, e)[k - 1]);
            }
        }
    }
}


/// Two token sequences that agree in kind and text, position by position.
/// Spans are left free.
pub open spec fn tokens_similar(a: Seq<SpecToken>, b: Seq<SpecToken>) -> bool {
    a.len() == b.len() && forall|k: int|
        0 <= k < a.len() ==> (#[trigger] a[k]).kind == b[k].kind && a[k].text == b[k].text
}

/// Characters that may not stand on the two sides of a text boundary if
/// the two texts are to tokenize independently: two characters of the same
/// run class would fuse into one token.
pub open spec fn safe_boundary(a: char, b: char) -> bool {
    &&& !(is_word_char(a) && is_word_char(b))
    &&& !(is_whitespace_char(a) && is_whitespace_char(b))
    &&& !(is_unknown_char(a) && is_unknown_char(b))
}

pub proof fn lemma_word_end_shift(s1: Seq<char>, s2: Seq<char>, j: int)
    requires
        0 <= j <= s2.len(),
    ensures
        word_end(s1 + s2, s1.len() + j) == s1.len() + word_end(s2, j),
    decreases s2.len() - j,
{
    if j < s2.len() {
        assert((s1 + s2)[s1.len() + j] == s2[j]);
        if is_word_char(s2[j]) {
            lemma_word_end_shift(s1, s2, j + 1);
        }
    }
}

pub proof fn lemma_whitespace_end_shift(s1: Seq<char>, s2: Seq<char>, j: int)
    requires
        0 <= j <= s2.len(),
    ensures
        whitespace_end(s1 + s2, s1.len() + j) == s1.len() + whitespace_end(s2, j),
    decreases s2.len() - j,
{
    if j < s2.len() {
        assert((s1 + s2)[s1.len() + j] == s2[j]);
        if is_whitespace_char(s2[j]) {
            lemma_whitespace_end_shift(s1, s2, j + 1);
        }
    }
}

pub proof fn lemma_unknown_end_shift(s1: Seq<char>, s2: Seq<char>, j: int)
    requires
        0 <= j <= s2.len(),
    ensures
        unknown_end(s1 + s2, s1.len() + j) == s1.len() + unknown_end(s2, j),
    decreases s2.len() - j,
{
    if j < s2.len() {
        assert((s1 + s2)[s1.len() + j] == s2[j]);
        if is_unknown_char(s2[j]) {
            lemma_unknown_end_shift(s1, s2, j + 1);
        }
    }
}

pub proof fn lemma_word_end_prefix(s1: Seq<char>, s2: Seq<char>, i: int)
    requires
        0 <= i <= s1.len(),
        s1.len() > 0 && s2.len() > 0 ==> safe_boundary(s1[s1.len() - 1], s2[0]),
    ensures
        word_end(s1, i) < s1.len() ==> word_end(s1 + s2, i) == word_end(s1, i),
        word_end(s1, i) == s1.len() && (i < s1.len() && is_word_char(s1[i]) || i == s1.len()
            && s1.len() > 0 && is_word_char(s1[i - 1])) ==> word_end(s1 + s2, i) == s1.len(),
    decreases s1.len() - i,
{
    lemma_word_end_bounds(s1, i);
    if i < s1.len() {
        assert((s1 + s2)[i] == s1[i]);
        if is_word_char(s1[i]) {
            lemma_word_end_prefix(s1, s2, i + 1);
        }
    } else {
        if s1.len() > 0 && is_word_char(s1[i - 1]) {
            if s2.len() > 0 {
                assert(!is_word_char(s2[0]));
                assert((s1 + s2)[s1.len() as int] == s2[0]);
            }
        }
    }
}

pub proof fn lemma_whitespace_end_prefix(s1: Seq<char>, s2: Seq<char>, i: int)
    requires
        0 <= i <= s1.len(),
        s1.len() > 0 && s2.len() > 0 ==> safe_boundary(s1[s1.len() - 1], s2[0]),
    ensures
        whitespace_end(s1, i) < s1.len() ==> whitespace_end(s1 + s2, i) == whitespace_end(s1, i),
        whitespace_end(s1, i) == s1.len() && (i < s1.len() && is_whitespace_char(s1[i]) || i
            == s1.len() && s1.len() > 0 && is_whitespace_char(s1[i - 1])) ==> whitespace_end(
            s1 + s2,
            i,
        ) == s1.len(),
    decreases s1.len() - i,
{
    lemma_whitespace_end_bounds(s1, i);
    if i < s1.len() {
        assert((s1 + s2)[i] == s1[i]);
        if is_whitespace_char(s1[i]) {
            lemma_whitespace_end_prefix(s1, s2, i + 1);
        }
    } else {
        if s1.len() > 0 && is_whitespace_char(s1[i - 1]) {
            if s2.len() > 0 {
                assert(!is_whitespace_char(s2[0]));
                assert((s1 + s2)[s1.len() as int] == s2[0]);
            }
        }
    }
}

pub proof fn lemma_unknown_end_prefix(s1: Seq<char>, s2: Seq<char>, i: int)
    requires
        0 <= i <= s1.len(),
        s1.len() > 0 && s2.len() > 0 ==> safe_boundary(s1[s1.len() - 1], s2[0]),
    ensures
        unknown_end(s1, i) < s1.len() ==> unknown_end(s1 + s2, i) == unknown_end(s1, i),
        unknown_end(s1, i) == s1.len() && (i < s1.len() && is_unknown_char(s1[i]) || i == s1.len()
            && s1.len() > 0 && is_unknown_char(s1[i - 1])) ==> unknown_end(s1 + s2, i)
            == s1.len(),
    decreases s1.len() - i,
{
    lemma_unknown_end_bounds(s1, i);
    if i < s1.len() {
        assert((s1 + s2)[i] == s1[i]);
        if is_unknown_char(s1[i]) {
            lemma_unknown_end_prefix(s1, s2, i + 1);
        }
    } else {
        if s1.len() > 0 && is_unknown_char(s1[i - 1]) {
            if s2.len() > 0 {
                assert(!is_unknown_char(s2[0]));
                assert((s1 + s2)[s1.len() as int] == s2[0]);
            }
        }
    }
}

/// A word run that covers `[i, end)` consists of word characters.
pub proof fn lemma_word_run_chars(s: Seq<char>, i: int, x: int)
    requires
        0 <= i <= x < word_end(s, i),
        i <= s.len(),
    ensures
        x < s.len() && is_word_char(s[x]),
    decreases x - i,
{
    lemma_word_end_bounds(s, i);
    if x > i {
        lemma_word_run_chars(s, i + 1, x);
    }
}

pub proof fn lemma_whitespace_run_chars(s: Seq<char>, i: int, x: int)
    requires
        0 <= i <= x < whitespace_end(s, i),
        i <= s.len(),
    ensures
        x < s.len() && is_whitespace_char(s[x]),
    decreases x - i,
{
    lemma_whitespace_end_bounds(s, i);
    if x > i {
        lemma_whitespace_run_chars(s, i + 1, x);
    }
}

pub proof fn lemma_unknown_run_chars(s: Seq<char>, i: int, x: int)
    requires
        0 <= i <= x < unknown_end(s, i),
        i <= s.len(),
    ensures
        x < s.len() && is_unknown_char(s[x]),
    decreases x - i,
{
    lemma_unknown_end_bounds(s, i);
    if x > i {
        lemma_unknown_run_chars(s, i + 1, x);
    }
}

/// Tokens of the second text, read inside the concatenation.
pub proof fn lemma_tokenize_shift(s1: Seq<char>, s2: Seq<char>, j: int)
    requires
        0 <= j <= s2.len(),
    ensures
        tokens_similar(spec_tokenize_from(s1 + s2, s1.len() + j), spec_tokenize_from(s2, j)),
    decreases s2.len() - j,
{
    let s = s1 + s2;
    if j < s2.len() {
        assert(s[s1.len() + j] == s2[j]);
        lemma_word_end_shift(s1, s2, j);
        lemma_whitespace_end_shift(s1, s2, j);
        lemma_unknown_end_shift(s1, s2, j);
        lemma_token_end_past(s2, j);
        lemma_token_end_past(s, s1.len() + j);
        let e2 = token_end(s2, j);
        assert(token_end(s, s1.len() + j) == s1.len() + e2);
        assert(s.subrange(s1.len() + j, s1.len() + e2) =~= s2.subrange(j, e2));
        if is_word_char(s2[j]) && !is_whitespace_char(s2[j]) {
            assert(token_kind_at(s, s1.len() + j) == token_kind_at(s2, j));
        }
        lemma_tokenize_shift(s1, s2, e2);
        let a = spec_tokenize_from(s, s1.len() + j);
        let b = spec_tokenize_from(s2, j);
        assert(a[0].kind == b[0].kind && a[0].text == b[0].text);
        assert forall|k: int| 0 <= k < a.len() implies (#[trigger] a[k]).kind == b[k].kind
            && a[k].text == b[k].text by {
            if k > 0 {
                assert(a[k] == spec_tokenize_from(s, s1.len() + e2)[k - 1]);
                assert(b[k] == spec_tokenize_from(s2, e2)[k - 1]);
            }
        }
    }
}

/// Tokenizing a concatenation over a safe boundary tokenizes the parts
/// independently.
pub proof fn lemma_tokenize_concat(s1: Seq<char>, s2: Seq<char>)
    requires
        s1.len() > 0 && s2.len() > 0 ==> safe_boundary(s1[s1.len() - 1], s2[0]),
    ensures
        tokens_similar(spec_tokenize(s1 + s2), spec_tokenize(s1) + spec_tokenize(s2)),
{
    lemma_tokenize_concat_from(s1, s2, 0);
}

pub proof fn lemma_tokenize_concat_from(s1: Seq<char>, s2: Seq<char>, i: int)
    requires
        0 <= i <= s1.len(),
        s1.len() > 0 && s2.len() > 0 ==> safe_boundary(s1[s1.len() - 1], s2[0]),
    ensures
        tokens_similar(
            spec_tokenize_from(s1 + s2, i),
            spec_tokenize_from(s1, i) + spec_tokenize(s2),
        ),
    decreases s1.len() - i,
{
    let s = s1 + s2;
    if i == s1.len() {
        lemma_tokenize_shift(s1, s2, 0);
        assert(spec_tokenize_from(s1, i) + spec_tokenize(s2) =~= spec_tokenize(s2));
    } else {
        assert(s[i] == s1[i]);
        lemma_token_end_past(s1, i);
        let e1 = token_end(s1, i);
        lemma_word_end_prefix(s1, s2, i);
        lemma_whitespace_end_prefix(s1, s2, i);
        lemma_unknown_end_prefix(s1, s2, i);
        if is_word_char(s1[i]) && !is_whitespace_char(s1[i]) {
            if word_end(s1, i) == s1.len() {
                lemma_word_run_chars(s1, i, s1.len() - 1);
            }
        } else if is_whitespace_char(s1[i]) {
            if whitespace_end(s1, i) == s1.len() {
                lemma_whitespace_run_chars(s1, i, s1.len() - 1);
            }
        } else if !is_punct_char(s1[i]) {
            if unknown_end(s1, i) == s1.len() {
                lemma_unknown_run_chars(s1, i, s1.len() - 1);
            }
        }
        assert(token_end(s, i) == e1);
        assert(s.subrange(i, e1) =~= s1.subrange(i, e1));
        assert(token_kind_at(s, i) == token_kind_at(s1, i));
        lemma_tokenize_concat_from(s1, s2, e1);
        let a = spec_tokenize_from(s, i);
        let b = spec_tokenize_from(s1, i) + spec_tokenize(s2);
        assert(a[0].kind == b[0].kind && a[0].text == b[0].text) by {
            assert(b[0] == spec_tokenize_from(s1, i)[0]);
        }
        assert forall|k: int| 0 <= k < a.len() implies (#[trigger] a[k]).kind == b[k].kind
            && a[k].text == b[k].text by {
            if k > 0 {
                assert(a[k] == spec_tokenize_from(s, e1)[k - 1]);
                assert((spec_tokenize_from(s1, e1) + spec_tokenize(s2))[k - 1] == b[k]) by {
                    assert(spec_tokenize_from(s1, i).drop_first() =~= spec_tokenize_from(s1, e1));
                    if k - 1 < spec_tokenize_from(s1, e1).len() {
                        assert(b[k] == spec_tokenize_from(s1, i)[k]);
                    }
                }
            }
        }
        assert(a.len() == b.len());
    }
}


/// What holds of every token the lexer produces: a free-text token is a
/// nonempty word run spelling no keyword, and only a quote token contains
/// a quote character.
pub open spec fn lexed_token(t: SpecToken) -> bool {
    &&& t.kind == TokenType::Text ==> t.text.len() > 0 && (forall|j: int|
        0 <= j < t.text.len() ==> is_word_char(#[trigger] t.text[j])) && word_kind(t.text)
        == TokenType::Text
    &&& t.kind != TokenType::Quotes ==> forall|j: int|
        0 <= j < t.text.len() ==> (#[trigger] t.text[j]) != '"'
}

pub open spec fn lexed_tokens(ts: Seq<SpecToken>) -> bool {
    forall|k: int| 0 <= k < ts.len() ==> lexed_token(#[trigger] ts[k])
}

/// Every token of a tokenization is a lexed token.
pub proof fn lemma_tokenize_lexed_from(s: Seq<char>, i: int)
    requires
        0 <= i <= s.len(),
    ensures
        lexed_tokens(spec_tokenize_from(s, i)),
    decreases s.len() - i,
{
    if i < s.len() {
        lemma_token_end_past(s, i);
        let e = token_end(s, i);
        lemma_tokenize_lexed_from(s, e);
        let tok = spec_tokenize_from(s, i)[0];
        assert(lexed_token(tok)) by {
            if is_whitespace_char(s[i]) {
                assert forall|j: int| 0 <= j < tok.text.len() implies (#[trigger] tok.text[j])
                    != '"' by {
                    lemma_whitespace_run_chars(s, i, i + j);
                }
            } else if is_word_char(s[i]) {
                assert forall|j: int| 0 <= j < tok.text.len() implies is_word_char(
                    #[trigger] tok.text[j],
                ) && tok.text[j] != '"' by {
                    lemma_word_run_chars(s, i, i + j);
                }
            } else if is_punct_char(s[i]) {
                if tok.kind != TokenType::Quotes {
                    assert(s[i] != '"');
                    assert(tok.text =~= seq![s[i]]);
                }
            } else {
                assert forall|j: int| 0 <= j < tok.text.len() implies (#[trigger] tok.text[j])
                    != '"' by {
                    lemma_unknown_run_chars(s, i, i + j);
                }
            }
        }
        assert forall|k: int| 0 <= k < spec_tokenize_from(s, i).len() implies lexed_token(
            #[trigger] spec_tokenize_from(s, i)[k],
        ) by {
            if k > 0 {
                assert(spec_tokenize_from(s, i)[k] == spec_tokenize_from(s, e)[k - 1]);
            }
        }
    }
}

pub proof fn lemma_tokenize_lexed(s: Seq<char>)
    ensures
        lexed_tokens(spec_tokenize(s)),
{
    lemma_tokenize_lexed_from(s, 0);
}

} // verus!
