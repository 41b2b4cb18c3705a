//! Grammar idempotence: parsing a serialized tree gives the tree back.
//!
//! The main result, [`lemma_serialize_parse_round_trip`]: tokenizing and
//! parsing the serialized text of any well-formed node sequence succeeds
//! and yields structurally equal nodes.  It rests on two halves: parsing
//! the canonical token emission gives the nodes back, and the serialized
//! text tokenizes to exactly that emission.

use vstd::prelude::*;

use crate::errors::ParseError;
use crate::grammar::spec_multiline_body;
use crate::grammar::spec_parse_enum;
use crate::grammar::spec_parse_enum_body;
use crate::grammar::spec_parse_interface;
use crate::grammar::spec_parse_interface_body;
use crate::grammar::spec_parse_multiline_string;
use crate::grammar::spec_parse_string;
use crate::grammar::spec_parse_string_close;
use crate::grammar::spec_parse_string_literal;
use crate::grammar::spec_parse_top;
use crate::grammar::spec_parse_variable;
use crate::grammar::spec_parse_variable_rest;
use crate::grammar::spec_parse_variable_type;
use crate::grammar::spec_parse_variant;
use crate::grammar::spec_parse_variant_close;
use crate::grammar::SpecEntity;
use crate::grammar::SpecEnumVariant;
use crate::grammar::SpecNode;
use crate::grammar::SpecVariable;
use crate::grammar::SpecVariableType;
use crate::helpers::next_significant;
use crate::serialize::canon;
use crate::serialize::colon_tok;
use crate::serialize::lbrace_tok;
use crate::serialize::modifier_tok;
use crate::serialize::name_tok;
use crate::serialize::quote_tok;
use crate::serialize::rbrace_tok;
use crate::serialize::semi_tok;
use crate::serialize::similar_node;
use crate::serialize::similar_nodes;
use crate::serialize::tokens_of_enum_items;
use crate::serialize::tokens_of_interface_items;
use crate::serialize::tokens_of_node;
use crate::serialize::tokens_of_nodes;
use crate::serialize::tokens_of_quoted;
use crate::serialize::tokens_of_variable;
use crate::serialize::tokens_of_variant;
use crate::serialize::wf_name;
use crate::serialize::wf_node;
use crate::serialize::wf_nodes;
use crate::serialize::wf_value;
use crate::serialize::wf_variable;
use crate::serialize::wf_variant;
use crate::serialize::ws_tok;
use crate::tokens::lemma_texts_of_concat;
use crate::helpers::lemma_next_significant_bounds;
use crate::tokens::lemma_tokenize_covers;
use crate::tokens::lexed_token;
use crate::tokens::lexed_tokens;
use crate::tokens::lemma_tokenize_no_quotes;
use crate::tokens::spec_tokenize;
use crate::tokens::spec_tokenize_from;
use crate::tokens::tokens_similar;
use crate::tokens::is_word_char;
use crate::tokens::word_kind;
use crate::tokens::texts_of;
use crate::tokens::Span;
use crate::tokens::SpecToken;
use crate::tokens::TokenType;

verus! {

/// The tokens of `ts` starting at `i` agree with `pat` in kind and text.
/// Spans are left free: the parse result of a successful parse does not
/// depend on them.
pub open spec fn matches_at(ts: Seq<SpecToken>, i: int, pat: Seq<SpecToken>) -> bool {
    &&& 0 <= i
    &&& i + pat.len() <= ts.len()
    &&& forall|k: int|
        0 <= k < pat.len() ==> (#[trigger] pat[k]).kind == ts[i + k].kind && pat[k].text == ts[i
            + k].text
}

/// A match against a concatenation splits into matches of the parts.
proof fn lemma_matches_split(ts: Seq<SpecToken>, i: int, a: Seq<SpecToken>, b: Seq<SpecToken>)
    requires
        matches_at(ts, i, a + b),
    ensures
        matches_at(ts, i, a),
        matches_at(ts, i + a.len(), b),
{
    assert forall|k: int| 0 <= k < a.len() implies (#[trigger] a[k]).kind == ts[i + k].kind
        && a[k].text == ts[i + k].text by {
        assert((a + b)[k] == a[k]);
    }
    assert forall|k: int| 0 <= k < b.len() implies (#[trigger] b[k]).kind == ts[i + a.len()
        + k].kind && b[k].text == ts[i + a.len() + k].text by {
        assert((a + b)[a.len() + k] == b[k]);
    }
}

/// Scanning with no tokens left to skip finds the first significant token.
proof fn lemma_ns_zero(ts: Seq<SpecToken>, m: int, j: int)
    requires
        0 <= m <= j < ts.len(),
        forall|x: int| m <= x < j ==> (#[trigger] ts[x]).kind == TokenType::Whitespace,
        ts[j].kind != TokenType::Whitespace,
    ensures
        next_significant(ts, m, 0) == Some(j),
    decreases j - m,
{
    if m < j {
        lemma_ns_zero(ts, m + 1, j);
    }
}

/// From a significant token, the next significant token is the first
/// non-whitespace one after it.
proof fn lemma_ns_after(ts: Seq<SpecToken>, i: int, j: int)
    requires
        0 <= i < j < ts.len(),
        ts[i].kind != TokenType::Whitespace,
        ts[j].kind != TokenType::Whitespace,
        forall|x: int| i < x < j ==> (#[trigger] ts[x]).kind == TokenType::Whitespace,
    ensures
        next_significant(ts, i, 1) == Some(j),
{
    lemma_ns_zero(ts, i + 1, j);
}

/// Scanning a quoted literal over tokens that agree with a quote-free
/// pattern collects exactly the pattern's text and stops at the quote.
proof fn lemma_multiline_pattern(ts: Seq<SpecToken>, i: int, q: Seq<SpecToken>, opening: Span)
    requires
        matches_at(ts, i, q + seq![quote_tok()]),
        forall|k: int| 0 <= k < q.len() ==> (#[trigger] q[k]).kind != TokenType::Quotes,
    ensures
        spec_multiline_body(ts, i, opening) == Ok::<(Seq<char>, int), ParseError>(
            (texts_of(q), i + q.len() + 1),
        ),
    decreases q.len(),
{
    assert((q + seq![quote_tok()])[q.len() as int] == quote_tok());
    if q.len() == 0 {
        assert(ts[i].kind == TokenType::Quotes);
        assert(texts_of(q) =~= Seq::<char>::empty());
    } else {
        assert((q + seq![quote_tok()])[0] == q[0]);
        assert(ts[i].kind == q[0].kind);
        assert(ts[i].kind != TokenType::Quotes);
        assert(q.drop_first() + seq![quote_tok()] =~= (q + seq![quote_tok()]).drop_first());
        assert forall|k: int|
            0 <= k < (q.drop_first() + seq![quote_tok()]).len() implies (#[trigger] (
        q.drop_first() + seq![quote_tok()])[k]).kind == ts[i + 1 + k].kind && (q.drop_first()
            + seq![quote_tok()])[k].text == ts[i + 1 + k].text by {
            assert((q + seq![quote_tok()])[k + 1] == (q.drop_first() + seq![quote_tok()])[k]);
        }
        lemma_multiline_pattern(ts, i + 1, q.drop_first(), opening);
        assert(ts[i].text == q[0].text);
        assert(texts_of(q) == q[0].text + texts_of(q.drop_first()));
    }
}

/// Parsing a quoted literal at its emission: the value comes back verbatim.
proof fn lemma_quoted_roundtrip(ts: Seq<SpecToken>, i: int, value: Seq<char>)
    requires
        matches_at(ts, i, tokens_of_quoted(value)),
        wf_value(value),
    ensures
        spec_parse_multiline_string(ts, i) == Ok::<(Seq<char>, int), ParseError>(
            (value, i + tokens_of_quoted(value).len()),
        ),
{
    let q = spec_tokenize(value);
    assert(tokens_of_quoted(value)[0] == quote_tok());
    assert(ts[i].kind == TokenType::Quotes);
    assert(0 <= i < ts.len());
    assert(seq![quote_tok()] + (q + seq![quote_tok()]) =~= tokens_of_quoted(value));
    lemma_matches_split(ts, i, seq![quote_tok()], q + seq![quote_tok()]);
    lemma_tokenize_no_quotes(value, 0);
    lemma_multiline_pattern(ts, i + 1, q, ts[i].span);
    lemma_tokenize_covers(value);
    assert(spec_parse_multiline_string(ts, i) == spec_multiline_body(ts, i + 1, ts[i].span));
    assert(i + 1 + q.len() + 1 == i + tokens_of_quoted(value).len());
}


/// Parsing an enum variant at its emission gives the variant back.
proof fn lemma_variant_roundtrip(ts: Seq<SpecToken>, i: int, v: SpecEnumVariant)
    requires
        matches_at(ts, i, tokens_of_variant(v)),
        wf_variant(v),
    ensures
        spec_parse_variant(ts, i) == Ok::<(SpecEnumVariant, int), ParseError>(
            (v, i + tokens_of_variant(v).len()),
        ),
{
    let value = match v.value {
        Some(value) => value,
        None => Seq::<char>::empty(),
    };
    let head = seq![name_tok(v.name), colon_tok(), ws_tok()];
    let quoted = tokens_of_quoted(value);
    let pat = tokens_of_variant(v);
    assert(pat =~= (head + quoted) + seq![semi_tok()]);
    lemma_matches_split(ts, i, head + quoted, seq![semi_tok()]);
    lemma_matches_split(ts, i, head, quoted);
    assert(head[0] == name_tok(v.name));
    assert(head[1] == colon_tok());
    assert(head[2] == ws_tok());
    assert(ts[i].kind == TokenType::Text);
    assert(ts[i].text == v.name);
    assert(ts[i + 1].kind == TokenType::VariableConnection);
    assert(ts[i + 2].kind == TokenType::Whitespace);
    let qlen = quoted.len() as int;
    assert(quoted[0] == quote_tok());
    assert(ts[i + 3].kind == TokenType::Quotes);
    assert((seq![semi_tok()])[0] == semi_tok());
    assert(ts[i + 3 + qlen].kind == TokenType::Semicolon);
    lemma_ns_after(ts, i, i + 1);
    lemma_ns_after(ts, i + 1, i + 3);
    lemma_quoted_roundtrip(ts, i + 3, value);
    let mend = i + 3 + qlen;
    assert(ts[mend - 1].kind == TokenType::Quotes) by {
        assert(quoted[qlen - 1] == quote_tok());
    }
    lemma_ns_after(ts, mend - 1, mend);
    assert(spec_parse_variant_close(ts, mend - 1, ts[i].text, value) == Ok::<
        (SpecEnumVariant, int),
        ParseError,
    >((SpecEnumVariant { name: ts[i].text, value: Some(value) }, mend + 1)));
    assert(SpecEnumVariant { name: ts[i].text, value: Some(value) } == v);
    assert(mend + 1 == i + pat.len());
}


/// Parsing a field at its emission gives the field back.
proof fn lemma_variable_roundtrip(ts: Seq<SpecToken>, i: int, v: SpecVariable)
    requires
        matches_at(ts, i, tokens_of_variable(v)),
        wf_variable(v),
    ensures
        spec_parse_variable(ts, i) == Ok::<(SpecVariable, int), ParseError>(
            (v, i + tokens_of_variable(v).len()),
        ),
{
    let head = seq![
        modifier_tok(v.is_required),
        ws_tok(),
        name_tok(v.name),
        colon_tok(),
        ws_tok(),
        canon(TokenType::StringType, "String"@),
    ];
    let pat = tokens_of_variable(v);
    match v.variable_type {
        SpecVariableType::String(literal) => match literal {
            None => {
                assert(pat =~= head + seq![semi_tok()]);
                lemma_matches_split(ts, i, head, seq![semi_tok()]);
                assert(head[0] == modifier_tok(v.is_required));
                assert(head[1] == ws_tok());
                assert(head[2] == name_tok(v.name));
                assert(head[3] == colon_tok());
                assert(head[4] == ws_tok());
                assert(head[5] == canon(TokenType::StringType, "String"@));
                assert((seq![semi_tok()])[0] == semi_tok());
                assert(ts[i + 6].kind == TokenType::Semicolon);
                lemma_ns_after(ts, i, i + 2);
                lemma_ns_after(ts, i + 2, i + 3);
                lemma_ns_after(ts, i + 3, i + 5);
                lemma_ns_after(ts, i + 5, i + 6);
                assert(spec_parse_string(ts, i + 5) == Ok::<(SpecVariableType, int), ParseError>(
                    (SpecVariableType::String(None), i + 6),
                ));
                assert(spec_parse_variable_type(ts, i + 5) == Ok::<
                    (SpecVariableType, int),
                    ParseError,
                >((SpecVariableType::String(None), i + 6)));
                assert(spec_parse_variable_rest(ts, i, i + 2, v.is_required) == Ok::<
                    (SpecVariable, int),
                    ParseError,
                >(
                    (
                        SpecVariable {
                            name: ts[i + 2].text,
                            variable_type: SpecVariableType::String(None),
                            is_required: v.is_required,
                        },
                        i + 7,
                    ),
                ));
                assert(SpecVariable {
                    name: ts[i + 2].text,
                    variable_type: SpecVariableType::String(None),
                    is_required: v.is_required,
                } == v);
            },
            Some(value) => {
                let mid = seq![ws_tok(), lbrace_tok(), ws_tok()];
                let quoted = tokens_of_quoted(value);
                let tail = seq![ws_tok(), rbrace_tok(), semi_tok()];
                let qlen = quoted.len() as int;
                assert(pat =~= ((head + mid) + quoted) + tail);
                lemma_matches_split(ts, i, (head + mid) + quoted, tail);
                lemma_matches_split(ts, i, head + mid, quoted);
                lemma_matches_split(ts, i, head, mid);
                assert(head[0] == modifier_tok(v.is_required));
                assert(head[1] == ws_tok());
                assert(head[2] == name_tok(v.name));
                assert(head[3] == colon_tok());
                assert(head[4] == ws_tok());
                assert(head[5] == canon(TokenType::StringType, "String"@));
                assert(mid[0] == ws_tok());
                assert(mid[1] == lbrace_tok());
                assert(mid[2] == ws_tok());
                assert(ts[i + 6].kind == TokenType::Whitespace);
                assert(ts[i + 7].kind == TokenType::RightCurlyBraces);
                assert(ts[i + 8].kind == TokenType::Whitespace);
                assert(quoted[0] == quote_tok());
                assert(quoted[qlen - 1] == quote_tok());
                assert(ts[i + 9].kind == TokenType::Quotes);
                assert(ts[i + 8 + qlen].kind == TokenType::Quotes);
                assert(tail[0] == ws_tok());
                assert(tail[1] == rbrace_tok());
                assert(tail[2] == semi_tok());
                assert(ts[i + 9 + qlen].kind == TokenType::Whitespace);
                assert(ts[i + 10 + qlen].kind == TokenType::LeftCurlyBraces);
                assert(ts[i + 11 + qlen].kind == TokenType::Semicolon);
                lemma_ns_after(ts, i, i + 2);
                lemma_ns_after(ts, i + 2, i + 3);
                lemma_ns_after(ts, i + 3, i + 5);
                lemma_ns_after(ts, i + 5, i + 7);
                lemma_ns_after(ts, i + 7, i + 9);
                lemma_quoted_roundtrip(ts, i + 9, value);
                lemma_ns_after(ts, i + 8 + qlen, i + 10 + qlen);
                assert(spec_parse_string_close(ts, i + 8 + qlen, value) == Ok::<
                    (SpecVariableType, int),
                    ParseError,
                >((SpecVariableType::String(Some(value)), i + 11 + qlen)));
                assert(spec_parse_string_literal(ts, i + 7) == Ok::<
                    (SpecVariableType, int),
                    ParseError,
                >((SpecVariableType::String(Some(value)), i + 11 + qlen)));
                assert(spec_parse_string(ts, i + 5) == Ok::<(SpecVariableType, int), ParseError>(
                    (SpecVariableType::String(Some(value)), i + 11 + qlen),
                ));
                lemma_ns_after(ts, i + 10 + qlen, i + 11 + qlen);
                assert(spec_parse_variable_rest(ts, i, i + 2, v.is_required) == Ok::<
                    (SpecVariable, int),
                    ParseError,
                >(
                    (
                        SpecVariable {
                            name: ts[i + 2].text,
                            variable_type: SpecVariableType::String(Some(value)),
                            is_required: v.is_required,
                        },
                        i + 12 + qlen,
                    ),
                ));
                assert(SpecVariable {
                    name: ts[i + 2].text,
                    variable_type: SpecVariableType::String(Some(value)),
                    is_required: v.is_required,
                } == v);
                assert(i + 12 + qlen == i + pat.len());
            },
        },
    }
}


/// Parsing an enum body at its emission collects exactly the variants and
/// stops at the closing brace.
proof fn lemma_enum_items_roundtrip(
    ts: Seq<SpecToken>,
    i: int,
    variants: Seq<SpecEnumVariant>,
    opening: Span,
)
    requires
        matches_at(ts, i, tokens_of_enum_items(variants)),
        forall|k: int| 0 <= k < variants.len() ==> wf_variant(#[trigger] variants[k]),
    ensures
        spec_parse_enum_body(ts, i, opening) == Ok::<(Seq<SpecEnumVariant>, int), ParseError>(
            (variants, i + tokens_of_enum_items(variants).len() - 1),
        ),
    decreases variants.len(),
{
    let pat = tokens_of_enum_items(variants);
    if variants.len() == 0 {
        assert(pat[0] == ws_tok());
        assert(pat[1] == rbrace_tok());
        assert(ts[i].kind == TokenType::Whitespace);
        assert(ts[i + 1].kind == TokenType::LeftCurlyBraces);
        assert(spec_parse_enum_body(ts, i, opening) == spec_parse_enum_body(ts, i + 1, opening));
        assert(Seq::<SpecEnumVariant>::empty() =~= variants);
    } else {
        let vpat = tokens_of_variant(variants[0]);
        let rest = tokens_of_enum_items(variants.drop_first());
        let vlen = vpat.len() as int;
        assert(pat =~= (seq![ws_tok()] + vpat) + rest);
        lemma_matches_split(ts, i, seq![ws_tok()] + vpat, rest);
        lemma_matches_split(ts, i, seq![ws_tok()], vpat);
        assert((seq![ws_tok()])[0] == ws_tok());
        assert(ts[i].kind == TokenType::Whitespace);
        assert(vpat[0] == name_tok(variants[0].name));
        assert(ts[i + 1].kind == TokenType::Text);
        lemma_variant_roundtrip(ts, i + 1, variants[0]);
        assert(tokens_of_quoted(
            match variants[0].value {
                Some(value) => value,
                None => Seq::<char>::empty(),
            },
        ).len() >= 2);
        assert(vlen >= 6);
        let end = i + 1 + vlen;
        assert(crate::grammar::next_scan_index(i + 1, end, ts.len() as int) == end);
        lemma_enum_items_roundtrip(ts, end, variants.drop_first(), opening);
        assert(spec_parse_enum_body(ts, i, opening) == spec_parse_enum_body(ts, i + 1, opening));
        assert(seq![variants[0]] + variants.drop_first() =~= variants);
        assert(i + 1 + vlen + rest.len() - 1 == i + pat.len() - 1);
    }
}

/// Parsing an enumeration at its emission gives a structurally equal node.
proof fn lemma_enum_roundtrip(ts: Seq<SpecToken>, i: int, n: SpecNode)
    requires
        matches_at(ts, i, tokens_of_node(n)),
        wf_node(n),
        n.entity is Enum,
    ensures
        spec_parse_enum(ts, i) matches Ok(p) && similar_node(p.0, n) && p.1 == i + tokens_of_node(
            n,
        ).len(),
{
    let e = n.entity->Enum_0;
    let head = seq![
        canon(TokenType::EnumerateDeclaration, "enum"@),
        ws_tok(),
        name_tok(e.name),
        ws_tok(),
        lbrace_tok(),
    ];
    let items = tokens_of_enum_items(e.variants);
    let pat = tokens_of_node(n);
    let ilen = items.len() as int;
    assert(pat =~= (head + items) + seq![semi_tok()]);
    lemma_matches_split(ts, i, head + items, seq![semi_tok()]);
    lemma_matches_split(ts, i, head, items);
    assert(head[0] == canon(TokenType::EnumerateDeclaration, "enum"@));
    assert(head[1] == ws_tok());
    assert(head[2] == name_tok(e.name));
    assert(head[3] == ws_tok());
    assert(head[4] == lbrace_tok());
    assert((seq![semi_tok()])[0] == semi_tok());
    assert(ts[i].kind == TokenType::EnumerateDeclaration);
    assert(ts[i + 2].kind == TokenType::Text);
    assert(ts[i + 4].kind == TokenType::RightCurlyBraces);
    assert(ts[i + 5 + ilen].kind == TokenType::Semicolon);
    lemma_ns_after(ts, i, i + 2);
    lemma_ns_after(ts, i + 2, i + 4);
    assert(items[0] == ws_tok());
    assert(matches_at(ts, i + 5, items));
    lemma_enum_items_roundtrip(ts, i + 5, e.variants, ts[i + 4].span);
    let close = i + 4 + ilen;
    assert(ts[close].kind == TokenType::LeftCurlyBraces) by {
        lemma_items_end_brace(e.variants);
        assert(items[ilen - 1] == rbrace_tok());
    }
    lemma_ns_after(ts, close, close + 1);
    let result = SpecNode {
        start: i,
        end: close + 2,
        nodes: Seq::empty(),
        entity: SpecEntity::Enum(crate::grammar::SpecEnum { name: ts[i + 2].text, variants: e.variants }),
    };
    assert(spec_parse_enum(ts, i) == Ok::<(SpecNode, int), ParseError>((result, close + 2)));
    assert(ts[i + 2].text == e.name);
    assert(similar_node(result, n));
    assert(close + 2 == i + pat.len());
}

/// An enum body emission ends with its closing brace token.
proof fn lemma_items_end_brace(variants: Seq<SpecEnumVariant>)
    ensures
        tokens_of_enum_items(variants).len() >= 2,
        tokens_of_enum_items(variants).last() == rbrace_tok(),
    decreases variants.len(),
{
    if variants.len() > 0 {
        lemma_items_end_brace(variants.drop_first());
    }
}


/// An interface body emission ends with its closing brace token.
proof fn lemma_iface_items_end_brace(variables: Seq<SpecVariable>, children: Seq<SpecNode>)
    ensures
        tokens_of_interface_items(variables, children).len() >= 2,
        tokens_of_interface_items(variables, children).last() == rbrace_tok(),
    decreases children, variables.len(),
{
    if variables.len() > 0 {
        lemma_iface_items_end_brace(variables.drop_first(), children);
    } else if children.len() > 0 {
        lemma_iface_items_end_brace(variables, children.drop_first());
    }
}

/// Parsing an interface body at its emission collects exactly the fields
/// and structurally equal children, and stops at the closing brace.
proof fn lemma_interface_items_roundtrip(
    ts: Seq<SpecToken>,
    i: int,
    variables: Seq<SpecVariable>,
    children: Seq<SpecNode>,
    opening: Span,
)
    requires
        matches_at(ts, i, tokens_of_interface_items(variables, children)),
        forall|k: int| 0 <= k < variables.len() ==> wf_variable(#[trigger] variables[k]),
        wf_nodes(children),
    ensures
        spec_parse_interface_body(ts, i, opening) matches Ok(p) && similar_nodes(p.0, children)
            && p.1 == variables && p.2 == i + tokens_of_interface_items(
            variables,
            children,
        ).len() - 1,
    decreases children, variables.len(), 1int,
{
    let pat = tokens_of_interface_items(variables, children);
    if variables.len() > 0 {
        let vpat = tokens_of_variable(variables[0]);
        let rest = tokens_of_interface_items(variables.drop_first(), children);
        let vlen = vpat.len() as int;
        assert(pat =~= (seq![ws_tok()] + vpat) + rest);
        lemma_matches_split(ts, i, seq![ws_tok()] + vpat, rest);
        lemma_matches_split(ts, i, seq![ws_tok()], vpat);
        assert((seq![ws_tok()])[0] == ws_tok());
        assert(ts[i].kind == TokenType::Whitespace);
        assert(vpat[0] == modifier_tok(variables[0].is_required));
        assert(ts[i + 1].kind == TokenType::RequiredModifier || ts[i + 1].kind
            == TokenType::OptionalModifier);
        lemma_variable_roundtrip(ts, i + 1, variables[0]);
        assert(vlen >= 7);
        let end = i + 1 + vlen;
        assert(crate::grammar::next_scan_index(i + 1, end, ts.len() as int) == end);
        lemma_interface_items_roundtrip(ts, end, variables.drop_first(), children, opening);
        assert(spec_parse_interface_body(ts, i, opening) == spec_parse_interface_body(
            ts,
            i + 1,
            opening,
        ));
        assert(seq![variables[0]] + variables.drop_first() =~= variables);
        if let Ok(p) = spec_parse_interface_body(ts, end, opening) {
            assert(spec_parse_interface_body(ts, i + 1, opening) matches Ok(q) && q.0 == p.0
                && q.1 == seq![variables[0]] + p.1 && q.2 == p.2);
        }
    } else if children.len() > 0 {
        let npat = tokens_of_node(children[0]);
        let rest = tokens_of_interface_items(variables, children.drop_first());
        let nlen = npat.len() as int;
        assert(pat =~= (seq![ws_tok()] + npat) + rest);
        lemma_matches_split(ts, i, seq![ws_tok()] + npat, rest);
        lemma_matches_split(ts, i, seq![ws_tok()], npat);
        assert((seq![ws_tok()])[0] == ws_tok());
        assert(ts[i].kind == TokenType::Whitespace);
        assert(wf_node(children[0]));
        assert(wf_nodes(children.drop_first()));
        lemma_node_roundtrip(ts, i + 1, children[0]);
        lemma_node_emission_len(children[0]);
        let end = i + 1 + nlen;
        assert(crate::grammar::next_scan_index(i + 1, end, ts.len() as int) == end);
        lemma_interface_items_roundtrip(ts, end, variables, children.drop_first(), opening);
        assert(spec_parse_interface_body(ts, i, opening) == spec_parse_interface_body(
            ts,
            i + 1,
            opening,
        ));
        match children[0].entity {
            SpecEntity::Interface(x) => {
                assert(npat[0] == canon(TokenType::InterfaceDeclaration, "interface"@));
                assert(ts[i + 1].kind == TokenType::InterfaceDeclaration);
                let child = spec_parse_interface(ts, i + 1)->Ok_0.0;
                if let Ok(p) = spec_parse_interface_body(ts, end, opening) {
                    assert(spec_parse_interface_body(ts, i + 1, opening) matches Ok(q) && q.0
                        == seq![child] + p.0 && q.1 == p.1 && q.2 == p.2);
                    assert((seq![child] + p.0)[0] == child);
                    assert((seq![child] + p.0).drop_first() =~= p.0);
                    assert(similar_nodes(seq![child] + p.0, children));
                }
            },
            SpecEntity::Enum(x) => {
                assert(npat[0] == canon(TokenType::EnumerateDeclaration, "enum"@));
                assert(ts[i + 1].kind == TokenType::EnumerateDeclaration);
                let child = spec_parse_enum(ts, i + 1)->Ok_0.0;
                if let Ok(p) = spec_parse_interface_body(ts, end, opening) {
                    assert(spec_parse_interface_body(ts, i + 1, opening) matches Ok(q) && q.0
                        == seq![child] + p.0 && q.1 == p.1 && q.2 == p.2);
                    assert((seq![child] + p.0)[0] == child);
                    assert((seq![child] + p.0).drop_first() =~= p.0);
                    assert(similar_nodes(seq![child] + p.0, children));
                }
            },
        }
    } else {
        assert(pat[0] == ws_tok());
        assert(pat[1] == rbrace_tok());
        assert(ts[i].kind == TokenType::Whitespace);
        assert(ts[i + 1].kind == TokenType::LeftCurlyBraces);
        assert(spec_parse_interface_body(ts, i, opening) == spec_parse_interface_body(
            ts,
            i + 1,
            opening,
        ));
        assert(similar_nodes(Seq::<SpecNode>::empty(), children));
        assert(Seq::<SpecVariable>::empty() =~= variables);
    }
}

/// Every node emission is at least a few tokens long.
proof fn lemma_node_emission_len(n: SpecNode)
    ensures
        tokens_of_node(n).len() >= 7,
{
    match n.entity {
        SpecEntity::Enum(e) => {
            lemma_items_end_brace(e.variants);
        },
        SpecEntity::Interface(x) => {
            lemma_iface_items_end_brace(x.variables, n.nodes);
        },
    }
}

/// Parsing a declaration at its emission gives a structurally equal node.
proof fn lemma_node_roundtrip(ts: Seq<SpecToken>, i: int, n: SpecNode)
    requires
        matches_at(ts, i, tokens_of_node(n)),
        wf_node(n),
    ensures
        n.entity is Interface ==> (spec_parse_interface(ts, i) matches Ok(p) && similar_node(
            p.0,
            n,
        ) && p.1 == i + tokens_of_node(n).len()),
        n.entity is Enum ==> (spec_parse_enum(ts, i) matches Ok(p) && similar_node(p.0, n) && p.1
            == i + tokens_of_node(n).len()),
    decreases n, 2int,
{
    match n.entity {
        SpecEntity::Enum(e) => {
            lemma_enum_roundtrip(ts, i, n);
        },
        SpecEntity::Interface(x) => {
            let head = seq![
                canon(TokenType::InterfaceDeclaration, "interface"@),
                ws_tok(),
                name_tok(x.name),
                ws_tok(),
                lbrace_tok(),
            ];
            let items = tokens_of_interface_items(x.variables, n.nodes);
            let pat = tokens_of_node(n);
            let ilen = items.len() as int;
            assert(pat =~= (head + items) + seq![semi_tok()]);
            lemma_matches_split(ts, i, head + items, seq![semi_tok()]);
            lemma_matches_split(ts, i, head, items);
            assert(head[0] == canon(TokenType::InterfaceDeclaration, "interface"@));
            assert(head[1] == ws_tok());
            assert(head[2] == name_tok(x.name));
            assert(head[3] == ws_tok());
            assert(head[4] == lbrace_tok());
            assert((seq![semi_tok()])[0] == semi_tok());
            assert(ts[i].kind == TokenType::InterfaceDeclaration);
            assert(ts[i + 2].kind == TokenType::Text);
            assert(ts[i + 4].kind == TokenType::RightCurlyBraces);
            assert(ts[i + 5 + ilen].kind == TokenType::Semicolon);
            lemma_ns_after(ts, i, i + 2);
            lemma_ns_after(ts, i + 2, i + 4);
            assert(matches_at(ts, i + 5, items));
            lemma_interface_items_roundtrip(ts, i + 5, x.variables, n.nodes, ts[i + 4].span);
            let close = i + 4 + ilen;
            assert(ts[close].kind == TokenType::LeftCurlyBraces) by {
                lemma_iface_items_end_brace(x.variables, n.nodes);
                assert(items[ilen - 1] == rbrace_tok());
            }
            lemma_ns_after(ts, close, close + 1);
            if let Ok(body) = spec_parse_interface_body(ts, i + 5, ts[i + 4].span) {
                let result = SpecNode {
                    start: i,
                    end: close + 2,
                    nodes: body.0,
                    entity: SpecEntity::Interface(
                        crate::grammar::SpecInterface { name: ts[i + 2].text, variables: body.1 },
                    ),
                };
                assert(spec_parse_interface(ts, i) == Ok::<(SpecNode, int), ParseError>(
                    (result, close + 2),
                ));
                assert(ts[i + 2].text == x.name);
                assert(crate::grammar::SpecInterface { name: ts[i + 2].text, variables: body.1 }
                    =~~= x);
                assert(similar_node(result, n));
                assert(close + 2 == i + pat.len());
            }
        },
    }
}


/// Parsing a whole program at its emission, which fills the stream to its
/// end, gives structurally equal top-level nodes.
proof fn lemma_program_roundtrip(ts: Seq<SpecToken>, i: int, nodes: Seq<SpecNode>)
    requires
        matches_at(ts, i, tokens_of_nodes(nodes)),
        i + tokens_of_nodes(nodes).len() == ts.len(),
        wf_nodes(nodes),
    ensures
        spec_parse_top(ts, i) matches Ok(ns) && similar_nodes(ns, nodes),
    decreases nodes.len(),
{
    if nodes.len() == 0 {
        assert(spec_parse_top(ts, i) == Ok::<Seq<SpecNode>, ParseError>(Seq::empty()));
        assert(similar_nodes(Seq::<SpecNode>::empty(), nodes));
    } else {
        let npat = tokens_of_node(nodes[0]);
        let rest = tokens_of_nodes(nodes.drop_first());
        let nlen = npat.len() as int;
        let pat = tokens_of_nodes(nodes);
        assert(pat =~= (npat + seq![ws_tok()]) + rest);
        lemma_matches_split(ts, i, npat + seq![ws_tok()], rest);
        lemma_matches_split(ts, i, npat, seq![ws_tok()]);
        assert((seq![ws_tok()])[0] == ws_tok());
        assert(ts[i + nlen].kind == TokenType::Whitespace);
        assert(wf_node(nodes[0]));
        assert(wf_nodes(nodes.drop_first()));
        lemma_node_roundtrip(ts, i, nodes[0]);
        lemma_node_emission_len(nodes[0]);
        let end = i + nlen;
        assert(crate::grammar::next_scan_index(i, end, ts.len() as int) == end);
        lemma_program_roundtrip(ts, end + 1, nodes.drop_first());
        assert(spec_parse_top(ts, end) == spec_parse_top(ts, end + 1));
        match nodes[0].entity {
            SpecEntity::Interface(x) => {
                assert(npat[0] == canon(TokenType::InterfaceDeclaration, "interface"@));
                assert(ts[i].kind == TokenType::InterfaceDeclaration);
                let child = spec_parse_interface(ts, i)->Ok_0.0;
                if let Ok(ns) = spec_parse_top(ts, end + 1) {
                    assert(spec_parse_top(ts, i) matches Ok(out) && out == seq![child] + ns);
                    assert((seq![child] + ns)[0] == child);
                    assert((seq![child] + ns).drop_first() =~= ns);
                    assert(similar_nodes(seq![child] + ns, nodes));
                }
            },
            SpecEntity::Enum(x) => {
                assert(npat[0] == canon(TokenType::EnumerateDeclaration, "enum"@));
                assert(ts[i].kind == TokenType::EnumerateDeclaration);
                let child = spec_parse_enum(ts, i)->Ok_0.0;
                if let Ok(ns) = spec_parse_top(ts, end + 1) {
                    assert(spec_parse_top(ts, i) matches Ok(out) && out == seq![child] + ns);
                    assert((seq![child] + ns)[0] == child);
                    assert((seq![child] + ns).drop_first() =~= ns);
                    assert(similar_nodes(seq![child] + ns, nodes));
                }
            },
        }
    }
}

/// A word run, alone, tokenizes to its single word token.
proof fn lemma_word_end_full(s: Seq<char>, i: int)
    requires
        0 <= i <= s.len(),
        forall|j: int| i <= j < s.len() ==> is_word_char(#[trigger] s[j]),
    ensures
        crate::tokens::word_end(s, i) == s.len(),
    decreases s.len() - i,
{
    if i < s.len() {
        lemma_word_end_full(s, i + 1);
    }
}

proof fn lemma_tokenize_word_run(w: Seq<char>)
    requires
        w.len() > 0,
        forall|j: int| 0 <= j < w.len() ==> is_word_char(#[trigger] w[j]),
    ensures
        tokens_similar(spec_tokenize(w), seq![canon(word_kind(w), w)]),
{
    lemma_word_end_full(w, 0);
    assert(crate::tokens::token_end(w, 0) == w.len());
    assert(w.subrange(0, w.len() as int) =~= w);
    assert(spec_tokenize_from(w, w.len() as int) =~= Seq::<SpecToken>::empty());
    let a = spec_tokenize(w);
    assert(a.len() == 1);
    assert(a[0].kind == word_kind(w) && a[0].text == w);
}

proof fn lemma_tokenize_one_char(s: Seq<char>)
    requires
        s.len() == 1,
        !is_word_char(s[0]),
    ensures
        tokens_similar(
            spec_tokenize(s),
            seq![canon(crate::tokens::token_kind_at(s, 0), s)],
        ),
{
    if crate::tokens::is_whitespace_char(s[0]) {
        assert(crate::tokens::whitespace_end(s, 1) == 1);
        assert(crate::tokens::token_end(s, 0) == 1);
    } else if crate::tokens::is_punct_char(s[0]) {
        assert(crate::tokens::token_end(s, 0) == 1);
    } else {
        assert(crate::tokens::unknown_end(s, 1) == 1);
        assert(crate::tokens::token_end(s, 0) == 1);
    }
    assert(s.subrange(0, 1) =~= s);
    assert(spec_tokenize_from(s, 1) =~= Seq::<SpecToken>::empty());
    let a = spec_tokenize(s);
    assert(a.len() == 1);
}

/// A pattern is sound when its joined text tokenizes back to it.
pub open spec fn sound(pat: Seq<SpecToken>) -> bool {
    tokens_similar(spec_tokenize(texts_of(pat)), pat)
}

proof fn lemma_similar_concat(
    a1: Seq<SpecToken>,
    a2: Seq<SpecToken>,
    b1: Seq<SpecToken>,
    b2: Seq<SpecToken>,
)
    requires
        tokens_similar(a1, b1),
        tokens_similar(a2, b2),
    ensures
        tokens_similar(a1 + a2, b1 + b2),
{
    assert forall|k: int| 0 <= k < (a1 + a2).len() implies (#[trigger] (a1 + a2)[k]).kind == (b1
        + b2)[k].kind && (a1 + a2)[k].text == (b1 + b2)[k].text by {
        if k < a1.len() {
            assert((a1 + a2)[k] == a1[k] && (b1 + b2)[k] == b1[k]);
        } else {
            assert((a1 + a2)[k] == a2[k - a1.len()] && (b1 + b2)[k] == b2[k - b1.len()]);
        }
    }
}

/// Sound patterns concatenate over a safe text boundary.
proof fn lemma_sound_concat(a: Seq<SpecToken>, b: Seq<SpecToken>)
    requires
        sound(a),
        sound(b),
        texts_of(a).len() > 0 && texts_of(b).len() > 0 ==> crate::tokens::safe_boundary(
            texts_of(a).last(),
            texts_of(b).first(),
        ),
    ensures
        sound(a + b),
{
    lemma_texts_of_concat(a, b);
    crate::tokens::lemma_tokenize_concat(texts_of(a), texts_of(b));
    lemma_similar_concat(
        spec_tokenize(texts_of(a)),
        spec_tokenize(texts_of(b)),
        a,
        b,
    );
    let x = spec_tokenize(texts_of(a + b));
    let y = spec_tokenize(texts_of(a)) + spec_tokenize(texts_of(b));
    let z = a + b;
    assert(tokens_similar(x, y));
    assert(tokens_similar(y, z));
    assert forall|k: int| 0 <= k < x.len() implies (#[trigger] x[k]).kind == z[k].kind
        && x[k].text == z[k].text by {
        assert(x[k].kind == y[k].kind && x[k].text == y[k].text);
    }
}

/// A single word token whose spelling classifies as its kind is sound.
proof fn lemma_sound_word_tok(kind: TokenType, w: Seq<char>)
    requires
        w.len() > 0,
        forall|j: int| 0 <= j < w.len() ==> is_word_char(#[trigger] w[j]),
        word_kind(w) == kind,
    ensures
        sound(seq![canon(kind, w)]),
        texts_of(seq![canon(kind, w)]) == w,
{
    crate::serialize::lemma_texts_of_single(canon(kind, w));
    lemma_tokenize_word_run(w);
}

/// A single punctuation token is sound.
proof fn lemma_sound_punct_tok(kind: TokenType, s: Seq<char>)
    requires
        s.len() == 1,
        crate::tokens::is_punct_char(s[0]),
        crate::tokens::punct_kind(s[0]) == kind,
    ensures
        sound(seq![canon(kind, s)]),
        texts_of(seq![canon(kind, s)]) == s,
{
    crate::serialize::lemma_texts_of_single(canon(kind, s));
    lemma_tokenize_one_char(s);
}

proof fn lemma_kw_interface()
    ensures
        "interface"@.len() == 9,
        forall|j: int| 0 <= j < 9 ==> is_word_char(#[trigger] "interface"@[j]),
        word_kind("interface"@) == TokenType::InterfaceDeclaration,
{
    reveal_strlit("interface");
}

proof fn lemma_kw_enum()
    ensures
        "enum"@.len() == 4,
        forall|j: int| 0 <= j < 4 ==> is_word_char(#[trigger] "enum"@[j]),
        word_kind("enum"@) == TokenType::EnumerateDeclaration,
{
    reveal_strlit("enum");
    reveal_strlit("interface");
    assert("enum"@.len() == 4 && "interface"@.len() == 9);
    assert("enum"@ != "interface"@);
}

proof fn lemma_kw_required()
    ensures
        "required"@.len() == 8,
        forall|j: int| 0 <= j < 8 ==> is_word_char(#[trigger] "required"@[j]),
        word_kind("required"@) == TokenType::RequiredModifier,
{
    reveal_strlit("required");
    reveal_strlit("interface");
    reveal_strlit("enum");
    assert("required"@.len() == 8 && "interface"@.len() == 9 && "enum"@.len() == 4);
    assert("required"@ != "interface"@ && "required"@ != "enum"@);
}

proof fn lemma_kw_optional()
    ensures
        "optional"@.len() == 8,
        forall|j: int| 0 <= j < 8 ==> is_word_char(#[trigger] "optional"@[j]),
        word_kind("optional"@) == TokenType::OptionalModifier,
{
    reveal_strlit("optional");
    reveal_strlit("interface");
    reveal_strlit("enum");
    reveal_strlit("required");
    assert("optional"@.len() == 8 && "interface"@.len() == 9 && "enum"@.len() == 4
        && "required"@.len() == 8);
    assert("optional"@ != "interface"@ && "optional"@ != "enum"@);
    assert("optional"@[0] == 'o' && "required"@[0] == 'r');
    assert("optional"@ != "required"@);
}

proof fn lemma_kw_string_type()
    ensures
        "String"@.len() == 6,
        forall|j: int| 0 <= j < 6 ==> is_word_char(#[trigger] "String"@[j]),
        word_kind("String"@) == TokenType::StringType,
{
    reveal_strlit("String");
    reveal_strlit("interface");
    reveal_strlit("enum");
    reveal_strlit("required");
    reveal_strlit("optional");
    assert("String"@.len() == 6 && "interface"@.len() == 9 && "enum"@.len() == 4
        && "required"@.len() == 8 && "optional"@.len() == 8);
    assert("String"@ != "interface"@ && "String"@ != "enum"@ && "String"@ != "required"@
        && "String"@ != "optional"@);
}

proof fn lemma_sound_ws()
    ensures
        sound(seq![ws_tok()]),
        texts_of(seq![ws_tok()]) == " "@,
        " "@.len() == 1,
        " "@[0] == ' ',
        crate::tokens::is_whitespace_char(" "@[0]),
{
    reveal_strlit(" ");
    crate::serialize::lemma_texts_of_single(ws_tok());
    lemma_tokenize_one_char(" "@);
}

proof fn lemma_sound_lbrace()
    ensures
        sound(seq![lbrace_tok()]),
        texts_of(seq![lbrace_tok()]) == "{"@,
        "{"@.len() == 1,
        "{"@[0] == '{',
{
    reveal_strlit("{");
    lemma_sound_punct_tok(TokenType::RightCurlyBraces, "{"@);
}

proof fn lemma_sound_rbrace()
    ensures
        sound(seq![rbrace_tok()]),
        texts_of(seq![rbrace_tok()]) == "}"@,
        "}"@.len() == 1,
        "}"@[0] == '}',
{
    reveal_strlit("}");
    lemma_sound_punct_tok(TokenType::LeftCurlyBraces, "}"@);
}

proof fn lemma_sound_colon()
    ensures
        sound(seq![colon_tok()]),
        texts_of(seq![colon_tok()]) == ":"@,
        ":"@.len() == 1,
        ":"@[0] == ':',
{
    reveal_strlit(":");
    lemma_sound_punct_tok(TokenType::VariableConnection, ":"@);
}

proof fn lemma_sound_semi()
    ensures
        sound(seq![semi_tok()]),
        texts_of(seq![semi_tok()]) == ";"@,
        ";"@.len() == 1,
        ";"@[0] == ';',
{
    reveal_strlit(";");
    lemma_sound_punct_tok(TokenType::Semicolon, ";"@);
}

proof fn lemma_sound_name(nm: Seq<char>)
    requires
        wf_name(nm),
    ensures
        sound(seq![name_tok(nm)]),
        texts_of(seq![name_tok(nm)]) == nm,
{
    lemma_sound_word_tok(TokenType::Text, nm);
}

/// A quoted literal's emission is sound; its text is the value between
/// two quote characters.
proof fn lemma_sound_quoted(value: Seq<char>)
    requires
        wf_value(value),
    ensures
        sound(tokens_of_quoted(value)),
        texts_of(tokens_of_quoted(value)) == "\""@ + value + "\""@,
        texts_of(tokens_of_quoted(value)).len() >= 2,
        texts_of(tokens_of_quoted(value)).first() == '"',
        texts_of(tokens_of_quoted(value)).last() == '"',
{
    reveal_strlit("\"");
    lemma_sound_punct_tok(TokenType::Quotes, "\""@);
    crate::serialize::lemma_quoted_text(value);
    let q = seq![quote_tok()];
    let mid = spec_tokenize(value);
    lemma_tokenize_covers(value);
    assert(sound(mid));
    assert(texts_of(mid) == value) by {
        crate::tokens::lemma_tokenize_covers_from(value, 0);
        assert(value.subrange(0, value.len() as int) =~= value);
        assert(texts_of(spec_tokenize(value)) == value);
        assert(mid =~= spec_tokenize(value));
    }
    assert(value.len() > 0 ==> crate::tokens::safe_boundary("\""@.last(), value.first())) by {
        assert(crate::tokens::is_punct_char('"'));
    }
    lemma_sound_concat(q, mid);
    lemma_texts_of_concat(q, mid);
    assert(value.len() > 0 ==> texts_of(q + mid).last() == value.last());
    assert(value.len() == 0 ==> texts_of(q + mid).last() == '"');
    lemma_sound_concat(q + mid, q);
    lemma_texts_of_concat(q + mid, q);
    assert(tokens_of_quoted(value) =~= (q + mid) + q);
    assert(texts_of(tokens_of_quoted(value)) =~= "\""@ + value + "\""@);
}

/// The modifier keyword token is sound, with a word text.
proof fn lemma_sound_modifier(required: bool)
    ensures
        sound(seq![modifier_tok(required)]),
        texts_of(seq![modifier_tok(required)]).len() == 8,
        forall|j: int|
            0 <= j < 8 ==> is_word_char(#[trigger] texts_of(seq![modifier_tok(required)])[j]),
{
    if required {
        lemma_kw_required();
        lemma_sound_word_tok(TokenType::RequiredModifier, "required"@);
    } else {
        lemma_kw_optional();
        lemma_sound_word_tok(TokenType::OptionalModifier, "optional"@);
    }
}

/// A field's emission is sound: its text starts with a word character and
/// ends with the terminating semicolon.
proof fn lemma_sound_variable(v: SpecVariable)
    requires
        wf_variable(v),
    ensures
        sound(tokens_of_variable(v)),
        texts_of(tokens_of_variable(v)).len() > 0,
        is_word_char(texts_of(tokens_of_variable(v)).first()),
        texts_of(tokens_of_variable(v)).last() == ';',
{
    let m = seq![modifier_tok(v.is_required)];
    let w = seq![ws_tok()];
    let nm = seq![name_tok(v.name)];
    let c = seq![colon_tok()];
    let st = seq![canon(TokenType::StringType, "String"@)];
    lemma_sound_modifier(v.is_required);
    lemma_sound_ws();
    lemma_sound_name(v.name);
    lemma_sound_colon();
    lemma_sound_semi();
    lemma_kw_string_type();
    lemma_sound_word_tok(TokenType::StringType, "String"@);
    let head = seq![
        modifier_tok(v.is_required),
        ws_tok(),
        name_tok(v.name),
        colon_tok(),
        ws_tok(),
        canon(TokenType::StringType, "String"@),
    ];
    assert(head =~= ((((m + w) + nm) + c) + w) + st);
    lemma_sound_concat(m, w);
    lemma_texts_of_concat(m, w);
    lemma_sound_concat(m + w, nm);
    lemma_texts_of_concat(m + w, nm);
    lemma_sound_concat((m + w) + nm, c);
    lemma_texts_of_concat((m + w) + nm, c);
    lemma_sound_concat(((m + w) + nm) + c, w);
    lemma_texts_of_concat(((m + w) + nm) + c, w);
    assert(texts_of((((m + w) + nm) + c) + w).last() == ' ');
    lemma_sound_concat((((m + w) + nm) + c) + w, st);
    lemma_texts_of_concat((((m + w) + nm) + c) + w, st);
    let th = texts_of(head);
    assert(sound(head));
    assert(th.len() > 0 && is_word_char(th.first()) && th.last() == 'g') by {
        reveal_strlit("String");
    }
    match v.variable_type {
        SpecVariableType::String(literal) => match literal {
            None => {
                assert(tokens_of_variable(v) =~= head + seq![semi_tok()]);
                lemma_sound_concat(head, seq![semi_tok()]);
                lemma_texts_of_concat(head, seq![semi_tok()]);
            },
            Some(value) => {
                let lb = seq![lbrace_tok()];
                let rb = seq![rbrace_tok()];
                let q = tokens_of_quoted(value);
                lemma_sound_lbrace();
                lemma_sound_rbrace();
                lemma_sound_quoted(value);
                assert(tokens_of_variable(v) =~= ((((((head + w) + lb) + w) + q) + w) + rb) + seq![
                    semi_tok(),
                ]);
                lemma_sound_concat(head, w);
                lemma_texts_of_concat(head, w);
                lemma_sound_concat(head + w, lb);
                lemma_texts_of_concat(head + w, lb);
                lemma_sound_concat((head + w) + lb, w);
                lemma_texts_of_concat((head + w) + lb, w);
                assert(texts_of(((head + w) + lb) + w).last() == ' ');
                lemma_sound_concat(((head + w) + lb) + w, q);
                lemma_texts_of_concat(((head + w) + lb) + w, q);
                lemma_sound_concat((((head + w) + lb) + w) + q, w);
                lemma_texts_of_concat((((head + w) + lb) + w) + q, w);
                assert(texts_of(((((head + w) + lb) + w) + q) + w).last() == ' ');
                lemma_sound_concat(((((head + w) + lb) + w) + q) + w, rb);
                lemma_texts_of_concat(((((head + w) + lb) + w) + q) + w, rb);
                lemma_sound_concat((((((head + w) + lb) + w) + q) + w) + rb, seq![semi_tok()]);
                lemma_texts_of_concat((((((head + w) + lb) + w) + q) + w) + rb, seq![semi_tok()]);
            },
        },
    }
}

/// An enum variant's emission is sound: its text starts with a word
/// character and ends with the terminating semicolon.
proof fn lemma_sound_variant(v: SpecEnumVariant)
    requires
        wf_variant(v),
    ensures
        sound(tokens_of_variant(v)),
        texts_of(tokens_of_variant(v)).len() > 0,
        is_word_char(texts_of(tokens_of_variant(v)).first()),
        texts_of(tokens_of_variant(v)).last() == ';',
{
    let value = match v.value {
        Some(value) => value,
        None => Seq::<char>::empty(),
    };
    let nm = seq![name_tok(v.name)];
    let c = seq![colon_tok()];
    let w = seq![ws_tok()];
    let q = tokens_of_quoted(value);
    lemma_sound_name(v.name);
    lemma_sound_colon();
    lemma_sound_ws();
    lemma_sound_quoted(value);
    lemma_sound_semi();
    assert(tokens_of_variant(v) =~= (((nm + c) + w) + q) + seq![semi_tok()]);
    lemma_sound_concat(nm, c);
    lemma_texts_of_concat(nm, c);
    lemma_sound_concat(nm + c, w);
    lemma_texts_of_concat(nm + c, w);
    assert(texts_of((nm + c) + w).last() == ' ');
    lemma_sound_concat((nm + c) + w, q);
    lemma_texts_of_concat((nm + c) + w, q);
    lemma_sound_concat(((nm + c) + w) + q, seq![semi_tok()]);
    lemma_texts_of_concat(((nm + c) + w) + q, seq![semi_tok()]);
}


/// An enum body's emission is sound: its text starts with a blank and
/// ends with the closing brace.
proof fn lemma_sound_enum_items(variants: Seq<SpecEnumVariant>)
    requires
        forall|k: int| 0 <= k < variants.len() ==> wf_variant(#[trigger] variants[k]),
    ensures
        sound(tokens_of_enum_items(variants)),
        texts_of(tokens_of_enum_items(variants)).len() >= 2,
        texts_of(tokens_of_enum_items(variants)).first() == ' ',
        texts_of(tokens_of_enum_items(variants)).last() == '}',
    decreases variants.len(),
{
    let w = seq![ws_tok()];
    lemma_sound_ws();
    if variants.len() == 0 {
        lemma_sound_rbrace();
        assert(tokens_of_enum_items(variants) =~= w + seq![rbrace_tok()]);
        lemma_sound_concat(w, seq![rbrace_tok()]);
        lemma_texts_of_concat(w, seq![rbrace_tok()]);
    } else {
        let vpat = tokens_of_variant(variants[0]);
        let rest = tokens_of_enum_items(variants.drop_first());
        lemma_sound_variant(variants[0]);
        lemma_sound_enum_items(variants.drop_first());
        assert(tokens_of_enum_items(variants) =~= (w + vpat) + rest);
        lemma_sound_concat(w, vpat);
        lemma_texts_of_concat(w, vpat);
        lemma_sound_concat(w + vpat, rest);
        lemma_texts_of_concat(w + vpat, rest);
    }
}

/// An interface body's emission is sound: its text starts with a blank
/// and ends with the closing brace.
proof fn lemma_sound_iface_items(variables: Seq<SpecVariable>, children: Seq<SpecNode>)
    requires
        forall|k: int| 0 <= k < variables.len() ==> wf_variable(#[trigger] variables[k]),
        wf_nodes(children),
    ensures
        sound(tokens_of_interface_items(variables, children)),
        texts_of(tokens_of_interface_items(variables, children)).len() >= 2,
        texts_of(tokens_of_interface_items(variables, children)).first() == ' ',
        texts_of(tokens_of_interface_items(variables, children)).last() == '}',
    decreases children, variables.len(), 1int,
{
    let w = seq![ws_tok()];
    lemma_sound_ws();
    if variables.len() > 0 {
        let vpat = tokens_of_variable(variables[0]);
        let rest = tokens_of_interface_items(variables.drop_first(), children);
        lemma_sound_variable(variables[0]);
        lemma_sound_iface_items(variables.drop_first(), children);
        assert(tokens_of_interface_items(variables, children) =~= (w + vpat) + rest);
        lemma_sound_concat(w, vpat);
        lemma_texts_of_concat(w, vpat);
        lemma_sound_concat(w + vpat, rest);
        lemma_texts_of_concat(w + vpat, rest);
    } else if children.len() > 0 {
        let npat = tokens_of_node(children[0]);
        let rest = tokens_of_interface_items(variables, children.drop_first());
        assert(wf_node(children[0]));
        assert(wf_nodes(children.drop_first()));
        lemma_sound_node(children[0]);
        lemma_sound_iface_items(variables, children.drop_first());
        assert(tokens_of_interface_items(variables, children) =~= (w + npat) + rest);
        lemma_sound_concat(w, npat);
        lemma_texts_of_concat(w, npat);
        lemma_sound_concat(w + npat, rest);
        lemma_texts_of_concat(w + npat, rest);
    } else {
        lemma_sound_rbrace();
        assert(tokens_of_interface_items(variables, children) =~= w + seq![rbrace_tok()]);
        lemma_sound_concat(w, seq![rbrace_tok()]);
        lemma_texts_of_concat(w, seq![rbrace_tok()]);
    }
}

/// A declaration's emission is sound: its text starts with its keyword's
/// first letter and ends with the terminating semicolon.
proof fn lemma_sound_node(n: SpecNode)
    requires
        wf_node(n),
    ensures
        sound(tokens_of_node(n)),
        texts_of(tokens_of_node(n)).len() > 0,
        is_word_char(texts_of(tokens_of_node(n)).first()),
        texts_of(tokens_of_node(n)).last() == ';',
    decreases n, 2int,
{
    let w = seq![ws_tok()];
    lemma_sound_ws();
    lemma_sound_lbrace();
    lemma_sound_semi();
    match n.entity {
        SpecEntity::Enum(e) => {
            let kw = seq![canon(TokenType::EnumerateDeclaration, "enum"@)];
            let nm = seq![name_tok(e.name)];
            let lb = seq![lbrace_tok()];
            let items = tokens_of_enum_items(e.variants);
            lemma_kw_enum();
            lemma_sound_word_tok(TokenType::EnumerateDeclaration, "enum"@);
            lemma_sound_name(e.name);
            lemma_sound_enum_items(e.variants);
            let head = seq![
                canon(TokenType::EnumerateDeclaration, "enum"@),
                ws_tok(),
                name_tok(e.name),
                ws_tok(),
                lbrace_tok(),
            ];
            assert(head =~= (((kw + w) + nm) + w) + lb);
            lemma_sound_concat(kw, w);
            lemma_texts_of_concat(kw, w);
            lemma_sound_concat(kw + w, nm);
            lemma_texts_of_concat(kw + w, nm);
            lemma_sound_concat((kw + w) + nm, w);
            lemma_texts_of_concat((kw + w) + nm, w);
            assert(texts_of(((kw + w) + nm) + w).last() == ' ');
            lemma_sound_concat(((kw + w) + nm) + w, lb);
            lemma_texts_of_concat(((kw + w) + nm) + w, lb);
            assert(tokens_of_node(n) =~= (head + items) + seq![semi_tok()]);
            lemma_sound_concat(head, items);
            lemma_texts_of_concat(head, items);
            lemma_sound_concat(head + items, seq![semi_tok()]);
            lemma_texts_of_concat(head + items, seq![semi_tok()]);
            assert(is_word_char(texts_of(tokens_of_node(n)).first())) by {
                reveal_strlit("enum");
            }
        },
        SpecEntity::Interface(x) => {
            let kw = seq![canon(TokenType::InterfaceDeclaration, "interface"@)];
            let nm = seq![name_tok(x.name)];
            let lb = seq![lbrace_tok()];
            let items = tokens_of_interface_items(x.variables, n.nodes);
            lemma_kw_interface();
            lemma_sound_word_tok(TokenType::InterfaceDeclaration, "interface"@);
            lemma_sound_name(x.name);
            lemma_sound_iface_items(x.variables, n.nodes);
            let head = seq![
                canon(TokenType::InterfaceDeclaration, "interface"@),
                ws_tok(),
                name_tok(x.name),
                ws_tok(),
                lbrace_tok(),
            ];
            assert(head =~= (((kw + w) + nm) + w) + lb);
            lemma_sound_concat(kw, w);
            lemma_texts_of_concat(kw, w);
            lemma_sound_concat(kw + w, nm);
            lemma_texts_of_concat(kw + w, nm);
            lemma_sound_concat((kw + w) + nm, w);
            lemma_texts_of_concat((kw + w) + nm, w);
            assert(texts_of(((kw + w) + nm) + w).last() == ' ');
            lemma_sound_concat(((kw + w) + nm) + w, lb);
            lemma_texts_of_concat(((kw + w) + nm) + w, lb);
            assert(tokens_of_node(n) =~= (head + items) + seq![semi_tok()]);
            lemma_sound_concat(head, items);
            lemma_texts_of_concat(head, items);
            lemma_sound_concat(head + items, seq![semi_tok()]);
            lemma_texts_of_concat(head + items, seq![semi_tok()]);
            assert(is_word_char(texts_of(tokens_of_node(n)).first())) by {
                reveal_strlit("interface");
            }
        },
    }
}

/// A program's emission is sound.
proof fn lemma_sound_nodes(nodes: Seq<SpecNode>)
    requires
        wf_nodes(nodes),
    ensures
        sound(tokens_of_nodes(nodes)),
        nodes.len() == 0 ==> texts_of(tokens_of_nodes(nodes)).len() == 0,
        nodes.len() > 0 ==> texts_of(tokens_of_nodes(nodes)).len() > 0 && is_word_char(
            texts_of(tokens_of_nodes(nodes)).first(),
        ) && texts_of(tokens_of_nodes(nodes)).last() == ' ',
    decreases nodes.len(),
{
    let w = seq![ws_tok()];
    lemma_sound_ws();
    if nodes.len() == 0 {
        assert(tokens_of_nodes(nodes) =~= Seq::<SpecToken>::empty());
        assert(texts_of(Seq::<SpecToken>::empty()) =~= Seq::<char>::empty());
        assert(spec_tokenize(Seq::<char>::empty()) =~= Seq::<SpecToken>::empty());
    } else {
        let npat = tokens_of_node(nodes[0]);
        let rest = tokens_of_nodes(nodes.drop_first());
        assert(wf_node(nodes[0]));
        assert(wf_nodes(nodes.drop_first()));
        lemma_sound_node(nodes[0]);
        lemma_sound_nodes(nodes.drop_first());
        assert(tokens_of_nodes(nodes) =~= (npat + w) + rest);
        lemma_sound_concat(npat, w);
        lemma_texts_of_concat(npat, w);
        assert(texts_of(npat + w).last() == ' ');
        lemma_sound_concat(npat + w, rest);
        lemma_texts_of_concat(npat + w, rest);
    }
}

/// Grammar idempotence: tokenizing and parsing the serialized text of any
/// well-formed node sequence succeeds and yields structurally equal
/// top-level nodes.  Node ranges are token indices into the new source and
/// are not compared; everything else is.
pub proof fn lemma_serialize_parse_round_trip(nodes: Seq<SpecNode>)
    requires
        wf_nodes(nodes),
    ensures
        spec_parse_top(spec_tokenize(crate::serialize::spec_serialize_nodes(nodes)), 0) matches Ok(
            ns,
        ) && similar_nodes(ns, nodes),
{
    lemma_sound_nodes(nodes);
    let ts = spec_tokenize(crate::serialize::spec_serialize_nodes(nodes));
    let pat = tokens_of_nodes(nodes);
    assert(tokens_similar(ts, pat));
    assert(matches_at(ts, 0, pat));
    lemma_program_roundtrip(ts, 0, nodes);
}


/// A quoted literal read from lexed tokens contains no quote character.
proof fn lemma_multiline_body_wf(ts: Seq<SpecToken>, i: int, opening: Span)
    requires
        lexed_tokens(ts),
    ensures
        spec_multiline_body(ts, i, opening) matches Ok(p) ==> wf_value(p.0),
    decreases ts.len() - i, 0int,
{
    if 0 <= i < ts.len() && ts[i].kind != TokenType::Quotes {
        lemma_multiline_body_wf(ts, i + 1, opening);
        assert(lexed_token(ts[i]));
        if let Ok(p) = spec_multiline_body(ts, i + 1, opening) {
            assert forall|j: int| 0 <= j < (ts[i].text + p.0).len() implies (#[trigger] (ts[i].text
                + p.0)[j]) != '"' by {
                if j < ts[i].text.len() {
                    assert((ts[i].text + p.0)[j] == ts[i].text[j]);
                } else {
                    assert((ts[i].text + p.0)[j] == p.0[j - ts[i].text.len()]);
                }
            }
        }
    }
}

/// A literal constant read from lexed tokens is a well-formed value.
proof fn lemma_string_wf(ts: Seq<SpecToken>, start: int)
    requires
        lexed_tokens(ts),
    ensures
        spec_parse_string(ts, start) matches Ok(p) ==> (p.0 matches SpecVariableType::String(lit)
            && (lit matches Some(v) ==> wf_value(v))),
{
    lemma_next_significant_bounds(ts, start, 1);
    if 0 <= start < ts.len() && ts[start].kind == TokenType::StringType {
        if let Some(j) = next_significant(ts, start, 1) {
            if ts[j].kind == TokenType::RightCurlyBraces {
                lemma_next_significant_bounds(ts, j, 1);
                if let Some(k) = next_significant(ts, j, 1) {
                    if ts[k].kind == TokenType::Text {
                        assert(lexed_token(ts[k]));
                    } else if ts[k].kind == TokenType::Quotes {
                        if 0 <= k < ts.len() && ts[k].kind == TokenType::Quotes {
                            lemma_multiline_body_wf(ts, k + 1, ts[k].span);
                        }
                    }
                }
            }
        }
    }
}

/// A field read from lexed tokens is well-formed.
proof fn lemma_variable_wf(ts: Seq<SpecToken>, start: int)
    requires
        lexed_tokens(ts),
    ensures
        spec_parse_variable(ts, start) matches Ok(p) ==> wf_variable(p.0),
{
    lemma_next_significant_bounds(ts, start, 1);
    if 0 <= start < ts.len() && (ts[start].kind == TokenType::RequiredModifier || ts[start].kind
        == TokenType::OptionalModifier) {
        if let Some(j) = next_significant(ts, start, 1) {
            if ts[j].kind == TokenType::Text {
                assert(lexed_token(ts[j]));
                lemma_next_significant_bounds(ts, j, 1);
                if let Some(c) = next_significant(ts, j, 1) {
                    lemma_next_significant_bounds(ts, c, 1);
                    if let Some(tp) = next_significant(ts, c, 1) {
                        lemma_string_wf(ts, tp);
                    }
                }
            }
        }
    }
}

/// An enum variant read from lexed tokens is well-formed.
proof fn lemma_variant_wf(ts: Seq<SpecToken>, start: int)
    requires
        lexed_tokens(ts),
    ensures
        spec_parse_variant(ts, start) matches Ok(p) ==> wf_variant(p.0),
{
    lemma_next_significant_bounds(ts, start, 1);
    if 0 <= start < ts.len() && ts[start].kind == TokenType::Text {
        assert(lexed_token(ts[start]));
        if let Some(c) = next_significant(ts, start, 1) {
            lemma_next_significant_bounds(ts, c, 1);
            if let Some(v) = next_significant(ts, c, 1) {
                if ts[v].kind == TokenType::Text {
                    assert(lexed_token(ts[v]));
                } else if ts[v].kind == TokenType::Quotes {
                    lemma_multiline_body_wf(ts, v + 1, ts[v].span);
                }
            }
        }
    }
}

/// Every variant of an enum body read from lexed tokens is well-formed.
proof fn lemma_enum_body_wf(ts: Seq<SpecToken>, i: int, opening: Span)
    requires
        lexed_tokens(ts),
    ensures
        spec_parse_enum_body(ts, i, opening) matches Ok(p) ==> forall|k: int|
            0 <= k < p.0.len() ==> wf_variant(#[trigger] p.0[k]),
    decreases ts.len() - i, 5int,
{
    if 0 <= i < ts.len() {
        if ts[i].kind == TokenType::Whitespace {
            lemma_enum_body_wf(ts, i + 1, opening);
        } else if ts[i].kind == TokenType::Text {
            lemma_variant_wf(ts, i);
            if let Ok((variant, end)) = spec_parse_variant(ts, i) {
                let next = crate::grammar::next_scan_index(i, end, ts.len() as int);
                lemma_enum_body_wf(ts, next, opening);
                if let Ok(p) = spec_parse_enum_body(ts, next, opening) {
                    assert forall|k: int| 0 <= k < (seq![variant] + p.0).len() implies wf_variant(
                        #[trigger] (seq![variant] + p.0)[k],
                    ) by {
                        if k > 0 {
                            assert((seq![variant] + p.0)[k] == p.0[k - 1]);
                        }
                    }
                }
            }
        }
    }
}

/// An enumeration read from lexed tokens is a well-formed node.
proof fn lemma_enum_wf(ts: Seq<SpecToken>, start: int)
    requires
        lexed_tokens(ts),
    ensures
        spec_parse_enum(ts, start) matches Ok(p) ==> wf_node(p.0),
{
    lemma_next_significant_bounds(ts, start, 1);
    if 0 <= start < ts.len() && ts[start].kind == TokenType::EnumerateDeclaration {
        if let Some(n) = next_significant(ts, start, 1) {
            if ts[n].kind == TokenType::Text {
                assert(lexed_token(ts[n]));
                lemma_next_significant_bounds(ts, n, 1);
                if let Some(b) = next_significant(ts, n, 1) {
                    if ts[b].kind == TokenType::RightCurlyBraces {
                        lemma_enum_body_wf(ts, b + 1, ts[b].span);
                    }
                }
            }
        }
    }
}

/// Every field and child of an interface body read from lexed tokens is
/// well-formed.
proof fn lemma_interface_body_wf(ts: Seq<SpecToken>, i: int, opening: Span)
    requires
        lexed_tokens(ts),
    ensures
        spec_parse_interface_body(ts, i, opening) matches Ok(p) ==> (forall|k: int|
            0 <= k < p.1.len() ==> wf_variable(#[trigger] p.1[k])) && wf_nodes(p.0),
    decreases ts.len() - i, 5int,
{
    if 0 <= i < ts.len() {
        if ts[i].kind == TokenType::Whitespace {
            lemma_interface_body_wf(ts, i + 1, opening);
        } else if ts[i].kind == TokenType::RequiredModifier || ts[i].kind
            == TokenType::OptionalModifier {
            lemma_variable_wf(ts, i);
            if let Ok((variable, end)) = spec_parse_variable(ts, i) {
                let next = crate::grammar::next_scan_index(i, end, ts.len() as int);
                lemma_interface_body_wf(ts, next, opening);
                if let Ok(p) = spec_parse_interface_body(ts, next, opening) {
                    assert forall|k: int| 0 <= k < (seq![variable] + p.1).len() implies wf_variable(
                        #[trigger] (seq![variable] + p.1)[k],
                    ) by {
                        if k > 0 {
                            assert((seq![variable] + p.1)[k] == p.1[k - 1]);
                        }
                    }
                }
            }
        } else if ts[i].kind == TokenType::InterfaceDeclaration {
            lemma_interface_wf(ts, i);
            if let Ok((child, end)) = spec_parse_interface(ts, i) {
                let next = crate::grammar::next_scan_index(i, end, ts.len() as int);
                lemma_interface_body_wf(ts, next, opening);
                if let Ok(p) = spec_parse_interface_body(ts, next, opening) {
                    assert((seq![child] + p.0)[0] == child);
                    assert((seq![child] + p.0).drop_first() =~= p.0);
                    assert(wf_nodes(seq![child] + p.0));
                }
            }
        } else if ts[i].kind == TokenType::EnumerateDeclaration {
            lemma_enum_wf(ts, i);
            if let Ok((child, end)) = spec_parse_enum(ts, i) {
                let next = crate::grammar::next_scan_index(i, end, ts.len() as int);
                lemma_interface_body_wf(ts, next, opening);
                if let Ok(p) = spec_parse_interface_body(ts, next, opening) {
                    assert((seq![child] + p.0)[0] == child);
                    assert((seq![child] + p.0).drop_first() =~= p.0);
                    assert(wf_nodes(seq![child] + p.0));
                }
            }
        }
    }
}

/// An interface read from lexed tokens is a well-formed node.
proof fn lemma_interface_wf(ts: Seq<SpecToken>, start: int)
    requires
        lexed_tokens(ts),
    ensures
        spec_parse_interface(ts, start) matches Ok(p) ==> wf_node(p.0),
    decreases ts.len() - start, 4int,
{
    lemma_next_significant_bounds(ts, start, 1);
    if 0 <= start < ts.len() && ts[start].kind == TokenType::InterfaceDeclaration {
        if let Some(n) = next_significant(ts, start, 1) {
            if ts[n].kind == TokenType::Text {
                assert(lexed_token(ts[n]));
                lemma_next_significant_bounds(ts, n, 1);
                if let Some(b) = next_significant(ts, n, 1) {
                    if ts[b].kind == TokenType::RightCurlyBraces {
                        lemma_interface_body_wf(ts, b + 1, ts[b].span);
                    }
                }
            }
        }
    }
}

/// Every node of a program read from lexed tokens is well-formed.
proof fn lemma_top_wf(ts: Seq<SpecToken>, i: int)
    requires
        lexed_tokens(ts),
    ensures
        spec_parse_top(ts, i) matches Ok(ns) ==> wf_nodes(ns),
    decreases ts.len() - i, 5int,
{
    if 0 <= i < ts.len() {
        if ts[i].kind == TokenType::Whitespace {
            lemma_top_wf(ts, i + 1);
        } else if ts[i].kind == TokenType::InterfaceDeclaration {
            lemma_interface_wf(ts, i);
            if let Ok((node, end)) = spec_parse_interface(ts, i) {
                let next = crate::grammar::next_scan_index(i, end, ts.len() as int);
                lemma_top_wf(ts, next);
                if let Ok(ns) = spec_parse_top(ts, next) {
                    assert((seq![node] + ns)[0] == node);
                    assert((seq![node] + ns).drop_first() =~= ns);
                    assert(wf_nodes(seq![node] + ns));
                }
            }
        } else if ts[i].kind == TokenType::EnumerateDeclaration {
            lemma_enum_wf(ts, i);
            if let Ok((node, end)) = spec_parse_enum(ts, i) {
                let next = crate::grammar::next_scan_index(i, end, ts.len() as int);
                lemma_top_wf(ts, next);
                if let Ok(ns) = spec_parse_top(ts, next) {
                    assert((seq![node] + ns)[0] == node);
                    assert((seq![node] + ns).drop_first() =~= ns);
                    assert(wf_nodes(seq![node] + ns));
                }
            }
        }
    }
}

/// Whatever a whole source parses to is well-formed: every name is a word
/// run spelling no keyword and every literal is free of quote characters.
pub proof fn lemma_parsed_nodes_wf(s: Seq<char>)
    ensures
        spec_parse_top(spec_tokenize(s), 0) matches Ok(ns) ==> wf_nodes(ns),
{
    crate::tokens::lemma_tokenize_lexed(s);
    lemma_top_wf(spec_tokenize(s), 0);
}

/// Grammar idempotence, for every source that parses: parsing, then
/// re-serializing the tree back to source, then re-parsing, yields a
/// structurally equal tree.
pub proof fn lemma_parse_serialize_parse(s: Seq<char>)
    ensures
        spec_parse_top(spec_tokenize(s), 0) matches Ok(ns) ==> (spec_parse_top(
            spec_tokenize(crate::serialize::spec_serialize_nodes(ns)),
            0,
        ) matches Ok(ns2) && similar_nodes(ns2, ns)),
{
    lemma_parsed_nodes_wf(s);
    if let Ok(ns) = spec_parse_top(spec_tokenize(s), 0) {
        lemma_serialize_parse_round_trip(ns);
    }
}

} // verus!
