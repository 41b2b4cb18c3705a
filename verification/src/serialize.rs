//! Re-serialization of a parsed tree to source text.
//!
//! [`serialize_tree`] prints a tree back as schema source: each declaration
//! in canonical form, fields before nested declarations, every literal
//! quoted.  The emission is described exactly by [`tokens_of_node`] (the
//! canonical token sequence of a node) and [`spec_serialize_nodes`] (its
//! text); `crate::roundtrip` proves that re-parsing this text yields a
//! structurally equal tree.

use vstd::prelude::*;
use vstd::string::StringExecFns;

use crate::grammar::SpecEntity;
use crate::grammar::SpecEnum;
use crate::grammar::SpecEnumVariant;
use crate::grammar::SpecInterface;
use crate::grammar::SpecNode;
use crate::grammar::SpecVariable;
use crate::grammar::SpecVariableType;
use crate::spec_nodes_view;
use crate::tokens::is_word_char;
use crate::tokens::spec_tokenize;
use crate::tokens::texts_of;
use crate::tokens::word_kind;
use crate::tokens::Span;
use crate::tokens::SpecToken;
use crate::tokens::TokenType;
use crate::enumerate::variants_view;
use crate::enumerate::EnumVariant;
use crate::types::VariableType;
use crate::variables::variables_view;
use crate::variables::InterfaceVariable;
use crate::Entity;
use crate::Node;
use crate::Tree;

verus! {

/// A canonical token: emission spans are not meaningful, so they are zero.
pub open spec fn canon(kind: TokenType, text: Seq<char>) -> SpecToken {
    SpecToken { kind, text, span: Span { start: 0, end: 0 } }
}

pub open spec fn ws_tok() -> SpecToken {
    canon(TokenType::Whitespace, " "@)
}

pub open spec fn lbrace_tok() -> SpecToken {
    canon(TokenType::RightCurlyBraces, "{"@)
}

pub open spec fn rbrace_tok() -> SpecToken {
    canon(TokenType::LeftCurlyBraces, "}"@)
}

pub open spec fn colon_tok() -> SpecToken {
    canon(TokenType::VariableConnection, ":"@)
}

pub open spec fn semi_tok() -> SpecToken {
    canon(TokenType::Semicolon, ";"@)
}

pub open spec fn quote_tok() -> SpecToken {
    canon(TokenType::Quotes, "\""@)
}

pub open spec fn name_tok(name: Seq<char>) -> SpecToken {
    canon(TokenType::Text, name)
}

pub open spec fn modifier_tok(required: bool) -> SpecToken {
    if required {
        canon(TokenType::RequiredModifier, "required"@)
    } else {
        canon(TokenType::OptionalModifier, "optional"@)
    }
}

/// A quoted literal: the value's own tokens between two quote tokens.
pub open spec fn tokens_of_quoted(value: Seq<char>) -> Seq<SpecToken> {
    seq![quote_tok()] + spec_tokenize(value) + seq![quote_tok()]
}

/// The canonical tokens of one field declaration.
pub open spec fn tokens_of_variable(v: SpecVariable) -> Seq<SpecToken> {
    let head = seq![
        modifier_tok(v.is_required),
        ws_tok(),
        name_tok(v.name),
        colon_tok(),
        ws_tok(),
        canon(TokenType::StringType, "String"@),
    ];
    match v.variable_type {
        SpecVariableType::String(literal) => match literal {
            None => head + seq![semi_tok()],
            Some(value) => head + seq![ws_tok(), lbrace_tok(), ws_tok()] + tokens_of_quoted(value)
                + seq![ws_tok(), rbrace_tok(), semi_tok()],
        },
    }
}

/// The canonical tokens of one enum variant; the value is always quoted.
pub open spec fn tokens_of_variant(v: SpecEnumVariant) -> Seq<SpecToken> {
    let value = match v.value {
        Some(value) => value,
        None => Seq::empty(),
    };
    seq![name_tok(v.name), colon_tok(), ws_tok()] + tokens_of_quoted(value) + seq![semi_tok()]
}

/// The canonical tokens of an enum body after its `{`: each variant behind
/// one whitespace token, then the closing `}`.
pub open spec fn tokens_of_enum_items(variants: Seq<SpecEnumVariant>) -> Seq<SpecToken>
    decreases variants.len(),
{
    if variants.len() == 0 {
        seq![ws_tok(), rbrace_tok()]
    } else {
        seq![ws_tok()] + tokens_of_variant(variants[0]) + tokens_of_enum_items(
            variants.drop_first(),
        )
    }
}

/// The canonical tokens of a whole node: its declaration through its `;`.
pub open spec fn tokens_of_node(n: SpecNode) -> Seq<SpecToken>
    decreases n,
{
    match n.entity {
        SpecEntity::Enum(e) => seq![
            canon(TokenType::EnumerateDeclaration, "enum"@),
            ws_tok(),
            name_tok(e.name),
            ws_tok(),
            lbrace_tok(),
        ] + tokens_of_enum_items(e.variants) + seq![semi_tok()],
        SpecEntity::Interface(i) => seq![
            canon(TokenType::InterfaceDeclaration, "interface"@),
            ws_tok(),
            name_tok(i.name),
            ws_tok(),
            lbrace_tok(),
        ] + tokens_of_interface_items(i.variables, n.nodes) + seq![semi_tok()],
    }
}

/// The canonical tokens of an interface body after its `{`: the fields in
/// order, then the nested declarations in order, then the closing `}`.
pub open spec fn tokens_of_interface_items(
    variables: Seq<SpecVariable>,
    children: Seq<SpecNode>,
) -> Seq<SpecToken>
    decreases children, variables.len(),
{
    if variables.len() > 0 {
        seq![ws_tok()] + tokens_of_variable(variables[0]) + tokens_of_interface_items(
            variables.drop_first(),
            children,
        )
    } else if children.len() > 0 {
        seq![ws_tok()] + tokens_of_node(children[0]) + tokens_of_interface_items(
            variables,
            children.drop_first(),
        )
    } else {
        seq![ws_tok(), rbrace_tok()]
    }
}

/// The canonical tokens of a whole program: the top-level nodes in order,
/// one whitespace token after each.
pub open spec fn tokens_of_nodes(nodes: Seq<SpecNode>) -> Seq<SpecToken>
    decreases nodes.len(),
{
    if nodes.len() == 0 {
        Seq::empty()
    } else {
        tokens_of_node(nodes[0]) + seq![ws_tok()] + tokens_of_nodes(nodes.drop_first())
    }
}

/// The serialized text of a node sequence: its canonical tokens, joined.
pub open spec fn spec_serialize_nodes(nodes: Seq<SpecNode>) -> Seq<char> {
    texts_of(tokens_of_nodes(nodes))
}

/// A name that the lexer reads back as one free-text token: nonempty, word
/// characters only, and spelling no keyword.
pub open spec fn wf_name(s: Seq<char>) -> bool {
    s.len() > 0 && (forall|j: int| 0 <= j < s.len() ==> is_word_char(#[trigger] s[j]))
        && word_kind(s) == TokenType::Text
}

/// A literal value that a quoted string can carry: no quote character.
pub open spec fn wf_value(s: Seq<char>) -> bool {
    forall|j: int| 0 <= j < s.len() ==> (#[trigger] s[j]) != '"'
}

/// A field the grammar can express: well-formed name and literal.
pub open spec fn wf_variable(v: SpecVariable) -> bool {
    wf_name(v.name) && match v.variable_type {
        SpecVariableType::String(literal) => match literal {
            Some(value) => wf_value(value),
            None => true,
        },
    }
}

/// A variant the grammar can express: a well-formed name, and a value
/// (every parsed variant carries one).
pub open spec fn wf_variant(v: SpecEnumVariant) -> bool {
    wf_name(v.name) && (v.value matches Some(value) && wf_value(value))
}

pub open spec fn wf_enum(e: SpecEnum) -> bool {
    wf_name(e.name) && forall|k: int| 0 <= k < e.variants.len() ==> wf_variant(#[trigger] e.variants[k])
}

pub open spec fn wf_interface(i: SpecInterface) -> bool {
    wf_name(i.name) && forall|k: int|
        0 <= k < i.variables.len() ==> wf_variable(#[trigger] i.variables[k])
}

/// A declaration the grammar can express.  An enum node has no children.
pub open spec fn wf_node(n: SpecNode) -> bool
    decreases n,
{
    match n.entity {
        SpecEntity::Interface(i) => wf_interface(i) && wf_nodes(n.nodes),
        SpecEntity::Enum(e) => wf_enum(e) && n.nodes.len() == 0,
    }
}

pub open spec fn wf_nodes(nodes: Seq<SpecNode>) -> bool
    decreases nodes,
{
    if nodes.len() == 0 {
        true
    } else {
        wf_node(nodes[0]) && wf_nodes(nodes.drop_first())
    }
}

/// Structural equality of nodes: same entities all the way down, ignoring
/// the token-index ranges, which depend on the surrounding source.
pub open spec fn similar_node(a: SpecNode, b: SpecNode) -> bool
    decreases a,
{
    match (a.entity, b.entity) {
        (SpecEntity::Interface(x), SpecEntity::Interface(y)) => x == y && similar_nodes(
            a.nodes,
            b.nodes,
        ),
        (SpecEntity::Enum(x), SpecEntity::Enum(y)) => x == y && a.nodes.len() == 0
            && b.nodes.len() == 0,
        _ => false,
    }
}

pub open spec fn similar_nodes(a: Seq<SpecNode>, b: Seq<SpecNode>) -> bool
    decreases a,
{
    a.len() == b.len() && if a.len() == 0 {
        true
    } else {
        similar_node(a[0], b[0]) && similar_nodes(a.drop_first(), b.drop_first())
    }
}


/// `seq![t] + rest` has text `t.text + texts_of(rest)`.
pub proof fn lemma_texts_of_cons(t: SpecToken, rest: Seq<SpecToken>)
    ensures
        texts_of(seq![t] + rest) == t.text + texts_of(rest),
{
    assert((seq![t] + rest).drop_first() =~= rest);
    assert((seq![t] + rest)[0] == t);
}

/// A single token's text is the whole text.
pub proof fn lemma_texts_of_single(t: SpecToken)
    ensures
        texts_of(seq![t]) == t.text,
{
    assert(seq![t].drop_first() =~= Seq::<SpecToken>::empty());
    assert(texts_of(Seq::<SpecToken>::empty()) == Seq::<char>::empty());
    assert(t.text + Seq::<char>::empty() =~= t.text);
}

/// The serialized text of a quoted literal: the value between two quotes.
pub proof fn lemma_quoted_text(value: Seq<char>)
    ensures
        texts_of(tokens_of_quoted(value)) == "\""@ + value + "\""@,
{
    crate::tokens::lemma_tokenize_covers(value);
    crate::tokens::lemma_texts_of_concat(seq![quote_tok()] + spec_tokenize(value), seq![quote_tok()]);
    crate::tokens::lemma_texts_of_concat(seq![quote_tok()], spec_tokenize(value));
    lemma_texts_of_single(quote_tok());
    assert(("\""@ + value) + "\""@ =~= "\""@ + value + "\""@);
}

/// Appends a quoted literal: the value verbatim between two quotes.
fn append_quoted(out: &mut String, value: &str)
    ensures
        final(out)@ == old(out)@ + texts_of(tokens_of_quoted(value@)),
{
    out.append("\"");
    out.append(value);
    out.append("\"");
    proof {
        lemma_quoted_text(value@);
        assert(old(out)@ + "\""@ + value@ + "\""@ =~= old(out)@ + ("\""@ + value@ + "\""@));
    }
}


/// Appends one enum variant: `Name: "value";`.
fn append_variant(out: &mut String, v: &EnumVariant)
    ensures
        final(out)@ == old(out)@ + texts_of(tokens_of_variant(v@)),
{
    out.append(v.name.as_str());
    out.append(":");
    out.append(" ");
    match &v.value {
        Some(value) => append_quoted(out, value.as_str()),
        None => append_quoted(out, ""),
    }
    out.append(";");
    proof {
        let value = match v@.value {
            Some(value) => value,
            None => Seq::empty(),
        };
        if v@.value is None {
            reveal_strlit("");
            assert(""@ =~= value);
        }
        let q = tokens_of_quoted(value);
        assert(tokens_of_variant(v@) =~= seq![name_tok(v@.name)] + (seq![colon_tok()] + (seq![
            ws_tok(),
        ] + (q + seq![semi_tok()]))));
        lemma_texts_of_cons(
            name_tok(v@.name),
            seq![colon_tok()] + (seq![ws_tok()] + (q + seq![semi_tok()])),
        );
        lemma_texts_of_cons(colon_tok(), seq![ws_tok()] + (q + seq![semi_tok()]));
        lemma_texts_of_cons(ws_tok(), q + seq![semi_tok()]);
        crate::tokens::lemma_texts_of_concat(q, seq![semi_tok()]);
        lemma_texts_of_single(semi_tok());
        assert(final(out)@ =~= old(out)@ + texts_of(tokens_of_variant(v@)));
    }
}

/// Appends one field: `required name: String;` or with its quoted literal.
#[verifier::rlimit(100)]
fn append_variable(out: &mut String, v: &InterfaceVariable)
    ensures
        final(out)@ == old(out)@ + texts_of(tokens_of_variable(v@)),
{
    if v.is_required {
        out.append("required");
    } else {
        out.append("optional");
    }
    out.append(" ");
    out.append(v.name.as_str());
    out.append(":");
    out.append(" ");
    out.append("String");
    let ghost head = seq![
        modifier_tok(v@.is_required),
        ws_tok(),
        name_tok(v@.name),
        colon_tok(),
        ws_tok(),
        canon(TokenType::StringType, "String"@),
    ];
    proof {
        assert(head =~= seq![modifier_tok(v@.is_required)] + (seq![ws_tok()] + (seq![
            name_tok(v@.name),
        ] + (seq![colon_tok()] + (seq![ws_tok()] + seq![
            canon(TokenType::StringType, "String"@),
        ])))));
        lemma_texts_of_cons(
            modifier_tok(v@.is_required),
            seq![ws_tok()] + (seq![name_tok(v@.name)] + (seq![colon_tok()] + (seq![ws_tok()]
                + seq![canon(TokenType::StringType, "String"@)]))),
        );
        lemma_texts_of_cons(
            ws_tok(),
            seq![name_tok(v@.name)] + (seq![colon_tok()] + (seq![ws_tok()] + seq![
                canon(TokenType::StringType, "String"@),
            ])),
        );
        lemma_texts_of_cons(
            name_tok(v@.name),
            seq![colon_tok()] + (seq![ws_tok()] + seq![canon(TokenType::StringType, "String"@)]),
        );
        lemma_texts_of_cons(
            colon_tok(),
            seq![ws_tok()] + seq![canon(TokenType::StringType, "String"@)],
        );
        lemma_texts_of_cons(ws_tok(), seq![canon(TokenType::StringType, "String"@)]);
        lemma_texts_of_single(canon(TokenType::StringType, "String"@));
    }
    match &v.variable_type {
        VariableType::String(literal) => match literal {
            None => {
                out.append(";");
                proof {
                    crate::tokens::lemma_texts_of_concat(head, seq![semi_tok()]);
                    lemma_texts_of_single(semi_tok());
                    assert(final(out)@ =~= old(out)@ + texts_of(tokens_of_variable(v@)));
                }
            },
            Some(value) => {
                out.append(" ");
                out.append("{");
                out.append(" ");
                append_quoted(out, value.as_str());
                out.append(" ");
                out.append("}");
                out.append(";");
                proof {
                    let q = tokens_of_quoted(value@);
                    let mid = seq![ws_tok(), lbrace_tok(), ws_tok()];
                    let tail = seq![ws_tok(), rbrace_tok(), semi_tok()];
                    crate::tokens::lemma_texts_of_concat(head + mid, q);
                    crate::tokens::lemma_texts_of_concat(head, mid);
                    crate::tokens::lemma_texts_of_concat((head + mid) + q, tail);
                    assert(mid =~= seq![ws_tok()] + (seq![lbrace_tok()] + seq![ws_tok()]));
                    lemma_texts_of_cons(ws_tok(), seq![lbrace_tok()] + seq![ws_tok()]);
                    lemma_texts_of_cons(lbrace_tok(), seq![ws_tok()]);
                    lemma_texts_of_single(ws_tok());
                    assert(tail =~= seq![ws_tok()] + (seq![rbrace_tok()] + seq![semi_tok()]));
                    lemma_texts_of_cons(ws_tok(), seq![rbrace_tok()] + seq![semi_tok()]);
                    lemma_texts_of_cons(rbrace_tok(), seq![semi_tok()]);
                    lemma_texts_of_single(semi_tok());
                    assert(tokens_of_variable(v@) =~= (head + mid) + q + tail);
                    assert(final(out)@ =~= old(out)@ + texts_of(tokens_of_variable(v@)));
                }
            },
        },
    }
}

/// Appends one whole declaration in canonical form.
#[verifier::rlimit(100)]
#[verifier::loop_isolation(false)]
fn append_node(out: &mut String, n: &Node)
    ensures
        final(out)@ == old(out)@ + texts_of(tokens_of_node(n@)),
    decreases *n,
{
    match &n.entity {
        Entity::Enum(e) => {
            out.append("enum");
            out.append(" ");
            out.append(e.name.as_str());
            out.append(" ");
            out.append("{");
            let ghost head = seq![
                canon(TokenType::EnumerateDeclaration, "enum"@),
                ws_tok(),
                name_tok(e@.name),
                ws_tok(),
                lbrace_tok(),
            ];
            proof {
                assert(head =~= seq![canon(TokenType::EnumerateDeclaration, "enum"@)] + (seq![
                    ws_tok(),
                ] + (seq![name_tok(e@.name)] + (seq![ws_tok()] + seq![lbrace_tok()]))));
                lemma_texts_of_cons(
                    canon(TokenType::EnumerateDeclaration, "enum"@),
                    seq![ws_tok()] + (seq![name_tok(e@.name)] + (seq![ws_tok()] + seq![
                        lbrace_tok(),
                    ])),
                );
                lemma_texts_of_cons(
                    ws_tok(),
                    seq![name_tok(e@.name)] + (seq![ws_tok()] + seq![lbrace_tok()]),
                );
                lemma_texts_of_cons(name_tok(e@.name), seq![ws_tok()] + seq![lbrace_tok()]);
                lemma_texts_of_cons(ws_tok(), seq![lbrace_tok()]);
                lemma_texts_of_single(lbrace_tok());
            }
            let ghost mid_start = out@;
            proof {
                assert(variants_view(e.variants@).skip(0) =~= variants_view(e.variants@));
            }
            let mut k: usize = 0;
            while k < e.variants.len()
                invariant
                    0 <= k <= e.variants@.len(),
                    out@ + texts_of(tokens_of_enum_items(variants_view(e.variants@).skip(k as int)))
                        == mid_start + texts_of(tokens_of_enum_items(variants_view(e.variants@))),
                decreases e.variants@.len() - k,
            {
                out.append(" ");
                let ghost suffix = variants_view(e.variants@).skip(k as int);
                append_variant(out, &e.variants[k]);
                proof {
                    assert(suffix[0] == e.variants@[k as int]@);
                    assert(suffix.drop_first() =~= variants_view(e.variants@).skip(k as int + 1));
                    assert(tokens_of_enum_items(suffix) =~= seq![ws_tok()] + (tokens_of_variant(
                        suffix[0],
                    ) + tokens_of_enum_items(suffix.drop_first())));
                    lemma_texts_of_cons(
                        ws_tok(),
                        tokens_of_variant(suffix[0]) + tokens_of_enum_items(suffix.drop_first()),
                    );
                    crate::tokens::lemma_texts_of_concat(
                        tokens_of_variant(suffix[0]),
                        tokens_of_enum_items(suffix.drop_first()),
                    );
                }
                k = k + 1;
            }
            let ghost tail_start = out@;
            proof {
                let items = tokens_of_enum_items(variants_view(e.variants@));
                assert(variants_view(e.variants@).skip(e.variants@.len() as int)
                    =~= Seq::<SpecEnumVariant>::empty());
                assert(tokens_of_enum_items(Seq::<SpecEnumVariant>::empty()) =~= seq![
                    ws_tok(),
                    rbrace_tok(),
                ]);
                assert(seq![ws_tok(), rbrace_tok()] =~= seq![ws_tok()] + seq![rbrace_tok()]);
                lemma_texts_of_cons(ws_tok(), seq![rbrace_tok()]);
                lemma_texts_of_single(rbrace_tok());
                assert(tail_start + (" "@ + "}"@) == mid_start + texts_of(items));
            }
            out.append(" ");
            out.append("}");
            out.append(";");
            proof {
                let items = tokens_of_enum_items(variants_view(e.variants@));
                assert(tokens_of_node(n@) =~= (head + items) + seq![semi_tok()]);
                crate::tokens::lemma_texts_of_concat(head, items);
                crate::tokens::lemma_texts_of_concat(head + items, seq![semi_tok()]);
                lemma_texts_of_single(semi_tok());
                assert(final(out)@ =~= ((tail_start + " "@) + "}"@) + ";"@);
                assert(((tail_start + " "@) + "}"@) + ";"@ =~= (tail_start + (" "@ + "}"@))
                    + ";"@);
                assert((mid_start + texts_of(items)) + ";"@ =~= mid_start + (texts_of(items)
                    + ";"@));
                assert(mid_start =~= old(out)@ + texts_of(head));
                assert((old(out)@ + texts_of(head)) + (texts_of(items) + ";"@) =~= old(out)@ + ((
                texts_of(head) + texts_of(items)) + ";"@));
                assert(final(out)@ =~= old(out)@ + texts_of(tokens_of_node(n@)));
            }
        },
        Entity::Interface(i) => {
            out.append("interface");
            out.append(" ");
            out.append(i.name.as_str());
            out.append(" ");
            out.append("{");
            let ghost head = seq![
                canon(TokenType::InterfaceDeclaration, "interface"@),
                ws_tok(),
                name_tok(i@.name),
                ws_tok(),
                lbrace_tok(),
            ];
            proof {
                assert(head =~= seq![canon(TokenType::InterfaceDeclaration, "interface"@)] + (seq![
                    ws_tok(),
                ] + (seq![name_tok(i@.name)] + (seq![ws_tok()] + seq![lbrace_tok()]))));
                lemma_texts_of_cons(
                    canon(TokenType::InterfaceDeclaration, "interface"@),
                    seq![ws_tok()] + (seq![name_tok(i@.name)] + (seq![ws_tok()] + seq![
                        lbrace_tok(),
                    ])),
                );
                lemma_texts_of_cons(
                    ws_tok(),
                    seq![name_tok(i@.name)] + (seq![ws_tok()] + seq![lbrace_tok()]),
                );
                lemma_texts_of_cons(name_tok(i@.name), seq![ws_tok()] + seq![lbrace_tok()]);
                lemma_texts_of_cons(ws_tok(), seq![lbrace_tok()]);
                lemma_texts_of_single(lbrace_tok());
            }
            let ghost mid_start = out@;
            let ghost all_children = spec_nodes_view(n.nodes@);
            proof {
                crate::lemma_nodes_view(n.nodes@);
                assert(variables_view(i.variables@).skip(0) =~= variables_view(i.variables@));
            }
            let mut k: usize = 0;
            while k < i.variables.len()
                invariant
                    0 <= k <= i.variables@.len(),
                    out@ + texts_of(
                        tokens_of_interface_items(
                            variables_view(i.variables@).skip(k as int),
                            all_children,
                        ),
                    ) == mid_start + texts_of(
                        tokens_of_interface_items(variables_view(i.variables@), all_children),
                    ),
                decreases i.variables@.len() - k,
            {
                out.append(" ");
                let ghost suffix = variables_view(i.variables@).skip(k as int);
                append_variable(out, &i.variables[k]);
                proof {
                    assert(suffix[0] == i.variables@[k as int]@);
                    assert(suffix.drop_first() =~= variables_view(i.variables@).skip(k as int + 1));
                    assert(tokens_of_interface_items(suffix, all_children) =~= seq![ws_tok()] + (
                    tokens_of_variable(suffix[0]) + tokens_of_interface_items(
                        suffix.drop_first(),
                        all_children,
                    )));
                    lemma_texts_of_cons(
                        ws_tok(),
                        tokens_of_variable(suffix[0]) + tokens_of_interface_items(
                            suffix.drop_first(),
                            all_children,
                        ),
                    );
                    crate::tokens::lemma_texts_of_concat(
                        tokens_of_variable(suffix[0]),
                        tokens_of_interface_items(suffix.drop_first(), all_children),
                    );
                }
                k = k + 1;
            }
            proof {
                assert(variables_view(i.variables@).skip(i.variables@.len() as int)
                    =~= Seq::<SpecVariable>::empty());
                assert(all_children.skip(0) =~= all_children);
            }
            let mut c: usize = 0;
            while c < n.nodes.len()
                invariant
                    0 <= c <= n.nodes@.len(),
                    out@ + texts_of(
                        tokens_of_interface_items(
                            Seq::<SpecVariable>::empty(),
                            all_children.skip(c as int),
                        ),
                    ) == mid_start + texts_of(
                        tokens_of_interface_items(variables_view(i.variables@), all_children),
                    ),
                decreases n.nodes@.len() - c,
            {
                out.append(" ");
                let ghost suffix = all_children.skip(c as int);
                proof {
                    crate::lemma_nodes_view(n.nodes@);
                    assert(suffix[0] == n.nodes@[c as int]@);
                }
                append_node(out, &n.nodes[c]);
                proof {
                    assert(suffix.drop_first() =~= all_children.skip(c as int + 1));
                    assert(tokens_of_interface_items(Seq::<SpecVariable>::empty(), suffix) =~= seq![
                        ws_tok(),
                    ] + (tokens_of_node(suffix[0]) + tokens_of_interface_items(
                        Seq::<SpecVariable>::empty(),
                        suffix.drop_first(),
                    )));
                    lemma_texts_of_cons(
                        ws_tok(),
                        tokens_of_node(suffix[0]) + tokens_of_interface_items(
                            Seq::<SpecVariable>::empty(),
                            suffix.drop_first(),
                        ),
                    );
                    crate::tokens::lemma_texts_of_concat(
                        tokens_of_node(suffix[0]),
                        tokens_of_interface_items(
                            Seq::<SpecVariable>::empty(),
                            suffix.drop_first(),
                        ),
                    );
                }
                c = c + 1;
            }
            let ghost tail_start = out@;
            proof {
                let items = tokens_of_interface_items(variables_view(i.variables@), all_children);
                assert(all_children.skip(n.nodes@.len() as int) =~= Seq::<SpecNode>::empty());
                assert(tokens_of_interface_items(
                    Seq::<SpecVariable>::empty(),
                    Seq::<SpecNode>::empty(),
                ) =~= seq![ws_tok(), rbrace_tok()]);
                assert(seq![ws_tok(), rbrace_tok()] =~= seq![ws_tok()] + seq![rbrace_tok()]);
                lemma_texts_of_cons(ws_tok(), seq![rbrace_tok()]);
                lemma_texts_of_single(rbrace_tok());
                assert(tail_start + (" "@ + "}"@) == mid_start + texts_of(items));
            }
            out.append(" ");
            out.append("}");
            out.append(";");
            proof {
                let items = tokens_of_interface_items(variables_view(i.variables@), all_children);
                assert(tokens_of_node(n@) =~= (head + items) + seq![semi_tok()]);
                crate::tokens::lemma_texts_of_concat(head, items);
                crate::tokens::lemma_texts_of_concat(head + items, seq![semi_tok()]);
                lemma_texts_of_single(semi_tok());
                assert(final(out)@ =~= ((tail_start + " "@) + "}"@) + ";"@);
                assert(((tail_start + " "@) + "}"@) + ";"@ =~= (tail_start + (" "@ + "}"@))
                    + ";"@);
                assert((mid_start + texts_of(items)) + ";"@ =~= mid_start + (texts_of(items)
                    + ";"@));
                assert(mid_start =~= old(out)@ + texts_of(head));
                assert((old(out)@ + texts_of(head)) + (texts_of(items) + ";"@) =~= old(out)@ + ((
                texts_of(head) + texts_of(items)) + ";"@));
                assert(final(out)@ =~= old(out)@ + texts_of(tokens_of_node(n@)));
            }
        },
    }
}

/// Serializes one declaration back to canonical schema source.
pub fn serialize_node(n: &Node) -> (r: String)
    ensures
        r@ == texts_of(tokens_of_node(n@)),
{
    let mut out = String::new();
    append_node(&mut out, n);
    out
}

/// Serializes a whole tree back to canonical schema source: each top-level
/// declaration in order, one blank after each.  Re-parsing the result of a
/// well-formed tree yields a structurally equal tree; see
/// `crate::roundtrip`.
#[verifier::loop_isolation(false)]
pub fn serialize_tree(tree: &Tree) -> (r: String)
    ensures
        r@ == spec_serialize_nodes(spec_nodes_view(tree.nodes@)),
{
    let mut out = String::new();
    let ghost all = spec_nodes_view(tree.nodes@);
    proof {
        crate::lemma_nodes_view(tree.nodes@);
        assert(all.skip(0) =~= all);
    }
    let mut k: usize = 0;
    while k < tree.nodes.len()
        invariant
            0 <= k <= tree.nodes@.len(),
            out@ + texts_of(tokens_of_nodes(all.skip(k as int))) == texts_of(tokens_of_nodes(all)),
        decreases tree.nodes@.len() - k,
    {
        let ghost suffix = all.skip(k as int);
        proof {
            crate::lemma_nodes_view(tree.nodes@);
            assert(suffix[0] == tree.nodes@[k as int]@);
        }
        append_node(&mut out, &tree.nodes[k]);
        out.append(" ");
        proof {
            assert(suffix.drop_first() =~= all.skip(k as int + 1));
            assert(tokens_of_nodes(suffix) =~= tokens_of_node(suffix[0]) + seq![ws_tok()]
                + tokens_of_nodes(suffix.drop_first()));
            crate::tokens::lemma_texts_of_concat(
                tokens_of_node(suffix[0]) + seq![ws_tok()],
                tokens_of_nodes(suffix.drop_first()),
            );
            crate::tokens::lemma_texts_of_concat(tokens_of_node(suffix[0]), seq![ws_tok()]);
            lemma_texts_of_single(ws_tok());
        }
        k = k + 1;
    }
    proof {
        assert(all.skip(tree.nodes@.len() as int) =~= Seq::<SpecNode>::empty());
        assert(texts_of(tokens_of_nodes(Seq::<SpecNode>::empty())) =~= Seq::<char>::empty());
        assert(out@ + Seq::<char>::empty() =~= out@);
    }
    out
}

} // verus!
