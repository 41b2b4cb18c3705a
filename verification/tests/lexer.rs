use idl_parser::lexer::get_tokens;
use idl_parser::tokens::TokenType;

fn kinds(source: &str) -> Vec<TokenType> {
    get_tokens(source).iter().map(|t| t.token_type).collect()
}

#[test]
fn empty_source_has_no_tokens() {
    assert!(get_tokens("").is_empty());
}

#[test]
fn keywords_and_punctuation() {
    assert_eq!(
        kinds("interface enum required optional String Int Boolean"),
        vec![
            TokenType::InterfaceDeclaration,
            TokenType::Whitespace,
            TokenType::EnumerateDeclaration,
            TokenType::Whitespace,
            TokenType::RequiredModifier,
            TokenType::Whitespace,
            TokenType::OptionalModifier,
            TokenType::Whitespace,
            TokenType::StringType,
            TokenType::Whitespace,
            TokenType::IntegerType,
            TokenType::Whitespace,
            TokenType::BooleanType,
        ]
    );
    assert_eq!(
        kinds("{}:;\""),
        vec![
            TokenType::RightCurlyBraces,
            TokenType::LeftCurlyBraces,
            TokenType::VariableConnection,
            TokenType::Semicolon,
            TokenType::Quotes,
        ]
    );
}

#[test]
fn keyword_prefix_is_free_text() {
    assert_eq!(kinds("interfaceX"), vec![TokenType::Text]);
    assert_eq!(kinds("enums"), vec![TokenType::Text]);
    assert_eq!(kinds("string"), vec![TokenType::Text]);
}

#[test]
fn spans_cover_the_whole_input() {
    let source = "interface A { ?? \"x  y\" }; @@@";
    let tokens = get_tokens(source);
    assert!(!tokens.is_empty());
    assert_eq!(tokens[0].span.start, 0);
    assert_eq!(tokens.last().unwrap().span.end, source.chars().count());
    for w in tokens.windows(2) {
        assert_eq!(w[0].span.end, w[1].span.start);
    }
    for t in &tokens {
        assert!(t.span.start < t.span.end);
    }
}

#[test]
fn values_are_verbatim_slices() {
    let source = "required  name_1:\t\"two  spaces\"";
    let tokens = get_tokens(source);
    let rebuilt: String = tokens
        .iter()
        .map(|t| t.value.clone().unwrap())
        .collect::<Vec<_>>()
        .join("");
    assert_eq!(rebuilt, source);
}

#[test]
fn unknown_runs_become_single_tokens() {
    let tokens = get_tokens("@#$ abc");
    assert_eq!(tokens[0].token_type, TokenType::Unknown);
    assert_eq!(tokens[0].value.as_deref(), Some("@#$"));
    assert_eq!(tokens[1].token_type, TokenType::Whitespace);
    assert_eq!(tokens[2].token_type, TokenType::Text);
}

#[test]
fn whitespace_runs_are_one_token() {
    let tokens = get_tokens("a \t\n b");
    assert_eq!(tokens.len(), 3);
    assert_eq!(tokens[1].token_type, TokenType::Whitespace);
    assert_eq!(tokens[1].value.as_deref(), Some(" \t\n "));
}
