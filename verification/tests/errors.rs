use idl_parser::errors::Expected;
use idl_parser::errors::ParseError;
use idl_parser::lexer::get_tokens;
use idl_parser::parse;
use idl_parser::tokens::TokenType;
use idl_parser::types::parse_variable_type;

#[test]
fn duplicate_modifier_points_at_the_second_modifier() {
    let source = "interface T { required required x: String; };";
    match parse(source).unwrap_err() {
        ParseError::DuplicateModifier { span } => {
            let word: String = source
                .chars()
                .skip(span.start)
                .take(span.end - span.start)
                .collect();
            assert_eq!(word, "required");
            assert_eq!(span.start, 23);
        }
        other => panic!("unexpected error {:?}", other),
    }
}

#[test]
fn unexpected_token_names_what_was_allowed() {
    match parse("interface { };").unwrap_err() {
        ParseError::UnexpectedToken {
            expected,
            actual,
            span,
        } => {
            assert_eq!(expected, Expected::Name);
            assert_eq!(actual, TokenType::RightCurlyBraces);
            assert_eq!(span.start, 10);
        }
        other => panic!("unexpected error {:?}", other),
    }
}

#[test]
fn reserved_type_keywords_have_no_grammar_yet() {
    let tokens = get_tokens("Int");
    match parse_variable_type(&tokens, 0).unwrap_err() {
        ParseError::UnexpectedToken {
            expected, actual, ..
        } => {
            assert_eq!(expected, Expected::TypeKeyword);
            assert_eq!(actual, TokenType::IntegerType);
        }
        other => panic!("unexpected error {:?}", other),
    }
    let err = parse("interface T { required x: Boolean; };").unwrap_err();
    assert!(matches!(
        err,
        ParseError::UnexpectedToken {
            expected: Expected::TypeKeyword,
            ..
        }
    ));
}

#[test]
fn string_type_must_be_followed_by_semicolon_or_brace() {
    let err = parse("interface T { required x: String String; };").unwrap_err();
    assert!(matches!(
        err,
        ParseError::UnexpectedToken {
            expected: Expected::SemicolonOrOpeningBrace,
            ..
        }
    ));
}

#[test]
fn the_first_error_stops_the_parse() {
    let err = parse("interface A { ? }; interface ? {};").unwrap_err();
    assert!(matches!(
        err,
        ParseError::UnexpectedToken {
            expected: Expected::BodyItem,
            actual: TokenType::Unknown,
            ..
        }
    ));
}

#[test]
fn unrecognized_characters_lex_but_fail_to_parse() {
    let tokens = get_tokens("interface Tèst {};");
    assert!(tokens
        .iter()
        .any(|t| t.token_type == TokenType::Unknown));
    let err = parse("interface Tèst {};").unwrap_err();
    assert!(matches!(err, ParseError::UnexpectedToken { .. }));
}
