use idl_parser::enumerate::parse_variant;
use idl_parser::errors::ParseError;
use idl_parser::lexer::get_tokens;
use idl_parser::parse;
use idl_parser::types::parse_multiline_string;
use idl_parser::types::parse_string;
use idl_parser::types::VariableType;
use idl_parser::variables::parse_variable;
use idl_parser::Entity;

#[test]
fn nested_interface_becomes_a_child_node() {
    let tree = parse("interface A { interface B {}; };").unwrap();
    assert_eq!(tree.nodes.len(), 1);
    let top = &tree.nodes[0];
    match &top.entity {
        Entity::Interface(i) => {
            assert_eq!(i.name, "A");
            assert!(i.variables.is_empty());
        }
        _ => panic!("expected an interface"),
    }
    assert_eq!(top.nodes.len(), 1);
    match &top.nodes[0].entity {
        Entity::Interface(i) => {
            assert_eq!(i.name, "B");
            assert!(i.variables.is_empty());
        }
        _ => panic!("expected a nested interface"),
    }
    assert!(top.nodes[0].nodes.is_empty());
}

#[test]
fn duplicate_modifier_is_a_typed_error() {
    let err = parse("interface T { required required x: String; };").unwrap_err();
    assert!(matches!(err, ParseError::DuplicateModifier { .. }));
}

#[test]
fn opposite_modifiers_are_a_duplicate_too() {
    let err = parse("interface T { required optional x: String; };").unwrap_err();
    assert!(matches!(err, ParseError::DuplicateModifier { .. }));
}

#[test]
fn interior_whitespace_of_literals_is_preserved() {
    let tree = parse("interface C { optional c: String { \"a  b\" }; };").unwrap();
    match &tree.nodes[0].entity {
        Entity::Interface(i) => {
            assert_eq!(i.variables.len(), 1);
            assert_eq!(
                i.variables[0].variable_type,
                VariableType::String(Some("a  b".to_string()))
            );
        }
        _ => panic!("expected an interface"),
    }
}

#[test]
fn enum_variants_keep_order_and_values() {
    let tree = parse("enum Status { SOLD: \"Sold out\"; STOCK: available; };").unwrap();
    assert_eq!(tree.nodes.len(), 1);
    match &tree.nodes[0].entity {
        Entity::Enum(e) => {
            assert_eq!(e.name, "Status");
            assert_eq!(e.variants.len(), 2);
            assert_eq!(e.variants[0].name, "SOLD");
            assert_eq!(e.variants[0].value.as_deref(), Some("Sold out"));
            assert_eq!(e.variants[1].name, "STOCK");
            assert_eq!(e.variants[1].value.as_deref(), Some("available"));
        }
        _ => panic!("expected an enum"),
    }
}

#[test]
fn missing_closing_brace_is_unterminated_block() {
    let err = parse("interface Test { required x: String;").unwrap_err();
    assert!(matches!(err, ParseError::UnterminatedBlock { .. }));
}

#[test]
fn brace_without_semicolon_is_unterminated_block() {
    let err = parse("interface Test { }").unwrap_err();
    assert!(matches!(err, ParseError::UnterminatedBlock { .. }));
}

#[test]
fn plain_string_type_consumes_only_its_keyword() {
    let tokens = get_tokens("optional v: String;");
    let (variable, range) = parse_variable(&tokens, 0).unwrap();
    assert_eq!(variable.name, "v");
    assert!(!variable.is_required);
    assert_eq!(variable.variable_type, VariableType::String(None));
    assert_eq!(range.start, 0);
    assert_eq!(range.end, tokens.len());
    let string_at = tokens
        .iter()
        .position(|t| t.value.as_deref() == Some("String"))
        .unwrap();
    let (vt, type_range) = parse_string(&tokens, string_at).unwrap();
    assert_eq!(vt, VariableType::String(None));
    assert_eq!(type_range.start, string_at);
    assert_eq!(type_range.end, string_at + 1);
}

#[test]
fn bare_text_literal_is_accepted() {
    let tree = parse("interface C { required c: String { Const }; };").unwrap();
    match &tree.nodes[0].entity {
        Entity::Interface(i) => {
            assert_eq!(
                i.variables[0].variable_type,
                VariableType::String(Some("Const".to_string()))
            );
            assert!(i.variables[0].is_required);
        }
        _ => panic!("expected an interface"),
    }
}

#[test]
fn multiline_literal_spans_lines() {
    let source = "interface C { optional c: String { \"line one\n  line two\" }; };";
    let tree = parse(source).unwrap();
    match &tree.nodes[0].entity {
        Entity::Interface(i) => {
            assert_eq!(
                i.variables[0].variable_type,
                VariableType::String(Some("line one\n  line two".to_string()))
            );
        }
        _ => panic!("expected an interface"),
    }
}

#[test]
fn parse_multiline_string_joins_verbatim() {
    let tokens = get_tokens("\"a  b\"");
    let (text, range) = parse_multiline_string(&tokens, 0).unwrap();
    assert_eq!(text, "a  b");
    assert_eq!(range.start, 0);
    assert_eq!(range.end, tokens.len());
}

#[test]
fn unterminated_literal_is_a_typed_error() {
    let err = parse("interface C { optional c: String { \"open }; };").unwrap_err();
    assert!(matches!(err, ParseError::UnterminatedStringLiteral { .. }));
}

#[test]
fn unknown_top_level_construct_is_reported_with_its_span() {
    match parse("interface A {}; @@ ").unwrap_err() {
        ParseError::UnknownTopLevelConstruct { span } => {
            assert_eq!(span.start, 16);
            assert_eq!(span.end, 18);
        }
        other => panic!("unexpected error {:?}", other),
    }
}

#[test]
fn stray_text_at_top_level_is_unknown_construct() {
    let err = parse("hello").unwrap_err();
    assert!(matches!(err, ParseError::UnknownTopLevelConstruct { .. }));
}

#[test]
fn missing_name_is_unexpected_token() {
    let err = parse("interface { };").unwrap_err();
    assert!(matches!(err, ParseError::UnexpectedToken { .. }));
}

#[test]
fn exhausted_stream_is_unexpected_end_of_input() {
    let err = parse("interface").unwrap_err();
    assert!(matches!(err, ParseError::UnexpectedEndOfInput { .. }));
}

#[test]
fn enum_variant_parses_alone() {
    let tokens = get_tokens("NAME: value;");
    let (variant, range) = parse_variant(&tokens, 0).unwrap();
    assert_eq!(variant.name, "NAME");
    assert_eq!(variant.value.as_deref(), Some("value"));
    assert_eq!(range.start, 0);
    assert_eq!(range.end, tokens.len());
}

#[test]
fn variables_and_children_keep_their_orders() {
    let source = "interface Test {\n\
        optional const_variable: String { \"Multi-line string!\" };\n\
        enum TestEnum {\n\
            Test: Test2;\n\
            TestMulti: \"Multi-line enum!!!\";\n\
        };\n\
    };\n\
    interface Test_3 {};";
    let tree = parse(source).unwrap();
    assert_eq!(tree.nodes.len(), 2);
    match &tree.nodes[0].entity {
        Entity::Interface(i) => {
            assert_eq!(i.name, "Test");
            assert_eq!(i.variables.len(), 1);
            assert_eq!(i.variables[0].name, "const_variable");
            assert_eq!(
                i.variables[0].variable_type,
                VariableType::String(Some("Multi-line string!".to_string()))
            );
        }
        _ => panic!("expected an interface"),
    }
    assert_eq!(tree.nodes[0].nodes.len(), 1);
    match &tree.nodes[0].nodes[0].entity {
        Entity::Enum(e) => {
            assert_eq!(e.name, "TestEnum");
            assert_eq!(e.variants.len(), 2);
            assert_eq!(e.variants[0].name, "Test");
            assert_eq!(e.variants[0].value.as_deref(), Some("Test2"));
            assert_eq!(e.variants[1].value.as_deref(), Some("Multi-line enum!!!"));
        }
        _ => panic!("expected a nested enum"),
    }
    match &tree.nodes[1].entity {
        Entity::Interface(i) => assert_eq!(i.name, "Test_3"),
        _ => panic!("expected an interface"),
    }
}

#[test]
fn top_level_nodes_consume_disjoint_ranges() {
    let tree = parse("interface A {}; enum B { X: y; };").unwrap();
    assert_eq!(tree.nodes.len(), 2);
    let first = &tree.nodes[0];
    let second = &tree.nodes[1];
    assert!(first.range.start < first.range.end);
    assert!(first.range.end <= second.range.start);
    for idx in first.range.start..first.range.end {
        assert!(tree.parsed_indicies.contains(&idx));
    }
    for idx in second.range.start..second.range.end {
        assert!(tree.parsed_indicies.contains(&idx));
    }
}
