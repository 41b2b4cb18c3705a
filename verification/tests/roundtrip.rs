use idl_parser::enumerate::EnumVariant;
use idl_parser::helpers::create_linear_numbers_array;
use idl_parser::helpers::get_slice_from_source;
use idl_parser::helpers::next_token;
use idl_parser::helpers::next_token_index;
use idl_parser::helpers::next_token_with_index;
use idl_parser::lexer::get_tokens;
use idl_parser::parse;
use idl_parser::serialize::serialize_node;
use idl_parser::serialize::serialize_tree;
use idl_parser::tokens::Span;
use idl_parser::tokens::TokenType;
use idl_parser::types::VariableType;
use idl_parser::variables::InterfaceVariable;
use idl_parser::Entity;
use idl_parser::Node;

fn same_variable(a: &InterfaceVariable, b: &InterfaceVariable) -> bool {
    a.name == b.name && a.variable_type == b.variable_type && a.is_required == b.is_required
}

fn same_variant(a: &EnumVariant, b: &EnumVariant) -> bool {
    a.name == b.name && a.value == b.value
}

fn same_structure(a: &Node, b: &Node) -> bool {
    if a.nodes.len() != b.nodes.len() {
        return false;
    }
    if !a
        .nodes
        .iter()
        .zip(b.nodes.iter())
        .all(|(x, y)| same_structure(x, y))
    {
        return false;
    }
    match (&a.entity, &b.entity) {
        (Entity::Interface(x), Entity::Interface(y)) => {
            x.name == y.name
                && x.variables.len() == y.variables.len()
                && x.variables
                    .iter()
                    .zip(y.variables.iter())
                    .all(|(v, w)| same_variable(v, w))
        }
        (Entity::Enum(x), Entity::Enum(y)) => {
            x.name == y.name
                && x.variants.len() == y.variants.len()
                && x.variants
                    .iter()
                    .zip(y.variants.iter())
                    .all(|(v, w)| same_variant(v, w))
        }
        _ => false,
    }
}

#[test]
fn serialize_then_parse_is_structurally_identity() {
    let source = "interface Test {\n\
        optional const_variable: String { \"Multi-line string!\" };\n\
        required plain: String;\n\
        enum TestEnum {\n\
            Test: Test2;\n\
            TestMulti: \"Multi-line enum!!!\";\n\
        };\n\
        interface Inner { optional x: String { bare }; };\n\
    };\n\
    enum Status { SOLD: \"Sold out\"; STOCK: available; };";
    let first = parse(source).unwrap();
    let printed = serialize_tree(&first);
    let second = parse(&printed).unwrap();
    assert_eq!(first.nodes.len(), second.nodes.len());
    for (a, b) in first.nodes.iter().zip(second.nodes.iter()) {
        assert!(same_structure(a, b));
    }
    let reprinted = serialize_tree(&second);
    assert_eq!(printed, reprinted);
}

#[test]
fn serialized_form_is_canonical() {
    let tree = parse("interface   A\n{\n}\n; ").unwrap();
    assert_eq!(serialize_tree(&tree), "interface A { }; ");
    let tree = parse("enum E { A: \"x  y\"; };").unwrap();
    assert_eq!(serialize_node(&tree.nodes[0]), "enum E { A: \"x  y\"; };");
}

#[test]
fn literal_with_spaces_survives_a_round_trip() {
    let first = parse("interface C { optional c: String { \"a  b\" }; };").unwrap();
    let second = parse(&serialize_tree(&first)).unwrap();
    match &second.nodes[0].entity {
        Entity::Interface(i) => {
            assert_eq!(
                i.variables[0].variable_type,
                VariableType::String(Some("a  b".to_string()))
            );
        }
        _ => panic!("expected an interface"),
    }
}

#[test]
fn linear_numbers_are_inclusive_on_both_ends() {
    assert_eq!(create_linear_numbers_array(2, 5), vec![2, 3, 4, 5]);
    assert_eq!(create_linear_numbers_array(3, 3), vec![3]);
    assert!(create_linear_numbers_array(7, 2).is_empty());
}

#[test]
fn slice_from_source_clips_to_the_text() {
    assert_eq!(
        get_slice_from_source("hello world", Span { start: 6, end: 11 }),
        "world"
    );
    assert_eq!(
        get_slice_from_source("short", Span { start: 3, end: 99 }),
        "rt"
    );
    assert_eq!(
        get_slice_from_source("short", Span { start: 9, end: 4 }),
        ""
    );
}

#[test]
fn cursor_skips_whitespace_and_counts_significant_tokens() {
    let tokens = get_tokens("interface  A {");
    let (index, token) = next_token_with_index(&tokens, 0, None).unwrap();
    assert_eq!(index, 2);
    assert_eq!(token.token_type, TokenType::Text);
    let (index, token) = next_token_with_index(&tokens, 0, Some(2)).unwrap();
    assert_eq!(index, 4);
    assert_eq!(token.token_type, TokenType::RightCurlyBraces);
    let (index, token) = next_token_with_index(&tokens, 0, Some(0)).unwrap();
    assert_eq!(index, 0);
    assert_eq!(token.token_type, TokenType::InterfaceDeclaration);
    assert_eq!(next_token(&tokens, 2, None).unwrap().token_type, TokenType::RightCurlyBraces);
    assert_eq!(next_token_index(&tokens, 2, None).unwrap(), 4);
    assert!(next_token_with_index(&tokens, 4, None).is_err());
}

#[test]
fn empty_source_parses_to_an_empty_tree() {
    let tree = parse("").unwrap();
    assert!(tree.nodes.is_empty());
    assert!(tree.parsed_indicies.is_empty());
    assert_eq!(serialize_tree(&tree), "");
}
