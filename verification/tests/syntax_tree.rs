use cynic_parser::syntax::grammar::parse;
use cynic_parser::syntax::parser::Event;
use cynic_parser::syntax::SyntaxKind;

fn text(events: &[Event]) -> String {
    let mut out = String::new();
    for event in events {
        if let Event::Token(_, t) = event {
            out.push_str(t);
        }
    }
    out
}

fn started(events: &[Event]) -> Vec<SyntaxKind> {
    events
        .iter()
        .filter_map(|event| match event {
            Event::Start(kind) => Some(*kind),
            _ => None,
        })
        .collect()
}

fn assert_balanced(events: &[Event]) {
    let mut depth = 0i64;
    for event in events {
        match event {
            Event::Start(_) => depth += 1,
            Event::Finish => {
                depth -= 1;
                assert!(depth >= 0);
            }
            Event::Token(_, _) => {}
        }
    }
    assert_eq!(depth, 0);
}

#[test]
fn query_with_arguments_and_fragments_is_lossless() {
    let input = "query Q($id: ID! = 1, $list: [Int]) {\n  a: node(id: $id, values: [1, -2.5e3, \"s\", true, null, RED, {c: 1}]) @skip(if: false) {\n    ...Frag\n    ... on User { name }\n  }\n}\nfragment Frag on Node { id }";
    let (events, errors) = parse(input);
    assert!(errors.is_empty(), "{errors:?}");
    assert_eq!(text(&events), input);
    assert_balanced(&events);
    let kinds = started(&events);
    for kind in [
        SyntaxKind::ROOT,
        SyntaxKind::OPERATION_DEF,
        SyntaxKind::VARIABLE_DEFS,
        SyntaxKind::VARIABLE_DEF,
        SyntaxKind::DEFAULT_VALUE,
        SyntaxKind::TYPE,
        SyntaxKind::SELECTION_SET,
        SyntaxKind::FIELD_SELECTION,
        SyntaxKind::ALIAS,
        SyntaxKind::ARGUMENTS,
        SyntaxKind::ARGUMENT,
        SyntaxKind::VALUE,
        SyntaxKind::LIST_VALUE,
        SyntaxKind::INTEGER_VALUE,
        SyntaxKind::FLOAT_VALUE,
        SyntaxKind::STRING_VALUE,
        SyntaxKind::ENUM_VALUE,
        SyntaxKind::OBJECT_VALUE,
        SyntaxKind::OBJECT_FIELD,
        SyntaxKind::DIRECTIVES,
        SyntaxKind::DIRECTIVE,
        SyntaxKind::FRAGMENT_SPREAD,
        SyntaxKind::FRAGMENT_NAME,
        SyntaxKind::INLINE_FRAGMENT,
        SyntaxKind::TYPE_CONDITION,
        SyntaxKind::FRAGMENT_DEF,
        SyntaxKind::NAMED_TYPE,
        SyntaxKind::VARIABLE,
    ] {
        assert!(kinds.contains(&kind), "missing {kind:?}");
    }
    assert!(events.contains(&Event::Token(SyntaxKind::TRUE, "true".to_string())));
    assert!(events.contains(&Event::Token(SyntaxKind::NULL, "null".to_string())));
    assert!(events.contains(&Event::Token(SyntaxKind::ON, "on".to_string())));
}

#[test]
fn errors_are_recorded_and_text_is_kept() {
    let input = "{ a(b: ) } ] query";
    let (events, errors) = parse(input);
    assert_eq!(text(&events), input);
    assert_balanced(&events);
    assert!(errors.contains(&"expected a value".to_string()));
    assert!(errors.contains(&"expected a definition".to_string()));
    assert!(errors.contains(&"expected selection set".to_string()));
}

#[test]
fn variables_are_refused_in_constant_positions() {
    let (_, errors) = parse("query ($a: Int = $b) { x }");
    assert_eq!(errors, vec!["variables are not allowed in a constant position".to_string()]);
}

#[test]
fn text_stops_where_no_token_matches() {
    let (events, _) = parse("{ a } % { b }");
    assert_eq!(text(&events), "{ a } ");
}

#[test]
fn unterminated_lists_and_strings_end_at_the_input_end() {
    let input = "{ a(b: [1, \"x";
    let (events, errors) = parse(input);
    assert_eq!(text(&events), input);
    assert_balanced(&events);
    assert!(errors.contains(&"unexpected end of input while parsing string".to_string()));
}

#[test]
fn the_tree_is_one_root_node() {
    for input in ["", "query { a }", "{ b } fragment F on T { c }", "%%%"] {
        let (events, _) = parse(input);
        assert!(events.len() >= 2);
        assert!(matches!(events[0], Event::Start(SyntaxKind::ROOT)));
        assert!(matches!(events[events.len() - 1], Event::Finish));
        assert_balanced(&events[1..events.len() - 1]);
    }
}

#[test]
fn a_fragment_without_selection_set_is_an_error() {
    let (events, errors) = parse("fragment F on T");
    assert_eq!(errors, vec!["expected selection set".to_string()]);
    let kinds = started(&events);
    assert!(kinds.contains(&SyntaxKind::FRAGMENT_DEF));
    assert!(kinds.contains(&SyntaxKind::FRAGMENT_NAME));
    assert!(kinds.contains(&SyntaxKind::TYPE_CONDITION));
    assert!(!kinds.contains(&SyntaxKind::SELECTION_SET));
}

#[test]
fn an_inline_fragment_without_selection_set_is_an_error() {
    let (events, errors) = parse("{ ... on T }");
    assert_eq!(errors, vec!["expected selection set".to_string()]);
    let kinds = started(&events);
    assert!(kinds.contains(&SyntaxKind::INLINE_FRAGMENT));
    assert!(!kinds.contains(&SyntaxKind::FRAGMENT_SPREAD));
}

#[test]
fn a_spread_of_a_name_is_a_fragment_spread() {
    let (events, errors) = parse("{ ...F }");
    assert!(errors.is_empty());
    let kinds = started(&events);
    assert!(kinds.contains(&SyntaxKind::FRAGMENT_SPREAD));
    assert!(kinds.contains(&SyntaxKind::FRAGMENT_NAME));
    assert!(!kinds.contains(&SyntaxKind::INLINE_FRAGMENT));
}

#[test]
fn a_variable_definition_without_colon_is_an_error() {
    let (events, errors) = parse("query ($a Int) { x }");
    assert_eq!(errors, vec!["expected colon".to_string()]);
    assert!(started(&events).contains(&SyntaxKind::TYPE));
}

#[test]
fn a_variable_definition_without_type_is_an_error() {
    let (_, errors) = parse("query ($a: ) { x }");
    assert_eq!(errors, vec!["expected a type".to_string()]);
}

#[test]
fn an_alias_without_field_name_is_an_error() {
    let (events, errors) = parse("{ a: }");
    assert_eq!(errors, vec!["expected field name".to_string()]);
    assert!(started(&events).contains(&SyntaxKind::ALIAS));
}

#[test]
fn a_sign_without_digits_is_an_error() {
    let (_, errors) = parse("{ a(b: -) }");
    assert_eq!(errors, vec!["expected number".to_string()]);
}

#[test]
fn integers_and_floats_are_told_apart() {
    let (events, errors) = parse("{ a(b: 15) }");
    assert!(errors.is_empty());
    let kinds = started(&events);
    assert!(kinds.contains(&SyntaxKind::INTEGER_VALUE));
    assert!(!kinds.contains(&SyntaxKind::FLOAT_VALUE));
    let (events, errors) = parse("{ a(b: 1.5) }");
    assert!(errors.is_empty());
    let kinds = started(&events);
    assert!(kinds.contains(&SyntaxKind::FLOAT_VALUE));
    assert!(!kinds.contains(&SyntaxKind::INTEGER_VALUE));
}

#[test]
fn a_string_stops_at_a_line_break() {
    let input = "{ a(b: \"x\n) }";
    let (events, errors) = parse(input);
    assert_eq!(text(&events), input);
    assert!(errors.contains(&"missing \"".to_string()));
}

#[test]
fn booleans_are_told_apart() {
    let (events, _) = parse("{ a(b: false, c: true) }");
    assert!(events.contains(&Event::Token(SyntaxKind::FALSE, "false".to_string())));
    assert!(events.contains(&Event::Token(SyntaxKind::TRUE, "true".to_string())));
}
