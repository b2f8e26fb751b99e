use cynic_parser::executable::ids::{
    DirectiveId, IdRange, SelectionId, VariableDefinitionId,
};
use cynic_parser::executable::storage::{
    ArgumentRecord, DirectiveRecord, FieldSelectionRecord, FragmentDefinitionRecord,
    FragmentSpreadRecord, InlineFragmentRecord, OperationDefinitionRecord, OperationType,
    SelectionRecord, TypeRecord, ValueRecord, VariableDefinitionRecord, WrappingType,
};
use cynic_parser::executable::{
    ExecutableAstWriter, ExecutableDefinition, ExecutableDocument, Selection, Value,
};
use cynic_parser::{parse_executable_document, Span};

fn no_directives() -> IdRange<DirectiveId> {
    IdRange::new(DirectiveId::new(0), DirectiveId::new(0))
}

fn no_selections() -> IdRange<SelectionId> {
    IdRange::new(SelectionId::new(0), SelectionId::new(0))
}

/// query Query($v: [ID!]!) { u: user(id: 4) @skip(if: true) { id } ... on User { id } ...Frag }
/// fragment Frag on User { id }
fn sample() -> ExecutableDocument {
    let mut writer = ExecutableAstWriter::new();
    let query = writer.ident("Query");
    let user = writer.ident("user");
    let id = writer.ident("id");
    let alias = writer.ident("u");
    let frag = writer.ident("Frag");
    let user_type = writer.ident("User");
    let skip = writer.ident("skip");
    let if_name = writer.ident("if");
    let id_type = writer.ident("ID");
    let variable = writer.ident("v");

    let ty = writer.type_reference(TypeRecord {
        name: id_type,
        wrappers: vec![WrappingType::NonNull, WrappingType::List, WrappingType::NonNull],
    });
    writer.variable_definition(VariableDefinitionRecord {
        name: variable,
        ty,
        default_value: None,
        directives: no_directives(),
        span: Span::new(12, 24),
    });
    let variables = writer.variable_definition_range(Some(1));

    let four = writer.value(ValueRecord::Int(4));
    let yes = writer.value(ValueRecord::Boolean(true));
    let field_arguments = writer.arguments(vec![ArgumentRecord {
        name: id,
        name_span: Span::new(30, 32),
        value: four,
    }]);
    let skip_arguments = writer.arguments(vec![ArgumentRecord {
        name: if_name,
        name_span: Span::new(43, 45),
        value: yes,
    }]);
    writer.directive(DirectiveRecord {
        name: skip,
        name_span: Span::new(37, 42),
        arguments: skip_arguments,
    });
    let field_directives = writer.directive_range(Some(1));

    let leaf = writer.field_selection(FieldSelectionRecord {
        alias: None,
        alias_span: None,
        name: id,
        name_span: Span::new(55, 57),
        arguments: IdRange::new(field_arguments.end, field_arguments.end),
        directives: no_directives(),
        selection_set: no_selections(),
        selection_set_span: None,
    });
    let inner = writer.selection_set(vec![SelectionRecord::Field(leaf)]);
    let field = writer.field_selection(FieldSelectionRecord {
        alias: Some(alias),
        alias_span: Some(Span::new(20, 21)),
        name: user,
        name_span: Span::new(23, 27),
        arguments: field_arguments,
        directives: field_directives,
        selection_set: inner,
        selection_set_span: Some(Span::new(53, 59)),
    });
    let inline = writer.inline_fragment(InlineFragmentRecord {
        type_condition: Some(user_type),
        type_condition_span: Some(Span::new(64, 68)),
        directives: no_directives(),
        selection_set: inner,
        selection_set_span: Span::new(69, 75),
    });
    let spread = writer.fragment_spread(FragmentSpreadRecord {
        fragment_name: frag,
        fragment_name_span: Span::new(79, 83),
        directives: no_directives(),
    });
    let top = writer.selection_set(vec![
        SelectionRecord::Field(field),
        SelectionRecord::InlineFragment(inline),
        SelectionRecord::FragmentSpread(spread),
    ]);
    writer.operation_definition(OperationDefinitionRecord {
        operation_type: OperationType::Query,
        operation_type_span: Some(Span::new(0, 5)),
        name: Some(query),
        name_span: Some(Span::new(6, 11)),
        variable_definitions: variables,
        directives: no_directives(),
        selection_set: top,
        selection_set_span: Span::new(19, 85),
    });
    writer.fragment_definition(FragmentDefinitionRecord {
        name: frag,
        name_span: Span::new(95, 99),
        type_condition: user_type,
        type_condition_span: Span::new(103, 107),
        directives: no_directives(),
        selection_set: inner,
        selection_set_span: Span::new(108, 114),
    });
    writer.finish()
}

#[test]
fn operation_reads_back() {
    let document = sample();
    let operations = document.operations();
    assert_eq!(operations.len(), 1);
    let operation = operations[0];
    assert_eq!(operation.operation_type(), OperationType::Query);
    assert_eq!(operation.operation_type_span(), Some(Span::new(0, 5)));
    assert_eq!(operation.name(), Some("Query"));
    assert_eq!(operation.name_span(), Some(Span::new(6, 11)));
    assert_eq!(operation.directives().len(), 0);
    assert_eq!(operation.selection_set_span(), Span::new(19, 85));
    assert_eq!(operation.id().get(), 0);
}

#[test]
fn variable_type_prints_with_its_wrappers() {
    let document = sample();
    let operation = document.operations()[0];
    let variables = operation.variable_definitions();
    assert_eq!(variables.len(), 1);
    assert_eq!(variables[0].span(), Span::new(12, 24));
    assert_eq!(variables[0].id(), VariableDefinitionId::new(0));
    let ty = variables[0].ty();
    assert_eq!(ty.name(), "ID");
    assert_eq!(
        ty.wrappers(),
        vec![WrappingType::NonNull, WrappingType::List, WrappingType::NonNull]
    );
    assert_eq!(ty.to_string(), "[ID!]!");
    assert!(ty == variables[0].ty());
}

#[test]
fn selections_read_back() {
    let document = sample();
    let selections = document.operations()[0].selection_set();
    assert_eq!(selections.len(), 3);
    match selections[0] {
        Selection::Field(field) => {
            assert_eq!(field.alias(), Some("u"));
            assert_eq!(field.alias_span(), Some(Span::new(20, 21)));
            assert_eq!(field.name(), "user");
            assert_eq!(field.name_span(), Span::new(23, 27));
            assert_eq!(field.selection_set_span(), Some(Span::new(53, 59)));
            let arguments = field.arguments();
            assert_eq!(arguments.len(), 1);
            assert_eq!(arguments[0].name(), "id");
            assert_eq!(arguments[0].name_span(), Span::new(30, 32));
            assert!(matches!(arguments[0].value(), Value::Int(4)));
            let directives = field.directives();
            assert_eq!(directives.len(), 1);
            assert_eq!(directives[0].name(), "skip");
            assert_eq!(directives[0].name_span(), Span::new(37, 42));
            let directive_arguments = directives[0].arguments();
            assert_eq!(directive_arguments[0].name(), "if");
            assert!(matches!(directive_arguments[0].value(), Value::Boolean(true)));
            let inner = field.selection_set();
            assert_eq!(inner.len(), 1);
            match inner[0] {
                Selection::Field(leaf) => {
                    assert_eq!(leaf.name(), "id");
                    assert_eq!(leaf.alias(), None);
                    assert_eq!(leaf.arguments().len(), 0);
                    assert_eq!(leaf.selection_set().len(), 0);
                }
                _ => panic!("expected a field"),
            }
        }
        _ => panic!("expected a field"),
    }
    match selections[1] {
        Selection::InlineFragment(inline) => {
            assert_eq!(inline.type_condition(), Some("User"));
            assert_eq!(inline.type_condition_span(), Some(Span::new(64, 68)));
            assert_eq!(inline.selection_set().len(), 1);
            assert_eq!(inline.selection_set_span(), Span::new(69, 75));
            assert_eq!(inline.directives().len(), 0);
        }
        _ => panic!("expected an inline fragment"),
    }
    match selections[2] {
        Selection::FragmentSpread(spread) => {
            assert_eq!(spread.fragment_name(), "Frag");
            assert_eq!(spread.fragment_name_span(), Span::new(79, 83));
            assert_eq!(spread.directives().len(), 0);
            let fragment = spread.fragment().expect("the fragment is defined");
            assert_eq!(fragment.name(), "Frag");
            assert_eq!(fragment.id(), document.fragments()[0].id());
        }
        _ => panic!("expected a fragment spread"),
    }
}

#[test]
fn fragment_reads_back() {
    let document = sample();
    let fragments = document.fragments();
    assert_eq!(fragments.len(), 1);
    let fragment = fragments[0];
    assert_eq!(fragment.name(), "Frag");
    assert_eq!(fragment.name_span(), Span::new(95, 99));
    assert_eq!(fragment.type_condition(), "User");
    assert_eq!(fragment.type_condition_span(), Span::new(103, 107));
    assert_eq!(fragment.directives().len(), 0);
    assert_eq!(fragment.selection_set().len(), 1);
    assert_eq!(fragment.selection_set_span(), Span::new(108, 114));
}

#[test]
fn definitions_come_in_order() {
    let document = sample();
    let definitions = document.definitions();
    assert_eq!(definitions.len(), 2);
    assert!(matches!(definitions[0], ExecutableDefinition::Operation(_)));
    match definitions[1] {
        ExecutableDefinition::Fragment(fragment) => assert_eq!(fragment.name(), "Frag"),
        ExecutableDefinition::Operation(_) => panic!("expected a fragment"),
    }
}

#[test]
fn spread_of_an_unknown_fragment_finds_nothing() {
    let mut writer = ExecutableAstWriter::new();
    let name = writer.ident("Missing");
    let spread = writer.fragment_spread(FragmentSpreadRecord {
        fragment_name: name,
        fragment_name_span: Span::new(3, 10),
        directives: no_directives(),
    });
    let document = writer.finish();
    let reader = document.read(spread);
    assert_eq!(reader.fragment_name(), "Missing");
    assert!(reader.fragment().is_none());
}

#[test]
fn parsed_query_reads_as_an_anonymous_query() {
    let document = parse_executable_document("query").unwrap();
    let operations = document.operations();
    assert_eq!(operations.len(), 1);
    assert_eq!(operations[0].operation_type(), OperationType::Query);
    assert_eq!(operations[0].name(), None);
    assert_eq!(operations[0].selection_set().len(), 0);
    assert_eq!(document.definitions().len(), 1);
}

#[test]
fn document_writes_out_as_graphql() {
    let document = sample();
    let expected = "query Query($v: [ID!]!) {\n  u: user(id: 4) @skip(if: true) {\n    id\n  }\n  ... on User {\n    id\n  }\n  ... Frag\n}\n\nfragment Frag on User {\n  id\n}\n";
    assert_eq!(document.to_string(), expected);
}

#[test]
fn nodes_write_out_on_their_own() {
    let document = sample();
    let operation = document.operations()[0];
    let variables = operation.variable_definitions();
    assert_eq!(variables[0].name(), "v");
    assert!(variables[0].default_value().is_none());
    assert_eq!(variables[0].to_string(), "$v: [ID!]!");
    let selections = operation.selection_set();
    assert_eq!(
        selections[0].to_string(),
        "u: user(id: 4) @skip(if: true) {\n  id\n}"
    );
    assert_eq!(selections[1].to_string(), "... on User {\n  id\n}");
    assert_eq!(selections[2].to_string(), "... Frag");
    match selections[0] {
        Selection::Field(field) => {
            assert_eq!(field.directives()[0].to_string(), "@skip(if: true)");
            assert_eq!(field.arguments()[0].to_string(), "id: 4");
        }
        _ => panic!("expected a field"),
    }
    assert_eq!(document.fragments()[0].to_string(), "fragment Frag on User {\n  id\n}\n");
}

#[test]
fn lone_anonymous_query_writes_as_its_selection_set() {
    let mut writer = ExecutableAstWriter::new();
    let name = writer.ident("hello");
    let field = writer.field_selection(FieldSelectionRecord {
        alias: None,
        alias_span: None,
        name,
        name_span: Span::new(2, 7),
        arguments: IdRange::new(
            cynic_parser::executable::ids::ArgumentId::new(0),
            cynic_parser::executable::ids::ArgumentId::new(0),
        ),
        directives: no_directives(),
        selection_set: no_selections(),
        selection_set_span: None,
    });
    let set = writer.selection_set(vec![SelectionRecord::Field(field)]);
    writer.operation_definition(OperationDefinitionRecord {
        operation_type: OperationType::Query,
        operation_type_span: None,
        name: None,
        name_span: None,
        variable_definitions: IdRange::new(VariableDefinitionId::new(0), VariableDefinitionId::new(0)),
        directives: no_directives(),
        selection_set: set,
        selection_set_span: Span::new(0, 9),
    });
    let document = writer.finish();
    assert_eq!(document.to_string(), "{\n  hello\n}");
    assert_eq!(document.operations()[0].to_string(), "query {\n  hello\n}\n");
}

#[test]
fn values_write_out_as_graphql() {
    let list = Value::List(vec![Value::Int(-12), Value::Null, Value::Enum("RED")]);
    assert_eq!(list.to_string(), "[-12, null, RED]");
    let object = Value::Object(vec![
        ("a", Value::String("say \"hi\"\n")),
        ("b", Value::Variable("x")),
        ("c", Value::Boolean(false)),
        ("d", Value::Float("1.5e3")),
    ]);
    assert_eq!(object.to_string(), "{a: \"say \\\"hi\\\"\\n\", b: $x, c: false, d: 1.5e3}");
    assert_eq!(Value::Int(i64::MIN).to_string(), "-9223372036854775808");
    assert_eq!(Value::Int(0).to_string(), "0");
    assert_eq!(Value::List(vec![]).to_string(), "[]");
    assert_eq!(Value::Object(vec![]).to_string(), "{}");
}

#[test]
fn variable_with_a_default_writes_it_out() {
    let mut writer = ExecutableAstWriter::new();
    let name = writer.ident("limit");
    let int_type = writer.ident("Int");
    let deprecated = writer.ident("deprecated");
    let ty = writer.type_reference(TypeRecord { name: int_type, wrappers: vec![] });
    let ten = writer.value(ValueRecord::Int(10));
    let no_arguments = writer.arguments(vec![]);
    writer.directive(DirectiveRecord {
        name: deprecated,
        name_span: Span::new(20, 31),
        arguments: no_arguments,
    });
    let directives = writer.directive_range(Some(1));
    let id = writer.variable_definition(VariableDefinitionRecord {
        name,
        ty,
        default_value: Some(ten),
        directives,
        span: Span::new(0, 31),
    });
    let document = writer.finish();
    let variable = document.read(id);
    assert_eq!(variable.name(), "limit");
    assert!(matches!(variable.default_value(), Some(Value::Int(10))));
    assert_eq!(variable.directives().len(), 1);
    assert_eq!(variable.ty().to_string(), "Int");
    assert_eq!(variable.to_string(), "$limit: Int = 10 @deprecated");
}
