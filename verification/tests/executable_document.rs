use cynic_parser::executable::ids::{
    ArgumentId, DirectiveId, SelectionId, StringId, VariableDefinitionId,
};
use cynic_parser::executable::ids::IdRange;
use cynic_parser::executable::storage::{
    ArgumentRecord, DirectiveRecord, ExecutableDefinitionRecord, FragmentDefinitionRecord,
    OperationDefinitionRecord, OperationType, SelectionRecord,
};
use cynic_parser::executable::ExecutableAstWriter;
use cynic_parser::Span;

fn operation(name: Option<StringId>) -> OperationDefinitionRecord {
    OperationDefinitionRecord {
        operation_type: OperationType::Query,
        operation_type_span: None,
        name,
        name_span: None,
        variable_definitions: IdRange::new(VariableDefinitionId::new(0), VariableDefinitionId::new(0)),
        directives: IdRange::new(DirectiveId::new(0), DirectiveId::new(0)),
        selection_set: IdRange::new(SelectionId::new(0), SelectionId::new(0)),
        selection_set_span: Span::new(0, 0),
    }
}

fn fragment(name: StringId) -> FragmentDefinitionRecord {
    FragmentDefinitionRecord {
        name,
        name_span: Span::new(0, 1),
        type_condition: name,
        type_condition_span: Span::new(0, 1),
        directives: IdRange::new(DirectiveId::new(0), DirectiveId::new(0)),
        selection_set: IdRange::new(SelectionId::new(0), SelectionId::new(0)),
        selection_set_span: Span::new(0, 1),
    }
}

#[test]
fn interning_is_idempotent() {
    let mut writer = ExecutableAstWriter::new();
    let a = writer.intern_string("hello");
    let b = writer.intern_string("world");
    let c = writer.intern_string("hello");
    assert_eq!(a, c);
    assert_ne!(a, b);
    assert_eq!(a.get(), 0);
    assert_eq!(b.get(), 1);
    let document = writer.finish();
    assert_eq!(document.string(a), "hello");
    assert_eq!(document.string(b), "world");
}

#[test]
fn definitions_read_back() {
    let mut writer = ExecutableAstWriter::new();
    let name = writer.ident("Frag");
    let first = writer.operation_definition(operation(None));
    let second = writer.fragment_definition(fragment(name));
    let third = writer.operation_definition(operation(Some(name)));
    assert_eq!(first.get(), 0);
    assert_eq!(second.get(), 1);
    assert_eq!(third.get(), 2);

    let document = writer.finish();
    assert_eq!(document.definition_ids().len(), 3);
    let operations = document.operation_ids();
    assert_eq!(operations.len(), 2);
    assert_eq!(operations[0].get(), 0);
    assert_eq!(operations[1].get(), 1);
    assert_eq!(*document.operation(operations[1]), operation(Some(name)));
    let fragments = document.fragment_ids();
    assert_eq!(fragments.len(), 1);
    assert_eq!(*document.fragment(fragments[0]), fragment(name));
    match *document.definition(second) {
        ExecutableDefinitionRecord::Fragment(id) => assert_eq!(id, fragments[0]),
        ExecutableDefinitionRecord::Operation(_) => panic!("expected a fragment"),
    }
    assert_eq!(document.fragment_named("Frag"), Some(fragments[0]));
    assert_eq!(document.fragment_named("Other"), None);
}

#[test]
fn ranges_follow_one_another() {
    let mut writer = ExecutableAstWriter::new();
    let name = writer.ident("skip");
    let no_arguments = writer.arguments(vec![]);
    let record = DirectiveRecord {
        name,
        name_span: Span::new(1, 5),
        arguments: no_arguments,
    };
    writer.directive(record);
    writer.directive(record);
    let first = writer.directive_range(Some(2));
    writer.directive(record);
    let second = writer.directive_range(Some(1));
    assert_eq!(first.len(), 2);
    assert_eq!(second.len(), 1);
    assert_eq!(first.end, second.start);
    let empty = writer.directive_range(None);
    assert_eq!(empty.len(), 0);
}

#[test]
fn selection_sets_and_arguments_append() {
    let mut writer = ExecutableAstWriter::new();
    let name = writer.ident("id");
    let value = cynic_parser::executable::ids::ValueId::new(0);
    let arguments = writer.arguments(vec![
        ArgumentRecord { name, name_span: Span::new(0, 2), value },
        ArgumentRecord { name, name_span: Span::new(3, 5), value },
    ]);
    assert_eq!(arguments.start, ArgumentId::new(0));
    assert_eq!(arguments.end, ArgumentId::new(2));
    let spread = writer.fragment_spread(cynic_parser::executable::storage::FragmentSpreadRecord {
        fragment_name: name,
        fragment_name_span: Span::new(0, 2),
        directives: IdRange::new(DirectiveId::new(0), DirectiveId::new(0)),
    });
    let set = writer.selection_set(vec![SelectionRecord::FragmentSpread(spread)]);
    assert_eq!(set.len(), 1);
    let document = writer.finish();
    assert_eq!(*document.selection(set.start), SelectionRecord::FragmentSpread(spread));
    assert_eq!(document.argument(ArgumentId::new(1)).name_span, Span::new(3, 5));
}

#[test]
fn block_strings_are_kept_in_order() {
    let mut writer = ExecutableAstWriter::new();
    let a = writer.block_string("one");
    let b = writer.block_string("two");
    let document = writer.finish();
    assert_eq!(document.block_string(a), "one");
    assert_eq!(document.block_string(b), "two");
}

#[test]
fn interned_ids_read_back_after_later_writes() {
    let mut writer = ExecutableAstWriter::new();
    let a = writer.intern_string("first");
    writer.operation_definition(operation(Some(a)));
    let b = writer.intern_string("second");
    writer.fragment_definition(fragment(b));
    let again = writer.intern_string("first");
    let c = writer.intern_string("third");
    assert_eq!(again, a);
    assert_eq!(c.get(), 2);
    let document = writer.finish();
    assert_eq!(document.string(a), "first");
    assert_eq!(document.string(b), "second");
    assert_eq!(document.string(c), "third");
}
