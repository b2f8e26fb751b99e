use cynic_parser::executable::ids::{
    ArgumentId, DirectiveId, IdRange, SelectionId, StringId, VariableDefinitionId,
};
use cynic_parser::executable::layout::Layout;
use cynic_parser::executable::storage::{
    ArgumentRecord, FieldSelectionRecord, FragmentSpreadRecord, OperationDefinitionRecord,
    OperationType, SelectionRecord, ValueRecord,
};
use cynic_parser::executable::{ExecutableAstWriter, ExecutableDocument};
use cynic_parser::{parse_executable_document, Span};
use pretty::RcDoc;

fn to_doc(layout: &Layout) -> RcDoc<'static, ()> {
    match layout {
        Layout::Nil => RcDoc::nil(),
        Layout::Text(text) => RcDoc::text(text.clone()),
        Layout::Space => RcDoc::space(),
        Layout::Line => RcDoc::line(),
        Layout::SoftLine => RcDoc::line_(),
        Layout::Hardline => RcDoc::hardline(),
        Layout::Nest(inner) => to_doc(inner).nest(2),
        Layout::Group(inner) => to_doc(inner).group(),
        Layout::FlatAlt(broken, flat) => to_doc(broken).flat_alt(to_doc(flat)),
        Layout::Append(first, second) => to_doc(first).append(to_doc(second)),
    }
}

fn render(document: &ExecutableDocument, width: usize) -> String {
    assert!(document.is_layable());
    let layout = document.pretty_layout();
    format!("{}", to_doc(&layout).pretty(width))
}

fn no_arguments() -> IdRange<ArgumentId> {
    IdRange::new(ArgumentId::new(0), ArgumentId::new(0))
}

fn no_directives() -> IdRange<DirectiveId> {
    IdRange::new(DirectiveId::new(0), DirectiveId::new(0))
}

fn no_selections() -> IdRange<SelectionId> {
    IdRange::new(SelectionId::new(0), SelectionId::new(0))
}

fn field(name: StringId, arguments: IdRange<ArgumentId>, selection_set: IdRange<SelectionId>) -> FieldSelectionRecord {
    FieldSelectionRecord {
        alias: None,
        alias_span: None,
        name,
        name_span: Span::new(0, 1),
        arguments,
        directives: no_directives(),
        selection_set,
        selection_set_span: None,
    }
}

fn query(name: Option<StringId>, selection_set: IdRange<SelectionId>) -> OperationDefinitionRecord {
    OperationDefinitionRecord {
        operation_type: OperationType::Query,
        operation_type_span: None,
        name,
        name_span: None,
        variable_definitions: IdRange::new(VariableDefinitionId::new(0), VariableDefinitionId::new(0)),
        directives: no_directives(),
        selection_set,
        selection_set_span: Span::new(0, 0),
    }
}

fn argument(name: StringId, value: cynic_parser::executable::ids::ValueId) -> ArgumentRecord {
    ArgumentRecord { name, name_span: Span::new(0, 1), value }
}

#[test]
fn bare_operations_are_their_keywords() {
    let document = parse_executable_document("query").ok().unwrap();
    assert_eq!(render(&document, 80), "");
    let document = parse_executable_document("query query").ok().unwrap();
    assert_eq!(render(&document, 80), "query\n\nquery");
}

#[test]
fn nested_selections_are_indented() {
    let mut writer = ExecutableAstWriter::new();
    let q = writer.ident("Q");
    let node = writer.ident("node");
    let id = writer.ident("id");
    let frag = writer.ident("F");
    let variable = writer.value(ValueRecord::Variable(id));
    let arguments = writer.arguments(vec![argument(id, variable)]);
    let inner_field = writer.field_selection(field(id, no_arguments(), no_selections()));
    let spread = writer.fragment_spread(FragmentSpreadRecord {
        fragment_name: frag,
        fragment_name_span: Span::new(0, 1),
        directives: no_directives(),
    });
    let inner = writer.selection_set(vec![
        SelectionRecord::Field(inner_field),
        SelectionRecord::FragmentSpread(spread),
    ]);
    let outer = writer.field_selection(field(node, arguments, inner));
    let top = writer.selection_set(vec![SelectionRecord::Field(outer)]);
    writer.operation_definition(query(Some(q), top));
    let document = writer.finish();
    assert_eq!(render(&document, 80), "query Q {\n  node(id: $id) {\n    id\n    ...F\n  }\n}");
}

fn values_document() -> ExecutableDocument {
    let mut writer = ExecutableAstWriter::new();
    let f = writer.ident("f");
    let a = writer.ident("a");
    let b = writer.ident("b");
    let c = writer.ident("c");
    let x = writer.intern_string("x");
    let one = writer.value(ValueRecord::Int(1));
    let two = writer.value(ValueRecord::Int(2));
    let list = writer.value(ValueRecord::List(vec![one, two]));
    let text = writer.value(ValueRecord::String(x));
    let object = writer.value(ValueRecord::Object(vec![(c, text)]));
    let arguments = writer.arguments(vec![argument(a, list), argument(b, object)]);
    let selection = writer.field_selection(field(f, arguments, no_selections()));
    let top = writer.selection_set(vec![SelectionRecord::Field(selection)]);
    writer.operation_definition(query(None, top));
    writer.finish()
}

#[test]
fn values_fit_on_one_line_where_they_can() {
    assert_eq!(render(&values_document(), 80), "{\n  f(a: [1, 2], b: { c: \"x\" })\n}");
}

#[test]
fn long_arguments_break_one_per_line() {
    let output = render(&values_document(), 12);
    assert!(output.starts_with("{\n  f(\n"), "{output}");
    assert!(output.lines().count() > 4, "{output}");
}

#[test]
fn documents_with_missing_records_cannot_be_laid_out() {
    let mut writer = ExecutableAstWriter::new();
    let top = writer.selection_set(vec![SelectionRecord::Field(
        cynic_parser::executable::ids::FieldSelectionId::new(7),
    )]);
    writer.operation_definition(query(None, top));
    let document = writer.finish();
    assert!(!document.is_layable());
}
