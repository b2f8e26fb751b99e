use cynic_parser::text::escape_string;
use cynic_parser::executable::storage::ValueRecord;
use cynic_parser::executable::value::Value;
use cynic_parser::executable::ExecutableAstWriter;

#[test]
fn values_read_back_as_trees() {
    let mut writer = ExecutableAstWriter::new();
    let a = writer.intern_string("a");
    let b = writer.intern_string("b");
    let field = writer.intern_string("field");
    let float = writer.intern_string("1.5e3");
    let var_a = writer.value(ValueRecord::Variable(a));
    let var_b = writer.value(ValueRecord::Variable(b));
    let one = writer.value(ValueRecord::Int(1));
    let fl = writer.value(ValueRecord::Float(float));
    let list = writer.value(ValueRecord::List(vec![var_a, one, var_b]));
    let object = writer.value(ValueRecord::Object(vec![(field, list), (field, fl), (field, var_a)]));
    let document = writer.finish();

    match document.read_value(fl) {
        Value::Float(text) => assert_eq!(text, "1.5e3"),
        other => panic!("unexpected {other:?}"),
    }
    match document.read_value(list) {
        Value::List(items) => assert_eq!(items.len(), 3),
        other => panic!("unexpected {other:?}"),
    }
    let value = document.read_value(object);
    // Fields and items are walked from the last to the first.
    assert_eq!(value.variables_used(), vec!["a", "b", "a"]);
    assert_eq!(document.read_value(one).variables_used(), Vec::<&str>::new());
}

#[test]
fn strings_are_escaped_for_literals() {
    assert_eq!(escape_string("plain"), "plain");
    assert_eq!(escape_string("a\"b\\c"), "a\\\"b\\\\c");
    assert_eq!(escape_string("line\nbreak\ttab"), "line\\nbreak\\ttab");
    assert_eq!(escape_string("\u{1}\u{1f}"), "\\u0001\\u001f");
    assert_eq!(escape_string("é"), "é");
}

#[test]
fn values_compare_structurally() {
    assert!(Value::Int(3) == Value::Int(3));
    assert!(Value::Int(3) != Value::Int(4));
    assert!(Value::String("a") != Value::Enum("a"));
    assert!(Value::Null == Value::Null);
    assert!(Value::Float("1.5") == Value::Float("1.5"));
    let list = Value::List(vec![Value::Boolean(true), Value::Variable("x")]);
    assert!(list == Value::List(vec![Value::Boolean(true), Value::Variable("x")]));
    assert!(list != Value::List(vec![Value::Variable("x"), Value::Boolean(true)]));
    assert!(list != Value::List(vec![Value::Boolean(true)]));
}

#[test]
fn objects_compare_whatever_the_order_of_their_fields() {
    let a = Value::Object(vec![("x", Value::Int(1)), ("y", Value::Int(2))]);
    let b = Value::Object(vec![("y", Value::Int(2)), ("x", Value::Int(1))]);
    assert!(a == b);
    let c = Value::Object(vec![("y", Value::Int(2)), ("z", Value::Int(1))]);
    assert!(a != c);
    let d = Value::Object(vec![("x", Value::Int(1))]);
    assert!(a != d);
    // A field compares with the first field of the other object that has its name.
    let twice = Value::Object(vec![("x", Value::Int(1)), ("x", Value::Int(2))]);
    assert!(twice != Value::Object(vec![("x", Value::Int(1)), ("x", Value::Int(2))]));
}
