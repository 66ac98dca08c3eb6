use typed_format::value::grammar::{EscapeError, ParseError, UnsupportedShape};
use typed_format::value::printer::{
    escape_char, escape_char_generic, escape_string, ValuePrinter,
};
use typed_format::value::types::{Identifier, Type, TypeIdentifier};
use typed_format::value::Value;

fn number(text: &str) -> Value {
    Value::Number(text.to_string())
}

#[test]
fn some_unit_pretty() {
    let value = Value::Option(Some(Box::new(Value::Unit)));
    assert_eq!(value.to_string_pretty(), "Some(\n    (),\n)");
    assert_eq!(Value::parse(&value.to_string_pretty()), Ok(value.clone()));
    assert_eq!(value.to_string_compact(), "Some(\n(),\n)");
    assert_eq!(Value::parse(&value.to_string_compact()), Ok(value));
}

#[test]
fn struct_compact() {
    let value = Value::Struct(
        TypeIdentifier::from_name("Bar"),
        vec![(Identifier::new("bar"), number("2"))],
    );
    assert_eq!(value.to_string_compact(), "Bar(bar:2)");
    assert_eq!(value.to_string_pretty(), "Bar(\n    bar: 2,\n)");
    assert_eq!(Value::parse("Bar(bar:2)"), Ok(value.clone()));
    assert_eq!(Value::parse(&value.to_string_pretty()), Ok(value));
}

#[test]
fn map_in_key_order() {
    let text = "{1:42, 2:5, 0:64}";
    let value = Value::parse(text).unwrap();
    assert_eq!(value.to_string_compact(), "{0:64,1:42,2:5}");
    assert_eq!(value.to_string_pretty(), "{\n    0: 64,\n    1: 42,\n    2: 5,\n}");
}

#[test]
fn invalid_escape_is_refused() {
    assert_eq!(
        Value::parse("\"\\q\""),
        Err(ParseError::Escape { position: 0, error: EscapeError::UnknownEscape('q') })
    );
}

#[test]
fn nested_generics_are_refused() {
    assert_eq!(
        Type::parse("Foo<Bar<Baz>>"),
        Err(ParseError::Unsupported { position: 4, shape: UnsupportedShape::NestedGenerics })
    );
    assert_eq!(
        Value::parse("Foo<Bar<Baz>>"),
        Err(ParseError::Unsupported { position: 4, shape: UnsupportedShape::NestedGenerics })
    );
    assert!(Type::parse("Foo<Bar>").is_ok());
}

#[test]
fn three_segments_are_refused() {
    assert_eq!(
        TypeIdentifier::parse("A::B::C"),
        Err(ParseError::Unsupported { position: 0, shape: UnsupportedShape::PathTooLong })
    );
    assert!(TypeIdentifier::parse("A::B").is_ok());
}

#[test]
fn number_text_is_kept() {
    let value = Value::parse("007").unwrap();
    assert_eq!(value, number("007"));
    assert_eq!(value.to_string_compact(), "007");
    assert_eq!(value.to_string_pretty(), "007");
}

#[test]
fn lists_compact_and_pretty() {
    let value = Value::List(vec![number("1"), number("2")]);
    assert_eq!(value.to_string_compact(), "[1,2]");
    assert_eq!(value.to_string_pretty(), "[\n    1,\n    2,\n]");
    let nested = Value::List(vec![Value::List(vec![number("1")])]);
    assert_eq!(nested.to_string_compact(), "[[1]]");
    assert_eq!(nested.to_string_pretty(), "[\n    [\n        1,\n    ],\n]");
}

#[test]
fn empty_composites_stay_on_one_line() {
    assert_eq!(Value::List(vec![]).to_string_pretty(), "[]");
    assert_eq!(Value::Tuple(vec![]).to_string_pretty(), "()");
    assert_eq!(Value::Mapping(vec![]).to_string_pretty(), "{}");
    assert_eq!(Value::Unit.to_string_pretty(), "()");
    assert_eq!(
        Value::TupleStruct(TypeIdentifier::from_name("Foo"), vec![]).to_string_pretty(),
        "Foo()"
    );
    assert_eq!(
        Value::Struct(TypeIdentifier::from_name("Foo"), vec![]).to_string_compact(),
        "Foo()"
    );
}

#[test]
fn escapes_in_literals() {
    assert_eq!(escape_char_generic('\\'), Ok("\\\\"));
    assert_eq!(escape_char_generic('\n'), Ok("\\n"));
    assert_eq!(escape_char_generic('\r'), Ok("\\r"));
    assert_eq!(escape_char_generic('\t'), Ok("\\t"));
    assert_eq!(escape_char_generic('\0'), Ok("\\0"));
    assert_eq!(escape_char_generic('a'), Err('a'));
    assert_eq!(escape_char_generic('"'), Err('"'));
    assert_eq!(escape_char('\''), "\\'");
    assert_eq!(escape_char('"'), "\"");
    assert_eq!(escape_char('\n'), "\\n");
    assert_eq!(escape_char('x'), "x");
    assert_eq!(escape_string("a\"b'c\\\n"), "a\\\"b'c\\\\\\n");
    assert_eq!(escape_string("h\u{e9}llo"), "h\u{e9}llo");
    assert_eq!(Value::Char('\'').to_string_compact(), "'\\''");
    assert_eq!(Value::String("\"".to_string()).to_string_compact(), "\"\\\"\"");
}

#[test]
fn escape_fidelity() {
    for c in ['\\', '\n', '\r', '\t', '\0', '"', '\'', 'a', '\u{e9}'] {
        let as_char = Value::Char(c);
        assert_eq!(Value::parse(&as_char.to_string_compact()), Ok(as_char.clone()));
        assert_eq!(Value::parse(&as_char.to_string_pretty()), Ok(as_char));
        let as_string = Value::String(format!("x{}y{}", c, c));
        assert_eq!(Value::parse(&as_string.to_string_compact()), Ok(as_string.clone()));
        assert_eq!(Value::parse(&as_string.to_string_pretty()), Ok(as_string));
    }
}

#[test]
fn a_printer_of_its_own() {
    let value = Value::Tuple(vec![number("1"), Value::List(vec![number("2")])]);
    let mut out = String::new();
    ValuePrinter::new("\t", true).write(&value, &mut out);
    assert_eq!(out, "(\n\t1,\n\t[\n\t\t2,\n\t],\n)");
    assert_eq!(Value::parse(&out), Ok(value.clone()));
    let mut flat = String::from(">");
    ValuePrinter::new("\t", false).write(&value, &mut flat);
    assert_eq!(flat, ">(1,[2])");
    let mut deep = String::new();
    ValuePrinter::pretty().indent().write(&Value::List(vec![number("1")]), &mut deep);
    assert_eq!(deep, "[\n        1,\n    ]");
    let mut lines = String::new();
    let printer = ValuePrinter::default().indent();
    printer.write_indent(&mut lines);
    printer.write_newline(&mut lines);
    ValuePrinter::compact().write_newline(&mut lines);
    ValuePrinter::compact().indent().write_indent(&mut lines);
    assert_eq!(lines, "    \n");
    let mut items = String::new();
    ValuePrinter::compact().write_items(&mut items, &vec![number("1"), number("2")]);
    assert_eq!(items, "1,2");
    let mut list = String::new();
    ValuePrinter::pretty().write_items_list(&mut list, &vec![number("1")]);
    assert_eq!(list, "\n    1,\n");
}

#[test]
fn printed_values_parse_back() {
    let values = vec![
        Value::Unit,
        Value::Char('x'),
        Value::String("hi".to_string()),
        number("-1.5e3"),
        Value::Type(Type::from_pair("A", "B")),
        Value::List(vec![]),
        Value::Tuple(vec![Value::Unit]),
        Value::Option(None),
        Value::Option(Some(Box::new(Value::Option(Some(Box::new(Value::Unit)))))),
        Value::Mapping(vec![
            (Value::Unit, Value::List(vec![number("1")])),
            (Value::Type(Type::from_name("A")), Value::Type(Type::from_name("B"))),
        ]),
        Value::Struct(
            TypeIdentifier::from_pair("E", "V"),
            vec![
                (Identifier::new("a"), Value::Type(Type::from_name("T"))),
                (Identifier::new("b"), Value::Mapping(vec![])),
            ],
        ),
        Value::TupleStruct(TypeIdentifier::from_name("Some"), vec![]),
        Value::TupleStruct(
            TypeIdentifier::from_name("T"),
            vec![Value::Type(Type::from_name("a")), number("1")],
        ),
    ];
    for value in &values {
        assert_eq!(Value::parse(&value.to_string_compact()).as_ref(), Ok(value));
        assert_eq!(Value::parse(&value.to_string_pretty()).as_ref(), Ok(value));
    }
    let all = Value::List(values);
    assert_eq!(Value::parse(&all.to_string_compact()), Ok(all.clone()));
    assert_eq!(Value::parse(&all.to_string_pretty()), Ok(all));
}

#[test]
fn what_does_not_parse_back() {
    let empty_tuple = Value::Tuple(vec![]);
    assert_eq!(Value::parse(&empty_tuple.to_string_compact()), Ok(Value::Unit));
    let empty_struct = Value::Struct(TypeIdentifier::from_name("Foo"), vec![]);
    assert_eq!(
        Value::parse(&empty_struct.to_string_compact()),
        Ok(Value::TupleStruct(TypeIdentifier::from_name("Foo"), vec![]))
    );
    let some = Value::TupleStruct(TypeIdentifier::from_name("Some"), vec![Value::Unit]);
    assert_eq!(
        Value::parse(&some.to_string_compact()),
        Ok(Value::Option(Some(Box::new(Value::Unit))))
    );
    let none = Value::Type(Type::from_name("None"));
    assert_eq!(Value::parse(&none.to_string_compact()), Ok(Value::Option(None)));
}
