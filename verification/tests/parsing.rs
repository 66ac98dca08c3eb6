use typed_format::value::grammar::{EscapeError, ParseError, UnsupportedShape, MAX_DEPTH};
use typed_format::value::parser::{
    parse_main_type, parse_main_type_identifier, parse_main_value, unescape_char,
    unescape_single, unescape_string,
};
use typed_format::value::types::{
    GenericIdentifier, Generics, Identifier, Type, TypeIdentifier,
};
use typed_format::value::Value;

fn number(text: &str) -> Value {
    Value::Number(text.to_string())
}

fn syntax(position: usize) -> ParseError {
    ParseError::Syntax { position }
}

#[test]
fn unit_and_tuples() {
    assert_eq!(Value::parse("()"), Ok(Value::Unit));
    assert_eq!(Value::parse(" ( ) "), Ok(Value::Unit));
    assert_eq!(Value::parse("(1)"), Ok(Value::Tuple(vec![number("1")])));
    assert_eq!(Value::parse("(1,)"), Ok(Value::Tuple(vec![number("1")])));
    assert_eq!(
        Value::parse(" ( 1 , 2 ) "),
        Ok(Value::Tuple(vec![number("1"), number("2")]))
    );
    assert_eq!(Value::parse("(,)"), Err(syntax(1)));
    assert_eq!(Value::parse("(1 2)"), Err(syntax(3)));
    assert_eq!(Value::parse("(1"), Err(syntax(2)));
}

#[test]
fn lists() {
    assert_eq!(Value::parse("[]"), Ok(Value::List(vec![])));
    assert_eq!(
        Value::parse("[1,[2],()]"),
        Ok(Value::List(vec![
            number("1"),
            Value::List(vec![number("2")]),
            Value::Unit
        ]))
    );
    assert_eq!(Value::parse("[1,2,]"), Ok(Value::List(vec![number("1"), number("2")])));
    assert_eq!(Value::parse("[1)"), Err(syntax(2)));
}

#[test]
fn numbers_keep_their_text() {
    for text in ["0", "007", "+7", "-12", "1.5", "-1.5e+10", "3E8", "2e-3"] {
        assert_eq!(Value::parse(text), Ok(number(text)));
    }
    assert_eq!(Value::parse("1."), Err(syntax(1)));
    assert_eq!(Value::parse("1e"), Err(syntax(1)));
    assert_eq!(Value::parse("-"), Err(syntax(0)));
    assert_eq!(Value::parse(".5"), Err(syntax(0)));
    assert_eq!(Value::parse("1 2"), Err(syntax(2)));
}

#[test]
fn strings_and_their_escapes() {
    assert_eq!(Value::parse("\"\""), Ok(Value::String(String::new())));
    assert_eq!(
        Value::parse("\"a\\nb\\t\\r\\0\\\\\\\"\\'c\""),
        Ok(Value::String("a\nb\t\r\0\\\"'c".to_string()))
    );
    assert_eq!(
        Value::parse("\"h\u{e9}llo \u{1F600}\""),
        Ok(Value::String("h\u{e9}llo \u{1F600}".to_string()))
    );
    assert_eq!(Value::parse("\"abc"), Err(syntax(4)));
    assert_eq!(Value::parse("\"abc\\"), Err(syntax(5)));
    assert_eq!(
        Value::parse("\"\\x\""),
        Err(ParseError::Escape { position: 0, error: EscapeError::UnknownEscape('x') })
    );
}

#[test]
fn chars_and_their_escapes() {
    assert_eq!(Value::parse("'a'"), Ok(Value::Char('a')));
    assert_eq!(Value::parse("'\\n'"), Ok(Value::Char('\n')));
    assert_eq!(Value::parse("'\\''"), Ok(Value::Char('\'')));
    assert_eq!(Value::parse("'\"'"), Ok(Value::Char('"')));
    assert_eq!(Value::parse("''"), Err(syntax(1)));
    assert_eq!(
        Value::parse("'ab'"),
        Err(ParseError::Escape { position: 0, error: EscapeError::TrailingGarbage })
    );
    assert_eq!(
        Value::parse("'\\q'"),
        Err(ParseError::Escape { position: 0, error: EscapeError::UnknownEscape('q') })
    );
    assert_eq!(Value::parse("'a"), Err(syntax(2)));
}

#[test]
fn unescaping_on_its_own() {
    assert_eq!(unescape_string("a\\tb"), Ok("a\tb".to_string()));
    assert_eq!(unescape_string(""), Ok(String::new()));
    assert_eq!(unescape_string("abc\\"), Err(EscapeError::UnexpectedEnd));
    assert_eq!(unescape_string("\\z"), Err(EscapeError::UnknownEscape('z')));
    assert_eq!(unescape_char("x"), Ok('x'));
    assert_eq!(unescape_char("\\0"), Ok('\0'));
    assert_eq!(unescape_char("xy"), Err(EscapeError::TrailingGarbage));
    assert_eq!(unescape_char("\\"), Err(EscapeError::UnexpectedEnd));
    let raw: Vec<char> = "a\\nb".chars().collect();
    assert_eq!(unescape_single(&raw, 0), Ok(('a', 1)));
    assert_eq!(unescape_single(&raw, 1), Ok(('\n', 3)));
    assert_eq!(unescape_single(&raw, 3), Ok(('b', 4)));
}

#[test]
fn options() {
    assert_eq!(Value::parse("None"), Ok(Value::Option(None)));
    assert_eq!(
        Value::parse("Some(1)"),
        Ok(Value::Option(Some(Box::new(number("1")))))
    );
    assert_eq!(
        Value::parse("Some ( 1 , ) "),
        Ok(Value::Option(Some(Box::new(number("1")))))
    );
    assert_eq!(
        Value::parse("Some(None)"),
        Ok(Value::Option(Some(Box::new(Value::Option(None)))))
    );
    assert_eq!(
        Value::parse("Some(1, 2)"),
        Ok(Value::TupleStruct(
            TypeIdentifier::from_name("Some"),
            vec![number("1"), number("2")]
        ))
    );
    assert_eq!(Value::parse("Some"), Ok(Value::Type(Type::from_name("Some"))));
    assert_eq!(Value::parse("NoneX"), Ok(Value::Type(Type::from_name("NoneX"))));
    assert_eq!(
        Value::parse("None(1)"),
        Ok(Value::TupleStruct(TypeIdentifier::from_name("None"), vec![number("1")]))
    );
}

#[test]
fn structs_and_tuple_structs() {
    assert_eq!(
        Value::parse("Foo()"),
        Ok(Value::TupleStruct(TypeIdentifier::from_name("Foo"), vec![]))
    );
    assert_eq!(
        Value::parse("Foo::Bar(1, 'x')"),
        Ok(Value::TupleStruct(
            TypeIdentifier::from_pair("Foo", "Bar"),
            vec![number("1"), Value::Char('x')]
        ))
    );
    assert_eq!(
        Value::parse("Foo(b: 1, a: 2,)"),
        Ok(Value::Struct(
            TypeIdentifier::from_name("Foo"),
            vec![
                (Identifier::new("a"), number("2")),
                (Identifier::new("b"), number("1"))
            ]
        ))
    );
    assert_eq!(
        Value::parse("Foo(a: 1, a: 2)"),
        Ok(Value::Struct(
            TypeIdentifier::from_name("Foo"),
            vec![(Identifier::new("a"), number("2"))]
        ))
    );
    assert_eq!(
        Value::parse("Foo(Bar, Baz::Qux)"),
        Ok(Value::TupleStruct(
            TypeIdentifier::from_name("Foo"),
            vec![
                Value::Type(Type::from_name("Bar")),
                Value::Type(Type::from_pair("Baz", "Qux"))
            ]
        ))
    );
    assert_eq!(Value::parse("Foo(a: 1, 2)"), Err(syntax(10)));
    assert_eq!(Value::parse("Foo(a 1)"), Err(syntax(6)));
}

#[test]
fn maps_are_kept_in_key_order() {
    assert_eq!(Value::parse("{}"), Ok(Value::Mapping(vec![])));
    assert_eq!(
        Value::parse("{\"b\": 1, \"a\": 2}"),
        Ok(Value::Mapping(vec![
            (Value::String("a".to_string()), number("2")),
            (Value::String("b".to_string()), number("1")),
        ]))
    );
    assert_eq!(
        Value::parse("{1:2,1:3}"),
        Ok(Value::Mapping(vec![(number("1"), number("3"))]))
    );
    assert_eq!(
        Value::parse("{A:B}"),
        Ok(Value::Mapping(vec![(
            Value::Type(Type::from_name("A")),
            Value::Type(Type::from_name("B"))
        )]))
    );
    assert_eq!(Value::parse("{1}"), Err(syntax(2)));
    assert_eq!(Value::parse("{1:}"), Err(syntax(3)));
}

#[test]
fn unsupported_shapes() {
    assert_eq!(
        Value::parse("Foo<Bar>(1)"),
        Err(ParseError::Unsupported { position: 0, shape: UnsupportedShape::GenericsOnName })
    );
    assert_eq!(
        Value::parse("A::B::C(1)"),
        Err(ParseError::Unsupported { position: 0, shape: UnsupportedShape::PathTooLong })
    );
    assert_eq!(
        TypeIdentifier::parse("Foo<Bar>"),
        Err(ParseError::Unsupported { position: 0, shape: UnsupportedShape::GenericsOnName })
    );
    assert_eq!(
        parse_main_type_identifier("A::B::C"),
        Err(ParseError::Unsupported { position: 0, shape: UnsupportedShape::PathTooLong })
    );
    assert_eq!(
        parse_main_type("Foo<Bar<Baz>>"),
        Err(ParseError::Unsupported { position: 4, shape: UnsupportedShape::NestedGenerics })
    );
}

#[test]
fn types_as_values_and_alone() {
    let generic = Type::TypeIdentifier(TypeIdentifier {
        segments: vec![GenericIdentifier {
            identifier: Identifier::new("Foo"),
            generics: Some(Generics {
                types: vec![Type::from_name("Bar"), Type::from_pair("a", "Baz")],
            }),
        }],
    });
    assert_eq!(Type::parse(" Foo < Bar , a :: Baz > "), Ok(generic.clone()));
    assert_eq!(Value::parse("Foo<Bar, a::Baz>"), Ok(Value::Type(generic.clone())));
    assert_eq!(generic.to_string(), "Foo<Bar, a::Baz>");
    assert_eq!(
        Value::parse(&Value::Type(generic.clone()).to_string_pretty()),
        Ok(Value::Type(generic))
    );
    let long = Type::parse("A::B::C").unwrap();
    assert_eq!(long.to_string(), "A::B::C");
    assert_eq!(Value::parse("A::B::C"), Ok(Value::Type(long)));
    assert_eq!(Type::parse("[usize; 42]"), Err(syntax(0)));
    assert_eq!(Type::parse("(usize, usize)"), Err(syntax(0)));
    assert_eq!(Type::parse("Foo<>"), Err(syntax(4)));
    assert_eq!(Type::parse("Foo::"), Err(syntax(5)));
    assert_eq!(Type::parse("Foo Bar"), Err(syntax(4)));
    assert_eq!(
        TypeIdentifier::parse("Foo::Bar"),
        Ok(TypeIdentifier::from_pair("Foo", "Bar"))
    );
}

#[test]
fn empty_and_stray_text() {
    assert_eq!(Value::parse(""), Err(syntax(0)));
    assert_eq!(Value::parse("   "), Err(syntax(3)));
    assert_eq!(Value::parse("@"), Err(syntax(0)));
    assert_eq!(parse_main_value("1 ,"), Err(syntax(2)));
}

#[test]
fn nesting_has_a_limit() {
    let within = format!("{}{}", "[".repeat(MAX_DEPTH + 1), "]".repeat(MAX_DEPTH + 1));
    assert!(Value::parse(&within).is_ok());
    let beyond = format!("{}{}", "[".repeat(MAX_DEPTH + 2), "]".repeat(MAX_DEPTH + 2));
    assert_eq!(
        Value::parse(&beyond),
        Err(ParseError::DepthExceeded { position: MAX_DEPTH + 1 })
    );
    let options = format!("{}1{}", "Some(".repeat(MAX_DEPTH + 1), ")".repeat(MAX_DEPTH + 1));
    assert_eq!(
        Value::parse(&options),
        Err(ParseError::DepthExceeded { position: 5 * (MAX_DEPTH + 1) })
    );
}

#[test]
fn truth_values_are_read_as_names() {
    assert_eq!(Value::Bool(true).to_string_compact(), "true");
    assert_eq!(Value::Bool(false).to_string_pretty(), "false");
    assert_eq!(Value::parse("true"), Ok(Value::Type(Type::from_name("true"))));
}

#[test]
fn errors_say_where() {
    assert_eq!(
        Value::parse("  [1, Foo<A>(2)]"),
        Err(ParseError::Unsupported { position: 6, shape: UnsupportedShape::GenericsOnName })
    );
    assert_eq!(
        Value::parse("[ \"a\", \"\\q\" ]"),
        Err(ParseError::Escape { position: 7, error: EscapeError::UnknownEscape('q') })
    );
    assert_eq!(
        Value::parse("(1, 'xy')"),
        Err(ParseError::Escape { position: 4, error: EscapeError::TrailingGarbage })
    );
    assert_eq!(
        parse_main_type_identifier("  A::B::C"),
        Err(ParseError::Unsupported { position: 2, shape: UnsupportedShape::PathTooLong })
    );
    assert_eq!(
        Value::parse("{1: a::b::c(2)}"),
        Err(ParseError::Unsupported { position: 4, shape: UnsupportedShape::PathTooLong })
    );
    assert_eq!(
        parse_main_type("A<B, C<D>>"),
        Err(ParseError::Unsupported { position: 5, shape: UnsupportedShape::NestedGenerics })
    );
}
