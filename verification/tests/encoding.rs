use typed_format::value::bytes::{bytes_to_text, text_to_bytes};
use typed_format::value::deserializer::{
    Scalar, ValueDeserializer, ValueDeserializerError, ValueKind,
};
use typed_format::value::number::{integer_string, parse_integer, ParsedNumber};
use typed_format::value::serializer::{ValueSerializer, ValueSerializerError};
use typed_format::value::types::{Identifier, Type, TypeIdentifier};
use typed_format::value::Value;

fn number(text: &str) -> Value {
    Value::Number(text.to_string())
}

fn decoder(value: &Value) -> ValueDeserializer<'_> {
    ValueDeserializer { value }
}

fn mismatch(expected: ValueKind, found: ValueKind) -> ValueDeserializerError {
    ValueDeserializerError::ShapeMismatch { expected, found }
}

#[test]
fn integers_as_text() {
    assert_eq!(integer_string(0), "0");
    assert_eq!(integer_string(7), "7");
    assert_eq!(integer_string(-7), "-7");
    assert_eq!(integer_string(1234567890), "1234567890");
    assert_eq!(
        integer_string(i128::MAX),
        "170141183460469231731687303715884105727"
    );
    assert_eq!(
        integer_string(i128::MIN),
        "-170141183460469231731687303715884105728"
    );
    assert_eq!(ValueSerializer.serialize_i8(-128).unwrap(), number("-128"));
    assert_eq!(ValueSerializer.serialize_i16(-5).unwrap(), number("-5"));
    assert_eq!(ValueSerializer.serialize_i32(0).unwrap(), number("0"));
    assert_eq!(
        ValueSerializer.serialize_i64(i64::MIN).unwrap(),
        number("-9223372036854775808")
    );
    assert_eq!(ValueSerializer.serialize_u8(255).unwrap(), number("255"));
    assert_eq!(ValueSerializer.serialize_u16(65535).unwrap(), number("65535"));
    assert_eq!(ValueSerializer.serialize_u32(42).unwrap(), number("42"));
    assert_eq!(
        ValueSerializer.serialize_u64(u64::MAX).unwrap(),
        number("18446744073709551615")
    );
}

#[test]
fn text_as_integers() {
    assert_eq!(parse_integer("0", false, 0, 255), Some(0));
    assert_eq!(parse_integer("007", false, 0, 255), Some(7));
    assert_eq!(parse_integer("+5", false, 0, 255), Some(5));
    assert_eq!(parse_integer("255", false, 0, 255), Some(255));
    assert_eq!(parse_integer("256", false, 0, 255), None);
    assert_eq!(parse_integer("-0", false, 0, 255), None);
    assert_eq!(parse_integer("-0", true, -128, 127), Some(0));
    assert_eq!(parse_integer("-128", true, -128, 127), Some(-128));
    assert_eq!(parse_integer("-129", true, -128, 127), None);
    assert_eq!(parse_integer("", true, -128, 127), None);
    assert_eq!(parse_integer("-", true, -128, 127), None);
    assert_eq!(parse_integer("+", true, -128, 127), None);
    assert_eq!(parse_integer("+-1", true, -128, 127), None);
    assert_eq!(parse_integer("1a", true, -128, 127), None);
    assert_eq!(parse_integer(" 1", true, -128, 127), None);
    assert_eq!(parse_integer("1.0", true, -128, 127), None);
    assert_eq!(
        parse_integer("99999999999999999999999999999999999999999999", true, -128, 127),
        None
    );
    assert_eq!(
        parse_integer("18446744073709551615", false, 0, u64::MAX as i128),
        Some(u64::MAX as i128)
    );
}

#[test]
fn integers_are_decoded_by_their_width() {
    assert_eq!(decoder(&number("-128")).deserialize_i8(), Ok(-128));
    assert_eq!(
        decoder(&number("128")).deserialize_i8(),
        Err(ValueDeserializerError::NumberFormat)
    );
    assert_eq!(decoder(&number("-32768")).deserialize_i16(), Ok(i16::MIN));
    assert_eq!(decoder(&number("2147483647")).deserialize_i32(), Ok(i32::MAX));
    assert_eq!(
        decoder(&number("-9223372036854775808")).deserialize_i64(),
        Ok(i64::MIN)
    );
    assert_eq!(
        decoder(&number("9223372036854775808")).deserialize_i64(),
        Err(ValueDeserializerError::NumberFormat)
    );
    assert_eq!(decoder(&number("255")).deserialize_u8(), Ok(255));
    assert_eq!(
        decoder(&number("-1")).deserialize_u8(),
        Err(ValueDeserializerError::NumberFormat)
    );
    assert_eq!(decoder(&number("65535")).deserialize_u16(), Ok(u16::MAX));
    assert_eq!(decoder(&number("4294967295")).deserialize_u32(), Ok(u32::MAX));
    assert_eq!(
        decoder(&number("18446744073709551615")).deserialize_u64(),
        Ok(u64::MAX)
    );
    assert_eq!(
        decoder(&number("1.5")).deserialize_u64(),
        Err(ValueDeserializerError::NumberFormat)
    );
    assert_eq!(
        decoder(&Value::Unit).deserialize_u64(),
        Err(mismatch(ValueKind::Number, ValueKind::Unit))
    );
}

#[test]
fn every_integer_comes_back() {
    for n in [i64::MIN, -1000, -1, 0, 1, 9, 10, 11, 99, 100, 12345, i64::MAX] {
        let value = ValueSerializer.serialize_i64(n).unwrap();
        assert_eq!(decoder(&value).deserialize_i64(), Ok(n));
        let parsed = Value::parse(&value.to_string_pretty()).unwrap();
        assert_eq!(decoder(&parsed).deserialize_i64(), Ok(n));
    }
    for n in [0, 1, 255, 256, u64::MAX] {
        let value = ValueSerializer.serialize_u64(n).unwrap();
        assert_eq!(decoder(&value).deserialize_u64(), Ok(n));
        let parsed = Value::parse(&value.to_string_compact()).unwrap();
        assert_eq!(decoder(&parsed).deserialize_u64(), Ok(n));
    }
}

#[test]
fn numbers_read_as_integers() {
    assert_eq!(ParsedNumber::parse("5"), Some(ParsedNumber::U64(5)));
    assert_eq!(ParsedNumber::parse("+5"), Some(ParsedNumber::U64(5)));
    assert_eq!(ParsedNumber::parse("-5"), Some(ParsedNumber::I64(-5)));
    assert_eq!(
        ParsedNumber::parse("18446744073709551615"),
        Some(ParsedNumber::U64(u64::MAX))
    );
    assert_eq!(ParsedNumber::parse("18446744073709551616"), None);
    assert_eq!(ParsedNumber::parse("1.5"), None);
    assert_eq!(ParsedNumber::parse(""), None);
    assert_eq!(number("-7").parse_number(), Some(ParsedNumber::I64(-7)));
    assert_eq!(Value::String("7".to_string()).parse_number(), None);
}

#[test]
fn bytes_travel_as_base64() {
    let value = ValueSerializer.serialize_bytes("Hello World".as_bytes()).unwrap();
    assert_eq!(value, Value::String("SGVsbG8gV29ybGQ=".to_string()));
    assert_eq!(
        decoder(&value).deserialize_bytes(),
        Ok("Hello World".as_bytes().to_vec())
    );
    assert_eq!(
        decoder(&value).deserialize_byte_buf(),
        Ok("Hello World".as_bytes().to_vec())
    );
    let parsed = Value::parse(&value.to_string_pretty()).unwrap();
    assert_eq!(
        decoder(&parsed).deserialize_bytes(),
        Ok("Hello World".as_bytes().to_vec())
    );
    assert_eq!(bytes_to_text(&[]), Some(String::new()));
    assert_eq!(bytes_to_text(&[0, 255, 16]), Some("AP8Q".to_string()));
    assert_eq!(text_to_bytes("AP8Q"), Some(vec![0, 255, 16]));
    assert_eq!(text_to_bytes("!!!"), None);
    assert_eq!(text_to_bytes("A"), None);
    assert_eq!(
        decoder(&Value::String("not base64".to_string())).deserialize_bytes(),
        Err(ValueDeserializerError::Base64)
    );
    assert_eq!(
        decoder(&number("1")).deserialize_bytes(),
        Err(mismatch(ValueKind::String, ValueKind::Number))
    );
}

#[test]
fn scalars_are_encoded_and_decoded() {
    let t = ValueSerializer.serialize_bool(true).unwrap();
    assert_eq!(t, Value::Bool(true));
    assert_eq!(decoder(&t).deserialize_bool(), Ok(true));
    assert_eq!(
        decoder(&Value::Unit).deserialize_bool(),
        Err(mismatch(ValueKind::Bool, ValueKind::Unit))
    );
    let c = ValueSerializer.serialize_char('x').unwrap();
    assert_eq!(c, Value::Char('x'));
    assert_eq!(decoder(&c).deserialize_char(), Ok('x'));
    assert_eq!(
        decoder(&t).deserialize_char(),
        Err(mismatch(ValueKind::Char, ValueKind::Bool))
    );
    let s = ValueSerializer.serialize_str("hi").unwrap();
    assert_eq!(s, Value::String("hi".to_string()));
    assert_eq!(ValueSerializer.collect_str("hi").unwrap(), s);
    assert_eq!(decoder(&s).deserialize_str(), Ok("hi"));
    assert_eq!(decoder(&s).deserialize_string(), Ok("hi"));
    assert_eq!(
        decoder(&c).deserialize_str(),
        Err(mismatch(ValueKind::String, ValueKind::Char))
    );
    let u = ValueSerializer.serialize_unit().unwrap();
    assert_eq!(u, Value::Unit);
    assert_eq!(decoder(&u).deserialize_unit(), Ok(()));
    assert_eq!(
        decoder(&s).deserialize_unit(),
        Err(mismatch(ValueKind::Unit, ValueKind::String))
    );
}

#[test]
fn scalars_without_an_expected_shape() {
    assert!(matches!(decoder(&Value::Unit).deserialize_any(), Scalar::Unit));
    assert!(matches!(
        decoder(&Value::Bool(true)).deserialize_any(),
        Scalar::Bool(true)
    ));
    assert!(matches!(decoder(&Value::Char('c')).deserialize_any(), Scalar::Char('c')));
    assert!(matches!(
        decoder(&Value::String("s".to_string())).deserialize_any(),
        Scalar::Str("s")
    ));
    assert_eq!(
        decoder(&Value::Unit).deserialize_ignored_any(),
        Err(ValueDeserializerError::Unsupported)
    );
}

#[test]
fn options_are_encoded_and_decoded() {
    let none = ValueSerializer.serialize_none().unwrap();
    assert_eq!(none, Value::Option(None));
    assert_eq!(decoder(&none).deserialize_option(), Ok(None));
    let some = ValueSerializer.serialize_some(number("1")).unwrap();
    assert_eq!(some, Value::Option(Some(Box::new(number("1")))));
    assert_eq!(decoder(&some).deserialize_option(), Ok(Some(&number("1"))));
    assert_eq!(
        decoder(&number("1")).deserialize_option(),
        Err(mismatch(ValueKind::Option, ValueKind::Number))
    );
}

#[test]
fn named_types_without_payload() {
    let unit_struct = ValueSerializer.serialize_unit_struct("Foo").unwrap();
    assert_eq!(unit_struct, Value::Type(Type::from_name("Foo")));
    assert_eq!(unit_struct.to_string_compact(), "Foo");
    let unit_variant = ValueSerializer.serialize_unit_variant("Foo", 3, "Bar").unwrap();
    assert_eq!(unit_variant, Value::Type(Type::from_pair("Foo", "Bar")));
    assert_eq!(unit_variant.to_string_compact(), "Foo::Bar");
    assert_eq!(decoder(&unit_variant).deserialize_identifier(), Ok("Bar"));
    assert_eq!(decoder(&unit_struct).deserialize_identifier(), Ok("Foo"));
    let access = decoder(&unit_variant).deserialize_enum("Foo");
    assert_eq!(access.variant_seed(), Ok("Bar"));
    assert_eq!(access.unit_variant(), Ok(()));
    assert_eq!(decoder(&unit_struct).deserialize_unit_struct("Foo"), Ok(()));
    assert_eq!(
        decoder(&Value::Unit).deserialize_unit_struct("Foo"),
        Err(mismatch(ValueKind::Type, ValueKind::Unit))
    );
    let parsed = Value::parse(&unit_struct.to_string_pretty()).unwrap();
    assert_eq!(decoder(&parsed).deserialize_unit_struct("Foo"), Ok(()));
}

#[test]
fn newtypes_are_tuple_structs_of_one() {
    let newtype = ValueSerializer.serialize_newtype_struct("Foo", number("1")).unwrap();
    assert_eq!(
        newtype,
        Value::TupleStruct(TypeIdentifier::from_name("Foo"), vec![number("1")])
    );
    let mut access = decoder(&newtype).deserialize_newtype_struct("Foo").unwrap();
    assert_eq!(access.size_hint(), Some(1));
    assert_eq!(access.next_element(), Some(&number("1")));
    assert_eq!(access.next_element(), None);
    let variant = ValueSerializer
        .serialize_newtype_variant("E", 0, "V", Value::Unit)
        .unwrap();
    assert_eq!(
        variant,
        Value::TupleStruct(TypeIdentifier::from_pair("E", "V"), vec![Value::Unit])
    );
    let access = decoder(&variant).deserialize_enum("E");
    assert_eq!(access.variant_seed(), Ok("V"));
    assert_eq!(access.newtype_variant_seed(), Ok(&Value::Unit));
    let wide = Value::TupleStruct(TypeIdentifier::from_name("T"), vec![Value::Unit, Value::Unit]);
    assert_eq!(
        decoder(&wide).deserialize_enum("T").newtype_variant_seed(),
        Err(ValueDeserializerError::NotNewtype)
    );
    assert_eq!(
        decoder(&Value::Unit).deserialize_enum("T").newtype_variant_seed(),
        Err(mismatch(ValueKind::TupleStruct, ValueKind::Unit))
    );
}

#[test]
fn sequences_keep_their_order() {
    let mut list = ValueSerializer.serialize_seq(Some(2)).unwrap();
    list.serialize_element(number("2")).unwrap();
    list.serialize_element(number("1")).unwrap();
    let list = list.end().unwrap();
    assert_eq!(list, Value::List(vec![number("2"), number("1")]));
    let mut access = decoder(&list).deserialize_seq().unwrap();
    assert_eq!(access.size_hint(), Some(2));
    assert_eq!(access.next_element(), Some(&number("2")));
    assert_eq!(access.size_hint(), Some(1));
    assert_eq!(access.next_element(), Some(&number("1")));
    assert_eq!(access.next_element(), None);
    assert_eq!(access.next_element(), None);
    assert_eq!(access.size_hint(), Some(0));

    let mut tuple = ValueSerializer.serialize_tuple(1).unwrap();
    tuple.serialize_element(Value::Unit).unwrap();
    let tuple = tuple.end_tuple().unwrap();
    assert_eq!(tuple, Value::Tuple(vec![Value::Unit]));
    assert!(decoder(&tuple).deserialize_tuple(1).is_ok());
    assert!(matches!(
        decoder(&tuple).deserialize_seq(),
        Err(ValueDeserializerError::ShapeMismatch {
            expected: ValueKind::List,
            found: ValueKind::Tuple
        })
    ));
    assert!(matches!(
        decoder(&list).deserialize_tuple(2),
        Err(ValueDeserializerError::ShapeMismatch {
            expected: ValueKind::Tuple,
            found: ValueKind::List
        })
    ));

    let mut fields = ValueSerializer.serialize_tuple_struct("T", 2).unwrap();
    fields.serialize_field(number("1")).unwrap();
    fields.serialize_field(number("0")).unwrap();
    let value = fields.end().unwrap();
    assert_eq!(
        value,
        Value::TupleStruct(TypeIdentifier::from_name("T"), vec![number("1"), number("0")])
    );
    let mut access = decoder(&value).deserialize_tuple_struct("T", 2).unwrap();
    assert_eq!(access.next_element(), Some(&number("1")));
    let fields = ValueSerializer.serialize_tuple_variant("E", 1, "V", 0).unwrap();
    let value = fields.end().unwrap();
    assert_eq!(value, Value::TupleStruct(TypeIdentifier::from_pair("E", "V"), vec![]));
    let mut access = decoder(&value).deserialize_enum("E").tuple_variant(0).unwrap();
    assert_eq!(access.next_element(), None);
}

#[test]
fn maps_are_built_from_keys_and_values() {
    let mut map = ValueSerializer.serialize_map(None).unwrap();
    map.serialize_key(number("2")).unwrap();
    map.serialize_value(number("b")).unwrap();
    map.serialize_value(number("a")).unwrap();
    map.serialize_key(number("1")).unwrap();
    let map = map.end().unwrap();
    assert_eq!(
        map,
        Value::Mapping(vec![(number("1"), number("a")), (number("2"), number("b"))])
    );

    let mut dangling = ValueSerializer.serialize_map(None).unwrap();
    dangling.serialize_key(number("1")).unwrap();
    assert!(matches!(dangling.end(), Err(ValueSerializerError::DanglingKey)));
    let mut dangling = ValueSerializer.serialize_map(None).unwrap();
    dangling.serialize_value(number("1")).unwrap();
    assert!(matches!(dangling.end(), Err(ValueSerializerError::DanglingValue)));
    assert_eq!(
        ValueSerializer.serialize_map(Some(0)).unwrap().end().unwrap(),
        Value::Mapping(vec![])
    );

    let mut access = decoder(&map).deserialize_map().unwrap();
    assert_eq!(access.next_key(), Some(&number("1")));
    assert_eq!(access.next_value(), Ok(&number("a")));
    assert_eq!(access.next_value(), Ok(&number("b")));
    assert_eq!(access.next_key(), Some(&number("2")));
    assert_eq!(access.next_key(), None);
    assert_eq!(access.next_value(), Err(ValueDeserializerError::MapProtocol));
    access.next();
    assert_eq!(access.next_key(), None);
    assert!(matches!(
        decoder(&Value::Unit).deserialize_map(),
        Err(ValueDeserializerError::ShapeMismatch {
            expected: ValueKind::Mapping,
            found: ValueKind::Unit
        })
    ));
}

#[test]
fn structs_are_built_from_fields() {
    let mut fields = ValueSerializer.serialize_struct("S", 2).unwrap();
    fields.serialize_field("b", number("1")).unwrap();
    fields.serialize_field("a", number("2")).unwrap();
    let value = fields.end().unwrap();
    assert_eq!(
        value,
        Value::Struct(
            TypeIdentifier::from_name("S"),
            vec![
                (Identifier::new("a"), number("2")),
                (Identifier::new("b"), number("1"))
            ]
        )
    );
    assert_eq!(value.to_string_compact(), "S(a:2,b:1)");
    assert_eq!(decoder(&value).deserialize_identifier(), Ok("S"));
    let mut access = decoder(&value).deserialize_struct("S").unwrap();
    assert_eq!(access.next_key(), Some(Value::Type(Type::from_name("a"))));
    assert_eq!(access.next_value(), Ok(&number("2")));
    access.next();
    assert_eq!(access.next_value(), Ok(&number("1")));
    assert_eq!(access.next_key(), Some(Value::Type(Type::from_name("b"))));
    assert_eq!(access.next_key(), None);
    assert_eq!(access.next_value(), Err(ValueDeserializerError::MapProtocol));

    let empty = ValueSerializer.serialize_struct("S", 0).unwrap().end().unwrap();
    assert_eq!(empty, Value::Struct(TypeIdentifier::from_name("S"), vec![]));
    let variant = ValueSerializer
        .serialize_struct_variant("E", 0, "V", 0)
        .unwrap()
        .end()
        .unwrap();
    assert_eq!(variant, Value::Struct(TypeIdentifier::from_pair("E", "V"), vec![]));
    let access = decoder(&variant).deserialize_enum("E");
    assert_eq!(access.variant_seed(), Ok("V"));
    assert!(access.struct_variant().is_ok());
    assert!(matches!(
        decoder(&Value::Unit).deserialize_struct("S"),
        Err(ValueDeserializerError::ShapeMismatch {
            expected: ValueKind::Struct,
            found: ValueKind::Unit
        })
    ));
}

#[test]
fn values_without_a_name() {
    for value in [
        Value::Unit,
        number("1"),
        Value::List(vec![]),
        Value::Type(Type::Tuple(vec![])),
        Value::Type(Type::TypeIdentifier(TypeIdentifier { segments: vec![] })),
        Value::Struct(TypeIdentifier { segments: vec![] }, vec![]),
    ] {
        assert_eq!(
            decoder(&value).deserialize_identifier(),
            Err(ValueDeserializerError::NotIdentifier)
        );
    }
}

#[test]
fn kinds_of_values() {
    assert_eq!(Value::Unit.kind(), ValueKind::Unit);
    assert_eq!(Value::Bool(true).kind(), ValueKind::Bool);
    assert_eq!(Value::Char('a').kind(), ValueKind::Char);
    assert_eq!(Value::String(String::new()).kind(), ValueKind::String);
    assert_eq!(number("1").kind(), ValueKind::Number);
    assert_eq!(Value::Type(Type::from_name("a")).kind(), ValueKind::Type);
    assert_eq!(Value::List(vec![]).kind(), ValueKind::List);
    assert_eq!(Value::Tuple(vec![]).kind(), ValueKind::Tuple);
    assert_eq!(Value::Mapping(vec![]).kind(), ValueKind::Mapping);
    assert_eq!(Value::Option(None).kind(), ValueKind::Option);
    assert_eq!(
        Value::Struct(TypeIdentifier::from_name("a"), vec![]).kind(),
        ValueKind::Struct
    );
    assert_eq!(
        Value::TupleStruct(TypeIdentifier::from_name("a"), vec![]).kind(),
        ValueKind::TupleStruct
    );
}

#[test]
fn an_encoded_map_prints_in_key_order() {
    let mut map = ValueSerializer.serialize_map(Some(3)).unwrap();
    for (key, value) in [(1u64, 42u64), (2, 5), (0, 64)] {
        map.serialize_key(ValueSerializer.serialize_u64(key).unwrap()).unwrap();
        map.serialize_value(ValueSerializer.serialize_u64(value).unwrap()).unwrap();
    }
    let map = map.end().unwrap();
    assert_eq!(map.to_string_compact(), "{0:64,1:42,2:5}");
    assert_eq!(map.to_string_pretty(), "{\n    0: 64,\n    1: 42,\n    2: 5,\n}");
    let mut entries = ValueDeserializer { value: &map }.deserialize_map().unwrap();
    let mut seen = Vec::new();
    while let Some(key) = entries.next_key() {
        let value = entries.next_value().unwrap();
        seen.push((
            ValueDeserializer { value: key }.deserialize_u64().unwrap(),
            ValueDeserializer { value }.deserialize_u64().unwrap(),
        ));
    }
    assert_eq!(seen, vec![(0, 64), (1, 42), (2, 5)]);
}
