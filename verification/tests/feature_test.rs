use std::collections::HashMap;
use typed_format::value::deserializer::{ValueDeserializer, ValueDeserializerEnum};
use typed_format::value::serializer::ValueSerializer;
use typed_format::value::Value;

#[derive(Debug, Clone, Eq, PartialEq)]
enum Test {
    Foo(usize),
    Bar { bar: usize },
    Baz,
    Mapping(HashMap<usize, usize>),
    Bytes(Vec<u8>),
    String(String),
    Char(char),
    Option(Option<()>),
}

fn encode_usize(n: usize) -> Value {
    ValueSerializer.serialize_u64(n as u64).unwrap()
}

fn decode_usize(value: &Value) -> usize {
    ValueDeserializer { value }.deserialize_u64().unwrap() as usize
}

fn encode(t: &Test) -> Value {
    match t {
        Test::Foo(n) => ValueSerializer
            .serialize_newtype_variant("Test", 0, "Foo", encode_usize(*n))
            .unwrap(),
        Test::Bar { bar } => {
            let mut fields = ValueSerializer
                .serialize_struct_variant("Test", 1, "Bar", 1)
                .unwrap();
            fields.serialize_field("bar", encode_usize(*bar)).unwrap();
            fields.end().unwrap()
        }
        Test::Baz => ValueSerializer
            .serialize_unit_variant("Test", 2, "Baz")
            .unwrap(),
        Test::Mapping(map) => {
            let mut entries = ValueSerializer.serialize_map(Some(map.len())).unwrap();
            for (key, value) in map {
                entries.serialize_key(encode_usize(*key)).unwrap();
                entries.serialize_value(encode_usize(*value)).unwrap();
            }
            let inner = entries.end().unwrap();
            ValueSerializer
                .serialize_newtype_variant("Test", 3, "Mapping", inner)
                .unwrap()
        }
        Test::Bytes(bytes) => {
            let mut items = ValueSerializer.serialize_seq(Some(bytes.len())).unwrap();
            for byte in bytes {
                items
                    .serialize_element(ValueSerializer.serialize_u8(*byte).unwrap())
                    .unwrap();
            }
            let inner = items.end().unwrap();
            ValueSerializer
                .serialize_newtype_variant("Test", 4, "Bytes", inner)
                .unwrap()
        }
        Test::String(s) => ValueSerializer
            .serialize_newtype_variant("Test", 5, "String", ValueSerializer.serialize_str(s).unwrap())
            .unwrap(),
        Test::Char(c) => ValueSerializer
            .serialize_newtype_variant("Test", 6, "Char", ValueSerializer.serialize_char(*c).unwrap())
            .unwrap(),
        Test::Option(option) => {
            let inner = match option {
                None => ValueSerializer.serialize_none().unwrap(),
                Some(()) => ValueSerializer
                    .serialize_some(ValueSerializer.serialize_unit().unwrap())
                    .unwrap(),
            };
            ValueSerializer
                .serialize_newtype_variant("Test", 7, "Option", inner)
                .unwrap()
        }
    }
}

fn decode(value: &Value) -> Test {
    let access: ValueDeserializerEnum = ValueDeserializer { value }.deserialize_enum("Test");
    let variant = access.variant_seed().unwrap().to_string();
    match variant.as_str() {
        "Foo" => Test::Foo(decode_usize(access.newtype_variant_seed().unwrap())),
        "Bar" => {
            let mut fields = access.struct_variant().unwrap();
            let mut bar = None;
            while let Some(key) = fields.next_key() {
                let name = ValueDeserializer { value: &key }
                    .deserialize_identifier()
                    .unwrap()
                    .to_string();
                let field = fields.next_value().unwrap();
                match name.as_str() {
                    "bar" => bar = Some(decode_usize(field)),
                    other => panic!("unknown field {}", other),
                }
            }
            Test::Bar { bar: bar.unwrap() }
        }
        "Baz" => {
            access.unit_variant().unwrap();
            Test::Baz
        }
        "Mapping" => {
            let inner = access.newtype_variant_seed().unwrap();
            let mut entries = ValueDeserializer { value: inner }.deserialize_map().unwrap();
            let mut map = HashMap::new();
            while let Some(key) = entries.next_key() {
                let value = entries.next_value().unwrap();
                map.insert(decode_usize(key), decode_usize(value));
            }
            Test::Mapping(map)
        }
        "Bytes" => {
            let inner = access.newtype_variant_seed().unwrap();
            let mut items = ValueDeserializer { value: inner }.deserialize_seq().unwrap();
            let mut bytes = Vec::new();
            while let Some(item) = items.next_element() {
                bytes.push(ValueDeserializer { value: item }.deserialize_u8().unwrap());
            }
            Test::Bytes(bytes)
        }
        "String" => {
            let inner = access.newtype_variant_seed().unwrap();
            Test::String(
                ValueDeserializer { value: inner }
                    .deserialize_string()
                    .unwrap()
                    .to_string(),
            )
        }
        "Char" => {
            let inner = access.newtype_variant_seed().unwrap();
            Test::Char(ValueDeserializer { value: inner }.deserialize_char().unwrap())
        }
        "Option" => {
            let inner = access.newtype_variant_seed().unwrap();
            match (ValueDeserializer { value: inner }).deserialize_option().unwrap() {
                None => Test::Option(None),
                Some(unit) => {
                    ValueDeserializer { value: unit }.deserialize_unit().unwrap();
                    Test::Option(Some(()))
                }
            }
        }
        other => panic!("unknown variant {}", other),
    }
}

fn encode_all(values: &[Test]) -> Value {
    let mut items = ValueSerializer.serialize_seq(Some(values.len())).unwrap();
    for it in values {
        items.serialize_element(encode(it)).unwrap();
    }
    items.end().unwrap()
}

fn decode_all(value: &Value) -> Vec<Test> {
    let mut items = ValueDeserializer { value }.deserialize_seq().unwrap();
    let mut values = Vec::new();
    while let Some(item) = items.next_element() {
        values.push(decode(item));
    }
    values
}

fn assert_parse(value: &Value, string: &str) -> Value {
    let parsed_value = Value::parse(string).unwrap();
    assert_eq!(*value, parsed_value);
    parsed_value
}

fn all_asserts(t: &Test) {
    let value = encode(t);
    assert_eq!(*t, decode(&value));
    let compact = assert_parse(&value, &value.to_string_compact());
    assert_eq!(*t, decode(&compact));
    let pretty = assert_parse(&value, &value.to_string_pretty());
    assert_eq!(*t, decode(&pretty));
}

#[test]
fn value_round_trip() {
    let mut map = HashMap::new();
    map.insert(1, 42);
    map.insert(2, 5);
    map.insert(0, 64);
    let values = vec![
        Test::Foo(1),
        Test::Bar { bar: 2 },
        Test::Baz,
        Test::Mapping(map),
        Test::Bytes("Hello World".as_bytes().to_vec()),
        Test::String("\tHello World\"\"\\Me!\n\0".to_string()),
        Test::Char(' '),
        Test::Char('\n'),
        Test::Char('\\'),
        Test::Option(None),
        Test::Option(Some(())),
    ];

    for it in &values {
        all_asserts(it);
    }

    let value = encode_all(&values);
    assert_eq!(values, decode_all(&value));
    let compact = assert_parse(&value, &value.to_string_compact());
    assert_eq!(values, decode_all(&compact));
    let pretty = assert_parse(&value, &value.to_string_pretty());
    assert_eq!(values, decode_all(&pretty));
}
