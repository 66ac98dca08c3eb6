use typed_format::value::shape::{Order, ShapeTree};
use typed_format::value::sorted::{insert_entry, insert_field};
use typed_format::value::types::{
    GenericIdentifier, Generics, Identifier, Type, TypeIdentifier,
};
use typed_format::value::Value;

fn number(text: &str) -> Value {
    Value::Number(text.to_string())
}

fn samples() -> Vec<Value> {
    let generic = Type::TypeIdentifier(TypeIdentifier {
        segments: vec![GenericIdentifier {
            identifier: Identifier::new("A"),
            generics: Some(Generics { types: vec![Type::from_name("B")] }),
        }],
    });
    vec![
        Value::Unit,
        Value::Bool(false),
        Value::Bool(true),
        Value::Char('a'),
        Value::Char('b'),
        Value::Char('\u{e9}'),
        Value::String(String::new()),
        Value::String("a".to_string()),
        Value::String("ab".to_string()),
        Value::String("b".to_string()),
        Value::String("\u{e9}".to_string()),
        Value::String("\u{1F600}".to_string()),
        number("1"),
        number("10"),
        number("2"),
        Value::Type(Type::from_name("A")),
        Value::Type(Type::from_pair("A", "B")),
        Value::Type(generic),
        Value::Type(Type::from_name("B")),
        Value::Type(Type::Array {
            content: Box::new(Type::from_name("A")),
            size: "1".to_string(),
        }),
        Value::Type(Type::Tuple(vec![])),
        Value::Type(Type::Tuple(vec![Type::from_name("A")])),
        Value::List(vec![]),
        Value::List(vec![Value::Unit]),
        Value::List(vec![Value::Unit, Value::Unit]),
        Value::List(vec![Value::Bool(true)]),
        Value::Tuple(vec![]),
        Value::Tuple(vec![number("1")]),
        Value::Mapping(vec![]),
        Value::Mapping(vec![(number("1"), number("2"))]),
        Value::Mapping(vec![(number("1"), number("2")), (number("2"), number("0"))]),
        Value::Mapping(vec![(number("1"), number("3"))]),
        Value::Option(None),
        Value::Option(Some(Box::new(Value::Unit))),
        Value::Option(Some(Box::new(Value::Option(None)))),
        Value::Struct(TypeIdentifier::from_name("A"), vec![]),
        Value::Struct(
            TypeIdentifier::from_name("A"),
            vec![(Identifier::new("a"), Value::Unit)],
        ),
        Value::Struct(
            TypeIdentifier::from_name("A"),
            vec![(Identifier::new("b"), Value::Unit)],
        ),
        Value::Struct(TypeIdentifier::from_name("B"), vec![]),
        Value::TupleStruct(TypeIdentifier::from_name("A"), vec![]),
        Value::TupleStruct(TypeIdentifier::from_name("A"), vec![Value::Unit]),
    ]
}

#[test]
fn the_canonical_order_is_the_order_of_the_values() {
    let values = samples();
    for a in &values {
        for b in &values {
            let expected = if a < b {
                Order::Less
            } else if a == b {
                Order::Equal
            } else {
                Order::Greater
            };
            assert_eq!(a.compare(b), expected, "{:?} against {:?}", a, b);
            assert_eq!(a.shape_tree().compare(&b.shape_tree()), expected);
        }
    }
}

#[test]
fn the_samples_rise() {
    let values = samples();
    for i in 1..values.len() {
        assert_eq!(
            values[i - 1].compare(&values[i]),
            Order::Less,
            "{:?} against {:?}",
            values[i - 1],
            values[i]
        );
    }
}

#[test]
fn shapes_compare_by_tag_then_children() {
    let leaf = |tag| ShapeTree::leaf(tag);
    let node = |tag, children| ShapeTree { tag, children };
    assert_eq!(leaf(1).compare(&leaf(2)), Order::Less);
    assert_eq!(leaf(2).compare(&leaf(1)), Order::Greater);
    assert_eq!(leaf(1).compare(&leaf(1)), Order::Equal);
    assert_eq!(node(1, vec![leaf(9)]).compare(&leaf(2)), Order::Less);
    assert_eq!(leaf(1).compare(&node(1, vec![leaf(0)])), Order::Less);
    assert_eq!(
        node(1, vec![leaf(0), leaf(5)]).compare(&node(1, vec![leaf(1)])),
        Order::Less
    );
    assert_eq!(
        node(1, vec![leaf(1), leaf(0)]).compare(&node(1, vec![leaf(1)])),
        Order::Greater
    );
}

fn permutations(items: &[usize]) -> Vec<Vec<usize>> {
    if items.len() <= 1 {
        return vec![items.to_vec()];
    }
    let mut all = Vec::new();
    for i in 0..items.len() {
        let mut rest = items.to_vec();
        let first = rest.remove(i);
        for mut tail in permutations(&rest) {
            tail.insert(0, first);
            all.push(tail);
        }
    }
    all
}

#[test]
fn entries_come_out_in_key_order_whatever_the_order_in() {
    let keys = vec![number("3"), Value::Unit, Value::Char('c'), number("10")];
    let expected = vec![
        (Value::Unit, number("1")),
        (Value::Char('c'), number("2")),
        (number("10"), number("3")),
        (number("3"), number("0")),
    ];
    for order in permutations(&[0, 1, 2, 3]) {
        let mut entries = Vec::new();
        for i in order {
            insert_entry(&mut entries, keys[i].clone(), number(&i.to_string()));
        }
        assert_eq!(entries, expected);
    }
}

#[test]
fn fields_come_out_in_name_order_whatever_the_order_in() {
    let names = ["b", "a", "ab", "B"];
    let expected = vec![
        (Identifier::new("B"), number("3")),
        (Identifier::new("a"), number("1")),
        (Identifier::new("ab"), number("2")),
        (Identifier::new("b"), number("0")),
    ];
    for order in permutations(&[0, 1, 2, 3]) {
        let mut fields = Vec::new();
        for i in order {
            insert_field(&mut fields, Identifier::new(names[i]), number(&i.to_string()));
        }
        assert_eq!(fields, expected);
    }
}

#[test]
fn an_entry_of_the_same_key_gives_way() {
    let mut entries = Vec::new();
    insert_entry(&mut entries, number("1"), number("a"));
    insert_entry(&mut entries, number("2"), number("b"));
    insert_entry(&mut entries, number("1"), number("c"));
    assert_eq!(
        entries,
        vec![(number("1"), number("c")), (number("2"), number("b"))]
    );
    let mut fields = Vec::new();
    insert_field(&mut fields, Identifier::new("x"), Value::Unit);
    insert_field(&mut fields, Identifier::new("x"), Value::Bool(true));
    assert_eq!(fields, vec![(Identifier::new("x"), Value::Bool(true))]);
}

#[test]
fn values_are_cloned_whole() {
    for value in samples() {
        assert_eq!(value.clone(), value);
    }
}
