use typed_format::value::types::{
    GenericIdentifier, Generics, Identifier, Type, TypeIdentifier,
};

#[test]
fn texts_of_types() {
    assert_eq!(Identifier::new("a").to_string(), "a");
    assert_eq!(GenericIdentifier::new("Foo").to_string(), "Foo");
    assert_eq!(TypeIdentifier::from_name("Foo").to_string(), "Foo");
    assert_eq!(TypeIdentifier::from_pair("Foo", "Bar").to_string(), "Foo::Bar");
    assert_eq!(TypeIdentifier { segments: vec![] }.to_string(), "");
    let generics = Generics {
        types: vec![Type::from_name("A"), Type::from_name("B")],
    };
    assert_eq!(generics.to_string(), "A, B");
    let segment = GenericIdentifier {
        identifier: Identifier::new("Vec"),
        generics: Some(generics),
    };
    assert_eq!(segment.to_string(), "Vec<A, B>");
    let array = Type::Array {
        content: Box::new(Type::from_name("usize")),
        size: "42".to_string(),
    };
    assert_eq!(array.to_string(), "[usize ; 42]");
    let tuple = Type::Tuple(vec![Type::from_name("usize"), array.clone()]);
    assert_eq!(tuple.to_string(), "(usize, [usize ; 42])");
    assert_eq!(Type::Tuple(vec![]).to_string(), "()");
    let mut out = String::from("x");
    tuple.write_to(&mut out);
    TypeIdentifier::from_pair("a", "b").write_to(&mut out);
    assert_eq!(out, "x(usize, [usize ; 42])a::b");
}

#[test]
fn the_last_name_of_a_type() {
    assert_eq!(
        Type::from_pair("Foo", "Bar").get_identifier(),
        Some(&Identifier::new("Bar"))
    );
    assert_eq!(Type::from_name("Foo").get_identifier(), Some(&Identifier::new("Foo")));
    assert_eq!(Type::Tuple(vec![]).get_identifier(), None);
    assert_eq!(
        Type::TypeIdentifier(TypeIdentifier { segments: vec![] }).get_identifier(),
        None
    );
    assert_eq!(TypeIdentifier { segments: vec![] }.last_identifier(), None);
}

#[test]
fn names_from_text() {
    let identifier: Identifier = "a".into();
    assert_eq!(identifier, Identifier("a".to_string()));
    assert!(identifier.eq_str("a"));
    assert!(!identifier.eq_str("b"));
    assert_eq!(identifier.as_str(), "a");
    let segment: GenericIdentifier = "Foo".into();
    assert_eq!(segment, GenericIdentifier::new("Foo"));
    let name: TypeIdentifier = "Foo".into();
    assert_eq!(name, TypeIdentifier::from_name("Foo"));
    let pair: TypeIdentifier = ("Foo", "Bar").into();
    assert_eq!(pair, TypeIdentifier::from_pair("Foo", "Bar"));
    let t: Type = "Foo".into();
    assert_eq!(t, Type::TypeIdentifier(name.clone()));
    let v: Type = ("Foo", "Bar").into();
    assert_eq!(v, Type::TypeIdentifier(pair.clone()));
    assert!(name.eq_name("Foo"));
    assert!(!name.eq_name("Bar"));
    assert!(!pair.eq_name("Foo"));
    assert!(pair.eq_pair("Foo", "Bar"));
    assert!(!pair.eq_pair("Foo", "Baz"));
    assert!(!name.eq_pair("Foo", "Bar"));
    assert_eq!(pair.clone(), pair);
    assert_eq!(v.clone(), v);
}
