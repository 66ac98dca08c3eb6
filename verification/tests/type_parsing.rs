use typed_format::value::types::Type;

fn parse_type(name: &str) {
    println!("Type name: '{}'", name);
    let t = Type::parse(name).unwrap();
    println!("Parsed as {:#?}", &t);
}

#[test]
pub fn parse_usize() {
    parse_type("usize");
}

#[test]
pub fn parse_u64() {
    parse_type("u64");
}

#[test]
pub fn parse_struct() {
    parse_type("type_parsing::parse_struct::Test");
}

#[test]
pub fn parse_vec() {
    parse_type("alloc::vec::Vec<usize>");
}

#[test]
pub fn parse_lifetime() {
    parse_type("alloc::borrow::Cow<str>");
}
