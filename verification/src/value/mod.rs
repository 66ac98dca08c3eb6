//! The value tree and everything that reads or builds it.

pub mod bytes;
pub mod deserializer;
pub mod distinct;
pub mod grammar;
pub mod wellformed;
pub mod laws;
pub mod number;
pub mod parsed;
pub mod parser;
pub mod printer;
pub mod roundtrip;
pub mod serializer;
pub mod shape;
pub mod sorted;
pub mod text;
pub mod types;

use crate::value::shape::{leaf, node, shape_lt, Shape, ShapeTree};
use crate::value::text::{text_shape, text_tree};
use crate::value::types::{
    path_shape, segments_view, type_shape, type_view, Identifier, SegmentView, Type,
    TypeIdentifier, TypeView,
};
use vstd::prelude::*;

verus! {

/// Any datum of the format.
///
/// A number keeps the text it was written with. The entries of a mapping
/// and the fields of a struct are kept in the canonical order of their keys
/// and names, each key and name at most once; see [`value_wf`].
#[derive(PartialEq, Eq, PartialOrd, Ord, Debug)]
pub enum Value {
    Unit,
    Bool(bool),
    Char(char),
    String(String),
    Number(String),
    Type(Type),
    List(Vec<Value>),
    Tuple(Vec<Value>),
    Mapping(Vec<(Value, Value)>),
    Option(Option<Box<Value>>),
    Struct(TypeIdentifier, Vec<(Identifier, Value)>),
    TupleStruct(TypeIdentifier, Vec<Value>),
}

/// What a value is.
pub enum ValueView {
    Unit,
    Bool(bool),
    Char(char),
    String(Seq<char>),
    Number(Seq<char>),
    Type(TypeView),
    List(Seq<ValueView>),
    Tuple(Seq<ValueView>),
    Mapping(Seq<(ValueView, ValueView)>),
    Option(Option<Box<ValueView>>),
    Struct(Seq<SegmentView>, Seq<(Seq<char>, ValueView)>),
    TupleStruct(Seq<SegmentView>, Seq<ValueView>),
}

/// What the value `v` is.
pub open spec fn value_view(v: Value) -> ValueView
    decreases v,
{
    match v {
        Value::Unit => ValueView::Unit,
        Value::Bool(b) => ValueView::Bool(b),
        Value::Char(c) => ValueView::Char(c),
        Value::String(s) => ValueView::String(s@),
        Value::Number(s) => ValueView::Number(s@),
        Value::Type(t) => ValueView::Type(type_view(t)),
        Value::List(items) => ValueView::List(values_view(items@)),
        Value::Tuple(items) => ValueView::Tuple(values_view(items@)),
        Value::Mapping(entries) => ValueView::Mapping(entries_view(entries@)),
        Value::Option(inner) => match inner {
            None => ValueView::Option(None),
            Some(b) => ValueView::Option(Some(Box::new(value_view(*b)))),
        },
        Value::Struct(path, fields) => ValueView::Struct(
            segments_view(path.segments@),
            fields_view(fields@),
        ),
        Value::TupleStruct(path, items) => ValueView::TupleStruct(
            segments_view(path.segments@),
            values_view(items@),
        ),
    }
}

/// What each of the values is.
pub open spec fn values_view(items: Seq<Value>) -> Seq<ValueView>
    decreases items,
{
    Seq::new(
        items.len(),
        |i: int|
            if 0 <= i < items.len() {
                value_view(items[i])
            } else {
                ValueView::Unit
            },
    )
}

/// What each of the entries of a mapping is.
pub open spec fn entries_view(entries: Seq<(Value, Value)>) -> Seq<(ValueView, ValueView)>
    decreases entries,
{
    Seq::new(
        entries.len(),
        |i: int|
            if 0 <= i < entries.len() {
                (value_view(entries[i].0), value_view(entries[i].1))
            } else {
                (ValueView::Unit, ValueView::Unit)
            },
    )
}

/// What each of the fields of a struct is.
pub open spec fn fields_view(fields: Seq<(Identifier, Value)>) -> Seq<(Seq<char>, ValueView)>
    decreases fields,
{
    Seq::new(
        fields.len(),
        |i: int|
            if 0 <= i < fields.len() {
                (fields[i].0@, value_view(fields[i].1))
            } else {
                (Seq::empty(), ValueView::Unit)
            },
    )
}

impl View for Value {
    type V = ValueView;

    open spec fn view(&self) -> ValueView {
        value_view(*self)
    }
}

/// The shape of a value, by which values are ordered: by variant in the
/// order of their declaration, then by what they hold.
pub open spec fn value_shape(v: ValueView) -> Shape
    decreases v,
{
    match v {
        ValueView::Unit => leaf(0),
        ValueView::Bool(b) => node(1, seq![leaf(if b { 1int } else { 0int })]),
        ValueView::Char(c) => node(2, seq![leaf(c as int)]),
        ValueView::String(s) => node(3, seq![text_shape(s)]),
        ValueView::Number(s) => node(4, seq![text_shape(s)]),
        ValueView::Type(t) => node(5, seq![type_shape(t)]),
        ValueView::List(items) => node(6, seq![values_shape(items)]),
        ValueView::Tuple(items) => node(7, seq![values_shape(items)]),
        ValueView::Mapping(entries) => node(8, seq![entries_shape(entries)]),
        ValueView::Option(inner) => match inner {
            None => leaf(9),
            Some(b) => node(9, seq![value_shape(*b)]),
        },
        ValueView::Struct(path, fields) => node(
            10,
            seq![path_shape(path), fields_shape(fields)],
        ),
        ValueView::TupleStruct(path, items) => node(
            11,
            seq![path_shape(path), values_shape(items)],
        ),
    }
}

/// The shape of a list of values.
pub open spec fn values_shape(items: Seq<ValueView>) -> Shape
    decreases items,
{
    node(
        0,
        Seq::new(
            items.len(),
            |i: int|
                if 0 <= i < items.len() {
                    value_shape(items[i])
                } else {
                    leaf(0)
                },
        ),
    )
}

/// The shape of the entries of a mapping: each entry its key, then its value.
pub open spec fn entries_shape(entries: Seq<(ValueView, ValueView)>) -> Shape
    decreases entries,
{
    node(
        0,
        Seq::new(
            entries.len(),
            |i: int|
                if 0 <= i < entries.len() {
                    node(0, seq![value_shape(entries[i].0), value_shape(entries[i].1)])
                } else {
                    leaf(0)
                },
        ),
    )
}

/// The shape of the fields of a struct: each field its name, then its value.
pub open spec fn fields_shape(fields: Seq<(Seq<char>, ValueView)>) -> Shape
    decreases fields,
{
    node(
        0,
        Seq::new(
            fields.len(),
            |i: int|
                if 0 <= i < fields.len() {
                    node(0, seq![text_shape(fields[i].0), value_shape(fields[i].1)])
                } else {
                    leaf(0)
                },
        ),
    )
}

/// The shape of a key of a mapping.
pub open spec fn by_value() -> spec_fn(ValueView) -> Shape {
    |key: ValueView| value_shape(key)
}

/// The shape of the name of a field.
pub open spec fn by_name() -> spec_fn(Seq<char>) -> Shape {
    |name: Seq<char>| text_shape(name)
}

/// The keys of `entries` come in strictly rising canonical order; so none
/// occurs twice.
pub open spec fn keys_sorted<K, V>(entries: Seq<(K, V)>, shape_of: spec_fn(K) -> Shape) -> bool {
    forall|i: int, j: int|
        0 <= i < j < entries.len() ==> shape_lt(
            shape_of(#[trigger] entries[i].0),
            shape_of(#[trigger] entries[j].0),
        )
}

/// The invariant of a value: in every mapping and every struct inside it,
/// the entries are in the canonical order of their keys and names.
pub open spec fn value_wf(v: ValueView) -> bool
    decreases v,
{
    match v {
        ValueView::List(items) => forall|i: int|
            0 <= i < items.len() ==> value_wf(#[trigger] items[i]),
        ValueView::Tuple(items) => forall|i: int|
            0 <= i < items.len() ==> value_wf(#[trigger] items[i]),
        ValueView::TupleStruct(_, items) => forall|i: int|
            0 <= i < items.len() ==> value_wf(#[trigger] items[i]),
        ValueView::Mapping(entries) => {
            &&& keys_sorted(entries, by_value())
            &&& forall|i: int|
                0 <= i < entries.len() ==> value_wf((#[trigger] entries[i]).0) && value_wf(
                    entries[i].1,
                )
        },
        ValueView::Struct(_, fields) => {
            &&& keys_sorted(fields, by_name())
            &&& forall|i: int| 0 <= i < fields.len() ==> value_wf((#[trigger] fields[i]).1)
        },
        ValueView::Option(Some(inner)) => value_wf(*inner),
        _ => true,
    }
}

fn clone_values(items: &Vec<Value>) -> (r: Vec<Value>)
    ensures
        values_view(r@) == values_view(items@),
    decreases items,
{
    let mut r: Vec<Value> = Vec::new();
    let mut i: usize = 0;
    while i < items.len()
        invariant
            i <= items.len(),
            r.len() == i,
            forall|j: int| 0 <= j < i ==> value_view(r@[j]) == value_view(items@[j]),
        decreases items.len() - i,
    {
        r.push(clone_value(&items[i]));
        i += 1;
    }
    assert(values_view(r@) =~= values_view(items@));
    r
}

fn clone_entries(entries: &Vec<(Value, Value)>) -> (r: Vec<(Value, Value)>)
    ensures
        entries_view(r@) == entries_view(entries@),
    decreases entries,
{
    let mut r: Vec<(Value, Value)> = Vec::new();
    let mut i: usize = 0;
    while i < entries.len()
        invariant
            i <= entries.len(),
            r.len() == i,
            forall|j: int|
                0 <= j < i ==> value_view(r@[j].0) == value_view(entries@[j].0) && value_view(
                    r@[j].1,
                ) == value_view(entries@[j].1),
        decreases entries.len() - i,
    {
        let key = clone_value(&entries[i].0);
        let value = clone_value(&entries[i].1);
        r.push((key, value));
        i += 1;
    }
    assert(entries_view(r@) =~= entries_view(entries@));
    r
}

fn clone_fields(fields: &Vec<(Identifier, Value)>) -> (r: Vec<(Identifier, Value)>)
    ensures
        fields_view(r@) == fields_view(fields@),
    decreases fields,
{
    let mut r: Vec<(Identifier, Value)> = Vec::new();
    let mut i: usize = 0;
    while i < fields.len()
        invariant
            i <= fields.len(),
            r.len() == i,
            forall|j: int|
                0 <= j < i ==> r@[j].0@ == fields@[j].0@ && value_view(r@[j].1) == value_view(
                    fields@[j].1,
                ),
        decreases fields.len() - i,
    {
        let name = fields[i].0.clone();
        let value = clone_value(&fields[i].1);
        r.push((name, value));
        i += 1;
    }
    assert(fields_view(r@) =~= fields_view(fields@));
    r
}

fn clone_value(v: &Value) -> (r: Value)
    ensures
        r@ == v@,
    decreases v,
{
    match v {
        Value::Unit => Value::Unit,
        Value::Bool(b) => Value::Bool(*b),
        Value::Char(c) => Value::Char(*c),
        Value::String(s) => Value::String(s.clone()),
        Value::Number(s) => Value::Number(s.clone()),
        Value::Type(t) => Value::Type(t.clone()),
        Value::List(items) => Value::List(clone_values(items)),
        Value::Tuple(items) => Value::Tuple(clone_values(items)),
        Value::Mapping(entries) => Value::Mapping(clone_entries(entries)),
        Value::Option(inner) => match inner {
            None => Value::Option(None),
            Some(b) => Value::Option(Some(Box::new(clone_value(&**b)))),
        },
        Value::Struct(path, fields) => Value::Struct(path.clone(), clone_fields(fields)),
        Value::TupleStruct(path, items) => Value::TupleStruct(path.clone(), clone_values(items)),
    }
}

impl Clone for Value {
    fn clone(&self) -> (r: Self)
        ensures
            r@ == self@,
    {
        clone_value(self)
    }
}

fn values_tree(items: &Vec<Value>) -> (t: ShapeTree)
    ensures
        t@ == values_shape(values_view(items@)),
    decreases items,
{
    let mut children: Vec<ShapeTree> = Vec::new();
    let mut i: usize = 0;
    while i < items.len()
        invariant
            i <= items.len(),
            children.len() == i,
            forall|j: int| 0 <= j < i ==> children@[j]@ == value_shape(value_view(items@[j])),
        decreases items.len() - i,
    {
        children.push(value_tree(&items[i]));
        i += 1;
    }
    let t = ShapeTree { tag: 0, children };
    assert(t@.children =~= values_shape(values_view(items@)).children);
    t
}

fn entries_tree(entries: &Vec<(Value, Value)>) -> (t: ShapeTree)
    ensures
        t@ == entries_shape(entries_view(entries@)),
    decreases entries,
{
    let mut children: Vec<ShapeTree> = Vec::new();
    let mut i: usize = 0;
    while i < entries.len()
        invariant
            i <= entries.len(),
            children.len() == i,
            forall|j: int|
                0 <= j < i ==> children@[j]@ == node(
                    0,
                    seq![
                        value_shape(value_view(entries@[j].0)),
                        value_shape(value_view(entries@[j].1)),
                    ],
                ),
        decreases entries.len() - i,
    {
        let pair = ShapeTree {
            tag: 0,
            children: vec![value_tree(&entries[i].0), value_tree(&entries[i].1)],
        };
        assert(pair@.children =~= seq![
            value_shape(value_view(entries@[i as int].0)),
            value_shape(value_view(entries@[i as int].1)),
        ]);
        children.push(pair);
        i += 1;
    }
    let t = ShapeTree { tag: 0, children };
    assert(t@.children =~= entries_shape(entries_view(entries@)).children);
    t
}

fn fields_tree(fields: &Vec<(Identifier, Value)>) -> (t: ShapeTree)
    ensures
        t@ == fields_shape(fields_view(fields@)),
    decreases fields,
{
    let mut children: Vec<ShapeTree> = Vec::new();
    let mut i: usize = 0;
    while i < fields.len()
        invariant
            i <= fields.len(),
            children.len() == i,
            forall|j: int|
                0 <= j < i ==> children@[j]@ == node(
                    0,
                    seq![text_shape(fields@[j].0@), value_shape(value_view(fields@[j].1))],
                ),
        decreases fields.len() - i,
    {
        let pair = ShapeTree {
            tag: 0,
            children: vec![fields[i].0.shape_tree(), value_tree(&fields[i].1)],
        };
        assert(pair@.children =~= seq![
            text_shape(fields@[i as int].0@),
            value_shape(value_view(fields@[i as int].1)),
        ]);
        children.push(pair);
        i += 1;
    }
    let t = ShapeTree { tag: 0, children };
    assert(t@.children =~= fields_shape(fields_view(fields@)).children);
    t
}

fn wrap(tag: u32, child: ShapeTree) -> (t: ShapeTree)
    ensures
        t@ == node(tag as int, seq![child@]),
{
    let t = ShapeTree { tag, children: vec![child] };
    assert(t@.children =~= seq![child@]);
    t
}

fn wrap_two(tag: u32, first: ShapeTree, second: ShapeTree) -> (t: ShapeTree)
    ensures
        t@ == node(tag as int, seq![first@, second@]),
{
    let t = ShapeTree { tag, children: vec![first, second] };
    assert(t@.children =~= seq![first@, second@]);
    t
}

fn value_tree(v: &Value) -> (t: ShapeTree)
    ensures
        t@ == value_shape(v@),
    decreases v,
{
    match v {
        Value::Unit => ShapeTree::leaf(0),
        Value::Bool(b) => wrap(1, ShapeTree::leaf(if *b { 1 } else { 0 })),
        Value::Char(c) => wrap(2, ShapeTree::leaf(crate::value::text::code_point(*c))),
        Value::String(s) => wrap(3, text_tree(s.as_str())),
        Value::Number(s) => wrap(4, text_tree(s.as_str())),
        Value::Type(t) => wrap(5, t.shape_tree()),
        Value::List(items) => wrap(6, values_tree(items)),
        Value::Tuple(items) => wrap(7, values_tree(items)),
        Value::Mapping(entries) => wrap(8, entries_tree(entries)),
        Value::Option(inner) => match inner {
            None => ShapeTree::leaf(9),
            Some(b) => wrap(9, value_tree(&**b)),
        },
        Value::Struct(path, fields) => wrap_two(10, path.shape_tree(), fields_tree(fields)),
        Value::TupleStruct(path, items) => wrap_two(11, path.shape_tree(), values_tree(items)),
    }
}

impl Value {
    /// Builds the shape of the value.
    pub fn shape_tree(&self) -> (t: ShapeTree)
        ensures
            t@ == value_shape(self@),
    {
        value_tree(self)
    }

    /// Compares two values in the canonical order.
    pub fn compare(&self, other: &Value) -> (r: crate::value::shape::Order)
        ensures
            r == crate::value::shape::shape_order(value_shape(self@), value_shape(other@)),
    {
        self.shape_tree().compare(&other.shape_tree())
    }
}

} // verus!
