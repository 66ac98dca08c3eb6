//! Different values have different shapes: the canonical order tells any
//! two values apart.

use crate::value::shape::{
    leaf, lemma_order_equal, lemma_order_reflexive, node, shape_order, Order,
};
use crate::value::sorted::{inserted, lemma_insert_commutes};
use crate::value::text::{lemma_text_shape_injective, text_shape};
use crate::value::types::{
    path_shape, segment_shape, type_shape, types_shape, SegmentView, TypeView,
};
use crate::value::{
    by_name, by_value, entries_shape, fields_shape, keys_sorted, value_shape, values_shape,
    ValueView,
};
use vstd::prelude::*;

verus! {

/// Types of the same shape are the same type.
pub proof fn lemma_type_shape_injective(a: TypeView, b: TypeView)
    requires
        type_shape(a) == type_shape(b),
    ensures
        a == b,
    decreases a,
{
    let x = type_shape(a);
    let y = type_shape(b);
    assert(x.tag == y.tag);
    assert(x.children[0] == y.children[0]);
    match a {
        TypeView::Path(sa) => {
            assert(x.tag == 0);
            assert(b is Path);
            assert(x.children[0] == path_shape(sa));
            assert(y.children[0] == path_shape(b->Path_0));
            lemma_path_shape_injective(sa, b->Path_0);
        },
        TypeView::Array { content, size } => {
            assert(x.tag == 1);
            assert(b is Array);
            assert(x.children[1] == y.children[1]);
            assert(x.children[0] == type_shape(*content));
            assert(y.children[0] == type_shape(*b->content));
            lemma_type_shape_injective(*content, *b->content);
            lemma_text_shape_injective(size, b->size);
        },
        TypeView::Tuple(ta) => {
            assert(x.tag == 2);
            assert(b is Tuple);
            assert(x.children[0] == types_shape(ta));
            assert(y.children[0] == types_shape(b->Tuple_0));
            lemma_types_shape_injective(ta, b->Tuple_0);
        },
    }
}

proof fn lemma_types_shape_injective(a: Seq<TypeView>, b: Seq<TypeView>)
    requires
        types_shape(a) == types_shape(b),
    ensures
        a == b,
    decreases a,
{
    let x = types_shape(a).children;
    let y = types_shape(b).children;
    assert(x.len() == a.len() && y.len() == b.len());
    assert forall|i: int| 0 <= i < a.len() implies a[i] == b[i] by {
        assert(x[i] == type_shape(a[i]));
        assert(y[i] == type_shape(b[i]));
        lemma_type_shape_injective(a[i], b[i]);
    }
    assert(a =~= b);
}

proof fn lemma_segment_shape_injective(a: SegmentView, b: SegmentView)
    requires
        segment_shape(a) == segment_shape(b),
    ensures
        a == b,
    decreases a,
{
    let x = segment_shape(a);
    let y = segment_shape(b);
    assert(x.children[0] == y.children[0]);
    assert(x.children[1] == y.children[1]);
    lemma_text_shape_injective(a.identifier, b.identifier);
    match a.generics {
        None => {
            assert(x.children[1].tag == 0);
            assert(b.generics is None) by {
                if b.generics is Some {
                    assert(y.children[1].tag == 1);
                }
            }
        },
        Some(ta) => {
            assert(x.children[1].tag == 1);
            assert(b.generics is Some) by {
                if b.generics is None {
                    assert(y.children[1].tag == 0);
                }
            }
            assert(x.children[1].children[0] == types_shape(ta));
            assert(y.children[1].children[0] == types_shape(b.generics->0));
            lemma_types_shape_injective(ta, b.generics->0);
        },
    }
}

/// Paths of the same shape are the same path.
pub proof fn lemma_path_shape_injective(a: Seq<SegmentView>, b: Seq<SegmentView>)
    requires
        path_shape(a) == path_shape(b),
    ensures
        a == b,
    decreases a,
{
    let x = path_shape(a).children;
    let y = path_shape(b).children;
    assert(x.len() == a.len() && y.len() == b.len());
    assert forall|i: int| 0 <= i < a.len() implies a[i] == b[i] by {
        assert(x[i] == segment_shape(a[i]));
        assert(y[i] == segment_shape(b[i]));
        lemma_segment_shape_injective(a[i], b[i]);
    }
    assert(a =~= b);
}

/// The tag of the shape of a value: the place of its variant.
pub open spec fn value_tag(v: ValueView) -> int {
    match v {
        ValueView::Unit => 0,
        ValueView::Bool(_) => 1,
        ValueView::Char(_) => 2,
        ValueView::String(_) => 3,
        ValueView::Number(_) => 4,
        ValueView::Type(_) => 5,
        ValueView::List(_) => 6,
        ValueView::Tuple(_) => 7,
        ValueView::Mapping(_) => 8,
        ValueView::Option(_) => 9,
        ValueView::Struct(_, _) => 10,
        ValueView::TupleStruct(_, _) => 11,
    }
}

proof fn lemma_value_tag(v: ValueView)
    ensures
        value_shape(v).tag == value_tag(v),
        v matches ValueView::Option(None) ==> value_shape(v).children.len() == 0,
        v matches ValueView::Option(Some(_)) ==> value_shape(v).children.len() == 1,
{
}

/// Values of the same shape are the same value.
pub proof fn lemma_value_shape_injective(a: ValueView, b: ValueView)
    requires
        value_shape(a) == value_shape(b),
    ensures
        a == b,
    decreases a,
{
    let x = value_shape(a);
    let y = value_shape(b);
    lemma_value_tag(a);
    lemma_value_tag(b);
    assert(value_tag(a) == value_tag(b));
    match a {
        ValueView::Unit => {
            assert(b is Unit);
        },
        ValueView::Bool(p) => {
            assert(b is Bool);
            assert(x.children[0] == leaf(if p { 1int } else { 0int }));
            assert(y.children[0] == leaf(if b->Bool_0 { 1int } else { 0int }));
        },
        ValueView::Char(c) => {
            assert(b is Char);
            assert(x.children[0] == leaf(c as int));
            assert(y.children[0] == leaf(b->Char_0 as int));
        },
        ValueView::String(s) => {
            assert(b is String);
            assert(x.children[0] == text_shape(s));
            assert(y.children[0] == text_shape(b->String_0));
            lemma_text_shape_injective(s, b->String_0);
        },
        ValueView::Number(s) => {
            assert(b is Number);
            assert(x.children[0] == text_shape(s));
            assert(y.children[0] == text_shape(b->Number_0));
            lemma_text_shape_injective(s, b->Number_0);
        },
        ValueView::Type(t) => {
            assert(b is Type);
            assert(x.children[0] == type_shape(t));
            assert(y.children[0] == type_shape(b->Type_0));
            lemma_type_shape_injective(t, b->Type_0);
        },
        ValueView::List(items) => {
            assert(b is List);
            assert(x.children[0] == values_shape(items));
            assert(y.children[0] == values_shape(b->List_0));
            lemma_values_shape_injective(items, b->List_0);
        },
        ValueView::Tuple(items) => {
            assert(b is Tuple);
            assert(x.children[0] == values_shape(items));
            assert(y.children[0] == values_shape(b->Tuple_0));
            lemma_values_shape_injective(items, b->Tuple_0);
        },
        ValueView::Mapping(entries) => {
            assert(b is Mapping);
            assert(x.children[0] == entries_shape(entries));
            assert(y.children[0] == entries_shape(b->Mapping_0));
            lemma_entries_shape_injective(entries, b->Mapping_0);
        },
        ValueView::Option(inner) => {
            assert(b is Option);
            match inner {
                None => {
                    assert(b->Option_0 is None);
                },
                Some(p) => {
                    assert(b->Option_0 is Some);
                    assert(x.children[0] == value_shape(*p));
                    assert(y.children[0] == value_shape(*b->Option_0->0));
                    lemma_value_shape_injective(*p, *b->Option_0->0);
                },
            }
        },
        ValueView::Struct(path, fields) => {
            assert(b is Struct);
            assert(x.children[0] == path_shape(path));
            assert(y.children[0] == path_shape(b->Struct_0));
            assert(x.children[1] == fields_shape(fields));
            assert(y.children[1] == fields_shape(b->Struct_1));
            lemma_path_shape_injective(path, b->Struct_0);
            lemma_fields_shape_injective(fields, b->Struct_1);
        },
        ValueView::TupleStruct(path, items) => {
            assert(b is TupleStruct);
            assert(x.children[0] == path_shape(path));
            assert(y.children[0] == path_shape(b->TupleStruct_0));
            assert(x.children[1] == values_shape(items));
            assert(y.children[1] == values_shape(b->TupleStruct_1));
            lemma_path_shape_injective(path, b->TupleStruct_0);
            lemma_values_shape_injective(items, b->TupleStruct_1);
        },
    }
}

proof fn lemma_values_shape_injective(a: Seq<ValueView>, b: Seq<ValueView>)
    requires
        values_shape(a) == values_shape(b),
    ensures
        a == b,
    decreases a,
{
    let x = values_shape(a).children;
    let y = values_shape(b).children;
    assert(x.len() == a.len() && y.len() == b.len());
    assert forall|i: int| 0 <= i < a.len() implies a[i] == b[i] by {
        assert(x[i] == value_shape(a[i]));
        assert(y[i] == value_shape(b[i]));
        lemma_value_shape_injective(a[i], b[i]);
    }
    assert(a =~= b);
}

proof fn lemma_entries_shape_injective(
    a: Seq<(ValueView, ValueView)>,
    b: Seq<(ValueView, ValueView)>,
)
    requires
        entries_shape(a) == entries_shape(b),
    ensures
        a == b,
    decreases a,
{
    let x = entries_shape(a).children;
    let y = entries_shape(b).children;
    assert(x.len() == a.len() && y.len() == b.len());
    assert forall|i: int| 0 <= i < a.len() implies a[i] == b[i] by {
        assert(x[i] == node(0, seq![value_shape(a[i].0), value_shape(a[i].1)]));
        assert(y[i] == node(0, seq![value_shape(b[i].0), value_shape(b[i].1)]));
        assert(x[i].children[0] == y[i].children[0]);
        assert(x[i].children[1] == y[i].children[1]);
        lemma_value_shape_injective(a[i].0, b[i].0);
        lemma_value_shape_injective(a[i].1, b[i].1);
    }
    assert(a =~= b);
}

proof fn lemma_fields_shape_injective(
    a: Seq<(Seq<char>, ValueView)>,
    b: Seq<(Seq<char>, ValueView)>,
)
    requires
        fields_shape(a) == fields_shape(b),
    ensures
        a == b,
    decreases a,
{
    let x = fields_shape(a).children;
    let y = fields_shape(b).children;
    assert(x.len() == a.len() && y.len() == b.len());
    assert forall|i: int| 0 <= i < a.len() implies a[i] == b[i] by {
        assert(x[i] == node(0, seq![text_shape(a[i].0), value_shape(a[i].1)]));
        assert(y[i] == node(0, seq![text_shape(b[i].0), value_shape(b[i].1)]));
        assert(x[i].children[0] == y[i].children[0]);
        assert(x[i].children[1] == y[i].children[1]);
        lemma_text_shape_injective(a[i].0, b[i].0);
        lemma_value_shape_injective(a[i].1, b[i].1);
    }
    assert(a =~= b);
}

/// The canonical order is total on values: two values compare equal if
/// and only if they are the same value.
pub proof fn lemma_equal_in_order(a: ValueView, b: ValueView)
    ensures
        shape_order(value_shape(a), value_shape(b)) == Order::Equal <==> a == b,
{
    if shape_order(value_shape(a), value_shape(b)) == Order::Equal {
        lemma_order_equal(value_shape(a), value_shape(b));
        lemma_value_shape_injective(a, b);
    }
    if a == b {
        lemma_order_reflexive(value_shape(a));
    }
}

/// Canonical ordering stability for mappings: entries under different
/// keys can be put in in either order, the mapping is the same.
pub proof fn lemma_entry_order_stable(
    entries: Seq<(ValueView, ValueView)>,
    first: (ValueView, ValueView),
    second: (ValueView, ValueView),
)
    requires
        keys_sorted(entries, by_value()),
        first.0 != second.0,
    ensures
        inserted(
            inserted(entries, by_value(), first.0, first.1),
            by_value(),
            second.0,
            second.1,
        ) == inserted(
            inserted(entries, by_value(), second.0, second.1),
            by_value(),
            first.0,
            first.1,
        ),
{
    if value_shape(first.0) == value_shape(second.0) {
        lemma_value_shape_injective(first.0, second.0);
    }
    lemma_insert_commutes(entries, by_value(), first, second);
}

/// Canonical ordering stability for structs: fields of different names
/// can be put in in either order, the struct is the same.
pub proof fn lemma_field_order_stable(
    fields: Seq<(Seq<char>, ValueView)>,
    first: (Seq<char>, ValueView),
    second: (Seq<char>, ValueView),
)
    requires
        keys_sorted(fields, by_name()),
        first.0 != second.0,
    ensures
        inserted(inserted(fields, by_name(), first.0, first.1), by_name(), second.0, second.1)
            == inserted(
            inserted(fields, by_name(), second.0, second.1),
            by_name(),
            first.0,
            first.1,
        ),
{
    if text_shape(first.0) == text_shape(second.0) {
        lemma_text_shape_injective(first.0, second.0);
    }
    lemma_insert_commutes(fields, by_name(), first, second);
}

} // verus!
