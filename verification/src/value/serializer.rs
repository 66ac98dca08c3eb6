//! The encoder: from the shapes of native data to values.
//!
//! Whoever walks a native datum reports its shape, one call for a scalar,
//! a builder for a composite, and hands in the values of its parts, which
//! it has encoded the same way.

use crate::value::bytes::{base64_bytes, base64_text, bytes_to_text, encodable_len};
use crate::value::number::{integer_string, integer_text};
use crate::value::sorted::{insert_entry, insert_field, inserted};
use crate::value::text::copy_text;
use crate::value::wellformed::{
    all_wf, entries_wf, fields_wf, lemma_entry_kept, lemma_field_kept,
};
use crate::value::types::{
    plain_pair, plain_path, Identifier, SegmentView, Type, TypeIdentifier, TypeView,
};
use crate::value::{
    by_name, by_value, entries_view, fields_view, keys_sorted, value_wf, values_view, Value,
    ValueView,
};
use vstd::prelude::*;

verus! {

/// The encoder. It holds nothing.
pub struct ValueSerializer;

/// Why a native datum was not encoded.
#[derive(Debug)]
pub enum ValueSerializerError {
    /// Whoever walked the datum gave up, with this message.
    Custom(String),
    /// A mapping was ended while a key waited for its value.
    DanglingKey,
    /// A mapping was ended while a value waited for its key.
    DanglingValue,
    /// The bytes are too many for their text to be built on this machine.
    BytesTooLong,
}

/// The value of a number.
pub open spec fn encoded_integer(n: int) -> ValueView {
    ValueView::Number(integer_text(n))
}

/// The value of a sequence of bytes: the string of their base64 text.
pub open spec fn encoded_bytes(bytes: Seq<u8>) -> ValueView {
    ValueView::String(base64_text(bytes))
}

/// The value of a type without payload.
pub open spec fn encoded_unit_struct(name: Seq<char>) -> ValueView {
    ValueView::Type(TypeView::Path(plain_path(name)))
}

/// The value of a variant without payload.
pub open spec fn encoded_unit_variant(name: Seq<char>, variant: Seq<char>) -> ValueView {
    ValueView::Type(TypeView::Path(plain_pair(name, variant)))
}

fn number_value(n: i128) -> (v: Value)
    ensures
        v@ == encoded_integer(n as int),
{
    Value::Number(integer_string(n))
}

impl ValueSerializer {
    /// A truth value is itself.
    pub fn serialize_bool(self, v: bool) -> (r: Result<Value, ValueSerializerError>)
        ensures
            r matches Ok(x) && x@ == ValueView::Bool(v),
    {
        Ok(Value::Bool(v))
    }

    /// An integer is the number of its decimal text.
    pub fn serialize_i8(self, v: i8) -> (r: Result<Value, ValueSerializerError>)
        ensures
            r matches Ok(x) && x@ == encoded_integer(v as int),
    {
        Ok(number_value(v as i128))
    }

    /// An integer is the number of its decimal text.
    pub fn serialize_i16(self, v: i16) -> (r: Result<Value, ValueSerializerError>)
        ensures
            r matches Ok(x) && x@ == encoded_integer(v as int),
    {
        Ok(number_value(v as i128))
    }

    /// An integer is the number of its decimal text.
    pub fn serialize_i32(self, v: i32) -> (r: Result<Value, ValueSerializerError>)
        ensures
            r matches Ok(x) && x@ == encoded_integer(v as int),
    {
        Ok(number_value(v as i128))
    }

    /// An integer is the number of its decimal text.
    pub fn serialize_i64(self, v: i64) -> (r: Result<Value, ValueSerializerError>)
        ensures
            r matches Ok(x) && x@ == encoded_integer(v as int),
    {
        Ok(number_value(v as i128))
    }

    /// An integer is the number of its decimal text.
    pub fn serialize_u8(self, v: u8) -> (r: Result<Value, ValueSerializerError>)
        ensures
            r matches Ok(x) && x@ == encoded_integer(v as int),
    {
        Ok(number_value(v as i128))
    }

    /// An integer is the number of its decimal text.
    pub fn serialize_u16(self, v: u16) -> (r: Result<Value, ValueSerializerError>)
        ensures
            r matches Ok(x) && x@ == encoded_integer(v as int),
    {
        Ok(number_value(v as i128))
    }

    /// An integer is the number of its decimal text.
    pub fn serialize_u32(self, v: u32) -> (r: Result<Value, ValueSerializerError>)
        ensures
            r matches Ok(x) && x@ == encoded_integer(v as int),
    {
        Ok(number_value(v as i128))
    }

    /// An integer is the number of its decimal text.
    pub fn serialize_u64(self, v: u64) -> (r: Result<Value, ValueSerializerError>)
        ensures
            r matches Ok(x) && x@ == encoded_integer(v as int),
    {
        Ok(number_value(v as i128))
    }

    /// A character is itself.
    pub fn serialize_char(self, v: char) -> (r: Result<Value, ValueSerializerError>)
        ensures
            r matches Ok(x) && x@ == ValueView::Char(v),
    {
        Ok(Value::Char(v))
    }

    /// A text is the string that holds it.
    pub fn serialize_str(self, v: &str) -> (r: Result<Value, ValueSerializerError>)
        ensures
            r matches Ok(x) && x@ == ValueView::String(v@),
    {
        Ok(Value::String(copy_text(v)))
    }

    /// Bytes become the string of their base64 text, from which the
    /// decoder gets the bytes back. The one failure is a sequence too long
    /// for this machine to build the text of.
    pub fn serialize_bytes(self, v: &[u8]) -> (r: Result<Value, ValueSerializerError>)
        ensures
            match r {
                Ok(x) => encodable_len(v@.len()) && x@ == encoded_bytes(v@) && base64_bytes(
                    base64_text(v@),
                ) == Some(v@),
                Err(e) => !encodable_len(v@.len()) && e is BytesTooLong,
            },
    {
        match bytes_to_text(v) {
            Some(text) => Ok(Value::String(text)),
            None => Err(ValueSerializerError::BytesTooLong),
        }
    }

    /// The absent option.
    pub fn serialize_none(self) -> (r: Result<Value, ValueSerializerError>)
        ensures
            r matches Ok(x) && x@ == ValueView::Option(None),
    {
        Ok(Value::Option(None))
    }

    /// A present option around `inner`, the value of what it holds.
    pub fn serialize_some(self, inner: Value) -> (r: Result<Value, ValueSerializerError>)
        ensures
            r matches Ok(x) && x@ == ValueView::Option(Some(Box::new(inner@))),
    {
        Ok(Value::Option(Some(Box::new(inner))))
    }

    /// The unit.
    pub fn serialize_unit(self) -> (r: Result<Value, ValueSerializerError>)
        ensures
            r matches Ok(x) && x@ == ValueView::Unit,
    {
        Ok(Value::Unit)
    }

    /// A type without payload is its name.
    pub fn serialize_unit_struct(self, name: &str) -> (r: Result<Value, ValueSerializerError>)
        ensures
            r matches Ok(x) && x@ == encoded_unit_struct(name@),
    {
        Ok(Value::Type(Type::from_name(name)))
    }

    /// A variant without payload is the name of its enum and its own.
    pub fn serialize_unit_variant(self, name: &str, _index: u32, variant: &str) -> (r: Result<
        Value,
        ValueSerializerError,
    >)
        ensures
            r matches Ok(x) && x@ == encoded_unit_variant(name@, variant@),
    {
        Ok(Value::Type(Type::from_pair(name, variant)))
    }

    /// A type with one unnamed field is a tuple struct of one element,
    /// `inner` being the value of the field.
    pub fn serialize_newtype_struct(self, name: &str, inner: Value) -> (r: Result<
        Value,
        ValueSerializerError,
    >)
        ensures
            r matches Ok(x) && x@ == ValueView::TupleStruct(plain_path(name@), seq![inner@]),
    {
        let ghost i = inner@;
        let items = vec![inner];
        assert(values_view(items@) =~= seq![i]);
        Ok(Value::TupleStruct(TypeIdentifier::from_name(name), items))
    }

    /// A variant with one unnamed field is a tuple struct of one element.
    pub fn serialize_newtype_variant(
        self,
        name: &str,
        _index: u32,
        variant: &str,
        inner: Value,
    ) -> (r: Result<Value, ValueSerializerError>)
        ensures
            r matches Ok(x) && x@ == ValueView::TupleStruct(
                plain_pair(name@, variant@),
                seq![inner@],
            ),
    {
        let ghost i = inner@;
        let items = vec![inner];
        assert(values_view(items@) =~= seq![i]);
        Ok(Value::TupleStruct(TypeIdentifier::from_pair(name, variant), items))
    }

    /// Starts a sequence. The announced length is not used.
    pub fn serialize_seq(self, _len: Option<usize>) -> (r: Result<
        ValueSerializerSeq,
        ValueSerializerError,
    >)
        ensures
            r matches Ok(b) && b@ == Seq::<ValueView>::empty(),
    {
        Ok(ValueSerializerSeq::new())
    }

    /// Starts a tuple. The announced length is not used.
    pub fn serialize_tuple(self, _len: usize) -> (r: Result<
        ValueSerializerSeq,
        ValueSerializerError,
    >)
        ensures
            r matches Ok(b) && b@ == Seq::<ValueView>::empty(),
    {
        Ok(ValueSerializerSeq::new())
    }

    /// Starts a tuple struct.
    pub fn serialize_tuple_struct(self, name: &str, _len: usize) -> (r: Result<
        ValueSerializerTupleStruct,
        ValueSerializerError,
    >)
        ensures
            r matches Ok(b) && b@ == (plain_path(name@), Seq::<ValueView>::empty()),
    {
        Ok(ValueSerializerTupleStruct::new(TypeIdentifier::from_name(name)))
    }

    /// Starts a variant with unnamed fields.
    pub fn serialize_tuple_variant(
        self,
        name: &str,
        _index: u32,
        variant: &str,
        _len: usize,
    ) -> (r: Result<ValueSerializerTupleStruct, ValueSerializerError>)
        ensures
            r matches Ok(b) && b@ == (plain_pair(name@, variant@), Seq::<ValueView>::empty()),
    {
        Ok(ValueSerializerTupleStruct::new(TypeIdentifier::from_pair(name, variant)))
    }

    /// Starts a mapping.
    pub fn serialize_map(self, _len: Option<usize>) -> (r: Result<
        ValueSerializerMap,
        ValueSerializerError,
    >)
        ensures
            r matches Ok(b) && b@ == empty_map_progress(),
    {
        Ok(ValueSerializerMap::new())
    }

    /// Starts a struct.
    pub fn serialize_struct(self, name: &str, _len: usize) -> (r: Result<
        ValueSerializerStruct,
        ValueSerializerError,
    >)
        ensures
            r matches Ok(b) && b@ == (plain_path(name@), Seq::<(Seq<char>, ValueView)>::empty()),
    {
        Ok(ValueSerializerStruct::new(TypeIdentifier::from_name(name)))
    }

    /// Starts a variant with named fields.
    pub fn serialize_struct_variant(
        self,
        name: &str,
        _index: u32,
        variant: &str,
        _len: usize,
    ) -> (r: Result<ValueSerializerStruct, ValueSerializerError>)
        ensures
            r matches Ok(b) && b@ == (
                plain_pair(name@, variant@),
                Seq::<(Seq<char>, ValueView)>::empty(),
            ),
    {
        Ok(ValueSerializerStruct::new(TypeIdentifier::from_pair(name, variant)))
    }

    /// A datum that is written as text is the string of that text.
    pub fn collect_str(self, text: &str) -> (r: Result<Value, ValueSerializerError>)
        ensures
            r matches Ok(x) && x@ == ValueView::String(text@),
    {
        self.serialize_str(text)
    }
}

/// Builds a list or a tuple.
pub struct ValueSerializerSeq {
    items: Vec<Value>,
}

impl View for ValueSerializerSeq {
    type V = Seq<ValueView>;

    closed spec fn view(&self) -> Seq<ValueView> {
        values_view(self.items@)
    }
}

impl ValueSerializerSeq {
    fn new() -> (r: Self)
        ensures
            r@ == Seq::<ValueView>::empty(),
    {
        let r = ValueSerializerSeq { items: Vec::new() };
        assert(r@ =~= Seq::empty());
        r
    }

    /// Takes the value of the next element.
    pub fn serialize_element(&mut self, value: Value) -> (r: Result<(), ValueSerializerError>)
        ensures
            r is Ok,
            final(self)@ == old(self)@.push(value@),
            all_wf(old(self)@) && value_wf(value@) ==> all_wf(final(self)@),
    {
        self.items.push(value);
        assert(self@ =~= old(self)@.push(value@));
        Ok(())
    }

    /// Ends a sequence: the list of the elements, in the order in which
    /// they came.
    pub fn end(self) -> (r: Result<Value, ValueSerializerError>)
        ensures
            r matches Ok(x) && x@ == ValueView::List(self@) && (all_wf(self@) ==> value_wf(x@)),
    {
        Ok(Value::List(self.items))
    }

    /// Ends a tuple: the tuple of the elements, in the order in which they
    /// came.
    pub fn end_tuple(self) -> (r: Result<Value, ValueSerializerError>)
        ensures
            r matches Ok(x) && x@ == ValueView::Tuple(self@) && (all_wf(self@) ==> value_wf(
                x@,
            )),
    {
        Ok(Value::Tuple(self.items))
    }
}

/// Builds a tuple struct.
pub struct ValueSerializerTupleStruct {
    identifier: TypeIdentifier,
    items: Vec<Value>,
}

impl View for ValueSerializerTupleStruct {
    type V = (Seq<SegmentView>, Seq<ValueView>);

    closed spec fn view(&self) -> (Seq<SegmentView>, Seq<ValueView>) {
        (self.identifier@, values_view(self.items@))
    }
}

impl ValueSerializerTupleStruct {
    fn new(identifier: TypeIdentifier) -> (r: Self)
        ensures
            r@ == (identifier@, Seq::<ValueView>::empty()),
    {
        let r = ValueSerializerTupleStruct { identifier, items: Vec::new() };
        assert(r@.1 =~= Seq::empty());
        r
    }

    /// Takes the value of the next field.
    pub fn serialize_field(&mut self, value: Value) -> (r: Result<(), ValueSerializerError>)
        ensures
            r is Ok,
            final(self)@ == (old(self)@.0, old(self)@.1.push(value@)),
            all_wf(old(self)@.1) && value_wf(value@) ==> all_wf(final(self)@.1),
    {
        self.items.push(value);
        assert(self@.1 =~= old(self)@.1.push(value@));
        Ok(())
    }

    /// Ends the tuple struct.
    pub fn end(self) -> (r: Result<Value, ValueSerializerError>)
        ensures
            r matches Ok(x) && x@ == ValueView::TupleStruct(self@.0, self@.1) && (all_wf(
                self@.1,
            ) ==> value_wf(x@)),
    {
        Ok(Value::TupleStruct(self.identifier, self.items))
    }
}

/// The fields are sorted by name and their values are well formed.
pub open spec fn fields_kept(fields: Seq<(Seq<char>, ValueView)>) -> bool {
    keys_sorted(fields, by_name()) && fields_wf(fields)
}

/// Builds a struct.
pub struct ValueSerializerStruct {
    identifier: TypeIdentifier,
    items: Vec<(Identifier, Value)>,
}

impl View for ValueSerializerStruct {
    type V = (Seq<SegmentView>, Seq<(Seq<char>, ValueView)>);

    closed spec fn view(&self) -> (Seq<SegmentView>, Seq<(Seq<char>, ValueView)>) {
        (self.identifier@, fields_view(self.items@))
    }
}

impl ValueSerializerStruct {
    fn new(identifier: TypeIdentifier) -> (r: Self)
        ensures
            r@ == (identifier@, Seq::<(Seq<char>, ValueView)>::empty()),
    {
        let r = ValueSerializerStruct { identifier, items: Vec::new() };
        assert(r@.1 =~= Seq::empty());
        r
    }

    /// Takes the field `key` with its value and puts it where its name
    /// belongs. A field of the same name gives way.
    pub fn serialize_field(&mut self, key: &str, value: Value) -> (r: Result<
        (),
        ValueSerializerError,
    >)
        ensures
            r is Ok,
            final(self)@ == (old(self)@.0, inserted(old(self)@.1, by_name(), key@, value@)),
            fields_kept(old(self)@.1) && value_wf(value@) ==> fields_kept(final(self)@.1),
    {
        proof {
            if fields_kept(self@.1) && value_wf(value@) {
                lemma_field_kept(self@.1, key@, value@);
            }
        }
        insert_field(&mut self.items, Identifier::new(key), value);
        Ok(())
    }

    /// Ends the struct.
    pub fn end(self) -> (r: Result<Value, ValueSerializerError>)
        ensures
            r matches Ok(x) && x@ == ValueView::Struct(self@.0, self@.1) && (fields_kept(
                self@.1,
            ) ==> value_wf(x@)),
    {
        Ok(Value::Struct(self.identifier, self.items))
    }
}

/// How far a mapping has been built: its entries, and a key or a value
/// that waits for its other half.
pub struct MapProgress {
    pub entries: Seq<(ValueView, ValueView)>,
    pub key: Option<ValueView>,
    pub value: Option<ValueView>,
}

/// A mapping of which nothing has been built.
pub open spec fn empty_map_progress() -> MapProgress {
    MapProgress { entries: Seq::empty(), key: None, value: None }
}

/// The progress after a key came: with a value waiting, the two make an
/// entry; else the key waits, in place of one that waited before.
pub open spec fn after_key(p: MapProgress, key: ValueView) -> MapProgress {
    match p.value {
        Some(value) => MapProgress {
            entries: inserted(p.entries, by_value(), key, value),
            key: p.key,
            value: None,
        },
        None => MapProgress { entries: p.entries, key: Some(key), value: None },
    }
}

/// The progress after a value came: with a key waiting, the two make an
/// entry; else the value waits, in place of one that waited before.
pub open spec fn after_value(p: MapProgress, value: ValueView) -> MapProgress {
    match p.key {
        Some(key) => MapProgress {
            entries: inserted(p.entries, by_value(), key, value),
            key: None,
            value: p.value,
        },
        None => MapProgress { entries: p.entries, key: None, value: Some(value) },
    }
}

/// The entries are sorted by key, and they and what waits are well formed.
pub open spec fn progress_kept(p: MapProgress) -> bool {
    &&& keys_sorted(p.entries, by_value())
    &&& entries_wf(p.entries)
    &&& p.key matches Some(k) ==> value_wf(k)
    &&& p.value matches Some(v) ==> value_wf(v)
}

/// Builds a mapping.
pub struct ValueSerializerMap {
    items: Vec<(Value, Value)>,
    current_key: Option<Value>,
    current_value: Option<Value>,
}

impl View for ValueSerializerMap {
    type V = MapProgress;

    closed spec fn view(&self) -> MapProgress {
        MapProgress {
            entries: entries_view(self.items@),
            key: match self.current_key {
                Some(k) => Some(k@),
                None => None,
            },
            value: match self.current_value {
                Some(v) => Some(v@),
                None => None,
            },
        }
    }
}

impl ValueSerializerMap {
    fn new() -> (r: Self)
        ensures
            r@ == empty_map_progress(),
    {
        let r = ValueSerializerMap { items: Vec::new(), current_key: None, current_value: None };
        assert(r@.entries =~= Seq::empty());
        r
    }

    /// Takes the value of a key.
    pub fn serialize_key(&mut self, key: Value) -> (r: Result<(), ValueSerializerError>)
        ensures
            r is Ok,
            final(self)@ == after_key(old(self)@, key@),
            progress_kept(old(self)@) && value_wf(key@) ==> progress_kept(final(self)@),
    {
        proof {
            if progress_kept(self@) && value_wf(key@) && self@.value is Some {
                lemma_entry_kept(self@.entries, key@, self@.value->0);
            }
        }
        match self.current_value.take() {
            Some(value) => {
                insert_entry(&mut self.items, key, value);
            },
            None => {
                self.current_key = Some(key);
            },
        }
        Ok(())
    }

    /// Takes the value of a value.
    pub fn serialize_value(&mut self, value: Value) -> (r: Result<(), ValueSerializerError>)
        ensures
            r is Ok,
            final(self)@ == after_value(old(self)@, value@),
            progress_kept(old(self)@) && value_wf(value@) ==> progress_kept(final(self)@),
    {
        proof {
            if progress_kept(self@) && value_wf(value@) && self@.key is Some {
                lemma_entry_kept(self@.entries, self@.key->0, value@);
            }
        }
        match self.current_key.take() {
            Some(key) => {
                insert_entry(&mut self.items, key, value);
            },
            None => {
                self.current_value = Some(value);
            },
        }
        Ok(())
    }

    /// Ends the mapping. It fails where a key or a value still waits for
    /// its other half.
    pub fn end(self) -> (r: Result<Value, ValueSerializerError>)
        ensures
            match r {
                Ok(x) => self@.key is None && self@.value is None && x@ == ValueView::Mapping(
                    self@.entries,
                ) && (progress_kept(self@) ==> value_wf(x@)),
                Err(e) => if self@.key is Some {
                    e is DanglingKey
                } else {
                    self@.value is Some && e is DanglingValue
                },
            },
    {
        if self.current_key.is_some() {
            return Err(ValueSerializerError::DanglingKey);
        }
        if self.current_value.is_some() {
            return Err(ValueSerializerError::DanglingValue);
        }
        Ok(Value::Mapping(self.items))
    }
}

} // verus!
