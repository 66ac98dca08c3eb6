//! The decoder: from values to the shapes of native data.
//!
//! Whoever rebuilds a native datum asks for the shape it expects and gets
//! what the value holds, or the reason why the value is not of that shape.

use crate::value::bytes::{decoded_bytes, text_to_bytes};
use crate::value::number::{integer_within, parse_integer};
use crate::value::types::{plain_path, Identifier, Type, TypeView};
use crate::value::{entries_view, fields_view, values_view, Value, ValueView};
use vstd::prelude::*;

verus! {

/// The variants of a value, without what they hold.
#[derive(Clone, Copy, PartialEq, Eq, Debug)]
pub enum ValueKind {
    Unit,
    Bool,
    Char,
    String,
    Number,
    Type,
    List,
    Tuple,
    Mapping,
    Option,
    Struct,
    TupleStruct,
}

/// Why a value was not decoded.
#[derive(Clone, Copy, PartialEq, Eq, Debug)]
pub enum ValueDeserializerError {
    /// The value is of another variant than the one asked for.
    ShapeMismatch { expected: ValueKind, found: ValueKind },
    /// The text of the number is no number of the type asked for.
    NumberFormat,
    /// The string is not the base64 text of any bytes.
    Base64,
    /// A value of a mapping was asked for and none is left.
    MapProtocol,
    /// The value carries no name.
    NotIdentifier,
    /// A variant with one field was asked for and the value holds another
    /// number of fields.
    NotNewtype,
    /// The value was to be skipped; every value has to be decoded.
    Unsupported,
}

/// The variant of `v`.
pub open spec fn kind_of(v: ValueView) -> ValueKind {
    match v {
        ValueView::Unit => ValueKind::Unit,
        ValueView::Bool(_) => ValueKind::Bool,
        ValueView::Char(_) => ValueKind::Char,
        ValueView::String(_) => ValueKind::String,
        ValueView::Number(_) => ValueKind::Number,
        ValueView::Type(_) => ValueKind::Type,
        ValueView::List(_) => ValueKind::List,
        ValueView::Tuple(_) => ValueKind::Tuple,
        ValueView::Mapping(_) => ValueKind::Mapping,
        ValueView::Option(_) => ValueKind::Option,
        ValueView::Struct(_, _) => ValueKind::Struct,
        ValueView::TupleStruct(_, _) => ValueKind::TupleStruct,
    }
}

/// The error for `v` where `expected` was asked for.
pub open spec fn mismatch(expected: ValueKind, v: ValueView) -> ValueDeserializerError {
    ValueDeserializerError::ShapeMismatch { expected, found: kind_of(v) }
}

/// The truth value that `v` holds.
pub open spec fn decoded_bool(v: ValueView) -> Result<bool, ValueDeserializerError> {
    match v {
        ValueView::Bool(b) => Ok(b),
        _ => Err(mismatch(ValueKind::Bool, v)),
    }
}

/// The character that `v` holds.
pub open spec fn decoded_char(v: ValueView) -> Result<char, ValueDeserializerError> {
    match v {
        ValueView::Char(c) => Ok(c),
        _ => Err(mismatch(ValueKind::Char, v)),
    }
}

/// The text that `v` holds.
pub open spec fn decoded_str(v: ValueView) -> Result<Seq<char>, ValueDeserializerError> {
    match v {
        ValueView::String(s) => Ok(s),
        _ => Err(mismatch(ValueKind::String, v)),
    }
}

/// The integer between `min` and `max` that `v` holds the text of.
pub open spec fn decoded_integer(v: ValueView, signed: bool, min: int, max: int) -> Result<
    int,
    ValueDeserializerError,
> {
    match v {
        ValueView::Number(text) => match integer_within(text, signed, min, max) {
            Some(n) => Ok(n),
            None => Err(ValueDeserializerError::NumberFormat),
        },
        _ => Err(mismatch(ValueKind::Number, v)),
    }
}

/// The bytes that `v` holds the base64 text of.
pub open spec fn decoded_byte_string(v: ValueView) -> Result<Seq<u8>, ValueDeserializerError> {
    match v {
        ValueView::String(text) => match decoded_bytes(text) {
            Some(bytes) => Ok(bytes),
            None => Err(ValueDeserializerError::Base64),
        },
        _ => Err(mismatch(ValueKind::String, v)),
    }
}

/// What `v` holds, where an option is asked for.
pub open spec fn decoded_option(v: ValueView) -> Result<
    Option<ValueView>,
    ValueDeserializerError,
> {
    match v {
        ValueView::Option(Some(inner)) => Ok(Some(*inner)),
        ValueView::Option(None) => Ok(None),
        _ => Err(mismatch(ValueKind::Option, v)),
    }
}

/// Nothing, where `v` is a type, which is how a type without payload is
/// written.
pub open spec fn decoded_unit_struct(v: ValueView) -> Result<(), ValueDeserializerError> {
    match v {
        ValueView::Type(_) => Ok(()),
        _ => Err(mismatch(ValueKind::Type, v)),
    }
}

/// The elements of `v`, where a sequence is asked for.
pub open spec fn decoded_seq(v: ValueView) -> Result<Seq<ValueView>, ValueDeserializerError> {
    match v {
        ValueView::List(items) => Ok(items),
        _ => Err(mismatch(ValueKind::List, v)),
    }
}

/// The elements of `v`, where a tuple is asked for.
pub open spec fn decoded_tuple(v: ValueView) -> Result<Seq<ValueView>, ValueDeserializerError> {
    match v {
        ValueView::Tuple(items) => Ok(items),
        _ => Err(mismatch(ValueKind::Tuple, v)),
    }
}

/// The fields of `v`, where a tuple struct is asked for.
pub open spec fn decoded_tuple_struct(v: ValueView) -> Result<
    Seq<ValueView>,
    ValueDeserializerError,
> {
    match v {
        ValueView::TupleStruct(_, items) => Ok(items),
        _ => Err(mismatch(ValueKind::TupleStruct, v)),
    }
}

/// The entries of `v`, where a mapping is asked for.
pub open spec fn decoded_map(v: ValueView) -> Result<
    Seq<(ValueView, ValueView)>,
    ValueDeserializerError,
> {
    match v {
        ValueView::Mapping(entries) => Ok(entries),
        _ => Err(mismatch(ValueKind::Mapping, v)),
    }
}

/// The fields of `v`, where a struct is asked for.
pub open spec fn decoded_struct(v: ValueView) -> Result<
    Seq<(Seq<char>, ValueView)>,
    ValueDeserializerError,
> {
    match v {
        ValueView::Struct(_, fields) => Ok(fields),
        _ => Err(mismatch(ValueKind::Struct, v)),
    }
}

/// The name that `v` carries: the last segment of the path of a struct, of
/// a tuple struct or of a type.
pub open spec fn decoded_identifier(v: ValueView) -> Result<Seq<char>, ValueDeserializerError> {
    match v {
        ValueView::TupleStruct(path, _) => if path.len() > 0 {
            Ok(path.last().identifier)
        } else {
            Err(ValueDeserializerError::NotIdentifier)
        },
        ValueView::Struct(path, _) => if path.len() > 0 {
            Ok(path.last().identifier)
        } else {
            Err(ValueDeserializerError::NotIdentifier)
        },
        ValueView::Type(TypeView::Path(path)) => if path.len() > 0 {
            Ok(path.last().identifier)
        } else {
            Err(ValueDeserializerError::NotIdentifier)
        },
        _ => Err(ValueDeserializerError::NotIdentifier),
    }
}

/// The one field of `v`, where a variant with one field is asked for.
pub open spec fn decoded_newtype(v: ValueView) -> Result<ValueView, ValueDeserializerError> {
    match v {
        ValueView::TupleStruct(_, items) => if items.len() == 1 {
            Ok(items[0])
        } else {
            Err(ValueDeserializerError::NotNewtype)
        },
        _ => Err(mismatch(ValueKind::TupleStruct, v)),
    }
}

/// The value that stands for the name of a field: the type of that name.
pub open spec fn name_value(name: Seq<char>) -> ValueView {
    ValueView::Type(TypeView::Path(plain_path(name)))
}

impl Value {
    /// The variant of the value.
    pub fn kind(&self) -> (k: ValueKind)
        ensures
            k == kind_of(self@),
    {
        match self {
            Value::Unit => ValueKind::Unit,
            Value::Bool(_) => ValueKind::Bool,
            Value::Char(_) => ValueKind::Char,
            Value::String(_) => ValueKind::String,
            Value::Number(_) => ValueKind::Number,
            Value::Type(_) => ValueKind::Type,
            Value::List(_) => ValueKind::List,
            Value::Tuple(_) => ValueKind::Tuple,
            Value::Mapping(_) => ValueKind::Mapping,
            Value::Option(_) => ValueKind::Option,
            Value::Struct(_, _) => ValueKind::Struct,
            Value::TupleStruct(_, _) => ValueKind::TupleStruct,
        }
    }
}

/// A scalar that can be decoded without saying what is expected.
pub enum Scalar<'value> {
    Unit,
    Bool(bool),
    Char(char),
    Str(&'value str),
}

/// The decoder of one value.
pub struct ValueDeserializer<'value> {
    pub value: &'value Value,
}

impl<'value> ValueDeserializer<'value> {
    fn wrong(&self, expected: ValueKind) -> (e: ValueDeserializerError)
        ensures
            e == mismatch(expected, self.value@),
    {
        ValueDeserializerError::ShapeMismatch { expected, found: self.value.kind() }
    }

    fn deserialize_integer(self, signed: bool, min: i128, max: i128) -> (r: Result<
        i128,
        ValueDeserializerError,
    >)
        requires
            -0x1_0000_0000_0000_0000 <= min <= max <= 0x1_0000_0000_0000_0000,
        ensures
            match r {
                Ok(n) => decoded_integer(self.value@, signed, min as int, max as int) == Ok::<
                    int,
                    ValueDeserializerError,
                >(n as int) && min <= n <= max,
                Err(e) => decoded_integer(self.value@, signed, min as int, max as int) == Err::<
                    int,
                    ValueDeserializerError,
                >(e),
            },
    {
        match self.value {
            Value::Number(text) => match parse_integer(text.as_str(), signed, min, max) {
                Some(n) => Ok(n),
                None => Err(ValueDeserializerError::NumberFormat),
            },
            _ => Err(self.wrong(ValueKind::Number)),
        }
    }

    /// Decodes the unit, a truth value, a character or a string as what
    /// it is. The other variants are decoded only as what is asked for.
    pub fn deserialize_any(self) -> (r: Scalar<'value>)
        requires
            self.value@ is Unit || self.value@ is Bool || self.value@ is Char
                || self.value@ is String,
        ensures
            match r {
                Scalar::Unit => self.value@ is Unit,
                Scalar::Bool(b) => self.value@ == ValueView::Bool(b),
                Scalar::Char(c) => self.value@ == ValueView::Char(c),
                Scalar::Str(s) => self.value@ == ValueView::String(s@),
            },
    {
        match self.value {
            Value::Unit => Scalar::Unit,
            Value::Bool(b) => Scalar::Bool(*b),
            Value::Char(c) => Scalar::Char(*c),
            Value::String(s) => Scalar::Str(s.as_str()),
            // the other variants are left out by the precondition
            _ => Scalar::Unit,
        }
    }

    /// The truth value that the value holds.
    pub fn deserialize_bool(self) -> (r: Result<bool, ValueDeserializerError>)
        ensures
            r == decoded_bool(self.value@),
    {
        match self.value {
            Value::Bool(v) => Ok(*v),
            _ => Err(self.wrong(ValueKind::Bool)),
        }
    }

    /// The integer that the number holds the text of, where it fits `i8`.
    pub fn deserialize_i8(self) -> (r: Result<i8, ValueDeserializerError>)
        ensures
            match r {
                Ok(n) => decoded_integer(self.value@, true, i8::MIN as int, i8::MAX as int)
                    == Ok::<int, ValueDeserializerError>(n as int),
                Err(e) => decoded_integer(self.value@, true, i8::MIN as int, i8::MAX as int)
                    == Err::<int, ValueDeserializerError>(e),
            },
    {
        match self.deserialize_integer(true, i8::MIN as i128, i8::MAX as i128) {
            Ok(n) => Ok(n as i8),
            Err(e) => Err(e),
        }
    }

    /// The integer that the number holds the text of, where it fits `i16`.
    pub fn deserialize_i16(self) -> (r: Result<i16, ValueDeserializerError>)
        ensures
            match r {
                Ok(n) => decoded_integer(self.value@, true, i16::MIN as int, i16::MAX as int)
                    == Ok::<int, ValueDeserializerError>(n as int),
                Err(e) => decoded_integer(self.value@, true, i16::MIN as int, i16::MAX as int)
                    == Err::<int, ValueDeserializerError>(e),
            },
    {
        match self.deserialize_integer(true, i16::MIN as i128, i16::MAX as i128) {
            Ok(n) => Ok(n as i16),
            Err(e) => Err(e),
        }
    }

    /// The integer that the number holds the text of, where it fits `i32`.
    pub fn deserialize_i32(self) -> (r: Result<i32, ValueDeserializerError>)
        ensures
            match r {
                Ok(n) => decoded_integer(self.value@, true, i32::MIN as int, i32::MAX as int)
                    == Ok::<int, ValueDeserializerError>(n as int),
                Err(e) => decoded_integer(self.value@, true, i32::MIN as int, i32::MAX as int)
                    == Err::<int, ValueDeserializerError>(e),
            },
    {
        match self.deserialize_integer(true, i32::MIN as i128, i32::MAX as i128) {
            Ok(n) => Ok(n as i32),
            Err(e) => Err(e),
        }
    }

    /// The integer that the number holds the text of, where it fits `i64`.
    pub fn deserialize_i64(self) -> (r: Result<i64, ValueDeserializerError>)
        ensures
            match r {
                Ok(n) => decoded_integer(self.value@, true, i64::MIN as int, i64::MAX as int)
                    == Ok::<int, ValueDeserializerError>(n as int),
                Err(e) => decoded_integer(self.value@, true, i64::MIN as int, i64::MAX as int)
                    == Err::<int, ValueDeserializerError>(e),
            },
    {
        match self.deserialize_integer(true, i64::MIN as i128, i64::MAX as i128) {
            Ok(n) => Ok(n as i64),
            Err(e) => Err(e),
        }
    }

    /// The integer that the number holds the text of, where it fits `u8`.
    pub fn deserialize_u8(self) -> (r: Result<u8, ValueDeserializerError>)
        ensures
            match r {
                Ok(n) => decoded_integer(self.value@, false, 0, u8::MAX as int) == Ok::<
                    int,
                    ValueDeserializerError,
                >(n as int),
                Err(e) => decoded_integer(self.value@, false, 0, u8::MAX as int) == Err::<
                    int,
                    ValueDeserializerError,
                >(e),
            },
    {
        match self.deserialize_integer(false, 0, u8::MAX as i128) {
            Ok(n) => Ok(n as u8),
            Err(e) => Err(e),
        }
    }

    /// The integer that the number holds the text of, where it fits `u16`.
    pub fn deserialize_u16(self) -> (r: Result<u16, ValueDeserializerError>)
        ensures
            match r {
                Ok(n) => decoded_integer(self.value@, false, 0, u16::MAX as int) == Ok::<
                    int,
                    ValueDeserializerError,
                >(n as int),
                Err(e) => decoded_integer(self.value@, false, 0, u16::MAX as int) == Err::<
                    int,
                    ValueDeserializerError,
                >(e),
            },
    {
        match self.deserialize_integer(false, 0, u16::MAX as i128) {
            Ok(n) => Ok(n as u16),
            Err(e) => Err(e),
        }
    }

    /// The integer that the number holds the text of, where it fits `u32`.
    pub fn deserialize_u32(self) -> (r: Result<u32, ValueDeserializerError>)
        ensures
            match r {
                Ok(n) => decoded_integer(self.value@, false, 0, u32::MAX as int) == Ok::<
                    int,
                    ValueDeserializerError,
                >(n as int),
                Err(e) => decoded_integer(self.value@, false, 0, u32::MAX as int) == Err::<
                    int,
                    ValueDeserializerError,
                >(e),
            },
    {
        match self.deserialize_integer(false, 0, u32::MAX as i128) {
            Ok(n) => Ok(n as u32),
            Err(e) => Err(e),
        }
    }

    /// The integer that the number holds the text of, where it fits `u64`.
    pub fn deserialize_u64(self) -> (r: Result<u64, ValueDeserializerError>)
        ensures
            match r {
                Ok(n) => decoded_integer(self.value@, false, 0, u64::MAX as int) == Ok::<
                    int,
                    ValueDeserializerError,
                >(n as int),
                Err(e) => decoded_integer(self.value@, false, 0, u64::MAX as int) == Err::<
                    int,
                    ValueDeserializerError,
                >(e),
            },
    {
        match self.deserialize_integer(false, 0, u64::MAX as i128) {
            Ok(n) => Ok(n as u64),
            Err(e) => Err(e),
        }
    }

    /// The character that the value holds.
    pub fn deserialize_char(self) -> (r: Result<char, ValueDeserializerError>)
        ensures
            r == decoded_char(self.value@),
    {
        match self.value {
            Value::Char(c) => Ok(*c),
            _ => Err(self.wrong(ValueKind::Char)),
        }
    }

    /// The text that the string holds.
    pub fn deserialize_str(self) -> (r: Result<&'value str, ValueDeserializerError>)
        ensures
            match r {
                Ok(s) => decoded_str(self.value@) == Ok::<Seq<char>, ValueDeserializerError>(s@),
                Err(e) => decoded_str(self.value@) == Err::<Seq<char>, ValueDeserializerError>(
                    e,
                ),
            },
    {
        match self.value {
            Value::String(s) => Ok(s.as_str()),
            _ => Err(self.wrong(ValueKind::String)),
        }
    }

    /// The text that the string holds.
    pub fn deserialize_string(self) -> (r: Result<&'value str, ValueDeserializerError>)
        ensures
            match r {
                Ok(s) => decoded_str(self.value@) == Ok::<Seq<char>, ValueDeserializerError>(s@),
                Err(e) => decoded_str(self.value@) == Err::<Seq<char>, ValueDeserializerError>(
                    e,
                ),
            },
    {
        self.deserialize_str()
    }

    /// Bytes are decoded from a string that holds their base64 text.
    pub fn deserialize_bytes(self) -> (r: Result<Vec<u8>, ValueDeserializerError>)
        ensures
            match r {
                Ok(bytes) => decoded_byte_string(self.value@) == Ok::<
                    Seq<u8>,
                    ValueDeserializerError,
                >(bytes@),
                Err(e) => decoded_byte_string(self.value@) == Err::<
                    Seq<u8>,
                    ValueDeserializerError,
                >(e),
            },
    {
        match self.value {
            Value::String(s) => match text_to_bytes(s.as_str()) {
                Some(bytes) => Ok(bytes),
                None => Err(ValueDeserializerError::Base64),
            },
            _ => Err(self.wrong(ValueKind::String)),
        }
    }

    /// Bytes are decoded from a string that holds their base64 text.
    pub fn deserialize_byte_buf(self) -> (r: Result<Vec<u8>, ValueDeserializerError>)
        ensures
            match r {
                Ok(bytes) => decoded_byte_string(self.value@) == Ok::<
                    Seq<u8>,
                    ValueDeserializerError,
                >(bytes@),
                Err(e) => decoded_byte_string(self.value@) == Err::<
                    Seq<u8>,
                    ValueDeserializerError,
                >(e),
            },
    {
        self.deserialize_bytes()
    }

    /// An option: nothing, or the value it holds, which is decoded next.
    pub fn deserialize_option(self) -> (r: Result<Option<&'value Value>, ValueDeserializerError>)
        ensures
            match r {
                Ok(Some(inner)) => decoded_option(self.value@) == Ok::<
                    Option<ValueView>,
                    ValueDeserializerError,
                >(Some(inner@)),
                Ok(None) => decoded_option(self.value@) == Ok::<
                    Option<ValueView>,
                    ValueDeserializerError,
                >(None),
                Err(e) => decoded_option(self.value@) == Err::<
                    Option<ValueView>,
                    ValueDeserializerError,
                >(e),
            },
    {
        match self.value {
            Value::Option(inner) => match inner {
                Some(b) => Ok(Some(&**b)),
                None => Ok(None),
            },
            _ => Err(self.wrong(ValueKind::Option)),
        }
    }

    /// Nothing, where the value is the unit.
    pub fn deserialize_unit(self) -> (r: Result<(), ValueDeserializerError>)
        ensures
            match r {
                Ok(_) => self.value@ is Unit,
                Err(e) => !(self.value@ is Unit) && e == mismatch(ValueKind::Unit, self.value@),
            },
    {
        match self.value {
            Value::Unit => Ok(()),
            _ => Err(self.wrong(ValueKind::Unit)),
        }
    }

    /// A type without payload is decoded from its name; which name it is
    /// is not looked at.
    pub fn deserialize_unit_struct(self, _name: &str) -> (r: Result<(), ValueDeserializerError>)
        ensures
            r == decoded_unit_struct(self.value@),
    {
        match self.value {
            Value::Type(_) => Ok(()),
            _ => Err(self.wrong(ValueKind::Type)),
        }
    }

    /// A type with one unnamed field is asked for as a tuple struct of one
    /// field.
    pub fn deserialize_newtype_struct(self, name: &str) -> (r: Result<
        ValueDeserializerSequence<'value>,
        ValueDeserializerError,
    >)
        ensures
            match r {
                Ok(access) => decoded_tuple_struct(self.value@) == Ok::<
                    Seq<ValueView>,
                    ValueDeserializerError,
                >(access@),
                Err(e) => decoded_tuple_struct(self.value@) == Err::<
                    Seq<ValueView>,
                    ValueDeserializerError,
                >(e),
            },
    {
        self.deserialize_tuple_struct(name, 1)
    }

    /// The elements of a list, to be asked for one by one.
    pub fn deserialize_seq(self) -> (r: Result<
        ValueDeserializerSequence<'value>,
        ValueDeserializerError,
    >)
        ensures
            match r {
                Ok(access) => decoded_seq(self.value@) == Ok::<
                    Seq<ValueView>,
                    ValueDeserializerError,
                >(access@),
                Err(e) => decoded_seq(self.value@) == Err::<
                    Seq<ValueView>,
                    ValueDeserializerError,
                >(e),
            },
    {
        match self.value {
            Value::List(items) => Ok(ValueDeserializerSequence::new(items)),
            _ => Err(self.wrong(ValueKind::List)),
        }
    }

    /// The elements of a tuple. The announced length is not used.
    pub fn deserialize_tuple(self, _len: usize) -> (r: Result<
        ValueDeserializerSequence<'value>,
        ValueDeserializerError,
    >)
        ensures
            match r {
                Ok(access) => decoded_tuple(self.value@) == Ok::<
                    Seq<ValueView>,
                    ValueDeserializerError,
                >(access@),
                Err(e) => decoded_tuple(self.value@) == Err::<
                    Seq<ValueView>,
                    ValueDeserializerError,
                >(e),
            },
    {
        match self.value {
            Value::Tuple(items) => Ok(ValueDeserializerSequence::new(items)),
            _ => Err(self.wrong(ValueKind::Tuple)),
        }
    }

    /// The fields of a tuple struct. Neither the name nor the announced
    /// length is used.
    pub fn deserialize_tuple_struct(self, _name: &str, _len: usize) -> (r: Result<
        ValueDeserializerSequence<'value>,
        ValueDeserializerError,
    >)
        ensures
            match r {
                Ok(access) => decoded_tuple_struct(self.value@) == Ok::<
                    Seq<ValueView>,
                    ValueDeserializerError,
                >(access@),
                Err(e) => decoded_tuple_struct(self.value@) == Err::<
                    Seq<ValueView>,
                    ValueDeserializerError,
                >(e),
            },
    {
        match self.value {
            Value::TupleStruct(_, items) => Ok(ValueDeserializerSequence::new(items)),
            _ => Err(self.wrong(ValueKind::TupleStruct)),
        }
    }

    /// The entries of a mapping, to be asked for in their stored order.
    pub fn deserialize_map(self) -> (r: Result<
        ValueDeserializerMap<'value>,
        ValueDeserializerError,
    >)
        ensures
            match r {
                Ok(access) => decoded_map(self.value@) == Ok::<
                    Seq<(ValueView, ValueView)>,
                    ValueDeserializerError,
                >(access@.rest) && access@.key is None && access@.value is None,
                Err(e) => decoded_map(self.value@) == Err::<
                    Seq<(ValueView, ValueView)>,
                    ValueDeserializerError,
                >(e),
            },
    {
        match self.value {
            Value::Mapping(entries) => Ok(ValueDeserializerMap::new(entries)),
            _ => Err(self.wrong(ValueKind::Mapping)),
        }
    }

    /// The fields of a struct, to be asked for in their stored order.
    /// Neither the name nor the announced fields are used.
    pub fn deserialize_struct(self, _name: &str) -> (r: Result<
        ValueDeserializerStruct<'value>,
        ValueDeserializerError,
    >)
        ensures
            match r {
                Ok(access) => decoded_struct(self.value@) == Ok::<
                    Seq<(Seq<char>, ValueView)>,
                    ValueDeserializerError,
                >(access@.rest) && access@.key is None && access@.value is None,
                Err(e) => decoded_struct(self.value@) == Err::<
                    Seq<(Seq<char>, ValueView)>,
                    ValueDeserializerError,
                >(e),
            },
    {
        match self.value {
            Value::Struct(_, fields) => Ok(ValueDeserializerStruct::new(fields)),
            _ => Err(self.wrong(ValueKind::Struct)),
        }
    }

    /// An enum is decoded from any value: first its name, then its
    /// payload.
    pub fn deserialize_enum(self, _name: &str) -> (r: ValueDeserializerEnum<'value>)
        ensures
            r.value == self.value,
    {
        ValueDeserializerEnum { value: self.value }
    }

    /// The name that the value carries: the last segment of the path of a
    /// struct, of a tuple struct or of a type.
    pub fn deserialize_identifier(self) -> (r: Result<&'value str, ValueDeserializerError>)
        ensures
            match r {
                Ok(s) => decoded_identifier(self.value@) == Ok::<
                    Seq<char>,
                    ValueDeserializerError,
                >(s@),
                Err(e) => decoded_identifier(self.value@) == Err::<
                    Seq<char>,
                    ValueDeserializerError,
                >(e),
            },
    {
        match self.value {
            Value::TupleStruct(identifier, _) => {
                match identifier.last_identifier() {
                    Some(identifier) => {
                        return Ok(identifier.as_str());
                    },
                    None => {},
                }
            },
            Value::Struct(identifier, _) => {
                match identifier.last_identifier() {
                    Some(identifier) => {
                        return Ok(identifier.as_str());
                    },
                    None => {},
                }
            },
            Value::Type(t) => {
                match t.get_identifier() {
                    Some(identifier) => {
                        return Ok(identifier.as_str());
                    },
                    None => {},
                }
            },
            _ => {},
        }
        Err(ValueDeserializerError::NotIdentifier)
    }

    /// No value can be skipped: every value must be decoded into
    /// something.
    pub fn deserialize_ignored_any(self) -> (r: Result<(), ValueDeserializerError>)
        ensures
            r == Err::<(), ValueDeserializerError>(ValueDeserializerError::Unsupported),
    {
        Err(ValueDeserializerError::Unsupported)
    }
}

/// The elements of a sequence that have not been asked for yet.
pub struct ValueDeserializerSequence<'lt> {
    items: &'lt Vec<Value>,
    position: usize,
}

impl<'lt> View for ValueDeserializerSequence<'lt> {
    type V = Seq<ValueView>;

    closed spec fn view(&self) -> Seq<ValueView> {
        values_view(self.items@).skip(self.position as int)
    }
}

impl<'lt> ValueDeserializerSequence<'lt> {
    #[verifier::type_invariant]
    spec fn inv(self) -> bool {
        self.position <= self.items@.len()
    }

    fn new(items: &'lt Vec<Value>) -> (r: Self)
        ensures
            r@ == values_view(items@),
    {
        let r = ValueDeserializerSequence { items, position: 0 };
        assert(r@ =~= values_view(items@));
        r
    }

    /// The next element, or `None` when all have been given.
    pub fn next_element(&mut self) -> (r: Option<&'lt Value>)
        ensures
            match r {
                Some(v) => old(self)@.len() > 0 && v@ == old(self)@[0] && final(self)@ == old(
                    self,
                )@.skip(1),
                None => old(self)@.len() == 0 && final(self)@ == old(self)@,
            },
    {
        proof {
            use_type_invariant(&*self);
        }
        if self.position < self.items.len() {
            let v = &self.items[self.position];
            self.position = self.position + 1;
            assert(self@ =~= old(self)@.skip(1));
            Some(v)
        } else {
            None
        }
    }

    /// How many elements are left.
    pub fn size_hint(&self) -> (r: Option<usize>)
        ensures
            r == Some(self@.len() as usize),
    {
        proof {
            use_type_invariant(self);
        }
        Some(self.items.len() - self.position)
    }
}

/// Where the reading of a keyed collection stands: the entries not yet
/// taken up, and the halves of the entry taken up last that have not been
/// given out.
pub struct Cursor<K> {
    pub rest: Seq<(K, ValueView)>,
    pub key: Option<K>,
    pub value: Option<ValueView>,
}

/// Takes up the next entry, if one is left: both its halves wait to be
/// given out.
pub open spec fn advanced<K>(c: Cursor<K>) -> Cursor<K> {
    if c.rest.len() > 0 {
        Cursor { rest: c.rest.skip(1), key: Some(c.rest[0].0), value: Some(c.rest[0].1) }
    } else {
        c
    }
}

/// The cursor from which a key is given out: the next entry is taken up
/// where no key waits.
pub open spec fn ready_for_key<K>(c: Cursor<K>) -> Cursor<K> {
    if c.key is None {
        advanced(c)
    } else {
        c
    }
}

/// The cursor from which a value is given out: the next entry is taken up
/// where no value waits.
pub open spec fn ready_for_value<K>(c: Cursor<K>) -> Cursor<K> {
    if c.value is None {
        advanced(c)
    } else {
        c
    }
}

/// The entries of a mapping that have not been asked for yet.
pub struct ValueDeserializerMap<'lt> {
    entries: &'lt Vec<(Value, Value)>,
    position: usize,
    current_key: Option<&'lt Value>,
    current_value: Option<&'lt Value>,
}

impl<'lt> View for ValueDeserializerMap<'lt> {
    type V = Cursor<ValueView>;

    closed spec fn view(&self) -> Cursor<ValueView> {
        Cursor {
            rest: entries_view(self.entries@).skip(self.position as int),
            key: match self.current_key {
                Some(k) => Some(k@),
                None => None,
            },
            value: match self.current_value {
                Some(v) => Some(v@),
                None => None,
            },
        }
    }
}

impl<'lt> ValueDeserializerMap<'lt> {
    #[verifier::type_invariant]
    spec fn inv(self) -> bool {
        self.position <= self.entries@.len()
    }

    fn new(entries: &'lt Vec<(Value, Value)>) -> (r: Self)
        ensures
            r@ == (Cursor { rest: entries_view(entries@), key: None, value: None }),
    {
        let r = ValueDeserializerMap {
            entries,
            position: 0,
            current_key: None,
            current_value: None,
        };
        assert(r@.rest =~= entries_view(entries@));
        r
    }

    /// Takes up the next entry, if one is left.
    pub fn next(&mut self)
        ensures
            final(self)@ == advanced(old(self)@),
    {
        proof {
            use_type_invariant(&*self);
        }
        if self.position < self.entries.len() {
            let entry = &self.entries[self.position];
            self.current_key = Some(&entry.0);
            self.current_value = Some(&entry.1);
            self.position = self.position + 1;
            assert(self@.rest =~= old(self)@.rest.skip(1));
        }
    }

    /// The next key, or `None` when no entry is left.
    pub fn next_key(&mut self) -> (r: Option<&'lt Value>)
        ensures
            match r {
                Some(k) => ready_for_key(old(self)@).key == Some(k@),
                None => ready_for_key(old(self)@).key is None,
            },
            final(self)@ == (Cursor { key: None, ..ready_for_key(old(self)@) }),
    {
        if self.current_key.is_none() {
            self.next();
        }
        proof {
            use_type_invariant(&*self);
        }
        let key = self.current_key;
        self.current_key = None;
        key
    }

    /// The next value. It fails where no value waits and no entry is
    /// left.
    pub fn next_value(&mut self) -> (r: Result<&'lt Value, ValueDeserializerError>)
        ensures
            match r {
                Ok(v) => ready_for_value(old(self)@).value == Some(v@),
                Err(e) => ready_for_value(old(self)@).value is None && e is MapProtocol,
            },
            final(self)@ == (Cursor { value: None, ..ready_for_value(old(self)@) }),
    {
        if self.current_value.is_none() {
            self.next();
        }
        proof {
            use_type_invariant(&*self);
        }
        let value = self.current_value;
        self.current_value = None;
        match value {
            None => Err(ValueDeserializerError::MapProtocol),
            Some(value) => Ok(value),
        }
    }
}

/// The fields of a struct that have not been asked for yet.
pub struct ValueDeserializerStruct<'lt> {
    fields: &'lt Vec<(Identifier, Value)>,
    position: usize,
    current_key: Option<&'lt Identifier>,
    current_value: Option<&'lt Value>,
}

impl<'lt> View for ValueDeserializerStruct<'lt> {
    type V = Cursor<Seq<char>>;

    closed spec fn view(&self) -> Cursor<Seq<char>> {
        Cursor {
            rest: fields_view(self.fields@).skip(self.position as int),
            key: match self.current_key {
                Some(k) => Some(k@),
                None => None,
            },
            value: match self.current_value {
                Some(v) => Some(v@),
                None => None,
            },
        }
    }
}

impl<'lt> ValueDeserializerStruct<'lt> {
    #[verifier::type_invariant]
    spec fn inv(self) -> bool {
        self.position <= self.fields@.len()
    }

    fn new(fields: &'lt Vec<(Identifier, Value)>) -> (r: Self)
        ensures
            r@ == (Cursor { rest: fields_view(fields@), key: None, value: None }),
    {
        let r = ValueDeserializerStruct {
            fields,
            position: 0,
            current_key: None,
            current_value: None,
        };
        assert(r@.rest =~= fields_view(fields@));
        r
    }

    /// Takes up the next field, if one is left.
    pub fn next(&mut self)
        ensures
            final(self)@ == advanced(old(self)@),
    {
        proof {
            use_type_invariant(&*self);
        }
        if self.position < self.fields.len() {
            let entry = &self.fields[self.position];
            self.current_key = Some(&entry.0);
            self.current_value = Some(&entry.1);
            self.position = self.position + 1;
            assert(self@.rest =~= old(self)@.rest.skip(1));
        }
    }

    /// The name of the next field, as the value of a type of that name, or
    /// `None` when no field is left.
    pub fn next_key(&mut self) -> (r: Option<Value>)
        ensures
            match r {
                Some(k) => ready_for_key(old(self)@).key is Some && k@ == name_value(
                    ready_for_key(old(self)@).key->0,
                ),
                None => ready_for_key(old(self)@).key is None,
            },
            final(self)@ == (Cursor { key: None, ..ready_for_key(old(self)@) }),
    {
        if self.current_key.is_none() {
            self.next();
        }
        proof {
            use_type_invariant(&*self);
        }
        let key = self.current_key;
        self.current_key = None;
        match key {
            None => None,
            Some(name) => Some(Value::Type(Type::from_name(name.as_str()))),
        }
    }

    /// The value of the next field. It fails where no value waits and no
    /// field is left.
    pub fn next_value(&mut self) -> (r: Result<&'lt Value, ValueDeserializerError>)
        ensures
            match r {
                Ok(v) => ready_for_value(old(self)@).value == Some(v@),
                Err(e) => ready_for_value(old(self)@).value is None && e is MapProtocol,
            },
            final(self)@ == (Cursor { value: None, ..ready_for_value(old(self)@) }),
    {
        if self.current_value.is_none() {
            self.next();
        }
        proof {
            use_type_invariant(&*self);
        }
        let value = self.current_value;
        self.current_value = None;
        match value {
            None => Err(ValueDeserializerError::MapProtocol),
            Some(value) => Ok(value),
        }
    }
}

/// The decoder of a variant of an enum.
pub struct ValueDeserializerEnum<'lt> {
    pub value: &'lt Value,
}

impl<'lt> ValueDeserializerEnum<'lt> {
    /// The name of the variant: the name that the value carries.
    pub fn variant_seed(&self) -> (r: Result<&'lt str, ValueDeserializerError>)
        ensures
            match r {
                Ok(s) => decoded_identifier(self.value@) == Ok::<
                    Seq<char>,
                    ValueDeserializerError,
                >(s@),
                Err(e) => decoded_identifier(self.value@) == Err::<
                    Seq<char>,
                    ValueDeserializerError,
                >(e),
            },
    {
        ValueDeserializer { value: self.value }.deserialize_identifier()
    }

    /// A variant without payload asks for nothing more.
    pub fn unit_variant(self) -> (r: Result<(), ValueDeserializerError>)
        ensures
            r is Ok,
    {
        Ok(())
    }

    /// The one field of a variant with one field.
    pub fn newtype_variant_seed(self) -> (r: Result<&'lt Value, ValueDeserializerError>)
        ensures
            match r {
                Ok(v) => decoded_newtype(self.value@) == Ok::<ValueView, ValueDeserializerError>(
                    v@,
                ),
                Err(e) => decoded_newtype(self.value@) == Err::<
                    ValueView,
                    ValueDeserializerError,
                >(e),
            },
    {
        match self.value {
            Value::TupleStruct(_, fields) => {
                assert(values_view(fields@).len() == fields@.len());
                if fields.len() != 1 {
                    return Err(ValueDeserializerError::NotNewtype);
                }
                assert(values_view(fields@)[0] == fields@[0]@);
                Ok(&fields[0])
            },
            _ => Err(
                ValueDeserializerError::ShapeMismatch {
                    expected: ValueKind::TupleStruct,
                    found: self.value.kind(),
                },
            ),
        }
    }

    /// The fields of a variant with unnamed fields.
    pub fn tuple_variant(self, len: usize) -> (r: Result<
        ValueDeserializerSequence<'lt>,
        ValueDeserializerError,
    >)
        ensures
            match r {
                Ok(access) => decoded_tuple_struct(self.value@) == Ok::<
                    Seq<ValueView>,
                    ValueDeserializerError,
                >(access@),
                Err(e) => decoded_tuple_struct(self.value@) == Err::<
                    Seq<ValueView>,
                    ValueDeserializerError,
                >(e),
            },
    {
        ValueDeserializer { value: self.value }.deserialize_tuple_struct("", len)
    }

    /// The fields of a variant with named fields.
    pub fn struct_variant(self) -> (r: Result<
        ValueDeserializerStruct<'lt>,
        ValueDeserializerError,
    >)
        ensures
            match r {
                Ok(access) => decoded_struct(self.value@) == Ok::<
                    Seq<(Seq<char>, ValueView)>,
                    ValueDeserializerError,
                >(access@.rest) && access@.key is None && access@.value is None,
                Err(e) => decoded_struct(self.value@) == Err::<
                    Seq<(Seq<char>, ValueView)>,
                    ValueDeserializerError,
                >(e),
            },
    {
        ValueDeserializer { value: self.value }.deserialize_struct("")
    }
}

} // verus!
