//! What holds of the encoder, the decoder, the printers and the parser
//! together.

use crate::value::deserializer::{
    decoded_bool, decoded_byte_string, decoded_char, decoded_identifier, decoded_integer,
    decoded_map, decoded_newtype, decoded_option, decoded_seq, decoded_str, decoded_struct,
    decoded_tuple, decoded_tuple_struct, decoded_unit_struct, ValueDeserializerError,
};
use crate::value::bytes::{base64_bytes, base64_text, decodable_len};
use crate::value::grammar::{
    digits_end, is_digit, none_word, parsed_value, ParseError, MAX_DEPTH,
};
use crate::value::number::{
    decimal, integer_text, lemma_decimal_value, lemma_integer_text_value,
};
use crate::value::parsed::lemma_parsed_printable;
use crate::value::printer::{rendered, Layout};
use crate::value::roundtrip::{
    fits_depth, ident_ok, layout_ok, lemma_text_round_trip, number_ok, plain_path_ok,
    printable, segment_ok, type_path_ok,
};
use crate::value::serializer::{
    encoded_bytes, encoded_integer, encoded_unit_struct, encoded_unit_variant,
};
use crate::value::types::{plain_pair, plain_path, SegmentView};
use crate::value::ValueView;
use vstd::prelude::*;

verus! {

/// A truth value, a character and a text are decoded as they were
/// encoded, and so is the unit.
pub proof fn lemma_scalars_round_trip(b: bool, c: char, text: Seq<char>)
    ensures
        decoded_bool(ValueView::Bool(b)) == Ok::<bool, ValueDeserializerError>(b),
        decoded_char(ValueView::Char(c)) == Ok::<char, ValueDeserializerError>(c),
        decoded_str(ValueView::String(text)) == Ok::<Seq<char>, ValueDeserializerError>(text),
{
}

/// An integer is decoded as it was encoded, by every integer type that
/// holds it.
pub proof fn lemma_integer_round_trip(n: int, signed: bool, min: int, max: int)
    requires
        min <= n <= max,
        signed || n >= 0,
    ensures
        decoded_integer(encoded_integer(n), signed, min, max) == Ok::<
            int,
            ValueDeserializerError,
        >(n),
{
    lemma_integer_text_value(n);
}

/// Bytes are decoded as they were encoded, where the decoder gives back
/// what the encoder was given and the text fits the machine.
pub proof fn lemma_bytes_round_trip(bytes: Seq<u8>)
    requires
        base64_bytes(base64_text(bytes)) == Some(bytes),
        decodable_len(vstd::utf8::encode_utf8(base64_text(bytes)).len()),
    ensures
        decoded_byte_string(encoded_bytes(bytes)) == Ok::<Seq<u8>, ValueDeserializerError>(
            bytes,
        ),
{
}

/// An option is decoded as it was encoded.
pub proof fn lemma_option_round_trip(inner: ValueView)
    ensures
        decoded_option(ValueView::Option(None)) == Ok::<
            Option<ValueView>,
            ValueDeserializerError,
        >(None),
        decoded_option(ValueView::Option(Some(Box::new(inner)))) == Ok::<
            Option<ValueView>,
            ValueDeserializerError,
        >(Some(inner)),
{
}

/// The elements of a list, of a tuple and of a tuple struct are decoded
/// in the order in which they were encoded.
pub proof fn lemma_sequences_round_trip(path: Seq<SegmentView>, items: Seq<ValueView>)
    ensures
        decoded_seq(ValueView::List(items)) == Ok::<Seq<ValueView>, ValueDeserializerError>(
            items,
        ),
        decoded_tuple(ValueView::Tuple(items)) == Ok::<Seq<ValueView>, ValueDeserializerError>(
            items,
        ),
        decoded_tuple_struct(ValueView::TupleStruct(path, items)) == Ok::<
            Seq<ValueView>,
            ValueDeserializerError,
        >(items),
{
}

/// The entries of a mapping and the fields of a struct are decoded as
/// they are stored.
pub proof fn lemma_keyed_round_trip(
    path: Seq<SegmentView>,
    entries: Seq<(ValueView, ValueView)>,
    fields: Seq<(Seq<char>, ValueView)>,
)
    ensures
        decoded_map(ValueView::Mapping(entries)) == Ok::<
            Seq<(ValueView, ValueView)>,
            ValueDeserializerError,
        >(entries),
        decoded_struct(ValueView::Struct(path, fields)) == Ok::<
            Seq<(Seq<char>, ValueView)>,
            ValueDeserializerError,
        >(fields),
{
}

/// The variant of an enum is found again by its name, whatever its
/// payload: none, one field, unnamed fields or named fields.
pub proof fn lemma_variant_round_trip(
    name: Seq<char>,
    variant: Seq<char>,
    inner: ValueView,
    items: Seq<ValueView>,
    fields: Seq<(Seq<char>, ValueView)>,
)
    ensures
        decoded_identifier(encoded_unit_variant(name, variant)) == Ok::<
            Seq<char>,
            ValueDeserializerError,
        >(variant),
        decoded_identifier(ValueView::TupleStruct(plain_pair(name, variant), items)) == Ok::<
            Seq<char>,
            ValueDeserializerError,
        >(variant),
        decoded_identifier(ValueView::Struct(plain_pair(name, variant), fields)) == Ok::<
            Seq<char>,
            ValueDeserializerError,
        >(variant),
        decoded_newtype(ValueView::TupleStruct(plain_pair(name, variant), seq![inner])) == Ok::<
            ValueView,
            ValueDeserializerError,
        >(inner),
{
}

/// A type without payload is decoded as it was encoded.
pub proof fn lemma_unit_struct_round_trip(name: Seq<char>)
    ensures
        decoded_unit_struct(encoded_unit_struct(name)) == Ok::<(), ValueDeserializerError>(()),
{
}

proof fn lemma_digits_end_all(t: Seq<char>, a: int)
    requires
        0 <= a <= t.len(),
        forall|j: int| a <= j < t.len() ==> is_digit(#[trigger] t[j]),
    ensures
        digits_end(t, a) == t.len(),
    decreases t.len() - a,
{
    if a < t.len() {
        lemma_digits_end_all(t, a + 1);
    }
}

/// The text of an integer is a number of the grammar.
pub proof fn lemma_integer_text_is_number(n: int)
    ensures
        number_ok(integer_text(n)),
        printable(encoded_integer(n)),
{
    let t = integer_text(n);
    if n < 0 {
        let d = decimal((-n) as nat);
        lemma_decimal_value((-n) as nat);
        assert forall|j: int| 1 <= j < t.len() implies is_digit(#[trigger] t[j]) by {
            assert(t[j] == d[j - 1]);
        }
        lemma_digits_end_all(t, 1);
    } else {
        lemma_decimal_value(n as nat);
        lemma_digits_end_all(t, 0);
    }
}

/// An integer comes back through its text: what was encoded, printed and
/// parsed is decoded as the integer.
pub proof fn lemma_integer_via_text(l: Layout, n: int, signed: bool, min: int, max: int)
    requires
        layout_ok(l),
        min <= n <= max,
        signed || n >= 0,
    ensures
        parsed_value(rendered(l, encoded_integer(n))) == Ok::<ValueView, ParseError>(
            encoded_integer(n),
        ),
        decoded_integer(encoded_integer(n), signed, min, max) == Ok::<
            int,
            ValueDeserializerError,
        >(n),
{
    lemma_integer_text_is_number(n);
    lemma_text_round_trip(l, encoded_integer(n));
    lemma_integer_round_trip(n, signed, min, max);
}

/// A text, a character and bytes come back through their text, whatever
/// they hold.
pub proof fn lemma_text_via_text(l: Layout, text: Seq<char>, c: char, bytes: Seq<u8>)
    requires
        layout_ok(l),
    ensures
        parsed_value(rendered(l, ValueView::String(text))) == Ok::<ValueView, ParseError>(
            ValueView::String(text),
        ),
        parsed_value(rendered(l, ValueView::Char(c))) == Ok::<ValueView, ParseError>(
            ValueView::Char(c),
        ),
        parsed_value(rendered(l, encoded_bytes(bytes))) == Ok::<ValueView, ParseError>(
            encoded_bytes(bytes),
        ),
{
    lemma_text_round_trip(l, ValueView::String(text));
    lemma_text_round_trip(l, ValueView::Char(c));
    lemma_text_round_trip(l, encoded_bytes(bytes));
}

/// Whatever is decoded from a value is decoded from what its text parses
/// to, for the values whose text parses back.
pub proof fn lemma_via_text(l: Layout, v: ValueView)
    requires
        layout_ok(l),
        printable(v),
        fits_depth(v, MAX_DEPTH as nat),
    ensures
        parsed_value(rendered(l, v)) matches Ok(w) && w == v,
{
    lemma_text_round_trip(l, v);
}

/// Number text preservation: a number prints as its text, and its text
/// parses to the number that holds that text.
pub proof fn lemma_number_text_preserved(l: Layout, text: Seq<char>)
    requires
        layout_ok(l),
        number_ok(text),
    ensures
        rendered(l, ValueView::Number(text)) == text,
        parsed_value(text) == Ok::<ValueView, ParseError>(ValueView::Number(text)),
{
    lemma_text_round_trip(l, ValueView::Number(text));
}


/// The values whose text parses back to them are the printable values
/// that are nested no deeper than the parser goes, and no others.
pub proof fn lemma_round_trip_exact(l: Layout, v: ValueView)
    requires
        layout_ok(l),
    ensures
        parsed_value(rendered(l, v)) == Ok::<ValueView, ParseError>(v) <==> printable(v)
            && fits_depth(v, MAX_DEPTH as nat),
{
    if printable(v) && fits_depth(v, MAX_DEPTH as nat) {
        lemma_text_round_trip(l, v);
    }
    lemma_parsed_printable(rendered(l, v));
}

/// What was parsed prints to a text that parses to the same value.
pub proof fn lemma_parsed_prints_back(l: Layout, s: Seq<char>)
    requires
        layout_ok(l),
    ensures
        parsed_value(s) matches Ok(v) ==> parsed_value(rendered(l, v)) == Ok::<
            ValueView,
            ParseError,
        >(v),
{
    lemma_parsed_printable(s);
    match parsed_value(s) {
        Ok(v) => {
            lemma_text_round_trip(l, v);
        },
        Err(_) => {},
    }
}

/// What the encoder makes of names and of printable parts is printable.
pub proof fn lemma_encoded_printable(
    name: Seq<char>,
    variant: Seq<char>,
    inner: ValueView,
    items: Seq<ValueView>,
)
    requires
        ident_ok(name),
        ident_ok(variant),
        printable(inner),
        forall|i: int| 0 <= i < items.len() ==> printable(#[trigger] items[i]),
    ensures
        printable(encoded_unit_variant(name, variant)),
        name != none_word() ==> printable(encoded_unit_struct(name)),
        printable(ValueView::TupleStruct(plain_pair(name, variant), seq![inner])),
        printable(ValueView::TupleStruct(plain_pair(name, variant), items)),
        printable(ValueView::Option(Some(Box::new(inner)))),
        printable(ValueView::List(items)),
        items.len() > 0 ==> printable(ValueView::Tuple(items)),
{
    let pair = plain_pair(name, variant);
    let single = plain_path(name);
    assert(plain_path_ok(pair));
    assert(plain_path_ok(single));
    assert(type_path_ok(pair)) by {
        assert forall|j: int| 0 <= j < pair.len() implies segment_ok(
            #[trigger] pair[j],
        ) by {}
    }
    assert(type_path_ok(single)) by {
        assert forall|j: int| 0 <= j < single.len() implies segment_ok(
            #[trigger] single[j],
        ) by {}
    }
    if name != none_word() {
        assert(single[0].identifier == name);
    }
    assert(seq![inner][0] == inner);
}

} // verus!
