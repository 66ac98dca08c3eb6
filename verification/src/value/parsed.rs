//! What the parser gives is what the printers' text parses back to: every
//! parsed value is printable, and nested no deeper than the parser went.

use crate::value::grammar::{
    arguments_at, at, digits_end, entries_at, field_ahead, fields_at, has_generics, ident_end,
    is_digit, is_ident_part, is_ident_start, is_name, is_sign, items_at, lemma_digits_end,
    lemma_ident_end, lemma_skip_space, named_at, none_word, number_end, parsed_value,
    path_at, plain_path_at, plain_segment_at, segment_at, skip_space, some_word, value_at,
    UnsupportedShape, MAX_DEPTH,
};
use crate::value::roundtrip::{
    argument_ok, fits_depth, ident_ok, name_ok, number_ok, plain_path_ok, printable,
    segment_ok, type_path_ok,
};
use crate::value::sorted::{collected, lemma_collected_members, lemma_collected_sorted};
use crate::value::types::{plain_segment, SegmentView, TypeView};
use crate::value::{by_name, by_value, ValueView};
use vstd::prelude::*;

verus! {

proof fn lemma_digits_sub(s: Seq<char>, j: int, e: int, a: int)
    requires
        0 <= j <= a <= e <= s.len(),
    ensures
        digits_end(s.subrange(j, e), a - j) == (if digits_end(s, a) < e {
            digits_end(s, a)
        } else {
            e
        }) - j,
    decreases e - a,
{
    let t = s.subrange(j, e);
    lemma_digits_end(s, a);
    if a < e {
        assert(t[a - j] == s[a]);
        if is_digit(s[a]) {
            lemma_digits_sub(s, j, e, a + 1);
        }
    }
}

/// The text of a number that was read is a number from its first
/// character to its last.
pub proof fn lemma_number_read(s: Seq<char>, j: int)
    requires
        0 <= j <= s.len(),
    ensures
        number_end(s, j) matches Some(e) ==> j < e <= s.len() && number_ok(s.subrange(j, e)),
{
    if number_end(s, j) is Some {
        let e = number_end(s, j)->0;
        crate::value::grammar::lemma_number_end(s, j);
        let t = s.subrange(j, e);
        let a = if j < s.len() && is_sign(s[j]) {
            j + 1
        } else {
            j
        };
        lemma_digits_end(s, a);
        let b = digits_end(s, a);
        if b + 1 <= s.len() {
            lemma_digits_end(s, b + 1);
        }
        let c = if at(s, b, '.') && digits_end(s, b + 1) > b + 1 {
            digits_end(s, b + 1)
        } else {
            b
        };
        if c + 1 <= s.len() {
            lemma_digits_end(s, c + 1);
        }
        if c + 2 <= s.len() {
            lemma_digits_end(s, c + 2);
        }
        let d = if at(s, c, 'e') || at(s, c, 'E') {
            if c + 1 < s.len() && is_sign(s[c + 1]) {
                c + 2
            } else {
                c + 1
            }
        } else {
            c
        };
        assert(c <= e);
        assert(t[0] == s[j]);
        lemma_digits_sub(s, j, e, a);
        if b < e {
            assert(t[b - j] == s[b]);
            lemma_digits_sub(s, j, e, b + 1);
        }
        if c < e {
            assert(t[c - j] == s[c]);
            assert(e > d);
            if c + 1 < e {
                assert(t[c + 1 - j] == s[c + 1]);
            }
            lemma_digits_sub(s, j, e, d);
        }
        assert(at(t, b - j, '.') == (at(s, b, '.') && b < e));
        assert(at(t, c - j, 'e') == (at(s, c, 'e') && c < e));
        assert(at(t, c - j, 'E') == (at(s, c, 'E') && c < e));
    }
}

/// A name that was read is a name.
pub proof fn lemma_ident_read(s: Seq<char>, j: int)
    requires
        0 <= j < s.len(),
        is_ident_start(s[j]),
    ensures
        j < ident_end(s, j) <= s.len(),
        ident_ok(s.subrange(j, ident_end(s, j))),
{
    lemma_ident_end(s, j);
    lemma_ident_end(s, j + 1);
    let k = ident_end(s, j);
    let t = s.subrange(j, k);
    assert(t[0] == s[j]);
    assert forall|n: int| 0 <= n < t.len() implies is_ident_part(#[trigger] t[n]) by {
        assert(t[n] == s[j + n]);
    }
}

proof fn lemma_plain_segment_read(s: Seq<char>, i: int, denied: UnsupportedShape)
    requires
        0 <= i <= s.len(),
    ensures
        plain_segment_at(s, i, denied) matches Ok((name, _)) ==> ident_ok(name),
{
    lemma_skip_space(s, i);
    let j = skip_space(s, i);
    if j < s.len() && is_ident_start(s[j]) {
        lemma_ident_read(s, j);
    }
}

/// A path without type arguments that was read can be written down.
pub proof fn lemma_plain_path_read(s: Seq<char>, i: int, denied: UnsupportedShape)
    requires
        0 <= i <= s.len(),
    ensures
        plain_path_at(s, i, denied) matches Ok((path, _)) ==> plain_path_ok(path),
    decreases s.len() - i,
{
    lemma_plain_segment_read(s, i, denied);
    crate::value::grammar::lemma_plain_segment_at(s, i, denied);
    match plain_segment_at(s, i, denied) {
        Err(_) => {},
        Ok((name, k)) => {
            lemma_skip_space(s, k);
            let k2 = skip_space(s, k);
            if at(s, k2, ':') && at(s, k2 + 1, ':') {
                lemma_plain_path_read(s, k2 + 2, denied);
                match plain_path_at(s, k2 + 2, denied) {
                    Err(_) => {},
                    Ok((rest, _)) => {
                        let all = seq![plain_segment(name)] + rest;
                        assert forall|n: int| 0 <= n < all.len() implies (#[trigger] all[n]).generics
                            is None && ident_ok(all[n].identifier) by {
                            if n > 0 {
                                assert(all[n] == rest[n - 1]);
                            }
                        }
                    },
                }
            } else {
                assert(seq![plain_segment(name)][0] == plain_segment(name));
            }
        },
    }
}

proof fn lemma_arguments_read(s: Seq<char>, i: int)
    requires
        0 <= i <= s.len(),
    ensures
        arguments_at(s, i) matches Ok((arguments, _)) ==> arguments.len() > 0 && forall|
            n: int,
        | 0 <= n < arguments.len() ==> argument_ok(#[trigger] arguments[n]),
    decreases s.len() - i,
{
    lemma_plain_path_read(s, i, UnsupportedShape::NestedGenerics);
    crate::value::grammar::lemma_plain_path_at(s, i, UnsupportedShape::NestedGenerics);
    match plain_path_at(s, i, UnsupportedShape::NestedGenerics) {
        Err(_) => {},
        Ok((path, k)) => {
            lemma_skip_space(s, k);
            let k2 = skip_space(s, k);
            if at(s, k2, ',') {
                lemma_arguments_read(s, k2 + 1);
                match arguments_at(s, k2 + 1) {
                    Err(_) => {},
                    Ok((rest, _)) => {
                        let all = seq![TypeView::Path(path)] + rest;
                        assert forall|n: int| 0 <= n < all.len() implies argument_ok(
                            #[trigger] all[n],
                        ) by {
                            if n > 0 {
                                assert(all[n] == rest[n - 1]);
                            }
                        }
                    },
                }
            } else if at(s, k2, '>') {
                assert(seq![TypeView::Path(path)][0] == TypeView::Path(path));
            }
        },
    }
}

proof fn lemma_segment_read(s: Seq<char>, i: int)
    requires
        0 <= i <= s.len(),
    ensures
        segment_at(s, i) matches Ok((segment, _)) ==> segment_ok(segment),
{
    lemma_skip_space(s, i);
    let j = skip_space(s, i);
    if j < s.len() && is_ident_start(s[j]) {
        lemma_ident_read(s, j);
        let k = ident_end(s, j);
        lemma_skip_space(s, k);
        let k2 = skip_space(s, k);
        if at(s, k2, '<') {
            lemma_arguments_read(s, k2 + 1);
        }
    }
}

/// A path that was read can be written down.
pub proof fn lemma_path_read(s: Seq<char>, i: int)
    requires
        0 <= i <= s.len(),
    ensures
        path_at(s, i) matches Ok((path, _)) ==> type_path_ok(path),
    decreases s.len() - i,
{
    lemma_segment_read(s, i);
    crate::value::grammar::lemma_segment_at(s, i);
    match segment_at(s, i) {
        Err(_) => {},
        Ok((segment, k)) => {
            lemma_skip_space(s, k);
            let k2 = skip_space(s, k);
            if at(s, k2, ':') && at(s, k2 + 1, ':') {
                lemma_path_read(s, k2 + 2);
                match path_at(s, k2 + 2) {
                    Err(_) => {},
                    Ok((rest, _)) => {
                        let all = seq![segment] + rest;
                        assert forall|n: int| 0 <= n < all.len() implies segment_ok(
                            #[trigger] all[n],
                        ) by {
                            if n > 0 {
                                assert(all[n] == rest[n - 1]);
                            }
                        }
                    },
                }
            } else {
                assert(seq![segment][0] == segment);
            }
        },
    }
}

/// Every value of `items` is printable and nested at most `depth` deep.
pub open spec fn all_printable(items: Seq<ValueView>, depth: nat) -> bool {
    forall|n: int|
        0 <= n < items.len() ==> printable(#[trigger] items[n]) && fits_depth(items[n], depth)
}

/// Every key and every value of `entries` is printable and nested at most
/// `depth` deep.
pub open spec fn entries_printable(entries: Seq<(ValueView, ValueView)>, depth: nat) -> bool {
    forall|n: int|
        0 <= n < entries.len() ==> printable((#[trigger] entries[n]).0) && printable(
            entries[n].1,
        ) && fits_depth(entries[n].0, depth) && fits_depth(entries[n].1, depth)
}

/// Every field of `fields` has a name for its name, and a value that is
/// printable and nested at most `depth` deep.
pub open spec fn fields_printable(fields: Seq<(Seq<char>, ValueView)>, depth: nat) -> bool {
    forall|n: int|
        0 <= n < fields.len() ==> ident_ok((#[trigger] fields[n]).0) && printable(fields[n].1)
            && fits_depth(fields[n].1, depth)
}

proof fn lemma_collected_entries_printable(entries: Seq<(ValueView, ValueView)>, depth: nat)
    requires
        entries.len() > 0 ==> depth > 0,
        entries_printable(entries, (depth - 1) as nat),
    ensures
        printable(ValueView::Mapping(collected(entries, by_value(), entries.len()))),
        fits_depth(ValueView::Mapping(collected(entries, by_value(), entries.len())), depth),
{
    let c = collected(entries, by_value(), entries.len());
    lemma_collected_sorted(entries, by_value(), entries.len());
    lemma_collected_members(entries, by_value(), entries.len());
    assert forall|n: int| 0 <= n < c.len() implies printable((#[trigger] c[n]).0) && printable(
        c[n].1,
    ) && fits_depth(c[n].0, (depth - 1) as nat) && fits_depth(c[n].1, (depth - 1) as nat) by {
        let j = choose|j: int| 0 <= j < entries.len() && entries[j] == c[n];
        assert(printable(entries[j].0));
    }
    if c.len() > 0 {
        let j = choose|j: int| 0 <= j < entries.len() && entries[j] == c[0];
    }
}

proof fn lemma_collected_fields_printable(
    path: Seq<SegmentView>,
    fields: Seq<(Seq<char>, ValueView)>,
    depth: nat,
)
    requires
        name_ok(path),
        fields.len() > 0,
        depth > 0,
        fields_printable(fields, (depth - 1) as nat),
    ensures
        printable(ValueView::Struct(path, collected(fields, by_name(), fields.len()))),
        fits_depth(ValueView::Struct(path, collected(fields, by_name(), fields.len())), depth),
{
    let c = collected(fields, by_name(), fields.len());
    lemma_collected_sorted(fields, by_name(), fields.len());
    lemma_collected_members(fields, by_name(), fields.len());
    assert forall|n: int| 0 <= n < c.len() implies ident_ok((#[trigger] c[n]).0) && printable(
        c[n].1,
    ) && fits_depth(c[n].1, (depth - 1) as nat) by {
        let j = choose|j: int| 0 <= j < fields.len() && fields[j] == c[n];
        assert(printable(fields[j].1));
    }
    lemma_collected_nonempty(fields, by_name(), fields.len());
}

proof fn lemma_collected_nonempty<K, V>(
    entries: Seq<(K, V)>,
    shape_of: spec_fn(K) -> crate::value::shape::Shape,
    n: nat,
)
    requires
        0 < n <= entries.len(),
    ensures
        collected(entries, shape_of, n).len() > 0,
{
    let prev = collected(entries, shape_of, (n - 1) as nat);
    crate::value::sorted::lemma_insertion_point(
        prev,
        shape_of,
        shape_of(entries[n - 1].0),
        0,
    );
}

/// What is read as a value is printable, and nested no deeper than the
/// parser was allowed to go.
pub proof fn lemma_value_at_printable(s: Seq<char>, i: int, depth: nat)
    ensures
        value_at(s, i, depth) matches Ok((v, _)) ==> printable(v) && fits_depth(v, depth),
    decreases s.len() - i, 1nat,
{
    let j = skip_space(s, i);
    if 0 <= i <= j < s.len() {
        lemma_skip_space(s, i);
        if s[j] == '(' {
            lemma_items_at_printable(s, j + 1, ')', depth);
        } else if s[j] == '[' {
            lemma_items_at_printable(s, j + 1, ']', depth);
        } else if s[j] == '{' {
            lemma_entries_at_printable(s, j + 1, depth);
            match entries_at(s, j + 1, depth) {
                Ok((entries, _)) => {
                    lemma_collected_entries_printable(entries, depth);
                },
                Err(_) => {},
            }
        } else if s[j] == '"' || s[j] == '\'' {
        } else if is_sign(s[j]) || is_digit(s[j]) {
            lemma_number_read(s, j);
        } else if is_ident_start(s[j]) {
            lemma_named_at_printable(s, j, depth);
        }
    }
}

proof fn lemma_named_at_printable(s: Seq<char>, j: int, depth: nat)
    requires
        0 <= j < s.len(),
    ensures
        named_at(s, j, depth) matches Ok((v, _)) ==> printable(v) && fits_depth(v, depth),
    decreases s.len() - j, 0nat,
{
    lemma_path_read(s, j);
    match path_at(s, j) {
        Err(_) => {},
        Ok((path, k)) => {
            let k2 = skip_space(s, k);
            if at(s, k2, '(') {
                if !has_generics(path) && path.len() <= 2 && j < k <= k2 {
                    assert(plain_path_ok(path)) by {
                        assert forall|n: int| 0 <= n < path.len() implies (#[trigger] path[n]).generics
                            is None && ident_ok(path[n].identifier) by {
                            assert(segment_ok(path[n]));
                        }
                    }
                    if field_ahead(s, k2 + 1) {
                        lemma_fields_at_printable(s, k2 + 1, depth);
                        match fields_at(s, k2 + 1, depth) {
                            Ok((fields, _)) => {
                                lemma_skip_space(s, k2 + 1);
                                lemma_collected_fields_printable(path, fields, depth);
                            },
                            Err(_) => {},
                        }
                    } else {
                        lemma_items_at_printable(s, k2 + 1, ')', depth);
                    }
                }
            }
        },
    }
}

proof fn lemma_items_at_printable(s: Seq<char>, i: int, close: char, depth: nat)
    ensures
        items_at(s, i, close, depth) matches Ok((items, _)) ==> (items.len() > 0 ==> depth > 0)
            && all_printable(items, (depth - 1) as nat),
    decreases s.len() - i, 2nat,
{
    let j = skip_space(s, i);
    if 0 <= i <= j < s.len() && s[j] != close && depth > 0 {
        lemma_value_at_printable(s, j, (depth - 1) as nat);
        match value_at(s, j, (depth - 1) as nat) {
            Err(_) => {},
            Ok((v, k)) => {
                let k2 = skip_space(s, k);
                if j < k <= k2 && at(s, k2, ',') {
                    lemma_items_at_printable(s, k2 + 1, close, depth);
                    match items_at(s, k2 + 1, close, depth) {
                        Ok((rest, _)) => {
                            let all = seq![v] + rest;
                            assert forall|n: int| 0 <= n < all.len() implies printable(
                                #[trigger] all[n],
                            ) && fits_depth(all[n], (depth - 1) as nat) by {
                                if n > 0 {
                                    assert(all[n] == rest[n - 1]);
                                }
                            }
                        },
                        Err(_) => {},
                    }
                }
            },
        }
    }
}

proof fn lemma_entries_at_printable(s: Seq<char>, i: int, depth: nat)
    ensures
        entries_at(s, i, depth) matches Ok((entries, _)) ==> (entries.len() > 0 ==> depth > 0)
            && entries_printable(entries, (depth - 1) as nat),
    decreases s.len() - i, 2nat,
{
    let j = skip_space(s, i);
    if 0 <= i <= j < s.len() && s[j] != '}' && depth > 0 {
        lemma_value_at_printable(s, j, (depth - 1) as nat);
        match value_at(s, j, (depth - 1) as nat) {
            Err(_) => {},
            Ok((key, k)) => {
                let k2 = skip_space(s, k);
                if j < k <= k2 && at(s, k2, ':') {
                    lemma_value_at_printable(s, k2 + 1, (depth - 1) as nat);
                    match value_at(s, k2 + 1, (depth - 1) as nat) {
                        Err(_) => {},
                        Ok((value, m)) => {
                            let m2 = skip_space(s, m);
                            if k2 < m <= m2 && at(s, m2, ',') {
                                lemma_entries_at_printable(s, m2 + 1, depth);
                                match entries_at(s, m2 + 1, depth) {
                                    Ok((rest, _)) => {
                                        let all = seq![(key, value)] + rest;
                                        assert forall|n: int| 0 <= n < all.len() implies printable(
                                            (#[trigger] all[n]).0,
                                        ) && printable(all[n].1) && fits_depth(
                                            all[n].0,
                                            (depth - 1) as nat,
                                        ) && fits_depth(all[n].1, (depth - 1) as nat) by {
                                            if n > 0 {
                                                assert(all[n] == rest[n - 1]);
                                            }
                                        }
                                    },
                                    Err(_) => {},
                                }
                            }
                        },
                    }
                }
            },
        }
    }
}

proof fn lemma_fields_at_printable(s: Seq<char>, i: int, depth: nat)
    ensures
        fields_at(s, i, depth) matches Ok((fields, _)) ==> (fields.len() > 0 ==> depth > 0)
            && fields_printable(fields, (depth - 1) as nat) && (field_ahead(s, i)
            ==> fields.len() > 0),
    decreases s.len() - i, 2nat,
{
    let j = skip_space(s, i);
    if 0 <= i <= j < s.len() && s[j] != ')' && is_ident_start(s[j]) {
        lemma_skip_space(s, i);
        lemma_ident_read(s, j);
        let k = ident_end(s, j);
        let k2 = skip_space(s, k);
        if j < k <= k2 && at(s, k2, ':') && depth > 0 {
            lemma_value_at_printable(s, k2 + 1, (depth - 1) as nat);
            match value_at(s, k2 + 1, (depth - 1) as nat) {
                Err(_) => {},
                Ok((value, m)) => {
                    let m2 = skip_space(s, m);
                    if k2 < m <= m2 && at(s, m2, ',') {
                        lemma_fields_at_printable(s, m2 + 1, depth);
                        match fields_at(s, m2 + 1, depth) {
                            Ok((rest, _)) => {
                                let all = seq![(s.subrange(j, k), value)] + rest;
                                assert forall|n: int| 0 <= n < all.len() implies ident_ok(
                                    (#[trigger] all[n]).0,
                                ) && printable(all[n].1) && fits_depth(
                                    all[n].1,
                                    (depth - 1) as nat,
                                ) by {
                                    if n > 0 {
                                        assert(all[n] == rest[n - 1]);
                                    }
                                }
                            },
                            Err(_) => {},
                        }
                    }
                },
            }
        }
    }
}

/// What a text parses to is printable, and nested no deeper than the
/// parser goes.
pub proof fn lemma_parsed_printable(s: Seq<char>)
    ensures
        parsed_value(s) matches Ok(v) ==> printable(v) && fits_depth(v, MAX_DEPTH as nat),
{
    lemma_value_at_printable(s, 0, MAX_DEPTH as nat);
}

} // verus!
