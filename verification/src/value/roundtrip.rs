//! What is printed parses back.
//!
//! The lemmas here follow the printed text of a value through the grammar:
//! first the tokens (whitespace, literals, numbers, names), then the
//! values themselves, by induction over their structure.

use crate::value::grammar::{
    arguments_at, at, digits_end, escape_value, ident_end, is_digit, is_ident_part,
    is_ident_start, is_sign, is_space, lemma_digits_end, lemma_skip_space, literal_end,
    number_end, path_at, plain_path_at, segment_at, skip_space, unescaped_at,
    unescaped_char, unescaped_text, EscapeError, ParseError, Parsed, UnsupportedShape,
};
use crate::value::grammar::{
    char_at, entries_at, field_ahead, fields_at, has_generics, is_name, items_at, list_at,
    map_at, named_at, named_struct_at, none_word, number_at, parsed_value, some_word,
    string_at, tuple_at, tuple_struct_at, value_at, MAX_DEPTH,
};
use crate::value::printer::{
    block_text, colon_text, compact_layout, deeper, delimited, escaped_char, escaped_text,
    indent_text, newline_text, pretty_layout, rendered, rendered_entries, rendered_fields,
    rendered_items, rendered_list, repeated, separator_text, some_text, Layout,
};
use crate::value::sorted::lemma_collected_of_sorted;
use crate::value::{by_name, by_value, keys_sorted, ValueView};
use crate::value::types::{
    path_text, plain_segment, segment_text, type_text, types_text, SegmentView, TypeView,
};
use vstd::prelude::*;

verus! {

/// The text `t` stands in `s` from position `i` on.
#[verifier::opaque]
pub open spec fn occurs(s: Seq<char>, i: int, t: Seq<char>) -> bool {
    0 <= i && i + t.len() <= s.len() && s.subrange(i, i + t.len()) == t
}

/// Where a text stands, its characters stand.
pub proof fn lemma_occurs_char(s: Seq<char>, i: int, t: Seq<char>, k: int)
    requires
        occurs(s, i, t),
        0 <= k < t.len(),
    ensures
        0 <= i + k < s.len(),
        s[i + k] == t[k],
{
    reveal(occurs);
    assert(s.subrange(i, i + t.len())[k] == s[i + k]);
}

/// Where a text stands, that stretch of the whole is the text.
pub proof fn lemma_occurs_sub(s: Seq<char>, i: int, t: Seq<char>)
    requires
        occurs(s, i, t),
    ensures
        0 <= i,
        i + t.len() <= s.len(),
        s.subrange(i, i + t.len()) == t,
{
    reveal(occurs);
}

/// A text stands in itself.
pub proof fn lemma_occurs_self(s: Seq<char>)
    ensures
        occurs(s, 0, s),
{
    reveal(occurs);
    assert(s.subrange(0, s.len() as int) =~= s);
}

/// Where a text of two parts stands, its parts stand one after the other.
pub proof fn lemma_occurs_split(s: Seq<char>, i: int, a: Seq<char>, b: Seq<char>)
    requires
        occurs(s, i, a + b),
    ensures
        occurs(s, i, a),
        occurs(s, i + a.len(), b),
{
    reveal(occurs);
    let t = a + b;
    assert(s.subrange(i, i + a.len()) =~= a) by {
        assert forall|k: int| 0 <= k < a.len() implies s.subrange(i, i + a.len())[k] == a[k] by {
            lemma_occurs_char(s, i, t, k);
        }
    }
    assert(s.subrange(i + a.len(), i + a.len() + b.len()) =~= b) by {
        assert forall|k: int| 0 <= k < b.len() implies s.subrange(
            i + a.len(),
            i + a.len() + b.len(),
        )[k] == b[k] by {
            lemma_occurs_char(s, i, t, a.len() + k);
        }
    }
}

/// A text of whitespace only.
pub open spec fn all_space(t: Seq<char>) -> bool {
    forall|k: int| 0 <= k < t.len() ==> is_space(#[trigger] t[k])
}

/// Whitespace is skipped.
pub proof fn lemma_skip_over(s: Seq<char>, i: int, w: Seq<char>)
    requires
        occurs(s, i, w),
        all_space(w),
    ensures
        skip_space(s, i) == skip_space(s, i + w.len()),
    decreases w.len(),
{
    if w.len() > 0 {
        lemma_occurs_char(s, i, w, 0);
        assert(is_space(w[0]));
        assert(w.take(1) + w.skip(1) =~= w);
        lemma_occurs_split(s, i, w.take(1), w.skip(1));
        assert(all_space(w.skip(1))) by {
            assert forall|k: int| 0 <= k < w.skip(1).len() implies is_space(
                #[trigger] w.skip(1)[k],
            ) by {
                assert(w.skip(1)[k] == w[k + 1]);
            }
        }
        lemma_skip_over(s, i + 1, w.skip(1));
    }
}

/// A layout whose indentation, where it is written, is whitespace.
pub open spec fn layout_ok(l: Layout) -> bool {
    l.pretty ==> all_space(l.indentation)
}

/// Copies of whitespace are whitespace.
pub proof fn lemma_repeated_space(w: Seq<char>, n: nat)
    requires
        all_space(w),
    ensures
        all_space(repeated(w, n)),
    decreases n,
{
    if n > 0 {
        lemma_repeated_space(w, (n - 1) as nat);
        assert forall|k: int| 0 <= k < repeated(w, n).len() implies is_space(
            #[trigger] repeated(w, n)[k],
        ) by {
            if k < w.len() {
                assert(repeated(w, n)[k] == w[k]);
            } else {
                assert(repeated(w, n)[k] == repeated(w, (n - 1) as nat)[k - w.len()]);
            }
        }
    }
}

/// What a layout writes at the start and at the end of a line is whitespace.
pub proof fn lemma_layout_space(l: Layout)
    requires
        layout_ok(l),
    ensures
        all_space(indent_text(l)),
        all_space(newline_text(l)),
        layout_ok(deeper(l)),
{
    if l.pretty {
        lemma_repeated_space(l.indentation, l.level as nat);
    }
}

/// A name: a letter or an underscore, then letters, digits and
/// underscores.
pub open spec fn ident_ok(name: Seq<char>) -> bool {
    &&& name.len() > 0
    &&& is_ident_start(name[0])
    &&& forall|k: int| 0 <= k < name.len() ==> is_ident_part(#[trigger] name[k])
}

/// A name is scanned to its end, where no character of a name follows it.
pub proof fn lemma_ident_scan(s: Seq<char>, i: int, name: Seq<char>, k: int)
    requires
        occurs(s, i, name),
        forall|j: int| 0 <= j < name.len() ==> is_ident_part(#[trigger] name[j]),
        0 <= k <= name.len(),
        i + name.len() < s.len() ==> !is_ident_part(s[i + name.len()]),
    ensures
        ident_end(s, i + k) == i + name.len(),
    decreases name.len() - k,
{
    if k < name.len() {
        lemma_occurs_char(s, i, name, k);
        assert(is_ident_part(name[k]));
        lemma_ident_scan(s, i, name, k + 1);
    }
}

/// The text of a string or a character literal has no unescaped delimiter
/// in it: the literal ends where the printer closed it.
pub proof fn lemma_literal_scan(s: Seq<char>, i: int, t: Seq<char>, k: nat, quote: char)
    requires
        quote == '"' || quote == '\'',
        k <= t.len(),
        occurs(s, i, escaped_text(t, quote, k) + seq![quote]),
    ensures
        literal_end(s, i, quote) == Some(i + escaped_text(t, quote, k).len()),
    decreases t.len() - k,
{
    let rest = escaped_text(t, quote, k);
    if k >= t.len() {
        lemma_occurs_char(s, i, rest + seq![quote], 0);
    } else {
        let c = t[k as int];
        let e = escaped_char(c, quote);
        let tail = escaped_text(t, quote, k + 1);
        assert(rest + seq![quote] =~= e + (tail + seq![quote]));
        lemma_occurs_split(s, i, e, tail + seq![quote]);
        lemma_occurs_char(s, i, e, 0);
        if e.len() == 2 {
            lemma_occurs_char(s, i, e, 1);
        }
        lemma_literal_scan(s, i + e.len(), t, k + 1, quote);
    }
}

/// Escape fidelity: what the printer wrote between the delimiters of a
/// literal reads back as the text it was given.
pub proof fn lemma_unescape_escaped(raw: Seq<char>, p: int, t: Seq<char>, k: nat, quote: char)
    requires
        quote == '"' || quote == '\'',
        k <= t.len(),
        occurs(raw, p, escaped_text(t, quote, k)),
        p + escaped_text(t, quote, k).len() == raw.len(),
    ensures
        unescaped_text(raw, p) == Ok::<Seq<char>, EscapeError>(t.skip(k as int)),
    decreases t.len() - k,
{
    if k >= t.len() {
        assert(t.skip(k as int) =~= Seq::empty());
    } else {
        let c = t[k as int];
        let e = escaped_char(c, quote);
        let tail = escaped_text(t, quote, k + 1);
        lemma_occurs_split(raw, p, e, tail);
        lemma_occurs_char(raw, p, e, 0);
        if e.len() == 2 {
            lemma_occurs_char(raw, p, e, 1);
        }
        lemma_unescape_escaped(raw, p + e.len(), t, k + 1, quote);
        assert(unescaped_at(raw, p) == Ok::<(char, int), EscapeError>((c, p + e.len())));
        assert(seq![c] + t.skip(k as int + 1) =~= t.skip(k as int));
    }
}

/// Escape fidelity for a whole string: printing then parsing the text of a
/// string literal gives the string back.
pub proof fn lemma_string_escape_fidelity(t: Seq<char>)
    ensures
        unescaped_text(escaped_text(t, '"', 0), 0) == Ok::<Seq<char>, EscapeError>(t),
{
    let raw = escaped_text(t, '"', 0);
    lemma_occurs_self(raw);
    lemma_unescape_escaped(raw, 0, t, 0, '"');
    assert(t.skip(0) =~= t);
}

/// Escape fidelity for a character: printing then parsing the text of a
/// character literal gives the character back.
pub proof fn lemma_char_escape_fidelity(c: char)
    ensures
        escaped_char(c, '\'').len() > 0,
        unescaped_char(escaped_char(c, '\'')) == Ok::<char, EscapeError>(c),
{
}

/// A backslash before a character that has no escape is refused.
pub proof fn lemma_unknown_escape_refused(raw: Seq<char>, i: int)
    requires
        0 <= i,
        i + 1 < raw.len(),
        raw[i] == '\\',
        escape_value(raw[i + 1]) is None,
    ensures
        unescaped_at(raw, i) == Err::<(char, int), EscapeError>(
            EscapeError::UnknownEscape(raw[i + 1]),
        ),
        unescaped_text(raw, i) == Err::<Seq<char>, EscapeError>(
            EscapeError::UnknownEscape(raw[i + 1]),
        ),
{
}

/// A text that is a number from its first character to its last.
pub open spec fn number_ok(t: Seq<char>) -> bool {
    number_end(t, 0) == Some(t.len() as int)
}

/// Whether the character at `i`, if there is one, can follow a number
/// without becoming part of it.
pub open spec fn ends_number(s: Seq<char>, i: int) -> bool {
    i >= s.len() || (!is_digit(s[i]) && s[i] != '.' && s[i] != 'e' && s[i] != 'E')
}

proof fn lemma_digits_shift(s: Seq<char>, i: int, t: Seq<char>, a: int)
    requires
        occurs(s, i, t),
        0 <= a <= t.len(),
        i + t.len() < s.len() ==> !is_digit(s[i + t.len()]),
    ensures
        digits_end(s, i + a) == i + digits_end(t, a),
    decreases t.len() - a,
{
    if a < t.len() {
        lemma_occurs_char(s, i, t, a);
        if is_digit(t[a]) {
            lemma_digits_shift(s, i, t, a + 1);
        }
    }
}

/// Number text preservation: a number is scanned to the end of its text,
/// where nothing that could continue it follows.
pub proof fn lemma_number_scan(s: Seq<char>, i: int, t: Seq<char>)
    requires
        occurs(s, i, t),
        number_ok(t),
        ends_number(s, i + t.len()),
    ensures
        number_end(s, i) == Some(i + t.len()),
        t.len() > 0,
        is_sign(t[0]) || is_digit(t[0]),
{
    let n = t.len() as int;
    lemma_digits_end(t, 0);
    if n > 0 {
        lemma_occurs_char(s, i, t, 0);
        lemma_digits_end(t, 1);
    }
    let a = if 0 < n && is_sign(t[0]) {
        1int
    } else {
        0int
    };
    lemma_digits_end(t, a);
    let b = digits_end(t, a);
    assert(b != a);
    lemma_digits_shift(s, i, t, a);
    if b < n {
        lemma_occurs_char(s, i, t, b);
        lemma_digits_end(t, b + 1);
        lemma_digits_shift(s, i, t, b + 1);
    }
    let c = if at(t, b, '.') && digits_end(t, b + 1) > b + 1 {
        digits_end(t, b + 1)
    } else {
        b
    };
    assert(at(s, i + b, '.') == at(t, b, '.'));
    if c < n {
        lemma_occurs_char(s, i, t, c);
        if c + 1 < n {
            lemma_occurs_char(s, i, t, c + 1);
            lemma_digits_end(t, c + 2);
            lemma_digits_shift(s, i, t, c + 2);
        }
        lemma_digits_end(t, c + 1);
        lemma_digits_shift(s, i, t, c + 1);
    }
    assert(at(s, i + c, 'e') == at(t, c, 'e'));
    assert(at(s, i + c, 'E') == at(t, c, 'E'));
}


/// A path without type arguments whose names are names.
pub open spec fn plain_path_ok(path: Seq<SegmentView>) -> bool {
    &&& path.len() > 0
    &&& forall|j: int|
        0 <= j < path.len() ==> (#[trigger] path[j]).generics is None && ident_ok(
            path[j].identifier,
        )
}

/// A type argument that can be written down: a path without type
/// arguments.
pub open spec fn argument_ok(t: TypeView) -> bool {
    t matches TypeView::Path(path) && plain_path_ok(path)
}

/// A segment that can be written down: a name and, where it has type
/// arguments, at least one, each of which can be written down.
pub open spec fn segment_ok(segment: SegmentView) -> bool {
    &&& ident_ok(segment.identifier)
    &&& match segment.generics {
        None => true,
        Some(arguments) => arguments.len() > 0 && forall|j: int|
            0 <= j < arguments.len() ==> argument_ok(#[trigger] arguments[j]),
    }
}

/// The path of a type that can be written down.
pub open spec fn type_path_ok(path: Seq<SegmentView>) -> bool {
    &&& path.len() > 0
    &&& forall|j: int| 0 <= j < path.len() ==> segment_ok(#[trigger] path[j])
}

/// Whether a path that ends at `e` ends there for the parser too: no
/// character of a name follows, and neither type arguments nor a further
/// segment.
pub open spec fn path_stop(s: Seq<char>, e: int) -> bool {
    &&& e >= s.len() || !is_ident_part(s[e])
    &&& !at(s, skip_space(s, e), '<')
    &&& !(at(s, skip_space(s, e), ':') && at(s, skip_space(s, e) + 1, ':'))
}

/// The text of a path starts with the first character of a name.
pub proof fn lemma_path_text_first(path: Seq<SegmentView>, k: nat)
    requires
        k < path.len(),
        ident_ok(path[k as int].identifier),
    ensures
        path_text(path, k).len() > 0,
        path_text(path, k)[0] == path[k as int].identifier[0],
        is_ident_start(path_text(path, k)[0]),
{
    let name = path[k as int].identifier;
    let seg = segment_text(path[k as int]);
    assert(seg.len() > 0 && seg[0] == name[0]);
    if k + 1 < path.len() {
        assert(path_text(path, k)[0] == seg[0]);
    }
}

/// A printed path without type arguments is read back.
pub proof fn lemma_plain_path(
    s: Seq<char>,
    from: int,
    i: int,
    path: Seq<SegmentView>,
    k: nat,
    denied: UnsupportedShape,
)
    requires
        plain_path_ok(path),
        k < path.len(),
        0 <= from <= i,
        skip_space(s, from) == i,
        occurs(s, i, path_text(path, k)),
        path_stop(s, i + path_text(path, k).len()),
    ensures
        plain_path_at(s, from, denied) == Ok::<(Seq<SegmentView>, int), ParseError>(
            (path.skip(k as int), i + path_text(path, k).len()),
        ),
    decreases path.len() - k,
{
    let segment = path[k as int];
    let name = segment.identifier;
    assert(segment.generics is None && ident_ok(name));
    assert(segment_text(segment) == name);
    assert(segment == plain_segment(name));
    let text = path_text(path, k);
    let e = i + name.len();
    if k + 1 == path.len() {
        lemma_occurs_char(s, i, name, 0);
        lemma_ident_scan(s, i, name, 0);
        lemma_occurs_sub(s, i, name);
        assert(path.skip(k as int) =~= seq![plain_segment(name)]);
    } else {
        let rest = path_text(path, k + 1);
        assert(text =~= name + (seq![':', ':'] + rest));
        lemma_occurs_split(s, i, name, seq![':', ':'] + rest);
        lemma_occurs_split(s, e, seq![':', ':'], rest);
        lemma_occurs_char(s, e, seq![':', ':'], 0);
        lemma_occurs_char(s, e, seq![':', ':'], 1);
        lemma_occurs_char(s, i, name, 0);
        lemma_ident_scan(s, i, name, 0);
        lemma_occurs_sub(s, i, name);
        lemma_path_text_first(path, k + 1);
        lemma_occurs_char(s, e + 2, rest, 0);
        lemma_plain_path(s, e + 2, e + 2, path, k + 1, denied);
        assert(seq![plain_segment(name)] + path.skip(k as int + 1) =~= path.skip(k as int));
    }
}

/// The text of the type arguments from the `k`-th on, with the closing
/// angle bracket.
pub open spec fn arguments_text(arguments: Seq<TypeView>, k: nat) -> Seq<char> {
    types_text(arguments, k) + seq!['>']
}

/// Printed type arguments are read back.
pub proof fn lemma_arguments(s: Seq<char>, from: int, i: int, arguments: Seq<TypeView>, k: nat)
    requires
        forall|j: int| 0 <= j < arguments.len() ==> argument_ok(#[trigger] arguments[j]),
        k < arguments.len(),
        0 <= from <= i,
        skip_space(s, from) == i,
        occurs(s, i, arguments_text(arguments, k)),
    ensures
        arguments_at(s, from) == Ok::<(Seq<TypeView>, int), ParseError>(
            (arguments.skip(k as int), i + arguments_text(arguments, k).len()),
        ),
    decreases arguments.len() - k,
{
    let argument = arguments[k as int];
    assert(argument_ok(argument));
    let path = argument->Path_0;
    let name_text = path_text(path, 0);
    assert(type_text(argument) == name_text);
    let e = i + name_text.len();
    lemma_path_text_first(path, 0);
    if k + 1 == arguments.len() {
        assert(arguments_text(arguments, k) =~= name_text + seq!['>']);
        lemma_occurs_split(s, i, name_text, seq!['>']);
        lemma_occurs_char(s, e, seq!['>'], 0);
        lemma_plain_path(s, from, i, path, 0, UnsupportedShape::NestedGenerics);
        assert(path.skip(0) =~= path);
        assert(arguments.skip(k as int) =~= seq![TypeView::Path(path)]);
    } else {
        let rest = arguments_text(arguments, k + 1);
        assert(arguments_text(arguments, k) =~= name_text + (seq![',', ' '] + rest));
        lemma_occurs_split(s, i, name_text, seq![',', ' '] + rest);
        lemma_occurs_split(s, e, seq![',', ' '], rest);
        lemma_occurs_char(s, e, seq![',', ' '], 0);
        lemma_occurs_char(s, e, seq![',', ' '], 1);
        lemma_plain_path(s, from, i, path, 0, UnsupportedShape::NestedGenerics);
        assert(path.skip(0) =~= path);
        let next = arguments[k as int + 1];
        assert(argument_ok(next));
        lemma_path_text_first(next->Path_0, 0);
        assert(type_text(next) == path_text(next->Path_0, 0));
        assert(rest[0] == type_text(next)[0]) by {
            if k + 2 == arguments.len() {
                assert(types_text(arguments, k + 1) == type_text(next));
            } else {
                assert(types_text(arguments, k + 1) == type_text(next) + seq![',', ' ']
                    + types_text(arguments, k + 2));
            }
        }
        lemma_occurs_char(s, e + 2, rest, 0);
        assert(skip_space(s, e + 2) == e + 2);
        assert(skip_space(s, e + 1) == e + 2);
        lemma_arguments(s, e + 1, e + 2, arguments, k + 1);
        assert(seq![TypeView::Path(path)] + arguments.skip(k as int + 1) =~= arguments.skip(
            k as int,
        ));
    }
}

/// Whether a segment that ends at `e` ends there for the parser too.
pub open spec fn segment_stop(s: Seq<char>, e: int) -> bool {
    &&& e >= s.len() || !is_ident_part(s[e])
    &&& !at(s, skip_space(s, e), '<')
}

/// A printed segment is read back.
pub proof fn lemma_segment(s: Seq<char>, from: int, i: int, segment: SegmentView)
    requires
        segment_ok(segment),
        0 <= from <= i,
        skip_space(s, from) == i,
        occurs(s, i, segment_text(segment)),
        segment.generics is None ==> segment_stop(s, i + segment_text(segment).len()),
    ensures
        segment_at(s, from) == Ok::<(SegmentView, int), ParseError>(
            (segment, i + segment_text(segment).len()),
        ),
{
    let name = segment.identifier;
    let e = i + name.len();
    match segment.generics {
        None => {
            lemma_occurs_char(s, i, name, 0);
            lemma_ident_scan(s, i, name, 0);
            lemma_occurs_sub(s, i, name);
        },
        Some(arguments) => {
            let inner = arguments_text(arguments, 0);
            assert(segment_text(segment) =~= name + (seq!['<'] + inner));
            lemma_occurs_split(s, i, name, seq!['<'] + inner);
            lemma_occurs_split(s, e, seq!['<'], inner);
            lemma_occurs_char(s, e, seq!['<'], 0);
            lemma_occurs_char(s, i, name, 0);
            lemma_ident_scan(s, i, name, 0);
            lemma_occurs_sub(s, i, name);
            let first = arguments[0];
            assert(argument_ok(first));
            lemma_path_text_first(first->Path_0, 0);
            assert(inner[0] == type_text(first)[0]) by {
                if arguments.len() == 1 {
                    assert(types_text(arguments, 0) == type_text(first));
                } else {
                    assert(types_text(arguments, 0) == type_text(first) + seq![',', ' ']
                        + types_text(arguments, 1));
                }
            }
            lemma_occurs_char(s, e + 1, inner, 0);
            lemma_arguments(s, e + 1, e + 1, arguments, 0);
            assert(arguments.skip(0) =~= arguments);
        },
    }
}

/// A printed path is read back.
pub proof fn lemma_path(s: Seq<char>, from: int, i: int, path: Seq<SegmentView>, k: nat)
    requires
        type_path_ok(path),
        k < path.len(),
        0 <= from <= i,
        skip_space(s, from) == i,
        occurs(s, i, path_text(path, k)),
        path_stop(s, i + path_text(path, k).len()),
    ensures
        path_at(s, from) == Ok::<(Seq<SegmentView>, int), ParseError>(
            (path.skip(k as int), i + path_text(path, k).len()),
        ),
    decreases path.len() - k,
{
    let segment = path[k as int];
    assert(segment_ok(segment));
    let seg = segment_text(segment);
    let e = i + seg.len();
    if k + 1 == path.len() {
        lemma_segment(s, from, i, segment);
        assert(path.skip(k as int) =~= seq![segment]);
    } else {
        let rest = path_text(path, k + 1);
        assert(path_text(path, k) =~= seg + (seq![':', ':'] + rest));
        lemma_occurs_split(s, i, seg, seq![':', ':'] + rest);
        lemma_occurs_split(s, e, seq![':', ':'], rest);
        lemma_occurs_char(s, e, seq![':', ':'], 0);
        lemma_occurs_char(s, e, seq![':', ':'], 1);
        lemma_segment(s, from, i, segment);
        assert(segment_ok(path[k as int + 1]));
        lemma_path_text_first(path, k + 1);
        lemma_occurs_char(s, e + 2, rest, 0);
        lemma_path(s, e + 2, e + 2, path, k + 1);
        assert(seq![segment] + path.skip(k as int + 1) =~= path.skip(k as int));
    }
}


/// The name of a struct or of a variant that can be written down: one or
/// two names, without type arguments.
pub open spec fn name_ok(path: Seq<SegmentView>) -> bool {
    plain_path_ok(path) && path.len() <= 2
}

/// The values whose text parses back to them.
///
/// Left out are: truth values, which the grammar does not have; numbers
/// whose text is no number; types that are no paths, or whose names are
/// no names, or that are the one name `None`; tuples without elements,
/// which print as the unit; structs without fields, which print as tuple
/// structs; names of structs with type arguments or more than two
/// segments; the tuple struct `Some` of one element, which prints as a
/// present option; and whatever holds one of these.
pub open spec fn printable(v: ValueView) -> bool
    decreases v,
{
    match v {
        ValueView::Unit => true,
        ValueView::Bool(_) => false,
        ValueView::Char(_) => true,
        ValueView::String(_) => true,
        ValueView::Number(text) => number_ok(text),
        ValueView::Type(t) => t matches TypeView::Path(path) && type_path_ok(path) && !is_name(
            path,
            none_word(),
        ),
        ValueView::List(items) => forall|i: int|
            0 <= i < items.len() ==> printable(#[trigger] items[i]),
        ValueView::Tuple(items) => items.len() > 0 && forall|i: int|
            0 <= i < items.len() ==> printable(#[trigger] items[i]),
        ValueView::Mapping(entries) => keys_sorted(entries, by_value()) && forall|i: int|
            0 <= i < entries.len() ==> printable((#[trigger] entries[i]).0) && printable(
                entries[i].1,
            ),
        ValueView::Option(None) => true,
        ValueView::Option(Some(inner)) => printable(*inner),
        ValueView::Struct(path, fields) => name_ok(path) && fields.len() > 0 && keys_sorted(
            fields,
            by_name(),
        ) && forall|i: int|
            0 <= i < fields.len() ==> ident_ok((#[trigger] fields[i]).0) && printable(
                fields[i].1,
            ),
        ValueView::TupleStruct(path, items) => name_ok(path) && !(is_name(path, some_word())
            && items.len() == 1) && forall|i: int|
            0 <= i < items.len() ==> printable(#[trigger] items[i]),
    }
}

/// Composites are nested at most `depth` deep in `v`.
pub open spec fn fits_depth(v: ValueView, depth: nat) -> bool
    decreases v,
{
    match v {
        ValueView::List(items) => items.len() > 0 ==> depth > 0 && forall|i: int|
            0 <= i < items.len() ==> fits_depth(#[trigger] items[i], (depth - 1) as nat),
        ValueView::Tuple(items) => items.len() > 0 ==> depth > 0 && forall|i: int|
            0 <= i < items.len() ==> fits_depth(#[trigger] items[i], (depth - 1) as nat),
        ValueView::TupleStruct(_, items) => items.len() > 0 ==> depth > 0 && forall|i: int|
            0 <= i < items.len() ==> fits_depth(#[trigger] items[i], (depth - 1) as nat),
        ValueView::Mapping(entries) => entries.len() > 0 ==> depth > 0 && forall|i: int|
            0 <= i < entries.len() ==> fits_depth(
                (#[trigger] entries[i]).0,
                (depth - 1) as nat,
            ) && fits_depth(entries[i].1, (depth - 1) as nat),
        ValueView::Struct(_, fields) => fields.len() > 0 ==> depth > 0 && forall|i: int|
            0 <= i < fields.len() ==> fits_depth((#[trigger] fields[i]).1, (depth - 1) as nat),
        ValueView::Option(Some(inner)) => depth > 0 && fits_depth(*inner, (depth - 1) as nat),
        _ => true,
    }
}

/// Whether a value that ends at `e` ends there for the parser too: after
/// whitespace, the text ends, or a comma, a closing bracket or one colon
/// follows.
pub open spec fn boundary(s: Seq<char>, e: int) -> bool {
    let j = skip_space(s, e);
    j >= s.len() || s[j] == ',' || s[j] == ')' || s[j] == ']' || s[j] == '}' || (s[j] == ':'
        && !at(s, j + 1, ':'))
}

proof fn lemma_boundary(s: Seq<char>, e: int)
    requires
        0 <= e <= s.len(),
        boundary(s, e),
    ensures
        ends_number(s, e),
        path_stop(s, e),
        !at(s, skip_space(s, e), '('),
{
    lemma_skip_space(s, e);
}

/// A character with which the text of a value can start.
pub open spec fn starts_value(c: char) -> bool {
    !is_space(c) && c != ')' && c != ']' && c != '}' && c != ',' && c != ':'
}

/// The text of a value is not empty and starts with no whitespace, no
/// closing bracket, no comma and no colon.
pub proof fn lemma_first(l: Layout, v: ValueView)
    requires
        printable(v),
    ensures
        rendered(l, v).len() > 0,
        starts_value(rendered(l, v)[0]),
{
    match v {
        ValueView::Number(text) => {
            lemma_digits_end(text, 0);
            lemma_digits_end(text, 1);
        },
        ValueView::Type(t) => {
            lemma_path_text_first(t->Path_0, 0);
        },
        ValueView::Struct(path, fields) => {
            lemma_path_text_first(path, 0);
        },
        ValueView::TupleStruct(path, items) => {
            lemma_path_text_first(path, 0);
        },
        _ => {},
    }
}

proof fn lemma_split3(s: Seq<char>, i: int, a: Seq<char>, b: Seq<char>, c: Seq<char>)
    requires
        occurs(s, i, a + b + c),
    ensures
        occurs(s, i, a),
        occurs(s, i + a.len(), b),
        occurs(s, i + a.len() + b.len(), c),
{
    lemma_occurs_split(s, i, a + b, c);
    lemma_occurs_split(s, i, a, b);
}

/// What comes right after the first name of the text of a path.
proof fn lemma_after_first_name(s: Seq<char>, i: int, path: Seq<SegmentView>, tail: Seq<char>)
    requires
        type_path_ok(path),
        occurs(s, i, path_text(path, 0) + tail),
    ensures
        occurs(s, i, path[0].identifier),
        path[0].generics is Some ==> at(s, i + path[0].identifier.len(), '<'),
        path[0].generics is None && path.len() > 1 ==> at(
            s,
            i + path[0].identifier.len(),
            ':',
        ) && at(s, i + path[0].identifier.len() + 1, ':'),
        path[0].generics is None && path.len() == 1 ==> path_text(path, 0)
            == path[0].identifier,
{
    let segment = path[0];
    assert(segment_ok(segment));
    let name = segment.identifier;
    let seg = segment_text(segment);
    let text = path_text(path, 0);
    lemma_occurs_split(s, i, text, tail);
    let after: Seq<char> = if path.len() > 1 {
        seq![':', ':'] + path_text(path, 1)
    } else {
        Seq::empty()
    };
    assert(text =~= seg + after);
    lemma_occurs_split(s, i, seg, after);
    match segment.generics {
        None => {
            if path.len() > 1 {
                lemma_occurs_char(s, i + seg.len(), after, 0);
                lemma_occurs_char(s, i + seg.len(), after, 1);
            } else {
                assert(text =~= name);
            }
        },
        Some(arguments) => {
            let inner = seq!['<'] + types_text(arguments, 0) + seq!['>'];
            assert(seg =~= name + inner);
            lemma_occurs_split(s, i, name, inner);
            lemma_occurs_char(s, i + name.len(), inner, 0);
        },
    }
}

/// The text of a value does not look like the start of a field where a
/// comma or a closing round bracket follows it.
proof fn lemma_not_field(l: Layout, v: ValueView, s: Seq<char>, from: int, i: int)
    requires
        printable(v),
        0 <= from <= i,
        skip_space(s, from) == i,
        occurs(s, i, rendered(l, v)),
        ({
            let j = skip_space(s, i + rendered(l, v).len());
            j >= s.len() || s[j] == ',' || s[j] == ')'
        }),
    ensures
        !field_ahead(s, from),
{
    let r = rendered(l, v);
    let e = i + r.len();
    lemma_first(l, v);
    lemma_occurs_char(s, i, r, 0);
    lemma_occurs_sub(s, i, r);
    lemma_skip_space(s, e);
    if is_ident_start(r[0]) {
        match v {
            ValueView::Option(None) => {
                lemma_ident_scan(s, i, none_word(), 0);
            },
            ValueView::Option(Some(inner)) => {
                let rest = seq!['(', '\n'] + indent_text(deeper(l)) + rendered(deeper(l), *inner)
                    + seq![',', '\n'] + indent_text(l) + seq![')'];
                assert(r =~= some_word() + rest);
                lemma_occurs_split(s, i, some_word(), rest);
                lemma_occurs_char(s, i + 4, rest, 0);
                lemma_ident_scan(s, i, some_word(), 0);
            },
            ValueView::Type(t) => {
                let path = t->Path_0;
                assert(r + Seq::<char>::empty() =~= r);
                lemma_after_first_name(s, i, path, Seq::empty());
                lemma_ident_scan(s, i, path[0].identifier, 0);
            },
            ValueView::Struct(path, fields) => {
                let tail = delimited(
                    '(',
                    block_text(l, fields.len() == 0, rendered_fields(deeper(l), fields, 0)),
                    ')',
                );
                lemma_after_first_name(s, i, path, tail);
                lemma_occurs_split(s, i, path_text(path, 0), tail);
                lemma_occurs_char(s, i + path_text(path, 0).len(), tail, 0);
                lemma_ident_scan(s, i, path[0].identifier, 0);
            },
            ValueView::TupleStruct(path, items) => {
                let tail = delimited('(', rendered_list(l, items), ')');
                lemma_after_first_name(s, i, path, tail);
                lemma_occurs_split(s, i, path_text(path, 0), tail);
                lemma_occurs_char(s, i + path_text(path, 0).len(), tail, 0);
                lemma_ident_scan(s, i, path[0].identifier, 0);
            },
            _ => {},
        }
    }
}


/// `r` with `first` before what it read.
pub open spec fn with_first<T>(first: T, r: Parsed<Seq<T>>) -> Parsed<Seq<T>> {
    match r {
        Ok((rest, e)) => Ok((seq![first] + rest, e)),
        Err(x) => Err(x),
    }
}

proof fn lemma_items_at_end(s: Seq<char>, from: int, e: int, close: char, depth: nat)
    requires
        0 <= from <= e,
        skip_space(s, from) == e,
        at(s, e, close),
    ensures
        items_at(s, from, close, depth) == Ok::<(Seq<ValueView>, int), ParseError>(
            (Seq::empty(), e + 1),
        ),
{
}

proof fn lemma_items_at_step(
    s: Seq<char>,
    from: int,
    a: int,
    b: int,
    close: char,
    depth: nat,
    v: ValueView,
)
    requires
        0 <= from <= a < b <= s.len(),
        skip_space(s, from) == a,
        s[a] != close,
        depth > 0,
        value_at(s, a, (depth - 1) as nat) == Ok::<(ValueView, int), ParseError>((v, b)),
    ensures
        at(s, skip_space(s, b), ',') ==> items_at(s, from, close, depth) == with_first(
            v,
            items_at(s, skip_space(s, b) + 1, close, depth),
        ),
        !at(s, skip_space(s, b), ',') && at(s, skip_space(s, b), close) ==> items_at(
            s,
            from,
            close,
            depth,
        ) == Ok::<(Seq<ValueView>, int), ParseError>((seq![v], skip_space(s, b) + 1)),
{
    lemma_skip_space(s, b);
}

proof fn lemma_entries_at_end(s: Seq<char>, from: int, e: int, depth: nat)
    requires
        0 <= from <= e,
        skip_space(s, from) == e,
        at(s, e, '}'),
    ensures
        entries_at(s, from, depth) == Ok::<(Seq<(ValueView, ValueView)>, int), ParseError>(
            (Seq::empty(), e + 1),
        ),
{
}

proof fn lemma_entries_at_step(
    s: Seq<char>,
    from: int,
    a: int,
    b: int,
    d: int,
    depth: nat,
    key: ValueView,
    value: ValueView,
)
    requires
        0 <= from <= a < b < d <= s.len(),
        skip_space(s, from) == a,
        s[a] != '}',
        depth > 0,
        value_at(s, a, (depth - 1) as nat) == Ok::<(ValueView, int), ParseError>((key, b)),
        skip_space(s, b) == b,
        s[b] == ':',
        value_at(s, b + 1, (depth - 1) as nat) == Ok::<(ValueView, int), ParseError>(
            (value, d),
        ),
    ensures
        at(s, skip_space(s, d), ',') ==> entries_at(s, from, depth) == with_first(
            (key, value),
            entries_at(s, skip_space(s, d) + 1, depth),
        ),
        !at(s, skip_space(s, d), ',') && at(s, skip_space(s, d), '}') ==> entries_at(
            s,
            from,
            depth,
        ) == Ok::<(Seq<(ValueView, ValueView)>, int), ParseError>(
            (seq![(key, value)], skip_space(s, d) + 1),
        ),
{
    lemma_skip_space(s, d);
}

proof fn lemma_fields_at_end(s: Seq<char>, from: int, e: int, depth: nat)
    requires
        0 <= from <= e,
        skip_space(s, from) == e,
        at(s, e, ')'),
    ensures
        fields_at(s, from, depth) == Ok::<(Seq<(Seq<char>, ValueView)>, int), ParseError>(
            (Seq::empty(), e + 1),
        ),
{
}

proof fn lemma_fields_at_step(
    s: Seq<char>,
    from: int,
    a: int,
    b: int,
    d: int,
    depth: nat,
    value: ValueView,
)
    requires
        0 <= from <= a < b < d <= s.len(),
        skip_space(s, from) == a,
        is_ident_start(s[a]),
        ident_end(s, a) == b,
        depth > 0,
        skip_space(s, b) == b,
        s[b] == ':',
        !at(s, b + 1, ':'),
        value_at(s, b + 1, (depth - 1) as nat) == Ok::<(ValueView, int), ParseError>(
            (value, d),
        ),
    ensures
        field_ahead(s, from),
        at(s, skip_space(s, d), ',') ==> fields_at(s, from, depth) == with_first(
            (s.subrange(a, b), value),
            fields_at(s, skip_space(s, d) + 1, depth),
        ),
        !at(s, skip_space(s, d), ',') && at(s, skip_space(s, d), ')') ==> fields_at(
            s,
            from,
            depth,
        ) == Ok::<(Seq<(Seq<char>, ValueView)>, int), ParseError>(
            (seq![(s.subrange(a, b), value)], skip_space(s, d) + 1),
        ),
{
    lemma_skip_space(s, d);
}

/// What `named_at` gives once the name is read and a round bracket
/// follows it.
proof fn lemma_named_at_bracket(
    s: Seq<char>,
    j: int,
    k: int,
    depth: nat,
    path: Seq<SegmentView>,
)
    requires
        0 <= j < k < s.len(),
        path_at(s, j) == Ok::<(Seq<SegmentView>, int), ParseError>((path, k)),
        s[k] == '(',
        plain_path_ok(path),
        path.len() <= 2,
    ensures
        field_ahead(s, k + 1) ==> named_at(s, j, depth) == named_struct_at(
            s,
            path,
            k + 1,
            depth,
        ),
        !field_ahead(s, k + 1) ==> named_at(s, j, depth) == tuple_struct_at(
            s,
            path,
            k + 1,
            depth,
        ),
{
    assert(skip_space(s, k) == k);
    assert(!has_generics(path));
}

/// What `named_at` gives once the name is read and no round bracket
/// follows it.
proof fn lemma_named_at_bare(s: Seq<char>, j: int, k: int, depth: nat, path: Seq<SegmentView>)
    requires
        0 <= j < k <= s.len(),
        path_at(s, j) == Ok::<(Seq<SegmentView>, int), ParseError>((path, k)),
        !at(s, skip_space(s, k), '('),
    ensures
        is_name(path, none_word()) ==> named_at(s, j, depth) == Ok::<
            (ValueView, int),
            ParseError,
        >((ValueView::Option(None), k)),
        !is_name(path, none_word()) ==> named_at(s, j, depth) == Ok::<
            (ValueView, int),
            ParseError,
        >((ValueView::Type(TypeView::Path(path)), k)),
{
}

/// The path of the one name `word`.
pub open spec fn word_path(word: Seq<char>) -> Seq<SegmentView> {
    seq![plain_segment(word)]
}

proof fn lemma_word_path(word: Seq<char>)
    requires
        ident_ok(word),
    ensures
        path_text(word_path(word), 0) == word,
        plain_path_ok(word_path(word)),
        type_path_ok(word_path(word)),
        is_name(word_path(word), word),
{
    let path = word_path(word);
    assert(path[0] == plain_segment(word));
    assert(segment_text(path[0]) == word);
    assert(segment_ok(path[0]));
}

proof fn lemma_words()
    ensures
        ident_ok(none_word()),
        ident_ok(some_word()),
        none_word().len() == 4,
        some_word().len() == 4,
{
    let n = none_word();
    assert(n[0] == 'N' && n[1] == 'o' && n[2] == 'n' && n[3] == 'e');
    let m = some_word();
    assert(m[0] == 'S' && m[1] == 'o' && m[2] == 'm' && m[3] == 'e');
}

/// The text of `v` stands at `i`, which is where the whitespace from
/// `from` on ends, and a boundary follows it.
pub open spec fn placed(l: Layout, v: ValueView, s: Seq<char>, from: int, i: int) -> bool {
    &&& layout_ok(l)
    &&& printable(v)
    &&& 0 <= from <= i
    &&& skip_space(s, from) == i
    &&& occurs(s, i, rendered(l, v))
    &&& boundary(s, i + rendered(l, v).len())
}

/// Where the text of `v` ends.
pub open spec fn end_of(l: Layout, v: ValueView, i: int) -> int {
    i + rendered(l, v).len()
}

proof fn lemma_value_unit(l: Layout, s: Seq<char>, from: int, i: int, depth: nat)
    requires
        placed(l, ValueView::Unit, s, from, i),
    ensures
        value_at(s, from, depth) == Ok::<(ValueView, int), ParseError>(
            (ValueView::Unit, i + 2),
        ),
{
    let r = rendered(l, ValueView::Unit);
    lemma_occurs_char(s, i, r, 0);
    lemma_occurs_char(s, i, r, 1);
    assert(skip_space(s, i + 1) == i + 1);
    lemma_items_at_end(s, i + 1, i + 1, ')', depth);
}

proof fn lemma_value_char(l: Layout, c: char, s: Seq<char>, from: int, i: int, depth: nat)
    requires
        placed(l, ValueView::Char(c), s, from, i),
    ensures
        value_at(s, from, depth) == Ok::<(ValueView, int), ParseError>(
            (ValueView::Char(c), end_of(l, ValueView::Char(c), i)),
        ),
{
    let r = rendered(l, ValueView::Char(c));
    let esc = escaped_char(c, '\'');
    let t = seq![c];
    assert(escaped_text(t, '\'', 1) =~= Seq::empty());
    assert(escaped_text(t, '\'', 0) =~= esc);
    assert(r =~= seq!['\''] + (esc + seq!['\'']));
    lemma_occurs_split(s, i, seq!['\''], esc + seq!['\'']);
    lemma_occurs_split(s, i + 1, esc, seq!['\'']);
    lemma_occurs_char(s, i, seq!['\''], 0);
    lemma_occurs_sub(s, i + 1, esc);
    lemma_literal_scan(s, i + 1, t, 0, '\'');
    lemma_char_escape_fidelity(c);
    assert(char_at(s, i + 1) == Ok::<(ValueView, int), ParseError>(
        (ValueView::Char(c), i + 1 + esc.len() + 1),
    ));
}

proof fn lemma_value_string(l: Layout, t: Seq<char>, s: Seq<char>, from: int, i: int, depth: nat)
    requires
        placed(l, ValueView::String(t), s, from, i),
    ensures
        value_at(s, from, depth) == Ok::<(ValueView, int), ParseError>(
            (ValueView::String(t), end_of(l, ValueView::String(t), i)),
        ),
{
    let r = rendered(l, ValueView::String(t));
    let esc = escaped_text(t, '"', 0);
    assert(r =~= seq!['"'] + (esc + seq!['"']));
    lemma_occurs_split(s, i, seq!['"'], esc + seq!['"']);
    lemma_occurs_split(s, i + 1, esc, seq!['"']);
    lemma_occurs_char(s, i, seq!['"'], 0);
    lemma_occurs_sub(s, i + 1, esc);
    lemma_literal_scan(s, i + 1, t, 0, '"');
    lemma_string_escape_fidelity(t);
    assert(string_at(s, i + 1) == Ok::<(ValueView, int), ParseError>(
        (ValueView::String(t), i + 1 + esc.len() + 1),
    ));
}

proof fn lemma_value_number(l: Layout, t: Seq<char>, s: Seq<char>, from: int, i: int, depth: nat)
    requires
        placed(l, ValueView::Number(t), s, from, i),
    ensures
        value_at(s, from, depth) == Ok::<(ValueView, int), ParseError>(
            (ValueView::Number(t), i + t.len()),
        ),
{
    lemma_occurs_sub(s, i, t);
    lemma_boundary(s, i + t.len());
    lemma_number_scan(s, i, t);
    lemma_occurs_char(s, i, t, 0);
    assert(number_at(s, i) == Ok::<(ValueView, int), ParseError>(
        (ValueView::Number(t), i + t.len()),
    ));
}

proof fn lemma_value_type(
    l: Layout,
    path: Seq<SegmentView>,
    s: Seq<char>,
    from: int,
    i: int,
    depth: nat,
)
    requires
        placed(l, ValueView::Type(TypeView::Path(path)), s, from, i),
    ensures
        value_at(s, from, depth) == Ok::<(ValueView, int), ParseError>(
            (ValueView::Type(TypeView::Path(path)), i + path_text(path, 0).len()),
        ),
{
    let text = path_text(path, 0);
    lemma_occurs_sub(s, i, text);
    lemma_boundary(s, i + text.len());
    lemma_path_text_first(path, 0);
    lemma_occurs_char(s, i, text, 0);
    assert(skip_space(s, i) == i);
    lemma_path(s, i, i, path, 0);
    assert(path.skip(0) =~= path);
    lemma_named_at_bare(s, i, i + text.len(), depth, path);
}

proof fn lemma_value_none(l: Layout, s: Seq<char>, from: int, i: int, depth: nat)
    requires
        placed(l, ValueView::Option(None), s, from, i),
    ensures
        value_at(s, from, depth) == Ok::<(ValueView, int), ParseError>(
            (ValueView::Option(None), i + 4),
        ),
{
    lemma_words();
    let path = word_path(none_word());
    lemma_word_path(none_word());
    lemma_occurs_sub(s, i, none_word());
    lemma_boundary(s, i + 4);
    lemma_occurs_char(s, i, none_word(), 0);
    assert(skip_space(s, i) == i);
    lemma_path(s, i, i, path, 0);
    assert(path.skip(0) =~= path);
    lemma_named_at_bare(s, i, i + 4, depth, path);
}

/// What the elements of a composite need for their text to parse back.
pub open spec fn items_ok(items: Seq<ValueView>, k: nat, depth: nat) -> bool {
    &&& k <= items.len()
    &&& k < items.len() ==> depth > 0
    &&& forall|j: int|
        k <= j < items.len() ==> printable(#[trigger] items[j]) && fits_depth(
            items[j],
            (depth - 1) as nat,
        )
}

/// Where the closing bracket `close` stands after the text `t` at `i` and
/// the whitespace `w`.
pub open spec fn closes(s: Seq<char>, i: int, t: Seq<char>, w: Seq<char>, close: char) -> bool {
    &&& occurs(s, i, t)
    &&& occurs(s, i + t.len(), w)
    &&& all_space(w)
    &&& at(s, i + t.len() + w.len(), close)
}

/// What follows an element of a composite: a comma, or whitespace and the
/// closing bracket.
proof fn lemma_tail(
    l: Layout,
    s: Seq<char>,
    b: int,
    more: bool,
    rest: Seq<char>,
    w: Seq<char>,
    close: char,
)
    requires
        0 <= b,
        occurs(s, b, separator_text(l, more)),
        !more ==> rest.len() == 0,
        closes(s, b + separator_text(l, more).len(), rest, w, close),
        close == ')' || close == ']' || close == '}',
    ensures
        boundary(s, b),
        l.pretty || more ==> skip_space(s, b) == b && at(s, b, ',') && occurs(
            s,
            b + 1,
            separator_text(l, more).skip(1),
        ) && all_space(separator_text(l, more).skip(1)),
        !(l.pretty || more) ==> skip_space(s, b) == b + w.len() && at(s, b + w.len(), close),
        ({
            let j = skip_space(s, b);
            j >= s.len() || s[j] == ',' || s[j] == ')' || s[j] == ']' || s[j] == '}'
        }),
{
    let sep = separator_text(l, more);
    if l.pretty || more {
        lemma_occurs_char(s, b, sep, 0);
        let gap = sep.skip(1);
        assert(sep =~= seq![','] + gap);
        lemma_occurs_split(s, b, seq![','], gap);
    } else {
        lemma_skip_over(s, b, w);
    }
}

/// The printed text of a value parses back to the value.
pub proof fn lemma_value(l: Layout, v: ValueView, s: Seq<char>, from: int, i: int, depth: nat)
    requires
        placed(l, v, s, from, i),
        fits_depth(v, depth),
    ensures
        value_at(s, from, depth) == Ok::<(ValueView, int), ParseError>(
            (v, end_of(l, v, i)),
        ),
    decreases v, 0nat,
{
    match v {
        ValueView::Unit => {
            lemma_value_unit(l, s, from, i, depth);
        },
        ValueView::Bool(_) => {},
        ValueView::Char(c) => {
            lemma_value_char(l, c, s, from, i, depth);
        },
        ValueView::String(t) => {
            lemma_value_string(l, t, s, from, i, depth);
        },
        ValueView::Number(text) => {
            lemma_value_number(l, text, s, from, i, depth);
        },
        ValueView::Type(t) => {
            lemma_value_type(l, t->Path_0, s, from, i, depth);
        },
        ValueView::List(items) => {
            lemma_bracketed(l, items, s, from, i, '[', ']', depth);
        },
        ValueView::Tuple(items) => {
            lemma_bracketed(l, items, s, from, i, '(', ')', depth);
        },
        ValueView::Mapping(entries) => {
            lemma_mapping(l, entries, s, from, i, depth);
        },
        ValueView::Option(None) => {
            lemma_value_none(l, s, from, i, depth);
        },
        ValueView::Option(Some(inner)) => {
            lemma_some(l, *inner, s, from, i, depth);
        },
        ValueView::Struct(path, fields) => {
            lemma_struct(l, path, fields, s, from, i, depth);
        },
        ValueView::TupleStruct(path, items) => {
            lemma_tuple_struct(l, path, items, s, from, i, depth);
        },
    }
}

/// The printed text of a list or a tuple parses back to its elements.
proof fn lemma_bracketed(
    l: Layout,
    items: Seq<ValueView>,
    s: Seq<char>,
    from: int,
    i: int,
    open: char,
    close: char,
    depth: nat,
)
    requires
        layout_ok(l),
        items_ok(items, 0, depth),
        0 <= from <= i,
        skip_space(s, from) == i,
        occurs(s, i, delimited(open, rendered_list(l, items), close)),
        (open == '[' && close == ']') || (open == '(' && close == ')' && items.len() > 0),
    ensures
        value_at(s, from, depth) == Ok::<(ValueView, int), ParseError>(
            (
                if open == '[' {
                    ValueView::List(items)
                } else {
                    ValueView::Tuple(items)
                },
                i + rendered_list(l, items).len() + 2,
            ),
        ),
    decreases items, items.len() + 2,
{
    let body = rendered_list(l, items);
    lemma_split3(s, i, seq![open], body, seq![close]);
    lemma_occurs_char(s, i, seq![open], 0);
    lemma_occurs_char(s, i + 1 + body.len(), seq![close], 0);
    lemma_list_body(l, items, s, i + 1, close, depth);
    if open == '[' {
        assert(list_at(s, i + 1, depth) == Ok::<(ValueView, int), ParseError>(
            (ValueView::List(items), i + body.len() + 2),
        ));
    } else {
        assert(tuple_at(s, i + 1, depth) == Ok::<(ValueView, int), ParseError>(
            (ValueView::Tuple(items), i + body.len() + 2),
        ));
    }
}

/// The printed text of a mapping parses back to it.
proof fn lemma_mapping(
    l: Layout,
    entries: Seq<(ValueView, ValueView)>,
    s: Seq<char>,
    from: int,
    i: int,
    depth: nat,
)
    requires
        layout_ok(l),
        entries_ok(entries, 0, depth),
        keys_sorted(entries, by_value()),
        0 <= from <= i,
        skip_space(s, from) == i,
        occurs(s, i, rendered(l, ValueView::Mapping(entries))),
    ensures
        value_at(s, from, depth) == Ok::<(ValueView, int), ParseError>(
            (ValueView::Mapping(entries), end_of(l, ValueView::Mapping(entries), i)),
        ),
    decreases entries, entries.len() + 2,
{
    let body = block_text(l, entries.len() == 0, rendered_entries(deeper(l), entries, 0));
    lemma_split3(s, i, seq!['{'], body, seq!['}']);
    lemma_occurs_char(s, i, seq!['{'], 0);
    lemma_occurs_char(s, i + 1 + body.len(), seq!['}'], 0);
    lemma_mapping_body(l, entries, s, i + 1, depth);
    lemma_collected_of_sorted(entries, by_value(), entries.len());
    assert(entries.take(entries.len() as int) =~= entries);
    assert(map_at(s, i + 1, depth) == Ok::<(ValueView, int), ParseError>(
        (ValueView::Mapping(entries), i + body.len() + 2),
    ));
}

/// The printed text of a struct parses back to it.
proof fn lemma_struct(
    l: Layout,
    path: Seq<SegmentView>,
    fields: Seq<(Seq<char>, ValueView)>,
    s: Seq<char>,
    from: int,
    i: int,
    depth: nat,
)
    requires
        layout_ok(l),
        name_ok(path),
        fields.len() > 0,
        fields_ok(fields, 0, depth),
        keys_sorted(fields, by_name()),
        0 <= from <= i,
        skip_space(s, from) == i,
        occurs(s, i, rendered(l, ValueView::Struct(path, fields))),
    ensures
        value_at(s, from, depth) == Ok::<(ValueView, int), ParseError>(
            (
                ValueView::Struct(path, fields),
                end_of(l, ValueView::Struct(path, fields), i),
            ),
        ),
    decreases fields, fields.len() + 2,
{
    let body = block_text(l, false, rendered_fields(deeper(l), fields, 0));
    let tail = delimited('(', body, ')');
    let name = path_text(path, 0);
    lemma_path_text_first(path, 0);
    lemma_occurs_split(s, i, name, tail);
    lemma_occurs_char(s, i, name, 0);
    let k = i + name.len();
    lemma_split3(s, k, seq!['('], body, seq![')']);
    lemma_occurs_char(s, k, seq!['('], 0);
    lemma_occurs_char(s, k + 1 + body.len(), seq![')'], 0);
    assert(skip_space(s, k) == k);
    assert(skip_space(s, i) == i);
    lemma_path(s, i, i, path, 0);
    assert(path.skip(0) =~= path);
    lemma_named_at_bracket(s, i, k, depth, path);
    lemma_struct_body(l, fields, s, k + 1, depth);
    lemma_collected_of_sorted(fields, by_name(), fields.len());
    assert(fields.take(fields.len() as int) =~= fields);
    assert(named_struct_at(s, path, k + 1, depth) == Ok::<(ValueView, int), ParseError>(
        (ValueView::Struct(path, fields), k + body.len() + 2),
    ));
}

/// The printed text of a tuple struct parses back to it.
proof fn lemma_tuple_struct(
    l: Layout,
    path: Seq<SegmentView>,
    items: Seq<ValueView>,
    s: Seq<char>,
    from: int,
    i: int,
    depth: nat,
)
    requires
        layout_ok(l),
        name_ok(path),
        !(is_name(path, some_word()) && items.len() == 1),
        items_ok(items, 0, depth),
        0 <= from <= i,
        skip_space(s, from) == i,
        occurs(s, i, rendered(l, ValueView::TupleStruct(path, items))),
    ensures
        value_at(s, from, depth) == Ok::<(ValueView, int), ParseError>(
            (
                ValueView::TupleStruct(path, items),
                end_of(l, ValueView::TupleStruct(path, items), i),
            ),
        ),
    decreases items, items.len() + 2,
{
    let body = rendered_list(l, items);
    let tail = delimited('(', body, ')');
    let name = path_text(path, 0);
    lemma_path_text_first(path, 0);
    lemma_occurs_split(s, i, name, tail);
    lemma_occurs_char(s, i, name, 0);
    let k = i + name.len();
    lemma_split3(s, k, seq!['('], body, seq![')']);
    lemma_occurs_char(s, k, seq!['('], 0);
    lemma_occurs_char(s, k + 1 + body.len(), seq![')'], 0);
    assert(skip_space(s, k) == k);
    assert(skip_space(s, i) == i);
    lemma_path(s, i, i, path, 0);
    assert(path.skip(0) =~= path);
    lemma_named_at_bracket(s, i, k, depth, path);
    lemma_list_body(l, items, s, k + 1, ')', depth);
    lemma_tuple_struct_start(l, items, s, k + 1);
    assert(tuple_struct_at(s, path, k + 1, depth) == Ok::<(ValueView, int), ParseError>(
        (ValueView::TupleStruct(path, items), k + body.len() + 2),
    ));
}

/// What follows the opening bracket of a tuple struct does not look like
/// a field.
proof fn lemma_tuple_struct_start(l: Layout, items: Seq<ValueView>, s: Seq<char>, i: int)
    requires
        layout_ok(l),
        0 <= i,
        forall|j: int| 0 <= j < items.len() ==> printable(#[trigger] items[j]),
        occurs(s, i, rendered_list(l, items)),
        at(s, i + rendered_list(l, items).len(), ')'),
    ensures
        !field_ahead(s, i),
{
    let body = rendered_list(l, items);
    if items.len() == 0 {
        assert(skip_space(s, i) == i);
    } else {
        let inner = deeper(l);
        lemma_layout_space(l);
        lemma_layout_space(inner);
        let first = rendered(inner, items[0]);
        let more = 1 < items.len();
        let sep = separator_text(inner, more);
        let rest = rendered_items(inner, items, 1);
        let all = rendered_items(inner, items, 0);
        assert(all == indent_text(inner) + first + sep + rest);
        lemma_split3(s, i, newline_text(l), all, indent_text(l));
        let a = i + newline_text(l).len();
        lemma_occurs_split(s, a, indent_text(inner) + first + sep, rest);
        lemma_split3(s, a, indent_text(inner), first, sep);
        let b = a + indent_text(inner).len();
        lemma_first(inner, items[0]);
        lemma_occurs_char(s, b, first, 0);
        lemma_skip_over(s, i, newline_text(l));
        lemma_skip_over(s, a, indent_text(inner));
        assert(skip_space(s, b) == b);
        let c = b + first.len();
        if !more {
            assert(rest =~= Seq::empty());
        }
        lemma_tail(inner, s, c, more, rest, indent_text(l), ')');
        lemma_not_field(inner, items[0], s, i, b);
    }
}

/// Where the parts of the text of a present option stand.
proof fn lemma_some_layout(l: Layout, x: Seq<char>, s: Seq<char>, i: int)
    requires
        layout_ok(l),
        0 <= i,
        x.len() > 0,
        !is_space(x[0]),
        occurs(s, i, some_text(l, x)),
    ensures
        occurs(s, i, some_word()),
        at(s, i + 4, '('),
        skip_space(s, i + 5) == i + 6 + indent_text(deeper(l)).len(),
        occurs(s, i + 6 + indent_text(deeper(l)).len(), x),
        at(s, i + 6 + indent_text(deeper(l)).len() + x.len(), ','),
        skip_space(s, i + 6 + indent_text(deeper(l)).len() + x.len() + 1) == i + some_text(
            l,
            x,
        ).len() - 1,
        at(s, i + some_text(l, x).len() - 1, ')'),
        some_text(l, x).len() == 9 + indent_text(deeper(l)).len() + x.len() + indent_text(
            l,
        ).len(),
{
    let d = deeper(l);
    let r = some_text(l, x);
    lemma_layout_space(l);
    lemma_layout_space(d);
    let open = seq!['(', '\n'];
    let close = seq![',', '\n'];
    let tail = open + indent_text(d) + x + close + indent_text(l) + seq![')'];
    assert(r =~= some_word() + tail);
    lemma_occurs_split(s, i, some_word(), tail);
    lemma_occurs_split(s, i + 4, open + indent_text(d) + x + close + indent_text(l), seq![')']);
    lemma_occurs_split(s, i + 4, open + indent_text(d) + x + close, indent_text(l));
    lemma_occurs_split(s, i + 4, open + indent_text(d) + x, close);
    lemma_split3(s, i + 4, open, indent_text(d), x);
    let a = i + 6 + indent_text(d).len();
    let b = a + x.len();
    let e = b + 2 + indent_text(l).len();
    lemma_occurs_char(s, e, seq![')'], 0);
    lemma_occurs_char(s, b, close, 0);
    lemma_occurs_char(s, b, close, 1);
    lemma_occurs_char(s, i + 4, open, 0);
    lemma_occurs_char(s, i + 4, open, 1);
    lemma_occurs_char(s, a, x, 0);
    assert(skip_space(s, a) == a);
    lemma_skip_over(s, i + 6, indent_text(d));
    assert(skip_space(s, i + 5) == a);
    lemma_skip_over(s, b + 2, indent_text(l));
    assert(skip_space(s, e) == e);
    assert(skip_space(s, b + 1) == e);
}

/// What `Some(` and one value are read as.
proof fn lemma_some_at(
    s: Seq<char>,
    from: int,
    i: int,
    a: int,
    b: int,
    e: int,
    depth: nat,
    inner: ValueView,
)
    requires
        0 <= from <= i,
        skip_space(s, from) == i,
        occurs(s, i, some_word()),
        at(s, i + 4, '('),
        i + 5 <= a < b < e < s.len(),
        skip_space(s, i + 5) == a,
        !field_ahead(s, i + 5),
        depth > 0,
        value_at(s, a, (depth - 1) as nat) == Ok::<(ValueView, int), ParseError>((inner, b)),
        at(s, b, ','),
        skip_space(s, b + 1) == e,
        at(s, e, ')'),
    ensures
        value_at(s, from, depth) == Ok::<(ValueView, int), ParseError>(
            (ValueView::Option(Some(Box::new(inner))), e + 1),
        ),
{
    lemma_words();
    let path = word_path(some_word());
    lemma_word_path(some_word());
    lemma_occurs_char(s, i, some_word(), 0);
    assert(skip_space(s, i + 4) == i + 4);
    assert(skip_space(s, i) == i);
    lemma_path(s, i, i, path, 0);
    assert(path.skip(0) =~= path);
    lemma_named_at_bracket(s, i, i + 4, depth, path);
    assert(skip_space(s, b) == b);
    lemma_items_at_end(s, b + 1, e, ')', depth);
    lemma_items_at_step(s, i + 5, a, b, ')', depth, inner);
    assert(seq![inner] + Seq::<ValueView>::empty() =~= seq![inner]);
    assert(items_at(s, i + 5, ')', depth) == Ok::<(Seq<ValueView>, int), ParseError>(
        (seq![inner], e + 1),
    ));
    assert(tuple_struct_at(s, path, i + 5, depth) == Ok::<(ValueView, int), ParseError>(
        (ValueView::Option(Some(Box::new(inner))), e + 1),
    ));
}

/// The printed text of a present option parses back to it.
proof fn lemma_some(l: Layout, inner: ValueView, s: Seq<char>, from: int, i: int, depth: nat)
    requires
        layout_ok(l),
        printable(inner),
        depth > 0,
        fits_depth(inner, (depth - 1) as nat),
        0 <= from <= i,
        skip_space(s, from) == i,
        occurs(s, i, some_text(l, rendered(deeper(l), inner))),
    ensures
        value_at(s, from, depth) == Ok::<(ValueView, int), ParseError>(
            (
                ValueView::Option(Some(Box::new(inner))),
                i + some_text(l, rendered(deeper(l), inner)).len(),
            ),
        ),
    decreases inner, 1nat,
{
    let d = deeper(l);
    let x = rendered(d, inner);
    lemma_first(d, inner);
    lemma_some_layout(l, x, s, i);
    let a = i + 6 + indent_text(d).len();
    let b = a + x.len();
    let e = i + some_text(l, x).len() - 1;
    assert(skip_space(s, b) == b);
    lemma_occurs_char(s, a, x, 0);
    assert(skip_space(s, a) == a);
    lemma_not_field(d, inner, s, i + 5, a);
    lemma_value(d, inner, s, a, a, (depth - 1) as nat);
    lemma_some_at(s, from, i, a, b, e, depth, inner);
}

/// The printed elements of a list, a tuple or a tuple struct, with the
/// closing bracket, parse back to the elements.
proof fn lemma_list_body(
    l: Layout,
    items: Seq<ValueView>,
    s: Seq<char>,
    i: int,
    close: char,
    depth: nat,
)
    requires
        layout_ok(l),
        items_ok(items, 0, depth),
        0 <= i,
        occurs(s, i, rendered_list(l, items)),
        at(s, i + rendered_list(l, items).len(), close),
        close == ')' || close == ']',
    ensures
        items_at(s, i, close, depth) == Ok::<(Seq<ValueView>, int), ParseError>(
            (items, i + rendered_list(l, items).len() + 1),
        ),
    decreases items, items.len() + 1,
{
    if items.len() == 0 {
        assert(skip_space(s, i) == i);
        lemma_items_at_end(s, i, i, close, depth);
        assert(items =~= Seq::empty());
    } else {
        lemma_layout_space(l);
        let all = rendered_items(deeper(l), items, 0);
        lemma_split3(s, i, newline_text(l), all, indent_text(l));
        lemma_items(deeper(l), items, 0, s, i, newline_text(l), close, depth, indent_text(l));
        assert(items.skip(0) =~= items);
    }
}

/// The printed elements from the `k`-th on parse back to those elements.
proof fn lemma_items(
    l: Layout,
    items: Seq<ValueView>,
    k: nat,
    s: Seq<char>,
    from: int,
    lead: Seq<char>,
    close: char,
    depth: nat,
    trail: Seq<char>,
)
    requires
        layout_ok(l),
        items_ok(items, k, depth),
        0 <= from,
        occurs(s, from, lead),
        all_space(lead),
        closes(s, from + lead.len(), rendered_items(l, items, k), trail, close),
        close == ')' || close == ']',
    ensures
        items_at(s, from, close, depth) == Ok::<(Seq<ValueView>, int), ParseError>(
            (
                items.skip(k as int),
                from + lead.len() + rendered_items(l, items, k).len() + trail.len() + 1,
            ),
        ),
    decreases items, items.len() - k,
{
    let i = from + lead.len();
    let all = rendered_items(l, items, k);
    let e = i + all.len() + trail.len();
    lemma_skip_over(s, from, lead);
    if k >= items.len() {
        lemma_skip_over(s, i, trail);
        assert(skip_space(s, e) == e);
        lemma_items_at_end(s, from, e, close, depth);
        assert(items.skip(k as int) =~= Seq::empty());
    } else {
        let v = items[k as int];
        let more = k + 1 < items.len();
        let r = rendered(l, v);
        let sep = separator_text(l, more);
        let rest = rendered_items(l, items, k + 1);
        assert(all == indent_text(l) + r + sep + rest);
        lemma_first(l, v);
        lemma_item_layout(l, s, i, r, sep, rest);
        let a = i + indent_text(l).len();
        let b = a + r.len();
        lemma_tail(l, s, b, more, rest, trail, close);
        lemma_value(l, v, s, a, a, (depth - 1) as nat);
        lemma_items_at_step(s, from, a, b, close, depth, v);
        if l.pretty || more {
            lemma_items(l, items, k + 1, s, b + 1, sep.skip(1), close, depth, trail);
            assert(seq![v] + items.skip(k as int + 1) =~= items.skip(k as int));
        } else {
            assert(items.skip(k as int) =~= seq![v]);
        }
    }
}

/// Where the parts of the text of an element stand.
proof fn lemma_item_layout(
    l: Layout,
    s: Seq<char>,
    i: int,
    r: Seq<char>,
    sep: Seq<char>,
    rest: Seq<char>,
)
    requires
        layout_ok(l),
        0 <= i,
        r.len() > 0,
        starts_value(r[0]),
        occurs(s, i, indent_text(l) + r + sep + rest),
    ensures
        skip_space(s, i) == i + indent_text(l).len(),
        skip_space(s, i + indent_text(l).len()) == i + indent_text(l).len(),
        occurs(s, i + indent_text(l).len(), r),
        occurs(s, i + indent_text(l).len() + r.len(), sep),
        occurs(s, i + indent_text(l).len() + r.len() + sep.len(), rest),
        (indent_text(l) + r + sep + rest).len() == indent_text(l).len() + r.len() + sep.len()
            + rest.len(),
        i + indent_text(l).len() + r.len() <= s.len(),
        s[i + indent_text(l).len()] == r[0],
{
    lemma_layout_space(l);
    let ind = indent_text(l);
    lemma_occurs_split(s, i, ind + r + sep, rest);
    lemma_split3(s, i, ind, r, sep);
    let a = i + ind.len();
    lemma_occurs_char(s, a, r, 0);
    lemma_occurs_sub(s, a, r);
    lemma_skip_over(s, i, ind);
    assert(skip_space(s, a) == a);
}

/// What the entries of a mapping need for their text to parse back.
pub open spec fn entries_ok(entries: Seq<(ValueView, ValueView)>, k: nat, depth: nat) -> bool {
    &&& k <= entries.len()
    &&& k < entries.len() ==> depth > 0
    &&& forall|j: int|
        k <= j < entries.len() ==> printable((#[trigger] entries[j]).0) && printable(
            entries[j].1,
        ) && fits_depth(entries[j].0, (depth - 1) as nat) && fits_depth(
            entries[j].1,
            (depth - 1) as nat,
        )
}

/// The printed entries of a mapping, with the closing brace, parse back
/// to the entries.
proof fn lemma_mapping_body(
    l: Layout,
    entries: Seq<(ValueView, ValueView)>,
    s: Seq<char>,
    i: int,
    depth: nat,
)
    requires
        layout_ok(l),
        entries_ok(entries, 0, depth),
        0 <= i,
        occurs(
            s,
            i,
            block_text(l, entries.len() == 0, rendered_entries(deeper(l), entries, 0)),
        ),
        at(
            s,
            i + block_text(l, entries.len() == 0, rendered_entries(deeper(l), entries, 0)).len(),
            '}',
        ),
    ensures
        entries_at(s, i, depth) == Ok::<(Seq<(ValueView, ValueView)>, int), ParseError>(
            (
                entries,
                i + block_text(
                    l,
                    entries.len() == 0,
                    rendered_entries(deeper(l), entries, 0),
                ).len() + 1,
            ),
        ),
    decreases entries, entries.len() + 1,
{
    if entries.len() == 0 {
        assert(skip_space(s, i) == i);
        lemma_entries_at_end(s, i, i, depth);
        assert(entries =~= Seq::empty());
    } else {
        lemma_layout_space(l);
        let all = rendered_entries(deeper(l), entries, 0);
        lemma_split3(s, i, newline_text(l), all, indent_text(l));
        lemma_entries(deeper(l), entries, 0, s, i, newline_text(l), depth, indent_text(l));
        assert(entries.skip(0) =~= entries);
    }
}

/// The printed entries from the `k`-th on parse back to those entries.
proof fn lemma_entries(
    l: Layout,
    entries: Seq<(ValueView, ValueView)>,
    k: nat,
    s: Seq<char>,
    from: int,
    lead: Seq<char>,
    depth: nat,
    trail: Seq<char>,
)
    requires
        layout_ok(l),
        entries_ok(entries, k, depth),
        0 <= from,
        occurs(s, from, lead),
        all_space(lead),
        closes(s, from + lead.len(), rendered_entries(l, entries, k), trail, '}'),
    ensures
        entries_at(s, from, depth) == Ok::<(Seq<(ValueView, ValueView)>, int), ParseError>(
            (
                entries.skip(k as int),
                from + lead.len() + rendered_entries(l, entries, k).len() + trail.len() + 1,
            ),
        ),
    decreases entries, entries.len() - k,
{
    let i = from + lead.len();
    let all = rendered_entries(l, entries, k);
    let e = i + all.len() + trail.len();
    lemma_skip_over(s, from, lead);
    if k >= entries.len() {
        lemma_skip_over(s, i, trail);
        assert(skip_space(s, e) == e);
        lemma_entries_at_end(s, from, e, depth);
        assert(entries.skip(k as int) =~= Seq::empty());
    } else {
        let key = entries[k as int].0;
        let value = entries[k as int].1;
        let more = k + 1 < entries.len();
        let rk = rendered(l, key);
        let rv = rendered(l, value);
        let sep = separator_text(l, more);
        let rest = rendered_entries(l, entries, k + 1);
        assert(all == indent_text(l) + rk + colon_text(l) + rv + sep + rest);
        lemma_first(l, key);
        lemma_first(l, value);
        lemma_entry_layout(l, s, i, rk, rv, sep, rest);
        let a = i + indent_text(l).len();
        let b = a + rk.len();
        let c = b + colon_text(l).len();
        let d = c + rv.len();
        lemma_value(l, key, s, a, a, (depth - 1) as nat);
        lemma_tail(l, s, d, more, rest, trail, '}');
        lemma_value(l, value, s, b + 1, c, (depth - 1) as nat);
        lemma_entries_at_step(s, from, a, b, d, depth, key, value);
        if l.pretty || more {
            lemma_entries(l, entries, k + 1, s, d + 1, sep.skip(1), depth, trail);
            assert(seq![(key, value)] + entries.skip(k as int + 1) =~= entries.skip(k as int));
        } else {
            assert(entries.skip(k as int) =~= seq![(key, value)]);
        }
    }
}

/// Where the parts of the text of an entry or of a field stand: what
/// stands before the colon, the colon, and the value.
proof fn lemma_entry_layout(
    l: Layout,
    s: Seq<char>,
    i: int,
    rk: Seq<char>,
    rv: Seq<char>,
    sep: Seq<char>,
    rest: Seq<char>,
)
    requires
        layout_ok(l),
        0 <= i,
        rk.len() > 0,
        !is_space(rk[0]),
        rv.len() > 0,
        starts_value(rv[0]),
        occurs(s, i, indent_text(l) + rk + colon_text(l) + rv + sep + rest),
    ensures
        ({
            let a = i + indent_text(l).len();
            let b = a + rk.len();
            let c = b + colon_text(l).len();
            let d = c + rv.len();
            &&& skip_space(s, i) == a
            &&& skip_space(s, a) == a
            &&& occurs(s, a, rk)
            &&& s[a] == rk[0]
            &&& b < c < d <= s.len()
            &&& s[b] == ':'
            &&& !at(s, b + 1, ':')
            &&& skip_space(s, b) == b
            &&& boundary(s, b)
            &&& skip_space(s, b + 1) == c
            &&& occurs(s, c, rv)
            &&& occurs(s, d, sep)
            &&& occurs(s, d + sep.len(), rest)
            &&& (indent_text(l) + rk + colon_text(l) + rv + sep + rest).len() == d - i
                + sep.len() + rest.len()
        }),
{
    lemma_layout_space(l);
    let ind = indent_text(l);
    let colon = colon_text(l);
    lemma_occurs_split(s, i, ind + rk + colon + rv + sep, rest);
    lemma_occurs_split(s, i, ind + rk + colon + rv, sep);
    lemma_occurs_split(s, i, ind + rk + colon, rv);
    lemma_split3(s, i, ind, rk, colon);
    let a = i + ind.len();
    let b = a + rk.len();
    let c = b + colon.len();
    lemma_occurs_char(s, a, rk, 0);
    lemma_occurs_char(s, c, rv, 0);
    lemma_occurs_sub(s, c, rv);
    lemma_occurs_char(s, b, colon, 0);
    if l.pretty {
        lemma_occurs_char(s, b, colon, 1);
    }
    lemma_skip_over(s, i, ind);
    assert(skip_space(s, a) == a);
    assert(skip_space(s, b) == b);
    assert(skip_space(s, c) == c);
    assert(skip_space(s, b + 1) == c);
}

/// What the fields of a struct need for their text to parse back.
pub open spec fn fields_ok(fields: Seq<(Seq<char>, ValueView)>, k: nat, depth: nat) -> bool {
    &&& k <= fields.len()
    &&& k < fields.len() ==> depth > 0
    &&& forall|j: int|
        k <= j < fields.len() ==> ident_ok((#[trigger] fields[j]).0) && printable(fields[j].1)
            && fits_depth(fields[j].1, (depth - 1) as nat)
}

/// The printed fields of a struct, with the closing bracket, parse back
/// to the fields, and their start looks like a field.
proof fn lemma_struct_body(
    l: Layout,
    fields: Seq<(Seq<char>, ValueView)>,
    s: Seq<char>,
    i: int,
    depth: nat,
)
    requires
        layout_ok(l),
        fields.len() > 0,
        fields_ok(fields, 0, depth),
        0 <= i,
        occurs(s, i, block_text(l, false, rendered_fields(deeper(l), fields, 0))),
        at(s, i + block_text(l, false, rendered_fields(deeper(l), fields, 0)).len(), ')'),
    ensures
        field_ahead(s, i),
        fields_at(s, i, depth) == Ok::<(Seq<(Seq<char>, ValueView)>, int), ParseError>(
            (fields, i + block_text(l, false, rendered_fields(deeper(l), fields, 0)).len() + 1),
        ),
    decreases fields, fields.len() + 1,
{
    lemma_layout_space(l);
    let all = rendered_fields(deeper(l), fields, 0);
    lemma_split3(s, i, newline_text(l), all, indent_text(l));
    lemma_fields(deeper(l), fields, 0, s, i, newline_text(l), depth, indent_text(l));
    assert(fields.skip(0) =~= fields);
}

/// The printed fields from the `k`-th on parse back to those fields.
proof fn lemma_fields(
    l: Layout,
    fields: Seq<(Seq<char>, ValueView)>,
    k: nat,
    s: Seq<char>,
    from: int,
    lead: Seq<char>,
    depth: nat,
    trail: Seq<char>,
)
    requires
        layout_ok(l),
        fields_ok(fields, k, depth),
        0 <= from,
        occurs(s, from, lead),
        all_space(lead),
        closes(s, from + lead.len(), rendered_fields(l, fields, k), trail, ')'),
    ensures
        k < fields.len() ==> field_ahead(s, from),
        fields_at(s, from, depth) == Ok::<(Seq<(Seq<char>, ValueView)>, int), ParseError>(
            (
                fields.skip(k as int),
                from + lead.len() + rendered_fields(l, fields, k).len() + trail.len() + 1,
            ),
        ),
    decreases fields, fields.len() - k,
{
    let i = from + lead.len();
    let all = rendered_fields(l, fields, k);
    let e = i + all.len() + trail.len();
    lemma_skip_over(s, from, lead);
    if k >= fields.len() {
        lemma_skip_over(s, i, trail);
        assert(skip_space(s, e) == e);
        lemma_fields_at_end(s, from, e, depth);
        assert(fields.skip(k as int) =~= Seq::empty());
    } else {
        let name = fields[k as int].0;
        let value = fields[k as int].1;
        let more = k + 1 < fields.len();
        let rv = rendered(l, value);
        let sep = separator_text(l, more);
        let rest = rendered_fields(l, fields, k + 1);
        assert(all == indent_text(l) + name + colon_text(l) + rv + sep + rest);
        lemma_first(l, value);
        assert(is_ident_start(name[0]));
        lemma_entry_layout(l, s, i, name, rv, sep, rest);
        let a = i + indent_text(l).len();
        let b = a + name.len();
        let c = b + colon_text(l).len();
        let d = c + rv.len();
        lemma_ident_scan(s, a, name, 0);
        lemma_occurs_sub(s, a, name);
        lemma_tail(l, s, d, more, rest, trail, ')');
        lemma_value(l, value, s, b + 1, c, (depth - 1) as nat);
        lemma_fields_at_step(s, from, a, b, d, depth, value);
        if l.pretty || more {
            lemma_fields(l, fields, k + 1, s, d + 1, sep.skip(1), depth, trail);
            assert(seq![(name, value)] + fields.skip(k as int + 1) =~= fields.skip(k as int));
        } else {
            assert(fields.skip(k as int) =~= seq![(name, value)]);
        }
    }
}

/// Structural equivalence of the printers: the text of a value, under
/// any layout whose indentation is whitespace, parses back to the value.
pub proof fn lemma_text_round_trip(l: Layout, v: ValueView)
    requires
        layout_ok(l),
        printable(v),
        fits_depth(v, MAX_DEPTH as nat),
    ensures
        parsed_value(rendered(l, v)) == Ok::<ValueView, ParseError>(v),
{
    let s = rendered(l, v);
    lemma_first(l, v);
    lemma_occurs_self(s);
    assert(skip_space(s, 0) == 0);
    assert(skip_space(s, s.len() as int) == s.len());
    lemma_value(l, v, s, 0, 0, MAX_DEPTH as nat);
}

/// The compact text and the pretty text of a value parse back to it.
pub proof fn lemma_printers_round_trip(v: ValueView)
    requires
        printable(v),
        fits_depth(v, MAX_DEPTH as nat),
    ensures
        parsed_value(rendered(compact_layout(), v)) == Ok::<ValueView, ParseError>(v),
        parsed_value(rendered(pretty_layout(), v)) == Ok::<ValueView, ParseError>(v),
{
    lemma_text_round_trip(compact_layout(), v);
    lemma_text_round_trip(pretty_layout(), v);
}

} // verus!
