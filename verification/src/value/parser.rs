//! The parser: the grammar, read from a vector of characters.

use crate::value::grammar::{
    arguments_at, at, char_at, digits_end, entries_at, field_ahead, fields_at,
    has_generics, ident_end, is_digit, is_ident_start, is_name, is_sign, is_space,
    items_at, lemma_ident_end, list_at, literal_end, map_at, named_struct_at, none_word,
    number_end, parsed_name, parsed_type, parsed_value, path_at, plain_path_at, segment_at,
    skip_space, some_word, string_at, syntax, tuple_at, tuple_struct_at, unescaped_at,
    unescaped_char, unescaped_text, value_at, EscapeError, ParseError, Parsed,
    UnsupportedShape, MAX_DEPTH,
};
use crate::value::roundtrip::{fits_depth, printable};
use crate::value::sorted::{collected, insert_entry, insert_field, inserted};
use crate::value::text::{chars_of, same_text, text_between};
use crate::value::types::{
    plain_segment, segments_view, types_view, GenericIdentifier, Generics, Identifier,
    SegmentView, Type, TypeIdentifier, TypeView,
};
use crate::value::{
    by_name, by_value, entries_view, fields_view, value_wf, values_view, Value, ValueView,
};
use vstd::prelude::*;

verus! {

/// `r` with `prefix` before what it read.
pub open spec fn with_prefix<T>(prefix: Seq<T>, r: Parsed<Seq<T>>) -> Parsed<Seq<T>> {
    match r {
        Ok((rest, e)) => Ok((prefix + rest, e)),
        Err(x) => Err(x),
    }
}

proof fn lemma_empty_prefix<T>(r: Parsed<Seq<T>>)
    ensures
        with_prefix(Seq::empty(), r) == r,
{
    match r {
        Ok((rest, e)) => {
            assert(Seq::<T>::empty() + rest =~= rest);
        },
        Err(_) => {},
    }
}

proof fn lemma_prefix_step<T>(prefix: Seq<T>, x: T, r: Parsed<Seq<T>>)
    ensures
        with_prefix(prefix, with_prefix(seq![x], r)) == with_prefix(prefix.push(x), r),
{
    match r {
        Ok((rest, e)) => {
            assert(prefix + (seq![x] + rest) =~= prefix.push(x) + rest);
        },
        Err(_) => {},
    }
}

proof fn lemma_prefix_last<T>(prefix: Seq<T>, x: T, e: int)
    ensures
        with_prefix(prefix, Ok((seq![x], e))) == Ok::<(Seq<T>, int), ParseError>(
            (prefix.push(x), e),
        ),
        with_prefix(prefix, Ok((Seq::empty(), e))) == Ok::<(Seq<T>, int), ParseError>(
            (prefix, e),
        ),
{
    assert(prefix + seq![x] =~= prefix.push(x));
    assert(prefix + Seq::<T>::empty() =~= prefix);
}

/// What has been collected of `entries` does not depend on what follows
/// the entries that were taken.
proof fn lemma_collected_push<K, V>(
    entries: Seq<(K, V)>,
    shape_of: spec_fn(K) -> crate::value::shape::Shape,
    key: K,
    value: V,
    n: nat,
)
    requires
        n <= entries.len(),
    ensures
        collected(entries.push((key, value)), shape_of, n) == collected(entries, shape_of, n),
        n == entries.len() ==> collected(entries.push((key, value)), shape_of, n + 1)
            == inserted(collected(entries, shape_of, n), shape_of, key, value),
    decreases n,
{
    if n > 0 {
        lemma_collected_push(entries, shape_of, key, value, (n - 1) as nat);
    }
}

fn is_space_char(c: char) -> (r: bool)
    ensures
        r == is_space(c),
{
    c == ' ' || c == '\t' || c == '\n' || c == '\r'
}

fn is_digit_char(c: char) -> (r: bool)
    ensures
        r == is_digit(c),
{
    '0' <= c && c <= '9'
}

fn is_ident_start_char(c: char) -> (r: bool)
    ensures
        r == is_ident_start(c),
{
    ('a' <= c && c <= 'z') || ('A' <= c && c <= 'Z') || c == '_'
}

fn is_sign_char(c: char) -> (r: bool)
    ensures
        r == is_sign(c),
{
    c == '+' || c == '-'
}

/// Whether the character at `i` is `c`.
fn found(chars: &Vec<char>, i: usize, c: char) -> (r: bool)
    ensures
        r == at(chars@, i as int, c),
{
    i < chars.len() && chars[i] == c
}

fn scan_space(chars: &Vec<char>, i: usize) -> (j: usize)
    requires
        i <= chars.len(),
    ensures
        j == skip_space(chars@, i as int),
        i <= j <= chars.len(),
{
    let mut j = i;
    while j < chars.len() && is_space_char(chars[j])
        invariant
            i <= j <= chars.len(),
            skip_space(chars@, i as int) == skip_space(chars@, j as int),
        decreases chars.len() - j,
    {
        j += 1;
    }
    j
}

fn scan_ident(chars: &Vec<char>, i: usize) -> (j: usize)
    requires
        i <= chars.len(),
    ensures
        j == ident_end(chars@, i as int),
        i <= j <= chars.len(),
{
    let mut j = i;
    while j < chars.len() && (is_ident_start_char(chars[j]) || is_digit_char(chars[j]))
        invariant
            i <= j <= chars.len(),
            ident_end(chars@, i as int) == ident_end(chars@, j as int),
        decreases chars.len() - j,
    {
        j += 1;
    }
    j
}

fn scan_digits(chars: &Vec<char>, i: usize) -> (j: usize)
    requires
        i <= chars.len(),
    ensures
        j == digits_end(chars@, i as int),
        i <= j <= chars.len(),
{
    let mut j = i;
    while j < chars.len() && is_digit_char(chars[j])
        invariant
            i <= j <= chars.len(),
            digits_end(chars@, i as int) == digits_end(chars@, j as int),
        decreases chars.len() - j,
    {
        j += 1;
    }
    j
}

fn scan_number(chars: &Vec<char>, i: usize) -> (r: Option<usize>)
    requires
        i <= chars.len(),
    ensures
        match r {
            Some(e) => number_end(chars@, i as int) == Some(e as int) && i < e <= chars.len(),
            None => number_end(chars@, i as int) is None,
        },
{
    let a = if i < chars.len() && is_sign_char(chars[i]) {
        i + 1
    } else {
        i
    };
    let b = scan_digits(chars, a);
    if b == a {
        return None;
    }
    let mut c = b;
    if found(chars, b, '.') {
        let f = scan_digits(chars, b + 1);
        if f > b + 1 {
            c = f;
        }
    }
    let mut d = c;
    if found(chars, c, 'e') || found(chars, c, 'E') {
        if c + 1 < chars.len() && is_sign_char(chars[c + 1]) {
            d = c + 2;
        } else {
            d = c + 1;
        }
    }
    if d > c {
        let x = scan_digits(chars, d);
        if x > d {
            return Some(x);
        }
    }
    Some(c)
}

fn scan_literal(chars: &Vec<char>, i: usize, quote: char) -> (r: Option<usize>)
    requires
        i <= chars.len(),
    ensures
        match r {
            Some(e) => literal_end(chars@, i as int, quote) == Some(e as int) && i <= e
                < chars.len(),
            None => literal_end(chars@, i as int, quote) is None,
        },
{
    let mut j = i;
    while j < chars.len()
        invariant
            i <= j <= chars.len(),
            literal_end(chars@, i as int, quote) == literal_end(chars@, j as int, quote),
        decreases chars.len() - j,
    {
        if chars[j] == quote {
            return Some(j);
        }
        if chars[j] == '\\' {
            if j + 1 < chars.len() {
                j += 2;
            } else {
                return None;
            }
        } else {
            j += 1;
        }
    }
    None
}

/// Reads one character of a literal at `i`, taking an escape for what it
/// stands for, and says where the next one starts.
pub fn unescape_single(raw: &Vec<char>, i: usize) -> (r: Result<(char, usize), EscapeError>)
    requires
        i < raw.len(),
    ensures
        match r {
            Ok((c, j)) => unescaped_at(raw@, i as int) == Ok::<(char, int), EscapeError>(
                (c, j as int),
            ) && i < j <= raw.len(),
            Err(e) => unescaped_at(raw@, i as int) == Err::<(char, int), EscapeError>(e),
        },
{
    let c = raw[i];
    if c != '\\' {
        return Ok((c, i + 1));
    }
    if i + 1 >= raw.len() {
        return Err(EscapeError::UnexpectedEnd);
    }
    let next = raw[i + 1];
    let value = if next == '\\' {
        '\\'
    } else if next == 'n' {
        '\n'
    } else if next == 'r' {
        '\r'
    } else if next == 't' {
        '\t'
    } else if next == '0' {
        '\0'
    } else if next == '"' {
        '"'
    } else if next == '\'' {
        '\''
    } else {
        return Err(EscapeError::UnknownEscape(next));
    };
    Ok((value, i + 2))
}

/// `r` with `prefix` before the text it stands for.
pub open spec fn text_after(prefix: Seq<char>, r: Result<Seq<char>, EscapeError>) -> Result<
    Seq<char>,
    EscapeError,
> {
    match r {
        Ok(rest) => Ok(prefix + rest),
        Err(e) => Err(e),
    }
}

/// The text written in `chars[from..to]`.
fn unescape_range(chars: &Vec<char>, from: usize, to: usize) -> (r: Result<String, EscapeError>)
    requires
        from <= to <= chars.len(),
    ensures
        match r {
            Ok(text) => unescaped_text(chars@.subrange(from as int, to as int), 0) == Ok::<
                Seq<char>,
                EscapeError,
            >(text@),
            Err(e) => unescaped_text(chars@.subrange(from as int, to as int), 0) == Err::<
                Seq<char>,
                EscapeError,
            >(e),
        },
{
    let raw = slice_of(chars, from, to);
    let mut out = String::new();
    let mut i: usize = 0;
    proof {
        match unescaped_text(raw@, 0) {
            Ok(rest) => {
                assert(Seq::<char>::empty() + rest =~= rest);
            },
            Err(_) => {},
        }
    }
    while i < raw.len()
        invariant
            i <= raw.len(),
            raw@ == chars@.subrange(from as int, to as int),
            unescaped_text(raw@, 0) == text_after(out@, unescaped_text(raw@, i as int)),
        decreases raw.len() - i,
    {
        match unescape_single(&raw, i) {
            Err(e) => {
                return Err(e);
            },
            Ok((c, j)) => {
                proof {
                    match unescaped_text(raw@, j as int) {
                        Ok(rest) => {
                            assert(out@ + (seq![c] + rest) =~= out@.push(c) + rest);
                        },
                        Err(_) => {},
                    }
                }
                out.push(c);
                i = j;
            },
        }
    }
    proof {
        assert(out@ + Seq::<char>::empty() =~= out@);
    }
    Ok(out)
}

/// A copy of `chars[from..to]`.
fn slice_of(chars: &Vec<char>, from: usize, to: usize) -> (r: Vec<char>)
    requires
        from <= to <= chars.len(),
    ensures
        r@ == chars@.subrange(from as int, to as int),
{
    let mut r: Vec<char> = Vec::new();
    let mut i = from;
    while i < to
        invariant
            from <= i <= to <= chars.len(),
            r@ == chars@.subrange(from as int, i as int),
        decreases to - i,
    {
        r.push(chars[i]);
        assert(r@ =~= chars@.subrange(from as int, i + 1));
        i += 1;
    }
    r
}

/// The text that `input`, taken from between the quotes of a string
/// literal, stands for.
pub fn unescape_string(input: &str) -> (r: Result<String, EscapeError>)
    ensures
        match r {
            Ok(text) => unescaped_text(input@, 0) == Ok::<Seq<char>, EscapeError>(text@),
            Err(e) => unescaped_text(input@, 0) == Err::<Seq<char>, EscapeError>(e),
        },
{
    let chars = chars_of(input);
    assert(chars@.subrange(0, chars@.len() as int) =~= input@);
    unescape_range(&chars, 0, chars.len())
}

/// The one character that `input`, taken from between the quotes of a
/// character literal, stands for.
pub fn unescape_char(input: &str) -> (r: Result<char, EscapeError>)
    requires
        input@.len() > 0,
    ensures
        match r {
            Ok(c) => unescaped_char(input@) == Ok::<char, EscapeError>(c),
            Err(e) => unescaped_char(input@) == Err::<char, EscapeError>(e),
        },
{
    let chars = chars_of(input);
    match unescape_single(&chars, 0) {
        Err(e) => Err(e),
        Ok((c, j)) => {
            if j < chars.len() {
                Err(EscapeError::TrailingGarbage)
            } else {
                Ok(c)
            }
        },
    }
}

/// Reads an identifier that starts at `j`.
pub fn parse_identifier(chars: &Vec<char>, j: usize) -> (r: (Identifier, usize))
    requires
        j < chars.len(),
        is_ident_start(chars@[j as int]),
    ensures
        r.1 == ident_end(chars@, j as int),
        r.0@ == chars@.subrange(j as int, r.1 as int),
        j < r.1 <= chars.len(),
{
    let k = scan_ident(chars, j);
    proof {
        lemma_ident_end(chars@, j + 1);
    }
    (Identifier(text_between(chars, j, k)), k)
}

/// Reads, from `i` on, the path of a name that takes no type arguments.
/// Type arguments are refused as `denied`.
pub fn parse_type_identifier(chars: &Vec<char>, i: usize, denied: UnsupportedShape) -> (r: Result<
    (TypeIdentifier, usize),
    ParseError,
>)
    requires
        i <= chars.len(),
    ensures
        match r {
            Ok((path, e)) => plain_path_at(chars@, i as int, denied) == Ok::<
                (Seq<SegmentView>, int),
                ParseError,
            >((path@, e as int)) && i < e <= chars.len(),
            Err(x) => plain_path_at(chars@, i as int, denied) == Err::<
                (Seq<SegmentView>, int),
                ParseError,
            >(x),
        },
{
    let ghost s = chars@;
    let mut segments: Vec<GenericIdentifier> = Vec::new();
    let mut cur = i;
    proof {
        lemma_empty_prefix(plain_path_at(s, i as int, denied));
    }
    loop
        invariant
            i <= cur <= chars.len(),
            s == chars@,
            plain_path_at(s, i as int, denied) == with_prefix(
                segments_view(segments@),
                plain_path_at(s, cur as int, denied),
            ),
        decreases chars.len() - cur,
    {
        let j = scan_space(chars, cur);
        if !(j < chars.len() && is_ident_start_char(chars[j])) {
            return Err(ParseError::Syntax { position: j });
        }
        let (name, k) = parse_identifier(chars, j);
        let k2 = scan_space(chars, k);
        if found(chars, k2, '<') {
            return Err(ParseError::Unsupported { position: j, shape: denied });
        }
        let ghost before = segments_view(segments@);
        let ghost n = name@;
        segments.push(GenericIdentifier { identifier: name, generics: None });
        assert(segments_view(segments@) =~= before.push(plain_segment(n)));
        if found(chars, k2, ':') && found(chars, k2 + 1, ':') {
            proof {
                lemma_prefix_step(
                    before,
                    plain_segment(n),
                    plain_path_at(s, k2 + 2, denied),
                );
            }
            cur = k2 + 2;
        } else {
            proof {
                lemma_prefix_last(before, plain_segment(n), k as int);
            }
            return Ok((TypeIdentifier { segments }, k));
        }
    }
}

/// Reads, from `i` on, the type arguments of a segment and the closing
/// angle bracket.
fn parse_arguments(chars: &Vec<char>, i: usize) -> (r: Result<(Vec<Type>, usize), ParseError>)
    requires
        i <= chars.len(),
    ensures
        match r {
            Ok((types, e)) => arguments_at(chars@, i as int) == Ok::<
                (Seq<TypeView>, int),
                ParseError,
            >((types_view(types@), e as int)) && i < e <= chars.len(),
            Err(x) => arguments_at(chars@, i as int) == Err::<(Seq<TypeView>, int), ParseError>(
                x,
            ),
        },
{
    let ghost s = chars@;
    let mut types: Vec<Type> = Vec::new();
    let mut cur = i;
    proof {
        lemma_empty_prefix(arguments_at(s, i as int));
    }
    loop
        invariant
            i <= cur <= chars.len(),
            s == chars@,
            arguments_at(s, i as int) == with_prefix(
                types_view(types@),
                arguments_at(s, cur as int),
            ),
        decreases chars.len() - cur,
    {
        let (path, k) = match parse_type_identifier(
            chars,
            cur,
            UnsupportedShape::NestedGenerics,
        ) {
            Ok(x) => x,
            Err(e) => {
                return Err(e);
            },
        };
        let k2 = scan_space(chars, k);
        let ghost before = types_view(types@);
        let ghost p = TypeView::Path(path@);
        if found(chars, k2, ',') {
            types.push(Type::TypeIdentifier(path));
            assert(types_view(types@) =~= before.push(p));
            proof {
                lemma_prefix_step(before, p, arguments_at(s, k2 + 1));
            }
            cur = k2 + 1;
        } else if found(chars, k2, '>') {
            types.push(Type::TypeIdentifier(path));
            assert(types_view(types@) =~= before.push(p));
            proof {
                lemma_prefix_last(before, p, k2 + 1);
            }
            return Ok((types, k2 + 1));
        } else {
            return Err(ParseError::Syntax { position: k2 });
        }
    }
}

/// Reads, from `i` on, one segment of the path of a type.
fn parse_segment(chars: &Vec<char>, i: usize) -> (r: Result<(GenericIdentifier, usize), ParseError>)
    requires
        i <= chars.len(),
    ensures
        match r {
            Ok((segment, e)) => segment_at(chars@, i as int) == Ok::<
                (SegmentView, int),
                ParseError,
            >((segment@, e as int)) && i < e <= chars.len(),
            Err(x) => segment_at(chars@, i as int) == Err::<(SegmentView, int), ParseError>(x),
        },
{
    let j = scan_space(chars, i);
    if !(j < chars.len() && is_ident_start_char(chars[j])) {
        return Err(ParseError::Syntax { position: j });
    }
    let (name, k) = parse_identifier(chars, j);
    let k2 = scan_space(chars, k);
    if found(chars, k2, '<') {
        match parse_arguments(chars, k2 + 1) {
            Err(e) => Err(e),
            Ok((types, e)) => Ok(
                (GenericIdentifier { identifier: name, generics: Some(Generics { types }) }, e),
            ),
        }
    } else {
        Ok((GenericIdentifier { identifier: name, generics: None }, k))
    }
}

/// Reads, from `i` on, the path of a type.
pub fn parse_generic_type(chars: &Vec<char>, i: usize) -> (r: Result<
    (TypeIdentifier, usize),
    ParseError,
>)
    requires
        i <= chars.len(),
    ensures
        match r {
            Ok((path, e)) => path_at(chars@, i as int) == Ok::<
                (Seq<SegmentView>, int),
                ParseError,
            >((path@, e as int)) && i < e <= chars.len(),
            Err(x) => path_at(chars@, i as int) == Err::<(Seq<SegmentView>, int), ParseError>(x),
        },
{
    let ghost s = chars@;
    let mut segments: Vec<GenericIdentifier> = Vec::new();
    let mut cur = i;
    proof {
        lemma_empty_prefix(path_at(s, i as int));
    }
    loop
        invariant
            i <= cur <= chars.len(),
            s == chars@,
            path_at(s, i as int) == with_prefix(
                segments_view(segments@),
                path_at(s, cur as int),
            ),
        decreases chars.len() - cur,
    {
        let (segment, k) = match parse_segment(chars, cur) {
            Ok(x) => x,
            Err(e) => {
                return Err(e);
            },
        };
        let k2 = scan_space(chars, k);
        let ghost before = segments_view(segments@);
        let ghost g = segment@;
        segments.push(segment);
        assert(segments_view(segments@) =~= before.push(g));
        if found(chars, k2, ':') && found(chars, k2 + 1, ':') {
            proof {
                lemma_prefix_step(before, g, path_at(s, k2 + 2));
            }
            cur = k2 + 2;
        } else {
            proof {
                lemma_prefix_last(before, g, k as int);
            }
            return Ok((TypeIdentifier { segments }, k));
        }
    }
}


/// Whether some segment of the path has type arguments.
fn path_has_generics(path: &TypeIdentifier) -> (r: bool)
    ensures
        r == has_generics(path@),
{
    let mut i: usize = 0;
    while i < path.segments.len()
        invariant
            i <= path.segments.len(),
            forall|j: int| 0 <= j < i ==> (#[trigger] path@[j]).generics is None,
        decreases path.segments.len() - i,
    {
        if path.segments[i].generics.is_some() {
            assert(path@[i as int].generics is Some);
            return true;
        }
        i += 1;
    }
    false
}

/// Whether the path is the one plain segment `name`.
fn path_is_name(path: &TypeIdentifier, name: &str) -> (r: bool)
    ensures
        r == is_name(path@, name@),
{
    if path.segments.len() != 1 {
        return false;
    }
    if path.segments[0].generics.is_some() {
        return false;
    }
    let same = same_text(path.segments[0].identifier.as_str(), name);
    assert(path@[0] == plain_segment(path.segments[0].identifier@));
    same
}

/// Whether what follows `i` starts with the name of a field.
fn looks_like_field(chars: &Vec<char>, i: usize) -> (r: bool)
    requires
        i <= chars.len(),
    ensures
        r == field_ahead(chars@, i as int),
{
    let j = scan_space(chars, i);
    if !(j < chars.len() && is_ident_start_char(chars[j])) {
        return false;
    }
    let k = scan_space(chars, scan_ident(chars, j));
    found(chars, k, ':') && !(k + 1 < chars.len() && chars[k + 1] == ':')
}

/// Reads the number that starts at `j`.
pub fn parse_number(chars: &Vec<char>, j: usize) -> (r: Result<(Value, usize), ParseError>)
    requires
        j <= chars.len(),
    ensures
        match r {
            Ok((v, e)) => number_end(chars@, j as int) == Some(e as int) && v@
                == ValueView::Number(chars@.subrange(j as int, e as int)) && j < e
                <= chars.len(),
            Err(x) => number_end(chars@, j as int) is None && x == syntax(j as int),
        },
{
    match scan_number(chars, j) {
        None => Err(ParseError::Syntax { position: j }),
        Some(e) => Ok((Value::Number(text_between(chars, j, e)), e)),
    }
}

/// Reads a string literal whose text starts at `start`, after the opening
/// quote.
pub fn parse_string(chars: &Vec<char>, start: usize) -> (r: Result<(Value, usize), ParseError>)
    requires
        0 < start <= chars.len(),
    ensures
        match r {
            Ok((v, e)) => string_at(chars@, start as int) == Ok::<(ValueView, int), ParseError>(
                (v@, e as int),
            ) && start < e <= chars.len(),
            Err(x) => string_at(chars@, start as int) == Err::<(ValueView, int), ParseError>(x),
        },
{
    match scan_literal(chars, start, '"') {
        None => Err(ParseError::Syntax { position: chars.len() }),
        Some(e) => match unescape_range(chars, start, e) {
            Err(x) => Err(ParseError::Escape { position: start - 1, error: x }),
            Ok(text) => Ok((Value::String(text), e + 1)),
        },
    }
}

/// The value that holds the character `c`.
fn char_value(c: char) -> (v: Value)
    ensures
        v@ == ValueView::Char(c),
{
    Value::Char(c)
}

/// Reads a character literal whose text starts at `start`, after the
/// opening quote.
pub fn parse_char(chars: &Vec<char>, start: usize) -> (r: Result<(Value, usize), ParseError>)
    requires
        0 < start <= chars.len(),
    ensures
        match r {
            Ok((v, e)) => char_at(chars@, start as int) == Ok::<(ValueView, int), ParseError>(
                (v@, e as int),
            ) && start < e <= chars.len(),
            Err(x) => char_at(chars@, start as int) == Err::<(ValueView, int), ParseError>(x),
        },
{
    match scan_literal(chars, start, '\'') {
        None => Err(ParseError::Syntax { position: chars.len() }),
        Some(e) => {
            if e == start {
                return Err(ParseError::Syntax { position: e });
            }
            let raw = slice_of(chars, start, e);
            match unescape_single(&raw, 0) {
                Err(x) => Err(ParseError::Escape { position: start - 1, error: x }),
                Ok((c, j)) => {
                    if j < raw.len() {
                        Err(
                            ParseError::Escape {
                                position: start - 1,
                                error: EscapeError::TrailingGarbage,
                            },
                        )
                    } else {
                        Ok((char_value(c), e + 1))
                    }
                },
            }
        },
    }
}

/// Reads values up to and with the closing bracket `close`.
pub fn parse_tuple_inner(chars: &Vec<char>, i: usize, close: char, depth: usize) -> (r: Result<
    (Vec<Value>, usize),
    ParseError,
>)
    requires
        i <= chars.len(),
    ensures
        match r {
            Ok((items, e)) => items_at(chars@, i as int, close, depth as nat) == Ok::<
                (Seq<ValueView>, int),
                ParseError,
            >((values_view(items@), e as int)) && i < e <= chars.len(),
            Err(x) => items_at(chars@, i as int, close, depth as nat) == Err::<
                (Seq<ValueView>, int),
                ParseError,
            >(x),
        },
    decreases chars.len() - i, 1nat,
{
    let ghost s = chars@;
    let mut items: Vec<Value> = Vec::new();
    let mut cur = i;
    proof {
        lemma_empty_prefix(items_at(s, i as int, close, depth as nat));
    }
    loop
        invariant
            i <= cur <= chars.len(),
            s == chars@,
            items_at(s, i as int, close, depth as nat) == with_prefix(
                values_view(items@),
                items_at(s, cur as int, close, depth as nat),
            ),
        decreases chars.len() - cur,
    {
        let j = scan_space(chars, cur);
        if j >= chars.len() {
            return Err(ParseError::Syntax { position: j });
        }
        let ghost before = values_view(items@);
        if chars[j] == close {
            proof {
                lemma_prefix_last(before, ValueView::Unit, j + 1);
            }
            return Ok((items, j + 1));
        }
        if depth == 0 {
            return Err(ParseError::DepthExceeded { position: j });
        }
        let (v, k) = match parse_value(chars, j, depth - 1) {
            Ok(x) => x,
            Err(e) => {
                return Err(e);
            },
        };
        let k2 = scan_space(chars, k);
        let ghost x = v@;
        if found(chars, k2, ',') {
            items.push(v);
            assert(values_view(items@) =~= before.push(x));
            proof {
                lemma_prefix_step(before, x, items_at(s, k2 + 1, close, depth as nat));
            }
            cur = k2 + 1;
        } else if found(chars, k2, close) {
            items.push(v);
            assert(values_view(items@) =~= before.push(x));
            proof {
                lemma_prefix_last(before, x, k2 + 1);
            }
            return Ok((items, k2 + 1));
        } else {
            return Err(ParseError::Syntax { position: k2 });
        }
    }
}

/// Reads the unit or a tuple from `i`, after the opening bracket.
pub fn parse_tuple(chars: &Vec<char>, i: usize, depth: usize) -> (r: Result<
    (Value, usize),
    ParseError,
>)
    requires
        i <= chars.len(),
    ensures
        match r {
            Ok((v, e)) => tuple_at(chars@, i as int, depth as nat) == Ok::<
                (ValueView, int),
                ParseError,
            >((v@, e as int)) && i < e <= chars.len(),
            Err(x) => tuple_at(chars@, i as int, depth as nat) == Err::<
                (ValueView, int),
                ParseError,
            >(x),
        },
    decreases chars.len() - i, 2nat,
{
    match parse_tuple_inner(chars, i, ')', depth) {
        Err(e) => Err(e),
        Ok((items, e)) => {
            if items.len() == 0 {
                Ok((Value::Unit, e))
            } else {
                Ok((Value::Tuple(items), e))
            }
        },
    }
}

/// Reads a list from `i`, after the opening bracket.
pub fn parse_list(chars: &Vec<char>, i: usize, depth: usize) -> (r: Result<
    (Value, usize),
    ParseError,
>)
    requires
        i <= chars.len(),
    ensures
        match r {
            Ok((v, e)) => list_at(chars@, i as int, depth as nat) == Ok::<
                (ValueView, int),
                ParseError,
            >((v@, e as int)) && i < e <= chars.len(),
            Err(x) => list_at(chars@, i as int, depth as nat) == Err::<
                (ValueView, int),
                ParseError,
            >(x),
        },
    decreases chars.len() - i, 2nat,
{
    match parse_tuple_inner(chars, i, ']', depth) {
        Err(e) => Err(e),
        Ok((items, e)) => Ok((Value::List(items), e)),
    }
}

/// Reads a mapping from `i`, after the opening brace.
pub fn parse_map(chars: &Vec<char>, i: usize, depth: usize) -> (r: Result<
    (Value, usize),
    ParseError,
>)
    requires
        i <= chars.len(),
    ensures
        match r {
            Ok((v, e)) => map_at(chars@, i as int, depth as nat) == Ok::<
                (ValueView, int),
                ParseError,
            >((v@, e as int)) && i < e <= chars.len(),
            Err(x) => map_at(chars@, i as int, depth as nat) == Err::<
                (ValueView, int),
                ParseError,
            >(x),
        },
    decreases chars.len() - i, 2nat,
{
    let ghost s = chars@;
    let ghost mut read: Seq<(ValueView, ValueView)> = Seq::empty();
    let mut entries: Vec<(Value, Value)> = Vec::new();
    let mut cur = i;
    proof {
        lemma_empty_prefix(entries_at(s, i as int, depth as nat));
        assert(entries_view(entries@) =~= Seq::empty());
    }
    loop
        invariant
            i <= cur <= chars.len(),
            s == chars@,
            entries_at(s, i as int, depth as nat) == with_prefix(
                read,
                entries_at(s, cur as int, depth as nat),
            ),
            entries_view(entries@) == collected(read, by_value(), read.len()),
        decreases chars.len() - cur,
    {
        let j = scan_space(chars, cur);
        if j >= chars.len() {
            return Err(ParseError::Syntax { position: j });
        }
        if chars[j] == '}' {
            proof {
                lemma_prefix_last(read, (ValueView::Unit, ValueView::Unit), j + 1);
            }
            return Ok((Value::Mapping(entries), j + 1));
        }
        if depth == 0 {
            return Err(ParseError::DepthExceeded { position: j });
        }
        let (key, k) = match parse_value(chars, j, depth - 1) {
            Ok(x) => x,
            Err(e) => {
                return Err(e);
            },
        };
        let k2 = scan_space(chars, k);
        if !found(chars, k2, ':') {
            return Err(ParseError::Syntax { position: k2 });
        }
        let (value, m) = match parse_value(chars, k2 + 1, depth - 1) {
            Ok(x) => x,
            Err(e) => {
                return Err(e);
            },
        };
        let m2 = scan_space(chars, m);
        let ghost pair = (key@, value@);
        if found(chars, m2, ',') {
            proof {
                lemma_collected_push(read, by_value(), pair.0, pair.1, read.len());
                lemma_prefix_step(read, pair, entries_at(s, m2 + 1, depth as nat));
            }
            insert_entry(&mut entries, key, value);
            proof {
                read = read.push(pair);
            }
            cur = m2 + 1;
        } else if found(chars, m2, '}') {
            proof {
                lemma_collected_push(read, by_value(), pair.0, pair.1, read.len());
                lemma_prefix_last(read, pair, m2 + 1);
            }
            insert_entry(&mut entries, key, value);
            return Ok((Value::Mapping(entries), m2 + 1));
        } else {
            return Err(ParseError::Syntax { position: m2 });
        }
    }
}

/// Reads the fields of the struct named `path` from `i`, after the
/// opening bracket.
pub fn parse_named_struct(chars: &Vec<char>, path: TypeIdentifier, i: usize, depth: usize) -> (r:
    Result<(Value, usize), ParseError>)
    requires
        i <= chars.len(),
    ensures
        match r {
            Ok((v, e)) => named_struct_at(chars@, path@, i as int, depth as nat) == Ok::<
                (ValueView, int),
                ParseError,
            >((v@, e as int)) && i < e <= chars.len(),
            Err(x) => named_struct_at(chars@, path@, i as int, depth as nat) == Err::<
                (ValueView, int),
                ParseError,
            >(x),
        },
    decreases chars.len() - i, 2nat,
{
    let ghost s = chars@;
    let ghost mut read: Seq<(Seq<char>, ValueView)> = Seq::empty();
    let mut fields: Vec<(Identifier, Value)> = Vec::new();
    let mut cur = i;
    proof {
        lemma_empty_prefix(fields_at(s, i as int, depth as nat));
        assert(fields_view(fields@) =~= Seq::empty());
    }
    loop
        invariant
            i <= cur <= chars.len(),
            s == chars@,
            fields_at(s, i as int, depth as nat) == with_prefix(
                read,
                fields_at(s, cur as int, depth as nat),
            ),
            fields_view(fields@) == collected(read, by_name(), read.len()),
        decreases chars.len() - cur,
    {
        let j = scan_space(chars, cur);
        if j >= chars.len() {
            return Err(ParseError::Syntax { position: j });
        }
        if chars[j] == ')' {
            proof {
                lemma_prefix_last(read, (Seq::empty(), ValueView::Unit), j + 1);
            }
            return Ok((Value::Struct(path, fields), j + 1));
        }
        if !is_ident_start_char(chars[j]) {
            return Err(ParseError::Syntax { position: j });
        }
        let (name, k) = parse_identifier(chars, j);
        let k2 = scan_space(chars, k);
        if !found(chars, k2, ':') {
            return Err(ParseError::Syntax { position: k2 });
        }
        if depth == 0 {
            return Err(ParseError::DepthExceeded { position: j });
        }
        let (value, m) = match parse_value(chars, k2 + 1, depth - 1) {
            Ok(x) => x,
            Err(e) => {
                return Err(e);
            },
        };
        let m2 = scan_space(chars, m);
        let ghost pair = (name@, value@);
        if found(chars, m2, ',') {
            proof {
                lemma_collected_push(read, by_name(), pair.0, pair.1, read.len());
                lemma_prefix_step(read, pair, fields_at(s, m2 + 1, depth as nat));
            }
            insert_field(&mut fields, name, value);
            proof {
                read = read.push(pair);
            }
            cur = m2 + 1;
        } else if found(chars, m2, ')') {
            proof {
                lemma_collected_push(read, by_name(), pair.0, pair.1, read.len());
                lemma_prefix_last(read, pair, m2 + 1);
            }
            insert_field(&mut fields, name, value);
            return Ok((Value::Struct(path, fields), m2 + 1));
        } else {
            return Err(ParseError::Syntax { position: m2 });
        }
    }
}

/// Reads the values of the tuple struct named `path` from `i`, after the
/// opening bracket.
pub fn parse_tuple_struct(chars: &Vec<char>, path: TypeIdentifier, i: usize, depth: usize) -> (r:
    Result<(Value, usize), ParseError>)
    requires
        i <= chars.len(),
    ensures
        match r {
            Ok((v, e)) => tuple_struct_at(chars@, path@, i as int, depth as nat) == Ok::<
                (ValueView, int),
                ParseError,
            >((v@, e as int)) && i < e <= chars.len(),
            Err(x) => tuple_struct_at(chars@, path@, i as int, depth as nat) == Err::<
                (ValueView, int),
                ParseError,
            >(x),
        },
    decreases chars.len() - i, 2nat,
{
    match parse_tuple_inner(chars, i, ')', depth) {
        Err(e) => Err(e),
        Ok((items, e)) => {
            proof {
                reveal_strlit("Some");
                assert("Some"@ =~= some_word());
            }
            let mut items = items;
            if items.len() == 1 && path_is_name(&path, "Some") {
                let ghost all = values_view(items@);
                let inner = items.pop().unwrap();
                assert(inner@ == all[0]);
                Ok((Value::Option(Some(Box::new(inner))), e))
            } else {
                Ok((Value::TupleStruct(path, items), e))
            }
        },
    }
}

/// Reads a value from `i` on, with composites nested at most `depth`
/// deep.
pub fn parse_value(chars: &Vec<char>, i: usize, depth: usize) -> (r: Result<
    (Value, usize),
    ParseError,
>)
    requires
        i <= chars.len(),
    ensures
        match r {
            Ok((v, e)) => value_at(chars@, i as int, depth as nat) == Ok::<
                (ValueView, int),
                ParseError,
            >((v@, e as int)) && i < e <= chars.len(),
            Err(x) => value_at(chars@, i as int, depth as nat) == Err::<
                (ValueView, int),
                ParseError,
            >(x),
        },
    decreases chars.len() - i, 0nat,
{
    let j = scan_space(chars, i);
    if j >= chars.len() {
        return Err(ParseError::Syntax { position: j });
    }
    let c = chars[j];
    if c == '(' {
        parse_tuple(chars, j + 1, depth)
    } else if c == '[' {
        parse_list(chars, j + 1, depth)
    } else if c == '{' {
        parse_map(chars, j + 1, depth)
    } else if c == '"' {
        parse_string(chars, j + 1)
    } else if c == '\'' {
        parse_char(chars, j + 1)
    } else if is_sign_char(c) || is_digit_char(c) {
        parse_number(chars, j)
    } else if is_ident_start_char(c) {
        let (path, k) = match parse_generic_type(chars, j) {
            Ok(x) => x,
            Err(e) => {
                return Err(e);
            },
        };
        let k2 = scan_space(chars, k);
        if found(chars, k2, '(') {
            if path_has_generics(&path) {
                Err(ParseError::Unsupported { position: j, shape: UnsupportedShape::GenericsOnName })
            } else if path.segments.len() > 2 {
                Err(ParseError::Unsupported { position: j, shape: UnsupportedShape::PathTooLong })
            } else if looks_like_field(chars, k2 + 1) {
                parse_named_struct(chars, path, k2 + 1, depth)
            } else {
                parse_tuple_struct(chars, path, k2 + 1, depth)
            }
        } else {
            proof {
                reveal_strlit("None");
                assert("None"@ =~= none_word());
            }
            if path_is_name(&path, "None") {
                Ok((Value::Option(None), k))
            } else {
                Ok((Value::Type(Type::TypeIdentifier(path)), k))
            }
        }
    } else {
        Err(ParseError::Syntax { position: j })
    }
}

/// Checks that nothing but whitespace follows `end`.
pub fn parse_starter(chars: &Vec<char>, end: usize) -> (r: Result<(), ParseError>)
    requires
        end <= chars.len(),
    ensures
        match r {
            Ok(_) => skip_space(chars@, end as int) >= chars@.len(),
            Err(x) => skip_space(chars@, end as int) < chars@.len() && x == syntax(
                skip_space(chars@, end as int),
            ),
        },
{
    let j = scan_space(chars, end);
    if j < chars.len() {
        Err(ParseError::Syntax { position: j })
    } else {
        Ok(())
    }
}

/// Parses a text that holds one value. What is parsed is well formed, and
/// its text parses back to it.
pub fn parse_main_value(input: &str) -> (r: Result<Value, ParseError>)
    ensures
        match r {
            Ok(v) => parsed_value(input@) == Ok::<ValueView, ParseError>(v@) && value_wf(v@)
                && printable(v@) && fits_depth(v@, MAX_DEPTH as nat),
            Err(x) => parsed_value(input@) == Err::<ValueView, ParseError>(x),
        },
{
    proof {
        crate::value::wellformed::lemma_parsed_wf(input@);
        crate::value::parsed::lemma_parsed_printable(input@);
    }
    let chars = chars_of(input);
    match parse_value(&chars, 0, MAX_DEPTH) {
        Err(e) => Err(e),
        Ok((v, end)) => match parse_starter(&chars, end) {
            Err(e) => Err(e),
            Ok(_) => Ok(v),
        },
    }
}

/// Parses a text that holds the name of a type or of a variant: one or two
/// segments, without type arguments.
pub fn parse_main_type_identifier(input: &str) -> (r: Result<TypeIdentifier, ParseError>)
    ensures
        match r {
            Ok(path) => parsed_name(input@) == Ok::<Seq<SegmentView>, ParseError>(path@),
            Err(x) => parsed_name(input@) == Err::<Seq<SegmentView>, ParseError>(x),
        },
{
    let chars = chars_of(input);
    let start = scan_space(&chars, 0);
    match parse_type_identifier(&chars, 0, UnsupportedShape::GenericsOnName) {
        Err(e) => Err(e),
        Ok((path, end)) => match parse_starter(&chars, end) {
            Err(e) => Err(e),
            Ok(_) => {
                if path.segments.len() > 2 {
                    Err(
                        ParseError::Unsupported {
                            position: start,
                            shape: UnsupportedShape::PathTooLong,
                        },
                    )
                } else {
                    Ok(path)
                }
            },
        },
    }
}

/// Parses a text that holds a type: a path whose segments may take type
/// arguments, one level deep.
pub fn parse_main_type(input: &str) -> (r: Result<Type, ParseError>)
    ensures
        match r {
            Ok(t) => parsed_type(input@) == Ok::<TypeView, ParseError>(t@),
            Err(x) => parsed_type(input@) == Err::<TypeView, ParseError>(x),
        },
{
    let chars = chars_of(input);
    match parse_generic_type(&chars, 0) {
        Err(e) => Err(e),
        Ok((path, end)) => match parse_starter(&chars, end) {
            Err(e) => Err(e),
            Ok(_) => Ok(Type::TypeIdentifier(path)),
        },
    }
}

impl Value {
    /// Parses a text that holds one value. What is parsed is well
    /// formed, and its text parses back to it.
    pub fn parse(string: &str) -> (r: Result<Value, ParseError>)
        ensures
            match r {
                Ok(v) => parsed_value(string@) == Ok::<ValueView, ParseError>(v@) && value_wf(
                    v@,
                ) && printable(v@) && fits_depth(v@, MAX_DEPTH as nat),
                Err(x) => parsed_value(string@) == Err::<ValueView, ParseError>(x),
            },
    {
        parse_main_value(string)
    }
}

impl TypeIdentifier {
    /// Parses a text that holds the name of a type or of a variant.
    pub fn parse(input: &str) -> (r: Result<TypeIdentifier, ParseError>)
        ensures
            match r {
                Ok(path) => parsed_name(input@) == Ok::<Seq<SegmentView>, ParseError>(path@),
                Err(x) => parsed_name(input@) == Err::<Seq<SegmentView>, ParseError>(x),
            },
    {
        parse_main_type_identifier(input)
    }
}

impl Type {
    /// Parses a text that holds a type.
    pub fn parse(input: &str) -> (r: Result<Type, ParseError>)
        ensures
            match r {
                Ok(t) => parsed_type(input@) == Ok::<TypeView, ParseError>(t@),
                Err(x) => parsed_type(input@) == Err::<TypeView, ParseError>(x),
            },
    {
        parse_main_type(input)
    }
}

} // verus!
