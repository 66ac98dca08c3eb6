//! The text syntax, as functions on sequences of characters.
//!
//! Whitespace may stand between any two tokens. A comma may follow the
//! last element of a composite.
//!
//! ```text
//! value    := "(" values ")" | "[" values "]" | "{" entries "}"
//!           | number | string | char
//!           | path "(" fields ")" | path "(" values ")" | path
//! values   := (value ("," value)* ","?)?
//! entries  := (value ":" value ("," value ":" value)* ","?)?
//! fields   := ident ":" value ("," ident ":" value)* ","?
//! path     := segment ("::" segment)*
//! segment  := ident ("<" argument ("," argument)* ">")?
//! argument := ident ("::" ident)*
//! number   := [+-]? digits ("." digits)? ([eE] [+-]? digits)?
//! string   := '"' (any but '"' and '\' | '\' any)* '"'
//! char     := "'" (any but "'" and '\' | '\' any)+ "'"
//! ```
//!
//! Round brackets without a value between them are the unit. A path before
//! a round bracket names a struct or a variant of an enum: it has one or
//! two segments and no type arguments. The name `Some` before one value is
//! a present option, and the name `None` alone is the absent one. Any
//! other path alone is a type.

use crate::value::sorted::collected;
use crate::value::types::{plain_segment, SegmentView, TypeView};
use crate::value::{by_name, by_value, ValueView};
use vstd::prelude::*;

verus! {

/// Why the text between the delimiters of a literal is no text.
#[derive(Clone, Copy, PartialEq, Eq, Debug)]
pub enum EscapeError {
    /// The text ends after a backslash.
    UnexpectedEnd,
    /// A backslash stands before a character that has no escape.
    UnknownEscape(char),
    /// A character literal holds more than one character.
    TrailingGarbage,
}

/// A shape that the syntax can write down and the format does not take.
#[derive(Clone, Copy, PartialEq, Eq, Debug)]
pub enum UnsupportedShape {
    /// Type arguments on the name of a struct or of a variant.
    GenericsOnName,
    /// Type arguments inside type arguments.
    NestedGenerics,
    /// A name of more than two segments where a type or a variant of an
    /// enum is named.
    PathTooLong,
}

/// Why a text was not parsed.
#[derive(Clone, Copy, PartialEq, Eq, Debug)]
pub enum ParseError {
    /// The text does not follow the grammar at this character.
    Syntax { position: usize },
    /// The string or the character literal that opens at this character
    /// holds a bad escape.
    Escape { position: usize, error: EscapeError },
    /// The name that starts at this character is of a shape that is not
    /// supported.
    Unsupported { position: usize, shape: UnsupportedShape },
    /// What starts at this character lies nested deeper than [`MAX_DEPTH`].
    DepthExceeded { position: usize },
}

/// How deep composites may be nested in a text.
pub const MAX_DEPTH: usize = 128;

/// The result of parsing from some position: what was read and where the
/// reading ended.
pub type Parsed<T> = Result<(T, int), ParseError>;

/// The syntax error at position `i`.
pub open spec fn syntax(i: int) -> ParseError {
    ParseError::Syntax { position: i as usize }
}

/// The error for a bad escape in the literal that opens at position `i`.
pub open spec fn escape_at(i: int, error: EscapeError) -> ParseError {
    ParseError::Escape { position: i as usize, error }
}

/// The error for an unsupported shape of the name that starts at position
/// `i`.
pub open spec fn unsupported_at(i: int, shape: UnsupportedShape) -> ParseError {
    ParseError::Unsupported { position: i as usize, shape }
}

/// The error for what starts at position `i` and lies too deep.
pub open spec fn too_deep_at(i: int) -> ParseError {
    ParseError::DepthExceeded { position: i as usize }
}

/// Whitespace: a space, a tab, a newline or a carriage return.
pub open spec fn is_space(c: char) -> bool {
    c == ' ' || c == '\t' || c == '\n' || c == '\r'
}

/// One of the ten digits.
pub open spec fn is_digit(c: char) -> bool {
    '0' <= c && c <= '9'
}

/// A character with which a name can start: a letter or an underscore.
pub open spec fn is_ident_start(c: char) -> bool {
    ('a' <= c && c <= 'z') || ('A' <= c && c <= 'Z') || c == '_'
}

/// A character of a name: a letter, a digit or an underscore.
pub open spec fn is_ident_part(c: char) -> bool {
    is_ident_start(c) || is_digit(c)
}

/// A plus or a minus.
pub open spec fn is_sign(c: char) -> bool {
    c == '+' || c == '-'
}

/// Whether the character at `i` is `c`.
pub open spec fn at(s: Seq<char>, i: int, c: char) -> bool {
    0 <= i < s.len() && s[i] == c
}

/// The first position from `i` on that holds no whitespace.
pub open spec fn skip_space(s: Seq<char>, i: int) -> int
    decreases s.len() - i,
{
    if 0 <= i < s.len() && is_space(s[i]) {
        skip_space(s, i + 1)
    } else {
        i
    }
}

/// The first position from `i` on that holds no character of an identifier.
pub open spec fn ident_end(s: Seq<char>, i: int) -> int
    decreases s.len() - i,
{
    if 0 <= i < s.len() && is_ident_part(s[i]) {
        ident_end(s, i + 1)
    } else {
        i
    }
}

/// The first position from `i` on that holds no digit.
pub open spec fn digits_end(s: Seq<char>, i: int) -> int
    decreases s.len() - i,
{
    if 0 <= i < s.len() && is_digit(s[i]) {
        digits_end(s, i + 1)
    } else {
        i
    }
}

/// Where the number that starts at `i` ends, if one starts there: after an
/// optional sign and at least one digit, then after a fraction and after an
/// exponent where they are complete.
pub open spec fn number_end(s: Seq<char>, i: int) -> Option<int> {
    let a = if 0 <= i < s.len() && is_sign(s[i]) {
        i + 1
    } else {
        i
    };
    let b = digits_end(s, a);
    if b == a {
        None
    } else {
        let c = if at(s, b, '.') && digits_end(s, b + 1) > b + 1 {
            digits_end(s, b + 1)
        } else {
            b
        };
        let d = if at(s, c, 'e') || at(s, c, 'E') {
            if 0 <= c + 1 < s.len() && is_sign(s[c + 1]) {
                c + 2
            } else {
                c + 1
            }
        } else {
            c
        };
        if d > c && digits_end(s, d) > d {
            Some(digits_end(s, d))
        } else {
            Some(c)
        }
    }
}

/// Where the delimiter `quote` closes the literal whose text starts at `i`.
/// A backslash takes the character after it along, whatever it is.
pub open spec fn literal_end(s: Seq<char>, i: int, quote: char) -> Option<int>
    decreases s.len() - i,
{
    if !(0 <= i < s.len()) {
        None
    } else if s[i] == quote {
        Some(i)
    } else if s[i] == '\\' {
        if i + 1 < s.len() {
            literal_end(s, i + 2, quote)
        } else {
            None
        }
    } else {
        literal_end(s, i + 1, quote)
    }
}

/// The character that an escape stands for, if `c` after a backslash is an
/// escape.
pub open spec fn escape_value(c: char) -> Option<char> {
    if c == '\\' {
        Some('\\')
    } else if c == 'n' {
        Some('\n')
    } else if c == 'r' {
        Some('\r')
    } else if c == 't' {
        Some('\t')
    } else if c == '0' {
        Some('\0')
    } else if c == '"' {
        Some('"')
    } else if c == '\'' {
        Some('\'')
    } else {
        None
    }
}

/// The character written at `i` of `raw`, and where the next one starts.
pub open spec fn unescaped_at(raw: Seq<char>, i: int) -> Result<(char, int), EscapeError>
    recommends
        0 <= i < raw.len(),
{
    if raw[i] != '\\' {
        Ok((raw[i], i + 1))
    } else if i + 1 >= raw.len() {
        Err(EscapeError::UnexpectedEnd)
    } else {
        match escape_value(raw[i + 1]) {
            Some(c) => Ok((c, i + 2)),
            None => Err(EscapeError::UnknownEscape(raw[i + 1])),
        }
    }
}

/// The text written in `raw[i..]`.
pub open spec fn unescaped_text(raw: Seq<char>, i: int) -> Result<Seq<char>, EscapeError>
    decreases raw.len() - i,
{
    if !(0 <= i < raw.len()) {
        Ok(Seq::empty())
    } else {
        match unescaped_at(raw, i) {
            Err(e) => Err(e),
            Ok((c, j)) => match unescaped_text(raw, j) {
                Err(e) => Err(e),
                Ok(rest) => Ok(seq![c] + rest),
            },
        }
    }
}

/// The one character written in `raw`.
pub open spec fn unescaped_char(raw: Seq<char>) -> Result<char, EscapeError>
    recommends
        raw.len() > 0,
{
    match unescaped_at(raw, 0) {
        Err(e) => Err(e),
        Ok((c, j)) => if j < raw.len() {
            Err(EscapeError::TrailingGarbage)
        } else {
            Ok(c)
        },
    }
}

/// Where skipping whitespace ends: at the first character that is none.
pub proof fn lemma_skip_space(s: Seq<char>, i: int)
    requires
        0 <= i <= s.len(),
    ensures
        i <= skip_space(s, i) <= s.len(),
        skip_space(s, i) < s.len() ==> !is_space(s[skip_space(s, i)]),
        forall|j: int| i <= j < skip_space(s, i) ==> is_space(#[trigger] s[j]),
    decreases s.len() - i,
{
    if i < s.len() && is_space(s[i]) {
        lemma_skip_space(s, i + 1);
    }
}

/// Where a name ends: at the first character that is none of a name.
pub proof fn lemma_ident_end(s: Seq<char>, i: int)
    requires
        0 <= i <= s.len(),
    ensures
        i <= ident_end(s, i) <= s.len(),
        ident_end(s, i) < s.len() ==> !is_ident_part(s[ident_end(s, i)]),
        forall|j: int| i <= j < ident_end(s, i) ==> is_ident_part(#[trigger] s[j]),
    decreases s.len() - i,
{
    if i < s.len() && is_ident_part(s[i]) {
        lemma_ident_end(s, i + 1);
    }
}

/// Where digits end: at the first character that is no digit.
pub proof fn lemma_digits_end(s: Seq<char>, i: int)
    requires
        0 <= i <= s.len(),
    ensures
        i <= digits_end(s, i) <= s.len(),
        digits_end(s, i) < s.len() ==> !is_digit(s[digits_end(s, i)]),
        forall|j: int| i <= j < digits_end(s, i) ==> is_digit(#[trigger] s[j]),
    decreases s.len() - i,
{
    if i < s.len() && is_digit(s[i]) {
        lemma_digits_end(s, i + 1);
    }
}

/// A number is not empty.
pub proof fn lemma_number_end(s: Seq<char>, i: int)
    requires
        0 <= i <= s.len(),
    ensures
        number_end(s, i) matches Some(e) ==> i < e <= s.len(),
{
    let a = if 0 <= i < s.len() && is_sign(s[i]) {
        i + 1
    } else {
        i
    };
    lemma_digits_end(s, a);
    let b = digits_end(s, a);
    if b != a {
        if b + 1 <= s.len() {
            lemma_digits_end(s, b + 1);
        }
        let c = if at(s, b, '.') && digits_end(s, b + 1) > b + 1 {
            digits_end(s, b + 1)
        } else {
            b
        };
        if c + 1 <= s.len() {
            lemma_digits_end(s, c + 1);
        }
        if c + 2 <= s.len() {
            lemma_digits_end(s, c + 2);
        }
    }
}

/// The name of a segment that takes no type arguments, read from `i`.
/// Where type arguments follow, the text is refused as `denied`.
pub open spec fn plain_segment_at(s: Seq<char>, i: int, denied: UnsupportedShape) -> Parsed<
    Seq<char>,
> {
    let j = skip_space(s, i);
    if !(0 <= j < s.len() && is_ident_start(s[j])) {
        Err(syntax(j))
    } else {
        let k = ident_end(s, j);
        if at(s, skip_space(s, k), '<') {
            Err(unsupported_at(j, denied))
        } else {
            Ok((s.subrange(j, k), k))
        }
    }
}

/// A name is not empty.
pub proof fn lemma_plain_segment_at(s: Seq<char>, i: int, denied: UnsupportedShape)
    requires
        0 <= i <= s.len(),
    ensures
        plain_segment_at(s, i, denied) matches Ok((_, e)) ==> i < e <= s.len(),
{
    lemma_skip_space(s, i);
    let j = skip_space(s, i);
    if j < s.len() {
        lemma_ident_end(s, j + 1);
    }
}

/// A path of segments without type arguments, read from `i`.
pub open spec fn plain_path_at(s: Seq<char>, i: int, denied: UnsupportedShape) -> Parsed<
    Seq<SegmentView>,
>
    decreases s.len() - i,
{
    if !(0 <= i <= s.len()) {
        Err(syntax(i))
    } else {
        match plain_segment_at(s, i, denied) {
            Err(e) => Err(e),
            Ok((name, k)) => {
                let k2 = skip_space(s, k);
                if at(s, k2, ':') && at(s, k2 + 1, ':') {
                    proof {
                        lemma_plain_segment_at(s, i, denied);
                        lemma_skip_space(s, k);
                    }
                    match plain_path_at(s, k2 + 2, denied) {
                        Err(e) => Err(e),
                        Ok((rest, e)) => Ok((seq![plain_segment(name)] + rest, e)),
                    }
                } else {
                    Ok((seq![plain_segment(name)], k))
                }
            },
        }
    }
}

/// A path without type arguments is not empty.
pub proof fn lemma_plain_path_at(s: Seq<char>, i: int, denied: UnsupportedShape)
    requires
        0 <= i <= s.len(),
    ensures
        plain_path_at(s, i, denied) matches Ok((p, e)) ==> i < e <= s.len() && p.len() > 0,
    decreases s.len() - i,
{
    lemma_plain_segment_at(s, i, denied);
    match plain_segment_at(s, i, denied) {
        Err(_) => {},
        Ok((name, k)) => {
            lemma_skip_space(s, k);
            let k2 = skip_space(s, k);
            if at(s, k2, ':') && at(s, k2 + 1, ':') {
                lemma_plain_path_at(s, k2 + 2, denied);
            }
        },
    }
}

/// The type arguments of a segment, read from `i`, which is after the
/// opening angle bracket: one or more paths, separated by commas, and the
/// closing angle bracket. An argument takes no type arguments of its own.
pub open spec fn arguments_at(s: Seq<char>, i: int) -> Parsed<Seq<TypeView>>
    decreases s.len() - i,
{
    if !(0 <= i <= s.len()) {
        Err(syntax(i))
    } else {
        match plain_path_at(s, i, UnsupportedShape::NestedGenerics) {
            Err(e) => Err(e),
            Ok((path, k)) => {
                let k2 = skip_space(s, k);
                if at(s, k2, ',') {
                    proof {
                        lemma_plain_path_at(s, i, UnsupportedShape::NestedGenerics);
                        lemma_skip_space(s, k);
                    }
                    match arguments_at(s, k2 + 1) {
                        Err(e) => Err(e),
                        Ok((rest, e)) => Ok((seq![TypeView::Path(path)] + rest, e)),
                    }
                } else if at(s, k2, '>') {
                    Ok((seq![TypeView::Path(path)], k2 + 1))
                } else {
                    Err(syntax(k2))
                }
            },
        }
    }
}

/// Type arguments are not empty.
pub proof fn lemma_arguments_at(s: Seq<char>, i: int)
    requires
        0 <= i <= s.len(),
    ensures
        arguments_at(s, i) matches Ok((a, e)) ==> i < e <= s.len() && a.len() > 0,
    decreases s.len() - i,
{
    lemma_plain_path_at(s, i, UnsupportedShape::NestedGenerics);
    match plain_path_at(s, i, UnsupportedShape::NestedGenerics) {
        Err(_) => {},
        Ok((path, k)) => {
            lemma_skip_space(s, k);
            let k2 = skip_space(s, k);
            if at(s, k2, ',') {
                lemma_arguments_at(s, k2 + 1);
            }
        },
    }
}

/// A segment of the path of a type, read from `i`: a name and, in angle
/// brackets, its type arguments where it has any.
pub open spec fn segment_at(s: Seq<char>, i: int) -> Parsed<SegmentView> {
    let j = skip_space(s, i);
    if !(0 <= j < s.len() && is_ident_start(s[j])) {
        Err(syntax(j))
    } else {
        let k = ident_end(s, j);
        let k2 = skip_space(s, k);
        if at(s, k2, '<') {
            match arguments_at(s, k2 + 1) {
                Err(e) => Err(e),
                Ok((arguments, e)) => Ok(
                    (
                        SegmentView { identifier: s.subrange(j, k), generics: Some(arguments) },
                        e,
                    ),
                ),
            }
        } else {
            Ok((plain_segment(s.subrange(j, k)), k))
        }
    }
}

/// A segment is not empty.
pub proof fn lemma_segment_at(s: Seq<char>, i: int)
    requires
        0 <= i <= s.len(),
    ensures
        segment_at(s, i) matches Ok((_, e)) ==> i < e <= s.len(),
{
    lemma_skip_space(s, i);
    let j = skip_space(s, i);
    if j < s.len() {
        lemma_ident_end(s, j + 1);
        let k = ident_end(s, j);
        if is_ident_start(s[j]) {
            lemma_skip_space(s, k);
            let k2 = skip_space(s, k);
            if at(s, k2, '<') {
                lemma_arguments_at(s, k2 + 1);
            }
        }
    }
}

/// The path of a type, read from `i`.
pub open spec fn path_at(s: Seq<char>, i: int) -> Parsed<Seq<SegmentView>>
    decreases s.len() - i,
{
    if !(0 <= i <= s.len()) {
        Err(syntax(i))
    } else {
        match segment_at(s, i) {
            Err(e) => Err(e),
            Ok((segment, k)) => {
                let k2 = skip_space(s, k);
                if at(s, k2, ':') && at(s, k2 + 1, ':') {
                    proof {
                        lemma_segment_at(s, i);
                        lemma_skip_space(s, k);
                    }
                    match path_at(s, k2 + 2) {
                        Err(e) => Err(e),
                        Ok((rest, e)) => Ok((seq![segment] + rest, e)),
                    }
                } else {
                    Ok((seq![segment], k))
                }
            },
        }
    }
}

/// Whether some segment of the path has type arguments.
pub open spec fn has_generics(path: Seq<SegmentView>) -> bool {
    exists|i: int| 0 <= i < path.len() && (#[trigger] path[i]).generics is Some
}

/// Whether the path is the one plain segment `name`.
pub open spec fn is_name(path: Seq<SegmentView>, name: Seq<char>) -> bool {
    path.len() == 1 && path[0] == plain_segment(name)
}

/// The word that stands for an absent option.
pub open spec fn none_word() -> Seq<char> {
    seq!['N', 'o', 'n', 'e']
}

/// The word that opens a present option.
pub open spec fn some_word() -> Seq<char> {
    seq!['S', 'o', 'm', 'e']
}

/// Whether what follows `i`, which is after an opening bracket, starts
/// with the name of a field: an identifier and one colon.
pub open spec fn field_ahead(s: Seq<char>, i: int) -> bool {
    let j = skip_space(s, i);
    0 <= j < s.len() && is_ident_start(s[j]) && {
        let k = skip_space(s, ident_end(s, j));
        at(s, k, ':') && !at(s, k + 1, ':')
    }
}

/// A value, read from `i`, with composites nested at most `depth` deep.
/// The first character after whitespace decides what is read.
pub open spec fn value_at(s: Seq<char>, i: int, depth: nat) -> Parsed<ValueView>
    decreases s.len() - i, 1nat,
{
    let j = skip_space(s, i);
    if !(0 <= i <= j < s.len()) {
        Err(syntax(j))
    } else if s[j] == '(' {
        tuple_at(s, j + 1, depth)
    } else if s[j] == '[' {
        list_at(s, j + 1, depth)
    } else if s[j] == '{' {
        map_at(s, j + 1, depth)
    } else if s[j] == '"' {
        string_at(s, j + 1)
    } else if s[j] == '\'' {
        char_at(s, j + 1)
    } else if is_sign(s[j]) || is_digit(s[j]) {
        number_at(s, j)
    } else if is_ident_start(s[j]) {
        named_at(s, j, depth)
    } else {
        Err(syntax(j))
    }
}

/// What a number that starts at `j` is read as.
pub open spec fn number_at(s: Seq<char>, j: int) -> Parsed<ValueView> {
    match number_end(s, j) {
        None => Err(syntax(j)),
        Some(e) => Ok((ValueView::Number(s.subrange(j, e)), e)),
    }
}

/// What a string literal whose text starts at `start` is read as.
pub open spec fn string_at(s: Seq<char>, start: int) -> Parsed<ValueView> {
    match literal_end(s, start, '"') {
        None => Err(syntax(s.len() as int)),
        Some(e) => match unescaped_text(s.subrange(start, e), 0) {
            Err(x) => Err(escape_at(start - 1, x)),
            Ok(text) => Ok((ValueView::String(text), e + 1)),
        },
    }
}

/// What a character literal whose text starts at `start` is read as.
pub open spec fn char_at(s: Seq<char>, start: int) -> Parsed<ValueView> {
    match literal_end(s, start, '\'') {
        None => Err(syntax(s.len() as int)),
        Some(e) => if e == start {
            Err(syntax(e))
        } else {
            match unescaped_char(s.subrange(start, e)) {
                Err(x) => Err(escape_at(start - 1, x)),
                Ok(c) => Ok((ValueView::Char(c), e + 1)),
            }
        },
    }
}

/// What `(` and what follows it from `i` on is read as: the unit, or a
/// tuple.
pub open spec fn tuple_at(s: Seq<char>, i: int, depth: nat) -> Parsed<ValueView>
    decreases s.len() - i, 3nat,
{
    match items_at(s, i, ')', depth) {
        Err(e) => Err(e),
        Ok((items, e)) => Ok(
            (
                if items.len() == 0 {
                    ValueView::Unit
                } else {
                    ValueView::Tuple(items)
                },
                e,
            ),
        ),
    }
}

/// What `[` and what follows it from `i` on is read as.
pub open spec fn list_at(s: Seq<char>, i: int, depth: nat) -> Parsed<ValueView>
    decreases s.len() - i, 3nat,
{
    match items_at(s, i, ']', depth) {
        Err(e) => Err(e),
        Ok((items, e)) => Ok((ValueView::List(items), e)),
    }
}

/// What `{` and what follows it from `i` on is read as.
pub open spec fn map_at(s: Seq<char>, i: int, depth: nat) -> Parsed<ValueView>
    decreases s.len() - i, 3nat,
{
    match entries_at(s, i, depth) {
        Err(e) => Err(e),
        Ok((entries, e)) => Ok(
            (ValueView::Mapping(collected(entries, by_value(), entries.len())), e),
        ),
    }
}

/// What the round bracket after the name `path`, and the fields that
/// follow it from `i` on, are read as.
pub open spec fn named_struct_at(s: Seq<char>, path: Seq<SegmentView>, i: int, depth: nat) -> Parsed<
    ValueView,
>
    decreases s.len() - i, 3nat,
{
    match fields_at(s, i, depth) {
        Err(e) => Err(e),
        Ok((fields, e)) => Ok(
            (ValueView::Struct(path, collected(fields, by_name(), fields.len())), e),
        ),
    }
}

/// What the round bracket after the name `path`, and the values that
/// follow it from `i` on, are read as: a present option where the name is
/// `Some` and one value follows, else a tuple struct.
pub open spec fn tuple_struct_at(s: Seq<char>, path: Seq<SegmentView>, i: int, depth: nat) -> Parsed<
    ValueView,
>
    decreases s.len() - i, 3nat,
{
    match items_at(s, i, ')', depth) {
        Err(e) => Err(e),
        Ok((items, e)) => Ok(
            (
                if is_name(path, some_word()) && items.len() == 1 {
                    ValueView::Option(Some(Box::new(items[0])))
                } else {
                    ValueView::TupleStruct(path, items)
                },
                e,
            ),
        ),
    }
}

/// What starts with a name at `j` is read as: a struct or a tuple struct
/// where a round bracket follows the name, else the absent option or a
/// type.
pub open spec fn named_at(s: Seq<char>, j: int, depth: nat) -> Parsed<ValueView>
    decreases s.len() - j, 0nat,
{
    match path_at(s, j) {
        Err(e) => Err(e),
        Ok((path, k)) => {
            let k2 = skip_space(s, k);
            if at(s, k2, '(') {
                if has_generics(path) {
                    Err(unsupported_at(j, UnsupportedShape::GenericsOnName))
                } else if path.len() > 2 {
                    Err(unsupported_at(j, UnsupportedShape::PathTooLong))
                } else if !(j < k <= k2) {
                    Err(syntax(j))
                } else if field_ahead(s, k2 + 1) {
                    named_struct_at(s, path, k2 + 1, depth)
                } else {
                    tuple_struct_at(s, path, k2 + 1, depth)
                }
            } else if is_name(path, none_word()) {
                Ok((ValueView::Option(None), k))
            } else {
                Ok((ValueView::Type(TypeView::Path(path)), k))
            }
        },
    }
}

/// Values separated by commas, read from `i` up to and with the closing
/// bracket `close`. A comma may follow the last value.
pub open spec fn items_at(s: Seq<char>, i: int, close: char, depth: nat) -> Parsed<
    Seq<ValueView>,
>
    decreases s.len() - i, 2nat,
{
    let j = skip_space(s, i);
    if !(0 <= i <= j < s.len()) {
        Err(syntax(j))
    } else if s[j] == close {
        Ok((Seq::empty(), j + 1))
    } else if depth == 0 {
        Err(too_deep_at(j))
    } else {
        match value_at(s, j, (depth - 1) as nat) {
            Err(e) => Err(e),
            Ok((v, k)) => {
                let k2 = skip_space(s, k);
                if !(j < k <= k2) {
                    Err(syntax(j))
                } else if at(s, k2, ',') {
                    match items_at(s, k2 + 1, close, depth) {
                        Err(e) => Err(e),
                        Ok((rest, e)) => Ok((seq![v] + rest, e)),
                    }
                } else if at(s, k2, close) {
                    Ok((seq![v], k2 + 1))
                } else {
                    Err(syntax(k2))
                }
            },
        }
    }
}

/// The entries of a mapping, read from `i` up to and with the closing
/// brace: pairs of a key, a colon and a value, separated by commas.
pub open spec fn entries_at(s: Seq<char>, i: int, depth: nat) -> Parsed<
    Seq<(ValueView, ValueView)>,
>
    decreases s.len() - i, 2nat,
{
    let j = skip_space(s, i);
    if !(0 <= i <= j < s.len()) {
        Err(syntax(j))
    } else if s[j] == '}' {
        Ok((Seq::empty(), j + 1))
    } else if depth == 0 {
        Err(too_deep_at(j))
    } else {
        match value_at(s, j, (depth - 1) as nat) {
            Err(e) => Err(e),
            Ok((key, k)) => {
                let k2 = skip_space(s, k);
                if !(j < k <= k2) {
                    Err(syntax(j))
                } else if !at(s, k2, ':') {
                    Err(syntax(k2))
                } else {
                    match value_at(s, k2 + 1, (depth - 1) as nat) {
                        Err(e) => Err(e),
                        Ok((value, m)) => {
                            let m2 = skip_space(s, m);
                            if !(k2 < m <= m2) {
                                Err(syntax(k2))
                            } else if at(s, m2, ',') {
                                match entries_at(s, m2 + 1, depth) {
                                    Err(e) => Err(e),
                                    Ok((rest, e)) => Ok((seq![(key, value)] + rest, e)),
                                }
                            } else if at(s, m2, '}') {
                                Ok((seq![(key, value)], m2 + 1))
                            } else {
                                Err(syntax(m2))
                            }
                        },
                    }
                }
            },
        }
    }
}

/// The fields of a struct, read from `i` up to and with the closing round
/// bracket: pairs of a name, a colon and a value, separated by commas.
pub open spec fn fields_at(s: Seq<char>, i: int, depth: nat) -> Parsed<
    Seq<(Seq<char>, ValueView)>,
>
    decreases s.len() - i, 2nat,
{
    let j = skip_space(s, i);
    if !(0 <= i <= j < s.len()) {
        Err(syntax(j))
    } else if s[j] == ')' {
        Ok((Seq::empty(), j + 1))
    } else if !is_ident_start(s[j]) {
        Err(syntax(j))
    } else {
        let k = ident_end(s, j);
        let k2 = skip_space(s, k);
        if !(j < k <= k2) {
            Err(syntax(j))
        } else if !at(s, k2, ':') {
            Err(syntax(k2))
        } else if depth == 0 {
            Err(too_deep_at(j))
        } else {
            match value_at(s, k2 + 1, (depth - 1) as nat) {
                Err(e) => Err(e),
                Ok((value, m)) => {
                    let m2 = skip_space(s, m);
                    if !(k2 < m <= m2) {
                        Err(syntax(k2))
                    } else if at(s, m2, ',') {
                        match fields_at(s, m2 + 1, depth) {
                            Err(e) => Err(e),
                            Ok((rest, e)) => Ok((seq![(s.subrange(j, k), value)] + rest, e)),
                        }
                    } else if at(s, m2, ')') {
                        Ok((seq![(s.subrange(j, k), value)], m2 + 1))
                    } else {
                        Err(syntax(m2))
                    }
                },
            }
        }
    }
}

/// `r`, if nothing but whitespace follows where it ended.
pub open spec fn to_the_end<T>(s: Seq<char>, r: Parsed<T>) -> Result<T, ParseError> {
    match r {
        Err(e) => Err(e),
        Ok((v, e)) => if skip_space(s, e) < s.len() {
            Err(syntax(skip_space(s, e)))
        } else {
            Ok(v)
        },
    }
}

/// The value that the whole of `s` is the text of.
pub open spec fn parsed_value(s: Seq<char>) -> Result<ValueView, ParseError> {
    to_the_end(s, value_at(s, 0, MAX_DEPTH as nat))
}

/// The type that the whole of `s` is the text of.
pub open spec fn parsed_type(s: Seq<char>) -> Result<TypeView, ParseError> {
    match to_the_end(s, path_at(s, 0)) {
        Err(e) => Err(e),
        Ok(path) => Ok(TypeView::Path(path)),
    }
}

/// The name of a type or of a variant that the whole of `s` is the text
/// of: one or two segments, without type arguments.
pub open spec fn parsed_name(s: Seq<char>) -> Result<Seq<SegmentView>, ParseError> {
    match to_the_end(s, plain_path_at(s, 0, UnsupportedShape::GenericsOnName)) {
        Err(e) => Err(e),
        Ok(path) => if path.len() > 2 {
            Err(unsupported_at(skip_space(s, 0), UnsupportedShape::PathTooLong))
        } else {
            Ok(path)
        },
    }
}

} // verus!
