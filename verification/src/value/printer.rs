//! The two printers: compact and pretty.

use crate::value::text::{chars_of, push_range, push_text};
use crate::value::types::{path_text, type_text, Identifier, TypeIdentifier};
use crate::value::{entries_view, fields_view, values_view, Value, ValueView};
use vstd::prelude::*;

verus! {

/// How a printer lays text out.
pub struct Layout {
    /// Whether composites are spread over lines.
    pub pretty: bool,
    /// The text of one level of indentation.
    pub indentation: Seq<char>,
    /// How many levels deep the printer stands.
    pub level: usize,
}

/// Renders values as text.
#[derive(Clone, Copy)]
pub struct ValuePrinter<'indent> {
    indentation_level: usize,
    indentation: &'indent str,
    pretty: bool,
}

/// The layout one level further in. The count of levels stops at the
/// largest number the machine holds.
pub open spec fn deeper(l: Layout) -> Layout {
    Layout {
        level: if l.level < usize::MAX {
            (l.level + 1) as usize
        } else {
            l.level
        },
        ..l
    }
}

/// `n` copies of `s`, one after the other.
pub open spec fn repeated(s: Seq<char>, n: nat) -> Seq<char>
    decreases n,
{
    if n == 0 {
        Seq::empty()
    } else {
        s + repeated(s, (n - 1) as nat)
    }
}

/// The end of a line: a newline when pretty, nothing when compact.
pub open spec fn newline_text(l: Layout) -> Seq<char> {
    if l.pretty {
        seq!['\n']
    } else {
        Seq::empty()
    }
}

/// The start of a line: the indentation of the level when pretty, nothing
/// when compact.
pub open spec fn indent_text(l: Layout) -> Seq<char> {
    if l.pretty {
        repeated(l.indentation, l.level as nat)
    } else {
        Seq::empty()
    }
}

/// What follows an element: when pretty, a comma and a newline after every
/// element; when compact, a comma between two elements only.
pub open spec fn separator_text(l: Layout, more: bool) -> Seq<char> {
    if l.pretty {
        seq![',', '\n']
    } else if more {
        seq![',']
    } else {
        Seq::empty()
    }
}

/// What stands between a key and its value: a colon, and a space when
/// pretty.
pub open spec fn colon_text(l: Layout) -> Seq<char> {
    if l.pretty {
        seq![':', ' ']
    } else {
        seq![':']
    }
}

/// The escape that strings and character literals share, for the
/// characters that have one: backslash, newline, carriage return, tab, NUL.
pub open spec fn escaped_generic(c: char) -> Option<Seq<char>> {
    if c == '\\' {
        Some(seq!['\\', '\\'])
    } else if c == '\n' {
        Some(seq!['\\', 'n'])
    } else if c == '\r' {
        Some(seq!['\\', 'r'])
    } else if c == '\t' {
        Some(seq!['\\', 't'])
    } else if c == '\0' {
        Some(seq!['\\', '0'])
    } else {
        None
    }
}

/// How `c` is written inside a literal delimited by `quote`: by its escape
/// if it has one, with a backslash before it if it is the delimiter, else
/// as it is.
pub open spec fn escaped_char(c: char, quote: char) -> Seq<char> {
    match escaped_generic(c) {
        Some(escape) => escape,
        None => if c == quote {
            seq!['\\', c]
        } else {
            seq![c]
        },
    }
}

/// How `s[i..]` is written inside a literal delimited by `quote`.
pub open spec fn escaped_text(s: Seq<char>, quote: char, i: nat) -> Seq<char>
    decreases s.len() - i,
{
    if i >= s.len() {
        Seq::empty()
    } else {
        escaped_char(s[i as int], quote) + escaped_text(s, quote, i + 1)
    }
}

/// `inner` between the delimiters `open` and `close`.
pub open spec fn delimited(open: char, inner: Seq<char>, close: char) -> Seq<char> {
    seq![open] + inner + seq![close]
}

/// What stands between the delimiters of a composite: nothing if it is
/// empty, else the text of its elements, on lines of their own when pretty.
pub open spec fn block_text(l: Layout, empty: bool, elements: Seq<char>) -> Seq<char> {
    if empty {
        Seq::empty()
    } else {
        newline_text(l) + elements + indent_text(l)
    }
}

/// A present option around the text of what it holds. The newlines and the
/// comma are written when compact too.
pub open spec fn some_text(l: Layout, inner: Seq<char>) -> Seq<char> {
    seq!['S', 'o', 'm', 'e', '(', '\n'] + indent_text(deeper(l)) + inner + seq![',', '\n']
        + indent_text(l) + seq![')']
}

/// The text of a truth value.
pub open spec fn bool_text(b: bool) -> Seq<char> {
    if b {
        seq!['t', 'r', 'u', 'e']
    } else {
        seq!['f', 'a', 'l', 's', 'e']
    }
}

/// The text of a value under a layout.
pub open spec fn rendered(l: Layout, v: ValueView) -> Seq<char>
    decreases v, 0nat,
{
    match v {
        ValueView::Unit => seq!['(', ')'],
        ValueView::Bool(b) => bool_text(b),
        ValueView::Char(c) => delimited('\'', escaped_char(c, '\''), '\''),
        ValueView::String(s) => delimited('"', escaped_text(s, '"', 0), '"'),
        ValueView::Number(s) => s,
        ValueView::Type(t) => type_text(t),
        ValueView::List(items) => delimited('[', rendered_list(l, items), ']'),
        ValueView::Tuple(items) => delimited('(', rendered_list(l, items), ')'),
        ValueView::Mapping(entries) => delimited(
            '{',
            block_text(l, entries.len() == 0, rendered_entries(deeper(l), entries, 0)),
            '}',
        ),
        ValueView::Option(inner) => match inner {
            None => seq!['N', 'o', 'n', 'e'],
            Some(b) => some_text(l, rendered(deeper(l), *b)),
        },
        ValueView::Struct(path, fields) => path_text(path, 0) + delimited(
            '(',
            block_text(l, fields.len() == 0, rendered_fields(deeper(l), fields, 0)),
            ')',
        ),
        ValueView::TupleStruct(path, items) => path_text(path, 0) + delimited(
            '(',
            rendered_list(l, items),
            ')',
        ),
    }
}

/// What stands between the delimiters of a list, a tuple or a tuple
/// struct.
pub open spec fn rendered_list(l: Layout, items: Seq<ValueView>) -> Seq<char>
    decreases items, items.len() + 1,
{
    block_text(l, items.len() == 0, rendered_items(deeper(l), items, 0))
}

/// The text of `items[i..]`, each on a line of its own when pretty.
pub open spec fn rendered_items(l: Layout, items: Seq<ValueView>, i: nat) -> Seq<char>
    decreases items, items.len() - i,
{
    if i >= items.len() {
        Seq::empty()
    } else {
        indent_text(l) + rendered(l, items[i as int]) + separator_text(l, i + 1 < items.len())
            + rendered_items(l, items, i + 1)
    }
}

/// The text of `entries[i..]`, each as key, colon, value.
pub open spec fn rendered_entries(
    l: Layout,
    entries: Seq<(ValueView, ValueView)>,
    i: nat,
) -> Seq<char>
    decreases entries, entries.len() - i,
{
    if i >= entries.len() {
        Seq::empty()
    } else {
        indent_text(l) + rendered(l, entries[i as int].0) + colon_text(l) + rendered(
            l,
            entries[i as int].1,
        ) + separator_text(l, i + 1 < entries.len()) + rendered_entries(l, entries, i + 1)
    }
}

/// The text of `fields[i..]`, each as name, colon, value.
pub open spec fn rendered_fields(
    l: Layout,
    fields: Seq<(Seq<char>, ValueView)>,
    i: nat,
) -> Seq<char>
    decreases fields, fields.len() - i,
{
    if i >= fields.len() {
        Seq::empty()
    } else {
        indent_text(l) + fields[i as int].0 + colon_text(l) + rendered(l, fields[i as int].1)
            + separator_text(l, i + 1 < fields.len()) + rendered_fields(l, fields, i + 1)
    }
}

/// The layout of the pretty printer: four spaces a level.
pub open spec fn pretty_layout() -> Layout {
    Layout { pretty: true, indentation: seq![' ', ' ', ' ', ' '], level: 0 }
}

/// The layout of the compact printer.
pub open spec fn compact_layout() -> Layout {
    Layout { pretty: false, indentation: Seq::empty(), level: 0 }
}

/// The escape that strings and character literals share: `Ok` with the
/// escape where `input` has one, else `Err` with `input` itself.
pub fn escape_char_generic(input: char) -> (r: Result<&'static str, char>)
    ensures
        match r {
            Ok(escape) => escaped_generic(input) == Some(escape@),
            Err(c) => c == input && escaped_generic(input) is None,
        },
{
    proof {
        reveal_strlit("\\\\");
        reveal_strlit("\\n");
        reveal_strlit("\\r");
        reveal_strlit("\\t");
        reveal_strlit("\\0");
    }
    if input == '\\' {
        assert("\\\\"@ =~= seq!['\\', '\\']);
        Ok("\\\\")
    } else if input == '\n' {
        assert("\\n"@ =~= seq!['\\', 'n']);
        Ok("\\n")
    } else if input == '\r' {
        assert("\\r"@ =~= seq!['\\', 'r']);
        Ok("\\r")
    } else if input == '\t' {
        assert("\\t"@ =~= seq!['\\', 't']);
        Ok("\\t")
    } else if input == '\0' {
        assert("\\0"@ =~= seq!['\\', '0']);
        Ok("\\0")
    } else {
        Err(input)
    }
}

/// Appends `c` to `out` as it is written inside a literal delimited by
/// `quote`.
fn push_escaped(out: &mut String, c: char, quote: char)
    ensures
        final(out)@ == old(out)@ + escaped_char(c, quote),
{
    match escape_char_generic(c) {
        Ok(escape) => {
            push_text(out, escape);
        },
        Err(c) => {
            if c == quote {
                out.push('\\');
                out.push(c);
                assert(out@ =~= old(out)@ + seq!['\\', c]);
            } else {
                out.push(c);
                assert(out@ =~= old(out)@ + seq![c]);
            }
        },
    }
}

/// How `c` is written inside a character literal.
pub fn escape_char(c: char) -> (r: String)
    ensures
        r@ == escaped_char(c, '\''),
{
    let mut out = String::new();
    push_escaped(&mut out, c, '\'');
    assert(out@ =~= escaped_char(c, '\''));
    out
}

/// Appends `s` to `out` as it is written inside a string literal.
fn push_escaped_text(out: &mut String, s: &str)
    ensures
        final(out)@ == old(out)@ + escaped_text(s@, '"', 0),
{
    let chars = chars_of(s);
    let mut i: usize = 0;
    while i < chars.len()
        invariant
            i <= chars.len(),
            chars@ == s@,
            out@ + escaped_text(s@, '"', i as nat) == old(out)@ + escaped_text(s@, '"', 0),
        decreases chars.len() - i,
    {
        let ghost before = out@;
        push_escaped(out, chars[i], '"');
        assert(out@ + escaped_text(s@, '"', (i + 1) as nat) =~= before + escaped_text(
            s@,
            '"',
            i as nat,
        ));
        i += 1;
    }
    assert(out@ + escaped_text(s@, '"', i as nat) =~= out@);
}

/// How `s` is written inside a string literal.
pub fn escape_string(s: &str) -> (r: String)
    ensures
        r@ == escaped_text(s@, '"', 0),
{
    let mut out = String::new();
    push_escaped_text(&mut out, s);
    assert(out@ =~= escaped_text(s@, '"', 0));
    out
}

fn push_unit(w: &mut String)
    ensures
        final(w)@ == old(w)@ + seq!['(', ')'],
{
    w.push('(');
    w.push(')');
    assert(w@ =~= old(w)@ + seq!['(', ')']);
}

fn push_bool(w: &mut String, b: bool)
    ensures
        final(w)@ == old(w)@ + bool_text(b),
{
    if b {
        w.push('t');
        w.push('r');
        w.push('u');
        w.push('e');
        assert(w@ =~= old(w)@ + seq!['t', 'r', 'u', 'e']);
    } else {
        w.push('f');
        w.push('a');
        w.push('l');
        w.push('s');
        w.push('e');
        assert(w@ =~= old(w)@ + seq!['f', 'a', 'l', 's', 'e']);
    }
}

fn push_char_literal(w: &mut String, c: char)
    ensures
        final(w)@ == old(w)@ + delimited('\'', escaped_char(c, '\''), '\''),
{
    w.push('\'');
    push_escaped(w, c, '\'');
    w.push('\'');
    assert(w@ =~= old(w)@ + (seq!['\''] + escaped_char(c, '\'') + seq!['\'']));
}

fn push_string_literal(w: &mut String, s: &str)
    ensures
        final(w)@ == old(w)@ + delimited('"', escaped_text(s@, '"', 0), '"'),
{
    w.push('"');
    push_escaped_text(w, s);
    w.push('"');
    assert(w@ =~= old(w)@ + (seq!['"'] + escaped_text(s@, '"', 0) + seq!['"']));
}

fn push_none(w: &mut String)
    ensures
        final(w)@ == old(w)@ + seq!['N', 'o', 'n', 'e'],
{
    w.push('N');
    w.push('o');
    w.push('n');
    w.push('e');
    assert(w@ =~= old(w)@ + seq!['N', 'o', 'n', 'e']);
}

fn push_some_open(w: &mut String)
    ensures
        final(w)@ == old(w)@ + seq!['S', 'o', 'm', 'e', '(', '\n'],
{
    w.push('S');
    w.push('o');
    w.push('m');
    w.push('e');
    w.push('(');
    w.push('\n');
    assert(w@ =~= old(w)@ + seq!['S', 'o', 'm', 'e', '(', '\n']);
}

fn push_some_close(w: &mut String)
    ensures
        final(w)@ == old(w)@ + seq![',', '\n'],
{
    w.push(',');
    w.push('\n');
    assert(w@ =~= old(w)@ + seq![',', '\n']);
}

impl<'indent> View for ValuePrinter<'indent> {
    type V = Layout;

    closed spec fn view(&self) -> Layout {
        Layout {
            pretty: self.pretty,
            indentation: self.indentation@,
            level: self.indentation_level,
        }
    }
}

impl Default for ValuePrinter<'static> {
    fn default() -> (r: Self)
        ensures
            r@ == pretty_layout(),
    {
        ValuePrinter::pretty()
    }
}

impl<'indent> ValuePrinter<'indent> {
    /// A printer at level 0 with the given indentation.
    pub fn new(indentation: &'indent str, pretty: bool) -> (r: Self)
        ensures
            r@ == (Layout { pretty, indentation: indentation@, level: 0 }),
    {
        ValuePrinter { indentation_level: 0, indentation, pretty }
    }

    /// The pretty printer: four spaces a level.
    pub fn pretty() -> (r: ValuePrinter<'static>)
        ensures
            r@ == pretty_layout(),
    {
        proof {
            reveal_strlit("    ");
            assert("    "@ =~= seq![' ', ' ', ' ', ' ']);
        }
        ValuePrinter::new("    ", true)
    }

    /// The compact printer.
    pub fn compact() -> (r: ValuePrinter<'static>)
        ensures
            r@ == compact_layout(),
    {
        proof {
            reveal_strlit("");
            assert(""@ =~= Seq::<char>::empty());
        }
        ValuePrinter::new("", false)
    }

    /// The printer one level further in.
    pub fn indent(self) -> (r: Self)
        ensures
            r@ == deeper(self@),
    {
        let level = if self.indentation_level < usize::MAX {
            self.indentation_level + 1
        } else {
            self.indentation_level
        };
        ValuePrinter {
            indentation_level: level,
            indentation: self.indentation,
            pretty: self.pretty,
        }
    }

    /// Appends the indentation of the printer's level, when pretty.
    pub fn write_indent(self, w: &mut String)
        ensures
            final(w)@ == old(w)@ + indent_text(self@),
    {
        if self.pretty {
            let unit = chars_of(self.indentation);
            let n = self.indentation_level;
            let mut i: usize = 0;
            while i < n
                invariant
                    i <= n,
                    unit@ == self.indentation@,
                    w@ + repeated(unit@, (n - i) as nat) == old(w)@ + repeated(unit@, n as nat),
                decreases n - i,
            {
                let ghost before = w@;
                push_range(w, &unit, 0, unit.len());
                assert(unit@.subrange(0, unit@.len() as int) =~= unit@);
                assert(w@ + repeated(unit@, (n - i - 1) as nat) =~= before + repeated(
                    unit@,
                    (n - i) as nat,
                ));
                i += 1;
            }
            assert(w@ + repeated(unit@, 0) =~= w@);
        } else {
            assert(w@ + indent_text(self@) =~= w@);
        }
    }

    /// Appends a newline, when pretty.
    pub fn write_newline(self, w: &mut String)
        ensures
            final(w)@ == old(w)@ + newline_text(self@),
    {
        if self.pretty {
            w.push('\n');
            assert(w@ =~= old(w)@ + seq!['\n']);
        } else {
            assert(w@ + newline_text(self@) =~= w@);
        }
    }

    /// Appends what follows an element.
    fn write_separator(self, w: &mut String, more: bool)
        ensures
            final(w)@ == old(w)@ + separator_text(self@, more),
    {
        if self.pretty {
            w.push(',');
            w.push('\n');
            assert(w@ =~= old(w)@ + seq![',', '\n']);
        } else if more {
            w.push(',');
            assert(w@ =~= old(w)@ + seq![',']);
        } else {
            assert(w@ + separator_text(self@, more) =~= w@);
        }
    }

    /// Appends what stands between a key and its value.
    fn write_colon(self, w: &mut String)
        ensures
            final(w)@ == old(w)@ + colon_text(self@),
    {
        w.push(':');
        if self.pretty {
            w.push(' ');
            assert(w@ =~= old(w)@ + seq![':', ' ']);
        } else {
            assert(w@ =~= old(w)@ + seq![':']);
        }
    }

    /// Appends the text of `value`.
    pub fn write(self, value: &Value, w: &mut String)
        ensures
            final(w)@ == old(w)@ + rendered(self@, value@),
        decreases value, 0nat,
    {
        match value {
            Value::Unit => {
                push_unit(w);
            },
            Value::Bool(b) => {
                push_bool(w, *b);
            },
            Value::Char(c) => {
                push_char_literal(w, *c);
            },
            Value::String(s) => {
                push_string_literal(w, s.as_str());
            },
            Value::Number(s) => {
                push_text(w, s.as_str());
            },
            Value::Type(t) => {
                t.write_to(w);
            },
            Value::List(items) => {
                self.write_delimited_list(w, '[', items, ']');
            },
            Value::Tuple(items) => {
                self.write_delimited_list(w, '(', items, ')');
            },
            Value::Mapping(entries) => {
                self.write_mapping(w, entries);
            },
            Value::Option(inner) => match inner {
                None => {
                    push_none(w);
                },
                Some(b) => {
                    self.write_some(w, &**b);
                },
            },
            Value::Struct(path, fields) => {
                self.write_struct(w, path, fields);
            },
            Value::TupleStruct(path, items) => {
                let ghost start = w@;
                path.write_to(w);
                self.write_delimited_list(w, '(', items, ')');
                assert(w@ =~= start + (path_text(path@, 0) + delimited(
                    '(',
                    rendered_list(self@, values_view(items@)),
                    ')',
                )));
            },
        }
    }

    /// Appends a present option.
    fn write_some(self, w: &mut String, inner: &Value)
        ensures
            final(w)@ == old(w)@ + some_text(self@, rendered(deeper(self@), inner@)),
        decreases inner, 1nat,
    {
        push_some_open(w);
        let inner_printer = self.indent();
        inner_printer.write_indent(w);
        inner_printer.write(inner, w);
        push_some_close(w);
        self.write_indent(w);
        w.push(')');
        assert(w@ =~= old(w)@ + some_text(self@, rendered(deeper(self@), inner@)));
    }

    /// Appends a mapping.
    fn write_mapping(self, w: &mut String, entries: &Vec<(Value, Value)>)
        ensures
            final(w)@ == old(w)@ + delimited(
                '{',
                block_text(
                    self@,
                    entries@.len() == 0,
                    rendered_entries(deeper(self@), entries_view(entries@), 0),
                ),
                '}',
            ),
        decreases entries, 2nat,
    {
        w.push('{');
        if entries.len() > 0 {
            self.write_newline(w);
            self.indent().write_entries(w, entries);
            self.write_indent(w);
        }
        w.push('}');
        assert(w@ =~= old(w)@ + delimited(
            '{',
            block_text(
                self@,
                entries@.len() == 0,
                rendered_entries(deeper(self@), entries_view(entries@), 0),
            ),
            '}',
        ));
    }

    /// Appends a struct.
    fn write_struct(self, w: &mut String, path: &TypeIdentifier, fields: &Vec<(Identifier, Value)>)
        ensures
            final(w)@ == old(w)@ + (path_text(path@, 0) + delimited(
                '(',
                block_text(
                    self@,
                    fields@.len() == 0,
                    rendered_fields(deeper(self@), fields_view(fields@), 0),
                ),
                ')',
            )),
        decreases fields, 2nat,
    {
        path.write_to(w);
        w.push('(');
        if fields.len() > 0 {
            self.write_newline(w);
            self.indent().write_fields(w, fields);
            self.write_indent(w);
        }
        w.push(')');
        assert(w@ =~= old(w)@ + (path_text(path@, 0) + delimited(
            '(',
            block_text(
                self@,
                fields@.len() == 0,
                rendered_fields(deeper(self@), fields_view(fields@), 0),
            ),
            ')',
        )));
    }

    /// Appends a list between its delimiters.
    fn write_delimited_list(self, w: &mut String, open: char, items: &Vec<Value>, close: char)
        ensures
            final(w)@ == old(w)@ + delimited(
                open,
                rendered_list(self@, values_view(items@)),
                close,
            ),
        decreases items, 3nat,
    {
        w.push(open);
        self.write_items_list(w, items);
        w.push(close);
        assert(w@ =~= old(w)@ + delimited(
            open,
            rendered_list(self@, values_view(items@)),
            close,
        ));
    }

    /// Appends what stands between the delimiters of a list.
    pub fn write_items_list(self, w: &mut String, items: &Vec<Value>)
        ensures
            final(w)@ == old(w)@ + rendered_list(self@, values_view(items@)),
        decreases items, 2nat,
    {
        if items.len() > 0 {
            self.write_newline(w);
            self.indent().write_items(w, items);
            self.write_indent(w);
            assert(w@ =~= old(w)@ + rendered_list(self@, values_view(items@)));
        } else {
            assert(w@ + rendered_list(self@, values_view(items@)) =~= w@);
        }
    }

    /// Appends the items, each with what follows it.
    pub fn write_items(self, w: &mut String, items: &Vec<Value>)
        ensures
            final(w)@ == old(w)@ + rendered_items(self@, values_view(items@), 0),
        decreases items, 1nat,
    {
        let ghost all = values_view(items@);
        let mut i: usize = 0;
        while i < items.len()
            invariant
                i <= items.len(),
                all == values_view(items@),
                w@ + rendered_items(self@, all, i as nat) == old(w)@ + rendered_items(
                    self@,
                    all,
                    0,
                ),
            decreases items.len() - i,
        {
            let ghost before = w@;
            self.write_indent(w);
            self.write(&items[i], w);
            self.write_separator(w, i + 1 < items.len());
            assert(w@ + rendered_items(self@, all, (i + 1) as nat) =~= before + rendered_items(
                self@,
                all,
                i as nat,
            ));
            i += 1;
        }
        assert(w@ + rendered_items(self@, all, i as nat) =~= w@);
    }

    /// Appends the entries of a mapping, each with what follows it.
    fn write_entries(self, w: &mut String, entries: &Vec<(Value, Value)>)
        ensures
            final(w)@ == old(w)@ + rendered_entries(self@, entries_view(entries@), 0),
        decreases entries, 1nat,
    {
        let ghost all = entries_view(entries@);
        let mut i: usize = 0;
        while i < entries.len()
            invariant
                i <= entries.len(),
                all == entries_view(entries@),
                w@ + rendered_entries(self@, all, i as nat) == old(w)@ + rendered_entries(
                    self@,
                    all,
                    0,
                ),
            decreases entries.len() - i,
        {
            let ghost before = w@;
            self.write_indent(w);
            self.write(&entries[i].0, w);
            self.write_colon(w);
            self.write(&entries[i].1, w);
            self.write_separator(w, i + 1 < entries.len());
            assert(w@ + rendered_entries(self@, all, (i + 1) as nat) =~= before
                + rendered_entries(self@, all, i as nat));
            i += 1;
        }
        assert(w@ + rendered_entries(self@, all, i as nat) =~= w@);
    }

    /// Appends the fields of a struct, each with what follows it.
    fn write_fields(self, w: &mut String, fields: &Vec<(Identifier, Value)>)
        ensures
            final(w)@ == old(w)@ + rendered_fields(self@, fields_view(fields@), 0),
        decreases fields, 1nat,
    {
        let ghost all = fields_view(fields@);
        let mut i: usize = 0;
        while i < fields.len()
            invariant
                i <= fields.len(),
                all == fields_view(fields@),
                w@ + rendered_fields(self@, all, i as nat) == old(w)@ + rendered_fields(
                    self@,
                    all,
                    0,
                ),
            decreases fields.len() - i,
        {
            let ghost before = w@;
            self.write_indent(w);
            push_text(w, fields[i].0.as_str());
            self.write_colon(w);
            self.write(&fields[i].1, w);
            self.write_separator(w, i + 1 < fields.len());
            assert(w@ + rendered_fields(self@, all, (i + 1) as nat) =~= before + rendered_fields(
                self@,
                all,
                i as nat,
            ));
            i += 1;
        }
        assert(w@ + rendered_fields(self@, all, i as nat) =~= w@);
    }
}

impl Value {
    /// The value's text, spread over lines and indented by four spaces a
    /// level.
    pub fn to_string_pretty(&self) -> (r: String)
        ensures
            r@ == rendered(pretty_layout(), self@),
    {
        let mut buffer = String::new();
        let printer = ValuePrinter::pretty();
        printer.write(self, &mut buffer);
        assert(buffer@ =~= rendered(pretty_layout(), self@));
        buffer
    }

    /// The value's text without indentation.
    pub fn to_string_compact(&self) -> (r: String)
        ensures
            r@ == rendered(compact_layout(), self@),
    {
        let mut buffer = String::new();
        let printer = ValuePrinter::compact();
        printer.write(self, &mut buffer);
        assert(buffer@ =~= rendered(compact_layout(), self@));
        buffer
    }
}

} // verus!
