//! Text as sequences of characters: moving between `str`, `String` and
//! `Vec<char>`, and the shape by which text is ordered.

use crate::value::shape::{leaf, node, Shape, ShapeTree};
use vstd::prelude::*;

verus! {

/// `String::push` appends one character to the string and changes nothing
/// else; this is taken from the standard library's documentation.
pub assume_specification[ std::string::String::push ](
    s: &mut std::string::String,
    c: char,
)
    ensures
        final(s)@ == old(s)@.push(c),
;

/// The characters of `s`, in order.
pub fn chars_of(s: &str) -> (v: Vec<char>)
    ensures
        v@ == s@,
{
    let mut v: Vec<char> = Vec::new();
    for c in it: s.chars()
        invariant
            v@ == s@.take(it.index() as int),
            it.seq() == s@,
    {
        v.push(c);
    }
    v
}

/// Appends `chars[from..to]` to `out`.
pub fn push_range(out: &mut String, chars: &Vec<char>, from: usize, to: usize)
    requires
        from <= to <= chars.len(),
    ensures
        final(out)@ == old(out)@ + chars@.subrange(from as int, to as int),
{
    let mut i: usize = from;
    while i < to
        invariant
            from <= i <= to <= chars.len(),
            out@ == old(out)@ + chars@.subrange(from as int, i as int),
        decreases to - i,
    {
        out.push(chars[i]);
        i += 1;
    }
}

/// The text `chars[from..to]` as a string.
pub fn text_between(chars: &Vec<char>, from: usize, to: usize) -> (s: String)
    requires
        from <= to <= chars.len(),
    ensures
        s@ == chars@.subrange(from as int, to as int),
{
    let mut s = String::new();
    push_range(&mut s, chars, from, to);
    s
}

/// Appends the whole of `text` to `out`.
pub fn push_text(out: &mut String, text: &str)
    ensures
        final(out)@ == old(out)@ + text@,
{
    let chars = chars_of(text);
    push_range(out, &chars, 0, chars.len());
    assert(chars@.subrange(0, chars@.len() as int) =~= chars@);
}

/// A copy of `text`.
pub fn copy_text(text: &str) -> (s: String)
    ensures
        s@ == text@,
{
    let mut s = String::new();
    push_text(&mut s, text);
    s
}

/// Whether two texts hold the same characters.
pub fn same_text(a: &str, b: &str) -> (r: bool)
    ensures
        r == (a@ == b@),
{
    let x = chars_of(a);
    let y = chars_of(b);
    if x.len() != y.len() {
        return false;
    }
    let mut i: usize = 0;
    while i < x.len()
        invariant
            i <= x.len(),
            x.len() == y.len(),
            x@ == a@,
            y@ == b@,
            forall|j: int| 0 <= j < i ==> x@[j] == y@[j],
        decreases x.len() - i,
    {
        if x[i] != y[i] {
            return false;
        }
        i += 1;
    }
    assert(x@ =~= y@);
    true
}

/// The shape of a text: one leaf per character, tagged with its code point.
/// Texts are therefore ordered character by character, a prefix first.
pub open spec fn text_shape(s: Seq<char>) -> Shape {
    node(0, Seq::new(s.len(), |i: int| leaf(s[i] as int)))
}

/// Different texts have different shapes.
pub proof fn lemma_text_shape_injective(a: Seq<char>, b: Seq<char>)
    requires
        text_shape(a) == text_shape(b),
    ensures
        a == b,
{
    let x = text_shape(a).children;
    let y = text_shape(b).children;
    assert(x.len() == a.len());
    assert(y.len() == b.len());
    assert forall|i: int| 0 <= i < a.len() implies a[i] == b[i] by {
        assert(x[i] == leaf(a[i] as int));
        assert(y[i] == leaf(b[i] as int));
    }
    assert(a =~= b);
}

/// The code point of `c`.
pub fn code_point(c: char) -> (n: u32)
    ensures
        n as int == c as int,
{
    c as u32
}

/// Builds the shape of `s`.
pub fn text_tree(s: &str) -> (t: ShapeTree)
    ensures
        t@ == text_shape(s@),
{
    let chars = chars_of(s);
    let mut children: Vec<ShapeTree> = Vec::new();
    let mut i: usize = 0;
    while i < chars.len()
        invariant
            i <= chars.len(),
            children.len() == i,
            forall|j: int| 0 <= j < i ==> children@[j]@ == leaf(chars@[j] as int),
        decreases chars.len() - i,
    {
        let c: char = chars[i];
        let code: u32 = code_point(c);
        children.push(ShapeTree::leaf(code));
        i += 1;
    }
    let t = ShapeTree { tag: 0, children };
    assert(t@.children =~= text_shape(s@).children);
    t
}

} // verus!
