//! Names: identifiers, paths of identifiers with type arguments, and the
//! shapes of types.

use crate::value::shape::{leaf, node, Shape, ShapeTree};
use crate::value::text::{copy_text, push_text, text_shape, text_tree};
use vstd::prelude::*;

verus! {

/// A name.
#[derive(PartialEq, Eq, PartialOrd, Ord, Hash, Debug)]
pub struct Identifier(pub String);

/// One segment of a path: a name and, optionally, its type arguments.
#[derive(PartialEq, Eq, PartialOrd, Ord, Hash, Debug)]
pub struct GenericIdentifier {
    pub identifier: Identifier,
    pub generics: Option<Generics>,
}

/// A path of segments. One segment names a type, two name a variant of an
/// enum.
#[derive(PartialEq, Eq, PartialOrd, Ord, Hash, Debug)]
pub struct TypeIdentifier {
    pub segments: Vec<GenericIdentifier>,
}

/// The type arguments of a segment.
#[derive(PartialEq, Eq, PartialOrd, Ord, Hash, Debug)]
pub struct Generics {
    pub types: Vec<Type>,
}

/// The shape of a type.
#[derive(PartialEq, Eq, PartialOrd, Ord, Hash, Debug)]
pub enum Type {
    TypeIdentifier(TypeIdentifier),
    Array { content: Box<Type>, size: String },
    Tuple(Vec<Type>),
}

/// What a segment of a path is: its name and its type arguments.
pub struct SegmentView {
    pub identifier: Seq<char>,
    pub generics: Option<Seq<TypeView>>,
}

/// What a type is.
pub enum TypeView {
    Path(Seq<SegmentView>),
    Array { content: Box<TypeView>, size: Seq<char> },
    Tuple(Seq<TypeView>),
}

/// A segment without type arguments.
pub open spec fn plain_segment(name: Seq<char>) -> SegmentView {
    SegmentView { identifier: name, generics: None }
}

/// The path of one plain segment.
pub open spec fn plain_path(name: Seq<char>) -> Seq<SegmentView> {
    seq![plain_segment(name)]
}

/// The path of two plain segments.
pub open spec fn plain_pair(first: Seq<char>, second: Seq<char>) -> Seq<SegmentView> {
    seq![plain_segment(first), plain_segment(second)]
}

/// What the type `t` is.
pub open spec fn type_view(t: Type) -> TypeView
    decreases t,
{
    match t {
        Type::TypeIdentifier(path) => TypeView::Path(segments_view(path.segments@)),
        Type::Array { content, size } => TypeView::Array {
            content: Box::new(type_view(*content)),
            size: size@,
        },
        Type::Tuple(types) => TypeView::Tuple(types_view(types@)),
    }
}

/// What each of the types is.
pub open spec fn types_view(types: Seq<Type>) -> Seq<TypeView>
    decreases types,
{
    Seq::new(
        types.len(),
        |i: int|
            if 0 <= i < types.len() {
                type_view(types[i])
            } else {
                TypeView::Tuple(Seq::empty())
            },
    )
}

/// What the segment is.
pub open spec fn segment_view(segment: GenericIdentifier) -> SegmentView
    decreases segment,
{
    SegmentView {
        identifier: segment.identifier.0@,
        generics: match segment.generics {
            None => None,
            Some(generics) => Some(types_view(generics.types@)),
        },
    }
}

/// What each of the segments is.
pub open spec fn segments_view(segments: Seq<GenericIdentifier>) -> Seq<SegmentView>
    decreases segments,
{
    Seq::new(
        segments.len(),
        |i: int|
            if 0 <= i < segments.len() {
                segment_view(segments[i])
            } else {
                plain_segment(Seq::empty())
            },
    )
}

impl View for Identifier {
    type V = Seq<char>;

    open spec fn view(&self) -> Seq<char> {
        self.0@
    }
}

impl View for Generics {
    type V = Seq<TypeView>;

    open spec fn view(&self) -> Seq<TypeView> {
        types_view(self.types@)
    }
}

impl View for GenericIdentifier {
    type V = SegmentView;

    open spec fn view(&self) -> SegmentView {
        segment_view(*self)
    }
}

impl View for TypeIdentifier {
    type V = Seq<SegmentView>;

    open spec fn view(&self) -> Seq<SegmentView> {
        segments_view(self.segments@)
    }
}

impl View for Type {
    type V = TypeView;

    open spec fn view(&self) -> TypeView {
        type_view(*self)
    }
}


/// The shape of a type, by which types are ordered: paths first, then
/// arrays, then tuples.
pub open spec fn type_shape(t: TypeView) -> Shape
    decreases t,
{
    match t {
        TypeView::Path(segments) => node(0, seq![path_shape(segments)]),
        TypeView::Array { content, size } => node(
            1,
            seq![type_shape(*content), text_shape(size)],
        ),
        TypeView::Tuple(types) => node(2, seq![types_shape(types)]),
    }
}

/// The shape of a list of types.
pub open spec fn types_shape(types: Seq<TypeView>) -> Shape
    decreases types,
{
    node(
        0,
        Seq::new(
            types.len(),
            |i: int|
                if 0 <= i < types.len() {
                    type_shape(types[i])
                } else {
                    leaf(0)
                },
        ),
    )
}

/// The shape of a segment: its name, then its type arguments, a segment
/// without any coming first.
pub open spec fn segment_shape(segment: SegmentView) -> Shape
    decreases segment,
{
    node(
        0,
        seq![
            text_shape(segment.identifier),
            match segment.generics {
                None => leaf(0),
                Some(types) => node(1, seq![types_shape(types)]),
            },
        ],
    )
}

/// The shape of a path.
pub open spec fn path_shape(segments: Seq<SegmentView>) -> Shape
    decreases segments,
{
    node(
        0,
        Seq::new(
            segments.len(),
            |i: int|
                if 0 <= i < segments.len() {
                    segment_shape(segments[i])
                } else {
                    leaf(0)
                },
        ),
    )
}

/// The text of a type: a path as it is; an array as `[content ; size]`; a
/// tuple as its members in round brackets, separated by `, `.
pub open spec fn type_text(t: TypeView) -> Seq<char>
    decreases t, 0nat,
{
    match t {
        TypeView::Path(segments) => path_text(segments, 0),
        TypeView::Array { content, size } => seq!['['] + type_text(*content) + seq![' ', ';', ' ']
            + size + seq![']'],
        TypeView::Tuple(types) => seq!['('] + types_text(types, 0) + seq![')'],
    }
}

/// The texts of `types[i..]`, separated by `, `.
pub open spec fn types_text(types: Seq<TypeView>, i: nat) -> Seq<char>
    decreases types, types.len() - i,
{
    if i >= types.len() {
        Seq::empty()
    } else if i + 1 == types.len() {
        type_text(types[i as int])
    } else {
        type_text(types[i as int]) + seq![',', ' '] + types_text(types, i + 1)
    }
}

/// The text of a segment: its name, then its type arguments in angle
/// brackets where it has any.
pub open spec fn segment_text(segment: SegmentView) -> Seq<char>
    decreases segment, 0nat,
{
    match segment.generics {
        None => segment.identifier,
        Some(types) => segment.identifier + seq!['<'] + types_text(types, 0) + seq!['>'],
    }
}

/// The texts of `segments[i..]`, separated by `::`.
pub open spec fn path_text(segments: Seq<SegmentView>, i: nat) -> Seq<char>
    decreases segments, segments.len() - i,
{
    if i >= segments.len() {
        Seq::empty()
    } else if i + 1 == segments.len() {
        segment_text(segments[i as int])
    } else {
        segment_text(segments[i as int]) + seq![':', ':'] + path_text(segments, i + 1)
    }
}

impl Clone for Identifier {
    fn clone(&self) -> (r: Self)
        ensures
            r@ == self@,
    {
        Identifier(self.0.clone())
    }
}

impl Identifier {
    /// The identifier with the given name.
    pub fn new(name: &str) -> (r: Identifier)
        ensures
            r@ == name@,
    {
        Identifier(copy_text(name))
    }

    /// The name.
    pub fn as_str(&self) -> (r: &str)
        ensures
            r@ == self@,
    {
        self.0.as_str()
    }

    /// The name, as a string of its own.
    pub fn to_string(&self) -> (r: String)
        ensures
            r@ == self@,
    {
        self.0.clone()
    }

    /// Builds the shape of the name.
    pub fn shape_tree(&self) -> (t: ShapeTree)
        ensures
            t@ == text_shape(self@),
    {
        text_tree(self.0.as_str())
    }
}

fn clone_types(types: &Vec<Type>) -> (r: Vec<Type>)
    ensures
        types_view(r@) == types_view(types@),
    decreases types,
{
    let mut r: Vec<Type> = Vec::new();
    let mut i: usize = 0;
    while i < types.len()
        invariant
            i <= types.len(),
            r.len() == i,
            forall|j: int| 0 <= j < i ==> type_view(r@[j]) == type_view(types@[j]),
        decreases types.len() - i,
    {
        r.push(clone_type(&types[i]));
        i += 1;
    }
    assert(types_view(r@) =~= types_view(types@));
    r
}

fn clone_segments(segments: &Vec<GenericIdentifier>) -> (r: Vec<GenericIdentifier>)
    ensures
        segments_view(r@) == segments_view(segments@),
    decreases segments,
{
    let mut r: Vec<GenericIdentifier> = Vec::new();
    let mut i: usize = 0;
    while i < segments.len()
        invariant
            i <= segments.len(),
            r.len() == i,
            forall|j: int| 0 <= j < i ==> segment_view(r@[j]) == segment_view(segments@[j]),
        decreases segments.len() - i,
    {
        r.push(clone_segment(&segments[i]));
        i += 1;
    }
    assert(segments_view(r@) =~= segments_view(segments@));
    r
}

fn clone_segment(segment: &GenericIdentifier) -> (r: GenericIdentifier)
    ensures
        r@ == segment@,
    decreases segment,
{
    let generics = match &segment.generics {
        None => None,
        Some(generics) => Some(Generics { types: clone_types(&generics.types) }),
    };
    GenericIdentifier { identifier: segment.identifier.clone(), generics }
}

fn clone_type(t: &Type) -> (r: Type)
    ensures
        r@ == t@,
    decreases t,
{
    match t {
        Type::TypeIdentifier(path) => Type::TypeIdentifier(
            TypeIdentifier { segments: clone_segments(&path.segments) },
        ),
        Type::Array { content, size } => Type::Array {
            content: Box::new(clone_type(&**content)),
            size: size.clone(),
        },
        Type::Tuple(types) => Type::Tuple(clone_types(types)),
    }
}

impl Clone for Generics {
    fn clone(&self) -> (r: Self)
        ensures
            r@ == self@,
    {
        Generics { types: clone_types(&self.types) }
    }
}

impl Clone for GenericIdentifier {
    fn clone(&self) -> (r: Self)
        ensures
            r@ == self@,
    {
        clone_segment(self)
    }
}

impl Clone for TypeIdentifier {
    fn clone(&self) -> (r: Self)
        ensures
            r@ == self@,
    {
        TypeIdentifier { segments: clone_segments(&self.segments) }
    }
}

impl Clone for Type {
    fn clone(&self) -> (r: Self)
        ensures
            r@ == self@,
    {
        clone_type(self)
    }
}

fn types_tree(types: &Vec<Type>) -> (t: ShapeTree)
    ensures
        t@ == types_shape(types_view(types@)),
    decreases types,
{
    let mut children: Vec<ShapeTree> = Vec::new();
    let mut i: usize = 0;
    while i < types.len()
        invariant
            i <= types.len(),
            children.len() == i,
            forall|j: int| 0 <= j < i ==> children@[j]@ == type_shape(type_view(types@[j])),
        decreases types.len() - i,
    {
        children.push(type_tree(&types[i]));
        i += 1;
    }
    let t = ShapeTree { tag: 0, children };
    assert(t@.children =~= types_shape(types_view(types@)).children);
    t
}

fn segments_tree(segments: &Vec<GenericIdentifier>) -> (t: ShapeTree)
    ensures
        t@ == path_shape(segments_view(segments@)),
    decreases segments,
{
    let mut children: Vec<ShapeTree> = Vec::new();
    let mut i: usize = 0;
    while i < segments.len()
        invariant
            i <= segments.len(),
            children.len() == i,
            forall|j: int|
                0 <= j < i ==> children@[j]@ == segment_shape(segment_view(segments@[j])),
        decreases segments.len() - i,
    {
        children.push(segment_tree(&segments[i]));
        i += 1;
    }
    let t = ShapeTree { tag: 0, children };
    assert(t@.children =~= path_shape(segments_view(segments@)).children);
    t
}

fn segment_tree(segment: &GenericIdentifier) -> (t: ShapeTree)
    ensures
        t@ == segment_shape(segment@),
    decreases segment,
{
    let arguments = match &segment.generics {
        None => ShapeTree::leaf(0),
        Some(generics) => {
            let inner = types_tree(&generics.types);
            let wrapped = ShapeTree { tag: 1, children: vec![inner] };
            assert(wrapped@.children =~= seq![types_shape(types_view(generics.types@))]);
            wrapped
        },
    };
    let t = ShapeTree { tag: 0, children: vec![segment.identifier.shape_tree(), arguments] };
    assert(t@.children =~= segment_shape(segment@).children);
    t
}

fn type_tree(t: &Type) -> (r: ShapeTree)
    ensures
        r@ == type_shape(t@),
    decreases t,
{
    match t {
        Type::TypeIdentifier(path) => {
            let r = ShapeTree { tag: 0, children: vec![segments_tree(&path.segments)] };
            assert(r@.children =~= type_shape(t@).children);
            r
        },
        Type::Array { content, size } => {
            let r = ShapeTree {
                tag: 1,
                children: vec![type_tree(&**content), text_tree(size.as_str())],
            };
            assert(r@.children =~= type_shape(t@).children);
            r
        },
        Type::Tuple(types) => {
            let r = ShapeTree { tag: 2, children: vec![types_tree(types)] };
            assert(r@.children =~= type_shape(t@).children);
            r
        },
    }
}

fn write_types(types: &Vec<Type>, out: &mut String)
    ensures
        final(out)@ == old(out)@ + types_text(types_view(types@), 0),
    decreases types, 1nat,
{
    let ghost all = types_view(types@);
    let mut i: usize = 0;
    while i < types.len()
        invariant
            i <= types.len(),
            all == types_view(types@),
            out@ + types_text(all, i as nat) == old(out)@ + types_text(all, 0),
        decreases types.len() - i,
    {
        let ghost before = out@;
        write_type(&types[i], out);
        if i + 1 < types.len() {
            out.push(',');
            out.push(' ');
            assert(out@ + types_text(all, (i + 1) as nat) =~= before + types_text(all, i as nat));
        } else {
            assert(out@ + types_text(all, (i + 1) as nat) =~= before + types_text(all, i as nat));
        }
        i += 1;
    }
    assert(out@ + types_text(all, i as nat) =~= out@);
}

fn write_segments(segments: &Vec<GenericIdentifier>, out: &mut String)
    ensures
        final(out)@ == old(out)@ + path_text(segments_view(segments@), 0),
    decreases segments, 1nat,
{
    let ghost all = segments_view(segments@);
    let mut i: usize = 0;
    while i < segments.len()
        invariant
            i <= segments.len(),
            all == segments_view(segments@),
            out@ + path_text(all, i as nat) == old(out)@ + path_text(all, 0),
        decreases segments.len() - i,
    {
        let ghost before = out@;
        write_segment(&segments[i], out);
        if i + 1 < segments.len() {
            out.push(':');
            out.push(':');
            assert(out@ + path_text(all, (i + 1) as nat) =~= before + path_text(all, i as nat));
        } else {
            assert(out@ + path_text(all, (i + 1) as nat) =~= before + path_text(all, i as nat));
        }
        i += 1;
    }
    assert(out@ + path_text(all, i as nat) =~= out@);
}

fn write_segment(segment: &GenericIdentifier, out: &mut String)
    ensures
        final(out)@ == old(out)@ + segment_text(segment@),
    decreases segment, 0nat,
{
    push_text(out, segment.identifier.0.as_str());
    match &segment.generics {
        None => {},
        Some(generics) => {
            out.push('<');
            write_types(&generics.types, out);
            out.push('>');
            assert(out@ =~= old(out)@ + segment_text(segment@));
        },
    }
}

fn write_type(t: &Type, out: &mut String)
    ensures
        final(out)@ == old(out)@ + type_text(t@),
    decreases t, 0nat,
{
    match t {
        Type::TypeIdentifier(path) => {
            write_segments(&path.segments, out);
        },
        Type::Array { content, size } => {
            out.push('[');
            write_type(&**content, out);
            out.push(' ');
            out.push(';');
            out.push(' ');
            push_text(out, size.as_str());
            out.push(']');
            assert(out@ =~= old(out)@ + type_text(t@));
        },
        Type::Tuple(types) => {
            out.push('(');
            write_types(types, out);
            out.push(')');
            assert(out@ =~= old(out)@ + type_text(t@));
        },
    }
}

impl GenericIdentifier {
    /// The segment with the given name and no type arguments.
    pub fn new(name: &str) -> (r: GenericIdentifier)
        ensures
            r@ == plain_segment(name@),
    {
        GenericIdentifier { identifier: Identifier::new(name), generics: None }
    }

    /// The segment's text: the name, then the type arguments in angle
    /// brackets where there are any.
    pub fn to_string(&self) -> (r: String)
        ensures
            r@ == segment_text(self@),
    {
        let mut out = String::new();
        write_segment(self, &mut out);
        assert(out@ =~= segment_text(self@));
        out
    }
}

impl Generics {
    /// The type arguments' text, separated by `, `.
    pub fn to_string(&self) -> (r: String)
        ensures
            r@ == types_text(self@, 0),
    {
        let mut out = String::new();
        write_types(&self.types, &mut out);
        assert(out@ =~= types_text(self@, 0));
        out
    }
}

impl TypeIdentifier {
    /// The path of one plain segment: the name of a type.
    pub fn from_name(name: &str) -> (r: TypeIdentifier)
        ensures
            r@ == plain_path(name@),
    {
        let r = TypeIdentifier { segments: vec![GenericIdentifier::new(name)] };
        assert(r@ =~= plain_path(name@));
        r
    }

    /// The path of two plain segments: an enum and one of its variants.
    pub fn from_pair(name: &str, variant: &str) -> (r: TypeIdentifier)
        ensures
            r@ == plain_pair(name@, variant@),
    {
        let r = TypeIdentifier {
            segments: vec![GenericIdentifier::new(name), GenericIdentifier::new(variant)],
        };
        assert(r@ =~= plain_pair(name@, variant@));
        r
    }

    /// The name of the last segment, if there is a segment.
    pub fn last_identifier(&self) -> (r: Option<&Identifier>)
        ensures
            self@.len() == 0 ==> r is None,
            self@.len() > 0 ==> r is Some && r->0@ == self@.last().identifier,
    {
        let n = self.segments.len();
        if n == 0 {
            None
        } else {
            Some(&self.segments[n - 1].identifier)
        }
    }

    /// The path's text: its segments, separated by `::`.
    pub fn to_string(&self) -> (r: String)
        ensures
            r@ == path_text(self@, 0),
    {
        let mut out = String::new();
        write_segments(&self.segments, &mut out);
        assert(out@ =~= path_text(self@, 0));
        out
    }

    /// Appends the path's text to `out`.
    pub fn write_to(&self, out: &mut String)
        ensures
            final(out)@ == old(out)@ + path_text(self@, 0),
    {
        write_segments(&self.segments, out);
    }

    /// Builds the shape of the path.
    pub fn shape_tree(&self) -> (t: ShapeTree)
        ensures
            t@ == path_shape(self@),
    {
        segments_tree(&self.segments)
    }
}

impl Type {
    /// The type named by a path of one plain segment.
    pub fn from_name(name: &str) -> (r: Type)
        ensures
            r@ == TypeView::Path(plain_path(name@)),
    {
        Type::TypeIdentifier(TypeIdentifier::from_name(name))
    }

    /// The type named by a path of two plain segments.
    pub fn from_pair(name: &str, variant: &str) -> (r: Type)
        ensures
            r@ == TypeView::Path(plain_pair(name@, variant@)),
    {
        Type::TypeIdentifier(TypeIdentifier::from_pair(name, variant))
    }

    /// The name of the last segment, where the type is a path with at
    /// least one segment.
    pub fn get_identifier(&self) -> (r: Option<&Identifier>)
        ensures
            match self@ {
                TypeView::Path(segments) => if segments.len() > 0 {
                    r is Some && r->0@ == segments.last().identifier
                } else {
                    r is None
                },
                _ => r is None,
            },
    {
        match self {
            Type::TypeIdentifier(path) => path.last_identifier(),
            _ => None,
        }
    }

    /// The type's text.
    pub fn to_string(&self) -> (r: String)
        ensures
            r@ == type_text(self@),
    {
        let mut out = String::new();
        write_type(self, &mut out);
        assert(out@ =~= type_text(self@));
        out
    }

    /// Appends the type's text to `out`.
    pub fn write_to(&self, out: &mut String)
        ensures
            final(out)@ == old(out)@ + type_text(self@),
    {
        write_type(self, out);
    }

    /// Builds the shape of the type.
    pub fn shape_tree(&self) -> (t: ShapeTree)
        ensures
            t@ == type_shape(self@),
    {
        type_tree(self)
    }
}


impl vstd::std_specs::convert::FromSpecImpl<&str> for Identifier {
    open spec fn obeys_from_spec() -> bool {
        false
    }

    open spec fn from_spec(v: &str) -> Identifier {
        arbitrary()
    }
}

impl From<&str> for Identifier {
    /// The identifier with the given name.
    fn from(v: &str) -> (r: Identifier)
        ensures
            r@ == v@,
    {
        Identifier::new(v)
    }
}

impl vstd::std_specs::convert::FromSpecImpl<&str> for GenericIdentifier {
    open spec fn obeys_from_spec() -> bool {
        false
    }

    open spec fn from_spec(v: &str) -> GenericIdentifier {
        arbitrary()
    }
}

impl From<&str> for GenericIdentifier {
    /// The segment with the given name and no type arguments.
    fn from(v: &str) -> (r: GenericIdentifier)
        ensures
            r@ == plain_segment(v@),
    {
        GenericIdentifier::new(v)
    }
}

impl vstd::std_specs::convert::FromSpecImpl<&str> for TypeIdentifier {
    open spec fn obeys_from_spec() -> bool {
        false
    }

    open spec fn from_spec(v: &str) -> TypeIdentifier {
        arbitrary()
    }
}

impl From<&str> for TypeIdentifier {
    /// The path of one plain segment.
    fn from(v: &str) -> (r: TypeIdentifier)
        ensures
            r@ == plain_path(v@),
    {
        TypeIdentifier::from_name(v)
    }
}

impl vstd::std_specs::convert::FromSpecImpl<(&str, &str)> for TypeIdentifier {
    open spec fn obeys_from_spec() -> bool {
        false
    }

    open spec fn from_spec(v: (&str, &str)) -> TypeIdentifier {
        arbitrary()
    }
}

impl From<(&str, &str)> for TypeIdentifier {
    /// The path of two plain segments.
    fn from(v: (&str, &str)) -> (r: TypeIdentifier)
        ensures
            r@ == plain_pair(v.0@, v.1@),
    {
        TypeIdentifier::from_pair(v.0, v.1)
    }
}

impl vstd::std_specs::convert::FromSpecImpl<&str> for Type {
    open spec fn obeys_from_spec() -> bool {
        false
    }

    open spec fn from_spec(v: &str) -> Type {
        arbitrary()
    }
}

impl From<&str> for Type {
    /// The type named by a path of one plain segment.
    fn from(v: &str) -> (r: Type)
        ensures
            r@ == TypeView::Path(plain_path(v@)),
    {
        Type::from_name(v)
    }
}

impl vstd::std_specs::convert::FromSpecImpl<(&str, &str)> for Type {
    open spec fn obeys_from_spec() -> bool {
        false
    }

    open spec fn from_spec(v: (&str, &str)) -> Type {
        arbitrary()
    }
}

impl From<(&str, &str)> for Type {
    /// The type named by a path of two plain segments.
    fn from(v: (&str, &str)) -> (r: Type)
        ensures
            r@ == TypeView::Path(plain_pair(v.0@, v.1@)),
    {
        Type::from_pair(v.0, v.1)
    }
}

impl TypeIdentifier {
    /// Whether the path is the one plain segment `name`: the name of a
    /// type.
    pub fn eq_name(&self, name: &str) -> (r: bool)
        ensures
            r == (self@ == plain_path(name@)),
    {
        assert(self@.len() == self.segments@.len());
        assert(plain_path(name@).len() == 1);
        if self.segments.len() != 1 {
            return false;
        }
        if self.segments[0].generics.is_some() {
            assert(self@[0] == segment_view(self.segments@[0]));
            assert(plain_path(name@)[0].generics is None);
            return false;
        }
        let same = crate::value::text::same_text(self.segments[0].identifier.as_str(), name);
        assert(self@[0] == segment_view(self.segments@[0]));
        if same {
            assert(self@ =~= plain_path(name@));
        } else {
            assert(plain_path(name@)[0].identifier == name@);
        }
        same
    }

    /// Whether the path is the two plain segments `name` and `variant`:
    /// the name of a variant of an enum.
    pub fn eq_pair(&self, name: &str, variant: &str) -> (r: bool)
        ensures
            r == (self@ == plain_pair(name@, variant@)),
    {
        assert(self@.len() == self.segments@.len());
        assert(plain_pair(name@, variant@).len() == 2);
        if self.segments.len() != 2 {
            return false;
        }
        if self.segments[0].generics.is_some() || self.segments[1].generics.is_some() {
            assert(self@[0] == segment_view(self.segments@[0]));
            assert(self@[1] == segment_view(self.segments@[1]));
            assert(plain_pair(name@, variant@)[0].generics is None);
            assert(plain_pair(name@, variant@)[1].generics is None);
            return false;
        }
        let first = crate::value::text::same_text(self.segments[0].identifier.as_str(), name);
        let second = crate::value::text::same_text(
            self.segments[1].identifier.as_str(),
            variant,
        );
        assert(self@[0] == segment_view(self.segments@[0]));
        assert(self@[1] == segment_view(self.segments@[1]));
        if first && second {
            assert(self@ =~= plain_pair(name@, variant@));
        } else {
            assert(plain_pair(name@, variant@)[0].identifier == name@);
            assert(plain_pair(name@, variant@)[1].identifier == variant@);
        }
        first && second
    }
}

impl Identifier {
    /// Whether the name is `other`.
    pub fn eq_str(&self, other: &str) -> (r: bool)
        ensures
            r == (self@ == other@),
    {
        crate::value::text::same_text(self.0.as_str(), other)
    }
}

} // verus!
