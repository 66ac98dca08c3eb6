//! The canonical order.
//!
//! Every value and every type name has a *shape*: a tree of integer tags.
//! Shapes are ordered by tag first and then by their children from left to
//! right, a missing child coming before any present one. Keyed collections
//! keep their entries in the order of the keys' shapes.

use vstd::prelude::*;

verus! {

/// The outcome of a three-way comparison.
#[derive(Clone, Copy, PartialEq, Eq, Debug)]
pub enum Order {
    Less,
    Equal,
    Greater,
}

/// A tree of integer tags.
pub struct Shape {
    pub tag: int,
    pub children: Seq<Shape>,
}

/// A shape without children.
pub open spec fn leaf(tag: int) -> Shape {
    Shape { tag, children: Seq::empty() }
}

/// A shape with the given tag and children.
pub open spec fn node(tag: int, children: Seq<Shape>) -> Shape {
    Shape { tag, children }
}

/// The order of two shapes: by tag, then by the children.
pub open spec fn shape_order(a: Shape, b: Shape) -> Order
    decreases a, 0nat,
{
    if a.tag < b.tag {
        Order::Less
    } else if a.tag > b.tag {
        Order::Greater
    } else {
        forest_order(a.children, b.children, 0)
    }
}

/// The lexicographic order of `x[i..]` and `y[i..]`.
pub open spec fn forest_order(x: Seq<Shape>, y: Seq<Shape>, i: nat) -> Order
    decreases x, x.len() - i,
{
    if i >= x.len() {
        if i >= y.len() {
            Order::Equal
        } else {
            Order::Less
        }
    } else if i >= y.len() {
        Order::Greater
    } else {
        match shape_order(x[i as int], y[i as int]) {
            Order::Equal => forest_order(x, y, i + 1),
            other => other,
        }
    }
}

/// `a` comes strictly before `b`.
pub open spec fn shape_lt(a: Shape, b: Shape) -> bool {
    shape_order(a, b) == Order::Less
}

/// A shape compares equal to itself.
pub proof fn lemma_order_reflexive(a: Shape)
    ensures
        shape_order(a, a) == Order::Equal,
    decreases a, 0nat,
{
    lemma_forest_reflexive(a.children, 0);
}

proof fn lemma_forest_reflexive(x: Seq<Shape>, i: nat)
    ensures
        forest_order(x, x, i) == Order::Equal,
    decreases x, x.len() - i,
{
    if i < x.len() {
        lemma_order_reflexive(x[i as int]);
        lemma_forest_reflexive(x, i + 1);
    }
}

/// Only identical shapes compare equal.
pub proof fn lemma_order_equal(a: Shape, b: Shape)
    requires
        shape_order(a, b) == Order::Equal,
    ensures
        a == b,
    decreases a, 0nat,
{
    lemma_forest_equal(a.children, b.children, 0);
    assert(a.children =~= b.children);
}

proof fn lemma_forest_equal(x: Seq<Shape>, y: Seq<Shape>, i: nat)
    requires
        forest_order(x, y, i) == Order::Equal,
        i <= x.len(),
        i <= y.len(),
    ensures
        x.len() == y.len(),
        forall|j: int| i <= j < x.len() ==> x[j] == y[j],
    decreases x, x.len() - i,
{
    if i < x.len() {
        lemma_order_equal(x[i as int], y[i as int]);
        lemma_forest_equal(x, y, i + 1);
    }
}

/// Swapping the arguments mirrors the outcome.
pub proof fn lemma_order_flip(a: Shape, b: Shape)
    ensures
        shape_order(a, b) == Order::Less <==> shape_order(b, a) == Order::Greater,
        shape_order(a, b) == Order::Greater <==> shape_order(b, a) == Order::Less,
        shape_order(a, b) == Order::Equal <==> shape_order(b, a) == Order::Equal,
    decreases a, 0nat,
{
    lemma_forest_flip(a.children, b.children, 0);
}

proof fn lemma_forest_flip(x: Seq<Shape>, y: Seq<Shape>, i: nat)
    ensures
        forest_order(x, y, i) == Order::Less <==> forest_order(y, x, i) == Order::Greater,
        forest_order(x, y, i) == Order::Greater <==> forest_order(y, x, i) == Order::Less,
        forest_order(x, y, i) == Order::Equal <==> forest_order(y, x, i) == Order::Equal,
    decreases x, x.len() - i,
{
    if i < x.len() && i < y.len() {
        lemma_order_flip(x[i as int], y[i as int]);
        lemma_forest_flip(x, y, i + 1);
    }
}

/// The strict order is transitive.
pub proof fn lemma_order_transitive(a: Shape, b: Shape, c: Shape)
    requires
        shape_lt(a, b),
        shape_lt(b, c),
    ensures
        shape_lt(a, c),
    decreases a, 0nat,
{
    if a.tag == b.tag && b.tag == c.tag {
        lemma_forest_transitive(a.children, b.children, c.children, 0);
    }
}

proof fn lemma_forest_transitive(x: Seq<Shape>, y: Seq<Shape>, z: Seq<Shape>, i: nat)
    requires
        forest_order(x, y, i) == Order::Less,
        forest_order(y, z, i) == Order::Less,
    ensures
        forest_order(x, z, i) == Order::Less,
    decreases x, x.len() - i,
{
    if i < x.len() {
        let xy = shape_order(x[i as int], y[i as int]);
        let yz = shape_order(y[i as int], z[i as int]);
        if xy == Order::Equal && yz == Order::Equal {
            lemma_order_equal(x[i as int], y[i as int]);
            lemma_forest_transitive(x, y, z, i + 1);
        } else if xy == Order::Equal {
            lemma_order_equal(x[i as int], y[i as int]);
        } else if yz == Order::Equal {
            lemma_order_equal(y[i as int], z[i as int]);
        } else {
            lemma_order_transitive(x[i as int], y[i as int], z[i as int]);
        }
    }
}

/// A shape as it exists at run time.
pub struct ShapeTree {
    pub tag: u32,
    pub children: Vec<ShapeTree>,
}

impl View for ShapeTree {
    type V = Shape;

    open spec fn view(&self) -> Shape
        decreases self,
    {
        Shape {
            tag: self.tag as int,
            children: Seq::new(
                self.children@.len(),
                |i: int|
                    if 0 <= i < self.children@.len() {
                        self.children@[i]@
                    } else {
                        leaf(0)
                    },
            ),
        }
    }
}

impl ShapeTree {
    /// A tree without children.
    pub fn leaf(tag: u32) -> (t: ShapeTree)
        ensures
            t@ == leaf(tag as int),
    {
        let t = ShapeTree { tag, children: Vec::new() };
        assert(t@.children =~= Seq::empty());
        t
    }

    /// Compares two trees in the canonical order.
    pub fn compare(&self, other: &ShapeTree) -> (r: Order)
        ensures
            r == shape_order(self@, other@),
        decreases self,
    {
        if self.tag < other.tag {
            return Order::Less;
        }
        if self.tag > other.tag {
            return Order::Greater;
        }
        let mut i: usize = 0;
        while i < self.children.len() && i < other.children.len()
            invariant
                i <= self.children.len(),
                i <= other.children.len(),
                shape_order(self@, other@) == forest_order(
                    self@.children,
                    other@.children,
                    i as nat,
                ),
            decreases self.children.len() - i,
        {
            match self.children[i].compare(&other.children[i]) {
                Order::Equal => {},
                Order::Less => {
                    return Order::Less;
                },
                Order::Greater => {
                    return Order::Greater;
                },
            }
            i += 1;
        }
        if i < other.children.len() {
            Order::Less
        } else if i < self.children.len() {
            Order::Greater
        } else {
            Order::Equal
        }
    }
}

} // verus!
