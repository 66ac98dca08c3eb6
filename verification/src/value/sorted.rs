//! Keyed collections in canonical order.
//!
//! The entries of a mapping and the fields of a struct are sequences of
//! pairs whose keys rise strictly in the canonical order. A new entry goes
//! where its key belongs; an entry with the same key is replaced.

use crate::value::shape::{
    lemma_order_equal, lemma_order_flip, lemma_order_reflexive, lemma_order_transitive,
    shape_lt, shape_order, Order, Shape,
};
use crate::value::types::Identifier;
use crate::value::{by_name, by_value, entries_view, fields_view, keys_sorted, Value};
use vstd::prelude::*;

verus! {

/// The first position from `i` on whose key is not before `key`, or the
/// length if there is none.
pub open spec fn insertion_point<K, V>(
    entries: Seq<(K, V)>,
    shape_of: spec_fn(K) -> Shape,
    key: Shape,
    i: nat,
) -> nat
    decreases entries.len() - i,
{
    if i >= entries.len() {
        entries.len()
    } else if shape_lt(shape_of(entries[i as int].0), key) {
        insertion_point(entries, shape_of, key, i + 1)
    } else {
        i
    }
}

/// `entries` with `(key, value)` put where the key belongs. An entry with
/// the same key gives way to the new one.
pub open spec fn inserted<K, V>(
    entries: Seq<(K, V)>,
    shape_of: spec_fn(K) -> Shape,
    key: K,
    value: V,
) -> Seq<(K, V)> {
    let p = insertion_point(entries, shape_of, shape_of(key), 0) as int;
    if p < entries.len() && shape_order(shape_of(entries[p].0), shape_of(key)) == Order::Equal {
        entries.update(p, (key, value))
    } else {
        entries.insert(p, (key, value))
    }
}

/// The collection that holds the first `n` of `entries`, put in one after
/// the other.
pub open spec fn collected<K, V>(
    entries: Seq<(K, V)>,
    shape_of: spec_fn(K) -> Shape,
    n: nat,
) -> Seq<(K, V)>
    decreases n,
{
    if n == 0 {
        Seq::empty()
    } else {
        inserted(
            collected(entries, shape_of, (n - 1) as nat),
            shape_of,
            entries[n - 1].0,
            entries[n - 1].1,
        )
    }
}

/// Where the insertion point lies.
pub proof fn lemma_insertion_point<K, V>(
    entries: Seq<(K, V)>,
    shape_of: spec_fn(K) -> Shape,
    key: Shape,
    i: nat,
)
    requires
        i <= entries.len(),
    ensures
        i <= insertion_point(entries, shape_of, key, i) <= entries.len(),
        forall|j: int|
            i <= j < insertion_point(entries, shape_of, key, i) ==> shape_lt(
                shape_of(#[trigger] entries[j].0),
                key,
            ),
        insertion_point(entries, shape_of, key, i) < entries.len() ==> !shape_lt(
            shape_of(entries[insertion_point(entries, shape_of, key, i) as int].0),
            key,
        ),
    decreases entries.len() - i,
{
    if i < entries.len() && shape_lt(shape_of(entries[i as int].0), key) {
        lemma_insertion_point(entries, shape_of, key, i + 1);
    }
}

/// Putting an entry into a sorted collection leaves it sorted.
pub proof fn lemma_inserted_sorted<K, V>(
    entries: Seq<(K, V)>,
    shape_of: spec_fn(K) -> Shape,
    key: K,
    value: V,
)
    requires
        keys_sorted(entries, shape_of),
    ensures
        keys_sorted(inserted(entries, shape_of, key, value), shape_of),
{
    let k = shape_of(key);
    let p = insertion_point(entries, shape_of, k, 0) as int;
    lemma_insertion_point(entries, shape_of, k, 0);
    let r = inserted(entries, shape_of, key, value);
    if p < entries.len() && shape_order(shape_of(entries[p].0), k) == Order::Equal {
        lemma_order_equal(shape_of(entries[p].0), k);
        assert forall|i: int, j: int| 0 <= i < j < r.len() implies shape_lt(
            shape_of(#[trigger] r[i].0),
            shape_of(#[trigger] r[j].0),
        ) by {
            assert(shape_of(r[i].0) == shape_of(entries[i].0));
            assert(shape_of(r[j].0) == shape_of(entries[j].0));
        }
    } else {
        assert forall|i: int, j: int| 0 <= i < j < r.len() implies shape_lt(
            shape_of(#[trigger] r[i].0),
            shape_of(#[trigger] r[j].0),
        ) by {
            if j < p {
                assert(r[i] == entries[i] && r[j] == entries[j]);
            } else if j == p {
                assert(r[i] == entries[i]);
            } else if i == p {
                // the key is before entries[p], which is at or before r[j]
                assert(r[j] == entries[j - 1]);
                lemma_order_flip(shape_of(entries[p].0), k);
                if j - 1 > p {
                    assert(shape_lt(shape_of(entries[p].0), shape_of(entries[j - 1].0)));
                    lemma_order_transitive(k, shape_of(entries[p].0), shape_of(entries[j - 1].0));
                }
            } else if i < p {
                assert(r[i] == entries[i] && r[j] == entries[j - 1]);
            } else {
                assert(r[i] == entries[i - 1] && r[j] == entries[j - 1]);
            }
        }
    }
}

/// An entry whose key comes after every key of the collection goes to its
/// end.
pub proof fn lemma_inserted_last<K, V>(
    entries: Seq<(K, V)>,
    shape_of: spec_fn(K) -> Shape,
    key: K,
    value: V,
)
    requires
        forall|j: int|
            0 <= j < entries.len() ==> shape_lt(shape_of(#[trigger] entries[j].0), shape_of(key)),
    ensures
        inserted(entries, shape_of, key, value) == entries.push((key, value)),
{
    lemma_insertion_point(entries, shape_of, shape_of(key), 0);
    let p = insertion_point(entries, shape_of, shape_of(key), 0) as int;
    if p < entries.len() {
        assert(shape_lt(shape_of(entries[p].0), shape_of(key)));
    }
    assert(entries.insert(entries.len() as int, (key, value)) =~= entries.push((key, value)));
}

/// What a collection holds after an entry was put in: the new entry, and
/// entries that it held before.
pub proof fn lemma_inserted_members<K, V>(
    entries: Seq<(K, V)>,
    shape_of: spec_fn(K) -> Shape,
    key: K,
    value: V,
)
    ensures
        forall|i: int|
            0 <= i < inserted(entries, shape_of, key, value).len() ==> {
                let e = #[trigger] inserted(entries, shape_of, key, value)[i];
                e == (key, value) || exists|j: int| 0 <= j < entries.len() && entries[j] == e
            },
{
    lemma_insertion_point(entries, shape_of, shape_of(key), 0);
    let p = insertion_point(entries, shape_of, shape_of(key), 0) as int;
    let r = inserted(entries, shape_of, key, value);
    assert forall|i: int| 0 <= i < r.len() implies {
        let e = #[trigger] r[i];
        e == (key, value) || exists|j: int| 0 <= j < entries.len() && entries[j] == e
    } by {
        if p < entries.len() && shape_order(shape_of(entries[p].0), shape_of(key))
            == Order::Equal {
            if i != p {
                assert(entries[i] == r[i]);
            }
        } else {
            if i < p {
                assert(entries[i] == r[i]);
            } else if i > p {
                assert(entries[i - 1] == r[i]);
            }
        }
    }
}

/// What has been collected is sorted.
pub proof fn lemma_collected_sorted<K, V>(
    entries: Seq<(K, V)>,
    shape_of: spec_fn(K) -> Shape,
    n: nat,
)
    ensures
        keys_sorted(collected(entries, shape_of, n), shape_of),
    decreases n,
{
    if n > 0 {
        lemma_collected_sorted(entries, shape_of, (n - 1) as nat);
        lemma_inserted_sorted(
            collected(entries, shape_of, (n - 1) as nat),
            shape_of,
            entries[n - 1].0,
            entries[n - 1].1,
        );
    }
}

/// What has been collected was among the first `n` entries.
pub proof fn lemma_collected_members<K, V>(
    entries: Seq<(K, V)>,
    shape_of: spec_fn(K) -> Shape,
    n: nat,
)
    requires
        n <= entries.len(),
    ensures
        forall|i: int|
            0 <= i < collected(entries, shape_of, n).len() ==> exists|j: int|
                0 <= j < n && entries[j] == #[trigger] collected(entries, shape_of, n)[i],
    decreases n,
{
    if n > 0 {
        let prev = collected(entries, shape_of, (n - 1) as nat);
        let last = entries[n - 1];
        lemma_collected_members(entries, shape_of, (n - 1) as nat);
        lemma_inserted_members(prev, shape_of, last.0, last.1);
        let now = collected(entries, shape_of, n);
        assert forall|i: int| 0 <= i < now.len() implies exists|j: int|
            0 <= j < n && entries[j] == #[trigger] now[i] by {
            let e = now[i];
            if e == (last.0, last.1) {
                assert(entries[n - 1] == e);
            } else {
                let m = choose|m: int| 0 <= m < prev.len() && prev[m] == e;
                let j = choose|j: int| 0 <= j < n - 1 && entries[j] == prev[m];
                assert(entries[j] == e);
            }
        }
    }
}

/// Collecting entries that are sorted already gives them back as they are.
pub proof fn lemma_collected_of_sorted<K, V>(
    entries: Seq<(K, V)>,
    shape_of: spec_fn(K) -> Shape,
    n: nat,
)
    requires
        keys_sorted(entries, shape_of),
        n <= entries.len(),
    ensures
        collected(entries, shape_of, n) == entries.take(n as int),
    decreases n,
{
    if n == 0 {
        assert(entries.take(0) =~= Seq::empty());
    } else {
        lemma_collected_of_sorted(entries, shape_of, (n - 1) as nat);
        let prev = entries.take(n - 1);
        assert forall|j: int| 0 <= j < prev.len() implies shape_lt(
            shape_of(#[trigger] prev[j].0),
            shape_of(entries[n - 1].0),
        ) by {
            assert(prev[j] == entries[j]);
        }
        lemma_inserted_last(prev, shape_of, entries[n - 1].0, entries[n - 1].1);
        assert(prev.push((entries[n - 1].0, entries[n - 1].1)) =~= entries.take(n as int));
    }
}

/// What a sorted collection holds after an entry was put in: the new
/// entry, and the entries it held before under other keys.
pub proof fn lemma_inserted_contains<K, V>(
    entries: Seq<(K, V)>,
    shape_of: spec_fn(K) -> Shape,
    key: K,
    value: V,
    x: (K, V),
)
    requires
        keys_sorted(entries, shape_of),
    ensures
        inserted(entries, shape_of, key, value).contains(x) <==> (x == (key, value) || (
        entries.contains(x) && shape_of(x.0) != shape_of(key))),
{
    let k = shape_of(key);
    lemma_insertion_point(entries, shape_of, k, 0);
    let p = insertion_point(entries, shape_of, k, 0) as int;
    let r = inserted(entries, shape_of, key, value);
    let replaced = p < entries.len() && shape_order(shape_of(entries[p].0), k) == Order::Equal;
    if replaced {
        lemma_order_equal(shape_of(entries[p].0), k);
    }
    // no other entry has the key's shape
    assert forall|j: int| 0 <= j < entries.len() && !(replaced && j == p) implies shape_of(
        #[trigger] entries[j].0,
    ) != k by {
        if shape_of(entries[j].0) == k {
            lemma_order_reflexive(k);
            if j < p {
                assert(shape_lt(shape_of(entries[j].0), k));
            } else if j == p {
                assert(shape_order(shape_of(entries[p].0), k) == Order::Equal);
            } else {
                assert(shape_lt(shape_of(entries[p].0), shape_of(entries[j].0)));
                lemma_order_flip(shape_of(entries[p].0), k);
            }
        }
    }
    if r.contains(x) {
        let i = choose|i: int| 0 <= i < r.len() && r[i] == x;
        if x != (key, value) {
            if replaced {
                assert(i != p);
                assert(entries[i] == x);
            } else if i < p {
                assert(entries[i] == x);
            } else {
                assert(i > p);
                assert(entries[i - 1] == x);
            }
        }
    }
    if x == (key, value) {
        assert(r[p] == x);
    } else if entries.contains(x) && shape_of(x.0) != k {
        let j = choose|j: int| 0 <= j < entries.len() && entries[j] == x;
        if replaced {
            assert(j != p);
            assert(r[j] == x);
        } else if j < p {
            assert(r[j] == x);
        } else {
            assert(r[j + 1] == x);
        }
    }
}

/// A sorted collection is determined by what it holds: two sorted
/// collections that hold the same entries are the same sequence.
pub proof fn lemma_sorted_unique<K, V>(
    a: Seq<(K, V)>,
    b: Seq<(K, V)>,
    shape_of: spec_fn(K) -> Shape,
)
    requires
        keys_sorted(a, shape_of),
        keys_sorted(b, shape_of),
        forall|x: (K, V)| a.contains(x) <==> b.contains(x),
    ensures
        a == b,
    decreases a.len(),
{
    if a.len() == 0 {
        if b.len() > 0 {
            assert(b.contains(b[0]));
        }
        assert(a =~= b);
    } else {
        let x = a.last();
        assert(a.contains(x));
        assert(b.contains(x));
        let j = choose|j: int| 0 <= j < b.len() && b[j] == x;
        let y = b.last();
        assert(b.contains(y));
        assert(a.contains(y));
        let i = choose|i: int| 0 <= i < a.len() && a[i] == y;
        lemma_order_reflexive(shape_of(x.0));
        lemma_order_reflexive(shape_of(y.0));
        if j < b.len() - 1 {
            assert(shape_lt(shape_of(b[j].0), shape_of(b[b.len() - 1].0)));
            if i < a.len() - 1 {
                assert(shape_lt(shape_of(a[i].0), shape_of(a[a.len() - 1].0)));
                lemma_order_transitive(shape_of(x.0), shape_of(y.0), shape_of(x.0));
            }
            assert(false);
        }
        assert(x == y);
        let a2 = a.drop_last();
        let b2 = b.drop_last();
        assert forall|z: (K, V)| a2.contains(z) <==> b2.contains(z) by {
            if a2.contains(z) {
                let n = choose|n: int| 0 <= n < a2.len() && a2[n] == z;
                assert(a[n] == z);
                assert(a.contains(z));
                assert(shape_lt(shape_of(a[n].0), shape_of(a[a.len() - 1].0)));
                let m = choose|m: int| 0 <= m < b.len() && b[m] == z;
                assert(m < b.len() - 1);
                assert(b2[m] == z);
            }
            if b2.contains(z) {
                let n = choose|n: int| 0 <= n < b2.len() && b2[n] == z;
                assert(b[n] == z);
                assert(b.contains(z));
                assert(shape_lt(shape_of(b[n].0), shape_of(b[b.len() - 1].0)));
                let m = choose|m: int| 0 <= m < a.len() && a[m] == z;
                assert(m < a.len() - 1);
                assert(a2[m] == z);
            }
        }
        assert(keys_sorted(a2, shape_of)) by {
            assert forall|p: int, q: int| 0 <= p < q < a2.len() implies shape_lt(
                shape_of(#[trigger] a2[p].0),
                shape_of(#[trigger] a2[q].0),
            ) by {
                assert(a2[p] == a[p] && a2[q] == a[q]);
            }
        }
        assert(keys_sorted(b2, shape_of)) by {
            assert forall|p: int, q: int| 0 <= p < q < b2.len() implies shape_lt(
                shape_of(#[trigger] b2[p].0),
                shape_of(#[trigger] b2[q].0),
            ) by {
                assert(b2[p] == b[p] && b2[q] == b[q]);
            }
        }
        lemma_sorted_unique(a2, b2, shape_of);
        assert(a =~= a2.push(x));
        assert(b =~= b2.push(y));
    }
}

/// Canonical ordering stability: entries under different keys can be put
/// in in either order, the collection is the same.
pub proof fn lemma_insert_commutes<K, V>(
    entries: Seq<(K, V)>,
    shape_of: spec_fn(K) -> Shape,
    first: (K, V),
    second: (K, V),
)
    requires
        keys_sorted(entries, shape_of),
        shape_of(first.0) != shape_of(second.0),
    ensures
        inserted(inserted(entries, shape_of, first.0, first.1), shape_of, second.0, second.1)
            == inserted(
            inserted(entries, shape_of, second.0, second.1),
            shape_of,
            first.0,
            first.1,
        ),
{
    let a1 = inserted(entries, shape_of, first.0, first.1);
    let a2 = inserted(a1, shape_of, second.0, second.1);
    let b1 = inserted(entries, shape_of, second.0, second.1);
    let b2 = inserted(b1, shape_of, first.0, first.1);
    lemma_inserted_sorted(entries, shape_of, first.0, first.1);
    lemma_inserted_sorted(a1, shape_of, second.0, second.1);
    lemma_inserted_sorted(entries, shape_of, second.0, second.1);
    lemma_inserted_sorted(b1, shape_of, first.0, first.1);
    assert forall|x: (K, V)| a2.contains(x) <==> b2.contains(x) by {
        lemma_inserted_contains(entries, shape_of, first.0, first.1, x);
        lemma_inserted_contains(a1, shape_of, second.0, second.1, x);
        lemma_inserted_contains(entries, shape_of, second.0, second.1, x);
        lemma_inserted_contains(b1, shape_of, first.0, first.1, x);
    }
    lemma_sorted_unique(a2, b2, shape_of);
}

/// Puts `(key, value)` into the entries of a mapping.
pub fn insert_entry(entries: &mut Vec<(Value, Value)>, key: Value, value: Value)
    ensures
        entries_view(final(entries)@) == inserted(
            entries_view(old(entries)@),
            by_value(),
            key@,
            value@,
        ),
{
    let ghost before = entries_view(entries@);
    let ghost k = crate::value::value_shape(key@);
    let tree = key.shape_tree();
    let mut i: usize = 0;
    while i < entries.len()
        invariant
            i <= entries.len(),
            before == entries_view(entries@),
            entries@ == old(entries)@,
            tree@ == k,
            k == crate::value::value_shape(key@),
            insertion_point(before, by_value(), k, 0) == insertion_point(
                before,
                by_value(),
                k,
                i as nat,
            ),
        decreases entries.len() - i,
    {
        match entries[i].0.shape_tree().compare(&tree) {
            Order::Less => {
                i += 1;
            },
            Order::Equal => {
                entries.remove(i);
                entries.insert(i, (key, value));
                assert(entries_view(entries@) =~= before.update(i as int, (key@, value@)));
                return ;
            },
            Order::Greater => {
                entries.insert(i, (key, value));
                assert(entries_view(entries@) =~= before.insert(i as int, (key@, value@)));
                return ;
            },
        }
    }
    entries.push((key, value));
    assert(entries_view(entries@) =~= before.insert(before.len() as int, (key@, value@)));
}

/// Puts the field `name` with `value` into the fields of a struct.
pub fn insert_field(fields: &mut Vec<(Identifier, Value)>, name: Identifier, value: Value)
    ensures
        fields_view(final(fields)@) == inserted(
            fields_view(old(fields)@),
            by_name(),
            name@,
            value@,
        ),
{
    let ghost before = fields_view(fields@);
    let ghost k = crate::value::text::text_shape(name@);
    let tree = name.shape_tree();
    let mut i: usize = 0;
    while i < fields.len()
        invariant
            i <= fields.len(),
            before == fields_view(fields@),
            fields@ == old(fields)@,
            tree@ == k,
            k == crate::value::text::text_shape(name@),
            insertion_point(before, by_name(), k, 0) == insertion_point(
                before,
                by_name(),
                k,
                i as nat,
            ),
        decreases fields.len() - i,
    {
        match fields[i].0.shape_tree().compare(&tree) {
            Order::Less => {
                i += 1;
            },
            Order::Equal => {
                fields.remove(i);
                fields.insert(i, (name, value));
                assert(fields_view(fields@) =~= before.update(i as int, (name@, value@)));
                return ;
            },
            Order::Greater => {
                fields.insert(i, (name, value));
                assert(fields_view(fields@) =~= before.insert(i as int, (name@, value@)));
                return ;
            },
        }
    }
    fields.push((name, value));
    assert(fields_view(fields@) =~= before.insert(before.len() as int, (name@, value@)));
}

} // verus!
