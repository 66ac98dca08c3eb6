//! The invariant of values, kept by whatever builds them.
//!
//! What the parser reads is well formed; so is what a builder gives, where
//! the values handed to it were.

use crate::value::grammar::{
    entries_at, fields_at, items_at, lemma_skip_space, named_at, parsed_value, skip_space,
    value_at, MAX_DEPTH,
};
use crate::value::sorted::{
    collected, inserted, lemma_collected_members, lemma_collected_sorted,
    lemma_inserted_members, lemma_inserted_sorted,
};
use crate::value::types::SegmentView;
use crate::value::{by_name, by_value, keys_sorted, value_wf, ValueView};
use vstd::prelude::*;

verus! {

/// Every value of `items` is well formed.
pub open spec fn all_wf(items: Seq<ValueView>) -> bool {
    forall|i: int| 0 <= i < items.len() ==> value_wf(#[trigger] items[i])
}

/// Every key and every value of `entries` is well formed.
pub open spec fn entries_wf(entries: Seq<(ValueView, ValueView)>) -> bool {
    forall|i: int|
        0 <= i < entries.len() ==> value_wf((#[trigger] entries[i]).0) && value_wf(entries[i].1)
}

/// Every value of `fields` is well formed.
pub open spec fn fields_wf(fields: Seq<(Seq<char>, ValueView)>) -> bool {
    forall|i: int| 0 <= i < fields.len() ==> value_wf((#[trigger] fields[i]).1)
}

/// Putting a well-formed entry into well-formed entries leaves them well
/// formed, and sorted if they were.
pub proof fn lemma_entry_kept(
    entries: Seq<(ValueView, ValueView)>,
    key: ValueView,
    value: ValueView,
)
    requires
        entries_wf(entries),
        value_wf(key),
        value_wf(value),
    ensures
        entries_wf(inserted(entries, by_value(), key, value)),
        keys_sorted(entries, by_value()) ==> keys_sorted(
            inserted(entries, by_value(), key, value),
            by_value(),
        ),
{
    lemma_inserted_members(entries, by_value(), key, value);
    let r = inserted(entries, by_value(), key, value);
    assert forall|i: int| 0 <= i < r.len() implies value_wf((#[trigger] r[i]).0) && value_wf(
        r[i].1,
    ) by {
        if r[i] != (key, value) {
            let j = choose|j: int| 0 <= j < entries.len() && entries[j] == r[i];
            assert(value_wf(entries[j].0));
        }
    }
    if keys_sorted(entries, by_value()) {
        lemma_inserted_sorted(entries, by_value(), key, value);
    }
}

/// Putting a well-formed field into well-formed fields leaves them well
/// formed, and sorted if they were.
pub proof fn lemma_field_kept(
    fields: Seq<(Seq<char>, ValueView)>,
    name: Seq<char>,
    value: ValueView,
)
    requires
        fields_wf(fields),
        value_wf(value),
    ensures
        fields_wf(inserted(fields, by_name(), name, value)),
        keys_sorted(fields, by_name()) ==> keys_sorted(
            inserted(fields, by_name(), name, value),
            by_name(),
        ),
{
    lemma_inserted_members(fields, by_name(), name, value);
    let r = inserted(fields, by_name(), name, value);
    assert forall|i: int| 0 <= i < r.len() implies value_wf((#[trigger] r[i]).1) by {
        if r[i] != (name, value) {
            let j = choose|j: int| 0 <= j < fields.len() && fields[j] == r[i];
            assert(value_wf(fields[j].1));
        }
    }
    if keys_sorted(fields, by_name()) {
        lemma_inserted_sorted(fields, by_name(), name, value);
    }
}

proof fn lemma_collected_entries_wf(entries: Seq<(ValueView, ValueView)>)
    requires
        entries_wf(entries),
    ensures
        value_wf(ValueView::Mapping(collected(entries, by_value(), entries.len()))),
{
    let c = collected(entries, by_value(), entries.len());
    lemma_collected_sorted(entries, by_value(), entries.len());
    lemma_collected_members(entries, by_value(), entries.len());
    assert forall|i: int| 0 <= i < c.len() implies value_wf((#[trigger] c[i]).0) && value_wf(
        c[i].1,
    ) by {
        let j = choose|j: int| 0 <= j < entries.len() && entries[j] == c[i];
        assert(value_wf(entries[j].0));
    }
}

proof fn lemma_collected_fields_wf(path: Seq<SegmentView>, fields: Seq<(Seq<char>, ValueView)>)
    requires
        fields_wf(fields),
    ensures
        value_wf(ValueView::Struct(path, collected(fields, by_name(), fields.len()))),
{
    let c = collected(fields, by_name(), fields.len());
    lemma_collected_sorted(fields, by_name(), fields.len());
    lemma_collected_members(fields, by_name(), fields.len());
    assert forall|i: int| 0 <= i < c.len() implies value_wf((#[trigger] c[i]).1) by {
        let j = choose|j: int| 0 <= j < fields.len() && fields[j] == c[i];
        assert(value_wf(fields[j].1));
    }
}

/// What is read as a value is well formed.
pub proof fn lemma_value_at_wf(s: Seq<char>, i: int, depth: nat)
    ensures
        value_at(s, i, depth) matches Ok((v, _)) ==> value_wf(v),
    decreases s.len() - i, 1nat,
{
    let j = skip_space(s, i);
    if 0 <= i <= j < s.len() {
        lemma_skip_space(s, i);
        if s[j] == '(' {
            lemma_items_at_wf(s, j + 1, ')', depth);
        } else if s[j] == '[' {
            lemma_items_at_wf(s, j + 1, ']', depth);
        } else if s[j] == '{' {
            lemma_entries_at_wf(s, j + 1, depth);
            match entries_at(s, j + 1, depth) {
                Ok((entries, _)) => {
                    lemma_collected_entries_wf(entries);
                },
                Err(_) => {},
            }
        } else if crate::value::grammar::is_ident_start(s[j]) && s[j] != '"' && s[j] != '\'' {
            lemma_named_at_wf(s, j, depth);
        }
    }
}

proof fn lemma_named_at_wf(s: Seq<char>, j: int, depth: nat)
    ensures
        named_at(s, j, depth) matches Ok((v, _)) ==> value_wf(v),
    decreases s.len() - j, 0nat,
{
    match crate::value::grammar::path_at(s, j) {
        Err(_) => {},
        Ok((path, k)) => {
            let k2 = skip_space(s, k);
            if crate::value::grammar::at(s, k2, '(') && j < k <= k2 {
                lemma_fields_at_wf(s, k2 + 1, depth);
                lemma_items_at_wf(s, k2 + 1, ')', depth);
                match fields_at(s, k2 + 1, depth) {
                    Ok((fields, _)) => {
                        lemma_collected_fields_wf(path, fields);
                    },
                    Err(_) => {},
                }
            }
        },
    }
}

proof fn lemma_items_at_wf(s: Seq<char>, i: int, close: char, depth: nat)
    ensures
        items_at(s, i, close, depth) matches Ok((items, _)) ==> all_wf(items),
    decreases s.len() - i, 2nat,
{
    let j = skip_space(s, i);
    if 0 <= i <= j < s.len() && s[j] != close && depth > 0 {
        lemma_value_at_wf(s, j, (depth - 1) as nat);
        match value_at(s, j, (depth - 1) as nat) {
            Err(_) => {},
            Ok((v, k)) => {
                let k2 = skip_space(s, k);
                if j < k <= k2 && crate::value::grammar::at(s, k2, ',') {
                    lemma_items_at_wf(s, k2 + 1, close, depth);
                    match items_at(s, k2 + 1, close, depth) {
                        Ok((rest, _)) => {
                            let all = seq![v] + rest;
                            assert forall|n: int| 0 <= n < all.len() implies value_wf(
                                #[trigger] all[n],
                            ) by {
                                if n > 0 {
                                    assert(all[n] == rest[n - 1]);
                                }
                            }
                        },
                        Err(_) => {},
                    }
                }
            },
        }
    }
}

proof fn lemma_entries_at_wf(s: Seq<char>, i: int, depth: nat)
    ensures
        entries_at(s, i, depth) matches Ok((entries, _)) ==> entries_wf(entries),
    decreases s.len() - i, 2nat,
{
    let j = skip_space(s, i);
    if 0 <= i <= j < s.len() && s[j] != '}' && depth > 0 {
        lemma_value_at_wf(s, j, (depth - 1) as nat);
        match value_at(s, j, (depth - 1) as nat) {
            Err(_) => {},
            Ok((key, k)) => {
                let k2 = skip_space(s, k);
                if j < k <= k2 && crate::value::grammar::at(s, k2, ':') {
                    lemma_value_at_wf(s, k2 + 1, (depth - 1) as nat);
                    match value_at(s, k2 + 1, (depth - 1) as nat) {
                        Err(_) => {},
                        Ok((value, m)) => {
                            let m2 = skip_space(s, m);
                            if k2 < m <= m2 && crate::value::grammar::at(s, m2, ',') {
                                lemma_entries_at_wf(s, m2 + 1, depth);
                                match entries_at(s, m2 + 1, depth) {
                                    Ok((rest, _)) => {
                                        let all = seq![(key, value)] + rest;
                                        assert forall|n: int| 0 <= n < all.len() implies value_wf(
                                            (#[trigger] all[n]).0,
                                        ) && value_wf(all[n].1) by {
                                            if n > 0 {
                                                assert(all[n] == rest[n - 1]);
                                            }
                                        }
                                    },
                                    Err(_) => {},
                                }
                            }
                        },
                    }
                }
            },
        }
    }
}

proof fn lemma_fields_at_wf(s: Seq<char>, i: int, depth: nat)
    ensures
        fields_at(s, i, depth) matches Ok((fields, _)) ==> fields_wf(fields),
    decreases s.len() - i, 2nat,
{
    let j = skip_space(s, i);
    if 0 <= i <= j < s.len() && s[j] != ')' && crate::value::grammar::is_ident_start(s[j]) {
        let k = crate::value::grammar::ident_end(s, j);
        let k2 = skip_space(s, k);
        if j < k <= k2 && crate::value::grammar::at(s, k2, ':') && depth > 0 {
            lemma_value_at_wf(s, k2 + 1, (depth - 1) as nat);
            match value_at(s, k2 + 1, (depth - 1) as nat) {
                Err(_) => {},
                Ok((value, m)) => {
                    let m2 = skip_space(s, m);
                    if k2 < m <= m2 && crate::value::grammar::at(s, m2, ',') {
                        lemma_fields_at_wf(s, m2 + 1, depth);
                        match fields_at(s, m2 + 1, depth) {
                            Ok((rest, _)) => {
                                let all = seq![(s.subrange(j, k), value)] + rest;
                                assert forall|n: int| 0 <= n < all.len() implies value_wf(
                                    (#[trigger] all[n]).1,
                                ) by {
                                    if n > 0 {
                                        assert(all[n] == rest[n - 1]);
                                    }
                                }
                            },
                            Err(_) => {},
                        }
                    }
                },
            }
        }
    }
}

/// What a text parses to is well formed.
pub proof fn lemma_parsed_wf(s: Seq<char>)
    ensures
        parsed_value(s) matches Ok(v) ==> value_wf(v),
{
    lemma_value_at_wf(s, 0, MAX_DEPTH as nat);
}

} // verus!
