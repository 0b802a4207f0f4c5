//! The folder/script tree, assembled from the flat, ID-keyed script table.
//!
//! Items are sorted by their `order` field, the root's children are pulled
//! out first, and every folder then claims its own children from the
//! remaining pool; claimed items leave the pool, so a malformed parent
//! chain can never be walked twice. Script identifiers are deduplicated
//! over the whole tree afterwards.

use vstd::prelude::*;

use crate::actions::{acs_model, Action, ActionV};
use crate::casing::{lowercase_of, snake_case_of, to_lowercase, to_snake_case, unicode_alpha};
use crate::document::{
    jentries, jget, jval, jvals, lemma_jvals_index, lemma_jvals_len, JsonV, JsonValue,
};
use crate::text::str_eq;
use crate::to_pymodd_maps::{lookup_or, lookup_string_map, maps_model, MapsV, PymoddMaps};
use crate::utils::{is_valid_class_name, is_valid_class_name_spec};

verus! {

/// A folder of scripts and nested folders.
#[derive(Debug, PartialEq, Eq)]
pub struct Directory {
    pub children: Vec<DirectoryItem>,
    pub name: String,
    pub key: String,
}

#[derive(Debug, PartialEq, Eq)]
pub enum DirectoryItem {
    Directory(Directory),
    Script(Script),
}

/// One event handler: a trigger set plus an ordered action list.
#[derive(Debug, PartialEq, Eq)]
pub struct Script {
    pub name: String,
    pub function_name: String,
    pub key: String,
    pub triggers: Vec<String>,
    pub actions: Vec<Action>,
}

// ---------------------------------------------------------------------------
// models
// ---------------------------------------------------------------------------

pub struct DirectoryV {
    pub children: Seq<DirItemV>,
    pub name: Seq<char>,
    pub key: Seq<char>,
}

pub enum DirItemV {
    Directory(DirectoryV),
    Script(ScriptV),
}

pub struct ScriptV {
    pub name: Seq<char>,
    pub function_name: Seq<char>,
    pub key: Seq<char>,
    pub triggers: Seq<Seq<char>>,
    pub actions: Seq<ActionV>,
}

pub open spec fn dir_model(d: Directory) -> DirectoryV
    decreases d,
{
    DirectoryV { children: items_model(d.children@), name: d.name@, key: d.key@ }
}

pub open spec fn item_model(it: DirectoryItem) -> DirItemV
    decreases it,
{
    match it {
        DirectoryItem::Directory(d) => DirItemV::Directory(dir_model(d)),
        DirectoryItem::Script(s) => DirItemV::Script(script_model(s)),
    }
}

pub open spec fn items_model(items: Seq<DirectoryItem>) -> Seq<DirItemV>
    decreases items,
{
    if items.len() == 0 {
        Seq::<DirItemV>::empty()
    } else {
        seq![item_model(items[0])] + items_model(items.skip(1))
    }
}

pub open spec fn script_model(s: Script) -> ScriptV {
    ScriptV {
        name: s.name@,
        function_name: s.function_name@,
        key: s.key@,
        triggers: s.triggers@.map_values(|x: String| x@),
        actions: acs_model(s.actions@),
    }
}

pub proof fn lemma_items_model_len(items: Seq<DirectoryItem>)
    ensures
        items_model(items).len() == items.len(),
    decreases items.len(),
{
    if items.len() > 0 {
        lemma_items_model_len(items.skip(1));
    }
}

pub proof fn lemma_items_model_index(items: Seq<DirectoryItem>, i: int)
    requires
        0 <= i < items.len(),
    ensures
        items_model(items).len() == items.len(),
        items_model(items)[i] == item_model(items[i]),
    decreases items.len(),
{
    lemma_items_model_len(items);
    if i > 0 {
        lemma_items_model_index(items.skip(1), i - 1);
    }
}

pub proof fn lemma_items_model_snoc(items: Seq<DirectoryItem>, x: DirectoryItem)
    ensures
        items_model(items.push(x)) == items_model(items).push(item_model(x)),
    decreases items.len(),
{
    if items.len() == 0 {
        assert(items.push(x)[0] == x);
        assert(items.push(x).skip(1) =~= items);
        assert(items_model(items.push(x)) == seq![item_model(x)] + items_model(items));
        assert(seq![item_model(x)] + items_model(items) =~= items_model(items).push(item_model(x)));
    } else {
        lemma_items_model_snoc(items.skip(1), x);
        assert(items.push(x)[0] == items[0]);
        assert(items.push(x).skip(1) =~= items.skip(1).push(x));
        assert(items_model(items.push(x)) == seq![item_model(items[0])] + items_model(
            items.skip(1).push(x),
        ));
        assert(items_model(items) == seq![item_model(items[0])] + items_model(items.skip(1)));
        assert(seq![item_model(items[0])] + items_model(items.skip(1)).push(item_model(x)) =~= (
        seq![item_model(items[0])] + items_model(items.skip(1))).push(item_model(x)));
    }
}

pub proof fn lemma_items_model_concat(a: Seq<DirectoryItem>, b: Seq<DirectoryItem>)
    ensures
        items_model(a + b) == items_model(a) + items_model(b),
    decreases a.len(),
{
    if a.len() == 0 {
        assert(a + b =~= b);
        assert(items_model(a) + items_model(b) =~= items_model(b));
    } else {
        lemma_items_model_concat(a.skip(1), b);
        assert((a + b)[0] == a[0]);
        assert((a + b).skip(1) =~= a.skip(1) + b);
        assert(items_model(a + b) == seq![item_model(a[0])] + items_model(a.skip(1) + b));
        assert(items_model(a) == seq![item_model(a[0])] + items_model(a.skip(1)));
        assert(seq![item_model(a[0])] + (items_model(a.skip(1)) + items_model(b)) =~= (seq![
            item_model(a[0]),
        ] + items_model(a.skip(1))) + items_model(b));
    }
}

// ---------------------------------------------------------------------------
// reading fields off raw script-table entries
// ---------------------------------------------------------------------------

/// The `order` of an item, -1 when absent or not an integer.
pub open spec fn order_of(v: JsonV) -> int {
    match jget(v, "order"@) {
        Option::Some(JsonV::Int(n)) => n,
        _ => -1,
    }
}

/// The `parent` of an item, `None` for a root-level item.
pub open spec fn parent_of(v: JsonV) -> Option<Seq<char>> {
    match jget(v, "parent"@) {
        Option::Some(JsonV::Str(s)) => Option::Some(s),
        _ => Option::None,
    }
}

/// A named string field of an item, `UNDEFINED` when absent.
pub open spec fn string_key_of(v: JsonV, key: Seq<char>) -> Seq<char> {
    match jget(v, key) {
        Option::Some(JsonV::Str(s)) => s,
        _ => "UNDEFINED"@,
    }
}

pub fn parse_key_of_item_to_string(key: &str, item_data: &JsonValue) -> (r: String)
    ensures
        r@ == string_key_of(jval(*item_data), key@),
{
    match item_data.get(key) {
        Option::Some(v) => match v.as_str() {
            Option::Some(s) => s.to_owned(),
            Option::None => "UNDEFINED".to_owned(),
        },
        Option::None => "UNDEFINED".to_owned(),
    }
}

/// Whether the item's order does not exceed `xo`.
fn order_at_most(item: &JsonValue, xo: i64) -> (r: bool)
    ensures
        r == (order_of(jval(*item)) <= xo as int),
{
    let oo = order_of_item(item);
    oo <= xo
}

fn order_of_item(item: &JsonValue) -> (r: i64)
    ensures
        r as int == order_of(jval(*item)),
{
    match item.get("order") {
        Option::Some(v) => match v.as_i64() {
            Option::Some(n) => n,
            Option::None => -1,
        },
        Option::None => -1,
    }
}

fn parent_of_item(item: &JsonValue) -> (r: Option<String>)
    ensures
        match r {
            Option::Some(s) => parent_of(jval(*item)) == Option::Some(s@),
            Option::None => parent_of(jval(*item)) is None,
        },
{
    match item.get("parent") {
        Option::Some(v) => match v.as_str() {
            Option::Some(s) => Option::Some(s.to_owned()),
            Option::None => Option::None,
        },
        Option::None => Option::None,
    }
}

// ---------------------------------------------------------------------------
// stable sorting by order
// ---------------------------------------------------------------------------

/// `x` inserted after every element whose order does not exceed its own:
/// one step of a stable insertion sort.
pub open spec fn insert_by_order(sorted: Seq<JsonV>, x: JsonV) -> Seq<JsonV>
    decreases sorted.len(),
{
    if sorted.len() == 0 {
        seq![x]
    } else if order_of(x) < order_of(sorted[0]) {
        seq![x] + sorted
    } else {
        seq![sorted[0]] + insert_by_order(sorted.skip(1), x)
    }
}

/// The stable sort of the items by ascending order.
pub open spec fn sort_by_order(items: Seq<JsonV>) -> Seq<JsonV>
    decreases items.len(),
{
    if items.len() == 0 {
        Seq::<JsonV>::empty()
    } else {
        insert_by_order(sort_by_order(items.take(items.len() - 1)), items[items.len() - 1])
    }
}

pub proof fn lemma_insert_by_order_len(sorted: Seq<JsonV>, x: JsonV)
    ensures
        insert_by_order(sorted, x).len() == sorted.len() + 1,
    decreases sorted.len(),
{
    if sorted.len() > 0 && !(order_of(x) < order_of(sorted[0])) {
        lemma_insert_by_order_len(sorted.skip(1), x);
    }
}

/// `insert_by_order` puts `x` at the first slot whose element has a larger
/// order.
pub proof fn lemma_insert_by_order_at(sorted: Seq<JsonV>, x: JsonV, j: int)
    requires
        0 <= j <= sorted.len(),
        forall|k: int| 0 <= k < j ==> order_of(#[trigger] sorted[k]) <= order_of(x),
        j < sorted.len() ==> order_of(x) < order_of(sorted[j]),
    ensures
        insert_by_order(sorted, x) == sorted.take(j) + seq![x] + sorted.skip(j),
    decreases sorted.len(),
{
    if sorted.len() == 0 {
        assert(insert_by_order(sorted, x) =~= sorted.take(j) + seq![x] + sorted.skip(j));
    } else if order_of(x) < order_of(sorted[0]) {
        assert(j == 0);
        assert(sorted.take(0) =~= Seq::<JsonV>::empty());
        assert(sorted.skip(0) =~= sorted);
        assert(insert_by_order(sorted, x) =~= sorted.take(j) + seq![x] + sorted.skip(j));
    } else {
        assert(j >= 1) by {
            if j == 0 {
                assert(order_of(x) < order_of(sorted[0]));
            }
        }
        lemma_insert_by_order_at(sorted.skip(1), x, j - 1);
        assert(sorted.skip(1).take(j - 1) =~= sorted.subrange(1, j));
        assert(sorted.skip(1).skip(j - 1) =~= sorted.skip(j));
        assert(insert_by_order(sorted, x) == seq![sorted[0]] + (sorted.subrange(1, j) + seq![x]
            + sorted.skip(j)));
        assert(seq![sorted[0]] + (sorted.subrange(1, j) + seq![x] + sorted.skip(j)) =~= sorted.take(
            j,
        ) + seq![x] + sorted.skip(j));
    }
}

/// Stable insertion sort of raw items by their `order` field.
pub fn sort_items_by_order(items: Vec<JsonValue>) -> (r: Vec<JsonValue>)
    ensures
        jvals(r@) == sort_by_order(jvals(items@)),
{
    let ghost iv = jvals(items@);
    let mut out: Vec<JsonValue> = Vec::new();
    let mut i: usize = 0;
    proof {
        lemma_jvals_len(items@);
        assert(iv.take(0) =~= Seq::<JsonV>::empty());
        assert(jvals(out@) =~= sort_by_order(iv.take(0)));
    }
    while i < items.len()
        invariant
            0 <= i <= items@.len(),
            iv == jvals(items@),
            iv.len() == items@.len(),
            jvals(out@) == sort_by_order(iv.take(i as int)),
            out@.len() == i,
        decreases items@.len() - i,
    {
        let x = items[i].clone();
        let ghost xv = jval(items@[i as int]);
        proof {
            lemma_jvals_index(items@, i as int);
            lemma_jvals_len(out@);
        }
        let xo = order_of_item(&x);
        // find the first slot whose element has a strictly larger order
        let mut j: usize = 0;
        while j < out.len() && order_at_most(&out[j], xo)
            invariant
                0 <= j <= out@.len(),
                jvals(out@).len() == out@.len(),
                xo as int == order_of(xv),
                forall|k: int|
                    0 <= k < j ==> order_of(#[trigger] jvals(out@)[k]) <= order_of(xv),
            decreases out@.len() - j,
        {
            proof {
                lemma_jvals_index(out@, j as int);
            }
            j = j + 1;
        }
        proof {
            lemma_jvals_index_weak(out@, j as int);
            lemma_insert_by_order_at(jvals(out@), xv, j as int);
        }
        let ghost olds = out@;
        let ghost xj = x;
        out.insert(j, x);
        proof {
            lemma_jvals_insert(olds, j as int, xj);
            assert(out@ == olds.insert(j as int, xj));
            assert(jval(xj) == xv);
            assert(iv.take(i + 1) =~= iv.take(i as int).push(iv[i as int]));
            assert(iv.take(i + 1).take(i as int) =~= iv.take(i as int));
            assert(iv.take(i + 1)[i as int] == iv[i as int]);
            assert(sort_by_order(iv.take(i + 1)) == insert_by_order(
                sort_by_order(iv.take(i as int)),
                iv[i as int],
            ));
        }
        i = i + 1;
    }
    proof {
        assert(iv.take(iv.len() as int) =~= iv);
    }
    out
}

/// Index access below the length, also when the index equals the length.
proof fn lemma_jvals_index_weak(items: Seq<JsonValue>, j: int)
    requires
        0 <= j <= items.len(),
    ensures
        jvals(items).len() == items.len(),
        j < items.len() ==> jvals(items)[j] == jval(items[j]),
{
    lemma_jvals_len(items);
    if j < items.len() {
        lemma_jvals_index(items, j);
    }
}

// ---------------------------------------------------------------------------
// pulling a parent's children out of the pool
// ---------------------------------------------------------------------------

/// The items whose parent is `key`, in pool order.
pub open spec fn children_of(pool: Seq<JsonV>, key: Option<Seq<char>>) -> Seq<JsonV>
    decreases pool.len(),
{
    if pool.len() == 0 {
        Seq::<JsonV>::empty()
    } else if parent_of(pool[0]) == key {
        seq![pool[0]] + children_of(pool.skip(1), key)
    } else {
        children_of(pool.skip(1), key)
    }
}

/// The items whose parent is not `key`, in pool order.
pub open spec fn remaining_of(pool: Seq<JsonV>, key: Option<Seq<char>>) -> Seq<JsonV>
    decreases pool.len(),
{
    if pool.len() == 0 {
        Seq::<JsonV>::empty()
    } else if parent_of(pool[0]) == key {
        remaining_of(pool.skip(1), key)
    } else {
        seq![pool[0]] + remaining_of(pool.skip(1), key)
    }
}

pub proof fn lemma_children_remaining_len(pool: Seq<JsonV>, key: Option<Seq<char>>)
    ensures
        children_of(pool, key).len() + remaining_of(pool, key).len() == pool.len(),
    decreases pool.len(),
{
    if pool.len() > 0 {
        lemma_children_remaining_len(pool.skip(1), key);
    }
}

pub proof fn lemma_children_remaining_snoc(pool: Seq<JsonV>, key: Option<Seq<char>>, x: JsonV)
    ensures
        parent_of(x) == key ==> children_of(pool.push(x), key) == children_of(pool, key).push(x)
            && remaining_of(pool.push(x), key) == remaining_of(pool, key),
        parent_of(x) != key ==> children_of(pool.push(x), key) == children_of(pool, key)
            && remaining_of(pool.push(x), key) == remaining_of(pool, key).push(x),
    decreases pool.len(),
{
    if pool.len() == 0 {
        assert(pool.push(x)[0] == x);
        assert(pool.push(x).skip(1) =~= pool);
        if parent_of(x) == key {
            assert(children_of(pool.push(x), key) == seq![x] + children_of(pool, key));
            assert(seq![x] + children_of(pool, key) =~= children_of(pool, key).push(x));
        } else {
            assert(remaining_of(pool.push(x), key) == seq![x] + remaining_of(pool, key));
            assert(seq![x] + remaining_of(pool, key) =~= remaining_of(pool, key).push(x));
        }
    } else {
        lemma_children_remaining_snoc(pool.skip(1), key, x);
        assert(pool.push(x)[0] == pool[0]);
        assert(pool.push(x).skip(1) =~= pool.skip(1).push(x));
        if parent_of(pool[0]) == key {
            assert(children_of(pool.push(x), key) == seq![pool[0]] + children_of(
                pool.skip(1).push(x),
                key,
            ));
            assert(children_of(pool, key) == seq![pool[0]] + children_of(pool.skip(1), key));
            assert(remaining_of(pool.push(x), key) == remaining_of(pool.skip(1).push(x), key));
            assert(remaining_of(pool, key) == remaining_of(pool.skip(1), key));
            if parent_of(x) == key {
                assert(seq![pool[0]] + children_of(pool.skip(1), key).push(x) =~= (seq![pool[0]]
                    + children_of(pool.skip(1), key)).push(x));
            }
        } else {
            assert(children_of(pool.push(x), key) == children_of(pool.skip(1).push(x), key));
            assert(children_of(pool, key) == children_of(pool.skip(1), key));
            assert(remaining_of(pool.push(x), key) == seq![pool[0]] + remaining_of(
                pool.skip(1).push(x),
                key,
            ));
            assert(remaining_of(pool, key) == seq![pool[0]] + remaining_of(pool.skip(1), key));
            if parent_of(x) != key {
                assert(seq![pool[0]] + remaining_of(pool.skip(1), key).push(x) =~= (seq![pool[0]]
                    + remaining_of(pool.skip(1), key)).push(x));
            }
        }
    }
}

/// The model of an optional parent key.
pub open spec fn opt_key_model(k: Option<String>) -> Option<Seq<char>> {
    match k {
        Option::Some(s) => Option::Some(s@),
        Option::None => Option::None,
    }
}

/// Whether an exec parent key equals a model parent key.
fn parent_matches(item: &JsonValue, parent_key: &Option<String>) -> (r: bool)
    ensures
        r == (parent_of(jval(*item)) == opt_key_model(*parent_key)),
{
    let p = parent_of_item(item);
    match (p, parent_key) {
        (Option::Some(a), Option::Some(b)) => str_eq(a.as_str(), b.as_str()),
        (Option::None, Option::None) => true,
        _ => false,
    }
}

/// Removes and returns the items whose parent is `parent_key`; the rest
/// stay, in order. The root's key is `None`.
pub fn remove_children_of_parent_in_items(parent_key: &Option<String>, items: &mut Vec<JsonValue>) -> (r:
    Vec<JsonValue>)
    ensures
        jvals(r@) == children_of(jvals(old(items)@), opt_key_model(*parent_key)),
        jvals(final(items)@) == remaining_of(jvals(old(items)@), opt_key_model(*parent_key)),
{
    let ghost key: Option<Seq<char>> = opt_key_model(*parent_key);
    let ghost pool = jvals(items@);
    let mut kept: Vec<JsonValue> = Vec::new();
    let mut removed: Vec<JsonValue> = Vec::new();
    let mut i: usize = 0;
    proof {
        lemma_jvals_len(items@);
        assert(pool.take(0) =~= Seq::<JsonV>::empty());
        assert(jvals(removed@) =~= children_of(pool.take(0), key));
        assert(jvals(kept@) =~= remaining_of(pool.take(0), key));
    }
    while i < items.len()
        invariant
            0 <= i <= items@.len(),
            pool == jvals(items@),
            pool.len() == items@.len(),
            key == opt_key_model(*parent_key),
            jvals(removed@) == children_of(pool.take(i as int), key),
            jvals(kept@) == remaining_of(pool.take(i as int), key),
        decreases items@.len() - i,
    {
        let item = items[i].clone();
        let ghost iv = jval(items@[i as int]);
        proof {
            lemma_jvals_index(items@, i as int);
            lemma_children_remaining_snoc(pool.take(i as int), key, iv);
            assert(pool.take(i as int).push(iv) =~= pool.take(i + 1));
        }
        if parent_matches(&item, parent_key) {
            let ghost prev = removed@;
            proof {
                lemma_jvals_len(prev);
            }
            removed.push(item);
            proof {
                assert(removed@.take(prev.len() as int) =~= prev);
                lemma_jvals_snoc_dir(prev, removed@, iv);
            }
        } else {
            let ghost prev = kept@;
            proof {
                lemma_jvals_len(prev);
            }
            kept.push(item);
            proof {
                assert(kept@.take(prev.len() as int) =~= prev);
                lemma_jvals_snoc_dir(prev, kept@, iv);
            }
        }
        i = i + 1;
    }
    proof {
        assert(pool.take(pool.len() as int) =~= pool);
    }
    *items = kept;
    removed
}

/// Pushing a value pushes its model.
proof fn lemma_jvals_snoc_dir(prev: Seq<JsonValue>, cur: Seq<JsonValue>, xv: JsonV)
    requires
        cur.len() == prev.len() + 1,
        cur.take(prev.len() as int) == prev,
        jval(cur[prev.len() as int]) == xv,
    ensures
        jvals(cur) == jvals(prev).push(xv),
{
    lemma_jvals_len(cur);
    lemma_jvals_len(prev);
    assert forall|k: int| 0 <= k < cur.len() implies #[trigger] jvals(cur)[k] == jvals(prev).push(
        xv,
    )[k] by {
        lemma_jvals_index(cur, k);
        if k < prev.len() {
            lemma_jvals_index(prev, k);
            assert(cur.take(prev.len() as int)[k] == cur[k]);
        }
    }
    assert(jvals(cur) =~= jvals(prev).push(xv));
}

// ---------------------------------------------------------------------------
// script identifiers
// ---------------------------------------------------------------------------

/// An ASCII decimal digit.
pub open spec fn is_digit_char(c: char) -> bool {
    48 <= c as int <= 57
}

/// The characters kept when a display name is sanitized: letters, decimal
/// digits, spaces and underscores.
pub open spec fn keep_name_char(c: char) -> bool {
    unicode_alpha(c) || is_digit_char(c) || c == ' ' || c == '_'
}

/// The display name with every other character dropped.
pub open spec fn filter_name(s: Seq<char>) -> Seq<char>
    decreases s.len(),
{
    if s.len() == 0 {
        Seq::<char>::empty()
    } else if keep_name_char(s[0]) {
        seq![s[0]] + filter_name(s.skip(1))
    } else {
        filter_name(s.skip(1))
    }
}

pub proof fn lemma_filter_name_snoc(s: Seq<char>, c: char)
    ensures
        keep_name_char(c) ==> filter_name(s.push(c)) == filter_name(s).push(c),
        !keep_name_char(c) ==> filter_name(s.push(c)) == filter_name(s),
    decreases s.len(),
{
    if s.len() == 0 {
        assert(s.push(c)[0] == c);
        assert(s.push(c).skip(1) =~= s);
        if keep_name_char(c) {
            assert(filter_name(s.push(c)) == seq![c] + filter_name(s));
            assert(seq![c] + filter_name(s) =~= filter_name(s).push(c));
        }
    } else {
        lemma_filter_name_snoc(s.skip(1), c);
        assert(s.push(c)[0] == s[0]);
        assert(s.push(c).skip(1) =~= s.skip(1).push(c));
        if keep_name_char(s[0]) {
            assert(filter_name(s.push(c)) == seq![s[0]] + filter_name(s.skip(1).push(c)));
            assert(filter_name(s) == seq![s[0]] + filter_name(s.skip(1)));
            if keep_name_char(c) {
                assert(seq![s[0]] + filter_name(s.skip(1)).push(c) =~= (seq![s[0]] + filter_name(
                    s.skip(1),
                )).push(c));
            }
        } else {
            assert(filter_name(s.push(c)) == filter_name(s.skip(1).push(c)));
            assert(filter_name(s) == filter_name(s.skip(1)));
        }
    }
}

/// The sanitized, snake_cased identifier for a display name: `None` when
/// nothing is left, prefixed with `x` when the result is not a valid
/// class name.
pub open spec fn function_name_opt(s: Seq<char>) -> Option<Seq<char>> {
    let f = snake_case_of(filter_name(s));
    if f.len() == 0 {
        Option::None
    } else if !is_valid_class_name_spec(f) {
        Option::Some(seq!['x'] + f)
    } else {
        Option::Some(f)
    }
}

/// A script's identifier: derived from its display name, from its
/// lowercased key when the name yields nothing, `undefined` as a last
/// resort.
pub open spec fn script_function_name(name: Seq<char>, key: Seq<char>) -> Seq<char> {
    match function_name_opt(name) {
        Option::Some(f) => f,
        Option::None => match function_name_opt(lowercase_of(key)) {
            Option::Some(f) => f,
            Option::None => "undefined"@,
        },
    }
}

fn keep_char(c: char) -> (r: bool)
    ensures
        r == keep_name_char(c),
{
    if crate::casing::char_is_alphabetic(c) {
        true
    } else {
        let u = c as u32;
        (48 <= u && u <= 57) || c == ' ' || c == '_'
    }
}

fn function_name_of(name: &str) -> (r: Option<String>)
    ensures
        match r {
            Option::Some(f) => function_name_opt(name@) == Option::Some(f@),
            Option::None => function_name_opt(name@) is None,
        },
{
    let n = name.unicode_len();
    let mut filtered = String::new();
    let mut i: usize = 0;
    proof {
        assert(name@.take(0) =~= Seq::<char>::empty());
        assert(filtered@ =~= filter_name(name@.take(0)));
    }
    while i < n
        invariant
            0 <= i <= n,
            n == name@.len(),
            filtered@ == filter_name(name@.take(i as int)),
        decreases n - i,
    {
        let c = name.get_char(i);
        proof {
            lemma_filter_name_snoc(name@.take(i as int), c);
            assert(name@.take(i as int).push(c) =~= name@.take(i + 1));
        }
        if keep_char(c) {
            let piece = name.substring_char(i, i + 1);
            proof {
                assert(piece@ =~= seq![name@[i as int]]);
            }
            filtered.append(piece);
        }
        i = i + 1;
    }
    proof {
        assert(name@.take(n as int) =~= name@);
    }
    let f = to_snake_case(filtered.as_str());
    if f.as_str().unicode_len() == 0 {
        return Option::None;
    }
    if !is_valid_class_name(f.as_str()) {
        let mut out = String::new();
        out.append("x");
        out.append(f.as_str());
        proof {
            reveal_strlit("x");
            assert(("x")@ =~= seq!['x']);
        }
        Option::Some(out)
    } else {
        Option::Some(f)
    }
}

impl Script {
    /// Builds a script, deriving its identifier from name and key.
    pub fn new(name: String, key: String, triggers: Vec<String>, actions: Vec<Action>) -> (r:
        Script)
        ensures
            script_model(r) == (ScriptV {
                name: name@,
                function_name: script_function_name(name@, key@),
                key: key@,
                triggers: triggers@.map_values(|x: String| x@),
                actions: acs_model(actions@),
            }),
    {
        let function_name: String = match function_name_of(name.as_str()) {
            Option::Some(f) => f,
            Option::None => {
                let lk = to_lowercase(key.as_str());
                match function_name_of(lk.as_str()) {
                    Option::Some(f) => f,
                    Option::None => "undefined".to_owned(),
                }
            },
        };
        Script { name, function_name, key, triggers, actions }
    }

    /// The pymodd trigger enums for this script's triggers, `None` for an
    /// unknown trigger.
    pub fn triggers_into_pymodd_enums(&self, maps: &PymoddMaps) -> (r: Vec<String>)
        ensures
            r@.map_values(|x: String| x@) == script_model(*self).triggers.map_values(
                |t: Seq<char>| lookup_or(maps_model(*maps).triggers, t, "None"@),
            ),
    {
        let mut out: Vec<String> = Vec::new();
        let mut i: usize = 0;
        while i < self.triggers.len()
            invariant
                0 <= i <= self.triggers@.len(),
                out@.len() == i,
                forall|k: int|
                    0 <= k < i ==> out@[k]@ == lookup_or(
                        maps_model(*maps).triggers,
                        #[trigger] self.triggers@[k]@,
                        "None"@,
                    ),
            decreases self.triggers@.len() - i,
        {
            let t = &self.triggers[i];
            let e: String = match lookup_string_map(&maps.triggers, t.as_str()) {
                Option::Some(x) => x,
                Option::None => "None".to_owned(),
            };
            out.push(e);
            i = i + 1;
        }
        proof {
            assert(out@.map_values(|x: String| x@) =~= script_model(*self).triggers.map_values(
                |t: Seq<char>| lookup_or(maps_model(*maps).triggers, t, "None"@),
            ));
        }
        out
    }
}

// ---------------------------------------------------------------------------
// item parsing and tree assembly
// ---------------------------------------------------------------------------

/// An entry with an `actions` field is a script; anything else is a folder.
pub open spec fn is_script_data(v: JsonV) -> bool {
    jget(v, "actions"@) is Some
}

/// The trigger type names of a script entry.
pub open spec fn triggers_spec(v: JsonV) -> Seq<Seq<char>> {
    let items = match jget(v, "triggers"@) {
        Option::Some(JsonV::Arr(x)) => x,
        _ => Seq::<JsonV>::empty(),
    };
    items.map_values(|t: JsonV| string_key_of(t, "type"@))
}

/// The statements of a script entry.
pub open spec fn script_actions_spec(m: MapsV, v: JsonV) -> Seq<ActionV> {
    let items = match jget(v, "actions"@) {
        Option::Some(JsonV::Arr(x)) => x,
        _ => Seq::<JsonV>::empty(),
    };
    crate::argument::actions_parse_spec(m, items)
}

/// The script read off one entry.
pub open spec fn script_parse_spec(m: MapsV, v: JsonV) -> ScriptV {
    let name = string_key_of(v, "name"@);
    let key = string_key_of(v, "key"@);
    ScriptV {
        name,
        function_name: script_function_name(name, key),
        key,
        triggers: triggers_spec(v),
        actions: script_actions_spec(m, v),
    }
}

fn parse_script_item(maps: &PymoddMaps, item_data: &JsonValue) -> (r: Script)
    ensures
        script_model(r) == script_parse_spec(maps_model(*maps), jval(*item_data)),
{
    let name = parse_key_of_item_to_string("name", item_data);
    let key = parse_key_of_item_to_string("key", item_data);
    let empty_items: Vec<JsonValue> = Vec::new();
    let mut triggers: Vec<String> = Vec::new();
    let ghost tv = triggers_spec(jval(*item_data));
    match item_data.get("triggers") {
        Option::Some(t) => {
            match t.as_array() {
                Option::Some(items) => {
                    let mut i: usize = 0;
                    proof {
                        lemma_jvals_len(items@);
                    }
                    while i < items.len()
                        invariant
                            0 <= i <= items@.len(),
                            tv == triggers_spec(jval(*item_data)),
                            tv == jvals(items@).map_values(
                                |t: JsonV| string_key_of(t, "type"@),
                            ),
                            jvals(items@).len() == items@.len(),
                            triggers@.len() == i,
                            forall|k: int| 0 <= k < i ==> triggers@[k]@ == #[trigger] tv[k],
                        decreases items@.len() - i,
                    {
                        proof {
                            lemma_jvals_index(items@, i as int);
                        }
                        let s = parse_key_of_item_to_string("type", &items[i]);
                        triggers.push(s);
                        i = i + 1;
                    }
                },
                Option::None => {
                    proof {
                        assert(tv =~= Seq::<Seq<char>>::empty());
                    }
                },
            }
        },
        Option::None => {
            proof {
                assert(tv =~= Seq::<Seq<char>>::empty());
            }
        },
    }
    proof {
        assert(triggers@.map_values(|x: String| x@) =~= tv);
    }
    let actions: Vec<Action> = match item_data.get("actions") {
        Option::Some(a) => {
            match a.as_array() {
                Option::Some(items) => crate::actions::parse_actions(maps, items),
                Option::None => crate::actions::parse_actions(maps, &empty_items),
            }
        },
        Option::None => crate::actions::parse_actions(maps, &empty_items),
    };
    proof {
        assert(jvals(empty_items@) =~= Seq::<JsonV>::empty());
    }
    Script::new(name, key, triggers, actions)
}

/// The fuel that always suffices to assemble a tree.
pub open spec fn needed_fuel(cd: Seq<JsonV>, pool: Seq<JsonV>) -> nat {
    cd.len() + 2 * pool.len() + 1
}

/// The assembly of the items in `cd`, each folder claiming its children
/// from `pool`; the fuel only bounds the recursion and never runs out at
/// `needed_fuel`.
pub open spec fn build_spec(m: MapsV, cd: Seq<JsonV>, pool: Seq<JsonV>, fuel: nat) -> (Seq<
    DirItemV,
>, Seq<JsonV>)
    decreases fuel,
{
    if fuel == 0 || cd.len() == 0 {
        (Seq::<DirItemV>::empty(), pool)
    } else {
        let head = cd[0];
        if is_script_data(head) {
            let r = build_spec(m, cd.skip(1), pool, (fuel - 1) as nat);
            (seq![DirItemV::Script(script_parse_spec(m, head))] + r.0, r.1)
        } else {
            let k = string_key_of(head, "key"@);
            let sub_cd = children_of(pool, Option::Some(k));
            let rem = remaining_of(pool, Option::Some(k));
            let r1 = build_spec(m, sub_cd, rem, (fuel - 1) as nat);
            let d = DirectoryV {
                children: r1.0,
                name: string_key_of(head, "folderName"@),
                key: k,
            };
            let r2 = build_spec(m, cd.skip(1), r1.1, (fuel - 1) as nat);
            (seq![DirItemV::Directory(d)] + r2.0, r2.1)
        }
    }
}

/// The pool never grows during assembly.
pub proof fn lemma_build_shrinks(m: MapsV, cd: Seq<JsonV>, pool: Seq<JsonV>, fuel: nat)
    ensures
        build_spec(m, cd, pool, fuel).1.len() <= pool.len(),
    decreases fuel,
{
    if fuel == 0 || cd.len() == 0 {
    } else {
        let head = cd[0];
        if is_script_data(head) {
            lemma_build_shrinks(m, cd.skip(1), pool, (fuel - 1) as nat);
        } else {
            let k = string_key_of(head, "key"@);
            let sub_cd = children_of(pool, Option::Some(k));
            let rem = remaining_of(pool, Option::Some(k));
            lemma_children_remaining_len(pool, Option::Some(k));
            lemma_build_shrinks(m, sub_cd, rem, (fuel - 1) as nat);
            let r1 = build_spec(m, sub_cd, rem, (fuel - 1) as nat);
            lemma_build_shrinks(m, cd.skip(1), r1.1, (fuel - 1) as nat);
        }
    }
}

/// With enough fuel the assembly's result does not depend on the fuel.
pub proof fn lemma_build_fuel(m: MapsV, cd: Seq<JsonV>, pool: Seq<JsonV>, f1: nat, f2: nat)
    requires
        f1 >= needed_fuel(cd, pool),
        f2 >= needed_fuel(cd, pool),
    ensures
        build_spec(m, cd, pool, f1) == build_spec(m, cd, pool, f2),
    decreases f1,
{
    if cd.len() == 0 {
    } else {
        let head = cd[0];
        if is_script_data(head) {
            lemma_build_fuel(m, cd.skip(1), pool, (f1 - 1) as nat, (f2 - 1) as nat);
        } else {
            let k = string_key_of(head, "key"@);
            let sub_cd = children_of(pool, Option::Some(k));
            let rem = remaining_of(pool, Option::Some(k));
            lemma_children_remaining_len(pool, Option::Some(k));
            lemma_build_fuel(m, sub_cd, rem, (f1 - 1) as nat, (f2 - 1) as nat);
            let r1 = build_spec(m, sub_cd, rem, (f1 - 1) as nat);
            lemma_build_shrinks(m, sub_cd, rem, (f1 - 1) as nat);
            lemma_build_fuel(m, cd.skip(1), r1.1, (f1 - 1) as nat, (f2 - 1) as nat);
        }
    }
}

/// The assembly at its canonical fuel.
pub open spec fn build_full(m: MapsV, cd: Seq<JsonV>, pool: Seq<JsonV>) -> (Seq<DirItemV>, Seq<
    JsonV,
>) {
    build_spec(m, cd, pool, needed_fuel(cd, pool))
}

/// Assembles the items of `children_data`, folders claiming their own
/// children from the pool.
fn build_directory_items(
    maps: &PymoddMaps,
    children_data: &Vec<JsonValue>,
    pool: &mut Vec<JsonValue>,
) -> (r: Vec<DirectoryItem>)
    ensures
        items_model(r@) == build_full(
            maps_model(*maps),
            jvals(children_data@),
            jvals(old(pool)@),
        ).0,
        jvals(final(pool)@) == build_full(
            maps_model(*maps),
            jvals(children_data@),
            jvals(old(pool)@),
        ).1,
        final(pool)@.len() <= old(pool)@.len(),
    decreases old(pool)@.len(), children_data@.len(),
{
    let ghost m = maps_model(*maps);
    let ghost cdv = jvals(children_data@);
    let ghost pool0 = jvals(pool@);
    let mut out: Vec<DirectoryItem> = Vec::new();
    let mut i: usize = 0;
    proof {
        lemma_jvals_len(children_data@);
        lemma_jvals_len(pool@);
        assert(cdv.skip(0) =~= cdv);
        assert(items_model(out@) + build_full(m, cdv, pool0).0 =~= build_full(m, cdv, pool0).0);
    }
    while i < children_data.len()
        invariant
            0 <= i <= children_data@.len(),
            m == maps_model(*maps),
            cdv == jvals(children_data@),
            cdv.len() == children_data@.len(),
            pool@.len() <= old(pool)@.len(),
            pool0 == jvals(old(pool)@),
            items_model(out@) + build_full(m, cdv.skip(i as int), jvals(pool@)).0 == build_full(
                m,
                cdv,
                pool0,
            ).0,
            build_full(m, cdv.skip(i as int), jvals(pool@)).1 == build_full(m, cdv, pool0).1,
        decreases children_data@.len() - i,
    {
        let ghost rest = cdv.skip(i as int);
        let ghost poolv = jvals(pool@);
        proof {
            lemma_jvals_len(pool@);
            lemma_jvals_index(children_data@, i as int);
            assert(rest[0] == cdv[i as int]);
            assert(rest.skip(1) =~= cdv.skip(i + 1));
        }
        let item_data = &children_data[i];
        let has_actions = match item_data.get("actions") {
            Option::Some(_) => true,
            Option::None => false,
        };
        let ghost old_out = items_model(out@);
        if has_actions {
            let s = parse_script_item(maps, item_data);
            proof {
                lemma_items_model_snoc(out@, DirectoryItem::Script(s));
                // one fuel step: the canonical fuel of the tail is exactly one less
                assert(needed_fuel(rest, poolv) - 1 == needed_fuel(rest.skip(1), poolv));
                assert(build_full(m, rest, poolv).0 == seq![
                    DirItemV::Script(script_parse_spec(m, rest[0])),
                ] + build_full(m, cdv.skip(i + 1), poolv).0);
                assert(build_full(m, rest, poolv).1 == build_full(m, cdv.skip(i + 1), poolv).1);
            }
            out.push(DirectoryItem::Script(s));
            proof {
                assert(old_out.push(DirItemV::Script(script_parse_spec(m, rest[0]))) =~= old_out
                    + seq![DirItemV::Script(script_parse_spec(m, rest[0]))]);
                assert(items_model(out@) + build_full(m, cdv.skip(i + 1), jvals(pool@)).0
                    =~= old_out + (seq![DirItemV::Script(script_parse_spec(m, rest[0]))]
                    + build_full(m, cdv.skip(i + 1), jvals(pool@)).0));
            }
        } else {
            let folder_name = parse_key_of_item_to_string("folderName", item_data);
            let folder_key = parse_key_of_item_to_string("key", item_data);
            let key_opt: Option<String> = Option::Some(folder_key);
            let sub_cd = remove_children_of_parent_in_items(&key_opt, pool);
            let ghost kv = string_key_of(cdv[i as int], "key"@);
            let ghost sub_cdv = children_of(poolv, Option::Some(kv));
            let ghost remv = remaining_of(poolv, Option::Some(kv));
            proof {
                assert(jvals(sub_cd@) == sub_cdv);
                assert(jvals(pool@) == remv);
                lemma_children_remaining_len(poolv, Option::Some(kv));
                lemma_jvals_len(sub_cd@);
                lemma_jvals_len(pool@);
            }
            let sub_items = build_directory_items(maps, &sub_cd, pool);
            let folder_key2 = match &key_opt {
                Option::Some(k) => k.clone(),
                Option::None => String::new(),
            };
            let d = Directory { children: sub_items, name: folder_name, key: folder_key2 };
            proof {
                // stitch the canonical-fuel calls into one unfolding
                let f = needed_fuel(rest, poolv);
                assert(f >= 1 && rest.len() >= 1);
                lemma_build_fuel(m, sub_cdv, remv, (f - 1) as nat, needed_fuel(sub_cdv, remv));
                let r1 = build_spec(m, sub_cdv, remv, (f - 1) as nat);
                lemma_build_shrinks(m, sub_cdv, remv, (f - 1) as nat);
                lemma_build_fuel(m, rest.skip(1), r1.1, (f - 1) as nat, needed_fuel(
                    rest.skip(1),
                    r1.1,
                ));
                assert(dir_model(d) == (DirectoryV {
                    children: build_full(m, sub_cdv, remv).0,
                    name: string_key_of(cdv[i as int], "folderName"@),
                    key: kv,
                }));
                lemma_items_model_snoc(out@, DirectoryItem::Directory(d));
                assert(build_full(m, rest, poolv).0 == seq![DirItemV::Directory(dir_model(d))]
                    + build_full(m, cdv.skip(i + 1), r1.1).0);
                assert(build_full(m, rest, poolv).1 == build_full(m, cdv.skip(i + 1), r1.1).1);
                assert(r1.1 == jvals(pool@));
            }
            out.push(DirectoryItem::Directory(d));
            proof {
                assert(old_out.push(items_model(out@)[out@.len() - 1]) =~= old_out + seq![
                    items_model(out@)[out@.len() - 1],
                ]);
                lemma_items_model_len(out@);
                lemma_items_model_index(out@, out@.len() - 1);
                assert(items_model(out@) + build_full(m, cdv.skip(i + 1), jvals(pool@)).0
                    =~= old_out + (seq![items_model(out@)[out@.len() - 1]] + build_full(
                    m,
                    cdv.skip(i + 1),
                    jvals(pool@),
                ).0));
            }
        }
        i = i + 1;
    }
    proof {
        assert(cdv.skip(cdv.len() as int).len() == 0);
        assert(build_full(m, cdv.skip(cdv.len() as int), jvals(pool@)).0
            =~= Seq::<DirItemV>::empty());
        assert(items_model(out@) + Seq::<DirItemV>::empty() =~= items_model(out@));
        assert(build_full(m, cdv.skip(cdv.len() as int), jvals(pool@)).1 == jvals(pool@));
    }
    out
}

// ---------------------------------------------------------------------------
// identifier deduplication
// ---------------------------------------------------------------------------

/// The number of earlier scripts that used the identifier, or nothing yet.
pub open spec fn counts_get(c: Seq<(Seq<char>, nat)>, k: Seq<char>) -> Option<nat>
    decreases c.len(),
{
    if c.len() == 0 {
        Option::None
    } else if c[0].0 == k {
        Option::Some(c[0].1)
    } else {
        counts_get(c.skip(1), k)
    }
}

/// The count table after one more use of the identifier.
pub open spec fn counts_bump(c: Seq<(Seq<char>, nat)>, k: Seq<char>) -> Seq<(Seq<char>, nat)>
    decreases c.len(),
{
    if c.len() == 0 {
        seq![(k, 1nat)]
    } else if c[0].0 == k {
        seq![(k, (c[0].1 + 1) as nat)] + c.skip(1)
    } else {
        seq![c[0]] + counts_bump(c.skip(1), k)
    }
}

/// The size of an item tree, the measure the walk shrinks.
pub open spec fn dsize_item(it: DirItemV) -> nat
    decreases it,
{
    match it {
        DirItemV::Script(_) => 1,
        DirItemV::Directory(d) => 1 + dsize_items(d.children),
    }
}

pub open spec fn dsize_items(items: Seq<DirItemV>) -> nat
    decreases items,
{
    if items.len() == 0 {
        0
    } else {
        1 + dsize_item(items[0]) + dsize_items(items.skip(1))
    }
}

pub proof fn lemma_dsize_items_index(items: Seq<DirItemV>, i: int)
    requires
        0 <= i < items.len(),
    ensures
        dsize_item(items[i]) < dsize_items(items),
    decreases items.len(),
{
    if i > 0 {
        lemma_dsize_items_index(items.skip(1), i - 1);
    }
}

/// One item with duplicate identifiers resolved: the first script with a
/// given identifier keeps it, the next ones get `_1`, `_2`, … in the order
/// the walk meets them.
pub open spec fn dedup_item_spec(it: DirItemV, c: Seq<(Seq<char>, nat)>) -> (DirItemV, Seq<
    (Seq<char>, nat),
>)
    decreases dsize_item(it), 0int,
{
    match it {
        DirItemV::Script(s) => {
            let f = s.function_name;
            let renamed = match counts_get(c, f) {
                Option::Some(n) => f + seq!['_'] + crate::text::dec_spec(n),
                Option::None => f,
            };
            (DirItemV::Script(ScriptV { function_name: renamed, ..s }), counts_bump(c, f))
        },
        DirItemV::Directory(d) => {
            let r = dedup_items_spec(d.children, c);
            (DirItemV::Directory(DirectoryV { children: r.0, ..d }), r.1)
        },
    }
}

/// The whole walk, pre-order over the tree.
pub open spec fn dedup_items_spec(items: Seq<DirItemV>, c: Seq<(Seq<char>, nat)>) -> (Seq<
    DirItemV,
>, Seq<(Seq<char>, nat)>)
    decreases dsize_items(items), 1int,
{
    if items.len() == 0 {
        (Seq::<DirItemV>::empty(), c)
    } else {
        let r0 = dedup_item_spec(items[0], c);
        let r = dedup_items_spec(items.skip(1), r0.1);
        (seq![r0.0] + r.0, r.1)
    }
}

/// The exec count table's model.
pub open spec fn counts_model(c: Seq<(String, u64)>) -> Seq<(Seq<char>, nat)> {
    c.map_values(|p: (String, u64)| (p.0@, p.1 as nat))
}

/// The sum of all counts: one per script identifier seen so far.
pub open spec fn counts_sum(c: Seq<(Seq<char>, nat)>) -> nat
    decreases c.len(),
{
    if c.len() == 0 {
        0
    } else {
        c[0].1 + counts_sum(c.skip(1))
    }
}

/// Every count is at most the sum of all counts.
pub proof fn lemma_counts_value_le_sum(c: Seq<(Seq<char>, nat)>, j: int)
    requires
        0 <= j < c.len(),
    ensures
        c[j].1 <= counts_sum(c),
    decreases c.len(),
{
    if j > 0 {
        lemma_counts_value_le_sum(c.skip(1), j - 1);
    }
}

/// Bumping a key raises the sum by exactly one.
pub proof fn lemma_counts_bump_sum(c: Seq<(Seq<char>, nat)>, k: Seq<char>)
    ensures
        counts_sum(counts_bump(c, k)) == counts_sum(c) + 1,
    decreases c.len(),
{
    if c.len() == 0 {
        assert(counts_bump(c, k)[0] == (k, 1nat));
        assert(counts_bump(c, k).skip(1) =~= c);
    } else if c[0].0 == k {
        assert(counts_bump(c, k)[0] == (k, (c[0].1 + 1) as nat));
        assert(counts_bump(c, k).skip(1) =~= c.skip(1));
    } else {
        lemma_counts_bump_sum(c.skip(1), k);
        assert(counts_bump(c, k)[0] == c[0]);
        assert(counts_bump(c, k).skip(1) =~= counts_bump(c.skip(1), k));
    }
}

pub fn exec_counts_get(c: &Vec<(String, u64)>, k: &str) -> (r: Option<u64>)
    ensures
        match r {
            Option::Some(n) => counts_get(counts_model(c@), k@) == Option::Some(n as nat),
            Option::None => counts_get(counts_model(c@), k@) is None,
        },
{
    let ghost cm = counts_model(c@);
    let mut i: usize = 0;
    proof {
        assert(cm.skip(0) =~= cm);
    }
    while i < c.len()
        invariant
            0 <= i <= c@.len(),
            cm == counts_model(c@),
            counts_get(cm.skip(i as int), k@) == counts_get(cm, k@),
        decreases c@.len() - i,
    {
        proof {
            assert(cm.skip(i as int)[0] == cm[i as int]);
            assert(cm.skip(i as int).skip(1) =~= cm.skip(i + 1));
        }
        let pair = &c[i];
        if str_eq(pair.0.as_str(), k) {
            return Option::Some(pair.1);
        }
        i = i + 1;
    }
    proof {
        assert(cm.skip(cm.len() as int).len() == 0);
    }
    Option::None
}

pub fn exec_counts_bump(c: &mut Vec<(String, u64)>, k: &str)
    requires
        counts_sum(counts_model(old(c)@)) < 0xffff_ffff_ffff_ffff,
    ensures
        counts_model(final(c)@) == counts_bump(counts_model(old(c)@), k@),
{
    let ghost cm = counts_model(old(c)@);
    let mut i: usize = 0;
    while i < c.len()
        invariant
            0 <= i <= c@.len(),
            c@ == old(c)@,
            cm == counts_model(old(c)@),
            counts_sum(cm) < 0xffff_ffff_ffff_ffff,
            forall|j: int| 0 <= j < i ==> (#[trigger] cm[j]).0 != k@,
        decreases c@.len() - i,
    {
        let hit = str_eq(c[i].0.as_str(), k);
        if hit {
            let n = c[i].1;
            proof {
                lemma_counts_value_le_sum(cm, i as int);
            }
            c.set(i, (k.to_owned(), n + 1));
            proof {
                lemma_counts_bump_at(cm, k@, i as int);
                assert(counts_model(c@) =~= cm.take(i as int) + seq![(k@, (n + 1) as nat)]
                    + cm.skip(i + 1));
            }
            return ;
        }
        i = i + 1;
    }
    c.push((k.to_owned(), 1));
    proof {
        lemma_counts_bump_missing(cm, k@);
        assert(counts_model(c@) =~= cm.push((k@, 1nat)));
    }
}

/// Bumping a present key rewrites that entry in place.
proof fn lemma_counts_bump_at(c: Seq<(Seq<char>, nat)>, k: Seq<char>, i: int)
    requires
        0 <= i < c.len(),
        c[i].0 == k,
        forall|j: int| 0 <= j < i ==> (#[trigger] c[j]).0 != k,
    ensures
        counts_bump(c, k) == c.take(i) + seq![(k, (c[i].1 + 1) as nat)] + c.skip(i + 1),
    decreases c.len(),
{
    if i == 0 {
        assert(c.take(0) =~= Seq::<(Seq<char>, nat)>::empty());
        assert(counts_bump(c, k) =~= c.take(0) + seq![(k, (c[0].1 + 1) as nat)] + c.skip(1));
    } else {
        lemma_counts_bump_at(c.skip(1), k, i - 1);
        assert(c.skip(1).take(i - 1) =~= c.subrange(1, i));
        assert(c.skip(1).skip(i) =~= c.skip(i + 1));
        assert(c.skip(1)[i - 1] == c[i]);
        assert(counts_bump(c, k) == seq![c[0]] + counts_bump(c.skip(1), k));
        assert(seq![c[0]] + (c.subrange(1, i) + seq![(k, (c[i].1 + 1) as nat)] + c.skip(i + 1))
            =~= c.take(i) + seq![(k, (c[i].1 + 1) as nat)] + c.skip(i + 1));
    }
}

/// Bumping an absent key appends a fresh entry.
proof fn lemma_counts_bump_missing(c: Seq<(Seq<char>, nat)>, k: Seq<char>)
    requires
        forall|j: int| 0 <= j < c.len() ==> (#[trigger] c[j]).0 != k,
    ensures
        counts_bump(c, k) == c.push((k, 1nat)),
    decreases c.len(),
{
    if c.len() == 0 {
        assert(counts_bump(c, k) =~= c.push((k, 1nat)));
    } else {
        lemma_counts_bump_missing(c.skip(1), k);
        assert(counts_bump(c, k) == seq![c[0]] + c.skip(1).push((k, 1nat)));
        assert(seq![c[0]] + c.skip(1).push((k, 1nat)) =~= c.push((k, 1nat)));
    }
}

/// The number of scripts in an item list.
pub open spec fn script_count(items: Seq<DirItemV>) -> nat
    decreases dsize_items(items), 1int,
{
    if items.len() == 0 {
        0nat
    } else {
        script_count_item(items[0]) + script_count(items.skip(1))
    }
}

pub open spec fn script_count_item(it: DirItemV) -> nat
    decreases dsize_item(it), 0int,
{
    match it {
        DirItemV::Script(_) => 1,
        DirItemV::Directory(d) => script_count(d.children),
    }
}

/// Deduplication raises the sum of counts by the number of scripts walked.
pub proof fn lemma_dedup_sum(items: Seq<DirItemV>, c: Seq<(Seq<char>, nat)>)
    ensures
        counts_sum(dedup_items_spec(items, c).1) == counts_sum(c) + script_count(items),
    decreases dsize_items(items), 1int,
{
    if items.len() > 0 {
        lemma_dedup_sum_item(items[0], c);
        lemma_dedup_sum(items.skip(1), dedup_item_spec(items[0], c).1);
    }
}

pub proof fn lemma_dedup_sum_item(it: DirItemV, c: Seq<(Seq<char>, nat)>)
    ensures
        counts_sum(dedup_item_spec(it, c).1) == counts_sum(c) + script_count_item(it),
    decreases dsize_item(it), 0int,
{
    match it {
        DirItemV::Script(s) => {
            lemma_counts_bump_sum(c, s.function_name);
        },
        DirItemV::Directory(d) => {
            lemma_dedup_sum(d.children, c);
        },
    }
}

/// Scripts are no more numerous than the size of the tree.
pub proof fn lemma_script_count_le_size(items: Seq<DirItemV>)
    ensures
        script_count(items) <= dsize_items(items),
    decreases dsize_items(items), 1int,
{
    if items.len() > 0 {
        lemma_script_count_le_size_item(items[0]);
        lemma_script_count_le_size(items.skip(1));
    }
}

pub proof fn lemma_script_count_le_size_item(it: DirItemV)
    ensures
        script_count_item(it) <= dsize_item(it),
    decreases dsize_item(it), 0int,
{
    match it {
        DirItemV::Script(_) => {},
        DirItemV::Directory(d) => {
            lemma_script_count_le_size(d.children);
        },
    }
}

fn dedup_items(items: Vec<DirectoryItem>, counts: &mut Vec<(String, u64)>) -> (r: Vec<
    DirectoryItem,
>)
    requires
        counts_sum(counts_model(old(counts)@)) + dsize_items(items_model(items@))
            < 0xffff_ffff_ffff_ffff,
    ensures
        (items_model(r@), counts_model(final(counts)@)) == dedup_items_spec(
            items_model(items@),
            counts_model(old(counts)@),
        ),
    decreases dsize_items(items_model(items@)), 1int,
{
    let ghost iv = items_model(items@);
    let ghost c0 = counts_model(counts@);
    let mut rest = items;
    if rest.len() == 0 {
        proof {
            lemma_items_model_len(rest@);
        }
        return Vec::new();
    }
    proof {
        lemma_items_model_len(rest@);
    }
    let head = rest.remove(0);
    proof {
        assert(iv[0] == item_model(head)) by {
            lemma_items_model_index(old_rest_helper(rest@, head), 0);
        }
        assert(old_rest_helper(rest@, head)[0] == head);
        assert(old_rest_helper(rest@, head).skip(1) =~= rest@);
        assert(iv == seq![item_model(head)] + items_model(rest@));
        assert(iv.skip(1) =~= items_model(rest@));
        assert(dsize_items(iv) == 1 + dsize_item(item_model(head)) + dsize_items(
            items_model(rest@),
        ));
        lemma_script_count_le_size_item(item_model(head));
    }
    let ghost rest0 = rest@;
    let h2 = dedup_one(head, counts);
    proof {
        lemma_dedup_sum_item(item_model(head), c0);
    }
    let mut tail = dedup_items(rest, counts);
    let mut out: Vec<DirectoryItem> = Vec::new();
    proof {
        lemma_items_model_snoc(out@, h2);
    }
    out.push(h2);
    let ghost out1 = out@;
    let ghost tail0 = tail@;
    out.append(&mut tail);
    proof {
        lemma_items_model_concat(out1, tail0);
        let step = dedup_item_spec(iv[0], c0);
        assert(dedup_items_spec(iv, c0).0 == seq![step.0] + dedup_items_spec(
            items_model(rest0),
            step.1,
        ).0);
        assert(items_model(out1) =~= seq![step.0]);
        assert(items_model(out@) == dedup_items_spec(iv, c0).0);
    }
    out
}

/// The list as it stood before its head was removed.
pub open spec fn old_rest_helper(rest: Seq<DirectoryItem>, head: DirectoryItem) -> Seq<
    DirectoryItem,
> {
    seq![head] + rest
}

fn dedup_one(item: DirectoryItem, counts: &mut Vec<(String, u64)>) -> (r: DirectoryItem)
    requires
        counts_sum(counts_model(old(counts)@)) + dsize_item(item_model(item))
            < 0xffff_ffff_ffff_ffff,
    ensures
        (item_model(r), counts_model(final(counts)@)) == dedup_item_spec(
            item_model(item),
            counts_model(old(counts)@),
        ),
    decreases dsize_item(item_model(item)), 0int,
{
    match item {
        DirectoryItem::Script(s) => {
            let f = s.function_name.clone();
            let renamed: String = match exec_counts_get(counts, f.as_str()) {
                Option::Some(n) => {
                    let mut out = f.clone();
                    out.append("_");
                    let digits = crate::text::u64_to_string(n);
                    out.append(digits.as_str());
                    proof {
                        reveal_strlit("_");
                        assert(("_")@ =~= seq!['_']);
                    }
                    out
                },
                Option::None => f.clone(),
            };
            exec_counts_bump(counts, f.as_str());
            DirectoryItem::Script(
                Script {
                    name: s.name,
                    function_name: renamed,
                    key: s.key,
                    triggers: s.triggers,
                    actions: s.actions,
                },
            )
        },
        DirectoryItem::Directory(d) => {
            proof {
                assert(dsize_items(items_model(d.children@)) < dsize_item(item_model(item)));
            }
            let children = dedup_items(d.children, counts);
            DirectoryItem::Directory(Directory { children, name: d.name, key: d.key })
        },
    }
}

/// Resolves duplicate script identifiers over a whole item list, in the
/// order a pre-order walk meets the scripts.
pub fn resolve_duplicate_function_names_of_directory_items(directory_items: Vec<DirectoryItem>) -> (r:
    Vec<DirectoryItem>)
    requires
        dsize_items(items_model(directory_items@)) < 0xffff_ffff_ffff_ffff,
    ensures
        items_model(r@) == dedup_items_spec(
            items_model(directory_items@),
            Seq::<(Seq<char>, nat)>::empty(),
        ).0,
{
    let mut counts: Vec<(String, u64)> = Vec::new();
    proof {
        assert(counts_model(counts@) =~= Seq::<(Seq<char>, nat)>::empty());
    }
    dedup_items(directory_items, &mut counts)
}

// ---------------------------------------------------------------------------
// the root
// ---------------------------------------------------------------------------

/// The values of an object's entries, in entry order.
pub open spec fn obj_values(v: JsonV) -> Seq<JsonV> {
    match v {
        JsonV::Obj(entries) => entries.map_values(|e: (Seq<char>, JsonV)| e.1),
        _ => Seq::<JsonV>::empty(),
    }
}

/// The root's children: the raw table's values sorted by order, the
/// root-level items pulled out and assembled, identifiers deduplicated.
pub open spec fn root_children_spec(m: MapsV, scripts: JsonV) -> Seq<DirItemV> {
    let sorted = sort_by_order(obj_values(scripts));
    let cd = children_of(sorted, Option::None);
    let rem = remaining_of(sorted, Option::None);
    dedup_items_spec(build_full(m, cd, rem).0, Seq::<(Seq<char>, nat)>::empty()).0
}

pub fn root_children_from_scripts_data(maps: &PymoddMaps, scripts: &JsonValue) -> (r: Vec<
    DirectoryItem,
>)
    requires
        obj_values(jval(*scripts)).len() < 0x0fff_ffff_ffff_ffff,
    ensures
        items_model(r@) == root_children_spec(maps_model(*maps), jval(*scripts)),
{
    let ghost m = maps_model(*maps);
    // the raw table's values, in entry order
    let mut values: Vec<JsonValue> = Vec::new();
    match scripts.as_object() {
        Option::Some(entries) => {
            let mut i: usize = 0;
            proof {
                crate::document::lemma_jentries_len(entries@);
            }
            while i < entries.len()
                invariant
                    0 <= i <= entries@.len(),
                    jval(*scripts) == JsonV::Obj(jentries(entries@)),
                    jentries(entries@).len() == entries@.len(),
                    values@.len() == i,
                    forall|k: int|
                        0 <= k < i ==> jval(#[trigger] values@[k]) == jentries(entries@)[k].1,
                decreases entries@.len() - i,
            {
                proof {
                    crate::document::lemma_jentries_index(entries@, i as int);
                }
                let v = entries[i].1.clone();
                values.push(v);
                i = i + 1;
            }
        },
        Option::None => {},
    }
    proof {
        lemma_jvals_len(values@);
        assert forall|k: int| 0 <= k < values@.len() implies #[trigger] jvals(values@)[k]
            == obj_values(jval(*scripts))[k] by {
            lemma_jvals_index(values@, k);
        }
        assert(jvals(values@) =~= obj_values(jval(*scripts)));
    }
    let sorted = sort_items_by_order(values);
    let mut pool = sorted;
    let none_key: Option<String> = Option::None;
    let children_data = remove_children_of_parent_in_items(&none_key, &mut pool);
    let ghost sortedv = sort_by_order(obj_values(jval(*scripts)));
    proof {
        lemma_sort_len(obj_values(jval(*scripts)));
        lemma_children_remaining_len(sortedv, Option::None);
    }
    let built = build_directory_items(maps, &children_data, &mut pool);
    proof {
        lemma_build_size(
            maps_model(*maps),
            jvals(children_data@),
            remaining_of(sortedv, Option::None),
            needed_fuel(jvals(children_data@), remaining_of(sortedv, Option::None)),
        );
    }
    resolve_duplicate_function_names_of_directory_items(built)
}

/// The sort keeps the number of items.
pub proof fn lemma_sort_len(items: Seq<JsonV>)
    ensures
        sort_by_order(items).len() == items.len(),
    decreases items.len(),
{
    if items.len() > 0 {
        lemma_sort_len(items.take(items.len() - 1));
        lemma_insert_by_order_len(
            sort_by_order(items.take(items.len() - 1)),
            items[items.len() - 1],
        );
    }
}

/// The built tree's size is bounded by the data that built it: at most two
/// units per consumed entry.
pub proof fn lemma_build_size(m: MapsV, cd: Seq<JsonV>, pool: Seq<JsonV>, fuel: nat)
    ensures
        dsize_items(build_spec(m, cd, pool, fuel).0) + 2 * build_spec(m, cd, pool, fuel).1.len()
            <= 2 * (cd.len() + pool.len()),
    decreases fuel,
{
    if fuel == 0 || cd.len() == 0 {
    } else {
        let head = cd[0];
        if is_script_data(head) {
            lemma_build_size(m, cd.skip(1), pool, (fuel - 1) as nat);
            let r = build_spec(m, cd.skip(1), pool, (fuel - 1) as nat);
            assert(build_spec(m, cd, pool, fuel).0 == seq![
                DirItemV::Script(script_parse_spec(m, head)),
            ] + r.0);
            lemma_dsize_items_cons(
                DirItemV::Script(script_parse_spec(m, head)),
                r.0,
            );
        } else {
            let k = string_key_of(head, "key"@);
            let sub_cd = children_of(pool, Option::Some(k));
            let rem = remaining_of(pool, Option::Some(k));
            lemma_children_remaining_len(pool, Option::Some(k));
            lemma_build_size(m, sub_cd, rem, (fuel - 1) as nat);
            let r1 = build_spec(m, sub_cd, rem, (fuel - 1) as nat);
            lemma_build_size(m, cd.skip(1), r1.1, (fuel - 1) as nat);
            let r2 = build_spec(m, cd.skip(1), r1.1, (fuel - 1) as nat);
            let d = DirectoryV {
                children: r1.0,
                name: string_key_of(head, "folderName"@),
                key: k,
            };
            assert(build_spec(m, cd, pool, fuel).0 == seq![DirItemV::Directory(d)] + r2.0);
            lemma_dsize_items_cons(DirItemV::Directory(d), r2.0);
        }
    }
}

/// The size of a cons list of items, read off its head and tail.
pub proof fn lemma_dsize_items_cons(head: DirItemV, tail: Seq<DirItemV>)
    ensures
        dsize_items(seq![head] + tail) == 1 + dsize_item(head) + dsize_items(tail),
{
    assert((seq![head] + tail)[0] == head);
    assert((seq![head] + tail).skip(1) =~= tail);
}

impl Directory {
    /// The model of a whole parsed root directory.
    pub open spec fn parse_spec(m: MapsV, scripts: JsonV) -> DirectoryV {
        DirectoryV { children: root_children_spec(m, scripts), name: "/"@, key: "root"@ }
    }

    /// Parses the raw script table into the root directory.
    pub fn parse(maps: &PymoddMaps, scripts: &JsonValue) -> (r: Directory)
        requires
            obj_values(jval(*scripts)).len() < 0x0fff_ffff_ffff_ffff,
        ensures
            dir_model(r) == Directory::parse_spec(maps_model(*maps), jval(*scripts)),
    {
        let children = root_children_from_scripts_data(maps, scripts);
        Directory { children, name: "/".to_owned(), key: "root".to_owned() }
    }

    pub fn is_empty(&self) -> (r: bool)
        ensures
            r == (dir_model(*self).children.len() == 0),
    {
        proof {
            lemma_items_model_len(self.children@);
        }
        self.children.len() == 0
    }
}

/// Inserting into the raw list inserts the model.
proof fn lemma_jvals_insert(olds: Seq<JsonValue>, j: int, x: JsonValue)
    requires
        0 <= j <= olds.len(),
    ensures
        jvals(olds.insert(j, x)) == jvals(olds).take(j) + seq![jval(x)] + jvals(olds).skip(j),
{
    lemma_jvals_len(olds);
    lemma_jvals_len(olds.insert(j, x));
    assert forall|k: int| 0 <= k < olds.len() + 1 implies #[trigger] jvals(olds.insert(j, x))[k]
        == (jvals(olds).take(j) + seq![jval(x)] + jvals(olds).skip(j))[k] by {
        lemma_jvals_index(olds.insert(j, x), k);
        if k < j {
            lemma_jvals_index(olds, k);
        } else if k > j {
            lemma_jvals_index(olds, k - 1);
        }
    }
    assert(jvals(olds.insert(j, x)) =~= jvals(olds).take(j) + seq![jval(x)] + jvals(olds).skip(j));
}

} // verus!
