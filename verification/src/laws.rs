//! The general properties of the pipeline, stated and proved once over the
//! specification functions the executable contracts use.

use vstd::multiset::Multiset;
use vstd::prelude::*;

use crate::directory::{
    children_of, counts_bump, counts_get, dedup_items_spec, insert_by_order, order_of,
    parent_of, sort_by_order, DirItemV, ScriptV,
};
use crate::document::JsonV;
use crate::text::dec_spec;
use crate::variable_categories::{
    category_list_spec, data_type_spec, sep_filter, sep_target, umbrella_vars, VariableV,
};

verus! {

// ---------------------------------------------------------------------------
// sibling order
// ---------------------------------------------------------------------------

/// A sequence ascending by `order`.
pub open spec fn ascending_by_order(s: Seq<JsonV>) -> bool {
    forall|i: int, j: int| 0 <= i < j < s.len() ==> order_of(#[trigger] s[i]) <= order_of(
        #[trigger] s[j],
    )
}

/// Inserting into an ascending sequence keeps it ascending.
pub proof fn lemma_insert_keeps_order(sorted: Seq<JsonV>, x: JsonV)
    requires
        ascending_by_order(sorted),
    ensures
        ascending_by_order(insert_by_order(sorted, x)),
        insert_by_order(sorted, x).len() == sorted.len() + 1,
    decreases sorted.len(),
{
    crate::directory::lemma_insert_by_order_len(sorted, x);
    if sorted.len() == 0 {
    } else if order_of(x) < order_of(sorted[0]) {
        let r = seq![x] + sorted;
        assert forall|i: int, j: int| 0 <= i < j < r.len() implies order_of(#[trigger] r[i])
            <= order_of(#[trigger] r[j]) by {
            if i == 0 {
                assert(r[j] == sorted[j - 1]);
                if j >= 2 {
                    assert(order_of(sorted[0]) <= order_of(sorted[j - 1]));
                }
            } else {
                assert(r[i] == sorted[i - 1] && r[j] == sorted[j - 1]);
            }
        }
    } else {
        assert(ascending_by_order(sorted.skip(1))) by {
            assert forall|i: int, j: int| 0 <= i < j < sorted.skip(1).len() implies order_of(
                #[trigger] sorted.skip(1)[i],
            ) <= order_of(#[trigger] sorted.skip(1)[j]) by {
                assert(sorted.skip(1)[i] == sorted[i + 1]);
                assert(sorted.skip(1)[j] == sorted[j + 1]);
            }
        }
        lemma_insert_keeps_order(sorted.skip(1), x);
        let rest = insert_by_order(sorted.skip(1), x);
        let r = seq![sorted[0]] + rest;
        // the head is at most every element of the inserted tail
        assert forall|j: int| 0 <= j < rest.len() implies order_of(sorted[0]) <= order_of(
            #[trigger] rest[j],
        ) by {
            lemma_insert_element_bound(sorted.skip(1), x, j);
            assert forall|k: int| 0 <= k < sorted.skip(1).len() implies order_of(sorted[0])
                <= order_of(#[trigger] sorted.skip(1)[k]) by {
                assert(sorted.skip(1)[k] == sorted[k + 1]);
            }
        }
        assert forall|i: int, j: int| 0 <= i < j < r.len() implies order_of(#[trigger] r[i])
            <= order_of(#[trigger] r[j]) by {
            if i >= 1 {
                assert(r[i] == rest[i - 1] && r[j] == rest[j - 1]);
            } else {
                assert(r[j] == rest[j - 1]);
            }
        }
    }
}

/// Every element of an insertion result is the new element or one of the
/// old ones.
proof fn lemma_insert_element_bound(sorted: Seq<JsonV>, x: JsonV, j: int)
    requires
        0 <= j < insert_by_order(sorted, x).len(),
    ensures
        insert_by_order(sorted, x)[j] == x || exists|k: int|
            0 <= k < sorted.len() && #[trigger] sorted[k] == insert_by_order(sorted, x)[j],
    decreases sorted.len(),
{
    crate::directory::lemma_insert_by_order_len(sorted, x);
    if sorted.len() == 0 {
    } else if order_of(x) < order_of(sorted[0]) {
        if j > 0 {
            assert((seq![x] + sorted)[j] == sorted[j - 1]);
        }
    } else {
        if j == 0 {
            assert((seq![sorted[0]] + insert_by_order(sorted.skip(1), x))[0] == sorted[0]);
        } else {
            lemma_insert_element_bound(sorted.skip(1), x, j - 1);
            assert((seq![sorted[0]] + insert_by_order(sorted.skip(1), x))[j] == insert_by_order(
                sorted.skip(1),
                x,
            )[j - 1]);
            if insert_by_order(sorted.skip(1), x)[j - 1] != x {
                let k = choose|k: int|
                    0 <= k < sorted.skip(1).len() && #[trigger] sorted.skip(1)[k]
                        == insert_by_order(sorted.skip(1), x)[j - 1];
                assert(sorted[k + 1] == insert_by_order(sorted, x)[j]);
            }
        }
    }
}

/// The sort is ascending by `order`, whatever order the raw table listed
/// the items in.
pub proof fn lemma_sort_ascending(items: Seq<JsonV>)
    ensures
        ascending_by_order(sort_by_order(items)),
    decreases items.len(),
{
    if items.len() > 0 {
        lemma_sort_ascending(items.take(items.len() - 1));
        lemma_insert_keeps_order(
            sort_by_order(items.take(items.len() - 1)),
            items[items.len() - 1],
        );
    }
}

/// Pulling one parent's children out of an ascending pool keeps them
/// ascending: every sibling group of the assembled tree is sorted by
/// `order`.
pub proof fn lemma_children_ascending(pool: Seq<JsonV>, key: Option<Seq<char>>)
    requires
        ascending_by_order(pool),
    ensures
        ascending_by_order(children_of(pool, key)),
    decreases pool.len(),
{
    if pool.len() > 0 {
        assert(ascending_by_order(pool.skip(1))) by {
            assert forall|i: int, j: int| 0 <= i < j < pool.skip(1).len() implies order_of(
                #[trigger] pool.skip(1)[i],
            ) <= order_of(#[trigger] pool.skip(1)[j]) by {
                assert(pool.skip(1)[i] == pool[i + 1]);
                assert(pool.skip(1)[j] == pool[j + 1]);
            }
        }
        lemma_children_ascending(pool.skip(1), key);
        if parent_of(pool[0]) == key {
            let rest = children_of(pool.skip(1), key);
            let r = seq![pool[0]] + rest;
            assert forall|j: int| 0 <= j < rest.len() implies order_of(pool[0]) <= order_of(
                #[trigger] rest[j],
            ) by {
                lemma_children_element(pool.skip(1), key, j);
                let k = choose|k: int|
                    0 <= k < pool.skip(1).len() && #[trigger] pool.skip(1)[k] == rest[j];
                assert(pool.skip(1)[k] == pool[k + 1]);
            }
            assert forall|i: int, j: int| 0 <= i < j < r.len() implies order_of(#[trigger] r[i])
                <= order_of(#[trigger] r[j]) by {
                if i >= 1 {
                    assert(r[i] == rest[i - 1] && r[j] == rest[j - 1]);
                } else {
                    assert(r[j] == rest[j - 1]);
                }
            }
        }
    }
}

/// Every extracted child is one of the pool's items.
proof fn lemma_children_element(pool: Seq<JsonV>, key: Option<Seq<char>>, j: int)
    requires
        0 <= j < children_of(pool, key).len(),
    ensures
        exists|k: int| 0 <= k < pool.len() && #[trigger] pool[k] == children_of(pool, key)[j],
    decreases pool.len(),
{
    if pool.len() > 0 {
        if parent_of(pool[0]) == key {
            if j == 0 {
                assert(pool[0] == children_of(pool, key)[0]);
            } else {
                lemma_children_element(pool.skip(1), key, j - 1);
                let k = choose|k: int|
                    0 <= k < pool.skip(1).len() && #[trigger] pool.skip(1)[k] == children_of(
                        pool.skip(1),
                        key,
                    )[j - 1];
                assert(pool[k + 1] == children_of(pool, key)[j]);
            }
        } else {
            lemma_children_element(pool.skip(1), key, j);
            let k = choose|k: int|
                0 <= k < pool.skip(1).len() && #[trigger] pool.skip(1)[k] == children_of(
                    pool.skip(1),
                    key,
                )[j];
            assert(pool[k + 1] == children_of(pool, key)[j]);
        }
    }
}

// ---------------------------------------------------------------------------
// identifier deduplication
// ---------------------------------------------------------------------------

/// The identifier the walk assigns to the `j`-th script of a run: the bare
/// name for the very first use, numbered suffixes from then on.
pub open spec fn run_name(f: Seq<char>, j: nat) -> Seq<char> {
    if j == 0 {
        f
    } else {
        f + seq!['_'] + dec_spec(j)
    }
}

/// Bumping a key makes its count one higher.
proof fn lemma_counts_get_bump(c: Seq<(Seq<char>, nat)>, f: Seq<char>)
    ensures
        counts_get(counts_bump(c, f), f) == Option::Some(
            ((match counts_get(c, f) {
                Option::Some(k) => k,
                Option::None => 0nat,
            }) + 1) as nat,
        ),
    decreases c.len(),
{
    if c.len() == 0 {
        assert(counts_bump(c, f)[0] == (f, 1nat));
    } else if c[0].0 == f {
        assert(counts_bump(c, f)[0] == (f, (c[0].1 + 1) as nat));
    } else {
        lemma_counts_get_bump(c.skip(1), f);
        assert(counts_bump(c, f)[0] == c[0]);
        assert(counts_bump(c, f).skip(1) =~= counts_bump(c.skip(1), f));
    }
}

/// Whether a tree item is a script with the given identifier.
pub open spec fn is_script_named(it: DirItemV, name: Seq<char>) -> bool {
    match it {
        DirItemV::Script(s) => s.function_name == name,
        _ => false,
    }
}

/// The number of earlier uses a count table records for an identifier.
pub open spec fn start_of(c: Seq<(Seq<char>, nat)>, f: Seq<char>) -> nat {
    match counts_get(c, f) {
        Option::Some(k) => k,
        Option::None => 0nat,
    }
}

/// Deduplication over a flat run of scripts that all carry the same
/// identifier: the first keeps the bare name, the later ones get `_1`,
/// `_2`, … in encounter order.
pub proof fn lemma_dedup_run(items: Seq<DirItemV>, c: Seq<(Seq<char>, nat)>, f: Seq<char>)
    requires
        forall|i: int| 0 <= i < items.len() ==> is_script_named(#[trigger] items[i], f),
        counts_get(c, f) is None || start_of(c, f) >= 1,
    ensures
        dedup_items_spec(items, c).0.len() == items.len(),
        forall|i: int|
            0 <= i < items.len() ==> is_script_named(
                #[trigger] dedup_items_spec(items, c).0[i],
                run_name(f, (start_of(c, f) + i) as nat),
            ),
    decreases items.len(),
{
    if items.len() > 0 {
        assert(is_script_named(items[0], f));
        let step = crate::directory::dedup_item_spec(items[0], c);
        lemma_counts_get_bump(c, f);
        assert(step.1 == counts_bump(c, f));
        assert(forall|i: int|
            0 <= i < items.skip(1).len() ==> is_script_named(#[trigger] items.skip(1)[i], f));
        lemma_dedup_run(items.skip(1), step.1, f);
        let r = dedup_items_spec(items, c);
        assert(r.0 == seq![step.0] + dedup_items_spec(items.skip(1), step.1).0);
        assert(is_script_named(step.0, run_name(f, start_of(c, f))));
        assert(start_of(step.1, f) == start_of(c, f) + 1);
        assert forall|i: int| 0 <= i < items.len() implies is_script_named(
            #[trigger] r.0[i],
            run_name(f, (start_of(c, f) + i) as nat),
        ) by {
            if i > 0 {
                assert(r.0[i] == dedup_items_spec(items.skip(1), step.1).0[i - 1]);
                assert(is_script_named(
                    dedup_items_spec(items.skip(1), step.1).0[i - 1],
                    run_name(f, (start_of(step.1, f) + (i - 1)) as nat),
                ));
            }
        }
    }
}

// ---------------------------------------------------------------------------
// alignment
// ---------------------------------------------------------------------------

/// The match relation is exactly the graph of the injective, total pairing
/// `m`, every argument's snake_case name is non-empty, and the counts
/// agree: the unambiguous case of alignment.
pub open spec fn unambiguous(
    args: Seq<crate::actions::ArgumentV>,
    params: Seq<Seq<char>>,
    m: Seq<int>,
) -> bool {
    &&& params.len() == args.len()
    &&& m.len() == params.len()
    &&& forall|i: int| 0 <= i < m.len() ==> 0 <= #[trigger] m[i] < args.len()
    &&& forall|i: int, j: int|
        0 <= i < params.len() && 0 <= j < args.len() ==> (#[trigger] crate::argument::name_matches(
            params[i],
            crate::casing::snake_case_of(args[j].name),
        ) <==> j == m[i])
    &&& forall|i1: int, i2: int|
        0 <= i1 < m.len() && 0 <= i2 < m.len() && #[trigger] m[i1] == #[trigger] m[i2] ==> i1
            == i2
    &&& forall|j: int|
        0 <= j < args.len() ==> crate::casing::snake_case_of(
            (#[trigger] args[j]).name,
        ).len() > 0
}

/// When exactly one argument matches the parameter and its name is not
/// empty, the fold picks that argument.
proof fn lemma_fold_best_unique(
    args: Seq<crate::actions::ArgumentV>,
    param: Seq<char>,
    m0: int,
    i: int,
    bi: int,
    blen: int,
)
    requires
        0 <= m0 < args.len(),
        forall|j: int|
            0 <= j < args.len() ==> (#[trigger] crate::argument::name_matches(
                param,
                crate::casing::snake_case_of(args[j].name),
            ) <==> j == m0),
        crate::casing::snake_case_of(args[m0].name).len() > 0,
        (i <= m0 && bi == -1 && blen == 0) || (i > m0 && bi == m0 && blen
            == crate::casing::snake_case_of(args[m0].name).len()),
        0 <= i,
    ensures
        crate::argument::fold_best(args, param, i, bi, blen) == m0,
    decreases args.len() - i,
{
    if i >= args.len() {
    } else {
        let sn = crate::casing::snake_case_of(args[i].name);
        if i == m0 {
            assert(crate::argument::name_matches(param, sn));
            lemma_fold_best_unique(args, param, m0, i + 1, i, sn.len() as int);
        } else {
            assert(!crate::argument::name_matches(param, sn));
            lemma_fold_best_unique(args, param, m0, i + 1, bi, blen);
        }
    }
}

/// The pairing carried over to the pool with one chosen argument removed.
spec fn shifted_pairing(m: Seq<int>, m0: int) -> Seq<int> {
    m.skip(1).map_values(
        |v: int|
            if v > m0 {
                v - 1
            } else {
                v
            },
    )
}

/// Removing the chosen argument keeps the rest unambiguous.
proof fn lemma_unambiguous_step(
    args: Seq<crate::actions::ArgumentV>,
    params: Seq<Seq<char>>,
    m: Seq<int>,
)
    requires
        unambiguous(args, params, m),
        params.len() > 0,
    ensures
        unambiguous(args.remove(m[0]), params.skip(1), shifted_pairing(m, m[0])),
    decreases params.len(),
{
    let m0 = m[0];
    let args2 = args.remove(m0);
    let params2 = params.skip(1);
    let m2 = shifted_pairing(m, m0);
    assert(args2.len() == args.len() - 1);
    assert forall|i: int| 0 <= i < m2.len() implies 0 <= #[trigger] m2[i] < args2.len() by {
        assert(m2[i] == (if m.skip(1)[i] > m0 {
            m.skip(1)[i] - 1
        } else {
            m.skip(1)[i]
        }));
        assert(m.skip(1)[i] == m[i + 1]);
        assert(m[i + 1] != m0);
    }
    assert forall|i: int, j: int| 0 <= i < params2.len() && 0 <= j < args2.len() implies (
    #[trigger] crate::argument::name_matches(
        params2[i],
        crate::casing::snake_case_of(args2[j].name),
    ) <==> j == m2[i]) by {
        assert(params2[i] == params[i + 1]);
        let orig_j: int = if j < m0 {
            j
        } else {
            j + 1
        };
        assert(args2[j] == args[orig_j]);
        assert(crate::argument::name_matches(
            params[i + 1],
            crate::casing::snake_case_of(args[orig_j].name),
        ) <==> orig_j == m[i + 1]);
        assert(m.skip(1)[i] == m[i + 1]);
        assert(m[i + 1] != m0);
        assert(m2[i] == (if m[i + 1] > m0 {
            m[i + 1] - 1
        } else {
            m[i + 1]
        }));
    }
    assert forall|i1: int, i2: int|
        0 <= i1 < m2.len() && 0 <= i2 < m2.len() && #[trigger] m2[i1] == #[trigger] m2[i2]
        implies i1 == i2 by {
        assert(m.skip(1)[i1] == m[i1 + 1]);
        assert(m.skip(1)[i2] == m[i2 + 1]);
        assert(m[i1 + 1] != m0 && m[i2 + 1] != m0);
        assert(m2[i1] == (if m[i1 + 1] > m0 {
            m[i1 + 1] - 1
        } else {
            m[i1 + 1]
        }));
        assert(m2[i2] == (if m[i2 + 1] > m0 {
            m[i2 + 1] - 1
        } else {
            m[i2 + 1]
        }));
        assert(m[i1 + 1] == m[i2 + 1]);
    }
    assert forall|j: int| 0 <= j < args2.len() implies crate::casing::snake_case_of(
        (#[trigger] args2[j]).name,
    ).len() > 0 by {
        let orig_j: int = if j < m0 {
            j
        } else {
            j + 1
        };
        assert(args2[j] == args[orig_j]);
        assert(crate::casing::snake_case_of(args[orig_j].name).len() > 0);
    }
}

/// In the unambiguous case the first phase fills every slot with the
/// paired argument and empties the pool.
proof fn lemma_phase1_unambiguous(
    args: Seq<crate::actions::ArgumentV>,
    params: Seq<Seq<char>>,
    m: Seq<int>,
)
    requires
        unambiguous(args, params, m),
    ensures
        crate::argument::phase1(args, params).0.len() == params.len(),
        forall|i: int|
            0 <= i < params.len() ==> #[trigger] crate::argument::phase1(args, params).0[i]
                == Option::Some(args[m[i]]),
        crate::argument::phase1(args, params).1.len() == 0,
    decreases params.len(),
{
    if params.len() == 0 {
    } else {
        let m0 = m[0];
        assert forall|j: int|
            0 <= j < args.len() implies (#[trigger] crate::argument::name_matches(
            params[0],
            crate::casing::snake_case_of(args[j].name),
        ) <==> j == m0) by {}
        lemma_fold_best_unique(args, params[0], m0, 0, -1, 0);
        assert(crate::argument::best_match(args, params[0]) == m0);
        lemma_unambiguous_step(args, params, m);
        lemma_phase1_unambiguous(args.remove(m0), params.skip(1), shifted_pairing(m, m0));
        let rest = crate::argument::phase1(args.remove(m0), params.skip(1));
        assert(crate::argument::phase1(args, params).0 == seq![Option::Some(args[m0])] + rest.0);
        assert forall|i: int|
            0 <= i < params.len() implies #[trigger] crate::argument::phase1(args, params).0[i]
                == Option::Some(args[m[i]]) by {
            if i > 0 {
                let m2 = shifted_pairing(m, m0);
                assert(rest.0[i - 1] == Option::Some(args.remove(m0)[m2[i - 1]]));
                assert(m.skip(1)[i - 1] == m[i]);
                assert(m[i] != m0);
                assert(m2[i - 1] == (if m[i] > m0 {
                    m[i] - 1
                } else {
                    m[i]
                }));
                assert(args.remove(m0)[m2[i - 1]] == args[m[i]]);
            }
        }
    }
}

/// P3: in the unambiguous case — as many parameters as arguments, the
/// match relation the graph of an injective pairing — alignment is that
/// bijection: slot `i` holds exactly the argument paired with parameter
/// `i`, and the result is a permutation of the arguments, with no data
/// loss and no duplication.
pub proof fn lemma_alignment_bijection(
    args: Seq<crate::actions::ArgumentV>,
    params: Seq<Seq<char>>,
    m: Seq<int>,
)
    requires
        unambiguous(args, params, m),
    ensures
        crate::argument::align_model(args, params).len() == args.len(),
        forall|i: int|
            0 <= i < params.len() ==> #[trigger] crate::argument::align_model(args, params)[i]
                == args[m[i]],
        crate::argument::align_model(args, params).to_multiset() == args.to_multiset(),
    decreases params.len(),
{
    lemma_phase1_unambiguous(args, params, m);
    let slots = crate::argument::phase1(args, params).0;
    let pool = crate::argument::phase1(args, params).1;
    lemma_phase2_all_some(slots, pool);
    assert forall|i: int|
        0 <= i < params.len() implies #[trigger] crate::argument::align_model(args, params)[i]
            == args[m[i]] by {
        assert(crate::argument::phase2(slots, pool)[i] == slots[i]->0);
    }
    // the permutation: peel the paired arguments off one by one
    lemma_mapped_multiset(args, params, m);
}

/// With every slot filled, the second phase just reads the slots off.
proof fn lemma_phase2_all_some(
    slots: Seq<Option<crate::actions::ArgumentV>>,
    pool: Seq<crate::actions::ArgumentV>,
)
    requires
        forall|i: int| 0 <= i < slots.len() ==> (#[trigger] slots[i]) is Some,
    ensures
        crate::argument::phase2(slots, pool).len() == slots.len(),
        forall|i: int|
            0 <= i < slots.len() ==> #[trigger] crate::argument::phase2(slots, pool)[i]
                == slots[i]->0,
    decreases slots.len(),
{
    if slots.len() > 0 {
        assert(slots[0] is Some);
        lemma_phase2_all_some(slots.skip(1), pool);
        assert(crate::argument::phase2(slots, pool) == seq![slots[0]->0] + crate::argument::phase2(
            slots.skip(1),
            pool,
        ));
        assert forall|i: int|
            0 <= i < slots.len() implies #[trigger] crate::argument::phase2(slots, pool)[i]
                == slots[i]->0 by {
            if i > 0 {
                assert(crate::argument::phase2(slots, pool)[i] == crate::argument::phase2(
                    slots.skip(1),
                    pool,
                )[i - 1]);
                assert(slots.skip(1)[i - 1] == slots[i]);
            }
        }
    }
}

/// Reading the arguments through an injective total pairing permutes them.
proof fn lemma_mapped_multiset(
    args: Seq<crate::actions::ArgumentV>,
    params: Seq<Seq<char>>,
    m: Seq<int>,
)
    requires
        unambiguous(args, params, m),
    ensures
        crate::argument::align_model(args, params).to_multiset() == args.to_multiset(),
    decreases params.len(),
{
    broadcast use vstd::seq_lib::group_to_multiset_ensures;

    lemma_phase1_unambiguous(args, params, m);
    let r = crate::argument::align_model(args, params);
    lemma_phase2_all_some(
        crate::argument::phase1(args, params).0,
        crate::argument::phase1(args, params).1,
    );
    if params.len() == 0 {
        assert(r.len() == 0);
        assert(args.len() == 0);
        assert(r.to_multiset() =~= args.to_multiset());
    } else {
        let m0 = m[0];
        lemma_unambiguous_step(args, params, m);
        lemma_mapped_multiset(args.remove(m0), params.skip(1), shifted_pairing(m, m0));
        let r2 = crate::argument::align_model(args.remove(m0), params.skip(1));
        lemma_phase1_unambiguous(args.remove(m0), params.skip(1), shifted_pairing(m, m0));
        lemma_phase2_all_some(
            crate::argument::phase1(args.remove(m0), params.skip(1)).0,
            crate::argument::phase1(args.remove(m0), params.skip(1)).1,
        );
        // the two results agree elementwise after the first slot
        assert(r.len() == args.len());
        assert(r2.len() == args.len() - 1);
        assert forall|i: int| 0 <= i < r2.len() implies #[trigger] r2[i] == r[i + 1] by {
            let m2 = shifted_pairing(m, m0);
            assert(r2[i] == args.remove(m0)[m2[i]]);
            assert(r[i + 1] == args[m[i + 1]]);
            assert(m.skip(1)[i] == m[i + 1]);
            assert(m[i + 1] != m0);
            assert(m2[i] == (if m[i + 1] > m0 {
                m[i + 1] - 1
            } else {
                m[i + 1]
            }));
            assert(args.remove(m0)[m2[i]] == args[m[i + 1]]);
        }
        assert(r =~= seq![r[0]] + r2);
        assert(r[0] == args[m0]);
        assert((seq![args[m0]] + r2).to_multiset() =~= r2.to_multiset().insert(args[m0])) by {
            assert(seq![args[m0]] + r2 =~= r2.insert(0, args[m0]));
            vstd::seq_lib::lemma_multiset_commutative(seq![args[m0]], r2);
            assert(seq![args[m0]].to_multiset() =~= Multiset::<
                crate::actions::ArgumentV,
            >::empty().insert(args[m0]));
        }
        assert(args.remove(m0).to_multiset() =~= args.to_multiset().remove(args[m0]));
        assert(args.to_multiset().count(args[m0]) > 0);
        assert(r.to_multiset() =~= args.to_multiset());
    }
}

// ---------------------------------------------------------------------------
// disabled statements
// ---------------------------------------------------------------------------

/// No line of a text holds a newline.
proof fn lemma_lines_have_no_newline(s: Seq<char>, i: int)
    requires
        0 <= i < crate::text::lines_spec(s).len(),
    ensures
        !crate::text::lines_spec(s)[i].contains('\n'),
    decreases s.len(),
{
    crate::text::lemma_find_str(s, seq!['\n']);
    if s.len() > 0 {
        let f = crate::text::find_str(s, seq!['\n']);
        if f < 0 || f >= s.len() {
            assert forall|j: int| 0 <= j < s.len() implies s[j] != '\n' by {
                if s[j] == '\n' {
                    assert(s.subrange(j, j + 1) =~= seq!['\n']);
                    assert(crate::text::matches_at(s, seq!['\n'], j));
                }
            }
            assert(!crate::text::lines_spec(s)[0].contains('\n'));
        } else {
            if i == 0 {
                let head = crate::text::drop_cr(s.take(f));
                assert forall|j: int| 0 <= j < head.len() implies head[j] != '\n' by {
                    assert(head[j] == s[j]);
                    if s[j] == '\n' {
                        assert(s.subrange(j, j + 1) =~= seq!['\n']);
                        assert(crate::text::matches_at(s, seq!['\n'], j));
                    }
                }
            } else {
                lemma_lines_have_no_newline(s.skip(f + 1), i - 1);
            }
        }
    }
}

/// Splitting a newline-joined list of clean lines gives the list back.
proof fn lemma_concat_nl_lines(ls: Seq<Seq<char>>)
    requires
        forall|i: int|
            0 <= i < ls.len() ==> !(#[trigger] ls[i]).contains('\n') && (ls[i].len() > 0
                ==> ls[i][ls[i].len() - 1] != '\r'),
    ensures
        crate::text::lines_spec(crate::text::concat_nl(ls)) == ls,
    decreases ls.len(),
{
    if ls.len() == 0 {
        assert(crate::text::lines_spec(crate::text::concat_nl(ls)) =~= ls);
    } else {
        let s = crate::text::concat_nl(ls);
        let head = ls[0];
        let rest = crate::text::concat_nl(ls.skip(1));
        assert(s == head + seq!['\n'] + rest);
        crate::text::lemma_find_str(s, seq!['\n']);
        let f = crate::text::find_str(s, seq!['\n']);
        assert(crate::text::matches_at(s, seq!['\n'], head.len() as int)) by {
            assert(s.subrange(head.len() as int, head.len() as int + 1) =~= seq!['\n']);
        }
        assert forall|j: int| 0 <= j < head.len() implies !crate::text::matches_at(
            s,
            seq!['\n'],
            j,
        ) by {
            if crate::text::matches_at(s, seq!['\n'], j) {
                assert(s.subrange(j, j + 1)[0] == s[j]);
                assert(s[j] == head[j]);
            }
        }
        assert(f == head.len());
        assert(s.take(f) =~= head);
        assert(crate::text::drop_cr(head) == head);
        assert(s.skip(f + 1) =~= rest);
        assert(forall|i: int|
            0 <= i < ls.skip(1).len() ==> !(#[trigger] ls.skip(1)[i]).contains('\n') && (
            ls.skip(1)[i].len() > 0 ==> ls.skip(1)[i][ls.skip(1)[i].len() - 1] != '\r'));
        lemma_concat_nl_lines(ls.skip(1));
        assert(crate::text::lines_spec(s) =~= ls);
    }
}

/// A commented line holds no newline and keeps a clean tail, when the
/// line itself was clean.
proof fn lemma_comment_line_clean(l: Seq<char>)
    requires
        !l.contains('\n'),
        !l.contains('\r'),
    ensures
        !crate::scripts_file::comment_line(l).contains('\n'),
        crate::scripts_file::comment_line(l).len() > 0,
        crate::scripts_file::comment_line(l)[crate::scripts_file::comment_line(l).len() - 1]
            != '\r',
{
    reveal_strlit("# ");
    reveal_strlit("# \t");
    crate::text::lemma_leading_ws(l);
    crate::text::lemma_trailing_ws(l);
    let t = crate::text::trim_spec(l);
    let c = crate::scripts_file::comment_line(l);
    if crate::text::starts_with(t, "# "@) {
        assert(c == "# \t"@ + t.skip(2));
        assert forall|j: int| 0 <= j < c.len() implies c[j] != '\n' && (j == c.len() - 1 ==> c[j]
            != '\r') by {
            if j >= 3 {
                assert(c[j] == t[j - 1]);
                if t.len() > 0 {
                    assert(t[j - 1] == l[crate::text::leading_ws(l) + j - 1]);
                }
            }
        }
    } else {
        assert(c == "# "@ + l);
        assert forall|j: int| 0 <= j < c.len() implies c[j] != '\n' && (j == c.len() - 1 ==> c[j]
            != '\r') by {
            if j >= 2 {
                assert(c[j] == l[j - 2]);
            }
        }
    }
}

/// A disabled statement keeps its shape: commenting out yields exactly one
/// line per line of the rendered statement, each the commented form of the
/// original line — no line appears or disappears.
pub proof fn lemma_disabled_statement_keeps_lines(s: Seq<char>)
    requires
        !s.contains('\r'),
    ensures
        crate::text::lines_spec(crate::scripts_file::comment_out_spec(s))
            == crate::text::lines_spec(s).map_values(
            |l: Seq<char>| crate::scripts_file::comment_line(l),
        ),
{
    let ls = crate::text::lines_spec(s);
    let mapped = ls.map_values(|l: Seq<char>| crate::scripts_file::comment_line(l));
    assert forall|i: int| 0 <= i < mapped.len() implies !(#[trigger] mapped[i]).contains('\n') && (
    mapped[i].len() > 0 ==> mapped[i][mapped[i].len() - 1] != '\r') by {
        lemma_lines_have_no_newline(s, i);
        lemma_line_has_no_cr(s, i);
        lemma_comment_line_clean(ls[i]);
    }
    lemma_concat_nl_lines(mapped);
}

/// No line of a carriage-return-free text holds a carriage return.
proof fn lemma_line_has_no_cr(s: Seq<char>, i: int)
    requires
        0 <= i < crate::text::lines_spec(s).len(),
        !s.contains('\r'),
    ensures
        !crate::text::lines_spec(s)[i].contains('\r'),
    decreases s.len(),
{
    crate::text::lemma_find_str(s, seq!['\n']);
    if s.len() > 0 {
        let f = crate::text::find_str(s, seq!['\n']);
        if f < 0 || f >= s.len() {
            assert(!crate::text::lines_spec(s)[0].contains('\r')) by {
                if crate::text::lines_spec(s)[0].contains('\r') {
                    let j = choose|j: int| 0 <= j < s.len() && s[j] == '\r';
                }
            }
        } else {
            if i == 0 {
                let head = crate::text::drop_cr(s.take(f));
                assert forall|j: int| 0 <= j < head.len() implies head[j] != '\r' by {
                    assert(head[j] == s[j]);
                }
            } else {
                assert forall|j: int| 0 <= j < s.skip(f + 1).len() implies #[trigger] s.skip(
                    f + 1,
                )[j] != '\r' by {
                    assert(s.skip(f + 1)[j] == s[f + 1 + j]);
                }
                lemma_line_has_no_cr(s.skip(f + 1), i - 1);
            }
        }
    }
}

// ---------------------------------------------------------------------------
// pseudo-category split
// ---------------------------------------------------------------------------

/// Everything the filter keeps belongs to the category.
proof fn lemma_sep_filter_sound(vars: Seq<VariableV>, cat: Seq<char>, x: VariableV)
    requires
        sep_filter(vars, cat).contains(x),
    ensures
        sep_target(x) == cat,
    decreases vars.len(),
{
    if vars.len() > 0 {
        if sep_target(vars[0]) == cat {
            let r = seq![vars[0]] + sep_filter(vars.skip(1), cat);
            let j = choose|j: int| 0 <= j < r.len() && r[j] == x;
            if j == 0 {
            } else {
                assert(sep_filter(vars.skip(1), cat)[j - 1] == x);
                lemma_sep_filter_sound(vars.skip(1), cat, x);
            }
        } else {
            lemma_sep_filter_sound(vars.skip(1), cat, x);
        }
    }
}

/// Everything of the category is kept by the filter.
proof fn lemma_sep_filter_complete(vars: Seq<VariableV>, cat: Seq<char>, i: int)
    requires
        0 <= i < vars.len(),
        sep_target(vars[i]) == cat,
    ensures
        sep_filter(vars, cat).contains(vars[i]),
    decreases vars.len(),
{
    if i == 0 {
        assert(sep_filter(vars, cat)[0] == vars[0]);
    } else {
        lemma_sep_filter_complete(vars.skip(1), cat, i - 1);
        let r = sep_filter(vars.skip(1), cat);
        let j = choose|j: int| 0 <= j < r.len() && r[j] == vars.skip(1)[i - 1];
        if sep_target(vars[0]) == cat {
            assert((seq![vars[0]] + r)[j + 1] == vars.skip(1)[i - 1]);
        }
    }
}

/// An umbrella variable whose data type is `region` lands in the regions
/// pseudo-category and is absent from the umbrella category's final list.
pub proof fn lemma_region_variable_split(dv: JsonV, i: int)
    requires
        0 <= i < umbrella_vars(dv).len(),
        data_type_spec(umbrella_vars(dv)[i]) == Option::Some("region"@),
    ensures
        category_list_spec(dv, "regions"@).contains(umbrella_vars(dv)[i]),
        !category_list_spec(dv, "variables"@).contains(umbrella_vars(dv)[i]),
{
    let v = umbrella_vars(dv)[i];
    assert(sep_target(v) == "regions"@) by {
        reveal_strlit("region");
        reveal_strlit("regions");
        reveal_strlit("s");
        assert("region"@ + seq!['s'] =~= "regions"@) by {
            assert(("s")@ =~= seq!['s']);
            assert(("region"@ + seq!['s']).len() == "regions"@.len());
        }
    }
    assert(!crate::variable_categories::is_fixed_category("regions"@)
        && !crate::variable_categories::is_fixed_category("variables"@)) by {
        reveal_strlit("regions");
        reveal_strlit("variables");
        reveal_strlit("animationTypes");
        reveal_strlit("attributeTypes");
        reveal_strlit("dialogues");
        reveal_strlit("entityTypeVariables");
        reveal_strlit("itemTypes");
        reveal_strlit("music");
        reveal_strlit("projectileTypes");
        reveal_strlit("playerTypes");
        reveal_strlit("playerTypeVariables");
        reveal_strlit("shops");
        reveal_strlit("sound");
        reveal_strlit("states");
        reveal_strlit("unitTypes");
        assert("regions"@.len() == 7);
        assert("variables"@.len() == 9);
        assert("animationTypes"@.len() == 14);
        assert("attributeTypes"@.len() == 14);
        assert("dialogues"@.len() == 9);
        assert("entityTypeVariables"@.len() == 19);
        assert("itemTypes"@.len() == 9);
        assert("music"@.len() == 5);
        assert("projectileTypes"@.len() == 15);
        assert("playerTypes"@.len() == 11);
        assert("playerTypeVariables"@.len() == 19);
        assert("shops"@.len() == 5);
        assert("sound"@.len() == 5);
        assert("states"@.len() == 6);
        assert("unitTypes"@.len() == 9);
        assert("variables"@[0] == 'v');
        assert("dialogues"@[0] == 'd');
        assert("itemTypes"@[0] == 'i');
        assert("unitTypes"@[0] == 'u');
    }
    lemma_sep_filter_complete(umbrella_vars(dv), "regions"@, i);
    if category_list_spec(dv, "variables"@).contains(v) {
        lemma_sep_filter_sound(umbrella_vars(dv), "variables"@, v);
        assert("regions"@ != "variables"@) by {
            reveal_strlit("regions");
            reveal_strlit("variables");
            assert("regions"@.len() == 7);
            assert("variables"@.len() == 9);
        }
    }
}

} // verus!
