//! Argument parsing and positional alignment.
//!
//! Alignment reconciles the unordered source fields of one action or
//! function with the target structure's fixed parameter order: per
//! parameter slot the best-matching remaining argument is taken; a slot
//! with no match falls back to the last remaining argument, or to a null
//! placeholder once the pool is empty; leftovers are discarded.

use vstd::prelude::*;

use crate::actions::{
    ac_model, acs_model, arg_model, args_model, argval_model, clone_args, func_model,
    lemma_acs_model_index, lemma_acs_model_len, lemma_acs_model_snoc, lemma_args_model_index,
    lemma_args_model_len, lemma_args_model_snoc, jsize, jsize_entries, jsize_seq,
    lemma_jsize_entries_index, lemma_jsize_seq_index, Action, ActionV, ArgV, Argument, ArgumentV,
    ArgumentValue, Function, FunctionV,
};
use crate::casing::{snake_case_of, to_snake_case};
use crate::document::{
    jentries, jget, jget_entries, jval, jvals, lemma_jentries_index, lemma_jentries_len,
    lemma_jvals_index, lemma_jvals_len, JsonV, JsonValue,
};
use crate::text::{find_str, str_contains, str_eq};
use crate::to_pymodd_maps::{
    lookup_or, lookup_string_map, maps_model, structure_or_undefined, MapsV, PymoddMaps,
    PymoddStructure,
};

verus! {

// ---------------------------------------------------------------------------
// alignment
// ---------------------------------------------------------------------------

/// Whether an argument's snake_case name and a parameter name match: one is
/// a substring of the other.
pub open spec fn name_matches(param: Seq<char>, snake_name: Seq<char>) -> bool {
    find_str(param, snake_name) >= 0 || find_str(snake_name, param) >= 0
}

/// The fold that picks the best-matching argument for one parameter: the
/// matching argument with the longest snake_case name, the earliest on a tie;
/// -1 when nothing matches strictly better than the running best.
pub open spec fn fold_best(
    args: Seq<ArgumentV>,
    param: Seq<char>,
    i: int,
    bi: int,
    blen: int,
) -> int
    decreases args.len() - i,
{
    if i < 0 || i >= args.len() {
        bi
    } else {
        let sn = snake_case_of(args[i].name);
        if name_matches(param, sn) && sn.len() > blen {
            fold_best(args, param, i + 1, i, sn.len() as int)
        } else {
            fold_best(args, param, i + 1, bi, blen)
        }
    }
}

/// The argument chosen for a parameter, -1 when none matches.
pub open spec fn best_match(args: Seq<ArgumentV>, param: Seq<char>) -> int {
    fold_best(args, param, 0, -1, 0)
}

pub proof fn lemma_fold_best_range(args: Seq<ArgumentV>, param: Seq<char>, i: int, bi: int, blen: int)
    requires
        bi == -1 || 0 <= bi < args.len(),
    ensures
        fold_best(args, param, i, bi, blen) == -1 || 0 <= fold_best(args, param, i, bi, blen)
            < args.len(),
    decreases args.len() - i,
{
    if 0 <= i < args.len() {
        let sn = snake_case_of(args[i].name);
        if name_matches(param, sn) && sn.len() > blen {
            lemma_fold_best_range(args, param, i + 1, i, sn.len() as int);
        } else {
            lemma_fold_best_range(args, param, i + 1, bi, blen);
        }
    }
}

/// The null placeholder argument that fills a slot when the pool is empty.
pub open spec fn null_argument_v() -> ArgumentV {
    ArgumentV { name: "null"@, value: ArgV::Value(JsonV::Null) }
}

/// Phase one of alignment: per parameter in order, the chosen argument is
/// moved out of the pool into its slot; unmatched slots stay empty.
pub open spec fn phase1(args: Seq<ArgumentV>, params: Seq<Seq<char>>) -> (Seq<Option<ArgumentV>>, Seq<
    ArgumentV,
>)
    decreases params.len(),
{
    if params.len() == 0 {
        (Seq::<Option<ArgumentV>>::empty(), args)
    } else {
        let b = best_match(args, params[0]);
        if b < 0 || b >= args.len() {
            let rest = phase1(args, params.skip(1));
            (seq![Option::<ArgumentV>::None] + rest.0, rest.1)
        } else {
            let rest = phase1(args.remove(b), params.skip(1));
            (seq![Option::Some(args[b])] + rest.0, rest.1)
        }
    }
}

/// Phase two of alignment: empty slots are filled from the back of the
/// leftover pool, with a null placeholder once it runs dry.
pub open spec fn phase2(slots: Seq<Option<ArgumentV>>, pool: Seq<ArgumentV>) -> Seq<ArgumentV>
    decreases slots.len(),
{
    if slots.len() == 0 {
        Seq::<ArgumentV>::empty()
    } else {
        match slots[0] {
            Option::Some(a) => seq![a] + phase2(slots.skip(1), pool),
            Option::None => if pool.len() == 0 {
                seq![null_argument_v()] + phase2(slots.skip(1), pool)
            } else {
                seq![pool[pool.len() - 1]] + phase2(slots.skip(1), pool.take(pool.len() - 1))
            },
        }
    }
}

/// The whole alignment: one argument per parameter slot, in parameter order.
pub open spec fn align_model(args: Seq<ArgumentV>, params: Seq<Seq<char>>) -> Seq<ArgumentV> {
    phase2(phase1(args, params).0, phase1(args, params).1)
}

/// The models of a slot list.
pub open spec fn opt_args_model(s: Seq<Option<Argument>>) -> Seq<Option<ArgumentV>> {
    s.map_values(
        |o: Option<Argument>|
            match o {
                Option::Some(a) => Option::Some(arg_model(a)),
                Option::None => Option::<ArgumentV>::None,
            },
    )
}

pub proof fn lemma_args_model_remove(items: Seq<Argument>, i: int)
    requires
        0 <= i < items.len(),
    ensures
        args_model(items.remove(i)) == args_model(items).remove(i),
    decreases items.len(),
{
    lemma_args_model_len(items);
    lemma_args_model_len(items.remove(i));
    assert forall|k: int| 0 <= k < items.len() - 1 implies #[trigger] args_model(items.remove(i))[k]
        == args_model(items).remove(i)[k] by {
        lemma_args_model_index(items.remove(i), k);
        if k < i {
            lemma_args_model_index(items, k);
        } else {
            lemma_args_model_index(items, k + 1);
        }
    }
    assert(args_model(items.remove(i)) =~= args_model(items).remove(i));
}

pub proof fn lemma_args_model_take(items: Seq<Argument>, n: int)
    requires
        0 <= n <= items.len(),
    ensures
        args_model(items.take(n)) == args_model(items).take(n),
{
    lemma_args_model_len(items);
    lemma_args_model_len(items.take(n));
    assert forall|k: int| 0 <= k < n implies #[trigger] args_model(items.take(n))[k] == args_model(
        items,
    ).take(n)[k] by {
        lemma_args_model_index(items.take(n), k);
        lemma_args_model_index(items, k);
    }
    assert(args_model(items.take(n)) =~= args_model(items).take(n));
}

/// Aligns the parsed arguments with a target structure's parameter list.
pub fn align_arguments_with_pymodd_structure_parameters(
    arguments: Vec<Argument>,
    pymodd_structure_parameters: &Vec<String>,
) -> (r: Vec<Argument>)
    ensures
        args_model(r@) == align_model(
            args_model(arguments@),
            pymodd_structure_parameters@.map_values(|x: String| x@),
        ),
{
    let ghost args0 = args_model(arguments@);
    let ghost ps = pymodd_structure_parameters@.map_values(|x: String| x@);
    let mut aligned: Vec<Option<Argument>> = Vec::new();
    let mut pool = arguments;
    let mut i: usize = 0;
    proof {
        assert(ps.skip(0) =~= ps);
        assert(opt_args_model(aligned@) =~= Seq::<Option<ArgumentV>>::empty());
        assert(Seq::<Option<ArgumentV>>::empty() + phase1(args_model(pool@), ps).0 =~= phase1(
            args_model(pool@),
            ps,
        ).0);
    }
    while i < pymodd_structure_parameters.len()
        invariant
            0 <= i <= ps.len(),
            ps == pymodd_structure_parameters@.map_values(|x: String| x@),
            phase1(args0, ps).0 == opt_args_model(aligned@) + phase1(
                args_model(pool@),
                ps.skip(i as int),
            ).0,
            phase1(args0, ps).1 == phase1(args_model(pool@), ps.skip(i as int)).1,
            aligned@.len() == i,
        decreases ps.len() - i,
    {
        let param = &pymodd_structure_parameters[i];
        let ghost pv = args_model(pool@);
        let ghost rest = ps.skip(i as int);
        proof {
            lemma_args_model_len(pool@);
            assert(rest[0] == ps[i as int]);
            assert(rest.skip(1) =~= ps.skip(i + 1));
            lemma_fold_best_range(pv, param@, 0, -1, 0);
        }
        // the fold that picks the best-matching remaining argument
        let mut j: usize = 0;
        let mut best: Option<usize> = Option::None;
        let mut best_len: usize = 0;
        while j < pool.len()
            invariant
                0 <= j <= pool@.len(),
                pv == args_model(pool@),
                pv.len() == pool@.len(),
                param@ == ps[i as int],
                match best {
                    Option::Some(b) => 0 <= b < j && fold_best(pv, param@, j as int, b as int, best_len as int)
                        == best_match(pv, param@),
                    Option::None => best_len == 0 && fold_best(pv, param@, j as int, -1, 0)
                        == best_match(pv, param@),
                },
            decreases pool@.len() - j,
        {
            let arg = &pool[j];
            let sn = to_snake_case(arg.name.as_str());
            let sn_len = sn.as_str().unicode_len();
            let is_match = str_contains(param.as_str(), sn.as_str()) || str_contains(
                sn.as_str(),
                param.as_str(),
            );
            proof {
                lemma_args_model_index(pool@, j as int);
                assert(pv[j as int] == arg_model(pool@[j as int]));
                assert(snake_case_of(pv[j as int].name) == sn@);
            }
            if is_match && sn_len > best_len {
                best = Option::Some(j);
                best_len = sn_len;
            }
            j = j + 1;
        }
        let ghost aligned_old = aligned@;
        match best {
            Option::Some(b) => {
                proof {
                    assert(best_match(pv, param@) == b as int);
                    lemma_args_model_remove(pool@, b as int);
                    lemma_args_model_index(pool@, b as int);
                }
                let chosen = pool.remove(b);
                aligned.push(Option::Some(chosen));
                proof {
                    assert(phase1(pv, rest).0 == seq![Option::Some(pv[b as int])] + phase1(
                        pv.remove(b as int),
                        rest.skip(1),
                    ).0);
                    assert(phase1(pv, rest).1 == phase1(pv.remove(b as int), rest.skip(1)).1);
                    assert(args_model(pool@) == pv.remove(b as int));
                    assert(opt_args_model(aligned@) =~= opt_args_model(aligned_old).push(
                        Option::Some(pv[b as int]),
                    ));
                    assert(opt_args_model(aligned@) + phase1(args_model(pool@), ps.skip(i + 1)).0
                        =~= opt_args_model(aligned_old) + phase1(pv, rest).0);
                }
            },
            Option::None => {
                proof {
                    assert(best_match(pv, param@) == -1);
                }
                aligned.push(Option::None);
                proof {
                    assert(phase1(pv, rest).0 == seq![Option::<ArgumentV>::None] + phase1(
                        pv,
                        rest.skip(1),
                    ).0);
                    assert(phase1(pv, rest).1 == phase1(pv, rest.skip(1)).1);
                    assert(opt_args_model(aligned@) =~= opt_args_model(aligned_old).push(
                        Option::<ArgumentV>::None,
                    ));
                    assert(opt_args_model(aligned@) + phase1(args_model(pool@), ps.skip(i + 1)).0
                        =~= opt_args_model(aligned_old) + phase1(pv, rest).0);
                }
            },
        }
        i = i + 1;
    }
    proof {
        assert(ps.skip(ps.len() as int).len() == 0);
        assert(phase1(args_model(pool@), ps.skip(ps.len() as int)).0
            =~= Seq::<Option<ArgumentV>>::empty());
        assert(opt_args_model(aligned@) + Seq::<Option<ArgumentV>>::empty() =~= opt_args_model(
            aligned@,
        ));
        assert(phase1(args0, ps).0 == opt_args_model(aligned@));
        assert(phase1(args0, ps).1 == args_model(pool@));
    }
    // phase two: fill the empty slots from the back of the pool
    let ghost slots = opt_args_model(aligned@);
    let ghost pool1 = args_model(pool@);
    let mut result: Vec<Argument> = Vec::new();
    let mut k: usize = 0;
    proof {
        assert(slots.skip(0) =~= slots);
        assert(args_model(result@) =~= Seq::<ArgumentV>::empty());
        assert(Seq::<ArgumentV>::empty() + phase2(slots, pool1) =~= phase2(slots, pool1));
    }
    while k < aligned.len()
        invariant
            0 <= k <= aligned@.len(),
            slots == opt_args_model(aligned@),
            slots.len() == aligned@.len(),
            args_model(result@) + phase2(slots.skip(k as int), args_model(pool@)) == phase2(
                slots,
                pool1,
            ),
        decreases aligned@.len() - k,
    {
        let ghost srest = slots.skip(k as int);
        proof {
            assert(srest[0] == slots[k as int]);
            assert(srest.skip(1) =~= slots.skip(k + 1));
            lemma_args_model_len(pool@);
        }
        let slot = &aligned[k];
        match slot {
            Option::Some(a) => {
                let c = a.clone();
                proof {
                    lemma_args_model_snoc(result@, c);
                    assert(slots[k as int] == Option::Some(arg_model(*a)));
                    assert(phase2(srest, args_model(pool@)) == seq![arg_model(*a)] + phase2(
                        slots.skip(k + 1),
                        args_model(pool@),
                    ));
                }
                result.push(c);
            },
            Option::None => {
                proof {
                    assert(slots[k as int] is None);
                }
                if pool.len() > 0 {
                    let ghost pv_before = args_model(pool@);
                    proof {
                        lemma_args_model_index(pool@, pool@.len() - 1);
                        lemma_args_model_take(pool@, pool@.len() - 1);
                    }
                    let a = match pool.pop() {
                        Option::Some(a) => a,
                        Option::None => {
                            proof {
                                assert(false);
                            }
                            Argument::new("null", ArgumentValue::Value(JsonValue::Null))
                        },
                    };
                    proof {
                        lemma_args_model_snoc(result@, a);
                        assert(phase2(srest, pv_before) == seq![pv_before[pv_before.len() - 1]]
                            + phase2(slots.skip(k + 1), pv_before.take(pv_before.len() - 1)));
                        assert(args_model(pool@) =~= pv_before.take(pv_before.len() - 1));
                    }
                    result.push(a);
                } else {
                    let a = Argument::new("null", ArgumentValue::Value(JsonValue::Null));
                    proof {
                        reveal_strlit("null");
                        lemma_args_model_snoc(result@, a);
                        assert(arg_model(a) == null_argument_v());
                        assert(args_model(pool@).len() == 0);
                        assert(phase2(srest, args_model(pool@)) == seq![null_argument_v()]
                            + phase2(slots.skip(k + 1), args_model(pool@)));
                    }
                    result.push(a);
                }
            },
        }
        k = k + 1;
    }
    proof {
        assert(slots.skip(slots.len() as int).len() == 0);
        assert(phase2(slots.skip(slots.len() as int), args_model(pool@))
            =~= Seq::<ArgumentV>::empty());
        assert(args_model(result@) + Seq::<ArgumentV>::empty() =~= args_model(result@));
    }
    result
}

// ---------------------------------------------------------------------------
// parsing arguments out of the document
// ---------------------------------------------------------------------------

/// The object fields that are not arguments.
pub open spec fn is_ignored_arg(name: Seq<char>) -> bool {
    name == "type"@ || name == "entityType"@ || name == "vars"@ || name == "function"@ || name
        == "comment"@ || name == "disabled"@ || name == "runOnClient"@ || name == "hasFixedCSP"@
}

/// The value under `key`, a default when absent.
pub open spec fn jget_or(v: JsonV, key: Seq<char>, d: JsonV) -> JsonV {
    match jget(v, key) {
        Option::Some(x) => x,
        Option::None => d,
    }
}

/// The function tag of an object: its `function` field as a string, the
/// text `null` otherwise.
pub open spec fn fname_from_data(entries: Seq<(Seq<char>, JsonV)>) -> Seq<char> {
    match jget_entries(entries, "function"@) {
        Option::Some(JsonV::Str(s)) => s,
        _ => "null"@,
    }
}

/// The variable id carried by a `getVariable` call.
pub open spec fn var_id_from_get_variable(entries: Seq<(Seq<char>, JsonV)>) -> JsonV {
    match jget_entries(entries, "variableName"@) {
        Option::Some(v) => v,
        Option::None => JsonV::Null,
    }
}

/// The variable key carried by a player- or entity-variable call.
pub open spec fn var_id_from_get_unit_variable(entries: Seq<(Seq<char>, JsonV)>) -> JsonV {
    let w = match jget_entries(entries, "variable"@) {
        Option::Some(v) => v,
        Option::None => JsonV::Obj(Seq::<(Seq<char>, JsonV)>::empty()),
    };
    jget_or(w, "key"@, JsonV::Null)
}

/// Whether a list is a condition in modd's list form: three items, one of
/// them an object with an `operator` field.
pub open spec fn list_contains_operator_spec(items: Seq<JsonV>) -> bool {
    items.len() == 3 && exists|i: int| 0 <= i < items.len() && jget(#[trigger] items[i], "operator"@) is Some
}

/// The model of the entries of an object value, an empty list otherwise.
pub open spec fn obj_entries_of(v: JsonV) -> Seq<(Seq<char>, JsonV)> {
    match v {
        JsonV::Obj(entries) => entries,
        _ => Seq::<(Seq<char>, JsonV)>::empty(),
    }
}

/// The model of the items of an array value, an empty list otherwise.
pub open spec fn arr_items_of(v: JsonV) -> Seq<JsonV> {
    match v {
        JsonV::Arr(items) => items,
        _ => Seq::<JsonV>::empty(),
    }
}

/// One parsed argument: variable-reading calls collapse to their variable
/// id, objects become nested calls, operator lists become conditions,
/// other lists become statement blocks, and anything else is a plain value.
pub open spec fn arg_parse_spec(m: MapsV, name: Seq<char>, v: JsonV) -> ArgumentV
    decreases jsize(v), 3int,
{
    match v {
        JsonV::Obj(entries) => {
            let fname = fname_from_data(entries);
            if fname == "getPlayerVariable"@ || fname == "getEntityVariable"@ {
                ArgumentV { name, value: ArgV::Value(var_id_from_get_unit_variable(entries)) }
            } else if fname == "getVariable"@ {
                ArgumentV { name, value: ArgV::Value(var_id_from_get_variable(entries)) }
            } else {
                ArgumentV { name, value: ArgV::Function(function_parse_spec(m, v)) }
            }
        },
        JsonV::Arr(items) => {
            if list_contains_operator_spec(items) {
                ArgumentV { name, value: ArgV::Function(condition_function_spec(m, v)) }
            } else {
                ArgumentV { name, value: ArgV::Actions(actions_parse_spec(m, items)) }
            }
        },
        _ => ArgumentV { name, value: ArgV::Value(v) },
    }
}

/// A parsed nested call: its arguments aligned with its target structure.
pub open spec fn function_parse_spec(m: MapsV, v: JsonV) -> FunctionV
    decreases jsize(v), 1int,
{
    let entries = obj_entries_of(v);
    let fname = fname_from_data(entries);
    FunctionV {
        name: fname,
        args: align_model(
            args_parse_entries(m, entries),
            structure_or_undefined(m.functions, fname).parameters,
        ),
    }
}

/// A condition read out of modd's list form, not aligned.
pub open spec fn condition_function_spec(m: MapsV, v: JsonV) -> FunctionV
    decreases jsize(v), 2int,
{
    FunctionV { name: "condition"@, args: operator_args_spec(m, v) }
}

/// The three arguments of an operator list: left operand, operator symbol,
/// right operand, missing pieces null.
pub open spec fn operator_args_spec(m: MapsV, v: JsonV) -> Seq<ArgumentV>
    decreases jsize(v), 1int,
    via operator_args_spec_decreases
{
    let items = arr_items_of(v);
    let item_a = if items.len() > 1 {
        arg_parse_spec(m, "item_a"@, items[1])
    } else {
        ArgumentV { name: "item_a"@, value: ArgV::Value(JsonV::Null) }
    };
    let op_value = if items.len() > 0 {
        jget_or(items[0], "operator"@, JsonV::Null)
    } else {
        JsonV::Null
    };
    let operator = ArgumentV { name: "operator"@, value: ArgV::Value(op_value) };
    let item_b = if items.len() > 2 {
        arg_parse_spec(m, "item_b"@, items[2])
    } else {
        ArgumentV { name: "item_b"@, value: ArgV::Value(JsonV::Null) }
    };
    seq![item_a, operator, item_b]
}

#[via_fn]
proof fn operator_args_spec_decreases(m: MapsV, v: JsonV) {
    match v {
        JsonV::Arr(items) => {
            if items.len() > 1 {
                crate::actions::lemma_jsize_seq_index(items, 1);
            }
            if items.len() > 2 {
                crate::actions::lemma_jsize_seq_index(items, 2);
            }
        },
        _ => {},
    }
}

/// The two force components of a force object.
pub open spec fn force_args_spec(v: JsonV) -> Seq<ArgumentV> {
    seq![
        ArgumentV { name: "x"@, value: ArgV::Value(jget_or(v, "x"@, JsonV::Null)) },
        ArgumentV { name: "y"@, value: ArgV::Value(jget_or(v, "y"@, JsonV::Null)) },
    ]
}

/// The arguments one object field contributes.
pub open spec fn entry_args_spec(m: MapsV, name: Seq<char>, v: JsonV) -> Seq<ArgumentV>
    decreases jsize(v), 4int,
{
    if is_ignored_arg(name) {
        Seq::<ArgumentV>::empty()
    } else if name == "items"@ {
        operator_args_spec(m, v)
    } else if name == "force"@ {
        if jget(v, "x"@) is Some {
            force_args_spec(v)
        } else {
            seq![arg_parse_spec(m, "force"@, v)]
        }
    } else if name == "target"@ && v is Str {
        seq![
            ArgumentV {
                name: "target"@,
                value: ArgV::Constant(lookup_or(m.ui_targets, v->Str_0, v->Str_0)),
            },
        ]
    } else if name == "flip"@ && v is Str {
        seq![
            ArgumentV {
                name: "flip"@,
                value: ArgV::Constant(lookup_or(m.flips, v->Str_0, v->Str_0)),
            },
        ]
    } else {
        seq![arg_parse_spec(m, name, v)]
    }
}

/// All arguments of one action or function object, field by field.
pub open spec fn args_parse_entries(m: MapsV, entries: Seq<(Seq<char>, JsonV)>) -> Seq<ArgumentV>
    decreases jsize_entries(entries), 5int,
{
    if entries.len() == 0 {
        Seq::<ArgumentV>::empty()
    } else {
        entry_args_spec(m, entries[0].0, entries[0].1) + args_parse_entries(m, entries.skip(1))
    }
}

/// A parsed statement: its tag, optional comment, flags, and arguments
/// aligned with the tag's target structure.
pub open spec fn action_parse_spec(m: MapsV, v: JsonV) -> ActionV
    decreases jsize(v), 6int,
{
    let entries = obj_entries_of(v);
    let name = match jget_entries(entries, "type"@) {
        Option::Some(JsonV::Str(s)) => s,
        _ => "null"@,
    };
    ActionV {
        name,
        args: align_model(
            args_parse_entries(m, entries),
            structure_or_undefined(m.actions, name).parameters,
        ),
        comment: match jget_entries(entries, "comment"@) {
            Option::Some(JsonV::Str(s)) => Option::Some(s),
            _ => Option::None,
        },
        ran_on_client: match jget_entries(entries, "runOnClient"@) {
            Option::Some(JsonV::Bool(b)) => b,
            _ => false,
        },
        disabled: match jget_entries(entries, "disabled"@) {
            Option::Some(JsonV::Bool(b)) => b,
            _ => false,
        },
    }
}

/// A parsed statement list, one action per item.
pub open spec fn actions_parse_spec(m: MapsV, items: Seq<JsonV>) -> Seq<ActionV>
    decreases jsize_seq(items), 7int,
{
    if items.len() == 0 {
        Seq::<ActionV>::empty()
    } else {
        seq![action_parse_spec(m, items[0])] + actions_parse_spec(m, items.skip(1))
    }
}

// ---------------------------------------------------------------------------
// exec parsing
// ---------------------------------------------------------------------------

/// The value under `key` of an object, null when absent.
pub fn get_or_null(v: &JsonValue, key: &str) -> (r: JsonValue)
    ensures
        jval(r) == jget_or(jval(*v), key@, JsonV::Null),
{
    match v.get(key) {
        Option::Some(x) => x.clone(),
        Option::None => JsonValue::Null,
    }
}

pub fn list_data_contains_operator(list_data: &Vec<JsonValue>) -> (r: bool)
    ensures
        r == list_contains_operator_spec(jvals(list_data@)),
{
    proof {
        lemma_jvals_len(list_data@);
    }
    if list_data.len() != 3 {
        return false;
    }
    let mut i: usize = 0;
    while i < list_data.len()
        invariant
            0 <= i <= list_data@.len(),
            list_data@.len() == 3,
            jvals(list_data@).len() == list_data@.len(),
            forall|j: int| 0 <= j < i ==> !(jget(#[trigger] jvals(list_data@)[j], "operator"@) is Some),
        decreases list_data@.len() - i,
    {
        proof {
            lemma_jvals_index(list_data@, i as int);
        }
        let item = &list_data[i];
        let has = match item.get("operator") {
            Option::Some(_) => true,
            Option::None => false,
        };
        if has {
            proof {
                assert(jget(jvals(list_data@)[i as int], "operator"@) is Some);
                assert(list_contains_operator_spec(jvals(list_data@)));
            }
            return true;
        }
        i = i + 1;
    }
    false
}

/// Appends every argument of `more`, keeping the models in order.
fn append_args(out: &mut Vec<Argument>, more: Vec<Argument>)
    ensures
        args_model(final(out)@) == args_model(old(out)@) + args_model(more@),
{
    let mut i: usize = 0;
    proof {
        lemma_args_model_len(more@);
        lemma_args_model_take(more@, 0);
        assert(args_model(more@).take(0) =~= Seq::<ArgumentV>::empty());
        assert(args_model(out@) + args_model(more@).take(0) =~= args_model(out@));
    }
    while i < more.len()
        invariant
            0 <= i <= more@.len(),
            args_model(out@) == args_model(old(out)@) + args_model(more@).take(i as int),
        decreases more@.len() - i,
    {
        let a = more[i].clone();
        proof {
            lemma_args_model_snoc(out@, a);
            lemma_args_model_index(more@, i as int);
        }
        out.push(a);
        proof {
            assert(args_model(more@).take(i + 1) =~= args_model(more@).take(i as int).push(
                args_model(more@)[i as int],
            ));
            assert(args_model(old(out)@) + args_model(more@).take(i as int).push(
                args_model(more@)[i as int],
            ) =~= (args_model(old(out)@) + args_model(more@).take(i as int)).push(
                args_model(more@)[i as int],
            ));
        }
        i = i + 1;
    }
    proof {
        assert(args_model(more@).take(more@.len() as int) =~= args_model(more@));
    }
}

impl Argument {
    /// Parses one named argument out of its document value.
    pub fn parse(maps: &PymoddMaps, argument_name: &str, argument_data: &JsonValue) -> (r:
        Argument)
        ensures
            arg_model(r) == arg_parse_spec(maps_model(*maps), argument_name@, jval(*argument_data)),
        decreases jsize(jval(*argument_data)), 3int,
    {
        match argument_data {
            JsonValue::Obj(entries) => {
                let fname = Function::name_from_data(argument_data);
                if str_eq(fname.as_str(), "getPlayerVariable") || str_eq(
                    fname.as_str(),
                    "getEntityVariable",
                ) {
                    let w = get_or_null(argument_data, "variable");
                    let id = match w.get("key") {
                        Option::Some(x) => x.clone(),
                        Option::None => JsonValue::Null,
                    };
                    proof {
                        // a missing `variable` field reads as an empty object
                        if jget(jval(*argument_data), "variable"@) is None {
                            assert(jget(
                                JsonV::Obj(Seq::<(Seq<char>, JsonV)>::empty()),
                                "key"@,
                            ) is None);
                        }
                    }
                    Argument { name: argument_name.to_owned(), value: ArgumentValue::Value(id) }
                } else if str_eq(fname.as_str(), "getVariable") {
                    let id = get_or_null(argument_data, "variableName");
                    Argument { name: argument_name.to_owned(), value: ArgumentValue::Value(id) }
                } else {
                    let f = Function::parse(maps, argument_data);
                    Argument { name: argument_name.to_owned(), value: ArgumentValue::Function(f) }
                }
            },
            JsonValue::Arr(items) => {
                if list_data_contains_operator(items) {
                    let f = Function::parse_condition_function(maps, argument_data);
                    Argument { name: argument_name.to_owned(), value: ArgumentValue::Function(f) }
                } else {
                    proof {
                        assert(jsize_seq(jvals(items@)) < jsize(jval(*argument_data)));
                    }
                    let acts = crate::actions::parse_actions(maps, items);
                    Argument { name: argument_name.to_owned(), value: ArgumentValue::Actions(acts) }
                }
            },
            _ => {
                Argument {
                    name: argument_name.to_owned(),
                    value: ArgumentValue::Value(argument_data.clone()),
                }
            },
        }
    }
}

/// The first argument with the given name.
pub open spec fn find_arg_spec(args: Seq<ArgumentV>, name: Seq<char>) -> Option<ArgumentV>
    decreases args.len(),
{
    if args.len() == 0 {
        Option::None
    } else if args[0].name == name {
        Option::Some(args[0])
    } else {
        find_arg_spec(args.skip(1), name)
    }
}

impl Function {
    /// Parses a nested call and aligns its arguments with its structure.
    pub fn parse(maps: &PymoddMaps, function_data: &JsonValue) -> (r: Function)
        ensures
            func_model(r) == function_parse_spec(maps_model(*maps), jval(*function_data)),
        decreases jsize(jval(*function_data)), 1int,
    {
        let name = Function::name_from_data(function_data);
        let empty_entries: Vec<(String, JsonValue)> = Vec::new();
        let args = match function_data {
            JsonValue::Obj(entries) => {
                proof {
                    assert(jsize_entries(jentries(entries@)) < jsize(jval(*function_data)));
                }
                parse_arguments_of_object_data(maps, entries)
            },
            _ => {
                proof {
                    assert(jentries(empty_entries@) =~= obj_entries_of(jval(*function_data)));
                }
                parse_arguments_of_object_data(maps, &empty_entries)
            },
        };
        let st = maps.function_structure(name.as_str());
        let aligned = align_arguments_with_pymodd_structure_parameters(args, &st.parameters);
        Function { name, args: aligned }
    }

    /// Parses a condition written in modd's list form.
    pub fn parse_condition_function(maps: &PymoddMaps, condition_data: &JsonValue) -> (r: Function)
        ensures
            func_model(r) == condition_function_spec(maps_model(*maps), jval(*condition_data)),
        decreases jsize(jval(*condition_data)), 2int,
    {
        let args = parse_arguments_of_operator_data(maps, condition_data);
        Function { name: "condition".to_owned(), args }
    }

    pub fn find_argument_with_name(&self, name: &str) -> (r: Option<&Argument>)
        ensures
            match r {
                Option::Some(a) => find_arg_spec(args_model(self.args@), name@) == Option::Some(
                    arg_model(*a),
                ),
                Option::None => find_arg_spec(args_model(self.args@), name@) is None,
            },
    {
        let ghost av = args_model(self.args@);
        let mut i: usize = 0;
        proof {
            lemma_args_model_len(self.args@);
            assert(av.skip(0) =~= av);
        }
        while i < self.args.len()
            invariant
                0 <= i <= self.args@.len(),
                av == args_model(self.args@),
                av.len() == self.args@.len(),
                find_arg_spec(av.skip(i as int), name@) == find_arg_spec(av, name@),
            decreases self.args@.len() - i,
        {
            proof {
                lemma_args_model_index(self.args@, i as int);
                assert(av.skip(i as int)[0] == av[i as int]);
                assert(av.skip(i as int).skip(1) =~= av.skip(i + 1));
            }
            let a = &self.args[i];
            if str_eq(a.name.as_str(), name) {
                return Option::Some(a);
            }
            i = i + 1;
        }
        proof {
            assert(av.skip(av.len() as int).len() == 0);
        }
        Option::None
    }

    /// The function tag of an object, the text `null` when there is none.
    pub fn name_from_data(function_data: &JsonValue) -> (r: String)
        ensures
            r@ == fname_from_data(obj_entries_of(jval(*function_data))),
    {
        match function_data.get("function") {
            Option::Some(f) => {
                match f.as_str() {
                    Option::Some(s) => s.to_owned(),
                    Option::None => "null".to_owned(),
                }
            },
            Option::None => "null".to_owned(),
        }
    }

    /// The pymodd class name for this call's tag.
    pub fn pymodd_class_name(&self, maps: &PymoddMaps) -> (r: String)
        ensures
            r@ == structure_or_undefined(maps_model(*maps).functions, self.name@).name,
    {
        let st = maps.function_structure(self.name.as_str());
        st.name
    }
}

/// Parses the arguments of one action or function object, field by field.
pub fn parse_arguments_of_object_data(maps: &PymoddMaps, object_data: &Vec<(String, JsonValue)>) -> (r:
    Vec<Argument>)
    ensures
        args_model(r@) == args_parse_entries(maps_model(*maps), jentries(object_data@)),
    decreases jsize_entries(jentries(object_data@)), 5int,
{
    let ghost m = maps_model(*maps);
    let ghost es = jentries(object_data@);
    let mut out: Vec<Argument> = Vec::new();
    let mut i: usize = 0;
    proof {
        lemma_jentries_len(object_data@);
        assert(object_data@.skip(0) =~= object_data@);
        assert(args_model(out@) + args_parse_entries(m, jentries(object_data@))
            =~= args_parse_entries(m, jentries(object_data@)));
    }
    while i < object_data.len()
        invariant
            0 <= i <= object_data@.len(),
            m == maps_model(*maps),
            es == jentries(object_data@),
            es.len() == object_data@.len(),
            args_model(out@) + args_parse_entries(m, jentries(object_data@.skip(i as int)))
                == args_parse_entries(m, es),
        decreases object_data@.len() - i,
    {
        let ghost rest = object_data@.skip(i as int);
        proof {
            lemma_jentries_len(rest);
            assert(rest[0] == object_data@[i as int]);
            assert(rest.skip(1) =~= object_data@.skip(i + 1));
            assert(jentries(rest) == seq![(rest[0].0@, jval(rest[0].1))] + jentries(rest.skip(1)));
            assert(jentries(rest)[0] == (rest[0].0@, jval(rest[0].1)));
            assert(jentries(rest).skip(1) =~= jentries(object_data@.skip(i + 1)));
            assert(args_parse_entries(m, jentries(rest)) == entry_args_spec(
                m,
                object_data@[i as int].0@,
                jval(object_data@[i as int].1),
            ) + args_parse_entries(m, jentries(object_data@.skip(i + 1))));
            lemma_jentries_index(object_data@, i as int);
            lemma_jsize_entries_index(jentries(object_data@), i as int);
        }
        let pair = &object_data[i];
        let name = pair.0.as_str();
        let value = &pair.1;
        let ghost old_out = args_model(out@);
        let ghost chunk = entry_args_spec(m, pair.0@, jval(pair.1));
        if str_eq(name, "type") || str_eq(name, "entityType") || str_eq(name, "vars") || str_eq(
            name,
            "function",
        ) || str_eq(name, "comment") || str_eq(name, "disabled") || str_eq(name, "runOnClient")
            || str_eq(name, "hasFixedCSP") {
            proof {
                assert(chunk =~= Seq::<ArgumentV>::empty());
                assert(old_out + chunk =~= old_out);
            }
        } else if str_eq(name, "items") {
            let more = parse_arguments_of_operator_data(maps, value);
            append_args(&mut out, more);
        } else if str_eq(name, "force") {
            let has_x = match value.get("x") {
                Option::Some(_) => true,
                Option::None => false,
            };
            if has_x {
                let more = parse_arguments_of_force_object_data(value);
                append_args(&mut out, more);
            } else {
                let a = Argument::parse(maps, "force", value);
                proof {
                    lemma_args_model_snoc(out@, a);
                    assert(old_out.push(arg_model(a)) =~= old_out + chunk);
                }
                out.push(a);
            }
        } else if str_eq(name, "target") && value.is_string() {
            let s = match value.as_str() {
                Option::Some(s) => s,
                Option::None => "",
            };
            let c: String = match lookup_string_map(&maps.ui_targets, s) {
                Option::Some(x) => x,
                Option::None => s.to_owned(),
            };
            let a = Argument::new("target", ArgumentValue::Constant(c));
            proof {
                lemma_args_model_snoc(out@, a);
                assert(old_out.push(arg_model(a)) =~= old_out + chunk);
            }
            out.push(a);
        } else if str_eq(name, "flip") && value.is_string() {
            let s = match value.as_str() {
                Option::Some(s) => s,
                Option::None => "",
            };
            let c: String = match lookup_string_map(&maps.flips, s) {
                Option::Some(x) => x,
                Option::None => s.to_owned(),
            };
            let a = Argument::new("flip", ArgumentValue::Constant(c));
            proof {
                lemma_args_model_snoc(out@, a);
                assert(old_out.push(arg_model(a)) =~= old_out + chunk);
            }
            out.push(a);
        } else {
            let a = Argument::parse(maps, name, value);
            proof {
                lemma_args_model_snoc(out@, a);
                assert(old_out.push(arg_model(a)) =~= old_out + chunk);
            }
            out.push(a);
        }
        proof {
            assert(args_model(out@) == old_out + chunk);
            assert(old_out + chunk + args_parse_entries(m, jentries(object_data@.skip(i + 1)))
                =~= old_out + (chunk + args_parse_entries(m, jentries(object_data@.skip(i + 1)))));
        }
        i = i + 1;
    }
    proof {
        assert(object_data@.skip(object_data@.len() as int).len() == 0);
        assert(jentries(object_data@.skip(object_data@.len() as int)).len() == 0);
        assert(args_model(out@) + Seq::<ArgumentV>::empty() =~= args_model(out@));
    }
    out
}

/// Parses the three pieces of an operator list: operands and operator.
pub fn parse_arguments_of_operator_data(maps: &PymoddMaps, operator_data: &JsonValue) -> (r: Vec<
    Argument,
>)
    ensures
        args_model(r@) == operator_args_spec(maps_model(*maps), jval(*operator_data)),
    decreases jsize(jval(*operator_data)), 1int,
{
    let mut out: Vec<Argument> = Vec::new();
    match operator_data {
        JsonValue::Arr(items) => {
            proof {
                lemma_jvals_len(items@);
            }
            let item_a: Argument = if items.len() > 1 {
                proof {
                    lemma_jvals_index(items@, 1);
                    lemma_jsize_seq_index(jvals(items@), 1);
                }
                Argument::parse(maps, "item_a", &items[1])
            } else {
                Argument::new("item_a", ArgumentValue::Value(JsonValue::Null))
            };
            let op_value: JsonValue = if items.len() > 0 {
                proof {
                    lemma_jvals_index(items@, 0);
                }
                get_or_null(&items[0], "operator")
            } else {
                JsonValue::Null
            };
            let operator = Argument::new("operator", ArgumentValue::Value(op_value));
            let item_b: Argument = if items.len() > 2 {
                proof {
                    lemma_jvals_index(items@, 2);
                    lemma_jsize_seq_index(jvals(items@), 2);
                }
                Argument::parse(maps, "item_b", &items[2])
            } else {
                Argument::new("item_b", ArgumentValue::Value(JsonValue::Null))
            };
            proof {
                lemma_args_model_snoc(out@, item_a);
            }
            out.push(item_a);
            proof {
                lemma_args_model_snoc(out@, operator);
            }
            out.push(operator);
            proof {
                lemma_args_model_snoc(out@, item_b);
            }
            out.push(item_b);
            proof {
                assert(args_model(out@) =~= operator_args_spec(
                    maps_model(*maps),
                    jval(*operator_data),
                ));
            }
        },
        _ => {
            let item_a = Argument::new("item_a", ArgumentValue::Value(JsonValue::Null));
            let operator = Argument::new("operator", ArgumentValue::Value(JsonValue::Null));
            let item_b = Argument::new("item_b", ArgumentValue::Value(JsonValue::Null));
            proof {
                lemma_args_model_snoc(out@, item_a);
            }
            out.push(item_a);
            proof {
                lemma_args_model_snoc(out@, operator);
            }
            out.push(operator);
            proof {
                lemma_args_model_snoc(out@, item_b);
            }
            out.push(item_b);
            proof {
                assert(arr_items_of(jval(*operator_data)).len() == 0);
                assert(args_model(out@) =~= operator_args_spec(
                    maps_model(*maps),
                    jval(*operator_data),
                ));
            }
        },
    }
    out
}

/// Parses the two components of a force object.
pub fn parse_arguments_of_force_object_data(force_object_data: &JsonValue) -> (r: Vec<Argument>)
    ensures
        args_model(r@) == force_args_spec(jval(*force_object_data)),
{
    let x = get_or_null(force_object_data, "x");
    let y = get_or_null(force_object_data, "y");
    let mut out: Vec<Argument> = Vec::new();
    let ax = Argument::new("x", ArgumentValue::Value(x));
    let ay = Argument::new("y", ArgumentValue::Value(y));
    proof {
        lemma_args_model_snoc(out@, ax);
    }
    out.push(ax);
    proof {
        lemma_args_model_snoc(out@, ay);
    }
    out.push(ay);
    proof {
        assert(args_model(out@) =~= force_args_spec(jval(*force_object_data)));
    }
    out
}

} // verus!
