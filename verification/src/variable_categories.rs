//! The categorized variable tables: thirteen fixed categories, plus the
//! umbrella category whose region and type-group variables are split out
//! into pseudo-categories of their own.

use vstd::prelude::*;

use crate::document::{jentries, jget, jval, JsonV, JsonValue, lemma_jentries_index,
    lemma_jentries_len};
use crate::text::str_eq;
use crate::utils::{enum_name_of, enum_name_spec};

verus! {

/// One game-defined variable: its stable id, display name, derived enum
/// name, and the raw fields kept for later resolution.
pub struct Variable {
    pub id: String,
    pub name: String,
    pub enum_name: String,
    pub data: Vec<(String, JsonValue)>,
}

pub struct VariableV {
    pub id: Seq<char>,
    pub name: Seq<char>,
    pub enum_name: Seq<char>,
    pub data: Seq<(Seq<char>, JsonV)>,
}

pub open spec fn var_model(v: Variable) -> VariableV {
    VariableV { id: v.id@, name: v.name@, enum_name: v.enum_name@, data: jentries(v.data@) }
}

pub open spec fn vars_model(items: Seq<Variable>) -> Seq<VariableV> {
    items.map_values(|v: Variable| var_model(v))
}

impl Variable {
    /// Builds a variable; the enum name derives from the display name.
    pub fn new(id: &str, name: &str, data: Vec<(String, JsonValue)>) -> (r: Variable)
        ensures
            var_model(r) == (VariableV {
                id: id@,
                name: name@,
                enum_name: enum_name_spec(name@),
                data: jentries(data@),
            }),
    {
        let enum_name = enum_name_of(name);
        Variable { id: id.to_owned(), name: name.to_owned(), enum_name, data }
    }

    /// The enum identifier this variable is referred to by.
    pub fn enum_name(&self) -> (r: String)
        ensures
            r@ == var_model(*self).enum_name,
    {
        self.enum_name.clone()
    }

    /// The raw field under `key`, when present.
    pub fn get_key(&self, key: &str) -> (r: Option<&JsonValue>)
        ensures
            match r {
                Option::Some(v) => crate::document::jget_entries(var_model(*self).data, key@)
                    == Option::Some(jval(*v)),
                Option::None => crate::document::jget_entries(var_model(*self).data, key@)
                    is None,
            },
    {
        let ghost dv = var_model(*self).data;
        let mut i: usize = 0;
        proof {
            lemma_jentries_len(self.data@);
            assert(dv.skip(0) =~= dv);
        }
        while i < self.data.len()
            invariant
                0 <= i <= self.data@.len(),
                dv == var_model(*self).data,
                dv.len() == self.data@.len(),
                crate::document::jget_entries(dv.skip(i as int), key@)
                    == crate::document::jget_entries(dv, key@),
            decreases self.data@.len() - i,
        {
            proof {
                lemma_jentries_index(self.data@, i as int);
                assert(dv.skip(i as int)[0] == dv[i as int]);
                assert(dv.skip(i as int).skip(1) =~= dv.skip(i + 1));
            }
            let pair = &self.data[i];
            if str_eq(pair.0.as_str(), key) {
                return Option::Some(&pair.1);
            }
            i = i + 1;
        }
        proof {
            assert(dv.skip(dv.len() as int).len() == 0);
        }
        Option::None
    }

    /// The variable's data type: its non-empty `dataType` string field.
    pub fn data_type(&self) -> (r: Option<String>)
        ensures
            match r {
                Option::Some(s) => data_type_spec(var_model(*self)) == Option::Some(s@),
                Option::None => data_type_spec(var_model(*self)) is None,
            },
    {
        match self.get_key("dataType") {
            Option::Some(v) => match v.as_str() {
                Option::Some(s) => {
                    if s.unicode_len() > 0 {
                        Option::Some(s.to_owned())
                    } else {
                        Option::None
                    }
                },
                Option::None => Option::None,
            },
            Option::None => Option::None,
        }
    }
}

/// The non-empty `dataType` string of a variable.
pub open spec fn data_type_spec(v: VariableV) -> Option<Seq<char>> {
    match crate::document::jget_entries(v.data, "dataType"@) {
        Option::Some(JsonV::Str(s)) => if s.len() > 0 {
            Option::Some(s)
        } else {
            Option::None
        },
        _ => Option::None,
    }
}

/// A deep copy of a variable with the same model.
impl Clone for Variable {
    fn clone(&self) -> (r: Self)
        ensures
            var_model(r) == var_model(*self),
    {
        let mut data: Vec<(String, JsonValue)> = Vec::new();
        let mut i: usize = 0;
        proof {
            lemma_jentries_len(self.data@);
        }
        while i < self.data.len()
            invariant
                0 <= i <= self.data@.len(),
                jentries(self.data@).len() == self.data@.len(),
                data@.len() == i,
                forall|k: int|
                    0 <= k < i ==> (#[trigger] data@[k]).0@ == self.data@[k].0@ && jval(
                        data@[k].1,
                    ) == jval(self.data@[k].1),
            decreases self.data@.len() - i,
        {
            let pair = &self.data[i];
            data.push((pair.0.clone(), pair.1.clone()));
            i = i + 1;
        }
        proof {
            lemma_jentries_len(data@);
            assert forall|k: int| 0 <= k < data@.len() implies #[trigger] jentries(data@)[k]
                == jentries(self.data@)[k] by {
                lemma_jentries_index(data@, k);
                lemma_jentries_index(self.data@, k);
            }
            assert(jentries(data@) =~= jentries(self.data@));
        }
        Variable {
            id: self.id.clone(),
            name: self.name.clone(),
            enum_name: self.enum_name.clone(),
            data,
        }
    }
}

// ---------------------------------------------------------------------------
// parsing one category
// ---------------------------------------------------------------------------

/// The variable one table entry yields: the entry's key is the id, the
/// display name its `name` field or the id itself.
pub open spec fn var_from_entry(id: Seq<char>, v: JsonV) -> VariableV {
    let name = match jget(v, "name"@) {
        Option::Some(JsonV::Str(s)) => s,
        _ => id,
    };
    VariableV {
        id,
        name,
        enum_name: enum_name_spec(name),
        data: match v {
            JsonV::Obj(entries) => entries,
            _ => Seq::<(Seq<char>, JsonV)>::empty(),
        },
    }
}

/// The variables of one raw category table, in entry order.
pub open spec fn vars_from_category_spec(v: JsonV) -> Seq<VariableV> {
    match v {
        JsonV::Obj(entries) => entries.map_values(|e: (Seq<char>, JsonV)| var_from_entry(e.0, e.1)),
        _ => Seq::<VariableV>::empty(),
    }
}

pub fn variables_from_category_data(category_data: &JsonValue) -> (r: Vec<Variable>)
    ensures
        vars_model(r@) == vars_from_category_spec(jval(*category_data)),
{
    let mut out: Vec<Variable> = Vec::new();
    match category_data.as_object() {
        Option::Some(entries) => {
            let mut i: usize = 0;
            proof {
                lemma_jentries_len(entries@);
            }
            while i < entries.len()
                invariant
                    0 <= i <= entries@.len(),
                    jval(*category_data) == JsonV::Obj(jentries(entries@)),
                    jentries(entries@).len() == entries@.len(),
                    out@.len() == i,
                    forall|k: int|
                        0 <= k < i ==> var_model(#[trigger] out@[k]) == var_from_entry(
                            jentries(entries@)[k].0,
                            jentries(entries@)[k].1,
                        ),
                decreases entries@.len() - i,
            {
                proof {
                    lemma_jentries_index(entries@, i as int);
                }
                let pair = &entries[i];
                let name: String = match pair.1.get("name") {
                    Option::Some(n) => match n.as_str() {
                        Option::Some(s) => s.to_owned(),
                        Option::None => pair.0.clone(),
                    },
                    Option::None => pair.0.clone(),
                };
                let data: Vec<(String, JsonValue)> = match pair.1.as_object() {
                    Option::Some(d) => {
                        let mut copy: Vec<(String, JsonValue)> = Vec::new();
                        let mut t: usize = 0;
                        proof {
                            lemma_jentries_len(d@);
                        }
                        while t < d.len()
                            invariant
                                0 <= t <= d@.len(),
                                jentries(d@).len() == d@.len(),
                                copy@.len() == t,
                                forall|k: int|
                                    0 <= k < t ==> (#[trigger] copy@[k]).0@ == d@[k].0@ && jval(
                                        copy@[k].1,
                                    ) == jval(d@[k].1),
                            decreases d@.len() - t,
                        {
                            let p2 = &d[t];
                            copy.push((p2.0.clone(), p2.1.clone()));
                            t = t + 1;
                        }
                        proof {
                            lemma_jentries_len(copy@);
                            assert forall|k: int| 0 <= k < copy@.len() implies #[trigger] jentries(
                                copy@,
                            )[k] == jentries(d@)[k] by {
                                lemma_jentries_index(copy@, k);
                                lemma_jentries_index(d@, k);
                            }
                            assert(jentries(copy@) =~= jentries(d@));
                        }
                        copy
                    },
                    Option::None => Vec::new(),
                };
                proof {
                    if !(jval(pair.1) is Obj) {
                        assert(jentries(Seq::<(String, JsonValue)>::empty())
                            =~= Seq::<(Seq<char>, JsonV)>::empty());
                    }
                }
                let v = Variable::new(pair.0.as_str(), name.as_str(), data);
                out.push(v);
                i = i + 1;
            }
        },
        Option::None => {},
    }
    proof {
        assert forall|k: int| 0 <= k < out@.len() implies #[trigger] vars_model(out@)[k]
            == vars_from_category_spec(jval(*category_data))[k] by {}
        assert(vars_model(out@) =~= vars_from_category_spec(jval(*category_data)));
    }
    out
}

// ---------------------------------------------------------------------------
// enum-name deduplication inside one category
// ---------------------------------------------------------------------------

/// The dedup walk over a flat variable list: the first use of an enum name
/// keeps it, later uses get `_1`, `_2`, … in list order.
pub open spec fn dedup_vars_spec(items: Seq<VariableV>, c: Seq<(Seq<char>, nat)>) -> (Seq<
    VariableV,
>, Seq<(Seq<char>, nat)>)
    decreases items.len(),
{
    if items.len() == 0 {
        (Seq::<VariableV>::empty(), c)
    } else {
        let v = items[0];
        let renamed = match crate::directory::counts_get(c, v.enum_name) {
            Option::Some(n) => v.enum_name + seq!['_'] + crate::text::dec_spec(n),
            Option::None => v.enum_name,
        };
        let c2 = crate::directory::counts_bump(c, v.enum_name);
        let r = dedup_vars_spec(items.skip(1), c2);
        (seq![VariableV { enum_name: renamed, ..v }] + r.0, r.1)
    }
}

/// Resolves duplicate enum names within one category's variable list.
pub fn resolve_duplicate_variable_enum_names(variables: Vec<Variable>) -> (r: Vec<Variable>)
    requires
        variables@.len() < 0xffff_ffff,
    ensures
        vars_model(r@) == dedup_vars_spec(
            vars_model(variables@),
            Seq::<(Seq<char>, nat)>::empty(),
        ).0,
{
    let ghost iv = vars_model(variables@);
    let mut counts: Vec<(String, u64)> = Vec::new();
    let mut out: Vec<Variable> = Vec::new();
    let mut i: usize = 0;
    proof {
        assert(crate::directory::counts_model(counts@) =~= Seq::<(Seq<char>, nat)>::empty());
        assert(iv.skip(0) =~= iv);
        assert(vars_model(out@) + dedup_vars_spec(iv, Seq::<(Seq<char>, nat)>::empty()).0
            =~= dedup_vars_spec(iv, Seq::<(Seq<char>, nat)>::empty()).0);
    }
    while i < variables.len()
        invariant
            0 <= i <= variables@.len(),
            variables@.len() < 0xffff_ffff,
            iv == vars_model(variables@),
            iv.len() == variables@.len(),
            out@.len() == i,
            crate::directory::counts_sum(crate::directory::counts_model(counts@)) <= i,
            vars_model(out@) + dedup_vars_spec(
                iv.skip(i as int),
                crate::directory::counts_model(counts@),
            ).0 == dedup_vars_spec(iv, Seq::<(Seq<char>, nat)>::empty()).0,
            dedup_vars_spec(iv.skip(i as int), crate::directory::counts_model(counts@)).1
                == dedup_vars_spec(iv, Seq::<(Seq<char>, nat)>::empty()).1,
        decreases variables@.len() - i,
    {
        let ghost rest = iv.skip(i as int);
        let ghost cpre = crate::directory::counts_model(counts@);
        proof {
            assert(rest[0] == iv[i as int]);
            assert(rest.skip(1) =~= iv.skip(i + 1));
            assert(iv[i as int] == var_model(variables@[i as int]));
        }
        let v = variables[i].clone();
        let renamed: String = match crate::directory::exec_counts_get(
            &counts,
            v.enum_name.as_str(),
        ) {
            Option::Some(n) => {
                let mut s = v.enum_name.clone();
                s.append("_");
                let digits = crate::text::u64_to_string(n);
                s.append(digits.as_str());
                proof {
                    reveal_strlit("_");
                    assert(("_")@ =~= seq!['_']);
                }
                s
            },
            Option::None => v.enum_name.clone(),
        };
        crate::directory::exec_counts_bump(&mut counts, v.enum_name.as_str());
        proof {
            crate::directory::lemma_counts_bump_sum(cpre, var_model(
                variables@[i as int],
            ).enum_name);
        }
        let nv = Variable { id: v.id, name: v.name, enum_name: renamed, data: v.data };
        let ghost old_out = vars_model(out@);
        out.push(nv);
        proof {
            let step_renamed = match crate::directory::counts_get(
                cpre,
                iv[i as int].enum_name,
            ) {
                Option::Some(n) => iv[i as int].enum_name + seq!['_'] + crate::text::dec_spec(n),
                Option::None => iv[i as int].enum_name,
            };
            assert(dedup_vars_spec(rest, cpre).0 == seq![
                VariableV { enum_name: step_renamed, ..iv[i as int] },
            ] + dedup_vars_spec(iv.skip(i + 1), crate::directory::counts_bump(
                cpre,
                iv[i as int].enum_name,
            )).0);
            assert(vars_model(out@) =~= old_out.push(
                VariableV { enum_name: step_renamed, ..iv[i as int] },
            ));
            assert(vars_model(out@) + dedup_vars_spec(
                iv.skip(i + 1),
                crate::directory::counts_model(counts@),
            ).0 =~= old_out + dedup_vars_spec(rest, cpre).0);
        }
        i = i + 1;
    }
    proof {
        assert(iv.skip(iv.len() as int).len() == 0);
        assert(vars_model(out@) + Seq::<VariableV>::empty() =~= vars_model(out@));
    }
    out
}

// ---------------------------------------------------------------------------
// the categorized tables
// ---------------------------------------------------------------------------

/// Every category, in the order the generated files list them.
pub open spec fn iteration_order() -> Seq<Seq<char>> {
    seq![
        "itemTypes"@,
        "projectileTypes"@,
        "unitTypes"@,
        "playerTypes"@,
        "itemTypeGroups"@,
        "unitTypeGroups"@,
        "variables"@,
        "entityTypeVariables"@,
        "playerTypeVariables"@,
        "regions"@,
        "shops"@,
        "dialogues"@,
        "music"@,
        "sound"@,
        "states"@,
        "animationTypes"@,
        "attributeTypes"@,
    ]
}

/// The thirteen categories the raw document stores under their own names.
pub open spec fn is_fixed_category(c: Seq<char>) -> bool {
    c == "animationTypes"@ || c == "attributeTypes"@ || c == "dialogues"@ || c
        == "entityTypeVariables"@ || c == "itemTypes"@ || c == "music"@ || c == "projectileTypes"@
        || c == "playerTypes"@ || c == "playerTypeVariables"@ || c == "shops"@ || c == "sound"@
        || c == "states"@ || c == "unitTypes"@
}

/// The pseudo-category a variable of the umbrella table belongs to: its
/// data type plus an `s` when that names a split-out category, the
/// umbrella itself otherwise.
pub open spec fn sep_target(v: VariableV) -> Seq<char> {
    let dt = match data_type_spec(v) {
        Option::Some(d) => d,
        Option::None => Seq::<char>::empty(),
    };
    let plural = dt + seq!['s'];
    if plural == "regions"@ {
        "regions"@
    } else if plural == "itemTypeGroups"@ {
        "itemTypeGroups"@
    } else if plural == "unitTypeGroups"@ {
        "unitTypeGroups"@
    } else {
        "variables"@
    }
}

/// The umbrella variables that belong to the given pseudo-category.
pub open spec fn sep_filter(vars: Seq<VariableV>, cat: Seq<char>) -> Seq<VariableV>
    decreases vars.len(),
{
    if vars.len() == 0 {
        Seq::<VariableV>::empty()
    } else if sep_target(vars[0]) == cat {
        seq![vars[0]] + sep_filter(vars.skip(1), cat)
    } else {
        sep_filter(vars.skip(1), cat)
    }
}

pub proof fn lemma_sep_filter_snoc(vars: Seq<VariableV>, cat: Seq<char>, x: VariableV)
    ensures
        sep_target(x) == cat ==> sep_filter(vars.push(x), cat) == sep_filter(vars, cat).push(x),
        sep_target(x) != cat ==> sep_filter(vars.push(x), cat) == sep_filter(vars, cat),
    decreases vars.len(),
{
    if vars.len() == 0 {
        assert(vars.push(x)[0] == x);
        assert(vars.push(x).skip(1) =~= vars);
        if sep_target(x) == cat {
            assert(sep_filter(vars.push(x), cat) == seq![x] + sep_filter(vars, cat));
            assert(seq![x] + sep_filter(vars, cat) =~= sep_filter(vars, cat).push(x));
        }
    } else {
        lemma_sep_filter_snoc(vars.skip(1), cat, x);
        assert(vars.push(x)[0] == vars[0]);
        assert(vars.push(x).skip(1) =~= vars.skip(1).push(x));
        if sep_target(vars[0]) == cat {
            assert(sep_filter(vars.push(x), cat) == seq![vars[0]] + sep_filter(
                vars.skip(1).push(x),
                cat,
            ));
            assert(sep_filter(vars, cat) == seq![vars[0]] + sep_filter(vars.skip(1), cat));
            if sep_target(x) == cat {
                assert(seq![vars[0]] + sep_filter(vars.skip(1), cat).push(x) =~= (seq![vars[0]]
                    + sep_filter(vars.skip(1), cat)).push(x));
            }
        } else {
            assert(sep_filter(vars.push(x), cat) == sep_filter(vars.skip(1).push(x), cat));
            assert(sep_filter(vars, cat) == sep_filter(vars.skip(1), cat));
        }
    }
}

/// The umbrella table's variables, in entry order, not deduplicated.
pub open spec fn umbrella_vars(dv: JsonV) -> Seq<VariableV> {
    match jget(dv, "variables"@) {
        Option::Some(x) => vars_from_category_spec(x),
        Option::None => Seq::<VariableV>::empty(),
    }
}

/// The final variable list of one category.
pub open spec fn category_list_spec(dv: JsonV, c: Seq<char>) -> Seq<VariableV> {
    if is_fixed_category(c) {
        match jget(dv, c) {
            Option::Some(x) => dedup_vars_spec(
                vars_from_category_spec(x),
                Seq::<(Seq<char>, nat)>::empty(),
            ).0,
            Option::None => Seq::<VariableV>::empty(),
        }
    } else {
        sep_filter(umbrella_vars(dv), c)
    }
}

/// Every category table is small enough to process.
pub open spec fn tables_bounded(dv: JsonV) -> bool {
    forall|c: Seq<char>|
        #[trigger] is_fixed_category(c) ==> (match jget(dv, c) {
            Option::Some(x) => vars_from_category_spec(x).len() < 0xffff_ffff,
            Option::None => true,
        })
}

/// All final categories with their variables, in iteration order.
pub struct CategoriesToVariables {
    pub categories_to_variables: Vec<(String, Vec<Variable>)>,
}

pub open spec fn cats_model(v: Seq<(String, Vec<Variable>)>) -> Seq<(Seq<char>, Seq<VariableV>)> {
    v.map_values(|p: (String, Vec<Variable>)| (p.0@, vars_model(p.1@)))
}

/// The parsed category tables, one entry per category in iteration order.
pub open spec fn categories_parse_spec(dv: JsonV) -> Seq<(Seq<char>, Seq<VariableV>)> {
    iteration_order().map_values(|c: Seq<char>| (c, category_list_spec(dv, c)))
}

/// The first variable with the given id, with its category.
pub open spec fn find_var_in_list(vars: Seq<VariableV>, id: Seq<char>) -> Option<VariableV>
    decreases vars.len(),
{
    if vars.len() == 0 {
        Option::None
    } else if vars[0].id == id {
        Option::Some(vars[0])
    } else {
        find_var_in_list(vars.skip(1), id)
    }
}

pub open spec fn find_var_spec(cats: Seq<(Seq<char>, Seq<VariableV>)>, id: Seq<char>) -> Option<
    (Seq<char>, VariableV),
>
    decreases cats.len(),
{
    if cats.len() == 0 {
        Option::None
    } else {
        match find_var_in_list(cats[0].1, id) {
            Option::Some(v) => Option::Some((cats[0].0, v)),
            Option::None => find_var_spec(cats.skip(1), id),
        }
    }
}

impl CategoriesToVariables {
    pub fn new(categories_to_variables: Vec<(String, Vec<Variable>)>) -> (r:
        CategoriesToVariables)
        ensures
            cats_model(r.categories_to_variables@) == cats_model(categories_to_variables@),
    {
        CategoriesToVariables { categories_to_variables }
    }

    /// Parses every category table of the document's data object.
    pub fn parse(game_data: &JsonValue) -> (r: CategoriesToVariables)
        requires
            tables_bounded(jval(*game_data)),
        ensures
            cats_model(r.categories_to_variables@) == categories_parse_spec(jval(*game_data)),
    {
        let names: Vec<&str> = vec![
            "itemTypes",
            "projectileTypes",
            "unitTypes",
            "playerTypes",
            "itemTypeGroups",
            "unitTypeGroups",
            "variables",
            "entityTypeVariables",
            "playerTypeVariables",
            "regions",
            "shops",
            "dialogues",
            "music",
            "sound",
            "states",
            "animationTypes",
            "attributeTypes",
        ];
        proof {
            assert(names@.map_values(|x: &str| x@) =~= iteration_order());
        }
        let mut out: Vec<(String, Vec<Variable>)> = Vec::new();
        let mut i: usize = 0;
        while i < names.len()
            invariant
                0 <= i <= names@.len(),
                names@.map_values(|x: &str| x@) == iteration_order(),
                names@.len() == 17,
                tables_bounded(jval(*game_data)),
                out@.len() == i,
                forall|k: int|
                    0 <= k < i ==> #[trigger] cats_model(out@)[k] == categories_parse_spec(
                        jval(*game_data),
                    )[k],
            decreases names@.len() - i,
        {
            let name = names[i];
            let is_fixed = str_eq(name, "itemTypes") || str_eq(name, "projectileTypes") || str_eq(
                name,
                "unitTypes",
            ) || str_eq(name, "playerTypes") || str_eq(name, "entityTypeVariables") || str_eq(
                name,
                "playerTypeVariables",
            ) || str_eq(name, "shops") || str_eq(name, "dialogues") || str_eq(name, "music")
                || str_eq(name, "sound") || str_eq(name, "states") || str_eq(
                name,
                "animationTypes",
            ) || str_eq(name, "attributeTypes");
            proof {
                assert(is_fixed == is_fixed_category(name@));
            }
            let list: Vec<Variable> = if is_fixed {
                match game_data.get(name) {
                    Option::Some(table) => {
                        let vars = variables_from_category_data(table);
                        proof {
                            assert(is_fixed_category(name@));
                        }
                        resolve_duplicate_variable_enum_names(vars)
                    },
                    Option::None => {
                        let empty: Vec<Variable> = Vec::new();
                        proof {
                            assert(vars_model(empty@) =~= Seq::<VariableV>::empty());
                        }
                        empty
                    },
                }
            } else {
                // a pseudo-category, filtered out of the umbrella table
                let umbrella: Vec<Variable> = match game_data.get("variables") {
                    Option::Some(table) => variables_from_category_data(table),
                    Option::None => Vec::new(),
                };
                let ghost uv = umbrella_vars(jval(*game_data));
                proof {
                    if umbrella@.len() == 0 {
                        assert(vars_model(umbrella@) =~= Seq::<VariableV>::empty());
                    }
                    assert(vars_model(umbrella@) == uv);
                }
                let mut kept: Vec<Variable> = Vec::new();
                let mut t: usize = 0;
                proof {
                    assert(uv.take(0) =~= Seq::<VariableV>::empty());
                    assert(vars_model(kept@) =~= sep_filter(uv.take(0), name@));
                }
                while t < umbrella.len()
                    invariant
                        0 <= t <= umbrella@.len(),
                        uv == vars_model(umbrella@),
                        uv.len() == umbrella@.len(),
                        vars_model(kept@) == sep_filter(uv.take(t as int), name@),
                    decreases umbrella@.len() - t,
                {
                    let v = &umbrella[t];
                    proof {
                        lemma_sep_filter_snoc(uv.take(t as int), name@, uv[t as int]);
                        assert(uv.take(t as int).push(uv[t as int]) =~= uv.take(t + 1));
                        assert(uv[t as int] == var_model(umbrella@[t as int]));
                    }
                    let dt: String = match v.data_type() {
                        Option::Some(d) => d,
                        Option::None => String::new(),
                    };
                    let mut plural = dt;
                    plural.append("s");
                    proof {
                        reveal_strlit("s");
                        assert(("s")@ =~= seq!['s']);
                    }
                    let target: &str = if str_eq(plural.as_str(), "regions") {
                        "regions"
                    } else if str_eq(plural.as_str(), "itemTypeGroups") {
                        "itemTypeGroups"
                    } else if str_eq(plural.as_str(), "unitTypeGroups") {
                        "unitTypeGroups"
                    } else {
                        "variables"
                    };
                    proof {
                        assert(target@ == sep_target(uv[t as int]));
                    }
                    if str_eq(target, name) {
                        let ghost prev = vars_model(kept@);
                        let c = v.clone();
                        kept.push(c);
                        proof {
                            assert(vars_model(kept@) =~= prev.push(uv[t as int]));
                        }
                    }
                    t = t + 1;
                }
                proof {
                    assert(uv.take(uv.len() as int) =~= uv);
                    assert(!is_fixed_category(name@));
                }
                kept
            };
            let ghost prev_out = cats_model(out@);
            proof {
                if vars_model(list@).len() == 0 {
                    assert(vars_model(list@) =~= Seq::<VariableV>::empty());
                }
                assert(vars_model(list@) == category_list_spec(jval(*game_data), name@));
            }
            out.push((name.to_owned(), list));
            proof {
                assert(cats_model(out@) =~= prev_out.push(
                    (name@, category_list_spec(jval(*game_data), name@)),
                ));
                assert(categories_parse_spec(jval(*game_data))[i as int] == (
                    iteration_order()[i as int],
                    category_list_spec(jval(*game_data), iteration_order()[i as int]),
                ));
                assert(iteration_order()[i as int] == name@);
            }
            i = i + 1;
        }
        proof {
            assert(cats_model(out@) =~= categories_parse_spec(jval(*game_data)));
        }
        CategoriesToVariables { categories_to_variables: out }
    }

    /// The first category/variable pair whose variable has the given id.
    pub fn find_categoried_variable_with_id<'a>(&'a self, variable_id: &str) -> (r: Option<
        (&'a String, &'a Variable),
    >)
        ensures
            match r {
                Option::Some(p) => find_var_spec(cats_model(self.categories_to_variables@),
                    variable_id@) == Option::Some((p.0@, var_model(*p.1))),
                Option::None => find_var_spec(
                    cats_model(self.categories_to_variables@),
                    variable_id@,
                ) is None,
            },
    {
        let ghost cm = cats_model(self.categories_to_variables@);
        let mut i: usize = 0;
        proof {
            assert(cm.skip(0) =~= cm);
        }
        while i < self.categories_to_variables.len()
            invariant
                0 <= i <= self.categories_to_variables@.len(),
                cm == cats_model(self.categories_to_variables@),
                cm.len() == self.categories_to_variables@.len(),
                find_var_spec(cm.skip(i as int), variable_id@) == find_var_spec(cm, variable_id@),
            decreases self.categories_to_variables@.len() - i,
        {
            proof {
                assert(cm.skip(i as int)[0] == cm[i as int]);
                assert(cm.skip(i as int).skip(1) =~= cm.skip(i + 1));
            }
            let pair = &self.categories_to_variables[i];
            let vars = &pair.1;
            let ghost vm = vars_model(vars@);
            let mut t: usize = 0;
            proof {
                assert(vm.skip(0) =~= vm);
                assert(cm[i as int] == (pair.0@, vm));
            }
            while t < vars.len()
                invariant
                    0 <= t <= vars@.len(),
                    0 <= i < cm.len(),
                    cm == cats_model(self.categories_to_variables@),
                    cm.len() == self.categories_to_variables@.len(),
                    vm == vars_model(vars@),
                    vm.len() == vars@.len(),
                    cm[i as int] == (pair.0@, vm),
                    find_var_spec(cm.skip(i as int), variable_id@) == find_var_spec(
                        cm,
                        variable_id@,
                    ),
                    find_var_in_list(vm.skip(t as int), variable_id@) == find_var_in_list(
                        vm,
                        variable_id@,
                    ),
                decreases vars@.len() - t,
            {
                proof {
                    assert(vm.skip(t as int)[0] == vm[t as int]);
                    assert(vm.skip(t as int).skip(1) =~= vm.skip(t + 1));
                }
                let v = &vars[t];
                if str_eq(v.id.as_str(), variable_id) {
                    proof {
                        assert(find_var_in_list(vm, variable_id@) == Option::Some(vm[t as int]));
                        assert(cm.skip(i as int)[0] == cm[i as int]);
                        assert(find_var_spec(cm.skip(i as int), variable_id@) == Option::Some(
                            (cm[i as int].0, vm[t as int]),
                        ));
                        assert(vm[t as int] == var_model(vars@[t as int]));
                    }
                    return Option::Some((&pair.0, v));
                }
                t = t + 1;
            }
            proof {
                assert(vm.skip(vm.len() as int).len() == 0);
                assert(find_var_in_list(cm[i as int].1, variable_id@) is None);
            }
            i = i + 1;
        }
        proof {
            assert(cm.skip(cm.len() as int).len() == 0);
        }
        Option::None
    }

    /// The categories in iteration order, with their variables.
    pub fn iter<'a>(&'a self) -> (r: &'a Vec<(String, Vec<Variable>)>)
        ensures
            cats_model(r@) == cats_model(self.categories_to_variables@),
    {
        &self.categories_to_variables
    }
}

} // verus!
