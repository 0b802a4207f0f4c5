//! The action/argument abstract syntax tree: one script statement with its
//! nested expression calls and control-flow bodies.
//!
//! The `*V` types are the mathematical models; every contract over the tree
//! speaks of them.

use vstd::prelude::*;

use crate::document::{jval, JsonV, JsonValue};

verus! {

/// One statement of a script; control-flow bodies hang off its arguments.
#[derive(Debug, PartialEq, Eq)]
pub struct Action {
    pub name: String,
    pub args: Vec<Argument>,
    pub comment: Option<String>,
    pub ran_on_client: bool,
    pub disabled: bool,
}

/// One named argument of an action or function.
#[derive(Debug, PartialEq, Eq)]
pub struct Argument {
    pub name: String,
    pub value: ArgumentValue,
}

/// What an argument holds.
#[derive(Debug, PartialEq, Eq)]
pub enum ArgumentValue {
    /// A plain document value.
    Value(JsonValue),
    /// A nested statement list: a control-flow body.
    Actions(Vec<Action>),
    /// A nested value-producing call.
    Function(Function),
    /// An already-resolved constant reference.
    Constant(String),
}

/// A nested expression call.
#[derive(Debug, PartialEq, Eq)]
pub struct Function {
    pub name: String,
    pub args: Vec<Argument>,
}

// ---------------------------------------------------------------------------
// models
// ---------------------------------------------------------------------------

pub struct ActionV {
    pub name: Seq<char>,
    pub args: Seq<ArgumentV>,
    pub comment: Option<Seq<char>>,
    pub ran_on_client: bool,
    pub disabled: bool,
}

pub struct ArgumentV {
    pub name: Seq<char>,
    pub value: ArgV,
}

pub enum ArgV {
    Value(JsonV),
    Actions(Seq<ActionV>),
    Function(FunctionV),
    Constant(Seq<char>),
}

pub struct FunctionV {
    pub name: Seq<char>,
    pub args: Seq<ArgumentV>,
}

pub open spec fn ac_model(a: Action) -> ActionV
    decreases a,
{
    ActionV {
        name: a.name@,
        args: args_model(a.args@),
        comment: match a.comment {
            Option::Some(c) => Option::Some(c@),
            Option::None => Option::None,
        },
        ran_on_client: a.ran_on_client,
        disabled: a.disabled,
    }
}

pub open spec fn acs_model(items: Seq<Action>) -> Seq<ActionV>
    decreases items,
{
    if items.len() == 0 {
        Seq::<ActionV>::empty()
    } else {
        seq![ac_model(items[0])] + acs_model(items.skip(1))
    }
}

pub open spec fn arg_model(a: Argument) -> ArgumentV
    decreases a,
{
    ArgumentV { name: a.name@, value: argval_model(a.value) }
}

pub open spec fn args_model(items: Seq<Argument>) -> Seq<ArgumentV>
    decreases items,
{
    if items.len() == 0 {
        Seq::<ArgumentV>::empty()
    } else {
        seq![arg_model(items[0])] + args_model(items.skip(1))
    }
}

pub open spec fn argval_model(v: ArgumentValue) -> ArgV
    decreases v,
{
    match v {
        ArgumentValue::Value(j) => ArgV::Value(jval(j)),
        ArgumentValue::Actions(items) => ArgV::Actions(acs_model(items@)),
        ArgumentValue::Function(f) => ArgV::Function(func_model(f)),
        ArgumentValue::Constant(c) => ArgV::Constant(c@),
    }
}

pub open spec fn func_model(f: Function) -> FunctionV
    decreases f,
{
    FunctionV { name: f.name@, args: args_model(f.args@) }
}

pub proof fn lemma_acs_model_len(items: Seq<Action>)
    ensures
        acs_model(items).len() == items.len(),
    decreases items.len(),
{
    if items.len() > 0 {
        lemma_acs_model_len(items.skip(1));
    }
}

pub proof fn lemma_acs_model_index(items: Seq<Action>, i: int)
    requires
        0 <= i < items.len(),
    ensures
        acs_model(items).len() == items.len(),
        acs_model(items)[i] == ac_model(items[i]),
    decreases items.len(),
{
    lemma_acs_model_len(items);
    if i > 0 {
        lemma_acs_model_index(items.skip(1), i - 1);
    }
}

pub proof fn lemma_acs_model_snoc(items: Seq<Action>, x: Action)
    ensures
        acs_model(items.push(x)) == acs_model(items).push(ac_model(x)),
    decreases items.len(),
{
    if items.len() == 0 {
        assert(items.push(x)[0] == x);
        assert(items.push(x).skip(1) =~= items);
        assert(acs_model(items.push(x)) == seq![ac_model(x)] + acs_model(items));
        assert(seq![ac_model(x)] + acs_model(items) =~= acs_model(items).push(ac_model(x)));
    } else {
        lemma_acs_model_snoc(items.skip(1), x);
        assert(items.push(x)[0] == items[0]);
        assert(items.push(x).skip(1) =~= items.skip(1).push(x));
        assert(acs_model(items.push(x)) == seq![ac_model(items[0])] + acs_model(
            items.skip(1).push(x),
        ));
        assert(acs_model(items) == seq![ac_model(items[0])] + acs_model(items.skip(1)));
        assert(seq![ac_model(items[0])] + acs_model(items.skip(1)).push(ac_model(x)) =~= (seq![
            ac_model(items[0]),
        ] + acs_model(items.skip(1))).push(ac_model(x)));
    }
}

pub proof fn lemma_args_model_len(items: Seq<Argument>)
    ensures
        args_model(items).len() == items.len(),
    decreases items.len(),
{
    if items.len() > 0 {
        lemma_args_model_len(items.skip(1));
    }
}

pub proof fn lemma_args_model_index(items: Seq<Argument>, i: int)
    requires
        0 <= i < items.len(),
    ensures
        args_model(items).len() == items.len(),
        args_model(items)[i] == arg_model(items[i]),
    decreases items.len(),
{
    lemma_args_model_len(items);
    if i > 0 {
        lemma_args_model_index(items.skip(1), i - 1);
    }
}

pub proof fn lemma_args_model_snoc(items: Seq<Argument>, x: Argument)
    ensures
        args_model(items.push(x)) == args_model(items).push(arg_model(x)),
    decreases items.len(),
{
    if items.len() == 0 {
        assert(items.push(x)[0] == x);
        assert(items.push(x).skip(1) =~= items);
        assert(args_model(items.push(x)) == seq![arg_model(x)] + args_model(items));
        assert(seq![arg_model(x)] + args_model(items) =~= args_model(items).push(arg_model(x)));
    } else {
        lemma_args_model_snoc(items.skip(1), x);
        assert(items.push(x)[0] == items[0]);
        assert(items.push(x).skip(1) =~= items.skip(1).push(x));
        assert(args_model(items.push(x)) == seq![arg_model(items[0])] + args_model(
            items.skip(1).push(x),
        ));
        assert(args_model(items) == seq![arg_model(items[0])] + args_model(items.skip(1)));
        assert(seq![arg_model(items[0])] + args_model(items.skip(1)).push(arg_model(x)) =~= (seq![
            arg_model(items[0]),
        ] + args_model(items.skip(1))).push(arg_model(x)));
    }
}

// ---------------------------------------------------------------------------
// clones
// ---------------------------------------------------------------------------

impl Clone for Argument {
    /// A deep copy with the same model.
    fn clone(&self) -> (r: Self)
        ensures
            arg_model(r) == arg_model(*self),
        decreases *self,
    {
        Argument { name: self.name.clone(), value: self.value.clone() }
    }
}

impl Clone for ArgumentValue {
    /// A deep copy with the same model.
    fn clone(&self) -> (r: Self)
        ensures
            argval_model(r) == argval_model(*self),
        decreases *self,
    {
        match self {
            ArgumentValue::Value(j) => ArgumentValue::Value(j.clone()),
            ArgumentValue::Constant(c) => ArgumentValue::Constant(c.clone()),
            ArgumentValue::Function(f) => ArgumentValue::Function(f.clone()),
            ArgumentValue::Actions(items) => {
                let mut out: Vec<Action> = Vec::new();
                let mut i: usize = 0;
                while i < items.len()
                    invariant
                        0 <= i <= items@.len(),
                        *self == ArgumentValue::Actions(*items),
                        out@.len() == i,
                        acs_model(out@) =~= acs_model(items@).take(i as int),
                    decreases items@.len() - i,
                {
                    proof {
                        assert(decreases_to!(*self => self->Actions_0@[i as int])) by {
                            assert(decreases_to!(*self => self->Actions_0));
                            assert(decreases_to!(
                                self->Actions_0 => self->Actions_0@[i as int]));
                        }
                    }
                    let item = &items[i];
                    let c = item.clone();
                    proof {
                        lemma_acs_model_snoc(out@, c);
                        lemma_acs_model_index(items@, i as int);
                    }
                    out.push(c);
                    proof {
                        assert(acs_model(items@).take(i + 1) =~= acs_model(items@).take(
                            i as int,
                        ).push(acs_model(items@)[i as int]));
                    }
                    i = i + 1;
                }
                proof {
                    lemma_acs_model_len(items@);
                    assert(acs_model(items@).take(items@.len() as int) =~= acs_model(items@));
                }
                ArgumentValue::Actions(out)
            },
        }
    }
}

impl Clone for Function {
    /// A deep copy with the same model.
    fn clone(&self) -> (r: Self)
        ensures
            func_model(r) == func_model(*self),
        decreases *self,
    {
        let args = clone_args(&self.args);
        Function { name: self.name.clone(), args }
    }
}

impl Clone for Action {
    /// A deep copy with the same model.
    fn clone(&self) -> (r: Self)
        ensures
            ac_model(r) == ac_model(*self),
        decreases *self,
    {
        let args = clone_args(&self.args);
        let comment: Option<String> = match &self.comment {
            Option::Some(c) => Option::Some(c.clone()),
            Option::None => Option::None,
        };
        Action {
            name: self.name.clone(),
            args,
            comment,
            ran_on_client: self.ran_on_client,
            disabled: self.disabled,
        }
    }
}

/// A deep copy of an argument list with the same model.
pub fn clone_args(items: &Vec<Argument>) -> (r: Vec<Argument>)
    ensures
        args_model(r@) == args_model(items@),
    decreases *items,
{
    let mut out: Vec<Argument> = Vec::new();
    let mut i: usize = 0;
    while i < items.len()
        invariant
            0 <= i <= items@.len(),
            out@.len() == i,
            args_model(out@) =~= args_model(items@).take(i as int),
        decreases items@.len() - i,
    {
        proof {
            assert(decreases_to!(*items => items@[i as int]));
        }
        let item = &items[i];
        let c = item.clone();
        proof {
            lemma_args_model_snoc(out@, c);
            lemma_args_model_index(items@, i as int);
        }
        out.push(c);
        proof {
            assert(args_model(items@).take(i + 1) =~= args_model(items@).take(i as int).push(
                args_model(items@)[i as int],
            ));
        }
        i = i + 1;
    }
    proof {
        lemma_args_model_len(items@);
        assert(args_model(items@).take(items@.len() as int) =~= args_model(items@));
    }
    out
}

impl Argument {
    pub fn new(name: &str, value: ArgumentValue) -> (r: Argument)
        ensures
            arg_model(r) == (ArgumentV { name: name@, value: argval_model(value) }),
    {
        Argument { name: name.to_owned(), value }
    }
}

impl Function {
    pub fn new(name: &str, args: Vec<Argument>) -> (r: Function)
        ensures
            func_model(r) == (FunctionV { name: name@, args: args_model(args@) }),
    {
        Function { name: name.to_owned(), args }
    }
}

impl Action {
    pub fn new(
        name: &str,
        args: Vec<Argument>,
        comment: Option<&str>,
        ran_on_client: bool,
        disabled: bool,
    ) -> (r: Action)
        ensures
            ac_model(r) == (ActionV {
                name: name@,
                args: args_model(args@),
                comment: match comment {
                    Option::Some(c) => Option::Some(c@),
                    Option::None => Option::None,
                },
                ran_on_client,
                disabled,
            }),
    {
        let c: Option<String> = match comment {
            Option::Some(c) => Option::Some(c.to_owned()),
            Option::None => Option::None,
        };
        Action { name: name.to_owned(), args, comment: c, ran_on_client, disabled }
    }
}

// ---------------------------------------------------------------------------
// size of a document value, the measure the recursive parsers shrink
// ---------------------------------------------------------------------------

pub open spec fn jsize(v: JsonV) -> nat
    decreases v,
{
    match v {
        JsonV::Arr(items) => 2 + jsize_seq(items),
        JsonV::Obj(entries) => 2 + jsize_entries(entries),
        _ => 1,
    }
}

pub open spec fn jsize_seq(items: Seq<JsonV>) -> nat
    decreases items,
{
    if items.len() == 0 {
        0
    } else {
        1 + jsize(items[0]) + jsize_seq(items.skip(1))
    }
}

pub open spec fn jsize_entries(entries: Seq<(Seq<char>, JsonV)>) -> nat
    decreases entries,
{
    if entries.len() == 0 {
        0
    } else {
        1 + jsize(entries[0].1) + jsize_entries(entries.skip(1))
    }
}

pub proof fn lemma_jsize_seq_index(items: Seq<JsonV>, i: int)
    requires
        0 <= i < items.len(),
    ensures
        jsize(items[i]) < jsize_seq(items),
    decreases items.len(),
{
    if i > 0 {
        lemma_jsize_seq_index(items.skip(1), i - 1);
    }
}

pub proof fn lemma_jsize_entries_index(entries: Seq<(Seq<char>, JsonV)>, i: int)
    requires
        0 <= i < entries.len(),
    ensures
        jsize(entries[i].1) < jsize_entries(entries),
    decreases entries.len(),
{
    if i > 0 {
        lemma_jsize_entries_index(entries.skip(1), i - 1);
    }
}

// ---------------------------------------------------------------------------
// size of a statement tree, the measure the renderers shrink
// ---------------------------------------------------------------------------

pub open spec fn asize_action(a: ActionV) -> nat
    decreases a,
{
    2 + asize_args(a.args)
}

pub open spec fn asize_actions(items: Seq<ActionV>) -> nat
    decreases items,
{
    if items.len() == 0 {
        0
    } else {
        1 + asize_action(items[0]) + asize_actions(items.skip(1))
    }
}

pub open spec fn asize_arg(a: ArgumentV) -> nat
    decreases a,
{
    1 + asize_val(a.value)
}

pub open spec fn asize_args(items: Seq<ArgumentV>) -> nat
    decreases items,
{
    if items.len() == 0 {
        0
    } else {
        1 + asize_arg(items[0]) + asize_args(items.skip(1))
    }
}

pub open spec fn asize_val(v: ArgV) -> nat
    decreases v,
{
    match v {
        ArgV::Value(_) => 1,
        ArgV::Constant(_) => 1,
        ArgV::Actions(items) => 1 + asize_actions(items),
        ArgV::Function(f) => 1 + asize_func(f),
    }
}

pub open spec fn asize_func(f: FunctionV) -> nat
    decreases f,
{
    2 + asize_args(f.args)
}

pub proof fn lemma_asize_actions_index(items: Seq<ActionV>, i: int)
    requires
        0 <= i < items.len(),
    ensures
        asize_action(items[i]) < asize_actions(items),
    decreases items.len(),
{
    if i > 0 {
        lemma_asize_actions_index(items.skip(1), i - 1);
    }
}

pub proof fn lemma_asize_args_index(items: Seq<ArgumentV>, i: int)
    requires
        0 <= i < items.len(),
    ensures
        asize_arg(items[i]) < asize_args(items),
    decreases items.len(),
{
    if i > 0 {
        lemma_asize_args_index(items.skip(1), i - 1);
    }
}

// ---------------------------------------------------------------------------
// parsing statements
// ---------------------------------------------------------------------------

/// Parses a statement list, one action per item.
pub fn parse_actions(maps: &crate::to_pymodd_maps::PymoddMaps, actions_data: &Vec<JsonValue>) -> (r:
    Vec<Action>)
    ensures
        acs_model(r@) == crate::argument::actions_parse_spec(
            crate::to_pymodd_maps::maps_model(*maps),
            crate::document::jvals(actions_data@),
        ),
    decreases jsize_seq(crate::document::jvals(actions_data@)), 7int,
{
    let ghost m = crate::to_pymodd_maps::maps_model(*maps);
    let ghost items = crate::document::jvals(actions_data@);
    let mut out: Vec<Action> = Vec::new();
    let mut i: usize = 0;
    proof {
        crate::document::lemma_jvals_len(actions_data@);
        assert(items.skip(0) =~= items);
        assert(acs_model(out@) + crate::argument::actions_parse_spec(m, items)
            =~= crate::argument::actions_parse_spec(m, items));
    }
    while i < actions_data.len()
        invariant
            0 <= i <= actions_data@.len(),
            m == crate::to_pymodd_maps::maps_model(*maps),
            items == crate::document::jvals(actions_data@),
            items.len() == actions_data@.len(),
            acs_model(out@) + crate::argument::actions_parse_spec(m, items.skip(i as int))
                == crate::argument::actions_parse_spec(m, items),
        decreases actions_data@.len() - i,
    {
        let ghost rest = items.skip(i as int);
        proof {
            crate::document::lemma_jvals_index(actions_data@, i as int);
            lemma_jsize_seq_index(items, i as int);
            assert(rest[0] == items[i as int]);
            assert(rest.skip(1) =~= items.skip(i + 1));
            assert(crate::argument::actions_parse_spec(m, rest) == seq![
                crate::argument::action_parse_spec(m, rest[0]),
            ] + crate::argument::actions_parse_spec(m, rest.skip(1)));
        }
        let item = &actions_data[i];
        let ghost old_out = acs_model(out@);
        let a = Action::parse(maps, item);
        proof {
            lemma_acs_model_snoc(out@, a);
        }
        out.push(a);
        proof {
            assert(old_out.push(crate::argument::action_parse_spec(m, items[i as int])) =~= old_out
                + seq![crate::argument::action_parse_spec(m, items[i as int])]);
            assert(old_out + seq![crate::argument::action_parse_spec(m, items[i as int])]
                + crate::argument::actions_parse_spec(m, items.skip(i + 1)) =~= old_out + (seq![
                crate::argument::action_parse_spec(m, items[i as int]),
            ] + crate::argument::actions_parse_spec(m, items.skip(i + 1))));
        }
        i = i + 1;
    }
    proof {
        assert(items.skip(items.len() as int).len() == 0);
        assert(acs_model(out@) + Seq::<ActionV>::empty() =~= acs_model(out@));
    }
    out
}

impl Action {
    /// Parses one statement: tag, flags, comment, and aligned arguments.
    pub fn parse(maps: &crate::to_pymodd_maps::PymoddMaps, action_data: &JsonValue) -> (r: Action)
        ensures
            ac_model(r) == crate::argument::action_parse_spec(
                crate::to_pymodd_maps::maps_model(*maps),
                jval(*action_data),
            ),
        decreases jsize(jval(*action_data)), 6int,
    {
        let ghost m = crate::to_pymodd_maps::maps_model(*maps);
        let name: String = match action_data.get("type") {
            Option::Some(t) => match t.as_str() {
                Option::Some(s) => s.to_owned(),
                Option::None => "null".to_owned(),
            },
            Option::None => "null".to_owned(),
        };
        let comment: Option<String> = match action_data.get("comment") {
            Option::Some(c) => match c.as_str() {
                Option::Some(s) => Option::Some(s.to_owned()),
                Option::None => Option::None,
            },
            Option::None => Option::None,
        };
        let ran_on_client: bool = match action_data.get("runOnClient") {
            Option::Some(b) => match b.as_bool() {
                Option::Some(x) => x,
                Option::None => false,
            },
            Option::None => false,
        };
        let disabled: bool = match action_data.get("disabled") {
            Option::Some(b) => match b.as_bool() {
                Option::Some(x) => x,
                Option::None => false,
            },
            Option::None => false,
        };
        let empty_entries: Vec<(String, JsonValue)> = Vec::new();
        let args = match action_data {
            JsonValue::Obj(entries) => {
                proof {
                    assert(jsize_entries(crate::document::jentries(entries@)) < jsize(jval(
                        *action_data,
                    )));
                }
                crate::argument::parse_arguments_of_object_data(maps, entries)
            },
            _ => {
                proof {
                    assert(crate::document::jentries(empty_entries@)
                        =~= crate::argument::obj_entries_of(jval(*action_data)));
                }
                crate::argument::parse_arguments_of_object_data(maps, &empty_entries)
            },
        };
        let st = maps.action_structure(name.as_str());
        let aligned = crate::argument::align_arguments_with_pymodd_structure_parameters(
            args,
            &st.parameters,
        );
        Action { name, args: aligned, comment, ran_on_client, disabled }
    }

    /// The pymodd class name for this statement's tag.
    pub fn pymodd_class_name(&self, maps: &crate::to_pymodd_maps::PymoddMaps) -> (r: String)
        ensures
            r@ == crate::to_pymodd_maps::structure_or_undefined(
                crate::to_pymodd_maps::maps_model(*maps).actions,
                self.name@,
            ).name,
    {
        let st = maps.action_structure(self.name.as_str());
        st.name
    }
}

} // verus!
