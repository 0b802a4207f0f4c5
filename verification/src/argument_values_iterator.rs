//! The traversal of one action's argument tree: a pre-order event stream
//! over nested calls, with operator calls reinterpreted as infix
//! operations.

use vstd::prelude::*;

use crate::actions::{
    ac_model, acs_model, arg_model, args_model, argval_model, asize_arg, asize_args, asize_func,
    asize_val, func_model, lemma_args_model_index, lemma_args_model_len, lemma_asize_args_index,
    Action, ActionV, ArgV, Argument, ArgumentV, ArgumentValue, Function, FunctionV,
};
use crate::argument::find_arg_spec;
use crate::document::{jval, JsonV, JsonValue};
use crate::text::str_eq;

verus! {

/// The reconstructed infix view of an operator call.
#[derive(Debug, PartialEq, Eq)]
pub struct Operation {
    pub item_a: Argument,
    pub operator: Argument,
    pub item_b: Argument,
}

pub struct OperationV {
    pub item_a: ArgumentV,
    pub operator: ArgumentV,
    pub item_b: ArgumentV,
}

pub open spec fn op_model(op: Operation) -> OperationV {
    OperationV {
        item_a: arg_model(op.item_a),
        operator: arg_model(op.operator),
        item_b: arg_model(op.item_b),
    }
}

/// The value of the named argument, null when absent.
pub open spec fn found_value(f: FunctionV, name: Seq<char>) -> ArgV {
    match find_arg_spec(f.args, name) {
        Option::Some(a) => a.value,
        Option::None => ArgV::Value(JsonV::Null),
    }
}

/// The infix view of the four operator tags; `None` for any other call,
/// and for an operator call whose argument list is too short to read.
pub open spec fn op_from_function_spec(f: FunctionV) -> Option<OperationV> {
    if f.name == "calculate"@ || f.name == "condition"@ {
        if f.args.len() >= 3 {
            Option::Some(OperationV { item_a: f.args[0], operator: f.args[1], item_b: f.args[2] })
        } else {
            Option::None
        }
    } else if f.name == "getExponent"@ {
        Option::Some(
            OperationV {
                item_a: ArgumentV { name: "item_a"@, value: found_value(f, "base"@) },
                operator: ArgumentV { name: "operator"@, value: ArgV::Value(JsonV::Str("**"@)) },
                item_b: ArgumentV { name: "item_b"@, value: found_value(f, "power"@) },
            },
        )
    } else if f.name == "concat"@ {
        Option::Some(
            OperationV {
                item_a: ArgumentV { name: "item_a"@, value: found_value(f, "textA"@) },
                operator: ArgumentV { name: "operator"@, value: ArgV::Value(JsonV::Str("+"@)) },
                item_b: ArgumentV { name: "item_b"@, value: found_value(f, "textB"@) },
            },
        )
    } else {
        Option::None
    }
}

impl Operation {
    /// Reads the infix view off the four operator tags.
    pub fn from_function(function: &Function) -> (r: Option<Operation>)
        ensures
            match r {
                Option::Some(op) => op_from_function_spec(func_model(*function))
                    == Option::Some(op_model(op)),
                Option::None => op_from_function_spec(func_model(*function)) is None,
            },
    {
        proof {
            lemma_args_model_len(function.args@);
        }
        if str_eq(function.name.as_str(), "calculate") || str_eq(
            function.name.as_str(),
            "condition",
        ) {
            if function.args.len() >= 3 {
                proof {
                    lemma_args_model_index(function.args@, 0);
                    lemma_args_model_index(function.args@, 1);
                    lemma_args_model_index(function.args@, 2);
                }
                let item_a = function.args[0].clone();
                let operator = function.args[1].clone();
                let item_b = function.args[2].clone();
                Option::Some(Operation { item_a, operator, item_b })
            } else {
                Option::None
            }
        } else if str_eq(function.name.as_str(), "getExponent") {
            let base = Self::found_arg(function, "base");
            let power = Self::found_arg(function, "power");
            let item_a = Argument::new("item_a", base);
            let operator = Argument::new(
                "operator",
                ArgumentValue::Value(JsonValue::Str("**".to_owned())),
            );
            let item_b = Argument::new("item_b", power);
            Option::Some(Operation { item_a, operator, item_b })
        } else if str_eq(function.name.as_str(), "concat") {
            let ta = Self::found_arg(function, "textA");
            let tb = Self::found_arg(function, "textB");
            let item_a = Argument::new("item_a", ta);
            let operator = Argument::new(
                "operator",
                ArgumentValue::Value(JsonValue::Str("+".to_owned())),
            );
            let item_b = Argument::new("item_b", tb);
            Option::Some(Operation { item_a, operator, item_b })
        } else {
            Option::None
        }
    }

    /// The value of the named argument, null when absent.
    fn found_arg(function: &Function, name: &str) -> (r: ArgumentValue)
        ensures
            argval_model(r) == found_value(func_model(*function), name@),
    {
        match function.find_argument_with_name(name) {
            Option::Some(a) => a.value.clone(),
            Option::None => ArgumentValue::Value(JsonValue::Null),
        }
    }
}

/// One event of the argument traversal.
#[derive(Debug, PartialEq, Eq)]
pub enum ArgumentValueIterItem<'a> {
    StartOfFunction(&'a Function),
    Actions(&'a Vec<Action>),
    Value(&'a JsonValue),
    Constant(&'a String),
    Condition(Operation),
    Concatenation(Operation),
    Calculation(Operation),
    ScriptKey(&'a String),
    FunctionEnd,
}

/// The model of one traversal event.
pub enum ArgEventV {
    Start(FunctionV),
    Actions(Seq<ActionV>),
    Value(JsonV),
    Constant(Seq<char>),
    Condition(OperationV),
    Concatenation(OperationV),
    Calculation(OperationV),
    ScriptKey(Seq<char>),
    End,
}

pub open spec fn event_model(e: ArgumentValueIterItem) -> ArgEventV {
    match e {
        ArgumentValueIterItem::StartOfFunction(f) => ArgEventV::Start(func_model(*f)),
        ArgumentValueIterItem::Actions(items) => ArgEventV::Actions(acs_model(items@)),
        ArgumentValueIterItem::Value(v) => ArgEventV::Value(jval(*v)),
        ArgumentValueIterItem::Constant(c) => ArgEventV::Constant(c@),
        ArgumentValueIterItem::Condition(op) => ArgEventV::Condition(op_model(op)),
        ArgumentValueIterItem::Concatenation(op) => ArgEventV::Concatenation(op_model(op)),
        ArgumentValueIterItem::Calculation(op) => ArgEventV::Calculation(op_model(op)),
        ArgumentValueIterItem::ScriptKey(k) => ArgEventV::ScriptKey(k@),
        ArgumentValueIterItem::FunctionEnd => ArgEventV::End,
    }
}

pub open spec fn events_model(s: Seq<ArgumentValueIterItem>) -> Seq<ArgEventV> {
    s.map_values(|e: ArgumentValueIterItem| event_model(e))
}

/// The head event one argument yields.
pub open spec fn classify(a: ArgumentV) -> ArgEventV {
    match a.value {
        ArgV::Function(f) => match op_from_function_spec(f) {
            Option::Some(op) => if f.name == "condition"@ {
                ArgEventV::Condition(op)
            } else if f.name == "concat"@ {
                ArgEventV::Concatenation(op)
            } else {
                ArgEventV::Calculation(op)
            },
            Option::None => ArgEventV::Start(f),
        },
        ArgV::Constant(c) => ArgEventV::Constant(c),
        ArgV::Value(v) => if a.name == "scriptName"@ && v is Str {
            ArgEventV::ScriptKey(v->Str_0)
        } else {
            ArgEventV::Value(v)
        },
        ArgV::Actions(items) => ArgEventV::Actions(items),
    }
}

/// The event stream one argument yields: a nested call opens, streams its
/// own arguments, and closes.
pub open spec fn expand_arg(a: ArgumentV) -> Seq<ArgEventV>
    decreases asize_arg(a), 0int,
{
    match classify(a) {
        ArgEventV::Start(f) => seq![ArgEventV::Start(f)] + events_of_args(f.args) + seq![
            ArgEventV::End,
        ],
        e => seq![e],
    }
}

/// The event stream of an argument list, in order.
pub open spec fn events_of_args(args: Seq<ArgumentV>) -> Seq<ArgEventV>
    decreases asize_args(args), 1int,
{
    if args.len() == 0 {
        Seq::<ArgEventV>::empty()
    } else {
        expand_arg(args[0]) + events_of_args(args.skip(1))
    }
}

impl<'a> ArgumentValueIterItem<'a> {
    /// The head event of one argument.
    pub fn from_argument(argument: &'a Argument) -> (r: ArgumentValueIterItem<'a>)
        ensures
            event_model(r) == classify(arg_model(*argument)),
    {
        match &argument.value {
            ArgumentValue::Function(function) => {
                match Operation::from_function(function) {
                    Option::Some(op) => {
                        if str_eq(function.name.as_str(), "condition") {
                            ArgumentValueIterItem::Condition(op)
                        } else if str_eq(function.name.as_str(), "concat") {
                            ArgumentValueIterItem::Concatenation(op)
                        } else {
                            ArgumentValueIterItem::Calculation(op)
                        }
                    },
                    Option::None => ArgumentValueIterItem::StartOfFunction(function),
                }
            },
            ArgumentValue::Constant(constant) => ArgumentValueIterItem::Constant(constant),
            ArgumentValue::Value(value) => {
                let is_key = str_eq(argument.name.as_str(), "scriptName");
                match value {
                    JsonValue::Str(s) if is_key => ArgumentValueIterItem::ScriptKey(s),
                    _ => ArgumentValueIterItem::Value(value),
                }
            },
            ArgumentValue::Actions(actions) => ArgumentValueIterItem::Actions(actions),
        }
    }
}

/// Appends the events of every argument of the list.
pub fn push_arg_events<'a>(args: &'a Vec<Argument>, out: &mut Vec<ArgumentValueIterItem<'a>>)
    ensures
        events_model(final(out)@) == events_model(old(out)@) + events_of_args(args_model(args@)),
    decreases asize_args(args_model(args@)), 1int,
{
    let ghost av = args_model(args@);
    let mut i: usize = 0;
    proof {
        lemma_args_model_len(args@);
        assert(av.skip(0) =~= av);
        assert(events_model(out@) + events_of_args(av) =~= events_model(old(out)@) + events_of_args(
            av,
        ));
    }
    while i < args.len()
        invariant
            0 <= i <= args@.len(),
            av == args_model(args@),
            av.len() == args@.len(),
            events_model(out@) + events_of_args(av.skip(i as int)) == events_model(old(out)@)
                + events_of_args(av),
        decreases args@.len() - i,
    {
        let ghost rest = av.skip(i as int);
        proof {
            lemma_args_model_index(args@, i as int);
            lemma_asize_args_index(av, i as int);
            assert(rest[0] == av[i as int]);
            assert(rest.skip(1) =~= av.skip(i + 1));
            assert(events_of_args(rest) == expand_arg(av[i as int]) + events_of_args(
                av.skip(i + 1),
            ));
        }
        let ghost before = events_model(out@);
        let item = ArgumentValueIterItem::from_argument(&args[i]);
        match item {
            ArgumentValueIterItem::StartOfFunction(f) => {
                proof {
                    assert(classify(av[i as int]) == ArgEventV::Start(func_model(*f)));
                    assert(expand_arg(av[i as int]) == seq![ArgEventV::Start(func_model(*f))]
                        + events_of_args(func_model(*f).args) + seq![ArgEventV::End]);
                    assert(asize_args(func_model(*f).args) < asize_arg(av[i as int])) by {
                        match av[i as int].value {
                            ArgV::Function(fm) => {
                                assert(fm == func_model(*f));
                            },
                            _ => {
                                assert(false);
                            },
                        }
                    }
                }
                out.push(ArgumentValueIterItem::StartOfFunction(f));
                let ghost mid1 = events_model(out@);
                proof {
                    assert(mid1 =~= before.push(ArgEventV::Start(func_model(*f))));
                }
                push_arg_events(&f.args, out);
                let ghost mid2 = events_model(out@);
                proof {
                    assert(mid2 == mid1 + events_of_args(args_model(f.args@)));
                }
                out.push(ArgumentValueIterItem::FunctionEnd);
                proof {
                    assert(events_model(out@) =~= mid2.push(ArgEventV::End));
                    assert(events_model(out@) =~= before + expand_arg(av[i as int]));
                }
            },
            other => {
                proof {
                    assert(event_model(other) == classify(av[i as int]));
                    assert(expand_arg(av[i as int]) =~= seq![classify(av[i as int])]);
                }
                out.push(other);
                proof {
                    assert(events_model(out@) =~= before + expand_arg(av[i as int]));
                }
            },
        }
        proof {
            assert(events_model(out@) + events_of_args(av.skip(i + 1)) =~= before + (expand_arg(
                av[i as int],
            ) + events_of_args(av.skip(i + 1))));
        }
        i = i + 1;
    }
    proof {
        assert(av.skip(av.len() as int).len() == 0);
        assert(events_of_args(av.skip(av.len() as int)) =~= Seq::<ArgEventV>::empty());
        assert(events_model(out@) + Seq::<ArgEventV>::empty() =~= events_model(out@));
    }
}

/// A single-pass, forward-only traversal of an action's argument tree.
pub struct ArgumentValuesIterator<'a> {
    pub items: Vec<ArgumentValueIterItem<'a>>,
    pub pos: usize,
}

impl<'a> ArgumentValuesIterator<'a> {
    /// The traversal of an argument list.
    pub fn new(args: &'a Vec<Argument>) -> (r: ArgumentValuesIterator<'a>)
        ensures
            events_model(r.items@) == events_of_args(args_model(args@)),
            r.pos == 0,
    {
        let mut items: Vec<ArgumentValueIterItem<'a>> = Vec::new();
        proof {
            assert(events_model(items@) =~= Seq::<ArgEventV>::empty());
        }
        push_arg_events(args, &mut items);
        proof {
            assert(Seq::<ArgEventV>::empty() + events_of_args(args_model(args@))
                =~= events_of_args(args_model(args@)));
        }
        ArgumentValuesIterator { items, pos: 0 }
    }

    /// The traversal that starts at one already-taken event.
    pub fn from_argument_iter_value(argument: ArgumentValueIterItem<'a>) -> (r:
        ArgumentValuesIterator<'a>)
        ensures
            events_model(r.items@) == seq![event_model(argument)],
            r.pos == 0,
    {
        let mut items: Vec<ArgumentValueIterItem<'a>> = Vec::new();
        items.push(argument);
        proof {
            assert(events_model(items@) =~= seq![event_model(argument)]);
        }
        ArgumentValuesIterator { items, pos: 0 }
    }

    /// The next event, until the stream is exhausted.
    pub fn next(&mut self) -> (r: Option<ArgumentValueIterItem<'a>>)
        ensures
            final(self).items@ == old(self).items@,
            old(self).pos < old(self).items@.len() ==> match r {
                Option::Some(it) => event_model(it) == events_model(old(self).items@)[old(
                    self,
                ).pos as int] && final(self).pos == old(self).pos + 1,
                Option::None => false,
            },
            old(self).pos >= old(self).items@.len() ==> r is None && final(self).pos == old(
                self,
            ).pos,
    {
        if self.pos < self.items.len() {
            let item = self.items[self.pos].shallow_copy();
            self.pos = self.pos + 1;
            Option::Some(item)
        } else {
            Option::None
        }
    }
}

impl<'a> ArgumentValueIterItem<'a> {
    /// A copy of one event with the same model.
    pub fn shallow_copy(&self) -> (r: ArgumentValueIterItem<'a>)
        ensures
            event_model(r) == event_model(*self),
    {
        match self {
            ArgumentValueIterItem::StartOfFunction(f) => ArgumentValueIterItem::StartOfFunction(f),
            ArgumentValueIterItem::Actions(a) => ArgumentValueIterItem::Actions(a),
            ArgumentValueIterItem::Value(v) => ArgumentValueIterItem::Value(v),
            ArgumentValueIterItem::Constant(c) => ArgumentValueIterItem::Constant(c),
            ArgumentValueIterItem::Condition(op) => ArgumentValueIterItem::Condition(
                Operation {
                    item_a: op.item_a.clone(),
                    operator: op.operator.clone(),
                    item_b: op.item_b.clone(),
                },
            ),
            ArgumentValueIterItem::Concatenation(op) => ArgumentValueIterItem::Concatenation(
                Operation {
                    item_a: op.item_a.clone(),
                    operator: op.operator.clone(),
                    item_b: op.item_b.clone(),
                },
            ),
            ArgumentValueIterItem::Calculation(op) => ArgumentValueIterItem::Calculation(
                Operation {
                    item_a: op.item_a.clone(),
                    operator: op.operator.clone(),
                    item_b: op.item_b.clone(),
                },
            ),
            ArgumentValueIterItem::ScriptKey(k) => ArgumentValueIterItem::ScriptKey(k),
            ArgumentValueIterItem::FunctionEnd => ArgumentValueIterItem::FunctionEnd,
        }
    }
}

impl Action {
    /// The traversal of this action's whole argument tree.
    pub fn iter_flattened_argument_values<'a>(&'a self) -> (r: ArgumentValuesIterator<'a>)
        ensures
            events_model(r.items@) == events_of_args(ac_model(*self).args),
            r.pos == 0,
    {
        ArgumentValuesIterator::new(&self.args)
    }
}

} // verus!
