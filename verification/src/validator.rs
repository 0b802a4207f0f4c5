//! Builders for missing pymodd declarations: given one modd.io editor
//! object, the action function or function class that would declare it.

use vstd::prelude::*;

use crate::casing::{snake_case_of, to_snake_case, to_upper_camel_case, upper_camel_of};
use crate::document::{jget, jval, JsonV, JsonValue};
use crate::text::{join_spec, str_join};

verus! {

/// One editor object: its tag, category and parameter fields.
pub struct Object {
    pub name: String,
    pub category: String,
    pub parameters: Vec<String>,
}

pub struct ObjectV {
    pub name: Seq<char>,
    pub category: Seq<char>,
    pub parameters: Seq<Seq<char>>,
}

pub open spec fn object_model(o: Object) -> ObjectV {
    ObjectV {
        name: o.name@,
        category: o.category@,
        parameters: o.parameters@.map_values(|x: String| x@),
    }
}

/// What kind of declaration an editor object describes.
#[derive(Debug, PartialEq, Eq)]
pub enum ObjectType {
    Trigger,
    Action,
    Function,
    Undefined,
}

/// The object's declared type field.
pub open spec fn object_type_spec(v: JsonV) -> ObjectType {
    match jget(v, "data"@) {
        Option::Some(wrapped) => match jget(wrapped, "type"@) {
            Option::Some(JsonV::Str(s)) => if s == "trigger"@ {
                ObjectType::Trigger
            } else if s == "action"@ {
                ObjectType::Action
            } else if s == "function"@ {
                ObjectType::Function
            } else {
                ObjectType::Undefined
            },
            _ => ObjectType::Undefined,
        },
        Option::None => ObjectType::Undefined,
    }
}

impl ObjectType {
    pub fn from_object_data(object_data: &JsonValue) -> (r: ObjectType)
        ensures
            r == object_type_spec(jval(*object_data)),
    {
        match object_data.get("data") {
            Option::Some(wrapped) => {
                match wrapped.get("type") {
                    Option::Some(t) => match t.as_str() {
                        Option::Some(s) => {
                            if crate::text::str_eq(s, "trigger") {
                                ObjectType::Trigger
                            } else if crate::text::str_eq(s, "action") {
                                ObjectType::Action
                            } else if crate::text::str_eq(s, "function") {
                                ObjectType::Function
                            } else {
                                ObjectType::Undefined
                            }
                        },
                        Option::None => ObjectType::Undefined,
                    },
                    Option::None => ObjectType::Undefined,
                }
            },
            Option::None => ObjectType::Undefined,
        }
    }
}

/// The parameter field names of an object's fragments list.
pub open spec fn fragments_fields(v: JsonV) -> Seq<Seq<char>>
    decreases v,
{
    match v {
        JsonV::Arr(items) => fragment_fields_of(items),
        _ => Seq::<Seq<char>>::empty(),
    }
}

pub open spec fn fragment_fields_of(items: Seq<JsonV>) -> Seq<Seq<char>>
    decreases items,
{
    if items.len() == 0 {
        Seq::<Seq<char>>::empty()
    } else {
        (match jget(items[0], "field"@) {
            Option::Some(JsonV::Str(s)) => seq![s],
            _ => Seq::<Seq<char>>::empty(),
        }) + fragment_fields_of(items.skip(1))
    }
}

/// The model an object parses to.
pub open spec fn object_parse_spec(v: JsonV) -> ObjectV {
    let wrapped = match jget(v, "data"@) {
        Option::Some(w) => w,
        Option::None => JsonV::Obj(Seq::<(Seq<char>, JsonV)>::empty()),
    };
    ObjectV {
        name: match jget(v, "key"@) {
            Option::Some(JsonV::Str(s)) => s,
            _ => "none"@,
        },
        category: match jget(wrapped, "category"@) {
            Option::Some(JsonV::Str(s)) => s,
            _ => "none"@,
        },
        parameters: fragments_fields(
            match jget(wrapped, "fragments"@) {
                Option::Some(f) => f,
                Option::None => JsonV::Null,
            },
        ),
    }
}

impl Object {
    pub fn from_object_data(object_data: &JsonValue) -> (r: Object)
        ensures
            object_model(r) == object_parse_spec(jval(*object_data)),
    {
        proof {
            reveal_strlit("none");
        }
        let name: String = match object_data.get("key") {
            Option::Some(k) => match k.as_str() {
                Option::Some(s) => s.to_owned(),
                Option::None => "none".to_owned(),
            },
            Option::None => "none".to_owned(),
        };
        let wrapped: JsonValue = match object_data.get("data") {
            Option::Some(w) => w.clone(),
            Option::None => JsonValue::Obj(Vec::new()),
        };
        proof {
            if jget(jval(*object_data), "data"@) is None {
                assert(crate::document::jentries(Seq::<(String, JsonValue)>::empty())
                    =~= Seq::<(Seq<char>, JsonV)>::empty());
            }
        }
        let category: String = match wrapped.get("category") {
            Option::Some(c) => match c.as_str() {
                Option::Some(s) => s.to_owned(),
                Option::None => "none".to_owned(),
            },
            Option::None => "none".to_owned(),
        };
        let mut parameters: Vec<String> = Vec::new();
        match wrapped.get("fragments") {
            Option::Some(f) => {
                match f.as_array() {
                    Option::Some(items) => {
                        let ghost fv = crate::document::jvals(items@);
                        let mut i: usize = 0;
                        proof {
                            crate::document::lemma_jvals_len(items@);
                            assert(fv.skip(0) =~= fv);
                            assert(parameters@.map_values(|x: String| x@) + fragment_fields_of(
                                fv,
                            ) =~= fragment_fields_of(fv));
                        }
                        while i < items.len()
                            invariant
                                0 <= i <= items@.len(),
                                fv == crate::document::jvals(items@),
                                fv.len() == items@.len(),
                                parameters@.map_values(|x: String| x@) + fragment_fields_of(
                                    fv.skip(i as int),
                                ) == fragment_fields_of(fv),
                            decreases items@.len() - i,
                        {
                            let ghost rest = fv.skip(i as int);
                            proof {
                                crate::document::lemma_jvals_index(items@, i as int);
                                assert(rest[0] == fv[i as int]);
                                assert(rest.skip(1) =~= fv.skip(i + 1));
                            }
                            let ghost before = parameters@.map_values(|x: String| x@);
                            match items[i].get("field") {
                                Option::Some(fld) => {
                                    match fld.as_str() {
                                        Option::Some(s) => {
                                            parameters.push(s.to_owned());
                                            proof {
                                                assert(parameters@.map_values(|x: String| x@)
                                                    =~= before.push(s@));
                                                assert(fragment_fields_of(rest) == seq![s@]
                                                    + fragment_fields_of(fv.skip(i + 1)));
                                                assert(parameters@.map_values(|x: String| x@)
                                                    + fragment_fields_of(fv.skip(i + 1)) =~= before
                                                    + fragment_fields_of(rest));
                                            }
                                        },
                                        Option::None => {
                                            proof {
                                                assert(fragment_fields_of(rest)
                                                    == fragment_fields_of(fv.skip(i + 1)));
                                            }
                                        },
                                    }
                                },
                                Option::None => {
                                    proof {
                                        assert(fragment_fields_of(rest) == fragment_fields_of(
                                            fv.skip(i + 1),
                                        ));
                                    }
                                },
                            }
                            i = i + 1;
                        }
                        proof {
                            assert(fv.skip(fv.len() as int).len() == 0);
                            assert(parameters@.map_values(|x: String| x@)
                                + Seq::<Seq<char>>::empty() =~= parameters@.map_values(
                                |x: String| x@,
                            ));
                        }
                    },
                    Option::None => {
                        proof {
                            assert(parameters@.map_values(|x: String| x@)
                                =~= Seq::<Seq<char>>::empty());
                        }
                    },
                }
            },
            Option::None => {
                proof {
                    assert(parameters@.map_values(|x: String| x@)
                        =~= Seq::<Seq<char>>::empty());
                }
            },
        }
        Object { name, category, parameters }
    }
}

/// The `@action` function declaring one missing action.
pub open spec fn action_function_spec(o: ObjectV) -> Seq<char> {
    let params = o.parameters.map_values(|p: Seq<char>| snake_case_of(p));
    "@action\ndef "@ + snake_case_of(o.name) + "("@ + (if params.len() > 0 {
        join_spec(params, ", "@) + ", "@
    } else {
        Seq::<char>::empty()
    }) + "comment=None, disabled=False, run_on_client=False):\n\treturn {\n\t\t'type': '"@
        + o.name + "',\n"@ + dict_lines(params, "\t\t'"@) + "\t}"@
}

/// One `'name': to_dict(name),` line per parameter.
pub open spec fn dict_lines(params: Seq<Seq<char>>, indent: Seq<char>) -> Seq<char>
    decreases params.len(),
{
    if params.len() == 0 {
        Seq::<char>::empty()
    } else {
        indent + params[0] + "': to_dict("@ + params[0] + "),\n"@ + dict_lines(
            params.skip(1),
            indent,
        )
    }
}

pub fn generate_action_function_from_object(object: &Object) -> (r: String)
    ensures
        r@ == action_function_spec(object_model(*object)),
{
    proof {
        reveal_strlit("@action\ndef ");
        reveal_strlit("(");
        reveal_strlit(", ");
        reveal_strlit("comment=None, disabled=False, run_on_client=False):\n\treturn {\n\t\t'type': '");
        reveal_strlit("',\n");
        reveal_strlit("\t}");
        reveal_strlit("\t\t'");
        reveal_strlit("': to_dict(");
        reveal_strlit("),\n");
    }
    let params = snake_params(&object.parameters);
    let mut out: String = "@action\ndef ".to_owned();
    let fname = to_snake_case(object.name.as_str());
    out.append(fname.as_str());
    out.append("(");
    if params.len() > 0 {
        let joined = str_join(&params, ", ");
        out.append(joined.as_str());
        out.append(", ");
    } else {
        proof {
            assert(out@ + Seq::<char>::empty() =~= out@);
        }
    }
    out.append("comment=None, disabled=False, run_on_client=False):\n\treturn {\n\t\t'type': '");
    out.append(object.name.as_str());
    out.append("',\n");
    append_dict_lines(&mut out, &params, "\t\t'");
    out.append("\t}");
    proof {
        assert(("@action\ndef ")@ =~= "@action\ndef "@);
        assert(("(")@ =~= "("@);
        assert((", ")@ =~= ", "@);
        assert(("comment=None, disabled=False, run_on_client=False):\n\treturn {\n\t\t'type': '")@
            =~= "comment=None, disabled=False, run_on_client=False):\n\treturn {\n\t\t'type': '"@);
        assert(("',\n")@ =~= "',\n"@);
        assert(("\t}")@ =~= "\t}"@);
        assert(("\t\t'")@ =~= "\t\t'"@);
        assert(out@ =~= action_function_spec(object_model(*object)));
    }
    out
}

/// The class declaring one missing function.
pub open spec fn function_class_spec(o: ObjectV) -> Seq<char> {
    let params = o.parameters.map_values(|p: Seq<char>| snake_case_of(p));
    "class "@ + upper_camel_of(o.name) + "("@ + upper_camel_of(o.category)
        + "):\n\tdef __init__(self, "@ + join_spec(params, ", "@)
        + "):\n\t\tself.function = '"@ + o.name + "'\n\t\tself.options = {\n"@ + dict_lines(
        params,
        "\t\t\t'"@,
    ) + "\t\t}"@
}

pub fn generate_function_class_from_object(object: &Object) -> (r: String)
    ensures
        r@ == function_class_spec(object_model(*object)),
{
    proof {
        reveal_strlit("class ");
        reveal_strlit("(");
        reveal_strlit("):\n\tdef __init__(self, ");
        reveal_strlit(", ");
        reveal_strlit("):\n\t\tself.function = '");
        reveal_strlit("'\n\t\tself.options = {\n");
        reveal_strlit("\t\t}");
        reveal_strlit("\t\t\t'");
        reveal_strlit("': to_dict(");
        reveal_strlit("),\n");
    }
    let params = snake_params(&object.parameters);
    let mut out: String = "class ".to_owned();
    let cname = to_upper_camel_case(object.name.as_str());
    out.append(cname.as_str());
    out.append("(");
    let cat = to_upper_camel_case(object.category.as_str());
    out.append(cat.as_str());
    out.append("):\n\tdef __init__(self, ");
    let joined = str_join(&params, ", ");
    out.append(joined.as_str());
    out.append("):\n\t\tself.function = '");
    out.append(object.name.as_str());
    out.append("'\n\t\tself.options = {\n");
    append_dict_lines(&mut out, &params, "\t\t\t'");
    out.append("\t\t}");
    proof {
        assert(("class ")@ =~= "class "@);
        assert(("(")@ =~= "("@);
        assert(("):\n\tdef __init__(self, ")@ =~= "):\n\tdef __init__(self, "@);
        assert((", ")@ =~= ", "@);
        assert(("):\n\t\tself.function = '")@ =~= "):\n\t\tself.function = '"@);
        assert(("'\n\t\tself.options = {\n")@ =~= "'\n\t\tself.options = {\n"@);
        assert(("\t\t}")@ =~= "\t\t}"@);
        assert(("\t\t\t'")@ =~= "\t\t\t'"@);
        assert(out@ =~= function_class_spec(object_model(*object)));
    }
    out
}

/// Every parameter name in snake_case.
fn snake_params(parameters: &Vec<String>) -> (r: Vec<String>)
    ensures
        r@.map_values(|x: String| x@) == parameters@.map_values(|x: String| x@).map_values(
            |p: Seq<char>| snake_case_of(p),
        ),
{
    let mut out: Vec<String> = Vec::new();
    let mut i: usize = 0;
    while i < parameters.len()
        invariant
            0 <= i <= parameters@.len(),
            out@.len() == i,
            forall|k: int|
                0 <= k < i ==> out@[k]@ == snake_case_of(#[trigger] parameters@[k]@),
        decreases parameters@.len() - i,
    {
        let p = to_snake_case(parameters[i].as_str());
        out.push(p);
        i = i + 1;
    }
    proof {
        assert(out@.map_values(|x: String| x@) =~= parameters@.map_values(
            |x: String| x@,
        ).map_values(|p: Seq<char>| snake_case_of(p)));
    }
    out
}

/// Appends one dictionary line per parameter.
fn append_dict_lines(out: &mut String, params: &Vec<String>, indent: &str)
    ensures
        final(out)@ == old(out)@ + dict_lines(params@.map_values(|x: String| x@), indent@),
{
    proof {
        reveal_strlit("': to_dict(");
        reveal_strlit("),\n");
    }
    let ghost pv = params@.map_values(|x: String| x@);
    let mut i: usize = 0;
    proof {
        assert(pv.skip(0) =~= pv);
        assert(out@ + dict_lines(pv, indent@) =~= old(out)@ + dict_lines(pv, indent@));
    }
    while i < params.len()
        invariant
            0 <= i <= params@.len(),
            pv == params@.map_values(|x: String| x@),
            pv.len() == params@.len(),
            out@ + dict_lines(pv.skip(i as int), indent@) == old(out)@ + dict_lines(pv, indent@),
        decreases params@.len() - i,
    {
        let ghost rest = pv.skip(i as int);
        proof {
            reveal_strlit("': to_dict(");
            reveal_strlit("),\n");
            assert(rest[0] == pv[i as int]);
            assert(rest.skip(1) =~= pv.skip(i + 1));
            assert(dict_lines(rest, indent@) == indent@ + pv[i as int] + "': to_dict("@
                + pv[i as int] + "),\n"@ + dict_lines(pv.skip(i + 1), indent@));
        }
        out.append(indent);
        out.append(params[i].as_str());
        out.append("': to_dict(");
        out.append(params[i].as_str());
        out.append("),\n");
        proof {
            assert(("': to_dict(")@ =~= "': to_dict("@);
            assert(("),\n")@ =~= "),\n"@);
        }
        i = i + 1;
    }
    proof {
        assert(pv.skip(pv.len() as int).len() == 0);
        assert(dict_lines(pv.skip(pv.len() as int), indent@) =~= Seq::<char>::empty());
        assert(out@ + Seq::<char>::empty() =~= out@);
    }
}

} // verus!
