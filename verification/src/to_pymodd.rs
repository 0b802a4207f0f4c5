//! Scanners for the class-style declaration format that an earlier layout
//! of the pymodd API used: actions as classes with a `self.action` tag and
//! an options dictionary, functions likewise.

use vstd::prelude::*;

use crate::text::{
    after_last, find_str, first_containing, lines_spec, lines_containing, str_lines,
    str_after_last, find_line_containing, filter_lines_containing, vec_slice_strings,
};
use crate::to_pymodd_maps::{
    class_name_spec, has_class_line, parse_class_name, ps_model, PymoddStructure,
};
use crate::utils::{strip_quotes, strip_quotes_spec};

verus! {

/// Whether the text has a line holding `self.action = `.
pub open spec fn has_action_line(s: Seq<char>) -> bool {
    first_containing(lines_spec(s), 0, "self.action = "@) < lines_spec(s).len()
}

/// The action's modd tag: the quoted text after the last ` = ` on its
/// `self.action` line.
pub open spec fn action_type_spec(s: Seq<char>) -> Seq<char> {
    let ls = lines_spec(s);
    let i = first_containing(ls, 0, "self.action = "@);
    strip_quotes_spec(after_last(ls[i], " = "@))
}

pub fn parse_action_type_of_pymodd_action_class(action_class_content: &str) -> (r: String)
    requires
        has_action_line(action_class_content@),
    ensures
        r@ == action_type_spec(action_class_content@),
{
    proof {
        reveal_strlit("self.action = ");
        reveal_strlit(" = ");
    }
    let lines = str_lines(action_class_content);
    let ghost ls = lines@.map_values(|x: String| x@);
    let i = find_line_containing(&lines, 0, "self.action = ");
    proof {
        crate::text::lemma_first_containing(ls, 0, "self.action = "@);
    }
    let tail = str_after_last(lines[i].as_str(), " = ");
    strip_quotes(tail.as_str())
}

/// The text before the first colon, the whole line when there is none.
pub open spec fn before_colon(l: Seq<char>) -> Seq<char> {
    let i = find_str(l, ":"@);
    if i < 0 {
        l
    } else {
        l.take(i)
    }
}

/// The quoted keys of the dictionary-entry lines of a class body.
pub open spec fn dict_keys_spec(ls: Seq<Seq<char>>) -> Seq<Seq<char>> {
    lines_containing(ls, "': "@).map_values(|l: Seq<char>| strip_quotes_spec(before_colon(l)))
}

/// The dictionary keys of every line of the text.
pub open spec fn class_args_spec(s: Seq<char>) -> Seq<Seq<char>> {
    dict_keys_spec(lines_spec(s))
}

fn dict_keys_of_lines(lines: &Vec<String>) -> (r: Vec<String>)
    ensures
        r@.map_values(|x: String| x@) == dict_keys_spec(lines@.map_values(|x: String| x@)),
{
    proof {
        reveal_strlit("': ");
        reveal_strlit(":");
    }
    let entry_lines = filter_lines_containing(lines, "': ");
    let ghost fl = entry_lines@.map_values(|x: String| x@);
    let mut out: Vec<String> = Vec::new();
    let mut i: usize = 0;
    while i < entry_lines.len()
        invariant
            0 <= i <= entry_lines@.len(),
            fl == entry_lines@.map_values(|x: String| x@),
            out@.len() == i,
            forall|k: int|
                0 <= k < i ==> out@[k]@ == strip_quotes_spec(before_colon(#[trigger] fl[k])),
        decreases entry_lines@.len() - i,
    {
        let line = &entry_lines[i];
        proof {
            reveal_strlit(":");
            assert((":")@ =~= seq![':']);
        }
        let head: String = match crate::text::str_find(line.as_str(), ":") {
            Option::None => line.clone(),
            Option::Some(p) => {
                proof {
                    crate::text::lemma_find_str(fl[i as int], ":"@);
                    assert(crate::text::matches_at(fl[i as int], ":"@, p as int));
                }
                let piece = line.as_str().substring_char(0, p);
                proof {
                    assert(piece@ =~= fl[i as int].take(p as int));
                }
                piece.to_owned()
            },
        };
        let key = strip_quotes(head.as_str());
        out.push(key);
        i = i + 1;
    }
    proof {
        assert(out@.map_values(|x: String| x@) =~= dict_keys_spec(lines@.map_values(
            |x: String| x@,
        )));
    }
    out
}

pub fn parse_pymodd_structure_of_pymodd_action_class(action_class_content: &str) -> (r:
    PymoddStructure)
    requires
        has_class_line(action_class_content@),
    ensures
        ps_model(r).name == class_name_spec(action_class_content@),
        ps_model(r).parameters == class_args_spec(action_class_content@),
{
    let name = parse_class_name(action_class_content);
    let lines = str_lines(action_class_content);
    let parameters = dict_keys_of_lines(&lines);
    let r = PymoddStructure { name, parameters };
    proof {
        assert(ps_model(r).parameters == class_args_spec(action_class_content@));
    }
    r
}

/// The dictionary keys from the options block on: every key line at or
/// after the first line that holds `self.options`.
pub open spec fn function_class_args_spec(s: Seq<char>) -> Seq<Seq<char>> {
    let ls = lines_spec(s);
    let a = first_containing(ls, 0, "self.options"@);
    dict_keys_spec(ls.skip(a))
}

pub fn parse_pymodd_structure_of_pymodd_function_class(function_class_content: &str) -> (r:
    PymoddStructure)
    requires
        has_class_line(function_class_content@),
    ensures
        ps_model(r).name == class_name_spec(function_class_content@),
        ps_model(r).parameters == function_class_args_spec(function_class_content@),
{
    proof {
        reveal_strlit("self.options");
    }
    let name = parse_class_name(function_class_content);
    let lines = str_lines(function_class_content);
    let ghost ls = lines@.map_values(|x: String| x@);
    let a = find_line_containing(&lines, 0, "self.options");
    proof {
        crate::text::lemma_first_containing(ls, 0, "self.options"@);
    }
    let rest = vec_slice_strings(&lines, a, lines.len());
    proof {
        assert(rest@.map_values(|x: String| x@) =~= ls.skip(a as int));
    }
    let parameters = dict_keys_of_lines(&rest);
    let r = PymoddStructure { name, parameters };
    proof {
        assert(ps_model(r).parameters == function_class_args_spec(function_class_content@));
    }
    r
}

/// Whether the text has a line holding `self.function = `.
pub open spec fn has_function_tag_line(s: Seq<char>) -> bool {
    first_containing(lines_spec(s), 0, "self.function = "@) < lines_spec(s).len()
}

/// The function's modd tag, read as in the newer layout: the quoted text
/// after the last ` = ` on its `self.function` line.
pub open spec fn function_tag_spec(s: Seq<char>) -> Seq<char> {
    let ls = lines_spec(s);
    let i = first_containing(ls, 0, "self.function = "@);
    strip_quotes_spec(after_last(ls[i], " = "@))
}

pub fn parse_function_type_of_pymodd_function_class(function_class_content: &str) -> (r: String)
    requires
        has_function_tag_line(function_class_content@),
    ensures
        r@ == function_tag_spec(function_class_content@),
{
    proof {
        reveal_strlit("self.function = ");
        reveal_strlit(" = ");
    }
    let lines = str_lines(function_class_content);
    let ghost ls = lines@.map_values(|x: String| x@);
    let i = find_line_containing(&lines, 0, "self.function = ");
    proof {
        crate::text::lemma_first_containing(ls, 0, "self.function = "@);
    }
    let tail = str_after_last(lines[i].as_str(), " = ");
    strip_quotes(tail.as_str())
}

} // verus!
