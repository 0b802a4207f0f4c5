//! The schema registry: maps from modd.io tag names to their pymodd
//! counterparts, built once by line-scanning the pymodd API's own source
//! text and read-only afterwards.
//!
//! The scanned text reaches this module as plain strings; the caller that
//! owns the files hands them in.

use vstd::prelude::*;

use crate::text::{
    after_last, concat_nl, find_str, first_containing, first_with_prefix, lines_spec,
    split_any_spec, split_str_spec, trim_spec, ends_with, starts_with, find_line_containing,
    find_line_with_prefix, join_lines_nl, str_after_last, str_lines, str_split_any, str_split_str,
    str_trim, str_eq, str_contains, replace_spec, str_replace, vec_slice_strings, trim_all,
};
use crate::utils::{strip_quotes, strip_quotes_spec};

verus! {

// ---------------------------------------------------------------------------
// the target structure
// ---------------------------------------------------------------------------

/// The canonical pymodd shape of one action or function tag: the target
/// name and the ordered parameter names.
#[derive(Debug, PartialEq, Eq)]
pub struct PymoddStructure {
    pub name: String,
    pub parameters: Vec<String>,
}

/// The model of a target structure.
pub struct PymoddStructureV {
    pub name: Seq<char>,
    pub parameters: Seq<Seq<char>>,
}

pub open spec fn ps_model(s: PymoddStructure) -> PymoddStructureV {
    PymoddStructureV { name: s.name@, parameters: s.parameters@.map_values(|x: String| x@) }
}

/// The placeholder structure used for a tag the registry does not know:
/// the name `Undefined` and no parameters.
pub open spec fn undefined_structure() -> PymoddStructureV {
    PymoddStructureV { name: "Undefined"@, parameters: Seq::<Seq<char>>::empty() }
}

impl PymoddStructure {
    pub fn new(name: &str, args: Vec<&str>) -> (r: PymoddStructure)
        ensures
            ps_model(r).name == name@,
            ps_model(r).parameters == args@.map_values(|x: &str| x@),
    {
        let mut parameters: Vec<String> = Vec::new();
        let mut i: usize = 0;
        while i < args.len()
            invariant
                0 <= i <= args@.len(),
                parameters@.len() == i,
                forall|k: int| 0 <= k < i ==> parameters@[k]@ == #[trigger] args@[k]@,
            decreases args@.len() - i,
        {
            parameters.push(args[i].to_owned());
            i = i + 1;
        }
        let r = PymoddStructure { name: name.to_owned(), parameters };
        proof {
            assert(ps_model(r).parameters =~= args@.map_values(|x: &str| x@));
        }
        r
    }

    /// The placeholder structure for unknown tags.
    pub fn undefined() -> (r: PymoddStructure)
        ensures
            ps_model(r) == undefined_structure(),
    {
        let r = PymoddStructure { name: "Undefined".to_owned(), parameters: Vec::new() };
        proof {
            assert(ps_model(r).parameters =~= undefined_structure().parameters);
            assert(ps_model(r) == undefined_structure());
        }
        r
    }
}

impl Clone for PymoddStructure {
    fn clone(&self) -> (r: Self)
        ensures
            ps_model(r) == ps_model(*self),
    {
        let mut parameters: Vec<String> = Vec::new();
        let mut i: usize = 0;
        while i < self.parameters.len()
            invariant
                0 <= i <= self.parameters@.len(),
                parameters@.len() == i,
                forall|k: int| 0 <= k < i ==> parameters@[k]@ == #[trigger] self.parameters@[k]@,
            decreases self.parameters@.len() - i,
        {
            let piece = self.parameters[i].clone();
            parameters.push(piece);
            i = i + 1;
        }
        let r = PymoddStructure { name: self.name.clone(), parameters };
        proof {
            assert(ps_model(r).parameters =~= ps_model(*self).parameters);
            assert(ps_model(r) == ps_model(*self));
        }
        r
    }
}

// ---------------------------------------------------------------------------
// association lists with insertion order and last-insert-wins lookup
// ---------------------------------------------------------------------------

/// The value of the last entry with the given key: the entry a repeated
/// insert leaves in force.
pub open spec fn assoc_last<V>(pairs: Seq<(Seq<char>, V)>, key: Seq<char>) -> Option<V>
    decreases pairs.len(),
{
    if pairs.len() == 0 {
        Option::None
    } else if pairs[pairs.len() - 1].0 == key {
        Option::Some(pairs[pairs.len() - 1].1)
    } else {
        assoc_last(pairs.take(pairs.len() - 1), key)
    }
}

/// The model of a string-to-string map.
pub open spec fn pairs_model(v: Seq<(String, String)>) -> Seq<(Seq<char>, Seq<char>)> {
    v.map_values(|p: (String, String)| (p.0@, p.1@))
}

/// The model of a tag-to-structure map.
pub open spec fn structs_model(v: Seq<(String, PymoddStructure)>) -> Seq<
    (Seq<char>, PymoddStructureV),
> {
    v.map_values(|p: (String, PymoddStructure)| (p.0@, ps_model(p.1)))
}

/// Exec lookup of the last entry with the given key in a string map.
pub fn lookup_string_map(map: &Vec<(String, String)>, key: &str) -> (r: Option<String>)
    ensures
        match r {
            Option::Some(v) => assoc_last(pairs_model(map@), key@) == Option::Some(v@),
            Option::None => assoc_last(pairs_model(map@), key@) is None,
        },
{
    let mut i: usize = map.len();
    proof {
        assert(pairs_model(map@).take(i as int) =~= pairs_model(map@));
    }
    while i > 0
        invariant
            0 <= i <= map@.len(),
            assoc_last(pairs_model(map@).take(i as int), key@) == assoc_last(
                pairs_model(map@),
                key@,
            ),
        decreases i,
    {
        let pair = &map[i - 1];
        proof {
            let pm = pairs_model(map@);
            assert(pm.take(i as int)[i - 1] == pm[i - 1]);
            assert(pm.take(i as int).take(i - 1) =~= pm.take(i - 1));
        }
        if str_eq(pair.0.as_str(), key) {
            return Some(pair.1.clone());
        }
        i = i - 1;
    }
    proof {
        assert(pairs_model(map@).take(0).len() == 0);
    }
    None
}

/// Exec lookup of the last entry with the given key in a structure map.
pub fn lookup_structure_map<'a>(map: &'a Vec<(String, PymoddStructure)>, key: &str) -> (r: Option<
    &'a PymoddStructure,
>)
    ensures
        match r {
            Option::Some(v) => assoc_last(structs_model(map@), key@) == Option::Some(ps_model(*v)),
            Option::None => assoc_last(structs_model(map@), key@) is None,
        },
{
    let mut i: usize = map.len();
    proof {
        assert(structs_model(map@).take(i as int) =~= structs_model(map@));
    }
    while i > 0
        invariant
            0 <= i <= map@.len(),
            assoc_last(structs_model(map@).take(i as int), key@) == assoc_last(
                structs_model(map@),
                key@,
            ),
        decreases i,
    {
        let pair = &map[i - 1];
        proof {
            let pm = structs_model(map@);
            assert(pm.take(i as int)[i - 1] == pm[i - 1]);
            assert(pm.take(i as int).take(i - 1) =~= pm.take(i - 1));
        }
        if str_eq(pair.0.as_str(), key) {
            return Some(&pair.1);
        }
        i = i - 1;
    }
    proof {
        assert(structs_model(map@).take(0).len() == 0);
    }
    None
}

// ---------------------------------------------------------------------------
// scanning class bodies out of source text
// ---------------------------------------------------------------------------

/// The body of `class <name>...`: every line after its header up to the next
/// line that starts a class, each closed with a newline.
pub open spec fn class_content_spec(class_name: Seq<char>, file: Seq<char>) -> Seq<char> {
    let ls = lines_spec(file);
    let a = first_with_prefix(ls, 0, "class "@ + class_name);
    let start = if a < ls.len() {
        a + 1
    } else {
        a
    };
    let b = first_with_prefix(ls, start, "class"@);
    concat_nl(ls.subrange(start, b))
}

pub fn parse_class_content_from_file(class_name: &str, file_content: &str) -> (r: String)
    ensures
        r@ == class_content_spec(class_name@, file_content@),
{
    let lines = str_lines(file_content);
    let mut header: String = "class ".to_owned();
    header.append(class_name);
    let a = find_line_with_prefix(&lines, 0, header.as_str());
    proof {
        crate::text::lemma_first_with_prefix(
            lines@.map_values(|x: String| x@),
            0,
            header@,
        );
    }
    let start = if a < lines.len() {
        a + 1
    } else {
        a
    };
    let b = find_line_with_prefix(&lines, start, "class");
    proof {
        let ls = lines@.map_values(|x: String| x@);
        crate::text::lemma_first_with_prefix(ls, start as int, "class"@);
    }
    join_lines_nl(&lines, start, b)
}

// ---------------------------------------------------------------------------
// enum-style maps: NAME = 'value' lines
// ---------------------------------------------------------------------------

/// The map read off enum-style assignment lines: modd's name (the quoted
/// right side) to `Type.NAME` (from the left side).
pub open spec fn enum_pairs_spec(tname: Seq<char>, ls: Seq<Seq<char>>) -> Seq<
    (Seq<char>, Seq<char>),
>
    decreases ls.len(),
{
    if ls.len() == 0 {
        Seq::<(Seq<char>, Seq<char>)>::empty()
    } else {
        let line = ls[0];
        let i = find_str(line, "="@);
        let rest = enum_pairs_spec(tname, ls.skip(1));
        if i < 0 {
            rest
        } else {
            seq![
                (
                    strip_quotes_spec(line.skip(i + 1)),
                    strip_quotes_spec(tname + "."@ + trim_spec(line.take(i))),
                ),
            ] + rest
        }
    }
}

/// The enum map of one class in the given source text.
pub open spec fn enum_map_spec(tname: Seq<char>, file: Seq<char>) -> Seq<
    (Seq<char>, Seq<char>),
> {
    enum_pairs_spec(tname, lines_spec(class_content_spec(tname, file)))
}

/// The pair one line yields, when it is an assignment line.
pub open spec fn enum_pair_of_line(tname: Seq<char>, line: Seq<char>) -> Option<
    (Seq<char>, Seq<char>),
> {
    let i = find_str(line, "="@);
    if i < 0 {
        Option::None
    } else {
        Option::Some(
            (
                strip_quotes_spec(line.skip(i + 1)),
                strip_quotes_spec(tname + "."@ + trim_spec(line.take(i))),
            ),
        )
    }
}

pub proof fn lemma_enum_pairs_snoc(tname: Seq<char>, ls: Seq<Seq<char>>, x: Seq<char>)
    ensures
        enum_pairs_spec(tname, ls.push(x)) == match enum_pair_of_line(tname, x) {
            Option::Some(p) => enum_pairs_spec(tname, ls).push(p),
            Option::None => enum_pairs_spec(tname, ls),
        },
    decreases ls.len(),
{
    if ls.len() == 0 {
        assert(ls.push(x)[0] == x);
        assert(ls.push(x).skip(1) =~= ls);
        match enum_pair_of_line(tname, x) {
            Option::Some(p) => {
                assert(enum_pairs_spec(tname, ls.push(x)) == seq![p] + enum_pairs_spec(
                    tname,
                    ls,
                ));
                assert(seq![p] + enum_pairs_spec(tname, ls) =~= enum_pairs_spec(
                    tname,
                    ls,
                ).push(p));
            },
            Option::None => {},
        }
    } else {
        lemma_enum_pairs_snoc(tname, ls.skip(1), x);
        assert(ls.push(x)[0] == ls[0]);
        assert(ls.push(x).skip(1) =~= ls.skip(1).push(x));
        match enum_pair_of_line(tname, ls[0]) {
            Option::Some(p0) => {
                assert(enum_pairs_spec(tname, ls.push(x)) == seq![p0] + enum_pairs_spec(
                    tname,
                    ls.skip(1).push(x),
                ));
                assert(enum_pairs_spec(tname, ls) == seq![p0] + enum_pairs_spec(
                    tname,
                    ls.skip(1),
                ));
                match enum_pair_of_line(tname, x) {
                    Option::Some(p) => {
                        assert(seq![p0] + enum_pairs_spec(tname, ls.skip(1)).push(p) =~= (
                        seq![p0] + enum_pairs_spec(tname, ls.skip(1))).push(p));
                    },
                    Option::None => {},
                }
            },
            Option::None => {
                assert(enum_pairs_spec(tname, ls.push(x)) == enum_pairs_spec(
                    tname,
                    ls.skip(1).push(x),
                ));
                assert(enum_pairs_spec(tname, ls) == enum_pairs_spec(tname, ls.skip(1)));
            },
        }
    }
}

pub fn generate_to_pymodd_enums_map_for_type(tname: &str, file_content: &str) -> (r: Vec<
    (String, String),
>)
    ensures
        pairs_model(r@) == enum_map_spec(tname@, file_content@),
{
    let content = parse_class_content_from_file(tname, file_content);
    let lines = str_lines(content.as_str());
    let ghost ls = lines@.map_values(|x: String| x@);
    let mut out: Vec<(String, String)> = Vec::new();
    let mut i: usize = 0;
    proof {
        assert(ls.take(0) =~= Seq::<Seq<char>>::empty());
        assert(pairs_model(out@) =~= enum_pairs_spec(tname@, ls.take(0)));
    }
    while i < lines.len()
        invariant
            0 <= i <= lines@.len(),
            ls == lines@.map_values(|x: String| x@),
            pairs_model(out@) == enum_pairs_spec(tname@, ls.take(i as int)),
        decreases lines@.len() - i,
    {
        let line = &lines[i];
        proof {
            reveal_strlit("=");
            assert(("=")@ =~= seq!['=']);
            lemma_enum_pairs_snoc(tname@, ls.take(i as int), ls[i as int]);
            assert(ls.take(i as int).push(ls[i as int]) =~= ls.take(i + 1));
        }
        match crate::text::str_find(line.as_str(), "=") {
            Option::None => {},
            Option::Some(p) => {
                let n = line.as_str().unicode_len();
                proof {
                    crate::text::lemma_find_str(ls[i as int], "="@);
                    assert(crate::text::matches_at(ls[i as int], "="@, p as int));
                }
                let rhs = line.as_str().substring_char(p + 1, n);
                let lhs = line.as_str().substring_char(0, p);
                let key = strip_quotes(rhs);
                let lhs_trimmed = str_trim(lhs);
                let mut dotted: String = tname.to_owned();
                dotted.append(".");
                dotted.append(lhs_trimmed.as_str());
                let val = strip_quotes(dotted.as_str());
                proof {
                    reveal_strlit(".");
                    assert(rhs@ =~= ls[i as int].skip(find_str(ls[i as int], "="@) + 1));
                    assert(lhs@ =~= ls[i as int].take(find_str(ls[i as int], "="@)));
                    assert(key@ == (enum_pair_of_line(tname@, ls[i as int])->0).0);
                    assert(val@ == (enum_pair_of_line(tname@, ls[i as int])->0).1);
                }
                let ghost prev = out@;
                out.push((key, val));
                proof {
                    assert(pairs_model(out@) =~= pairs_model(prev).push(
                        enum_pair_of_line(tname@, ls[i as int])->0,
                    ));
                }
            },
        }
        i = i + 1;
    }
    proof {
        assert(ls.take(ls.len() as int) =~= ls);
    }
    out
}

// ---------------------------------------------------------------------------
// names and parameter lists of pymodd action functions
// ---------------------------------------------------------------------------

/// Whether the text has a line that starts with `def `.
pub open spec fn has_def_line(s: Seq<char>) -> bool {
    first_with_prefix(lines_spec(s), 0, "def "@) < lines_spec(s).len()
}

/// The name after `def ` up to the opening parenthesis.
pub open spec fn function_name_spec(s: Seq<char>) -> Seq<char> {
    let ls = lines_spec(s);
    let i = first_with_prefix(ls, 0, "def "@);
    let rest = ls[i].skip(4);
    let j = find_str(rest, "("@);
    if j < 0 {
        rest
    } else {
        rest.take(j)
    }
}

pub fn parse_function_name(function_content: &str) -> (r: String)
    requires
        has_def_line(function_content@),
    ensures
        r@ == function_name_spec(function_content@),
{
    proof {
        reveal_strlit("def ");
        reveal_strlit("(");
    }
    let lines = str_lines(function_content);
    let ghost ls = lines@.map_values(|x: String| x@);
    let i = find_line_with_prefix(&lines, 0, "def ");
    proof {
        crate::text::lemma_first_with_prefix(ls, 0, "def "@);
        assert(starts_with(ls[i as int], "def "@));
    }
    let line = &lines[i];
    let n = line.as_str().unicode_len();
    let rest = line.as_str().substring_char(4, n);
    proof {
        assert(rest@ =~= ls[i as int].skip(4));
        assert(("(")@ =~= seq!['(']);
    }
    match crate::text::str_find(rest, "(") {
        Option::None => rest.to_owned(),
        Option::Some(j) => {
            proof {
                crate::text::lemma_find_str(rest@, "("@);
                assert(crate::text::matches_at(rest@, "("@, j as int));
            }
            let name = rest.substring_char(0, j);
            proof {
                assert(name@ =~= rest@.take(j as int));
            }
            name.to_owned()
        },
    }
}

/// Whether the text has a line that starts with `class ` and that splits
/// into at least two pieces at spaces and parentheses.
pub open spec fn has_class_line(s: Seq<char>) -> bool {
    let ls = lines_spec(s);
    let i = first_with_prefix(ls, 0, "class "@);
    i < ls.len() && split_any_spec(ls[i], seq![' ', '(']).len() >= 2
}

/// The class name: the second piece of the class header line, split at
/// spaces and parentheses.
pub open spec fn class_name_spec(s: Seq<char>) -> Seq<char> {
    let ls = lines_spec(s);
    let i = first_with_prefix(ls, 0, "class "@);
    split_any_spec(ls[i], seq![' ', '('])[1]
}

pub fn parse_class_name(class_content: &str) -> (r: String)
    requires
        has_class_line(class_content@),
    ensures
        r@ == class_name_spec(class_content@),
{
    proof {
        reveal_strlit("class ");
    }
    let lines = str_lines(class_content);
    let ghost ls = lines@.map_values(|x: String| x@);
    let i = find_line_with_prefix(&lines, 0, "class ");
    proof {
        crate::text::lemma_first_with_prefix(ls, 0, "class "@);
    }
    let seps: Vec<char> = vec![' ', '('];
    let segs = str_split_any(lines[i].as_str(), &seps);
    proof {
        assert(seps@ =~= seq![' ', '(']);
        assert(segs@.map_values(|x: String| x@)[1] == class_name_spec(class_content@));
    }
    segs[1].clone()
}

/// Whether the text has a line holding `'type': ` whose tail, trimmed,
/// ends with a comma.
pub open spec fn action_type_line_ok(s: Seq<char>) -> bool {
    let ls = lines_spec(s);
    let i = first_containing(ls, 0, "'type': "@);
    i < ls.len() && ends_with(trim_spec(after_last(ls[i], "'type': "@)), ","@)
}

/// The action's modd tag: the quoted text after `'type': `, its trailing
/// comma dropped.
pub open spec fn action_name_spec(s: Seq<char>) -> Seq<char> {
    let ls = lines_spec(s);
    let i = first_containing(ls, 0, "'type': "@);
    let t = trim_spec(after_last(ls[i], "'type': "@));
    strip_quotes_spec(t.take(t.len() - 1))
}

pub fn parse_action_name_of_pymodd_action_function(action_function_content: &str) -> (r: String)
    requires
        action_type_line_ok(action_function_content@),
    ensures
        r@ == action_name_spec(action_function_content@),
{
    proof {
        reveal_strlit("'type': ");
        reveal_strlit(",");
    }
    let lines = str_lines(action_function_content);
    let ghost ls = lines@.map_values(|x: String| x@);
    let i = find_line_containing(&lines, 0, "'type': ");
    proof {
        crate::text::lemma_first_containing(ls, 0, "'type': "@);
    }
    let tail = str_after_last(lines[i].as_str(), "'type': ");
    let trimmed = str_trim(tail.as_str());
    proof {
        assert((",")@ =~= seq![',']);
    }
    match crate::text::str_strip_suffix(trimmed.as_str(), ",") {
        Option::Some(body) => {
            proof {
                assert(body@ =~= trimmed@.take(trimmed@.len() - 1));
            }
            strip_quotes(body.as_str())
        },
        Option::None => {
            proof {
                assert(false);
            }
            strip_quotes(trimmed.as_str())
        },
    }
}

/// Whether the text has a line holding `def ` that, trimmed, ends in `):`.
pub open spec fn action_def_line_ok(s: Seq<char>) -> bool {
    let ls = lines_spec(s);
    let j = first_containing(ls, 0, "def "@);
    j < ls.len() && ends_with(trim_spec(ls[j]), "):"@)
}

/// The parameter names of an action function: the pieces of its `def` line
/// between parentheses and commas, up to the first optional parameter.
pub open spec fn action_params_spec(s: Seq<char>) -> Seq<Seq<char>> {
    let ls = lines_spec(s);
    let j = first_containing(ls, 0, "def "@);
    let line = trim_spec(ls[j]);
    let base = line.take(line.len() - 2);
    let segs = split_any_spec(base, seq!['(', ',']);
    let after = segs.skip(1);
    let kept = after.take(first_containing(after, 0, "comment=None"@));
    kept.map_values(|x: Seq<char>| trim_spec(x))
}

pub fn parse_pymodd_structure_of_pymodd_action_function(action_function_content: &str) -> (r:
    PymoddStructure)
    requires
        has_def_line(action_function_content@),
        action_def_line_ok(action_function_content@),
    ensures
        ps_model(r).name == function_name_spec(action_function_content@),
        ps_model(r).parameters == action_params_spec(action_function_content@),
{
    proof {
        reveal_strlit("def ");
        reveal_strlit("):");
        reveal_strlit("comment=None");
    }
    let name = parse_function_name(action_function_content);
    let lines = str_lines(action_function_content);
    let ghost ls = lines@.map_values(|x: String| x@);
    let j = find_line_containing(&lines, 0, "def ");
    proof {
        crate::text::lemma_first_containing(ls, 0, "def "@);
    }
    let line = str_trim(lines[j].as_str());
    proof {
        assert(("):")@ =~= seq![')', ':']);
    }
    let base = match crate::text::str_strip_suffix(line.as_str(), "):") {
        Option::Some(b) => b,
        Option::None => {
            proof {
                assert(false);
            }
            line
        },
    };
    proof {
        assert(base@ =~= trim_spec(ls[j as int]).take(trim_spec(ls[j as int]).len() - 2));
    }
    let seps: Vec<char> = vec!['(', ','];
    let segs = str_split_any(base.as_str(), &seps);
    proof {
        assert(seps@ =~= seq!['(', ',']);
        assert(split_any_spec(base@, seps@).len() >= 1);
    }
    let after = vec_slice_strings(&segs, 1, segs.len());
    proof {
        assert(after@.map_values(|x: String| x@) =~= split_any_spec(base@, seps@).skip(1));
    }
    let k = find_line_containing(&after, 0, "comment=None");
    proof {
        crate::text::lemma_first_containing(after@.map_values(|x: String| x@), 0, "comment=None"@);
    }
    let kept = vec_slice_strings(&after, 0, k);
    proof {
        assert(kept@.map_values(|x: String| x@) =~= after@.map_values(|x: String| x@).take(
            k as int,
        ));
    }
    let parameters = trim_all(&kept);
    let r = PymoddStructure { name, parameters };
    proof {
        assert(ps_model(r).parameters =~= action_params_spec(action_function_content@));
    }
    r
}

/// The chunk conditions under which an action chunk parses without panic.
pub open spec fn action_chunk_ok(c: Seq<char>) -> bool {
    action_type_line_ok(c) && has_def_line(c) && action_def_line_ok(c)
}

/// The action map read off the chunks of the actions source: one entry per
/// chunk, its modd tag to its structure.
pub open spec fn actions_map_spec(chunks: Seq<Seq<char>>) -> Seq<(Seq<char>, PymoddStructureV)> {
    chunks.map_values(
        |c: Seq<char>|
            (
                action_name_spec(c),
                PymoddStructureV { name: function_name_spec(c), parameters: action_params_spec(c) },
            ),
    )
}

/// The chunks of a pymodd source file: blank-line-separated blocks, the
/// leading `n` header blocks dropped.
pub open spec fn source_chunks(s: Seq<char>, n: int) -> Seq<Seq<char>> {
    let chunks = split_str_spec(s, "\n\n\n"@);
    if chunks.len() >= n {
        chunks.skip(n)
    } else {
        Seq::<Seq<char>>::empty()
    }
}

pub fn generate_actions_to_pymodd_structure_map(actions_file_content: &str) -> (r: Vec<
    (String, PymoddStructure),
>)
    requires
        forall|k: int|
            0 <= k < source_chunks(actions_file_content@, 3).len() ==> action_chunk_ok(
                #[trigger] source_chunks(actions_file_content@, 3)[k],
            ),
    ensures
        structs_model(r@) == actions_map_spec(source_chunks(actions_file_content@, 3)),
{
    proof {
        reveal_strlit("\n\n\n");
    }
    let raw = str_split_str(actions_file_content, "\n\n\n");
    let chunks = if raw.len() >= 3 {
        vec_slice_strings(&raw, 3, raw.len())
    } else {
        Vec::new()
    };
    let ghost cs = source_chunks(actions_file_content@, 3);
    proof {
        assert(raw@.map_values(|x: String| x@).subrange(3, raw@.len() as int) =~= raw@.map_values(
            |x: String| x@,
        ).skip(3));
        assert(chunks@.map_values(|x: String| x@) =~= cs);
    }
    let mut out: Vec<(String, PymoddStructure)> = Vec::new();
    let mut i: usize = 0;
    while i < chunks.len()
        invariant
            0 <= i <= chunks@.len(),
            chunks@.map_values(|x: String| x@) == cs,
            forall|k: int| 0 <= k < cs.len() ==> action_chunk_ok(#[trigger] cs[k]),
            out@.len() == i,
            forall|k: int|
                0 <= k < i ==> structs_model(out@)[k] == #[trigger] actions_map_spec(cs)[k],
        decreases chunks@.len() - i,
    {
        let chunk = &chunks[i];
        proof {
            assert(cs[i as int] == chunk@);
        }
        let name = parse_action_name_of_pymodd_action_function(chunk.as_str());
        let st = parse_pymodd_structure_of_pymodd_action_function(chunk.as_str());
        out.push((name, st));
        i = i + 1;
    }
    proof {
        assert(structs_model(out@) =~= actions_map_spec(cs));
    }
    out
}

// ---------------------------------------------------------------------------
// names and parameter lists of pymodd function classes
// ---------------------------------------------------------------------------

/// Whether the text has a line holding `self.function = `.
pub open spec fn has_function_line(s: Seq<char>) -> bool {
    first_containing(lines_spec(s), 0, "self.function = "@) < lines_spec(s).len()
}

/// The function's modd tag: the quoted text after the last ` = ` on its
/// `self.function` line.
pub open spec fn function_type_spec(s: Seq<char>) -> Seq<char> {
    let ls = lines_spec(s);
    let i = first_containing(ls, 0, "self.function = "@);
    strip_quotes_spec(after_last(ls[i], " = "@))
}

pub fn parse_function_type_of_pymodd_function_class(function_class_content: &str) -> (r: String)
    requires
        has_function_line(function_class_content@),
    ensures
        r@ == function_type_spec(function_class_content@),
{
    proof {
        reveal_strlit("self.function = ");
        reveal_strlit(" = ");
    }
    let lines = str_lines(function_class_content);
    let ghost ls = lines@.map_values(|x: String| x@);
    let i = find_line_containing(&lines, 0, "self.function = ");
    proof {
        crate::text::lemma_first_containing(ls, 0, "self.function = "@);
    }
    let tail = str_after_last(lines[i].as_str(), " = ");
    strip_quotes(tail.as_str())
}

/// The parameter names of a function class: the pieces of its `__init__`
/// line after `self`, split at parentheses and commas.
pub open spec fn function_params_spec(s: Seq<char>) -> Seq<Seq<char>> {
    let ls = lines_spec(s);
    let j = first_containing(ls, 0, "def __init__("@);
    let line = if j < ls.len() {
        ls[j]
    } else {
        Seq::<char>::empty()
    };
    let rep = replace_spec(trim_spec(line), "):"@, Seq::<char>::empty());
    let segs = split_any_spec(rep, seq!['(', ',']);
    if segs.len() >= 2 {
        segs.skip(2).map_values(|x: Seq<char>| trim_spec(x))
    } else {
        Seq::<Seq<char>>::empty()
    }
}

pub fn parse_pymodd_structure_of_pymodd_function_class(function_class_content: &str) -> (r:
    PymoddStructure)
    requires
        has_class_line(function_class_content@),
    ensures
        ps_model(r).name == class_name_spec(function_class_content@),
        ps_model(r).parameters == function_params_spec(function_class_content@),
{
    proof {
        reveal_strlit("def __init__(");
        reveal_strlit("):");
    }
    let name = parse_class_name(function_class_content);
    let lines = str_lines(function_class_content);
    let ghost ls = lines@.map_values(|x: String| x@);
    let j = find_line_containing(&lines, 0, "def __init__(");
    proof {
        crate::text::lemma_first_containing(ls, 0, "def __init__("@);
    }
    let line: String = if j < lines.len() {
        lines[j].clone()
    } else {
        String::new()
    };
    let trimmed = str_trim(line.as_str());
    proof {
        assert(("):")@.len() > 0);
    }
    let rep = str_replace(trimmed.as_str(), "):", "");
    proof {
        reveal_strlit("");
        assert(("")@ =~= Seq::<char>::empty());
    }
    let seps: Vec<char> = vec!['(', ','];
    let segs = str_split_any(rep.as_str(), &seps);
    proof {
        assert(seps@ =~= seq!['(', ',']);
    }
    let parameters = if segs.len() >= 2 {
        let after = vec_slice_strings(&segs, 2, segs.len());
        proof {
            assert(after@.map_values(|x: String| x@) =~= split_any_spec(rep@, seps@).skip(2));
        }
        trim_all(&after)
    } else {
        Vec::new()
    };
    let r = PymoddStructure { name, parameters };
    proof {
        assert(ps_model(r).parameters =~= function_params_spec(function_class_content@));
    }
    r
}

/// The chunk conditions under which a function chunk parses without panic.
pub open spec fn function_chunk_ok(c: Seq<char>) -> bool {
    has_function_line(c) && has_class_line(c)
}

/// The function-map entries read off the chunks: one per chunk that holds
/// `self.options = `.
pub open spec fn functions_map_entries(chunks: Seq<Seq<char>>) -> Seq<
    (Seq<char>, PymoddStructureV),
>
    decreases chunks.len(),
{
    if chunks.len() == 0 {
        Seq::<(Seq<char>, PymoddStructureV)>::empty()
    } else if find_str(chunks[0], "self.options = "@) >= 0 {
        seq![
            (
                function_type_spec(chunks[0]),
                PymoddStructureV {
                    name: class_name_spec(chunks[0]),
                    parameters: function_params_spec(chunks[0]),
                },
            ),
        ] + functions_map_entries(chunks.skip(1))
    } else {
        functions_map_entries(chunks.skip(1))
    }
}

/// The hard-coded entry for the condition function, whose pymodd shape does
/// not follow the generic class pattern.
pub open spec fn condition_entry() -> (Seq<char>, PymoddStructureV) {
    (
        "condition"@,
        PymoddStructureV {
            name: "Condition"@,
            parameters: seq!["item_a"@, "operator"@, "item_b"@],
        },
    )
}

pub proof fn lemma_functions_map_entries_snoc(chunks: Seq<Seq<char>>, x: Seq<char>)
    ensures
        find_str(x, "self.options = "@) >= 0 ==> functions_map_entries(chunks.push(x))
            == functions_map_entries(chunks).push(
            (
                function_type_spec(x),
                PymoddStructureV { name: class_name_spec(x), parameters: function_params_spec(x) },
            ),
        ),
        find_str(x, "self.options = "@) < 0 ==> functions_map_entries(chunks.push(x))
            == functions_map_entries(chunks),
    decreases chunks.len(),
{
    if chunks.len() == 0 {
        assert(chunks.push(x)[0] == x);
        assert(chunks.push(x).skip(1) =~= chunks);
        if find_str(x, "self.options = "@) >= 0 {
            let e = (
                function_type_spec(x),
                PymoddStructureV { name: class_name_spec(x), parameters: function_params_spec(x) },
            );
            assert(functions_map_entries(chunks.push(x)) == seq![e] + functions_map_entries(
                chunks,
            ));
            assert(seq![e] + functions_map_entries(chunks) =~= functions_map_entries(
                chunks,
            ).push(e));
        }
    } else {
        lemma_functions_map_entries_snoc(chunks.skip(1), x);
        assert(chunks.push(x)[0] == chunks[0]);
        assert(chunks.push(x).skip(1) =~= chunks.skip(1).push(x));
        if find_str(chunks[0], "self.options = "@) >= 0 {
            let e0 = (
                function_type_spec(chunks[0]),
                PymoddStructureV {
                    name: class_name_spec(chunks[0]),
                    parameters: function_params_spec(chunks[0]),
                },
            );
            assert(functions_map_entries(chunks.push(x)) == seq![e0] + functions_map_entries(
                chunks.skip(1).push(x),
            ));
            assert(functions_map_entries(chunks) == seq![e0] + functions_map_entries(
                chunks.skip(1),
            ));
            if find_str(x, "self.options = "@) >= 0 {
                let e = (
                    function_type_spec(x),
                    PymoddStructureV {
                        name: class_name_spec(x),
                        parameters: function_params_spec(x),
                    },
                );
                assert(seq![e0] + functions_map_entries(chunks.skip(1)).push(e) =~= (seq![e0]
                    + functions_map_entries(chunks.skip(1))).push(e));
            }
        } else {
            assert(functions_map_entries(chunks.push(x)) == functions_map_entries(
                chunks.skip(1).push(x),
            ));
            assert(functions_map_entries(chunks) == functions_map_entries(chunks.skip(1)));
        }
    }
}

pub fn generate_functions_to_pymodd_structure_map(functions_file_content: &str) -> (r: Vec<
    (String, PymoddStructure),
>)
    requires
        forall|k: int|
            0 <= k < source_chunks(functions_file_content@, 5).len() && find_str(
                #[trigger] source_chunks(functions_file_content@, 5)[k],
                "self.options = "@,
            ) >= 0 ==> function_chunk_ok(source_chunks(functions_file_content@, 5)[k]),
    ensures
        structs_model(r@) == seq![condition_entry()] + functions_map_entries(
            source_chunks(functions_file_content@, 5),
        ),
{
    proof {
        reveal_strlit("\n\n\n");
        reveal_strlit("self.options = ");
        reveal_strlit("condition");
        reveal_strlit("Condition");
        reveal_strlit("item_a");
        reveal_strlit("operator");
        reveal_strlit("item_b");
    }
    let mut out: Vec<(String, PymoddStructure)> = Vec::new();
    let cond_args: Vec<&str> = vec!["item_a", "operator", "item_b"];
    proof {
        assert(cond_args@.map_values(|x: &str| x@) =~= seq!["item_a"@, "operator"@, "item_b"@]);
    }
    let cond = PymoddStructure::new("Condition", cond_args);
    proof {
        assert(ps_model(cond) == condition_entry().1);
    }
    out.push(("condition".to_owned(), cond));
    proof {
        assert(structs_model(out@) =~= seq![condition_entry()]);
    }
    let raw = str_split_str(functions_file_content, "\n\n\n");
    let chunks = if raw.len() >= 5 {
        vec_slice_strings(&raw, 5, raw.len())
    } else {
        Vec::new()
    };
    let ghost cs = source_chunks(functions_file_content@, 5);
    proof {
        assert(raw@.map_values(|x: String| x@).subrange(5, raw@.len() as int) =~= raw@.map_values(
            |x: String| x@,
        ).skip(5));
        assert(chunks@.map_values(|x: String| x@) =~= cs);
        assert(cs.take(0) =~= Seq::<Seq<char>>::empty());
    }
    let mut i: usize = 0;
    while i < chunks.len()
        invariant
            0 <= i <= chunks@.len(),
            chunks@.map_values(|x: String| x@) == cs,
            forall|k: int|
                0 <= k < cs.len() && find_str(#[trigger] cs[k], "self.options = "@) >= 0
                    ==> function_chunk_ok(cs[k]),
            structs_model(out@) == seq![condition_entry()] + functions_map_entries(
                cs.take(i as int),
            ),
        decreases chunks@.len() - i,
    {
        let chunk = &chunks[i];
        proof {
            reveal_strlit("self.options = ");
            assert(cs[i as int] == chunk@);
            lemma_functions_map_entries_snoc(cs.take(i as int), cs[i as int]);
            assert(cs.take(i as int).push(cs[i as int]) =~= cs.take(i + 1));
        }
        if str_contains(chunk.as_str(), "self.options = ") {
            let ghost prev = out@;
            let ftype = parse_function_type_of_pymodd_function_class(chunk.as_str());
            let st = parse_pymodd_structure_of_pymodd_function_class(chunk.as_str());
            out.push((ftype, st));
            proof {
                assert(structs_model(out@) =~= structs_model(prev).push(
                    (
                        function_type_spec(cs[i as int]),
                        PymoddStructureV {
                            name: class_name_spec(cs[i as int]),
                            parameters: function_params_spec(cs[i as int]),
                        },
                    ),
                ));
            }
        }
        i = i + 1;
    }
    proof {
        assert(cs.take(cs.len() as int) =~= cs);
    }
    out
}

// ---------------------------------------------------------------------------
// the registry object
// ---------------------------------------------------------------------------

/// All lookup tables the transpiler needs, built once from the pymodd API's
/// own source text and read-only thereafter.
pub struct PymoddMaps {
    pub triggers: Vec<(String, String)>,
    pub ui_targets: Vec<(String, String)>,
    pub flips: Vec<(String, String)>,
    pub keys: Vec<(String, String)>,
    pub data_types: Vec<(String, String)>,
    pub actions: Vec<(String, PymoddStructure)>,
    pub functions: Vec<(String, PymoddStructure)>,
}

/// The structure for a tag, the placeholder when the map has no entry.
pub open spec fn structure_or_undefined(
    pairs: Seq<(Seq<char>, PymoddStructureV)>,
    key: Seq<char>,
) -> PymoddStructureV {
    match assoc_last(pairs, key) {
        Option::Some(v) => v,
        Option::None => undefined_structure(),
    }
}

/// A string-map lookup with a fixed fallback.
pub open spec fn lookup_or(
    pairs: Seq<(Seq<char>, Seq<char>)>,
    key: Seq<char>,
    fallback: Seq<char>,
) -> Seq<char> {
    match assoc_last(pairs, key) {
        Option::Some(v) => v,
        Option::None => fallback,
    }
}

/// The model of the whole registry.
pub struct MapsV {
    pub triggers: Seq<(Seq<char>, Seq<char>)>,
    pub ui_targets: Seq<(Seq<char>, Seq<char>)>,
    pub flips: Seq<(Seq<char>, Seq<char>)>,
    pub keys: Seq<(Seq<char>, Seq<char>)>,
    pub data_types: Seq<(Seq<char>, Seq<char>)>,
    pub actions: Seq<(Seq<char>, PymoddStructureV)>,
    pub functions: Seq<(Seq<char>, PymoddStructureV)>,
}

pub open spec fn maps_model(m: PymoddMaps) -> MapsV {
    MapsV {
        triggers: pairs_model(m.triggers@),
        ui_targets: pairs_model(m.ui_targets@),
        flips: pairs_model(m.flips@),
        keys: pairs_model(m.keys@),
        data_types: pairs_model(m.data_types@),
        actions: structs_model(m.actions@),
        functions: structs_model(m.functions@),
    }
}

impl PymoddMaps {
    /// Builds the whole registry: enum-style maps from the script source
    /// text, and the action and function structures from their own files.
    pub fn build(enums_source: &str, actions_source: &str, functions_source: &str) -> (r:
        PymoddMaps)
        requires
            forall|k: int|
                0 <= k < source_chunks(actions_source@, 3).len() ==> action_chunk_ok(
                    #[trigger] source_chunks(actions_source@, 3)[k],
                ),
            forall|k: int|
                0 <= k < source_chunks(functions_source@, 5).len() && find_str(
                    #[trigger] source_chunks(functions_source@, 5)[k],
                    "self.options = "@,
                ) >= 0 ==> function_chunk_ok(source_chunks(functions_source@, 5)[k]),
        ensures
            pairs_model(r.triggers@) == enum_map_spec("Trigger"@, enums_source@),
            pairs_model(r.ui_targets@) == enum_map_spec("UiTarget"@, enums_source@),
            pairs_model(r.flips@) == enum_map_spec("Flip"@, enums_source@),
            pairs_model(r.keys@) == enum_map_spec("Key"@, enums_source@),
            pairs_model(r.data_types@) == enum_map_spec("DataType"@, enums_source@),
            structs_model(r.actions@) == actions_map_spec(source_chunks(actions_source@, 3)),
            structs_model(r.functions@) == seq![condition_entry()] + functions_map_entries(
                source_chunks(functions_source@, 5),
            ),
    {
        PymoddMaps {
            triggers: generate_to_pymodd_enums_map_for_type("Trigger", enums_source),
            ui_targets: generate_to_pymodd_enums_map_for_type("UiTarget", enums_source),
            flips: generate_to_pymodd_enums_map_for_type("Flip", enums_source),
            keys: generate_to_pymodd_enums_map_for_type("Key", enums_source),
            data_types: generate_to_pymodd_enums_map_for_type("DataType", enums_source),
            actions: generate_actions_to_pymodd_structure_map(actions_source),
            functions: generate_functions_to_pymodd_structure_map(functions_source),
        }
    }

    /// An empty registry: every lookup falls back.
    pub fn new_empty() -> (r: PymoddMaps)
        ensures
            r.triggers@.len() == 0,
            r.ui_targets@.len() == 0,
            r.flips@.len() == 0,
            r.keys@.len() == 0,
            r.data_types@.len() == 0,
            r.actions@.len() == 0,
            r.functions@.len() == 0,
    {
        PymoddMaps {
            triggers: Vec::new(),
            ui_targets: Vec::new(),
            flips: Vec::new(),
            keys: Vec::new(),
            data_types: Vec::new(),
            actions: Vec::new(),
            functions: Vec::new(),
        }
    }

    /// The structure for an action tag, the placeholder when unknown.
    pub fn action_structure(&self, tag: &str) -> (r: PymoddStructure)
        ensures
            ps_model(r) == structure_or_undefined(structs_model(self.actions@), tag@),
    {
        match lookup_structure_map(&self.actions, tag) {
            Option::Some(st) => st.clone(),
            Option::None => PymoddStructure::undefined(),
        }
    }

    /// The structure for a function tag, the placeholder when unknown.
    pub fn function_structure(&self, tag: &str) -> (r: PymoddStructure)
        ensures
            ps_model(r) == structure_or_undefined(structs_model(self.functions@), tag@),
    {
        match lookup_structure_map(&self.functions, tag) {
            Option::Some(st) => st.clone(),
            Option::None => PymoddStructure::undefined(),
        }
    }
}

} // verus!
