//! The code generator: renders scripts and their statements into Python
//! text, reconstructing control flow, folding operator calls into infix
//! expressions, commenting out disabled statements, and resolving
//! constants, variables and script references.

use vstd::prelude::*;

use crate::actions::{
    ac_model, acs_model, arg_model, args_model, asize_action, asize_actions, asize_arg, asize_args,
    asize_func, asize_val, lemma_args_model_index, lemma_args_model_len, lemma_asize_actions_index,
    lemma_asize_args_index, lemma_acs_model_index, lemma_acs_model_len, Action, ActionV, ArgV,
    Argument, ArgumentV, ArgumentValue, Function, FunctionV,
};
use crate::argument::find_arg_spec;
use crate::argument_values_iterator::{
    classify, op_from_function_spec, op_model, ArgEventV, ArgumentValueIterItem, Operation,
    OperationV,
};
use crate::directory::{dir_model, script_model, Directory, DirectoryV, DirItemV, Script, ScriptV};
use crate::directory_iterator::{events_of_items, find_key_event, DirEventV, DirectoryIterItem};
use crate::document::{jval, JsonV, JsonValue};
use crate::game_variables_file::{category_class_name_spec, pymodd_class_name_of_category};
use crate::text::{
    concat_nl, drop_cr, ends_with, find_str, i64_dec_spec, i64_to_string, join_spec, lines_spec,
    repeat_spec, replace_spec, starts_with, str_ends_with, str_eq, str_join, str_lines, str_repeat,
    str_replace, str_split_str, str_starts_with, str_trim, str_trim_end, split_str_spec,
    trim_end_spec, trim_spec, u64_to_string,
};
use crate::to_pymodd_maps::{
    lookup_or, lookup_string_map, maps_model, structure_or_undefined, MapsV, PymoddMaps,
};
use crate::utils::{quoted_spec, surround_string_with_quotes, TAB_SIZE};
use crate::variable_categories::{
    cats_model, find_var_spec, CategoriesToVariables, Variable, VariableV,
};

verus! {

// ---------------------------------------------------------------------------
// operators
// ---------------------------------------------------------------------------

/// The ASCII-lowercased form of a string: enough to recognize the word
/// operators whatever their case.
pub open spec fn ascii_lower_spec(s: Seq<char>) -> Seq<char>
    decreases s.len(),
{
    if s.len() == 0 {
        Seq::<char>::empty()
    } else {
        seq![ascii_lower_char(s[0])] + ascii_lower_spec(s.skip(1))
    }
}

pub open spec fn ascii_lower_char(c: char) -> char {
    if c == 'A' {
        'a'
    } else if c == 'B' {
        'b'
    } else if c == 'C' {
        'c'
    } else if c == 'D' {
        'd'
    } else if c == 'E' {
        'e'
    } else if c == 'F' {
        'f'
    } else if c == 'G' {
        'g'
    } else if c == 'H' {
        'h'
    } else if c == 'I' {
        'i'
    } else if c == 'J' {
        'j'
    } else if c == 'K' {
        'k'
    } else if c == 'L' {
        'l'
    } else if c == 'M' {
        'm'
    } else if c == 'N' {
        'n'
    } else if c == 'O' {
        'o'
    } else if c == 'P' {
        'p'
    } else if c == 'Q' {
        'q'
    } else if c == 'R' {
        'r'
    } else if c == 'S' {
        's'
    } else if c == 'T' {
        't'
    } else if c == 'U' {
        'u'
    } else if c == 'V' {
        'v'
    } else if c == 'W' {
        'w'
    } else if c == 'X' {
        'x'
    } else if c == 'Y' {
        'y'
    } else if c == 'Z' {
        'z'
    } else {
        c
    }
}

fn ascii_lower_exec(c: char) -> (r: char)
    ensures
        r == ascii_lower_char(c),
{
    if c == 'A' {
        'a'
    } else if c == 'B' {
        'b'
    } else if c == 'C' {
        'c'
    } else if c == 'D' {
        'd'
    } else if c == 'E' {
        'e'
    } else if c == 'F' {
        'f'
    } else if c == 'G' {
        'g'
    } else if c == 'H' {
        'h'
    } else if c == 'I' {
        'i'
    } else if c == 'J' {
        'j'
    } else if c == 'K' {
        'k'
    } else if c == 'L' {
        'l'
    } else if c == 'M' {
        'm'
    } else if c == 'N' {
        'n'
    } else if c == 'O' {
        'o'
    } else if c == 'P' {
        'p'
    } else if c == 'Q' {
        'q'
    } else if c == 'R' {
        'r'
    } else if c == 'S' {
        's'
    } else if c == 'T' {
        't'
    } else if c == 'U' {
        'u'
    } else if c == 'V' {
        'v'
    } else if c == 'W' {
        'w'
    } else if c == 'X' {
        'x'
    } else if c == 'Y' {
        'y'
    } else if c == 'Z' {
        'z'
    } else {
        c
    }
}

/// The recognized operator symbols pass through; the word operators are
/// recognized in any letter case; anything else is no operator.
pub open spec fn into_operator_spec(s: Seq<char>) -> Option<Seq<char>> {
    if s == "=="@ || s == "!="@ || s == "<="@ || s == "<"@ || s == ">"@ || s == ">="@ || s == "+"@
        || s == "-"@ || s == "/"@ || s == "*"@ || s == "%"@ || s == "**"@ {
        Option::Some(s)
    } else if ascii_lower_spec(s) == "and"@ {
        Option::Some("and"@)
    } else if ascii_lower_spec(s) == "or"@ {
        Option::Some("or"@)
    } else {
        Option::None
    }
}

fn ascii_lower_string(s: &str) -> (r: String)
    ensures
        r@ == ascii_lower_spec(s@),
{
    let n = s.unicode_len();
    let mut out = String::new();
    let mut i: usize = 0;
    proof {
        assert(s@.take(0) =~= Seq::<char>::empty());
        assert(out@ =~= ascii_lower_spec(s@.take(0)));
    }
    while i < n
        invariant
            0 <= i <= n,
            n == s@.len(),
            out@ == ascii_lower_spec(s@.take(i as int)),
        decreases n - i,
    {
        let c = ascii_lower_exec(s.get_char(i));
        let piece = crate::text::char_to_string(c);
        out.append(piece.as_str());
        proof {
            lemma_ascii_lower_snoc(s@.take(i as int), s@[i as int]);
            assert(s@.take(i as int).push(s@[i as int]) =~= s@.take(i + 1));
        }
        i = i + 1;
    }
    proof {
        assert(s@.take(n as int) =~= s@);
    }
    out
}

proof fn lemma_ascii_lower_snoc(s: Seq<char>, c: char)
    ensures
        ascii_lower_spec(s.push(c)) == ascii_lower_spec(s).push(ascii_lower_char(c)),
    decreases s.len(),
{
    if s.len() == 0 {
        assert(s.push(c)[0] == c);
        assert(s.push(c).skip(1) =~= s);
        assert(ascii_lower_spec(s.push(c)) == seq![ascii_lower_char(c)] + ascii_lower_spec(s));
        assert(seq![ascii_lower_char(c)] + ascii_lower_spec(s) =~= ascii_lower_spec(s).push(
            ascii_lower_char(c),
        ));
    } else {
        lemma_ascii_lower_snoc(s.skip(1), c);
        assert(s.push(c)[0] == s[0]);
        assert(s.push(c).skip(1) =~= s.skip(1).push(c));
        assert(ascii_lower_spec(s.push(c)) == seq![ascii_lower_char(s[0])] + ascii_lower_spec(
            s.skip(1).push(c),
        ));
        assert(ascii_lower_spec(s) == seq![ascii_lower_char(s[0])] + ascii_lower_spec(s.skip(1)));
        assert(seq![ascii_lower_char(s[0])] + ascii_lower_spec(s.skip(1)).push(
            ascii_lower_char(c),
        ) =~= (seq![ascii_lower_char(s[0])] + ascii_lower_spec(s.skip(1))).push(
            ascii_lower_char(c),
        ));
    }
}

/// Recognizes an operator string.
pub fn into_operator(string: &str) -> (r: Option<String>)
    ensures
        match r {
            Option::Some(s) => into_operator_spec(string@) == Option::Some(s@),
            Option::None => into_operator_spec(string@) is None,
        },
{
    if str_eq(string, "==") || str_eq(string, "!=") || str_eq(string, "<=") || str_eq(string, "<")
        || str_eq(string, ">") || str_eq(string, ">=") || str_eq(string, "+") || str_eq(
        string,
        "-",
    ) || str_eq(string, "/") || str_eq(string, "*") || str_eq(string, "%") || str_eq(
        string,
        "**",
    ) {
        Option::Some(string.to_owned())
    } else {
        let lower = ascii_lower_string(string);
        if str_eq(lower.as_str(), "and") {
            Option::Some("and".to_owned())
        } else if str_eq(lower.as_str(), "or") {
            Option::Some("or".to_owned())
        } else {
            Option::None
        }
    }
}

// ---------------------------------------------------------------------------
// commenting machinery
// ---------------------------------------------------------------------------

/// One line commented out: an already-commented line is pushed one level
/// deeper, any other line gets the comment marker.
pub open spec fn comment_line(line: Seq<char>) -> Seq<char> {
    if starts_with(trim_spec(line), "# "@) {
        "# \t"@ + trim_spec(line).skip(2)
    } else {
        "# "@ + line
    }
}

/// Every line of a statement commented out, each closed with a newline.
pub open spec fn comment_out_spec(s: Seq<char>) -> Seq<char> {
    concat_nl(lines_spec(s).map_values(|l: Seq<char>| comment_line(l)))
}

/// Comments out a whole rendered statement, line by line.
pub fn comment_out_statement_content(statement_content: &str) -> (r: String)
    ensures
        r@ == comment_out_spec(statement_content@),
{
    let lines = str_lines(statement_content);
    let ghost ls = lines_spec(statement_content@);
    let mut commented: Vec<String> = Vec::new();
    let mut i: usize = 0;
    while i < lines.len()
        invariant
            0 <= i <= lines@.len(),
            lines@.map_values(|x: String| x@) == ls,
            ls.len() == lines@.len(),
            commented@.len() == i,
            forall|k: int|
                0 <= k < i ==> commented@[k]@ == comment_line(#[trigger] ls[k]),
        decreases lines@.len() - i,
    {
        proof {
            reveal_strlit("# ");
            reveal_strlit("# \t");
        }
        let line = &lines[i];
        let trimmed = str_trim(line.as_str());
        let piece: String = if str_starts_with(trimmed.as_str(), "# ") {
            let n = trimmed.as_str().unicode_len();
            let rest = trimmed.as_str().substring_char(2, n);
            let mut out: String = "# \t".to_owned();
            out.append(rest);
            proof {
                assert(rest@ =~= trim_spec(ls[i as int]).skip(2));
            }
            out
        } else {
            let mut out: String = "# ".to_owned();
            out.append(line.as_str());
            out
        };
        commented.push(piece);
        i = i + 1;
    }
    proof {
        assert(commented@.map_values(|x: String| x@) =~= ls.map_values(
            |l: Seq<char>| comment_line(l),
        ));
    }
    let joined = crate::text::join_lines_nl(&commented, 0, commented.len());
    proof {
        assert(commented@.map_values(|x: String| x@).subrange(0, commented@.len() as int)
            =~= commented@.map_values(|x: String| x@));
    }
    joined
}

/// Whether a rendered body consists only of commented lines: more than one
/// line, and no body line that is indented yet uncommented.
pub open spec fn body_commented_spec(s: Seq<char>) -> bool {
    let ls = lines_spec(s);
    ls.len() != 1 && !(exists|k: int|
        1 <= k < ls.len() && starts_with(#[trigger] ls[k], "\t"@) && !starts_with(
            ls[k],
            "\t# "@,
        ))
}

pub fn is_body_commented_out(body_content: &str) -> (r: bool)
    ensures
        r == body_commented_spec(body_content@),
{
    proof {
        reveal_strlit("\t");
        reveal_strlit("\t# ");
    }
    let lines = str_lines(body_content);
    let ghost ls = lines_spec(body_content@);
    if lines.len() == 1 {
        return false;
    }
    let mut i: usize = 1;
    if lines.len() == 0 {
        proof {
            assert(!(exists|k: int|
                1 <= k < ls.len() && starts_with(#[trigger] ls[k], "\t"@) && !starts_with(
                    ls[k],
                    "\t# "@,
                )));
        }
        return true;
    }
    while i < lines.len()
        invariant
            1 <= i <= lines@.len(),
            lines@.map_values(|x: String| x@) == ls,
            ls == lines_spec(body_content@),
            ls.len() == lines@.len(),
            ls.len() != 1,
            forall|k: int|
                1 <= k < i ==> !(starts_with(#[trigger] ls[k], "\t"@) && !starts_with(
                    ls[k],
                    "\t# "@,
                )),
        decreases lines@.len() - i,
    {
        proof {
            reveal_strlit("\t");
            reveal_strlit("\t# ");
        }
        let line = &lines[i];
        if str_starts_with(line.as_str(), "\t") && !str_starts_with(line.as_str(), "\t# ") {
            proof {
                assert(1 <= i < ls.len() && starts_with(#[trigger] ls[i as int], "\t"@)
                    && !starts_with(ls[i as int], "\t# "@));
            }
            return false;
        }
        i = i + 1;
    }
    proof {
        if exists|k: int|
            1 <= k < ls.len() && starts_with(#[trigger] ls[k], "\t"@) && !starts_with(
                ls[k],
                "\t# "@,
            ) {
            let k = choose|k: int|
                1 <= k < ls.len() && starts_with(#[trigger] ls[k], "\t"@) && !starts_with(
                    ls[k],
                    "\t# "@,
                );
            assert(!(starts_with(ls[k], "\t"@) && !starts_with(ls[k], "\t# "@)));
        }
    }
    true
}

/// The then and else parts of a rendered conditional, a `pass` appended to
/// a part whose visible body was entirely commented out.
pub open spec fn append_pass_spec(s: Seq<char>) -> Seq<char> {
    let bodies = split_str_spec(trim_spec(s), "\nelse:"@);
    let then0 = if bodies.len() >= 1 {
        bodies[0]
    } else {
        Seq::<char>::empty()
    };
    let else0 = "else:"@ + (if bodies.len() >= 2 {
        bodies[1]
    } else {
        Seq::<char>::empty()
    });
    let then1 = if body_commented_spec(then0) {
        then0 + "\n\tpass"@
    } else {
        then0
    };
    let else1 = if body_commented_spec(else0) {
        else0 + "\n\tpass"@
    } else {
        else0
    };
    then1 + (if else1 != "else:"@ {
        "\n"@ + else1
    } else {
        Seq::<char>::empty()
    }) + "\n"@
}

/// Appends a `pass` line to each commented-out body of a conditional, so
/// that the emptied blocks stay well-formed.
pub fn append_pass_keyword_to_commented_bodies_of_statement(statement_content: &str) -> (r: String)
    ensures
        r@ == append_pass_spec(statement_content@),
{
    proof {
        reveal_strlit("\nelse:");
        reveal_strlit("else:");
        reveal_strlit("\n\tpass");
        reveal_strlit("\n");
    }
    let trimmed = str_trim(statement_content);
    let bodies = str_split_str(trimmed.as_str(), "\nelse:");
    let ghost bs = split_str_spec(trim_spec(statement_content@), "\nelse:"@);
    let then0: String = if bodies.len() >= 1 {
        bodies[0].clone()
    } else {
        String::new()
    };
    let mut else0: String = "else:".to_owned();
    if bodies.len() >= 2 {
        else0.append(bodies[1].as_str());
    }
    proof {
        assert(bs.len() >= 1);
        assert(then0@ == (if bs.len() >= 1 {
            bs[0]
        } else {
            Seq::<char>::empty()
        }));
        if bs.len() < 2 {
            assert(else0@ =~= "else:"@ + Seq::<char>::empty());
        }
    }
    let mut then1 = then0;
    if is_body_commented_out(then1.as_str()) {
        then1.append("\n\tpass");
    }
    let mut else1 = else0;
    if is_body_commented_out(else1.as_str()) {
        else1.append("\n\tpass");
    }
    let mut out = then1;
    if !str_eq(else1.as_str(), "else:") {
        out.append("\n");
        out.append(else1.as_str());
    } else {
        proof {
            assert(out@ + Seq::<char>::empty() =~= out@);
        }
    }
    out.append("\n");
    proof {
        assert(out@ =~= append_pass_spec(statement_content@));
    }
    out
}

// ---------------------------------------------------------------------------
// the rendering model
// ---------------------------------------------------------------------------

/// Everything the renderer reads: the registry, the variable categories,
/// and the root tree for script references.
pub struct GenCtxV {
    pub m: MapsV,
    pub cats: Seq<(Seq<char>, Seq<VariableV>)>,
    pub root: Seq<DirItemV>,
}

/// The larger of the two operand sizes: the measure operation rendering
/// shrinks.
pub open spec fn omax(op: OperationV) -> nat {
    if asize_arg(op.item_a) >= asize_arg(op.item_b) {
        asize_arg(op.item_a)
    } else {
        asize_arg(op.item_b)
    }
}

/// A found argument is one of the list.
pub proof fn lemma_find_asize(args: Seq<ArgumentV>, name: Seq<char>)
    ensures
        match find_arg_spec(args, name) {
            Option::Some(a) => asize_arg(a) <= asize_args(args),
            Option::None => true,
        },
    decreases args.len(),
{
    if args.len() > 0 && args[0].name != name {
        lemma_find_asize(args.skip(1), name);
    }
}

/// An operation read out of an argument's call is strictly smaller than
/// the argument.
pub proof fn lemma_classify_op_bound(arg: ArgumentV)
    ensures
        (match classify(arg) {
            ArgEventV::Condition(op) => asize_arg(op.item_a) < asize_arg(arg) && asize_arg(
                op.item_b,
            ) < asize_arg(arg),
            ArgEventV::Concatenation(op) => asize_arg(op.item_a) < asize_arg(arg) && asize_arg(
                op.item_b,
            ) < asize_arg(arg),
            ArgEventV::Calculation(op) => asize_arg(op.item_a) < asize_arg(arg) && asize_arg(
                op.item_b,
            ) < asize_arg(arg),
            _ => true,
        }),
{
    match arg.value {
        ArgV::Function(f) => {
            match op_from_function_spec(f) {
                Option::Some(op) => {
                    if f.name == "calculate"@ || f.name == "condition"@ {
                        lemma_asize_args_index(f.args, 0);
                        lemma_asize_args_index(f.args, 1);
                        lemma_asize_args_index(f.args, 2);
                    } else {
                        lemma_find_asize(f.args, "base"@);
                        lemma_find_asize(f.args, "power"@);
                        lemma_find_asize(f.args, "textA"@);
                        lemma_find_asize(f.args, "textB"@);
                    }
                },
                Option::None => {},
            }
        },
        _ => {},
    }
}

/// The outer parentheses dropped, where both are present.
pub open spec fn strip_parens(s: Seq<char>) -> Seq<char> {
    if starts_with(s, "("@) && ends_with(s, ")"@) {
        s.subrange(1, s.len() - 1)
    } else {
        s
    }
}

/// The text of the simple events: plain values, constants, and script
/// references.
pub open spec fn simple_content(ctx: GenCtxV, e: ArgEventV) -> Seq<char> {
    match e {
        ArgEventV::Value(v) => match v {
            JsonV::Str(s) => match find_var_spec(ctx.cats, s) {
                Option::Some(p) => category_class_name_spec(p.0) + "."@ + p.1.enum_name,
                Option::None => quoted_spec(s),
            },
            JsonV::Bool(b) => if b {
                "True"@
            } else {
                "False"@
            },
            JsonV::Int(n) => i64_dec_spec(n),
            JsonV::NumText(t) => t,
            _ => "None"@,
        },
        ArgEventV::Constant(c) => c,
        ArgEventV::ScriptKey(k) => match find_key_event(events_of_items(ctx.root), k) {
            Option::Some(DirEventV::Script(s)) => s.function_name + "()"@,
            _ => "None"@,
        },
        _ => Seq::<char>::empty(),
    }
}

/// The statements of a block rendered one after the other.
pub open spec fn render_actions_spec(ctx: GenCtxV, acts: Seq<ActionV>) -> Seq<char>
    decreases asize_actions(acts), 0int,
{
    if acts.len() == 0 {
        Seq::<char>::empty()
    } else {
        render_action_spec(ctx, acts[0]) + render_actions_spec(ctx, acts.skip(1))
    }
}

/// A nested call rendered with its class name and arguments.
pub open spec fn render_call_spec(ctx: GenCtxV, f: FunctionV) -> Seq<char>
    decreases asize_func(f), 2int,
{
    structure_or_undefined(ctx.m.functions, f.name).name + "("@ + render_args_list_spec(
        ctx,
        f.args,
    ) + ")"@
}

/// One operand of an operation: calculations gain parentheses, nested
/// calls render whole, operations render as text, and simple events as
/// themselves.
pub open spec fn render_operation_item_spec(ctx: GenCtxV, item: ArgumentV) -> Seq<char>
    decreases asize_arg(item), 3int,
    via render_operation_item_decreases
{
    match classify(item) {
        ArgEventV::Calculation(op) => "("@ + render_operation_spec(ctx, op) + ")"@,
        ArgEventV::Condition(op) => render_operation_spec(ctx, op),
        ArgEventV::Concatenation(op) => render_operation_spec(ctx, op),
        ArgEventV::Start(f) => render_call_spec(ctx, f),
        ArgEventV::Actions(acts) => "\n"@ + (if acts.len() > 0 {
            indent_lines(render_actions_spec(ctx, acts))
        } else {
            "\tpass\n"@
        }),
        e => simple_content(ctx, e),
    }
}

#[via_fn]
proof fn render_operation_item_decreases(ctx: GenCtxV, item: ArgumentV) {
    lemma_classify_op_bound(item);
}

/// An operation rendered as its left operand, operator and right operand;
/// the word operators gain surrounding parentheses.
pub open spec fn render_operation_spec(ctx: GenCtxV, op: OperationV) -> Seq<char>
    decreases omax(op), 4int,
{
    let op_str = match op.operator.value {
        ArgV::Value(JsonV::Str(s)) => match into_operator_spec(s) {
            Option::Some(o) => o,
            Option::None => Seq::<char>::empty(),
        },
        _ => Seq::<char>::empty(),
    };
    let content = render_operation_item_spec(ctx, op.item_a) + " "@ + op_str + " "@
        + render_operation_item_spec(ctx, op.item_b);
    if op_str == "and"@ || op_str == "or"@ {
        "("@ + content + ")"@
    } else {
        content
    }
}

/// The text of one argument, before any top-level paren stripping.
pub open spec fn render_arg_piece_spec(ctx: GenCtxV, arg: ArgumentV) -> Seq<char>
    decreases asize_arg(arg), 5int,
    via render_arg_piece_decreases
{
    match classify(arg) {
        ArgEventV::Start(f) => render_call_spec(ctx, f),
        ArgEventV::Condition(op) => render_operation_spec(ctx, op),
        ArgEventV::Concatenation(op) => render_operation_spec(ctx, op),
        ArgEventV::Calculation(op) => render_operation_spec(ctx, op),
        ArgEventV::Actions(acts) => "\n"@ + (if acts.len() > 0 {
            indent_lines(render_actions_spec(ctx, acts))
        } else {
            "\tpass\n"@
        }),
        e => simple_content(ctx, e),
    }
}

#[via_fn]
proof fn render_arg_piece_decreases(ctx: GenCtxV, arg: ArgumentV) {
    lemma_classify_op_bound(arg);
}

/// The text of one argument in a list: the outer parentheses of a
/// condition are dropped.
pub open spec fn rendered_piece(ctx: GenCtxV, arg: ArgumentV) -> Seq<char>
    decreases asize_arg(arg), 6int,
{
    if classify(arg) is Condition {
        strip_parens(render_arg_piece_spec(ctx, arg))
    } else {
        render_arg_piece_spec(ctx, arg)
    }
}

/// An argument list rendered with commas between the pieces.
pub open spec fn render_args_list_spec(ctx: GenCtxV, args: Seq<ArgumentV>) -> Seq<char>
    decreases asize_args(args), 7int,
{
    if args.len() == 0 {
        Seq::<char>::empty()
    } else if args.len() == 1 {
        rendered_piece(ctx, args[0])
    } else {
        rendered_piece(ctx, args[0]) + ", "@ + render_args_list_spec(ctx, args.skip(1))
    }
}

/// Each argument rendered on its own: what the control-flow statements
/// read their parts from.
pub open spec fn args_individually(ctx: GenCtxV, args: Seq<ArgumentV>) -> Seq<Seq<char>>
    decreases asize_args(args), 8int,
{
    if args.len() == 0 {
        Seq::<Seq<char>>::empty()
    } else {
        seq![rendered_piece(ctx, args[0])] + args_individually(ctx, args.skip(1))
    }
}

/// Every line of a block indented one step, each closed with a newline.
pub open spec fn indent_lines(s: Seq<char>) -> Seq<char> {
    concat_nl(lines_spec(s).map_values(|l: Seq<char>| "\t"@ + l))
}

/// The loop variable of a group iteration tag.
pub open spec fn for_all_group(tag: Seq<char>) -> Option<Seq<char>> {
    if tag == "forAllEntities"@ {
        Option::Some("entity"@)
    } else if tag == "forAllProjectiles"@ {
        Option::Some("projectile"@)
    } else if tag == "forAllItems"@ {
        Option::Some("item"@)
    } else if tag == "forAllUnits"@ {
        Option::Some("unit"@)
    } else if tag == "forAllPlayers"@ {
        Option::Some("player"@)
    } else if tag == "forAllItemTypes"@ {
        Option::Some("item_type"@)
    } else if tag == "forAllUnitTypes"@ {
        Option::Some("unit_type"@)
    } else if tag == "forAllRegions"@ {
        Option::Some("region"@)
    } else if tag == "forAllDebris"@ {
        Option::Some("debris"@)
    } else {
        Option::None
    }
}

/// The accessor call a group iteration rewrites to its loop variable.
pub open spec fn selected_call_of(tag: Seq<char>) -> Seq<char> {
    if tag == "forAllEntities"@ {
        "SelectedEntity()"@
    } else if tag == "forAllProjectiles"@ {
        "SelectedProjectile()"@
    } else if tag == "forAllItems"@ {
        "SelectedItem()"@
    } else if tag == "forAllUnits"@ {
        "SelectedUnit()"@
    } else if tag == "forAllPlayers"@ {
        "SelectedPlayer()"@
    } else if tag == "forAllItemTypes"@ {
        "SelectedItemType()"@
    } else if tag == "forAllUnitTypes"@ {
        "SelectedUnitType()"@
    } else if tag == "forAllRegions"@ {
        "SelectedRegion()"@
    } else {
        "SelectedDebris()"@
    }
}

/// The optional keyword arguments of a statement: its comment, then its
/// disabled and client-side flags.
pub open spec fn optional_args_spec(a: ActionV) -> Seq<Seq<char>> {
    (match a.comment {
        Option::Some(c) => if c.len() > 0 {
            seq!["comment="@ + quoted_spec(c)]
        } else {
            Seq::<Seq<char>>::empty()
        },
        Option::None => Seq::<Seq<char>>::empty(),
    }) + (if a.disabled {
        seq!["disabled=True"@]
    } else {
        Seq::<Seq<char>>::empty()
    }) + (if a.ran_on_client {
        seq!["run_on_client=True"@]
    } else {
        Seq::<Seq<char>>::empty()
    })
}

/// The optional arguments as call text, a comma before each; the first
/// stands bare when the statement has no positional arguments.
pub open spec fn optionals_text(opts: Seq<Seq<char>>, bare_first: bool) -> Seq<char>
    decreases opts.len(),
{
    if opts.len() == 0 {
        Seq::<char>::empty()
    } else if bare_first {
        opts[0] + optionals_text(opts.skip(1), false)
    } else {
        ", "@ + opts[0] + optionals_text(opts.skip(1), false)
    }
}

/// One statement rendered: control flow reconstructed, keywords passed
/// through, comments special-cased, and everything else a generic call.
pub open spec fn render_action_spec(ctx: GenCtxV, a: ActionV) -> Seq<char>
    decreases asize_action(a), 1int,
    via render_action_decreases
{
    let ind = args_individually(ctx, a.args);
    let none_txt = "None"@;
    let pass_txt = "\t\tpass\n"@;
    let tag = a.name;
    if tag == "condition"@ {
        let cond = if ind.len() > 0 {
            ind[0]
        } else {
            none_txt
        };
        let then_a = if ind.len() > 1 {
            ind[1]
        } else {
            pass_txt
        };
        let else_a = if ind.len() > 2 {
            ind[2]
        } else {
            pass_txt
        };
        let stripped_then = if ends_with(then_a, "\n"@) {
            then_a.take(then_a.len() - 1)
        } else {
            then_a
        };
        let content = "if "@ + cond + ":"@ + stripped_then + (if else_a != "\n\tpass\n"@ {
            "\nelse:"@ + else_a
        } else {
            "\n"@
        });
        if a.disabled {
            comment_out_spec(content)
        } else {
            append_pass_spec(content)
        }
    } else if tag == "for"@ {
        let start = if ind.len() > 0 {
            ind[0]
        } else {
            none_txt
        };
        let stop = if ind.len() > 1 {
            ind[1]
        } else {
            none_txt
        };
        let variable = if ind.len() > 2 {
            ind[2]
        } else {
            none_txt
        };
        let acts = if ind.len() > 3 {
            ind[3]
        } else {
            pass_txt
        };
        let content = "for "@ + variable + " in range("@ + start + ", "@ + stop + "):"@ + acts;
        if a.disabled {
            comment_out_spec(content)
        } else {
            append_pass_spec(content)
        }
    } else if for_all_group(tag) is Some {
        let gt = for_all_group(tag)->0;
        let group = if ind.len() > 0 {
            ind[0]
        } else {
            none_txt
        };
        let acts = if ind.len() > 1 {
            ind[1]
        } else {
            pass_txt
        };
        let acts2 = replace_spec(acts, selected_call_of(tag), gt);
        let content = "for "@ + gt + " in "@ + group + ":"@ + acts2;
        if a.disabled {
            comment_out_spec(content)
        } else {
            append_pass_spec(content)
        }
    } else if tag == "repeat"@ {
        let count = if ind.len() > 0 {
            ind[0]
        } else {
            none_txt
        };
        let acts = if ind.len() > 1 {
            ind[1]
        } else {
            pass_txt
        };
        let content = "for _ in repeat("@ + count + "):"@ + acts;
        if a.disabled {
            comment_out_spec(content)
        } else {
            append_pass_spec(content)
        }
    } else if tag == "while"@ {
        let cond = if ind.len() > 0 {
            ind[0]
        } else {
            none_txt
        };
        let acts = if ind.len() > 1 {
            ind[1]
        } else {
            pass_txt
        };
        let content = "while "@ + cond + ":"@ + acts;
        if a.disabled {
            comment_out_spec(content)
        } else {
            append_pass_spec(content)
        }
    } else if tag == "setTimeOut"@ {
        let duration = if ind.len() > 0 {
            ind[0]
        } else {
            none_txt
        };
        let acts = if ind.len() > 1 {
            ind[1]
        } else {
            pass_txt
        };
        let content = "with after_timeout("@ + duration + "):"@ + acts;
        if a.disabled {
            comment_out_spec(content)
        } else {
            append_pass_spec(content)
        }
    } else if tag == "break"@ || tag == "continue"@ || tag == "return"@ {
        (if a.disabled {
            "# "@
        } else {
            Seq::<char>::empty()
        }) + tag + "\n"@
    } else if tag == "comment"@ {
        let cname = structure_or_undefined(ctx.m.actions, tag).name;
        let ctext = match a.comment {
            Option::Some(c) => c,
            Option::None => "None"@,
        };
        let opts = optional_args_spec(a);
        let rest_opts = if opts.len() >= 1 {
            opts.skip(1)
        } else {
            opts
        };
        cname + "("@ + quoted_spec(ctext) + optionals_text(rest_opts, false) + ")\n"@
    } else {
        let cname = structure_or_undefined(ctx.m.actions, tag).name;
        cname + "("@ + render_args_list_spec(ctx, a.args) + optionals_text(
            optional_args_spec(a),
            a.args.len() == 0,
        ) + ")\n"@
    }
}

#[via_fn]
proof fn render_action_decreases(ctx: GenCtxV, a: ActionV) {
}

// ---------------------------------------------------------------------------
// the exec renderer
// ---------------------------------------------------------------------------

/// Renders scripts and statements against the registry, the variable
/// categories, and the root tree.
pub struct ScriptsContentBuilder<'a> {
    pub categories_to_variables: &'a CategoriesToVariables,
    pub root_directory: &'a Directory,
    pub maps: &'a PymoddMaps,
}

impl<'a> ScriptsContentBuilder<'a> {
    /// The renderer's whole reading context.
    pub open spec fn ctx(&self) -> GenCtxV {
        GenCtxV {
            m: maps_model(*self.maps),
            cats: cats_model(self.categories_to_variables.categories_to_variables@),
            root: dir_model(*self.root_directory).children,
        }
    }

    pub fn new(
        categories_to_variables: &'a CategoriesToVariables,
        root_directory: &'a Directory,
        maps: &'a PymoddMaps,
    ) -> (r: ScriptsContentBuilder<'a>)
        ensures
            r.ctx() == (GenCtxV {
                m: maps_model(*maps),
                cats: cats_model(categories_to_variables.categories_to_variables@),
                root: dir_model(*root_directory).children,
            }),
    {
        ScriptsContentBuilder { categories_to_variables, root_directory, maps }
    }

    /// The statements of a block, one after the other.
    pub fn build_actions_content(&self, actions: &Vec<Action>) -> (r: String)
        ensures
            r@ == render_actions_spec(self.ctx(), acs_model(actions@)),
        decreases asize_actions(acs_model(actions@)), 0int,
    {
        let ghost av = acs_model(actions@);
        let mut out = String::new();
        let mut i: usize = 0;
        proof {
            lemma_acs_model_len(actions@);
            assert(av.skip(0) =~= av);
            assert(out@ + render_actions_spec(self.ctx(), av) =~= render_actions_spec(
                self.ctx(),
                av,
            ));
        }
        while i < actions.len()
            invariant
                0 <= i <= actions@.len(),
                av == acs_model(actions@),
                av.len() == actions@.len(),
                out@ + render_actions_spec(self.ctx(), av.skip(i as int)) == render_actions_spec(
                    self.ctx(),
                    av,
                ),
            decreases actions@.len() - i,
        {
            let ghost rest = av.skip(i as int);
            proof {
                lemma_acs_model_index(actions@, i as int);
                lemma_asize_actions_index(av, i as int);
                assert(rest[0] == av[i as int]);
                assert(rest.skip(1) =~= av.skip(i + 1));
                assert(render_actions_spec(self.ctx(), rest) == render_action_spec(
                    self.ctx(),
                    av[i as int],
                ) + render_actions_spec(self.ctx(), av.skip(i + 1)));
            }
            let piece = self.build_action_content(&actions[i]);
            out.append(piece.as_str());
            i = i + 1;
        }
        proof {
            assert(av.skip(av.len() as int).len() == 0);
            assert(out@ + Seq::<char>::empty() =~= out@);
        }
        out
    }

    /// One statement rendered: control flow reconstructed, keywords passed
    /// through, comments special-cased, and everything else a generic call.
    #[verifier::rlimit(100)]
    pub fn build_action_content(&self, action: &Action) -> (r: String)
        ensures
            r@ == render_action_spec(self.ctx(), ac_model(*action)),
        decreases asize_action(ac_model(*action)), 1int,
    {
        let ghost av = ac_model(*action);
        proof {
            lemma_args_model_len(action.args@);
        }
        let tag = action.name.as_str();
        if str_eq(tag, "condition") {
            let ind = self.build_arguments_of_action_individually(action);
            let cond = nth_or(&ind, 0, "None");
            let then_a = nth_or(&ind, 1, "\t\tpass\n");
            let else_a = nth_or(&ind, 2, "\t\tpass\n");
            proof {
                let ghost si = args_individually(self.ctx(), av.args);
                assert(ind@.map_values(|x: String| x@) == si);
                assert(cond@ == (if si.len() > 0 {
                    si[0]
                } else {
                    "None"@
                }));
                assert(then_a@ == (if si.len() > 1 {
                    si[1]
                } else {
                    "\t\tpass\n"@
                }));
                assert(else_a@ == (if si.len() > 2 {
                    si[2]
                } else {
                    "\t\tpass\n"@
                }));
            }
            proof {
                reveal_strlit("\n");
                reveal_strlit("if ");
                reveal_strlit(":");
                reveal_strlit("\nelse:");
                reveal_strlit("\n\tpass\n");
            }
            let stripped_then: String = if str_ends_with(then_a.as_str(), "\n") {
                let n = then_a.as_str().unicode_len();
                let cut = then_a.as_str().substring_char(0, n - 1);
                proof {
                    assert(cut@ =~= then_a@.take(then_a@.len() - 1));
                }
                cut.to_owned()
            } else {
                then_a
            };
            let mut content: String = "if ".to_owned();
            content.append(cond.as_str());
            content.append(":");
            content.append(stripped_then.as_str());
            if !str_eq(else_a.as_str(), "\n\tpass\n") {
                content.append("\nelse:");
                content.append(else_a.as_str());
            } else {
                content.append("\n");
            }
            proof {
                assert(("if ")@ =~= "if "@);
                assert((":")@ =~= ":"@);
                assert(("\nelse:")@ =~= "\nelse:"@);
                assert(("\n")@ =~= "\n"@);
            }
            proof {
                let ghost si = args_individually(self.ctx(), av.args);
                let ghost scond = if si.len() > 0 {
                    si[0]
                } else {
                    "None"@
                };
                let ghost sthen = if si.len() > 1 {
                    si[1]
                } else {
                    "\t\tpass\n"@
                };
                let ghost selse = if si.len() > 2 {
                    si[2]
                } else {
                    "\t\tpass\n"@
                };
                let ghost sstr = if ends_with(sthen, "\n"@) {
                    sthen.take(sthen.len() - 1)
                } else {
                    sthen
                };
                let ghost scontent = "if "@ + scond + ":"@ + sstr + (if selse != "\n\tpass\n"@ {
                    "\nelse:"@ + selse
                } else {
                    "\n"@
                });
                assert(content@ == scontent);
            }
            let rr = self.finish_statement(content, action.disabled);
            proof {
                assert(rr@ == render_action_spec(self.ctx(), av));
            }
            rr
        } else if str_eq(tag, "for") {
            let ind = self.build_arguments_of_action_individually(action);
            let start = nth_or(&ind, 0, "None");
            let stop = nth_or(&ind, 1, "None");
            let variable = nth_or(&ind, 2, "None");
            let acts = nth_or(&ind, 3, "\t\tpass\n");
            proof {
                reveal_strlit("for ");
                reveal_strlit(" in range(");
                reveal_strlit(", ");
                reveal_strlit("):");
            }
            let mut content: String = "for ".to_owned();
            content.append(variable.as_str());
            content.append(" in range(");
            content.append(start.as_str());
            content.append(", ");
            content.append(stop.as_str());
            content.append("):");
            content.append(acts.as_str());
            proof {
                assert(("for ")@ =~= "for "@);
                assert((" in range(")@ =~= " in range("@);
                assert((", ")@ =~= ", "@);
                assert(("):")@ =~= "):"@);
            }
            let rr = self.finish_statement(content, action.disabled);
            proof {
                assert(rr@ == render_action_spec(self.ctx(), av));
            }
            rr
        } else if str_eq(tag, "forAllEntities") {
            proof {
                reveal_strlit("SelectedEntity()");
            }
            self.build_for_all(action, "entity", "SelectedEntity()")
        } else if str_eq(tag, "forAllProjectiles") {
            proof {
                reveal_strlit("SelectedProjectile()");
            }
            self.build_for_all(action, "projectile", "SelectedProjectile()")
        } else if str_eq(tag, "forAllItems") {
            proof {
                reveal_strlit("SelectedItem()");
            }
            self.build_for_all(action, "item", "SelectedItem()")
        } else if str_eq(tag, "forAllUnits") {
            proof {
                reveal_strlit("SelectedUnit()");
            }
            self.build_for_all(action, "unit", "SelectedUnit()")
        } else if str_eq(tag, "forAllPlayers") {
            proof {
                reveal_strlit("SelectedPlayer()");
            }
            self.build_for_all(action, "player", "SelectedPlayer()")
        } else if str_eq(tag, "forAllItemTypes") {
            proof {
                reveal_strlit("SelectedItemType()");
            }
            self.build_for_all(action, "item_type", "SelectedItemType()")
        } else if str_eq(tag, "forAllUnitTypes") {
            proof {
                reveal_strlit("SelectedUnitType()");
            }
            self.build_for_all(action, "unit_type", "SelectedUnitType()")
        } else if str_eq(tag, "forAllRegions") {
            proof {
                reveal_strlit("SelectedRegion()");
            }
            self.build_for_all(action, "region", "SelectedRegion()")
        } else if str_eq(tag, "forAllDebris") {
            proof {
                reveal_strlit("SelectedDebris()");
            }
            self.build_for_all(action, "debris", "SelectedDebris()")
        } else if str_eq(tag, "repeat") {
            let ind = self.build_arguments_of_action_individually(action);
            let count = nth_or(&ind, 0, "None");
            let acts = nth_or(&ind, 1, "\t\tpass\n");
            proof {
                reveal_strlit("for _ in repeat(");
                reveal_strlit("):");
            }
            let mut content: String = "for _ in repeat(".to_owned();
            content.append(count.as_str());
            content.append("):");
            content.append(acts.as_str());
            proof {
                assert(("for _ in repeat(")@ =~= "for _ in repeat("@);
                assert(("):")@ =~= "):"@);
            }
            let rr = self.finish_statement(content, action.disabled);
            proof {
                assert(rr@ == render_action_spec(self.ctx(), av));
            }
            rr
        } else if str_eq(tag, "while") {
            let ind = self.build_arguments_of_action_individually(action);
            let cond = nth_or(&ind, 0, "None");
            let acts = nth_or(&ind, 1, "\t\tpass\n");
            proof {
                reveal_strlit("while ");
                reveal_strlit(":");
            }
            let mut content: String = "while ".to_owned();
            content.append(cond.as_str());
            content.append(":");
            content.append(acts.as_str());
            proof {
                assert(("while ")@ =~= "while "@);
                assert((":")@ =~= ":"@);
            }
            let rr = self.finish_statement(content, action.disabled);
            proof {
                assert(rr@ == render_action_spec(self.ctx(), av));
            }
            rr
        } else if str_eq(tag, "setTimeOut") {
            let ind = self.build_arguments_of_action_individually(action);
            let duration = nth_or(&ind, 0, "None");
            let acts = nth_or(&ind, 1, "\t\tpass\n");
            proof {
                reveal_strlit("with after_timeout(");
                reveal_strlit("):");
            }
            let mut content: String = "with after_timeout(".to_owned();
            content.append(duration.as_str());
            content.append("):");
            content.append(acts.as_str());
            proof {
                assert(("with after_timeout(")@ =~= "with after_timeout("@);
                assert(("):")@ =~= "):"@);
            }
            let rr = self.finish_statement(content, action.disabled);
            proof {
                assert(rr@ == render_action_spec(self.ctx(), av));
            }
            rr
        } else if str_eq(tag, "break") || str_eq(tag, "continue") || str_eq(tag, "return") {
            proof {
                reveal_strlit("# ");
                reveal_strlit("\n");
            }
            let mut out = String::new();
            if action.disabled {
                out.append("# ");
            } else {
                proof {
                    assert(out@ + Seq::<char>::empty() =~= out@);
                }
            }
            out.append(tag);
            out.append("\n");
            proof {
                assert(("# ")@ =~= "# "@);
                assert(("\n")@ =~= "\n"@);
                assert(out@ =~= render_action_spec(self.ctx(), av));
            }
            out
        } else if str_eq(tag, "comment") {
            proof {
                reveal_strlit("(");
                reveal_strlit(")\n");
                reveal_strlit("None");
            }
            let mut out = action.pymodd_class_name(self.maps);
            out.append("(");
            let ctext: String = match &action.comment {
                Option::Some(c) => c.clone(),
                Option::None => "None".to_owned(),
            };
            let q = surround_string_with_quotes(ctext.as_str());
            out.append(q.as_str());
            let opts = self.build_optional_arguments_contents(action);
            if opts.len() >= 1 {
                append_optionals(&mut out, &opts, 1, false);
            } else {
                proof {
                    let ghost ov = optional_args_spec(av);
                    assert(optionals_text(ov, false) =~= Seq::<char>::empty());
                    assert(out@ + Seq::<char>::empty() =~= out@);
                }
            }
            out.append(")\n");
            proof {
                assert(("(")@ =~= "("@);
                assert((")\n")@ =~= ")\n"@);
                assert(out@ =~= render_action_spec(self.ctx(), av));
            }
            out
        } else {
            proof {
                reveal_strlit("(");
                reveal_strlit(")\n");
            }
            let mut out = action.pymodd_class_name(self.maps);
            out.append("(");
            let args_txt = self.build_arguments_content(&action.args);
            out.append(args_txt.as_str());
            let opts = self.build_optional_arguments_contents(action);
            let bare_first = action.args.len() == 0;
            proof {
                let ghost ov = optional_args_spec(av);
                assert(ov.skip(0) =~= ov);
            }
            append_optionals(&mut out, &opts, 0, bare_first);
            out.append(")\n");
            proof {
                assert(("(")@ =~= "("@);
                assert((")\n")@ =~= ")\n"@);
                assert(out@ =~= render_action_spec(self.ctx(), av));
            }
            out
        }
    }

    /// A group iteration rendered: a fresh loop variable, the group, and
    /// the body with the selected-item accessor rewritten to the variable.
    fn build_for_all(&self, action: &Action, gt: &str, sel: &str) -> (r: String)
        requires
            for_all_group(ac_model(*action).name) == Option::Some(gt@),
            selected_call_of(ac_model(*action).name) == sel@,
            sel@.len() > 0,
            ac_model(*action).name != "condition"@,
            ac_model(*action).name != "for"@,
        ensures
            r@ == render_action_spec(self.ctx(), ac_model(*action)),
        decreases asize_action(ac_model(*action)), 0int,
    {
        let ghost av = ac_model(*action);
        proof {
            reveal_strlit("for ");
            reveal_strlit(" in ");
            reveal_strlit(":");
        }
        let ind = self.build_arguments_of_action_individually(action);
        let group = nth_or(&ind, 0, "None");
        let acts = nth_or(&ind, 1, "\t\tpass\n");
        let acts2 = str_replace(acts.as_str(), sel, gt);
        let mut content: String = "for ".to_owned();
        content.append(gt);
        content.append(" in ");
        content.append(group.as_str());
        content.append(":");
        content.append(acts2.as_str());
        proof {
            assert(("for ")@ =~= "for "@);
            assert((" in ")@ =~= " in "@);
            assert((":")@ =~= ":"@);
        }
        self.finish_statement(content, action.disabled)
    }

    /// Wraps a rendered control statement: commented out when disabled,
    /// otherwise its emptied blocks get their `pass` lines.
    fn finish_statement(&self, content: String, disabled: bool) -> (r: String)
        ensures
            disabled ==> r@ == comment_out_spec(content@),
            !disabled ==> r@ == append_pass_spec(content@),
    {
        if disabled {
            comment_out_statement_content(content.as_str())
        } else {
            append_pass_keyword_to_commented_bodies_of_statement(content.as_str())
        }
    }

    /// Each argument of a statement rendered on its own.
    pub fn build_arguments_of_action_individually(&self, action: &Action) -> (r: Vec<String>)
        ensures
            r@.map_values(|x: String| x@) == args_individually(
                self.ctx(),
                ac_model(*action).args,
            ),
        decreases asize_args(args_model(action.args@)), 8int,
    {
        let ghost av = args_model(action.args@);
        let mut out: Vec<String> = Vec::new();
        let mut i: usize = 0;
        proof {
            lemma_args_model_len(action.args@);
        }
        while i < action.args.len()
            invariant
                0 <= i <= action.args@.len(),
                av == args_model(action.args@),
                av.len() == action.args@.len(),
                out@.len() == i,
                forall|k: int|
                    0 <= k < i ==> out@[k]@ == rendered_piece(self.ctx(), #[trigger] av[k]),
            decreases action.args@.len() - i,
        {
            proof {
                lemma_args_model_index(action.args@, i as int);
                lemma_asize_args_index(av, i as int);
            }
            let piece = self.build_single_argument(&action.args[i]);
            out.push(piece);
            i = i + 1;
        }
        proof {
            assert forall|k: int| 0 <= k < out@.len() implies #[trigger] out@[k]@
                == args_individually(self.ctx(), av)[k] by {
                lemma_args_individually_index(self.ctx(), av, k);
            }
            lemma_args_individually_len(self.ctx(), av);
            assert(out@.map_values(|x: String| x@) =~= args_individually(self.ctx(), av));
        }
        out
    }

    /// One argument's text, a condition's outer parentheses dropped.
    fn build_single_argument(&self, arg: &Argument) -> (r: String)
        ensures
            r@ == rendered_piece(self.ctx(), arg_model(*arg)),
        decreases asize_arg(arg_model(*arg)), 6int,
    {
        proof {
            reveal_strlit("(");
            reveal_strlit(")");
        }
        let is_condition: bool = match ArgumentValueIterItem::from_argument(arg) {
            ArgumentValueIterItem::Condition(_) => true,
            _ => false,
        };
        let piece = self.build_argument_content(arg);
        if is_condition {
            if str_starts_with(piece.as_str(), "(") && str_ends_with(piece.as_str(), ")") {
                let n = piece.as_str().unicode_len();
                proof {
                    if n < 2 {
                        assert(piece@.subrange(0, 1)[0] == piece@[0]);
                        assert(piece@.subrange(piece@.len() - 1, piece@.len() as int)[0]
                            == piece@[piece@.len() - 1]);
                        assert(false);
                    }
                }
                let inner = piece.as_str().substring_char(1, n - 1);
                proof {
                    assert(inner@ =~= strip_parens(piece@));
                }
                inner.to_owned()
            } else {
                piece
            }
        } else {
            piece
        }
    }

    /// An argument list rendered with commas between the pieces.
    pub fn build_arguments_content(&self, args: &Vec<Argument>) -> (r: String)
        ensures
            r@ == render_args_list_spec(self.ctx(), args_model(args@)),
        decreases asize_args(args_model(args@)), 7int,
    {
        let ghost av = args_model(args@);
        let mut out = String::new();
        let mut i: usize = 0;
        proof {
            lemma_args_model_len(args@);
        }
        while i < args.len()
            invariant
                0 <= i <= args@.len(),
                av == args_model(args@),
                av.len() == args@.len(),
                i == 0 ==> out@ == Seq::<char>::empty(),
                1 <= i < av.len() ==> render_args_list_spec(self.ctx(), av) == out@ + ", "@
                    + render_args_list_spec(self.ctx(), av.skip(i as int)),
                i >= 1 && i == av.len() ==> render_args_list_spec(self.ctx(), av) == out@,
            decreases args@.len() - i,
        {
            let ghost rest = av.skip(i as int);
            proof {
                reveal_strlit(", ");
                lemma_args_model_index(args@, i as int);
                lemma_asize_args_index(av, i as int);
                assert(rest[0] == av[i as int]);
                assert(rest.skip(1) =~= av.skip(i + 1));
                if i == 0 {
                    assert(av.skip(0) =~= av);
                }
            }
            if i > 0 {
                out.append(", ");
            }
            let piece = self.build_single_argument(&args[i]);
            out.append(piece.as_str());
            proof {
                assert((", ")@ =~= ", "@);
                if rest.len() == 1 {
                    assert(render_args_list_spec(self.ctx(), rest) == rendered_piece(
                        self.ctx(),
                        av[i as int],
                    ));
                } else {
                    assert(render_args_list_spec(self.ctx(), rest) == rendered_piece(
                        self.ctx(),
                        av[i as int],
                    ) + ", "@ + render_args_list_spec(self.ctx(), av.skip(i + 1)));
                }
            }
            i = i + 1;
        }
        proof {
            if av.len() == 0 {
                assert(out@ =~= render_args_list_spec(self.ctx(), av));
            }
        }
        out
    }

    /// A nested call rendered with its class name and arguments.
    fn build_function_call(&self, f: &Function) -> (r: String)
        ensures
            r@ == render_call_spec(self.ctx(), crate::actions::func_model(*f)),
        decreases asize_func(crate::actions::func_model(*f)), 2int,
    {
        proof {
            reveal_strlit("(");
            reveal_strlit(")");
        }
        let mut out = f.pymodd_class_name(self.maps);
        out.append("(");
        let inner = self.build_arguments_content(&f.args);
        out.append(inner.as_str());
        out.append(")");
        proof {
            assert(("(")@ =~= "("@);
            assert((")")@ =~= ")"@);
        }
        out
    }

    /// The text of the simple events: plain values, constants, and script
    /// references.
    fn build_simple_content(&self, item: &ArgumentValueIterItem<'a>) -> (r: String)
        ensures
            r@ == simple_content(
                self.ctx(),
                crate::argument_values_iterator::event_model(*item),
            ),
    {
        proof {
            reveal_strlit("True");
            reveal_strlit("False");
            reveal_strlit("None");
            reveal_strlit(".");
            reveal_strlit("()");
        }
        match item {
            ArgumentValueIterItem::Value(value) => {
                match value {
                    JsonValue::Str(s) => {
                        match self.categories_to_variables.find_categoried_variable_with_id(
                            s.as_str(),
                        ) {
                            Option::Some(p) => {
                                let mut out = pymodd_class_name_of_category(p.0.as_str());
                                out.append(".");
                                let en = p.1.enum_name();
                                out.append(en.as_str());
                                proof {
                                    assert((".")@ =~= "."@);
                                }
                                out
                            },
                            Option::None => surround_string_with_quotes(s.as_str()),
                        }
                    },
                    JsonValue::Bool(b) => {
                        if *b {
                            "True".to_owned()
                        } else {
                            "False".to_owned()
                        }
                    },
                    JsonValue::Number(n) => {
                        match n {
                            crate::document::JsonNumber::Int(v) => i64_to_string(*v),
                            crate::document::JsonNumber::Other(t) => t.clone(),
                        }
                    },
                    _ => "None".to_owned(),
                }
            },
            ArgumentValueIterItem::Constant(c) => (*c).clone(),
            ArgumentValueIterItem::ScriptKey(k) => {
                match self.root_directory.find_item_with_key(k.as_str()) {
                    Option::Some(found) => {
                        match found {
                            DirectoryIterItem::Script(s) => {
                                let mut out = s.function_name.clone();
                                out.append("()");
                                proof {
                                    assert(("()")@ =~= "()"@);
                                }
                                out
                            },
                            _ => "None".to_owned(),
                        }
                    },
                    Option::None => "None".to_owned(),
                }
            },
            _ => String::new(),
        }
    }

    /// The text of one argument, before any paren stripping.
    pub fn build_argument_content(&self, arg: &Argument) -> (r: String)
        ensures
            r@ == render_arg_piece_spec(self.ctx(), arg_model(*arg)),
        decreases asize_arg(arg_model(*arg)), 5int,
    {
        proof {
            lemma_classify_op_bound(arg_model(*arg));
        }
        let item = ArgumentValueIterItem::from_argument(arg);
        match &item {
            ArgumentValueIterItem::StartOfFunction(f) => {
                proof {
                    assert(arg_model(*arg).value == ArgV::Function(
                        crate::actions::func_model(**f),
                    ));
                }
                self.build_function_call(f)
            },
            ArgumentValueIterItem::Condition(op) => self.build_operation_content(op),
            ArgumentValueIterItem::Concatenation(op) => self.build_operation_content(op),
            ArgumentValueIterItem::Calculation(op) => self.build_operation_content(op),
            ArgumentValueIterItem::Actions(actions) => {
                proof {
                    reveal_strlit("\n");
                    reveal_strlit("\tpass\n");
                    assert(arg_model(*arg).value == ArgV::Actions(acs_model(actions@)));
                }
                let mut out: String = "\n".to_owned();
                if actions.len() > 0 {
                    let inner = self.build_actions_content(actions);
                    let indented = indent_block(inner.as_str());
                    out.append(indented.as_str());
                } else {
                    proof {
                        lemma_acs_model_len(actions@);
                    }
                    out.append("\tpass\n");
                }
                proof {
                    assert(("\n")@ =~= "\n"@);
                    assert(("\tpass\n")@ =~= "\tpass\n"@);
                }
                out
            },
            _ => self.build_simple_content(&item),
        }
    }

    /// An operation rendered as left operand, operator, right operand.
    pub fn build_operation_content(&self, operation: &Operation) -> (r: String)
        ensures
            r@ == render_operation_spec(self.ctx(), op_model(*operation)),
        decreases omax(op_model(*operation)), 4int,
    {
        proof {
            reveal_strlit(" ");
            reveal_strlit("(");
            reveal_strlit(")");
            reveal_strlit("and");
            reveal_strlit("or");
        }
        let op_str: String = match &operation.operator.value {
            ArgumentValue::Value(JsonValue::Str(s)) => {
                match into_operator(s.as_str()) {
                    Option::Some(o) => o,
                    Option::None => String::new(),
                }
            },
            _ => String::new(),
        };
        let left = self.build_operation_item_content(&operation.item_a);
        let right = self.build_operation_item_content(&operation.item_b);
        let mut content = left;
        content.append(" ");
        content.append(op_str.as_str());
        content.append(" ");
        content.append(right.as_str());
        proof {
            assert((" ")@ =~= " "@);
        }
        if str_eq(op_str.as_str(), "and") || str_eq(op_str.as_str(), "or") {
            let mut out: String = "(".to_owned();
            out.append(content.as_str());
            out.append(")");
            proof {
                assert(("(")@ =~= "("@);
                assert((")")@ =~= ")"@);
            }
            out
        } else {
            content
        }
    }

    /// One operand of an operation: calculations gain parentheses.
    pub fn build_operation_item_content(&self, operation_item: &Argument) -> (r: String)
        ensures
            r@ == render_operation_item_spec(self.ctx(), arg_model(*operation_item)),
        decreases asize_arg(arg_model(*operation_item)), 3int,
    {
        proof {
            lemma_classify_op_bound(arg_model(*operation_item));
        }
        let item = ArgumentValueIterItem::from_argument(operation_item);
        match &item {
            ArgumentValueIterItem::Calculation(op) => {
                proof {
                    reveal_strlit("(");
                    reveal_strlit(")");
                }
                let mut out: String = "(".to_owned();
                let inner = self.build_operation_content(op);
                out.append(inner.as_str());
                out.append(")");
                proof {
                    assert(("(")@ =~= "("@);
                    assert((")")@ =~= ")"@);
                }
                out
            },
            ArgumentValueIterItem::Condition(op) => self.build_operation_content(op),
            ArgumentValueIterItem::Concatenation(op) => self.build_operation_content(op),
            ArgumentValueIterItem::StartOfFunction(f) => {
                proof {
                    assert(arg_model(*operation_item).value == ArgV::Function(
                        crate::actions::func_model(**f),
                    ));
                }
                self.build_function_call(f)
            },
            ArgumentValueIterItem::Actions(actions) => {
                proof {
                    reveal_strlit("\n");
                    reveal_strlit("\tpass\n");
                    assert(arg_model(*operation_item).value == ArgV::Actions(
                        acs_model(actions@),
                    ));
                }
                let mut out: String = "\n".to_owned();
                if actions.len() > 0 {
                    let inner = self.build_actions_content(actions);
                    let indented = indent_block(inner.as_str());
                    out.append(indented.as_str());
                } else {
                    proof {
                        lemma_acs_model_len(actions@);
                    }
                    out.append("\tpass\n");
                }
                proof {
                    assert(("\n")@ =~= "\n"@);
                    assert(("\tpass\n")@ =~= "\tpass\n"@);
                }
                out
            },
            _ => self.build_simple_content(&item),
        }
    }

    /// The text of one plain document value, as an argument renders it.
    pub fn build_value_content(&self, value: &JsonValue) -> (r: String)
        ensures
            r@ == simple_content(self.ctx(), ArgEventV::Value(jval(*value))),
    {
        let item = ArgumentValueIterItem::Value(value);
        self.build_simple_content(&item)
    }

    /// The optional keyword arguments of a statement.
    pub fn build_optional_arguments_contents(&self, action: &Action) -> (r: Vec<String>)
        ensures
            r@.map_values(|x: String| x@) == optional_args_spec(ac_model(*action)),
    {
        proof {
            reveal_strlit("comment=");
            reveal_strlit("disabled=True");
            reveal_strlit("run_on_client=True");
        }
        let mut out: Vec<String> = Vec::new();
        match &action.comment {
            Option::Some(c) => {
                if c.as_str().unicode_len() > 0 {
                    let mut piece: String = "comment=".to_owned();
                    let q = surround_string_with_quotes(c.as_str());
                    piece.append(q.as_str());
                    proof {
                        assert(("comment=")@ =~= "comment="@);
                    }
                    out.push(piece);
                }
            },
            Option::None => {},
        }
        if action.disabled {
            out.push("disabled=True".to_owned());
        }
        if action.ran_on_client {
            out.push("run_on_client=True".to_owned());
        }
        proof {
            assert(out@.map_values(|x: String| x@) =~= optional_args_spec(ac_model(*action)));
        }
        out
    }
}

/// The rendered piece at `k`, a fixed default when the list is shorter.
fn nth_or(ind: &Vec<String>, k: usize, default: &str) -> (r: String)
    ensures
        r@ == (if ind@.len() > k {
            ind@.map_values(|x: String| x@)[k as int]
        } else {
            default@
        }),
{
    if k < ind.len() {
        ind[k].clone()
    } else {
        default.to_owned()
    }
}

/// Appends the optional arguments from `from` on, a comma before each,
/// the first bare when asked.
fn append_optionals(out: &mut String, opts: &Vec<String>, from: usize, bare_first: bool)
    requires
        from <= opts@.len(),
    ensures
        final(out)@ == old(out)@ + optionals_text(
            opts@.map_values(|x: String| x@).skip(from as int),
            bare_first,
        ),
    decreases opts@.len() - from,
{
    let ghost ov = opts@.map_values(|x: String| x@);
    if from >= opts.len() {
        proof {
            assert(ov.skip(from as int).len() == 0);
            assert(optionals_text(ov.skip(from as int), bare_first) =~= Seq::<char>::empty());
            assert(out@ + Seq::<char>::empty() =~= out@);
        }
        return ;
    }
    proof {
        reveal_strlit(", ");
        assert(ov.skip(from as int)[0] == ov[from as int]);
        assert(ov.skip(from as int).skip(1) =~= ov.skip(from + 1));
    }
    if !bare_first {
        out.append(", ");
    }
    out.append(opts[from].as_str());
    proof {
        assert((", ")@ =~= ", "@);
    }
    append_optionals(out, opts, from + 1, false);
    proof {
        assert(old(out)@ + optionals_text(ov.skip(from as int), bare_first) =~= final(out)@);
    }
}

/// Every line of a block indented one step.
pub fn indent_block(s: &str) -> (r: String)
    ensures
        r@ == indent_lines(s@),
{
    proof {
        reveal_strlit("\t");
    }
    let lines = str_lines(s);
    let ghost ls = lines_spec(s@);
    let mut indented: Vec<String> = Vec::new();
    let mut i: usize = 0;
    while i < lines.len()
        invariant
            0 <= i <= lines@.len(),
            lines@.map_values(|x: String| x@) == ls,
            ls.len() == lines@.len(),
            indented@.len() == i,
            forall|k: int| 0 <= k < i ==> indented@[k]@ == "\t"@ + #[trigger] ls[k],
        decreases lines@.len() - i,
    {
        proof {
            reveal_strlit("\t");
        }
        let mut piece: String = "\t".to_owned();
        piece.append(lines[i].as_str());
        proof {
            assert(("\t")@ =~= "\t"@);
        }
        indented.push(piece);
        i = i + 1;
    }
    proof {
        assert(indented@.map_values(|x: String| x@) =~= ls.map_values(|l: Seq<char>| "\t"@ + l));
    }
    let joined = crate::text::join_lines_nl(&indented, 0, indented.len());
    proof {
        assert(indented@.map_values(|x: String| x@).subrange(0, indented@.len() as int)
            =~= indented@.map_values(|x: String| x@));
    }
    joined
}

/// Whether every character is ASCII.
pub open spec fn seq_is_ascii(s: Seq<char>) -> bool {
    forall|i: int| 0 <= i < s.len() ==> (#[trigger] s[i] as int) < 128
}

fn str_is_ascii_chars(s: &str) -> (r: bool)
    ensures
        r == seq_is_ascii(s@),
{
    let n = s.unicode_len();
    let mut i: usize = 0;
    while i < n
        invariant
            0 <= i <= n,
            n == s@.len(),
            forall|j: int| 0 <= j < i ==> (#[trigger] s@[j] as int) < 128,
        decreases n - i,
    {
        let c = s.get_char(i);
        if (c as u32) >= 128 {
            return false;
        }
        i = i + 1;
    }
    true
}

/// A whole script rendered: its decorator with triggers and, for a
/// non-ASCII display name, the name; then its body.
pub open spec fn render_script_spec(ctx: GenCtxV, s: ScriptV) -> Seq<char>
    decreases asize_actions(s.actions) + 1, 0int,
{
    let triggers_txt = join_spec(
        s.triggers.map_values(|t: Seq<char>| lookup_or(ctx.m.triggers, t, "None"@)),
        ", "@,
    );
    let name_part = if seq_is_ascii(s.name) {
        Seq::<char>::empty()
    } else {
        ", name="@ + quoted_spec(s.name)
    };
    let body = if s.actions.len() > 0 {
        let content = indent_lines(render_actions_spec(ctx, s.actions));
        if body_commented_spec("def func:\n"@ + content) {
            content + "\tpass\n"@
        } else {
            content
        }
    } else {
        "\tpass\n"@
    };
    "@script(triggers=["@ + triggers_txt + "]"@ + name_part + ")\ndef "@ + s.function_name
        + "():\n"@ + body
}

impl<'a> ScriptsContentBuilder<'a> {
    /// Renders one script: decorator, header and body.
    pub fn build_script_content(&self, script: &Script) -> (r: String)
        ensures
            r@ == render_script_spec(self.ctx(), script_model(*script)),
    {
        proof {
            reveal_strlit("@script(triggers=[");
            reveal_strlit("]");
            reveal_strlit(", name=");
            reveal_strlit(")\ndef ");
            reveal_strlit("():\n");
            reveal_strlit("\tpass\n");
            reveal_strlit("def func:\n");
            reveal_strlit(", ");
        }
        let trigger_enums = script.triggers_into_pymodd_enums(self.maps);
        let triggers_txt = str_join(&trigger_enums, ", ");
        let mut out: String = "@script(triggers=[".to_owned();
        out.append(triggers_txt.as_str());
        out.append("]");
        if !str_is_ascii_chars(script.name.as_str()) {
            out.append(", name=");
            let q = surround_string_with_quotes(script.name.as_str());
            out.append(q.as_str());
        } else {
            proof {
                assert(out@ + Seq::<char>::empty() =~= out@);
            }
        }
        out.append(")\ndef ");
        out.append(script.function_name.as_str());
        out.append("():\n");
        proof {
            lemma_acs_model_len(script.actions@);
        }
        if script.actions.len() > 0 {
            let inner = self.build_actions_content(&script.actions);
            let content = indent_block(inner.as_str());
            let mut probe: String = "def func:\n".to_owned();
            probe.append(content.as_str());
            if is_body_commented_out(probe.as_str()) {
                out.append(content.as_str());
                out.append("\tpass\n");
            } else {
                out.append(content.as_str());
            }
        } else {
            out.append("\tpass\n");
        }
        proof {
            assert(("@script(triggers=[")@ =~= "@script(triggers=["@);
            assert(("]")@ =~= "]"@);
            assert((", name=")@ =~= ", name="@);
            assert((")\ndef ")@ =~= ")\ndef "@);
            assert(("():\n")@ =~= "():\n"@);
            assert(("\tpass\n")@ =~= "\tpass\n"@);
            assert(("def func:\n")@ =~= "def func:\n"@);
            assert((", ")@ =~= ", "@);
            assert(out@ =~= render_script_spec(self.ctx(), script_model(*script)));
        }
        out
    }
}

/// The text of one directory traversal event: a folder banner, a script
/// with a blank line after it, or a folder's closing banner.
pub open spec fn render_dir_events(ctx: GenCtxV, evs: Seq<DirEventV>) -> Seq<char>
    decreases evs.len(),
{
    if evs.len() == 0 {
        Seq::<char>::empty()
    } else {
        (match evs[0] {
            DirEventV::Start(d) => "# \u{256d}\n# "@ + crate::casing::uppercase_of(d.name)
                + "\n# |\n\n"@,
            DirEventV::Script(s) => render_script_spec(ctx, s) + "\n\n"@,
            DirEventV::End => "# |\n# \u{2570}\n\n"@,
        }) + render_dir_events(ctx, evs.skip(1))
    }
}

/// A whole directory rendered: every script under its folder banners, the
/// trailing blank lines trimmed.
pub open spec fn render_directory_spec(ctx: GenCtxV, d: DirectoryV) -> Seq<char> {
    trim_end_spec(render_dir_events(ctx, events_of_items(d.children)))
}

/// Renders every script of a directory, under its folder banners.
pub fn build_directory_content(
    directory: &Directory,
    scripts_class_content_builder: &ScriptsContentBuilder,
) -> (r: String)
    ensures
        r@ == render_directory_spec(
            scripts_class_content_builder.ctx(),
            dir_model(*directory),
        ),
{
    let walk = directory.iter_flattened();
    let ghost evs = crate::directory_iterator::dir_events_model(walk.items@);
    let mut out = String::new();
    let mut i: usize = 0;
    proof {
        assert(evs.skip(0) =~= evs);
        assert(out@ + render_dir_events(scripts_class_content_builder.ctx(), evs)
            =~= render_dir_events(scripts_class_content_builder.ctx(), evs));
    }
    while i < walk.items.len()
        invariant
            0 <= i <= walk.items@.len(),
            evs == crate::directory_iterator::dir_events_model(walk.items@),
            evs.len() == walk.items@.len(),
            out@ + render_dir_events(scripts_class_content_builder.ctx(), evs.skip(i as int))
                == render_dir_events(scripts_class_content_builder.ctx(), evs),
        decreases walk.items@.len() - i,
    {
        let ghost rest = evs.skip(i as int);
        proof {
            reveal_strlit("# \u{256d}\n# ");
            reveal_strlit("\n# |\n\n");
            reveal_strlit("\n\n");
            reveal_strlit("# |\n# \u{2570}\n\n");
            assert(rest[0] == evs[i as int]);
            assert(rest.skip(1) =~= evs.skip(i + 1));
        }
        match &walk.items[i] {
            DirectoryIterItem::StartOfDirectory(d) => {
                out.append("# \u{256d}\n# ");
                let upper = crate::casing::to_uppercase(d.name.as_str());
                out.append(upper.as_str());
                out.append("\n# |\n\n");
                proof {
                    assert(("# \u{256d}\n# ")@ =~= "# \u{256d}\n# "@);
                    assert(("\n# |\n\n")@ =~= "\n# |\n\n"@);
                }
            },
            DirectoryIterItem::Script(s) => {
                let piece = scripts_class_content_builder.build_script_content(s);
                out.append(piece.as_str());
                out.append("\n\n");
                proof {
                    assert(("\n\n")@ =~= "\n\n"@);
                }
            },
            DirectoryIterItem::DirectoryEnd => {
                out.append("# |\n# \u{2570}\n\n");
                proof {
                    assert(("# |\n# \u{2570}\n\n")@ =~= "# |\n# \u{2570}\n\n"@);
                }
            },
        }
        i = i + 1;
    }
    proof {
        assert(evs.skip(evs.len() as int).len() == 0);
        assert(out@ + Seq::<char>::empty() =~= out@);
    }
    str_trim_end(out.as_str())
}

pub struct ScriptsFile {}

/// The fixed imports at the head of the scripts file.
pub open spec fn scripts_file_header() -> Seq<char> {
    "from pymodd.actions import *\nfrom pymodd.functions import *\nfrom pymodd.script import Trigger, UiTarget, Flip, script\n\nfrom game_variables import *\n\n\n"@
}

/// The renderer context a parsed game provides.
pub open spec fn game_ctx(m: MapsV, g: crate::game_data::GameDataV) -> GenCtxV {
    GenCtxV { m, cats: g.categories_to_variables, root: g.root_directory.children }
}

/// The whole scripts file: header, every script of the root tree, tabs
/// widened to spaces.
pub open spec fn scripts_file_spec(m: MapsV, g: crate::game_data::GameDataV) -> Seq<char> {
    replace_spec(
        scripts_file_header() + render_directory_spec(game_ctx(m, g), g.root_directory) + "\n\n"@,
        "\t"@,
        "    "@,
    )
}

impl ScriptsFile {
    pub fn build_content(maps: &PymoddMaps, game_data: &crate::game_data::GameData) -> (r: String)
        ensures
            r@ == scripts_file_spec(maps_model(*maps), crate::game_data::gd_model(*game_data)),
    {
        proof {
            reveal_strlit(
                "from pymodd.actions import *\nfrom pymodd.functions import *\nfrom pymodd.script import Trigger, UiTarget, Flip, script\n\nfrom game_variables import *\n\n\n",
            );
            reveal_strlit("\n\n");
            reveal_strlit("\t");
            reveal_strlit("    ");
        }
        let builder = ScriptsContentBuilder::new(
            &game_data.categories_to_variables,
            &game_data.root_directory,
            maps,
        );
        let inner = build_directory_content(&game_data.root_directory, &builder);
        let mut out: String =
            "from pymodd.actions import *\nfrom pymodd.functions import *\nfrom pymodd.script import Trigger, UiTarget, Flip, script\n\nfrom game_variables import *\n\n\n".to_owned();
        out.append(inner.as_str());
        out.append("\n\n");
        let r = str_replace(out.as_str(), "\t", "    ");
        proof {
            assert(("\n\n")@ =~= "\n\n"@);
            assert(out@ =~= scripts_file_header() + render_directory_spec(
                game_ctx(maps_model(*maps), crate::game_data::gd_model(*game_data)),
                crate::game_data::gd_model(*game_data).root_directory,
            ) + "\n\n"@);
        }
        r
    }
}

pub proof fn lemma_args_individually_len(ctx: GenCtxV, args: Seq<ArgumentV>)
    ensures
        args_individually(ctx, args).len() == args.len(),
    decreases args.len(),
{
    if args.len() > 0 {
        lemma_args_individually_len(ctx, args.skip(1));
    }
}

pub proof fn lemma_args_individually_index(ctx: GenCtxV, args: Seq<ArgumentV>, i: int)
    requires
        0 <= i < args.len(),
    ensures
        args_individually(ctx, args).len() == args.len(),
        args_individually(ctx, args)[i] == rendered_piece(ctx, args[i]),
    decreases args.len(),
{
    lemma_args_individually_len(ctx, args);
    if i > 0 {
        lemma_args_individually_index(ctx, args.skip(1), i - 1);
    }
}

} // verus!
