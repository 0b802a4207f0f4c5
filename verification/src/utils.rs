//! Small helpers shared by the generators: identifier validation, Python
//! string quoting, and enum-name derivation.

use vstd::prelude::*;

use crate::casing::{
    lower_camel_of, shouty_snake_of, to_lower_camel_case, to_shouty_snake_case, unicode_numeric,
    char_is_numeric,
};
use crate::text::str_eq;

verus! {

/// Width of one indentation step in the generated Python text.
pub const TAB_SIZE: usize = 4;

/// Every variable-category name, in its camelCase form: the fixed categories,
/// the umbrella category, and the pseudo-categories split out of it.
pub open spec fn all_category_names() -> Seq<Seq<char>> {
    seq![
        "animationTypes"@,
        "attributeTypes"@,
        "dialogues"@,
        "entityTypeVariables"@,
        "itemTypes"@,
        "music"@,
        "projectileTypes"@,
        "playerTypes"@,
        "playerTypeVariables"@,
        "shops"@,
        "sound"@,
        "states"@,
        "unitTypes"@,
        "regions"@,
        "itemTypeGroups"@,
        "unitTypeGroups"@,
        "variables"@,
    ]
}

/// A class name is valid when it is non-empty, does not start with a numeric
/// character, and does not collide with a variable-category class name.
pub open spec fn is_valid_class_name_spec(s: Seq<char>) -> bool {
    s.len() > 0 && !unicode_numeric(s[0]) && !all_category_names().contains(lower_camel_of(s))
}

pub fn is_valid_class_name(class_name: &str) -> (r: bool)
    ensures
        r == is_valid_class_name_spec(class_name@),
{
    if class_name.unicode_len() == 0 {
        return false;
    }
    if string_starts_with_a_number(class_name) {
        return false;
    }
    !type_conflicts_with_a_category_class_name(class_name)
}

pub fn string_starts_with_a_number(string: &str) -> (r: bool)
    requires
        string@.len() > 0,
    ensures
        r == unicode_numeric(string@[0]),
{
    char_is_numeric(string.get_char(0))
}

pub fn type_conflicts_with_a_category_class_name(class_name: &str) -> (r: bool)
    ensures
        r == all_category_names().contains(lower_camel_of(class_name@)),
{
    let lc = to_lower_camel_case(class_name);
    let cats: Vec<&str> = vec![
        "animationTypes",
        "attributeTypes",
        "dialogues",
        "entityTypeVariables",
        "itemTypes",
        "music",
        "projectileTypes",
        "playerTypes",
        "playerTypeVariables",
        "shops",
        "sound",
        "states",
        "unitTypes",
        "regions",
        "itemTypeGroups",
        "unitTypeGroups",
        "variables",
    ];
    proof {
        assert(cats@.map_values(|x: &str| x@) =~= all_category_names());
    }
    let mut i: usize = 0;
    while i < cats.len()
        invariant
            0 <= i <= cats@.len(),
            cats@.map_values(|x: &str| x@) == all_category_names(),
            lc@ == lower_camel_of(class_name@),
            forall|j: int| 0 <= j < i ==> all_category_names()[j] != lc@,
        decreases cats@.len() - i,
    {
        if str_eq(lc.as_str(), cats[i]) {
            proof {
                assert(all_category_names()[i as int] == lc@);
            }
            return true;
        }
        i = i + 1;
    }
    proof {
        if all_category_names().contains(lc@) {
            let j = choose|j: int|
                0 <= j < all_category_names().len() && all_category_names()[j] == lc@;
            assert(all_category_names()[j] != lc@);
        }
    }
    false
}

/// The quote characters chosen for a Python string literal, by its content:
/// `'` by default, `"` when the text holds a single quote, `'''` when it
/// holds a double quote, a backtick or a newline.
pub open spec fn surrounding_quote_spec(s: Seq<char>) -> Seq<char> {
    if s.contains('"') || s.contains('`') || s.contains('\n') {
        seq!['\'', '\'', '\'']
    } else if s.contains('\'') {
        seq!['"']
    } else {
        seq!['\'']
    }
}

pub fn surrounding_quote_for_string(string: &str) -> (r: &'static str)
    ensures
        r@ == surrounding_quote_spec(string@),
{
    let has_dq = crate::text::str_contains_char(string, '"');
    let has_bt = crate::text::str_contains_char(string, '`');
    let has_nl = crate::text::str_contains_char(string, '\n');
    let has_sq = crate::text::str_contains_char(string, '\'');
    if has_dq || has_bt || has_nl {
        let r = "'''";
        proof {
            reveal_strlit("'''");
            assert(r@ =~= seq!['\'', '\'', '\'']);
        }
        r
    } else if has_sq {
        let r = "\"";
        proof {
            reveal_strlit("\"");
            assert(r@ =~= seq!['"']);
        }
        r
    } else {
        let r = "'";
        proof {
            reveal_strlit("'");
            assert(r@ =~= seq!['\'']);
        }
        r
    }
}

/// A string surrounded by the quotes that keep it a valid Python literal.
pub open spec fn quoted_spec(s: Seq<char>) -> Seq<char> {
    surrounding_quote_spec(s) + s + surrounding_quote_spec(s)
}

pub fn surround_string_with_quotes(string: &str) -> (r: String)
    ensures
        r@ == quoted_spec(string@),
{
    let quote = surrounding_quote_for_string(string);
    let mut out = String::new();
    out.append(quote);
    out.append(string);
    out.append(quote);
    out
}

/// One leading and one trailing quote character stripped from the trimmed
/// string, each only where present.
pub open spec fn strip_quotes_spec(s: Seq<char>) -> Seq<char> {
    let t = crate::text::trim_spec(s);
    let u = if t.len() > 0 && (t[0] == '\'' || t[0] == '"') {
        t.skip(1)
    } else {
        t
    };
    if u.len() > 0 && (u[u.len() - 1] == '\'' || u[u.len() - 1] == '"') {
        u.take(u.len() - 1)
    } else {
        u
    }
}

pub fn strip_quotes(string: &str) -> (r: String)
    ensures
        r@ == strip_quotes_spec(string@),
{
    let trimmed = crate::text::str_trim(string);
    let t = trimmed.as_str();
    let n = t.unicode_len();
    let start: usize = if n > 0 && (t.get_char(0) == '\'' || t.get_char(0) == '"') {
        1
    } else {
        0
    };
    let m = n;
    let end: usize = if m > start && (t.get_char(m - 1) == '\'' || t.get_char(m - 1) == '"') {
        m - 1
    } else {
        m
    };
    let out = t.substring_char(start, end);
    proof {
        let tt = crate::text::trim_spec(string@);
        let u = if tt.len() > 0 && (tt[0] == '\'' || tt[0] == '"') {
            tt.skip(1)
        } else {
            tt
        };
        assert(out@ =~= strip_quotes_spec(string@));
    }
    out.to_owned()
}

/// The SHOUTY_SNAKE_CASE enum name for a display name, prefixed with an
/// underscore when it would start with a numeric character.
pub open spec fn enum_name_spec(s: Seq<char>) -> Seq<char> {
    let e = shouty_snake_of(s);
    if e.len() > 0 && unicode_numeric(e[0]) {
        seq!['_'] + e
    } else {
        e
    }
}

pub fn enum_name_of(name: &str) -> (r: String)
    ensures
        r@ == enum_name_spec(name@),
{
    let e = to_shouty_snake_case(name);
    if e.as_str().unicode_len() > 0 && string_starts_with_a_number(e.as_str()) {
        let mut out = String::new();
        out.append("_");
        out.append(e.as_str());
        proof {
            reveal_strlit("_");
            assert("_"@ =~= seq!['_']);
        }
        out
    } else {
        e
    }
}

} // verus!
