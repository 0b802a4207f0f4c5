//! The variable-declarations file: one class per category, one class
//! variable per game variable.

use vstd::prelude::*;

use crate::casing::{to_upper_camel_case, upper_camel_of};
use crate::text::{ends_with, replace_spec, str_eq, str_ends_with};

verus! {

/// The pymodd class name of a category: `EntityVariable` and
/// `PlayerVariable` for the two variable tables, otherwise the category
/// name in UpperCamelCase, a trailing `s` dropped.
pub open spec fn category_class_name_spec(category: Seq<char>) -> Seq<char> {
    let base = if category == "entityTypeVariables"@ {
        "EntityVariable"@
    } else if category == "playerTypeVariables"@ {
        "PlayerVariable"@
    } else {
        category
    };
    let cased = upper_camel_of(base);
    if ends_with(cased, "s"@) {
        cased.take(cased.len() - 1)
    } else {
        cased
    }
}

pub fn pymodd_class_name_of_category(category: &str) -> (r: String)
    ensures
        r@ == category_class_name_spec(category@),
{
    let base: String = if str_eq(category, "entityTypeVariables") {
        "EntityVariable".to_owned()
    } else if str_eq(category, "playerTypeVariables") {
        "PlayerVariable".to_owned()
    } else {
        category.to_owned()
    };
    let cased = to_upper_camel_case(base.as_str());
    if str_ends_with(cased.as_str(), "s") {
        proof {
            reveal_strlit("s");
        }
        let n = cased.as_str().unicode_len();
        let cut = cased.as_str().substring_char(0, n - 1);
        proof {
            assert(cut@ =~= category_class_name_spec(category@));
        }
        cut.to_owned()
    } else {
        proof {
            reveal_strlit("s");
        }
        cased
    }
}

/// The base-class name a category's variables are declared with: the
/// split-out pseudo-categories share the plain `Variable` base.
pub open spec fn category_class_type_spec(category: Seq<char>) -> Seq<char> {
    let base = if category == "itemTypeGroups"@ || category == "unitTypeGroups"@ || category
        == "regions"@ {
        "Variable"@
    } else {
        category_class_name_spec(category)
    };
    base + "Base"@
}

pub fn pymodd_class_type_of_category(category: &str) -> (r: String)
    ensures
        r@ == category_class_type_spec(category@),
{
    let mut base: String = if str_eq(category, "itemTypeGroups") || str_eq(
        category,
        "unitTypeGroups",
    ) || str_eq(category, "regions") {
        "Variable".to_owned()
    } else {
        pymodd_class_name_of_category(category)
    };
    base.append("Base");
    base
}

/// The categories whose variables are declared with a data type rather
/// than a display name.
pub open spec fn is_variable_type_category(category: Seq<char>) -> bool {
    category == "variables"@ || category == "entityTypeVariables"@ || category
        == "playerTypeVariables"@ || category == "itemTypeGroups"@ || category == "unitTypeGroups"@
        || category == "regions"@
}

pub fn is_category_of_variable_type(category: &str) -> (r: bool)
    ensures
        r == is_variable_type_category(category@),
{
    str_eq(category, "variables") || str_eq(category, "entityTypeVariables") || str_eq(
        category,
        "playerTypeVariables",
    ) || str_eq(category, "itemTypeGroups") || str_eq(category, "unitTypeGroups") || str_eq(
        category,
        "regions",
    )
}

// ---------------------------------------------------------------------------
// class contents
// ---------------------------------------------------------------------------

/// The rendered default value of a variable: an object becomes a list of
/// its keys resolved as values, anything else renders as a plain value.
pub open spec fn default_value_spec(ctx: crate::scripts_file::GenCtxV, dv: crate::document::JsonV) -> Seq<
    char,
> {
    match dv {
        crate::document::JsonV::Obj(entries) => "["@ + crate::text::join_spec(
            entries.map_values(
                |e: (Seq<char>, crate::document::JsonV)|
                    crate::scripts_file::simple_content(
                        ctx,
                        crate::argument_values_iterator::ArgEventV::Value(
                            crate::document::JsonV::Str(e.0),
                        ),
                    ),
            ),
            ", "@,
        ) + "]"@,
        _ => crate::scripts_file::simple_content(
            ctx,
            crate::argument_values_iterator::ArgEventV::Value(dv),
        ),
    }
}

/// One class-variable line of a category.
pub open spec fn class_variable_spec(
    ctx: crate::scripts_file::GenCtxV,
    category: Seq<char>,
    v: crate::variable_categories::VariableV,
) -> Seq<char> {
    let head = v.enum_name + " = "@ + category_class_type_spec(category) + "("@
        + crate::utils::quoted_spec(v.id);
    let dt = match crate::variable_categories::data_type_spec(v) {
        Option::Some(d) => d,
        Option::None => Seq::<char>::empty(),
    };
    let suffix = if !is_variable_type_category(category) {
        ", name="@ + crate::utils::quoted_spec(v.name)
    } else {
        ", "@ + crate::to_pymodd_maps::lookup_or(ctx.m.data_types, dt, "None"@) + (match (
        crate::document::jget_entries(v.data, "default"@), category == "entityTypeVariables"@
            || category == "playerTypeVariables"@ || dt == "region"@) {
            (Option::Some(dv), false) => if dt != "region"@ {
                ", default_value="@ + default_value_spec(ctx, dv)
            } else {
                Seq::<char>::empty()
            },
            _ => Seq::<char>::empty(),
        })
    };
    head + suffix + ")"@
}

/// One category's class: a `pass` when it has no variables, one line per
/// variable otherwise.
pub open spec fn category_class_spec(
    ctx: crate::scripts_file::GenCtxV,
    category: Seq<char>,
    vars: Seq<crate::variable_categories::VariableV>,
) -> Seq<char> {
    let head = "class "@ + category_class_name_spec(category) + ":"@;
    if vars.len() == 0 {
        head + "\n\tpass"@
    } else {
        head + flat_join(vars.map_values(|v: crate::variable_categories::VariableV| "\n\t"@
            + class_variable_spec(ctx, category, v)))
    }
}

/// The pieces of a list concatenated.
pub open spec fn flat_join(pieces: Seq<Seq<char>>) -> Seq<char>
    decreases pieces.len(),
{
    if pieces.len() == 0 {
        Seq::<char>::empty()
    } else {
        pieces[0] + flat_join(pieces.skip(1))
    }
}

/// Builds one category's class content.
pub fn build_category_class_content(
    builder: &crate::scripts_file::ScriptsContentBuilder,
    category: &str,
    variables: &Vec<crate::variable_categories::Variable>,
) -> (r: String)
    ensures
        r@ == category_class_spec(
            builder.ctx(),
            category@,
            crate::variable_categories::vars_model(variables@),
        ),
{
    proof {
        reveal_strlit("class ");
        reveal_strlit(":");
        reveal_strlit("\n\tpass");
        reveal_strlit("\n\t");
    }
    let mut out: String = "class ".to_owned();
    let cname = pymodd_class_name_of_category(category);
    out.append(cname.as_str());
    out.append(":");
    proof {
        assert(("class ")@ =~= "class "@);
        assert((":")@ =~= ":"@);
    }
    let ghost vv = crate::variable_categories::vars_model(variables@);
    if variables.len() == 0 {
        out.append("\n\tpass");
        proof {
            assert(("\n\tpass")@ =~= "\n\tpass"@);
        }
        return out;
    }
    let mut i: usize = 0;
    let ghost head0 = out@;
    proof {
        let ghost pieces = vv.map_values(|v: crate::variable_categories::VariableV| "\n\t"@
            + class_variable_spec(builder.ctx(), category@, v));
        assert(pieces.skip(0) =~= pieces);
        assert(out@ + flat_join(pieces) =~= head0 + flat_join(pieces));
    }
    while i < variables.len()
        invariant
            0 <= i <= variables@.len(),
            vv == crate::variable_categories::vars_model(variables@),
            vv.len() == variables@.len(),
            out@ + flat_join(
                vv.map_values(|v: crate::variable_categories::VariableV| "\n\t"@
                    + class_variable_spec(builder.ctx(), category@, v)).skip(i as int),
            ) == head0 + flat_join(
                vv.map_values(|v: crate::variable_categories::VariableV| "\n\t"@
                    + class_variable_spec(builder.ctx(), category@, v)),
            ),
        decreases variables@.len() - i,
    {
        let ghost pieces = vv.map_values(|v: crate::variable_categories::VariableV| "\n\t"@
            + class_variable_spec(builder.ctx(), category@, v));
        proof {
            reveal_strlit("\n\t");
            assert(pieces.skip(i as int)[0] == pieces[i as int]);
            assert(pieces.skip(i as int).skip(1) =~= pieces.skip(i + 1));
            assert(flat_join(pieces.skip(i as int)) == pieces[i as int] + flat_join(
                pieces.skip(i + 1),
            ));
        }
        out.append("\n\t");
        let line = build_class_variable_line(builder, category, &variables[i]);
        out.append(line.as_str());
        proof {
            assert(("\n\t")@ =~= "\n\t"@);
        }
        i = i + 1;
    }
    proof {
        let ghost pieces = vv.map_values(|v: crate::variable_categories::VariableV| "\n\t"@
            + class_variable_spec(builder.ctx(), category@, v));
        assert(pieces.skip(pieces.len() as int).len() == 0);
        assert(flat_join(pieces.skip(pieces.len() as int)) =~= Seq::<char>::empty());
        assert(out@ + Seq::<char>::empty() =~= out@);
    }
    out
}

/// Builds one class-variable line.
fn build_class_variable_line(
    builder: &crate::scripts_file::ScriptsContentBuilder,
    category: &str,
    variable: &crate::variable_categories::Variable,
) -> (r: String)
    ensures
        r@ == class_variable_spec(
            builder.ctx(),
            category@,
            crate::variable_categories::var_model(*variable),
        ),
{
    proof {
        reveal_strlit(" = ");
        reveal_strlit("(");
        reveal_strlit(")");
        reveal_strlit(", name=");
        reveal_strlit(", ");
        reveal_strlit("None");
        reveal_strlit(", default_value=");
        reveal_strlit("entityTypeVariables");
        reveal_strlit("playerTypeVariables");
        reveal_strlit("region");
    }
    let mut out = variable.enum_name();
    out.append(" = ");
    let ct = pymodd_class_type_of_category(category);
    out.append(ct.as_str());
    out.append("(");
    let q = crate::utils::surround_string_with_quotes(variable.id.as_str());
    out.append(q.as_str());
    if !is_category_of_variable_type(category) {
        out.append(", name=");
        let qn = crate::utils::surround_string_with_quotes(variable.name.as_str());
        out.append(qn.as_str());
        proof {
            assert((", name=")@ =~= ", name="@);
        }
    } else {
        let dt: String = match variable.data_type() {
            Option::Some(d) => d,
            Option::None => String::new(),
        };
        out.append(", ");
        let dte: String = match crate::to_pymodd_maps::lookup_string_map(
            &builder.maps.data_types,
            dt.as_str(),
        ) {
            Option::Some(x) => x,
            Option::None => "None".to_owned(),
        };
        out.append(dte.as_str());
        let in_special = str_eq(category, "entityTypeVariables") || str_eq(
            category,
            "playerTypeVariables",
        ) || str_eq(dt.as_str(), "region");
        match variable.get_key("default") {
            Option::Some(dv) => {
                if !in_special && !str_eq(dt.as_str(), "region") {
                    out.append(", default_value=");
                    let dtxt = build_default_value(builder, dv);
                    out.append(dtxt.as_str());
                    proof {
                        assert((", default_value=")@ =~= ", default_value="@);
                    }
                } else {
                    proof {
                        assert(out@ + Seq::<char>::empty() =~= out@);
                    }
                }
            },
            Option::None => {
                proof {
                    assert(out@ + Seq::<char>::empty() =~= out@);
                }
            },
        }
        proof {
            assert((", ")@ =~= ", "@);
        }
    }
    out.append(")");
    proof {
        assert((" = ")@ =~= " = "@);
        assert(("(")@ =~= "("@);
        assert((")")@ =~= ")"@);
        assert(out@ =~= class_variable_spec(
            builder.ctx(),
            category@,
            crate::variable_categories::var_model(*variable),
        ));
    }
    out
}

/// Builds the rendered default value of a variable.
fn build_default_value(
    builder: &crate::scripts_file::ScriptsContentBuilder,
    default_value: &crate::document::JsonValue,
) -> (r: String)
    ensures
        r@ == default_value_spec(builder.ctx(), crate::document::jval(*default_value)),
{
    proof {
        reveal_strlit("[");
        reveal_strlit("]");
        reveal_strlit(", ");
    }
    match default_value {
        crate::document::JsonValue::Obj(entries) => {
            let ghost ev = crate::document::jentries(entries@);
            let mut parts: Vec<String> = Vec::new();
            let mut i: usize = 0;
            proof {
                crate::document::lemma_jentries_len(entries@);
            }
            while i < entries.len()
                invariant
                    0 <= i <= entries@.len(),
                    ev == crate::document::jentries(entries@),
                    ev.len() == entries@.len(),
                    parts@.len() == i,
                    forall|k: int|
                        0 <= k < i ==> parts@[k]@ == crate::scripts_file::simple_content(
                            builder.ctx(),
                            crate::argument_values_iterator::ArgEventV::Value(
                                crate::document::JsonV::Str((#[trigger] ev[k]).0),
                            ),
                        ),
                decreases entries@.len() - i,
            {
                proof {
                    crate::document::lemma_jentries_index(entries@, i as int);
                }
                let keyv = crate::document::JsonValue::Str(entries[i].0.clone());
                let piece = builder.build_value_content(&keyv);
                parts.push(piece);
                i = i + 1;
            }
            let inner = crate::text::str_join(&parts, ", ");
            let mut out: String = "[".to_owned();
            out.append(inner.as_str());
            out.append("]");
            proof {
                assert(("[")@ =~= "["@);
                assert(("]")@ =~= "]"@);
                assert((", ")@ =~= ", "@);
                assert(parts@.map_values(|x: String| x@) =~= ev.map_values(
                    |e: (Seq<char>, crate::document::JsonV)|
                        crate::scripts_file::simple_content(
                            builder.ctx(),
                            crate::argument_values_iterator::ArgEventV::Value(
                                crate::document::JsonV::Str(e.0),
                            ),
                        ),
                ));
                assert(out@ =~= default_value_spec(
                    builder.ctx(),
                    crate::document::jval(*default_value),
                ));
            }
            out
        },
        other => builder.build_value_content(other),
    }
}

// ---------------------------------------------------------------------------
// the file
// ---------------------------------------------------------------------------

/// Code-point order on names: what the import list is sorted by.
pub open spec fn lex_leq(a: Seq<char>, b: Seq<char>) -> bool
    decreases a.len(),
{
    if a.len() == 0 {
        true
    } else if b.len() == 0 {
        false
    } else if a[0] != b[0] {
        (a[0] as int) < (b[0] as int)
    } else {
        lex_leq(a.skip(1), b.skip(1))
    }
}

pub open spec fn lex_insert(sorted: Seq<Seq<char>>, x: Seq<char>) -> Seq<Seq<char>>
    decreases sorted.len(),
{
    if sorted.len() == 0 {
        seq![x]
    } else if !lex_leq(sorted[0], x) {
        seq![x] + sorted
    } else {
        seq![sorted[0]] + lex_insert(sorted.skip(1), x)
    }
}

pub open spec fn lex_sort(items: Seq<Seq<char>>) -> Seq<Seq<char>>
    decreases items.len(),
{
    if items.len() == 0 {
        Seq::<Seq<char>>::empty()
    } else {
        lex_insert(lex_sort(items.take(items.len() - 1)), items[items.len() - 1])
    }
}

/// Adjacent duplicates dropped.
pub open spec fn dedup_adjacent(items: Seq<Seq<char>>) -> Seq<Seq<char>>
    decreases items.len(),
{
    if items.len() == 0 {
        Seq::<Seq<char>>::empty()
    } else if items.len() == 1 {
        items
    } else if items[0] == items[1] {
        dedup_adjacent(items.skip(1))
    } else {
        seq![items[0]] + dedup_adjacent(items.skip(1))
    }
}

fn lex_leq_exec(a: &str, b: &str) -> (r: bool)
    ensures
        r == lex_leq(a@, b@),
    decreases a@.len(),
{
    let n = a.unicode_len();
    let m = b.unicode_len();
    if n == 0 {
        return true;
    }
    if m == 0 {
        return false;
    }
    let ca = a.get_char(0);
    let cb = b.get_char(0);
    if ca != cb {
        (ca as u32) < (cb as u32)
    } else {
        let ra = a.substring_char(1, n);
        let rb = b.substring_char(1, m);
        proof {
            assert(ra@ =~= a@.skip(1));
            assert(rb@ =~= b@.skip(1));
        }
        lex_leq_exec(ra, rb)
    }
}

/// The import names sorted and deduplicated.
fn sort_and_dedup(items: Vec<String>) -> (r: Vec<String>)
    ensures
        r@.map_values(|x: String| x@) == dedup_adjacent(
            lex_sort(items@.map_values(|x: String| x@)),
        ),
{
    let ghost iv = items@.map_values(|x: String| x@);
    let mut sorted: Vec<String> = Vec::new();
    let mut i: usize = 0;
    proof {
        assert(iv.take(0) =~= Seq::<Seq<char>>::empty());
        assert(sorted@.map_values(|x: String| x@) =~= lex_sort(iv.take(0)));
    }
    while i < items.len()
        invariant
            0 <= i <= items@.len(),
            iv == items@.map_values(|x: String| x@),
            iv.len() == items@.len(),
            sorted@.map_values(|x: String| x@) == lex_sort(iv.take(i as int)),
            sorted@.len() == i,
        decreases items@.len() - i,
    {
        let x = items[i].clone();
        let ghost xv = iv[i as int];
        let mut j: usize = 0;
        while j < sorted.len() && lex_leq_exec(sorted[j].as_str(), x.as_str())
            invariant
                0 <= j <= sorted@.len(),
                xv == x@,
                forall|k: int|
                    0 <= k < j ==> lex_leq(#[trigger] sorted@[k]@, xv),
            decreases sorted@.len() - j,
        {
            j = j + 1;
        }
        proof {
            lemma_lex_insert_at(sorted@.map_values(|x2: String| x2@), xv, j as int);
        }
        let ghost olds = sorted@;
        let ghost xg = x;
        sorted.insert(j, x);
        proof {
            assert(sorted@ == olds.insert(j as int, xg));
            let om = olds.map_values(|x2: String| x2@);
            assert forall|k: int| 0 <= k < sorted@.len() implies #[trigger] sorted@[k]@ == (
            om.take(j as int) + seq![xv] + om.skip(j as int))[k] by {}
            assert(sorted@.map_values(|x2: String| x2@) =~= om.take(j as int) + seq![xv] + om.skip(
                j as int,
            ));
            assert(iv.take(i + 1) =~= iv.take(i as int).push(iv[i as int]));
            assert(iv.take(i + 1).take(i as int) =~= iv.take(i as int));
            assert(iv.take(i + 1)[i as int] == iv[i as int]);
            assert(lex_sort(iv.take(i + 1)) == lex_insert(lex_sort(iv.take(i as int)), xv));
        }
        i = i + 1;
    }
    proof {
        assert(iv.take(iv.len() as int) =~= iv);
    }
    // drop adjacent duplicates, back to front so the recursion lines up
    let ghost sv = lex_sort(iv);
    let mut out: Vec<String> = Vec::new();
    let mut k: usize = 0;
    proof {
        assert(sorted@.map_values(|x: String| x@) == sv);
        assert(sv.skip(0) =~= sv);
        assert(out@.map_values(|x: String| x@) + dedup_adjacent(sv) =~= dedup_adjacent(sv));
    }
    while k < sorted.len()
        invariant
            0 <= k <= sorted@.len(),
            sorted@.map_values(|x: String| x@) == sv,
            sv.len() == sorted@.len(),
            out@.map_values(|x: String| x@) + dedup_adjacent(sv.skip(k as int)) == dedup_adjacent(
                sv,
            ),
        decreases sorted@.len() - k,
    {
        let ghost rest = sv.skip(k as int);
        proof {
            assert(rest[0] == sv[k as int]);
            assert(rest.skip(1) =~= sv.skip(k + 1));
            if k + 1 < sv.len() {
                assert(rest[1] == sv[k + 1]);
            }
        }
        let ghost before = out@.map_values(|x: String| x@);
        if k + 1 < sorted.len() && str_eq(sorted[k].as_str(), sorted[k + 1].as_str()) {
            proof {
                assert(dedup_adjacent(rest) == dedup_adjacent(sv.skip(k + 1)));
            }
        } else {
            let piece = sorted[k].clone();
            out.push(piece);
            proof {
                if rest.len() == 1 {
                    assert(dedup_adjacent(rest) =~= seq![rest[0]]);
                    assert(sv.skip(k + 1).len() == 0);
                    assert(dedup_adjacent(sv.skip(k + 1)) =~= Seq::<Seq<char>>::empty());
                    assert(seq![rest[0]] =~= seq![rest[0]] + dedup_adjacent(sv.skip(k + 1)));
                } else {
                    assert(dedup_adjacent(rest) == seq![rest[0]] + dedup_adjacent(
                        sv.skip(k + 1),
                    ));
                }
                assert(out@.map_values(|x: String| x@) =~= before.push(sv[k as int]));
                assert(out@.map_values(|x: String| x@) + dedup_adjacent(sv.skip(k + 1)) =~= before
                    + dedup_adjacent(rest));
            }
        }
        k = k + 1;
    }
    proof {
        assert(sv.skip(sv.len() as int).len() == 0);
        assert(dedup_adjacent(sv.skip(sv.len() as int)) =~= Seq::<Seq<char>>::empty());
        assert(out@.map_values(|x: String| x@) + Seq::<Seq<char>>::empty() =~= out@.map_values(
            |x: String| x@,
        ));
    }
    out
}

proof fn lemma_lex_insert_at(sorted: Seq<Seq<char>>, x: Seq<char>, j: int)
    requires
        0 <= j <= sorted.len(),
        forall|k: int| 0 <= k < j ==> lex_leq(#[trigger] sorted[k], x),
        j < sorted.len() ==> !lex_leq(sorted[j], x),
    ensures
        lex_insert(sorted, x) == sorted.take(j) + seq![x] + sorted.skip(j),
    decreases sorted.len(),
{
    if sorted.len() == 0 {
        assert(lex_insert(sorted, x) =~= sorted.take(j) + seq![x] + sorted.skip(j));
    } else if !lex_leq(sorted[0], x) {
        assert(j == 0) by {
            if j > 0 {
                assert(lex_leq(sorted[0], x));
            }
        }
        assert(sorted.take(0) =~= Seq::<Seq<char>>::empty());
        assert(sorted.skip(0) =~= sorted);
        assert(lex_insert(sorted, x) =~= sorted.take(j) + seq![x] + sorted.skip(j));
    } else {
        assert(j >= 1);
        lemma_lex_insert_at(sorted.skip(1), x, j - 1);
        assert(sorted.skip(1).take(j - 1) =~= sorted.subrange(1, j));
        assert(sorted.skip(1).skip(j - 1) =~= sorted.skip(j));
        assert(lex_insert(sorted, x) == seq![sorted[0]] + (sorted.subrange(1, j) + seq![x]
            + sorted.skip(j)));
        assert(seq![sorted[0]] + (sorted.subrange(1, j) + seq![x] + sorted.skip(j)) =~= sorted.take(
            j,
        ) + seq![x] + sorted.skip(j));
    }
}

pub struct GameVariablesFile {}

/// The class contents of every category, separated by blank lines.
pub open spec fn category_classes_spec(
    ctx: crate::scripts_file::GenCtxV,
    cats: Seq<(Seq<char>, Seq<crate::variable_categories::VariableV>)>,
) -> Seq<char>
    decreases cats.len(),
{
    if cats.len() == 0 {
        Seq::<char>::empty()
    } else {
        category_class_spec(ctx, cats[0].0, cats[0].1) + "\n\n\n"@ + category_classes_spec(
            ctx,
            cats.skip(1),
        )
    }
}

/// The sorted, deduplicated base-class imports of the categories.
pub open spec fn import_classes_spec(
    cats: Seq<(Seq<char>, Seq<crate::variable_categories::VariableV>)>,
) -> Seq<Seq<char>> {
    dedup_adjacent(
        lex_sort(
            cats.map_values(
                |p: (Seq<char>, Seq<crate::variable_categories::VariableV>)|
                    category_class_type_spec(p.0),
            ),
        ),
    )
}

/// The whole variable-declarations file, tabs widened to spaces.
pub open spec fn game_variables_file_spec(
    m: crate::to_pymodd_maps::MapsV,
    g: crate::game_data::GameDataV,
) -> Seq<char> {
    let ctx = crate::scripts_file::game_ctx(m, g);
    replace_spec(
        "from pymodd.variable_types import "@ + crate::text::join_spec(
            import_classes_spec(g.categories_to_variables),
            ", "@,
        ) + "\nfrom pymodd.variable.data_type import DataType\n\n\n"@ + category_classes_spec(
            ctx,
            g.categories_to_variables,
        ),
        "\t"@,
        "    "@,
    )
}

impl GameVariablesFile {
    pub fn build_content(
        maps: &crate::to_pymodd_maps::PymoddMaps,
        game_data: &crate::game_data::GameData,
    ) -> (r: String)
        ensures
            r@ == game_variables_file_spec(
                crate::to_pymodd_maps::maps_model(*maps),
                crate::game_data::gd_model(*game_data),
            ),
    {
        proof {
            reveal_strlit("from pymodd.variable_types import ");
            reveal_strlit("\nfrom pymodd.variable.data_type import DataType\n\n\n");
            reveal_strlit("\n\n\n");
            reveal_strlit(", ");
            reveal_strlit("\t");
            reveal_strlit("    ");
        }
        let ghost ctx = crate::scripts_file::game_ctx(
            crate::to_pymodd_maps::maps_model(*maps),
            crate::game_data::gd_model(*game_data),
        );
        let builder = crate::scripts_file::ScriptsContentBuilder::new(
            &game_data.categories_to_variables,
            &game_data.root_directory,
            maps,
        );
        let cats = &game_data.categories_to_variables.categories_to_variables;
        let ghost cm = crate::variable_categories::cats_model(cats@);
        let mut body = String::new();
        let mut imports: Vec<String> = Vec::new();
        let mut i: usize = 0;
        proof {
            assert(cm.skip(0) =~= cm);
            assert(body@ + category_classes_spec(ctx, cm) =~= category_classes_spec(ctx, cm));
            assert(imports@.map_values(|x: String| x@) =~= cm.map_values(
                |p: (Seq<char>, Seq<crate::variable_categories::VariableV>)|
                    category_class_type_spec(p.0),
            ).take(0));
        }
        while i < cats.len()
            invariant
                0 <= i <= cats@.len(),
                cm == crate::variable_categories::cats_model(cats@),
                cm.len() == cats@.len(),
                builder.ctx() == ctx,
                body@ + category_classes_spec(ctx, cm.skip(i as int)) == category_classes_spec(
                    ctx,
                    cm,
                ),
                imports@.len() == i,
                imports@.map_values(|x: String| x@) == cm.map_values(
                    |p: (Seq<char>, Seq<crate::variable_categories::VariableV>)|
                        category_class_type_spec(p.0),
                ).take(i as int),
            decreases cats@.len() - i,
        {
            let ghost rest = cm.skip(i as int);
            proof {
                reveal_strlit("\n\n\n");
                assert(rest[0] == cm[i as int]);
                assert(rest.skip(1) =~= cm.skip(i + 1));
                assert(category_classes_spec(ctx, rest) == category_class_spec(
                    ctx,
                    cm[i as int].0,
                    cm[i as int].1,
                ) + "\n\n\n"@ + category_classes_spec(ctx, cm.skip(i + 1)));
            }
            let pair = &cats[i];
            let piece = build_category_class_content(&builder, pair.0.as_str(), &pair.1);
            body.append(piece.as_str());
            body.append("\n\n\n");
            proof {
                assert(("\n\n\n")@ =~= "\n\n\n"@);
            }
            let imp = pymodd_class_type_of_category(pair.0.as_str());
            let ghost prev = imports@.map_values(|x: String| x@);
            imports.push(imp);
            proof {
                let ghost all = cm.map_values(
                    |p: (Seq<char>, Seq<crate::variable_categories::VariableV>)|
                        category_class_type_spec(p.0),
                );
                assert(imports@.map_values(|x: String| x@) =~= all.take(i + 1));
            }
            i = i + 1;
        }
        proof {
            assert(cm.skip(cm.len() as int).len() == 0);
            assert(category_classes_spec(ctx, cm.skip(cm.len() as int))
                =~= Seq::<char>::empty());
            assert(body@ + Seq::<char>::empty() =~= body@);
            let ghost all = cm.map_values(
                |p: (Seq<char>, Seq<crate::variable_categories::VariableV>)|
                    category_class_type_spec(p.0),
            );
            assert(all.take(all.len() as int) =~= all);
        }
        let cleaned = sort_and_dedup(imports);
        let imports_txt = crate::text::str_join(&cleaned, ", ");
        let mut out: String = "from pymodd.variable_types import ".to_owned();
        out.append(imports_txt.as_str());
        out.append("\nfrom pymodd.variable.data_type import DataType\n\n\n");
        out.append(body.as_str());
        let r = crate::text::str_replace(out.as_str(), "\t", "    ");
        proof {
            assert(("from pymodd.variable_types import ")@
                =~= "from pymodd.variable_types import "@);
            assert(("\nfrom pymodd.variable.data_type import DataType\n\n\n")@
                =~= "\nfrom pymodd.variable.data_type import DataType\n\n\n"@);
            assert(out@ =~= "from pymodd.variable_types import "@ + crate::text::join_spec(
                import_classes_spec(
                    crate::game_data::gd_model(*game_data).categories_to_variables,
                ),
                ", "@,
            ) + "\nfrom pymodd.variable.data_type import DataType\n\n\n"@
                + category_classes_spec(
                ctx,
                crate::game_data::gd_model(*game_data).categories_to_variables,
            ));
        }
        r
    }
}

} // verus!
