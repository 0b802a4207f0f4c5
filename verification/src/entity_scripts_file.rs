//! The entity-scripts file: one class per entity type that has scripts,
//! with its keybinding table and its script tree.

use vstd::prelude::*;

use crate::casing::to_uppercase;
use crate::directory::{dir_model, script_model, Directory, DirectoryV};
use crate::directory_iterator::{events_of_items, find_key_event, DirEventV, DirectoryIterItem};
use crate::entity_types::{
    et_class_name_spec, et_model, ets_model, kb_model, kbs_model, EntityType, EntityTypeV,
    Keybinding, KeybindingV,
};
use crate::game_data::{gd_model, GameData, GameDataV};
use crate::game_variables_file::{category_class_name_spec, pymodd_class_name_of_category};
use crate::mapping_file::{build_directory_items_contents, directory_items_spec};
use crate::scripts_file::{
    build_directory_content, render_directory_spec, GenCtxV, ScriptsContentBuilder,
};
use crate::text::{
    concat_nl, find_str, join_spec, lines_spec, repeat_spec, replace_spec, starts_with, str_eq,
    str_lines, str_repeat, str_replace, str_starts_with, str_trim, trim_spec,
};
use crate::to_pymodd_maps::{lookup_or, lookup_string_map, maps_model, MapsV, PymoddMaps};
use crate::utils::enum_name_spec;

verus! {

pub struct EntityScriptsFile {}

// ---------------------------------------------------------------------------
// keybinding order
// ---------------------------------------------------------------------------

/// The first character's decimal digit value, nothing for any other
/// character or an empty key.
pub open spec fn first_digit_of(k: Seq<char>) -> Option<nat> {
    if k.len() == 0 {
        Option::None
    } else if 48 <= k[0] as int <= 57 {
        Option::Some((k[0] as int - 48) as nat)
    } else {
        Option::None
    }
}

/// Whether binding `a` sorts at or before binding `b`: short keys compare
/// by their digit value, anything else by descending key length.
pub open spec fn kb_leq(a: KeybindingV, b: KeybindingV) -> bool {
    if a.key.len() <= 1 && b.key.len() <= 1 {
        match (first_digit_of(a.key), first_digit_of(b.key)) {
            (Option::None, _) => true,
            (Option::Some(x), Option::Some(y)) => x <= y,
            (Option::Some(_), Option::None) => false,
        }
    } else {
        a.key.len() >= b.key.len()
    }
}

/// One step of the stable insertion sort of bindings.
pub open spec fn kb_insert(sorted: Seq<KeybindingV>, x: KeybindingV) -> Seq<KeybindingV>
    decreases sorted.len(),
{
    if sorted.len() == 0 {
        seq![x]
    } else if !kb_leq(sorted[0], x) {
        seq![x] + sorted
    } else {
        seq![sorted[0]] + kb_insert(sorted.skip(1), x)
    }
}

/// The stable sort of the bindings.
pub open spec fn kb_sort(items: Seq<KeybindingV>) -> Seq<KeybindingV>
    decreases items.len(),
{
    if items.len() == 0 {
        Seq::<KeybindingV>::empty()
    } else {
        kb_insert(kb_sort(items.take(items.len() - 1)), items[items.len() - 1])
    }
}

proof fn lemma_kb_insert_at(sorted: Seq<KeybindingV>, x: KeybindingV, j: int)
    requires
        0 <= j <= sorted.len(),
        forall|k: int| 0 <= k < j ==> kb_leq(#[trigger] sorted[k], x),
        j < sorted.len() ==> !kb_leq(sorted[j], x),
    ensures
        kb_insert(sorted, x) == sorted.take(j) + seq![x] + sorted.skip(j),
    decreases sorted.len(),
{
    if sorted.len() == 0 {
        assert(kb_insert(sorted, x) =~= sorted.take(j) + seq![x] + sorted.skip(j));
    } else if !kb_leq(sorted[0], x) {
        assert(j == 0) by {
            if j > 0 {
                assert(kb_leq(sorted[0], x));
            }
        }
        assert(sorted.take(0) =~= Seq::<KeybindingV>::empty());
        assert(sorted.skip(0) =~= sorted);
        assert(kb_insert(sorted, x) =~= sorted.take(j) + seq![x] + sorted.skip(j));
    } else {
        assert(j >= 1);
        lemma_kb_insert_at(sorted.skip(1), x, j - 1);
        assert(sorted.skip(1).take(j - 1) =~= sorted.subrange(1, j));
        assert(sorted.skip(1).skip(j - 1) =~= sorted.skip(j));
        assert(kb_insert(sorted, x) == seq![sorted[0]] + (sorted.subrange(1, j) + seq![x]
            + sorted.skip(j)));
        assert(seq![sorted[0]] + (sorted.subrange(1, j) + seq![x] + sorted.skip(j)) =~= sorted.take(
            j,
        ) + seq![x] + sorted.skip(j));
    }
}

fn kb_leq_exec(a: &Keybinding, b: &Keybinding) -> (r: bool)
    ensures
        r == kb_leq(kb_model(*a), kb_model(*b)),
{
    let alen = a.key.as_str().unicode_len();
    let blen = b.key.as_str().unicode_len();
    if alen <= 1 && blen <= 1 {
        let ad: Option<u32> = if alen == 0 {
            Option::None
        } else {
            let c = a.key.as_str().get_char(0) as u32;
            if 48 <= c && c <= 57 {
                Option::Some(c - 48)
            } else {
                Option::None
            }
        };
        let bd: Option<u32> = if blen == 0 {
            Option::None
        } else {
            let c = b.key.as_str().get_char(0) as u32;
            if 48 <= c && c <= 57 {
                Option::Some(c - 48)
            } else {
                Option::None
            }
        };
        match (ad, bd) {
            (Option::None, _) => true,
            (Option::Some(x), Option::Some(y)) => x <= y,
            (Option::Some(_), Option::None) => false,
        }
    } else {
        alen >= blen
    }
}

/// The bindings sorted: digit keys in digit order, longer named keys
/// first, ties kept in table order.
fn sort_keybindings(items: &Vec<Keybinding>) -> (r: Vec<Keybinding>)
    ensures
        kbs_model(r@) == kb_sort(kbs_model(items@)),
{
    let ghost iv = kbs_model(items@);
    let mut out: Vec<Keybinding> = Vec::new();
    let mut i: usize = 0;
    proof {
        assert(iv.take(0) =~= Seq::<KeybindingV>::empty());
        assert(kbs_model(out@) =~= kb_sort(iv.take(0)));
    }
    while i < items.len()
        invariant
            0 <= i <= items@.len(),
            iv == kbs_model(items@),
            iv.len() == items@.len(),
            kbs_model(out@) == kb_sort(iv.take(i as int)),
            out@.len() == i,
        decreases items@.len() - i,
    {
        let x = items[i].clone();
        let ghost xv = kb_model(items@[i as int]);
        let mut j: usize = 0;
        while j < out.len() && kb_leq_exec(&out[j], &x)
            invariant
                0 <= j <= out@.len(),
                kbs_model(out@).len() == out@.len(),
                kb_model(x) == xv,
                forall|k: int| 0 <= k < j ==> kb_leq(#[trigger] kbs_model(out@)[k], xv),
            decreases out@.len() - j,
        {
            j = j + 1;
        }
        proof {
            lemma_kb_insert_at(kbs_model(out@), xv, j as int);
        }
        let ghost olds = out@;
        let ghost xg = x;
        out.insert(j, x);
        proof {
            assert(out@ == olds.insert(j as int, xg));
            assert(kb_model(xg) == xv);
            assert forall|k: int| 0 <= k < out@.len() implies #[trigger] kb_model(out@[k]) == (
            kbs_model(olds).take(j as int) + seq![xv] + kbs_model(olds).skip(j as int))[k] by {}
            assert(kbs_model(out@) =~= kbs_model(olds).take(j as int) + seq![xv] + kbs_model(
                olds,
            ).skip(j as int));
            assert(iv.take(i + 1) =~= iv.take(i as int).push(iv[i as int]));
            assert(iv.take(i + 1).take(i as int) =~= iv.take(i as int));
            assert(iv.take(i + 1)[i as int] == iv[i as int]);
            assert(kb_sort(iv.take(i + 1)) == kb_insert(kb_sort(iv.take(i as int)), iv[i as int]));
        }
        i = i + 1;
    }
    proof {
        assert(iv.take(iv.len() as int) =~= iv);
    }
    out
}

// ---------------------------------------------------------------------------
// script references out of key bindings
// ---------------------------------------------------------------------------

/// The call text for a bound script: the entity's own method, a global
/// script's call, or `None` when the key binds nothing that resolves.
pub open spec fn script_with_key_spec(
    key: Option<Seq<char>>,
    is_entity: bool,
    game_root: Seq<crate::directory::DirItemV>,
    entity_root: Seq<crate::directory::DirItemV>,
) -> Seq<char> {
    match key {
        Option::Some(k) => if is_entity {
            match find_key_event(events_of_items(entity_root), k) {
                Option::Some(DirEventV::Script(s)) => "self."@ + s.function_name + "()"@,
                _ => "None"@,
            }
        } else {
            match find_key_event(events_of_items(game_root), k) {
                Option::Some(DirEventV::Script(s)) => s.function_name + "()"@,
                _ => "None"@,
            }
        },
        Option::None => "None"@,
    }
}

fn build_content_of_script_with_key(
    key: &Option<String>,
    is_entity_type_script: bool,
    game_directory: &Directory,
    entity_type_directory: &Directory,
) -> (r: String)
    ensures
        r@ == script_with_key_spec(
            match *key {
                Option::Some(ref k) => Option::Some(k@),
                Option::None => Option::None,
            },
            is_entity_type_script,
            dir_model(*game_directory).children,
            dir_model(*entity_type_directory).children,
        ),
{
    proof {
        reveal_strlit("self.");
        reveal_strlit("()");
        reveal_strlit("None");
    }
    match key {
        Option::Some(k) => {
            if is_entity_type_script {
                match entity_type_directory.find_item_with_key(k.as_str()) {
                    Option::Some(DirectoryIterItem::Script(s)) => {
                        let mut out: String = "self.".to_owned();
                        out.append(s.function_name.as_str());
                        out.append("()");
                        proof {
                            assert(("self.")@ =~= "self."@);
                            assert(("()")@ =~= "()"@);
                        }
                        out
                    },
                    _ => "None".to_owned(),
                }
            } else {
                match game_directory.find_item_with_key(k.as_str()) {
                    Option::Some(DirectoryIterItem::Script(s)) => {
                        let mut out = s.function_name.clone();
                        out.append("()");
                        proof {
                            assert(("()")@ =~= "()"@);
                        }
                        out
                    },
                    _ => "None".to_owned(),
                }
            }
        },
        Option::None => "None".to_owned(),
    }
}

/// The keybinding dictionary lines of one entity type, in sorted order.
pub open spec fn keybinding_lines_spec(
    m: MapsV,
    kbs: Seq<KeybindingV>,
    game_root: Seq<crate::directory::DirItemV>,
    entity_root: Seq<crate::directory::DirItemV>,
) -> Seq<Seq<char>> {
    kb_sort(kbs).map_values(
        |k: KeybindingV|
            lookup_or(m.keys, k.key, "None"@) + ": KeyBehavior("@ + script_with_key_spec(
                k.key_down_script_key,
                k.is_key_down_script_entity_script,
                game_root,
                entity_root,
            ) + ", "@ + script_with_key_spec(
                k.key_up_script_key,
                k.is_key_up_script_entity_script,
                game_root,
                entity_root,
            ) + ")"@,
    )
}

pub fn build_keybindings_dictionary_elements_for_entity_type(
    maps: &PymoddMaps,
    entity_type: &EntityType,
    game_directory: &Directory,
) -> (r: Vec<String>)
    ensures
        r@.map_values(|x: String| x@) == keybinding_lines_spec(
            maps_model(*maps),
            kbs_model(entity_type.keybindings@),
            dir_model(*game_directory).children,
            dir_model(entity_type.directory).children,
        ),
{
    let sorted = sort_keybindings(&entity_type.keybindings);
    let ghost sv = kb_sort(kbs_model(entity_type.keybindings@));
    let mut out: Vec<String> = Vec::new();
    let mut i: usize = 0;
    proof {
        assert(kbs_model(sorted@) == sv);
    }
    while i < sorted.len()
        invariant
            0 <= i <= sorted@.len(),
            kbs_model(sorted@) == sv,
            sv.len() == sorted@.len(),
            out@.len() == i,
            forall|k: int|
                0 <= k < i ==> out@[k]@ == lookup_or(
                    maps_model(*maps).keys,
                    (#[trigger] sv[k]).key,
                    "None"@,
                ) + ": KeyBehavior("@ + script_with_key_spec(
                    sv[k].key_down_script_key,
                    sv[k].is_key_down_script_entity_script,
                    dir_model(*game_directory).children,
                    dir_model(entity_type.directory).children,
                ) + ", "@ + script_with_key_spec(
                    sv[k].key_up_script_key,
                    sv[k].is_key_up_script_entity_script,
                    dir_model(*game_directory).children,
                    dir_model(entity_type.directory).children,
                ) + ")"@,
        decreases sorted@.len() - i,
    {
        proof {
            reveal_strlit(": KeyBehavior(");
            reveal_strlit(", ");
            reveal_strlit(")");
            reveal_strlit("None");
        }
        let kb = &sorted[i];
        let key_enum: String = match lookup_string_map(&maps.keys, kb.key.as_str()) {
            Option::Some(x) => x,
            Option::None => "None".to_owned(),
        };
        let down = build_content_of_script_with_key(
            &kb.key_down_script_key,
            kb.is_key_down_script_entity_script,
            game_directory,
            &entity_type.directory,
        );
        let up = build_content_of_script_with_key(
            &kb.key_up_script_key,
            kb.is_key_up_script_entity_script,
            game_directory,
            &entity_type.directory,
        );
        let mut piece = key_enum;
        piece.append(": KeyBehavior(");
        piece.append(down.as_str());
        piece.append(", ");
        piece.append(up.as_str());
        piece.append(")");
        proof {
            assert((": KeyBehavior(")@ =~= ": KeyBehavior("@);
            assert((", ")@ =~= ", "@);
            assert((")")@ =~= ")"@);
            assert(kb_model(sorted@[i as int]) == sv[i as int]);
        }
        out.push(piece);
        i = i + 1;
    }
    proof {
        assert(out@.map_values(|x: String| x@) =~= keybinding_lines_spec(
            maps_model(*maps),
            kbs_model(entity_type.keybindings@),
            dir_model(*game_directory).children,
            dir_model(entity_type.directory).children,
        ));
    }
    out
}

// ---------------------------------------------------------------------------
// the script list with self-references
// ---------------------------------------------------------------------------

/// The least index whose character is alphabetic, the length when none is.
pub open spec fn first_alpha_index(s: Seq<char>, from: int) -> int
    decreases s.len() - from,
{
    if from < 0 || from >= s.len() {
        s.len() as int
    } else if crate::casing::unicode_alpha(s[from]) {
        from
    } else {
        first_alpha_index(s, from + 1)
    }
}

proof fn lemma_first_alpha_index(s: Seq<char>, from: int)
    requires
        0 <= from <= s.len(),
    ensures
        from <= first_alpha_index(s, from) <= s.len(),
        forall|j: int|
            from <= j < first_alpha_index(s, from) ==> !crate::casing::unicode_alpha(
                #[trigger] s[j],
            ),
        first_alpha_index(s, from) < s.len() ==> crate::casing::unicode_alpha(
            s[first_alpha_index(s, from)],
        ),
    decreases s.len() - from,
{
    if from < s.len() && !crate::casing::unicode_alpha(s[from]) {
        lemma_first_alpha_index(s, from + 1);
    }
}

/// A mapping line with `self.` inserted before its identifier, folder
/// lines untouched.
pub open spec fn selfed_line(l: Seq<char>) -> Seq<char> {
    if starts_with(trim_spec(l), "Folder"@) || starts_with(trim_spec(l), "]"@) {
        l
    } else {
        let i = first_alpha_index(l, 0);
        let at = if i < l.len() {
            i
        } else {
            0
        };
        l.take(at) + "self."@ + l.skip(at)
    }
}

/// The entity type's script list, every script call an own-method call.
pub open spec fn entity_dir_elements_spec(d: DirectoryV) -> Seq<Seq<char>> {
    directory_items_spec(d).map_values(|l: Seq<char>| selfed_line(l))
}

fn build_directory_elements_for_entity_type(entity_type: &EntityType) -> (r: Vec<String>)
    ensures
        r@.map_values(|x: String| x@) == entity_dir_elements_spec(
            dir_model(entity_type.directory),
        ),
{
    let items = build_directory_items_contents(&entity_type.directory);
    let ghost lv = directory_items_spec(dir_model(entity_type.directory));
    let mut out: Vec<String> = Vec::new();
    let mut i: usize = 0;
    while i < items.len()
        invariant
            0 <= i <= items@.len(),
            items@.map_values(|x: String| x@) == lv,
            lv.len() == items@.len(),
            out@.len() == i,
            forall|k: int| 0 <= k < i ==> out@[k]@ == selfed_line(#[trigger] lv[k]),
        decreases items@.len() - i,
    {
        proof {
            reveal_strlit("Folder");
            reveal_strlit("]");
            reveal_strlit("self.");
        }
        let line = &items[i];
        let trimmed = str_trim(line.as_str());
        let piece: String = if str_starts_with(trimmed.as_str(), "Folder") || str_starts_with(
            trimmed.as_str(),
            "]",
        ) {
            line.clone()
        } else {
            let n = line.as_str().unicode_len();
            let mut a: usize = 0;
            proof {
                lemma_first_alpha_index(line@, 0);
            }
            while a < n && !crate::casing::char_is_alphabetic(line.as_str().get_char(a))
                invariant
                    0 <= a <= n,
                    n == line@.len(),
                    forall|j: int|
                        0 <= j < a ==> !crate::casing::unicode_alpha(#[trigger] line@[j]),
                decreases n - a,
            {
                a = a + 1;
            }
            proof {
                lemma_first_alpha_index(line@, 0);
                let fa = first_alpha_index(line@, 0);
                if fa < a {
                    assert(!crate::casing::unicode_alpha(line@[fa]));
                }
                if a < fa {
                    assert(!crate::casing::unicode_alpha(line@[a as int]));
                }
            }
            let at: usize = if a < n {
                a
            } else {
                0
            };
            let head = line.as_str().substring_char(0, at);
            let tail = line.as_str().substring_char(at, n);
            let mut piece2: String = head.to_owned();
            piece2.append("self.");
            piece2.append(tail);
            proof {
                assert(("self.")@ =~= "self."@);
                assert(head@ =~= line@.take(at as int));
                assert(tail@ =~= line@.skip(at as int));
            }
            piece2
        };
        out.push(piece);
        i = i + 1;
    }
    proof {
        assert(out@.map_values(|x: String| x@) =~= entity_dir_elements_spec(
            dir_model(entity_type.directory),
        ));
    }
    out
}

// ---------------------------------------------------------------------------
// class and file contents
// ---------------------------------------------------------------------------

/// One entity type's class: its entity reference, for units the
/// keybinding table, and its script list.
pub open spec fn entity_class_spec(
    m: MapsV,
    et: EntityTypeV,
    category: Seq<char>,
    game_root: Seq<crate::directory::DirItemV>,
) -> Seq<char> {
    let head = "class "@ + et_class_name_spec(et.name) + "(EntityScripts):\n\tdef _build(self):\n\t\tself.entity_type = "@
        + category_class_name_spec(category) + "."@ + enum_name_spec(et.name) + "\n"@;
    let kb_part = if category == "unitTypes"@ {
        "\t\tself.keybindings = {\n"@ + concat_nl(
            keybinding_lines_spec(m, et.keybindings, game_root, et.directory.children).map_values(
                |l: Seq<char>| "\t\t\t"@ + l + ","@,
            ),
        ) + "\t\t\t\n\t\t}\n"@
    } else {
        Seq::<char>::empty()
    };
    let scripts_part = "\t\tself.scripts = [\n"@ + concat_nl(
        entity_dir_elements_spec(et.directory).map_values(|l: Seq<char>| "\t\t\t"@ + l),
    ) + "\t\t\t\n\t\t]\n"@;
    head + kb_part + scripts_part
}

pub fn build_class_content_of_entity_type_in_category(
    maps: &PymoddMaps,
    entity_type: &EntityType,
    category: &str,
    game_directory: &Directory,
) -> (r: String)
    ensures
        r@ == entity_class_spec(
            maps_model(*maps),
            et_model(*entity_type),
            category@,
            dir_model(*game_directory).children,
        ),
{
    proof {
        reveal_strlit("class ");
        reveal_strlit("(EntityScripts):\n\tdef _build(self):\n\t\tself.entity_type = ");
        reveal_strlit(".");
        reveal_strlit("\n");
        reveal_strlit("\t\tself.keybindings = {\n");
        reveal_strlit("\t\t\t\n\t\t}\n");
        reveal_strlit("\t\tself.scripts = [\n");
        reveal_strlit("\t\t\t\n\t\t]\n");
        reveal_strlit("\t\t\t");
        reveal_strlit(",");
        reveal_strlit("unitTypes");
    }
    let mut out: String = "class ".to_owned();
    let cname = entity_type.pymodd_class_name();
    out.append(cname.as_str());
    out.append("(EntityScripts):\n\tdef _build(self):\n\t\tself.entity_type = ");
    let cat_class = pymodd_class_name_of_category(category);
    out.append(cat_class.as_str());
    out.append(".");
    let en = entity_type.enum_name();
    out.append(en.as_str());
    out.append("\n");
    if str_eq(category, "unitTypes") {
        out.append("\t\tself.keybindings = {\n");
        let kb_lines = build_keybindings_dictionary_elements_for_entity_type(
            maps,
            entity_type,
            game_directory,
        );
        let ghost kv = keybinding_lines_spec(
            maps_model(*maps),
            kbs_model(entity_type.keybindings@),
            dir_model(*game_directory).children,
            dir_model(entity_type.directory).children,
        );
        let mut prefixed: Vec<String> = Vec::new();
        let mut i: usize = 0;
        while i < kb_lines.len()
            invariant
                0 <= i <= kb_lines@.len(),
                kb_lines@.map_values(|x: String| x@) == kv,
                kv.len() == kb_lines@.len(),
                prefixed@.len() == i,
                forall|k: int|
                    0 <= k < i ==> prefixed@[k]@ == "\t\t\t"@ + #[trigger] kv[k] + ","@,
            decreases kb_lines@.len() - i,
        {
            proof {
                reveal_strlit("\t\t\t");
                reveal_strlit(",");
            }
            let mut piece: String = "\t\t\t".to_owned();
            piece.append(kb_lines[i].as_str());
            piece.append(",");
            proof {
                assert(("\t\t\t")@ =~= "\t\t\t"@);
                assert((",")@ =~= ","@);
            }
            prefixed.push(piece);
            i = i + 1;
        }
        proof {
            assert(prefixed@.map_values(|x: String| x@) =~= kv.map_values(
                |l: Seq<char>| "\t\t\t"@ + l + ","@,
            ));
        }
        let joined = crate::text::join_lines_nl(&prefixed, 0, prefixed.len());
        proof {
            assert(prefixed@.map_values(|x: String| x@).subrange(0, prefixed@.len() as int)
                =~= prefixed@.map_values(|x: String| x@));
        }
        out.append(joined.as_str());
        out.append("\t\t\t\n\t\t}\n");
    } else {
        proof {
            assert(out@ + Seq::<char>::empty() =~= out@);
        }
    }
    out.append("\t\tself.scripts = [\n");
    let elements = build_directory_elements_for_entity_type(entity_type);
    let ghost ev = entity_dir_elements_spec(dir_model(entity_type.directory));
    let mut prefixed2: Vec<String> = Vec::new();
    let mut i: usize = 0;
    while i < elements.len()
        invariant
            0 <= i <= elements@.len(),
            elements@.map_values(|x: String| x@) == ev,
            ev.len() == elements@.len(),
            prefixed2@.len() == i,
            forall|k: int| 0 <= k < i ==> prefixed2@[k]@ == "\t\t\t"@ + #[trigger] ev[k],
        decreases elements@.len() - i,
    {
        proof {
            reveal_strlit("\t\t\t");
        }
        let mut piece: String = "\t\t\t".to_owned();
        piece.append(elements[i].as_str());
        proof {
            assert(("\t\t\t")@ =~= "\t\t\t"@);
        }
        prefixed2.push(piece);
        i = i + 1;
    }
    proof {
        assert(prefixed2@.map_values(|x: String| x@) =~= ev.map_values(
            |l: Seq<char>| "\t\t\t"@ + l,
        ));
    }
    let joined2 = crate::text::join_lines_nl(&prefixed2, 0, prefixed2.len());
    proof {
        assert(prefixed2@.map_values(|x: String| x@).subrange(0, prefixed2@.len() as int)
            =~= prefixed2@.map_values(|x: String| x@));
    }
    out.append(joined2.as_str());
    out.append("\t\t\t\n\t\t]\n");
    proof {
        assert(("class ")@ =~= "class "@);
        assert(("(EntityScripts):\n\tdef _build(self):\n\t\tself.entity_type = ")@
            =~= "(EntityScripts):\n\tdef _build(self):\n\t\tself.entity_type = "@);
        assert((".")@ =~= "."@);
        assert(("\n")@ =~= "\n"@);
        assert(("\t\tself.keybindings = {\n")@ =~= "\t\tself.keybindings = {\n"@);
        assert(("\t\t\t\n\t\t}\n")@ =~= "\t\t\t\n\t\t}\n"@);
        assert(("\t\tself.scripts = [\n")@ =~= "\t\tself.scripts = [\n"@);
        assert(("\t\t\t\n\t\t]\n")@ =~= "\t\t\t\n\t\t]\n"@);
        assert(out@ =~= entity_class_spec(
            maps_model(*maps),
            et_model(*entity_type),
            category@,
            dir_model(*game_directory).children,
        ));
    }
    out
}

/// The fixed imports at the head of the entity-scripts file.
pub open spec fn entity_file_header() -> Seq<char> {
    "from pymodd.core.folder import Folder\nfrom pymodd.entity_script import EntityScripts, Key, KeyBehavior\n\nfrom scripts import *\n\n\n"@
}

/// The chunks of one category: a class and its indented script tree for
/// every entity type that has scripts.
pub open spec fn ets_chunks(ctx: GenCtxV, category: Seq<char>, ets: Seq<EntityTypeV>) -> Seq<char>
    decreases ets.len(),
{
    if ets.len() == 0 {
        Seq::<char>::empty()
    } else {
        (if ets[0].directory.children.len() > 0 {
            entity_class_spec(ctx.m, ets[0], category, ctx.root) + "\n"@ + replace_spec(
                crate::scripts_file::indent_lines(render_directory_spec(ctx, ets[0].directory)),
                "\t\n\t\n"@,
                "\n"@,
            ) + "\n\n"@
        } else {
            Seq::<char>::empty()
        }) + ets_chunks(ctx, category, ets.skip(1))
    }
}

pub open spec fn cats_chunks(ctx: GenCtxV, cats: Seq<(Seq<char>, Seq<EntityTypeV>)>) -> Seq<char>
    decreases cats.len(),
{
    if cats.len() == 0 {
        Seq::<char>::empty()
    } else {
        ets_chunks(ctx, cats[0].0, cats[0].1) + cats_chunks(ctx, cats.skip(1))
    }
}

/// The whole entity-scripts file, tabs widened to spaces.
pub open spec fn entity_file_spec(m: MapsV, g: GameDataV) -> Seq<char> {
    replace_spec(
        entity_file_header() + cats_chunks(
            crate::scripts_file::game_ctx(m, g),
            g.categories_to_entity_types,
        ),
        "\t"@,
        "    "@,
    )
}

impl EntityScriptsFile {
    pub fn build_content(maps: &PymoddMaps, game_data: &GameData) -> (r: String)
        ensures
            r@ == entity_file_spec(maps_model(*maps), gd_model(*game_data)),
    {
        proof {
            reveal_strlit(
                "from pymodd.core.folder import Folder\nfrom pymodd.entity_script import EntityScripts, Key, KeyBehavior\n\nfrom scripts import *\n\n\n",
            );
            reveal_strlit("\n");
            reveal_strlit("\n\n");
            reveal_strlit("\t\n\t\n");
            reveal_strlit("\t");
            reveal_strlit("    ");
        }
        let ghost ctx = crate::scripts_file::game_ctx(maps_model(*maps), gd_model(*game_data));
        let builder = ScriptsContentBuilder::new(
            &game_data.categories_to_variables,
            &game_data.root_directory,
            maps,
        );
        let mut out: String =
            "from pymodd.core.folder import Folder\nfrom pymodd.entity_script import EntityScripts, Key, KeyBehavior\n\nfrom scripts import *\n\n\n".to_owned();
        let cats = &game_data.categories_to_entity_types.categories_to_entity_types;
        let ghost cm = crate::entity_types::et_cats_model(cats@);
        let mut i: usize = 0;
        proof {
            assert(cm.skip(0) =~= cm);
            assert(out@ + cats_chunks(ctx, cm) =~= entity_file_header() + cats_chunks(ctx, cm));
        }
        while i < cats.len()
            invariant
                0 <= i <= cats@.len(),
                cm == crate::entity_types::et_cats_model(cats@),
                cm.len() == cats@.len(),
                ctx == crate::scripts_file::game_ctx(maps_model(*maps), gd_model(*game_data)),
                builder.ctx() == ctx,
                out@ + cats_chunks(ctx, cm.skip(i as int)) == entity_file_header() + cats_chunks(
                    ctx,
                    cm,
                ),
            decreases cats@.len() - i,
        {
            let ghost rest = cm.skip(i as int);
            proof {
                assert(rest[0] == cm[i as int]);
                assert(rest.skip(1) =~= cm.skip(i + 1));
                assert(cats_chunks(ctx, rest) == ets_chunks(ctx, cm[i as int].0, cm[i as int].1)
                    + cats_chunks(ctx, cm.skip(i + 1)));
            }
            let pair = &cats[i];
            let ets = &pair.1;
            let ghost ev = crate::entity_types::ets_model(ets@);
            let ghost mid0 = out@;
            let mut t: usize = 0;
            proof {
                assert(ev.skip(0) =~= ev);
                assert(cm[i as int].1 == ev);
                assert(cm[i as int].0 == pair.0@);
            }
            while t < ets.len()
                invariant
                    0 <= t <= ets@.len(),
                    ev == crate::entity_types::ets_model(ets@),
                    ev.len() == ets@.len(),
                    ctx == crate::scripts_file::game_ctx(
                        maps_model(*maps),
                        gd_model(*game_data),
                    ),
                    builder.ctx() == ctx,
                    out@ + ets_chunks(ctx, pair.0@, ev.skip(t as int)) == mid0 + ets_chunks(
                        ctx,
                        pair.0@,
                        ev,
                    ),
                decreases ets@.len() - t,
            {
                let ghost erest = ev.skip(t as int);
                proof {
                    reveal_strlit("\n");
                    reveal_strlit("\n\n");
                    reveal_strlit("\t\n\t\n");
                    assert(erest[0] == ev[t as int]);
                    assert(erest.skip(1) =~= ev.skip(t + 1));
                    crate::directory::lemma_items_model_len(ets@[t as int].directory.children@);
                }
                let et = &ets[t];
                if !et.directory.is_empty() {
                    let cls = build_class_content_of_entity_type_in_category(
                        builder.maps,
                        et,
                        pair.0.as_str(),
                        builder.root_directory,
                    );
                    out.append(cls.as_str());
                    out.append("\n");
                    let dirc = build_directory_content(&et.directory, &builder);
                    let ind = crate::scripts_file::indent_block(dirc.as_str());
                    let cleaned = str_replace(ind.as_str(), "\t\n\t\n", "\n");
                    out.append(cleaned.as_str());
                    out.append("\n\n");
                    proof {
                        assert(("\n")@ =~= "\n"@);
                        assert(("\n\n")@ =~= "\n\n"@);
                        assert(("\t\n\t\n")@ =~= "\t\n\t\n"@);
                        assert(ets_chunks(ctx, pair.0@, erest) == entity_class_spec(
                            ctx.m,
                            ev[t as int],
                            pair.0@,
                            ctx.root,
                        ) + "\n"@ + replace_spec(
                            crate::scripts_file::indent_lines(
                                render_directory_spec(ctx, ev[t as int].directory),
                            ),
                            "\t\n\t\n"@,
                            "\n"@,
                        ) + "\n\n"@ + ets_chunks(ctx, pair.0@, ev.skip(t + 1)));
                    }
                } else {
                    proof {
                        assert(ets_chunks(ctx, pair.0@, erest) == ets_chunks(
                            ctx,
                            pair.0@,
                            ev.skip(t + 1),
                        ));
                    }
                }
                t = t + 1;
            }
            proof {
                assert(ev.skip(ev.len() as int).len() == 0);
                assert(ets_chunks(ctx, pair.0@, ev.skip(ev.len() as int))
                    =~= Seq::<char>::empty());
                assert(out@ + Seq::<char>::empty() =~= out@);
            }
            i = i + 1;
        }
        proof {
            assert(cm.skip(cm.len() as int).len() == 0);
            assert(cats_chunks(ctx, cm.skip(cm.len() as int)) =~= Seq::<char>::empty());
            assert(out@ + Seq::<char>::empty() =~= out@);
        }
        let r = str_replace(out.as_str(), "\t", "    ");
        r
    }
}

} // verus!
