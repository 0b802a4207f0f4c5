//! The top-level mapping file: the game class listing every entity-script
//! class and the whole script tree.

use vstd::prelude::*;

use crate::casing::{to_upper_camel_case, upper_camel_of, snake_case_of, to_snake_case};
use crate::directory::{dir_model, script_model, Directory, DirectoryV};
use crate::directory_iterator::{events_of_items, DirEventV, DirectoryIterItem};
use crate::entity_types::{et_class_name_spec, EntityType, EntityTypeV};
use crate::game_data::{gd_model, GameData, GameDataV};
use crate::text::{join_spec, repeat_spec, replace_spec, str_join, str_repeat, str_replace};
use crate::utils::{quoted_spec, surround_string_with_quotes};

verus! {

pub struct MappingFile {}

/// The class references of every entity type that has scripts of its own.
pub open spec fn entity_script_classes(cats: Seq<(Seq<char>, Seq<EntityTypeV>)>) -> Seq<Seq<char>>
    decreases cats.len(),
{
    if cats.len() == 0 {
        Seq::<Seq<char>>::empty()
    } else {
        entity_classes_of(cats[0].1) + entity_script_classes(cats.skip(1))
    }
}

pub open spec fn entity_classes_of(ets: Seq<EntityTypeV>) -> Seq<Seq<char>>
    decreases ets.len(),
{
    if ets.len() == 0 {
        Seq::<Seq<char>>::empty()
    } else {
        (if ets[0].directory.children.len() > 0 {
            seq![et_class_name_spec(ets[0].name) + "()"@]
        } else {
            Seq::<Seq<char>>::empty()
        }) + entity_classes_of(ets.skip(1))
    }
}

/// The class references of the entity types whose script trees are not
/// empty, in category order.
pub fn retrieve_clases_of_entity_scripts(
    entity_type_categories: &crate::entity_types::CategoriesToEntityTypes,
) -> (r: Vec<String>)
    ensures
        r@.map_values(|x: String| x@) == entity_script_classes(
            crate::entity_types::et_cats_model(
                entity_type_categories.categories_to_entity_types@,
            ),
        ),
{
    let ghost cm = crate::entity_types::et_cats_model(
        entity_type_categories.categories_to_entity_types@,
    );
    let cats = &entity_type_categories.categories_to_entity_types;
    let mut out: Vec<String> = Vec::new();
    let mut i: usize = 0;
    proof {
        assert(cm.skip(0) =~= cm);
        assert(out@.map_values(|x: String| x@) + entity_script_classes(cm)
            =~= entity_script_classes(cm));
    }
    while i < cats.len()
        invariant
            0 <= i <= cats@.len(),
            cm == crate::entity_types::et_cats_model(cats@),
            cm.len() == cats@.len(),
            out@.map_values(|x: String| x@) + entity_script_classes(cm.skip(i as int))
                == entity_script_classes(cm),
        decreases cats@.len() - i,
    {
        let ghost rest = cm.skip(i as int);
        proof {
            assert(rest[0] == cm[i as int]);
            assert(rest.skip(1) =~= cm.skip(i + 1));
            assert(entity_script_classes(rest) == entity_classes_of(cm[i as int].1)
                + entity_script_classes(cm.skip(i + 1)));
        }
        let ets = &cats[i].1;
        let ghost ev = crate::entity_types::ets_model(ets@);
        let mut t: usize = 0;
        let ghost mid0 = out@.map_values(|x: String| x@);
        proof {
            assert(ev.skip(0) =~= ev);
            assert(mid0 + entity_classes_of(ev) =~= mid0 + entity_classes_of(ev));
            assert(cm[i as int].1 == ev);
        }
        while t < ets.len()
            invariant
                0 <= t <= ets@.len(),
                ev == crate::entity_types::ets_model(ets@),
                ev.len() == ets@.len(),
                out@.map_values(|x: String| x@) + entity_classes_of(ev.skip(t as int)) == mid0
                    + entity_classes_of(ev),
            decreases ets@.len() - t,
        {
            let ghost erest = ev.skip(t as int);
            proof {
                reveal_strlit("()");
                assert(erest[0] == ev[t as int]);
                assert(erest.skip(1) =~= ev.skip(t + 1));
                crate::directory::lemma_items_model_len(ets@[t as int].directory.children@);
            }
            let et = &ets[t];
            let ghost before = out@.map_values(|x: String| x@);
            if !et.directory.is_empty() {
                let mut piece = et.pymodd_class_name();
                piece.append("()");
                proof {
                    assert(("()")@ =~= "()"@);
                }
                out.push(piece);
                proof {
                    assert(out@.map_values(|x: String| x@) =~= before.push(
                        et_class_name_spec(ev[t as int].name) + "()"@,
                    ));
                    assert(entity_classes_of(erest) == seq![
                        et_class_name_spec(ev[t as int].name) + "()"@,
                    ] + entity_classes_of(ev.skip(t + 1)));
                    assert(out@.map_values(|x: String| x@) + entity_classes_of(ev.skip(t + 1))
                        =~= before + entity_classes_of(erest));
                }
            } else {
                proof {
                    assert(entity_classes_of(erest) == entity_classes_of(ev.skip(t + 1)));
                }
            }
            t = t + 1;
        }
        proof {
            assert(ev.skip(ev.len() as int).len() == 0);
            assert(entity_classes_of(ev.skip(ev.len() as int)) =~= Seq::<Seq<char>>::empty());
            assert(out@.map_values(|x: String| x@) + Seq::<Seq<char>>::empty() =~= out@.map_values(
                |x: String| x@,
            ));
            assert(out@.map_values(|x: String| x@) =~= mid0 + entity_classes_of(ev));
        }
        i = i + 1;
    }
    proof {
        assert(cm.skip(cm.len() as int).len() == 0);
        assert(entity_script_classes(cm.skip(cm.len() as int)) =~= Seq::<Seq<char>>::empty());
        assert(out@.map_values(|x: String| x@) + Seq::<Seq<char>>::empty() =~= out@.map_values(
            |x: String| x@,
        ));
    }
    out
}

/// The script-list lines of a directory: one call per script, folders as
/// nested list literals, indented by depth.
pub open spec fn dir_item_lines(evs: Seq<DirEventV>, depth: nat) -> Seq<Seq<char>>
    decreases evs.len(),
{
    if evs.len() == 0 {
        Seq::<Seq<char>>::empty()
    } else {
        match evs[0] {
            DirEventV::Start(d) => seq![
                repeat_spec("\t"@, depth) + "Folder("@ + quoted_spec(d.name) + ", ["@,
            ] + dir_item_lines(evs.skip(1), depth + 1),
            DirEventV::Script(s) => seq![
                repeat_spec("\t"@, depth) + s.function_name + "(),"@,
            ] + dir_item_lines(evs.skip(1), depth),
            DirEventV::End => seq![
                repeat_spec("\t"@, (if depth > 0 {
                    (depth - 1) as nat
                } else {
                    0nat
                })) + "]),"@,
            ] + dir_item_lines(evs.skip(1), (if depth > 0 {
                (depth - 1) as nat
            } else {
                0nat
            })),
        }
    }
}

/// The mapping lines of a whole directory.
pub open spec fn directory_items_spec(d: DirectoryV) -> Seq<Seq<char>> {
    dir_item_lines(events_of_items(d.children), 0)
}

/// One mapping-list element per tree item, indented by folder depth.
pub fn build_directory_items_contents(directory: &Directory) -> (r: Vec<String>)
    ensures
        r@.map_values(|x: String| x@) == directory_items_spec(dir_model(*directory)),
{
    let walk = directory.iter_flattened();
    let ghost evs = crate::directory_iterator::dir_events_model(walk.items@);
    let mut out: Vec<String> = Vec::new();
    let mut i: usize = 0;
    let mut depth: usize = 0;
    proof {
        assert(evs.skip(0) =~= evs);
        assert(out@.map_values(|x: String| x@) + dir_item_lines(evs, 0) =~= dir_item_lines(
            evs,
            0,
        ));
    }
    while i < walk.items.len()
        invariant
            0 <= i <= walk.items@.len(),
            evs == crate::directory_iterator::dir_events_model(walk.items@),
            evs.len() == walk.items@.len(),
            depth <= i,
            out@.map_values(|x: String| x@) + dir_item_lines(evs.skip(i as int), depth as nat)
                == dir_item_lines(evs, 0),
        decreases walk.items@.len() - i,
    {
        let ghost rest = evs.skip(i as int);
        let ghost old_depth = depth as nat;
        proof {
            reveal_strlit("\t");
            reveal_strlit("Folder(");
            reveal_strlit(", [");
            reveal_strlit("(),");
            reveal_strlit("]),");
            assert(rest[0] == evs[i as int]);
            assert(rest.skip(1) =~= evs.skip(i + 1));
        }
        let ghost before = out@.map_values(|x: String| x@);
        match &walk.items[i] {
            DirectoryIterItem::StartOfDirectory(d) => {
                let mut piece = str_repeat("\t", depth);
                piece.append("Folder(");
                let q = surround_string_with_quotes(d.name.as_str());
                piece.append(q.as_str());
                piece.append(", [");
                proof {
                    assert(("\t")@ =~= "\t"@);
                    assert(("Folder(")@ =~= "Folder("@);
                    assert((", [")@ =~= ", ["@);
                }
                out.push(piece);
                depth = depth + 1;
                proof {
                    assert(dir_item_lines(rest, old_depth) == seq![
                        repeat_spec("\t"@, old_depth) + "Folder("@ + quoted_spec(
                            dir_model(**d).name,
                        ) + ", ["@,
                    ] + dir_item_lines(evs.skip(i + 1), old_depth + 1));
                    assert(out@.map_values(|x: String| x@) + dir_item_lines(
                        evs.skip(i + 1),
                        depth as nat,
                    ) =~= before + dir_item_lines(rest, old_depth));
                }
            },
            DirectoryIterItem::Script(s) => {
                let mut piece = str_repeat("\t", depth);
                piece.append(s.function_name.as_str());
                piece.append("(),");
                proof {
                    assert(("\t")@ =~= "\t"@);
                    assert(("(),")@ =~= "(),"@);
                }
                out.push(piece);
                proof {
                    assert(dir_item_lines(rest, old_depth) == seq![
                        repeat_spec("\t"@, old_depth) + script_model(**s).function_name + "(),"@,
                    ] + dir_item_lines(evs.skip(i + 1), old_depth));
                    assert(out@.map_values(|x: String| x@) + dir_item_lines(
                        evs.skip(i + 1),
                        depth as nat,
                    ) =~= before + dir_item_lines(rest, old_depth));
                }
            },
            DirectoryIterItem::DirectoryEnd => {
                let new_depth: usize = if depth > 0 {
                    depth - 1
                } else {
                    0
                };
                let mut piece = str_repeat("\t", new_depth);
                piece.append("]),");
                proof {
                    assert(("\t")@ =~= "\t"@);
                    assert(("]),")@ =~= "]),"@);
                }
                out.push(piece);
                depth = new_depth;
                proof {
                    assert(dir_item_lines(rest, old_depth) == seq![
                        repeat_spec("\t"@, (if old_depth > 0 {
                            (old_depth - 1) as nat
                        } else {
                            0nat
                        })) + "]),"@,
                    ] + dir_item_lines(evs.skip(i + 1), (if old_depth > 0 {
                        (old_depth - 1) as nat
                    } else {
                        0nat
                    })));
                    assert(new_depth as nat == (if old_depth > 0 {
                        (old_depth - 1) as nat
                    } else {
                        0nat
                    }));
                    assert(out@.map_values(|x: String| x@) + dir_item_lines(
                        evs.skip(i + 1),
                        depth as nat,
                    ) =~= before + dir_item_lines(rest, old_depth));
                }
            },
        }
        i = i + 1;
    }
    proof {
        assert(evs.skip(evs.len() as int).len() == 0);
        assert(out@.map_values(|x: String| x@) + Seq::<Seq<char>>::empty() =~= out@.map_values(
            |x: String| x@,
        ));
    }
    out
}

/// The mapping file: the game class with its entity scripts and script
/// tree, and the compile hint, tabs widened to spaces.
pub open spec fn mapping_file_spec(g: GameDataV) -> Seq<char> {
    replace_spec(mapping_pre_replace(g), "\t"@, "    "@)
}

impl MappingFile {
    pub fn build_content(game_data: &GameData) -> (r: String)
        ensures
            r@ == mapping_file_spec(gd_model(*game_data)),
    {
        proof {
            reveal_strlit(
                "from pymodd.game import Game\nfrom pymodd.core.folder import Folder\n\nfrom scripts import *\nfrom entity_scripts import * \n\n\nclass ",
            );
            reveal_strlit("(Game):\n\tdef _build(self):\n\t\tself.entity_scripts = [");
            reveal_strlit("]\n\t\tself.scripts = [\n");
            reveal_strlit(
                "\t\t\t\n\t\t]\n\n\n# run `pymodd compile` within this project directory to generate this game's json files\n# example:\n\"\"\"\n$ cd ",
            );
            reveal_strlit("\n$ pymodd compile\n\"\"\"\n");
            reveal_strlit(", ");
            reveal_strlit("\t");
            reveal_strlit("    ");
            reveal_strlit("\t\t\t");
        }
        let cname = to_upper_camel_case(game_data.name.as_str());
        let classes = retrieve_clases_of_entity_scripts(&game_data.categories_to_entity_types);
        let classes_txt = str_join(&classes, ", ");
        let mut out: String =
            "from pymodd.game import Game\nfrom pymodd.core.folder import Folder\n\nfrom scripts import *\nfrom entity_scripts import * \n\n\nclass ".to_owned();
        out.append(cname.as_str());
        out.append("(Game):\n\tdef _build(self):\n\t\tself.entity_scripts = [");
        out.append(classes_txt.as_str());
        out.append("]\n\t\tself.scripts = [\n");
        let items = build_directory_items_contents(&game_data.root_directory);
        let mut prefixed: Vec<String> = Vec::new();
        let mut i: usize = 0;
        let ghost lv = directory_items_spec(gd_model(*game_data).root_directory);
        proof {
            assert(items@.map_values(|x: String| x@) == lv);
        }
        while i < items.len()
            invariant
                0 <= i <= items@.len(),
                items@.map_values(|x: String| x@) == lv,
                lv.len() == items@.len(),
                prefixed@.len() == i,
                forall|k: int| 0 <= k < i ==> prefixed@[k]@ == "\t\t\t"@ + #[trigger] lv[k],
            decreases items@.len() - i,
        {
            proof {
                reveal_strlit("\t\t\t");
            }
            let mut piece: String = "\t\t\t".to_owned();
            piece.append(items[i].as_str());
            proof {
                assert(("\t\t\t")@ =~= "\t\t\t"@);
            }
            prefixed.push(piece);
            i = i + 1;
        }
        proof {
            assert(prefixed@.map_values(|x: String| x@) =~= lv.map_values(
                |l: Seq<char>| "\t\t\t"@ + l,
            ));
        }
        let middle = crate::text::join_lines_nl(&prefixed, 0, prefixed.len());
        proof {
            assert(prefixed@.map_values(|x: String| x@).subrange(0, prefixed@.len() as int)
                =~= prefixed@.map_values(|x: String| x@));
        }
        out.append(middle.as_str());
        out.append(
            "\t\t\t\n\t\t]\n\n\n# run `pymodd compile` within this project directory to generate this game's json files\n# example:\n\"\"\"\n$ cd ",
        );
        let pname = game_data.pymodd_project_name();
        out.append(pname.as_str());
        out.append("\n$ pymodd compile\n\"\"\"\n");
        let r = str_replace(out.as_str(), "\t", "    ");
        proof {
            assert(out@ =~= mapping_pre_replace(gd_model(*game_data)));
        }
        r
    }
}

/// The mapping file before tabs are widened.
pub open spec fn mapping_pre_replace(g: GameDataV) -> Seq<char> {
    let cname = upper_camel_of(g.name);
    "from pymodd.game import Game\nfrom pymodd.core.folder import Folder\n\nfrom scripts import *\nfrom entity_scripts import * \n\n\nclass "@
        + cname
        + "(Game):\n\tdef _build(self):\n\t\tself.entity_scripts = ["@ + join_spec(
        entity_script_classes(g.categories_to_entity_types),
        ", "@,
    ) + "]\n\t\tself.scripts = [\n"@ + crate::text::concat_nl(
        directory_items_spec(g.root_directory).map_values(|l: Seq<char>| "\t\t\t"@ + l),
    )
        + "\t\t\t\n\t\t]\n\n\n# run `pymodd compile` within this project directory to generate this game's json files\n# example:\n\"\"\"\n$ cd "@
        + snake_case_of(g.name)
        + "\n$ pymodd compile\n\"\"\"\n"@
}

} // verus!
