//! The entity-type tables: units, items and projectiles, each with its own
//! script tree and, for units, a keybinding table.

use vstd::prelude::*;

use crate::casing::{to_upper_camel_case, upper_camel_of};
use crate::directory::{dir_model, Directory, DirectoryV, obj_values};
use crate::document::{jget, jval, JsonV, JsonValue, jentries, lemma_jentries_index,
    lemma_jentries_len};
use crate::text::{replace_spec, str_eq, str_replace};
use crate::to_pymodd_maps::{maps_model, MapsV, PymoddMaps};
use crate::utils::{enum_name_of, enum_name_spec, is_valid_class_name, is_valid_class_name_spec};

verus! {

/// One key binding: the key name and the scripts run when it goes down
/// and up, each either a global script or the entity's own.
pub struct Keybinding {
    pub key: String,
    pub key_down_script_key: Option<String>,
    pub is_key_down_script_entity_script: bool,
    pub key_up_script_key: Option<String>,
    pub is_key_up_script_entity_script: bool,
}

pub struct KeybindingV {
    pub key: Seq<char>,
    pub key_down_script_key: Option<Seq<char>>,
    pub is_key_down_script_entity_script: bool,
    pub key_up_script_key: Option<Seq<char>>,
    pub is_key_up_script_entity_script: bool,
}

pub open spec fn kb_model(k: Keybinding) -> KeybindingV {
    KeybindingV {
        key: k.key@,
        key_down_script_key: match k.key_down_script_key {
            Option::Some(s) => Option::Some(s@),
            Option::None => Option::None,
        },
        is_key_down_script_entity_script: k.is_key_down_script_entity_script,
        key_up_script_key: match k.key_up_script_key {
            Option::Some(s) => Option::Some(s@),
            Option::None => Option::None,
        },
        is_key_up_script_entity_script: k.is_key_up_script_entity_script,
    }
}

pub open spec fn kbs_model(items: Seq<Keybinding>) -> Seq<KeybindingV> {
    items.map_values(|k: Keybinding| kb_model(k))
}

impl Clone for Keybinding {
    fn clone(&self) -> (r: Self)
        ensures
            kb_model(r) == kb_model(*self),
    {
        Keybinding {
            key: self.key.clone(),
            key_down_script_key: match &self.key_down_script_key {
                Option::Some(s) => Option::Some(s.clone()),
                Option::None => Option::None,
            },
            is_key_down_script_entity_script: self.is_key_down_script_entity_script,
            key_up_script_key: match &self.key_up_script_key {
                Option::Some(s) => Option::Some(s.clone()),
                Option::None => Option::None,
            },
            is_key_up_script_entity_script: self.is_key_up_script_entity_script,
        }
    }
}

/// The non-empty `scriptName` of one key behavior, when present.
pub open spec fn script_key_of_behavior(v: JsonV) -> Option<Seq<char>> {
    match jget(v, "scriptName"@) {
        Option::Some(JsonV::Str(s)) => if s.len() > 0 {
            Option::Some(s)
        } else {
            Option::None
        },
        _ => Option::None,
    }
}

fn get_script_key_of_key_behavior_data(key_behavior_data: &JsonValue) -> (r: Option<String>)
    ensures
        match r {
            Option::Some(s) => script_key_of_behavior(jval(*key_behavior_data)) == Option::Some(
                s@,
            ),
            Option::None => script_key_of_behavior(jval(*key_behavior_data)) is None,
        },
{
    match key_behavior_data.get("scriptName") {
        Option::Some(v) => match v.as_str() {
            Option::Some(s) => {
                if s.unicode_len() > 0 {
                    Option::Some(s.to_owned())
                } else {
                    Option::None
                }
            },
            Option::None => Option::None,
        },
        Option::None => Option::None,
    }
}

/// Whether the `isEntityScript` flag of a behavior is set.
pub open spec fn is_entity_script_of(v: JsonV) -> bool {
    match jget(v, "isEntityScript"@) {
        Option::Some(JsonV::Bool(b)) => b,
        _ => false,
    }
}

fn get_is_entity_script(v: &JsonValue) -> (r: bool)
    ensures
        r == is_entity_script_of(jval(*v)),
{
    match v.get("isEntityScript") {
        Option::Some(b) => match b.as_bool() {
            Option::Some(x) => x,
            Option::None => false,
        },
        Option::None => false,
    }
}

/// The binding one table entry yields.
pub open spec fn kb_from_entry(key: Seq<char>, v: JsonV) -> KeybindingV {
    let down = match jget(v, "keyDown"@) {
        Option::Some(d) => d,
        Option::None => JsonV::Null,
    };
    let up = match jget(v, "keyUp"@) {
        Option::Some(d) => d,
        Option::None => JsonV::Null,
    };
    KeybindingV {
        key,
        key_down_script_key: script_key_of_behavior(down),
        is_key_down_script_entity_script: is_entity_script_of(down),
        key_up_script_key: script_key_of_behavior(up),
        is_key_up_script_entity_script: is_entity_script_of(up),
    }
}

/// Whether a key is one of the wheel bindings the generator ignores.
pub open spec fn is_ignored_key(key: Seq<char>) -> bool {
    key == "lookWheel"@ || key == "movementWheel"@
}

/// The bindings of an abilities table, the wheel keys left out.
pub open spec fn kbs_from_data(v: JsonV) -> Seq<KeybindingV>
    decreases v,
{
    match v {
        JsonV::Obj(entries) => kbs_from_entries(entries),
        _ => Seq::<KeybindingV>::empty(),
    }
}

pub open spec fn kbs_from_entries(entries: Seq<(Seq<char>, JsonV)>) -> Seq<KeybindingV>
    decreases entries.len(),
{
    if entries.len() == 0 {
        Seq::<KeybindingV>::empty()
    } else {
        let head = if is_ignored_key(entries[0].0) {
            Seq::<KeybindingV>::empty()
        } else {
            seq![kb_from_entry(entries[0].0, entries[0].1)]
        };
        head + kbs_from_entries(entries.skip(1))
    }
}

impl Keybinding {
    /// Parses a unit type's abilities table into its key bindings.
    pub fn parse_keybindings_data(keybindings_data: &JsonValue) -> (r: Vec<Keybinding>)
        ensures
            kbs_model(r@) == kbs_from_data(jval(*keybindings_data)),
    {
        let mut out: Vec<Keybinding> = Vec::new();
        match keybindings_data.as_object() {
            Option::Some(entries) => {
                let ghost ev = jentries(entries@);
                let mut i: usize = 0;
                proof {
                    lemma_jentries_len(entries@);
                    assert(ev.skip(0) =~= ev);
                    assert(kbs_model(out@) + kbs_from_entries(ev) =~= kbs_from_entries(ev));
                }
                while i < entries.len()
                    invariant
                        0 <= i <= entries@.len(),
                        ev == jentries(entries@),
                        ev.len() == entries@.len(),
                        kbs_model(out@) + kbs_from_entries(ev.skip(i as int)) == kbs_from_entries(
                            ev,
                        ),
                    decreases entries@.len() - i,
                {
                    let ghost rest = ev.skip(i as int);
                    proof {
                        lemma_jentries_index(entries@, i as int);
                        assert(rest[0] == ev[i as int]);
                        assert(rest.skip(1) =~= ev.skip(i + 1));
                    }
                    let pair = &entries[i];
                    let key = pair.0.as_str();
                    let ghost before = kbs_model(out@);
                    if str_eq(key, "lookWheel") || str_eq(key, "movementWheel") {
                        proof {
                            assert(is_ignored_key(ev[i as int].0));
                            assert(kbs_from_entries(rest) == kbs_from_entries(ev.skip(i + 1)));
                        }
                    } else {
                        let down: JsonValue = match pair.1.get("keyDown") {
                            Option::Some(d) => d.clone(),
                            Option::None => JsonValue::Null,
                        };
                        let up: JsonValue = match pair.1.get("keyUp") {
                            Option::Some(d) => d.clone(),
                            Option::None => JsonValue::Null,
                        };
                        let kb = Keybinding {
                            key: key.to_owned(),
                            key_down_script_key: get_script_key_of_key_behavior_data(&down),
                            is_key_down_script_entity_script: get_is_entity_script(&down),
                            key_up_script_key: get_script_key_of_key_behavior_data(&up),
                            is_key_up_script_entity_script: get_is_entity_script(&up),
                        };
                        proof {
                            assert(kb_model(kb) == kb_from_entry(ev[i as int].0, ev[i as int].1));
                            assert(kbs_from_entries(rest) == seq![
                                kb_from_entry(ev[i as int].0, ev[i as int].1),
                            ] + kbs_from_entries(ev.skip(i + 1)));
                        }
                        out.push(kb);
                        proof {
                            assert(kbs_model(out@) =~= before.push(
                                kb_from_entry(ev[i as int].0, ev[i as int].1),
                            ));
                            assert(kbs_model(out@) + kbs_from_entries(ev.skip(i + 1)) =~= before
                                + kbs_from_entries(rest));
                        }
                    }
                    i = i + 1;
                }
                proof {
                    assert(ev.skip(ev.len() as int).len() == 0);
                    assert(kbs_model(out@) + Seq::<KeybindingV>::empty() =~= kbs_model(out@));
                }
            },
            Option::None => {
                proof {
                    assert(kbs_model(out@) =~= Seq::<KeybindingV>::empty());
                }
            },
        }
        out
    }
}

// ---------------------------------------------------------------------------
// entity types
// ---------------------------------------------------------------------------

/// One entity type: its display name, its own script tree, and its key
/// bindings.
pub struct EntityType {
    pub name: String,
    pub directory: Directory,
    pub keybindings: Vec<Keybinding>,
}

pub struct EntityTypeV {
    pub name: Seq<char>,
    pub directory: DirectoryV,
    pub keybindings: Seq<KeybindingV>,
}

pub open spec fn et_model(e: EntityType) -> EntityTypeV {
    EntityTypeV {
        name: e.name@,
        directory: dir_model(e.directory),
        keybindings: kbs_model(e.keybindings@),
    }
}

pub open spec fn ets_model(items: Seq<EntityType>) -> Seq<EntityTypeV> {
    items.map_values(|e: EntityType| et_model(e))
}

/// The pymodd class name of an entity type: its name without apostrophes,
/// in UpperCamelCase, prefixed with `q` when not a valid class name.
pub open spec fn et_class_name_spec(name: Seq<char>) -> Seq<char> {
    let cleaned = upper_camel_of(replace_spec(name, "'"@, Seq::<char>::empty()));
    if !is_valid_class_name_spec(cleaned) {
        seq!['q'] + cleaned
    } else {
        cleaned
    }
}

impl EntityType {
    pub fn pymodd_class_name(&self) -> (r: String)
        ensures
            r@ == et_class_name_spec(self.name@),
    {
        proof {
            reveal_strlit("'");
            reveal_strlit("");
            reveal_strlit("q");
        }
        let cleaned = str_replace(self.name.as_str(), "'", "");
        proof {
            assert(("")@ =~= Seq::<char>::empty());
        }
        let class_name = to_upper_camel_case(cleaned.as_str());
        if !is_valid_class_name(class_name.as_str()) {
            let mut out = String::new();
            out.append("q");
            out.append(class_name.as_str());
            proof {
                assert(("q")@ =~= seq!['q']);
            }
            out
        } else {
            class_name
        }
    }

    pub fn enum_name(&self) -> (r: String)
        ensures
            r@ == enum_name_spec(self.name@),
    {
        enum_name_of(self.name.as_str())
    }
}

/// The entity type one table entry yields.
pub open spec fn et_from_entry(m: MapsV, v: JsonV) -> EntityTypeV {
    let name = match jget(v, "name"@) {
        Option::Some(JsonV::Str(s)) => s,
        _ => "Undefined"@,
    };
    let scripts = match jget(v, "scripts"@) {
        Option::Some(s) => s,
        Option::None => JsonV::Arr(Seq::<JsonV>::empty()),
    };
    let abilities = match jget(v, "controls"@) {
        Option::Some(c) => match jget(c, "abilities"@) {
            Option::Some(a) => a,
            Option::None => JsonV::Null,
        },
        Option::None => JsonV::Null,
    };
    EntityTypeV {
        name,
        directory: Directory::parse_spec(m, scripts),
        keybindings: kbs_from_data(abilities),
    }
}

/// The entity types of one raw category table, in entry order.
pub open spec fn ets_from_category_spec(m: MapsV, v: JsonV) -> Seq<EntityTypeV> {
    match v {
        JsonV::Obj(entries) => entries.map_values(|e: (Seq<char>, JsonV)| et_from_entry(m, e.1)),
        _ => Seq::<EntityTypeV>::empty(),
    }
}

/// Every script table inside the category is small enough to assemble.
pub open spec fn ets_bounded(v: JsonV) -> bool {
    match v {
        JsonV::Obj(entries) => forall|k: int|
            0 <= k < entries.len() ==> obj_values(
                match jget(#[trigger] entries[k].1, "scripts"@) {
                    Option::Some(s) => s,
                    Option::None => JsonV::Arr(Seq::<JsonV>::empty()),
                },
            ).len() < 0x0fff_ffff_ffff_ffff,
        _ => true,
    }
}

pub fn entity_types_from_category_data(maps: &PymoddMaps, category_data: &JsonValue) -> (r: Vec<
    EntityType,
>)
    requires
        ets_bounded(jval(*category_data)),
    ensures
        ets_model(r@) == ets_from_category_spec(maps_model(*maps), jval(*category_data)),
{
    let mut out: Vec<EntityType> = Vec::new();
    match category_data.as_object() {
        Option::Some(entries) => {
            let mut i: usize = 0;
            proof {
                lemma_jentries_len(entries@);
            }
            while i < entries.len()
                invariant
                    0 <= i <= entries@.len(),
                    jval(*category_data) == JsonV::Obj(jentries(entries@)),
                    ets_bounded(jval(*category_data)),
                    jentries(entries@).len() == entries@.len(),
                    out@.len() == i,
                    forall|k: int|
                        0 <= k < i ==> et_model(#[trigger] out@[k]) == et_from_entry(
                            maps_model(*maps),
                            jentries(entries@)[k].1,
                        ),
                decreases entries@.len() - i,
            {
                proof {
                    lemma_jentries_index(entries@, i as int);
                }
                let pair = &entries[i];
                let name: String = match pair.1.get("name") {
                    Option::Some(n) => match n.as_str() {
                        Option::Some(s) => s.to_owned(),
                        Option::None => "Undefined".to_owned(),
                    },
                    Option::None => "Undefined".to_owned(),
                };
                let scripts: JsonValue = match pair.1.get("scripts") {
                    Option::Some(s) => s.clone(),
                    Option::None => JsonValue::Arr(Vec::new()),
                };
                proof {
                    if jget(jval(pair.1), "scripts"@) is None {
                        assert(crate::document::jvals(Seq::<JsonValue>::empty())
                            =~= Seq::<JsonV>::empty());
                    }
                }
                let abilities: JsonValue = match pair.1.get("controls") {
                    Option::Some(c) => match c.get("abilities") {
                        Option::Some(a) => a.clone(),
                        Option::None => JsonValue::Null,
                    },
                    Option::None => JsonValue::Null,
                };
                proof {
                    let ghost ev = jentries(entries@)[i as int].1;
                    let ghost sv = match jget(ev, "scripts"@) {
                        Option::Some(s) => s,
                        Option::None => JsonV::Arr(Seq::<JsonV>::empty()),
                    };
                    assert(obj_values(sv).len() < 0x0fff_ffff_ffff_ffff);
                    assert(jval(scripts) == sv);
                }
                let directory = Directory::parse(maps, &scripts);
                let keybindings = Keybinding::parse_keybindings_data(&abilities);
                out.push(EntityType { name, directory, keybindings });
                i = i + 1;
            }
        },
        Option::None => {},
    }
    proof {
        assert forall|k: int| 0 <= k < out@.len() implies #[trigger] ets_model(out@)[k]
            == ets_from_category_spec(maps_model(*maps), jval(*category_data))[k] by {}
        assert(ets_model(out@) =~= ets_from_category_spec(maps_model(*maps), jval(*category_data)));
    }
    out
}

/// The unit, item and projectile tables, in the order the generated files
/// list them.
pub struct CategoriesToEntityTypes {
    pub categories_to_entity_types: Vec<(String, Vec<EntityType>)>,
}

pub open spec fn et_cats_model(v: Seq<(String, Vec<EntityType>)>) -> Seq<
    (Seq<char>, Seq<EntityTypeV>),
> {
    v.map_values(|p: (String, Vec<EntityType>)| (p.0@, ets_model(p.1@)))
}

/// The entity categories in their iteration order.
pub open spec fn et_iteration_order() -> Seq<Seq<char>> {
    seq!["unitTypes"@, "itemTypes"@, "projectileTypes"@]
}

pub open spec fn et_category_spec(m: MapsV, dv: JsonV, c: Seq<char>) -> Seq<EntityTypeV> {
    match jget(dv, c) {
        Option::Some(x) => ets_from_category_spec(m, x),
        Option::None => Seq::<EntityTypeV>::empty(),
    }
}

pub open spec fn et_categories_parse_spec(m: MapsV, dv: JsonV) -> Seq<
    (Seq<char>, Seq<EntityTypeV>),
> {
    et_iteration_order().map_values(|c: Seq<char>| (c, et_category_spec(m, dv, c)))
}

/// Every entity category's script tables are bounded.
pub open spec fn et_tables_bounded(dv: JsonV) -> bool {
    forall|c: Seq<char>|
        #[trigger] et_iteration_order().contains(c) ==> (match jget(dv, c) {
            Option::Some(x) => ets_bounded(x),
            Option::None => true,
        })
}

impl CategoriesToEntityTypes {
    /// Parses the three entity-type tables of the document's data object.
    pub fn parse(maps: &PymoddMaps, game_data: &JsonValue) -> (r: CategoriesToEntityTypes)
        requires
            et_tables_bounded(jval(*game_data)),
        ensures
            et_cats_model(r.categories_to_entity_types@) == et_categories_parse_spec(
                maps_model(*maps),
                jval(*game_data),
            ),
    {
        let names: Vec<&str> = vec!["unitTypes", "itemTypes", "projectileTypes"];
        proof {
            assert(names@.map_values(|x: &str| x@) =~= et_iteration_order());
        }
        let mut out: Vec<(String, Vec<EntityType>)> = Vec::new();
        let mut i: usize = 0;
        while i < names.len()
            invariant
                0 <= i <= names@.len(),
                names@.map_values(|x: &str| x@) == et_iteration_order(),
                names@.len() == 3,
                et_tables_bounded(jval(*game_data)),
                out@.len() == i,
                forall|k: int|
                    0 <= k < i ==> #[trigger] et_cats_model(out@)[k] == et_categories_parse_spec(
                        maps_model(*maps),
                        jval(*game_data),
                    )[k],
            decreases names@.len() - i,
        {
            let name = names[i];
            proof {
                assert(et_iteration_order()[i as int] == name@);
                assert(et_iteration_order().contains(name@));
            }
            let list: Vec<EntityType> = match game_data.get(name) {
                Option::Some(table) => entity_types_from_category_data(maps, table),
                Option::None => Vec::new(),
            };
            let ghost prev = et_cats_model(out@);
            proof {
                if ets_model(list@).len() == 0 {
                    assert(ets_model(list@) =~= Seq::<EntityTypeV>::empty());
                }
            }
            out.push((name.to_owned(), list));
            proof {
                assert(et_cats_model(out@) =~= prev.push(
                    (
                        name@,
                        et_category_spec(maps_model(*maps), jval(*game_data), name@),
                    ),
                ));
            }
            i = i + 1;
        }
        proof {
            assert(et_cats_model(out@) =~= et_categories_parse_spec(
                maps_model(*maps),
                jval(*game_data),
            ));
        }
        CategoriesToEntityTypes { categories_to_entity_types: out }
    }

    /// The categories in iteration order, with their entity types.
    pub fn iter<'a>(&'a self) -> (r: &'a Vec<(String, Vec<EntityType>)>)
        ensures
            et_cats_model(r@) == et_cats_model(self.categories_to_entity_types@),
    {
        &self.categories_to_entity_types
    }
}

} // verus!
