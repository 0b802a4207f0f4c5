//! The parsed game model: the title, the raw document kept for
//! round-tripping, the variable tables, the script tree, and the entity
//! types.

use vstd::prelude::*;

use crate::casing::{snake_case_of, to_snake_case};
use crate::directory::{dir_model, obj_values, Directory, DirectoryV};
use crate::document::{jget, json_text, jval, JsonV, JsonValue};
use crate::entity_types::{
    et_cats_model, et_categories_parse_spec, et_tables_bounded, CategoriesToEntityTypes,
    EntityTypeV,
};
use crate::to_pymodd_maps::{maps_model, MapsV, PymoddMaps};
use crate::variable_categories::{
    categories_parse_spec, cats_model, tables_bounded, CategoriesToVariables, VariableV,
};

verus! {

/// The whole parsed game.
pub struct GameData {
    pub name: String,
    pub json: JsonValue,
    pub categories_to_variables: CategoriesToVariables,
    pub root_directory: Directory,
    pub categories_to_entity_types: CategoriesToEntityTypes,
}

pub struct GameDataV {
    pub name: Seq<char>,
    pub json: JsonV,
    pub categories_to_variables: Seq<(Seq<char>, Seq<VariableV>)>,
    pub root_directory: DirectoryV,
    pub categories_to_entity_types: Seq<(Seq<char>, Seq<EntityTypeV>)>,
}

pub open spec fn gd_model(g: GameData) -> GameDataV {
    GameDataV {
        name: g.name@,
        json: jval(g.json),
        categories_to_variables: cats_model(
            g.categories_to_variables.categories_to_variables@,
        ),
        root_directory: dir_model(g.root_directory),
        categories_to_entity_types: et_cats_model(
            g.categories_to_entity_types.categories_to_entity_types@,
        ),
    }
}

/// The document's data object, null when absent.
pub open spec fn data_of(doc: JsonV) -> JsonV {
    match jget(doc, "data"@) {
        Option::Some(d) => d,
        Option::None => JsonV::Null,
    }
}

/// Every table of the document is small enough to parse.
pub open spec fn game_bounded(doc: JsonV) -> bool {
    let data = data_of(doc);
    tables_bounded(data) && et_tables_bounded(data) && (match jget(data, "scripts"@) {
        Option::Some(s) => obj_values(s).len() < 0x0fff_ffff_ffff_ffff,
        Option::None => true,
    })
}

/// The model a successful parse yields.
pub open spec fn game_parse_ok(m: MapsV, doc: JsonV) -> GameDataV {
    let data = data_of(doc);
    GameDataV {
        name: json_text(match jget(doc, "title"@) {
            Option::Some(t) => t,
            Option::None => JsonV::Null,
        }),
        json: doc,
        categories_to_variables: categories_parse_spec(data),
        root_directory: Directory::parse_spec(m, match jget(data, "scripts"@) {
            Option::Some(s) => s,
            Option::None => JsonV::Null,
        }),
        categories_to_entity_types: et_categories_parse_spec(m, data),
    }
}

impl GameData {
    /// Parses the raw document: fails fast when the title or the script
    /// table is absent, and otherwise builds the whole game model.
    pub fn parse(maps: &PymoddMaps, game_json: &JsonValue) -> (r: Result<GameData, String>)
        requires
            game_bounded(jval(*game_json)),
        ensures
            jget(jval(*game_json), "title"@) is None ==> r is Err && r->Err_0@
                == "invalid modd.io json file! missing key: title"@,
            jget(jval(*game_json), "title"@) is Some && jget(
                data_of(jval(*game_json)),
                "scripts"@,
            ) is None ==> r is Err && r->Err_0@
                == "invalid modd.io json file! missing key: scripts"@,
            jget(jval(*game_json), "title"@) is Some && jget(
                data_of(jval(*game_json)),
                "scripts"@,
            ) is Some ==> r is Ok && gd_model(r->Ok_0) == game_parse_ok(
                maps_model(*maps),
                jval(*game_json),
            ),
    {
        let title = match game_json.get("title") {
            Option::Some(t) => t.clone(),
            Option::None => {
                return Result::Err("invalid modd.io json file! missing key: title".to_owned());
            },
        };
        let data: JsonValue = match game_json.get("data") {
            Option::Some(d) => d.clone(),
            Option::None => JsonValue::Null,
        };
        let scripts: JsonValue = match data.get("scripts") {
            Option::Some(s) => s.clone(),
            Option::None => {
                return Result::Err("invalid modd.io json file! missing key: scripts".to_owned());
            },
        };
        let name = title.to_json_text();
        let categories_to_variables = CategoriesToVariables::parse(&data);
        let root_directory = Directory::parse(maps, &scripts);
        let categories_to_entity_types = CategoriesToEntityTypes::parse(maps, &data);
        let json = game_json.clone();
        Result::Ok(
            GameData { name, json, categories_to_variables, root_directory,
                categories_to_entity_types },
        )
    }

    /// The name of the game's generated project directory.
    pub fn pymodd_project_name(&self) -> (r: String)
        ensures
            r@ == snake_case_of(self.name@),
    {
        to_snake_case(self.name.as_str())
    }
}

} // verus!
