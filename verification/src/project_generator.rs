//! The project generator: assembles every generated file of one project as
//! path/content pairs; the surrounding application writes them to disk.

use vstd::prelude::*;

use crate::casing::snake_case_of;
use crate::document::json_text;
use crate::entity_scripts_file::{entity_file_spec, EntityScriptsFile};
use crate::game_data::{gd_model, GameData, GameDataV};
use crate::game_json_file::GameJsonFile;
use crate::game_variables_file::{game_variables_file_spec, GameVariablesFile};
use crate::mapping_file::{mapping_file_spec, MappingFile};
use crate::pyproject_toml_file::{pyproject_toml_spec, PyprojectTomlFile};
use crate::scripts_file::{scripts_file_spec, ScriptsFile};
use crate::to_pymodd_maps::{maps_model, MapsV, PymoddMaps};

verus! {

/// One generated file: where it goes and what it holds.
pub struct File {
    pub path: String,
    pub content: String,
}

pub struct ProjectGenerator {}

/// A file's path inside the project directory.
pub open spec fn project_path(g: GameDataV, name: Seq<char>) -> Seq<char> {
    snake_case_of(g.name) + "/"@ + name
}

/// The six generated files of a project, in generation order.
pub open spec fn project_files_spec(m: MapsV, g: GameDataV) -> Seq<(Seq<char>, Seq<char>)> {
    seq![
        (project_path(g, "game_variables.py"@), game_variables_file_spec(m, g)),
        (project_path(g, "mapping.py"@), mapping_file_spec(g)),
        (project_path(g, "scripts.py"@), scripts_file_spec(m, g)),
        (project_path(g, "entity_scripts.py"@), entity_file_spec(m, g)),
        (project_path(g, "utils/game.json"@), json_text(g.json)),
        (project_path(g, "pyproject.toml"@), pyproject_toml_spec()),
    ]
}

pub open spec fn files_model(v: Seq<File>) -> Seq<(Seq<char>, Seq<char>)> {
    v.map_values(|f: File| (f.path@, f.content@))
}

impl ProjectGenerator {
    /// Builds every file of the project. The caller persists them and
    /// reports each write.
    pub fn generate(maps: &PymoddMaps, game_data: &GameData) -> (r: Vec<File>)
        ensures
            files_model(r@) == project_files_spec(
                maps_model(*maps),
                gd_model(*game_data),
            ),
    {
        proof {
            reveal_strlit("/");
            reveal_strlit("game_variables.py");
            reveal_strlit("mapping.py");
            reveal_strlit("scripts.py");
            reveal_strlit("entity_scripts.py");
            reveal_strlit("utils/game.json");
            reveal_strlit("pyproject.toml");
        }
        let dir = game_data.pymodd_project_name();
        let mut out: Vec<File> = Vec::new();
        let p1 = Self::path_in(&dir, "game_variables.py");
        out.push(File { path: p1, content: GameVariablesFile::build_content(maps, game_data) });
        let p2 = Self::path_in(&dir, "mapping.py");
        out.push(File { path: p2, content: MappingFile::build_content(game_data) });
        let p3 = Self::path_in(&dir, "scripts.py");
        out.push(File { path: p3, content: ScriptsFile::build_content(maps, game_data) });
        let p4 = Self::path_in(&dir, "entity_scripts.py");
        out.push(File { path: p4, content: EntityScriptsFile::build_content(maps, game_data) });
        let p5 = Self::path_in(&dir, "utils/game.json");
        out.push(File { path: p5, content: GameJsonFile::build_content(game_data) });
        let p6 = Self::path_in(&dir, "pyproject.toml");
        out.push(File { path: p6, content: PyprojectTomlFile::build_content() });
        proof {
            assert(files_model(out@) =~= project_files_spec(
                maps_model(*maps),
                gd_model(*game_data),
            ));
        }
        out
    }

    fn path_in(dir: &String, name: &str) -> (r: String)
        ensures
            r@ == dir@ + "/"@ + name@,
    {
        proof {
            reveal_strlit("/");
        }
        let mut out = dir.clone();
        out.append("/");
        out.append(name);
        proof {
            assert(("/")@ =~= "/"@);
        }
        out
    }
}

} // verus!
