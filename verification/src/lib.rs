pub mod actions;
pub mod argument;
pub mod argument_values_iterator;
pub mod casing;
pub mod directory;
pub mod directory_iterator;
pub mod document;
pub mod entity_scripts_file;
pub mod entity_types;
pub mod game_data;
pub mod game_json_file;
pub mod text;
pub mod game_variables_file;
pub mod laws;
pub mod mapping_file;
pub mod pyproject_toml_file;
pub mod scripts_file;
pub mod to_pymodd;
pub mod to_pymodd_maps;
pub mod project_generator;
pub mod utils;
pub mod validator;
pub mod variable_categories;

use vstd::prelude::*;

verus! {

} // verus!
