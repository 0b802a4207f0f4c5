use pymodd::directory::Directory;
use pymodd::entity_scripts_file::build_class_content_of_entity_type_in_category;
use pymodd::entity_types::{EntityType, Keybinding};
use pymodd::document::{JsonNumber, JsonValue};
use pymodd::game_variables_file::build_category_class_content;
use pymodd::mapping_file::build_directory_items_contents;
use pymodd::scripts_file::ScriptsContentBuilder;
use pymodd::to_pymodd_maps::PymoddMaps;
use pymodd::variable_categories::{
    variables_from_category_data, CategoriesToVariables, Variable,
};

fn s(v: &str) -> JsonValue {
    JsonValue::Str(v.to_string())
}

fn n(v: i64) -> JsonValue {
    JsonValue::Number(JsonNumber::Int(v))
}

fn arr(items: Vec<JsonValue>) -> JsonValue {
    JsonValue::Arr(items)
}

fn obj(entries: Vec<(&str, JsonValue)>) -> JsonValue {
    let mut v: Vec<(String, JsonValue)> = entries
        .into_iter()
        .map(|(k, val)| (k.to_string(), val))
        .collect();
    v.sort_by(|a, b| a.0.cmp(&b.0));
    JsonValue::Obj(v)
}

fn entries_of(v: JsonValue) -> Vec<(String, JsonValue)> {
    match v {
        JsonValue::Obj(entries) => entries,
        _ => panic!("expected an object"),
    }
}

fn maps() -> PymoddMaps {
    PymoddMaps {
        triggers: vec![],
        ui_targets: vec![],
        flips: vec![],
        keys: vec![],
        data_types: vec![
            ("number".to_string(), "DataType.NUMBER".to_string()),
            ("itemTypeGroup".to_string(), "DataType.ITEM_TYPE_GROUP".to_string()),
            ("region".to_string(), "DataType.REGION".to_string()),
        ],
        actions: vec![],
        functions: vec![],
    }
}

#[test]
fn variable_categories_parse_variables_from_category_data() {
    let vars = variables_from_category_data(&obj(vec![
        ("FW3513W", obj(vec![("name", s("apple")), ("dataType", JsonValue::Null)])),
        ("O23FJW2", obj(vec![("name", s("banana")), ("dataType", s(""))])),
        ("WDWI313", obj(vec![("name", s("water")), ("dataType", s("region"))])),
    ]));
    assert_eq!(vars.len(), 3);
    assert_eq!(vars[0].id, "FW3513W");
    assert_eq!(vars[0].name, "apple");
    assert_eq!(vars[0].data_type(), None);
    assert_eq!(vars[1].id, "O23FJW2");
    assert_eq!(vars[1].data_type(), None);
    assert_eq!(vars[2].id, "WDWI313");
    assert_eq!(vars[2].data_type(), Some("region".to_string()));
}

#[test]
fn variables_parse_variables_from_category_data() {
    let vars = variables_from_category_data(&obj(vec![
        ("FW3513W", obj(vec![("name", s("apple")), ("dataType", JsonValue::Null)])),
        ("O23FJW2", obj(vec![("name", s("banana")), ("dataType", s(""))])),
        ("WDWI313", obj(vec![("name", s("water")), ("dataType", s("region"))])),
    ]));
    let enum_names: Vec<String> = vars.iter().map(|v| v.enum_name()).collect();
    assert_eq!(
        enum_names,
        vec!["APPLE".to_string(), "BANANA".to_string(), "WATER".to_string()]
    );
}

#[test]
fn variables_ensure_no_duplicated_enum_names() {
    // duplicate display names get numbered suffixes, in encounter order
    let deduped = pymodd::variable_categories::resolve_duplicate_variable_enum_names(vec![
        Variable::new("FW3513W", "apple", vec![]),
        Variable::new("O23FJW2", "apple", vec![]),
        Variable::new("WDWI313", "apple", vec![]),
    ]);
    let enum_names: Vec<String> = deduped.iter().map(|v| v.enum_name()).collect();
    assert_eq!(
        enum_names,
        vec!["APPLE".to_string(), "APPLE_1".to_string(), "APPLE_2".to_string()]
    );
}

#[test]
fn seperate_variables_category_into_multiple() {
    // an umbrella variable typed as a region lands under the regions
    // pseudo-category and leaves the umbrella list
    let data = obj(vec![(
        "variables",
        obj(vec![
            ("FW3513W", obj(vec![("name", s("apple")), ("dataType", s("itemTypeGroup"))])),
            ("O23FJW2", obj(vec![("name", s("banana")), ("dataType", s("unitTypeGroup"))])),
            ("WDWI313", obj(vec![("name", s("water")), ("dataType", s("region"))])),
        ]),
    )]);
    let cats = CategoriesToVariables::parse(&data);
    let find = |name: &str| -> Vec<String> {
        cats.categories_to_variables
            .iter()
            .find(|(c, _)| c == name)
            .map(|(_, vars)| vars.iter().map(|v| v.id.clone()).collect())
            .unwrap()
    };
    assert_eq!(find("itemTypeGroups"), vec!["FW3513W".to_string()]);
    assert_eq!(find("unitTypeGroups"), vec!["O23FJW2".to_string()]);
    assert_eq!(find("regions"), vec!["WDWI313".to_string()]);
    assert_eq!(find("variables"), Vec::<String>::new());
}

#[test]
fn find_variable_with_key() {
    let cats = CategoriesToVariables::new(vec![
        (
            "unitTypeGroups".to_string(),
            vec![Variable::new(
                "O23FJW2",
                "banana",
                entries_of(obj(vec![("dataType", s("unitTypeGroup"))])),
            )],
        ),
        (
            "regions".to_string(),
            vec![Variable::new(
                "WDWI313",
                "water",
                entries_of(obj(vec![("dataType", s("region"))])),
            )],
        ),
        ("variables".to_string(), vec![]),
    ]);
    let found = cats.find_categoried_variable_with_id("WDWI313").unwrap();
    assert_eq!(found.0, "regions");
    assert_eq!(found.1.id, "WDWI313");
    assert_eq!(found.1.name, "water");
}

#[test]
fn category_class_content_with_variables() {
    let m = maps();
    let vars = CategoriesToVariables::new(vec![]);
    let root = Directory { children: vec![], name: "root".to_string(), key: "null".to_string() };
    let builder = ScriptsContentBuilder::new(&vars, &root, &m);
    let content = build_category_class_content(
        &builder,
        "itemTypes",
        &vec![
            Variable::new("FW3513W", "apple", vec![]),
            Variable::new("OE51DW2", "banana", vec![]),
        ],
    );
    assert_eq!(
        content,
        "class ItemType:\
            \n\tAPPLE = ItemTypeBase('FW3513W', name='apple')\
            \n\tBANANA = ItemTypeBase('OE51DW2', name='banana')"
    );
}

#[test]
fn category_class_content_with_variables_starting_with_numbers() {
    let m = maps();
    let vars = CategoriesToVariables::new(vec![]);
    let root = Directory { children: vec![], name: "root".to_string(), key: "null".to_string() };
    let builder = ScriptsContentBuilder::new(&vars, &root, &m);
    let content = build_category_class_content(
        &builder,
        "itemTypes",
        &vec![
            Variable::new("FW3513W", "1apple", vec![]),
            Variable::new("OE51DW2", "2banana", vec![]),
        ],
    );
    assert_eq!(
        content,
        "class ItemType:\
            \n\t_1APPLE = ItemTypeBase('FW3513W', name='1apple')\
            \n\t_2BANANA = ItemTypeBase('OE51DW2', name='2banana')"
    );
}

#[test]
fn category_class_content_with_no_variables() {
    let m = maps();
    let vars = CategoriesToVariables::new(vec![]);
    let root = Directory { children: vec![], name: "root".to_string(), key: "null".to_string() };
    let builder = ScriptsContentBuilder::new(&vars, &root, &m);
    let content = build_category_class_content(&builder, "itemTypes", &vec![]);
    assert_eq!(content, "class ItemType:\n\tpass");
}

#[test]
fn variable_type_category_class_content_with_variables() {
    let m = maps();
    let vars = CategoriesToVariables::new(vec![(
        "itemTypes".to_string(),
        vec![
            Variable::new("FW3513W", "sword", vec![]),
            Variable::new("Ue25P1i", "stick", vec![]),
            Variable::new("YfO9w81", "sand", vec![]),
        ],
    )]);
    let root = Directory { children: vec![], name: "root".to_string(), key: "null".to_string() };
    let builder = ScriptsContentBuilder::new(&vars, &root, &m);
    let content = build_category_class_content(
        &builder,
        "variables",
        &vec![
            Variable::new(
                "apple",
                "apple",
                entries_of(obj(vec![("dataType", s("number")), ("default", n(5))])),
            ),
            Variable::new(
                "banana",
                "banana",
                entries_of(obj(vec![
                    ("dataType", s("itemTypeGroup")),
                    (
                        "default",
                        obj(vec![
                            ("FW3513W", obj(vec![("probability", n(20)), ("quantity", n(1))])),
                            ("Ue25P1i", obj(vec![("probability", n(20)), ("quantity", n(1))])),
                            ("YfO9w81", obj(vec![("probability", n(20)), ("quantity", n(1))])),
                        ]),
                    ),
                ])),
            ),
            Variable::new(
                "peach",
                "peach",
                entries_of(obj(vec![
                    ("dataType", s("region")),
                    (
                        "default",
                        obj(vec![
                            ("alpha", n(100)),
                            ("height", n(204)),
                            ("inside", s("#000000")),
                            ("outside", s("")),
                            ("videoChatEnabled", JsonValue::Bool(false)),
                            ("width", n(389)),
                            ("x", n(837)),
                            ("y", n(781)),
                        ]),
                    ),
                ])),
            ),
        ],
    );
    assert_eq!(
        content,
        "class Variable:\n\
            \tAPPLE = VariableBase('apple', DataType.NUMBER, default_value=5)\n\
            \tBANANA = VariableBase('banana', DataType.ITEM_TYPE_GROUP, default_value=[ItemType.SWORD, ItemType.STICK, ItemType.SAND])\n\
            \tPEACH = VariableBase('peach', DataType.REGION)"
    );
}

#[test]
fn entity_variable_category_class_content() {
    let m = maps();
    let vars = CategoriesToVariables::new(vec![]);
    let root = Directory { children: vec![], name: "root".to_string(), key: "null".to_string() };
    let builder = ScriptsContentBuilder::new(&vars, &root, &m);
    let content = build_category_class_content(
        &builder,
        "entityTypeVariables",
        &vec![Variable::new(
            "apple",
            "apple",
            entries_of(obj(vec![("dataType", s("number")), ("default", n(5))])),
        )],
    );
    assert_eq!(content, "class EntityVariable:\n\tAPPLE = EntityVariableBase('apple', DataType.NUMBER)");
}

#[test]
fn player_variable_category_class_content() {
    let m = maps();
    let vars = CategoriesToVariables::new(vec![]);
    let root = Directory { children: vec![], name: "root".to_string(), key: "null".to_string() };
    let builder = ScriptsContentBuilder::new(&vars, &root, &m);
    let content = build_category_class_content(
        &builder,
        "playerTypeVariables",
        &vec![Variable::new(
            "apple",
            "apple",
            entries_of(obj(vec![("dataType", s("number")), ("default", n(5))])),
        )],
    );
    assert_eq!(content, "class PlayerVariable:\n\tAPPLE = PlayerVariableBase('apple', DataType.NUMBER)");
}

#[test]
fn directory_content() {
    let m = maps();
    let root = pymodd::directory::Directory::parse(
        &m,
        &obj(vec![
            (
                "WI31HDK",
                obj(vec![
                    ("name", s("initialize")),
                    ("key", s("WI31HDK")),
                    ("actions", arr(vec![])),
                    ("parent", JsonValue::Null),
                    ("order", n(1)),
                ]),
            ),
            (
                "31IAD2B",
                obj(vec![
                    ("folderName", s("utils")),
                    ("key", s("31IAD2B")),
                    ("parent", JsonValue::Null),
                    ("order", n(2)),
                ]),
            ),
            (
                "SDUW31W",
                obj(vec![
                    ("name", s("change_state")),
                    ("key", s("SDUW31W")),
                    ("actions", arr(vec![])),
                    ("parent", s("31IAD2B")),
                    ("order", n(1)),
                ]),
            ),
            (
                "Q31E2RS",
                obj(vec![
                    ("name", s("check_players")),
                    ("key", JsonValue::Null),
                    ("actions", arr(vec![])),
                    ("parent", s("31IAD2B")),
                    ("order", n(2)),
                ]),
            ),
            (
                "HWI31WQ",
                obj(vec![
                    ("folderName", s("other")),
                    ("key", s("HWI31WQ")),
                    ("parent", s("31IAD2B")),
                    ("order", n(3)),
                ]),
            ),
            (
                "JK32Q03",
                obj(vec![
                    ("name", s("destroy_server")),
                    ("key", s("JK32Q03")),
                    ("actions", arr(vec![])),
                    ("parent", s("HWI31WQ")),
                    ("order", n(1)),
                ]),
            ),
        ]),
    );
    let joined: String = build_directory_items_contents(&root).join("");
    assert_eq!(
        joined,
        "initialize(),\
        Folder('utils', [\
            \tchange_state(),\
            \tcheck_players(),\
            \tFolder('other', [\
                \t\tdestroy_server(),\
            \t]),\
        ]),"
    );
}

#[test]
fn simple_entity_scripts_class_content() {
    let m = maps();
    let entity_type = EntityType {
        name: "bob".to_string(),
        directory: pymodd::directory::Directory::parse(
            &m,
            &obj(vec![
                (
                    "DF31W32",
                    obj(vec![
                        ("name", s("initialize")),
                        ("key", s("DF31W32")),
                        ("actions", arr(vec![obj(vec![("type", JsonValue::Null)])])),
                        ("parent", JsonValue::Null),
                        ("order", n(1)),
                    ]),
                ),
                (
                    "31IAD2B",
                    obj(vec![
                        ("triggers", arr(vec![])),
                        ("folderName", s("utils")),
                        ("key", s("31IAD2B")),
                        ("parent", JsonValue::Null),
                        ("order", n(2)),
                    ]),
                ),
                (
                    "SDUW31W",
                    obj(vec![
                        ("triggers", arr(vec![])),
                        ("name", s("change_state")),
                        ("key", s("SDUW31W")),
                        ("actions", arr(vec![])),
                        ("parent", s("31IAD2B")),
                        ("order", n(1)),
                    ]),
                ),
            ]),
        ),
        keybindings: vec![],
    };
    let game_root =
        Directory { children: vec![], name: "root".to_string(), key: "null".to_string() };
    let content = build_class_content_of_entity_type_in_category(
        &m,
        &entity_type,
        "unitTypes",
        &game_root,
    );
    assert_eq!(
        content,
        "class Bob(EntityScripts):\n\
            \tdef _build(self):\n\
                \t\tself.entity_type = UnitType.BOB\n\
                \t\tself.keybindings = {\n\
                    \t\t\t\n\
                \t\t}\n\
                \t\tself.scripts = [\n\
                    \t\t\tself.initialize(),\n\
                    \t\t\tFolder('utils', [\n\
                        \t\t\t\tself.change_state(),\n\
                    \t\t\t]),\n\
                    \t\t\t\n\
                \t\t]\n"
    );
}

#[test]
fn keybindings_field_of_entity_scripts_class() {
    let mut m = maps();
    m.keys = vec![
        ("button1".to_string(), "Key.LEFT_CLICK".to_string()),
        ("q".to_string(), "Key.Q".to_string()),
        ("r".to_string(), "Key.R".to_string()),
        ("z".to_string(), "Key.Z".to_string()),
    ];
    let kb = |key: &str,
              down: Option<&str>,
              down_own: bool,
              up: Option<&str>,
              up_own: bool| Keybinding {
        key: key.to_string(),
        key_down_script_key: down.map(|x| x.to_string()),
        is_key_down_script_entity_script: down_own,
        key_up_script_key: up.map(|x| x.to_string()),
        is_key_up_script_entity_script: up_own,
    };
    let entity_type = EntityType {
        name: "bob".to_string(),
        directory: pymodd::directory::Directory::parse(
            &m,
            &obj(vec![
                (
                    "DF31W32",
                    obj(vec![
                        ("triggers", arr(vec![])),
                        ("name", s("use item")),
                        ("key", s("DF31W32")),
                        ("actions", arr(vec![])),
                        ("parent", JsonValue::Null),
                        ("order", n(1)),
                    ]),
                ),
                (
                    "SDUW31W",
                    obj(vec![
                        ("triggers", arr(vec![])),
                        ("name", s("stop using item")),
                        ("key", s("SDUW31W")),
                        ("actions", arr(vec![])),
                        ("parent", JsonValue::Null),
                        ("order", n(2)),
                    ]),
                ),
            ]),
        ),
        keybindings: vec![
            kb("q", Some("DF31W32"), true, Some("3FJ31WD"), false),
            kb("r", Some("3FJ31WD"), false, None, false),
            kb("button1", Some("DF31W32"), true, Some("SDUW31W"), true),
            kb("z", None, false, None, false),
        ],
    };
    let game_root = Directory {
        children: vec![pymodd::directory::DirectoryItem::Script(
            pymodd::directory::Script::new(
                "EndGame".to_string(),
                "3FJ31WD".to_string(),
                vec![],
                vec![],
            ),
        )],
        name: "root".to_string(),
        key: "null".to_string(),
    };
    let content = build_class_content_of_entity_type_in_category(
        &m,
        &entity_type,
        "unitTypes",
        &game_root,
    );
    assert_eq!(
        content,
        "class Bob(EntityScripts):\n\
            \tdef _build(self):\n\
                \t\tself.entity_type = UnitType.BOB\n\
                \t\tself.keybindings = {\n\
                    \t\t\tKey.LEFT_CLICK: KeyBehavior(self.use_item(), self.stop_using_item()),\n\
                    \t\t\tKey.Q: KeyBehavior(self.use_item(), end_game()),\n\
                    \t\t\tKey.R: KeyBehavior(end_game(), None),\n\
                    \t\t\tKey.Z: KeyBehavior(None, None),\n\
                    \t\t\t\n\
                \t\t}\n\
                \t\tself.scripts = [\n\
                    \t\t\tself.use_item(),\n\
                    \t\t\tself.stop_using_item(),\n\
                    \t\t\t\n\
                \t\t]\n"
    );
}

#[test]
fn item_type_entity_scripts_class() {
    let m = maps();
    let entity_type = EntityType {
        name: "sword".to_string(),
        directory: pymodd::directory::Directory::parse(&m, &obj(vec![])),
        keybindings: vec![],
    };
    let game_root =
        Directory { children: vec![], name: "root".to_string(), key: "null".to_string() };
    let content = build_class_content_of_entity_type_in_category(
        &m,
        &entity_type,
        "itemTypes",
        &game_root,
    );
    assert_eq!(
        content,
        "class Sword(EntityScripts):\n\
            \tdef _build(self):\n\
                \t\tself.entity_type = ItemType.SWORD\n\
                \t\tself.scripts = [\n\
                    \t\t\t\n\
                \t\t]\n"
    );
}

#[test]
fn projectile_type_entity_scripts_class() {
    let m = maps();
    let entity_type = EntityType {
        name: "bullet".to_string(),
        directory: pymodd::directory::Directory::parse(&m, &obj(vec![])),
        keybindings: vec![],
    };
    let game_root =
        Directory { children: vec![], name: "root".to_string(), key: "null".to_string() };
    let content = build_class_content_of_entity_type_in_category(
        &m,
        &entity_type,
        "projectileTypes",
        &game_root,
    );
    assert_eq!(
        content,
        "class Bullet(EntityScripts):\n\
            \tdef _build(self):\n\
                \t\tself.entity_type = ProjectileType.BULLET\n\
                \t\tself.scripts = [\n\
                    \t\t\t\n\
                \t\t]\n"
    );
}

#[test]
fn game_parse_fails_without_title() {
    let m = maps();
    let doc = obj(vec![("data", obj(vec![("scripts", obj(vec![]))]))]);
    match pymodd::game_data::GameData::parse(&m, &doc) {
        Err(msg) => assert_eq!(msg, "invalid modd.io json file! missing key: title"),
        Ok(_) => panic!("expected the missing-title error"),
    }
}

#[test]
fn game_parse_fails_without_scripts() {
    let m = maps();
    let doc = obj(vec![("title", s("My Game")), ("data", obj(vec![]))]);
    match pymodd::game_data::GameData::parse(&m, &doc) {
        Err(msg) => assert_eq!(msg, "invalid modd.io json file! missing key: scripts"),
        Ok(_) => panic!("expected the missing-scripts error"),
    }
}

#[test]
fn generate_produces_the_six_project_files() {
    let m = maps();
    let doc = obj(vec![
        ("title", s("My Game")),
        ("data", obj(vec![("scripts", obj(vec![]))])),
    ]);
    let game_data = match pymodd::game_data::GameData::parse(&m, &doc) {
        Ok(g) => g,
        Err(msg) => panic!("unexpected parse failure: {msg}"),
    };
    // the title is kept as its JSON text; the project name derives from it
    assert_eq!(game_data.name, "\"My Game\"");
    assert_eq!(game_data.pymodd_project_name(), "my_game");
    let files = pymodd::project_generator::ProjectGenerator::generate(&m, &game_data);
    let paths: Vec<String> = files.iter().map(|f| f.path.clone()).collect();
    assert_eq!(
        paths,
        vec![
            "my_game/game_variables.py".to_string(),
            "my_game/mapping.py".to_string(),
            "my_game/scripts.py".to_string(),
            "my_game/entity_scripts.py".to_string(),
            "my_game/utils/game.json".to_string(),
            "my_game/pyproject.toml".to_string(),
        ]
    );
    // the stored document round-trips as compact JSON
    let json_copy = files.iter().find(|f| f.path.ends_with("game.json")).unwrap();
    assert_eq!(
        json_copy.content,
        "{\"data\":{\"scripts\":{}},\"title\":\"My Game\"}"
    );
}

#[test]
fn strip_quotes_removes_one_quote_pair() {
    assert_eq!(pymodd::utils::strip_quotes("  'setPlayerVariable'  "), "setPlayerVariable");
    assert_eq!(pymodd::utils::strip_quotes("'endGame'"), "endGame");
    assert_eq!(pymodd::utils::strip_quotes("\"plain\""), "plain");
    assert_eq!(pymodd::utils::strip_quotes("bare"), "bare");
}
