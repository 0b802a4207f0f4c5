use pymodd::actions::{parse_actions, Action, Argument, ArgumentValue, Function};
use pymodd::argument::{
    align_arguments_with_pymodd_structure_parameters, parse_arguments_of_object_data,
    parse_arguments_of_operator_data,
};
use pymodd::directory::{
    remove_children_of_parent_in_items, root_children_from_scripts_data, Directory, DirectoryItem,
    Script,
};
use pymodd::document::{JsonNumber, JsonValue};
use pymodd::argument_values_iterator::ArgumentValueIterItem;
use pymodd::to_pymodd_maps::{PymoddMaps, PymoddStructure};

fn s(v: &str) -> JsonValue {
    JsonValue::Str(v.to_string())
}

fn n(v: i64) -> JsonValue {
    JsonValue::Number(JsonNumber::Int(v))
}

fn b(v: bool) -> JsonValue {
    JsonValue::Bool(v)
}

fn arr(items: Vec<JsonValue>) -> JsonValue {
    JsonValue::Arr(items)
}

/// Builds an object with its entries sorted by key, the order a parsed
/// JSON document presents them in.
fn obj(entries: Vec<(&str, JsonValue)>) -> JsonValue {
    let mut v: Vec<(String, JsonValue)> = entries
        .into_iter()
        .map(|(k, val)| (k.to_string(), val))
        .collect();
    v.sort_by(|a, b| a.0.cmp(&b.0));
    JsonValue::Obj(v)
}

fn maps() -> PymoddMaps {
    PymoddMaps {
        triggers: vec![
            ("gameStart".to_string(), "Trigger.GAME_START".to_string()),
            ("secondTick".to_string(), "Trigger.SECOND_TICK".to_string()),
        ],
        ui_targets: vec![
            ("top".to_string(), "UiTarget.TOP".to_string()),
            ("center-lg".to_string(), "UiTarget.CENTER".to_string()),
        ],
        flips: vec![("horizontal".to_string(), "Flip.HORIZONTAL".to_string())],
        keys: vec![],
        data_types: vec![],
        actions: vec![
            (
                "openShopForPlayer".to_string(),
                PymoddStructure::new("open_shop_for_player", vec!["shop", "player"]),
            ),
            (
                "startUsingItem".to_string(),
                PymoddStructure::new("use_item_continuously_until_stopped", vec!["entity"]),
            ),
            (
                "sendChatMessage".to_string(),
                PymoddStructure::new("send_chat_message_to_everyone", vec!["message"]),
            ),
        ],
        functions: vec![
            (
                "condition".to_string(),
                PymoddStructure::new("Condition", vec!["item_a", "operator", "item_b"]),
            ),
            ("getOwner".to_string(), PymoddStructure::new("OwnerOfEntity", vec!["entity"])),
            (
                "getLastCastingUnit".to_string(),
                PymoddStructure::new("LastCastingUnit", vec![]),
            ),
            (
                "calculate".to_string(),
                PymoddStructure::new("Calculate", vec!["item_a", "operator", "item_b"]),
            ),
            (
                "getValueOfEntityVariable".to_string(),
                PymoddStructure::new("ValueOfEntityVariable", vec!["variable_type", "entity"]),
            ),
        ],
    }
}

#[test]
fn parse_action() {
    let m = maps();
    let parsed = parse_actions(
        &m,
        &vec![obj(vec![
            ("comment", s("opens a shop!")),
            ("type", s("openShopForPlayer")),
            (
                "player",
                obj(vec![
                    ("function", s("getOwner")),
                    (
                        "entity",
                        obj(vec![("function", s("getLastCastingUnit")), ("vars", arr(vec![]))]),
                    ),
                    ("vars", arr(vec![])),
                ]),
            ),
            ("shop", s("OJbEQyc7is")),
            ("runOnClient", b(true)),
            ("disabled", b(true)),
            ("vars", arr(vec![])),
        ])],
    );
    assert_eq!(
        parsed,
        vec![Action::new(
            "openShopForPlayer",
            vec![
                Argument::new("shop", ArgumentValue::Value(s("OJbEQyc7is"))),
                Argument::new(
                    "player",
                    ArgumentValue::Function(Function::new(
                        "getOwner",
                        vec![Argument::new(
                            "entity",
                            ArgumentValue::Function(Function::new("getLastCastingUnit", vec![]))
                        )]
                    )),
                ),
            ],
            Some("opens a shop!"),
            true,
            true,
        )]
    );
}

#[test]
fn align_condition_arguments_with_pymodd() {
    let aligned = align_arguments_with_pymodd_structure_parameters(
        vec![
            Argument::new("operator", ArgumentValue::Value(s("=="))),
            Argument::new("item_a", ArgumentValue::Value(b(true))),
            Argument::new("item_b", ArgumentValue::Value(b(true))),
        ],
        &vec!["item_a".to_string(), "operator".to_string(), "item_b".to_string()],
    );
    assert_eq!(
        aligned,
        vec![
            Argument::new("item_a", ArgumentValue::Value(b(true))),
            Argument::new("operator", ArgumentValue::Value(s("=="))),
            Argument::new("item_b", ArgumentValue::Value(b(true))),
        ]
    );
}

#[test]
fn align_action_arguments_with_pymodd() {
    let aligned = align_arguments_with_pymodd_structure_parameters(
        vec![
            Argument::new("entity", ArgumentValue::Value(JsonValue::Null)),
            Argument::new("variable", ArgumentValue::Value(JsonValue::Null)),
        ],
        &vec!["variable_type".to_string(), "entity".to_string()],
    );
    assert_eq!(
        aligned,
        vec![
            Argument::new("variable", ArgumentValue::Value(JsonValue::Null)),
            Argument::new("entity", ArgumentValue::Value(JsonValue::Null)),
        ]
    );
}

#[test]
fn align_missing_arguments_with_pymodd() {
    let aligned = align_arguments_with_pymodd_structure_parameters(
        vec![Argument::new("entity", ArgumentValue::Value(s("test")))],
        &vec!["entity".to_string()],
    );
    assert_eq!(aligned, vec![Argument::new("entity", ArgumentValue::Value(s("test")))]);
}

#[test]
fn parse_force_object_argument() {
    let m = maps();
    let entries = vec![("force".to_string(), obj(vec![("x", n(1)), ("y", n(1))]))];
    let args = parse_arguments_of_object_data(&m, &entries);
    assert_eq!(
        args,
        vec![
            Argument::new("x", ArgumentValue::Value(n(1))),
            Argument::new("y", ArgumentValue::Value(n(1))),
        ]
    );
}

#[test]
fn parse_regular_force_argument() {
    let m = maps();
    let entries = vec![("force".to_string(), n(5))];
    let args = parse_arguments_of_object_data(&m, &entries);
    assert_eq!(args, vec![Argument::new("force", ArgumentValue::Value(n(5)))]);
}

#[test]
fn parse_player_variable_argument() {
    let m = maps();
    let entries = vec![(
        "variable".to_string(),
        obj(vec![
            ("function", s("getPlayerVariable")),
            (
                "variable",
                obj(vec![
                    ("text", s("unit")),
                    ("dataType", s("unit")),
                    ("entity", s("humanPlayer")),
                    ("key", s("OW31JD2")),
                ]),
            ),
        ]),
    )];
    let args = parse_arguments_of_object_data(&m, &entries);
    assert_eq!(args, vec![Argument::new("variable", ArgumentValue::Value(s("OW31JD2")))]);
}

#[test]
fn parse_get_variable_argument() {
    let m = maps();
    let entries = vec![(
        "value".to_string(),
        obj(vec![("function", s("getVariable")), ("variableName", s("AI"))]),
    )];
    let args = parse_arguments_of_object_data(&m, &entries);
    assert_eq!(args, vec![Argument::new("value", ArgumentValue::Value(s("AI")))]);
}

#[test]
fn argument_parse_condition_argument() {
    let m = maps();
    let args = parse_arguments_of_operator_data(
        &m,
        &arr(vec![
            obj(vec![("operandType", s("boolean")), ("operator", s("=="))]),
            b(true),
            b(true),
        ]),
    );
    assert_eq!(
        args,
        vec![
            Argument::new("item_a", ArgumentValue::Value(b(true))),
            Argument::new("operator", ArgumentValue::Value(s("=="))),
            Argument::new("item_b", ArgumentValue::Value(b(true))),
        ]
    );
}

#[test]
fn parse_calculate_function() {
    let m = maps();
    let parsed = Function::parse(
        &m,
        &obj(vec![
            ("function", s("calculate")),
            (
                "items",
                arr(vec![obj(vec![("operator", s("+"))]), n(1), n(5)]),
            ),
        ]),
    );
    assert_eq!(
        parsed,
        Function::new(
            "calculate",
            vec![
                Argument::new("item_a", ArgumentValue::Value(n(1))),
                Argument::new("operator", ArgumentValue::Value(s("+"))),
                Argument::new("item_b", ArgumentValue::Value(n(5))),
            ]
        )
    );
}

#[test]
fn parse_directory() {
    let m = maps();
    let children = root_children_from_scripts_data(
        &m,
        &obj(vec![
            (
                "31IAD2B",
                obj(vec![
                    ("triggers", arr(vec![])),
                    ("folderName", s("utils")),
                    ("key", s("31IAD2B")),
                    ("parent", JsonValue::Null),
                    ("order", n(2)),
                ]),
            ),
            (
                "Q31E2RS",
                obj(vec![
                    ("triggers", arr(vec![obj(vec![("type", s("secondTick"))])])),
                    ("name", s("check_players")),
                    ("key", JsonValue::Null),
                    ("actions", arr(vec![])),
                    ("parent", s("31IAD2B")),
                    ("order", n(2)),
                ]),
            ),
            (
                "SDUW31W",
                obj(vec![
                    ("triggers", arr(vec![])),
                    ("name", s("change_state")),
                    ("key", s("SDUW31W")),
                    ("actions", arr(vec![])),
                    ("parent", s("31IAD2B")),
                    ("order", n(1)),
                ]),
            ),
            (
                "HWI31WQ",
                obj(vec![
                    ("triggers", arr(vec![])),
                    ("folderName", s("other")),
                    ("key", s("HWI31WQ")),
                    ("parent", s("31IAD2B")),
                    ("order", n(3)),
                ]),
            ),
            (
                "JK32Q03",
                obj(vec![
                    ("triggers", arr(vec![])),
                    ("name", s("destroy_server")),
                    ("key", s("JK32Q03")),
                    ("actions", arr(vec![])),
                    ("parent", s("HWI31WQ")),
                    ("order", n(1)),
                ]),
            ),
            (
                "3WI1HDK",
                obj(vec![
                    ("triggers", arr(vec![obj(vec![("type", s("gameStart"))])])),
                    ("name", s("")),
                    ("key", s("3WI1HDK")),
                    ("actions", arr(vec![])),
                    ("parent", JsonValue::Null),
                    ("order", n(1)),
                ]),
            ),
        ]),
    );
    assert_eq!(children.len(), 2);
    // root children are ordered by `order`: the unnamed script, then utils
    match &children[0] {
        DirectoryItem::Script(script) => {
            assert_eq!(script.name, "");
            assert_eq!(script.function_name, "x3wi1hdk");
            assert_eq!(script.key, "3WI1HDK");
            assert_eq!(script.triggers, vec!["gameStart".to_string()]);
        },
        _ => panic!("expected a script first"),
    }
    match &children[1] {
        DirectoryItem::Directory(dir) => {
            assert_eq!(dir.name, "utils");
            assert_eq!(dir.key, "31IAD2B");
            assert_eq!(dir.children.len(), 3);
            match &dir.children[0] {
                DirectoryItem::Script(script) => {
                    assert_eq!(script.function_name, "change_state");
                    assert_eq!(script.key, "SDUW31W");
                },
                _ => panic!("expected change_state"),
            }
            match &dir.children[1] {
                DirectoryItem::Script(script) => {
                    assert_eq!(script.function_name, "check_players");
                    assert_eq!(script.key, "UNDEFINED");
                },
                _ => panic!("expected check_players"),
            }
            match &dir.children[2] {
                DirectoryItem::Directory(inner) => {
                    assert_eq!(inner.name, "other");
                    assert_eq!(inner.children.len(), 1);
                    match &inner.children[0] {
                        DirectoryItem::Script(script) => {
                            assert_eq!(script.function_name, "destroy_server");
                        },
                        _ => panic!("expected destroy_server"),
                    }
                },
                _ => panic!("expected the other folder"),
            }
        },
        _ => panic!("expected the utils folder"),
    }
}

#[test]
fn parse_directory_of_scripts_with_same_function_name() {
    let m = maps();
    let children = root_children_from_scripts_data(
        &m,
        &obj(vec![
            (
                "Q31E2RS",
                obj(vec![
                    ("triggers", arr(vec![])),
                    ("name", s("destroy server")),
                    ("key", s("Q31E2RS")),
                    ("actions", arr(vec![])),
                    ("parent", JsonValue::Null),
                    ("order", n(1)),
                ]),
            ),
            (
                "SDUW31W",
                obj(vec![
                    ("triggers", arr(vec![])),
                    ("name", s("destroy server")),
                    ("key", s("SDUW31W")),
                    ("actions", arr(vec![])),
                    ("parent", JsonValue::Null),
                    ("order", n(2)),
                ]),
            ),
            (
                "JK32Q03",
                obj(vec![
                    ("triggers", arr(vec![])),
                    ("name", s("destroy server")),
                    ("key", s("JK32Q03")),
                    ("actions", arr(vec![])),
                    ("parent", JsonValue::Null),
                    ("order", n(3)),
                ]),
            ),
        ]),
    );
    let names: Vec<String> = children
        .iter()
        .map(|c| match c {
            DirectoryItem::Script(script) => script.function_name.clone(),
            _ => panic!("expected scripts only"),
        })
        .collect();
    assert_eq!(
        names,
        vec![
            "destroy_server".to_string(),
            "destroy_server_1".to_string(),
            "destroy_server_2".to_string()
        ]
    );
}

#[test]
fn filter_out_children_of_parent_from_items() {
    let initialize = obj(vec![
        ("name", s("initialize")),
        ("key", s("WI31HDK")),
        ("actions", arr(vec![])),
        ("parent", JsonValue::Null),
        ("order", n(1)),
    ]);
    let change_state = obj(vec![
        ("name", s("change_state")),
        ("key", s("SDUW31W")),
        ("actions", arr(vec![])),
        ("parent", s("31IAD2B")),
        ("order", n(1)),
    ]);
    let check_players = obj(vec![
        ("name", s("check_players")),
        ("key", s("FWJ31WD")),
        ("actions", arr(vec![])),
        ("parent", s("31IAD2B")),
        ("order", n(2)),
    ]);
    let mut items = vec![initialize.clone(), change_state.clone(), check_players.clone()];
    let removed =
        remove_children_of_parent_in_items(&Some("31IAD2B".to_string()), &mut items);
    assert_eq!(removed, vec![change_state, check_players]);
    assert_eq!(items, vec![initialize]);
}

#[test]
fn flatten_arguments_of_action() {
    let action = Action::new(
        "openShopForPlayer",
        vec![
            Argument::new("shop", ArgumentValue::Value(s("OJbEQyc7is"))),
            Argument::new(
                "player",
                ArgumentValue::Function(Function::new(
                    "getOwner",
                    vec![Argument::new(
                        "entity",
                        ArgumentValue::Function(Function::new("getLastCastingUnit", vec![])),
                    )],
                )),
            ),
        ],
        Some("opens a shop!"),
        false,
        false,
    );
    let walk = action.iter_flattened_argument_values();
    assert_eq!(walk.items.len(), 5);
    assert!(matches!(walk.items[0], ArgumentValueIterItem::Value(_)));
    assert!(matches!(walk.items[1], ArgumentValueIterItem::StartOfFunction(_)));
    assert!(matches!(walk.items[2], ArgumentValueIterItem::StartOfFunction(_)));
    assert!(matches!(walk.items[3], ArgumentValueIterItem::FunctionEnd));
    assert!(matches!(walk.items[4], ArgumentValueIterItem::FunctionEnd));
}

#[test]
fn parse_nested_condition_argument() {
    let m = maps();
    let leaf = |op: &str| {
        arr(vec![
            obj(vec![("operandType", s("boolean")), ("operator", s(op))]),
            b(true),
            b(true),
        ])
    };
    let args = parse_arguments_of_operator_data(
        &m,
        &arr(vec![
            obj(vec![("operandType", s("boolean")), ("operator", s("OR"))]),
            leaf("=="),
            leaf("=="),
        ]),
    );
    let expected_leaf = Function::new(
        "condition",
        vec![
            Argument::new("item_a", ArgumentValue::Value(b(true))),
            Argument::new("operator", ArgumentValue::Value(s("=="))),
            Argument::new("item_b", ArgumentValue::Value(b(true))),
        ],
    );
    assert_eq!(
        args,
        vec![
            Argument::new("item_a", ArgumentValue::Function(expected_leaf.clone())),
            Argument::new("operator", ArgumentValue::Value(s("OR"))),
            Argument::new("item_b", ArgumentValue::Function(expected_leaf)),
        ]
    );
}

#[test]
fn parse_nested_calculate_function() {
    let m = maps();
    let parsed = Function::parse(
        &m,
        &obj(vec![
            ("function", s("calculate")),
            (
                "items",
                arr(vec![
                    obj(vec![("operator", s("+"))]),
                    n(1),
                    obj(vec![
                        ("function", s("calculate")),
                        (
                            "items",
                            arr(vec![obj(vec![("operator", s("+"))]), n(1), n(5)]),
                        ),
                    ]),
                ]),
            ),
        ]),
    );
    assert_eq!(
        parsed,
        Function::new(
            "calculate",
            vec![
                Argument::new("item_a", ArgumentValue::Value(n(1))),
                Argument::new("operator", ArgumentValue::Value(s("+"))),
                Argument::new(
                    "item_b",
                    ArgumentValue::Function(Function::new(
                        "calculate",
                        vec![
                            Argument::new("item_a", ArgumentValue::Value(n(1))),
                            Argument::new("operator", ArgumentValue::Value(s("+"))),
                            Argument::new("item_b", ArgumentValue::Value(n(5))),
                        ]
                    ))
                ),
            ]
        )
    );
}

#[test]
fn parse_nested_if_statement() {
    let mut m = maps();
    m.actions.push((
        "condition".to_string(),
        PymoddStructure::new("if_else", vec!["condition", "then_actions", "else_actions"]),
    ));
    let condition_list = arr(vec![
        obj(vec![("operandType", s("boolean")), ("operator", s("=="))]),
        b(true),
        b(true),
    ]);
    let parsed = parse_actions(
        &m,
        &vec![obj(vec![
            ("type", s("condition")),
            ("conditions", condition_list.clone()),
            (
                "then",
                arr(vec![obj(vec![
                    ("type", s("condition")),
                    ("conditions", condition_list),
                    ("then", arr(vec![])),
                    ("else", arr(vec![])),
                ])]),
            ),
            ("else", arr(vec![])),
        ])],
    );
    let expected_condition = Argument::new(
        "conditions",
        ArgumentValue::Function(Function::new(
            "condition",
            vec![
                Argument::new("item_a", ArgumentValue::Value(b(true))),
                Argument::new("operator", ArgumentValue::Value(s("=="))),
                Argument::new("item_b", ArgumentValue::Value(b(true))),
            ],
        )),
    );
    assert_eq!(
        parsed,
        vec![Action::new(
            "condition",
            vec![
                expected_condition.clone(),
                Argument::new(
                    "then",
                    ArgumentValue::Actions(vec![Action::new(
                        "condition",
                        vec![
                            expected_condition,
                            Argument::new("then", ArgumentValue::Actions(vec![])),
                            Argument::new("else", ArgumentValue::Actions(vec![])),
                        ],
                        None,
                        false,
                        false
                    )])
                ),
                Argument::new("else", ArgumentValue::Actions(vec![])),
            ],
            None,
            false,
            false,
        )]
    );
}
