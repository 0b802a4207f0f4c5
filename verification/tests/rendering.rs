use pymodd::actions::parse_actions;
use pymodd::directory::{Directory, DirectoryItem, Script};
use pymodd::document::{JsonNumber, JsonValue};
use pymodd::scripts_file::ScriptsContentBuilder;
use pymodd::to_pymodd_maps::{PymoddMaps, PymoddStructure};
use pymodd::variable_categories::{CategoriesToVariables, Variable};

fn s(v: &str) -> JsonValue {
    JsonValue::Str(v.to_string())
}

fn n(v: i64) -> JsonValue {
    JsonValue::Number(JsonNumber::Int(v))
}

fn b(v: bool) -> JsonValue {
    JsonValue::Bool(v)
}

fn arr(items: Vec<JsonValue>) -> JsonValue {
    JsonValue::Arr(items)
}

fn obj(entries: Vec<(&str, JsonValue)>) -> JsonValue {
    let mut v: Vec<(String, JsonValue)> = entries
        .into_iter()
        .map(|(k, val)| (k.to_string(), val))
        .collect();
    v.sort_by(|a, b| a.0.cmp(&b.0));
    JsonValue::Obj(v)
}

fn pair(k: &str, v: &str) -> (String, String) {
    (k.to_string(), v.to_string())
}

fn maps() -> PymoddMaps {
    PymoddMaps {
        triggers: vec![pair("gameStart", "Trigger.GAME_START")],
        ui_targets: vec![pair("top", "UiTarget.TOP"), pair("center-lg", "UiTarget.CENTER")],
        flips: vec![],
        keys: vec![],
        data_types: vec![],
        actions: vec![
            (
                "condition".to_string(),
                PymoddStructure::new("if_else", vec!["condition", "then_actions", "else_actions"]),
            ),
            (
                "for".to_string(),
                PymoddStructure::new("for_range", vec!["start", "stop", "variable_name", "actions"]),
            ),
            ("while".to_string(), PymoddStructure::new("while_do", vec!["conditions", "actions"])),
            ("repeat".to_string(), PymoddStructure::new("repeat_n", vec!["count", "actions"])),
            (
                "setTimeOut".to_string(),
                PymoddStructure::new("set_time_out", vec!["duration", "actions"]),
            ),
            (
                "forAllEntities".to_string(),
                PymoddStructure::new("for_all_entities", vec!["entity_group", "actions"]),
            ),
            (
                "openShopForPlayer".to_string(),
                PymoddStructure::new("open_shop_for_player", vec!["shop", "player"]),
            ),
            (
                "startUsingItem".to_string(),
                PymoddStructure::new("use_item_continuously_until_stopped", vec!["entity"]),
            ),
            (
                "stopMusic".to_string(),
                PymoddStructure::new("stop_music_for_everyone", vec![]),
            ),
            (
                "updateUiTextForEveryone".to_string(),
                PymoddStructure::new("update_ui_text_for_everyone", vec!["target", "value"]),
            ),
            (
                "updateUiTextForTimeForPlayer".to_string(),
                PymoddStructure::new(
                    "update_ui_target_for_player_for_miliseconds",
                    vec!["target", "value", "player", "time"],
                ),
            ),
            (
                "sendChatMessage".to_string(),
                PymoddStructure::new("send_chat_message_to_everyone", vec!["message"]),
            ),
            (
                "increaseVariableByNumber".to_string(),
                PymoddStructure::new("increase_variable_by_number", vec!["variable", "number"]),
            ),
            ("comment".to_string(), PymoddStructure::new("comment", vec!["comment"])),
            (
                "destroyEntity".to_string(),
                PymoddStructure::new("destroy_entity", vec!["entity"]),
            ),
            ("runScript".to_string(), PymoddStructure::new("run_script", vec!["script_name"])),
        ],
        functions: vec![
            (
                "condition".to_string(),
                PymoddStructure::new("Condition", vec!["item_a", "operator", "item_b"]),
            ),
            ("getOwner".to_string(), PymoddStructure::new("OwnerOfEntity", vec!["entity"])),
            (
                "getLastCastingUnit".to_string(),
                PymoddStructure::new("LastCastingUnit", vec![]),
            ),
            (
                "getTriggeringItem".to_string(),
                PymoddStructure::new("LastTriggeringItem", vec![]),
            ),
            (
                "calculate".to_string(),
                PymoddStructure::new("Calculate", vec!["item_a", "operator", "item_b"]),
            ),
            (
                "getExponent".to_string(),
                PymoddStructure::new("Exponent", vec!["base", "power"]),
            ),
            ("concat".to_string(), PymoddStructure::new("Concat", vec!["text_a", "text_b"])),
            ("getPlayerId".to_string(), PymoddStructure::new("IdOfPlayer", vec!["player"])),
            (
                "getTriggeringPlayer".to_string(),
                PymoddStructure::new("LastTriggeringPlayer", vec![]),
            ),
            ("entityExists".to_string(), PymoddStructure::new("EntityExists", vec!["entity"])),
            (
                "getTriggeringUnit".to_string(),
                PymoddStructure::new("LastTriggeringUnit", vec![]),
            ),
            (
                "allEntities".to_string(),
                PymoddStructure::new("AllEntitiesInTheGame", vec![]),
            ),
            (
                "getSelectedEntity".to_string(),
                PymoddStructure::new("SelectedEntity", vec![]),
            ),
            (
                "undefinedValue".to_string(),
                PymoddStructure::new("Undefined", vec![]),
            ),
        ],
    }
}

fn empty_vars() -> CategoriesToVariables {
    CategoriesToVariables::new(vec![])
}

fn empty_root() -> Directory {
    Directory { children: vec![], name: "root".to_string(), key: "null".to_string() }
}

#[test]
fn parse_action_with_variable_into_pymodd() {
    let m = maps();
    let vars = CategoriesToVariables::new(vec![(
        "shops".to_string(),
        vec![Variable::new("OJbEQyc7is", "weapons", vec![])],
    )]);
    let root = empty_root();
    let builder = ScriptsContentBuilder::new(&vars, &root, &m);
    let content = builder.build_actions_content(&parse_actions(
        &m,
        &vec![obj(vec![
            ("type", s("openShopForPlayer")),
            (
                "player",
                obj(vec![
                    ("function", s("getOwner")),
                    (
                        "entity",
                        obj(vec![("function", s("getLastCastingUnit")), ("vars", arr(vec![]))]),
                    ),
                    ("vars", arr(vec![])),
                ]),
            ),
            ("shop", s("OJbEQyc7is")),
            ("vars", arr(vec![])),
        ])],
    ));
    assert_eq!(content, "open_shop_for_player(Shop.WEAPONS, OwnerOfEntity(LastCastingUnit()))\n");
}

#[test]
fn parse_action_with_optional_arguments_into_pymodd() {
    let m = maps();
    let vars = empty_vars();
    let root = empty_root();
    let builder = ScriptsContentBuilder::new(&vars, &root, &m);
    let content = builder.build_actions_content(&parse_actions(
        &m,
        &vec![obj(vec![
            ("type", s("startUsingItem")),
            ("entity", obj(vec![("function", s("getTriggeringItem"))])),
            ("comment", s("hi!")),
            ("runOnClient", b(true)),
            ("disabled", b(true)),
        ])],
    ));
    assert_eq!(
        content,
        "use_item_continuously_until_stopped(LastTriggeringItem(), comment='hi!', disabled=True, run_on_client=True)\n"
    );
}

#[test]
fn parse_action_with_only_optional_arguments_into_pymodd() {
    let m = maps();
    let vars = empty_vars();
    let root = empty_root();
    let builder = ScriptsContentBuilder::new(&vars, &root, &m);
    let content = builder.build_actions_content(&parse_actions(
        &m,
        &vec![obj(vec![
            ("type", s("stopMusic")),
            ("comment", s("hi!")),
            ("runOnClient", b(true)),
            ("disabled", b(false)),
        ])],
    ));
    assert_eq!(content, "stop_music_for_everyone(comment='hi!', run_on_client=True)\n");
}

#[test]
fn parse_action_with_constant_into_pymodd() {
    let m = maps();
    let vars = empty_vars();
    let root = empty_root();
    let builder = ScriptsContentBuilder::new(&vars, &root, &m);
    let content = builder.build_actions_content(&parse_actions(
        &m,
        &vec![obj(vec![
            ("type", s("updateUiTextForEveryone")),
            ("target", s("top")),
            ("value", s("Hello!")),
        ])],
    ));
    assert_eq!(content, "update_ui_text_for_everyone(UiTarget.TOP, 'Hello!')\n");
}

#[test]
fn parse_action_with_null_into_pymodd() {
    let m = maps();
    let vars = empty_vars();
    let root = empty_root();
    let builder = ScriptsContentBuilder::new(&vars, &root, &m);
    let content = builder.build_actions_content(&parse_actions(
        &m,
        &vec![obj(vec![
            ("type", s("updateUiTextForEveryone")),
            ("target", s("top")),
            ("value", JsonValue::Null),
        ])],
    ));
    assert_eq!(content, "update_ui_text_for_everyone(UiTarget.TOP, None)\n");
}

#[test]
fn parse_action_with_undefined_into_pymodd() {
    let m = maps();
    let vars = empty_vars();
    let root = empty_root();
    let builder = ScriptsContentBuilder::new(&vars, &root, &m);
    let content = builder.build_actions_content(&parse_actions(
        &m,
        &vec![obj(vec![
            ("type", s("updateUiTextForTimeForPlayer")),
            ("player", obj(vec![("function", s("undefinedValue")), ("vars", arr(vec![]))])),
            ("target", s("center-lg")),
            ("time", n(5000)),
            ("value", s("BOSS SPAWNED")),
            ("vars", arr(vec![])),
        ])],
    ));
    assert_eq!(
        content,
        "update_ui_target_for_player_for_miliseconds(UiTarget.CENTER, 'BOSS SPAWNED', Undefined(), 5000)\n"
    );
}

#[test]
fn unknown_action_renders_as_undefined_without_raising() {
    // an unrecognized tag degrades to the placeholder structure: its
    // arguments are dropped and nothing fails
    let m = maps();
    let vars = empty_vars();
    let root = empty_root();
    let builder = ScriptsContentBuilder::new(&vars, &root, &m);
    let content = builder.build_actions_content(&parse_actions(
        &m,
        &vec![obj(vec![
            ("type", s("totallyNewAction")),
            ("alpha", n(1)),
            ("beta", n(2)),
        ])],
    ));
    assert_eq!(content, "Undefined()\n");
}

#[test]
fn parse_comment_action_into_pymodd() {
    let m = maps();
    let vars = empty_vars();
    let root = empty_root();
    let builder = ScriptsContentBuilder::new(&vars, &root, &m);
    let content = builder.build_actions_content(&parse_actions(
        &m,
        &vec![obj(vec![("type", s("comment")), ("comment", s("hey there"))])],
    ));
    assert_eq!(content, "comment('hey there')\n");
}

#[test]
fn parse_keyword_actions_into_pymodd() {
    let m = maps();
    let vars = empty_vars();
    let root = empty_root();
    let builder = ScriptsContentBuilder::new(&vars, &root, &m);
    let content = builder.build_actions_content(&parse_actions(
        &m,
        &vec![
            obj(vec![("type", s("break"))]),
            obj(vec![("type", s("continue"))]),
            obj(vec![("type", s("return"))]),
        ],
    ));
    assert_eq!(content, "break\ncontinue\nreturn\n");
}

#[test]
fn parse_disabled_keyword_actions_into_pymodd() {
    let m = maps();
    let vars = empty_vars();
    let root = empty_root();
    let builder = ScriptsContentBuilder::new(&vars, &root, &m);
    let content = builder.build_actions_content(&parse_actions(
        &m,
        &vec![
            obj(vec![("type", s("break")), ("disabled", b(true))]),
            obj(vec![("type", s("continue")), ("disabled", b(true))]),
            obj(vec![("type", s("return")), ("disabled", b(true))]),
        ],
    ));
    assert_eq!(content, "# break\n# continue\n# return\n");
}

#[test]
fn parse_nested_calculations_into_pymodd() {
    let m = maps();
    let vars = empty_vars();
    let root = empty_root();
    let builder = ScriptsContentBuilder::new(&vars, &root, &m);
    let content = builder.build_actions_content(&parse_actions(
        &m,
        &vec![obj(vec![
            ("type", s("increaseVariableByNumber")),
            ("variable", JsonValue::Null),
            (
                "number",
                obj(vec![
                    ("function", s("calculate")),
                    (
                        "items",
                        arr(vec![
                            obj(vec![("operator", s("%"))]),
                            n(10),
                            obj(vec![
                                ("function", s("calculate")),
                                (
                                    "items",
                                    arr(vec![
                                        obj(vec![("operator", s("+"))]),
                                        n(5),
                                        obj(vec![
                                            ("function", s("calculate")),
                                            (
                                                "items",
                                                arr(vec![
                                                    obj(vec![("operator", s("-"))]),
                                                    n(3),
                                                    obj(vec![
                                                        ("function", s("calculate")),
                                                        (
                                                            "items",
                                                            arr(vec![
                                                                obj(vec![("operator", s("*"))]),
                                                                n(3),
                                                                obj(vec![
                                                                    ("function", s("calculate")),
                                                                    (
                                                                        "items",
                                                                        arr(vec![
                                                                            obj(vec![(
                                                                                "operator",
                                                                                s("/"),
                                                                            )]),
                                                                            n(2),
                                                                            obj(vec![
                                                                                (
                                                                                    "function",
                                                                                    s("getExponent"),
                                                                                ),
                                                                                ("base", n(5)),
                                                                                ("power", n(2)),
                                                                            ]),
                                                                        ]),
                                                                    ),
                                                                ]),
                                                            ]),
                                                        ),
                                                    ]),
                                                ]),
                                            ),
                                        ]),
                                    ]),
                                ),
                            ]),
                        ]),
                    ),
                ]),
            ),
        ])],
    ));
    assert_eq!(content, "increase_variable_by_number(None, 10 % (5 + (3 - (3 * (2 / (5 ** 2))))))\n");
}

#[test]
fn parse_nested_concatenations_into_pymodd() {
    let m = maps();
    let vars = empty_vars();
    let root = empty_root();
    let builder = ScriptsContentBuilder::new(&vars, &root, &m);
    let content = builder.build_actions_content(&parse_actions(
        &m,
        &vec![obj(vec![
            ("type", s("sendChatMessage")),
            (
                "message",
                obj(vec![
                    ("function", s("concat")),
                    ("textA", s("hi ")),
                    (
                        "textB",
                        obj(vec![
                            ("function", s("concat")),
                            (
                                "textA",
                                obj(vec![
                                    ("function", s("getPlayerId")),
                                    (
                                        "player",
                                        obj(vec![("function", s("getTriggeringPlayer"))]),
                                    ),
                                ]),
                            ),
                            ("textB", s(" player!")),
                        ]),
                    ),
                ]),
            ),
        ])],
    ));
    assert_eq!(
        content,
        "send_chat_message_to_everyone('hi ' + IdOfPlayer(LastTriggeringPlayer()) + ' player!')\n"
    );
}

fn condition_list() -> JsonValue {
    arr(vec![
        obj(vec![("operandType", s("boolean")), ("operator", s("=="))]),
        b(true),
        b(true),
    ])
}

#[test]
fn parse_nested_conditions_into_pymodd() {
    let m = maps();
    let vars = empty_vars();
    let root = empty_root();
    let builder = ScriptsContentBuilder::new(&vars, &root, &m);
    let content = builder.build_actions_content(&parse_actions(
        &m,
        &vec![obj(vec![
            ("type", s("condition")),
            (
                "conditions",
                arr(vec![
                    obj(vec![("operandType", s("and")), ("operator", s("AND"))]),
                    condition_list(),
                    arr(vec![
                        obj(vec![("operandType", s("or")), ("operator", s("OR"))]),
                        condition_list(),
                        condition_list(),
                    ]),
                ]),
            ),
            ("then", arr(vec![])),
            ("else", arr(vec![])),
        ])],
    ));
    assert_eq!(content, "if True == True and (True == True or True == True):\n\tpass\n");
}

#[test]
fn parse_nested_if_statements_into_pymodd() {
    let m = maps();
    let vars = empty_vars();
    let root = empty_root();
    let builder = ScriptsContentBuilder::new(&vars, &root, &m);
    let msg = obj(vec![("type", s("sendChatMessage")), ("message", s("hi"))]);
    let inner = obj(vec![
        ("type", s("condition")),
        ("conditions", condition_list()),
        ("then", arr(vec![msg.clone()])),
        ("else", arr(vec![msg.clone()])),
    ]);
    let middle = obj(vec![
        ("type", s("condition")),
        ("conditions", condition_list()),
        ("then", arr(vec![inner])),
        ("else", arr(vec![msg.clone()])),
    ]);
    let content = builder.build_actions_content(&parse_actions(
        &m,
        &vec![obj(vec![
            ("type", s("condition")),
            ("conditions", condition_list()),
            ("then", arr(vec![middle])),
            ("else", arr(vec![msg])),
        ])],
    ));
    assert_eq!(
        content,
        "if True == True:\n\
            \tif True == True:\n\
                \t\tif True == True:\n\
                    \t\t\tsend_chat_message_to_everyone('hi')\n\
                \t\telse:\n\
                    \t\t\tsend_chat_message_to_everyone('hi')\n\
            \telse:\n\
                \t\tsend_chat_message_to_everyone('hi')\n\
        else:\n\
            \tsend_chat_message_to_everyone('hi')\n"
    );
}

#[test]
fn parse_nested_disabled_if_statements_into_pymodd() {
    let m = maps();
    let vars = empty_vars();
    let root = empty_root();
    let builder = ScriptsContentBuilder::new(&vars, &root, &m);
    let msg = obj(vec![("type", s("sendChatMessage")), ("message", s("hi"))]);
    let inner = obj(vec![
        ("type", s("condition")),
        ("conditions", condition_list()),
        ("then", arr(vec![msg.clone()])),
        ("else", arr(vec![msg.clone()])),
        ("disabled", b(true)),
    ]);
    let middle = obj(vec![
        ("type", s("condition")),
        ("conditions", condition_list()),
        ("then", arr(vec![inner.clone()])),
        ("else", arr(vec![msg.clone()])),
        ("disabled", b(true)),
    ]);
    let content = builder.build_actions_content(&parse_actions(
        &m,
        &vec![obj(vec![
            ("type", s("condition")),
            ("conditions", condition_list()),
            ("then", arr(vec![middle])),
            ("else", arr(vec![inner])),
        ])],
    ));
    assert_eq!(
        content,
        "if True == True:\n\
            \t# if True == True:\n\
            \t# \tif True == True:\n\
            \t# \t\tsend_chat_message_to_everyone('hi')\n\
            \t# \telse:\n\
            \t# \t\tsend_chat_message_to_everyone('hi')\n\
            \t# else:\n\
            \t# \tsend_chat_message_to_everyone('hi')\n\
            \tpass\n\
        else:\n\
            \t# if True == True:\n\
            \t# \tsend_chat_message_to_everyone('hi')\n\
            \t# else:\n\
            \t# \tsend_chat_message_to_everyone('hi')\n\
            \tpass\n"
    );
}

#[test]
fn parse_repeat_action_into_python() {
    let m = maps();
    let vars = empty_vars();
    let root = empty_root();
    let builder = ScriptsContentBuilder::new(&vars, &root, &m);
    let content = builder.build_actions_content(&parse_actions(
        &m,
        &vec![obj(vec![("type", s("repeat")), ("count", n(5)), ("actions", arr(vec![]))])],
    ));
    assert_eq!(content, "for _ in repeat(5):\n\tpass\n");
}

#[test]
fn parse_while_action_into_python() {
    let m = maps();
    let vars = empty_vars();
    let root = empty_root();
    let builder = ScriptsContentBuilder::new(&vars, &root, &m);
    let content = builder.build_actions_content(&parse_actions(
        &m,
        &vec![obj(vec![
            ("type", s("while")),
            (
                "conditions",
                arr(vec![
                    obj(vec![("operandType", s("boolean")), ("operator", s("=="))]),
                    obj(vec![
                        ("function", s("entityExists")),
                        ("entity", obj(vec![("function", s("getTriggeringUnit"))])),
                    ]),
                    b(true),
                ]),
            ),
            ("actions", arr(vec![])),
        ])],
    ));
    assert_eq!(content, "while EntityExists(LastTriggeringUnit()) == True:\n\tpass\n");
}

#[test]
fn parse_set_timeout_action_into_python() {
    let m = maps();
    let vars = empty_vars();
    let root = empty_root();
    let builder = ScriptsContentBuilder::new(&vars, &root, &m);
    let content = builder.build_actions_content(&parse_actions(
        &m,
        &vec![obj(vec![
            ("type", s("setTimeOut")),
            ("duration", n(1000)),
            ("actions", arr(vec![obj(vec![("type", s("stopMusic"))])])),
        ])],
    ));
    assert_eq!(content, "with after_timeout(1000):\n\tstop_music_for_everyone()\n");
}

#[test]
fn parse_disabled_while_action_into_python() {
    let m = maps();
    let vars = empty_vars();
    let root = empty_root();
    let builder = ScriptsContentBuilder::new(&vars, &root, &m);
    let content = builder.build_actions_content(&parse_actions(
        &m,
        &vec![obj(vec![
            ("type", s("while")),
            ("conditions", condition_list()),
            ("actions", arr(vec![])),
            ("disabled", b(true)),
        ])],
    ));
    assert_eq!(content, "# while True == True:\n# \tpass\n");
}

#[test]
fn parse_while_action_with_disabled_actions_into_python() {
    let m = maps();
    let vars = empty_vars();
    let root = empty_root();
    let builder = ScriptsContentBuilder::new(&vars, &root, &m);
    let content = builder.build_actions_content(&parse_actions(
        &m,
        &vec![obj(vec![
            ("type", s("while")),
            ("conditions", condition_list()),
            (
                "actions",
                arr(vec![obj(vec![
                    ("type", s("while")),
                    ("conditions", condition_list()),
                    ("actions", arr(vec![])),
                    ("disabled", b(true)),
                ])]),
            ),
        ])],
    ));
    assert_eq!(content, "while True == True:\n\t# while True == True:\n\t# \tpass\n\tpass\n");
}

#[test]
fn parse_for_each_type_in_function_action_into_pymodd() {
    let m = maps();
    let vars = empty_vars();
    let root = empty_root();
    let builder = ScriptsContentBuilder::new(&vars, &root, &m);
    let content = builder.build_actions_content(&parse_actions(
        &m,
        &vec![obj(vec![
            ("type", s("forAllEntities")),
            ("entityGroup", obj(vec![("function", s("allEntities"))])),
            (
                "actions",
                arr(vec![obj(vec![
                    ("type", s("destroyEntity")),
                    ("entity", obj(vec![("function", s("getSelectedEntity"))])),
                ])]),
            ),
        ])],
    ));
    assert_eq!(content, "for entity in AllEntitiesInTheGame():\n\tdestroy_entity(entity)\n");
}

#[test]
fn parse_run_script_action_into_pymodd() {
    let m = maps();
    let vars = empty_vars();
    let root = Directory {
        name: "root".to_string(),
        key: "null".to_string(),
        children: vec![DirectoryItem::Directory(Directory {
            name: "utils".to_string(),
            key: "n3DhW3".to_string(),
            children: vec![DirectoryItem::Script(Script::new(
                "spawn boss".to_string(),
                "If2aW3B".to_string(),
                vec![],
                vec![],
            ))],
        })],
    };
    let builder = ScriptsContentBuilder::new(&vars, &root, &m);
    let content = builder.build_actions_content(&parse_actions(
        &m,
        &vec![obj(vec![("type", s("runScript")), ("scriptName", s("If2aW3B"))])],
    ));
    assert_eq!(content, "run_script(spawn_boss())\n");
}

#[test]
fn script_content() {
    let m = maps();
    let vars = empty_vars();
    let root = empty_root();
    let builder = ScriptsContentBuilder::new(&vars, &root, &m);
    let content = builder.build_script_content(&Script::new(
        "initialize".to_string(),
        "WI31HDK".to_string(),
        vec!["gameStart".to_string()],
        vec![],
    ));
    assert_eq!(
        content,
        "@script(triggers=[Trigger.GAME_START])\ndef initialize():\n\tpass\n"
    );
}

#[test]
fn script_with_no_name() {
    let m = maps();
    let vars = empty_vars();
    let root = empty_root();
    let builder = ScriptsContentBuilder::new(&vars, &root, &m);
    let content = builder.build_script_content(&Script::new(
        "".to_string(),
        "WI31HDK".to_string(),
        vec![],
        vec![],
    ));
    assert_eq!(content, "@script(triggers=[])\ndef wi31hdk():\n\tpass\n");
}

#[test]
fn script_content_with_commented_body() {
    let m = maps();
    let vars = empty_vars();
    let root = empty_root();
    let builder = ScriptsContentBuilder::new(&vars, &root, &m);
    let content = builder.build_script_content(&Script::new(
        "initialize".to_string(),
        "WI31HDK".to_string(),
        vec!["gameStart".to_string()],
        parse_actions(&m, &vec![obj(vec![("type", s("break")), ("disabled", b(true))])]),
    ));
    assert_eq!(
        content,
        "@script(triggers=[Trigger.GAME_START])\ndef initialize():\n\t# break\n\tpass\n"
    );
}

#[test]
fn parse_variable_for_loop_into_pymodd() {
    let m = maps();
    let vars = CategoriesToVariables::new(vec![(
        "variables".to_string(),
        vec![Variable::new(
            "i",
            "i",
            vec![("dataType".to_string(), s("number"))],
        )],
    )]);
    let root = empty_root();
    let builder = ScriptsContentBuilder::new(&vars, &root, &m);
    let content = builder.build_actions_content(&parse_actions(
        &m,
        &vec![obj(vec![
            ("type", s("for")),
            ("variableName", s("i")),
            ("start", n(0)),
            ("stop", n(5)),
            ("actions", arr(vec![])),
        ])],
    ));
    assert_eq!(content, "for Variable.I in range(0, 5):\n\tpass\n");
}

#[test]
fn parse_for_each_type_in_variable_action_into_pymodd() {
    let mut m = maps();
    m.actions.push((
        "forAllItemTypes".to_string(),
        PymoddStructure::new("for_all_item_types", vec!["item_type_group", "actions"]),
    ));
    let vars = CategoriesToVariables::new(vec![(
        "itemTypeGroups".to_string(),
        vec![Variable::new("specialItemTypes", "specialItemTypes", vec![])],
    )]);
    let root = empty_root();
    let builder = ScriptsContentBuilder::new(&vars, &root, &m);
    let content = builder.build_actions_content(&parse_actions(
        &m,
        &vec![obj(vec![
            ("type", s("forAllItemTypes")),
            (
                "itemTypeGroup",
                obj(vec![("function", s("getVariable")), ("variableName", s("specialItemTypes"))]),
            ),
            ("actions", arr(vec![])),
        ])],
    ));
    assert_eq!(content, "for item_type in ItemTypeGroup.SPECIAL_ITEM_TYPES:\n\tpass\n");
}

#[test]
fn parse_for_each_type_in_multi_arg_function_action_into_pymodd() {
    let mut m = maps();
    m.actions.push((
        "forAllUnits".to_string(),
        PymoddStructure::new("for_all_units", vec!["unit_group", "actions"]),
    ));
    m.functions.push((
        "allUnitsInRegion".to_string(),
        PymoddStructure::new("AllUnitsInRegion", vec!["region"]),
    ));
    m.functions.push((
        "dynamicRegion".to_string(),
        PymoddStructure::new("DynamicRegion", vec!["x", "y", "width", "height"]),
    ));
    let vars = empty_vars();
    let root = empty_root();
    let builder = ScriptsContentBuilder::new(&vars, &root, &m);
    let content = builder.build_actions_content(&parse_actions(
        &m,
        &vec![obj(vec![
            ("type", s("forAllUnits")),
            (
                "unitGroup",
                obj(vec![
                    ("function", s("allUnitsInRegion")),
                    (
                        "region",
                        obj(vec![
                            ("function", s("dynamicRegion")),
                            ("x", n(0)),
                            ("y", n(0)),
                            ("width", n(5)),
                            ("height", n(5)),
                        ]),
                    ),
                ]),
            ),
            ("actions", arr(vec![])),
        ])],
    ));
    assert_eq!(content, "for unit in AllUnitsInRegion(DynamicRegion(0, 0, 5, 5)):\n\tpass\n");
}

#[test]
fn boolean_combine_parses_and_renders_as_infix() {
    // the boolean-combine tag with operator "==" over true,true becomes the
    // infix text
    let m = maps();
    let vars = empty_vars();
    let root = empty_root();
    let builder = ScriptsContentBuilder::new(&vars, &root, &m);
    let content = builder.build_actions_content(&parse_actions(
        &m,
        &vec![obj(vec![
            ("type", s("condition")),
            ("conditions", condition_list()),
            ("then", arr(vec![])),
            ("else", arr(vec![])),
        ])],
    ));
    assert_eq!(content, "if True == True:\n\tpass\n");
}
