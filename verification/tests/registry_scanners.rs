use pymodd::to_pymodd::{
    parse_pymodd_structure_of_pymodd_action_class, parse_pymodd_structure_of_pymodd_function_class,
};
use pymodd::to_pymodd_maps::{
    parse_pymodd_structure_of_pymodd_action_function, parse_pymodd_structure_of_pymodd_function_class
        as parse_new_function_class, PymoddStructure,
};

#[test]
fn parse_action_class() {
    assert_eq!(
        parse_pymodd_structure_of_pymodd_action_class(
            "class SetPlayerVariable(Action):\n\
                \tdef __init__(self, player, variable_type, value):\n\
                    \t\tself.action = 'setPlayerVariable'\n\
                    \t\tself.options = {\n\
                        \t\t\t'player': to_dict(player),\n\
                        \t\t\t'variable': to_dict(variable_type),\n\
                        \t\t\t'value': to_dict(value),\n\
                    }"
        ),
        PymoddStructure::new("SetPlayerVariable", vec!["player", "variable", "value"])
    );
    assert_eq!(
        parse_pymodd_structure_of_pymodd_action_class(
            "class EndGame(Action):\n\
                \tdef __init__(self):\n\
                    \t\tself.action = 'endGame'\n\
                    \t\tself.options = {}"
        ),
        PymoddStructure::new("EndGame", vec![])
    );
}

#[test]
fn parse_function_class() {
    assert_eq!(
        parse_pymodd_structure_of_pymodd_function_class(
            "class PlayerFromId(Player):\n\
                \tself.function = 'getPlayerFromId'\n\
                \tself.options = {\n\
                    \t\t'string': to_dict(string),\n\
                \t}"
        ),
        PymoddStructure::new("PlayerFromId", vec!["string"])
    );
    assert_eq!(
        parse_pymodd_structure_of_pymodd_function_class(
            "class Undefined(Function):\n\
                \tdef __init__(self):\n\
                    \t\tself.function = 'undefinedValue'\n\
                    \t\tself.options = {}"
        ),
        PymoddStructure::new("Undefined", vec![])
    );
}

#[test]
fn to_pymodd_maps_parse_action_class() {
    assert_eq!(
        parse_pymodd_structure_of_pymodd_action_function(
            "@action\n\
            def set_player_variable(player, variable_type, value, comment=None, disabled=False, run_on_client=False):\n\
                \treturn {\n\
                    \t\t'type': 'setPlayerVariable',\n\
                    \t\t'player': to_dict(player),\n\
                    \t\t'variable': to_dict(variable_type),\n\
                    \t\t'value': to_dict(value)\n\
                \t}"
        ),
        PymoddStructure::new(
            "set_player_variable",
            vec!["player", "variable_type", "value"]
        )
    );
    assert_eq!(
        parse_pymodd_structure_of_pymodd_action_function(
            "@action\n\
            def end_game(comment=None, disabled=False, run_on_client=False):\n\
                \treturn {\n\
                    \t\t'type': 'endGame',\n\
                \t}"
        ),
        PymoddStructure::new("end_game", vec![])
    );
}

#[test]
fn to_pymodd_maps_parse_function_class() {
    assert_eq!(
        parse_new_function_class(
            "class PlayerFromId(Player):\n\
                \tdef __init__(self, string):\n\
                \t\tself.function = 'getPlayerFromId'\n\
                \t\tself.options = {\n\
                    \t\t\t'string': to_dict(string),\n\
                \t\t}"
        ),
        PymoddStructure::new("PlayerFromId", vec!["string"])
    );
    assert_eq!(
        parse_new_function_class(
            "class Undefined(Function):\n\
                \tdef __init__(self):\n\
                    \t\tself.function = 'undefinedValue'\n\
                    \t\tself.options = {}"
        ),
        PymoddStructure::new("Undefined", vec![])
    );
}

#[test]
fn utils_valid_class_name() {
    assert!(pymodd::utils::is_valid_class_name("AppleGun"));
    // a split-out pseudo-category name
    assert!(!pymodd::utils::is_valid_class_name("Regions"));
    // a fixed category name
    assert!(!pymodd::utils::is_valid_class_name("Dialogues"));
    // a name starting with a number
    assert!(!pymodd::utils::is_valid_class_name("2BananaSword"));
}

#[test]
fn utils_string_surrounding_quotes() {
    // a string with no special characters
    assert_eq!(pymodd::utils::surrounding_quote_for_string("my name is bob"), "'");
    // a multiline string
    assert_eq!(pymodd::utils::surrounding_quote_for_string("Hi\nthere"), "'''");
    // a string with a single quote
    assert_eq!(
        pymodd::utils::surrounding_quote_for_string("bob's apples taste delicious"),
        "\""
    );
}
