use dprint::changes::ConfigChange;
use dprint::changes::ConfigChangeKind;
use dprint::changes::ConfigChangePathItem;
use dprint::config_edit::apply_config_changes;
use dprint::configuration::ConfigKeyValue;

fn key(name: &str) -> ConfigChangePathItem {
    ConfigChangePathItem::String(name.to_string())
}

fn index(i: usize) -> ConfigChangePathItem {
    ConfigChangePathItem::Number(i)
}

fn change(path: Vec<ConfigChangePathItem>, kind: ConfigChangeKind) -> ConfigChange {
    ConfigChange { path, kind }
}

fn obj(entries: Vec<(&str, ConfigKeyValue)>) -> ConfigKeyValue {
    ConfigKeyValue::Object(entries.into_iter().map(|(k, v)| (k.to_string(), v)).collect())
}

fn run_config_change_test(file_text: &str, changes: Vec<ConfigChange>, expected_text: &str, diagnostics: &[&str]) {
    let result = apply_config_changes(file_text, "plugin", &changes);
    assert_eq!(result.diagnostics, diagnostics);
    assert_eq!(result.new_text, expected_text);
}

#[test]
fn test_add_into_object() {
    run_config_change_test(
        "{\n  \"plugin\": {\n    \"other\": 5\n  }\n}",
        vec![change(vec![key("test")], ConfigChangeKind::Add(ConfigKeyValue::Bool(true)))],
        "{\n  \"plugin\": {\n    \"other\": 5,\n    \"test\": true\n  }\n}",
        &[],
    );
    run_config_change_test(
        "{\n  \"plugin\": {\n    \"other\": 5,\n  }\n}",
        vec![change(vec![key("test")], ConfigChangeKind::Add(ConfigKeyValue::Bool(true)))],
        "{\n  \"plugin\": {\n    \"other\": 5,\n    \"test\": true,\n  }\n}",
        &[],
    );
    run_config_change_test(
        "{\n  \"plugin\": {\n  }\n}",
        vec![
            change(vec![key("test")], ConfigChangeKind::Add(ConfigKeyValue::Bool(true))),
            change(vec![key("other")], ConfigChangeKind::Add(obj(vec![("test", ConfigKeyValue::Bool(true))]))),
        ],
        "{\n  \"plugin\": {\n    \"test\": true,\n    \"other\": {\n      \"test\": true\n    }\n  }\n}",
        &[],
    );
}

#[test]
fn test_add_into_array() {
    run_config_change_test(
        "{\n  \"plugin\": {\n    \"other\": [\n      \"test\"\n    ]\n  }\n}",
        vec![change(vec![key("other")], ConfigChangeKind::Add(ConfigKeyValue::String("other".to_string())))],
        "{\n  \"plugin\": {\n    \"other\": [\n      \"test\",\n      \"other\"\n    ]\n  }\n}",
        &[],
    );
    run_config_change_test(
        "{\n  \"plugin\": {\n    \"other\": [\n      \"test\",\n    ]\n  }\n}",
        vec![change(vec![key("other")], ConfigChangeKind::Add(ConfigKeyValue::Number(5)))],
        "{\n  \"plugin\": {\n    \"other\": [\n      \"test\",\n      5,\n    ]\n  }\n}",
        &[],
    );
    run_config_change_test(
        "{\n  \"plugin\": {\n    \"other\": [\n    ],\n    \"array\": [\n      {\n        \"prop\": {\n        }\n      },\n      true,\n    ]\n  }\n}",
        vec![
            change(vec![key("other")], ConfigChangeKind::Add(ConfigKeyValue::Bool(true))),
            change(vec![key("other")], ConfigChangeKind::Add(obj(vec![("test", ConfigKeyValue::Bool(true))]))),
            change(
                vec![key("array"), index(0), key("prop"), key("sub")],
                ConfigChangeKind::Add(ConfigKeyValue::Array(vec![ConfigKeyValue::String("test".to_string())])),
            ),
        ],
        "{\n  \"plugin\": {\n    \"other\": [\n      true,\n      {\n        \"test\": true\n      }\n    ],\n    \"array\": [\n      {\n        \"prop\": {\n          \"sub\": [\"test\"]\n        }\n      },\n      true,\n    ]\n  }\n}",
        &[],
    );
}

#[test]
fn test_set_values() {
    run_config_change_test(
        "{\n  \"plugin\": {\n    \"other\": 5\n  }\n}",
        vec![change(vec![key("other")], ConfigChangeKind::SetTo(ConfigKeyValue::Bool(true)))],
        "{\n  \"plugin\": {\n    \"other\": true\n  }\n}",
        &[],
    );
    run_config_change_test(
        "{\n  \"plugin\": {\n    \"other\": [\n      \"value\",\n      5,\n      2\n    ],\n    \"next\": {\n      \"asdf\": [\n        true,\n        {\n          \"asdf\": 5,\n        }\n      ]\n    }\n  }\n}",
        vec![
            change(vec![key("other")], ConfigChangeKind::SetTo(obj(vec![("test", ConfigKeyValue::Bool(true))]))),
            change(
                vec![key("next"), key("asdf"), index(1)],
                ConfigChangeKind::SetTo(ConfigKeyValue::Array(vec![
                    ConfigKeyValue::Bool(true),
                    ConfigKeyValue::String("value".to_string()),
                ])),
            ),
        ],
        "{\n  \"plugin\": {\n    \"other\": {\n      \"test\": true\n    },\n    \"next\": {\n      \"asdf\": [\n        true,\n        [true, \"value\"]\n      ]\n    }\n  }\n}",
        &[],
    );
}

#[test]
fn test_remove_values() {
    run_config_change_test(
        "{\n  \"plugin\": {\n    \"other\": 5,\n    \"prop\": [\n      1,\n      2\n    ]\n  }\n}",
        vec![
            change(vec![key("other")], ConfigChangeKind::Remove),
            change(vec![key("prop"), index(0)], ConfigChangeKind::Remove),
        ],
        "{\n  \"plugin\": {\n    \"prop\": [\n      2\n    ]\n  }\n}",
        &[],
    );
    run_config_change_test(
        "{\n  \"plugin\": {\n    \"other\": 5,\n    \"prop\": [\n      1,\n      2\n    ]\n  }\n}",
        vec![
            change(vec![key("other")], ConfigChangeKind::Remove),
            change(vec![key("add")], ConfigChangeKind::Add(ConfigKeyValue::Bool(true))),
            change(vec![key("prop"), index(0)], ConfigChangeKind::Remove),
            change(vec![key("prop")], ConfigChangeKind::Add(ConfigKeyValue::Bool(false))),
        ],
        "{\n  \"plugin\": {\n    \"prop\": [\n      2,\n      false\n    ],\n    \"add\": true\n  }\n}",
        &[],
    );
}

#[test]
fn apply_config_changes_reports_failures() {
    let text = "{\n  \"plugin\": {\n    \"other\": 5\n  }\n}";
    let result = apply_config_changes(
        text,
        "plugin",
        &vec![
            change(vec![key("missing")], ConfigChangeKind::Remove),
            change(vec![key("other"), key("x")], ConfigChangeKind::Add(ConfigKeyValue::Bool(true))),
        ],
    );
    assert_eq!(
        result.diagnostics,
        vec![
            "Failed removing item at path 'plugin.missing': Expected property 'missing'.".to_string(),
            "Failed adding item at path 'plugin.other.x': Unsupported. Could not add into \"5\" with string key 'x'".to_string(),
        ]
    );
    assert_eq!(result.new_text, text);
}

#[test]
fn apply_config_changes_keeps_text_that_does_not_parse() {
    let result = apply_config_changes("{ \"plugin\": ", "plugin", &vec![change(vec![key("a")], ConfigChangeKind::Remove)]);
    assert_eq!(result.new_text, "{ \"plugin\": ");
    assert_eq!(result.diagnostics.len(), 1);
    assert!(result.diagnostics[0].starts_with("Failed applying change since config file failed to parse: "));
}

#[test]
fn apply_config_changes_without_plugin_section_gives_nothing() {
    let result = apply_config_changes("{}", "plugin", &vec![change(vec![key("a")], ConfigChangeKind::Remove)]);
    assert_eq!(result.new_text, "");
    assert!(result.diagnostics.is_empty());
}

#[test]
fn apply_config_changes_writes_the_planned_value_when_the_tree_reads_differently() {
    // the section repeats "a": the syntax tree removes the first one, while
    // the file's JSON value holds the second, so the planned value is
    // written out
    let result = apply_config_changes(
        "{\n  \"plugin\": {\n    \"a\": 1,\n    \"a\": 2\n  },\n  \"b\": \"q\\\"\"\n}",
        "plugin",
        &vec![change(vec![key("a")], ConfigChangeKind::Remove)],
    );
    assert_eq!(result.new_text, "{\"plugin\":{},\"b\":\"q\\\"\"}");
    assert!(result.diagnostics.is_empty());
}

#[test]
fn apply_config_changes_without_changes_gives_the_text_back() {
    let text = "{\n  // comment\n  \"plugin\": { \"a\": 1 }\n}";
    let result = apply_config_changes(text, "plugin", &vec![]);
    assert_eq!(result.new_text, text);
    assert!(result.diagnostics.is_empty());
}

#[test]
fn apply_config_changes_sets_negative_numbers_and_nested_values() {
    run_config_change_test(
        "{\n  \"plugin\": {\n    \"a\": 1\n  }\n}",
        vec![
            change(vec![key("a")], ConfigChangeKind::SetTo(ConfigKeyValue::Number(-12))),
            change(vec![key("b")], ConfigChangeKind::Add(obj(vec![("c", ConfigKeyValue::String("x\"y".to_string()))]))),
        ],
        "{\n  \"plugin\": {\n    \"a\": -12,\n    \"b\": {\n      \"c\": \"x\\\"y\"\n    }\n  }\n}",
        &[],
    );
}
