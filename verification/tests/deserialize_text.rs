use dprint::configuration::ConfigKeyValue;
use dprint::configuration::ConfigMapValue;
use dprint::deserialize::deserialize_config_text;

fn deserialize_text(text: &str) -> Result<Vec<(String, ConfigMapValue)>, String> {
    deserialize_config_text(text).map_err(|e| e.to_string())
}

fn assert_error(text: &str, expected_err: &str) {
    match deserialize_text(text) {
        Ok(_) => panic!("Did not error, but that was expected."),
        Err(err) => assert_eq!(err, expected_err),
    }
}

fn find<'a>(map: &'a [(String, ConfigMapValue)], key: &str) -> &'a ConfigMapValue {
    &map.iter().find(|(k, _)| k == key).unwrap().1
}

fn find_value<'a>(map: &'a [(String, ConfigKeyValue)], key: &str) -> &'a ConfigKeyValue {
    &map.iter().find(|(k, _)| k == key).unwrap().1
}

#[test]
fn should_error_when_no_object_in_root() {
    assert_error("[]", "Expected a root object in the json");
}

#[test]
fn should_error_when_the_root_property_has_an_unexpected_value_type() {
    assert_error("{'prop': null}", "Expected an object, boolean, string, or number in root object property 'prop'");
}

#[test]
fn should_error_when_the_sub_object_has_object() {
    assert_error("{'prop': { 'test': {}}}", "Expected a boolean, string, or number in object property 'prop -> test'");
}

#[test]
fn should_deserialize_empty_object() {
    assert!(deserialize_text("{}").unwrap().is_empty());
}

#[test]
fn should_deserialize_full_object() {
    let result =
        deserialize_text("{'includes': [], 'typescript': { 'lineWidth': 40, 'preferSingleLine': true, 'other': 'test' }}").unwrap();
    assert_eq!(result.len(), 2);
    assert!(matches!(find(&result, "includes"), ConfigMapValue::Vec(v) if v.is_empty()));
    match find(&result, "typescript") {
        ConfigMapValue::PluginConfig(c) => {
            assert!(!c.locked);
            assert!(c.associations.is_none());
            assert_eq!(c.properties.len(), 3);
            assert!(matches!(find_value(&c.properties, "lineWidth"), ConfigKeyValue::Number(40)));
            assert!(matches!(find_value(&c.properties, "preferSingleLine"), ConfigKeyValue::Bool(true)));
            assert!(matches!(find_value(&c.properties, "other"), ConfigKeyValue::String(s) if s == "test"));
        }
        _ => panic!("expected a plugin configuration"),
    }
}

#[test]
fn should_deserialize_cli_specific_plugin_config() {
    let result = deserialize_text(
        "{'typescript': { 'lineWidth': 40, locked: true, associations: 'test' }, 'other': { 'locked': false, 'associations': ['other', 'test'] }}",
    )
    .unwrap();
    assert_eq!(result.len(), 2);
    match find(&result, "typescript") {
        ConfigMapValue::PluginConfig(c) => {
            assert!(c.locked);
            assert_eq!(c.associations, Some(vec!["test".to_string()]));
            assert_eq!(c.properties.len(), 1);
            assert!(matches!(find_value(&c.properties, "lineWidth"), ConfigKeyValue::Number(40)));
        }
        _ => panic!("expected a plugin configuration"),
    }
    match find(&result, "other") {
        ConfigMapValue::PluginConfig(c) => {
            assert!(!c.locked);
            assert_eq!(c.associations, Some(vec!["other".to_string(), "test".to_string()]));
            assert!(c.properties.is_empty());
        }
        _ => panic!("expected a plugin configuration"),
    }
}

#[test]
fn error_invalid_cli_specific_properties() {
    assert_error(
        "{'typescript': { 'associations': [1] }}",
        "The 'associations' array in a plugin configuration must contain only strings.",
    );
    assert_error(
        "{'typescript': { 'associations': 1 }}",
        "The 'associations' property in a plugin configuration must be a string or an array of strings.",
    );
    assert_error("{'typescript': { locked: 1 }}", "The 'locked' property in a plugin configuration must be a boolean.");
}

// The properties the resolver takes out of a configuration file's text.
fn properties_of(text: &str, is_local: bool) -> (dprint::configuration::ConfigProperties, Vec<(String, ConfigMapValue)>) {
    let mut map = deserialize_text(text).unwrap();
    let props = dprint::configuration::take_config_properties(&mut map, is_local).unwrap();
    (props, map)
}

#[test]
fn should_handle_incremental_flag_when_not_specified() {
    let (result, _) = properties_of(r#"{ "plugins": ["./testing/asdf.wasm"], }"#, true);
    assert_eq!(result.incremental, None);
}

#[test]
fn should_handle_incremental_flag_when_true() {
    let (result, _) = properties_of(r#"{ "incremental": true, "plugins": ["./testing/asdf.wasm"], }"#, true);
    assert_eq!(result.incremental, Some(true));
}

#[test]
fn should_handle_incremental_flag_when_false() {
    let (result, _) = properties_of(r#"{ "incremental": false, "plugins": ["./testing/asdf.wasm"], }"#, true);
    assert_eq!(result.incremental, Some(false));
}

#[test]
fn should_parse_inherit_property() {
    let (result, map) = properties_of(r#"{ "inherit": true, "plugins": ["./testing/asdf.wasm"], }"#, true);
    assert_eq!(result.inherit, Some(true));
    // should not leak into the config map (which would cause an unknown property diagnostic)
    assert!(!map.iter().any(|(k, _)| k == "inherit"));
}

#[test]
fn should_ignore_project_type() {
    let (result, map) = properties_of(
        r#"{
            "projectType": "openSource",
            "plugins": ["https://plugins.dprint.dev/test-plugin.wasm"],
            "includes": ["test"],
            "excludes": ["test"]
        }"#,
        true,
    );
    assert!(map.is_empty()); // should not include projectType
    assert_eq!(result.plugins, vec!["https://plugins.dprint.dev/test-plugin.wasm".to_string()]);
    assert_eq!(result.includes, Some(vec!["test".to_string()]));
}

#[test]
fn remote_configuration_drops_includes() {
    let (result, _) = properties_of(r#"{ "includes": ["**/*.ts"], "excludes": ["dist"] }"#, false);
    assert!(result.removed_remote_includes);
    assert_eq!(result.includes, None);
    assert_eq!(result.excludes, Some(vec!["dist".to_string()]));
}

#[test]
fn parse_errors_come_from_the_parser() {
    match dprint::deserialize::deserialize_config_text("{prop}") {
        Err(dprint::deserialize::DeserializeTextError::Parse(m)) => assert!(m.starts_with("Unexpected token on line 1 column 2"), "{m}"),
        _ => panic!("expected a parse error"),
    }
    assert!(deserialize_text("").unwrap_err().contains("root object"));
}
