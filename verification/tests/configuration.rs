use dprint::configuration::RawPluginConfigOverride;
use dprint::configuration::ConfigKeyValue;
use dprint::configuration::ConfigMapValue;
use dprint::configuration::RawPluginConfig;
use dprint::configuration::merge_config_map_into;
use dprint::configuration::take_config_properties;
use dprint::configuration::take_array_from_config_map;
use dprint::configuration::take_bool_from_config_map;
use dprint::configuration::take_extends;
use dprint::configuration::get_plugin_config_map;
use dprint::configuration::shift_remove;
use dprint::configuration::TakeError;
use dprint::configuration::MergeError;

fn plugin(locked: bool, associations: Option<Vec<&str>>, props: Vec<(&str, ConfigKeyValue)>) -> ConfigMapValue {
    ConfigMapValue::PluginConfig(RawPluginConfig {
        associations: associations.map(|a| a.into_iter().map(|s| s.to_string()).collect()),
        locked,
        properties: props.into_iter().map(|(k, v)| (k.to_string(), v)).collect(),
        overrides: Vec::new(),
    })
}

fn props_of(value: &ConfigMapValue) -> Vec<(String, ConfigKeyValue)> {
    match value {
        ConfigMapValue::PluginConfig(c) => c
            .properties
            .iter()
            .map(|(k, v)| (k.clone(), match v {
                ConfigKeyValue::Number(n) => ConfigKeyValue::Number(*n),
                ConfigKeyValue::String(s) => ConfigKeyValue::String(s.clone()),
                ConfigKeyValue::Bool(b) => ConfigKeyValue::Bool(*b),
                _ => ConfigKeyValue::Null,
            }))
            .collect(),
        _ => panic!("expected plugin config"),
    }
}

fn number(value: &ConfigKeyValue) -> i32 {
    match value {
        ConfigKeyValue::Number(n) => *n,
        _ => panic!("expected number"),
    }
}

#[test]
fn should_error_extending_locked_config() {
    let mut target = vec![("test".to_string(), plugin(false, None, vec![("prop", ConfigKeyValue::Number(5))]))];
    let source = vec![(
        "test".to_string(),
        plugin(true, None, vec![("prop", ConfigKeyValue::Number(6)), ("other", ConfigKeyValue::String("test".to_string()))]),
    )];
    let err = merge_config_map_into(&mut target, source).err().unwrap();
    assert_eq!(
        err.to_string(),
        "The configuration for \"test\" was locked, but a parent configuration specified it. Locked configurations cannot have their properties overridden."
    );
    assert!(matches!(err, MergeError::Locked { .. }));
}

#[test]
fn should_handle_locked_on_upstream_config() {
    let mut target = vec![("test".to_string(), plugin(true, None, vec![("prop", ConfigKeyValue::Number(7))]))];
    let source = vec![(
        "test".to_string(),
        plugin(false, None, vec![("prop", ConfigKeyValue::Number(6)), ("other", ConfigKeyValue::String("test".to_string()))]),
    )];
    merge_config_map_into(&mut target, source).unwrap();
    let props = props_of(&target[0].1);
    assert_eq!(props.len(), 2);
    assert_eq!(props[0].0, "prop");
    assert_eq!(number(&props[0].1), 7);
    assert_eq!(props[1].0, "other");
    match &target[0].1 {
        ConfigMapValue::PluginConfig(c) => assert!(c.locked),
        _ => panic!(),
    }
}

#[test]
fn should_get_locked_config_and_not_care_if_no_properties_set_in_parent_config() {
    let mut target = vec![("test".to_string(), plugin(false, None, vec![]))];
    let source = vec![(
        "test".to_string(),
        plugin(true, None, vec![("prop", ConfigKeyValue::Number(6)), ("other", ConfigKeyValue::String("test".to_string()))]),
    )];
    merge_config_map_into(&mut target, source).unwrap();
    let props = props_of(&target[0].1);
    assert_eq!(props.len(), 2);
    assert_eq!(number(&props[0].1), 6);
}

#[test]
fn should_use_associations_on_extended_config() {
    let mut target = vec![("test".to_string(), plugin(false, None, vec![]))];
    let source = vec![("test".to_string(), plugin(false, Some(vec!["**/*.ts"]), vec![]))];
    merge_config_map_into(&mut target, source).unwrap();
    match &target[0].1 {
        ConfigMapValue::PluginConfig(c) => assert_eq!(c.associations, Some(vec!["**/*.ts".to_string()])),
        _ => panic!(),
    }
}

#[test]
fn should_override_associations_on_extended_config() {
    let mut target = vec![("test".to_string(), plugin(false, Some(vec!["**/*.js"]), vec![]))];
    let source = vec![("test".to_string(), plugin(false, Some(vec!["**/*.ts"]), vec![]))];
    merge_config_map_into(&mut target, source).unwrap();
    match &target[0].1 {
        ConfigMapValue::PluginConfig(c) => assert_eq!(c.associations, Some(vec!["**/*.js".to_string()])),
        _ => panic!(),
    }
}

#[test]
fn should_keep_target_values_and_add_missing_ones() {
    let mut target = vec![
        ("lineWidth".to_string(), ConfigMapValue::from_i32(80)),
        ("excludes".to_string(), ConfigMapValue::Vec(vec!["a".to_string()])),
    ];
    let source = vec![
        ("lineWidth".to_string(), ConfigMapValue::from_i32(120)),
        ("excludes".to_string(), ConfigMapValue::Vec(vec!["b".to_string()])),
        ("useTabs".to_string(), ConfigMapValue::from_bool(true)),
        ("test".to_string(), plugin(false, None, vec![("a", ConfigKeyValue::Number(1))])),
    ];
    merge_config_map_into(&mut target, source).unwrap();
    assert_eq!(target.len(), 4);
    assert!(matches!(&target[0].1, ConfigMapValue::KeyValue(ConfigKeyValue::Number(80))));
    assert!(matches!(&target[1].1, ConfigMapValue::Vec(v) if v == &vec!["a".to_string()]));
    assert_eq!(target[2].0, "useTabs");
    assert_eq!(target[3].0, "test");
}

#[test]
fn should_take_properties_from_config_map() {
    let mut map = vec![
        ("plugins".to_string(), ConfigMapValue::Vec(vec!["a.wasm".to_string()])),
        ("includes".to_string(), ConfigMapValue::Vec(vec!["**/*.ts".to_string()])),
        ("excludes".to_string(), ConfigMapValue::Vec(vec!["dist".to_string()])),
        ("incremental".to_string(), ConfigMapValue::from_bool(false)),
        ("projectType".to_string(), ConfigMapValue::from_str("openSource")),
        ("extends".to_string(), ConfigMapValue::from_str("https://x/y.json")),
        ("lineWidth".to_string(), ConfigMapValue::from_i32(80)),
    ];
    let props = take_config_properties(&mut map, true).unwrap();
    assert_eq!(props.plugins, vec!["a.wasm".to_string()]);
    assert_eq!(props.includes, Some(vec!["**/*.ts".to_string()]));
    assert_eq!(props.excludes, Some(vec!["dist".to_string()]));
    assert_eq!(props.incremental, Some(false));
    assert_eq!(props.inherit, None);
    assert_eq!(props.extends, vec!["https://x/y.json".to_string()]);
    assert!(!props.removed_remote_includes);
    assert_eq!(map.len(), 1);
    assert_eq!(map[0].0, "lineWidth");
}

#[test]
fn should_drop_includes_of_remote_config() {
    let mut map = vec![
        ("includes".to_string(), ConfigMapValue::Vec(vec!["/etc/**".to_string()])),
        ("excludes".to_string(), ConfigMapValue::Vec(vec!["dist".to_string()])),
    ];
    let props = take_config_properties(&mut map, false).unwrap();
    assert_eq!(props.includes, None);
    assert!(props.removed_remote_includes);
    assert_eq!(props.excludes, Some(vec!["dist".to_string()]));
    assert_eq!(map.len(), 0);
}

#[test]
fn should_error_taking_properties_of_wrong_kind() {
    let mut map = vec![("includes".to_string(), ConfigMapValue::from_bool(true))];
    let err = take_config_properties(&mut map, true).err().unwrap();
    assert_eq!(err.to_string(), "Expected array in 'includes' property.");

    let mut map = vec![("incremental".to_string(), ConfigMapValue::from_str("yes"))];
    let err = take_bool_from_config_map(&mut map, "incremental").err().unwrap();
    assert!(matches!(err, TakeError::ExpectedBool { .. }));
    assert_eq!(err.to_string(), "Expected boolean in 'incremental' property.");

    let mut map = vec![("extends".to_string(), ConfigMapValue::from_i32(1))];
    let err = take_extends(&mut map).err().unwrap();
    assert_eq!(err.to_string(), "Extends in configuration must be a string or an array of strings.");
}

#[test]
fn should_take_array_and_leave_others() {
    let mut map = vec![
        ("a".to_string(), ConfigMapValue::from_i32(1)),
        ("excludes".to_string(), ConfigMapValue::Vec(vec!["x".to_string()])),
        ("b".to_string(), ConfigMapValue::from_i32(2)),
    ];
    let v = take_array_from_config_map(&mut map, "excludes").unwrap();
    assert_eq!(v, Some(vec!["x".to_string()]));
    assert_eq!(map.len(), 2);
    assert_eq!(map[0].0, "a");
    assert_eq!(map[1].0, "b");
    assert_eq!(take_array_from_config_map(&mut map, "missing").unwrap(), None);
    let removed = shift_remove(&mut map, "a");
    assert!(removed.is_some());
    assert_eq!(map[0].0, "b");
}

#[test]
fn should_get_plugin_config_map() {
    let mut map = vec![("typescript".to_string(), plugin(false, None, vec![("lineWidth", ConfigKeyValue::Number(40))]))];
    let config = get_plugin_config_map("typescript", &mut map).unwrap();
    assert_eq!(config.properties.len(), 1);
    assert_eq!(map.len(), 0);
    let empty = get_plugin_config_map("json", &mut map).unwrap();
    assert!(empty.properties.is_empty());
    assert!(!empty.locked);
    let mut map = vec![("json".to_string(), ConfigMapValue::from_i32(1))];
    let err = get_plugin_config_map("json", &mut map).err().unwrap();
    assert_eq!(
        err.to_string(),
        "Error initializing from configuration file. Expected the configuration property 'json' to be an object."
    );
}

#[test]
fn should_get_config_for_plugin() {
    let mut config_map = vec![
        ("lineWidth".to_string(), ConfigMapValue::from_i32(80)),
        ("typescript".to_string(), plugin(false, None, vec![("lineWidth", ConfigKeyValue::Number(40))])),
    ];
    // the configuration key of the typescript plugin
    let result = get_plugin_config_map("typescript", &mut config_map).unwrap();
    assert!(!result.locked);
    assert!(result.associations.is_none());
    assert_eq!(result.properties.len(), 1);
    assert_eq!(result.properties[0].0, "lineWidth");
    assert!(matches!(result.properties[0].1, ConfigKeyValue::Number(40)));
    assert_eq!(config_map.iter().any(|(k, _)| k == "typescript"), false);
}

#[test]
fn should_error_plugin_key_is_not_object() {
    let mut config_map = vec![
        ("lineWidth".to_string(), ConfigMapValue::from_i32(80)),
        ("typescript".to_string(), ConfigMapValue::from_str("")),
    ];
    let result = get_plugin_config_map("typescript", &mut config_map);
    assert_eq!(
        result.err().unwrap().to_string(),
        format!("Error initializing from configuration file. {}", "Expected the configuration property 'typescript' to be an object.")
    );
}

fn with_overrides(locked: bool, props: Vec<(&str, ConfigKeyValue)>, overrides: Vec<(&str, i32)>) -> ConfigMapValue {
    ConfigMapValue::PluginConfig(RawPluginConfig {
        associations: None,
        locked,
        properties: props.into_iter().map(|(k, v)| (k.to_string(), v)).collect(),
        overrides: overrides
            .into_iter()
            .map(|(files, width)| RawPluginConfigOverride {
                files: vec![files.to_string()],
                properties: vec![("lineWidth".to_string(), ConfigKeyValue::Number(width))],
            })
            .collect(),
    })
}

#[test]
fn merge_orders_extended_overrides_before_own() {
    let mut target = vec![("test".to_string(), with_overrides(false, vec![], vec![("**/package.json", 80)]))];
    let source = vec![("test".to_string(), with_overrides(false, vec![], vec![("**/*.json", 100)]))];
    merge_config_map_into(&mut target, source).unwrap();
    match &target[0].1 {
        ConfigMapValue::PluginConfig(c) => {
            let files: Vec<String> = c.overrides.iter().map(|o| o.files[0].clone()).collect();
            assert_eq!(files, vec!["**/*.json".to_string(), "**/package.json".to_string()]);
        }
        _ => panic!("expected plugin config"),
    }
}

#[test]
fn merge_refuses_locked_config_overridden_by_overrides() {
    let mut target = vec![("test".to_string(), with_overrides(false, vec![], vec![("**/package.json", 100)]))];
    let source = vec![("test".to_string(), with_overrides(true, vec![("lineWidth", ConfigKeyValue::Number(80))], vec![]))];
    let err = merge_config_map_into(&mut target, source).unwrap_err();
    assert_eq!(
        err.to_string(),
        "The configuration for \"test\" was locked, but a parent configuration specified it. Locked configurations cannot have their properties overridden."
    );
}
