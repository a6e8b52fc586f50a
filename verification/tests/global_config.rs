use dprint::configuration::ConfigKeyValue;
use dprint::configuration::ConfigMapValue;
use dprint::global_config::global_config_entries;
use dprint::global_config::GlobalConfigDiagnostic;

#[test]
fn global_config_keeps_plain_values_in_order() {
    let map = vec![
        ("$schema".to_string(), ConfigMapValue::from_str("https://dprint.dev/schemas/v0.json")),
        ("lineWidth".to_string(), ConfigMapValue::from_i32(80)),
        ("useTabs".to_string(), ConfigMapValue::from_bool(true)),
        ("newLineKind".to_string(), ConfigMapValue::from_str("crlf")),
    ];
    let (values, diagnostics) = global_config_entries(map);
    assert!(diagnostics.is_empty());
    let keys: Vec<&str> = values.iter().map(|(k, _)| k.as_str()).collect();
    // the last entry takes the place of the removed `$schema`
    assert_eq!(keys, vec!["newLineKind", "lineWidth", "useTabs"]);
    assert!(matches!(values[1].1, ConfigKeyValue::Number(80)));
    assert!(matches!(values[2].1, ConfigKeyValue::Bool(true)));
}

#[test]
fn global_config_reports_non_plain_properties() {
    let map = vec![
        ("test".to_string(), ConfigMapValue::Vec(vec!["a".to_string()])),
        ("indentWidth".to_string(), ConfigMapValue::from_i32(2)),
        ("other".to_string(), ConfigMapValue::Vec(vec![])),
    ];
    let (values, diagnostics) = global_config_entries(map);
    assert_eq!(values.len(), 1);
    assert_eq!(diagnostics.len(), 2);
    assert!(matches!(&diagnostics[0], GlobalConfigDiagnostic::UnknownProperty(d) if d.property_name == "test"));
    assert_eq!(diagnostics[0].to_string(), "Unexpected non-string, boolean, or int property (test)");
    assert_eq!(diagnostics[1].to_string(), "Unexpected non-string, boolean, or int property (other)");
}

use dprint::global_config::resolve_env_var_folder;
use dprint::global_config::resolve_mac_system_config_dir;
use dprint::global_config::resolve_system_config_dir;
use dprint::global_config::SystemConfigDirs;

// The directories of the test machine: the system's configuration directory
// is `/config` and the home directory `/home`.
fn dirs(os: &str, xdg: Option<&str>, has_dprint: bool) -> SystemConfigDirs {
    SystemConfigDirs {
        os: os.to_string(),
        xdg_config_home: xdg.map(|x| x.to_string()),
        config_dir: Some("/config".to_string()),
        config_dir_has_dprint: has_dprint,
        home_dir: Some("/home".to_string()),
    }
}

#[test]
fn test_resolve_system_config_dir_macos_with_xdg_config_home() {
    let result = resolve_system_config_dir(&dirs("macos", Some("/custom/xdg/config"), false));
    assert_eq!(result, Some("/custom/xdg/config".to_string()));
}

#[test]
fn test_resolve_system_config_dir_macos_with_empty_xdg_config_home() {
    // Empty XDG_CONFIG_HOME should be ignored, fall back to $HOME/.config
    let result = resolve_system_config_dir(&dirs("macos", Some(""), false));
    assert_eq!(result, Some("/home/.config".to_string()));
}

#[test]
fn test_resolve_system_config_dir_macos_with_existing_dprint_dir() {
    let result = resolve_system_config_dir(&dirs("macos", None, true));
    assert_eq!(result, Some("/config".to_string()));
}

#[test]
fn test_resolve_system_config_dir_macos_without_existing_dprint_dir() {
    let result = resolve_system_config_dir(&dirs("macos", None, false));
    assert_eq!(result, Some("/home/.config".to_string()));
}

#[test]
fn test_resolve_system_config_dir_macos_priority_xdg_over_existing() {
    let result = resolve_system_config_dir(&dirs("macos", Some("/custom/xdg"), true));
    assert_eq!(result, Some("/custom/xdg".to_string()));
}

#[test]
fn test_resolve_system_config_dir_linux() {
    let result = resolve_system_config_dir(&dirs("linux", None, false));
    assert_eq!(result, Some("/config".to_string()));
}

#[test]
fn test_resolve_system_config_dir_windows() {
    let result = resolve_system_config_dir(&dirs("windows", None, false));
    assert_eq!(result, Some("/config".to_string()));
}

#[test]
fn test_resolve_mac_system_config_dir_xdg_priority() {
    let result = resolve_mac_system_config_dir(&dirs("macos", Some("/xdg"), true));
    assert_eq!(result, Some("/xdg".to_string()));
}

#[test]
fn test_resolve_mac_system_config_dir_existing_dprint_priority() {
    let result = resolve_mac_system_config_dir(&dirs("macos", None, true));
    assert_eq!(result, Some("/config".to_string()));
}

#[test]
fn test_resolve_mac_system_config_dir_home_fallback() {
    let result = resolve_mac_system_config_dir(&dirs("macos", None, false));
    assert_eq!(result, Some("/home/.config".to_string()));
}

#[test]
fn test_resolve_env_var_folder_with_value() {
    assert_eq!(resolve_env_var_folder(Some("/some/path")), Some("/some/path".to_string()));
}

#[test]
fn test_resolve_env_var_folder_with_empty_value() {
    assert_eq!(resolve_env_var_folder(Some("")), None);
}

#[test]
fn test_resolve_env_var_folder_not_set() {
    assert_eq!(resolve_env_var_folder(None), None);
}

#[test]
fn should_ignore_schema_property() {
    let map = vec![("$schema".to_string(), ConfigMapValue::from_str("test"))];
    let (values, diagnostics) = global_config_entries(map);
    assert!(values.is_empty());
    assert!(diagnostics.is_empty());
}
