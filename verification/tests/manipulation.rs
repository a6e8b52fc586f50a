use dprint::config_edit::add_to_plugins_array;
use dprint::cache_meta::diagnostics_outcome;
use dprint::cache_meta::setup_plugin_dest;
use dprint::cache_meta::PluginKind;
use dprint::canonicalized_path_buf::CanonicalizedPathBuf;
use dprint::configuration::ResolveConfigError;
use dprint::manipulation::replace_text;
use dprint::manipulation::update_plugin_in_config;
use dprint::manipulation::NpmSpecifier;
use dprint::manipulation::parse_npm_specifier;
use dprint::manipulation::PluginReferenceText;
use dprint::manipulation::PluginUpdateInfo;

fn reference(text: &str, checksum: Option<&str>, kind: Option<PluginKind>, _is_npm: bool) -> PluginReferenceText {
    let without = text.to_string();
    let full = match checksum {
        Some(c) => format!("{}@{}", text, c),
        None => text.to_string(),
    };
    PluginReferenceText {
        text: full.clone(),
        full_text: full,
        without_checksum_text: without,
        checksum: checksum.map(|c| c.to_string()),
        kind,
        npm: None,
    }
}

/// An npm reference to `foo` at version `v` with the plugin file `path`, as
/// the update receives it: written without the default `/plugin.wasm`.
fn npm(v: &str, path: &str, checksum: Option<&str>, kind: PluginKind) -> PluginReferenceText {
    let base = if path == "plugin.wasm" { format!("npm:foo@{}", v) } else { format!("npm:foo@{}/{}", v, path) };
    let full = match checksum {
        Some(c) => format!("{}@{}", base, c),
        None => base.clone(),
    };
    PluginReferenceText {
        text: full.clone(),
        full_text: full,
        without_checksum_text: base,
        checksum: checksum.map(|c| c.to_string()),
        kind: Some(kind),
        npm: Some(NpmSpecifier { name: "foo".to_string(), version: Some(v.to_string()), path: path.to_string() }),
    }
}

fn info(old: PluginReferenceText, new: PluginReferenceText) -> PluginUpdateInfo {
    PluginUpdateInfo {
        name: "plugin".to_string(),
        old_version: "0.1.0".to_string(),
        old_reference: old,
        new_version: "0.2.0".to_string(),
        new_reference: new,
    }
}

#[test]
fn replace_text_replaces_every_occurrence() {
    assert_eq!(replace_text("a-b-c", "-", "+"), "a+b+c");
    assert_eq!(replace_text("aaa", "aa", "b"), "ba");
    assert_eq!(replace_text("abc", "x", "y"), "abc");
    assert_eq!(replace_text("", "x", "y"), "");
    assert_eq!(replace_text("ab", "", "-"), "-a-b-");
    assert_eq!(replace_text("", "", "-"), "-");
    assert_eq!(replace_text("héllo wörld", "ö", "oe"), "héllo woerld");
}

#[test]
fn wasm_update_without_previous_checksum_keeps_none() {
    let i = info(
        reference("https://plugins.dprint.dev/a-0.1.0.wasm", None, Some(PluginKind::Wasm), false),
        reference("https://plugins.dprint.dev/a-0.2.0.wasm", Some("abc"), Some(PluginKind::Wasm), false),
    );
    assert!(i.is_wasm());
    assert_eq!(i.get_full_new_config_url(), "https://plugins.dprint.dev/a-0.2.0.wasm");
}

#[test]
fn wasm_update_with_previous_checksum_adds_it() {
    let i = info(
        reference("https://plugins.dprint.dev/a-0.1.0.wasm", Some("old"), Some(PluginKind::Wasm), false),
        reference("https://plugins.dprint.dev/a-0.2.0.wasm", Some("abc"), Some(PluginKind::Wasm), false),
    );
    assert_eq!(i.get_full_new_config_url(), "https://plugins.dprint.dev/a-0.2.0.wasm@abc");
}

#[test]
fn process_update_always_has_checksum() {
    let i = info(
        reference("https://plugins.dprint.dev/p-0.1.0.json", None, Some(PluginKind::Process), false),
        reference("https://plugins.dprint.dev/p-0.2.0.json", Some("abc"), Some(PluginKind::Process), false),
    );
    assert!(!i.is_wasm());
    assert_eq!(i.get_full_new_config_url(), "https://plugins.dprint.dev/p-0.2.0.json@abc");
}

#[test]
fn update_plugin_in_config_replaces_url() {
    let i = info(
        reference("https://plugins.dprint.dev/a-0.1.0.wasm", None, Some(PluginKind::Wasm), false),
        reference("https://plugins.dprint.dev/a-0.2.0.wasm", Some("abc"), Some(PluginKind::Wasm), false),
    );
    let text = "{\n  \"plugins\": [\n    \"https://plugins.dprint.dev/a-0.1.0.wasm\"\n  ]\n}";
    assert_eq!(
        update_plugin_in_config(text, &i),
        "{\n  \"plugins\": [\n    \"https://plugins.dprint.dev/a-0.2.0.wasm\"\n  ]\n}"
    );
}

#[test]
fn update_plugin_in_config_npm_rewrites_explicit_default_path_entry() {
    let i = info(npm("1.0.0", "plugin.wasm", None, PluginKind::Wasm), npm("1.1.0", "plugin.wasm", None, PluginKind::Wasm));
    let input = "{\n  \"plugins\": [\n    \"npm:foo@1.0.0/plugin.wasm\"\n  ]\n}";
    let expected = "{\n  \"plugins\": [\n    \"npm:foo@1.1.0\"\n  ]\n}";
    assert_eq!(update_plugin_in_config(input, &i), expected);
}

#[test]
fn update_plugin_in_config_npm_rewrites_process_plugin_with_checksum() {
    let i = info(
        npm("1.0.0", "plugin.json", Some("oldsum"), PluginKind::Process),
        npm("1.1.0", "plugin.json", Some("newsum"), PluginKind::Process),
    );
    let input = "{\n  \"plugins\": [\n    \"npm:foo@1.0.0/plugin.json@oldsum\"\n  ]\n}";
    let expected = "{\n  \"plugins\": [\n    \"npm:foo@1.1.0/plugin.json@newsum\"\n  ]\n}";
    assert_eq!(update_plugin_in_config(input, &i), expected);
}

#[test]
fn update_plugin_in_config_npm_rewrites_duplicate_entries() {
    let i = info(npm("1.0.0", "plugin.wasm", None, PluginKind::Wasm), npm("1.1.0", "plugin.wasm", None, PluginKind::Wasm));
    let input = "{\n  \"plugins\": [\n    \"npm:foo@1.0.0\",\n    \"npm:foo@1.0.0\"\n  ]\n}";
    let expected = "{\n  \"plugins\": [\n    \"npm:foo@1.1.0\",\n    \"npm:foo@1.1.0\"\n  ]\n}";
    assert_eq!(update_plugin_in_config(input, &i), expected);
}

#[test]
fn update_plugin_in_config_npm_returns_file_unchanged_when_no_plugins_array() {
    let i = info(npm("1.0.0", "plugin.wasm", None, PluginKind::Wasm), npm("1.1.0", "plugin.wasm", None, PluginKind::Wasm));
    let input = "{\n  \"extends\": \"./shared.json\",\n  \"//\": \"would have been corrupted by a textual replace of npm:foo@1.0.0\"\n}";
    assert_eq!(update_plugin_in_config(input, &i), input);
}

#[test]
fn update_plugin_in_config_npm_leaves_other_entries_alone() {
    let i = info(npm("1.0.0", "plugin.wasm", None, PluginKind::Wasm), npm("1.1.0", "plugin.wasm", None, PluginKind::Wasm));
    let input = "{\n  \"plugins\": [\n    \"npm:foo@1.0.0\",\n    \"npm:foo@1.0.0/plugin.json@somesum\"\n  ]\n}";
    let expected = "{\n  \"plugins\": [\n    \"npm:foo@1.1.0\",\n    \"npm:foo@1.0.0/plugin.json@somesum\"\n  ]\n}";
    assert_eq!(update_plugin_in_config(input, &i), expected);
}

#[test]
fn update_plugin_in_config_npm_keeps_text_that_does_not_parse() {
    let i = info(npm("1.0.0", "plugin.wasm", None, PluginKind::Wasm), npm("1.1.0", "plugin.wasm", None, PluginKind::Wasm));
    assert_eq!(update_plugin_in_config("{ \"plugins\": [\"npm:foo@1.0.0\"", &i), "{ \"plugins\": [\"npm:foo@1.0.0\"");
}

#[test]
fn parse_npm_specifier_reads_each_part() {
    let (s, c) = parse_npm_specifier("npm:@scope/pkg@1.2.3/dist/plugin.json@sum").unwrap();
    assert_eq!((s.name.as_str(), s.version.as_deref(), s.path.as_str(), c.as_deref()), ("@scope/pkg", Some("1.2.3"), "dist/plugin.json", Some("sum")));
    let (s, c) = parse_npm_specifier("npm:foo").unwrap();
    assert_eq!((s.name.as_str(), s.version, s.path.as_str(), c), ("foo", None, "plugin.wasm", None));
    let (s, c) = parse_npm_specifier("npm:foo@1.0.0@sum").unwrap();
    assert_eq!((s.version.as_deref(), s.path.as_str(), c.as_deref()), (Some("1.0.0"), "plugin.wasm", Some("sum")));
    assert!(parse_npm_specifier("https://plugins.dprint.dev/a.wasm").is_none());
    assert!(parse_npm_specifier("npm:").is_none());
    assert!(parse_npm_specifier("npm:@1.0.0").is_some());
}

#[test]
fn setup_plugin_dest_paths() {
    let dest = setup_plugin_dest("abc", "/cache");
    assert_eq!(dest.wasm_file_path, "/cache/plugins/abc.cwasm");
    assert_eq!(dest.process_dir_path, "/cache/plugins/abc");
}

#[test]
fn diagnostics_outcome_errors_when_any() {
    assert!(diagnostics_outcome("typescript", 0).is_ok());
    let err = diagnostics_outcome("typescript", 3).unwrap_err();
    assert_eq!(err.to_string(), "[typescript]: Error initializing from configuration file. Had 3 diagnostic(s).");
}

#[test]
fn resolve_config_error_messages() {
    let err = ResolveConfigError::NotFound { config_path: CanonicalizedPathBuf::new_for_testing("/dir/dprint.json"), inner: None };
    assert!(err.to_string().starts_with("No config file found at /dir/dprint.json. Did you mean to create (dprint init)"));
    assert_eq!(
        ResolveConfigError::ConfigDiscoveryDisabled.to_string(),
        "Config discovery was disabled and no plugins (--plugins <url/path>) and/or config (--config <path>) was specified."
    );
    assert_eq!(ResolveConfigError::Other("x".to_string()).to_string(), "x");
}

#[test]
pub fn add_plugins_array_empty() {
    let final_text = add_to_plugins_array("{\n  \"plugins\": []\n}", "value").unwrap();
    assert_eq!(final_text, "{\n  \"plugins\": [\n    \"value\"\n  ]\n}");
}

#[test]
pub fn add_plugins_array_empty_comment() {
    let final_text = add_to_plugins_array("{\n  \"plugins\": [\n    // some comment\n  ]\n}", "value").unwrap();
    assert_eq!(final_text, "{\n  \"plugins\": [\n    // some comment\n    \"value\"\n  ]\n}");
}

#[test]
pub fn add_plugins_not_empty() {
    let final_text = add_to_plugins_array("{\n  \"plugins\": [\n    \"some_value\"\n  ]\n}", "value").unwrap();
    assert_eq!(final_text, "{\n  \"plugins\": [\n    \"some_value\",\n    \"value\"\n  ]\n}");
}

#[test]
pub fn add_plugins_trailing_comma() {
    let final_text = add_to_plugins_array("{\n  \"plugins\": [\n    \"some_value\",\n  ]\n}", "value").unwrap();
    assert_eq!(final_text, "{\n  \"plugins\": [\n    \"some_value\",\n    \"value\",\n  ]\n}");
}

#[test]
pub fn add_plugins_trailing_comment() {
    let final_text = add_to_plugins_array("{\n  \"plugins\": [\n    \"some_value\" // comment\n  ]\n}", "value").unwrap();
    assert_eq!(final_text, "{\n  \"plugins\": [\n    \"some_value\", // comment\n    \"value\"\n  ]\n}");
}

#[test]
fn add_to_plugins_array_refuses_text_that_does_not_parse() {
    let err = add_to_plugins_array("{ \"plugins\": [", "value").unwrap_err();
    assert!(err.to_string().starts_with("Failed parsing config file.: "));
}

#[test]
fn update_plugin_in_config_npm_writes_the_planned_value_for_a_repeated_plugins_key() {
    // the syntax tree reads the first `plugins` array, the JSON value the last
    let text = "{\n  \"plugins\": [\"x\"],\n  \"plugins\": [\"npm:foo@1.0.0\"]\n}";
    let update = info(npm("1.0.0", "plugin.wasm", None, PluginKind::Wasm), npm("1.1.0", "plugin.wasm", None, PluginKind::Wasm));
    assert_eq!(update_plugin_in_config(text, &update), "{\"plugins\":[\"npm:foo@1.1.0\"]}");
}

#[test]
fn add_to_plugins_array_creates_the_array_and_the_root_object() {
    let text = add_to_plugins_array("{\n  \"a\": 1\n}", "https://plugins.dprint.dev/x.wasm").unwrap();
    assert!(text.contains("\"a\": 1"));
    assert!(text.contains("\"plugins\": [\n    \"https://plugins.dprint.dev/x.wasm\"\n  ]"));
    let text = add_to_plugins_array("", "x").unwrap();
    assert!(text.contains("\"plugins\""));
    assert!(text.contains("\"x\""));
}

#[test]
fn add_to_plugins_array_writes_the_planned_value_for_a_repeated_plugins_key() {
    let text = add_to_plugins_array("{\n  \"plugins\": [],\n  \"plugins\": [\"a\"]\n}", "b").unwrap();
    assert_eq!(text, "{\"plugins\":[\"a\",\"b\"]}");
}
