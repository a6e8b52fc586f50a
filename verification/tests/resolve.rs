use dprint::cache_meta::PluginKind;
use dprint::canonicalized_path_buf::CanonicalizedPathBuf;
use dprint::configuration::ConfigKeyValue;
use dprint::configuration::ConfigMapValue;
use dprint::configuration::RawPluginConfig;
use dprint::resolve::PluginSourceReference;
use dprint::resolve::ResolvedConfig;
use dprint::resolve::combine_extended_config;
use dprint::resolve::config_file_plugins;
use dprint::resolve::filter_duplicate_plugin_sources;
use dprint::resolve::filter_non_wasm_plugins;
use dprint::resolve::get_warn_includes_message;
use dprint::resolve::get_warn_non_wasm_plugins_message;
use dprint::resolve::inherit_config;
use dprint::resolve::inherit_excludes;
use dprint::resolve::combine_excludes;
use dprint::resolve::rebase_pattern;

fn remote(url: &str) -> PluginSourceReference {
    let kind = if url.ends_with(".wasm") {
        Some(PluginKind::Wasm)
    } else if url.contains(".json") {
        Some(PluginKind::Process)
    } else {
        None
    };
    PluginSourceReference { path_source: url.to_string(), checksum: None, plugin_kind: kind }
}

fn sources(plugins: &[PluginSourceReference]) -> Vec<String> {
    plugins.iter().map(|p| p.path_source.clone()).collect()
}

fn strings(items: &[&str]) -> Vec<String> {
    items.iter().map(|s| s.to_string()).collect()
}

fn plugin_config(locked: bool, props: Vec<(&str, ConfigKeyValue)>) -> ConfigMapValue {
    ConfigMapValue::PluginConfig(RawPluginConfig {
        associations: None,
        locked,
        properties: props.into_iter().map(|(k, v)| (k.to_string(), v)).collect(),
        overrides: Vec::new(),
    })
}

fn describe(value: &ConfigKeyValue) -> String {
    match value {
        ConfigKeyValue::Number(n) => format!("{}", n),
        ConfigKeyValue::String(s) => format!("\"{}\"", s),
        ConfigKeyValue::Bool(b) => format!("{}", b),
        _ => "other".to_string(),
    }
}

fn describe_map(map: &[(String, ConfigMapValue)]) -> Vec<String> {
    map.iter()
        .map(|(k, v)| match v {
            ConfigMapValue::KeyValue(kv) => format!("{}={}", k, describe(kv)),
            ConfigMapValue::Vec(items) => format!("{}={:?}", k, items),
            ConfigMapValue::PluginConfig(c) => format!(
                "{}:{{{}}}",
                k,
                c.properties.iter().map(|(pk, pv)| format!("{}={}", pk, describe(pv))).collect::<Vec<_>>().join(",")
            ),
        })
        .collect()
}

fn config(source: &str, base: &str) -> ResolvedConfig {
    ResolvedConfig {
        source: source.to_string(),
        base_path: CanonicalizedPathBuf::new_for_testing(base),
        is_global: false,
        includes: None,
        excludes: None,
        plugins: Vec::new(),
        incremental: None,
        inherit: None,
        config_map: Vec::new(),
    }
}

#[test]
fn inherit_config_should_merge_ancestor_config() {
    let mut parent = config("/dprint.json", "/");
    parent.includes = Some(strings(&["**/*.txt"]));
    parent.excludes = Some(strings(&["**/node_modules", "dist"]));
    parent.plugins = vec![
        remote("https://plugins.dprint.dev/test-plugin.wasm"),
        remote("https://plugins.dprint.dev/json.wasm"),
    ];
    parent.incremental = Some(true);
    parent.config_map = vec![
        ("lineWidth".to_string(), ConfigMapValue::from_i32(80)),
        (
            "test".to_string(),
            plugin_config(false, vec![
                ("indentWidth", ConfigKeyValue::Number(4)),
                ("newLineKind", ConfigKeyValue::String("crlf".to_string())),
            ]),
        ),
    ];
    let mut child = config("/sub/dprint.json", "/sub");
    child.excludes = Some(strings(&["sub-excludes"]));
    child.plugins = vec![remote("https://plugins.dprint.dev/test-plugin.wasm")];
    child.inherit = Some(true);
    child.config_map = vec![("test".to_string(), plugin_config(false, vec![("indentWidth", ConfigKeyValue::Number(2))]))];

    let result = inherit_config(child, &parent).unwrap();
    assert_eq!(
        sources(&result.plugins),
        strings(&["https://plugins.dprint.dev/test-plugin.wasm", "https://plugins.dprint.dev/json.wasm"])
    );
    assert_eq!(result.excludes, Some(strings(&["**/node_modules", "sub-excludes"])));
    assert_eq!(result.includes, None);
    assert_eq!(result.incremental, Some(true));
    assert_eq!(describe_map(&result.config_map), vec!["test:{indentWidth=2,newLineKind=\"crlf\"}", "lineWidth=80"]);
}

#[test]
fn inherit_config_should_error_overriding_locked_ancestor_config() {
    let mut parent = config("/dprint.json", "/");
    parent.config_map = vec![("test".to_string(), plugin_config(true, vec![("indentWidth", ConfigKeyValue::Number(4))]))];
    let mut child = config("/sub/dprint.json", "/sub");
    child.inherit = Some(true);
    child.config_map = vec![("test".to_string(), plugin_config(false, vec![("indentWidth", ConfigKeyValue::Number(2))]))];

    let err = inherit_config(child, &parent).err().unwrap();
    assert_eq!(
        err.to_string(),
        "The configuration for \"test\" was locked, but a parent configuration specified it. Locked configurations cannot have their properties overridden."
    );
}

#[test]
fn inherit_config_keeps_own_incremental_and_source() {
    let mut parent = config("/dprint.json", "/");
    parent.incremental = Some(true);
    let mut child = config("/sub/dprint.json", "/sub");
    child.incremental = Some(false);
    child.includes = Some(strings(&["src/**"]));
    let result = inherit_config(child, &parent).unwrap();
    assert_eq!(result.incremental, Some(false));
    assert_eq!(result.includes, Some(strings(&["src/**"])));
    assert_eq!(result.source, "/sub/dprint.json");
    assert_eq!(result.base_path.display(), "/sub");
    assert_eq!(result.excludes, None);
}

#[test]
fn inherit_excludes_puts_ancestor_patterns_first() {
    assert_eq!(combine_excludes(None, Some(strings(&["**/node_modules"]))), Some(strings(&["**/node_modules"])));
    assert_eq!(combine_excludes(None, Some(Vec::new())), None);
    assert_eq!(combine_excludes(Some(strings(&["own"])), Some(Vec::new())), Some(strings(&["own"])));
    assert_eq!(combine_excludes(Some(strings(&["own"])), Some(strings(&["dist"]))), Some(strings(&["dist", "own"])));
    assert_eq!(combine_excludes(Some(Vec::new()), None), Some(Vec::new()));
    assert_eq!(combine_excludes(None, None), None);
}

#[test]
fn inherit_config_should_rebase_ancestor_excludes_onto_nested_directory() {
    fn inherited_excludes(ancestor: &[&str], ancestor_base: &str, new_base: &str) -> Option<Vec<String>> {
        inherit_excludes(
            None,
            Some(&strings(ancestor)),
            &CanonicalizedPathBuf::new_for_testing(ancestor_base),
            &CanonicalizedPathBuf::new_for_testing(new_base),
        )
    }

    // depth-relative patterns keep matching within the nested directory
    assert_eq!(inherited_excludes(&["**/node_modules"], "/", "/sub"), Some(vec!["**/node_modules".to_string()]));
    // a pattern anchored into the nested directory is rebased to be relative to it
    assert_eq!(inherited_excludes(&["sub/dist"], "/", "/sub"), Some(vec!["dist".to_string()]));
    // an anchored pattern that points outside the nested directory is dropped
    assert_eq!(inherited_excludes(&["other/dist"], "/", "/sub"), None);
    // dropping leaves the nested config's own excludes intact
    assert_eq!(
        inherit_excludes(
            Some(vec!["own".to_string()]),
            Some(&vec!["other/dist".to_string()]),
            &CanonicalizedPathBuf::new_for_testing("/"),
            &CanonicalizedPathBuf::new_for_testing("/sub"),
        ),
        Some(vec!["own".to_string()])
    );
}

#[test]
fn rebase_pattern_keeps_negation_and_drops_dot_slash() {
    let root = CanonicalizedPathBuf::new_for_testing("/");
    let sub = CanonicalizedPathBuf::new_for_testing("/sub");
    assert_eq!(rebase_pattern("!sub/dist", &root, &sub), Some("!dist".to_string()));
    assert_eq!(rebase_pattern("./sub/a/b", &root, &sub), Some("a/b".to_string()));
    assert_eq!(rebase_pattern("sub", &root, &sub), None);
    assert_eq!(rebase_pattern("dist", &sub, &sub), Some("dist".to_string()));
    assert_eq!(rebase_pattern("**/*.min.js", &sub, &root), Some("**/*.min.js".to_string()));
    assert_eq!(rebase_pattern("x/y", &sub, &root), Some("sub/x/y".to_string()));
}

#[test]
fn filter_non_wasm_plugins_keeps_wasm_in_order() {
    let plugins = vec![
        remote("https://plugins.dprint.dev/a.wasm"),
        remote("https://plugins.dprint.dev/test-plugin.json@checksum"),
        remote("https://plugins.dprint.dev/b.wasm"),
        remote("https://plugins.dprint.dev/unknown"),
    ];
    let (kept, dropped) = filter_non_wasm_plugins(plugins);
    assert_eq!(sources(&kept), strings(&["https://plugins.dprint.dev/a.wasm", "https://plugins.dprint.dev/b.wasm"]));
    assert!(dropped);

    let (kept, dropped) = filter_non_wasm_plugins(vec![remote("https://plugins.dprint.dev/a.wasm")]);
    assert_eq!(sources(&kept), strings(&["https://plugins.dprint.dev/a.wasm"]));
    assert!(!dropped);
}

#[test]
fn filter_duplicate_plugin_sources_keeps_first() {
    let mut first = remote("https://plugins.dprint.dev/a.wasm");
    first.checksum = Some("first".to_string());
    let mut second = remote("https://plugins.dprint.dev/a.wasm");
    second.checksum = Some("second".to_string());
    let plugins = vec![first, remote("https://plugins.dprint.dev/b.wasm"), second];
    let result = filter_duplicate_plugin_sources(plugins);
    assert_eq!(sources(&result), strings(&["https://plugins.dprint.dev/a.wasm", "https://plugins.dprint.dev/b.wasm"]));
    assert_eq!(result[0].checksum, Some("first".to_string()));
}

#[test]
fn config_file_plugins_of_remote_file_are_wasm() {
    let plugins = || {
        vec![
            remote("./test-plugin.json@checksum"),
            remote("https://plugins.dprint.dev/a.wasm"),
            remote("https://plugins.dprint.dev/a.wasm"),
        ]
    };
    let (kept, dropped) = config_file_plugins(plugins(), false);
    assert_eq!(sources(&kept), strings(&["https://plugins.dprint.dev/a.wasm"]));
    assert!(dropped);
    let (kept, dropped) = config_file_plugins(plugins(), true);
    assert_eq!(sources(&kept), strings(&["./test-plugin.json@checksum", "https://plugins.dprint.dev/a.wasm"]));
    assert!(!dropped);
}

#[test]
fn combine_extended_config_appends_and_merges() {
    let mut resolved = config("/test.json", "/");
    resolved.excludes = Some(strings(&["a"]));
    resolved.plugins = vec![remote("https://plugins.dprint.dev/a.wasm")];
    resolved.config_map = vec![("prop1".to_string(), ConfigMapValue::from_i32(1))];
    let extended_map = vec![
        ("prop1".to_string(), ConfigMapValue::from_i32(5)),
        ("prop2".to_string(), ConfigMapValue::from_i32(2)),
    ];
    let (result, dropped) = combine_extended_config(
        resolved,
        Some(strings(&["b"])),
        vec![remote("./test-plugin.json@checksum"), remote("https://plugins.dprint.dev/b.wasm")],
        false,
        extended_map,
    );
    let result = result.unwrap();
    assert!(dropped);
    assert_eq!(result.excludes, Some(strings(&["a", "b"])));
    assert_eq!(sources(&result.plugins), strings(&["https://plugins.dprint.dev/a.wasm", "https://plugins.dprint.dev/b.wasm"]));
    assert_eq!(describe_map(&result.config_map), vec!["prop1=1", "prop2=2"]);
}

#[test]
fn combine_extended_config_keeps_local_process_plugins() {
    let resolved = config("/test.json", "/");
    let (result, dropped) =
        combine_extended_config(resolved, None, vec![remote("/dir/test-plugin.json@checksum")], true, Vec::new());
    let result = result.unwrap();
    assert!(!dropped);
    assert_eq!(result.excludes, None);
    assert_eq!(sources(&result.plugins), strings(&["/dir/test-plugin.json@checksum"]));
}

#[test]
fn remote_configuration_warnings() {
    assert_eq!(
        get_warn_non_wasm_plugins_message(),
        "Note:  Non-wasm plugins are ignored for security reasons on remote configuration."
    );
    assert_eq!(
        get_warn_includes_message(),
        "Note:  The 'includes' property is ignored for security reasons on remote configuration."
    );
}
