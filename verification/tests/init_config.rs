use dprint::init_config::is_process_plugin_url;
use dprint::init_config::build_init_config_file_text;
use dprint::init_config::default_selections;
use dprint::init_config::get_unique_items;
use dprint::init_config::is_ignored_dir;
use dprint::init_config::non_interactive_selection;
use dprint::init_config::plugin_display_text;
use dprint::init_config::select_plugins;
use dprint::init_config::selection_items;
use dprint::init_config::InitPluginInfo;
use dprint::init_config::ProjectScan;
use dprint::init_config::ScanEntry;
use dprint::init_config::MAX_SCAN_FILES;
use dprint::init_config::info_is_usable;
use dprint::init_config::old_plugin_system_message;
use dprint::init_config::info_error_message;

fn plugin(name: &str, url: &str, config_key: Option<&str>, exts: &[&str], names: &[&str], excludes: &[&str], checksum: Option<&str>, process: bool) -> InitPluginInfo {
    InitPluginInfo {
        name: name.to_string(),
        url: url.to_string(),
        config_key: config_key.map(|s| s.to_string()),
        file_extensions: exts.iter().map(|s| s.to_string()).collect(),
        file_names: names.iter().map(|s| s.to_string()).collect(),
        config_excludes: excludes.iter().map(|s| s.to_string()).collect(),
        checksum: checksum.map(|s| s.to_string()),
        process_plugin: process,
    }
}

fn multi_plugins() -> Vec<InitPluginInfo> {
    vec![
        plugin("dprint-plugin-typescript", "https://plugins.dprint.dev/typescript-0.17.2.wasm", Some("typescript"), &["ts", "tsx"], &[], &["**/something"], None, false),
        plugin("dprint-plugin-jsonc", "https://plugins.dprint.dev/json-0.2.3.wasm", Some("json"), &["json"], &[], &["**/*-asdf.json"], None, false),
        plugin("dprint-plugin-final", "https://plugins.dprint.dev/final-0.1.2.wasm", None, &["tsx", "rs"], &["Cargo.toml"], &["**/something", "**other"], None, false),
        plugin("dprint-process-plugin", "https://plugins.dprint.dev/process-0.1.0.json", None, &["ps"], &[], &[], Some("test-checksum"), true),
    ]
}

fn file(name: &str) -> ScanEntry {
    ScanEntry::File { name: name.to_string(), path: format!("/{}", name) }
}

fn scan(entries: Vec<ScanEntry>) -> dprint::init_config::ProjectFiles {
    let mut scan = ProjectScan::new("/".to_string());
    let dir = scan.next_dir().unwrap();
    assert_eq!(dir, "/");
    scan.add_entries(entries);
    assert!(scan.next_dir().is_none());
    scan.finish()
}

fn text_for(files: Vec<ScanEntry>) -> String {
    let plugins = multi_plugins();
    let project = scan(files);
    let defaults = default_selections(&plugins, &project);
    let indexes = non_interactive_selection(&defaults);
    let selected = select_plugins(&plugins, &indexes);
    build_init_config_file_text(&Some(selected))
}

#[test]
fn should_get_default_initialization_text() {
    let text = text_for(vec![file("file.ts"), file("file.json")]);
    assert_eq!(
        text,
        r#"{
  "typescript": {
  },
  "json": {
  },
  "excludes": [
    "**/something",
    "**/*-asdf.json"
  ],
  "plugins": [
    "https://plugins.dprint.dev/typescript-0.17.2.wasm",
    "https://plugins.dprint.dev/json-0.2.3.wasm"
  ]
}
"#
    );
}

#[test]
fn should_select_no_plugins_when_no_files_match() {
    let text = text_for(vec![file("readme.md")]);
    assert_eq!(
        text,
        r#"{
  "excludes": [],
  "plugins": [
    // specify plugin urls here
  ]
}
"#
    );
}

#[test]
fn should_pre_select_plugin_by_file_name() {
    let text = text_for(vec![file("Cargo.toml")]);
    assert_eq!(
        text,
        r#"{
  "excludes": [
    "**/something",
    "**other"
  ],
  "plugins": [
    "https://plugins.dprint.dev/final-0.1.2.wasm"
  ]
}
"#
    );
}

#[test]
fn should_match_extensions_case_insensitively() {
    let text = text_for(vec![file("FILE.JSON")]);
    assert!(text.contains("https://plugins.dprint.dev/json-0.2.3.wasm"));
}

#[test]
fn should_get_initialization_text_when_selecting_process_plugin() {
    let plugins = multi_plugins();
    let selected = select_plugins(&plugins, &vec![3]);
    let text = build_init_config_file_text(&Some(selected));
    assert_eq!(
        text,
        r#"{
  "excludes": [],
  "plugins": [
    "https://plugins.dprint.dev/process-0.1.0.json@test-checksum"
  ]
}
"#
    );
}

#[test]
fn should_get_initialization_text_when_cannot_access_url() {
    let text = build_init_config_file_text(&None);
    assert_eq!(
        text,
        r#"{
  "excludes": [
    "**/*-lock.json"
  ],
  "plugins": [
    // specify plugin urls here
  ]
}
"#
    );
}

#[test]
fn should_list_plugins_with_their_extensions() {
    let plugins = multi_plugins();
    assert_eq!(plugin_display_text(&plugins[0]), "dprint-plugin-typescript (.ts, .tsx)");
    let bare = plugin("x", "u", None, &[], &[], &[], None, false);
    assert_eq!(plugin_display_text(&bare), "x");
    let defaults = vec![true, false, false, false];
    let items = selection_items(&plugins, &defaults);
    assert_eq!(items[0], (true, "dprint-plugin-typescript (.ts, .tsx)".to_string()));
    assert_eq!(items[3], (false, "dprint-process-plugin (.ps)".to_string()));
}

#[test]
fn should_get_unique_items_in_order() {
    let items = vec!["a".to_string(), "b".to_string(), "a".to_string(), "c".to_string(), "b".to_string()];
    assert_eq!(get_unique_items(items), vec!["a".to_string(), "b".to_string(), "c".to_string()]);
}

#[test]
fn should_not_scan_ignored_directories() {
    assert!(is_ignored_dir(".git"));
    assert!(is_ignored_dir("node_modules"));
    assert!(is_ignored_dir("target"));
    assert!(!is_ignored_dir("src"));
    let mut scan = ProjectScan::new("/".to_string());
    scan.next_dir();
    scan.add_entries(vec![
        ScanEntry::Directory { path: "/node_modules".to_string() },
        ScanEntry::Directory { path: "/.hidden".to_string() },
        ScanEntry::Directory { path: "/src".to_string() },
    ]);
    assert_eq!(scan.next_dir(), Some("/src".to_string()));
    scan.add_entries(vec![ScanEntry::File { name: "main.RS".to_string(), path: "/src/main.RS".to_string() }]);
    assert_eq!(scan.next_dir(), None);
    let files = scan.finish();
    assert_eq!(files.extensions, vec!["rs".to_string()]);
    assert_eq!(files.file_names, vec!["main.RS".to_string()]);
}

#[test]
fn should_stop_scanning_at_file_limit() {
    let mut scan = ProjectScan::new("/".to_string());
    scan.next_dir();
    let mut entries = Vec::new();
    for i in 0..(MAX_SCAN_FILES + 5) {
        entries.push(ScanEntry::File { name: format!("f{}.txt", i), path: format!("/f{}.txt", i) });
    }
    entries.push(ScanEntry::Directory { path: "/late".to_string() });
    scan.add_entries(entries);
    assert!(scan.stopped);
    assert_eq!(scan.files_remaining, 0);
    assert_eq!(scan.next_dir(), None);
    let files = scan.finish();
    assert_eq!(files.file_names.len(), MAX_SCAN_FILES);
}

fn text_for_selection(plugins: &Vec<InitPluginInfo>, indexes: Vec<usize>) -> String {
    let selected = select_plugins(plugins, &indexes);
    build_init_config_file_text(&Some(selected))
}

#[test]
fn should_pre_select_process_plugin_by_extension() {
    let text = text_for(vec![file("file.ps")]);
    assert_eq!(
        text,
        r#"{
  "excludes": [],
  "plugins": [
    "https://plugins.dprint.dev/process-0.1.0.json@test-checksum"
  ]
}
"#
    );
}

#[test]
fn should_scan_files_in_nested_directories() {
    let plugins = multi_plugins();
    let mut scan = ProjectScan::new("/".to_string());
    assert_eq!(scan.next_dir(), Some("/".to_string()));
    scan.add_entries(vec![ScanEntry::Directory { path: "/src".to_string() }]);
    assert_eq!(scan.next_dir(), Some("/src".to_string()));
    scan.add_entries(vec![ScanEntry::Directory { path: "/src/nested".to_string() }]);
    assert_eq!(scan.next_dir(), Some("/src/nested".to_string()));
    scan.add_entries(vec![ScanEntry::File { name: "app.ts".to_string(), path: "/src/nested/app.ts".to_string() }]);
    assert_eq!(scan.next_dir(), None);
    let project = scan.finish();
    let defaults = default_selections(&plugins, &project);
    let text = text_for_selection(&plugins, non_interactive_selection(&defaults));
    // the typescript plugin is selected from the nested file
    assert!(text.contains("https://plugins.dprint.dev/typescript-0.17.2.wasm"), "{text}");
}

#[test]
fn should_skip_prompt_when_non_interactive() {
    let text = text_for(vec![file("file.ts")]);
    assert_eq!(
        text,
        r#"{
  "typescript": {
  },
  "excludes": [
    "**/something"
  ],
  "plugins": [
    "https://plugins.dprint.dev/typescript-0.17.2.wasm"
  ]
}
"#
    );
}

#[test]
fn should_get_initialization_text_when_can_access_url() {
    let text = text_for_selection(&multi_plugins(), vec![0, 1, 2]);
    assert_eq!(
        text,
        r#"{
  "typescript": {
  },
  "json": {
  },
  "excludes": [
    "**/something",
    "**/*-asdf.json",
    "**other"
  ],
  "plugins": [
    "https://plugins.dprint.dev/typescript-0.17.2.wasm",
    "https://plugins.dprint.dev/json-0.2.3.wasm",
    "https://plugins.dprint.dev/final-0.1.2.wasm"
  ]
}
"#
    );
}

#[test]
fn should_get_initialization_text_when_selecting_one_plugin() {
    let text = text_for_selection(&multi_plugins(), vec![1]);
    assert_eq!(
        text,
        r#"{
  "json": {
  },
  "excludes": [
    "**/*-asdf.json"
  ],
  "plugins": [
    "https://plugins.dprint.dev/json-0.2.3.wasm"
  ]
}
"#
    );
}

#[test]
fn should_get_initialization_text_when_selecting_no_plugins() {
    let text = text_for_selection(&multi_plugins(), vec![]);
    assert_eq!(
        text,
        r#"{
  "excludes": [],
  "plugins": [
    // specify plugin urls here
  ]
}
"#
    );
}

#[test]
fn should_get_initialization_text_when_selecting_other_option() {
    let plugins = vec![plugin(
        "dprint-plugin-typescript",
        "https://plugins.dprint.dev/typescript-0.17.2.wasm",
        Some("typescript"),
        &["ts"],
        &[],
        &["test"],
        None,
        false,
    )];
    let text = text_for_selection(&plugins, vec![0]);
    assert_eq!(
        text,
        r#"{
  "typescript": {
  },
  "excludes": [
    "test"
  ],
  "plugins": [
    "https://plugins.dprint.dev/typescript-0.17.2.wasm"
  ]
}
"#
    );
}

#[test]
fn should_get_initialization_text_when_old_plugin_system() {
    // the host's plugin system is 4 and the plugin information is for 999
    assert!(!info_is_usable(4, 999));
    assert!(info_is_usable(4, 4));
    let text = build_init_config_file_text(&None);
    assert_eq!(
        text,
        r#"{
  "excludes": [
    "**/*-lock.json"
  ],
  "plugins": [
    // specify plugin urls here
  ]
}
"#
    );
    assert_eq!(
        old_plugin_system_message(4, 999),
        "You are using an old version of dprint so the created config file may not be as helpful of a starting point. \
Consider upgrading to support new plugins. \
Plugin system schema version is 4, latest is 999."
    );
}

#[test]
fn info_error_message_names_the_error() {
    assert_eq!(
        info_error_message("Error downloading https://plugins.dprint.dev/info.json - 404 Not Found"),
        "There was a problem getting the latest plugin info. \
The created config file may not be as helpful of a starting point. \
Error: Error downloading https://plugins.dprint.dev/info.json - 404 Not Found"
    );
}

#[test]
fn process_plugin_urls_end_with_json() {
    assert!(is_process_plugin_url("https://plugins.dprint.dev/process-0.1.0.json"));
    assert!(is_process_plugin_url("https://plugins.dprint.dev/PROCESS.JSON"));
    assert!(!is_process_plugin_url("https://plugins.dprint.dev/json-0.1.0.wasm"));
    assert!(!is_process_plugin_url("json"));
}
