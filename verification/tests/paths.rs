use dprint::paths::get_plugin_patterns;
use dprint::paths::FilesPathsByPlugins;
use dprint::paths::PluginFileMatching;
use dprint::paths::PluginNames;
use dprint::canonicalized_path_buf::CanonicalizedPathBuf;

fn strings(v: &[&str]) -> Vec<String> {
    v.iter().map(|s| s.to_string()).collect()
}

#[test]
fn should_round_trip_plugin_names() {
    let names = strings(&["dprint-plugin-typescript", "dprint-plugin-prettier"]);
    let key = PluginNames::from_names(&names);
    assert_eq!(key.0, "dprint-plugin-typescript~~dprint-plugin-prettier");
    assert_eq!(key.names(), names);
    let single = PluginNames::from_names(&strings(&["a"]));
    assert_eq!(single.names(), strings(&["a"]));
    assert_eq!(PluginNames("x~~~y".to_string()).names(), strings(&["x", "~y"]));
}

#[test]
fn should_group_files_by_plugins() {
    let mut groups = FilesPathsByPlugins::new();
    assert!(groups.is_empty());
    let base = CanonicalizedPathBuf::new_for_testing("/project");
    let err = groups.ensure_not_empty(&base).err().unwrap();
    assert_eq!(
        err.to_string(),
        "No files found to format with the specified plugins at /project. You may want to try using `dprint output-file-paths` to see which files it's finding or run with `--allow-no-files`."
    );
    groups.add_file(&strings(&["ts"]), "/a.ts".to_string());
    groups.add_file(&strings(&["json"]), "/b.json".to_string());
    groups.add_file(&strings(&["ts"]), "/c.ts".to_string());
    groups.add_file(&strings(&[]), "/readme.md".to_string());
    groups.add_file(&strings(&["ts", "extra"]), "/d.ts".to_string());
    assert!(!groups.is_empty());
    assert!(groups.ensure_not_empty(&base).is_ok());
    assert_eq!(groups.all_file_paths(), strings(&["/a.ts", "/c.ts", "/b.json", "/d.ts"]));
    let groups = groups.into_vec();
    assert_eq!(groups.len(), 3);
    assert_eq!(groups[0].0 .0, "ts");
    assert_eq!(groups[0].1, strings(&["/a.ts", "/c.ts"]));
    assert_eq!(groups[2].0 .0, "ts~~extra");
}

#[test]
fn should_derive_patterns_from_plugins() {
    let plugins = vec![
        PluginFileMatching { file_names: strings(&[]), file_extensions: strings(&["ts", "tsx"]), associations: None },
        PluginFileMatching {
            file_names: strings(&["Cargo.toml"]),
            file_extensions: strings(&["ts", "rs"]),
            associations: Some(strings(&["/special/*.txt", "!**/skip.txt"])),
        },
    ];
    assert_eq!(
        get_plugin_patterns(&plugins),
        strings(&["**/*.{ts,tsx,rs}", "**/{Cargo.toml}", "./special/*.txt"])
    );
    assert_eq!(get_plugin_patterns(&vec![]), Vec::<String>::new());
}

#[test]
fn join_panic_relative_joins_by_component() {
    let base = CanonicalizedPathBuf::new_for_testing("/x");
    assert_eq!(base.join_panic_relative("a/b").display(), "/x/a/b");
    assert_eq!(base.join_panic_relative("./a").display(), "/x/a");
    assert_eq!(base.join_panic_relative("a/").display(), "/x/a");
    assert_eq!(base.join_panic_relative("/abs/b").display(), "/abs/b");
    assert_eq!(base.join_panic_relative("").display(), "/x");
    let root = CanonicalizedPathBuf::new_for_testing("/");
    assert_eq!(root.join_panic_relative("dprint.json").display(), "/dprint.json");
}

#[test]
fn strip_prefix_then_join_gives_path_back() {
    let base = CanonicalizedPathBuf::new_for_testing("/project");
    let path = CanonicalizedPathBuf::new_for_testing("/project/src/a.ts");
    let rest = path.strip_prefix(&base).unwrap();
    assert_eq!(rest, "src/a.ts");
    assert_eq!(base.join(&rest), "/project/src/a.ts");
    assert!(path.starts_with(&base));
    let other = CanonicalizedPathBuf::new_for_testing("/projects/a.ts");
    assert!(!other.starts_with(&base));
    assert_eq!(other.strip_prefix(&base), None);
    assert_eq!(base.strip_prefix(&base), Some(String::new()));
}

#[test]
fn plugin_names_round_trip_with_tilde_inside() {
    let names = vec!["a~b".to_string(), "c".to_string(), "~d~".to_string()];
    let key = PluginNames::from_names(&names);
    assert_eq!(key.names(), names);
    // a name other than the last that ends with `~` runs into the separator
    let key = PluginNames::from_names(&vec!["a~".to_string(), "b".to_string()]);
    assert_eq!(key.names(), vec!["a".to_string(), "~b".to_string()]);
}
