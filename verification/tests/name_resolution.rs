use dprint::name_resolution::ClaimingPlugins;
use dprint::name_resolution::GlobMatchesDetail;
use dprint::name_resolution::PluginMatchInput;
use dprint::name_resolution::PluginNameResolutionMaps;
use dprint::name_resolution::is_shebang_prefix_match;

fn strings(v: &[&str]) -> Vec<String> {
    v.iter().map(|s| s.to_string()).collect()
}

fn plugin(name: &str, additive: bool, exts: &[&str], names: &[&str], assoc: bool) -> PluginMatchInput {
    PluginMatchInput {
        name: name.to_string(),
        additive,
        file_extensions: strings(exts),
        file_names: strings(names),
        has_associations: assoc,
    }
}

fn none_matched(n: usize) -> Vec<GlobMatchesDetail> {
    vec![GlobMatchesDetail::NotMatched; n]
}

#[test]
fn should_resolve_by_extension_and_file_name() {
    let plugins = vec![
        plugin("typescript", false, &["ts", "TSX"], &[], false),
        plugin("toml", false, &["toml"], &["Cargo.toml"], false),
        plugin("other-ts", false, &["ts"], &[], false),
    ];
    let maps = PluginNameResolutionMaps::from_plugins(&plugins, None);
    assert_eq!(maps.plugin_count(), 3);
    let d = none_matched(3);
    let r = maps.get_plugin_names_from_file_path("/a/file.TS", &d);
    assert!(r.has_claiming_plugin());
    assert_eq!(r.into_names(), strings(&["typescript"]));
    assert_eq!(maps.get_plugin_names_from_file_path("/x/y.tsx", &d).names, strings(&["typescript"]));
    assert_eq!(maps.get_plugin_names_from_file_path("/x/cargo.toml", &d).names, strings(&["toml"]));
    let r = maps.get_plugin_names_from_file_path("/x/readme.md", &d);
    assert!(!r.has_claiming_plugin);
    assert!(r.names.is_empty());
}

#[test]
fn should_let_associations_claim_and_exclude() {
    let plugins = vec![
        plugin("typescript", false, &["ts"], &[], true),
        plugin("prettier", false, &["md"], &[], true),
    ];
    let maps = PluginNameResolutionMaps::from_plugins(&plugins, None);
    // prettier's associations match a .ts file, so it claims it
    let d = vec![GlobMatchesDetail::NotMatched, GlobMatchesDetail::Matched];
    assert_eq!(maps.get_plugin_names_from_file_path("/a.ts", &d).names, strings(&["prettier"]));
    // typescript's associations exclude the file, so nothing claims it
    let d = vec![GlobMatchesDetail::Excluded, GlobMatchesDetail::NotMatched];
    assert!(maps.get_plugin_names_from_file_path("/a.ts", &d).names.is_empty());
    // both match by association
    let d = vec![GlobMatchesDetail::Matched, GlobMatchesDetail::MatchedOptedOutExclude];
    assert_eq!(maps.get_plugin_names_from_file_path("/a.txt", &d).names, strings(&["typescript", "prettier"]));
}

#[test]
fn should_add_additive_plugins_in_configuration_order() {
    let plugins = vec![
        plugin("spell", true, &["ts"], &[], false),
        plugin("typescript", false, &["ts"], &[], false),
        plugin("license", true, &[], &["a.ts"], false),
    ];
    let maps = PluginNameResolutionMaps::from_plugins(&plugins, None);
    let d = none_matched(3);
    assert_eq!(maps.get_plugin_names_from_file_path("/a.ts", &d).names, strings(&["spell", "typescript", "license"]));
    assert_eq!(maps.get_plugin_names_from_file_path("/b.ts", &d).names, strings(&["spell", "typescript"]));
}

#[test]
fn should_resolve_by_shebang() {
    let plugins = vec![plugin("typescript", false, &["ts"], &[], false), plugin("sh", false, &["sh"], &[], false)];
    let shebangs = vec![
        ("#!/usr/bin/env deno".to_string(), "js".to_string()),
        ("#!/usr/bin/env deno run".to_string(), "ts".to_string()),
    ];
    let maps = PluginNameResolutionMaps::from_plugins(&plugins, Some(&shebangs));
    let d = none_matched(2);
    assert!(maps.may_match_shebang("/bin/script"));
    assert!(!maps.may_match_shebang("/bin/script.sh"));
    assert_eq!(
        maps.get_plugin_names_from_shebang("/bin/script", Some("#!/usr/bin/env deno run --allow-read"), &d),
        Some(strings(&["typescript"]))
    );
    assert_eq!(maps.get_plugin_names_from_shebang("/bin/script", Some("#!/usr/bin/env deno runtest"), &d), Some(vec![]));
    assert_eq!(maps.get_plugin_names_from_shebang("/bin/script", Some("#!/bin/bash"), &d), None);
    assert_eq!(maps.get_plugin_names_from_shebang("/bin/script.sh", Some("#!/usr/bin/env deno run"), &d), None);
    assert_eq!(
        maps.get_plugin_names_from_file_path_and_bytes("/bin/script", Some("#!/usr/bin/env deno run"), &d),
        strings(&["typescript"])
    );
    assert_eq!(
        maps.get_plugin_names_from_file_path_and_bytes("/bin/x.sh", Some("#!/usr/bin/env deno run"), &d),
        strings(&["sh"])
    );
}

#[test]
fn should_match_shebang_prefix_only_at_whitespace() {
    assert!(is_shebang_prefix_match("#!/usr/bin/env deno run", "#!/usr/bin/env deno run"));
    assert!(is_shebang_prefix_match("#!/usr/bin/env deno run --allow-read", "#!/usr/bin/env deno run"));
    assert!(!is_shebang_prefix_match("#!/usr/bin/env deno runtest", "#!/usr/bin/env deno run"));
    assert!(!is_shebang_prefix_match("#!/usr/bin/env", "#!/usr/bin/env deno"));
}

#[test]
fn should_tell_claiming_plugins_apart() {
    assert!(ClaimingPlugins::Unclaimed.is_empty());
    assert_eq!(ClaimingPlugins::One(2).indexes(), vec![2]);
    assert!(ClaimingPlugins::One(2).contains(2));
    assert!(!ClaimingPlugins::Many(vec![0, 3]).contains(2));
    assert!(ClaimingPlugins::Many(vec![0, 3]).contains(3));
    assert!(!ClaimingPlugins::Many(vec![1]).is_empty());
    let maps = PluginNameResolutionMaps::from_plugins(&vec![plugin("a", false, &["x"], &[], false)], None);
    let c = maps.claiming_plugins(None, Some("x"), &none_matched(1));
    assert_eq!(c.indexes(), vec![0]);
}
