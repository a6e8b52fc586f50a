use dprint::patterns::matches_and_dir_not_ignored;
use dprint::patterns::ExcludeMatchDetail;
use dprint::name_resolution::GlobMatchesDetail;
use dprint::patterns::process_config_pattern;
use dprint::patterns::process_config_patterns;
use dprint::patterns::process_file_pattern_slashes;
use dprint::patterns::is_negated_glob;
use dprint::patterns::non_negated_glob;
use dprint::patterns::get_patterns_as_glob_matcher;
use dprint::canonicalized_path_buf::CanonicalizedPathBuf;
use dprint::patterns::process_cli_pattern;
use dprint::patterns::normalize_absolute;
use dprint::patterns::is_absolute_pattern;
use dprint::patterns::get_config_exclude_file_patterns;
use dprint::patterns::get_config_includes_file_patterns;
use dprint::patterns::get_all_file_patterns;

#[test]
fn should_process_config_pattern() {
    assert_eq!(process_config_pattern("/test"), "./test");
    assert_eq!(process_config_pattern("./test"), "./test");
    assert_eq!(process_config_pattern("test"), "test");
    assert_eq!(process_config_pattern("**/test"), "**/test");

    assert_eq!(process_config_pattern("!/test"), "!./test");
    assert_eq!(process_config_pattern("!./test"), "!./test");
    assert_eq!(process_config_pattern("!test"), "!test");
    assert_eq!(process_config_pattern("!**/test"), "!**/test");
}

#[test]
fn should_turn_backslashes_into_slashes() {
    assert_eq!(process_file_pattern_slashes("a\\b\\c"), "a/b/c");
    assert_eq!(process_config_pattern("\\test\\file.ts"), "./test/file.ts");
    assert_eq!(process_config_pattern("!\\test"), "!./test");
}

#[test]
fn should_detect_negated_globs() {
    assert!(is_negated_glob("!test"));
    assert!(!is_negated_glob("test"));
    assert!(!is_negated_glob("!(a|b)"));
    assert!(!is_negated_glob(""));
    assert_eq!(non_negated_glob("!**/dist"), "**/dist");
    assert_eq!(non_negated_glob("src"), "src");
}

#[test]
fn should_process_config_patterns_in_order() {
    let patterns = vec!["/a".to_string(), "b".to_string(), "!/c".to_string()];
    assert_eq!(process_config_patterns(&patterns), vec!["./a".to_string(), "b".to_string(), "!./c".to_string()]);
}

#[test]
fn should_split_patterns_into_includes_and_excludes() {
    let base = CanonicalizedPathBuf::new_for_testing("/project");
    let patterns = vec![
        "**/*.ts".to_string(),
        "!/dist".to_string(),
        "/src".to_string(),
        "!**/node_modules".to_string(),
    ];
    let result = get_patterns_as_glob_matcher(&patterns, &base);
    let includes = result.config_includes.unwrap();
    let include_texts: Vec<String> = includes.iter().map(|p| p.relative_pattern.clone()).collect();
    assert_eq!(include_texts, vec!["**/*.ts".to_string(), "./src".to_string()]);
    let exclude_texts: Vec<String> = result.config_excludes.iter().map(|p| p.relative_pattern.clone()).collect();
    assert_eq!(exclude_texts, vec!["./dist".to_string(), "**/node_modules".to_string()]);
    assert!(result.arg_includes.is_none());
    assert!(result.arg_excludes.is_none());
    assert_eq!(includes[0].base_dir.display(), "/project");
}

#[test]
fn should_process_cli_patterns() {
    assert_cli_pattern("/test", "/", "./test", "/");
    assert_cli_pattern("./test", "/", "./test", "/");
    assert_cli_pattern("test", "/", "./test", "/");
    assert_cli_pattern("**/test", "/", "./**/test", "/");

    assert_cli_pattern("!/test", "/", "!./test", "/");
    assert_cli_pattern("!./test", "/", "!./test", "/");
    assert_cli_pattern("!test", "/", "!./test", "/");
    assert_cli_pattern("!**/test", "/", "!./**/test", "/");
    assert_cli_pattern("!.", "/", "!./.", "/");
    assert_cli_pattern("../test", "/sub", "./test", "/");
    assert_cli_pattern("/test", "/sub", "./test", "/");
}

fn assert_cli_pattern(file_pattern: &str, cwd: &str, expected_pattern: &str, expected_base_dir: &str) {
    let pattern = process_cli_pattern(file_pattern, &CanonicalizedPathBuf::new_for_testing(cwd));
    assert_eq!(pattern.relative_pattern, expected_pattern);
    assert_eq!(pattern.base_dir.display(), CanonicalizedPathBuf::new_for_testing(expected_base_dir).display());
}

#[test]
fn cli_patterns_resolve_against_nearest_holding_directory() {
    assert_cli_pattern(".", "/project", "**", "/project");
    assert_cli_pattern("src/../lib/*.ts", "/project", "./lib/*.ts", "/project");
    assert_cli_pattern("../other/file.ts", "/project/sub", "./other/file.ts", "/project");
    assert_cli_pattern("/project/sub/a.ts", "/project/sub", "./a.ts", "/project/sub");
    assert_cli_pattern("/project", "/project/sub", "./", "/project");
    assert_cli_pattern("sub\\dir\\*.ts", "/p", "./sub/dir/*.ts", "/p");
    // a pattern at a drive is kept as written
    assert_cli_pattern("C:/test", "/p", "C:/test", "/p");
    assert_cli_pattern("!C:/test", "/p", "!C:/test", "/p");
}

#[test]
fn normalizes_absolute_paths() {
    assert_eq!(normalize_absolute("/a/./b/../c"), "/a/c");
    assert_eq!(normalize_absolute("/../a"), "/a");
    assert_eq!(normalize_absolute("//a//b/"), "/a/b");
    assert_eq!(normalize_absolute("/"), "/");
}

#[test]
fn detects_absolute_patterns() {
    assert!(is_absolute_pattern("/a"));
    assert!(is_absolute_pattern("!/a"));
    assert!(is_absolute_pattern("C:/a"));
    assert!(is_absolute_pattern("!ab:/a"));
    assert!(!is_absolute_pattern("a/b"));
    assert!(!is_absolute_pattern(":/a"));
    assert!(!is_absolute_pattern("C:a"));
    assert!(!is_absolute_pattern("C1:/a"));
}

#[test]
fn exclude_patterns_keep_node_modules_out() {
    let base = CanonicalizedPathBuf::new_for_testing("/project");
    let cwd = CanonicalizedPathBuf::new_for_testing("/project/sub");
    let excludes = vec!["/dist".to_string()];
    let r = get_config_exclude_file_patterns(None, Some(&excludes), &base, &cwd, false);
    let v: Vec<(String, String)> = r.iter().map(|p| (p.relative_pattern.clone(), p.base_dir.display().to_string())).collect();
    assert_eq!(
        v,
        vec![
            ("./dist".to_string(), "/project".to_string()),
            ("**/node_modules".to_string(), "/project/sub".to_string()),
        ]
    );
    // the current directory outside the configuration's directory excludes both
    let other_cwd = CanonicalizedPathBuf::new_for_testing("/elsewhere");
    let r = get_config_exclude_file_patterns(None, None, &base, &other_cwd, false);
    assert_eq!(r.len(), 2);
    assert_eq!(r[1].base_dir.display(), "/project");
    // allowed node_modules adds nothing
    let r = get_config_exclude_file_patterns(None, None, &base, &cwd, true);
    assert!(r.is_empty());
}

#[test]
fn include_patterns_come_from_overrides_or_config() {
    let base = CanonicalizedPathBuf::new_for_testing("/project");
    let includes = vec!["**/*.ts".to_string()];
    let r = get_config_includes_file_patterns(None, Some(&includes), &base).unwrap();
    assert_eq!(r[0].relative_pattern, "**/*.ts");
    assert!(get_config_includes_file_patterns(None, None, &base).is_none());
    let overrides = vec![process_cli_pattern("*.md", &base)];
    let r = get_config_includes_file_patterns(Some(overrides), Some(&includes), &base).unwrap();
    assert_eq!(r[0].relative_pattern, "./*.md");
}

#[test]
fn all_file_patterns_resolve_command_line_patterns() {
    let base = CanonicalizedPathBuf::new_for_testing("/project");
    let r = get_all_file_patterns(None, None, &base, &vec!["src/*.ts".to_string()], None, &vec![], None, true, &base);
    assert_eq!(r.arg_includes.unwrap()[0].relative_pattern, "./src/*.ts");
    assert!(r.arg_excludes.is_none());
    assert!(r.config_includes.is_none());
    assert!(r.config_excludes.is_empty());
}

#[test]
fn file_matches_only_when_its_directories_let_it_through() {
    let ok = vec![(ExcludeMatchDetail::NotExcluded, false), (ExcludeMatchDetail::OptedOutExclude, true)];
    assert!(matches_and_dir_not_ignored(GlobMatchesDetail::Matched, false, true, &ok));
    assert!(!matches_and_dir_not_ignored(GlobMatchesDetail::Matched, true, true, &ok));
    assert!(matches_and_dir_not_ignored(GlobMatchesDetail::MatchedOptedOutExclude, true, true, &ok));
    assert!(!matches_and_dir_not_ignored(GlobMatchesDetail::Excluded, false, true, &ok));
    assert!(!matches_and_dir_not_ignored(GlobMatchesDetail::NotMatched, false, true, &ok));
    assert!(!matches_and_dir_not_ignored(GlobMatchesDetail::Matched, false, false, &ok));
    let excluded_dir = vec![(ExcludeMatchDetail::NotExcluded, false), (ExcludeMatchDetail::Excluded, false)];
    assert!(!matches_and_dir_not_ignored(GlobMatchesDetail::Matched, false, true, &excluded_dir));
    let ignored_dir = vec![(ExcludeMatchDetail::NotExcluded, true)];
    assert!(!matches_and_dir_not_ignored(GlobMatchesDetail::Matched, false, true, &ignored_dir));
}
