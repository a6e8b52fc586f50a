use dprint::environment::path_with_dir;
use dprint::environment::path_without_dir;
use dprint::environment::resolve_max_threads;
use dprint::environment::resolve_max_threads_from_var;
use dprint::environment::resolve_cache_dir;
use dprint::environment::get_cache_dir;
use dprint::environment::is_system_volume_error;
use dprint::environment::trims_to_empty;
use dprint::environment::parse_usize;
use dprint::environment::CacheDirError;

#[test]
fn environment_should_resolve_num_threads() {
    assert_eq!(resolve_max_threads(None, None), 4);
    assert_eq!(resolve_max_threads(None, Some(1)), 1);
    assert_eq!(resolve_max_threads(None, Some(4)), 4);
    assert_eq!(resolve_max_threads(Some("2"), Some(4)), 2);
    assert_eq!(resolve_max_threads(Some("0"), Some(4)), 4);
    assert_eq!(resolve_max_threads(Some("5"), Some(4)), 4);
    assert_eq!(resolve_max_threads(Some("4"), Some(4)), 4);
}

#[test]
fn real_environment_should_resolve_num_threads() {
    assert_eq!(resolve_max_threads_from_var(None, None), 4);
    assert_eq!(resolve_max_threads_from_var(None, Some(1)), 1);
    assert_eq!(resolve_max_threads_from_var(None, Some(4)), 4);
    assert_eq!(resolve_max_threads_from_var(Some("2".to_string()), Some(4)), 2);
    assert_eq!(resolve_max_threads_from_var(Some("0".to_string()), Some(4)), 4);
    assert_eq!(resolve_max_threads_from_var(Some("5".to_string()), Some(4)), 4);
    assert_eq!(resolve_max_threads_from_var(Some("4".to_string()), Some(4)), 4);
}

#[test]
fn should_resolve_threads_without_available_parallelism() {
    assert_eq!(resolve_max_threads(Some("7"), None), 7);
    assert_eq!(resolve_max_threads(Some("abc"), None), 4);
    assert_eq!(resolve_max_threads(Some("+3"), Some(8)), 3);
    assert_eq!(resolve_max_threads(Some(""), Some(2)), 2);
}

#[test]
fn should_parse_usize_like_std() {
    assert_eq!(parse_usize("42"), Some(42));
    assert_eq!(parse_usize("+42"), Some(42));
    assert_eq!(parse_usize(""), None);
    assert_eq!(parse_usize("+"), None);
    assert_eq!(parse_usize("-1"), None);
    assert_eq!(parse_usize("4a"), None);
    assert_eq!(parse_usize("99999999999999999999999"), None);
}

#[test]
fn should_get_cache_dir_based_on_env_var() {
    let value = "/home/david/.dprint-cache";
    assert_eq!(resolve_cache_dir(Some(value), Some("/home/david/.cache")).unwrap(), value);
    let default_dir = "/home/david/.cache/dprint/cache";
    assert_eq!(resolve_cache_dir(Some(""), Some("/home/david/.cache")).unwrap(), default_dir);
    assert_eq!(resolve_cache_dir(Some("  "), Some("/home/david/.cache")).unwrap(), default_dir);
    assert_eq!(resolve_cache_dir(None, Some("/home/david/.cache")).unwrap(), default_dir);
    assert_eq!(get_cache_dir(Some(value)).unwrap(), value);
}

#[test]
fn should_error_when_cache_dir_env_var_relative() {
    let result = resolve_cache_dir(Some("./dir"), Some("/home/david/.cache")).err();
    assert_eq!(
        result.unwrap().to_string(),
        "The DPRINT_CACHE_DIR environment variable must specify an absolute path."
    );
    assert!(matches!(get_cache_dir(Some("./dir")), Err(CacheDirError::RelativePath)));
}

#[test]
fn should_error_without_system_cache_dir() {
    let result = resolve_cache_dir(None, None).err().unwrap();
    assert!(matches!(result, CacheDirError::NoSystemCacheDir));
    assert_eq!(result.to_string(), "Expected to find cache directory");
}

#[test]
fn should_detect_blank_text() {
    assert!(trims_to_empty(""));
    assert!(trims_to_empty(" \t\n\u{a0}\u{3000}"));
    assert!(!trims_to_empty(" a "));
}

#[test]
fn should_detect_system_volume_error() {
    assert!(is_system_volume_error(true, Some(5), Some("System Volume Information")));
    assert!(!is_system_volume_error(false, Some(5), Some("System Volume Information")));
    assert!(!is_system_volume_error(true, Some(2), Some("System Volume Information")));
    assert!(!is_system_volume_error(true, Some(5), Some("other")));
    assert!(!is_system_volume_error(true, None, None));
}

#[test]
fn search_path_gains_directory_once() {
    assert_eq!(path_with_dir("C:\\a;C:\\b", "C:\\c"), Some("C:\\a;C:\\b;C:\\c".to_string()));
    assert_eq!(path_with_dir("C:\\a;", "C:\\c"), Some("C:\\a;C:\\c".to_string()));
    assert_eq!(path_with_dir("", "C:\\c"), Some("C:\\c".to_string()));
    assert_eq!(path_with_dir("C:\\a;C:\\c", "C:\\c"), None);
}

#[test]
fn search_path_loses_directory() {
    assert_eq!(path_without_dir("C:\\a;C:\\c;C:\\b;C:\\c", "C:\\c"), Some("C:\\a;C:\\b".to_string()));
    assert_eq!(path_without_dir("C:\\a;C:\\b", "C:\\c"), None);
    assert_eq!(path_without_dir("C:\\c", "C:\\c"), Some("".to_string()));
}
