use dprint::cache_file_names::get_file_name_from_url_or_path;
use dprint::cache_file_names::get_unique_file_name;

fn names(items: &[&str]) -> Vec<String> {
    items.iter().map(|s| s.to_string()).collect()
}

#[test]
fn file_name_comes_from_the_urls_last_part() {
    assert_eq!(
        get_file_name_from_url_or_path(&names(&[]), "https://plugins.dprint.dev/test.wasm", "compiled_wasm"),
        "test.compiled_wasm"
    );
}

#[test]
fn file_names_of_urls_with_the_same_last_part_are_numbered() {
    let taken = names(&["test.compiled_wasm"]);
    assert_eq!(
        get_file_name_from_url_or_path(&taken, "https://plugins.dprint.dev/other/test.wasm", "compiled_wasm"),
        "test_2.compiled_wasm"
    );
    let taken = names(&["test.compiled_wasm", "test_2.compiled_wasm", "test_3.compiled_wasm"]);
    assert_eq!(get_unique_file_name(&taken, "test", "compiled_wasm"), "test_4.compiled_wasm");
}

#[test]
fn a_gap_in_the_numbering_is_used_first() {
    let taken = names(&["test.wasm", "test_3.wasm"]);
    assert_eq!(get_unique_file_name(&taken, "test", "wasm"), "test_2.wasm");
}

#[test]
fn file_name_trims_slashes_and_keeps_inner_dots() {
    assert_eq!(get_file_name_from_url_or_path(&names(&[]), "https://host/a.b.c.wasm///", "x"), "a.b.c.x");
    assert_eq!(get_file_name_from_url_or_path(&names(&[]), "C:\\plugins\\local.wasm\\", "x"), "local.x");
    assert_eq!(get_file_name_from_url_or_path(&names(&[]), "/dir/.hidden", "x"), ".hidden.x");
}

#[test]
fn file_name_without_a_last_part_is_temp() {
    assert_eq!(get_file_name_from_url_or_path(&names(&[]), "plugin.wasm", "x"), "temp.x");
    assert_eq!(get_file_name_from_url_or_path(&names(&["temp.x"]), "/plugin.wasm", "x"), "temp_2.x");
}
