use dprint::configuration::ConfigKeyValue;
use dprint::wasm::take_format_request;
use dprint::process_plugin::check_process_plugin_manifest;
use dprint::process_plugin::ManifestError;
use dprint::wasm::format_request_steps;
use dprint::wasm::WasmFormatStep;
use dprint::process_plugin::get_plugin_executable_file_name;
use dprint::process_plugin::archive_checksum_error;
use dprint::wasm::fd_write;
use dprint::cache_meta::build_local_stamps;
use dprint::cache_meta::is_local_archive_reference;
use dprint::cache_meta::npm_add_from_cache;
use dprint::cache_meta::default_plugin_path;
use dprint::cache_meta::check_plugin_checksum;
use dprint::wasm::transfer_chunks;
use dprint::cache_meta::compute_cache_key;
use dprint::cache_meta::CacheKeySource;
use dprint::process_plugin::peek_plugin_kind;
use dprint::wasm::HostFormatStore;
use dprint::wasm::host_format_range;
use dprint::executables::node_required_message;
use dprint::executables::npm_command_name;
use dprint::executables::npm_required_message;
use dprint::executables::resolve_deno_executable;
use dprint::process_plugin::get_os_path;
use dprint::process_plugin::verify_plugin_file;
use dprint::process_plugin::OsPathError;
use dprint::process_plugin::PluginFileError;
use dprint::process_plugin::ProcessPluginFile;
use dprint::process_plugin::ProcessPluginPath;
use dprint::wasm::schema_version_from_exports;
use dprint::wasm::PluginSchemaVersion;
use dprint::wasm::SchemaVersionError;
use dprint::wasm::SharedBytes;
use dprint::wasm::WasmFormatResult;
use dprint::cache_meta::artifact_file_path;
use dprint::cache_meta::cached_entry_valid;
use dprint::cache_meta::current_signature;
use dprint::cache_meta::local_stamps_match;
use dprint::cache_meta::meta_path;
use dprint::cache_meta::to_unix_millis;
use dprint::cache_meta::to_unix_millis_from;
use dprint::cache_meta::LocalStamp;
use dprint::cache_meta::PluginKind;

fn path(r: &str) -> Option<ProcessPluginPath> {
    Some(ProcessPluginPath { reference: r.to_string(), checksum: format!("{}-sum", r) })
}

fn manifest() -> ProcessPluginFile {
    ProcessPluginFile {
        schema_version: 2,
        name: "p".to_string(),
        version: "1.0.0".to_string(),
        linux_x86_64: path("linux-x64"),
        linux_x86_64_musl: None,
        linux_aarch64: None,
        linux_aarch64_musl: None,
        linux_riscv64: None,
        linux_riscv64_musl: None,
        linux_loongarch64: None,
        linux_loongarch64_musl: None,
        linux_powerpc64: None,
        linux_powerpc64_musl: None,
        android_x86_64: None,
        android_aarch64: None,
        darwin_x86_64: path("mac-x64"),
        darwin_aarch64: path("mac-arm"),
        windows_x64_64: None,
        windows_aarch64: None,
    }
}

#[test]
fn should_pick_build_for_platform() {
    let m = manifest();
    assert_eq!(get_os_path(&m, "linux", "x86_64").unwrap().reference, "linux-x64");
    assert_eq!(get_os_path(&m, "linux", "aarch64").unwrap().reference, "linux-x64");
    assert_eq!(get_os_path(&m, "macos", "aarch64").unwrap().reference, "mac-arm");
    assert_eq!(get_os_path(&m, "macos", "x86_64").unwrap().checksum, "mac-x64-sum");
    let err = get_os_path(&m, "windows", "x86_64").err().unwrap();
    assert!(matches!(err, OsPathError::UnsupportedArch { .. }));
    assert_eq!(err.to_string(), "Unsupported CPU architecture: x86_64 (windows)");
    let err = get_os_path(&m, "linux", "riscv64").err().unwrap();
    assert_eq!(err.to_string(), "Unsupported CPU architecture: riscv64 (linux)");
    let err = get_os_path(&m, "plan9", "x86_64").err().unwrap();
    assert_eq!(err.to_string(), "Unsupported operating system: plan9");
}

#[test]
fn ensure_valid_kinds_allowed() {
    assert!(verify_plugin_file(Some(2), Some("process")).is_ok());
    assert!(verify_plugin_file(Some(2), None).is_ok());
    assert!(verify_plugin_file(Some(3), Some("deno")).is_ok());
    assert!(verify_plugin_file(Some(3), Some("process")).is_ok());
    assert!(matches!(verify_plugin_file(Some(2), Some("other")), Err(PluginFileError::UnsupportedKind { kind }) if kind == "other"));
    assert!(matches!(verify_plugin_file(Some(4), None), Err(PluginFileError::SchemaVersion { found: Some(4) })));
    assert!(matches!(verify_plugin_file(None, Some("process")), Err(PluginFileError::SchemaVersion { found: None })));
}

#[test]
fn should_fill_and_read_shared_bytes() {
    let mut bytes = SharedBytes::with_size(5);
    assert_eq!(bytes.data, vec![0, 0, 0, 0, 0]);
    bytes.write_chunk(&vec![1, 2]);
    bytes.write_chunk(&vec![3, 4, 5]);
    assert_eq!(bytes.index, 5);
    assert_eq!(bytes.chunk(1, 3), vec![2, 3, 4]);
    assert_eq!(bytes.take(), vec![1, 2, 3, 4, 5]);
    assert_eq!(bytes.index, 0);
    assert!(bytes.data.is_empty());
    let from = SharedBytes::from_bytes(vec![9, 8]);
    assert_eq!(from.chunk(0, 2), vec![9, 8]);
}

#[test]
fn should_round_trip_format_result_codes() {
    for code in 0u8..=2 {
        assert_eq!(WasmFormatResult::from_code(code).code(), code);
    }
    assert_eq!(WasmFormatResult::from_code(1), WasmFormatResult::Change);
    assert_eq!(WasmFormatResult::Error.code(), 2);
}

#[test]
fn should_get_schema_version_from_exports() {
    let names = |v: &[&str]| v.iter().map(|s| s.to_string()).collect::<Vec<_>>();
    assert_eq!(schema_version_from_exports(&names(&["memory", "get_plugin_schema_version"])), Ok(PluginSchemaVersion::V3));
    assert_eq!(schema_version_from_exports(&names(&["dprint_plugin_version_4"])), Ok(PluginSchemaVersion::V4));
    assert_eq!(schema_version_from_exports(&names(&["dprint_plugin_version_x", "dprint_plugin_version_4"])), Ok(PluginSchemaVersion::V4));
    assert_eq!(schema_version_from_exports(&names(&["dprint_plugin_version_5"])), Err(SchemaVersionError::TooNew { version: 5 }));
    assert_eq!(schema_version_from_exports(&names(&["dprint_plugin_version_2"])), Err(SchemaVersionError::TooOld { version: 2 }));
    assert_eq!(schema_version_from_exports(&names(&["memory"])), Err(SchemaVersionError::Undeclared));
}

#[test]
fn should_place_cache_entries() {
    assert_eq!(meta_path("abc", "/cache"), "/cache/plugins/abc.json");
    assert_eq!(artifact_file_path(PluginKind::Wasm, None, "abc", "/cache"), "/cache/plugins/abc.cwasm");
    assert_eq!(artifact_file_path(PluginKind::Process, Some("bin/exe"), "abc", "/cache/"), "/cache/plugins/abc/bin/exe");
    assert_eq!(current_signature("10", "43.0.2", "key", "linux"), "10-43.0.2-key-linux");
}

#[test]
fn should_check_local_stamps() {
    let stamps = vec![
        LocalStamp { path: "/a".to_string(), len: 10, modified_ms: 100 },
        LocalStamp { path: "/b".to_string(), len: 20, modified_ms: 200 },
    ];
    assert!(local_stamps_match(Some(&stamps), &vec![Some((10, 100)), Some((20, 200))]));
    assert!(!local_stamps_match(Some(&stamps), &vec![Some((10, 100)), Some((20, 201))]));
    assert!(!local_stamps_match(Some(&stamps), &vec![Some((10, 100)), None]));
    assert!(!local_stamps_match(Some(&vec![]), &vec![]));
    assert!(!local_stamps_match(None, &vec![]));
    assert!(cached_entry_valid("remote:x", "remote:x", false, None, &vec![]));
    assert!(!cached_entry_valid("remote:x", "remote:y", false, None, &vec![]));
    assert!(!cached_entry_valid("local:x", "local:x", true, None, &vec![]));
}

#[test]
fn should_convert_times_to_millis() {
    assert_eq!(to_unix_millis_from(Some(1234)), 1234);
    assert_eq!(to_unix_millis_from(None), 0);
    assert_eq!(to_unix_millis_from(Some(u64::MAX as u128 + 3)), 2);
    let t = std::time::SystemTime::UNIX_EPOCH + std::time::Duration::from_millis(5_000);
    assert_eq!(to_unix_millis(t), 5_000);
    let before = std::time::SystemTime::UNIX_EPOCH - std::time::Duration::from_millis(1);
    assert_eq!(to_unix_millis(before), 0);
}

#[test]
fn ensure_peek_plugin_kind() {
    assert_eq!(peek_plugin_kind(r#"{ "schemaVersion": 3, "kind": "deno" }"#.as_bytes()).as_deref(), Some("deno"));
    assert_eq!(peek_plugin_kind(r#"{ "schemaVersion": 2 }"#.as_bytes()), None);
    assert_eq!(peek_plugin_kind(b"not json"), None);
}

#[test]
fn host_format_store_records_replies() {
    let mut store = HostFormatStore::new();
    assert!(matches!(store.record_reply(Some(Ok(Some(b"formatted".to_vec())))), WasmFormatResult::Change));
    assert!(matches!(store.record_reply(Some(Ok(None))), WasmFormatResult::NoChange));
    assert!(matches!(store.record_reply(None), WasmFormatResult::NoChange));
    assert!(matches!(store.record_reply(Some(Err("boom".to_string()))), WasmFormatResult::Error));
    assert_eq!(store.take_formatted_text(), b"formatted".to_vec());
    assert!(store.take_formatted_text().is_empty());
    assert_eq!(store.take_error_text(), "boom");
    assert_eq!(store.take_error_text(), "");
    assert_eq!(WasmFormatResult::Error.code(), 2);
}

#[test]
fn host_format_range_whole_file_is_none() {
    assert_eq!(host_format_range(0, 10, 10), None);
    assert_eq!(host_format_range(2, 10, 10), Some((2, 10)));
    assert_eq!(host_format_range(0, 5, 10), Some((0, 5)));
}

#[test]
fn executables_follow_their_variables() {
    assert_eq!(npm_command_name(None), "npm");
    assert_eq!(npm_command_name(Some("pnpm")), "pnpm");
    assert_eq!(resolve_deno_executable(None), Ok("deno".to_string()));
    assert_eq!(resolve_deno_executable(Some(("/bin/deno", true))), Ok("/bin/deno".to_string()));
    assert_eq!(
        resolve_deno_executable(Some(("/missing/deno", false))),
        Err("DPRINT_DENO_PATH is set to '/missing/deno', but the file does not exist.".to_string())
    );
    assert!(node_required_message("not found").ends_with("DPRINT_NODE_PATH environment variable.\n\nnot found"));
    assert!(npm_required_message("pnpm", "x").starts_with("The 'pnpm' executable is required to run this plugin."));
}

#[test]
fn cache_keys_by_source() {
    assert_eq!(compute_cache_key(&CacheKeySource::Remote { url: "https://p.dev/a.wasm".to_string() }).unwrap(), "remote:https://p.dev/a.wasm");
    assert_eq!(compute_cache_key(&CacheKeySource::Local { absolute_path: "/a/b.wasm".to_string() }).unwrap(), "local:/a/b.wasm");
    let npm = CacheKeySource::Npm {
        registry: "https://registry.npmjs.org".to_string(),
        name: "@dprint/ts".to_string(),
        version: Some("1.0.0".to_string()),
        path: "plugin.wasm".to_string(),
        display: "npm:@dprint/ts@1.0.0".to_string(),
    };
    assert_eq!(compute_cache_key(&npm).unwrap(), "npm:https://registry.npmjs.org#@dprint/ts@1.0.0/plugin.wasm");
    let unversioned = CacheKeySource::Npm {
        registry: "r".to_string(),
        name: "@dprint/ts".to_string(),
        version: None,
        path: "plugin.wasm".to_string(),
        display: "npm:@dprint/ts".to_string(),
    };
    assert_eq!(
        compute_cache_key(&unversioned).unwrap_err().to_string(),
        "Internal error: cache key requested for unversioned npm specifier npm:@dprint/ts \u{2014} this should have been mapped to a local path."
    );
}

#[test]
fn plugin_file_error_messages() {
    assert_eq!(
        PluginFileError::SchemaVersion { found: Some(1) }.to_string(),
        "Expected schema version 2 or 3, but found 1. This may indicate you need to upgrade your CLI version or plugin."
    );
    assert_eq!(
        PluginFileError::SchemaVersion { found: None }.to_string(),
        "Expected schema version 2 or 3, but found no property. This may indicate you need to upgrade your CLI version or plugin."
    );
    assert_eq!(
        PluginFileError::UnsupportedKind { kind: "x".to_string() }.to_string(),
        "Unsupported plugin kind: x\nOnly process and deno plugins are supported by this version of dprint. Please upgrade your CLI."
    );
}

#[test]
fn bytes_cross_the_buffer_in_pieces() {
    assert_eq!(transfer_chunks(10, 4), vec![(0, 4), (4, 4), (8, 2)]);
    assert_eq!(transfer_chunks(8, 4), vec![(0, 4), (4, 4)]);
    assert_eq!(transfer_chunks(0, 4), vec![]);
    assert_eq!(transfer_chunks(3, 100), vec![(0, 3)]);
}

#[test]
fn plugin_checksum_policy() {
    assert!(check_plugin_checksum(PluginKind::Wasm, None, false, "", "abc", "https://p/a.wasm").is_ok());
    assert!(check_plugin_checksum(PluginKind::Process, Some("abc"), true, "", "abc", "https://p/a.json").is_ok());
    assert_eq!(
        check_plugin_checksum(PluginKind::Wasm, Some("x"), false, "mismatch", "abc", "s").unwrap_err(),
        "Invalid checksum specified in configuration file. Check the plugin's release notes for what the expected checksum is.\n\nmismatch"
    );
    assert_eq!(
        check_plugin_checksum(PluginKind::Process, None, false, "", "abc", "https://p/a.json").unwrap_err(),
        "The plugin must have a checksum specified for security reasons since it is not a Wasm plugin. Check the plugin's release notes for what the checksum is or if you trust the source, you may specify: https://p/a.json@abc"
    );
}

#[test]
fn npm_add_from_cache_uses_default_plugin_file() {
    let r = npm_add_from_cache(PluginKind::Wasm, "abc".to_string(), false, "");
    assert_eq!(r.path, "plugin.wasm");
    assert_eq!(r.checksum, "abc");
    assert_eq!(r.plugin_kind, PluginKind::Wasm);
    let r = npm_add_from_cache(PluginKind::Process, "def".to_string(), false, "");
    assert_eq!(r.path, "plugin.json");
    let r = npm_add_from_cache(PluginKind::Wasm, "abc".to_string(), true, "dist/custom.wasm");
    assert_eq!(r.path, "dist/custom.wasm");
    assert_eq!(default_plugin_path(PluginKind::Process), "plugin.json");
}

#[test]
fn local_archive_references_are_stamped() {
    assert!(is_local_archive_reference("./plugin-linux.zip"));
    assert!(is_local_archive_reference("file:///plugins/plugin-linux.zip"));
    assert!(!is_local_archive_reference("npm:@dprint/plugin@1.0.0"));
    assert!(!is_local_archive_reference("http://example.com/plugin.zip"));
    assert!(!is_local_archive_reference("https://example.com/plugin.zip"));
}

#[test]
fn build_local_stamps_adds_local_archive_of_process_plugin() {
    let stamp = |path: &str| LocalStamp { path: path.to_string(), len: 10, modified_ms: 20 };
    assert_eq!(build_local_stamps(None, PluginKind::Wasm, false, None), None);
    assert_eq!(build_local_stamps(Some(stamp("/a.wasm")), PluginKind::Wasm, false, Some(stamp("/b.zip"))), Some(vec![stamp("/a.wasm")]));
    assert_eq!(
        build_local_stamps(Some(stamp("/a.json")), PluginKind::Process, false, Some(stamp("/b.zip"))),
        Some(vec![stamp("/a.json"), stamp("/b.zip")])
    );
    assert_eq!(build_local_stamps(Some(stamp("/a.json")), PluginKind::Process, true, Some(stamp("/b.zip"))), Some(vec![stamp("/a.json")]));
    assert_eq!(build_local_stamps(Some(stamp("/a.json")), PluginKind::Process, false, None), Some(vec![stamp("/a.json")]));
}

#[test]
fn fd_write_logs_buffers_of_standard_streams() {
    let mut mem = vec![0u8; 32];
    // descriptor 0: address 16, length 5
    mem[0..4].copy_from_slice(&16u32.to_le_bytes());
    mem[4..8].copy_from_slice(&5u32.to_le_bytes());
    // descriptor 1: address 21, length 3
    mem[8..12].copy_from_slice(&21u32.to_le_bytes());
    mem[12..16].copy_from_slice(&3u32.to_le_bytes());
    mem[16..24].copy_from_slice(b"hello ab");

    let r = fd_write(&mem, 1, 0, 2, 28);
    assert_eq!(r.logged, vec![b"hello".to_vec(), b" ab".to_vec()]);
    assert_eq!(r.errno, 0);
    assert_eq!(r.nwritten, 8);

    // an unsupported file writes nothing
    let r = fd_write(&mem, 3, 0, 2, 28);
    assert!(r.logged.is_empty());
    assert_eq!(r.errno, 1);

    // a descriptor outside the memory stops the call after the earlier ones
    let r = fd_write(&mem, 2, 0, 5, 28);
    assert_eq!(r.logged.len(), 2);
    assert_eq!(r.errno, 1);

    // the count cannot be stored
    let r = fd_write(&mem, 2, 0, 1, 30);
    assert_eq!(r.logged, vec![b"hello".to_vec()]);
    assert_eq!(r.errno, 1);
}

#[test]
fn plugin_executable_file_name_per_platform() {
    assert_eq!(get_plugin_executable_file_name("dprint-plugin-exec", true), "dprint-plugin-exec.exe");
    assert_eq!(get_plugin_executable_file_name("dprint-plugin-exec", false), "dprint-plugin-exec");
}

#[test]
fn archive_checksum_error_names_reference() {
    assert_eq!(
        archive_checksum_error("./plugin.zip", "The checksum did not match."),
        "Invalid checksum found within process plugin's manifest file for './plugin.zip'. This is likely a bug in the process plugin. Please report it.\n\nThe checksum did not match."
    );
}

#[test]
fn format_request_registers_config_first() {
    assert_eq!(format_request_steps(false, false, false), vec![WasmFormatStep::SendFilePath, WasmFormatStep::SetFilePath, WasmFormatStep::SendFileBytes, WasmFormatStep::Format]);
    assert_eq!(
        format_request_steps(true, true, true),
        vec![WasmFormatStep::SendConfig, WasmFormatStep::RegisterConfig, WasmFormatStep::SendOverrideConfig, WasmFormatStep::SetOverrideConfig, WasmFormatStep::SendFilePath, WasmFormatStep::SetFilePath, WasmFormatStep::SendFileBytes, WasmFormatStep::FormatRange]
    );
    assert_eq!(
        format_request_steps(false, true, false),
        vec![WasmFormatStep::SendOverrideConfig, WasmFormatStep::SetOverrideConfig, WasmFormatStep::SendFilePath, WasmFormatStep::SetFilePath, WasmFormatStep::SendFileBytes, WasmFormatStep::Format]
    );
}

#[test]
fn check_process_plugin_manifest_reads_schema_and_kind() {
    assert!(check_process_plugin_manifest(br#"{"schemaVersion": 2, "name": "a"}"#).is_ok());
    assert!(check_process_plugin_manifest(br#"{"schemaVersion": 3, "kind": "deno"}"#).is_ok());
    match check_process_plugin_manifest(br#"{"schemaVersion": 1}"#) {
        Err(ManifestError::Invalid(PluginFileError::SchemaVersion { found })) => assert_eq!(found, Some(1)),
        other => panic!("unexpected {:?}", other),
    }
    let err = check_process_plugin_manifest(br#"{"schemaVersion": 3, "kind": "wasm"}"#).unwrap_err();
    assert_eq!(
        err.to_string(),
        "Unsupported plugin kind: wasm\nOnly process and deno plugins are supported by this version of dprint. Please upgrade your CLI."
    );
    match check_process_plugin_manifest(b"{") {
        Err(e @ ManifestError::Parse { .. }) => {
            let text = e.to_string();
            assert!(text.starts_with("Error deserializing plugin file: "));
            assert!(text.ends_with("\n\nThis might mean you're using an old version of dprint."));
        }
        other => panic!("unexpected {:?}", other),
    }
}

#[test]
fn take_format_request_clears_what_it_takes() {
    let mut file_path = Some("/a.ts".to_string());
    let mut shared = SharedBytes::from_bytes(b"let a;".to_vec());
    shared.index = 3;
    let mut override_config = Some(vec![("lineWidth".to_string(), ConfigKeyValue::Number(80))]);
    let request = take_format_request(&mut file_path, &mut shared, &mut override_config);
    assert_eq!(request.file_path, "/a.ts");
    assert_eq!(request.file_bytes, b"let a;".to_vec());
    assert_eq!(request.override_config.len(), 1);
    assert_eq!(request.override_config[0].0, "lineWidth");
    assert_eq!(file_path, None);
    assert!(override_config.is_none());
    assert!(shared.data.is_empty());
    assert_eq!(shared.index, 0);

    let mut file_path = Some("/b.ts".to_string());
    let mut none: Option<Vec<(String, ConfigKeyValue)>> = None;
    let request = take_format_request(&mut file_path, &mut shared, &mut none);
    assert!(request.override_config.is_empty());
    assert!(request.file_bytes.is_empty());
}
