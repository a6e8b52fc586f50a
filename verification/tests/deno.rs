use dprint::permissions::default_deno_permissions;
use dprint::permissions::permissions_to_deno_args;
use dprint::permissions::validate_permissions;
use dprint::permissions::build_deno_pre_args;
use dprint::permissions::get_allow_scripts;
use dprint::permissions::DenoPermissionValue;
use dprint::permissions::DenoPermissions;

#[test]
fn test_permissions_to_deno_args() {
  let plugin_dir = "/cache/plugins/test/0.1.0";
  let mut perms = DenoPermissions::new();
  perms.insert("env".to_string(), DenoPermissionValue::Boolean(true));
  perms.insert("read".to_string(), DenoPermissionValue::Scoped(vec![".".to_string()]));
  perms.insert("write".to_string(), DenoPermissionValue::Boolean(false));
  perms.insert("allowScripts".to_string(), DenoPermissionValue::Scoped(vec!["npm:esbuild".to_string()]));

  let args = permissions_to_deno_args(&perms, plugin_dir);
  assert_eq!(
    args,
    vec![
      "--allow-env",
      "--allow-read=.,/cache/plugins/test/0.1.0",
      // write is explicitly false, but plugin dir still gets access
      "--allow-write=/cache/plugins/test/0.1.0",
    ]
  );
}

#[test]
fn test_permissions_to_deno_args_full_access() {
  let plugin_dir = "/cache/plugins/test/0.1.0";
  let mut perms = DenoPermissions::new();
  perms.insert("read".to_string(), DenoPermissionValue::Boolean(true));

  let args = permissions_to_deno_args(&perms, plugin_dir);
  assert_eq!(
    args,
    vec![
      "--allow-read",
      // write not specified, but plugin dir still gets write access
      "--allow-write=/cache/plugins/test/0.1.0",
    ]
  );
}

#[test]
fn test_permissions_to_deno_args_no_permissions() {
  let plugin_dir = "/cache/plugins/test/0.1.0";
  let perms = DenoPermissions::new();

  let args = permissions_to_deno_args(&perms, plugin_dir);
  assert_eq!(args, vec!["--allow-read=/cache/plugins/test/0.1.0", "--allow-write=/cache/plugins/test/0.1.0",]);
}

#[test]
fn test_default_permissions() {
  let plugin_dir = "/cache/plugins/test/0.1.0";
  let perms = default_deno_permissions();
  let args = permissions_to_deno_args(&perms, plugin_dir);
  assert_eq!(args, vec!["--allow-env", "--allow-read", "--allow-write=/cache/plugins/test/0.1.0"]);
}

#[test]
fn test_validate_permissions_ok() {
  let mut required = DenoPermissions::new();
  required.insert("env".to_string(), DenoPermissionValue::Boolean(true));
  required.insert("read".to_string(), DenoPermissionValue::Boolean(true));

  let mut granted = DenoPermissions::new();
  granted.insert("env".to_string(), DenoPermissionValue::Boolean(true));
  granted.insert("read".to_string(), DenoPermissionValue::Scoped(vec![".".to_string()]));

  assert!(validate_permissions(&required, &granted).is_ok());
}

#[test]
fn test_validate_permissions_missing() {
  let mut required = DenoPermissions::new();
  required.insert("env".to_string(), DenoPermissionValue::Boolean(true));
  required.insert("net".to_string(), DenoPermissionValue::Boolean(true));

  let mut granted = DenoPermissions::new();
  granted.insert("env".to_string(), DenoPermissionValue::Boolean(true));

  let err = validate_permissions(&required, &granted).unwrap_err();
  assert!(err.to_string().contains("'net' permission"), "{}", err.to_string());
}

#[test]
fn test_validate_allow_scripts_missing() {
  let mut required = DenoPermissions::new();
  required.insert("allowScripts".to_string(), DenoPermissionValue::Scoped(vec!["npm:esbuild".to_string()]));

  let granted = DenoPermissions::new();
  let err = validate_permissions(&required, &granted).unwrap_err();
  assert!(err.to_string().contains("allowScripts"), "{}", err.to_string());
}

#[test]
fn validate_reports_first_missing_key_in_key_order() {
  let mut required = DenoPermissions::new();
  required.insert("write".to_string(), DenoPermissionValue::Boolean(true));
  required.insert("net".to_string(), DenoPermissionValue::Boolean(true));
  let granted = DenoPermissions::new();
  let err = validate_permissions(&required, &granted).unwrap_err();
  assert_eq!(
    err.to_string(),
    "Plugin requires 'net' permission, but it was not granted in the plugin's config. Add it to the \"permissions\" in the plugin's configuration section."
  );
}

#[test]
fn validate_allow_scripts_lists_quoted_scripts() {
  let mut required = DenoPermissions::new();
  required.insert("allowScripts".to_string(), DenoPermissionValue::Scoped(vec!["npm:a".to_string(), "npm:b".to_string()]));
  let granted = DenoPermissions::new();
  let err = validate_permissions(&required, &granted).unwrap_err();
  assert_eq!(
    err.to_string(),
    "Plugin requires allowScripts for [npm:a, npm:b], but none were granted in the plugin's config. Add \"allowScripts\": [\"npm:a\", \"npm:b\"] to the \"permissions\" in the plugin's configuration section."
  );
}

#[test]
fn validate_allow_scripts_partially_granted() {
  let mut required = DenoPermissions::new();
  required.insert("allowScripts".to_string(), DenoPermissionValue::Scoped(vec!["npm:a".to_string(), "npm:b".to_string()]));
  let mut granted = DenoPermissions::new();
  granted.insert("allowScripts".to_string(), DenoPermissionValue::Scoped(vec!["npm:a".to_string()]));
  let err = validate_permissions(&required, &granted).unwrap_err();
  assert!(err.to_string().starts_with("Plugin requires allowScripts for 'npm:b'"));
  granted.insert("allowScripts".to_string(), DenoPermissionValue::Scoped(vec!["npm:b".to_string(), "npm:a".to_string()]));
  assert!(validate_permissions(&required, &granted).is_ok());
}

#[test]
fn scoped_non_rw_permission_joins_scopes() {
  let mut perms = DenoPermissions::new();
  perms.insert("net".to_string(), DenoPermissionValue::Scoped(vec!["a.com".to_string(), "b.com".to_string()]));
  perms.insert("sys".to_string(), DenoPermissionValue::Scoped(vec![]));
  let args = permissions_to_deno_args(&perms, "/p");
  assert_eq!(args, vec!["--allow-read=/p", "--allow-write=/p", "--allow-net=a.com,b.com"]);
}

#[test]
fn builds_deno_pre_args() {
  let perms = default_deno_permissions();
  let args = build_deno_pre_args(&perms, "/cache/plugin", "/cache/plugin/main.ts");
  assert_eq!(
    args,
    vec!["run", "--config=/cache/plugin/deno.json", "--allow-env", "--allow-read", "--allow-write=/cache/plugin", "/cache/plugin/main.ts"]
  );
}

#[test]
fn gets_allow_scripts() {
  let mut perms = DenoPermissions::new();
  assert_eq!(get_allow_scripts(&perms), None);
  perms.insert("allowScripts".to_string(), DenoPermissionValue::Scoped(vec![]));
  assert_eq!(get_allow_scripts(&perms), None);
  perms.insert("allowScripts".to_string(), DenoPermissionValue::Scoped(vec!["npm:x".to_string()]));
  assert_eq!(get_allow_scripts(&perms), Some(vec!["npm:x".to_string()]));
}

#[test]
fn insert_replaces_and_orders_keys() {
  let mut perms = DenoPermissions::new();
  perms.insert("write".to_string(), DenoPermissionValue::Boolean(true));
  perms.insert("env".to_string(), DenoPermissionValue::Boolean(true));
  perms.insert("write".to_string(), DenoPermissionValue::Boolean(false));
  assert_eq!(perms.len(), 2);
  assert_eq!(perms.entry(0).0, "env");
  assert_eq!(perms.entry(1).0, "write");
  assert!(matches!(perms.get("write"), Some(DenoPermissionValue::Boolean(false))));
  assert!(perms.get("read").is_none());
}

#[test]
fn deno_install_arguments_and_outcome() {
    assert_eq!(
        dprint::permissions::allow_scripts_arg(&vec!["esbuild".to_string(), "sharp".to_string()]),
        "--allow-scripts=esbuild,sharp"
    );
    assert!(dprint::permissions::deno_install_outcome("p", Some(0)).is_ok());
    assert_eq!(
        dprint::permissions::deno_install_outcome("p", Some(-3)).unwrap_err(),
        "Failed to run 'deno install' for plugin p. Exit code: Some(-3)"
    );
    assert_eq!(
        dprint::permissions::deno_install_outcome("p", None).unwrap_err(),
        "Failed to run 'deno install' for plugin p. Exit code: None"
    );
}
