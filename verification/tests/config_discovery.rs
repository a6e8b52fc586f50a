use dprint::canonicalized_path_buf::CanonicalizedPathBuf;
use dprint::config_discovery::global_config_not_found_message;
use dprint::config_discovery::refuse_global_format_message;
use dprint::config_discovery::system_config_dir_message;
use dprint::config_discovery::confirm_format_prompt;
use dprint::config_discovery::global_config_file_name;
use dprint::config_discovery::global_format_guard;
use dprint::config_discovery::main_config_after_ancestors;
use dprint::config_discovery::main_config_first_step;
use dprint::config_discovery::no_config_outcome;
use dprint::config_discovery::ConfigSearchStep;
use dprint::config_discovery::DiscoveryMode;
use dprint::config_discovery::GlobalFormatGuard;
use dprint::config_discovery::NoConfigOutcome;

const DEFAULT: DiscoveryMode = DiscoveryMode { global: false, default: true, traverse_ancestors: true };
const GLOBAL: DiscoveryMode = DiscoveryMode { global: true, default: false, traverse_ancestors: false };
const OFF: DiscoveryMode = DiscoveryMode { global: false, default: false, traverse_ancestors: false };

#[test]
fn config_arg_wins() {
    assert_eq!(main_config_first_step(true, GLOBAL, true), ConfigSearchStep::UseConfigArg);
    assert_eq!(main_config_first_step(true, DEFAULT, true), ConfigSearchStep::UseConfigArg);
}

#[test]
fn discovery_order() {
    assert_eq!(main_config_first_step(false, GLOBAL, true), ConfigSearchStep::RequireGlobal);
    assert_eq!(main_config_first_step(false, DEFAULT, true), ConfigSearchStep::SearchAncestors);
    assert_eq!(main_config_after_ancestors(DEFAULT, true), ConfigSearchStep::TryGlobal);
    assert_eq!(main_config_after_ancestors(DEFAULT, false), ConfigSearchStep::NoConfig);
    assert_eq!(main_config_first_step(false, OFF, true), ConfigSearchStep::NoConfig);
}

#[test]
fn global_file_prefers_jsonc() {
    assert_eq!(global_config_file_name(true, true), Some("dprint.jsonc".to_string()));
    assert_eq!(global_config_file_name(false, true), Some("dprint.json".to_string()));
    assert_eq!(global_config_file_name(false, false), None);
}

#[test]
fn formatting_with_global_config_asks_first() {
    assert_eq!(global_format_guard(true, true, false, false, false, false, true), GlobalFormatGuard::Confirm);
    assert_eq!(global_format_guard(true, true, false, false, false, false, false), GlobalFormatGuard::Refuse);
    assert_eq!(global_format_guard(true, true, false, true, false, false, false), GlobalFormatGuard::Proceed);
    assert_eq!(global_format_guard(true, true, false, false, false, true, false), GlobalFormatGuard::Proceed);
    assert_eq!(global_format_guard(false, true, false, false, false, false, false), GlobalFormatGuard::Proceed);
    assert_eq!(global_format_guard(true, false, false, false, false, false, false), GlobalFormatGuard::Proceed);
}

#[test]
fn without_config_file() {
    let cwd = CanonicalizedPathBuf::new_for_testing("/project");
    match no_config_outcome(true, true, &cwd) {
        NoConfigOutcome::EmptyConfig { config_path } => assert_eq!(config_path.display(), "/project/dprint.json"),
        other => panic!("unexpected {:?}", other),
    }
    match no_config_outcome(false, true, &cwd) {
        NoConfigOutcome::NotFound { config_path } => assert_eq!(config_path.display(), "/project/dprint.json"),
        other => panic!("unexpected {:?}", other),
    }
    assert!(matches!(no_config_outcome(false, false, &cwd), NoConfigOutcome::DiscoveryDisabled));
}

#[test]
fn confirm_prompt_text() {
    assert_eq!(confirm_format_prompt("/home", Some(true)), "Warning You're not in a dprint project. Format '/home' anyway? Y");
    assert!(confirm_format_prompt("/home", None).ends_with("(ex. `dprint fmt .`)"));
}

#[test]
fn global_configuration_messages() {
    assert_eq!(global_config_not_found_message(), "Could not find global dprint.json file. Create one with `dprint init --global`");
    assert_eq!(
        refuse_global_format_message(),
        "Did not format directory without configuration file. Run `dprint fmt .` or `dprint fmt --config-discovery=global` to bypass this error."
    );
    assert_eq!(
        system_config_dir_message("no home"),
        "Could not find system config directory. Maybe specify the DPRINT_CONFIG_DIR environment variable to say where to store the global dprint configuration file.: no home"
    );
}
