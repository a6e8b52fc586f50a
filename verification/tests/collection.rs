use dprint::collection::RegisteredConfigs;
use dprint::collection::AfterFormatFailure;
use dprint::collection::get_plugins_hash;
use dprint::collection::AfterCreateStep;
use dprint::collection::HostFormatChain;
use dprint::collection::PluginInitState;
use dprint::collection::PluginRequestStep;

#[test]
fn plugins_hash_wraps_and_ignores_order() {
    assert_eq!(get_plugins_hash(&vec![]), 0);
    assert_eq!(get_plugins_hash(&vec![1, 2, 3]), 6);
    assert_eq!(get_plugins_hash(&vec![u64::MAX, 2]), 1);
    assert_eq!(get_plugins_hash(&vec![5, u64::MAX, 9]), get_plugins_hash(&vec![9, 5, u64::MAX]));
}

#[test]
fn plugin_is_handed_out_only_after_passing_its_check() {
    let mut state = PluginInitState::new();
    assert_eq!(state.on_request(), PluginRequestStep::CreateInstance);
    assert_eq!(state.after_create(), AfterCreateStep::CheckDiagnostics);
    assert_eq!(state.on_diagnostics_checked(true), AfterCreateStep::Keep);
    state.on_kept();
    assert_eq!(state.on_request(), PluginRequestStep::UseInitialized);
}

#[test]
fn plugin_with_diagnostics_is_never_handed_out() {
    let mut state = PluginInitState::new();
    assert_eq!(state.after_create(), AfterCreateStep::CheckDiagnostics);
    assert_eq!(state.on_diagnostics_checked(false), AfterCreateStep::HadDiagnostics);
    // asked again, the diagnostics are not checked a second time
    assert_eq!(state.on_request(), PluginRequestStep::CreateInstance);
    assert_eq!(state.after_create(), AfterCreateStep::HadDiagnostics);
}

#[test]
fn host_format_chain_reports_changes() {
    let mut chain = HostFormatChain::new(b"a".to_vec());
    chain.on_plugin_output(None);
    assert_eq!(HostFormatChain { text: chain.text.clone(), had_change: chain.had_change }.finish(), None);
    chain.on_plugin_output(Some(b"b".to_vec()));
    chain.on_plugin_output(None);
    assert_eq!(chain.finish(), Some(b"b".to_vec()));
}

#[test]
fn configs_are_registered_once_until_restart() {
    let mut configs = RegisteredConfigs::new();
    assert!(configs.needs_registration(1));
    configs.mark_registered(1);
    assert!(!configs.needs_registration(1));
    assert!(configs.needs_registration(2));
    assert_eq!(configs.after_format_failure(true), AfterFormatFailure::KeepProcess);
    assert!(!configs.needs_registration(1));
    assert_eq!(configs.after_format_failure(false), AfterFormatFailure::RestartProcess);
    assert!(configs.needs_registration(1));
}
