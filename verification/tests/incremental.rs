use dprint::incremental::use_incremental;
use std::collections::HashSet;
use dprint::incremental::IncrementalFileData;
use dprint::incremental::IncrementalState;

fn data(hash: u64, hashes: &[u64]) -> IncrementalFileData {
    IncrementalFileData { plugins_hash: hash, file_hashes: hashes.iter().copied().collect() }
}

#[test]
fn should_decide_whether_incremental() {
    assert!(use_incremental(None, None));
    assert!(!use_incremental(Some(false), Some(true)));
    assert!(use_incremental(Some(true), Some(false)));
    assert!(!use_incremental(None, Some(false)));
}

#[test]
fn should_drop_data_of_other_plugins() {
    let state = IncrementalState::new(Some(data(1, &[5])), 2, false);
    assert!(state.read_data.is_none());
    let state = IncrementalState::new(Some(data(2, &[5])), 2, false);
    assert!(state.read_data.is_some());
    assert_eq!(IncrementalFileData::new(7).plugins_hash, 7);
}

#[test]
fn should_skip_write_when_nothing_new() {
    let mut state = IncrementalState::new(Some(data(1, &[5, 6])), 1, false);
    assert!(state.is_file_known_formatted(5));
    assert!(!state.is_file_known_formatted(9));
    assert!(state.write_plan().is_none());
}

#[test]
fn should_write_only_seen_hashes_on_full_run() {
    let mut state = IncrementalState::new(Some(data(1, &[5, 6])), 1, false);
    assert!(state.is_file_known_formatted(5));
    state.update_file(8);
    state.update_file(8);
    let plan = state.write_plan().unwrap();
    assert_eq!(plan.plugins_hash, 1);
    assert_eq!(plan.file_hashes, HashSet::from([5, 8]));
}

#[test]
fn should_keep_unseen_hashes_on_partial_run() {
    let mut state = IncrementalState::new(Some(data(1, &[5, 6])), 1, true);
    state.update_file(8);
    let plan = state.write_plan().unwrap();
    assert_eq!(plan.file_hashes, HashSet::from([5, 6, 8]));
}

#[test]
fn should_write_new_file_without_read_data() {
    let mut state = IncrementalState::new(None, 3, true);
    assert!(!state.is_file_known_formatted(5));
    state.update_file(5);
    let plan = state.write_plan().unwrap();
    assert_eq!(plan.file_hashes, HashSet::from([5]));
    assert_eq!(plan.plugins_hash, 3);
}
