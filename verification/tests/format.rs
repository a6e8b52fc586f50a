use dprint::format::run_outcome;
use dprint::format::plugin_creation_failure_text;
use dprint::format::file_failure;
use dprint::format::add_permits;
use dprint::format::bytes_equal;
use dprint::format::distribute_permits;
use dprint::format::error_count_text;
use dprint::format::formatted_to_empty;
use dprint::format::formatted_to_empty_text;
use dprint::format::not_stable_text;
use dprint::format::order_by_file_count;
use dprint::format::plan_work;
use dprint::format::should_stabilize;
use dprint::format::thread_count;
use dprint::format::throttle_cpu;
use dprint::format::CpuThrottle;
use dprint::format::EnsureStableFormat;
use dprint::format::SemaphoreState;
use dprint::format::StabilizeOutcome;
use dprint::format::StabilizeState;
use dprint::format::ThrottleAction;
use dprint::text::decimal_text;

fn sem(max: usize, acquired: usize) -> SemaphoreState {
    SemaphoreState { closed: false, max_permits: max, acquired_permits: acquired }
}

#[test]
fn test_throttle_cpu() {
    let mut states = vec![sem(1, 1), sem(2, 2)];
    assert!(throttle_cpu(&mut states));
    assert_eq!(states[1].max_permits, 1);
    // still a pending removal
    assert!(!throttle_cpu(&mut states));
    states[1].acquired_permits = 1;
    assert!(throttle_cpu(&mut states));
    assert_eq!(states[0].max_permits, 0);
    assert_eq!(states[1].max_permits, 1);
    assert!(!throttle_cpu(&mut states));
    states[1].acquired_permits = 0;
    // only one permit remaining
    assert!(!throttle_cpu(&mut states));
    states[0].acquired_permits = 0;
    assert!(!throttle_cpu(&mut states));
}

#[test]
fn should_count_threads() {
    assert_eq!(thread_count(8, 0), 7);
    assert_eq!(thread_count(8, 2), 5);
    assert_eq!(thread_count(2, 1), 1);
    assert_eq!(thread_count(1, 0), 1);
}

#[test]
fn should_distribute_permits_with_remainder_first() {
    assert_eq!(distribute_permits(7, 3), vec![3, 2, 2]);
    assert_eq!(distribute_permits(2, 3), vec![1, 1, 0]);
    assert_eq!(distribute_permits(6, 3), vec![2, 2, 2]);
}

#[test]
fn should_order_groups_by_file_count() {
    assert_eq!(order_by_file_count(&vec![1, 5, 3, 5]), vec![1, 3, 2, 0]);
    let plan = plan_work(8, 1, &vec![2, 10, 4]);
    assert_eq!(plan.number_threads, 6);
    assert_eq!(plan.order, vec![1, 2, 0]);
    assert_eq!(plan.permits, vec![2, 2, 2]);
}

#[test]
fn should_add_permits_to_smallest_first() {
    let mut states = vec![sem(3, 0), SemaphoreState { closed: true, max_permits: 1, acquired_permits: 0 }, sem(1, 0), sem(2, 0)];
    add_permits(&mut states, 2);
    assert_eq!(states[0].max_permits, 3);
    assert_eq!(states[1].max_permits, 1);
    assert_eq!(states[2].max_permits, 2);
    assert_eq!(states[3].max_permits, 3);
}

#[test]
fn should_throttle_and_recover_with_cpu_usage() {
    let mut throttle = CpuThrottle::new(90, 80);
    let mut states = vec![sem(2, 0), sem(3, 0)];
    assert_eq!(throttle.on_cpu_usage(95, &mut states), ThrottleAction::Reduced);
    assert_eq!(states[1].max_permits, 2);
    assert_eq!(throttle.throttled_times, 1);
    // the last reading was high, so a single low reading is not enough
    assert_eq!(throttle.on_cpu_usage(50, &mut states), ThrottleAction::Unchanged);
    assert_eq!(throttle.on_cpu_usage(50, &mut states), ThrottleAction::Increased);
    assert_eq!(throttle.throttled_times, 0);
    assert_eq!(states[0].max_permits + states[1].max_permits, 5);
    // nothing to give back
    assert_eq!(throttle.on_cpu_usage(10, &mut states), ThrottleAction::Unchanged);
}

#[test]
fn should_stabilize_format() {
    let mut state = StabilizeState::new(b"a".to_vec());
    assert!(matches!(state.on_pass(Some(b"b".to_vec())), StabilizeOutcome::Again));
    assert!(matches!(state.on_pass(Some(b"b".to_vec())), StabilizeOutcome::Stable));
    assert_eq!(state.formatted, b"b".to_vec());
    let mut state = StabilizeState::new(b"a".to_vec());
    assert!(matches!(state.on_pass(None), StabilizeOutcome::PassFailed));
    let mut state = StabilizeState::new(b"0".to_vec());
    for i in 1..5 {
        assert!(matches!(state.on_pass(Some(vec![i])), StabilizeOutcome::Again));
    }
    assert!(matches!(state.on_pass(Some(vec![9])), StabilizeOutcome::NotStable));
    assert_eq!(state.count, 5);
    assert!(should_stabilize(EnsureStableFormat(true), &b"a".to_vec(), &b"b".to_vec()));
    assert!(!should_stabilize(EnsureStableFormat(true), &b"a".to_vec(), &b"a".to_vec()));
    assert!(!should_stabilize(EnsureStableFormat(false), &b"a".to_vec(), &b"b".to_vec()));
    assert!(bytes_equal(&vec![1, 2], &vec![1, 2]));
    assert!(!bytes_equal(&vec![1, 2], &vec![1]));
}

#[test]
fn should_detect_formatting_to_empty() {
    let long = vec![b'a'; 400];
    assert!(formatted_to_empty(&long, &b"  \n".to_vec()));
    assert!(!formatted_to_empty(&long, &b"x".to_vec()));
    let mut padded = vec![b' '; 200];
    padded.extend(vec![b'a'; 150]);
    assert!(!formatted_to_empty(&padded, &vec![]));
    assert!(!formatted_to_empty(&vec![b'a'; 250], &vec![]));
    assert!(formatted_to_empty_text().starts_with("The original file text was greater than 300 characters"));
}

#[test]
fn should_write_messages() {
    assert_eq!(error_count_text(1), "Had 1 error formatting.");
    assert_eq!(error_count_text(12), "Had 12 errors formatting.");
    assert_eq!(
        not_stable_text(5),
        "Formatting not stable. Bailed after 5 tries. This indicates a bug in the plugin where it formats the file differently each time."
    );
    assert_eq!(decimal_text(0), "0");
    assert_eq!(decimal_text(10), "10");
    assert_eq!(decimal_text(usize::MAX), usize::MAX.to_string());
}

#[test]
fn run_outcome_counts_every_failure() {
    assert_eq!(run_outcome(0, 0, 0), Ok(()));
    assert_eq!(run_outcome(1, 0, 0), Err("Had 1 error formatting.".to_string()));
    assert_eq!(run_outcome(1, 2, 3), Err("Had 6 errors formatting.".to_string()));
    assert_eq!(run_outcome(0, 0, 2), Err("Had 2 errors formatting.".to_string()));
}

#[test]
fn failure_texts() {
    assert_eq!(plugin_creation_failure_text("json", "boom"), "Error creating plugin json. Message: boom");
    assert_eq!(file_failure("/a.ts", "bad", false), ("Error formatting /a.ts. Message: bad".to_string(), false));
    assert_eq!(
        file_failure("/a.ts", "bad", true),
        ("Critical error formatting /a.ts. Cannot continue. Message: bad".to_string(), true)
    );
}
