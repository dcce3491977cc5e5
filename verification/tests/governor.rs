use browsecore::governor::{MemoryMonitor, CLEANUP_INTERVAL, MEMORY_LIMIT};
use browsecore::check_read_size;
use browsecore::errors::CoreError;
use browsecore::MAX_FILE_SIZE;

#[test]
fn fresh_ledger_is_empty() {
    let m = MemoryMonitor::default();
    assert_eq!(m.total_allocated, 0);
    assert_eq!(m.last_cleanup, 0);
}

#[test]
fn allocate_commits_the_increment() {
    let mut m = MemoryMonitor::default();
    assert!(m.allocate(1000).is_ok());
    assert_eq!(m.total_allocated, 1000);
    assert!(m.allocate(500).is_ok());
    assert_eq!(m.total_allocated, 1500);
}

#[test]
fn allocate_succeeds_exactly_up_to_the_ceiling() {
    let mut m = MemoryMonitor::default();
    assert!(m.allocate(MEMORY_LIMIT).is_ok());
    assert_eq!(m.total_allocated, MEMORY_LIMIT);
}

#[test]
fn allocate_fails_without_booking_past_the_ceiling() {
    let mut m = MemoryMonitor::default();
    assert!(m.allocate(MEMORY_LIMIT - 10).is_ok());
    let denied = m.allocate(11);
    assert!(matches!(denied, Err(CoreError::LimitExceeded)));
    assert_eq!(m.total_allocated, MEMORY_LIMIT - 10);
}

#[test]
fn cleanup_resets_only_after_the_interval() {
    let mut m = MemoryMonitor::default();
    m.allocate(4096).unwrap();
    m.check_and_cleanup(100);
    assert_eq!(m.total_allocated, 4096);
    assert_eq!(m.last_cleanup, 0);
    m.check_and_cleanup(CLEANUP_INTERVAL);
    assert_eq!(m.total_allocated, 4096);
    m.check_and_cleanup(CLEANUP_INTERVAL + 1);
    assert_eq!(m.total_allocated, 0);
    assert_eq!(m.last_cleanup, CLEANUP_INTERVAL + 1);
}

#[test]
fn cumulative_admissions_fail_from_the_first_crossing_call_onward() {
    let mut m = MemoryMonitor::default();
    m.check_and_cleanup(1000);
    let step = MEMORY_LIMIT / 3 + 1;
    assert!(m.admit_bytes(1000, step).is_ok());
    assert!(m.admit_bytes(1001, step).is_ok());
    // the third call would cross the ceiling and fails
    assert!(matches!(m.admit_bytes(1002, step), Err(CoreError::LimitExceeded)));
    // still inside the same amnesty interval: it keeps failing
    assert!(matches!(m.admit_bytes(1003, step), Err(CoreError::LimitExceeded)));
    assert!(matches!(m.admit_bytes(1000 + CLEANUP_INTERVAL, step), Err(CoreError::LimitExceeded)));
    // once the interval has elapsed, the same admission succeeds with
    // no explicit reset call
    assert!(m.admit_bytes(1001 + CLEANUP_INTERVAL + 1, step).is_ok());
    assert_eq!(m.total_allocated, step);
}

#[test]
fn read_size_gate_matches_the_ceiling_exactly() {
    assert!(check_read_size(0).is_ok());
    assert!(check_read_size(MAX_FILE_SIZE).is_ok());
    assert!(matches!(check_read_size(MAX_FILE_SIZE + 1), Err(CoreError::TooLarge)));
}

#[test]
fn errors_describe_themselves() {
    assert_eq!(CoreError::TooLarge.describe(), "content too large");
    assert_eq!(CoreError::LimitExceeded.describe(), "Memory limit exceeded");
    assert_eq!(
        CoreError::PermissionOrIo(String::from("/x")).describe(),
        "filesystem failure: /x"
    );
    assert_eq!(CoreError::NotFound(String::from("/y")).describe(), "not found: /y");
    assert_eq!(CoreError::InvalidState.describe(), "invalid session state");
}
