use lazynote::retention::{plan_log_deletions, LogRetentionPolicy, ManagedLogFile};

fn file(path: &str, modified_at_ms: u64, size_bytes: u64) -> ManagedLogFile {
    ManagedLogFile { path: path.to_string(), modified_at_ms, size_bytes }
}

const DAY: u64 = 86_400_000;

#[test]
fn retention_plan_enforces_file_count_limit() {
    let now = 400 * DAY;
    let files = vec![file("/l/lazynote_b.log", now - 2000, 12), file("/l/lazynote_a.log", now - 3000, 12), file("/l/lazynote_c.log", now - 1000, 12)];
    let policy = LogRetentionPolicy { max_age_days: 365, max_files: 2, max_total_bytes: 1024 };
    assert_eq!(plan_log_deletions(files, policy, now), vec!["/l/lazynote_a.log".to_string()]);
}

#[test]
fn retention_plan_enforces_total_size_limit() {
    let now = 400 * DAY;
    let files = vec![file("/l/a.log", now - 3000, 8), file("/l/b.log", now - 2000, 8), file("/l/c.log", now - 1000, 8)];
    let policy = LogRetentionPolicy { max_age_days: 365, max_files: 20, max_total_bytes: 12 };
    let planned = plan_log_deletions(files, policy, now);
    assert_eq!(planned, vec!["/l/a.log".to_string(), "/l/b.log".to_string()]);
}

#[test]
fn retention_plan_age_zero_removes_existing_logs() {
    let now = 10 * DAY;
    let files = vec![file("/l/lazynote_age_a.log", now, 4), file("/l/lazynote_age_b.log", now - 5, 4)];
    let policy = LogRetentionPolicy { max_age_days: 0, max_files: 20, max_total_bytes: 1024 };
    assert_eq!(plan_log_deletions(files, policy, now).len(), 2);
}

#[test]
fn retention_plan_keeps_newest_oversized_file_and_breaks_ties_by_path() {
    let now = 10 * DAY;
    let files = vec![file("/l/y.log", now - 10, 100), file("/l/x.log", now - 10, 100), file("/l/old.log", now - 8 * DAY, 1)];
    let policy = LogRetentionPolicy::default();
    assert_eq!(policy.max_files, 20);
    assert_eq!(plan_log_deletions(files.clone(), policy, now), vec!["/l/old.log".to_string()]);
    let tight = LogRetentionPolicy { max_age_days: 7, max_files: 20, max_total_bytes: 50 };
    assert_eq!(plan_log_deletions(files, tight, now), vec!["/l/old.log".to_string(), "/l/y.log".to_string()]);
}

#[test]
fn retention_plan_lists_paths_ascending_once() {
    let now = 100 * DAY;
    let files = vec![
        file("/l/lazynote_b.log", now - 9 * DAY, 1),
        file("/l/lazynote_a.log", now - 20 * DAY, 1),
        file("/l/lazynote_b.log", now - 30 * DAY, 1),
    ];
    let policy = LogRetentionPolicy { max_age_days: 7, max_files: 20, max_total_bytes: 0 };
    assert_eq!(
        plan_log_deletions(files, policy, now),
        vec!["/l/lazynote_a.log".to_string(), "/l/lazynote_b.log".to_string()]
    );
}
