use lazynote::bridge::{core_version, entry_create_note, entry_create_task, entry_schedule, entry_search, normalize_entry_limit, ping};
use lazynote::logging::{is_managed_log_file, logging_conflict, log_dart_event, normalize_level, normalize_log_dir, sanitize_inline_field, sanitize_message};
use lazynote::row::{atom_type_to_db, bool_to_int, parse_atom_type, parse_task_status, task_status_to_db};
use lazynote::sync::{ProviderAuthState, ProviderErrorEnvelope, ProviderHealth, ProviderStatus, SyncStage, SyncSummary};
use lazynote::{check_schema, parse_atom_row, ping_text, version_text, AtomRowValues, AtomType, LogDartEventError, RepoError, TaskStatus};

#[test]
fn normalize_level_accepts_known_values() {
    assert_eq!(normalize_level("INFO").expect("INFO should normalize"), "info");
    assert_eq!(normalize_level(" warning ").expect("warning should normalize"), "warn");
}

#[test]
fn normalize_level_rejects_unknown() {
    assert!(normalize_level("verbose").is_err());
    assert_eq!(normalize_level("Error"), Ok("error"));
}

#[test]
fn normalize_log_dir_rejects_relative_path() {
    let error = normalize_log_dir("logs/dev").expect_err("relative paths must be rejected");
    assert!(error.contains("absolute"));
}

#[test]
fn normalize_log_dir_rejects_empty_and_keeps_absolute() {
    assert_eq!(normalize_log_dir("   "), Err("log_dir cannot be empty".to_string()));
    assert_eq!(normalize_log_dir("  /var/log/app "), Ok("/var/log/app".to_string()));
}

#[test]
fn sanitize_message_removes_newlines_and_truncates() {
    let sanitized = sanitize_message("line1\nline2\rline3", 8);
    assert!(!sanitized.contains('\n'));
    assert!(!sanitized.contains('\r'));
    assert!(sanitized.ends_with("..."));
}

#[test]
fn sanitize_exact_values() {
    assert_eq!(sanitize_message("line1\nline2\rline3", 8), "line1 li...");
    assert_eq!(sanitize_message("short", 8), "short");
    assert_eq!(sanitize_inline_field("  a\nb\r "), "a b");
}

#[test]
fn log_dart_event_rejects_invalid_level() {
    let result = log_dart_event("verbose", "startup", "app", "hello");
    assert!(matches!(
        result,
        Err(LogDartEventError::InvalidLevel(value)) if value == "verbose"
    ));
}

#[test]
fn log_dart_event_sanitizes_fields() {
    let event = log_dart_event(" WARNING", " boot\n", "ui\rshell", "hi\nthere ").unwrap();
    assert_eq!(event.level, "warn");
    assert_eq!(event.event_name, "boot");
    assert_eq!(event.module, "ui shell");
    assert_eq!(event.message, "hi there");
}

#[test]
fn managed_log_file_names() {
    assert!(is_managed_log_file("lazynote_pid1_2024.log"));
    assert!(is_managed_log_file("LazyNote.LOG"));
    assert!(!is_managed_log_file("other.log"));
    assert!(!is_managed_log_file("lazynote.txt"));
}

#[test]
fn ping_text_returns_pong() {
    assert_eq!(ping_text(), "pong");
}

#[test]
fn lib_version_is_not_empty() {
    assert!(!version_text().is_empty());
}

#[test]
fn ping_returns_pong() {
    assert_eq!(ping(), "pong");
}

#[test]
fn api_version_is_not_empty() {
    assert!(!core_version().is_empty());
}

#[test]
fn entry_search_normalizes_limit_in_phase_one() {
    let response = entry_search("hello world", Some(42));
    assert_eq!(response.items.len(), 0);
    assert_eq!(response.applied_limit, 10);
    assert!(response.message.contains("scaffold ready"));
}

#[test]
fn entry_limit_defaults() {
    assert_eq!(normalize_entry_limit(None), 10);
    assert_eq!(normalize_entry_limit(Some(0)), 10);
    assert_eq!(normalize_entry_limit(Some(3)), 3);
    assert_eq!(entry_search("  hi  ", Some(3)).message, "entry_search scaffold ready (query_len=2, limit=3)");
}

#[test]
fn entry_commands_are_explicitly_scaffolded_in_phase_one() {
    let note = entry_create_note("draft");
    let task = entry_create_task("todo");
    let schedule = entry_schedule("event", 1_000, Some(2_000));

    assert!(!note.ok);
    assert!(!task.ok);
    assert!(!schedule.ok);
    assert!(note.message.contains("phase 1"));
    assert!(task.message.contains("phase 1"));
    assert!(schedule.message.contains("phase 1"));
}

#[test]
fn codecs_round_trip() {
    for kind in [AtomType::Note, AtomType::Task, AtomType::Event] {
        assert_eq!(parse_atom_type(atom_type_to_db(kind)), Some(kind));
    }
    for status in [TaskStatus::Todo, TaskStatus::InProgress, TaskStatus::Done, TaskStatus::Cancelled] {
        assert_eq!(parse_task_status(task_status_to_db(status)), Some(status));
    }
    assert_eq!(task_status_to_db(TaskStatus::InProgress), "in_progress");
    assert_eq!(parse_atom_type("Note"), None);
    assert_eq!(parse_task_status("finished"), None);
    assert_eq!(bool_to_int(true), 1);
    assert_eq!(bool_to_int(false), 0);
}

fn row(uuid: &str, kind: &str, status: Option<&str>, deleted: i64) -> AtomRowValues {
    AtomRowValues {
        uuid: uuid.to_string(),
        kind: kind.to_string(),
        content: "body".to_string(),
        preview_text: None,
        preview_image: None,
        task_status: status.map(|s| s.to_string()),
        start_at: Some(5),
        end_at: Some(9),
        recurrence_rule: None,
        hlc_timestamp: Some("h1".to_string()),
        is_deleted: deleted,
    }
}

#[test]
fn parse_atom_row_reads_valid_rows() {
    let text = "67e55044-10b1-426f-9247-bb680e5fe0c8";
    let atom = parse_atom_row(&row(text, "event", Some("done"), 1)).unwrap();
    assert_eq!(atom.uuid, 0x67e5504410b1426f9247bb680e5fe0c8u128);
    assert_eq!(atom.kind, AtomType::Event);
    assert_eq!(atom.task_status, Some(TaskStatus::Done));
    assert!(atom.is_deleted);
    assert_eq!(atom.hlc_timestamp, Some("h1".to_string()));
}

#[test]
fn parse_atom_row_rejects_bad_columns() {
    let text = "67e55044-10b1-426f-9247-bb680e5fe0c8";
    assert!(matches!(parse_atom_row(&row("not-a-uuid", "note", None, 0)), Err(RepoError::InvalidData(_))));
    assert!(matches!(parse_atom_row(&row(text, "memo", None, 0)), Err(RepoError::InvalidData(_))));
    assert!(matches!(parse_atom_row(&row(text, "note", Some("later"), 0)), Err(RepoError::InvalidData(_))));
    assert!(matches!(parse_atom_row(&row(text, "note", None, 2)), Err(RepoError::InvalidData(_))));
    let mut bad_window = row(text, "event", None, 0);
    bad_window.end_at = Some(1);
    assert!(matches!(parse_atom_row(&bad_window), Err(RepoError::InvalidData(_))));
}

fn all_columns() -> Vec<String> {
    [
        "uuid", "type", "content", "preview_text", "preview_image", "task_status", "start_at",
        "end_at", "recurrence_rule", "hlc_timestamp", "is_deleted", "updated_at",
    ]
    .iter()
    .map(|c| c.to_string())
    .collect()
}

#[test]
fn schema_check_reports_first_problem() {
    assert_eq!(check_schema(7, 7, true, &all_columns()), Ok(()));
    assert_eq!(
        check_schema(7, 6, true, &all_columns()),
        Err(RepoError::UninitializedConnection { expected_version: 7, actual_version: 6 })
    );
    assert_eq!(check_schema(7, 7, false, &all_columns()), Err(RepoError::MissingRequiredTable("atoms".to_string())));
    let partial: Vec<String> = all_columns().into_iter().filter(|c| c != "start_at" && c != "end_at").collect();
    assert_eq!(
        check_schema(7, 7, true, &partial),
        Err(RepoError::MissingRequiredColumn { table: "atoms".to_string(), column: "start_at".to_string() })
    );
}

#[test]
fn provider_values_are_trimmed() {
    let status = ProviderStatus::unauthenticated("gcal");
    assert_eq!(status.provider_id, "gcal");
    assert_eq!(status.health, ProviderHealth::Unavailable);
    assert_eq!(status.auth_state, ProviderAuthState::Unauthenticated);
    assert_eq!(status.last_sync_at_ms, None);

    let envelope = ProviderErrorEnvelope::new(" gcal ", SyncStage::Push, " rate_limited\n", "  slow down ", true);
    assert_eq!(envelope.provider_id, "gcal");
    assert_eq!(envelope.code, "rate_limited");
    assert_eq!(envelope.message, "slow down");
    assert!(envelope.retriable);
}

#[test]
fn sync_summary_durations() {
    let ok = SyncSummary::success(" p ", 1_000, 1_250, 3, 2, 1, 1);
    assert_eq!(ok.provider_id, "p");
    assert_eq!(ok.duration_ms(), 250);
    assert_eq!(ok.error_code, None);

    let failed = SyncSummary::failure("p", 2_000, 1_000, " auth_expired ");
    assert_eq!(failed.duration_ms(), 0);
    assert_eq!(failed.error_code, Some("auth_expired".to_string()));
    assert_eq!(failed.pulled_records, 0);

    let extreme = SyncSummary::success("p", i64::MIN, i64::MAX, 0, 0, 0, 0);
    assert_eq!(extreme.duration_ms(), i64::MAX);
}

#[test]
fn logging_conflict_reports_directory_then_level() {
    assert_eq!(logging_conflict("info", "/a", "info", "/a"), None);
    let dir = logging_conflict("info", "/a", "debug", "/b").unwrap();
    assert_eq!(dir, "logging already initialized at `/a`; refusing to switch to `/b`");
    let level = logging_conflict("info", "/a", "debug", "/a").unwrap();
    assert!(level.contains("refusing to switch"));
    assert!(level.contains("`debug`"));
}

#[test]
fn tags_accumulate_in_order() {
    let mut index = lazynote::TagIndex::new();
    index.add_tag(9, "work".to_string());
    index.add_tag(9, "home".to_string());
    index.add_tag(3, "misc".to_string());
    assert_eq!(index.tags_for(9), vec!["work".to_string(), "home".to_string()]);
    assert_eq!(index.tags_for(3), vec!["misc".to_string()]);
    assert!(index.tags_for(4).is_empty());
}
