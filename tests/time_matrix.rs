use lazynote::{Atom, AtomStore, AtomType, RepoError, TagIndex, TaskService, TaskServiceError, TaskStatus};

fn make_atom(kind: AtomType, content: &str, start: Option<i64>, end: Option<i64>) -> Atom {
    let mut atom = Atom::new(kind, content);
    atom.start_at = start;
    atom.end_at = end;
    atom
}

fn service(atoms: &[&Atom]) -> TaskService {
    let mut repo = AtomStore::new();
    for atom in atoms {
        repo.create_atom(atom).unwrap();
    }
    TaskService::new(repo, TagIndex::new())
}

#[test]
fn fetch_inbox_returns_timeless_atoms() {
    let note = make_atom(AtomType::Note, "pure note", None, None);
    let timed = make_atom(AtomType::Task, "has deadline", None, Some(2_000_000_000_000));
    let svc = service(&[&note, &timed]);
    let inbox = svc.fetch_inbox(50, 0).unwrap();

    assert_eq!(inbox.len(), 1);
    assert_eq!(inbox[0].atom.uuid, note.uuid);
}

#[test]
fn fetch_inbox_excludes_done_and_cancelled() {
    let mut note = make_atom(AtomType::Note, "completed", None, None);
    note.task_status = Some(TaskStatus::Done);
    let mut note2 = make_atom(AtomType::Note, "cancelled", None, None);
    note2.task_status = Some(TaskStatus::Cancelled);
    let active = make_atom(AtomType::Note, "active", None, None);
    let svc = service(&[&note, &note2, &active]);
    let inbox = svc.fetch_inbox(50, 0).unwrap();

    assert_eq!(inbox.len(), 1);
    assert_eq!(inbox[0].atom.uuid, active.uuid);
}

#[test]
fn fetch_today_returns_ddl_task_due_today() {
    let ddl = make_atom(AtomType::Task, "deadline today", None, Some(500));
    let svc = service(&[&ddl]);
    let today = svc.fetch_today(0, 1000, 50, 0).unwrap();

    assert_eq!(today.len(), 1);
    assert_eq!(today[0].atom.uuid, ddl.uuid);
}

#[test]
fn fetch_today_returns_started_ongoing_task() {
    let ongoing = make_atom(AtomType::Task, "started task", Some(100), None);
    let svc = service(&[&ongoing]);
    let today = svc.fetch_today(0, 1000, 50, 0).unwrap();

    assert_eq!(today.len(), 1);
    assert_eq!(today[0].atom.uuid, ongoing.uuid);
}

#[test]
fn fetch_today_returns_overlapping_event() {
    let event = make_atom(AtomType::Event, "meeting", Some(500), Some(1500));
    let svc = service(&[&event]);
    let today = svc.fetch_today(0, 1000, 50, 0).unwrap();

    assert_eq!(today.len(), 1);
    assert_eq!(today[0].atom.uuid, event.uuid);
}

#[test]
fn fetch_today_excludes_future_only_atoms() {
    let future_ddl = make_atom(AtomType::Task, "future deadline", None, Some(5000));
    let future_ongoing = make_atom(AtomType::Task, "future start", Some(5000), None);
    let svc = service(&[&future_ddl, &future_ongoing]);
    let today = svc.fetch_today(0, 1000, 50, 0).unwrap();

    assert!(today.is_empty());
}

#[test]
fn fetch_upcoming_returns_future_atoms() {
    let future_ddl = make_atom(AtomType::Task, "future deadline", None, Some(5000));
    let future_event = make_atom(AtomType::Event, "future event", Some(5000), Some(6000));
    let today_ddl = make_atom(AtomType::Task, "today deadline", None, Some(500));
    let svc = service(&[&future_ddl, &future_event, &today_ddl]);
    let upcoming = svc.fetch_upcoming(1000, 50, 0).unwrap();

    assert_eq!(upcoming.len(), 2);
    let ids: Vec<_> = upcoming.iter().map(|s| s.atom.uuid).collect();
    assert!(ids.contains(&future_ddl.uuid));
    assert!(ids.contains(&future_event.uuid));
}

#[test]
fn update_status_sets_and_clears() {
    let note = make_atom(AtomType::Note, "demotable", None, None);
    let mut svc = service(&[&note]);

    svc.update_status(note.uuid, Some(TaskStatus::Done)).unwrap();
    let loaded = svc.repo().get_atom(note.uuid, false).unwrap().unwrap();
    assert_eq!(loaded.task_status, Some(TaskStatus::Done));

    svc.update_status(note.uuid, Some(TaskStatus::Todo)).unwrap();
    let loaded = svc.repo().get_atom(note.uuid, false).unwrap().unwrap();
    assert_eq!(loaded.task_status, Some(TaskStatus::Todo));

    svc.update_status(note.uuid, None).unwrap();
    let loaded = svc.repo().get_atom(note.uuid, false).unwrap().unwrap();
    assert_eq!(loaded.task_status, None);
}

#[test]
fn update_status_is_idempotent() {
    let note = make_atom(AtomType::Note, "idem", None, None);
    let mut svc = service(&[&note]);

    svc.update_status(note.uuid, Some(TaskStatus::Done)).unwrap();
    svc.update_status(note.uuid, Some(TaskStatus::Done)).unwrap();

    let loaded = svc.repo().get_atom(note.uuid, false).unwrap().unwrap();
    assert_eq!(loaded.task_status, Some(TaskStatus::Done));
}

#[test]
fn update_status_on_deleted_atom_returns_not_found() {
    let note = make_atom(AtomType::Note, "will be deleted", None, None);
    let mut repo = AtomStore::new();
    repo.create_atom(&note).unwrap();
    repo.soft_delete_atom(note.uuid).unwrap();

    let mut svc = TaskService::new(repo, TagIndex::new());
    let result = svc.update_status(note.uuid, Some(TaskStatus::Done));
    assert!(result.is_err());
    assert_eq!(result, Err(TaskServiceError::AtomNotFound(note.uuid)));
}

#[test]
fn section_queries_include_tags() {
    let note = make_atom(AtomType::Note, "tagged inbox", None, None);
    let mut repo = AtomStore::new();
    repo.create_atom(&note).unwrap();
    let mut tags = TagIndex::new();
    tags.set_tags(note.uuid, vec!["work".to_string()]);

    let svc = TaskService::new(repo, tags);
    let inbox = svc.fetch_inbox(50, 0).unwrap();

    assert_eq!(inbox.len(), 1);
    assert_eq!(inbox[0].tags, vec!["work".to_string()]);
}

#[test]
fn untagged_atoms_get_empty_tags() {
    let note = make_atom(AtomType::Note, "plain", None, None);
    let other = make_atom(AtomType::Note, "other", None, None);
    let mut repo = AtomStore::new();
    repo.create_atom(&note).unwrap();
    let mut tags = TagIndex::new();
    tags.set_tags(other.uuid, vec!["home".to_string()]);
    tags.set_tags(other.uuid, vec!["away".to_string(), "work".to_string()]);
    assert_eq!(tags.tags_for(other.uuid), vec!["away".to_string(), "work".to_string()]);

    let svc = TaskService::new(repo, tags);
    let inbox = svc.fetch_inbox(50, 0).unwrap();
    assert_eq!(inbox.len(), 1);
    assert!(inbox[0].tags.is_empty());
}

#[test]
fn sections_partition_examples() {
    // deadline-only atom: Today for eod=1000, Upcoming for eod=400
    let deadline = make_atom(AtomType::Task, "due", None, Some(500));
    let timeless = make_atom(AtomType::Note, "free", None, None);
    let svc = service(&[&deadline, &timeless]);

    let today = svc.fetch_today(0, 1000, 50, 0).unwrap();
    let upcoming = svc.fetch_upcoming(1000, 50, 0).unwrap();
    let inbox = svc.fetch_inbox(50, 0).unwrap();
    assert_eq!(today.len(), 1);
    assert_eq!(today[0].atom.uuid, deadline.uuid);
    assert!(upcoming.is_empty());
    assert_eq!(inbox.len(), 1);
    assert_eq!(inbox[0].atom.uuid, timeless.uuid);

    let today = svc.fetch_today(0, 400, 50, 0).unwrap();
    let upcoming = svc.fetch_upcoming(400, 50, 0).unwrap();
    assert!(today.is_empty());
    assert_eq!(upcoming.len(), 1);
    assert_eq!(upcoming[0].atom.uuid, deadline.uuid);
    let inbox = svc.fetch_inbox(50, 0).unwrap();
    assert_eq!(inbox[0].atom.uuid, timeless.uuid);
}

#[test]
fn time_range_uses_half_open_overlap() {
    let overlapping = make_atom(AtomType::Event, "overlaps", Some(500), Some(1500));
    let later = make_atom(AtomType::Event, "later", Some(1500), Some(2000));
    let mut done = make_atom(AtomType::Event, "done event", Some(100), Some(200));
    done.task_status = Some(TaskStatus::Done);
    let open_ended = make_atom(AtomType::Task, "open ended", Some(100), None);
    let svc = service(&[&overlapping, &later, &done, &open_ended]);

    let hits = svc.fetch_by_time_range(0, 1000, 50, 0).unwrap();
    let ids: Vec<_> = hits.iter().map(|s| s.atom.uuid).collect();
    assert_eq!(ids, vec![done.uuid, overlapping.uuid]);

    let edge = svc.fetch_by_time_range(1000, 1500, 50, 0).unwrap();
    assert_eq!(edge.len(), 1);
    assert_eq!(edge[0].atom.uuid, overlapping.uuid);
}

#[test]
fn today_orders_by_anchor_and_paginates() {
    let c = make_atom(AtomType::Task, "c", None, Some(300));
    let a = make_atom(AtomType::Task, "a", Some(100), None);
    let b = make_atom(AtomType::Event, "b", Some(200), Some(900));
    let svc = service(&[&c, &a, &b]);

    let all = svc.fetch_today(0, 1000, 50, 0).unwrap();
    let ids: Vec<_> = all.iter().map(|s| s.atom.uuid).collect();
    assert_eq!(ids, vec![a.uuid, b.uuid, c.uuid]);

    let page = svc.fetch_today(0, 1000, 1, 1).unwrap();
    assert_eq!(page.len(), 1);
    assert_eq!(page[0].atom.uuid, b.uuid);

    let past_end = svc.fetch_today(0, 1000, 10, 5).unwrap();
    assert!(past_end.is_empty());
}

#[test]
fn past_interval_is_in_no_day_section() {
    let past = make_atom(AtomType::Event, "yesterday", Some(0), Some(10));
    let svc = service(&[&past]);
    assert!(svc.fetch_today(100, 200, 50, 0).unwrap().is_empty());
    assert!(svc.fetch_upcoming(200, 50, 0).unwrap().is_empty());
    assert!(svc.fetch_inbox(50, 0).unwrap().is_empty());
}

#[test]
fn update_event_times_validates_window() {
    let event = make_atom(AtomType::Event, "meeting", Some(10), Some(20));
    let mut svc = service(&[&event]);
    let err = svc.update_event_times(event.uuid, 50, 40).unwrap_err();
    assert_eq!(
        err,
        TaskServiceError::Repo(RepoError::Validation(
            lazynote::AtomValidationError::InvalidEventWindow { start: 50, end: 40 }
        ))
    );
    svc.update_event_times(event.uuid, 30, 40).unwrap();
    let loaded = svc.repo().get_atom(event.uuid, false).unwrap().unwrap();
    assert_eq!(loaded.start_at, Some(30));
    assert_eq!(loaded.end_at, Some(40));

    let missing = Atom::new(AtomType::Event, "never stored");
    assert_eq!(
        svc.update_event_times(missing.uuid, 1, 2),
        Err(TaskServiceError::AtomNotFound(missing.uuid))
    );
}

#[test]
fn service_error_messages_name_the_atom() {
    let id = 0x67e5504410b1426f9247bb680e5fe0c8u128;
    assert_eq!(
        TaskServiceError::AtomNotFound(id).message(),
        "atom not found: 67e55044-10b1-426f-9247-bb680e5fe0c8"
    );
    assert_eq!(
        RepoError::DuplicateId(id).message(),
        "atom already exists: 67e55044-10b1-426f-9247-bb680e5fe0c8"
    );
    assert_eq!(
        RepoError::UninitializedConnection { expected_version: 7, actual_version: 3 }.message(),
        "repository requires migrated database schema version 7, got 3"
    );
    assert_eq!(
        TaskServiceError::Repo(RepoError::Validation(lazynote::AtomValidationError::InvalidEventWindow { start: 5, end: 1 })).message(),
        "invalid event window: end_at 1 is before start_at 5"
    );
    assert_eq!(TaskServiceError::from(RepoError::NotFound(id)), TaskServiceError::AtomNotFound(id));
    assert_eq!(RepoError::from(lazynote::AtomValidationError::EmptyContent), RepoError::Validation(lazynote::AtomValidationError::EmptyContent));
}
