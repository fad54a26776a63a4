use lazynote::{Atom, AtomListQuery, AtomStore, AtomType, AtomValidationError, RepoError, TaskStatus};

#[test]
fn validate_rejects_iff_end_before_start() {
    let mut atom = Atom::new(AtomType::Event, "window");
    atom.start_at = Some(100);
    atom.end_at = Some(100);
    assert_eq!(atom.validate(), Ok(()));
    atom.end_at = Some(150);
    assert_eq!(atom.validate(), Ok(()));
    atom.end_at = Some(99);
    assert_eq!(
        atom.validate(),
        Err(AtomValidationError::InvalidEventWindow { start: 100, end: 99 })
    );
}

#[test]
fn validate_rejects_blank_content() {
    let blank = Atom::new(AtomType::Note, "  \n\t ");
    assert_eq!(blank.validate(), Err(AtomValidationError::EmptyContent));
    let padded = Atom::new(AtomType::Note, "  x  ");
    assert_eq!(padded.validate(), Ok(()));
}

#[test]
fn create_rejects_invalid_atom_before_storing() {
    let mut store = AtomStore::new();
    let blank = Atom::new(AtomType::Note, "");
    assert_eq!(
        store.create_atom(&blank),
        Err(RepoError::Validation(AtomValidationError::EmptyContent))
    );
    assert_eq!(store.get_atom(blank.uuid, true), Ok(None));
}

#[test]
fn create_rejects_duplicate_id() {
    let mut store = AtomStore::new();
    let atom = Atom::new(AtomType::Note, "once");
    assert_eq!(store.create_atom(&atom), Ok(atom.uuid));
    assert_eq!(store.create_atom(&atom), Err(RepoError::DuplicateId(atom.uuid)));
}

#[test]
fn soft_delete_is_idempotent() {
    let mut store = AtomStore::new();
    let atom = Atom::new(AtomType::Task, "delete me");
    store.create_atom(&atom).unwrap();

    assert_eq!(store.soft_delete_atom(atom.uuid), Ok(()));
    let first = store.get_atom(atom.uuid, true).unwrap().unwrap();
    assert!(first.is_deleted);
    assert_eq!(store.get_atom(atom.uuid, false), Ok(None));

    assert_eq!(store.soft_delete_atom(atom.uuid), Ok(()));
    let second = store.get_atom(atom.uuid, true).unwrap().unwrap();
    assert!(second.is_deleted);
    assert_eq!(second.content, first.content);

    let unknown = Atom::new(AtomType::Task, "unknown");
    assert_eq!(store.soft_delete_atom(unknown.uuid), Err(RepoError::NotFound(unknown.uuid)));
}

#[test]
fn update_replaces_fields_and_keeps_deletion() {
    let mut store = AtomStore::new();
    let atom = Atom::new(AtomType::Note, "before");
    store.create_atom(&atom).unwrap();

    let mut changed = atom.clone();
    changed.content = "after".to_string();
    changed.task_status = Some(TaskStatus::InProgress);
    assert_eq!(store.update_atom(&changed), Ok(()));
    let loaded = store.get_atom(atom.uuid, false).unwrap().unwrap();
    assert_eq!(loaded.content, "after");
    assert_eq!(loaded.task_status, Some(TaskStatus::InProgress));

    store.soft_delete_atom(atom.uuid).unwrap();
    assert_eq!(store.update_atom(&changed), Ok(()));
    assert!(store.get_atom(atom.uuid, true).unwrap().unwrap().is_deleted);

    let stranger = Atom::new(AtomType::Note, "stranger");
    assert_eq!(store.update_atom(&stranger), Err(RepoError::NotFound(stranger.uuid)));
}

#[test]
fn list_filters_by_kind_and_deletion() {
    let mut store = AtomStore::new();
    let note = Atom::new(AtomType::Note, "note");
    let task = Atom::new(AtomType::Task, "task");
    let gone = Atom::new(AtomType::Note, "gone");
    store.create_atom(&note).unwrap();
    store.create_atom(&task).unwrap();
    store.create_atom(&gone).unwrap();
    store.soft_delete_atom(gone.uuid).unwrap();

    let notes = store
        .list_atoms(&AtomListQuery { kind: Some(AtomType::Note), include_deleted: false, limit: None, offset: 0 })
        .unwrap();
    assert_eq!(notes.len(), 1);
    assert_eq!(notes[0].uuid, note.uuid);

    let all = store
        .list_atoms(&AtomListQuery { kind: None, include_deleted: true, limit: None, offset: 0 })
        .unwrap();
    let ids: Vec<_> = all.iter().map(|a| a.uuid).collect();
    // most recently written first: the deletion of `gone` is the latest write
    assert_eq!(ids, vec![gone.uuid, task.uuid, note.uuid]);

    let page = store
        .list_atoms(&AtomListQuery { kind: None, include_deleted: true, limit: Some(1), offset: 1 })
        .unwrap();
    assert_eq!(page.len(), 1);
    assert_eq!(page[0].uuid, task.uuid);
}

#[test]
fn update_status_on_missing_atom_is_not_found() {
    let mut store = AtomStore::new();
    let atom = Atom::new(AtomType::Note, "missing");
    assert_eq!(
        store.update_atom_status(atom.uuid, Some(TaskStatus::Done)),
        Err(RepoError::NotFound(atom.uuid))
    );
}

#[test]
fn load_row_keeps_stored_stamp() {
    let mut store = AtomStore::new();
    let older = Atom::new(AtomType::Note, "older");
    let newer = Atom::new(AtomType::Note, "newer");
    store.load_row(lazynote::SectionAtomRow { atom: newer.clone(), updated_at: 5_000 }).unwrap();
    store.load_row(lazynote::SectionAtomRow { atom: older.clone(), updated_at: 1_000 }).unwrap();
    assert_eq!(store.len(), 2);
    assert_eq!(store.row_at(1).updated_at, 1_000);
    assert_eq!(
        store.load_row(lazynote::SectionAtomRow { atom: older.clone(), updated_at: 7 }),
        Err(RepoError::DuplicateId(older.uuid))
    );
    store.update_atom_status(older.uuid, Some(TaskStatus::Todo)).unwrap();
    assert_eq!(store.row_at(1).updated_at, 5_001);
    let inbox = store.fetch_inbox(10, 0).unwrap();
    let ids: Vec<_> = inbox.iter().map(|r| r.atom.uuid).collect();
    assert_eq!(ids, vec![older.uuid, newer.uuid]);
}

#[test]
fn validation_message_handles_negative_bounds() {
    let e = AtomValidationError::InvalidEventWindow { start: -3, end: -120 };
    assert_eq!(e.message(), "invalid event window: end_at -120 is before start_at -3");
    let e = AtomValidationError::InvalidEventWindow { start: i64::MAX, end: i64::MIN };
    assert_eq!(
        e.message(),
        "invalid event window: end_at -9223372036854775808 is before start_at 9223372036854775807"
    );
    assert_eq!(AtomValidationError::EmptyContent.message(), "atom content must not be empty");
}
