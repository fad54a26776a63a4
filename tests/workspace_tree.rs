use lazynote::{Atom, AtomStore, AtomType, TreeService, TreeServiceError, WorkspaceNodeKind};

fn store_with(atoms: &[&Atom]) -> AtomStore {
    let mut store = AtomStore::new();
    for atom in atoms {
        store.create_atom(atom).unwrap();
    }
    store
}

fn fresh_id() -> u128 {
    uuid::Uuid::new_v4().as_u128()
}

#[test]
fn create_and_list_children_keeps_deterministic_order() {
    let mut service = TreeService::new();

    let root = service.create_folder(None, "Root").unwrap();
    let child_a = service.create_folder(Some(root.node_uuid), "Alpha").unwrap();
    let child_b = service.create_folder(Some(root.node_uuid), "Beta").unwrap();

    let root_children = service.list_children(None).unwrap();
    assert_eq!(root_children.len(), 1);
    assert_eq!(root_children[0].node_uuid, root.node_uuid);

    let children = service.list_children(Some(root.node_uuid)).unwrap();
    assert_eq!(children.len(), 2);
    assert_eq!(children[0].node_uuid, child_a.node_uuid);
    assert_eq!(children[1].node_uuid, child_b.node_uuid);
    assert_eq!(children[0].sort_order, 0);
    assert_eq!(children[1].sort_order, 1);
}

#[test]
fn create_note_ref_requires_active_note_atom() {
    let mut service = TreeService::new();
    let task_atom = Atom::new(AtomType::Task, "Task row");
    let atoms = store_with(&[&task_atom]);

    let err = service
        .create_note_ref(&atoms, None, task_atom.uuid, Some("TaskRef".to_string()))
        .unwrap_err();
    assert!(matches!(err, TreeServiceError::AtomNotNote(id) if id == task_atom.uuid));
}

#[test]
fn create_note_ref_rejects_deleted_note() {
    let mut service = TreeService::new();
    let note_atom = Atom::new(AtomType::Note, "Deleted note");
    let mut atoms = store_with(&[&note_atom]);
    atoms.soft_delete_atom(note_atom.uuid).unwrap();

    let err = service.create_note_ref(&atoms, None, note_atom.uuid, None).unwrap_err();
    assert_eq!(err, TreeServiceError::AtomNotNote(note_atom.uuid));
    let missing = fresh_id();
    let err = service.create_note_ref(&atoms, None, missing, None).unwrap_err();
    assert_eq!(err, TreeServiceError::AtomNotNote(missing));
}

#[test]
fn create_note_ref_success_for_note_atom() {
    let mut service = TreeService::new();
    let note_atom = Atom::new(AtomType::Note, "Note row");
    let atoms = store_with(&[&note_atom]);

    let folder = service.create_folder(None, "Notes").unwrap();
    let note_ref = service
        .create_note_ref(&atoms, Some(folder.node_uuid), note_atom.uuid, None)
        .unwrap();

    assert_eq!(note_ref.kind, WorkspaceNodeKind::NoteRef);
    assert_eq!(note_ref.parent_uuid, Some(folder.node_uuid));
    assert_eq!(note_ref.atom_uuid, Some(note_atom.uuid));
    assert_eq!(note_ref.display_name, "Untitled note");
}

#[test]
fn move_rejects_cycle_parenting() {
    let mut service = TreeService::new();

    let folder_a = service.create_folder(None, "A").unwrap();
    let folder_b = service.create_folder(Some(folder_a.node_uuid), "B").unwrap();

    let err = service
        .move_node(folder_a.node_uuid, Some(folder_b.node_uuid), None)
        .unwrap_err();
    assert!(matches!(
        err,
        TreeServiceError::CycleDetected {
            node_uuid,
            parent_uuid
        } if node_uuid == folder_a.node_uuid && parent_uuid == folder_b.node_uuid
    ));
}

#[test]
fn move_rejects_deep_descendant_and_self() {
    let mut service = TreeService::new();
    let top = service.create_folder(None, "top").unwrap();
    let mut parent = top.node_uuid;
    for name in ["d1", "d2", "d3", "d4", "d5"] {
        parent = service.create_folder(Some(parent), name).unwrap().node_uuid;
    }
    assert_eq!(
        service.move_node(top.node_uuid, Some(parent), Some(0)),
        Err(TreeServiceError::CycleDetected { node_uuid: top.node_uuid, parent_uuid: parent })
    );
    assert_eq!(
        service.move_node(top.node_uuid, Some(top.node_uuid), None),
        Err(TreeServiceError::CycleDetected { node_uuid: top.node_uuid, parent_uuid: top.node_uuid })
    );
    // moving a deep node up is fine
    assert_eq!(service.move_node(parent, None, None), Ok(()));
    let roots = service.list_children(None).unwrap();
    assert_eq!(roots.len(), 2);
    assert_eq!(roots[1].node_uuid, parent);
    assert_eq!(roots[1].sort_order, 1);
}

#[test]
fn move_rejects_note_ref_parent() {
    let mut service = TreeService::new();
    let note_atom = Atom::new(AtomType::Note, "Note row");
    let atoms = store_with(&[&note_atom]);

    let folder = service.create_folder(None, "Folder").unwrap();
    let note_ref = service
        .create_note_ref(&atoms, None, note_atom.uuid, Some("Ref".to_string()))
        .unwrap();

    let err = service
        .move_node(folder.node_uuid, Some(note_ref.node_uuid), None)
        .unwrap_err();
    assert!(matches!(
        err,
        TreeServiceError::ParentMustBeFolder(parent_uuid) if parent_uuid == note_ref.node_uuid
    ));
}

#[test]
fn move_with_target_order_reorders_siblings() {
    let mut service = TreeService::new();

    let root = service.create_folder(None, "Root").unwrap();
    let child_a = service.create_folder(Some(root.node_uuid), "Alpha").unwrap();
    let child_b = service.create_folder(Some(root.node_uuid), "Beta").unwrap();
    let child_c = service.create_folder(Some(root.node_uuid), "Gamma").unwrap();
    assert_eq!(child_c.sort_order, 2);

    service
        .move_node(child_c.node_uuid, Some(root.node_uuid), Some(0))
        .unwrap();

    let children = service.list_children(Some(root.node_uuid)).unwrap();
    assert_eq!(children.len(), 3);
    assert_eq!(children[0].node_uuid, child_c.node_uuid);
    assert_eq!(children[1].node_uuid, child_a.node_uuid);
    assert_eq!(children[2].node_uuid, child_b.node_uuid);
    assert_eq!(children[0].sort_order, 0);
    assert_eq!(children[1].sort_order, 1);
    assert_eq!(children[2].sort_order, 2);
}

#[test]
fn move_between_groups_keeps_both_dense() {
    let mut service = TreeService::new();
    let left = service.create_folder(None, "left").unwrap();
    let right = service.create_folder(None, "right").unwrap();
    let l0 = service.create_folder(Some(left.node_uuid), "l0").unwrap();
    let l1 = service.create_folder(Some(left.node_uuid), "l1").unwrap();
    let l2 = service.create_folder(Some(left.node_uuid), "l2").unwrap();
    let r0 = service.create_folder(Some(right.node_uuid), "r0").unwrap();

    // a target beyond the group is clamped to the end; a negative one to the start
    service.move_node(l1.node_uuid, Some(right.node_uuid), Some(99)).unwrap();
    service.move_node(l2.node_uuid, Some(right.node_uuid), Some(-5)).unwrap();

    let lefts = service.list_children(Some(left.node_uuid)).unwrap();
    let rights = service.list_children(Some(right.node_uuid)).unwrap();
    let lid: Vec<_> = lefts.iter().map(|n| (n.node_uuid, n.sort_order)).collect();
    let rid: Vec<_> = rights.iter().map(|n| (n.node_uuid, n.sort_order)).collect();
    assert_eq!(lid, vec![(l0.node_uuid, 0)]);
    assert_eq!(rid, vec![(l2.node_uuid, 0), (r0.node_uuid, 1), (l1.node_uuid, 2)]);
    assert_eq!(rights[2].parent_uuid, Some(right.node_uuid));
}

#[test]
fn move_unknown_node_is_not_found() {
    let mut service = TreeService::new();
    let unknown = fresh_id();
    assert_eq!(service.move_node(unknown, None, None), Err(TreeServiceError::NodeNotFound(unknown)));
}

#[test]
fn create_folder_rejects_unknown_parent() {
    let mut service = TreeService::new();
    let unknown_parent = fresh_id();

    let err = service.create_folder(Some(unknown_parent), "x").unwrap_err();
    assert!(matches!(
        err,
        TreeServiceError::ParentNotFound(parent_uuid) if parent_uuid == unknown_parent
    ));
}

#[test]
fn create_folder_with_taken_id_is_refused() {
    let mut service = TreeService::new();
    let folder = service.create_folder_with_id(7, None, "seven").unwrap();
    assert_eq!(folder.node_uuid, 7);
    assert_eq!(folder.display_name, "seven");
    assert_eq!(service.create_folder_with_id(7, None, "again"), Err(TreeServiceError::IdInUse(7)));
    assert_eq!(service.list_children(None).unwrap().len(), 1);
}

#[test]
fn reorder_scenario_root_alpha_beta_gamma() {
    let mut service = TreeService::new();
    let root = service.create_folder(None, "Root").unwrap();
    let alpha = service.create_folder(Some(root.node_uuid), "Alpha").unwrap();
    let beta = service.create_folder(Some(root.node_uuid), "Beta").unwrap();
    let gamma = service.create_folder(Some(root.node_uuid), "Gamma").unwrap();
    assert_eq!((alpha.sort_order, beta.sort_order, gamma.sort_order), (0, 1, 2));

    service.move_node(gamma.node_uuid, Some(root.node_uuid), Some(0)).unwrap();
    let names: Vec<_> = service
        .list_children(Some(root.node_uuid))
        .unwrap()
        .into_iter()
        .map(|n| (n.display_name, n.sort_order))
        .collect();
    assert_eq!(
        names,
        vec![("Gamma".to_string(), 0), ("Alpha".to_string(), 1), ("Beta".to_string(), 2)]
    );
}
