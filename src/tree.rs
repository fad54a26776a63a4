//! The workspace tree: folders and note references, ordered within each
//! sibling group, with cycle-safe moves.
//!
//! Nodes are kept in one list. The order of a sibling group is the order in
//! which its members stand in that list, so `sort_order`, a member's place in
//! its group, is dense by construction.

use vstd::prelude::*;
use vstd::string::*;
use crate::atom::{AtomId, AtomType};
use crate::repo::{live_atom_of, AtomStore};

verus! {

/// Stable identifier of a workspace node: the 128-bit value of a UUID.
pub type NodeId = u128;

/// Kind of a workspace node.
#[derive(Clone, Copy, Debug, PartialEq, Eq, Structural)]
pub enum WorkspaceNodeKind {
    Folder,
    NoteRef,
}

/// A node as the tree lists it, with its place among its siblings.
#[derive(Clone, Debug, PartialEq, Eq)]
pub struct WorkspaceNode {
    pub node_uuid: NodeId,
    pub kind: WorkspaceNodeKind,
    /// `None` for a root.
    pub parent_uuid: Option<NodeId>,
    /// The referenced atom, for a note reference.
    pub atom_uuid: Option<AtomId>,
    pub display_name: String,
    /// Zero-based place in the sibling group.
    pub sort_order: usize,
}

/// A stored node.
#[derive(Clone, Debug, PartialEq, Eq)]
pub struct NodeRecord {
    pub node_uuid: NodeId,
    pub kind: WorkspaceNodeKind,
    pub parent_uuid: Option<NodeId>,
    pub atom_uuid: Option<AtomId>,
    pub display_name: String,
}

impl NodeRecord {
    /// An exact copy of the record.
    pub fn duplicate(&self) -> (r: NodeRecord)
        ensures
            r == *self,
    {
        NodeRecord {
            node_uuid: self.node_uuid,
            kind: self.kind,
            parent_uuid: self.parent_uuid,
            atom_uuid: self.atom_uuid,
            display_name: self.display_name.clone(),
        }
    }

    /// The record as listed at place `sort_order`.
    pub fn listed(&self, sort_order: usize) -> (r: WorkspaceNode)
        ensures
            listed_as(*self, r, sort_order as int),
    {
        WorkspaceNode {
            node_uuid: self.node_uuid,
            kind: self.kind,
            parent_uuid: self.parent_uuid,
            atom_uuid: self.atom_uuid,
            display_name: self.display_name.clone(),
            sort_order,
        }
    }
}

/// `n` lists record `rec` at place `order`.
pub open spec fn listed_as(rec: NodeRecord, n: WorkspaceNode, order: int) -> bool {
    &&& n.node_uuid == rec.node_uuid
    &&& n.kind == rec.kind
    &&& n.parent_uuid == rec.parent_uuid
    &&& n.atom_uuid == rec.atom_uuid
    &&& n.display_name == rec.display_name
    &&& n.sort_order == order
}

/// Errors of tree operations.
#[derive(Clone, Debug, PartialEq, Eq, Structural)]
pub enum TreeServiceError {
    /// The named parent does not exist.
    ParentNotFound(NodeId),
    /// The named parent is not a folder.
    ParentMustBeFolder(NodeId),
    /// The atom does not exist, is deleted, or is not a note.
    AtomNotNote(AtomId),
    /// The new parent is the node itself or lies below it.
    CycleDetected { node_uuid: NodeId, parent_uuid: NodeId },
    /// The node to move does not exist.
    NodeNotFound(NodeId),
    /// The identifier for a new node is taken.
    IdInUse(NodeId),
}

/// Some node of `ns` has identifier `id`.
pub open spec fn has_node(ns: Seq<NodeRecord>, id: NodeId) -> bool {
    exists|i: int| 0 <= i < ns.len() && (#[trigger] ns[i]).node_uuid == id
}

/// The position of the node with identifier `id`.
pub open spec fn node_index(ns: Seq<NodeRecord>, id: NodeId) -> int {
    choose|i: int| 0 <= i < ns.len() && (#[trigger] ns[i]).node_uuid == id
}

/// The node with identifier `id`.
pub open spec fn node_of(ns: Seq<NodeRecord>, id: NodeId) -> Option<NodeRecord> {
    if has_node(ns, id) {
        Some(ns[node_index(ns, id)])
    } else {
        None
    }
}

/// No two nodes share an identifier.
pub open spec fn node_ids_unique(ns: Seq<NodeRecord>) -> bool {
    forall|i: int, j: int|
        0 <= i < j < ns.len() ==> (#[trigger] ns[i]).node_uuid != (#[trigger] ns[j]).node_uuid
}

/// Every parent named in `ns` exists and is a folder.
pub open spec fn parents_are_folders(ns: Seq<NodeRecord>) -> bool {
    forall|i: int|
        0 <= i < ns.len() && (#[trigger] ns[i]).parent_uuid is Some ==> is_folder(
            ns,
            ns[i].parent_uuid->0,
        )
}

/// `id` names an existing folder.
pub open spec fn is_folder(ns: Seq<NodeRecord>, id: NodeId) -> bool {
    node_of(ns, id) matches Some(n) && n.kind == WorkspaceNodeKind::Folder
}

/// Whether a node hangs under `parent`.
pub open spec fn under(parent: Option<NodeId>) -> spec_fn(NodeRecord) -> bool {
    |n: NodeRecord| n.parent_uuid == parent
}

/// The sibling group of `parent` (the roots for `None`), in order.
pub open spec fn children(ns: Seq<NodeRecord>, parent: Option<NodeId>) -> Seq<NodeRecord> {
    ns.filter(under(parent))
}

/// The parent of node `id`, `None` for a root or an unknown node.
pub open spec fn parent_of(ns: Seq<NodeRecord>, id: NodeId) -> Option<NodeId> {
    match node_of(ns, id) {
        Some(n) => n.parent_uuid,
        None => None,
    }
}

/// The `k`-th step of the walk from `id` toward the root: `id` itself at
/// zero, `None` once the walk has passed a root.
pub open spec fn ancestor_at(ns: Seq<NodeRecord>, id: NodeId, k: nat) -> Option<NodeId>
    decreases k,
{
    if k == 0 {
        Some(id)
    } else {
        match ancestor_at(ns, id, (k - 1) as nat) {
            Some(a) => parent_of(ns, a),
            None => None,
        }
    }
}

/// `id` is `top` or lies below it, at any depth.
pub open spec fn in_subtree(ns: Seq<NodeRecord>, id: NodeId, top: NodeId) -> bool {
    exists|k: nat| ancestor_at(ns, id, k) == Some(top)
}

/// The walk up from `id` passes a root after finitely many steps.
pub open spec fn walk_ends(ns: Seq<NodeRecord>, id: NodeId) -> bool {
    exists|k: nat| #[trigger] ancestor_at(ns, id, k) is None
}

/// No node lies on a cycle: every walk toward the root ends.
pub open spec fn walks_end(ns: Seq<NodeRecord>) -> bool {
    forall|id: NodeId| #[trigger] walk_ends(ns, id)
}

/// One step of a walk: from `id` the walk goes on from its parent.
proof fn lemma_walk_step(ns: Seq<NodeRecord>, id: NodeId, k: nat)
    ensures
        ancestor_at(ns, id, k + 1) == (match parent_of(ns, id) {
            Some(p) => ancestor_at(ns, p, k),
            None => None,
        }),
    decreases k,
{
    assert(ancestor_at(ns, id, k + 1) == (match ancestor_at(ns, id, k) {
        Some(a) => parent_of(ns, a),
        None => None,
    }));
    if k > 0 {
        lemma_walk_step(ns, id, (k - 1) as nat);
        if let Some(p) = parent_of(ns, id) {
            assert(ancestor_at(ns, p, k) == (match ancestor_at(ns, p, (k - 1) as nat) {
                Some(a) => parent_of(ns, a),
                None => None,
            }));
        }
    } else {
        if let Some(p) = parent_of(ns, id) {
            assert(ancestor_at(ns, p, 0) == Some(p));
        }
    }
}

/// Two node lists whose parents agree everywhere but at `x` give the same
/// walk from `start` when that walk never meets `x`.
proof fn lemma_walk_same(old: Seq<NodeRecord>, new: Seq<NodeRecord>, start: NodeId, x: NodeId, k: nat)
    requires
        forall|c: NodeId| c != x ==> #[trigger] parent_of(new, c) == parent_of(old, c),
        forall|j: nat| #[trigger] ancestor_at(old, start, j) != Some(x),
    ensures
        ancestor_at(new, start, k) == ancestor_at(old, start, k),
    decreases k,
{
    if k > 0 {
        lemma_walk_same(old, new, start, x, (k - 1) as nat);
        assert(ancestor_at(old, start, (k - 1) as nat) != Some(x));
    }
}

/// A walk in a list whose parents all exist never meets an identifier that
/// is not in the list, unless it starts there.
proof fn lemma_walk_avoids_absent(ns: Seq<NodeRecord>, id: NodeId, x: NodeId, k: nat)
    requires
        parents_are_folders(ns),
        !has_node(ns, x),
        id != x,
    ensures
        ancestor_at(ns, id, k) != Some(x),
    decreases k,
{
    if k > 0 {
        lemma_walk_avoids_absent(ns, id, x, (k - 1) as nat);
        if let Some(a) = ancestor_at(ns, id, (k - 1) as nat) {
            if let Some(p) = parent_of(ns, a) {
                let i = node_index(ns, a);
                assert(ns[i].parent_uuid == Some(p));
                assert(is_folder(ns, p));
            }
        }
    }
}

/// The listing of `group`: each member at its place.
pub open spec fn lists_group(r: Seq<WorkspaceNode>, group: Seq<NodeRecord>) -> bool {
    &&& r.len() == group.len()
    &&& forall|i: int| 0 <= i < r.len() ==> listed_as(group[i], #[trigger] r[i], i)
}

/// What a tree check of an optional parent gives: `None` when it may hold
/// children.
pub open spec fn parent_check(ns: Seq<NodeRecord>, parent: Option<NodeId>) -> Option<
    TreeServiceError,
> {
    match parent {
        None => None,
        Some(p) => match node_of(ns, p) {
            None => Some(TreeServiceError::ParentNotFound(p)),
            Some(n) => if n.kind == WorkspaceNodeKind::Folder {
                None
            } else {
                Some(TreeServiceError::ParentMustBeFolder(p))
            },
        },
    }
}

/// `rec` has these fields, its name viewed as characters.
pub open spec fn record_matches(
    rec: NodeRecord,
    id: NodeId,
    kind: WorkspaceNodeKind,
    parent: Option<NodeId>,
    atom: Option<AtomId>,
    name: Seq<char>,
) -> bool {
    &&& rec.node_uuid == id
    &&& rec.kind == kind
    &&& rec.parent_uuid == parent
    &&& rec.atom_uuid == atom
    &&& rec.display_name@ == name
}

/// Adding a node with these fields to `old` gives `new` and `r`: refused
/// when `id` is taken, else appended last in its sibling group.
pub open spec fn insertion_outcome(
    old: Seq<NodeRecord>,
    new: Seq<NodeRecord>,
    r: Result<WorkspaceNode, TreeServiceError>,
    id: NodeId,
    kind: WorkspaceNodeKind,
    parent: Option<NodeId>,
    atom: Option<AtomId>,
    name: Seq<char>,
) -> bool {
    if has_node(old, id) {
        r == Err::<WorkspaceNode, TreeServiceError>(TreeServiceError::IdInUse(id)) && new == old
    } else {
        &&& new.len() == old.len() + 1
        &&& new.drop_last() == old
        &&& record_matches(new.last(), id, kind, parent, atom, name)
        &&& r matches Ok(n) && listed_as(new.last(), n, children(old, parent).len() as int)
    }
}

/// What `create_folder_with_id` does.
pub open spec fn folder_outcome(
    old: Seq<NodeRecord>,
    new: Seq<NodeRecord>,
    r: Result<WorkspaceNode, TreeServiceError>,
    id: NodeId,
    parent: Option<NodeId>,
    name: Seq<char>,
) -> bool {
    match parent_check(old, parent) {
        Some(e) => r == Err::<WorkspaceNode, TreeServiceError>(e) && new == old,
        None => insertion_outcome(old, new, r, id, WorkspaceNodeKind::Folder, parent, None, name),
    }
}

/// The name a note reference gets: the one given, else "Untitled note".
pub open spec fn note_ref_name(name: Option<String>) -> Seq<char> {
    match name {
        Some(n) => n@,
        None => "Untitled note"@,
    }
}

/// `atom_id` names a live atom of kind note in `atoms`.
pub open spec fn is_live_note(atoms: Seq<crate::section::SectionAtomRow>, atom_id: AtomId) -> bool {
    live_atom_of(atoms, atom_id) matches Some(a) && a.kind == AtomType::Note
}

/// What `create_note_ref_with_id` does.
pub open spec fn note_ref_outcome(
    old: Seq<NodeRecord>,
    new: Seq<NodeRecord>,
    r: Result<WorkspaceNode, TreeServiceError>,
    id: NodeId,
    atoms: Seq<crate::section::SectionAtomRow>,
    parent: Option<NodeId>,
    atom_id: AtomId,
    name: Option<String>,
) -> bool {
    match parent_check(old, parent) {
        Some(e) => r == Err::<WorkspaceNode, TreeServiceError>(e) && new == old,
        None => if !is_live_note(atoms, atom_id) {
            r == Err::<WorkspaceNode, TreeServiceError>(TreeServiceError::AtomNotNote(atom_id))
                && new == old
        } else {
            insertion_outcome(
                old,
                new,
                r,
                id,
                WorkspaceNodeKind::NoteRef,
                parent,
                Some(atom_id),
                note_ref_name(name),
            )
        },
    }
}

/// The place a moved node takes in a group of `m` others: the target
/// clamped to `[0, m]`, the end when there is none.
pub open spec fn target_place(target: Option<i64>, m: int) -> int {
    match target {
        None => m,
        Some(t) => if t < 0 {
            0
        } else if t > m {
            m
        } else {
            t as int
        },
    }
}

/// `new` is `old` with node `id` taken out and put under `parent` at the
/// target place of its new sibling group, every other group keeping its
/// order.
pub open spec fn moved_into(
    old: Seq<NodeRecord>,
    new: Seq<NodeRecord>,
    id: NodeId,
    parent: Option<NodeId>,
    target: Option<i64>,
) -> bool {
    let k = node_index(old, id);
    let rest = old.remove(k);
    let moved = NodeRecord { parent_uuid: parent, ..old[k] };
    let t = target_place(target, children(rest, parent).len() as int);
    &&& children(new, parent) == children(rest, parent).insert(t, moved)
    &&& forall|g: Option<NodeId>| g != parent ==> #[trigger] children(new, g) == children(rest, g)
    &&& exists|pos: int| 0 <= pos <= rest.len() && new == rest.insert(pos, moved)
}

/// What `move_node` does.
pub open spec fn move_outcome(
    old: Seq<NodeRecord>,
    new: Seq<NodeRecord>,
    r: Result<(), TreeServiceError>,
    id: NodeId,
    parent: Option<NodeId>,
    target: Option<i64>,
) -> bool {
    if !has_node(old, id) {
        r == Err::<(), TreeServiceError>(TreeServiceError::NodeNotFound(id)) && new == old
    } else {
        match parent_check(old, parent) {
            Some(e) => r == Err::<(), TreeServiceError>(e) && new == old,
            None => if parent matches Some(p) && in_subtree(old, p, id) {
                r == Err::<(), TreeServiceError>(
                    TreeServiceError::CycleDetected { node_uuid: id, parent_uuid: parent->0 },
                ) && new == old
            } else {
                r == Ok::<(), TreeServiceError>(()) && moved_into(old, new, id, parent, target)
            },
        }
    }
}

/// Once the walk up has passed a root it stays past it.
proof fn lemma_walk_ended(ns: Seq<NodeRecord>, id: NodeId, k: nat, j: nat)
    requires
        ancestor_at(ns, id, k) is None,
        k <= j,
    ensures
        ancestor_at(ns, id, j) is None,
    decreases j - k,
{
    if k < j {
        lemma_walk_ended(ns, id, k, (j - 1) as nat);
    }
}

/// Taking out the node at `k` and putting `moved`, which has its identifier
/// and kind, back at `pos` keeps identifiers unique and keeps which
/// identifiers exist and what kind they are.
proof fn lemma_reinsert_keeps_catalog(
    old: Seq<NodeRecord>,
    k: int,
    moved: NodeRecord,
    pos: int,
)
    requires
        node_ids_unique(old),
        0 <= k < old.len(),
        moved.node_uuid == old[k].node_uuid,
        moved.kind == old[k].kind,
        0 <= pos <= old.len() - 1,
    ensures
        node_ids_unique(old.remove(k).insert(pos, moved)),
        forall|id: NodeId|
            #![trigger node_of(old.remove(k).insert(pos, moved), id)]
            (node_of(old.remove(k).insert(pos, moved), id) is Some <==> node_of(old, id) is Some)
                && (node_of(old, id) is Some ==> node_of(old.remove(k).insert(pos, moved), id)->0.kind
                == node_of(old, id)->0.kind) && node_of(old.remove(k).insert(pos, moved), id) == (
            if id == moved.node_uuid {
                Some(moved)
            } else {
                node_of(old, id)
            }),
{
    let rest = old.remove(k);
    let new = rest.insert(pos, moved);
    let orig = |a: int|
        if a == pos {
            k
        } else {
            let r = if a < pos {
                a
            } else {
                a - 1
            };
            if r < k {
                r
            } else {
                r + 1
            }
        };
    assert forall|a: int| 0 <= a < new.len() implies 0 <= #[trigger] orig(a) < old.len() && new[a].node_uuid
        == old[orig(a)].node_uuid && new[a].kind == old[orig(a)].kind && (a != pos ==> new[a] == old[orig(a)])
        && (a == pos ==> new[a] == moved) by {}
    assert forall|a: int, b: int| 0 <= a < b < new.len() implies (#[trigger] new[a]).node_uuid != (
    #[trigger] new[b]).node_uuid by {
        assert(orig(a) != orig(b));
        assert(0 <= orig(a) < old.len() && 0 <= orig(b) < old.len());
        if orig(a) < orig(b) {
            assert(old[orig(a)].node_uuid != old[orig(b)].node_uuid);
        } else {
            assert(old[orig(b)].node_uuid != old[orig(a)].node_uuid);
        }
    }
    assert forall|id: NodeId| #![trigger node_of(new, id)]
        (node_of(new, id) is Some <==> node_of(old, id) is Some) && (node_of(old, id) is Some
            ==> node_of(new, id)->0.kind == node_of(old, id)->0.kind) && node_of(new, id) == (if id
            == moved.node_uuid {
            Some(moved)
        } else {
            node_of(old, id)
        }) by {
        if has_node(old, id) {
            let j = node_index(old, id);
            let a = if j == k {
                pos
            } else {
                let r = if j < k {
                    j
                } else {
                    j - 1
                };
                if r < pos {
                    r
                } else {
                    r + 1
                }
            };
            assert(orig(a) == j);
            assert(new[a].node_uuid == id);
            assert(has_node(new, id));
            let b = node_index(new, id);
            assert(new[b].node_uuid == id);
            if orig(b) != j {
                if orig(b) < j {
                    assert(old[orig(b)].node_uuid != old[j].node_uuid);
                } else {
                    assert(old[j].node_uuid != old[orig(b)].node_uuid);
                }
            }
            if j == k {
                assert(b == pos);
            } else {
                assert(b != pos);
                assert(id != moved.node_uuid) by {
                    assert(old[j].node_uuid != old[k].node_uuid) by {
                        if j < k {
                        } else {
                        }
                    }
                }
            }
        } else {
            assert(id != moved.node_uuid) by {
                assert(old[k].node_uuid == moved.node_uuid);
            }
        }
        if has_node(new, id) {
            let b = node_index(new, id);
            assert(old[orig(b)].node_uuid == id);
            assert(has_node(old, id));
        }
    }
}

/// Putting `moved` back at `pos`, after `t` members of its group, places it
/// at `t` in its group and leaves every other group as it was.
proof fn lemma_reinsert_groups(rest: Seq<NodeRecord>, pos: int, moved: NodeRecord, t: int)
    requires
        0 <= pos <= rest.len(),
        rest.subrange(0, pos).filter(under(moved.parent_uuid)).len() == t,
    ensures
        forall|g: Option<NodeId>| #![trigger children(rest.insert(pos, moved), g)]
            children(rest.insert(pos, moved), g) == (if g == moved.parent_uuid {
                children(rest, g).insert(t, moved)
            } else {
                children(rest, g)
            }),
{
    let new = rest.insert(pos, moved);
    let a = rest.subrange(0, pos);
    let b = rest.subrange(pos, rest.len() as int);
    let one = seq![moved];
    assert(new =~= a + one + b);
    assert(rest =~= a + b);
    assert forall|g: Option<NodeId>| #![trigger children(new, g)]
        children(new, g) == (if g == moved.parent_uuid {
            children(rest, g).insert(t, moved)
        } else {
            children(rest, g)
        }) by {
        Seq::filter_distributes_over_add(a + one, b, under(g));
        Seq::filter_distributes_over_add(a, one, under(g));
        Seq::filter_distributes_over_add(a, b, under(g));
        reveal_with_fuel(Seq::filter, 2);
        assert(one.drop_last() =~= Seq::<NodeRecord>::empty());
        if g == moved.parent_uuid {
            assert(one.filter(under(g)) =~= one);
            assert(children(rest, g).insert(t, moved) =~= a.filter(under(g)) + one + b.filter(
                under(g),
            ));
        } else {
            assert(one.filter(under(g)) =~= Seq::<NodeRecord>::empty());
            assert(a.filter(under(g)) + one.filter(under(g)) =~= a.filter(under(g)));
        }
    }
}

/// Reinserting a node under an existing folder keeps every parent a folder.
proof fn lemma_reinsert_parents(old: Seq<NodeRecord>, k: int, moved: NodeRecord, pos: int)
    requires
        node_ids_unique(old),
        parents_are_folders(old),
        0 <= k < old.len(),
        moved.node_uuid == old[k].node_uuid,
        moved.kind == old[k].kind,
        0 <= pos <= old.len() - 1,
        moved.parent_uuid matches Some(p) ==> is_folder(old, p),
    ensures
        parents_are_folders(old.remove(k).insert(pos, moved)),
{
    let rest = old.remove(k);
    let new = rest.insert(pos, moved);
    lemma_reinsert_keeps_catalog(old, k, moved, pos);
    assert forall|i: int| 0 <= i < new.len() && (#[trigger] new[i]).parent_uuid is Some implies is_folder(
        new,
        new[i].parent_uuid->0,
    ) by {
        let p = new[i].parent_uuid->0;
        if i == pos {
            assert(is_folder(old, p));
        } else {
            let j = if i < pos {
                i
            } else {
                i - 1
            };
            assert(new[i] == rest[j]);
            let oj = if j < k {
                j
            } else {
                j + 1
            };
            assert(rest[j] == old[oj]);
            assert(is_folder(old, p));
        }
        assert(node_of(new, p) is Some);
    }
}

/// Giving `x` the parent `np`, which is no node of the subtree of `x`,
/// keeps every walk finite.
proof fn lemma_reparent_walks_end(old: Seq<NodeRecord>, new: Seq<NodeRecord>, x: NodeId, np: Option<NodeId>, y: NodeId, end: nat)
    requires
        walks_end(old),
        forall|c: NodeId| c != x ==> #[trigger] parent_of(new, c) == parent_of(old, c),
        parent_of(new, x) == np,
        np matches Some(p) ==> !in_subtree(old, p, x),
        ancestor_at(old, y, end) is None,
    ensures
        walk_ends(new, y),
    decreases end,
{
    if y == x {
        match np {
            None => {
                lemma_walk_step(new, x, 0);
                assert(ancestor_at(new, x, 1) is None);
            },
            Some(p) => {
                assert forall|j: nat| #[trigger] ancestor_at(old, p, j) != Some(x) by {}
                assert(walk_ends(old, p));
                let kk = choose|kk: nat| #[trigger] ancestor_at(old, p, kk) is None;
                lemma_walk_same(old, new, p, x, kk);
                lemma_walk_step(new, x, kk);
                assert(ancestor_at(new, x, kk + 1) is None);
            },
        }
    } else {
        assert(end > 0);
        lemma_walk_step(old, y, (end - 1) as nat);
        lemma_walk_step(new, y, 0);
        match parent_of(old, y) {
            None => {
                assert(ancestor_at(new, y, 1) is None);
            },
            Some(q) => {
                lemma_reparent_walks_end(old, new, x, np, q, (end - 1) as nat);
                let kk = choose|kk: nat| #[trigger] ancestor_at(new, q, kk) is None;
                lemma_walk_step(new, y, kk);
                assert(ancestor_at(new, y, kk + 1) is None);
            },
        }
    }
}

/// Workspace tree held in memory.
pub struct TreeService {
    nodes: Vec<NodeRecord>,
}

impl TreeService {
    /// The stored nodes, in list order.
    pub closed spec fn nodes(&self) -> Seq<NodeRecord> {
        self.nodes@
    }

    /// Identifiers are unique, only existing folders are parents, and the
    /// parent relation has no cycle.
    pub open spec fn wf(&self) -> bool {
        &&& node_ids_unique(self.nodes())
        &&& parents_are_folders(self.nodes())
        &&& walks_end(self.nodes())
    }

    /// An empty tree.
    pub fn new() -> (r: TreeService)
        ensures
            r.wf(),
            r.nodes().len() == 0,
    {
        let t = TreeService { nodes: Vec::new() };
        proof {
            assert forall|id: NodeId| #[trigger] walk_ends(t.nodes(), id) by {
                assert(ancestor_at(t.nodes(), id, 1) is None);
            }
        }
        t
    }

    /// The position of node `id`.
    fn find(&self, id: NodeId) -> (r: Option<usize>)
        requires
            self.wf(),
        ensures
            r is None <==> !has_node(self.nodes(), id),
            r matches Some(i) ==> i == node_index(self.nodes(), id) && i < self.nodes().len(),
    {
        let mut i: usize = 0;
        while i < self.nodes.len()
            invariant
                self.wf(),
                i <= self.nodes@.len(),
                forall|k: int| 0 <= k < i ==> (#[trigger] self.nodes@[k]).node_uuid != id,
            decreases self.nodes@.len() - i,
        {
            if self.nodes[i].node_uuid == id {
                proof {
                    assert(self.nodes()[i as int].node_uuid == id);
                    assert(has_node(self.nodes(), id));
                    let j = node_index(self.nodes(), id);
                    if j < i {
                        assert(self.nodes()[j].node_uuid != self.nodes()[i as int].node_uuid);
                    } else if i < j {
                        assert(self.nodes()[i as int].node_uuid != self.nodes()[j].node_uuid);
                    }
                }
                return Some(i);
            }
            i = i + 1;
        }
        None
    }

    /// Checks that `parent`, when given, exists and is a folder.
    fn check_parent(&self, parent: Option<NodeId>) -> (r: Option<TreeServiceError>)
        requires
            self.wf(),
        ensures
            r == parent_check(self.nodes(), parent),
    {
        match parent {
            None => None,
            Some(p) => match self.find(p) {
                None => Some(TreeServiceError::ParentNotFound(p)),
                Some(i) => {
                    if self.nodes[i].kind == WorkspaceNodeKind::Folder {
                        None
                    } else {
                        Some(TreeServiceError::ParentMustBeFolder(p))
                    }
                },
            },
        }
    }

    /// The number of nodes under `parent`.
    fn count_children(&self, parent: Option<NodeId>) -> (r: usize)
        ensures
            r == children(self.nodes(), parent).len(),
    {
        let mut c: usize = 0;
        let mut i: usize = 0;
        while i < self.nodes.len()
            invariant
                i <= self.nodes@.len(),
                c == self.nodes@.subrange(0, i as int).filter(under(parent)).len(),
                c <= i,
            decreases self.nodes@.len() - i,
        {
            proof {
                reveal(Seq::filter);
                assert(self.nodes@.subrange(0, i + 1).drop_last() =~= self.nodes@.subrange(0, i as int));
            }
            if self.nodes[i].parent_uuid == parent {
                c = c + 1;
            }
            i = i + 1;
        }
        proof {
            assert(self.nodes@.subrange(0, self.nodes@.len() as int) =~= self.nodes@);
        }
        c
    }

    /// Appends `rec`, whose identifier is new and whose parent may hold
    /// children.
    fn append(&mut self, rec: NodeRecord)
        requires
            old(self).wf(),
            !has_node(old(self).nodes(), rec.node_uuid),
            parent_check(old(self).nodes(), rec.parent_uuid) is None,
        ensures
            final(self).wf(),
            final(self).nodes() == old(self).nodes().push(rec),
    {
        let ghost ns = self.nodes@;
        self.nodes.push(rec);
        proof {
            let ns2 = self.nodes@;
            assert forall|i: int, j: int| 0 <= i < j < ns2.len() implies (#[trigger] ns2[i]).node_uuid
                != (#[trigger] ns2[j]).node_uuid by {
                if j == ns.len() {
                    assert(ns[i].node_uuid == ns2[i].node_uuid);
                } else {
                    assert(ns[i] == ns2[i] && ns[j] == ns2[j]);
                }
            }
            assert forall|id: NodeId| #[trigger] has_node(ns, id) implies node_of(ns2, id) == node_of(ns, id) by {
                let k = node_index(ns, id);
                assert(ns2[k].node_uuid == id);
                assert(has_node(ns2, id));
                let m = node_index(ns2, id);
                if m < k {
                    assert(ns2[m].node_uuid != ns2[k].node_uuid);
                } else if k < m {
                    assert(ns2[k].node_uuid != ns2[m].node_uuid);
                }
            }
            let x = rec.node_uuid;
            assert(ns2[ns.len() as int] == rec);
            assert(has_node(ns2, x));
            let xi = node_index(ns2, x);
            if xi < ns.len() {
                assert(ns[xi] == ns2[xi]);
                assert(has_node(ns, x));
            }
            assert(node_of(ns2, x) == Some(rec));
            assert forall|c: NodeId| c != x implies #[trigger] parent_of(ns2, c) == parent_of(ns, c) by {
                if has_node(ns, c) {
                } else if has_node(ns2, c) {
                    let ci = node_index(ns2, c);
                    if ci < ns.len() {
                        assert(ns[ci] == ns2[ci]);
                    }
                }
            }
            assert forall|id: NodeId| #[trigger] walk_ends(ns2, id) by {
                if id != x {
                    assert forall|j: nat| #[trigger] ancestor_at(ns, id, j) != Some(x) by {
                        lemma_walk_avoids_absent(ns, id, x, j);
                    }
                    assert(walk_ends(ns, id));
                    let kk = choose|kk: nat| #[trigger] ancestor_at(ns, id, kk) is None;
                    lemma_walk_same(ns, ns2, id, x, kk);
                } else {
                    match rec.parent_uuid {
                        None => {
                            lemma_walk_step(ns2, x, 0);
                        },
                        Some(p) => {
                            assert(has_node(ns, p));
                            assert(p != x);
                            assert forall|j: nat| #[trigger] ancestor_at(ns, p, j) != Some(x) by {
                                lemma_walk_avoids_absent(ns, p, x, j);
                            }
                            assert(walk_ends(ns, p));
                            let kk = choose|kk: nat| #[trigger] ancestor_at(ns, p, kk) is None;
                            lemma_walk_same(ns, ns2, p, x, kk);
                            lemma_walk_step(ns2, x, kk);
                        },
                    }
                }
            }
            assert forall|i: int| 0 <= i < ns2.len() && (#[trigger] ns2[i]).parent_uuid is Some implies is_folder(ns2, ns2[i].parent_uuid->0) by {
                let p = ns2[i].parent_uuid->0;
                if i < ns.len() {
                    assert(ns[i] == ns2[i]);
                    assert(is_folder(ns, p));
                } else {
                    assert(is_folder(ns, p));
                }
                assert(has_node(ns, p));
            }
        }
    }

    /// Lists the nodes under `parent` (the roots for `None`) in sibling
    /// order, each with its zero-based place.
    pub fn list_children(&self, parent: Option<NodeId>) -> (r: Result<Vec<WorkspaceNode>, TreeServiceError>)
        ensures
            r matches Ok(v) && lists_group(v@, children(self.nodes(), parent)),
    {
        let mut out: Vec<WorkspaceNode> = Vec::new();
        let mut i: usize = 0;
        while i < self.nodes.len()
            invariant
                i <= self.nodes@.len(),
                lists_group(out@, self.nodes@.subrange(0, i as int).filter(under(parent))),
                out@.len() <= i,
            decreases self.nodes@.len() - i,
        {
            proof {
                reveal(Seq::filter);
                assert(self.nodes@.subrange(0, i + 1).drop_last() =~= self.nodes@.subrange(0, i as int));
            }
            if self.nodes[i].parent_uuid == parent {
                let place = out.len();
                let n = self.nodes[i].listed(place);
                let ghost prev = out@;
                out.push(n);
                proof {
                    let g = self.nodes@.subrange(0, i + 1).filter(under(parent));
                    assert(g == self.nodes@.subrange(0, i as int).filter(under(parent)).push(self.nodes@[i as int]));
                    assert forall|k: int| 0 <= k < out@.len() implies listed_as(g[k], #[trigger] out@[k], k) by {
                        if k < prev.len() {
                            assert(out@[k] == prev[k]);
                        }
                    }
                }
            }
            i = i + 1;
        }
        proof {
            assert(self.nodes@.subrange(0, self.nodes@.len() as int) =~= self.nodes@);
        }
        Ok(out)
    }

    /// Adds a folder with identifier `id` as the last child of `parent`
    /// (a root for `None`).
    pub fn create_folder_with_id(&mut self, id: NodeId, parent: Option<NodeId>, name: &str) -> (r: Result<
        WorkspaceNode,
        TreeServiceError,
    >)
        requires
            old(self).wf(),
        ensures
            final(self).wf(),
            folder_outcome(old(self).nodes(), final(self).nodes(), r, id, parent, name@),
    {
        match self.check_parent(parent) {
            Some(e) => {
                return Err(e);
            },
            None => {},
        }
        if self.find(id).is_some() {
            return Err(TreeServiceError::IdInUse(id));
        }
        let place = self.count_children(parent);
        let rec = NodeRecord {
            node_uuid: id,
            kind: WorkspaceNodeKind::Folder,
            parent_uuid: parent,
            atom_uuid: None,
            display_name: String::from_str(name),
        };
        let listed = rec.listed(place);
        self.append(rec);
        proof {
            assert(self.nodes().drop_last() =~= old(self).nodes());
        }
        Ok(listed)
    }

    /// Adds a folder with a fresh random identifier as the last child of
    /// `parent` (a root for `None`).
    pub fn create_folder(&mut self, parent: Option<NodeId>, name: &str) -> (r: Result<
        WorkspaceNode,
        TreeServiceError,
    >)
        requires
            old(self).wf(),
        ensures
            final(self).wf(),
            exists|id: NodeId| #[trigger]
                folder_outcome(old(self).nodes(), final(self).nodes(), r, id, parent, name@),
    {
        let id = crate::ids::random_id();
        self.create_folder_with_id(id, parent, name)
    }

    /// Adds a reference with identifier `id` to the live note `atom_id` of
    /// `atoms`, as the last child of `parent`; named "Untitled note" when no
    /// name is given.
    pub fn create_note_ref_with_id(
        &mut self,
        id: NodeId,
        atoms: &AtomStore,
        parent: Option<NodeId>,
        atom_id: AtomId,
        name: Option<String>,
    ) -> (r: Result<WorkspaceNode, TreeServiceError>)
        requires
            old(self).wf(),
            atoms.wf(),
        ensures
            final(self).wf(),
            note_ref_outcome(old(self).nodes(), final(self).nodes(), r, id, atoms.rows(), parent, atom_id, name),
    {
        match self.check_parent(parent) {
            Some(e) => {
                return Err(e);
            },
            None => {},
        }
        let is_note = match atoms.get_atom(atom_id, false) {
            Ok(Some(a)) => a.kind == AtomType::Note,
            _ => false,
        };
        if !is_note {
            return Err(TreeServiceError::AtomNotNote(atom_id));
        }
        if self.find(id).is_some() {
            return Err(TreeServiceError::IdInUse(id));
        }
        let place = self.count_children(parent);
        let display_name = match name {
            Some(n) => n,
            None => String::from_str("Untitled note"),
        };
        let rec = NodeRecord {
            node_uuid: id,
            kind: WorkspaceNodeKind::NoteRef,
            parent_uuid: parent,
            atom_uuid: Some(atom_id),
            display_name,
        };
        let listed = rec.listed(place);
        self.append(rec);
        proof {
            assert(self.nodes().drop_last() =~= old(self).nodes());
        }
        Ok(listed)
    }

    /// Adds a reference with a fresh random identifier to the live note
    /// `atom_id` of `atoms`, as the last child of `parent`.
    pub fn create_note_ref(
        &mut self,
        atoms: &AtomStore,
        parent: Option<NodeId>,
        atom_id: AtomId,
        name: Option<String>,
    ) -> (r: Result<WorkspaceNode, TreeServiceError>)
        requires
            old(self).wf(),
            atoms.wf(),
        ensures
            final(self).wf(),
            exists|id: NodeId| #[trigger]
                note_ref_outcome(old(self).nodes(), final(self).nodes(), r, id, atoms.rows(), parent, atom_id, name),
    {
        let id = crate::ids::random_id();
        self.create_note_ref_with_id(id, atoms, parent, atom_id, name)
    }

    /// The parent of node `id`, by lookup.
    fn parent_of_node(&self, id: NodeId) -> (r: Option<NodeId>)
        requires
            self.wf(),
        ensures
            r == parent_of(self.nodes(), id),
    {
        match self.find(id) {
            Some(i) => self.nodes[i].parent_uuid,
            None => None,
        }
    }

    /// Walks up from `start` until the walk passes a root or meets `top`.
    fn reaches(&self, start: NodeId, top: NodeId) -> (r: bool)
        requires
            self.wf(),
        ensures
            r == in_subtree(self.nodes(), start, top),
    {
        let ghost ns = self.nodes();
        let ghost end: nat;
        proof {
            assert(walk_ends(ns, start));
            end = choose|kk: nat| #[trigger] ancestor_at(ns, start, kk) is None;
        }
        let mut cur: Option<NodeId> = Some(start);
        let ghost mut steps: nat = 0;
        loop
            invariant
                self.wf(),
                ns == self.nodes(),
                ancestor_at(ns, start, end) is None,
                steps <= end,
                cur == ancestor_at(ns, start, steps),
                forall|k: nat| k < steps ==> ancestor_at(ns, start, k) != Some(top),
            decreases end - steps,
        {
            match cur {
                None => {
                    proof {
                        assert forall|k: nat| ancestor_at(ns, start, k) != Some(top) by {
                            if k >= steps {
                                lemma_walk_ended(ns, start, steps, k);
                            }
                        }
                    }
                    return false;
                },
                Some(c) => {
                    if c == top {
                        return true;
                    }
                    cur = self.parent_of_node(c);
                    proof {
                        assert(steps != end);
                        steps = steps + 1;
                    }
                },
            }
        }
    }

    /// Moves node `node_id` under `new_parent` (to the roots for `None`), at
    /// place `target_order` of its new sibling group, clamped to the group's
    /// size, or last when no place is given. Refused, with nothing changed,
    /// when the node is unknown, the parent is unknown or not a folder, or
    /// the parent is the node itself or lies below it.
    pub fn move_node(&mut self, node_id: NodeId, new_parent: Option<NodeId>, target_order: Option<i64>) -> (r: Result<(), TreeServiceError>)
        requires
            old(self).wf(),
        ensures
            final(self).wf(),
            move_outcome(old(self).nodes(), final(self).nodes(), r, node_id, new_parent, target_order),
    {
        let k = match self.find(node_id) {
            None => {
                return Err(TreeServiceError::NodeNotFound(node_id));
            },
            Some(k) => k,
        };
        match self.check_parent(new_parent) {
            Some(e) => {
                return Err(e);
            },
            None => {},
        }
        match new_parent {
            Some(p) => {
                if self.reaches(p, node_id) {
                    return Err(TreeServiceError::CycleDetected { node_uuid: node_id, parent_uuid: p });
                }
            },
            None => {},
        }
        let ghost old_nodes = self.nodes@;
        let current = self.nodes.remove(k);
        let moved = NodeRecord { parent_uuid: new_parent, ..current };
        let ghost rest = self.nodes@;
        let m = self.count_children(new_parent);
        let t: usize = match target_order {
            None => m,
            Some(x) => {
                if x < 0 {
                    0
                } else if x as u64 > m as u64 {
                    m
                } else {
                    x as usize
                }
            },
        };
        let mut pos: usize = 0;
        let mut c: usize = 0;
        while pos < self.nodes.len() && c < t
            invariant
                self.nodes@ == rest,
                pos <= rest.len(),
                c == rest.subrange(0, pos as int).filter(under(new_parent)).len(),
                c <= t,
                t <= m,
                m == children(rest, new_parent).len(),
            decreases rest.len() - pos,
        {
            proof {
                reveal(Seq::filter);
                assert(rest.subrange(0, pos + 1).drop_last() =~= rest.subrange(0, pos as int));
            }
            if self.nodes[pos].parent_uuid == new_parent {
                c = c + 1;
            }
            pos = pos + 1;
        }
        proof {
            let a = rest.subrange(0, pos as int);
            let b = rest.subrange(pos as int, rest.len() as int);
            assert(rest =~= a + b);
            Seq::filter_distributes_over_add(a, b, under(new_parent));
            if pos == rest.len() {
                assert(a =~= rest);
                assert(b.len() == 0);
                reveal(Seq::filter);
                assert(b.filter(under(new_parent)).len() == 0);
            }
            assert(c == t);
        }
        self.nodes.insert(pos, moved);
        proof {
            assert(old_nodes[k as int] == current);
            assert(k == node_index(old_nodes, node_id));
            assert(rest == old_nodes.remove(k as int));
            lemma_reinsert_keeps_catalog(old_nodes, k as int, moved, pos as int);
            lemma_reinsert_groups(rest, pos as int, moved, t as int);
            lemma_reinsert_parents(old_nodes, k as int, moved, pos as int);
            let new = self.nodes@;
            assert(new == old_nodes.remove(k as int).insert(pos as int, moved));
            assert forall|c: NodeId| c != node_id implies #[trigger] parent_of(new, c) == parent_of(old_nodes, c) by {
                assert(node_of(new, c) == node_of(old_nodes, c));
            }
            assert(node_of(new, node_id) == Some(moved));
            assert forall|y: NodeId| #[trigger] walk_ends(new, y) by {
                assert(walk_ends(old_nodes, y));
                let e = choose|kk: nat| #[trigger] ancestor_at(old_nodes, y, kk) is None;
                lemma_reparent_walks_end(old_nodes, new, node_id, new_parent, y, e);
            }
            assert(t as int == target_place(target_order, children(rest, new_parent).len() as int));
            assert(self.nodes@ == rest.insert(pos as int, moved));
        }
        Ok(())
    }
}

/// Moving a node under a folder that is the node itself or lies below it,
/// at any depth, is refused with `CycleDetected` and changes nothing.
pub proof fn law_move_into_own_subtree_refused(
    old: Seq<NodeRecord>,
    new: Seq<NodeRecord>,
    r: Result<(), TreeServiceError>,
    id: NodeId,
    p: NodeId,
    target: Option<i64>,
)
    requires
        has_node(old, id),
        is_folder(old, p),
        in_subtree(old, p, id),
        move_outcome(old, new, r, id, Some(p), target),
    ensures
        r == Err::<(), TreeServiceError>(TreeServiceError::CycleDetected { node_uuid: id, parent_uuid: p }),
        new == old,
{
}

/// In every listing of a sibling group of `n` nodes the places are exactly
/// `0..n-1`, in order, with no place taken twice.
pub proof fn law_sibling_places_dense(v: Seq<WorkspaceNode>, group: Seq<NodeRecord>)
    requires
        lists_group(v, group),
    ensures
        forall|i: int| 0 <= i < v.len() ==> #[trigger] v[i].sort_order == i,
        forall|i: int, j: int|
            0 <= i < j < v.len() ==> (#[trigger] v[i]).sort_order != (#[trigger] v[j]).sort_order,
{
    assert forall|i: int| 0 <= i < v.len() implies #[trigger] v[i].sort_order == i by {
        assert(listed_as(group[i], v[i], i));
    }
}

/// A note reference needs a live note: for a missing or deleted atom, or
/// one that is not a note, creation fails with `AtomNotNote`; for a live
/// note and a free identifier it succeeds, named "Untitled note" when no
/// name is given.
pub proof fn law_note_ref_needs_live_note(
    old: Seq<NodeRecord>,
    new: Seq<NodeRecord>,
    r: Result<WorkspaceNode, TreeServiceError>,
    id: NodeId,
    atoms: Seq<crate::section::SectionAtomRow>,
    parent: Option<NodeId>,
    atom_id: AtomId,
    name: Option<String>,
)
    requires
        parent_check(old, parent) is None,
        note_ref_outcome(old, new, r, id, atoms, parent, atom_id, name),
    ensures
        !is_live_note(atoms, atom_id) ==> r == Err::<WorkspaceNode, TreeServiceError>(
            TreeServiceError::AtomNotNote(atom_id),
        ),
        is_live_note(atoms, atom_id) && !has_node(old, id) && name is None ==> (r matches Ok(n)
            && n.display_name@ == "Untitled note"@ && n.atom_uuid == Some(atom_id) && n.kind
            == WorkspaceNodeKind::NoteRef),
{
}

} // verus!
