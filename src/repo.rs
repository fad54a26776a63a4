//! The atom store: validated writes, soft delete, narrow mutators and the
//! section queries over its rows.

use vstd::prelude::*;
use vstd::string::*;
use crate::atom::{validation_text, is_valid, validation_of, Atom, AtomId, AtomType, AtomValidationError, TaskStatus};
use crate::ids::{uuid_text, uuid_text_of};
use crate::text::{append_decimal, decimal, joined};
use crate::section::{
    in_inbox, is_open, law_sections_disjoint, selects, page,
    is_ordered_page, order_of, row_selected, selector, sort_rows, take_page, RowOrder,
    SectionAtomRow, Selection,
};

verus! {

/// Result type of store operations.
pub type RepoResult<T> = Result<T, RepoError>;

/// Errors of the atom store and of reading stored rows.
#[derive(Clone, Debug, PartialEq, Eq)]
pub enum RepoError {
    /// The atom failed validation; nothing was written.
    Validation(AtomValidationError),
    /// The storage engine failed.
    Db(String),
    /// No live row has this identifier.
    NotFound(AtomId),
    /// A row with this identifier already exists.
    DuplicateId(AtomId),
    /// Storage reports another schema version than the expected one.
    UninitializedConnection { expected_version: u32, actual_version: u32 },
    /// A required table is missing from the schema.
    MissingRequiredTable(String),
    /// A required column is missing from a required table.
    MissingRequiredColumn { table: String, column: String },
    /// A stored row cannot be read as a valid atom.
    InvalidData(String),
}

impl From<AtomValidationError> for RepoError {
    fn from(err: AtomValidationError) -> (r: RepoError)
        ensures
            r == RepoError::Validation(err),
    {
        RepoError::Validation(err)
    }
}

impl vstd::std_specs::convert::FromSpecImpl<AtomValidationError> for RepoError {
    open spec fn obeys_from_spec() -> bool {
        true
    }

    open spec fn from_spec(err: AtomValidationError) -> RepoError {
        RepoError::Validation(err)
    }
}

impl RepoError {
    /// A readable description.
    pub fn message(&self) -> (r: String)
        ensures
            *self matches RepoError::NotFound(id) ==> r@ == "atom not found: "@ + uuid_text_of(id),
            *self matches RepoError::DuplicateId(id) ==> r@ == "atom already exists: "@ + uuid_text_of(id),
            *self matches RepoError::Db(m) ==> r@ == m@,
            *self matches RepoError::InvalidData(m) ==> r@ == "invalid persisted atom data: "@ + m@,
            *self matches RepoError::MissingRequiredTable(t) ==> r@ == "repository requires table `"@ + t@
                + "`, but it was not found"@,
            *self matches RepoError::MissingRequiredColumn { table, column } ==> r@
                == "repository requires column `"@ + column@ + "` in table `"@ + table@
                + "`, but it was not found"@,
            *self matches RepoError::Validation(e) ==> r@ == validation_text(e),
            *self matches RepoError::UninitializedConnection { expected_version, actual_version } ==> r@
                == "repository requires migrated database schema version "@ + decimal(
                expected_version as nat,
            ) + ", got "@ + decimal(actual_version as nat),
    {
        match self {
            RepoError::Validation(e) => e.message(),
            RepoError::Db(m) => m.clone(),
            RepoError::NotFound(id) => {
                let mut m = String::from_str("atom not found: ");
                m.append(uuid_text(*id).as_str());
                m
            },
            RepoError::DuplicateId(id) => {
                let mut m = String::from_str("atom already exists: ");
                m.append(uuid_text(*id).as_str());
                m
            },
            RepoError::UninitializedConnection { expected_version, actual_version } => {
                let mut m = String::from_str("repository requires migrated database schema version ");
                append_decimal(&mut m, *expected_version as u64);
                m.append(", got ");
                append_decimal(&mut m, *actual_version as u64);
                m
            },
            RepoError::MissingRequiredTable(t) => joined(
                "repository requires table `",
                t.as_str(),
                "`, but it was not found",
            ),
            RepoError::MissingRequiredColumn { table, column } => {
                let mut m = joined("repository requires column `", column.as_str(), "` in table `");
                m.append(table.as_str());
                m.append("`, but it was not found");
                m
            },
            RepoError::InvalidData(m) => {
                let mut text = String::from_str("invalid persisted atom data: ");
                text.append(m.as_str());
                text
            },
        }
    }
}

/// Filter and pagination options for listing atoms.
#[derive(Clone, Copy, Debug)]
pub struct AtomListQuery {
    /// Only atoms of this kind, when set.
    pub kind: Option<AtomType>,
    /// Whether soft-deleted atoms are listed too.
    pub include_deleted: bool,
    /// At most this many atoms, when set.
    pub limit: Option<u32>,
    /// Number of atoms skipped from the ordered list.
    pub offset: u32,
}

/// Some row of `rows` has identifier `id`.
pub open spec fn has_id(rows: Seq<SectionAtomRow>, id: AtomId) -> bool {
    exists|i: int| 0 <= i < rows.len() && (#[trigger] rows[i]).atom.uuid == id
}

/// No two rows share an identifier.
pub open spec fn ids_unique(rows: Seq<SectionAtomRow>) -> bool {
    forall|i: int, j: int|
        0 <= i < j < rows.len() ==> (#[trigger] rows[i]).atom.uuid != (#[trigger] rows[j]).atom.uuid
}

/// The position of the row with identifier `id`.
pub open spec fn index_of(rows: Seq<SectionAtomRow>, id: AtomId) -> int {
    choose|i: int| 0 <= i < rows.len() && (#[trigger] rows[i]).atom.uuid == id
}

/// The stored atom with identifier `id`, deleted or not.
pub open spec fn atom_of(rows: Seq<SectionAtomRow>, id: AtomId) -> Option<Atom> {
    if has_id(rows, id) {
        Some(rows[index_of(rows, id)].atom)
    } else {
        None
    }
}

/// The stored atom with identifier `id`, if it is live.
pub open spec fn live_atom_of(rows: Seq<SectionAtomRow>, id: AtomId) -> Option<Atom> {
    match atom_of(rows, id) {
        Some(a) => if a.is_deleted {
            None
        } else {
            Some(a)
        },
        None => None,
    }
}

/// What `get_atom` returns.
pub open spec fn lookup(rows: Seq<SectionAtomRow>, id: AtomId, include_deleted: bool) -> Option<
    Atom,
> {
    if include_deleted {
        atom_of(rows, id)
    } else {
        live_atom_of(rows, id)
    }
}

/// The effective limit of a listing: all rows when none is given.
pub open spec fn listing_limit(limit: Option<u32>, n: nat) -> int {
    match limit {
        Some(l) => l as int,
        None => n as int,
    }
}

/// The stamp after `clock`.
pub open spec fn next_stamp(clock: int) -> int {
    if clock < i64::MAX {
        clock + 1
    } else {
        clock
    }
}

/// `new` is `old` with the row of `id` replaced by `atom`, stamped `stamp`.
pub open spec fn replaced(
    old: Seq<SectionAtomRow>,
    new: Seq<SectionAtomRow>,
    id: AtomId,
    atom: Atom,
    stamp: int,
) -> bool {
    new == old.update(index_of(old, id), SectionAtomRow { atom, updated_at: stamp as i64 })
}

/// What `soft_delete_atom` does to rows `old` under write clock `clock`,
/// giving rows `new` and result `r`.
pub open spec fn soft_delete_outcome(
    old: Seq<SectionAtomRow>,
    new: Seq<SectionAtomRow>,
    id: AtomId,
    clock: int,
    r: RepoResult<()>,
) -> bool {
    match atom_of(old, id) {
        None => r == Err::<(), RepoError>(RepoError::NotFound(id)) && new == old,
        Some(prev) => r == Ok::<(), RepoError>(()) && if prev.is_deleted {
            new == old
        } else {
            replaced(old, new, id, Atom { is_deleted: true, ..prev }, next_stamp(clock))
        },
    }
}

/// What `update_atom_status` does to rows `old` under write clock `clock`,
/// giving rows `new` and result `r`.
pub open spec fn status_update_outcome(
    old: Seq<SectionAtomRow>,
    new: Seq<SectionAtomRow>,
    id: AtomId,
    status: Option<TaskStatus>,
    clock: int,
    r: RepoResult<()>,
) -> bool {
    match live_atom_of(old, id) {
        None => r == Err::<(), RepoError>(RepoError::NotFound(id)) && new == old,
        Some(prev) => r == Ok::<(), RepoError>(()) && replaced(
            old,
            new,
            id,
            Atom { task_status: status, ..prev },
            next_stamp(clock),
        ),
    }
}

/// After `replaced`, the row of `id` holds `atom`.
proof fn lemma_replaced_lookup(
    old: Seq<SectionAtomRow>,
    new: Seq<SectionAtomRow>,
    id: AtomId,
    atom: Atom,
    stamp: int,
)
    requires
        ids_unique(old),
        has_id(old, id),
        atom.uuid == id,
        replaced(old, new, id, atom, stamp),
    ensures
        ids_unique(new),
        atom_of(new, id) == Some(atom),
{
    let k = index_of(old, id);
    assert(new[k].atom.uuid == id);
    assert forall|i: int, j: int| 0 <= i < j < new.len() implies (#[trigger] new[i]).atom.uuid != (
    #[trigger] new[j]).atom.uuid by {
        assert(old[i].atom.uuid == new[i].atom.uuid);
        assert(old[j].atom.uuid == new[j].atom.uuid);
    }
    assert(has_id(new, id));
    let m = index_of(new, id);
    if m < k {
        assert(new[m].atom.uuid != new[k].atom.uuid);
    } else if k < m {
        assert(new[k].atom.uuid != new[m].atom.uuid);
    }
}

/// Soft delete is idempotent: once a delete of `id` has succeeded, deleting
/// it again succeeds and leaves the rows as they are.
pub proof fn law_soft_delete_idempotent(
    s0: Seq<SectionAtomRow>,
    s1: Seq<SectionAtomRow>,
    s2: Seq<SectionAtomRow>,
    id: AtomId,
    c0: int,
    c1: int,
    r1: RepoResult<()>,
    r2: RepoResult<()>,
)
    requires
        ids_unique(s0),
        soft_delete_outcome(s0, s1, id, c0, r1),
        soft_delete_outcome(s1, s2, id, c1, r2),
    ensures
        r1 is Ok ==> r2 == Ok::<(), RepoError>(()) && s2 == s1,
        r1 is Err ==> r1 == Err::<(), RepoError>(RepoError::NotFound(id)) && r2 == r1,
{
    if let Some(prev) = atom_of(s0, id) {
        if !prev.is_deleted {
            assert(s0[index_of(s0, id)].atom.uuid == id);
            lemma_replaced_lookup(s0, s1, id, Atom { is_deleted: true, ..prev }, next_stamp(c0));
        }
    }
}

/// A successful status update is read back exactly: the live atom of `id`
/// then has `status`, and `None` leaves it without a status.
pub proof fn law_status_round_trip(
    s0: Seq<SectionAtomRow>,
    s1: Seq<SectionAtomRow>,
    id: AtomId,
    status: Option<TaskStatus>,
    c0: int,
    r: RepoResult<()>,
)
    requires
        ids_unique(s0),
        status_update_outcome(s0, s1, id, status, c0, r),
        r is Ok,
    ensures
        lookup(s1, id, false) matches Some(a) && a.task_status == status,
{
    let prev = live_atom_of(s0, id)->0;
    assert(s0[index_of(s0, id)].atom.uuid == id);
    lemma_replaced_lookup(s0, s1, id, Atom { task_status: status, ..prev }, next_stamp(c0));
}

/// A row on an ordered page of the rows that `sel` selects is a stored row
/// that `sel` selects.
proof fn lemma_page_row(
    rows: Seq<SectionAtomRow>,
    sel: Selection,
    r: Seq<SectionAtomRow>,
    order: RowOrder,
    offset: int,
    limit: int,
    k: int,
)
    requires
        is_ordered_page(r, rows.filter(selector(sel)), order, offset, limit),
        offset >= 0,
        limit >= 0,
        0 <= k < r.len(),
    ensures
        rows.contains(r[k]),
        selects(sel, r[k]),
{
    broadcast use vstd::seq_lib::group_to_multiset_ensures;

    let pool = rows.filter(selector(sel));
    let all = choose|all: Seq<SectionAtomRow>|
        #![trigger vstd::relations::sorted_by(all, crate::section::row_leq(order))]
        all.to_multiset() == pool.to_multiset() && vstd::relations::sorted_by(all, crate::section::row_leq(order)) && r == page(all, offset, limit);
    let x = r[k];
    let lo = if offset < all.len() {
        offset
    } else {
        all.len() as int
    };
    assert(x == all[lo + k]);
    assert(all.contains(x));
    assert(all.to_multiset().count(x) > 0);
    assert(pool.contains(x));
    rows.lemma_filter_contains_rev(selector(sel), x);
    pool.filter_lemma(selector(sel));
    let i = choose|i: int| 0 <= i < pool.len() && pool[i] == x;
    assert(selector(sel)(pool[i]));
}

/// Two stored rows with one identifier are the same row.
proof fn lemma_same_id_same_row(rows: Seq<SectionAtomRow>, x: SectionAtomRow, y: SectionAtomRow)
    requires
        ids_unique(rows),
        rows.contains(x),
        rows.contains(y),
        x.atom.uuid == y.atom.uuid,
    ensures
        x == y,
{
    let i = choose|i: int| 0 <= i < rows.len() && rows[i] == x;
    let j = choose|j: int| 0 <= j < rows.len() && rows[j] == y;
    if i < j {
        assert(rows[i].atom.uuid != rows[j].atom.uuid);
    } else if j < i {
        assert(rows[j].atom.uuid != rows[i].atom.uuid);
    }
}

/// Pages of Inbox, Today and Upcoming drawn from one store for one window
/// share no atom, and hold only live atoms without a terminal status.
pub proof fn law_section_pages_disjoint(
    rows: Seq<SectionAtomRow>,
    bod: i64,
    eod: i64,
    inbox: Seq<SectionAtomRow>,
    today: Seq<SectionAtomRow>,
    upcoming: Seq<SectionAtomRow>,
    offsets: (int, int, int),
    limits: (int, int, int),
)
    requires
        ids_unique(rows),
        offsets.0 >= 0 && offsets.1 >= 0 && offsets.2 >= 0,
        limits.0 >= 0 && limits.1 >= 0 && limits.2 >= 0,
        is_ordered_page(inbox, rows.filter(selector(Selection::Inbox)), RowOrder::Recency, offsets.0, limits.0),
        is_ordered_page(today, rows.filter(selector(Selection::Today { bod, eod })), RowOrder::Anchor, offsets.1, limits.1),
        is_ordered_page(upcoming, rows.filter(selector(Selection::Upcoming { eod })), RowOrder::Anchor, offsets.2, limits.2),
    ensures
        forall|a: int, b: int| 0 <= a < inbox.len() && 0 <= b < today.len() ==> (#[trigger] inbox[a]).atom.uuid != (#[trigger] today[b]).atom.uuid,
        forall|a: int, b: int| 0 <= a < inbox.len() && 0 <= b < upcoming.len() ==> (#[trigger] inbox[a]).atom.uuid != (#[trigger] upcoming[b]).atom.uuid,
        forall|a: int, b: int| 0 <= a < today.len() && 0 <= b < upcoming.len() ==> (#[trigger] today[a]).atom.uuid != (#[trigger] upcoming[b]).atom.uuid,
        forall|a: int| 0 <= a < inbox.len() ==> is_open((#[trigger] inbox[a]).atom),
        forall|a: int| 0 <= a < today.len() ==> is_open((#[trigger] today[a]).atom),
        forall|a: int| 0 <= a < upcoming.len() ==> is_open((#[trigger] upcoming[a]).atom),
{
    let si = Selection::Inbox;
    let st = Selection::Today { bod, eod };
    let su = Selection::Upcoming { eod };
    assert forall|a: int, b: int| 0 <= a < inbox.len() && 0 <= b < today.len() implies (#[trigger] inbox[a]).atom.uuid != (#[trigger] today[b]).atom.uuid by {
        lemma_page_row(rows, si, inbox, RowOrder::Recency, offsets.0, limits.0, a);
        lemma_page_row(rows, st, today, RowOrder::Anchor, offsets.1, limits.1, b);
        if inbox[a].atom.uuid == today[b].atom.uuid {
            lemma_same_id_same_row(rows, inbox[a], today[b]);
            law_sections_disjoint(inbox[a], bod, eod);
        }
    }
    assert forall|a: int, b: int| 0 <= a < inbox.len() && 0 <= b < upcoming.len() implies (#[trigger] inbox[a]).atom.uuid != (#[trigger] upcoming[b]).atom.uuid by {
        lemma_page_row(rows, si, inbox, RowOrder::Recency, offsets.0, limits.0, a);
        lemma_page_row(rows, su, upcoming, RowOrder::Anchor, offsets.2, limits.2, b);
        if inbox[a].atom.uuid == upcoming[b].atom.uuid {
            lemma_same_id_same_row(rows, inbox[a], upcoming[b]);
            law_sections_disjoint(inbox[a], bod, eod);
        }
    }
    assert forall|a: int, b: int| 0 <= a < today.len() && 0 <= b < upcoming.len() implies (#[trigger] today[a]).atom.uuid != (#[trigger] upcoming[b]).atom.uuid by {
        lemma_page_row(rows, st, today, RowOrder::Anchor, offsets.1, limits.1, a);
        lemma_page_row(rows, su, upcoming, RowOrder::Anchor, offsets.2, limits.2, b);
        if today[a].atom.uuid == upcoming[b].atom.uuid {
            lemma_same_id_same_row(rows, today[a], upcoming[b]);
            law_sections_disjoint(today[a], bod, eod);
        }
    }
    assert forall|a: int| 0 <= a < inbox.len() implies is_open((#[trigger] inbox[a]).atom) by {
        lemma_page_row(rows, si, inbox, RowOrder::Recency, offsets.0, limits.0, a);
    }
    assert forall|a: int| 0 <= a < today.len() implies is_open((#[trigger] today[a]).atom) by {
        lemma_page_row(rows, st, today, RowOrder::Anchor, offsets.1, limits.1, a);
    }
    assert forall|a: int| 0 <= a < upcoming.len() implies is_open((#[trigger] upcoming[a]).atom) by {
        lemma_page_row(rows, su, upcoming, RowOrder::Anchor, offsets.2, limits.2, a);
    }
}

/// A live, open atom with neither time bound is on the Inbox page that
/// starts at zero and is large enough to hold every row, and on no Today or
/// Upcoming page, whatever the window.
pub proof fn law_timeless_atom_in_inbox_only(
    rows: Seq<SectionAtomRow>,
    row: SectionAtomRow,
    bod: i64,
    eod: i64,
    inbox: Seq<SectionAtomRow>,
    today: Seq<SectionAtomRow>,
    upcoming: Seq<SectionAtomRow>,
    limit: int,
    offsets: (int, int),
    limits: (int, int),
)
    requires
        ids_unique(rows),
        rows.contains(row),
        is_open(row.atom),
        in_inbox(row.atom),
        limit >= rows.len(),
        offsets.0 >= 0 && offsets.1 >= 0,
        limits.0 >= 0 && limits.1 >= 0,
        is_ordered_page(inbox, rows.filter(selector(Selection::Inbox)), RowOrder::Recency, 0, limit),
        is_ordered_page(today, rows.filter(selector(Selection::Today { bod, eod })), RowOrder::Anchor, offsets.0, limits.0),
        is_ordered_page(upcoming, rows.filter(selector(Selection::Upcoming { eod })), RowOrder::Anchor, offsets.1, limits.1),
    ensures
        inbox.contains(row),
        forall|b: int| 0 <= b < today.len() ==> (#[trigger] today[b]).atom.uuid != row.atom.uuid,
        forall|b: int| 0 <= b < upcoming.len() ==> (#[trigger] upcoming[b]).atom.uuid != row.atom.uuid,
{
    broadcast use vstd::seq_lib::group_to_multiset_ensures;

    let pool = rows.filter(selector(Selection::Inbox));
    let i = choose|i: int| 0 <= i < rows.len() && rows[i] == row;
    rows.filter_lemma(selector(Selection::Inbox));
    assert(pool.contains(row));
    let all = choose|all: Seq<SectionAtomRow>|
        #![trigger vstd::relations::sorted_by(all, crate::section::row_leq(RowOrder::Recency))]
        all.to_multiset() == pool.to_multiset() && vstd::relations::sorted_by(all, crate::section::row_leq(RowOrder::Recency)) && inbox == page(all, 0, limit);
    assert(pool.to_multiset().count(row) > 0);
    assert(all.contains(row));
    assert(all.to_multiset().len() == pool.to_multiset().len());
    assert(all.len() == pool.len());
    rows.lemma_filter_len(selector(Selection::Inbox));
    assert(inbox =~= all);
    assert forall|b: int| 0 <= b < today.len() implies (#[trigger] today[b]).atom.uuid != row.atom.uuid by {
        lemma_page_row(rows, Selection::Today { bod, eod }, today, RowOrder::Anchor, offsets.0, limits.0, b);
        if today[b].atom.uuid == row.atom.uuid {
            lemma_same_id_same_row(rows, today[b], row);
        }
    }
    assert forall|b: int| 0 <= b < upcoming.len() implies (#[trigger] upcoming[b]).atom.uuid != row.atom.uuid by {
        lemma_page_row(rows, Selection::Upcoming { eod }, upcoming, RowOrder::Anchor, offsets.1, limits.1, b);
        if upcoming[b].atom.uuid == row.atom.uuid {
            lemma_same_id_same_row(rows, upcoming[b], row);
        }
    }
}

/// In-memory atom storage: rows in insertion order and a write clock.
pub struct AtomStore {
    rows: Vec<SectionAtomRow>,
    clock: i64,
}

impl AtomStore {
    /// The stored rows.
    pub closed spec fn rows(&self) -> Seq<SectionAtomRow> {
        self.rows@
    }

    /// The stamp of the latest write.
    pub closed spec fn clock(&self) -> int {
        self.clock as int
    }

    /// Identifiers are unique and every stored atom is valid.
    pub open spec fn wf(&self) -> bool {
        &&& ids_unique(self.rows())
        &&& forall|i: int| 0 <= i < self.rows().len() ==> is_valid(#[trigger] self.rows()[i].atom)
    }

    /// An empty store.
    pub fn new() -> (r: AtomStore)
        ensures
            r.wf(),
            r.rows().len() == 0,
            r.clock() == 0,
    {
        AtomStore { rows: Vec::new(), clock: 0 }
    }

    /// The stamp for the next write.
    fn tick(&mut self) -> (r: i64)
        ensures
            r == next_stamp(old(self).clock()),
            final(self).clock() == r,
            final(self).rows() == old(self).rows(),
    {
        if self.clock < i64::MAX {
            self.clock = self.clock + 1;
        }
        self.clock
    }

    /// The position of the row with identifier `id`.
    fn find(&self, id: AtomId) -> (r: Option<usize>)
        requires
            self.wf(),
        ensures
            r is None <==> !has_id(self.rows(), id),
            r matches Some(i) ==> i == index_of(self.rows(), id) && i < self.rows().len(),
    {
        let mut i: usize = 0;
        while i < self.rows.len()
            invariant
                self.wf(),
                i <= self.rows@.len(),
                forall|k: int| 0 <= k < i ==> (#[trigger] self.rows@[k]).atom.uuid != id,
            decreases self.rows@.len() - i,
        {
            if self.rows[i].atom.uuid == id {
                proof {
                    assert(self.rows()[i as int].atom.uuid == id);
                    assert(has_id(self.rows(), id));
                    let j = index_of(self.rows(), id);
                    assert(self.rows()[j].atom.uuid == id);
                    if j < i {
                        assert(self.rows()[j].atom.uuid != self.rows()[i as int].atom.uuid);
                    } else if i < j {
                        assert(self.rows()[i as int].atom.uuid != self.rows()[j].atom.uuid);
                    }
                }
                return Some(i);
            }
            i = i + 1;
        }
        None
    }

    /// The number of stored rows.
    pub fn len(&self) -> (r: usize)
        ensures
            r == self.rows().len(),
    {
        self.rows.len()
    }

    /// The stored row at position `i`.
    pub fn row_at(&self, i: usize) -> (r: &SectionAtomRow)
        requires
            i < self.rows().len(),
        ensures
            *r == self.rows()[i as int],
    {
        &self.rows[i]
    }

    /// Takes in a row read from storage with its own write stamp; the write
    /// clock moves up to that stamp.
    pub fn load_row(&mut self, row: SectionAtomRow) -> (r: RepoResult<()>)
        requires
            old(self).wf(),
        ensures
            final(self).wf(),
            match validation_of(row.atom) {
                Err(e) => r == Err::<(), RepoError>(RepoError::Validation(e)) && final(self).rows()
                    == old(self).rows() && final(self).clock() == old(self).clock(),
                Ok(_) => if has_id(old(self).rows(), row.atom.uuid) {
                    r == Err::<(), RepoError>(RepoError::DuplicateId(row.atom.uuid)) && final(self).rows()
                        == old(self).rows() && final(self).clock() == old(self).clock()
                } else {
                    r == Ok::<(), RepoError>(()) && final(self).rows() == old(self).rows().push(row)
                        && final(self).clock() == (if row.updated_at > old(self).clock() {
                        row.updated_at as int
                    } else {
                        old(self).clock()
                    })
                },
            },
    {
        match row.atom.validate() {
            Err(e) => {
                return Err(RepoError::Validation(e));
            },
            Ok(()) => {},
        }
        if self.find(row.atom.uuid).is_some() {
            return Err(RepoError::DuplicateId(row.atom.uuid));
        }
        if row.updated_at > self.clock {
            self.clock = row.updated_at;
        }
        let ghost before = self.rows@;
        self.rows.push(row);
        proof {
            assert forall|i: int, j: int| 0 <= i < j < self.rows().len() implies (
            #[trigger] self.rows()[i]).atom.uuid != (#[trigger] self.rows()[j]).atom.uuid by {
                assert(before[i] == self.rows()[i]);
                if j < before.len() {
                    assert(before[j] == self.rows()[j]);
                }
            }
            assert forall|i: int| 0 <= i < self.rows().len() implies is_valid(#[trigger] self.rows()[i].atom) by {
                if i < before.len() {
                    assert(before[i] == self.rows()[i]);
                }
            }
        }
        Ok(())
    }

    /// Stores a validated atom and returns its identifier.
    pub fn create_atom(&mut self, atom: &Atom) -> (r: RepoResult<AtomId>)
        requires
            old(self).wf(),
        ensures
            final(self).wf(),
            match validation_of(*atom) {
                Err(e) => r == Err::<AtomId, RepoError>(RepoError::Validation(e)) && final(self).rows() == old(self).rows(),
                Ok(_) => if has_id(old(self).rows(), atom.uuid) {
                    r == Err::<AtomId, RepoError>(RepoError::DuplicateId(atom.uuid)) && final(self).rows() == old(self).rows()
                } else {
                    r == Ok::<AtomId, RepoError>(atom.uuid) && final(self).rows() == old(self).rows().push(
                        SectionAtomRow { atom: *atom, updated_at: next_stamp(old(self).clock()) as i64 },
                    )
                },
            },
    {
        match atom.validate() {
            Err(e) => {
                return Err(RepoError::Validation(e));
            },
            Ok(()) => {},
        }
        if self.find(atom.uuid).is_some() {
            return Err(RepoError::DuplicateId(atom.uuid));
        }
        let stamp = self.tick();
        self.rows.push(SectionAtomRow { atom: atom.duplicate(), updated_at: stamp });
        proof {
            assert forall|i: int, j: int| 0 <= i < j < self.rows().len() implies (
            #[trigger] self.rows()[i]).atom.uuid != (#[trigger] self.rows()[j]).atom.uuid by {
                if j == self.rows().len() - 1 {
                    assert(old(self).rows()[i].atom.uuid == self.rows()[i].atom.uuid);
                }
            }
        }
        Ok(atom.uuid)
    }

    /// Replaces every field of the stored atom with `atom`'s; a deleted atom
    /// stays deleted.
    pub fn update_atom(&mut self, atom: &Atom) -> (r: RepoResult<()>)
        requires
            old(self).wf(),
        ensures
            final(self).wf(),
            match validation_of(*atom) {
                Err(e) => r == Err::<(), RepoError>(RepoError::Validation(e)) && final(self).rows()
                    == old(self).rows(),
                Ok(_) => match atom_of(old(self).rows(), atom.uuid) {
                    None => r == Err::<(), RepoError>(RepoError::NotFound(atom.uuid)) && final(self).rows() == old(self).rows(),
                    Some(prev) => r == Ok::<(), RepoError>(()) && replaced(
                        old(self).rows(),
                        final(self).rows(),
                        atom.uuid,
                        Atom { is_deleted: prev.is_deleted || atom.is_deleted, ..*atom },
                        next_stamp(old(self).clock()),
                    ),
                },
            },
    {
        match atom.validate() {
            Err(e) => {
                return Err(RepoError::Validation(e));
            },
            Ok(()) => {},
        }
        match self.find(atom.uuid) {
            None => Err(RepoError::NotFound(atom.uuid)),
            Some(i) => {
                let was_deleted = self.rows[i].atom.is_deleted;
                let mut next = atom.duplicate();
                next.is_deleted = was_deleted || atom.is_deleted;
                let stamp = self.tick();
                self.rows.set(i, SectionAtomRow { atom: next, updated_at: stamp });
                proof {
                    assert(self.rows()[i as int].atom.uuid == atom.uuid);
                    assert(forall|k: int| 0 <= k < self.rows().len() && k != i ==> #[trigger] self.rows()[k] == old(self).rows()[k]);
                    assert(is_valid(self.rows()[i as int].atom));
                }
                Ok(())
            },
        }
    }

    /// The atom with identifier `id`; `None` when there is none, or when it
    /// is deleted and `include_deleted` is false.
    pub fn get_atom(&self, id: AtomId, include_deleted: bool) -> (r: RepoResult<Option<Atom>>)
        requires
            self.wf(),
        ensures
            r == Ok::<Option<Atom>, RepoError>(lookup(self.rows(), id, include_deleted)),
    {
        match self.find(id) {
            None => Ok(None),
            Some(i) => {
                if self.rows[i].atom.is_deleted && !include_deleted {
                    Ok(None)
                } else {
                    Ok(Some(self.rows[i].atom.duplicate()))
                }
            },
        }
    }

    /// Marks the atom deleted. Deleting a deleted atom changes nothing and
    /// succeeds; an unknown identifier is `NotFound`.
    pub fn soft_delete_atom(&mut self, id: AtomId) -> (r: RepoResult<()>)
        requires
            old(self).wf(),
        ensures
            final(self).wf(),
            soft_delete_outcome(old(self).rows(), final(self).rows(), id, old(self).clock(), r),
    {
        match self.find(id) {
            None => Err(RepoError::NotFound(id)),
            Some(i) => {
                if self.rows[i].atom.is_deleted {
                    return Ok(());
                }
                let mut next = self.rows[i].atom.duplicate();
                next.is_deleted = true;
                let stamp = self.tick();
                self.rows.set(i, SectionAtomRow { atom: next, updated_at: stamp });
                proof {
                    assert(forall|k: int| 0 <= k < self.rows().len() && k != i ==> #[trigger] self.rows()[k] == old(self).rows()[k]);
                    assert(is_valid(old(self).rows()[i as int].atom));
                }
                Ok(())
            },
        }
    }

    /// Sets or clears the task status of a live atom of any kind.
    pub fn update_atom_status(&mut self, id: AtomId, status: Option<TaskStatus>) -> (r: RepoResult<()>)
        requires
            old(self).wf(),
        ensures
            final(self).wf(),
            status_update_outcome(old(self).rows(), final(self).rows(), id, status, old(self).clock(), r),
    {
        match self.find(id) {
            None => Err(RepoError::NotFound(id)),
            Some(i) => {
                if self.rows[i].atom.is_deleted {
                    return Err(RepoError::NotFound(id));
                }
                let mut next = self.rows[i].atom.duplicate();
                next.task_status = status;
                let stamp = self.tick();
                self.rows.set(i, SectionAtomRow { atom: next, updated_at: stamp });
                proof {
                    assert(forall|k: int| 0 <= k < self.rows().len() && k != i ==> #[trigger] self.rows()[k] == old(self).rows()[k]);
                    assert(is_valid(old(self).rows()[i as int].atom));
                }
                Ok(())
            },
        }
    }

    /// Sets both time bounds of a live atom, after checking `end_at >= start_at`.
    pub fn update_event_times(&mut self, id: AtomId, start_at: i64, end_at: i64) -> (r: RepoResult<()>)
        requires
            old(self).wf(),
        ensures
            final(self).wf(),
            end_at < start_at ==> r == Err::<(), RepoError>(
                RepoError::Validation(
                    AtomValidationError::InvalidEventWindow { start: start_at, end: end_at },
                ),
            ) && final(self).rows() == old(self).rows(),
            start_at <= end_at ==> match live_atom_of(old(self).rows(), id) {
                None => r == Err::<(), RepoError>(RepoError::NotFound(id)) && final(self).rows()
                    == old(self).rows(),
                Some(prev) => r == Ok::<(), RepoError>(()) && replaced(
                    old(self).rows(),
                    final(self).rows(),
                    id,
                    Atom { start_at: Some(start_at), end_at: Some(end_at), ..prev },
                    next_stamp(old(self).clock()),
                ),
            },
    {
        if end_at < start_at {
            return Err(
                RepoError::Validation(
                    AtomValidationError::InvalidEventWindow { start: start_at, end: end_at },
                ),
            );
        }
        match self.find(id) {
            None => Err(RepoError::NotFound(id)),
            Some(i) => {
                if self.rows[i].atom.is_deleted {
                    return Err(RepoError::NotFound(id));
                }
                let mut next = self.rows[i].atom.duplicate();
                next.start_at = Some(start_at);
                next.end_at = Some(end_at);
                let stamp = self.tick();
                self.rows.set(i, SectionAtomRow { atom: next, updated_at: stamp });
                proof {
                    assert(forall|k: int| 0 <= k < self.rows().len() && k != i ==> #[trigger] self.rows()[k] == old(self).rows()[k]);
                    assert(is_valid(old(self).rows()[i as int].atom));
                }
                Ok(())
            },
        }
    }

    /// The stored rows that `sel` takes, in storage order.
    fn select_rows(&self, sel: Selection) -> (r: Vec<SectionAtomRow>)
        ensures
            r@ == self.rows().filter(selector(sel)),
    {
        let mut out: Vec<SectionAtomRow> = Vec::new();
        let mut i: usize = 0;
        while i < self.rows.len()
            invariant
                i <= self.rows@.len(),
                out@ == self.rows@.subrange(0, i as int).filter(selector(sel)),
            decreases self.rows@.len() - i,
        {
            proof {
                reveal(Seq::filter);
                let s = self.rows@.subrange(0, i + 1);
                assert(s.drop_last() =~= self.rows@.subrange(0, i as int));
                assert(s.last() == self.rows@[i as int]);
            }
            if row_selected(sel, &self.rows[i]) {
                out.push(self.rows[i].duplicate());
            }
            i = i + 1;
        }
        proof {
            assert(self.rows@.subrange(0, self.rows@.len() as int) =~= self.rows@);
        }
        out
    }

    /// The rows that `sel` takes, ordered as `sel` lists them, skipping
    /// `offset` and taking at most `limit`.
    pub fn select_page(&self, sel: Selection, offset: usize, limit: usize) -> (r: Vec<SectionAtomRow>)
        ensures
            is_ordered_page(
                r@,
                self.rows().filter(selector(sel)),
                order_of(sel),
                offset as int,
                limit as int,
            ),
    {
        let order = match sel {
            Selection::Inbox => RowOrder::Recency,
            Selection::Listing { .. } => RowOrder::Recency,
            Selection::Today { .. } => RowOrder::Anchor,
            Selection::Upcoming { .. } => RowOrder::Anchor,
            Selection::TimeRange { .. } => RowOrder::Span,
        };
        let selected = self.select_rows(sel);
        let sorted = sort_rows(selected, order);
        let r = take_page(&sorted, offset, limit);
        proof {
            assert(vstd::relations::sorted_by(sorted@, crate::section::row_leq(order)));
        }
        r
    }

    /// Live atoms with no status or an open one, and neither time bound;
    /// most recent first.
    pub fn fetch_inbox(&self, limit: u32, offset: u32) -> (r: RepoResult<Vec<SectionAtomRow>>)
        ensures
            r matches Ok(v) && is_ordered_page(
                v@,
                self.rows().filter(selector(Selection::Inbox)),
                RowOrder::Recency,
                offset as int,
                limit as int,
            ),
    {
        Ok(self.select_page(Selection::Inbox, offset as usize, limit as usize))
    }

    /// Open atoms due or active within the day window `[bod_ms, eod_ms]`;
    /// ordered by `coalesce(start_at, end_at)`, then most recent first.
    pub fn fetch_today(&self, bod_ms: i64, eod_ms: i64, limit: u32, offset: u32) -> (r: RepoResult<
        Vec<SectionAtomRow>,
    >)
        ensures
            r matches Ok(v) && is_ordered_page(
                v@,
                self.rows().filter(selector(Selection::Today { bod: bod_ms, eod: eod_ms })),
                RowOrder::Anchor,
                offset as int,
                limit as int,
            ),
    {
        Ok(self.select_page(Selection::Today { bod: bod_ms, eod: eod_ms }, offset as usize, limit as usize))
    }

    /// Open atoms anchored entirely after `eod_ms`; ordered by
    /// `coalesce(start_at, end_at)`, then most recent first.
    pub fn fetch_upcoming(&self, eod_ms: i64, limit: u32, offset: u32) -> (r: RepoResult<
        Vec<SectionAtomRow>,
    >)
        ensures
            r matches Ok(v) && is_ordered_page(
                v@,
                self.rows().filter(selector(Selection::Upcoming { eod: eod_ms })),
                RowOrder::Anchor,
                offset as int,
                limit as int,
            ),
    {
        Ok(self.select_page(Selection::Upcoming { eod: eod_ms }, offset as usize, limit as usize))
    }

    /// Live atoms of any status with both bounds set whose interval overlaps
    /// `[range_start_ms, range_end_ms)`; ordered by `(start_at, end_at)`.
    pub fn fetch_by_time_range(
        &self,
        range_start_ms: i64,
        range_end_ms: i64,
        limit: u32,
        offset: u32,
    ) -> (r: RepoResult<Vec<SectionAtomRow>>)
        ensures
            r matches Ok(v) && is_ordered_page(
                v@,
                self.rows().filter(
                    selector(Selection::TimeRange { range_start: range_start_ms, range_end: range_end_ms }),
                ),
                RowOrder::Span,
                offset as int,
                limit as int,
            ),
    {
        Ok(
            self.select_page(
                Selection::TimeRange { range_start: range_start_ms, range_end: range_end_ms },
                offset as usize,
                limit as usize,
            ),
        )
    }

    /// Atoms by kind and deletion filter, most recent first, then by
    /// identifier; without a limit every atom after `offset`.
    pub fn list_atoms(&self, query: &AtomListQuery) -> (r: RepoResult<Vec<Atom>>)
        ensures
            r matches Ok(v) && exists|rows: Seq<SectionAtomRow>|
                #![trigger is_ordered_page(rows, self.rows().filter(selector(Selection::Listing { kind: query.kind, include_deleted: query.include_deleted })), RowOrder::Recency, query.offset as int, listing_limit(query.limit, self.rows().len()))]
                is_ordered_page(
                    rows,
                    self.rows().filter(
                        selector(Selection::Listing { kind: query.kind, include_deleted: query.include_deleted }),
                    ),
                    RowOrder::Recency,
                    query.offset as int,
                    listing_limit(query.limit, self.rows().len()),
                ) && v@ == rows.map_values(|row: SectionAtomRow| row.atom),
    {
        let limit: usize = match query.limit {
            Some(l) => l as usize,
            None => self.rows.len(),
        };
        let sel = Selection::Listing { kind: query.kind, include_deleted: query.include_deleted };
        let rows = self.select_page(sel, query.offset as usize, limit);
        let mut atoms: Vec<Atom> = Vec::new();
        let mut i: usize = 0;
        while i < rows.len()
            invariant
                i <= rows@.len(),
                atoms@ == rows@.subrange(0, i as int).map_values(|row: SectionAtomRow| row.atom),
            decreases rows@.len() - i,
        {
            atoms.push(rows[i].atom.duplicate());
            proof {
                assert(rows@.subrange(0, i + 1).map_values(|row: SectionAtomRow| row.atom) =~= rows@.subrange(0, i as int).map_values(|row: SectionAtomRow| row.atom).push(rows@[i as int].atom));
            }
            i = i + 1;
        }
        proof {
            assert(rows@.subrange(0, rows@.len() as int) =~= rows@);
            assert(limit as int == listing_limit(query.limit, self.rows().len()));
            assert(is_ordered_page(
                rows@,
                self.rows().filter(selector(sel)),
                RowOrder::Recency,
                query.offset as int,
                listing_limit(query.limit, self.rows().len()),
            ));
        }
        Ok(atoms)
    }
}

} // verus!
