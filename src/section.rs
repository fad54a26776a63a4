//! Time-matrix classification of atoms, the orders in which sections are
//! listed, and pagination.

use vstd::prelude::*;
use vstd::relations::*;
use crate::sorting::insertion_sort;
use crate::atom::{Atom, AtomId, AtomType, TaskStatus};

verus! {

/// A stored atom together with the stamp of its last write.
#[derive(Clone, Debug, PartialEq, Eq)]
pub struct SectionAtomRow {
    /// The atom.
    pub atom: Atom,
    /// Stamp of the last write, larger when more recent: the stored epoch
    /// milliseconds for a row read from storage, the next stamp of the
    /// store's write clock for a row written since.
    pub updated_at: i64,
}

impl SectionAtomRow {
    /// An exact copy of the row.
    pub fn duplicate(&self) -> (r: SectionAtomRow)
        ensures
            r == *self,
    {
        SectionAtomRow { atom: self.atom.duplicate(), updated_at: self.updated_at }
    }
}

/// A status that ends an atom's life in the sections: done or cancelled.
pub open spec fn is_terminal(s: Option<TaskStatus>) -> bool {
    s == Some(TaskStatus::Done) || s == Some(TaskStatus::Cancelled)
}

/// Not deleted and not in a terminal status.
pub open spec fn is_open(a: Atom) -> bool {
    !a.is_deleted && !is_terminal(a.task_status)
}

/// Inbox: no temporal anchor at all.
pub open spec fn in_inbox(a: Atom) -> bool {
    a.start_at is None && a.end_at is None
}

/// Today, for the inclusive day window `[bod, eod]`.
pub open spec fn in_today(a: Atom, bod: i64, eod: i64) -> bool {
    match (a.start_at, a.end_at) {
        (None, Some(e)) => e <= eod,
        (Some(s), None) => s <= eod,
        (Some(s), Some(e)) => s <= eod && e >= bod,
        (None, None) => false,
    }
}

/// Upcoming: anchored entirely after `eod`.
pub open spec fn in_upcoming(a: Atom, eod: i64) -> bool {
    match (a.start_at, a.end_at) {
        (None, Some(e)) => e > eod,
        (Some(s), None) => s > eod,
        (Some(s), Some(_)) => s > eod,
        (None, None) => false,
    }
}

/// Both bounds set and `[start_at, end_at]` strictly overlaps the half-open
/// range `[range_start, range_end)`.
pub open spec fn in_time_range(a: Atom, range_start: i64, range_end: i64) -> bool {
    match (a.start_at, a.end_at) {
        (Some(s), Some(e)) => s < range_end && e > range_start,
        _ => false,
    }
}

/// A selection of stored rows.
#[derive(Clone, Copy, Debug)]
pub enum Selection {
    Inbox,
    Today { bod: i64, eod: i64 },
    Upcoming { eod: i64 },
    TimeRange { range_start: i64, range_end: i64 },
    Listing { kind: Option<AtomType>, include_deleted: bool },
}

/// The rows that a selection takes.
pub open spec fn selects(sel: Selection, row: SectionAtomRow) -> bool {
    let a = row.atom;
    match sel {
        Selection::Inbox => is_open(a) && in_inbox(a),
        Selection::Today { bod, eod } => is_open(a) && in_today(a, bod, eod),
        Selection::Upcoming { eod } => is_open(a) && in_upcoming(a, eod),
        Selection::TimeRange { range_start, range_end } => !a.is_deleted && in_time_range(
            a,
            range_start,
            range_end,
        ),
        Selection::Listing { kind, include_deleted } => (include_deleted || !a.is_deleted) && (
        match kind {
            Some(k) => a.kind == k,
            None => true,
        }),
    }
}

/// The selection as a predicate on rows.
pub open spec fn selector(sel: Selection) -> spec_fn(SectionAtomRow) -> bool {
    |row: SectionAtomRow| selects(sel, row)
}

/// How a selection's rows are ordered.
#[derive(Clone, Copy, Debug, PartialEq, Eq, Structural)]
pub enum RowOrder {
    /// Most recent write first, then by identifier ascending.
    Recency,
    /// By `coalesce(start_at, end_at)` ascending, then most recent first.
    Anchor,
    /// By `start_at` ascending, then `end_at` ascending.
    Span,
}

/// The order that a selection is listed in.
pub open spec fn order_of(sel: Selection) -> RowOrder {
    match sel {
        Selection::Inbox => RowOrder::Recency,
        Selection::Listing { .. } => RowOrder::Recency,
        Selection::Today { .. } => RowOrder::Anchor,
        Selection::Upcoming { .. } => RowOrder::Anchor,
        Selection::TimeRange { .. } => RowOrder::Span,
    }
}

/// `coalesce(start_at, end_at)`, with an atom that has neither at zero.
pub open spec fn anchor_of(a: Atom) -> int {
    match a.start_at {
        Some(s) => s as int,
        None => match a.end_at {
            Some(e) => e as int,
            None => 0,
        },
    }
}

/// `x` may come before `y` in `order`.
pub open spec fn row_le(order: RowOrder, x: SectionAtomRow, y: SectionAtomRow) -> bool {
    match order {
        RowOrder::Recency => x.updated_at > y.updated_at || (x.updated_at == y.updated_at
            && x.atom.uuid <= y.atom.uuid),
        RowOrder::Anchor => anchor_of(x.atom) < anchor_of(y.atom) || (anchor_of(x.atom)
            == anchor_of(y.atom) && x.updated_at >= y.updated_at),
        RowOrder::Span => x.atom.start_at.unwrap_or(0) < y.atom.start_at.unwrap_or(0) || (
        x.atom.start_at.unwrap_or(0) == y.atom.start_at.unwrap_or(0) && x.atom.end_at.unwrap_or(
            0,
        ) <= y.atom.end_at.unwrap_or(0)),
    }
}

/// `row_le` as a relation.
pub open spec fn row_leq(order: RowOrder) -> spec_fn(SectionAtomRow, SectionAtomRow) -> bool {
    |x: SectionAtomRow, y: SectionAtomRow| row_le(order, x, y)
}

/// The part of `s` that skips `offset` items and takes at most `limit`.
pub open spec fn page<T>(s: Seq<T>, offset: int, limit: int) -> Seq<T> {
    let lo = if offset < s.len() {
        offset
    } else {
        s.len() as int
    };
    let hi = if lo + limit < s.len() {
        lo + limit
    } else {
        s.len() as int
    };
    s.subrange(lo, hi)
}

/// `r` is the page at `offset` of at most `limit` rows of `pool` listed in
/// `order`.
pub open spec fn is_ordered_page(
    r: Seq<SectionAtomRow>,
    pool: Seq<SectionAtomRow>,
    order: RowOrder,
    offset: int,
    limit: int,
) -> bool {
    exists|all: Seq<SectionAtomRow>|
        #![trigger sorted_by(all, row_leq(order))]
        all.to_multiset() == pool.to_multiset() && sorted_by(all, row_leq(order)) && r == page(
            all,
            offset,
            limit,
        )
}

/// Decides `selects`.
pub fn row_selected(sel: Selection, row: &SectionAtomRow) -> (r: bool)
    ensures
        r == selects(sel, *row),
{
    let a = &row.atom;
    let open = !a.is_deleted && !matches!(a.task_status, Some(TaskStatus::Done) | Some(TaskStatus::Cancelled));
    match sel {
        Selection::Inbox => open && a.start_at.is_none() && a.end_at.is_none(),
        Selection::Today { bod, eod } => open && match (a.start_at, a.end_at) {
            (None, Some(e)) => e <= eod,
            (Some(s), None) => s <= eod,
            (Some(s), Some(e)) => s <= eod && e >= bod,
            (None, None) => false,
        },
        Selection::Upcoming { eod } => open && match (a.start_at, a.end_at) {
            (None, Some(e)) => e > eod,
            (Some(s), None) => s > eod,
            (Some(s), Some(_)) => s > eod,
            (None, None) => false,
        },
        Selection::TimeRange { range_start, range_end } => !a.is_deleted && match (
            a.start_at,
            a.end_at,
        ) {
            (Some(s), Some(e)) => s < range_end && e > range_start,
            _ => false,
        },
        Selection::Listing { kind, include_deleted } => (include_deleted || !a.is_deleted)
            && match kind {
            Some(k) => a.kind == k,
            None => true,
        },
    }
}

/// Decides `row_le`.
pub fn row_before(order: RowOrder, x: &SectionAtomRow, y: &SectionAtomRow) -> (r: bool)
    ensures
        r == row_le(order, *x, *y),
{
    match order {
        RowOrder::Recency => x.updated_at > y.updated_at || (x.updated_at == y.updated_at
            && x.atom.uuid <= y.atom.uuid),
        RowOrder::Anchor => {
            let ax: i64 = match x.atom.start_at {
                Some(s) => s,
                None => match x.atom.end_at {
                    Some(e) => e,
                    None => 0,
                },
            };
            let ay: i64 = match y.atom.start_at {
                Some(s) => s,
                None => match y.atom.end_at {
                    Some(e) => e,
                    None => 0,
                },
            };
            ax < ay || (ax == ay && x.updated_at >= y.updated_at)
        },
        RowOrder::Span => {
            let sx: i64 = match x.atom.start_at {
                Some(s) => s,
                None => 0,
            };
            let sy: i64 = match y.atom.start_at {
                Some(s) => s,
                None => 0,
            };
            let ex: i64 = match x.atom.end_at {
                Some(e) => e,
                None => 0,
            };
            let ey: i64 = match y.atom.end_at {
                Some(e) => e,
                None => 0,
            };
            sx < sy || (sx == sy && ex <= ey)
        },
    }
}

/// `row_le` is a total preorder for every order.
pub proof fn lemma_row_le_total_preorder(order: RowOrder)
    ensures
        forall|x: SectionAtomRow, y: SectionAtomRow|
            #[trigger] row_le(order, x, y) || #[trigger] row_le(order, y, x),
        forall|x: SectionAtomRow, y: SectionAtomRow, z: SectionAtomRow|
            #[trigger] row_le(order, x, y) && #[trigger] row_le(order, y, z) ==> row_le(
                order,
                x,
                z,
            ),
{
}

/// Sorts `v` by `order`.
pub fn sort_rows(v: Vec<SectionAtomRow>, order: RowOrder) -> (r: Vec<SectionAtomRow>)
    ensures
        r@.to_multiset() == v@.to_multiset(),
        sorted_by(r@, row_leq(order)),
{
    proof {
        lemma_row_le_total_preorder(order);
    }
    let before = |x: &SectionAtomRow, y: &SectionAtomRow| -> (r: bool)
        ensures
            r == row_le(order, *x, *y),
        { row_before(order, x, y) };
    insertion_sort(v, before, Ghost(row_leq(order)))
}

/// The page at `offset` of at most `limit` items of `v`.
pub fn take_page(v: &Vec<SectionAtomRow>, offset: usize, limit: usize) -> (r: Vec<SectionAtomRow>)
    ensures
        r@ == page(v@, offset as int, limit as int),
{
    let lo: usize = if offset < v.len() {
        offset
    } else {
        v.len()
    };
    let hi: usize = if limit < v.len() - lo {
        lo + limit
    } else {
        v.len()
    };
    let mut r: Vec<SectionAtomRow> = Vec::new();
    let mut i: usize = lo;
    while i < hi
        invariant
            lo <= i <= hi <= v.len(),
            r@ == v@.subrange(lo as int, i as int),
        decreases hi - i,
    {
        r.push(v[i].duplicate());
        proof {
            assert(v@.subrange(lo as int, i + 1) =~= v@.subrange(lo as int, i as int).push(v@[i as int]));
        }
        i = i + 1;
    }
    r
}

/// Inbox, Today and Upcoming never share a row, and every open row belongs
/// to one of them unless both its bounds are set and it ended before `bod`.
pub proof fn law_sections_partition(row: SectionAtomRow, bod: i64, eod: i64)
    requires
        is_open(row.atom),
        !(row.atom.start_at is Some && row.atom.end_at is Some && row.atom.end_at->0 < bod),
    ensures
        (if selects(Selection::Inbox, row) {
            1int
        } else {
            0
        }) + (if selects(Selection::Today { bod, eod }, row) {
            1int
        } else {
            0
        }) + (if selects(Selection::Upcoming { eod }, row) {
            1int
        } else {
            0
        }) == 1,
{
}

/// No row is in two of Inbox, Today and Upcoming, whatever the window.
pub proof fn law_sections_disjoint(row: SectionAtomRow, bod: i64, eod: i64)
    ensures
        !(selects(Selection::Inbox, row) && selects(Selection::Today { bod, eod }, row)),
        !(selects(Selection::Inbox, row) && selects(Selection::Upcoming { eod }, row)),
        !(selects(Selection::Today { bod, eod }, row) && selects(Selection::Upcoming { eod }, row)),
{
}

} // verus!
