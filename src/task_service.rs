//! Section queries with tag enrichment, and the status and time mutators,
//! over an atom store.

use vstd::prelude::*;
use vstd::string::*;
use crate::atom::{Atom, AtomId, AtomValidationError, TaskStatus};
use crate::repo::{status_update_outcome, AtomStore, RepoError, RepoResult};
use crate::section::{is_ordered_page, selector, RowOrder, SectionAtomRow, Selection};

verus! {

/// A section row enriched with the atom's tags.
#[derive(Clone, Debug, PartialEq, Eq)]
pub struct SectionAtom {
    /// The atom.
    pub atom: Atom,
    /// The atom's tags; empty when it has none.
    pub tags: Vec<String>,
    /// Stamp of the atom's last write.
    pub updated_at: i64,
}

/// Errors of the task service.
#[derive(Clone, Debug, PartialEq, Eq)]
pub enum TaskServiceError {
    /// The atom does not exist or is deleted.
    AtomNotFound(AtomId),
    /// Any other store error.
    Repo(RepoError),
}

impl TaskServiceError {
    /// A readable description.
    pub fn message(&self) -> (r: String)
        ensures
            *self matches TaskServiceError::AtomNotFound(id) ==> r@ == "atom not found: "@
                + crate::ids::uuid_text_of(id),
    {
        match self {
            TaskServiceError::AtomNotFound(id) => {
                let mut m = String::from_str("atom not found: ");
                m.append(crate::ids::uuid_text(*id).as_str());
                m
            },
            TaskServiceError::Repo(e) => e.message(),
        }
    }
}

/// The service error for a store error: `NotFound` becomes `AtomNotFound`.
pub open spec fn service_error(err: RepoError) -> TaskServiceError {
    match err {
        RepoError::NotFound(id) => TaskServiceError::AtomNotFound(id),
        other => TaskServiceError::Repo(other),
    }
}

impl From<RepoError> for TaskServiceError {
    fn from(err: RepoError) -> (r: TaskServiceError)
        ensures
            r == service_error(err),
    {
        match err {
            RepoError::NotFound(id) => TaskServiceError::AtomNotFound(id),
            other => TaskServiceError::Repo(other),
        }
    }
}

impl vstd::std_specs::convert::FromSpecImpl<RepoError> for TaskServiceError {
    open spec fn obeys_from_spec() -> bool {
        true
    }

    open spec fn from_spec(err: RepoError) -> TaskServiceError {
        service_error(err)
    }
}

/// The service result for a store result.
pub open spec fn service_result(r: RepoResult<()>) -> Result<(), TaskServiceError> {
    match r {
        Ok(()) => Ok(()),
        Err(e) => Err(service_error(e)),
    }
}

/// The tags of one atom.
#[derive(Clone, Debug, PartialEq, Eq)]
pub struct TagEntry {
    pub atom_id: AtomId,
    pub tags: Vec<String>,
}

/// Tags by atom, one entry per atom.
pub struct TagIndex {
    entries: Vec<TagEntry>,
}

/// The tags that `entries` hold for `id`; empty when none.
pub open spec fn tags_of(entries: Seq<TagEntry>, id: AtomId) -> Seq<String> {
    if exists|i: int| 0 <= i < entries.len() && (#[trigger] entries[i]).atom_id == id {
        entries[choose|i: int| 0 <= i < entries.len() && (#[trigger] entries[i]).atom_id == id].tags@
    } else {
        Seq::empty()
    }
}

/// `v` is `rows`, each with the tags that `entries` hold for its atom.
pub open spec fn enriched(v: Seq<SectionAtom>, rows: Seq<SectionAtomRow>, entries: Seq<TagEntry>) -> bool {
    &&& v.len() == rows.len()
    &&& forall|i: int|
        0 <= i < v.len() ==> (#[trigger] v[i]).atom == rows[i].atom && v[i].updated_at
            == rows[i].updated_at && v[i].tags@ == tags_of(entries, rows[i].atom.uuid)
}

/// A copy of a list of strings.
fn copy_strings(v: &Vec<String>) -> (r: Vec<String>)
    ensures
        r@ == v@,
{
    let mut out: Vec<String> = Vec::new();
    let mut i: usize = 0;
    while i < v.len()
        invariant
            i <= v@.len(),
            out@ == v@.subrange(0, i as int),
        decreases v@.len() - i,
    {
        out.push(v[i].clone());
        proof {
            assert(v@.subrange(0, i + 1) =~= v@.subrange(0, i as int).push(v@[i as int]));
        }
        i = i + 1;
    }
    proof {
        assert(v@.subrange(0, v@.len() as int) =~= v@);
    }
    out
}

impl TagIndex {
    /// The entries.
    pub closed spec fn entries(&self) -> Seq<TagEntry> {
        self.entries@
    }

    /// At most one entry per atom.
    pub open spec fn wf(&self) -> bool {
        forall|i: int, j: int|
            0 <= i < j < self.entries().len() ==> (#[trigger] self.entries()[i]).atom_id != (
            #[trigger] self.entries()[j]).atom_id
    }

    /// An index with no tags.
    pub fn new() -> (r: TagIndex)
        ensures
            r.wf(),
            r.entries().len() == 0,
    {
        TagIndex { entries: Vec::new() }
    }

    /// The position of the entry for `id`.
    fn find(&self, id: AtomId) -> (r: Option<usize>)
        requires
            self.wf(),
        ensures
            r is None ==> forall|i: int| 0 <= i < self.entries().len() ==> (#[trigger] self.entries()[i]).atom_id != id,
            r matches Some(k) ==> k < self.entries().len() && self.entries()[k as int].atom_id == id,
    {
        let mut i: usize = 0;
        while i < self.entries.len()
            invariant
                i <= self.entries@.len(),
                forall|k: int| 0 <= k < i ==> (#[trigger] self.entries@[k]).atom_id != id,
            decreases self.entries@.len() - i,
        {
            if self.entries[i].atom_id == id {
                return Some(i);
            }
            i = i + 1;
        }
        None
    }

    /// Gives atom `id` exactly the tags `tags`.
    pub fn set_tags(&mut self, id: AtomId, tags: Vec<String>)
        requires
            old(self).wf(),
        ensures
            final(self).wf(),
            tags_of(final(self).entries(), id) == tags@,
            forall|other: AtomId| other != id ==> tags_of(final(self).entries(), other) == tags_of(old(self).entries(), other),
    {
        let ghost before = self.entries@;
        match self.find(id) {
            Some(k) => {
                self.entries.set(k, TagEntry { atom_id: id, tags });
                proof {
                    let after = self.entries@;
                    assert forall|i: int, j: int| 0 <= i < j < after.len() implies (#[trigger] after[i]).atom_id != (#[trigger] after[j]).atom_id by {
                        assert(before[i].atom_id == after[i].atom_id);
                        assert(before[j].atom_id == after[j].atom_id);
                    }
                    assert(after[k as int].atom_id == id);
                    let c = choose|i: int| 0 <= i < after.len() && (#[trigger] after[i]).atom_id == id;
                    if c < k {
                        assert(after[c].atom_id != after[k as int].atom_id);
                    } else if k < c {
                        assert(after[k as int].atom_id != after[c].atom_id);
                    }
                    assert forall|other: AtomId| other != id implies tags_of(after, other) == tags_of(before, other) by {
                        assert forall|i: int| 0 <= i < after.len() && after[i].atom_id == other implies after[i] == before[i] by {}
                        if exists|i: int| 0 <= i < before.len() && (#[trigger] before[i]).atom_id == other {
                            let w = choose|i: int| 0 <= i < before.len() && (#[trigger] before[i]).atom_id == other;
                            assert(after[w].atom_id == other);
                        }
                        if exists|i: int| 0 <= i < after.len() && (#[trigger] after[i]).atom_id == other {
                            let w = choose|i: int| 0 <= i < after.len() && (#[trigger] after[i]).atom_id == other;
                            assert(before[w].atom_id == other);
                        }
                    }
                }
            },
            None => {
                self.entries.push(TagEntry { atom_id: id, tags });
                proof {
                    let after = self.entries@;
                    let last = after.len() - 1;
                    assert(after[last].atom_id == id);
                    assert forall|i: int, j: int| 0 <= i < j < after.len() implies (#[trigger] after[i]).atom_id != (#[trigger] after[j]).atom_id by {
                        assert(before[i] == after[i]);
                        if j < last {
                            assert(before[j] == after[j]);
                        }
                    }
                    let c = choose|i: int| 0 <= i < after.len() && (#[trigger] after[i]).atom_id == id;
                    if c < last {
                        assert(before[c] == after[c]);
                    }
                    assert forall|other: AtomId| other != id implies tags_of(after, other) == tags_of(before, other) by {
                        if exists|i: int| 0 <= i < before.len() && (#[trigger] before[i]).atom_id == other {
                            let w = choose|i: int| 0 <= i < before.len() && (#[trigger] before[i]).atom_id == other;
                            assert(after[w] == before[w]);
                        }
                        if exists|i: int| 0 <= i < after.len() && (#[trigger] after[i]).atom_id == other {
                            let w = choose|i: int| 0 <= i < after.len() && (#[trigger] after[i]).atom_id == other;
                            assert(w != last);
                            assert(before[w] == after[w]);
                        }
                    }
                }
            },
        }
    }

    /// Adds `tag` after the tags that atom `id` has.
    pub fn add_tag(&mut self, id: AtomId, tag: String)
        requires
            old(self).wf(),
        ensures
            final(self).wf(),
            tags_of(final(self).entries(), id) == tags_of(old(self).entries(), id).push(tag),
            forall|other: AtomId| other != id ==> tags_of(final(self).entries(), other) == tags_of(old(self).entries(), other),
    {
        let mut tags = self.tags_for(id);
        tags.push(tag);
        self.set_tags(id, tags);
    }

    /// The tags of atom `id`; empty when it has none.
    pub fn tags_for(&self, id: AtomId) -> (r: Vec<String>)
        requires
            self.wf(),
        ensures
            r@ == tags_of(self.entries(), id),
    {
        match self.find(id) {
            Some(k) => {
                proof {
                    let es = self.entries();
                    let c = choose|i: int| 0 <= i < es.len() && (#[trigger] es[i]).atom_id == id;
                    if c < k {
                        assert(es[c].atom_id != es[k as int].atom_id);
                    } else if k < c {
                        assert(es[k as int].atom_id != es[c].atom_id);
                    }
                }
                copy_strings(&self.entries[k].tags)
            },
            None => Vec::new(),
        }
    }
}

/// Section queries and status updates over an atom store and its tags.
pub struct TaskService {
    repo: AtomStore,
    tags: TagIndex,
}

impl TaskService {
    /// The store.
    pub closed spec fn store(&self) -> AtomStore {
        self.repo
    }

    /// The tag index.
    pub closed spec fn tag_index(&self) -> TagIndex {
        self.tags
    }

    /// Both parts are well formed.
    pub open spec fn wf(&self) -> bool {
        self.store().wf() && self.tag_index().wf()
    }

    /// A service over `repo` and `tags`.
    pub fn new(repo: AtomStore, tags: TagIndex) -> (r: TaskService)
        ensures
            r.store() == repo,
            r.tag_index() == tags,
    {
        TaskService { repo, tags }
    }

    /// The store.
    pub fn repo(&self) -> (r: &AtomStore)
        ensures
            *r == self.store(),
    {
        &self.repo
    }

    /// The tag index.
    pub fn tags(&self) -> (r: &TagIndex)
        ensures
            *r == self.tag_index(),
    {
        &self.tags
    }

    /// Attaches to each row the tags of its atom.
    fn enrich_with_tags(&self, rows: Vec<SectionAtomRow>) -> (r: Result<Vec<SectionAtom>, TaskServiceError>)
        requires
            self.wf(),
        ensures
            r matches Ok(v) && enriched(v@, rows@, self.tag_index().entries()),
    {
        let mut out: Vec<SectionAtom> = Vec::new();
        let mut i: usize = 0;
        while i < rows.len()
            invariant
                self.wf(),
                i <= rows@.len(),
                enriched(out@, rows@.subrange(0, i as int), self.tag_index().entries()),
            decreases rows@.len() - i,
        {
            let row = &rows[i];
            let tags = self.tags.tags_for(row.atom.uuid);
            out.push(SectionAtom { atom: row.atom.duplicate(), tags, updated_at: row.updated_at });
            i = i + 1;
        }
        proof {
            assert(rows@.subrange(0, rows@.len() as int) =~= rows@);
        }
        Ok(out)
    }

    /// The Inbox page, with tags.
    pub fn fetch_inbox(&self, limit: u32, offset: u32) -> (r: Result<Vec<SectionAtom>, TaskServiceError>)
        requires
            self.wf(),
        ensures
            r matches Ok(v) && exists|rows: Seq<SectionAtomRow>| #[trigger]
                is_ordered_page(rows, self.store().rows().filter(selector(Selection::Inbox)), RowOrder::Recency, offset as int, limit as int)
                && enriched(v@, rows, self.tag_index().entries()),
    {
        let rows = match self.repo.fetch_inbox(limit, offset) {
            Ok(rows) => rows,
            Err(e) => {
                return Err(TaskServiceError::from(e));
            },
        };
        self.enrich_with_tags(rows)
    }

    /// The Today page for the window `[bod_ms, eod_ms]`, with tags.
    pub fn fetch_today(&self, bod_ms: i64, eod_ms: i64, limit: u32, offset: u32) -> (r: Result<Vec<SectionAtom>, TaskServiceError>)
        requires
            self.wf(),
        ensures
            r matches Ok(v) && exists|rows: Seq<SectionAtomRow>| #[trigger]
                is_ordered_page(rows, self.store().rows().filter(selector(Selection::Today { bod: bod_ms, eod: eod_ms })), RowOrder::Anchor, offset as int, limit as int)
                && enriched(v@, rows, self.tag_index().entries()),
    {
        let rows = match self.repo.fetch_today(bod_ms, eod_ms, limit, offset) {
            Ok(rows) => rows,
            Err(e) => {
                return Err(TaskServiceError::from(e));
            },
        };
        self.enrich_with_tags(rows)
    }

    /// The Upcoming page after `eod_ms`, with tags.
    pub fn fetch_upcoming(&self, eod_ms: i64, limit: u32, offset: u32) -> (r: Result<Vec<SectionAtom>, TaskServiceError>)
        requires
            self.wf(),
        ensures
            r matches Ok(v) && exists|rows: Seq<SectionAtomRow>| #[trigger]
                is_ordered_page(rows, self.store().rows().filter(selector(Selection::Upcoming { eod: eod_ms })), RowOrder::Anchor, offset as int, limit as int)
                && enriched(v@, rows, self.tag_index().entries()),
    {
        let rows = match self.repo.fetch_upcoming(eod_ms, limit, offset) {
            Ok(rows) => rows,
            Err(e) => {
                return Err(TaskServiceError::from(e));
            },
        };
        self.enrich_with_tags(rows)
    }

    /// The calendar page for `[range_start_ms, range_end_ms)`, with tags.
    pub fn fetch_by_time_range(&self, range_start_ms: i64, range_end_ms: i64, limit: u32, offset: u32) -> (r: Result<Vec<SectionAtom>, TaskServiceError>)
        requires
            self.wf(),
        ensures
            r matches Ok(v) && exists|rows: Seq<SectionAtomRow>| #[trigger]
                is_ordered_page(rows, self.store().rows().filter(selector(Selection::TimeRange { range_start: range_start_ms, range_end: range_end_ms })), RowOrder::Span, offset as int, limit as int)
                && enriched(v@, rows, self.tag_index().entries()),
    {
        let rows = match self.repo.fetch_by_time_range(range_start_ms, range_end_ms, limit, offset) {
            Ok(rows) => rows,
            Err(e) => {
                return Err(TaskServiceError::from(e));
            },
        };
        self.enrich_with_tags(rows)
    }

    /// Sets or clears the status of a live atom of any kind.
    pub fn update_status(&mut self, id: AtomId, status: Option<TaskStatus>) -> (r: Result<(), TaskServiceError>)
        requires
            old(self).wf(),
        ensures
            final(self).wf(),
            final(self).tag_index() == old(self).tag_index(),
            exists|rr: RepoResult<()>| #[trigger] status_update_outcome(old(self).store().rows(), final(self).store().rows(), id, status, old(self).store().clock(), rr)
                && r == service_result(rr),
    {
        let rr = self.repo.update_atom_status(id, status);
        match rr {
            Ok(()) => Ok(()),
            Err(e) => Err(TaskServiceError::from(e)),
        }
    }

    /// Sets both time bounds of a live atom, after checking `end_at >= start_at`.
    pub fn update_event_times(&mut self, id: AtomId, start_at: i64, end_at: i64) -> (r: Result<(), TaskServiceError>)
        requires
            old(self).wf(),
        ensures
            final(self).wf(),
            final(self).tag_index() == old(self).tag_index(),
            end_at < start_at ==> r == Err::<(), TaskServiceError>(TaskServiceError::Repo(
                RepoError::Validation(AtomValidationError::InvalidEventWindow { start: start_at, end: end_at }),
            )) && final(self).store().rows() == old(self).store().rows(),
            start_at <= end_at ==> match crate::repo::live_atom_of(old(self).store().rows(), id) {
                None => r == Err::<(), TaskServiceError>(TaskServiceError::AtomNotFound(id))
                    && final(self).store().rows() == old(self).store().rows(),
                Some(prev) => r == Ok::<(), TaskServiceError>(()) && crate::repo::replaced(
                    old(self).store().rows(),
                    final(self).store().rows(),
                    id,
                    Atom { start_at: Some(start_at), end_at: Some(end_at), ..prev },
                    crate::repo::next_stamp(old(self).store().clock()),
                ),
            },
    {
        match self.repo.update_event_times(id, start_at, end_at) {
            Ok(()) => Ok(()),
            Err(e) => Err(TaskServiceError::from(e)),
        }
    }
}

} // verus!
