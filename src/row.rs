//! Reading and writing stored atom rows: the column codecs, the row reader
//! that validates what it reads, and the schema check made before a store
//! is used.

use vstd::prelude::*;
use vstd::string::*;
use crate::atom::{validation_of, Atom, AtomType, TaskStatus};
use crate::ids::{parse_uuid, parsed_uuid};
use crate::repo::{RepoError, RepoResult};
use crate::text::{joined, text_eq};

verus! {

/// The stored text of a kind.
pub open spec fn atom_type_text(kind: AtomType) -> Seq<char> {
    match kind {
        AtomType::Note => "note"@,
        AtomType::Task => "task"@,
        AtomType::Event => "event"@,
    }
}

/// The kind a stored text names.
pub open spec fn atom_type_from_text(s: Seq<char>) -> Option<AtomType> {
    if s == "note"@ {
        Some(AtomType::Note)
    } else if s == "task"@ {
        Some(AtomType::Task)
    } else if s == "event"@ {
        Some(AtomType::Event)
    } else {
        None
    }
}

/// The stored text of a status.
pub open spec fn task_status_text(status: TaskStatus) -> Seq<char> {
    match status {
        TaskStatus::Todo => "todo"@,
        TaskStatus::InProgress => "in_progress"@,
        TaskStatus::Done => "done"@,
        TaskStatus::Cancelled => "cancelled"@,
    }
}

/// The status a stored text names.
pub open spec fn task_status_from_text(s: Seq<char>) -> Option<TaskStatus> {
    if s == "todo"@ {
        Some(TaskStatus::Todo)
    } else if s == "in_progress"@ {
        Some(TaskStatus::InProgress)
    } else if s == "done"@ {
        Some(TaskStatus::Done)
    } else if s == "cancelled"@ {
        Some(TaskStatus::Cancelled)
    } else {
        None
    }
}

/// The stored text of a kind.
pub fn atom_type_to_db(kind: AtomType) -> (r: &'static str)
    ensures
        r@ == atom_type_text(kind),
{
    match kind {
        AtomType::Note => "note",
        AtomType::Task => "task",
        AtomType::Event => "event",
    }
}

/// The kind a stored text names, if any.
pub fn parse_atom_type(value: &str) -> (r: Option<AtomType>)
    ensures
        r == atom_type_from_text(value@),
{
    if text_eq(value, "note") {
        Some(AtomType::Note)
    } else if text_eq(value, "task") {
        Some(AtomType::Task)
    } else if text_eq(value, "event") {
        Some(AtomType::Event)
    } else {
        None
    }
}

/// The stored text of a status.
pub fn task_status_to_db(status: TaskStatus) -> (r: &'static str)
    ensures
        r@ == task_status_text(status),
{
    match status {
        TaskStatus::Todo => "todo",
        TaskStatus::InProgress => "in_progress",
        TaskStatus::Done => "done",
        TaskStatus::Cancelled => "cancelled",
    }
}

/// The status a stored text names, if any.
pub fn parse_task_status(value: &str) -> (r: Option<TaskStatus>)
    ensures
        r == task_status_from_text(value@),
{
    if text_eq(value, "todo") {
        Some(TaskStatus::Todo)
    } else if text_eq(value, "in_progress") {
        Some(TaskStatus::InProgress)
    } else if text_eq(value, "done") {
        Some(TaskStatus::Done)
    } else if text_eq(value, "cancelled") {
        Some(TaskStatus::Cancelled)
    } else {
        None
    }
}

/// The stored integer of a flag: 1 for true, 0 for false.
pub fn bool_to_int(value: bool) -> (r: i64)
    ensures
        r == (if value {
            1i64
        } else {
            0i64
        }),
{
    if value {
        1
    } else {
        0
    }
}

/// The column values of one stored atom row.
#[derive(Clone, Debug, PartialEq, Eq)]
pub struct AtomRowValues {
    pub uuid: String,
    pub kind: String,
    pub content: String,
    pub preview_text: Option<String>,
    pub preview_image: Option<String>,
    pub task_status: Option<String>,
    pub start_at: Option<i64>,
    pub end_at: Option<i64>,
    pub recurrence_rule: Option<String>,
    pub hlc_timestamp: Option<String>,
    pub is_deleted: i64,
}

/// The status column read: `None` when a text is stored that names no status.
pub open spec fn status_column(s: Option<String>) -> Option<Option<TaskStatus>> {
    match s {
        None => Some(None),
        Some(t) => match task_status_from_text(t@) {
            Some(st) => Some(Some(st)),
            None => None,
        },
    }
}

/// The atom that `row` holds, given the identifier read from its text, when
/// every column reads and the atom is valid.
pub open spec fn atom_in_row(id: Option<u128>, row: AtomRowValues) -> Option<Atom> {
    if id is None || atom_type_from_text(row.kind@) is None || status_column(row.task_status) is None
        || !(row.is_deleted == 0 || row.is_deleted == 1) {
        None
    } else {
        let a = Atom {
            uuid: id->0,
            kind: atom_type_from_text(row.kind@)->0,
            content: row.content,
            preview_text: row.preview_text,
            preview_image: row.preview_image,
            task_status: status_column(row.task_status)->0,
            start_at: row.start_at,
            end_at: row.end_at,
            recurrence_rule: row.recurrence_rule,
            hlc_timestamp: row.hlc_timestamp,
            is_deleted: row.is_deleted == 1,
        };
        if validation_of(a) is Ok {
            Some(a)
        } else {
            None
        }
    }
}

/// Reads the atom of `row` whose identifier text read as `id`: `InvalidData`
/// when a column does not read or the atom is not valid.
pub fn atom_from_row(id: Option<u128>, row: &AtomRowValues) -> (r: RepoResult<Atom>)
    ensures
        r is Ok <==> atom_in_row(id, *row) is Some,
        r matches Ok(a) ==> Some(a) == atom_in_row(id, *row),
        r matches Err(e) ==> e is InvalidData,
{
    let uuid = match id {
        Some(u) => u,
        None => {
            return Err(RepoError::InvalidData(joined("invalid uuid value `", row.uuid.as_str(), "` in atoms.uuid")));
        },
    };
    let kind = match parse_atom_type(row.kind.as_str()) {
        Some(k) => k,
        None => {
            return Err(RepoError::InvalidData(joined("invalid atom type `", row.kind.as_str(), "` in atoms.type")));
        },
    };
    let task_status = match &row.task_status {
        None => None,
        Some(t) => match parse_task_status(t.as_str()) {
            Some(st) => Some(st),
            None => {
                return Err(
                    RepoError::InvalidData(joined("invalid task status `", t.as_str(), "` in atoms.task_status")),
                );
            },
        },
    };
    let is_deleted = if row.is_deleted == 0 {
        false
    } else if row.is_deleted == 1 {
        true
    } else {
        return Err(RepoError::InvalidData(String::from_str("invalid is_deleted value in atoms.is_deleted")));
    };
    let atom = Atom {
        uuid,
        kind,
        content: row.content.clone(),
        preview_text: crate::atom::copy_opt_string(&row.preview_text),
        preview_image: crate::atom::copy_opt_string(&row.preview_image),
        task_status,
        start_at: row.start_at,
        end_at: row.end_at,
        recurrence_rule: crate::atom::copy_opt_string(&row.recurrence_rule),
        hlc_timestamp: crate::atom::copy_opt_string(&row.hlc_timestamp),
        is_deleted,
    };
    match atom.validate() {
        Ok(()) => Ok(atom),
        Err(_) => Err(RepoError::InvalidData(joined("atom `", row.uuid.as_str(), "` fails validation"))),
    }
}

/// Reads the atom of a stored row, never passing on a partly read or
/// invalid one.
pub fn parse_atom_row(row: &AtomRowValues) -> (r: RepoResult<Atom>)
    ensures
        r is Ok <==> atom_in_row(parsed_uuid(row.uuid@), *row) is Some,
        r matches Ok(a) ==> Some(a) == atom_in_row(parsed_uuid(row.uuid@), *row),
        r matches Err(e) ==> e is InvalidData,
{
    let id = parse_uuid(row.uuid.as_str());
    atom_from_row(id, row)
}

/// The columns the atoms table must have.
pub open spec fn required_columns() -> Seq<Seq<char>> {
    seq![
        "uuid"@,
        "type"@,
        "content"@,
        "preview_text"@,
        "preview_image"@,
        "task_status"@,
        "start_at"@,
        "end_at"@,
        "recurrence_rule"@,
        "is_deleted"@,
        "updated_at"@,
    ]
}

/// The required columns, in checking order.
fn required_column_names() -> (r: Vec<&'static str>)
    ensures
        r@.map_values(|c: &'static str| c@) == required_columns(),
{
    let r = vec![
        "uuid",
        "type",
        "content",
        "preview_text",
        "preview_image",
        "task_status",
        "start_at",
        "end_at",
        "recurrence_rule",
        "is_deleted",
        "updated_at",
    ];
    proof {
        assert(r@.map_values(|c: &'static str| c@) =~= required_columns());
    }
    r
}

/// `present` names column `c`.
pub open spec fn names_column(present: Seq<String>, c: Seq<char>) -> bool {
    exists|i: int| 0 <= i < present.len() && (#[trigger] present[i])@ == c
}

/// Whether `present` names column `c`.
fn has_column(present: &Vec<String>, c: &str) -> (r: bool)
    ensures
        r == names_column(present@, c@),
{
    let mut i: usize = 0;
    while i < present.len()
        invariant
            i <= present@.len(),
            forall|k: int| 0 <= k < i ==> (#[trigger] present@[k])@ != c@,
        decreases present@.len() - i,
    {
        if text_eq(present[i].as_str(), c) {
            return true;
        }
        i = i + 1;
    }
    false
}

/// `c` is the first required column that `present` does not name.
pub open spec fn first_missing_column(present: Seq<String>, c: Seq<char>) -> bool {
    exists|i: int|
        0 <= i < required_columns().len() && #[trigger] required_columns()[i] == c && !names_column(
            present,
            c,
        ) && forall|j: int| 0 <= j < i ==> names_column(present, #[trigger] required_columns()[j])
}

/// Checks the shape that a store reports before it is used: schema version
/// `actual` must be `expected`, the atoms table must exist, and it must have
/// every required column; the first failure is returned.
pub fn check_schema(expected: u32, actual: u32, has_atoms_table: bool, columns: &Vec<String>) -> (r: RepoResult<()>)
    ensures
        actual != expected ==> r == Err::<(), RepoError>(
            RepoError::UninitializedConnection { expected_version: expected, actual_version: actual },
        ),
        actual == expected && !has_atoms_table ==> (r matches Err(RepoError::MissingRequiredTable(t))
            && t@ == "atoms"@),
        actual == expected && has_atoms_table ==> {
            &&& r is Ok <==> forall|i: int|
                0 <= i < required_columns().len() ==> names_column(columns@, #[trigger] required_columns()[i])
            &&& r matches Err(e) ==> (e matches RepoError::MissingRequiredColumn { table, column }
                && table@ == "atoms"@ && first_missing_column(columns@, column@))
        },
{
    if actual != expected {
        return Err(RepoError::UninitializedConnection { expected_version: expected, actual_version: actual });
    }
    if !has_atoms_table {
        return Err(RepoError::MissingRequiredTable(String::from_str("atoms")));
    }
    let names = required_column_names();
    let mut i: usize = 0;
    while i < names.len()
        invariant
            actual == expected,
            has_atoms_table,
            names@.map_values(|c: &'static str| c@) == required_columns(),
            i <= names@.len(),
            forall|j: int| 0 <= j < i ==> names_column(columns@, #[trigger] required_columns()[j]),
        decreases names@.len() - i,
    {
        let name = names[i];
        proof {
            assert(name@ == required_columns()[i as int]);
        }
        if !has_column(columns, name) {
            let column = String::from_str(name);
            let table = String::from_str("atoms");
            proof {
                assert(first_missing_column(columns@, column@));
            }
            return Err(RepoError::MissingRequiredColumn { table, column });
        }
        i = i + 1;
    }
    Ok(())
}

} // verus!
