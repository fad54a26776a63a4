//! The atom: the universal content record, and its validation.

use vstd::prelude::*;
use vstd::string::*;
use crate::text::{append_signed, signed_decimal, trim_text, trimmed};

verus! {

/// Stable identifier of an atom: the 128-bit value of a UUID.
pub type AtomId = u128;

/// Classification intent of an atom.
#[derive(Clone, Copy, Debug, PartialEq, Eq, Structural)]
pub enum AtomType {
    Note,
    Task,
    Event,
}

/// Optional task status, orthogonal to the atom's kind.
#[derive(Clone, Copy, Debug, PartialEq, Eq, Structural)]
pub enum TaskStatus {
    Todo,
    InProgress,
    Done,
    Cancelled,
}

/// Why an atom is not valid.
#[derive(Clone, Debug, PartialEq, Eq, Structural)]
pub enum AtomValidationError {
    /// The content is empty once surrounding whitespace is trimmed.
    EmptyContent,
    /// Both bounds are set and the end lies before the start.
    InvalidEventWindow { start: i64, end: i64 },
}

/// The description of a validation error.
pub open spec fn validation_text(e: AtomValidationError) -> Seq<char> {
    match e {
        AtomValidationError::EmptyContent => "atom content must not be empty"@,
        AtomValidationError::InvalidEventWindow { start, end } => "invalid event window: end_at "@
            + signed_decimal(end as int) + " is before start_at "@ + signed_decimal(start as int),
    }
}

impl AtomValidationError {
    /// A readable description.
    pub fn message(&self) -> (r: String)
        ensures
            r@ == validation_text(*self),
    {
        match self {
            AtomValidationError::EmptyContent => String::from_str("atom content must not be empty"),
            AtomValidationError::InvalidEventWindow { start, end } => {
                let mut m = String::from_str("invalid event window: end_at ");
                append_signed(&mut m, *end);
                m.append(" is before start_at ");
                append_signed(&mut m, *start);
                m
            },
        }
    }
}

/// The canonical record.
#[derive(Clone, Debug, PartialEq, Eq)]
pub struct Atom {
    pub uuid: AtomId,
    pub kind: AtomType,
    pub content: String,
    pub preview_text: Option<String>,
    pub preview_image: Option<String>,
    pub task_status: Option<TaskStatus>,
    pub start_at: Option<i64>,
    pub end_at: Option<i64>,
    pub recurrence_rule: Option<String>,
    pub hlc_timestamp: Option<String>,
    pub is_deleted: bool,
}

/// The content holds something besides whitespace.
pub open spec fn content_ok(a: Atom) -> bool {
    trimmed(a.content@).len() > 0
}

/// When both bounds are set, the end does not lie before the start.
pub open spec fn window_ok(start_at: Option<i64>, end_at: Option<i64>) -> bool {
    match (start_at, end_at) {
        (Some(s), Some(e)) => s <= e,
        _ => true,
    }
}

/// The outcome of validating `a`: content first, then the time window.
pub open spec fn validation_of(a: Atom) -> Result<(), AtomValidationError> {
    if !content_ok(a) {
        Err(AtomValidationError::EmptyContent)
    } else if !window_ok(a.start_at, a.end_at) {
        Err(AtomValidationError::InvalidEventWindow { start: a.start_at->0, end: a.end_at->0 })
    } else {
        Ok(())
    }
}

/// `a` passes validation.
pub open spec fn is_valid(a: Atom) -> bool {
    validation_of(a) is Ok
}

/// The validation outcome for trimmed content `t` and bounds `start_at`,
/// `end_at`.
pub open spec fn fields_outcome(t: Seq<char>, start_at: Option<i64>, end_at: Option<i64>) -> Result<
    (),
    AtomValidationError,
> {
    if t.len() == 0 {
        Err(AtomValidationError::EmptyContent)
    } else if !window_ok(start_at, end_at) {
        Err(AtomValidationError::InvalidEventWindow { start: start_at->0, end: end_at->0 })
    } else {
        Ok(())
    }
}

/// Validation once the content is trimmed: `trimmed_content` must not be
/// empty, then `end_at >= start_at` when both are set.
pub fn check_fields(trimmed_content: &str, start_at: Option<i64>, end_at: Option<i64>) -> (r: Result<
    (),
    AtomValidationError,
>)
    ensures
        r == fields_outcome(trimmed_content@, start_at, end_at),
{
    if trimmed_content.is_empty() {
        return Err(AtomValidationError::EmptyContent);
    }
    match (start_at, end_at) {
        (Some(s), Some(e)) => {
            if e < s {
                return Err(AtomValidationError::InvalidEventWindow { start: s, end: e });
            }
        },
        _ => {},
    }
    Ok(())
}

/// An exact copy of an optional string.
pub fn copy_opt_string(s: &Option<String>) -> (r: Option<String>)
    ensures
        r == *s,
{
    match s {
        Some(v) => Some(v.clone()),
        None => None,
    }
}

impl Atom {
    /// A new live atom of `kind` with `content`, a fresh random identifier,
    /// no status, no time bounds and no optional fields.
    pub fn new(kind: AtomType, content: &str) -> (r: Atom)
        ensures
            r.kind == kind,
            r.content@ == content@,
            r.preview_text is None,
            r.preview_image is None,
            r.task_status is None,
            r.start_at is None,
            r.end_at is None,
            r.recurrence_rule is None,
            r.hlc_timestamp is None,
            !r.is_deleted,
    {
        Atom {
            uuid: crate::ids::random_id(),
            kind,
            content: String::from_str(content),
            preview_text: None,
            preview_image: None,
            task_status: None,
            start_at: None,
            end_at: None,
            recurrence_rule: None,
            hlc_timestamp: None,
            is_deleted: false,
        }
    }

    /// Checks the atom's invariants: non-empty content after trimming, then
    /// `end_at >= start_at` when both are set.
    pub fn validate(&self) -> (r: Result<(), AtomValidationError>)
        ensures
            r == validation_of(*self),
    {
        let trimmed_content = trim_text(self.content.as_str());
        check_fields(trimmed_content, self.start_at, self.end_at)
    }

    /// An exact copy of the atom.
    pub fn duplicate(&self) -> (r: Atom)
        ensures
            r == *self,
    {
        Atom {
            uuid: self.uuid,
            kind: self.kind,
            content: self.content.clone(),
            preview_text: copy_opt_string(&self.preview_text),
            preview_image: copy_opt_string(&self.preview_image),
            task_status: self.task_status,
            start_at: self.start_at,
            end_at: self.end_at,
            recurrence_rule: copy_opt_string(&self.recurrence_rule),
            hlc_timestamp: copy_opt_string(&self.hlc_timestamp),
            is_deleted: self.is_deleted,
        }
    }
}

/// For an atom with non-blank content and both bounds set, validation
/// fails exactly when `end_at < start_at`.
pub proof fn law_window_validation(a: Atom)
    requires
        content_ok(a),
        a.start_at is Some,
        a.end_at is Some,
    ensures
        validation_of(a) is Err <==> a.end_at->0 < a.start_at->0,
{
}

} // verus!
