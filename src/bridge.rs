//! Values that the UI bridge hands across: health checks, the version, and
//! the single-entry search and command envelopes.

use vstd::prelude::*;
use vstd::string::*;
use crate::text::trim_text;

verus! {

/// The version of this crate.
pub const CORE_VERSION: &'static str = "0.1.0";

/// Search limit used when none, or zero, is given.
pub const ENTRY_DEFAULT_LIMIT: u32 = 10;

/// Largest search limit.
pub const ENTRY_LIMIT_MAX: u32 = 10;

/// Health check for the bridge: "pong".
pub fn ping() -> (r: String)
    ensures
        r@ == "pong"@,
{
    String::from_str("pong")
}

/// The crate version, for the bridge.
pub fn core_version() -> (r: String)
    ensures
        r@ == CORE_VERSION@,
{
    String::from_str(CORE_VERSION)
}

/// Health check: "pong".
pub fn ping_text() -> (r: String)
    ensures
        r@ == "pong"@,
{
    String::from_str("pong")
}

/// The crate version, never empty.
pub fn version_text() -> (r: String)
    ensures
        r@ == CORE_VERSION@,
        r@.len() > 0,
{
    proof {
        reveal_strlit("0.1.0");
    }
    String::from_str(CORE_VERSION)
}

/// One search hit.
#[derive(Clone, Debug, PartialEq, Eq)]
pub struct EntrySearchItem {
    /// Atom identifier as text.
    pub atom_id: String,
    /// Kind: note, task or event.
    pub kind: String,
    /// Short snippet.
    pub snippet: String,
}

/// Response of a single-entry search.
#[derive(Clone, Debug, PartialEq, Eq)]
pub struct EntrySearchResponse {
    /// Hits.
    pub items: Vec<EntrySearchItem>,
    /// Diagnostic message.
    pub message: String,
    /// The limit applied.
    pub applied_limit: u32,
}

/// Response of a single-entry command.
#[derive(Clone, Debug, PartialEq, Eq)]
pub struct EntryActionResponse {
    /// Whether the command succeeded.
    pub ok: bool,
    /// The created atom's identifier, if any.
    pub atom_id: Option<String>,
    /// Diagnostic message.
    pub message: String,
}

impl EntryActionResponse {
    /// The refusal of a command whose execution is not wired yet.
    pub fn scaffold_not_ready(action: &str) -> (r: EntryActionResponse)
        ensures
            !r.ok,
            r.atom_id is None,
            r.message@ == action@ + " is scaffolded in phase 1; execution wiring lands in phase 2"@,
    {
        let mut message = String::from_str(action);
        message.append(" is scaffolded in phase 1; execution wiring lands in phase 2");
        EntryActionResponse { ok: false, atom_id: None, message }
    }
}

/// The search limit applied for a requested one: the default for none or
/// zero, capped at the maximum.
pub open spec fn entry_limit(limit: Option<u32>) -> u32 {
    match limit {
        None => ENTRY_DEFAULT_LIMIT,
        Some(l) => if l == 0 {
            ENTRY_DEFAULT_LIMIT
        } else if l > ENTRY_LIMIT_MAX {
            ENTRY_LIMIT_MAX
        } else {
            l
        },
    }
}

/// The search limit applied for a requested one.
pub fn normalize_entry_limit(limit: Option<u32>) -> (r: u32)
    ensures
        r == entry_limit(limit),
{
    match limit {
        Some(0) => ENTRY_DEFAULT_LIMIT,
        Some(value) => {
            if value > ENTRY_LIMIT_MAX {
                ENTRY_LIMIT_MAX
            } else {
                value
            }
        },
        None => ENTRY_DEFAULT_LIMIT,
    }
}

/// Single-entry search: no hits yet, with the applied limit and a message
/// that reports the query length and the limit.
pub fn entry_search(text: &str, limit: Option<u32>) -> (r: EntrySearchResponse)
    ensures
        r.items@.len() == 0,
        r.applied_limit == entry_limit(limit),
{
    let applied = normalize_entry_limit(limit);
    let query_len = trim_text(text).unicode_len();
    let mut message = String::from_str("entry_search scaffold ready (query_len=");
    message.append(query_len.to_string().as_str());
    message.append(", limit=");
    message.append(applied.to_string().as_str());
    message.append(")");
    EntrySearchResponse { items: Vec::new(), message, applied_limit: applied }
}

/// Creates a note from the single entry: not wired yet.
pub fn entry_create_note(content: &str) -> (r: EntryActionResponse)
    ensures
        !r.ok,
        r.atom_id is None,
{
    EntryActionResponse::scaffold_not_ready("entry_create_note")
}

/// Creates a task from the single entry: not wired yet.
pub fn entry_create_task(content: &str) -> (r: EntryActionResponse)
    ensures
        !r.ok,
        r.atom_id is None,
{
    EntryActionResponse::scaffold_not_ready("entry_create_task")
}

/// Schedules an event from the single entry: not wired yet.
pub fn entry_schedule(title: &str, start_epoch_ms: i64, end_epoch_ms: Option<i64>) -> (r: EntryActionResponse)
    ensures
        !r.ok,
        r.atom_id is None,
{
    EntryActionResponse::scaffold_not_ready("entry_schedule")
}

} // verus!
