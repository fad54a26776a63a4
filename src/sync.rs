//! The sync provider boundary: status, request and result shapes, error
//! envelopes and run summaries. No remote work happens in this crate.

use vstd::prelude::*;
use vstd::string::*;
use crate::text::{trim_text, trimmed};

verus! {

/// Sync pipeline stage, for errors that callers branch on.
#[derive(Clone, Copy, Debug, PartialEq, Eq, Structural)]
pub enum SyncStage {
    Auth,
    Pull,
    Push,
    ConflictMap,
}

/// Provider readiness.
#[derive(Clone, Copy, Debug, PartialEq, Eq, Structural)]
pub enum ProviderHealth {
    Healthy,
    Degraded,
    Unavailable,
}

/// Provider authentication state.
#[derive(Clone, Copy, Debug, PartialEq, Eq, Structural)]
pub enum ProviderAuthState {
    Unauthenticated,
    Authenticating,
    Authenticated,
    Expired,
}

/// Status snapshot of a provider.
#[derive(Clone, Debug, PartialEq, Eq)]
pub struct ProviderStatus {
    pub provider_id: String,
    pub health: ProviderHealth,
    pub auth_state: ProviderAuthState,
    pub last_sync_at_ms: Option<i64>,
}

/// A trimmed copy of `s`.
fn trimmed_string(s: &str) -> (r: String)
    ensures
        r@ == trimmed(s@),
{
    String::from_str(trim_text(s))
}

impl ProviderStatus {
    /// The status of a provider that is not connected: unavailable,
    /// unauthenticated, never synced.
    pub fn unauthenticated(provider_id: &str) -> (r: ProviderStatus)
        ensures
            r.provider_id@ == provider_id@,
            r.health == ProviderHealth::Unavailable,
            r.auth_state == ProviderAuthState::Unauthenticated,
            r.last_sync_at_ms is None,
    {
        ProviderStatus {
            provider_id: String::from_str(provider_id),
            health: ProviderHealth::Unavailable,
            auth_state: ProviderAuthState::Unauthenticated,
            last_sync_at_ms: None,
        }
    }
}

/// Error of a provider operation.
#[derive(Clone, Debug, PartialEq, Eq)]
pub struct ProviderErrorEnvelope {
    pub provider_id: String,
    pub stage: SyncStage,
    pub code: String,
    pub message: String,
    pub retriable: bool,
}

impl ProviderErrorEnvelope {
    /// An envelope with its texts trimmed.
    pub fn new(provider_id: &str, stage: SyncStage, code: &str, message: &str, retriable: bool) -> (r: ProviderErrorEnvelope)
        ensures
            r.provider_id@ == trimmed(provider_id@),
            r.stage == stage,
            r.code@ == trimmed(code@),
            r.message@ == trimmed(message@),
            r.retriable == retriable,
    {
        ProviderErrorEnvelope {
            provider_id: trimmed_string(provider_id),
            stage,
            code: trimmed_string(code),
            message: trimmed_string(message),
            retriable,
        }
    }
}

/// Result of a provider operation.
pub type ProviderResult<T> = Result<T, ProviderErrorEnvelope>;

/// Authentication request.
#[derive(Clone, Debug, PartialEq, Eq)]
pub struct ProviderAuthRequest {
    pub interactive: bool,
    pub scopes: Vec<String>,
}

/// Authentication result.
#[derive(Clone, Debug, PartialEq, Eq)]
pub struct ProviderAuthResult {
    pub state: ProviderAuthState,
    pub granted: bool,
    pub expires_at_ms: Option<i64>,
}

/// Pull request.
#[derive(Clone, Debug, PartialEq, Eq)]
pub struct ProviderPullRequest {
    pub cursor: Option<String>,
    pub limit: u32,
}

/// Kinds of entity that sync carries.
#[derive(Clone, Copy, Debug, PartialEq, Eq, Structural)]
pub enum SyncEntityKind {
    Task,
    Event,
}

/// A remote record as the provider reports it.
#[derive(Clone, Debug, PartialEq, Eq)]
pub struct ProviderRecord {
    pub external_id: String,
    pub entity_kind: SyncEntityKind,
    pub updated_at_ms: i64,
    pub payload_hash: Option<String>,
}

/// Pull result.
#[derive(Clone, Debug, PartialEq, Eq)]
pub struct ProviderPullResult {
    pub records: Vec<ProviderRecord>,
    pub next_cursor: Option<String>,
    pub has_more: bool,
}

/// What a pushed change does.
#[derive(Clone, Copy, Debug, PartialEq, Eq, Structural)]
pub enum PushOperation {
    Upsert,
    Delete,
}

/// One local change to push.
#[derive(Clone, Debug, PartialEq, Eq)]
pub struct ProviderPushChange {
    pub atom_uuid: String,
    pub entity_kind: SyncEntityKind,
    pub operation: PushOperation,
    pub external_id: Option<String>,
    pub local_version: Option<i64>,
}

/// Push request.
#[derive(Clone, Debug, PartialEq, Eq)]
pub struct ProviderPushRequest {
    pub changes: Vec<ProviderPushChange>,
}

/// Why a local and a remote record conflict.
#[derive(Clone, Copy, Debug, PartialEq, Eq, Structural)]
pub enum ConflictReason {
    VersionMismatch,
    DeletedRemotely,
    DeletedLocally,
    Unknown,
}

/// One conflict.
#[derive(Clone, Debug, PartialEq, Eq)]
pub struct ProviderConflict {
    pub atom_uuid: String,
    pub external_id: Option<String>,
    pub reason: ConflictReason,
}

/// Push result.
#[derive(Clone, Debug, PartialEq, Eq)]
pub struct ProviderPushResult {
    pub accepted_count: usize,
    pub failed_count: usize,
    pub conflict_candidates: Vec<ProviderConflict>,
}

/// How a conflict is settled.
#[derive(Clone, Copy, Debug, PartialEq, Eq, Structural)]
pub enum ConflictResolution {
    KeepLocal,
    KeepRemote,
    ManualMerge,
}

/// The settlement of one conflict.
#[derive(Clone, Debug, PartialEq, Eq)]
pub struct ConflictMapDecision {
    pub atom_uuid: String,
    pub resolution: ConflictResolution,
}

/// Conflict-map request.
#[derive(Clone, Debug, PartialEq, Eq)]
pub struct ProviderConflictMapRequest {
    pub conflicts: Vec<ProviderConflict>,
}

/// Conflict-map result.
#[derive(Clone, Debug, PartialEq, Eq)]
pub struct ProviderConflictMapResult {
    pub decisions: Vec<ConflictMapDecision>,
}

/// A sync provider, for implementers of remote sync.
pub trait ProviderSpi {
    /// Stable provider identifier.
    fn provider_id(&self) -> &str;

    /// Current status snapshot.
    fn status(&self) -> ProviderStatus;

    /// Authenticates.
    fn auth(&self, request: ProviderAuthRequest) -> ProviderResult<ProviderAuthResult>;

    /// Pulls remote changes.
    fn pull(&self, request: ProviderPullRequest) -> ProviderResult<ProviderPullResult>;

    /// Pushes local changes.
    fn push(&self, request: ProviderPushRequest) -> ProviderResult<ProviderPushResult>;

    /// Plans the settlement of conflicts.
    fn conflict_map(&self, request: ProviderConflictMapRequest) -> ProviderResult<ProviderConflictMapResult>;
}

/// Summary of one sync run.
#[derive(Clone, Debug, PartialEq, Eq)]
pub struct SyncSummary {
    pub provider_id: String,
    pub started_at_ms: i64,
    pub finished_at_ms: i64,
    pub pulled_records: usize,
    pub pushed_changes: usize,
    pub conflicts_detected: usize,
    pub conflicts_resolved: usize,
    pub error_code: Option<String>,
}

/// `finished - started`, at least zero and at most `i64::MAX`.
pub open spec fn run_duration(started: i64, finished: i64) -> int {
    let d = finished - started;
    if d < 0 {
        0
    } else if d > i64::MAX {
        i64::MAX as int
    } else {
        d
    }
}

impl SyncSummary {
    /// The summary of a successful run, its provider identifier trimmed.
    pub fn success(
        provider_id: &str,
        started_at_ms: i64,
        finished_at_ms: i64,
        pulled_records: usize,
        pushed_changes: usize,
        conflicts_detected: usize,
        conflicts_resolved: usize,
    ) -> (r: SyncSummary)
        ensures
            r.provider_id@ == trimmed(provider_id@),
            r.started_at_ms == started_at_ms,
            r.finished_at_ms == finished_at_ms,
            r.pulled_records == pulled_records,
            r.pushed_changes == pushed_changes,
            r.conflicts_detected == conflicts_detected,
            r.conflicts_resolved == conflicts_resolved,
            r.error_code is None,
    {
        SyncSummary {
            provider_id: trimmed_string(provider_id),
            started_at_ms,
            finished_at_ms,
            pulled_records,
            pushed_changes,
            conflicts_detected,
            conflicts_resolved,
            error_code: None,
        }
    }

    /// The summary of a failed run: no counts, and the error code trimmed.
    pub fn failure(provider_id: &str, started_at_ms: i64, finished_at_ms: i64, error_code: &str) -> (r: SyncSummary)
        ensures
            r.provider_id@ == trimmed(provider_id@),
            r.started_at_ms == started_at_ms,
            r.finished_at_ms == finished_at_ms,
            r.pulled_records == 0,
            r.pushed_changes == 0,
            r.conflicts_detected == 0,
            r.conflicts_resolved == 0,
            r.error_code matches Some(c) && c@ == trimmed(error_code@),
    {
        SyncSummary {
            provider_id: trimmed_string(provider_id),
            started_at_ms,
            finished_at_ms,
            pulled_records: 0,
            pushed_changes: 0,
            conflicts_detected: 0,
            conflicts_resolved: 0,
            error_code: Some(trimmed_string(error_code)),
        }
    }

    /// How long the run took, zero when the clock went backwards.
    pub fn duration_ms(&self) -> (r: i64)
        ensures
            r == run_duration(self.started_at_ms, self.finished_at_ms),
    {
        let d: i128 = self.finished_at_ms as i128 - self.started_at_ms as i128;
        if d < 0 {
            0
        } else if d > i64::MAX as i128 {
            i64::MAX
        } else {
            d as i64
        }
    }
}

} // verus!
