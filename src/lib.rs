//! Domain core of a notes, tasks and calendar application: the atom record and
//! its validation, an atom store with time-based section queries, a workspace
//! tree of folders and note references, and the value types of the sync and
//! bridge boundaries.

mod ids;
mod text;
pub mod atom;
mod sorting;
pub mod section;
pub mod repo;
pub mod tree;
pub mod task_service;
pub mod row;
pub mod logging;
pub mod retention;
pub mod sync;
pub mod bridge;

pub use atom::{Atom, AtomId, AtomType, AtomValidationError, TaskStatus};
pub use section::{SectionAtomRow, Selection};
pub use repo::{AtomListQuery, AtomStore, RepoError, RepoResult};
pub use tree::{NodeId, TreeService, TreeServiceError, WorkspaceNode, WorkspaceNodeKind};
pub use task_service::{SectionAtom, TagIndex, TaskService, TaskServiceError};
pub use row::{check_schema, parse_atom_row, AtomRowValues};
pub use logging::{DartLogEvent, LogDartEventError};
pub use bridge::{ping_text, version_text};
