//! The plain records the interface shows. Their serialised forms are made
//! around the library; here they are the values the core produces.
use vstd::prelude::*;

verus! {

/// Whether a vault is configured, and what the index holds of it.
#[derive(Debug, Clone)]
pub struct VaultStatus {
    pub path: Option<String>,
    /// A count, not an analysis.
    pub note_count: u32,
    pub indexed_at: Option<String>,
}

/// The state of the index.
#[derive(Debug, Clone)]
pub struct IndexStatus {
    pub ready: bool,
    /// A changed schema version rebuilds the index.
    pub schema_version: u32,
    pub rebuilding: bool,
    /// How long the last scan took.
    pub last_scan_ms: Option<u32>,
    /// Rows the index could not read: visible, never silently dropped.
    pub row_errors: u32,
}

/// What Hermes declared about itself. Being unreachable is a calm state,
/// not an error.
#[derive(Debug, Clone)]
pub struct HermesHealth {
    pub reachable: bool,
    pub version: Option<String>,
    /// The interface shows only the capabilities listed here.
    pub capabilities: Vec<String>,
}

impl HermesHealth {
    /// The state before anything is known: unreachable, no version, no
    /// capabilities.
    pub fn unreachable() -> (h: HermesHealth)
        ensures
            !h.reachable,
            h.version is None,
            h.capabilities@.len() == 0,
    {
        HermesHealth { reachable: false, version: None, capabilities: Vec::new() }
    }
}

/// A task as the interface lists it.
#[derive(Debug, Clone)]
pub struct Task {
    pub id: String,
    pub title: String,
    pub status: String,
    pub note_id: String,
    pub workspace: Option<String>,
    pub due: Option<String>,
    /// A task of an unmanaged note takes no mechanical write.
    pub managed: bool,
}

/// A note as the interface lists it.
#[derive(Debug, Clone)]
pub struct NoteSummary {
    pub id: String,
    pub title: String,
    pub modified_at: String,
    pub managed: bool,
}

/// The today view.
#[derive(Debug, Clone)]
pub struct TodayView {
    /// Open tasks past their due date.
    pub overdue: Vec<Task>,
    /// Tasks due today.
    pub due: Vec<Task>,
    /// Notes created or changed today.
    pub touched_notes: Vec<NoteSummary>,
}

/// Open tasks of one workspace, on the dashboard.
#[derive(Debug, Clone)]
pub struct WorkspaceSummary {
    pub name: String,
    pub open_tasks: u32,
}

/// A search result.
#[derive(Debug, Clone)]
pub struct SearchHit {
    pub note_id: String,
    pub title: String,
    /// The matching context; it goes to the interface, never to a log.
    pub snippet: String,
}

/// A workspace with its counts.
#[derive(Debug, Clone)]
pub struct Workspace {
    pub id: String,
    pub label: String,
    pub active: bool,
    pub outstanding_tasks: u32,
    pub note_count: u32,
}

/// The overview of a workspace, made only of data that exists.
#[derive(Debug, Clone)]
pub struct WorkspaceOverview {
    pub workspace_id: String,
    pub active_tasks: u32,
    pub waiting_tasks: u32,
    pub done_tasks: u32,
    /// The latest change of a note in the workspace.
    pub last_activity: Option<String>,
    /// Shown only when Hermes wrote one.
    pub priority: Option<String>,
    pub recent_notes: Vec<NoteSummary>,
    /// The nearest meeting from today on.
    pub next_meeting: Option<MeetingSummary>,
}

/// A meeting note.
#[derive(Debug, Clone)]
pub struct MeetingSummary {
    pub id: String,
    pub title: String,
    /// ISO 8601 date (the `date` frontmatter field).
    pub date: String,
    pub workspace: Option<String>,
}

/// A document the vault holds; the application only points at it.
#[derive(Debug, Clone)]
pub struct DocumentRef {
    pub id: String,
    pub source_path: String,
    pub file_name: String,
    pub extension: String,
    pub size_bytes: u32,
    pub modified_at: String,
}

/// One note in full, read-only.
#[derive(Debug, Clone)]
pub struct NoteDetail {
    pub id: String,
    pub title: String,
    pub source_path: String,
    pub managed: bool,
    pub workspace: Option<String>,
    pub kind: String,
    pub modified_at: String,
    /// The frontmatter as a JSON object text.
    pub frontmatter: String,
    pub body: String,
    pub tasks: Vec<Task>,
    pub outgoing: Vec<NoteLink>,
    pub incoming: Vec<NoteLink>,
}

/// One end of a link. A target the index does not know has no note id: a
/// broken link is still shown.
#[derive(Debug, Clone)]
pub struct NoteLink {
    pub note_id: Option<String>,
    pub title: String,
}

} // verus!
