//! The parsed note model: task states, note kinds and parsed tasks.
use vstd::prelude::*;

use crate::text::{chars_of, is_ws, lead_ws, slice_of, string_views, trail_ws, trim, trim_start, trim_v};

verus! {

/// Task state, read from the checkbox marker Obsidian and its Tasks plugin
/// actually write. An unknown marker is not a task state.
#[derive(Debug, Clone, Copy, PartialEq, Eq, Structural)]
pub enum TaskStatus {
    Open,
    InProgress,
    Deferred,
    Done,
    Cancelled,
}

/// The stable name of a task state.
pub open spec fn task_status_name(s: TaskStatus) -> Seq<char> {
    match s {
        TaskStatus::Open => "open"@,
        TaskStatus::InProgress => "in_progress"@,
        TaskStatus::Deferred => "deferred"@,
        TaskStatus::Done => "done"@,
        TaskStatus::Cancelled => "cancelled"@,
    }
}

/// The state a Markdown checkbox marker stands for.
pub open spec fn marker_status(marker: char) -> Option<TaskStatus> {
    if marker == ' ' {
        Some(TaskStatus::Open)
    } else if marker == 'x' || marker == 'X' {
        Some(TaskStatus::Done)
    } else if marker == '/' {
        Some(TaskStatus::InProgress)
    } else if marker == '>' || marker == '<' {
        Some(TaskStatus::Deferred)
    } else if marker == '-' {
        Some(TaskStatus::Cancelled)
    } else {
        None
    }
}

impl TaskStatus {
    /// The stable name stored in the index.
    pub fn as_str(self) -> (s: &'static str)
        ensures
            s@ == task_status_name(self),
    {
        match self {
            TaskStatus::Open => "open",
            TaskStatus::InProgress => "in_progress",
            TaskStatus::Deferred => "deferred",
            TaskStatus::Done => "done",
            TaskStatus::Cancelled => "cancelled",
        }
    }

    /// The state of a checkbox marker; `None` for a marker that is not one.
    pub fn from_marker(marker: char) -> (r: Option<TaskStatus>)
        ensures
            r == marker_status(marker),
    {
        match marker {
            ' ' => Some(TaskStatus::Open),
            'x' | 'X' => Some(TaskStatus::Done),
            '/' => Some(TaskStatus::InProgress),
            '>' | '<' => Some(TaskStatus::Deferred),
            '-' => Some(TaskStatus::Cancelled),
            _ => None,
        }
    }

    /// The states that still wait for work, as an SQL list.
    pub fn outstanding_sql() -> (s: &'static str)
        ensures
            s@ == "('open','in_progress','deferred')"@,
    {
        "('open','in_progress','deferred')"
    }
}

/// A task found in a note body, as plain values.
pub struct ParsedTaskView {
    pub line_number: int,
    pub title: Seq<char>,
    pub status: TaskStatus,
    pub due: Option<Seq<char>>,
}

/// A task found in a note body.
#[derive(Debug, Clone)]
pub struct ParsedTask {
    /// 1-based line number in the file, used to locate a mechanical write.
    pub line_number: u32,
    pub title: String,
    pub status: TaskStatus,
    /// ISO 8601 date (`YYYY-MM-DD`), if the line carries one.
    pub due: Option<String>,
}

/// The view of an optional string.
pub open spec fn opt_view(o: Option<String>) -> Option<Seq<char>> {
    match o {
        Some(s) => Some(s@),
        None => None,
    }
}

impl View for ParsedTask {
    type V = ParsedTaskView;

    open spec fn view(&self) -> ParsedTaskView {
        ParsedTaskView {
            line_number: self.line_number as int,
            title: self.title@,
            status: self.status,
            due: opt_view(self.due),
        }
    }
}

/// A note as the index stores it.
#[derive(Debug)]
pub struct ParsedNote {
    /// The persistent ULID from frontmatter, or a transient path identity.
    pub id: String,
    /// Whether the note carries an `arkeles_id`; only managed notes take
    /// mechanical writes.
    pub managed: bool,
    pub title: String,
    /// Location relative to the vault root; not an identity.
    pub source_path: String,
    pub frontmatter: Vec<(String, crate::json::Json)>,
    pub tasks: Vec<ParsedTask>,
    /// `[[wiki]]` targets as written.
    pub links: Vec<String>,
    /// Body copy for full-text search.
    pub body: String,
    /// Equal hashes mean the note is not re-indexed.
    pub content_hash: String,
    /// ISO 8601 UTC.
    pub modified_at: String,
    /// Canonical workspace id, `None` when it does not resolve.
    pub workspace: Option<String>,
    /// Read from frontmatter, never inferred.
    pub kind: NoteKind,
    /// Meeting date (`date` frontmatter), for meetings only.
    pub event_date: Option<String>,
}

/// The kind of a note, read from its own frontmatter (`arkeles_type`); it is
/// never inferred from title, folder or content.
#[derive(Debug, Clone, Copy, PartialEq, Eq, Structural)]
pub enum NoteKind {
    Note,
    Project,
    Meeting,
    Document,
    /// Machine records Hermes writes (life score, priority, reports): read,
    /// but never listed on human surfaces.
    System,
}

/// The stable name of a note kind.
pub open spec fn note_kind_name(k: NoteKind) -> Seq<char> {
    match k {
        NoteKind::Note => "note"@,
        NoteKind::Project => "project"@,
        NoteKind::Meeting => "meeting"@,
        NoteKind::Document => "document"@,
        NoteKind::System => "system"@,
    }
}

/// The kind an `arkeles_type` value declares; anything unknown is a note.
pub open spec fn kind_of(raw: Option<Seq<char>>) -> NoteKind {
    match raw {
        None => NoteKind::Note,
        Some(r) => {
            let t = trim(r);
            if t == "project"@ || t == "proje"@ {
                NoteKind::Project
            } else if t == "meeting"@ || t == "toplanti"@ || t == "toplantı"@ {
                NoteKind::Meeting
            } else if t == "document"@ || t == "belge"@ {
                NoteKind::Document
            } else if t == "priority"@ || t == "life_score"@ || t == "report"@ {
                NoteKind::System
            } else {
                NoteKind::Note
            }
        },
    }
}

/// A text that neither starts nor ends with whitespace is its own trim.
proof fn lemma_trim_plain(s: Seq<char>)
    requires
        s.len() > 0,
        !is_ws(s[0]),
        !is_ws(s[s.len() - 1]),
    ensures
        trim(s) == s,
{
    assert(lead_ws(s, 0) == 0);
    assert(trim_start(s) =~= s);
    assert(trail_ws(s, s.len() as int) == s.len());
    assert(trim(s) =~= s);
}

/// Law: a declared `arkeles_type` is the kind it names. Every kind but
/// `system` reads back from its own name; the Turkish names `proje`,
/// `toplanti`/`toplantı` and `belge` and the machine records `priority`,
/// `life_score` and `report` read as their kinds; surrounding whitespace
/// does not matter; no value at all is a plain note.
pub proof fn lemma_kind_names(k: NoteKind, r: Seq<char>)
    ensures
        k != NoteKind::System ==> kind_of(Some(note_kind_name(k))) == k,
        kind_of(Some(r)) == kind_of(Some(trim(r))),
        kind_of(None) == NoteKind::Note,
        kind_of(Some("proje"@)) == NoteKind::Project,
        kind_of(Some("toplanti"@)) == NoteKind::Meeting,
        kind_of(Some("toplantı"@)) == NoteKind::Meeting,
        kind_of(Some("belge"@)) == NoteKind::Document,
        kind_of(Some("priority"@)) == NoteKind::System,
        kind_of(Some("life_score"@)) == NoteKind::System,
        kind_of(Some("report"@)) == NoteKind::System,
{
    crate::text::lemma_trim_idempotent(r);
    reveal_strlit("note");
    reveal_strlit("project");
    reveal_strlit("meeting");
    reveal_strlit("document");
    reveal_strlit("proje");
    reveal_strlit("toplanti");
    reveal_strlit("toplantı");
    reveal_strlit("belge");
    reveal_strlit("priority");
    reveal_strlit("life_score");
    reveal_strlit("report");
    lemma_trim_plain("note"@);
    lemma_trim_plain("project"@);
    lemma_trim_plain("meeting"@);
    lemma_trim_plain("document"@);
    lemma_trim_plain("proje"@);
    lemma_trim_plain("toplanti"@);
    lemma_trim_plain("toplantı"@);
    lemma_trim_plain("belge"@);
    lemma_trim_plain("priority"@);
    lemma_trim_plain("life_score"@);
    lemma_trim_plain("report"@);
}

/// Character-wise equality with a literal.
pub fn eq_str(v: &Vec<char>, lit: &str) -> (b: bool)
    ensures
        b == (v@ == lit@),
{
    let l = chars_of(lit);
    if l.len() != v.len() {
        return false;
    }
    let mut i: usize = 0;
    while i < v.len()
        invariant
            l@ == lit@,
            l.len() == v.len(),
            i <= v.len(),
            forall|j: int| 0 <= j < i ==> v@[j] == l@[j],
        decreases v.len() - i,
    {
        if v[i] != l[i] {
            return false;
        }
        i += 1;
    }
    assert(v@ =~= l@);
    true
}

impl NoteKind {
    /// The stable name stored in the index.
    pub fn as_str(self) -> (s: &'static str)
        ensures
            s@ == note_kind_name(self),
    {
        match self {
            NoteKind::Note => "note",
            NoteKind::Project => "project",
            NoteKind::Meeting => "meeting",
            NoteKind::Document => "document",
            NoteKind::System => "system",
        }
    }

    /// The kind an `arkeles_type` value declares. Unknown values are notes.
    pub fn from_frontmatter(raw: Option<&str>) -> (k: NoteKind)
        ensures
            k == kind_of(
                match raw {
                    Some(r) => Some(r@),
                    None => None,
                },
            ),
    {
        match raw {
            None => NoteKind::Note,
            Some(r) => {
                let v = chars_of(r);
                let t = trim_v(&v);
                if eq_str(&t, "project") || eq_str(&t, "proje") {
                    NoteKind::Project
                } else if eq_str(&t, "meeting") || eq_str(&t, "toplanti") || eq_str(&t, "toplantı") {
                    NoteKind::Meeting
                } else if eq_str(&t, "document") || eq_str(&t, "belge") {
                    NoteKind::Document
                } else if eq_str(&t, "priority") || eq_str(&t, "life_score") || eq_str(
                    &t,
                    "report",
                ) {
                    NoteKind::System
                } else {
                    NoteKind::Note
                }
            },
        }
    }
}

} // verus!
