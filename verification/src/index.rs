//! What the index stores and how it is asked, as plain values. The index is
//! a copy derived from the vault (data flows one way, vault to index); the
//! database itself is the caller's. This module decides the rows a parsed
//! note becomes, which indexed notes are gone from the vault, and how a
//! search text becomes a safe full-text query.
use vstd::prelude::*;

use crate::json::{get, keys_unique, obj_get, Json};
use crate::text::{
    chars_of, dec, has_suffix, push_char, push_dec, push_str, same_text, string_views, trim, trim_v,
};
use crate::vault::note::{opt_view, task_status_name, ParsedNote, ParsedTask, TaskStatus};

verus! {

/// The index schema version; a different stored version rebuilds the index.
pub const SCHEMA_VERSION: i64 = 2;

/// What one scan did; reported for information, not for decisions.
#[derive(Debug, Default, Clone, Copy)]
pub struct ScanReport {
    pub scanned: usize,
    /// Notes rewritten because their hash changed.
    pub reindexed: usize,
    /// Notes skipped because their hash was the same.
    pub unchanged: usize,
    /// Notes dropped because they left the vault.
    pub removed: usize,
    /// Files that could not be read: counted, never swallowed.
    pub unreadable: usize,
    /// Index rows that could not be read.
    pub row_errors: usize,
    pub duration_ms: u64,
}

/// Where a mechanical write to a note goes. It is read from the index,
/// never taken from the interface.
#[derive(Debug, Clone)]
pub struct WriteTarget {
    pub source_path: String,
    /// An unmanaged note is read-only.
    pub managed: bool,
    /// The last content hash the index knows: the write's guard.
    pub content_hash: String,
}

/// Where a write to a task goes.
#[derive(Debug, Clone)]
pub struct TaskTarget {
    pub note: WriteTarget,
    pub line_number: u32,
    pub title: String,
    pub status: String,
}

/// A task row of the index.
#[derive(Debug, Clone)]
pub struct TaskRow {
    /// `<note id>#<line>`: derived again at every scan.
    pub id: String,
    pub note_id: String,
    pub line_number: u32,
    pub title: String,
    pub status: &'static str,
    pub workspace: Option<String>,
    pub due: Option<String>,
}

/// The rows a parsed note adds to the index besides its own.
#[derive(Debug, Clone)]
pub struct NoteRows {
    /// The `created` frontmatter string, if any.
    pub created_at: Option<String>,
    pub tasks: Vec<TaskRow>,
    /// Link targets; the same target twice is one relation.
    pub links: Vec<String>,
}

/// A frontmatter field that is a string.
pub open spec fn fm_str(fm: Seq<(String, Json)>, key: Seq<char>) -> Option<Seq<char>> {
    match obj_get(fm, key) {
        Some(Json::Str(s)) => Some(s@),
        _ => None,
    }
}

fn fm_str_exec(fm: &Vec<(String, Json)>, key: &str) -> (r: Option<String>)
    requires
        keys_unique(fm@),
    ensures
        opt_view(r) == fm_str(fm@, key@),
{
    match get(fm, key) {
        Some(Json::Str(s)) => Some(s.clone()),
        _ => None,
    }
}

/// The task row of a note's task: its due date from the task line, or the
/// note's `due` field.
pub open spec fn task_row_ok(note: ParsedNote, t: ParsedTask, r: TaskRow) -> bool {
    &&& r.id@ == note.id@ + seq!['#'] + dec(t.line_number as nat)
    &&& r.note_id@ == note.id@
    &&& r.line_number == t.line_number
    &&& r.title@ == t.title@
    &&& r.status@ == task_status_name(t.status)
    &&& opt_view(r.workspace) == opt_view(note.workspace)
    &&& opt_view(r.due) == match t.due {
        Some(d) => Some(d@),
        None => fm_str(note.frontmatter@, "due"@),
    }
}

/// The rows a note becomes.
pub fn note_rows(note: &ParsedNote) -> (r: NoteRows)
    requires
        keys_unique(note.frontmatter@),
    ensures
        opt_view(r.created_at) == fm_str(note.frontmatter@, "created"@),
        r.tasks@.len() == note.tasks@.len(),
        forall|i: int| 0 <= i < r.tasks@.len() ==> task_row_ok(*note, note.tasks@[i], #[trigger] r.tasks@[i]),
        string_views(r.links@) == string_views(note.links@),
{
    proof {
        reveal_strlit("due");
    }
    let created_at = fm_str_exec(&note.frontmatter, "created");
    let mut tasks: Vec<TaskRow> = Vec::new();
    let mut i: usize = 0;
    while i < note.tasks.len()
        invariant
            i <= note.tasks.len(),
            keys_unique(note.frontmatter@),
            tasks@.len() == i,
            forall|k: int| 0 <= k < i ==> task_row_ok(*note, note.tasks@[k], #[trigger] tasks@[k]),
        decreases note.tasks.len() - i,
    {
        let t = &note.tasks[i];
        let mut id = note.id.clone();
        push_char(&mut id, '#');
        push_dec(&mut id, t.line_number as u64);
        assert(id@ =~= note.id@ + seq!['#'] + dec(t.line_number as nat));
        let due = match &t.due {
            Some(d) => Some(d.clone()),
            None => fm_str_exec(&note.frontmatter, "due"),
        };
        let row = TaskRow {
            id,
            note_id: note.id.clone(),
            line_number: t.line_number,
            title: t.title.clone(),
            status: t.status.as_str(),
            workspace: match &note.workspace {
                Some(w) => Some(w.clone()),
                None => None,
            },
            due,
        };
        let ghost rv = row;
        let ghost before = tasks@;
        assert(task_row_ok(*note, note.tasks@[i as int], rv));
        tasks.push(row);
        proof {
            assert forall|k: int| 0 <= k < i + 1 implies task_row_ok(
                *note,
                note.tasks@[k],
                #[trigger] tasks@[k],
            ) by {
                if k < i {
                    assert(tasks@[k] == before[k]);
                } else {
                    assert(tasks@[k] == rv);
                }
            }
        }
        i += 1;
    }
    let mut links: Vec<String> = Vec::new();
    let mut k: usize = 0;
    while k < note.links.len()
        invariant
            k <= note.links.len(),
            string_views(links@) == string_views(note.links@).subrange(0, k as int),
        decreases note.links.len() - k,
    {
        let ghost before = string_views(links@);
        let l = note.links[k].clone();
        links.push(l);
        assert(string_views(links@) =~= before.push(note.links@[k as int]@));
        k += 1;
        assert(string_views(links@) =~= string_views(note.links@).subrange(0, k as int));
    }
    assert(string_views(note.links@).subrange(0, k as int) =~= string_views(note.links@));
    NoteRows { created_at, tasks, links }
}

/// The hash the index holds for a path: that of the last row with the path,
/// as a map keyed by path keeps it.
pub open spec fn indexed_hash(rows: Seq<(String, String)>, path: Seq<char>) -> Option<Seq<char>>
    decreases rows.len(),
{
    if rows.len() == 0 {
        None
    } else if rows.last().0@ == path {
        Some(rows.last().1@)
    } else {
        indexed_hash(rows.drop_last(), path)
    }
}

/// A file read by the scan is written to the index when it is new to the
/// index or its content hash changed; an unchanged file is not touched.
pub open spec fn needs_write(rows: Seq<(String, String)>, file: (String, String)) -> bool {
    indexed_hash(rows, file.0@) != Some(file.1@)
}

/// The paths of the files that could be read, in scan order.
pub open spec fn seen_spec(read: Seq<Option<(String, String)>>) -> Seq<Seq<char>>
    decreases read.len(),
{
    if read.len() == 0 {
        Seq::empty()
    } else {
        let prev = seen_spec(read.drop_last());
        match read.last() {
            Some(f) => prev.push(f.0@),
            None => prev,
        }
    }
}

/// The files that could not be read.
pub open spec fn unreadable_spec(read: Seq<Option<(String, String)>>) -> nat
    decreases read.len(),
{
    if read.len() == 0 {
        0
    } else {
        unreadable_spec(read.drop_last()) + if read.last() is None { 1nat } else { 0nat }
    }
}

/// What a full scan writes, decided from what it read.
#[derive(Debug)]
pub struct ScanPlan {
    /// Positions, in scan order, of the read files to write to the index.
    pub upsert: Vec<usize>,
    /// The paths the scan saw; indexed notes not among them left the vault.
    pub seen: Vec<String>,
    /// The counts so far; the caller adds the removals and the time.
    pub report: ScanReport,
}

/// The last index row with this path, if any.
fn last_row_of(rows: &Vec<(String, String)>, path: &str) -> (r: Option<usize>)
    ensures
        r is None ==> indexed_hash(rows@, path@) is None,
        r matches Some(k) ==> k < rows.len() && indexed_hash(rows@, path@) == Some(rows@[k as int].1@),
{
    let mut k: usize = rows.len();
    assert(rows@.take(k as int) =~= rows@);
    while k > 0
        invariant
            k <= rows.len(),
            indexed_hash(rows@, path@) == indexed_hash(rows@.take(k as int), path@),
        decreases k,
    {
        let ghost t = rows@.take(k as int);
        assert(t.drop_last() =~= rows@.take(k - 1));
        assert(t.last() == rows@[k - 1]);
        if same_text(rows[k - 1].0.as_str(), path) {
            return Some(k - 1);
        }
        k -= 1;
    }
    None
}

/// Plans a full scan. `indexed` holds the (path, hash) rows of the index;
/// `read` holds, for each Markdown file the scan found, its (path, hash), or
/// `None` when it could not be read. A file is written when it is new or its
/// hash differs from the indexed one; an unchanged file is skipped, an
/// unreadable one counted.
pub fn plan_scan(indexed: &Vec<(String, String)>, read: &Vec<Option<(String, String)>>) -> (plan: ScanPlan)
    ensures
        forall|i: int|
            #![trigger read@[i]]
            0 <= i < read.len() ==> (plan.upsert@.contains(i as usize) <==> (read@[i] matches Some(
                f,
            ) && needs_write(indexed@, f))),
        forall|a: int, b: int|
            0 <= a < b < plan.upsert.len() ==> plan.upsert@[a] < plan.upsert@[b],
        forall|a: int| 0 <= a < plan.upsert.len() ==> plan.upsert@[a] < read.len(),
        string_views(plan.seen@) == seen_spec(read@),
        plan.report.scanned == read.len(),
        plan.report.reindexed == plan.upsert.len(),
        plan.report.unchanged + plan.upsert.len() == plan.seen.len(),
        plan.report.unreadable == unreadable_spec(read@),
        plan.report.removed == 0,
        plan.report.row_errors == 0,
        plan.report.duration_ms == 0,
{
    let mut upsert: Vec<usize> = Vec::new();
    let mut seen: Vec<String> = Vec::new();
    let mut unreadable: usize = 0;
    let mut i: usize = 0;
    while i < read.len()
        invariant
            i <= read.len(),
            forall|j: int|
                #![trigger read@[j]]
                0 <= j < i ==> (upsert@.contains(j as usize) <==> (read@[j] matches Some(f)
                    && needs_write(indexed@, f))),
            forall|a: int, b: int| 0 <= a < b < upsert.len() ==> upsert@[a] < upsert@[b],
            forall|a: int| 0 <= a < upsert.len() ==> upsert@[a] < i,
            string_views(seen@) == seen_spec(read@.take(i as int)),
            unreadable == unreadable_spec(read@.take(i as int)),
            unreadable <= i,
            upsert.len() <= seen.len(),
        decreases read.len() - i,
    {
        let ghost t = read@.take(i as int + 1);
        let ghost old_up = upsert@;
        proof {
            assert(t.drop_last() =~= read@.take(i as int));
            assert(t.last() == read@[i as int]);
        }
        match &read[i] {
            None => {
                unreadable += 1;
            },
            Some(f) => {
                let w = match last_row_of(indexed, f.0.as_str()) {
                    None => true,
                    Some(k) => !same_text(indexed[k].1.as_str(), f.1.as_str()),
                };
                assert(w == needs_write(indexed@, *f));
                if w {
                    upsert.push(i);
                }
                seen.push(f.0.clone());
                assert(string_views(seen@) =~= seen_spec(read@.take(i as int)).push(f.0@));
            },
        }
        proof {
            assert(upsert@ == old_up || upsert@ == old_up.push(i));
            assert(upsert@.contains(i) <==> (read@[i as int] matches Some(f) && needs_write(indexed@, f))) by {
                if upsert@.contains(i) {
                    if upsert@ == old_up {
                        let a = old_up.index_of(i);
                        assert(old_up[a] < i);
                    }
                }
                if upsert@ == old_up.push(i) {
                    assert(upsert@[old_up.len() as int] == i);
                }
            }
            assert forall|j: int|
                #![trigger read@[j]]
                0 <= j < i implies (upsert@.contains(j as usize) <==> old_up.contains(j as usize)) by {
                if upsert@ == old_up.push(i) {
                    if upsert@.contains(j as usize) {
                        let a = upsert@.index_of(j as usize);
                        if a < old_up.len() {
                            assert(old_up[a] == j);
                        }
                    }
                    if old_up.contains(j as usize) {
                        let a = old_up.index_of(j as usize);
                        assert(upsert@[a] == j);
                    }
                }
            }
        }
        i += 1;
    }
    proof {
        assert(read@.take(read.len() as int) =~= read@);
    }
    let report = ScanReport {
        scanned: read.len(),
        reindexed: upsert.len(),
        unchanged: seen.len() - upsert.len(),
        removed: 0,
        unreadable,
        row_errors: 0,
        duration_ms: 0,
    };
    ScanPlan { upsert, seen, report }
}

/// The (path, hash) rows a scan writes for what it read, in scan order.
pub open spec fn written_rows(read: Seq<Option<(String, String)>>) -> Seq<(String, String)>
    decreases read.len(),
{
    if read.len() == 0 {
        Seq::empty()
    } else {
        let prev = written_rows(read.drop_last());
        match read.last() {
            Some(f) => prev.push(f),
            None => prev,
        }
    }
}

/// Scanning again what a scan just indexed rewrites nothing: when every
/// file read has its own path, each one's hash is the indexed one.
pub proof fn lemma_rescan_writes_nothing(read: Seq<Option<(String, String)>>)
    requires
        forall|a: int, b: int|
            #![trigger read[a], read[b]]
            0 <= a < b < read.len() && read[a] is Some && read[b] is Some ==> (read[a]->0).0@
                != (read[b]->0).0@,
    ensures
        forall|i: int|
            #![trigger read[i]]
            0 <= i < read.len() && read[i] is Some ==> !needs_write(written_rows(read), read[i]->0),
    decreases read.len(),
{
    if read.len() > 0 {
        let p = read.drop_last();
        assert forall|a: int, b: int|
            #![trigger p[a], p[b]]
            0 <= a < b < p.len() && p[a] is Some && p[b] is Some implies (p[a]->0).0@ != (p[b]->0).0@ by {
            assert(p[a] == read[a] && p[b] == read[b]);
        }
        lemma_rescan_writes_nothing(p);
        let rows = written_rows(p);
        let n = read.len() - 1;
        assert forall|i: int|
            #![trigger read[i]]
            0 <= i < read.len() && read[i] is Some implies !needs_write(written_rows(read), read[i]->0) by {
            let f = read[i]->0;
            if i < n {
                assert(p[i] == read[i]);
                assert(!needs_write(rows, f));
                if read[n] is Some {
                    let g = read[n]->0;
                    assert(written_rows(read) == rows.push(g));
                    assert(rows.push(g).drop_last() =~= rows);
                    assert(f.0@ != g.0@);
                }
            } else {
                assert(written_rows(read) == rows.push(f));
            }
        }
    }
}

/// The indexed paths that the scan did not see, in index order: the notes
/// that left the vault.
pub open spec fn missing_spec(indexed: Seq<Seq<char>>, seen: Seq<Seq<char>>) -> Seq<Seq<char>> {
    indexed.filter(|p: Seq<char>| !seen.contains(p))
}

/// The indexed paths that are gone from the vault.
pub fn missing_paths(indexed: &Vec<String>, seen: &Vec<String>) -> (r: Vec<String>)
    ensures
        string_views(r@) == missing_spec(string_views(indexed@), string_views(seen@)),
{
    let ghost iv = string_views(indexed@);
    let ghost sv = string_views(seen@);
    let ghost f = |p: Seq<char>| !sv.contains(p);
    let mut out: Vec<String> = Vec::new();
    let mut i: usize = 0;
    while i < indexed.len()
        invariant
            i <= indexed.len(),
            iv == string_views(indexed@),
            sv == string_views(seen@),
            f == (|p: Seq<char>| !sv.contains(p)),
            string_views(out@) == iv.subrange(0, i as int).filter(f),
        decreases indexed.len() - i,
    {
        proof {
            let a = iv.subrange(0, i as int);
            assert(iv.subrange(0, i + 1) =~= a.push(iv[i as int]));
            reveal(Seq::filter);
            assert(a.push(iv[i as int]).drop_last() =~= a);
        }
        let p = chars_of(indexed[i].as_str());
        if !crate::vault::links::holds(seen, &p) {
            out.push(indexed[i].clone());
            assert(string_views(out@) =~= iv.subrange(0, i as int).filter(f).push(iv[i as int]));
        } else {
            assert(string_views(out@) =~= iv.subrange(0, i + 1).filter(f));
        }
        i += 1;
    }
    assert(iv.subrange(0, iv.len() as int) =~= iv);
    out
}

/// A search text as a full-text query: trimmed, double quotes turned into
/// spaces, quoted as one phrase and matched as a prefix. The user's text can
/// never act as a query operator. Blank text searches nothing.
pub open spec fn fts_spec(query: Seq<char>) -> Option<Seq<char>> {
    let t = trim(query);
    if t.len() == 0 {
        None
    } else {
        Some(seq!['"'] + t.map_values(|c: char| if c == '"' {
            ' '
        } else {
            c
        }) + seq!['"', '*'])
    }
}

/// Builds the full-text query for a search text.
pub fn fts_query(query: &str) -> (r: Option<String>)
    ensures
        opt_view(r) == fts_spec(query@),
{
    let t = trim_v(&chars_of(query));
    if t.len() == 0 {
        return None;
    }
    let mut s = String::new();
    push_char(&mut s, '"');
    let mut i: usize = 0;
    while i < t.len()
        invariant
            i <= t.len(),
            s@ == seq!['"'] + t@.subrange(0, i as int).map_values(|c: char| if c == '"' {
                ' '
            } else {
                c
            }),
        decreases t.len() - i,
    {
        let c = t[i];
        push_char(&mut s, if c == '"' {
            ' '
        } else {
            c
        });
        i += 1;
        assert(s@ =~= seq!['"'] + t@.subrange(0, i as int).map_values(|c: char| if c == '"' {
            ' '
        } else {
            c
        }));
    }
    push_char(&mut s, '"');
    push_char(&mut s, '*');
    assert(t@.subrange(0, t@.len() as int) =~= t@);
    Some(s)
}

/// The name other notes may link a note by, besides its title: its file
/// name without every trailing `.md`.
pub open spec fn link_stem_spec(source_path: Seq<char>) -> Seq<char>
    decreases source_path.len(),
{
    let name = after_last_slash(source_path, source_path.len() as int);
    strip_md(name)
}

/// What follows the last `/` before `j`.
pub open spec fn after_last_slash(s: Seq<char>, j: int) -> Seq<char>
    decreases j,
{
    if j <= 0 || j > s.len() {
        s
    } else if s[j - 1] == '/' {
        s.subrange(j, s.len() as int)
    } else {
        after_last_slash(s, j - 1)
    }
}

/// Every trailing `.md` removed.
pub open spec fn strip_md(s: Seq<char>) -> Seq<char>
    decreases s.len(),
{
    if has_suffix(s, seq!['.', 'm', 'd']) {
        strip_md(s.subrange(0, s.len() - 3))
    } else {
        s
    }
}

/// The stem incoming links are matched against.
pub fn link_stem(source_path: &str) -> (r: String)
    ensures
        r@ == link_stem_spec(source_path@),
{
    let v = chars_of(source_path);
    let mut j = v.len();
    while j > 0 && v[j - 1] != '/'
        invariant
            j <= v.len(),
            after_last_slash(v@, v@.len() as int) == after_last_slash(v@, j as int),
        decreases j,
    {
        j -= 1;
    }
    let start = if j == 0 {
        0
    } else {
        j
    };
    let mut end = v.len();
    assert(after_last_slash(v@, j as int) =~= v@.subrange(start as int, v@.len() as int));
    while end - start >= 3 && v[end - 3] == '.' && v[end - 2] == 'm' && v[end - 1] == 'd'
        invariant
            start <= end <= v.len(),
            strip_md(v@.subrange(start as int, v@.len() as int)) == strip_md(
                v@.subrange(start as int, end as int),
            ),
        decreases end,
    {
        proof {
            let s = v@.subrange(start as int, end as int);
            assert(s.subrange(s.len() - 3, s.len() as int) =~= seq!['.', 'm', 'd']);
            assert(s.subrange(0, s.len() - 3) =~= v@.subrange(start as int, end - 3));
        }
        end -= 3;
    }
    proof {
        let s = v@.subrange(start as int, end as int);
        if has_suffix(s, seq!['.', 'm', 'd']) {
            assert(s.subrange(s.len() - 3, s.len() as int)[0] == v@[end - 3]);
            assert(s.subrange(s.len() - 3, s.len() as int)[1] == v@[end - 2]);
            assert(s.subrange(s.len() - 3, s.len() as int)[2] == v@[end - 1]);
        }
    }
    crate::text::string_of_range(&v, start, end)
}

} // verus!
