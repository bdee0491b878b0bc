//! Mechanical writes: a checkbox, a frontmatter field, a tag, the order of
//! lines, a raw line in the inbox. Nothing here creates a note or gives text
//! a meaning; that is Hermes's work.
//!
//! Every write is guarded by the version of the file the caller read: when
//! the file's hash differs, nothing is written and the answer is a conflict.
//! Every write changes only its target region; line endings, BOM, indentation,
//! YAML order and the body are kept byte for byte. Reading and writing the
//! file (atomically) is the caller's part; these functions take the bytes
//! read and give the text to write.
use vstd::prelude::*;

use crate::error::CoreError;
use crate::json::{get, keys_unique, obj_get, Json, Yaml};
use crate::vault::frontmatter::{fm_spec, frame, frame_spec, frontmatter_map};
use crate::vault::reader::yaml_text;
use vstd::string::StringSliceAdditionalSpecFns;
use crate::text::{
    chars_of, concat, has_prefix, has_suffix, lead_ws, lead_ws_from, lemma_concat_pieces,
    lemma_lead_ws_agree, lemma_lead_ws_bounds, lemma_pieces_of_concat, lemma_pieces_wf, piece_ok,
    pieces, pieces_v, push_all, same_text, slice_of, string_of, views,
};
use crate::vault::frontmatter::{
    after_opening, after_opening_exec, closing_from, fence, join_pieces, strip_eol, strip_eol_exec,
};
use crate::vault::note::{eq_str, marker_status, TaskStatus};
use crate::vault::reader::{content_hash_spec, decode_lossy, hash, utf8_lossy};
use crate::vault::tasks::{clean_title_spec, title_from_rest};

verus! {

/// The version of a file that the caller read. A write carries it; there is
/// no "write whatever is there".
#[derive(Debug, Clone)]
pub struct WriteGuard {
    pub expected_hash: String,
    /// Unix milliseconds. The hash decides; the time is only a signal.
    pub expected_mtime_ms: Option<u64>,
}

/// The new version of a file after a write.
#[derive(Debug, Clone)]
pub struct WriteResult {
    pub new_hash: String,
    pub new_mtime_ms: u64,
}

/// The view of the bytes read, `None` when the file could not be read.
pub open spec fn bytes_view(o: Option<&[u8]>) -> Option<Seq<u8>> {
    match o {
        Some(b) => Some(b@),
        None => None,
    }
}

/// The view of a text result.
pub open spec fn result_view(r: Result<String, CoreError>) -> Result<Seq<char>, CoreError> {
    match r {
        Ok(s) => Ok(s@),
        Err(e) => Err(e),
    }
}

/// Bytes that are valid UTF-8 are read as exactly their text.
pub open spec fn lossless(current: Option<Seq<u8>>) -> bool {
    match current {
        Some(b) => vstd::utf8::valid_utf8(b) ==> utf8_lossy(b) == vstd::utf8::decode_utf8(b),
        None => true,
    }
}

/// The text a guarded write works on: the file must still be there and its
/// hash must be the one the caller read.
pub open spec fn guard_spec(current: Option<Seq<u8>>, expected_hash: Seq<char>) -> Result<Seq<char>, CoreError> {
    match current {
        None => Err(CoreError::Conflict),
        Some(b) => if content_hash_spec(b) == expected_hash {
            Ok(utf8_lossy(b))
        } else {
            Err(CoreError::Conflict)
        },
    }
}

/// Checks the bytes read against the expected version and decodes them. A
/// missing file is a conflict too: what the caller read is gone.
pub fn verify(current: Option<&[u8]>, guard: &WriteGuard) -> (r: Result<String, CoreError>)
    ensures
        result_view(r) == guard_spec(bytes_view(current), guard.expected_hash@),
        r is Ok ==> lossless(bytes_view(current)),
{
    match current {
        None => Err(CoreError::Conflict),
        Some(b) => {
            let h = hash(b);
            if !same_text(h.as_str(), guard.expected_hash.as_str()) {
                return Err(CoreError::Conflict);
            }
            Ok(decode_lossy(b))
        },
    }
}

/// The new version after writing `content` at a given modification time.
pub fn write_result(content: &str, mtime_ms: u64) -> (r: WriteResult)
    ensures
        r.new_hash@ == content_hash_spec(content.spec_bytes()),
        r.new_mtime_ms == mtime_ms,
{
    WriteResult { new_hash: hash(content.as_bytes()), new_mtime_ms: mtime_ms }
}

/// A `..` segment in a `/`-separated path.
pub open spec fn has_parent_segment(p: Seq<char>) -> bool {
    exists|i: int|
        0 <= i && i + 2 <= p.len() && #[trigger] p[i] == '.' && p[i + 1] == '.' && (i == 0 || p[i
            - 1] == '/') && (i + 2 == p.len() || p[i + 2] == '/')
}

/// A vault-relative path that may be written: not empty, not absolute, and
/// never climbing out with `..`.
pub open spec fn path_allowed(p: Seq<char>) -> bool {
    p.len() > 0 && p[0] != '/' && !has_parent_segment(p)
}

/// Refuses a path that could leave the vault. (Symbolic links are checked
/// by the caller against the real file system.)
pub fn check_source_path(source_path: &str) -> (r: Result<(), CoreError>)
    ensures
        r is Ok <==> path_allowed(source_path@),
        r is Err ==> r == Err::<(), CoreError>(CoreError::PathOutsideVault),
{
    let p = chars_of(source_path);
    if p.len() == 0 || p[0] == '/' {
        return Err(CoreError::PathOutsideVault);
    }
    let mut i: usize = 0;
    while i < p.len() && p.len() - i >= 2
        invariant
            p@ == source_path@,
            i <= p.len(),
            forall|k: int|
                0 <= k < i ==> !(k + 2 <= p@.len() && #[trigger] p@[k] == '.' && p@[k + 1] == '.'
                    && (k == 0 || p@[k - 1] == '/') && (k + 2 == p@.len() || p@[k + 2] == '/')),
        decreases p.len() - i,
    {
        if p[i] == '.' && p[i + 1] == '.' && (i == 0 || p[i - 1] == '/') && (p.len() - i == 2
            || p[i + 2] == '/') {
            return Err(CoreError::PathOutsideVault);
        }
        i += 1;
    }
    proof {
        if has_parent_segment(p@) {
            let k = choose|k: int|
                0 <= k && k + 2 <= p@.len() && #[trigger] p@[k] == '.' && p@[k + 1] == '.' && (k
                    == 0 || p@[k - 1] == '/') && (k + 2 == p@.len() || p@[k + 2] == '/');
            assert(k < i);
        }
    }
    Ok(())
}

// ---------------------------------------------------------------------------
// Task state
// ---------------------------------------------------------------------------

/// A line split from its ending; CRLF and LF are kept as they were.
pub open spec fn split_eol(l: Seq<char>) -> (Seq<char>, Seq<char>) {
    if has_suffix(l, seq!['\r', '\n']) {
        (l.subrange(0, l.len() - 2), seq!['\r', '\n'])
    } else if has_suffix(l, seq!['\n']) {
        (l.drop_last(), seq!['\n'])
    } else {
        (l, Seq::empty())
    }
}

/// The index of the state marker in a checkbox line: after an optional BOM,
/// indentation, a bullet (`- `, `* `, `+ `), more blanks and `[`, a known
/// marker followed by `]`.
pub open spec fn checkbox_pos(line: Seq<char>) -> Option<int> {
    let b: int = if line.len() > 0 && line[0] == '\u{feff}' {
        1
    } else {
        0
    };
    let i = lead_ws(line, b);
    if i + 2 <= line.len() && (line[i] == '-' || line[i] == '*' || line[i] == '+') && line[i + 1]
        == ' ' {
        let j = lead_ws(line, i + 2);
        if j + 3 <= line.len() && line[j] == '[' && line[j + 2] == ']' && marker_status(
            line[j + 1],
        ) is Some {
            Some(j + 1)
        } else {
            None
        }
    } else {
        None
    }
}

/// A checkbox only turns two ways: done is `x`, anything else is open.
pub open spec fn new_marker(st: TaskStatus) -> char {
    match st {
        TaskStatus::Done => 'x',
        _ => ' ',
    }
}

/// The line with its marker set, when it is a checkbox whose title (cleaned
/// as the parser cleans it) is the expected one. Everything but the marker
/// is kept.
pub open spec fn rewrite_checkbox_spec(line: Seq<char>, expected: Seq<char>, st: TaskStatus) -> Option<Seq<char>> {
    match checkbox_pos(line) {
        Some(p) => if clean_title_spec(line.subrange(p + 2, line.len() as int)) == expected {
            Some(line.update(p, new_marker(st)))
        } else {
            None
        },
        None => None,
    }
}

/// The content after setting the task on a 1-based line: only that line's
/// marker changes.
pub open spec fn task_status_spec(content: Seq<char>, line_number: int, expected: Seq<char>, st: TaskStatus) -> Result<Seq<char>, CoreError> {
    let ps = pieces(content);
    if line_number < 1 || line_number - 1 >= ps.len() {
        Err(CoreError::TargetMismatch)
    } else {
        let i = line_number - 1;
        let (b, e) = split_eol(ps[i]);
        match rewrite_checkbox_spec(b, expected, st) {
            Some(r) => Ok(concat(ps.update(i, r + e))),
            None => Err(CoreError::TargetMismatch),
        }
    }
}

/// A line is its body and its ending.
proof fn lemma_split_eol(l: Seq<char>)
    ensures
        l =~= split_eol(l).0 + split_eol(l).1,
{
}

/// Where a checkbox's marker stands: after at least a bullet, with its
/// closing `]` after it.
proof fn lemma_checkbox_pos(line: Seq<char>)
    requires
        checkbox_pos(line) is Some,
    ensures
        3 <= checkbox_pos(line)->0 && checkbox_pos(line)->0 + 1 < line.len(),
        marker_status(line[checkbox_pos(line)->0]) is Some,
{
    let b: int = if line.len() > 0 && line[0] == '\u{feff}' {
        1
    } else {
        0
    };
    lemma_lead_ws_bounds(line, b);
    let i = lead_ws(line, b);
    lemma_lead_ws_bounds(line, i + 2);
}

/// Setting the marker a checkbox line already has keeps it a checkbox at
/// the same place, with the same title.
proof fn lemma_checkbox_rewritten(b: Seq<char>, expected: Seq<char>, st: TaskStatus)
    requires
        rewrite_checkbox_spec(b, expected, st) is Some,
    ensures
        rewrite_checkbox_spec(rewrite_checkbox_spec(b, expected, st)->0, expected, st)
            == rewrite_checkbox_spec(b, expected, st),
{
    let p = checkbox_pos(b)->0;
    lemma_checkbox_pos(b);
    let r = b.update(p, new_marker(st));
    let bom: int = if b.len() > 0 && b[0] == '\u{feff}' {
        1
    } else {
        0
    };
    assert(r[0] == b[0]);
    lemma_lead_ws_bounds(b, bom);
    let i = lead_ws(b, bom);
    lemma_lead_ws_bounds(b, i + 2);
    let j = lead_ws(b, i + 2);
    assert(j + 1 == p);
    lemma_lead_ws_agree(b, r, bom, p);
    assert(r[i] == b[i] && r[i + 1] == b[i + 1]);
    lemma_lead_ws_agree(b, r, i + 2, p);
    assert(r[j] == b[j] && r[j + 2] == b[j + 2]);
    assert(r[p] == new_marker(st));
    assert(checkbox_pos(r) == Some(p));
    assert(r.subrange(p + 2, r.len() as int) =~= b.subrange(p + 2, b.len() as int));
    assert(r.update(p, new_marker(st)) =~= r);
}

/// Law: setting a task to the state it was just set to changes nothing.
/// Read back under a fresh guard, the written text gives itself again.
#[verifier::spinoff_prover]
pub proof fn lemma_task_status_repeat(content: Seq<char>, line_number: int, expected: Seq<char>, st: TaskStatus)
    requires
        task_status_spec(content, line_number, expected, st) is Ok,
    ensures
        task_status_spec(
            task_status_spec(content, line_number, expected, st)->Ok_0,
            line_number,
            expected,
            st,
        ) == task_status_spec(content, line_number, expected, st),
{
    let ps = pieces(content);
    let i = line_number - 1;
    let l = ps[i];
    let b = split_eol(l).0;
    let e = split_eol(l).1;
    lemma_split_eol(l);
    let p = checkbox_pos(b)->0;
    lemma_checkbox_pos(b);
    let r = b.update(p, new_marker(st));
    let q = r + e;
    let qs = ps.update(i, q);
    lemma_pieces_wf(content);
    assert(piece_ok(l));
    // the new line has its line ends where the old one had them
    assert(q.len() == l.len());
    assert forall|k: int| 0 <= k < q.len() && k != p implies q[k] == l[k] by {
        if k < b.len() {
            assert(q[k] == r[k] && l[k] == b[k]);
        } else {
            assert(q[k] == e[k - b.len()] && l[k] == e[k - b.len()]);
        }
    }
    assert(q[p] == new_marker(st) && q[p] != '\n');
    assert(q.last() == l.last());
    assert(piece_ok(q));
    assert forall|k: int| 0 <= k < qs.len() implies piece_ok(#[trigger] qs[k]) by {
        if k != i {
            assert(qs[k] == ps[k]);
        }
    }
    assert forall|k: int| 0 <= k < qs.len() - 1 implies (#[trigger] qs[k]).last() == '\n' by {
        if k != i {
            assert(qs[k] == ps[k]);
        } else {
            assert(ps[k].last() == '\n');
        }
    }
    lemma_pieces_of_concat(qs);
    // the new line splits into the new body and the old ending
    assert(r.last() == b.last());
    if has_suffix(l, seq!['\r', '\n']) {
        assert(q.subrange(q.len() - 2, q.len() as int) =~= seq!['\r', '\n']);
        assert(q.subrange(0, q.len() - 2) =~= r);
    } else if has_suffix(l, seq!['\n']) {
        assert(e =~= seq!['\n']);
        assert(l.subrange(l.len() - 2, l.len() as int) =~= seq![b.last(), '\n']);
        assert(q.subrange(q.len() - 2, q.len() as int) =~= seq![r.last(), '\n']);
        assert(q.subrange(q.len() - 1, q.len() as int) =~= seq!['\n']);
        assert(q.drop_last() =~= r);
    } else {
        assert(e.len() == 0);
        assert(q =~= r);
        assert(l.subrange(l.len() - 1, l.len() as int) =~= seq![l.last()]);
        assert(q.last() != '\n');
        if has_suffix(q, seq!['\r', '\n']) {
            assert(q.subrange(q.len() - 2, q.len() as int)[1] == q.last());
        }
        if has_suffix(q, seq!['\n']) {
            assert(q.subrange(q.len() - 1, q.len() as int)[0] == q.last());
        }
    }
    assert(split_eol(q) == (r, e));
    lemma_checkbox_rewritten(b, expected, st);
    assert(qs.update(i, r + e) =~= qs);
}

fn split_eol_exec(l: &Vec<char>) -> (r: (Vec<char>, Vec<char>))
    ensures
        (r.0@, r.1@) == split_eol(l@),
{
    let n = l.len();
    if n >= 2 && l[n - 2] == '\r' && l[n - 1] == '\n' {
        let e = vec!['\r', '\n'];
        assert(l@.subrange(n - 2, n as int) =~= seq!['\r', '\n']);
        assert(e@ =~= seq!['\r', '\n']);
        (slice_of(l, 0, n - 2), e)
    } else if n >= 1 && l[n - 1] == '\n' {
        let e = vec!['\n'];
        assert(l@.subrange(n - 1, n as int) =~= seq!['\n']);
        assert(e@ =~= seq!['\n']);
        assert(l@.drop_last() =~= l@.subrange(0, n - 1));
        (slice_of(l, 0, n - 1), e)
    } else {
        proof {
            if has_suffix(l@, seq!['\r', '\n']) {
                assert(l@.subrange(n - 2, n as int)[1] == l@[n - 1]);
            }
            if has_suffix(l@, seq!['\n']) {
                assert(l@.subrange(n - 1, n as int)[0] == l@[n - 1]);
            }
        }
        (crate::text::copy(l), Vec::new())
    }
}

fn checkbox_pos_exec(l: &Vec<char>) -> (r: Option<usize>)
    ensures
        match r {
            Some(p) => checkbox_pos(l@) == Some(p as int) && p + 2 <= l.len(),
            None => checkbox_pos(l@) is None,
        },
{
    let b: usize = if l.len() > 0 && l[0] == '\u{feff}' {
        1
    } else {
        0
    };
    let i = lead_ws_from(l, b);
    if i < l.len() && l.len() - i >= 2 && (l[i] == '-' || l[i] == '*' || l[i] == '+') && l[i + 1]
        == ' ' {
        let j = lead_ws_from(l, i + 2);
        if j < l.len() && l.len() - j >= 3 && l[j] == '[' && l[j + 2] == ']'
            && TaskStatus::from_marker(l[j + 1]).is_some() {
            Some(j + 1)
        } else {
            None
        }
    } else {
        None
    }
}

/// Sets the marker of a checkbox line, or `None` when the line is not a
/// checkbox or its title is not the expected one.
pub fn rewrite_checkbox(line: &str, expected_title: &str, new_status: TaskStatus) -> (r: Option<String>)
    ensures
        match r {
            Some(s) => rewrite_checkbox_spec(line@, expected_title@, new_status) == Some(s@),
            None => rewrite_checkbox_spec(line@, expected_title@, new_status) is None,
        },
{
    let v = chars_of(line);
    match rewrite_checkbox_chars(&v, expected_title, new_status) {
        Some(r) => Some(string_of(&r)),
        None => None,
    }
}

fn rewrite_checkbox_chars(v: &Vec<char>, expected_title: &str, new_status: TaskStatus) -> (r: Option<Vec<char>>)
    ensures
        match r {
            Some(s) => rewrite_checkbox_spec(v@, expected_title@, new_status) == Some(s@),
            None => rewrite_checkbox_spec(v@, expected_title@, new_status) is None,
        },
{
    let p = match checkbox_pos_exec(v) {
        Some(p) => p,
        None => {
            return None;
        },
    };
    let after = string_of(&slice_of(v, p + 2, v.len()));
    let title = title_from_rest(after.as_str());
    if !same_text(title.as_str(), expected_title) {
        return None;
    }
    let mut out = crate::text::copy(v);
    let m = match new_status {
        TaskStatus::Done => 'x',
        _ => ' ',
    };
    out.set(p, m);
    Some(out)
}

/// Sets the state of the task on `line_number` (1-based) in the bytes read.
///
/// The line number is not trusted alone: the line must be a checkbox whose
/// title is `expected_title`. A checkbox turns two ways only: `Done` writes
/// `[x]`, any other state `[ ]`. On success the text to write is returned.
pub fn set_task_status(
    current: Option<&[u8]>,
    guard: &WriteGuard,
    line_number: u32,
    expected_title: &str,
    new_status: TaskStatus,
) -> (r: Result<String, CoreError>)
    ensures
        result_view(r) == match guard_spec(bytes_view(current), guard.expected_hash@) {
            Err(e) => Err(e),
            Ok(c) => task_status_spec(c, line_number as int, expected_title@, new_status),
        },
        r is Ok ==> lossless(bytes_view(current)),
{
    let content = match verify(current, guard) {
        Ok(c) => c,
        Err(e) => {
            return Err(e);
        },
    };
    let cv = chars_of(content.as_str());
    let mut ps = pieces_v(&cv);
    if line_number < 1 || (line_number - 1) as usize >= ps.len() {
        return Err(CoreError::TargetMismatch);
    }
    let i = (line_number - 1) as usize;
    assert(views(ps@)[i as int] == ps@[i as int]@);
    let (body, eol) = split_eol_exec(&ps[i]);
    let rewritten = match rewrite_checkbox_chars(&body, expected_title, new_status) {
        Some(r) => r,
        None => {
            return Err(CoreError::TargetMismatch);
        },
    };
    let mut piece = rewritten;
    let mut e = eol;
    let ghost rv = piece@;
    piece.append(&mut e);
    let ghost old_views = views(ps@);
    ps.set(i, piece);
    assert(views(ps@) =~= old_views.update(i as int, rv + split_eol(old_views[i as int]).1));
    assert(views(ps@).subrange(0, ps@.len() as int) =~= views(ps@));
    Ok(join_pieces(&ps, 0, ps.len()))
}

proof fn lemma_lead_ws_update(s: Seq<char>, p: int, c: char, i: int)
    requires
        0 <= i,
        lead_ws(s, i) < p < s.len(),
    ensures
        lead_ws(s.update(p, c), i) == lead_ws(s, i),
    decreases s.len() - i,
{
    if 0 <= i < s.len() && crate::text::is_ws(s[i]) {
        lemma_lead_ws_update(s, p, c, i + 1);
    }
    if i < s.len() {
        lemma_lead_ws_bounds(s, i);
        assert(s.update(p, c)[i] == s[i]);
    }
}

/// Setting a task's state keeps it the same checkbox with the same title,
/// so a later write sees the line as the first write left it: setting it
/// again to any state gives what setting the original line would have
/// given. In particular, marking an open task done and then open again
/// gives back the original line.
pub proof fn lemma_checkbox_rewrite_stable(line: Seq<char>, title: Seq<char>, first: TaskStatus, second: TaskStatus)
    requires
        rewrite_checkbox_spec(line, title, first) is Some,
    ensures
        checkbox_pos(rewrite_checkbox_spec(line, title, first)->0) == checkbox_pos(line),
        rewrite_checkbox_spec(rewrite_checkbox_spec(line, title, first)->0, title, second)
            == rewrite_checkbox_spec(line, title, second),
{
    let p = checkbox_pos(line)->0;
    let c = new_marker(first);
    let r = line.update(p, c);
    let b: int = if line.len() > 0 && line[0] == '\u{feff}' {
        1
    } else {
        0
    };
    lemma_lead_ws_bounds(line, b);
    let i = lead_ws(line, b);
    lemma_lead_ws_bounds(line, i + 2);
    let j = lead_ws(line, i + 2);
    lemma_lead_ws_update(line, p, c, b);
    lemma_lead_ws_update(line, p, c, i + 2);
    assert(r.subrange(p + 2, r.len() as int) =~= line.subrange(p + 2, line.len() as int));
    assert(r.update(p, new_marker(second)) =~= line.update(p, new_marker(second)));
}

/// Marking an open checkbox done and then open again restores the line.
pub proof fn lemma_checkbox_round_trip(line: Seq<char>, title: Seq<char>)
    requires
        rewrite_checkbox_spec(line, title, TaskStatus::Done) is Some,
        checkbox_pos(line) matches Some(p) && 0 <= p < line.len() && line[p] == ' ',
    ensures
        rewrite_checkbox_spec(
            rewrite_checkbox_spec(line, title, TaskStatus::Done)->0,
            title,
            TaskStatus::Open,
        ) == Some(line),
{
    lemma_checkbox_rewrite_stable(line, title, TaskStatus::Done, TaskStatus::Open);
    let p = checkbox_pos(line)->0;
    assert(line.update(p, ' ') =~= line);
}

// ---------------------------------------------------------------------------
// YAML values
// ---------------------------------------------------------------------------

/// ASCII lower case (`str::to_ascii_lowercase`).
pub open spec fn ascii_lower(s: Seq<char>) -> Seq<char> {
    s.map_values(|c: char| if 'A' <= c && c <= 'Z' {
        ((c as u8) + 32) as char
    } else {
        c
    })
}

/// Index of the first non-digit at or after `i`.
pub open spec fn digits_end(s: Seq<char>, i: int) -> int
    decreases s.len() - i,
{
    if 0 <= i < s.len() && '0' <= s[i] && s[i] <= '9' {
        digits_end(s, i + 1)
    } else {
        i
    }
}

/// An exponent `e`/`E`, an optional sign and at least one digit, running to
/// the end of `s`.
pub open spec fn exp_text(s: Seq<char>, j: int) -> bool {
    &&& 0 <= j < s.len()
    &&& (s[j] == 'e' || s[j] == 'E')
    &&& {
        let m: int = if j + 1 < s.len() && (s[j + 1] == '+' || s[j + 1] == '-') {
            j + 2
        } else {
            j + 1
        };
        digits_end(s, m) > m && digits_end(s, m) == s.len()
    }
}

/// `Digit+ | Digit+ '.' Digit* | Digit* '.' Digit+`, then an optional
/// exponent, from `k` to the end of `s`.
pub open spec fn decimal_text(s: Seq<char>, k: int) -> bool {
    let i = digits_end(s, k);
    if i < s.len() && s[i] == '.' {
        let j = digits_end(s, i + 1);
        (i > k || j > i + 1) && (j == s.len() || exp_text(s, j))
    } else {
        i > k && (i == s.len() || exp_text(s, i))
    }
}

/// The strings `str::parse::<f64>` accepts: an optional sign, then `inf`,
/// `infinity`, `nan` or a decimal number, compared without regard to case.
pub open spec fn float_text(s: Seq<char>) -> bool {
    let k: int = if s.len() > 0 && (s[0] == '+' || s[0] == '-') {
        1
    } else {
        0
    };
    let t = ascii_lower(s.subrange(k, s.len() as int));
    t == "inf"@ || t == "infinity"@ || t == "nan"@ || decimal_text(s, k)
}

/// A first character that gives a YAML scalar another meaning.
pub open spec fn special_start(c: char) -> bool {
    c == '&' || c == '*' || c == '!' || c == '|' || c == '>' || c == '%' || c == '@' || c == '`'
        || c == '{' || c == '[' || c == '\'' || c == '"' || c == '#' || c == '-' || c == '?'
}

/// Words YAML reads as booleans or null.
pub open spec fn yaml_word(t: Seq<char>) -> bool {
    t == "true"@ || t == "false"@ || t == "null"@ || t == "yes"@ || t == "no"@ || t == "on"@ || t
        == "off"@ || t == "~"@
}

/// A string YAML could read as something other than that string.
pub open spec fn needs_quote(v: Seq<char>) -> bool {
    ||| v.len() == 0
    ||| special_start(v[0])
    ||| crate::text::contains(v, seq![':', ' '])
    ||| has_suffix(v, seq![':'])
    ||| crate::text::trim(v) != v
    ||| yaml_word(ascii_lower(v))
    ||| float_text(v)
}

/// Backslashes and double quotes escaped.
pub open spec fn escape(v: Seq<char>) -> Seq<char>
    decreases v.len(),
{
    if v.len() == 0 {
        Seq::empty()
    } else {
        escape(v.drop_last()) + if v.last() == '\\' {
            seq!['\\', '\\']
        } else if v.last() == '"' {
            seq!['\\', '"']
        } else {
            seq![v.last()]
        }
    }
}

/// A YAML scalar for a string: as it is, or double-quoted when it needs it.
pub open spec fn quote_spec(v: Seq<char>) -> Seq<char> {
    if needs_quote(v) {
        seq!['"'] + escape(v) + seq!['"']
    } else {
        v
    }
}

/// Reads the inside of a YAML double-quoted scalar that uses only the
/// `\\` and `\"` escapes; `None` when a bare `"` would end it early or
/// another escape appears.
pub open spec fn dq_read(s: Seq<char>) -> Option<Seq<char>>
    decreases s.len(),
{
    if s.len() == 0 {
        Some(Seq::empty())
    } else if s[0] == '"' {
        None
    } else if s[0] == '\\' {
        if s.len() >= 2 && (s[1] == '\\' || s[1] == '"') {
            match dq_read(s.subrange(2, s.len() as int)) {
                Some(r) => Some(seq![s[1]] + r),
                None => None,
            }
        } else {
            None
        }
    } else {
        match dq_read(s.subrange(1, s.len() as int)) {
            Some(r) => Some(seq![s[0]] + r),
            None => None,
        }
    }
}

/// The YAML indicator characters that give a plain scalar starting with
/// them another meaning: flow collections `[` `{`, anchor `&`, alias `*`,
/// tag `!`, block scalars `|` `>`, quotes `'` `"`, comment `#`, directive
/// `%`, reserved `@` and `` ` ``, sequence entry `-`, mapping key `?`.
pub open spec fn yaml_indicator(c: char) -> bool {
    c == '[' || c == '{' || c == '&' || c == '*' || c == '!' || c == '|' || c == '>' || c == '\''
        || c == '"' || c == '#' || c == '%' || c == '@' || c == '`' || c == '-' || c == '?'
}

proof fn lemma_escape_concat(a: Seq<char>, b: Seq<char>)
    ensures
        escape(a + b) == escape(a) + escape(b),
    decreases b.len(),
{
    if b.len() == 0 {
        assert(a + b =~= a);
        assert(escape(b) =~= Seq::<char>::empty());
        assert(escape(a) + escape(b) =~= escape(a));
    } else {
        lemma_escape_concat(a, b.drop_last());
        assert((a + b).drop_last() =~= a + b.drop_last());
        assert((a + b).last() == b.last());
    }
}

proof fn lemma_escape_reads_back(v: Seq<char>)
    ensures
        dq_read(escape(v)) == Some(v),
        escape(v).len() >= v.len(),
    decreases v.len(),
{
    if v.len() == 0 {
        assert(escape(v) =~= Seq::<char>::empty());
        assert(v =~= Seq::<char>::empty());
    } else {
        let c = v[0];
        let rest = v.subrange(1, v.len() as int);
        assert(v =~= seq![c] + rest);
        lemma_escape_concat(seq![c], rest);
        lemma_escape_reads_back(rest);
        assert(seq![c].drop_last() =~= Seq::<char>::empty());
        assert(seq![c].last() == c);
        assert(escape(Seq::<char>::empty()) =~= Seq::<char>::empty());
        assert(escape(seq![c]) =~= escape(seq![c].drop_last()) + if c == '\\' {
            seq!['\\', '\\']
        } else if c == '"' {
            seq!['\\', '"']
        } else {
            seq![c]
        });
        let e = escape(v);
        let er = escape(rest);
        if c == '\\' || c == '"' {
            assert(escape(seq![c]) =~= seq!['\\', c]);
            assert(e =~= seq!['\\', c] + er);
            assert(e.subrange(2, e.len() as int) =~= er);
        } else {
            assert(escape(seq![c]) =~= seq![c]);
            assert(e =~= seq![c] + er);
            assert(e.subrange(1, e.len() as int) =~= er);
        }
        assert(seq![c] + rest =~= v);
    }
}

/// Law: a text written as a YAML scalar reads back as that text. Either it
/// is written as it is, and then it is not empty, starts with no YAML
/// indicator, has no whitespace at either end, holds no `: ` and does not
/// end in `:`, and is no YAML boolean or null word in any case; or it is
/// written double-quoted, and the inside of the quotes reads back as the
/// text.
pub proof fn lemma_quote_reads_back(v: Seq<char>)
    ensures
        quote_spec(v) == v ==> {
            &&& v.len() > 0
            &&& !yaml_indicator(v[0])
            &&& crate::text::trim(v) == v
            &&& !crate::text::contains(v, seq![':', ' '])
            &&& !has_suffix(v, seq![':'])
            &&& !(ascii_lower(v) == "true"@ || ascii_lower(v) == "false"@ || ascii_lower(v) == "null"@
                || ascii_lower(v) == "yes"@ || ascii_lower(v) == "no"@ || ascii_lower(v) == "on"@
                || ascii_lower(v) == "off"@ || ascii_lower(v) == "~"@)
        },
        quote_spec(v) != v ==> exists|inner: Seq<char>|
            quote_spec(v) == seq!['"'] + inner + seq!['"'] && #[trigger] dq_read(inner) == Some(v),
{
    lemma_escape_reads_back(v);
    if needs_quote(v) {
        let inner = escape(v);
        assert(quote_spec(v).len() > v.len());
        assert(dq_read(inner) == Some(v));
    }
}

fn ascii_lower_v(v: &Vec<char>) -> (r: Vec<char>)
    ensures
        r@ == ascii_lower(v@),
{
    let mut r: Vec<char> = Vec::new();
    let mut i: usize = 0;
    while i < v.len()
        invariant
            i <= v.len(),
            r@ == ascii_lower(v@.subrange(0, i as int)),
        decreases v.len() - i,
    {
        let c = v[i];
        let l = if 'A' <= c && c <= 'Z' {
            ((c as u8) + 32) as char
        } else {
            c
        };
        r.push(l);
        i += 1;
        assert(ascii_lower(v@.subrange(0, i as int)) =~= ascii_lower(v@.subrange(0, i - 1)).push(l));
    }
    assert(v@.subrange(0, v.len() as int) =~= v@);
    r
}

fn digits_end_exec(v: &Vec<char>, i: usize) -> (r: usize)
    requires
        i <= v.len(),
    ensures
        r as int == digits_end(v@, i as int),
        i <= r <= v.len(),
{
    let mut k = i;
    while k < v.len() && '0' <= v[k] && v[k] <= '9'
        invariant
            i <= k <= v.len(),
            digits_end(v@, i as int) == digits_end(v@, k as int),
        decreases v.len() - k,
    {
        k += 1;
    }
    k
}

fn exp_text_exec(v: &Vec<char>, j: usize) -> (b: bool)
    requires
        j <= v.len(),
    ensures
        b == exp_text(v@, j as int),
{
    if j >= v.len() || !(v[j] == 'e' || v[j] == 'E') {
        return false;
    }
    let m: usize = if j + 1 < v.len() && (v[j + 1] == '+' || v[j + 1] == '-') {
        j + 2
    } else {
        j + 1
    };
    let d = digits_end_exec(v, m);
    d > m && d == v.len()
}

/// Whether `str::parse::<f64>` accepts the text.
pub fn parses_as_float(v: &Vec<char>) -> (b: bool)
    ensures
        b == float_text(v@),
{
    let k: usize = if v.len() > 0 && (v[0] == '+' || v[0] == '-') {
        1
    } else {
        0
    };
    let t = ascii_lower_v(&slice_of(v, k, v.len()));
    if eq_str(&t, "inf") || eq_str(&t, "infinity")
        || eq_str(&t, "nan") {
        return true;
    }
    let i = digits_end_exec(v, k);
    if i < v.len() && v[i] == '.' {
        let j = digits_end_exec(v, i + 1);
        (i > k || j > i + 1) && (j == v.len() || exp_text_exec(v, j))
    } else {
        i > k && (i == v.len() || exp_text_exec(v, i))
    }
}

fn needs_quote_exec(v: &Vec<char>) -> (b: bool)
    ensures
        b == needs_quote(v@),
{
    if v.len() == 0 {
        return true;
    }
    let c = v[0];
    if c == '&' || c == '*' || c == '!' || c == '|' || c == '>' || c == '%' || c == '@' || c == '`'
        || c == '{' || c == '[' || c == '\'' || c == '"' || c == '#' || c == '-' || c == '?' {
        return true;
    }
    let colon_sp = vec![':', ' '];
    assert(colon_sp@ =~= seq![':', ' ']);
    if crate::text::find_v(v, &colon_sp).is_some() {
        return true;
    }
    let colon = vec![':'];
    assert(colon@ =~= seq![':']);
    if crate::text::ends_with_v(v, &colon) {
        return true;
    }
    let t = crate::text::trim_v(v);
    if !crate::text::same_chars(&t, v) {
        return true;
    }
    let l = ascii_lower_v(v);
    if eq_str(&l, "true") || eq_str(&l, "false") || eq_str(&l, "null") || eq_str(&l, "yes")
        || eq_str(&l, "no") || eq_str(&l, "on") || eq_str(&l, "off") || eq_str(&l, "~") {
        return true;
    }
    parses_as_float(v)
}

/// Quotes a string for YAML when it could be read as something else.
pub fn quote_if_needed(value: &str) -> (q: String)
    ensures
        q@ == quote_spec(value@),
{
    let v = chars_of(value);
    if !needs_quote_exec(&v) {
        return string_of(&v);
    }
    let mut out = String::new();
    crate::text::push_char(&mut out, '"');
    let mut i: usize = 0;
    while i < v.len()
        invariant
            i <= v.len(),
            out@ == seq!['"'] + escape(v@.subrange(0, i as int)),
        decreases v.len() - i,
    {
        let c = v[i];
        if c == '\\' {
            crate::text::push_char(&mut out, '\\');
            crate::text::push_char(&mut out, '\\');
        } else if c == '"' {
            crate::text::push_char(&mut out, '\\');
            crate::text::push_char(&mut out, '"');
        } else {
            crate::text::push_char(&mut out, c);
        }
        i += 1;
        assert(v@.subrange(0, i as int).drop_last() =~= v@.subrange(0, i - 1));
        assert(out@ =~= seq!['"'] + escape(v@.subrange(0, i as int)));
    }
    crate::text::push_char(&mut out, '"');
    assert(v@.subrange(0, v.len() as int) =~= v@);
    out
}

// ---------------------------------------------------------------------------
// Frontmatter fields
// ---------------------------------------------------------------------------

/// A value a frontmatter field can be given.
#[derive(Debug, Clone)]
pub enum FieldValue {
    Text(String),
    Bool(bool),
    /// A number, as the YAML text it is written with.
    Number(String),
    /// A list of strings, written as a block list.
    List(Vec<String>),
}

/// Block list items, each on its own line: `\n  - item`.
pub open spec fn list_items(items: Seq<Seq<char>>) -> Seq<char>
    decreases items.len(),
{
    if items.len() == 0 {
        Seq::empty()
    } else {
        list_items(items.drop_last()) + seq!['\n', ' ', ' ', '-', ' '] + quote_spec(items.last())
    }
}

/// The YAML lines of a field (without the final line ending).
pub open spec fn to_yaml_spec(v: FieldValue, key: Seq<char>) -> Seq<char> {
    match v {
        FieldValue::Text(t) => key + seq![':', ' '] + quote_spec(t@),
        FieldValue::Bool(b) => key + seq![':', ' '] + if b {
            "true"@
        } else {
            "false"@
        },
        FieldValue::Number(n) => key + seq![':', ' '] + n@,
        FieldValue::List(items) => key + seq![':'] + list_items(crate::text::string_views(items@)),
    }
}

impl FieldValue {
    /// The YAML lines of this value under `key`; lists are block lists.
    pub fn to_yaml(&self, key: &str) -> (y: String)
        ensures
            y@ == to_yaml_spec(*self, key@),
    {
        let mut out = String::from_str(key);
        match self {
            FieldValue::Text(t) => {
                crate::text::push_str(&mut out, ": ");
                proof {
                    reveal_strlit(": ");
                }
                let q = quote_if_needed(t.as_str());
                crate::text::push_str(&mut out, q.as_str());
            },
            FieldValue::Bool(b) => {
                crate::text::push_str(&mut out, ": ");
                proof {
                    reveal_strlit(": ");
                }
                if *b {
                    crate::text::push_str(&mut out, "true");
                } else {
                    crate::text::push_str(&mut out, "false");
                }
            },
            FieldValue::Number(n) => {
                crate::text::push_str(&mut out, ": ");
                proof {
                    reveal_strlit(": ");
                }
                crate::text::push_str(&mut out, n.as_str());
            },
            FieldValue::List(items) => {
                crate::text::push_char(&mut out, ':');
                let ghost head = out@;
                let mut i: usize = 0;
                while i < items.len()
                    invariant
                        i <= items.len(),
                        out@ == head + list_items(
                            crate::text::string_views(items@).subrange(0, i as int),
                        ),
                    decreases items.len() - i,
                {
                    crate::text::push_str(&mut out, "\n  - ");
                    proof {
                        reveal_strlit("\n  - ");
                    }
                    let q = quote_if_needed(items[i].as_str());
                    crate::text::push_str(&mut out, q.as_str());
                    proof {
                        let sv = crate::text::string_views(items@);
                        assert(sv.subrange(0, i + 1).drop_last() =~= sv.subrange(0, i as int));
                        assert(sv[i as int] == items@[i as int]@);
                    }
                    i += 1;
                    assert(out@ =~= head + list_items(
                        crate::text::string_views(items@).subrange(0, i as int),
                    ));
                }
                assert(crate::text::string_views(items@).subrange(0, items@.len() as int)
                    =~= crate::text::string_views(items@));
            },
        }
        out
    }
}

/// The frontmatter's YAML region `[start, end)` in a note (fences
/// excluded): the same block that framing finds.
pub open spec fn region_spec(content: Seq<char>) -> Option<(int, int)> {
    match after_opening(content) {
        None => None,
        Some(rest) => match closing_from(pieces(rest), 0) {
            None => None,
            Some(k) => {
                let start = content.len() - rest.len();
                Some((start, start + concat(pieces(rest).take(k)).len()))
            },
        },
    }
}

/// A top-level line (not indented) that opens the block of `key`.
pub open spec fn is_key_line(body: Seq<char>, key: Seq<char>) -> bool {
    &&& !(has_prefix(body, seq![' ']) || has_prefix(body, seq!['\t']))
    &&& has_prefix(body, key)
    &&& has_prefix(body.subrange(key.len() as int, body.len() as int), seq![':'])
}

/// A line that continues a block: indented by a space or a tab.
pub open spec fn is_continuation(body: Seq<char>) -> bool {
    has_prefix(body, seq![' ']) || has_prefix(body, seq!['\t'])
}

/// The first line at or after `i` that opens the block of `key`.
pub open spec fn first_key_line(ls: Seq<Seq<char>>, key: Seq<char>, i: int) -> Option<int>
    decreases ls.len() - i,
{
    if i < 0 || i >= ls.len() {
        None
    } else if is_key_line(strip_eol(ls[i]), key) {
        Some(i)
    } else {
        first_key_line(ls, key, i + 1)
    }
}

/// The end of a block whose continuation lines start at `j`.
pub open spec fn block_end(ls: Seq<Seq<char>>, j: int) -> int
    decreases ls.len() - j,
{
    if 0 <= j < ls.len() && is_continuation(strip_eol(ls[j])) {
        block_end(ls, j + 1)
    } else {
        j
    }
}

/// The line ending a YAML block uses: CRLF if it has one anywhere.
pub open spec fn yaml_eol(yaml: Seq<char>) -> Seq<char> {
    if crate::text::contains(yaml, seq!['\r', '\n']) {
        seq!['\r', '\n']
    } else {
        seq!['\n']
    }
}

/// The YAML lines of an optional value (`None` removes the field).
pub open spec fn rendered(value: Option<FieldValue>, key: Seq<char>) -> Option<Seq<char>> {
    match value {
        Some(v) => Some(to_yaml_spec(v, key)),
        None => None,
    }
}

/// The YAML with the block of `key` replaced by the lines `field`, removed
/// (`None`), or, when absent, `field` appended at the end; other lines keep
/// their order and bytes.
pub open spec fn replace_key_block_spec(yaml: Seq<char>, key: Seq<char>, field: Option<Seq<char>>) -> Seq<char> {
    let eol = yaml_eol(yaml);
    let ls = pieces(yaml);
    match first_key_line(ls, key, 0) {
        Some(st) => {
            let en = block_end(ls, st + 1);
            match field {
                Some(f) => concat(ls.take(st)) + f + eol + concat(ls.skip(en)),
                None => concat(ls.take(st)) + concat(ls.skip(en)),
            }
        },
        None => match field {
            Some(f) => yaml + (if yaml.len() > 0 && yaml.last() != '\n' {
                eol
            } else {
                Seq::empty()
            }) + f + eol,
            None => yaml,
        },
    }
}

/// A key that may be written: not blank, no `:` or line break; never the
/// persistent identity, which only Hermes writes.
pub open spec fn field_key_check(key: Seq<char>) -> Result<(), CoreError> {
    if crate::text::trim(key).len() == 0 || key.contains(':') || key.contains('\n') || key.contains(
        '\r',
    ) {
        Err(CoreError::TargetMismatch)
    } else if key == "arkeles_id"@ {
        Err(CoreError::SemanticMutationRefused)
    } else {
        Ok(())
    }
}

/// The content with one frontmatter field set or removed; everything
/// outside the YAML region is kept. A note without frontmatter is refused.
pub open spec fn field_spec(content: Seq<char>, key: Seq<char>, field: Option<Seq<char>>) -> Result<Seq<char>, CoreError> {
    match region_spec(content) {
        None => Err(CoreError::NoFrontmatter),
        Some((st, en)) => Ok(
            content.take(st) + replace_key_block_spec(content.subrange(st, en), key, field)
                + content.skip(en),
        ),
    }
}

fn frontmatter_region(content: &Vec<char>) -> (r: Option<(usize, usize)>)
    ensures
        match r {
            Some((a, b)) => region_spec(content@) == Some((a as int, b as int)) && a <= b
                <= content.len(),
            None => region_spec(content@) is None,
        },
{
    let rest = match after_opening_exec(content) {
        Some(r) => r,
        None => {
            return None;
        },
    };
    proof {
        lemma_after_opening_len(content@);
    }
    let start = content.len() - rest.len();
    let ps = pieces_v(&rest);
    let f = vec!['-', '-', '-'];
    assert(f@ =~= fence());
    let mut k: usize = 0;
    let mut offset: usize = 0;
    assert(views(ps@).take(0) =~= Seq::<Seq<char>>::empty());
    proof {
        lemma_concat_pieces(rest@);
    }
    while k < ps.len()
        invariant
            k <= ps.len(),
            f@ == fence(),
            after_opening(content@) == Some(rest@),
            views(ps@) == pieces(rest@),
            concat(views(ps@)) == rest@,
            start + rest@.len() == content@.len(),
            content@.len() <= usize::MAX,
            offset as int == concat(views(ps@).take(k as int)).len(),
            closing_from(views(ps@), 0) == closing_from(views(ps@), k as int),
        decreases ps.len() - k,
    {
        proof {
            lemma_concat_take_len(views(ps@), k as int);
            assert(offset <= rest@.len());
        }
        let l = strip_eol_exec(&ps[k]);
        assert(views(ps@)[k as int] == ps@[k as int]@);
        if l.len() == 3 && crate::text::starts_with_v(&l, &f) {
            assert(l@ =~= fence());
            return Some((start, start + offset));
        }
        proof {
            if l@ == fence() {
                assert(crate::text::has_prefix(l@, f@));
            }
            lemma_concat_take_len(views(ps@), k + 1);
            assert(views(ps@).take(k + 1) =~= views(ps@).take(k as int).push(ps@[k as int]@));
            crate::text::lemma_concat_push(views(ps@).take(k as int), ps@[k as int]@);
            assert(offset + ps@[k as int]@.len() <= rest@.len());
        }
        offset = offset + ps[k].len();
        k += 1;
    }
    None
}

proof fn lemma_after_opening_len(content: Seq<char>)
    ensures
        after_opening(content) matches Some(rest) ==> rest.len() <= content.len(),
{
}

proof fn lemma_concat_take_len(ls: Seq<Seq<char>>, k: int)
    requires
        0 <= k <= ls.len(),
    ensures
        concat(ls.take(k)).len() <= concat(ls).len(),
{
    assert(ls =~= ls.take(k) + ls.skip(k));
    crate::text::lemma_concat_append(ls.take(k), ls.skip(k));
}

fn is_key_line_exec(body: &Vec<char>, key: &Vec<char>) -> (b: bool)
    ensures
        b == is_key_line(body@, key@),
{
    if body.len() > 0 && (body[0] == ' ' || body[0] == '\t') {
        proof {
            assert(body@.subrange(0, 1)[0] == body@[0]);
        }
        return false;
    }
    proof {
        if has_prefix(body@, seq![' ']) {
            assert(body@.subrange(0, 1)[0] == body@[0]);
        }
        if has_prefix(body@, seq!['\t']) {
            assert(body@.subrange(0, 1)[0] == body@[0]);
        }
    }
    if !crate::text::starts_with_v(body, key) {
        return false;
    }
    let k = key.len();
    if k < body.len() && body[k] == ':' {
        proof {
            assert(body@.subrange(k as int, body@.len() as int).subrange(0, 1) =~= seq![':']);
        }
        true
    } else {
        proof {
            let r = body@.subrange(k as int, body@.len() as int);
            if has_prefix(r, seq![':']) {
                assert(r.subrange(0, 1)[0] == r[0]);
            }
        }
        false
    }
}

fn is_continuation_exec(body: &Vec<char>) -> (b: bool)
    ensures
        b == is_continuation(body@),
{
    proof {
        if body@.len() > 0 {
            assert(body@.subrange(0, 1)[0] == body@[0]);
        }
    }
    if body.len() > 0 && (body[0] == ' ' || body[0] == '\t') {
        assert(body@.subrange(0, 1) =~= seq![body@[0]]);
        true
    } else {
        false
    }
}

fn continues_at(ls: &Vec<Vec<char>>, j: usize) -> (b: bool)
    requires
        j < ls.len(),
    ensures
        b == is_continuation(strip_eol(views(ls@)[j as int])),
{
    assert(views(ls@)[j as int] == ls@[j as int]@);
    let b = strip_eol_exec(&ls[j]);
    is_continuation_exec(&b)
}

/// Replaces, removes or appends the block of `key` in a YAML text.
fn replace_key_block(yaml: &Vec<char>, key: &str, value: &Option<FieldValue>) -> (out: String)
    ensures
        out@ == replace_key_block_spec(yaml@, key@, rendered(*value, key@)),
{
    let crlf = vec!['\r', '\n'];
    assert(crlf@ =~= seq!['\r', '\n']);
    let lf = vec!['\n'];
    assert(lf@ =~= seq!['\n']);
    let eol = if crate::text::find_v(yaml, &crlf).is_some() {
        crlf
    } else {
        lf
    };
    let ls = pieces_v(yaml);
    let kv = chars_of(key);
    let mut i: usize = 0;
    let mut found: Option<usize> = None;
    while i < ls.len() && found.is_none()
        invariant
            i <= ls.len(),
            views(ls@) == pieces(yaml@),
            kv@ == key@,
            found is None ==> first_key_line(views(ls@), key@, 0) == first_key_line(views(ls@), key@, i as int),
            found matches Some(st) ==> first_key_line(views(ls@), key@, 0) == Some(st as int) && st < ls.len(),
        decreases ls.len() - i,
    {
        assert(views(ls@)[i as int] == ls@[i as int]@);
        let b = strip_eol_exec(&ls[i]);
        if is_key_line_exec(&b, &kv) {
            found = Some(i);
        }
        i += 1;
    }
    assert(eol@ == yaml_eol(yaml@));
    let mut out = String::new();
    match found {
        Some(st) => {
            let mut en = st + 1;
            while en < ls.len() && continues_at(&ls, en)
                invariant
                    st < en <= ls.len(),
                    views(ls@) == pieces(yaml@),
                    block_end(views(ls@), st + 1) == block_end(views(ls@), en as int),
                decreases ls.len() - en,
            {
                en += 1;
            }
            let head = join_pieces(&ls, 0, st);
            crate::text::push_str(&mut out, head.as_str());
            match value {
                Some(v) => {
                    let y = v.to_yaml(key);
                    crate::text::push_str(&mut out, y.as_str());
                    push_all(&mut out, &eol);
                },
                None => {},
            }
            let tail = join_pieces(&ls, en, ls.len());
            crate::text::push_str(&mut out, tail.as_str());
            proof {
                assert(views(ls@).take(st as int) =~= views(ls@).subrange(0, st as int));
                assert(views(ls@).skip(en as int) =~= views(ls@).subrange(en as int, ls@.len() as int));
            }
        },
        None => {
            push_all(&mut out, yaml);
            match value {
                Some(v) => {
                    if yaml.len() > 0 && yaml[yaml.len() - 1] != '\n' {
                        push_all(&mut out, &eol);
                    }
                    let y = v.to_yaml(key);
                    crate::text::push_str(&mut out, y.as_str());
                    push_all(&mut out, &eol);
                },
                None => {},
            }
        },
    }
    out
}

/// A key that may be written.
pub fn check_field_key(key: &str) -> (r: Result<(), CoreError>)
    ensures
        r == field_key_check(key@),
{
    let kv = chars_of(key);
    let t = crate::text::trim_v(&kv);
    if t.len() == 0 {
        return Err(CoreError::TargetMismatch);
    }
    let mut i: usize = 0;
    while i < kv.len()
        invariant
            i <= kv.len(),
            kv@ == key@,
            crate::text::trim(key@).len() > 0,
            forall|j: int| 0 <= j < i ==> kv@[j] != ':' && kv@[j] != '\n' && kv@[j] != '\r',
        decreases kv.len() - i,
    {
        if kv[i] == ':' || kv[i] == '\n' || kv[i] == '\r' {
            proof {
                assert(kv@.contains(kv@[i as int]));
            }
            return Err(CoreError::TargetMismatch);
        }
        i += 1;
    }
    proof {
        assert(!kv@.contains(':'));
        assert(!kv@.contains('\n'));
        assert(!kv@.contains('\r'));
    }
    if eq_str(&kv, "arkeles_id") {
        return Err(CoreError::SemanticMutationRefused);
    }
    Ok(())
}

/// Sets (`Some`) or removes (`None`) one frontmatter field in the bytes read.
///
/// Only the field's own block changes: the body and the other keys keep
/// their order and bytes, the YAML is not re-serialised. A note without
/// frontmatter is refused: creating it is building structure.
pub fn set_frontmatter_field(
    current: Option<&[u8]>,
    guard: &WriteGuard,
    key: &str,
    value: Option<FieldValue>,
) -> (r: Result<String, CoreError>)
    ensures
        result_view(r) == match field_key_check(key@) {
            Err(e) => Err(e),
            Ok(_) => match guard_spec(bytes_view(current), guard.expected_hash@) {
                Err(e) => Err(e),
                Ok(c) => field_spec(c, key@, rendered(value, key@)),
            },
        },
        r is Ok ==> lossless(bytes_view(current)),
{
    match check_field_key(key) {
        Ok(_) => {},
        Err(e) => {
            return Err(e);
        },
    }
    let content = match verify(current, guard) {
        Ok(c) => c,
        Err(e) => {
            return Err(e);
        },
    };
    apply_field(&content, key, &value)
}

/// Sets or removes one field in a decoded note.
fn apply_field(content: &String, key: &str, value: &Option<FieldValue>) -> (r: Result<String, CoreError>)
    ensures
        result_view(r) == field_spec(content@, key@, rendered(*value, key@)),
{
    let cv = chars_of(content.as_str());
    let (a, b) = match frontmatter_region(&cv) {
        Some(r) => r,
        None => {
            return Err(CoreError::NoFrontmatter);
        },
    };
    let yaml = slice_of(&cv, a, b);
    let new_yaml = replace_key_block(&yaml, key, value);
    let mut out = crate::text::string_of_range(&cv, 0, a);
    crate::text::push_str(&mut out, new_yaml.as_str());
    let tail = slice_of(&cv, b, cv.len());
    push_all(&mut out, &tail);
    proof {
        assert(cv@.subrange(0, a as int) =~= cv@.take(a as int));
        assert(tail@ =~= cv@.skip(b as int));
    }
    Ok(out)
}

// ---------------------------------------------------------------------------
// Tags
// ---------------------------------------------------------------------------

/// The string items of a list, in order; other items are skipped.
pub open spec fn string_items(items: Seq<Json>) -> Seq<Seq<char>>
    decreases items.len(),
{
    if items.len() == 0 {
        Seq::empty()
    } else {
        let p = string_items(items.drop_last());
        match items.last() {
            Json::Str(s) => p.push(s@),
            _ => p,
        }
    }
}

/// The tags a frontmatter declares: a list of strings, or a single string.
pub open spec fn tags_of(fm: Seq<(String, Json)>) -> Seq<Seq<char>> {
    match obj_get(fm, "tags"@) {
        Some(Json::Array(items)) => string_items(items@),
        Some(Json::Str(s)) => seq![s@],
        _ => Seq::empty(),
    }
}

/// A tag that may be written: trimmed, not empty, on one line.
pub open spec fn tag_check(tag: Seq<char>) -> Result<Seq<char>, CoreError> {
    let t = crate::text::trim(tag);
    if t.len() == 0 || t.contains('\n') || t.contains('\r') {
        Err(CoreError::TargetMismatch)
    } else {
        Ok(t)
    }
}

/// Keeps what is not `t`.
pub open spec fn not_tag(t: Seq<char>) -> spec_fn(Seq<char>) -> bool {
    |x: Seq<char>| x != t
}

/// The tag list after adding or removing `t`; `None` when nothing changes
/// (adding a present tag, removing an absent one).
pub open spec fn toggled(tags: Seq<Seq<char>>, t: Seq<char>, add: bool) -> Option<Seq<Seq<char>>> {
    if add && !tags.contains(t) {
        Some(tags.push(t))
    } else if !add && tags.contains(t) {
        Some(tags.filter(not_tag(t)))
    } else {
        None
    }
}

/// The `tags` field for a list: removed when the list is empty.
pub open spec fn tags_field(tags: Seq<Seq<char>>) -> Option<Seq<char>> {
    if tags.len() == 0 {
        None
    } else {
        Some("tags"@ + seq![':'] + list_items(tags))
    }
}

/// The view of an optional text result.
pub open spec fn change_view(r: Result<Option<String>, CoreError>) -> Result<Option<Seq<char>>, CoreError> {
    match r {
        Ok(Some(s)) => Ok(Some(s@)),
        Ok(None) => Ok(None),
        Err(e) => Err(e),
    }
}

/// What toggling does to a note whose frontmatter map is `fm`.
pub open spec fn toggle_spec(current: Seq<u8>, fm: Seq<(String, Json)>, expected_hash: Seq<char>, t: Seq<char>, add: bool) -> Result<Option<Seq<char>>, CoreError> {
    match toggled(tags_of(fm), t, add) {
        None => Ok(None),
        Some(nt) => match guard_spec(Some(current), expected_hash) {
            Err(e) => Err(e),
            Ok(c) => match field_spec(c, "tags"@, tags_field(nt)) {
                Ok(x) => Ok(Some(x)),
                Err(e) => Err(e),
            },
        },
    }
}

/// Checks and trims a tag.
pub fn check_tag(tag: &str) -> (r: Result<String, CoreError>)
    ensures
        result_view(r) == tag_check(tag@),
{
    let v = chars_of(tag);
    let t = crate::text::trim_v(&v);
    if t.len() == 0 {
        return Err(CoreError::TargetMismatch);
    }
    let mut i: usize = 0;
    while i < t.len()
        invariant
            i <= t.len(),
            t@ == crate::text::trim(tag@),
            forall|j: int| 0 <= j < i ==> t@[j] != '\n' && t@[j] != '\r',
        decreases t.len() - i,
    {
        if t[i] == '\n' || t[i] == '\r' {
            proof {
                assert(t@.contains(t@[i as int]));
            }
            return Err(CoreError::TargetMismatch);
        }
        i += 1;
    }
    proof {
        assert(!t@.contains('\n'));
        assert(!t@.contains('\r'));
    }
    Ok(string_of(&t))
}

fn tags_from(fm: &Vec<(String, Json)>) -> (tags: Vec<String>)
    requires
        keys_unique(fm@),
    ensures
        crate::text::string_views(tags@) == tags_of(fm@),
{
    proof {
        reveal_strlit("tags");
    }
    match get(fm, "tags") {
        Some(Json::Array(items)) => {
            let mut out: Vec<String> = Vec::new();
            let mut i: usize = 0;
            while i < items.len()
                invariant
                    i <= items.len(),
                    crate::text::string_views(out@) == string_items(items@.subrange(0, i as int)),
                decreases items.len() - i,
            {
                assert(items@.subrange(0, i + 1).drop_last() =~= items@.subrange(0, i as int));
                match &items[i] {
                    Json::Str(s) => {
                        let c = s.clone();
                        out.push(c);
                        assert(crate::text::string_views(out@) =~= string_items(
                            items@.subrange(0, i as int),
                        ).push(s@));
                    },
                    _ => {},
                }
                i += 1;
            }
            assert(items@.subrange(0, items@.len() as int) =~= items@);
            out
        },
        Some(Json::Str(s)) => {
            let out = vec![s.clone()];
            assert(crate::text::string_views(out@) =~= seq![s@]);
            out
        },
        _ => {
            let out: Vec<String> = Vec::new();
            assert(crate::text::string_views(out@) =~= Seq::<Seq<char>>::empty());
            out
        },
    }
}

fn holds_tag(tags: &Vec<String>, t: &String) -> (b: bool)
    ensures
        b == crate::text::string_views(tags@).contains(t@),
{
    let mut i: usize = 0;
    while i < tags.len()
        invariant
            i <= tags.len(),
            forall|j: int| 0 <= j < i ==> tags@[j]@ != t@,
        decreases tags.len() - i,
    {
        if same_text(tags[i].as_str(), t.as_str()) {
            assert(crate::text::string_views(tags@)[i as int] == t@);
            return true;
        }
        i += 1;
    }
    proof {
        if crate::text::string_views(tags@).contains(t@) {
            let j = choose|j: int|
                0 <= j < crate::text::string_views(tags@).len() && crate::text::string_views(
                    tags@,
                )[j] == t@;
            assert(tags@[j]@ == t@);
        }
    }
    false
}

fn without_tag(tags: &Vec<String>, t: &String) -> (r: Vec<String>)
    ensures
        crate::text::string_views(r@) == crate::text::string_views(tags@).filter(not_tag(t@)),
{
    let ghost sv = crate::text::string_views(tags@);
    let ghost f = not_tag(t@);
    let mut out: Vec<String> = Vec::new();
    let mut i: usize = 0;
    while i < tags.len()
        invariant
            i <= tags.len(),
            sv == crate::text::string_views(tags@),
            f == not_tag(t@),
            crate::text::string_views(out@) == sv.subrange(0, i as int).filter(f),
        decreases tags.len() - i,
    {
        proof {
            let a = sv.subrange(0, i as int);
            assert(sv.subrange(0, i + 1) =~= a.push(sv[i as int]));
            reveal(Seq::filter);
            assert(a.push(sv[i as int]).drop_last() =~= a);
        }
        if !same_text(tags[i].as_str(), t.as_str()) {
            out.push(tags[i].clone());
            assert(crate::text::string_views(out@) =~= sv.subrange(0, i as int).filter(f).push(
                tags@[i as int]@,
            ));
        } else {
            assert(crate::text::string_views(out@) =~= sv.subrange(0, i + 1).filter(f));
        }
        i += 1;
    }
    assert(sv.subrange(0, tags@.len() as int) =~= sv);
    out
}

/// Adds or removes a tag in the `tags` list of a note's frontmatter; tags
/// in the body are never touched.
///
/// `parsed_yaml` is what a YAML parser made of the frontmatter block that
/// `frontmatter::frame` finds in the decoded bytes. The tag list is read
/// from the bytes as they are; when nothing changes (adding a present tag,
/// removing an absent one) the answer is `Ok(None)` and the file is left
/// alone. Otherwise the list is written as a guarded field write, and an
/// empty list removes the field.
pub fn toggle_tag(
    current: Option<&[u8]>,
    parsed_yaml: Option<&Yaml>,
    guard: &WriteGuard,
    tag: &str,
    add: bool,
) -> (r: Result<Option<String>, CoreError>)
    ensures
        match tag_check(tag@) {
            Err(e) => r == Err::<Option<String>, CoreError>(e),
            Ok(t) => match bytes_view(current) {
                None => r == Err::<Option<String>, CoreError>(CoreError::Conflict),
                Some(b) => exists|es: Vec<(String, Json)>|
                    {
                        &&& fm_spec(
                            yaml_text(frame_spec(utf8_lossy(b)).0),
                            match parsed_yaml {
                                Some(y) => Some(*y),
                                None => None,
                            },
                            es,
                        )
                        &&& keys_unique(es@)
                        &&& change_view(r) == toggle_spec(b, es@, guard.expected_hash@, t, add)
                    },
            },
        },
        r is Ok ==> lossless(bytes_view(current)),
{
    let t = match check_tag(tag) {
        Ok(t) => t,
        Err(e) => {
            return Err(e);
        },
    };
    let bytes = match current {
        Some(b) => b,
        None => {
            return Err(CoreError::Conflict);
        },
    };
    let content = decode_lossy(bytes);
    let framed = frame(content.as_str());
    let fm = match &framed.yaml {
        Some(y) => frontmatter_map(y.as_str(), parsed_yaml),
        None => frontmatter_map(empty_text(), parsed_yaml),
    };
    let mut tags = tags_from(&fm);
    let exists = holds_tag(&tags, &t);
    let ghost old_tags = crate::text::string_views(tags@);
    if add && !exists {
        tags.push(t);
        assert(crate::text::string_views(tags@) =~= old_tags.push(tag_check(tag@)->Ok_0));
    } else if !add && exists {
        tags = without_tag(&tags, &t);
    } else {
        return Ok(None);
    }
    let content = match verify(current, guard) {
        Ok(c) => c,
        Err(e) => {
            return Err(e);
        },
    };
    let value = if tags.len() == 0 {
        None
    } else {
        Some(FieldValue::List(tags))
    };
    proof {
        reveal_strlit("tags");
    }
    match apply_field(&content, "tags", &value) {
        Ok(x) => Ok(Some(x)),
        Err(e) => Err(e),
    }
}

fn empty_text() -> (s: &'static str)
    ensures
        s@ == Seq::<char>::empty(),
{
    proof {
        reveal_strlit("");
    }
    ""
}

proof fn lemma_filter_keeps_all(tags: Seq<Seq<char>>, t: Seq<char>)
    requires
        !tags.contains(t),
    ensures
        tags.filter(not_tag(t)) == tags,
    decreases tags.len(),
{
    reveal(Seq::filter);
    if tags.len() > 0 {
        assert(!tags.drop_last().contains(t)) by {
            if tags.drop_last().contains(t) {
                let j = choose|j: int| 0 <= j < tags.drop_last().len() && tags.drop_last()[j] == t;
                assert(tags[j] == t);
            }
        }
        lemma_filter_keeps_all(tags.drop_last(), t);
        assert(tags.last() != t) by {
            assert(tags[tags.len() - 1] == tags.last());
        }
        assert(tags.drop_last().push(tags.last()) =~= tags);
    }
}

/// Adding a tag and then removing it gives back the tag list as it was;
/// adding a tag that is there already changes nothing.
pub proof fn lemma_tag_round_trip(tags: Seq<Seq<char>>, t: Seq<char>)
    ensures
        !tags.contains(t) ==> toggled(tags, t, true) == Some(tags.push(t)) && toggled(
            tags.push(t),
            t,
            false,
        ) == Some(tags),
        tags.contains(t) ==> toggled(tags, t, true) is None,
{
    if !tags.contains(t) {
        assert(tags.push(t).contains(t)) by {
            assert(tags.push(t)[tags.len() as int] == t);
        }
        reveal(Seq::filter);
        assert(tags.push(t).drop_last() =~= tags);
        assert(tags.push(t).last() == t);
        lemma_filter_keeps_all(tags, t);
        assert(!not_tag(t)(t));
    }
}

/// How often `x` occurs in a list.
pub open spec fn occurrences(s: Seq<Seq<char>>, x: Seq<char>) -> nat
    decreases s.len(),
{
    if s.len() == 0 {
        0
    } else {
        occurrences(s.drop_last(), x) + if s.last() == x {
            1nat
        } else {
            0nat
        }
    }
}

/// `f` places each item of `r` at an item of `s` equal to it, keeping
/// their order.
pub open spec fn places_in_order(r: Seq<Seq<char>>, s: Seq<Seq<char>>, f: spec_fn(int) -> int) -> bool {
    &&& forall|i: int| 0 <= i < r.len() ==> 0 <= #[trigger] f(i) < s.len() && r[i] == s[f(i)]
    &&& forall|i: int, j: int| 0 <= i < j < r.len() ==> #[trigger] f(i) < #[trigger] f(j)
}

/// `r` is `s` with some items left out, the others in their order.
pub open spec fn kept_in_order(r: Seq<Seq<char>>, s: Seq<Seq<char>>) -> bool {
    exists|f: spec_fn(int) -> int| #[trigger] places_in_order(r, s, f)
}

proof fn lemma_filter_removes(s: Seq<Seq<char>>, t: Seq<char>)
    ensures
        forall|i: int| 0 <= i < s.filter(not_tag(t)).len() ==> #[trigger] s.filter(not_tag(t))[i] != t,
        s.filter(not_tag(t)).len() + occurrences(s, t) == s.len(),
        kept_in_order(s.filter(not_tag(t)), s),
    decreases s.len(),
{
    reveal(Seq::filter);
    let r = s.filter(not_tag(t));
    if s.len() == 0 {
        let f = |i: int| i;
        assert(places_in_order(r, s, f));
    } else {
        let p = s.drop_last();
        lemma_filter_removes(p, t);
        let rp = p.filter(not_tag(t));
        let g = choose|g: spec_fn(int) -> int| #[trigger] places_in_order(rp, p, g);
        assert(places_in_order(rp, p, g));
        if s.last() != t {
            assert(r == rp.push(s.last()));
            let f = |i: int| if i < rp.len() {
                g(i)
            } else {
                p.len() as int
            };
            assert forall|i: int| 0 <= i < r.len() implies 0 <= #[trigger] f(i) < s.len() && r[i] == s[f(i)] by {
                if i < rp.len() {
                    assert(r[i] == rp[i]);
                    assert(s[g(i)] == p[g(i)]);
                }
            }
            assert forall|i: int, j: int| 0 <= i < j < r.len() implies #[trigger] f(i) < #[trigger] f(j) by {
                if j < rp.len() {
                    assert(g(i) < g(j));
                } else {
                    assert(0 <= g(i) < p.len());
                }
            }
            assert(places_in_order(r, s, f));
            assert forall|i: int| 0 <= i < r.len() implies #[trigger] r[i] != t by {
                if i < rp.len() {
                    assert(r[i] == rp[i]);
                }
            }
        } else {
            assert(r == rp);
            assert forall|i: int| 0 <= i < r.len() implies 0 <= #[trigger] g(i) < s.len() && r[i] == s[g(i)] by {
                assert(s[g(i)] == p[g(i)]);
            }
            assert(places_in_order(r, s, g));
        }
    }
}

/// Law: removing a tag drops every occurrence of it and nothing else: the
/// tag is gone, the list is shorter by exactly its occurrences, and the
/// other tags all stay, in their order. Removing an absent tag changes
/// nothing.
pub proof fn lemma_tag_removal(tags: Seq<Seq<char>>, t: Seq<char>)
    ensures
        tags.contains(t) ==> (toggled(tags, t, false) matches Some(r) && !r.contains(t) && r.len()
            + occurrences(tags, t) == tags.len() && kept_in_order(r, tags) && forall|x: Seq<char>|
            tags.contains(x) && x != t ==> #[trigger] r.contains(x)),
        !tags.contains(t) ==> toggled(tags, t, false) is None,
{
    if tags.contains(t) {
        let r = tags.filter(not_tag(t));
        lemma_filter_removes(tags, t);
        assert(!r.contains(t));
        assert forall|x: Seq<char>| tags.contains(x) && x != t implies #[trigger] r.contains(x) by {
            let i = choose|i: int| 0 <= i < tags.len() && tags[i] == x;
            tags.lemma_filter_contains(not_tag(t), i);
        }
    }
}

// ---------------------------------------------------------------------------
// Line order
// ---------------------------------------------------------------------------

/// The content after moving one line (1-based `from`) to position `to`:
/// `None` when the two are the same and nothing is written. A line without
/// a line ending (the last one) is not moved: moving it would merge lines.
pub open spec fn move_spec(content: Seq<char>, from_line: int, to_line: int) -> Result<Option<Seq<char>>, CoreError> {
    let ps = pieces(content);
    if from_line < 1 || to_line < 1 || from_line - 1 >= ps.len() || to_line - 1 >= ps.len() {
        Err(CoreError::TargetMismatch)
    } else if from_line == to_line {
        Ok(None)
    } else if !has_suffix(ps[from_line - 1], seq!['\n']) {
        Err(CoreError::TargetMismatch)
    } else {
        Ok(Some(concat(ps.remove(from_line - 1).insert(to_line - 1, ps[from_line - 1]))))
    }
}

/// Moves one line to another position in the bytes read; indented lines
/// under it stay where they are. `Ok(None)` when the positions are equal.
pub fn move_line(current: Option<&[u8]>, guard: &WriteGuard, from_line: u32, to_line: u32) -> (r: Result<Option<String>, CoreError>)
    ensures
        change_view(r) == match guard_spec(bytes_view(current), guard.expected_hash@) {
            Err(e) => Err(e),
            Ok(c) => move_spec(c, from_line as int, to_line as int),
        },
        r is Ok ==> lossless(bytes_view(current)),
{
    let content = match verify(current, guard) {
        Ok(c) => c,
        Err(e) => {
            return Err(e);
        },
    };
    let cv = chars_of(content.as_str());
    let mut ps = pieces_v(&cv);
    if from_line < 1 || to_line < 1 {
        return Err(CoreError::TargetMismatch);
    }
    let from = (from_line - 1) as usize;
    let to = (to_line - 1) as usize;
    if from >= ps.len() || to >= ps.len() {
        return Err(CoreError::TargetMismatch);
    }
    if from == to {
        return Ok(None);
    }
    let ghost old_views = views(ps@);
    let moved = ps.remove(from);
    assert(moved@ == old_views[from as int]);
    let nl = vec!['\n'];
    assert(nl@ =~= seq!['\n']);
    if !crate::text::ends_with_v(&moved, &nl) {
        return Err(CoreError::TargetMismatch);
    }
    assert(views(ps@) =~= old_views.remove(from as int));
    ps.insert(to, moved);
    assert(views(ps@) =~= old_views.remove(from as int).insert(to as int, old_views[from as int]));
    assert(views(ps@).subrange(0, ps@.len() as int) =~= views(ps@));
    Ok(Some(join_pieces(&ps, 0, ps.len())))
}

// ---------------------------------------------------------------------------
// Quick capture
// ---------------------------------------------------------------------------

/// Trimmed lines, empty ones dropped.
pub open spec fn nonempty_trimmed(ls: Seq<Seq<char>>) -> Seq<Seq<char>>
    decreases ls.len(),
{
    if ls.len() == 0 {
        Seq::empty()
    } else {
        let p = nonempty_trimmed(ls.drop_last());
        let t = crate::text::trim(ls.last());
        if t.len() > 0 {
            p.push(t)
        } else {
            p
        }
    }
}

/// Parts joined with single spaces.
pub open spec fn join_spaces(parts: Seq<Seq<char>>) -> Seq<char>
    decreases parts.len(),
{
    if parts.len() == 0 {
        Seq::empty()
    } else if parts.len() == 1 {
        parts[0]
    } else {
        join_spaces(parts.drop_last()) + seq![' '] + parts.last()
    }
}

/// The raw line a capture adds: the text trimmed and flattened onto one
/// line (a multi-line text would build structure). Empty text is refused.
pub open spec fn capture_spec(text: Seq<char>) -> Result<Seq<char>, CoreError> {
    let line = crate::text::trim(text);
    if line.len() == 0 {
        Err(CoreError::TargetMismatch)
    } else {
        Ok(join_spaces(nonempty_trimmed(crate::text::lines(line))))
    }
}

/// The inbox after appending a raw line: the existing text untouched, a line
/// ending added if the last line had none, then the line and the ending the
/// file already uses.
pub open spec fn append_spec(existing: Seq<char>, line: Seq<char>) -> Seq<char> {
    let eol = yaml_eol(existing);
    existing + (if existing.len() > 0 && existing.last() != '\n' {
        eol
    } else {
        Seq::empty()
    }) + line + eol
}

/// No line break inside.
pub open spec fn one_line(s: Seq<char>) -> bool {
    forall|i: int| 0 <= i < s.len() ==> s[i] != '\n'
}

proof fn lemma_lines_one_line(s: Seq<char>)
    ensures
        forall|k: int| 0 <= k < crate::text::lines(s).len() ==> one_line(#[trigger] crate::text::lines(s)[k]),
    decreases s.len(),
{
    if s.len() > 0 {
        crate::text::lemma_idx_of_bounds(s, '\n', 0);
        let i = crate::text::idx_of(s, '\n', 0);
        if i < s.len() {
            let rest = s.subrange(i + 1, s.len() as int);
            lemma_lines_one_line(rest);
            let first = crate::text::strip_cr(s.subrange(0, i));
            assert(one_line(first));
            let ls = crate::text::lines(s);
            assert(ls == seq![first] + crate::text::lines(rest));
            assert forall|k: int| 0 <= k < ls.len() implies one_line(#[trigger] ls[k]) by {
                if k > 0 {
                    assert(ls[k] == crate::text::lines(rest)[k - 1]);
                }
            }
        } else {
            assert(crate::text::lines(s) == seq![s]);
        }
    }
}

proof fn lemma_trim_one_line(s: Seq<char>)
    requires
        one_line(s),
    ensures
        one_line(crate::text::trim(s)),
{
    let a = crate::text::trim_start(s);
    lemma_lead_ws_bounds(s, 0);
    crate::text::lemma_trail_ws_bounds(a, a.len() as int);
    assert(one_line(a));
}

proof fn lemma_nonempty_trimmed_one_line(ls: Seq<Seq<char>>)
    requires
        forall|k: int| 0 <= k < ls.len() ==> one_line(#[trigger] ls[k]),
    ensures
        forall|k: int|
            0 <= k < nonempty_trimmed(ls).len() ==> one_line(#[trigger] nonempty_trimmed(ls)[k])
                && nonempty_trimmed(ls)[k].len() > 0,
    decreases ls.len(),
{
    if ls.len() > 0 {
        let p = ls.drop_last();
        assert forall|k: int| 0 <= k < p.len() implies one_line(#[trigger] p[k]) by {
            assert(p[k] == ls[k]);
        }
        lemma_nonempty_trimmed_one_line(p);
        assert(one_line(ls[ls.len() - 1]));
        lemma_trim_one_line(ls.last());
        let t = crate::text::trim(ls.last());
        let r = nonempty_trimmed(ls);
        let q = nonempty_trimmed(p);
        if t.len() > 0 {
            assert(r == q.push(t));
            assert forall|k: int| 0 <= k < r.len() implies one_line(#[trigger] r[k]) && r[k].len() > 0 by {
                if k < q.len() {
                    assert(r[k] == q[k]);
                }
            }
        }
    }
}

proof fn lemma_join_one_line(parts: Seq<Seq<char>>)
    requires
        forall|k: int| 0 <= k < parts.len() ==> one_line(#[trigger] parts[k]) && parts[k].len() > 0,
    ensures
        one_line(join_spaces(parts)),
        parts.len() > 0 ==> join_spaces(parts).len() > 0,
    decreases parts.len(),
{
    if parts.len() > 1 {
        let p = parts.drop_last();
        lemma_join_one_line(p);
        assert(one_line(parts[parts.len() - 1]));
        let j = join_spaces(p) + seq![' '] + parts.last();
        assert forall|i: int| 0 <= i < j.len() implies j[i] != '\n' by {
            if i < join_spaces(p).len() {
            } else if i == join_spaces(p).len() {
            } else {
                assert(j[i] == parts.last()[i - join_spaces(p).len() - 1]);
            }
        }
    } else if parts.len() == 1 {
        assert(one_line(parts[0]));
    }
}

/// The trimmed text has a first line that keeps its first character.
proof fn lemma_first_line_nonempty(t: Seq<char>)
    requires
        t.len() > 0,
        !crate::text::is_ws(t[0]),
    ensures
        crate::text::lines(t).len() > 0,
        crate::text::trim(crate::text::lines(t)[0]).len() > 0,
{
    crate::text::lemma_idx_of_bounds(t, '\n', 0);
    let i = crate::text::idx_of(t, '\n', 0);
    let first = if i < t.len() {
        crate::text::strip_cr(t.subrange(0, i))
    } else {
        t
    };
    assert(crate::text::lines(t)[0] == first);
    assert(first.len() > 0 && first[0] == t[0]);
    crate::text::lemma_lead_ws_bounds(first, 0);
    assert(crate::text::lead_ws(first, 0) == 0);
    let a = crate::text::trim_start(first);
    assert(a[0] == t[0]);
    crate::text::lemma_trail_ws_bounds(a, a.len() as int);
    assert(crate::text::trail_ws(a, a.len() as int) > 0) by {
        if crate::text::trail_ws(a, a.len() as int) == 0 {
            assert(crate::text::is_ws(a[0]));
        }
    }
}

proof fn lemma_nonempty_trimmed_keeps(ls: Seq<Seq<char>>)
    requires
        ls.len() > 0,
        crate::text::trim(ls[0]).len() > 0,
    ensures
        nonempty_trimmed(ls).len() > 0,
    decreases ls.len(),
{
    if ls.len() > 1 {
        assert(ls.drop_last()[0] == ls[0]);
        lemma_nonempty_trimmed_keeps(ls.drop_last());
    }
}

/// A quick capture adds exactly one line and changes nothing before it:
/// the captured text is never empty and holds no line break, and the inbox
/// text read stays a prefix of what is written.
pub proof fn lemma_capture_adds_one_line(existing: Seq<char>, text: Seq<char>)
    requires
        capture_spec(text) is Ok,
    ensures
        capture_spec(text)->Ok_0.len() > 0,
        one_line(capture_spec(text)->Ok_0),
        append_spec(existing, capture_spec(text)->Ok_0).take(existing.len() as int) == existing,
{
    let t = crate::text::trim(text);
    let a = crate::text::trim_start(text);
    lemma_lead_ws_bounds(text, 0);
    crate::text::lemma_trail_ws_bounds(a, a.len() as int);
    assert(t.len() > 0);
    assert(t[0] == a[0]);
    lemma_first_line_nonempty(t);
    let ls = crate::text::lines(t);
    lemma_lines_one_line(t);
    lemma_nonempty_trimmed_one_line(ls);
    lemma_nonempty_trimmed_keeps(ls);
    lemma_join_one_line(nonempty_trimmed(ls));
    let line = capture_spec(text)->Ok_0;
    assert(append_spec(existing, line).take(existing.len() as int) =~= existing);
}

proof fn lemma_join_push(p: Seq<Seq<char>>, t: Seq<char>)
    ensures
        join_spaces(p.push(t)) == if p.len() == 0 {
            t
        } else {
            join_spaces(p) + seq![' '] + t
        },
{
    assert(p.push(t).drop_last() =~= p);
    if p.len() == 0 {
        assert(p.push(t)[0] == t);
    }
}

/// The raw line a capture of `text` adds to the inbox.
#[verifier::spinoff_prover]
pub fn capture_line(text: &str) -> (r: Result<String, CoreError>)
    ensures
        result_view(r) == capture_spec(text@),
{
    let v = chars_of(text);
    let line = crate::text::trim_v(&v);
    if line.len() == 0 {
        return Err(CoreError::TargetMismatch);
    }
    let ls = crate::text::lines_v(&line);
    let mut out = String::new();
    let mut n: usize = 0;
    let mut i: usize = 0;
    while i < ls.len()
        invariant
            i <= ls.len(),
            views(ls@) == crate::text::lines(line@),
            n as int == nonempty_trimmed(views(ls@).subrange(0, i as int)).len(),
            out@ == join_spaces(nonempty_trimmed(views(ls@).subrange(0, i as int))),
            n <= i,
        decreases ls.len() - i,
    {
        assert(views(ls@).subrange(0, i + 1).drop_last() =~= views(ls@).subrange(0, i as int));
        assert(views(ls@)[i as int] == ls@[i as int]@);
        let t = crate::text::trim_v(&ls[i]);
        if t.len() > 0 {
            if n > 0 {
                crate::text::push_char(&mut out, ' ');
            }
            push_all(&mut out, &t);
            proof {
                lemma_join_push(nonempty_trimmed(views(ls@).subrange(0, i as int)), t@);
            }
            n += 1;
        }
        i += 1;
    }
    assert(views(ls@).subrange(0, ls@.len() as int) =~= views(ls@));
    Ok(out)
}

/// Appends a raw line to the inbox text read. The inbox is never created:
/// a missing file (`None`) is an error the interface shows calmly.
pub fn append_to_inbox(existing: Option<&[u8]>, text: &str) -> (r: Result<String, CoreError>)
    ensures
        result_view(r) == match capture_spec(text@) {
            Err(e) => Err(e),
            Ok(line) => match bytes_view(existing) {
                None => Err(CoreError::InboxMissing),
                Some(b) => Ok(append_spec(utf8_lossy(b), line)),
            },
        },
        r is Ok ==> lossless(bytes_view(existing)),
{
    let line = match capture_line(text) {
        Ok(l) => l,
        Err(e) => {
            return Err(e);
        },
    };
    let bytes = match existing {
        Some(b) => b,
        None => {
            return Err(CoreError::InboxMissing);
        },
    };
    let content = decode_lossy(bytes);
    let cv = chars_of(content.as_str());
    let crlf = vec!['\r', '\n'];
    assert(crlf@ =~= seq!['\r', '\n']);
    let lf = vec!['\n'];
    assert(lf@ =~= seq!['\n']);
    let eol = if crate::text::find_v(&cv, &crlf).is_some() {
        crlf
    } else {
        lf
    };
    let mut out = content;
    if cv.len() > 0 && cv[cv.len() - 1] != '\n' {
        push_all(&mut out, &eol);
    }
    crate::text::push_str(&mut out, line.as_str());
    push_all(&mut out, &eol);
    Ok(out)
}

} // verus!
