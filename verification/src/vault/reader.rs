//! Reading notes. The file system walk and file reads belong to the caller;
//! this module decides what a file name is, what a note's bytes mean, and
//! how its identity, title and workspace are derived.
use vstd::prelude::*;
use sha2::Digest;

use crate::config::workspaces::{resolve, resolve_spec};
use crate::json::{keys_unique, Json, Yaml};
use crate::text::{
    chars_of, contains, ends_with_v, find_v, has_prefix, has_suffix, lines, lines_v, push_char,
    slice_of, starts_with_v, string_of, string_views, trim, trim_start, trim_start_v, trim_v, views,
};
use crate::vault::frontmatter::{
    fm_spec, frame, frame_spec, frontmatter_map, lemma_frame_body_suffix, opt_string_view,
    string_field, string_field_spec, Framed,
};
use crate::vault::id::{is_valid_ulid, transient_id, transient_id_spec, ulid_shaped, ID_KEY};
use crate::vault::links;
use crate::vault::note::{kind_of, opt_view, NoteKind, ParsedNote};
use crate::vault::links::links_spec;
use crate::vault::tasks::{task_views, tasks_spec};
use crate::vault::time::{unix_to_iso, unix_to_iso_spec};
use crate::vault::tasks;
use crate::watcher::{is_md_ext, last_dot};
use vstd::string::StringSliceAdditionalSpecFns;

verus! {

/// Bodies longer than this many bytes are indexed cut short (on a character
/// boundary): the note stays searchable without exhausting memory.
pub const MAX_BODY_BYTES: usize = 1024 * 1024;

/// Start of the run of ASCII digits that ends at `j`.
pub open spec fn digit_run(s: Seq<char>, j: int) -> int
    decreases j,
{
    if 0 < j <= s.len() && '0' <= s[j - 1] && s[j - 1] <= '9' {
        digit_run(s, j - 1)
    } else {
        j
    }
}

/// A numbered duplicate a sync tool leaves beside a note: `dosya 2.md`, a
/// name ending in a space, digits and `.md`.
pub open spec fn numbered_copy(name: Seq<char>) -> bool {
    let stem = name.take(name.len() - 3);
    let d = digit_run(stem, stem.len() as int);
    &&& has_suffix(name, ".md"@)
    &&& d < stem.len()
    &&& d > 0
    &&& stem[d - 1] == ' '
}

/// A sync or editor artefact: iCloud placeholders, hidden entries, Office
/// lock files, Dropbox conflict copies and numbered duplicates.
pub open spec fn sync_artifact_spec(name: Seq<char>) -> bool {
    ||| has_suffix(name, ".icloud"@)
    ||| numbered_copy(name)
    ||| has_prefix(name, seq!['.'])
    ||| has_prefix(name, "~$"@)
    ||| contains(name, "conflicted copy"@)
    ||| contains(name, "(Çakışan"@)
}

/// Is this file name a sync artefact to ignore?
pub fn is_sync_artifact(file_name: &str) -> (b: bool)
    ensures
        b == sync_artifact_spec(file_name@),
{
    let n = chars_of(file_name);
    let icloud = chars_of(".icloud");
    let dot = vec!['.'];
    assert(dot@ =~= seq!['.']);
    let office = chars_of("~$");
    let conflicted = chars_of("conflicted copy");
    let cakisan = chars_of("(Çakışan");
    ends_with_v(&n, &icloud) || is_numbered_copy(&n) || starts_with_v(&n, &dot) || starts_with_v(
        &n,
        &office,
    ) || find_v(&n, &conflicted).is_some() || find_v(&n, &cakisan).is_some()
}

fn is_numbered_copy(n: &Vec<char>) -> (b: bool)
    ensures
        b == numbered_copy(n@),
{
    let md = chars_of(".md");
    proof {
        reveal_strlit(".md");
    }
    if !ends_with_v(n, &md) {
        return false;
    }
    let e = n.len() - 3;
    let ghost stem = n@.take(e as int);
    let mut d = e;
    while d > 0 && '0' <= n[d - 1] && n[d - 1] <= '9'
        invariant
            d <= e,
            e == n.len() - 3,
            stem == n@.take(e as int),
            digit_run(stem, e as int) == digit_run(stem, d as int),
        decreases d,
    {
        assert(stem[d - 1] == n@[d - 1]);
        d -= 1;
    }
    if d > 0 {
        assert(stem[d - 1] == n@[d - 1]);
    }
    d < e && d > 0 && n[d - 1] == ' '
}

/// What a directory entry is on disk.
#[derive(Debug, Clone, Copy, PartialEq, Eq, Structural)]
pub enum EntryKind {
    Dir,
    File,
    Other,
}

/// What the walk over the vault does with an entry.
#[derive(Debug, Clone, Copy, PartialEq, Eq, Structural)]
pub enum EntryAction {
    /// Passed over: a sync artefact or hidden entry (`.obsidian`, `.git`,
    /// `.trash`, ...), or not a Markdown file.
    Skip,
    /// A folder to walk into.
    Descend,
    /// A Markdown file to read.
    Collect,
}

/// The extension of a file name: what follows its last `.`, unless that dot
/// starts the name.
pub open spec fn name_extension(name: Seq<char>) -> Option<Seq<char>> {
    match last_dot(name, name.len() as int) {
        Some(k) => if k > 0 {
            Some(name.subrange(k + 1, name.len() as int))
        } else {
            None
        },
        None => None,
    }
}

/// The walk's decision for an entry named `name` of kind `kind`.
pub open spec fn entry_spec(name: Seq<char>, kind: EntryKind) -> EntryAction {
    if sync_artifact_spec(name) {
        EntryAction::Skip
    } else {
        match kind {
            EntryKind::Dir => EntryAction::Descend,
            EntryKind::File => if name_extension(name) matches Some(e) && is_md_ext(e) {
                EntryAction::Collect
            } else {
                EntryAction::Skip
            },
            EntryKind::Other => EntryAction::Skip,
        }
    }
}

/// Decides what the walk over the vault does with one entry: artefacts and
/// hidden entries are passed over, folders walked into, and files with a
/// `.md` extension (in any case) collected.
pub fn entry_action(name: &str, kind: EntryKind) -> (a: EntryAction)
    ensures
        a == entry_spec(name@, kind),
{
    if is_sync_artifact(name) {
        return EntryAction::Skip;
    }
    match kind {
        EntryKind::Dir => EntryAction::Descend,
        EntryKind::Other => EntryAction::Skip,
        EntryKind::File => {
            let v = chars_of(name);
            let mut k = v.len();
            while k > 0 && v[k - 1] != '.'
                invariant
                    k <= v.len(),
                    last_dot(v@, v@.len() as int) == last_dot(v@, k as int),
                decreases k,
            {
                k -= 1;
            }
            if k <= 1 {
                return EntryAction::Skip;
            }
            let e0 = k;
            let ghost e = v@.subrange(e0 as int, v@.len() as int);
            if v.len() - e0 == 2 && (v[e0] == 'm' || v[e0] == 'M') && (v[e0 + 1] == 'd' || v[e0
                + 1] == 'D') {
                assert(e[0] == v@[e0 as int] && e[1] == v@[e0 + 1]);
                EntryAction::Collect
            } else {
                proof {
                    if e.len() == 2 {
                        assert(e[0] == v@[e0 as int] && e[1] == v@[e0 + 1]);
                    }
                }
                EntryAction::Skip
            }
        },
    }
}

/// UTF-8 width of a character.
pub open spec fn utf8_width(c: char) -> nat {
    if (c as u32) < 0x80 {
        1
    } else if (c as u32) < 0x800 {
        2
    } else if (c as u32) < 0x10000 {
        3
    } else {
        4
    }
}

/// UTF-8 length of a character sequence.
pub open spec fn utf8_len(s: Seq<char>) -> nat
    decreases s.len(),
{
    if s.len() == 0 {
        0
    } else {
        utf8_len(s.drop_last()) + utf8_width(s.last())
    }
}

/// The longest prefix of `s`, in whole characters, whose UTF-8 encoding
/// fits in `max` bytes.
pub open spec fn fits_prefix(s: Seq<char>, max: nat, k: int) -> bool {
    &&& 0 <= k <= s.len()
    &&& utf8_len(s.take(k)) <= max
    &&& (k == s.len() || utf8_len(s.take(k + 1)) > max)
}

fn width(c: char) -> (w: usize)
    ensures
        w as nat == utf8_width(c),
{
    let u = c as u32;
    if u < 0x80 {
        1
    } else if u < 0x800 {
        2
    } else if u < 0x10000 {
        3
    } else {
        4
    }
}

/// Cuts `s` to at most `max` bytes without splitting a character.
pub fn truncate_on_char_boundary(s: &str, max: usize) -> (r: &str)
    ensures
        exists|k: int| fits_prefix(s@, max as nat, k) && r@ == s@.take(k),
{
    let v = chars_of(s);
    let mut k: usize = 0;
    let mut used: usize = 0;
    assert(v@.take(0) =~= Seq::<char>::empty());
    while k < v.len()
        invariant
            v@ == s@,
            k <= v.len(),
            used as nat == utf8_len(v@.take(k as int)),
            used <= max,
        decreases v.len() - k,
    {
        let w = width(v[k]);
        assert(v@.take(k + 1).drop_last() =~= v@.take(k as int));
        if w > max - used {
            assert(fits_prefix(s@, max as nat, k as int));
            return s.substring_char(0, k);
        }
        used = used + w;
        k += 1;
    }
    assert(fits_prefix(s@, max as nat, k as int));
    s.substring_char(0, k)
}

/// The SHA-256 digest of a byte sequence. Named, not written out.
pub uninterp spec fn sha256(bytes: Seq<u8>) -> Seq<u8>;

/// SHA-256 (`sha2::Sha256::digest`): the digest of the bytes, 32 bytes long.
#[verifier::external_body]
fn sha256_digest(bytes: &[u8]) -> (d: Vec<u8>)
    ensures
        d@ == sha256(bytes@),
        d@.len() == 32,
{
    sha2::Sha256::digest(bytes).to_vec()
}

/// Lower-case hexadecimal digit.
pub open spec fn hex_digit(d: nat) -> char {
    if d < 10 {
        (48 + d) as char
    } else {
        (87 + d) as char
    }
}

/// Lower-case hexadecimal of a byte sequence, two digits per byte.
pub open spec fn hex(bytes: Seq<u8>) -> Seq<char>
    decreases bytes.len(),
{
    if bytes.len() == 0 {
        Seq::empty()
    } else {
        hex(bytes.drop_last()) + seq![
            hex_digit((bytes.last() / 16) as nat),
            hex_digit((bytes.last() % 16) as nat),
        ]
    }
}

/// The content hash of a file: the first 16 bytes of its SHA-256 digest in
/// lower-case hexadecimal (32 characters).
pub open spec fn content_hash_spec(bytes: Seq<u8>) -> Seq<char> {
    hex(sha256(bytes).take(16))
}

fn hex_char(d: u8) -> (c: char)
    requires
        d < 16,
    ensures
        c == hex_digit(d as nat),
{
    if d < 10 {
        (48u8 + d) as char
    } else {
        (87u8 + d) as char
    }
}

/// Content hash of a file's bytes. Equal hashes mean re-indexing is skipped.
pub fn hash(bytes: &[u8]) -> (h: String)
    ensures
        h@ == content_hash_spec(bytes@),
        h@.len() == 32,
{
    let digest = sha256_digest(bytes);
    let mut out = String::new();
    let mut i: usize = 0;
    assert(digest@.take(0) =~= Seq::<u8>::empty());
    while i < 16
        invariant
            i <= 16,
            digest@.len() == 32,
            digest@ == sha256(bytes@),
            out@ == hex(digest@.take(i as int)),
            out@.len() == 2 * i,
        decreases 16 - i,
    {
        let b = digest[i];
        push_char(&mut out, hex_char(b / 16));
        push_char(&mut out, hex_char(b % 16));
        assert(digest@.take(i + 1).drop_last() =~= digest@.take(i as int));
        i += 1;
    }
    out
}

/// Title order: frontmatter `title`, then the first `# ` heading among the
/// first 40 lines of the body, then the file stem, then `Adsız`.
pub open spec fn title_spec(fm: Seq<(String, Json)>, body: Seq<char>, stem: Option<Seq<char>>) -> Seq<char> {
    match string_field_spec(fm, "title"@) {
        Some(t) => t,
        None => match h1_from(lines(body), 0) {
            Some(h) => h,
            None => match stem {
                Some(s) => s,
                None => "Adsız"@,
            },
        },
    }
}

/// The first non-empty `# ` heading among lines `i..40`.
pub open spec fn h1_from(ls: Seq<Seq<char>>, i: int) -> Option<Seq<char>>
    decreases 40 - i,
{
    if i < 0 || i >= 40 || i >= ls.len() {
        None
    } else {
        let t = trim_start(ls[i]);
        if has_prefix(t, seq!['#', ' ']) && trim(t.subrange(2, t.len() as int)).len() > 0 {
            Some(trim(t.subrange(2, t.len() as int)))
        } else {
            h1_from(ls, i + 1)
        }
    }
}

/// The text of a line that is a non-empty `# ` heading (after leading
/// whitespace), trimmed.
pub open spec fn heading_text(line: Seq<char>) -> Option<Seq<char>> {
    let t = trim_start(line);
    if t.len() >= 2 && t[0] == '#' && t[1] == ' ' && trim(t.subrange(2, t.len() as int)).len() > 0 {
        Some(trim(t.subrange(2, t.len() as int)))
    } else {
        None
    }
}

proof fn lemma_h1_from(ls: Seq<Seq<char>>, k: int, i: int)
    requires
        0 <= k <= i < 40,
        i < ls.len(),
        heading_text(ls[i]) is Some,
        forall|j: int| k <= j < i ==> heading_text(#[trigger] ls[j]) is None,
    ensures
        h1_from(ls, k) == heading_text(ls[i]),
    decreases i - k,
{
    let t = trim_start(ls[k]);
    assert(has_prefix(t, seq!['#', ' ']) <==> (t.len() >= 2 && t[0] == '#' && t[1] == ' ')) by {
        if t.len() >= 2 {
            assert(t.subrange(0, 2) =~= seq![t[0], t[1]]);
        }
    }
    if k < i {
        lemma_h1_from(ls, k + 1, i);
    }
}

proof fn lemma_h1_none(ls: Seq<Seq<char>>, k: int)
    requires
        0 <= k,
        forall|j: int| k <= j < 40 && j < ls.len() ==> heading_text(#[trigger] ls[j]) is None,
    ensures
        h1_from(ls, k) is None,
    decreases 40 - k,
{
    if k < 40 && k < ls.len() {
        let t = trim_start(ls[k]);
        assert(has_prefix(t, seq!['#', ' ']) <==> (t.len() >= 2 && t[0] == '#' && t[1] == ' ')) by {
            if t.len() >= 2 {
                assert(t.subrange(0, 2) =~= seq![t[0], t[1]]);
            }
        }
        lemma_h1_none(ls, k + 1);
    }
}

/// Law: without a `title` field, a note is titled by the first non-empty
/// `# ` heading among the first 40 lines of its body; only when none of
/// those lines is one does the file stem (or `Adsız`) stand instead. A
/// `title` field always wins.
pub proof fn lemma_title_order(fm: Seq<(String, Json)>, body: Seq<char>, stem: Option<Seq<char>>, i: int)
    ensures
        string_field_spec(fm, "title"@) matches Some(t) ==> title_spec(fm, body, stem) == t,
        string_field_spec(fm, "title"@) is None && 0 <= i < 40 && i < lines(body).len()
            && heading_text(lines(body)[i]) is Some && (forall|j: int|
            0 <= j < i ==> heading_text(#[trigger] lines(body)[j]) is None) ==> title_spec(
            fm,
            body,
            stem,
        ) == heading_text(lines(body)[i])->0,
        string_field_spec(fm, "title"@) is None && (forall|j: int|
            0 <= j < 40 && j < lines(body).len() ==> heading_text(#[trigger] lines(body)[j]) is None)
            ==> title_spec(fm, body, stem) == match stem {
            Some(s) => s,
            None => "Adsız"@,
        },
{
    let ls = lines(body);
    if string_field_spec(fm, "title"@) is None {
        if 0 <= i < 40 && i < ls.len() && heading_text(ls[i]) is Some && (forall|j: int|
            0 <= j < i ==> heading_text(#[trigger] ls[j]) is None) {
            lemma_h1_from(ls, 0, i);
        }
        if forall|j: int| 0 <= j < 40 && j < ls.len() ==> heading_text(#[trigger] ls[j]) is None {
            lemma_h1_none(ls, 0);
        }
    }
}

/// Derives a note's title.
pub fn derive_title(fm: &Vec<(String, Json)>, body: &str, file_stem: Option<String>) -> (t: String)
    requires
        keys_unique(fm@),
    ensures
        t@ == title_spec(fm@, body@, opt_view(file_stem)),
{
    if let Some(t) = string_field(fm, "title") {
        return t;
    }
    let v = chars_of(body);
    let ls = lines_v(&v);
    let hash_sp = vec!['#', ' '];
    assert(hash_sp@ =~= seq!['#', ' ']);
    let mut i: usize = 0;
    while i < ls.len() && i < 40
        invariant
            views(ls@) == lines(body@),
            hash_sp@ == seq!['#', ' '],
            string_field_spec(fm@, "title"@) is None,
            h1_from(lines(body@), 0) == h1_from(lines(body@), i as int),
        decreases 40 - i,
    {
        assert(views(ls@)[i as int] == ls@[i as int]@);
        let t = trim_start_v(&ls[i]);
        if starts_with_v(&t, &hash_sp) {
            let rest = slice_of(&t, 2, t.len());
            let h1 = trim_v(&rest);
            if h1.len() > 0 {
                return string_of(&h1);
            }
        }
        i += 1;
    }
    match file_stem {
        Some(s) => s,
        None => String::from_str("Adsız"),
    }
}

/// Workspace order: frontmatter `workspace`, then the top folder of a path
/// that has one. A note at the vault root has no workspace.
pub open spec fn workspace_raw_spec(fm: Seq<(String, Json)>, source_path: Seq<char>) -> Option<Seq<char>> {
    match string_field_spec(fm, "workspace"@) {
        Some(w) => Some(w),
        None => {
            let i = crate::text::idx_of(source_path, '/', 0);
            if i < source_path.len() {
                Some(source_path.subrange(0, i))
            } else {
                None
            }
        },
    }
}

/// The raw workspace value of a note, before resolution.
pub fn derive_workspace(fm: &Vec<(String, Json)>, source_path: &str) -> (w: Option<String>)
    requires
        keys_unique(fm@),
    ensures
        opt_string_view(w) == workspace_raw_spec(fm@, source_path@),
{
    if let Some(w) = string_field(fm, "workspace") {
        return Some(w);
    }
    let p = chars_of(source_path);
    let i = crate::text::idx_of_exec(&p, '/', 0);
    proof {
        crate::text::lemma_idx_of_bounds(p@, '/', 0);
    }
    if i < p.len() {
        Some(string_of_prefix(&p, i))
    } else {
        None
    }
}

fn string_of_prefix(p: &Vec<char>, i: usize) -> (s: String)
    requires
        i <= p.len(),
    ensures
        s@ == p@.subrange(0, i as int),
{
    crate::text::string_of_range(p, 0, i)
}

/// The text of a file's bytes with every invalid UTF-8 sequence replaced by
/// U+FFFD. Named, not written out.
pub uninterp spec fn utf8_lossy(bytes: Seq<u8>) -> Seq<char>;

/// `String::from_utf8_lossy`: the text of the bytes, each invalid sequence
/// replaced by one U+FFFD. Valid UTF-8 decodes to exactly its text. Every
/// character comes from at least one byte, so there are no more characters
/// than bytes.
#[verifier::external_body]
pub(crate) fn decode_lossy(bytes: &[u8]) -> (s: String)
    ensures
        s@ == utf8_lossy(bytes@),
        vstd::utf8::valid_utf8(bytes@) ==> s@ == vstd::utf8::decode_utf8(bytes@),
        s@.len() <= bytes@.len(),
{
    String::from_utf8_lossy(bytes).into_owned()
}

/// The file line at which a body starts: the number of lines of the text
/// in front of it.
pub open spec fn body_line_offset(content: Seq<char>, body: Seq<char>) -> nat {
    lines(content.take(content.len() - body.len())).len()
}

/// The identity of a note: a valid declared `arkeles_id` makes it managed;
/// anything else gets the transient identity of its path.
pub open spec fn identity_spec(fm: Seq<(String, Json)>, path_bytes: Seq<u8>) -> (Seq<char>, bool) {
    match string_field_spec(fm, "arkeles_id"@) {
        Some(c) if ulid_shaped(c) => (c, true),
        _ => (transient_id_spec(path_bytes), false),
    }
}

/// The YAML text of a framed block, empty when the note has none.
pub open spec fn yaml_text(y: Option<Seq<char>>) -> Seq<char> {
    match y {
        Some(t) => t,
        None => Seq::empty(),
    }
}

/// The canonical workspace of a note: its raw value resolved against the
/// registry; `None` when there is no value or it matches no workspace.
pub open spec fn workspace_spec(fm: Seq<(String, Json)>, source_path: Seq<char>) -> Option<Seq<char>> {
    match workspace_raw_spec(fm, source_path) {
        Some(w) => resolve_spec(w),
        None => None,
    }
}

/// The meeting date of a note: the `date` field, for meetings only.
pub open spec fn event_date_spec(fm: Seq<(String, Json)>, kind: NoteKind) -> Option<Seq<char>> {
    if kind == NoteKind::Meeting {
        string_field_spec(fm, "date"@)
    } else {
        None
    }
}

/// What [`build_note`] makes of a file: `raw` its bytes, `parsed_yaml`
/// what a YAML parser made of its frontmatter block, `file_stem` the view of
/// its file stem.
pub open spec fn note_built(
    raw: Seq<u8>,
    parsed_yaml: Option<Yaml>,
    source_path: &str,
    file_stem: Option<Seq<char>>,
    modified_secs: u64,
    n: ParsedNote,
) -> bool {
    let content = utf8_lossy(raw);
    let framed = frame_spec(content);
    let fm = n.frontmatter@;
    &&& fm_spec(yaml_text(framed.0), parsed_yaml, n.frontmatter)
    &&& keys_unique(fm)
    &&& exists|k: int| fits_prefix(framed.1, MAX_BODY_BYTES as nat, k) && n.body@ == framed.1.take(k)
    &&& n.content_hash@ == content_hash_spec(raw)
    &&& n.modified_at@ == unix_to_iso_spec(modified_secs as nat)
    &&& n.source_path@ == source_path@
    &&& (n.id@, n.managed) == identity_spec(fm, source_path.spec_bytes())
    &&& n.title@ == title_spec(fm, n.body@, file_stem)
    &&& opt_view(n.workspace) == workspace_spec(fm, source_path@)
    &&& task_views(n.tasks@) == tasks_spec(n.body@, body_line_offset(content, framed.1) as int)
    &&& string_views(n.links@) == links_spec(n.body@)
    &&& n.kind == kind_of(string_field_spec(fm, "arkeles_type"@))
    &&& opt_view(n.event_date) == event_date_spec(fm, n.kind)
}

/// The YAML value behind an optional reference.
pub open spec fn opt_yaml(y: Option<&Yaml>) -> Option<Yaml> {
    match y {
        Some(v) => Some(*v),
        None => None,
    }
}

/// Builds the index record of one note from the bytes of its file.
///
/// `parsed_yaml` is what a YAML parser made of the frontmatter block that
/// `frontmatter::frame` finds in the decoded bytes (`None` when it did not
/// parse); `modified_secs` is the file's modification time. A broken file is
/// never refused: its frontmatter is empty and the note is still indexed.
/// Its line numbers are `u32`, so the text has fewer than `u32::MAX` lines
/// ([`note_of_file`] checks this first).
pub fn build_note(
    raw: &[u8],
    parsed_yaml: Option<&Yaml>,
    source_path: &str,
    file_stem: Option<String>,
    modified_secs: u64,
) -> (n: ParsedNote)
    requires
        lines(utf8_lossy(raw@)).len() < u32::MAX,
    ensures
        vstd::utf8::valid_utf8(raw@) ==> utf8_lossy(raw@) == vstd::utf8::decode_utf8(raw@),
        note_built(raw@, opt_yaml(parsed_yaml), source_path, opt_view(file_stem), modified_secs, n),
{
    let content = decode_lossy(raw);
    let framed = frame(content.as_str());
    let fm = match &framed.yaml {
        Some(y) => frontmatter_map(y.as_str(), parsed_yaml),
        None => frontmatter_map(empty_str(), parsed_yaml),
    };
    let body = truncate_on_char_boundary(framed.body.as_str(), MAX_BODY_BYTES);
    let line_offset = body_offset(&content, &framed, body);
    let (id, managed) = note_identity(&fm, source_path);
    let title = derive_title(&fm, body, file_stem);
    let workspace = note_workspace(&fm, source_path);
    let (kind, event_date) = note_kind(&fm);
    let tasks = tasks::parse(body, line_offset);
    let links = links::parse(body);
    ParsedNote {
        id,
        managed,
        title,
        source_path: String::from_str(source_path),
        frontmatter: fm,
        tasks,
        links,
        body: String::from_str(body),
        content_hash: hash(raw),
        modified_at: unix_to_iso(modified_secs),
        workspace,
        kind,
        event_date,
    }
}

/// The index record of a note file, as [`build_note`] makes it, or `None`
/// when its decoded text has `u32::MAX` lines or more (its task line
/// numbers would not fit).
pub fn note_of_file(
    raw: &[u8],
    parsed_yaml: Option<&Yaml>,
    source_path: &str,
    file_stem: Option<String>,
    modified_secs: u64,
) -> (r: Option<ParsedNote>)
    ensures
        r is None <==> lines(utf8_lossy(raw@)).len() >= u32::MAX,
        r matches Some(n) ==> note_built(
            raw@,
            opt_yaml(parsed_yaml),
            source_path,
            opt_view(file_stem),
            modified_secs,
            n,
        ),
{
    let content = decode_lossy(raw);
    let count = lines_v(&chars_of(content.as_str())).len();
    if count >= 0xffff_ffff {
        None
    } else {
        Some(build_note(raw, parsed_yaml, source_path, file_stem, modified_secs))
    }
}

fn empty_str() -> (s: &'static str)
    ensures
        s@ == Seq::<char>::empty(),
{
    proof {
        reveal_strlit("");
    }
    ""
}

/// The line at which the (cut) body starts in its file.
fn body_offset(content: &String, framed: &Framed, body: &str) -> (off: u32)
    requires
        lines(content@).len() < u32::MAX,
        framed.body@ == frame_spec(content@).1,
        exists|k: int| fits_prefix(framed.body@, MAX_BODY_BYTES as nat, k) && body@ == framed.body@.take(k),
    ensures
        off == body_line_offset(content@, framed.body@),
        off + lines(body@).len() <= u32::MAX,
{
    proof {
        lemma_frame_body_suffix(content@);
        let k = choose|k: int| fits_prefix(framed.body@, MAX_BODY_BYTES as nat, k) && body@ == framed.body@.take(k);
        crate::text::lemma_lines_take(framed.body@, k);
        let p = content@.take(content@.len() - framed.body@.len());
        assert(content@ =~= p + framed.body@);
        crate::text::lemma_lines_concat(p, framed.body@);
    }
    let cv = chars_of(content.as_str());
    let prefix = slice_of(&cv, 0, cv.len() - framed_len(framed));
    let prefix_lines = lines_v(&prefix);
    proof {
        assert(prefix@ =~= content@.take(content@.len() - framed.body@.len()));
        assert(views(prefix_lines@).len() == prefix_lines@.len());
    }
    prefix_lines.len() as u32
}

/// The identity a note's frontmatter and path give it.
fn note_identity(fm: &Vec<(String, Json)>, source_path: &str) -> (r: (String, bool))
    requires
        keys_unique(fm@),
    ensures
        (r.0@, r.1) == identity_spec(fm@, source_path.spec_bytes()),
{
    proof {
        reveal_strlit("arkeles_id");
    }
    match string_field(fm, ID_KEY) {
        Some(c) => {
            if is_valid_ulid(c.as_str()) {
                (c, true)
            } else {
                (transient_id(source_path), false)
            }
        },
        None => (transient_id(source_path), false),
    }
}

/// The canonical workspace of a note.
fn note_workspace(fm: &Vec<(String, Json)>, source_path: &str) -> (w: Option<String>)
    requires
        keys_unique(fm@),
    ensures
        opt_view(w) == workspace_spec(fm@, source_path@),
{
    match derive_workspace(fm, source_path) {
        Some(raw) => match resolve(raw.as_str()) {
            Some(id) => Some(String::from_str(id)),
            None => None,
        },
        None => None,
    }
}

/// The kind of a note and, for a meeting, its date.
fn note_kind(fm: &Vec<(String, Json)>) -> (r: (NoteKind, Option<String>))
    requires
        keys_unique(fm@),
    ensures
        r.0 == kind_of(string_field_spec(fm@, "arkeles_type"@)),
        opt_view(r.1) == event_date_spec(fm@, r.0),
{
    let raw = string_field(fm, "arkeles_type");
    let kind = match &raw {
        Some(r) => NoteKind::from_frontmatter(Some(r.as_str())),
        None => NoteKind::from_frontmatter(None),
    };
    let date = if kind == NoteKind::Meeting {
        string_field(fm, "date")
    } else {
        None
    };
    (kind, date)
}

fn framed_len(f: &Framed) -> (n: usize)
    ensures
        n == f.body@.len(),
{
    let v = chars_of(f.body.as_str());
    v.len()
}

} // verus!
