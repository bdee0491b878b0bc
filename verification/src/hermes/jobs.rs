//! The ledger of jobs the application hands to Hermes. The application does
//! not do the work: it records what was sent and what Hermes reported.
//! Every state has one source:
//!
//! - `queued`: recorded here, not yet accepted by Hermes;
//! - `running`: Hermes accepted the prompt;
//! - `completed`: Hermes reported the turn done;
//! - `failed`: Hermes reported an error, or could not be reached;
//! - `cancelled`: the user cancelled; Hermes interrupted the turn, or it
//!   never began.
//!
//! The rows live in the index database, which the caller reads and writes;
//! this module decides what a submission is, what each transition writes,
//! and which queued job a free slot takes.
use vstd::prelude::*;

use crate::config::workspaces::{registry, workspaces, WorkspaceDef, def_view};
use crate::error::{error_code, CoreError};
use crate::hermes::contract::{
    action_index, action_registry, action_view, find_action, opt_str, prompt_for, prompt_spec,
    session_title, session_title_spec, ActionDef,
};
use crate::hermes::turn::Outcome;
use crate::text::{chars_of, dec, push_char, push_dec, push_str, same_text, string_views, trim, trim_v};

verus! {

/// Jobs returned on one page of history.
pub const HISTORY_LIMIT: usize = 200;

/// Characters of the input kept as the job's title.
pub const SUMMARY_CHARS: usize = 120;

/// Characters of input sent to Hermes: unbounded text would swell the
/// ledger and Hermes.
pub const MAX_INPUT_CHARS: usize = 8000;

/// Turns running at once, so the application does not exhaust Hermes's
/// sessions.
pub const MAX_CONCURRENT: usize = 2;

/// A job as the interface lists it.
#[derive(Debug, Clone)]
pub struct Job {
    pub id: String,
    pub action: String,
    /// The action's label, or its raw name when it is not on the allowlist.
    pub action_label: String,
    pub workspace: Option<String>,
    pub summary: String,
    pub status: String,
    pub created_at: String,
    pub started_at: Option<String>,
    pub finished_at: Option<String>,
    /// Only what Hermes reported; never made up.
    pub progress: Option<u32>,
    pub error_code: Option<String>,
    pub error_message: Option<String>,
    /// Where the job came from (`arkeles`, or e.g. `telegram`).
    pub source: String,
}

/// A new job and the full text to send to Hermes.
#[derive(Debug, Clone)]
pub struct Submission {
    pub job: Job,
    pub input: String,
}

/// Job ids, unique within one counter: `job-<unix ms>-<n>`.
#[derive(Debug)]
pub struct JobIds {
    pub next: u64,
}

impl JobIds {
    /// A counter that starts at 1.
    pub fn new() -> (j: JobIds)
        ensures
            j.next == 1,
    {
        JobIds { next: 1 }
    }

    /// A new job id at `now_ms`.
    pub fn new_job_id(&mut self, now_ms: u64) -> (id: String)
        requires
            old(self).next < u64::MAX,
        ensures
            id@ == job_id_spec(now_ms as nat, old(self).next as nat),
            final(self).next == old(self).next + 1,
    {
        let mut s = String::from_str("job-");
        push_dec(&mut s, now_ms);
        push_char(&mut s, '-');
        push_dec(&mut s, self.next);
        self.next = self.next + 1;
        s
    }
}

/// Decimal notation holds digits only.
proof fn lemma_dec_digits(n: nat)
    ensures
        dec(n).len() >= 1,
        forall|i: int| 0 <= i < dec(n).len() ==> ('0' <= #[trigger] dec(n)[i] && dec(n)[i] <= '9'),
    decreases n,
{
    if n >= 10 {
        lemma_dec_digits(n / 10);
        assert(dec(n) == dec(n / 10).push(crate::text::digit_char(n % 10)));
    }
}

/// The id a counter value gives at a time.
pub open spec fn job_id_spec(now_ms: nat, n: nat) -> Seq<char> {
    "job-"@ + dec(now_ms) + seq!['-'] + dec(n)
}

/// Job ids from different counter values differ, whatever the clock said:
/// the counter follows the last `-`, and decimals hold no `-`.
pub proof fn lemma_job_ids_unique(ms1: nat, n1: nat, ms2: nat, n2: nat)
    requires
        n1 != n2,
    ensures
        job_id_spec(ms1, n1) != job_id_spec(ms2, n2),
{
    let a = job_id_spec(ms1, n1);
    let b = job_id_spec(ms2, n2);
    lemma_dec_digits(n1);
    lemma_dec_digits(n2);
    let l1 = dec(n1).len() as int;
    let l2 = dec(n2).len() as int;
    if a == b {
        assert(a[a.len() - 1 - l1] == '-');
        assert(b[b.len() - 1 - l2] == '-');
        if l1 < l2 {
            assert(b[b.len() - 1 - l1] == dec(n2)[l2 - 1 - l1]);
        } else if l2 < l1 {
            assert(a[a.len() - 1 - l2] == dec(n1)[l1 - 1 - l2]);
        } else {
            assert(a.subrange(a.len() - l1, a.len() as int) =~= dec(n1));
            assert(b.subrange(b.len() - l2, b.len() as int) =~= dec(n2));
            crate::hermes::rpc::lemma_dec_injective(n1, n2);
        }
    }
}

/// A workspace id on the registry.
pub open spec fn known_workspace(w: Seq<char>) -> bool {
    exists|i: int| 0 <= i < registry().len() && registry()[i].0 == w
}

fn is_known_workspace(w: &str) -> (b: bool)
    ensures
        b == known_workspace(w@),
{
    let ws = workspaces();
    let mut k: usize = 0;
    while k < ws.len()
        invariant
            k <= ws.len(),
            ws@.map_values(|d: WorkspaceDef| def_view(d)) == registry(),
            ws@.len() == registry().len(),
            forall|j: int| 0 <= j < k ==> registry()[j].0 != w@,
        decreases ws.len() - k,
    {
        assert(def_view(ws@[k as int]) == registry()[k as int]);
        if same_text(ws[k].id, w) {
            return true;
        }
        k += 1;
    }
    false
}

/// At most `n` first characters.
pub open spec fn first_chars(s: Seq<char>, n: nat) -> Seq<char> {
    if s.len() <= n {
        s
    } else {
        s.subrange(0, n as int)
    }
}

/// Why a submission is refused, if it is: an action off the allowlist, a
/// workspace off the registry (it would enter the prompt header), or no
/// text.
pub open spec fn submit_refusal(action_id: Seq<char>, workspace: Option<Seq<char>>, input: Seq<char>) -> Option<CoreError> {
    if action_index(action_id) is None {
        Some(CoreError::ActionNotAllowed)
    } else if workspace matches Some(w) && !known_workspace(w) {
        Some(CoreError::TargetMismatch)
    } else if trim(input).len() == 0 {
        Some(CoreError::TargetMismatch)
    } else {
        None
    }
}

fn prefix_string(v: &Vec<char>, n: usize) -> (s: String)
    ensures
        s@ == first_chars(v@, n as nat),
{
    if v.len() <= n {
        crate::text::string_of(v)
    } else {
        crate::text::string_of_range(v, 0, n)
    }
}

/// Records a request as a new queued job.
///
/// The action and the workspace come from the allowlists; the user's text
/// is trimmed, kept as plain text and cut to `MAX_INPUT_CHARS`; its first
/// `SUMMARY_CHARS` characters are the job's title. The job starts `queued`,
/// with no progress, from the `arkeles` source.
pub fn submit(
    ids: &mut JobIds,
    now_ms: u64,
    created_at: &str,
    action_id: &str,
    workspace: Option<&str>,
    input: &str,
) -> (r: Result<Submission, CoreError>)
    requires
        old(ids).next < u64::MAX,
    ensures
        match submit_refusal(action_id@, opt_str(workspace), input@) {
            Some(e) => r == Err::<Submission, CoreError>(e) && final(ids).next == old(ids).next,
            None => r matches Ok(s) && {
                let i = action_index(action_id@)->0;
                let text = first_chars(trim(input@), MAX_INPUT_CHARS as nat);
                &&& s.job.id@ == "job-"@ + dec(now_ms as nat) + seq!['-'] + dec(old(ids).next as nat)
                &&& s.job.action@ == action_registry()[i].0
                &&& s.job.action_label@ == action_registry()[i].1
                &&& opt_str_view(s.job.workspace) == opt_str(workspace)
                &&& s.job.summary@ == first_chars(text, SUMMARY_CHARS as nat)
                &&& s.input@ == text
                &&& s.job.status@ == "queued"@
                &&& s.job.created_at@ == created_at@
                &&& s.job.started_at is None
                &&& s.job.finished_at is None
                &&& s.job.progress is None
                &&& s.job.error_code is None
                &&& s.job.error_message is None
                &&& s.job.source@ == "arkeles"@
                &&& final(ids).next == old(ids).next + 1
            },
        },
{
    let action = match find_action(action_id) {
        Some(a) => a,
        None => {
            return Err(CoreError::ActionNotAllowed);
        },
    };
    if let Some(w) = workspace {
        if !is_known_workspace(w) {
            return Err(CoreError::TargetMismatch);
        }
    }
    let t = trim_v(&chars_of(input));
    if t.len() == 0 {
        return Err(CoreError::TargetMismatch);
    }
    let text = prefix_string(&t, MAX_INPUT_CHARS);
    let tv = chars_of(text.as_str());
    let summary = prefix_string(&tv, SUMMARY_CHARS);
    let id = ids.new_job_id(now_ms);
    let job = Job {
        id,
        action: String::from_str(action.id),
        action_label: String::from_str(action.label),
        workspace: match workspace {
            Some(w) => Some(String::from_str(w)),
            None => None,
        },
        summary,
        status: String::from_str("queued"),
        created_at: String::from_str(created_at),
        started_at: None,
        finished_at: None,
        progress: None,
        error_code: None,
        error_message: None,
        source: String::from_str("arkeles"),
    };
    Ok(Submission { job, input: text })
}

/// The view of an optional string.
pub open spec fn opt_str_view(o: Option<String>) -> Option<Seq<char>> {
    match o {
        Some(s) => Some(s@),
        None => None,
    }
}

/// The title and text Hermes receives for a job.
#[derive(Debug, Clone)]
pub struct Prepared {
    pub title: String,
    pub prompt: String,
}

/// The request of a queued job, from its stored action, workspace and
/// input. An action that left the allowlist is refused.
pub fn prepare(action: &str, workspace: Option<&str>, input: &str) -> (r: Result<Prepared, CoreError>)
    ensures
        match action_index(action@) {
            None => r == Err::<Prepared, CoreError>(CoreError::ActionNotAllowed),
            Some(i) => r matches Ok(p) && p.title@ == session_title_spec(
                action_registry()[i].1,
                opt_str(workspace),
            ) && p.prompt@ == prompt_spec(action_registry()[i].1, opt_str(workspace), input@),
        },
{
    let a = match find_action(action) {
        Some(a) => a,
        None => {
            return Err(CoreError::ActionNotAllowed);
        },
    };
    Ok(Prepared { title: session_title(&a, workspace), prompt: prompt_for(&a, workspace, input) })
}

/// The label a stored action shows: its allowlist label, or the raw name.
pub fn action_label(action: &str) -> (l: String)
    ensures
        l@ == match action_index(action@) {
            Some(i) => action_registry()[i].1,
            None => action@,
        },
{
    match find_action(action) {
        Some(a) => String::from_str(a.label),
        None => String::from_str(action),
    }
}

// ---------------------------------------------------------------------------
// Jobs in flight
// ---------------------------------------------------------------------------

/// The turns running in this process, and whether the ledger changed since
/// the interface was last told. A job is never sent twice; at most
/// `MAX_CONCURRENT` run at once.
#[derive(Debug)]
pub struct InFlight {
    pub ids: Vec<String>,
    pub dirty: bool,
}

/// The in-flight ids are distinct and within the limit.
pub open spec fn flight_wf(ids: Seq<Seq<char>>) -> bool {
    &&& ids.len() <= MAX_CONCURRENT
    &&& ids.no_duplicates()
}

/// Nothing in flight, nothing changed.
pub fn in_flight() -> (f: InFlight)
    ensures
        f.ids@.len() == 0,
        !f.dirty,
{
    InFlight { ids: Vec::new(), dirty: false }
}

/// Takes the first queued job that is not already in flight, when a
/// slot is free. `queued` is in the order the jobs were queued.
pub fn claim_next(flight: &mut InFlight, queued: &Vec<String>) -> (r: Option<String>)
    requires
        flight_wf(string_views(old(flight).ids@)),
    ensures
        flight_wf(string_views(final(flight).ids@)),
        final(flight).dirty == old(flight).dirty,
        old(flight).ids@.len() >= MAX_CONCURRENT ==> r is None && final(flight).ids@ == old(flight).ids@,
        match r {
            Some(id) => {
                &&& old(flight).ids@.len() < MAX_CONCURRENT
                &&& exists|k: int|
                    0 <= k < queued@.len() && queued@[k]@ == id@ && (forall|j: int|
                        0 <= j < k ==> string_views(old(flight).ids@).contains(
                            #[trigger] queued@[j]@,
                        ))
                &&& !string_views(old(flight).ids@).contains(id@)
                &&& string_views(final(flight).ids@) == string_views(old(flight).ids@).push(id@)
            },
            None => {
                &&& final(flight).ids@ == old(flight).ids@
                &&& old(flight).ids@.len() < MAX_CONCURRENT ==> forall|j: int|
                    0 <= j < queued@.len() ==> string_views(old(flight).ids@).contains(
                        #[trigger] queued@[j]@,
                    )
            },
        },
{
    if flight.ids.len() >= MAX_CONCURRENT {
        return None;
    }
    let mut k: usize = 0;
    while k < queued.len()
        invariant
            k <= queued.len(),
            flight.ids@ == old(flight).ids@,
            flight.dirty == old(flight).dirty,
            flight_wf(string_views(old(flight).ids@)),
            old(flight).ids@.len() < MAX_CONCURRENT,
            forall|j: int|
                0 <= j < k ==> string_views(flight.ids@).contains(#[trigger] queued@[j]@),
        decreases queued.len() - k,
    {
        let q = chars_of(queued[k].as_str());
        if !crate::vault::links::holds(&flight.ids, &q) {
            let id = queued[k].clone();
            let ghost before = string_views(flight.ids@);
            flight.ids.push(queued[k].clone());
            proof {
                assert(string_views(flight.ids@) =~= before.push(queued@[k as int]@));
                assert forall|a: int, b: int|
                    0 <= a < string_views(flight.ids@).len() && 0 <= b < string_views(
                        flight.ids@,
                    ).len() && a != b implies string_views(flight.ids@)[a] != string_views(
                    flight.ids@,
                )[b] by {
                    if a == before.len() as int {
                        assert(before[b] == string_views(flight.ids@)[b]);
                        assert(before.contains(before[b]));
                    } else if b == before.len() as int {
                        assert(before[a] == string_views(flight.ids@)[a]);
                        assert(before.contains(before[a]));
                    } else {
                        assert(before[a] == string_views(flight.ids@)[a]);
                        assert(before[b] == string_views(flight.ids@)[b]);
                    }
                }
            }
            return Some(id);
        }
        k += 1;
    }
    None
}

/// A turn ended: its job leaves the flight.
pub fn release(flight: &mut InFlight, job_id: &str)
    requires
        flight_wf(string_views(old(flight).ids@)),
    ensures
        flight_wf(string_views(final(flight).ids@)),
        final(flight).dirty == old(flight).dirty,
        string_views(final(flight).ids@) == string_views(old(flight).ids@).filter(
            |x: Seq<char>| x != job_id@,
        ),
{
    let ghost sv = string_views(flight.ids@);
    let ghost f = |x: Seq<char>| x != job_id@;
    let mut out: Vec<String> = Vec::new();
    let mut i: usize = 0;
    while i < flight.ids.len()
        invariant
            i <= flight.ids.len(),
            sv == string_views(flight.ids@),
            flight.ids@ == old(flight).ids@,
            f == (|x: Seq<char>| x != job_id@),
            string_views(out@) == sv.subrange(0, i as int).filter(f),
        decreases flight.ids.len() - i,
    {
        proof {
            let a = sv.subrange(0, i as int);
            assert(sv.subrange(0, i + 1) =~= a.push(sv[i as int]));
            reveal(Seq::filter);
            assert(a.push(sv[i as int]).drop_last() =~= a);
        }
        if !same_text(flight.ids[i].as_str(), job_id) {
            out.push(flight.ids[i].clone());
            assert(string_views(out@) =~= sv.subrange(0, i as int).filter(f).push(
                flight.ids@[i as int]@,
            ));
        } else {
            assert(string_views(out@) =~= sv.subrange(0, i + 1).filter(f));
        }
        i += 1;
    }
    assert(sv.subrange(0, sv.len() as int) =~= sv);
    proof {
        sv.lemma_filter_len(f);
        lemma_filter_no_duplicates(sv, f);
    }
    flight.ids = out;
}

/// The ledger changed.
pub fn mark_dirty(flight: &mut InFlight)
    ensures
        final(flight).dirty,
        final(flight).ids@ == old(flight).ids@,
{
    flight.dirty = true;
}

/// Whether the ledger changed since the last call; the flag is consumed.
pub fn take_dirty(flight: &mut InFlight) -> (b: bool)
    ensures
        b == old(flight).dirty,
        !final(flight).dirty,
        final(flight).ids@ == old(flight).ids@,
{
    let b = flight.dirty;
    flight.dirty = false;
    b
}

proof fn lemma_filter_no_duplicates(s: Seq<Seq<char>>, f: spec_fn(Seq<char>) -> bool)
    requires
        s.no_duplicates(),
    ensures
        s.filter(f).no_duplicates(),
    decreases s.len(),
{
    reveal(Seq::filter);
    if s.len() > 0 {
        let p = s.drop_last();
        assert(p.no_duplicates()) by {
            assert forall|a: int, b: int| 0 <= a < p.len() && 0 <= b < p.len() && a != b implies p[a]
                != p[b] by {
                assert(p[a] == s[a] && p[b] == s[b]);
            }
        }
        lemma_filter_no_duplicates(p, f);
        if f(s.last()) {
            assert(!p.filter(f).contains(s.last())) by {
                if p.filter(f).contains(s.last()) {
                    let k = choose|k: int| 0 <= k < p.filter(f).len() && p.filter(f)[k] == s.last();
                    p.lemma_filter_contains_rev(f, s.last());
                    let j = choose|j: int| 0 <= j < p.len() && p[j] == s.last();
                    assert(s[j] == s[s.len() - 1]);
                }
            }
            let q = p.filter(f).push(s.last());
            assert forall|a: int, b: int| 0 <= a < q.len() && 0 <= b < q.len() && a != b implies q[a]
                != q[b] by {
                if a == q.len() - 1 {
                    assert(p.filter(f).contains(q[b]) || b == a);
                } else if b == q.len() - 1 {
                    assert(p.filter(f).contains(q[a]));
                }
            }
        }
    }
}

// ---------------------------------------------------------------------------
// Transitions
// ---------------------------------------------------------------------------

/// The status, error code and error message a reported outcome writes.
pub open spec fn outcome_row_ok(o: Outcome, r: (&'static str, Option<&'static str>, Option<String>)) -> bool {
    match o {
        Outcome::Completed => r.0@ == "completed"@ && r.1 is None && r.2 is None,
        Outcome::Cancelled => r.0@ == "cancelled"@ && r.1 is None && r.2 is None,
        Outcome::Failed { code, message } => r.0@ == "failed"@ && r.1 == Some(code) && r.2 == Some(
            message,
        ),
    }
}

/// The row values of an outcome Hermes reported. (Only a `queued` or
/// `running` job takes them: a finished job is never rewritten.)
pub fn outcome_row(outcome: &Outcome) -> (r: (&'static str, Option<&'static str>, Option<String>))
    ensures
        outcome_row_ok(*outcome, r),
{
    match outcome {
        Outcome::Completed => ("completed", None, None),
        Outcome::Cancelled => ("cancelled", None, None),
        Outcome::Failed { code, message } => ("failed", Some(*code), Some(message.clone())),
    }
}

/// The code and the short message a connection-level error leaves on a
/// job. No stack trace ever reaches the user.
pub open spec fn describe_spec(err: CoreError) -> (Seq<char>, Seq<char>) {
    match err {
        CoreError::HermesUnreachable => (error_code(err), "Hermes'e ulaşılamadı."@),
        CoreError::HermesUnauthorized => (error_code(err), "Hermes kimlik doğrulaması başarısız."@),
        CoreError::HermesTimeout => (error_code(err), "Hermes zamanında yanıt vermedi."@),
        CoreError::HermesRejected(m) => (error_code(err), m@),
        CoreError::HermesMalformed => (error_code(err), "Hermes beklenmeyen bir cevap verdi."@),
        CoreError::ActionNotAllowed => (error_code(err), "Bu aksiyon tanımlı değil."@),
        _ => ("unknown"@, "İş gönderilemedi."@),
    }
}

/// How a failed connection is recorded on its job.
pub fn describe(err: &CoreError) -> (r: (&'static str, String))
    ensures
        (r.0@, r.1@) == describe_spec(*err),
{
    let message = match err {
        CoreError::HermesUnreachable => String::from_str("Hermes'e ulaşılamadı."),
        CoreError::HermesUnauthorized => String::from_str("Hermes kimlik doğrulaması başarısız."),
        CoreError::HermesTimeout => String::from_str("Hermes zamanında yanıt vermedi."),
        CoreError::HermesRejected(m) => m.clone(),
        CoreError::HermesMalformed => String::from_str("Hermes beklenmeyen bir cevap verdi."),
        CoreError::ActionNotAllowed => String::from_str("Bu aksiyon tanımlı değil."),
        _ => {
            return ("unknown", String::from_str("İş gönderilemedi."));
        },
    };
    (err.code(), message)
}

/// What cancelling a job does.
#[derive(Debug, PartialEq, Eq)]
pub enum CancelPlan {
    /// The job never reached Hermes: it is cancelled here.
    MarkCancelled,
    /// The job runs: its Hermes session (if known) is interrupted, and
    /// Hermes reports the cancellation; nothing is written ahead of it.
    Interrupt(Option<String>),
    /// The job is over; nothing to do.
    Nothing,
}

/// What cancelling a job with this stored status and session does.
pub open spec fn cancel_spec(status: Seq<char>, hermes_ref: Option<String>) -> CancelPlan {
    if status == "queued"@ {
        CancelPlan::MarkCancelled
    } else if status == "running"@ {
        CancelPlan::Interrupt(hermes_ref)
    } else {
        CancelPlan::Nothing
    }
}

/// Plans the cancellation of a job.
pub fn cancel_plan(status: &str, hermes_ref: Option<String>) -> (p: CancelPlan)
    ensures
        p == cancel_spec(status@, hermes_ref),
{
    let v = chars_of(status);
    if crate::vault::note::eq_str(&v, "queued") {
        CancelPlan::MarkCancelled
    } else if crate::vault::note::eq_str(&v, "running") {
        CancelPlan::Interrupt(hermes_ref)
    } else {
        CancelPlan::Nothing
    }
}

// ---------------------------------------------------------------------------
// The ledger's statuses and what moves them
// ---------------------------------------------------------------------------

/// The status of a job in the ledger.
#[derive(Debug, Clone, Copy, PartialEq, Eq, Structural)]
pub enum JobStatus {
    Queued,
    Running,
    Completed,
    Failed,
    Cancelled,
}

/// The stored text of a status.
pub open spec fn status_text(s: JobStatus) -> Seq<char> {
    match s {
        JobStatus::Queued => "queued"@,
        JobStatus::Running => "running"@,
        JobStatus::Completed => "completed"@,
        JobStatus::Failed => "failed"@,
        JobStatus::Cancelled => "cancelled"@,
    }
}

impl JobStatus {
    /// The stored text of the status.
    pub fn as_str(&self) -> (t: &'static str)
        ensures
            t@ == status_text(*self),
    {
        match self {
            JobStatus::Queued => "queued",
            JobStatus::Running => "running",
            JobStatus::Completed => "completed",
            JobStatus::Failed => "failed",
            JobStatus::Cancelled => "cancelled",
        }
    }

    /// The status a stored text names; an unknown text names none.
    pub fn parse(text: &str) -> (r: Option<JobStatus>)
        ensures
            r matches Some(s) ==> status_text(s) == text@,
            r is None ==> forall|s: JobStatus| status_text(s) != text@,
    {
        let v = chars_of(text);
        if crate::vault::note::eq_str(&v, "queued") {
            Some(JobStatus::Queued)
        } else if crate::vault::note::eq_str(&v, "running") {
            Some(JobStatus::Running)
        } else if crate::vault::note::eq_str(&v, "completed") {
            Some(JobStatus::Completed)
        } else if crate::vault::note::eq_str(&v, "failed") {
            Some(JobStatus::Failed)
        } else if crate::vault::note::eq_str(&v, "cancelled") {
            Some(JobStatus::Cancelled)
        } else {
            proof {
                reveal_strlit("queued");
                reveal_strlit("running");
                reveal_strlit("completed");
                reveal_strlit("failed");
                reveal_strlit("cancelled");
                assert forall|s: JobStatus| status_text(s) != text@ by {
                    match s {
                        JobStatus::Queued => {},
                        JobStatus::Running => {},
                        JobStatus::Completed => {},
                        JobStatus::Failed => {},
                        JobStatus::Cancelled => {},
                    }
                }
            }
            None
        }
    }
}

/// What happens to a job. Each transition has one source.
#[derive(Debug, Clone, Copy, PartialEq, Eq, Structural)]
pub enum LedgerEvent {
    /// Hermes accepted the prompt.
    Accepted,
    /// Hermes reported the turn done.
    Completed,
    /// Hermes reported an error, or could not be reached.
    Failed,
    /// Hermes reported the turn interrupted.
    Cancelled,
    /// The user cancelled a job Hermes has not accepted.
    CancelledLocally,
    /// The user asked to run a failed job again (never done automatically).
    Retried,
    /// At start-up the job was still running: the previous process held its
    /// connection, so its result can no longer be learned.
    Orphaned,
}

/// The status an event moves a job to, if it moves it at all. A finished
/// job is never rewritten.
pub open spec fn next_status(s: JobStatus, e: LedgerEvent) -> Option<JobStatus> {
    let live = s == JobStatus::Queued || s == JobStatus::Running;
    match e {
        LedgerEvent::Accepted => if s == JobStatus::Queued { Some(JobStatus::Running) } else { None },
        LedgerEvent::Completed => if live { Some(JobStatus::Completed) } else { None },
        LedgerEvent::Failed => if live { Some(JobStatus::Failed) } else { None },
        LedgerEvent::Cancelled => if live { Some(JobStatus::Cancelled) } else { None },
        LedgerEvent::CancelledLocally => if s == JobStatus::Queued {
            Some(JobStatus::Cancelled)
        } else {
            None
        },
        LedgerEvent::Retried => if s == JobStatus::Failed { Some(JobStatus::Queued) } else { None },
        LedgerEvent::Orphaned => if s == JobStatus::Running { Some(JobStatus::Failed) } else { None },
    }
}

/// The status an event writes.
pub open spec fn written_spec(e: LedgerEvent) -> JobStatus {
    match e {
        LedgerEvent::Accepted => JobStatus::Running,
        LedgerEvent::Completed => JobStatus::Completed,
        LedgerEvent::Failed => JobStatus::Failed,
        LedgerEvent::Cancelled => JobStatus::Cancelled,
        LedgerEvent::CancelledLocally => JobStatus::Cancelled,
        LedgerEvent::Retried => JobStatus::Queued,
        LedgerEvent::Orphaned => JobStatus::Failed,
    }
}

/// The statuses an event moves, in ledger order.
pub open spec fn admitted_spec(e: LedgerEvent) -> Seq<JobStatus> {
    match e {
        LedgerEvent::Accepted => seq![JobStatus::Queued],
        LedgerEvent::CancelledLocally => seq![JobStatus::Queued],
        LedgerEvent::Retried => seq![JobStatus::Failed],
        LedgerEvent::Orphaned => seq![JobStatus::Running],
        _ => seq![JobStatus::Queued, JobStatus::Running],
    }
}

/// The status a job with status `status` has after `event`, or `None` when
/// the event leaves the job as it is.
pub fn transition(status: JobStatus, event: LedgerEvent) -> (r: Option<JobStatus>)
    ensures
        r == next_status(status, event),
{
    let live = status == JobStatus::Queued || status == JobStatus::Running;
    match event {
        LedgerEvent::Accepted => if status == JobStatus::Queued {
            Some(JobStatus::Running)
        } else {
            None
        },
        LedgerEvent::Completed => if live { Some(JobStatus::Completed) } else { None },
        LedgerEvent::Failed => if live { Some(JobStatus::Failed) } else { None },
        LedgerEvent::Cancelled => if live { Some(JobStatus::Cancelled) } else { None },
        LedgerEvent::CancelledLocally => if status == JobStatus::Queued {
            Some(JobStatus::Cancelled)
        } else {
            None
        },
        LedgerEvent::Retried => if status == JobStatus::Failed {
            Some(JobStatus::Queued)
        } else {
            None
        },
        LedgerEvent::Orphaned => if status == JobStatus::Running {
            Some(JobStatus::Failed)
        } else {
            None
        },
    }
}

/// The event an outcome Hermes reported is.
pub fn event_of(outcome: &Outcome) -> (e: LedgerEvent)
    ensures
        e == match *outcome {
            Outcome::Completed => LedgerEvent::Completed,
            Outcome::Failed { .. } => LedgerEvent::Failed,
            Outcome::Cancelled => LedgerEvent::Cancelled,
        },
{
    match outcome {
        Outcome::Completed => LedgerEvent::Completed,
        Outcome::Failed { .. } => LedgerEvent::Failed,
        Outcome::Cancelled => LedgerEvent::Cancelled,
    }
}

/// The status an event writes on every job it moves.
pub fn written(event: LedgerEvent) -> (s: JobStatus)
    ensures
        s == written_spec(event),
        forall|t: JobStatus| #[trigger] next_status(t, event) is Some ==> next_status(t, event) == Some(s),
{
    match event {
        LedgerEvent::Accepted => JobStatus::Running,
        LedgerEvent::Completed => JobStatus::Completed,
        LedgerEvent::Failed => JobStatus::Failed,
        LedgerEvent::Cancelled => JobStatus::Cancelled,
        LedgerEvent::CancelledLocally => JobStatus::Cancelled,
        LedgerEvent::Retried => JobStatus::Queued,
        LedgerEvent::Orphaned => JobStatus::Failed,
    }
}

/// The statuses an event moves: exactly those `next_status` moves, each
/// once.
pub fn admitted(event: LedgerEvent) -> (v: Vec<JobStatus>)
    ensures
        v@ == admitted_spec(event),
        forall|t: JobStatus| v@.contains(t) <==> (#[trigger] next_status(t, event)) is Some,
        v@.no_duplicates(),
{
    let v = match event {
        LedgerEvent::Accepted => vec![JobStatus::Queued],
        LedgerEvent::CancelledLocally => vec![JobStatus::Queued],
        LedgerEvent::Retried => vec![JobStatus::Failed],
        LedgerEvent::Orphaned => vec![JobStatus::Running],
        _ => vec![JobStatus::Queued, JobStatus::Running],
    };
    proof {
        assert(v@ =~= admitted_spec(event));
        assert forall|t: JobStatus| v@.contains(t) <==> (#[trigger] next_status(t, event)) is Some by {
            if next_status(t, event) is Some {
                match event {
                    LedgerEvent::Accepted | LedgerEvent::CancelledLocally => assert(v@[0] == t),
                    LedgerEvent::Retried | LedgerEvent::Orphaned => assert(v@[0] == t),
                    _ => if t == JobStatus::Queued { assert(v@[0] == t) } else { assert(v@[1] == t) },
                }
            }
        }
    }
    v
}

/// The texts of statuses, quoted and separated by `, `.
pub open spec fn quoted_list(v: Seq<JobStatus>) -> Seq<char>
    decreases v.len(),
{
    if v.len() == 0 {
        Seq::empty()
    } else if v.len() == 1 {
        "'"@ + status_text(v[0]) + "'"@
    } else {
        quoted_list(v.drop_last()) + ", '"@ + status_text(v.last()) + "'"@
    }
}

/// The condition an update for `event` puts on the stored status:
/// `status IN ('queued', 'running')` and the like. The database applies it
/// in the same statement as the write, so no other writer can slip between.
pub open spec fn guard_spec(event: LedgerEvent) -> Seq<char> {
    "status IN ("@ + quoted_list(admitted_spec(event)) + ")"@
}

/// The status condition of the update for `event`.
pub fn guard_clause(event: LedgerEvent) -> (s: String)
    ensures
        s@ == guard_spec(event),
{
    let v = admitted(event);
    let mut s = String::from_str("status IN (");
    let mut i: usize = 0;
    while i < v.len()
        invariant
            v@ == admitted_spec(event),
            i <= v.len(),
            s@ == "status IN ("@ + quoted_list(v@.take(i as int)),
        decreases v.len() - i,
    {
        let ghost before = s@;
        if i > 0 {
            push_str(&mut s, ", '");
        } else {
            push_str(&mut s, "'");
        }
        push_str(&mut s, v[i].as_str());
        push_str(&mut s, "'");
        proof {
            let t = v@.take(i as int + 1);
            assert(t.drop_last() =~= v@.take(i as int));
            assert(t.last() == v@[i as int]);
            if i == 0 {
                assert(v@.take(0) =~= Seq::<JobStatus>::empty());
            }
        }
        i += 1;
    }
    push_str(&mut s, ")");
    proof {
        assert(v@.take(v.len() as int) =~= v@);
    }
    s
}

/// A finished job (completed or cancelled) is never rewritten: no event
/// moves it.
pub proof fn lemma_finished_jobs_stay(e: LedgerEvent)
    ensures
        next_status(JobStatus::Completed, e) is None,
        next_status(JobStatus::Cancelled, e) is None,
{
}

/// A failed job leaves `failed` only when the user retries it, and then it
/// is queued again; nothing else is ever retried.
pub proof fn lemma_only_failed_jobs_retry(s: JobStatus, e: LedgerEvent)
    ensures
        next_status(JobStatus::Failed, e) is Some ==> e == LedgerEvent::Retried,
        next_status(s, LedgerEvent::Retried) is Some <==> s == JobStatus::Failed,
        next_status(JobStatus::Failed, LedgerEvent::Retried) == Some(JobStatus::Queued),
{
}

/// Every transition changes the status, and a job Hermes accepted never
/// goes back to the queue.
pub proof fn lemma_transitions_move_forward(s: JobStatus, e: LedgerEvent)
    ensures
        next_status(s, e) matches Some(t) ==> t != s,
        next_status(JobStatus::Running, e) != Some(JobStatus::Queued),
{
}

/// The code a job left running by the previous process ends with: its
/// result can no longer be learned, so it is honestly a failure.
pub const ORPHAN_CODE: &'static str = "hermes_unreachable";

/// The message such a job ends with.
pub const ORPHAN_MESSAGE: &'static str = "Uygulama kapanırken iş sürüyordu; Hermes sonucu bildirmedi.";

/// The filter of a history query: jobs created on or after `?1`, and, when
/// given, of a workspace and a status, numbered in that order.
pub open spec fn history_clause_spec(has_workspace: bool, has_status: bool) -> Seq<char> {
    "WHERE substr(j.created_at, 1, 10) >= ?1"@ + (if has_workspace {
        " AND j.workspace = ?2"@
    } else {
        Seq::empty()
    }) + (if has_status {
        if has_workspace {
            " AND j.status = ?3"@
        } else {
            " AND j.status = ?2"@
        }
    } else {
        Seq::empty()
    })
}

/// The filter of a history query.
pub fn history_clause(has_workspace: bool, has_status: bool) -> (s: String)
    ensures
        s@ == history_clause_spec(has_workspace, has_status),
{
    let mut s = String::from_str("WHERE substr(j.created_at, 1, 10) >= ?1");
    if has_workspace {
        push_str(&mut s, " AND j.workspace = ?2");
    }
    if has_status {
        if has_workspace {
            push_str(&mut s, " AND j.status = ?3");
        } else {
            push_str(&mut s, " AND j.status = ?2");
        }
    }
    assert(s@ =~= history_clause_spec(has_workspace, has_status));
    s
}

} // verus!
