//! Task parsing: `- [ ]`, `* [x]`, `+ [X]` checkbox lines, indented sub-tasks
//! included, with due dates written as `📅 YYYY-MM-DD` (Obsidian Tasks) or
//! `due:: YYYY-MM-DD` (Dataview).
use vstd::prelude::*;

use crate::text::{
    absent, chars_of, find, lemma_absent_sub, lemma_absent_trim, lemma_find_from,
    lemma_trim_idempotent, occurs_at, find_v, has_prefix, is_ws, lines, lines_v, slice_of, starts_with_v, string_of,
    trim, trim_start, trim_start_v, trim_v, views,
};
use crate::vault::links::{is_fence_line, lemma_find_bounds};
use crate::vault::note::{marker_status, ParsedTask, ParsedTaskView, TaskStatus};

verus! {

/// The calendar emoji the Tasks plugin puts before a due date.
pub open spec fn due_emoji() -> Seq<char> {
    seq!['\u{1f4c5}']
}

/// `due::`
pub open spec fn due_field() -> Seq<char> {
    seq!['d', 'u', 'e', ':', ':']
}

/// The text after a list bullet (`- `, `* ` or `+ `).
pub open spec fn after_bullet(t: Seq<char>) -> Option<Seq<char>> {
    if has_prefix(t, seq!['-', ' ']) || has_prefix(t, seq!['*', ' ']) || has_prefix(
        t,
        seq!['+', ' '],
    ) {
        Some(t.subrange(2, t.len() as int))
    } else {
        None
    }
}

/// `- [c] rest` → `(state of c, rest)` for every marker that is a task
/// state (` `, `x`/`X`, `/`, `>`/`<`, `-`); an unknown marker is no task.
pub open spec fn checkbox_spec(trimmed: Seq<char>) -> Option<(TaskStatus, Seq<char>)> {
    match after_bullet(trimmed) {
        None => None,
        Some(a0) => {
            let a = trim_start(a0);
            if a.len() >= 3 && a[0] == '[' && a[2] == ']' && marker_status(a[1]) is Some {
                Some((marker_status(a[1])->0, a.subrange(3, a.len() as int)))
            } else {
                None
            }
        },
    }
}

/// The text before the first occurrence of `p` (all of it if absent).
pub open spec fn cut_at(s: Seq<char>, p: Seq<char>) -> Seq<char> {
    match find(s, p) {
        Some(i) => s.subrange(0, i),
        None => s,
    }
}

/// The title of a task: trimmed, with due markers and what follows removed.
pub open spec fn clean_title_spec(rest: Seq<char>) -> Seq<char> {
    trim(cut_at(cut_at(trim(rest), due_emoji()), due_field()))
}

/// What is cut at `p` holds no `p`, and is a beginning of the text.
proof fn lemma_cut_at(s: Seq<char>, p: Seq<char>)
    requires
        p.len() > 0,
    ensures
        absent(cut_at(s, p), p),
        cut_at(s, p).len() <= s.len(),
        cut_at(s, p) =~= s.subrange(0, cut_at(s, p).len() as int),
        absent(s, p) ==> cut_at(s, p) == s,
{
    lemma_find_from(s, p, 0);
    if let Some(i) = find(s, p) {
        let c = s.subrange(0, i);
        assert forall|j: int| !#[trigger] occurs_at(c, p, j) by {
            if occurs_at(c, p, j) {
                assert(c.subrange(j, j + p.len()) =~= s.subrange(j, j + p.len()));
                assert(occurs_at(s, p, j));
            }
        }
    }
}

/// Cleaning a title again changes nothing: a clean title is trimmed and
/// holds no due marker.
pub proof fn lemma_title_idempotent(rest: Seq<char>)
    ensures
        clean_title_spec(clean_title_spec(rest)) == clean_title_spec(rest),
{
    let e = due_emoji();
    let f = due_field();
    let a = cut_at(trim(rest), e);
    let b = cut_at(a, f);
    let t = trim(b);
    lemma_cut_at(trim(rest), e);
    lemma_cut_at(a, f);
    lemma_absent_sub(a, e, 0, b.len() as int);
    lemma_absent_trim(b, e);
    lemma_absent_trim(b, f);
    lemma_trim_idempotent(b);
    lemma_cut_at(t, e);
    lemma_cut_at(t, f);
}

pub open spec fn is_digit(c: char) -> bool {
    '0' <= c && c <= '9'
}

/// A `YYYY-MM-DD` shape at position `j` (calendar validity is not checked).
pub open spec fn iso_at(t: Seq<char>, j: int) -> bool {
    &&& 0 <= j && j + 10 <= t.len()
    &&& is_digit(t[j]) && is_digit(t[j + 1]) && is_digit(t[j + 2]) && is_digit(t[j + 3])
    &&& t[j + 4] == '-'
    &&& is_digit(t[j + 5]) && is_digit(t[j + 6])
    &&& t[j + 7] == '-'
    &&& is_digit(t[j + 8]) && is_digit(t[j + 9])
}

/// The first `YYYY-MM-DD` shape at or after `k`.
pub open spec fn first_iso_from(t: Seq<char>, k: int) -> Option<Seq<char>>
    decreases t.len() - k,
{
    if k < 0 || k + 10 > t.len() {
        None
    } else if iso_at(t, k) {
        Some(t.subrange(k, k + 10))
    } else {
        first_iso_from(t, k + 1)
    }
}

/// Some `YYYY-MM-DD` shape occurs in `t`.
pub open spec fn has_date(t: Seq<char>) -> bool {
    exists|q: int| iso_at(t, q)
}

/// `d` is the earliest `YYYY-MM-DD` shape of `t`: it starts at some `p`
/// and no such shape starts before `p`.
pub open spec fn is_first_date(t: Seq<char>, d: Seq<char>) -> bool {
    exists|p: int|
        #![trigger iso_at(t, p)]
        iso_at(t, p) && d == t.subrange(p, p + 10) && forall|q: int| 0 <= q < p ==> !iso_at(t, q)
}

proof fn lemma_first_iso_from(t: Seq<char>, k: int)
    requires
        0 <= k,
    ensures
        match first_iso_from(t, k) {
            Some(d) => exists|p: int|
                #![trigger iso_at(t, p)]
                k <= p && iso_at(t, p) && d == t.subrange(p, p + 10) && forall|q: int|
                    k <= q < p ==> !iso_at(t, q),
            None => forall|q: int| k <= q ==> !iso_at(t, q),
        },
    decreases t.len() - k,
{
    if k + 10 <= t.len() {
        if iso_at(t, k) {
            assert(iso_at(t, k));
        } else {
            lemma_first_iso_from(t, k + 1);
            if let Some(d) = first_iso_from(t, k + 1) {
                let p = choose|p: int|
                    #![trigger iso_at(t, p)]
                    k + 1 <= p && iso_at(t, p) && d == t.subrange(p, p + 10) && forall|q: int|
                        k + 1 <= q < p ==> !iso_at(t, q);
                assert(iso_at(t, p));
            }
        }
    }
}

/// Law: the date found in a text is its first `YYYY-MM-DD` shape, and
/// none is found only when the text has none.
pub proof fn lemma_first_date(t: Seq<char>)
    ensures
        first_iso_from(t, 0) matches Some(d) ==> is_first_date(t, d),
        first_iso_from(t, 0) is None <==> !has_date(t),
{
    lemma_first_iso_from(t, 0);
    if let Some(d) = first_iso_from(t, 0) {
        let p = choose|p: int|
            #![trigger iso_at(t, p)]
            0 <= p && iso_at(t, p) && d == t.subrange(p, p + 10) && forall|q: int|
                0 <= q < p ==> !iso_at(t, q);
        assert(iso_at(t, p));
        assert(has_date(t));
    } else {
        if has_date(t) {
            let q = choose|q: int| iso_at(t, q);
            assert(iso_at(t, q));
        }
    }
}

/// Law: a task's due date is the first `YYYY-MM-DD` after its first `📅`;
/// when there is none there, the first after its first `due::`; and there
/// is none only when neither place holds one.
pub proof fn lemma_due_is_first_date(rest: Seq<char>)
    ensures
        ({
            let by_emoji = match find(rest, due_emoji()) {
                Some(p) => has_date(rest.subrange(p, rest.len() as int)),
                None => false,
            };
            let by_field = match find(rest, due_field()) {
                Some(p) => has_date(rest.subrange(p + 5, rest.len() as int)),
                None => false,
            };
            &&& by_emoji ==> (due_spec(rest) matches Some(d) && is_first_date(
                rest.subrange(find(rest, due_emoji())->0, rest.len() as int),
                d,
            ))
            &&& !by_emoji && by_field ==> (due_spec(rest) matches Some(d) && is_first_date(
                rest.subrange(find(rest, due_field())->0 + 5, rest.len() as int),
                d,
            ))
            &&& !by_emoji && !by_field ==> due_spec(rest) is None
        }),
{
    lemma_find_bounds(rest, due_emoji(), 0);
    lemma_find_bounds(rest, due_field(), 0);
    if let Some(p) = find(rest, due_emoji()) {
        lemma_first_date(rest.subrange(p, rest.len() as int));
    }
    if let Some(p) = find(rest, due_field()) {
        lemma_first_date(rest.subrange(p + 5, rest.len() as int));
    }
}

/// The due date of a task line: after `📅` first, then after `due::`.
pub open spec fn due_spec(rest: Seq<char>) -> Option<Seq<char>> {
    let by_emoji = match find(rest, due_emoji()) {
        Some(pos) => first_iso_from(rest.subrange(pos, rest.len() as int), 0),
        None => None,
    };
    if by_emoji is Some {
        by_emoji
    } else {
        match find(rest, due_field()) {
            Some(pos) => first_iso_from(rest.subrange(pos + 5, rest.len() as int), 0),
            None => None,
        }
    }
}

/// Removes every trailing carriage return.
pub open spec fn strip_all_cr(l: Seq<char>) -> Seq<char>
    decreases l.len(),
{
    if l.len() > 0 && l.last() == '\r' {
        strip_all_cr(l.drop_last())
    } else {
        l
    }
}

/// Tasks of lines `i..`, outside fenced code, numbered `offset + i + 1`.
pub open spec fn tasks_from(ls: Seq<Seq<char>>, i: int, in_fence: bool, offset: int) -> Seq<
    ParsedTaskView,
>
    decreases ls.len() - i,
{
    if i < 0 || i >= ls.len() {
        Seq::empty()
    } else {
        let line = strip_all_cr(ls[i]);
        if is_fence_line(line) {
            tasks_from(ls, i + 1, !in_fence, offset)
        } else if in_fence {
            tasks_from(ls, i + 1, in_fence, offset)
        } else {
            match checkbox_spec(trim_start(line)) {
                None => tasks_from(ls, i + 1, in_fence, offset),
                Some((status, rest)) => {
                    let title = clean_title_spec(rest);
                    if title.len() == 0 {
                        tasks_from(ls, i + 1, in_fence, offset)
                    } else {
                        seq![
                            ParsedTaskView {
                                line_number: offset + i + 1,
                                title,
                                status,
                                due: due_spec(rest),
                            },
                        ] + tasks_from(ls, i + 1, in_fence, offset)
                    }
                },
            }
        }
    }
}

/// The tasks of a body whose first line is line `offset + 1` of the file.
pub open spec fn tasks_spec(body: Seq<char>, offset: int) -> Seq<ParsedTaskView> {
    tasks_from(lines(body), 0, false, offset)
}

/// Tasks of lines `i..` sit on those lines, in file order, with a title.
proof fn lemma_tasks_from_order(ls: Seq<Seq<char>>, i: int, in_fence: bool, offset: int)
    requires
        0 <= i,
    ensures
        ({
            let r = tasks_from(ls, i, in_fence, offset);
            &&& forall|k: int|
                0 <= k < r.len() ==> offset + i < #[trigger] r[k].line_number <= offset + ls.len()
                    && r[k].title.len() > 0
            &&& forall|a: int, b: int|
                0 <= a < b < r.len() ==> #[trigger] r[a].line_number < #[trigger] r[b].line_number
        }),
    decreases ls.len() - i,
{
    if i < ls.len() {
        let line = strip_all_cr(ls[i]);
        if is_fence_line(line) {
            lemma_tasks_from_order(ls, i + 1, !in_fence, offset);
        } else {
            lemma_tasks_from_order(ls, i + 1, in_fence, offset);
            let rest = tasks_from(ls, i + 1, in_fence, offset);
            let r = tasks_from(ls, i, in_fence, offset);
            if r.len() == rest.len() + 1 {
                assert forall|k: int| 0 <= k < rest.len() implies #[trigger] r[k + 1] == rest[k] by {}
                assert forall|a: int, b: int|
                    0 <= a < b < r.len() implies #[trigger] r[a].line_number
                    < #[trigger] r[b].line_number by {
                    assert(r[b] == rest[b - 1]);
                    if a > 0 {
                        assert(r[a] == rest[a - 1]);
                    }
                }
                assert forall|k: int| 0 <= k < r.len() implies offset + i < #[trigger] r[k].line_number
                    <= offset + ls.len() && r[k].title.len() > 0 by {
                    if k > 0 {
                        assert(r[k] == rest[k - 1]);
                    }
                }
            }
        }
    }
}

/// Law: the tasks of a body come in file order, one per line at most, each
/// on a line of the body and with a non-empty title.
pub proof fn lemma_tasks_in_line_order(body: Seq<char>, offset: int)
    ensures
        forall|a: int, b: int|
            0 <= a < b < tasks_spec(body, offset).len() ==> #[trigger] tasks_spec(body, offset)[a].line_number
                < #[trigger] tasks_spec(body, offset)[b].line_number,
        forall|k: int|
            0 <= k < tasks_spec(body, offset).len() ==> offset < #[trigger] tasks_spec(
                body,
                offset,
            )[k].line_number <= offset + lines(body).len() && tasks_spec(body, offset)[k].title.len()
                > 0,
{
    lemma_tasks_from_order(lines(body), 0, false, offset);
}

fn strip_all_cr_exec(l: &Vec<char>) -> (r: Vec<char>)
    ensures
        r@ == strip_all_cr(l@),
{
    let mut j = l.len();
    assert(l@.subrange(0, j as int) =~= l@);
    while j > 0 && l[j - 1] == '\r'
        invariant
            j <= l.len(),
            strip_all_cr(l@) == strip_all_cr(l@.subrange(0, j as int)),
        decreases j,
    {
        assert(l@.subrange(0, j as int).drop_last() =~= l@.subrange(0, j - 1));
        j -= 1;
    }
    assert(l@.subrange(0, j as int) =~= l@.subrange(0, j as int));
    if j == l.len() {
        assert(l@.subrange(0, j as int) =~= l@);
    }
    slice_of(l, 0, j)
}

fn match_checkbox(trimmed: &Vec<char>) -> (r: Option<(TaskStatus, Vec<char>)>)
    ensures
        match r {
            Some((s, rest)) => checkbox_spec(trimmed@) == Some((s, rest@)),
            None => checkbox_spec(trimmed@) is None,
        },
{
    let dash = vec!['-', ' '];
    let star = vec!['*', ' '];
    let plus = vec!['+', ' '];
    assert(dash@ =~= seq!['-', ' ']);
    assert(star@ =~= seq!['*', ' ']);
    assert(plus@ =~= seq!['+', ' ']);
    if !(starts_with_v(trimmed, &dash) || starts_with_v(trimmed, &star) || starts_with_v(
        trimmed,
        &plus,
    )) {
        return None;
    }
    let a0 = slice_of(trimmed, 2, trimmed.len());
    let a = trim_start_v(&a0);
    if a.len() >= 3 && a[0] == '[' && a[2] == ']' {
        match TaskStatus::from_marker(a[1]) {
            Some(st) => Some((st, slice_of(&a, 3, a.len()))),
            None => None,
        }
    } else {
        None
    }
}

fn cut_at_exec(s: &Vec<char>, p: &Vec<char>) -> (r: Vec<char>)
    ensures
        r@ == cut_at(s@, p@),
{
    match find_v(s, p) {
        Some(i) => {
            proof {
                lemma_find_bounds(s@, p@, 0);
            }
            slice_of(s, 0, i)
        },
        None => crate::text::copy(s),
    }
}

fn clean_title(rest: &Vec<char>) -> (r: Vec<char>)
    ensures
        r@ == clean_title_spec(rest@),
{
    let emoji = vec!['\u{1f4c5}'];
    let field = vec!['d', 'u', 'e', ':', ':'];
    assert(emoji@ =~= due_emoji());
    assert(field@ =~= due_field());
    let t = trim_v(rest);
    let a = cut_at_exec(&t, &emoji);
    let b = cut_at_exec(&a, &field);
    trim_v(&b)
}

/// The title of a checkbox line once due markers are removed. Writers apply
/// exactly this cleaning when they check that a line is the expected task.
pub fn title_from_rest(rest: &str) -> (title: String)
    ensures
        title@ == clean_title_spec(rest@),
{
    let v = chars_of(rest);
    let t = clean_title(&v);
    string_of(&t)
}

fn digit_at(t: &Vec<char>, j: usize) -> (b: bool)
    requires
        j < t.len(),
    ensures
        b == is_digit(t@[j as int]),
{
    '0' <= t[j] && t[j] <= '9'
}

/// The first `YYYY-MM-DD` shape in the text; the calendar is not checked.
fn first_iso_date(t: &Vec<char>) -> (r: Option<Vec<char>>)
    ensures
        match r {
            Some(d) => first_iso_from(t@, 0) == Some(d@),
            None => first_iso_from(t@, 0) is None,
        },
{
    let mut k: usize = 0;
    while k <= t.len() && t.len() - k >= 10
        invariant
            first_iso_from(t@, 0) == first_iso_from(t@, k as int),
        decreases t.len() - k,
    {
        if digit_at(t, k) && digit_at(t, k + 1) && digit_at(t, k + 2) && digit_at(t, k + 3)
            && t[k + 4] == '-' && digit_at(t, k + 5) && digit_at(t, k + 6) && t[k + 7] == '-'
            && digit_at(t, k + 8) && digit_at(t, k + 9) {
            return Some(slice_of(t, k, k + 10));
        }
        k += 1;
    }
    None
}

fn extract_due(rest: &Vec<char>) -> (r: Option<String>)
    ensures
        match r {
            Some(d) => due_spec(rest@) == Some(d@),
            None => due_spec(rest@) is None,
        },
{
    let emoji = vec!['\u{1f4c5}'];
    let field = vec!['d', 'u', 'e', ':', ':'];
    assert(emoji@ =~= due_emoji());
    assert(field@ =~= due_field());
    if let Some(pos) = find_v(rest, &emoji) {
        proof {
            lemma_find_bounds(rest@, due_emoji(), 0);
        }
        let tail = slice_of(rest, pos, rest.len());
        if let Some(date) = first_iso_date(&tail) {
            return Some(string_of(&date));
        }
    }
    if let Some(pos) = find_v(rest, &field) {
        proof {
            lemma_find_bounds(rest@, due_field(), 0);
            assert(due_field().len() == 5);
        }
        let tail = slice_of(rest, pos + 5, rest.len());
        if let Some(date) = first_iso_date(&tail) {
            return Some(string_of(&date));
        }
    }
    None
}

fn is_fence(line: &Vec<char>) -> (b: bool)
    ensures
        b == is_fence_line(line@),
{
    let t = trim_start_v(line);
    let ticks = vec!['`', '`', '`'];
    let tildes = vec!['~', '~', '~'];
    assert(ticks@ =~= seq!['`', '`', '`']);
    assert(tildes@ =~= seq!['~', '~', '~']);
    starts_with_v(&t, &ticks) || starts_with_v(&t, &tildes)
}

/// Views of parsed tasks.
pub open spec fn task_views(ts: Seq<ParsedTask>) -> Seq<ParsedTaskView> {
    ts.map_values(|t: ParsedTask| t@)
}

/// Scans a body for tasks. `line_offset` is the line where the body starts in
/// its file, so line numbers are those of the file. Checkboxes inside fenced
/// code are examples, not tasks.
pub fn parse(body: &str, line_offset: u32) -> (tasks: Vec<ParsedTask>)
    requires
        line_offset + lines(body@).len() <= u32::MAX,
    ensures
        task_views(tasks@) == tasks_spec(body@, line_offset as int),
{
    let chars = chars_of(body);
    let ls = lines_v(&chars);
    let mut tasks: Vec<ParsedTask> = Vec::new();
    let mut in_code_fence = false;
    let mut i: usize = 0;
    assert(task_views(tasks@) + tasks_spec(body@, line_offset as int) =~= tasks_spec(
        body@,
        line_offset as int,
    ));
    while i < ls.len()
        invariant
            i <= ls@.len(),
            views(ls@) == lines(body@),
            line_offset + ls@.len() <= u32::MAX,
            tasks_spec(body@, line_offset as int) == task_views(tasks@) + tasks_from(
                views(ls@),
                i as int,
                in_code_fence,
                line_offset as int,
            ),
        decreases ls@.len() - i,
    {
        assert(views(ls@)[i as int] == ls@[i as int]@);
        let line = strip_all_cr_exec(&ls[i]);
        let trimmed = trim_start_v(&line);
        if is_fence(&line) {
            in_code_fence = !in_code_fence;
        } else if !in_code_fence {
            if let Some((status, rest)) = match_checkbox(&trimmed) {
                let title = clean_title(&rest);
                if title.len() > 0 {
                    let t = ParsedTask {
                        line_number: line_offset + i as u32 + 1,
                        title: string_of(&title),
                        status,
                        due: extract_due(&rest),
                    };
                    proof {
                        assert(task_views(tasks@.push(t)) =~= task_views(tasks@).push(t@));
                        assert(t@.due == due_spec(rest@));
                    }
                    tasks.push(t);
                }
            }
        }
        i += 1;
    }
    assert(task_views(tasks@) + Seq::<ParsedTaskView>::empty() =~= task_views(tasks@));
    tasks
}

} // verus!
