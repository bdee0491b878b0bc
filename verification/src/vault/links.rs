//! Wiki-link extraction: `[[target]]`, `[[target|alias]]`, `[[target#heading]]`
//! and embeds `![[target]]`. Targets are extracted, never interpreted; whether
//! a target exists is not asked here.
use vstd::prelude::*;

use crate::text::{
    chars_of, copy, find, find_from, find_v, has_prefix, idx_of, idx_of_exec, lead_ws,
    lemma_idx_of_bounds, lemma_lead_ws_bounds, lemma_trail_ws_bounds, lemma_trim_idempotent, lines,
    lines_v, occurs_at, slice_of, starts_with_v, string_of, string_views, trim, trim_start, trim_start_v,
    trim_v, views,
};

verus! {

/// `[[`
pub open spec fn open_pat() -> Seq<char> {
    seq!['[', '[']
}

/// `]]`
pub open spec fn close_pat() -> Seq<char> {
    seq![']', ']']
}

/// A line that opens or closes a fenced code block.
pub open spec fn is_fence_line(line: Seq<char>) -> bool {
    has_prefix(trim_start(line), seq!['`', '`', '`']) || has_prefix(
        trim_start(line),
        seq!['~', '~', '~'],
    )
}

/// The text before the first `sep` (all of it when `sep` is absent).
pub open spec fn before(s: Seq<char>, sep: char) -> Seq<char> {
    s.subrange(0, idx_of(s, sep, 0))
}

/// `Target#heading|alias` → `Target`; `None` when nothing is left.
pub open spec fn normalize_spec(inner: Seq<char>) -> Option<Seq<char>> {
    let target = trim(before(before(inner, '|'), '#'));
    if target.len() == 0 {
        None
    } else {
        Some(target)
    }
}

/// Adds `t` unless it is already present.
pub open spec fn push_new(out: Seq<Seq<char>>, t: Seq<char>) -> Seq<Seq<char>> {
    if out.contains(t) {
        out
    } else {
        out.push(t)
    }
}

pub proof fn lemma_find_bounds(s: Seq<char>, p: Seq<char>, k: int)
    requires
        0 <= k,
    ensures
        find_from(s, p, k) matches Some(i) ==> k <= i && i + p.len() <= s.len() && occurs_at(
            s,
            p,
            i,
        ),
    decreases s.len() - k,
{
    if k + p.len() <= s.len() && !occurs_at(s, p, k) {
        lemma_find_bounds(s, p, k + 1);
    }
}

/// Targets found in the rest of one line, appended to `out` in order.
pub open spec fn collect_line(rest: Seq<char>, out: Seq<Seq<char>>) -> Seq<Seq<char>>
    decreases rest.len(),
{
    match find(rest, open_pat()) {
        None => out,
        Some(open) => {
            proof {
                lemma_find_bounds(rest, open_pat(), 0);
            }
            let after = rest.subrange(open + 2, rest.len() as int);
            match find(after, close_pat()) {
                None => out,
                Some(close) => {
                    proof {
                        lemma_find_bounds(after, close_pat(), 0);
                    }
                    let inner = after.subrange(0, close);
                    let out2 = match normalize_spec(inner) {
                        Some(t) => push_new(out, t),
                        None => out,
                    };
                    collect_line(after.subrange(close + 2, after.len() as int), out2)
                },
            }
        },
    }
}

/// Walks the lines, skipping fenced code blocks.
pub open spec fn collect_lines(ls: Seq<Seq<char>>, in_fence: bool, out: Seq<Seq<char>>) -> Seq<
    Seq<char>,
>
    decreases ls.len(),
{
    if ls.len() == 0 {
        out
    } else if is_fence_line(ls[0]) {
        collect_lines(ls.drop_first(), !in_fence, out)
    } else if in_fence {
        collect_lines(ls.drop_first(), in_fence, out)
    } else {
        collect_lines(ls.drop_first(), in_fence, collect_line(ls[0], out))
    }
}

/// The link targets of a body, first occurrence order, without repeats.
pub open spec fn links_spec(body: Seq<char>) -> Seq<Seq<char>> {
    collect_lines(lines(body), false, Seq::empty())
}

fn is_fence(line: &Vec<char>) -> (b: bool)
    ensures
        b == is_fence_line(line@),
{
    let t = trim_start_v(line);
    let ticks = vec!['`', '`', '`'];
    let tildes = vec!['~', '~', '~'];
    assert(ticks@ =~= seq!['`', '`', '`']);
    assert(tildes@ =~= seq!['~', '~', '~']);
    starts_with_v(&t, &ticks) || starts_with_v(&t, &tildes)
}

/// Prefix before the first `sep`.
fn before_exec(s: &Vec<char>, sep: char) -> (r: Vec<char>)
    ensures
        r@ == before(s@, sep),
{
    let i = idx_of_exec(s, sep, 0);
    proof {
        lemma_idx_of_bounds(s@, sep, 0);
    }
    slice_of(s, 0, i)
}

/// `Hedef#başlık|ad` → `Hedef`.
fn normalize(inner: &Vec<char>) -> (r: Option<Vec<char>>)
    ensures
        match r {
            Some(t) => normalize_spec(inner@) == Some(t@),
            None => normalize_spec(inner@) is None,
        },
{
    let before_alias = before_exec(inner, '|');
    let before_anchor = before_exec(&before_alias, '#');
    let target = trim_v(&before_anchor);
    if target.len() == 0 {
        return None;
    }
    Some(target)
}

/// Does `out` already hold `t`?
pub fn holds(out: &Vec<String>, t: &Vec<char>) -> (b: bool)
    ensures
        b == string_views(out@).contains(t@),
{
    let mut k: usize = 0;
    while k < out.len()
        invariant
            k <= out.len(),
            forall|j: int| 0 <= j < k ==> out@[j]@ != t@,
        decreases out.len() - k,
    {
        let e = chars_of(out[k].as_str());
        if e.len() == t.len() && starts_with_v(&e, t) {
            proof {
                assert(e@ =~= t@);
                assert(string_views(out@)[k as int] == t@);
            }
            return true;
        }
        k += 1;
    }
    proof {
        if string_views(out@).contains(t@) {
            let j = choose|j: int| 0 <= j < string_views(out@).len() && string_views(out@)[j] == t@;
            assert(out@[j]@ == t@);
        }
    }
    false
}

fn collect_in_line(line: &Vec<char>, out: &mut Vec<String>)
    ensures
        string_views(final(out)@) == collect_line(line@, string_views(old(out)@)),
{
    let open = vec!['[', '['];
    let close = vec![']', ']'];
    assert(open@ =~= open_pat());
    assert(close@ =~= close_pat());
    let mut rest = copy(line);
    loop
        invariant
            open@ == open_pat(),
            close@ == close_pat(),
            collect_line(line@, string_views(old(out)@)) == collect_line(
                rest@,
                string_views(out@),
            ),
        decreases rest@.len(),
    {
        let o = match find_v(&rest, &open) {
            Some(o) => o,
            None => {
                return;
            },
        };
        proof {
            lemma_find_bounds(rest@, open_pat(), 0);
        }
        let after = slice_of(&rest, o + 2, rest.len());
        let c = match find_v(&after, &close) {
            Some(c) => c,
            None => {
                return;
            },
        };
        proof {
            lemma_find_bounds(after@, close_pat(), 0);
        }
        let inner = slice_of(&after, 0, c);
        let ghost before_out = string_views(out@);
        match normalize(&inner) {
            Some(target) => {
                if !holds(out, &target) {
                    let s = string_of(&target);
                    out.push(s);
                    proof {
                        assert(string_views(out@) =~= before_out.push(target@));
                    }
                }
            },
            None => {},
        }
        rest = slice_of(&after, c + 2, after.len());
    }
}

/// Extracts wiki-link targets from a body. Repeats are removed and first
/// occurrence order is kept; links inside fenced code are not links.
pub fn parse(body: &str) -> (out: Vec<String>)
    ensures
        string_views(out@) == links_spec(body@),
{
    let chars = chars_of(body);
    let ls = lines_v(&chars);
    let mut out: Vec<String> = Vec::new();
    let mut in_code_fence = false;
    let mut i: usize = 0;
    assert(views(ls@).subrange(0, ls@.len() as int) =~= views(ls@));
    assert(string_views(out@) =~= Seq::<Seq<char>>::empty());
    while i < ls.len()
        invariant
            i <= ls@.len(),
            views(ls@) == lines(chars@),
            chars@ == body@,
            links_spec(body@) == collect_lines(
                views(ls@).subrange(i as int, ls@.len() as int),
                in_code_fence,
                string_views(out@),
            ),
        decreases ls@.len() - i,
    {
        let ghost rest = views(ls@).subrange(i as int, ls@.len() as int);
        assert(rest[0] == ls@[i as int]@);
        assert(rest.drop_first() =~= views(ls@).subrange(i + 1, ls@.len() as int));
        let line = &ls[i];
        if is_fence(line) {
            in_code_fence = !in_code_fence;
        } else if !in_code_fence {
            collect_in_line(line, &mut out);
        }
        i += 1;
    }
    out
}

/// A link target as the parser gives it: non-empty, trimmed, without the
/// `|` of an alias or the `#` of a heading.
pub open spec fn target_shape(t: Seq<char>) -> bool {
    &&& t.len() > 0
    &&& trim(t) == t
    &&& !t.contains('|')
    &&& !t.contains('#')
}

/// Targets without repeats, each of the shape above.
pub open spec fn targets_ok(out: Seq<Seq<char>>) -> bool {
    &&& out.no_duplicates()
    &&& forall|i: int| 0 <= i < out.len() ==> target_shape(#[trigger] out[i])
}

/// Law: a body yields each link target at most once, and every target is
/// non-empty, trimmed, and free of `|` and `#`.
pub proof fn lemma_links_unique(body: Seq<char>)
    ensures
        links_spec(body).no_duplicates(),
        forall|i: int| 0 <= i < links_spec(body).len() ==> target_shape(#[trigger] links_spec(body)[i]),
{
    lemma_collect_lines_unique(lines(body), false, Seq::empty());
}

/// What `normalize_spec` keeps has the shape of a target.
proof fn lemma_normalize_shape(inner: Seq<char>)
    ensures
        normalize_spec(inner) matches Some(t) ==> target_shape(t),
{
    let b1 = before(inner, '|');
    lemma_idx_of_bounds(inner, '|', 0);
    let b2 = before(b1, '#');
    lemma_idx_of_bounds(b1, '#', 0);
    lemma_lead_ws_bounds(b2, 0);
    let u = trim_start(b2);
    lemma_trail_ws_bounds(u, u.len() as int);
    let t = trim(b2);
    let l = lead_ws(b2, 0);
    assert forall|j: int| 0 <= j < t.len() implies t[j] != '|' && t[j] != '#' by {
        assert(t[j] == b2[l + j]);
        assert(b2[l + j] == b1[l + j]);
        assert(b1[l + j] == inner[l + j]);
    }
    lemma_trim_idempotent(b2);
}

proof fn lemma_push_new_unique(out: Seq<Seq<char>>, t: Seq<char>)
    requires
        targets_ok(out),
        target_shape(t),
    ensures
        targets_ok(push_new(out, t)),
{
    if !out.contains(t) {
        let o2 = out.push(t);
        assert forall|a: int, b: int|
            0 <= a < o2.len() && 0 <= b < o2.len() && a != b implies o2[a] != o2[b] by {
            if a == out.len() {
                assert(out[b] == o2[b]);
            } else if b == out.len() {
                assert(out[a] == o2[a]);
            }
        }
        assert forall|i: int| 0 <= i < o2.len() implies target_shape(#[trigger] o2[i]) by {
            if i < out.len() {
                assert(o2[i] == out[i]);
            }
        }
    }
}

proof fn lemma_collect_line_unique(rest: Seq<char>, out: Seq<Seq<char>>)
    requires
        targets_ok(out),
    ensures
        targets_ok(collect_line(rest, out)),
    decreases rest.len(),
{
    match find(rest, open_pat()) {
        None => {},
        Some(open) => {
            lemma_find_bounds(rest, open_pat(), 0);
            let after = rest.subrange(open + 2, rest.len() as int);
            match find(after, close_pat()) {
                None => {},
                Some(close) => {
                    lemma_find_bounds(after, close_pat(), 0);
                    let inner = after.subrange(0, close);
                    let out2 = match normalize_spec(inner) {
                        Some(t) => push_new(out, t),
                        None => out,
                    };
                    lemma_normalize_shape(inner);
                    if let Some(t) = normalize_spec(inner) {
                        lemma_push_new_unique(out, t);
                    }
                    lemma_collect_line_unique(after.subrange(close + 2, after.len() as int), out2);
                },
            }
        },
    }
}

proof fn lemma_collect_lines_unique(ls: Seq<Seq<char>>, in_fence: bool, out: Seq<Seq<char>>)
    requires
        targets_ok(out),
    ensures
        targets_ok(collect_lines(ls, in_fence, out)),
    decreases ls.len(),
{
    if ls.len() > 0 {
        if is_fence_line(ls[0]) {
            lemma_collect_lines_unique(ls.drop_first(), !in_fence, out);
        } else if in_fence {
            lemma_collect_lines_unique(ls.drop_first(), in_fence, out);
        } else {
            lemma_collect_line_unique(ls[0], out);
            lemma_collect_lines_unique(ls.drop_first(), in_fence, collect_line(ls[0], out));
        }
    }
}

} // verus!
