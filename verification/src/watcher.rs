//! Which file-system changes the index cares about. Watching and debouncing
//! is the caller's part; this module decides relevance from a path alone.
//! A deleted file is relevant too, so nothing here looks at the disk.
use vstd::prelude::*;

use crate::text::{chars_of, idx_of, idx_of_exec, lemma_idx_of_bounds, lemma_idx_of_shift, slice_of, views};
use crate::vault::reader::{is_sync_artifact, sync_artifact_spec};

verus! {

/// The `/`-separated segments of a path, empty ones included.
pub open spec fn segments(s: Seq<char>) -> Seq<Seq<char>>
    decreases s.len(),
{
    let i = idx_of(s, '/', 0);
    if i < s.len() {
        proof {
            lemma_idx_of_bounds(s, '/', 0);
        }
        seq![s.subrange(0, i)] + segments(s.subrange(i + 1, s.len() as int))
    } else {
        seq![s]
    }
}

/// The segments `Path::components` reports by name: non-empty, and `.` only
/// as the first segment of a relative path.
pub open spec fn named(segs: Seq<Seq<char>>, i: int) -> bool {
    segs[i].len() > 0 && (segs[i] != seq!['.'] || i == 0)
}

/// The file name of a path: its last non-empty segment other than `.`,
/// unless that is `..`.
pub open spec fn file_name_at(segs: Seq<Seq<char>>, j: int) -> Option<Seq<char>>
    decreases j,
{
    if j <= 0 || j > segs.len() {
        None
    } else if segs[j - 1].len() > 0 && segs[j - 1] != seq!['.'] {
        if segs[j - 1] == seq!['.', '.'] || (j - 1 == 0 && segs[0] == seq!['.']) {
            None
        } else {
            Some(segs[j - 1])
        }
    } else {
        file_name_at(segs, j - 1)
    }
}

/// Index of the last `.` before `j`.
pub open spec fn last_dot(s: Seq<char>, j: int) -> Option<int>
    decreases j,
{
    if j <= 0 || j > s.len() {
        None
    } else if s[j - 1] == '.' {
        Some(j - 1)
    } else {
        last_dot(s, j - 1)
    }
}

/// `Path::extension`: what follows the last `.` of the file name, unless
/// that dot starts the name.
pub open spec fn extension(path: Seq<char>) -> Option<Seq<char>> {
    let segs = segments(path);
    match file_name_at(segs, segs.len() as int) {
        None => None,
        Some(name) => match last_dot(name, name.len() as int) {
            Some(k) => if k > 0 {
                Some(name.subrange(k + 1, name.len() as int))
            } else {
                None
            },
            None => None,
        },
    }
}

/// A Markdown extension, in any case.
pub open spec fn is_md_ext(e: Seq<char>) -> bool {
    e.len() == 2 && (e[0] == 'm' || e[0] == 'M') && (e[1] == 'd' || e[1] == 'D')
}

/// A change the index cares about: a Markdown file, with no hidden or
/// artefact component on its path (`.obsidian/`, `.trash/`, `.git/`, ...).
pub open spec fn relevant_spec(path: Seq<char>) -> bool {
    let segs = segments(path);
    &&& extension(path) matches Some(e) && is_md_ext(e)
    &&& forall|i: int| 0 <= i < segs.len() && named(segs, i) ==> !sync_artifact_spec(#[trigger] segs[i])
}

fn segments_v(s: &Vec<char>) -> (r: Vec<Vec<char>>)
    ensures
        views(r@) == segments(s@),
{
    let mut r: Vec<Vec<char>> = Vec::new();
    let mut start: usize = 0;
    assert(s@.subrange(0, s@.len() as int) =~= s@);
    assert(views(r@) + segments(s@) =~= segments(s@));
    let mut done = false;
    while !done
        invariant
            start <= s.len(),
            !done ==> segments(s@) == views(r@) + segments(s@.subrange(start as int, s@.len() as int)),
            done ==> segments(s@) == views(r@),
        decreases s.len() - start, if done { 0int } else { 1int },
    {
        let ghost rest = s@.subrange(start as int, s@.len() as int);
        let i = idx_of_exec(s, '/', start);
        proof {
            lemma_idx_of_shift(s@, '/', start as int);
            lemma_idx_of_bounds(s@, '/', start as int);
        }
        if i < s.len() {
            let seg = slice_of(s, start, i);
            proof {
                assert(rest.subrange(0, i - start) =~= s@.subrange(start as int, i as int));
                assert(rest.subrange(i - start + 1, rest.len() as int) =~= s@.subrange(
                    i + 1,
                    s@.len() as int,
                ));
                assert(views(r@.push(seg)) =~= views(r@).push(seg@));
            }
            r.push(seg);
            start = i + 1;
        } else {
            let seg = slice_of(s, start, s.len());
            proof {
                assert(views(r@.push(seg)) =~= views(r@).push(seg@));
                assert(seg@ =~= rest);
            }
            r.push(seg);
            done = true;
        }
    }
    r
}

fn is_dot(v: &Vec<char>) -> (b: bool)
    ensures
        b == (v@ == seq!['.']),
{
    if v.len() == 1 && v[0] == '.' {
        assert(v@ =~= seq!['.']);
        true
    } else {
        false
    }
}

fn is_dot_dot(v: &Vec<char>) -> (b: bool)
    ensures
        b == (v@ == seq!['.', '.']),
{
    if v.len() == 2 && v[0] == '.' && v[1] == '.' {
        assert(v@ =~= seq!['.', '.']);
        true
    } else {
        false
    }
}

/// Whether a changed path matters to the index.
pub fn is_relevant(path: &str) -> (b: bool)
    ensures
        b == relevant_spec(path@),
{
    let p = chars_of(path);
    let segs = segments_v(&p);
    // the file name
    let mut j = segs.len();
    while j > 0 && (segs[j - 1].len() == 0 || is_dot(&segs[j - 1]))
        invariant
            j <= segs.len(),
            views(segs@) == segments(p@),
            file_name_at(views(segs@), views(segs@).len() as int) == file_name_at(
                views(segs@),
                j as int,
            ),
        decreases j,
    {
        assert(views(segs@)[j - 1] == segs@[j - 1]@);
        j -= 1;
    }
    if j == 0 {
        return false;
    }
    assert(views(segs@)[j - 1] == segs@[j - 1]@);
    assert(views(segs@)[0] == segs@[0]@);
    let name = &segs[j - 1];
    if is_dot_dot(name) || (j - 1 == 0 && is_dot(&segs[0])) {
        return false;
    }
    let mut k = name.len();
    while k > 0 && name[k - 1] != '.'
        invariant
            k <= name.len(),
            last_dot(name@, name@.len() as int) == last_dot(name@, k as int),
        decreases k,
    {
        k -= 1;
    }
    if k <= 1 {
        return false;
    }
    let e0 = k;
    if !(name.len() - e0 == 2 && (name[e0] == 'm' || name[e0] == 'M') && (name[e0 + 1] == 'd'
        || name[e0 + 1] == 'D')) {
        proof {
            let e = name@.subrange(e0 as int, name@.len() as int);
            if e.len() == 2 {
                assert(e[0] == name@[e0 as int] && e[1] == name@[e0 + 1]);
            }
        }
        return false;
    }
    proof {
        let e = name@.subrange(e0 as int, name@.len() as int);
        assert(e[0] == name@[e0 as int] && e[1] == name@[e0 + 1]);
    }
    // no hidden or artefact component
    let mut i: usize = 0;
    while i < segs.len()
        invariant
            i <= segs.len(),
            views(segs@) == segments(p@),
            p@ == path@,
            forall|q: int|
                0 <= q < i && named(views(segs@), q) ==> !sync_artifact_spec(#[trigger] views(segs@)[q]),
        decreases segs.len() - i,
    {
        assert(views(segs@)[i as int] == segs@[i as int]@);
        if segs[i].len() > 0 && (!is_dot(&segs[i]) || i == 0) {
            assert(named(views(segs@), i as int));
            let s = crate::text::string_of(&segs[i]);
            if is_sync_artifact(s.as_str()) {
                proof {
                    assert(named(views(segs@), i as int));
                    assert(sync_artifact_spec(views(segs@)[i as int]));
                }
                return false;
            }
        }
        i += 1;
    }
    true
}

} // verus!
