//! Frontmatter framing and reading.
//!
//! The frontmatter is a YAML block between a `---` line at the very start of
//! the file (after an optional BOM) and the next line that is exactly `---`.
//! A broken block never hides a note: its map is empty and the body is still
//! the text after the closing fence.
use vstd::prelude::*;

use crate::json::{conv, get, keys_unique, mapping_to_json, obj_get, Json, Yaml};
use crate::text::{
    chars_of, concat, has_prefix, lemma_concat_append, lemma_concat_pieces, lemma_concat_push, pieces, pieces_v, push_all, slice_of,
    starts_with_v, string_of, trim, trim_v, views,
};
use crate::vault::note::eq_str;

verus! {

/// `---`
pub open spec fn fence() -> Seq<char> {
    seq!['-', '-', '-']
}

/// The content without a leading byte order mark.
pub open spec fn strip_bom(s: Seq<char>) -> Seq<char> {
    if has_prefix(s, seq!['\u{feff}']) {
        s.subrange(1, s.len() as int)
    } else {
        s
    }
}

/// What follows the opening `---` line, if the content opens with one.
pub open spec fn after_opening(content: Seq<char>) -> Option<Seq<char>> {
    let s = strip_bom(content);
    if has_prefix(s, fence()) {
        let a = s.subrange(3, s.len() as int);
        if has_prefix(a, seq!['\r', '\n']) {
            Some(a.subrange(2, a.len() as int))
        } else if has_prefix(a, seq!['\n']) {
            Some(a.subrange(1, a.len() as int))
        } else {
            None
        }
    } else {
        None
    }
}

/// A line with every trailing `\r` and `\n` removed.
pub open spec fn strip_eol(l: Seq<char>) -> Seq<char>
    decreases l.len(),
{
    if l.len() > 0 && (l.last() == '\r' || l.last() == '\n') {
        strip_eol(l.drop_last())
    } else {
        l
    }
}

/// Index of the first piece at or after `k` that is a closing `---` line.
pub open spec fn closing_from(ps: Seq<Seq<char>>, k: int) -> Option<int>
    decreases ps.len() - k,
{
    if k < 0 || k >= ps.len() {
        None
    } else if strip_eol(ps[k]) == fence() {
        Some(k)
    } else {
        closing_from(ps, k + 1)
    }
}

/// The raw YAML block and the body of a note. Without a complete block the
/// whole content is the body.
pub open spec fn frame_spec(content: Seq<char>) -> (Option<Seq<char>>, Seq<char>) {
    match after_opening(content) {
        None => (None, content),
        Some(rest) => {
            let ps = pieces(rest);
            match closing_from(ps, 0) {
                None => (None, content),
                Some(k) => (Some(concat(ps.take(k))), concat(ps.skip(k + 1))),
            }
        },
    }
}

/// A note split at its frontmatter fences.
pub struct Framed {
    /// The YAML text between the fences, when the note has a complete block.
    pub yaml: Option<String>,
    /// Everything after the closing fence, or the whole note.
    pub body: String,
}

pub fn strip_eol_exec(l: &Vec<char>) -> (r: Vec<char>)
    ensures
        r@ == strip_eol(l@),
{
    let mut j = l.len();
    assert(l@.subrange(0, j as int) =~= l@);
    while j > 0 && (l[j - 1] == '\r' || l[j - 1] == '\n')
        invariant
            j <= l.len(),
            strip_eol(l@) == strip_eol(l@.subrange(0, j as int)),
        decreases j,
    {
        assert(l@.subrange(0, j as int).drop_last() =~= l@.subrange(0, j - 1));
        j -= 1;
    }
    slice_of(l, 0, j)
}

pub fn after_opening_exec(content: &Vec<char>) -> (r: Option<Vec<char>>)
    ensures
        match r {
            Some(v) => after_opening(content@) == Some(v@),
            None => after_opening(content@) is None,
        },
{
    let bom = vec!['\u{feff}'];
    assert(bom@ =~= seq!['\u{feff}']);
    let s = if starts_with_v(content, &bom) {
        slice_of(content, 1, content.len())
    } else {
        crate::text::copy(content)
    };
    let f = vec!['-', '-', '-'];
    assert(f@ =~= fence());
    if !starts_with_v(&s, &f) {
        return None;
    }
    let a = slice_of(&s, 3, s.len());
    let crlf = vec!['\r', '\n'];
    let lf = vec!['\n'];
    assert(crlf@ =~= seq!['\r', '\n']);
    assert(lf@ =~= seq!['\n']);
    if starts_with_v(&a, &crlf) {
        Some(slice_of(&a, 2, a.len()))
    } else if starts_with_v(&a, &lf) {
        Some(slice_of(&a, 1, a.len()))
    } else {
        None
    }
}

/// Concatenation of pieces `[lo, hi)`.
pub fn join_pieces(ps: &Vec<Vec<char>>, lo: usize, hi: usize) -> (s: String)
    requires
        lo <= hi <= ps.len(),
    ensures
        s@ == concat(views(ps@).subrange(lo as int, hi as int)),
{
    let mut s = String::new();
    let mut i = lo;
    assert(views(ps@).subrange(lo as int, lo as int) =~= Seq::<Seq<char>>::empty());
    while i < hi
        invariant
            lo <= i <= hi <= ps.len(),
            s@ == concat(views(ps@).subrange(lo as int, i as int)),
        decreases hi - i,
    {
        push_all(&mut s, &ps[i]);
        proof {
            let a = views(ps@).subrange(lo as int, i as int);
            assert(views(ps@).subrange(lo as int, i + 1) =~= a.push(ps@[i as int]@));
            lemma_concat_push(a, ps@[i as int]@);
        }
        i += 1;
    }
    s
}

/// Splits a note into its raw frontmatter block and its body.
pub fn frame(content: &str) -> (f: Framed)
    ensures
        opt_string_view(f.yaml) == frame_spec(content@).0,
        f.body@ == frame_spec(content@).1,
{
    let chars = chars_of(content);
    let rest = match after_opening_exec(&chars) {
        Some(r) => r,
        None => {
            return Framed { yaml: None, body: String::from_str(content) };
        },
    };
    let ps = pieces_v(&rest);
    let f = vec!['-', '-', '-'];
    assert(f@ =~= fence());
    let mut k: usize = 0;
    while k < ps.len()
        invariant
            k <= ps.len(),
            f@ == fence(),
            chars@ == content@,
            after_opening(content@) == Some(rest@),
            views(ps@) == pieces(rest@),
            closing_from(views(ps@), 0) == closing_from(views(ps@), k as int),
        decreases ps.len() - k,
    {
        let l = strip_eol_exec(&ps[k]);
        if l.len() == 3 && starts_with_v(&l, &f) {
            assert(l@ =~= fence());
            let yaml = join_pieces(&ps, 0, k);
            let body = join_pieces(&ps, k + 1, ps.len());
            proof {
                assert(views(ps@).take(k as int) =~= views(ps@).subrange(0, k as int));
                assert(views(ps@).skip(k + 1) =~= views(ps@).subrange(k + 1, ps@.len() as int));
            }
            return Framed { yaml: Some(yaml), body };
        }
        proof {
            if l@ == fence() {
                assert(l@.len() == 3);
                assert(has_prefix(l@, f@));
            }
        }
        k += 1;
    }
    Framed { yaml: None, body: String::from_str(content) }
}

/// The view of an optional string.
pub open spec fn opt_string_view(o: Option<String>) -> Option<Seq<char>> {
    match o {
        Some(s) => Some(s@),
        None => None,
    }
}

/// The frontmatter map of a raw YAML block and its parse (`None` when the
/// YAML did not parse). An empty block, or a document that is not a mapping,
/// gives the empty map.
pub open spec fn fm_spec(raw: Seq<char>, parsed: Option<Yaml>, es: Vec<(String, Json)>) -> bool {
    if trim(raw).len() == 0 {
        es.len() == 0
    } else {
        match parsed {
            Some(Yaml::Mapping(ps)) => conv(Yaml::Mapping(ps), Json::Object(es)),
            _ => es.len() == 0,
        }
    }
}

/// The frontmatter of a note as a JSON object, from the raw block and what
/// a YAML parser made of it. Never fails: broken YAML gives an empty map.
pub fn frontmatter_map(raw: &str, parsed: Option<&Yaml>) -> (es: Vec<(String, Json)>)
    ensures
        fm_spec(raw@, match parsed { Some(y) => Some(*y), None => None }, es),
        keys_unique(es@),
{
    let v = chars_of(raw);
    let t = trim_v(&v);
    if t.len() == 0 {
        return Vec::new();
    }
    match parsed {
        Some(Yaml::Mapping(ps)) => mapping_to_json(ps),
        _ => Vec::new(),
    }
}

/// The string a frontmatter field holds: a non-blank string trimmed, a
/// number or a boolean by its text.
pub open spec fn string_field_spec(fm: Seq<(String, Json)>, key: Seq<char>) -> Option<Seq<char>> {
    match obj_get(fm, key) {
        Some(Json::Str(s)) => if trim(s@).len() > 0 {
            Some(trim(s@))
        } else {
            None
        },
        Some(Json::Number(n)) => Some(n.text@),
        Some(Json::Bool(b)) => Some(
            if b {
                "true"@
            } else {
                "false"@
            },
        ),
        _ => None,
    }
}

/// Reads a frontmatter field as a string. Numbers and booleans count.
pub fn string_field(fm: &Vec<(String, Json)>, key: &str) -> (r: Option<String>)
    requires
        keys_unique(fm@),
    ensures
        opt_string_view(r) == string_field_spec(fm@, key@),
{
    match get(fm, key) {
        Some(Json::Str(s)) => {
            let v = chars_of(s.as_str());
            let t = trim_v(&v);
            if t.len() > 0 {
                Some(string_of(&t))
            } else {
                None
            }
        },
        Some(Json::Number(n)) => Some(n.text.clone()),
        Some(Json::Bool(b)) => {
            if *b {
                Some(String::from_str("true"))
            } else {
                Some(String::from_str("false"))
            }
        },
        _ => None,
    }
}

/// The body that framing leaves is a suffix of the content: the frontmatter
/// only ever takes text from the front.
pub proof fn lemma_frame_body_suffix(content: Seq<char>)
    ensures
        frame_spec(content).1.len() <= content.len(),
        content.subrange(content.len() - frame_spec(content).1.len(), content.len() as int)
            =~= frame_spec(content).1,
{
    match after_opening(content) {
        None => {},
        Some(rest) => {
            let ps = pieces(rest);
            match closing_from(ps, 0) {
                None => {},
                Some(k) => {
                    lemma_closing_from_bounds(ps, 0);
                    lemma_concat_pieces(rest);
                    assert(ps =~= ps.take(k + 1) + ps.skip(k + 1));
                    lemma_concat_append(ps.take(k + 1), ps.skip(k + 1));
                    lemma_after_opening_suffix(content);
                    let a = concat(ps.take(k + 1));
                    let b = concat(ps.skip(k + 1));
                    assert(rest =~= a + b);
                    assert(rest.subrange(rest.len() - b.len(), rest.len() as int) =~= b);
                    assert(content.subrange(content.len() - b.len(), content.len() as int)
                        =~= rest.subrange(rest.len() - b.len(), rest.len() as int));
                },
            }
        },
    }
}

proof fn lemma_closing_from_bounds(ps: Seq<Seq<char>>, k: int)
    ensures
        match closing_from(ps, k) {
            Some(j) => 0 <= j < ps.len() && j >= k,
            None => true,
        },
    decreases ps.len() - k,
{
    if 0 <= k < ps.len() && strip_eol(ps[k]) != fence() {
        lemma_closing_from_bounds(ps, k + 1);
    }
}

proof fn lemma_after_opening_suffix(content: Seq<char>)
    ensures
        match after_opening(content) {
            Some(rest) => rest.len() <= content.len() && content.subrange(
                content.len() - rest.len(),
                content.len() as int,
            ) =~= rest,
            None => true,
        },
{
}

} // verus!
