//! The workspace registry: data, not code. Every workspace is resolved the
//! same way; adding one is adding an entry.
use vstd::prelude::*;

use crate::text::{chars_of, push_char, trim, trim_v};
use crate::vault::note::eq_str;

verus! {

/// A workspace definition.
#[derive(Debug, Clone)]
pub struct WorkspaceDef {
    /// Canonical identity, used by the index and the command surface.
    pub id: &'static str,
    /// Label shown to the user.
    pub label: &'static str,
    /// Lower-case spellings that frontmatter may use.
    pub aliases: Vec<&'static str>,
    /// Whether the workspace has a live data surface.
    pub active: bool,
}

/// The registry as plain values: `(id, label, aliases, active)`, in order.
pub open spec fn registry() -> Seq<(Seq<char>, Seq<char>, Seq<Seq<char>>, bool)> {
    seq![
        ("wif"@, "WIF"@, seq!["wif"@], true),
        ("gen"@, "GEN"@, seq!["gen"@], true),
        ("tuga"@, "TüGA"@, seq!["tuga"@, "tüga"@], true),
        ("burkon"@, "Burkon"@, seq!["burkon"@], true),
        ("merci"@, "Merci"@, seq!["merci"@], true),
        ("kepder"@, "KEPDER"@, seq!["kepder"@], true),
        ("ogrenciyiz"@, "Öğrenciyiz.biz.tr"@, seq![
            "ogrenciyiz"@,
            "öğrenciyiz"@,
            "ogrenciyiz.biz.tr"@,
            "öğrenciyiz.biz.tr"@,
        ], true),
    ]
}

/// The plain-value view of a definition.
pub open spec fn def_view(d: WorkspaceDef) -> (Seq<char>, Seq<char>, Seq<Seq<char>>, bool) {
    (d.id@, d.label@, d.aliases@.map_values(|a: &'static str| a@), d.active)
}

fn def(id: &'static str, label: &'static str, aliases: Vec<&'static str>) -> (d: WorkspaceDef)
    ensures
        d.id == id,
        d.label == label,
        d.aliases@ == aliases@,
        d.active,
{
    WorkspaceDef { id, label, aliases, active: true }
}

/// The seven workspaces, in their fixed order.
pub fn workspaces() -> (ws: Vec<WorkspaceDef>)
    ensures
        ws@.map_values(|d: WorkspaceDef| def_view(d)) =~= registry(),
{
    let ws = vec![
        def("wif", "WIF", vec!["wif"]),
        def("gen", "GEN", vec!["gen"]),
        def("tuga", "TüGA", vec!["tuga", "tüga"]),
        def("burkon", "Burkon", vec!["burkon"]),
        def("merci", "Merci", vec!["merci"]),
        def("kepder", "KEPDER", vec!["kepder"]),
        def(
            "ogrenciyiz",
            "Öğrenciyiz.biz.tr",
            vec!["ogrenciyiz", "öğrenciyiz", "ogrenciyiz.biz.tr", "öğrenciyiz.biz.tr"],
        ),
    ];
    proof {
        let vs = ws@.map_values(|d: WorkspaceDef| def_view(d));
        assert forall|i: int| 0 <= i < 7 implies #[trigger] vs[i] == registry()[i] by {
            assert(ws@[i].aliases@.map_values(|a: &'static str| a@) =~= registry()[i].2);
        }
    }
    ws
}

/// What `char::to_lowercase` yields for a character (Unicode default case
/// mapping). Named, not written out; see [`char_lowercase`].
pub uninterp spec fn lowercase_of(c: char) -> Seq<char>;

/// `char::to_lowercase`, collected. The Unicode tables are not restated:
/// the result is named [`lowercase_of`]. Only characters outside ASCII are
/// handed to it; ASCII is lower-cased by [`fold_char`] itself.
#[verifier::external_body]
fn char_lowercase(c: char) -> (r: Vec<char>)
    ensures
        r@ == lowercase_of(c),
{
    c.to_lowercase().collect()
}

/// Lower-casing for matching, character by character. `İ` becomes plain
/// `i`; the Turkish `I` → `ı` rule is deliberately not applied, because
/// workspace names are abbreviations written with ASCII `I`.
pub open spec fn fold_chars(s: Seq<char>) -> Seq<char>
    decreases s.len(),
{
    if s.len() == 0 {
        Seq::empty()
    } else {
        fold_chars(s.drop_last()) + fold_char(s.last())
    }
}

/// One character lower-cased for matching: ASCII `A`–`Z` to `a`–`z`, other
/// ASCII unchanged (as `char::to_lowercase` documents), `İ` to `i`, and any
/// other character by `char::to_lowercase`.
pub open spec fn fold_char(c: char) -> Seq<char> {
    if 'A' <= c && c <= 'Z' {
        seq![((c as u32) + 32) as char]
    } else if (c as u32) < 128 {
        seq![c]
    } else if c == 'İ' {
        seq!['i']
    } else {
        lowercase_of(c)
    }
}

/// A raw frontmatter value made ready for matching: trimmed and folded.
pub open spec fn normalize_spec(raw: Seq<char>) -> Seq<char> {
    fold_chars(trim(raw))
}

/// Index of the first workspace at or after `k` whose id or an alias is
/// `needle`.
pub open spec fn match_from(needle: Seq<char>, k: int) -> Option<int>
    decreases 7 - k,
{
    if k < 0 || k >= 7 {
        None
    } else if registry()[k].0 == needle || registry()[k].2.contains(needle) {
        Some(k)
    } else {
        match_from(needle, k + 1)
    }
}

/// The canonical id a raw workspace value resolves to.
pub open spec fn resolve_spec(raw: Seq<char>) -> Option<Seq<char>> {
    let needle = normalize_spec(raw);
    if needle.len() == 0 {
        None
    } else {
        match match_from(needle, 0) {
            Some(k) => Some(registry()[k].0),
            None => None,
        }
    }
}

/// Normalises a workspace name for matching.
pub fn normalize(raw: &str) -> (s: String)
    ensures
        s@ == normalize_spec(raw@),
{
    let v = chars_of(raw);
    let t = trim_v(&v);
    let mut out = String::new();
    let mut i: usize = 0;
    while i < t.len()
        invariant
            i <= t.len(),
            out@ == fold_chars(t@.subrange(0, i as int)),
        decreases t.len() - i,
    {
        let c = t[i];
        proof {
            assert(t@.subrange(0, i + 1).drop_last() =~= t@.subrange(0, i as int));
        }
        if 'A' <= c && c <= 'Z' {
            push_char(&mut out, ((c as u8) + 32) as char);
        } else if (c as u32) < 128 {
            push_char(&mut out, c);
        } else if c == 'İ' {
            push_char(&mut out, 'i');
        } else {
            let l = char_lowercase(c);
            let mut k: usize = 0;
            let ghost before = out@;
            while k < l.len()
                invariant
                    k <= l.len(),
                    out@ == before + l@.subrange(0, k as int),
                decreases l.len() - k,
            {
                push_char(&mut out, l[k]);
                k += 1;
                assert(out@ =~= before + l@.subrange(0, k as int));
            }
            assert(l@.subrange(0, l@.len() as int) =~= l@);
        }
        i += 1;
        assert(out@ =~= fold_chars(t@.subrange(0, i as int)));
    }
    assert(t@.subrange(0, t@.len() as int) =~= t@);
    out
}

/// The canonical workspace id for a raw frontmatter value. A value that
/// matches nothing resolves to nothing; it never falls into a wrong
/// workspace.
pub fn resolve(raw: &str) -> (r: Option<&'static str>)
    ensures
        match r {
            Some(id) => resolve_spec(raw@) == Some(id@),
            None => resolve_spec(raw@) is None,
        },
{
    let needle = normalize(raw);
    let n = chars_of(needle.as_str());
    if n.len() == 0 {
        return None;
    }
    let ws = workspaces();
    let mut k: usize = 0;
    while k < ws.len()
        invariant
            k <= 7,
            ws@.len() == 7,
            n@ == normalize_spec(raw@),
            n@.len() > 0,
            ws@.map_values(|d: WorkspaceDef| def_view(d)) == registry(),
            match_from(n@, 0) == match_from(n@, k as int),
        decreases 7 - k,
    {
        let d = &ws[k];
        assert(def_view(ws@[k as int]) == registry()[k as int]);
        let mut hit = eq_str(&n, d.id);
        let mut a: usize = 0;
        while a < d.aliases.len() && !hit
            invariant
                a <= d.aliases@.len(),
                hit == (registry()[k as int].0 == n@ || exists|j: int|
                    0 <= j < a && d.aliases@[j]@ == n@),
                def_view(*d) == registry()[k as int],
            decreases d.aliases@.len() - a,
        {
            if eq_str(&n, d.aliases[a]) {
                hit = true;
            }
            a += 1;
        }
        proof {
            let al = d.aliases@.map_values(|x: &'static str| x@);
            assert(al == registry()[k as int].2);
            if registry()[k as int].2.contains(n@) {
                let j = choose|j: int| 0 <= j < al.len() && al[j] == n@;
                assert(d.aliases@[j]@ == n@);
            }
            if hit && registry()[k as int].0 != n@ {
                let j = choose|j: int| 0 <= j < a && d.aliases@[j]@ == n@;
                assert(al[j] == n@);
            }
        }
        if hit {
            return Some(d.id);
        }
        k += 1;
    }
    None
}

} // verus!
