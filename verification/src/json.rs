//! Plain-value models of the JSON and YAML documents the library reads, and
//! the YAML-to-JSON mapping applied to note frontmatter.
//!
//! Parsing text into these values is done by the caller (serde); the library
//! works on the values.
use vstd::prelude::*;

verus! {

/// A JSON number: its integer value when it is an integer, and its text.
#[derive(Debug, Clone, PartialEq, Eq)]
pub struct JsonNumber {
    pub int: Option<i64>,
    pub text: String,
}

/// A JSON value. Object entries keep their order; keys are unique.
#[derive(Debug)]
pub enum Json {
    Null,
    Bool(bool),
    Number(JsonNumber),
    Str(String),
    Array(Vec<Json>),
    Object(Vec<(String, Json)>),
}

/// A YAML number as a YAML parser reports it: its value as `i64` when it
/// fits, the JSON text of its finite floating value otherwise, and its text.
#[derive(Debug, Clone, PartialEq, Eq)]
pub struct YamlNumber {
    pub as_i64: Option<i64>,
    pub float_json: Option<String>,
    pub text: String,
}

/// A YAML value.
#[derive(Debug)]
pub enum Yaml {
    Null,
    Bool(bool),
    Number(YamlNumber),
    Str(String),
    List(Vec<Yaml>),
    Mapping(Vec<(Yaml, Yaml)>),
    Tagged(Box<Yaml>),
}

// ---------------------------------------------------------------------------
// JSON objects
// ---------------------------------------------------------------------------

/// Keys of an object are pairwise distinct.
pub open spec fn keys_unique(es: Seq<(String, Json)>) -> bool {
    forall|a: int, b: int|
        0 <= a < es.len() && 0 <= b < es.len() && a != b ==> #[trigger] es[a].0@ != #[trigger] es[b].0@
}

/// Position of `key` in an object's entries.
pub open spec fn key_pos(es: Seq<(String, Json)>, key: Seq<char>) -> Option<int> {
    if exists|m: int| 0 <= m < es.len() && es[m].0@ == key {
        Some(choose|m: int| 0 <= m < es.len() && es[m].0@ == key)
    } else {
        None
    }
}

/// `Map::get` on an object's entries.
pub open spec fn obj_get(es: Seq<(String, Json)>, key: Seq<char>) -> Option<Json> {
    match key_pos(es, key) {
        Some(m) => Some(es[m].1),
        None => None,
    }
}

/// `Value::get(key)`: the member of an object; `None` for any other value.
pub open spec fn json_get(j: Json, key: Seq<char>) -> Option<Json> {
    match j {
        Json::Object(es) => obj_get(es@, key),
        _ => None,
    }
}

/// Finds a key in an object's entries.
pub fn find_key(es: &Vec<(String, Json)>, key: &str) -> (r: Option<usize>)
    ensures
        match r {
            Some(m) => m < es@.len() && es@[m as int].0@ == key@,
            None => forall|m: int| 0 <= m < es@.len() ==> es@[m].0@ != key@,
        },
{
    let k = crate::text::chars_of(key);
    let mut m: usize = 0;
    while m < es.len()
        invariant
            k@ == key@,
            m <= es@.len(),
            forall|j: int| 0 <= j < m ==> es@[j].0@ != key@,
        decreases es@.len() - m,
    {
        let e = crate::text::chars_of(es[m].0.as_str());
        if e.len() == k.len() && crate::text::starts_with_v(&e, &k) {
            assert(e@ =~= k@);
            return Some(m);
        }
        m += 1;
    }
    None
}

/// `Map::get` on an object's entries, by reference.
pub fn get<'a>(es: &'a Vec<(String, Json)>, key: &str) -> (r: Option<&'a Json>)
    requires
        keys_unique(es@),
    ensures
        match r {
            Some(v) => obj_get(es@, key@) == Some(*v),
            None => obj_get(es@, key@) is None,
        },
{
    match find_key(es, key) {
        Some(m) => {
            proof {
                let p = choose|p: int| 0 <= p < es@.len() && es@[p].0@ == key@;
                assert(p == m);
            }
            Some(&es[m].1)
        },
        None => None,
    }
}

/// `Value::get(key)` by reference.
pub fn json_member<'a>(j: &'a Json, key: &str) -> (r: Option<&'a Json>)
    requires
        j matches Json::Object(es) ==> keys_unique(es@),
    ensures
        match r {
            Some(v) => json_get(*j, key@) == Some(*v),
            None => json_get(*j, key@) is None,
        },
{
    match j {
        Json::Object(es) => get(es, key),
        _ => None,
    }
}

/// The JSON value is well formed: every object, at any depth, has unique keys.
pub open spec fn json_wf(j: Json) -> bool
    decreases j,
{
    match j {
        Json::Array(v) => forall|i: int| 0 <= i < v.len() ==> json_wf(#[trigger] v@[i]),
        Json::Object(es) => keys_unique(es@) && forall|i: int|
            0 <= i < es.len() ==> json_wf(#[trigger] es@[i].1),
        _ => true,
    }
}

/// A member of a well-formed value is well formed.
pub proof fn lemma_member_wf(j: Json, key: Seq<char>)
    requires
        json_wf(j),
        json_get(j, key) is Some,
    ensures
        json_wf(json_get(j, key)->0),
{
    let es = j->Object_0;
    let m = key_pos(es@, key)->0;
    assert(0 <= m < es@.len() && es@[m].0@ == key);
    assert(json_wf(es@[m].1));
}

/// Whether a JSON value is well formed (see [`json_wf`]).
pub fn is_well_formed(j: &Json) -> (b: bool)
    ensures
        b == json_wf(*j),
    decreases j,
{
    match j {
        Json::Array(v) => {
            let mut i: usize = 0;
            while i < v.len()
                invariant
                    *j is Array,
                    j->Array_0 == *v,
                    i <= v.len(),
                    forall|k: int| 0 <= k < i ==> json_wf(#[trigger] v@[k]),
                decreases v.len() - i,
            {
                proof {
                    assert(decreases_to!(*j => j->Array_0));
                    assert(decreases_to!(j->Array_0 => j->Array_0@));
                    assert(decreases_to!(*j => j->Array_0@[i as int]));
                }
                if !is_well_formed(&v[i]) {
                    assert(!json_wf(v@[i as int]));
                    return false;
                }
                i += 1;
            }
            true
        },
        Json::Object(es) => {
            let mut a: usize = 0;
            while a < es.len()
                invariant
                    *j is Object,
                    j->Object_0 == *es,
                    a <= es.len(),
                    forall|x: int, y: int|
                        0 <= x < a && 0 <= y < es.len() && x != y ==> #[trigger] es@[x].0@
                            != #[trigger] es@[y].0@,
                    forall|k: int| 0 <= k < a ==> json_wf(#[trigger] es@[k].1),
                decreases es.len() - a,
            {
                let mut b: usize = 0;
                while b < es.len()
                    invariant
                        *j is Object,
                        j->Object_0 == *es,
                        a < es.len(),
                        b <= es.len(),
                        forall|y: int| 0 <= y < b && y != a ==> es@[a as int].0@ != #[trigger] es@[y].0@,
                    decreases es.len() - b,
                {
                    if b != a && crate::text::same_text(es[a].0.as_str(), es[b].0.as_str()) {
                        assert(!keys_unique(es@)) by {
                            assert(es@[a as int].0@ == es@[b as int].0@);
                        }
                        return false;
                    }
                    b += 1;
                }
                proof {
                    assert(decreases_to!(*j => j->Object_0));
                    assert(decreases_to!(j->Object_0 => j->Object_0@));
                    assert(decreases_to!(j->Object_0@ => j->Object_0@[a as int]));
                    assert(decreases_to!(j->Object_0@[a as int] => j->Object_0@[a as int].1));
                }
                if !is_well_formed(&es[a].1) {
                    assert(!json_wf(es@[a as int].1));
                    return false;
                }
                proof {
                    assert forall|x: int, y: int|
                        0 <= x < a + 1 && 0 <= y < es.len() && x != y implies #[trigger] es@[x].0@
                            != #[trigger] es@[y].0@ by {
                        if x == a {
                        } else if y == a {
                            assert(es@[a as int].0@ != es@[x].0@);
                        }
                    }
                }
                a += 1;
            }
            true
        },
        _ => true,
    }
}

// ---------------------------------------------------------------------------
// YAML to JSON
// ---------------------------------------------------------------------------

/// A YAML mapping key as a JSON object key: strings as they are, numbers and
/// booleans by their text; other keys are dropped.
pub open spec fn ykey(k: Yaml) -> Option<Seq<char>> {
    match k {
        Yaml::Str(s) => Some(s@),
        Yaml::Number(n) => Some(n.text@),
        Yaml::Bool(b) => Some(
            if b {
                "true"@
            } else {
                "false"@
            },
        ),
        _ => None,
    }
}

/// Pair `i` is the last one in `ps` whose key is `k`.
pub open spec fn last_with_key(ps: Seq<(Yaml, Yaml)>, i: int, k: Seq<char>) -> bool {
    &&& 0 <= i < ps.len()
    &&& ykey(ps[i].0) == Some(k)
    &&& forall|i2: int| i < i2 < ps.len() ==> ykey(#[trigger] ps[i2].0) != Some(k)
}

/// Index of the last of the first `n` pairs whose key is `k`, or -1.
pub open spec fn last_idx(ps: Seq<(Yaml, Yaml)>, k: Seq<char>, n: int) -> int
    decreases n,
{
    if n <= 0 {
        -1
    } else if ykey(ps[n - 1].0) == Some(k) {
        n - 1
    } else {
        last_idx(ps, k, n - 1)
    }
}

pub proof fn lemma_last_idx(ps: Seq<(Yaml, Yaml)>, i: int, k: Seq<char>, n: int)
    requires
        last_with_key(ps, i, k),
        i < n <= ps.len(),
    ensures
        last_idx(ps, k, n) == i,
    decreases n,
{
    if n - 1 > i {
        lemma_last_idx(ps, i, k, n - 1);
    }
}

/// A YAML number as JSON: integers when they fit in `i64`, finite floats,
/// and `null` otherwise.
pub open spec fn num_conv(n: YamlNumber, j: Json) -> bool {
    match n.as_i64 {
        Some(i) => j matches Json::Number(m) && m.int == Some(i) && m.text@ == n.text@,
        None => match n.float_json {
            Some(t) => j matches Json::Number(m) && m.int is None && m.text@ == t@,
            None => j is Null,
        },
    }
}

/// `j` is the JSON form of `y`. A mapping becomes an object holding, for each
/// key that maps to a string, the value of the last pair with that key; tags
/// are dropped.
pub open spec fn conv(y: Yaml, j: Json) -> bool
    decreases y,
{
    match y {
        Yaml::Null => j is Null,
        Yaml::Bool(b) => j matches Json::Bool(c) && c == b,
        Yaml::Number(n) => num_conv(n, j),
        Yaml::Str(s) => j matches Json::Str(t) && t@ == s@,
        Yaml::List(ys) => j matches Json::Array(js) && js.len() == ys.len() && forall|i: int|
            0 <= i < ys.len() ==> conv(#[trigger] ys@[i], js@[i]),
        Yaml::Mapping(ps) => j matches Json::Object(es) && keys_unique(es@) && (forall|i: int|
            0 <= i < ps.len() && (#[trigger] ykey(ps@[i].0)) is Some ==> exists|m: int|
                0 <= m < es.len() && es@[m].0@ == ykey(ps@[i].0)->0) && (forall|m: int|
            0 <= m < es.len() ==> {
                let i = last_idx(ps@, (#[trigger] es@[m]).0@, ps.len() as int);
                0 <= i < ps.len() && conv(ps@[i].1, es@[m].1)
            }),
        Yaml::Tagged(b) => conv(*b, j),
    }
}

fn key_text(k: &Yaml) -> (r: Option<String>)
    ensures
        match r {
            Some(s) => ykey(*k) == Some(s@),
            None => ykey(*k) is None,
        },
{
    match k {
        Yaml::Str(s) => Some(s.clone()),
        Yaml::Number(n) => Some(n.text.clone()),
        Yaml::Bool(b) => {
            if *b {
                Some(String::from_str("true"))
            } else {
                Some(String::from_str("false"))
            }
        },
        _ => None,
    }
}

fn num_to_json(n: &YamlNumber) -> (j: Json)
    ensures
        num_conv(*n, j),
{
    match n.as_i64 {
        Some(i) => Json::Number(JsonNumber { int: Some(i), text: n.text.clone() }),
        None => match &n.float_json {
            Some(t) => Json::Number(JsonNumber { int: None, text: t.clone() }),
            None => Json::Null,
        },
    }
}

/// The JSON form of a YAML value (see [`conv`]).
pub fn yaml_to_json(y: &Yaml) -> (j: Json)
    ensures
        conv(*y, j),
    decreases y,
{
    match y {
        Yaml::Null => Json::Null,
        Yaml::Bool(b) => Json::Bool(*b),
        Yaml::Number(n) => num_to_json(n),
        Yaml::Str(s) => Json::Str(s.clone()),
        Yaml::List(items) => {
            let mut out: Vec<Json> = Vec::new();
            let mut i: usize = 0;
            while i < items.len()
                invariant
                    *y is List,
                    y->List_0 == *items,
                    i <= items@.len(),
                    out@.len() == i,
                    forall|k: int| 0 <= k < i ==> conv(#[trigger] items@[k], out@[k]),
                decreases items@.len() - i,
            {
                proof {
                    assert(decreases_to!(*y => y->List_0));
                    assert(decreases_to!(y->List_0 => y->List_0@));
                    assert(decreases_to!(*y => y->List_0@[i as int]));
                }
                let j = yaml_to_json(&items[i]);
                out.push(j);
                i += 1;
            }
            Json::Array(out)
        },
        Yaml::Mapping(pairs) => {
            proof {
                assert(decreases_to!(*y => y->Mapping_0));
            }
            let es = mapping_to_json(pairs);
            Json::Object(es)
        },
        Yaml::Tagged(inner) => yaml_to_json(inner),
    }
}

/// The object entries of a YAML mapping (see [`conv`]).
pub fn mapping_to_json(pairs: &Vec<(Yaml, Yaml)>) -> (es: Vec<(String, Json)>)
    ensures
        conv(Yaml::Mapping(*pairs), Json::Object(es)),
    decreases pairs,
{
    let mut es: Vec<(String, Json)> = Vec::new();
    let ghost mut src: Seq<int> = Seq::empty();
    let mut n: usize = 0;
    while n < pairs.len()
        invariant
            n <= pairs@.len(),
            es@.len() == src.len(),
            keys_unique(es@),
            forall|m: int|
                #![trigger es@[m]]
                0 <= m < es@.len() ==> last_with_key(
                    pairs@.subrange(0, n as int),
                    src[m],
                    es@[m].0@,
                ) && conv(pairs@[src[m]].1, es@[m].1),
            forall|i: int|
                0 <= i < n && (#[trigger] ykey(pairs@[i].0)) is Some ==> exists|m: int|
                    0 <= m < es@.len() && es@[m].0@ == ykey(pairs@[i].0)->0,
        decreases pairs@.len() - n,
    {
        let ghost old_es = es@;
        let ghost old_src = src;
        let ghost pre = pairs@.subrange(0, n as int);
        let ghost post = pairs@.subrange(0, n + 1);
        match key_text(&pairs[n].0) {
            Some(k) => {
                proof {
                    assert(decreases_to!(*pairs => pairs@));
                    assert(decreases_to!(pairs@ => pairs@[n as int]));
                    assert(decreases_to!(pairs@[n as int] => pairs@[n as int].1));
                }
                let v = yaml_to_json(&pairs[n].1);
                let ghost mut pos: int = 0;
                match find_key(&es, k.as_str()) {
                    Some(m) => {
                        es.set(m, (k, v));
                        proof {
                            src = src.update(m as int, n as int);
                            pos = m as int;
                        }
                    },
                    None => {
                        es.push((k, v));
                        proof {
                            src = src.push(n as int);
                            pos = es@.len() - 1;
                        }
                    },
                }
                proof {
                    let kk = ykey(pairs@[n as int].0)->0;
                    assert forall|m: int| 0 <= m < es@.len() implies last_with_key(
                        post,
                        src[m],
                        (#[trigger] es@[m]).0@,
                    ) && conv(pairs@[src[m]].1, es@[m].1) by {
                        if src[m] == n as int {
                            assert(post[n as int] == pairs@[n as int]);
                        } else {
                            assert(m < old_es.len() && es@[m] == old_es[m] && src[m] == old_src[m]);
                            assert(last_with_key(pre, old_src[m], old_es[m].0@));
                            assert(old_es[m].0@ != kk);
                            assert forall|i2: int| src[m] < i2 < post.len() implies ykey(
                                #[trigger] post[i2].0,
                            ) != Some(es@[m].0@) by {
                                if i2 < n {
                                    assert(post[i2] == pre[i2]);
                                }
                            }
                            assert(post[src[m]] == pre[src[m]]);
                        }
                    }
                    assert forall|i: int|
                        0 <= i < n + 1 && (#[trigger] ykey(pairs@[i].0)) is Some implies exists|m: int|
                        0 <= m < es@.len() && es@[m].0@ == ykey(pairs@[i].0)->0 by {
                        if i < n {
                            let m = choose|m: int|
                                0 <= m < old_es.len() && old_es[m].0@ == ykey(pairs@[i].0)->0;
                            if m < es@.len() && es@[m].0@ == old_es[m].0@ {
                            } else {
                                assert(es@[m].0@ == kk);
                            }
                        } else {
                            assert(0 <= pos < es@.len() && es@[pos].0@ == kk);
                        }
                    }
                    assert(keys_unique(es@));
                }
            },
            None => {
                proof {
                    assert forall|m: int| 0 <= m < es@.len() implies last_with_key(
                        post,
                        src[m],
                        (#[trigger] es@[m]).0@,
                    ) && conv(pairs@[src[m]].1, es@[m].1) by {
                        assert(last_with_key(pre, src[m], es@[m].0@));
                        assert forall|i2: int| src[m] < i2 < post.len() implies ykey(
                            #[trigger] post[i2].0,
                        ) != Some(es@[m].0@) by {
                            if i2 < n {
                                assert(post[i2] == pre[i2]);
                            }
                        }
                        assert(post[src[m]] == pre[src[m]]);
                    }
                }
            },
        }
        n += 1;
    }
    proof {
        assert(pairs@.subrange(0, n as int) =~= pairs@);
        assert forall|m: int| 0 <= m < es@.len() implies exists|i: int|
            #![trigger pairs@[i]]
            last_with_key(pairs@, i, (#[trigger] es@[m]).0@) && conv(pairs@[i].1, es@[m].1) by {
            let i = src[m];
            assert(last_with_key(pairs@, i, es@[m].0@) && conv(pairs@[i].1, es@[m].1));
        }
        assert forall|m: int| 0 <= m < es@.len() implies ({
            let i = last_idx(pairs@, (#[trigger] es@[m]).0@, pairs@.len() as int);
            0 <= i < pairs@.len() && conv(pairs@[i].1, es@[m].1)
        }) by {
            lemma_last_idx(pairs@, src[m], es@[m].0@, pairs@.len() as int);
        }
    }
    es
}

} // verus!
