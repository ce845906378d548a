//! JSON request bodies as plain values: the top-level members, and the members
//! of member objects, that the lobby forms read.
use vstd::prelude::*;
use crate::text::{dec, dec_int, push_dec, push_dec_i64, str_chars};
use serde_json::Value;

verus! {

/// What the accessors of `serde_json::Value` give for one value.
#[derive(Debug, Clone)]
pub struct JsonLeaf {
    /// `as_str`: the value when it is a string.
    pub as_str: Option<String>,
    /// `as_i64`: the value when it is an integer that fits an `i64`.
    pub as_i64: Option<i64>,
    /// `as_u64`: the value when it is a non-negative integer that fits a `u64`.
    pub as_u64: Option<u64>,
}

pub struct JsonLeafView {
    pub as_str: Option<Seq<char>>,
    pub as_i64: Option<i64>,
    pub as_u64: Option<u64>,
}

impl View for JsonLeaf {
    type V = JsonLeafView;

    open spec fn view(&self) -> JsonLeafView {
        JsonLeafView {
            as_str: match self.as_str {
                Some(s) => Some(s@),
                None => None,
            },
            as_i64: self.as_i64,
            as_u64: self.as_u64,
        }
    }
}

pub open spec fn fields_view(s: Seq<(String, JsonLeaf)>) -> Seq<(Seq<char>, JsonLeafView)> {
    s.map_values(|p: (String, JsonLeaf)| (p.0@, p.1@))
}

/// A top-level member's value: its accessors, and when it is an object its
/// members (each by its accessors) in the order the parser walks them.
#[derive(Debug, Clone)]
pub struct JsonValue {
    pub scalar: JsonLeaf,
    pub as_object: Option<Vec<(String, JsonLeaf)>>,
}

pub struct JsonValueView {
    pub scalar: JsonLeafView,
    pub as_object: Option<Seq<(Seq<char>, JsonLeafView)>>,
}

impl View for JsonValue {
    type V = JsonValueView;

    open spec fn view(&self) -> JsonValueView {
        JsonValueView {
            scalar: self.scalar@,
            as_object: match self.as_object {
                Some(f) => Some(fields_view(f@)),
                None => None,
            },
        }
    }
}

/// A parsed body: its top-level members when it is an object, else none.
#[derive(Debug, Clone)]
pub struct JsonDoc {
    pub members: Vec<(String, JsonValue)>,
}

impl View for JsonDoc {
    type V = Seq<(Seq<char>, JsonValueView)>;

    open spec fn view(&self) -> Seq<(Seq<char>, JsonValueView)> {
        self.members@.map_values(|p: (String, JsonValue)| (p.0@, p.1@))
    }
}

pub open spec fn opt_doc_view(r: Option<JsonDoc>) -> Option<Seq<(Seq<char>, JsonValueView)>> {
    match r {
        Some(d) => Some(d@),
        None => None,
    }
}

/// What `serde_json::from_slice::<serde_json::Value>` makes of `b`, as a
/// `JsonDoc` (`None` when it is refused).
pub uninterp spec fn json_doc_of(b: Seq<u8>) -> Option<Seq<(Seq<char>, JsonValueView)>>;

/// `a` comes strictly before `b`, character by character.
pub open spec fn key_before(a: Seq<char>, b: Seq<char>) -> bool
    decreases a.len(),
{
    if a.len() == 0 {
        b.len() > 0
    } else if b.len() == 0 {
        false
    } else if a[0] != b[0] {
        (a[0] as u32) < (b[0] as u32)
    } else {
        key_before(a.drop_first(), b.drop_first())
    }
}

pub open spec fn keys_ascending<V>(s: Seq<(Seq<char>, V)>) -> bool {
    forall|i: int, j: int| 0 <= i < j < s.len() ==> key_before(#[trigger] s[i].0, #[trigger] s[j].0)
}

/// The members of a parsed body, and of each object in it, come in strictly
/// ascending key order: the map of `serde_json` without its `preserve_order`
/// feature is a `BTreeMap<String, _>`.
pub open spec fn doc_keys_ascending(d: Seq<(Seq<char>, JsonValueView)>) -> bool {
    &&& keys_ascending(d)
    &&& forall|i: int|
        0 <= i < d.len() ==> match (#[trigger] d[i].1).as_object {
            Some(f) => keys_ascending(f),
            None => true,
        }
}

/// `serde_json::from_slice::<serde_json::Value>`: the body parsed as JSON, its
/// top-level members (none unless it is an object), each with what `as_str`,
/// `as_i64`, `as_u64` and `as_object` give (the members of an object likewise).
/// The contract names the result and states that keys come in ascending
/// order; it does not state the JSON grammar.
#[verifier::external_body]
pub fn parse_json_body(body: &[u8]) -> (r: Option<JsonDoc>)
    ensures
        opt_doc_view(r) == json_doc_of(body@),
        r matches Some(d) ==> doc_keys_ascending(d@),
{
    let leaf = |x: &Value| JsonLeaf { as_str: x.as_str().map(String::from), as_i64: x.as_i64(), as_u64: x.as_u64() };
    let one = |x: &Value| JsonValue {
        scalar: leaf(x),
        as_object: x.as_object().map(|o| o.iter().map(|(k, y)| (k.clone(), leaf(y))).collect()),
    };
    let v = serde_json::from_slice::<Value>(body).ok()?;
    Some(JsonDoc { members: v.as_object().into_iter().flatten().map(|(k, x)| (k.clone(), one(x))).collect() })
}

/// The value of the first member named `key`.
pub open spec fn json_get(d: Seq<(Seq<char>, JsonValueView)>, key: Seq<char>) -> Option<JsonValueView>
    decreases d.len(),
{
    if d.len() == 0 {
        None
    } else if d[0].0 == key {
        Some(d[0].1)
    } else {
        json_get(d.drop_first(), key)
    }
}

/// `as_str` of an optional member.
pub open spec fn as_str(v: Option<JsonValueView>) -> Option<Seq<char>> {
    match v {
        Some(x) => x.scalar.as_str,
        None => None,
    }
}

/// `as_i64` of an optional member.
pub open spec fn as_i64(v: Option<JsonValueView>) -> Option<i64> {
    match v {
        Some(x) => x.scalar.as_i64,
        None => None,
    }
}

/// `as_i64`, else `as_u64` taken as an `i64` (wrapping), of an optional member.
pub open spec fn as_i64_wrapping(v: Option<JsonValueView>) -> Option<i64> {
    match v {
        Some(x) => match x.scalar.as_i64 {
            Some(i) => Some(i),
            None => match x.scalar.as_u64 {
                Some(u) => Some(u as i64),
                None => None,
            },
        },
        None => None,
    }
}

/// `as_str`, else `as_i64`, else `as_u64`, as text (integers in decimal).
pub open spec fn leaf_text(l: JsonLeafView) -> Option<Seq<char>> {
    match l.as_str {
        Some(s) => Some(s),
        None => match l.as_i64 {
            Some(i) => Some(dec_int(i as int)),
            None => match l.as_u64 {
                Some(u) => Some(dec(u as nat)),
                None => None,
            },
        },
    }
}

pub open spec fn value_text(v: JsonValueView) -> Option<Seq<char>> {
    leaf_text(v.scalar)
}

/// The members with a text (see `leaf_text`), as (key, text), in order.
pub open spec fn texts_of(f: Seq<(Seq<char>, JsonLeafView)>) -> Seq<(Seq<char>, Seq<char>)>
    decreases f.len(),
{
    if f.len() == 0 {
        Seq::empty()
    } else {
        let rest = texts_of(f.drop_last());
        match leaf_text(f.last().1) {
            Some(t) => rest.push((f.last().0, t)),
            None => rest,
        }
    }
}

/// The top-level members with a text, as (key, text), in order.
pub open spec fn member_texts(d: Seq<(Seq<char>, JsonValueView)>) -> Seq<(Seq<char>, Seq<char>)>
    decreases d.len(),
{
    if d.len() == 0 {
        Seq::empty()
    } else {
        let rest = member_texts(d.drop_last());
        match value_text(d.last().1) {
            Some(t) => rest.push((d.last().0, t)),
            None => rest,
        }
    }
}

/// The member named `key`, first match.
pub fn json_get_exec<'a>(d: &'a JsonDoc, key: &str) -> (r: Option<&'a JsonValue>)
    ensures
        match r {
            Some(v) => json_get(d@, key@) == Some(v@),
            None => json_get(d@, key@) is None,
        },
{
    let ghost s = d@;
    let k = str_chars(key);
    let mut i: usize = 0;
    assert(s.subrange(0, s.len() as int) =~= s);
    while i < d.members.len()
        invariant
            i <= d.members@.len(),
            s == d@,
            s.len() == d.members@.len(),
            k@ == key@,
            json_get(s, key@) == json_get(s.subrange(i as int, s.len() as int), key@),
        decreases d.members@.len() - i,
    {
        let ghost t = s.subrange(i as int, s.len() as int);
        assert(t.drop_first() =~= s.subrange(i + 1, s.len() as int));
        assert(t[0] == (d.members@[i as int].0@, d.members@[i as int].1@));
        if crate::text::chars_eq(&str_chars(d.members[i].0.as_str()), &k) {
            return Some(&d.members[i].1);
        }
        i = i + 1;
    }
    None
}

/// `get(key)` and `as_str`.
pub fn doc_str(d: &JsonDoc, key: &str) -> (r: Option<String>)
    ensures
        match r {
            Some(s) => as_str(json_get(d@, key@)) == Some(s@),
            None => as_str(json_get(d@, key@)) is None,
        },
{
    match json_get_exec(d, key) {
        Some(v) => match &v.scalar.as_str {
            Some(s) => Some(s.clone()),
            None => None,
        },
        None => None,
    }
}

/// `get(key)` and `as_i64`.
pub fn doc_i64(d: &JsonDoc, key: &str) -> (r: Option<i64>)
    ensures
        r == as_i64(json_get(d@, key@)),
{
    match json_get_exec(d, key) {
        Some(v) => v.scalar.as_i64,
        None => None,
    }
}

/// Whether there is a member named `key`.
pub fn doc_has(d: &JsonDoc, key: &str) -> (r: bool)
    ensures
        r == json_get(d@, key@) is Some,
{
    json_get_exec(d, key).is_some()
}

/// `get(key)` then `as_i64`, else `as_u64` as an `i64`.
pub fn doc_i64_wrapping(d: &JsonDoc, key: &str) -> (r: Option<i64>)
    ensures
        r == as_i64_wrapping(json_get(d@, key@)),
{
    match json_get_exec(d, key) {
        Some(v) => match v.scalar.as_i64 {
            Some(i) => Some(i),
            None => match v.scalar.as_u64 {
                Some(u) => Some(u as i64),
                None => None,
            },
        },
        None => None,
    }
}

/// The text of a leaf (see `leaf_text`).
pub fn leaf_text_exec(l: &JsonLeaf) -> (r: Option<String>)
    ensures
        match r {
            Some(t) => leaf_text(l@) == Some(t@),
            None => leaf_text(l@) is None,
        },
{
    match &l.as_str {
        Some(s) => return Some(s.clone()),
        None => {},
    }
    match l.as_i64 {
        Some(i) => {
            let mut v: Vec<char> = Vec::new();
            push_dec_i64(&mut v, i);
            assert(v@ =~= dec_int(i as int));
            return Some(crate::text::chars_to_string(&v));
        },
        None => {},
    }
    match l.as_u64 {
        Some(u) => {
            let mut v: Vec<char> = Vec::new();
            push_dec(&mut v, u);
            assert(v@ =~= dec(u as nat));
            Some(crate::text::chars_to_string(&v))
        },
        None => None,
    }
}

/// The (key, text) pairs of object members (see `texts_of`).
pub fn texts_exec(f: &Vec<(String, JsonLeaf)>) -> (r: Vec<(String, String)>)
    ensures
        r@.len() <= f@.len(),
        r@.map_values(|p: (String, String)| (p.0@, p.1@)) == texts_of(fields_view(f@)),
{
    let ghost s = fields_view(f@);
    let mut r: Vec<(String, String)> = Vec::new();
    let mut i: usize = 0;
    while i < f.len()
        invariant
            i <= f@.len(),
            s == fields_view(f@),
            r@.len() <= i,
            r@.map_values(|p: (String, String)| (p.0@, p.1@)) == texts_of(s.subrange(0, i as int)),
        decreases f@.len() - i,
    {
        let ghost t = s.subrange(0, i + 1);
        assert(t.drop_last() =~= s.subrange(0, i as int));
        assert(t.last() == (f@[i as int].0@, f@[i as int].1@));
        let ghost before = r@;
        match leaf_text_exec(&f[i].1) {
            Some(x) => {
                r.push((f[i].0.clone(), x));
                assert(r@.map_values(|p: (String, String)| (p.0@, p.1@)) =~= before.map_values(
                    |p: (String, String)| (p.0@, p.1@),
                ).push((f@[i as int].0@, leaf_text(f@[i as int].1@)->Some_0)));
            },
            None => {},
        }
        i = i + 1;
    }
    assert(s.subrange(0, i as int) =~= s);
    r
}

/// The (key, text) pairs of the top-level members (see `member_texts`).
pub fn member_texts_exec(d: &JsonDoc) -> (r: Vec<(String, String)>)
    ensures
        r@.map_values(|p: (String, String)| (p.0@, p.1@)) == member_texts(d@),
{
    let ghost s = d@;
    let mut r: Vec<(String, String)> = Vec::new();
    let mut i: usize = 0;
    while i < d.members.len()
        invariant
            i <= d.members@.len(),
            s == d@,
            r@.map_values(|p: (String, String)| (p.0@, p.1@)) == member_texts(s.subrange(0, i as int)),
        decreases d.members@.len() - i,
    {
        let ghost t = s.subrange(0, i + 1);
        assert(t.drop_last() =~= s.subrange(0, i as int));
        assert(t.last() == (d.members@[i as int].0@, d.members@[i as int].1@));
        let ghost before = r@;
        match leaf_text_exec(&d.members[i].1.scalar) {
            Some(x) => {
                r.push((d.members[i].0.clone(), x));
                assert(r@.map_values(|p: (String, String)| (p.0@, p.1@)) =~= before.map_values(
                    |p: (String, String)| (p.0@, p.1@),
                ).push((d.members@[i as int].0@, value_text(d.members@[i as int].1@)->Some_0)));
            },
            None => {},
        }
        i = i + 1;
    }
    assert(s.subrange(0, i as int) =~= s);
    r
}

} // verus!
