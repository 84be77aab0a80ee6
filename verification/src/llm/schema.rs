//! JSON schemas in the shape that strict structured-output modes accept:
//! every `$ref` replaced by the definition it names, every object closed to
//! extra properties, and every property of an object required.

use vstd::prelude::*;
use crate::text::{owned, push_char, str_eq};

verus! {

/// A JSON value as the library holds it.
#[derive(Debug, PartialEq, Eq)]
pub enum JsonValue {
    Null,
    Bool(bool),
    /// A number, kept as the text it is written with.
    Number(String),
    Text(String),
    Array(Vec<JsonValue>),
    /// An object's members in order.
    Object(Vec<(String, JsonValue)>),
}

/// The mathematical value of a [`JsonValue`].
pub enum Json {
    Null,
    Bool(bool),
    Number(Seq<char>),
    Text(Seq<char>),
    Array(Seq<Json>),
    Object(Seq<(Seq<char>, Json)>),
}

pub open spec fn json_of(v: JsonValue) -> Json
    decreases v,
{
    match v {
        JsonValue::Null => Json::Null,
        JsonValue::Bool(b) => Json::Bool(b),
        JsonValue::Number(n) => Json::Number(n@),
        JsonValue::Text(t) => Json::Text(t@),
        JsonValue::Array(items) => Json::Array(jsons_of(items@)),
        JsonValue::Object(members) => Json::Object(members_of(members@)),
    }
}

pub open spec fn jsons_of(items: Seq<JsonValue>) -> Seq<Json>
    decreases items,
{
    if items.len() == 0 {
        Seq::empty()
    } else {
        jsons_of(items.subrange(0, items.len() - 1)).push(json_of(items[items.len() - 1]))
    }
}

pub open spec fn members_of(members: Seq<(String, JsonValue)>) -> Seq<(Seq<char>, Json)>
    decreases members,
{
    if members.len() == 0 {
        Seq::empty()
    } else {
        let last = members[members.len() - 1];
        members_of(members.subrange(0, members.len() - 1)).push((last.0@, json_of(last.1)))
    }
}

impl View for JsonValue {
    type V = Json;

    open spec fn view(&self) -> Json {
        json_of(*self)
    }
}

pub open spec fn opt_json(o: Option<JsonValue>) -> Option<Json> {
    match o {
        Some(v) => Some(v@),
        None => None,
    }
}

pub proof fn lemma_jsons_of(s: Seq<JsonValue>)
    ensures
        jsons_of(s).len() == s.len(),
        forall|i: int| 0 <= i < s.len() ==> #[trigger] jsons_of(s)[i] == json_of(s[i]),
    decreases s.len(),
{
    if s.len() > 0 {
        let front = s.subrange(0, s.len() - 1);
        lemma_jsons_of(front);
        assert forall|i: int| 0 <= i < s.len() implies #[trigger] jsons_of(s)[i] == json_of(
            s[i],
        ) by {
            if i < s.len() - 1 {
                assert(front[i] == s[i]);
            }
        }
    }
}

pub proof fn lemma_members_of(s: Seq<(String, JsonValue)>)
    ensures
        members_of(s).len() == s.len(),
        forall|i: int|
            0 <= i < s.len() ==> #[trigger] members_of(s)[i] == (s[i].0@, json_of(s[i].1)),
    decreases s.len(),
{
    if s.len() > 0 {
        let front = s.subrange(0, s.len() - 1);
        lemma_members_of(front);
        assert forall|i: int| 0 <= i < s.len() implies #[trigger] members_of(s)[i] == (
            s[i].0@,
            json_of(s[i].1),
        ) by {
            if i < s.len() - 1 {
                assert(front[i] == s[i]);
            }
        }
    }
}

/// A copy of `v`.
pub fn copy_json(v: &JsonValue) -> (r: JsonValue)
    ensures
        r@ == v@,
    decreases v,
{
    match v {
        JsonValue::Null => JsonValue::Null,
        JsonValue::Bool(b) => JsonValue::Bool(*b),
        JsonValue::Number(n) => JsonValue::Number(n.clone()),
        JsonValue::Text(t) => JsonValue::Text(t.clone()),
        JsonValue::Array(items) => {
            let mut out: Vec<JsonValue> = Vec::new();
            let mut i: usize = 0;
            while i < items.len()
                invariant
                    *v == JsonValue::Array(*items),
                    i <= items.len(),
                    out@.len() == i,
                    forall|k: int| 0 <= k < i ==> json_of(#[trigger] out@[k]) == json_of(items@[k]),
                decreases items.len() - i,
            {
                proof {
                    assert(decreases_to!(*v => (*v)->Array_0));
                    assert(decreases_to!(*items => items@));
                    assert(decreases_to!(items@ => items@[i as int]));
                }
                let c = copy_json(&items[i]);
                out.push(c);
                i = i + 1;
            }
            proof {
                lemma_jsons_of(out@);
                lemma_jsons_of(items@);
                assert(jsons_of(out@) =~= jsons_of(items@));
            }
            JsonValue::Array(out)
        },
        JsonValue::Object(members) => {
            let mut out: Vec<(String, JsonValue)> = Vec::new();
            let mut i: usize = 0;
            while i < members.len()
                invariant
                    *v == JsonValue::Object(*members),
                    i <= members.len(),
                    out@.len() == i,
                    forall|k: int|
                        0 <= k < i ==> (#[trigger] out@[k]).0@ == members@[k].0@ && json_of(
                            out@[k].1,
                        ) == json_of(members@[k].1),
                decreases members.len() - i,
            {
                proof {
                    assert(decreases_to!(*v => (*v)->Object_0));
                    assert(decreases_to!(*members => members@));
                    assert(decreases_to!(members@ => members@[i as int]));
                    assert(decreases_to!(members@[i as int] => members@[i as int].1));
                }
                let m = &members[i];
                let c = copy_json(&m.1);
                out.push((m.0.clone(), c));
                i = i + 1;
            }
            proof {
                lemma_members_of(out@);
                lemma_members_of(members@);
                assert(members_of(out@) =~= members_of(members@));
            }
            JsonValue::Object(out)
        },
    }
}

// ── members of an object ──────────────────────────────────────────────────

/// The position of the last member named `key`.
pub open spec fn index_of(ms: Seq<(Seq<char>, Json)>, key: Seq<char>) -> Option<int>
    decreases ms.len(),
{
    if ms.len() == 0 {
        None
    } else if ms[ms.len() - 1].0 == key {
        Some(ms.len() - 1)
    } else {
        index_of(ms.subrange(0, ms.len() - 1), key)
    }
}

pub proof fn lemma_index_of(ms: Seq<(Seq<char>, Json)>, key: Seq<char>)
    ensures
        match index_of(ms, key) {
            Some(i) => 0 <= i < ms.len() && ms[i].0 == key,
            None => forall|j: int| 0 <= j < ms.len() ==> ms[j].0 != key,
        },
    decreases ms.len(),
{
    if ms.len() > 0 {
        let front = ms.subrange(0, ms.len() - 1);
        lemma_index_of(front, key);
        if ms[ms.len() - 1].0 != key {
            assert forall|j: int| 0 <= j < front.len() implies front[j] == ms[j] by {}
        }
    }
}

/// The value of the member named `key`.
pub open spec fn member(ms: Seq<(Seq<char>, Json)>, key: Seq<char>) -> Option<Json> {
    match index_of(ms, key) {
        Some(i) => Some(ms[i].1),
        None => None,
    }
}

/// The value under `key` when `v` is an object.
pub open spec fn field(v: Json, key: Seq<char>) -> Option<Json> {
    match v {
        Json::Object(ms) => member(ms, key),
        _ => None,
    }
}

/// `ms` with the member named `key` set to `val`: the last such member is
/// replaced, or a new one is added at the end.
pub open spec fn put(ms: Seq<(Seq<char>, Json)>, key: Seq<char>, val: Json) -> Seq<
    (Seq<char>, Json),
> {
    match index_of(ms, key) {
        Some(i) => ms.update(i, (key, val)),
        None => ms.push((key, val)),
    }
}

// ── strict schemas ────────────────────────────────────────────────────────

/// What `str::rsplit('/')` yields first: the text after the last `/`.
pub open spec fn ref_name(r: Seq<char>) -> Seq<char>
    decreases r.len(),
{
    if r.len() == 0 {
        r
    } else if r[r.len() - 1] == '/' {
        Seq::empty()
    } else {
        ref_name(r.subrange(0, r.len() - 1)).push(r[r.len() - 1])
    }
}

/// The definition `node` stands for: `node` is an object whose `$ref` is a
/// string, and the last segment of that string names a member of `defs`.
pub open spec fn target(node: Json, defs: Option<Json>) -> Option<Json> {
    match field(node, "$ref"@) {
        Some(Json::Text(r)) => match defs {
            Some(d) => field(d, ref_name(r)),
            None => None,
        },
        _ => None,
    }
}

/// The keys whose array of alternatives is made strict member by member.
pub open spec fn is_branch_key(k: Seq<char>) -> bool {
    k == "anyOf"@ || k == "oneOf"@ || k == "allOf"@
}

/// `node` made strict with `fuel` nested `$ref` expansions to spend;
/// `None` when a path needs more.
pub open spec fn strict(node: Json, defs: Option<Json>, fuel: nat) -> Option<Json>
    decreases fuel, node,
{
    match target(node, defs) {
        Some(def) => if fuel == 0 {
            None
        } else {
            strict(def, defs, (fuel - 1) as nat)
        },
        None => match node {
            Json::Object(ms) => match strict_members(ms, defs, fuel) {
                Some(rewritten) => Some(Json::Object(closed(rewritten))),
                None => None,
            },
            _ => Some(node),
        },
    }
}

/// The members of an object made strict: `$ref` dropped, the values of
/// `properties`, the schema under `items` and the alternatives under
/// `anyOf`, `oneOf` and `allOf` made strict, everything else kept.
pub open spec fn strict_members(ms: Seq<(Seq<char>, Json)>, defs: Option<Json>, fuel: nat) -> Option<
    Seq<(Seq<char>, Json)>,
>
    decreases fuel, ms,
{
    if ms.len() == 0 {
        Some(Seq::empty())
    } else {
        let k = ms[ms.len() - 1].0;
        let v = ms[ms.len() - 1].1;
        match strict_members(ms.subrange(0, ms.len() - 1), defs, fuel) {
            None => None,
            Some(front) => if k == "$ref"@ {
                Some(front)
            } else {
                let r = if k == "properties"@ {
                    match v {
                        Json::Object(ps) => match strict_values(ps, defs, fuel) {
                            Some(p) => Some(Json::Object(p)),
                            None => None,
                        },
                        _ => Some(v),
                    }
                } else if k == "items"@ {
                    strict(v, defs, fuel)
                } else if is_branch_key(k) {
                    match v {
                        Json::Array(a) => match strict_all(a, defs, fuel) {
                            Some(b) => Some(Json::Array(b)),
                            None => None,
                        },
                        _ => Some(v),
                    }
                } else {
                    Some(v)
                };
                match r {
                    Some(v2) => Some(front.push((k, v2))),
                    None => None,
                }
            },
        }
    }
}

/// Each member's value made strict, keys kept.
pub open spec fn strict_values(ps: Seq<(Seq<char>, Json)>, defs: Option<Json>, fuel: nat) -> Option<
    Seq<(Seq<char>, Json)>,
>
    decreases fuel, ps,
{
    if ps.len() == 0 {
        Some(Seq::empty())
    } else {
        match strict_values(ps.subrange(0, ps.len() - 1), defs, fuel) {
            None => None,
            Some(front) => match strict(ps[ps.len() - 1].1, defs, fuel) {
                Some(v) => Some(front.push((ps[ps.len() - 1].0, v))),
                None => None,
            },
        }
    }
}

/// Each element made strict.
pub open spec fn strict_all(a: Seq<Json>, defs: Option<Json>, fuel: nat) -> Option<Seq<Json>>
    decreases fuel, a,
{
    if a.len() == 0 {
        Some(Seq::empty())
    } else {
        match strict_all(a.subrange(0, a.len() - 1), defs, fuel) {
            None => None,
            Some(front) => match strict(a[a.len() - 1], defs, fuel) {
                Some(v) => Some(front.push(v)),
                None => None,
            },
        }
    }
}

/// An object schema: its `type` is `"object"` or it has `properties`.
pub open spec fn is_object_schema(ms: Seq<(Seq<char>, Json)>) -> bool {
    member(ms, "type"@) == Some(Json::Text("object"@)) || member(ms, "properties"@) is Some
}

/// The names of `ps`, as JSON strings.
pub open spec fn key_list(ps: Seq<(Seq<char>, Json)>) -> Seq<Json> {
    Seq::new(ps.len(), |i: int| Json::Text(ps[i].0))
}

/// An object schema closed: `additionalProperties` set to `false`, and
/// `required` set to the names under `properties`.
pub open spec fn closed(ms: Seq<(Seq<char>, Json)>) -> Seq<(Seq<char>, Json)> {
    if !is_object_schema(ms) {
        ms
    } else {
        let with_closed = put(ms, "additionalProperties"@, Json::Bool(false));
        match member(with_closed, "properties"@) {
            Some(Json::Object(ps)) => put(with_closed, "required"@, Json::Array(key_list(ps))),
            _ => with_closed,
        }
    }
}

/// The keys a strict schema does not carry at its root.
pub open spec fn is_meta_key(k: Seq<char>) -> bool {
    k == "$schema"@ || k == "$defs"@ || k == "definitions"@
}

/// `ms` without the members named by `is_meta_key`.
pub open spec fn without_meta(ms: Seq<(Seq<char>, Json)>) -> Seq<(Seq<char>, Json)>
    decreases ms.len(),
{
    if ms.len() == 0 {
        ms
    } else {
        let front = without_meta(ms.subrange(0, ms.len() - 1));
        if is_meta_key(ms[ms.len() - 1].0) {
            front
        } else {
            front.push(ms[ms.len() - 1])
        }
    }
}

/// The definitions a schema carries: under `$defs`, else under `definitions`.
pub open spec fn schema_defs(schema: Json) -> Option<Json> {
    match field(schema, "$defs"@) {
        Some(d) => Some(d),
        None => field(schema, "definitions"@),
    }
}

/// The schema without its `$schema`, `$defs` and `definitions`.
pub open spec fn schema_root(schema: Json) -> Json {
    match schema {
        Json::Object(ms) => Json::Object(without_meta(ms)),
        _ => schema,
    }
}

/// How many definitions there are to expand.
pub open spec fn def_count(defs: Option<Json>) -> nat {
    match defs {
        Some(Json::Object(ms)) => ms.len(),
        _ => 0,
    }
}

/// A schema in strict form: each `$ref` along a path may expand a
/// definition once per definition there is.
pub open spec fn inlined(schema: Json) -> Option<Json> {
    strict(schema_root(schema), schema_defs(schema), def_count(schema_defs(schema)))
}

// ── building blocks ───────────────────────────────────────────────────────

pub proof fn lemma_members_push(s: Seq<(String, JsonValue)>, m: (String, JsonValue))
    ensures
        members_of(s.push(m)) == members_of(s).push((m.0@, json_of(m.1))),
{
    assert(s.push(m).subrange(0, s.len() as int) =~= s);
}

pub proof fn lemma_jsons_push(s: Seq<JsonValue>, v: JsonValue)
    ensures
        jsons_of(s.push(v)) == jsons_of(s).push(json_of(v)),
{
    assert(s.push(v).subrange(0, s.len() as int) =~= s);
}

/// The position of the last member of `ms` named `key`.
fn find_member(ms: &Vec<(String, JsonValue)>, key: &str) -> (r: Option<usize>)
    ensures
        match r {
            Some(i) => index_of(members_of(ms@), key@) == Some(i as int),
            None => index_of(members_of(ms@), key@) is None,
        },
{
    let ghost s = members_of(ms@);
    proof {
        lemma_members_of(ms@);
    }
    let mut found: Option<usize> = None;
    let mut i: usize = 0;
    while i < ms.len()
        invariant
            i <= ms.len(),
            s == members_of(ms@),
            s.len() == ms@.len(),
            forall|k: int| 0 <= k < ms@.len() ==> #[trigger] s[k] == (ms@[k].0@, json_of(ms@[k].1)),
            match found {
                Some(j) => index_of(s.take(i as int), key@) == Some(j as int),
                None => index_of(s.take(i as int), key@) is None,
            },
        decreases ms.len() - i,
    {
        let ghost t = s.take(i + 1);
        assert(t.subrange(0, i as int) =~= s.take(i as int));
        assert(t[i as int] == s[i as int]);
        if str_eq(ms[i].0.as_str(), key) {
            found = Some(i);
        }
        i = i + 1;
    }
    assert(s.take(ms.len() as int) =~= s);
    found
}

/// `ref_name`, computed.
fn ref_name_of(r: &str) -> (out: String)
    ensures
        out@ == ref_name(r@),
{
    let n = r.unicode_len();
    let mut cur = String::new();
    let mut i: usize = 0;
    assert(r@.take(0) =~= Seq::<char>::empty());
    while i < n
        invariant
            n == r@.len(),
            i <= n,
            cur@ == ref_name(r@.take(i as int)),
        decreases n - i,
    {
        let c = r.get_char(i);
        let ghost t = r@.take(i + 1);
        assert(t.subrange(0, i as int) =~= r@.take(i as int));
        assert(t[i as int] == c);
        if c == '/' {
            cur = String::new();
        } else {
            push_char(&mut cur, c);
        }
        i = i + 1;
    }
    assert(r@.take(n as int) =~= r@);
    cur
}

/// The definition `node` refers to, as `target` says.
fn target_of<'a>(node: &JsonValue, defs: &'a Option<JsonValue>) -> (r: Option<&'a JsonValue>)
    ensures
        match r {
            Some(d) => target(node@, opt_json(*defs)) == Some(d@),
            None => target(node@, opt_json(*defs)) is None,
        },
{
    match node {
        JsonValue::Object(ms) => match find_member(ms, "$ref") {
            Some(i) => {
                proof {
                    lemma_members_of(ms@);
                    lemma_index_of(members_of(ms@), "$ref"@);
                }
                match &ms[i].1 {
                    JsonValue::Text(r) => {
                        let name = ref_name_of(r.as_str());
                        match defs {
                            Some(JsonValue::Object(dm)) => match find_member(dm, name.as_str()) {
                                Some(j) => {
                                    proof {
                                        lemma_members_of(dm@);
                                        lemma_index_of(members_of(dm@), name@);
                                    }
                                    Some(&dm[j].1)
                                },
                                None => None,
                            },
                            _ => None,
                        }
                    },
                    _ => None,
                }
            },
            None => None,
        },
        _ => None,
    }
}

/// `ms` with the member named `key` set to `val`, as `put` says.
fn put_member(ms: &mut Vec<(String, JsonValue)>, key: &str, val: JsonValue)
    ensures
        members_of(final(ms)@) == put(members_of(old(ms)@), key@, val@),
{
    proof {
        lemma_members_of(ms@);
    }
    match find_member(ms, key) {
        Some(i) => {
            proof {
                lemma_index_of(members_of(ms@), key@);
            }
            let ghost before = ms@;
            let k = owned(key);
            ms.set(i, (k, val));
            proof {
                lemma_members_of(ms@);
                assert(members_of(ms@) =~= members_of(before).update(i as int, (key@, val@)));
            }
        },
        None => {
            let ghost before = ms@;
            let k = owned(key);
            let ghost entry = (k, val);
            ms.push((k, val));
            proof {
                lemma_members_push(before, entry);
            }
        },
    }
}

/// The names of `ps` as JSON strings.
fn key_names(ps: &Vec<(String, JsonValue)>) -> (r: Vec<JsonValue>)
    ensures
        jsons_of(r@) == key_list(members_of(ps@)),
{
    let mut out: Vec<JsonValue> = Vec::new();
    let mut i: usize = 0;
    while i < ps.len()
        invariant
            i <= ps.len(),
            out@.len() == i,
            forall|k: int| 0 <= k < i ==> json_of(#[trigger] out@[k]) == Json::Text(ps@[k].0@),
        decreases ps.len() - i,
    {
        out.push(JsonValue::Text(ps[i].0.clone()));
        i = i + 1;
    }
    proof {
        lemma_jsons_of(out@);
        lemma_members_of(ps@);
        assert(jsons_of(out@) =~= key_list(members_of(ps@)));
    }
    out
}

/// `closed`, computed.
fn close_members(ms: Vec<(String, JsonValue)>) -> (r: Vec<(String, JsonValue)>)
    ensures
        members_of(r@) == closed(members_of(ms@)),
{
    let mut ms = ms;
    proof {
        lemma_members_of(ms@);
        lemma_index_of(members_of(ms@), "type"@);
    }
    let typed_object = match find_member(&ms, "type") {
        Some(i) => match &ms[i].1 {
            JsonValue::Text(t) => str_eq(t.as_str(), "object"),
            _ => false,
        },
        None => false,
    };
    let has_properties = find_member(&ms, "properties").is_some();
    if !(typed_object || has_properties) {
        return ms;
    }
    put_member(&mut ms, "additionalProperties", JsonValue::Bool(false));
    proof {
        lemma_members_of(ms@);
        lemma_index_of(members_of(ms@), "properties"@);
    }
    match find_member(&ms, "properties") {
        Some(i) => {
            let keys = match &ms[i].1 {
                JsonValue::Object(ps) => Some(key_names(ps)),
                _ => None,
            };
            match keys {
                Some(names) => {
                    put_member(&mut ms, "required", JsonValue::Array(names));
                },
                None => {},
            }
        },
        None => {},
    }
    ms
}

// ── failure carries to longer prefixes ────────────────────────────────────

pub proof fn lemma_members_fail(s: Seq<(Seq<char>, Json)>, i: int, defs: Option<Json>, fuel: nat)
    requires
        0 <= i <= s.len(),
        strict_members(s.take(i), defs, fuel) is None,
    ensures
        strict_members(s, defs, fuel) is None,
    decreases s.len() - i,
{
    if i == s.len() {
        assert(s.take(i) =~= s);
    } else {
        assert(s.take(i + 1).subrange(0, i) =~= s.take(i));
        lemma_members_fail(s, i + 1, defs, fuel);
    }
}

pub proof fn lemma_values_fail(s: Seq<(Seq<char>, Json)>, i: int, defs: Option<Json>, fuel: nat)
    requires
        0 <= i <= s.len(),
        strict_values(s.take(i), defs, fuel) is None,
    ensures
        strict_values(s, defs, fuel) is None,
    decreases s.len() - i,
{
    if i == s.len() {
        assert(s.take(i) =~= s);
    } else {
        assert(s.take(i + 1).subrange(0, i) =~= s.take(i));
        lemma_values_fail(s, i + 1, defs, fuel);
    }
}

pub proof fn lemma_all_fail(s: Seq<Json>, i: int, defs: Option<Json>, fuel: nat)
    requires
        0 <= i <= s.len(),
        strict_all(s.take(i), defs, fuel) is None,
    ensures
        strict_all(s, defs, fuel) is None,
    decreases s.len() - i,
{
    if i == s.len() {
        assert(s.take(i) =~= s);
    } else {
        assert(s.take(i + 1).subrange(0, i) =~= s.take(i));
        lemma_all_fail(s, i + 1, defs, fuel);
    }
}

// ── making a schema strict ────────────────────────────────────────────────

/// `strict`, computed.
fn strict_node(node: &JsonValue, defs: &Option<JsonValue>, fuel: usize) -> (r: Option<JsonValue>)
    ensures
        opt_json(r) == strict(node@, opt_json(*defs), fuel as nat),
    decreases fuel, node,
{
    match target_of(node, defs) {
        Some(def) => {
            if fuel == 0 {
                None
            } else {
                strict_node(def, defs, fuel - 1)
            }
        },
        None => match node {
            JsonValue::Object(ms) => {
                proof {
                    assert(decreases_to!(*node => (*node)->Object_0));
                }
                match strict_member_list(ms, defs, fuel) {
                    Some(rewritten) => Some(JsonValue::Object(close_members(rewritten))),
                    None => None,
                }
            },
            _ => Some(copy_json(node)),
        },
    }
}

/// `strict_members`, computed.
fn strict_member_list(ms: &Vec<(String, JsonValue)>, defs: &Option<JsonValue>, fuel: usize) -> (r:
    Option<Vec<(String, JsonValue)>>)
    ensures
        match r {
            Some(out) => strict_members(members_of(ms@), opt_json(*defs), fuel as nat) == Some(
                members_of(out@),
            ),
            None => strict_members(members_of(ms@), opt_json(*defs), fuel as nat) is None,
        },
    decreases fuel, ms,
{
    let ghost s = members_of(ms@);
    let ghost dv = opt_json(*defs);
    proof {
        lemma_members_of(ms@);
    }
    let mut out: Vec<(String, JsonValue)> = Vec::new();
    let mut i: usize = 0;
    assert(s.take(0) =~= Seq::<(Seq<char>, Json)>::empty());
    while i < ms.len()
        invariant
            i <= ms.len(),
            s == members_of(ms@),
            dv == opt_json(*defs),
            s.len() == ms@.len(),
            forall|k: int| 0 <= k < ms@.len() ==> #[trigger] s[k] == (ms@[k].0@, json_of(ms@[k].1)),
            strict_members(s.take(i as int), dv, fuel as nat) == Some(members_of(out@)),
        decreases ms.len() - i,
    {
        let ghost t = s.take(i + 1);
        assert(t.subrange(0, i as int) =~= s.take(i as int));
        assert(t[i as int] == s[i as int]);
        proof {
            assert(decreases_to!(*ms => ms@));
            assert(decreases_to!(ms@ => ms@[i as int]));
            assert(decreases_to!(ms@[i as int] => ms@[i as int].1));
        }
        let m = &ms[i];
        let k = m.0.as_str();
        let ghost before = out@;
        if str_eq(k, "$ref") {
        } else if str_eq(k, "properties") {
            match &m.1 {
                JsonValue::Object(ps) => {
                    proof {
                        assert(decreases_to!(ms@[i as int].1 => (ms@[i as int].1)->Object_0));
                    }
                    match strict_value_list(ps, defs, fuel) {
                        Some(p) => {
                            let entry = (m.0.clone(), JsonValue::Object(p));
                            let ghost e = entry;
                            out.push(entry);
                            proof {
                                lemma_members_push(before, e);
                            }
                        },
                        None => {
                            proof {
                                lemma_members_fail(s, i + 1, dv, fuel as nat);
                            }
                            return None;
                        },
                    }
                },
                _ => {
                    let entry = (m.0.clone(), copy_json(&m.1));
                    let ghost e = entry;
                    out.push(entry);
                    proof {
                        lemma_members_push(before, e);
                    }
                },
            }
        } else if str_eq(k, "items") {
            match strict_node(&m.1, defs, fuel) {
                Some(v) => {
                    let entry = (m.0.clone(), v);
                    let ghost e = entry;
                    out.push(entry);
                    proof {
                        lemma_members_push(before, e);
                    }
                },
                None => {
                    proof {
                        lemma_members_fail(s, i + 1, dv, fuel as nat);
                    }
                    return None;
                },
            }
        } else if str_eq(k, "anyOf") || str_eq(k, "oneOf") || str_eq(k, "allOf") {
            match &m.1 {
                JsonValue::Array(a) => {
                    proof {
                        assert(decreases_to!(ms@[i as int].1 => (ms@[i as int].1)->Array_0));
                    }
                    match strict_list(a, defs, fuel) {
                        Some(b) => {
                            let entry = (m.0.clone(), JsonValue::Array(b));
                            let ghost e = entry;
                            out.push(entry);
                            proof {
                                lemma_members_push(before, e);
                            }
                        },
                        None => {
                            proof {
                                lemma_members_fail(s, i + 1, dv, fuel as nat);
                            }
                            return None;
                        },
                    }
                },
                _ => {
                    let entry = (m.0.clone(), copy_json(&m.1));
                    let ghost e = entry;
                    out.push(entry);
                    proof {
                        lemma_members_push(before, e);
                    }
                },
            }
        } else {
            let entry = (m.0.clone(), copy_json(&m.1));
            let ghost e = entry;
            out.push(entry);
            proof {
                lemma_members_push(before, e);
            }
        }
        i = i + 1;
    }
    assert(s.take(ms.len() as int) =~= s);
    Some(out)
}

/// `strict_values`, computed.
fn strict_value_list(ps: &Vec<(String, JsonValue)>, defs: &Option<JsonValue>, fuel: usize) -> (r:
    Option<Vec<(String, JsonValue)>>)
    ensures
        match r {
            Some(out) => strict_values(members_of(ps@), opt_json(*defs), fuel as nat) == Some(
                members_of(out@),
            ),
            None => strict_values(members_of(ps@), opt_json(*defs), fuel as nat) is None,
        },
    decreases fuel, ps,
{
    let ghost s = members_of(ps@);
    let ghost dv = opt_json(*defs);
    proof {
        lemma_members_of(ps@);
    }
    let mut out: Vec<(String, JsonValue)> = Vec::new();
    let mut i: usize = 0;
    assert(s.take(0) =~= Seq::<(Seq<char>, Json)>::empty());
    while i < ps.len()
        invariant
            i <= ps.len(),
            s == members_of(ps@),
            dv == opt_json(*defs),
            s.len() == ps@.len(),
            forall|k: int| 0 <= k < ps@.len() ==> #[trigger] s[k] == (ps@[k].0@, json_of(ps@[k].1)),
            strict_values(s.take(i as int), dv, fuel as nat) == Some(members_of(out@)),
        decreases ps.len() - i,
    {
        let ghost t = s.take(i + 1);
        assert(t.subrange(0, i as int) =~= s.take(i as int));
        assert(t[i as int] == s[i as int]);
        proof {
            assert(decreases_to!(*ps => ps@));
            assert(decreases_to!(ps@ => ps@[i as int]));
            assert(decreases_to!(ps@[i as int] => ps@[i as int].1));
        }
        let m = &ps[i];
        let ghost before = out@;
        match strict_node(&m.1, defs, fuel) {
            Some(v) => {
                let entry = (m.0.clone(), v);
                let ghost e = entry;
                out.push(entry);
                proof {
                    lemma_members_push(before, e);
                }
            },
            None => {
                proof {
                    lemma_values_fail(s, i + 1, dv, fuel as nat);
                }
                return None;
            },
        }
        i = i + 1;
    }
    assert(s.take(ps.len() as int) =~= s);
    Some(out)
}

/// `strict_all`, computed.
fn strict_list(a: &Vec<JsonValue>, defs: &Option<JsonValue>, fuel: usize) -> (r: Option<
    Vec<JsonValue>,
>)
    ensures
        match r {
            Some(out) => strict_all(jsons_of(a@), opt_json(*defs), fuel as nat) == Some(
                jsons_of(out@),
            ),
            None => strict_all(jsons_of(a@), opt_json(*defs), fuel as nat) is None,
        },
    decreases fuel, a,
{
    let ghost s = jsons_of(a@);
    let ghost dv = opt_json(*defs);
    proof {
        lemma_jsons_of(a@);
    }
    let mut out: Vec<JsonValue> = Vec::new();
    let mut i: usize = 0;
    assert(s.take(0) =~= Seq::<Json>::empty());
    while i < a.len()
        invariant
            i <= a.len(),
            s == jsons_of(a@),
            dv == opt_json(*defs),
            s.len() == a@.len(),
            forall|k: int| 0 <= k < a@.len() ==> #[trigger] s[k] == json_of(a@[k]),
            strict_all(s.take(i as int), dv, fuel as nat) == Some(jsons_of(out@)),
        decreases a.len() - i,
    {
        let ghost t = s.take(i + 1);
        assert(t.subrange(0, i as int) =~= s.take(i as int));
        assert(t[i as int] == s[i as int]);
        proof {
            assert(decreases_to!(*a => a@));
            assert(decreases_to!(a@ => a@[i as int]));
        }
        let ghost before = out@;
        match strict_node(&a[i], defs, fuel) {
            Some(v) => {
                let ghost e = v;
                out.push(v);
                proof {
                    lemma_jsons_push(before, e);
                }
            },
            None => {
                proof {
                    lemma_all_fail(s, i + 1, dv, fuel as nat);
                }
                return None;
            },
        }
        i = i + 1;
    }
    assert(s.take(a.len() as int) =~= s);
    Some(out)
}

/// `without_meta`, computed.
fn without_meta_members(ms: &Vec<(String, JsonValue)>) -> (r: Vec<(String, JsonValue)>)
    ensures
        members_of(r@) == without_meta(members_of(ms@)),
{
    let ghost s = members_of(ms@);
    proof {
        lemma_members_of(ms@);
    }
    let mut out: Vec<(String, JsonValue)> = Vec::new();
    let mut i: usize = 0;
    assert(s.take(0) =~= Seq::<(Seq<char>, Json)>::empty());
    while i < ms.len()
        invariant
            i <= ms.len(),
            s == members_of(ms@),
            s.len() == ms@.len(),
            forall|k: int| 0 <= k < ms@.len() ==> #[trigger] s[k] == (ms@[k].0@, json_of(ms@[k].1)),
            without_meta(s.take(i as int)) == members_of(out@),
        decreases ms.len() - i,
    {
        let ghost t = s.take(i + 1);
        assert(t.subrange(0, i as int) =~= s.take(i as int));
        assert(t[i as int] == s[i as int]);
        let m = &ms[i];
        let k = m.0.as_str();
        if !(str_eq(k, "$schema") || str_eq(k, "$defs") || str_eq(k, "definitions")) {
            let ghost before = out@;
            let entry = (m.0.clone(), copy_json(&m.1));
            let ghost e = entry;
            out.push(entry);
            proof {
                lemma_members_push(before, e);
            }
        }
        i = i + 1;
    }
    assert(s.take(ms.len() as int) =~= s);
    out
}

/// A schema made fit for strict structured output: `$schema`, `$defs` and
/// `definitions` are dropped from the root; every object whose `$ref` names
/// one of those definitions is replaced by that definition, itself made
/// strict; the schemas under `properties`, `items`, `anyOf`, `oneOf` and
/// `allOf` are made strict; and every object schema gets
/// `additionalProperties: false` and a `required` list of all its
/// properties. `None` when `$ref`s nest deeper along one path than there are
/// definitions, which only a chain of references that leads back to a
/// definition it passed through can do.
pub fn inline_schema_for_openai(schema: JsonValue) -> (r: Option<JsonValue>)
    ensures
        opt_json(r) == inlined(schema@),
{
    let defs: Option<JsonValue> = match &schema {
        JsonValue::Object(ms) => {
            proof {
                lemma_members_of(ms@);
                lemma_index_of(members_of(ms@), "$defs"@);
                lemma_index_of(members_of(ms@), "definitions"@);
            }
            match find_member(ms, "$defs") {
                Some(i) => Some(copy_json(&ms[i].1)),
                None => match find_member(ms, "definitions") {
                    Some(i) => Some(copy_json(&ms[i].1)),
                    None => None,
                },
            }
        },
        _ => None,
    };
    let fuel: usize = match &defs {
        Some(JsonValue::Object(dm)) => {
            proof {
                lemma_members_of(dm@);
            }
            dm.len()
        },
        _ => 0,
    };
    let root = match &schema {
        JsonValue::Object(ms) => JsonValue::Object(without_meta_members(ms)),
        _ => copy_json(&schema),
    };
    strict_node(&root, &defs, fuel)
}

// ── what a strict schema looks like ───────────────────────────────────────

pub proof fn lemma_index_of_last(ms: Seq<(Seq<char>, Json)>, key: Seq<char>)
    ensures
        match index_of(ms, key) {
            Some(i) => 0 <= i < ms.len() && ms[i].0 == key && forall|j: int|
                i < j < ms.len() ==> #[trigger] ms[j].0 != key,
            None => forall|j: int| 0 <= j < ms.len() ==> #[trigger] ms[j].0 != key,
        },
    decreases ms.len(),
{
    if ms.len() > 0 {
        let front = ms.subrange(0, ms.len() - 1);
        lemma_index_of_last(front, key);
        assert forall|j: int| 0 <= j < front.len() implies front[j] == ms[j] by {}
    }
}

pub proof fn lemma_index_of_same_keys(a: Seq<(Seq<char>, Json)>, b: Seq<(Seq<char>, Json)>, key: Seq<char>)
    requires
        a.len() == b.len(),
        forall|j: int| 0 <= j < a.len() ==> #[trigger] a[j].0 == b[j].0,
    ensures
        index_of(a, key) == index_of(b, key),
    decreases a.len(),
{
    if a.len() > 0 {
        let fa = a.subrange(0, a.len() - 1);
        let fb = b.subrange(0, b.len() - 1);
        assert forall|j: int| 0 <= j < fa.len() implies #[trigger] fa[j].0 == fb[j].0 by {
            assert(fa[j] == a[j]);
            assert(fb[j] == b[j]);
        }
        lemma_index_of_same_keys(fa, fb, key);
    }
}

/// After `put`, the member named `key` holds `val`.
pub proof fn lemma_put_same(ms: Seq<(Seq<char>, Json)>, key: Seq<char>, val: Json)
    ensures
        member(put(ms, key, val), key) == Some(val),
{
    lemma_index_of_last(ms, key);
    match index_of(ms, key) {
        Some(i) => {
            let u = ms.update(i, (key, val));
            lemma_index_of_same_keys(ms, u, key);
        },
        None => {
            assert(ms.push((key, val))[ms.len() as int].0 == key);
        },
    }
}

/// `put` leaves the members under other keys as they were.
pub proof fn lemma_put_other(ms: Seq<(Seq<char>, Json)>, key: Seq<char>, val: Json, other: Seq<char>)
    requires
        other != key,
    ensures
        member(put(ms, key, val), other) == member(ms, other),
{
    lemma_index_of_last(ms, key);
    lemma_index_of_last(ms, other);
    match index_of(ms, key) {
        Some(i) => {
            let u = ms.update(i, (key, val));
            lemma_index_of_same_keys(ms, u, other);
        },
        None => {
            let p = ms.push((key, val));
            assert(p.subrange(0, ms.len() as int) =~= ms);
        },
    }
}

/// No member of a rewritten object is named `$ref`.
pub proof fn lemma_members_drop_ref(ms: Seq<(Seq<char>, Json)>, defs: Option<Json>, fuel: nat)
    ensures
        strict_members(ms, defs, fuel) matches Some(rw) ==> forall|j: int|
            0 <= j < rw.len() ==> #[trigger] rw[j].0 != "$ref"@,
    decreases ms.len(),
{
    if ms.len() > 0 {
        lemma_members_drop_ref(ms.subrange(0, ms.len() - 1), defs, fuel);
    }
}

/// `closed` adds only `additionalProperties` and `required`.
pub proof fn lemma_closed_keeps(ms: Seq<(Seq<char>, Json)>, other: Seq<char>)
    requires
        other != "additionalProperties"@,
        other != "required"@,
    ensures
        member(closed(ms), other) == member(ms, other),
{
    if is_object_schema(ms) {
        let with_closed = put(ms, "additionalProperties"@, Json::Bool(false));
        lemma_put_other(ms, "additionalProperties"@, Json::Bool(false), other);
        match member(with_closed, "properties"@) {
            Some(Json::Object(ps)) => {
                lemma_put_other(with_closed, "required"@, Json::Array(key_list(ps)), other);
            },
            _ => {},
        }
    }
}

/// The names `closed` writes differ from the names it reads and from `$ref`.
pub proof fn lemma_names_differ()
    ensures
        "properties"@ != "additionalProperties"@,
        "properties"@ != "required"@,
        "type"@ != "additionalProperties"@,
        "type"@ != "required"@,
        "required"@ != "additionalProperties"@,
        "$ref"@ != "additionalProperties"@,
        "$ref"@ != "required"@,
{
    reveal_strlit("additionalProperties");
    reveal_strlit("required");
    reveal_strlit("properties");
    reveal_strlit("type");
    reveal_strlit("$ref");
    assert("additionalProperties"@.len() == 20);
    assert("required"@.len() == 8);
    assert("properties"@.len() == 10);
    assert("type"@.len() == 4);
    assert("$ref"@.len() == 4);
}

/// An object schema, once closed, has `additionalProperties: false` and
/// requires every one of its properties.
pub proof fn lemma_closed_object(ms: Seq<(Seq<char>, Json)>)
    requires
        is_object_schema(ms),
    ensures
        is_object_schema(closed(ms)),
        member(closed(ms), "additionalProperties"@) == Some(Json::Bool(false)),
        member(closed(ms), "properties"@) matches Some(Json::Object(ps)) ==> member(
            closed(ms),
            "required"@,
        ) == Some(Json::Array(key_list(ps))),
{
    lemma_names_differ();
    lemma_closed_keeps(ms, "properties"@);
    lemma_closed_keeps(ms, "type"@);
    let with_closed = put(ms, "additionalProperties"@, Json::Bool(false));
    lemma_put_same(ms, "additionalProperties"@, Json::Bool(false));
    lemma_put_other(ms, "additionalProperties"@, Json::Bool(false), "properties"@);
    match member(with_closed, "properties"@) {
        Some(Json::Object(ps)) => {
            lemma_put_same(with_closed, "required"@, Json::Array(key_list(ps)));
            lemma_put_other(
                with_closed,
                "required"@,
                Json::Array(key_list(ps)),
                "additionalProperties"@,
            );
        },
        _ => {},
    }
}

/// The shape a strict schema has at its top: no `$ref`, and, when it is an
/// object schema, `additionalProperties: false` and every property listed
/// under `required`.
pub open spec fn strict_shape(r: Json) -> bool {
    &&& field(r, "$ref"@) is None
    &&& match r {
        Json::Object(ms) => is_object_schema(ms) ==> {
            &&& member(ms, "additionalProperties"@) == Some(Json::Bool(false))
            &&& match member(ms, "properties"@) {
                Some(Json::Object(ps)) => member(ms, "required"@) == Some(Json::Array(key_list(ps))),
                _ => true,
            }
        },
        _ => true,
    }
}

/// Whatever `strict` yields has no `$ref` of its own, and when it is an
/// object schema it allows no additional properties and requires all of
/// its properties.
pub proof fn lemma_strict_result(node: Json, defs: Option<Json>, fuel: nat)
    ensures
        strict(node, defs, fuel) matches Some(r) ==> strict_shape(r),
    decreases fuel,
{
    match target(node, defs) {
        Some(def) => {
            if fuel > 0 {
                lemma_strict_result(def, defs, (fuel - 1) as nat);
            }
        },
        None => match node {
            Json::Object(ms) => {
                match strict_members(ms, defs, fuel) {
                    Some(rw) => {
                        lemma_names_differ();
                        lemma_members_drop_ref(ms, defs, fuel);
                        lemma_index_of_last(rw, "$ref"@);
                        lemma_closed_keeps(rw, "$ref"@);
                        if is_object_schema(rw) {
                            lemma_closed_object(rw);
                        }
                    },
                    None => {},
                }
            },
            _ => {},
        },
    }
}

/// What `inline_schema_for_openai` yields has no `$ref` of its own, and
/// when it is an object schema it allows no additional properties and
/// requires all of its properties.
pub proof fn lemma_inlined_result(schema: Json)
    ensures
        inlined(schema) matches Some(r) ==> strict_shape(r),
{
    lemma_strict_result(
        schema_root(schema),
        schema_defs(schema),
        def_count(schema_defs(schema)),
    );
}

// ── more room changes nothing found ───────────────────────────────────────

/// Allowing more nested expansions never changes a strict schema that
/// fewer already produced.
pub proof fn lemma_strict_more_fuel(node: Json, defs: Option<Json>, f1: nat, f2: nat)
    requires
        f1 <= f2,
        strict(node, defs, f1) is Some,
    ensures
        strict(node, defs, f2) == strict(node, defs, f1),
    decreases f1, node,
{
    match target(node, defs) {
        Some(def) => {
            lemma_strict_more_fuel(def, defs, (f1 - 1) as nat, (f2 - 1) as nat);
        },
        None => match node {
            Json::Object(ms) => {
                lemma_members_more_fuel(ms, defs, f1, f2);
            },
            _ => {},
        },
    }
}

pub proof fn lemma_members_more_fuel(ms: Seq<(Seq<char>, Json)>, defs: Option<Json>, f1: nat, f2: nat)
    requires
        f1 <= f2,
        strict_members(ms, defs, f1) is Some,
    ensures
        strict_members(ms, defs, f2) == strict_members(ms, defs, f1),
    decreases f1, ms,
{
    if ms.len() > 0 {
        let k = ms[ms.len() - 1].0;
        let v = ms[ms.len() - 1].1;
        lemma_members_more_fuel(ms.subrange(0, ms.len() - 1), defs, f1, f2);
        if k != "$ref"@ {
            if k == "properties"@ {
                match v {
                    Json::Object(ps) => lemma_values_more_fuel(ps, defs, f1, f2),
                    _ => {},
                }
            } else if k == "items"@ {
                lemma_strict_more_fuel(v, defs, f1, f2);
            } else if is_branch_key(k) {
                match v {
                    Json::Array(a) => lemma_all_more_fuel(a, defs, f1, f2),
                    _ => {},
                }
            }
        }
    }
}

pub proof fn lemma_values_more_fuel(ps: Seq<(Seq<char>, Json)>, defs: Option<Json>, f1: nat, f2: nat)
    requires
        f1 <= f2,
        strict_values(ps, defs, f1) is Some,
    ensures
        strict_values(ps, defs, f2) == strict_values(ps, defs, f1),
    decreases f1, ps,
{
    if ps.len() > 0 {
        lemma_values_more_fuel(ps.subrange(0, ps.len() - 1), defs, f1, f2);
        lemma_strict_more_fuel(ps[ps.len() - 1].1, defs, f1, f2);
    }
}

pub proof fn lemma_all_more_fuel(a: Seq<Json>, defs: Option<Json>, f1: nat, f2: nat)
    requires
        f1 <= f2,
        strict_all(a, defs, f1) is Some,
    ensures
        strict_all(a, defs, f2) == strict_all(a, defs, f1),
    decreases f1, a,
{
    if a.len() > 0 {
        lemma_all_more_fuel(a.subrange(0, a.len() - 1), defs, f1, f2);
        lemma_strict_more_fuel(a[a.len() - 1], defs, f1, f2);
    }
}

} // verus!
