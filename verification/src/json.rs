//! The JSON documents that npm, pnpm and pip print, and what is read from them.
use vstd::prelude::*;

use crate::manager::ManagerType;
use crate::package::{fresh_packages, packages_from_pairs, pair_views, Entry, Package};

verus! {

/// A JSON value. An object keeps its members as a list of key and value, in
/// the order they are read; where a key occurs twice, lookups see the first.
#[derive(Debug)]
pub enum JsonValue {
    Null,
    Bool(bool),
    /// A number, in the text the parser prints for it.
    Number(String),
    Str(String),
    Array(Vec<JsonValue>),
    Object(Vec<(String, JsonValue)>),
}

/// serde_json's own value type, carried from its parser to `from_serde`.
#[verifier::external_type_specification]
#[verifier::external_body]
pub struct ExSerdeValue(serde_json::Value);

/// The value serde_json reads from `bytes` as one JSON document, or `None`
/// where they are not one.
pub uninterp spec fn json_document(bytes: Seq<u8>) -> Option<JsonValue>;

/// Turns serde_json's value into the library's, variant for variant: numbers
/// keep the text serde_json prints for them, objects their members in the
/// order serde_json's map yields them.
#[verifier::external_body]
fn from_serde(v: serde_json::Value) -> JsonValue {
    match v {
        serde_json::Value::Null => JsonValue::Null,
        serde_json::Value::Bool(b) => JsonValue::Bool(b),
        serde_json::Value::Number(n) => JsonValue::Number(n.to_string()),
        serde_json::Value::String(s) => JsonValue::Str(s),
        serde_json::Value::Array(a) => JsonValue::Array(a.into_iter().map(from_serde).collect()),
        serde_json::Value::Object(m) => JsonValue::Object(
            m.into_iter().map(|(k, x)| (k, from_serde(x))).collect(),
        ),
    }
}

/// Parses `bytes` as one JSON document.
///
/// Calls `serde_json::from_slice` for a `serde_json::Value` and converts the
/// result with `from_serde`; a parse error gives `None`. The contract only
/// names the result (`json_document`): the JSON grammar and serde_json's
/// choices (number text, member order) are not restated here.
#[verifier::external_body]
pub(crate) fn parse_json(bytes: &[u8]) -> (r: Option<JsonValue>)
    ensures
        r == json_document(bytes@),
{
    serde_json::from_slice::<serde_json::Value>(bytes).ok().map(from_serde)
}

/// The value of the first member named `key`, or null: what indexing a JSON
/// value by a key gives (null for a missing key or a value that is no object).
pub open spec fn lookup(members: Seq<(String, JsonValue)>, key: Seq<char>) -> JsonValue
    decreases members.len(),
{
    if members.len() == 0 {
        JsonValue::Null
    } else if members[0].0@ == key {
        members[0].1
    } else {
        lookup(members.drop_first(), key)
    }
}

pub open spec fn json_get(v: JsonValue, key: Seq<char>) -> JsonValue {
    match v {
        JsonValue::Object(members) => lookup(members@, key),
        _ => JsonValue::Null,
    }
}

/// The characters of a JSON string value.
pub open spec fn json_str(v: JsonValue) -> Option<Seq<char>> {
    match v {
        JsonValue::Str(s) => Some(s@),
        _ => None,
    }
}

/// The index of the first member named `key`.
fn find_member(members: &Vec<(String, JsonValue)>, key: &str) -> (r: Option<usize>)
    ensures
        match r {
            Some(i) => i < members@.len() && lookup(members@, key@) == members@[i as int].1,
            None => lookup(members@, key@) == JsonValue::Null,
        },
{
    let k = crate::text::to_chars(key);
    let mut i: usize = 0;
    assert(members@.skip(0) =~= members@);
    while i < members.len()
        invariant
            i <= members@.len(),
            k@ == key@,
            lookup(members@, key@) == lookup(members@.skip(i as int), key@),
        decreases members@.len() - i,
    {
        assert(members@.skip(i as int).drop_first() =~= members@.skip(i + 1));
        assert(members@.skip(i as int)[0] == members@[i as int]);
        if crate::text::eq_chars(&crate::text::to_chars(members[i].0.as_str()), &k) {
            return Some(i);
        }
        i = i + 1;
    }
    assert(members@.skip(i as int).len() == 0);
    None
}

/// The string stored under `key` in `v`, if it is a string.
pub fn get_str(v: &JsonValue, key: &str) -> (r: Option<String>)
    ensures
        match r {
            Some(s) => json_str(json_get(*v, key@)) == Some(s@),
            None => json_str(json_get(*v, key@)) is None,
        },
{
    match v {
        JsonValue::Object(members) => match find_member(members, key) {
            Some(i) => match &members[i].1 {
                JsonValue::Str(s) => Some(s.clone()),
                _ => None,
            },
            None => None,
        },
        _ => None,
    }
}

/// For each member `(k, v)` of an object: `k` with the string `v[field]`, or
/// with `dflt` where that is no string; members without either are left out.
pub open spec fn member_pairs(
    members: Seq<(String, JsonValue)>,
    field: Seq<char>,
    dflt: Option<Seq<char>>,
) -> Seq<Entry>
    decreases members.len(),
{
    if members.len() == 0 {
        seq![]
    } else {
        let rest = member_pairs(members.drop_last(), field, dflt);
        let m = members.last();
        match json_str(json_get(m.1, field)) {
            Some(s) => rest.push((m.0@, s)),
            None => match dflt {
                Some(d) => rest.push((m.0@, d)),
                None => rest,
            },
        }
    }
}

/// For each item of an array whose `a` and `b` are both strings, the pair of
/// them.
pub open spec fn item_pairs(items: Seq<JsonValue>, a: Seq<char>, b: Seq<char>) -> Seq<Entry>
    decreases items.len(),
{
    if items.len() == 0 {
        seq![]
    } else {
        let rest = item_pairs(items.drop_last(), a, b);
        match (json_str(json_get(items.last(), a)), json_str(json_get(items.last(), b))) {
            (Some(x), Some(y)) => rest.push((x, y)),
            _ => rest,
        }
    }
}

fn read_members(members: &Vec<(String, JsonValue)>, field: &str, dflt: Option<&str>) -> (r: Vec<
    (String, String),
>)
    ensures
        pair_views(r@) == member_pairs(
            members@,
            field@,
            match dflt {
                Some(d) => Some(d@),
                None => None,
            },
        ),
{
    let ghost d = match dflt {
        Some(d) => Some(d@),
        None => None,
    };
    let mut out: Vec<(String, String)> = Vec::new();
    let mut i: usize = 0;
    assert(members@.take(0) =~= Seq::<(String, JsonValue)>::empty());
    assert(pair_views(out@) =~= Seq::<Entry>::empty());
    while i < members.len()
        invariant
            i <= members@.len(),
            pair_views(out@) == member_pairs(members@.take(i as int), field@, d),
            d == match dflt {
                Some(d) => Some(d@),
                None => None,
            },
        decreases members@.len() - i,
    {
        assert(members@.take(i + 1).drop_last() =~= members@.take(i as int));
        let ghost before = out@;
        match get_str(&members[i].1, field) {
            Some(s) => {
                out.push((members[i].0.clone(), s));
                assert(pair_views(out@) =~= pair_views(before).push((members@[i as int].0@, s@)));
            },
            None => match dflt {
                Some(x) => {
                    out.push((members[i].0.clone(), x.to_owned()));
                    assert(pair_views(out@) =~= pair_views(before).push((members@[i as int].0@, x@)));
                },
                None => {},
            },
        }
        i = i + 1;
    }
    assert(members@.take(i as int) =~= members@);
    out
}

fn read_items(items: &Vec<JsonValue>, a: &str, b: &str) -> (r: Vec<(String, String)>)
    ensures
        pair_views(r@) == item_pairs(items@, a@, b@),
{
    let mut out: Vec<(String, String)> = Vec::new();
    let mut i: usize = 0;
    assert(items@.take(0) =~= Seq::<JsonValue>::empty());
    assert(pair_views(out@) =~= Seq::<Entry>::empty());
    while i < items.len()
        invariant
            i <= items@.len(),
            pair_views(out@) == item_pairs(items@.take(i as int), a@, b@),
        decreases items@.len() - i,
    {
        assert(items@.take(i + 1).drop_last() =~= items@.take(i as int));
        let ghost before = out@;
        match (get_str(&items[i], a), get_str(&items[i], b)) {
            (Some(x), Some(y)) => {
                out.push((x, y));
                assert(pair_views(out@) =~= pair_views(before).push((x@, y@)));
            },
            _ => {},
        }
        i = i + 1;
    }
    assert(items@.take(i as int) =~= items@);
    out
}

/// `npm outdated -g --json` and `pnpm outdated -g --json`: an object keyed by
/// package whose members carry a `latest` version.
pub open spec fn spec_outdated_by_latest(json: JsonValue) -> Seq<Entry> {
    match json {
        JsonValue::Object(members) => member_pairs(members@, "latest"@, None),
        _ => seq![],
    }
}

pub fn outdated_npm(json: &JsonValue) -> (r: Vec<(String, String)>)
    ensures
        pair_views(r@) == spec_outdated_by_latest(*json),
{
    match json {
        JsonValue::Object(members) => read_members(members, "latest", None),
        _ => Vec::new(),
    }
}

pub fn outdated_pnpm(json: &JsonValue) -> (r: Vec<(String, String)>)
    ensures
        pair_views(r@) == spec_outdated_by_latest(*json),
{
    match json {
        JsonValue::Object(members) => read_members(members, "latest", None),
        _ => Vec::new(),
    }
}

/// `pip list --outdated --format=json`: an array of objects with `name` and
/// `latest_version`.
pub open spec fn spec_outdated_pip(json: JsonValue) -> Seq<Entry> {
    match json {
        JsonValue::Array(items) => item_pairs(items@, "name"@, "latest_version"@),
        _ => seq![],
    }
}

pub fn outdated_pip(json: &JsonValue) -> (r: Vec<(String, String)>)
    ensures
        pair_views(r@) == spec_outdated_pip(*json),
{
    match json {
        JsonValue::Array(items) => read_items(items, "name", "latest_version"),
        _ => Vec::new(),
    }
}

/// The packages under `dependencies` of a listing object, each with its
/// `version` or `unknown`.
pub open spec fn dependency_pairs(root: JsonValue) -> Seq<Entry> {
    match json_get(root, "dependencies"@) {
        JsonValue::Object(members) => member_pairs(members@, "version"@, Some("unknown"@)),
        _ => seq![],
    }
}

fn read_dependencies(root: &JsonValue) -> (r: Vec<(String, String)>)
    ensures
        pair_views(r@) == dependency_pairs(*root),
{
    match root {
        JsonValue::Object(members) => match find_member(members, "dependencies") {
            Some(i) => match &members[i].1 {
                JsonValue::Object(deps) => read_members(deps, "version", Some("unknown")),
                _ => Vec::new(),
            },
            None => Vec::new(),
        },
        _ => Vec::new(),
    }
}

/// `npm list -g --json`: an object whose `dependencies` member maps
/// each package to an object with its `version`.
pub open spec fn spec_list_npm(json: JsonValue) -> Seq<Entry> {
    dependency_pairs(json)
}

pub fn list_npm(json: &JsonValue) -> (r: Vec<Package>)
    ensures
        fresh_packages(r@, spec_list_npm(*json), ManagerType::Npm),
{
    let pairs = read_dependencies(json);
    packages_from_pairs(&pairs, ManagerType::Npm)
}

/// `pnpm ls -g --json`: an array whose first item is shaped like
/// npm's listing.
pub open spec fn spec_list_pnpm(json: JsonValue) -> Seq<Entry> {
    match json {
        JsonValue::Array(items) => if items@.len() > 0 {
            dependency_pairs(items@[0])
        } else {
            seq![]
        },
        _ => seq![],
    }
}

pub fn list_pnpm(json: &JsonValue) -> (r: Vec<Package>)
    ensures
        fresh_packages(r@, spec_list_pnpm(*json), ManagerType::Pnpm),
{
    let pairs = match json {
        JsonValue::Array(items) => if items.len() > 0 {
            read_dependencies(&items[0])
        } else {
            Vec::new()
        },
        _ => Vec::new(),
    };
    packages_from_pairs(&pairs, ManagerType::Pnpm)
}

/// `pip list --format=json`: an array of objects with `name` and `version`.
pub open spec fn spec_list_pip(json: JsonValue) -> Seq<Entry> {
    match json {
        JsonValue::Array(items) => item_pairs(items@, "name"@, "version"@),
        _ => seq![],
    }
}

pub fn list_pip(json: &JsonValue) -> (r: Vec<Package>)
    ensures
        fresh_packages(r@, spec_list_pip(*json), ManagerType::Pip),
{
    let pairs = match json {
        JsonValue::Array(items) => read_items(items, "name", "version"),
        _ => Vec::new(),
    };
    packages_from_pairs(&pairs, ManagerType::Pip)
}

} // verus!
