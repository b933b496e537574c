//! Herdr plugin events: a JSON document from which the pane id and working
//! directory of the pane that the event is about are read.
use vstd::prelude::*;

use crate::text::{chars_of, same_text, trim, trim_bounds};

verus! {

/// `serde_json::Error`, carried as it is in the errors of this crate; nothing
/// is read from it.
#[verifier::external_type_specification]
#[verifier::external_body]
pub struct ExJsonError(serde_json::Error);

/// `serde_json::Value`, only ever converted into `JsonValue`.
#[verifier::external_type_specification]
#[verifier::external_body]
pub struct ExJsonValue(serde_json::Value);

/// A JSON value, holding what the event logic reads: object members (each
/// key once; a lookup takes the first member with the key), strings,
/// booleans and arrays. Numbers are kept as a bare marker, since nothing here
/// reads them.
#[derive(Debug)]
pub enum JsonValue {
    Null,
    Bool(bool),
    Number,
    String(String),
    Array(Vec<JsonValue>),
    Object(Vec<(String, JsonValue)>),
}

/// The value that `serde_json::from_str` parses out of `text`, `None` where it
/// refuses the text.
pub uninterp spec fn json_from_str(text: Seq<char>) -> Option<JsonValue>;

/// The value that `serde_json::from_slice` parses out of `bytes`, `None` where
/// it refuses them.
pub uninterp spec fn json_from_slice(bytes: Seq<u8>) -> Option<JsonValue>;

impl JsonValue {
    /// `serde_json::Value` in this crate's terms, variant for variant, with
    /// object members in the map's order. Nothing is claimed of it.
    #[verifier::external_body]
    fn from_serde(value: &serde_json::Value) -> Self {
        match value {
            serde_json::Value::Null => JsonValue::Null,
            serde_json::Value::Bool(b) => JsonValue::Bool(*b),
            serde_json::Value::Number(_) => JsonValue::Number,
            serde_json::Value::String(s) => JsonValue::String(s.clone()),
            serde_json::Value::Array(a) => JsonValue::Array(a.iter().map(JsonValue::from_serde).collect()),
            serde_json::Value::Object(m) => JsonValue::Object(
                m.iter().map(|(k, v)| (k.clone(), JsonValue::from_serde(v))).collect(),
            ),
        }
    }
}

/// Calls `serde_json::from_str` into a `serde_json::Value` and converts the
/// value. Claimed: it succeeds exactly when `json_from_str` of the text is a
/// value, and then gives that value; the same text always parses to the same
/// value or is always refused. What `json_from_str` is on given text is not
/// stated here.
#[verifier::external_body]
pub(crate) fn parse_json_str(text: &str) -> (r: Result<JsonValue, serde_json::Error>)
    ensures
        r is Ok <==> json_from_str(text@) is Some,
        r matches Ok(v) ==> json_from_str(text@) == Some(v),
{
    match serde_json::from_str::<serde_json::Value>(text) {
        Ok(value) => Ok(JsonValue::from_serde(&value)),
        Err(error) => Err(error),
    }
}

/// Calls `serde_json::from_slice` into a `serde_json::Value` and converts the
/// value. Claimed: it succeeds exactly when `json_from_slice` of the bytes is a
/// value, and then gives that value. What `json_from_slice` is on given bytes
/// is not stated here.
#[verifier::external_body]
pub(crate) fn parse_json_slice(bytes: &[u8]) -> (r: Result<JsonValue, serde_json::Error>)
    ensures
        r is Ok <==> json_from_slice(bytes@) is Some,
        r matches Ok(v) ==> json_from_slice(bytes@) == Some(v),
{
    match serde_json::from_slice::<serde_json::Value>(bytes) {
        Ok(value) => Ok(JsonValue::from_serde(&value)),
        Err(error) => Err(error),
    }
}

/// The member `key` of the members `entries`.
pub open spec fn member(entries: Seq<(String, JsonValue)>, key: Seq<char>) -> Option<JsonValue>
    decreases entries.len(),
{
    if entries.len() == 0 {
        None
    } else if entries[0].0@ == key {
        Some(entries[0].1)
    } else {
        member(entries.drop_first(), key)
    }
}

/// The member `key` of `v`, when `v` is an object (`Value::get` with a key).
pub open spec fn json_get(v: JsonValue, key: Seq<char>) -> Option<JsonValue> {
    match v {
        JsonValue::Object(entries) => member(entries@, key),
        _ => None,
    }
}

/// The value reached from `v` by following the keys of `path`.
pub open spec fn json_at(v: JsonValue, path: Seq<Seq<char>>) -> Option<JsonValue>
    decreases path.len(),
{
    if path.len() == 0 {
        Some(v)
    } else {
        match json_get(v, path[0]) {
            Some(c) => json_at(c, path.drop_first()),
            None => None,
        }
    }
}

/// The non-empty string at `path` in `v`.
pub open spec fn string_at(v: JsonValue, path: Seq<Seq<char>>) -> Option<Seq<char>> {
    match json_at(v, path) {
        Some(JsonValue::String(s)) => if s@.len() > 0 {
            Some(s@)
        } else {
            None
        },
        _ => None,
    }
}

/// The first of the `paths` at which `v` holds a non-empty string.
pub open spec fn first_string(v: JsonValue, paths: Seq<Seq<Seq<char>>>) -> Option<Seq<char>>
    decreases paths.len(),
{
    if paths.len() == 0 {
        None
    } else {
        match string_at(v, paths[0]) {
            Some(s) => Some(s),
            None => first_string(v, paths.drop_first()),
        }
    }
}

/// Where an event may hold the pane id, in order of preference.
pub open spec fn pane_id_paths() -> Seq<Seq<Seq<char>>> {
    seq![
        seq!["pane_id"@],
        seq!["pane"@, "pane_id"@],
        seq!["focused_pane"@, "pane_id"@],
        seq!["result"@, "pane"@, "pane_id"@],
    ]
}

/// Where an event may hold the working directory, in order of preference.
pub open spec fn cwd_paths() -> Seq<Seq<Seq<char>>> {
    seq![
        seq!["foreground_cwd"@],
        seq!["cwd"@],
        seq!["pane"@, "foreground_cwd"@],
        seq!["pane"@, "cwd"@],
        seq!["focused_pane"@, "foreground_cwd"@],
        seq!["focused_pane"@, "cwd"@],
        seq!["result"@, "pane"@, "foreground_cwd"@],
        seq!["result"@, "pane"@, "cwd"@],
    ]
}

/// The event's own `pane_id` wins: where the event object has a non-empty
/// string `pane_id`, that is the pane, whatever a nested `pane` object says.
pub proof fn lemma_direct_pane_id_first(v: JsonValue, p: Seq<char>)
    ensures
        (json_get(v, "pane_id"@) matches Some(JsonValue::String(s)) && s@ == p && p.len() > 0)
            ==> first_string(v, pane_id_paths()) == Some(p),
{
    let paths = pane_id_paths();
    let pk = seq!["pane_id"@];
    assert(paths[0] == pk);
    assert(pk[0] == "pane_id"@);
    assert(pk.drop_first() =~= Seq::<Seq<char>>::empty());
    match json_get(v, "pane_id"@) {
        Some(JsonValue::String(s)) => {
            assert(json_at(JsonValue::String(s), pk.drop_first()) == Some(JsonValue::String(s)));
            assert(json_at(v, pk) == Some(JsonValue::String(s)));
            if s@.len() > 0 {
                assert(string_at(v, pk) == Some(s@));
            }
        },
        _ => {},
    }
}

/// A pane's own foreground directory wins: where the event object has a
/// non-empty string `foreground_cwd`, the context's directory is that string,
/// whatever its `cwd` member holds; only without it does a non-empty `cwd`
/// count.
pub proof fn lemma_foreground_cwd_first(v: JsonValue, f: Seq<char>, c: Seq<char>)
    requires
        first_string(v, pane_id_paths()) is Some,
    ensures
        (json_get(v, "foreground_cwd"@) matches Some(JsonValue::String(s)) && s@ == f && f.len() > 0)
            ==> pane_context_of(v) == Some((first_string(v, pane_id_paths())->0, f)),
        (json_get(v, "cwd"@) matches Some(JsonValue::String(s)) && s@ == c && c.len() > 0
            && string_at(v, seq!["foreground_cwd"@]) is None) ==> pane_context_of(v) == Some(
            (first_string(v, pane_id_paths())->0, c),
        ),
{
    let paths = cwd_paths();
    let fc = seq!["foreground_cwd"@];
    let cw = seq!["cwd"@];
    assert(paths[0] == fc);
    assert(paths.drop_first()[0] == cw);
    assert(fc[0] == "foreground_cwd"@);
    assert(cw[0] == "cwd"@);
    assert(fc.drop_first() =~= Seq::<Seq<char>>::empty());
    assert(cw.drop_first() =~= Seq::<Seq<char>>::empty());
    match json_get(v, "foreground_cwd"@) {
        Some(JsonValue::String(s)) => {
            assert(json_at(JsonValue::String(s), fc.drop_first()) == Some(JsonValue::String(s)));
            assert(json_at(v, fc) == Some(JsonValue::String(s)));
            if s@.len() > 0 {
                assert(string_at(v, fc) == Some(s@));
                assert(first_string(v, paths) == Some(s@));
            }
        },
        _ => {},
    }
    match json_get(v, "cwd"@) {
        Some(JsonValue::String(s)) => {
            assert(json_at(JsonValue::String(s), cw.drop_first()) == Some(JsonValue::String(s)));
            assert(json_at(v, cw) == Some(JsonValue::String(s)));
            if s@.len() > 0 && string_at(v, fc) is None {
                assert(string_at(v, cw) == Some(s@));
                assert(first_string(v, paths.drop_first()) == Some(s@));
                assert(first_string(v, paths) == Some(s@));
            }
        },
        _ => {},
    }
}

/// The pane that an event is about: its pane id and working directory.
#[derive(Clone, Debug, PartialEq, Eq)]
pub struct PaneContext {
    pub pane_id: String,
    pub cwd: String,
}

/// The pane id and directory that `v` names, when it names both.
pub open spec fn pane_context_of(v: JsonValue) -> Option<(Seq<char>, Seq<char>)> {
    match (first_string(v, pane_id_paths()), first_string(v, cwd_paths())) {
        (Some(p), Some(c)) => Some((p, c)),
        _ => None,
    }
}

/// `r` is the context `spec` describes.
pub open spec fn context_is(r: Option<PaneContext>, spec: Option<(Seq<char>, Seq<char>)>) -> bool {
    match spec {
        Some((p, c)) => r is Some && r->0.pane_id@ == p && r->0.cwd@ == c,
        None => r is None,
    }
}

/// The views of a list of keys.
pub open spec fn key_views(path: Seq<String>) -> Seq<Seq<char>> {
    path.map_values(|k: String| k@)
}

/// The views of a list of key lists.
pub open spec fn path_views(paths: Seq<Vec<String>>) -> Seq<Seq<Seq<char>>> {
    paths.map_values(|p: Vec<String>| key_views(p@))
}

/// The member `key` of `v` (`Value::get`).
pub fn get_member<'a>(v: &'a JsonValue, key: &String) -> (r: Option<&'a JsonValue>)
    ensures
        match r {
            Some(c) => json_get(*v, key@) == Some(*c),
            None => json_get(*v, key@) is None,
        },
{
    match v {
        JsonValue::Object(entries) => {
            let n = entries.len();
            let mut i: usize = 0;
            assert(entries@.skip(0) =~= entries@);
            while i < n
                invariant
                    n == entries@.len(),
                    i <= n,
                    json_get(*v, key@) == member(entries@, key@),
                    member(entries@, key@) == member(entries@.skip(i as int), key@),
                decreases n - i,
            {
                assert(entries@.skip(i as int).drop_first() =~= entries@.skip(i + 1));
                assert(entries@.skip(i as int)[0] == entries@[i as int]);
                if same_text(&entries[i].0, key) {
                    return Some(&entries[i].1);
                }
                i = i + 1;
            }
            None
        },
        _ => None,
    }
}

/// The value at `path` in `v`.
pub fn value_at<'a>(v: &'a JsonValue, path: &Vec<String>) -> (r: Option<&'a JsonValue>)
    ensures
        match r {
            Some(c) => json_at(*v, key_views(path@)) == Some(*c),
            None => json_at(*v, key_views(path@)) is None,
        },
{
    let n = path.len();
    let mut cur: &JsonValue = v;
    let mut i: usize = 0;
    assert(key_views(path@).skip(0) =~= key_views(path@));
    while i < n
        invariant
            n == path@.len(),
            i <= n,
            json_at(*v, key_views(path@)) == json_at(*cur, key_views(path@).skip(i as int)),
        decreases n - i,
    {
        let ghost rest = key_views(path@).skip(i as int);
        assert(rest.drop_first() =~= key_views(path@).skip(i + 1));
        assert(rest[0] == path@[i as int]@);
        match get_member(cur, &path[i]) {
            Some(next) => {
                cur = next;
            },
            None => {
                return None;
            },
        }
        i = i + 1;
    }
    assert(key_views(path@).skip(n as int) =~= Seq::<Seq<char>>::empty());
    Some(cur)
}

/// The non-empty string at `path` in `v`.
pub fn string_at_path(v: &JsonValue, path: &Vec<String>) -> (r: Option<String>)
    ensures
        match string_at(*v, key_views(path@)) {
            Some(s) => r is Some && r->0@ == s,
            None => r is None,
        },
{
    match value_at(v, path) {
        Some(JsonValue::String(s)) => {
            if s.as_str().is_empty() {
                None
            } else {
                Some(s.clone())
            }
        },
        _ => None,
    }
}

/// The first of `paths` at which `v` holds a non-empty string.
pub fn first_string_at(v: &JsonValue, paths: &Vec<Vec<String>>) -> (r: Option<String>)
    ensures
        match first_string(*v, path_views(paths@)) {
            Some(s) => r is Some && r->0@ == s,
            None => r is None,
        },
{
    let n = paths.len();
    let mut i: usize = 0;
    assert(path_views(paths@).skip(0) =~= path_views(paths@));
    while i < n
        invariant
            n == paths@.len(),
            i <= n,
            first_string(*v, path_views(paths@)) == first_string(
                *v,
                path_views(paths@).skip(i as int),
            ),
        decreases n - i,
    {
        let ghost rest = path_views(paths@).skip(i as int);
        assert(rest.drop_first() =~= path_views(paths@).skip(i + 1));
        assert(rest[0] == key_views(paths@[i as int]@));
        let found = string_at_path(v, &paths[i]);
        if found.is_some() {
            return found;
        }
        i = i + 1;
    }
    None
}

fn key_path(keys: &[&str]) -> (r: Vec<String>)
    ensures
        key_views(r@) == keys@.map_values(|k: &str| k@),
{
    let mut out: Vec<String> = Vec::new();
    let n = keys.len();
    let mut i: usize = 0;
    while i < n
        invariant
            n == keys@.len(),
            i <= n,
            key_views(out@) == keys@.take(i as int).map_values(|k: &str| k@),
        decreases n - i,
    {
        let ghost before = out@;
        let k = keys[i].to_owned();
        out.push(k);
        assert(out@ == before.push(k));
        assert(key_views(out@) =~= key_views(before).push(k@));
        assert(keys@.take(i + 1).map_values(|k: &str| k@) =~= keys@.take(i as int).map_values(
            |k: &str| k@,
        ).push(keys@[i as int]@));
        i = i + 1;
    }
    assert(keys@.take(n as int) =~= keys@);
    out
}

fn pane_id_key_paths() -> (r: Vec<Vec<String>>)
    ensures
        path_views(r@) == pane_id_paths(),
{
    let mut paths: Vec<Vec<String>> = Vec::new();
    paths.push(key_path(&["pane_id"]));
    paths.push(key_path(&["pane", "pane_id"]));
    paths.push(key_path(&["focused_pane", "pane_id"]));
    paths.push(key_path(&["result", "pane", "pane_id"]));
    assert(path_views(paths@) =~~= pane_id_paths());
    paths
}

fn cwd_key_paths() -> (r: Vec<Vec<String>>)
    ensures
        path_views(r@) == cwd_paths(),
{
    let mut paths: Vec<Vec<String>> = Vec::new();
    paths.push(key_path(&["foreground_cwd"]));
    paths.push(key_path(&["cwd"]));
    paths.push(key_path(&["pane", "foreground_cwd"]));
    paths.push(key_path(&["pane", "cwd"]));
    paths.push(key_path(&["focused_pane", "foreground_cwd"]));
    paths.push(key_path(&["focused_pane", "cwd"]));
    paths.push(key_path(&["result", "pane", "foreground_cwd"]));
    paths.push(key_path(&["result", "pane", "cwd"]));
    assert(path_views(paths@) =~~= cwd_paths());
    paths
}

/// The pane that a parsed event names: the first non-empty pane id and the
/// first non-empty working directory among the places where events put them.
pub fn pane_context_from_value(value: &JsonValue) -> (r: Option<PaneContext>)
    ensures
        context_is(r, pane_context_of(*value)),
{
    let pane_id = match first_string_at(value, &pane_id_key_paths()) {
        Some(p) => p,
        None => return None,
    };
    let cwd = match first_string_at(value, &cwd_key_paths()) {
        Some(c) => c,
        None => return None,
    };
    Some(PaneContext { pane_id, cwd })
}

/// Why an event could not be read.
#[derive(Debug)]
pub enum EventError {
    /// The event is not JSON.
    Json(serde_json::Error),
}

/// What an event text gives: `Some(None)` for no pane (blank text, or no
/// pane named), `Some(Some(..))` for a pane, `None` when the JSON is refused.
pub open spec fn event_context(json: Seq<char>) -> Option<Option<(Seq<char>, Seq<char>)>> {
    if trim(json).len() == 0 {
        Some(None)
    } else {
        match json_from_str(json) {
            Some(v) => Some(pane_context_of(v)),
            None => None,
        }
    }
}

/// `r` is the outcome `spec` describes.
pub open spec fn event_outcome_is(
    r: Result<Option<PaneContext>, EventError>,
    spec: Option<Option<(Seq<char>, Seq<char>)>>,
) -> bool {
    match spec {
        Some(c) => r is Ok && context_is(r->Ok_0, c),
        None => r is Err,
    }
}

/// Reads the pane that a Herdr plugin event names; blank text names none.
pub fn parse_event_json(json: &str) -> (r: Result<Option<PaneContext>, EventError>)
    ensures
        event_outcome_is(r, event_context(json@)),
{
    let cs = chars_of(json);
    let (start, end) = trim_bounds(cs.as_slice());
    if start == end {
        assert(trim(json@).len() == 0);
        return Ok(None);
    }
    match parse_json_str(json) {
        Ok(value) => Ok(pane_context_from_value(&value)),
        Err(error) => Err(EventError::Json(error)),
    }
}

} // verus!
