//! The parts of an interaction's configuration: the configuration of the request message, and
//! the configurations of the response messages with their metadata.
use vstd::prelude::*;
use vstd::string::StringExecFns;
use crate::generators::JsonValue;

verus! {

/// Why the configuration of a request could not be read.
#[derive(Clone, Copy, Debug, PartialEq, Eq, Structural)]
pub enum ConfigError {
    /// The request configuration is neither an object nor a string.
    UnprocessableRequest,
}

/// The entries of a configuration object, with their keys as text.
pub open spec fn entries_view(e: Seq<(String, JsonValue)>) -> Seq<(Seq<char>, JsonValue)> {
    e.map_values(|p: (String, JsonValue)| (p.0@, p.1))
}

/// The index of the first entry with the key.
pub open spec fn spec_find_key(e: Seq<(String, JsonValue)>, key: Seq<char>) -> Option<int>
    decreases e.len(),
{
    if e.len() == 0 {
        None
    } else if e[0].0@ == key {
        Some(0)
    } else {
        match spec_find_key(e.drop_first(), key) {
            Some(i) => Some(i + 1),
            None => None,
        }
    }
}

proof fn lemma_find_key(e: Seq<(String, JsonValue)>, key: Seq<char>)
    ensures
        spec_find_key(e, key) matches Some(i) ==> 0 <= i < e.len() && e[i].0@ == key,
    decreases e.len(),
{
    if e.len() > 0 {
        lemma_find_key(e.drop_first(), key);
    }
}

/// The index of the first entry with the key.
fn find_key(e: &Vec<(String, JsonValue)>, key: &str) -> (r: Option<usize>)
    ensures
        r == (match spec_find_key(e@, key@) {
            Some(i) => Some(i as usize),
            None => None::<usize>,
        }),
{
    let target = String::from_str(key);
    let mut i: usize = 0;
    assert(e@.skip(0) =~= e@);
    while i < e.len()
        invariant
            i <= e@.len(),
            target@ == key@,
            spec_find_key(e@, key@) == (match spec_find_key(e@.skip(i as int), key@) {
                Some(j) => Some(j + i),
                None => None::<int>,
            }),
        decreases e@.len() - i,
    {
        let ghost rest = e@.skip(i as int);
        assert(rest[0] == e@[i as int]);
        assert(rest.drop_first() =~= e@.skip(i + 1));
        if e[i].0 == target {
            return Some(i);
        }
        i = i + 1;
    }
    None
}

/// Whether the text is the key.
fn is_key(s: &str, key: &str) -> (r: bool)
    ensures
        r == (s@ == key@),
{
    String::from_str(s) == String::from_str(key)
}

/// The entry `{"value": v}` for a string `v`.
fn value_entry(s: String) -> (r: Vec<(String, JsonValue)>)
    ensures
        entries_view(r@) == seq![("value"@, JsonValue::String(s))],
{
    let mut r: Vec<(String, JsonValue)> = Vec::new();
    r.push((String::from_str("value"), JsonValue::String(s)));
    assert(entries_view(r@) =~= seq![("value"@, JsonValue::String(s))]);
    r
}

/// The configuration of the request message: the whole configuration where it is for the
/// request, else the object under "request" (a string there configures `{"value": ...}`), none
/// where there is no "request" entry; any other value under "request" is refused.
pub open spec fn spec_request_part(config: Seq<(String, JsonValue)>, part: Seq<char>) -> Result<Seq<(Seq<char>, JsonValue)>, ConfigError> {
    if part == "request"@ {
        Ok(entries_view(config))
    } else {
        match spec_find_key(config, "request"@) {
            None => Ok(Seq::empty()),
            Some(i) => match config[i].1 {
                JsonValue::Object(fields) => Ok(entries_view(fields@)),
                JsonValue::String(s) => Ok(seq![("value"@, JsonValue::String(s))]),
                _ => Err(ConfigError::UnprocessableRequest),
            },
        }
    }
}

/// The configuration of the request message (see `spec_request_part`).
pub fn request_part(config: Vec<(String, JsonValue)>, service_part: &str) -> (r: Result<Vec<(String, JsonValue)>, ConfigError>)
    ensures
        match spec_request_part(config@, service_part@) {
            Ok(v) => r matches Ok(x) && entries_view(x@) == v,
            Err(e) => r == Err::<Vec<(String, JsonValue)>, ConfigError>(e),
        },
{
    if is_key(service_part, "request") {
        return Ok(config);
    }
    match find_key(&config, "request") {
        None => {
            let empty: Vec<(String, JsonValue)> = Vec::new();
            assert(entries_view(empty@) =~= Seq::<(Seq<char>, JsonValue)>::empty());
            Ok(empty)
        },
        Some(i) => {
            proof {
                lemma_find_key(config@, "request"@);
            }
            let mut config = config;
            let (_, v) = config.remove(i);
            match v {
                JsonValue::Object(fields) => Ok(fields),
                JsonValue::String(s) => Ok(value_entry(s)),
                _ => Err(ConfigError::UnprocessableRequest),
            }
        },
    }
}

/// The configuration a value in a list of responses gives: an object's entries, `{"value": ...}`
/// for a string; none for anything else.
pub open spec fn spec_response_item(v: JsonValue) -> Option<Seq<(Seq<char>, JsonValue)>> {
    match v {
        JsonValue::Object(f) => Some(entries_view(f@)),
        JsonValue::String(s) => Some(seq![("value"@, JsonValue::String(s))]),
        _ => None,
    }
}

/// The configurations of a list of responses, in order, without metadata; values that configure
/// nothing are left out.
pub open spec fn spec_response_list(vs: Seq<JsonValue>) -> Seq<(Seq<(Seq<char>, JsonValue)>, Option<JsonValue>)>
    decreases vs.len(),
{
    if vs.len() == 0 {
        Seq::empty()
    } else {
        let rest = spec_response_list(vs.drop_last());
        match spec_response_item(vs.last()) {
            Some(e) => rest.push((e, None)),
            None => rest,
        }
    }
}

/// The value of the first entry with the key, if any.
pub open spec fn spec_entry_value(config: Seq<(String, JsonValue)>, key: Seq<char>) -> Option<JsonValue> {
    match spec_find_key(config, key) {
        Some(i) => Some(config[i].1),
        None => None,
    }
}

/// The configurations of the response messages, each with its metadata: the whole configuration
/// where it is for the response; else, under "response", an object (with the metadata under
/// "responseMetadata"), each value of a list (see `spec_response_list`), or a string
/// (`{"value": ...}`), and nothing for any other value; with no "response" entry, an empty
/// configuration with the metadata under "responseMetadata", if there is any.
pub open spec fn spec_response_part(
    config: Seq<(String, JsonValue)>,
    part: Seq<char>,
) -> Seq<(Seq<(Seq<char>, JsonValue)>, Option<JsonValue>)> {
    if part == "response"@ {
        seq![(entries_view(config), None)]
    } else {
        match spec_find_key(config, "response"@) {
            Some(i) => match config[i].1 {
                JsonValue::Object(f) => seq![(entries_view(f@), spec_entry_value(config, "responseMetadata"@))],
                JsonValue::Array(l) => spec_response_list(l@),
                JsonValue::String(s) => seq![(seq![("value"@, JsonValue::String(s))], None)],
                _ => Seq::empty(),
            },
            None => match spec_entry_value(config, "responseMetadata"@) {
                Some(m) => seq![(Seq::<(Seq<char>, JsonValue)>::empty(), Some(m))],
                None => Seq::empty(),
            },
        }
    }
}

/// The parts as configurations viewed with their keys as text.
pub open spec fn parts_view(
    parts: Seq<(Vec<(String, JsonValue)>, Option<JsonValue>)>,
) -> Seq<(Seq<(Seq<char>, JsonValue)>, Option<JsonValue>)> {
    parts.map_values(|p: (Vec<(String, JsonValue)>, Option<JsonValue>)| (entries_view(p.0@), p.1))
}

/// The configurations of a list of responses (see `spec_response_list`).
fn response_list(list: Vec<JsonValue>) -> (r: Vec<(Vec<(String, JsonValue)>, Option<JsonValue>)>)
    ensures
        parts_view(r@) == spec_response_list(list@),
{
    let ghost orig = list@;
    let mut list = list;
    let mut out: Vec<(Vec<(String, JsonValue)>, Option<JsonValue>)> = Vec::new();
    let ghost mut k: int = 0;
    assert(orig.skip(0) =~= orig);
    assert(parts_view(out@) =~= spec_response_list(orig.take(0)));
    while list.len() > 0
        invariant
            0 <= k <= orig.len(),
            list@ == orig.skip(k),
            parts_view(out@) == spec_response_list(orig.take(k)),
        decreases list@.len(),
    {
        let ghost before = list@;
        let v = list.remove(0);
        proof {
            assert(k < orig.len());
            assert(v == orig[k]);
            assert(list@ =~= orig.skip(k + 1));
            assert(orig.take(k + 1).drop_last() =~= orig.take(k));
            assert(orig.take(k + 1).last() == orig[k]);
        }
        let ghost old_out = out@;
        match v {
            JsonValue::Object(f) => {
                out.push((f, None));
            },
            JsonValue::String(s) => {
                out.push((value_entry(s), None));
            },
            _ => {},
        }
        proof {
            assert(parts_view(out@) =~= spec_response_list(orig.take(k + 1)));
            k = k + 1;
        }
    }
    assert(orig.take(k) =~= orig);
    out
}

/// The configurations of the response messages, each with its metadata (see
/// `spec_response_part`).
pub fn response_part(config: Vec<(String, JsonValue)>, service_part: &str) -> (r: Vec<(Vec<(String, JsonValue)>, Option<JsonValue>)>)
    ensures
        parts_view(r@) == spec_response_part(config@, service_part@),
{
    let mut out: Vec<(Vec<(String, JsonValue)>, Option<JsonValue>)> = Vec::new();
    let ghost c = config@;
    proof {
        reveal_strlit("response");
        reveal_strlit("responseMetadata");
        lemma_find_key(c, "response"@);
        lemma_find_key(c, "responseMetadata"@);
    }
    if is_key(service_part, "response") {
        out.push((config, None));
        assert(parts_view(out@) =~= spec_response_part(c, service_part@));
        return out;
    }
    let len = config.len();
    let response = find_key(&config, "response");
    let metadata = find_key(&config, "responseMetadata");
    assert(c.len() == len);
    let mut config = config;
    match response {
        Some(i) => {
            let ghost mdv = spec_entry_value(c, "responseMetadata"@);
            assert(spec_find_key(c, "response"@) == Some(i as int));
            assert(c[i as int].0@ == "response"@);
            let (md, v) = match metadata {
                Some(j) => if j == i {
                    proof {
                        assert(c[i as int].0@ == "response"@);
                        assert(c[j as int].0@ == "responseMetadata"@);
                        assert("response"@.len() == 8);
                        assert("responseMetadata"@.len() == 16);
                        assert(false);
                    }
                    let (_, v) = config.remove(i);
                    (None, v)
                } else if j > i {
                    let (_, m) = config.remove(j);
                    let (_, v) = config.remove(i);
                    (Some(m), v)
                } else {
                    let (_, v) = config.remove(i);
                    let (_, m) = config.remove(j);
                    (Some(m), v)
                },
                None => {
                    let (_, v) = config.remove(i);
                    (None, v)
                },
            };
            assert(v == c[i as int].1);
            assert(md == mdv);
            assert(service_part@ != "response"@);
            match v {
                JsonValue::Object(f) => {
                    out.push((f, md));
                    assert(parts_view(out@) =~= seq![(entries_view(f@), mdv)]);
                },
                JsonValue::Array(l) => {
                    out = response_list(l);
                },
                JsonValue::String(s) => {
                    out.push((value_entry(s), None));
                    assert(parts_view(out@) =~= seq![(seq![("value"@, JsonValue::String(s))], None::<JsonValue>)]);
                },
                _ => {
                    assert(parts_view(out@) =~= Seq::<(Seq<(Seq<char>, JsonValue)>, Option<JsonValue>)>::empty());
                },
            }
            out
        },
        None => {
            assert(service_part@ != "response"@);
            match metadata {
                Some(j) => {
                    let (_, m) = config.remove(j);
                    assert(m == c[j as int].1);
                    let empty: Vec<(String, JsonValue)> = Vec::new();
                    out.push((empty, Some(m)));
                    assert(entries_view(empty@) =~= Seq::<(Seq<char>, JsonValue)>::empty());
                    assert(parts_view(out@) =~= seq![(Seq::<(Seq<char>, JsonValue)>::empty(), Some(m))]);
                },
                None => {
                    assert(parts_view(out@) =~= Seq::<(Seq<(Seq<char>, JsonValue)>, Option<JsonValue>)>::empty());
                },
            }
            out
        },
    }
}

} // verus!
