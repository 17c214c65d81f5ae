//! Structured embedded-state values.
//!
//! Pages carry serialized application data whose shape changes across
//! deployments, so the crate works over its own tagged value type
//! (object / array / scalar) and walks it generically. Parsing a text
//! into that tree is `serde_json`'s job, behind a trusted item; every
//! walk over the tree is verified.

use vstd::prelude::*;

use crate::text::chars_eq;
use crate::text::str_to_chars;

verus! {

/// A structured value recovered from embedded page state. Numbers keep
/// their source spelling: no strategy reads them as numbers.
pub enum JsonValue {
    Null,
    Bool(bool),
    Number(String),
    Text(String),
    Array(Vec<JsonValue>),
    Object(Vec<(String, JsonValue)>),
}

#[verifier::external_type_specification]
#[verifier::external_body]
pub struct ExSerdeValue(serde_json::Value);

/// Whether a text parses as a structured document, and the tree it parses
/// to: a function of the text alone.
pub uninterp spec fn parsed_json(s: Seq<char>) -> Option<JsonValue>;

/// Relies on serde_json's `Value` accessors: translates the parsed tree
/// into the crate's tagged value type, variant by variant, keeping member
/// order as serde_json returns it.
#[verifier::external_body]
fn convert_json(v: &serde_json::Value) -> JsonValue {
    match v {
        serde_json::Value::Null => JsonValue::Null,
        serde_json::Value::Bool(b) => JsonValue::Bool(*b),
        serde_json::Value::Number(n) => JsonValue::Number(n.to_string()),
        serde_json::Value::String(s) => JsonValue::Text(s.clone()),
        serde_json::Value::Array(a) => JsonValue::Array(a.iter().map(convert_json).collect()),
        serde_json::Value::Object(o) => JsonValue::Object(
            o.iter().map(|(k, w)| (k.clone(), convert_json(w))).collect(),
        ),
    }
}

/// Relies on serde_json's `from_str::<Value>`: parsing is deterministic,
/// so success and the resulting tree are a function of the text alone;
/// a text that is not a JSON document gives `Err`, returned here as `None`.
#[verifier::external_body]
pub fn parse_json(s: &str) -> (r: Option<JsonValue>)
    ensures
        r == parsed_json(s@),
{
    match serde_json::from_str::<serde_json::Value>(s) {
        Ok(v) => Some(convert_json(&v)),
        Err(_) => None,
    }
}

/// The first member of `fields` whose key reads `key`.
pub open spec fn field_lookup(fields: Seq<(String, JsonValue)>, key: Seq<char>) -> Option<
    JsonValue,
>
    decreases fields.len(),
{
    if fields.len() == 0 {
        None
    } else if fields[0].0@ == key {
        Some(fields[0].1)
    } else {
        field_lookup(fields.subrange(1, fields.len() as int), key)
    }
}

/// The member named `key` of an object value; `None` on any other value.
pub open spec fn json_get_spec(v: JsonValue, key: Seq<char>) -> Option<JsonValue> {
    match v {
        JsonValue::Object(fields) => field_lookup(fields@, key),
        _ => None,
    }
}

/// The characters of a string scalar; `None` on any other value.
pub open spec fn json_text_spec(v: JsonValue) -> Option<Seq<char>> {
    match v {
        JsonValue::Text(s) => Some(s@),
        _ => None,
    }
}

/// Executable mirror of [`json_get_spec`].
pub fn json_get<'a>(v: &'a JsonValue, key: &Vec<char>) -> (r: Option<&'a JsonValue>)
    ensures
        match r {
            Some(f) => json_get_spec(*v, key@) == Some(*f),
            None => json_get_spec(*v, key@) is None,
        },
{
    match v {
        JsonValue::Object(fields) => {
            let ghost all = fields@;
            let mut i: usize = 0;
            proof {
                assert(all.subrange(0, all.len() as int) =~= all);
            }
            while i < fields.len()
                invariant
                    0 <= i <= all.len(),
                    all == fields@,
                    json_get_spec(*v, key@) == field_lookup(all, key@),
                    field_lookup(all, key@) == field_lookup(
                        all.subrange(i as int, all.len() as int),
                        key@,
                    ),
                decreases all.len() - i,
            {
                let ghost pending = all.subrange(i as int, all.len() as int);
                proof {
                    assert(pending[0] == all[i as int]);
                    assert(pending.subrange(1, pending.len() as int) =~= all.subrange(
                        i + 1,
                        all.len() as int,
                    ));
                }
                let fkey = str_to_chars(fields[i].0.as_str());
                if chars_eq(&fkey, key) {
                    assert(field_lookup(pending, key@) == Some(pending[0].1));
                    return Some(&fields[i].1);
                }
                i = i + 1;
            }
            proof {
                assert(all.subrange(all.len() as int, all.len() as int) =~= Seq::<(
                    String,
                    JsonValue,
                )>::empty());
            }
            None
        },
        _ => None,
    }
}

/// Executable mirror of [`json_text_spec`]; clones the scalar out.
pub fn json_text(v: &JsonValue) -> (r: Option<String>)
    ensures
        match r {
            Some(s) => json_text_spec(*v) == Some(s@),
            None => json_text_spec(*v) is None,
        },
{
    match v {
        JsonValue::Text(s) => Some(s.clone()),
        _ => None,
    }
}

/// The value a member path leads to, descending one named member at a time.
pub open spec fn navigate_path_spec(v: JsonValue, path: Seq<Seq<char>>) -> Option<JsonValue>
    decreases path.len(),
{
    if path.len() == 0 {
        Some(v)
    } else {
        match json_get_spec(v, path[0]) {
            Some(next) => navigate_path_spec(next, path.subrange(1, path.len() as int)),
            None => None,
        }
    }
}

/// Executable mirror of [`navigate_path_spec`]: follows a fixed list of
/// member names into the tree.
pub fn navigate_json_path<'a>(v: &'a JsonValue, path: &Vec<Vec<char>>) -> (r: Option<
    &'a JsonValue,
>)
    ensures
        match r {
            Some(f) => navigate_path_spec(*v, path@.map_values(|p: Vec<char>| p@)) == Some(*f),
            None => navigate_path_spec(*v, path@.map_values(|p: Vec<char>| p@)) is None,
        },
{
    let ghost m = path@.map_values(|p: Vec<char>| p@);
    proof {
        assert(m.subrange(0, m.len() as int) =~= m);
    }
    let mut cur: &'a JsonValue = v;
    let mut i: usize = 0;
    while i < path.len()
        invariant
            0 <= i <= m.len(),
            m == path@.map_values(|p: Vec<char>| p@),
            navigate_path_spec(*v, m) == navigate_path_spec(
                *cur,
                m.subrange(i as int, m.len() as int),
            ),
        decreases m.len() - i,
    {
        let ghost pending = m.subrange(i as int, m.len() as int);
        proof {
            assert(pending[0] == m[i as int]);
            assert(pending.subrange(1, pending.len() as int) =~= m.subrange(
                i + 1,
                m.len() as int,
            ));
        }
        match json_get(cur, &path[i]) {
            Some(next) => {
                cur = next;
            },
            None => {
                return None;
            },
        }
        i = i + 1;
    }
    proof {
        assert(m.subrange(m.len() as int, m.len() as int) =~= Seq::<Seq<char>>::empty());
    }
    Some(cur)
}

} // verus!
