use vstd::prelude::*;
use vstd::string::StringExecFns;

verus! {

/// A JSON value, as the library models the structured data embedded in a
/// post page. Numbers are kept opaque: the resolver never reads one.
pub enum Json {
    Null,
    Bool(bool),
    Num,
    Str(String),
    Arr(Vec<Json>),
    Obj(Vec<(String, Json)>),
}

/// The JSON value that a text parses to, if any: the name for what
/// `serde_json::from_str` returns on that text.
pub uninterp spec fn json_parse(s: Seq<char>) -> Option<Json>;

/// Relies on `serde_json::from_str::<Value>`: parses the text as JSON,
/// deterministically, as a function of the text alone; `None` exactly
/// when the text is not valid JSON. The parsed value is rebuilt as the
/// library's own `Json` by `json_of_value`.
#[verifier::external_body]
pub fn parse_json(s: &str) -> (r: Option<Json>)
    ensures
        r == json_parse(s@),
{
    serde_json::from_str::<serde_json::Value>(s).ok().map(json_of_value)
}

/// `serde_json::Value` declared for Verus, opaquely: it only passes
/// through `json_of_value` below.
#[verifier::external_type_specification]
#[verifier::external_body]
pub struct ExValue(serde_json::Value);

/// Relies on `serde_json::Value`: moves each variant of the parsed value
/// into the library's `Json`, field for field; object fields keep the
/// parser's deterministic, key-sorted, duplicate-free order.
#[verifier::external_body]
fn json_of_value(v: serde_json::Value) -> Json {
    match v {
        serde_json::Value::Null => Json::Null,
        serde_json::Value::Bool(b) => Json::Bool(b),
        serde_json::Value::Number(_) => Json::Num,
        serde_json::Value::String(s) => Json::Str(s),
        serde_json::Value::Array(a) => Json::Arr(a.into_iter().map(json_of_value).collect()),
        serde_json::Value::Object(m) => Json::Obj(
            m.into_iter().map(|(k, x)| (k, json_of_value(x))).collect(),
        ),
    }
}

/// The first field with the given name among an object's fields; the
/// parser keeps keys unique, so this is the lookup.
pub open spec fn obj_get(fields: Seq<(String, Json)>, key: Seq<char>) -> Option<Json>
    decreases fields.len(),
{
    if fields.len() == 0 {
        None
    } else if fields[0].0@ == key {
        Some(fields[0].1)
    } else {
        obj_get(fields.drop_first(), key)
    }
}

/// Field lookup on a JSON value: `None` when the value is not an object
/// or has no such field.
pub open spec fn json_get(j: Json, key: Seq<char>) -> Option<Json> {
    match j {
        Json::Obj(fields) => obj_get(fields@, key),
        _ => None,
    }
}

/// The character content of a JSON string value, `None` for any other
/// variant.
pub open spec fn json_as_str(j: Json) -> Option<Seq<char>> {
    match j {
        Json::Str(s) => Some(s@),
        _ => None,
    }
}

/// Looks a field up on a JSON value.
pub fn get_field<'a>(j: &'a Json, key: &String) -> (r: Option<&'a Json>)
    ensures
        match r {
            Some(v) => json_get(*j, key@) == Some(*v),
            None => json_get(*j, key@) is None,
        },
{
    match j {
        Json::Obj(fields) => {
            proof {
                assert(fields@.skip(0) =~= fields@);
            }
            let mut i: usize = 0;
            while i < fields.len()
                invariant
                    i <= fields@.len(),
                    json_get(*j, key@) == obj_get(fields@, key@),
                    obj_get(fields@, key@) == obj_get(fields@.skip(i as int), key@),
                decreases fields@.len() - i,
            {
                if fields[i].0 == *key {
                    proof {
                        assert(fields@.skip(i as int)[0] == fields@[i as int]);
                    }
                    return Some(&fields[i].1);
                }
                proof {
                    assert(fields@.skip(i as int)[0] == fields@[i as int]);
                    assert(fields@.skip(i as int).drop_first() =~= fields@.skip(i as int + 1));
                }
                i = i + 1;
            }
            proof {
                assert(fields@.skip(fields@.len() as int).len() == 0);
            }
            None
        },
        _ => None,
    }
}

/// The string inside a JSON string value.
pub fn as_str_value<'a>(j: &'a Json) -> (r: Option<&'a String>)
    ensures
        match r {
            Some(s) => json_as_str(*j) == Some(s@),
            None => json_as_str(*j) is None,
        },
{
    match j {
        Json::Str(s) => Some(s),
        _ => None,
    }
}

/// The string elements of a JSON array, in order; other elements are
/// passed over.
pub open spec fn str_elems(a: Seq<Json>) -> Seq<Seq<char>>
    decreases a.len(),
{
    if a.len() == 0 {
        Seq::<Seq<char>>::empty()
    } else {
        let rest = str_elems(a.drop_first());
        match a[0] {
            Json::Str(s) => seq![s@] + rest,
            _ => rest,
        }
    }
}

/// Collects the string elements of a JSON array.
pub fn collect_str_elems(a: &Vec<Json>) -> (r: Vec<String>)
    ensures
        crate::naming::name_views(r@) == str_elems(a@),
{
    let mut r: Vec<String> = Vec::new();
    proof {
        assert(a@.skip(0) =~= a@);
        assert(crate::naming::name_views(r@) + str_elems(a@) =~= str_elems(a@));
    }
    let mut i: usize = 0;
    while i < a.len()
        invariant
            i <= a@.len(),
            crate::naming::name_views(r@) + str_elems(a@.skip(i as int)) == str_elems(a@),
        decreases a@.len() - i,
    {
        proof {
            assert(a@.skip(i as int)[0] == a@[i as int]);
            assert(a@.skip(i as int).drop_first() =~= a@.skip(i as int + 1));
        }
        match &a[i] {
            Json::Str(s) => {
                let c = s.clone();
                r.push(c);
                proof {
                    assert(crate::naming::name_views(r@) =~= crate::naming::name_views(
                        r@.drop_last(),
                    ).push(s@));
                    assert(crate::naming::name_views(r@) + str_elems(a@.skip(i as int + 1))
                        =~= str_elems(a@));
                }
            },
            _ => {},
        }
        i = i + 1;
    }
    proof {
        assert(a@.skip(a@.len() as int).len() == 0);
        assert(crate::naming::name_views(r@) + str_elems(a@.skip(a@.len() as int)) =~= crate::naming::name_views(r@));
    }
    r
}

} // verus!
