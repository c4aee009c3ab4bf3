//! Reading a description: JSON text is decoded, OAS 3.1 type-arrays are
//! downgraded, and the result is decoded into the OpenAPI 3.0 model.

use vstd::prelude::*;
use crate::assoc::{
    assoc_get, assoc_insert, assoc_lookup, assoc_store, assoc_view, index_of_key, keys_of, lemma_assoc_get_insert_other,
    lemma_assoc_get_insert_same, lemma_index_of_key,
};
use crate::json::{
    height, json_views, lemma_array_view, lemma_get_below, lemma_height_array, lemma_height_object,
    lemma_insert_below, lemma_object_view, values_below, Json, JsonValue,
};
use crate::text::str_eq;
use crate::decode::{json_of_text, openapi_of, openapi_of_json, parse_json};
use crate::openapi::OpenApiSpec;
use crate::resolver::component_names_distinct;
use crate::transform::schemas::{components_distinct, distinct_throughout};
use crate::assoc::{keys_distinct, lemma_assoc_insert_distinct};
use crate::json::{lemma_insert_satisfy, values_satisfy};

verus! {

/// The elements of `a` that are strings, in order.
pub open spec fn string_items(a: Seq<Json>) -> Seq<Seq<char>>
    decreases a.len(),
{
    if a.len() == 0 {
        Seq::empty()
    } else {
        match a.last() {
            Json::Str(s) => string_items(a.drop_last()).push(s),
            _ => string_items(a.drop_last()),
        }
    }
}

/// The elements of `t` other than `x`, in order.
pub open spec fn without(t: Seq<Seq<char>>, x: Seq<char>) -> Seq<Seq<char>>
    decreases t.len(),
{
    if t.len() == 0 {
        Seq::empty()
    } else if t.last() == x {
        without(t.drop_last(), x)
    } else {
        without(t.drop_last(), x).push(t.last())
    }
}

/// An OAS 3.1 `"type": [..]` naming exactly one type besides `"null"` becomes
/// that single type, plus `"nullable": true` when `"null"` was listed.
pub open spec fn fix_type(o: Seq<(Seq<char>, Json)>) -> Seq<(Seq<char>, Json)> {
    match assoc_get(o, "type"@) {
        Some(Json::Array(a)) => {
            let types = string_items(a);
            let non_null = without(types, "null"@);
            if non_null.len() == 1 {
                let o1 = assoc_insert(o, "type"@, Json::Str(non_null[0]));
                if types.contains("null"@) {
                    assoc_insert(o1, "nullable"@, Json::Bool(true))
                } else {
                    o1
                }
            } else {
                o
            }
        },
        _ => o,
    }
}

pub proof fn lemma_fix_type_below(o: Seq<(Seq<char>, Json)>)
    ensures
        values_below(fix_type(o), height(Json::Object(o))),
{
    let h = height(Json::Object(o));
    assert forall|i: int| 0 <= i < o.len() implies #[trigger] height(o[i].1) < h by {
        lemma_height_object(o, i);
    }
    if let Some(Json::Array(a)) = assoc_get(o, "type"@) {
        let types = string_items(a);
        let non_null = without(types, "null"@);
        if non_null.len() == 1 {
            lemma_insert_below(o, "type"@, Json::Str(non_null[0]), h);
            let o1 = assoc_insert(o, "type"@, Json::Str(non_null[0]));
            lemma_insert_below(o1, "nullable"@, Json::Bool(true), h);
        }
    }
}

/// The value with every object's 3.1-style type-array downgraded, at every depth.
pub open spec fn downgraded(v: Json) -> Json
    decreases height(v),
{
    match v {
        Json::Object(o) => {
            let f = fix_type(o);
            proof {
                lemma_fix_type_below(o);
            }
            Json::Object(
                Seq::new(
                    f.len(),
                    |i: int|
                        if 0 <= i < f.len() {
                            (f[i].0, downgraded(f[i].1))
                        } else {
                            (Seq::empty(), Json::Null)
                        },
                ),
            )
        },
        Json::Array(a) => {
            proof {
                assert forall|i: int| 0 <= i < a.len() implies height(a[i]) < height(v) by {
                    lemma_height_array(a, i);
                }
            }
            Json::Array(Seq::new(a.len(), |i: int| if 0 <= i < a.len() { downgraded(a[i]) } else { Json::Null }))
        },
        _ => v,
    }
}

/// The single non-null type named by a type-array, and whether `"null"` was listed.
fn single_type(arr: &Vec<JsonValue>) -> (r: Option<(String, bool)>)
    ensures
        ({
            let types = string_items(json_views(arr@));
            let non_null = without(types, "null"@);
            match r {
                Some((t, has_null)) => non_null.len() == 1 && t@ == non_null[0] && has_null == types.contains("null"@),
                None => non_null.len() != 1,
            }
        }),
{
    let ghost va = json_views(arr@);
    let n = arr.len();
    let mut count: usize = 0;
    let mut first: Option<&str> = None;
    let mut has_null = false;
    for i in 0..n
        invariant
            n == arr@.len(),
            va == json_views(arr@),
            count <= i,
            count == without(string_items(va.take(i as int)), "null"@).len(),
            count >= 1 ==> first is Some && first->0@ == without(string_items(va.take(i as int)), "null"@)[0],
            has_null == string_items(va.take(i as int)).contains("null"@),
    {
        let ghost types = string_items(va.take(i as int));
        proof {
            assert(va.take(i + 1).drop_last() =~= va.take(i as int));
            assert(va.take(i + 1).last() == arr@[i as int]@);
        }
        if let Some(s) = arr[i].as_str() {
            proof {
                let t2 = types.push(s@);
                assert(string_items(va.take(i + 1)) == t2);
                assert(t2.drop_last() =~= types);
                assert(t2.contains("null"@) == (types.contains("null"@) || s@ == "null"@)) by {
                    if s@ == "null"@ {
                        assert(t2[types.len() as int] == "null"@);
                    }
                    if t2.contains("null"@) && s@ != "null"@ {
                        let k = choose|k: int| 0 <= k < t2.len() && t2[k] == "null"@;
                        assert(types[k] == "null"@);
                    }
                }
            }
            if str_eq(s, "null") {
                has_null = true;
            } else {
                if count == 0 {
                    first = Some(s);
                }
                count = count + 1;
            }
        }
    }
    assert(va.take(n as int) =~= va);
    if count == 1 {
        match first {
            Some(s) => Some((String::from_str(s), has_null)),
            None => None,
        }
    } else {
        None
    }
}

fn fix_type_exec(map: &mut Vec<(String, JsonValue)>)
    ensures
        assoc_view(final(map)@) == fix_type(assoc_view(old(map)@)),
{
    let found = match assoc_lookup(map, "type") {
        Some(JsonValue::Array(arr)) => {
            proof {
                lemma_array_view(*arr);
            }
            single_type(arr)
        },
        _ => None,
    };
    if let Some((t, has_null)) = found {
        assoc_store(map, String::from_str("type"), JsonValue::Str(t));
        if has_null {
            assoc_store(map, String::from_str("nullable"), JsonValue::Bool(true));
        }
    }
}

fn downgrade_owned(value: JsonValue) -> (r: JsonValue)
    ensures
        r@ == downgraded(value@),
    decreases height(value@),
{
    let ghost v0 = value@;
    match value {
        JsonValue::Object(mut map) => {
            proof {
                lemma_object_view(map);
            }
            let ghost o = assoc_view(map@);
            fix_type_exec(&mut map);
            let ghost f = assoc_view(map@);
            proof {
                lemma_fix_type_below(o);
            }
            let ghost entries = map@;
            let mut out: Vec<(String, JsonValue)> = Vec::new();
            for e in it: map.into_iter()
                invariant
                    it.seq() == entries,
                    f == assoc_view(entries),
                    f == fix_type(o),
                    v0 == Json::Object(o),
                    v0 == value@,
                    values_below(f, height(v0)),
                    out@.len() == it.index(),
                    forall|j: int| 0 <= j < out@.len() ==> #[trigger] out@[j].0@ == f[j].0
                        && out@[j].1@ == downgraded(f[j].1),
            {
                let ghost i = it.index() as int;
                proof {
                    assert(e == entries[i]);
                    assert(f[i] == (e.0@, e.1@));
                    assert(height(f[i].1) < height(v0));
                }
                let ghost before = out@;
                let converted = downgrade_owned(e.1);
                out.push((e.0, converted));
                proof {
                    assert forall|j: int| 0 <= j < out@.len() implies #[trigger] out@[j].0@ == f[j].0
                        && out@[j].1@ == downgraded(f[j].1) by {
                        if j < i {
                            assert(out@[j] == before[j]);
                        }
                    }
                }
            }
            proof {
                lemma_object_view(out);
                if let Json::Object(s) = downgraded(v0) {
                    assert(assoc_view(out@) =~= s);
                }
            }
            JsonValue::Object(out)
        },
        JsonValue::Array(arr) => {
            proof {
                lemma_array_view(arr);
            }
            let ghost a = json_views(arr@);
            let ghost elems = arr@;
            let mut out: Vec<JsonValue> = Vec::new();
            for e in it: arr.into_iter()
                invariant
                    it.seq() == elems,
                    a == json_views(elems),
                    v0 == Json::Array(a),
                    v0 == value@,
                    out@.len() == it.index(),
                    forall|j: int| 0 <= j < out@.len() ==> #[trigger] out@[j]@ == downgraded(a[j]),
            {
                let ghost i = it.index() as int;
                proof {
                    assert(e == elems[i]);
                    assert(a[i] == e@);
                    lemma_height_array(a, i);
                }
                let converted = downgrade_owned(e);
                out.push(converted);
            }
            proof {
                lemma_array_view(out);
                if let Json::Array(s) = downgraded(v0) {
                    assert(json_views(out@) =~= s);
                }
            }
            JsonValue::Array(out)
        },
        other => other,
    }
}

/// Walks the JSON tree and converts OAS 3.1 type-arrays to OAS 3.0 form:
/// `"type": ["string", "null"]` becomes `"type": "string", "nullable": true`.
pub fn downgrade_oas31_types(value: &mut JsonValue)
    ensures
        final(value)@ == downgraded(old(value)@),
{
    let mut taken = JsonValue::Null;
    std::mem::swap(&mut taken, value);
    *value = downgrade_owned(taken);
}


/// The downgraded object has the keys of the fixed one, each with its value downgraded.
proof fn lemma_downgraded_get(o: Seq<(Seq<char>, Json)>, k: Seq<char>)
    ensures
        downgraded(Json::Object(o)) matches Json::Object(d) && assoc_get(d, k) == match assoc_get(fix_type(o), k) {
            Some(v) => Some(downgraded(v)),
            None => None,
        },
{
    let f = fix_type(o);
    if let Json::Object(d) = downgraded(Json::Object(o)) {
        assert(keys_of(d) =~= keys_of(f));
        lemma_index_of_key(keys_of(f), k);
    }
}

/// A type-array naming one type besides `"null"` becomes that single type, with
/// `"nullable": true` when `"null"` was listed and `"nullable"` untouched otherwise.
pub proof fn law_type_array_downgraded(o: Seq<(Seq<char>, Json)>, a: Seq<Json>)
    requires
        assoc_get(o, "type"@) == Some(Json::Array(a)),
        without(string_items(a), "null"@).len() == 1,
    ensures
        downgraded(Json::Object(o)) matches Json::Object(d)
            && assoc_get(d, "type"@) == Some(Json::Str(without(string_items(a), "null"@)[0]))
            && assoc_get(d, "nullable"@) == if string_items(a).contains("null"@) {
            Some(Json::Bool(true))
        } else {
            match assoc_get(o, "nullable"@) {
                Some(v) => Some(downgraded(v)),
                None => None,
            }
        },
{
    let t = Json::Str(without(string_items(a), "null"@)[0]);
    let o1 = assoc_insert(o, "type"@, t);
    reveal_strlit("type");
    reveal_strlit("nullable");
    assert("type"@.len() != "nullable"@.len());
    lemma_assoc_get_insert_same(o, "type"@, t);
    lemma_assoc_get_insert_other(o, "type"@, t, "nullable"@);
    lemma_assoc_get_insert_same(o1, "nullable"@, Json::Bool(true));
    lemma_assoc_get_insert_other(o1, "nullable"@, Json::Bool(true), "type"@);
    lemma_downgraded_get(o, "type"@);
    lemma_downgraded_get(o, "nullable"@);
}


/// Why a description could not be read.
#[derive(Debug)]
pub enum ParseError {
    /// The text is not JSON.
    Json(serde_json::Error),
    /// The JSON is not an OpenAPI 3.0 description (after the downgrade).
    Model(serde_json::Error),
}

/// Decodes JSON text and downgrades its OAS 3.1 type-arrays.
pub fn parse_description(text: &str) -> (r: Result<JsonValue, serde_json::Error>)
    ensures
        match r {
            Ok(v) => json_of_text(text@) matches Some(j) && v@ == downgraded(j) && distinct_throughout(v@),
            Err(_) => json_of_text(text@) is None,
        },
{
    let mut value = parse_json(text)?;
    proof {
        law_downgrade_keeps_distinct_keys(value@);
    }
    downgrade_oas31_types(&mut value);
    Ok(value)
}

/// Parses an OpenAPI 3.x JSON description. OAS 3.1 type-arrays (e.g.
/// `"type": ["string", "null"]`) are converted to the OAS 3.0 form first, so
/// that the 3.0 model accepts the description.
pub fn parse_openapi(text: &str) -> (r: Result<OpenApiSpec, ParseError>)
    ensures
        match r {
            Ok(s) => json_of_text(text@) matches Some(j) && openapi_of(downgraded(j)) == Some(s) && components_distinct(s)
                && component_names_distinct(s),
            Err(ParseError::Json(_)) => json_of_text(text@) is None,
            Err(ParseError::Model(_)) => json_of_text(text@) matches Some(j) && openapi_of(downgraded(j)) is None,
        },
{
    let value = match parse_description(text) {
        Ok(v) => v,
        Err(e) => {
            return Err(ParseError::Json(e));
        },
    };
    match openapi_of_json(&value) {
        Ok(s) => Ok(s),
        Err(e) => Err(ParseError::Model(e)),
    }
}


/// The downgrade keeps the keys of every object distinct, at every depth.
pub proof fn law_downgrade_keeps_distinct_keys(v: Json)
    requires
        distinct_throughout(v),
    ensures
        distinct_throughout(downgraded(v)),
    decreases height(v),
{
    match v {
        Json::Object(o) => {
            let dt = |j: Json| distinct_throughout(j);
            let f = fix_type(o);
            lemma_fix_type_below(o);
            assert(values_satisfy(o, dt));
            if let Some(Json::Array(a)) = assoc_get(o, "type"@) {
                let non_null = without(string_items(a), "null"@);
                if non_null.len() == 1 {
                    let o1 = assoc_insert(o, "type"@, Json::Str(non_null[0]));
                    lemma_assoc_insert_distinct(o, "type"@, Json::Str(non_null[0]));
                    lemma_insert_satisfy(o, "type"@, Json::Str(non_null[0]), dt);
                    lemma_assoc_insert_distinct(o1, "nullable"@, Json::Bool(true));
                    lemma_insert_satisfy(o1, "nullable"@, Json::Bool(true), dt);
                }
            }
            assert(keys_distinct(keys_of(f)));
            assert(values_satisfy(f, dt));
            if let Json::Object(d) = downgraded(v) {
                assert(keys_of(d) =~= keys_of(f));
                assert forall|i: int| 0 <= i < d.len() implies distinct_throughout(#[trigger] d[i].1) by {
                    assert(d[i].1 == downgraded(f[i].1));
                    assert(dt(f[i].1));
                    assert(height(f[i].1) < height(v));
                    law_downgrade_keeps_distinct_keys(f[i].1);
                }
            }
        },
        Json::Array(a) => {
            if let Json::Array(b) = downgraded(v) {
                assert forall|i: int| 0 <= i < b.len() implies distinct_throughout(#[trigger] b[i]) by {
                    lemma_height_array(a, i);
                    law_downgrade_keeps_distinct_keys(a[i]);
                }
            }
        },
        _ => {},
    }
}


/// An object whose `"type"` is an array naming exactly one type besides `"null"`.
pub open spec fn has_reducible_type(o: Seq<(Seq<char>, Json)>) -> bool {
    assoc_get(o, "type"@) matches Some(Json::Array(a)) && without(string_items(a), "null"@).len() == 1
}

/// No object, at any depth, still has a reducible type-array.
pub open spec fn no_reducible_type(j: Json) -> bool
    decreases j,
{
    match j {
        Json::Object(o) => !has_reducible_type(o) && forall|i: int|
            #![trigger o[i]]
            0 <= i < o.len() ==> no_reducible_type(o[i].1),
        Json::Array(a) => forall|i: int| #![trigger a[i]] 0 <= i < a.len() ==> no_reducible_type(a[i]),
        _ => true,
    }
}

proof fn lemma_string_items_downgraded(a: Seq<Json>)
    ensures
        downgraded(Json::Array(a)) matches Json::Array(b) && string_items(b) == string_items(a),
    decreases a.len(),
{
    if a.len() > 0 {
        let d = a.drop_last();
        lemma_string_items_downgraded(d);
        if let Json::Array(b) = downgraded(Json::Array(a)) {
            if let Json::Array(bd) = downgraded(Json::Array(d)) {
                assert(b.drop_last() =~= bd);
                assert(b.last() == downgraded(a.last()));
            }
        }
    } else {
        if let Json::Array(b) = downgraded(Json::Array(a)) {
            assert(b.len() == 0);
        }
    }
}

/// The downgrade leaves every key other than `"type"` and `"nullable"` with its
/// value downgraded, and leaves an object without a reducible type-array with
/// every value downgraded and nothing else changed.
pub proof fn law_downgrade_keeps_other_keys(o: Seq<(Seq<char>, Json)>, k: Seq<char>)
    ensures
        (k != "type"@ && k != "nullable"@ || !has_reducible_type(o)) ==> (downgraded(Json::Object(o)) matches Json::Object(d)
            && assoc_get(d, k) == match assoc_get(o, k) {
            Some(v) => Some(downgraded(v)),
            None => None,
        }),
{
    lemma_downgraded_get(o, k);
    if let Some(Json::Array(a)) = assoc_get(o, "type"@) {
        let non_null = without(string_items(a), "null"@);
        if non_null.len() == 1 && k != "type"@ && k != "nullable"@ {
            let o1 = assoc_insert(o, "type"@, Json::Str(non_null[0]));
            lemma_assoc_get_insert_other(o, "type"@, Json::Str(non_null[0]), k);
            lemma_assoc_get_insert_other(o1, "nullable"@, Json::Bool(true), k);
        }
    }
}

/// After the downgrade no object, at any depth, has a type-array naming exactly
/// one type besides `"null"`; arrays naming none or several are kept.
pub proof fn law_downgrade_reduces_every_type_array(v: Json)
    ensures
        no_reducible_type(downgraded(v)),
    decreases height(v),
{
    match v {
        Json::Object(o) => {
            let f = fix_type(o);
            lemma_fix_type_below(o);
            reveal_strlit("type");
            reveal_strlit("nullable");
            assert("type"@.len() != "nullable"@.len());
            if let Json::Object(d) = downgraded(v) {
                lemma_downgraded_get(o, "type"@);
                if let Some(Json::Array(a)) = assoc_get(o, "type"@) {
                    let non_null = without(string_items(a), "null"@);
                    if non_null.len() == 1 {
                        let t = Json::Str(non_null[0]);
                        let o1 = assoc_insert(o, "type"@, t);
                        lemma_assoc_get_insert_same(o, "type"@, t);
                        lemma_assoc_get_insert_other(o1, "nullable"@, Json::Bool(true), "type"@);
                    } else {
                        lemma_string_items_downgraded(a);
                        assert(f == o);
                        assert(assoc_get(d, "type"@) == Some(downgraded(Json::Array(a))));
                    }
                } else {
                    assert(f == o);
                    if let Some(x) = assoc_get(o, "type"@) {
                        assert(assoc_get(d, "type"@) == Some(downgraded(x)));
                        assert(!(downgraded(x) is Array));
                    }
                }
                assert(!has_reducible_type(d));
                assert forall|i: int| 0 <= i < d.len() implies no_reducible_type(#[trigger] d[i].1) by {
                    assert(d[i].1 == downgraded(f[i].1));
                    assert(height(f[i].1) < height(v));
                    law_downgrade_reduces_every_type_array(f[i].1);
                }
            }
        },
        Json::Array(a) => {
            if let Json::Array(b) = downgraded(v) {
                assert forall|i: int| 0 <= i < b.len() implies no_reducible_type(#[trigger] b[i]) by {
                    lemma_height_array(a, i);
                    law_downgrade_reduces_every_type_array(a[i]);
                }
            }
        },
        _ => {},
    }
}

} // verus!
