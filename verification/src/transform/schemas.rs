//! SchemaObject rewriting: OpenAPI component schemas as Discovery schemas.

use vstd::prelude::*;
use crate::assoc::{
    keys_distinct, lemma_assoc_get_insert_same, lemma_assoc_get_insert_other, lemma_assoc_get_remove_other, lemma_assoc_get_remove_same,
    lemma_assoc_insert_distinct, assoc_remove_all, lemma_assoc_remove_all_entries, lemma_assoc_get_remove_all,
    lemma_assoc_remove_all_absent, lemma_assoc_get_push, lemma_assoc_get_insert_missing, assoc_get, assoc_insert, assoc_insert_missing, assoc_remove, assoc_view, assoc_lookup,
    assoc_store, assoc_store_missing, assoc_take, find_key, keys_of, exec_keys,
    index_of_key, lemma_index_of_key, lemma_assoc_view_keys, lemma_index_of_exec_key,
};
use crate::json::{
    height, json_views, lemma_array_view, lemma_get_below, lemma_height_array, lemma_height_object,
    lemma_insert_below, lemma_object_view, lemma_remove_below, values_below, Json, JsonValue,
    hereditary, lemma_get_satisfy, lemma_insert_satisfy, lemma_remove_satisfy, values_satisfy,
};
use crate::openapi::{OpenApiSpec, RefOr, SchemaObject};
use crate::text::{str_eq, str_views, strip_prefix};

verus! {

// ---------------------------------------------------------------------------
// Specification
// ---------------------------------------------------------------------------

/// A union variant that only admits `null`: an object whose `"type"` is `"null"`.
pub open spec fn is_null_variant(v: Json) -> bool {
    match v {
        Json::Object(o) => assoc_get(o, "type"@) == Some(Json::Str("null"@)),
        _ => false,
    }
}

/// The union variants other than the null-only ones, in order.
pub open spec fn non_null_variants(a: Seq<Json>) -> Seq<Json>
    decreases a.len(),
{
    if a.len() == 0 {
        Seq::empty()
    } else if is_null_variant(a.last()) {
        non_null_variants(a.drop_last())
    } else {
        non_null_variants(a.drop_last()).push(a.last())
    }
}

/// `o` with every entry of `entries` stored, in order (later entries win).
pub open spec fn insert_all(o: Seq<(Seq<char>, Json)>, entries: Seq<(Seq<char>, Json)>) -> Seq<(Seq<char>, Json)>
    decreases entries.len(),
{
    if entries.len() == 0 {
        o
    } else {
        assoc_insert(insert_all(o, entries.drop_last()), entries.last().0, entries.last().1)
    }
}

/// `o` with every entry of `entries` whose key is still absent stored, in order.
pub open spec fn insert_missing_all(o: Seq<(Seq<char>, Json)>, entries: Seq<(Seq<char>, Json)>) -> Seq<(Seq<char>, Json)>
    decreases entries.len(),
{
    if entries.len() == 0 {
        o
    } else {
        assoc_insert_missing(insert_missing_all(o, entries.drop_last()), entries.last().0, entries.last().1)
    }
}

/// A `oneOf`/`anyOf` union with exactly one non-null variant is replaced by that
/// variant: the union key is dropped and the variant's entries (when it is an object)
/// are merged in, overriding existing ones.
pub open spec fn flatten_union(o: Seq<(Seq<char>, Json)>, key: Seq<char>) -> Seq<(Seq<char>, Json)> {
    match assoc_get(o, key) {
        Some(Json::Array(a)) => {
            let refs = non_null_variants(a);
            if refs.len() == 1 {
                let rest = assoc_remove(o, key);
                match refs[0] {
                    Json::Object(inner) => insert_all(rest, inner),
                    _ => rest,
                }
            } else {
                o
            }
        },
        _ => o,
    }
}

/// An `allOf` with a single entry is dropped and that entry's keys that are
/// still absent are merged in.
pub open spec fn flatten_all_of(o: Seq<(Seq<char>, Json)>) -> Seq<(Seq<char>, Json)> {
    match assoc_get(o, "allOf"@) {
        Some(Json::Array(a)) => if a.len() == 1 {
            let rest = assoc_remove(o, "allOf"@);
            match a[0] {
                Json::Object(inner) => insert_missing_all(rest, inner),
                _ => rest,
            }
        } else {
            o
        },
        _ => o,
    }
}

/// The path prefix of references to component schemas.
pub open spec fn components_schemas_prefix() -> Seq<char> {
    "#/components/schemas/"@
}

/// A `$ref` to a component schema is shortened to the schema's name.
pub open spec fn simplify_ref(o: Seq<(Seq<char>, Json)>) -> Seq<(Seq<char>, Json)> {
    match assoc_get(o, "$ref"@) {
        Some(Json::Str(r)) => if components_schemas_prefix().is_prefix_of(r) {
            assoc_insert(o, "$ref"@, Json::Str(r.skip(components_schemas_prefix().len() as int)))
        } else {
            o
        },
        _ => o,
    }
}

/// Keys that exist in OpenAPI schemas but not in Discovery schemas, removed in this order.
pub open spec fn openapi_only_keys() -> Seq<Seq<char>> {
    seq![
        "required"@, "nullable"@, "oneOf"@, "anyOf"@, "allOf"@, "additionalProperties"@,
        "discriminator"@, "readOnly"@, "writeOnly"@, "xml"@, "externalDocs"@, "example"@,
        "deprecated"@, "minLength"@, "maxLength"@, "minimum"@, "maximum"@, "exclusiveMinimum"@,
        "exclusiveMaximum"@, "pattern"@, "minItems"@, "maxItems"@, "uniqueItems"@,
        "minProperties"@, "maxProperties"@,
    ]
}

/// `o` without any entry for any of `keys`, removed one key after the other.
pub open spec fn remove_keys(o: Seq<(Seq<char>, Json)>, keys: Seq<Seq<char>>) -> Seq<(Seq<char>, Json)>
    decreases keys.len(),
{
    if keys.len() == 0 {
        o
    } else {
        assoc_remove_all(remove_keys(o, keys.drop_last()), keys.last())
    }
}

/// The entries of an object once its own level is rewritten (before its values are).
pub open spec fn prepared(o: Seq<(Seq<char>, Json)>) -> Seq<(Seq<char>, Json)> {
    remove_keys(
        simplify_ref(flatten_all_of(flatten_union(flatten_union(o, "oneOf"@), "anyOf"@))),
        openapi_only_keys(),
    )
}

/// An OpenAPI-style schema rewritten into Discovery form, at every depth.
pub open spec fn discovery_schema(v: Json) -> Json
    decreases height(v),
{
    match v {
        Json::Object(o) => {
            let p = prepared(o);
            proof {
                lemma_prepared_below(o);
            }
            Json::Object(
                Seq::new(
                    p.len(),
                    |i: int|
                        if 0 <= i < p.len() {
                            (p[i].0, discovery_schema(p[i].1))
                        } else {
                            (Seq::empty(), Json::Null)
                        },
                ),
            )
        },
        Json::Array(a) => {
            proof {
                assert forall|i: int| 0 <= i < a.len() implies height(a[i]) < height(v) by {
                    lemma_height_array(a, i);
                }
            }
            Json::Array(
                Seq::new(a.len(), |i: int| if 0 <= i < a.len() { discovery_schema(a[i]) } else { Json::Null }),
            )
        },
        _ => v,
    }
}

// ---------------------------------------------------------------------------
// Termination: every value the rewriting recurses into is shallower
// ---------------------------------------------------------------------------

pub proof fn lemma_insert_all_below(o: Seq<(Seq<char>, Json)>, e: Seq<(Seq<char>, Json)>, h: nat)
    requires
        values_below(o, h),
        values_below(e, h),
    ensures
        values_below(insert_all(o, e), h),
        values_below(insert_missing_all(o, e), h),
    decreases e.len(),
{
    if e.len() > 0 {
        assert(values_below(e.drop_last(), h)) by {
            assert forall|i: int| 0 <= i < e.drop_last().len() implies #[trigger] height(e.drop_last()[i].1) < h by {
                assert(e.drop_last()[i] == e[i]);
            }
        }
        lemma_insert_all_below(o, e.drop_last(), h);
        assert(height(e[e.len() - 1].1) < h);
        lemma_insert_below(insert_all(o, e.drop_last()), e.last().0, e.last().1, h);
        lemma_insert_below(insert_missing_all(o, e.drop_last()), e.last().0, e.last().1, h);
    }
}

pub proof fn lemma_non_null_below(a: Seq<Json>, h: nat)
    requires
        forall|i: int| 0 <= i < a.len() ==> #[trigger] height(a[i]) < h,
    ensures
        forall|i: int| 0 <= i < non_null_variants(a).len() ==> #[trigger] height(non_null_variants(a)[i]) < h,
    decreases a.len(),
{
    if a.len() > 0 {
        assert forall|i: int| 0 <= i < a.drop_last().len() implies #[trigger] height(a.drop_last()[i]) < h by {
            assert(a.drop_last()[i] == a[i]);
        }
        lemma_non_null_below(a.drop_last(), h);
        assert(height(a[a.len() - 1]) < h);
        let prev = non_null_variants(a.drop_last());
        assert forall|i: int| 0 <= i < non_null_variants(a).len() implies #[trigger] height(non_null_variants(a)[i]) < h by {
            if i < prev.len() {
                assert(non_null_variants(a)[i] == prev[i]);
            }
        }
    }
}

pub proof fn lemma_flatten_union_below(o: Seq<(Seq<char>, Json)>, key: Seq<char>, h: nat)
    requires
        values_below(o, h),
    ensures
        values_below(flatten_union(o, key), h),
{
    lemma_get_below(o, key, h);
    if let Some(Json::Array(a)) = assoc_get(o, key) {
        let refs = non_null_variants(a);
        if refs.len() == 1 {
            assert forall|i: int| 0 <= i < a.len() implies #[trigger] height(a[i]) < h by {
                lemma_height_array(a, i);
            }
            lemma_non_null_below(a, h);
            lemma_remove_below(o, key, h);
            if let Json::Object(inner) = refs[0] {
                assert(height(refs[0]) < h);
                assert forall|i: int| 0 <= i < inner.len() implies #[trigger] height(inner[i].1) < h by {
                    lemma_height_object(inner, i);
                }
                lemma_insert_all_below(assoc_remove(o, key), inner, h);
            }
        }
    }
}

pub proof fn lemma_flatten_all_of_below(o: Seq<(Seq<char>, Json)>, h: nat)
    requires
        values_below(o, h),
    ensures
        values_below(flatten_all_of(o), h),
{
    lemma_get_below(o, "allOf"@, h);
    if let Some(Json::Array(a)) = assoc_get(o, "allOf"@) {
        if a.len() == 1 {
            lemma_height_array(a, 0);
            lemma_remove_below(o, "allOf"@, h);
            if let Json::Object(inner) = a[0] {
                assert forall|i: int| 0 <= i < inner.len() implies #[trigger] height(inner[i].1) < h by {
                    lemma_height_object(inner, i);
                }
                lemma_insert_all_below(assoc_remove(o, "allOf"@), inner, h);
            }
        }
    }
}

pub proof fn lemma_remove_keys_below(o: Seq<(Seq<char>, Json)>, keys: Seq<Seq<char>>, h: nat)
    requires
        values_below(o, h),
    ensures
        values_below(remove_keys(o, keys), h),
    decreases keys.len(),
{
    if keys.len() > 0 {
        lemma_remove_keys_below(o, keys.drop_last(), h);
        let prev = remove_keys(o, keys.drop_last());
        lemma_assoc_remove_all_entries(prev, keys.last());
        let r = assoc_remove_all(prev, keys.last());
        assert forall|i: int| 0 <= i < r.len() implies #[trigger] height(r[i].1) < h by {
            let j = choose|j: int| 0 <= j < prev.len() && prev[j] == r[i];
            assert(height(prev[j].1) < h);
        }
    }
}

/// The values of a prepared object are shallower than the object itself.
pub proof fn lemma_prepared_below(o: Seq<(Seq<char>, Json)>)
    ensures
        values_below(prepared(o), height(Json::Object(o))),
{
    let h = height(Json::Object(o));
    assert forall|i: int| 0 <= i < o.len() implies #[trigger] height(o[i].1) < h by {
        lemma_height_object(o, i);
    }
    lemma_flatten_union_below(o, "oneOf"@, h);
    let o1 = flatten_union(o, "oneOf"@);
    lemma_flatten_union_below(o1, "anyOf"@, h);
    let o2 = flatten_union(o1, "anyOf"@);
    lemma_flatten_all_of_below(o2, h);
    let o3 = flatten_all_of(o2);
    lemma_get_below(o3, "$ref"@, h);
    if let Some(Json::Str(r)) = assoc_get(o3, "$ref"@) {
        if components_schemas_prefix().is_prefix_of(r) {
            lemma_insert_below(o3, "$ref"@, Json::Str(r.skip(components_schemas_prefix().len() as int)), h);
        }
    }
    lemma_remove_keys_below(simplify_ref(o3), openapi_only_keys(), h);
}

// ---------------------------------------------------------------------------
// What the rewriting keeps and removes
// ---------------------------------------------------------------------------

pub proof fn lemma_insert_all_satisfy(o: Seq<(Seq<char>, Json)>, e: Seq<(Seq<char>, Json)>, f: spec_fn(Json) -> bool)
    requires
        values_satisfy(o, f),
        values_satisfy(e, f),
    ensures
        values_satisfy(insert_all(o, e), f),
        values_satisfy(insert_missing_all(o, e), f),
    decreases e.len(),
{
    if e.len() > 0 {
        assert(values_satisfy(e.drop_last(), f)) by {
            assert forall|i: int| 0 <= i < e.drop_last().len() implies f(#[trigger] e.drop_last()[i].1) by {
                assert(e.drop_last()[i] == e[i]);
            }
        }
        lemma_insert_all_satisfy(o, e.drop_last(), f);
        assert(f(e[e.len() - 1].1));
        lemma_insert_satisfy(insert_all(o, e.drop_last()), e.last().0, e.last().1, f);
        lemma_insert_satisfy(insert_missing_all(o, e.drop_last()), e.last().0, e.last().1, f);
    }
}

pub proof fn lemma_insert_all_distinct(o: Seq<(Seq<char>, Json)>, e: Seq<(Seq<char>, Json)>)
    requires
        keys_distinct(keys_of(o)),
    ensures
        keys_distinct(keys_of(insert_all(o, e))),
        keys_distinct(keys_of(insert_missing_all(o, e))),
    decreases e.len(),
{
    if e.len() > 0 {
        lemma_insert_all_distinct(o, e.drop_last());
        lemma_assoc_insert_distinct(insert_all(o, e.drop_last()), e.last().0, e.last().1);
        lemma_assoc_insert_distinct(insert_missing_all(o, e.drop_last()), e.last().0, e.last().1);
    }
}

/// Each non-null variant is one of the variants.
pub proof fn lemma_non_null_variants_in(a: Seq<Json>)
    ensures
        forall|i: int| 0 <= i < non_null_variants(a).len() ==> a.contains(#[trigger] non_null_variants(a)[i]),
    decreases a.len(),
{
    if a.len() > 0 {
        lemma_non_null_variants_in(a.drop_last());
        let prev = non_null_variants(a.drop_last());
        assert forall|i: int| 0 <= i < non_null_variants(a).len() implies a.contains(#[trigger] non_null_variants(a)[i]) by {
            if i < prev.len() {
                assert(non_null_variants(a)[i] == prev[i]);
                assert(a.drop_last().contains(prev[i]));
                let j = choose|j: int| 0 <= j < a.drop_last().len() && a.drop_last()[j] == prev[i];
                assert(a[j] == prev[i]);
            } else {
                assert(a[a.len() - 1] == non_null_variants(a)[i]);
            }
        }
    }
}

pub proof fn lemma_flatten_union_satisfy(o: Seq<(Seq<char>, Json)>, key: Seq<char>, f: spec_fn(Json) -> bool)
    requires
        values_satisfy(o, f),
        hereditary(f),
    ensures
        values_satisfy(flatten_union(o, key), f),
{
    lemma_get_satisfy(o, key, f);
    if let Some(Json::Array(a)) = assoc_get(o, key) {
        let refs = non_null_variants(a);
        if refs.len() == 1 {
            assert(f(Json::Array(a)));
            lemma_non_null_variants_in(a);
            assert(a.contains(refs[0]));
            let j = choose|j: int| 0 <= j < a.len() && a[j] == refs[0];
            assert(f(a[j]));
            lemma_remove_satisfy(o, key, f);
            if let Json::Object(inner) = refs[0] {
                assert(values_satisfy(inner, f));
                lemma_insert_all_satisfy(assoc_remove(o, key), inner, f);
            }
        }
    }
}

pub proof fn lemma_flatten_all_of_satisfy(o: Seq<(Seq<char>, Json)>, f: spec_fn(Json) -> bool)
    requires
        values_satisfy(o, f),
        hereditary(f),
    ensures
        values_satisfy(flatten_all_of(o), f),
{
    lemma_get_satisfy(o, "allOf"@, f);
    if let Some(Json::Array(a)) = assoc_get(o, "allOf"@) {
        if a.len() == 1 {
            assert(f(Json::Array(a)));
            assert(f(a[0]));
            lemma_remove_satisfy(o, "allOf"@, f);
            if let Json::Object(inner) = a[0] {
                assert(values_satisfy(inner, f));
                lemma_insert_all_satisfy(assoc_remove(o, "allOf"@), inner, f);
            }
        }
    }
}

pub proof fn lemma_remove_keys_satisfy(o: Seq<(Seq<char>, Json)>, keys: Seq<Seq<char>>, f: spec_fn(Json) -> bool)
    requires
        values_satisfy(o, f),
    ensures
        values_satisfy(remove_keys(o, keys), f),
    decreases keys.len(),
{
    if keys.len() > 0 {
        lemma_remove_keys_satisfy(o, keys.drop_last(), f);
        let prev = remove_keys(o, keys.drop_last());
        lemma_assoc_remove_all_entries(prev, keys.last());
        let r = assoc_remove_all(prev, keys.last());
        assert forall|i: int| 0 <= i < r.len() implies f(#[trigger] r[i].1) by {
            let j = choose|j: int| 0 <= j < prev.len() && prev[j] == r[i];
            assert(f(prev[j].1));
        }
    }
}

/// A hereditary property of an object's values that a shortened reference keeps
/// also holds of the values of the prepared object.
pub proof fn lemma_prepared_satisfy(o: Seq<(Seq<char>, Json)>, f: spec_fn(Json) -> bool)
    requires
        values_satisfy(o, f),
        hereditary(f),
        forall|s: Seq<char>|
            #[trigger] f(Json::Str(s)) && components_schemas_prefix().is_prefix_of(s) ==> f(
                Json::Str(s.skip(components_schemas_prefix().len() as int)),
            ),
    ensures
        values_satisfy(prepared(o), f),
{
    lemma_flatten_union_satisfy(o, "oneOf"@, f);
    let o1 = flatten_union(o, "oneOf"@);
    lemma_flatten_union_satisfy(o1, "anyOf"@, f);
    let o2 = flatten_union(o1, "anyOf"@);
    lemma_flatten_all_of_satisfy(o2, f);
    let o3 = flatten_all_of(o2);
    lemma_get_satisfy(o3, "$ref"@, f);
    if let Some(Json::Str(r)) = assoc_get(o3, "$ref"@) {
        if components_schemas_prefix().is_prefix_of(r) {
            lemma_insert_satisfy(o3, "$ref"@, Json::Str(r.skip(components_schemas_prefix().len() as int)), f);
        }
    }
    lemma_remove_keys_satisfy(simplify_ref(o3), openapi_only_keys(), f);
}

/// After removing `keys` one by one, none of them is left; distinct keys stay distinct.
pub proof fn lemma_remove_keys_absent(o: Seq<(Seq<char>, Json)>, keys: Seq<Seq<char>>)
    ensures
        keys_distinct(keys_of(o)) ==> keys_distinct(keys_of(remove_keys(o, keys))),
        forall|i: int| 0 <= i < keys.len() ==> assoc_get(remove_keys(o, keys), #[trigger] keys[i]) is None,
    decreases keys.len(),
{
    if keys.len() > 0 {
        let prev = remove_keys(o, keys.drop_last());
        lemma_remove_keys_absent(o, keys.drop_last());
        lemma_assoc_remove_all_entries(prev, keys.last());
        assert forall|i: int| 0 <= i < keys.len() implies assoc_get(remove_keys(o, keys), #[trigger] keys[i]) is None by {
            lemma_assoc_get_remove_all(prev, keys.last(), keys[i]);
            if i < keys.len() - 1 {
                assert(keys.drop_last()[i] == keys[i]);
            }
        }
    }
}

/// Removing keys that do not include `k` leaves `k`'s value as it was.
pub proof fn lemma_remove_keys_other(o: Seq<(Seq<char>, Json)>, keys: Seq<Seq<char>>, k: Seq<char>)
    requires
        !keys.contains(k),
    ensures
        assoc_get(remove_keys(o, keys), k) == assoc_get(o, k),
    decreases keys.len(),
{
    if keys.len() > 0 {
        assert(!keys.drop_last().contains(k)) by {
            if keys.drop_last().contains(k) {
                let j = choose|j: int| 0 <= j < keys.drop_last().len() && keys.drop_last()[j] == k;
                assert(keys[j] == k);
            }
        }
        lemma_remove_keys_other(o, keys.drop_last(), k);
        assert(keys[keys.len() - 1] != k);
        lemma_assoc_get_remove_all(remove_keys(o, keys.drop_last()), keys.last(), k);
    }
}

pub proof fn lemma_flatten_union_distinct(o: Seq<(Seq<char>, Json)>, key: Seq<char>)
    requires
        keys_distinct(keys_of(o)),
    ensures
        keys_distinct(keys_of(flatten_union(o, key))),
{
    if let Some(Json::Array(a)) = assoc_get(o, key) {
        if non_null_variants(a).len() == 1 {
            lemma_assoc_get_remove_same(o, key);
            if let Json::Object(inner) = non_null_variants(a)[0] {
                lemma_insert_all_distinct(assoc_remove(o, key), inner);
            }
        }
    }
}

pub proof fn lemma_flatten_all_of_distinct(o: Seq<(Seq<char>, Json)>)
    requires
        keys_distinct(keys_of(o)),
    ensures
        keys_distinct(keys_of(flatten_all_of(o))),
{
    if let Some(Json::Array(a)) = assoc_get(o, "allOf"@) {
        if a.len() == 1 {
            lemma_assoc_get_remove_same(o, "allOf"@);
            if let Json::Object(inner) = a[0] {
                lemma_insert_all_distinct(assoc_remove(o, "allOf"@), inner);
            }
        }
    }
}

/// A prepared object with distinct keys keeps them distinct and has none of the OpenAPI-only keys.
pub proof fn lemma_prepared_distinct(o: Seq<(Seq<char>, Json)>)
    ensures
        keys_distinct(keys_of(o)) ==> keys_distinct(keys_of(prepared(o))),
        forall|k: Seq<char>| openapi_only_keys().contains(k) ==> #[trigger] assoc_get(prepared(o), k) is None,
{
    if keys_distinct(keys_of(o)) {
        lemma_prepared_keeps_distinct(o);
    }
    let o3 = flatten_all_of(flatten_union(flatten_union(o, "oneOf"@), "anyOf"@));
    let ks = openapi_only_keys();
    lemma_remove_keys_absent(simplify_ref(o3), ks);
    assert forall|k: Seq<char>| ks.contains(k) implies #[trigger] assoc_get(prepared(o), k) is None by {
        let j = choose|j: int| 0 <= j < ks.len() && ks[j] == k;
        assert(assoc_get(prepared(o), ks[j]) is None);
    }
}

proof fn lemma_prepared_keeps_distinct(o: Seq<(Seq<char>, Json)>)
    requires
        keys_distinct(keys_of(o)),
    ensures
        keys_distinct(keys_of(prepared(o))),
{
    lemma_flatten_union_distinct(o, "oneOf"@);
    let o1 = flatten_union(o, "oneOf"@);
    lemma_flatten_union_distinct(o1, "anyOf"@);
    let o2 = flatten_union(o1, "anyOf"@);
    lemma_flatten_all_of_distinct(o2);
    let o3 = flatten_all_of(o2);
    if let Some(Json::Str(r)) = assoc_get(o3, "$ref"@) {
        if components_schemas_prefix().is_prefix_of(r) {
            lemma_assoc_insert_distinct(o3, "$ref"@, Json::Str(r.skip(components_schemas_prefix().len() as int)));
        }
    }
    lemma_remove_keys_absent(simplify_ref(o3), openapi_only_keys());
}

/// The rewritten object has the keys of the prepared one, each with its value rewritten.
pub proof fn lemma_rewritten_get(o: Seq<(Seq<char>, Json)>, k: Seq<char>)
    ensures
        discovery_schema(Json::Object(o)) matches Json::Object(q) && keys_of(q) == keys_of(prepared(o))
            && assoc_get(q, k) == match assoc_get(prepared(o), k) {
            Some(v) => Some(discovery_schema(v)),
            None => None,
        },
{
    let p = prepared(o);
    if let Json::Object(q) = discovery_schema(Json::Object(o)) {
        assert(keys_of(q) =~= keys_of(p));
        lemma_index_of_key(keys_of(p), k);
    }
}

/// Every object, at every depth, has distinct keys.
pub open spec fn distinct_throughout(j: Json) -> bool
    decreases j,
{
    match j {
        Json::Object(o) => keys_distinct(keys_of(o)) && forall|i: int|
            #![trigger o[i]]
            0 <= i < o.len() ==> distinct_throughout(o[i].1),
        Json::Array(a) => forall|i: int| #![trigger a[i]] 0 <= i < a.len() ==> distinct_throughout(a[i]),
        _ => true,
    }
}

/// No object, at any depth, has one of the OpenAPI-only keys.
pub open spec fn free_of_openapi_keys(j: Json) -> bool
    decreases j,
{
    match j {
        Json::Object(o) => (forall|k: Seq<char>| openapi_only_keys().contains(k) ==> #[trigger] assoc_get(o, k) is None)
            && forall|i: int| #![trigger o[i]] 0 <= i < o.len() ==> free_of_openapi_keys(o[i].1),
        Json::Array(a) => forall|i: int| #![trigger a[i]] 0 <= i < a.len() ==> free_of_openapi_keys(a[i]),
        _ => true,
    }
}

/// Rewriting a schema leaves no OpenAPI-only key in any object at any depth;
/// when every object of the input has distinct keys (as JSON objects do), they
/// stay distinct.
pub proof fn law_rewriting_strips_openapi_keys(v: Json)
    ensures
        free_of_openapi_keys(discovery_schema(v)),
        distinct_throughout(v) ==> distinct_throughout(discovery_schema(v)),
    decreases height(v),
{
    match v {
        Json::Object(o) => {
            let p = prepared(o);
            let dt = |j: Json| distinct_throughout(j);
            lemma_prepared_distinct(o);
            lemma_prepared_below(o);
            assert(hereditary(dt));
            if distinct_throughout(v) {
                assert(values_satisfy(o, dt));
                lemma_prepared_satisfy(o, dt);
            }
            if let Json::Object(q) = discovery_schema(v) {
                assert forall|k: Seq<char>| openapi_only_keys().contains(k) implies #[trigger] assoc_get(q, k) is None by {
                    lemma_rewritten_get(o, k);
                }
                lemma_rewritten_get(o, "$ref"@);
                assert(distinct_throughout(v) ==> keys_distinct(keys_of(q)));
                assert forall|i: int| 0 <= i < q.len() implies free_of_openapi_keys(#[trigger] q[i].1)
                    && (distinct_throughout(v) ==> distinct_throughout(q[i].1)) by {
                    assert(q[i].1 == discovery_schema(p[i].1));
                    assert(distinct_throughout(v) ==> dt(p[i].1));
                    assert(height(p[i].1) < height(v));
                    law_rewriting_strips_openapi_keys(p[i].1);
                }
            }
        },
        Json::Array(a) => {
            if let Json::Array(b) = discovery_schema(v) {
                assert forall|i: int| 0 <= i < b.len() implies free_of_openapi_keys(#[trigger] b[i])
                    && (distinct_throughout(v) ==> distinct_throughout(b[i])) by {
                    lemma_height_array(a, i);
                    law_rewriting_strips_openapi_keys(a[i]);
                }
            }
        },
        _ => {},
    }
}

/// `$ref` is not one of the OpenAPI-only keys.
proof fn lemma_ref_is_kept()
    ensures
        !openapi_only_keys().contains("$ref"@),
{
    reveal_strlit("$ref");
    reveal_strlit("required");
    reveal_strlit("nullable");
    reveal_strlit("oneOf");
    reveal_strlit("anyOf");
    reveal_strlit("allOf");
    reveal_strlit("additionalProperties");
    reveal_strlit("discriminator");
    reveal_strlit("readOnly");
    reveal_strlit("writeOnly");
    reveal_strlit("xml");
    reveal_strlit("externalDocs");
    reveal_strlit("example");
    reveal_strlit("deprecated");
    reveal_strlit("minLength");
    reveal_strlit("maxLength");
    reveal_strlit("minimum");
    reveal_strlit("maximum");
    reveal_strlit("exclusiveMinimum");
    reveal_strlit("exclusiveMaximum");
    reveal_strlit("pattern");
    reveal_strlit("minItems");
    reveal_strlit("maxItems");
    reveal_strlit("uniqueItems");
    reveal_strlit("minProperties");
    reveal_strlit("maxProperties");
    let ks = openapi_only_keys();
    if ks.contains("$ref"@) {
        let j = choose|j: int| 0 <= j < ks.len() && ks[j] == "$ref"@;
        assert(ks[j][0] != '$');
    }
}

/// A `$ref` to a component schema, in an object without unions to flatten, is
/// shortened to the schema's name.
pub proof fn law_component_ref_shortened(o: Seq<(Seq<char>, Json)>, name: Seq<char>)
    requires
        assoc_get(o, "oneOf"@) is None,
        assoc_get(o, "anyOf"@) is None,
        assoc_get(o, "allOf"@) is None,
        assoc_get(o, "$ref"@) == Some(Json::Str(components_schemas_prefix() + name)),
    ensures
        discovery_schema(Json::Object(o)) matches Json::Object(q) && assoc_get(q, "$ref"@) == Some(Json::Str(name)),
{
    let r = components_schemas_prefix() + name;
    assert(components_schemas_prefix().is_prefix_of(r)) by {
        assert(r.take(components_schemas_prefix().len() as int) =~= components_schemas_prefix());
    }
    assert(r.skip(components_schemas_prefix().len() as int) =~= name);
    lemma_assoc_get_insert_same(o, "$ref"@, Json::Str(name));
    lemma_ref_is_kept();
    lemma_remove_keys_other(simplify_ref(o), openapi_only_keys(), "$ref"@);
    lemma_rewritten_get(o, "$ref"@);
}

// ---------------------------------------------------------------------------
// Implementation
// ---------------------------------------------------------------------------

fn is_null_variant_exec(v: &JsonValue) -> (r: bool)
    ensures
        r == is_null_variant(v@),
{
    match v {
        JsonValue::Object(o) => {
            proof {
                lemma_object_view(*o);
            }
            match v.get("type") {
                Some(t) => match t.as_str() {
                    Some(s) => str_eq(s, "null"),
                    None => false,
                },
                None => false,
            }
        },
        _ => false,
    }
}

/// The index of the only non-null variant of a union, when there is exactly one.
fn single_non_null(a: &Vec<JsonValue>) -> (r: Option<usize>)
    ensures
        match r {
            Some(j) => j < a@.len() && non_null_variants(json_views(a@)).len() == 1
                && non_null_variants(json_views(a@))[0] == a@[j as int]@,
            None => non_null_variants(json_views(a@)).len() != 1,
        },
{
    let ghost va = json_views(a@);
    let n = a.len();
    let mut count: usize = 0;
    let mut first: usize = 0;
    for i in 0..n
        invariant
            n == a@.len(),
            va == json_views(a@),
            count <= i,
            count == non_null_variants(va.take(i as int)).len(),
            count >= 1 ==> first < i && non_null_variants(va.take(i as int))[0] == a@[first as int]@,
    {
        proof {
            assert(va.take(i + 1).drop_last() =~= va.take(i as int));
            assert(va.take(i + 1).last() == a@[i as int]@);
        }
        if !is_null_variant_exec(&a[i]) {
            if count == 0 {
                first = i;
            }
            count = count + 1;
        }
    }
    assert(va.take(n as int) =~= va);
    if count == 1 {
        Some(first)
    } else {
        None
    }
}

fn insert_all_exec(map: &mut Vec<(String, JsonValue)>, entries: Vec<(String, JsonValue)>)
    ensures
        assoc_view(final(map)@) == insert_all(assoc_view(old(map)@), assoc_view(entries@)),
{
    let ghost orig = entries@;
    let ghost start = assoc_view(map@);
    for e in it: entries.into_iter()
        invariant
            it.seq() == orig,
            assoc_view(map@) == insert_all(start, assoc_view(orig).take(it.index() as int)),
    {
        proof {
            let i = it.index() as int;
            assert(assoc_view(orig).take(i + 1).drop_last() =~= assoc_view(orig).take(i));
            assert(e == orig[i]);
        }
        assoc_store(map, e.0, e.1);
    }
    assert(assoc_view(orig).take(orig.len() as int) =~= assoc_view(orig));
}

fn insert_missing_all_exec(map: &mut Vec<(String, JsonValue)>, entries: Vec<(String, JsonValue)>)
    ensures
        assoc_view(final(map)@) == insert_missing_all(assoc_view(old(map)@), assoc_view(entries@)),
{
    let ghost orig = entries@;
    let ghost start = assoc_view(map@);
    for e in it: entries.into_iter()
        invariant
            it.seq() == orig,
            assoc_view(map@) == insert_missing_all(start, assoc_view(orig).take(it.index() as int)),
    {
        proof {
            let i = it.index() as int;
            assert(assoc_view(orig).take(i + 1).drop_last() =~= assoc_view(orig).take(i));
            assert(e == orig[i]);
        }
        assoc_store_missing(map, e.0, e.1);
    }
    assert(assoc_view(orig).take(orig.len() as int) =~= assoc_view(orig));
}

fn flatten_union_exec(map: &mut Vec<(String, JsonValue)>, key: &str)
    ensures
        assoc_view(final(map)@) == flatten_union(assoc_view(old(map)@), key@),
{
    let ghost o = assoc_view(map@);
    proof {
        lemma_assoc_view_keys(map@);
        lemma_index_of_exec_key(map@, key@);
    }
    let i = match find_key(map, key) {
        None => {
            return;
        },
        Some(i) => i,
    };
    assert(assoc_get(o, key@) == Some(map@[i as int].1@));
    let j = match &map[i].1 {
        JsonValue::Array(arr) => {
            proof {
                lemma_array_view(*arr);
            }
            match single_non_null(arr) {
                Some(j) => j,
                None => {
                    return;
                },
            }
        },
        _ => {
            return;
        },
    };
    let ghost arr0 = map@[i as int].1;
    let taken = assoc_take(map, key);
    match taken {
        Some(JsonValue::Array(mut arr)) => {
            proof {
                lemma_array_view(arr);
                if let JsonValue::Array(a0) = arr0 {
                    lemma_array_view(a0);
                    assert(json_views(arr@) == json_views(a0@));
                    assert(json_views(arr@).len() == arr@.len());
                }
            }
            let ghost views = json_views(arr@);
            let replacement = arr.remove(j);
            assert(replacement@ == views[j as int]);
            if let JsonValue::Object(inner) = replacement {
                proof {
                    lemma_object_view(inner);
                }
                insert_all_exec(map, inner);
            }
        },
        _ => {
            proof {
                assert(false);
            }
        },
    }
}

fn flatten_all_of_exec(map: &mut Vec<(String, JsonValue)>)
    ensures
        assoc_view(final(map)@) == flatten_all_of(assoc_view(old(map)@)),
{
    let ghost o = assoc_view(map@);
    proof {
        lemma_assoc_view_keys(map@);
        lemma_index_of_exec_key(map@, "allOf"@);
    }
    let i = match find_key(map, "allOf") {
        None => {
            return;
        },
        Some(i) => i,
    };
    assert(assoc_get(o, "allOf"@) == Some(map@[i as int].1@));
    match &map[i].1 {
        JsonValue::Array(arr) => {
            proof {
                lemma_array_view(*arr);
            }
            if arr.len() != 1 {
                return;
            }
        },
        _ => {
            return;
        },
    }
    let ghost arr0 = map@[i as int].1;
    let taken = assoc_take(map, "allOf");
    match taken {
        Some(JsonValue::Array(mut arr)) => {
            proof {
                lemma_array_view(arr);
                if let JsonValue::Array(a0) = arr0 {
                    lemma_array_view(a0);
                    assert(json_views(arr@) == json_views(a0@));
                    assert(json_views(arr@).len() == arr@.len());
                }
            }
            let ghost views = json_views(arr@);
            let replacement = arr.remove(0);
            assert(replacement@ == views[0]);
            if let JsonValue::Object(inner) = replacement {
                proof {
                    lemma_object_view(inner);
                }
                insert_missing_all_exec(map, inner);
            }
        },
        _ => {
            proof {
                assert(false);
            }
        },
    }
}

fn simplify_ref_exec(map: &mut Vec<(String, JsonValue)>)
    ensures
        assoc_view(final(map)@) == simplify_ref(assoc_view(old(map)@)),
{
    let shortened: Option<String> = match assoc_lookup(map, "$ref") {
        Some(JsonValue::Str(r)) => match strip_prefix(r.as_str(), "#/components/schemas/") {
            Some(name) => Some(String::from_str(name)),
            None => None,
        },
        _ => None,
    };
    if let Some(name) = shortened {
        assoc_store(map, String::from_str("$ref"), JsonValue::Str(name));
    }
}

/// The keys that [`openapi_only_keys`] lists.
fn openapi_only_keys_exec() -> (r: Vec<&'static str>)
    ensures
        str_views(r@) == openapi_only_keys(),
{
    let mut v: Vec<&'static str> = Vec::new();
    v.push("required");
    v.push("nullable");
    v.push("oneOf");
    v.push("anyOf");
    v.push("allOf");
    v.push("additionalProperties");
    v.push("discriminator");
    v.push("readOnly");
    v.push("writeOnly");
    v.push("xml");
    v.push("externalDocs");
    v.push("example");
    v.push("deprecated");
    v.push("minLength");
    v.push("maxLength");
    v.push("minimum");
    v.push("maximum");
    v.push("exclusiveMinimum");
    v.push("exclusiveMaximum");
    v.push("pattern");
    v.push("minItems");
    v.push("maxItems");
    v.push("uniqueItems");
    v.push("minProperties");
    v.push("maxProperties");
    assert(str_views(v@) =~= openapi_only_keys());
    v
}

fn strip_openapi_only_keys(map: &mut Vec<(String, JsonValue)>)
    ensures
        assoc_view(final(map)@) == remove_keys(assoc_view(old(map)@), openapi_only_keys()),
{
    let keys = openapi_only_keys_exec();
    let ghost ks = openapi_only_keys();
    let ghost start = assoc_view(map@);
    let n = keys.len();
    for i in 0..n
        invariant
            n == keys@.len(),
            str_views(keys@) == ks,
            assoc_view(map@) == remove_keys(start, ks.take(i as int)),
    {
        proof {
            assert(ks.take(i + 1).drop_last() =~= ks.take(i as int));
            assert(ks[i as int] == keys@[i as int]@);
        }
        remove_all_entries(map, keys[i]);
    }
    assert(ks.take(n as int) =~= ks);
}

/// Removes every entry whose key is `key`.
fn remove_all_entries(map: &mut Vec<(String, JsonValue)>, key: &str)
    ensures
        assoc_view(final(map)@) == assoc_remove_all(assoc_view(old(map)@), key@),
{
    let mut entries: Vec<(String, JsonValue)> = Vec::new();
    std::mem::swap(&mut entries, map);
    let ghost orig = entries@;
    assert(assoc_view(map@) =~= assoc_remove_all(assoc_view(orig).take(0), key@));
    for e in it: entries.into_iter()
        invariant
            it.seq() == orig,
            assoc_view(map@) == assoc_remove_all(assoc_view(orig).take(it.index() as int), key@),
    {
        let ghost i = it.index() as int;
        proof {
            assert(assoc_view(orig).take(i + 1).drop_last() =~= assoc_view(orig).take(i));
            assert(e == orig[i]);
            assert(assoc_view(orig).take(i + 1).last() == (e.0@, e.1@));
        }
        if !str_eq(e.0.as_str(), key) {
            let ghost before = map@;
            map.push(e);
            proof {
                assert(assoc_view(map@) =~= assoc_view(before).push((e.0@, e.1@)));
            }
        }
    }
    assert(assoc_view(orig).take(orig.len() as int) =~= assoc_view(orig));
}

fn prepare(map: &mut Vec<(String, JsonValue)>)
    ensures
        assoc_view(final(map)@) == prepared(assoc_view(old(map)@)),
{
    flatten_union_exec(map, "oneOf");
    flatten_union_exec(map, "anyOf");
    flatten_all_of_exec(map);
    simplify_ref_exec(map);
    strip_openapi_only_keys(map);
}

/// Recursively converts an OpenAPI-style schema into Discovery form:
/// a `oneOf`/`anyOf` with a single non-null variant and a single-entry `allOf`
/// are flattened, `$ref` paths to component schemas are shortened to the
/// schema's name, and keys that Discovery schemas do not have are removed: no
/// object of the result, at any depth, has one of them.
pub fn to_discovery_schema(value: JsonValue) -> (r: JsonValue)
    ensures
        r@ == discovery_schema(value@),
        free_of_openapi_keys(r@),
        distinct_throughout(value@) ==> distinct_throughout(r@),
{
    proof {
        law_rewriting_strips_openapi_keys(value@);
    }
    rewrite_schema(value)
}

#[verifier::spinoff_prover]
fn rewrite_schema(value: JsonValue) -> (r: JsonValue)
    ensures
        r@ == discovery_schema(value@),
    decreases height(value@),
{
    let ghost v0 = value@;
    match value {
        JsonValue::Object(mut map) => {
            proof {
                lemma_object_view(map);
            }
            let ghost o = assoc_view(map@);
            prepare(&mut map);
            let ghost p = assoc_view(map@);
            proof {
                lemma_prepared_below(o);
            }
            let ghost entries = map@;
            let mut out: Vec<(String, JsonValue)> = Vec::new();
            for e in it: map.into_iter()
                invariant
                    it.seq() == entries,
                    p == assoc_view(entries),
                    p == prepared(o),
                    v0 == Json::Object(o),
                    v0 == value@,
                    values_below(p, height(v0)),
                    out@.len() == it.index(),
                    forall|j: int| 0 <= j < out@.len() ==> #[trigger] out@[j].0@ == p[j].0
                        && out@[j].1@ == discovery_schema(p[j].1),
            {
                let ghost i = it.index() as int;
                proof {
                    assert(e == entries[i]);
                    assert(p[i] == (e.0@, e.1@));
                    assert(height(p[i].1) < height(v0));
                    assert(height(e.1@) < height(v0));
                }
                let ghost before = out@;
                let converted = rewrite_schema(e.1);
                out.push((e.0, converted));
                proof {
                    assert forall|j: int| 0 <= j < out@.len() implies #[trigger] out@[j].0@ == p[j].0
                        && out@[j].1@ == discovery_schema(p[j].1) by {
                        if j < i {
                            assert(out@[j] == before[j]);
                        }
                    }
                }
            }
            proof {
                lemma_object_view(out);
                if let Json::Object(s) = discovery_schema(v0) {
                    assert(assoc_view(out@) =~= s);
                }
            }
            JsonValue::Object(out)
        },
        JsonValue::Array(arr) => {
            proof {
                lemma_array_view(arr);
            }
            let ghost a = json_views(arr@);
            let ghost elems = arr@;
            let mut out: Vec<JsonValue> = Vec::new();
            for e in it: arr.into_iter()
                invariant
                    it.seq() == elems,
                    a == json_views(elems),
                    v0 == Json::Array(a),
                    v0 == value@,
                    out@.len() == it.index(),
                    forall|j: int| 0 <= j < out@.len() ==> #[trigger] out@[j]@ == discovery_schema(a[j]),
            {
                let ghost i = it.index() as int;
                proof {
                    assert(e == elems[i]);
                    assert(a[i] == e@);
                    lemma_height_array(a, i);
                    assert(height(e@) < height(v0));
                }
                let converted = rewrite_schema(e);
                out.push(converted);
            }
            proof {
                lemma_array_view(out);
                if let Json::Array(s) = discovery_schema(v0) {
                    assert(json_views(out@) =~= s);
                }
            }
            JsonValue::Array(out)
        },
        other => other,
    }
}

// ---------------------------------------------------------------------------
// Lifting component schemas
// ---------------------------------------------------------------------------

/// The JSON form of a component schema entry: a reference is `{"$ref": ...}`.
pub open spec fn schema_json(r: RefOr<SchemaObject>) -> Json {
    match r {
        RefOr::Reference(p) => Json::Object(seq![("$ref"@, Json::Str(p@))]),
        RefOr::Item(s) => s.json@,
    }
}

/// A component schema in Discovery form, tagged with its name as `id` when it is an object.
pub open spec fn lifted_schema(name: Seq<char>, r: RefOr<SchemaObject>) -> Json {
    match discovery_schema(schema_json(r)) {
        Json::Object(m) => Json::Object(assoc_insert(m, "id"@, Json::Str(name))),
        other => other,
    }
}

/// The lifted schemas, by name (a later entry with the same name wins).
pub open spec fn lifted_schemas(entries: Seq<(String, RefOr<SchemaObject>)>) -> Seq<(Seq<char>, Json)>
    decreases entries.len(),
{
    if entries.len() == 0 {
        Seq::empty()
    } else {
        assoc_insert(
            lifted_schemas(entries.drop_last()),
            entries.last().0@,
            lifted_schema(entries.last().0@, entries.last().1),
        )
    }
}

/// The schemas of a description, lifted to the top level of the Discovery document.
pub open spec fn lifted(spec: OpenApiSpec) -> Seq<(Seq<char>, Json)> {
    match spec.components {
        Some(c) => lifted_schemas(c.schemas@),
        None => Seq::empty(),
    }
}

fn schema_value(r: &RefOr<SchemaObject>) -> (v: JsonValue)
    ensures
        v@ == schema_json(*r),
{
    match r {
        RefOr::Reference(p) => {
            let mut entries: Vec<(String, JsonValue)> = Vec::new();
            entries.push((String::from_str("$ref"), JsonValue::Str(p.clone())));
            proof {
                lemma_object_view(entries);
                assert(assoc_view(entries@) =~= seq![("$ref"@, Json::Str(p@))]);
            }
            JsonValue::Object(entries)
        },
        RefOr::Item(s) => s.json.duplicate(),
    }
}

/// Lifts the component schemas to the top level in Discovery form.
pub fn lift_schemas(spec: &OpenApiSpec) -> (r: Vec<(String, JsonValue)>)
    ensures
        assoc_view(r@) == lifted(*spec),
{
    let mut out: Vec<(String, JsonValue)> = Vec::new();
    match &spec.components {
        None => {
            assert(assoc_view(out@) =~= Seq::<(Seq<char>, Json)>::empty());
        },
        Some(components) => {
            let entries = &components.schemas;
            let n = entries.len();
            assert(assoc_view(out@) =~= lifted_schemas(entries@.take(0)));
            for i in 0..n
                invariant
                    n == entries@.len(),
                    assoc_view(out@) == lifted_schemas(entries@.take(i as int)),
            {
                proof {
                    assert(entries@.take(i + 1).drop_last() =~= entries@.take(i as int));
                }
                let name = &entries[i].0;
                let cleaned = to_discovery_schema(schema_value(&entries[i].1));
                let tagged = match cleaned {
                    JsonValue::Object(mut m) => {
                        proof {
                            lemma_object_view(m);
                        }
                        assoc_store(&mut m, String::from_str("id"), JsonValue::Str(name.clone()));
                        proof {
                            lemma_object_view(m);
                        }
                        JsonValue::Object(m)
                    },
                    other => other,
                };
                assoc_store(&mut out, name.clone(), tagged);
            }
            assert(entries@.take(n as int) =~= entries@);
        },
    }
    out
}


/// The names of the component schemas of a description, in order.
pub open spec fn component_schema_names(spec: OpenApiSpec) -> Seq<Seq<char>> {
    match spec.components {
        Some(c) => exec_keys(c.schemas@),
        None => Seq::empty(),
    }
}

/// The value of the last entry named `k`.
pub open spec fn last_entry<T>(entries: Seq<(String, T)>, k: Seq<char>) -> Option<T>
    decreases entries.len(),
{
    if entries.len() == 0 {
        None
    } else if entries.last().0@ == k {
        Some(entries.last().1)
    } else {
        last_entry(entries.drop_last(), k)
    }
}

/// Every component schema's JSON form has distinct keys in each of its objects.
pub open spec fn components_distinct(spec: OpenApiSpec) -> bool {
    match spec.components {
        Some(c) => forall|i: int|
            0 <= i < c.schemas@.len() ==> distinct_throughout(#[trigger] schema_json(c.schemas@[i].1)),
        None => true,
    }
}

/// `id` is not one of the OpenAPI-only keys.
proof fn lemma_id_is_kept()
    ensures
        !openapi_only_keys().contains("id"@),
{
    reveal_strlit("id");
    reveal_strlit("required");
    reveal_strlit("nullable");
    reveal_strlit("oneOf");
    reveal_strlit("anyOf");
    reveal_strlit("allOf");
    reveal_strlit("additionalProperties");
    reveal_strlit("discriminator");
    reveal_strlit("readOnly");
    reveal_strlit("writeOnly");
    reveal_strlit("xml");
    reveal_strlit("externalDocs");
    reveal_strlit("example");
    reveal_strlit("deprecated");
    reveal_strlit("minLength");
    reveal_strlit("maxLength");
    reveal_strlit("minimum");
    reveal_strlit("maximum");
    reveal_strlit("exclusiveMinimum");
    reveal_strlit("exclusiveMaximum");
    reveal_strlit("pattern");
    reveal_strlit("minItems");
    reveal_strlit("maxItems");
    reveal_strlit("uniqueItems");
    reveal_strlit("minProperties");
    reveal_strlit("maxProperties");
    let ks = openapi_only_keys();
    if ks.contains("id"@) {
        let j = choose|j: int| 0 <= j < ks.len() && ks[j] == "id"@;
        assert(ks[j].len() != 2);
    }
}

/// A lifted schema has no OpenAPI-only key at any depth, and keeps distinct keys.
proof fn lemma_lifted_schema_free(k: Seq<char>, r: RefOr<SchemaObject>)
    ensures
        free_of_openapi_keys(lifted_schema(k, r)),
        distinct_throughout(schema_json(r)) ==> distinct_throughout(lifted_schema(k, r)),
{
    law_rewriting_strips_openapi_keys(schema_json(r));
    if let Json::Object(m) = discovery_schema(schema_json(r)) {
        if distinct_throughout(schema_json(r)) {
            let dt = |j: Json| distinct_throughout(j);
            assert(values_satisfy(m, dt));
            lemma_insert_satisfy(m, "id"@, Json::Str(k), dt);
            lemma_assoc_insert_distinct(m, "id"@, Json::Str(k));
            let t = assoc_insert(m, "id"@, Json::Str(k));
            assert forall|i: int| 0 <= i < t.len() implies distinct_throughout(#[trigger] t[i].1) by {
                assert(dt(t[i].1));
            }
        }
        let fr = |j: Json| free_of_openapi_keys(j);
        assert(values_satisfy(m, fr));
        lemma_insert_satisfy(m, "id"@, Json::Str(k), fr);
        lemma_id_is_kept();
        let t = assoc_insert(m, "id"@, Json::Str(k));
        assert forall|k2: Seq<char>| openapi_only_keys().contains(k2) implies #[trigger] assoc_get(t, k2) is None by {
            lemma_assoc_get_insert_other(m, "id"@, Json::Str(k), k2);
        }
        assert forall|i: int| 0 <= i < t.len() implies free_of_openapi_keys(#[trigger] t[i].1) by {
            assert(fr(t[i].1));
        }
    }
}

proof fn lemma_lifted_schemas(entries: Seq<(String, RefOr<SchemaObject>)>, k: Seq<char>)
    ensures
        (assoc_get(lifted_schemas(entries), k) is Some) == exec_keys(entries).contains(k),
        assoc_get(lifted_schemas(entries), k) matches Some(Json::Object(m)) ==> assoc_get(m, "id"@) == Some(Json::Str(k)),
        assoc_get(lifted_schemas(entries), k) == match last_entry(entries, k) {
            Some(r) => Some(lifted_schema(k, r)),
            None => None,
        },
    decreases entries.len(),
{
    if entries.len() > 0 {
        let prev = entries.drop_last();
        lemma_lifted_schemas(prev, k);
        let name = entries.last().0@;
        let v = lifted_schema(name, entries.last().1);
        assert(exec_keys(entries) =~= exec_keys(prev).push(name));
        if name == k {
            lemma_assoc_get_insert_same(lifted_schemas(prev), k, v);
            assert(exec_keys(entries)[entries.len() - 1] == k);
            if let Json::Object(m) = discovery_schema(schema_json(entries.last().1)) {
                lemma_assoc_get_insert_same(m, "id"@, Json::Str(k));
            }
        } else {
            lemma_assoc_get_insert_other(lifted_schemas(prev), name, v, k);
            if exec_keys(entries).contains(k) {
                let j = choose|j: int| 0 <= j < exec_keys(entries).len() && exec_keys(entries)[j] == k;
                assert(exec_keys(prev)[j] == k);
            }
            if exec_keys(prev).contains(k) {
                let j = choose|j: int| 0 <= j < exec_keys(prev).len() && exec_keys(prev)[j] == k;
                assert(exec_keys(entries)[j] == k);
            }
        }
    }
}

/// A schema is lifted under a name exactly when a component schema has that
/// name; its value is the last such component rewritten, carrying the name as
/// `id` when it is an object, with no OpenAPI-only key at any depth, and with
/// distinct keys in every object when the component's JSON has them.
pub proof fn law_lifted_schemas_by_name(spec: OpenApiSpec, k: Seq<char>)
    ensures
        (assoc_get(lifted(spec), k) is Some) == component_schema_names(spec).contains(k),
        assoc_get(lifted(spec), k) matches Some(Json::Object(m)) ==> assoc_get(m, "id"@) == Some(Json::Str(k)),
        assoc_get(lifted(spec), k) == match spec.components {
            Some(c) => match last_entry(c.schemas@, k) {
                Some(r) => Some(lifted_schema(k, r)),
                None => None,
            },
            None => None,
        },
        assoc_get(lifted(spec), k) matches Some(v) ==> free_of_openapi_keys(v),
        components_distinct(spec) ==> (assoc_get(lifted(spec), k) matches Some(v) ==> distinct_throughout(v)),
{
    match spec.components {
        Some(c) => {
            lemma_lifted_schemas(c.schemas@, k);
            if let Some(r) = last_entry(c.schemas@, k) {
                lemma_lifted_schema_free(k, r);
                if components_distinct(spec) {
                    lemma_last_entry_in(c.schemas@, k);
                    let i = choose|i: int| 0 <= i < c.schemas@.len() && c.schemas@[i].1 == r;
                    assert(distinct_throughout(schema_json(c.schemas@[i].1)));
                }
            }
        },
        None => {
            assert(lifted(spec) =~= Seq::<(Seq<char>, Json)>::empty());
            lemma_index_of_key(keys_of(lifted(spec)), k);
        },
    }
}

proof fn lemma_last_entry_in<T>(entries: Seq<(String, T)>, k: Seq<char>)
    ensures
        last_entry(entries, k) matches Some(r) ==> exists|i: int| 0 <= i < entries.len() && entries[i].1 == r,
    decreases entries.len(),
{
    if entries.len() > 0 && entries.last().0@ != k {
        lemma_last_entry_in(entries.drop_last(), k);
        if let Some(r) = last_entry(entries, k) {
            let i = choose|i: int| 0 <= i < entries.drop_last().len() && entries.drop_last()[i].1 == r;
            assert(entries[i].1 == r);
        }
    } else if entries.len() > 0 {
        assert(entries[entries.len() - 1].1 == entries.last().1);
    }
}


/// `s` starts with the component-schema prefix twice over.
pub open spec fn doubly_prefixed(s: Seq<char>) -> bool {
    (components_schemas_prefix() + components_schemas_prefix()).is_prefix_of(s)
}

/// No string, at any depth, starts with the component-schema prefix twice over.
pub open spec fn no_doubled_prefix(j: Json) -> bool
    decreases j,
{
    match j {
        Json::Str(s) => !doubly_prefixed(s),
        Json::Object(o) => forall|i: int| #![trigger o[i]] 0 <= i < o.len() ==> no_doubled_prefix(o[i].1),
        Json::Array(a) => forall|i: int| #![trigger a[i]] 0 <= i < a.len() ==> no_doubled_prefix(a[i]),
        _ => true,
    }
}

/// A prefixed string that is not doubly prefixed loses the prefix once and is then unprefixed.
proof fn lemma_shortened_unprefixed(s: Seq<char>)
    requires
        components_schemas_prefix().is_prefix_of(s),
        !doubly_prefixed(s),
    ensures
        !components_schemas_prefix().is_prefix_of(s.skip(components_schemas_prefix().len() as int)),
{
    let pre = components_schemas_prefix();
    let t = s.skip(pre.len() as int);
    if pre.is_prefix_of(t) {
        let pp = pre + pre;
        assert forall|j: int| 0 <= j < pp.len() implies pp[j] == s[j] by {
            if j < pre.len() {
                assert(pp[j] == pre[j]);
            } else {
                assert(pp[j] == pre[j - pre.len()]);
                assert(t[j - pre.len()] == s[j]);
            }
        }
        assert(pp.len() <= s.len());
        assert(pp =~= s.take(pp.len() as int));
    }
}

/// A shortened reference of a string that is not doubly prefixed is not doubly prefixed.
proof fn lemma_shortened_not_doubled(s: Seq<char>)
    requires
        components_schemas_prefix().is_prefix_of(s),
        !doubly_prefixed(s),
    ensures
        !doubly_prefixed(s.skip(components_schemas_prefix().len() as int)),
{
    lemma_shortened_unprefixed(s);
    let t = s.skip(components_schemas_prefix().len() as int);
    if doubly_prefixed(t) {
        let pp = components_schemas_prefix() + components_schemas_prefix();
        assert(components_schemas_prefix() =~= t.take(components_schemas_prefix().len() as int)) by {
            assert forall|j: int| 0 <= j < components_schemas_prefix().len() implies components_schemas_prefix()[j] == t[j] by {
                assert(pp[j] == components_schemas_prefix()[j]);
            }
        }
    }
}

/// Removing keys that are all absent changes nothing.
proof fn lemma_remove_absent_keys(o: Seq<(Seq<char>, Json)>, keys: Seq<Seq<char>>)
    requires
        forall|i: int| 0 <= i < keys.len() ==> assoc_get(o, #[trigger] keys[i]) is None,
    ensures
        remove_keys(o, keys) == o,
    decreases keys.len(),
{
    if keys.len() > 0 {
        assert forall|i: int| 0 <= i < keys.drop_last().len() implies assoc_get(o, #[trigger] keys.drop_last()[i]) is None by {
            assert(keys.drop_last()[i] == keys[i]);
        }
        lemma_remove_absent_keys(o, keys.drop_last());
        assert(assoc_get(o, keys[keys.len() - 1]) is None);
        lemma_assoc_remove_all_absent(o, keys.last());
    }
}

/// Rewriting is idempotent: a rewritten schema is its own rewriting, when no
/// string in the input starts with the component-schema prefix twice over.
pub proof fn law_rewriting_is_idempotent(v: Json)
    requires
        no_doubled_prefix(v),
    ensures
        discovery_schema(discovery_schema(v)) == discovery_schema(v),
    decreases height(v),
{
    law_rewriting_strips_openapi_keys(v);
    match v {
        Json::Object(o) => {
            let p = prepared(o);
            let nd = |j: Json| no_doubled_prefix(j);
            lemma_prepared_below(o);
            assert(hereditary(nd));
            assert forall|s: Seq<char>| #[trigger] nd(Json::Str(s)) && components_schemas_prefix().is_prefix_of(s) implies nd(
                Json::Str(s.skip(components_schemas_prefix().len() as int)),
            ) by {
                lemma_shortened_not_doubled(s);
            }
            assert(values_satisfy(o, nd));
            lemma_prepared_satisfy(o, nd);
            // the reference left in the prepared object is unprefixed
            lemma_flatten_union_satisfy(o, "oneOf"@, nd);
            let o1 = flatten_union(o, "oneOf"@);
            lemma_flatten_union_satisfy(o1, "anyOf"@, nd);
            let o2 = flatten_union(o1, "anyOf"@);
            lemma_flatten_all_of_satisfy(o2, nd);
            let o3 = flatten_all_of(o2);
            lemma_get_satisfy(o3, "$ref"@, nd);
            lemma_ref_is_kept();
            lemma_remove_keys_other(simplify_ref(o3), openapi_only_keys(), "$ref"@);
            if let Some(Json::Str(r)) = assoc_get(o3, "$ref"@) {
                if components_schemas_prefix().is_prefix_of(r) {
                    lemma_shortened_unprefixed(r);
                    lemma_assoc_get_insert_same(o3, "$ref"@, Json::Str(r.skip(components_schemas_prefix().len() as int)));
                }
            }
            assert(assoc_get(p, "$ref"@) matches Some(Json::Str(r2)) ==> !components_schemas_prefix().is_prefix_of(r2));
            if let Json::Object(q) = discovery_schema(v) {
                lemma_rewritten_get(o, "$ref"@);
                lemma_rewritten_get(o, "oneOf"@);
                lemma_rewritten_get(o, "anyOf"@);
                lemma_rewritten_get(o, "allOf"@);
                assert(openapi_only_keys()[2] == "oneOf"@);
                assert(openapi_only_keys()[3] == "anyOf"@);
                assert(openapi_only_keys()[4] == "allOf"@);
                assert(assoc_get(q, "oneOf"@) is None);
                assert(assoc_get(q, "anyOf"@) is None);
                assert(assoc_get(q, "allOf"@) is None);
                assert(simplify_ref(q) == q);
                assert forall|i: int| 0 <= i < openapi_only_keys().len() implies assoc_get(q, #[trigger] openapi_only_keys()[i]) is None by {
                    assert(openapi_only_keys().contains(openapi_only_keys()[i]));
                }
                lemma_remove_absent_keys(q, openapi_only_keys());
                assert(prepared(q) == q);
                assert forall|i: int| 0 <= i < q.len() implies discovery_schema(#[trigger] q[i].1) == q[i].1 by {
                    assert(q[i].1 == discovery_schema(p[i].1));
                    assert(nd(p[i].1));
                    assert(height(p[i].1) < height(v));
                    law_rewriting_is_idempotent(p[i].1);
                }
                if let Json::Object(q2) = discovery_schema(Json::Object(q)) {
                    assert(q2 =~= q);
                }
            }
        },
        Json::Array(a) => {
            if let Json::Array(b) = discovery_schema(v) {
                assert forall|i: int| 0 <= i < b.len() implies discovery_schema(#[trigger] b[i]) == b[i] by {
                    lemma_height_array(a, i);
                    law_rewriting_is_idempotent(a[i]);
                }
                if let Json::Array(b2) = discovery_schema(Json::Array(b)) {
                    assert(b2 =~= b);
                }
            }
        },
        _ => {},
    }
}


proof fn lemma_lifted_schemas_distinct(entries: Seq<(String, RefOr<SchemaObject>)>)
    ensures
        keys_distinct(keys_of(lifted_schemas(entries))),
    decreases entries.len(),
{
    if entries.len() == 0 {
        assert(keys_of(lifted_schemas(entries)) =~= Seq::<Seq<char>>::empty());
    } else {
        lemma_lifted_schemas_distinct(entries.drop_last());
        lemma_assoc_insert_distinct(
            lifted_schemas(entries.drop_last()),
            entries.last().0@,
            lifted_schema(entries.last().0@, entries.last().1),
        );
    }
}

/// The lifted schemas hold each name once; each lifted schema is free of
/// OpenAPI-only keys, and has distinct keys in every object when the components'
/// JSON has them.
pub proof fn law_lifted_schemas_well_formed(spec: OpenApiSpec)
    ensures
        keys_distinct(keys_of(lifted(spec))),
        forall|i: int| 0 <= i < lifted(spec).len() ==> free_of_openapi_keys(#[trigger] lifted(spec)[i].1),
        components_distinct(spec) ==> forall|i: int|
            0 <= i < lifted(spec).len() ==> distinct_throughout(#[trigger] lifted(spec)[i].1),
{
    let l = lifted(spec);
    match spec.components {
        Some(c) => lemma_lifted_schemas_distinct(c.schemas@),
        None => {
            assert(keys_of(l) =~= Seq::<Seq<char>>::empty());
        },
    }
    assert forall|i: int| 0 <= i < l.len() implies free_of_openapi_keys(#[trigger] l[i].1)
        && (components_distinct(spec) ==> distinct_throughout(l[i].1)) by {
        let k = l[i].0;
        lemma_index_of_key(keys_of(l), k);
        assert(keys_of(l)[i] == k);
        let j = index_of_key(keys_of(l), k)->0;
        if j != i {
            assert(keys_of(l)[j] == keys_of(l)[i]);
        }
        law_lifted_schemas_by_name(spec, k);
    }
}


/// Storing the entries of `e`, whose keys are distinct, reads back `e`'s value
/// for each of its keys and `o`'s for the others.
proof fn lemma_insert_all_get(o: Seq<(Seq<char>, Json)>, e: Seq<(Seq<char>, Json)>, k: Seq<char>)
    requires
        keys_distinct(keys_of(e)),
    ensures
        assoc_get(insert_all(o, e), k) == match assoc_get(e, k) {
            Some(v) => Some(v),
            None => assoc_get(o, k),
        },
    decreases e.len(),
{
    if e.len() > 0 {
        let d = e.drop_last();
        assert(keys_distinct(keys_of(d))) by {
            assert forall|a: int, b: int| 0 <= a < keys_of(d).len() && 0 <= b < keys_of(d).len() && a != b
                implies keys_of(d)[a] != keys_of(d)[b] by {
                assert(keys_of(d)[a] == keys_of(e)[a]);
                assert(keys_of(d)[b] == keys_of(e)[b]);
            }
        }
        lemma_insert_all_get(o, d, k);
        assert(d.push(e.last()) =~= e);
        lemma_assoc_get_push(d, e.last(), k);
        if k == e.last().0 {
            lemma_assoc_get_insert_same(insert_all(o, d), k, e.last().1);
            lemma_index_of_key(keys_of(d), k);
            if let Some(j) = index_of_key(keys_of(d), k) {
                assert(keys_of(e)[j] == keys_of(d)[j]);
                assert(keys_of(e)[e.len() - 1] == e.last().0);
            }
        } else {
            lemma_assoc_get_insert_other(insert_all(o, d), e.last().0, e.last().1, k);
        }
    }
}

/// A nullable union, `oneOf` or `anyOf` of `{"type": "null"}` and one object
/// variant whose `"type"` is not `"null"` (in either order), is replaced by that
/// variant: the union key is gone and every other key of the variant (not an
/// OpenAPI-only key, not `$ref`) holds the variant's value, rewritten.
pub proof fn law_nullable_union_flattened(key: Seq<char>, inner: Seq<(Seq<char>, Json)>, null_first: bool, k: Seq<char>)
    requires
        key == "oneOf"@ || key == "anyOf"@,
        keys_distinct(keys_of(inner)),
        assoc_get(inner, "type"@) != Some(Json::Str("null"@)),
        assoc_get(inner, "oneOf"@) is None,
        assoc_get(inner, "anyOf"@) is None,
        assoc_get(inner, "allOf"@) is None,
        !openapi_only_keys().contains(k),
        k != "$ref"@,
    ensures
        ({
            let n = Json::Object(seq![("type"@, Json::Str("null"@))]);
            let variants = if null_first {
                seq![n, Json::Object(inner)]
            } else {
                seq![Json::Object(inner), n]
            };
            discovery_schema(Json::Object(seq![(key, Json::Array(variants))])) matches Json::Object(q)
                && assoc_get(q, key) is None
                && assoc_get(q, k) == match assoc_get(inner, k) {
                Some(v) => Some(discovery_schema(v)),
                None => None,
            }
        }),
{
    reveal_strlit("oneOf");
    reveal_strlit("anyOf");
    reveal_strlit("allOf");
    let n = Json::Object(seq![("type"@, Json::Str("null"@))]);
    let variants = if null_first { seq![n, Json::Object(inner)] } else { seq![Json::Object(inner), n] };
    let o = seq![(key, Json::Array(variants))];
    let empty = Seq::<(Seq<char>, Json)>::empty();
    // the null variant is null, the object variant is not
    let no = seq![("type"@, Json::Str("null"@))];
    lemma_assoc_get_push(empty, ("type"@, Json::Str("null"@)), "type"@);
    assert(empty.push(("type"@, Json::Str("null"@))) =~= no);
    lemma_index_of_key(keys_of(empty), "type"@);
    assert(is_null_variant(n));
    assert(!is_null_variant(Json::Object(inner)));
    let v1 = variants.drop_last();
    assert(v1.drop_last() =~= Seq::<Json>::empty());
    assert(non_null_variants(v1.drop_last()) == Seq::<Json>::empty());
    if null_first {
        assert(v1 =~= seq![n]);
        assert(v1.last() == n);
        assert(non_null_variants(v1) == Seq::<Json>::empty());
        assert(variants.last() == Json::Object(inner));
        assert(non_null_variants(variants) =~= seq![Json::Object(inner)]);
    } else {
        assert(v1 =~= seq![Json::Object(inner)]);
        assert(v1.last() == Json::Object(inner));
        assert(non_null_variants(v1) =~= seq![Json::Object(inner)]);
        assert(variants.last() == n);
        assert(non_null_variants(variants) =~= seq![Json::Object(inner)]);
    }
    // the union is found, and its removal leaves nothing
    assert(empty.push((key, Json::Array(variants))) =~= o);
    lemma_index_of_key(keys_of(empty), key);
    lemma_assoc_get_push(empty, (key, Json::Array(variants)), key);
    assert(keys_of(o) =~= seq![key]);
    assert(keys_of(o).drop_last() =~= Seq::<Seq<char>>::empty());
    assert(index_of_key(keys_of(o).drop_last(), key) is None);
    assert(keys_of(o).last() == key);
    assert(keys_of(o).len() == 1);
    assert(index_of_key(keys_of(o), key) == Some(0int));
    assert(assoc_remove(o, key) =~= empty);
    let m = insert_all(empty, inner);
    lemma_insert_all_get(empty, inner, k);
    lemma_insert_all_get(empty, inner, "oneOf"@);
    lemma_insert_all_get(empty, inner, "anyOf"@);
    lemma_insert_all_get(empty, inner, "allOf"@);
    lemma_index_of_key(keys_of(empty), "oneOf"@);
    lemma_index_of_key(keys_of(empty), "anyOf"@);
    lemma_index_of_key(keys_of(empty), "allOf"@);
    lemma_index_of_key(keys_of(empty), k);
    assert("oneOf"@[0] != "anyOf"@[0]);
    if key == "anyOf"@ {
        lemma_assoc_get_push(empty, (key, Json::Array(variants)), "oneOf"@);
    }
    let o3 = flatten_all_of(flatten_union(flatten_union(o, "oneOf"@), "anyOf"@));
    assert(o3 == m);
    if let Some(Json::Str(r)) = assoc_get(m, "$ref"@) {
        if components_schemas_prefix().is_prefix_of(r) {
            lemma_assoc_get_insert_other(m, "$ref"@, Json::Str(r.skip(components_schemas_prefix().len() as int)), k);
        }
    }
    lemma_remove_keys_other(simplify_ref(m), openapi_only_keys(), k);
    lemma_prepared_distinct(o);
    assert(openapi_only_keys()[2] == "oneOf"@);
    assert(openapi_only_keys()[3] == "anyOf"@);
    assert(openapi_only_keys().contains(key));
    lemma_rewritten_get(o, k);
    lemma_rewritten_get(o, key);
}


/// Storing the absent entries of `e`, whose keys are distinct, keeps `o`'s value
/// for each of its keys and reads back `e`'s for the others.
proof fn lemma_insert_missing_all_get(o: Seq<(Seq<char>, Json)>, e: Seq<(Seq<char>, Json)>, k: Seq<char>)
    requires
        keys_distinct(keys_of(e)),
    ensures
        assoc_get(insert_missing_all(o, e), k) == match assoc_get(o, k) {
            Some(v) => Some(v),
            None => assoc_get(e, k),
        },
    decreases e.len(),
{
    if e.len() > 0 {
        let d = e.drop_last();
        assert(keys_distinct(keys_of(d))) by {
            assert forall|a: int, b: int| 0 <= a < keys_of(d).len() && 0 <= b < keys_of(d).len() && a != b
                implies keys_of(d)[a] != keys_of(d)[b] by {
                assert(keys_of(d)[a] == keys_of(e)[a]);
                assert(keys_of(d)[b] == keys_of(e)[b]);
            }
        }
        lemma_insert_missing_all_get(o, d, k);
        assert(d.push(e.last()) =~= e);
        lemma_assoc_get_push(d, e.last(), k);
        lemma_assoc_get_insert_missing(insert_missing_all(o, d), e.last().0, e.last().1, k);
        if k == e.last().0 {
            lemma_index_of_key(keys_of(d), k);
            if let Some(j) = index_of_key(keys_of(d), k) {
                assert(keys_of(e)[j] == keys_of(d)[j]);
                assert(keys_of(e)[e.len() - 1] == e.last().0);
            }
        }
    }
}

/// A single-entry `allOf` whose entry is an object (keys distinct), in an object
/// without `oneOf` or `anyOf`, is merged in without overriding: every key (not
/// OpenAPI-only, not `$ref`) keeps the object's own value when it has one, and
/// takes the entry's value otherwise, rewritten either way; `allOf` is gone.
pub proof fn law_single_all_of_fills_missing(o: Seq<(Seq<char>, Json)>, inner: Seq<(Seq<char>, Json)>, k: Seq<char>)
    requires
        assoc_get(o, "oneOf"@) is None,
        assoc_get(o, "anyOf"@) is None,
        assoc_get(o, "allOf"@) == Some(Json::Array(seq![Json::Object(inner)])),
        keys_distinct(keys_of(inner)),
        !openapi_only_keys().contains(k),
        k != "$ref"@,
    ensures
        discovery_schema(Json::Object(o)) matches Json::Object(q) && assoc_get(q, "allOf"@) is None
            && assoc_get(q, k) == match assoc_get(o, k) {
            Some(v) => Some(discovery_schema(v)),
            None => match assoc_get(inner, k) {
                Some(v) => Some(discovery_schema(v)),
                None => None,
            },
        },
{
    let a = seq![Json::Object(inner)];
    assert(a.len() == 1 && a[0] == Json::Object(inner));
    let rest = assoc_remove(o, "allOf"@);
    let m = insert_missing_all(rest, inner);
    assert(openapi_only_keys()[4] == "allOf"@);
    assert(openapi_only_keys().contains("allOf"@));
    assert(k != "allOf"@);
    lemma_assoc_get_remove_other(o, "allOf"@, k);
    lemma_insert_missing_all_get(rest, inner, k);
    let o3 = flatten_all_of(flatten_union(flatten_union(o, "oneOf"@), "anyOf"@));
    assert(o3 == m);
    if let Some(Json::Str(r)) = assoc_get(m, "$ref"@) {
        if components_schemas_prefix().is_prefix_of(r) {
            lemma_assoc_get_insert_other(m, "$ref"@, Json::Str(r.skip(components_schemas_prefix().len() as int)), k);
        }
    }
    lemma_remove_keys_other(simplify_ref(m), openapi_only_keys(), k);
    lemma_prepared_distinct(o);
    lemma_rewritten_get(o, k);
    lemma_rewritten_get(o, "allOf"@);
}

} // verus!
