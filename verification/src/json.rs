//! JSON values, as the schema logic reads and rewrites them.

use vstd::prelude::*;
use crate::assoc::{
    assoc_get, assoc_insert, assoc_insert_missing, assoc_lookup, assoc_remove, assoc_view, index_of_key,
    keys_of, lemma_index_of_key,
};

verus! {

/// A JSON value. Objects are ordered `(key, value)` entries read with map semantics
/// (see [`crate::assoc`]); numbers are kept as their text.
#[derive(Debug)]
pub enum JsonValue {
    Null,
    Bool(bool),
    Number(String),
    Str(String),
    Array(Vec<JsonValue>),
    Object(Vec<(String, JsonValue)>),
}

/// The mathematical content of a [`JsonValue`].
pub enum Json {
    Null,
    Bool(bool),
    Number(Seq<char>),
    Str(Seq<char>),
    Array(Seq<Json>),
    Object(Seq<(Seq<char>, Json)>),
}

pub open spec fn json_view(v: JsonValue) -> Json
    decreases v,
{
    match v {
        JsonValue::Null => Json::Null,
        JsonValue::Bool(b) => Json::Bool(b),
        JsonValue::Number(n) => Json::Number(n@),
        JsonValue::Str(s) => Json::Str(s@),
        JsonValue::Array(a) => Json::Array(
            Seq::new(a.len() as nat, |i: int| if 0 <= i < a.len() { json_view(a@[i]) } else { Json::Null }),
        ),
        JsonValue::Object(o) => Json::Object(
            Seq::new(
                o.len() as nat,
                |i: int|
                    if 0 <= i < o.len() {
                        (o@[i].0@, json_view(o@[i].1))
                    } else {
                        (Seq::empty(), Json::Null)
                    },
            ),
        ),
    }
}

impl View for JsonValue {
    type V = Json;

    open spec fn view(&self) -> Json {
        json_view(*self)
    }
}

/// The views of a sequence of JSON values.
pub open spec fn json_views(a: Seq<JsonValue>) -> Seq<Json> {
    a.map_values(|x: JsonValue| x@)
}

pub proof fn lemma_array_view(a: Vec<JsonValue>)
    ensures
        JsonValue::Array(a)@ == Json::Array(json_views(a@)),
{
    if let Json::Array(s) = JsonValue::Array(a)@ {
        assert(s =~= json_views(a@));
    }
}

pub proof fn lemma_object_view(o: Vec<(String, JsonValue)>)
    ensures
        JsonValue::Object(o)@ == Json::Object(assoc_view(o@)),
{
    if let Json::Object(s) = JsonValue::Object(o)@ {
        assert(s =~= assoc_view(o@));
    }
}

/// The largest element of a sequence of naturals (0 when empty).
pub open spec fn max_of(s: Seq<nat>) -> nat
    decreases s.len(),
{
    if s.len() == 0 {
        0
    } else {
        let m = max_of(s.drop_last());
        if s.last() > m { s.last() } else { m }
    }
}

/// Nesting depth of a JSON value: 0 for scalars, one more than the deepest element otherwise.
pub open spec fn height(j: Json) -> nat
    decreases j, 1nat,
{
    match j {
        Json::Array(_) => 1 + max_of(child_heights(j)),
        Json::Object(_) => 1 + max_of(child_heights(j)),
        _ => 0,
    }
}

/// The heights of the elements (of an array) or values (of an object).
pub open spec fn child_heights(j: Json) -> Seq<nat>
    decreases j, 0nat,
{
    match j {
        Json::Array(a) => Seq::new(a.len(), |i: int| if 0 <= i < a.len() { height(a[i]) } else { 0 }),
        Json::Object(o) => Seq::new(o.len(), |i: int| if 0 <= i < o.len() { height(o[i].1) } else { 0 }),
        _ => Seq::empty(),
    }
}

pub proof fn lemma_max_of(s: Seq<nat>, i: int)
    requires
        0 <= i < s.len(),
    ensures
        s[i] <= max_of(s),
    decreases s.len(),
{
    if i < s.len() - 1 {
        lemma_max_of(s.drop_last(), i);
    }
}

/// Every element of an array is shallower than the array.
pub proof fn lemma_height_array(a: Seq<Json>, i: int)
    requires
        0 <= i < a.len(),
    ensures
        height(a[i]) < height(Json::Array(a)),
{
    lemma_max_of(child_heights(Json::Array(a)), i);
}

/// Every value of an object is shallower than the object.
pub proof fn lemma_height_object(o: Seq<(Seq<char>, Json)>, i: int)
    requires
        0 <= i < o.len(),
    ensures
        height(o[i].1) < height(Json::Object(o)),
{
    lemma_max_of(child_heights(Json::Object(o)), i);
}

/// Every value stored in `o` has height below `h`.
pub open spec fn values_below(o: Seq<(Seq<char>, Json)>, h: nat) -> bool {
    forall|i: int| 0 <= i < o.len() ==> #[trigger] height(o[i].1) < h
}

pub proof fn lemma_get_below(o: Seq<(Seq<char>, Json)>, k: Seq<char>, h: nat)
    requires
        values_below(o, h),
    ensures
        assoc_get(o, k) matches Some(x) ==> height(x) < h,
{
    lemma_index_of_key(keys_of(o), k);
    if let Some(i) = index_of_key(keys_of(o), k) {
        assert(height(o[i].1) < h);
    }
}

pub proof fn lemma_insert_below(o: Seq<(Seq<char>, Json)>, k: Seq<char>, v: Json, h: nat)
    requires
        values_below(o, h),
        height(v) < h,
    ensures
        values_below(assoc_insert(o, k, v), h),
        values_below(assoc_insert_missing(o, k, v), h),
{
    lemma_index_of_key(keys_of(o), k);
    let r = assoc_insert(o, k, v);
    assert forall|i: int| 0 <= i < r.len() implies #[trigger] height(r[i].1) < h by {
        if i < o.len() && r[i] != (k, v) {
            assert(r[i] == o[i]);
        }
    }
    let r2 = assoc_insert_missing(o, k, v);
    assert forall|i: int| 0 <= i < r2.len() implies #[trigger] height(r2[i].1) < h by {
        if i < o.len() {
            assert(r2[i] == o[i]);
        }
    }
}

pub proof fn lemma_remove_below(o: Seq<(Seq<char>, Json)>, k: Seq<char>, h: nat)
    requires
        values_below(o, h),
    ensures
        values_below(assoc_remove(o, k), h),
{
    lemma_index_of_key(keys_of(o), k);
    let r = assoc_remove(o, k);
    if let Some(j) = index_of_key(keys_of(o), k) {
        assert forall|i: int| 0 <= i < r.len() implies #[trigger] height(r[i].1) < h by {
            if i < j {
                assert(r[i] == o[i]);
            } else {
                assert(r[i] == o[i + 1]);
            }
        }
    }
}

/// Every value stored in `o` satisfies `f`.
pub open spec fn values_satisfy(o: Seq<(Seq<char>, Json)>, f: spec_fn(Json) -> bool) -> bool {
    forall|i: int| #![trigger o[i]] 0 <= i < o.len() ==> f(o[i].1)
}

/// `f` holds of the elements and values of every array and object it holds of.
pub open spec fn hereditary(f: spec_fn(Json) -> bool) -> bool {
    forall|x: Json| #[trigger] f(x) ==> match x {
        Json::Array(a) => forall|i: int| #![trigger a[i]] 0 <= i < a.len() ==> f(a[i]),
        Json::Object(o) => values_satisfy(o, f),
        _ => true,
    }
}

pub proof fn lemma_get_satisfy(o: Seq<(Seq<char>, Json)>, k: Seq<char>, f: spec_fn(Json) -> bool)
    requires
        values_satisfy(o, f),
    ensures
        assoc_get(o, k) matches Some(x) ==> f(x),
{
    lemma_index_of_key(keys_of(o), k);
    if let Some(i) = index_of_key(keys_of(o), k) {
        assert(f(o[i].1));
    }
}

pub proof fn lemma_insert_satisfy(o: Seq<(Seq<char>, Json)>, k: Seq<char>, v: Json, f: spec_fn(Json) -> bool)
    requires
        values_satisfy(o, f),
        f(v),
    ensures
        values_satisfy(assoc_insert(o, k, v), f),
        values_satisfy(assoc_insert_missing(o, k, v), f),
{
    lemma_index_of_key(keys_of(o), k);
    let r = assoc_insert(o, k, v);
    assert forall|i: int| 0 <= i < r.len() implies f(#[trigger] r[i].1) by {
        if i < o.len() && r[i] != (k, v) {
            assert(r[i] == o[i]);
        }
    }
    let r2 = assoc_insert_missing(o, k, v);
    assert forall|i: int| 0 <= i < r2.len() implies f(#[trigger] r2[i].1) by {
        if i < o.len() {
            assert(r2[i] == o[i]);
        }
    }
}

pub proof fn lemma_remove_satisfy(o: Seq<(Seq<char>, Json)>, k: Seq<char>, f: spec_fn(Json) -> bool)
    requires
        values_satisfy(o, f),
    ensures
        values_satisfy(assoc_remove(o, k), f),
{
    lemma_index_of_key(keys_of(o), k);
    let r = assoc_remove(o, k);
    if let Some(j) = index_of_key(keys_of(o), k) {
        assert forall|i: int| 0 <= i < r.len() implies f(#[trigger] r[i].1) by {
            if i < j {
                assert(r[i] == o[i]);
            } else {
                assert(r[i] == o[i + 1]);
            }
        }
    }
}

impl JsonValue {
    /// The value stored under `key` when this is an object.
    pub fn get(&self, key: &str) -> (r: Option<&JsonValue>)
        ensures
            match self@ {
                Json::Object(o) => match r {
                    Some(v) => assoc_get(o, key@) == Some(v@),
                    None => assoc_get(o, key@) is None,
                },
                _ => r is None,
            },
    {
        match self {
            JsonValue::Object(o) => {
                proof {
                    lemma_object_view(*o);
                }
                assoc_lookup(o, key)
            },
            _ => None,
        }
    }

    /// The text when this is a string.
    pub fn as_str(&self) -> (r: Option<&str>)
        ensures
            match self@ {
                Json::Str(s) => r is Some && r->0@ == s,
                _ => r is None,
            },
    {
        match self {
            JsonValue::Str(s) => Some(s.as_str()),
            _ => None,
        }
    }

    /// The elements when this is an array.
    pub fn as_array(&self) -> (r: Option<&Vec<JsonValue>>)
        ensures
            match self@ {
                Json::Array(a) => r is Some && json_views(r->0@) == a,
                _ => r is None,
            },
    {
        match self {
            JsonValue::Array(a) => {
                proof {
                    lemma_array_view(*a);
                }
                Some(a)
            },
            _ => None,
        }
    }

    /// True when this is `null`.
    pub fn is_null(&self) -> (r: bool)
        ensures
            r == (self@ is Null),
    {
        match self {
            JsonValue::Null => true,
            _ => false,
        }
    }
}

impl JsonValue {
    /// A copy of this value, at every depth.
    pub fn duplicate(&self) -> (r: JsonValue)
        ensures
            r@ == self@,
        decreases height(self@),
    {
        match self {
            JsonValue::Null => JsonValue::Null,
            JsonValue::Bool(b) => JsonValue::Bool(*b),
            JsonValue::Number(n) => JsonValue::Number(n.clone()),
            JsonValue::Str(s) => JsonValue::Str(s.clone()),
            JsonValue::Array(a) => {
                proof {
                    lemma_array_view(*a);
                }
                let ghost va = json_views(a@);
                let n = a.len();
                let mut out: Vec<JsonValue> = Vec::new();
                for i in 0..n
                    invariant
                        n == a@.len(),
                        va == json_views(a@),
                        self@ == Json::Array(va),
                        out@.len() == i,
                        forall|j: int| 0 <= j < i ==> #[trigger] out@[j]@ == va[j],
                {
                    proof {
                        lemma_height_array(va, i as int);
                        assert(va[i as int] == a@[i as int]@);
                    }
                    let c = a[i].duplicate();
                    out.push(c);
                }
                proof {
                    lemma_array_view(out);
                    assert(json_views(out@) =~= va);
                }
                JsonValue::Array(out)
            },
            JsonValue::Object(o) => {
                proof {
                    lemma_object_view(*o);
                }
                let ghost vo = assoc_view(o@);
                let n = o.len();
                let mut out: Vec<(String, JsonValue)> = Vec::new();
                for i in 0..n
                    invariant
                        n == o@.len(),
                        vo == assoc_view(o@),
                        self@ == Json::Object(vo),
                        out@.len() == i,
                        forall|j: int| #![trigger out@[j]] 0 <= j < i ==> out@[j].0@ == vo[j].0 && out@[j].1@ == vo[j].1,
                {
                    proof {
                        lemma_height_object(vo, i as int);
                        assert(vo[i as int] == (o@[i as int].0@, o@[i as int].1@));
                    }
                    let k = o[i].0.clone();
                    let c = o[i].1.duplicate();
                    assert(k@ == vo[i as int].0);
                    assert(c@ == vo[i as int].1);
                    let ghost before = out@;
                    out.push((k, c));
                    proof {
                        assert forall|j: int| #![trigger out@[j]] 0 <= j < i + 1 implies out@[j].0@ == vo[j].0 && out@[j].1@ == vo[j].1 by {
                            if j < i {
                                assert(out@[j] == before[j]);
                            }
                        }
                    }
                }
                proof {
                    lemma_object_view(out);
                    assert(assoc_view(out@) =~= vo);
                }
                JsonValue::Object(out)
            },
        }
    }
}

} // verus!
