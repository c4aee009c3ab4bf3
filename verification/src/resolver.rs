//! Resolving `$ref` pointers against the components of a description.

use vstd::prelude::*;
use crate::openapi::{ComponentsObject, OpenApiSpec, ParameterObject, RefOr, RequestBodyObject, ResponseObject, SchemaObject};
use crate::assoc::{exec_keys, keys_distinct};
use crate::transform::schemas::last_entry;
use crate::text::{after_last, chars_of, lemma_split_on_last, split_on, str_eq};

verus! {

/// The terminal name of a `$ref` path: what follows its last `/`.
pub open spec fn ref_name_of(r: Seq<char>) -> Seq<char> {
    after_last(r, '/')
}

/// Extracts the terminal name from a `$ref` path: `#/components/schemas/User` → `User`.
pub fn ref_name(ref_path: &str) -> (r: &str)
    ensures
        r@ == ref_name_of(ref_path@),
        r@ == split_on(ref_path@, '/').last(),
{
    proof {
        lemma_split_on_last(ref_path@, '/');
    }
    let cs = chars_of(ref_path);
    let n = cs.len();
    let mut start: usize = n;
    proof {
        assert(cs@.take(n as int) =~= cs@);
        assert(cs@.subrange(n as int, n as int) =~= Seq::<char>::empty());
        assert(after_last(cs@, '/') + Seq::<char>::empty() =~= after_last(cs@, '/'));
    }
    while start > 0 && cs[start - 1] != '/'
        invariant
            n == cs@.len(),
            cs@ == ref_path@,
            start <= n,
            after_last(cs@, '/') == after_last(cs@.take(start as int), '/') + cs@.subrange(start as int, n as int),
        decreases start,
    {
        proof {
            let t = cs@.take(start as int);
            assert(t.drop_last() =~= cs@.take(start - 1));
            assert(cs@.subrange(start - 1, n as int) =~= seq![t.last()] + cs@.subrange(start as int, n as int));
            assert(after_last(t, '/') == after_last(t.drop_last(), '/').push(t.last()));
            assert(after_last(t.drop_last(), '/').push(t.last()) + cs@.subrange(start as int, n as int)
                =~= after_last(t.drop_last(), '/') + (seq![t.last()] + cs@.subrange(start as int, n as int)));
        }
        start = start - 1;
    }
    proof {
        assert(cs@.take(n as int) =~= cs@);
        assert(after_last(cs@.take(0), '/') =~= Seq::<char>::empty());
        if start > 0 {
            assert(cs@.take(start as int).last() == '/');
        }
        assert(after_last(cs@, '/') =~= cs@.subrange(start as int, n as int));
    }
    ref_path.substring_char(start, n)
}

/// The terminal name of a reference contains no `/`, and the reference is some
/// prefix (empty, or ending in `/`) followed by it.
pub proof fn law_ref_name_is_terminal(r: Seq<char>)
    ensures
        forall|i: int| 0 <= i < ref_name_of(r).len() ==> ref_name_of(r)[i] != '/',
        ref_name_of(r).is_suffix_of(r),
        ref_name_of(r).len() == r.len() || r[r.len() - ref_name_of(r).len() - 1] == '/',
    decreases r.len(),
{
    if r.len() > 0 && r.last() != '/' {
        law_ref_name_is_terminal(r.drop_last());
        let t = ref_name_of(r.drop_last());
        assert(ref_name_of(r) == t.push(r.last()));
        assert forall|i: int| 0 <= i < ref_name_of(r).len() implies ref_name_of(r)[i] != '/' by {
            if i < t.len() {
                assert(ref_name_of(r)[i] == t[i]);
            }
        }
        assert(r.subrange(r.len() - ref_name_of(r).len(), r.len() as int) =~= ref_name_of(r)) by {
            assert(r.drop_last().subrange(r.drop_last().len() - t.len(), r.drop_last().len() as int) =~= t);
        }
        if t.len() < r.drop_last().len() {
            assert(r[r.len() - ref_name_of(r).len() - 1] == r.drop_last()[r.drop_last().len() - t.len() - 1]);
        }
    } else if r.len() > 0 {
        assert(ref_name_of(r) =~= Seq::<char>::empty());
        assert(r.subrange(r.len() as int, r.len() as int) =~= Seq::<char>::empty());
    } else {
        assert(r.subrange(0, 0) =~= ref_name_of(r));
    }
}

/// The item stored under `k` in a name → reference-or-item list, as a lookup
/// table built by inserting the items in order would hold it: the last item
/// with that name (references are not entered).
pub open spec fn last_item<T>(entries: Seq<(String, RefOr<T>)>, k: Seq<char>) -> Option<T>
    decreases entries.len(),
{
    if entries.len() == 0 {
        None
    } else {
        match entries.last() {
            (name, RefOr::Item(v)) => if name@ == k {
                Some(v)
            } else {
                last_item(entries.drop_last(), k)
            },
            _ => last_item(entries.drop_last(), k),
        }
    }
}

/// The value stored under `k` in a lookup table (first entry with the key).
pub open spec fn table_get<T>(t: Seq<(&str, &T)>, k: Seq<char>) -> Option<T>
    decreases t.len(),
{
    if t.len() == 0 {
        None
    } else {
        match table_get(t.drop_last(), k) {
            Some(v) => Some(v),
            None => if t.last().0@ == k {
                Some(*t.last().1)
            } else {
                None
            },
        }
    }
}

/// Resolution of a reference-or-item against a component list.
pub open spec fn resolved<T>(entries: Seq<(String, RefOr<T>)>, r: RefOr<T>) -> Option<T> {
    match r {
        RefOr::Item(v) => Some(v),
        RefOr::Reference(p) => last_item(entries, ref_name_of(p@)),
    }
}

pub open spec fn component_schemas(spec: OpenApiSpec) -> Seq<(String, RefOr<SchemaObject>)> {
    match spec.components {
        Some(c) => c.schemas@,
        None => Seq::empty(),
    }
}

pub open spec fn component_parameters(spec: OpenApiSpec) -> Seq<(String, RefOr<ParameterObject>)> {
    match spec.components {
        Some(c) => c.parameters@,
        None => Seq::empty(),
    }
}

pub open spec fn component_request_bodies(spec: OpenApiSpec) -> Seq<(String, RefOr<RequestBodyObject>)> {
    match spec.components {
        Some(c) => c.request_bodies@,
        None => Seq::empty(),
    }
}

pub open spec fn component_responses(spec: OpenApiSpec) -> Seq<(String, RefOr<ResponseObject>)> {
    match spec.components {
        Some(c) => c.responses@,
        None => Seq::empty(),
    }
}

/// A table holds, under every name, the last item of `entries` with that name.
pub open spec fn table_matches<T>(t: Seq<(&str, &T)>, entries: Seq<(String, RefOr<T>)>) -> bool {
    forall|k: Seq<char>| #[trigger] table_get(t, k) == last_item(entries, k)
}

proof fn lemma_table_get_push<T>(t: Seq<(&str, &T)>, key: &str, v: &T, k: Seq<char>)
    ensures
        table_get(t.push((key, v)), k) == match table_get(t, k) {
            Some(x) => Some(x),
            None => if key@ == k { Some(*v) } else { None },
        },
{
    assert(t.push((key, v)).drop_last() =~= t);
}

proof fn lemma_table_get_update<T>(t: Seq<(&str, &T)>, i: int, key: &str, v: &T, k: Seq<char>)
    requires
        0 <= i < t.len(),
        t[i].0@ == key@,
        forall|j: int| 0 <= j < i ==> t[j].0@ != key@,
    ensures
        table_get(t.update(i, (key, v)), k) == if key@ == k { Some(*v) } else { table_get(t, k) },
    decreases t.len(),
{
    let u = t.update(i, (key, v));
    if i == t.len() - 1 {
        assert(u.drop_last() =~= t.drop_last());
        lemma_table_get_prefix_missing(t.drop_last(), key@);
    } else {
        assert(u.drop_last() =~= t.drop_last().update(i, (key, v)));
        lemma_table_get_update(t.drop_last(), i, key, v, k);
        if key@ == k {
            lemma_table_get_found(t.drop_last(), i, k);
        }
    }
}

proof fn lemma_table_get_prefix_missing<T>(t: Seq<(&str, &T)>, k: Seq<char>)
    requires
        forall|j: int| 0 <= j < t.len() ==> t[j].0@ != k,
    ensures
        table_get(t, k) is None,
    decreases t.len(),
{
    if t.len() > 0 {
        lemma_table_get_prefix_missing(t.drop_last(), k);
    }
}

proof fn lemma_table_get_found<T>(t: Seq<(&str, &T)>, i: int, k: Seq<char>)
    requires
        0 <= i < t.len(),
        t[i].0@ == k,
    ensures
        table_get(t, k) is Some,
    decreases t.len(),
{
    if i < t.len() - 1 {
        lemma_table_get_found(t.drop_last(), i, k);
    }
}

/// Inserts `v` under `key`, replacing an existing entry for the same name.
fn table_insert<'a, T>(t: &mut Vec<(&'a str, &'a T)>, key: &'a str, v: &'a T)
    ensures
        forall|k: Seq<char>| #[trigger] table_get(final(t)@, k) == if key@ == k {
            Some(*v)
        } else {
            table_get(old(t)@, k)
        },
{
    let n = t.len();
    let mut i: usize = 0;
    while i < n
        invariant
            n == t@.len(),
            t@ == old(t)@,
            i <= n,
            forall|j: int| 0 <= j < i ==> t@[j].0@ != key@,
        decreases n - i,
    {
        if str_eq(t[i].0, key) {
            let ghost before = t@;
            t.set(i, (key, v));
            proof {
                assert forall|k: Seq<char>| #[trigger] table_get(t@, k) == if key@ == k {
                    Some(*v)
                } else {
                    table_get(before, k)
                } by {
                    lemma_table_get_update(before, i as int, key, v, k);
                }
            }
            return;
        }
        i += 1;
    }
    let ghost before = t@;
    t.push((key, v));
    proof {
        assert forall|k: Seq<char>| #[trigger] table_get(t@, k) == if key@ == k {
            Some(*v)
        } else {
            table_get(before, k)
        } by {
            lemma_table_get_push(before, key, v, k);
            if key@ == k {
                lemma_table_get_prefix_missing(before, k);
            }
        }
    }
}

/// Builds a lookup table from the items of a component list.
fn build_table<'a, T>(entries: &'a Vec<(String, RefOr<T>)>) -> (r: Vec<(&'a str, &'a T)>)
    ensures
        table_matches(r@, entries@),
{
    let mut t: Vec<(&'a str, &'a T)> = Vec::new();
    let n = entries.len();
    for i in 0..n
        invariant
            n == entries@.len(),
            table_matches(t@, entries@.take(i as int)),
    {
        proof {
            assert(entries@.take(i + 1).drop_last() =~= entries@.take(i as int));
            assert(entries@.take(i + 1).last() == entries@[i as int]);
        }
        let entry = &entries[i];
        match &entry.1 {
            RefOr::Item(v) => {
                table_insert(&mut t, entry.0.as_str(), v);
            },
            RefOr::Reference(_) => {},
        }
    }
    assert(entries@.take(n as int) =~= entries@);
    t
}

/// Looks up `k` in a lookup table.
fn table_lookup<'a, T>(t: &Vec<(&'a str, &'a T)>, k: &str) -> (r: Option<&'a T>)
    ensures
        match r {
            Some(v) => table_get(t@, k@) == Some(*v),
            None => table_get(t@, k@) is None,
        },
{
    let n = t.len();
    let mut i: usize = 0;
    while i < n
        invariant
            n == t@.len(),
            i <= n,
            forall|j: int| 0 <= j < i ==> t@[j].0@ != k@,
        decreases n - i,
    {
        if str_eq(t[i].0, k) {
            proof {
                lemma_table_get_first(t@, i as int, k@);
            }
            return Some(t[i].1);
        }
        i += 1;
    }
    proof {
        lemma_table_get_prefix_missing(t@, k@);
    }
    None
}

proof fn lemma_table_get_first<T>(t: Seq<(&str, &T)>, i: int, k: Seq<char>)
    requires
        0 <= i < t.len(),
        t[i].0@ == k,
        forall|j: int| 0 <= j < i ==> t[j].0@ != k,
    ensures
        table_get(t, k) == Some(*t[i].1),
    decreases t.len(),
{
    if i < t.len() - 1 {
        lemma_table_get_first(t.drop_last(), i, k);
    } else {
        lemma_table_get_prefix_missing(t.drop_last(), k);
    }
}

/// Lookup tables for resolving `$ref` pointers within a description.
pub struct RefResolver<'a> {
    schemas: Vec<(&'a str, &'a SchemaObject)>,
    parameters: Vec<(&'a str, &'a ParameterObject)>,
    request_bodies: Vec<(&'a str, &'a RequestBodyObject)>,
    responses: Vec<(&'a str, &'a ResponseObject)>,
    source: Ghost<OpenApiSpec>,
}

impl<'a> RefResolver<'a> {
    #[verifier::type_invariant]
    spec fn tables_match(self) -> bool {
        &&& table_matches(self.schemas@, component_schemas(self.source@))
        &&& table_matches(self.parameters@, component_parameters(self.source@))
        &&& table_matches(self.request_bodies@, component_request_bodies(self.source@))
        &&& table_matches(self.responses@, component_responses(self.source@))
    }

    /// The description the tables were built from.
    pub closed spec fn source(&self) -> OpenApiSpec {
        self.source@
    }

    /// Builds the lookup tables from the components of `spec`.
    pub fn new(spec: &'a OpenApiSpec) -> (r: Self)
        ensures
            r.source() == *spec,
    {
        match &spec.components {
            None => RefResolver {
                schemas: Vec::new(),
                parameters: Vec::new(),
                request_bodies: Vec::new(),
                responses: Vec::new(),
                source: Ghost(*spec),
            },
            Some(components) => RefResolver {
                schemas: build_table(&components.schemas),
                parameters: build_table(&components.parameters),
                request_bodies: build_table(&components.request_bodies),
                responses: build_table(&components.responses),
                source: Ghost(*spec),
            },
        }
    }

    /// The schema itself, or the component schema a reference names (`None` when there is none).
    pub fn resolve_schema<'b>(&'b self, r: &'b RefOr<SchemaObject>) -> (res: Option<&'b SchemaObject>)
        where 'a: 'b,
        ensures
            match res {
                Some(v) => resolved(component_schemas(self.source()), *r) == Some(*v),
                None => resolved(component_schemas(self.source()), *r) is None,
            },
    {
        proof {
            use_type_invariant(self);
        }
        match r {
            RefOr::Item(item) => Some(item),
            RefOr::Reference(reference) => table_lookup(&self.schemas, ref_name(reference.as_str())),
        }
    }

    /// The parameter itself, or the component parameter a reference names (`None` when there is none).
    pub fn resolve_parameter<'b>(&'b self, r: &'b RefOr<ParameterObject>) -> (res: Option<&'b ParameterObject>)
        where 'a: 'b,
        ensures
            match res {
                Some(v) => resolved(component_parameters(self.source()), *r) == Some(*v),
                None => resolved(component_parameters(self.source()), *r) is None,
            },
    {
        proof {
            use_type_invariant(self);
        }
        match r {
            RefOr::Item(item) => Some(item),
            RefOr::Reference(reference) => table_lookup(&self.parameters, ref_name(reference.as_str())),
        }
    }

    /// The request body itself, or the component request body a reference names (`None` when there is none).
    pub fn resolve_request_body<'b>(&'b self, r: &'b RefOr<RequestBodyObject>) -> (res: Option<&'b RequestBodyObject>)
        where 'a: 'b,
        ensures
            match res {
                Some(v) => resolved(component_request_bodies(self.source()), *r) == Some(*v),
                None => resolved(component_request_bodies(self.source()), *r) is None,
            },
    {
        proof {
            use_type_invariant(self);
        }
        match r {
            RefOr::Item(item) => Some(item),
            RefOr::Reference(reference) => table_lookup(&self.request_bodies, ref_name(reference.as_str())),
        }
    }

    /// The response itself, or the component response a reference names (`None` when there is none).
    pub fn resolve_response<'b>(&'b self, r: &'b RefOr<ResponseObject>) -> (res: Option<&'b ResponseObject>)
        where 'a: 'b,
        ensures
            match res {
                Some(v) => resolved(component_responses(self.source()), *r) == Some(*v),
                None => resolved(component_responses(self.source()), *r) is None,
            },
    {
        proof {
            use_type_invariant(self);
        }
        match r {
            RefOr::Item(item) => Some(item),
            RefOr::Reference(reference) => table_lookup(&self.responses, ref_name(reference.as_str())),
        }
    }
}


// ---------------------------------------------------------------------------
// Laws
// ---------------------------------------------------------------------------

proof fn lemma_after_last_append(prefix: Seq<char>, name: Seq<char>)
    requires
        prefix.len() > 0,
        prefix.last() == '/',
        forall|i: int| 0 <= i < name.len() ==> name[i] != '/',
    ensures
        after_last(prefix + name, '/') == name,
    decreases name.len(),
{
    if name.len() == 0 {
        assert(prefix + name =~= prefix);
    } else {
        assert((prefix + name).drop_last() =~= prefix + name.drop_last());
        lemma_after_last_append(prefix, name.drop_last());
        assert((prefix + name).last() == name.last());
        assert(name.drop_last().push(name.last()) =~= name);
    }
}

proof fn lemma_last_item_absent<T>(entries: Seq<(String, RefOr<T>)>, k: Seq<char>)
    requires
        forall|i: int| 0 <= i < entries.len() ==> entries[i].0@ != k,
    ensures
        last_item(entries, k) is None,
    decreases entries.len(),
{
    if entries.len() > 0 {
        assert(entries[entries.len() - 1] == entries.last());
        lemma_last_item_absent(entries.drop_last(), k);
    }
}

proof fn lemma_last_item_distinct<T>(entries: Seq<(String, RefOr<T>)>, i: int)
    requires
        keys_distinct(exec_keys(entries)),
        0 <= i < entries.len(),
    ensures
        last_item(entries, entries[i].0@) == match entries[i].1 {
            RefOr::Item(v) => Some(v),
            RefOr::Reference(_) => None,
        },
    decreases entries.len(),
{
    let k = entries[i].0@;
    let n = entries.len() - 1;
    let prev = entries.drop_last();
    assert(exec_keys(entries)[i] == k);
    if i == n {
        assert forall|j: int| 0 <= j < prev.len() implies prev[j].0@ != k by {
            assert(exec_keys(entries)[j] == prev[j].0@);
        }
        lemma_last_item_absent(prev, k);
    } else {
        assert(exec_keys(entries)[n] == entries.last().0@);
        assert(keys_distinct(exec_keys(prev))) by {
            assert forall|a: int, b: int| 0 <= a < prev.len() && 0 <= b < prev.len() && a != b
                implies exec_keys(prev)[a] != exec_keys(prev)[b] by {
                assert(exec_keys(prev)[a] == exec_keys(entries)[a]);
                assert(exec_keys(prev)[b] == exec_keys(entries)[b]);
            }
        }
        assert(prev[i] == entries[i]);
        lemma_last_item_distinct(prev, i);
    }
}

/// With distinct component names, a reference `prefix + name` (the prefix ending
/// in `/`, the name free of `/`) resolves to the component of that name when it
/// is an item, and to nothing when that component is itself a reference: such a
/// component is not followed.
pub proof fn law_component_reference_resolves<T>(
    entries: Seq<(String, RefOr<T>)>,
    i: int,
    reference: String,
    prefix: Seq<char>,
)
    requires
        keys_distinct(exec_keys(entries)),
        0 <= i < entries.len(),
        prefix.len() > 0,
        prefix.last() == '/',
        forall|j: int| 0 <= j < entries[i].0@.len() ==> entries[i].0@[j] != '/',
        reference@ == prefix + entries[i].0@,
    ensures
        resolved(entries, RefOr::Reference(reference)) == match entries[i].1 {
            RefOr::Item(v) => Some(v),
            RefOr::Reference(_) => None,
        },
{
    lemma_after_last_append(prefix, entries[i].0@);
    lemma_last_item_distinct(entries, i);
}


/// Every component list of the description holds each name once.
pub open spec fn component_names_distinct(spec: OpenApiSpec) -> bool {
    &&& keys_distinct(exec_keys(component_schemas(spec)))
    &&& keys_distinct(exec_keys(component_parameters(spec)))
    &&& keys_distinct(exec_keys(component_request_bodies(spec)))
    &&& keys_distinct(exec_keys(component_responses(spec)))
}

proof fn lemma_last_item_of_last_entry<T>(entries: Seq<(String, RefOr<T>)>, k: Seq<char>, v: T)
    requires
        last_entry(entries, k) == Some(RefOr::Item(v)),
    ensures
        last_item(entries, k) == Some(v),
    decreases entries.len(),
{
    if entries.len() > 0 && entries.last().0@ != k {
        lemma_last_item_of_last_entry(entries.drop_last(), k, v);
    }
}

/// A reference `prefix + name` (the prefix ending in `/`, the name free of `/`)
/// resolves to the item that the component list holds last under `name`.
pub proof fn law_component_reference_resolves_to_item<T>(
    entries: Seq<(String, RefOr<T>)>,
    reference: String,
    prefix: Seq<char>,
    name: Seq<char>,
    v: T,
)
    requires
        prefix.len() > 0,
        prefix.last() == '/',
        forall|j: int| 0 <= j < name.len() ==> name[j] != '/',
        reference@ == prefix + name,
        last_entry(entries, name) == Some(RefOr::Item(v)),
    ensures
        resolved(entries, RefOr::Reference(reference)) == Some(v),
{
    lemma_after_last_append(prefix, name);
    lemma_last_item_of_last_entry(entries, name, v);
}

} // verus!
