//! The nested resource tree: methods built from operations, placed by path.

use vstd::prelude::*;
use crate::assoc::{
    keys_distinct, lemma_assoc_insert_distinct, lemma_assoc_insert_entries,
    assoc_get, assoc_insert, lemma_assoc_get_insert_missing, lemma_assoc_get_insert_other,
    lemma_assoc_get_insert_same, assoc_insert_missing, assoc_store, assoc_store_missing, assoc_view,
    exec_keys, find_key, index_of_key, keys_of, lemma_assoc_view_keys, lemma_index_of_exec_key,
    lemma_index_of_key,
};
use crate::discovery::{
    empty_resource, lemma_resource_view, opt_view, schema_ref_view, DiscoveryMethod, DiscoveryParameter,
    DiscoveryResource, MethodView, ParameterView, ResourceView, SchemaRef,
};
use crate::openapi::{
    FormatOf, IntegerFormatName, MediaType, NumberFormatName, OpenApiSpec, OperationObject, ParameterObject, ParameterFields,
    ParameterSchemaOrContent, PathItemObject, RefOr, ResponseObject, SchemaObject, SchemaKind, SchemaType,
    SecurityRequirement, ResponseKey, StringFormatName,
};
use crate::resolver::{
    component_parameters, component_request_bodies, component_responses, ref_name, ref_name_of,
    resolved, RefResolver,
};
use crate::text::{after_last, join, join_strings, str_eq, strip_prefix, to_lowercase, unicode_lowercase, views};
use crate::tree::{
    lemma_leading_slash_segments, ends_with_param, param_names, parameter_names, parse_segments, path_segments, resource_chain,
    segment_views, static_names, targets_item, Segment, SegmentView,
};

verus! {

// ---------------------------------------------------------------------------
// Method names
// ---------------------------------------------------------------------------

/// The method name for an HTTP verb: `create` for any POST, the standard name for
/// collection or item access of the other verbs when there is one, else the
/// operation id, else the lowercased verb.
pub open spec fn method_name_spec(verb: Seq<char>, is_item: bool, operation_id: Option<Seq<char>>) -> Seq<char> {
    if verb == "GET"@ && !is_item {
        "list"@
    } else if verb == "GET"@ && is_item {
        "get"@
    } else if verb == "POST"@ {
        "create"@
    } else if verb == "PUT"@ && is_item {
        "update"@
    } else if verb == "PATCH"@ && is_item {
        "patch"@
    } else if verb == "DELETE"@ && is_item {
        "delete"@
    } else {
        match operation_id {
            Some(id) => id,
            None => unicode_lowercase(verb),
        }
    }
}

/// The semantic method name for `verb` on a collection (`is_item == false`) or an item.
pub fn method_name_for(verb: &str, is_item: bool, op: &OperationObject) -> (r: String)
    ensures
        r@ == method_name_spec(verb@, is_item, opt_view(op.operation_id)),
{
    if str_eq(verb, "GET") && !is_item {
        return String::from_str("list");
    }
    if str_eq(verb, "GET") && is_item {
        return String::from_str("get");
    }
    if str_eq(verb, "POST") {
        return String::from_str("create");
    }
    if str_eq(verb, "PUT") && is_item {
        return String::from_str("update");
    }
    if str_eq(verb, "PATCH") && is_item {
        return String::from_str("patch");
    }
    if str_eq(verb, "DELETE") && is_item {
        return String::from_str("delete");
    }
    match &op.operation_id {
        Some(id) => id.clone(),
        None => to_lowercase(verb),
    }
}

// ---------------------------------------------------------------------------
// ParameterObject types
// ---------------------------------------------------------------------------

pub open spec fn string_format_name(f: StringFormatName) -> Seq<char> {
    match f {
        StringFormatName::Date => "date"@,
        StringFormatName::DateTime => "datetime"@,
        StringFormatName::Password => "password"@,
        StringFormatName::Byte => "byte"@,
        StringFormatName::Binary => "binary"@,
    }
}

pub open spec fn number_format_name(f: NumberFormatName) -> Seq<char> {
    match f {
        NumberFormatName::Float => "float"@,
        NumberFormatName::Double => "double"@,
    }
}

pub open spec fn integer_format_name(f: IntegerFormatName) -> Seq<char> {
    match f {
        IntegerFormatName::Int32 => "int32"@,
        IntegerFormatName::Int64 => "int64"@,
    }
}

/// A format as text: a known format by its lowercased name, an unknown one verbatim.
pub open spec fn format_text<T>(f: FormatOf<T>, name: spec_fn(T) -> Seq<char>) -> Option<Seq<char>> {
    match f {
        FormatOf::Item(x) => Some(name(x)),
        FormatOf::Unknown(u) => Some(u@),
        FormatOf::Empty => None,
    }
}

/// The non-null entries of an `enum` list.
pub open spec fn present_values(e: Seq<Option<String>>) -> Seq<Seq<char>>
    decreases e.len(),
{
    if e.len() == 0 {
        Seq::empty()
    } else {
        match e.last() {
            Some(s) => present_values(e.drop_last()).push(s@),
            None => present_values(e.drop_last()),
        }
    }
}

/// Discovery type, format and enumerated values of a schema kind.
pub open spec fn type_info(kind: SchemaKind) -> (Seq<char>, Option<Seq<char>>, Option<Seq<Seq<char>>>) {
    match kind {
        SchemaKind::Type(t) => match t {
            SchemaType::String(s) => (
                "string"@,
                format_text(s.format, |f: StringFormatName| string_format_name(f)),
                if s.enumeration@.len() == 0 {
                    None
                } else {
                    Some(present_values(s.enumeration@))
                },
            ),
            SchemaType::Integer(f) => ("integer"@, format_text(f, |f: IntegerFormatName| integer_format_name(f)), None),
            SchemaType::Number(f) => ("number"@, format_text(f, |f: NumberFormatName| number_format_name(f)), None),
            SchemaType::Boolean => ("boolean"@, None, None),
            SchemaType::Array => ("array"@, None, None),
            SchemaType::Object => ("object"@, None, None),
        },
        _ => ("string"@, None, None),
    }
}

/// The view of a (type, format, enum values) triple.
pub open spec fn type_triple_view(t: (String, Option<String>, Option<Vec<String>>)) -> (
    Seq<char>,
    Option<Seq<char>>,
    Option<Seq<Seq<char>>>,
) {
    (t.0@, opt_view(t.1), match t.2 {
        Some(v) => Some(views(v@)),
        None => None,
    })
}

fn string_format_text(f: &FormatOf<StringFormatName>) -> (r: Option<String>)
    ensures
        opt_view(r) == format_text(*f, |f: StringFormatName| string_format_name(f)),
{
    match f {
        FormatOf::Item(StringFormatName::Date) => Some(String::from_str("date")),
        FormatOf::Item(StringFormatName::DateTime) => Some(String::from_str("datetime")),
        FormatOf::Item(StringFormatName::Password) => Some(String::from_str("password")),
        FormatOf::Item(StringFormatName::Byte) => Some(String::from_str("byte")),
        FormatOf::Item(StringFormatName::Binary) => Some(String::from_str("binary")),
        FormatOf::Unknown(u) => Some(u.clone()),
        FormatOf::Empty => None,
    }
}

fn number_format_text(f: &FormatOf<NumberFormatName>) -> (r: Option<String>)
    ensures
        opt_view(r) == format_text(*f, |f: NumberFormatName| number_format_name(f)),
{
    match f {
        FormatOf::Item(NumberFormatName::Float) => Some(String::from_str("float")),
        FormatOf::Item(NumberFormatName::Double) => Some(String::from_str("double")),
        FormatOf::Unknown(u) => Some(u.clone()),
        FormatOf::Empty => None,
    }
}

fn integer_format_text(f: &FormatOf<IntegerFormatName>) -> (r: Option<String>)
    ensures
        opt_view(r) == format_text(*f, |f: IntegerFormatName| integer_format_name(f)),
{
    match f {
        FormatOf::Item(IntegerFormatName::Int32) => Some(String::from_str("int32")),
        FormatOf::Item(IntegerFormatName::Int64) => Some(String::from_str("int64")),
        FormatOf::Unknown(u) => Some(u.clone()),
        FormatOf::Empty => None,
    }
}

fn present_enum_values(e: &Vec<Option<String>>) -> (r: Vec<String>)
    ensures
        views(r@) == present_values(e@),
{
    let n = e.len();
    let mut out: Vec<String> = Vec::new();
    for i in 0..n
        invariant
            n == e@.len(),
            views(out@) == present_values(e@.take(i as int)),
    {
        proof {
            assert(e@.take(i + 1).drop_last() =~= e@.take(i as int));
        }
        let ghost before = out@;
        match &e[i] {
            Some(s) => {
                out.push(s.clone());
                assert(views(out@) =~= views(before).push(s@));
            },
            None => {},
        }
    }
    assert(e@.take(n as int) =~= e@);
    out
}

/// Discovery type, format and enumerated values of a schema kind.
pub fn type_from_schema_kind(kind: &SchemaKind) -> (r: (String, Option<String>, Option<Vec<String>>))
    ensures
        type_triple_view(r) == type_info(*kind),
{
    match kind {
        SchemaKind::Type(t) => match t {
            SchemaType::String(s) => {
                let fmt = string_format_text(&s.format);
                let enums = if s.enumeration.len() == 0 {
                    None
                } else {
                    Some(present_enum_values(&s.enumeration))
                };
                (String::from_str("string"), fmt, enums)
            },
            SchemaType::Integer(f) => (String::from_str("integer"), integer_format_text(f), None),
            SchemaType::Number(f) => (String::from_str("number"), number_format_text(f), None),
            SchemaType::Boolean => (String::from_str("boolean"), None, None),
            SchemaType::Array => (String::from_str("array"), None, None),
            SchemaType::Object => (String::from_str("object"), None, None),
        },
        _ => (String::from_str("string"), None, None),
    }
}

/// Type information of a parameter: from its inline schema, else a plain string.
pub open spec fn parameter_type_info(f: ParameterSchemaOrContent) -> (Seq<char>, Option<Seq<char>>, Option<Seq<Seq<char>>>) {
    match f {
        ParameterSchemaOrContent::Schema(RefOr::Item(s)) => type_info(s.kind),
        _ => ("string"@, None, None),
    }
}

/// Type information of a parameter: from its inline schema, else a plain string.
pub fn extract_type_info(pf: &ParameterSchemaOrContent) -> (r: (String, Option<String>, Option<Vec<String>>))
    ensures
        type_triple_view(r) == parameter_type_info(*pf),
{
    match pf {
        ParameterSchemaOrContent::Schema(RefOr::Item(schema)) => type_from_schema_kind(&schema.kind),
        _ => (String::from_str("string"), None, None),
    }
}

// ---------------------------------------------------------------------------
// Parameters
// ---------------------------------------------------------------------------

/// The Discovery form of a query or path parameter.
pub open spec fn parameter_view(d: ParameterFields, location: Seq<char>) -> ParameterView {
    let t = parameter_type_info(d.format);
    ParameterView {
        param_type: t.0,
        required: d.required,
        location,
        description: opt_view(d.description),
        format: t.1,
        enum_values: t.2,
        default: None,
    }
}

/// Query and path parameters become method parameters; header and cookie ones do not.
pub open spec fn with_parameter(params: Seq<(Seq<char>, ParameterView)>, p: ParameterObject) -> Seq<(Seq<char>, ParameterView)> {
    match p {
        ParameterObject::Query(d) => assoc_insert(params, d.name@, parameter_view(d, "query"@)),
        ParameterObject::Path(d) => assoc_insert(params, d.name@, parameter_view(d, "path"@)),
        _ => params,
    }
}

/// Adds a query or path parameter to `out`, under its name.
pub fn add_parameter(param: &ParameterObject, out: &mut Vec<(String, DiscoveryParameter)>)
    ensures
        assoc_view(final(out)@) == with_parameter(assoc_view(old(out)@), *param),
{
    let (data, location) = match param {
        ParameterObject::Query(d) => (d, String::from_str("query")),
        ParameterObject::Path(d) => (d, String::from_str("path")),
        _ => {
            return;
        },
    };
    let (param_type, format, enum_values) = extract_type_info(&data.format);
    let description = match &data.description {
        Some(d) => Some(d.clone()),
        None => None,
    };
    let p = DiscoveryParameter {
        param_type,
        required: data.required,
        location,
        description,
        format,
        enum_values,
        default: None,
    };
    assoc_store(out, data.name.clone(), p);
}

// ---------------------------------------------------------------------------
// Request and response schemas
// ---------------------------------------------------------------------------

/// The schema name that a body schema points to: a `$ref`'s terminal name, or
/// that of the only entry of a single-entry `allOf`.
pub open spec fn schema_ref_of(s: RefOr<SchemaObject>) -> Option<Seq<char>>
    decreases s,
{
    match s {
        RefOr::Reference(r) => Some(ref_name_of(r@)),
        RefOr::Item(sc) => match sc.kind {
            SchemaKind::AllOf(v) => if v.len() == 1 {
                schema_ref_of(v@[0])
            } else {
                None
            },
            _ => None,
        },
    }
}

/// The schema pointer of a body schema, when it names one.
pub fn extract_schema_ref(schema: &RefOr<SchemaObject>) -> (r: Option<SchemaRef>)
    ensures
        schema_ref_view(r) == schema_ref_of(*schema),
    decreases schema,
{
    match schema {
        RefOr::Reference(reference) => Some(SchemaRef { ref_name: String::from_str(ref_name(reference.as_str())) }),
        RefOr::Item(s) => match &s.kind {
            SchemaKind::AllOf(all_of) => if all_of.len() == 1 {
                extract_schema_ref(&all_of[0])
            } else {
                None
            },
            _ => None,
        },
    }
}

/// The schema name of the `application/json` entry of a content map.
pub open spec fn json_schema_ref(content: Seq<(String, MediaType)>) -> Option<Seq<char>> {
    match index_of_key(exec_keys(content), "application/json"@) {
        Some(i) => match content[i].1.schema {
            Some(s) => schema_ref_of(s),
            None => None,
        },
        None => None,
    }
}

fn json_schema_ref_exec(content: &Vec<(String, MediaType)>) -> (r: Option<SchemaRef>)
    ensures
        schema_ref_view(r) == json_schema_ref(content@),
{
    proof {
        lemma_index_of_exec_key(content@, "application/json"@);
    }
    match find_key(content, "application/json") {
        Some(i) => match &content[i].1.schema {
            Some(s) => extract_schema_ref(s),
            None => None,
        },
        None => None,
    }
}

/// The request schema of an operation: its body's JSON schema name, the body
/// resolved against the components of `source`.
pub open spec fn request_ref(op: OperationObject, source: OpenApiSpec) -> Option<Seq<char>> {
    match op.request_body {
        Some(rb) => match resolved(component_request_bodies(source), rb) {
            Some(b) => json_schema_ref(b.content@),
            None => None,
        },
        None => None,
    }
}

/// Index of the first response keyed by the exact code `code`.
pub open spec fn index_of_code(r: Seq<(ResponseKey, RefOr<ResponseObject>)>, code: u16) -> Option<int>
    decreases r.len(),
{
    if r.len() == 0 {
        None
    } else {
        match index_of_code(r.drop_last(), code) {
            Some(i) => Some(i),
            None => if r.last().0 == ResponseKey::Code(code) {
                Some(r.len() - 1)
            } else {
                None
            },
        }
    }
}

/// The success response: the one for 200, else the one for 201.
pub open spec fn success_response(r: Seq<(ResponseKey, RefOr<ResponseObject>)>) -> Option<RefOr<ResponseObject>> {
    match index_of_code(r, 200) {
        Some(i) => Some(r[i].1),
        None => match index_of_code(r, 201) {
            Some(i) => Some(r[i].1),
            None => None,
        },
    }
}

/// The response schema of an operation: its success response's JSON schema name,
/// the response resolved against the components of `source`.
pub open spec fn response_ref(op: OperationObject, source: OpenApiSpec) -> Option<Seq<char>> {
    match success_response(op.responses@) {
        Some(r) => match resolved(component_responses(source), r) {
            Some(b) => json_schema_ref(b.content@),
            None => None,
        },
        None => None,
    }
}

proof fn lemma_index_of_code(r: Seq<(ResponseKey, RefOr<ResponseObject>)>, code: u16)
    ensures
        match index_of_code(r, code) {
            Some(i) => 0 <= i < r.len() && r[i].0 == ResponseKey::Code(code)
                && forall|j: int| 0 <= j < i ==> r[j].0 != ResponseKey::Code(code),
            None => forall|j: int| 0 <= j < r.len() ==> r[j].0 != ResponseKey::Code(code),
        },
    decreases r.len(),
{
    if r.len() > 0 {
        lemma_index_of_code(r.drop_last(), code);
        assert(forall|j: int| 0 <= j < r.len() - 1 ==> r.drop_last()[j] == r[j]);
    }
}

fn find_code(r: &Vec<(ResponseKey, RefOr<ResponseObject>)>, code: u16) -> (res: Option<usize>)
    ensures
        match res {
            Some(i) => index_of_code(r@, code) == Some(i as int),
            None => index_of_code(r@, code) is None,
        },
{
    proof {
        lemma_index_of_code(r@, code);
    }
    let n = r.len();
    for i in 0..n
        invariant
            n == r@.len(),
            forall|j: int| 0 <= j < i ==> r@[j].0 != ResponseKey::Code(code),
            match index_of_code(r@, code) {
                Some(i) => 0 <= i < r@.len() && r@[i].0 == ResponseKey::Code(code)
                    && forall|j: int| 0 <= j < i ==> r@[j].0 != ResponseKey::Code(code),
                None => forall|j: int| 0 <= j < r@.len() ==> r@[j].0 != ResponseKey::Code(code),
            },
    {
        let hit = match r[i].0 {
            ResponseKey::Code(c) => c == code,
            ResponseKey::Range(_) => false,
        };
        if hit {
            return Some(i);
        }
    }
    None
}

// ---------------------------------------------------------------------------
// Scopes
// ---------------------------------------------------------------------------

/// The scopes of one security requirement, scheme after scheme.
pub open spec fn requirement_scopes(s: Seq<(String, Vec<String>)>) -> Seq<Seq<char>>
    decreases s.len(),
{
    if s.len() == 0 {
        Seq::empty()
    } else {
        requirement_scopes(s.drop_last()) + views(s.last().1@)
    }
}

/// The scopes of a list of security requirements, in order.
pub open spec fn all_scopes(reqs: Seq<SecurityRequirement>) -> Seq<Seq<char>>
    decreases reqs.len(),
{
    if reqs.len() == 0 {
        Seq::empty()
    } else {
        all_scopes(reqs.drop_last()) + requirement_scopes(reqs.last().schemes@)
    }
}

/// The scopes of an operation: from its own security requirements, else the document's.
pub open spec fn scopes_of(op: OperationObject, spec: OpenApiSpec) -> Seq<Seq<char>> {
    let security = if op.security is Some { op.security } else { spec.security };
    match security {
        Some(v) => all_scopes(v@),
        None => Seq::empty(),
    }
}

fn append_scopes(out: &mut Vec<String>, scopes: &Vec<String>)
    ensures
        views(final(out)@) == views(old(out)@) + views(scopes@),
{
    let n = scopes.len();
    for i in 0..n
        invariant
            n == scopes@.len(),
            views(out@) == views(old(out)@) + views(scopes@).take(i as int),
    {
        let ghost before = out@;
        out.push(scopes[i].clone());
        assert(views(out@) =~= views(before).push(scopes@[i as int]@));
        assert(views(scopes@).take(i + 1) =~= views(scopes@).take(i as int).push(scopes@[i as int]@));
    }
    assert(views(scopes@).take(n as int) =~= views(scopes@));
}

/// The OAuth scopes of an operation.
pub fn extract_scopes(operation: &OperationObject, spec: &OpenApiSpec) -> (r: Vec<String>)
    ensures
        views(r@) == scopes_of(*operation, *spec),
{
    let security = if operation.security.is_some() {
        &operation.security
    } else {
        &spec.security
    };
    let mut out: Vec<String> = Vec::new();
    match security {
        None => {
            assert(views(out@) =~= Seq::<Seq<char>>::empty());
        },
        Some(reqs) => {
            let n = reqs.len();
            assert(views(out@) =~= all_scopes(reqs@.take(0)));
            for i in 0..n
                invariant
                    n == reqs@.len(),
                    views(out@) == all_scopes(reqs@.take(i as int)),
            {
                proof {
                    assert(reqs@.take(i + 1).drop_last() =~= reqs@.take(i as int));
                }
                let schemes = &reqs[i].schemes;
                let m = schemes.len();
                let ghost base = views(out@);
                for j in 0..m
                    invariant
                        m == schemes@.len(),
                        views(out@) == base + requirement_scopes(schemes@.take(j as int)),
                {
                    proof {
                        assert(schemes@.take(j + 1).drop_last() =~= schemes@.take(j as int));
                    }
                    append_scopes(&mut out, &schemes[j].1);
                    assert(views(out@) =~= base + requirement_scopes(schemes@.take(j + 1)));
                }
                assert(schemes@.take(m as int) =~= schemes@);
                assert(views(out@) =~= all_scopes(reqs@.take(i + 1)));
            }
            assert(reqs@.take(n as int) =~= reqs@);
        },
    }
    out
}

// ---------------------------------------------------------------------------
// Methods
// ---------------------------------------------------------------------------

/// `params` with each resolvable parameter of `list` added, in order.
pub open spec fn with_resolved_parameters(
    params: Seq<(Seq<char>, ParameterView)>,
    list: Seq<RefOr<ParameterObject>>,
    comps: Seq<(String, RefOr<ParameterObject>)>,
) -> Seq<(Seq<char>, ParameterView)>
    decreases list.len(),
{
    if list.len() == 0 {
        params
    } else {
        let prev = with_resolved_parameters(params, list.drop_last(), comps);
        match resolved(comps, list.last()) {
            Some(p) => with_parameter(prev, p),
            None => prev,
        }
    }
}

/// The parameter assumed for a path placeholder that declares none.
pub open spec fn path_parameter() -> ParameterView {
    ParameterView {
        param_type: "string"@,
        required: true,
        location: "path"@,
        description: None,
        format: None,
        enum_values: None,
        default: None,
    }
}

/// `params` with a default path parameter for each name that has none yet.
pub open spec fn with_path_defaults(params: Seq<(Seq<char>, ParameterView)>, names: Seq<Seq<char>>) -> Seq<(Seq<char>, ParameterView)>
    decreases names.len(),
{
    if names.len() == 0 {
        params
    } else {
        assoc_insert_missing(with_path_defaults(params, names.drop_last()), names.last(), path_parameter())
    }
}

/// The method path: the template without its leading `/`.
pub open spec fn api_path(path: Seq<char>) -> Seq<char> {
    if seq!['/'].is_prefix_of(path) {
        path.skip(1)
    } else {
        path
    }
}

/// The method description: the operation's description, else its summary.
pub open spec fn method_description(op: OperationObject) -> Option<Seq<char>> {
    match op.description {
        Some(d) => Some(d@),
        None => opt_view(op.summary),
    }
}

/// The method parameters: path-item parameters, then operation parameters (which
/// override them), then a default for each path placeholder still undeclared;
/// references are resolved against the components of `source`.
pub open spec fn method_parameters(segs: Seq<SegmentView>, op: OperationObject, item: PathItemObject, source: OpenApiSpec) -> Seq<(Seq<char>, ParameterView)> {
    let comps = component_parameters(source);
    with_path_defaults(
        with_resolved_parameters(with_resolved_parameters(Seq::empty(), item.parameters@, comps), op.parameters@, comps),
        param_names(segs),
    )
}

/// The Discovery method for one operation of `spec`, its references resolved
/// against the components of `source`.
pub open spec fn method_spec(
    id: Seq<char>,
    verb: Seq<char>,
    path: Seq<char>,
    segs: Seq<SegmentView>,
    op: OperationObject,
    item: PathItemObject,
    source: OpenApiSpec,
    spec: OpenApiSpec,
) -> MethodView {
    MethodView {
        id,
        http_method: verb,
        path: api_path(path),
        description: method_description(op),
        parameters: method_parameters(segs, op, item, source),
        parameter_order: param_names(segs),
        request: request_ref(op, source),
        response: response_ref(op, source),
        scopes: scopes_of(op, spec),
    }
}

fn add_resolved_parameters(list: &Vec<RefOr<ParameterObject>>, resolver: &RefResolver, out: &mut Vec<(String, DiscoveryParameter)>)
    ensures
        assoc_view(final(out)@) == with_resolved_parameters(
            assoc_view(old(out)@),
            list@,
            component_parameters(resolver.source()),
        ),
{
    let ghost comps = component_parameters(resolver.source());
    let ghost start = assoc_view(out@);
    let n = list.len();
    for i in 0..n
        invariant
            n == list@.len(),
            comps == component_parameters(resolver.source()),
            assoc_view(out@) == with_resolved_parameters(start, list@.take(i as int), comps),
    {
        proof {
            assert(list@.take(i + 1).drop_last() =~= list@.take(i as int));
        }
        if let Some(param) = resolver.resolve_parameter(&list[i]) {
            add_parameter(param, out);
        }
    }
    assert(list@.take(n as int) =~= list@);
}

fn add_path_defaults(names: &Vec<String>, out: &mut Vec<(String, DiscoveryParameter)>)
    ensures
        assoc_view(final(out)@) == with_path_defaults(assoc_view(old(out)@), views(names@)),
{
    let ghost start = assoc_view(out@);
    let n = names.len();
    for i in 0..n
        invariant
            n == names@.len(),
            assoc_view(out@) == with_path_defaults(start, views(names@).take(i as int)),
    {
        proof {
            assert(views(names@).take(i + 1).drop_last() =~= views(names@).take(i as int));
        }
        let p = DiscoveryParameter {
            param_type: String::from_str("string"),
            required: true,
            location: String::from_str("path"),
            description: None,
            format: None,
            enum_values: None,
            default: None,
        };
        assoc_store_missing(out, names[i].clone(), p);
    }
    assert(views(names@).take(n as int) =~= views(names@));
}

/// What a method is built from.
pub struct MethodContext<'a> {
    pub id: &'a str,
    pub verb: &'a str,
    pub path: &'a str,
    pub segments: &'a [Segment],
    pub operation: &'a OperationObject,
    pub path_item: &'a PathItemObject,
    pub resolver: &'a RefResolver<'a>,
    pub spec: &'a OpenApiSpec,
}

/// Builds the Discovery method for one operation.
pub fn build_method(ctx: &MethodContext) -> (r: DiscoveryMethod)
    ensures
        r@ == method_spec(
            ctx.id@,
            ctx.verb@,
            ctx.path@,
            segment_views(ctx.segments@),
            *ctx.operation,
            *ctx.path_item,
            ctx.resolver.source(),
            *ctx.spec,
        ),
{
    let op = ctx.operation;
    let mut parameters: Vec<(String, DiscoveryParameter)> = Vec::new();
    proof {
        assert(assoc_view(parameters@) =~= Seq::<(Seq<char>, ParameterView)>::empty());
    }
    add_resolved_parameters(&ctx.path_item.parameters, ctx.resolver, &mut parameters);
    add_resolved_parameters(&op.parameters, ctx.resolver, &mut parameters);
    let parameter_order = parameter_names(ctx.segments);
    add_path_defaults(&parameter_order, &mut parameters);

    let request = match &op.request_body {
        Some(rb) => match ctx.resolver.resolve_request_body(rb) {
            Some(body) => json_schema_ref_exec(&body.content),
            None => None,
        },
        None => None,
    };

    proof {
        lemma_index_of_code(op.responses@, 200);
        lemma_index_of_code(op.responses@, 201);
    }
    let success = match find_code(&op.responses, 200) {
        Some(i) => Some(&op.responses[i].1),
        None => match find_code(&op.responses, 201) {
            Some(i) => Some(&op.responses[i].1),
            None => None,
        },
    };
    let response = match success {
        Some(r) => match ctx.resolver.resolve_response(r) {
            Some(body) => json_schema_ref_exec(&body.content),
            None => None,
        },
        None => None,
    };

    proof {
        reveal_strlit("/");
    }
    let path = match strip_prefix(ctx.path, "/") {
        Some(rest) => String::from_str(rest),
        None => String::from_str(ctx.path),
    };
    let description = match &op.description {
        Some(d) => Some(d.clone()),
        None => match &op.summary {
            Some(s) => Some(s.clone()),
            None => None,
        },
    };
    DiscoveryMethod {
        id: String::from_str(ctx.id),
        http_method: String::from_str(ctx.verb),
        path,
        description,
        parameters,
        parameter_order,
        request,
        response,
        scopes: extract_scopes(op, ctx.spec),
    }
}

// ---------------------------------------------------------------------------
// The resource tree
// ---------------------------------------------------------------------------

/// `m` with `meth` stored as method `name` of the resource reached by `chain`;
/// resources on the way that do not exist yet are created empty.
pub open spec fn tree_insert(
    m: Seq<(Seq<char>, ResourceView)>,
    chain: Seq<Seq<char>>,
    name: Seq<char>,
    meth: MethodView,
) -> Seq<(Seq<char>, ResourceView)>
    decreases chain.len(),
{
    if chain.len() == 0 {
        m
    } else {
        let r = match assoc_get(m, chain[0]) {
            Some(r) => r,
            None => empty_resource(),
        };
        let r2 = if chain.len() == 1 {
            ResourceView { methods: assoc_insert(r.methods, name, meth), resources: r.resources }
        } else {
            ResourceView { methods: r.methods, resources: tree_insert(r.resources, chain.drop_first(), name, meth) }
        };
        assoc_insert(m, chain[0], r2)
    }
}

/// Stores `method` as method `method_name` of the resource reached by `chain`,
/// creating the resources on the way that do not exist yet. An empty chain
/// stores nothing.
pub fn insert_method(
    resources: &mut Vec<(String, DiscoveryResource)>,
    chain: &[String],
    method_name: &str,
    method: DiscoveryMethod,
)
    ensures
        assoc_view(final(resources)@) == tree_insert(assoc_view(old(resources)@), views(chain@), method_name@, method@),
{
    assert(views(chain@).skip(0) =~= views(chain@));
    insert_from(resources, chain, 0, method_name, method);
}

/// Stores `method` as method `method_name` of the resource reached by `chain[from..]`.
fn insert_from(
    resources: &mut Vec<(String, DiscoveryResource)>,
    chain: &[String],
    from: usize,
    method_name: &str,
    method: DiscoveryMethod,
)
    requires
        from <= chain@.len(),
    ensures
        assoc_view(final(resources)@) == tree_insert(
            assoc_view(old(resources)@),
            views(chain@).skip(from as int),
            method_name@,
            method@,
        ),
    decreases chain@.len() - from,
{
    let ghost rest = views(chain@).skip(from as int);
    if from >= chain.len() {
        assert(rest.len() == 0);
        return;
    }
    let ghost m = assoc_view(resources@);
    let ghost key = chain@[from as int]@;
    proof {
        assert(rest[0] == key);
        lemma_assoc_view_keys(resources@);
        lemma_index_of_exec_key(resources@, key);
    }
    let found = find_key(resources, chain[from].as_str());
    let mut entry = match found {
        Some(i) => resources.remove(i),
        None => (chain[from].clone(), DiscoveryResource::default()),
    };
    let ghost r = match assoc_get(m, key) {
        Some(r) => r,
        None => empty_resource(),
    };
    assert(entry.1@ == r);
    assert(entry.0@ == key);
    let ghost old_methods = entry.1.methods@;
    let ghost old_children = entry.1.resources@;
    proof {
        lemma_resource_view(entry.1);
    }
    if from + 1 == chain.len() {
        assoc_store(&mut entry.1.methods, String::from_str(method_name), method);
        assert(entry.1.resources@ == old_children);
    } else {
        insert_from(&mut entry.1.resources, chain, from + 1, method_name, method);
        assert(entry.1.methods@ == old_methods);
        assert(views(chain@).skip(from + 1) =~= rest.drop_first());
    }
    proof {
        lemma_resource_view(entry.1);
    }
    let ghost r2 = entry.1@;
    match found {
        Some(i) => {
            resources.insert(i, entry);
            assert(assoc_view(resources@) =~= m.update(i as int, (key, r2)));
        },
        None => {
            resources.push(entry);
            assert(assoc_view(resources@) =~= m.push((key, r2)));
        },
    }
}

/// A method id: service name, resource chain and method name joined by dots.
pub open spec fn method_id(service: Seq<char>, chain: Seq<Seq<char>>, name: Seq<char>) -> Seq<char> {
    service + "."@ + join(chain, "."@) + "."@ + name
}

/// `tree` with the method for `op` (when present) on `path` added.
pub open spec fn add_operation(
    tree: Seq<(Seq<char>, ResourceView)>,
    verb: Seq<char>,
    op: Option<OperationObject>,
    path: Seq<char>,
    item: PathItemObject,
    source: OpenApiSpec,
    spec: OpenApiSpec,
    service: Seq<char>,
) -> Seq<(Seq<char>, ResourceView)> {
    match op {
        None => tree,
        Some(o) => {
            let segs = path_segments(path);
            let chain = static_names(segs);
            let name = method_name_spec(verb, targets_item(segs), opt_view(o.operation_id));
            tree_insert(tree, chain, name, method_spec(method_id(service, chain, name), verb, path, segs, o, item, source, spec))
        },
    }
}

/// `tree` with the methods of one path entry added, verb by verb; references and
/// paths without a literal segment add nothing.
pub open spec fn add_path(
    tree: Seq<(Seq<char>, ResourceView)>,
    path: Seq<char>,
    r: RefOr<PathItemObject>,
    source: OpenApiSpec,
    spec: OpenApiSpec,
    service: Seq<char>,
) -> Seq<(Seq<char>, ResourceView)> {
    match r {
        RefOr::Reference(_) => tree,
        RefOr::Item(item) => if static_names(path_segments(path)).len() == 0 {
            tree
        } else {
            let t1 = add_operation(tree, "GET"@, item.get, path, item, source, spec, service);
            let t2 = add_operation(t1, "POST"@, item.post, path, item, source, spec, service);
            let t3 = add_operation(t2, "PUT"@, item.put, path, item, source, spec, service);
            let t4 = add_operation(t3, "PATCH"@, item.patch, path, item, source, spec, service);
            add_operation(t4, "DELETE"@, item.delete, path, item, source, spec, service)
        },
    }
}

/// The resource tree of a list of paths, added in order.
pub open spec fn resource_tree(
    paths: Seq<(String, RefOr<PathItemObject>)>,
    source: OpenApiSpec,
    spec: OpenApiSpec,
    service: Seq<char>,
) -> Seq<(Seq<char>, ResourceView)>
    decreases paths.len(),
{
    if paths.len() == 0 {
        Seq::empty()
    } else {
        add_path(resource_tree(paths.drop_last(), source, spec, service), paths.last().0@, paths.last().1, source, spec, service)
    }
}

fn add_operation_exec(
    root: &mut Vec<(String, DiscoveryResource)>,
    verb: &str,
    op: &Option<OperationObject>,
    path: &str,
    segments: &Vec<Segment>,
    chain: &Vec<String>,
    is_item: bool,
    path_item: &PathItemObject,
    resolver: &RefResolver,
    spec: &OpenApiSpec,
    service_name: &str,
)
    requires
        segment_views(segments@) == path_segments(path@),
        views(chain@) == static_names(path_segments(path@)),
        is_item == targets_item(path_segments(path@)),
    ensures
        assoc_view(final(root)@) == add_operation(
            assoc_view(old(root)@),
            verb@,
            *op,
            path@,
            *path_item,
            resolver.source(),
            *spec,
            service_name@,
        ),
{
    match op {
        None => {},
        Some(operation) => {
            let method_name = method_name_for(verb, is_item, operation);
            let mut id = String::from_str(service_name);
            id.append(".");
            let joined = join_strings(chain, ".");
            id.append(joined.as_str());
            id.append(".");
            id.append(method_name.as_str());
            let method = build_method(
                &MethodContext {
                    id: id.as_str(),
                    verb,
                    path,
                    segments: segments.as_slice(),
                    operation,
                    path_item,
                    resolver,
                    spec,
                },
            );
            insert_method(root, chain.as_slice(), method_name.as_str(), method);
        },
    }
}

/// Groups the operations of every path into the nested resource tree.
pub fn build_resources(spec: &OpenApiSpec, resolver: &RefResolver, service_name: &str) -> (r: Vec<
    (String, DiscoveryResource),
>)
    ensures
        assoc_view(r@) == resource_tree(spec.paths@, resolver.source(), *spec, service_name@),
{
    let mut root: Vec<(String, DiscoveryResource)> = Vec::new();
    let n = spec.paths.len();
    assert(assoc_view(root@) =~= resource_tree(spec.paths@.take(0), resolver.source(), *spec, service_name@));
    for i in 0..n
        invariant
            n == spec.paths@.len(),
            assoc_view(root@) == resource_tree(spec.paths@.take(i as int), resolver.source(), *spec, service_name@),
    {
        proof {
            assert(spec.paths@.take(i + 1).drop_last() =~= spec.paths@.take(i as int));
        }
        let path_str = &spec.paths[i].0;
        match &spec.paths[i].1 {
            RefOr::Reference(_) => {},
            RefOr::Item(path_item) => {
                let segments = parse_segments(path_str.as_str());
                let chain = resource_chain(segments.as_slice());
                if chain.len() != 0 {
                    let is_item = ends_with_param(segments.as_slice());
                    add_operation_exec(&mut root, "GET", &path_item.get, path_str.as_str(), &segments, &chain, is_item, path_item, resolver, spec, service_name);
                    add_operation_exec(&mut root, "POST", &path_item.post, path_str.as_str(), &segments, &chain, is_item, path_item, resolver, spec, service_name);
                    add_operation_exec(&mut root, "PUT", &path_item.put, path_str.as_str(), &segments, &chain, is_item, path_item, resolver, spec, service_name);
                    add_operation_exec(&mut root, "PATCH", &path_item.patch, path_str.as_str(), &segments, &chain, is_item, path_item, resolver, spec, service_name);
                    add_operation_exec(&mut root, "DELETE", &path_item.delete, path_str.as_str(), &segments, &chain, is_item, path_item, resolver, spec, service_name);
                }
            },
        }
    }
    assert(spec.paths@.take(n as int) =~= spec.paths@);
    root
}

// ---------------------------------------------------------------------------
// Laws
// ---------------------------------------------------------------------------

/// The resource reached by following `chain` from the top level.
pub open spec fn tree_get(m: Seq<(Seq<char>, ResourceView)>, chain: Seq<Seq<char>>) -> Option<ResourceView>
    decreases chain.len(),
{
    if chain.len() == 0 {
        None
    } else {
        match assoc_get(m, chain[0]) {
            Some(r) => if chain.len() == 1 {
                Some(r)
            } else {
                tree_get(r.resources, chain.drop_first())
            },
            None => None,
        }
    }
}

/// Method `name` of the resource reached by `chain`.
pub open spec fn tree_method(m: Seq<(Seq<char>, ResourceView)>, chain: Seq<Seq<char>>, name: Seq<char>) -> Option<MethodView> {
    match tree_get(m, chain) {
        Some(r) => assoc_get(r.methods, name),
        None => None,
    }
}

proof fn lemma_tree_get_empty(chain: Seq<Seq<char>>)
    ensures
        tree_get(Seq::empty(), chain) is None,
{
    lemma_index_of_key(keys_of(Seq::<(Seq<char>, ResourceView)>::empty()), chain[0]);
}

/// A method placed at a resource chain is found there afterwards.
pub proof fn law_method_placed_is_found(
    m: Seq<(Seq<char>, ResourceView)>,
    chain: Seq<Seq<char>>,
    name: Seq<char>,
    meth: MethodView,
)
    requires
        chain.len() > 0,
    ensures
        tree_method(tree_insert(m, chain, name, meth), chain, name) == Some(meth),
    decreases chain.len(),
{
    let r = match assoc_get(m, chain[0]) {
        Some(r) => r,
        None => empty_resource(),
    };
    let r2 = if chain.len() == 1 {
        ResourceView { methods: assoc_insert(r.methods, name, meth), resources: r.resources }
    } else {
        ResourceView { methods: r.methods, resources: tree_insert(r.resources, chain.drop_first(), name, meth) }
    };
    lemma_assoc_get_insert_same(m, chain[0], r2);
    if chain.len() == 1 {
        lemma_assoc_get_insert_same(r.methods, name, meth);
    } else {
        law_method_placed_is_found(r.resources, chain.drop_first(), name, meth);
    }
}

/// Placing a method leaves every other (resource chain, method name) as it was.
pub proof fn law_placing_keeps_other_methods(
    m: Seq<(Seq<char>, ResourceView)>,
    chain: Seq<Seq<char>>,
    name: Seq<char>,
    meth: MethodView,
    chain2: Seq<Seq<char>>,
    name2: Seq<char>,
)
    requires
        chain.len() > 0,
        chain2 != chain || name2 != name,
    ensures
        tree_method(tree_insert(m, chain, name, meth), chain2, name2) == tree_method(m, chain2, name2),
    decreases chain.len(),
{
    let found = assoc_get(m, chain[0]);
    let r = match found {
        Some(r) => r,
        None => empty_resource(),
    };
    let r2 = if chain.len() == 1 {
        ResourceView { methods: assoc_insert(r.methods, name, meth), resources: r.resources }
    } else {
        ResourceView { methods: r.methods, resources: tree_insert(r.resources, chain.drop_first(), name, meth) }
    };
    let t = tree_insert(m, chain, name, meth);
    if chain2.len() == 0 {
        return;
    }
    if chain2[0] != chain[0] {
        lemma_assoc_get_insert_other(m, chain[0], r2, chain2[0]);
        return;
    }
    lemma_assoc_get_insert_same(m, chain[0], r2);
    if found is None {
        lemma_index_of_key(keys_of(Seq::<(Seq<char>, MethodView)>::empty()), name2);
    }
    if chain.len() == 1 {
        if chain2.len() == 1 {
            assert(chain2 =~= chain);
            lemma_assoc_get_insert_other(r.methods, name, meth, name2);
        } else {
            if found is None {
                lemma_tree_get_empty(chain2.drop_first());
            }
        }
    } else {
        if chain2.len() == 1 {
        } else {
            if chain2.drop_first() == chain.drop_first() {
                assert forall|i: int| 0 <= i < chain.len() implies chain2[i] == chain[i] by {
                    if i > 0 {
                        assert(chain2.drop_first()[i - 1] == chain.drop_first()[i - 1]);
                    }
                }
                assert(chain2 =~= chain);
            }
            law_placing_keeps_other_methods(r.resources, chain.drop_first(), name, meth, chain2.drop_first(), name2);
            if found is None {
                lemma_tree_get_empty(chain2.drop_first());
            }
        }
    }
}

/// Every path placeholder is declared as a parameter once the defaults are added.
pub proof fn law_placeholders_declared(params: Seq<(Seq<char>, ParameterView)>, names: Seq<Seq<char>>)
    ensures
        forall|i: int| 0 <= i < names.len() ==> #[trigger] assoc_get(with_path_defaults(params, names), names[i]) is Some,
    decreases names.len(),
{
    if names.len() > 0 {
        let prev = with_path_defaults(params, names.drop_last());
        law_placeholders_declared(params, names.drop_last());
        assert forall|i: int| 0 <= i < names.len() implies #[trigger] assoc_get(with_path_defaults(params, names), names[i]) is Some by {
            lemma_assoc_get_insert_missing(prev, names.last(), path_parameter(), names[i]);
            if i < names.len() - 1 {
                assert(names.drop_last()[i] == names[i]);
            }
        }
    }
}

/// Every name in a method's parameter order has a parameter entry.
pub proof fn law_parameter_order_declared(
    id: Seq<char>,
    verb: Seq<char>,
    path: Seq<char>,
    segs: Seq<SegmentView>,
    op: OperationObject,
    item: PathItemObject,
    source: OpenApiSpec,
    spec: OpenApiSpec,
)
    ensures
        ({
            let m = method_spec(id, verb, path, segs, op, item, source, spec);
            forall|i: int| 0 <= i < m.parameter_order.len() ==> #[trigger] assoc_get(m.parameters, m.parameter_order[i]) is Some
        }),
{
    let comps = component_parameters(source);
    law_placeholders_declared(
        with_resolved_parameters(with_resolved_parameters(Seq::empty(), item.parameters@, comps), op.parameters@, comps),
        param_names(segs),
    );
}


/// The Discovery form of the last query or path parameter of `list` named `n`
/// that resolves against `comps`.
pub open spec fn declared_parameter(
    list: Seq<RefOr<ParameterObject>>,
    comps: Seq<(String, RefOr<ParameterObject>)>,
    n: Seq<char>,
) -> Option<ParameterView>
    decreases list.len(),
{
    if list.len() == 0 {
        None
    } else {
        match resolved(comps, list.last()) {
            Some(ParameterObject::Query(d)) => if d.name@ == n {
                Some(parameter_view(d, "query"@))
            } else {
                declared_parameter(list.drop_last(), comps, n)
            },
            Some(ParameterObject::Path(d)) => if d.name@ == n {
                Some(parameter_view(d, "path"@))
            } else {
                declared_parameter(list.drop_last(), comps, n)
            },
            _ => declared_parameter(list.drop_last(), comps, n),
        }
    }
}

proof fn lemma_with_resolved_parameters_get(
    params: Seq<(Seq<char>, ParameterView)>,
    list: Seq<RefOr<ParameterObject>>,
    comps: Seq<(String, RefOr<ParameterObject>)>,
    n: Seq<char>,
)
    ensures
        assoc_get(with_resolved_parameters(params, list, comps), n) == match declared_parameter(list, comps, n) {
            Some(v) => Some(v),
            None => assoc_get(params, n),
        },
    decreases list.len(),
{
    if list.len() > 0 {
        let prev = with_resolved_parameters(params, list.drop_last(), comps);
        lemma_with_resolved_parameters_get(params, list.drop_last(), comps, n);
        match resolved(comps, list.last()) {
            Some(ParameterObject::Query(d)) => {
                if d.name@ == n {
                    lemma_assoc_get_insert_same(prev, n, parameter_view(d, "query"@));
                } else {
                    lemma_assoc_get_insert_other(prev, d.name@, parameter_view(d, "query"@), n);
                }
            },
            Some(ParameterObject::Path(d)) => {
                if d.name@ == n {
                    lemma_assoc_get_insert_same(prev, n, parameter_view(d, "path"@));
                } else {
                    lemma_assoc_get_insert_other(prev, d.name@, parameter_view(d, "path"@), n);
                }
            },
            _ => {},
        }
    }
}

proof fn lemma_with_path_defaults_get(params: Seq<(Seq<char>, ParameterView)>, names: Seq<Seq<char>>, n: Seq<char>)
    ensures
        assoc_get(with_path_defaults(params, names), n) == match assoc_get(params, n) {
            Some(v) => Some(v),
            None => if names.contains(n) {
                Some(path_parameter())
            } else {
                None
            },
        },
    decreases names.len(),
{
    if names.len() > 0 {
        let prev = with_path_defaults(params, names.drop_last());
        lemma_with_path_defaults_get(params, names.drop_last(), n);
        lemma_assoc_get_insert_missing(prev, names.last(), path_parameter(), n);
        if names.contains(n) && !names.drop_last().contains(n) {
            let j = choose|j: int| 0 <= j < names.len() && names[j] == n;
            if j < names.len() - 1 {
                assert(names.drop_last()[j] == n);
            }
        }
        if names.drop_last().contains(n) {
            let j = choose|j: int| 0 <= j < names.drop_last().len() && names.drop_last()[j] == n;
            assert(names[j] == n);
        }
    }
}

/// Which parameters a method has: a name declared by a query or path parameter of
/// the operation gets the operation's last such declaration; else one declared by
/// the path item gets the path item's; else a path placeholder gets the default
/// path parameter; any other name has no parameter (header and cookie parameters,
/// and references that do not resolve, add nothing).
pub proof fn law_method_parameters(
    segs: Seq<SegmentView>,
    op: OperationObject,
    item: PathItemObject,
    source: OpenApiSpec,
    n: Seq<char>,
)
    ensures
        ({
            let comps = component_parameters(source);
            assoc_get(method_parameters(segs, op, item, source), n) == match declared_parameter(op.parameters@, comps, n) {
                Some(v) => Some(v),
                None => match declared_parameter(item.parameters@, comps, n) {
                    Some(v) => Some(v),
                    None => if param_names(segs).contains(n) {
                        Some(path_parameter())
                    } else {
                        None
                    },
                },
            }
        }),
{
    let comps = component_parameters(source);
    let p0 = with_resolved_parameters(Seq::empty(), item.parameters@, comps);
    let p1 = with_resolved_parameters(p0, op.parameters@, comps);
    lemma_with_resolved_parameters_get(Seq::empty(), item.parameters@, comps, n);
    lemma_with_resolved_parameters_get(p0, op.parameters@, comps, n);
    lemma_with_path_defaults_get(p1, param_names(segs), n);
    lemma_index_of_key(keys_of(Seq::<(Seq<char>, ParameterView)>::empty()), n);
}


/// Placing a method changes nothing for an empty chain; otherwise it leaves every
/// top-level resource other than `chain[0]` as it was, and, for a longer chain,
/// keeps that resource's own methods and places the method below it in the same way.
pub proof fn law_placing_keeps_other_resources(
    m: Seq<(Seq<char>, ResourceView)>,
    chain: Seq<Seq<char>>,
    name: Seq<char>,
    meth: MethodView,
    k: Seq<char>,
)
    ensures
        chain.len() == 0 ==> tree_insert(m, chain, name, meth) == m,
        chain.len() > 0 && k != chain[0] ==> assoc_get(tree_insert(m, chain, name, meth), k) == assoc_get(m, k),
        chain.len() > 1 ==> ({
            let old_node = match assoc_get(m, chain[0]) {
                Some(r) => r,
                None => empty_resource(),
            };
            assoc_get(tree_insert(m, chain, name, meth), chain[0]) == Some(ResourceView {
                methods: old_node.methods,
                resources: tree_insert(old_node.resources, chain.drop_first(), name, meth),
            })
        }),
{
    if chain.len() > 0 {
        let r = match assoc_get(m, chain[0]) {
            Some(r) => r,
            None => empty_resource(),
        };
        let r2 = if chain.len() == 1 {
            ResourceView { methods: assoc_insert(r.methods, name, meth), resources: r.resources }
        } else {
            ResourceView { methods: r.methods, resources: tree_insert(r.resources, chain.drop_first(), name, meth) }
        };
        lemma_assoc_get_insert_same(m, chain[0], r2);
        if k != chain[0] {
            lemma_assoc_get_insert_other(m, chain[0], r2, k);
        }
    }
}

/// The resource has a method, itself or somewhere below it.
pub open spec fn resource_has_method(r: ResourceView) -> bool
    decreases r,
{
    r.methods.len() > 0 || exists|i: int|
        #![trigger r.resources[i]]
        0 <= i < r.resources.len() && resource_has_method(r.resources[i].1)
}

/// Every resource, at every depth, has a method itself or below it.
pub open spec fn every_resource_has_method(m: Seq<(Seq<char>, ResourceView)>) -> bool
    decreases m,
{
    forall|i: int|
        #![trigger m[i]]
        0 <= i < m.len() ==> resource_has_method(m[i].1) && every_resource_has_method(m[i].1.resources)
}

proof fn lemma_insert_keeps_every(m: Seq<(Seq<char>, ResourceView)>, k: Seq<char>, r: ResourceView)
    requires
        every_resource_has_method(m),
        resource_has_method(r),
        every_resource_has_method(r.resources),
    ensures
        every_resource_has_method(assoc_insert(m, k, r)),
        assoc_insert(m, k, r).len() > 0,
{
    lemma_index_of_key(keys_of(m), k);
    let t = assoc_insert(m, k, r);
    assert forall|i: int| 0 <= i < t.len() implies resource_has_method(#[trigger] t[i].1)
        && every_resource_has_method(t[i].1.resources) by {
        if i < m.len() && t[i] != (k, r) {
            assert(t[i] == m[i]);
        }
    }
}

proof fn lemma_tree_insert_keeps_every(
    m: Seq<(Seq<char>, ResourceView)>,
    chain: Seq<Seq<char>>,
    name: Seq<char>,
    meth: MethodView,
)
    requires
        every_resource_has_method(m),
        chain.len() > 0,
    ensures
        every_resource_has_method(tree_insert(m, chain, name, meth)),
        tree_insert(m, chain, name, meth).len() > 0,
    decreases chain.len(),
{
    let found = assoc_get(m, chain[0]);
    let r = match found {
        Some(r) => r,
        None => empty_resource(),
    };
    lemma_index_of_key(keys_of(m), chain[0]);
    if let Some(j) = index_of_key(keys_of(m), chain[0]) {
        assert(m[j].1 == r);
    }
    assert(every_resource_has_method(r.resources));
    if chain.len() == 1 {
        let methods = assoc_insert(r.methods, name, meth);
        lemma_index_of_key(keys_of(r.methods), name);
        let r2 = ResourceView { methods, resources: r.resources };
        assert(methods.len() > 0);
        lemma_insert_keeps_every(m, chain[0], r2);
    } else {
        let below = tree_insert(r.resources, chain.drop_first(), name, meth);
        lemma_tree_insert_keeps_every(r.resources, chain.drop_first(), name, meth);
        let r2 = ResourceView { methods: r.methods, resources: below };
        assert(below.len() > 0);
        assert(resource_has_method(below[0].1));
        assert(r2.resources[0] == below[0]);
        assert(resource_has_method(r2));
        lemma_insert_keeps_every(m, chain[0], r2);
    }
}

/// Every resource of the tree, at every depth, has a method itself or below it:
/// resources are only created on the way to a placed method.
pub proof fn law_every_resource_has_method(
    paths: Seq<(String, RefOr<PathItemObject>)>,
    source: OpenApiSpec,
    spec: OpenApiSpec,
    service: Seq<char>,
)
    ensures
        every_resource_has_method(resource_tree(paths, source, spec, service)),
        paths.len() == 0 ==> resource_tree(paths, source, spec, service).len() == 0,
    decreases paths.len(),
{
    if paths.len() > 0 {
        law_every_resource_has_method(paths.drop_last(), source, spec, service);
        let t0 = resource_tree(paths.drop_last(), source, spec, service);
        let path = paths.last().0@;
        if let RefOr::Item(item) = paths.last().1 {
            let segs = path_segments(path);
            let chain = static_names(segs);
            if chain.len() > 0 {
                let t1 = add_operation(t0, "GET"@, item.get, path, item, source, spec, service);
                let t2 = add_operation(t1, "POST"@, item.post, path, item, source, spec, service);
                let t3 = add_operation(t2, "PUT"@, item.put, path, item, source, spec, service);
                let t4 = add_operation(t3, "PATCH"@, item.patch, path, item, source, spec, service);
                lemma_add_operation_keeps_every(t0, "GET"@, item.get, path, item, source, spec, service);
                lemma_add_operation_keeps_every(t1, "POST"@, item.post, path, item, source, spec, service);
                lemma_add_operation_keeps_every(t2, "PUT"@, item.put, path, item, source, spec, service);
                lemma_add_operation_keeps_every(t3, "PATCH"@, item.patch, path, item, source, spec, service);
                lemma_add_operation_keeps_every(t4, "DELETE"@, item.delete, path, item, source, spec, service);
            }
        }
    }
}

proof fn lemma_add_operation_keeps_every(
    tree: Seq<(Seq<char>, ResourceView)>,
    verb: Seq<char>,
    op: Option<OperationObject>,
    path: Seq<char>,
    item: PathItemObject,
    source: OpenApiSpec,
    spec: OpenApiSpec,
    service: Seq<char>,
)
    requires
        every_resource_has_method(tree),
        static_names(path_segments(path)).len() > 0,
    ensures
        every_resource_has_method(add_operation(tree, verb, op, path, item, source, spec, service)),
{
    if let Some(o) = op {
        let segs = path_segments(path);
        let chain = static_names(segs);
        let name = method_name_spec(verb, targets_item(segs), opt_view(o.operation_id));
        lemma_tree_insert_keeps_every(
            tree,
            chain,
            name,
            method_spec(method_id(service, chain, name), verb, path, segs, o, item, source, spec),
        );
    }
}


/// The method that operation `op` on `path` places as method `k` of the resource
/// reached by `c`, if it lands there.
pub open spec fn placed_by(
    verb: Seq<char>,
    op: Option<OperationObject>,
    path: Seq<char>,
    item: PathItemObject,
    source: OpenApiSpec,
    spec: OpenApiSpec,
    service: Seq<char>,
    c: Seq<Seq<char>>,
    k: Seq<char>,
) -> Option<MethodView> {
    match op {
        None => None,
        Some(o) => {
            let segs = path_segments(path);
            let chain = static_names(segs);
            let name = method_name_spec(verb, targets_item(segs), opt_view(o.operation_id));
            if chain == c && name == k {
                Some(method_spec(method_id(service, chain, name), verb, path, segs, o, item, source, spec))
            } else {
                None
            }
        },
    }
}

/// The first of two optional methods that is present.
pub open spec fn either(a: Option<MethodView>, b: Option<MethodView>) -> Option<MethodView> {
    match a {
        Some(m) => Some(m),
        None => b,
    }
}

/// The method that the last operation landing at (`c`, `k`) places there, taking
/// the paths in order and, within a path, GET, POST, PUT, PATCH, DELETE.
pub open spec fn last_placed(
    paths: Seq<(String, RefOr<PathItemObject>)>,
    source: OpenApiSpec,
    spec: OpenApiSpec,
    service: Seq<char>,
    c: Seq<Seq<char>>,
    k: Seq<char>,
) -> Option<MethodView>
    decreases paths.len(),
{
    if paths.len() == 0 {
        None
    } else {
        let path = paths.last().0@;
        let earlier = last_placed(paths.drop_last(), source, spec, service, c, k);
        match paths.last().1 {
            RefOr::Reference(_) => earlier,
            RefOr::Item(item) => if static_names(path_segments(path)).len() == 0 {
                earlier
            } else {
                either(placed_by("DELETE"@, item.delete, path, item, source, spec, service, c, k),
                either(placed_by("PATCH"@, item.patch, path, item, source, spec, service, c, k),
                either(placed_by("PUT"@, item.put, path, item, source, spec, service, c, k),
                either(placed_by("POST"@, item.post, path, item, source, spec, service, c, k),
                either(placed_by("GET"@, item.get, path, item, source, spec, service, c, k), earlier)))))
            },
        }
    }
}

proof fn lemma_add_operation_method(
    tree: Seq<(Seq<char>, ResourceView)>,
    verb: Seq<char>,
    op: Option<OperationObject>,
    path: Seq<char>,
    item: PathItemObject,
    source: OpenApiSpec,
    spec: OpenApiSpec,
    service: Seq<char>,
    c: Seq<Seq<char>>,
    k: Seq<char>,
)
    requires
        static_names(path_segments(path)).len() > 0,
    ensures
        tree_method(add_operation(tree, verb, op, path, item, source, spec, service), c, k)
            == either(placed_by(verb, op, path, item, source, spec, service, c, k), tree_method(tree, c, k)),
{
    if let Some(o) = op {
        let segs = path_segments(path);
        let chain = static_names(segs);
        let name = method_name_spec(verb, targets_item(segs), opt_view(o.operation_id));
        let meth = method_spec(method_id(service, chain, name), verb, path, segs, o, item, source, spec);
        if chain == c && name == k {
            law_method_placed_is_found(tree, chain, name, meth);
        } else {
            law_placing_keeps_other_methods(tree, chain, name, meth, c, k);
        }
    }
}

/// The tree holds exactly the methods that the operations place: method `k` of
/// the resource reached by `c` is the one placed there by the last operation
/// landing there (a later path wins a clash), and there is none when no
/// operation lands there.
pub proof fn law_tree_holds_placed_methods(
    paths: Seq<(String, RefOr<PathItemObject>)>,
    source: OpenApiSpec,
    spec: OpenApiSpec,
    service: Seq<char>,
    c: Seq<Seq<char>>,
    k: Seq<char>,
)
    ensures
        tree_method(resource_tree(paths, source, spec, service), c, k) == last_placed(paths, source, spec, service, c, k),
    decreases paths.len(),
{
    if paths.len() == 0 {
        if c.len() > 0 {
            lemma_tree_get_empty(c);
        }
    } else {
        law_tree_holds_placed_methods(paths.drop_last(), source, spec, service, c, k);
        let t0 = resource_tree(paths.drop_last(), source, spec, service);
        let path = paths.last().0@;
        if let RefOr::Item(item) = paths.last().1 {
            if static_names(path_segments(path)).len() > 0 {
                let t1 = add_operation(t0, "GET"@, item.get, path, item, source, spec, service);
                let t2 = add_operation(t1, "POST"@, item.post, path, item, source, spec, service);
                let t3 = add_operation(t2, "PUT"@, item.put, path, item, source, spec, service);
                let t4 = add_operation(t3, "PATCH"@, item.patch, path, item, source, spec, service);
                lemma_add_operation_method(t0, "GET"@, item.get, path, item, source, spec, service, c, k);
                lemma_add_operation_method(t1, "POST"@, item.post, path, item, source, spec, service, c, k);
                lemma_add_operation_method(t2, "PUT"@, item.put, path, item, source, spec, service, c, k);
                lemma_add_operation_method(t3, "PATCH"@, item.patch, path, item, source, spec, service, c, k);
                lemma_add_operation_method(t4, "DELETE"@, item.delete, path, item, source, spec, service, c, k);
            }
        }
    }
}

proof fn lemma_last_placed_position(
    paths: Seq<(String, RefOr<PathItemObject>)>,
    source: OpenApiSpec,
    spec: OpenApiSpec,
    service: Seq<char>,
    c: Seq<Seq<char>>,
    k: Seq<char>,
)
    ensures
        last_placed(paths, source, spec, service, c, k) matches Some(m) ==> m.id == method_id(service, c, k)
            && exists|p: Seq<char>| static_names(path_segments(p)) == c && #[trigger] api_path(p) == m.path,
    decreases paths.len(),
{
    if paths.len() > 0 {
        lemma_last_placed_position(paths.drop_last(), source, spec, service, c, k);
        let path = paths.last().0@;
        let earlier = last_placed(paths.drop_last(), source, spec, service, c, k);
        if let Some(m) = last_placed(paths, source, spec, service, c, k) {
            if last_placed(paths, source, spec, service, c, k) != earlier {
                // placed by an operation of the last path
                assert(static_names(path_segments(path)) == c);
                assert(api_path(path) == m.path);
            }
        }
    }
}

/// Every method of the tree sits where its id and path say: method `k` of the
/// resource reached by `c` has id `service.c.k`, and the literal segments of
/// its path are `c`.
pub proof fn law_method_ids_match_position(
    paths: Seq<(String, RefOr<PathItemObject>)>,
    source: OpenApiSpec,
    spec: OpenApiSpec,
    service: Seq<char>,
    c: Seq<Seq<char>>,
    k: Seq<char>,
)
    ensures
        tree_method(resource_tree(paths, source, spec, service), c, k) matches Some(m) ==> m.id == service + "."@ + join(
            c,
            "."@,
        ) + "."@ + k && static_names(path_segments(m.path)) == c,
{
    law_tree_holds_placed_methods(paths, source, spec, service, c, k);
    lemma_last_placed_position(paths, source, spec, service, c, k);
    if let Some(m) = tree_method(resource_tree(paths, source, spec, service), c, k) {
        let p = choose|p: Seq<char>| static_names(path_segments(p)) == c && #[trigger] api_path(p) == m.path;
        if seq!['/'].is_prefix_of(p) {
            assert(p =~= seq!['/'] + p.skip(1));
            lemma_leading_slash_segments(p.skip(1));
        }
    }
}


/// Every list of methods holds each name once, and so does every method's list of parameters.
pub open spec fn methods_keys_distinct(ms: Seq<(Seq<char>, MethodView)>) -> bool {
    &&& keys_distinct(keys_of(ms))
    &&& forall|j: int| #![trigger ms[j]] 0 <= j < ms.len() ==> keys_distinct(keys_of(ms[j].1.parameters))
}

/// Every map of the resource tree, at every depth, holds each key once: the
/// resources, their methods, and the methods' parameters.
pub open spec fn tree_keys_distinct(m: Seq<(Seq<char>, ResourceView)>) -> bool
    decreases m,
{
    &&& keys_distinct(keys_of(m))
    &&& forall|i: int|
        #![trigger m[i]]
        0 <= i < m.len() ==> methods_keys_distinct(m[i].1.methods) && tree_keys_distinct(m[i].1.resources)
}

proof fn lemma_tree_insert_keeps_distinct(
    m: Seq<(Seq<char>, ResourceView)>,
    chain: Seq<Seq<char>>,
    name: Seq<char>,
    meth: MethodView,
)
    requires
        tree_keys_distinct(m),
        keys_distinct(keys_of(meth.parameters)),
    ensures
        tree_keys_distinct(tree_insert(m, chain, name, meth)),
    decreases chain.len(),
{
    if chain.len() > 0 {
        let r = match assoc_get(m, chain[0]) {
            Some(r) => r,
            None => empty_resource(),
        };
        lemma_index_of_key(keys_of(m), chain[0]);
        if let Some(j) = index_of_key(keys_of(m), chain[0]) {
            assert(m[j].1 == r);
        } else {
            assert(keys_of(r.methods) =~= Seq::<Seq<char>>::empty());
            assert(keys_of(r.resources) =~= Seq::<Seq<char>>::empty());
        }
        assert(methods_keys_distinct(r.methods));
        assert(tree_keys_distinct(r.resources));
        let r2 = if chain.len() == 1 {
            ResourceView { methods: assoc_insert(r.methods, name, meth), resources: r.resources }
        } else {
            ResourceView { methods: r.methods, resources: tree_insert(r.resources, chain.drop_first(), name, meth) }
        };
        if chain.len() == 1 {
            lemma_assoc_insert_distinct(r.methods, name, meth);
            lemma_assoc_insert_entries(r.methods, name, meth);
            let ms = r2.methods;
            assert forall|j: int| 0 <= j < ms.len() implies keys_distinct(keys_of(#[trigger] ms[j].1.parameters)) by {
                if ms[j] != (name, meth) {
                    assert(ms[j] == r.methods[j]);
                }
            }
        } else {
            lemma_tree_insert_keeps_distinct(r.resources, chain.drop_first(), name, meth);
        }
        assert(methods_keys_distinct(r2.methods));
        assert(tree_keys_distinct(r2.resources));
        lemma_assoc_insert_distinct(m, chain[0], r2);
        lemma_assoc_insert_entries(m, chain[0], r2);
        let t = assoc_insert(m, chain[0], r2);
        assert forall|i: int| 0 <= i < t.len() implies methods_keys_distinct((#[trigger] t[i]).1.methods)
            && tree_keys_distinct(t[i].1.resources) by {
            if t[i] != (chain[0], r2) {
                assert(t[i] == m[i]);
            }
        }
    }
}

proof fn lemma_with_resolved_parameters_distinct(
    params: Seq<(Seq<char>, ParameterView)>,
    list: Seq<RefOr<ParameterObject>>,
    comps: Seq<(String, RefOr<ParameterObject>)>,
)
    requires
        keys_distinct(keys_of(params)),
    ensures
        keys_distinct(keys_of(with_resolved_parameters(params, list, comps))),
    decreases list.len(),
{
    if list.len() > 0 {
        lemma_with_resolved_parameters_distinct(params, list.drop_last(), comps);
        let prev = with_resolved_parameters(params, list.drop_last(), comps);
        match resolved(comps, list.last()) {
            Some(ParameterObject::Query(d)) => lemma_assoc_insert_distinct(prev, d.name@, parameter_view(d, "query"@)),
            Some(ParameterObject::Path(d)) => lemma_assoc_insert_distinct(prev, d.name@, parameter_view(d, "path"@)),
            _ => {},
        }
    }
}

proof fn lemma_with_path_defaults_distinct(params: Seq<(Seq<char>, ParameterView)>, names: Seq<Seq<char>>)
    requires
        keys_distinct(keys_of(params)),
    ensures
        keys_distinct(keys_of(with_path_defaults(params, names))),
    decreases names.len(),
{
    if names.len() > 0 {
        lemma_with_path_defaults_distinct(params, names.drop_last());
        lemma_assoc_insert_distinct(with_path_defaults(params, names.drop_last()), names.last(), path_parameter());
    }
}

/// Every method's parameters hold each name once.
pub proof fn law_method_parameters_distinct(segs: Seq<SegmentView>, op: OperationObject, item: PathItemObject, source: OpenApiSpec)
    ensures
        keys_distinct(keys_of(method_parameters(segs, op, item, source))),
{
    let comps = component_parameters(source);
    assert(keys_of(Seq::<(Seq<char>, ParameterView)>::empty()) =~= Seq::<Seq<char>>::empty());
    lemma_with_resolved_parameters_distinct(Seq::empty(), item.parameters@, comps);
    let p0 = with_resolved_parameters(Seq::empty(), item.parameters@, comps);
    lemma_with_resolved_parameters_distinct(p0, op.parameters@, comps);
    lemma_with_path_defaults_distinct(with_resolved_parameters(p0, op.parameters@, comps), param_names(segs));
}

proof fn lemma_add_operation_keeps_distinct(
    tree: Seq<(Seq<char>, ResourceView)>,
    verb: Seq<char>,
    op: Option<OperationObject>,
    path: Seq<char>,
    item: PathItemObject,
    source: OpenApiSpec,
    spec: OpenApiSpec,
    service: Seq<char>,
)
    requires
        tree_keys_distinct(tree),
    ensures
        tree_keys_distinct(add_operation(tree, verb, op, path, item, source, spec, service)),
{
    if let Some(o) = op {
        let segs = path_segments(path);
        let chain = static_names(segs);
        let name = method_name_spec(verb, targets_item(segs), opt_view(o.operation_id));
        law_method_parameters_distinct(segs, o, item, source);
        lemma_tree_insert_keeps_distinct(
            tree,
            chain,
            name,
            method_spec(method_id(service, chain, name), verb, path, segs, o, item, source, spec),
        );
    }
}

/// Every map of the resource tree holds each key once, at every depth.
pub proof fn law_tree_keys_distinct(
    paths: Seq<(String, RefOr<PathItemObject>)>,
    source: OpenApiSpec,
    spec: OpenApiSpec,
    service: Seq<char>,
)
    ensures
        tree_keys_distinct(resource_tree(paths, source, spec, service)),
    decreases paths.len(),
{
    if paths.len() == 0 {
        assert(keys_of(Seq::<(Seq<char>, ResourceView)>::empty()) =~= Seq::<Seq<char>>::empty());
    } else {
        law_tree_keys_distinct(paths.drop_last(), source, spec, service);
        let t0 = resource_tree(paths.drop_last(), source, spec, service);
        let path = paths.last().0@;
        if let RefOr::Item(item) = paths.last().1 {
            if static_names(path_segments(path)).len() > 0 {
                let t1 = add_operation(t0, "GET"@, item.get, path, item, source, spec, service);
                let t2 = add_operation(t1, "POST"@, item.post, path, item, source, spec, service);
                let t3 = add_operation(t2, "PUT"@, item.put, path, item, source, spec, service);
                let t4 = add_operation(t3, "PATCH"@, item.patch, path, item, source, spec, service);
                lemma_add_operation_keeps_distinct(t0, "GET"@, item.get, path, item, source, spec, service);
                lemma_add_operation_keeps_distinct(t1, "POST"@, item.post, path, item, source, spec, service);
                lemma_add_operation_keeps_distinct(t2, "PUT"@, item.put, path, item, source, spec, service);
                lemma_add_operation_keeps_distinct(t3, "PATCH"@, item.patch, path, item, source, spec, service);
                lemma_add_operation_keeps_distinct(t4, "DELETE"@, item.delete, path, item, source, spec, service);
            }
        }
    }
}


/// The standard method names: GET lists a collection and gets an item, POST
/// creates, PUT updates an item, PATCH patches an item and DELETE deletes one,
/// whatever the operation id; PUT, PATCH and DELETE on a collection are named
/// by the operation id when there is one.
pub proof fn law_standard_method_names(is_item: bool, operation_id: Option<Seq<char>>)
    ensures
        method_name_spec("GET"@, false, operation_id) == "list"@,
        method_name_spec("GET"@, true, operation_id) == "get"@,
        method_name_spec("POST"@, is_item, operation_id) == "create"@,
        method_name_spec("PUT"@, true, operation_id) == "update"@,
        method_name_spec("PATCH"@, true, operation_id) == "patch"@,
        method_name_spec("DELETE"@, true, operation_id) == "delete"@,
        operation_id matches Some(id) ==> method_name_spec("PUT"@, false, operation_id) == id
            && method_name_spec("PATCH"@, false, operation_id) == id
            && method_name_spec("DELETE"@, false, operation_id) == id,
{
    reveal_strlit("GET");
    reveal_strlit("POST");
    reveal_strlit("PUT");
    reveal_strlit("PATCH");
    reveal_strlit("DELETE");
    assert("GET"@ != "POST"@ && "GET"@ != "PUT"@ && "GET"@ != "PATCH"@ && "GET"@ != "DELETE"@) by {
        assert("GET"@[0] != "POST"@[0] && "GET"@[0] != "PUT"@[0] && "GET"@.len() != "PATCH"@.len()
            && "GET"@.len() != "DELETE"@.len());
    }
    assert("POST"@ != "PUT"@ && "POST"@ != "PATCH"@ && "POST"@ != "DELETE"@) by {
        assert("POST"@.len() != "PUT"@.len() && "POST"@[1] != "PATCH"@[1] && "POST"@[0] != "DELETE"@[0]);
    }
    assert("PUT"@ != "PATCH"@ && "PUT"@ != "DELETE"@) by {
        assert("PUT"@.len() != "PATCH"@.len() && "PUT"@[0] != "DELETE"@[0]);
    }
    assert("PATCH"@ != "DELETE"@) by {
        assert("PATCH"@[0] != "DELETE"@[0]);
    }
}

/// A method's description is the operation's description whenever it has one;
/// the summary is used only when the description is absent.
pub proof fn law_method_description(
    id: Seq<char>,
    verb: Seq<char>,
    path: Seq<char>,
    segs: Seq<SegmentView>,
    op: OperationObject,
    item: PathItemObject,
    source: OpenApiSpec,
    spec: OpenApiSpec,
)
    ensures
        ({
            let m = method_spec(id, verb, path, segs, op, item, source, spec);
            &&& op.description matches Some(d) ==> m.description == Some(d@)
            &&& op.description is None ==> m.description == match op.summary {
                Some(s) => Some(s@),
                None => None,
            }
        }),
{
}

/// The Discovery type of a schema kind is the name of its type: a number schema
/// gives `number`, an integer schema `integer`, a string `string`, a boolean
/// `boolean`, an array `array` and an object `object`; any other kind is taken
/// as `string`. Only an integer schema gives `integer`. Known number and integer
/// formats are named by their lowercased variant names.
pub proof fn law_type_names(kind: SchemaKind)
    ensures
        kind matches SchemaKind::Type(SchemaType::Number(_)) ==> type_info(kind).0 == "number"@,
        kind matches SchemaKind::Type(SchemaType::Integer(_)) ==> type_info(kind).0 == "integer"@,
        kind matches SchemaKind::Type(SchemaType::String(_)) ==> type_info(kind).0 == "string"@,
        kind matches SchemaKind::Type(SchemaType::Boolean) ==> type_info(kind).0 == "boolean"@,
        kind matches SchemaKind::Type(SchemaType::Array) ==> type_info(kind).0 == "array"@,
        kind matches SchemaKind::Type(SchemaType::Object) ==> type_info(kind).0 == "object"@,
        !(kind is Type) ==> type_info(kind).0 == "string"@,
        type_info(kind).0 == "integer"@ ==> kind matches SchemaKind::Type(SchemaType::Integer(_)),
        kind matches SchemaKind::Type(SchemaType::Number(FormatOf::Item(NumberFormatName::Double)))
            ==> type_info(kind).1 == Some("double"@),
        kind matches SchemaKind::Type(SchemaType::Number(FormatOf::Item(NumberFormatName::Float)))
            ==> type_info(kind).1 == Some("float"@),
        kind matches SchemaKind::Type(SchemaType::Integer(FormatOf::Item(IntegerFormatName::Int32)))
            ==> type_info(kind).1 == Some("int32"@),
        kind matches SchemaKind::Type(SchemaType::Integer(FormatOf::Item(IntegerFormatName::Int64)))
            ==> type_info(kind).1 == Some("int64"@),
        kind matches SchemaKind::Type(SchemaType::String(st)) ==> type_info(kind).1 == match st.format {
            FormatOf::Item(StringFormatName::Date) => Some("date"@),
            FormatOf::Item(StringFormatName::DateTime) => Some("datetime"@),
            FormatOf::Item(StringFormatName::Password) => Some("password"@),
            FormatOf::Item(StringFormatName::Byte) => Some("byte"@),
            FormatOf::Item(StringFormatName::Binary) => Some("binary"@),
            FormatOf::Unknown(u) => Some(u@),
            FormatOf::Empty => None,
        } && (st.enumeration@.len() == 0 <==> type_info(kind).2 is None),
        (kind matches SchemaKind::Type(SchemaType::Number(FormatOf::Unknown(u))) ==> type_info(kind).1 == Some(u@)),
        (kind matches SchemaKind::Type(SchemaType::Number(FormatOf::Empty)) ==> type_info(kind).1 is None),
        !(kind matches SchemaKind::Type(SchemaType::String(_))) ==> type_info(kind).2 is None,
{
    reveal_strlit("integer");
    reveal_strlit("number");
    reveal_strlit("string");
    reveal_strlit("boolean");
    reveal_strlit("array");
    reveal_strlit("object");
    assert("integer"@.len() != "number"@.len());
    assert("integer"@.len() != "string"@.len());
    assert("integer"@[0] != "boolean"@[0]);
    assert("integer"@.len() != "array"@.len());
    assert("integer"@.len() != "object"@.len());
}

/// A query or path parameter with an inline schema has that schema's Discovery
/// type; any other parameter is a string.
pub proof fn law_parameter_type(d: ParameterFields, location: Seq<char>)
    ensures
        d.format matches ParameterSchemaOrContent::Schema(RefOr::Item(s)) ==> parameter_view(d, location).param_type
            == type_info(s.kind).0,
        !(d.format matches ParameterSchemaOrContent::Schema(RefOr::Item(_))) ==> parameter_view(d, location).param_type
            == "string"@,
        parameter_view(d, location).location == location,
        parameter_view(d, location).required == d.required,
        parameter_view(d, location).description == match d.description {
            Some(t) => Some(t@),
            None => None,
        },
        parameter_view(d, location).default is None,
        !(d.format matches ParameterSchemaOrContent::Schema(RefOr::Item(_))) ==> parameter_view(d, location).format is None
            && parameter_view(d, location).enum_values is None,
{
}

/// A path placeholder that no parameter declares becomes a required string
/// parameter in the path, with nothing else set.
pub proof fn law_placeholder_parameter()
    ensures
        path_parameter().param_type == "string"@,
        path_parameter().required,
        path_parameter().location == "path"@,
        path_parameter().description is None,
        path_parameter().format is None,
        path_parameter().enum_values is None,
        path_parameter().default is None,
{
}

/// The schema a body points to: a reference names its terminal segment, a
/// single-entry `allOf` points where its entry does, and any other schema points nowhere.
pub proof fn law_schema_ref_of(s: RefOr<SchemaObject>)
    ensures
        s matches RefOr::Reference(r) ==> schema_ref_of(s) == Some(after_last(r@, '/')),
        s matches RefOr::Item(sc) ==> schema_ref_of(s) == match sc.kind {
            SchemaKind::AllOf(v) => if v@.len() == 1 {
                schema_ref_of(v@[0])
            } else {
                None
            },
            _ => None,
        },
{
}



/// A method carries the id and verb it is built with, the template's path without
/// its leading `/`, and the template's placeholders, in order, as its parameter order.
pub proof fn law_method_fields(
    id: Seq<char>,
    verb: Seq<char>,
    path: Seq<char>,
    segs: Seq<SegmentView>,
    op: OperationObject,
    item: PathItemObject,
    source: OpenApiSpec,
    spec: OpenApiSpec,
)
    ensures
        ({
            let m = method_spec(id, verb, path, segs, op, item, source, spec);
            &&& m.id == id
            &&& m.http_method == verb
            &&& path.len() > 0 && path[0] == '/' ==> m.path == path.subrange(1, path.len() as int)
            &&& !(path.len() > 0 && path[0] == '/') ==> m.path == path
            &&& m.parameter_order == param_names(segs)
        }),
{
    if path.len() > 0 && path[0] == '/' {
        assert(seq!['/'].is_prefix_of(path)) by {
            assert(path.take(1) =~= seq!['/']);
        }
        assert(path.skip(1) =~= path.subrange(1, path.len() as int));
    } else if seq!['/'].is_prefix_of(path) {
        assert(path.take(1)[0] == path[0]);
    }
}

/// The success response is the first response for code 200, or else the first
/// for code 201, and there is none when neither code is listed.
pub proof fn law_success_response(r: Seq<(ResponseKey, RefOr<ResponseObject>)>, i: int)
    ensures
        0 <= i < r.len() && r[i].0 == ResponseKey::Code(200) && (forall|j: int|
            0 <= j < i ==> r[j].0 != ResponseKey::Code(200)) ==> success_response(r) == Some(r[i].1),
        0 <= i < r.len() && r[i].0 == ResponseKey::Code(201) && (forall|j: int|
            0 <= j < r.len() ==> r[j].0 != ResponseKey::Code(200)) && (forall|j: int|
            0 <= j < i ==> r[j].0 != ResponseKey::Code(201)) ==> success_response(r) == Some(r[i].1),
        (forall|j: int| 0 <= j < r.len() ==> r[j].0 != ResponseKey::Code(200) && r[j].0 != ResponseKey::Code(201))
            ==> success_response(r) is None,
{
    lemma_index_of_code(r, 200);
    lemma_index_of_code(r, 201);
    if 0 <= i < r.len() {
        if let Some(j) = index_of_code(r, 200) {
            if r[i].0 == ResponseKey::Code(200) && j != i {
                assert(j < i ==> r[j].0 == ResponseKey::Code(200));
            }
        }
        if let Some(j) = index_of_code(r, 201) {
            if r[i].0 == ResponseKey::Code(201) && j != i {
                assert(j < i ==> r[j].0 == ResponseKey::Code(201));
            }
        }
    }
}

/// An operation with its own security requirements has their scopes whatever
/// the document declares; one without takes the document's, as if they were its
/// own; an empty list of requirements, or none anywhere, gives no scopes.
pub proof fn law_scopes(op: OperationObject, spec: OpenApiSpec, other: OpenApiSpec)
    ensures
        op.security is Some ==> scopes_of(op, spec) == scopes_of(op, other),
        op.security is Some && op.security->0@.len() == 0 ==> scopes_of(op, spec) == Seq::<Seq<char>>::empty(),
        op.security is None && spec.security is None ==> scopes_of(op, spec) == Seq::<Seq<char>>::empty(),
        op.security is None && spec.security is Some ==> scopes_of(op, spec) == scopes_of(
            OperationObject { security: spec.security, ..op },
            other,
        ),
{
}

/// The request and response schema of a body: the schema of its
/// `application/json` entry, a reference naming its terminal segment.
pub proof fn law_json_schema_ref(content: Seq<(String, MediaType)>, i: int)
    ensures
        0 <= i < content.len() && content[i].0@ == "application/json"@ && (forall|j: int|
            0 <= j < i ==> content[j].0@ != "application/json"@) ==> json_schema_ref(content) == match content[i].1.schema {
            Some(RefOr::Reference(r)) => Some(ref_name_of(r@)),
            Some(s) => schema_ref_of(s),
            None => None,
        },
        (forall|j: int| 0 <= j < content.len() ==> content[j].0@ != "application/json"@) ==> json_schema_ref(content) is None,
{
    lemma_index_of_exec_key(content, "application/json"@);
    if let Some(j) = index_of_key(exec_keys(content), "application/json"@) {
        if 0 <= i < content.len() && content[i].0@ == "application/json"@ && j != i {
            assert(j < i ==> content[j].0@ == "application/json"@);
        }
    }
}

} // verus!
