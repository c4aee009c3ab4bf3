//! Decoding JSON text, and the OpenAPI 3.0 model, with `serde_json` and `openapiv3`.
//!
//! The two calls that decode are named by [`json_of_text`] and [`openapi_of`];
//! the functions below them only move each decoded value into the library's
//! types, field by field.

use vstd::prelude::*;
use crate::json::{Json, JsonValue};
use crate::openapi::{
    ComponentsObject, FormatOf, Info, IntegerFormatName, MediaType, NumberFormatName, OpenApiSpec, OperationObject, ParameterObject,
    ParameterFields, ParameterSchemaOrContent, PathItemObject, RefOr, RequestBodyObject, ResponseObject, SchemaObject, SchemaKind,
    SchemaType, SecurityRequirement, Server, ResponseKey, StringFormatName, StringType,
};
use crate::transform::schemas::{components_distinct, distinct_throughout};
use crate::resolver::component_names_distinct;

verus! {

// ---------------------------------------------------------------------------
// JSON text
// ---------------------------------------------------------------------------

/// The JSON value that `serde_json::from_str` decodes from a text (object
/// entries in the order of its map), or `None` when it rejects the text.
pub uninterp spec fn json_of_text(text: Seq<char>) -> Option<Json>;

/// Calls `serde_json::from_str` into a `serde_json::Value` and moves the result
/// into a [`JsonValue`]. The contract names the decoded value; it also states
/// that every object of it has distinct keys, as a `serde_json` map holds each
/// key once. The error's content is not stated.
#[verifier::external_body]
pub(crate) fn parse_json(text: &str) -> (r: Result<JsonValue, serde_json::Error>)
    ensures
        match r {
            Ok(v) => json_of_text(text@) == Some(v@) && distinct_throughout(v@),
            Err(_) => json_of_text(text@) is None,
        },
{
    serde_json::from_str::<serde_json::Value>(text).map(|v| from_serde(&v))
}

/// Moves a `serde_json::Value` into a [`JsonValue`], variant by variant.
#[verifier::external_body]
fn from_serde(v: &serde_json::Value) -> JsonValue {
    match v {
        serde_json::Value::Null => JsonValue::Null,
        serde_json::Value::Bool(b) => JsonValue::Bool(*b),
        serde_json::Value::Number(n) => JsonValue::Number(n.to_string()),
        serde_json::Value::String(s) => JsonValue::Str(s.clone()),
        serde_json::Value::Array(a) => JsonValue::Array(a.iter().map(from_serde).collect()),
        serde_json::Value::Object(m) => JsonValue::Object(m.iter().map(|(k, x)| (k.clone(), from_serde(x))).collect()),
    }
}

/// Moves a [`JsonValue`] into a `serde_json::Value`, variant by variant; a
/// number whose text `serde_json` does not accept becomes `null`.
#[verifier::external_body]
fn to_serde(v: &JsonValue) -> serde_json::Value {
    match v {
        JsonValue::Null => serde_json::Value::Null,
        JsonValue::Bool(b) => serde_json::Value::Bool(*b),
        JsonValue::Number(n) => n.parse::<serde_json::Number>().map_or(serde_json::Value::Null, serde_json::Value::Number),
        JsonValue::Str(s) => serde_json::Value::String(s.clone()),
        JsonValue::Array(a) => serde_json::Value::Array(a.iter().map(to_serde).collect()),
        JsonValue::Object(o) => serde_json::Value::Object(o.iter().map(|(k, x)| (k.clone(), to_serde(x))).collect()),
    }
}

// ---------------------------------------------------------------------------
// The OpenAPI model
// ---------------------------------------------------------------------------

/// The description that `serde_json::from_value` decodes into `openapiv3::OpenAPI`
/// from a JSON value, as the library models it, or `None` when it rejects the value.
pub uninterp spec fn openapi_of(j: Json) -> Option<OpenApiSpec>;

/// Calls `serde_json::from_value` into `openapiv3::OpenAPI` and moves the result
/// into an [`OpenApiSpec`]. The contract names the decoded description and
/// states that the JSON form of each component schema (from `serde_json::to_value`,
/// a `serde_json` map per object) has distinct keys in every object, and that
/// each component list holds a name once (an `IndexMap` holds each key once);
/// the error's content is not stated.
#[verifier::external_body]
pub(crate) fn openapi_of_json(v: &JsonValue) -> (r: Result<OpenApiSpec, serde_json::Error>)
    ensures
        match r {
            Ok(s) => openapi_of(v@) == Some(s) && components_distinct(s) && component_names_distinct(s),
            Err(_) => openapi_of(v@) is None,
        },
{
    serde_json::from_value::<openapiv3::OpenAPI>(to_serde(v)).map(|api| spec_of(&api))
}

#[verifier::external_body]
fn spec_of(api: &openapiv3::OpenAPI) -> OpenApiSpec {
    OpenApiSpec {
        info: Info {
            title: api.info.title.clone(),
            description: api.info.description.clone(),
            version: api.info.version.clone(),
        },
        servers: api.servers.iter().map(|s| Server { url: s.url.clone() }).collect(),
        paths: api.paths.paths.iter().map(|(k, r)| (k.clone(), path_item_ref_or(r))).collect(),
        components: api.components.as_ref().map(components_of),
        security: document_security(api),
    }
}

#[verifier::external_body]
fn document_security(api: &openapiv3::OpenAPI) -> Option<Vec<SecurityRequirement>> {
    api.security.as_ref().map(|reqs| {
        reqs.iter().map(|r| SecurityRequirement { schemes: r.iter().map(|(k, x)| (k.clone(), x.clone())).collect() }).collect()
    })
}

#[verifier::external_body]
fn operation_security(o: &openapiv3::Operation) -> Option<Vec<SecurityRequirement>> {
    o.security.as_ref().map(|reqs| {
        reqs.iter().map(|r| SecurityRequirement { schemes: r.iter().map(|(k, x)| (k.clone(), x.clone())).collect() }).collect()
    })
}

#[verifier::external_body]
fn components_of(c: &openapiv3::Components) -> ComponentsObject {
    ComponentsObject {
        schemas: c.schemas.iter().map(|(k, r)| (k.clone(), schema_ref_or(r))).collect(),
        responses: c.responses.iter().map(|(k, r)| (k.clone(), response_ref_or(r))).collect(),
        parameters: c.parameters.iter().map(|(k, r)| (k.clone(), parameter_ref_or(r))).collect(),
        request_bodies: c.request_bodies.iter().map(|(k, r)| (k.clone(), request_body_ref_or(r))).collect(),
    }
}

#[verifier::external_body]
fn path_item_ref_or(r: &openapiv3::ReferenceOr<openapiv3::PathItem>) -> RefOr<PathItemObject> {
    match r {
        openapiv3::ReferenceOr::Reference { reference } => RefOr::Reference(reference.clone()),
        openapiv3::ReferenceOr::Item(p) => RefOr::Item(PathItemObject {
            get: p.get.as_ref().map(operation_of),
            put: p.put.as_ref().map(operation_of),
            post: p.post.as_ref().map(operation_of),
            delete: p.delete.as_ref().map(operation_of),
            patch: p.patch.as_ref().map(operation_of),
            parameters: p.parameters.iter().map(parameter_ref_or).collect(),
        }),
    }
}

#[verifier::external_body]
fn operation_of(o: &openapiv3::Operation) -> OperationObject {
    OperationObject {
        summary: o.summary.clone(),
        description: o.description.clone(),
        operation_id: o.operation_id.clone(),
        parameters: o.parameters.iter().map(parameter_ref_or).collect(),
        request_body: o.request_body.as_ref().map(request_body_ref_or),
        responses: o.responses.responses.iter().map(|(c, r)| (status_of(c), response_ref_or(r))).collect(),
        security: operation_security(o),
    }
}

#[verifier::external_body]
fn status_of(c: &openapiv3::StatusCode) -> ResponseKey {
    match c {
        openapiv3::StatusCode::Code(n) => ResponseKey::Code(*n),
        openapiv3::StatusCode::Range(n) => ResponseKey::Range(*n),
    }
}

#[verifier::external_body]
fn parameter_ref_or(r: &openapiv3::ReferenceOr<openapiv3::Parameter>) -> RefOr<ParameterObject> {
    match r {
        openapiv3::ReferenceOr::Reference { reference } => RefOr::Reference(reference.clone()),
        openapiv3::ReferenceOr::Item(openapiv3::Parameter::Query { parameter_data: d, .. }) => RefOr::Item(ParameterObject::Query(parameter_data_of(d))),
        openapiv3::ReferenceOr::Item(openapiv3::Parameter::Header { parameter_data: d, .. }) => RefOr::Item(ParameterObject::Header(parameter_data_of(d))),
        openapiv3::ReferenceOr::Item(openapiv3::Parameter::Path { parameter_data: d, .. }) => RefOr::Item(ParameterObject::Path(parameter_data_of(d))),
        openapiv3::ReferenceOr::Item(openapiv3::Parameter::Cookie { parameter_data: d, .. }) => RefOr::Item(ParameterObject::Cookie(parameter_data_of(d))),
    }
}

#[verifier::external_body]
fn parameter_data_of(d: &openapiv3::ParameterData) -> ParameterFields {
    ParameterFields {
        name: d.name.clone(),
        description: d.description.clone(),
        required: d.required,
        format: match &d.format {
            openapiv3::ParameterSchemaOrContent::Schema(r) => ParameterSchemaOrContent::Schema(schema_ref_or(r)),
            openapiv3::ParameterSchemaOrContent::Content(_) => ParameterSchemaOrContent::Content,
        },
    }
}

#[verifier::external_body]
fn request_body_ref_or(r: &openapiv3::ReferenceOr<openapiv3::RequestBody>) -> RefOr<RequestBodyObject> {
    match r {
        openapiv3::ReferenceOr::Reference { reference } => RefOr::Reference(reference.clone()),
        openapiv3::ReferenceOr::Item(b) => RefOr::Item(RequestBodyObject {
            content: b.content.iter().map(|(k, m)| (k.clone(), MediaType { schema: m.schema.as_ref().map(schema_ref_or) })).collect(),
        }),
    }
}

#[verifier::external_body]
fn response_ref_or(r: &openapiv3::ReferenceOr<openapiv3::Response>) -> RefOr<ResponseObject> {
    match r {
        openapiv3::ReferenceOr::Reference { reference } => RefOr::Reference(reference.clone()),
        openapiv3::ReferenceOr::Item(b) => RefOr::Item(ResponseObject {
            content: b.content.iter().map(|(k, m)| (k.clone(), MediaType { schema: m.schema.as_ref().map(schema_ref_or) })).collect(),
        }),
    }
}

#[verifier::external_body]
fn schema_ref_or(r: &openapiv3::ReferenceOr<openapiv3::Schema>) -> RefOr<SchemaObject> {
    match r {
        openapiv3::ReferenceOr::Reference { reference } => RefOr::Reference(reference.clone()),
        openapiv3::ReferenceOr::Item(s) => RefOr::Item(schema_of(s)),
    }
}

/// A schema's kind, and the JSON that `serde_json::to_value` gives for it (`null` when it fails).
#[verifier::external_body]
fn schema_of(s: &openapiv3::Schema) -> SchemaObject {
    let kind = match &s.schema_kind {
        openapiv3::SchemaKind::Type(t) => SchemaKind::Type(schema_type_of(t)),
        openapiv3::SchemaKind::AllOf { all_of } => SchemaKind::AllOf(all_of.iter().map(schema_ref_or).collect()),
        _ => SchemaKind::Other,
    };
    SchemaObject { kind, json: from_serde(&serde_json::to_value(s).unwrap_or_default()) }
}

#[verifier::external_body]
fn schema_type_of(t: &openapiv3::Type) -> SchemaType {
    match t {
        openapiv3::Type::String(s) => SchemaType::String(StringType {
            format: string_format_of(&s.format),
            enumeration: s.enumeration.clone(),
        }),
        openapiv3::Type::Number(n) => SchemaType::Number(number_format_of(&n.format)),
        openapiv3::Type::Integer(i) => SchemaType::Integer(integer_format_of(&i.format)),
        openapiv3::Type::Object(_) => SchemaType::Object,
        openapiv3::Type::Array(_) => SchemaType::Array,
        openapiv3::Type::Boolean(_) => SchemaType::Boolean,
    }
}

#[verifier::external_body]
fn string_format_of(f: &openapiv3::VariantOrUnknownOrEmpty<openapiv3::StringFormat>) -> FormatOf<StringFormatName> {
    match f {
        openapiv3::VariantOrUnknownOrEmpty::Item(openapiv3::StringFormat::Date) => FormatOf::Item(StringFormatName::Date),
        openapiv3::VariantOrUnknownOrEmpty::Item(openapiv3::StringFormat::DateTime) => FormatOf::Item(StringFormatName::DateTime),
        openapiv3::VariantOrUnknownOrEmpty::Item(openapiv3::StringFormat::Password) => FormatOf::Item(StringFormatName::Password),
        openapiv3::VariantOrUnknownOrEmpty::Item(openapiv3::StringFormat::Byte) => FormatOf::Item(StringFormatName::Byte),
        openapiv3::VariantOrUnknownOrEmpty::Item(openapiv3::StringFormat::Binary) => FormatOf::Item(StringFormatName::Binary),
        openapiv3::VariantOrUnknownOrEmpty::Unknown(u) => FormatOf::Unknown(u.clone()),
        openapiv3::VariantOrUnknownOrEmpty::Empty => FormatOf::Empty,
    }
}

#[verifier::external_body]
fn number_format_of(f: &openapiv3::VariantOrUnknownOrEmpty<openapiv3::NumberFormat>) -> FormatOf<NumberFormatName> {
    match f {
        openapiv3::VariantOrUnknownOrEmpty::Item(openapiv3::NumberFormat::Float) => FormatOf::Item(NumberFormatName::Float),
        openapiv3::VariantOrUnknownOrEmpty::Item(openapiv3::NumberFormat::Double) => FormatOf::Item(NumberFormatName::Double),
        openapiv3::VariantOrUnknownOrEmpty::Unknown(u) => FormatOf::Unknown(u.clone()),
        openapiv3::VariantOrUnknownOrEmpty::Empty => FormatOf::Empty,
    }
}

#[verifier::external_body]
fn integer_format_of(f: &openapiv3::VariantOrUnknownOrEmpty<openapiv3::IntegerFormat>) -> FormatOf<IntegerFormatName> {
    match f {
        openapiv3::VariantOrUnknownOrEmpty::Item(openapiv3::IntegerFormat::Int32) => FormatOf::Item(IntegerFormatName::Int32),
        openapiv3::VariantOrUnknownOrEmpty::Item(openapiv3::IntegerFormat::Int64) => FormatOf::Item(IntegerFormatName::Int64),
        openapiv3::VariantOrUnknownOrEmpty::Unknown(u) => FormatOf::Unknown(u.clone()),
        openapiv3::VariantOrUnknownOrEmpty::Empty => FormatOf::Empty,
    }
}

} // verus!
