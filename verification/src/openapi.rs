//! The parts of an OpenAPI 3.0 description that the conversion reads.
//!
//! Each type holds, as plain values, what the conversion needs from the
//! corresponding OpenAPI object; maps keep their entries in document order.

use vstd::prelude::*;
use crate::json::JsonValue;

verus! {

/// Either a `$ref` pointer or an inline item.
#[derive(Debug)]
pub enum RefOr<T> {
    Reference(String),
    Item(T),
}

/// The `info` object.
#[derive(Debug)]
pub struct Info {
    pub title: String,
    pub description: Option<String>,
    pub version: String,
}

/// A `servers` entry.
#[derive(Debug)]
pub struct Server {
    pub url: String,
}

/// A `format` value: a known format, an unknown one kept as text, or none.
#[derive(Debug)]
pub enum FormatOf<T> {
    Item(T),
    Unknown(String),
    Empty,
}

/// Known formats of string schemas.
#[derive(Debug)]
pub enum StringFormatName {
    Date,
    DateTime,
    Password,
    Byte,
    Binary,
}

/// Known formats of number schemas.
#[derive(Debug)]
pub enum NumberFormatName {
    Float,
    Double,
}

/// Known formats of integer schemas.
#[derive(Debug)]
pub enum IntegerFormatName {
    Int32,
    Int64,
}

/// A `type: string` schema.
#[derive(Debug)]
pub struct StringType {
    pub format: FormatOf<StringFormatName>,
    /// The `enum` values; `None` stands for a `null` entry.
    pub enumeration: Vec<Option<String>>,
}

/// A schema that declares a `type`.
#[derive(Debug)]
pub enum SchemaType {
    String(StringType),
    Number(FormatOf<NumberFormatName>),
    Integer(FormatOf<IntegerFormatName>),
    Object,
    Array,
    Boolean,
}

/// What kind of schema this is.
#[derive(Debug)]
pub enum SchemaKind {
    Type(SchemaType),
    AllOf(Vec<RefOr<SchemaObject>>),
    /// `oneOf`, `anyOf`, `not`, or a schema without a recognised shape.
    Other,
}

/// A schema object: its kind, and its full JSON form as the OpenAPI model serializes it.
#[derive(Debug)]
pub struct SchemaObject {
    pub kind: SchemaKind,
    pub json: JsonValue,
}

/// A media type entry of a `content` map.
#[derive(Debug)]
pub struct MediaType {
    pub schema: Option<RefOr<SchemaObject>>,
}

/// A request body.
#[derive(Debug)]
pub struct RequestBodyObject {
    pub content: Vec<(String, MediaType)>,
}

/// A response.
#[derive(Debug)]
pub struct ResponseObject {
    pub content: Vec<(String, MediaType)>,
}

/// A key of the `responses` map: an exact code or a range such as `2XX`.
#[derive(Debug, Clone, Copy, PartialEq, Eq)]
pub enum ResponseKey {
    Code(u16),
    Range(u16),
}

/// How a parameter describes its value.
#[derive(Debug)]
pub enum ParameterSchemaOrContent {
    Schema(RefOr<SchemaObject>),
    Content,
}

/// The fields common to every parameter location.
#[derive(Debug)]
pub struct ParameterFields {
    pub name: String,
    pub description: Option<String>,
    pub required: bool,
    pub format: ParameterSchemaOrContent,
}

/// A parameter, by location.
#[derive(Debug)]
pub enum ParameterObject {
    Query(ParameterFields),
    Header(ParameterFields),
    Path(ParameterFields),
    Cookie(ParameterFields),
}

/// A security requirement: scheme names with their scopes, in document order.
#[derive(Debug)]
pub struct SecurityRequirement {
    pub schemes: Vec<(String, Vec<String>)>,
}

/// An operation.
#[derive(Debug)]
pub struct OperationObject {
    pub summary: Option<String>,
    pub description: Option<String>,
    pub operation_id: Option<String>,
    pub parameters: Vec<RefOr<ParameterObject>>,
    pub request_body: Option<RefOr<RequestBodyObject>>,
    pub responses: Vec<(ResponseKey, RefOr<ResponseObject>)>,
    pub security: Option<Vec<SecurityRequirement>>,
}

impl Default for OperationObject {
    fn default() -> (r: Self)
        ensures
            r.summary is None,
            r.description is None,
            r.operation_id is None,
            r.parameters@.len() == 0,
            r.request_body is None,
            r.responses@.len() == 0,
            r.security is None,
    {
        OperationObject {
            summary: None,
            description: None,
            operation_id: None,
            parameters: Vec::new(),
            request_body: None,
            responses: Vec::new(),
            security: None,
        }
    }
}

/// A path item.
#[derive(Debug)]
pub struct PathItemObject {
    pub get: Option<OperationObject>,
    pub put: Option<OperationObject>,
    pub post: Option<OperationObject>,
    pub delete: Option<OperationObject>,
    pub patch: Option<OperationObject>,
    pub parameters: Vec<RefOr<ParameterObject>>,
}

/// The reusable components.
#[derive(Debug)]
pub struct ComponentsObject {
    pub schemas: Vec<(String, RefOr<SchemaObject>)>,
    pub responses: Vec<(String, RefOr<ResponseObject>)>,
    pub parameters: Vec<(String, RefOr<ParameterObject>)>,
    pub request_bodies: Vec<(String, RefOr<RequestBodyObject>)>,
}

/// An OpenAPI description.
#[derive(Debug)]
pub struct OpenApiSpec {
    pub info: Info,
    pub servers: Vec<Server>,
    pub paths: Vec<(String, RefOr<PathItemObject>)>,
    pub components: Option<ComponentsObject>,
    pub security: Option<Vec<SecurityRequirement>>,
}

} // verus!
