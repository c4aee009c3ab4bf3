use openapi2discovery::discovery::{DiscoveryDocument, DiscoveryMethod, DiscoveryResource};
use openapi2discovery::json::JsonValue;
use openapi2discovery::openapi::{
    ComponentsObject, FormatOf, Info, IntegerFormatName, MediaType, OpenApiSpec, OperationObject, ParameterObject, ParameterFields,
    ParameterSchemaOrContent, PathItemObject, RefOr, RequestBodyObject, ResponseObject, SchemaObject, SchemaKind, SchemaType,
    SecurityRequirement, Server, ResponseKey, StringFormatName, StringType,
};
use openapi2discovery::parser::{parse_description, parse_openapi, ParseError};
use openapi2discovery::resolver::RefResolver;
use openapi2discovery::transform::resource_tree::insert_method;
use openapi2discovery::transform::transform;

// ---------------------------------------------------------------------------
// Building descriptions
// ---------------------------------------------------------------------------

fn s(text: &str) -> JsonValue {
    JsonValue::Str(text.to_string())
}

fn obj(entries: Vec<(&str, JsonValue)>) -> JsonValue {
    JsonValue::Object(entries.into_iter().map(|(k, v)| (k.to_string(), v)).collect())
}

fn schema_ref(name: &str) -> RefOr<SchemaObject> {
    RefOr::Reference(format!("#/components/schemas/{name}"))
}

fn json_content(schema: RefOr<SchemaObject>) -> Vec<(String, MediaType)> {
    vec![("application/json".to_string(), MediaType { schema: Some(schema) })]
}

fn ok_response(code: u16, schema: RefOr<SchemaObject>) -> (ResponseKey, RefOr<ResponseObject>) {
    (ResponseKey::Code(code), RefOr::Item(ResponseObject { content: json_content(schema) }))
}

fn empty_response(code: u16) -> (ResponseKey, RefOr<ResponseObject>) {
    (ResponseKey::Code(code), RefOr::Item(ResponseObject { content: Vec::new() }))
}

fn string_schema() -> SchemaObject {
    SchemaObject {
        kind: SchemaKind::Type(SchemaType::String(StringType { format: FormatOf::Empty, enumeration: Vec::new() })),
        json: obj(vec![("type", s("string"))]),
    }
}

fn int32_schema() -> SchemaObject {
    SchemaObject {
        kind: SchemaKind::Type(SchemaType::Integer(FormatOf::Item(IntegerFormatName::Int32))),
        json: obj(vec![("type", s("integer")), ("format", s("int32"))]),
    }
}

fn data(name: &str, required: bool, schema: SchemaObject) -> ParameterFields {
    ParameterFields {
        name: name.to_string(),
        description: None,
        required,
        format: ParameterSchemaOrContent::Schema(RefOr::Item(schema)),
    }
}

fn path_param(name: &str) -> RefOr<ParameterObject> {
    RefOr::Item(ParameterObject::Path(data(name, true, string_schema())))
}

fn op(responses: Vec<(ResponseKey, RefOr<ResponseObject>)>) -> OperationObject {
    OperationObject { responses, ..OperationObject::default() }
}

fn item(entries: Vec<(&str, OperationObject)>) -> PathItemObject {
    let mut p = PathItemObject { get: None, put: None, post: None, delete: None, patch: None, parameters: Vec::new() };
    for (verb, o) in entries {
        match verb {
            "GET" => p.get = Some(o),
            "PUT" => p.put = Some(o),
            "POST" => p.post = Some(o),
            "DELETE" => p.delete = Some(o),
            "PATCH" => p.patch = Some(o),
            _ => panic!("unknown verb {verb}"),
        }
    }
    p
}

fn object_schema(json: JsonValue) -> RefOr<SchemaObject> {
    RefOr::Item(SchemaObject { kind: SchemaKind::Type(SchemaType::Object), json })
}

fn components(schemas: Vec<(&str, RefOr<SchemaObject>)>) -> ComponentsObject {
    ComponentsObject {
        schemas: schemas.into_iter().map(|(k, v)| (k.to_string(), v)).collect(),
        responses: Vec::new(),
        parameters: Vec::new(),
        request_bodies: Vec::new(),
    }
}

fn spec(title: &str, version: &str, paths: Vec<(&str, PathItemObject)>, comps: Option<ComponentsObject>) -> OpenApiSpec {
    OpenApiSpec {
        info: Info { title: title.to_string(), description: None, version: version.to_string() },
        servers: Vec::new(),
        paths: paths.into_iter().map(|(k, v)| (k.to_string(), RefOr::Item(v))).collect(),
        components: comps,
        security: None,
    }
}

/// The pet store: `/pets` (list, create) and `/pets/{petId}` (get, delete).
fn petstore() -> OpenApiSpec {
    let list = OperationObject {
        operation_id: Some("listPets".to_string()),
        summary: Some("List all pets".to_string()),
        parameters: vec![RefOr::Item(ParameterObject::Query(data("limit", false, int32_schema())))],
        responses: vec![ok_response(200, schema_ref("Pets"))],
        ..OperationObject::default()
    };
    let create = OperationObject {
        operation_id: Some("createPets".to_string()),
        request_body: Some(RefOr::Item(RequestBodyObject { content: json_content(schema_ref("Pet")) })),
        responses: vec![empty_response(201)],
        ..OperationObject::default()
    };
    let get = OperationObject {
        operation_id: Some("showPetById".to_string()),
        parameters: vec![path_param("petId")],
        responses: vec![ok_response(200, schema_ref("Pet"))],
        ..OperationObject::default()
    };
    let delete = OperationObject {
        operation_id: Some("deletePet".to_string()),
        parameters: vec![path_param("petId")],
        responses: vec![empty_response(204)],
        ..OperationObject::default()
    };
    let pet = object_schema(obj(vec![
        ("type", s("object")),
        ("required", JsonValue::Array(vec![s("id"), s("name")])),
        (
            "properties",
            obj(vec![
                ("id", obj(vec![("type", s("integer")), ("format", s("int64"))])),
                ("name", obj(vec![("type", s("string"))])),
                ("tag", obj(vec![("type", s("string"))])),
            ]),
        ),
    ]));
    let pets = RefOr::Item(SchemaObject {
        kind: SchemaKind::Type(SchemaType::Array),
        json: obj(vec![("type", s("array")), ("items", obj(vec![("$ref", s("#/components/schemas/Pet"))]))]),
    });
    let mut d = spec(
        "Petstore",
        "1.0.0",
        vec![
            ("/pets", item(vec![("GET", list), ("POST", create)])),
            ("/pets/{petId}", item(vec![("GET", get), ("DELETE", delete)])),
        ],
        Some(components(vec![("Pet", pet), ("Pets", pets)])),
    );
    d.servers.push(Server { url: "https://petstore.example.com/v1".to_string() });
    d
}

/// A blog: users, their posts, and the posts' comments.
fn blog() -> OpenApiSpec {
    let user = object_schema(obj(vec![
        ("type", s("object")),
        ("properties", obj(vec![("id", obj(vec![("type", s("string"))]))])),
    ]));
    let post = object_schema(obj(vec![
        ("type", s("object")),
        (
            "properties",
            obj(vec![
                ("title", obj(vec![("type", s("string"))])),
                ("author", obj(vec![("$ref", s("#/components/schemas/User"))])),
            ]),
        ),
    ]));
    let comment = object_schema(obj(vec![
        ("type", s("object")),
        ("properties", obj(vec![("body", obj(vec![("type", s("string"))]))])),
    ]));
    let body = |name: &str| Some(RefOr::Item(RequestBodyObject { content: json_content(schema_ref(name)) }));
    spec(
        "Blog API",
        "2.0.0",
        vec![
            ("/users", item(vec![("GET", op(vec![ok_response(200, schema_ref("User"))]))])),
            ("/users/{userId}", item(vec![("GET", op(vec![ok_response(200, schema_ref("User"))]))])),
            (
                "/users/{userId}/posts",
                item(vec![
                    ("GET", op(vec![ok_response(200, schema_ref("Post"))])),
                    ("POST", OperationObject { request_body: body("Post"), ..op(vec![ok_response(201, schema_ref("Post"))]) }),
                ]),
            ),
            (
                "/users/{userId}/posts/{postId}",
                item(vec![
                    ("GET", op(vec![ok_response(200, schema_ref("Post"))])),
                    ("PUT", OperationObject { request_body: body("Post"), ..op(vec![ok_response(200, schema_ref("Post"))]) }),
                    ("DELETE", op(vec![empty_response(204)])),
                ]),
            ),
            (
                "/users/{userId}/posts/{postId}/comments",
                item(vec![
                    ("GET", op(vec![ok_response(200, schema_ref("Comment"))])),
                    ("POST", OperationObject { request_body: body("Comment"), ..op(vec![empty_response(201)]) }),
                ]),
            ),
            (
                "/users/{userId}/posts/{postId}/comments/{commentId}",
                item(vec![
                    ("GET", op(vec![ok_response(200, schema_ref("Comment"))])),
                    ("DELETE", op(vec![empty_response(204)])),
                ]),
            ),
        ],
        Some(components(vec![("User", user), ("Post", post), ("Comment", comment)])),
    )
}

fn load_petstore() -> DiscoveryDocument {
    transform(&petstore(), None, None)
}

fn load_blog() -> DiscoveryDocument {
    transform(&blog(), None, None)
}

fn res<'a>(doc: &'a DiscoveryDocument, name: &str) -> &'a DiscoveryResource {
    doc.resource(name).unwrap_or_else(|| panic!("missing {name} resource"))
}

fn sub<'a>(r: &'a DiscoveryResource, name: &str) -> &'a DiscoveryResource {
    r.resource(name).unwrap_or_else(|| panic!("missing {name} resource"))
}

fn meth<'a>(r: &'a DiscoveryResource, name: &str) -> &'a DiscoveryMethod {
    r.method(name).unwrap_or_else(|| panic!("missing {name}"))
}

fn text_at<'a>(v: &'a JsonValue, path: &[&str]) -> Option<&'a str> {
    let mut cur = v;
    for key in path {
        cur = cur.get(key)?;
    }
    cur.as_str()
}

// ---------------------------------------------------------------------------
// The pet store
// ---------------------------------------------------------------------------

#[test]
fn top_level_fields() {
    let doc = load_petstore();
    assert_eq!(doc.kind, "discovery#restDescription");
    assert_eq!(doc.discovery_version, "v1");
    assert_eq!(doc.name, "petstore");
    assert_eq!(doc.version, "1.0.0");
    assert_eq!(doc.title, "Petstore");
    assert_eq!(doc.protocol, "rest");
    assert_eq!(doc.root_url, "https://petstore.example.com/v1");
}

#[test]
fn resource_methods() {
    let doc = load_petstore();
    let pets = res(&doc, "pets");

    let list = meth(pets, "list");
    assert_eq!(list.http_method, "GET");
    assert_eq!(list.path, "pets");
    assert!(list.has_parameter("limit"));
    assert_eq!(list.parameter("limit").unwrap().location, "query");
    assert!(!list.parameter("limit").unwrap().required);

    let create = meth(pets, "create");
    assert_eq!(create.http_method, "POST");
    assert!(create.request.is_some());
    assert_eq!(create.request.as_ref().unwrap().ref_name, "Pet");

    let get = meth(pets, "get");
    assert_eq!(get.http_method, "GET");
    assert_eq!(get.path, "pets/{petId}");
    assert_eq!(get.parameter_order, vec!["petId"]);
    assert!(get.response.is_some());
    assert_eq!(get.response.as_ref().unwrap().ref_name, "Pet");

    let delete = meth(pets, "delete");
    assert_eq!(delete.http_method, "DELETE");
}

#[test]
fn schemas_lifted() {
    let doc = load_petstore();
    assert!(doc.schema("Pet").is_some());
    assert!(doc.schema("Pets").is_some());

    let pets_schema = doc.schema("Pets").unwrap();
    assert_eq!(text_at(pets_schema, &["items", "$ref"]), Some("Pet"));
}

#[test]
fn multiple_verbs_same_path() {
    let doc = load_petstore();
    let pets = res(&doc, "pets");
    assert!(pets.has_method("list"));
    assert!(pets.has_method("create"));
    assert!(pets.has_method("get"));
    assert!(pets.has_method("delete"));
}

#[test]
fn round_trip_has_enough_info_for_http_request() {
    let doc = load_petstore();
    let get = meth(res(&doc, "pets"), "get");

    assert!(!get.http_method.is_empty());
    assert!(!get.path.is_empty());
    assert!(!get.parameter_order.is_empty());
    for param_name in &get.parameter_order {
        assert!(get.has_parameter(param_name));
        assert_eq!(get.parameter(param_name).unwrap().location, "path");
    }
}

// ---------------------------------------------------------------------------
// Nested resources
// ---------------------------------------------------------------------------

#[test]
fn three_levels() {
    let doc = load_blog();

    let users = res(&doc, "users");
    assert!(users.has_method("list"));
    assert!(users.has_method("get"));

    let posts = sub(users, "posts");
    assert!(posts.has_method("list"));
    assert!(posts.has_method("create"));
    assert!(posts.has_method("get"));
    assert!(posts.has_method("update"));

    let comments = sub(posts, "comments");
    assert!(comments.has_method("list"));
    assert!(comments.has_method("get"));
    assert!(comments.has_method("delete"));
}

#[test]
fn method_ids_are_dotted() {
    let doc = load_blog();
    let get_comment = meth(sub(sub(res(&doc, "users"), "posts"), "comments"), "get");
    assert_eq!(get_comment.id, "blog-api.users.posts.comments.get");
}

#[test]
fn parameter_order_follows_url() {
    let doc = load_blog();
    let delete_comment = meth(sub(sub(res(&doc, "users"), "posts"), "comments"), "delete");
    assert_eq!(delete_comment.parameter_order, vec!["userId", "postId", "commentId"]);
}

#[test]
fn schema_refs_simplified() {
    let doc = load_blog();
    let post = doc.schema("Post").expect("missing Post");
    assert_eq!(text_at(post, &["properties", "author", "$ref"]), Some("User"));
}

// ---------------------------------------------------------------------------
// Edge cases
// ---------------------------------------------------------------------------

#[test]
fn empty_spec_no_panic() {
    let json = r#"{
        "openapi": "3.0.3",
        "info": { "title": "Empty", "version": "0" },
        "paths": {}
    }"#;
    let spec = parse_openapi(json).unwrap();
    let doc = transform(&spec, None, None);
    assert!(doc.resources.is_empty());
    assert!(doc.schemas.is_empty());
}

#[test]
fn name_and_version_overrides() {
    let json = r#"{
        "openapi": "3.0.3",
        "info": { "title": "Original", "version": "1.0" },
        "paths": {}
    }"#;
    let spec = parse_openapi(json).unwrap();
    let doc = transform(&spec, Some("custom-name"), Some("v42"));
    assert_eq!(doc.name, "custom-name");
    assert_eq!(doc.version, "v42");
    assert_eq!(doc.title, "Original");
}

#[test]
fn description_text_is_parsed_and_converted() {
    let json = r##"{
        "openapi": "3.0.3",
        "info": { "title": "Pet Shop", "version": "2.1" },
        "servers": [{ "url": "https://shop.example.com" }],
        "paths": {
            "/pets/{petId}": {
                "get": {
                    "parameters": [
                        { "name": "petId", "in": "path", "required": true, "schema": { "type": "integer", "format": "int64" } }
                    ],
                    "responses": {
                        "200": { "description": "ok", "content": { "application/json": { "schema": { "$ref": "#/components/schemas/Pet" } } } }
                    }
                }
            }
        },
        "components": {
            "schemas": {
                "Pet": {
                    "type": "object",
                    "required": ["name"],
                    "properties": {
                        "name": { "type": "string" },
                        "tag": { "type": ["string", "null"] }
                    }
                }
            }
        }
    }"##;
    let spec = parse_openapi(json).expect("a 3.1 type-array is accepted after the downgrade");
    let doc = transform(&spec, None, None);
    assert_eq!(doc.name, "pet-shop");
    assert_eq!(doc.root_url, "https://shop.example.com");
    let get = meth(res(&doc, "pets"), "get");
    assert_eq!(get.parameter("petId").unwrap().param_type, "integer");
    assert_eq!(get.parameter("petId").unwrap().format.as_deref(), Some("int64"));
    assert_eq!(get.response.as_ref().unwrap().ref_name, "Pet");
    let pet = doc.schema("Pet").unwrap();
    assert_eq!(text_at(pet, &["id"]), Some("Pet"));
    assert!(pet.get("required").is_none());
    assert_eq!(text_at(pet, &["properties", "tag", "type"]), Some("string"));
    assert!(pet.get("properties").and_then(|p| p.get("tag")).and_then(|t| t.get("nullable")).is_none());
}

#[test]
fn unreadable_descriptions_are_rejected() {
    assert!(matches!(parse_openapi("{ not json"), Err(ParseError::Json(_))));
    assert!(matches!(parse_openapi("[1, 2, 3]"), Err(ParseError::Model(_))));
    assert!(matches!(parse_openapi(r#"{"openapi": "3.0.3", "paths": {}}"#), Err(ParseError::Model(_))));
}

#[test]
fn parse_description_downgrades_type_arrays() {
    let v = parse_description(r#"{"type": ["null", "integer"], "n": 1.5}"#).unwrap();
    assert_eq!(text_at(&v, &["type"]), Some("integer"));
    assert!(matches!(v.get("nullable"), Some(JsonValue::Bool(true))));
    assert!(matches!(v.get("n"), Some(JsonValue::Number(n)) if n == "1.5"));
    assert!(parse_description("nope").is_err());
}

// ---------------------------------------------------------------------------
// Further behaviour
// ---------------------------------------------------------------------------

#[test]
fn document_id_joins_name_and_version() {
    assert_eq!(load_petstore().id, "petstore:1.0.0");
    let d = spec("Service Title", "1.0", Vec::new(), None);
    assert_eq!(transform(&d, Some("svc"), None).id, "svc:1.0");
    assert_eq!(transform(&d, None, Some("v3")).id, "service-title:v3");
    assert_eq!(load_blog().name, "blog-api");
}

#[test]
fn no_servers_gives_empty_root_url() {
    let doc = load_blog();
    assert_eq!(doc.root_url, "");
    assert_eq!(doc.service_path, "");
    assert!(doc.description.is_none());
}

#[test]
fn lifted_object_schemas_carry_their_name() {
    let doc = load_petstore();
    assert_eq!(text_at(doc.schema("Pet").unwrap(), &["id"]), Some("Pet"));
    assert_eq!(text_at(doc.schema("Pets").unwrap(), &["id"]), Some("Pets"));
    assert!(doc.schema("Pet").unwrap().get("required").is_none());
    assert!(doc.schema("Missing").is_none());
    assert_eq!(doc.schemas.len(), 2);
}

#[test]
fn referenced_component_schema_is_lifted_as_ref() {
    let d = spec("Refs", "1", Vec::new(), Some(components(vec![("Alias", schema_ref("Pet"))])));
    let doc = transform(&d, None, None);
    let alias = doc.schema("Alias").expect("alias lifted");
    assert_eq!(text_at(alias, &["$ref"]), Some("Pet"));
    assert_eq!(text_at(alias, &["id"]), Some("Alias"));
}

#[test]
fn method_fields_come_from_operation() {
    let doc = load_petstore();
    let list = meth(res(&doc, "pets"), "list");
    assert_eq!(list.id, "petstore.pets.list");
    assert_eq!(list.description.as_deref(), Some("List all pets"));
    assert_eq!(list.response.as_ref().unwrap().ref_name, "Pets");
    assert!(list.parameter_order.is_empty());
    let limit = list.parameter("limit").unwrap();
    assert_eq!(limit.param_type, "integer");
    assert_eq!(limit.format.as_deref(), Some("int32"));
    assert!(limit.default.is_none());

    let create = meth(res(&doc, "pets"), "create");
    assert!(create.response.is_none());
    assert!(create.scopes.is_empty());
}

#[test]
fn undeclared_placeholders_get_path_parameters() {
    let doc = load_blog();
    let delete_comment = meth(sub(sub(res(&doc, "users"), "posts"), "comments"), "delete");
    for name in ["userId", "postId", "commentId"] {
        let p = delete_comment.parameter(name).expect("placeholder declared");
        assert_eq!(p.location, "path");
        assert_eq!(p.param_type, "string");
        assert!(p.required);
    }
    assert_eq!(delete_comment.path, "users/{userId}/posts/{postId}/comments/{commentId}");
}

#[test]
fn operation_parameters_override_path_item_ones() {
    let mut shared = item(vec![(
        "GET",
        OperationObject {
            parameters: vec![RefOr::Item(ParameterObject::Path(ParameterFields {
                description: Some("from the operation".to_string()),
                ..data("id", true, int32_schema())
            }))],
            ..OperationObject::default()
        },
    )]);
    shared.parameters.push(RefOr::Item(ParameterObject::Path(ParameterFields {
        description: Some("from the path".to_string()),
        ..data("id", true, string_schema())
    })));
    shared.parameters.push(RefOr::Item(ParameterObject::Header(data("X-Trace", false, string_schema()))));
    shared.parameters.push(RefOr::Item(ParameterObject::Cookie(data("session", false, string_schema()))));
    let d = spec("Things", "1", vec![("/things/{id}", shared)], None);
    let doc = transform(&d, None, None);
    let get = meth(res(&doc, "things"), "get");
    let id = get.parameter("id").unwrap();
    assert_eq!(id.description.as_deref(), Some("from the operation"));
    assert_eq!(id.param_type, "integer");
    assert!(!get.has_parameter("X-Trace"));
    assert!(!get.has_parameter("session"));
    assert_eq!(get.parameters.len(), 1);
}

#[test]
fn referenced_parameters_are_resolved() {
    let mut comps = components(Vec::new());
    comps.parameters.push(("Limit".to_string(), RefOr::Item(ParameterObject::Query(data("limit", false, int32_schema())))));
    let list = OperationObject {
        parameters: vec![
            RefOr::Reference("#/components/parameters/Limit".to_string()),
            RefOr::Reference("#/components/parameters/Missing".to_string()),
        ],
        ..OperationObject::default()
    };
    let d = spec("Things", "1", vec![("/things", item(vec![("GET", list)]))], Some(comps));
    let doc = transform(&d, None, None);
    let list = meth(res(&doc, "things"), "list");
    assert!(list.has_parameter("limit"));
    assert_eq!(list.parameters.len(), 1);

    let resolver = RefResolver::new(&d);
    let limit_ref = RefOr::Reference("#/components/parameters/Limit".to_string());
    let found = resolver.resolve_parameter(&limit_ref);
    assert!(matches!(found, Some(ParameterObject::Query(p)) if p.name == "limit"));
    assert!(resolver.resolve_parameter(&RefOr::Reference("Missing".to_string())).is_none());
}

#[test]
fn string_parameter_formats_and_enums() {
    let status = SchemaObject {
        kind: SchemaKind::Type(SchemaType::String(StringType {
            format: FormatOf::Item(StringFormatName::DateTime),
            enumeration: vec![Some("open".to_string()), None, Some("closed".to_string())],
        })),
        json: obj(vec![("type", s("string"))]),
    };
    let custom = SchemaObject {
        kind: SchemaKind::Type(SchemaType::String(StringType {
            format: FormatOf::Unknown("uuid".to_string()),
            enumeration: Vec::new(),
        })),
        json: obj(vec![("type", s("string"))]),
    };
    let list = OperationObject {
        parameters: vec![
            RefOr::Item(ParameterObject::Query(data("since", false, status))),
            RefOr::Item(ParameterObject::Query(data("owner", false, custom))),
            RefOr::Item(ParameterObject::Query(ParameterFields {
                format: ParameterSchemaOrContent::Content,
                ..data("filter", false, string_schema())
            })),
            RefOr::Item(ParameterObject::Query(data("flag", false, SchemaObject { kind: SchemaKind::Type(SchemaType::Boolean), json: obj(vec![]) }))),
            RefOr::Item(ParameterObject::Query(data("any", false, SchemaObject { kind: SchemaKind::Other, json: obj(vec![]) }))),
        ],
        ..OperationObject::default()
    };
    let d = spec("Things", "1", vec![("/things", item(vec![("GET", list)]))], None);
    let doc = transform(&d, None, None);
    let list = meth(res(&doc, "things"), "list");
    let since = list.parameter("since").unwrap();
    assert_eq!(since.format.as_deref(), Some("datetime"));
    assert_eq!(since.enum_values.as_ref().unwrap(), &vec!["open".to_string(), "closed".to_string()]);
    let owner = list.parameter("owner").unwrap();
    assert_eq!(owner.format.as_deref(), Some("uuid"));
    assert!(owner.enum_values.is_none());
    let filter = list.parameter("filter").unwrap();
    assert_eq!(filter.param_type, "string");
    assert!(filter.format.is_none());
    assert_eq!(list.parameter("flag").unwrap().param_type, "boolean");
    assert_eq!(list.parameter("any").unwrap().param_type, "string");
}

#[test]
fn responses_prefer_200_then_201() {
    let both = op(vec![ok_response(201, schema_ref("Created")), ok_response(200, schema_ref("Ok"))]);
    let created = op(vec![ok_response(202, schema_ref("Accepted")), ok_response(201, schema_ref("Created"))]);
    let range = OperationObject {
        responses: vec![(ResponseKey::Range(2), RefOr::Item(ResponseObject { content: json_content(schema_ref("Any")) }))],
        ..OperationObject::default()
    };
    let d = spec(
        "Things",
        "1",
        vec![("/a", item(vec![("GET", both)])), ("/b", item(vec![("GET", created)])), ("/c", item(vec![("GET", range)]))],
        None,
    );
    let doc = transform(&d, None, None);
    assert_eq!(meth(res(&doc, "a"), "list").response.as_ref().unwrap().ref_name, "Ok");
    assert_eq!(meth(res(&doc, "b"), "list").response.as_ref().unwrap().ref_name, "Created");
    assert!(meth(res(&doc, "c"), "list").response.is_none());
}

#[test]
fn request_schema_through_single_all_of() {
    let wrapped = RefOr::Item(SchemaObject { kind: SchemaKind::AllOf(vec![schema_ref("Pet")]), json: obj(vec![]) });
    let inline = object_schema(obj(vec![("type", s("object"))]));
    let post_wrapped = OperationObject {
        request_body: Some(RefOr::Item(RequestBodyObject { content: json_content(wrapped) })),
        ..OperationObject::default()
    };
    let post_inline = OperationObject {
        request_body: Some(RefOr::Item(RequestBodyObject { content: json_content(inline) })),
        ..OperationObject::default()
    };
    let post_xml = OperationObject {
        request_body: Some(RefOr::Item(RequestBodyObject {
            content: vec![("application/xml".to_string(), MediaType { schema: Some(schema_ref("Pet")) })],
        })),
        ..OperationObject::default()
    };
    let d = spec(
        "Things",
        "1",
        vec![
            ("/a", item(vec![("POST", post_wrapped)])),
            ("/b", item(vec![("POST", post_inline)])),
            ("/c", item(vec![("POST", post_xml)])),
        ],
        None,
    );
    let doc = transform(&d, None, None);
    assert_eq!(meth(res(&doc, "a"), "create").request.as_ref().unwrap().ref_name, "Pet");
    assert!(meth(res(&doc, "b"), "create").request.is_none());
    assert!(meth(res(&doc, "c"), "create").request.is_none());
}

#[test]
fn scopes_come_from_operation_or_document() {
    let req = |pairs: Vec<(&str, Vec<&str>)>| SecurityRequirement {
        schemes: pairs
            .into_iter()
            .map(|(k, v)| (k.to_string(), v.into_iter().map(|x| x.to_string()).collect()))
            .collect(),
    };
    let own = OperationObject { security: Some(vec![req(vec![("oauth", vec!["write", "admin"])])]), ..OperationObject::default() };
    let inherited = OperationObject::default();
    let none = OperationObject { security: Some(Vec::new()), ..OperationObject::default() };
    let mut d = spec(
        "Things",
        "1",
        vec![("/a", item(vec![("GET", own)])), ("/b", item(vec![("GET", inherited)])), ("/c", item(vec![("GET", none)]))],
        None,
    );
    d.security = Some(vec![req(vec![("oauth", vec!["read"]), ("key", Vec::new())]), req(vec![("other", vec!["extra"])])]);
    let doc = transform(&d, None, None);
    assert_eq!(meth(res(&doc, "a"), "list").scopes, vec!["write", "admin"]);
    assert_eq!(meth(res(&doc, "b"), "list").scopes, vec!["read", "extra"]);
    assert!(meth(res(&doc, "c"), "list").scopes.is_empty());
}

#[test]
fn paths_without_literals_and_references_are_skipped() {
    let mut d = spec(
        "Things",
        "1",
        vec![("/{id}", item(vec![("GET", OperationObject::default())])), ("/", item(vec![("GET", OperationObject::default())]))],
        None,
    );
    d.paths.push(("/refs".to_string(), RefOr::Reference("#/paths/other".to_string())));
    let doc = transform(&d, None, None);
    assert!(doc.resources.is_empty());
}

#[test]
fn non_standard_verb_shapes_use_operation_ids() {
    let upload = OperationObject { operation_id: Some("uploadImage".to_string()), ..OperationObject::default() };
    let d = spec(
        "Things",
        "1",
        vec![("/pets/{petId}/image", item(vec![("PATCH", upload), ("PUT", OperationObject::default())]))],
        None,
    );
    let doc = transform(&d, None, None);
    let image = sub(res(&doc, "pets"), "image");
    assert!(image.has_method("uploadImage"));
    assert!(image.has_method("put"));
    assert_eq!(meth(image, "uploadImage").id, "things.pets.image.uploadImage");
    assert_eq!(meth(image, "uploadImage").parameter_order, vec!["petId"]);
    assert!(res(&doc, "pets").methods.is_empty());
}

#[test]
fn later_path_replaces_method_of_same_name() {
    let first = OperationObject { description: Some("first".to_string()), ..OperationObject::default() };
    let second = OperationObject { description: Some("second".to_string()), ..OperationObject::default() };
    let d = spec(
        "Things",
        "1",
        vec![("/things", item(vec![("GET", first)])), ("/things/", item(vec![("GET", second)]))],
        None,
    );
    let doc = transform(&d, None, None);
    let things = res(&doc, "things");
    assert_eq!(things.methods.len(), 1);
    assert_eq!(meth(things, "list").description.as_deref(), Some("second"));
    assert_eq!(meth(things, "list").path, "things/");
}

fn bare_method(id: &str) -> DiscoveryMethod {
    DiscoveryMethod {
        id: id.to_string(),
        http_method: "GET".to_string(),
        path: String::new(),
        description: None,
        parameters: Vec::new(),
        parameter_order: Vec::new(),
        request: None,
        response: None,
        scopes: Vec::new(),
    }
}

#[test]
fn placed_methods_are_found_and_others_kept() {
    let mut tree: Vec<(String, DiscoveryResource)> = Vec::new();
    let ab = vec!["a".to_string(), "b".to_string()];
    let a = vec!["a".to_string()];
    insert_method(&mut tree, &ab, "get", bare_method("first"));
    insert_method(&mut tree, &a, "list", bare_method("second"));
    insert_method(&mut tree, &ab, "get", bare_method("third"));
    insert_method(&mut tree, &[], "ignored", bare_method("none"));
    assert_eq!(tree.len(), 1);
    let ra = &tree[0].1;
    assert_eq!(tree[0].0, "a");
    assert_eq!(ra.method("list").unwrap().id, "second");
    let rb = ra.resource("b").unwrap();
    assert_eq!(rb.method("get").unwrap().id, "third");
    assert_eq!(rb.methods.len(), 1);
    assert!(rb.method("ignored").is_none());
    assert!(ra.method("ignored").is_none());
}

#[test]
fn schema_references_resolve_to_items_only() {
    let mut comps = components(vec![("Pet", object_schema(obj(vec![("type", s("object"))]))), ("Alias", schema_ref("Pet"))]);
    comps.request_bodies.push(("Body".to_string(), RefOr::Item(RequestBodyObject { content: json_content(schema_ref("Pet")) })));
    let d = spec("Refs", "1", Vec::new(), Some(comps));
    let resolver = RefResolver::new(&d);
    let pet_ref = schema_ref("Pet");
    let alias_ref = schema_ref("Alias");
    let inline = object_schema(obj(vec![]));
    assert!(matches!(resolver.resolve_schema(&pet_ref), Some(SchemaObject { kind: SchemaKind::Type(SchemaType::Object), .. })));
    assert!(resolver.resolve_schema(&alias_ref).is_none());
    assert!(resolver.resolve_schema(&inline).is_some());
    let body_ref = RefOr::Reference("#/components/requestBodies/Body".to_string());
    assert_eq!(resolver.resolve_request_body(&body_ref).unwrap().content.len(), 1);
    let missing = RefOr::Reference("#/components/responses/Body".to_string());
    assert!(resolver.resolve_response(&missing).is_none());
}

fn check_tree(service: &str, chain: &mut Vec<String>, resources: &[(String, DiscoveryResource)]) {
    for (name, r) in resources {
        chain.push(name.clone());
        assert!(has_method_below(r), "resource {name} has no method below it");
        for (k, m) in &r.methods {
            assert_eq!(m.id, format!("{service}.{}.{k}", chain.join(".")));
            let segs = openapi2discovery::tree::parse_segments(&m.path);
            assert_eq!(openapi2discovery::tree::resource_chain(&segs), *chain);
        }
        check_tree(service, chain, &r.resources);
        chain.pop();
    }
}

fn has_method_below(r: &DiscoveryResource) -> bool {
    !r.methods.is_empty() || r.resources.iter().any(|(_, x)| has_method_below(x))
}

#[test]
fn every_method_sits_where_its_id_and_path_say() {
    for (doc, service) in [(load_petstore(), "petstore"), (load_blog(), "blog-api")] {
        check_tree(service, &mut Vec::new(), &doc.resources);
    }
}
