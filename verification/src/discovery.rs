//! The Discovery document produced by the conversion, and its mathematical content.

use vstd::prelude::*;
use crate::assoc::{assoc_get, assoc_lookup, assoc_view};
use crate::json::{Json, JsonValue};
use crate::text::views;

verus! {

/// The text of an optional string.
pub open spec fn opt_view(o: Option<String>) -> Option<Seq<char>> {
    match o {
        Some(s) => Some(s@),
        None => None,
    }
}

/// A pointer to a schema by name.
#[derive(Debug, Clone)]
pub struct SchemaRef {
    pub ref_name: String,
}

impl View for SchemaRef {
    type V = Seq<char>;

    open spec fn view(&self) -> Seq<char> {
        self.ref_name@
    }
}

/// The name an optional schema pointer points to.
pub open spec fn schema_ref_view(o: Option<SchemaRef>) -> Option<Seq<char>> {
    match o {
        Some(r) => Some(r@),
        None => None,
    }
}

/// A method parameter.
#[derive(Debug, Clone)]
pub struct DiscoveryParameter {
    pub param_type: String,
    pub required: bool,
    pub location: String,
    pub description: Option<String>,
    pub format: Option<String>,
    pub enum_values: Option<Vec<String>>,
    pub default: Option<String>,
}

/// The content of a [`DiscoveryParameter`].
pub struct ParameterView {
    pub param_type: Seq<char>,
    pub required: bool,
    pub location: Seq<char>,
    pub description: Option<Seq<char>>,
    pub format: Option<Seq<char>>,
    pub enum_values: Option<Seq<Seq<char>>>,
    pub default: Option<Seq<char>>,
}

impl View for DiscoveryParameter {
    type V = ParameterView;

    open spec fn view(&self) -> ParameterView {
        ParameterView {
            param_type: self.param_type@,
            required: self.required,
            location: self.location@,
            description: opt_view(self.description),
            format: opt_view(self.format),
            enum_values: match self.enum_values {
                Some(v) => Some(views(v@)),
                None => None,
            },
            default: opt_view(self.default),
        }
    }
}

/// A method of a resource.
#[derive(Debug, Clone)]
pub struct DiscoveryMethod {
    pub id: String,
    pub http_method: String,
    pub path: String,
    pub description: Option<String>,
    pub parameters: Vec<(String, DiscoveryParameter)>,
    pub parameter_order: Vec<String>,
    pub request: Option<SchemaRef>,
    pub response: Option<SchemaRef>,
    pub scopes: Vec<String>,
}

/// The content of a [`DiscoveryMethod`].
pub struct MethodView {
    pub id: Seq<char>,
    pub http_method: Seq<char>,
    pub path: Seq<char>,
    pub description: Option<Seq<char>>,
    pub parameters: Seq<(Seq<char>, ParameterView)>,
    pub parameter_order: Seq<Seq<char>>,
    pub request: Option<Seq<char>>,
    pub response: Option<Seq<char>>,
    pub scopes: Seq<Seq<char>>,
}

impl View for DiscoveryMethod {
    type V = MethodView;

    open spec fn view(&self) -> MethodView {
        MethodView {
            id: self.id@,
            http_method: self.http_method@,
            path: self.path@,
            description: opt_view(self.description),
            parameters: assoc_view(self.parameters@),
            parameter_order: views(self.parameter_order@),
            request: schema_ref_view(self.request),
            response: schema_ref_view(self.response),
            scopes: views(self.scopes@),
        }
    }
}

/// A resource: its methods and its nested resources.
#[derive(Debug)]
pub struct DiscoveryResource {
    pub methods: Vec<(String, DiscoveryMethod)>,
    pub resources: Vec<(String, DiscoveryResource)>,
}

/// The content of a [`DiscoveryResource`].
pub struct ResourceView {
    pub methods: Seq<(Seq<char>, MethodView)>,
    pub resources: Seq<(Seq<char>, ResourceView)>,
}

/// A resource with no methods and no nested resources.
pub open spec fn empty_resource() -> ResourceView {
    ResourceView { methods: Seq::empty(), resources: Seq::empty() }
}

pub open spec fn resource_view(r: DiscoveryResource) -> ResourceView
    decreases r,
{
    ResourceView {
        methods: assoc_view(r.methods@),
        resources: Seq::new(
            r.resources.len() as nat,
            |i: int|
                if 0 <= i < r.resources.len() {
                    (r.resources@[i].0@, resource_view(r.resources@[i].1))
                } else {
                    (Seq::empty(), empty_resource())
                },
        ),
    }
}

impl View for DiscoveryResource {
    type V = ResourceView;

    open spec fn view(&self) -> ResourceView {
        resource_view(*self)
    }
}

pub proof fn lemma_resource_view(r: DiscoveryResource)
    ensures
        r@ == (ResourceView { methods: assoc_view(r.methods@), resources: assoc_view(r.resources@) }),
{
    assert(r@.resources =~= assoc_view(r.resources@));
}

impl Default for DiscoveryResource {
    fn default() -> (r: Self)
        ensures
            r@ == empty_resource(),
    {
        let r = DiscoveryResource { methods: Vec::new(), resources: Vec::new() };
        proof {
            lemma_resource_view(r);
            assert(r@.methods =~= Seq::<(Seq<char>, MethodView)>::empty());
            assert(r@.resources =~= Seq::<(Seq<char>, ResourceView)>::empty());
        }
        r
    }
}

impl DiscoveryResource {
    /// The method named `name`.
    pub fn method(&self, name: &str) -> (r: Option<&DiscoveryMethod>)
        ensures
            match r {
                Some(m) => assoc_get(self@.methods, name@) == Some(m@),
                None => assoc_get(self@.methods, name@) is None,
            },
    {
        proof {
            lemma_resource_view(*self);
        }
        assoc_lookup(&self.methods, name)
    }

    /// The nested resource named `name`.
    pub fn resource(&self, name: &str) -> (r: Option<&DiscoveryResource>)
        ensures
            match r {
                Some(x) => assoc_get(self@.resources, name@) == Some(x@),
                None => assoc_get(self@.resources, name@) is None,
            },
    {
        proof {
            lemma_resource_view(*self);
        }
        assoc_lookup(&self.resources, name)
    }

    /// True when a method is named `name`.
    pub fn has_method(&self, name: &str) -> (r: bool)
        ensures
            r == (assoc_get(self@.methods, name@) is Some),
    {
        self.method(name).is_some()
    }
}

impl DiscoveryMethod {
    /// The parameter named `name`.
    pub fn parameter(&self, name: &str) -> (r: Option<&DiscoveryParameter>)
        ensures
            match r {
                Some(p) => assoc_get(self@.parameters, name@) == Some(p@),
                None => assoc_get(self@.parameters, name@) is None,
            },
    {
        assoc_lookup(&self.parameters, name)
    }

    /// True when a parameter is named `name`.
    pub fn has_parameter(&self, name: &str) -> (r: bool)
        ensures
            r == (assoc_get(self@.parameters, name@) is Some),
    {
        self.parameter(name).is_some()
    }
}

/// A Discovery document.
#[derive(Debug)]
pub struct DiscoveryDocument {
    pub kind: String,
    pub discovery_version: String,
    pub id: String,
    pub name: String,
    pub version: String,
    pub title: String,
    pub description: Option<String>,
    pub protocol: String,
    pub root_url: String,
    pub service_path: String,
    pub schemas: Vec<(String, JsonValue)>,
    pub resources: Vec<(String, DiscoveryResource)>,
}

/// The content of a [`DiscoveryDocument`].
pub struct DocumentView {
    pub kind: Seq<char>,
    pub discovery_version: Seq<char>,
    pub id: Seq<char>,
    pub name: Seq<char>,
    pub version: Seq<char>,
    pub title: Seq<char>,
    pub description: Option<Seq<char>>,
    pub protocol: Seq<char>,
    pub root_url: Seq<char>,
    pub service_path: Seq<char>,
    pub schemas: Seq<(Seq<char>, Json)>,
    pub resources: Seq<(Seq<char>, ResourceView)>,
}

impl View for DiscoveryDocument {
    type V = DocumentView;

    open spec fn view(&self) -> DocumentView {
        DocumentView {
            kind: self.kind@,
            discovery_version: self.discovery_version@,
            id: self.id@,
            name: self.name@,
            version: self.version@,
            title: self.title@,
            description: opt_view(self.description),
            protocol: self.protocol@,
            root_url: self.root_url@,
            service_path: self.service_path@,
            schemas: assoc_view(self.schemas@),
            resources: assoc_view(self.resources@),
        }
    }
}

impl DiscoveryDocument {
    /// The top-level resource named `name`.
    pub fn resource(&self, name: &str) -> (r: Option<&DiscoveryResource>)
        ensures
            match r {
                Some(x) => assoc_get(self@.resources, name@) == Some(x@),
                None => assoc_get(self@.resources, name@) is None,
            },
    {
        assoc_lookup(&self.resources, name)
    }

    /// The schema named `name`.
    pub fn schema(&self, name: &str) -> (r: Option<&JsonValue>)
        ensures
            match r {
                Some(x) => assoc_get(self@.schemas, name@) == Some(x@),
                None => assoc_get(self@.schemas, name@) is None,
            },
    {
        assoc_lookup(&self.schemas, name)
    }
}

} // verus!
