//! Conversion of OpenAPI 3.x descriptions into Discovery-style nested documents.

pub mod text;
pub mod tree;
pub mod assoc;
pub mod json;
pub mod transform;
pub mod parser;
pub mod decode;
pub mod outside;
pub mod openapi;
pub mod resolver;
pub mod discovery;
