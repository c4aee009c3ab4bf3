//! The outside types that pass through the decoding of a description.

use vstd::prelude::*;

verus! {

#[verifier::external_type_specification]
#[verifier::external_body]
pub struct ExSerdeValue(serde_json::Value);

#[verifier::external_type_specification]
#[verifier::external_body]
pub struct ExSerdeError(serde_json::Error);

#[verifier::external_type_specification]
#[verifier::external_body]
pub struct ExOpenApi(openapiv3::OpenAPI);

#[verifier::external_type_specification]
#[verifier::external_body]
pub struct ExSchema(openapiv3::Schema);

#[verifier::external_type_specification]
#[verifier::external_body]
pub struct ExType(openapiv3::Type);

#[verifier::external_type_specification]
#[verifier::external_body]
#[verifier::reject_recursive_types(T)]
pub struct ExVariantOrUnknownOrEmpty<T>(openapiv3::VariantOrUnknownOrEmpty<T>);

#[verifier::external_type_specification]
#[verifier::external_body]
pub struct ExStringFormat(openapiv3::StringFormat);

#[verifier::external_type_specification]
#[verifier::external_body]
pub struct ExNumberFormat(openapiv3::NumberFormat);

#[verifier::external_type_specification]
#[verifier::external_body]
pub struct ExIntegerFormat(openapiv3::IntegerFormat);

#[verifier::external_type_specification]
#[verifier::external_body]
#[verifier::reject_recursive_types(T)]
pub struct ExReferenceOr<T>(openapiv3::ReferenceOr<T>);

#[verifier::external_type_specification]
#[verifier::external_body]
pub struct ExParameter(openapiv3::Parameter);

#[verifier::external_type_specification]
#[verifier::external_body]
pub struct ExParameterData(openapiv3::ParameterData);

#[verifier::external_type_specification]
#[verifier::external_body]
pub struct ExRequestBody(openapiv3::RequestBody);

#[verifier::external_type_specification]
#[verifier::external_body]
pub struct ExResponse(openapiv3::Response);

#[verifier::external_type_specification]
#[verifier::external_body]
pub struct ExPathItem(openapiv3::PathItem);

#[verifier::external_type_specification]
#[verifier::external_body]
pub struct ExOperation(openapiv3::Operation);

#[verifier::external_type_specification]
#[verifier::external_body]
pub struct ExComponents(openapiv3::Components);

#[verifier::external_type_specification]
#[verifier::external_body]
pub struct ExStatusCode(openapiv3::StatusCode);

} // verus!
