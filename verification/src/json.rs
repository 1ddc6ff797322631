//! The JSON types that settings values are exchanged in. This library carries such values
//! between a settings extension's caller and its models, and never looks into them.
use vstd::prelude::*;

verus! {

/// `serde_json::Value`: any JSON value.
#[verifier::external_type_specification]
#[verifier::external_body]
pub struct ExJsonValue(serde_json::Value);

/// `serde_json::Error`: why a value could not be read from JSON or written as JSON.
#[verifier::external_type_specification]
#[verifier::external_body]
pub struct ExJsonError(serde_json::Error);

} // verus!
