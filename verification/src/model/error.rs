//! The errors of the operations on a settings model.
use crate::helper::HelperError;
use vstd::prelude::*;

verus! {

/// The error type returned when an operation on a settings model fails.
#[derive(Debug)]
#[allow(inconsistent_fields)]
pub enum BottlerocketSettingError {
    /// An input of the operation could not be read from JSON as what `input_type` names.
    DeserializeInput { input_type: &'static str, source: serde_json::Error },
    /// The template helper `helper_name` failed.
    ExecuteTemplateHelper { helper_name: String, source: HelperError },
    /// The model could not say what template helpers it has; `source` is what it said of it.
    FetchTemplateHelpers { source: String },
    /// The model failed to generate a value; `source` is what it said of it.
    GenerateSetting { source: String },
    /// The model has no template helper of the name `helper_name`.
    NoSuchTemplateHelper { helper_name: String },
    /// A result of the operation could not be written as JSON.
    SerializeResult { source: serde_json::Error },
    /// The model refused to set the value; `source` is what it said of it.
    SetSetting { source: String },
    /// The model found the value invalid; `source` is what it said of it.
    ValidateSetting { source: String },
}

} // verus!
