//! The interface through which a settings extension deals with its models, whatever the types
//! of their settings values.
use super::error::BottlerocketSettingError;
use super::GenerateResult;
use crate::version::first_of;
use vstd::prelude::*;

verus! {

/// A settings model of one version, as a settings extension sees it. The settings values of
/// all models of an extension have one type, `Value`, which hides what version a value is of.
/// Inputs and results are JSON values.
pub trait TypeErasedModel {
    /// A settings value of some model of the extension.
    type Value;

    /// The version of the model.
    spec fn version(&self) -> Seq<char>;

    /// Returns the version of the model.
    fn get_version(&self) -> (v: String)
        ensures
            v@ == self.version(),
    ;

    /// Determines whether this setting can be set to the target value, given its current
    /// value.
    fn set(&self, current: Option<serde_json::Value>, target: serde_json::Value) -> Result<
        (),
        BottlerocketSettingError,
    >;

    /// Generates default values at system start.
    fn generate(
        &self,
        existing_partial: Option<serde_json::Value>,
        dependent_settings: Option<serde_json::Value>,
    ) -> Result<GenerateResult<serde_json::Value, serde_json::Value>, BottlerocketSettingError>;

    /// Validates this setting alongside other settings on the system.
    fn validate(
        &self,
        value: serde_json::Value,
        validated_settings: Option<serde_json::Value>,
    ) -> Result<(), BottlerocketSettingError>;

    /// Reads a JSON value as a settings value of this model.
    fn parse_erased(&self, value: serde_json::Value) -> Result<
        Self::Value,
        BottlerocketSettingError,
    >;

    /// Executes the template helper of the given name on the given arguments.
    fn execute_template_helper(&self, helper_name: &str, args: Vec<serde_json::Value>) -> Result<
        serde_json::Value,
        BottlerocketSettingError,
    >;
}

/// The versions of the models, model by model.
pub open spec fn versions_of<M: TypeErasedModel>(models: Seq<M>) -> Seq<Seq<char>> {
    Seq::new(models.len(), |i: int| models[i].version())
}

/// The place of the model that a lookup of `version` finds: the first of that version.
pub open spec fn position<M: TypeErasedModel>(models: Seq<M>, version: Seq<char>) -> Option<int> {
    first_of(versions_of(models), version)
}

} // verus!
