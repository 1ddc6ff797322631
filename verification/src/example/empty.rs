//! A basic setting extension for use in documentation.
use super::EmptyError;
use crate::helper::{HelperDef, HelperError};
use crate::migrate::{LinearlyMigrateable, NoMigration};
use crate::model::{GenerateResult, SettingsModel};
use vstd::prelude::*;

verus! {

/// A setting with no data for use in documentation.
#[derive(Debug)]
pub struct EmptySetting;

/// A setting with no data has no template helpers. This is the type of the helpers it does
/// not have.
pub struct NoHelper;

impl HelperDef for NoHelper {
    /// Takes no arguments and returns a setting with no data, written as JSON.
    fn helper_fn(&self, args: Vec<serde_json::Value>) -> (r: Result<serde_json::Value, HelperError>)
        ensures
            args@.len() != 0 ==> r == Err::<serde_json::Value, HelperError>(
                HelperError::Arity { expected_args: 0, provided_args: args@.len() as usize },
            ),
            args@.len() == 0 ==> (r matches Ok(json) && unit_read_from(json) is Ok),
    {
        match crate::helper::check_arity(0, args.len()) {
            Ok(()) => match unit_to_json() {
                Ok(json) => Ok(json),
                Err(source) => Err(HelperError::JSONSerialize { source }),
            },
            Err(e) => Err(e),
        }
    }
}

/// What `serde_json::from_value` returns when it is asked to read the unit value from a JSON
/// value: the unit value for `null`, and for any other value the error that says so. It is a
/// function of the JSON value alone.
pub uninterp spec fn unit_read_from(value: serde_json::Value) -> Result<(), serde_json::Error>;

/// What reading a setting with no data from a JSON value gives: the setting where the unit
/// value can be read from it, and else the error of reading that.
pub open spec fn setting_read_from(value: serde_json::Value) -> Result<
    EmptySetting,
    serde_json::Error,
> {
    match unit_read_from(value) {
        Ok(()) => Ok(EmptySetting),
        Err(e) => Err(e),
    }
}

/// Writes a setting with no data as JSON: calls `serde_json::to_value` on the unit value,
/// which is written as a setting with no data is. The contract claims that this succeeds,
/// and that the unit value can be read from what is written: serde_json writes the unit
/// value as `null`, and reads it from `null`. This is believed, not proved.
#[verifier::external_body]
fn unit_to_json() -> (r: Result<serde_json::Value, serde_json::Error>)
    ensures
        r is Ok,
        unit_read_from(r->Ok_0) is Ok,
{
    serde_json::to_value(())
}

/// Reads a setting with no data from JSON: calls `serde_json::from_value` for the unit
/// value, which is read as a setting with no data is. The contract gives the result its
/// name, `unit_read_from` of the JSON value, and claims no more. This is believed, not
/// proved.
#[verifier::external_body]
fn unit_from_json(value: serde_json::Value) -> (r: Result<(), serde_json::Error>)
    ensures
        r == unit_read_from(value),
{
    serde_json::from_value::<()>(value)
}

impl SettingsModel for EmptySetting {
    type Value = EmptySetting;

    type PartialKind = EmptySetting;

    type ErrorKind = EmptyError;

    type Helper = NoHelper;

    fn get_version(&self) -> (version: &'static str)
        ensures
            version@ == "v1"@,
    {
        "v1"
    }

    fn holds(&self, _value: &EmptySetting) -> (held: bool)
        ensures
            held,
    {
        true
    }

    /// Reads the setting from JSON, as the unit value is read.
    fn parse(&self, value: serde_json::Value) -> (r: Result<EmptySetting, serde_json::Error>)
        ensures
            r == setting_read_from(value),
    {
        match unit_from_json(value) {
            Ok(()) => Ok(EmptySetting),
            Err(e) => Err(e),
        }
    }

    /// Writes the setting as JSON, as the unit value is written. This succeeds, and the
    /// setting can be read from what is written.
    fn serialize(&self, _value: &EmptySetting) -> (r: Result<serde_json::Value, serde_json::Error>)
        ensures
            r matches Ok(json) && setting_read_from(json) == Ok::<EmptySetting, serde_json::Error>(
                EmptySetting,
            ),
    {
        unit_to_json()
    }

    /// Reads a partially generated setting from JSON: there is only the whole setting, so
    /// this is `parse`.
    fn parse_partial(&self, value: serde_json::Value) -> (r: Result<
        EmptySetting,
        serde_json::Error,
    >)
        ensures
            r == setting_read_from(value),
    {
        self.parse(value)
    }

    /// Writes a partially generated setting as JSON: there is only the whole setting, so
    /// this is `serialize`.
    fn serialize_partial(&self, partial: &EmptySetting) -> (r: Result<
        serde_json::Value,
        serde_json::Error,
    >)
        ensures
            r matches Ok(json) && setting_read_from(json) == Ok::<EmptySetting, serde_json::Error>(
                EmptySetting,
            ),
    {
        self.serialize(partial)
    }

    fn describe(&self, error: &EmptyError) -> (message: String)
        ensures
            message@ == "EmptyError"@,
    {
        error.message().to_owned()
    }

    fn set(&self, _current_value: Option<EmptySetting>, _target: EmptySetting) -> (r: Result<
        (),
        EmptyError,
    >)
        ensures
            r is Ok,
    {
        Ok(())
    }

    fn generate(
        &self,
        _existing_partial: Option<EmptySetting>,
        _dependent_settings: Option<serde_json::Value>,
    ) -> (r: Result<GenerateResult<EmptySetting, EmptySetting>, EmptyError>)
        ensures
            r matches Ok(GenerateResult::Complete(_)),
    {
        Ok(GenerateResult::Complete(EmptySetting))
    }

    fn validate(&self, _value: EmptySetting, _validated_settings: Option<serde_json::Value>) -> (r:
        Result<(), EmptyError>)
        ensures
            r is Ok,
    {
        Ok(())
    }

    fn template_helpers(&self) -> (r: Result<Vec<(String, NoHelper)>, EmptyError>)
        ensures
            r matches Ok(helpers) && helpers@.len() == 0,
    {
        Ok(Vec::new())
    }
}

impl LinearlyMigrateable for EmptySetting {
    fn migrates_forward_to(&self) -> (to: Option<&'static str>)
        ensures
            to is None,
    {
        None
    }

    fn migrate_forward(&self, _value: &EmptySetting) -> (r: Result<EmptySetting, EmptyError>)
        ensures
            r is Ok,
    {
        match NoMigration::no_defined_migration::<EmptyError>() {
            Ok(_) => Ok(EmptySetting),
            Err(e) => Err(e),
        }
    }

    fn migrates_backward_to(&self) -> (to: Option<&'static str>)
        ensures
            to is None,
    {
        None
    }

    fn migrate_backward(&self, _value: &EmptySetting) -> (r: Result<EmptySetting, EmptyError>)
        ensures
            r is Ok,
    {
        match NoMigration::no_defined_migration::<EmptyError>() {
            Ok(_) => Ok(EmptySetting),
            Err(e) => Err(e),
        }
    }
}

} // verus!
