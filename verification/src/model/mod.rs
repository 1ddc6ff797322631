//! Settings models: the versions of a setting, each with its own shape and rules.
use crate::helper::{HelperDef, HelperError};
use crate::migrate::linear::error::optional_view;
use vstd::prelude::*;

pub mod erased;
pub mod error;

pub use erased::TypeErasedModel;
pub use error::BottlerocketSettingError;

verus! {

/// The result of generating a settings value.
#[derive(Debug, PartialEq, Eq)]
pub enum GenerateResult<Partial, Complete> {
    /// Generation needs more data; what has been generated so far is handed back.
    NeedsData(Option<Partial>),
    /// Generation is complete.
    Complete(Complete),
}

/// What the author of a settings extension writes for a setting: the shape and the rules of
/// its models. One type stands for all versions of the setting, and a value of it is the
/// model of one version. Likewise one type, `Value`, holds the settings values of every
/// version, and `holds` tells whether a value is of the model's own version.
pub trait SettingsModel {
    /// The settings values of the models, whatever their version.
    type Value;

    /// A settings value that is only partially generated.
    type PartialKind;

    /// The error type returned when a settings operation fails.
    type ErrorKind;

    /// The template helpers of the models.
    type Helper: HelperDef;

    /// Returns the version of this settings model.
    fn get_version(&self) -> &'static str;

    /// Tells whether a settings value is of this model's version.
    fn holds(&self, value: &Self::Value) -> bool;

    /// Reads a settings value of this model from JSON.
    fn parse(&self, value: serde_json::Value) -> Result<Self::Value, serde_json::Error>;

    /// Writes a settings value of this model as JSON.
    fn serialize(&self, value: &Self::Value) -> Result<serde_json::Value, serde_json::Error>;

    /// Reads a partially generated settings value of this model from JSON.
    fn parse_partial(&self, value: serde_json::Value) -> Result<
        Self::PartialKind,
        serde_json::Error,
    >;

    /// Writes a partially generated settings value of this model as JSON.
    fn serialize_partial(&self, partial: &Self::PartialKind) -> Result<
        serde_json::Value,
        serde_json::Error,
    >;

    /// Says in words what an error of a settings operation is.
    fn describe(&self, error: &Self::ErrorKind) -> String;

    /// Determines whether this setting can be set to the target value, given its current
    /// value.
    fn set(&self, current_value: Option<Self::Value>, target: Self::Value) -> Result<
        (),
        Self::ErrorKind,
    >;

    /// Generates default values at system start.
    ///
    /// Some pieces of data may be dependent on other settings. A model may return
    /// `NeedsData` with what it has generated so far, to be called again later with more
    /// settings.
    fn generate(
        &self,
        existing_partial: Option<Self::PartialKind>,
        dependent_settings: Option<serde_json::Value>,
    ) -> Result<GenerateResult<Self::PartialKind, Self::Value>, Self::ErrorKind>;

    /// Validates this setting alongside other settings on the system.
    fn validate(&self, value: Self::Value, validated_settings: Option<serde_json::Value>) -> Result<
        (),
        Self::ErrorKind,
    >;

    /// Returns the template helpers of this model, each with its name.
    fn template_helpers(&self) -> Result<Vec<(String, Self::Helper)>, Self::ErrorKind>;
}

/// A settings model in the form in which a settings extension holds it: the model that the
/// extension's author wrote, with its version and its place in the migration chain, which are
/// read from it once.
pub struct BottlerocketSetting<T> {
    version: String,
    forward: Option<String>,
    backward: Option<String>,
    model: T,
}

impl<T> BottlerocketSetting<T> {
    /// The model that the extension's author wrote.
    pub closed spec fn inner(&self) -> T {
        self.model
    }

    /// The version that the model migrates forward to, if any.
    pub closed spec fn forward_link(&self) -> Option<Seq<char>> {
        optional_view(self.forward)
    }

    /// The version that the model migrates backward to, if any.
    pub closed spec fn backward_link(&self) -> Option<Seq<char>> {
        optional_view(self.backward)
    }

    /// The version that was read from the model.
    pub closed spec fn own_version(&self) -> Seq<char> {
        self.version@
    }

    /// Puts a model together with its version and its links.
    pub(crate) fn assemble(
        version: String,
        forward: Option<String>,
        backward: Option<String>,
        model: T,
    ) -> (r: Self)
        ensures
            r.own_version() == version@,
            r.forward_link() == optional_view(forward),
            r.backward_link() == optional_view(backward),
            r.inner() == model,
    {
        BottlerocketSetting { version, forward, backward, model }
    }

    /// Returns the model that the extension's author wrote.
    pub(crate) fn wrapped(&self) -> (model: &T)
        ensures
            *model == self.inner(),
    {
        &self.model
    }

    /// Returns the version that was read from the model.
    pub(crate) fn own(&self) -> (version: &String)
        ensures
            version@ == self.own_version(),
    {
        &self.version
    }

    /// Returns the version that the model migrates forward to, if any.
    pub(crate) fn forward(&self) -> (to: &Option<String>)
        ensures
            optional_view(*to) == self.forward_link(),
    {
        &self.forward
    }

    /// Returns the version that the model migrates backward to, if any.
    pub(crate) fn backward(&self) -> (to: &Option<String>)
        ensures
            optional_view(*to) == self.backward_link(),
    {
        &self.backward
    }
}

/// Whether `helper` is the place of the first helper of the given name.
pub open spec fn is_helper_named<H>(helpers: Seq<(String, H)>, name: Seq<char>, i: int) -> bool {
    &&& 0 <= i < helpers.len()
    &&& helpers[i].0@ == name
    &&& forall|j: int| 0 <= j < i ==> (#[trigger] helpers[j]).0@ != name
}

/// Finds the first helper of the given name.
pub fn find_helper<'a, H>(helpers: &'a Vec<(String, H)>, name: &str) -> (found: Option<&'a H>)
    ensures
        match found {
            Some(helper) => exists|i: int|
                is_helper_named(helpers@, name@, i) && *helper == (#[trigger] helpers@[i]).1,
            None => forall|i: int| 0 <= i < helpers@.len() ==> (#[trigger] helpers@[i]).0@ != name@,
        },
{
    let wanted = name.to_owned();
    let mut i: usize = 0;
    while i < helpers.len()
        invariant
            i <= helpers@.len(),
            wanted@ == name@,
            forall|j: int| 0 <= j < i ==> (#[trigger] helpers@[j]).0@ != name@,
        decreases helpers@.len() - i,
    {
        if helpers[i].0 == wanted {
            assert(is_helper_named(helpers@, name@, i as int));
            return Some(&helpers[i].1);
        }
        i += 1;
    }
    None
}

/// Whether `out` is what comes of reading `value` from JSON as an input of the model: what
/// the model's `parse` made of it, an error of which says what input could not be read.
pub open spec fn read_as<T: SettingsModel>(
    model: T,
    value: serde_json::Value,
    input_type: &'static str,
    out: Result<T::Value, BottlerocketSettingError>,
) -> bool {
    exists|parsed: Result<T::Value, serde_json::Error>| #[trigger]
        call_ensures(T::parse, (&model, value), parsed) && out == match parsed {
            Ok(read) => Ok::<T::Value, BottlerocketSettingError>(read),
            Err(source) => Err(BottlerocketSettingError::DeserializeInput { input_type, source }),
        }
}

/// Whether `source` is what the model says of the error.
pub open spec fn says<T: SettingsModel>(model: T, error: T::ErrorKind, source: String) -> bool {
    call_ensures(T::describe, (&model, &error), source)
}

/// Whether `out` may come of asking the model to set `target`, which is yet to be read from
/// JSON, given the current value.
pub open spec fn sets<T: SettingsModel>(
    model: T,
    current: Option<T::Value>,
    target: serde_json::Value,
    out: Result<(), BottlerocketSettingError>,
) -> bool {
    exists|read: Result<T::Value, BottlerocketSettingError>| #[trigger]
        read_as(model, target, "target value", read) && match read {
            Err(e) => out == Err::<(), BottlerocketSettingError>(e),
            Ok(value) => exists|done: Result<(), T::ErrorKind>| #[trigger]
                call_ensures(T::set, (&model, current, value), done) && match done {
                    Ok(()) => out == Ok::<(), BottlerocketSettingError>(()),
                    Err(e) => out matches Err(BottlerocketSettingError::SetSetting { source })
                        && says(model, e, source),
                },
        }
}

/// Whether `out` may come of asking the model to validate `value`, which is yet to be read
/// from JSON.
pub open spec fn validates<T: SettingsModel>(
    model: T,
    value: serde_json::Value,
    validated_settings: Option<serde_json::Value>,
    out: Result<(), BottlerocketSettingError>,
) -> bool {
    exists|read: Result<T::Value, BottlerocketSettingError>| #[trigger]
        read_as(model, value, "value", read) && match read {
            Err(e) => out == Err::<(), BottlerocketSettingError>(e),
            Ok(value) => exists|done: Result<(), T::ErrorKind>| #[trigger]
                call_ensures(T::validate, (&model, value, validated_settings), done)
                    && match done {
                    Ok(()) => out == Ok::<(), BottlerocketSettingError>(()),
                    Err(e) => out matches Err(BottlerocketSettingError::ValidateSetting { source })
                        && says(model, e, source),
                },
        }
}

/// Whether `out` is what comes of writing what the model generated as JSON: the same result
/// with its value written by the model's serializers, or the error of a serializer as a
/// `SerializeResult`.
pub open spec fn written_as<T: SettingsModel>(
    model: T,
    generated: GenerateResult<T::PartialKind, T::Value>,
    out: Result<GenerateResult<serde_json::Value, serde_json::Value>, BottlerocketSettingError>,
) -> bool {
    match generated {
        GenerateResult::NeedsData(None) => out == Ok::<
            GenerateResult<serde_json::Value, serde_json::Value>,
            BottlerocketSettingError,
        >(GenerateResult::NeedsData(None)),
        GenerateResult::NeedsData(Some(partial)) => exists|
            written: Result<serde_json::Value, serde_json::Error>,
        | #[trigger]
            call_ensures(T::serialize_partial, (&model, &partial), written) && out
                == match written {
                Ok(json) => Ok::<
                    GenerateResult<serde_json::Value, serde_json::Value>,
                    BottlerocketSettingError,
                >(GenerateResult::NeedsData(Some(json))),
                Err(source) => Err(BottlerocketSettingError::SerializeResult { source }),
            },
        GenerateResult::Complete(value) => exists|
            written: Result<serde_json::Value, serde_json::Error>,
        | #[trigger]
            call_ensures(T::serialize, (&model, &value), written) && out == match written {
                Ok(json) => Ok::<
                    GenerateResult<serde_json::Value, serde_json::Value>,
                    BottlerocketSettingError,
                >(GenerateResult::Complete(json)),
                Err(source) => Err(BottlerocketSettingError::SerializeResult { source }),
            },
    }
}

/// Whether `out` may come of asking the model to generate, given what it generated before.
pub open spec fn generates<T: SettingsModel>(
    model: T,
    existing_partial: Option<T::PartialKind>,
    dependent_settings: Option<serde_json::Value>,
    out: Result<GenerateResult<serde_json::Value, serde_json::Value>, BottlerocketSettingError>,
) -> bool {
    exists|done: Result<GenerateResult<T::PartialKind, T::Value>, T::ErrorKind>| #[trigger]
        call_ensures(T::generate, (&model, existing_partial, dependent_settings), done)
            && match done {
            Ok(generated) => written_as(model, generated, out),
            Err(e) => out matches Err(BottlerocketSettingError::GenerateSetting { source }) && says(
                model,
                e,
                source,
            ),
        }
}

impl<T: SettingsModel> BottlerocketSetting<T> {
    /// Wraps a settings model that takes no part in migrations.
    pub fn model(model: T) -> (r: Self)
        ensures
            exists|version: &'static str| #[trigger]
                call_ensures(T::get_version, (&model,), version) && r.version() == version@,
            r.forward_link() is None,
            r.backward_link() is None,
            r.inner() == model,
    {
        let version = model.get_version().to_owned();
        BottlerocketSetting { version, forward: None, backward: None, model }
    }

    /// Reads an input of an operation from JSON as a settings value.
    fn parse_input(&self, value: serde_json::Value, input_type: &'static str) -> (r: Result<
        T::Value,
        BottlerocketSettingError,
    >)
        ensures
            read_as(self.inner(), value, input_type, r),
    {
        match self.model.parse(value) {
            Ok(read) => Ok(read),
            Err(source) => Err(BottlerocketSettingError::DeserializeInput { input_type, source }),
        }
    }

    /// Writes what the model generated as JSON.
    fn write_generated(&self, generated: GenerateResult<T::PartialKind, T::Value>) -> (r: Result<
        GenerateResult<serde_json::Value, serde_json::Value>,
        BottlerocketSettingError,
    >)
        ensures
            written_as(self.inner(), generated, r),
    {
        let written = match generated {
            GenerateResult::NeedsData(Some(partial)) => {
                match self.model.serialize_partial(&partial) {
                    Ok(json) => Ok(GenerateResult::NeedsData(Some(json))),
                    Err(source) => Err(source),
                }
            },
            GenerateResult::NeedsData(None) => Ok(GenerateResult::NeedsData(None)),
            GenerateResult::Complete(value) => match self.model.serialize(&value) {
                Ok(json) => Ok(GenerateResult::Complete(json)),
                Err(source) => Err(source),
            },
        };
        match written {
            Ok(result) => Ok(result),
            Err(source) => Err(BottlerocketSettingError::SerializeResult { source }),
        }
    }
}

impl<T: SettingsModel> TypeErasedModel for BottlerocketSetting<T> {
    type Value = T::Value;

    open spec fn version(&self) -> Seq<char> {
        self.own_version()
    }

    fn get_version(&self) -> (v: String) {
        self.version.clone()
    }

    /// Reads the current value, if there is one, and the target value from JSON, and asks
    /// the model whether the setting can be set. An input that cannot be read is a
    /// `DeserializeInput`, the current value being read first; a refusal of the model is a
    /// `SetSetting`.
    fn set(&self, current: Option<serde_json::Value>, target: serde_json::Value) -> (r: Result<
        (),
        BottlerocketSettingError,
    >)
        ensures
            match current {
                None => sets(self.inner(), None, target, r),
                Some(value) => exists|read: Result<T::Value, BottlerocketSettingError>| #[trigger]
                    read_as(self.inner(), value, "current value", read) && match read {
                        Err(e) => r == Err::<(), BottlerocketSettingError>(e),
                        Ok(current_value) => sets(self.inner(), Some(current_value), target, r),
                    },
            },
    {
        let current_value = match current {
            Some(value) => match self.parse_input(value, "current value") {
                Ok(read) => Some(read),
                Err(e) => {
                    return Err(e);
                },
            },
            None => None,
        };
        let read = self.parse_input(target, "target value");
        let target_value = match read {
            Ok(value) => value,
            Err(e) => {
                return Err(e);
            },
        };
        let done = self.model.set(current_value, target_value);
        assert(call_ensures(T::set, (&self.inner(), current_value, target_value), done));
        match done {
            Ok(()) => Ok(()),
            Err(e) => {
                let source = self.model.describe(&e);
                assert(says(self.inner(), e, source));
                Err(BottlerocketSettingError::SetSetting { source })
            },
        }
    }

    /// Reads what was generated before, if anything, from JSON, asks the model to generate,
    /// and writes what it generated as JSON. What cannot be read is a `DeserializeInput`, a
    /// failure of the model a `GenerateSetting`, and what cannot be written a
    /// `SerializeResult`.
    fn generate(
        &self,
        existing_partial: Option<serde_json::Value>,
        dependent_settings: Option<serde_json::Value>,
    ) -> (r: Result<GenerateResult<serde_json::Value, serde_json::Value>, BottlerocketSettingError>)
        ensures
            match existing_partial {
                None => generates(self.inner(), None, dependent_settings, r),
                Some(value) => exists|read: Result<T::PartialKind, serde_json::Error>| #[trigger]
                    call_ensures(T::parse_partial, (&self.inner(), value), read) && match read {
                        Err(source) => r == Err::<
                            GenerateResult<serde_json::Value, serde_json::Value>,
                            BottlerocketSettingError,
                        >(
                            BottlerocketSettingError::DeserializeInput {
                                input_type: "existing partial",
                                source,
                            },
                        ),
                        Ok(partial) => generates(self.inner(), Some(partial), dependent_settings, r),
                    },
            },
    {
        let partial = match existing_partial {
            Some(value) => {
                let read = self.model.parse_partial(value);
                assert(call_ensures(T::parse_partial, (&self.inner(), value), read));
                match read {
                    Ok(partial) => Some(partial),
                    Err(source) => {
                        return Err(
                            BottlerocketSettingError::DeserializeInput {
                                input_type: "existing partial",
                                source,
                            },
                        );
                    },
                }
            },
            None => None,
        };
        let done = self.model.generate(partial, dependent_settings);
        assert(call_ensures(T::generate, (&self.inner(), partial, dependent_settings), done));
        match done {
            Ok(generated) => self.write_generated(generated),
            Err(e) => {
                let source = self.model.describe(&e);
                assert(says(self.inner(), e, source));
                Err(BottlerocketSettingError::GenerateSetting { source })
            },
        }
    }

    /// Reads the value from JSON and asks the model to validate it. A value that cannot be
    /// read is a `DeserializeInput`; a value that the model finds invalid is a
    /// `ValidateSetting`.
    fn validate(
        &self,
        value: serde_json::Value,
        validated_settings: Option<serde_json::Value>,
    ) -> (r: Result<(), BottlerocketSettingError>)
        ensures
            validates(self.inner(), value, validated_settings, r),
    {
        let read = self.parse_input(value, "value");
        let value = match read {
            Ok(value) => value,
            Err(e) => {
                return Err(e);
            },
        };
        let done = self.model.validate(value, validated_settings);
        assert(call_ensures(T::validate, (&self.inner(), value, validated_settings), done));
        match done {
            Ok(()) => Ok(()),
            Err(e) => {
                let source = self.model.describe(&e);
                assert(says(self.inner(), e, source));
                Err(BottlerocketSettingError::ValidateSetting { source })
            },
        }
    }

    /// Reads a JSON value as a settings value of this model.
    fn parse_erased(&self, value: serde_json::Value) -> (r: Result<
        T::Value,
        BottlerocketSettingError,
    >)
        ensures
            read_as(self.inner(), value, "value", r),
    {
        self.parse_input(value, "value")
    }

    /// Executes the model's first template helper of the given name. Without such a helper
    /// the error is `NoSuchTemplateHelper`.
    fn execute_template_helper(&self, helper_name: &str, args: Vec<serde_json::Value>) -> (r:
        Result<serde_json::Value, BottlerocketSettingError>)
        ensures
            exists|fetched: Result<Vec<(String, T::Helper)>, T::ErrorKind>| #[trigger]
                call_ensures(T::template_helpers, (&self.inner(),), fetched) && match fetched {
                    Err(e) => r matches Err(
                        BottlerocketSettingError::FetchTemplateHelpers { source },
                    ) && says(self.inner(), e, source),
                    Ok(helpers) => {
                        if exists|i: int| is_helper_named(helpers@, helper_name@, i) {
                            exists|i: int, result: Result<serde_json::Value, HelperError>|
                                is_helper_named(helpers@, helper_name@, i) && #[trigger] call_ensures(
                                    <T::Helper as HelperDef>::helper_fn,
                                    (&(#[trigger] helpers@[i]).1, args),
                                    result,
                                ) && match result {
                                    Ok(json) => r == Ok::<serde_json::Value, BottlerocketSettingError>(
                                        json,
                                    ),
                                    Err(source) => r matches Err(
                                        BottlerocketSettingError::ExecuteTemplateHelper {
                                            helper_name: name,
                                            source: cause,
                                        },
                                    ) && name@ == helper_name@ && cause == source,
                                }
                        } else {
                            r matches Err(
                                BottlerocketSettingError::NoSuchTemplateHelper { helper_name: name },
                            ) && name@ == helper_name@
                        }
                    },
                },
    {
        let fetched = self.model.template_helpers();
        assert(call_ensures(T::template_helpers, (&self.inner(),), fetched));
        let helpers = match fetched {
            Ok(helpers) => helpers,
            Err(e) => {
                let source = self.model.describe(&e);
                assert(says(self.inner(), e, source));
                return Err(BottlerocketSettingError::FetchTemplateHelpers { source });
            },
        };
        let helper = match find_helper(&helpers, helper_name) {
            Some(helper) => helper,
            None => {
                return Err(
                    BottlerocketSettingError::NoSuchTemplateHelper {
                        helper_name: helper_name.to_owned(),
                    },
                );
            },
        };
        let ghost place = choose|i: int|
            is_helper_named(helpers@, helper_name@, i) && *helper == (#[trigger] helpers@[i]).1;
        let result = helper.helper_fn(args);
        assert(call_ensures(
            <T::Helper as HelperDef>::helper_fn,
            (&helpers@[place].1, args),
            result,
        ));
        match result {
            Ok(json) => Ok(json),
            Err(source) => Err(
                BottlerocketSettingError::ExecuteTemplateHelper {
                    helper_name: helper_name.to_owned(),
                    source,
                },
            ),
        }
    }
}

} // verus!
