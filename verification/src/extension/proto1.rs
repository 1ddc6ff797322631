//! The operations of settings extension CLI proto1.
//!
//! The protocol is provided as a trait so that any new protocols can provide implementations
//! with function name collisions if needed.
use super::{SettingsExtension, SettingsExtensionError};
use crate::cli::proto1::{
    FloodMigrateArguments, GenerateArguments, MigrateArguments, SetArguments,
    TemplateHelperArguments, ValidateArguments,
};
use crate::migrate::{MigrationResult, Migrator, ModelStore};
use crate::model::erased::{position, TypeErasedModel};
use crate::model::{BottlerocketSettingError, GenerateResult};
use vstd::prelude::*;

verus! {

/// A proto1 command together with its input.
#[derive(Debug)]
pub enum Proto1Input {
    /// Modify values owned by this setting
    SetValue(SetArguments),
    /// Generate default values for this setting
    Generate(GenerateArguments),
    /// Validate values created by external settings
    Validate(ValidateArguments),
    /// Migrate this setting from one given version to another
    Migrate(MigrateArguments),
    /// Migrate this setting from one given version to all other known versions
    FloodMigrate(FloodMigrateArguments),
    /// Execute a helper
    Helper(TemplateHelperArguments),
}

/// What a proto1 command returns where it succeeds.
#[derive(Debug)]
pub enum Proto1Output {
    /// Nothing: the commands `set` and `validate` only succeed or fail.
    Nothing,
    /// What `generate` has generated.
    Generated(GenerateResult<serde_json::Value, serde_json::Value>),
    /// The value that `migrate` has migrated.
    Migrated(serde_json::Value),
    /// The values that `flood-migrate` has migrated, one for each version.
    Flooded(Vec<MigrationResult>),
    /// The result of the helper.
    Helped(serde_json::Value),
}

/// A trait representing adherence to settings extension CLI proto1.
///
/// Implementors of this trait can use `try_run_extension` to run a proto1 command against a
/// settings extension.
pub trait Proto1 {
    /// The error type of the extension's migrator.
    type MigratorErrorKind;

    /// Determines whether the setting can be set to a value.
    fn set(&self, args: SetArguments) -> Result<
        (),
        SettingsExtensionError<Self::MigratorErrorKind>,
    >;

    /// Generates a value of the setting.
    fn generate(&self, args: GenerateArguments) -> Result<
        GenerateResult<serde_json::Value, serde_json::Value>,
        SettingsExtensionError<Self::MigratorErrorKind>,
    >;

    /// Migrates a value of the setting from one version to another.
    fn migrate(&self, args: MigrateArguments) -> Result<
        serde_json::Value,
        SettingsExtensionError<Self::MigratorErrorKind>,
    >;

    /// Migrates a value of the setting from one version to all versions.
    fn flood_migrate(&self, args: FloodMigrateArguments) -> Result<
        Vec<MigrationResult>,
        SettingsExtensionError<Self::MigratorErrorKind>,
    >;

    /// Validates a value of the setting.
    fn validate(&self, args: ValidateArguments) -> Result<
        (),
        SettingsExtensionError<Self::MigratorErrorKind>,
    >;

    /// Executes a template helper of the setting.
    fn template_helper(&self, args: TemplateHelperArguments) -> Result<
        serde_json::Value,
        SettingsExtensionError<Self::MigratorErrorKind>,
    >;
}

/// Runs a proto1 command against the given settings extension.
///
/// The results are returned to the caller: what the operation of the command returns for
/// the command's input.
pub fn try_run_extension<P: Proto1>(extension: &P, input: Proto1Input) -> (r: Result<
    Proto1Output,
    SettingsExtensionError<P::MigratorErrorKind>,
>)
    ensures
        match input {
            Proto1Input::SetValue(args) => exists|
                done: Result<(), SettingsExtensionError<P::MigratorErrorKind>>,
            | #[trigger]
                call_ensures(P::set, (extension, args), done) && r == match done {
                    Ok(()) => Ok(Proto1Output::Nothing),
                    Err(e) => Err(e),
                },
            Proto1Input::Generate(args) => exists|
                done: Result<
                    GenerateResult<serde_json::Value, serde_json::Value>,
                    SettingsExtensionError<P::MigratorErrorKind>,
                >,
            | #[trigger]
                call_ensures(P::generate, (extension, args), done) && r == match done {
                    Ok(generated) => Ok(Proto1Output::Generated(generated)),
                    Err(e) => Err(e),
                },
            Proto1Input::Validate(args) => exists|
                done: Result<(), SettingsExtensionError<P::MigratorErrorKind>>,
            | #[trigger]
                call_ensures(P::validate, (extension, args), done) && r == match done {
                    Ok(()) => Ok(Proto1Output::Nothing),
                    Err(e) => Err(e),
                },
            Proto1Input::Migrate(args) => exists|
                done: Result<serde_json::Value, SettingsExtensionError<P::MigratorErrorKind>>,
            | #[trigger]
                call_ensures(P::migrate, (extension, args), done) && r == match done {
                    Ok(value) => Ok(Proto1Output::Migrated(value)),
                    Err(e) => Err(e),
                },
            Proto1Input::FloodMigrate(args) => exists|
                done: Result<Vec<MigrationResult>, SettingsExtensionError<P::MigratorErrorKind>>,
            | #[trigger]
                call_ensures(P::flood_migrate, (extension, args), done) && r == match done {
                    Ok(results) => Ok(Proto1Output::Flooded(results)),
                    Err(e) => Err(e),
                },
            Proto1Input::Helper(args) => exists|
                done: Result<serde_json::Value, SettingsExtensionError<P::MigratorErrorKind>>,
            | #[trigger]
                call_ensures(P::template_helper, (extension, args), done) && r == match done {
                    Ok(value) => Ok(Proto1Output::Helped(value)),
                    Err(e) => Err(e),
                },
        },
{
    match input {
        Proto1Input::SetValue(args) => {
            let done = extension.set(args);
            assert(call_ensures(P::set, (extension, args), done));
            match done {
                Ok(()) => Ok(Proto1Output::Nothing),
                Err(e) => Err(e),
            }
        },
        Proto1Input::Generate(args) => {
            let done = extension.generate(args);
            assert(call_ensures(P::generate, (extension, args), done));
            match done {
                Ok(generated) => Ok(Proto1Output::Generated(generated)),
                Err(e) => Err(e),
            }
        },
        Proto1Input::Validate(args) => {
            let done = extension.validate(args);
            assert(call_ensures(P::validate, (extension, args), done));
            match done {
                Ok(()) => Ok(Proto1Output::Nothing),
                Err(e) => Err(e),
            }
        },
        Proto1Input::Migrate(args) => {
            let done = extension.migrate(args);
            assert(call_ensures(P::migrate, (extension, args), done));
            match done {
                Ok(value) => Ok(Proto1Output::Migrated(value)),
                Err(e) => Err(e),
            }
        },
        Proto1Input::FloodMigrate(args) => {
            let done = extension.flood_migrate(args);
            assert(call_ensures(P::flood_migrate, (extension, args), done));
            match done {
                Ok(results) => Ok(Proto1Output::Flooded(results)),
                Err(e) => Err(e),
            }
        },
        Proto1Input::Helper(args) => {
            let done = extension.template_helper(args);
            assert(call_ensures(P::template_helper, (extension, args), done));
            match done {
                Ok(value) => Ok(Proto1Output::Helped(value)),
                Err(e) => Err(e),
            }
        },
    }
}

/// Whether `out` is the error that no model has the given version.
pub open spec fn no_such_model<T, E>(out: Result<T, SettingsExtensionError<E>>, version: Seq<char>) -> bool {
    out matches Err(SettingsExtensionError::NoSuchModel { setting_version }) && setting_version@
        == version
}

impl<Mi: Migrator<Mo>, Mo: TypeErasedModel> Proto1 for SettingsExtension<Mi, Mo> {
    type MigratorErrorKind = Mi::ErrorKind;

    /// Hands the values to the `set` of the model of the given version. An error of the
    /// model is returned as `SetValue`.
    fn set(&self, args: SetArguments) -> (r: Result<(), SettingsExtensionError<Mi::ErrorKind>>)
        ensures
            match position(self.models(), args.setting_version@) {
                None => no_such_model(r, args.setting_version@),
                Some(i) => exists|done: Result<(), BottlerocketSettingError>| #[trigger]
                    call_ensures(
                        Mo::set,
                        (&self.models()[i], args.current_value, args.value),
                        done,
                    ) && r == match done {
                        Ok(()) => Ok::<(), SettingsExtensionError<Mi::ErrorKind>>(()),
                        Err(source) => Err(SettingsExtensionError::SetValue { source }),
                    },
            },
    {
        let model = match self.model(args.setting_version.as_str()) {
            Some(model) => model,
            None => {
                return Err(
                    SettingsExtensionError::NoSuchModel { setting_version: args.setting_version },
                );
            },
        };
        let done = model.set(args.current_value, args.value);
        assert(call_ensures(Mo::set, (model, args.current_value, args.value), done));
        match done {
            Ok(()) => Ok(()),
            Err(source) => Err(SettingsExtensionError::SetValue { source }),
        }
    }

    /// Hands the inputs to the `generate` of the model of the given version. An error of
    /// the model is returned as `Generate`.
    fn generate(&self, args: GenerateArguments) -> (r: Result<
        GenerateResult<serde_json::Value, serde_json::Value>,
        SettingsExtensionError<Mi::ErrorKind>,
    >)
        ensures
            match position(self.models(), args.setting_version@) {
                None => no_such_model(r, args.setting_version@),
                Some(i) => exists|
                    done: Result<
                        GenerateResult<serde_json::Value, serde_json::Value>,
                        BottlerocketSettingError,
                    >,
                | #[trigger]
                    call_ensures(
                        Mo::generate,
                        (&self.models()[i], args.existing_partial, args.required_settings),
                        done,
                    ) && r == match done {
                        Ok(generated) => Ok::<
                            GenerateResult<serde_json::Value, serde_json::Value>,
                            SettingsExtensionError<Mi::ErrorKind>,
                        >(generated),
                        Err(source) => Err(SettingsExtensionError::Generate { source }),
                    },
            },
    {
        let model = match self.model(args.setting_version.as_str()) {
            Some(model) => model,
            None => {
                return Err(
                    SettingsExtensionError::NoSuchModel { setting_version: args.setting_version },
                );
            },
        };
        let done = model.generate(args.existing_partial, args.required_settings);
        assert(call_ensures(
            Mo::generate,
            (model, args.existing_partial, args.required_settings),
            done,
        ));
        match done {
            Ok(generated) => Ok(generated),
            Err(source) => Err(SettingsExtensionError::Generate { source }),
        }
    }

    /// Reads the value as a value of the model of the starting version, and has the
    /// migrator migrate it to the target version. Without a model of the starting version
    /// the error is `NoSuchModel`; a value that cannot be read is a `ModelParse`; an error
    /// of the migrator is returned as `Migrate`.
    fn migrate(&self, args: MigrateArguments) -> (r: Result<
        serde_json::Value,
        SettingsExtensionError<Mi::ErrorKind>,
    >)
        ensures
            match position(self.models(), args.from_version@) {
                None => no_such_model(r, args.from_version@),
                Some(i) => exists|parsed: Result<Mo::Value, BottlerocketSettingError>| #[trigger]
                    call_ensures(Mo::parse_erased, (&self.models()[i], args.value), parsed)
                        && match parsed {
                        Err(cause) => r matches Err(
                            SettingsExtensionError::ModelParse { setting_version, source },
                        ) && setting_version@ == args.from_version@ && source == cause,
                        Ok(starting_value) => exists|
                            migrated: Result<serde_json::Value, Mi::ErrorKind>,
                        | #[trigger]
                            self.extension_migrator().migration_returns(
                                self.models(),
                                starting_value,
                                args.from_version@,
                                args.target_version@,
                                migrated,
                            ) && r == match migrated {
                                Ok(value) => Ok::<
                                    serde_json::Value,
                                    SettingsExtensionError<Mi::ErrorKind>,
                                >(value),
                                Err(source) => Err(SettingsExtensionError::Migrate { source }),
                            },
                    },
            },
    {
        let model = match self.model(args.from_version.as_str()) {
            Some(model) => model,
            None => {
                return Err(
                    SettingsExtensionError::NoSuchModel { setting_version: args.from_version },
                );
            },
        };
        let parsed = model.parse_erased(args.value);
        assert(call_ensures(Mo::parse_erased, (model, args.value), parsed));
        let starting_value = match parsed {
            Ok(value) => value,
            Err(source) => {
                return Err(
                    SettingsExtensionError::ModelParse {
                        setting_version: args.from_version,
                        source,
                    },
                );
            },
        };
        let migrated = self.migrator().perform_migration(
            self,
            starting_value,
            args.from_version.as_str(),
            args.target_version.as_str(),
        );
        match migrated {
            Ok(value) => Ok(value),
            Err(source) => Err(SettingsExtensionError::Migrate { source }),
        }
    }

    /// Reads the value as a value of the model of the starting version, and has the
    /// migrator migrate it to every version. Without a model of the starting version the
    /// error is `NoSuchModel`; a value that cannot be read is a `ModelParse`; an error of
    /// the migrator is returned as `Migrate`.
    fn flood_migrate(&self, args: FloodMigrateArguments) -> (r: Result<
        Vec<MigrationResult>,
        SettingsExtensionError<Mi::ErrorKind>,
    >)
        ensures
            match position(self.models(), args.from_version@) {
                None => no_such_model(r, args.from_version@),
                Some(i) => exists|parsed: Result<Mo::Value, BottlerocketSettingError>| #[trigger]
                    call_ensures(Mo::parse_erased, (&self.models()[i], args.value), parsed)
                        && match parsed {
                        Err(cause) => r matches Err(
                            SettingsExtensionError::ModelParse { setting_version, source },
                        ) && setting_version@ == args.from_version@ && source == cause,
                        Ok(starting_value) => exists|
                            migrated: Result<Vec<MigrationResult>, Mi::ErrorKind>,
                        | #[trigger]
                            self.extension_migrator().flood_returns(
                                self.models(),
                                starting_value,
                                args.from_version@,
                                migrated,
                            ) && r == match migrated {
                                Ok(results) => Ok::<
                                    Vec<MigrationResult>,
                                    SettingsExtensionError<Mi::ErrorKind>,
                                >(results),
                                Err(source) => Err(SettingsExtensionError::Migrate { source }),
                            },
                    },
            },
    {
        let model = match self.model(args.from_version.as_str()) {
            Some(model) => model,
            None => {
                return Err(
                    SettingsExtensionError::NoSuchModel { setting_version: args.from_version },
                );
            },
        };
        let parsed = model.parse_erased(args.value);
        assert(call_ensures(Mo::parse_erased, (model, args.value), parsed));
        let starting_value = match parsed {
            Ok(value) => value,
            Err(source) => {
                return Err(
                    SettingsExtensionError::ModelParse {
                        setting_version: args.from_version,
                        source,
                    },
                );
            },
        };
        let migrated = self.migrator().perform_flood_migrations(
            self,
            starting_value,
            args.from_version.as_str(),
        );
        match migrated {
            Ok(results) => Ok(results),
            Err(source) => Err(SettingsExtensionError::Migrate { source }),
        }
    }

    /// Hands the values to the `validate` of the model of the given version. An error of
    /// the model is returned as `Validate`.
    fn validate(&self, args: ValidateArguments) -> (r: Result<
        (),
        SettingsExtensionError<Mi::ErrorKind>,
    >)
        ensures
            match position(self.models(), args.setting_version@) {
                None => no_such_model(r, args.setting_version@),
                Some(i) => exists|done: Result<(), BottlerocketSettingError>| #[trigger]
                    call_ensures(
                        Mo::validate,
                        (&self.models()[i], args.value, args.required_settings),
                        done,
                    ) && r == match done {
                        Ok(()) => Ok::<(), SettingsExtensionError<Mi::ErrorKind>>(()),
                        Err(source) => Err(SettingsExtensionError::Validate { source }),
                    },
            },
    {
        let model = match self.model(args.setting_version.as_str()) {
            Some(model) => model,
            None => {
                return Err(
                    SettingsExtensionError::NoSuchModel { setting_version: args.setting_version },
                );
            },
        };
        let done = model.validate(args.value, args.required_settings);
        assert(call_ensures(Mo::validate, (model, args.value, args.required_settings), done));
        match done {
            Ok(()) => Ok(()),
            Err(source) => Err(SettingsExtensionError::Validate { source }),
        }
    }

    /// Has the model of the given version execute its template helper of the given name.
    /// An error of the model is returned as `TemplateHelper`.
    fn template_helper(&self, args: TemplateHelperArguments) -> (r: Result<
        serde_json::Value,
        SettingsExtensionError<Mi::ErrorKind>,
    >)
        ensures
            match position(self.models(), args.setting_version@) {
                None => no_such_model(r, args.setting_version@),
                Some(i) => exists|
                    helper_name: &str,
                    done: Result<serde_json::Value, BottlerocketSettingError>,
                |
                    helper_name@ == args.helper_name@ && #[trigger] call_ensures(
                        Mo::execute_template_helper,
                        (&self.models()[i], helper_name, args.arg),
                        done,
                    ) && r == match done {
                        Ok(value) => Ok::<serde_json::Value, SettingsExtensionError<Mi::ErrorKind>>(
                            value,
                        ),
                        Err(source) => Err(SettingsExtensionError::TemplateHelper { source }),
                    },
            },
    {
        let model = match self.model(args.setting_version.as_str()) {
            Some(model) => model,
            None => {
                return Err(
                    SettingsExtensionError::NoSuchModel { setting_version: args.setting_version },
                );
            },
        };
        let helper_name = args.helper_name.as_str();
        let done = model.execute_template_helper(helper_name, args.arg);
        assert(call_ensures(Mo::execute_template_helper, (model, helper_name, args.arg), done));
        match done {
            Ok(value) => Ok(value),
            Err(source) => Err(SettingsExtensionError::TemplateHelper { source }),
        }
    }
}

} // verus!
