//! Provides a `NullMigrator` for settings that do not require migration, e.g. settings with a
//! single version.
use crate::migrate::{MigrationResult, Migrator, ModelStore};
use crate::model::erased::TypeErasedModel;
use vstd::prelude::*;

pub mod extensionbuilder;

pub use extensionbuilder::NullMigratorExtensionBuilder;

verus! {

/// `NullMigrator` is to be used for settings that do not require migration, e.g. settings
/// with a single version. For cases where multiple versions of a setting are required, you
/// should use a different migrator, such as `LinearMigrator`, and define migrations between
/// each version.
///
/// As `NullMigrator` takes any settings model, it can be used with any model without needing
/// to implement any additional traits.
#[derive(Default, Debug, Clone, Copy)]
pub struct NullMigrator;

/// The error type returned by `NullMigrator`.
#[derive(Debug, PartialEq, Eq, Structural, Clone, Copy)]
pub enum NullMigratorError {
    /// No migration to perform.
    NoMigration,
    /// `NullMigrator` cannot be used with models with multiple versions.
    TooManyModelVersions,
}

impl<Mo: TypeErasedModel> Migrator<Mo> for NullMigrator {
    type ErrorKind = NullMigratorError;

    /// The null migrator is for a single model.
    open spec fn accepts(&self, models: Seq<Mo>) -> bool {
        models.len() == 1
    }

    open spec fn validation_returns(&self, models: Seq<Mo>, out: Result<(), NullMigratorError>) -> bool {
        out == if models.len() == 1 {
            Ok::<(), NullMigratorError>(())
        } else {
            Err::<(), NullMigratorError>(NullMigratorError::TooManyModelVersions)
        }
    }

    open spec fn migration_returns(
        &self,
        models: Seq<Mo>,
        value: Mo::Value,
        start: Seq<char>,
        target: Seq<char>,
        out: Result<serde_json::Value, NullMigratorError>,
    ) -> bool {
        out == Err::<serde_json::Value, NullMigratorError>(NullMigratorError::NoMigration)
    }

    open spec fn flood_returns(
        &self,
        models: Seq<Mo>,
        value: Mo::Value,
        start: Seq<char>,
        out: Result<Vec<MigrationResult>, NullMigratorError>,
    ) -> bool {
        out == Err::<Vec<MigrationResult>, NullMigratorError>(NullMigratorError::NoMigration)
    }

    /// Asserts that the `NullMigrator` is only used with a single version of a model. For
    /// cases where multiple versions are required, you should use a different migrator, such
    /// as `LinearMigrator`.
    fn validate_migrations<S: ModelStore<ModelKind = Mo>>(&self, models: &S) -> (r: Result<
        (),
        NullMigratorError,
    >) {
        if models.len() != 1 {
            return Err(NullMigratorError::TooManyModelVersions);
        }
        Ok(())
    }

    /// Always returns a `NoMigration` error. Extensions that use `NullMigrator` should never
    /// need to migrate.
    fn perform_migration<S: ModelStore<ModelKind = Mo>>(
        &self,
        _models: &S,
        _starting_value: Mo::Value,
        _starting_version: &str,
        _target_version: &str,
    ) -> (r: Result<serde_json::Value, NullMigratorError>) {
        Err(NullMigratorError::NoMigration)
    }

    /// Always returns a `NoMigration` error. Extensions that use `NullMigrator` should never
    /// need to migrate.
    fn perform_flood_migrations<S: ModelStore<ModelKind = Mo>>(
        &self,
        _models: &S,
        _starting_value: Mo::Value,
        _starting_version: &str,
    ) -> (r: Result<Vec<MigrationResult>, NullMigratorError>) {
        Err(NullMigratorError::NoMigration)
    }
}

} // verus!
