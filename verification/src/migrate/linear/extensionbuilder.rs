//! A builder of settings extensions that use the linear migrator.
use super::erased::TypeErasedLinearlyMigrateable;
use super::interface::LinearMigrator;
use crate::extension::{
    first_collision, SettingsExtension, SettingsExtensionBuilder, SettingsExtensionError,
};
use crate::migrate::{Migrator, ModelStore};
use crate::model::erased::versions_of;
use crate::version::all_distinct;
use vstd::prelude::*;

verus! {

/// Constructs a `SettingsExtension` configured to use the [`LinearMigrator`].
pub struct LinearMigratorExtensionBuilder<Mo: TypeErasedLinearlyMigrateable>(
    SettingsExtensionBuilder<LinearMigrator, Mo>,
);

impl<Mo: TypeErasedLinearlyMigrateable> LinearMigratorExtensionBuilder<Mo> {
    /// The builder that does the work.
    pub closed spec fn inner(&self) -> SettingsExtensionBuilder<LinearMigrator, Mo> {
        self.0
    }

    /// Constructs a `SettingsExtension` builder with the given name.
    pub fn with_name(name: &'static str) -> (r: Self)
        ensures
            r.inner().chosen_name() == name,
            r.inner().chosen_models() == Seq::<Mo>::empty(),
    {
        LinearMigratorExtensionBuilder(SettingsExtensionBuilder::new(name, LinearMigrator))
    }

    /// Uses the given set of models for the constructed `SettingsExtension`.
    pub fn with_models(self, models: Vec<Mo>) -> (r: Self)
        ensures
            r.inner().chosen_name() == self.inner().chosen_name(),
            r.inner().chosen_models() == models@,
    {
        LinearMigratorExtensionBuilder(self.0.with_models(models))
    }

    /// Constructs a `SettingsExtension` with the given options. The models must be distinct
    /// in their versions and form one linear migration chain.
    pub fn build(self) -> (r: Result<
        SettingsExtension<LinearMigrator, Mo>,
        SettingsExtensionError<super::LinearMigratorError>,
    >)
        ensures
            match r {
                Ok(extension) => {
                    &&& extension.models() == self.inner().chosen_models()
                    &&& extension.extension_name() == self.inner().chosen_name()
                    &&& all_distinct(versions_of(self.inner().chosen_models()))
                    &&& LinearMigrator.accepts(self.inner().chosen_models())
                },
                Err(SettingsExtensionError::ModelVersionCollision { version }) => exists|j: int|
                    #[trigger] first_collision(versions_of(self.inner().chosen_models()), j)
                        && version@ == self.inner().chosen_models()[j].version(),
                Err(SettingsExtensionError::MigrationValidation { source }) => all_distinct(
                    versions_of(self.inner().chosen_models()),
                ) && LinearMigrator.validation_returns(self.inner().chosen_models(), Err(source))
                    && !LinearMigrator.accepts(self.inner().chosen_models()),
                Err(_) => false,
            },
    {
        assert(self.inner().chosen_migrator() == LinearMigrator);
        self.0.build()
    }
}

} // verus!
