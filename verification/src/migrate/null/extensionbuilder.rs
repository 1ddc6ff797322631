//! A builder of settings extensions that use the null migrator.
use super::{NullMigrator, NullMigratorError};
use crate::extension::{
    first_collision, SettingsExtension, SettingsExtensionBuilder, SettingsExtensionError,
};
use crate::migrate::ModelStore;
use crate::model::erased::{versions_of, TypeErasedModel};
use crate::version::all_distinct;
use vstd::prelude::*;

verus! {

/// Constructs a `SettingsExtension` configured to use the [`NullMigrator`].
pub struct NullMigratorExtensionBuilder<Mo: TypeErasedModel>(
    SettingsExtensionBuilder<NullMigrator, Mo>,
);

impl<Mo: TypeErasedModel> NullMigratorExtensionBuilder<Mo> {
    /// The builder that does the work.
    pub closed spec fn inner(&self) -> SettingsExtensionBuilder<NullMigrator, Mo> {
        self.0
    }

    /// Constructs a `SettingsExtension` builder with the given name.
    pub fn with_name(name: &'static str) -> (r: Self)
        ensures
            r.inner().chosen_name() == name,
            r.inner().chosen_models() == Seq::<Mo>::empty(),
    {
        NullMigratorExtensionBuilder(SettingsExtensionBuilder::new(name, NullMigrator))
    }

    /// Uses the given set of models for the constructed `SettingsExtension`.
    pub fn with_models(self, models: Vec<Mo>) -> (r: Self)
        ensures
            r.inner().chosen_name() == self.inner().chosen_name(),
            r.inner().chosen_models() == models@,
    {
        NullMigratorExtensionBuilder(self.0.with_models(models))
    }

    /// Constructs a `SettingsExtension` with the given options: with the one model that was
    /// given. Any other number of models is refused.
    pub fn build(self) -> (r: Result<
        SettingsExtension<NullMigrator, Mo>,
        SettingsExtensionError<NullMigratorError>,
    >)
        ensures
            match r {
                Ok(extension) => {
                    &&& extension.models() == self.inner().chosen_models()
                    &&& extension.extension_name() == self.inner().chosen_name()
                    &&& self.inner().chosen_models().len() == 1
                },
                Err(SettingsExtensionError::ModelVersionCollision { version }) => exists|j: int|
                    #[trigger] first_collision(versions_of(self.inner().chosen_models()), j)
                        && version@ == self.inner().chosen_models()[j].version(),
                Err(SettingsExtensionError::MigrationValidation { source }) => all_distinct(
                    versions_of(self.inner().chosen_models()),
                ) && self.inner().chosen_models().len() != 1 && source
                    == NullMigratorError::TooManyModelVersions,
                Err(_) => false,
            },
    {
        assert(self.inner().chosen_migrator() == NullMigrator);
        self.0.build()
    }
}

} // verus!
