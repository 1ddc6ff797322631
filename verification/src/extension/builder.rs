//! Provides a [`SettingsExtensionBuilder`] used to construct [`SettingsExtension`]s.
use super::{first_collision, SettingsExtension, SettingsExtensionError};
use crate::migrate::{Migrator, ModelStore};
use crate::model::erased::{versions_of, TypeErasedModel};
use crate::version::all_distinct;
use vstd::prelude::*;

verus! {

/// A builder which can construct a [`SettingsExtension`].
pub struct SettingsExtensionBuilder<Mi: Migrator<Mo>, Mo: TypeErasedModel> {
    name: &'static str,
    models: Option<Vec<Mo>>,
    migrator: Mi,
}

impl<Mi: Migrator<Mo>, Mo: TypeErasedModel> SettingsExtensionBuilder<Mi, Mo> {
    /// The name that the extension will have.
    pub closed spec fn chosen_name(&self) -> &'static str {
        self.name
    }

    /// The migrator that the extension will have.
    pub closed spec fn chosen_migrator(&self) -> Mi {
        self.migrator
    }

    /// The models that the extension will have: none unless some were given.
    pub closed spec fn chosen_models(&self) -> Seq<Mo> {
        match self.models {
            Some(models) => models@,
            None => Seq::empty(),
        }
    }

    /// Returns a new [`SettingsExtensionBuilder`] associated with a given [`Migrator`].
    pub fn new(name: &'static str, migrator: Mi) -> (r: Self)
        ensures
            r.chosen_name() == name,
            r.chosen_migrator() == migrator,
            r.chosen_models() == Seq::<Mo>::empty(),
    {
        SettingsExtensionBuilder { name, migrator, models: None }
    }

    /// Set the models for the [`SettingsExtension`].
    pub fn with_models(self, models: Vec<Mo>) -> (r: Self)
        ensures
            r.chosen_name() == self.chosen_name(),
            r.chosen_migrator() == self.chosen_migrator(),
            r.chosen_models() == models@,
    {
        SettingsExtensionBuilder { name: self.name, migrator: self.migrator, models: Some(models) }
    }

    /// Constructs a [`SettingsExtension`] using the configurations supplied to the builder.
    pub fn build(self) -> (r: Result<SettingsExtension<Mi, Mo>, SettingsExtensionError<Mi::ErrorKind>>)
        ensures
            match r {
                Ok(extension) => {
                    &&& extension.models() == self.chosen_models()
                    &&& extension.extension_name() == self.chosen_name()
                    &&& extension.extension_migrator() == self.chosen_migrator()
                    &&& all_distinct(versions_of(self.chosen_models()))
                    &&& self.chosen_migrator().accepts(self.chosen_models())
                },
                Err(SettingsExtensionError::ModelVersionCollision { version }) => exists|j: int|
                    #[trigger] first_collision(versions_of(self.chosen_models()), j) && version@
                        == self.chosen_models()[j].version(),
                Err(SettingsExtensionError::MigrationValidation { source }) => all_distinct(
                    versions_of(self.chosen_models()),
                ) && !self.chosen_migrator().accepts(self.chosen_models())
                    && self.chosen_migrator().validation_returns(
                    self.chosen_models(),
                    Err(source),
                ),
                Err(_) => false,
            },
    {
        let SettingsExtensionBuilder { name, models, migrator } = self;
        let models = match models {
            Some(models) => models,
            None => Vec::new(),
        };
        assert(models@ == self.chosen_models());
        SettingsExtension::new(name, models, migrator)
    }
}

} // verus!
