//! Provides the [`SettingsExtension`] struct, which holds the models of a setting together
//! with the migrator that moves settings values between them.
use crate::migrate::{Migrator, ModelStore};
use crate::model::erased::{position, versions_of, TypeErasedModel};
use crate::model::BottlerocketSettingError;
use crate::version::{all_distinct, lemma_first_of, lemma_first_of_is, views};
use vstd::prelude::*;

pub mod builder;
pub mod proto1;

pub use builder::SettingsExtensionBuilder;

verus! {

/// The error type returned when running a settings extension.
#[derive(Debug)]
#[allow(inconsistent_fields)]
pub enum SettingsExtensionError<MigratorError> {
    /// Generate operation failed.
    Generate { source: BottlerocketSettingError },
    /// Migrate operation failed.
    Migrate { source: MigratorError },
    /// The models' migrations are not valid.
    MigrationValidation { source: MigratorError },
    /// The input could not be read as a value of the requested model version.
    ModelParse { setting_version: String, source: BottlerocketSettingError },
    /// Two models have the version `version`.
    ModelVersionCollision { version: String },
    /// No model has the requested version.
    NoSuchModel { setting_version: String },
    /// Set operation failed.
    SetValue { source: BottlerocketSettingError },
    /// Template helper execution failed.
    TemplateHelper { source: BottlerocketSettingError },
    /// Validate operation failed.
    Validate { source: BottlerocketSettingError },
}

/// Whether the version at `j` was met before: whether it collides with an earlier one.
pub open spec fn collides(versions: Seq<Seq<char>>, j: int) -> bool {
    exists|i: int| 0 <= i < j && versions[i] == versions[j]
}

/// Whether `j` is the place of the first version that was met before.
pub open spec fn first_collision(versions: Seq<Seq<char>>, j: int) -> bool {
    &&& 0 <= j < versions.len()
    &&& collides(versions, j)
    &&& forall|k: int| 0 <= k < j ==> !collides(versions, k)
}

/// Models by version: a list of models of which no two have the same version.
pub struct ModelMap<Mo: TypeErasedModel> {
    models: Vec<Mo>,
}

impl<Mo: TypeErasedModel> ModelMap<Mo> {
    #[verifier::type_invariant]
    spec fn distinct(self) -> bool {
        all_distinct(versions_of(self.models@))
    }

    /// The models, in the order in which they were given.
    pub closed spec fn listed(&self) -> Seq<Mo> {
        self.models@
    }

    /// Converts a list of models into a map of version => model while checking for
    /// uniqueness. The error names the version of the first model whose version an earlier
    /// model has too.
    pub fn build_model_map<E>(models: Vec<Mo>) -> (r: Result<Self, SettingsExtensionError<E>>)
        ensures
            match r {
                Ok(map) => map.listed() == models@ && all_distinct(versions_of(models@)),
                Err(e) => e matches SettingsExtensionError::ModelVersionCollision { version }
                    && exists|j: int| #[trigger]
                    first_collision(versions_of(models@), j) && version@ == models@[j].version(),
            },
    {
        let ghost versions = versions_of(models@);
        let mut unique_models: Vec<String> = Vec::new();
        let mut j: usize = 0;
        while j < models.len()
            invariant
                j <= models@.len(),
                versions == versions_of(models@),
                views(unique_models@) == versions.subrange(0, j as int),
                forall|k: int| 0 <= k < j ==> !collides(versions, k),
            decreases models@.len() - j,
        {
            let version = models[j].get_version();
            if crate::version::holds_version(&unique_models, &version) {
                proof {
                    let seen = views(unique_models@);
                    let i = choose|i: int| 0 <= i < seen.len() && seen[i] == version@;
                    assert(versions[i] == versions[j as int]);
                    assert(first_collision(versions, j as int));
                }
                return Err(SettingsExtensionError::ModelVersionCollision { version });
            }
            proof {
                if collides(versions, j as int) {
                    let i = choose|i: int| 0 <= i < j && versions[i] == versions[j as int];
                    assert(views(unique_models@)[i] == version@);
                }
                crate::version::lemma_views_push(unique_models@, version);
                assert(versions.subrange(0, j + 1) =~= versions.subrange(0, j as int).push(version@));
            }
            unique_models.push(version);
            j += 1;
        }
        proof {
            assert forall|a: int, b: int| 0 <= a < b < versions.len() implies versions[a]
                != versions[b] by {
                assert(!collides(versions, b));
            }
        }
        Ok(ModelMap { models })
    }

    /// Takes the models out of the map.
    fn into_models(self) -> (models: Vec<Mo>)
        ensures
            models@ == self.listed(),
            all_distinct(versions_of(models@)),
    {
        proof {
            use_type_invariant(&self);
        }
        self.models
    }
}

impl<Mo: TypeErasedModel> ModelStore for ModelMap<Mo> {
    type ModelKind = Mo;

    open spec fn models(&self) -> Seq<Mo> {
        self.listed()
    }

    fn get_model(&self, version: &str) -> (found: Option<&Mo>) {
        let wanted = version.to_owned();
        let mut i: usize = 0;
        while i < self.models.len()
            invariant
                i <= self.models@.len(),
                wanted@ == version@,
                forall|j: int| 0 <= j < i ==> versions_of(self.models@)[j] != version@,
            decreases self.models@.len() - i,
        {
            if self.models[i].get_version() == wanted {
                proof {
                    lemma_first_of_is(versions_of(self.models@), version@, i as int);
                }
                return Some(&self.models[i]);
            }
            i += 1;
        }
        proof {
            lemma_first_of(versions_of(self.models@), version@);
        }
        None
    }

    fn len(&self) -> (n: usize) {
        self.models.len()
    }

    fn model_at(&self, i: usize) -> (model: &Mo) {
        &self.models[i]
    }
}

/// A settings extension holds the models of the versions of a setting, by version, and the
/// migrator that moves settings values between them. Its models are validated by its
/// migrator when it is constructed, and are not changed after that.
pub struct SettingsExtension<Mi: Migrator<Mo>, Mo: TypeErasedModel> {
    name: &'static str,
    models: ModelMap<Mo>,
    migrator: Mi,
}

impl<Mi: Migrator<Mo>, Mo: TypeErasedModel> SettingsExtension<Mi, Mo> {
    #[verifier::type_invariant]
    spec fn validated(self) -> bool {
        self.migrator.accepts(self.models.listed())
    }

    /// The name of the extension.
    pub closed spec fn extension_name(&self) -> &'static str {
        self.name
    }

    /// The migrator of the extension.
    pub closed spec fn extension_migrator(&self) -> Mi {
        self.migrator
    }

    /// Creates a new [`SettingsExtension`].
    ///
    /// Returns an error if the given models have a version naming collision, or if the
    /// migrator does not validate them.
    pub fn new(name: &'static str, models: Vec<Mo>, migrator: Mi) -> (r: Result<
        Self,
        SettingsExtensionError<Mi::ErrorKind>,
    >)
        ensures
            match r {
                Ok(extension) => {
                    &&& extension.models() == models@
                    &&& extension.extension_name() == name
                    &&& extension.extension_migrator() == migrator
                    &&& all_distinct(versions_of(models@))
                    &&& migrator.accepts(models@)
                },
                Err(SettingsExtensionError::ModelVersionCollision { version }) => exists|j: int|
                    #[trigger] first_collision(versions_of(models@), j) && version@
                        == models@[j].version(),
                Err(SettingsExtensionError::MigrationValidation { source }) => all_distinct(
                    versions_of(models@),
                ) && !migrator.accepts(models@) && migrator.validation_returns(
                    models@,
                    Err(source),
                ),
                Err(_) => false,
            },
    {
        let models = match ModelMap::build_model_map::<Mi::ErrorKind>(models) {
            Ok(map) => map,
            Err(e) => {
                return Err(e);
            },
        };
        match migrator.validate_migrations(&models) {
            Ok(()) => {},
            Err(source) => {
                proof {
                    use_type_invariant(&models);
                }
                return Err(SettingsExtensionError::MigrationValidation { source });
            },
        }
        proof {
            use_type_invariant(&models);
        }
        Ok(SettingsExtension { name, models, migrator })
    }

    /// Returns the name of the extension.
    pub fn name(&self) -> (name: &'static str)
        ensures
            name == self.extension_name(),
    {
        self.name
    }

    /// Returns a settings model with the given version.
    pub fn model(&self, version: &str) -> (found: Option<&Mo>)
        ensures
            match position(self.models(), version@) {
                Some(i) => found == Some(&self.models()[i]),
                None => found is None,
            },
    {
        self.models.get_model(version)
    }

    /// Returns all stored models, each with its version, with no guaranteed order. No two
    /// of them have the same version.
    pub fn iter_models(&self) -> (all: Vec<(String, &Mo)>)
        ensures
            all_distinct(versions_of(self.models())),
            all@.len() == self.models().len(),
            forall|i: int|
                0 <= i < all@.len() ==> (#[trigger] all@[i]).0@ == self.models()[i].version()
                    && *all@[i].1 == self.models()[i],
    {
        proof {
            use_type_invariant(&self.models);
        }
        let mut all: Vec<(String, &Mo)> = Vec::new();
        let mut i: usize = 0;
        while i < self.models.len()
            invariant
                i <= self.models().len(),
                all@.len() == i,
                forall|k: int|
                    0 <= k < i ==> (#[trigger] all@[k]).0@ == self.models()[k].version()
                        && *all@[k].1 == self.models()[k],
            decreases self.models().len() - i,
        {
            let model = self.models.model_at(i);
            all.push((model.get_version(), model));
            i += 1;
        }
        all
    }

    /// Returns the migrator of the extension.
    pub fn migrator(&self) -> (migrator: &Mi)
        ensures
            *migrator == self.extension_migrator(),
            migrator.accepts(self.models()),
    {
        proof {
            use_type_invariant(self);
        }
        &self.migrator
    }
}

impl<Mi: Migrator<Mo>, Mo: TypeErasedModel> ModelStore for SettingsExtension<Mi, Mo> {
    type ModelKind = Mo;

    closed spec fn models(&self) -> Seq<Mo> {
        self.models.listed()
    }

    fn get_model(&self, version: &str) -> (found: Option<&Mo>) {
        self.model(version)
    }

    fn len(&self) -> (n: usize) {
        self.models.len()
    }

    fn model_at(&self, i: usize) -> (model: &Mo) {
        self.models.model_at(i)
    }
}

} // verus!
