//! The interface through which the linear migrator deals with the models of a chain.
use super::chain::{index_of, Links};
use super::error::{optional_view, LinearMigratorError, LinearMigratorFault};
use super::interface::LinearlyMigrateable;
use super::MigrationDirection;
use crate::model::erased::{position, versions_of, TypeErasedModel};
use crate::model::BottlerocketSetting;
use vstd::prelude::*;

verus! {

/// A settings model that has a place in a linear migration chain.
pub trait TypeErasedLinearlyMigrateable: TypeErasedModel {
    /// The model version that this model migrates to in a given direction.
    spec fn target(&self, direction: MigrationDirection) -> Option<Seq<char>>;

    /// Returns the model version that this model migrates to in a given direction.
    fn migrates_to(&self, direction: MigrationDirection) -> (to: Option<String>)
        ensures
            optional_view(to) == self.target(direction),
    ;

    /// Accepts a settings value of this model and migrates it in the given direction.
    fn migrate(&self, current: &Self::Value, direction: MigrationDirection) -> Result<
        Self::Value,
        LinearMigratorError,
    >;

    /// Serializes a settings value of this model.
    fn serialize(&self, current: &Self::Value) -> Result<serde_json::Value, LinearMigratorError>;
}

/// Makes an owned string of a version that may be absent.
fn owned(version: Option<&'static str>) -> (r: Option<String>)
    ensures
        match version {
            Some(v) => r matches Some(s) && s@ == v@,
            None => r is None,
        },
{
    match version {
        Some(v) => Some(v.to_owned()),
        None => None,
    }
}

/// Copies a version that may be absent.
fn copied(version: &Option<String>) -> (r: Option<String>)
    ensures
        optional_view(r) == optional_view(*version),
{
    match version {
        Some(v) => Some(v.clone()),
        None => None,
    }
}

/// Whether `out` is something that the model's own migration of `value` in `direction` may
/// return.
pub open spec fn submigration_returns<T: LinearlyMigrateable>(
    model: T,
    value: T::Value,
    direction: MigrationDirection,
    out: Result<T::Value, T::ErrorKind>,
) -> bool {
    match direction {
        MigrationDirection::Forward => call_ensures(T::migrate_forward, (&model, &value), out),
        MigrationDirection::Backward => call_ensures(T::migrate_backward, (&model, &value), out),
    }
}

/// What a model's `migrate` makes of what its own migration returned: the migrated value, or
/// a `SubMigration` error that says from which version to which the migration failed, and
/// that holds, as `source`, what the model said of its error.
pub open spec fn wraps_submigration<T: LinearlyMigrateable>(
    model: T,
    from_version: Seq<char>,
    to_version: Seq<char>,
    direction: MigrationDirection,
    returned: Result<T::Value, T::ErrorKind>,
    out: Result<T::Value, LinearMigratorError>,
) -> bool {
    match returned {
        Ok(migrated) => out == Ok::<T::Value, LinearMigratorError>(migrated),
        Err(e) => out matches Err(LinearMigratorError::SubMigration { source, .. }) && call_ensures(
            T::describe,
            (&model, &e),
            source,
        ) && out->Err_0@ == (LinearMigratorFault::SubMigration {
            from_version,
            to_version,
            direction,
            source: source@,
        }),
    }
}

impl<T: LinearlyMigrateable> BottlerocketSetting<T> {
    /// Wraps a settings model that has a place in a linear migration chain.
    pub fn linear_model(model: T) -> (r: Self)
        ensures
            r.inner() == model,
            exists|version: &'static str| #[trigger]
                call_ensures(T::get_version, (&model,), version) && r.version() == version@,
            exists|to: Option<&'static str>| #[trigger]
                call_ensures(T::migrates_forward_to, (&model,), to) && r.target(
                    MigrationDirection::Forward,
                ) == match to {
                    Some(v) => Some(v@),
                    None => None,
                },
            exists|to: Option<&'static str>| #[trigger]
                call_ensures(T::migrates_backward_to, (&model,), to) && r.target(
                    MigrationDirection::Backward,
                ) == match to {
                    Some(v) => Some(v@),
                    None => None,
                },
    {
        let version = model.get_version().to_owned();
        let forward = owned(model.migrates_forward_to());
        let backward = owned(model.migrates_backward_to());
        BottlerocketSetting::assemble(version, forward, backward, model)
    }
}

impl<T: LinearlyMigrateable> TypeErasedLinearlyMigrateable for BottlerocketSetting<T> {
    open spec fn target(&self, direction: MigrationDirection) -> Option<Seq<char>> {
        match direction {
            MigrationDirection::Forward => self.forward_link(),
            MigrationDirection::Backward => self.backward_link(),
        }
    }

    fn migrates_to(&self, direction: MigrationDirection) -> (to: Option<String>) {
        match direction {
            MigrationDirection::Backward => copied(self.backward()),
            MigrationDirection::Forward => copied(self.forward()),
        }
    }

    /// Accepts a settings value and migrates it in the given direction.
    ///
    /// A value that is not of this model's version is refused with `DowncastSetting`. Where
    /// the model defines no migration in the direction, the error is `NoDefinedMigration`.
    /// Else the model's own migration is called, and an error of it is returned as a
    /// `SubMigration`.
    fn migrate(&self, current: &T::Value, direction: MigrationDirection) -> (r: Result<
        T::Value,
        LinearMigratorError,
    >)
        ensures
            exists|held: bool| #[trigger]
                call_ensures(T::holds, (&self.inner(), current), held) && if !held {
                    r matches Err(e) && e@ == (LinearMigratorFault::DowncastSetting {
                        version: self.version(),
                    })
                } else {
                    match self.target(direction) {
                        None => r matches Err(e) && e@ == (LinearMigratorFault::NoDefinedMigration {
                            direction,
                            version: self.version(),
                        }),
                        Some(to_version) => exists|returned: Result<T::Value, T::ErrorKind>|
                            #[trigger] submigration_returns(
                                self.inner(),
                                *current,
                                direction,
                                returned,
                            ) && wraps_submigration(
                                self.inner(),
                                self.version(),
                                to_version,
                                direction,
                                returned,
                                r,
                            ),
                    }
                },
    {
        let model = self.wrapped();
        let held = model.holds(current);
        assert(call_ensures(T::holds, (&self.inner(), current), held));
        if !held {
            return Err(LinearMigratorError::DowncastSetting { version: self.own().clone() });
        }
        let to = match direction {
            MigrationDirection::Backward => self.backward(),
            MigrationDirection::Forward => self.forward(),
        };
        let to_version = match to {
            Some(version) => version.clone(),
            None => {
                return Err(
                    LinearMigratorError::NoDefinedMigration {
                        direction,
                        version: self.own().clone(),
                    },
                );
            },
        };
        let returned = match direction {
            MigrationDirection::Backward => model.migrate_backward(current),
            MigrationDirection::Forward => model.migrate_forward(current),
        };
        assert(submigration_returns(self.inner(), *current, direction, returned));
        match returned {
            Ok(migrated) => Ok(migrated),
            Err(e) => {
                let source = model.describe(&e);
                let failed = Err(
                    LinearMigratorError::SubMigration {
                        from_version: self.own().clone(),
                        to_version,
                        direction,
                        source,
                    },
                );
                assert(wraps_submigration(
                    self.inner(),
                    self.version(),
                    self.target(direction)->0,
                    direction,
                    returned,
                    failed,
                ));
                failed
            },
        }
    }

    /// Serializes a settings value.
    ///
    /// A value that is not of this model's version is refused with `DowncastSetting`. An
    /// error of the model's serializer is returned as a `SerializeMigrationResult`.
    fn serialize(&self, current: &T::Value) -> (r: Result<serde_json::Value, LinearMigratorError>)
        ensures
            exists|held: bool| #[trigger]
                call_ensures(T::holds, (&self.inner(), current), held) && if !held {
                    r matches Err(e) && e@ == (LinearMigratorFault::DowncastSetting {
                        version: self.version(),
                    })
                } else {
                    exists|written: Result<serde_json::Value, serde_json::Error>| #[trigger]
                        call_ensures(T::serialize, (&self.inner(), current), written)
                            && match written {
                            Ok(json) => r == Ok::<serde_json::Value, LinearMigratorError>(json),
                            Err(source) => r == Err::<serde_json::Value, LinearMigratorError>(
                                LinearMigratorError::SerializeMigrationResult { source },
                            ),
                        }
                },
    {
        let model = self.wrapped();
        let held = model.holds(current);
        assert(call_ensures(T::holds, (&self.inner(), current), held));
        if !held {
            return Err(LinearMigratorError::DowncastSetting { version: self.own().clone() });
        }
        let written = model.serialize(current);
        assert(call_ensures(T::serialize, (&self.inner(), current), written));
        match written {
            Ok(json) => Ok(json),
            Err(source) => Err(LinearMigratorError::SerializeMigrationResult { source }),
        }
    }
}

/// What a model says of its place in the chain.
pub open spec fn links_of<M: TypeErasedLinearlyMigrateable>(model: M) -> Links {
    Links {
        version: model.version(),
        forward: model.target(MigrationDirection::Forward),
        backward: model.target(MigrationDirection::Backward),
    }
}

/// What the models say of their places in the chain, model by model.
pub open spec fn table_of<M: TypeErasedLinearlyMigrateable>(models: Seq<M>) -> Seq<Links> {
    Seq::new(models.len(), |i: int| links_of(models[i]))
}

/// The table of the models' links says of each model what the model says itself.
pub proof fn lemma_toward<M: TypeErasedLinearlyMigrateable>(
    models: Seq<M>,
    at: int,
    direction: MigrationDirection,
)
    requires
        0 <= at < models.len(),
    ensures
        table_of(models)[at].toward(direction) == models[at].target(direction),
        table_of(models)[at].version == models[at].version(),
{
}

/// A lookup among the models finds the model of which the table of their links says so.
pub proof fn lemma_position_in_table<M: TypeErasedLinearlyMigrateable>(
    models: Seq<M>,
    version: Seq<char>,
)
    ensures
        position(models, version) == index_of(table_of(models), version),
{
    assert(versions_of(models) =~= super::chain::versions_of(table_of(models)));
}

} // verus!
