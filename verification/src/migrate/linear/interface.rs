//! The linear migrator.
use crate::model::SettingsModel;
use vstd::prelude::*;

verus! {

/// A migrator that migrates settings values through a linear chain of migrations, from
/// model to model.
///
/// For example, consider a settings extension with versions `[v1, v2, v3, v4, ...]`. When
/// tasked with migrating a setting from `v1` to `v3`, the linear migrator will find that it
/// can do this by first migrating from `v1` to `v2`, then from `v2` to `v3`.
#[derive(Debug, Default, Clone, Copy)]
pub struct LinearMigrator;

/// Settings models that implement `LinearlyMigrateable` can be migrated by following a
/// linear chain of migrations along a defined series of versions.
///
/// A model names the version that it migrates forward to and the version that it migrates
/// backward to, if any, and migrates a settings value of its own version to either.
///
/// Invalid migration chains cannot be detected at compile-time; however, a settings extension
/// checks for validity when it is constructed.
pub trait LinearlyMigrateable: SettingsModel {
    /// Returns the version that this model migrates forward to, if any.
    fn migrates_forward_to(&self) -> Option<&'static str>;

    /// Migrates a settings value of this model forward.
    fn migrate_forward(&self, value: &Self::Value) -> Result<Self::Value, Self::ErrorKind>;

    /// Returns the version that this model migrates backward to, if any.
    fn migrates_backward_to(&self) -> Option<&'static str>;

    /// Migrates a settings value of this model backward.
    fn migrate_backward(&self, value: &Self::Value) -> Result<Self::Value, Self::ErrorKind>;
}

} // verus!
