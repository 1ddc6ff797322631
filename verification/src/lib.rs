//! Building blocks for settings extensions: versioned settings models, and the migration of
//! settings values along a linear chain of model versions.
//!
//! A settings extension holds the models of the versions of one setting, and a migrator. Each
//! model of a linear chain names the version before it and the version after it, and turns a
//! settings value of its own version into one of either. The linear migrator
//!
//! * validates, when the extension is built, that the models form one reversible chain
//!   without loops that includes them all ([`migrate::linear::validator`]),
//! * finds the route from one version to another ([`LinearMigrator::find_migration_route`]),
//! * migrates a value along a route, or to every version ([`Migrator::perform_migration`],
//!   [`Migrator::perform_flood_migrations`]).
//!
//! What the chain is, where its links lead and what a migration may return is defined in
//! [`migrate::linear::chain`], [`migrate::linear::route`] and [`migrate::linear::outcome`];
//! [`migrate::linear::laws`] holds what follows for every chain. What a model does with a
//! value is the model's business: the contracts say which of its functions are called, with
//! what, and what is made of whatever they return.
pub mod cli;
pub mod example;
pub mod extension;
pub mod helper;
pub mod json;
pub mod migrate;
pub mod model;
pub mod version;

pub use extension::SettingsExtension;
pub use helper::{HelperDef, HelperError};
pub use migrate::{
    LinearMigrator, LinearMigratorExtensionBuilder, LinearlyMigrateable, Migrator, NoMigration,
    NullMigrator, NullMigratorExtensionBuilder,
};
pub use model::{BottlerocketSetting, GenerateResult, SettingsModel};
