//! The errors of the linear migrator.
use super::chain::ChainDefect;
use super::MigrationDirection;
use crate::version::{lists_sorted, views};
use vstd::prelude::*;

verus! {

/// Error type returned by the linear migrator.
#[derive(Debug)]
#[allow(inconsistent_fields)]
pub enum LinearMigratorError {
    /// The models form more than one chain: some versions cannot be reached from the others.
    /// Both lists are sorted.
    DisjointMigrationChain { unreachable_versions: Vec<String>, visited_versions: Vec<String> },
    /// A settings value was handed to a model of another version than its own.
    DowncastSetting { version: String },
    /// `lhs_version` migrates in `direction` to `fulcrum`, which migrates back to
    /// `rhs_version` and not to `lhs_version`.
    IrreversibleMigrationChain {
        lhs_version: String,
        fulcrum: String,
        rhs_version: Option<String>,
        direction: MigrationDirection,
    },
    /// Following the migrations leads back to `version`.
    MigrationLoop { version: String },
    /// The model of `version` defines no migration in `direction`.
    NoDefinedMigration { direction: MigrationDirection, version: String },
    /// No chain of migrations leads from `starting_version` to `target_version`.
    NoMigrationRoute { starting_version: String, target_version: String },
    /// No model has the version `version`.
    NoSuchModel { version: String },
    /// A migrated value could not be written as JSON.
    SerializeMigrationResult { source: serde_json::Error },
    /// The migration of a value from `from_version` to `to_version` failed; `source` is what
    /// the model said of it.
    SubMigration {
        from_version: String,
        to_version: String,
        direction: MigrationDirection,
        source: String,
    },
}

/// A `LinearMigratorError` as contracts speak of it, its strings taken as sequences of
/// characters.
#[allow(inconsistent_fields)]
pub enum LinearMigratorFault {
    DisjointMigrationChain {
        unreachable_versions: Seq<Seq<char>>,
        visited_versions: Seq<Seq<char>>,
    },
    DowncastSetting { version: Seq<char> },
    IrreversibleMigrationChain {
        lhs_version: Seq<char>,
        fulcrum: Seq<char>,
        rhs_version: Option<Seq<char>>,
        direction: MigrationDirection,
    },
    MigrationLoop { version: Seq<char> },
    NoDefinedMigration { direction: MigrationDirection, version: Seq<char> },
    NoMigrationRoute { starting_version: Seq<char>, target_version: Seq<char> },
    NoSuchModel { version: Seq<char> },
    SerializeMigrationResult { source: serde_json::Error },
    SubMigration {
        from_version: Seq<char>,
        to_version: Seq<char>,
        direction: MigrationDirection,
        source: Seq<char>,
    },
}

/// The view of a version that may be absent.
pub open spec fn optional_view(version: Option<String>) -> Option<Seq<char>> {
    match version {
        Some(v) => Some(v@),
        None => None,
    }
}

impl View for LinearMigratorError {
    type V = LinearMigratorFault;

    open spec fn view(&self) -> LinearMigratorFault {
        match *self {
            LinearMigratorError::DisjointMigrationChain { unreachable_versions, visited_versions } => {
                LinearMigratorFault::DisjointMigrationChain {
                    unreachable_versions: views(unreachable_versions@),
                    visited_versions: views(visited_versions@),
                }
            },
            LinearMigratorError::DowncastSetting { version } => LinearMigratorFault::DowncastSetting {
                version: version@,
            },
            LinearMigratorError::IrreversibleMigrationChain {
                lhs_version,
                fulcrum,
                rhs_version,
                direction,
            } => LinearMigratorFault::IrreversibleMigrationChain {
                lhs_version: lhs_version@,
                fulcrum: fulcrum@,
                rhs_version: optional_view(rhs_version),
                direction,
            },
            LinearMigratorError::MigrationLoop { version } => LinearMigratorFault::MigrationLoop {
                version: version@,
            },
            LinearMigratorError::NoDefinedMigration { direction, version } => {
                LinearMigratorFault::NoDefinedMigration { direction, version: version@ }
            },
            LinearMigratorError::NoMigrationRoute { starting_version, target_version } => {
                LinearMigratorFault::NoMigrationRoute {
                    starting_version: starting_version@,
                    target_version: target_version@,
                }
            },
            LinearMigratorError::NoSuchModel { version } => LinearMigratorFault::NoSuchModel {
                version: version@,
            },
            LinearMigratorError::SerializeMigrationResult { source } => {
                LinearMigratorFault::SerializeMigrationResult { source }
            },
            LinearMigratorError::SubMigration { from_version, to_version, direction, source } => {
                LinearMigratorFault::SubMigration {
                    from_version: from_version@,
                    to_version: to_version@,
                    direction,
                    source: source@,
                }
            },
        }
    }
}

/// Whether the error `fault` reports the defect `found` of a chain: it names the same
/// versions, and lists sets of versions in ascending order.
pub open spec fn reports(fault: LinearMigratorFault, found: ChainDefect) -> bool {
    match found {
        ChainDefect::Loop { version } => fault == (LinearMigratorFault::MigrationLoop { version }),
        ChainDefect::Irreversible { lhs_version, fulcrum, rhs_version, direction } => fault == (
        LinearMigratorFault::IrreversibleMigrationChain {
            lhs_version,
            fulcrum,
            rhs_version,
            direction,
        }),
        ChainDefect::Disjoint { unreachable, visited } => {
            &&& fault matches LinearMigratorFault::DisjointMigrationChain {
                unreachable_versions,
                visited_versions,
            }
            &&& lists_sorted(unreachable_versions, unreachable)
            &&& lists_sorted(visited_versions, visited)
        },
    }
}

} // verus!
