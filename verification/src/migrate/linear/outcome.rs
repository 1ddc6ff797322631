//! What a migration may return. A model's own migrations and its serializer are the model's
//! business: the contracts of the linear migrator say which of them are called, with what,
//! and what is made of whatever they return.
use super::chain::{index_of, step};
use super::erased::{table_of, TypeErasedLinearlyMigrateable};
use super::error::{LinearMigratorError, LinearMigratorFault};
use super::route::{route, steps_of, trail};
use super::MigrationDirection;
use crate::migrate::{entries, sorts, MigrationResult};

use vstd::prelude::*;

verus! {

/// Whether `out` is something that the model's `migrate` may return for this value and
/// direction.
pub open spec fn migrate_returns<M: TypeErasedLinearlyMigrateable>(
    model: M,
    value: M::Value,
    direction: MigrationDirection,
    out: Result<M::Value, LinearMigratorError>,
) -> bool {
    call_ensures(M::migrate, (&model, &value, direction), out)
}

/// Whether `out` is something that the model's `serialize` may return for this value.
pub open spec fn serialize_returns<M: TypeErasedLinearlyMigrateable>(
    model: M,
    value: M::Value,
    out: Result<serde_json::Value, LinearMigratorError>,
) -> bool {
    call_ensures(M::serialize, (&model, &value), out)
}

/// Whether `out` may come of carrying `value`, a value of the model at `at`, along the
/// migrations `steps`: the model that the value has reached with the value it has become, or
/// the error that ended the way. Each step asks the model reached so far for its neighbour
/// in the step's direction, and hands the value to that model's `migrate`. The first error
/// of a `migrate` ends the way; so does a model without a neighbour, which is a
/// `NoDefinedMigration`.
pub open spec fn carried<M: TypeErasedLinearlyMigrateable>(
    models: Seq<M>,
    at: int,
    value: M::Value,
    steps: Seq<MigrationDirection>,
    out: Result<(int, M::Value), LinearMigratorError>,
) -> bool
    decreases steps.len(),
{
    if steps.len() == 0 {
        out == Ok::<(int, M::Value), LinearMigratorError>((at, value))
    } else {
        match step(table_of(models), at, steps[0]) {
            None => out matches Err(e) && e@ == (LinearMigratorFault::NoDefinedMigration {
                direction: steps[0],
                version: models[at].version(),
            }),
            Some(next) => exists|o: Result<M::Value, LinearMigratorError>| #[trigger]
                migrate_returns(models[at], value, steps[0], o) && match o {
                    Ok(migrated) => carried(models, next, migrated, steps.drop_first(), out),
                    Err(e) => out == Err::<(int, M::Value), LinearMigratorError>(e),
                },
        }
    }
}

/// Whether `out` may come of migrating `value` from the version `start` to the version
/// `target`. Where no model has the starting version, it is `NoSuchModel`; where no route
/// leads to the target, `NoMigrationRoute`. Else the value is carried along the route, and
/// what it has become is handed to the `serialize` of the model it has reached.
pub open spec fn migrated<M: TypeErasedLinearlyMigrateable>(
    models: Seq<M>,
    value: M::Value,
    start: Seq<char>,
    target: Seq<char>,
    out: Result<serde_json::Value, LinearMigratorError>,
) -> bool {
    match index_of(table_of(models), start) {
        None => out matches Err(e) && e@ == (LinearMigratorFault::NoSuchModel { version: start }),
        Some(from) => match steps_of(route(table_of(models), start, target)) {
            None => out matches Err(e) && e@ == (LinearMigratorFault::NoMigrationRoute {
                starting_version: start,
                target_version: target,
            }),
            Some(steps) => exists|reached: Result<(int, M::Value), LinearMigratorError>| #[trigger]
                carried(models, from, value, steps, reached) && match reached {
                    Ok((at, migrated)) => serialize_returns(models[at], migrated, out),
                    Err(e) => out == Err::<serde_json::Value, LinearMigratorError>(e),
                },
        },
    }
}

/// The results of a walk: the result `first` followed by the results `rest`, or the error
/// that came in place of the latter.
pub open spec fn after(
    first: Seq<(Seq<char>, serde_json::Value)>,
    rest: Result<Seq<(Seq<char>, serde_json::Value)>, LinearMigratorError>,
) -> Result<Seq<(Seq<char>, serde_json::Value)>, LinearMigratorError> {
    match rest {
        Ok(list) => Ok(first + list),
        Err(e) => Err(e),
    }
}

/// Whether `out` may come of walking a value of the first model of `path` along the path:
/// the results for the models after the first, in the path's order, or the error that ended
/// the walk. At each step the model reached so far migrates the value in `direction`, and
/// the next model of the path serializes what the value has become. The first error of a
/// `migrate` or a `serialize` ends the walk.
pub open spec fn flooded<M: TypeErasedLinearlyMigrateable>(
    models: Seq<M>,
    path: Seq<int>,
    value: M::Value,
    direction: MigrationDirection,
    out: Result<Seq<(Seq<char>, serde_json::Value)>, LinearMigratorError>,
) -> bool
    decreases path.len(),
{
    if path.len() <= 1 {
        out == Ok::<Seq<(Seq<char>, serde_json::Value)>, LinearMigratorError>(Seq::empty())
    } else {
        exists|o: Result<M::Value, LinearMigratorError>| #[trigger]
            migrate_returns(models[path[0]], value, direction, o) && match o {
                Err(e) => out == Err::<Seq<(Seq<char>, serde_json::Value)>, LinearMigratorError>(
                    e,
                ),
                Ok(migrated) => exists|s: Result<serde_json::Value, LinearMigratorError>| #[trigger]
                    serialize_returns(models[path[1]], migrated, s) && match s {
                        Err(e) => out == Err::<
                            Seq<(Seq<char>, serde_json::Value)>,
                            LinearMigratorError,
                        >(e),
                        Ok(written) => match out {
                            Ok(list) => list.len() > 0 && list[0] == (
                                models[path[1]].version(),
                                written,
                            ) && flooded(
                                models,
                                path.drop_first(),
                                migrated,
                                direction,
                                Ok(list.drop_first()),
                            ),
                            Err(e) => flooded(models, path.drop_first(), migrated, direction, Err(e)),
                        },
                    },
            }
    }
}

/// Whether `out` may come of migrating `value`, a value of the version `start`, to every
/// version. Where no model has the starting version, it is `NoSuchModel`. Else the starting
/// model serializes the value, the value is walked forward along the chain to its end, and
/// then walked backward from the starting model; the first error on the way is returned. If
/// there is none, the results are returned in the order of their versions.
pub open spec fn flood<M: TypeErasedLinearlyMigrateable>(
    models: Seq<M>,
    value: M::Value,
    start: Seq<char>,
    out: Result<Vec<MigrationResult>, LinearMigratorError>,
) -> bool {
    let table = table_of(models);
    match index_of(table, start) {
        None => out matches Err(e) && e@ == (LinearMigratorFault::NoSuchModel { version: start }),
        Some(from) => exists|first: Result<serde_json::Value, LinearMigratorError>| #[trigger]
            serialize_returns(models[from], value, first) && match first {
                Err(e) => out == Err::<Vec<MigrationResult>, LinearMigratorError>(e),
                Ok(written) => exists|
                    ahead: Result<Seq<(Seq<char>, serde_json::Value)>, LinearMigratorError>,
                | #[trigger]
                    flooded(
                        models,
                        trail(table, from, MigrationDirection::Forward),
                        value,
                        MigrationDirection::Forward,
                        ahead,
                    ) && match ahead {
                        Err(e) => out == Err::<Vec<MigrationResult>, LinearMigratorError>(e),
                        Ok(forward) => exists|
                            behind: Result<Seq<(Seq<char>, serde_json::Value)>, LinearMigratorError>,
                        | #[trigger]
                            flooded(
                                models,
                                trail(table, from, MigrationDirection::Backward),
                                value,
                                MigrationDirection::Backward,
                                behind,
                            ) && match behind {
                                Err(e) => out == Err::<Vec<MigrationResult>, LinearMigratorError>(e),
                                Ok(backward) => out matches Ok(results) && sorts(
                                    entries(results@),
                                    seq![(models[from].version(), written)] + forward + backward,
                                ),
                            },
                    },
            },
    }
}

} // verus!
