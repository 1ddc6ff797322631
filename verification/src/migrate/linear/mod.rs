//! The linear migrator, which migrates settings values along one chain of model versions,
//! each linked to the version before it and the version after it.
use crate::migrate::{entries, sort_by_version, MigrationResult, Migrator, ModelStore};
use crate::model::erased::TypeErasedModel;
use crate::version::lists_sorted;
use chain::{
    all_versions, defect, index_of, is_linear_chain, lemma_index_of, lemma_step_in_table, step,
    versions_on,
};
use laws::{lemma_flood_covers_chain, versions_in};
use erased::{lemma_position_in_table, lemma_toward, table_of};
use outcome::{after, carried, flood, flooded, migrate_returns, migrated, serialize_returns};
use route::{follow, hops_to, lemma_follow, route, steps_of, trail};
use vstd::prelude::*;

pub mod chain;
pub mod erased;
pub mod error;
pub mod extensionbuilder;
pub mod interface;
pub mod laws;
pub mod outcome;
pub mod route;
pub mod validator;

pub use erased::TypeErasedLinearlyMigrateable;
pub use error::LinearMigratorError;
pub use extensionbuilder::LinearMigratorExtensionBuilder;
pub use interface::{LinearMigrator, LinearlyMigrateable};

verus! {

/// Represents the direction for a linear migration.
#[derive(Debug, Copy, Clone, PartialEq, Eq, Structural)]
pub enum MigrationDirection {
    /// A migration forward, to a newer version.
    Forward,
    /// A migration backward, to an older version.
    Backward,
}

impl MigrationDirection {
    /// The opposite direction, as contracts speak of it.
    pub open spec fn flipped(self) -> MigrationDirection {
        match self {
            MigrationDirection::Forward => MigrationDirection::Backward,
            MigrationDirection::Backward => MigrationDirection::Forward,
        }
    }

    /// Returns the opposite direction to the current.
    pub fn opposite(self) -> (r: MigrationDirection)
        ensures
            r == self.flipped(),
    {
        match self {
            MigrationDirection::Forward => MigrationDirection::Backward,
            MigrationDirection::Backward => MigrationDirection::Forward,
        }
    }

    /// The direction's name, as it stands in error messages.
    pub fn name(self) -> (r: &'static str)
        ensures
            r@ == self.label(),
    {
        match self {
            MigrationDirection::Forward => "forward",
            MigrationDirection::Backward => "backward",
        }
    }

    /// The name of the direction.
    pub open spec fn label(self) -> Seq<char> {
        match self {
            MigrationDirection::Forward => "forward"@,
            MigrationDirection::Backward => "backward"@,
        }
    }
}

/// Whether the models `met` are the models that `path` names, in the path's order.
pub open spec fn stand_on<M>(met: Seq<&M>, models: Seq<M>, path: Seq<int>) -> bool {
    &&& met.len() == path.len()
    &&& forall|k: int| 0 <= k < met.len() ==> *(#[trigger] met[k]) == models[path[k]]
}

/// Follows the chain of model migrations from the model of a given version in a given
/// direction, and returns the models met, that model first. No model is met where no model
/// has the starting version.
pub fn migration_iter<'a, S>(
    models: &'a S,
    starting_version: &str,
    direction: MigrationDirection,
) -> (met: Vec<&'a S::ModelKind>) where S: ModelStore, S::ModelKind: TypeErasedLinearlyMigrateable
    ensures
        match index_of(table_of(models.models()), starting_version@) {
            Some(start) => stand_on(
                met@,
                models.models(),
                trail(table_of(models.models()), start, direction),
            ),
            None => met@.len() == 0,
        },
{
    let ghost table = table_of(models.models());
    let mut met: Vec<&'a S::ModelKind> = Vec::new();
    proof {
        lemma_position_in_table(models.models(), starting_version@);
        lemma_index_of(table, starting_version@);
    }
    let mut current = match models.get_model(starting_version) {
        Some(model) => model,
        None => {
            return met;
        },
    };
    let ghost start = index_of(table, starting_version@)->0;
    let ghost mut path = seq![start];
    met.push(current);
    let mut left: usize = models.len();
    while left > 0
        invariant
            table == table_of(models.models()),
            left <= table.len(),
            path.len() > 0,
            forall|k: int| 0 <= k < path.len() ==> 0 <= #[trigger] path[k] < table.len(),
            stand_on(met@, models.models(), path),
            *current == models.models()[path.last()],
            index_of(table, starting_version@) == Some(start),
            trail(table, start, direction) == follow(table, path, direction, left as nat),
        decreases left,
    {
        let to = current.migrates_to(direction);
        proof {
            lemma_toward(models.models(), path.last(), direction);
        }
        let next_version = match to {
            Some(version) => version,
            None => {
                return met;
            },
        };
        proof {
            lemma_position_in_table(models.models(), next_version@);
            lemma_step_in_table(table, path.last(), direction);
        }
        let next_model = match models.get_model(next_version.as_str()) {
            Some(model) => model,
            None => {
                return met;
            },
        };
        proof {
            path = path.push(step(table, path.last(), direction)->0);
        }
        met.push(next_model);
        current = next_model;
        left -= 1;
    }
    met
}

/// Counts the migrations in the given direction that lead from the model of
/// `starting_version` to the nearest model of `target_version`.
pub fn search_in_direction<S>(
    models: &S,
    starting_version: &str,
    target_version: &str,
    direction: MigrationDirection,
) -> (found: Option<usize>) where S: ModelStore, S::ModelKind: TypeErasedLinearlyMigrateable
    ensures
        match index_of(table_of(models.models()), starting_version@) {
            Some(start) => match hops_to(
                table_of(models.models()),
                start,
                direction,
                target_version@,
            ) {
                Some(hops) => found matches Some(count) && count == hops,
                None => found is None,
            },
            None => found is None,
        },
{
    let ghost table = table_of(models.models());
    let met = migration_iter(models, starting_version, direction);
    let target = target_version.to_owned();
    let ghost start = index_of(table, starting_version@);
    let ghost path = trail(
        table,
        match start {
            Some(from) => from,
            None => 0,
        },
        direction,
    );
    let ghost way = versions_on(table, path);
    proof {
        if start is Some {
            lemma_index_of(table, starting_version@);
            lemma_follow(table, seq![start->0], direction, table.len());
        }
    }
    let mut ndx: usize = 0;
    while ndx < met.len()
        invariant
            ndx <= met@.len(),
            table == table_of(models.models()),
            target@ == target_version@,
            way == versions_on(table, path),
            start == index_of(table, starting_version@),
            start matches Some(from) ==> path == trail(table, from, direction),
            start is None ==> met@.len() == 0,
            start is Some ==> stand_on(met@, models.models(), path) && path.len() <= table.len() + 1,
            start is Some ==> forall|k: int|
                0 <= k < path.len() ==> 0 <= #[trigger] path[k] < table.len(),
            forall|k: int| 0 <= k < ndx ==> way[k] != target@,
        decreases met@.len() - ndx,
    {
        let version = met[ndx].get_version();
        proof {
            assert(*met@[ndx as int] == models.models()[path[ndx as int]]);
            lemma_toward(models.models(), path[ndx as int], direction);
            assert(way[ndx as int] == version@);
        }
        if version == target {
            proof {
                crate::version::lemma_first_of_is(way, target@, ndx as int);
            }
            return Some(ndx);
        }
        ndx += 1;
    }
    proof {
        crate::version::lemma_first_of(way, target@);
    }
    None
}

impl LinearMigrator {
    /// Returns the migrations to be performed to transform data from a starting version to a
    /// target version, one direction for each migration, or `None` where no migrations lead
    /// from the one to the other.
    pub fn find_migration_route<S>(
        &self,
        all_models: &S,
        starting_version: &str,
        target_version: &str,
    ) -> (found: Option<Vec<MigrationDirection>>) where
        S: ModelStore,
        S::ModelKind: TypeErasedLinearlyMigrateable,

        ensures
            match steps_of(route(table_of(all_models.models()), starting_version@, target_version@)) {
                Some(steps) => found matches Some(migrations) && migrations@ == steps,
                None => found is None,
            },
    {
        let ghost table = table_of(all_models.models());
        if starting_version.to_owned() == target_version.to_owned() {
            // 0 hops required for "identity" migration
            let migrations: Vec<MigrationDirection> = Vec::new();
            assert(migrations@ =~= steps_of(route(table, starting_version@, target_version@))->0);
            return Some(migrations);
        }
        let (num_hops, direction) = match search_in_direction(
            all_models,
            starting_version,
            target_version,
            MigrationDirection::Forward,
        ) {
            Some(hops) => (hops, MigrationDirection::Forward),
            None => match search_in_direction(
                all_models,
                starting_version,
                target_version,
                MigrationDirection::Backward,
            ) {
                Some(hops) => (hops, MigrationDirection::Backward),
                None => {
                    return None;
                },
            },
        };
        assert(route(table, starting_version@, target_version@) == Some(
            (num_hops as nat, direction),
        ));
        let mut migrations: Vec<MigrationDirection> = Vec::new();
        let mut hop: usize = 0;
        while hop < num_hops
            invariant
                hop <= num_hops,
                migrations@ == Seq::new(hop as nat, |i: int| direction),
                route(table, starting_version@, target_version@) == Some(
                    (num_hops as nat, direction),
                ),
            decreases num_hops - hop,
        {
            migrations.push(direction);
            hop += 1;
            assert(migrations@ =~= Seq::new(hop as nat, |i: int| direction));
        }
        assert(migrations@ =~= steps_of(route(table, starting_version@, target_version@))->0);
        Some(migrations)
    }
}

/// Carries a value of the model `starting_model` along the migrations of `route`, and returns
/// what the value has become with the model that it has reached.
fn follow_route<'a, S>(
    models: &'a S,
    starting_model: &'a S::ModelKind,
    Ghost(start): Ghost<int>,
    starting_value: <S::ModelKind as TypeErasedModel>::Value,
    route: &Vec<MigrationDirection>,
) -> (r: Result<
    (<S::ModelKind as TypeErasedModel>::Value, &'a S::ModelKind),
    LinearMigratorError,
>) where S: ModelStore, S::ModelKind: TypeErasedLinearlyMigrateable
    requires
        0 <= start < models.models().len(),
        *starting_model == models.models()[start],
    ensures
        match r {
            Ok((value, model)) => exists|at: int|
                0 <= at < models.models().len() && *model == models.models()[at] && #[trigger] carried(
                    models.models(),
                    start,
                    starting_value,
                    route@,
                    Ok((at, value)),
                ),
            Err(e) => carried(models.models(), start, starting_value, route@, Err(e)),
        },
{
    let ghost all = models.models();
    let ghost table = table_of(all);
    let ghost mut at = start;
    let mut current = starting_model;
    let mut value = starting_value;
    let mut i: usize = 0;
    proof {
        assert(route@.subrange(0, route@.len() as int) =~= route@);
    }
    while i < route.len()
        invariant
            i <= route@.len(),
            all == models.models(),
            table == table_of(all),
            0 <= at < all.len(),
            *current == all[at],
            forall|out: Result<(int, <S::ModelKind as TypeErasedModel>::Value), LinearMigratorError>|
                #[trigger] carried(all, at, value, route@.subrange(i as int, route@.len() as int), out)
                    ==> carried(all, start, starting_value, route@, out),
        decreases route@.len() - i,
    {
        let ghost steps = route@.subrange(i as int, route@.len() as int);
        let direction = route[i];
        assert(steps[0] == direction);
        let to = current.migrates_to(direction);
        proof {
            lemma_toward(all, at, direction);
            lemma_step_in_table(table, at, direction);
        }
        let found = match to {
            Some(next_version) => {
                proof {
                    lemma_position_in_table(all, next_version@);
                }
                models.get_model(next_version.as_str())
            },
            None => None,
        };
        let next_model = match found {
            Some(model) => model,
            None => {
                let e = LinearMigratorError::NoDefinedMigration {
                    direction,
                    version: current.get_version(),
                };
                proof {
                    assert(step(table, at, direction) is None);
                    assert(carried(all, at, value, steps, Err(e)));
                }
                return Err(e);
            },
        };
        let ghost next = step(table, at, direction)->0;
        let migrated = current.migrate(&value, direction);
        assert(migrate_returns(all[at], value, direction, migrated));
        match migrated {
            Ok(next_value) => {
                proof {
                    let rest = route@.subrange(i + 1, route@.len() as int);
                    assert(steps.drop_first() =~= rest);
                    assert forall|
                        out: Result<
                            (int, <S::ModelKind as TypeErasedModel>::Value),
                            LinearMigratorError,
                        >,
                    | #[trigger] carried(all, next, next_value, rest, out) implies carried(
                        all,
                        start,
                        starting_value,
                        route@,
                        out,
                    ) by {
                        assert(carried(all, at, value, steps, out));
                    }
                    at = next;
                }
                value = next_value;
                current = next_model;
                i += 1;
            },
            Err(e) => {
                proof {
                    assert(carried(all, at, value, steps, Err(e)));
                }
                return Err(e);
            },
        }
    }
    proof {
        let reached = Ok::<
            (int, <S::ModelKind as TypeErasedModel>::Value),
            LinearMigratorError,
        >((at, value));
        assert(carried(all, at, value, route@.subrange(i as int, route@.len() as int), reached));
        assert(carried(models.models(), start, starting_value, route@, reached));
        assert(exists|k: int|
            0 <= k < models.models().len() && *current == models.models()[k] && #[trigger] carried(
                models.models(),
                start,
                starting_value,
                route@,
                Ok((k, value)),
            ));
    }
    let reached = Ok((value, current));
    assert(reached matches Ok((v, m)) && v == value && m == current);
    reached
}

/// Performs all migrations in a direction from the model of `starting_version`, pushing a
/// result for every model met after that model.
fn flood_migrate<S>(
    models: &S,
    starting_value: &<S::ModelKind as TypeErasedModel>::Value,
    starting_version: &str,
    direction: MigrationDirection,
    results: &mut Vec<MigrationResult>,
) -> (r: Result<(), LinearMigratorError>) where S: ModelStore, S::ModelKind: TypeErasedLinearlyMigrateable
    requires
        index_of(table_of(models.models()), starting_version@) is Some,
    ensures
        ({
            let table = table_of(models.models());
            let path = trail(table, index_of(table, starting_version@)->0, direction);
            match r {
                Ok(()) => exists|
                    list: Seq<(Seq<char>, serde_json::Value)>,
                |
                    #[trigger] flooded(models.models(), path, *starting_value, direction, Ok(list))
                        && entries(final(results)@) == entries(old(results)@) + list,
                Err(e) => flooded(models.models(), path, *starting_value, direction, Err(e)),
            }
        }),
{
    let ghost all = models.models();
    let ghost table = table_of(all);
    let ghost from = index_of(table, starting_version@)->0;
    let ghost path = trail(table, from, direction);
    let ghost before = entries(results@);
    let met = migration_iter(models, starting_version, direction);
    proof {
        lemma_index_of(table, starting_version@);
        lemma_follow(table, seq![from], direction, table.len());
        assert(path.subrange(0, path.len() as int) =~= path);
        assert(entries(results@) =~= before + Seq::empty());
    }
    let ghost mut done: Seq<(Seq<char>, serde_json::Value)> = Seq::empty();
    let ghost mut held = *starting_value;
    let mut carried_value: Option<<S::ModelKind as TypeErasedModel>::Value> = None;
    let mut k: usize = 1;
    while k < met.len()
        invariant
            1 <= k <= met@.len(),
            all == models.models(),
            table == table_of(all),
            index_of(table, starting_version@) == Some(from),
            path == trail(table, from, direction),
            path.len() >= 1,
            stand_on(met@, all, path),
            forall|j: int| 0 <= j < path.len() ==> 0 <= #[trigger] path[j] < table.len(),
            match carried_value {
                Some(value) => held == value,
                None => held == *starting_value,
            },
            entries(results@) == before + done,
            forall|rest: Result<Seq<(Seq<char>, serde_json::Value)>, LinearMigratorError>|
                #[trigger] flooded(
                    all,
                    path.subrange(k - 1, path.len() as int),
                    held,
                    direction,
                    rest,
                ) ==> flooded(all, path, *starting_value, direction, after(done, rest)),
        decreases met@.len() - k,
    {
        let ghost ahead = path.subrange(k - 1, path.len() as int);
        let curr_model = met[k - 1];
        let next_model = met[k];
        assert(*curr_model == all[ahead[0]]);
        assert(*next_model == all[ahead[1]]);
        let current: &<S::ModelKind as TypeErasedModel>::Value = match &carried_value {
            Some(value) => value,
            None => starting_value,
        };
        let migrated = curr_model.migrate(current, direction);
        assert(migrate_returns(all[ahead[0]], *current, direction, migrated));
        let next_value = match migrated {
            Ok(value) => value,
            Err(e) => {
                proof {
                    let failed = Err::<Seq<(Seq<char>, serde_json::Value)>, LinearMigratorError>(e);
                    assert(flooded(all, ahead, *current, direction, failed));
                    assert(after(done, failed) == failed);
                }
                return Err(e);
            },
        };
        let serialized = next_model.serialize(&next_value);
        assert(serialize_returns(all[ahead[1]], next_value, serialized));
        let value = match serialized {
            Ok(value) => value,
            Err(e) => {
                proof {
                    let failed = Err::<Seq<(Seq<char>, serde_json::Value)>, LinearMigratorError>(e);
                    assert(flooded(all, ahead, *current, direction, failed));
                    assert(after(done, failed) == failed);
                }
                return Err(e);
            },
        };
        let result = MigrationResult { version: next_model.get_version(), value };
        proof {
            let entry = seq![result@];
            let further = path.subrange(k as int, path.len() as int);
            assert(ahead.drop_first() =~= further);
            assert(entry =~= seq![(all[ahead[1]].version(), value)]);
            assert forall|
                rest: Result<Seq<(Seq<char>, serde_json::Value)>, LinearMigratorError>,
            | #[trigger] flooded(all, further, next_value, direction, rest) implies flooded(
                all,
                path,
                *starting_value,
                direction,
                after(done + entry, rest),
            ) by {
                assert(flooded(all, ahead.drop_first(), next_value, direction, rest));
                assert(serialize_returns(all[ahead[1]], next_value, Ok(value)));
                assert(migrate_returns(all[ahead[0]], *current, direction, Ok(next_value)));
                if let Ok(list) = rest {
                    assert((entry + list).drop_first() =~= list);
                }
                assert(flooded(all, ahead, *current, direction, after(entry, rest)));
                match rest {
                    Ok(list) => {
                        assert(done + (entry + list) =~= (done + entry) + list);
                    },
                    Err(e) => {},
                }
                assert(after(done, after(entry, rest)) == after(done + entry, rest));
            }
            assert(entries(results@.push(result)) =~= entries(results@).push(result@));
            assert(entries(results@.push(result)) =~= before + (done + entry));
            done = done + entry;
            held = next_value;
        }
        results.push(result);
        carried_value = Some(next_value);
        k += 1;
    }
    proof {
        let ended = Ok::<Seq<(Seq<char>, serde_json::Value)>, LinearMigratorError>(Seq::empty());
        assert(flooded(all, path.subrange(k - 1, path.len() as int), held, direction, ended));
        assert(done + Seq::empty() =~= done);
        assert(after(done, ended) == Ok::<Seq<(Seq<char>, serde_json::Value)>, LinearMigratorError>(
            done,
        ));
        assert(flooded(models.models(), path, *starting_value, direction, Ok(done)));
    }
    Ok(())
}

impl<Mo: TypeErasedLinearlyMigrateable> Migrator<Mo> for LinearMigrator {
    type ErrorKind = LinearMigratorError;

    /// The linear migrator migrates between models that form one reversible chain without
    /// loops that includes them all.
    open spec fn accepts(&self, models: Seq<Mo>) -> bool {
        defect(table_of(models)) is None
    }

    /// Validation returns the error that reports the defect of the models, if they have
    /// one.
    open spec fn validation_returns(
        &self,
        models: Seq<Mo>,
        out: Result<(), LinearMigratorError>,
    ) -> bool {
        match out {
            Ok(()) => defect(table_of(models)) is None,
            Err(e) => defect(table_of(models)) matches Some(found) && error::reports(e@, found),
        }
    }

    open spec fn migration_returns(
        &self,
        models: Seq<Mo>,
        value: Mo::Value,
        start: Seq<char>,
        target: Seq<char>,
        out: Result<serde_json::Value, LinearMigratorError>,
    ) -> bool {
        migrated(models, value, start, target, out)
    }

    open spec fn flood_returns(
        &self,
        models: Seq<Mo>,
        value: Mo::Value,
        start: Seq<char>,
        out: Result<Vec<MigrationResult>, LinearMigratorError>,
    ) -> bool {
        flood(models, value, start, out)
    }

    /// Asserts that a single linear migration chain exists which includes all models and
    /// contains no loops.
    fn validate_migrations<S: ModelStore<ModelKind = Mo>>(&self, models: &S) -> (r: Result<
        (),
        LinearMigratorError,
    >) {
        validator::validate_migrations(models)
    }

    /// Migrates data from a starting version to a target version.
    ///
    /// The `LinearMigrator` checks that a migration chain exists between the two given
    /// versions, then iteratively migrates the data through that chain until it is the
    /// desired version.
    fn perform_migration<S: ModelStore<ModelKind = Mo>>(
        &self,
        models: &S,
        starting_value: Mo::Value,
        starting_version: &str,
        target_version: &str,
    ) -> (r: Result<serde_json::Value, LinearMigratorError>)
    {
        let ghost all = models.models();
        let ghost table = table_of(all);
        proof {
            lemma_position_in_table(all, starting_version@);
            lemma_index_of(table, starting_version@);
        }
        let starting_model = match models.get_model(starting_version) {
            Some(model) => model,
            None => {
                return Err(LinearMigratorError::NoSuchModel { version: starting_version.to_owned() });
            },
        };
        let ghost from = index_of(table, starting_version@)->0;
        let migration_route = match self.find_migration_route(
            models,
            starting_version,
            target_version,
        ) {
            Some(found) => found,
            None => {
                return Err(
                    LinearMigratorError::NoMigrationRoute {
                        starting_version: starting_version.to_owned(),
                        target_version: target_version.to_owned(),
                    },
                );
            },
        };
        // Consume the route of migration directions, keeping track of the data and version
        // as we go.
        match follow_route(models, starting_model, Ghost(from), starting_value, &migration_route) {
            Ok((final_value, final_model)) => {
                let serialized = final_model.serialize(&final_value);
                proof {
                    let at = choose|at: int|
                        0 <= at < all.len() && *final_model == all[at] && #[trigger] carried(
                            all,
                            from,
                            starting_value,
                            migration_route@,
                            Ok((at, final_value)),
                        );
                    assert(serialize_returns(all[at], final_value, serialized));
                }
                serialized
            },
            Err(e) => Err(e),
        }
    }

    /// Migrates a given settings value to all other available versions.
    ///
    /// The results from the flood migration include the starting value and version.
    /// Returns an error if one occurs during any migration.
    fn perform_flood_migrations<S: ModelStore<ModelKind = Mo>>(
        &self,
        models: &S,
        starting_value: Mo::Value,
        starting_version: &str,
    ) -> (r: Result<Vec<MigrationResult>, LinearMigratorError>)
        ensures
            is_linear_chain(table_of(models.models())) ==> (r matches Ok(results) ==> lists_sorted(
                versions_in(entries(results@)),
                all_versions(table_of(models.models())),
            )),
    {
        let ghost all = models.models();
        let ghost table = table_of(all);
        proof {
            lemma_position_in_table(all, starting_version@);
            lemma_index_of(table, starting_version@);
        }
        let starting_model = match models.get_model(starting_version) {
            Some(model) => model,
            None => {
                return Err(LinearMigratorError::NoSuchModel { version: starting_version.to_owned() });
            },
        };
        let ghost from = index_of(table, starting_version@)->0;
        let mut results: Vec<MigrationResult> = Vec::new();
        let serialized = starting_model.serialize(&starting_value);
        assert(serialize_returns(all[from], starting_value, serialized));
        let value = match serialized {
            Ok(value) => value,
            Err(e) => {
                return Err(e);
            },
        };
        let first = MigrationResult { version: starting_model.get_version(), value };
        let ghost start_entry = seq![first@];
        results.push(first);
        assert(entries(results@) =~= start_entry);
        match flood_migrate(
            models,
            &starting_value,
            starting_version,
            MigrationDirection::Forward,
            &mut results,
        ) {
            Ok(()) => {},
            Err(e) => {
                return Err(e);
            },
        }
        let ghost forward = choose|list: Seq<(Seq<char>, serde_json::Value)>|
            #[trigger] flooded(
                all,
                trail(table, from, MigrationDirection::Forward),
                starting_value,
                MigrationDirection::Forward,
                Ok(list),
            ) && entries(results@) == start_entry + list;
        match flood_migrate(
            models,
            &starting_value,
            starting_version,
            MigrationDirection::Backward,
            &mut results,
        ) {
            Ok(()) => {},
            Err(e) => {
                return Err(e);
            },
        }
        let sorted = sort_by_version(results);
        proof {
            let backward = choose|list: Seq<(Seq<char>, serde_json::Value)>|
                #[trigger] flooded(
                    all,
                    trail(table, from, MigrationDirection::Backward),
                    starting_value,
                    MigrationDirection::Backward,
                    Ok(list),
                ) && entries(results@) == start_entry + forward + list;
            assert(start_entry =~= seq![(all[from].version(), value)]);
            assert(flood(all, starting_value, starting_version@, Ok(sorted)));
            if is_linear_chain(table) {
                lemma_flood_covers_chain(all, starting_value, starting_version@, sorted);
            }
        }
        Ok(sorted)
    }
}

} // verus!
