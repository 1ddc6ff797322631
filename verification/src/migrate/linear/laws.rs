//! What holds of every migration along a chain, whatever the models do with a value.
use super::chain::{
    all_versions, defect, index_of, is_linear_chain, knows, lays_out, lemma_finds_itself,
    lemma_index_of, lemma_no_defect_is_chain, lemma_step_in_table, step, stretch, Links,
};
use super::erased::{table_of, TypeErasedLinearlyMigrateable};
use super::error::LinearMigratorError;
use super::outcome::{carried, flood, flooded, migrate_returns};
use super::route::{
    lemma_apart, lemma_route_in_line, lemma_route_meets_target, lemma_trail_in_line, route,
    steps_of, trail,
};
use super::MigrationDirection;
use crate::migrate::{entries, sorts, MigrationResult};

use crate::version::{all_distinct, ascending, lemma_precedes_connected, lists_sorted, precedes};
use vstd::prelude::*;

verus! {

/// A version leads to itself by no migration, whether a model has it or not.
pub proof fn lemma_route_to_itself(table: Seq<Links>, version: Seq<char>)
    ensures
        route(table, version, version) == Some((0nat, MigrationDirection::Forward)),
{
}

/// In a chain, the neighbour of a model in a direction has that model as its neighbour in
/// the opposite direction.
pub proof fn lemma_steps_return(table: Seq<Links>, at: int, direction: MigrationDirection)
    requires
        is_linear_chain(table),
        0 <= at < table.len(),
    ensures
        step(table, at, direction) matches Some(next) ==> 0 <= next < table.len() && step(
            table,
            next,
            direction.flipped(),
        ) == Some(at),
{
    if let Some(next) = step(table, at, direction) {
        let order = choose|order: Seq<int>| lays_out(table, order);
        assert(order.contains(at));
        let k = choose|k: int| 0 <= k < order.len() && order[k] == at;
        lemma_step_in_table(table, at, direction);
        lemma_finds_itself(table, at);
        match direction {
            MigrationDirection::Forward => {
                if k == order.len() - 1 {
                    assert(order.last() == at);
                } else {
                    assert(table[order[k]].forward == Some(table[order[k + 1]].version));
                    lemma_finds_itself(table, order[k + 1]);
                }
            },
            MigrationDirection::Backward => {
                if k == 0 {
                } else {
                    assert(table[order[k - 1]].forward == Some(table[order[k - 1 + 1]].version));
                    lemma_finds_itself(table, order[k - 1]);
                }
            },
        }
    }
}

/// In a chain, the route back from a version is the route to it, reversed: as long, and in
/// the opposite direction.
pub proof fn lemma_route_back(table: Seq<Links>, start: Seq<char>, target: Seq<char>)
    requires
        is_linear_chain(table),
        knows(table, start),
        knows(table, target),
        start != target,
    ensures
        route(table, start, target) matches Some((hops, direction)) && route(table, target, start)
            == Some((hops, direction.flipped())),
{
    let order = choose|order: Seq<int>| lays_out(table, order);
    lemma_index_of(table, start);
    lemma_index_of(table, target);
    let from = index_of(table, start)->0;
    let to = index_of(table, target)->0;
    assert(order.contains(from));
    assert(order.contains(to));
    let i = choose|i: int| 0 <= i < order.len() && order[i] == from;
    let j = choose|j: int| 0 <= j < order.len() && order[j] == to;
    lemma_route_in_line(table, order, i, j);
    lemma_route_in_line(table, order, j, i);
}

/// Models that a settings extension of the linear migrator holds form one chain: models of
/// different versions that the linear migrator validates do.
pub proof fn lemma_validated_models_form_chain<M: TypeErasedLinearlyMigrateable>(models: Seq<M>)
    requires
        all_distinct(crate::model::erased::versions_of(models)),
        defect(table_of(models)) is None,
    ensures
        is_linear_chain(table_of(models)),
{
    let table = table_of(models);
    assert forall|i: int, j: int| 0 <= i < j < table.len() implies #[trigger] table[i].version
        != #[trigger] table[j].version by {
        assert(crate::model::erased::versions_of(models)[i] != crate::model::erased::versions_of(
            models,
        )[j]);
    }
    lemma_no_defect_is_chain(table);
}

/// A route leads to its target. A value that is carried along the route from one version to
/// another is stopped only by an error of a model's own `migrate`, never for want of a
/// neighbour, and if nothing stops it, it reaches the model that a lookup of the target
/// version finds.
pub proof fn lemma_route_leads_to_target<M: TypeErasedLinearlyMigrateable>(
    models: Seq<M>,
    start: Seq<char>,
    target: Seq<char>,
    value: M::Value,
    out: Result<(int, M::Value), LinearMigratorError>,
)
    requires
        index_of(table_of(models), start) is Some,
        route(table_of(models), start, target) is Some,
        carried(
            models,
            index_of(table_of(models), start)->0,
            value,
            steps_of(route(table_of(models), start, target))->0,
            out,
        ),
    ensures
        match out {
            Ok((at, migrated)) => index_of(table_of(models), target) == Some(at),
            Err(e) => exists|at: int, held: M::Value|
                0 <= at < models.len() && #[trigger] migrate_returns(
                    models[at],
                    held,
                    (route(table_of(models), start, target)->0).1,
                    Err(e),
                ),
        },
{
    let table = table_of(models);
    let from = index_of(table, start)->0;
    let (hops, direction) = route(table, start, target)->0;
    lemma_index_of(table, start);
    if start == target {
        assert(steps_of(route(table, start, target))->0 =~= Seq::<MigrationDirection>::empty());
    } else {
        lemma_route_meets_target(table, from, direction, target);
        let way = trail(table, from, direction);
        assert(steps_of(route(table, start, target))->0 =~= straight(hops, direction));
        lemma_carried_along(models, way, 0, hops as int, direction, value, out);
        if let Ok((at, migrated)) = out {
            // The last step was a lookup of the target version.
            assert(step(table, way[hops - 1], direction) == Some(way[hops as int]));
            lemma_step_in_table(table, way[hops - 1], direction);
        }
    }
}

/// A value that is carried along a way on which every step leads to a model is stopped only
/// by an error of a model's own `migrate`, and else reaches the end of the way.
pub proof fn lemma_carried_along<M: TypeErasedLinearlyMigrateable>(
    models: Seq<M>,
    way: Seq<int>,
    from: int,
    to: int,
    direction: MigrationDirection,
    value: M::Value,
    out: Result<(int, M::Value), LinearMigratorError>,
)
    requires
        0 <= from <= to < way.len(),
        forall|k: int| 0 <= k < way.len() ==> 0 <= #[trigger] way[k] < models.len(),
        forall|k: int|
            0 <= k < to ==> #[trigger] step(table_of(models), way[k], direction) == Some(way[k + 1]),
        carried(models, way[from], value, straight((to - from) as nat, direction), out),
    ensures
        match out {
            Ok((at, migrated)) => at == way[to],
            Err(e) => exists|at: int, held: M::Value|
                0 <= at < models.len() && #[trigger] migrate_returns(
                    models[at],
                    held,
                    direction,
                    Err(e),
                ),
        },
    decreases to - from,
{
    let steps = straight((to - from) as nat, direction);
    if from < to {
        assert(steps[0] == direction);
        assert(steps.drop_first() =~= straight((to - from - 1) as nat, direction));
        assert(step(table_of(models), way[from], direction) == Some(way[from + 1]));
        let o = choose|o: Result<M::Value, LinearMigratorError>| #[trigger]
            migrate_returns(models[way[from]], value, direction, o) && match o {
                Ok(migrated) => carried(models, way[from + 1], migrated, steps.drop_first(), out),
                Err(e) => out == Err::<(int, M::Value), LinearMigratorError>(e),
            };
        match o {
            Ok(migrated) => {
                lemma_carried_along(models, way, from + 1, to, direction, migrated, out);
            },
            Err(e) => {
                assert(migrate_returns(models[way[from]], value, direction, Err(e)));
            },
        }
    }
}

/// The migrations of `hops` steps in one direction.
pub open spec fn straight(hops: nat, direction: MigrationDirection) -> Seq<MigrationDirection> {
    Seq::new(hops, |i: int| direction)
}

/// Whether every migration of a model in `direction` is undone by the migration of the
/// model's neighbour in the opposite direction: whenever the one turns a value into another,
/// the other turns that value into the first, and into nothing else.
pub open spec fn exactly_reversible<M: TypeErasedLinearlyMigrateable>(
    models: Seq<M>,
    direction: MigrationDirection,
) -> bool {
    forall|at: int, value: M::Value, there: M::Value, back: Result<M::Value, LinearMigratorError>|
        #![trigger
            migrate_returns(models[at], value, direction, Ok(there)),
            migrate_returns(
                models[step(table_of(models), at, direction)->0],
                there,
                direction.flipped(),
                back,
            )
        ]
        0 <= at < models.len() && step(table_of(models), at, direction) is Some && migrate_returns(
            models[at],
            value,
            direction,
            Ok(there),
        ) && migrate_returns(
            models[step(table_of(models), at, direction)->0],
            there,
            direction.flipped(),
            back,
        ) ==> back == Ok::<M::Value, LinearMigratorError>(value)
}

/// A value that is carried along some migrations and then along some more is first carried
/// along the former.
pub proof fn lemma_carried_in_two<M: TypeErasedLinearlyMigrateable>(
    models: Seq<M>,
    at: int,
    value: M::Value,
    first: Seq<MigrationDirection>,
    then: Seq<MigrationDirection>,
    out: Result<(int, M::Value), LinearMigratorError>,
)
    requires
        carried(models, at, value, first + then, out),
    ensures
        exists|mid: Result<(int, M::Value), LinearMigratorError>| #[trigger]
            carried(models, at, value, first, mid) && match mid {
                Ok((reached, migrated)) => carried(models, reached, migrated, then, out),
                Err(e) => out == Err::<(int, M::Value), LinearMigratorError>(e),
            },
    decreases first.len(),
{
    let steps = first + then;
    if first.len() == 0 {
        assert(steps =~= then);
        let mid = Ok::<(int, M::Value), LinearMigratorError>((at, value));
        assert(carried(models, at, value, first, mid));
    } else {
        assert(steps[0] == first[0]);
        assert(steps.drop_first() =~= first.drop_first() + then);
        match step(table_of(models), at, steps[0]) {
            None => {
                assert(carried(models, at, value, first, out));
            },
            Some(next) => {
                let o = choose|o: Result<M::Value, LinearMigratorError>| #[trigger]
                    migrate_returns(models[at], value, steps[0], o) && match o {
                        Ok(migrated) => carried(models, next, migrated, steps.drop_first(), out),
                        Err(e) => out == Err::<(int, M::Value), LinearMigratorError>(e),
                    };
                match o {
                    Ok(migrated) => {
                        lemma_carried_in_two(models, next, migrated, first.drop_first(), then, out);
                        let mid = choose|mid: Result<(int, M::Value), LinearMigratorError>|
                            #[trigger] carried(models, next, migrated, first.drop_first(), mid)
                                && match mid {
                                Ok((reached, further)) => carried(models, reached, further, then, out),
                                Err(e) => out == Err::<(int, M::Value), LinearMigratorError>(e),
                            };
                        assert(carried(models, at, value, first, mid));
                    },
                    Err(e) => {
                        assert(carried(models, at, value, first, out));
                    },
                }
            },
        }
    }
}

/// The round trip: in a chain whose migrations in `direction` are exactly reversible, a value
/// that has been carried some steps in that direction and is carried as many steps back
/// becomes the value it was, at the model it came from.
pub proof fn lemma_round_trip<M: TypeErasedLinearlyMigrateable>(
    models: Seq<M>,
    from: int,
    value: M::Value,
    direction: MigrationDirection,
    hops: nat,
    to: int,
    there: M::Value,
    back: Result<(int, M::Value), LinearMigratorError>,
)
    requires
        is_linear_chain(table_of(models)),
        exactly_reversible(models, direction),
        0 <= from < models.len(),
        carried(models, from, value, straight(hops, direction), Ok((to, there))),
        carried(models, to, there, straight(hops, direction.flipped()), back),
    ensures
        back == Ok::<(int, M::Value), LinearMigratorError>((from, value)),
    decreases hops,
{
    let table = table_of(models);
    let way = straight(hops, direction);
    let way_back = straight(hops, direction.flipped());
    if hops > 0 {
        assert(way[0] == direction);
        assert(way.drop_first() =~= straight((hops - 1) as nat, direction));
        lemma_steps_return(table, from, direction);
        match step(table, from, direction) {
            None => {},
            Some(next) => {
                let o = choose|o: Result<M::Value, LinearMigratorError>| #[trigger]
                    migrate_returns(models[from], value, direction, o) && match o {
                        Ok(migrated) => carried(
                            models,
                            next,
                            migrated,
                            way.drop_first(),
                            Ok((to, there)),
                        ),
                        Err(e) => Ok::<(int, M::Value), LinearMigratorError>((to, there)) == Err::<
                            (int, M::Value),
                            LinearMigratorError,
                        >(e),
                    };
                let migrated = o->Ok_0;
                // The way back leads to the neighbour first, and from there one step on.
                let last = straight(1, direction.flipped());
                assert(way_back =~= straight((hops - 1) as nat, direction.flipped()) + last);
                lemma_carried_in_two(
                    models,
                    to,
                    there,
                    straight((hops - 1) as nat, direction.flipped()),
                    last,
                    back,
                );
                let mid = choose|mid: Result<(int, M::Value), LinearMigratorError>| #[trigger]
                    carried(
                        models,
                        to,
                        there,
                        straight((hops - 1) as nat, direction.flipped()),
                        mid,
                    ) && match mid {
                        Ok((reached, further)) => carried(models, reached, further, last, back),
                        Err(e) => back == Err::<(int, M::Value), LinearMigratorError>(e),
                    };
                lemma_round_trip(
                    models,
                    next,
                    migrated,
                    direction,
                    (hops - 1) as nat,
                    to,
                    there,
                    mid,
                );
                assert(carried(models, next, migrated, last, back));
                assert(last[0] == direction.flipped());
                assert(last.drop_first() =~= Seq::<MigrationDirection>::empty());
                let o2 = choose|o2: Result<M::Value, LinearMigratorError>| #[trigger]
                    migrate_returns(models[next], migrated, direction.flipped(), o2) && match o2 {
                        Ok(returned) => carried(models, from, returned, last.drop_first(), back),
                        Err(e) => back == Err::<(int, M::Value), LinearMigratorError>(e),
                    };
                assert(migrate_returns(models[from], value, direction, Ok(migrated)));
                assert(migrate_returns(
                    models[step(table, from, direction)->0],
                    migrated,
                    direction.flipped(),
                    o2,
                ));
                assert(o2 == Ok::<M::Value, LinearMigratorError>(value));
            },
        }
    }
}

/// The versions of the results, result by result.
pub open spec fn versions_in(list: Seq<(Seq<char>, serde_json::Value)>) -> Seq<Seq<char>> {
    Seq::new(list.len(), |i: int| list[i].0)
}

/// A walk that ends well has a result for every model of its path but the first, in the
/// path's order.
pub proof fn lemma_flooded_versions<M: TypeErasedLinearlyMigrateable>(
    models: Seq<M>,
    path: Seq<int>,
    value: M::Value,
    direction: MigrationDirection,
    list: Seq<(Seq<char>, serde_json::Value)>,
)
    requires
        path.len() > 0,
        flooded(models, path, value, direction, Ok(list)),
    ensures
        list.len() == path.len() - 1,
        forall|k: int| 0 <= k < list.len() ==> (#[trigger] list[k]).0 == models[path[k + 1]].version(),
    decreases path.len(),
{
    if path.len() > 1 {
        let out = Ok::<Seq<(Seq<char>, serde_json::Value)>, LinearMigratorError>(list);
        let o = choose|o: Result<M::Value, LinearMigratorError>| #[trigger]
            migrate_returns(models[path[0]], value, direction, o) && match o {
                Err(e) => out == Err::<Seq<(Seq<char>, serde_json::Value)>, LinearMigratorError>(
                    e,
                ),
                Ok(migrated) => exists|s: Result<serde_json::Value, LinearMigratorError>| #[trigger]
                    super::outcome::serialize_returns(models[path[1]], migrated, s) && match s {
                        Err(e) => out == Err::<
                            Seq<(Seq<char>, serde_json::Value)>,
                            LinearMigratorError,
                        >(e),
                        Ok(written) => match out {
                            Ok(list) => list.len() > 0 && list[0] == (
                                models[path[1]].version(),
                                written,
                            ) && flooded(
                                models,
                                path.drop_first(),
                                migrated,
                                direction,
                                Ok(list.drop_first()),
                            ),
                            Err(e) => flooded(models, path.drop_first(), migrated, direction, Err(e)),
                        },
                    },
            };
        let migrated = o->Ok_0;
        lemma_flooded_versions(models, path.drop_first(), migrated, direction, list.drop_first());
        assert forall|k: int| 0 <= k < list.len() implies (#[trigger] list[k]).0
            == models[path[k + 1]].version() by {
            if k > 0 {
                assert(list[k] == list.drop_first()[k - 1]);
                assert(path[k + 1] == path.drop_first()[k]);
            }
        }
    }
}

/// Whether the results `found` are the results of the two walks of a flood migration from
/// the model at `from` that ended well: the result for that model first, then the results of
/// the walk forward, then those of the walk backward.
pub open spec fn found_by_walks<M: TypeErasedLinearlyMigrateable>(
    models: Seq<M>,
    value: M::Value,
    from: int,
    found: Seq<(Seq<char>, serde_json::Value)>,
) -> bool {
    exists|
        written: serde_json::Value,
        forward: Seq<(Seq<char>, serde_json::Value)>,
        backward: Seq<(Seq<char>, serde_json::Value)>,
    |
        #![trigger seq![(models[from].version(), written)] + forward + backward]
        {
            &&& flooded(
                models,
                trail(table_of(models), from, MigrationDirection::Forward),
                value,
                MigrationDirection::Forward,
                Ok(forward),
            )
            &&& flooded(
                models,
                trail(table_of(models), from, MigrationDirection::Backward),
                value,
                MigrationDirection::Backward,
                Ok(backward),
            )
            &&& found == seq![(models[from].version(), written)] + forward + backward
        }
}

/// The results of a flood migration that ends well are the results of its two walks, sorted.
pub proof fn lemma_flood_sorts_walks<M: TypeErasedLinearlyMigrateable>(
    models: Seq<M>,
    value: M::Value,
    start: Seq<char>,
    results: Vec<MigrationResult>,
)
    requires
        flood(models, value, start, Ok(results)),
    ensures
        index_of(table_of(models), start) matches Some(from) && exists|
            found: Seq<(Seq<char>, serde_json::Value)>,
        | #[trigger]
            found_by_walks(models, value, from, found) && sorts(entries(results@), found),
{
    let table = table_of(models);
    let out = Ok::<Vec<MigrationResult>, LinearMigratorError>(results);
    let forward_way = MigrationDirection::Forward;
    let backward_way = MigrationDirection::Backward;
    let from = index_of(table, start)->0;
    let first = choose|first: Result<serde_json::Value, LinearMigratorError>| #[trigger]
        super::outcome::serialize_returns(models[from], value, first) && match first {
            Err(e) => out == Err::<Vec<MigrationResult>, LinearMigratorError>(e),
            Ok(written) => exists|
                ahead: Result<Seq<(Seq<char>, serde_json::Value)>, LinearMigratorError>,
            | #[trigger]
                flooded(models, trail(table, from, forward_way), value, forward_way, ahead)
                    && match ahead {
                    Err(e) => out == Err::<Vec<MigrationResult>, LinearMigratorError>(e),
                    Ok(forward) => exists|
                        behind: Result<Seq<(Seq<char>, serde_json::Value)>, LinearMigratorError>,
                    | #[trigger]
                        flooded(models, trail(table, from, backward_way), value, backward_way, behind)
                            && match behind {
                            Err(e) => out == Err::<Vec<MigrationResult>, LinearMigratorError>(e),
                            Ok(backward) => out matches Ok(results) && sorts(
                                entries(results@),
                                seq![(models[from].version(), written)] + forward + backward,
                            ),
                        },
                },
        };
    let written = first->Ok_0;
    let ahead = choose|ahead: Result<Seq<(Seq<char>, serde_json::Value)>, LinearMigratorError>|
        #[trigger] flooded(models, trail(table, from, forward_way), value, forward_way, ahead)
            && match ahead {
            Err(e) => out == Err::<Vec<MigrationResult>, LinearMigratorError>(e),
            Ok(forward) => exists|
                behind: Result<Seq<(Seq<char>, serde_json::Value)>, LinearMigratorError>,
            | #[trigger]
                flooded(models, trail(table, from, backward_way), value, backward_way, behind)
                    && match behind {
                    Err(e) => out == Err::<Vec<MigrationResult>, LinearMigratorError>(e),
                    Ok(backward) => out matches Ok(results) && sorts(
                        entries(results@),
                        seq![(models[from].version(), written)] + forward + backward,
                    ),
                },
        };
    let forward = ahead->Ok_0;
    let behind = choose|behind: Result<Seq<(Seq<char>, serde_json::Value)>, LinearMigratorError>|
        #[trigger] flooded(models, trail(table, from, backward_way), value, backward_way, behind)
            && match behind {
            Err(e) => out == Err::<Vec<MigrationResult>, LinearMigratorError>(e),
            Ok(backward) => out matches Ok(results) && sorts(
                entries(results@),
                seq![(models[from].version(), written)] + forward + backward,
            ),
        };
    let backward = behind->Ok_0;
    let found = seq![(models[from].version(), written)] + forward + backward;
    assert(found_by_walks(models, value, from, found));
}

/// In a chain, the results of the two walks of a flood migration that ended well name every
/// version that a model has, and none twice.
pub proof fn lemma_walks_name_each_version<M: TypeErasedLinearlyMigrateable>(
    models: Seq<M>,
    value: M::Value,
    from: int,
    found: Seq<(Seq<char>, serde_json::Value)>,
)
    requires
        is_linear_chain(table_of(models)),
        0 <= from < models.len(),
        found_by_walks(models, value, from, found),
    ensures
        forall|k: int, l: int| 0 <= k < l < found.len() ==> found[k].0 != found[l].0,
        forall|v: Seq<char>|
            knows(table_of(models), v) <==> exists|k: int|
                0 <= k < found.len() && (#[trigger] found[k]).0 == v,
{
    let table = table_of(models);
    let forward_way = MigrationDirection::Forward;
    let backward_way = MigrationDirection::Backward;
    let (written, forward, backward) = choose|
        written: serde_json::Value,
        forward: Seq<(Seq<char>, serde_json::Value)>,
        backward: Seq<(Seq<char>, serde_json::Value)>,
    |
        #![trigger seq![(models[from].version(), written)] + forward + backward]
        {
            &&& flooded(models, trail(table, from, forward_way), value, forward_way, Ok(forward))
            &&& flooded(models, trail(table, from, backward_way), value, backward_way, Ok(backward))
            &&& found == seq![(models[from].version(), written)] + forward + backward
        };
    let order = choose|order: Seq<int>| lays_out(table, order);
    assert(order.contains(from));
    let place = choose|k: int| 0 <= k < order.len() && order[k] == from;
    lemma_trail_in_line(table, order, place, forward_way);
    lemma_trail_in_line(table, order, place, backward_way);
    let ahead_path = stretch(order, place, forward_way);
    let behind_path = stretch(order, place, backward_way);
    lemma_flooded_versions(models, ahead_path, value, forward_way, forward);
    lemma_flooded_versions(models, behind_path, value, backward_way, backward);
    // The place in the line of the model that each result is of.
    let place_of = Seq::new(
        found.len(),
        |k: int|
            if k <= forward.len() {
                place + k
            } else {
                place - (k - forward.len())
            },
    );
    assert forall|k: int| 0 <= k < found.len() implies 0 <= #[trigger] place_of[k] < order.len()
        && found[k].0 == table[order[place_of[k]]].version by {
        if k == 0 {
        } else if k <= forward.len() {
            assert(found[k] == forward[k - 1]);
            assert(ahead_path[k] == order[place + k]);
        } else {
            assert(found[k] == backward[k - 1 - forward.len()]);
            assert(behind_path[k - forward.len()] == order[place - (k - forward.len())]);
        }
    }
    assert forall|k: int, l: int| 0 <= k < l < found.len() implies found[k].0 != found[l].0 by {
        let a = place_of[k];
        let b = place_of[l];
        assert(a != b);
        if a < b {
            assert(order[a] != order[b]);
        } else {
            assert(order[b] != order[a]);
        }
        lemma_apart(table, order[a], order[b]);
    }
    assert forall|v: Seq<char>| knows(table, v) <==> exists|k: int|
        0 <= k < found.len() && (#[trigger] found[k]).0 == v by {
        if knows(table, v) {
            let m = choose|m: int| 0 <= m < table.len() && #[trigger] table[m].version == v;
            assert(order.contains(m));
            let a = choose|a: int| 0 <= a < order.len() && order[a] == m;
            let k = if a >= place {
                a - place
            } else {
                forward.len() + (place - a)
            };
            assert(place_of[k] == a);
            assert(found[k].0 == v);
        }
        if exists|k: int| 0 <= k < found.len() && (#[trigger] found[k]).0 == v {
            let k = choose|k: int| 0 <= k < found.len() && (#[trigger] found[k]).0 == v;
            assert(0 <= place_of[k] < order.len());
            assert(table[order[place_of[k]]].version == v);
        }
    }
}

/// Results of different versions, sorted, list their versions in ascending order, each
/// version once.
pub proof fn lemma_sorted_versions_ascend(
    sorted: Seq<(Seq<char>, serde_json::Value)>,
    found: Seq<(Seq<char>, serde_json::Value)>,
)
    requires
        sorts(sorted, found),
        forall|k: int, l: int| 0 <= k < l < found.len() ==> found[k].0 != found[l].0,
    ensures
        ascending(versions_in(sorted)),
        forall|v: Seq<char>|
            versions_in(sorted).contains(v) <==> exists|k: int|
                0 <= k < found.len() && (#[trigger] found[k]).0 == v,
{
    broadcast use vstd::seq_lib::group_to_multiset_ensures;

    assert(found.no_duplicates());
    found.lemma_multiset_has_no_duplicates();
    sorted.lemma_multiset_has_no_duplicates_conv();
    assert forall|x: (Seq<char>, serde_json::Value)| sorted.contains(x) <==> found.contains(x) by {
        assert(sorted.to_multiset().count(x) == found.to_multiset().count(x));
    }
    let listed = versions_in(sorted);
    assert forall|i: int, j: int| 0 <= i < j < listed.len() implies precedes(listed[i], listed[j]) by {
        assert(sorted.contains(sorted[i]));
        assert(sorted.contains(sorted[j]));
        let k = choose|k: int| 0 <= k < found.len() && found[k] == sorted[i];
        let l = choose|l: int| 0 <= l < found.len() && found[l] == sorted[j];
        assert(sorted[i] != sorted[j]);
        if k < l {
            assert(found[k].0 != found[l].0);
        } else {
            assert(found[l].0 != found[k].0);
        }
        lemma_precedes_connected(listed[i], listed[j]);
        assert(!precedes(sorted[j].0, sorted[i].0));
    }
    assert forall|v: Seq<char>| listed.contains(v) <==> exists|k: int|
        0 <= k < found.len() && (#[trigger] found[k]).0 == v by {
        if listed.contains(v) {
            let i = choose|i: int| 0 <= i < listed.len() && listed[i] == v;
            assert(sorted.contains(sorted[i]));
            let k = choose|k: int| 0 <= k < found.len() && found[k] == sorted[i];
            assert(found[k].0 == v);
        }
        if exists|k: int| 0 <= k < found.len() && (#[trigger] found[k]).0 == v {
            let k = choose|k: int| 0 <= k < found.len() && (#[trigger] found[k]).0 == v;
            assert(found.contains(found[k]));
            assert(sorted.contains(found[k]));
            let i = choose|i: int| 0 <= i < sorted.len() && sorted[i] == found[k];
            assert(listed[i] == v);
        }
    }
}

/// In a chain, a flood migration that ends well returns one result for every version that
/// a model has, in ascending order of the versions.
pub proof fn lemma_flood_covers_chain<M: TypeErasedLinearlyMigrateable>(
    models: Seq<M>,
    value: M::Value,
    start: Seq<char>,
    results: Vec<MigrationResult>,
)
    requires
        is_linear_chain(table_of(models)),
        flood(models, value, start, Ok(results)),
    ensures
        lists_sorted(versions_in(entries(results@)), all_versions(table_of(models))),
{
    let table = table_of(models);
    lemma_flood_sorts_walks(models, value, start, results);
    lemma_index_of(table, start);
    let from = index_of(table, start)->0;
    let found = choose|found: Seq<(Seq<char>, serde_json::Value)>| #[trigger]
        found_by_walks(models, value, from, found) && sorts(entries(results@), found);
    lemma_walks_name_each_version(models, value, from, found);
    lemma_sorted_versions_ascend(entries(results@), found);
}

} // verus!
