//! Where the links of a chain lead: the models that are met on the way from a model, and the
//! route from one version to another.
use super::chain::{
    distinct_versions, index_of, is_run, knows, lays_out, lemma_finds_itself, lemma_index_of,
    lemma_simple_is_short, lemma_step_in_table, lemma_stretch_is_run, simple, step, stretch,
    versions_on, Links,
};
use super::MigrationDirection;
use crate::version::{first_of, is_first_of, lemma_first_of, lemma_first_of_is};
use vstd::prelude::*;

verus! {

/// Goes on from the last model of `path` in `direction`, from model to model, until a model
/// migrates no further or `limit` more steps have been taken, and returns the path with the
/// models met.
pub open spec fn follow(
    table: Seq<Links>,
    path: Seq<int>,
    direction: MigrationDirection,
    limit: nat,
) -> Seq<int>
    decreases limit,
{
    if limit == 0 {
        path
    } else {
        match step(table, path.last(), direction) {
            None => path,
            Some(next) => follow(table, path.push(next), direction, (limit - 1) as nat),
        }
    }
}

/// The models met on the way from the model at `start` in `direction`, that model first. The
/// way ends where a model migrates no further, and after as many steps as the table has
/// models: a chain has fewer.
pub open spec fn trail(table: Seq<Links>, start: int, direction: MigrationDirection) -> Seq<int> {
    follow(table, seq![start], direction, table.len())
}

/// The number of migrations in `direction` that lead from the model at `start` to the nearest
/// model of version `target`, if the way from `start` meets one.
pub open spec fn hops_to(
    table: Seq<Links>,
    start: int,
    direction: MigrationDirection,
    target: Seq<char>,
) -> Option<int> {
    first_of(versions_on(table, trail(table, start, direction)), target)
}

/// The route from the version `start` to the version `target`: how many migrations lead
/// there, and in which direction. A version leads to itself by no migration. Otherwise the
/// target is looked for forward of the starting model, and then backward of it. There is no
/// route where neither way meets the target, and none from a version that no model has.
pub open spec fn route(table: Seq<Links>, start: Seq<char>, target: Seq<char>) -> Option<
    (nat, MigrationDirection),
> {
    if start == target {
        Some((0nat, MigrationDirection::Forward))
    } else {
        match index_of(table, start) {
            None => None,
            Some(from) => match hops_to(table, from, MigrationDirection::Forward, target) {
                Some(hops) => Some((hops as nat, MigrationDirection::Forward)),
                None => match hops_to(table, from, MigrationDirection::Backward, target) {
                    Some(hops) => Some((hops as nat, MigrationDirection::Backward)),
                    None => None,
                },
            },
        }
    }
}

/// The route as the sequence of its steps' directions.
pub open spec fn steps_of(found: Option<(nat, MigrationDirection)>) -> Option<
    Seq<MigrationDirection>,
> {
    match found {
        Some((hops, direction)) => Some(Seq::new(hops, |i: int| direction)),
        None => None,
    }
}

/// What `follow` returns begins with the path it was given, goes from each model to the one
/// that the model migrates to, and names models of the table.
pub proof fn lemma_follow(table: Seq<Links>, path: Seq<int>, direction: MigrationDirection, limit: nat)
    requires
        path.len() > 0,
        forall|k: int| 0 <= k < path.len() ==> 0 <= #[trigger] path[k] < table.len(),
    ensures
        ({
            let way = follow(table, path, direction, limit);
            &&& path.len() <= way.len() <= path.len() + limit
            &&& way.subrange(0, path.len() as int) == path
            &&& forall|k: int| 0 <= k < way.len() ==> 0 <= #[trigger] way[k] < table.len()
            &&& forall|k: int|
                path.len() - 1 <= k < way.len() - 1 ==> #[trigger] step(table, way[k], direction)
                    == Some(way[k + 1])
            &&& way.len() < path.len() + limit ==> step(table, way.last(), direction) is None
        }),
    decreases limit,
{
    let way = follow(table, path, direction, limit);
    if limit == 0 {
        assert(way.subrange(0, path.len() as int) =~= path);
    } else {
        match step(table, path.last(), direction) {
            None => {
                assert(way.subrange(0, path.len() as int) =~= path);
            },
            Some(next) => {
                lemma_step_in_table(table, path.last(), direction);
                let longer = path.push(next);
                lemma_follow(table, longer, direction, (limit - 1) as nat);
                assert(way.subrange(0, path.len() as int) =~= way.subrange(
                    0,
                    longer.len() as int,
                ).subrange(0, path.len() as int));
                assert(longer.subrange(0, path.len() as int) =~= path);
                assert forall|k: int| path.len() - 1 <= k < way.len() - 1 implies #[trigger] step(
                    table,
                    way[k],
                    direction,
                ) == Some(way[k + 1]) by {
                    if k == path.len() - 1 {
                        assert(way.subrange(0, longer.len() as int)[k] == longer[k]);
                        assert(way.subrange(0, longer.len() as int)[k + 1] == longer[k + 1]);
                    }
                }
            },
        }
    }
}

/// Followed from any stretch of a run that begins at the run's start, far enough, the links
/// lead along the run to its end.
pub proof fn lemma_follow_run(
    table: Seq<Links>,
    run: Seq<int>,
    direction: MigrationDirection,
    k: int,
    limit: nat,
)
    requires
        is_run(table, run, direction),
        0 < k <= run.len(),
        limit >= run.len() - k,
    ensures
        follow(table, run.subrange(0, k), direction, limit) == run,
    decreases limit,
{
    let head = run.subrange(0, k);
    assert(head.last() == run[k - 1]);
    if k == run.len() {
        assert(head =~= run);
    } else {
        assert(step(table, run[k - 1], direction) == Some(run[k]));
        assert(head.push(run[k]) =~= run.subrange(0, k + 1));
        lemma_follow_run(table, run, direction, k + 1, (limit - 1) as nat);
    }
}

/// In a line of models, the way from a model leads along the line to its end.
pub proof fn lemma_trail_in_line(
    table: Seq<Links>,
    order: Seq<int>,
    from: int,
    direction: MigrationDirection,
)
    requires
        distinct_versions(table),
        lays_out(table, order),
        0 <= from < order.len(),
    ensures
        trail(table, order[from], direction) == stretch(order, from, direction),
{
    let run = stretch(order, from, direction);
    lemma_stretch_is_run(table, order, from, direction);
    lemma_simple_is_short(table, run);
    assert(run.subrange(0, 1) =~= seq![order[from]]);
    lemma_follow_run(table, run, direction, 1, table.len());
}

/// A line of models names each model once, so it is as long as the table.
pub proof fn lemma_line_length(table: Seq<Links>, order: Seq<int>)
    requires
        lays_out(table, order),
    ensures
        order.len() == table.len(),
{
    if order.len() > 0 {
        assert(simple(table, order));
        lemma_simple_is_short(table, order);
    }
    // Every model of the table is named, so the line is no shorter than the table.
    let all = Seq::new(table.len(), |i: int| i);
    assert(all.no_duplicates());
    all.unique_seq_to_set();
    assert(order.no_duplicates());
    order.unique_seq_to_set();
    assert(all.to_set().subset_of(order.to_set())) by {
        assert forall|i: int| all.to_set().contains(i) implies order.to_set().contains(i) by {
            let k = choose|k: int| 0 <= k < all.len() && all[k] == i;
            assert(order.contains(i));
        }
    }
    vstd::set_lib::lemma_len_subset(all.to_set(), order.to_set());
}

/// In a chain the route from the version of one model to that of another is as long as the
/// two are apart in the line of models, and goes forward to a model further on in the line,
/// and backward to one that stands before.
pub proof fn lemma_route_in_line(table: Seq<Links>, order: Seq<int>, from: int, to: int)
    requires
        distinct_versions(table),
        lays_out(table, order),
        0 <= from < order.len(),
        0 <= to < order.len(),
    ensures
        route(table, table[order[from]].version, table[order[to]].version) == Some(
            if from <= to {
                ((to - from) as nat, MigrationDirection::Forward)
            } else {
                ((from - to) as nat, MigrationDirection::Backward)
            },
        ),
{
    let start = table[order[from]].version;
    let target = table[order[to]].version;
    lemma_finds_itself(table, order[from]);
    lemma_trail_in_line(table, order, from, MigrationDirection::Forward);
    lemma_trail_in_line(table, order, from, MigrationDirection::Backward);
    let ahead = stretch(order, from, MigrationDirection::Forward);
    let behind = stretch(order, from, MigrationDirection::Backward);
    if from == to {
    } else if from < to {
        assert(order[from] != order[to]);
        lemma_apart(table, order[from], order[to]);
        let met = versions_on(table, ahead);
        assert(is_first_of(met, target, to - from)) by {
            assert(ahead[to - from] == order[to]);
            assert forall|j: int| 0 <= j < to - from implies met[j] != target by {
                assert(ahead[j] == order[from + j]);
                assert(order[from + j] != order[to]);
                lemma_apart(table, order[from + j], order[to]);
            }
        }
        lemma_first_of_is(met, target, to - from);
    } else {
        assert(order[to] != order[from]);
        lemma_apart(table, order[from], order[to]);
        let met = versions_on(table, ahead);
        lemma_first_of(met, target);
        if let Some(k) = first_of(met, target) {
            assert(ahead[k] == order[from + k]);
            assert(order[to] != order[from + k]);
            lemma_apart(table, order[from + k], order[to]);
        }
        let met = versions_on(table, behind);
        assert(is_first_of(met, target, from - to)) by {
            assert(behind[from - to] == order[to]);
            assert forall|j: int| 0 <= j < from - to implies met[j] != target by {
                assert(behind[j] == order[from - j]);
                assert(order[to] != order[from - j]);
                lemma_apart(table, order[from - j], order[to]);
            }
        }
        lemma_first_of_is(met, target, from - to);
    }
}

/// Among distinct versions, different models have different versions.
pub proof fn lemma_apart(table: Seq<Links>, i: int, j: int)
    requires
        distinct_versions(table),
        0 <= i < table.len(),
        0 <= j < table.len(),
        i != j,
    ensures
        table[i].version != table[j].version,
{
    if i < j {
        assert(table[i].version != table[j].version);
    } else {
        assert(table[j].version != table[i].version);
    }
}

/// No route leads from one version to another version that no model has, and none leads
/// away from a version that no model has.
pub proof fn lemma_no_route_to_unknown(table: Seq<Links>, start: Seq<char>, target: Seq<char>)
    requires
        start != target,
        !knows(table, start) || !knows(table, target),
    ensures
        route(table, start, target) is None,
{
    lemma_index_of(table, start);
    if let Some(from) = index_of(table, start) {
        lemma_route_meets_target(table, from, MigrationDirection::Forward, target);
        lemma_route_meets_target(table, from, MigrationDirection::Backward, target);
    }
}

/// Where the way from a model meets the target after some migrations, each of those
/// migrations leads to a model, and the last of them to the first model of the target
/// version.
pub proof fn lemma_route_meets_target(
    table: Seq<Links>,
    from: int,
    direction: MigrationDirection,
    target: Seq<char>,
)
    requires
        0 <= from < table.len(),
    ensures
        hops_to(table, from, direction, target) matches Some(hops) ==> {
            let way = trail(table, from, direction);
            &&& 0 <= hops < way.len() <= table.len() + 1
            &&& way[0] == from
            &&& table[way[hops]].version == target
            &&& knows(table, target)
            &&& forall|k: int| 0 <= k < hops ==> #[trigger] step(table, way[k], direction) == Some(
                way[k + 1],
            )
            &&& forall|k: int| 0 <= k < way.len() ==> 0 <= #[trigger] way[k] < table.len()
        },
{
    let way = trail(table, from, direction);
    lemma_follow(table, seq![from], direction, table.len());
    assert(way.subrange(0, 1)[0] == seq![from][0]);
    lemma_first_of(versions_on(table, way), target);
    if let Some(hops) = hops_to(table, from, direction, target) {
        assert(versions_on(table, way)[hops] == target);
        assert(table[way[hops]].version == target);
    }
}

} // verus!
