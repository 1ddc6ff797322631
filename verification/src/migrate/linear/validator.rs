//! Checks that the models of a store form one linear migration chain.
use super::chain::{
    all_versions, defect, holds_none, is_first, knows, lemma_first_is_found, lemma_index_of,
    lemma_simple_is_short, lemma_simple_push, lemma_step_in_table, links_back, scan, simple, step,
    symmetric_difference, versions_along, versions_on, ChainDefect,
};
use super::erased::{lemma_position_in_table, table_of, TypeErasedLinearlyMigrateable};
use super::error::{reports, LinearMigratorError};
use super::MigrationDirection;
use crate::migrate::ModelStore;
use crate::model::erased::TypeErasedModel;
use crate::version::{holds_version, lemma_views_push, sorted_versions, views};
use vstd::prelude::*;

verus! {

/// Asserts that a single reversible linear migration chain exists which includes all models
/// and contains no loops.
///
/// The chain is followed from the store's first model in both directions. On the way, every
/// model that is met must migrate back to the model it was reached from, and no model may be
/// met twice. In the end every model of the store must have been met.
pub fn validate_migrations<S>(models: &S) -> (r: Result<(), LinearMigratorError>) where
    S: ModelStore,
    S::ModelKind: TypeErasedLinearlyMigrateable,

    ensures
        match r {
            Ok(()) => defect(table_of(models.models())) is None,
            Err(e) => defect(table_of(models.models())) matches Some(found) && reports(e@, found),
        },
{
    let ghost table = table_of(models.models());
    if models.is_empty() {
        return Ok(());
    }
    proof {
        assert(is_first(table, table[0].version, 0));
        lemma_first_is_found(table, table[0].version, 0);
    }
    let mut visited = match validate_in_direction(models, 0, MigrationDirection::Forward) {
        Ok(visited) => visited,
        Err(e) => {
            return Err(e);
        },
    };
    let behind = match validate_in_direction(models, 0, MigrationDirection::Backward) {
        Ok(visited) => visited,
        Err(e) => {
            return Err(e);
        },
    };
    let ghost ahead_run = scan(table, seq![0int], MigrationDirection::Forward)->Ok_0;
    let ghost behind_run = scan(table, seq![0int], MigrationDirection::Backward)->Ok_0;
    let ghost ahead_versions = views(visited@);
    let mut i: usize = 0;
    while i < behind.len()
        invariant
            i <= behind.len(),
            views(visited@) == ahead_versions + views(behind@).subrange(0, i as int),
        decreases behind.len() - i,
    {
        let ghost before = visited@;
        let version = behind[i].clone();
        visited.push(version);
        proof {
            lemma_views_push(before, version);
            assert(views(behind@).subrange(0, i + 1) =~= views(behind@).subrange(0, i as int).push(
                version@,
            ));
            assert(views(visited@) =~= ahead_versions + views(behind@).subrange(0, i + 1));
        }
        i += 1;
    }
    let mut all_known_models: Vec<String> = Vec::new();
    let mut k: usize = 0;
    while k < models.len()
        invariant
            k <= models.models().len(),
            table == table_of(models.models()),
            all_known_models@.len() == k,
            forall|j: int| 0 <= j < k ==> (#[trigger] all_known_models@[j])@ == table[j].version,
        decreases models.models().len() - k,
    {
        let version = models.model_at(k).get_version();
        all_known_models.push(version);
        k += 1;
    }
    proof {
        assert(views(behind@).subrange(0, behind@.len() as int) =~= views(behind@));
        let known = views(all_known_models@).to_set();
        let met = views(visited@).to_set();
        let union = versions_along(table, ahead_run).union(versions_along(table, behind_run));
        assert(known =~= all_versions(table)) by {
            assert forall|v: Seq<char>| known.contains(v) <==> all_versions(table).contains(v) by {
                if known.contains(v) {
                    let j = choose|j: int|
                        0 <= j < views(all_known_models@).len() && views(all_known_models@)[j] == v;
                    assert(all_known_models@[j]@ == table[j].version);
                    assert(knows(table, v));
                }
                if knows(table, v) {
                    let j = choose|j: int| 0 <= j < table.len() && #[trigger] table[j].version == v;
                    assert(all_known_models@[j]@ == table[j].version);
                    assert(views(all_known_models@)[j] == v);
                }
            }
        }
        assert(met =~= union) by {
            let ahead = ahead_versions;
            let back = views(behind@);
            assert forall|v: Seq<char>| met.contains(v) <==> union.contains(v) by {
                if met.contains(v) {
                    let j = choose|j: int| 0 <= j < (ahead + back).len() && (ahead + back)[j] == v;
                    if j < ahead.len() {
                        assert(table[ahead_run[j]].version == v);
                    } else {
                        assert(table[behind_run[j - ahead.len()]].version == v);
                    }
                }
                if versions_along(table, ahead_run).contains(v) {
                    let j = choose|j: int|
                        0 <= j < ahead_run.len() && table[#[trigger] ahead_run[j]].version == v;
                    assert((ahead + back)[j] == v);
                }
                if versions_along(table, behind_run).contains(v) {
                    let j = choose|j: int|
                        0 <= j < behind_run.len() && table[#[trigger] behind_run[j]].version == v;
                    assert((ahead + back)[ahead.len() + j] == v);
                }
            }
        }
    }
    disjoint_model_check(&all_known_models, &visited)
}

/// Follows the chain from the model at `start` in the given direction to its end, checking
/// that:
/// * all links have a matching link back (e.g. A -> B => A <- B)
/// * we do not visit any model more than once
///
/// Returns the versions of the models met, the starting model first.
fn validate_in_direction<S>(models: &S, start: usize, direction: MigrationDirection) -> (r:
    Result<Vec<String>, LinearMigratorError>) where
    S: ModelStore,
    S::ModelKind: TypeErasedLinearlyMigrateable,

    requires
        start < models.models().len(),
        is_first(
            table_of(models.models()),
            table_of(models.models())[start as int].version,
            start as int,
        ),
    ensures
        match scan(table_of(models.models()), seq![start as int], direction) {
            Ok(run) => r matches Ok(visited) && views(visited@) == versions_on(
                table_of(models.models()),
                run,
            ),
            Err(found) => r matches Err(e) && reports(e@, found),
        },
{
    let ghost table = table_of(models.models());
    let ghost mut path = seq![start as int];
    let mut current = models.model_at(start);
    let mut visited: Vec<String> = Vec::new();
    visited.push(current.get_version());
    proof {
        assert(views(visited@) =~= versions_on(table, path));
    }
    loop
        invariant
            table == table_of(models.models()),
            simple(table, path),
            *current == models.models()[path.last()],
            views(visited@) == versions_on(table, path),
            forall|k: int|
                0 <= k < path.len() ==> is_first(table, table[path[k]].version, #[trigger] path[k]),
            scan(table, seq![start as int], direction) == scan(table, path, direction),
        decreases table.len() - path.len(),
    {
        let ghost at = path.last();
        let next_version = match current.migrates_to(direction) {
            Some(version) => version,
            None => {
                return Ok(visited);
            },
        };
        proof {
            lemma_position_in_table(models.models(), next_version@);
            lemma_step_in_table(table, at, direction);
            lemma_index_of(table, next_version@);
        }
        let next_model = match models.get_model(next_version.as_str()) {
            Some(model) => model,
            None => {
                return Ok(visited);
            },
        };
        let ghost next = step(table, at, direction)->0;
        let back = next_model.migrates_to(direction.opposite());
        let previous_version = current.get_version();
        let version = next_model.get_version();
        let reversible = match &back {
            Some(back_version) => *back_version == previous_version,
            None => false,
        };
        if !reversible {
            return Err(
                LinearMigratorError::IrreversibleMigrationChain {
                    lhs_version: previous_version,
                    fulcrum: version,
                    rhs_version: back,
                    direction,
                },
            );
        }
        assert(links_back(table, at, next, direction));
        if holds_version(&visited, &version) {
            proof {
                let k = choose|k: int|
                    0 <= k < views(visited@).len() && views(visited@)[k] == version@;
                assert(table[path[k]].version == version@);
                lemma_first_is_found(table, version@, path[k]);
                assert(path[k] == next);
                assert(path.contains(next));
            }
            return Err(LinearMigratorError::MigrationLoop { version });
        }
        proof {
            if path.contains(next) {
                let k = choose|k: int| 0 <= k < path.len() && path[k] == next;
                assert(views(visited@)[k] == version@);
                assert(false);
            }
            lemma_simple_push(table, path, next);
            lemma_simple_is_short(table, path.push(next));
            let ghost longer = path.push(next);
            lemma_views_push(visited@, version);
            assert(versions_on(table, longer) =~= versions_on(table, path).push(version@));
            assert forall|k: int| 0 <= k < longer.len() implies is_first(
                table,
                table[longer[k]].version,
                #[trigger] longer[k],
            ) by {
                if k < path.len() {
                    assert(longer[k] == path[k]);
                }
            }
            path = longer;
        }
        visited.push(version);
        current = next_model;
    }
}

/// Given the versions of all known models and the versions of the models discovered during a
/// search, returns an error if a disjoint migration chain exists: if some version is in one
/// of the lists and not in the other.
pub fn disjoint_model_check(all_known_models: &Vec<String>, discovered_models: &Vec<String>) -> (r:
    Result<(), LinearMigratorError>)
    ensures
        ({
            let known = views(all_known_models@).to_set();
            let discovered = views(discovered_models@).to_set();
            let disjoint = symmetric_difference(known, discovered);
            match r {
                Ok(()) => holds_none(disjoint),
                Err(e) => !holds_none(disjoint) && reports(
                    e@,
                    ChainDefect::Disjoint { unreachable: disjoint, visited: discovered },
                ),
            }
        }),
{
    let ghost known = views(all_known_models@);
    let ghost discovered = views(discovered_models@);
    let ghost disjoint = symmetric_difference(known.to_set(), discovered.to_set());
    let mut disjoint_models: Vec<String> = Vec::new();
    let mut i: usize = 0;
    while i < all_known_models.len()
        invariant
            i <= all_known_models.len(),
            known == views(all_known_models@),
            discovered == views(discovered_models@),
            forall|v: Seq<char>|
                #![trigger views(disjoint_models@).contains(v)]
                views(disjoint_models@).contains(v) <==> known.subrange(0, i as int).contains(v)
                    && !discovered.contains(v),
        decreases all_known_models.len() - i,
    {
        let ghost before = views(disjoint_models@);
        let ghost seen = known.subrange(0, i as int);
        let ghost item = known[i as int];
        if !holds_version(discovered_models, &all_known_models[i]) {
            let version = all_known_models[i].clone();
            proof {
                lemma_views_push(disjoint_models@, version);
            }
            disjoint_models.push(version);
        }
        proof {
            let now = known.subrange(0, i + 1);
            let after = views(disjoint_models@);
            assert(now =~= seen.push(item));
            assert(discovered.contains(item) ==> after == before);
            assert(!discovered.contains(item) ==> after == before.push(item));
            assert forall|v: Seq<char>| after.contains(v) <==> now.contains(v)
                && !discovered.contains(v) by {
                if after.contains(v) {
                    let k = choose|k: int| 0 <= k < after.len() && after[k] == v;
                    if k < before.len() {
                        assert(before[k] == v);
                        assert(before.contains(v));
                        let l = choose|l: int| 0 <= l < seen.len() && seen[l] == v;
                        assert(now[l] == v);
                    } else {
                        assert(now[i as int] == v);
                    }
                }
                if now.contains(v) && !discovered.contains(v) {
                    let k = choose|k: int| 0 <= k < now.len() && now[k] == v;
                    if k < i {
                        assert(seen[k] == v);
                        assert(before.contains(v));
                        let l = choose|l: int| 0 <= l < before.len() && before[l] == v;
                        assert(after[l] == v);
                    } else {
                        assert(after[after.len() - 1] == v);
                    }
                }
            }
        }
        i += 1;
    }
    let ghost unreached = views(disjoint_models@);
    let mut j: usize = 0;
    while j < discovered_models.len()
        invariant
            j <= discovered_models.len(),
            known == views(all_known_models@),
            discovered == views(discovered_models@),
            forall|v: Seq<char>|
                #![trigger views(disjoint_models@).contains(v)]
                views(disjoint_models@).contains(v) <==> unreached.contains(v)
                    || (discovered.subrange(0, j as int).contains(v) && !known.contains(v)),
        decreases discovered_models.len() - j,
    {
        let ghost before = views(disjoint_models@);
        let ghost seen = discovered.subrange(0, j as int);
        let ghost item = discovered[j as int];
        if !holds_version(all_known_models, &discovered_models[j]) {
            let version = discovered_models[j].clone();
            proof {
                lemma_views_push(disjoint_models@, version);
            }
            disjoint_models.push(version);
        }
        proof {
            let now = discovered.subrange(0, j + 1);
            let after = views(disjoint_models@);
            assert(now =~= seen.push(item));
            assert(known.contains(item) ==> after == before);
            assert(!known.contains(item) ==> after == before.push(item));
            assert forall|v: Seq<char>| after.contains(v) <==> unreached.contains(v) || (
            now.contains(v) && !known.contains(v)) by {
                if after.contains(v) {
                    let k = choose|k: int| 0 <= k < after.len() && after[k] == v;
                    if k < before.len() {
                        assert(before[k] == v);
                        assert(before.contains(v));
                        if !unreached.contains(v) {
                            let l = choose|l: int| 0 <= l < seen.len() && seen[l] == v;
                            assert(now[l] == v);
                        }
                    } else {
                        assert(now[j as int] == v);
                    }
                }
                if unreached.contains(v) || (now.contains(v) && !known.contains(v)) {
                    if unreached.contains(v) {
                        assert(before.contains(v));
                        let l = choose|l: int| 0 <= l < before.len() && before[l] == v;
                        assert(after[l] == v);
                    } else {
                        let k = choose|k: int| 0 <= k < now.len() && now[k] == v;
                        if k < j {
                            assert(seen[k] == v);
                            assert(before.contains(v));
                            let l = choose|l: int| 0 <= l < before.len() && before[l] == v;
                            assert(after[l] == v);
                        } else {
                            assert(after[after.len() - 1] == v);
                        }
                    }
                }
            }
        }
        j += 1;
    }
    proof {
        assert(known.subrange(0, known.len() as int) =~= known);
        assert(discovered.subrange(0, discovered.len() as int) =~= discovered);
        assert(views(disjoint_models@).to_set() =~= disjoint);
    }
    if disjoint_models.len() == 0 {
        proof {
            assert forall|v: Seq<char>| !disjoint.contains(v) by {
                if disjoint.contains(v) {
                    let k = choose|k: int|
                        0 <= k < views(disjoint_models@).len() && views(disjoint_models@)[k] == v;
                }
            }
        }
        return Ok(());
    }
    proof {
        assert(views(disjoint_models@)[0] == disjoint_models@[0]@);
        assert(views(disjoint_models@).contains(disjoint_models@[0]@));
        assert(disjoint.contains(disjoint_models@[0]@));
    }
    // Sort versions to make the error message more readable.
    let unreachable_versions = sorted_versions(&disjoint_models);
    let visited_versions = sorted_versions(discovered_models);
    Err(LinearMigratorError::DisjointMigrationChain { unreachable_versions, visited_versions })
}

} // verus!
