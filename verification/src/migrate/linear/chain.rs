//! The mathematics of a migration chain: what the models of a store say of their neighbours,
//! where following those links leads, and when they lay the models out in one line.
use super::MigrationDirection;
use crate::version::{first_of, lemma_first_of, lemma_first_of_is};
use vstd::prelude::*;

verus! {

/// What one model says of its place in the chain.
pub struct Links {
    /// The model's own version.
    pub version: Seq<char>,
    /// The version that the model migrates forward to, if any.
    pub forward: Option<Seq<char>>,
    /// The version that the model migrates backward to, if any.
    pub backward: Option<Seq<char>>,
}

impl Links {
    /// The version that the model migrates to in the given direction, if any.
    pub open spec fn toward(self, direction: MigrationDirection) -> Option<Seq<char>> {
        match direction {
            MigrationDirection::Forward => self.forward,
            MigrationDirection::Backward => self.backward,
        }
    }
}

/// Whether the table holds a model of the given version.
pub open spec fn knows(table: Seq<Links>, version: Seq<char>) -> bool {
    exists|i: int| 0 <= i < table.len() && #[trigger] table[i].version == version
}

/// Whether no two models of the table have the same version.
pub open spec fn distinct_versions(table: Seq<Links>) -> bool {
    forall|i: int, j: int|
        0 <= i < j < table.len() ==> #[trigger] table[i].version != #[trigger] table[j].version
}

/// Whether `i` is the place of the first model of the given version.
pub open spec fn is_first(table: Seq<Links>, version: Seq<char>, i: int) -> bool {
    &&& 0 <= i < table.len()
    &&& table[i].version == version
    &&& forall|j: int| 0 <= j < i ==> #[trigger] table[j].version != version
}

/// The versions of the models of the table, model by model.
pub open spec fn versions_of(table: Seq<Links>) -> Seq<Seq<char>> {
    Seq::new(table.len(), |i: int| table[i].version)
}

/// The place of the model that a lookup of `version` finds: the first of that version.
pub open spec fn index_of(table: Seq<Links>, version: Seq<char>) -> Option<int> {
    first_of(versions_of(table), version)
}

/// The place of the model that the model at `at` migrates to in the given direction. A link
/// to a version of which the table holds no model leads nowhere, as no link does.
pub open spec fn step(table: Seq<Links>, at: int, direction: MigrationDirection) -> Option<int> {
    match table[at].toward(direction) {
        Some(version) => index_of(table, version),
        None => None,
    }
}

/// Only one place is the first of a version.
pub proof fn lemma_first_is_found(table: Seq<Links>, version: Seq<char>, i: int)
    requires
        is_first(table, version, i),
    ensures
        index_of(table, version) == Some(i),
{
    assert forall|j: int| 0 <= j < i implies versions_of(table)[j] != version by {
        assert(table[j].version != version);
    }
    lemma_first_of_is(versions_of(table), version, i);
}

/// What a lookup finds is the first model of the version; it finds none only where the
/// table holds none.
pub proof fn lemma_index_of(table: Seq<Links>, version: Seq<char>)
    ensures
        match index_of(table, version) {
            Some(i) => is_first(table, version, i),
            None => !knows(table, version),
        },
        index_of(table, version) is Some <==> knows(table, version),
{
    lemma_first_of(versions_of(table), version);
    match index_of(table, version) {
        Some(i) => {
            assert forall|j: int| 0 <= j < i implies #[trigger] table[j].version != version by {
                assert(versions_of(table)[j] != version);
            }
            assert(table[i].version == version);
        },
        None => {
            if knows(table, version) {
                let k = choose|k: int| 0 <= k < table.len() && #[trigger] table[k].version == version;
                assert(versions_of(table)[k] == version);
            }
        },
    }
}

/// Among distinct versions, the lookup of a model's version finds that model.
pub proof fn lemma_finds_itself(table: Seq<Links>, i: int)
    requires
        distinct_versions(table),
        0 <= i < table.len(),
    ensures
        index_of(table, table[i].version) == Some(i),
{
    assert(is_first(table, table[i].version, i));
    lemma_first_is_found(table, table[i].version, i);
}

/// Whether `path` names models of the table, at least one and none twice.
pub open spec fn simple(table: Seq<Links>, path: Seq<int>) -> bool {
    &&& path.len() > 0
    &&& forall|k: int| 0 <= k < path.len() ==> 0 <= #[trigger] path[k] < table.len()
    &&& forall|k: int, l: int| 0 <= k < l < path.len() ==> path[k] != path[l]
}

/// A path that names no model twice is no longer than the table.
pub proof fn lemma_simple_is_short(table: Seq<Links>, path: Seq<int>)
    requires
        simple(table, path),
    ensures
        path.len() <= table.len(),
{
    assert(path.no_duplicates());
    path.unique_seq_to_set();
    vstd::set_lib::lemma_int_range(0, table.len() as int);
    assert(path.to_set().subset_of(vstd::set_lib::set_int_range(0, table.len() as int))) by {
        assert forall|x: int| path.to_set().contains(x) implies vstd::set_lib::set_int_range(
            0,
            table.len() as int,
        ).contains(x) by {
            let k = choose|k: int| 0 <= k < path.len() && path[k] == x;
            assert(0 <= path[k] < table.len());
        }
    }
    vstd::set_lib::lemma_len_subset(
        path.to_set(),
        vstd::set_lib::set_int_range(0, table.len() as int),
    );
}

/// What is wrong with a table whose models do not form one chain.
pub enum ChainDefect {
    /// Following the links led back to a model that was met before.
    Loop { version: Seq<char> },
    /// The model `lhs_version` migrates in `direction` to `fulcrum`, which does not migrate
    /// back to it, but to `rhs_version`.
    Irreversible {
        lhs_version: Seq<char>,
        fulcrum: Seq<char>,
        rhs_version: Option<Seq<char>>,
        direction: MigrationDirection,
    },
    /// The links from the starting model lead to the versions `visited`, and not to the
    /// versions `unreachable`.
    Disjoint { unreachable: Set<Seq<char>>, visited: Set<Seq<char>> },
}

/// Whether the model at `next`, met by a step in `direction` from the model at `at`, migrates
/// back to that model.
pub open spec fn links_back(
    table: Seq<Links>,
    at: int,
    next: int,
    direction: MigrationDirection,
) -> bool {
    table[next].toward(direction.flipped()) == Some(table[at].version)
}

/// Follows the links in `direction` from the last model of `path`, the models met so far, to
/// the end of the chain. Each step is checked before it is taken: the model it leads to must
/// migrate back to the model it comes from, and must not have been met before. The result is
/// the path to the end of the chain, or the first step that fails a check.
pub open spec fn scan(table: Seq<Links>, path: Seq<int>, direction: MigrationDirection) -> Result<
    Seq<int>,
    ChainDefect,
>
    decreases table.len() - path.len(),
    when simple(table, path)
{
    let at = path.last();
    match step(table, at, direction) {
        None => Ok(path),
        Some(next) => {
            if !links_back(table, at, next, direction) {
                Err(
                    ChainDefect::Irreversible {
                        lhs_version: table[at].version,
                        fulcrum: table[next].version,
                        rhs_version: table[next].toward(direction.flipped()),
                        direction,
                    },
                )
            } else if path.contains(next) {
                Err(ChainDefect::Loop { version: table[next].version })
            } else {
                proof {
                    lemma_step_in_table(table, at, direction);
                    lemma_simple_push(table, path, next);
                    lemma_simple_is_short(table, path.push(next));
                }
                scan(table, path.push(next), direction)
            }
        },
    }
}

/// A step leads to a model of the table.
pub proof fn lemma_step_in_table(table: Seq<Links>, at: int, direction: MigrationDirection)
    ensures
        step(table, at, direction) matches Some(next) ==> 0 <= next < table.len() && Some(
            table[next].version,
        ) == table[at].toward(direction),
{
    if let Some(version) = table[at].toward(direction) {
        lemma_index_of(table, version);
    }
}

/// A path stays simple when a model of the table that it does not name is added to it.
pub proof fn lemma_simple_push(table: Seq<Links>, path: Seq<int>, next: int)
    requires
        simple(table, path),
        0 <= next < table.len(),
        !path.contains(next),
    ensures
        simple(table, path.push(next)),
{
    let longer = path.push(next);
    assert forall|k: int, l: int| 0 <= k < l < longer.len() implies longer[k] != longer[l] by {
        if l == path.len() {
            assert(path[k] == longer[k]);
            assert(path.contains(path[k]));
        }
    }
}

/// The versions of the models that a path names, in the path's order.
pub open spec fn versions_on(table: Seq<Links>, path: Seq<int>) -> Seq<Seq<char>> {
    Seq::new(path.len(), |k: int| table[path[k]].version)
}

/// The versions of the models that a path names.
pub open spec fn versions_along(table: Seq<Links>, path: Seq<int>) -> Set<Seq<char>> {
    Set::new(|v: Seq<char>| exists|k: int| 0 <= k < path.len() && table[#[trigger] path[k]].version == v)
}

/// The versions of all models of the table.
pub open spec fn all_versions(table: Seq<Links>) -> Set<Seq<char>> {
    Set::new(|v: Seq<char>| knows(table, v))
}

/// The versions that are in one of two sets and not in the other.
pub open spec fn symmetric_difference(a: Set<Seq<char>>, b: Set<Seq<char>>) -> Set<Seq<char>> {
    a.difference(b).union(b.difference(a))
}

/// Whether a set holds no version.
pub open spec fn holds_none(versions: Set<Seq<char>>) -> bool {
    forall|v: Seq<char>| !versions.contains(v)
}

/// What is wrong with the table, if anything: the verdict of following the links from the
/// first model, forward and then backward, and of then comparing the versions met with the
/// versions of all models.
pub open spec fn defect(table: Seq<Links>) -> Option<ChainDefect> {
    if table.len() == 0 {
        None
    } else {
        match scan(table, seq![0int], MigrationDirection::Forward) {
            Err(found) => Some(found),
            Ok(ahead) => match scan(table, seq![0int], MigrationDirection::Backward) {
                Err(found) => Some(found),
                Ok(behind) => {
                    let visited = versions_along(table, ahead).union(versions_along(table, behind));
                    let unreachable = symmetric_difference(all_versions(table), visited);
                    if holds_none(unreachable) {
                        None
                    } else {
                        Some(ChainDefect::Disjoint { unreachable, visited })
                    }
                },
            },
        }
    }
}

/// Whether `run` is a stretch of the chain that leads in `direction` to its end: every model
/// of it migrates to the next, which migrates back to it, none is met twice, and the last
/// migrates to no model.
pub open spec fn is_run(table: Seq<Links>, run: Seq<int>, direction: MigrationDirection) -> bool {
    &&& simple(table, run)
    &&& forall|k: int|
        0 <= k < run.len() - 1 ==> #[trigger] step(table, run[k], direction) == Some(run[k + 1])
            && links_back(table, run[k], run[k + 1], direction)
    &&& step(table, run.last(), direction) is None
}

/// Whether `order` lines models of the table up: it names no model twice, each model
/// migrates forward to the one after it and backward to the one before it, and the two at
/// the ends migrate no further.
pub open spec fn lines_up(table: Seq<Links>, order: Seq<int>) -> bool {
    &&& forall|k: int| 0 <= k < order.len() ==> 0 <= #[trigger] order[k] < table.len()
    &&& forall|k: int, l: int| 0 <= k < l < order.len() ==> order[k] != order[l]
    &&& forall|k: int|
        0 <= k < order.len() - 1 ==> (#[trigger] table[order[k]]).forward == Some(
            table[order[k + 1]].version,
        ) && table[order[k + 1]].backward == Some(table[order[k]].version)
    &&& order.len() > 0 ==> step(table, order[0], MigrationDirection::Backward) is None && step(
        table,
        order.last(),
        MigrationDirection::Forward,
    ) is None
}

/// Whether `order` lays the models of the table out in one line: it lines them up and names
/// every model.
pub open spec fn lays_out(table: Seq<Links>, order: Seq<int>) -> bool {
    &&& lines_up(table, order)
    &&& forall|i: int| 0 <= i < table.len() ==> order.contains(i)
}

/// Whether the models of the table form one linear, reversible chain without loops that
/// includes them all.
pub open spec fn is_linear_chain(table: Seq<Links>) -> bool {
    &&& distinct_versions(table)
    &&& exists|order: Seq<int>| lays_out(table, order)
}

/// Whether `path` follows the links in `direction` from model to model, each step leading to
/// a model that migrates back and that was not met before.
pub open spec fn is_trail(table: Seq<Links>, path: Seq<int>, direction: MigrationDirection) -> bool {
    &&& simple(table, path)
    &&& forall|k: int|
        0 <= k < path.len() - 1 ==> #[trigger] step(table, path[k], direction) == Some(path[k + 1])
            && links_back(table, path[k], path[k + 1], direction)
}

/// A run is a trail, and so is every stretch of it from its start.
pub proof fn lemma_run_prefix(table: Seq<Links>, run: Seq<int>, direction: MigrationDirection, k: int)
    requires
        is_run(table, run, direction) || is_trail(table, run, direction),
        0 < k <= run.len(),
    ensures
        is_trail(table, run.subrange(0, k), direction),
{
    let head = run.subrange(0, k);
    assert forall|i: int| 0 <= i < head.len() - 1 implies #[trigger] step(
        table,
        head[i],
        direction,
    ) == Some(head[i + 1]) && links_back(table, head[i], head[i + 1], direction) by {
        assert(head[i] == run[i] && head[i + 1] == run[i + 1]);
        assert(step(table, run[i], direction) == Some(run[i + 1]));
    }
    assert forall|i: int| 0 <= i < head.len() implies 0 <= #[trigger] head[i] < table.len() by {
        assert(head[i] == run[i]);
    }
}

/// Where the scan from a trail ends well, it ends with a run that begins with the trail.
pub proof fn lemma_scan_ends_with_run(
    table: Seq<Links>,
    path: Seq<int>,
    direction: MigrationDirection,
)
    requires
        is_trail(table, path, direction),
    ensures
        scan(table, path, direction) matches Ok(run) ==> is_run(table, run, direction)
            && path.len() <= run.len() && run.subrange(0, path.len() as int) == path,
    decreases table.len() - path.len(),
{
    let at = path.last();
    match step(table, at, direction) {
        None => {
            assert(path.subrange(0, path.len() as int) =~= path);
        },
        Some(next) => {
            if links_back(table, at, next, direction) && !path.contains(next) {
                lemma_step_in_table(table, at, direction);
                lemma_simple_push(table, path, next);
                lemma_simple_is_short(table, path.push(next));
                let longer = path.push(next);
                assert forall|k: int| 0 <= k < longer.len() - 1 implies #[trigger] step(
                    table,
                    longer[k],
                    direction,
                ) == Some(longer[k + 1]) && links_back(
                    table,
                    longer[k],
                    longer[k + 1],
                    direction,
                ) by {
                    if k < path.len() - 1 {
                        assert(longer[k] == path[k] && longer[k + 1] == path[k + 1]);
                        assert(step(table, path[k], direction) == Some(path[k + 1]));
                    }
                }
                lemma_scan_ends_with_run(table, longer, direction);
                if let Ok(run) = scan(table, longer, direction) {
                    assert(run.subrange(0, path.len() as int) =~= run.subrange(
                        0,
                        longer.len() as int,
                    ).subrange(0, path.len() as int));
                    assert(longer.subrange(0, path.len() as int) =~= path);
                }
            }
        },
    }
}

/// The scan from any stretch of a run that begins at the run's start ends with the run.
pub proof fn lemma_run_is_scanned(
    table: Seq<Links>,
    run: Seq<int>,
    direction: MigrationDirection,
    k: int,
)
    requires
        is_run(table, run, direction),
        0 < k <= run.len(),
    ensures
        scan(table, run.subrange(0, k), direction) == Ok::<Seq<int>, ChainDefect>(run),
    decreases run.len() - k,
{
    let head = run.subrange(0, k);
    lemma_run_prefix(table, run, direction, k);
    assert(head.last() == run[k - 1]);
    if k == run.len() {
        assert(head =~= run);
    } else {
        let next = run[k];
        assert(step(table, run[k - 1], direction) == Some(next));
        assert(!head.contains(next)) by {
            if head.contains(next) {
                let i = choose|i: int| 0 <= i < head.len() && head[i] == next;
                assert(run[i] == run[k]);
            }
        }
        assert(head.push(next) =~= run.subrange(0, k + 1));
        lemma_run_is_scanned(table, run, direction, k + 1);
    }
}

/// The stretch of a line of models from the model at `from` to the line's end in `direction`,
/// in the order in which following the links meets them.
pub open spec fn stretch(order: Seq<int>, from: int, direction: MigrationDirection) -> Seq<int> {
    match direction {
        MigrationDirection::Forward => order.subrange(from, order.len() as int),
        MigrationDirection::Backward => Seq::new((from + 1) as nat, |j: int| order[from - j]),
    }
}

/// In a line of models, the stretch from any model to either end is a run.
pub proof fn lemma_stretch_is_run(
    table: Seq<Links>,
    order: Seq<int>,
    from: int,
    direction: MigrationDirection,
)
    requires
        distinct_versions(table),
        lines_up(table, order),
        0 <= from < order.len(),
    ensures
        is_run(table, stretch(order, from, direction), direction),
        stretch(order, from, direction)[0] == order[from],
{
    let run = stretch(order, from, direction);
    match direction {
        MigrationDirection::Forward => {
            assert forall|k: int| 0 <= k < run.len() implies 0 <= #[trigger] run[k] < table.len() by {
                assert(run[k] == order[from + k]);
            }
            assert forall|k: int| 0 <= k < run.len() - 1 implies #[trigger] step(
                table,
                run[k],
                direction,
            ) == Some(run[k + 1]) && links_back(table, run[k], run[k + 1], direction) by {
                assert(run[k] == order[from + k] && run[k + 1] == order[from + k + 1]);
                assert(table[order[from + k]].forward == Some(table[order[from + k + 1]].version));
                lemma_finds_itself(table, order[from + k + 1]);
            }
            assert(run.last() == order.last());
        },
        MigrationDirection::Backward => {
            assert forall|k: int| 0 <= k < run.len() implies 0 <= #[trigger] run[k] < table.len() by {
                assert(run[k] == order[from - k]);
            }
            assert forall|k: int| 0 <= k < run.len() - 1 implies #[trigger] step(
                table,
                run[k],
                direction,
            ) == Some(run[k + 1]) && links_back(table, run[k], run[k + 1], direction) by {
                assert(run[k] == order[from - k] && run[k + 1] == order[from - k - 1]);
                assert(table[order[from - k - 1]].forward == Some(table[order[from - k]].version));
                assert(table[order[from - k - 1 + 1]].backward == Some(
                    table[order[from - k - 1]].version,
                ));
                lemma_finds_itself(table, order[from - k - 1]);
            }
            assert(run.last() == order[0]);
        },
    }
}

/// Where models are lined up, the scans from one of them end with the stretches of the line
/// from that model to the line's ends.
pub proof fn lemma_line_is_scanned(table: Seq<Links>, order: Seq<int>, from: int)
    requires
        distinct_versions(table),
        lines_up(table, order),
        0 <= from < order.len(),
    ensures
        scan(table, seq![order[from]], MigrationDirection::Forward) == Ok::<Seq<int>, ChainDefect>(
            stretch(order, from, MigrationDirection::Forward),
        ),
        scan(table, seq![order[from]], MigrationDirection::Backward) == Ok::<Seq<int>, ChainDefect>(
            stretch(order, from, MigrationDirection::Backward),
        ),
{
    let ahead = stretch(order, from, MigrationDirection::Forward);
    let behind = stretch(order, from, MigrationDirection::Backward);
    lemma_stretch_is_run(table, order, from, MigrationDirection::Forward);
    lemma_stretch_is_run(table, order, from, MigrationDirection::Backward);
    lemma_run_is_scanned(table, ahead, MigrationDirection::Forward, 1);
    lemma_run_is_scanned(table, behind, MigrationDirection::Backward, 1);
    assert(ahead.subrange(0, 1) =~= seq![order[from]]);
    assert(behind.subrange(0, 1) =~= seq![order[from]]);
}

/// The versions met on the two stretches from a model of a line are the versions of the
/// models of the line.
pub proof fn lemma_stretches_cover_line(table: Seq<Links>, order: Seq<int>, from: int)
    requires
        0 <= from < order.len(),
    ensures
        versions_along(table, stretch(order, from, MigrationDirection::Forward)).union(
            versions_along(table, stretch(order, from, MigrationDirection::Backward)),
        ) == versions_along(table, order),
{
    let ahead = stretch(order, from, MigrationDirection::Forward);
    let behind = stretch(order, from, MigrationDirection::Backward);
    let both = versions_along(table, ahead).union(versions_along(table, behind));
    assert forall|v: Seq<char>| both.contains(v) <==> versions_along(table, order).contains(v) by {
        if versions_along(table, ahead).contains(v) {
            let k = choose|k: int| 0 <= k < ahead.len() && table[#[trigger] ahead[k]].version == v;
            assert(table[order[from + k]].version == v);
        }
        if versions_along(table, behind).contains(v) {
            let k = choose|k: int| 0 <= k < behind.len() && table[#[trigger] behind[k]].version == v;
            assert(table[order[from - k]].version == v);
        }
        if versions_along(table, order).contains(v) {
            let k = choose|k: int| 0 <= k < order.len() && table[#[trigger] order[k]].version == v;
            if k >= from {
                assert(table[ahead[k - from]].version == v);
            } else {
                assert(table[behind[from - k]].version == v);
            }
        }
    }
    assert(both =~= versions_along(table, order));
}

/// A table whose models form one chain has no defect.
pub proof fn lemma_chain_has_no_defect(table: Seq<Links>)
    requires
        is_linear_chain(table),
    ensures
        defect(table) is None,
{
    if table.len() > 0 {
        let order = choose|order: Seq<int>| lays_out(table, order);
        assert(order.contains(0));
        let from = choose|k: int| 0 <= k < order.len() && order[k] == 0;
        lemma_line_is_scanned(table, order, from);
        lemma_stretches_cover_line(table, order, from);
        let visited = versions_along(table, order);
        assert forall|v: Seq<char>| !symmetric_difference(all_versions(table), visited).contains(
            v,
        ) by {
            if knows(table, v) {
                let i = choose|i: int| 0 <= i < table.len() && #[trigger] table[i].version == v;
                assert(order.contains(i));
                let k = choose|k: int| 0 <= k < order.len() && order[k] == i;
                assert(table[order[k]].version == v);
            }
            if visited.contains(v) {
                let k = choose|k: int| 0 <= k < order.len() && table[#[trigger] order[k]].version == v;
                assert(knows(table, v));
            }
        }
    }
}

/// Where the first model stands in a line of models that leaves out some model of the table,
/// the table's defect is a disjoint chain: the versions of the models of the line are
/// visited, and the versions of all other models are unreachable.
pub proof fn lemma_models_off_the_line(table: Seq<Links>, order: Seq<int>, off: int)
    requires
        distinct_versions(table),
        lines_up(table, order),
        order.contains(0),
        0 <= off < table.len(),
        !order.contains(off),
    ensures
        defect(table) == Some(
            ChainDefect::Disjoint {
                unreachable: all_versions(table).difference(versions_along(table, order)),
                visited: versions_along(table, order),
            },
        ),
        forall|i: int|
            0 <= i < table.len() ==> (all_versions(table).difference(
                versions_along(table, order),
            ).contains(#[trigger] table[i].version) <==> !order.contains(i)),
{
    let from = choose|k: int| 0 <= k < order.len() && order[k] == 0;
    lemma_line_is_scanned(table, order, from);
    lemma_stretches_cover_line(table, order, from);
    let visited = versions_along(table, order);
    let unreachable = all_versions(table).difference(visited);
    assert forall|i: int| 0 <= i < table.len() implies (unreachable.contains(
        #[trigger] table[i].version,
    ) <==> !order.contains(i)) by {
        assert(knows(table, table[i].version));
        if visited.contains(table[i].version) {
            let k = choose|k: int|
                0 <= k < order.len() && table[#[trigger] order[k]].version == table[i].version;
            if order[k] < i {
                assert(table[order[k]].version != table[i].version);
            } else if i < order[k] {
                assert(table[i].version != table[order[k]].version);
            }
            assert(order[k] == i);
        }
        if order.contains(i) {
            let k = choose|k: int| 0 <= k < order.len() && order[k] == i;
            assert(table[order[k]].version == table[i].version);
        }
    }
    assert(symmetric_difference(all_versions(table), visited) =~= unreachable) by {
        assert forall|v: Seq<char>| visited.contains(v) implies all_versions(table).contains(v) by {
            let k = choose|k: int| 0 <= k < order.len() && table[#[trigger] order[k]].version == v;
            assert(knows(table, v));
        }
    }
    assert(unreachable.contains(table[off].version));
}

/// The scan from any stretch of a trail that begins at the trail's start is the scan from
/// the trail.
pub proof fn lemma_scan_along_trail(
    table: Seq<Links>,
    path: Seq<int>,
    direction: MigrationDirection,
    k: int,
)
    requires
        is_trail(table, path, direction),
        0 < k <= path.len(),
    ensures
        scan(table, path.subrange(0, k), direction) == scan(table, path, direction),
    decreases path.len() - k,
{
    let head = path.subrange(0, k);
    lemma_run_prefix(table, path, direction, k);
    assert(head.last() == path[k - 1]);
    if k == path.len() {
        assert(head =~= path);
    } else {
        let next = path[k];
        assert(step(table, path[k - 1], direction) == Some(next));
        assert(!head.contains(next)) by {
            if head.contains(next) {
                let i = choose|i: int| 0 <= i < head.len() && head[i] == next;
                assert(path[i] == path[k]);
            }
        }
        assert(head.push(next) =~= path.subrange(0, k + 1));
        lemma_scan_along_trail(table, path, direction, k + 1);
    }
}

/// Where the links lead forward from the first model round a ring of models, each migrating
/// back to the one before it, and the first to the last, the table's defect is a migration
/// loop at the first model's version.
pub proof fn lemma_ring_is_loop(table: Seq<Links>, ring: Seq<int>)
    requires
        distinct_versions(table),
        simple(table, ring),
        ring[0] == 0,
        forall|k: int|
            0 <= k < ring.len() - 1 ==> (#[trigger] table[ring[k]]).forward == Some(
                table[ring[k + 1]].version,
            ) && table[ring[k + 1]].backward == Some(table[ring[k]].version),
        table[ring.last()].forward == Some(table[0].version),
        table[0].backward == Some(table[ring.last()].version),
    ensures
        defect(table) == Some(ChainDefect::Loop { version: table[0].version }),
{
    let forward = MigrationDirection::Forward;
    assert forall|k: int| 0 <= k < ring.len() - 1 implies #[trigger] step(table, ring[k], forward)
        == Some(ring[k + 1]) && links_back(table, ring[k], ring[k + 1], forward) by {
        assert(table[ring[k]].forward == Some(table[ring[k + 1]].version));
        lemma_finds_itself(table, ring[k + 1]);
    }
    assert(is_trail(table, ring, forward));
    lemma_scan_along_trail(table, ring, forward, 1);
    assert(ring.subrange(0, 1) =~= seq![0int]);
    // The last model of the ring migrates to the first, which was met before.
    lemma_finds_itself(table, 0);
    assert(step(table, ring.last(), forward) == Some(0int));
    assert(links_back(table, ring.last(), 0, forward));
    assert(ring.contains(0));
}

/// Where the way from the first model in some direction leads, step by reversible step, to a
/// model that migrates on to a model that does not migrate back to it, the table's defect
/// is that irreversible step; on the way backward, if the way forward has no defect.
pub proof fn lemma_step_without_return(
    table: Seq<Links>,
    path: Seq<int>,
    direction: MigrationDirection,
    next: int,
)
    requires
        is_trail(table, path, direction),
        path[0] == 0,
        step(table, path.last(), direction) == Some(next),
        !links_back(table, path.last(), next, direction),
        direction == MigrationDirection::Backward ==> scan(
            table,
            seq![0int],
            MigrationDirection::Forward,
        ) is Ok,
    ensures
        defect(table) == Some(
            ChainDefect::Irreversible {
                lhs_version: table[path.last()].version,
                fulcrum: table[next].version,
                rhs_version: table[next].toward(direction.flipped()),
                direction,
            },
        ),
{
    lemma_scan_along_trail(table, path, direction, 1);
    assert(path.subrange(0, 1) =~= seq![0int]);
}

/// The run ahead of a model and the run behind it share no other model.
pub proof fn lemma_runs_part(table: Seq<Links>, ahead: Seq<int>, behind: Seq<int>, i: int, j: int)
    requires
        distinct_versions(table),
        is_run(table, ahead, MigrationDirection::Forward),
        is_run(table, behind, MigrationDirection::Backward),
        ahead[0] == behind[0],
        1 <= i < ahead.len(),
        1 <= j < behind.len(),
    ensures
        ahead[i] != behind[j],
    decreases j,
{
    if ahead[i] == behind[j] {
        // The model behind it migrates forward to the one before it on the way back, so
        // the run ahead goes on to that one.
        assert(step(table, behind[j - 1], MigrationDirection::Backward) == Some(behind[j - 1 + 1]));
        assert(links_back(table, behind[j - 1], behind[j], MigrationDirection::Backward));
        lemma_finds_itself(table, behind[j - 1]);
        assert(step(table, ahead[i], MigrationDirection::Forward) == Some(behind[j - 1]));
        if i == ahead.len() - 1 {
            assert(false);
        }
        assert(step(table, ahead[i], MigrationDirection::Forward) == Some(ahead[i + 1]));
        if j == 1 {
            assert(ahead[i + 1] == ahead[0]);
            assert(false);
        } else {
            lemma_runs_part(table, ahead, behind, i + 1, j - 1);
        }
    }
}

/// The line of the models behind a model, that model, and the models ahead of it: the run
/// behind it reversed, followed by the run ahead of it without its first model.
pub open spec fn joined(behind: Seq<int>, ahead: Seq<int>) -> Seq<int> {
    Seq::new(
        (behind.len() + ahead.len() - 1) as nat,
        |k: int|
            if k < behind.len() {
                behind[behind.len() - 1 - k]
            } else {
                ahead[k - behind.len() + 1]
            },
    )
}

/// The run behind a model and the run ahead of it, joined, line their models up.
pub proof fn lemma_runs_line_up(table: Seq<Links>, ahead: Seq<int>, behind: Seq<int>)
    requires
        distinct_versions(table),
        is_run(table, ahead, MigrationDirection::Forward),
        is_run(table, behind, MigrationDirection::Backward),
        ahead[0] == behind[0],
    ensures
        lines_up(table, joined(behind, ahead)),
{
    let order = joined(behind, ahead);
    let back = behind.len() as int;
    assert forall|k: int| 0 <= k < order.len() implies 0 <= #[trigger] order[k] < table.len() by {
        if k < back {
            assert(order[k] == behind[back - 1 - k]);
        } else {
            assert(order[k] == ahead[k - back + 1]);
        }
    }
    assert forall|k: int, l: int| 0 <= k < l < order.len() implies order[k] != order[l] by {
        if l < back {
            assert(behind[back - 1 - l] != behind[back - 1 - k]);
        } else if k >= back {
            assert(ahead[k - back + 1] != ahead[l - back + 1]);
        } else if k == back - 1 {
            assert(ahead[0] != ahead[l - back + 1]);
        } else {
            lemma_runs_part(table, ahead, behind, l - back + 1, back - 1 - k);
        }
    }
    assert forall|k: int| 0 <= k < order.len() - 1 implies (#[trigger] table[order[k]]).forward
        == Some(table[order[k + 1]].version) && table[order[k + 1]].backward == Some(
        table[order[k]].version,
    ) by {
        if k < back - 1 {
            // Both stand behind the start: the later one was met first.
            let j = back - 2 - k;
            assert(order[k] == behind[j + 1] && order[k + 1] == behind[j]);
            assert(step(table, behind[j], MigrationDirection::Backward) == Some(behind[j + 1]));
            assert(links_back(table, behind[j], behind[j + 1], MigrationDirection::Backward));
            lemma_step_in_table(table, behind[j], MigrationDirection::Backward);
        } else {
            let j = k - back + 1;
            assert(order[k] == ahead[j] && order[k + 1] == ahead[j + 1]);
            assert(step(table, ahead[j], MigrationDirection::Forward) == Some(ahead[j + 1]));
            assert(links_back(table, ahead[j], ahead[j + 1], MigrationDirection::Forward));
            lemma_step_in_table(table, ahead[j], MigrationDirection::Forward);
        }
    }
    assert(order[0] == behind.last());
    assert(order.last() == ahead.last());
}

/// A model whose version is met on a path is a model of the path, if no two models have the
/// same version.
pub proof fn lemma_met_by_version(table: Seq<Links>, path: Seq<int>, i: int)
    requires
        distinct_versions(table),
        0 <= i < table.len(),
        forall|k: int| 0 <= k < path.len() ==> 0 <= #[trigger] path[k] < table.len(),
        versions_along(table, path).contains(table[i].version),
    ensures
        path.contains(i),
{
    let k = choose|k: int| 0 <= k < path.len() && table[#[trigger] path[k]].version == table[i].version;
    if path[k] < i {
        assert(table[path[k]].version != table[i].version);
    } else if i < path[k] {
        assert(table[i].version != table[path[k]].version);
    }
    assert(path[k] == i);
}

/// A table without a defect holds models that form one chain, if no two of them have the
/// same version.
pub proof fn lemma_no_defect_is_chain(table: Seq<Links>)
    requires
        distinct_versions(table),
        defect(table) is None,
    ensures
        is_linear_chain(table),
{
    if table.len() == 0 {
        let order = Seq::<int>::empty();
        assert(lays_out(table, order));
    } else {
        let start = seq![0int];
        assert(is_trail(table, start, MigrationDirection::Forward));
        assert(is_trail(table, start, MigrationDirection::Backward));
        lemma_scan_ends_with_run(table, start, MigrationDirection::Forward);
        lemma_scan_ends_with_run(table, start, MigrationDirection::Backward);
        let ahead = scan(table, start, MigrationDirection::Forward)->Ok_0;
        let behind = scan(table, start, MigrationDirection::Backward)->Ok_0;
        assert(ahead[0] == 0) by {
            assert(ahead.subrange(0, 1)[0] == start[0]);
        }
        assert(behind[0] == 0) by {
            assert(behind.subrange(0, 1)[0] == start[0]);
        }
        let back = behind.len() as int;
        let order = joined(behind, ahead);
        lemma_runs_line_up(table, ahead, behind);
        let visited = versions_along(table, ahead).union(versions_along(table, behind));
        assert(holds_none(symmetric_difference(all_versions(table), visited)));
        assert forall|i: int| 0 <= i < table.len() implies order.contains(i) by {
            let v = table[i].version;
            assert(knows(table, v));
            assert(all_versions(table).contains(v));
            assert(!symmetric_difference(all_versions(table), visited).contains(v));
            assert(visited.contains(v));
            if versions_along(table, ahead).contains(v) {
                lemma_met_by_version(table, ahead, i);
                let k = choose|k: int| 0 <= k < ahead.len() && ahead[k] == i;
                if k == 0 {
                    assert(order[back - 1] == i);
                } else {
                    assert(order[k + back - 1] == i);
                }
            } else {
                lemma_met_by_version(table, behind, i);
                let k = choose|k: int| 0 <= k < behind.len() && behind[k] == i;
                assert(order[back - 1 - k] == i);
            }
        }
        assert(lays_out(table, order));
    }
}

} // verus!
