//! Migrators: how a settings extension moves a settings value between the versions of its
//! models.
use crate::model::erased::{position, TypeErasedModel};
use crate::version::{
    lemma_precedes_connected, lemma_precedes_irreflexive, lemma_precedes_transitive, precedes,
    version_lt,
};
use vstd::prelude::*;

pub mod linear;
pub mod null;

pub use linear::{
    LinearMigrator, LinearMigratorExtensionBuilder, LinearlyMigrateable,
    TypeErasedLinearlyMigrateable,
};
pub use null::{NullMigrator, NullMigratorError, NullMigratorExtensionBuilder};

verus! {

/// An individual migration result from a batch migration.
#[derive(Debug, PartialEq, Eq)]
pub struct MigrationResult {
    /// The version resulting from the migration.
    pub version: String,
    /// The value resulting from the migration.
    pub value: serde_json::Value,
}

impl View for MigrationResult {
    type V = (Seq<char>, serde_json::Value);

    open spec fn view(&self) -> (Seq<char>, serde_json::Value) {
        (self.version@, self.value)
    }
}

/// The results as contracts speak of them: each a version and the value of that version.
pub open spec fn entries(results: Seq<MigrationResult>) -> Seq<(Seq<char>, serde_json::Value)> {
    results.map_values(|result: MigrationResult| result@)
}

/// Whether the results are in the order of their versions, so that none comes before a
/// result of an earlier version.
pub open spec fn in_version_order(list: Seq<(Seq<char>, serde_json::Value)>) -> bool {
    forall|i: int, j: int| 0 <= i < j < list.len() ==> !precedes(list[j].0, list[i].0)
}

/// Whether `sorted` holds the results of `list`, each as often as `list` does, in the order
/// of their versions.
pub open spec fn sorts(
    sorted: Seq<(Seq<char>, serde_json::Value)>,
    list: Seq<(Seq<char>, serde_json::Value)>,
) -> bool {
    &&& in_version_order(sorted)
    &&& sorted.to_multiset() == list.to_multiset()
}

/// Sorts migration results ascending by version.
pub fn sort_by_version(results: Vec<MigrationResult>) -> (sorted: Vec<MigrationResult>)
    ensures
        sorts(entries(sorted@), entries(results@)),
{
    let ghost all = entries(results@);
    let mut rest = results;
    let mut sorted: Vec<MigrationResult> = Vec::new();
    proof {
        assert(entries(sorted@) =~= Seq::empty());
        assert(entries(sorted@).to_multiset().add(all.to_multiset()) =~= all.to_multiset()) by {
            broadcast use vstd::seq_lib::group_to_multiset_ensures;

        }
    }
    while rest.len() > 0
        invariant
            in_version_order(entries(sorted@)),
            entries(sorted@).to_multiset().add(entries(rest@).to_multiset()) == all.to_multiset(),
        decreases rest.len(),
    {
        let ghost before = entries(sorted@);
        let ghost waiting = entries(rest@);
        let item = match rest.pop() {
            Some(item) => item,
            None => {
                return sorted;
            },
        };
        let mut i: usize = 0;
        while i < sorted.len() && version_lt(&sorted[i].version, &item.version)
            invariant
                i <= sorted.len(),
                before == entries(sorted@),
                forall|k: int| 0 <= k < i ==> precedes(before[k].0, item.version@),
            decreases sorted.len() - i,
        {
            i += 1;
        }
        sorted.insert(i, item);
        proof {
            let after = entries(sorted@);
            let entry = item@;
            assert(after =~= before.insert(i as int, entry));
            assert(waiting =~= entries(rest@).push(entry));
            vstd::seq_lib::to_multiset_insert(before, i as int, entry);
            vstd::seq_lib::to_multiset_build(entries(rest@), entry);
            assert(after.to_multiset().add(entries(rest@).to_multiset()) =~= before.to_multiset().add(
                waiting.to_multiset(),
            ));
            assert forall|a: int, b: int| 0 <= a < b < after.len() implies !precedes(
                after[b].0,
                after[a].0,
            ) by {
                if b < i {
                    assert(after[a] == before[a] && after[b] == before[b]);
                } else if b == i {
                    assert(after[a] == before[a]);
                    if precedes(entry.0, before[a].0) {
                        lemma_precedes_transitive(entry.0, before[a].0, entry.0);
                        lemma_precedes_irreflexive(entry.0);
                    }
                } else if a < i {
                    assert(after[a] == before[a] && after[b] == before[b - 1]);
                } else if a == i {
                    assert(after[b] == before[b - 1]);
                    assert(!precedes(before[i as int].0, entry.0));
                    if precedes(before[b - 1].0, entry.0) {
                        if before[i as int].0 != entry.0 {
                            lemma_precedes_connected(before[i as int].0, entry.0);
                            lemma_precedes_transitive(before[b - 1].0, entry.0, before[i as int].0);
                        }
                        assert(b - 1 > i);
                    }
                } else {
                    assert(after[a] == before[a - 1] && after[b] == before[b - 1]);
                }
            }
        }
    }
    proof {
        assert(entries(rest@) =~= Seq::empty());
        assert(entries(sorted@).to_multiset().add(entries(rest@).to_multiset()) =~= entries(
            sorted@,
        ).to_multiset()) by {
            broadcast use vstd::seq_lib::group_to_multiset_ensures;

        }
    }
    sorted
}

/// Implementors of the `Migrator` trait inform a settings extension how to migrate settings
/// values between the versions of its models.
pub trait Migrator<Mo: TypeErasedModel> {
    /// The error type returned by the migrator.
    type ErrorKind;

    /// Whether the migrator can migrate between the given models: whether it validates them.
    spec fn accepts(&self, models: Seq<Mo>) -> bool;

    /// Whether `out` is what `validate_migrations` returns for these models.
    spec fn validation_returns(&self, models: Seq<Mo>, out: Result<(), Self::ErrorKind>) -> bool;

    /// Whether `out` is something that `perform_migration` may return for these arguments.
    /// What it returns may depend on what the models do with a value, which is their
    /// business.
    spec fn migration_returns(
        &self,
        models: Seq<Mo>,
        value: Mo::Value,
        start: Seq<char>,
        target: Seq<char>,
        out: Result<serde_json::Value, Self::ErrorKind>,
    ) -> bool;

    /// Whether `out` is something that `perform_flood_migrations` may return for these
    /// arguments.
    spec fn flood_returns(
        &self,
        models: Seq<Mo>,
        value: Mo::Value,
        start: Seq<char>,
        out: Result<Vec<MigrationResult>, Self::ErrorKind>,
    ) -> bool;

    /// Validates that the migrator can migrate between the given models.
    fn validate_migrations<S: ModelStore<ModelKind = Mo>>(&self, models: &S) -> (r: Result<
        (),
        Self::ErrorKind,
    >)
        ensures
            r is Ok <==> self.accepts(models.models()),
            self.validation_returns(models.models(), r),
    ;

    /// Migrates a given settings value from its starting version to a target version.
    fn perform_migration<S: ModelStore<ModelKind = Mo>>(
        &self,
        models: &S,
        starting_value: Mo::Value,
        starting_version: &str,
        target_version: &str,
    ) -> (r: Result<serde_json::Value, Self::ErrorKind>)
        ensures
            self.migration_returns(
                models.models(),
                starting_value,
                starting_version@,
                target_version@,
                r,
            ),
    ;

    /// Migrates a given settings value to all other available versions.
    ///
    /// The results from the flood migration include the starting value and version.
    /// Returns an error if one occurs during any migration.
    fn perform_flood_migrations<S: ModelStore<ModelKind = Mo>>(
        &self,
        models: &S,
        starting_value: Mo::Value,
        starting_version: &str,
    ) -> (r: Result<Vec<MigrationResult>, Self::ErrorKind>)
        ensures
            self.flood_returns(models.models(), starting_value, starting_version@, r),
    ;
}

/// A type that holds settings models, used to resolve version -> model lookups during
/// migrations.
pub trait ModelStore {
    /// The type representing stored models.
    type ModelKind: TypeErasedModel;

    /// The stored models, in the order in which `model_at` hands them out.
    spec fn models(&self) -> Seq<Self::ModelKind>;

    /// Retrieves the model for a given version.
    fn get_model(&self, version: &str) -> (found: Option<&Self::ModelKind>)
        ensures
            match position(self.models(), version@) {
                Some(i) => found == Some(&self.models()[i]),
                None => found is None,
            },
    ;

    /// Returns the number of items stored in the [`ModelStore`].
    fn len(&self) -> (n: usize)
        ensures
            n == self.models().len(),
    ;

    /// Returns one of the stored models. Going through `0..len()` visits all of them.
    fn model_at(&self, i: usize) -> (model: &Self::ModelKind)
        requires
            i < self.models().len(),
        ensures
            *model == self.models()[i as int],
    ;

    /// Returns whether or not their are any models in the [`ModelStore`].
    fn is_empty(&self) -> (empty: bool)
        ensures
            empty == (self.models().len() == 0),
    {
        self.len() == 0
    }
}

/// A marker type used to indicate that no migration should be performed.
#[derive(Debug, Default, PartialEq, Eq, Structural, Clone, Copy)]
pub struct NoMigration;

impl NoMigration {
    /// Creates a new `NoMigration` instance.
    pub fn new() -> (r: Self)
        ensures
            r == NoMigration,
    {
        NoMigration
    }

    /// Marker function to call when no migration should be performed.
    ///
    /// These functions should be marked to return `NoMigration`.
    pub fn no_defined_migration<E>() -> (r: Result<Self, E>)
        ensures
            r == Ok::<Self, E>(NoMigration),
    {
        Ok(NoMigration)
    }
}

} // verus!
