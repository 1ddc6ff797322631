use bottlerocket_settings_sdk::extension::SettingsExtensionError;
use bottlerocket_settings_sdk::helper::{HelperDef, HelperError};
use bottlerocket_settings_sdk::migrate::linear::error::LinearMigratorError;
use bottlerocket_settings_sdk::migrate::linear::MigrationDirection;
use bottlerocket_settings_sdk::migrate::null::NullMigratorError;
use bottlerocket_settings_sdk::{
    BottlerocketSetting, GenerateResult, LinearMigratorExtensionBuilder, LinearlyMigrateable,
    Migrator, NullMigrator, NullMigratorExtensionBuilder, SettingsModel,
};

/// A model that has a version and links, and nothing else: none of its operations is ever
/// called when an extension is built.
#[derive(Debug)]
struct Linked {
    version: &'static str,
    forward: Option<&'static str>,
    backward: Option<&'static str>,
}

struct NoHelper;

impl HelperDef for NoHelper {
    fn helper_fn(&self, _: Vec<serde_json::Value>) -> Result<serde_json::Value, HelperError> {
        unreachable!()
    }
}

impl SettingsModel for Linked {
    type Value = ();
    type PartialKind = ();
    type ErrorKind = String;
    type Helper = NoHelper;

    fn get_version(&self) -> &'static str {
        self.version
    }

    fn holds(&self, _: &()) -> bool {
        unreachable!()
    }

    fn parse(&self, _: serde_json::Value) -> Result<(), serde_json::Error> {
        unreachable!()
    }

    fn serialize(&self, _: &()) -> Result<serde_json::Value, serde_json::Error> {
        unreachable!()
    }

    fn parse_partial(&self, _: serde_json::Value) -> Result<(), serde_json::Error> {
        unreachable!()
    }

    fn serialize_partial(&self, _: &()) -> Result<serde_json::Value, serde_json::Error> {
        unreachable!()
    }

    fn describe(&self, error: &String) -> String {
        error.clone()
    }

    fn set(&self, _: Option<()>, _: ()) -> Result<(), String> {
        unreachable!()
    }

    fn generate(
        &self,
        _: Option<()>,
        _: Option<serde_json::Value>,
    ) -> Result<GenerateResult<(), ()>, String> {
        unreachable!()
    }

    fn validate(&self, _: (), _: Option<serde_json::Value>) -> Result<(), String> {
        unreachable!()
    }

    fn template_helpers(&self) -> Result<Vec<(String, NoHelper)>, String> {
        unreachable!()
    }
}

impl LinearlyMigrateable for Linked {
    fn migrates_forward_to(&self) -> Option<&'static str> {
        self.forward
    }

    fn migrate_forward(&self, _: &()) -> Result<(), String> {
        unreachable!()
    }

    fn migrates_backward_to(&self) -> Option<&'static str> {
        self.backward
    }

    fn migrate_backward(&self, _: &()) -> Result<(), String> {
        unreachable!()
    }
}

/// A model of the given version that migrates forward and backward to the given versions.
fn define_model(
    version: &'static str,
    forward: Option<&'static str>,
    backward: Option<&'static str>,
) -> BottlerocketSetting<Linked> {
    BottlerocketSetting::linear_model(Linked { version, forward, backward })
}

/// A model of the given version that takes no part in migrations.
fn define_plain_model(version: &'static str) -> BottlerocketSetting<Linked> {
    BottlerocketSetting::model(Linked { version, forward: None, backward: None })
}

fn build(
    name: &'static str,
    models: Vec<BottlerocketSetting<Linked>>,
) -> Result<(), SettingsExtensionError<LinearMigratorError>> {
    LinearMigratorExtensionBuilder::with_name(name).with_models(models).build().map(|_| ())
}

fn validation_error(name: &'static str, models: Vec<BottlerocketSetting<Linked>>) -> LinearMigratorError {
    match build(name, models) {
        Err(SettingsExtensionError::MigrationValidation { source }) => source,
        other => panic!("expected a validation error, got {:?}", other),
    }
}

fn strings(list: &[&str]) -> Vec<String> {
    list.iter().map(|s| s.to_string()).collect()
}

#[test]
fn test_no_small_disjoint_islands() {
    // Given two models which do not link in a migration chain,
    // When an linear migrator extension is built with those models,
    // The extension will fail to build.
    assert!(matches!(
        LinearMigratorExtensionBuilder::with_name("disjoint-models")
            .with_models(vec![define_model("v1", None, None), define_model("v2", None, None)])
            .build(),
        Err(SettingsExtensionError::MigrationValidation { .. })
    ));
}

// A <-> B <-> D
// E <-> C <-> A
#[test]
fn test_no_large_disjoint_islands() {
    assert!(matches!(
        LinearMigratorExtensionBuilder::with_name("disjoint-models")
            .with_models(vec![
                define_model("v1", Some("v2"), None),
                define_model("v2", Some("v4"), Some("v1")),
                define_model("v3", Some("v1"), Some("v5")),
                define_model("v4", None, Some("v2")),
                define_model("v5", None, Some("v3")),
            ])
            .build(),
        Err(SettingsExtensionError::MigrationValidation { .. })
    ));
}

// A <-> C <-> D
// B ---^
#[test]
fn test_no_double_tail() {
    assert!(matches!(
        LinearMigratorExtensionBuilder::with_name("disjoint-models")
            .with_models(vec![
                define_model("v1", Some("v3"), None),
                define_model("v2", Some("v3"), None),
                define_model("v3", Some("v4"), Some("v1")),
                define_model("v4", None, Some("v3")),
            ])
            .build(),
        Err(SettingsExtensionError::MigrationValidation { .. })
    ));
}

// C <-> A <-> B <-> C
#[test]
fn test_no_migration_loops_simple_circle() {
    // Given a simple loop of linear migrations between models,
    // When an linear migrator extension is built with those models,
    // The extension will fail to build.
    assert!(matches!(
        LinearMigratorExtensionBuilder::with_name("circular-loop")
            .with_models(vec![
                define_model("v1", Some("v3"), Some("v2")),
                define_model("v2", Some("v1"), Some("v3")),
                define_model("v3", Some("v2"), Some("v1")),
            ])
            .build(),
        Err(SettingsExtensionError::MigrationValidation { .. })
    ));
}

// A <-> B -> C
// ^----------|
#[test]
fn test_no_migration_loops_backlink() {
    // Given a set of models with a backwards migration resulting in a loop,
    // When an linear migrator extension is built with those models,
    // The extension will fail to build.
    assert!(matches!(
        LinearMigratorExtensionBuilder::with_name("broken-backlink")
            .with_models(vec![
                define_model("v1", None, Some("v2")),
                define_model("v2", Some("v1"), Some("v3")),
                // C mistakenly points back to A
                define_model("v3", Some("v1"), None),
            ])
            .build(),
        Err(SettingsExtensionError::MigrationValidation { .. })
    ));
}

#[test]
fn test_no_migration_loops_backcycle() {
    assert!(matches!(
        LinearMigratorExtensionBuilder::with_name("backcycle")
            .with_models(vec![
                // A mistakenly points back to C
                define_model("v1", Some("v3"), Some("v2")),
                define_model("v2", Some("v1"), Some("v3")),
                define_model("v3", Some("v2"), None),
            ])
            .build(),
        Err(SettingsExtensionError::MigrationValidation { .. })
    ));
}

#[test]
fn test_no_migration_loops_forwardcycle() {
    assert!(matches!(
        LinearMigratorExtensionBuilder::with_name("forwards-cycle")
            .with_models(vec![
                define_model("v1", None, Some("v2")),
                define_model("v2", Some("v1"), Some("v3")),
                // C mistakenly points forward to A
                define_model("v3", Some("v2"), Some("v1")),
            ])
            .build(),
        Err(SettingsExtensionError::MigrationValidation { .. })
    ));
}

// A -> B -> C -> D
// A <- C <- B <- D
#[test]
fn test_no_non_reversible() {
    assert!(matches!(
        LinearMigratorExtensionBuilder::with_name("not-reversible")
            .with_models(vec![
                define_model("v1", Some("v2"), None),
                define_model("v2", Some("v3"), Some("v3")),
                define_model("v3", Some("v4"), Some("v1")),
                define_model("v4", None, Some("v2")),
            ])
            .build(),
        Err(SettingsExtensionError::MigrationValidation { .. })
    ));
}

#[test]
fn test_single_model() {
    NullMigratorExtensionBuilder::with_name("null-migrator")
        .with_models(vec![define_plain_model("v1")])
        .build()
        .unwrap();
}

#[test]
fn test_multiple_models() {
    assert!(NullMigratorExtensionBuilder::with_name("multiple-models")
        .with_models(vec![define_plain_model("v1"), define_plain_model("v2")])
        .build()
        .is_err());
}

#[test]
fn test_no_colliding_model_versions() {
    // Given two models with the same version string,
    // When an extension is built with those models,
    // The extension will fail to build.
    assert!(LinearMigratorExtensionBuilder::with_name("colliding-versions")
        .with_models(vec![define_model("v1", None, None), define_model("v1", None, None)])
        .build()
        .is_err());
}

#[test]
fn colliding_versions_are_named() {
    let built = LinearMigratorExtensionBuilder::with_name("colliding-versions")
        .with_models(vec![
            define_model("v1", Some("v2"), None),
            define_model("v2", None, Some("v1")),
            define_model("v2", None, None),
            define_model("v1", None, None),
        ])
        .build();
    match built {
        Err(SettingsExtensionError::ModelVersionCollision { version }) => assert_eq!(version, "v2"),
        _ => panic!("expected a collision"),
    }
}

#[test]
fn null_migrator_refuses_no_models_and_two() {
    for models in [vec![], vec![define_plain_model("v1"), define_plain_model("v2")]] {
        match NullMigratorExtensionBuilder::with_name("null").with_models(models).build() {
            Err(SettingsExtensionError::MigrationValidation { source }) => {
                assert_eq!(source, NullMigratorError::TooManyModelVersions)
            }
            _ => panic!("expected a validation error"),
        }
    }
}

#[test]
fn empty_registry_is_valid() {
    assert!(build("empty", vec![]).is_ok());
}

#[test]
fn single_model_without_neighbours_is_valid() {
    assert!(build("single", vec![define_model("v1", None, None)]).is_ok());
}

#[test]
fn linear_chains_are_valid_in_any_order() {
    // v1 <-> v2 <-> v3 <-> v4 <-> v5, with each model in turn as the first of the store.
    let chain = |first: usize| {
        let mut models = vec![
            define_model("v1", Some("v2"), None),
            define_model("v2", Some("v3"), Some("v1")),
            define_model("v3", Some("v4"), Some("v2")),
            define_model("v4", Some("v5"), Some("v3")),
            define_model("v5", None, Some("v4")),
        ];
        models.rotate_left(first);
        models
    };
    for first in 0..5 {
        assert!(build("chain", chain(first)).is_ok());
    }
    let mut shuffled = chain(0);
    shuffled.swap(0, 3);
    shuffled.swap(1, 4);
    assert!(build("chain", shuffled).is_ok());
}

#[test]
fn link_to_an_unknown_version_ends_the_chain() {
    assert!(build(
        "dangling",
        vec![define_model("v1", Some("v2"), Some("v0")), define_model("v2", Some("v9"), Some("v1"))]
    )
    .is_ok());
}

#[test]
fn reversible_cycle_is_a_migration_loop() {
    // v1 -> v3 -> v2 -> v1, every step reversible: the walk comes back to its start.
    match validation_error(
        "circular-loop",
        vec![
            define_model("v1", Some("v3"), Some("v2")),
            define_model("v2", Some("v1"), Some("v3")),
            define_model("v3", Some("v2"), Some("v1")),
        ],
    ) {
        LinearMigratorError::MigrationLoop { version } => assert_eq!(version, "v1"),
        other => panic!("unexpected error {:?}", other),
    }
    // A cycle of two, entered at the second model.
    match validation_error(
        "circular-loop",
        vec![define_model("b", Some("a"), Some("a")), define_model("a", Some("b"), Some("b"))],
    ) {
        LinearMigratorError::MigrationLoop { version } => assert_eq!(version, "b"),
        other => panic!("unexpected error {:?}", other),
    }
}

#[test]
fn model_that_migrates_to_itself_is_a_migration_loop() {
    match validation_error("self-loop", vec![define_model("v1", Some("v1"), Some("v1"))]) {
        LinearMigratorError::MigrationLoop { version } => assert_eq!(version, "v1"),
        other => panic!("unexpected error {:?}", other),
    }
}

#[test]
fn step_without_return_is_irreversible() {
    // v1 -> v2 -> v3, but v3 migrates back to v1.
    match validation_error(
        "not-reversible",
        vec![
            define_model("v1", Some("v2"), None),
            define_model("v2", Some("v3"), Some("v1")),
            define_model("v3", None, Some("v1")),
        ],
    ) {
        LinearMigratorError::IrreversibleMigrationChain {
            lhs_version,
            fulcrum,
            rhs_version,
            direction,
        } => {
            assert_eq!(lhs_version, "v2");
            assert_eq!(fulcrum, "v3");
            assert_eq!(rhs_version, Some("v1".to_string()));
            assert_eq!(direction, MigrationDirection::Forward);
        }
        other => panic!("unexpected error {:?}", other),
    }
    // Backward of the first model: v2 <- v1 is not answered by v2 at all.
    match validation_error(
        "not-reversible",
        vec![define_model("v1", None, Some("v2")), define_model("v2", None, None)],
    ) {
        LinearMigratorError::IrreversibleMigrationChain {
            lhs_version,
            fulcrum,
            rhs_version,
            direction,
        } => {
            assert_eq!(lhs_version, "v1");
            assert_eq!(fulcrum, "v2");
            assert_eq!(rhs_version, None);
            assert_eq!(direction, MigrationDirection::Backward);
        }
        other => panic!("unexpected error {:?}", other),
    }
}

#[test]
fn irreversible_step_is_checked_before_the_loop() {
    // v1 -> v2 -> v1 closes a cycle, but v1 does not migrate back to v2.
    assert!(matches!(
        validation_error(
            "both",
            vec![define_model("v1", Some("v2"), None), define_model("v2", Some("v1"), Some("v1"))]
        ),
        LinearMigratorError::IrreversibleMigrationChain { .. }
    ));
}

#[test]
fn unreachable_versions_are_listed_sorted() {
    // The chain of the first model is v3 <-> v1; the second group is v5 <-> v2 <-> v4.
    match validation_error(
        "disjoint-models",
        vec![
            define_model("v3", Some("v1"), None),
            define_model("v5", Some("v2"), None),
            define_model("v4", None, Some("v2")),
            define_model("v1", None, Some("v3")),
            define_model("v2", Some("v4"), Some("v5")),
        ],
    ) {
        LinearMigratorError::DisjointMigrationChain { unreachable_versions, visited_versions } => {
            assert_eq!(unreachable_versions, strings(&["v2", "v4", "v5"]));
            assert_eq!(visited_versions, strings(&["v1", "v3"]));
        }
        other => panic!("unexpected error {:?}", other),
    }
}

#[test]
fn versions_are_sorted_by_their_characters() {
    match validation_error(
        "disjoint-models",
        vec![
            define_model("v1", None, None),
            define_model("v10", None, None),
            define_model("v2", None, None),
            define_model("V3", None, None),
            define_model("", None, None),
            define_model("v", None, None),
            define_model("\u{e9}", None, None),
            define_model("zz", None, None),
            define_model("\u{1f600}", None, None),
            define_model("\u{ffff}", None, None),
        ],
    ) {
        LinearMigratorError::DisjointMigrationChain { unreachable_versions, visited_versions } => {
            assert_eq!(
                unreachable_versions,
                strings(&["", "V3", "v", "v10", "v2", "zz", "\u{e9}", "\u{ffff}", "\u{1f600}"])
            );
            assert_eq!(visited_versions, strings(&["v1"]));
        }
        other => panic!("unexpected error {:?}", other),
    }
}

#[test]
fn null_migrator_never_migrates() {
    let extension = NullMigratorExtensionBuilder::with_name("null-migrator")
        .with_models(vec![define_plain_model("v1")])
        .build()
        .unwrap();
    assert!(matches!(
        NullMigrator.perform_migration(&extension, (), "v1", "v1"),
        Err(NullMigratorError::NoMigration)
    ));
    assert!(matches!(
        NullMigrator.perform_flood_migrations(&extension, (), "v1"),
        Err(NullMigratorError::NoMigration)
    ));
    assert!(NullMigrator.validate_migrations(&extension).is_ok());
}
