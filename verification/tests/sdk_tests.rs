use bottlerocket_settings_sdk::cli::proto1::{
    FloodMigrateArguments, GenerateArguments, MigrateArguments, SetArguments,
    TemplateHelperArguments, ValidateArguments,
};
use bottlerocket_settings_sdk::extension::proto1::{try_run_extension, Proto1Input, Proto1Output};
use bottlerocket_settings_sdk::extension::SettingsExtensionError;
use bottlerocket_settings_sdk::helper::call_helper;
use bottlerocket_settings_sdk::migrate::linear::error::LinearMigratorError;
use bottlerocket_settings_sdk::migrate::linear::{migration_iter, MigrationDirection};
use bottlerocket_settings_sdk::migrate::{
    MigrationResult, Migrator, ModelStore, TypeErasedLinearlyMigrateable,
};
use bottlerocket_settings_sdk::model::{BottlerocketSettingError, TypeErasedModel};
use bottlerocket_settings_sdk::{
    BottlerocketSetting, GenerateResult, HelperDef, HelperError, LinearMigrator,
    LinearMigratorExtensionBuilder, LinearlyMigrateable, NoMigration, SettingsExtension,
    SettingsModel,
};
use serde_json::Value;
use std::any::Any;
use MigrationDirection::{Backward, Forward};

type Failure = SettingsExtensionError<LinearMigratorError>;

fn string(s: &str) -> Value {
    Value::String(s.to_string())
}

fn array(items: &[&str]) -> Value {
    Value::Array(items.iter().map(|s| string(s)).collect())
}

fn object(key: &str, value: Value) -> Value {
    let mut map = serde_json::Map::new();
    map.insert(key.to_string(), value);
    Value::Object(map)
}

fn erase<T: Any>(value: T) -> Box<dyn Any> {
    Box::new(value)
}

/// A template helper made of a function.
pub struct Helper(fn(Vec<Value>) -> Result<Value, HelperError>);

impl HelperDef for Helper {
    fn helper_fn(&self, args: Vec<Value>) -> Result<Value, HelperError> {
        (self.0)(args)
    }
}

// These models implement two versions of the "motd" settings extension.
// v1 models motd as a single string;
// v2 models motd as a list of strings which don't contain whitespace.

#[derive(Debug, Default, PartialEq, Eq)]
pub struct MotdV1(pub Option<String>);

#[derive(Debug, Default, PartialEq, Eq)]
pub struct MotdV2(pub Vec<String>);

/// The models of the motd setting.
#[derive(Debug, Clone, Copy)]
pub enum Motd {
    V1,
    V2,
}

fn exclaim_v1(i: String) -> Result<String, String> {
    Ok(i + "!")
}

fn exclaim_v2(i: String) -> Result<String, String> {
    Ok(i + "!!")
}

fn question(one: String, two: String) -> Result<String, String> {
    Ok(format!("{}? {}??", one, two))
}

fn one_string(args: Vec<Value>) -> Result<String, serde_json::Error> {
    let mut args = args.into_iter();
    serde_json::from_value(args.next().unwrap())
}

fn two_strings(args: Vec<Value>) -> Result<(String, String), serde_json::Error> {
    let mut args = args.into_iter();
    let one = serde_json::from_value(args.next().unwrap())?;
    let two = serde_json::from_value(args.next().unwrap())?;
    Ok((one, two))
}

fn exclaim_helper_v1(args: Vec<Value>) -> Result<Value, HelperError> {
    call_helper(1, args, one_string, exclaim_v1, serde_json::to_value::<String>)
}

fn exclaim_helper_v2(args: Vec<Value>) -> Result<Value, HelperError> {
    call_helper(1, args, one_string, exclaim_v2, serde_json::to_value::<String>)
}

fn question_helper(args: Vec<Value>) -> Result<Value, HelperError> {
    call_helper(2, args, two_strings, |(one, two)| question(one, two), serde_json::to_value::<String>)
}

impl SettingsModel for Motd {
    type Value = Box<dyn Any>;
    type PartialKind = Box<dyn Any>;
    type ErrorKind = String;
    type Helper = Helper;

    fn get_version(&self) -> &'static str {
        match self {
            Motd::V1 => "v1",
            Motd::V2 => "v2",
        }
    }

    fn holds(&self, value: &Box<dyn Any>) -> bool {
        match self {
            Motd::V1 => value.is::<MotdV1>(),
            Motd::V2 => value.is::<MotdV2>(),
        }
    }

    fn parse(&self, value: Value) -> Result<Box<dyn Any>, serde_json::Error> {
        match self {
            Motd::V1 => serde_json::from_value::<Option<String>>(value).map(|v| erase(MotdV1(v))),
            Motd::V2 => serde_json::from_value::<Vec<String>>(value).map(|v| erase(MotdV2(v))),
        }
    }

    fn serialize(&self, value: &Box<dyn Any>) -> Result<Value, serde_json::Error> {
        match self {
            Motd::V1 => serde_json::to_value(&value.downcast_ref::<MotdV1>().unwrap().0),
            Motd::V2 => serde_json::to_value(&value.downcast_ref::<MotdV2>().unwrap().0),
        }
    }

    fn parse_partial(&self, value: Value) -> Result<Box<dyn Any>, serde_json::Error> {
        // We only have one value, so there's no such thing as a partial
        self.parse(value)
    }

    fn serialize_partial(&self, partial: &Box<dyn Any>) -> Result<Value, serde_json::Error> {
        self.serialize(partial)
    }

    fn describe(&self, error: &String) -> String {
        error.clone()
    }

    fn set(
        &self,
        // We allow any transition from current value to target, so we don't need the current value
        _current_value: Option<Box<dyn Any>>,
        _target: Box<dyn Any>,
    ) -> Result<(), String> {
        // Allow anything that parses
        Ok(())
    }

    fn generate(
        &self,
        existing_partial: Option<Box<dyn Any>>,
        // We do not depend on any settings
        _dependent_settings: Option<Value>,
    ) -> Result<GenerateResult<Box<dyn Any>, Box<dyn Any>>, String> {
        // We generate a default motd if there is none.
        Ok(GenerateResult::Complete(existing_partial.unwrap_or(match self {
            Motd::V1 => erase(MotdV1::default()),
            Motd::V2 => erase(MotdV2(vec![])),
        })))
    }

    fn validate(&self, value: Box<dyn Any>, _validated_settings: Option<Value>) -> Result<(), String> {
        match self {
            // No need to do any additional validation, any MotdV1 is acceptable
            Motd::V1 => Ok(()),
            Motd::V2 => {
                let MotdV2(inner_strings) = value.downcast_ref::<MotdV2>().unwrap();
                // No whitespace allowed in any of the substrings
                if inner_strings.iter().any(|i| i.contains(char::is_whitespace)) {
                    return Err("whitespace in a word of the motd".to_string());
                }
                Ok(())
            }
        }
    }

    fn template_helpers(&self) -> Result<Vec<(String, Helper)>, String> {
        Ok(match self {
            Motd::V1 => vec![("exclaim".to_string(), Helper(exclaim_helper_v1))],
            Motd::V2 => vec![
                ("exclaim".to_string(), Helper(exclaim_helper_v2)),
                ("question".to_string(), Helper(question_helper)),
            ],
        })
    }
}

impl LinearlyMigrateable for Motd {
    fn migrates_forward_to(&self) -> Option<&'static str> {
        match self {
            Motd::V1 => Some("v2"),
            Motd::V2 => None,
        }
    }

    fn migrate_forward(&self, value: &Box<dyn Any>) -> Result<Box<dyn Any>, String> {
        match self {
            // We migrate forward by splitting the motd on whitespace
            Motd::V1 => {
                let MotdV1(inner_value) = value.downcast_ref::<MotdV1>().unwrap();
                let v2_value = inner_value
                    .as_ref()
                    .map(|inner_value| inner_value.split_whitespace().map(str::to_string).collect())
                    .unwrap_or_default();
                Ok(erase(MotdV2(v2_value)))
            }
            Motd::V2 => NoMigration::no_defined_migration().map(erase),
        }
    }

    fn migrates_backward_to(&self) -> Option<&'static str> {
        match self {
            Motd::V1 => None,
            Motd::V2 => Some("v1"),
        }
    }

    fn migrate_backward(&self, value: &Box<dyn Any>) -> Result<Box<dyn Any>, String> {
        match self {
            Motd::V1 => NoMigration::no_defined_migration().map(erase),
            Motd::V2 => {
                // Join with a single space character
                let MotdV2(inner_value) = value.downcast_ref::<MotdV2>().unwrap();
                let v1_value =
                    if inner_value.is_empty() { None } else { Some(inner_value.join(" ")) };
                Ok(erase(MotdV1(v1_value)))
            }
        }
    }
}

type MotdExtension = SettingsExtension<LinearMigrator, BottlerocketSetting<Motd>>;

/// Helper to create the setting extension for these tests.
fn motd_settings_extension() -> MotdExtension {
    LinearMigratorExtensionBuilder::with_name("motd")
        .with_models(vec![
            BottlerocketSetting::linear_model(Motd::V1),
            BottlerocketSetting::linear_model(Motd::V2),
        ])
        .build()
        .expect("Failed to build motd settings extension")
}

fn set_cli(extension: MotdExtension, version: &str, value: Value) -> Result<(), Failure> {
    let args =
        SetArguments { setting_version: version.to_string(), value, current_value: None };
    try_run_extension(&extension, Proto1Input::SetValue(args)).map(|_| ())
}

fn generate_cli(
    extension: MotdExtension,
    version: &str,
    existing_partial: Option<Value>,
    required_settings: Option<Value>,
) -> Result<GenerateResult<Value, Value>, Failure> {
    let args = GenerateArguments {
        setting_version: version.to_string(),
        existing_partial,
        required_settings,
    };
    match try_run_extension(&extension, Proto1Input::Generate(args))? {
        Proto1Output::Generated(generated) => Ok(generated),
        other => panic!("unexpected output {:?}", other),
    }
}

fn validate_cli(
    extension: MotdExtension,
    version: &str,
    value: Value,
    required_settings: Option<Value>,
) -> Result<(), Failure> {
    let args =
        ValidateArguments { setting_version: version.to_string(), value, required_settings };
    try_run_extension(&extension, Proto1Input::Validate(args)).map(|_| ())
}

fn target_migrate_cli(
    extension: MotdExtension,
    value: Value,
    from_version: &str,
    target_version: &str,
) -> Result<Value, Failure> {
    let args = MigrateArguments {
        value,
        from_version: from_version.to_string(),
        target_version: target_version.to_string(),
    };
    match try_run_extension(&extension, Proto1Input::Migrate(args))? {
        Proto1Output::Migrated(value) => Ok(value),
        other => panic!("unexpected output {:?}", other),
    }
}

fn flood_migrate_cli(
    extension: MotdExtension,
    value: Value,
    from_version: &str,
) -> Result<Vec<MigrationResult>, Failure> {
    let args = FloodMigrateArguments { value, from_version: from_version.to_string() };
    match try_run_extension(&extension, Proto1Input::FloodMigrate(args))? {
        Proto1Output::Flooded(results) => Ok(results),
        other => panic!("unexpected output {:?}", other),
    }
}

fn template_helper_cli(
    extension: MotdExtension,
    version: &str,
    helper_name: &str,
    arg: Vec<Value>,
) -> Result<Value, Failure> {
    let args = TemplateHelperArguments {
        setting_version: version.to_string(),
        helper_name: helper_name.to_string(),
        arg,
    };
    match try_run_extension(&extension, Proto1Input::Helper(args))? {
        Proto1Output::Helped(value) => Ok(value),
        other => panic!("unexpected output {:?}", other),
    }
}

/// Reads what was generated as a motd of the first version.
fn as_v1(generated: GenerateResult<Value, Value>) -> GenerateResult<MotdV1, MotdV1> {
    let read = |value: Value| MotdV1(serde_json::from_value(value).unwrap());
    match generated {
        GenerateResult::NeedsData(partial) => GenerateResult::NeedsData(partial.map(read)),
        GenerateResult::Complete(value) => GenerateResult::Complete(read(value)),
    }
}

/// Reads what was generated as a motd of the second version.
fn as_v2(generated: GenerateResult<Value, Value>) -> GenerateResult<MotdV2, MotdV2> {
    let read = |value: Value| MotdV2(serde_json::from_value(value).unwrap());
    match generated {
        GenerateResult::NeedsData(partial) => GenerateResult::NeedsData(partial.map(read)),
        GenerateResult::Complete(value) => GenerateResult::Complete(read(value)),
    }
}

fn result(version: &str, value: Value) -> MigrationResult {
    MigrationResult { version: version.to_string(), value }
}

#[test]
fn mod_test_target_migration() {
    // When a target migration is called,
    // then an equivalent value for the target version is produced via migrations.
    assert_eq!(
        target_migrate_cli(motd_settings_extension(), string("test target migration!"), "v1", "v2")
            .unwrap(),
        array(&["test", "target", "migration!"])
    );

    // Along the chain of five models, from its first version to its last.
    let models = test_extension_builder().build().unwrap();
    let starting_version = "v1";
    let starting_value = BasicValue::new("v1");
    let target_version = "v5";
    assert_eq!(
        LinearMigrator
            .perform_migration(&models, starting_value, starting_version, target_version)
            .unwrap(),
        object("ident", string("v5"))
    );
}

#[test]
fn mod_test_flood_migration() {
    // When flood is called,
    // equivalent values for all versions are produced via migrations.
    let expected_flood_results = || {
        vec![
            result("v1", string("test flood migration!")),
            result("v2", array(&["test", "flood", "migration!"])),
        ]
    };
    assert_eq!(
        flood_migrate_cli(motd_settings_extension(), string("test flood migration!"), "v1")
            .unwrap(),
        expected_flood_results()
    );
    assert_eq!(
        flood_migrate_cli(
            motd_settings_extension(),
            array(&["test", "flood", "migration!"]),
            "v2"
        )
        .unwrap(),
        expected_flood_results()
    );

    // Along the chain of five models, from each of them.
    let models = test_extension_builder().build().unwrap();
    let expected_flood_results: Vec<MigrationResult> = ["v1", "v2", "v3", "v4", "v5"]
        .into_iter()
        .map(|version| result(version, object("ident", string(version))))
        .collect();
    for starting_version in ["v1", "v2", "v3", "v4", "v5"] {
        println!("Testing flood migration starting from {}", starting_version);
        let results = LinearMigrator
            .perform_flood_migrations(&models, BasicValue::new(starting_version), starting_version)
            .unwrap();
        assert_eq!(results, expected_flood_results)
    }
}

#[test]
fn v1_test_motdv1_set_success() {
    // When set is called on motdv1 with a string input,
    // Then that input is successfully set.
    vec![string("Hello!"), string("")]
        .into_iter()
        .for_each(|value| assert!(set_cli(motd_settings_extension(), "v1", value.clone()).is_ok(),));
}

#[test]
fn v1_test_motdv1_set_failure() {
    // When set is called on motdv1 with a non-string input,
    // Then that set operation fails.
    vec![Value::from(123456789), object("motd", string("Hello!"))]
        .into_iter()
        .for_each(|value| assert!(set_cli(motd_settings_extension(), "v1", value.clone()).is_err()));
}

#[test]
fn v1_test_motdv1_generate() {
    // When generate is called on motdv1,
    // an empty settings object is returned.
    assert_eq!(
        as_v1(generate_cli(motd_settings_extension(), "v1", None, None).unwrap()),
        GenerateResult::<MotdV1, MotdV1>::Complete(MotdV1(None))
    );
}

#[test]
fn test_motdv1_generate() {
    // When generate is called on motdv1 with what was generated before,
    // that is returned.
    assert_eq!(
        as_v1(generate_cli(motd_settings_extension(), "v1", None, None).unwrap()),
        GenerateResult::<MotdV1, MotdV1>::Complete(MotdV1(None))
    );
    assert_eq!(
        as_v1(generate_cli(motd_settings_extension(), "v1", Some(string("Hello!")), None).unwrap()),
        GenerateResult::<MotdV1, MotdV1>::Complete(MotdV1(Some("Hello!".to_string())))
    );
}

#[test]
fn v1_test_motdv1_validate() {
    // When validate is called on motdv1,
    // it is successful for any value that parses
    assert!(validate_cli(motd_settings_extension(), "v1", string("test"), None).is_ok(),);
}

#[test]
fn v1_test_motdv1_failure() {
    let numbers = Value::Array(vec![Value::from(1), Value::from(2), Value::from(3)]);
    assert!(validate_cli(motd_settings_extension(), "v1", numbers, None).is_err(),);
}

#[test]
fn test_no_such_helper() {
    assert!(template_helper_cli(motd_settings_extension(), "v1", "no_such_helper", vec![]).is_err())
}

#[test]
fn v1_test_run_exclaim_helper() {
    assert_eq!(
        template_helper_cli(motd_settings_extension(), "v1", "exclaim", vec![string("Hello")])
            .unwrap(),
        string("Hello!")
    );
}

#[test]
fn test_helper_too_many_args() {
    assert!(template_helper_cli(
        motd_settings_extension(),
        "v1",
        "exclaim",
        vec![string("too"), string("many"), string("arguments")]
    )
    .is_err());
}

#[test]
fn v2_test_motdv2_set_success() {
    // When set is called on motdv2 with allowed input,
    // Then that input is successfully set.
    vec![array(&["several,", "strings", "no", "whitespace"]), array(&[])]
        .into_iter()
        .for_each(|value| assert!(set_cli(motd_settings_extension(), "v2", value.clone()).is_ok()));
}

#[test]
fn v2_test_motdv2_set_failure() {
    // When set is called on motdv2 with a non-list-of-string input,
    // Then that set operation fails.
    vec![string("Hello!"), Value::from(123456789), object("motd", string("Hello!'")), Value::Null]
        .into_iter()
        .for_each(|value| assert!(set_cli(motd_settings_extension(), "v2", value).is_err()));
}

#[test]
fn v2_test_motdv2_generate() {
    assert_eq!(
        as_v2(generate_cli(motd_settings_extension(), "v2", None, None).unwrap()),
        GenerateResult::<MotdV2, MotdV2>::Complete(MotdV2(vec![]))
    );
}

#[test]
fn test_motdv2_generate() {
    assert_eq!(
        as_v2(generate_cli(motd_settings_extension(), "v2", None, None).unwrap()),
        GenerateResult::<MotdV2, MotdV2>::Complete(MotdV2(vec![]))
    );
    assert_eq!(
        as_v2(generate_cli(motd_settings_extension(), "v2", Some(array(&["Hello!"])), None).unwrap()),
        GenerateResult::<MotdV2, MotdV2>::Complete(MotdV2(vec!["Hello!".to_string()]))
    );
}

#[test]
fn v2_test_run_exclaim_helper() {
    assert_eq!(
        template_helper_cli(motd_settings_extension(), "v2", "exclaim", vec![string("Hello")])
            .unwrap(),
        string("Hello!!")
    );
}

#[test]
fn test_run_question_helper() {
    assert_eq!(
        template_helper_cli(
            motd_settings_extension(),
            "v2",
            "question",
            vec![string("two args"), string("really")]
        )
        .unwrap(),
        string("two args? really??")
    );
}

// A chain of five models, each of which migrates a value to the value of its neighbour.

#[derive(Debug, PartialEq, Eq)]
struct BasicValue {
    ident: String,
}

impl BasicValue {
    fn new(ident: &str) -> Self {
        Self { ident: ident.to_string() }
    }
}

#[derive(Debug)]
struct Basic {
    version: &'static str,
    backward: Option<&'static str>,
    forward: Option<&'static str>,
}

impl SettingsModel for Basic {
    type Value = BasicValue;
    type PartialKind = BasicValue;
    type ErrorKind = String;
    type Helper = Helper;

    fn get_version(&self) -> &'static str {
        self.version
    }

    fn holds(&self, value: &BasicValue) -> bool {
        value.ident == self.version
    }

    fn parse(&self, value: Value) -> Result<BasicValue, serde_json::Error> {
        let mut fields: serde_json::Map<String, Value> = serde_json::from_value(value)?;
        let ident = serde_json::from_value(fields.remove("ident").unwrap_or(Value::Null))?;
        Ok(BasicValue { ident })
    }

    fn serialize(&self, value: &BasicValue) -> Result<Value, serde_json::Error> {
        Ok(object("ident", string(&value.ident)))
    }

    fn parse_partial(&self, value: Value) -> Result<BasicValue, serde_json::Error> {
        self.parse(value)
    }

    fn serialize_partial(&self, partial: &BasicValue) -> Result<Value, serde_json::Error> {
        self.serialize(partial)
    }

    fn describe(&self, error: &String) -> String {
        error.clone()
    }

    fn set(&self, _current_value: Option<BasicValue>, _target: BasicValue) -> Result<(), String> {
        Ok(())
    }

    fn generate(
        &self,
        _existing_partial: Option<BasicValue>,
        _dependent_settings: Option<Value>,
    ) -> Result<GenerateResult<BasicValue, BasicValue>, String> {
        Ok(GenerateResult::Complete(BasicValue::new(self.version)))
    }

    fn validate(&self, _value: BasicValue, _validated_settings: Option<Value>) -> Result<(), String> {
        Ok(())
    }

    fn template_helpers(&self) -> Result<Vec<(String, Helper)>, String> {
        Ok(vec![])
    }
}

impl LinearlyMigrateable for Basic {
    fn migrates_forward_to(&self) -> Option<&'static str> {
        self.forward
    }

    fn migrate_forward(&self, _value: &BasicValue) -> Result<BasicValue, String> {
        match self.forward {
            Some(version) => Ok(BasicValue::new(version)),
            None => Err(format!("no migration forward of {}", self.version)),
        }
    }

    fn migrates_backward_to(&self) -> Option<&'static str> {
        self.backward
    }

    fn migrate_backward(&self, _value: &BasicValue) -> Result<BasicValue, String> {
        match self.backward {
            Some(version) => Ok(BasicValue::new(version)),
            None => Err(format!("no migration backward of {}", self.version)),
        }
    }
}

fn basic_migrateable(
    version: &'static str,
    backward: Option<&'static str>,
    forward: Option<&'static str>,
) -> BottlerocketSetting<Basic> {
    BottlerocketSetting::linear_model(Basic { version, backward, forward })
}

fn test_extension_builder() -> LinearMigratorExtensionBuilder<BottlerocketSetting<Basic>> {
    LinearMigratorExtensionBuilder::with_name("fake").with_models(vec![
        basic_migrateable("v1", None, Some("v2")),
        basic_migrateable("v2", Some("v1"), Some("v3")),
        basic_migrateable("v3", Some("v2"), Some("v4")),
        basic_migrateable("v4", Some("v3"), Some("v5")),
        basic_migrateable("v5", Some("v4"), None),
    ])
}

#[test]
fn test_find_migration_route() {
    let models = test_extension_builder().build().unwrap();

    [
        ("v3", "v3", Some(vec![])),
        ("v1", "v3", Some(vec![Forward, Forward])),
        ("v1", "v5", Some(vec![Forward, Forward, Forward, Forward])),
        ("v3", "v2", Some(vec![Backward])),
        ("v5", "v2", Some(vec![Backward, Backward, Backward])),
        ("v1", "v7", None),
        ("v9", "definitely-no-such-version", None),
    ]
    .into_iter()
    .for_each(|(start, to, expected)| {
        println!("Testing migration from {} to {}", start, to);
        let migration: Option<Vec<MigrationDirection>> =
            LinearMigrator.find_migration_route(&models, start, to);

        assert_eq!(migration, expected);
    });
}

#[test]
fn test_migration_iter() {
    let models = test_extension_builder().build().unwrap();

    let versions = migration_iter(&models, "v1", Forward)
        .into_iter()
        .map(|model| model.get_version())
        .collect::<Vec<_>>();

    assert_eq!(versions, vec!["v1", "v2", "v3", "v4", "v5"])
}

#[test]
fn migration_iter_walks_backward_and_from_the_middle() {
    let models = test_extension_builder().build().unwrap();
    let versions = |start: &str, direction| {
        migration_iter(&models, start, direction)
            .into_iter()
            .map(|model| model.get_version())
            .collect::<Vec<_>>()
    };
    assert_eq!(versions("v3", Backward), vec!["v3", "v2", "v1"]);
    assert_eq!(versions("v3", Forward), vec!["v3", "v4", "v5"]);
    assert_eq!(versions("v5", Forward), vec!["v5"]);
    assert_eq!(versions("v9", Forward), Vec::<String>::new());
}

#[test]
fn route_from_a_version_to_itself_has_no_hops() {
    let models = test_extension_builder().build().unwrap();
    for version in ["v1", "v2", "v3", "v4", "v5", "v9"] {
        assert_eq!(LinearMigrator.find_migration_route(&models, version, version), Some(vec![]));
    }
}

#[test]
fn no_route_to_or_from_an_unknown_version() {
    let models = test_extension_builder().build().unwrap();
    assert_eq!(LinearMigrator.find_migration_route(&models, "v1", "v9"), None);
    assert_eq!(LinearMigrator.find_migration_route(&models, "v9", "v1"), None);
    assert_eq!(
        LinearMigrator.find_migration_route(&models, "v1", "v5"),
        Some(vec![Forward, Forward, Forward, Forward])
    );
    assert_eq!(
        LinearMigrator.find_migration_route(&models, "v5", "v2"),
        Some(vec![Backward, Backward, Backward])
    );
}

#[test]
fn route_back_is_the_route_reversed() {
    let models = test_extension_builder().build().unwrap();
    let versions = ["v1", "v2", "v3", "v4", "v5"];
    for (i, start) in versions.iter().enumerate() {
        for (j, target) in versions.iter().enumerate() {
            let there = LinearMigrator.find_migration_route(&models, start, target).unwrap();
            let back = LinearMigrator.find_migration_route(&models, target, start).unwrap();
            assert_eq!(there.len(), i.abs_diff(j));
            assert_eq!(back.len(), there.len());
            assert!(there.iter().all(|d| *d == if i < j { Forward } else { Backward }) || i == j);
            assert!(there.iter().zip(back.iter()).all(|(a, b)| a.opposite() == *b));
        }
    }
}

#[test]
fn opposite_directions() {
    assert_eq!(Forward.opposite(), Backward);
    assert_eq!(Backward.opposite(), Forward);
    assert_eq!(Forward.opposite().opposite(), Forward);
    assert_eq!(Forward.name(), "forward");
    assert_eq!(Backward.name(), "backward");
}

#[test]
fn migrate_from_an_unknown_version_is_no_such_model() {
    let models = test_extension_builder().build().unwrap();
    match LinearMigrator.perform_migration(&models, BasicValue::new("v9"), "v9", "v1") {
        Err(LinearMigratorError::NoSuchModel { version }) => assert_eq!(version, "v9"),
        other => panic!("unexpected result {:?}", other),
    }
    // Also where the target is the unknown version itself.
    match LinearMigrator.perform_migration(&models, BasicValue::new("v9"), "v9", "v9") {
        Err(LinearMigratorError::NoSuchModel { version }) => assert_eq!(version, "v9"),
        other => panic!("unexpected result {:?}", other),
    }
    match LinearMigrator.perform_flood_migrations(&models, BasicValue::new("v9"), "v9") {
        Err(LinearMigratorError::NoSuchModel { version }) => assert_eq!(version, "v9"),
        other => panic!("unexpected result {:?}", other),
    }
}

#[test]
fn migrate_to_an_unknown_version_is_no_migration_route() {
    let models = test_extension_builder().build().unwrap();
    match LinearMigrator.perform_migration(&models, BasicValue::new("v1"), "v1", "v9") {
        Err(LinearMigratorError::NoMigrationRoute { starting_version, target_version }) => {
            assert_eq!(starting_version, "v1");
            assert_eq!(target_version, "v9");
        }
        other => panic!("unexpected result {:?}", other),
    }
}

#[test]
fn migrate_to_the_same_version_serializes_the_value() {
    let models = test_extension_builder().build().unwrap();
    assert_eq!(
        LinearMigrator.perform_migration(&models, BasicValue::new("v3"), "v3", "v3").unwrap(),
        object("ident", string("v3"))
    );
    assert_eq!(
        LinearMigrator.perform_migration(&models, BasicValue::new("v4"), "v4", "v2").unwrap(),
        object("ident", string("v2"))
    );
}

#[test]
fn value_of_another_version_is_a_downcast_error() {
    let models = test_extension_builder().build().unwrap();
    match LinearMigrator.perform_migration(&models, BasicValue::new("v2"), "v1", "v3") {
        Err(LinearMigratorError::DowncastSetting { version }) => assert_eq!(version, "v1"),
        other => panic!("unexpected result {:?}", other),
    }
    match LinearMigrator.perform_migration(&models, BasicValue::new("v2"), "v1", "v1") {
        Err(LinearMigratorError::DowncastSetting { version }) => assert_eq!(version, "v1"),
        other => panic!("unexpected result {:?}", other),
    }
    match LinearMigrator.perform_flood_migrations(&models, BasicValue::new("v2"), "v1") {
        Err(LinearMigratorError::DowncastSetting { version }) => assert_eq!(version, "v1"),
        other => panic!("unexpected result {:?}", other),
    }
}

#[test]
fn model_without_a_migration_reports_no_defined_migration() {
    let model = basic_migrateable("v1", None, Some("v2"));
    match model.migrate(&BasicValue::new("v1"), Backward) {
        Err(LinearMigratorError::NoDefinedMigration { direction, version }) => {
            assert_eq!(direction, Backward);
            assert_eq!(version, "v1");
        }
        other => panic!("unexpected result {:?}", other),
    }
    assert_eq!(model.migrate(&BasicValue::new("v1"), Forward).unwrap(), BasicValue::new("v2"));
    assert_eq!(model.migrates_to(Forward), Some("v2".to_string()));
    assert_eq!(model.migrates_to(Backward), None);
    assert_eq!(model.serialize(&BasicValue::new("v1")).unwrap(), object("ident", string("v1")));
}

/// A chain of two models of which the first fails to migrate what does not begin with "ok".
#[derive(Debug)]
struct Picky(&'static str);

impl SettingsModel for Picky {
    type Value = String;
    type PartialKind = String;
    type ErrorKind = String;
    type Helper = Helper;

    fn get_version(&self) -> &'static str {
        self.0
    }

    fn holds(&self, _value: &String) -> bool {
        true
    }

    fn parse(&self, value: Value) -> Result<String, serde_json::Error> {
        serde_json::from_value(value)
    }

    fn serialize(&self, value: &String) -> Result<Value, serde_json::Error> {
        if value.contains("unwritable") {
            return Err(serde_json::from_str::<Value>("not json").unwrap_err());
        }
        Ok(string(value))
    }

    fn parse_partial(&self, value: Value) -> Result<String, serde_json::Error> {
        self.parse(value)
    }

    fn serialize_partial(&self, partial: &String) -> Result<Value, serde_json::Error> {
        self.serialize(partial)
    }

    fn describe(&self, error: &String) -> String {
        format!("picky: {}", error)
    }

    fn set(&self, _current_value: Option<String>, target: String) -> Result<(), String> {
        if target.starts_with("ok") {
            Ok(())
        } else {
            Err("refused".to_string())
        }
    }

    fn generate(
        &self,
        existing_partial: Option<String>,
        dependent_settings: Option<Value>,
    ) -> Result<GenerateResult<String, String>, String> {
        match (existing_partial, dependent_settings) {
            (Some(partial), Some(_)) => Ok(GenerateResult::Complete(partial + " done")),
            (Some(partial), None) => Ok(GenerateResult::NeedsData(Some(partial))),
            (None, Some(_)) => Err("nothing to go on".to_string()),
            (None, None) => Ok(GenerateResult::NeedsData(None)),
        }
    }

    fn validate(&self, value: String, _validated_settings: Option<Value>) -> Result<(), String> {
        if value.starts_with("ok") {
            Ok(())
        } else {
            Err("invalid".to_string())
        }
    }

    fn template_helpers(&self) -> Result<Vec<(String, Helper)>, String> {
        Err("no helpers today".to_string())
    }
}

impl LinearlyMigrateable for Picky {
    fn migrates_forward_to(&self) -> Option<&'static str> {
        (self.0 == "old").then_some("new")
    }

    fn migrate_forward(&self, value: &String) -> Result<String, String> {
        if value.starts_with("ok") {
            Ok(format!("{} (new)", value))
        } else {
            Err(format!("cannot migrate '{}'", value))
        }
    }

    fn migrates_backward_to(&self) -> Option<&'static str> {
        (self.0 == "new").then_some("old")
    }

    fn migrate_backward(&self, value: &String) -> Result<String, String> {
        Ok(value.trim_end_matches(" (new)").to_string())
    }
}

fn picky_extension() -> SettingsExtension<LinearMigrator, BottlerocketSetting<Picky>> {
    LinearMigratorExtensionBuilder::with_name("picky")
        .with_models(vec![
            BottlerocketSetting::linear_model(Picky("new")),
            BottlerocketSetting::linear_model(Picky("old")),
        ])
        .build()
        .unwrap()
}

#[test]
fn failure_of_a_model_is_a_submigration_error() {
    let extension = picky_extension();
    match LinearMigrator.perform_migration(&extension, "bad".to_string(), "old", "new") {
        Err(LinearMigratorError::SubMigration { from_version, to_version, direction, source }) => {
            assert_eq!(from_version, "old");
            assert_eq!(to_version, "new");
            assert_eq!(direction, Forward);
            assert_eq!(source, "picky: cannot migrate 'bad'");
        }
        other => panic!("unexpected result {:?}", other),
    }
    assert!(matches!(
        LinearMigrator.perform_flood_migrations(&extension, "bad".to_string(), "old"),
        Err(LinearMigratorError::SubMigration { .. })
    ));
    assert_eq!(
        LinearMigrator.perform_migration(&extension, "ok then".to_string(), "old", "new").unwrap(),
        string("ok then (new)")
    );
}

#[test]
fn failure_to_serialize_is_a_serialize_error() {
    let extension = picky_extension();
    assert!(matches!(
        LinearMigrator.perform_migration(&extension, "ok unwritable".to_string(), "old", "new"),
        Err(LinearMigratorError::SerializeMigrationResult { .. })
    ));
    assert!(matches!(
        LinearMigrator.perform_flood_migrations(&extension, "ok unwritable".to_string(), "new"),
        Err(LinearMigratorError::SerializeMigrationResult { .. })
    ));
}

#[test]
fn flood_results_are_sorted_by_version() {
    let extension = picky_extension();
    assert_eq!(
        LinearMigrator.perform_flood_migrations(&extension, "ok".to_string(), "old").unwrap(),
        vec![result("new", string("ok (new)")), result("old", string("ok"))]
    );
    assert_eq!(
        LinearMigrator.perform_flood_migrations(&extension, "ok (new)".to_string(), "new").unwrap(),
        vec![result("new", string("ok (new)")), result("old", string("ok"))]
    );
}

#[test]
fn lossless_migrations_round_trip() {
    let extension = picky_extension();
    for text in ["ok", "ok with words", "ok, (new) or not"] {
        let there = LinearMigrator
            .perform_migration(&extension, text.to_string(), "old", "new")
            .unwrap();
        let read = extension.model("new").unwrap().parse_erased(there).unwrap();
        let back = LinearMigrator.perform_migration(&extension, read, "new", "old").unwrap();
        assert_eq!(back, string(text));
    }
    // The motd models lose nothing of a motd whose words are separated by single spaces.
    let motd = string("test target migration!");
    let there = target_migrate_cli(motd_settings_extension(), motd.clone(), "v1", "v2").unwrap();
    assert_eq!(target_migrate_cli(motd_settings_extension(), there, "v2", "v1").unwrap(), motd);
}

#[test]
fn operations_on_an_unknown_version_are_no_such_model() {
    let no_such_model = |result: Result<Proto1Output, Failure>| match result {
        Err(SettingsExtensionError::NoSuchModel { setting_version }) => {
            assert_eq!(setting_version, "v3")
        }
        other => panic!("unexpected result {:?}", other),
    };
    let run = |input| try_run_extension(&motd_settings_extension(), input);
    let version = || "v3".to_string();
    no_such_model(run(Proto1Input::SetValue(SetArguments {
        setting_version: version(),
        value: string("x"),
        current_value: Some(string("y")),
    })));
    no_such_model(run(Proto1Input::Generate(GenerateArguments {
        setting_version: version(),
        existing_partial: None,
        required_settings: None,
    })));
    no_such_model(run(Proto1Input::Validate(ValidateArguments {
        setting_version: version(),
        value: string("x"),
        required_settings: None,
    })));
    no_such_model(run(Proto1Input::Migrate(MigrateArguments {
        value: string("x"),
        from_version: version(),
        target_version: "v1".to_string(),
    })));
    no_such_model(run(Proto1Input::FloodMigrate(FloodMigrateArguments {
        value: string("x"),
        from_version: version(),
    })));
    no_such_model(run(Proto1Input::Helper(TemplateHelperArguments {
        setting_version: version(),
        helper_name: "exclaim".to_string(),
        arg: vec![],
    })));
}

#[test]
fn errors_of_a_model_are_wrapped() {
    let run = |input| try_run_extension(&picky_extension(), input);
    let set = |value: Value, current_value| {
        run(Proto1Input::SetValue(SetArguments {
            setting_version: "old".to_string(),
            value,
            current_value,
        }))
    };
    assert!(matches!(set(string("ok"), Some(string("before"))), Ok(Proto1Output::Nothing)));
    match set(string("bad"), None) {
        Err(SettingsExtensionError::SetValue {
            source: BottlerocketSettingError::SetSetting { source },
        }) => assert_eq!(source, "picky: refused"),
        other => panic!("unexpected result {:?}", other),
    }
    match set(Value::from(1), None) {
        Err(SettingsExtensionError::SetValue {
            source: BottlerocketSettingError::DeserializeInput { input_type, .. },
        }) => assert_eq!(input_type, "target value"),
        other => panic!("unexpected result {:?}", other),
    }
    match set(string("ok"), Some(Value::from(1))) {
        Err(SettingsExtensionError::SetValue {
            source: BottlerocketSettingError::DeserializeInput { input_type, .. },
        }) => assert_eq!(input_type, "current value"),
        other => panic!("unexpected result {:?}", other),
    }
    let validate = |value: Value| {
        run(Proto1Input::Validate(ValidateArguments {
            setting_version: "old".to_string(),
            value,
            required_settings: None,
        }))
    };
    assert!(matches!(validate(string("ok")), Ok(Proto1Output::Nothing)));
    match validate(string("bad")) {
        Err(SettingsExtensionError::Validate {
            source: BottlerocketSettingError::ValidateSetting { source },
        }) => assert_eq!(source, "picky: invalid"),
        other => panic!("unexpected result {:?}", other),
    }
    match run(Proto1Input::Helper(TemplateHelperArguments {
        setting_version: "old".to_string(),
        helper_name: "exclaim".to_string(),
        arg: vec![],
    })) {
        Err(SettingsExtensionError::TemplateHelper {
            source: BottlerocketSettingError::FetchTemplateHelpers { source },
        }) => assert_eq!(source, "picky: no helpers today"),
        other => panic!("unexpected result {:?}", other),
    }
    match run(Proto1Input::Migrate(MigrateArguments {
        value: Value::from(1),
        from_version: "old".to_string(),
        target_version: "new".to_string(),
    })) {
        Err(SettingsExtensionError::ModelParse { setting_version, .. }) => {
            assert_eq!(setting_version, "old")
        }
        other => panic!("unexpected result {:?}", other),
    }
    match run(Proto1Input::Migrate(MigrateArguments {
        value: string("bad"),
        from_version: "old".to_string(),
        target_version: "new".to_string(),
    })) {
        Err(SettingsExtensionError::Migrate {
            source: LinearMigratorError::SubMigration { source, .. },
        }) => assert_eq!(source, "picky: cannot migrate 'bad'"),
        other => panic!("unexpected result {:?}", other),
    }
}

#[test]
fn generate_hands_back_what_the_model_generated() {
    let generate = |existing_partial, required_settings| {
        let args = GenerateArguments {
            setting_version: "new".to_string(),
            existing_partial,
            required_settings,
        };
        match try_run_extension(&picky_extension(), Proto1Input::Generate(args)) {
            Ok(Proto1Output::Generated(generated)) => Ok(generated),
            Ok(other) => panic!("unexpected output {:?}", other),
            Err(e) => Err(e),
        }
    };
    assert_eq!(generate(None, None).unwrap(), GenerateResult::NeedsData(None));
    assert_eq!(
        generate(Some(string("ok")), None).unwrap(),
        GenerateResult::NeedsData(Some(string("ok")))
    );
    assert_eq!(
        generate(Some(string("ok")), Some(Value::Null)).unwrap(),
        GenerateResult::Complete(string("ok done"))
    );
    match generate(None, Some(Value::Null)) {
        Err(SettingsExtensionError::Generate {
            source: BottlerocketSettingError::GenerateSetting { source },
        }) => assert_eq!(source, "picky: nothing to go on"),
        other => panic!("unexpected result {:?}", other),
    }
    match generate(Some(Value::from(1)), None) {
        Err(SettingsExtensionError::Generate {
            source: BottlerocketSettingError::DeserializeInput { input_type, .. },
        }) => assert_eq!(input_type, "existing partial"),
        other => panic!("unexpected result {:?}", other),
    }
    match generate(Some(string("unwritable")), None) {
        Err(SettingsExtensionError::Generate {
            source: BottlerocketSettingError::SerializeResult { .. },
        }) => {}
        other => panic!("unexpected result {:?}", other),
    }
}

#[test]
fn helper_errors_are_named() {
    match template_helper_cli(motd_settings_extension(), "v1", "no_such_helper", vec![]) {
        Err(SettingsExtensionError::TemplateHelper {
            source: BottlerocketSettingError::NoSuchTemplateHelper { helper_name },
        }) => assert_eq!(helper_name, "no_such_helper"),
        other => panic!("unexpected result {:?}", other),
    }
    match template_helper_cli(
        motd_settings_extension(),
        "v1",
        "exclaim",
        vec![string("too"), string("many"), string("arguments")],
    ) {
        Err(SettingsExtensionError::TemplateHelper {
            source:
                BottlerocketSettingError::ExecuteTemplateHelper {
                    helper_name,
                    source: HelperError::Arity { expected_args, provided_args },
                },
        }) => {
            assert_eq!(helper_name, "exclaim");
            assert_eq!((expected_args, provided_args), (1, 3));
        }
        other => panic!("unexpected result {:?}", other),
    }
    assert!(matches!(
        template_helper_cli(motd_settings_extension(), "v1", "exclaim", vec![Value::from(1)]),
        Err(SettingsExtensionError::TemplateHelper {
            source: BottlerocketSettingError::ExecuteTemplateHelper {
                source: HelperError::JSONParse { .. },
                ..
            },
        })
    ));
}

#[test]
fn extension_hands_out_its_models() {
    let extension = test_extension_builder().build().unwrap();
    assert_eq!(extension.name(), "fake");
    assert_eq!(extension.len(), 5);
    assert!(!extension.is_empty());
    assert_eq!(extension.model("v4").unwrap().get_version(), "v4");
    assert_eq!(extension.get_model("v2").unwrap().get_version(), "v2");
    assert!(extension.model("v9").is_none());
    assert_eq!(extension.model_at(2).get_version(), "v3");
    let mut versions: Vec<String> =
        extension.iter_models().into_iter().map(|(version, _)| version).collect();
    versions.sort();
    assert_eq!(versions, vec!["v1", "v2", "v3", "v4", "v5"]);
    assert!(LinearMigrator.validate_migrations(&extension).is_ok());
}
