//! Settings extension CLI proto1 definition.
use vstd::prelude::*;

verus! {

/// Use settings extension CLI protocol proto1.
#[derive(Debug)]
pub struct Protocol1 {
    /// The command to invoke against the settings extension.
    pub command: Proto1Command,
    /// The file that contains the input JSON for the proto1 command.
    pub input_file: Option<InputFile>,
}

/// The command to invoke against the settings extension.
#[derive(Debug)]
pub enum Proto1Command {
    /// Modify values owned by this setting
    SetValue(SetCommand),
    /// Generate default values for this setting
    Generate(GenerateCommand),
    /// Validate values created by external settings
    Validate(ValidateCommand),
    /// Migrate this setting from one given version to another
    Migrate(MigrateCommand),
    /// Migrate this setting from one given version to all other known versions
    FloodMigrate(FloodMigrateCommand),
    /// Execute a helper. Typically this is used to render config templates
    Helper(TemplateHelperCommand),
}

/// Validates that a new setting value can be persisted to the datastore.
#[derive(Debug)]
pub struct SetCommand {}

/// The input of the `set` command.
#[derive(Debug)]
pub struct SetArguments {
    /// The version of the setting which should be used
    pub setting_version: String,
    /// The requested value to be set for the incoming setting
    pub value: serde_json::Value,
    /// The current value of this settings tree
    pub current_value: Option<serde_json::Value>,
}

/// Dynamically generates a value for this setting given, possibly from other settings.
#[derive(Debug)]
pub struct GenerateCommand {}

/// The input of the `generate` command.
#[derive(Debug)]
pub struct GenerateArguments {
    /// The version of the setting which should be used
    pub setting_version: String,
    /// A json value containing any partially generated data for this setting
    pub existing_partial: Option<serde_json::Value>,
    /// A json value containing any requested settings partials needed to generate this one
    pub required_settings: Option<serde_json::Value>,
}

/// Validates an incoming setting, possibly cross-validated with other settings.
#[derive(Debug)]
pub struct ValidateCommand {}

/// The input of the `validate` command.
#[derive(Debug)]
pub struct ValidateArguments {
    /// The version of the setting which should be used
    pub setting_version: String,
    /// A json value containing the value to validate
    pub value: serde_json::Value,
    /// A json value containing any requested settings needed to validate this one
    pub required_settings: Option<serde_json::Value>,
}

/// Migrates a setting value from one version to another.
#[derive(Debug)]
pub struct MigrateCommand {}

/// The input of the `migrate` command.
#[derive(Debug)]
pub struct MigrateArguments {
    /// A json value containing the current value of the setting
    pub value: serde_json::Value,
    /// The version of the settings data being migrated
    pub from_version: String,
    /// The desired resulting version for the settings data
    pub target_version: String,
}

/// Migrates a setting value from one version to all other known versions.
#[derive(Debug)]
pub struct FloodMigrateCommand {}

/// The input of the `flood-migrate` command.
#[derive(Debug)]
pub struct FloodMigrateArguments {
    /// A json value containing the current value of the setting
    pub value: serde_json::Value,
    /// The version of the settings data being migrated
    pub from_version: String,
}

/// Executes a template helper to assist in rendering values to a configuration file.
#[derive(Debug)]
pub struct TemplateHelperCommand {}

/// The input of the `helper` command.
#[derive(Debug)]
pub struct TemplateHelperArguments {
    /// The version of the setting which should be used
    pub setting_version: String,
    /// The name of the helper to call
    pub helper_name: String,
    /// The arguments for the given helper
    pub arg: Vec<serde_json::Value>,
}

/// Where the input of a proto1 command is read from.
#[derive(Debug)]
pub enum InputFile {
    /// The standard input.
    Stdin,
    /// The file of the given name.
    NormalFile(String),
}

/// The input file as contracts speak of it.
pub enum InputSource {
    Stdin,
    NormalFile(Seq<char>),
}

impl View for InputFile {
    type V = InputSource;

    open spec fn view(&self) -> InputSource {
        match self {
            InputFile::Stdin => InputSource::Stdin,
            InputFile::NormalFile(filename) => InputSource::NormalFile(filename@),
        }
    }
}

/// What a command line argument names as the input file: `/dev/stdin`, `-` and `stdin` name
/// the standard input, and anything else names a file.
pub open spec fn names_input(input: Seq<char>) -> InputSource {
    if input == "/dev/stdin"@ || input == "-"@ || input == "stdin"@ {
        InputSource::Stdin
    } else {
        InputSource::NormalFile(input)
    }
}

/// The path from which the input is read.
pub open spec fn path_of(source: InputSource) -> Seq<char> {
    match source {
        InputSource::Stdin => "/dev/stdin"@,
        InputSource::NormalFile(filename) => filename,
    }
}

/// The name by which the input file is shown.
pub open spec fn shown_as(source: InputSource) -> Seq<char> {
    match source {
        InputSource::Stdin => "stdin"@,
        InputSource::NormalFile(filename) => filename,
    }
}

impl InputFile {
    /// Returns the path from which the input is read.
    pub fn as_ref(&self) -> (r: &str)
        ensures
            r@ == path_of(self@),
    {
        match self {
            InputFile::Stdin => "/dev/stdin",
            InputFile::NormalFile(filename) => filename.as_str(),
        }
    }

    /// Returns the name by which the input file is shown.
    pub fn name(&self) -> (r: &str)
        ensures
            r@ == shown_as(self@),
    {
        match self {
            InputFile::Stdin => "stdin",
            InputFile::NormalFile(filename) => filename.as_str(),
        }
    }
}

impl std::str::FromStr for InputFile {
    type Err = std::convert::Infallible;

    /// Reads the input file from a command line argument: `/dev/stdin`, `-` and `stdin` name
    /// the standard input, and anything else names a file. This never fails.
    fn from_str(input: &str) -> (r: Result<InputFile, std::convert::Infallible>)
        ensures
            r matches Ok(file) && file@ == names_input(input@),
    {
        let given = input.to_owned();
        if given == "/dev/stdin".to_owned() || given == "-".to_owned() || given == "stdin".to_owned() {
            Ok(InputFile::Stdin)
        } else {
            Ok(InputFile::NormalFile(given))
        }
    }
}

impl Default for InputFile {
    fn default() -> (r: InputFile)
        ensures
            r == InputFile::Stdin,
    {
        InputFile::Stdin
    }
}

} // verus!
