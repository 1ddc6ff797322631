//! Provides types for creating custom helper functions for use in a templating engine that
//! writes configuration files from settings.
use vstd::prelude::*;

verus! {

/// This trait allows users to create custom helper functions for use in a templating
/// configuration system.
///
/// Helpers are used to run arbitrary rendering code when writing config files.
pub trait HelperDef {
    /// Executes the helper.
    ///
    /// All inputs are provided as a list of JSON values, and a resulting JSON value is
    /// expected as output.
    fn helper_fn(&self, args: Vec<serde_json::Value>) -> Result<serde_json::Value, HelperError>;
}

/// Error type used in helper definitions.
#[derive(Debug)]
#[allow(inconsistent_fields)]
pub enum HelperError {
    /// The helper was called with another number of arguments than it takes.
    Arity { expected_args: usize, provided_args: usize },
    /// The helper itself failed; `source` is what it said of its failure.
    HelperExecute { source: String },
    /// An argument could not be read from JSON.
    JSONParse { source: serde_json::Error },
    /// The helper's result could not be written as JSON.
    JSONSerialize { source: serde_json::Error },
}

/// Checks that a helper which takes `expected_args` arguments is called with that many.
pub fn check_arity(expected_args: usize, provided_args: usize) -> (r: Result<(), HelperError>)
    ensures
        expected_args == provided_args ==> r is Ok,
        expected_args != provided_args ==> r == Err::<(), HelperError>(
            HelperError::Arity { expected_args, provided_args },
        ),
{
    if provided_args != expected_args {
        return Err(HelperError::Arity { expected_args, provided_args });
    }
    Ok(())
}

/// Runs a function as a template helper: checks the number of arguments, reads them from
/// JSON with `parse`, calls the function `call` on them, and writes its result as JSON with
/// `serialize`. Nothing is read if the number of arguments is wrong, the function is not
/// called if the arguments cannot be read, and nothing is written if the function fails.
pub fn call_helper<A, T, P, C, S>(
    expected_args: usize,
    args: Vec<serde_json::Value>,
    parse: P,
    call: C,
    serialize: S,
) -> (r: Result<serde_json::Value, HelperError>) where
    P: FnOnce(Vec<serde_json::Value>) -> Result<A, serde_json::Error>,
    C: FnOnce(A) -> Result<T, String>,
    S: FnOnce(T) -> Result<serde_json::Value, serde_json::Error>,

    requires
        call_requires(parse, (args,)),
        forall|read: A| call_requires(call, (read,)),
        forall|produced: T| call_requires(serialize, (produced,)),
    ensures
        args@.len() != expected_args ==> r == Err::<serde_json::Value, HelperError>(
            HelperError::Arity { expected_args, provided_args: args@.len() as usize },
        ),
        args@.len() == expected_args ==> exists|read: Result<A, serde_json::Error>| #[trigger]
            call_ensures(parse, (args,), read) && match read {
                Err(source) => r == Err::<serde_json::Value, HelperError>(
                    HelperError::JSONParse { source },
                ),
                Ok(parsed) => exists|called: Result<T, String>| #[trigger]
                    call_ensures(call, (parsed,), called) && match called {
                        Err(source) => r == Err::<serde_json::Value, HelperError>(
                            HelperError::HelperExecute { source },
                        ),
                        Ok(produced) => exists|
                            written: Result<serde_json::Value, serde_json::Error>,
                        | #[trigger]
                            call_ensures(serialize, (produced,), written) && match written {
                                Err(source) => r == Err::<serde_json::Value, HelperError>(
                                    HelperError::JSONSerialize { source },
                                ),
                                Ok(json) => r == Ok::<serde_json::Value, HelperError>(json),
                            },
                    },
            },
{
    match check_arity(expected_args, args.len()) {
        Ok(()) => {},
        Err(e) => {
            return Err(e);
        },
    }
    let parsed = match parse(args) {
        Ok(parsed) => parsed,
        Err(source) => {
            return Err(HelperError::JSONParse { source });
        },
    };
    let produced = match call(parsed) {
        Ok(produced) => produced,
        Err(source) => {
            return Err(HelperError::HelperExecute { source });
        },
    };
    match serialize(produced) {
        Ok(json) => Ok(json),
        Err(source) => Err(HelperError::JSONSerialize { source }),
    }
}

} // verus!
