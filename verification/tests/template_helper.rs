use bottlerocket_settings_sdk::example::empty::{EmptySetting, NoHelper};
use bottlerocket_settings_sdk::helper::{call_helper, check_arity};
use bottlerocket_settings_sdk::{HelperDef, HelperError, SettingsModel};
use serde_json::Value;

fn json(s: &str) -> Value {
    Value::String(s.to_string())
}

/// A template helper made of a function.
struct Helper(fn(Vec<Value>) -> Result<Value, HelperError>);

impl HelperDef for Helper {
    fn helper_fn(&self, args: Vec<Value>) -> Result<Value, HelperError> {
        (self.0)(args)
    }
}

fn join_strings(lhs: String, rhs: String) -> Result<String, String> {
    Ok(lhs + &rhs)
}

fn two_strings(args: Vec<Value>) -> Result<(String, String), serde_json::Error> {
    let mut args = args.into_iter();
    let lhs = serde_json::from_value(args.next().unwrap())?;
    let rhs = serde_json::from_value(args.next().unwrap())?;
    Ok((lhs, rhs))
}

fn join_strings_helper(args: Vec<Value>) -> Result<Value, HelperError> {
    call_helper(2, args, two_strings, |(lhs, rhs)| join_strings(lhs, rhs), serde_json::to_value::<String>)
}

#[test]
fn call_join_strings() {
    assert_eq!(
        Helper(join_strings_helper).helper_fn(vec![json("hello "), json("world!")]).unwrap(),
        json("hello world!"),
    );

    assert!(join_strings_helper(vec![json("too"), json("many"), json("args")]).is_err());

    assert!(Helper(join_strings_helper)
        .helper_fn(vec![json("too"), json("many"), json("args")])
        .is_err());

    assert!(join_strings_helper(vec![json("too few args")]).is_err());
}

fn no_args() -> Result<String, String> {
    Ok(String::new())
}

fn no_args_helper(args: Vec<Value>) -> Result<Value, HelperError> {
    call_helper(0, args, |_| Ok(()), |()| no_args(), serde_json::to_value::<String>)
}

#[test]
fn call_no_args() {
    assert_eq!(no_args_helper(vec![]).unwrap(), json(""));
    assert!(no_args_helper(vec![json("sneaky arg")]).is_err());
}

#[test]
fn arity_is_checked_first() {
    assert!(check_arity(2, 2).is_ok());
    assert!(check_arity(0, 0).is_ok());
    match check_arity(2, 3) {
        Err(HelperError::Arity { expected_args, provided_args }) => {
            assert_eq!((expected_args, provided_args), (2, 3))
        }
        other => panic!("unexpected result {:?}", other),
    }
    // Arguments that cannot be read are not looked at when their number is wrong.
    match join_strings_helper(vec![Value::from(1)]) {
        Err(HelperError::Arity { expected_args, provided_args }) => {
            assert_eq!((expected_args, provided_args), (2, 1))
        }
        other => panic!("unexpected result {:?}", other),
    }
}

#[test]
fn helper_failures_are_told_apart() {
    assert!(matches!(
        join_strings_helper(vec![json("a"), Value::from(1)]),
        Err(HelperError::JSONParse { .. })
    ));
    let failing = |args| {
        call_helper(
            1,
            args,
            |_| Ok(()),
            |()| Err::<String, String>("it failed".to_string()),
            serde_json::to_value::<String>,
        )
    };
    match failing(vec![json("a")]) {
        Err(HelperError::HelperExecute { source }) => assert_eq!(source, "it failed"),
        other => panic!("unexpected result {:?}", other),
    }
    let unwritable = |args| {
        call_helper(
            0,
            args,
            |_| Ok(()),
            |()| Ok::<(), String>(()),
            |()| Err(serde_json::from_str::<Value>("not json").unwrap_err()),
        )
    };
    assert!(matches!(unwritable(vec![]), Err(HelperError::JSONSerialize { .. })));
}

#[test]
fn empty_setting_is_written_as_null() {
    let model = EmptySetting;
    assert_eq!(model.get_version(), "v1");
    assert_eq!(model.serialize(&EmptySetting).unwrap(), Value::Null);
    assert!(model.parse(Value::Null).is_ok());
    assert!(model.parse(json("something")).is_err());
    assert!(model.parse(Value::from(0)).is_err());
    assert!(model.parse_partial(Value::Null).is_ok());
    assert!(model.parse_partial(Value::Array(vec![])).is_err());
    // What is written can be read.
    assert!(model.parse(model.serialize(&EmptySetting).unwrap()).is_ok());
    assert!(model.parse_partial(model.serialize_partial(&EmptySetting).unwrap()).is_ok());
    assert_eq!(model.serialize_partial(&EmptySetting).unwrap(), Value::Null);
    assert!(model.template_helpers().unwrap().is_empty());
    assert_eq!(NoHelper.helper_fn(vec![]).unwrap(), Value::Null);
    assert!(matches!(
        NoHelper.helper_fn(vec![Value::Null]),
        Err(HelperError::Arity { expected_args: 0, provided_args: 1 })
    ));
}
