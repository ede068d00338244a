use easy_repl::command::{validate_and_parse, validate_args};
use easy_repl::{ArgInfo, ArgsError, ArgValue, Command, CommandError, CommandStatus, Critical,
    CriticalError, Handler, HandlerError, TypeTag};

struct DoneHandler;

impl Handler for DoneHandler {
    fn handle(&mut self, _args: &Vec<String>) -> Result<CommandStatus, HandlerError> {
        Ok(CommandStatus::Done)
    }
}

struct CriticalHandler;

impl Handler for CriticalHandler {
    fn handle(&mut self, _args: &Vec<String>) -> Result<CommandStatus, HandlerError> {
        Err(HandlerError::Critical(CriticalError::Critical("example error".to_string())))
    }
}

fn strings(items: &[&str]) -> Vec<String> {
    items.iter().map(|s| s.to_string()).collect()
}

fn unnamed(tags: &[TypeTag]) -> Vec<ArgInfo> {
    tags.iter().map(|t| ArgInfo { name: None, tag: *t }).collect()
}

#[test]
fn manual_command() {
    let mut cmd = Command::new("Test command", vec![], DoneHandler);
    match cmd.run(&vec![]) {
        Ok(CommandStatus::Done) => {}
        _ => panic!("Wrong variant"),
    };
}

#[test]
fn validator_no_args() {
    let tags: Vec<TypeTag> = vec![];
    assert!(validate_args(&tags, &strings(&[])).is_ok());
    assert!(validate_args(&tags, &strings(&["hello"])).is_err());
}

#[test]
fn validator_one_arg() {
    let tags = vec![TypeTag::I32];
    assert!(validate_args(&tags, &strings(&[])).is_err());
    assert!(validate_args(&tags, &strings(&["hello"])).is_err());
    assert!(validate_args(&tags, &strings(&["13"])).is_ok());
}

#[test]
fn validator_multiple_args() {
    let tags = vec![TypeTag::I32, TypeTag::F32, TypeTag::Str];
    assert!(validate_args(&tags, &strings(&[])).is_err());
    assert!(validate_args(&tags, &strings(&["1", "2.1", "hello"])).is_ok());
    assert!(validate_args(&tags, &strings(&["1.2", "2.1", "hello"])).is_err());
    assert!(validate_args(&tags, &strings(&["1", "a", "hello"])).is_err());
    assert!(validate_args(&tags, &strings(&["1", "2.1", "hello", "world"])).is_err());
}

#[test]
fn command_auto_no_args() {
    let mut cmd = Command::new("Example cmd", vec![], DoneHandler);
    match cmd.run(&strings(&[])) {
        Ok(CommandStatus::Done) => {}
        Ok(v) => panic!("Wrong variant: {:?}", v),
        Err(e) => panic!("Error: {:?}", e),
    };
}

#[test]
fn command_auto_with_args() {
    let mut cmd = Command::new("Example cmd", unnamed(&[TypeTag::I32, TypeTag::F32]), DoneHandler);
    match cmd.run(&strings(&["13", "1.1"])) {
        Ok(CommandStatus::Done) => {}
        Ok(v) => panic!("Wrong variant: {:?}", v),
        Err(e) => panic!("Error: {:?}", e),
    };
}

#[test]
fn command_auto_with_critical() {
    let mut cmd = Command::new(
        "Example cmd",
        unnamed(&[TypeTag::I32, TypeTag::F32]),
        CriticalHandler,
    );
    match cmd.run(&strings(&["13", "1.1"])) {
        Ok(v) => panic!("Wrong variant: {:?}", v),
        Err(e) => {
            if !matches!(e, CommandError::Critical(_)) {
                panic!("Wrong error: {:?}", e)
            }
        }
    };
}

#[test]
fn command_auto_args_info() {
    let cmd = Command::new(
        "Example cmd",
        unnamed(&[TypeTag::I32, TypeTag::Str, TypeTag::F32]),
        DoneHandler,
    );
    assert_eq!(cmd.args_info, &[":i32", ":String", ":f32"]);
    let cmd = Command::new("Example cmd", unnamed(&[TypeTag::I32, TypeTag::F32]), DoneHandler);
    assert_eq!(cmd.args_info, &[":i32", ":f32"]);
    let cmd = Command::new("Example cmd", unnamed(&[TypeTag::F32]), DoneHandler);
    assert_eq!(cmd.args_info, &[":f32"]);
    let cmd = Command::new("Example cmd", vec![], DoneHandler);
    let res: &[&str] = &[];
    assert_eq!(cmd.args_info, res);
}

#[test]
fn command_auto_args_info_with_names() {
    let cmd = Command::new(
        "Example cmd",
        vec![
            ArgInfo { name: Some("number".to_string()), tag: TypeTag::I32 },
            ArgInfo { name: Some("name".to_string()), tag: TypeTag::Str },
            ArgInfo { name: None, tag: TypeTag::F32 },
        ],
        DoneHandler,
    );
    assert_eq!(cmd.args_info, &["number:i32", "name:String", ":f32"]);
}

// --- arity is reported before any value error ---

#[test]
fn arity_error_before_value_error() {
    // both values are unparsable, but the arity is wrong: the arity error
    // is reported, no value is examined
    let tags = vec![TypeTag::I32];
    match validate_args(&tags, &strings(&["x", "y"])) {
        Err(ArgsError::WrongNumberOfArguments { got, expected }) => {
            assert_eq!(got, 2);
            assert_eq!(expected, 1);
        }
        other => panic!("expected arity error, got {:?}", other),
    }
}

#[test]
fn first_failing_position_reported() {
    // both positions fail; only the first is reported
    let tags = vec![TypeTag::I32, TypeTag::I32];
    match validate_args(&tags, &strings(&["a", "b"])) {
        Err(ArgsError::WrongArgumentValue { position, argument, .. }) => {
            assert_eq!(position, 0);
            assert_eq!(argument, "a");
        }
        other => panic!("expected value error, got {:?}", other),
    }
    // first position fine, second fails: the second is reported
    match validate_args(&tags, &strings(&["7", "b"])) {
        Err(ArgsError::WrongArgumentValue { position, argument, .. }) => {
            assert_eq!(position, 1);
            assert_eq!(argument, "b");
        }
        other => panic!("expected value error, got {:?}", other),
    }
}

#[test]
fn args_error_messages() {
    let e = ArgsError::WrongNumberOfArguments { got: 12, expected: 3 };
    assert_eq!(e.message(), "wrong number of arguments: got 12, expected 3");
    let e = ArgsError::WrongArgumentValue {
        position: 0,
        argument: "abc".to_string(),
        error: "invalid i32 literal".to_string(),
    };
    assert_eq!(
        e.message(),
        "failed to parse argument value 'abc': invalid i32 literal"
    );
}

#[test]
fn i32_values_parse_exactly() {
    assert_eq!(easy_repl::parse::parse_i32("13"), Some(13));
    assert_eq!(easy_repl::parse::parse_i32("-7"), Some(-7));
    assert_eq!(easy_repl::parse::parse_i32("+7"), Some(7));
    assert_eq!(easy_repl::parse::parse_i32("007"), Some(7));
    assert_eq!(easy_repl::parse::parse_i32("2147483647"), Some(2147483647));
    assert_eq!(easy_repl::parse::parse_i32("-2147483648"), Some(-2147483648));
    assert_eq!(easy_repl::parse::parse_i32("2147483648"), None);
    assert_eq!(easy_repl::parse::parse_i32("-2147483649"), None);
    assert_eq!(easy_repl::parse::parse_i32(""), None);
    assert_eq!(easy_repl::parse::parse_i32("+"), None);
    assert_eq!(easy_repl::parse::parse_i32("1.2"), None);
    assert_eq!(easy_repl::parse::parse_i32("12a"), None);
    // matches the standard library parser on the same inputs
    for s in ["13", "-7", "+7", "007", "2147483648", "-2147483649", "", "+", "1.2", "12a"] {
        assert_eq!(easy_repl::parse::parse_i32(s), s.parse::<i32>().ok());
    }
}

#[test]
fn f32_literal_forms() {
    for ok in ["2.1", "1.", ".5", "3", "1e5", "1E-5", "2.5e+3", "inf", "Infinity", "NaN", "-1.5",
        "+inf"] {
        assert!(easy_repl::parse::is_f32_text(ok), "expected well-formed: {}", ok);
        assert!(ok.parse::<f32>().is_ok());
    }
    for bad in [".", "", "1e", "1e+", "a", "0x1", "1.2.3", "--1", "1 "] {
        assert!(!easy_repl::parse::is_f32_text(bad), "expected malformed: {}", bad);
        assert!(bad.parse::<f32>().is_err());
    }
}

#[test]
fn into_critical_wraps_errors() {
    let result: Result<(), String> = Err("boom".to_string());
    let critical = result.into_critical();
    assert!(matches!(critical, Err(CriticalError::Critical(_))));
    let fine: Result<i32, String> = Ok(3);
    assert!(matches!(fine.into_critical(), Ok(3)));
}

#[test]
fn validate_and_parse_produces_typed_values() {
    let tags = vec![TypeTag::I32, TypeTag::F32, TypeTag::Str];
    let parsed = validate_and_parse(&tags, &strings(&["-12", "2.5", "hello"])).unwrap();
    assert_eq!(parsed.len(), 3);
    assert!(matches!(parsed[0], ArgValue::Int(-12)));
    match &parsed[1] {
        ArgValue::Float(f) => {
            assert_eq!(f, "2.5");
            assert_eq!(f.parse::<f32>().unwrap(), 2.5f32);
        }
        other => panic!("expected a float value, got {:?}", other),
    }
    match &parsed[2] {
        ArgValue::Text(t) => assert_eq!(t, "hello"),
        other => panic!("expected a text value, got {:?}", other),
    }
    // the same checks as the validator: the arity first, then positions
    assert!(matches!(
        validate_and_parse(&tags, &strings(&["1"])),
        Err(ArgsError::WrongNumberOfArguments { got: 1, expected: 3 })
    ));
    assert!(matches!(
        validate_and_parse(&tags, &strings(&["x", "2.5", "h"])),
        Err(ArgsError::WrongArgumentValue { .. })
    ));
}
