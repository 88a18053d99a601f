use intent_core::descriptor::{Action, ActionArg, ArgType};
use intent_core::invocation::{check_type, parse_bool, time_exec, validate_args, ValidationFailure};

fn action(args: Vec<(&str, ArgType, bool)>) -> Action {
    Action {
        name: "test".into(),
        title: None,
        args: args
            .into_iter()
            .map(|(n, t, r)| ActionArg { name: n.to_string(), arg_type: t, required: r })
            .collect(),
    }
}

#[test]
fn validate_ok_all_types() {
    let act = action(vec![
        ("s", ArgType::String, true),
        ("n", ArgType::Number, true),
        ("b", ArgType::Boolean, true),
    ]);
    let incoming = vec![
        ("s".to_string(), "hello".to_string()),
        ("n".to_string(), "3.14".to_string()),
        ("b".to_string(), "yes".to_string()),
    ];
    assert!(validate_args(&act, &incoming).is_ok());
}

#[test]
fn validate_missing_and_type_errors() {
    let act = action(vec![
        ("s", ArgType::String, true),
        ("n", ArgType::Number, true),
        ("b", ArgType::Boolean, false),
    ]);
    let incoming = vec![
        ("s".to_string(), "hello".to_string()),
        ("n".to_string(), "abc".to_string()),
        ("b".to_string(), "wat".to_string()),
    ];
    let err = validate_args(&act, &incoming).unwrap_err();
    match err {
        ValidationFailure::Invalid(list) => {
            assert_eq!(list.len(), 1);
            assert_eq!(list[0].name, "n");
        }
    }
}

#[test]
fn boolean_variants() {
    let act = action(vec![("b", ArgType::Boolean, true)]);
    for (raw, expect) in [
        ("true", true),
        ("1", true),
        ("on", true),
        ("yes", true),
        ("false", false),
        ("0", false),
        ("off", false),
        ("no", false),
    ] {
        let m = vec![("b".to_string(), raw.to_string())];
        assert!(validate_args(&act, &m).is_ok(), "{raw} should parse");
        assert_eq!(parse_bool(raw).unwrap(), expect);
    }
}

#[test]
fn time_exec_measures() {
    let (_res, d) = time_exec(|| {
        let mut s = 0u64;
        for i in 0..1000 {
            s += i;
        }
        s
    });
    assert!(d < 60_000);
}

#[test]
fn missing_required_argument_is_reported() {
    let act = action(vec![("s", ArgType::String, true)]);
    let err = validate_args(&act, &vec![]).unwrap_err();
    match err {
        ValidationFailure::Invalid(list) => {
            assert_eq!(list.len(), 1);
            assert_eq!(list[0].name, "s");
        }
    }
}

#[test]
fn number_grammar_cases() {
    assert!(check_type(&ArgType::Number, "3.14").is_ok());
    assert!(check_type(&ArgType::Number, "-2").is_ok());
    assert!(check_type(&ArgType::Number, "+10").is_ok());
    assert!(check_type(&ArgType::Number, "1e5").is_ok());
    assert!(check_type(&ArgType::Number, "2.5E-3").is_ok());
    assert!(check_type(&ArgType::Number, ".5").is_ok());
    assert!(check_type(&ArgType::Number, "5.").is_ok());
    assert!(check_type(&ArgType::Number, "inf").is_ok());
    assert!(check_type(&ArgType::Number, "-Infinity").is_ok());
    assert!(check_type(&ArgType::Number, "NaN").is_ok());
    assert!(check_type(&ArgType::Number, "abc").is_err());
    assert!(check_type(&ArgType::Number, "").is_err());
    assert!(check_type(&ArgType::Number, ".").is_err());
    assert!(check_type(&ArgType::Number, "1e").is_err());
    assert!(check_type(&ArgType::Number, "1.2.3").is_err());
    assert!(check_type(&ArgType::String, "anything").is_ok());
}
