use foxash::runtime::{
    check_arity, decimal, escape_json, finish_call, finish_program, list_item, loop_step,
    not_a_list, parse_boolean_input, random_in_range, trim_line_end, undefined_function,
    undefined_variable, ControlFlow, Environment, LoopStep, RuntimeError,
};
use foxash::runtime::{builtin, check_builtin_arguments, Builtin, FunctionTable};

fn failure(message: &str) -> RuntimeError {
    RuntimeError {
        message: message.to_string(),
    }
}

#[test]
fn define_then_read() {
    let mut env: Environment<i32> = Environment::new();
    assert_eq!(env.get_variable("health"), None);
    env.define_variable("health", 100);
    env.define_variable("gold", 5);
    assert_eq!(env.get_variable("health"), Some(&100));
    assert_eq!(env.get_variable("gold"), Some(&5));
    env.define_variable("health", 90);
    assert_eq!(env.get_variable("health"), Some(&90));
}

#[test]
fn assignment_needs_a_defined_variable() {
    let mut env: Environment<i32> = Environment::new();
    assert!(!env.assign_variable("health", 1));
    assert_eq!(env.get_variable("health"), None);
    env.define_variable("health", 100);
    assert!(env.assign_variable("health", 90));
    assert_eq!(env.get_variable("health"), Some(&90));
}

#[test]
fn call_scopes_shadow_and_are_dropped() {
    let mut env: Environment<i32> = Environment::new();
    env.define_variable("value", 1);
    env.push_scope();
    assert_eq!(env.depth(), 2);
    env.define_variable("value", 2);
    env.define_variable("local", 3);
    assert_eq!(env.get_variable("value"), Some(&2));
    env.pop_scope();
    assert_eq!(env.depth(), 1);
    assert_eq!(env.get_variable("value"), Some(&1));
    assert_eq!(env.get_variable("local"), None);
}

#[test]
fn assignment_inside_a_call_reaches_the_caller() {
    let mut env: Environment<i32> = Environment::new();
    env.define_variable("health", 20);
    env.push_scope();
    env.define_variable("amount", 10);
    assert!(env.assign_variable("health", 30));
    env.pop_scope();
    assert_eq!(env.get_variable("health"), Some(&30));
}

#[test]
fn named_loop_steps() {
    let ok: Result<(), ControlFlow<i32>> = Ok(());
    assert!(matches!(loop_step("game", ok), LoopStep::Repeat));
    assert!(matches!(
        loop_step::<i32>("game", Err(ControlFlow::Restart("game".to_string()))),
        LoopStep::Repeat
    ));
    assert!(matches!(
        loop_step::<i32>("game", Err(ControlFlow::End("game".to_string()))),
        LoopStep::Finish
    ));
    match loop_step::<i32>("game", Err(ControlFlow::End("question".to_string()))) {
        LoopStep::Propagate(ControlFlow::End(name)) => assert_eq!(name, "question"),
        _ => panic!("another loop's end must go on"),
    }
    match loop_step::<i32>("game", Err(ControlFlow::Restart("outer".to_string()))) {
        LoopStep::Propagate(ControlFlow::Restart(name)) => assert_eq!(name, "outer"),
        _ => panic!("another loop's restart must go on"),
    }
    match loop_step("game", Err(ControlFlow::Return(7))) {
        LoopStep::Propagate(ControlFlow::Return(value)) => assert_eq!(value, 7),
        _ => panic!("a give must go on"),
    }
    match loop_step::<i32>("game", Err(ControlFlow::Runtime(failure("boom")))) {
        LoopStep::Propagate(ControlFlow::Runtime(error)) => assert_eq!(error.message, "boom"),
        _ => panic!("an error must go on"),
    }
}

#[test]
fn program_results() {
    assert!(finish_program::<i32>(Ok(())).is_ok());
    assert_eq!(
        finish_program::<i32>(Err(ControlFlow::Runtime(failure("boom")))).unwrap_err().message,
        "boom"
    );
    assert_eq!(
        finish_program(Err(ControlFlow::Return(1))).unwrap_err().message,
        "'give' can only be used inside a function"
    );
    assert_eq!(
        finish_program::<i32>(Err(ControlFlow::Restart("q".to_string()))).unwrap_err().message,
        "Cannot restart 'q' outside a loop"
    );
    assert_eq!(
        finish_program::<i32>(Err(ControlFlow::End("q".to_string()))).unwrap_err().message,
        "Cannot end 'q' outside a loop"
    );
}

#[test]
fn call_results() {
    assert_eq!(finish_call::<i32>(Ok(())).unwrap(), None);
    assert_eq!(finish_call(Err(ControlFlow::Return(10))).unwrap(), Some(10));
    assert_eq!(
        finish_call::<i32>(Err(ControlFlow::Runtime(failure("boom")))).unwrap_err().message,
        "boom"
    );
    assert_eq!(
        finish_call::<i32>(Err(ControlFlow::Restart("q".to_string()))).unwrap_err().message,
        "Cannot restart 'q' from inside a function"
    );
    assert_eq!(
        finish_call::<i32>(Err(ControlFlow::End("q".to_string()))).unwrap_err().message,
        "Cannot end 'q' from inside a function"
    );
}

#[test]
fn control_flow_from_an_error() {
    let flow: ControlFlow<i32> = failure("boom").into();
    assert!(matches!(flow, ControlFlow::Runtime(error) if error.message == "boom"));
}

#[test]
fn arity_check() {
    assert!(check_arity("add", 2, 2).is_ok());
    assert_eq!(
        check_arity("add", 2, 3).unwrap_err().message,
        "Function 'add' expects 2 argument(s), but received 3"
    );
    assert_eq!(
        check_arity("f", 0, 12).unwrap_err().message,
        "Function 'f' expects 0 argument(s), but received 12"
    );
}

#[test]
fn lists_are_one_indexed() {
    let names = vec!["Ash", "Ember", "Flame"];
    assert_eq!(list_item(&names, 1).unwrap(), &"Ash");
    assert_eq!(list_item(&names, 2).unwrap(), &"Ember");
    assert_eq!(list_item(&names, 3).unwrap(), &"Flame");
    assert_eq!(list_item(&names, 4).unwrap_err().message, "List index 4 is out of bounds");
    let empty: Vec<i32> = vec![];
    assert_eq!(list_item(&empty, 1).unwrap_err().message, "List index 1 is out of bounds");
}

#[test]
fn random_numbers_stay_within_inclusive_limits() {
    for _ in 0..200 {
        let roll = random_in_range(1, 6).unwrap();
        assert!((1..=6).contains(&roll));
    }
    assert_eq!(random_in_range(4, 4).unwrap(), 4);
    assert_eq!(random_in_range(-3, -3).unwrap(), -3);
    let full = random_in_range(i64::MIN, i64::MAX);
    assert!(full.is_ok());
    assert_eq!(
        random_in_range(10, 1).unwrap_err().message,
        "random() minimum cannot be greater than maximum"
    );
}

#[test]
fn json_escaping() {
    assert_eq!(escape_json("plain"), "plain");
    assert_eq!(escape_json("a\"b\\c\nd\re\tf"), "a\\\"b\\\\c\\nd\\re\\tf");
    assert_eq!(escape_json(""), "");
}

#[test]
fn line_endings_are_trimmed() {
    assert_eq!(trim_line_end("yes\r\n"), "yes");
    assert_eq!(trim_line_end("yes\n\n"), "yes");
    assert_eq!(trim_line_end("  yes "), "  yes ");
    assert_eq!(trim_line_end("\r\n"), "");
}

#[test]
fn boolean_answers() {
    for word in ["true", "True", "TRUE"] {
        assert!(parse_boolean_input(word).unwrap());
    }
    for word in ["false", "False", "FALSE"] {
        assert!(!parse_boolean_input(word).unwrap());
    }
    assert_eq!(
        parse_boolean_input("yes").unwrap_err().message,
        "'yes' is not a valid boolean"
    );
}

#[test]
fn decimal_numbers() {
    assert_eq!(decimal(0), "0");
    assert_eq!(decimal(7), "7");
    assert_eq!(decimal(1024), "1024");
    assert_eq!(decimal(usize::MAX), usize::MAX.to_string());
}

#[test]
fn error_messages_name_the_variable_or_function() {
    assert_eq!(undefined_variable("gold").message, "Variable 'gold' has not been defined");
    assert_eq!(not_a_list("gold").message, "Variable 'gold' is not a list");
    assert_eq!(undefined_function("heal").message, "Function 'heal' has not been defined");
}

#[test]
fn functions_are_found_by_name() {
    let mut table: FunctionTable<u32> = FunctionTable::new();
    assert_eq!(
        table.lookup("greet").unwrap_err().message,
        "Function 'greet' has not been defined"
    );
    table.define("greet", 1);
    table.define("heal", 2);
    assert_eq!(table.lookup("greet").unwrap(), &1);
    assert_eq!(table.lookup("heal").unwrap(), &2);
    table.define("greet", 3);
    assert_eq!(table.lookup("greet").unwrap(), &3);
}

#[test]
fn wait_and_random_are_built_in() {
    assert!(matches!(builtin("wait"), Some(Builtin::Wait)));
    assert!(matches!(builtin("random"), Some(Builtin::Random)));
    assert!(builtin("greet").is_none());
    assert!(builtin("Wait").is_none());
    assert!(check_builtin_arguments(&Builtin::Wait, 1).is_ok());
    assert_eq!(
        check_builtin_arguments(&Builtin::Wait, 2).unwrap_err().message,
        "wait() expects exactly one argument"
    );
    assert!(check_builtin_arguments(&Builtin::Random, 2).is_ok());
    assert_eq!(
        check_builtin_arguments(&Builtin::Random, 1).unwrap_err().message,
        "random() expects exactly two arguments"
    );
}
