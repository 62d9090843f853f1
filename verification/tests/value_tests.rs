use foxash::ast::{BinaryOperator, UnaryOperator};
use foxash::runtime::{
    condition_holds, evaluate_not, index_list, logical_left, logical_right, require_number,
    save_path, unary_operand, value_to_json, Environment,
};
use foxash::value::{copy_value, Value};

fn text(s: &str) -> Value<i64> {
    Value::Text(s.to_string())
}

fn message<T: std::fmt::Debug>(r: Result<T, foxash::runtime::RuntimeError>) -> String {
    r.unwrap_err().message
}

#[test]
fn a_copy_equals_the_value_it_was_made_from() {
    let value = Value::List(vec![
        text("sword"),
        Value::Number(3),
        Value::List(vec![Value::Boolean(true), Value::Nothing]),
    ]);
    assert_eq!(copy_value(&value), value);
}

#[test]
fn adding_to_a_list_appends_at_its_end() {
    let mut env: Environment<Value<i64>> = Environment::new();
    env.define_variable("storage", Value::List(vec![text("sword")]));
    env.add_to_list("storage", text("shield")).unwrap();
    env.add_to_list("storage", text("potion")).unwrap();
    assert_eq!(
        env.get_variable("storage"),
        Some(&Value::List(vec![text("sword"), text("shield"), text("potion")]))
    );
}

#[test]
fn adding_to_an_empty_list() {
    let mut env: Environment<Value<i64>> = Environment::new();
    env.define_variable("inventory", Value::List(vec![]));
    env.define_variable("item_name", text("torch"));
    env.add_to_list("inventory", text("torch")).unwrap();
    env.add_to_list("inventory", text("map")).unwrap();
    assert_eq!(
        env.get_variable("inventory"),
        Some(&Value::List(vec![text("torch"), text("map")]))
    );
    assert_eq!(env.get_variable("item_name"), Some(&text("torch")));
}

#[test]
fn adding_inside_a_call_changes_the_callers_list() {
    let mut env: Environment<Value<i64>> = Environment::new();
    env.define_variable("items", Value::List(vec![Value::Number(1)]));
    env.push_scope();
    env.add_to_list("items", Value::Number(2)).unwrap();
    env.pop_scope();
    assert_eq!(
        env.get_variable("items"),
        Some(&Value::List(vec![Value::Number(1), Value::Number(2)]))
    );
}

#[test]
fn adding_needs_an_existing_list() {
    let mut env: Environment<Value<i64>> = Environment::new();
    assert_eq!(
        message(env.add_to_list("storage", Value::Number(1))),
        "Variable 'storage' has not been defined"
    );
    env.define_variable("storage", text("box"));
    assert_eq!(
        message(env.add_to_list("storage", Value::Number(1))),
        "Variable 'storage' is not a list"
    );
    assert_eq!(env.get_variable("storage"), Some(&text("box")));
}

#[test]
fn when_runs_one_branch() {
    assert_eq!(condition_holds(&Value::<i64>::Boolean(true)).unwrap(), true);
    assert_eq!(condition_holds(&Value::<i64>::Boolean(false)).unwrap(), false);
    assert_eq!(
        message(condition_holds(&Value::<i64>::Number(1))),
        "When condition must be boolean"
    );
}

#[test]
fn and_or_decide_early() {
    let t = Value::<i64>::Boolean(true);
    let f = Value::<i64>::Boolean(false);
    assert_eq!(logical_left(BinaryOperator::And, &f).unwrap(), Some(false));
    assert_eq!(logical_left(BinaryOperator::And, &t).unwrap(), None);
    assert_eq!(logical_left(BinaryOperator::Or, &t).unwrap(), Some(true));
    assert_eq!(logical_left(BinaryOperator::Or, &f).unwrap(), None);
    assert_eq!(logical_right(BinaryOperator::And, &t).unwrap(), true);
    assert_eq!(logical_right(BinaryOperator::Or, &f).unwrap(), false);
}

#[test]
fn and_or_need_booleans() {
    let n = Value::<i64>::Number(1);
    assert_eq!(message(logical_left(BinaryOperator::And, &n)), "Left side of 'and' must be boolean");
    assert_eq!(message(logical_left(BinaryOperator::Or, &n)), "Left side of 'or' must be boolean");
    assert_eq!(message(logical_right(BinaryOperator::And, &n)), "Right side of 'and' must be boolean");
    assert_eq!(message(logical_right(BinaryOperator::Or, &n)), "Right side of 'or' must be boolean");
}

#[test]
fn logical_operators_on_booleans() {
    for a in [false, true] {
        for b in [false, true] {
            let left = Value::<i64>::Boolean(a);
            let right = Value::<i64>::Boolean(b);
            for (operator, expected) in [(BinaryOperator::And, a && b), (BinaryOperator::Or, a || b)] {
                let result = match logical_left(operator, &left).unwrap() {
                    Some(result) => result,
                    None => logical_right(operator, &right).unwrap(),
                };
                assert_eq!(result, expected);
            }
        }
    }
}

#[test]
fn not_reverses_a_boolean() {
    assert_eq!(evaluate_not(&Value::<i64>::Boolean(true)).unwrap(), Value::Boolean(false));
    assert_eq!(evaluate_not(&Value::<i64>::Boolean(false)).unwrap(), Value::Boolean(true));
    assert_eq!(message(evaluate_not(&text("finished"))), "Operator 'not' requires a boolean");
}

#[test]
fn unary_signs_need_numbers() {
    assert_eq!(unary_operand(UnaryOperator::Negate, &Value::<i64>::Number(4)).unwrap(), 4);
    assert_eq!(message(unary_operand(UnaryOperator::Negate, &text("x"))), "Unary '-' requires a number");
    assert_eq!(message(unary_operand(UnaryOperator::Positive, &text("x"))), "Unary '+' requires a number");
}

#[test]
fn arithmetic_needs_numbers() {
    assert_eq!(require_number(&Value::<i64>::Number(10)).unwrap(), 10);
    assert_eq!(message(require_number(&Value::<i64>::Nothing)), "This operation requires numbers");
}

#[test]
fn indexing_counts_from_one() {
    let names = Value::<i64>::List(vec![text("Ash"), text("Ember"), text("Flame")]);
    assert_eq!(index_list(&names, 1).unwrap(), text("Ash"));
    assert_eq!(index_list(&names, 2).unwrap(), text("Ember"));
    assert_eq!(index_list(&names, 3).unwrap(), text("Flame"));
    assert_eq!(message(index_list(&names, 4)), "List index 4 is out of bounds");
    assert_eq!(message(index_list(&text("Ash"), 1)), "Only lists can be indexed");
}

#[test]
fn save_needs_a_text_path() {
    assert_eq!(save_path(text("file_name.json")).unwrap(), "file_name.json");
    assert_eq!(message(save_path(Value::<i64>::Number(3))), "Save path must be text");
}

#[test]
fn arguments_are_passed_in_order() {
    let mut env: Environment<Value<i64>> = Environment::new();
    env.define_variable("name", text("outer"));
    let parameters = vec!["name".to_string(), "role".to_string()];
    env.enter_call(&parameters, vec![text("Ash"), text("wanderer")]);
    assert_eq!(env.depth(), 2);
    assert_eq!(env.get_variable("name"), Some(&text("Ash")));
    assert_eq!(env.get_variable("role"), Some(&text("wanderer")));
    env.pop_scope();
    assert_eq!(env.get_variable("name"), Some(&text("outer")));
    assert_eq!(env.get_variable("role"), None);
}

#[test]
fn a_repeated_parameter_takes_the_later_argument() {
    let mut env: Environment<i32> = Environment::new();
    let parameters = vec!["x".to_string(), "x".to_string()];
    env.enter_call(&parameters, vec![1, 2]);
    assert_eq!(env.get_variable("x"), Some(&2));
}

fn written(s: &str) -> Value<String> {
    Value::Text(s.to_string())
}

#[test]
fn values_are_shown_as_write_prints_them() {
    assert_eq!(written("Hello, Flame!").display(), "Hello, Flame!");
    assert_eq!(Value::<String>::Number("90".to_string()).display(), "90");
    assert_eq!(Value::<String>::Boolean(true).display(), "true");
    assert_eq!(Value::<String>::Nothing.display(), "nothing");
    let inventory = Value::List(vec![written("sword"), written("potion"), written("map")]);
    assert_eq!(inventory.display(), "[sword, potion, map]");
    assert_eq!(Value::<String>::List(vec![]).display(), "[]");
    let nested = Value::List(vec![
        written("Ash"),
        Value::Number("100".to_string()),
        Value::List(vec![Value::Boolean(false)]),
    ]);
    assert_eq!(nested.display(), "[Ash, 100, [false]]");
}

#[test]
fn values_are_written_as_json() {
    assert_eq!(value_to_json(&written("say \"hi\"\n")), "\"say \\\"hi\\\"\\n\"");
    assert_eq!(value_to_json(&Value::<String>::Number("1.5".to_string())), "1.5");
    assert_eq!(value_to_json(&Value::<String>::Boolean(false)), "false");
    assert_eq!(value_to_json(&Value::<String>::Nothing), "null");
    let list = Value::List(vec![written("sword"), Value::Number("3".to_string()), Value::Nothing]);
    assert_eq!(value_to_json(&list), "[\"sword\", 3, null]");
    assert_eq!(value_to_json(&Value::<String>::List(vec![])), "[]");
}

// A reader for the JSON that `value_to_json` writes.
fn read_json(s: &[char], p: &mut usize) -> Value<String> {
    match s[*p] {
        '"' => {
            *p += 1;
            let mut text = String::new();
            loop {
                let c = s[*p];
                *p += 1;
                match c {
                    '"' => return Value::Text(text),
                    '\\' => {
                        let e = s[*p];
                        *p += 1;
                        text.push(match e {
                            'n' => '\n',
                            'r' => '\r',
                            't' => '\t',
                            other => other,
                        });
                    }
                    other => text.push(other),
                }
            }
        }
        '[' => {
            *p += 1;
            let mut items = Vec::new();
            if s[*p] == ']' {
                *p += 1;
                return Value::List(items);
            }
            loop {
                items.push(read_json(s, p));
                if s[*p] == ']' {
                    *p += 1;
                    return Value::List(items);
                }
                assert_eq!((s[*p], s[*p + 1]), (',', ' '));
                *p += 2;
            }
        }
        't' => {
            *p += 4;
            Value::Boolean(true)
        }
        'f' => {
            *p += 5;
            Value::Boolean(false)
        }
        'n' => {
            *p += 4;
            Value::Nothing
        }
        _ => {
            let start = *p;
            while *p < s.len() && "0123456789-+.eE".contains(s[*p]) {
                *p += 1;
            }
            Value::Number(s[start..*p].iter().collect())
        }
    }
}

#[test]
fn json_reads_back_as_the_value() {
    let value = Value::List(vec![
        written("a\"b\\c\nd\te\r"),
        Value::Number("-2.5".to_string()),
        Value::List(vec![]),
        Value::List(vec![Value::Boolean(true), Value::Boolean(false), Value::Nothing]),
        written(", ]"),
    ]);
    let json: Vec<char> = value_to_json(&value).chars().collect();
    let mut p = 0;
    assert_eq!(read_json(&json, &mut p), value);
    assert_eq!(p, json.len());
}
