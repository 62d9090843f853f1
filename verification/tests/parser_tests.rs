use foxash::ast::{BinaryOperator, Expr, Literal, Statement, TypeName, UnaryOperator};
use foxash::lexer::Lexer;
use foxash::parser::Parser;

fn parse(source: &str) -> Vec<Statement> {
    let tokens = Lexer::new(source).tokenize().expect("the source should lex");
    Parser::new(tokens).parse().expect("the source should parse")
}

fn parse_error(source: &str) -> (String, usize, usize) {
    let tokens = Lexer::new(source).tokenize().expect("the source should lex");
    let error = Parser::new(tokens).parse().expect_err("the source should not parse");
    (error.message, error.line, error.column)
}

fn number(text: &str) -> Expr {
    Expr::Literal(Literal::Number(text.to_string()))
}

fn text(value: &str) -> Expr {
    Expr::Literal(Literal::String(value.to_string()))
}

fn variable(name: &str) -> Expr {
    Expr::Variable(name.to_string())
}

fn binary(left: Expr, operator: BinaryOperator, right: Expr) -> Expr {
    Expr::Binary {
        left: Box::new(left),
        operator,
        right: Box::new(right),
    }
}

fn write(expression: Expr) -> Statement {
    Statement::Write(expression)
}

#[test]
fn multiplication_binds_tighter_than_addition() {
    assert_eq!(
        parse("define x = 1 + 2 * 3"),
        vec![Statement::Define {
            name: "x".to_string(),
            value: binary(
                number("1"),
                BinaryOperator::Add,
                binary(number("2"), BinaryOperator::Multiply, number("3"))
            ),
        }]
    );
}

#[test]
fn operators_of_one_level_associate_to_the_left() {
    assert_eq!(
        parse("a - b - c"),
        vec![Statement::Expression(binary(
            binary(variable("a"), BinaryOperator::Subtract, variable("b")),
            BinaryOperator::Subtract,
            variable("c")
        ))]
    );
    assert_eq!(
        parse("a / b % c"),
        vec![Statement::Expression(binary(
            binary(variable("a"), BinaryOperator::Divide, variable("b")),
            BinaryOperator::Modulo,
            variable("c")
        ))]
    );
}

#[test]
fn or_binds_loosest_then_and_then_comparison() {
    assert_eq!(
        parse("a or b and c == 1"),
        vec![Statement::Expression(binary(
            variable("a"),
            BinaryOperator::Or,
            binary(
                variable("b"),
                BinaryOperator::And,
                binary(variable("c"), BinaryOperator::Equal, number("1"))
            )
        ))]
    );
}

#[test]
fn every_comparison_operator() {
    let operators = [
        ("==", BinaryOperator::Equal),
        ("!=", BinaryOperator::NotEqual),
        (">", BinaryOperator::Greater),
        ("<", BinaryOperator::Less),
        (">=", BinaryOperator::GreaterEqual),
        ("<=", BinaryOperator::LessEqual),
    ];
    for (symbol, operator) in operators {
        assert_eq!(
            parse(&format!("x {} 1", symbol)),
            vec![Statement::Expression(binary(variable("x"), operator, number("1")))]
        );
    }
}

#[test]
fn prefix_operators_nest() {
    assert_eq!(
        parse("write(not -+x)"),
        vec![write(Expr::Unary {
            operator: UnaryOperator::Not,
            expression: Box::new(Expr::Unary {
                operator: UnaryOperator::Negate,
                expression: Box::new(Expr::Unary {
                    operator: UnaryOperator::Positive,
                    expression: Box::new(variable("x")),
                }),
            }),
        })]
    );
}

#[test]
fn parentheses_group() {
    assert_eq!(
        parse("write((1 + 2) * 3)"),
        vec![write(binary(
            binary(number("1"), BinaryOperator::Add, number("2")),
            BinaryOperator::Multiply,
            number("3")
        ))]
    );
}

#[test]
fn literals() {
    assert_eq!(
        parse("write(true)\nwrite(false)\nwrite(nothing)\nwrite(\"hi\")"),
        vec![
            write(Expr::Literal(Literal::Boolean(true))),
            write(Expr::Literal(Literal::Boolean(false))),
            write(Expr::Literal(Literal::Nothing)),
            write(text("hi")),
        ]
    );
}

#[test]
fn lists_allow_newlines_and_a_trailing_comma() {
    assert_eq!(
        parse("define xs = [\n  1,\n  2,\n]\ndefine empty = []"),
        vec![
            Statement::Define {
                name: "xs".to_string(),
                value: Expr::List(vec![number("1"), number("2")]),
            },
            Statement::Define {
                name: "empty".to_string(),
                value: Expr::List(vec![]),
            },
        ]
    );
}

#[test]
fn indexing_and_calls() {
    assert_eq!(
        parse("write(grid[1][2])\nf()\ng(1, x)"),
        vec![
            write(Expr::Index {
                collection: Box::new(Expr::Index {
                    collection: Box::new(variable("grid")),
                    index: Box::new(number("1")),
                }),
                index: Box::new(number("2")),
            }),
            Statement::Expression(Expr::Call {
                name: "f".to_string(),
                arguments: vec![],
            }),
            Statement::Expression(Expr::Call {
                name: "g".to_string(),
                arguments: vec![number("1"), variable("x")],
            }),
        ]
    );
}

#[test]
fn assignment_and_get() {
    assert_eq!(
        parse("health = health - 10; get name = \"Name? \"\nget age as number = \"Age? \""),
        vec![
            Statement::Assign {
                name: "health".to_string(),
                value: binary(variable("health"), BinaryOperator::Subtract, number("10")),
            },
            Statement::Get {
                name: "name".to_string(),
                input_type: TypeName::Text,
                prompt: text("Name? "),
            },
            Statement::Get {
                name: "age".to_string(),
                input_type: TypeName::Number,
                prompt: text("Age? "),
            },
        ]
    );
}

#[test]
fn when_with_colon_and_otherwise_block() {
    assert_eq!(
        parse("when x > 0: write(1)\notherwise {\n  write(2)\n}"),
        vec![Statement::When {
            condition: binary(variable("x"), BinaryOperator::Greater, number("0")),
            body: vec![write(number("1"))],
            otherwise: Some(vec![write(number("2"))]),
        }]
    );
    assert_eq!(
        parse("when ok { }"),
        vec![Statement::When {
            condition: variable("ok"),
            body: vec![],
            otherwise: None,
        }]
    );
}

#[test]
fn function_with_parameters_and_give() {
    assert_eq!(
        parse("function sum(first, second) {\n    give first + second\n}"),
        vec![Statement::Function {
            name: "sum".to_string(),
            parameters: vec!["first".to_string(), "second".to_string()],
            body: vec![Statement::Give(binary(variable("first"), BinaryOperator::Add, variable("second")))],
        }]
    );
    assert_eq!(
        parse("function f() { }"),
        vec![Statement::Function {
            name: "f".to_string(),
            parameters: vec![],
            body: vec![],
        }]
    );
}

#[test]
fn named_loop_with_restart_and_end() {
    assert_eq!(
        parse("loop question[\n    restart question\n    end question\n]"),
        vec![Statement::Loop {
            name: "question".to_string(),
            body: vec![
                Statement::Restart("question".to_string()),
                Statement::End("question".to_string()),
            ],
        }]
    );
}

#[test]
fn add_to_list_and_save() {
    assert_eq!(
        parse("add \"potion\" to inventory\nsave inventory to \"items.json\""),
        vec![
            Statement::AddToList {
                value: text("potion"),
                list: "inventory".to_string(),
            },
            Statement::Save {
                variable: "inventory".to_string(),
                path: text("items.json"),
            },
        ]
    );
}

#[test]
fn empty_program_and_separators_only() {
    assert_eq!(parse(""), vec![]);
    assert_eq!(parse("\n;\n"), vec![]);
}

#[test]
fn missing_closing_brace() {
    assert_eq!(
        parse_error("when x {\n write(1)\n"),
        ("Block is missing a closing '}'".to_string(), 3, 1)
    );
}

#[test]
fn missing_closing_bracket_of_a_loop() {
    assert_eq!(
        parse_error("loop game[\n write(1)"),
        ("Loop 'game' is missing a closing ']'".to_string(), 2, 10)
    );
}

#[test]
fn expected_token_messages_name_the_kinds() {
    assert_eq!(
        parse_error("define x 1"),
        ("Expected Equals, found Number(\"1\")".to_string(), 1, 10)
    );
    assert_eq!(
        parse_error("write(x"),
        ("Expected RightParen, found Eof".to_string(), 1, 8)
    );
    assert_eq!(
        parse_error("save x \"a\""),
        ("Expected To, found String(\"a\")".to_string(), 1, 8)
    );
}

#[test]
fn statement_errors() {
    assert_eq!(parse_error("42"), ("Expected a statement".to_string(), 1, 1));
    assert_eq!(parse_error("define = 1"), ("Expected a variable name".to_string(), 1, 8));
    assert_eq!(parse_error("x = 1 2"), ("Expected the end of the statement".to_string(), 1, 7));
    assert_eq!(
        parse_error("get x as list = \"?\""),
        ("Expected 'text', 'number', or 'boolean'".to_string(), 1, 10)
    );
    assert_eq!(parse_error("write()"), ("Expected an expression".to_string(), 1, 7));
    assert_eq!(
        parse_error("loop [ ]"),
        ("Expected a named loop identifier after 'loop'".to_string(), 1, 6)
    );
    assert_eq!(parse_error("function f(1) { }"), ("Expected a parameter name".to_string(), 1, 12));
}

#[test]
fn a_function_may_be_named_add() {
    assert_eq!(
        parse("function add(first, second) {\n    give first + second\n}\ndefine total = add(4, 6)\nwrite(total)"),
        vec![
            Statement::Function {
                name: "add".to_string(),
                parameters: vec!["first".to_string(), "second".to_string()],
                body: vec![Statement::Give(binary(variable("first"), BinaryOperator::Add, variable("second")))],
            },
            Statement::Define {
                name: "total".to_string(),
                value: Expr::Call {
                    name: "add".to_string(),
                    arguments: vec![number("4"), number("6")],
                },
            },
            write(variable("total")),
        ]
    );
    assert_eq!(
        parse("add add(1, 2) to totals"),
        vec![Statement::AddToList {
            value: Expr::Call {
                name: "add".to_string(),
                arguments: vec![number("1"), number("2")],
            },
            list: "totals".to_string(),
        }]
    );
}

#[test]
fn other_keywords_cannot_name_functions() {
    assert_eq!(
        parse_error("function write(value) { }"),
        ("Expected a function name".to_string(), 1, 10)
    );
    assert_eq!(parse_error("define x = add"), ("Expected an expression".to_string(), 1, 12));
}

#[test]
fn the_complete_example_program_parses() {
    let source = r#"define player_name = "Ash"
define health = 20
define gold = 5
define inventory = ["sword"]

function heal(amount) {
    health = health + amount
    give health
}

function show_status() {
    write("Player: " + player_name)
    write("Health: " + health)
    write("Gold: " + gold)
    write("Inventory: " + inventory)
}

add "potion" to inventory

define roll = random(1, 6)
write("Your roll: " + roll)

when roll >= 4 {
    write("Good roll.")
} otherwise {
    write("Bad roll.")
}

show_status()

loop adventure[
    get choice as text = "Choose: heal, status, or quit: "

    when choice == "heal" {
        when gold >= 2 {
            gold = gold - 2
            heal(10)
            write("You used 2 gold to heal.")
        } otherwise {
            write("You do not have enough gold.")
        }
    }

    when choice == "status" {
        show_status()
    }

    when choice == "quit" {
        write("The adventure ends.")
        end adventure
    } otherwise {
        when choice != "heal" and choice != "status" and choice != "quit" {
            write("That is not a valid choice.")
        }
    }
]

write("Thanks for playing.")
"#;
    let statements = parse(source);
    assert_eq!(statements.len(), 13);
    assert!(matches!(&statements[12], Statement::Write(_)));
    assert!(matches!(&statements[11], Statement::Loop { name, .. } if name == "adventure"));
}

#[test]
fn a_parser_holds_any_tokens() {
    let _empty = Parser::new(vec![]);
    let tokens = Lexer::new("write(1)").tokenize().unwrap();
    let mut parser = Parser::new(tokens);
    assert_eq!(parser.parse().unwrap(), vec![write(number("1"))]);
}
