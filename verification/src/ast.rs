use vstd::prelude::*;

verus! {

/// The type that a `get` statement converts its input to.
#[derive(Debug, Clone, Copy, PartialEq, Eq, Structural)]
pub enum TypeName {
    Text,
    Number,
    Boolean,
}

/// A literal value written in the source.
#[derive(Debug, Clone, PartialEq)]
pub enum Literal {
    String(String),
    Number(String),
    Boolean(bool),
    Nothing,
}

#[derive(Debug, Clone, Copy, PartialEq, Eq, Structural)]
pub enum BinaryOperator {
    Add,
    Subtract,
    Multiply,
    Divide,
    Modulo,
    Equal,
    NotEqual,
    Greater,
    Less,
    GreaterEqual,
    LessEqual,
    And,
    Or,
}

#[derive(Debug, Clone, Copy, PartialEq, Eq, Structural)]
pub enum UnaryOperator {
    Not,
    Negate,
    Positive,
}

#[derive(Debug, PartialEq)]
pub enum Expr {
    Literal(Literal),
    Variable(String),
    List(Vec<Expr>),
    Index { collection: Box<Expr>, index: Box<Expr> },
    Binary { left: Box<Expr>, operator: BinaryOperator, right: Box<Expr> },
    Unary { operator: UnaryOperator, expression: Box<Expr> },
    Call { name: String, arguments: Vec<Expr> },
}

#[derive(Debug, PartialEq)]
pub enum Statement {
    Define { name: String, value: Expr },
    Assign { name: String, value: Expr },
    Write(Expr),
    Get { name: String, input_type: TypeName, prompt: Expr },
    When { condition: Expr, body: Vec<Statement>, otherwise: Option<Vec<Statement>> },
    AddToList { value: Expr, list: String },
    Function { name: String, parameters: Vec<String>, body: Vec<Statement> },
    Give(Expr),
    Loop { name: String, body: Vec<Statement> },
    Save { variable: String, path: Expr },
    Restart(String),
    End(String),
    Expression(Expr),
}

impl View for TypeName {
    type V = TypeName;

    open spec fn view(&self) -> TypeName {
        *self
    }
}

/// A literal, with its text as a sequence of characters.
pub enum LiteralModel {
    String(Seq<char>),
    Number(Seq<char>),
    Boolean(bool),
    Nothing,
}

/// The mathematical form of an expression tree.
pub enum ExprModel {
    Literal(LiteralModel),
    Variable(Seq<char>),
    List(Seq<ExprModel>),
    Index { collection: Box<ExprModel>, index: Box<ExprModel> },
    Binary { left: Box<ExprModel>, operator: BinaryOperator, right: Box<ExprModel> },
    Unary { operator: UnaryOperator, expression: Box<ExprModel> },
    Call { name: Seq<char>, arguments: Seq<ExprModel> },
}

/// The mathematical form of a statement.
pub enum StatementModel {
    Define { name: Seq<char>, value: ExprModel },
    Assign { name: Seq<char>, value: ExprModel },
    Write(ExprModel),
    Get { name: Seq<char>, input_type: TypeName, prompt: ExprModel },
    When { condition: ExprModel, body: Seq<StatementModel>, otherwise: Option<Seq<StatementModel>> },
    AddToList { value: ExprModel, list: Seq<char> },
    Function { name: Seq<char>, parameters: Seq<Seq<char>>, body: Seq<StatementModel> },
    Give(ExprModel),
    Loop { name: Seq<char>, body: Seq<StatementModel> },
    Save { variable: Seq<char>, path: ExprModel },
    Restart(Seq<char>),
    End(Seq<char>),
    Expression(ExprModel),
}

impl View for Literal {
    type V = LiteralModel;

    open spec fn view(&self) -> LiteralModel {
        match self {
            Literal::String(s) => LiteralModel::String(s@),
            Literal::Number(s) => LiteralModel::Number(s@),
            Literal::Boolean(b) => LiteralModel::Boolean(*b),
            Literal::Nothing => LiteralModel::Nothing,
        }
    }
}

/// The model of an expression.
pub open spec fn expr_model(e: Expr) -> ExprModel
    decreases e,
{
    match e {
        Expr::Literal(l) => ExprModel::Literal(l@),
        Expr::Variable(n) => ExprModel::Variable(n@),
        Expr::List(items) => ExprModel::List(exprs_model(items@)),
        Expr::Index { collection, index } => ExprModel::Index {
            collection: Box::new(expr_model(*collection)),
            index: Box::new(expr_model(*index)),
        },
        Expr::Binary { left, operator, right } => ExprModel::Binary {
            left: Box::new(expr_model(*left)),
            operator,
            right: Box::new(expr_model(*right)),
        },
        Expr::Unary { operator, expression } => ExprModel::Unary {
            operator,
            expression: Box::new(expr_model(*expression)),
        },
        Expr::Call { name, arguments } => ExprModel::Call {
            name: name@,
            arguments: exprs_model(arguments@),
        },
    }
}

/// The models of a sequence of expressions, element by element.
pub open spec fn exprs_model(es: Seq<Expr>) -> Seq<ExprModel>
    decreases es,
{
    if es.len() == 0 {
        Seq::empty()
    } else {
        exprs_model(es.drop_last()).push(expr_model(es.last()))
    }
}

/// The model of a statement.
pub open spec fn statement_model(s: Statement) -> StatementModel
    decreases s,
{
    match s {
        Statement::Define { name, value } => StatementModel::Define { name: name@, value: value@ },
        Statement::Assign { name, value } => StatementModel::Assign { name: name@, value: value@ },
        Statement::Write(e) => StatementModel::Write(e@),
        Statement::Get { name, input_type, prompt } => StatementModel::Get {
            name: name@,
            input_type,
            prompt: prompt@,
        },
        Statement::When { condition, body, otherwise } => StatementModel::When {
            condition: condition@,
            body: statements_model(body@),
            otherwise: match otherwise {
                Some(o) => Some(statements_model(o@)),
                None => None,
            },
        },
        Statement::AddToList { value, list } => StatementModel::AddToList { value: value@, list: list@ },
        Statement::Function { name, parameters, body } => StatementModel::Function {
            name: name@,
            parameters: names_model(parameters@),
            body: statements_model(body@),
        },
        Statement::Give(e) => StatementModel::Give(e@),
        Statement::Loop { name, body } => StatementModel::Loop {
            name: name@,
            body: statements_model(body@),
        },
        Statement::Save { variable, path } => StatementModel::Save { variable: variable@, path: path@ },
        Statement::Restart(n) => StatementModel::Restart(n@),
        Statement::End(n) => StatementModel::End(n@),
        Statement::Expression(e) => StatementModel::Expression(e@),
    }
}

/// The models of a sequence of statements, element by element.
pub open spec fn statements_model(ss: Seq<Statement>) -> Seq<StatementModel>
    decreases ss,
{
    if ss.len() == 0 {
        Seq::empty()
    } else {
        statements_model(ss.drop_last()).push(statement_model(ss.last()))
    }
}

/// The character sequences of a sequence of names.
pub open spec fn names_model(ns: Seq<String>) -> Seq<Seq<char>> {
    ns.map_values(|n: String| n@)
}

pub proof fn lemma_exprs_model_push(es: Seq<Expr>, e: Expr)
    ensures
        exprs_model(es.push(e)) == exprs_model(es).push(e@),
{
    assert(es.push(e).drop_last() =~= es);
}

pub proof fn lemma_statements_model_push(ss: Seq<Statement>, st: Statement)
    ensures
        statements_model(ss.push(st)) == statements_model(ss).push(st@),
{
    assert(ss.push(st).drop_last() =~= ss);
}

pub proof fn lemma_names_model_push(ns: Seq<String>, n: String)
    ensures
        names_model(ns.push(n)) == names_model(ns).push(n@),
{
    assert(names_model(ns.push(n)) =~= names_model(ns).push(n@));
}

impl View for Statement {
    type V = StatementModel;

    open spec fn view(&self) -> StatementModel {
        statement_model(*self)
    }
}

impl View for Expr {
    type V = ExprModel;

    open spec fn view(&self) -> ExprModel {
        expr_model(*self)
    }
}

} // verus!
