use vstd::prelude::*;

verus! {

/// The binary operators of the language, multiplicative binding tightest,
/// logical-or loosest.
#[derive(Clone, Copy, Debug, PartialEq, Eq, Structural)]
pub enum BinaryOperator {
    Add,
    Subtract,
    Multiply,
    Divide,
    Equal,
    NotEqual,
    Less,
    Greater,
    LessEqual,
    GreaterEqual,
    And,
    Or,
}

/// The text of an operator as the lexer tokenizes it.
pub open spec fn op_text(op: BinaryOperator) -> Seq<char> {
    match op {
        BinaryOperator::Add => "+"@,
        BinaryOperator::Subtract => "-"@,
        BinaryOperator::Multiply => "*"@,
        BinaryOperator::Divide => "/"@,
        BinaryOperator::Equal => "=="@,
        BinaryOperator::NotEqual => "!="@,
        BinaryOperator::Less => "<"@,
        BinaryOperator::Greater => ">"@,
        BinaryOperator::LessEqual => "<="@,
        BinaryOperator::GreaterEqual => ">="@,
        BinaryOperator::And => "&&"@,
        BinaryOperator::Or => "||"@,
    }
}

/// Binding strength: a higher number binds tighter. Parsing is
/// left-associative within one level.
pub open spec fn op_prec(op: BinaryOperator) -> int {
    match op {
        BinaryOperator::Or => 1,
        BinaryOperator::And => 2,
        BinaryOperator::Equal => 3,
        BinaryOperator::NotEqual => 3,
        BinaryOperator::Less => 4,
        BinaryOperator::Greater => 4,
        BinaryOperator::LessEqual => 4,
        BinaryOperator::GreaterEqual => 4,
        BinaryOperator::Add => 5,
        BinaryOperator::Subtract => 5,
        BinaryOperator::Multiply => 6,
        BinaryOperator::Divide => 6,
    }
}

/// An expression node. Literal payloads are already decoded: a string
/// literal holds its content without the delimiting quotes, a number
/// literal its numeric value.
#[derive(Debug)]
pub enum Expr {
    Identifier(String),
    StringLiteral(String),
    NumberLiteral(i64),
    Boolean(bool),
    Binary(BinaryOperator, Box<Expr>, Box<Expr>),
    /// A parenthesized sub-expression; evaluates to its inner expression.
    Group(Box<Expr>),
}

/// A statement node. Each node owns its children exclusively; the tree
/// is acyclic and finite by construction.
#[derive(Debug)]
pub enum Stmt {
    /// A `{ ... }` block: a fresh lexical scope around its children.
    Block(Vec<Stmt>),
    /// `if` with its parenthesized condition and its body block.
    IfStatement(Expr, Vec<Stmt>),
    /// `let name = expression;`.
    VariableDeclaration(String, Expr),
    /// `callee(argument, ...);` — only `print` is meaningful at run time.
    FunctionCall(String, Vec<Expr>),
}

/// A whole program: the ordered top-level statements under the root.
#[derive(Debug)]
pub struct AstTree {
    pub root: Vec<Stmt>,
}

/// The mathematical model of an expression.
pub enum ExprModel {
    Identifier(Seq<char>),
    StringLit(Seq<char>),
    NumberLit(i64),
    Boolean(bool),
    Binary(BinaryOperator, Box<ExprModel>, Box<ExprModel>),
    Group(Box<ExprModel>),
}

/// The mathematical model of a statement.
pub enum StmtModel {
    Block(Seq<StmtModel>),
    If(ExprModel, Seq<StmtModel>),
    Decl(Seq<char>, ExprModel),
    Call(Seq<char>, Seq<ExprModel>),
}

pub open spec fn expr_model(e: Expr) -> ExprModel
    decreases e,
{
    match e {
        Expr::Identifier(s) => ExprModel::Identifier(s@),
        Expr::StringLiteral(s) => ExprModel::StringLit(s@),
        Expr::NumberLiteral(n) => ExprModel::NumberLit(n),
        Expr::Boolean(b) => ExprModel::Boolean(b),
        Expr::Binary(op, l, r) => ExprModel::Binary(
            op,
            Box::new(expr_model(*l)),
            Box::new(expr_model(*r)),
        ),
        Expr::Group(inner) => ExprModel::Group(Box::new(expr_model(*inner))),
    }
}

pub open spec fn exprs_model(es: Seq<Expr>) -> Seq<ExprModel>
    decreases es,
{
    if es.len() == 0 {
        Seq::empty()
    } else {
        exprs_model(es.drop_last()).push(expr_model(es.last()))
    }
}

pub open spec fn stmt_model(s: Stmt) -> StmtModel
    decreases s,
{
    match s {
        Stmt::Block(children) => StmtModel::Block(stmts_model(children@)),
        Stmt::IfStatement(cond, body) => StmtModel::If(expr_model(cond), stmts_model(body@)),
        Stmt::VariableDeclaration(name, init) => StmtModel::Decl(name@, expr_model(init)),
        Stmt::FunctionCall(callee, args) => StmtModel::Call(callee@, exprs_model(args@)),
    }
}

pub open spec fn stmts_model(ss: Seq<Stmt>) -> Seq<StmtModel>
    decreases ss,
{
    if ss.len() == 0 {
        Seq::empty()
    } else {
        stmts_model(ss.drop_last()).push(stmt_model(ss.last()))
    }
}

/// The model of a statement sequence indexes pointwise into the models
/// of its elements.
pub proof fn lemma_stmts_model_index(ss: Seq<Stmt>, i: int)
    requires
        0 <= i < ss.len(),
    ensures
        stmts_model(ss).len() == ss.len(),
        stmts_model(ss)[i] == stmt_model(ss[i]),
    decreases ss,
{
    if ss.len() > 0 && i < ss.len() - 1 {
        lemma_stmts_model_index(ss.drop_last(), i);
    } else if ss.len() > 0 {
        lemma_stmts_model_len(ss.drop_last());
    }
}

pub proof fn lemma_stmts_model_len(ss: Seq<Stmt>)
    ensures
        stmts_model(ss).len() == ss.len(),
    decreases ss,
{
    if ss.len() > 0 {
        lemma_stmts_model_len(ss.drop_last());
    }
}

pub proof fn lemma_exprs_model_index(es: Seq<Expr>, i: int)
    requires
        0 <= i < es.len(),
    ensures
        exprs_model(es).len() == es.len(),
        exprs_model(es)[i] == expr_model(es[i]),
    decreases es,
{
    if es.len() > 0 && i < es.len() - 1 {
        lemma_exprs_model_index(es.drop_last(), i);
    } else if es.len() > 0 {
        lemma_exprs_model_len(es.drop_last());
    }
}

pub proof fn lemma_exprs_model_len(es: Seq<Expr>)
    ensures
        exprs_model(es).len() == es.len(),
    decreases es,
{
    if es.len() > 0 {
        lemma_exprs_model_len(es.drop_last());
    }
}

} // verus!
