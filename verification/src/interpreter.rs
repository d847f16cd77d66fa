use vstd::prelude::*;

use crate::ast::{
    exprs_model, expr_model, lemma_exprs_model_index, lemma_exprs_model_len,
    lemma_stmts_model_index, lemma_stmts_model_len, op_text, stmts_model, AstTree,
    BinaryOperator, Expr, Stmt, StmtModel,
};
use crate::errors::{EgoError, ErrorModel};
use crate::scopes::{ScopesStack, Value, ValueModel};
use crate::lexer::lex_spec;
use crate::parser::parse_spec;
use crate::semantics::{
    apply_binary, eval_args_model, eval_expr_model, lemma_stmts_outer_frames, render_value,
    render_values, step_stmt, step_stmts, vals_equal, StateModel,
};
use crate::text::{i64_to_dec, str_eq};

verus! {

/// The model of an evaluation result.
pub open spec fn res_model(r: Result<Value, EgoError>) -> Result<ValueModel, ErrorModel> {
    match r {
        Ok(v) => Ok(v@),
        Err(e) => Err(e@),
    }
}

/// The model of a list of evaluated values.
pub open spec fn vals_model(vs: Seq<Value>) -> Seq<ValueModel> {
    vs.map_values(|v: Value| v@)
}

/// The model of the output lines written so far.
pub open spec fn outputs_model(lines: Seq<String>) -> Seq<Seq<char>> {
    lines.map_values(|s: String| s@)
}

fn op_string(op: BinaryOperator) -> (s: String)
    ensures
        s@ == op_text(op),
{
    match op {
        BinaryOperator::Add => String::from_str("+"),
        BinaryOperator::Subtract => String::from_str("-"),
        BinaryOperator::Multiply => String::from_str("*"),
        BinaryOperator::Divide => String::from_str("/"),
        BinaryOperator::Equal => String::from_str("=="),
        BinaryOperator::NotEqual => String::from_str("!="),
        BinaryOperator::Less => String::from_str("<"),
        BinaryOperator::Greater => String::from_str(">"),
        BinaryOperator::LessEqual => String::from_str("<="),
        BinaryOperator::GreaterEqual => String::from_str(">="),
        BinaryOperator::And => String::from_str("&&"),
        BinaryOperator::Or => String::from_str("||"),
    }
}

fn value_eq(a: &Value, b: &Value) -> (r: bool)
    ensures
        r == vals_equal(a@, b@),
{
    match (a, b) {
        (Value::Str(x), Value::Str(y)) => str_eq(x.as_str(), y.as_str()),
        (Value::Num(x), Value::Num(y)) => *x == *y,
        (Value::Bool(x), Value::Bool(y)) => *x == *y,
        _ => false,
    }
}

fn apply_binary_exec(op: BinaryOperator, a: Value, b: Value) -> (r: Result<Value, EgoError>)
    ensures
        res_model(r) == apply_binary(op, a@, b@),
{
    match op {
        BinaryOperator::Add => match (a, b) {
            (Value::Num(x), Value::Num(y)) => Ok(Value::Num(x.wrapping_add(y))),
            _ => Err(EgoError::TypeError(op_string(op))),
        },
        BinaryOperator::Subtract => match (a, b) {
            (Value::Num(x), Value::Num(y)) => Ok(Value::Num(x.wrapping_sub(y))),
            _ => Err(EgoError::TypeError(op_string(op))),
        },
        BinaryOperator::Multiply => match (a, b) {
            (Value::Num(x), Value::Num(y)) => Ok(Value::Num(x.wrapping_mul(y))),
            _ => Err(EgoError::TypeError(op_string(op))),
        },
        BinaryOperator::Divide => match (a, b) {
            (Value::Num(x), Value::Num(y)) => if y == 0 {
                Err(EgoError::DivisionByZero)
            } else {
                match x.checked_div(y) {
                    Some(q) => Ok(Value::Num(q)),
                    None => Ok(Value::Num(i64::MIN)),
                }
            },
            _ => Err(EgoError::TypeError(op_string(op))),
        },
        BinaryOperator::Equal => Ok(Value::Bool(value_eq(&a, &b))),
        BinaryOperator::NotEqual => Ok(Value::Bool(!value_eq(&a, &b))),
        BinaryOperator::Less => match (a, b) {
            (Value::Num(x), Value::Num(y)) => Ok(Value::Bool(x < y)),
            _ => Err(EgoError::TypeError(op_string(op))),
        },
        BinaryOperator::Greater => match (a, b) {
            (Value::Num(x), Value::Num(y)) => Ok(Value::Bool(x > y)),
            _ => Err(EgoError::TypeError(op_string(op))),
        },
        BinaryOperator::LessEqual => match (a, b) {
            (Value::Num(x), Value::Num(y)) => Ok(Value::Bool(x <= y)),
            _ => Err(EgoError::TypeError(op_string(op))),
        },
        BinaryOperator::GreaterEqual => match (a, b) {
            (Value::Num(x), Value::Num(y)) => Ok(Value::Bool(x >= y)),
            _ => Err(EgoError::TypeError(op_string(op))),
        },
        BinaryOperator::And => match (a, b) {
            (Value::Bool(x), Value::Bool(y)) => Ok(Value::Bool(x && y)),
            _ => Err(EgoError::TypeError(op_string(op))),
        },
        BinaryOperator::Or => match (a, b) {
            (Value::Bool(x), Value::Bool(y)) => Ok(Value::Bool(x || y)),
            _ => Err(EgoError::TypeError(op_string(op))),
        },
    }
}

/// Evaluates one expression; no side effects, so the scope stack is
/// only read.
fn eval_expr(e: &Expr, scopes: &ScopesStack) -> (r: Result<Value, EgoError>)
    ensures
        res_model(r) == eval_expr_model(expr_model(*e), scopes@),
    decreases e,
{
    match e {
        Expr::Identifier(name) => match scopes.lookup(name.as_str()) {
            Some(v) => Ok(v),
            None => Err(EgoError::UndefinedIdentifier(name.clone())),
        },
        Expr::StringLiteral(s) => Ok(Value::Str(s.clone())),
        Expr::NumberLiteral(n) => Ok(Value::Num(*n)),
        Expr::Boolean(b) => Ok(Value::Bool(*b)),
        Expr::Group(inner) => eval_expr(inner, scopes),
        Expr::Binary(op, l, r) => {
            let lv = match eval_expr(l, scopes) {
                Ok(v) => v,
                Err(err) => {
                    return Err(err);
                }
            };
            match op {
                BinaryOperator::And => match lv {
                    Value::Bool(bv) => if !bv {
                        Ok(Value::Bool(false))
                    } else {
                        match eval_expr(r, scopes) {
                            Err(err) => Err(err),
                            Ok(rv) => apply_binary_exec(
                                BinaryOperator::And,
                                Value::Bool(true),
                                rv,
                            ),
                        }
                    },
                    _ => Err(EgoError::TypeError(op_string(BinaryOperator::And))),
                },
                BinaryOperator::Or => match lv {
                    Value::Bool(bv) => if bv {
                        Ok(Value::Bool(true))
                    } else {
                        match eval_expr(r, scopes) {
                            Err(err) => Err(err),
                            Ok(rv) => apply_binary_exec(
                                BinaryOperator::Or,
                                Value::Bool(false),
                                rv,
                            ),
                        }
                    },
                    _ => Err(EgoError::TypeError(op_string(BinaryOperator::Or))),
                },
                _ => match eval_expr(r, scopes) {
                    Err(err) => Err(err),
                    Ok(rv) => apply_binary_exec(*op, lv, rv),
                },
            }
        }
    }
}

/// Evaluates a call's arguments left to right, stopping at the first
/// failure.
fn eval_args(args: &Vec<Expr>, scopes: &ScopesStack) -> (r: Result<Vec<Value>, EgoError>)
    ensures
        ({
            let ev = eval_args_model(exprs_model(args@), scopes@);
            &&& (r matches Ok(vs) ==> ev == Ok::<Seq<ValueModel>, ErrorModel>(vals_model(vs@)))
            &&& (r matches Err(e) ==> ev == Err::<Seq<ValueModel>, ErrorModel>(e@))
        }),
{
    let ghost m = exprs_model(args@);
    proof {
        lemma_exprs_model_len(args@);
    }
    let mut vals: Vec<Value> = Vec::new();
    let n = args.len();
    let mut i: usize = 0;
    proof {
        assert(m.subrange(0, n as int) =~= m);
        assert(vals_model(vals@) =~= Seq::<ValueModel>::empty());
    }
    while i < n
        invariant
            i <= n,
            n == args@.len(),
            m == exprs_model(args@),
            m.len() == n,
            ({
                let full = eval_args_model(m, scopes@);
                let rest = eval_args_model(m.subrange(i as int, n as int), scopes@);
                match rest {
                    Ok(vs) => full == Ok::<Seq<ValueModel>, ErrorModel>(vals_model(vals@) + vs),
                    Err(e) => full == Err::<Seq<ValueModel>, ErrorModel>(e),
                }
            }),
        decreases n - i,
    {
        proof {
            lemma_exprs_model_index(args@, i as int);
            assert(m.subrange(i as int, n as int)[0] == m[i as int]);
            assert(m.subrange(i as int, n as int).subrange(1, (n - i) as int) =~= m.subrange(
                i + 1 as int,
                n as int,
            ));
        }
        match eval_expr(&args[i], scopes) {
            Err(e) => {
                return Err(e);
            }
            Ok(v) => {
                let ghost prev = vals_model(vals@);
                let ghost vm = v@;
                vals.push(v);
                proof {
                    assert(vals_model(vals@) =~= prev.push(vm));
                    let rest2 = eval_args_model(m.subrange(i + 1 as int, n as int), scopes@);
                    match rest2 {
                        Ok(vs2) => {
                            assert(prev + (seq![vm] + vs2) =~= prev.push(vm) + vs2);
                        }
                        Err(_) => {}
                    }
                }
            }
        }
        i += 1;
    }
    proof {
        assert(m.subrange(n as int, n as int) =~= Seq::<crate::ast::ExprModel>::empty());
        assert(vals_model(vals@) + Seq::<ValueModel>::empty() =~= vals_model(vals@));
    }
    Ok(vals)
}

fn render_value_exec(v: &Value) -> (s: String)
    ensures
        s@ == render_value(v@),
{
    match v {
        Value::Str(text) => text.clone(),
        Value::Num(n) => i64_to_dec(*n),
        Value::Bool(b) => if *b {
            String::from_str("true")
        } else {
            String::from_str("false")
        },
    }
}

/// Joins the rendered values with single spaces into one output line.
fn render_line(vals: &Vec<Value>) -> (s: String)
    ensures
        s@ == render_values(vals_model(vals@)),
{
    let mut s = String::new();
    let n = vals.len();
    let mut i: usize = 0;
    while i < n
        invariant
            i <= n,
            n == vals@.len(),
            s@ == render_values(vals_model(vals@).subrange(0, i as int)),
        decreases n - i,
    {
        if i > 0 {
            s.append(" ");
        }
        let piece = render_value_exec(&vals[i]);
        s.append(piece.as_str());
        proof {
            let m = vals_model(vals@);
            assert(m.subrange(0, i + 1 as int).drop_last() =~= m.subrange(0, i as int));
            assert(m.subrange(0, i + 1 as int).last() == m[i as int]);
        }
        i += 1;
    }
    proof {
        assert(vals_model(vals@).subrange(0, n as int) =~= vals_model(vals@));
    }
    s
}

/// Walks an AST, mutating a scope stack and collecting the output that
/// `print` statements write.
pub struct Interpreter {
    pub scopes: ScopesStack,
    pub ast: AstTree,
    pub output: Vec<String>,
}

impl Interpreter {
    pub fn new(scopes: ScopesStack, ast: AstTree) -> (it: Interpreter)
        ensures
            it.scopes == scopes,
            it.ast == ast,
            it.output@ =~= Seq::<String>::empty(),
    {
        Interpreter { scopes, ast, output: Vec::new() }
    }

    /// Runs the whole program: executes the root's statements in order
    /// against the interpreter's scope stack, collecting output lines,
    /// and stops at the first fatal error.
    pub fn exec(&mut self) -> (r: Result<(), EgoError>)
        requires
            old(self).scopes.wf(),
        ensures
            ({
                let step = step_stmts(
                    stmts_model(old(self).ast.root@),
                    StateModel {
                        scopes: old(self).scopes@,
                        output: outputs_model(old(self).output@),
                    },
                );
                &&& final(self).scopes@ == step.0.scopes
                &&& outputs_model(final(self).output@) == step.0.output
                &&& final(self).ast == old(self).ast
                &&& (r is Ok <==> step.1 is None)
                &&& (r matches Err(e) ==> step.1 == Some(e@))
                &&& final(self).scopes.wf()
            }),
    {
        Self::exec_block(&self.ast.root, &mut self.scopes, &mut self.output)
    }

    /// Executes a statement sequence in order against the given scope
    /// stack, stopping at the first error.
    pub fn exec_block(stmts: &Vec<Stmt>, scopes: &mut ScopesStack, output: &mut Vec<String>) -> (r:
        Result<(), EgoError>)
        requires
            old(scopes).wf(),
        ensures
            final(scopes)@ == step_stmts(
                stmts_model(stmts@),
                StateModel { scopes: old(scopes)@, output: outputs_model(old(output)@) },
            ).0.scopes,
            outputs_model(final(output)@) == step_stmts(
                stmts_model(stmts@),
                StateModel { scopes: old(scopes)@, output: outputs_model(old(output)@) },
            ).0.output,
            r is Ok <==> step_stmts(
                stmts_model(stmts@),
                StateModel { scopes: old(scopes)@, output: outputs_model(old(output)@) },
            ).1 is None,
            r matches Err(e) ==> step_stmts(
                stmts_model(stmts@),
                StateModel { scopes: old(scopes)@, output: outputs_model(old(output)@) },
            ).1 == Some(e@),
            final(scopes).wf(),
        decreases stmts@,
    {
        let ghost st0 = StateModel { scopes: scopes@, output: outputs_model(output@) };
        let ghost m = stmts_model(stmts@);
        proof {
            lemma_stmts_model_len(stmts@);
            assert(m.subrange(0, m.len() as int) =~= m);
        }
        let n = stmts.len();
        let mut i: usize = 0;
        while i < n
            invariant
                i <= n,
                n == stmts@.len(),
                m == stmts_model(stmts@),
                m.len() == n,
                st0 == (StateModel {
                    scopes: old(scopes)@,
                    output: outputs_model(old(output)@),
                }),
                scopes.wf(),
                step_stmts(m, st0) == step_stmts(
                    m.subrange(i as int, n as int),
                    StateModel { scopes: scopes@, output: outputs_model(output@) },
                ),
            decreases n - i,
        {
            let ghost cur = StateModel { scopes: scopes@, output: outputs_model(output@) };
            proof {
                lemma_stmts_model_index(stmts@, i as int);
                assert(m.subrange(i as int, n as int)[0] == m[i as int]);
                assert(m.subrange(i as int, n as int).subrange(1, (n - i) as int) =~= m.subrange(
                    i + 1 as int,
                    n as int,
                ));
            }
            match Self::exec_stmt(&stmts[i], scopes, output) {
                Err(e) => {
                    proof {
                        let one = step_stmt(m[i as int], cur);
                        assert(scopes@ == one.0.scopes);
                        assert(outputs_model(output@) == one.0.output);
                        assert(step_stmts(m.subrange(i as int, n as int), cur) == (
                            one.0,
                            Some(one.1->0),
                        ));
                        assert(step_stmts(m, st0).1 == Some(e@));
                        assert(scopes@ == step_stmts(m, st0).0.scopes);
                        assert(outputs_model(output@) == step_stmts(m, st0).0.output);
                    }
                    return Err(e);
                }
                Ok(()) => {
                    proof {
                        let one = step_stmt(m[i as int], cur);
                        assert(step_stmts(m.subrange(i as int, n as int), cur) == step_stmts(
                            m.subrange(i + 1 as int, n as int),
                            one.0,
                        ));
                    }
                }
            }
            i += 1;
        }
        proof {
            assert(m.subrange(n as int, n as int) =~= Seq::<StmtModel>::empty());
        }
        Ok(())
    }

    /// Executes one statement.
    fn exec_stmt(s: &Stmt, scopes: &mut ScopesStack, output: &mut Vec<String>) -> (r: Result<
        (),
        EgoError,
    >)
        requires
            old(scopes).wf(),
        ensures
            ({
                let step = step_stmt(
                    crate::ast::stmt_model(*s),
                    StateModel { scopes: old(scopes)@, output: outputs_model(old(output)@) },
                );
                &&& final(scopes)@ == step.0.scopes
                &&& outputs_model(final(output)@) == step.0.output
                &&& (r is Ok <==> step.1 is None)
                &&& (r matches Err(e) ==> step.1 == Some(e@))
                &&& final(scopes).wf()
            }),
        decreases s,
    {
        let ghost pre = StateModel { scopes: scopes@, output: outputs_model(output@) };
        match s {
            Stmt::Block(children) => {
                scopes.push();
                let ghost entered = StateModel { scopes: scopes@, output: outputs_model(output@) };
                proof {
                    assert(entered.scopes =~= pre.scopes.push(Map::empty()));
                    assert(entered == (StateModel {
                        scopes: pre.scopes.push(Map::empty()),
                        ..pre
                    }));
                }
                match Self::exec_block(children, scopes, output) {
                    Err(e) => Err(e),
                    Ok(()) => {
                        proof {
                            lemma_stmts_outer_frames(stmts_model(children@), entered);
                        }
                        match scopes.pop() {
                            Ok(()) => Ok(()),
                            Err(e) => {
                                proof {
                                    assert(false);
                                }
                                Err(e)
                            }
                        }
                    }
                }
            }
            Stmt::IfStatement(cond, body) => {
                match Self::resolve_group(cond, scopes) {
                    Err(e) => Err(e),
                    Ok(false) => Ok(()),
                    Ok(true) => {
                        scopes.push();
                        let ghost entered = StateModel {
                            scopes: scopes@,
                            output: outputs_model(output@),
                        };
                        proof {
                            assert(entered.scopes =~= pre.scopes.push(Map::empty()));
                            assert(entered == (StateModel {
                                scopes: pre.scopes.push(Map::empty()),
                                ..pre
                            }));
                        }
                        match Self::exec_block(body, scopes, output) {
                            Err(e) => Err(e),
                            Ok(()) => {
                                proof {
                                    lemma_stmts_outer_frames(stmts_model(body@), entered);
                                }
                                match scopes.pop() {
                                    Ok(()) => Ok(()),
                                    Err(e) => {
                                        proof {
                                            assert(false);
                                        }
                                        Err(e)
                                    }
                                }
                            }
                        }
                    }
                }
            }
            Stmt::VariableDeclaration(name, init) => {
                match eval_expr(init, scopes) {
                    Err(e) => Err(e),
                    Ok(v) => {
                        scopes.bind(name.as_str(), v);
                        Ok(())
                    }
                }
            }
            Stmt::FunctionCall(callee, args) => {
                if str_eq(callee.as_str(), "print") {
                    match eval_args(args, scopes) {
                        Err(e) => Err(e),
                        Ok(vals) => {
                            let line = render_line(&vals);
                            let ghost prev = outputs_model(output@);
                            let ghost linem = line@;
                            output.push(line);
                            proof {
                                assert(outputs_model(output@) =~= prev.push(linem));
                            }
                            Ok(())
                        }
                    }
                } else {
                    Err(EgoError::UndefinedFunction(callee.clone()))
                }
            }
        }
    }

    /// Evaluates an `if` condition's group to a boolean; any other value
    /// kind is a type error.
    pub fn resolve_group(cond: &Expr, scopes: &ScopesStack) -> (r: Result<bool, EgoError>)
        ensures
            ({
                let ev = eval_expr_model(expr_model(*cond), scopes@);
                &&& (r matches Ok(b) ==> ev == Ok::<ValueModel, ErrorModel>(ValueModel::Bool(b)))
                &&& (r matches Err(e) ==> match ev {
                    Ok(v) => !(v is Bool) && e@ == ErrorModel::TypeErr("if"@),
                    Err(em) => e@ == em,
                })
            }),
    {
        match eval_expr(cond, scopes) {
            Err(e) => Err(e),
            Ok(Value::Bool(b)) => Ok(b),
            Ok(_) => Err(EgoError::TypeError(String::from_str("if"))),
        }
    }
}


/// The whole pipeline: lex the source, parse the tokens, execute the
/// tree from a fresh root scope, and hand back the output lines, or the
/// first error of whichever stage failed. No statement runs when the
/// source does not parse, and execution stops at the first fatal error
/// with the output written so far discarded only by the caller.
pub fn run(source: String) -> (r: Result<Vec<String>, EgoError>)
    ensures
        ({
            let toks = lex_spec(source@);
            match parse_spec(toks) {
                Err(em) => r matches Err(e) && e@ == em,
                Ok(prog) => {
                    let outcome = step_stmts(
                        prog,
                        StateModel {
                            scopes: seq![Map::<Seq<char>, crate::scopes::ValueModel>::empty()],
                            output: Seq::empty(),
                        },
                    );
                    match outcome.1 {
                        None => r matches Ok(lines) && outputs_model(lines@) == outcome.0.output,
                        Some(em) => r matches Err(e) && e@ == em,
                    }
                }
            }
        }),
{
    let tokens = crate::lexer::lex(source);
    match crate::parser::parse(tokens) {
        Err(e) => Err(e),
        Ok(ast) => {
            let mut interp = Interpreter::new(crate::scopes::ScopesStack::new(), ast);
            proof {
                assert(outputs_model(interp.output@) =~= Seq::<Seq<char>>::empty());
            }
            match interp.exec() {
                Ok(()) => Ok(interp.output),
                Err(e) => Err(e),
            }
        }
    }
}

} // verus!
