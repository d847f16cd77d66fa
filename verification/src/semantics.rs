use vstd::prelude::*;

use crate::ast::{op_text, BinaryOperator, ExprModel, StmtModel};
use crate::errors::ErrorModel;
use crate::scopes::{bind_model, stack_lookup, ValueModel};
use crate::text::spec_i64_dec;

verus! {

/// The observable machine state: the scope stack and the output lines
/// written so far.
pub struct StateModel {
    pub scopes: Seq<Map<Seq<char>, ValueModel>>,
    pub output: Seq<Seq<char>>,
}

/// Whether two values are equal under `==` of the language: same-kind
/// values compare by value, different-kind values are always unequal.
pub open spec fn vals_equal(a: ValueModel, b: ValueModel) -> bool {
    match (a, b) {
        (ValueModel::Str(x), ValueModel::Str(y)) => x == y,
        (ValueModel::Num(x), ValueModel::Num(y)) => x == y,
        (ValueModel::Bool(x), ValueModel::Bool(y)) => x == y,
        _ => false,
    }
}

/// Truncating division of the machine's one numeric kind; the single
/// overflowing quotient wraps.
pub open spec fn ego_div(x: i64, d: i64) -> i64 {
    let xi = x as int;
    let di = d as int;
    let output = if xi == 0 {
        0int
    } else if xi > 0 && di > 0 {
        xi / di
    } else if xi < 0 && di < 0 {
        (xi * -1) / (di * -1)
    } else if xi < 0 {
        ((xi * -1) / di) * -1
    } else {
        (xi / (di * -1)) * -1
    };
    if output < i64::MIN || output > i64::MAX {
        i64::MIN
    } else {
        output as i64
    }
}

/// Applies a non-short-circuiting operator to two evaluated operands.
/// Arithmetic and relational operators demand numbers, logical operators
/// booleans; equality accepts any pair.
pub open spec fn apply_binary(
    op: BinaryOperator,
    a: ValueModel,
    b: ValueModel,
) -> Result<ValueModel, ErrorModel> {
    match op {
        BinaryOperator::Add => match (a, b) {
            (ValueModel::Num(x), ValueModel::Num(y)) => Ok(
                ValueModel::Num(vstd::wrapping::i64_specs::wrapping_add(x, y)),
            ),
            _ => Err(ErrorModel::TypeErr(op_text(op))),
        },
        BinaryOperator::Subtract => match (a, b) {
            (ValueModel::Num(x), ValueModel::Num(y)) => Ok(
                ValueModel::Num(vstd::wrapping::i64_specs::wrapping_sub(x, y)),
            ),
            _ => Err(ErrorModel::TypeErr(op_text(op))),
        },
        BinaryOperator::Multiply => match (a, b) {
            (ValueModel::Num(x), ValueModel::Num(y)) => Ok(
                ValueModel::Num(vstd::wrapping::i64_specs::wrapping_mul(x, y)),
            ),
            _ => Err(ErrorModel::TypeErr(op_text(op))),
        },
        BinaryOperator::Divide => match (a, b) {
            (ValueModel::Num(x), ValueModel::Num(y)) => if y == 0 {
                Err(ErrorModel::DivisionByZero)
            } else {
                Ok(ValueModel::Num(ego_div(x, y)))
            },
            _ => Err(ErrorModel::TypeErr(op_text(op))),
        },
        BinaryOperator::Equal => Ok(ValueModel::Bool(vals_equal(a, b))),
        BinaryOperator::NotEqual => Ok(ValueModel::Bool(!vals_equal(a, b))),
        BinaryOperator::Less => match (a, b) {
            (ValueModel::Num(x), ValueModel::Num(y)) => Ok(ValueModel::Bool(x < y)),
            _ => Err(ErrorModel::TypeErr(op_text(op))),
        },
        BinaryOperator::Greater => match (a, b) {
            (ValueModel::Num(x), ValueModel::Num(y)) => Ok(ValueModel::Bool(x > y)),
            _ => Err(ErrorModel::TypeErr(op_text(op))),
        },
        BinaryOperator::LessEqual => match (a, b) {
            (ValueModel::Num(x), ValueModel::Num(y)) => Ok(ValueModel::Bool(x <= y)),
            _ => Err(ErrorModel::TypeErr(op_text(op))),
        },
        BinaryOperator::GreaterEqual => match (a, b) {
            (ValueModel::Num(x), ValueModel::Num(y)) => Ok(ValueModel::Bool(x >= y)),
            _ => Err(ErrorModel::TypeErr(op_text(op))),
        },
        BinaryOperator::And => match (a, b) {
            (ValueModel::Bool(x), ValueModel::Bool(y)) => Ok(ValueModel::Bool(x && y)),
            _ => Err(ErrorModel::TypeErr(op_text(op))),
        },
        BinaryOperator::Or => match (a, b) {
            (ValueModel::Bool(x), ValueModel::Bool(y)) => Ok(ValueModel::Bool(x || y)),
            _ => Err(ErrorModel::TypeErr(op_text(op))),
        },
    }
}

/// Evaluates an expression against a scope stack. Expressions have no
/// side effects; `&&` and `||` short-circuit, so their right operand is
/// not evaluated when the left already decides.
pub open spec fn eval_expr_model(
    e: ExprModel,
    scopes: Seq<Map<Seq<char>, ValueModel>>,
) -> Result<ValueModel, ErrorModel>
    decreases e,
{
    match e {
        ExprModel::Identifier(name) => match stack_lookup(scopes, name) {
            Some(v) => Ok(v),
            None => Err(ErrorModel::UndefinedIdentifier(name)),
        },
        ExprModel::StringLit(s) => Ok(ValueModel::Str(s)),
        ExprModel::NumberLit(n) => Ok(ValueModel::Num(n)),
        ExprModel::Boolean(b) => Ok(ValueModel::Bool(b)),
        ExprModel::Group(inner) => eval_expr_model(*inner, scopes),
        ExprModel::Binary(op, l, r) => match eval_expr_model(*l, scopes) {
            Err(err) => Err(err),
            Ok(lv) => if op == BinaryOperator::And {
                match lv {
                    ValueModel::Bool(false) => Ok(ValueModel::Bool(false)),
                    ValueModel::Bool(true) => match eval_expr_model(*r, scopes) {
                        Err(err) => Err(err),
                        Ok(rv) => apply_binary(op, lv, rv),
                    },
                    _ => Err(ErrorModel::TypeErr(op_text(op))),
                }
            } else if op == BinaryOperator::Or {
                match lv {
                    ValueModel::Bool(true) => Ok(ValueModel::Bool(true)),
                    ValueModel::Bool(false) => match eval_expr_model(*r, scopes) {
                        Err(err) => Err(err),
                        Ok(rv) => apply_binary(op, lv, rv),
                    },
                    _ => Err(ErrorModel::TypeErr(op_text(op))),
                }
            } else {
                match eval_expr_model(*r, scopes) {
                    Err(err) => Err(err),
                    Ok(rv) => apply_binary(op, lv, rv),
                }
            },
        },
    }
}

/// Evaluates a call's arguments left to right, stopping at the first
/// failure.
pub open spec fn eval_args_model(
    args: Seq<ExprModel>,
    scopes: Seq<Map<Seq<char>, ValueModel>>,
) -> Result<Seq<ValueModel>, ErrorModel>
    decreases args,
{
    if args.len() == 0 {
        Ok(Seq::empty())
    } else {
        match eval_expr_model(args[0], scopes) {
            Err(err) => Err(err),
            Ok(v) => match eval_args_model(args.subrange(1, args.len() as int), scopes) {
                Err(err) => Err(err),
                Ok(vs) => Ok(seq![v] + vs),
            },
        }
    }
}

/// Value-kind-specific rendering: a string's content without quotes, a
/// number in canonical decimal, a boolean as `true` or `false`.
pub open spec fn render_value(v: ValueModel) -> Seq<char> {
    match v {
        ValueModel::Str(s) => s,
        ValueModel::Num(n) => spec_i64_dec(n),
        ValueModel::Bool(b) => if b {
            "true"@
        } else {
            "false"@
        },
    }
}

/// The output line for one `print`: the rendered arguments joined by
/// single spaces.
pub open spec fn render_values(vs: Seq<ValueModel>) -> Seq<char>
    decreases vs.len(),
{
    if vs.len() == 0 {
        Seq::empty()
    } else if vs.len() == 1 {
        render_value(vs[0])
    } else {
        render_values(vs.drop_last()) + " "@ + render_value(vs.last())
    }
}

/// Executes one statement: the resulting state, and the error that
/// aborted execution, if one did. Output already written is never
/// retracted.
pub open spec fn step_stmt(s: StmtModel, st: StateModel) -> (StateModel, Option<ErrorModel>)
    decreases s, 1int,
{
    match s {
        StmtModel::Block(children) => step_block(children, st),
        StmtModel::If(cond, body) => match eval_expr_model(cond, st.scopes) {
            Err(err) => (st, Some(err)),
            Ok(ValueModel::Bool(true)) => step_block(body, st),
            Ok(ValueModel::Bool(false)) => (st, None),
            Ok(_) => (st, Some(ErrorModel::TypeErr("if"@))),
        },
        StmtModel::Decl(name, init) => match eval_expr_model(init, st.scopes) {
            Err(err) => (st, Some(err)),
            Ok(v) => (
                StateModel { scopes: bind_model(st.scopes, name, v), ..st },
                None,
            ),
        },
        StmtModel::Call(callee, args) => if callee == "print"@ {
            match eval_args_model(args, st.scopes) {
                Err(err) => (st, Some(err)),
                Ok(vs) => (
                    StateModel { output: st.output.push(render_values(vs)), ..st },
                    None,
                ),
            }
        } else {
            (st, Some(ErrorModel::UndefinedFunction(callee)))
        },
    }
}

/// Runs a statement sequence inside a fresh pushed scope frame, popping
/// the frame again on success.
pub open spec fn step_block(
    children: Seq<StmtModel>,
    st: StateModel,
) -> (StateModel, Option<ErrorModel>)
    decreases children, 3int,
{
    let entered = StateModel { scopes: st.scopes.push(Map::empty()), ..st };
    let (inner, err) = step_stmts(children, entered);
    match err {
        Some(e) => (inner, Some(e)),
        None => (StateModel { scopes: inner.scopes.drop_last(), ..inner }, None),
    }
}

/// Executes statements in order, stopping at the first error.
pub open spec fn step_stmts(ss: Seq<StmtModel>, st: StateModel) -> (StateModel, Option<
    ErrorModel,
>)
    decreases ss, 2int,
{
    if ss.len() == 0 {
        (st, None)
    } else {
        let (st1, err) = step_stmt(ss[0], st);
        match err {
            Some(e) => (st1, Some(e)),
            None => step_stmts(ss.subrange(1, ss.len() as int), st1),
        }
    }
}

/// Whether one statement, run from the given state, leaves the scope
/// stack exactly as deep as it found it and every frame below the
/// topmost one unchanged, when it succeeds.
pub open spec fn stmt_preserves_outer(s: StmtModel, st: StateModel) -> bool {
    step_stmt(s, st).1 is None ==> {
        &&& step_stmt(s, st).0.scopes.len() == st.scopes.len()
        &&& forall|i: int|
            0 <= i < st.scopes.len() - 1 ==> step_stmt(s, st).0.scopes[i] == st.scopes[i]
    }
}

/// On success a statement leaves the scope stack exactly as deep as it
/// found it, and every frame below the topmost one unchanged: statements
/// can bind only into the innermost frame, and every block they open is
/// closed again.
pub proof fn lemma_stmt_outer_frames(s: StmtModel, st: StateModel)
    requires
        st.scopes.len() >= 1,
    ensures
        stmt_preserves_outer(s, st),
    decreases s, 1int,
{
    match s {
        StmtModel::Block(children) => {
            lemma_block_outer_frames(children, st);
            assert(step_stmt(s, st) == step_block(children, st));
            assert(stmt_preserves_outer(s, st));
        }
        StmtModel::If(cond, body) => {
            lemma_block_outer_frames(body, st);
            match eval_expr_model(cond, st.scopes) {
                Ok(v) => match v {
                    ValueModel::Bool(b) => if b {
                        assert(step_stmt(s, st) == step_block(body, st));
                        assert(stmt_preserves_outer(s, st));
                    } else {
                        assert(step_stmt(s, st) == (st, None::<ErrorModel>));
                        assert(stmt_preserves_outer(s, st));
                    },
                    _ => {
                        assert(step_stmt(s, st).1 is Some);
                        assert(stmt_preserves_outer(s, st));
                    }
                },
                Err(_) => {
                    assert(step_stmt(s, st).1 is Some);
                    assert(stmt_preserves_outer(s, st));
                }
            }
        }
        StmtModel::Decl(name, init) => {
            match eval_expr_model(init, st.scopes) {
                Ok(v) => {
                    assert(step_stmt(s, st).0.scopes == bind_model(st.scopes, name, v));
                    assert(stmt_preserves_outer(s, st));
                }
                Err(_) => {
                    assert(step_stmt(s, st).1 is Some);
                    assert(stmt_preserves_outer(s, st));
                }
            }
        }
        StmtModel::Call(callee, args) => {
            if callee == "print"@ {
                match eval_args_model(args, st.scopes) {
                    Ok(_) => {
                        assert(step_stmt(s, st).0.scopes == st.scopes);
                        assert(stmt_preserves_outer(s, st));
                    }
                    Err(_) => {
                        assert(step_stmt(s, st).1 is Some);
                        assert(stmt_preserves_outer(s, st));
                    }
                }
            } else {
                assert(step_stmt(s, st).1 is Some);
                assert(stmt_preserves_outer(s, st));
            }
        }
    }
}

pub proof fn lemma_block_outer_frames(children: Seq<StmtModel>, st: StateModel)
    ensures
        step_block(children, st).1 is None ==> {
            let post = step_block(children, st).0;
            &&& post.scopes.len() == st.scopes.len()
            &&& forall|i: int|
                0 <= i < st.scopes.len() ==> post.scopes[i] == st.scopes[i]
        },
    decreases children, 3int,
{
    let entered = StateModel { scopes: st.scopes.push(Map::empty()), ..st };
    lemma_stmts_outer_frames(children, entered);
    let (inner, err) = step_stmts(children, entered);
    if err is None {
        assert forall|i: int| 0 <= i < st.scopes.len() implies inner.scopes.drop_last()[i]
            == st.scopes[i] by {
            assert(inner.scopes[i] == entered.scopes[i]);
            assert(entered.scopes[i] == st.scopes[i]);
        }
    }
}

pub proof fn lemma_stmts_outer_frames(ss: Seq<StmtModel>, st: StateModel)
    requires
        st.scopes.len() >= 1,
    ensures
        step_stmts(ss, st).1 is None ==> {
            let post = step_stmts(ss, st).0;
            &&& post.scopes.len() == st.scopes.len()
            &&& forall|i: int|
                0 <= i < st.scopes.len() - 1 ==> post.scopes[i] == st.scopes[i]
        },
    decreases ss, 2int,
{
    if ss.len() > 0 {
        lemma_stmt_outer_frames(ss[0], st);
        let (st1, err) = step_stmt(ss[0], st);
        if err is None {
            lemma_stmts_outer_frames(ss.subrange(1, ss.len() as int), st1);
        }
    }
}


/// After a block completes, the scope stack is exactly what it was
/// before the block: a name bound inside the block is reachable again
/// only as it was before, and an outer binding keeps its value.
pub proof fn lemma_block_scope_isolation(
    children: Seq<StmtModel>,
    st: StateModel,
    name: Seq<char>,
)
    requires
        st.scopes.len() >= 1,
        step_stmt(StmtModel::Block(children), st).1 is None,
    ensures
        step_stmt(StmtModel::Block(children), st).0.scopes == st.scopes,
        stack_lookup(step_stmt(StmtModel::Block(children), st).0.scopes, name) == stack_lookup(
            st.scopes,
            name,
        ),
{
    lemma_block_outer_frames(children, st);
    let post = step_stmt(StmtModel::Block(children), st).0;
    assert(post.scopes =~= st.scopes);
}

/// `if` with a false condition has no effect at all; with a true
/// condition it executes its body exactly once, as a block in a fresh
/// scope.
pub proof fn lemma_if_semantics(cond: ExprModel, body: Seq<StmtModel>, st: StateModel)
    ensures
        eval_expr_model(cond, st.scopes) == Ok::<ValueModel, ErrorModel>(ValueModel::Bool(false))
            ==> step_stmt(StmtModel::If(cond, body), st) == (st, None::<ErrorModel>),
        eval_expr_model(cond, st.scopes) == Ok::<ValueModel, ErrorModel>(ValueModel::Bool(true))
            ==> step_stmt(StmtModel::If(cond, body), st) == step_stmt(StmtModel::Block(body), st),
{
}

/// Division of numbers signals `DivisionByZero` exactly when the right
/// operand is zero, and otherwise yields the truncating quotient.
pub proof fn lemma_division(x: i64, y: i64)
    ensures
        y == 0 ==> apply_binary(BinaryOperator::Divide, ValueModel::Num(x), ValueModel::Num(y))
            == Err::<ValueModel, ErrorModel>(ErrorModel::DivisionByZero),
        y != 0 ==> apply_binary(BinaryOperator::Divide, ValueModel::Num(x), ValueModel::Num(y))
            == Ok::<ValueModel, ErrorModel>(ValueModel::Num(ego_div(x, y))),
{
}

/// Whether a statement is a `print` call whose arguments all evaluate.
pub open spec fn is_ok_print(s: StmtModel, scopes: Seq<Map<Seq<char>, ValueModel>>) -> bool {
    match s {
        StmtModel::Call(callee, args) => callee == "print"@ && eval_args_model(args, scopes)
            is Ok,
        _ => false,
    }
}

/// The line such a `print` writes.
pub open spec fn print_line_of(s: StmtModel, scopes: Seq<Map<Seq<char>, ValueModel>>) -> Seq<
    char,
> {
    match s {
        StmtModel::Call(callee, args) => match eval_args_model(args, scopes) {
            Ok(vs) => render_values(vs),
            Err(_) => Seq::empty(),
        },
        _ => Seq::empty(),
    }
}

/// A program of `print` statements whose arguments all evaluate runs to
/// completion and writes exactly one line per statement, in source
/// order, each line the rendered arguments of its statement.
pub proof fn lemma_prints_write_lines(ss: Seq<StmtModel>, st: StateModel)
    requires
        forall|i: int| 0 <= i < ss.len() ==> is_ok_print(#[trigger] ss[i], st.scopes),
    ensures
        step_stmts(ss, st).1 is None,
        step_stmts(ss, st).0.scopes == st.scopes,
        step_stmts(ss, st).0.output.len() == st.output.len() + ss.len(),
        forall|j: int|
            0 <= j < st.output.len() ==> step_stmts(ss, st).0.output[j] == st.output[j],
        forall|i: int|
            0 <= i < ss.len() ==> step_stmts(ss, st).0.output[st.output.len() + i]
                == print_line_of(ss[i], st.scopes),
    decreases ss,
{
    if ss.len() > 0 {
        assert(is_ok_print(ss[0], st.scopes));
        let (st1, err) = step_stmt(ss[0], st);
        assert(err is None);
        assert(st1.scopes == st.scopes);
        let rest = ss.subrange(1, ss.len() as int);
        assert(forall|i: int|
            0 <= i < rest.len() ==> is_ok_print(#[trigger] rest[i], st1.scopes) && rest[i]
                == ss[i + 1]);
        assert(st1.output == st.output.push(print_line_of(ss[0], st.scopes)));
        lemma_prints_write_lines(rest, st1);
        let post = step_stmts(ss, st).0;
        assert(step_stmts(ss, st) == step_stmts(rest, st1));
        assert forall|j: int| 0 <= j < st.output.len() implies post.output[j] == st.output[j] by {
            assert(post.output[j] == st1.output[j]);
        }
        assert forall|i: int|
            0 <= i < ss.len() implies post.output[st.output.len() + i] == print_line_of(
            ss[i],
            st.scopes,
        ) by {
            if i == 0 {
                assert(post.output[st.output.len() as int] == st1.output[st.output.len() as int]);
            } else {
                assert(rest[i - 1] == ss[i]);
                assert(post.output[st1.output.len() + (i - 1)] == print_line_of(
                    rest[i - 1],
                    st1.scopes,
                ));
                assert(st1.output.len() + (i - 1) == st.output.len() + i);
            }
        }
    }
}

} // verus!
