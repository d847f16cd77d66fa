use vstd::prelude::*;

use crate::ast::{
    expr_model, op_prec, op_text, stmt_model, stmts_model, AstTree, BinaryOperator, Expr,
    ExprModel, Stmt, StmtModel,
};
use crate::errors::{EgoError, ErrorModel};
use crate::lexer::{is_num_text, tokens_model, LexerToken, LexerTokenType, TokenModel};
use crate::text::{is_digit_char, str_eq};

verus! {

/// The token at a position; past the end it reads as end-of-input, so
/// every position has a well-defined token.
pub open spec fn peek(toks: Seq<TokenModel>, pos: int) -> TokenModel {
    if 0 <= pos < toks.len() {
        toks[pos]
    } else {
        TokenModel { kind: LexerTokenType::EndOfFile, text: Seq::empty() }
    }
}

/// The error an out-of-place token provokes: an `Unknown` token is a
/// lexical error, any other a syntax error, each carrying the token's
/// text.
pub open spec fn unexpected(t: TokenModel) -> ErrorModel {
    if t.kind == LexerTokenType::Unknown {
        ErrorModel::Lexical(t.text)
    } else {
        ErrorModel::Syntax(t.text)
    }
}

pub open spec fn digit_val(c: char) -> int {
    c as u32 - '0' as u32
}

/// The number a run of decimal digits denotes.
pub open spec fn num_of_text(text: Seq<char>) -> int
    decreases text.len(),
{
    if text.len() == 0 {
        0
    } else {
        num_of_text(text.drop_last()) * 10 + digit_val(text.last())
    }
}

proof fn lemma_num_nonneg(text: Seq<char>)
    requires
        forall|i: int| 0 <= i < text.len() ==> is_digit_char(#[trigger] text[i]),
    ensures
        num_of_text(text) >= 0,
    decreases text.len(),
{
    if text.len() > 0 {
        lemma_num_nonneg(text.drop_last());
    }
}

/// A longer digit prefix never denotes a smaller number.
proof fn lemma_num_mono(text: Seq<char>, i: int, j: int)
    requires
        forall|k: int| 0 <= k < text.len() ==> is_digit_char(#[trigger] text[k]),
        0 <= i <= j <= text.len(),
    ensures
        num_of_text(text.subrange(0, i)) <= num_of_text(text.subrange(0, j)),
    decreases j - i,
{
    if i < j {
        lemma_num_mono(text, i, j - 1);
        let pre = text.subrange(0, j);
        assert(pre.drop_last() =~= text.subrange(0, j - 1));
        lemma_num_nonneg(text.subrange(0, j - 1));
    }
}

/// The string-literal content between the delimiting quotes.
pub open spec fn strip_quotes(text: Seq<char>) -> Seq<char> {
    if text.len() >= 2 {
        text.subrange(1, text.len() - 1)
    } else {
        Seq::empty()
    }
}

/// The binary operator an operator token denotes; `=` is assignment,
/// not a binary operator.
pub open spec fn op_of_text(text: Seq<char>) -> Option<BinaryOperator> {
    if text == "+"@ {
        Some(BinaryOperator::Add)
    } else if text == "-"@ {
        Some(BinaryOperator::Subtract)
    } else if text == "*"@ {
        Some(BinaryOperator::Multiply)
    } else if text == "/"@ {
        Some(BinaryOperator::Divide)
    } else if text == "=="@ {
        Some(BinaryOperator::Equal)
    } else if text == "!="@ {
        Some(BinaryOperator::NotEqual)
    } else if text == "<"@ {
        Some(BinaryOperator::Less)
    } else if text == ">"@ {
        Some(BinaryOperator::Greater)
    } else if text == "<="@ {
        Some(BinaryOperator::LessEqual)
    } else if text == ">="@ {
        Some(BinaryOperator::GreaterEqual)
    } else if text == "&&"@ {
        Some(BinaryOperator::And)
    } else if text == "||"@ {
        Some(BinaryOperator::Or)
    } else {
        None
    }
}

/// The continuation position after a sub-parse: the position it
/// reported, kept inside the token sequence and forced forward by at
/// least one token, so that descent always advances.
pub open spec fn advance(toks: Seq<TokenModel>, pos: int, next: int) -> int {
    if pos + 1 > next {
        pos + 1
    } else if next <= toks.len() {
        next
    } else {
        toks.len() as int
    }
}

/// How many tokens remain at a position; none past the end.
pub open spec fn rem(toks: Seq<TokenModel>, pos: int) -> int {
    if pos <= toks.len() {
        toks.len() - pos
    } else {
        0
    }
}

pub open spec fn is_punct(t: TokenModel, text: Seq<char>) -> bool {
    t.kind == LexerTokenType::Punctuation && t.text == text
}

/// A literal, an identifier, or a parenthesized sub-expression.
pub open spec fn sp_primary(toks: Seq<TokenModel>, pos: int) -> Result<
    (ExprModel, int),
    ErrorModel,
>
    decreases rem(toks, pos), 0int,
{
    let t = peek(toks, pos);
    if t.kind == LexerTokenType::StringLiteral {
        Ok((ExprModel::StringLit(strip_quotes(t.text)), pos + 1))
    } else if t.kind == LexerTokenType::NumberLiteral {
        if is_num_text(t.text) && num_of_text(t.text) <= i64::MAX {
            Ok((ExprModel::NumberLit(num_of_text(t.text) as i64), pos + 1))
        } else {
            Err(ErrorModel::Syntax(t.text))
        }
    } else if t.kind == LexerTokenType::BooleanLiteral {
        Ok((ExprModel::Boolean(t.text == "true"@), pos + 1))
    } else if t.kind == LexerTokenType::Identifier {
        Ok((ExprModel::Identifier(t.text), pos + 1))
    } else if is_punct(t, "("@) {
        match sp_expr(toks, pos + 1, 1) {
            Err(e) => Err(e),
            Ok((inner, p)) => {
                let q = advance(toks, pos + 1, p);
                if is_punct(peek(toks, q), ")"@) {
                    Ok((ExprModel::Group(Box::new(inner)), q + 1))
                } else {
                    Err(unexpected(peek(toks, q)))
                }
            }
        }
    } else {
        Err(unexpected(t))
    }
}

/// Folds operators of at least the given precedence onto a parsed left
/// operand, left-associatively.
pub open spec fn sp_bin_rest(
    toks: Seq<TokenModel>,
    pos: int,
    lhs: ExprModel,
    min_prec: int,
) -> Result<(ExprModel, int), ErrorModel>
    decreases rem(toks, pos), 1int,
{
    let t = peek(toks, pos);
    if t.kind == LexerTokenType::Operator {
        match op_of_text(t.text) {
            Some(op) => if op_prec(op) >= min_prec {
                match sp_expr(toks, pos + 1, op_prec(op) + 1) {
                    Err(e) => Err(e),
                    Ok((rhs, p)) => sp_bin_rest(
                        toks,
                        advance(toks, pos + 1, p),
                        ExprModel::Binary(op, Box::new(lhs), Box::new(rhs)),
                        min_prec,
                    ),
                }
            } else {
                Ok((lhs, pos))
            },
            None => Ok((lhs, pos)),
        }
    } else {
        Ok((lhs, pos))
    }
}

/// An expression whose operators all bind at least as tightly as
/// `min_prec`: standard precedence climbing.
pub open spec fn sp_expr(toks: Seq<TokenModel>, pos: int, min_prec: int) -> Result<
    (ExprModel, int),
    ErrorModel,
>
    decreases rem(toks, pos), 2int,
{
    match sp_primary(toks, pos) {
        Err(e) => Err(e),
        Ok((lhs, p)) => sp_bin_rest(toks, advance(toks, pos, p), lhs, min_prec),
    }
}

/// One or more comma-separated call arguments.
pub open spec fn sp_args(toks: Seq<TokenModel>, pos: int) -> Result<
    (Seq<ExprModel>, int),
    ErrorModel,
>
    decreases rem(toks, pos), 3int,
{
    match sp_expr(toks, pos, 1) {
        Err(e) => Err(e),
        Ok((e0, p)) => {
            let q = advance(toks, pos, p);
            if is_punct(peek(toks, q), ","@) {
                match sp_args(toks, q + 1) {
                    Err(e) => Err(e),
                    Ok((rest, p2)) => Ok((seq![e0] + rest, p2)),
                }
            } else {
                Ok((seq![e0], q))
            }
        }
    }
}

/// A `{ statement* }` block.
pub open spec fn sp_block(toks: Seq<TokenModel>, pos: int) -> Result<
    (Seq<StmtModel>, int),
    ErrorModel,
>
    decreases rem(toks, pos), 4int,
{
    let t = peek(toks, pos);
    if is_punct(t, "{"@) {
        match sp_stmts(toks, pos + 1) {
            Err(e) => Err(e),
            Ok((ss, p)) => if is_punct(peek(toks, p), "}"@) {
                Ok((ss, p + 1))
            } else {
                Err(unexpected(peek(toks, p)))
            },
        }
    } else {
        Err(unexpected(t))
    }
}

/// One statement: a declaration, a conditional, a block, or a call.
pub open spec fn sp_stmt(toks: Seq<TokenModel>, pos: int) -> Result<(StmtModel, int), ErrorModel>
    decreases rem(toks, pos), 5int,
{
    let t = peek(toks, pos);
    if t.kind == LexerTokenType::Keyword && t.text == "let"@ {
        let ti = peek(toks, pos + 1);
        if ti.kind == LexerTokenType::Identifier {
            let te = peek(toks, pos + 2);
            if te.kind == LexerTokenType::Operator && te.text == "="@ {
                match sp_expr(toks, pos + 3, 1) {
                    Err(e) => Err(e),
                    Ok((init, p)) => {
                        let q = advance(toks, pos + 3, p);
                        if peek(toks, q).kind == LexerTokenType::EndOfStatement {
                            Ok((StmtModel::Decl(ti.text, init), q + 1))
                        } else {
                            Err(unexpected(peek(toks, q)))
                        }
                    }
                }
            } else {
                Err(unexpected(te))
            }
        } else {
            Err(unexpected(ti))
        }
    } else if t.kind == LexerTokenType::Keyword && t.text == "if"@ {
        let tp = peek(toks, pos + 1);
        if is_punct(tp, "("@) {
            match sp_expr(toks, pos + 2, 1) {
                Err(e) => Err(e),
                Ok((cond, p)) => {
                    let q = advance(toks, pos + 2, p);
                    if is_punct(peek(toks, q), ")"@) {
                        match sp_block(toks, q + 1) {
                            Err(e) => Err(e),
                            Ok((body, p2)) => Ok(
                                (StmtModel::If(ExprModel::Group(Box::new(cond)), body), p2),
                            ),
                        }
                    } else {
                        Err(unexpected(peek(toks, q)))
                    }
                }
            }
        } else {
            Err(unexpected(tp))
        }
    } else if is_punct(t, "{"@) {
        match sp_block(toks, pos) {
            Err(e) => Err(e),
            Ok((body, p)) => Ok((StmtModel::Block(body), p)),
        }
    } else if t.kind == LexerTokenType::Identifier || (t.kind == LexerTokenType::Keyword
        && t.text == "print"@) {
        let tp = peek(toks, pos + 1);
        if is_punct(tp, "("@) {
            match sp_args(toks, pos + 2) {
                Err(e) => Err(e),
                Ok((argsm, p)) => if is_punct(peek(toks, p), ")"@) {
                    if peek(toks, p + 1).kind == LexerTokenType::EndOfStatement {
                        Ok((StmtModel::Call(t.text, argsm), p + 2))
                    } else {
                        Err(unexpected(peek(toks, p + 1)))
                    }
                } else {
                    Err(unexpected(peek(toks, p)))
                },
            }
        } else {
            Err(unexpected(tp))
        }
    } else {
        Err(unexpected(t))
    }
}

/// Statements up to a closing brace or the end of input.
pub open spec fn sp_stmts(toks: Seq<TokenModel>, pos: int) -> Result<
    (Seq<StmtModel>, int),
    ErrorModel,
>
    decreases rem(toks, pos), 6int,
{
    let t = peek(toks, pos);
    if is_punct(t, "}"@) || t.kind == LexerTokenType::EndOfFile {
        Ok((Seq::empty(), pos))
    } else {
        match sp_stmt(toks, pos) {
            Err(e) => Err(e),
            Ok((s0, p)) => match sp_stmts(toks, advance(toks, pos, p)) {
                Err(e) => Err(e),
                Ok((rest, p2)) => Ok((seq![s0] + rest, p2)),
            },
        }
    }
}

/// What the parser produces for a token sequence: the program's
/// top-level statements, or the first lexical or syntax error.
pub open spec fn parse_spec(toks: Seq<TokenModel>) -> Result<Seq<StmtModel>, ErrorModel> {
    match sp_stmts(toks, 0) {
        Err(e) => Err(e),
        Ok((ss, p)) => if peek(toks, p).kind == LexerTokenType::EndOfFile {
            Ok(ss)
        } else {
            Err(unexpected(peek(toks, p)))
        },
    }
}

fn peek_clone(toks: &Vec<LexerToken>, pos: usize) -> (t: LexerToken)
    ensures
        t@ == peek(tokens_model(toks@), pos as int),
        t.token_type != LexerTokenType::EndOfFile ==> pos < toks@.len(),
{
    if pos < toks.len() {
        toks[pos].clone()
    } else {
        LexerToken { token_type: LexerTokenType::EndOfFile, value: String::new() }
    }
}

fn unexpected_err(t: LexerToken) -> (e: EgoError)
    ensures
        e@ == unexpected(t@),
{
    match t.token_type {
        LexerTokenType::Unknown => EgoError::LexicalError(t.value),
        _ => EgoError::SyntaxError(t.value),
    }
}

fn op_of_token(text: &str) -> (r: Option<BinaryOperator>)
    ensures
        r == op_of_text(text@),
{
    if str_eq(text, "+") {
        Some(BinaryOperator::Add)
    } else if str_eq(text, "-") {
        Some(BinaryOperator::Subtract)
    } else if str_eq(text, "*") {
        Some(BinaryOperator::Multiply)
    } else if str_eq(text, "/") {
        Some(BinaryOperator::Divide)
    } else if str_eq(text, "==") {
        Some(BinaryOperator::Equal)
    } else if str_eq(text, "!=") {
        Some(BinaryOperator::NotEqual)
    } else if str_eq(text, "<") {
        Some(BinaryOperator::Less)
    } else if str_eq(text, ">") {
        Some(BinaryOperator::Greater)
    } else if str_eq(text, "<=") {
        Some(BinaryOperator::LessEqual)
    } else if str_eq(text, ">=") {
        Some(BinaryOperator::GreaterEqual)
    } else if str_eq(text, "&&") {
        Some(BinaryOperator::And)
    } else if str_eq(text, "||") {
        Some(BinaryOperator::Or)
    } else {
        None
    }
}

fn op_prec_exec(op: BinaryOperator) -> (p: u32)
    ensures
        p as int == op_prec(op),
        1 <= p <= 6,
{
    match op {
        BinaryOperator::Or => 1,
        BinaryOperator::And => 2,
        BinaryOperator::Equal => 3,
        BinaryOperator::NotEqual => 3,
        BinaryOperator::Less => 4,
        BinaryOperator::Greater => 4,
        BinaryOperator::LessEqual => 4,
        BinaryOperator::GreaterEqual => 4,
        BinaryOperator::Add => 5,
        BinaryOperator::Subtract => 5,
        BinaryOperator::Multiply => 6,
        BinaryOperator::Divide => 6,
    }
}

/// Decodes a digit run to the one numeric kind; a run denoting more
/// than the kind can hold is refused.
fn parse_num_text(s: &str) -> (r: Option<i64>)
    requires
        is_num_text(s@),
    ensures
        r matches Some(v) ==> num_of_text(s@) <= i64::MAX && v as int == num_of_text(s@),
        r is None ==> num_of_text(s@) > i64::MAX,
{
    let n = s.unicode_len();
    let mut acc: i64 = 0;
    let mut i: usize = 0;
    proof {
        assert(s@.subrange(0, 0) =~= Seq::<char>::empty());
    }
    while i < n
        invariant
            i <= n,
            n == s@.len(),
            is_num_text(s@),
            acc >= 0,
            acc as int == num_of_text(s@.subrange(0, i as int)),
        decreases n - i,
    {
        let c = s.get_char(i);
        let d: i64 = ((c as u32) - ('0' as u32)) as i64;
        proof {
            assert(is_digit_char(s@[i as int]));
            assert(0 <= d <= 9);
            assert(s@.subrange(0, i + 1 as int).drop_last() =~= s@.subrange(0, i as int));
            assert(s@.subrange(0, i + 1 as int).last() == s@[i as int]);
        }
        let step = match acc.checked_mul(10) {
            Some(m) => m.checked_add(d),
            None => None,
        };
        match step {
            Some(next) => {
                acc = next;
            }
            None => {
                proof {
                    assert(num_of_text(s@.subrange(0, i + 1 as int)) > i64::MAX);
                    lemma_num_mono(s@, i + 1 as int, n as int);
                    assert(s@.subrange(0, n as int) =~= s@);
                }
                return None;
            }
        }
        i += 1;
    }
    proof {
        assert(s@.subrange(0, n as int) =~= s@);
    }
    Some(acc)
}

/// The string-literal content of a token, quotes stripped.
fn strip_quotes_exec(text: &str) -> (r: String)
    ensures
        r@ == strip_quotes(text@),
{
    let n = text.unicode_len();
    if n >= 2 {
        text.substring_char(1, n - 1).to_owned()
    } else {
        String::new()
    }
}

fn parse_primary(toks: &Vec<LexerToken>, pos: usize) -> (r: Result<(Expr, usize), EgoError>)
    requires
        pos <= toks@.len(),
    ensures
        r matches Ok((e, p)) ==> sp_primary(tokens_model(toks@), pos as int) == Ok::<
            (ExprModel, int),
            ErrorModel,
        >((expr_model(e), p as int)) && pos < p <= toks@.len(),
        r matches Err(e) ==> sp_primary(tokens_model(toks@), pos as int) == Err::<
            (ExprModel, int),
            ErrorModel,
        >(e@),
    decreases toks@.len() - pos, 0int,
{
    let n_toks = toks.len();
    proof {
        assert(n_toks == toks@.len());
    }
    let t = peek_clone(toks, pos);
    match t.token_type {
        LexerTokenType::StringLiteral => {
            let content = strip_quotes_exec(t.value.as_str());
            Ok((Expr::StringLiteral(content), pos + 1))
        }
        LexerTokenType::NumberLiteral => {
            if crate::lexer::is_num_str(t.value.as_str()) {
                match parse_num_text(t.value.as_str()) {
                    Some(v) => Ok((Expr::NumberLiteral(v), pos + 1)),
                    None => Err(EgoError::SyntaxError(t.value)),
                }
            } else {
                Err(EgoError::SyntaxError(t.value))
            }
        }
        LexerTokenType::BooleanLiteral => {
            let b = str_eq(t.value.as_str(), "true");
            Ok((Expr::Boolean(b), pos + 1))
        }
        LexerTokenType::Identifier => Ok((Expr::Identifier(t.value), pos + 1)),
        LexerTokenType::Punctuation => {
            if str_eq(t.value.as_str(), "(") {
                match parse_expr(toks, pos + 1, 1) {
                    Err(e) => Err(e),
                    Ok((inner, p)) => {
                        let close = peek_clone(toks, p);
                        if close.token_type == LexerTokenType::Punctuation && str_eq(
                            close.value.as_str(),
                            ")",
                        ) {
                            Ok((Expr::Group(Box::new(inner)), p + 1))
                        } else {
                            Err(unexpected_err(close))
                        }
                    }
                }
            } else {
                Err(unexpected_err(t))
            }
        }
        _ => Err(unexpected_err(t)),
    }
}

fn parse_bin_rest(
    toks: &Vec<LexerToken>,
    pos: usize,
    lhs: Expr,
    min_prec: u32,
) -> (r: Result<(Expr, usize), EgoError>)
    requires
        pos <= toks@.len(),
    ensures
        r matches Ok((e, p)) ==> sp_bin_rest(
            tokens_model(toks@),
            pos as int,
            expr_model(lhs),
            min_prec as int,
        ) == Ok::<(ExprModel, int), ErrorModel>((expr_model(e), p as int)) && pos <= p
            <= toks@.len(),
        r matches Err(e) ==> sp_bin_rest(
            tokens_model(toks@),
            pos as int,
            expr_model(lhs),
            min_prec as int,
        ) == Err::<(ExprModel, int), ErrorModel>(e@),
    decreases toks@.len() - pos, 1int,
{
    let n_toks = toks.len();
    proof {
        assert(n_toks == toks@.len());
    }
    let t = peek_clone(toks, pos);
    if t.token_type == LexerTokenType::Operator {
        match op_of_token(t.value.as_str()) {
            Some(op) => {
                let prec = op_prec_exec(op);
                if prec >= min_prec {
                    match parse_expr(toks, pos + 1, prec + 1) {
                        Err(e) => Err(e),
                        Ok((rhs, p)) => parse_bin_rest(
                            toks,
                            p,
                            Expr::Binary(op, Box::new(lhs), Box::new(rhs)),
                            min_prec,
                        ),
                    }
                } else {
                    Ok((lhs, pos))
                }
            }
            None => Ok((lhs, pos)),
        }
    } else {
        Ok((lhs, pos))
    }
}

fn parse_expr(toks: &Vec<LexerToken>, pos: usize, min_prec: u32) -> (r: Result<
    (Expr, usize),
    EgoError,
>)
    requires
        pos <= toks@.len(),
    ensures
        r matches Ok((e, p)) ==> sp_expr(tokens_model(toks@), pos as int, min_prec as int)
            == Ok::<(ExprModel, int), ErrorModel>((expr_model(e), p as int)) && pos < p
            <= toks@.len(),
        r matches Err(e) ==> sp_expr(tokens_model(toks@), pos as int, min_prec as int) == Err::<
            (ExprModel, int),
            ErrorModel,
        >(e@),
    decreases toks@.len() - pos, 2int,
{
    match parse_primary(toks, pos) {
        Err(e) => Err(e),
        Ok((lhs, p)) => parse_bin_rest(toks, p, lhs, min_prec),
    }
}

fn parse_args(toks: &Vec<LexerToken>, pos: usize) -> (r: Result<(Vec<Expr>, usize), EgoError>)
    requires
        pos <= toks@.len(),
    ensures
        r matches Ok((es, p)) ==> sp_args(tokens_model(toks@), pos as int) == Ok::<
            (Seq<ExprModel>, int),
            ErrorModel,
        >((crate::ast::exprs_model(es@), p as int)) && pos < p <= toks@.len(),
        r matches Err(e) ==> sp_args(tokens_model(toks@), pos as int) == Err::<
            (Seq<ExprModel>, int),
            ErrorModel,
        >(e@),
    decreases toks@.len() - pos, 3int,
{
    let n_toks = toks.len();
    proof {
        assert(n_toks == toks@.len());
    }
    match parse_expr(toks, pos, 1) {
        Err(e) => Err(e),
        Ok((e0, p)) => {
            let t = peek_clone(toks, p);
            if t.token_type == LexerTokenType::Punctuation && str_eq(t.value.as_str(), ",") {
                match parse_args(toks, p + 1) {
                    Err(e) => Err(e),
                    Ok((mut rest, p2)) => {
                        let ghost prev = rest@;
                        let ghost restm = crate::ast::exprs_model(prev);
                        let ghost e0m = expr_model(e0);
                        rest.insert(0, e0);
                        proof {
                            crate::ast::lemma_exprs_model_len(rest@);
                            crate::ast::lemma_exprs_model_len(prev);
                            assert forall|k: int|
                                0 <= k < rest@.len() implies #[trigger] crate::ast::exprs_model(
                                rest@,
                            )[k] == (seq![e0m] + restm)[k] by {
                                crate::ast::lemma_exprs_model_index(rest@, k);
                                if k > 0 {
                                    crate::ast::lemma_exprs_model_index(prev, k - 1);
                                }
                            }
                            assert(crate::ast::exprs_model(rest@) =~= seq![e0m] + restm);
                        }
                        Ok((rest, p2))
                    }
                }
            } else {
                let ghost e0m = expr_model(e0);
                let mut one: Vec<Expr> = Vec::new();
                one.push(e0);
                proof {
                    assert(one@.drop_last() =~= Seq::<Expr>::empty());
                    assert(one@.last() == e0);
                    crate::ast::lemma_exprs_model_len(one@);
                    assert(crate::ast::exprs_model(one@) =~= seq![e0m]);
                }
                Ok((one, p))
            }
        }
    }
}


fn parse_block(toks: &Vec<LexerToken>, pos: usize) -> (r: Result<(Vec<Stmt>, usize), EgoError>)
    requires
        pos <= toks@.len(),
    ensures
        r matches Ok((ss, p)) ==> sp_block(tokens_model(toks@), pos as int) == Ok::<
            (Seq<StmtModel>, int),
            ErrorModel,
        >((stmts_model(ss@), p as int)) && pos < p <= toks@.len(),
        r matches Err(e) ==> sp_block(tokens_model(toks@), pos as int) == Err::<
            (Seq<StmtModel>, int),
            ErrorModel,
        >(e@),
    decreases toks@.len() - pos, 4int,
{
    let n_toks = toks.len();
    proof {
        assert(n_toks == toks@.len());
    }
    let t = peek_clone(toks, pos);
    if t.token_type == LexerTokenType::Punctuation && str_eq(t.value.as_str(), "{") {
        match parse_stmts(toks, pos + 1) {
            Err(e) => Err(e),
            Ok((ss, p)) => {
                let close = peek_clone(toks, p);
                if close.token_type == LexerTokenType::Punctuation && str_eq(
                    close.value.as_str(),
                    "}",
                ) {
                    Ok((ss, p + 1))
                } else {
                    Err(unexpected_err(close))
                }
            }
        }
    } else {
        Err(unexpected_err(t))
    }
}

fn parse_stmt(toks: &Vec<LexerToken>, pos: usize) -> (r: Result<(Stmt, usize), EgoError>)
    requires
        pos <= toks@.len(),
    ensures
        r matches Ok((s, p)) ==> sp_stmt(tokens_model(toks@), pos as int) == Ok::<
            (StmtModel, int),
            ErrorModel,
        >((stmt_model(s), p as int)) && pos < p <= toks@.len(),
        r matches Err(e) ==> sp_stmt(tokens_model(toks@), pos as int) == Err::<
            (StmtModel, int),
            ErrorModel,
        >(e@),
    decreases toks@.len() - pos, 5int,
{
    let n_toks = toks.len();
    proof {
        assert(n_toks == toks@.len());
    }
    let t = peek_clone(toks, pos);
    if t.token_type == LexerTokenType::Keyword && str_eq(t.value.as_str(), "let") {
        let ti = peek_clone(toks, pos + 1);
        if ti.token_type == LexerTokenType::Identifier {
            let te = peek_clone(toks, pos + 2);
            if te.token_type == LexerTokenType::Operator && str_eq(te.value.as_str(), "=") {
                match parse_expr(toks, pos + 3, 1) {
                    Err(e) => Err(e),
                    Ok((init, p)) => {
                        let close = peek_clone(toks, p);
                        if close.token_type == LexerTokenType::EndOfStatement {
                            Ok((Stmt::VariableDeclaration(ti.value, init), p + 1))
                        } else {
                            Err(unexpected_err(close))
                        }
                    }
                }
            } else {
                Err(unexpected_err(te))
            }
        } else {
            Err(unexpected_err(ti))
        }
    } else if t.token_type == LexerTokenType::Keyword && str_eq(t.value.as_str(), "if") {
        let tp = peek_clone(toks, pos + 1);
        if tp.token_type == LexerTokenType::Punctuation && str_eq(tp.value.as_str(), "(") {
            match parse_expr(toks, pos + 2, 1) {
                Err(e) => Err(e),
                Ok((cond, p)) => {
                    let close = peek_clone(toks, p);
                    if close.token_type == LexerTokenType::Punctuation && str_eq(
                        close.value.as_str(),
                        ")",
                    ) {
                        match parse_block(toks, p + 1) {
                            Err(e) => Err(e),
                            Ok((body, p2)) => Ok(
                                (Stmt::IfStatement(Expr::Group(Box::new(cond)), body), p2),
                            ),
                        }
                    } else {
                        Err(unexpected_err(close))
                    }
                }
            }
        } else {
            Err(unexpected_err(tp))
        }
    } else if t.token_type == LexerTokenType::Punctuation && str_eq(t.value.as_str(), "{") {
        match parse_block(toks, pos) {
            Err(e) => Err(e),
            Ok((body, p)) => Ok((Stmt::Block(body), p)),
        }
    } else if t.token_type == LexerTokenType::Identifier || (t.token_type
        == LexerTokenType::Keyword && str_eq(t.value.as_str(), "print")) {
        let tp = peek_clone(toks, pos + 1);
        if tp.token_type == LexerTokenType::Punctuation && str_eq(tp.value.as_str(), "(") {
            match parse_args(toks, pos + 2) {
                Err(e) => Err(e),
                Ok((args, p)) => {
                    let close = peek_clone(toks, p);
                    if close.token_type == LexerTokenType::Punctuation && str_eq(
                        close.value.as_str(),
                        ")",
                    ) {
                        let semi = peek_clone(toks, p + 1);
                        if semi.token_type == LexerTokenType::EndOfStatement {
                            Ok((Stmt::FunctionCall(t.value, args), p + 2))
                        } else {
                            Err(unexpected_err(semi))
                        }
                    } else {
                        Err(unexpected_err(close))
                    }
                }
            }
        } else {
            Err(unexpected_err(tp))
        }
    } else {
        Err(unexpected_err(t))
    }
}

fn parse_stmts(toks: &Vec<LexerToken>, pos: usize) -> (r: Result<(Vec<Stmt>, usize), EgoError>)
    requires
        pos <= toks@.len(),
    ensures
        r matches Ok((ss, p)) ==> sp_stmts(tokens_model(toks@), pos as int) == Ok::<
            (Seq<StmtModel>, int),
            ErrorModel,
        >((stmts_model(ss@), p as int)) && pos <= p <= toks@.len(),
        r matches Err(e) ==> sp_stmts(tokens_model(toks@), pos as int) == Err::<
            (Seq<StmtModel>, int),
            ErrorModel,
        >(e@),
    decreases toks@.len() - pos, 6int,
{
    let n_toks = toks.len();
    proof {
        assert(n_toks == toks@.len());
    }
    let t = peek_clone(toks, pos);
    if (t.token_type == LexerTokenType::Punctuation && str_eq(t.value.as_str(), "}"))
        || t.token_type == LexerTokenType::EndOfFile {
        let empty_vec: Vec<Stmt> = Vec::new();
        proof {
            assert(stmts_model(empty_vec@) =~= Seq::<StmtModel>::empty());
        }
        Ok((empty_vec, pos))
    } else {
        match parse_stmt(toks, pos) {
            Err(e) => Err(e),
            Ok((s0, p)) => match parse_stmts(toks, p) {
                Err(e) => Err(e),
                Ok((mut rest, p2)) => {
                    let ghost prev = rest@;
                    let ghost restm = stmts_model(prev);
                    let ghost s0m = stmt_model(s0);
                    rest.insert(0, s0);
                    proof {
                        crate::ast::lemma_stmts_model_len(rest@);
                        crate::ast::lemma_stmts_model_len(prev);
                        assert forall|k: int|
                            0 <= k < rest@.len() implies #[trigger] stmts_model(rest@)[k] == (
                        seq![s0m] + restm)[k] by {
                            crate::ast::lemma_stmts_model_index(rest@, k);
                            if k > 0 {
                                crate::ast::lemma_stmts_model_index(prev, k - 1);
                            }
                        }
                        assert(stmts_model(rest@) =~= seq![s0m] + restm);
                    }
                    Ok((rest, p2))
                }
            },
        }
    }
}

/// Consumes the token sequence and produces the program's AST, or the
/// first lexical or syntax error. Structural checks only: undeclared
/// names and type mismatches are the interpreter's business.
pub fn parse(tokens: Vec<LexerToken>) -> (r: Result<AstTree, EgoError>)
    ensures
        r matches Ok(ast) ==> parse_spec(tokens_model(tokens@)) == Ok::<
            Seq<StmtModel>,
            ErrorModel,
        >(stmts_model(ast.root@)),
        r matches Err(e) ==> parse_spec(tokens_model(tokens@)) == Err::<
            Seq<StmtModel>,
            ErrorModel,
        >(e@),
{
    match parse_stmts(&tokens, 0) {
        Err(e) => Err(e),
        Ok((ss, p)) => {
            let t = peek_clone(&tokens, p);
            if t.token_type == LexerTokenType::EndOfFile {
                Ok(AstTree { root: ss })
            } else {
                Err(unexpected_err(t))
            }
        }
    }
}

} // verus!
