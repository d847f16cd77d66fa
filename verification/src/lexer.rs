use vstd::prelude::*;

use crate::text::{is_alpha_char, is_digit_char, push_char, str_eq};

verus! {

/// The classification of one token.
#[derive(Clone, Copy, Debug, PartialEq, Eq, Structural)]
pub enum LexerTokenType {
    /// `print`, `let` or `if`.
    Keyword,
    Identifier,
    /// Quoted text, delimiting quotes included in the token's text.
    StringLiteral,
    /// A run of decimal digits.
    NumberLiteral,
    /// `true` or `false`.
    BooleanLiteral,
    /// One of the binary or assignment operators.
    Operator,
    /// A single parenthesis, brace or comma.
    Punctuation,
    /// A `;` outside a string.
    EndOfStatement,
    /// Appended once after the last token of the input.
    EndOfFile,
    /// An unrecognized character run or an unterminated string; the
    /// parser rejects it, the lexer never fails.
    Unknown,
}

/// The mathematical model of a token: its kind and its text.
pub struct TokenModel {
    pub kind: LexerTokenType,
    pub text: Seq<char>,
}

/// The smallest classified unit of source text.
#[derive(Debug)]
pub struct LexerToken {
    pub token_type: LexerTokenType,
    pub value: String,
}

impl View for LexerToken {
    type V = TokenModel;

    open spec fn view(&self) -> TokenModel {
        TokenModel { kind: self.token_type, text: self.value@ }
    }
}

impl Clone for LexerToken {
    fn clone(&self) -> (r: LexerToken)
        ensures
            r@ == self@,
    {
        LexerToken { token_type: self.token_type, value: self.value.clone() }
    }
}

impl PartialEq for LexerToken {
    fn eq(&self, other: &LexerToken) -> (r: bool) {
        self.token_type == other.token_type && str_eq(self.value.as_str(), other.value.as_str())
    }
}

impl vstd::std_specs::cmp::PartialEqSpecImpl for LexerToken {
    open spec fn obeys_eq_spec() -> bool {
        true
    }

    open spec fn eq_spec(&self, other: &LexerToken) -> bool {
        self@ == other@
    }
}

/// The model of a sequence of tokens.
pub open spec fn tokens_model(tokens: Seq<LexerToken>) -> Seq<TokenModel> {
    tokens.map_values(|t: LexerToken| t@)
}

pub open spec fn is_num_text(text: Seq<char>) -> bool {
    text.len() > 0 && forall|i: int| 0 <= i < text.len() ==> is_digit_char(#[trigger] text[i])
}

pub open spec fn is_op_text(text: Seq<char>) -> bool {
    ||| text == "="@
    ||| text == "+"@
    ||| text == "-"@
    ||| text == "*"@
    ||| text == "/"@
    ||| text == "=="@
    ||| text == "!="@
    ||| text == "<"@
    ||| text == ">"@
    ||| text == "<="@
    ||| text == ">="@
    ||| text == "&&"@
    ||| text == "||"@
}

pub open spec fn is_ident_start(c: char) -> bool {
    is_alpha_char(c) || c == '_'
}

pub open spec fn is_ident_text(text: Seq<char>) -> bool {
    &&& text.len() > 0
    &&& is_ident_start(text[0])
    &&& forall|i: int|
        0 <= i < text.len() ==> is_ident_start(#[trigger] text[i]) || is_digit_char(text[i])
}

/// How a buffered character run is classified once a terminator ends it.
pub open spec fn classify(text: Seq<char>) -> LexerTokenType {
    if text.len() >= 2 && text[0] == '"' && text.last() == '"' {
        LexerTokenType::StringLiteral
    } else if text == "print"@ || text == "let"@ || text == "if"@ {
        LexerTokenType::Keyword
    } else if text == "true"@ || text == "false"@ {
        LexerTokenType::BooleanLiteral
    } else if is_num_text(text) {
        LexerTokenType::NumberLiteral
    } else if is_op_text(text) {
        LexerTokenType::Operator
    } else if is_ident_text(text) {
        LexerTokenType::Identifier
    } else {
        LexerTokenType::Unknown
    }
}

/// The lexer's state after some prefix of the input: the tokens emitted
/// so far, the pending character run, and whether the scan stands inside
/// a string literal or a line comment.
pub struct LexStateModel {
    pub tokens: Seq<TokenModel>,
    pub buf: Seq<char>,
    pub in_string: bool,
    pub in_comment: bool,
}

pub open spec fn lex_init() -> LexStateModel {
    LexStateModel {
        tokens: Seq::empty(),
        buf: Seq::empty(),
        in_string: false,
        in_comment: false,
    }
}

/// Emits the pending run, classified, unless it is empty.
pub open spec fn flush_model(tokens: Seq<TokenModel>, buf: Seq<char>) -> Seq<TokenModel> {
    if buf.len() == 0 {
        tokens
    } else {
        tokens.push(TokenModel { kind: classify(buf), text: buf })
    }
}

pub open spec fn is_space_char(c: char) -> bool {
    c == ' ' || c == '\t' || c == '\n'
}

pub open spec fn is_punct_char(c: char) -> bool {
    c == '(' || c == ')' || c == '{' || c == '}' || c == ','
}

/// One step of the scan: how a single character moves the lexer's state.
pub open spec fn lex_step(st: LexStateModel, c: char) -> LexStateModel {
    if st.in_comment {
        if c == '\n' {
            LexStateModel { in_comment: false, ..st }
        } else {
            st
        }
    } else if st.in_string {
        if c == '"' {
            LexStateModel {
                tokens: st.tokens.push(
                    TokenModel { kind: LexerTokenType::StringLiteral, text: st.buf.push('"') },
                ),
                buf: Seq::empty(),
                in_string: false,
                in_comment: false,
            }
        } else {
            LexStateModel { buf: st.buf.push(c), ..st }
        }
    } else if c == '"' {
        LexStateModel {
            tokens: flush_model(st.tokens, st.buf),
            buf: seq!['"'],
            in_string: true,
            in_comment: false,
        }
    } else if c == ';' {
        LexStateModel {
            tokens: flush_model(st.tokens, st.buf).push(
                TokenModel { kind: LexerTokenType::EndOfStatement, text: ";"@ },
            ),
            buf: Seq::empty(),
            in_string: false,
            in_comment: false,
        }
    } else if is_punct_char(c) {
        LexStateModel {
            tokens: flush_model(st.tokens, st.buf).push(
                TokenModel { kind: LexerTokenType::Punctuation, text: seq![c] },
            ),
            buf: Seq::empty(),
            in_string: false,
            in_comment: false,
        }
    } else if is_space_char(c) {
        LexStateModel {
            tokens: flush_model(st.tokens, st.buf),
            buf: Seq::empty(),
            in_string: false,
            in_comment: false,
        }
    } else if c == '/' && st.buf == "/"@ {
        LexStateModel { tokens: st.tokens, buf: Seq::empty(), in_string: false, in_comment: true }
    } else {
        LexStateModel { buf: st.buf.push(c), ..st }
    }
}

/// The lexer's state after scanning a character sequence from a given
/// starting state.
pub open spec fn lex_fold_from(cs: Seq<char>, st: LexStateModel) -> LexStateModel
    decreases cs.len(),
{
    if cs.len() == 0 {
        st
    } else {
        lex_step(lex_fold_from(cs.drop_last(), st), cs.last())
    }
}

/// The lexer's state after scanning a whole character sequence.
pub open spec fn lex_fold(cs: Seq<char>) -> LexStateModel {
    lex_fold_from(cs, lex_init())
}

/// End of input: a pending string is unterminated and surfaces as an
/// `Unknown` token; any other pending run is flushed; one `EndOfFile`
/// token closes the sequence, so the last token is never dropped.
pub open spec fn finalize_model(st: LexStateModel) -> Seq<TokenModel> {
    (if st.in_string {
        st.tokens.push(TokenModel { kind: LexerTokenType::Unknown, text: st.buf })
    } else {
        flush_model(st.tokens, st.buf)
    }).push(TokenModel { kind: LexerTokenType::EndOfFile, text: Seq::empty() })
}

/// The token sequence the lexer produces for a source text. The lexer is
/// total: every input yields a token sequence and the last token is
/// always `EndOfFile`.
pub open spec fn lex_spec(cs: Seq<char>) -> Seq<TokenModel> {
    finalize_model(lex_fold(cs))
}

pub fn is_num_str(s: &str) -> (r: bool)
    ensures
        r == is_num_text(s@),
{
    let n = s.unicode_len();
    if n == 0 {
        return false;
    }
    let mut i: usize = 0;
    while i < n
        invariant
            i <= n,
            n == s@.len(),
            forall|j: int| 0 <= j < i ==> is_digit_char(#[trigger] s@[j]),
        decreases n - i,
    {
        let c = s.get_char(i);
        if !(('0' as u32) <= (c as u32) && (c as u32) <= ('9' as u32)) {
            return false;
        }
        i += 1;
    }
    true
}

fn is_op_str(s: &str) -> (r: bool)
    ensures
        r == is_op_text(s@),
{
    str_eq(s, "=") || str_eq(s, "+") || str_eq(s, "-") || str_eq(s, "*") || str_eq(s, "/")
        || str_eq(s, "==") || str_eq(s, "!=") || str_eq(s, "<") || str_eq(s, ">") || str_eq(
        s,
        "<=",
    ) || str_eq(s, ">=") || str_eq(s, "&&") || str_eq(s, "||")
}

fn is_ident_start_char(c: char) -> (r: bool)
    ensures
        r == is_ident_start(c),
{
    (('a' as u32) <= (c as u32) && (c as u32) <= ('z' as u32)) || (('A' as u32) <= (c as u32) && (c
        as u32) <= ('Z' as u32)) || c == '_'
}

fn is_ident_str(s: &str) -> (r: bool)
    ensures
        r == is_ident_text(s@),
{
    let n = s.unicode_len();
    if n == 0 {
        return false;
    }
    if !is_ident_start_char(s.get_char(0)) {
        return false;
    }
    let mut i: usize = 0;
    while i < n
        invariant
            i <= n,
            n == s@.len(),
            is_ident_start(s@[0]),
            forall|j: int|
                0 <= j < i ==> is_ident_start(#[trigger] s@[j]) || is_digit_char(s@[j]),
        decreases n - i,
    {
        let c = s.get_char(i);
        if !(is_ident_start_char(c) || (('0' as u32) <= (c as u32) && (c as u32) <= ('9'
            as u32))) {
            return false;
        }
        i += 1;
    }
    true
}

/// Classifies a finished character run and wraps it as a token.
pub fn token_with_type(token: String) -> (t: LexerToken)
    ensures
        t@ == (TokenModel { kind: classify(token@), text: token@ }),
{
    let s = token.as_str();
    let n = s.unicode_len();
    let kind = if n >= 2 && s.get_char(0) == '"' && s.get_char(n - 1) == '"' {
        LexerTokenType::StringLiteral
    } else if str_eq(s, "print") || str_eq(s, "let") || str_eq(s, "if") {
        LexerTokenType::Keyword
    } else if str_eq(s, "true") || str_eq(s, "false") {
        LexerTokenType::BooleanLiteral
    } else if is_num_str(s) {
        LexerTokenType::NumberLiteral
    } else if is_op_str(s) {
        LexerTokenType::Operator
    } else if is_ident_str(s) {
        LexerTokenType::Identifier
    } else {
        LexerTokenType::Unknown
    };
    LexerToken { token_type: kind, value: token }
}

/// Emits the pending run, classified, and empties the buffer.
fn flush_pending(tokens: &mut Vec<LexerToken>, current: &mut String)
    ensures
        tokens_model(final(tokens)@) == flush_model(
            tokens_model(old(tokens)@),
            old(current)@,
        ),
        final(current)@ == Seq::<char>::empty(),
{
    if !current.as_str().is_empty() {
        let owned = current.clone();
        *current = String::new();
        let t = token_with_type(owned);
        tokens.push(t);
        proof {
            assert(tokens_model(tokens@) =~= flush_model(
                tokens_model(old(tokens)@),
                old(current)@,
            ));
        }
    }
}

/// Converts raw source text into an ordered token sequence in one
/// left-to-right scan. Total over any input: lexical trouble surfaces as
/// `Unknown` tokens, never as a failure.
pub fn lex(source: String) -> (tokens: Vec<LexerToken>)
    ensures
        tokens_model(tokens@) == lex_spec(source@),
{
    let src = source.as_str();
    let n = src.unicode_len();
    let mut tokens: Vec<LexerToken> = Vec::new();
    let mut current_token = String::new();
    let mut is_string = false;
    let mut is_comment = false;
    let mut i: usize = 0;
    proof {
        assert(source@.subrange(0, 0) =~= Seq::<char>::empty());
        assert(tokens_model(tokens@) =~= Seq::<TokenModel>::empty());
    }
    while i < n
        invariant
            i <= n,
            n == source@.len(),
            src@ == source@,
            tokens_model(tokens@) == lex_fold(source@.subrange(0, i as int)).tokens,
            current_token@ == lex_fold(source@.subrange(0, i as int)).buf,
            is_string == lex_fold(source@.subrange(0, i as int)).in_string,
            is_comment == lex_fold(source@.subrange(0, i as int)).in_comment,
        decreases n - i,
    {
        let c = src.get_char(i);
        proof {
            assert(source@.subrange(0, i + 1 as int).drop_last() =~= source@.subrange(
                0,
                i as int,
            ));
            assert(source@.subrange(0, i + 1 as int).last() == source@[i as int]);
        }
        if is_comment {
            if c == '\n' {
                is_comment = false;
            }
        } else if is_string {
            if c == '"' {
                push_char(&mut current_token, '"');
                tokens.push(
                    LexerToken {
                        token_type: LexerTokenType::StringLiteral,
                        value: current_token,
                    },
                );
                current_token = String::new();
                is_string = false;
                proof {
                    assert(tokens_model(tokens@) =~= lex_fold(
                        source@.subrange(0, i + 1 as int),
                    ).tokens);
                }
            } else {
                push_char(&mut current_token, c);
            }
        } else if c == '"' {
            flush_pending(&mut tokens, &mut current_token);
            push_char(&mut current_token, '"');
            is_string = true;
            proof {
                assert(current_token@ =~= seq!['"']);
            }
        } else if c == ';' {
            flush_pending(&mut tokens, &mut current_token);
            tokens.push(
                LexerToken {
                    token_type: LexerTokenType::EndOfStatement,
                    value: String::from_str(";"),
                },
            );
            proof {
                assert(tokens_model(tokens@) =~= lex_fold(
                    source@.subrange(0, i + 1 as int),
                ).tokens);
            }
        } else if c == '(' || c == ')' || c == '{' || c == '}' || c == ',' {
            flush_pending(&mut tokens, &mut current_token);
            let mut p = String::new();
            push_char(&mut p, c);
            proof {
                assert(p@ =~= seq![c]);
            }
            tokens.push(LexerToken { token_type: LexerTokenType::Punctuation, value: p });
            proof {
                assert(tokens_model(tokens@) =~= lex_fold(
                    source@.subrange(0, i + 1 as int),
                ).tokens);
            }
        } else if c == ' ' || c == '\t' || c == '\n' {
            flush_pending(&mut tokens, &mut current_token);
        } else if c == '/' && str_eq(current_token.as_str(), "/") {
            current_token = String::new();
            is_comment = true;
        } else {
            push_char(&mut current_token, c);
        }
        i += 1;
    }
    proof {
        assert(source@.subrange(0, n as int) =~= source@);
    }
    if is_string {
        tokens.push(LexerToken { token_type: LexerTokenType::Unknown, value: current_token });
        proof {
            assert(tokens_model(tokens@) =~= lex_fold(source@).tokens.push(
                TokenModel { kind: LexerTokenType::Unknown, text: lex_fold(source@).buf },
            ));
        }
    } else {
        flush_pending(&mut tokens, &mut current_token);
    }
    tokens.push(LexerToken { token_type: LexerTokenType::EndOfFile, value: String::new() });
    proof {
        assert(tokens_model(tokens@) =~= lex_spec(source@));
    }
    tokens
}


/// Tokens re-rendered as text: each token's text followed by one space,
/// which a fresh scan tokenizes back to the same sequence.
pub open spec fn render_tokens_model(toks: Seq<TokenModel>) -> Seq<char>
    decreases toks.len(),
{
    if toks.len() == 0 {
        Seq::empty()
    } else {
        render_tokens_model(toks.drop_last()) + toks.last().text + " "@
    }
}

/// Renders a token sequence back to source text, one space after each
/// token.
pub fn render_tokens(tokens: &Vec<LexerToken>) -> (s: String)
    ensures
        s@ == render_tokens_model(tokens_model(tokens@)),
{
    let mut s = String::new();
    let n = tokens.len();
    let mut i: usize = 0;
    while i < n
        invariant
            i <= n,
            n == tokens@.len(),
            s@ == render_tokens_model(tokens_model(tokens@).subrange(0, i as int)),
        decreases n - i,
    {
        s.append(tokens[i].value.as_str());
        s.append(" ");
        proof {
            let m = tokens_model(tokens@);
            assert(m.subrange(0, i + 1 as int).drop_last() =~= m.subrange(0, i as int));
            assert(m.subrange(0, i + 1 as int).last() == m[i as int]);
        }
        i += 1;
    }
    proof {
        assert(tokens_model(tokens@).subrange(0, n as int) =~= tokens_model(tokens@));
    }
    s
}


/// A neutral lexer state: nothing pending, outside strings and comments.
pub open spec fn neutral_state(ts: Seq<TokenModel>) -> LexStateModel {
    LexStateModel { tokens: ts, buf: Seq::empty(), in_string: false, in_comment: false }
}

/// A character that extends a buffered run rather than ending it.
pub open spec fn is_run_char(c: char) -> bool {
    !is_space_char(c) && !is_punct_char(c) && c != '"' && c != ';'
}

/// Text that scans back as one buffered run: nonempty, made of run
/// characters, and not opening a line comment.
pub open spec fn is_run_text(text: Seq<char>) -> bool {
    &&& text.len() > 0
    &&& forall|i: int| 0 <= i < text.len() ==> is_run_char(#[trigger] text[i])
    &&& !(text.len() >= 2 && text[0] == '/' && text[1] == '/')
}

/// Whether a token's text scans back to exactly that token. This holds
/// of every token the lexer itself produces except an `EndOfFile` token
/// and an unterminated string.
pub open spec fn token_renderable(t: TokenModel) -> bool {
    match t.kind {
        LexerTokenType::EndOfStatement => t.text == ";"@,
        LexerTokenType::Punctuation => t.text.len() == 1 && is_punct_char(t.text[0]),
        LexerTokenType::StringLiteral => t.text.len() >= 2 && t.text[0] == '"' && t.text.last()
            == '"' && (forall|i: int| 1 <= i < t.text.len() - 1 ==> t.text[i] != '"'),
        LexerTokenType::EndOfFile => false,
        _ => is_run_text(t.text) && classify(t.text) == t.kind,
    }
}

/// Scanning a concatenation is scanning the parts in turn.
proof fn lemma_fold_from_append(a: Seq<char>, b: Seq<char>, st: LexStateModel)
    ensures
        lex_fold_from(a + b, st) == lex_fold_from(b, lex_fold_from(a, st)),
    decreases b.len(),
{
    if b.len() == 0 {
        assert(a + b =~= a);
    } else {
        lemma_fold_from_append(a, b.drop_last(), st);
        assert((a + b).drop_last() =~= a + b.drop_last());
        assert((a + b).last() == b.last());
    }
}

/// Scanning a prefix of a run from a neutral state only fills the buffer.
proof fn lemma_fold_run_prefix(text: Seq<char>, ts: Seq<TokenModel>, j: int)
    requires
        is_run_text(text),
        0 <= j <= text.len(),
    ensures
        lex_fold_from(text.subrange(0, j), neutral_state(ts)) == (LexStateModel {
            tokens: ts,
            buf: text.subrange(0, j),
            in_string: false,
            in_comment: false,
        }),
    decreases j,
{
    reveal_with_fuel(lex_fold_from, 3);
    reveal_strlit("/");
    if j == 0 {
        assert(text.subrange(0, 0) =~= Seq::<char>::empty());
    } else {
        lemma_fold_run_prefix(text, ts, j - 1);
        let pre = text.subrange(0, j);
        let c = text[j - 1];
        assert(pre.drop_last() =~= text.subrange(0, j - 1));
        assert(pre.last() == c);
        assert(is_run_char(c));
        if c == '/' && text.subrange(0, j - 1) == "/"@ {
            assert(text.subrange(0, j - 1).len() == 1);
            assert(text[0] == "/"@[0]);
            assert(text[0] == '/' && text[1] == '/');
            assert(false);
        }
        assert(text.subrange(0, j - 1).push(c) =~= pre);
    }
}

/// Scanning a prefix of a string literal, its opening quote included,
/// stands inside string mode with the prefix buffered.
proof fn lemma_fold_string_prefix(text: Seq<char>, ts: Seq<TokenModel>, j: int)
    requires
        text.len() >= 2,
        text[0] == '"',
        text.last() == '"',
        forall|i: int| 1 <= i < text.len() - 1 ==> text[i] != '"',
        1 <= j <= text.len() - 1,
    ensures
        lex_fold_from(text.subrange(0, j), neutral_state(ts)) == (LexStateModel {
            tokens: ts,
            buf: text.subrange(0, j),
            in_string: true,
            in_comment: false,
        }),
    decreases j,
{
    let pre = text.subrange(0, j);
    reveal_with_fuel(lex_fold_from, 3);
    if j == 1 {
        assert(pre.drop_last() =~= Seq::<char>::empty());
        assert(pre.last() == '"');
        assert(seq!['"'] =~= pre);
    } else {
        lemma_fold_string_prefix(text, ts, j - 1);
        let c = text[j - 1];
        assert(pre.drop_last() =~= text.subrange(0, j - 1));
        assert(pre.last() == c);
        assert(c != '"');
        assert(text.subrange(0, j - 1).push(c) =~= pre);
    }
}

/// Scanning a renderable token's text followed by one space, from a
/// neutral state, emits exactly that token and returns to neutral.
proof fn lemma_fold_token(t: TokenModel, ts: Seq<TokenModel>)
    requires
        token_renderable(t),
    ensures
        lex_fold_from(t.text + " "@, neutral_state(ts)) == neutral_state(ts.push(t)),
{
    reveal_with_fuel(lex_fold_from, 4);
    reveal_strlit(" ");
    reveal_strlit(";");
    let whole = t.text + " "@;
    assert(whole.drop_last() =~= t.text);
    assert(whole.last() == ' ');
    match t.kind {
        LexerTokenType::EndOfStatement => {
            assert(t.text.drop_last() =~= Seq::<char>::empty());
            assert(t.text.last() == ';');
            let after = lex_fold_from(t.text, neutral_state(ts));
            assert(after.tokens =~= ts.push(t));
            assert(lex_fold_from(whole, neutral_state(ts)).tokens =~= ts.push(t));
        }
        LexerTokenType::Punctuation => {
            assert(t.text.drop_last() =~= Seq::<char>::empty());
            assert(t.text.last() == t.text[0]);
            let after = lex_fold_from(t.text, neutral_state(ts));
            assert(seq![t.text[0]] =~= t.text);
            assert(after.tokens =~= ts.push(t));
            assert(lex_fold_from(whole, neutral_state(ts)).tokens =~= ts.push(t));
        }
        LexerTokenType::StringLiteral => {
            lemma_fold_string_prefix(t.text, ts, t.text.len() - 1);
            assert(t.text.drop_last() =~= t.text.subrange(0, t.text.len() - 1));
            let after = lex_fold_from(t.text, neutral_state(ts));
            assert(t.text.subrange(0, t.text.len() - 1).push('"') =~= t.text);
            assert(after.tokens =~= ts.push(t));
            assert(lex_fold_from(whole, neutral_state(ts)).tokens =~= ts.push(t));
        }
        LexerTokenType::EndOfFile => {
            assert(false);
        }
        _ => {
            lemma_fold_run_prefix(t.text, ts, t.text.len() as int);
            assert(t.text.subrange(0, t.text.len() as int) =~= t.text);
            let after = lex_fold_from(t.text, neutral_state(ts));
            assert(after.buf == t.text);
            assert(classify(t.text) == t.kind);
            assert(t == (TokenModel { kind: t.kind, text: t.text }));
            assert(lex_fold_from(whole, neutral_state(ts)) == lex_step(after, ' '));
            assert(lex_step(after, ' ').tokens == flush_model(ts, t.text));
            assert(flush_model(ts, t.text) == ts.push(TokenModel { kind: t.kind, text: t.text }));
            assert(lex_fold_from(whole, neutral_state(ts)).tokens =~= ts.push(t));
        }
    }
}

/// Scanning the rendering of renderable tokens reproduces them, with
/// nothing pending.
proof fn lemma_render_fold(toks: Seq<TokenModel>)
    requires
        forall|i: int| 0 <= i < toks.len() ==> token_renderable(#[trigger] toks[i]),
    ensures
        lex_fold_from(render_tokens_model(toks), lex_init()) == neutral_state(toks),
    decreases toks.len(),
{
    reveal_with_fuel(lex_fold_from, 2);
    if toks.len() == 0 {
        assert(render_tokens_model(toks) =~= Seq::<char>::empty());
        assert(toks =~= Seq::<TokenModel>::empty());
        assert(lex_init() == neutral_state(Seq::<TokenModel>::empty()));
    } else {
        let front = toks.drop_last();
        let last = toks.last();
        lemma_render_fold(front);
        assert(render_tokens_model(toks) =~= render_tokens_model(front) + (last.text + " "@));
        lemma_fold_from_append(render_tokens_model(front), last.text + " "@, lex_init());
        lemma_fold_token(last, front);
        assert(front.push(last) =~= toks);
    }
}

/// Re-rendering a token sequence to text and scanning that text yields
/// the identical token sequence: tokenization is idempotent on its own
/// output. It holds of every sequence the lexer can produce from a
/// lexically clean source: renderable tokens closed by one `EndOfFile`
/// token. An unterminated string's `Unknown` token is the one kind of
/// lexer output that does not scan back to itself.
pub proof fn lemma_tokens_round_trip(toks: Seq<TokenModel>)
    requires
        toks.len() >= 1,
        toks.last() == (TokenModel { kind: LexerTokenType::EndOfFile, text: Seq::empty() }),
        forall|i: int| 0 <= i < toks.len() - 1 ==> token_renderable(#[trigger] toks[i]),
    ensures
        lex_spec(render_tokens_model(toks)) == toks,
{
    reveal_with_fuel(lex_fold_from, 3);
    reveal_strlit(" ");
    let front = toks.drop_last();
    lemma_render_fold(front);
    assert(render_tokens_model(toks) =~= render_tokens_model(front) + " "@);
    lemma_fold_from_append(render_tokens_model(front), " "@, lex_init());
    let one_space = " "@;
    assert(one_space.drop_last() =~= Seq::<char>::empty());
    assert(one_space.last() == ' ');
    assert(lex_fold(render_tokens_model(toks)) == neutral_state(front));
    assert(lex_spec(render_tokens_model(toks)) =~= toks);
}


/// A lexer state all of whose emitted tokens scan back to themselves,
/// with a pending run or string prefix that still can.
pub open spec fn state_renderable(st: LexStateModel) -> bool {
    &&& forall|i: int| 0 <= i < st.tokens.len() ==> token_renderable(#[trigger] st.tokens[i])
    &&& st.in_string ==> st.buf.len() >= 1 && st.buf[0] == '"' && (forall|i: int|
        1 <= i < st.buf.len() ==> st.buf[i] != '"')
    &&& !st.in_string ==> st.buf.len() == 0 || is_run_text(st.buf)
    &&& st.in_comment ==> st.buf.len() == 0 && !st.in_string
}

/// Flushing a run that could still scan back emits only renderable
/// tokens.
proof fn lemma_flush_renderable(ts: Seq<TokenModel>, buf: Seq<char>)
    requires
        forall|i: int| 0 <= i < ts.len() ==> token_renderable(#[trigger] ts[i]),
        buf.len() == 0 || is_run_text(buf),
    ensures
        forall|i: int|
            0 <= i < flush_model(ts, buf).len() ==> token_renderable(
                #[trigger] flush_model(ts, buf)[i],
            ),
{
    if buf.len() > 0 {
        assert(is_run_char(buf[0]));
        assert(buf[0] != '"');
        assert(classify(buf) != LexerTokenType::StringLiteral);
        let t = TokenModel { kind: classify(buf), text: buf };
        assert(token_renderable(t));
        assert(forall|i: int|
            0 <= i < flush_model(ts, buf).len() - 1 ==> flush_model(ts, buf)[i] == ts[i]);
    }
}

/// The scan of any source keeps every emitted token renderable.
proof fn lemma_fold_renderable(cs: Seq<char>)
    ensures
        state_renderable(lex_fold(cs)),
    decreases cs.len(),
{
    reveal_strlit("/");
    reveal_strlit(";");
    if cs.len() > 0 {
        lemma_fold_renderable(cs.drop_last());
        let st = lex_fold(cs.drop_last());
        let c = cs.last();
        if !st.in_string {
            lemma_flush_renderable(st.tokens, st.buf);
        }
        let post = lex_step(st, c);
        if !st.in_comment && !st.in_string && c != '"' && c != ';' && !is_punct_char(c)
            && !is_space_char(c) && !(c == '/' && st.buf == "/"@) {
            assert(is_run_char(c));
            assert(post.buf == st.buf.push(c));
            if st.buf.len() == 0 {
                assert(post.buf =~= seq![c]);
                assert(is_run_text(post.buf));
            } else {
                assert(post.buf[0] == st.buf[0]);
                if post.buf.len() >= 2 && post.buf[0] == '/' && post.buf[1] == '/' {
                    if st.buf.len() == 1 {
                        assert(st.buf =~= "/"@);
                        assert(false);
                    } else {
                        assert(st.buf[1] == post.buf[1]);
                        assert(false);
                    }
                }
                assert(is_run_text(post.buf));
            }
        }
        if st.in_string && c == '"' {
            let t = TokenModel { kind: LexerTokenType::StringLiteral, text: st.buf.push('"') };
            assert(t.text.len() >= 2 && t.text[0] == '"' && t.text.last() == '"');
            assert(forall|i: int| 1 <= i < t.text.len() - 1 ==> t.text[i] != '"');
            assert(token_renderable(t));
        }
    }
}

/// Every token the lexer produces from a source with no unterminated
/// string is renderable, and the sequence ends in one `EndOfFile` token.
pub proof fn lemma_lex_output_renderable(cs: Seq<char>)
    requires
        !lex_fold(cs).in_string,
    ensures
        lex_spec(cs).len() >= 1,
        lex_spec(cs).last() == (TokenModel { kind: LexerTokenType::EndOfFile, text: Seq::empty() }),
        forall|i: int| 0 <= i < lex_spec(cs).len() - 1 ==> token_renderable(#[trigger] lex_spec(cs)[i]),
{
    lemma_fold_renderable(cs);
    let st = lex_fold(cs);
    lemma_flush_renderable(st.tokens, st.buf);
    assert(forall|i: int|
        0 <= i < lex_spec(cs).len() - 1 ==> lex_spec(cs)[i] == flush_model(st.tokens, st.buf)[i]);
}

/// Tokenization is idempotent on its own output: lexing a source,
/// rendering the tokens back to text, and lexing again yields the
/// identical token sequence, for every source that leaves no string
/// unterminated.
pub proof fn lemma_lex_render_lex(cs: Seq<char>)
    requires
        !lex_fold(cs).in_string,
    ensures
        lex_spec(render_tokens_model(lex_spec(cs))) == lex_spec(cs),
{
    lemma_lex_output_renderable(cs);
    lemma_tokens_round_trip(lex_spec(cs));
}

} // verus!
