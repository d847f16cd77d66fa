use ego::lexer::{lex, render_tokens, token_with_type, LexerToken, LexerTokenType};

fn kinds(tokens: &[LexerToken]) -> Vec<LexerTokenType> {
    tokens.iter().map(|t| t.token_type).collect()
}

fn texts(tokens: &[LexerToken]) -> Vec<String> {
    tokens.iter().map(|t| t.value.clone()).collect()
}

#[test]
fn lexes_declaration() {
    let tokens = lex(String::from("let x = 42;"));
    assert_eq!(
        kinds(&tokens),
        vec![
            LexerTokenType::Keyword,
            LexerTokenType::Identifier,
            LexerTokenType::Operator,
            LexerTokenType::NumberLiteral,
            LexerTokenType::EndOfStatement,
            LexerTokenType::EndOfFile,
        ]
    );
    assert_eq!(texts(&tokens), vec!["let", "x", "=", "42", ";", ""]);
}

#[test]
fn string_literal_keeps_quotes_and_spaces() {
    let tokens = lex(String::from("print(\"a b;c\");"));
    assert_eq!(
        kinds(&tokens),
        vec![
            LexerTokenType::Keyword,
            LexerTokenType::Punctuation,
            LexerTokenType::StringLiteral,
            LexerTokenType::Punctuation,
            LexerTokenType::EndOfStatement,
            LexerTokenType::EndOfFile,
        ]
    );
    assert_eq!(tokens[2].value, "\"a b;c\"");
}

#[test]
fn last_token_is_flushed_without_trailing_whitespace() {
    let tokens = lex(String::from("print"));
    assert_eq!(
        kinds(&tokens),
        vec![LexerTokenType::Keyword, LexerTokenType::EndOfFile]
    );
}

#[test]
fn end_of_file_token_is_always_appended() {
    let tokens = lex(String::new());
    assert_eq!(kinds(&tokens), vec![LexerTokenType::EndOfFile]);
}

#[test]
fn unterminated_string_is_unknown_token() {
    let tokens = lex(String::from("\"abc"));
    assert_eq!(
        kinds(&tokens),
        vec![LexerTokenType::Unknown, LexerTokenType::EndOfFile]
    );
    assert_eq!(tokens[0].value, "\"abc");
}

#[test]
fn unrecognized_run_is_unknown_token() {
    let tokens = lex(String::from("@#$ ;"));
    assert_eq!(
        kinds(&tokens),
        vec![
            LexerTokenType::Unknown,
            LexerTokenType::EndOfStatement,
            LexerTokenType::EndOfFile,
        ]
    );
}

#[test]
fn comment_runs_to_end_of_line() {
    let tokens = lex(String::from("// let x = 1;\ntrue"));
    assert_eq!(
        kinds(&tokens),
        vec![LexerTokenType::BooleanLiteral, LexerTokenType::EndOfFile]
    );
}

#[test]
fn slash_alone_is_an_operator() {
    let tokens = lex(String::from("10 / 2 ;"));
    assert_eq!(
        kinds(&tokens),
        vec![
            LexerTokenType::NumberLiteral,
            LexerTokenType::Operator,
            LexerTokenType::NumberLiteral,
            LexerTokenType::EndOfStatement,
            LexerTokenType::EndOfFile,
        ]
    );
}

#[test]
fn classifies_buffered_runs() {
    assert_eq!(
        token_with_type(String::from("print")).token_type,
        LexerTokenType::Keyword
    );
    assert_eq!(
        token_with_type(String::from("true")).token_type,
        LexerTokenType::BooleanLiteral
    );
    assert_eq!(
        token_with_type(String::from("123")).token_type,
        LexerTokenType::NumberLiteral
    );
    assert_eq!(
        token_with_type(String::from("<=")).token_type,
        LexerTokenType::Operator
    );
    assert_eq!(
        token_with_type(String::from("abc_1")).token_type,
        LexerTokenType::Identifier
    );
    assert_eq!(
        token_with_type(String::from("1abc")).token_type,
        LexerTokenType::Unknown
    );
    assert_eq!(
        token_with_type(String::from("\"q\"")).token_type,
        LexerTokenType::StringLiteral
    );
}

#[test]
fn relex_of_rendered_tokens_is_identical() {
    let sources = [
        "let x = \"hi there\"; print(x);",
        "if (1 + 2 * 3 <= 7) { print(\"ok\", true); }",
        "print(a && b || c);",
    ];
    for src in sources {
        let first = lex(String::from(src));
        let rendered = render_tokens(&first);
        let second = lex(rendered);
        assert_eq!(first, second);
    }
}
