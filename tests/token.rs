use codecrafters_shell::parser::token::{
    RedirectToken as WRedirect, Token as W, TokenParser as WordParser, ValueToken as WValue,
};
use codecrafters_shell::token::raw::RawTokenParser;
use codecrafters_shell::token::{parse_tokens, RedirectToken, Token, TokenError, TokenParser, ValueToken};

fn stdout(s: &str) -> Token {
    Token::Redirect(RedirectToken::Stdout(s.to_string()))
}

fn stderr(s: &str) -> Token {
    Token::Redirect(RedirectToken::Stderr(s.to_string()))
}

fn value(s: &str) -> Token {
    Token::Value(ValueToken(s.as_bytes().to_vec()))
}

fn words(line: &str) -> Vec<String> {
    line.split_whitespace().map(|s| s.to_string()).collect()
}

fn word_tokens(line: &str) -> Vec<W> {
    WordParser::new(words(line)).parse().unwrap()
}

fn w_stdout(s: &str) -> W {
    W::Redirect(WRedirect::Stdout(s.to_string()))
}

fn w_stderr(s: &str) -> W {
    W::Redirect(WRedirect::Stderr(s.to_string()))
}

fn w_value(s: &str) -> W {
    W::Value(WValue(s.to_string()))
}

fn tokens(line: &str) -> Vec<Token> {
    let parser = RawTokenParser::new(line);
    let raw = parser.parse();
    let parser = TokenParser::new(raw);
    parser.parse().unwrap()
}

#[test]
fn token_test_parse_redirect_stdout_default() {
    assert_eq!(
        tokens(r#"ls /tmp/baz > /tmp/foo/baz.md"#),
        [value("ls"), value("/tmp/baz"), stdout("/tmp/foo/baz.md")]
    );
    assert_eq!(
        word_tokens(r#"ls /tmp/baz > /tmp/foo/baz.md"#),
        [w_value("ls"), w_value("/tmp/baz"), w_stdout("/tmp/foo/baz.md")]
    );
}

#[test]
fn token_test_parse_redirect_stdout() {
    assert_eq!(
        tokens(r#"ls /tmp/baz > /tmp/foo/baz.md"#),
        [value("ls"), value("/tmp/baz"), stdout("/tmp/foo/baz.md")]
    );
    assert_eq!(
        word_tokens(r#"ls /tmp/baz > /tmp/foo/baz.md"#),
        [w_value("ls"), w_value("/tmp/baz"), w_stdout("/tmp/foo/baz.md")]
    );
}

#[test]
fn token_test_parse_redirect_stderr() {
    assert_eq!(
        tokens(r#"ls /tmp/baz 2> /tmp/foo/baz.md"#),
        [value("ls"), value("/tmp/baz"), stderr("/tmp/foo/baz.md")]
    );
    assert_eq!(
        word_tokens(r#"ls /tmp/baz 2> /tmp/foo/baz.md"#),
        [w_value("ls"), w_value("/tmp/baz"), w_stderr("/tmp/foo/baz.md")]
    );
}

#[test]
fn token_test_parse_redirect_multiple_stdout_stderr() {
    assert_eq!(
        tokens(r#"ls /tmp/baz > stdout1 > stdout2 1> stdout3 2> stderr1 2> stderr2"#),
        [
            value("ls"),
            value("/tmp/baz"),
            stdout("stdout1"),
            stdout("stdout2"),
            stdout("stdout3"),
            stderr("stderr1"),
            stderr("stderr2"),
        ]
    );
    assert_eq!(
        word_tokens(r#"ls /tmp/baz > stdout1 > stdout2 1> stdout3 2> stderr1 2> stderr2"#),
        [
            w_value("ls"),
            w_value("/tmp/baz"),
            w_stdout("stdout1"),
            w_stdout("stdout2"),
            w_stdout("stdout3"),
            w_stderr("stderr1"),
            w_stderr("stderr2"),
        ]
    );
}

#[test]
fn missing_redirect_target() {
    assert_eq!(parse_tokens("ls >").unwrap_err(), TokenError::MissingTarget);
}

#[test]
fn tokens_split_into_redirects_and_values() {
    let (r, v) = parse_tokens("ls 2> e x > o").unwrap();
    assert_eq!(
        r,
        vec![RedirectToken::Stderr("e".into()), RedirectToken::Stdout("o".into())]
    );
    assert_eq!(v, vec![ValueToken(b"ls".to_vec()), ValueToken(b"x".to_vec())]);
    assert_eq!(r[1].path(), "o");
}

#[test]
fn values_concatenate_with_spaces() {
    let v = vec![ValueToken(b"a".to_vec()), ValueToken(b"bc".to_vec())];
    assert_eq!(ValueToken::concat(v), Some("a bc".to_string()));
    let bad = vec![ValueToken(vec![0xff])];
    assert_eq!(ValueToken::concat(bad), None);
    assert_eq!(ValueToken::concat(vec![]), Some(String::new()));
}
