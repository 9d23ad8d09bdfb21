use codecrafters_shell::lexer::{double_quoted, single_quoted, unquoted, word, Step};
use codecrafters_shell::parse::{redirect, RedirectToken, Token};

fn chars(s: &str) -> Vec<char> {
    s.chars().collect()
}

fn text(step: Step<Vec<char>>) -> Option<String> {
    match step {
        Step::Done(w, _) => Some(w.into_iter().collect()),
        _ => None,
    }
}

fn redirect_of(s: &str) -> Option<RedirectToken> {
    match redirect(&chars(s), 0) {
        Step::Done(Token::Redirect(r), _) => Some(r),
        _ => None,
    }
}

#[test]
fn command_test_single_quote() {
    assert_eq!(text(single_quoted(&chars("'hello'"), 0)), Some("hello".to_string()));
    assert_eq!(single_quoted(&chars("'hello"), 0), Step::More);
}

#[test]
fn command_test_double_quote() {
    assert_eq!(text(double_quoted(&chars("\"hello\""), 0)), Some("hello".to_string()));
    assert_eq!(text(double_quoted(&chars("\"hello\\$\""), 0)), Some("hello$".to_string()));
    assert_eq!(text(double_quoted(&chars("\"hello\\`\""), 0)), Some("hello`".to_string()));
    assert_eq!(text(double_quoted(&chars("\"hello\\\"\""), 0)), Some("hello\"".to_string()));
    assert_eq!(text(double_quoted(&chars("\"hello\\\\\""), 0)), Some("hello\\".to_string()));
    assert_eq!(text(double_quoted(&chars("\"hello\\\n\""), 0)), Some("hello\n".to_string()));
    assert_eq!(double_quoted(&chars("\"hello"), 0), Step::More);
    assert_eq!(double_quoted(&chars("\"hello\\"), 0), Step::More);
}

#[test]
fn command_test_no_quote() {
    assert_eq!(text(unquoted(&chars("hello "), 0)), Some("hello".to_string()));
    assert_eq!(text(unquoted(&chars("hello\t"), 0)), Some("hello".to_string()));
    assert_eq!(text(unquoted(&chars("hello\r"), 0)), Some("hello".to_string()));
    assert_eq!(text(unquoted(&chars("hello\n"), 0)), Some("hello".to_string()));
    assert_eq!(text(unquoted(&chars("hello world"), 0)), Some("hello".to_string()));
    assert_eq!(text(unquoted(&chars("hello\\ world\n"), 0)), Some("hello world".to_string()));
    assert_eq!(unquoted(&chars("hello"), 0), Step::More);
}

#[test]
fn test_command_arg() {
    let w = |s: &str| text(word(&chars(s), 0));
    assert_eq!(w("hello\n"), Some("hello".into()));
    assert_eq!(w("hello world\n"), Some("hello".into()));
    assert_eq!(w("'hello world'\n"), Some("hello world".into()));
    assert_eq!(w("'hello' world\n"), Some("hello".into()));
    assert_eq!(w("hello'world'\n"), Some("helloworld".into()));
    assert_eq!(w("\"hello world\"\n"), Some("hello world".into()));
    assert_eq!(w("\"hello\" world\"\n"), Some("hello".into()));
    assert_eq!(w("\"hello\\\" world\"\n"), Some("hello\" world".into()));
    assert_eq!(w("\"hello\\$ world\"\n"), Some("hello$ world".into()));
    assert_eq!(w("\"hello\\` world\"\n"), Some("hello` world".into()));
    assert_eq!(w("\"hello\\\n world\"\n"), Some("hello\n world".into()));
    assert_eq!(w("\"hello\\x world\"\n"), Some("hello\\x world".into()));
    assert_eq!(w("\"hello\\$\"\n"), Some("hello$".into()));
    assert_eq!(w("hello\\ world\n"), Some("hello world".into()));
    assert_eq!(w("'hello\\\\world'\n"), Some("hello\\\\world".into()));
    assert_eq!(word(&chars(" "), 0), Step::More);
}

#[test]
fn empty_quotes_make_empty_fragments() {
    assert_eq!(text(word(&chars("''\n"), 0)), Some(String::new()));
    assert_eq!(text(word(&chars("\"\"\n"), 0)), Some(String::new()));
    assert_eq!(text(word(&chars("a''b\"\"c\n"), 0)), Some("abc".to_string()));
}

#[test]
fn redirect_test_output() {
    let out = |n: i32| Some(RedirectToken::Output { n, word: "word".into() });
    assert_eq!(redirect_of(">word\n"), out(1));
    assert_eq!(redirect_of("1>word\n"), out(1));
    assert_eq!(redirect_of("2>word\n"), out(2));
    assert_eq!(redirect_of(">|word\n"), out(1));
    assert_eq!(redirect_of("> word\n"), out(1));
}

#[test]
fn redirect_test_append_output() {
    let app = |n: i32| Some(RedirectToken::AppendOutput { n, word: "word".into() });
    assert_eq!(redirect_of(">>word\n"), app(1));
    assert_eq!(redirect_of(">> word\n"), app(1));
    assert_eq!(redirect_of("1>>word\n"), app(1));
    assert_eq!(redirect_of("2>>word\n"), app(2));
}

#[test]
fn test_input() {
    let inp = |n: i32| Some(RedirectToken::Input { n, word: "word".into() });
    assert_eq!(redirect_of("<word\n"), inp(0));
    assert_eq!(redirect_of("< word \n"), inp(0));
    assert_eq!(redirect_of("2< word\n"), inp(2));
}

#[test]
fn oversized_descriptor_is_no_redirection() {
    assert_eq!(redirect(&chars("99999999999>x\n"), 0), Step::Reject);
    assert_eq!(
        redirect_of("2147483647>x\n"),
        Some(RedirectToken::Output { n: 2147483647, word: "x".into() })
    );
}

#[test]
fn redirect_waits_for_its_target() {
    assert_eq!(redirect(&chars(">"), 0), Step::More);
    assert_eq!(redirect(&chars("2"), 0), Step::More);
    assert_eq!(redirect(&chars("> x"), 0), Step::More);
}
