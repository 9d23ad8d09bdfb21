use codecrafters_shell::token::raw::{RawToken, RawTokenParser};

fn rt(s: &str) -> RawToken {
    RawToken(s.as_bytes().to_vec())
}

#[test]
fn test_single() {
    let parser = RawTokenParser::new(r#"hello"#);
    let tokens = parser.parse();
    assert_eq!(tokens, [rt("hello")])
}

#[test]
fn raw_test_no_quote() {
    let parser = RawTokenParser::new("hello world!!");
    let tokens = parser.parse();
    assert_eq!(tokens, [rt("hello"), rt("world!!")]);
}

#[test]
fn raw_test_single_quote() {
    let parser = RawTokenParser::new("'hello'");
    let tokens = parser.parse();
    assert_eq!(tokens, [rt("hello")]);
}

#[test]
fn raw_test_double_quote() {
    let parser = RawTokenParser::new(r#""hello""#);
    let tokens = parser.parse();
    assert_eq!(tokens, [rt("hello")]);
}

#[test]
fn test_quote() {
    let parser = RawTokenParser::new("'hello' 'world'");
    let tokens = parser.parse();
    assert_eq!(tokens, [rt("hello"), rt("world")]);
}

#[test]
fn test_mixed_single_quote() {
    let parser = RawTokenParser::new("hello 'world'");
    let tokens = parser.parse();
    assert_eq!(tokens, [rt("hello"), rt("world")]);
}

#[test]
fn test_mixed_double_quote() {
    let parser = RawTokenParser::new(r#""bar"  "shell's"  "foo""#);
    let tokens = parser.parse();
    assert_eq!(tokens, [rt("bar"), rt("shell's"), rt("foo")]);
}

#[test]
fn test_connected_single_quotes() {
    let parser = RawTokenParser::new("hello 'test''world'");
    let tokens = parser.parse();
    assert_eq!(tokens, [rt("hello"), rt("testworld")]);
}

#[test]
fn test_connected_double_quotes() {
    let parser = RawTokenParser::new(r#""world  shell"  "hello""test""#);
    let tokens = parser.parse();
    assert_eq!(tokens, [rt("world  shell"), rt("hellotest")]);
}

#[test]
fn test_escape() {
    let parser = RawTokenParser::new(r#"world\ \ \ \ \ \ script"#);
    let tokens = parser.parse();
    assert_eq!(tokens, [rt("world      script")]);
}

#[test]
fn test_double_quote_with_escape() {
    let parser = RawTokenParser::new(r#""before\   after""#);
    let tokens = parser.parse();
    assert_eq!(tokens, [rt(r#"before\   after"#)]);
}

#[test]
fn test_escape_in_double_quote() {
    let parser = RawTokenParser::new(r#""hello'script'\\n'world""#);
    let tokens = parser.parse();
    assert_eq!(tokens, [rt(r#"hello'script'\n'world"#)]);
}

#[test]
fn test_escape_in_double_quote_trailing() {
    let parser = RawTokenParser::new(r#""hello\"insidequotes"script\""#);
    let tokens = parser.parse();
    assert_eq!(tokens, [rt(r#"hello"insidequotesscript""#)]);
}

#[test]
fn quotes_inside_unquoted_words_join_them() {
    let tokens = RawTokenParser::new("hello'world' a\"b c\"d x").parse();
    assert_eq!(tokens, [rt("helloworld"), rt("ab cd"), rt("x")]);
}
