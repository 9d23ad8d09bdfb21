use codecrafters_shell::parser::completer::{
    completed_candidates, completed_suffix, longest_common_prefix, suffix, CompletedSuffix,
    TabCompletionState,
};
use codecrafters_shell::parser::quotes::{Key, ParsedStatus, RawQuoteParser};
use codecrafters_shell::parser::raw::RawTokenParser;

fn chars(s: &str) -> Vec<char> {
    s.chars().collect()
}

fn type_line(keys: &[Key], names: &Vec<String>) -> (Vec<String>, String) {
    let mut p = RawTokenParser::new();
    let mut shown = String::new();
    for k in keys {
        let (done, out) = p.feed(*k, names);
        shown.push_str(&out);
        if done {
            break;
        }
    }
    (p.words(), shown)
}

fn keys(s: &str) -> Vec<Key> {
    s.chars()
        .map(|c| match c {
            '\n' => Key::Newline,
            '\t' => Key::Tab,
            c => Key::Char(c),
        })
        .collect()
}

#[test]
fn typed_words_split_on_blanks() {
    let (w, _) = type_line(&keys("echo 'a b' c\n"), &vec![]);
    assert_eq!(w, vec!["echo", "a b", "c"]);
}

#[test]
fn blanks_make_no_empty_words() {
    assert!(type_line(&keys("\n"), &vec![]).0.is_empty());
    assert!(type_line(&keys("   \n"), &vec![]).0.is_empty());
    assert_eq!(type_line(&keys("e \n"), &vec![]).0, vec!["e"]);
    assert_eq!(type_line(&keys("  a   b  \n"), &vec![]).0, vec!["a", "b"]);
}

#[test]
fn quote_inside_word_joins_it() {
    let (w, _) = type_line(&keys("hello'world' x\n"), &vec![]);
    assert_eq!(w, vec!["helloworld", "x"]);
    let (w, _) = type_line(&keys("a\"b c\"d\n"), &vec![]);
    assert_eq!(w, vec!["ab cd"]);
}

#[test]
fn typed_quotes_and_escapes() {
    let (w, _) = type_line(&keys("a\\ b \"x\\$y\"z\n"), &vec![]);
    assert_eq!(w, vec!["a b", "x$yz"]);
}

#[test]
fn tab_completes_the_only_name() {
    let names = vec!["echo".to_string()];
    let (w, shown) = type_line(&keys("ec\t"), &names);
    assert_eq!(shown, "ho ");
    assert_eq!(w, vec!["echo"]);
}

#[test]
fn tab_rings_when_nothing_completes() {
    let (_, shown) = type_line(&keys("haha\t"), &vec![]);
    assert_eq!(shown, "\x07");
}

#[test]
fn quote_reader_reads_to_closing_quote() {
    let mut r = RawQuoteParser::single_quote(None, "");
    for c in "ab".chars() {
        assert_eq!(r.feed(Key::Char(c), &vec![]).status, None);
    }
    let fed = r.feed(Key::Char('\''), &vec![]);
    assert_eq!(fed.status, Some(ParsedStatus::Continue("ab".into())));
    let mut r = RawQuoteParser::no_quote(Some('x'), false, "");
    assert_eq!(r.feed(Key::Newline, &vec![]).status, Some(ParsedStatus::Stop("x".into())));
    let mut r = RawQuoteParser::double_quote(None, "");
    r.feed(Key::Char('\\'), &vec![]);
    r.feed(Key::Char('q'), &vec![]);
    assert_eq!(r.word(), "\\q");
}

#[test]
fn completion_decisions() {
    let many = vec!["expand".to_string(), "expiry".to_string(), "expr".to_string()];
    let (c, shown) = completed_suffix("ex", TabCompletionState::NotPressed, "", &many);
    assert_eq!(c, CompletedSuffix::Partial { suffix: "p".into() });
    assert_eq!(c.suffix(), Some("p"));
    assert_eq!(shown, "");
    let (c, shown) = completed_suffix("exp", TabCompletionState::NotPressed, "", &many);
    assert_eq!(c, CompletedSuffix::Nothing);
    assert_eq!(shown, "\x07");
    let (c, shown) = completed_suffix("exp", TabCompletionState::Pressed, "", &many);
    assert_eq!(c.suffix(), None);
    assert_eq!(shown, "\r\nexpand  expiry  expr\r\n$ exp");
    let one = vec!["cargo-fmt".to_string()];
    let (c, _) = completed_suffix("cargo-fm", TabCompletionState::NotPressed, "", &one);
    assert_eq!(c, CompletedSuffix::Completed { suffix: "t".into() });
}

#[test]
fn prefixes_and_suffixes() {
    assert_eq!(longest_common_prefix(&chars("expand"), &chars("expr")), chars("exp"));
    assert_eq!(longest_common_prefix(&chars("ab"), &chars("abc")), chars("ab"));
    assert_eq!(suffix("echo", "ec"), Some("ho".to_string()));
    assert_eq!(suffix("echo", "x"), None);
    let found = vec!["exit".to_string(), "expr".to_string()];
    assert_eq!(completed_candidates("ex", &found), vec!["exit", "expr"]);
}
