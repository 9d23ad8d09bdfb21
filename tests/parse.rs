use codecrafters_shell::parse::{CommandToken, RedirectToken, StreamCommandParser, Token};

fn parser(command: &str) -> StreamCommandParser {
    StreamCommandParser::new(&format!("{command}\n"))
}

fn parsed(command: &str) -> Vec<(String, Token)> {
    let p = parser(command);
    let mut out = Vec::new();
    for (span, token) in p.parsed() {
        let t = match token {
            Token::Pipe => Token::Pipe,
            Token::Command(c) => Token::Command(CommandToken(c.0.clone())),
            Token::Redirect(RedirectToken::Input { n, word }) => {
                Token::Redirect(RedirectToken::Input { n: *n, word: word.clone() })
            }
            Token::Redirect(RedirectToken::Output { n, word }) => {
                Token::Redirect(RedirectToken::Output { n: *n, word: word.clone() })
            }
            Token::Redirect(RedirectToken::AppendOutput { n, word }) => {
                Token::Redirect(RedirectToken::AppendOutput { n: *n, word: word.clone() })
            }
        };
        out.push((span.clone(), t));
    }
    out
}

#[test]
fn test_tokens_only_command() {
    assert_eq!(
        parsed("hello"),
        vec![("hello".into(), Token::Command(CommandToken("hello".into())))],
    );
    assert_eq!(
        parsed("hello world"),
        vec![
            ("hello".into(), Token::Command(CommandToken("hello".into()))),
            (" world".into(), Token::Command(CommandToken("world".into()))),
        ],
    );
    assert_eq!(
        parsed("'hello' world"),
        vec![
            ("'hello'".into(), Token::Command(CommandToken("hello".into()))),
            (" world".into(), Token::Command(CommandToken("world".into()))),
        ],
    );
    assert_eq!(
        parsed("'hello world' hello world"),
        vec![
            ("'hello world'".into(), Token::Command(CommandToken("hello world".into()))),
            (" hello".into(), Token::Command(CommandToken("hello".into()))),
            (" world".into(), Token::Command(CommandToken("world".into()))),
        ],
    );
}

#[test]
fn test_tokens_only_redirect() {
    assert_eq!(
        parsed("> file"),
        vec![(
            "> file".into(),
            Token::Redirect(RedirectToken::Output { n: 1, word: "file".into() })
        )],
    );
    assert_eq!(
        parsed("2>|file"),
        vec![(
            "2>|file".into(),
            Token::Redirect(RedirectToken::Output { n: 2, word: "file".into() })
        )],
    );
}

#[test]
fn mod_command_args_and_redirect_args() {
    assert_eq!(
        parsed("echo > file"),
        vec![
            ("echo".into(), Token::Command(CommandToken("echo".into()))),
            (" > file".into(), Token::Redirect(RedirectToken::Output { n: 1, word: "file".into() })),
        ],
    );
    assert_eq!(
        parsed("echo hello 2>|file"),
        vec![
            ("echo".into(), Token::Command(CommandToken("echo".into()))),
            (" hello".into(), Token::Command(CommandToken("hello".into()))),
            (" 2>|file".into(), Token::Redirect(RedirectToken::Output { n: 2, word: "file".into() })),
        ],
    );
    assert_eq!(
        parsed("echo hello >> file"),
        vec![
            ("echo".into(), Token::Command(CommandToken("echo".into()))),
            (" hello".into(), Token::Command(CommandToken("hello".into()))),
            (
                " >> file".into(),
                Token::Redirect(RedirectToken::AppendOutput { n: 1, word: "file".into() })
            ),
        ],
    );
    assert_eq!(
        parsed("echo hello 2>> file"),
        vec![
            ("echo".into(), Token::Command(CommandToken("echo".into()))),
            (" hello".into(), Token::Command(CommandToken("hello".into()))),
            (
                " 2>> file".into(),
                Token::Redirect(RedirectToken::AppendOutput { n: 2, word: "file".into() })
            ),
        ],
    );
}

#[test]
fn pipe() {
    assert_eq!(
        parsed("one | two"),
        vec![
            ("one".into(), Token::Command(CommandToken("one".into()))),
            (" |".into(), Token::Pipe),
            (" two".into(), Token::Command(CommandToken("two".into()))),
        ]
    );
}

#[test]
fn pieces_commit_like_the_whole_line() {
    let line = "echo 'a b' >> out | wc -l\n";
    let whole = parsed(line.trim_end());
    for cut in 0..line.len() {
        let (a, b) = line.split_at(cut);
        let mut p = StreamCommandParser::new(a);
        p.push(b);
        let q = StreamCommandParser::new(line);
        assert_eq!(p.parsed(), q.parsed(), "cut at {cut}");
        assert_eq!(p.remaining(), q.remaining(), "cut at {cut}");
    }
    assert_eq!(whole.len(), 6);
}
