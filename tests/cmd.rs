use codecrafters_shell::cmd::{
    split_blanks, BuiltinCmd, Cmd, ExecBuiltinCmd, ExecError, ExecFileCmd, ExecutableFileCommand,
    ExecutedOutput,
};
use codecrafters_shell::parser::token::{
    parse_tokens, MissingTarget, RedirectToken, TokenParser, ValueToken,
};
use codecrafters_shell::redirect::Redirector;

fn values(ws: &[&str]) -> Vec<ValueToken> {
    ws.iter().map(|w| ValueToken(w.to_string())).collect()
}

#[test]
fn value_words_make_commands() {
    assert_eq!(
        Cmd::from_value_tokens(values(&["echo", "a", "b"]), None),
        Cmd::Builtin(BuiltinCmd::Echo("a b".into()))
    );
    assert_eq!(
        Cmd::from_value_tokens(values(&["exit", "3", "x"]), None),
        Cmd::Builtin(BuiltinCmd::Exit("3".into()))
    );
    assert_eq!(Cmd::from_value_tokens(values(&["pwd", "x"]), None), Cmd::Builtin(BuiltinCmd::Pwd));
    assert_eq!(
        Cmd::from_value_tokens(values(&["ls", "-l"]), Some("/bin/ls".into())),
        Cmd::ExecFile(ExecFileCmd {
            command: "ls".into(),
            path: "/bin/ls".into(),
            args: vec!["-l".into()]
        })
    );
    assert_eq!(Cmd::from_value_tokens(values(&["nope"]), None), Cmd::Invalid("nope".into()));
}

#[test]
fn builtins_become_ready_to_run() {
    assert_eq!(BuiltinCmd::Exit("7".into()).into_exec(None), Ok(ExecBuiltinCmd::Exit(7)));
    assert_eq!(BuiltinCmd::Exit("x".into()).into_exec(None), Err(ExecError::BadExitCode));
    let bare = Cmd::from_value_tokens(values(&["exit"]), None);
    assert_eq!(bare, Cmd::Builtin(BuiltinCmd::Exit(String::new())));
    match bare {
        Cmd::Builtin(b) => assert_eq!(b.into_exec(None), Ok(ExecBuiltinCmd::Exit(0))),
        other => panic!("not a builtin: {other:?}"),
    }
    assert_eq!(
        BuiltinCmd::Type("echo".into()).into_exec(None),
        Ok(ExecBuiltinCmd::Type(Box::new(Cmd::Builtin(BuiltinCmd::Echo(String::new())))))
    );
    assert_eq!(BuiltinCmd::Type("  ".into()).into_exec(None), Err(ExecError::NoCommand));
    assert_eq!(BuiltinCmd::Type("a >".into()).into_exec(None), Err(ExecError::MissingTarget));
}

#[test]
fn output_records() {
    let o = ExecutedOutput::new().with_stdout(b"out").with_stderr(b"err");
    assert_eq!(o.stdout, b"out".to_vec());
    assert_eq!(o.stderr, b"err".to_vec());
}

#[test]
fn blanks_split_words() {
    assert_eq!(split_blanks("  a  bc d "), vec!["a", "bc", "d"]);
    assert!(split_blanks("").is_empty());
}

#[test]
fn redirections_group_by_stream() {
    let ws: Vec<String> = "ls > a >> b 2> c 2>> d 1>> e x"
        .split(' ')
        .map(|s| s.to_string())
        .collect();
    let (rs, vs) = parse_tokens(ws).unwrap();
    assert_eq!(vs, values(&["ls", "x"]));
    assert_eq!(rs[1].path(), "b");
    let r = Redirector::new(rs);
    assert_eq!(r.stdout, vec![RedirectToken::Stdout("a".into())]);
    assert_eq!(
        r.stdout_append,
        vec![RedirectToken::StdoutAppend("b".into()), RedirectToken::StdoutAppend("e".into())]
    );
    assert_eq!(r.stderr, vec![RedirectToken::Stderr("c".into())]);
    assert_eq!(r.stderr_append, vec![RedirectToken::StderrAppend("d".into())]);
    assert_eq!(
        TokenParser::new(vec!["a".into(), "2>>".into()]).parse(),
        Err(MissingTarget)
    );
}

#[test]
fn executables_from_lines() {

    assert_eq!(ExecutableFileCommand::command_of("ls -l  /tmp"), "ls");
    assert_eq!(
        ExecutableFileCommand::from_line("ls -l  /tmp", Some("/bin/ls".into())),
        Some(ExecutableFileCommand {
            command: "ls".into(),
            path: "/bin/ls".into(),
            args: vec!["-l".into(), "/tmp".into()]
        })
    );
    assert_eq!(ExecutableFileCommand::from_line("ls", None), None);
    assert_eq!(
        ExecFileCmd::new("ls".into(), vec![], Some("/bin/ls".into())),
        Some(ExecFileCmd { command: "ls".into(), path: "/bin/ls".into(), args: vec![] })
    );
    assert_eq!(ExecFileCmd::new("ls".into(), vec![], None), None);
}

#[test]
fn type_reports_on_stdout() {
    let echo = Cmd::Builtin(BuiltinCmd::Echo(String::new())).type_report();
    assert_eq!(echo.stdout, b"echo is a shell builtin".to_vec());
    assert!(echo.stderr.is_empty());
    let ls = Cmd::from_value_tokens(values(&["ls"]), Some("/bin/ls".into())).type_report();
    assert_eq!(ls.stdout, b"ls is /bin/ls".to_vec());
    let nope = Cmd::Invalid("nope".into()).type_report();
    assert_eq!(nope.stdout, b"nope: not found".to_vec());
    assert!(nope.stderr.is_empty());
}
