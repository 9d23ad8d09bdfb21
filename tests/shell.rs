use codecrafters_shell::builtin::{
    cd_failure, cd_target, command_not_found, echo_output, exit_plan, history_output, pwd_output,
    type_output, ExitPlan,
};
use codecrafters_shell::command::{
    BuildError, BuiltinCommand, Command, CommandArgs, InvalidCommand, PErr, PIn, POut,
    PathCommand, PipeCommands, Settle, StdioCommand,
};
use codecrafters_shell::parse::{ParseError, Stage, StreamCommandParser};
use codecrafters_shell::search::{first_found, path_candidates};

fn stages(line: &str) -> Vec<Stage> {
    StreamCommandParser::new(line).finish().unwrap()
}

fn args(a: &[&str]) -> CommandArgs {
    CommandArgs(a.iter().map(|s| s.to_string()).collect())
}

fn words(a: &[&str]) -> Vec<String> {
    a.iter().map(|s| s.to_string()).collect()
}

#[test]
fn quotes_and_escapes_make_words() {
    let s = stages("\"a\" 'b' c\\ d");
    assert_eq!(s.len(), 1);
    assert_eq!(s[0].words, words(&["a", "b", "c d"]));
}

#[test]
fn empty_quoted_arguments() {
    let s = stages("echo '' \"\" x");
    assert_eq!(s[0].words, words(&["echo", "", "", "x"]));
}

#[test]
fn adjacent_fragments_merge() {
    let s = stages("'hello'world \"a\"'b'c");
    assert_eq!(s[0].words, words(&["helloworld", "abc"]));
}

#[test]
fn build_twice_gives_equal_commands() {
    let line = stages("ls -l | wc > out");
    let found = vec![Some("/bin/ls".to_string()), Some("/usr/bin/wc".to_string())];
    let first = PipeCommands::build(&line, &found).unwrap();
    let second = PipeCommands::build(&line, &found).unwrap();
    assert_eq!(first, second);
}

#[test]
fn unknown_command_is_invalid() {
    let line = stages("some_command arg");
    let p = PipeCommands::build(&line, &vec![None]).unwrap();
    assert_eq!(p.commands[0].inner, Command::Invalid(InvalidCommand("some_command".into())));
    assert_eq!(command_not_found("some_command"), "some_command: command not found\n");
}

#[test]
fn echo_joins_with_single_spaces() {
    for (line, expected) in [("echo 1 2 3", "1 2 3\n"), ("echo 4  5   6", "4 5 6\n")] {
        let s = stages(line);
        let p = PipeCommands::build(&s, &vec![None]).unwrap();
        match &p.commands[0].inner {
            Command::Builtin(BuiltinCommand::Echo(a)) => assert_eq!(echo_output(a), expected),
            other => panic!("not echo: {other:?}"),
        }
    }
    assert_eq!(echo_output(&args(&[])), "\n");
}

#[test]
fn cd_reports_missing_directory() {
    assert_eq!(
        cd_failure("/nonexistent"),
        "cd: /nonexistent: No such file or directory\n"
    );
    assert_eq!(cd_target(&args(&["/nonexistent"]), None), Ok("/nonexistent".to_string()));
    assert_eq!(cd_target(&args(&[]), None), Err("cd: No path given".to_string()));
    assert_eq!(cd_target(&args(&["a", "b"]), None), Err("cd: No path given".to_string()));
}

#[test]
fn cd_expands_home() {
    let home = Some("/home/me".to_string());
    assert_eq!(cd_target(&args(&["~"]), home.clone()), Ok("/home/me/".to_string()));
    assert_eq!(cd_target(&args(&["~/x"]), home.clone()), Ok("/home/me//x".to_string()));
    assert_eq!(cd_target(&args(&["a~"]), home.clone()), Ok("a~".to_string()));
    assert_eq!(cd_target(&args(&["~"]), Some("/root/".into())), Ok("/root/".to_string()));
    assert_eq!(cd_target(&args(&["~"]), None), Ok("~".to_string()));
}

#[test]
fn output_fans_out_to_every_file() {
    let s = stages("echo > f1 > f2 \"x\"");
    let p = PipeCommands::build(&s, &vec![None]).unwrap();
    let c = &p.commands[0];
    assert_eq!(
        c.stdout,
        vec![
            POut::File { path: "f1".into(), append: false },
            POut::File { path: "f2".into(), append: false },
        ]
    );
    match &c.inner {
        Command::Builtin(BuiltinCommand::Echo(a)) => assert_eq!(echo_output(a), "x\n"),
        other => panic!("not echo: {other:?}"),
    }
}

#[test]
fn pipeline_waits_only_for_last_stage() {
    let s = stages("cat file | wc");
    let found = vec![Some("/bin/cat".to_string()), Some("/usr/bin/wc".to_string())];
    let p = PipeCommands::build(&s, &found).unwrap();
    assert_eq!(p.commands[0].stdin, PIn::Std);
    assert_eq!(p.commands[0].stdout, vec![POut::Pipe]);
    assert_eq!(p.commands[1].stdin, PIn::Pipe);
    assert_eq!(p.commands[1].stdout, vec![POut::Std]);
    assert_eq!(p.settlement(), vec![Settle::Kill, Settle::Wait]);
    assert_eq!(
        p.commands[0].inner,
        Command::Path(PathCommand { path: "/bin/cat".into(), args: args(&["file"]) })
    );
}

#[test]
fn redirections_win_over_pipes() {
    let s = stages("a > f | b < g | c");
    let found = vec![Some("/a".to_string()), Some("/b".to_string()), Some("/c".to_string())];
    let p = PipeCommands::build(&s, &found).unwrap();
    assert_eq!(p.commands[0].stdout, vec![POut::File { path: "f".into(), append: false }]);
    assert_eq!(p.commands[1].stdin, PIn::File("g".into()));
    assert_eq!(p.commands[1].stdout, vec![POut::Pipe]);
    assert_eq!(p.commands[2].stdin, PIn::Pipe);
    assert_eq!(p.settlement(), vec![Settle::Kill, Settle::Kill, Settle::Wait]);
}

#[test]
fn type_reports_builtins_and_paths() {
    let a = args(&["exit", "echo", "my_executable", "invalid_command"]);
    let found = vec![None, None, Some("/tmp/bin/my_executable".to_string()), None];
    assert_eq!(
        type_output(&a, &found),
        "exit is a shell builtin\necho is a shell builtin\n\
         my_executable is /tmp/bin/my_executable\ninvalid_command: not found\n"
    );
    let h = args(&["history", "type"]);
    assert_eq!(
        type_output(&h, &vec![None, None]),
        "history is a shell builtin\ntype is a shell builtin\n"
    );
}

#[test]
fn unfinished_input_is_an_error() {
    let r = StreamCommandParser::new("echo 'abc").finish();
    assert_eq!(r, Err(ParseError::Unfinished("echo 'abc\n".into())));
    let r = StreamCommandParser::new("echo >").finish();
    assert_eq!(r, Err(ParseError::Unfinished("echo >\n".into())));
}

#[test]
fn empty_stage_is_an_error() {
    assert_eq!(
        StreamCommandParser::new("a | | b").finish(),
        Err(ParseError::EmptyStage("a | | b\n".into()))
    );
    assert_eq!(
        StreamCommandParser::new("a |").finish(),
        Err(ParseError::EmptyStage("a |\n".into()))
    );
    assert_eq!(
        StreamCommandParser::new("> f").finish(),
        Err(ParseError::EmptyStage("> f\n".into()))
    );
}

#[test]
fn bad_descriptors_are_errors() {
    let s = stages("cat 3> f");
    assert_eq!(PipeCommands::build(&s, &vec![None]), Err(BuildError::OutputDescriptor(3)));
    let s = stages("cat 1< f");
    assert_eq!(PipeCommands::build(&s, &vec![None]), Err(BuildError::InputDescriptor(1)));
    let empty = Stage { words: vec![], redirects: vec![] };
    assert_eq!(StdioCommand::build(&empty, None), Err(BuildError::NoCommand));
}

#[test]
fn stderr_redirections_and_appends() {
    let s = stages("cd 2> e1 2>> e2 >> o");
    let p = PipeCommands::build(&s, &vec![None]).unwrap();
    let c = &p.commands[0];
    assert_eq!(
        c.stderr,
        vec![
            PErr::File { path: "e1".into(), append: false },
            PErr::File { path: "e2".into(), append: true },
        ]
    );
    assert_eq!(c.stdout, vec![POut::File { path: "o".into(), append: true }]);
    assert_eq!(c.stdin, PIn::Std);
}

#[test]
fn incremental_push_matches_whole_line() {
    let mut p = StreamCommandParser::new("ec");
    assert!(!p.is_empty());
    assert_eq!(p.parsed().len(), 0);
    assert_eq!(p.remaining(), "ec");
    p.push("ho he");
    assert_eq!(p.parsed().len(), 1);
    assert_eq!(p.parsed()[0].0, "echo");
    assert_eq!(p.remaining(), " he");
    p.push("llo");
    assert_eq!(p.input(), "echo hello");
    let s = p.finish().unwrap();
    assert_eq!(s[0].words, words(&["echo", "hello"]));
}

#[test]
fn blank_parser_is_empty() {
    assert!(StreamCommandParser::new("").is_empty());
    assert!(StreamCommandParser::new("  \t").is_empty());
    assert!(!StreamCommandParser::new("a\n").is_empty());
}

#[test]
fn exit_codes() {
    assert_eq!(exit_plan(&args(&[])), ExitPlan { code: 0, message: None });
    assert_eq!(exit_plan(&args(&["3"])), ExitPlan { code: 3, message: None });
    assert_eq!(exit_plan(&args(&["-7", "x"])), ExitPlan { code: -7, message: None });
    assert_eq!(
        exit_plan(&args(&["a", "b"])),
        ExitPlan { code: -1, message: Some("invalid args: [a,b]".into()) }
    );
    assert_eq!(
        exit_plan(&args(&["2147483648"])),
        ExitPlan { code: -1, message: Some("invalid args: [2147483648]".into()) }
    );
    assert_eq!(exit_plan(&args(&["-2147483648"])), ExitPlan { code: i32::MIN, message: None });
    assert_eq!(exit_plan(&args(&["+5"])), ExitPlan { code: 5, message: None });
}

#[test]
fn history_lists_entries() {
    let content = "echo a\r\nls\r\npwd\r\n";
    assert_eq!(
        history_output(content, &args(&[])),
        ("    1 echo a\n    2 ls\n    3 pwd\n".to_string(), String::new())
    );
    assert_eq!(
        history_output(content, &args(&["2"])),
        ("    2 ls\n    3 pwd\n".to_string(), String::new())
    );
    assert_eq!(
        history_output(content, &args(&["9"])),
        ("    1 echo a\n    2 ls\n    3 pwd\n".to_string(), String::new())
    );
    assert_eq!(
        history_output(content, &args(&["x"])),
        (
            "    1 echo a\n    2 ls\n    3 pwd\n".to_string(),
            "invalid limiting entries, not a number: x\n".to_string()
        )
    );
    assert_eq!(history_output("", &args(&[])), (String::new(), String::new()));
}

#[test]
fn pwd_prints_directory() {
    assert_eq!(pwd_output("/tmp"), "/tmp\n");
}

#[test]
fn search_path_candidates() {
    assert_eq!(
        path_candidates("/bin:/usr/bin/::rel", "ls"),
        vec!["/bin/ls", "/usr/bin/ls", "ls", "rel/ls"]
    );
    assert_eq!(path_candidates("/bin", "/abs/x"), vec!["/abs/x"]);
    let cands = path_candidates("/a:/b:/c", "x");
    assert_eq!(first_found(&cands, &vec![false, true, true]), Some("/b/x".to_string()));
    assert_eq!(first_found(&cands, &vec![false, false, false]), None);
}

#[test]
fn builtin_names() {
    assert_eq!(BuiltinCommand::from_name("echo"), Some(BuiltinCommand::Echo(args(&[]))));
    assert_eq!(BuiltinCommand::from_name("pwd"), Some(BuiltinCommand::Pwd));
    assert_eq!(BuiltinCommand::from_name("Echo"), None);
    assert_eq!(BuiltinCommand::from_name("ech"), None);
    assert_eq!(BuiltinCommand::Pwd.with_args(args(&["x"])), BuiltinCommand::Pwd);
    assert_eq!(
        BuiltinCommand::Cd(args(&[])).with_args(args(&["x"])),
        BuiltinCommand::Cd(args(&["x"]))
    );
    assert_eq!(BuiltinCommand::History(args(&[])).name(), "history");
    assert_eq!(
        Command::resolve("pwd", args(&["a"]), None),
        Command::Builtin(BuiltinCommand::Pwd)
    );
}
