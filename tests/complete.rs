use codecrafters_shell::complete::{
    complete_builtin, complete_candidates, completion_word, CompleteCandidate,
};

fn displays(v: &[CompleteCandidate]) -> Vec<String> {
    v.iter().map(|c| c.display.clone()).collect()
}

#[test]
fn candidate_adds_a_space() {
    let c = CompleteCandidate::new("echo");
    assert_eq!(c.display, "echo");
    assert_eq!(c.replacement, "echo ");
}

#[test]
fn builtins_complete_by_prefix() {
    assert_eq!(displays(&complete_builtin("e")), vec!["exit", "echo"]);
    assert_eq!(displays(&complete_builtin("ty")), vec!["type"]);
    assert!(complete_builtin("haha").is_empty());
}

#[test]
fn candidates_are_sorted_and_unique() {
    let found = vec!["expr".to_string(), "expand".to_string(), "expr".to_string()];
    let r = complete_candidates("ex", &found);
    assert_eq!(displays(&r), vec!["exit", "expand", "expr"]);
    assert_eq!(r[0].replacement, "exit ");
}

#[test]
fn completion_word_start() {
    assert_eq!(completion_word("ec"), (0, "ec".to_string()));
    assert_eq!(completion_word("echo he"), (5, "he".to_string()));
    assert_eq!(completion_word("echo 'ab"), (6, "ab".to_string()));
    assert_eq!(completion_word("echo "), (5, String::new()));
}
