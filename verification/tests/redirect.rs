use shell_engine::redirect::{plan_redirection, Output};

fn strings(items: &[&str]) -> Vec<String> {
    items.iter().map(|s| s.to_string()).collect()
}

#[test]
fn replace_stdout_is_split_off() {
    let (command, output) = plan_redirection(strings(&["echo", "hi", ">", "out.txt"]));
    assert_eq!(command, strings(&["echo", "hi"]));
    assert_eq!(output, Output::RedirectStdOut(strings(&[">", "out.txt"])));
    assert_eq!(output.target(), Some(&"out.txt".to_string()));
}

#[test]
fn no_operator_no_redirection() {
    let (command, output) = plan_redirection(strings(&["echo", "a>b", "2>x"]));
    assert_eq!(command, strings(&["echo", "a>b", "2>x"]));
    assert_eq!(output, Output::StdOut);
    assert_eq!(output.target(), None);
}

#[test]
fn no_tokens_no_redirection() {
    let (command, output) = plan_redirection(Vec::new());
    assert_eq!(command, Vec::<String>::new());
    assert_eq!(output, Output::StdOut);
}

#[test]
fn each_operator_has_its_plan() {
    let (c, o) = plan_redirection(strings(&["ls", "2>>", "e"]));
    assert_eq!((c, o), (strings(&["ls"]), Output::AppendStdErr(strings(&["2>>", "e"]))));
    let (c, o) = plan_redirection(strings(&["ls", "2>", "e"]));
    assert_eq!((c, o), (strings(&["ls"]), Output::RedirectStdErr(strings(&["2>", "e"]))));
    let (c, o) = plan_redirection(strings(&["ls", ">>", "e"]));
    assert_eq!((c, o), (strings(&["ls"]), Output::AppendStdOut(strings(&[">>", "e"]))));
    let (c, o) = plan_redirection(strings(&["ls", "1>>", "e"]));
    assert_eq!((c, o), (strings(&["ls"]), Output::AppendStdOut(strings(&["1>>", "e"]))));
    let (c, o) = plan_redirection(strings(&["ls", ">", "e"]));
    assert_eq!((c, o), (strings(&["ls"]), Output::RedirectStdOut(strings(&[">", "e"]))));
    let (c, o) = plan_redirection(strings(&["ls", "1>", "e"]));
    assert_eq!((c, o), (strings(&["ls"]), Output::RedirectStdOut(strings(&["1>", "e"]))));
}

#[test]
fn earlier_kind_wins_over_earlier_place() {
    let (command, output) = plan_redirection(strings(&["a", ">", "f", "2>>", "g"]));
    assert_eq!(command, strings(&["a", ">", "f"]));
    assert_eq!(output, Output::AppendStdErr(strings(&["2>>", "g"])));

    let (command, output) = plan_redirection(strings(&["a", ">", "f", ">>", "g", "2>", "h"]));
    assert_eq!(command, strings(&["a", ">", "f", ">>", "g"]));
    assert_eq!(output, Output::RedirectStdErr(strings(&["2>", "h"])));
}

#[test]
fn first_occurrence_of_the_kind_cuts() {
    let (command, output) = plan_redirection(strings(&["a", "1>", "f", ">", "g"]));
    assert_eq!(command, strings(&["a"]));
    assert_eq!(output, Output::RedirectStdOut(strings(&["1>", "f", ">", "g"])));
    assert_eq!(output.target(), Some(&"f".to_string()));
}

#[test]
fn what_follows_the_target_is_kept_in_the_tail() {
    let (command, output) = plan_redirection(strings(&["a", ">>", "f", "extra", "more"]));
    assert_eq!(command, strings(&["a"]));
    assert_eq!(output, Output::AppendStdOut(strings(&[">>", "f", "extra", "more"])));
    assert_eq!(output.target(), Some(&"f".to_string()));
}

#[test]
fn operator_without_file_has_no_target() {
    let (command, output) = plan_redirection(strings(&["echo", "hi", ">"]));
    assert_eq!(command, strings(&["echo", "hi"]));
    assert_eq!(output, Output::RedirectStdOut(strings(&[">"])));
    assert_eq!(output.target(), None);
}

#[test]
fn operator_first_leaves_no_command() {
    let (command, output) = plan_redirection(strings(&[">", "f"]));
    assert_eq!(command, Vec::<String>::new());
    assert_eq!(output, Output::RedirectStdOut(strings(&[">", "f"])));
}

#[test]
fn command_and_tail_make_the_tokens() {
    let tokens = strings(&["a", "b", "2>", "c", "d"]);
    let (mut command, output) = plan_redirection(tokens.clone());
    if let Output::RedirectStdErr(tail) = output {
        command.extend(tail);
    }
    assert_eq!(command, tokens);
}
