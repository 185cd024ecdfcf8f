use shell_engine::engine::{
    execute_pipeline_interruptible, execute_single_interruptible, execute_with_interrupt_support,
    pipeline_stages, plan_command, spawn_failure, Job,
};
use shell_engine::outcome::ErrorKind;
use shell_engine::pipeline::{Action, Event, Stdin};
use shell_engine::redirect::Output;

fn strings(items: &[&str]) -> Vec<String> {
    items.iter().map(|s| s.to_string()).collect()
}

fn builtin(cmd: &str, args: &[&str], output: Output) -> Job {
    Job::Builtin { cmd: cmd.to_string(), args: strings(args), output }
}

fn external(cmd: &str, args: &[&str], output: Output) -> Job {
    Job::External { cmd: cmd.to_string(), args: strings(args), output }
}

#[test]
fn a_blank_line_is_no_job() {
    assert_eq!(execute_with_interrupt_support(""), Job::Nothing);
    assert_eq!(execute_with_interrupt_support("    "), Job::Nothing);
    assert_eq!(execute_with_interrupt_support(" | "), Job::Nothing);
    assert_eq!(execute_with_interrupt_support("||"), Job::Nothing);
}

#[test]
fn a_redirection_alone_is_no_job() {
    assert_eq!(execute_with_interrupt_support("> out.txt"), Job::Nothing);
}

#[test]
fn registered_names_are_builtins() {
    assert_eq!(
        execute_with_interrupt_support("echo hello  world"),
        builtin("echo", &["hello", "world"], Output::StdOut)
    );
    assert_eq!(execute_with_interrupt_support("pwd"), builtin("pwd", &[], Output::StdOut));
    assert_eq!(
        execute_with_interrupt_support("cat a b"),
        builtin("cat", &["a", "b"], Output::StdOut)
    );
    assert_eq!(
        execute_with_interrupt_support("history 3"),
        builtin("history", &["3"], Output::StdOut)
    );
}

#[test]
fn other_names_are_programs() {
    assert_eq!(
        execute_with_interrupt_support("ls -l 'my dir'"),
        external("ls", &["-l", "my dir"], Output::StdOut)
    );
    assert_eq!(execute_with_interrupt_support("'exit'"), external("exit", &[], Output::StdOut));
}

#[test]
fn the_redirection_goes_with_the_job() {
    assert_eq!(
        execute_with_interrupt_support("echo hi > out.txt"),
        builtin("echo", &["hi"], Output::RedirectStdOut(strings(&[">", "out.txt"])))
    );
    assert_eq!(
        execute_with_interrupt_support("foo 2>> 'err log' rest"),
        external("foo", &[], Output::AppendStdErr(strings(&["2>>", "err log", "rest"])))
    );
}

#[test]
fn a_quoted_operator_still_redirects() {
    assert_eq!(
        execute_single_interruptible("echo '>' x"),
        builtin("echo", &[], Output::RedirectStdOut(strings(&[">", "x"])))
    );
}

#[test]
fn plan_command_takes_tokens() {
    assert_eq!(plan_command(vec![]), Job::Nothing);
    assert_eq!(
        plan_command(strings(&["type", "ls", "1>", "f"])),
        builtin("type", &["ls"], Output::RedirectStdOut(strings(&["1>", "f"])))
    );
}

#[test]
fn stages_are_trimmed_and_tokenized() {
    assert_eq!(
        pipeline_stages("  ls -l |grep 'a b'|  wc  "),
        vec![strings(&["ls", "-l"]), strings(&["grep", "a b"]), strings(&["wc"])]
    );
}

#[test]
fn stages_without_tokens_are_left_out() {
    assert_eq!(pipeline_stages("ls | | wc |"), vec![strings(&["ls"]), strings(&["wc"])]);
    assert_eq!(pipeline_stages("|"), Vec::<Vec<String>>::new());
    assert_eq!(pipeline_stages(""), Vec::<Vec<String>>::new());
}

#[test]
fn the_line_is_cut_at_every_bar() {
    assert_eq!(
        pipeline_stages("echo 'a|b'"),
        vec![strings(&["echo", "a"]), strings(&["b"])]
    );
}

#[test]
fn one_stage_is_a_single_command() {
    assert_eq!(execute_with_interrupt_support("ls |"), external("ls", &[], Output::StdOut));
    assert_eq!(
        execute_pipeline_interruptible("| echo hi > f"),
        builtin("echo", &["hi"], Output::RedirectStdOut(strings(&[">", "f"])))
    );
    assert_eq!(execute_pipeline_interruptible("ls"), external("ls", &[], Output::StdOut));
}

#[test]
fn two_stages_are_a_pipeline() {
    match execute_with_interrupt_support("ls -a | wc -l") {
        Job::Pipeline(mut p) => {
            assert_eq!(p.len(), 2);
            assert_eq!(
                p.advance(Event::Start),
                vec![Action::Spawn {
                    program: "ls".to_string(),
                    args: strings(&["-a"]),
                    stdin: Stdin::Inherit,
                    last: false,
                }]
            );
        }
        other => panic!("not a pipeline: {:?}", other),
    }
}

#[test]
fn a_pipeline_keeps_redirection_tokens_as_arguments() {
    match execute_with_interrupt_support("ls > f | wc") {
        Job::Pipeline(mut p) => {
            assert_eq!(
                p.advance(Event::Start),
                vec![Action::Spawn {
                    program: "ls".to_string(),
                    args: strings(&[">", "f"]),
                    stdin: Stdin::Inherit,
                    last: false,
                }]
            );
        }
        other => panic!("not a pipeline: {:?}", other),
    }
}

#[test]
fn a_program_that_cannot_start_is_a_failure() {
    assert_eq!(
        spawn_failure("nosuch"),
        Err(ErrorKind::CompleteFailure("nosuch: command not found".to_string()))
    );
}

#[test]
fn a_planned_command_keeps_every_token() {
    let tokens = strings(&["grep", "-n", "x", "2>", "err", "more"]);
    match plan_command(tokens.clone()) {
        Job::External { cmd, args, output: Output::RedirectStdErr(tail) } => {
            let mut all = vec![cmd];
            all.extend(args);
            all.extend(tail);
            assert_eq!(all, tokens);
        }
        other => panic!("unexpected job: {:?}", other),
    }
}
