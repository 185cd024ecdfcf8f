use shell_engine::builtins::{Builtins, FileRead, Probe, Step};
use shell_engine::outcome::{ErrorKind, PartialSuccess};

fn strings(items: &[&str]) -> Vec<String> {
    items.iter().map(|s| s.to_string()).collect()
}

fn failure(message: &str) -> Result<String, ErrorKind> {
    Err(ErrorKind::CompleteFailure(message.to_string()))
}

fn readable(name: &str, contents: &str) -> FileRead {
    FileRead { name: name.to_string(), contents: Some(contents.to_string()) }
}

fn unreadable(name: &str) -> FileRead {
    FileRead { name: name.to_string(), contents: None }
}

fn probe(path: &str, executable: bool) -> Probe {
    Probe { path: path.to_string(), executable }
}

#[test]
fn registry_knows_its_six_commands() {
    let builtins = Builtins::new();
    for name in ["echo", "pwd", "cd", "type", "cat", "history"] {
        assert!(builtins.recognizes(name));
    }
    for name in ["exit", "ls", "", "Echo", "echo ", "export"] {
        assert!(!builtins.recognizes(name));
    }
}

#[test]
fn echo_joins_with_single_spaces() {
    let builtins = Builtins::new();
    assert_eq!(builtins.echo(&strings(&["a", "b  c", "d"])), Ok("a b  c d\n".to_string()));
    assert_eq!(builtins.echo(&strings(&[])), Ok("\n".to_string()));
    assert_eq!(builtins.echo(&strings(&["one"])), Ok("one\n".to_string()));
}

#[test]
fn pwd_reports_the_working_directory() {
    assert_eq!(Builtins::new().pwd("/home/me"), Ok("/home/me".to_string()));
}

#[test]
fn history_numbers_lines_from_one() {
    let builtins = Builtins::new();
    let lines = strings(&["ls", "cd /tmp", "echo hi"]);
    assert_eq!(builtins.history(None, &lines), Ok("1 ls\n2 cd /tmp\n3 echo hi\n".to_string()));
}

#[test]
fn history_takes_the_first_n() {
    let builtins = Builtins::new();
    let lines = strings(&["ls", "cd /tmp", "echo hi"]);
    assert_eq!(builtins.history(Some("2"), &lines), Ok("1 ls\n2 cd /tmp\n".to_string()));
    assert_eq!(builtins.history(Some("0"), &lines), Ok("\n".to_string()));
    assert_eq!(
        builtins.history(Some("10"), &lines),
        Ok("1 ls\n2 cd /tmp\n3 echo hi\n".to_string())
    );
    assert_eq!(builtins.history(Some("+1"), &lines), Ok("1 ls\n".to_string()));
}

#[test]
fn history_without_lines_is_a_bare_newline() {
    assert_eq!(Builtins::new().history(None, &[]), Ok("\n".to_string()));
}

#[test]
fn history_wants_a_number() {
    let builtins = Builtins::new();
    let lines = strings(&["ls"]);
    assert_eq!(builtins.history(Some("two"), &lines), failure("numeric argument required"));
    assert_eq!(builtins.history(Some("-1"), &lines), failure("numeric argument required"));
    assert_eq!(builtins.history(Some(""), &lines), failure("numeric argument required"));
}

#[test]
fn history_numbers_go_past_nine() {
    let lines: Vec<String> = (0..12).map(|i| format!("cmd{}", i)).collect();
    let listed = Builtins::new().history(None, &lines).unwrap();
    assert!(listed.contains("9 cmd8\n10 cmd9\n11 cmd10\n12 cmd11\n"));
}

#[test]
fn cat_of_readable_files_is_success() {
    let files = [readable("a", "one\n"), readable("b", "two\n")];
    assert_eq!(Builtins::new().cat(&files), Ok("one\ntwo\n".to_string()));
}

#[test]
fn cat_of_unreadable_files_is_failure() {
    let files = [unreadable("nope")];
    assert_eq!(Builtins::new().cat(&files), failure("cat: nope: No such file or directory"));
}

#[test]
fn cat_of_both_is_partial_success() {
    let files = [readable("a", "one\n"), unreadable("x"), readable("b", "two\n"), unreadable("y")];
    assert_eq!(
        Builtins::new().cat(&files),
        Err(ErrorKind::PartialSuccess(PartialSuccess {
            success_data: "one\ntwo\n".to_string(),
            error_info: "cat: x: No such file or directory\ncat: y: No such file or directory"
                .to_string(),
        }))
    );
}

#[test]
fn cat_complains_on_one_line_for_each_unreadable_file() {
    let files = [unreadable("x"), unreadable("y"), unreadable("z")];
    assert_eq!(
        Builtins::new().cat(&files),
        failure(
            "cat: x: No such file or directory\n\
             cat: y: No such file or directory\n\
             cat: z: No such file or directory"
        )
    );
}

#[test]
fn cat_of_empty_files_is_failure() {
    assert_eq!(Builtins::new().cat(&[readable("a", "")]), failure(""));
    assert_eq!(Builtins::new().cat(&[]), failure(""));
}

#[test]
fn cd_goes_home_without_a_path() {
    let builtins = Builtins::new();
    assert_eq!(builtins.cd(""), Step::HomeDir);
    assert_eq!(builtins.cd(" "), Step::HomeDir);
    assert_eq!(builtins.cd("~"), Step::HomeDir);
}

#[test]
fn cd_takes_an_absolute_path_as_it_is() {
    assert_eq!(Builtins::new().cd("/usr/../bin"), Step::ChangeDir("/usr/../bin".to_string()));
    assert_eq!(Builtins::new().cd("/"), Step::ChangeDir("/".to_string()));
}

#[test]
fn cd_resolves_any_other_path() {
    assert_eq!(Builtins::new().cd("../c"), Step::Resolve("../c".to_string()));
    assert_eq!(Builtins::new().cd("~/x"), Step::Resolve("~/x".to_string()));
    assert_eq!(Builtins::new().cd("  "), Step::Resolve("  ".to_string()));
}

#[test]
fn resolve_steps_out_and_in() {
    assert_eq!(Builtins::new().resolve("/a/b", "../c"), Ok("/a/c".to_string()));
}

#[test]
fn resolve_drops_single_dots() {
    assert_eq!(Builtins::new().resolve("/a/b", "./c/./d"), Ok("/a/b/c/d".to_string()));
    assert_eq!(Builtins::new().resolve("/a/b", "."), Ok("/a/b".to_string()));
}

#[test]
fn resolve_of_a_plain_path_appends_it() {
    assert_eq!(Builtins::new().resolve("/a/b", "c/d"), Ok("/a/b/c/d".to_string()));
    assert_eq!(Builtins::new().resolve("/a", "b//c"), Ok("/a/b//c".to_string()));
}

#[test]
fn resolve_of_parent_removes_the_last_segment() {
    assert_eq!(Builtins::new().resolve("/a/b", ".."), Ok("/a".to_string()));
    assert_eq!(Builtins::new().resolve("/a/b/c", "../.."), Ok("/a".to_string()));
    assert_eq!(Builtins::new().resolve("/a", ".."), Ok("".to_string()));
}

#[test]
fn resolve_past_the_root_fails() {
    let builtins = Builtins::new();
    assert_eq!(
        builtins.resolve("/a/b", "../../../.."),
        failure("cd: ../../../..: No such file or directory")
    );
    assert_eq!(
        builtins.resolve("/", "../../.."),
        failure("cd: ../../..: No such file or directory")
    );
    assert_eq!(
        builtins.resolve("/a", "../../../b"),
        failure("cd: ../../../b: No such file or directory")
    );
}

#[test]
fn cd_result_tells_success_from_failure() {
    let builtins = Builtins::new();
    assert_eq!(builtins.cd_result("/tmp", true), Ok(String::new()));
    assert_eq!(
        builtins.cd_result("/nowhere", false),
        failure("cd: /nowhere: No such file or directory")
    );
}

#[test]
fn type_of_a_builtin() {
    let builtins = Builtins::new();
    for name in ["echo", "pwd", "cd", "type", "cat", "history", "exit"] {
        assert_eq!(
            builtins._type(Some(name)),
            Step::Done(Ok(format!("{} is a shell builtin", name)))
        );
    }
}

#[test]
fn type_without_a_name_is_empty() {
    assert_eq!(Builtins::new()._type(None), Step::Done(Ok(String::new())));
}

#[test]
fn type_of_anything_else_is_searched() {
    assert_eq!(Builtins::new()._type(Some("ls")), Step::Search("ls".to_string()));
}

#[test]
fn type_looks_in_each_directory_in_order() {
    assert_eq!(
        Builtins::new().type_candidates("ls", "/usr/bin:/bin:."),
        strings(&["/usr/bin/ls", "/bin/ls", "./ls"])
    );
    assert_eq!(Builtins::new().type_candidates("ls", ""), strings(&["/ls"]));
    assert_eq!(Builtins::new().type_candidates("ls", "/bin:"), strings(&["/bin/ls", "/ls"]));
}

#[test]
fn type_reports_the_first_executable() {
    let probes = [probe("/a/foo", false), probe("/b/foo", true), probe("/c/foo", true)];
    assert_eq!(Builtins::new().type_result("foo", &probes), Ok("foo is /b/foo".to_string()));
}

#[test]
fn type_without_an_executable_is_not_found() {
    let probes = [probe("/a/foo", false), probe("/b/foo", false)];
    assert_eq!(Builtins::new().type_result("foo", &probes), failure("foo: not found"));
    assert_eq!(Builtins::new().type_result("foo", &[]), failure("foo: not found"));
}

#[test]
fn execute_runs_echo_at_once() {
    assert_eq!(
        Builtins::new().execute("echo", &strings(&["a", "b"])),
        Step::Done(Ok("a b\n".to_string()))
    );
}

#[test]
fn execute_asks_for_what_the_others_need() {
    let builtins = Builtins::new();
    assert_eq!(builtins.execute("pwd", &strings(&["ignored"])), Step::WorkingDir);
    assert_eq!(builtins.execute("cd", &strings(&[])), Step::HomeDir);
    assert_eq!(builtins.execute("cd", &strings(&["~", "x"])), Step::HomeDir);
    assert_eq!(builtins.execute("cd", &strings(&["/tmp"])), Step::ChangeDir("/tmp".to_string()));
    assert_eq!(builtins.execute("cd", &strings(&["src"])), Step::Resolve("src".to_string()));
    assert_eq!(builtins.execute("type", &strings(&["ls", "cd"])), Step::Search("ls".to_string()));
    assert_eq!(
        builtins.execute("type", &strings(&["cd"])),
        Step::Done(Ok("cd is a shell builtin".to_string()))
    );
    assert_eq!(builtins.execute("type", &strings(&[])), Step::Done(Ok(String::new())));
    assert_eq!(
        builtins.execute("cat", &strings(&["a", "b"])),
        Step::ReadFiles(strings(&["a", "b"]))
    );
    assert_eq!(builtins.execute("history", &strings(&[])), Step::ReadHistory(None));
    assert_eq!(
        builtins.execute("history", &strings(&["3", "x"])),
        Step::ReadHistory(Some("3".to_string()))
    );
}

#[test]
fn execute_does_not_know_other_commands() {
    assert_eq!(
        Builtins::new().execute("ls", &strings(&["-l"])),
        Step::Done(failure("ls: command not found"))
    );
    assert_eq!(
        Builtins::new().execute("exit", &strings(&[])),
        Step::Done(failure("exit: command not found"))
    );
}
