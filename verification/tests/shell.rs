use shell_engine::shell::{exit_code, prompt, KeyPress, Reaction, Shell};

fn strings(items: &[&str]) -> Vec<String> {
    items.iter().map(|s| s.to_string()).collect()
}

fn typed(text: &str) -> Shell {
    let mut shell = Shell::new();
    for c in text.chars() {
        shell.insert_char(c);
    }
    shell
}

#[test]
fn a_new_shell_is_empty() {
    let shell = Shell::new();
    assert_eq!(shell.input(), "");
    assert_eq!(shell.cursor_pos(), 0);
    assert!(!shell.last_key_was_tab());
    assert_eq!(shell.history(), &Vec::<String>::new());
    assert_eq!(shell.history_index(), 0);
    assert!(shell.cursor_in_line());
}

#[test]
fn history_records_lines_that_are_not_empty() {
    let mut shell = Shell::new();
    shell.add_to_history("ls".to_string());
    shell.add_to_history(String::new());
    shell.add_to_history("pwd".to_string());
    assert_eq!(shell.history(), &strings(&["ls", "pwd"]));
    assert_eq!(shell.history_index(), 2);
}

#[test]
fn history_prev_walks_back_and_stops() {
    let mut shell = typed("dra");
    shell.add_to_history("ls".to_string());
    shell.add_to_history("pwd".to_string());
    shell.history_prev();
    assert_eq!(shell.input(), "pwd");
    assert_eq!(shell.history_index(), 1);
    shell.history_prev();
    assert_eq!(shell.input(), "ls");
    assert_eq!(shell.history_index(), 0);
    shell.history_prev();
    assert_eq!(shell.input(), "ls");
    assert_eq!(shell.history_index(), 0);
    // The cursor stays where it was.
    assert_eq!(shell.cursor_pos(), 3);
}

#[test]
fn history_prev_without_history_does_nothing() {
    let mut shell = typed("abc");
    shell.history_prev();
    assert_eq!(shell, typed("abc"));
}

#[test]
fn history_next_walks_forward_and_brings_the_draft_back() {
    let mut shell = typed("draft");
    shell.add_to_history("ls".to_string());
    shell.add_to_history("pwd -L".to_string());
    shell.history_prev();
    shell.history_prev();
    shell.history_next();
    assert_eq!(shell.input(), "pwd -L");
    assert_eq!(shell.cursor_pos(), 6);
    assert_eq!(shell.history_index(), 1);
    shell.history_next();
    assert_eq!(shell.input(), "draft");
    assert_eq!(shell.cursor_pos(), 5);
    assert_eq!(shell.history_index(), 2);
    shell.history_next();
    assert_eq!(shell.input(), "draft");
    assert_eq!(shell.history_index(), 2);
}

#[test]
fn history_next_outside_the_history_does_nothing() {
    let mut shell = typed("abc");
    shell.add_to_history("ls".to_string());
    let before = typed("abc");
    shell.history_next();
    assert_eq!(shell.input(), before.input());
    assert_eq!(shell.cursor_pos(), 3);
    assert_eq!(shell.history_index(), 1);
}

#[test]
fn completions_come_from_names_and_the_shell() {
    let shell = typed("ec");
    assert_eq!(
        shell.get_completions(&strings(&["ed", "echoes", "ls"])),
        strings(&["echo", "echoes"])
    );
}

#[test]
fn complete_takes_a_single_completion() {
    let mut shell = typed("pw");
    assert_eq!(shell.complete(&strings(&["ls"])), Some("pwd".to_string()));
    assert_eq!(shell.input(), "pwd");
    assert_eq!(shell.cursor_pos(), 3);
}

#[test]
fn complete_takes_the_common_prefix_of_several() {
    let mut shell = typed("ex");
    assert_eq!(shell.complete(&strings(&["expand", "expr"])), None);
    let mut shell = typed("g");
    assert_eq!(shell.complete(&strings(&["grow", "grep", "ls"])), Some("gr".to_string()));
    assert_eq!(shell.input(), "gr");
    assert_eq!(shell.cursor_pos(), 2);
}

#[test]
fn complete_without_completions_changes_nothing() {
    let mut shell = typed("zz");
    assert_eq!(shell.complete(&strings(&["ls"])), None);
    assert_eq!(shell, typed("zz"));
}

#[test]
fn common_prefix_of_completions() {
    let shell = Shell::new();
    assert_eq!(shell.find_common_prefix(&strings(&["export", "exit"])), "ex");
    assert_eq!(shell.find_common_prefix(&[]), "");
}

#[test]
fn redraw_clears_and_writes_the_line() {
    assert_eq!(typed("ls -l").redraw_line(), "\r\x1b[2K$ ls -l");
    assert_eq!(Shell::new().redraw_line(), "\r\x1b[2K$ ");
}

#[test]
fn redraw_moves_the_cursor_back_to_its_place() {
    let mut shell = typed("ab");
    shell.add_to_history("a long line here".to_string());
    shell.history_prev();
    assert_eq!(shell.cursor_pos(), 2);
    assert_eq!(shell.redraw_line(), "\r\x1b[2K$ a long line here\x1b[14D");
}

#[test]
fn prompt_is_on_a_cleared_line() {
    assert_eq!(prompt(), "\r\x1b[2K$ ");
}

#[test]
fn typing_inserts_at_the_cursor() {
    let mut shell = Shell::new();
    assert_eq!(shell.handle_key(KeyPress::Char('l')), Reaction::Show("\r\x1b[2K$ l".to_string()));
    assert_eq!(
        shell.handle_key(KeyPress::Char('s')),
        Reaction::Show("\r\x1b[2K$ ls".to_string())
    );
    assert_eq!(shell.input(), "ls");
    assert_eq!(shell.cursor_pos(), 2);

    let mut shell = typed("ac");
    shell.add_to_history("xyz".to_string());
    shell.history_prev();
    shell.backspace();
    assert_eq!(shell.input(), "xz");
    assert_eq!(shell.cursor_pos(), 1);
    shell.insert_char('é');
    assert_eq!(shell.input(), "xéz");
    assert_eq!(shell.cursor_pos(), 2);
}

#[test]
fn backspace_deletes_before_the_cursor() {
    let mut shell = typed("abc");
    assert_eq!(
        shell.handle_key(KeyPress::Backspace),
        Reaction::Show("\r\x1b[2K$ ab".to_string())
    );
    assert_eq!(shell.input(), "ab");
    assert_eq!(shell.cursor_pos(), 2);
}

#[test]
fn backspace_at_the_start_does_nothing() {
    let mut shell = Shell::new();
    assert_eq!(shell.handle_key(KeyPress::Backspace), Reaction::Ignore);
    assert_eq!(shell, Shell::new());
    assert!(!shell.backspace());
}

#[test]
fn return_hands_the_line_over_and_starts_anew() {
    let mut shell = typed("echo hi ");
    assert_eq!(shell.handle_key(KeyPress::Char('\n')), Reaction::Run("echo hi ".to_string()));
    assert_eq!(shell.input(), "");
    assert_eq!(shell.cursor_pos(), 0);
}

#[test]
fn return_on_exit_leaves_the_shell() {
    let mut shell = typed("exit 3");
    assert_eq!(shell.handle_key(KeyPress::Char('\n')), Reaction::Exit(3));
    let mut shell = typed("  exit");
    assert_eq!(shell.handle_key(KeyPress::Char('\n')), Reaction::Exit(0));
}

#[test]
fn control_c_leaves_the_shell() {
    let mut shell = typed("anything");
    assert_eq!(shell.handle_key(KeyPress::Ctrl('c')), Reaction::Exit(0));
    assert_eq!(shell.handle_key(KeyPress::Ctrl('d')), Reaction::Ignore);
}

#[test]
fn other_keys_are_ignored() {
    let mut shell = typed("abc");
    assert_eq!(shell.handle_key(KeyPress::Other), Reaction::Ignore);
    assert_eq!(shell, typed("abc"));
}

#[test]
fn tab_key_asks_for_completion() {
    let mut shell = typed("ec");
    assert_eq!(shell.handle_key(KeyPress::Char('\t')), Reaction::Complete);
    assert_eq!(shell.input(), "ec");
    assert!(!shell.last_key_was_tab());
}

#[test]
fn tab_without_completions_rings_the_bell() {
    let mut shell = typed("zz");
    assert_eq!(shell.tab(&strings(&["ls"])), "\r\x07");
    assert!(shell.last_key_was_tab());
    assert_eq!(shell.input(), "zz");
}

#[test]
fn tab_with_one_completion_takes_it_with_a_space() {
    let mut shell = typed("ech");
    assert_eq!(shell.tab(&strings(&["ls"])), "\r\x1b[2K$ echo ");
    assert_eq!(shell.input(), "echo ");
    assert_eq!(shell.cursor_pos(), 5);
    assert!(shell.last_key_was_tab());
}

#[test]
fn first_tab_with_several_takes_the_common_prefix() {
    let mut shell = typed("g");
    assert_eq!(shell.tab(&strings(&["grow", "grep", "ls"])), "\r\x1b[2K$ gr");
    assert_eq!(shell.input(), "gr");
    assert_eq!(shell.cursor_pos(), 2);
}

#[test]
fn first_tab_rings_when_the_prefix_adds_nothing() {
    let mut shell = typed("ex");
    assert_eq!(shell.tab(&strings(&[])), "\x07");
    assert_eq!(shell.input(), "ex");
    assert!(shell.last_key_was_tab());
}

#[test]
fn second_tab_lists_the_completions() {
    let mut shell = typed("ex");
    shell.tab(&strings(&["expr"]));
    assert_eq!(
        shell.tab(&strings(&["expr"])),
        "\r\nexit  export  expr  \r\n\r\x1b[2K$ ex"
    );
    assert!(shell.last_key_was_tab());
}

#[test]
fn a_key_between_two_tabs_forgets_the_first() {
    let mut shell = typed("ex");
    shell.tab(&strings(&[]));
    shell.handle_key(KeyPress::Other);
    assert!(!shell.last_key_was_tab());
    assert_eq!(shell.tab(&strings(&[])), "\x07");
}

#[test]
fn exit_code_reads_the_second_word() {
    assert_eq!(exit_code("exit"), Some(0));
    assert_eq!(exit_code("exit 7"), Some(7));
    assert_eq!(exit_code("  exit   -2  now "), Some(-2));
    assert_eq!(exit_code("exit abc"), Some(0));
    assert_eq!(exit_code("exit 99999999999"), Some(0));
    assert_eq!(exit_code("exiting 5"), Some(5));
}

#[test]
fn exit_code_only_for_lines_that_begin_with_exit() {
    assert_eq!(exit_code("echo exit"), None);
    assert_eq!(exit_code(""), None);
    assert_eq!(exit_code("exi"), None);
    assert_eq!(exit_code("'exit'"), None);
}

#[test]
fn backspace_undoes_typing() {
    let mut shell = typed("abc");
    shell.insert_char('x');
    assert_eq!(shell.input(), "abcx");
    assert!(shell.backspace());
    assert_eq!(shell, typed("abc"));
}

#[test]
fn back_into_history_and_forth_restores_the_draft() {
    let mut shell = typed("half a li");
    shell.add_to_history("ls".to_string());
    shell.history_prev();
    assert_eq!(shell.input(), "ls");
    shell.history_next();
    assert_eq!(shell.input(), "half a li");
    assert_eq!(shell.cursor_pos(), 9);
    assert_eq!(shell.history_index(), 1);
}
