use shell_engine::completion::{common_prefix, completions_of, text_order, Order};

fn strings(items: &[&str]) -> Vec<String> {
    items.iter().map(|s| s.to_string()).collect()
}

#[test]
fn order_is_by_character() {
    assert_eq!(text_order("a", "b"), Order::Before);
    assert_eq!(text_order("b", "a"), Order::After);
    assert_eq!(text_order("abc", "abc"), Order::Same);
    assert_eq!(text_order("", ""), Order::Same);
    assert_eq!(text_order("", "a"), Order::Before);
    assert_eq!(text_order("ab", "abc"), Order::Before);
    assert_eq!(text_order("abd", "abc"), Order::After);
    assert_eq!(text_order("Z", "a"), Order::Before);
    assert_eq!(text_order("z", "é"), Order::Before);
}

#[test]
fn order_agrees_with_string_order() {
    let samples = ["", "a", "ab", "b", "B", "é", "zz", "10", "9", "a b", "\u{10000}", "\u{ffff}"];
    for x in samples {
        for y in samples {
            let expected = match x.cmp(y) {
                std::cmp::Ordering::Less => Order::Before,
                std::cmp::Ordering::Equal => Order::Same,
                std::cmp::Ordering::Greater => Order::After,
            };
            assert_eq!(text_order(x, y), expected);
        }
    }
}

#[test]
fn completions_are_sorted_and_unique() {
    let names = strings(&["echoes", "ls", "echo", "ed", "echoes", "env"]);
    assert_eq!(completions_of("e", &names), strings(&["echo", "echoes", "ed", "env", "exit", "export"]));
}

#[test]
fn completions_include_the_shells_own() {
    assert_eq!(completions_of("", &[]), strings(&["cd", "echo", "exit", "export", "pwd"]));
    assert_eq!(completions_of("ex", &[]), strings(&["exit", "export"]));
    assert_eq!(completions_of("p", &strings(&["ps", "pwd"])), strings(&["ps", "pwd"]));
}

#[test]
fn completions_may_be_none() {
    assert_eq!(completions_of("zzz", &strings(&["ls", "cat"])), Vec::<String>::new());
}

#[test]
fn completions_agree_with_sort_and_dedup() {
    let names = strings(&["gcc", "git", "grep", "g++", "gzip", "git", "ls", "gawk", "go", "g"]);
    let mut expected: Vec<String> = names.iter().filter(|n| n.starts_with("g")).cloned().collect();
    expected.sort();
    expected.dedup();
    assert_eq!(completions_of("g", &names), expected);
}

#[test]
fn common_prefix_is_the_longest() {
    assert_eq!(common_prefix(&strings(&["export", "exit", "exec"])), "ex");
    assert_eq!(common_prefix(&strings(&["echo", "echoes"])), "echo");
    assert_eq!(common_prefix(&strings(&["echoes", "echo"])), "echo");
    assert_eq!(common_prefix(&strings(&["abc", "xyz"])), "");
    assert_eq!(common_prefix(&strings(&["same", "same"])), "same");
}

#[test]
fn common_prefix_of_one_or_none() {
    assert_eq!(common_prefix(&strings(&["alone"])), "alone");
    assert_eq!(common_prefix(&[]), "");
}

#[test]
fn common_prefix_counts_characters() {
    assert_eq!(common_prefix(&strings(&["été", "étage"])), "ét");
}
