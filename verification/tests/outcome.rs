use shell_engine::outcome::{process_partial_results, ErrorKind, PartialSuccess};

#[test]
fn nothing_on_either_channel_is_failure() {
    assert_eq!(
        process_partial_results(String::new(), String::new()),
        Err(ErrorKind::CompleteFailure(String::new()))
    );
}

#[test]
fn output_alone_is_success() {
    assert_eq!(process_partial_results("ok".to_string(), String::new()), Ok("ok".to_string()));
}

#[test]
fn errors_alone_are_failure() {
    assert_eq!(
        process_partial_results(String::new(), "err".to_string()),
        Err(ErrorKind::CompleteFailure("err".to_string()))
    );
}

#[test]
fn output_and_errors_are_partial_success() {
    assert_eq!(
        process_partial_results("ok".to_string(), "err".to_string()),
        Err(ErrorKind::PartialSuccess(PartialSuccess {
            success_data: "ok".to_string(),
            error_info: "err".to_string(),
        }))
    );
}

#[test]
fn whitespace_counts_as_text() {
    assert_eq!(process_partial_results(" ".to_string(), String::new()), Ok(" ".to_string()));
    assert_eq!(
        process_partial_results("\n".to_string(), "\n".to_string()),
        Err(ErrorKind::PartialSuccess(PartialSuccess {
            success_data: "\n".to_string(),
            error_info: "\n".to_string(),
        }))
    );
}
