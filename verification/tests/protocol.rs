use clip_history::protocol::{
    attempt_of, command_result, copy_unavailable_error, delete_result, error_with_detail, next_copy_step, Attempt,
    CommandEnd, CopyStep, PipeEnd,
};

fn exited(success: bool, stderr: &str) -> PipeEnd {
    PipeEnd::Exited { success, stderr: stderr.to_string() }
}

fn delete_message(end: PipeEnd) -> Option<String> {
    match delete_result(&end) {
        Ok(()) => None,
        Err(e) => Some(e.message),
    }
}

#[test]
fn command_that_exits_zero_gives_its_output() {
    let end = CommandEnd::Exited { success: true, stdout: "1\ta\n".to_string(), stderr: "ignored".to_string() };
    match command_result(end) {
        Ok(out) => assert_eq!(out, "1\ta\n"),
        Err(e) => panic!("unexpected error: {}", e.message),
    }
}

#[test]
fn command_that_exits_nonzero_gives_its_error_text() {
    let end = CommandEnd::Exited { success: false, stdout: "1\ta\n".to_string(), stderr: "no such id".to_string() };
    match command_result(end) {
        Ok(_) => panic!("expected an error"),
        Err(e) => assert_eq!(e.message, "cliphist command failed: no such id"),
    }
}

#[test]
fn command_that_cannot_start_names_the_tool() {
    match command_result(CommandEnd::NotLaunched("No such file or directory".to_string())) {
        Ok(_) => panic!("expected an error"),
        Err(e) => assert_eq!(
            e.message,
            "Failed to execute cliphist: No such file or directory. Make sure cliphist is installed."
        ),
    }
}

#[test]
fn delete_result_follows_the_exit_status() {
    assert_eq!(delete_message(exited(true, "ignored")), None);
    assert_eq!(delete_message(exited(false, "bad id")), Some("cliphist delete failed: bad id".to_string()));
}

#[test]
fn delete_result_names_the_step_that_failed() {
    assert_eq!(
        delete_message(PipeEnd::NotLaunched("not found".to_string())),
        Some("Failed to execute cliphist delete: not found".to_string())
    );
    assert_eq!(
        delete_message(PipeEnd::WriteFailed("broken pipe".to_string())),
        Some("Failed to write to cliphist stdin: broken pipe".to_string())
    );
    assert_eq!(
        delete_message(PipeEnd::WaitFailed("gone".to_string())),
        Some("Failed to wait for cliphist: gone".to_string())
    );
}

#[test]
fn error_with_detail_joins_prefix_and_detail() {
    assert_eq!(error_with_detail("IO Error: ", "gone").message, "IO Error: gone");
    assert_eq!(error_with_detail("", "").message, "");
    assert_eq!(error_with_detail("x", "").clone().message, "x");
}

#[test]
fn copy_attempt_succeeds_on_exit_zero_only() {
    assert_eq!(attempt_of(&exited(true, "")), Attempt::Succeeded);
    assert_eq!(attempt_of(&exited(false, "")), Attempt::Failed);
    assert_eq!(attempt_of(&PipeEnd::NotLaunched("x".to_string())), Attempt::NotLaunched);
    assert_eq!(attempt_of(&PipeEnd::WriteFailed("x".to_string())), Attempt::Failed);
    assert_eq!(attempt_of(&PipeEnd::WaitFailed("x".to_string())), Attempt::Failed);
}

#[test]
fn copy_tries_the_tools_in_order_until_one_succeeds() {
    assert_eq!(next_copy_step(2, &vec![]), CopyStep::Try(0));
    assert_eq!(next_copy_step(2, &vec![Attempt::Succeeded]), CopyStep::Copied);
    assert_eq!(next_copy_step(2, &vec![Attempt::NotLaunched]), CopyStep::Try(1));
    assert_eq!(next_copy_step(2, &vec![Attempt::Failed]), CopyStep::Try(1));
    assert_eq!(next_copy_step(2, &vec![Attempt::NotLaunched, Attempt::Succeeded]), CopyStep::Copied);
    assert_eq!(next_copy_step(2, &vec![Attempt::Failed, Attempt::Failed]), CopyStep::Unavailable);
    assert_eq!(next_copy_step(2, &vec![Attempt::NotLaunched, Attempt::NotLaunched]), CopyStep::Unavailable);
    assert_eq!(next_copy_step(0, &vec![]), CopyStep::Unavailable);
    assert_eq!(next_copy_step(3, &vec![Attempt::Failed, Attempt::NotLaunched]), CopyStep::Try(2));
}

#[test]
fn copy_without_a_working_tool_says_what_to_install() {
    assert_eq!(
        copy_unavailable_error().message,
        "No clipboard tool available. Install wl-clipboard (Wayland) or xclip (X11)."
    );
}
