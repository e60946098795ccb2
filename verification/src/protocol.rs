//! What the library decides about a call to an external tool once it has
//! ended: the result of a history-tool command, the result of a delete
//! request, and the next step when copying to the clipboard through the first
//! tool that works. Running the tools is left to the caller.

use vstd::prelude::*;
use vstd::string::*;
use crate::entry::CliphistError;

verus! {

/// How a command of the history tool ended.
#[derive(Debug)]
pub enum CommandEnd {
    /// The tool could not be started; the text says why.
    NotLaunched(String),
    /// The tool ran to its end.
    Exited { success: bool, stdout: String, stderr: String },
}

/// How a tool that was fed on its standard input ended.
#[derive(Debug)]
pub enum PipeEnd {
    /// The tool could not be started; the text says why.
    NotLaunched(String),
    /// Writing to the tool's standard input failed; the text says why.
    WriteFailed(String),
    /// Waiting for the tool to end failed; the text says why.
    WaitFailed(String),
    /// The tool ran to its end.
    Exited { success: bool, stderr: String },
}

/// How one attempt to copy through a clipboard tool ended.
#[derive(Clone, Copy, Debug, PartialEq, Eq, Structural)]
pub enum Attempt {
    /// The tool could not be started.
    NotLaunched,
    /// The tool was started and did not exit with status zero.
    Failed,
    /// The tool ran and exited with status zero.
    Succeeded,
}

/// What to do next when copying to the clipboard.
#[derive(Clone, Copy, Debug, PartialEq, Eq, Structural)]
pub enum CopyStep {
    /// Try the tool at this place in the order of preference.
    Try(usize),
    /// The content is on the clipboard.
    Copied,
    /// Every tool was tried and none worked.
    Unavailable,
}

/// What a command of the history tool yields: what it printed if it exited
/// with status zero, else the message of the failure.
pub open spec fn command_outcome(end: CommandEnd) -> Result<Seq<char>, Seq<char>> {
    match end {
        CommandEnd::NotLaunched(why) => Err(
            "Failed to execute cliphist: "@ + why@ + ". Make sure cliphist is installed."@,
        ),
        CommandEnd::Exited { success, stdout, stderr } => if success {
            Ok(stdout@)
        } else {
            Err("cliphist command failed: "@ + stderr@)
        },
    }
}

/// The message of the failure of a delete request, if it failed.
pub open spec fn delete_failure(end: PipeEnd) -> Option<Seq<char>> {
    match end {
        PipeEnd::NotLaunched(why) => Some("Failed to execute cliphist delete: "@ + why@),
        PipeEnd::WriteFailed(why) => Some("Failed to write to cliphist stdin: "@ + why@),
        PipeEnd::WaitFailed(why) => Some("Failed to wait for cliphist: "@ + why@),
        PipeEnd::Exited { success, stderr } => if success {
            None
        } else {
            Some("cliphist delete failed: "@ + stderr@)
        },
    }
}

/// How an attempt to copy ended, as far as the choice of the next step goes.
pub open spec fn copy_attempt(end: PipeEnd) -> Attempt {
    match end {
        PipeEnd::NotLaunched(_) => Attempt::NotLaunched,
        PipeEnd::Exited { success, stderr } => if success {
            Attempt::Succeeded
        } else {
            Attempt::Failed
        },
        _ => Attempt::Failed,
    }
}

/// The step after the attempts in `outcomes`, made in order on the first
/// tools of a list of `tool_count`: stop at the first success, else go on to
/// the next tool, and give up when none is left.
pub open spec fn copy_step(tool_count: usize, outcomes: Seq<Attempt>) -> CopyStep {
    if outcomes.len() > 0 && outcomes.last() == Attempt::Succeeded {
        CopyStep::Copied
    } else if outcomes.len() < tool_count {
        CopyStep::Try(outcomes.len() as usize)
    } else {
        CopyStep::Unavailable
    }
}

/// The error whose message is `prefix` followed by `detail`.
pub fn error_with_detail(prefix: &str, detail: &str) -> (e: CliphistError)
    ensures
        e@ == prefix@ + detail@,
{
    let mut message = prefix.to_owned();
    message.append(detail);
    CliphistError { message }
}

/// The result of a command of the history tool: what it printed if it ran
/// and exited with status zero; else an error that says whether it could not
/// be started or failed, with the reason it gave.
pub fn command_result(end: CommandEnd) -> (r: Result<String, CliphistError>)
    ensures
        match command_outcome(end) {
            Ok(printed) => r is Ok && r->Ok_0@ == printed,
            Err(message) => r is Err && r->Err_0@ == message,
        },
{
    match end {
        CommandEnd::NotLaunched(why) => {
            let mut message = "Failed to execute cliphist: ".to_owned();
            message.append(why.as_str());
            message.append(". Make sure cliphist is installed.");
            Err(CliphistError { message })
        },
        CommandEnd::Exited { success, stdout, stderr } => {
            if success {
                Ok(stdout)
            } else {
                Err(error_with_detail("cliphist command failed: ", stderr.as_str()))
            }
        },
    }
}

/// The result of a delete request: done if the tool ran and exited with
/// status zero; else an error that names the step that failed, with the
/// reason given.
pub fn delete_result(end: &PipeEnd) -> (r: Result<(), CliphistError>)
    ensures
        match delete_failure(*end) {
            None => r is Ok,
            Some(message) => r is Err && r->Err_0@ == message,
        },
{
    match end {
        PipeEnd::NotLaunched(why) => Err(error_with_detail("Failed to execute cliphist delete: ", why.as_str())),
        PipeEnd::WriteFailed(why) => Err(error_with_detail("Failed to write to cliphist stdin: ", why.as_str())),
        PipeEnd::WaitFailed(why) => Err(error_with_detail("Failed to wait for cliphist: ", why.as_str())),
        PipeEnd::Exited { success, stderr } => {
            if *success {
                Ok(())
            } else {
                Err(error_with_detail("cliphist delete failed: ", stderr.as_str()))
            }
        },
    }
}

/// How an attempt to copy ended: a success only if the tool ran and exited
/// with status zero.
pub fn attempt_of(end: &PipeEnd) -> (a: Attempt)
    ensures
        a == copy_attempt(*end),
{
    match end {
        PipeEnd::NotLaunched(_) => Attempt::NotLaunched,
        PipeEnd::Exited { success, stderr: _ } => {
            if *success {
                Attempt::Succeeded
            } else {
                Attempt::Failed
            }
        },
        _ => Attempt::Failed,
    }
}

/// The next step when copying to the clipboard, after the attempts made so
/// far.
pub fn next_copy_step(tool_count: usize, outcomes: &Vec<Attempt>) -> (step: CopyStep)
    ensures
        step == copy_step(tool_count, outcomes@),
{
    let tried: usize = outcomes.len();
    if tried > 0 && outcomes[tried - 1] == Attempt::Succeeded {
        CopyStep::Copied
    } else if tried < tool_count {
        CopyStep::Try(tried)
    } else {
        CopyStep::Unavailable
    }
}

/// The error for a copy that no clipboard tool could make.
pub fn copy_unavailable_error() -> (e: CliphistError)
    ensures
        e@ == "No clipboard tool available. Install wl-clipboard (Wayland) or xclip (X11)."@,
{
    CliphistError {
        message: "No clipboard tool available. Install wl-clipboard (Wayland) or xclip (X11).".to_owned(),
    }
}

} // verus!
