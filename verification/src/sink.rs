//! Deciding where a command's result goes: which text is written to the
//! terminal, to the two standard streams, and to a redirection's file.
//!
//! Success text goes to the terminal or to the file that standard output
//! is redirected to; error text goes to standard error or to the file that
//! standard error is redirected to. Text that is shown has its newlines
//! turned into carriage return and newline; text bound for a file is left
//! as it is.

use crate::outcome::{outcome_of, ErrorKind, ExecutionResult};
use crate::redirect::{Output, OutputPlan};
use crate::text::{
    is_whitespace, lemma_replace_concat, lemma_replace_keeps_ends, lemma_replace_nothing,
    lemma_trim_keeps_core, replace_char, replace_spec, trim, trim_spec,
};
use vstd::prelude::*;

verus! {

/// One thing for the caller to do with a result.
#[derive(Debug, PartialEq, Eq)]
pub enum SinkAction {
    /// Write the text to the terminal as it is.
    Terminal(String),
    /// Flush the terminal.
    Flush,
    /// Print the text as one line on standard output.
    PrintLine(String),
    /// Print the text as one line on standard error.
    ErrorLine(String),
    /// Open the file for appending, creating it if need be, and append the
    /// text, which may be empty.
    Append { path: String, text: String },
    /// Create the file or empty it, and write the text.
    Write { path: String, text: String },
}

/// The mathematical content of a [`SinkAction`].
pub enum Effect {
    Terminal(Seq<char>),
    Flush,
    PrintLine(Seq<char>),
    ErrorLine(Seq<char>),
    Append { path: Seq<char>, text: Seq<char> },
    Write { path: Seq<char>, text: Seq<char> },
}

impl DeepView for SinkAction {
    type V = Effect;

    open spec fn deep_view(&self) -> Effect {
        match self {
            SinkAction::Terminal(t) => Effect::Terminal(t@),
            SinkAction::Flush => Effect::Flush,
            SinkAction::PrintLine(t) => Effect::PrintLine(t@),
            SinkAction::ErrorLine(t) => Effect::ErrorLine(t@),
            SinkAction::Append { path, text } => Effect::Append { path: path@, text: text@ },
            SinkAction::Write { path, text } => Effect::Write { path: path@, text: text@ },
        }
    }
}

/// Why a result could not be delivered.
#[derive(Debug, Clone, Copy, PartialEq, Eq, Structural)]
pub enum SinkError {
    /// The redirection operator has no file name after it.
    MissingTarget,
}

/// `t` with every newline turned into carriage return and newline.
pub open spec fn crlf(t: Seq<char>) -> Seq<char> {
    replace_spec(t, '\n', "\r\n"@)
}

/// `t` as one line of terminal output: trimmed, then with its inner
/// newlines turned into carriage return and newline.
pub open spec fn shown(t: Seq<char>) -> Seq<char> {
    crlf(trim_spec(t))
}

/// What is appended to a file for `content`: nothing for empty content,
/// otherwise the content and a newline.
pub open spec fn appended(content: Seq<char>) -> Seq<char> {
    if content.len() == 0 {
        content
    } else {
        content + "\n"@
    }
}

/// What is done with a result when nothing is redirected.
pub open spec fn unredirected(result: ExecutionResult) -> Seq<Effect> {
    match result {
        ExecutionResult::Success(out) => if out.len() == 0 {
            Seq::empty()
        } else {
            seq![Effect::Terminal(trim_spec(crlf(out)) + "\r\n"@), Effect::Flush]
        },
        ExecutionResult::Failure(message) => seq![Effect::ErrorLine(shown(message))],
        ExecutionResult::PartialSuccess { stdout_text, stderr_text } => seq![
            Effect::PrintLine(shown(stdout_text)),
            Effect::ErrorLine(shown(stderr_text)),
        ],
    }
}

/// What is done with a result under `2>>`.
pub open spec fn append_stderr(result: ExecutionResult, path: Seq<char>) -> Seq<Effect> {
    match result {
        ExecutionResult::Success(out) => seq![
            Effect::Append { path, text: Seq::empty() },
            Effect::PrintLine(shown(out)),
        ],
        ExecutionResult::Failure(message) => seq![
            Effect::Append { path, text: appended(trim_spec(message)) },
        ],
        ExecutionResult::PartialSuccess { stdout_text, stderr_text } => seq![
            Effect::Append { path, text: appended(trim_spec(stderr_text)) },
            Effect::PrintLine(shown(stdout_text)),
        ],
    }
}

/// What is done with a result under `>>` or `1>>`.
pub open spec fn append_stdout(result: ExecutionResult, path: Seq<char>) -> Seq<Effect> {
    match result {
        ExecutionResult::Success(out) => seq![
            Effect::Append { path, text: appended(trim_spec(out)) },
        ],
        ExecutionResult::Failure(message) => seq![
            Effect::Append { path, text: Seq::empty() },
            Effect::ErrorLine(shown(message)),
        ],
        ExecutionResult::PartialSuccess { stdout_text, stderr_text } => seq![
            Effect::Append { path, text: appended(stdout_text) },
            Effect::ErrorLine(shown(stderr_text)),
        ],
    }
}

/// What is done with a result under `2>`.
pub open spec fn replace_stderr(result: ExecutionResult, path: Seq<char>) -> Seq<Effect> {
    match result {
        ExecutionResult::Success(out) => if out.len() == 0 {
            seq![Effect::Write { path, text: Seq::empty() }]
        } else {
            seq![Effect::PrintLine(shown(out)), Effect::Write { path, text: Seq::empty() }]
        },
        ExecutionResult::Failure(message) => seq![
            Effect::Write { path, text: message + "\n"@ },
        ],
        ExecutionResult::PartialSuccess { stdout_text, stderr_text } => seq![
            Effect::Write { path, text: stderr_text + "\n"@ },
            Effect::PrintLine(shown(stdout_text)),
        ],
    }
}

/// What is done with a result under `>` or `1>`.
pub open spec fn replace_stdout(result: ExecutionResult, path: Seq<char>) -> Seq<Effect> {
    match result {
        ExecutionResult::Success(out) => seq![Effect::Write { path, text: out }],
        ExecutionResult::Failure(message) => seq![Effect::ErrorLine(shown(message))],
        ExecutionResult::PartialSuccess { stdout_text, stderr_text } => seq![
            Effect::Write { path, text: stdout_text + "\n"@ },
            Effect::ErrorLine(shown(stderr_text)),
        ],
    }
}

/// What is done with a result under a plan; `None` when the plan redirects
/// but names no file.
pub open spec fn sink_spec(result: ExecutionResult, plan: OutputPlan) -> Option<Seq<Effect>> {
    match plan {
        OutputPlan::Unredirected => Some(unredirected(result)),
        _ => match plan.target() {
            None => None,
            Some(path) => Some(
                match plan {
                    OutputPlan::AppendStderr(_) => append_stderr(result, path),
                    OutputPlan::AppendStdout(_) => append_stdout(result, path),
                    OutputPlan::ReplaceStderr(_) => replace_stderr(result, path),
                    _ => replace_stdout(result, path),
                },
            ),
        },
    }
}

/// The plan decides alone whether a result can be delivered: only a
/// redirection without a file name cannot.
pub proof fn lemma_sink_total(result: ExecutionResult, plan: OutputPlan)
    ensures
        sink_spec(result, plan) is None <==> !(plan is Unredirected) && plan.target() is None,
{
}

/// A success under `>` goes to the file as it is, and nothing is shown.
pub proof fn lemma_success_replaces_quietly(text: Seq<char>, tail: Seq<Seq<char>>)
    requires
        tail.len() >= 2,
    ensures
        sink_spec(ExecutionResult::Success(text), OutputPlan::ReplaceStdout(tail)) == Some(
            seq![Effect::Write { path: tail[1], text }],
        ),
{
}

/// Where an effect puts error text: on standard error, or into the file
/// of a plan that redirects standard error.
pub open spec fn carries_errors(e: Effect, plan: OutputPlan) -> bool {
    e is ErrorLine || ((plan is ReplaceStderr || plan is AppendStderr) && (e is Write || e
        is Append))
}

/// Where an effect puts success text: on the terminal or standard output,
/// or into the file of a plan that redirects standard output.
pub open spec fn carries_output(e: Effect, plan: OutputPlan) -> bool {
    e is Terminal || e is PrintLine || ((plan is ReplaceStdout || plan is AppendStdout) && (e
        is Write || e is Append))
}

/// A failure is rendered once, where errors go, and puts no text where
/// success text goes: the one effect besides it, if any, only opens the
/// file that standard output is appended to.
pub proof fn lemma_failure_goes_to_errors(
    message: Seq<char>,
    plan: OutputPlan,
    effects: Seq<Effect>,
)
    requires
        sink_spec(ExecutionResult::Failure(message), plan) == Some(effects),
    ensures
        effects.len() >= 1,
        carries_errors(effects.last(), plan),
        forall|i: int|
            0 <= i < effects.len() - 1 ==> plan is AppendStdout && (#[trigger] effects[i]) == (
                Effect::Append { path: plan.target()->0, text: Seq::empty() }),
{
}

/// A partial success is rendered in both of its parts, whatever the plan:
/// two effects, one with the success text where output goes and one with
/// the error text where errors go, neither dropped.
pub proof fn lemma_partial_renders_both(
    stdout_text: Seq<char>,
    stderr_text: Seq<char>,
    plan: OutputPlan,
    effects: Seq<Effect>,
)
    requires
        sink_spec(ExecutionResult::PartialSuccess { stdout_text, stderr_text }, plan) == Some(
            effects,
        ),
    ensures
        effects.len() == 2,
        (carries_output(effects[0], plan) && carries_errors(effects[1], plan)) || (carries_errors(
            effects[0],
            plan,
        ) && carries_output(effects[1], plan)),
{
}

/// A success puts nothing where errors go, except that a plan which
/// redirects standard error has its file opened or emptied.
pub proof fn lemma_success_goes_to_output(
    text: Seq<char>,
    plan: OutputPlan,
    effects: Seq<Effect>,
    i: int,
)
    requires
        sink_spec(ExecutionResult::Success(text), plan) == Some(effects),
        0 <= i < effects.len(),
    ensures
        !(effects[i] is ErrorLine),
        plan is ReplaceStderr ==> (carries_output(effects[i], plan) || effects[i] == (
            Effect::Write { path: plan.target()->0, text: Seq::empty() })),
        plan is AppendStderr ==> (carries_output(effects[i], plan) || effects[i] == (
            Effect::Append { path: plan.target()->0, text: Seq::empty() })),
        !(plan is ReplaceStderr || plan is AppendStderr) ==> carries_output(effects[i], plan)
            || effects[i] is Flush,
{
}

/// A success that is one or more lines, the last one ended by a newline,
/// is shown as those lines with terminal line ends, and the terminal is
/// flushed. The text before the last newline must not begin or end with
/// whitespace.
pub proof fn lemma_success_lines_shown(body: Seq<char>)
    requires
        body.len() > 0,
        !is_whitespace(body[0]),
        !is_whitespace(body.last()),
    ensures
        unredirected(ExecutionResult::Success(body + "\n"@)) == seq![
            Effect::Terminal(crlf(body) + "\r\n"@),
            Effect::Flush,
        ],
{
    reveal_strlit("\n");
    reveal_strlit("\r\n");
    let newline = "\n"@;
    let wide = "\r\n"@;
    assert(newline =~= seq!['\n']);
    assert(wide =~= seq!['\r', '\n']);
    lemma_replace_concat(body, newline, '\n', wide);
    assert(replace_spec(newline, '\n', wide) =~= wide) by {
        assert(newline.drop_last() =~= Seq::<char>::empty());
        assert(replace_spec(newline.drop_last(), '\n', wide) =~= Seq::<char>::empty());
    }
    assert(crlf(body + newline) == crlf(body) + wide);
    lemma_replace_keeps_ends(body, '\n', wide);
    assert(is_whitespace('\n') && is_whitespace('\r'));
    lemma_trim_keeps_core(crlf(body), wide);
}

/// A line of text without whitespace at its ends and without a newline
/// is shown as it is, with a terminal line end: `echo hi` shows `hi`.
pub proof fn lemma_success_line_shown(line: Seq<char>)
    requires
        line.len() > 0,
        !is_whitespace(line[0]),
        !is_whitespace(line.last()),
        forall|i: int| 0 <= i < line.len() ==> #[trigger] line[i] != '\n',
    ensures
        unredirected(ExecutionResult::Success(line + "\n"@)) == seq![
            Effect::Terminal(line + "\r\n"@),
            Effect::Flush,
        ],
{
    lemma_success_lines_shown(line);
    lemma_replace_nothing(line, '\n', "\r\n"@);
}

/// The result for a redirection target that could not be written: a
/// failure that names the file and the reason, to be delivered like any
/// other failure.
pub open spec fn write_failure_spec(path: Seq<char>, reason: Seq<char>) -> ExecutionResult {
    ExecutionResult::Failure(path + ": "@ + reason)
}

/// A write failure is reported on standard error, whatever the command's
/// own result was going to be, and the shell goes on.
pub proof fn lemma_write_failure_reported(path: Seq<char>, reason: Seq<char>)
    ensures
        sink_spec(write_failure_spec(path, reason), OutputPlan::Unredirected) == Some(
            seq![Effect::ErrorLine(shown(path + ": "@ + reason))],
        ),
{
}

/// Turns a failed write to a redirection target into a failure of the
/// command.
pub fn write_failure(path: &str, reason: &str) -> (r: Result<String, ErrorKind>)
    ensures
        outcome_of(r) == write_failure_spec(path@, reason@),
{
    let mut message = String::from_str(path);
    message.append(": ");
    message.append(reason);
    Err(ErrorKind::CompleteFailure(message))
}

fn show(t: &str) -> (out: String)
    ensures
        out@ == shown(t@),
{
    let trimmed = trim(t);
    replace_char(trimmed.as_str(), '\n', "\r\n")
}

fn with_newline(content: String) -> (out: String)
    ensures
        out@ == content@ + "\n"@,
{
    let mut out = content;
    out.append("\n");
    out
}

fn append_payload(content: String) -> (out: String)
    ensures
        out@ == appended(content@),
{
    if content.as_str().is_empty() {
        content
    } else {
        with_newline(content)
    }
}

fn sink_unredirected(output: Result<String, ErrorKind>) -> (actions: Vec<SinkAction>)
    ensures
        actions.deep_view() == unredirected(outcome_of(output)),
{
    let mut actions: Vec<SinkAction> = Vec::new();
    match output {
        Ok(out) => {
            if !out.as_str().is_empty() {
                let wide = replace_char(out.as_str(), '\n', "\r\n");
                let mut line = trim(wide.as_str());
                line.append("\r\n");
                actions.push(SinkAction::Terminal(line));
                actions.push(SinkAction::Flush);
            }
        },
        Err(ErrorKind::CompleteFailure(message)) => {
            actions.push(SinkAction::ErrorLine(show(message.as_str())));
        },
        Err(ErrorKind::PartialSuccess(partial)) => {
            actions.push(SinkAction::PrintLine(show(partial.success_data.as_str())));
            actions.push(SinkAction::ErrorLine(show(partial.error_info.as_str())));
        },
    }
    assert(actions.deep_view() =~= unredirected(outcome_of(output)));
    actions
}

fn sink_append_stderr(output: Result<String, ErrorKind>, path: &String) -> (actions: Vec<
    SinkAction,
>)
    ensures
        actions.deep_view() == append_stderr(outcome_of(output), path@),
{
    let mut actions: Vec<SinkAction> = Vec::new();
    match output {
        Ok(out) => {
            actions.push(SinkAction::Append { path: path.clone(), text: String::new() });
            actions.push(SinkAction::PrintLine(show(out.as_str())));
        },
        Err(ErrorKind::CompleteFailure(message)) => {
            let text = append_payload(trim(message.as_str()));
            actions.push(SinkAction::Append { path: path.clone(), text });
        },
        Err(ErrorKind::PartialSuccess(partial)) => {
            let text = append_payload(trim(partial.error_info.as_str()));
            actions.push(SinkAction::Append { path: path.clone(), text });
            actions.push(SinkAction::PrintLine(show(partial.success_data.as_str())));
        },
    }
    assert(actions.deep_view() =~= append_stderr(outcome_of(output), path@));
    actions
}

fn sink_append_stdout(output: Result<String, ErrorKind>, path: &String) -> (actions: Vec<
    SinkAction,
>)
    ensures
        actions.deep_view() == append_stdout(outcome_of(output), path@),
{
    let mut actions: Vec<SinkAction> = Vec::new();
    match output {
        Ok(out) => {
            let text = append_payload(trim(out.as_str()));
            actions.push(SinkAction::Append { path: path.clone(), text });
        },
        Err(ErrorKind::CompleteFailure(message)) => {
            actions.push(SinkAction::Append { path: path.clone(), text: String::new() });
            actions.push(SinkAction::ErrorLine(show(message.as_str())));
        },
        Err(ErrorKind::PartialSuccess(partial)) => {
            let shown_errors = show(partial.error_info.as_str());
            let text = append_payload(partial.success_data);
            actions.push(SinkAction::Append { path: path.clone(), text });
            actions.push(SinkAction::ErrorLine(shown_errors));
        },
    }
    assert(actions.deep_view() =~= append_stdout(outcome_of(output), path@));
    actions
}

fn sink_replace_stderr(output: Result<String, ErrorKind>, path: &String) -> (actions: Vec<
    SinkAction,
>)
    ensures
        actions.deep_view() == replace_stderr(outcome_of(output), path@),
{
    let mut actions: Vec<SinkAction> = Vec::new();
    match output {
        Ok(out) => {
            if !out.as_str().is_empty() {
                actions.push(SinkAction::PrintLine(show(out.as_str())));
            }
            actions.push(SinkAction::Write { path: path.clone(), text: String::new() });
        },
        Err(ErrorKind::CompleteFailure(message)) => {
            actions.push(SinkAction::Write { path: path.clone(), text: with_newline(message) });
        },
        Err(ErrorKind::PartialSuccess(partial)) => {
            let shown_output = show(partial.success_data.as_str());
            actions.push(
                SinkAction::Write { path: path.clone(), text: with_newline(partial.error_info) },
            );
            actions.push(SinkAction::PrintLine(shown_output));
        },
    }
    assert(actions.deep_view() =~= replace_stderr(outcome_of(output), path@));
    actions
}

fn sink_replace_stdout(output: Result<String, ErrorKind>, path: &String) -> (actions: Vec<
    SinkAction,
>)
    ensures
        actions.deep_view() == replace_stdout(outcome_of(output), path@),
{
    let mut actions: Vec<SinkAction> = Vec::new();
    match output {
        Ok(out) => {
            actions.push(SinkAction::Write { path: path.clone(), text: out });
        },
        Err(ErrorKind::CompleteFailure(message)) => {
            actions.push(SinkAction::ErrorLine(show(message.as_str())));
        },
        Err(ErrorKind::PartialSuccess(partial)) => {
            let shown_errors = show(partial.error_info.as_str());
            actions.push(
                SinkAction::Write { path: path.clone(), text: with_newline(partial.success_data) },
            );
            actions.push(SinkAction::ErrorLine(shown_errors));
        },
    }
    assert(actions.deep_view() =~= replace_stdout(outcome_of(output), path@));
    actions
}

/// Lists, in order, what to do with a result under an output plan. Fails
/// exactly when the plan redirects without naming a file.
pub fn handle_output(output: Result<String, ErrorKind>, io_stream: Output) -> (r: Result<
    Vec<SinkAction>,
    SinkError,
>)
    ensures
        match r {
            Ok(actions) => sink_spec(outcome_of(output), io_stream@) == Some(actions.deep_view()),
            Err(e) => sink_spec(outcome_of(output), io_stream@) is None && e
                == SinkError::MissingTarget,
        },
{
    match &io_stream {
        Output::StdOut => Ok(sink_unredirected(output)),
        _ => match io_stream.target() {
            None => Err(SinkError::MissingTarget),
            Some(path) => match &io_stream {
                Output::AppendStdErr(_) => Ok(sink_append_stderr(output, path)),
                Output::AppendStdOut(_) => Ok(sink_append_stdout(output, path)),
                Output::RedirectStdErr(_) => Ok(sink_replace_stderr(output, path)),
                _ => Ok(sink_replace_stdout(output, path)),
            },
        },
    }
}

} // verus!
