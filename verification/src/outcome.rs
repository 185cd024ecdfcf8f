//! The three-way result that every command path ends in.

use vstd::prelude::*;

verus! {

/// Output of a command that wrote to both of its channels.
#[derive(Debug, PartialEq, Eq)]
pub struct PartialSuccess {
    pub success_data: String,
    pub error_info: String,
}

/// The two ways a command can fall short of plain success.
#[derive(Debug, PartialEq, Eq)]
pub enum ErrorKind {
    PartialSuccess(PartialSuccess),
    CompleteFailure(String),
}

/// The outcome of a command as mathematics: the text of each channel,
/// tagged by which of the three cases holds.
pub enum ExecutionResult {
    Success(Seq<char>),
    PartialSuccess { stdout_text: Seq<char>, stderr_text: Seq<char> },
    Failure(Seq<char>),
}

/// The outcome that an executable result stands for.
pub open spec fn outcome_of(r: Result<String, ErrorKind>) -> ExecutionResult {
    match r {
        Ok(text) => ExecutionResult::Success(text@),
        Err(ErrorKind::PartialSuccess(p)) => ExecutionResult::PartialSuccess {
            stdout_text: p.success_data@,
            stderr_text: p.error_info@,
        },
        Err(ErrorKind::CompleteFailure(message)) => ExecutionResult::Failure(message@),
    }
}

/// The outcome decided by what was captured on each channel: nothing on the
/// success channel is a failure whatever the error channel holds; otherwise
/// an empty error channel is success, and text on both is partial success.
pub open spec fn combine(success_text: Seq<char>, error_text: Seq<char>) -> ExecutionResult {
    if success_text.len() == 0 {
        ExecutionResult::Failure(error_text)
    } else if error_text.len() == 0 {
        ExecutionResult::Success(success_text)
    } else {
        ExecutionResult::PartialSuccess { stdout_text: success_text, stderr_text: error_text }
    }
}

/// Decides the outcome from the text captured on the success and error
/// channels. Total: every pair of texts has an outcome.
pub fn process_partial_results(results: String, error_results: String) -> (r: Result<
    String,
    ErrorKind,
>)
    ensures
        outcome_of(r) == combine(results@, error_results@),
{
    let no_results = results.as_str().is_empty();
    let no_errors = error_results.as_str().is_empty();
    if no_results {
        Err(ErrorKind::CompleteFailure(error_results))
    } else if no_errors {
        Ok(results)
    } else {
        Err(
            ErrorKind::PartialSuccess(
                PartialSuccess { success_data: results, error_info: error_results },
            ),
        )
    }
}

/// Each case of the outcome holds exactly on its own inputs: partial success
/// when both texts are non-empty, failure when the success text is empty,
/// success when only the error text is empty; and the texts are carried
/// over unchanged.
pub proof fn lemma_combine_trichotomy(success_text: Seq<char>, error_text: Seq<char>)
    ensures
        combine(success_text, error_text) is PartialSuccess <==> success_text.len() > 0
            && error_text.len() > 0,
        combine(success_text, error_text) is Failure <==> success_text.len() == 0,
        combine(success_text, error_text) is Success <==> success_text.len() > 0
            && error_text.len() == 0,
        combine(success_text, error_text) matches ExecutionResult::PartialSuccess {
            stdout_text,
            stderr_text,
        } ==> stdout_text == success_text && stderr_text == error_text,
        combine(success_text, error_text) matches ExecutionResult::Failure(m) ==> m
            == error_text,
        combine(success_text, error_text) matches ExecutionResult::Success(t) ==> t
            == success_text,
{
}

} // verus!
