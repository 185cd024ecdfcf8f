//! From an input line to what is to be run.

use crate::builtins::{is_registered, Builtins};
use crate::outcome::{outcome_of, ErrorKind, ExecutionResult};
use crate::pipeline::{stage_texts, Phase, Pipeline, PipelineView};
use crate::redirect::{lemma_plan_partitions, plan_redirection, plan_spec, Output, OutputPlan};
use crate::text::{copy_texts_from, split_on, split_spec, trim, trim_spec};
use crate::tokenizer::{tokenize, tokenize_spec};
use vstd::prelude::*;

verus! {

/// What an input line asks for.
#[derive(Debug, PartialEq, Eq)]
pub enum Job {
    /// Nothing: the line holds no command.
    Nothing,
    /// A builtin, to be run in the shell's process.
    Builtin { cmd: String, args: Vec<String>, output: Output },
    /// A program, to be started as a process.
    External { cmd: String, args: Vec<String>, output: Output },
    /// Two or more stages, each feeding the next.
    Pipeline(Pipeline),
}

/// The mathematical content of a [`Job`].
pub enum JobView {
    Nothing,
    Builtin { cmd: Seq<char>, args: Seq<Seq<char>>, output: OutputPlan },
    External { cmd: Seq<char>, args: Seq<Seq<char>>, output: OutputPlan },
    Pipeline(PipelineView),
}

impl View for Job {
    type V = JobView;

    open spec fn view(&self) -> JobView {
        match self {
            Job::Nothing => JobView::Nothing,
            Job::Builtin { cmd, args, output } => JobView::Builtin {
                cmd: cmd@,
                args: args.deep_view(),
                output: output@,
            },
            Job::External { cmd, args, output } => JobView::External {
                cmd: cmd@,
                args: args.deep_view(),
                output: output@,
            },
            Job::Pipeline(p) => JobView::Pipeline(p@),
        }
    }
}

/// The job for one command's tokens: the redirection is split off; what is
/// left is the command name and its arguments. A name that the builtin
/// registry knows is run there, any other as a program. No tokens before
/// the redirection, no job.
pub open spec fn command_spec(tokens: Seq<Seq<char>>) -> JobView {
    let (command, output) = plan_spec(tokens);
    if command.len() == 0 {
        JobView::Nothing
    } else if is_registered(command[0]) {
        JobView::Builtin { cmd: command[0], args: command.skip(1), output }
    } else {
        JobView::External { cmd: command[0], args: command.skip(1), output }
    }
}

/// The stages among the parts of a line: each part trimmed and tokenized,
/// those without tokens left out.
pub open spec fn stages_of(parts: Seq<Seq<char>>) -> Seq<Seq<Seq<char>>>
    decreases parts.len(),
{
    if parts.len() == 0 {
        Seq::empty()
    } else {
        let tokens = tokenize_spec(trim_spec(parts.last()));
        if tokens.len() > 0 {
            stages_of(parts.drop_last()).push(tokens)
        } else {
            stages_of(parts.drop_last())
        }
    }
}

/// The job for a line taken as a pipeline: the line is cut at every `|`.
/// Without any stage there is nothing to do; a single stage is run as a
/// command of its own; more make a pipeline that is ready to start.
pub open spec fn pipeline_spec(input: Seq<char>) -> JobView {
    let stages = stages_of(split_spec(input, '|'));
    if stages.len() == 0 {
        JobView::Nothing
    } else if stages.len() == 1 {
        command_spec(stages[0])
    } else {
        JobView::Pipeline(PipelineView { stages, next: 0, phase: Phase::Ready })
    }
}

/// The job for a line: a pipeline if it holds a `|`, else a single command.
pub open spec fn line_spec(input: Seq<char>) -> JobView {
    if input.contains('|') {
        pipeline_spec(input)
    } else {
        command_spec(tokenize_spec(input))
    }
}

/// Every stage has at least one token.
pub proof fn lemma_stages_nonempty(parts: Seq<Seq<char>>)
    ensures
        forall|i: int|
            0 <= i < stages_of(parts).len() ==> (#[trigger] stages_of(parts)[i]).len() >= 1,
        stages_of(parts).len() <= parts.len(),
    decreases parts.len(),
{
    if parts.len() > 0 {
        lemma_stages_nonempty(parts.drop_last());
    }
}

/// A planned command loses no token: its name, its arguments and the tail
/// of its redirection are the tokens again. It is run by the registry
/// exactly when the registry knows its name.
pub proof fn lemma_command_keeps_tokens(tokens: Seq<Seq<char>>)
    ensures
        match command_spec(tokens) {
            JobView::Nothing => plan_spec(tokens).0.len() == 0,
            JobView::Builtin { cmd, args, output } => is_registered(cmd) && seq![cmd] + args
                + output.tail() == tokens,
            JobView::External { cmd, args, output } => !is_registered(cmd) && seq![cmd] + args
                + output.tail() == tokens,
            JobView::Pipeline(_) => false,
        },
{
    lemma_plan_partitions(tokens);
    let (command, output) = plan_spec(tokens);
    if command.len() > 0 {
        assert(seq![command[0]] + command.skip(1) =~= command);
    }
}

/// A line without `|` is never a pipeline; a line planned as a pipeline
/// has at least two stages, each with a command name, and is ready to
/// start at its first stage.
pub proof fn lemma_pipeline_has_stages(input: Seq<char>)
    ensures
        !input.contains('|') ==> !(line_spec(input) is Pipeline),
        line_spec(input) matches JobView::Pipeline(p) ==> p.wf() && p.stages.len() >= 2 && p.next
            == 0 && p.phase == Phase::Ready,
{
    lemma_stages_nonempty(split_spec(input, '|'));
}

/// Plans one command from its tokens.
pub fn plan_command(tokens: Vec<String>) -> (job: Job)
    ensures
        job@ == command_spec(tokens.deep_view()),
{
    let (command, output) = plan_redirection(tokens);
    if command.len() == 0 {
        return Job::Nothing;
    }
    let cmd = command[0].clone();
    let args = copy_texts_from(command.as_slice(), 1);
    if Builtins.recognizes(cmd.as_str()) {
        Job::Builtin { cmd, args, output }
    } else {
        Job::External { cmd, args, output }
    }
}

/// Plans a line as a single command.
pub fn execute_single_interruptible(input: &str) -> (job: Job)
    ensures
        job@ == command_spec(tokenize_spec(input@)),
{
    plan_command(tokenize(input))
}

/// The stages of a line that is cut at every `|`.
pub fn pipeline_stages(input: &str) -> (stages: Vec<Vec<String>>)
    ensures
        stage_texts(stages@) == stages_of(split_spec(input@, '|')),
{
    let parts = split_on(input, '|');
    let mut stages: Vec<Vec<String>> = Vec::new();
    let mut i: usize = 0;
    while i < parts.len()
        invariant
            i <= parts.len(),
            stage_texts(stages@) == stages_of(parts.deep_view().take(i as int)),
        decreases parts.len() - i,
    {
        proof {
            let next = parts.deep_view().take(i + 1);
            assert(next.drop_last() == parts.deep_view().take(i as int));
            assert(next.last() == parts[i as int]@);
        }
        let ghost before = stage_texts(stages@);
        let trimmed = trim(parts[i].as_str());
        let tokens = tokenize(trimmed.as_str());
        if tokens.len() > 0 {
            stages.push(tokens);
            assert(stage_texts(stages@) =~= before.push(tokens.deep_view()));
        }
        i += 1;
    }
    assert(parts.deep_view().take(parts.len() as int) == parts.deep_view());
    stages
}

/// Plans a line as a pipeline.
pub fn execute_pipeline_interruptible(input: &str) -> (job: Job)
    ensures
        job@ == pipeline_spec(input@),
{
    let mut stages = pipeline_stages(input);
    proof {
        lemma_stages_nonempty(split_spec(input@, '|'));
    }
    let ghost texts = stage_texts(stages@);
    if stages.len() == 0 {
        Job::Nothing
    } else if stages.len() == 1 {
        match stages.pop() {
            Some(only) => {
                assert(only.deep_view() == texts[0]);
                plan_command(only)
            },
            None => Job::Nothing,
        }
    } else {
        match Pipeline::new(stages) {
            Some(pipeline) => Job::Pipeline(pipeline),
            None => {
                proof {
                    let i = choose|i: int|
                        0 <= i < stages.len() && (#[trigger] stages[i]).len() == 0;
                    assert(texts[i].len() >= 1);
                }
                Job::Nothing
            },
        }
    }
}

fn has_pipe(input: &str) -> (r: bool)
    ensures
        r == input@.contains('|'),
{
    for c in it: input.chars()
        invariant
            it.seq() == input@,
            forall|j: int| 0 <= j < it.index() ==> input@[j] != '|',
    {
        if c == '|' {
            assert(input@[it.index()] == '|');
            return true;
        }
    }
    false
}

/// Plans a line: what is to be run, and where its output is to go.
pub fn execute_with_interrupt_support(input: &str) -> (job: Job)
    ensures
        job@ == line_spec(input@),
{
    if has_pipe(input) {
        execute_pipeline_interruptible(input)
    } else {
        execute_single_interruptible(input)
    }
}

/// The result for a program that could not be started.
pub fn spawn_failure(cmd: &str) -> (r: Result<String, ErrorKind>)
    ensures
        outcome_of(r) == ExecutionResult::Failure(cmd@ + ": command not found"@),
{
    let mut message = String::from_str(cmd);
    message.append(": command not found");
    Err(ErrorKind::CompleteFailure(message))
}

} // verus!
