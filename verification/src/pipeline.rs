//! Running the stages of a pipeline, one decision at a time.
//!
//! A [`Pipeline`] never starts a process itself. Each call of
//! [`Pipeline::advance`] takes what just happened and answers with what to
//! do next; the caller does it and reports back. Stages are started from
//! left to right, each reading what the one before it writes. A builtin in
//! the middle runs in the shell's own process, and a small helper process
//! is started to hand its output on: that costs a process but keeps every
//! connection between stages an ordinary pipe.

use crate::builtins::is_registered;
use crate::builtins::Builtins;
use crate::outcome::{outcome_of, ErrorKind, ExecutionResult};
use crate::text::{copy_texts_from, replace_char, replace_spec};
use vstd::prelude::*;

verus! {

/// Where a started process reads from.
#[derive(Debug, Clone, Copy, PartialEq, Eq, Structural)]
pub enum Stdin {
    /// The shell's own standard input.
    Inherit,
    /// The standard output of the process started before it.
    Previous,
    /// Nothing.
    Null,
}

/// One thing for the caller to do.
#[derive(Debug, PartialEq, Eq)]
pub enum Action {
    /// Run this builtin in the shell's process and report its result with
    /// [`Event::Builtin`].
    RunBuiltin { cmd: String, args: Vec<String> },
    /// Start this program in a process group of its own, with its standard
    /// output captured, and report [`Event::Spawned`] or
    /// [`Event::SpawnFailed`]. For the last stage its standard error is
    /// captured too and the caller keeps both; for any other stage the
    /// captured output becomes the next process's input.
    Spawn { program: String, args: Vec<String>, stdin: Stdin, last: bool },
    /// Report this failure as the result of the whole pipeline.
    Fail(String),
    /// Write the text to the terminal.
    Write(String),
    /// Flush the terminal.
    Flush,
    /// Copy the standard output of the last process started to the
    /// terminal, line by line, each line ended by carriage return and
    /// newline, until that output ends; then show what it wrote to its
    /// standard error.
    Drain,
    /// Kill every process started so far, then wait for each of them.
    KillAll,
    /// Wait for every process started so far.
    WaitAll,
}

/// The mathematical content of an [`Action`].
pub enum ActionView {
    RunBuiltin { cmd: Seq<char>, args: Seq<Seq<char>> },
    Spawn { program: Seq<char>, args: Seq<Seq<char>>, stdin: Stdin, last: bool },
    Fail(Seq<char>),
    Write(Seq<char>),
    Flush,
    Drain,
    KillAll,
    WaitAll,
}

impl DeepView for Action {
    type V = ActionView;

    open spec fn deep_view(&self) -> ActionView {
        match self {
            Action::RunBuiltin { cmd, args } => ActionView::RunBuiltin {
                cmd: cmd@,
                args: args.deep_view(),
            },
            Action::Spawn { program, args, stdin, last } => ActionView::Spawn {
                program: program@,
                args: args.deep_view(),
                stdin: *stdin,
                last: *last,
            },
            Action::Fail(message) => ActionView::Fail(message@),
            Action::Write(t) => ActionView::Write(t@),
            Action::Flush => ActionView::Flush,
            Action::Drain => ActionView::Drain,
            Action::KillAll => ActionView::KillAll,
            Action::WaitAll => ActionView::WaitAll,
        }
    }
}

/// What the caller reports.
#[derive(Debug, PartialEq, Eq)]
pub enum Event {
    /// Nothing happened yet: the pipeline is to begin.
    Start,
    /// The builtin that was asked for has run, with this result.
    Builtin(Result<String, ErrorKind>),
    /// The process that was asked for runs.
    Spawned,
    /// The process that was asked for could not be started.
    SpawnFailed,
}

/// The mathematical content of an [`Event`].
pub enum EventView {
    Start,
    Builtin(ExecutionResult),
    Spawned,
    SpawnFailed,
}

impl View for Event {
    type V = EventView;

    open spec fn view(&self) -> EventView {
        match self {
            Event::Start => EventView::Start,
            Event::Builtin(r) => EventView::Builtin(outcome_of(*r)),
            Event::Spawned => EventView::Spawned,
            Event::SpawnFailed => EventView::SpawnFailed,
        }
    }
}

/// What a pipeline is waiting for.
#[derive(Debug, Clone, Copy, PartialEq, Eq, Structural)]
pub enum Phase {
    /// To be started.
    Ready,
    /// The result of the current stage, a builtin.
    AwaitBuiltin,
    /// The start of the current stage, a program.
    AwaitProgram,
    /// The start of the helper that hands on the current stage's output.
    AwaitForwarder,
    /// Nothing: the pipeline is over.
    Done,
}

/// The mathematical content of a [`Pipeline`].
pub struct PipelineView {
    /// The stages, each a command name followed by its arguments.
    pub stages: Seq<Seq<Seq<char>>>,
    /// The index of the current stage. It is also the number of processes
    /// started so far: every stage before it has left one running.
    pub next: int,
    pub phase: Phase,
}

impl PipelineView {
    /// Every stage has a command name, the current stage exists, and a
    /// helper is only ever waited for when a stage follows.
    pub open spec fn wf(self) -> bool {
        &&& self.stages.len() >= 1
        &&& 0 <= self.next < self.stages.len()
        &&& forall|i: int| 0 <= i < self.stages.len() ==> (#[trigger] self.stages[i]).len() >= 1
        &&& self.phase == Phase::AwaitForwarder ==> !self.at_last()
    }

    /// Whether the current stage is the last one.
    pub open spec fn at_last(self) -> bool {
        self.next + 1 == self.stages.len()
    }

    /// The pipeline in another phase.
    pub open spec fn in_phase(self, phase: Phase) -> PipelineView {
        PipelineView { phase, ..self }
    }
}

/// The pipeline over, and the actions that end it early: every process is
/// killed and waited for, and the failure is the result of the pipeline.
pub open spec fn abort(p: PipelineView, message: Seq<char>) -> (PipelineView, Seq<ActionView>) {
    (p.in_phase(Phase::Done), seq![ActionView::KillAll, ActionView::Fail(message)])
}

/// Asking for the current stage: a builtin is to be run, a program to be
/// started. The first program reads what the shell reads, every later one
/// what the process before it writes.
pub open spec fn request(p: PipelineView) -> (PipelineView, Seq<ActionView>) {
    let stage = p.stages[p.next];
    if is_registered(stage[0]) {
        (
            p.in_phase(Phase::AwaitBuiltin),
            seq![ActionView::RunBuiltin { cmd: stage[0], args: stage.skip(1) }],
        )
    } else {
        (
            p.in_phase(Phase::AwaitProgram),
            seq![
                ActionView::Spawn {
                    program: stage[0],
                    args: stage.skip(1),
                    stdin: if p.next > 0 {
                        Stdin::Previous
                    } else {
                        Stdin::Inherit
                    },
                    last: p.at_last(),
                },
            ],
        )
    }
}

/// The arguments of the helper that writes `output` to its standard
/// output: a shell one-liner with the text in single quotes, each single
/// quote inside it written as `'\''`.
pub open spec fn forwarder_args(output: Seq<char>) -> Seq<Seq<char>> {
    seq!["-c"@, "echo -n '"@ + replace_spec(output, '\'', "'\\''"@) + "'"@]
}

/// Going on after a builtin has produced `output`. As the last stage it
/// shows the output, if there is any, and waits for the processes before
/// it. Anywhere else a helper is started to hand the output on; the helper
/// reads from the process before it, or from nothing if there is none.
pub open spec fn deliver(p: PipelineView, output: Seq<char>) -> (PipelineView, Seq<ActionView>) {
    if p.at_last() {
        (
            p.in_phase(Phase::Done),
            if output.len() > 0 {
                seq![
                    ActionView::Write(replace_spec(output, '\n', "\r\n"@) + "\r\n"@),
                    ActionView::Flush,
                    ActionView::WaitAll,
                ]
            } else {
                seq![ActionView::Flush, ActionView::WaitAll]
            },
        )
    } else {
        (
            p.in_phase(Phase::AwaitForwarder),
            seq![
                ActionView::Spawn {
                    program: "sh"@,
                    args: forwarder_args(output),
                    stdin: if p.next > 0 {
                        Stdin::Previous
                    } else {
                        Stdin::Null
                    },
                    last: false,
                },
            ],
        )
    }
}

/// Moving to the stage after the current one and asking for it.
pub open spec fn proceed(p: PipelineView) -> (PipelineView, Seq<ActionView>) {
    request(PipelineView { next: p.next + 1, ..p })
}

/// The pipeline after an event, and what the caller is to do.
///
/// * A failed builtin ends the pipeline, which fails with its message. One
///   that partly succeeded has its error text shown and goes on with its
///   output.
/// * A program that cannot be started ends the pipeline, which fails with
///   `<name>: command not found`.
/// * When the last stage is a program and runs, its output is drained and
///   all processes are killed and waited for.
/// * A pipeline that is over stays over and asks for nothing.
/// * An event that the pipeline is not waiting for ends it, with every
///   process killed and waited for.
pub open spec fn advance_spec(p: PipelineView, e: EventView) -> (PipelineView, Seq<ActionView>) {
    match (p.phase, e) {
        (Phase::Done, _) => (p, Seq::empty()),
        (Phase::Ready, EventView::Start) => request(p),
        (Phase::AwaitBuiltin, EventView::Builtin(result)) => match result {
            ExecutionResult::Failure(message) => abort(p, message),
            ExecutionResult::Success(output) => deliver(p, output),
            ExecutionResult::PartialSuccess { stdout_text, stderr_text } => (
                deliver(p, stdout_text).0,
                seq![ActionView::Write(stderr_text + "\r\n"@)] + deliver(p, stdout_text).1,
            ),
        },
        (Phase::AwaitForwarder, EventView::Spawned) => proceed(p),
        (Phase::AwaitForwarder, EventView::SpawnFailed) => abort(
            p,
            "Error: failed to pipe builtin output"@,
        ),
        (Phase::AwaitProgram, EventView::Spawned) => if p.at_last() {
            (p.in_phase(Phase::Done), seq![ActionView::Drain, ActionView::KillAll])
        } else {
            proceed(p)
        },
        (Phase::AwaitProgram, EventView::SpawnFailed) => abort(
            p,
            p.stages[p.next][0] + ": command not found"@,
        ),
        _ => (p.in_phase(Phase::Done), seq![ActionView::KillAll]),
    }
}

/// Whether the actions include waiting for every process, killed or not.
pub open spec fn reaps(actions: Seq<ActionView>) -> bool {
    exists|i: int|
        0 <= i < actions.len() && (#[trigger] actions[i] == ActionView::KillAll || actions[i]
            == ActionView::WaitAll)
}

/// Whether the last action asks the caller for an event.
pub open spec fn ends_asking(actions: Seq<ActionView>) -> bool {
    actions.len() > 0 && (actions.last() is RunBuiltin || actions.last() is Spawn)
}

/// A step keeps the stages, never goes back, and goes at most one stage
/// forward; what comes out is well formed again.
pub proof fn lemma_advance_in_order(p: PipelineView, e: EventView)
    requires
        p.wf(),
    ensures
        advance_spec(p, e).0.wf(),
        advance_spec(p, e).0.stages == p.stages,
        advance_spec(p, e).0.next == p.next || advance_spec(p, e).0.next == p.next + 1,
{
}

/// A pipeline that is over stays over and asks for nothing more.
pub proof fn lemma_done_is_final(p: PipelineView, e: EventView)
    requires
        p.phase == Phase::Done,
    ensures
        advance_spec(p, e) == (p, Seq::<ActionView>::empty()),
{
}

/// Every step that ends a pipeline waits for every process started; every
/// other step of a running pipeline ends by asking the caller for exactly
/// the event that the new phase waits for.
pub proof fn lemma_ends_reap_or_ask(p: PipelineView, e: EventView)
    requires
        p.wf(),
        p.phase != Phase::Done,
    ensures
        advance_spec(p, e).0.phase == Phase::Done ==> reaps(advance_spec(p, e).1),
        advance_spec(p, e).0.phase != Phase::Done ==> ends_asking(advance_spec(p, e).1),
        advance_spec(p, e).0.phase == Phase::AwaitBuiltin <==> advance_spec(p, e).1.len() > 0
            && advance_spec(p, e).1.last() is RunBuiltin,
        advance_spec(p, e).0.phase != Phase::Ready,
{
    let (after, actions) = advance_spec(p, e);
    if after.phase == Phase::Done {
        let n = actions.len() as int;
        assert(n >= 1);
        if actions[n - 1] == ActionView::KillAll || actions[n - 1] == ActionView::WaitAll {
        } else {
            assert(actions[0] == ActionView::KillAll);
        }
    }
}

/// A process that cannot be started ends the pipeline at once, whatever
/// the stage: every process started before is killed and waited for, and
/// the pipeline fails. For a program the failure is `<name>: command not
/// found`.
pub proof fn lemma_spawn_failure_aborts(p: PipelineView)
    requires
        p.wf(),
        p.phase == Phase::AwaitProgram || p.phase == Phase::AwaitForwarder,
    ensures
        advance_spec(p, EventView::SpawnFailed).0.phase == Phase::Done,
        advance_spec(p, EventView::SpawnFailed).1.len() == 2,
        advance_spec(p, EventView::SpawnFailed).1[0] == ActionView::KillAll,
        advance_spec(p, EventView::SpawnFailed).1[1] is Fail,
        p.phase == Phase::AwaitProgram ==> advance_spec(p, EventView::SpawnFailed).1[1]
            == ActionView::Fail(p.stages[p.next][0] + ": command not found"@),
{
}

/// A pipeline fails only because a process could not be started or a
/// builtin failed, and then nothing more is started.
pub proof fn lemma_failure_is_final(p: PipelineView, e: EventView, i: int)
    requires
        p.wf(),
        0 <= i < advance_spec(p, e).1.len(),
        advance_spec(p, e).1[i] is Fail,
    ensures
        advance_spec(p, e).0.phase == Phase::Done,
        e is SpawnFailed || (e matches EventView::Builtin(r) && r is Failure),
        forall|j: int|
            0 <= j < advance_spec(p, e).1.len() ==> !(#[trigger] advance_spec(p, e).1[j]
                is Spawn),
{
}

/// Two programs in a pipeline: the first is started reading what the
/// shell reads, the second reading what the first writes; once both run,
/// the second one's output is drained, both are killed and waited for,
/// and the pipeline is over.
pub proof fn lemma_two_programs_run(p: PipelineView)
    requires
        p.wf(),
        p.phase == Phase::Ready,
        p.next == 0,
        p.stages.len() == 2,
        !is_registered(p.stages[0][0]),
        !is_registered(p.stages[1][0]),
    ensures
        ({
            let (first, a0) = advance_spec(p, EventView::Start);
            let (second, a1) = advance_spec(first, EventView::Spawned);
            let (end, a2) = advance_spec(second, EventView::Spawned);
            &&& a0 == seq![
                ActionView::Spawn {
                    program: p.stages[0][0],
                    args: p.stages[0].skip(1),
                    stdin: Stdin::Inherit,
                    last: false,
                },
            ]
            &&& a1 == seq![
                ActionView::Spawn {
                    program: p.stages[1][0],
                    args: p.stages[1].skip(1),
                    stdin: Stdin::Previous,
                    last: true,
                },
            ]
            &&& a2 == seq![ActionView::Drain, ActionView::KillAll]
            &&& end.phase == Phase::Done
        }),
{
}

/// A process is started for a stage only when every stage before it has
/// one: the first reads from the shell or from nothing, and each later one
/// from the process before it.
pub proof fn lemma_spawn_reads_previous(p: PipelineView, e: EventView)
    requires
        p.wf(),
        advance_spec(p, e).1.len() > 0,
        advance_spec(p, e).1.last() is Spawn,
    ensures
        (advance_spec(p, e).1.last()->stdin == Stdin::Previous) == (advance_spec(p, e).0.next
            > 0),
        advance_spec(p, e).1.last()->last ==> advance_spec(p, e).0.at_last(),
{
}

/// The stages of a pipeline and how far it has got.
#[derive(Debug, PartialEq, Eq)]
pub struct Pipeline {
    stages: Vec<Vec<String>>,
    next: usize,
    phase: Phase,
}

/// The texts of the stages.
pub open spec fn stage_texts(stages: Seq<Vec<String>>) -> Seq<Seq<Seq<char>>> {
    Seq::new(stages.len(), |i: int| stages[i].deep_view())
}

impl View for Pipeline {
    type V = PipelineView;

    closed spec fn view(&self) -> PipelineView {
        PipelineView {
            stages: stage_texts(self.stages@),
            next: self.next as int,
            phase: self.phase,
        }
    }
}

fn line(message: &str) -> (out: String)
    ensures
        out@ == message@ + "\r\n"@,
{
    let mut out = String::from_str(message);
    out.append("\r\n");
    out
}

impl Pipeline {
    #[verifier::type_invariant]
    spec fn inv(self) -> bool {
        self@.wf()
    }

    /// A pipeline of the given stages, ready to start. There is none
    /// without stages, or with a stage that has no command name.
    pub fn new(stages: Vec<Vec<String>>) -> (r: Option<Pipeline>)
        ensures
            match r {
                Some(p) => p@ == (PipelineView {
                    stages: stage_texts(stages@),
                    next: 0,
                    phase: Phase::Ready,
                }) && p@.wf(),
                None => stages.len() == 0 || exists|i: int|
                    0 <= i < stages.len() && (#[trigger] stages[i]).len() == 0,
            },
    {
        if stages.len() == 0 {
            return None;
        }
        let mut i: usize = 0;
        while i < stages.len()
            invariant
                i <= stages.len(),
                forall|j: int| 0 <= j < i ==> (#[trigger] stages[j]).len() >= 1,
            decreases stages.len() - i,
        {
            if stages[i].len() == 0 {
                return None;
            }
            i += 1;
        }
        assert forall|j: int| 0 <= j < stages.len() implies (#[trigger] stage_texts(
            stages@,
        )[j]).len() >= 1 by {
            assert(stages[j].len() >= 1);
        }
        Some(Pipeline { stages, next: 0, phase: Phase::Ready })
    }

    /// Whether the pipeline is over.
    pub fn is_done(&self) -> (r: bool)
        ensures
            r == (self@.phase == Phase::Done),
    {
        self.phase == Phase::Done
    }

    /// The number of stages.
    pub fn len(&self) -> (r: usize)
        ensures
            r == self@.stages.len(),
    {
        self.stages.len()
    }

    fn abort(&mut self, message: &str) -> (actions: Vec<Action>)
        ensures
            (final(self)@, actions.deep_view()) == abort(old(self)@, message@),
    {
        proof {
            use_type_invariant(&*self);
        }
        let mut actions: Vec<Action> = Vec::new();
        actions.push(Action::KillAll);
        actions.push(Action::Fail(String::from_str(message)));
        self.phase = Phase::Done;
        assert(actions.deep_view() =~= abort(old(self)@, message@).1);
        actions
    }

    fn request(&mut self) -> (actions: Vec<Action>)
        ensures
            (final(self)@, actions.deep_view()) == request(old(self)@),
    {
        proof {
            use_type_invariant(&*self);
        }
        let stage = &self.stages[self.next];
        assert(stage.deep_view() == self@.stages[self@.next]);
        let cmd = stage[0].clone();
        let args = copy_texts_from(stage.as_slice(), 1);
        let mut actions: Vec<Action> = Vec::new();
        if Builtins.recognizes(cmd.as_str()) {
            actions.push(Action::RunBuiltin { cmd, args });
            self.phase = Phase::AwaitBuiltin;
        } else {
            let stdin = if self.next > 0 {
                Stdin::Previous
            } else {
                Stdin::Inherit
            };
            let last = self.next == self.stages.len() - 1;
            actions.push(Action::Spawn { program: cmd, args, stdin, last });
            self.phase = Phase::AwaitProgram;
        }
        assert(actions.deep_view() =~= request(old(self)@).1);
        actions
    }

    fn proceed(&mut self) -> (actions: Vec<Action>)
        requires
            !old(self)@.at_last(),
        ensures
            (final(self)@, actions.deep_view()) == proceed(old(self)@),
    {
        proof {
            use_type_invariant(&*self);
        }
        proof {
            assert(self.stages@.len() == self.stages.len());
        }
        self.phase = Phase::Ready;
        self.next = self.next + 1;
        self.request()
    }

    fn deliver(&mut self, output: &str, notice: Vec<Action>) -> (actions: Vec<Action>)
        ensures
            final(self)@ == deliver(old(self)@, output@).0,
            actions.deep_view() == notice.deep_view() + deliver(old(self)@, output@).1,
    {
        proof {
            use_type_invariant(&*self);
        }
        let mut actions = notice;
        if self.next == self.stages.len() - 1 {
            if !output.is_empty() {
                let mut text = replace_char(output, '\n', "\r\n");
                text.append("\r\n");
                actions.push(Action::Write(text));
            }
            actions.push(Action::Flush);
            actions.push(Action::WaitAll);
            self.phase = Phase::Done;
        } else {
            let mut script = String::from_str("echo -n '");
            let quoted = replace_char(output, '\'', "'\\''");
            script.append(quoted.as_str());
            script.append("'");
            let mut args: Vec<String> = Vec::new();
            args.push(String::from_str("-c"));
            args.push(script);
            assert(args.deep_view() =~= forwarder_args(output@));
            let stdin = if self.next > 0 {
                Stdin::Previous
            } else {
                Stdin::Null
            };
            actions.push(
                Action::Spawn { program: String::from_str("sh"), args, stdin, last: false },
            );
            self.phase = Phase::AwaitForwarder;
        }
        assert(actions.deep_view() =~= notice.deep_view() + deliver(old(self)@, output@).1);
        actions
    }

    /// Takes what happened and says what to do next.
    pub fn advance(&mut self, event: Event) -> (actions: Vec<Action>)
        ensures
            (final(self)@, actions.deep_view()) == advance_spec(old(self)@, event@),
            final(self)@.wf(),
    {
        proof {
            use_type_invariant(&*self);
        }
        match (self.phase, event) {
            (Phase::Done, _) => Vec::new(),
            (Phase::Ready, Event::Start) => self.request(),
            (Phase::AwaitBuiltin, Event::Builtin(result)) => match result {
                Err(ErrorKind::CompleteFailure(message)) => self.abort(message.as_str()),
                Ok(output) => {
                    let actions = self.deliver(output.as_str(), Vec::new());
                    assert(actions.deep_view() =~= deliver(old(self)@, output@).1);
                    actions
                },
                Err(ErrorKind::PartialSuccess(partial)) => {
                    let mut notice: Vec<Action> = Vec::new();
                    notice.push(Action::Write(line(partial.error_info.as_str())));
                    assert(notice.deep_view() =~= seq![
                        ActionView::Write(partial.error_info@ + "\r\n"@),
                    ]);
                    self.deliver(partial.success_data.as_str(), notice)
                },
            },
            (Phase::AwaitForwarder, Event::Spawned) => self.proceed(),
            (Phase::AwaitForwarder, Event::SpawnFailed) => self.abort(
                "Error: failed to pipe builtin output",
            ),
            (Phase::AwaitProgram, Event::Spawned) => {
                if self.next == self.stages.len() - 1 {
                    let mut actions: Vec<Action> = Vec::new();
                    actions.push(Action::Drain);
                    actions.push(Action::KillAll);
                    self.phase = Phase::Done;
                    assert(actions.deep_view() =~= seq![ActionView::Drain, ActionView::KillAll]);
                    actions
                } else {
                    self.proceed()
                }
            },
            (Phase::AwaitProgram, Event::SpawnFailed) => {
                let mut message = self.stages[self.next][0].clone();
                message.append(": command not found");
                self.abort(message.as_str())
            },
            _ => {
                let mut actions: Vec<Action> = Vec::new();
                actions.push(Action::KillAll);
                self.phase = Phase::Done;
                assert(actions.deep_view() =~= seq![ActionView::KillAll]);
                actions
            },
        }
    }
}

} // verus!
