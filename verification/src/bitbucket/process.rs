//! One run of a tool: what to do next, and what it gives in the end.

use vstd::prelude::*;

use crate::bitbucket::errors::{FailModel, SpawnFail};
use crate::bitbucket::tool::{collect, collected, output_model, OutputModel};

verus! {

/// How far a run is.
#[derive(Debug)]
pub enum Run {
    Start,
    /// The tool is to be looked at.
    Watch,
    Pause,
    /// The tool has exited.
    Drain { success: bool },
    /// The tool could not be looked at.
    Abandon(String),
    Done,
}

/// What a [`Run`] stands for.
pub enum RunModel {
    Start,
    Watch,
    Pause,
    Drain { success: bool },
    Abandon(Seq<char>),
    Done,
}

impl View for Run {
    type V = RunModel;

    open spec fn view(&self) -> RunModel {
        match *self {
            Run::Start => RunModel::Start,
            Run::Watch => RunModel::Watch,
            Run::Pause => RunModel::Pause,
            Run::Drain { success } => RunModel::Drain { success },
            Run::Abandon(message) => RunModel::Abandon(message@),
            Run::Done => RunModel::Done,
        }
    }
}

/// What a run asks for.
#[derive(Debug)]
pub enum RunAction {
    /// Start the tool, write its input, and begin to drain its outputs.
    Spawn,
    /// Look whether the tool still runs; kill it before where `kill` says so.
    Look { kill: bool },
    /// Do nothing for so many milliseconds.
    Pause(u64),
    /// Wait until both outputs are drained.
    Drain,
    /// Kill the tool, and wait for it and for both outputs.
    Abandon,
    /// The run is done.
    Finish(Result<String, SpawnFail>),
}

/// What a [`RunAction`] stands for.
pub enum RunActionModel {
    Spawn,
    Look { kill: bool },
    Pause(u64),
    Drain,
    Abandon,
    Finish(OutputModel),
}

impl View for RunAction {
    type V = RunActionModel;

    open spec fn view(&self) -> RunActionModel {
        match *self {
            RunAction::Spawn => RunActionModel::Spawn,
            RunAction::Look { kill } => RunActionModel::Look { kill },
            RunAction::Pause(ms) => RunActionModel::Pause(ms),
            RunAction::Drain => RunActionModel::Drain,
            RunAction::Abandon => RunActionModel::Abandon,
            RunAction::Finish(output) => RunActionModel::Finish(output_model(output)),
        }
    }
}

/// The answer to a [`RunAction`]. Where the run can be cancelled, it says whether it is.
#[derive(Debug)]
pub enum RunEvent {
    Spawned { cancelled: bool },
    /// The tool did not start.
    NotSpawned { not_found: bool, message: String },
    Running,
    Exited { success: bool },
    /// The tool could not be looked at.
    Broken(String),
    Paused { cancelled: bool },
    Drained { cancelled: bool, stdout: Vec<u8>, stderr: Vec<u8> },
    Abandoned,
}

/// What a [`RunEvent`] stands for.
pub enum RunEventModel {
    Spawned { cancelled: bool },
    NotSpawned { not_found: bool, message: Seq<char> },
    Running,
    Exited { success: bool },
    Broken(Seq<char>),
    Paused { cancelled: bool },
    Drained { cancelled: bool, stdout: Seq<u8>, stderr: Seq<u8> },
    Abandoned,
}

impl View for RunEvent {
    type V = RunEventModel;

    open spec fn view(&self) -> RunEventModel {
        match *self {
            RunEvent::Spawned { cancelled } => RunEventModel::Spawned { cancelled },
            RunEvent::NotSpawned { not_found, message } => RunEventModel::NotSpawned {
                not_found,
                message: message@,
            },
            RunEvent::Running => RunEventModel::Running,
            RunEvent::Exited { success } => RunEventModel::Exited { success },
            RunEvent::Broken(message) => RunEventModel::Broken(message@),
            RunEvent::Paused { cancelled } => RunEventModel::Paused { cancelled },
            RunEvent::Drained { cancelled, stdout, stderr } => RunEventModel::Drained {
                cancelled,
                stdout: stdout@,
                stderr: stderr@,
            },
            RunEvent::Abandoned => RunEventModel::Abandoned,
        }
    }
}

impl RunModel {
    /// Whether the event answers what the run asked for.
    pub open spec fn expects(self, event: RunEventModel) -> bool {
        match self {
            RunModel::Start => event is Spawned || event is NotSpawned,
            RunModel::Watch => event is Running || event is Exited || event is Broken,
            RunModel::Pause => event is Paused,
            RunModel::Drain { .. } => event is Drained,
            RunModel::Abandon(_) => event is Abandoned,
            RunModel::Done => false,
        }
    }

    /// What the run does after the event that it expects. The tool is looked at every 20
    /// milliseconds until it has exited, and killed once the run is cancelled.
    pub open spec fn after(self, event: RunEventModel) -> (RunModel, RunActionModel) {
        match (self, event) {
            (RunModel::Start, RunEventModel::NotSpawned { not_found, message }) => (
                RunModel::Done,
                RunActionModel::Finish(
                    OutputModel::Fail(
                        if not_found {
                            FailModel::NotFound
                        } else {
                            FailModel::Io(message)
                        },
                    ),
                ),
            ),
            (RunModel::Start, RunEventModel::Spawned { cancelled }) => (
                RunModel::Watch,
                RunActionModel::Look { kill: cancelled },
            ),
            (RunModel::Watch, RunEventModel::Running) => (
                RunModel::Pause,
                RunActionModel::Pause(20),
            ),
            (RunModel::Pause, RunEventModel::Paused { cancelled }) => (
                RunModel::Watch,
                RunActionModel::Look { kill: cancelled },
            ),
            (RunModel::Watch, RunEventModel::Exited { success }) => (
                RunModel::Drain { success },
                RunActionModel::Drain,
            ),
            (RunModel::Watch, RunEventModel::Broken(message)) => (
                RunModel::Abandon(message),
                RunActionModel::Abandon,
            ),
            (
                RunModel::Drain { success },
                RunEventModel::Drained { cancelled, stdout, stderr },
            ) => (
                RunModel::Done,
                RunActionModel::Finish(collected(cancelled, success, stdout, stderr)),
            ),
            (RunModel::Abandon(message), RunEventModel::Abandoned) => (
                RunModel::Done,
                RunActionModel::Finish(OutputModel::Fail(FailModel::Io(message))),
            ),
            _ => arbitrary(),
        }
    }
}

impl Run {
    /// Begins a run.
    pub fn start() -> (begun: (Run, RunAction))
        ensures
            begun.0@ == RunModel::Start,
            begun.1@ == RunActionModel::Spawn,
    {
        (Run::Start, RunAction::Spawn)
    }

    /// Tells whether the event answers what the run asked for.
    pub fn accepts(&self, event: &RunEvent) -> (accepted: bool)
        ensures
            accepted == self@.expects(event@),
    {
        match (self, event) {
            (Run::Start, RunEvent::Spawned { .. }) => true,
            (Run::Start, RunEvent::NotSpawned { .. }) => true,
            (Run::Watch, RunEvent::Running) => true,
            (Run::Watch, RunEvent::Exited { .. }) => true,
            (Run::Watch, RunEvent::Broken(_)) => true,
            (Run::Pause, RunEvent::Paused { .. }) => true,
            (Run::Drain { .. }, RunEvent::Drained { .. }) => true,
            (Run::Abandon(_), RunEvent::Abandoned) => true,
            _ => false,
        }
    }

    /// Goes on after the answer to what the run asked for.
    pub fn step(self, event: RunEvent) -> (after: (Run, RunAction))
        requires
            self@.expects(event@),
        ensures
            (after.0@, after.1@) == self@.after(event@),
    {
        match (self, event) {
            (Run::Start, RunEvent::NotSpawned { not_found, message }) => {
                let fail = if not_found {
                    SpawnFail::NotFound
                } else {
                    SpawnFail::Io(message)
                };
                (Run::Done, RunAction::Finish(Err(fail)))
            },
            (Run::Start, RunEvent::Spawned { cancelled }) => (
                Run::Watch,
                RunAction::Look { kill: cancelled },
            ),
            (Run::Watch, RunEvent::Running) => (Run::Pause, RunAction::Pause(20)),
            (Run::Pause, RunEvent::Paused { cancelled }) => (
                Run::Watch,
                RunAction::Look { kill: cancelled },
            ),
            (Run::Watch, RunEvent::Exited { success }) => (
                Run::Drain { success },
                RunAction::Drain,
            ),
            (Run::Watch, RunEvent::Broken(message)) => (
                Run::Abandon(message),
                RunAction::Abandon,
            ),
            (Run::Drain { success }, RunEvent::Drained { cancelled, stdout, stderr }) => (
                Run::Done,
                RunAction::Finish(collect(cancelled, success, stdout, stderr)),
            ),
            (Run::Abandon(message), RunEvent::Abandoned) => (
                Run::Done,
                RunAction::Finish(Err(SpawnFail::Io(message))),
            ),
            (_, _) => (Run::Done, RunAction::Finish(Err(SpawnFail::Cancelled))),
        }
    }
}

/// A tool that starts, and what is seen of it.
pub struct Tool {
    /// What the look sees before which there were so many others.
    pub seen: spec_fn(nat) -> RunEventModel,
    /// Whether the run is cancelled after so many looks.
    pub cancelled: spec_fn(nat) -> bool,
    pub stdout: Seq<u8>,
    pub stderr: Seq<u8>,
}

impl Tool {
    /// The answer to what a run asks for after so many looks.
    pub open spec fn answer(self, action: RunActionModel, looks: nat) -> RunEventModel {
        match action {
            RunActionModel::Spawn => RunEventModel::Spawned { cancelled: (self.cancelled)(looks) },
            RunActionModel::Look { .. } => (self.seen)(looks),
            RunActionModel::Pause(_) => RunEventModel::Paused {
                cancelled: (self.cancelled)(looks),
            },
            RunActionModel::Drain => RunEventModel::Drained {
                cancelled: (self.cancelled)(looks),
                stdout: self.stdout,
                stderr: self.stderr,
            },
            RunActionModel::Abandon => RunEventModel::Abandoned,
            RunActionModel::Finish(_) => RunEventModel::Abandoned,
        }
    }

    /// What a run gives within so many answers.
    pub open spec fn gives(
        self,
        run: RunModel,
        action: RunActionModel,
        looks: nat,
        answers: nat,
    ) -> Option<OutputModel>
        decreases answers,
    {
        match action {
            RunActionModel::Finish(output) => Some(output),
            _ => if answers == 0 {
                None
            } else {
                let after = run.after(self.answer(action, looks));
                let looked = if action is Look {
                    looks + 1
                } else {
                    looks
                };
                self.gives(after.0, after.1, looked, (answers - 1) as nat)
            },
        }
    }

    /// What the run gives by what the last look saw, before which there were `last` others.
    pub open spec fn outcome(self, last: nat) -> OutputModel {
        match (self.seen)(last) {
            RunEventModel::Exited { success } => collected(
                (self.cancelled)(last + 1),
                success,
                self.stdout,
                self.stderr,
            ),
            RunEventModel::Broken(message) => OutputModel::Fail(FailModel::Io(message)),
            _ => arbitrary(),
        }
    }

    /// Whether the tool runs at every look before the one with `last` others before it, and no
    /// longer at that one.
    pub open spec fn runs_until(self, last: nat) -> bool {
        &&& forall|look: nat| look < last ==> #[trigger] (self.seen)(look) is Running
        &&& (self.seen)(last) is Exited || (self.seen)(last) is Broken
    }
}

proof fn lemma_watch_ends(tool: Tool, looks: nat, last: nat, kill: bool)
    requires
        looks <= last,
        tool.runs_until(last),
    ensures
        tool.gives(
            RunModel::Watch,
            RunActionModel::Look { kill },
            looks,
            (2 * (last - looks) + 2) as nat,
        ) == Some(tool.outcome(last)),
    decreases last - looks,
{
    reveal_with_fuel(Tool::gives, 3);
    if looks < last {
        assert((tool.seen)(looks) is Running);
        lemma_watch_ends(tool, looks + 1, last, (tool.cancelled)(looks + 1));
    }
}

/// The run of a tool that exits ends, and gives what the tool wrote, or its failure: no look
/// comes behind the one that saw the exit.
pub proof fn lemma_run_ends(tool: Tool, last: nat)
    requires
        tool.runs_until(last),
    ensures
        tool.gives(RunModel::Start, RunActionModel::Spawn, 0, (2 * last + 3) as nat) == Some(
            tool.outcome(last),
        ),
{
    lemma_watch_ends(tool, 0, last, (tool.cancelled)(0));
}

/// Once a run is cancelled, the tool is killed before it is looked at the next time; and a run
/// that is cancelled at its end gives no text.
pub proof fn lemma_cancelled_run_is_killed(run: RunModel, event: RunEventModel)
    requires
        run.expects(event),
    ensures
        match event {
            RunEventModel::Spawned { cancelled } => cancelled ==> run.after(event).1 == (
            RunActionModel::Look { kill: true }),
            RunEventModel::Paused { cancelled } => cancelled ==> run.after(event).1 == (
            RunActionModel::Look { kill: true }),
            RunEventModel::Drained { cancelled, .. } => cancelled ==> run.after(event).1
                == RunActionModel::Finish(OutputModel::Fail(FailModel::Cancelled)),
            _ => true,
        },
{
}

/// What a run does on each event: it kills where it is cancelled and not otherwise, pauses while
/// the tool runs, drains what the tool wrote once it has exited, and reports a tool that cannot
/// be started or looked at.
pub proof fn lemma_run_steps(
    cancelled: bool,
    success: bool,
    message: Seq<char>,
    out: Seq<u8>,
    err: Seq<u8>,
)
    ensures
        RunModel::Start.after(RunEventModel::Spawned { cancelled }).1 == (RunActionModel::Look {
            kill: cancelled,
        }),
        RunModel::Start.after(RunEventModel::NotSpawned { not_found: true, message }).1
            == RunActionModel::Finish(OutputModel::Fail(FailModel::NotFound)),
        RunModel::Start.after(RunEventModel::NotSpawned { not_found: false, message }).1
            == RunActionModel::Finish(OutputModel::Fail(FailModel::Io(message))),
        RunModel::Watch.after(RunEventModel::Running).1 == RunActionModel::Pause(20),
        RunModel::Pause.after(RunEventModel::Paused { cancelled }).1 == (RunActionModel::Look {
            kill: cancelled,
        }),
        RunModel::Watch.after(RunEventModel::Exited { success }).1 is Drain,
        RunModel::Watch.after(RunEventModel::Broken(message)).1 is Abandon,
        ({
            let exited = RunModel::Watch.after(RunEventModel::Exited { success }).0;
            let drained = RunEventModel::Drained { cancelled, stdout: out, stderr: err };
            exited.expects(drained) && exited.after(drained).1 == RunActionModel::Finish(
                if cancelled {
                    OutputModel::Fail(FailModel::Cancelled)
                } else if success {
                    OutputModel::Text(crate::bitbucket::tool::lossy_text(out))
                } else {
                    OutputModel::Fail(
                        FailModel::Failed { stderr: crate::bitbucket::tool::lossy_text(err) },
                    )
                },
            )
        }),
        ({
            let lost = RunModel::Watch.after(RunEventModel::Broken(message)).0;
            lost.expects(RunEventModel::Abandoned) && lost.after(RunEventModel::Abandoned).1
                == RunActionModel::Finish(OutputModel::Fail(FailModel::Io(message)))
        }),
{
}

/// A run expects some event until it is done, and none then; and what it expects is the answer to
/// what it asked for.
pub proof fn lemma_run_expects(cancelled: bool)
    ensures
        RunModel::Start.expects(RunEventModel::Spawned { cancelled }),
        RunModel::Start.after(RunEventModel::Spawned { cancelled }).0.expects(
            RunEventModel::Running,
        ),
        RunModel::Watch.after(RunEventModel::Running).0.expects(
            RunEventModel::Paused { cancelled },
        ),
        RunModel::Pause.after(RunEventModel::Paused { cancelled }).0.expects(
            RunEventModel::Running,
        ),
        forall|event: RunEventModel| !(#[trigger] RunModel::Done.expects(event)),
{
}

}
