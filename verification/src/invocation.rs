//! The lifecycle of one subagent run: the request handed to the conversation
//! engine, the step taken on each signal of the run, the outcome, and the
//! lifecycle events published around it.
use crate::definition::{clone_text, SubAgentDefinition, SubAgentDefinitionView, SubAgentMode};
use crate::policy::{derived_policy, sandbox_policy_for_mode, SandboxPolicy, SandboxPolicyView};
use vstd::prelude::*;

verus! {

/// How a run ended.
#[derive(Debug, Clone, Copy, PartialEq, Eq, Structural)]
pub enum SubAgentInvocationStatus {
    Completed,
    Failed,
    Cancelled,
}

/// The kind of work a session task does. A subagent run is regular work; a
/// scheduler may know further kinds.
#[derive(Debug, Clone, Copy, PartialEq, Eq, Structural)]
#[non_exhaustive]
pub enum TaskKind {
    Regular,
}

/// When the engine asks the user for approval.
#[derive(Debug, Clone, Copy, PartialEq, Eq, Structural)]
pub enum AskForApproval {
    UnlessTrusted,
    OnFailure,
    OnRequest,
    Never,
}

/// The terminal result of a run.
#[derive(Debug)]
pub struct SubAgentOutcome {
    pub status: SubAgentInvocationStatus,
    pub output: Option<String>,
    pub error: Option<String>,
}

/// Mathematical content of a [`SubAgentOutcome`].
pub struct SubAgentOutcomeView {
    pub status: SubAgentInvocationStatus,
    pub output: Option<Seq<char>>,
    pub error: Option<Seq<char>>,
}

impl View for SubAgentOutcome {
    type V = SubAgentOutcomeView;

    open spec fn view(&self) -> SubAgentOutcomeView {
        SubAgentOutcomeView {
            status: self.status,
            output: self.output.deep_view(),
            error: self.error.deep_view(),
        }
    }
}

/// An event of the engine's stream, as far as a run reacts to it.
#[derive(Debug)]
pub enum EngineEvent {
    /// The agent produced a message.
    AgentMessage(String),
    /// The engine finished normally.
    TaskComplete,
    /// The engine's turn was aborted.
    TurnAborted,
    /// The engine reported an error.
    Error(String),
    /// Any other kind of event.
    Other,
}

/// Mathematical content of an [`EngineEvent`].
pub enum EngineEventView {
    AgentMessage(Seq<char>),
    TaskComplete,
    TurnAborted,
    Error(Seq<char>),
    Other,
}

impl View for EngineEvent {
    type V = EngineEventView;

    open spec fn view(&self) -> EngineEventView {
        match self {
            EngineEvent::AgentMessage(message) => EngineEventView::AgentMessage(message@),
            EngineEvent::TaskComplete => EngineEventView::TaskComplete,
            EngineEvent::TurnAborted => EngineEventView::TurnAborted,
            EngineEvent::Error(message) => EngineEventView::Error(message@),
            EngineEvent::Other => EngineEventView::Other,
        }
    }
}

/// What one wait of a run observed first.
#[derive(Debug)]
pub enum InvocationSignal {
    /// The cancellation token was triggered.
    Cancellation,
    /// The next event could not be received: the stream is closed or broken.
    StreamError,
    /// The engine's next event.
    Event(EngineEvent),
}

/// Mathematical content of an [`InvocationSignal`].
pub enum InvocationSignalView {
    Cancellation,
    StreamError,
    Event(EngineEventView),
}

impl View for InvocationSignal {
    type V = InvocationSignalView;

    open spec fn view(&self) -> InvocationSignalView {
        match self {
            InvocationSignal::Cancellation => InvocationSignalView::Cancellation,
            InvocationSignal::StreamError => InvocationSignalView::StreamError,
            InvocationSignal::Event(event) => InvocationSignalView::Event(event@),
        }
    }
}

/// The signals of a list, each by its view.
pub open spec fn signal_views(signals: Seq<InvocationSignal>) -> Seq<InvocationSignalView> {
    Seq::new(signals.len(), |i: int| signals[i]@)
}

/// How the attempt to start the engine ended.
#[derive(Debug)]
pub enum EngineStart {
    /// The engine runs.
    Started,
    /// The engine did not start; the text describes the failure.
    Failed(String),
}

/// Mathematical content of an [`EngineStart`].
pub enum EngineStartView {
    Started,
    Failed(Seq<char>),
}

impl View for EngineStart {
    type V = EngineStartView;

    open spec fn view(&self) -> EngineStartView {
        match self {
            EngineStart::Started => EngineStartView::Started,
            EngineStart::Failed(description) => EngineStartView::Failed(description@),
        }
    }
}

/// A run after one signal: still waiting, with the output recorded so far,
/// or ended.
#[derive(Debug)]
pub enum InvocationStep {
    Continue(Option<String>),
    Done(SubAgentOutcome),
}

/// Mathematical content of an [`InvocationStep`].
pub enum InvocationStepView {
    Continue(Option<Seq<char>>),
    Done(SubAgentOutcomeView),
}

impl View for InvocationStep {
    type V = InvocationStepView;

    open spec fn view(&self) -> InvocationStepView {
        match self {
            InvocationStep::Continue(output) => InvocationStepView::Continue(output.deep_view()),
            InvocationStep::Done(outcome) => InvocationStepView::Done(outcome@),
        }
    }
}

/// The outcome of a run that was cancelled with `output` recorded.
pub open spec fn cancelled(output: Option<Seq<char>>) -> SubAgentOutcomeView {
    SubAgentOutcomeView { status: SubAgentInvocationStatus::Cancelled, output, error: None }
}

/// The outcome of a run that completed with `output` recorded.
pub open spec fn completed(output: Option<Seq<char>>) -> SubAgentOutcomeView {
    SubAgentOutcomeView { status: SubAgentInvocationStatus::Completed, output, error: None }
}

/// The outcome of a run that failed: no output, and the failure's text.
pub open spec fn failed(error: Seq<char>) -> SubAgentOutcomeView {
    SubAgentOutcomeView {
        status: SubAgentInvocationStatus::Failed,
        output: None,
        error: Some(error),
    }
}

/// The step a running invocation takes on one signal, with `output` the
/// message recorded so far.
pub open spec fn step(
    output: Option<Seq<char>>,
    signal: InvocationSignalView,
) -> InvocationStepView {
    match signal {
        InvocationSignalView::Cancellation => InvocationStepView::Done(cancelled(None)),
        InvocationSignalView::StreamError => InvocationStepView::Done(cancelled(output)),
        InvocationSignalView::Event(EngineEventView::AgentMessage(message)) => {
            InvocationStepView::Continue(Some(message))
        },
        InvocationSignalView::Event(EngineEventView::TaskComplete) => InvocationStepView::Done(
            completed(output),
        ),
        InvocationSignalView::Event(EngineEventView::TurnAborted) => InvocationStepView::Done(
            cancelled(output),
        ),
        InvocationSignalView::Event(EngineEventView::Error(message)) => InvocationStepView::Done(
            failed(message),
        ),
        InvocationSignalView::Event(EngineEventView::Other) => InvocationStepView::Continue(output),
    }
}

/// The outcome of a running invocation that holds `output` and observes
/// `signals` in order. The run ends at the first signal that ends it; a
/// stream with nothing more to give is a closed one.
pub open spec fn outcome_from(
    output: Option<Seq<char>>,
    signals: Seq<InvocationSignalView>,
) -> SubAgentOutcomeView
    decreases signals.len(),
{
    if signals.len() == 0 {
        cancelled(output)
    } else {
        match step(output, signals[0]) {
            InvocationStepView::Done(outcome) => outcome,
            InvocationStepView::Continue(recorded) => outcome_from(recorded, signals.drop_first()),
        }
    }
}

/// Whether a signal ends the run that observes it.
pub open spec fn ends_run(signal: InvocationSignalView) -> bool {
    step(None, signal) is Done
}

/// The outcome of a run: that of the failed start, or that of the signals
/// observed once the engine runs.
pub open spec fn outcome_of(
    start: EngineStartView,
    signals: Seq<InvocationSignalView>,
) -> SubAgentOutcomeView {
    match start {
        EngineStartView::Failed(description) => failed(description),
        EngineStartView::Started => outcome_from(None, signals),
    }
}

/// Takes the step of a running invocation on one signal. An agent message
/// replaces the recorded output and any other kind of event leaves it; the
/// run goes on after both. Completion ends the run as completed, a stream
/// error or an aborted turn as cancelled, each with the recorded output. A
/// cancellation ends it as cancelled and discards the recorded output; an
/// error ends it as failed, without output and with the error's message.
pub fn on_signal(output: Option<String>, signal: InvocationSignal) -> (next: InvocationStep)
    ensures
        next@ == step(output.deep_view(), signal@),
{
    match signal {
        InvocationSignal::Cancellation => InvocationStep::Done(
            SubAgentOutcome {
                status: SubAgentInvocationStatus::Cancelled,
                output: None,
                error: None,
            },
        ),
        InvocationSignal::StreamError => InvocationStep::Done(
            SubAgentOutcome { status: SubAgentInvocationStatus::Cancelled, output, error: None },
        ),
        InvocationSignal::Event(event) => match event {
            EngineEvent::AgentMessage(message) => InvocationStep::Continue(Some(message)),
            EngineEvent::TaskComplete => InvocationStep::Done(
                SubAgentOutcome {
                    status: SubAgentInvocationStatus::Completed,
                    output,
                    error: None,
                },
            ),
            EngineEvent::TurnAborted => InvocationStep::Done(
                SubAgentOutcome {
                    status: SubAgentInvocationStatus::Cancelled,
                    output,
                    error: None,
                },
            ),
            EngineEvent::Error(message) => InvocationStep::Done(
                SubAgentOutcome {
                    status: SubAgentInvocationStatus::Failed,
                    output: None,
                    error: Some(message),
                },
            ),
            EngineEvent::Other => InvocationStep::Continue(output),
        },
    }
}

/// Runs an invocation over what it observed: how the engine started, and
/// the signals of its waits in order. A failed start fails the run at once.
/// Otherwise the run takes one step per signal and ends with the first
/// signal that ends it; later signals are not consumed. Where the signals
/// end before the run does, the stream is closed and the run is cancelled.
pub fn run_subagent(start: EngineStart, signals: Vec<InvocationSignal>) -> (outcome:
    SubAgentOutcome)
    ensures
        outcome@ == outcome_of(start@, signal_views(signals@)),
{
    let ghost observed = signal_views(signals@);
    let ghost expected = outcome_of(start@, observed);
    if let EngineStart::Failed(description) = start {
        return SubAgentOutcome {
            status: SubAgentInvocationStatus::Failed,
            output: None,
            error: Some(description),
        };
    }
    let mut output: Option<String> = None;
    assert(observed.skip(0) =~= observed);
    for signal in it: signals
        invariant
            observed == signal_views(it.seq()),
            expected == outcome_of(start@, signal_views(signals@)),
            outcome_from(output.deep_view(), observed.skip(it.index())) == expected,
    {
        assert(observed.skip(it.index()).drop_first() =~= observed.skip(it.index() + 1));
        match on_signal(output, signal) {
            InvocationStep::Done(outcome) => {
                return outcome;
            },
            InvocationStep::Continue(recorded) => {
                output = recorded;
            },
        }
    }
    SubAgentOutcome { status: SubAgentInvocationStatus::Cancelled, output, error: None }
}

/// What a run hands to the conversation engine: the fields of the caller's
/// configuration that it overrides, and the tag that names the run's source.
#[derive(Debug)]
pub struct EngineRequest {
    pub sandbox_policy: SandboxPolicy,
    pub approval_policy: AskForApproval,
    pub base_instructions: Option<String>,
    pub developer_instructions: Option<String>,
    pub user_instructions: Option<String>,
    pub project_doc_max_bytes: usize,
    /// Name of the subagent that the engine runs for.
    pub source: String,
}

/// Mathematical content of an [`EngineRequest`].
pub struct EngineRequestView {
    pub sandbox_policy: SandboxPolicyView,
    pub approval_policy: AskForApproval,
    pub base_instructions: Option<Seq<char>>,
    pub developer_instructions: Option<Seq<char>>,
    pub user_instructions: Option<Seq<char>>,
    pub project_doc_max_bytes: usize,
    pub source: Seq<char>,
}

impl View for EngineRequest {
    type V = EngineRequestView;

    open spec fn view(&self) -> EngineRequestView {
        EngineRequestView {
            sandbox_policy: self.sandbox_policy@,
            approval_policy: self.approval_policy,
            base_instructions: self.base_instructions.deep_view(),
            developer_instructions: self.developer_instructions.deep_view(),
            user_instructions: self.user_instructions.deep_view(),
            project_doc_max_bytes: self.project_doc_max_bytes,
            source: self.source@,
        }
    }
}

/// Notice that a run began.
#[derive(Debug)]
pub struct SubAgentInvocationStartedEvent {
    pub subagent: SubAgentDefinition,
}

/// Notice that a run ended, and how.
#[derive(Debug)]
pub struct SubAgentInvocationFinishedEvent {
    pub subagent: SubAgentDefinition,
    pub status: SubAgentInvocationStatus,
    pub output: Option<String>,
    pub error: Option<String>,
}

/// A notice published for the observers of a run.
#[derive(Debug)]
pub enum LifecycleEvent {
    SubAgentInvocationStarted(SubAgentInvocationStartedEvent),
    SubAgentInvocationFinished(SubAgentInvocationFinishedEvent),
}

/// Mathematical content of a [`LifecycleEvent`].
pub enum LifecycleEventView {
    Started { subagent: SubAgentDefinitionView },
    Finished { subagent: SubAgentDefinitionView, outcome: SubAgentOutcomeView },
}

impl View for LifecycleEvent {
    type V = LifecycleEventView;

    open spec fn view(&self) -> LifecycleEventView {
        match self {
            LifecycleEvent::SubAgentInvocationStarted(event) => LifecycleEventView::Started {
                subagent: event.subagent@,
            },
            LifecycleEvent::SubAgentInvocationFinished(event) => LifecycleEventView::Finished {
                subagent: event.subagent@,
                outcome: SubAgentOutcomeView {
                    status: event.status,
                    output: event.output.deep_view(),
                    error: event.error.deep_view(),
                },
            },
        }
    }
}

/// The events of a list, each by its view.
pub open spec fn event_views(events: Seq<LifecycleEvent>) -> Seq<LifecycleEventView> {
    Seq::new(events.len(), |i: int| events[i]@)
}

/// The mode a definition runs in: the declared one, read-only where none is
/// declared.
pub open spec fn effective_mode(definition: SubAgentDefinitionView) -> SubAgentMode {
    match definition.mode {
        Some(mode) => mode,
        None => SubAgentMode::ReadOnly,
    }
}

/// The request of a run of `definition` under the turn's current policy.
/// The sandbox policy is derived from the definition's mode, the engine
/// never asks for approval, the definition's prompt is the only instruction
/// and no project documentation is added.
pub open spec fn request_for(
    definition: SubAgentDefinitionView,
    turn_policy: SandboxPolicyView,
) -> EngineRequestView {
    EngineRequestView {
        sandbox_policy: derived_policy(effective_mode(definition), turn_policy),
        approval_policy: AskForApproval::Never,
        base_instructions: Some(definition.system_prompt),
        developer_instructions: None,
        user_instructions: None,
        project_doc_max_bytes: 0,
        source: definition.name,
    }
}

/// The events that a run of `definition` publishes, in order: that it
/// started, then that it finished with its outcome.
pub open spec fn published_by_run(
    definition: SubAgentDefinitionView,
    start: EngineStartView,
    signals: Seq<InvocationSignalView>,
) -> Seq<LifecycleEventView> {
    seq![
        LifecycleEventView::Started { subagent: definition },
        LifecycleEventView::Finished { subagent: definition, outcome: outcome_of(start, signals) },
    ]
}

/// The event that aborting a run of `definition` publishes.
pub open spec fn published_by_abort(definition: SubAgentDefinitionView) -> LifecycleEventView {
    LifecycleEventView::Finished { subagent: definition, outcome: cancelled(None) }
}

/// Number of finished events among `events`.
pub open spec fn finished_count(events: Seq<LifecycleEventView>) -> nat
    decreases events.len(),
{
    if events.len() == 0 {
        0
    } else if events.last() is Finished {
        finished_count(events.drop_last()) + 1
    } else {
        finished_count(events.drop_last())
    }
}

/// What one complete run did: the request it made of the engine, the events
/// it published in order, and the output it returns.
#[derive(Debug)]
pub struct RunRecord {
    pub request: EngineRequest,
    pub published: Vec<LifecycleEvent>,
    pub output: Option<String>,
}

/// One run of a subagent definition.
#[derive(Debug)]
pub struct SubAgentTask {
    definition: SubAgentDefinition,
}

impl View for SubAgentTask {
    type V = SubAgentDefinitionView;

    closed spec fn view(&self) -> SubAgentDefinitionView {
        self.definition@
    }
}

impl Clone for SubAgentTask {
    fn clone(&self) -> (copy: Self)
        ensures
            copy@ == self@,
    {
        SubAgentTask { definition: self.definition.clone() }
    }
}

impl SubAgentTask {
    /// A task that runs `definition`.
    pub fn new(definition: SubAgentDefinition) -> (task: Self)
        ensures
            task@ == definition@,
    {
        Self { definition }
    }

    /// The kind of the task: a subagent run is regular work.
    pub fn kind(&self) -> (kind: TaskKind)
        ensures
            kind == TaskKind::Regular,
    {
        TaskKind::Regular
    }

    /// The definition that the task runs.
    pub fn definition(&self) -> (definition: &SubAgentDefinition)
        ensures
            definition@ == self@,
    {
        &self.definition
    }

    /// The event to publish when the run begins.
    pub fn started_event(&self) -> (event: LifecycleEvent)
        ensures
            event@ == (LifecycleEventView::Started { subagent: self@ }),
    {
        LifecycleEvent::SubAgentInvocationStarted(
            SubAgentInvocationStartedEvent { subagent: self.definition.clone() },
        )
    }

    /// The request to make of the engine, under the turn's current policy.
    pub fn engine_request(&self, turn_policy: &SandboxPolicy) -> (request: EngineRequest)
        ensures
            request@ == request_for(self@, turn_policy@),
    {
        let mode = match self.definition.mode {
            Some(mode) => mode,
            None => SubAgentMode::default(),
        };
        EngineRequest {
            sandbox_policy: sandbox_policy_for_mode(mode, turn_policy),
            approval_policy: AskForApproval::Never,
            base_instructions: Some(self.definition.system_prompt.clone()),
            developer_instructions: None,
            user_instructions: None,
            project_doc_max_bytes: 0,
            source: self.definition.name.clone(),
        }
    }

    /// The event to publish when the run has ended with `outcome`.
    pub fn finished_event(&self, outcome: &SubAgentOutcome) -> (event: LifecycleEvent)
        ensures
            event@ == (LifecycleEventView::Finished { subagent: self@, outcome: outcome@ }),
    {
        LifecycleEvent::SubAgentInvocationFinished(
            SubAgentInvocationFinishedEvent {
                subagent: self.definition.clone(),
                status: outcome.status,
                output: clone_text(&outcome.output),
                error: clone_text(&outcome.error),
            },
        )
    }

    /// Carries out one run over what it observed: how the engine started
    /// and the signals of its waits. The run publishes that it started,
    /// makes its request, takes its steps to the outcome, publishes that it
    /// finished with that outcome, and returns the outcome's output.
    pub fn run(
        &self,
        turn_policy: &SandboxPolicy,
        start: EngineStart,
        signals: Vec<InvocationSignal>,
    ) -> (record: RunRecord)
        ensures
            record.request@ == request_for(self@, turn_policy@),
            event_views(record.published@) == published_by_run(
                self@,
                start@,
                signal_views(signals@),
            ),
            finished_count(event_views(record.published@)) == 1,
            record.output.deep_view() == outcome_of(start@, signal_views(signals@)).output,
    {
        let mut published: Vec<LifecycleEvent> = Vec::new();
        published.push(self.started_event());
        let request = self.engine_request(turn_policy);
        let outcome = run_subagent(start, signals);
        published.push(self.finished_event(&outcome));
        proof {
            assert(event_views(published@) =~= published_by_run(
                self@,
                start@,
                signal_views(signals@),
            ));
            lemma_run_publishes_one_finished_event(self@, start@, signal_views(signals@));
        }
        RunRecord { request, published, output: outcome.output }
    }

    /// The event to publish when the run is torn down from outside: it
    /// finished as cancelled, with no output and no error. Whether the run
    /// published its own finished event is not looked at.
    pub fn abort(&self) -> (event: LifecycleEvent)
        ensures
            event@ == published_by_abort(self@),
    {
        LifecycleEvent::SubAgentInvocationFinished(
            SubAgentInvocationFinishedEvent {
                subagent: self.definition.clone(),
                status: SubAgentInvocationStatus::Cancelled,
                output: None,
                error: None,
            },
        )
    }
}

/// Every run publishes exactly one finished event, after its started event,
/// however the engine started and whatever signals were observed.
pub proof fn lemma_run_publishes_one_finished_event(
    definition: SubAgentDefinitionView,
    start: EngineStartView,
    signals: Seq<InvocationSignalView>,
)
    ensures
        finished_count(published_by_run(definition, start, signals)) == 1,
        published_by_run(definition, start, signals).len() == 2,
        published_by_run(definition, start, signals)[0] is Started,
        published_by_run(definition, start, signals)[1] is Finished,
{
    let events = published_by_run(definition, start, signals);
    let first = events.drop_last();
    assert(first.len() == 1);
    assert(first.last() is Started);
    assert(first.drop_last().len() == 0);
    assert(finished_count(first.drop_last()) == 0);
    assert(finished_count(first) == 0);
}

/// A run ends with the first signal that ends it: what is observed after
/// such a signal has no part in the outcome.
pub proof fn lemma_run_ends_at_first_terminal_signal(
    output: Option<Seq<char>>,
    signals: Seq<InvocationSignalView>,
    later: Seq<InvocationSignalView>,
)
    requires
        exists|k: int| 0 <= k < signals.len() && ends_run(signals[k]),
    ensures
        outcome_from(output, signals + later) == outcome_from(output, signals),
    decreases signals.len(),
{
    let all = signals + later;
    let k = choose|k: int| 0 <= k < signals.len() && ends_run(signals[k]);
    assert(all[0] == signals[0]);
    match step(output, signals[0]) {
        InvocationStepView::Done(_) => {},
        InvocationStepView::Continue(recorded) => {
            let rest = signals.drop_first();
            assert(all.drop_first() =~= rest + later);
            assert(k > 0);
            assert(rest[k - 1] == signals[k]);
            lemma_run_ends_at_first_terminal_signal(recorded, rest, later);
        },
    }
}

} // verus!
