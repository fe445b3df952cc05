use subagents::definition::{SubAgentDefinition, SubAgentMode};
use subagents::invocation::{
    on_signal, run_subagent, AskForApproval, EngineEvent, EngineStart, InvocationSignal,
    InvocationStep, LifecycleEvent, SubAgentInvocationStatus, SubAgentTask, TaskKind,
};
use subagents::policy::SandboxPolicy;

fn definition(mode: Option<SubAgentMode>) -> SubAgentDefinition {
    SubAgentDefinition {
        name: "planner".to_string(),
        path: "/agents/planner.md".to_string(),
        system_prompt: "You plan.".to_string(),
        description: Some("Plans work".to_string()),
        tools_allowed: vec!["read".to_string()],
        tools_blocked: Vec::new(),
        mode,
    }
}

fn message(text: &str) -> InvocationSignal {
    InvocationSignal::Event(EngineEvent::AgentMessage(text.to_string()))
}

fn error(text: &str) -> InvocationSignal {
    InvocationSignal::Event(EngineEvent::Error(text.to_string()))
}

fn finished_events(published: &[LifecycleEvent]) -> usize {
    published
        .iter()
        .filter(|event| matches!(event, LifecycleEvent::SubAgentInvocationFinished(_)))
        .count()
}

#[test]
fn message_then_completion_completes_with_the_message() {
    let outcome = run_subagent(
        EngineStart::Started,
        vec![message("X"), InvocationSignal::Event(EngineEvent::TaskComplete)],
    );
    assert_eq!(outcome.status, SubAgentInvocationStatus::Completed);
    assert_eq!(outcome.output.as_deref(), Some("X"));
    assert_eq!(outcome.error, None);
}

#[test]
fn cancellation_before_any_event_cancels_without_output() {
    let outcome = run_subagent(EngineStart::Started, vec![InvocationSignal::Cancellation]);
    assert_eq!(outcome.status, SubAgentInvocationStatus::Cancelled);
    assert_eq!(outcome.output, None);
    assert_eq!(outcome.error, None);
}

#[test]
fn cancellation_discards_the_recorded_output() {
    let outcome =
        run_subagent(EngineStart::Started, vec![message("partial"), InvocationSignal::Cancellation]);
    assert_eq!(outcome.status, SubAgentInvocationStatus::Cancelled);
    assert_eq!(outcome.output, None);
    assert_eq!(outcome.error, None);
}

#[test]
fn aborted_turn_and_broken_stream_keep_the_recorded_output() {
    for last in [InvocationSignal::Event(EngineEvent::TurnAborted), InvocationSignal::StreamError] {
        let outcome = run_subagent(EngineStart::Started, vec![message("partial"), last]);
        assert_eq!(outcome.status, SubAgentInvocationStatus::Cancelled);
        assert_eq!(outcome.output.as_deref(), Some("partial"));
        assert_eq!(outcome.error, None);
    }
    let exhausted = run_subagent(EngineStart::Started, vec![message("partial")]);
    assert_eq!(exhausted.status, SubAgentInvocationStatus::Cancelled);
    assert_eq!(exhausted.output.as_deref(), Some("partial"));
}

#[test]
fn error_event_fails_at_once() {
    let outcome = run_subagent(
        EngineStart::Started,
        vec![error("boom"), message("late"), InvocationSignal::Event(EngineEvent::TaskComplete)],
    );
    assert_eq!(outcome.status, SubAgentInvocationStatus::Failed);
    assert_eq!(outcome.output, None);
    assert_eq!(outcome.error.as_deref(), Some("boom"));
}

#[test]
fn error_event_clears_the_recorded_output() {
    let outcome = run_subagent(EngineStart::Started, vec![message("partial"), error("boom")]);
    assert_eq!(outcome.status, SubAgentInvocationStatus::Failed);
    assert_eq!(outcome.output, None);
    assert_eq!(outcome.error.as_deref(), Some("boom"));
}

#[test]
fn failed_start_fails_without_reading_signals() {
    let outcome = run_subagent(
        EngineStart::Failed("no capacity".to_string()),
        vec![message("X"), InvocationSignal::Event(EngineEvent::TaskComplete)],
    );
    assert_eq!(outcome.status, SubAgentInvocationStatus::Failed);
    assert_eq!(outcome.output, None);
    assert_eq!(outcome.error.as_deref(), Some("no capacity"));
}

#[test]
fn only_the_latest_message_is_retained() {
    let outcome = run_subagent(
        EngineStart::Started,
        vec![
            message("first"),
            InvocationSignal::Event(EngineEvent::Other),
            message("second"),
            InvocationSignal::Event(EngineEvent::Other),
            InvocationSignal::Event(EngineEvent::TaskComplete),
            message("third"),
        ],
    );
    assert_eq!(outcome.status, SubAgentInvocationStatus::Completed);
    assert_eq!(outcome.output.as_deref(), Some("second"));
}

#[test]
fn completion_without_a_message_has_no_output() {
    let outcome =
        run_subagent(EngineStart::Started, vec![InvocationSignal::Event(EngineEvent::TaskComplete)]);
    assert_eq!(outcome.status, SubAgentInvocationStatus::Completed);
    assert_eq!(outcome.output, None);
    assert_eq!(outcome.error, None);
}

#[test]
fn aborted_turn_and_broken_stream_cancel() {
    let aborted =
        run_subagent(EngineStart::Started, vec![InvocationSignal::Event(EngineEvent::TurnAborted)]);
    assert_eq!(aborted.status, SubAgentInvocationStatus::Cancelled);
    assert_eq!(aborted.error, None);
    let broken = run_subagent(EngineStart::Started, vec![InvocationSignal::StreamError]);
    assert_eq!(broken.status, SubAgentInvocationStatus::Cancelled);
    assert_eq!(broken.error, None);
    let exhausted = run_subagent(EngineStart::Started, Vec::new());
    assert_eq!(exhausted.status, SubAgentInvocationStatus::Cancelled);
    assert_eq!(exhausted.output, None);
    assert_eq!(exhausted.error, None);
}

#[test]
fn each_signal_takes_its_step() {
    let held = || Some("held".to_string());
    match on_signal(held(), message("new")) {
        InvocationStep::Continue(output) => assert_eq!(output.as_deref(), Some("new")),
        other => panic!("unexpected step {other:?}"),
    }
    match on_signal(held(), InvocationSignal::Event(EngineEvent::Other)) {
        InvocationStep::Continue(output) => assert_eq!(output.as_deref(), Some("held")),
        other => panic!("unexpected step {other:?}"),
    }
    match on_signal(held(), InvocationSignal::Event(EngineEvent::TaskComplete)) {
        InvocationStep::Done(outcome) => {
            assert_eq!(outcome.status, SubAgentInvocationStatus::Completed);
            assert_eq!(outcome.output.as_deref(), Some("held"));
            assert_eq!(outcome.error, None);
        }
        other => panic!("unexpected step {other:?}"),
    }
    match on_signal(held(), error("bad")) {
        InvocationStep::Done(outcome) => {
            assert_eq!(outcome.status, SubAgentInvocationStatus::Failed);
            assert_eq!(outcome.output, None);
            assert_eq!(outcome.error.as_deref(), Some("bad"));
        }
        other => panic!("unexpected step {other:?}"),
    }
    match on_signal(held(), InvocationSignal::Cancellation) {
        InvocationStep::Done(outcome) => {
            assert_eq!(outcome.status, SubAgentInvocationStatus::Cancelled);
            assert_eq!(outcome.output, None);
            assert_eq!(outcome.error, None);
        }
        other => panic!("unexpected step {other:?}"),
    }
    for signal in [
        InvocationSignal::Cancellation,
        InvocationSignal::StreamError,
        InvocationSignal::Event(EngineEvent::TurnAborted),
    ] {
        match on_signal(None, signal) {
            InvocationStep::Done(outcome) => {
                assert_eq!(outcome.status, SubAgentInvocationStatus::Cancelled);
                assert_eq!(outcome.output, None);
                assert_eq!(outcome.error, None);
            }
            other => panic!("unexpected step {other:?}"),
        }
    }
}

#[test]
fn every_run_publishes_started_then_exactly_one_finished_event() {
    let scripts: Vec<(EngineStart, Vec<InvocationSignal>)> = vec![
        (EngineStart::Started, vec![message("X"), InvocationSignal::Event(EngineEvent::TaskComplete)]),
        (EngineStart::Started, vec![InvocationSignal::Cancellation]),
        (EngineStart::Started, vec![error("boom"), error("again")]),
        (EngineStart::Started, Vec::new()),
        (EngineStart::Failed("no engine".to_string()), vec![InvocationSignal::Cancellation]),
    ];
    for (start, signals) in scripts {
        let task = SubAgentTask::new(definition(None));
        let record = task.run(&SandboxPolicy::ReadOnly, start, signals);
        assert_eq!(record.published.len(), 2);
        assert!(matches!(record.published[0], LifecycleEvent::SubAgentInvocationStarted(_)));
        assert_eq!(finished_events(&record.published), 1);
    }
}

#[test]
fn finished_event_reports_the_outcome_of_the_run() {
    let task = SubAgentTask::new(definition(Some(SubAgentMode::FullAuto)));
    let record = task.run(
        &SandboxPolicy::DangerFullAccess,
        EngineStart::Started,
        vec![message("done"), InvocationSignal::Event(EngineEvent::TaskComplete)],
    );
    assert_eq!(record.output.as_deref(), Some("done"));
    match &record.published[0] {
        LifecycleEvent::SubAgentInvocationStarted(event) => {
            assert_eq!(event.subagent.name, "planner");
            assert_eq!(event.subagent.system_prompt, "You plan.");
        }
        other => panic!("unexpected event {other:?}"),
    }
    match &record.published[1] {
        LifecycleEvent::SubAgentInvocationFinished(event) => {
            assert_eq!(event.subagent.name, "planner");
            assert_eq!(event.status, SubAgentInvocationStatus::Completed);
            assert_eq!(event.output.as_deref(), Some("done"));
            assert_eq!(event.error, None);
        }
        other => panic!("unexpected event {other:?}"),
    }
}

#[test]
fn failed_run_returns_no_output_and_reports_the_error() {
    let task = SubAgentTask::new(definition(None));
    let record =
        task.run(&SandboxPolicy::ReadOnly, EngineStart::Started, vec![message("m"), error("boom")]);
    assert_eq!(record.output, None);
    match &record.published[1] {
        LifecycleEvent::SubAgentInvocationFinished(event) => {
            assert_eq!(event.status, SubAgentInvocationStatus::Failed);
            assert_eq!(event.output, None);
            assert_eq!(event.error.as_deref(), Some("boom"));
        }
        other => panic!("unexpected event {other:?}"),
    }
}

#[test]
fn request_overrides_the_configuration() {
    let task = SubAgentTask::new(definition(Some(SubAgentMode::FullAuto)));
    let turn_policy = SandboxPolicy::WorkspaceWrite {
        writable_roots: vec!["/work".to_string()],
        network_access: true,
        exclude_tmpdir_env_var: true,
        exclude_slash_tmp: false,
    };
    let request = task.engine_request(&turn_policy);
    match request.sandbox_policy {
        SandboxPolicy::WorkspaceWrite {
            writable_roots,
            network_access,
            exclude_tmpdir_env_var,
            exclude_slash_tmp,
        } => {
            assert!(writable_roots.is_empty());
            assert!(network_access);
            assert!(exclude_tmpdir_env_var);
            assert!(!exclude_slash_tmp);
        }
        other => panic!("unexpected policy {other:?}"),
    }
    assert_eq!(request.approval_policy, AskForApproval::Never);
    assert_eq!(request.base_instructions.as_deref(), Some("You plan."));
    assert_eq!(request.developer_instructions, None);
    assert_eq!(request.user_instructions, None);
    assert_eq!(request.project_doc_max_bytes, 0);
    assert_eq!(request.source, "planner");
}

#[test]
fn undeclared_mode_runs_read_only() {
    let task = SubAgentTask::new(definition(None));
    let request = task.engine_request(&SandboxPolicy::DangerFullAccess);
    assert!(matches!(request.sandbox_policy, SandboxPolicy::ReadOnly));
    let danger = SubAgentTask::new(definition(Some(SubAgentMode::DangerFullAccess)));
    let request = danger.engine_request(&SandboxPolicy::ReadOnly);
    assert!(matches!(request.sandbox_policy, SandboxPolicy::DangerFullAccess));
}

#[test]
fn abort_reports_a_cancelled_run() {
    let task = SubAgentTask::new(definition(None));
    match task.abort() {
        LifecycleEvent::SubAgentInvocationFinished(event) => {
            assert_eq!(event.subagent.name, "planner");
            assert_eq!(event.status, SubAgentInvocationStatus::Cancelled);
            assert_eq!(event.output, None);
            assert_eq!(event.error, None);
        }
        other => panic!("unexpected event {other:?}"),
    }
}

#[test]
fn task_keeps_its_definition() {
    let task = SubAgentTask::new(definition(Some(SubAgentMode::ReadOnly)));
    assert_eq!(task.kind(), TaskKind::Regular);
    assert_eq!(task.definition().name, "planner");
    assert_eq!(task.definition().mode, Some(SubAgentMode::ReadOnly));
    let copy = task.clone();
    assert_eq!(copy.definition().path, "/agents/planner.md");
    assert_eq!(copy.definition().tools_allowed, vec!["read"]);
}
