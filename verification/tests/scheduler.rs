use texpresso_core::scheduler::{decide, Decide, Effect, Queue, SchedulerCommand, SchedulerState};
use texpresso_core::types::{
    CompileOutcome, CompilePhase, CompileRequest, CompileStatusDto, Engine, ErrorEntry, ErrorKind,
    FailureKind,
};

fn success() -> CompileOutcome {
    CompileOutcome::Success { pdf_path: "proj/main.pdf".to_string() }
}

fn error_entry(message: &str) -> ErrorEntry {
    ErrorEntry { message: message.to_string(), file: None, line: None, kind: ErrorKind::ContentError }
}

fn content_error() -> CompileOutcome {
    CompileOutcome::ContentError { errors: vec![error_entry("boom")] }
}

fn req(name: &str) -> CompileRequest {
    CompileRequest {
        root_file: name.to_string(),
        project_root: "proj".to_string(),
        engine: Engine::XeLaTeX,
        timeout_secs: 120,
    }
}

// ---- decision table ----

#[test]
fn success_no_pending_finishes_ok() {
    assert_eq!(decide(0, &success(), false), Decide::FinishOk);
}

#[test]
fn success_with_pending_starts_pending() {
    assert_eq!(decide(0, &success(), true), Decide::StartPending);
}

#[test]
fn timeout_with_pending_skips_retry() {
    assert_eq!(decide(0, &CompileOutcome::Timeout, true), Decide::StartPending);
}

#[test]
fn timeout_first_attempt_retries() {
    assert_eq!(decide(0, &CompileOutcome::Timeout, false), Decide::Retry);
}

#[test]
fn timeout_second_attempt_fails() {
    assert_eq!(decide(1, &CompileOutcome::Timeout, false), Decide::Fail(FailureKind::Timeout));
}

#[test]
fn content_error_no_pending_fails_without_retry() {
    assert_eq!(decide(0, &content_error(), false), Decide::Fail(FailureKind::ContentError));
}

#[test]
fn content_error_with_pending_starts_pending() {
    assert_eq!(decide(0, &content_error(), true), Decide::StartPending);
}

#[test]
fn aborted_no_pending_fails_aborted() {
    assert_eq!(decide(0, &CompileOutcome::Aborted, false), Decide::Fail(FailureKind::Aborted));
}

#[test]
fn aborted_with_pending_starts_pending() {
    assert_eq!(decide(0, &CompileOutcome::Aborted, true), Decide::StartPending);
}

#[test]
fn io_error_treated_as_content_error() {
    let io = CompileOutcome::IoError { message: "latexmk 无法启动".into() };
    assert_eq!(decide(0, &io, false), Decide::Fail(FailureKind::ContentError));
    assert_eq!(decide(0, &io, true), Decide::StartPending);
}

#[test]
fn retry_keeps_request_identity_but_attempt_increments() {
    let d0 = decide(0, &CompileOutcome::Timeout, false);
    let d1 = decide(1, &CompileOutcome::Timeout, false);
    assert_eq!(d0, Decide::Retry);
    assert_eq!(d1, Decide::Fail(FailureKind::Timeout));
}

#[test]
fn success_with_high_attempt_still_finishes_ok() {
    assert_eq!(decide(1, &success(), false), Decide::FinishOk);
}

// ---- merge queue ----

#[test]
fn new_queue_is_empty() {
    let mut q = Queue::new();
    assert!(q.is_empty());
    assert_eq!(q.take(), None);
}

#[test]
fn push_overwrites_older_entry() {
    let mut q = Queue::new();
    q.push(req("a.tex"));
    q.push(req("b.tex"));
    assert!(!q.is_empty());
    assert_eq!(q.take().unwrap().root_file, "b.tex");
    assert!(q.is_empty());
}

#[test]
fn take_after_push_then_empty() {
    let mut q = Queue::new();
    q.push(req("a.tex"));
    assert_eq!(q.take().unwrap().root_file, "a.tex");
    assert_eq!(q.take(), None);
}

#[test]
fn clear_empties_queue() {
    let mut q = Queue::new();
    q.push(req("a.tex"));
    q.clear();
    assert!(q.is_empty());
    assert_eq!(q.take(), None);
}

// ---- the scheduler's state machine ----

fn status(phase: CompilePhase) -> Effect {
    Effect::Status(CompileStatusDto { phase, kind: None })
}

fn failed(kind: FailureKind) -> Effect {
    Effect::Status(CompileStatusDto { phase: CompilePhase::Failed, kind: Some(kind) })
}

#[test]
fn single_compile_success() {
    let mut s = SchedulerState::new();
    assert_eq!(
        s.handle(SchedulerCommand::Compile(req("main.tex"))),
        vec![Effect::Spawn(req("main.tex")), status(CompilePhase::Running)]
    );
    assert!(s.is_running());
    assert_eq!(
        s.handle(SchedulerCommand::JobFinished(success())),
        vec![Effect::Pdf("proj/main.pdf".to_string()), status(CompilePhase::Success)]
    );
    assert!(!s.is_running());
}

#[test]
fn merge_while_running_keeps_latest_only() {
    let mut s = SchedulerState::new();
    s.handle(SchedulerCommand::Compile(req("a.tex")));
    assert_eq!(s.handle(SchedulerCommand::Compile(req("b.tex"))), vec![status(CompilePhase::Queued)]);
    assert_eq!(s.handle(SchedulerCommand::Compile(req("c.tex"))), vec![]);
    assert!(s.has_pending());
    assert_eq!(
        s.handle(SchedulerCommand::JobFinished(success())),
        vec![
            Effect::Pdf("proj/main.pdf".to_string()),
            Effect::Spawn(req("c.tex")),
            status(CompilePhase::Running)
        ]
    );
    assert!(!s.has_pending());
    assert_eq!(
        s.handle(SchedulerCommand::JobFinished(success())),
        vec![Effect::Pdf("proj/main.pdf".to_string()), status(CompilePhase::Success)]
    );
}

#[test]
fn timeout_retries_once_then_succeeds() {
    let mut s = SchedulerState::new();
    s.handle(SchedulerCommand::Compile(req("main.tex")));
    assert_eq!(
        s.handle(SchedulerCommand::JobFinished(CompileOutcome::Timeout)),
        vec![Effect::Spawn(req("main.tex")), status(CompilePhase::Running)]
    );
    assert_eq!(
        s.handle(SchedulerCommand::JobFinished(success())),
        vec![Effect::Pdf("proj/main.pdf".to_string()), status(CompilePhase::Success)]
    );
}

#[test]
fn timeout_twice_fails_with_timeout() {
    let mut s = SchedulerState::new();
    s.handle(SchedulerCommand::Compile(req("main.tex")));
    s.handle(SchedulerCommand::JobFinished(CompileOutcome::Timeout));
    assert_eq!(
        s.handle(SchedulerCommand::JobFinished(CompileOutcome::Timeout)),
        vec![failed(FailureKind::Timeout)]
    );
    assert!(!s.is_running());
}

#[test]
fn content_error_no_pending_fails_and_emits_errors() {
    let mut s = SchedulerState::new();
    s.handle(SchedulerCommand::Compile(req("main.tex")));
    let errors = vec![error_entry("bad syntax")];
    assert_eq!(
        s.handle(SchedulerCommand::JobFinished(CompileOutcome::ContentError { errors: errors.clone() })),
        vec![Effect::Errors(errors), failed(FailureKind::ContentError)]
    );
}

#[test]
fn content_error_with_pending_skips_error_state_and_starts_pending() {
    let mut s = SchedulerState::new();
    s.handle(SchedulerCommand::Compile(req("a.tex")));
    s.handle(SchedulerCommand::Compile(req("b.tex")));
    let errors = vec![error_entry("bad syntax")];
    assert_eq!(
        s.handle(SchedulerCommand::JobFinished(CompileOutcome::ContentError { errors: errors.clone() })),
        vec![Effect::Errors(errors), Effect::Spawn(req("b.tex")), status(CompilePhase::Running)]
    );
}

#[test]
fn abort_during_running_fails_aborted() {
    let mut s = SchedulerState::new();
    s.handle(SchedulerCommand::Compile(req("main.tex")));
    assert_eq!(s.handle(SchedulerCommand::Abort), vec![Effect::Cancel]);
    // A second abort before the job returns cancels nothing more.
    assert_eq!(s.handle(SchedulerCommand::Abort), vec![]);
    assert_eq!(
        s.handle(SchedulerCommand::JobFinished(CompileOutcome::Aborted)),
        vec![failed(FailureKind::Aborted)]
    );
}

#[test]
fn abort_clears_pending_and_later_request_runs_fresh() {
    let mut s = SchedulerState::new();
    s.handle(SchedulerCommand::Compile(req("a.tex")));
    s.handle(SchedulerCommand::Compile(req("b.tex")));
    assert_eq!(s.handle(SchedulerCommand::Abort), vec![Effect::Cancel]);
    assert!(!s.has_pending());
    assert_eq!(s.handle(SchedulerCommand::Compile(req("c.tex"))), vec![status(CompilePhase::Queued)]);
    assert_eq!(
        s.handle(SchedulerCommand::JobFinished(CompileOutcome::Aborted)),
        vec![Effect::Spawn(req("c.tex")), status(CompilePhase::Running)]
    );
}

#[test]
fn io_error_fails_and_emits_io_entry() {
    let mut s = SchedulerState::new();
    s.handle(SchedulerCommand::Compile(req("main.tex")));
    let effects = s.handle(SchedulerCommand::JobFinished(CompileOutcome::IoError {
        message: "latexmk 无法启动".into(),
    }));
    assert_eq!(effects.len(), 2);
    match &effects[0] {
        Effect::Errors(entries) => {
            assert_eq!(entries.len(), 1);
            assert_eq!(entries[0].kind, ErrorKind::Io);
            assert!(entries[0].message.contains("latexmk"));
        }
        other => panic!("unexpected effect {:?}", other),
    }
    assert_eq!(effects[1], failed(FailureKind::ContentError));
}

#[test]
fn finished_while_idle_is_ignored() {
    let mut s = SchedulerState::new();
    assert_eq!(s.handle(SchedulerCommand::JobFinished(success())), vec![]);
    assert_eq!(s.handle(SchedulerCommand::Abort), vec![]);
    assert!(!s.is_running());
}

#[test]
fn aborted_job_ends_aborted_even_if_it_succeeded() {
    let mut s = SchedulerState::new();
    s.handle(SchedulerCommand::Compile(req("main.tex")));
    assert_eq!(s.handle(SchedulerCommand::Abort), vec![Effect::Cancel]);
    assert_eq!(s.handle(SchedulerCommand::JobFinished(success())), vec![failed(FailureKind::Aborted)]);
    assert!(!s.is_running());
}

#[test]
fn aborted_job_that_timed_out_is_not_retried() {
    let mut s = SchedulerState::new();
    s.handle(SchedulerCommand::Compile(req("main.tex")));
    s.handle(SchedulerCommand::Abort);
    assert_eq!(
        s.handle(SchedulerCommand::JobFinished(CompileOutcome::Timeout)),
        vec![failed(FailureKind::Aborted)]
    );
    // A new request after that starts fresh and is not aborted.
    s.handle(SchedulerCommand::Compile(req("main.tex")));
    assert_eq!(
        s.handle(SchedulerCommand::JobFinished(success())),
        vec![Effect::Pdf("proj/main.pdf".to_string()), status(CompilePhase::Success)]
    );
}
