//! The scheduler's decisions as a state machine. The task that owns the
//! channels and the runner (outside this library) feeds each command to
//! [`SchedulerState::handle`] and performs the returned effects in order.
//!
//! The state is the merge queue, the running job (request and retry count)
//! and whether the running job can still be cancelled.

use vstd::prelude::*;
use crate::types::{
    CompileOutcome, CompilePhase, CompileRequest, CompileStatusDto, ErrorEntry, ErrorKind,
    FailureKind,
};
use super::policy::{decide, decide_spec, Decide};
use super::queue::Queue;

verus! {

/// A command for the scheduler. `JobFinished` comes from the scheduler's own
/// task when the runner returns.
#[derive(Debug)]
pub enum SchedulerCommand {
    Compile(CompileRequest),
    Abort,
    JobFinished(CompileOutcome),
}

/// The running job: its request, how often it was retried, and whether the
/// user aborted it (an aborted job ends as aborted, whatever the runner
/// reports).
#[derive(Debug, PartialEq, Eq)]
pub struct RunningJob {
    pub request: CompileRequest,
    pub attempt: u8,
    pub aborted: bool,
}

/// What the scheduler's task must do, in order.
#[derive(Debug, PartialEq, Eq)]
pub enum Effect {
    /// Emit a status event.
    Status(CompileStatusDto),
    /// Emit the error list.
    Errors(Vec<ErrorEntry>),
    /// Emit that a PDF is ready.
    Pdf(String),
    /// Start the runner on the request with a fresh cancellation token.
    Spawn(CompileRequest),
    /// Cancel the running job's token.
    Cancel,
}

/// An effect as contracts see it.
pub enum EffectView {
    Status(CompileStatusDto),
    Errors(Seq<ErrorEntry>),
    Pdf(Seq<char>),
    Spawn(CompileRequest),
    Cancel,
}

/// The view of an effect.
pub open spec fn effect_view(e: Effect) -> EffectView {
    match e {
        Effect::Status(s) => EffectView::Status(s),
        Effect::Errors(v) => EffectView::Errors(v@),
        Effect::Pdf(p) => EffectView::Pdf(p@),
        Effect::Spawn(r) => EffectView::Spawn(r),
        Effect::Cancel => EffectView::Cancel,
    }
}

/// The views of a sequence of effects.
pub open spec fn effects_view(v: Seq<Effect>) -> Seq<EffectView> {
    v.map_values(|e: Effect| effect_view(e))
}

/// The scheduler's state as contracts see it.
pub struct SchedulerView {
    pub pending: Option<CompileRequest>,
    pub running: Option<RunningJob>,
}

/// A status without failure kind.
pub open spec fn status_of(phase: CompilePhase) -> CompileStatusDto {
    CompileStatusDto { phase, kind: None }
}

/// Starting a job: it becomes the running job (not aborted), and the task
/// spawns it and reports `Running`.
pub open spec fn start_spec(s: SchedulerView, req: CompileRequest, attempt: u8) -> (
    SchedulerView,
    Seq<EffectView>,
) {
    (
        SchedulerView {
            pending: s.pending,
            running: Some(RunningJob { request: req, attempt, aborted: false }),
        },
        seq![EffectView::Spawn(req), EffectView::Status(status_of(CompilePhase::Running))],
    )
}

/// What a finished job reports before the decision: the error list for a
/// content or I/O error, the PDF for a success.
pub open spec fn report_spec(o: CompileOutcome) -> Seq<EffectView> {
    match o {
        CompileOutcome::ContentError { errors } => seq![EffectView::Errors(errors@)],
        CompileOutcome::IoError { message } => seq![
            EffectView::Errors(
                seq![ErrorEntry { message, file: None, line: None, kind: ErrorKind::Io }],
            ),
        ],
        CompileOutcome::Success { pdf_path } => seq![EffectView::Pdf(pdf_path@)],
        _ => Seq::empty(),
    }
}

/// The outcome a job ends with: `Aborted` once the user aborted it.
pub open spec fn effective_outcome(job: RunningJob, o: CompileOutcome) -> CompileOutcome {
    if job.aborted {
        CompileOutcome::Aborted
    } else {
        o
    }
}

/// A job finished: report, then follow the decision table, both on the
/// effective outcome.
pub open spec fn finished_spec(s: SchedulerView, o_reported: CompileOutcome) -> (
    SchedulerView,
    Seq<EffectView>,
) {
    match s.running {
        None => (s, Seq::empty()),
        Some(job) => {
            let o = effective_outcome(job, o_reported);
            let idle = SchedulerView { pending: s.pending, running: None };
            let report = report_spec(o);
            match decide_spec(job.attempt, o, s.pending is Some) {
                Decide::StartPending => {
                    let next = start_spec(
                        SchedulerView { pending: None, running: None },
                        s.pending.unwrap(),
                        0,
                    );
                    (next.0, report + next.1)
                },
                Decide::Retry => {
                    let next = start_spec(idle, job.request, (job.attempt + 1) as u8);
                    (next.0, report + next.1)
                },
                Decide::FinishOk => (
                    idle,
                    report + seq![EffectView::Status(status_of(CompilePhase::Success))],
                ),
                Decide::Fail(k) => (
                    idle,
                    report + seq![
                        EffectView::Status(CompileStatusDto { phase: CompilePhase::Failed, kind: Some(k) }),
                    ],
                ),
            }
        },
    }
}

/// The scheduler's transition: the next state and the effects, in order.
///
/// - `Compile` when idle starts the request; while running it replaces the
///   waiting request and reports `Queued` only when nothing was waiting.
/// - `Abort` marks the running job aborted, cancels it (once) and drops the
///   waiting request.
/// - `JobFinished` when nothing runs is ignored.
pub open spec fn step_spec(s: SchedulerView, cmd: SchedulerCommand) -> (
    SchedulerView,
    Seq<EffectView>,
) {
    match cmd {
        SchedulerCommand::Compile(req) => if s.running is None {
            start_spec(s, req, 0)
        } else {
            (
                SchedulerView { pending: Some(req), running: s.running },
                if s.pending is None {
                    seq![EffectView::Status(status_of(CompilePhase::Queued))]
                } else {
                    Seq::empty()
                },
            )
        },
        SchedulerCommand::Abort => match s.running {
            Some(j) => (
                SchedulerView {
                    pending: None,
                    running: Some(RunningJob { request: j.request, attempt: j.attempt, aborted: true }),
                },
                if j.aborted {
                    Seq::empty()
                } else {
                    seq![EffectView::Cancel]
                },
            ),
            None => (SchedulerView { pending: None, running: None }, Seq::empty()),
        },
        SchedulerCommand::JobFinished(o) => finished_spec(s, o),
    }
}

/// The scheduler's invariant: a request waits only while a job runs, and a
/// job is retried at most once.
pub open spec fn scheduler_inv(s: SchedulerView) -> bool {
    &&& s.pending is Some ==> s.running is Some
    &&& s.running matches Some(j) ==> j.attempt <= 1
}

/// The scheduler's state.
pub struct SchedulerState {
    queue: Queue,
    running: Option<RunningJob>,
}

impl View for SchedulerState {
    type V = SchedulerView;

    closed spec fn view(&self) -> SchedulerView {
        SchedulerView { pending: self.queue@, running: self.running }
    }
}

impl SchedulerState {
    /// Idle, nothing waiting.
    pub fn new() -> (s: Self)
        ensures
            s@ == (SchedulerView { pending: None, running: None }),
    {
        SchedulerState { queue: Queue::new(), running: None }
    }

    /// Is a job running.
    pub fn is_running(&self) -> (b: bool)
        ensures
            b == (self@.running is Some),
    {
        self.running.is_some()
    }

    /// Is a request waiting.
    pub fn has_pending(&self) -> (b: bool)
        ensures
            b == (self@.pending is Some),
    {
        !self.queue.is_empty()
    }

    fn start(&mut self, req: CompileRequest, attempt: u8, effects: &mut Vec<Effect>)
        ensures
            final(self)@ == start_spec(old(self)@, req, attempt).0,
            effects_view(final(effects)@) == effects_view(old(effects)@) + start_spec(
                old(self)@,
                req,
                attempt,
            ).1,
    {
        let ghost before = effects@;
        let spawned = req.clone();
        self.running = Some(RunningJob { request: req, attempt, aborted: false });
        effects.push(Effect::Spawn(spawned));
        effects.push(Effect::Status(CompileStatusDto { phase: CompilePhase::Running, kind: None }));
        assert(effects_view(effects@) =~= effects_view(before) + start_spec(
            old(self)@,
            req,
            attempt,
        ).1);
    }

    fn on_finished(&mut self, outcome: CompileOutcome, effects: &mut Vec<Effect>)
        requires
            old(effects)@.len() == 0,
        ensures
            final(self)@ == finished_spec(old(self)@, outcome).0,
            effects_view(final(effects)@) == finished_spec(old(self)@, outcome).1,
    {
        let ghost s0 = self@;
        let running = match self.running.take() {
            Some(j) => j,
            None => {
                assert(effects_view(effects@) =~= Seq::<EffectView>::empty());
                return;
            },
        };
        let outcome = if running.aborted {
            CompileOutcome::Aborted
        } else {
            outcome
        };
        let has_pending = !self.queue.is_empty();
        let decision = decide(running.attempt, &outcome, has_pending);
        let ghost o = outcome;
        match outcome {
            CompileOutcome::ContentError { errors } => {
                effects.push(Effect::Errors(errors));
            },
            CompileOutcome::IoError { message } => {
                let mut entries: Vec<ErrorEntry> = Vec::new();
                entries.push(ErrorEntry { message, file: None, line: None, kind: ErrorKind::Io });
                effects.push(Effect::Errors(entries));
            },
            CompileOutcome::Success { pdf_path } => {
                effects.push(Effect::Pdf(pdf_path));
            },
            _ => {},
        }
        assert(effects_view(effects@) =~= report_spec(o));
        let ghost idle = SchedulerView { pending: s0.pending, running: None };
        assert(self@ == idle);
        match decision {
            Decide::StartPending => {
                let next = self.queue.take();
                match next {
                    Some(req) => {
                        self.start(req, 0, effects);
                    },
                    None => {
                        assert(false);
                    },
                }
            },
            Decide::Retry => {
                let attempt = running.attempt + 1;
                self.start(running.request, attempt, effects);
            },
            Decide::FinishOk => {
                let ghost before = effects@;
                effects.push(
                    Effect::Status(CompileStatusDto { phase: CompilePhase::Success, kind: None }),
                );
                assert(effects_view(effects@) =~= effects_view(before) + seq![
                    EffectView::Status(status_of(CompilePhase::Success)),
                ]);
            },
            Decide::Fail(kind) => {
                let ghost before = effects@;
                effects.push(
                    Effect::Status(CompileStatusDto { phase: CompilePhase::Failed, kind: Some(kind) }),
                );
                assert(effects_view(effects@) =~= effects_view(before) + seq![
                    EffectView::Status(
                        CompileStatusDto { phase: CompilePhase::Failed, kind: Some(kind) },
                    ),
                ]);
            },
        }
    }

    /// Handles one command; returns the effects to perform, in order.
    pub fn handle(&mut self, cmd: SchedulerCommand) -> (effects: Vec<Effect>)
        ensures
            final(self)@ == step_spec(old(self)@, cmd).0,
            effects_view(effects@) == step_spec(old(self)@, cmd).1,
    {
        let mut effects: Vec<Effect> = Vec::new();
        let ghost c = cmd;
        match cmd {
            SchedulerCommand::Compile(req) => {
                if self.running.is_none() {
                    self.start(req, 0, &mut effects);
                    assert(effects_view(effects@) =~= step_spec(old(self)@, c).1);
                } else {
                    let was_empty = self.queue.is_empty();
                    self.queue.push(req);
                    if was_empty {
                        effects.push(
                            Effect::Status(CompileStatusDto { phase: CompilePhase::Queued, kind: None }),
                        );
                    }
                    assert(effects_view(effects@) =~= step_spec(old(self)@, c).1);
                }
            },
            SchedulerCommand::Abort => {
                match self.running.take() {
                    Some(j) => {
                        if !j.aborted {
                            effects.push(Effect::Cancel);
                        }
                        self.running = Some(
                            RunningJob { request: j.request, attempt: j.attempt, aborted: true },
                        );
                    },
                    None => {},
                }
                self.queue.clear();
                assert(effects_view(effects@) =~= step_spec(old(self)@, c).1);
            },
            SchedulerCommand::JobFinished(outcome) => {
                self.on_finished(outcome, &mut effects);
            },
        }
        effects
    }
}

/// Every command keeps the scheduler's invariant.
pub proof fn lemma_step_keeps_invariant(s: SchedulerView, cmd: SchedulerCommand)
    requires
        scheduler_inv(s),
    ensures
        scheduler_inv(step_spec(s, cmd).0),
{
}

/// Merge semantics: while a job runs, a burst of compile requests leaves only
/// the last one waiting, reports `Queued` once, and does not touch the
/// running job.
pub proof fn lemma_merge_while_running(s: SchedulerView, a: CompileRequest, b: CompileRequest)
    requires
        s.running is Some,
        s.pending is None,
    ensures
        step_spec(s, SchedulerCommand::Compile(a)).1 == seq![
            EffectView::Status(status_of(CompilePhase::Queued)),
        ],
        step_spec(step_spec(s, SchedulerCommand::Compile(a)).0, SchedulerCommand::Compile(b)).1
            == Seq::<EffectView>::empty(),
        step_spec(step_spec(s, SchedulerCommand::Compile(a)).0, SchedulerCommand::Compile(b)).0
            == (SchedulerView { pending: Some(b), running: s.running }),
{
}

/// When a job ends, the waiting request (if any) is the one started, from
/// its first attempt, and nothing is left waiting.
pub proof fn lemma_finish_starts_latest(s: SchedulerView, o: CompileOutcome)
    requires
        s.running is Some,
    ensures
        step_spec(s, SchedulerCommand::JobFinished(o)).0.pending is None,
        s.pending matches Some(req) ==> step_spec(s, SchedulerCommand::JobFinished(o)).0.running
            == Some(RunningJob { request: req, attempt: 0, aborted: false }),
{
}

/// An aborted job ends as aborted, whatever the runner reports (it may have
/// ignored the cancellation): no PDF, no error list, no retry; a request
/// that came after the abort runs next.
pub proof fn lemma_abort_is_remembered(s: SchedulerView, o: CompileOutcome)
    requires
        s.running is Some,
    ensures
        ({
            let a = step_spec(s, SchedulerCommand::Abort).0;
            let f = step_spec(a, SchedulerCommand::JobFinished(o));
            &&& f.0 == (SchedulerView { pending: None, running: None })
            &&& f.1 == seq![
                EffectView::Status(
                    CompileStatusDto { phase: CompilePhase::Failed, kind: Some(FailureKind::Aborted) },
                ),
            ]
        }),
{
    let a = step_spec(s, SchedulerCommand::Abort).0;
    assert(report_spec(CompileOutcome::Aborted) =~= Seq::<EffectView>::empty());
    assert(Seq::<EffectView>::empty() + seq![
        EffectView::Status(
            CompileStatusDto { phase: CompilePhase::Failed, kind: Some(FailureKind::Aborted) },
        ),
    ] =~= seq![
        EffectView::Status(
            CompileStatusDto { phase: CompilePhase::Failed, kind: Some(FailureKind::Aborted) },
        ),
    ]);
}

/// A request given to an idle scheduler starts at once: the task spawns it
/// and reports `Running`; it becomes the running job, first attempt, not
/// aborted, with nothing waiting.
pub proof fn lemma_compile_when_idle_starts(s: SchedulerView, req: CompileRequest)
    requires
        s.running is None,
        s.pending is None,
    ensures
        step_spec(s, SchedulerCommand::Compile(req)).1 == seq![
            EffectView::Spawn(req),
            EffectView::Status(status_of(CompilePhase::Running)),
        ],
        step_spec(s, SchedulerCommand::Compile(req)).0 == (SchedulerView {
            pending: None,
            running: Some(RunningJob { request: req, attempt: 0, aborted: false }),
        }),
{
}

/// What a job that was not aborted reports when nothing waits: a success
/// its PDF, then `Success`; a content error its entries, then `Failed`; an
/// I/O error one `Io` entry with its message, then `Failed`; a first
/// timeout starts the same request again; a second timeout `Failed`.
pub proof fn lemma_finish_reports(s: SchedulerView, o: CompileOutcome)
    requires
        s.pending is None,
        s.running matches Some(j) && !j.aborted,
    ensures
        ({
            let j = s.running->0;
            let f = step_spec(s, SchedulerCommand::JobFinished(o));
            &&& (o matches CompileOutcome::Success { pdf_path } ==> f.1 == seq![
                EffectView::Pdf(pdf_path@),
                EffectView::Status(status_of(CompilePhase::Success)),
            ] && f.0.running is None)
            &&& (o matches CompileOutcome::ContentError { errors } ==> f.1 == seq![
                EffectView::Errors(errors@),
                EffectView::Status(
                    CompileStatusDto { phase: CompilePhase::Failed, kind: Some(FailureKind::ContentError) },
                ),
            ] && f.0.running is None)
            &&& (o matches CompileOutcome::IoError { message } ==> f.1 == seq![
                EffectView::Errors(
                    seq![ErrorEntry { message, file: None, line: None, kind: ErrorKind::Io }],
                ),
                EffectView::Status(
                    CompileStatusDto { phase: CompilePhase::Failed, kind: Some(FailureKind::ContentError) },
                ),
            ] && f.0.running is None)
            &&& (o is Timeout && j.attempt == 0 ==> f.1 == seq![
                EffectView::Spawn(j.request),
                EffectView::Status(status_of(CompilePhase::Running)),
            ] && f.0.running == Some(RunningJob { request: j.request, attempt: 1, aborted: false }))
            &&& (o is Timeout && j.attempt > 0 ==> f.1 == seq![
                EffectView::Status(
                    CompileStatusDto { phase: CompilePhase::Failed, kind: Some(FailureKind::Timeout) },
                ),
            ] && f.0.running is None)
        }),
{
    let e = Seq::<EffectView>::empty();
    let j = s.running->0;
    match o {
        CompileOutcome::Success { pdf_path } => {
            assert(seq![EffectView::Pdf(pdf_path@)] + seq![EffectView::Status(status_of(CompilePhase::Success))]
                =~= seq![EffectView::Pdf(pdf_path@), EffectView::Status(status_of(CompilePhase::Success))]);
        },
        CompileOutcome::ContentError { errors } => {
            let st = EffectView::Status(
                CompileStatusDto { phase: CompilePhase::Failed, kind: Some(FailureKind::ContentError) },
            );
            assert(seq![EffectView::Errors(errors@)] + seq![st] =~= seq![EffectView::Errors(errors@), st]);
        },
        CompileOutcome::IoError { message } => {
            let st = EffectView::Status(
                CompileStatusDto { phase: CompilePhase::Failed, kind: Some(FailureKind::ContentError) },
            );
            let er = EffectView::Errors(
                seq![ErrorEntry { message, file: None, line: None, kind: ErrorKind::Io }],
            );
            assert(seq![er] + seq![st] =~= seq![er, st]);
        },
        CompileOutcome::Timeout => {
            let st = EffectView::Status(
                CompileStatusDto { phase: CompilePhase::Failed, kind: Some(FailureKind::Timeout) },
            );
            assert(e + seq![st] =~= seq![st]);
            assert(e + seq![EffectView::Spawn(j.request), EffectView::Status(status_of(CompilePhase::Running))]
                =~= seq![EffectView::Spawn(j.request), EffectView::Status(status_of(CompilePhase::Running))]);
        },
        _ => {},
    }
}

} // verus!
