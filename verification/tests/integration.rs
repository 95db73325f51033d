//! The chain open → detect → change → compile → error → fix → recover, with
//! an in-memory file system and the scheduler's state machine driven here
//! as its task would drive it.

use texpresso_core::compose::{compile_request_for_change, compile_request_manual, ComposeContext};
use texpresso_core::project::{find_candidates, resolve, FakeFS, ProjectState, RootResolution, TexCollector};
use texpresso_core::runner::errors_from_log;
use texpresso_core::scheduler::{Effect, SchedulerCommand, SchedulerState};
use texpresso_core::settings::Settings;
use texpresso_core::types::{
    CompileOutcome, CompilePhase, CompileRequest, CompileStatusDto, ErrorEntry, FailureKind,
};

/// What the scheduler's task would have done: events sent, runs started.
#[derive(Default)]
struct Log {
    statuses: Vec<CompileStatusDto>,
    errors: Vec<Vec<ErrorEntry>>,
    pdfs: Vec<String>,
    calls: Vec<CompileRequest>,
    cancels: usize,
}

impl Log {
    fn perform(&mut self, effects: Vec<Effect>) {
        for e in effects {
            match e {
                Effect::Status(s) => self.statuses.push(s),
                Effect::Errors(v) => self.errors.push(v),
                Effect::Pdf(p) => self.pdfs.push(p),
                Effect::Spawn(r) => self.calls.push(r),
                Effect::Cancel => self.cancels += 1,
            }
        }
    }
}

fn step(s: &mut SchedulerState, log: &mut Log, cmd: SchedulerCommand) {
    let effects = s.handle(cmd);
    log.perform(effects);
}

fn status(phase: CompilePhase, kind: Option<FailureKind>) -> CompileStatusDto {
    CompileStatusDto { phase, kind }
}

fn collect(fs: &FakeFS, root: &str) -> Vec<String> {
    let mut c = TexCollector::new(root);
    while let Some(dir) = c.next_dir() {
        c.absorb(fs.read_dir(&dir).expect("scan"));
    }
    c.finish()
}

fn detect(fs: &FakeFS, root: &str) -> RootResolution {
    let files = collect(fs, root);
    let contents: Vec<Option<String>> = files.iter().map(|p| fs.file(p).map(str::to_owned)).collect();
    resolve(find_candidates(&files, root, &contents))
}

fn open_project(fs: &FakeFS, root: &str) -> ProjectState {
    let root_file = match detect(fs, root) {
        RootResolution::Unique(p) => Some(p),
        _ => None,
    };
    ProjectState { root: root.to_string(), root_file }
}

#[test]
fn open_detect_compile_full_chain() {
    let mut fs = FakeFS::new();
    fs.put_file("proj/main.tex", "\\documentclass{article}\n\\input{chapters/intro}\n");
    fs.put_file("proj/chapters/intro.tex", "chapter content");

    let project = open_project(&fs, "proj");
    assert_eq!(project.root_file.as_deref(), Some("proj/main.tex"));

    let settings = Settings::default();
    let req = compile_request_for_change(
        ComposeContext { project: &project, settings: &settings },
        "proj/chapters/intro.tex",
    )
    .expect("a change of an included file compiles");

    let mut s = SchedulerState::new();
    let mut log = Log::default();
    step(&mut s, &mut log, SchedulerCommand::Compile(req));
    step(&mut s, &mut log, SchedulerCommand::JobFinished(CompileOutcome::Success { pdf_path: "proj/main.pdf".into() }));

    assert_eq!(log.statuses, vec![status(CompilePhase::Running, None), status(CompilePhase::Success, None)]);
    assert_eq!(log.pdfs, vec!["proj/main.pdf".to_string()]);
    assert_eq!(log.calls.len(), 1);
    assert_eq!(log.calls[0].root_file, "proj/main.tex");
}

#[test]
fn multi_candidate_then_manual_override() {
    let mut fs = FakeFS::new();
    fs.put_file("proj/a.tex", "\\documentclass{article}");
    fs.put_file("proj/b.tex", "\\documentclass{book}");
    assert!(matches!(detect(&fs, "proj"), RootResolution::Multiple(_)));

    let settings = Settings { root_file: Some("proj/b.tex".into()), ..Settings::default() };
    let project = ProjectState { root: "proj".into(), root_file: settings.root_file.clone() };
    let req = compile_request_for_change(ComposeContext { project: &project, settings: &settings }, "proj/b.tex")
        .expect("the chosen root compiles");
    assert_eq!(req.root_file, "proj/b.tex");
}

#[test]
fn continuous_typing_merges_to_latest() {
    let mut fs = FakeFS::new();
    fs.put_file("proj/main.tex", "\\documentclass{article}");
    let project = open_project(&fs, "proj");
    let settings = Settings::default();

    let mut s = SchedulerState::new();
    let mut log = Log::default();
    for _ in 0..3 {
        let req = compile_request_for_change(ComposeContext { project: &project, settings: &settings }, "proj/main.tex")
            .unwrap();
        step(&mut s, &mut log, SchedulerCommand::Compile(req));
    }
    assert_eq!(log.calls.len(), 1);
    assert_eq!(log.statuses.iter().filter(|st| st.phase == CompilePhase::Queued).count(), 1);

    step(&mut s, &mut log, SchedulerCommand::JobFinished(CompileOutcome::Success { pdf_path: "p.pdf".into() }));
    assert_eq!(log.calls.len(), 2);
    step(&mut s, &mut log, SchedulerCommand::JobFinished(CompileOutcome::Success { pdf_path: "p.pdf".into() }));

    assert_eq!(log.calls.len(), 2);
    assert_eq!(
        log.statuses,
        vec![
            status(CompilePhase::Running, None),
            status(CompilePhase::Queued, None),
            status(CompilePhase::Running, None),
            status(CompilePhase::Success, None),
        ]
    );
}

#[test]
fn error_then_fix_then_recover() {
    let bad_log = "! LaTeX Error: File `nope.sty' not found.\nl.5 \\usepackage{nope}\n";
    let errors = errors_from_log(bad_log);
    assert_eq!(errors.len(), 1);
    assert_eq!(errors[0].line, Some(5));

    let mut fs = FakeFS::new();
    fs.put_file("proj/main.tex", "\\documentclass{article}");
    let project = open_project(&fs, "proj");
    let settings = Settings::default();
    let ctx = ComposeContext { project: &project, settings: &settings };

    let mut s = SchedulerState::new();
    let mut log = Log::default();
    step(&mut s, &mut log, SchedulerCommand::Compile(compile_request_for_change(ctx, "proj/main.tex").unwrap()));
    step(&mut s, &mut log, SchedulerCommand::JobFinished(CompileOutcome::ContentError { errors: errors.clone() }));
    assert!(log.statuses.contains(&status(CompilePhase::Failed, Some(FailureKind::ContentError))));
    assert_eq!(log.errors, vec![errors.clone()]);

    step(&mut s, &mut log, SchedulerCommand::Compile(compile_request_for_change(ctx, "proj/main.tex").unwrap()));
    assert_eq!(log.calls.len(), 2);
    step(&mut s, &mut log, SchedulerCommand::JobFinished(CompileOutcome::Success { pdf_path: "proj/main.pdf".into() }));

    assert_eq!(
        log.statuses,
        vec![
            status(CompilePhase::Running, None),
            status(CompilePhase::Failed, Some(FailureKind::ContentError)),
            status(CompilePhase::Running, None),
            status(CompilePhase::Success, None),
        ]
    );
    assert_eq!(log.pdfs, vec!["proj/main.pdf".to_string()]);
}

#[test]
fn abort_then_manual_compile() {
    let mut fs = FakeFS::new();
    fs.put_file("proj/main.tex", "\\documentclass{article}");
    let project = open_project(&fs, "proj");
    let settings = Settings::default();
    let manual = || compile_request_manual(ComposeContext { project: &project, settings: &settings }).unwrap();

    let mut s = SchedulerState::new();
    let mut log = Log::default();
    step(&mut s, &mut log, SchedulerCommand::Compile(manual()));
    assert_eq!(log.calls.len(), 1);

    step(&mut s, &mut log, SchedulerCommand::Abort);
    assert_eq!(log.cancels, 1);
    // The cancelled run reports that it was aborted.
    step(&mut s, &mut log, SchedulerCommand::JobFinished(CompileOutcome::Aborted));
    assert!(log.statuses.contains(&status(CompilePhase::Failed, Some(FailureKind::Aborted))));

    step(&mut s, &mut log, SchedulerCommand::Compile(manual()));
    assert_eq!(log.calls.len(), 2);
    step(&mut s, &mut log, SchedulerCommand::JobFinished(CompileOutcome::Success { pdf_path: "p.pdf".into() }));
    assert_eq!(log.statuses[3], status(CompilePhase::Success, None));
}
