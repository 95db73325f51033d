use texpresso_core::compose::{compile_request_for_change, compile_request_manual, ComposeContext};
use texpresso_core::project::ProjectState;
use texpresso_core::settings::{CompileSettings, Settings, SCHEMA_VERSION};
use texpresso_core::types::{CompileMode, Engine};

fn ctx<'a>(project: &'a ProjectState, settings: &'a Settings) -> ComposeContext<'a> {
    ComposeContext { project, settings }
}

fn settings() -> Settings {
    Settings {
        schema_version: SCHEMA_VERSION,
        compile: CompileSettings {
            mode: CompileMode::Continuous,
            debounce_ms: 500,
            timeout_secs: 120,
            engine: Engine::XeLaTeX,
        },
        root_file: None,
    }
}

fn project(root_file: Option<&str>) -> ProjectState {
    ProjectState { root: "proj".to_string(), root_file: root_file.map(|s| s.to_string()) }
}

#[test]
fn no_root_file_returns_none() {
    let project = project(None);
    assert_eq!(compile_request_for_change(ctx(&project, &settings()), "proj/main.tex"), None);
}

#[test]
fn non_tex_change_returns_none() {
    let project = project(Some("proj/main.tex"));
    assert_eq!(compile_request_for_change(ctx(&project, &settings()), "proj/notes.md"), None);
}

#[test]
fn tmp_change_returns_none() {
    let project = project(Some("proj/main.tex"));
    assert_eq!(compile_request_for_change(ctx(&project, &settings()), "proj/tmp/main.tex"), None);
}

#[test]
fn outside_project_returns_none() {
    let project = project(Some("proj/main.tex"));
    assert_eq!(compile_request_for_change(ctx(&project, &settings()), "other/evil.tex"), None);
}

#[test]
fn tex_change_builds_request_from_snapshot() {
    let project = project(Some("proj/main.tex"));
    let mut s = settings();
    s.compile.engine = Engine::LuaLaTeX;
    s.compile.timeout_secs = 60;
    let req = compile_request_for_change(ctx(&project, &s), "proj/chapters/a.tex").expect("应触发");
    assert_eq!(req.root_file, "proj/main.tex");
    assert_eq!(req.project_root, "proj");
    assert_eq!(req.engine, Engine::LuaLaTeX);
    assert_eq!(req.timeout_secs, 60);
}

#[test]
fn request_is_snapshot_not_reference() {
    let project = project(Some("proj/main.tex"));
    let mut s = settings();
    let req = compile_request_for_change(ctx(&project, &s), "proj/a.tex").unwrap();
    s.compile.timeout_secs = 5;
    assert_eq!(req.timeout_secs, 120);
}

#[test]
fn manual_request_ignores_changed_path() {
    let project = project(Some("proj/main.tex"));
    let req = compile_request_manual(ctx(&project, &settings())).unwrap();
    assert_eq!(req.root_file, "proj/main.tex");
}

#[test]
fn manual_request_without_root_returns_none() {
    let project = project(None);
    assert_eq!(compile_request_manual(ctx(&project, &settings())), None);
}

#[test]
fn change_request_equals_manual_request() {
    let project = project(Some("proj/main.tex"));
    let s = settings();
    let a = compile_request_for_change(ctx(&project, &s), "proj/x/y.tex").unwrap();
    let b = compile_request_manual(ctx(&project, &s)).unwrap();
    assert_eq!(a, b);
}

#[test]
fn external_edit_triggers_same_path() {
    let project = project(Some("proj/main.tex"));
    let s = settings();
    let req = compile_request_for_change(ctx(&project, &s), "proj/notes/chap2.tex");
    assert!(req.is_some(), "外部修改必须触发编译（文件系统是唯一真相）");
}

#[test]
fn backslash_paths_inside_project_trigger() {
    let project = ProjectState {
        root: r"C:\proj".to_string(),
        root_file: Some(r"C:\proj\main.tex".to_string()),
    };
    let s = settings();
    assert!(compile_request_for_change(ctx(&project, &s), r"C:\proj\ch\a.tex").is_some());
    assert!(compile_request_for_change(ctx(&project, &s), r"C:\proj\tmp\a.tex").is_none());
    assert!(compile_request_for_change(ctx(&project, &s), r"C:\other\a.tex").is_none());
}
