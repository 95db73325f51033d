use texpresso_core::commands::{
    check_in_project, check_root_override, detected_root, join_complaints, manual_compile,
    opened_project, override_root_file, patch_global, save_target,
};
use texpresso_core::compose::ComposeContext;
use texpresso_core::desktop::{event_paths, root_after, watch_plan, CmdError, WatchCommand};
use texpresso_core::project::{ProjectState, RootResolution};
use texpresso_core::settings::{CompileOverrides, ProjectOverrides, Settings, SettingsPatch};
use texpresso_core::storage::SettingsStorage;
use texpresso_core::synctex::provider::forward_args;
use texpresso_core::types::{CompileMode, Engine};

fn invalid(m: &str) -> CmdError {
    CmdError::Invalid(m.to_string())
}

#[test]
fn opened_project_requires_a_project() {
    assert_eq!(opened_project(None), Err(invalid("尚未打开项目")));
    let p = ProjectState { root: "/p".into(), root_file: None };
    assert_eq!(opened_project(Some(p.clone())), Ok(p));
}

#[test]
fn paths_must_stay_in_the_project() {
    assert_eq!(check_in_project("/p/a/b.tex".into(), "/p", "a/b.tex"), Ok("/p/a/b.tex".to_string()));
    assert_eq!(check_in_project("/other/x".into(), "/p", "../other/x"), Err(invalid("路径在项目外：../other/x")));
    // A sibling whose name merely starts with the root's name is outside.
    assert_eq!(check_in_project("/proj2/x".into(), "/proj", "x"), Err(invalid("路径在项目外：x")));
}

#[test]
fn save_target_joins_the_file_name_to_the_resolved_parent() {
    assert_eq!(save_target("/p/a/new.tex", "/p/a", "/p"), Ok("/p/a/new.tex".to_string()));
    assert_eq!(save_target("link/new.tex", "/elsewhere", "/p"), Err(invalid("路径在项目外：link/new.tex")));
    assert_eq!(save_target("/p/a/..", "/p", "/p"), Err(invalid("非法路径")));
}

#[test]
fn root_override_must_be_an_inner_tex_file() {
    assert_eq!(check_root_override(r"\\?\C:\proj\main.TeX", r"\\?\C:\proj", "main.TeX"), Ok(r"C:\proj\main.TeX".to_string()));
    assert_eq!(
        check_root_override("/other/main.tex", "/p", "../other/main.tex"),
        Err(invalid("root_file 在项目外：../other/main.tex"))
    );
    assert_eq!(check_root_override("/p/notes.md", "/p", "notes.md"), Err(invalid("root_file 不是 .tex 文件：notes.md")));
    assert_eq!(check_root_override("/p/Makefile", "/p", "Makefile"), Err(invalid("root_file 不是 .tex 文件：Makefile")));
}

#[test]
fn detection_settles_only_on_a_single_candidate() {
    assert_eq!(detected_root(RootResolution::Unique(r"\\?\C:\p\main.tex".into())), Some(r"C:\p\main.tex".to_string()));
    assert_eq!(detected_root(RootResolution::Multiple(vec!["a".into(), "b".into()])), None);
    assert_eq!(detected_root(RootResolution::NoneFound), None);
}

#[test]
fn complaints_are_joined_with_a_full_width_semicolon() {
    assert_eq!(join_complaints(&vec![]), "");
    assert_eq!(join_complaints(&vec!["a".into()]), "a");
    assert_eq!(join_complaints(&vec!["a".into(), "b".into(), "c".into()]), "a；b；c");
}

#[test]
fn overriding_the_root_file_is_validated() {
    let o = ProjectOverrides {
        compile: Some(CompileOverrides { mode: Some(CompileMode::OnSave), ..Default::default() }),
        ..Default::default()
    };
    let set = override_root_file(&o, &Some("thesis.tex".into())).unwrap();
    assert_eq!(set.root_file, Some("thesis.tex".to_string()));
    assert_eq!(set.compile, o.compile);
    let cleared = override_root_file(&set, &None).unwrap();
    assert_eq!(cleared.root_file, None);
    assert_eq!(override_root_file(&o, &Some("../x.tex".into())), Err(invalid("root_file 不允许包含 .. 组件（疑似越权路径）")));
}

#[test]
fn global_patch_changes_only_when_it_has_global_keys() {
    let mut g = Settings::default();
    let only_root = SettingsPatch { root_file: Some(Some("x.tex".into())), ..Default::default() };
    assert_eq!(patch_global(&mut g, &only_root), Ok(false));
    assert_eq!(g, Settings::default());

    let p = SettingsPatch { engine: Some(Engine::LuaLaTeX), root_file: Some(None), ..Default::default() };
    assert_eq!(patch_global(&mut g, &p), Ok(true));
    assert_eq!(g.compile.engine, Engine::LuaLaTeX);
    assert_eq!(g.root_file, None);

    let bad = SettingsPatch { timeout_secs: Some(0), debounce_ms: Some(1), ..Default::default() };
    let before = g.clone();
    assert_eq!(
        patch_global(&mut g, &bad),
        Err(invalid(
            "compile.timeout_secs 必须在 5..=600 之间（当前 0）；compile.debounce_ms 必须在 100..=2000 之间（当前 1）"
        ))
    );
    assert_eq!(g, before);
}

#[test]
fn global_patch_keeps_the_global_root_file() {
    let mut g = Settings::default();
    g.root_file = Some("global.tex".into());
    let p = SettingsPatch { timeout_secs: Some(30), root_file: Some(None), ..Default::default() };
    assert_eq!(patch_global(&mut g, &p), Ok(true));
    assert_eq!(g.root_file, Some("global.tex".to_string()));
    assert_eq!(g.compile.timeout_secs, 30);
}

#[test]
fn manual_compile_needs_a_root_file() {
    let s = Settings::default();
    let none = ProjectState { root: "/p".into(), root_file: None };
    assert_eq!(manual_compile(ComposeContext { project: &none, settings: &s }), Err(invalid("未确定根文件，无法编译")));
    let some = ProjectState { root: "/p".into(), root_file: Some("/p/main.tex".into()) };
    let req = manual_compile(ComposeContext { project: &some, settings: &s }).unwrap();
    assert_eq!(req.root_file, "/p/main.tex");
    assert_eq!(req.timeout_secs, 120);
}

#[test]
fn rename_events_stand_for_the_new_name() {
    let paths = vec!["/p/old.tex".to_string(), "/p/new.tex".to_string()];
    assert_eq!(event_paths(true, paths.clone()), vec!["/p/new.tex".to_string()]);
    assert_eq!(event_paths(false, paths.clone()), paths);
    assert_eq!(event_paths(true, vec![]), Vec::<String>::new());
}

#[test]
fn watcher_commands_switch_the_watched_root() {
    let cur = Some("/a".to_string());
    let plan = watch_plan(&cur, &WatchCommand::SetProjectRoot(Some("/b".into())));
    assert_eq!(plan.unwatch, Some("/a".to_string()));
    assert_eq!(plan.watch, Some("/b".to_string()));
    assert_eq!(root_after(cur.clone(), WatchCommand::SetProjectRoot(Some("/b".into())), true), Some("/b".to_string()));
    assert_eq!(root_after(cur.clone(), WatchCommand::SetProjectRoot(Some("/b".into())), false), cur);
    let close = watch_plan(&cur, &WatchCommand::SetProjectRoot(None));
    assert_eq!(close.unwatch, Some("/a".to_string()));
    assert_eq!(close.watch, None);
    assert_eq!(root_after(cur, WatchCommand::SetProjectRoot(None), true), None);
}

#[test]
fn settings_files_fall_back_to_defaults() {
    assert_eq!(SettingsStorage::global_from(None), (Settings::default(), true));
    let mut s = Settings::default();
    s.compile.debounce_ms = 800;
    assert_eq!(SettingsStorage::global_from(Some(s.clone())), (s, false));
    assert_eq!(SettingsStorage::overrides_from(None), ProjectOverrides::default());
    let o = ProjectOverrides { root_file: Some("m.tex".into()), ..Default::default() };
    assert_eq!(SettingsStorage::overrides_from(Some(o.clone())), o);
}

#[test]
fn out_of_range_global_settings_fall_back_and_are_rewritten() {
    let mut s = Settings::default();
    s.compile.timeout_secs = 9999;
    assert_eq!(SettingsStorage::global_from(Some(s)), (Settings::default(), true));
}

#[test]
fn loaded_overrides_are_cleaned_field_by_field() {
    let o = ProjectOverrides {
        root_file: Some("../x.tex".into()),
        compile: Some(CompileOverrides {
            timeout_secs: Some(9999),
            debounce_ms: Some(150),
            mode: Some(CompileMode::OnSave),
            engine: None,
        }),
        schema_version: Some(1),
    };
    let c = SettingsStorage::overrides_from(Some(o));
    assert_eq!(c.root_file, None);
    assert_eq!(c.schema_version, Some(1));
    let cc = c.compile.unwrap();
    assert_eq!(cc.timeout_secs, None);
    assert_eq!(cc.debounce_ms, Some(150));
    assert_eq!(cc.mode, Some(CompileMode::OnSave));
}

#[test]
fn synctex_view_arguments() {
    assert_eq!(
        forward_args("/p/main.tex", 12, 5, "/p/main.pdf", "/p/tmp"),
        vec!["view", "-i", "12:5:/p/main.tex", "-o", "/p/main.pdf", "-d", "/p/tmp", "-x"]
    );
    assert_eq!(forward_args("a.tex", 0, -1, "a.pdf", "tmp")[2], "0:-1:a.tex");
    assert_eq!(forward_args("a.tex", 1, i32::MIN, "a.pdf", "tmp")[2], "1:-2147483648:a.tex");
}
