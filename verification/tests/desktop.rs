use texpresso_core::desktop::{
    is_settings_path, latexmk_input, pdf_path_for_root, project_overrides_path, root_stem,
    route_change, same_path_exec, strip_verbatim, ChangeRoute,
};
use texpresso_core::project::ProjectState;
use texpresso_core::settings::{ProjectOverrides, Settings};
use texpresso_core::storage::SettingsStorage;

fn project(root: &str, root_file: Option<&str>) -> ProjectState {
    ProjectState { root: root.to_string(), root_file: root_file.map(|s| s.to_string()) }
}

#[test]
fn pdf_path_uses_root_stem_at_project_root() {
    assert_eq!(pdf_path_for_root(&project(r"C:\proj", Some(r"C:\proj\main.tex"))), r"C:\proj\main.pdf");
}

#[test]
fn pdf_path_falls_back_to_main_when_no_root() {
    assert_eq!(pdf_path_for_root(&project(r"C:\proj", None)), r"C:\proj\main.pdf");
}

#[test]
fn pdf_path_flattens_nested_root_to_project_root() {
    assert_eq!(
        pdf_path_for_root(&project(r"C:\proj", Some(r"C:\proj\css\thesis.tex"))),
        r"C:\proj\thesis.pdf"
    );
}

#[test]
fn pdf_path_with_forward_slashes() {
    assert_eq!(pdf_path_for_root(&project("/home/u/proj", Some("/home/u/proj/a/b.tex"))), "/home/u/proj/b.pdf");
    assert_eq!(pdf_path_for_root(&project("/home/u/proj/", None)), "/home/u/proj/main.pdf");
}

#[test]
fn root_stem_variants() {
    assert_eq!(root_stem(r"C:\proj\main.tex"), "main");
    assert_eq!(root_stem("css/thesis.tex"), "thesis");
    assert_eq!(root_stem("main"), "main");
}

#[test]
fn root_stem_edge_cases() {
    assert_eq!(root_stem("archive.tar.tex"), "archive.tar");
    assert_eq!(root_stem(".hidden"), ".hidden");
    assert_eq!(root_stem("/"), "main");
}

#[test]
fn latexmk_input_keeps_nested_relative_path() {
    let root = r"C:\proj";
    assert_eq!(latexmk_input(r"C:\proj\css\thesis.tex", root), "css/thesis.tex");
    assert_eq!(latexmk_input(r"C:\proj\main.tex", root), "main.tex");
    assert_eq!(latexmk_input(r"D:\other\a.tex", root), "D:/other/a.tex");
}

#[test]
fn strip_verbatim_prefixes() {
    assert_eq!(strip_verbatim(r"\\?\C:\proj\main.tex"), r"C:\proj\main.tex");
    assert_eq!(strip_verbatim(r"\\?\UNC\server\share\a.tex"), r"\\server\share\a.tex");
    assert_eq!(strip_verbatim(r"C:\proj"), r"C:\proj");
    assert_eq!(strip_verbatim("/home/u"), "/home/u");
}

#[test]
fn overrides_path_joins_with_the_roots_separator() {
    assert_eq!(project_overrides_path("/home/u/proj"), "/home/u/proj/.texpresso/settings.json");
    assert_eq!(project_overrides_path(r"C:\proj"), r"C:\proj\.texpresso\settings.json");
}

#[test]
fn same_path_compares_components() {
    assert!(same_path_exec("proj//a/./b.tex", "proj/a/b.tex"));
    assert!(same_path_exec(r"C:\proj\a", "C:/proj/a"));
    assert!(!same_path_exec("proj/a", "proj/b"));
    assert!(!same_path_exec("/proj", "proj"));
}

#[test]
fn settings_paths_are_recognized() {
    let global = "/cfg/settings.json";
    assert!(is_settings_path("/cfg/settings.json", global, None));
    assert!(is_settings_path("/p/.texpresso/settings.json", global, Some("/p")));
    assert!(!is_settings_path("/p/.texpresso/settings.json", global, None));
    assert!(!is_settings_path("/p/other/settings.json", global, Some("/p")));
}

#[test]
fn changes_are_routed() {
    let global = "/cfg/settings.json";
    let root = Some("/p");
    assert_eq!(route_change("/cfg/settings.json", global, root), ChangeRoute::Settings);
    assert_eq!(route_change("/p/.texpresso/settings.json", global, root), ChangeRoute::Settings);
    assert_eq!(route_change("/p/chapters/a.tex", global, root), ChangeRoute::Project { compile: true });
    // Other files and directories the tree shows refresh it without compiling.
    assert_eq!(route_change("/p/notes.md", global, root), ChangeRoute::Project { compile: false });
    assert_eq!(route_change("/p/ch", global, root), ChangeRoute::Project { compile: false });
    assert_eq!(route_change("/p/.git/HEAD", global, root), ChangeRoute::Ignore);
    assert_eq!(route_change("/p/tmp/main.tex", global, root), ChangeRoute::Ignore);
    assert_eq!(route_change("/p/a.tex", global, None), ChangeRoute::Ignore);
}

#[test]
fn self_write_is_consumed_once() {
    let mut s = SettingsStorage::new("/cfg/settings.json".to_string());
    assert_eq!(s.global_path(), "/cfg/settings.json");
    s.record_write("/cfg/settings.json", "{\"a\":1}");
    assert!(s.is_self_write("/cfg//settings.json", "{\"a\":1}"));
    assert!(!s.is_self_write("/cfg/settings.json", "{\"a\":1}"));
}

#[test]
fn other_content_is_not_a_self_write_and_consumes_the_record() {
    let mut s = SettingsStorage::new("/cfg/settings.json".to_string());
    s.record_write("/cfg/settings.json", "one");
    s.record_write("/p/.texpresso/settings.json", "two");
    assert!(!s.is_self_write("/cfg/settings.json", "changed"));
    assert!(!s.is_self_write("/cfg/settings.json", "one"));
    assert!(s.is_self_write("/p/.texpresso/settings.json", "two"));
}

#[test]
fn later_write_replaces_the_record() {
    let mut s = SettingsStorage::new("/cfg/settings.json".to_string());
    s.record_write("/cfg/settings.json", "one");
    s.record_write("/cfg/settings.json", "two");
    assert!(s.is_self_write("/cfg/settings.json", "two"));
}

#[test]
fn effective_settings_merge_overrides() {
    let g = Settings::default();
    let o = ProjectOverrides { root_file: Some("thesis.tex".into()), ..Default::default() };
    let e = SettingsStorage::effective(&g, &o);
    assert_eq!(e.root_file, Some("thesis.tex".to_string()));
    assert_eq!(e.compile, g.compile);
}
