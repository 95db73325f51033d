use texpresso_core::settings::{
    apply_patch, merge, sanitize_overrides, validate, validate_overrides, CompileOverrides,
    ProjectOverrides, Settings, SettingsPatch, SCHEMA_VERSION,
};
use texpresso_core::settings::validate::validate_root_file_form;
use texpresso_core::types::{CompileMode, Engine};

#[test]
fn defaults_match_design() {
    let s = Settings::default();
    assert_eq!(s.schema_version, SCHEMA_VERSION);
    assert_eq!(s.compile.mode, CompileMode::Continuous);
    assert_eq!(s.compile.debounce_ms, 500);
    assert_eq!(s.compile.timeout_secs, 120);
    assert_eq!(s.compile.engine, Engine::XeLaTeX);
    assert_eq!(s.root_file, None);
}

#[test]
fn default_passes() {
    assert!(validate(&Settings::default()).is_ok());
}

#[test]
fn rejects_out_of_range_values() {
    let mut s = Settings::default();
    s.compile.timeout_secs = 9999;
    s.compile.debounce_ms = 1;
    let errs = validate(&s).unwrap_err();
    assert_eq!(errs.len(), 2);
    assert!(errs[0].contains("timeout_secs"));
    assert!(errs[1].contains("debounce_ms"));
}

#[test]
fn out_of_range_messages_name_the_value() {
    let mut s = Settings::default();
    s.compile.timeout_secs = 9999;
    s.compile.debounce_ms = 1;
    let errs = validate(&s).unwrap_err();
    assert_eq!(errs[0], "compile.timeout_secs 必须在 5..=600 之间（当前 9999）");
    assert_eq!(errs[1], "compile.debounce_ms 必须在 100..=2000 之间（当前 1）");
}

#[test]
fn boundary_values_accepted() {
    let mut s = Settings::default();
    s.compile.timeout_secs = 5;
    assert!(validate(&s).is_ok());
    s.compile.timeout_secs = 600;
    assert!(validate(&s).is_ok());
    s.compile.debounce_ms = 100;
    assert!(validate(&s).is_ok());
    s.compile.debounce_ms = 2000;
    assert!(validate(&s).is_ok());
}

#[test]
fn just_outside_the_bounds_is_rejected() {
    let mut s = Settings::default();
    s.compile.timeout_secs = 4;
    assert_eq!(validate(&s).unwrap_err().len(), 1);
    s.compile.timeout_secs = 601;
    assert_eq!(validate(&s).unwrap_err().len(), 1);
    s.compile.timeout_secs = 120;
    s.compile.debounce_ms = 99;
    assert_eq!(validate(&s).unwrap_err().len(), 1);
    s.compile.debounce_ms = 2001;
    assert_eq!(validate(&s).unwrap_err().len(), 1);
}

#[test]
fn validate_overrides_checks_some_only() {
    let o = ProjectOverrides {
        compile: Some(CompileOverrides { timeout_secs: Some(9999), ..Default::default() }),
        ..Default::default()
    };
    assert!(validate_overrides(&o).is_err());

    let o2 = ProjectOverrides::default();
    assert!(validate_overrides(&o2).is_ok());
}

#[test]
fn sanitize_overrides_clears_invalid_keeps_valid() {
    let mut o = ProjectOverrides {
        root_file: Some("../outside.tex".into()),
        compile: Some(CompileOverrides {
            timeout_secs: Some(9999),
            debounce_ms: Some(150),
            ..Default::default()
        }),
        ..Default::default()
    };
    sanitize_overrides(&mut o);
    assert_eq!(o.root_file, None);
    let c = o.compile.unwrap();
    assert_eq!(c.timeout_secs, None);
    assert_eq!(c.debounce_ms, Some(150));

    let mut d = ProjectOverrides::default();
    sanitize_overrides(&mut d);
    assert_eq!(d, ProjectOverrides::default());
}

#[test]
fn sanitized_overrides_pass_validation() {
    let mut o = ProjectOverrides {
        schema_version: Some(1),
        root_file: Some("".into()),
        compile: Some(CompileOverrides {
            mode: Some(CompileMode::OnSave),
            debounce_ms: Some(5),
            timeout_secs: Some(0),
            engine: Some(Engine::LuaLaTeX),
        }),
    };
    assert_eq!(validate_overrides(&o).unwrap_err().len(), 3);
    sanitize_overrides(&mut o);
    assert!(validate_overrides(&o).is_ok());
    assert_eq!(o.compile.unwrap().mode, Some(CompileMode::OnSave));
    assert_eq!(o.compile.unwrap().engine, Some(Engine::LuaLaTeX));
}

#[test]
fn validate_overrides_rejects_unsafe_root_file() {
    for bad in ["../outside.tex", "sub/../../x.tex", ""] {
        let o = ProjectOverrides { root_file: Some(bad.into()), ..Default::default() };
        assert!(validate_overrides(&o).is_err(), "should reject {bad:?}");
    }
    for good in ["main.tex", "css/thesis.tex"] {
        let o = ProjectOverrides { root_file: Some(good.into()), ..Default::default() };
        assert!(validate_overrides(&o).is_ok(), "should accept {good:?}");
    }
}

#[test]
fn root_file_form_messages() {
    assert_eq!(validate_root_file_form(""), Some("root_file 不能为空".to_string()));
    assert_eq!(
        validate_root_file_form("a\\..\\b.tex"),
        Some("root_file 不允许包含 .. 组件（疑似越权路径）".to_string())
    );
    assert_eq!(validate_root_file_form("..a/b.tex"), None);
}

#[test]
fn merge_takes_project_keys_and_inherits_the_rest() {
    let mut g = Settings::default();
    g.root_file = Some("global.tex".into());
    let o = ProjectOverrides {
        schema_version: None,
        compile: Some(CompileOverrides {
            mode: Some(CompileMode::OnSave),
            timeout_secs: Some(60),
            ..Default::default()
        }),
        root_file: None,
    };
    let m = merge(&g, &o);
    assert_eq!(m.compile.mode, CompileMode::OnSave);
    assert_eq!(m.compile.timeout_secs, 60);
    assert_eq!(m.compile.debounce_ms, 500);
    assert_eq!(m.compile.engine, Engine::XeLaTeX);
    assert_eq!(m.root_file, Some("global.tex".to_string()));
    assert_eq!(m.schema_version, SCHEMA_VERSION);

    let o2 = ProjectOverrides { root_file: Some("thesis.tex".into()), ..Default::default() };
    assert_eq!(merge(&g, &o2).root_file, Some("thesis.tex".to_string()));
    assert_eq!(merge(&g, &ProjectOverrides::default()), g);
}

#[test]
fn apply_patch_updates_only_present_keys() {
    let mut s = Settings::default();
    let p = SettingsPatch {
        timeout_secs: Some(60),
        root_file: Some(Some("thesis.tex".into())),
        ..SettingsPatch::default()
    };
    assert_eq!(apply_patch(&mut s, &p), Ok(()));
    assert_eq!(s.compile.timeout_secs, 60);
    assert_eq!(s.compile.debounce_ms, 500);
    assert_eq!(s.root_file, Some("thesis.tex".to_string()));

    let clear = SettingsPatch { root_file: Some(None), ..SettingsPatch::default() };
    assert_eq!(apply_patch(&mut s, &clear), Ok(()));
    assert_eq!(s.root_file, None);
    assert_eq!(s.compile.timeout_secs, 60);
}

#[test]
fn apply_patch_rejects_and_keeps_old_settings() {
    let mut s = Settings::default();
    let p = SettingsPatch { timeout_secs: Some(1), mode: Some(CompileMode::OnSave), ..SettingsPatch::default() };
    let errs = apply_patch(&mut s, &p).unwrap_err();
    assert_eq!(errs.len(), 1);
    assert!(errs[0].contains("timeout_secs"));
    assert_eq!(s, Settings::default());
}
