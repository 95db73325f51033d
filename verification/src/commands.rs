//! The decisions behind the user interface's commands. The shell resolves
//! paths on disk (`canonicalize`), reads and writes files and stores
//! settings; it hands the results here and gets back what to answer.
//!
//! Safety rule: every path a command touches must lie inside the project
//! root once resolved.

use vstd::prelude::*;
use crate::compose::{compile_request_manual, manual_request, ComposeContext};
use crate::desktop::{join, join_path, strip_verbatim, strip_verbatim_spec, CmdError};
use crate::path::{extension, extension_exec, file_name, file_name_exec, path_starts_with, path_starts_with_exec};
use crate::project::model::{ProjectState, RootResolution};
use crate::settings::merge::{apply_patch, patched};
use crate::settings::model::{ProjectOverrides, Settings, SettingsPatch};
use crate::settings::validate::{overrides_problems, settings_problems, validate_overrides};
use crate::text::{chars_of, concat_chars, str_concat, string_of, string_views};
use crate::types::CompileRequest;

verus! {

/// The complaint of a command that needs an open project.
pub open spec fn no_project_message() -> Seq<char> {
    "尚未打开项目"@
}

/// The open project, or `Invalid` when none is open.
pub fn opened_project(project: Option<ProjectState>) -> (r: Result<ProjectState, CmdError>)
    ensures
        match project {
            Some(p) => r == Ok::<ProjectState, CmdError>(p),
            None => r matches Err(CmdError::Invalid(m)) && m@ == no_project_message(),
        },
{
    match project {
        Some(p) => Ok(p),
        None => Err(CmdError::Invalid("尚未打开项目".to_string())),
    }
}

/// A resolved path is accepted when it lies inside the resolved project
/// root; otherwise `Invalid`, naming the path as the user gave it.
pub fn check_in_project(resolved: String, root: &str, given: &str) -> (r: Result<String, CmdError>)
    ensures
        path_starts_with(resolved@, root@) ==> r == Ok::<String, CmdError>(resolved),
        !path_starts_with(resolved@, root@) ==> (r matches Err(CmdError::Invalid(m)) && m@
            == "路径在项目外："@ + given@),
{
    if path_starts_with_exec(resolved.as_str(), root) {
        Ok(resolved)
    } else {
        Err(CmdError::Invalid(str_concat("路径在项目外：", given)))
    }
}

/// The file a save writes: the resolved parent directory joined with the
/// file name of `path`; `Invalid` when `path` has no file name or the
/// target leaves the project.
pub fn save_target(path: &str, resolved_parent: &str, root: &str) -> (r: Result<String, CmdError>)
    ensures
        match file_name(path@) {
            None => r matches Err(CmdError::Invalid(m)) && m@ == "非法路径"@,
            Some(n) => {
                let t = join(resolved_parent@, n);
                &&& path_starts_with(t, root@) ==> (r matches Ok(s) && s@ == t)
                &&& !path_starts_with(t, root@) ==> (r matches Err(CmdError::Invalid(m)) && m@
                    == "路径在项目外："@ + path@)
            },
        },
{
    match file_name_exec(path) {
        None => Err(CmdError::Invalid("非法路径".to_string())),
        Some(n) => {
            let name = string_of(&n);
            let t = join_path(resolved_parent, name.as_str());
            if path_starts_with_exec(t.as_str(), root) {
                Ok(t)
            } else {
                Err(CmdError::Invalid(str_concat("路径在项目外：", path)))
            }
        },
    }
}

/// `ext` is `tex` in any mix of ASCII case.
pub open spec fn is_tex_ignoring_case(ext: Seq<char>) -> bool {
    &&& ext.len() == 3
    &&& (ext[0] == 't' || ext[0] == 'T')
    &&& (ext[1] == 'e' || ext[1] == 'E')
    &&& (ext[2] == 'x' || ext[2] == 'X')
}

/// The path's extension is `tex` in any mix of ASCII case.
pub open spec fn tex_path(p: Seq<char>) -> bool {
    match extension(p) {
        Some(e) => is_tex_ignoring_case(e),
        None => false,
    }
}

fn tex_ignoring_case(ext: &Vec<char>) -> (b: bool)
    ensures
        b == is_tex_ignoring_case(ext@),
{
    ext.len() == 3 && (ext[0] == 't' || ext[0] == 'T') && (ext[1] == 'e' || ext[1] == 'E') && (
    ext[2] == 'x' || ext[2] == 'X')
}

/// A manual root file, resolved on disk, is taken when it lies inside the
/// resolved project and has a `.tex` extension (any case); it is then shown
/// without a verbatim prefix. `given` is the override as written.
pub fn check_root_override(resolved: &str, project: &str, given: &str) -> (r: Result<String, CmdError>)
    ensures
        !path_starts_with(resolved@, project@) ==> (r matches Err(CmdError::Invalid(m)) && m@
            == "root_file 在项目外："@ + given@),
        path_starts_with(resolved@, project@) && !tex_path(resolved@) ==> (r matches Err(
            CmdError::Invalid(m),
        ) && m@ == "root_file 不是 .tex 文件："@ + given@),
        path_starts_with(resolved@, project@) && tex_path(resolved@) ==> (r matches Ok(s) && s@
            == strip_verbatim_spec(resolved@)),
{
    if !path_starts_with_exec(resolved, project) {
        return Err(CmdError::Invalid(str_concat("root_file 在项目外：", given)));
    }
    let is_tex = match extension_exec(resolved) {
        Some(e) => tex_ignoring_case(&e),
        None => false,
    };
    if !is_tex {
        return Err(CmdError::Invalid(str_concat("root_file 不是 .tex 文件：", given)));
    }
    Ok(strip_verbatim(resolved))
}

/// The root file detection settles on: the single candidate, shown without
/// a verbatim prefix; none when there are several or none (the user
/// chooses).
pub fn detected_root(res: RootResolution) -> (r: Option<String>)
    ensures
        match res {
            RootResolution::Unique(p) => r matches Some(s) && s@ == strip_verbatim_spec(p@),
            _ => r is None,
        },
{
    match res {
        RootResolution::Unique(p) => Some(strip_verbatim(p.as_str())),
        _ => None,
    }
}

/// Texts joined with `sep` between them.
pub open spec fn joined_with(parts: Seq<Seq<char>>, sep: Seq<char>) -> Seq<char>
    decreases parts.len(),
{
    if parts.len() == 0 {
        Seq::empty()
    } else if parts.len() == 1 {
        parts[0]
    } else {
        joined_with(parts.drop_last(), sep) + sep + parts.last()
    }
}

/// Complaints joined with `；`, as one message.
pub fn join_complaints(parts: &Vec<String>) -> (r: String)
    ensures
        r@ == joined_with(string_views(parts@), "；"@),
{
    let sep = chars_of("；");
    let mut acc: Vec<char> = Vec::new();
    let mut i: usize = 0;
    while i < parts.len()
        invariant
            i <= parts.len(),
            sep@ == "；"@,
            acc@ == joined_with(string_views(parts@).take(i as int), "；"@),
        decreases parts.len() - i,
    {
        let p = chars_of(parts[i].as_str());
        proof {
            let vs = string_views(parts@);
            assert(vs.take(i + 1).drop_last() =~= vs.take(i as int));
            assert(vs.take(i + 1).last() == parts@[i as int]@);
        }
        if i == 0 {
            acc = p;
            assert(string_views(parts@).take(1) =~= seq![parts@[0]@]);
        } else {
            let with_sep = concat_chars(&acc, &sep);
            acc = concat_chars(&with_sep, &p);
        }
        i = i + 1;
    }
    assert(string_views(parts@).take(parts.len() as int) =~= string_views(parts@));
    string_of(&acc)
}

/// The overrides with the manual root file replaced.
pub open spec fn with_root_file(o: ProjectOverrides, root_file: Option<String>) -> ProjectOverrides {
    ProjectOverrides { schema_version: o.schema_version, compile: o.compile, root_file }
}

/// Setting (or, with `None`, clearing) the project's manual root file: the
/// new overrides when they pass [`validate_overrides`], else `Invalid` with
/// every complaint.
pub fn override_root_file(overrides: &ProjectOverrides, root_file: &Option<String>) -> (r: Result<ProjectOverrides, CmdError>)
    ensures
        ({
            let next = with_root_file(*overrides, *root_file);
            &&& overrides_problems(next).len() == 0 ==> r == Ok::<ProjectOverrides, CmdError>(next)
            &&& overrides_problems(next).len() > 0 ==> (r matches Err(CmdError::Invalid(m)) && m@
                == joined_with(overrides_problems(next), "；"@))
        }),
{
    let rf = match root_file {
        Some(f) => Some(f.clone()),
        None => None,
    };
    let next = ProjectOverrides { schema_version: overrides.schema_version, compile: overrides.compile, root_file: rf };
    match validate_overrides(&next) {
        Ok(()) => Ok(next),
        Err(errs) => Err(CmdError::Invalid(join_complaints(&errs))),
    }
}

/// The keys of a patch that belong to the global settings (all but the
/// root file, which belongs to the project).
pub open spec fn global_part(p: SettingsPatch) -> SettingsPatch {
    SettingsPatch { mode: p.mode, debounce_ms: p.debounce_ms, timeout_secs: p.timeout_secs, engine: p.engine, root_file: None }
}

/// Does the global part of a patch change anything.
pub open spec fn changes_global(p: SettingsPatch) -> bool {
    p.mode is Some || p.debounce_ms is Some || p.timeout_secs is Some || p.engine is Some
}

/// Applies the global part of a patch to the global settings. `Ok(false)`
/// when it changes nothing (nothing to save); `Ok(true)` when the patched
/// settings passed validation and replaced `global`; `Invalid` with every
/// complaint otherwise, `global` unchanged.
pub fn patch_global(global: &mut Settings, patch: &SettingsPatch) -> (r: Result<bool, CmdError>)
    ensures
        !changes_global(*patch) ==> r == Ok::<bool, CmdError>(false) && *final(global) == *old(global),
        changes_global(*patch) ==> ({
            let problems = settings_problems(patched(*old(global), global_part(*patch)));
            &&& problems.len() == 0 ==> r == Ok::<bool, CmdError>(true) && *final(global) == patched(
                *old(global),
                global_part(*patch),
            )
            &&& problems.len() > 0 ==> (r matches Err(CmdError::Invalid(m)) && m@ == joined_with(
                problems,
                "；"@,
            ) && *final(global) == *old(global))
        }),
{
    if patch.mode.is_none() && patch.debounce_ms.is_none() && patch.timeout_secs.is_none()
        && patch.engine.is_none() {
        return Ok(false);
    }
    let g = SettingsPatch {
        mode: patch.mode,
        debounce_ms: patch.debounce_ms,
        timeout_secs: patch.timeout_secs,
        engine: patch.engine,
        root_file: None,
    };
    match apply_patch(global, &g) {
        Ok(()) => Ok(true),
        Err(errs) => Err(CmdError::Invalid(join_complaints(&errs))),
    }
}

/// A manual compile: the request for the root file, or `Invalid` when the
/// root file is not settled.
pub fn manual_compile(ctx: ComposeContext<'_>) -> (r: Result<CompileRequest, CmdError>)
    ensures
        match manual_request(*ctx.project, *ctx.settings) {
            Some(req) => r == Ok::<CompileRequest, CmdError>(req),
            None => r matches Err(CmdError::Invalid(m)) && m@ == "未确定根文件，无法编译"@,
        },
{
    match compile_request_manual(ctx) {
        Some(req) => Ok(req),
        None => Err(CmdError::Invalid("未确定根文件，无法编译".to_string())),
    }
}

} // verus!
