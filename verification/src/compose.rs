//! Turning a file change into a compile request. The scheduler only knows
//! requests; each request is a snapshot of the project and the settings.

use vstd::prelude::*;
use crate::path::{path_starts_with, path_starts_with_exec};
use crate::project::model::ProjectState;
use crate::project::scan::{ignored, is_ignored};
use crate::settings::model::Settings;
use crate::types::CompileRequest;

verus! {

/// What building a request reads.
#[derive(Clone, Copy)]
pub struct ComposeContext<'a> {
    pub project: &'a ProjectState,
    pub settings: &'a Settings,
}

/// The request for the project's root file, with the engine and time limit
/// the settings hold now.
pub open spec fn request_for(project: ProjectState, settings: Settings, root_file: String) -> CompileRequest {
    CompileRequest {
        root_file,
        project_root: project.root,
        engine: settings.compile.engine,
        timeout_secs: settings.compile.timeout_secs,
    }
}

/// The manual request: present exactly when a root file is known.
pub open spec fn manual_request(project: ProjectState, settings: Settings) -> Option<CompileRequest> {
    match project.root_file {
        Some(rf) => Some(request_for(project, settings, rf)),
        None => None,
    }
}

/// The request for a changed path: a root file is known, the path lies in
/// the project, and it is not ignored (`tmp/`, hidden, not `.tex`).
pub open spec fn change_request(project: ProjectState, settings: Settings, changed: Seq<char>) -> Option<CompileRequest> {
    if project.root_file is Some && path_starts_with(changed, project.root@) && !ignored(
        changed,
        project.root@,
    ) {
        manual_request(project, settings)
    } else {
        None
    }
}

fn build(ctx: ComposeContext<'_>) -> (r: Option<CompileRequest>)
    ensures
        r == manual_request(*ctx.project, *ctx.settings),
{
    match &ctx.project.root_file {
        Some(rf) => Some(
            CompileRequest {
                root_file: rf.clone(),
                project_root: ctx.project.root.clone(),
                engine: ctx.settings.compile.engine,
                timeout_secs: ctx.settings.compile.timeout_secs,
            },
        ),
        None => None,
    }
}

/// A file change becomes a compile request, or `None` when it must not
/// trigger one (no root file yet, outside the project, or ignored).
pub fn compile_request_for_change(ctx: ComposeContext<'_>, changed: &str) -> (r: Option<CompileRequest>)
    ensures
        r == change_request(*ctx.project, *ctx.settings, changed@),
{
    if ctx.project.root_file.is_none() {
        return None;
    }
    if !path_starts_with_exec(changed, ctx.project.root.as_str()) {
        return None;
    }
    if is_ignored(changed, ctx.project.root.as_str()) {
        return None;
    }
    build(ctx)
}

/// The manual ("compile now") request: like a change, without looking at
/// any changed path.
pub fn compile_request_manual(ctx: ComposeContext<'_>) -> (r: Option<CompileRequest>)
    ensures
        r == manual_request(*ctx.project, *ctx.settings),
{
    build(ctx)
}

/// Every trigger source ends in the same request: a change that triggers
/// compiles exactly what a manual compile would.
pub proof fn lemma_change_request_is_manual(project: ProjectState, settings: Settings, changed: Seq<char>)
    ensures
        change_request(project, settings, changed) is Some ==> change_request(project, settings, changed)
            == manual_request(project, settings),
        change_request(project, settings, changed) is Some ==> (manual_request(project, settings) matches Some(r) && r.root_file == project.root_file->0 && r.project_root == project.root),
{
}

} // verus!
