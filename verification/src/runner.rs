//! What a latexmk run is given and what it ends with. Starting the process,
//! the time limit, killing the process tree and copying files are the
//! caller's work; here are the command line, the paths of the artifacts and
//! the outcome of each way a run can end.
//!
//! Intermediate files go to `tmp/` below the project root (the directory
//! the ignore rules leave out); the PDF is then copied to the project root.

use vstd::prelude::*;
use crate::desktop::{
    join, join_path, latexmk_input, route_spec, ChangeRoute, latexmk_input_spec, lemma_components_join_name, pdf_path_spec, root_stem, root_stem_spec,
};
use crate::path::{components, extension, file_name, is_sep, last_dot, lemma_components_plain, lemma_last_dot_bounds, plain, relative_components, path_starts_with};
use crate::compose::change_request;
use crate::project::model::ProjectState;
use crate::settings::model::Settings;
use crate::project::scan::{hidden_or_tmp, hidden_or_tmp_name, ignored};
use crate::log_parser::model::LogMessageView;
use crate::log_parser::scan::{parse_log, parse_log_spec};
use crate::text::{str_concat, string_views};
use crate::types::{latexmk_flag_spec, CompileOutcome, CompileRequest, ErrorEntry, ErrorKind};

verus! {

/// latexmk's arguments: the engine switch, `tmp/` as output directory,
/// SyncTeX on, no interaction, and the root file relative to the project
/// root (the working directory).
pub open spec fn latexmk_args_spec(req: CompileRequest) -> Seq<Seq<char>> {
    seq![
        latexmk_flag_spec(req.engine),
        "-outdir=tmp"@,
        "-synctex=1"@,
        "-interaction=nonstopmode"@,
        latexmk_input_spec(req.root_file@, req.project_root@),
    ]
}

/// The arguments latexmk is started with (see [`latexmk_args_spec`]).
pub fn latexmk_args(req: &CompileRequest) -> (r: Vec<String>)
    ensures
        string_views(r@) == latexmk_args_spec(*req),
{
    let mut r: Vec<String> = Vec::new();
    r.push(req.engine.latexmk_flag().to_string());
    r.push("-outdir=tmp".to_string());
    r.push("-synctex=1".to_string());
    r.push("-interaction=nonstopmode".to_string());
    r.push(latexmk_input(req.root_file.as_str(), req.project_root.as_str()));
    assert(string_views(r@) =~= latexmk_args_spec(*req));
    r
}

/// Where a run puts its files.
#[derive(Debug, PartialEq, Eq)]
pub struct CompilePaths {
    /// `<root>/tmp`, latexmk's output directory.
    pub tmp_dir: String,
    /// `<root>/tmp/<stem>.pdf`, the PDF latexmk writes.
    pub pdf_src: String,
    /// `<root>/<stem>.pdf`, where the PDF is shown from.
    pub pdf_dst: String,
    /// `<root>/<stem>.pdf.tmp`, the copy renamed over `pdf_dst`, so that a
    /// failed copy leaves the previous PDF whole.
    pub pdf_tmp: String,
    /// `<root>/tmp/<stem>.log`, read when latexmk fails.
    pub log_path: String,
}

/// The output directory of a project.
pub open spec fn tmp_dir_spec(root: Seq<char>) -> Seq<char> {
    join(root, "tmp"@)
}

/// The output directory of the project at `project_root`, where latexmk
/// writes its intermediate files and the SyncTeX data.
pub fn output_dir(project_root: &str) -> (r: String)
    ensures
        r@ == tmp_dir_spec(project_root@),
{
    join_path(project_root, "tmp")
}

/// The paths of a run, `<stem>` being the root file's stem.
pub open spec fn compile_paths_ok(req: CompileRequest, p: CompilePaths) -> bool {
    let stem = root_stem_spec(req.root_file@);
    let root = req.project_root@;
    &&& p.tmp_dir@ == tmp_dir_spec(root)
    &&& p.pdf_src@ == join(tmp_dir_spec(root), stem + ".pdf"@)
    &&& p.pdf_dst@ == join(root, stem + ".pdf"@)
    &&& p.pdf_tmp@ == join(root, stem + ".pdf.tmp"@)
    &&& p.log_path@ == join(tmp_dir_spec(root), stem + ".log"@)
}

/// The paths of a run of `req` (see [`compile_paths_ok`]).
pub fn compile_paths(req: &CompileRequest) -> (p: CompilePaths)
    ensures
        compile_paths_ok(*req, p),
{
    let stem = root_stem(req.root_file.as_str());
    let root = req.project_root.as_str();
    let tmp_dir = join_path(root, "tmp");
    let pdf_name = str_concat(stem.as_str(), ".pdf");
    let tmp_name = str_concat(stem.as_str(), ".pdf.tmp");
    let log_name = str_concat(stem.as_str(), ".log");
    let pdf_src = join_path(tmp_dir.as_str(), pdf_name.as_str());
    let pdf_dst = join_path(root, pdf_name.as_str());
    let pdf_tmp = join_path(root, tmp_name.as_str());
    let log_path = join_path(tmp_dir.as_str(), log_name.as_str());
    CompilePaths { tmp_dir, pdf_src, pdf_dst, pdf_tmp, log_path }
}

/// The PDF a run copies to the project root is the project's PDF, the one
/// the viewer and SyncTeX open.
pub proof fn lemma_run_pdf_is_project_pdf(req: CompileRequest, p: CompilePaths)
    requires
        compile_paths_ok(req, p),
    ensures
        p.pdf_dst@ == pdf_path_spec(
            ProjectState { root: req.project_root, root_file: Some(req.root_file) },
        ),
{
}

proof fn lemma_stem_plain(root_file: Seq<char>)
    ensures
        root_stem_spec(root_file).len() > 0,
        plain(root_stem_spec(root_file)),
{
    reveal_strlit("main");
    lemma_components_plain(root_file);
    let cs = components(root_file);
    if let Some(name) = file_name(root_file) {
        assert(name == cs[cs.len() - 1]);
        let k = last_dot(name);
        lemma_last_dot_bounds(name);
        if k > 0 {
            assert forall|i: int| 0 <= i < name.take(k).len() implies !is_sep(#[trigger] name.take(k)[i]) by {
                assert(name.take(k)[i] == name[i]);
            }
        }
    }
}

proof fn lemma_suffixed_name(stem: Seq<char>, suffix: Seq<char>)
    requires
        stem.len() > 0,
        plain(stem),
        suffix.len() > 0,
        plain(suffix),
    ensures
        plain(stem + suffix),
        stem + suffix != seq!['.'],
        (stem + suffix).len() > 0,
{
    assert forall|i: int| 0 <= i < (stem + suffix).len() implies !is_sep(#[trigger] (stem + suffix)[i]) by {
        if i < stem.len() {
            assert((stem + suffix)[i] == stem[i]);
        } else {
            assert((stem + suffix)[i] == suffix[i - stem.len()]);
        }
    }
    assert((stem + suffix).len() > 1);
}

/// `name` (not `..`) is the last component of `path`, and does not end
/// in `x`: then `path` has no `.tex` extension.
proof fn lemma_not_tex(path: Seq<char>, name: Seq<char>)
    requires
        components(path).len() > 0,
        components(path).last() == name,
        name.len() > 1,
        name != seq!['.', '.'],
        name.last() != 'x',
    ensures
        extension(path) != Some("tex"@),
{
    reveal_strlit("tex");
    if let Some(e) = extension(path) {
        assert(file_name(path) == Some(name));
        if e == "tex"@ {
            let k = last_dot(name);
            lemma_last_dot_bounds(name);
            assert(e == name.skip(k + 1));
            assert(e[2] == name[name.len() - 1]);
        }
    }
}

/// A last component that does not end in `n` is not `settings.json`.
proof fn lemma_not_settings(path: Seq<char>, name: Seq<char>)
    requires
        components(path).len() > 0,
        components(path).last() == name,
        name.len() > 0,
        name.last() != 'n',
    ensures
        file_name(path) != Some("settings.json"@),
{
    reveal_strlit("settings.json");
    if file_name(path) == Some("settings.json"@) {
        assert(name == "settings.json"@);
        assert(name[name.len() - 1] == 'n');
    }
}

/// Where `path`'s components are `root`'s and then `first` and the rest,
/// with `first` hidden or `tmp`, `path` is hidden below `root`.
proof fn lemma_hidden_below(path: Seq<char>, root: Seq<char>, rest: Seq<Seq<char>>)
    requires
        components(path) == components(root) + rest,
        rest.len() > 0,
        hidden_or_tmp_name(rest[0]),
    ensures
        hidden_or_tmp(path, root),
{
    let cr = components(root);
    assert((cr + rest).take(cr.len() as int) =~= cr);
    assert(path_starts_with(path, root));
    let rel = relative_components(path, root);
    assert(rel =~= rest);
    assert(hidden_or_tmp_name(rel[0]));
}

/// latexmk's own files never trigger a compilation: the output directory
/// and what latexmk writes in it lie under `tmp/`, so the watcher routes
/// their changes nowhere; the copied PDF and its temporary copy are not
/// `.tex` files, so at most the file tree is refreshed for them; none of
/// them is taken for a settings file or becomes a compile request.
pub proof fn lemma_artifacts_are_ignored(
    req: CompileRequest,
    p: CompilePaths,
    global: Seq<char>,
    project: ProjectState,
    settings: Settings,
)
    requires
        compile_paths_ok(req, p),
        project.root == req.project_root,
    ensures
        change_request(project, settings, p.pdf_src@) is None,
        change_request(project, settings, p.log_path@) is None,
        change_request(project, settings, p.pdf_dst@) is None,
        change_request(project, settings, p.pdf_tmp@) is None,
        route_spec(p.tmp_dir@, global, Some(req.project_root@)) == ChangeRoute::Ignore,
        route_spec(p.pdf_src@, global, Some(req.project_root@)) == ChangeRoute::Ignore,
        route_spec(p.log_path@, global, Some(req.project_root@)) == ChangeRoute::Ignore,
        route_spec(p.pdf_dst@, global, Some(req.project_root@)) != (ChangeRoute::Project { compile: true }),
        route_spec(p.pdf_dst@, global, Some(req.project_root@)) != ChangeRoute::Settings,
        route_spec(p.pdf_tmp@, global, Some(req.project_root@)) != (ChangeRoute::Project { compile: true }),
        route_spec(p.pdf_tmp@, global, Some(req.project_root@)) != ChangeRoute::Settings,
        hidden_or_tmp(p.tmp_dir@, req.project_root@),
        hidden_or_tmp(p.pdf_src@, req.project_root@),
        hidden_or_tmp(p.log_path@, req.project_root@),
        ignored(p.pdf_src@, req.project_root@),
        ignored(p.log_path@, req.project_root@),
        ignored(p.pdf_dst@, req.project_root@),
        ignored(p.pdf_tmp@, req.project_root@),
{
    reveal_strlit("tmp");
    reveal_strlit(".pdf");
    reveal_strlit(".log");
    reveal_strlit(".pdf.tmp");
    let root = req.project_root@;
    let stem = root_stem_spec(req.root_file@);
    lemma_stem_plain(req.root_file@);
    let t = "tmp"@;
    assert(plain(t));
    assert(t != seq!['.']);
    let pdf = stem + ".pdf"@;
    let log = stem + ".log"@;
    let tmpf = stem + ".pdf.tmp"@;
    lemma_suffixed_name(stem, ".pdf"@);
    lemma_suffixed_name(stem, ".log"@);
    lemma_suffixed_name(stem, ".pdf.tmp"@);
    let cr = components(root);
    lemma_components_join_name(root, t);
    assert(components(p.tmp_dir@) == cr + seq![t]);
    lemma_hidden_below(p.tmp_dir@, root, seq![t]);
    lemma_components_join_name(tmp_dir_spec(root), pdf);
    assert(components(p.pdf_src@) == cr + seq![t, pdf]);
    lemma_hidden_below(p.pdf_src@, root, seq![t, pdf]);
    lemma_components_join_name(tmp_dir_spec(root), log);
    assert(components(p.log_path@) == cr + seq![t, log]);
    lemma_hidden_below(p.log_path@, root, seq![t, log]);
    lemma_components_join_name(root, pdf);
    assert(pdf.last() == 'f');
    lemma_not_tex(p.pdf_dst@, pdf);
    lemma_components_join_name(root, tmpf);
    assert(tmpf.last() == 'p');
    lemma_not_tex(p.pdf_tmp@, tmpf);
    assert(t.last() == 'p');
    assert(log.last() == 'g');
    lemma_not_settings(p.tmp_dir@, t);
    lemma_not_settings(p.pdf_src@, pdf);
    lemma_not_settings(p.log_path@, log);
    lemma_not_settings(p.pdf_dst@, pdf);
    lemma_not_settings(p.pdf_tmp@, tmpf);
}

/// How a run ended, as the caller saw it.
#[derive(Debug, PartialEq, Eq)]
pub enum RunEnd {
    /// latexmk could not be started; the system's reason.
    SpawnFailed(String),
    /// The time limit passed (the process tree was killed).
    TimedOut,
    /// Cancelled on request (the process tree was killed).
    Cancelled,
    /// Waiting for latexmk failed; the system's reason.
    WaitFailed(String),
    /// latexmk succeeded; the result of copying the PDF to the project root.
    Succeeded { copy: Result<(), String> },
    /// latexmk failed; the text of its log, or why it could not be read.
    Failed { log: Result<String, String> },
}

/// `e` is the error entry of log message `m`.
pub open spec fn entry_of_message(e: ErrorEntry, m: LogMessageView) -> bool {
    &&& e.message@ == m.message
    &&& e.file matches Some(f) ==> m.file == Some(f@)
    &&& e.file is None ==> m.file is None
    &&& e.line == m.line
    &&& e.kind == ErrorKind::ContentError
}

/// `es` are the error entries of the messages of the log `text`, in order.
pub open spec fn entries_of_log(es: Seq<ErrorEntry>, text: Seq<char>) -> bool {
    &&& es.len() == parse_log_spec(text).len()
    &&& forall|i: int| 0 <= i < es.len() ==> entry_of_message(#[trigger] es[i], parse_log_spec(text)[i])
}

/// The error list of a failed run: every message of the log (errors and
/// warnings) as a content error.
pub fn errors_from_log(text: &str) -> (r: Vec<ErrorEntry>)
    ensures
        entries_of_log(r@, text@),
{
    let msgs = parse_log(text);
    let ghost mv = parse_log_spec(text@);
    let mut r: Vec<ErrorEntry> = Vec::new();
    let mut i: usize = 0;
    while i < msgs.len()
        invariant
            i <= msgs.len(),
            mv == parse_log_spec(text@),
            mv.len() == msgs@.len(),
            forall|k: int| 0 <= k < msgs@.len() ==> mv[k] == #[trigger] msgs@[k]@,
            r@.len() == i,
            forall|k: int| 0 <= k < i ==> entry_of_message(#[trigger] r@[k], mv[k]),
        decreases msgs.len() - i,
    {
        let m = &msgs[i];
        assert(mv[i as int] == msgs@[i as int]@);
        let file = match &m.file {
            Some(f) => Some(f.clone()),
            None => None,
        };
        r.push(ErrorEntry { message: m.message.clone(), file, line: m.line, kind: ErrorKind::ContentError });
        i = i + 1;
    }
    r
}

/// The outcome of each way a run can end.
pub open spec fn run_outcome_ok(end: RunEnd, paths: CompilePaths, o: CompileOutcome) -> bool {
    match end {
        RunEnd::SpawnFailed(e) => o matches CompileOutcome::IoError { message }
            && message@ == "无法启动 latexmk（TeX Live 未安装？）："@ + e@,
        RunEnd::TimedOut => o is Timeout,
        RunEnd::Cancelled => o is Aborted,
        RunEnd::WaitFailed(e) => o matches CompileOutcome::IoError { message }
            && message@ == "等待 latexmk 失败："@ + e@,
        RunEnd::Succeeded { copy } => match copy {
            Ok(_) => o matches CompileOutcome::Success { pdf_path } && pdf_path@ == paths.pdf_dst@,
            Err(e) => o matches CompileOutcome::IoError { message } && message@ == "PDF 拷贝失败（"@
                + paths.pdf_src@ + " → "@ + paths.pdf_dst@ + "）："@ + e@,
        },
        RunEnd::Failed { log } => match log {
            Ok(text) => o matches CompileOutcome::ContentError { errors } && entries_of_log(
                errors@,
                text@,
            ),
            Err(e) => o matches CompileOutcome::IoError { message } && message@
                == "编译失败且无法读取日志（"@ + paths.log_path@ + "）："@ + e@,
        },
    }
}

/// What the run reports to the scheduler (see [`run_outcome_ok`]): a
/// successful run whose PDF was copied is a success at `pdf_dst`; a failed
/// run reports the messages of its log.
pub fn run_outcome(end: RunEnd, paths: &CompilePaths) -> (o: CompileOutcome)
    ensures
        run_outcome_ok(end, *paths, o),
{
    match end {
        RunEnd::SpawnFailed(e) => CompileOutcome::IoError {
            message: str_concat("无法启动 latexmk（TeX Live 未安装？）：", e.as_str()),
        },
        RunEnd::TimedOut => CompileOutcome::Timeout,
        RunEnd::Cancelled => CompileOutcome::Aborted,
        RunEnd::WaitFailed(e) => CompileOutcome::IoError {
            message: str_concat("等待 latexmk 失败：", e.as_str()),
        },
        RunEnd::Succeeded { copy } => match copy {
            Ok(()) => CompileOutcome::Success { pdf_path: paths.pdf_dst.clone() },
            Err(e) => {
                let a = str_concat("PDF 拷贝失败（", paths.pdf_src.as_str());
                let b = str_concat(a.as_str(), " → ");
                let c = str_concat(b.as_str(), paths.pdf_dst.as_str());
                let d = str_concat(c.as_str(), "）：");
                CompileOutcome::IoError { message: str_concat(d.as_str(), e.as_str()) }
            },
        },
        RunEnd::Failed { log } => match log {
            Ok(text) => CompileOutcome::ContentError { errors: errors_from_log(text.as_str()) },
            Err(e) => {
                let a = str_concat("编译失败且无法读取日志（", paths.log_path.as_str());
                let b = str_concat(a.as_str(), "）：");
                CompileOutcome::IoError { message: str_concat(b.as_str(), e.as_str()) }
            },
        },
    }
}

} // verus!
