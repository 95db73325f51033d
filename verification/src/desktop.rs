//! Decisions of the desktop shell that wraps the library: path shapes shown
//! to the user interface, the PDF and latexmk paths of a project, the
//! settings-file paths, which file changes matter, and the bookkeeping that
//! recognizes the shell's own settings writes.

use vstd::prelude::*;
use crate::path::{
    components, components_str, extension, file_name, file_stem, file_stem_exec, file_name_exec, is_sep,
    is_sep_char, keep_piece, kept, lemma_split_append_plain, plain, relative_components,
    relative_components_exec, render, render_exec, rooted, split_pieces_state,
};
use crate::project::model::ProjectState;
use crate::project::scan::{hidden_or_tmp, ignored, is_ignored, is_tree_excluded};
use crate::text::{
    chars_of, concat_chars, contains, has_infix_str, has_prefix_str, same_as_str, same_chars,
    starts_with, string_of, string_views, sub_chars, views,
};

verus! {

/// Error of a shell command: `{ code, message }` for the user interface.
#[derive(Debug, PartialEq, Eq)]
pub enum CmdError {
    NotFound(String),
    Invalid(String),
    Internal(String),
}

/// A command for the file watcher.
#[derive(Debug, PartialEq, Eq)]
pub enum WatchCommand {
    /// Watch another project root (`None`: stop watching a project).
    SetProjectRoot(Option<String>),
}

/// Windows `canonicalize` gives verbatim paths (`\\?\C:\...`, `\\?\UNC\...`);
/// the shell shows them without that prefix.
pub open spec fn strip_verbatim_spec(p: Seq<char>) -> Seq<char> {
    if starts_with(p, "\\\\?\\UNC\\"@) {
        "\\\\"@ + p.skip(8)
    } else if starts_with(p, "\\\\?\\"@) {
        p.skip(4)
    } else {
        p
    }
}

/// Removes a Windows verbatim prefix: `\\?\UNC\server\share` becomes
/// `\\server\share`, `\\?\C:\x` becomes `C:\x`; other paths are unchanged.
pub fn strip_verbatim(p: &str) -> (r: String)
    ensures
        r@ == strip_verbatim_spec(p@),
{
    let v = chars_of(p);
    if has_prefix_str(&v, "\\\\?\\UNC\\") {
        proof {
            reveal_strlit("\\\\?\\UNC\\");
        }
        let head = chars_of("\\\\");
        let rest = sub_chars(&v, 8, v.len());
        assert(rest@ =~= v@.skip(8));
        let all = concat_chars(&head, &rest);
        return string_of(&all);
    }
    if has_prefix_str(&v, "\\\\?\\") {
        proof {
            reveal_strlit("\\\\?\\");
        }
        let rest = sub_chars(&v, 4, v.len());
        assert(rest@ =~= v@.skip(4));
        return string_of(&rest);
    }
    string_of(&v)
}

/// The separator a join writes: `'\\'` for a base that only uses
/// backslashes (a Windows path), `'/'` otherwise.
pub open spec fn join_sep(base: Seq<char>) -> char {
    if contains(base, "\\"@) && !contains(base, "/"@) {
        '\\'
    } else {
        '/'
    }
}

/// `Path::join`: a rooted `name` replaces `base`; otherwise `name` follows
/// `base`, with a separator unless `base` is empty or ends with one.
pub open spec fn join(base: Seq<char>, name: Seq<char>) -> Seq<char> {
    if rooted(name) {
        name
    } else if base.len() == 0 || is_sep(base.last()) {
        base + name
    } else {
        base + seq![join_sep(base)] + name
    }
}

/// See [`join`].
pub fn join_exec(base: &Vec<char>, name: &Vec<char>) -> (r: Vec<char>)
    ensures
        r@ == join(base@, name@),
{
    if name.len() > 0 && is_sep_char(name[0]) {
        return sub_chars(name, 0, name.len());
    }
    assert(name@.subrange(0, name.len() as int) =~= name@);
    let n = base.len();
    if n == 0 || is_sep_char(base[n - 1]) {
        return concat_chars(base, name);
    }
    let sep = if has_infix_str(base, "\\") && !has_infix_str(base, "/") {
        '\\'
    } else {
        '/'
    };
    let mut b = sub_chars(base, 0, n);
    b.push(sep);
    assert(b@ =~= base@ + seq![join_sep(base@)]);
    concat_chars(&b, name)
}

proof fn lemma_kept_push(ps: Seq<Seq<char>>, x: Seq<char>, root: bool)
    ensures
        kept(ps.push(x), root) == if keep_piece(x, ps.len() as int, root) {
            kept(ps, root).push(x)
        } else {
            kept(ps, root)
        },
{
    assert(ps.push(x).drop_last() =~= ps);
    assert(ps.push(x).last() == x);
}

/// Joining a plain name (not `"."`) adds it as the last component.
pub proof fn lemma_components_join_name(base: Seq<char>, n: Seq<char>)
    requires
        n.len() > 0,
        n != seq!['.'],
        plain(n),
    ensures
        components(join(base, n)) == components(base).push(n),
{
    assert(!is_sep(n[0]));
    assert(!rooted(n));
    let (done, cur) = split_pieces_state(base);
    let empty = Seq::<char>::empty();
    if base.len() == 0 {
        assert(join(base, n) == base + n);
        assert(base + n =~= n);
        lemma_split_append_plain(base, n);
        assert(split_pieces_state(base) == (Seq::<Seq<char>>::empty(), empty));
        assert(split_pieces_state(n) == (Seq::<Seq<char>>::empty(), empty + n));
        assert(empty + n =~= n);
        lemma_kept_push(Seq::<Seq<char>>::empty(), n, false);
        lemma_kept_push(Seq::<Seq<char>>::empty(), empty, false);
        assert(components(base) =~= Seq::<Seq<char>>::empty());
        assert(components(n) =~= seq![n]);
    } else if is_sep(base.last()) {
        assert(join(base, n) == base + n);
        let (d0, c0) = split_pieces_state(base.drop_last());
        assert(done == d0.push(c0) && cur == empty);
        lemma_split_append_plain(base, n);
        assert(cur + n =~= n);
        assert((base + n)[0] == base[0]);
        assert(rooted(base + n) == rooted(base));
        lemma_kept_push(done, n, rooted(base));
        lemma_kept_push(done, empty, rooted(base));
        if rooted(base) {
            assert(seq![empty] + kept(done, rooted(base)).push(n) =~= (seq![empty] + kept(done, rooted(base))).push(n));
        }
    } else {
        let b2 = base.push(join_sep(base));
        assert(join(base, n) =~= b2 + n);
        assert(b2.drop_last() =~= base);
        assert(b2.last() == join_sep(base));
        assert(split_pieces_state(b2) == (done.push(cur), empty));
        lemma_split_append_plain(b2, n);
        assert(empty + n =~= n);
        assert((b2 + n)[0] == base[0]);
        assert(rooted(b2 + n) == rooted(base));
        lemma_kept_push(done.push(cur), n, rooted(base));
        if rooted(base) {
            assert(seq![empty] + kept(done.push(cur), rooted(base)).push(n) =~= (seq![empty] + kept(done.push(cur), rooted(base))).push(n));
        }
    }
}

/// `Path::join` on strings (see [`join`]).
pub fn join_path(base: &str, name: &str) -> (r: String)
    ensures
        r@ == join(base@, name@),
{
    let b = chars_of(base);
    let n = chars_of(name);
    let v = join_exec(&b, &n);
    string_of(&v)
}

/// The file stem of the root file, `main` when there is none.
pub open spec fn root_stem_spec(root_file: Seq<char>) -> Seq<char> {
    match file_stem(root_file) {
        Some(s) => s,
        None => "main"@,
    }
}

/// The stem of the root file (`C:\proj\main.tex` gives `main`), or `main`.
pub fn root_stem(root_file: &str) -> (r: String)
    ensures
        r@ == root_stem_spec(root_file@),
{
    match file_stem_exec(root_file) {
        Some(s) => string_of(&s),
        None => "main".to_string(),
    }
}

/// The project's PDF: `<root>/<stem>.pdf`, where the stem is the root
/// file's (`main` without a root file). Nested root files also put their
/// PDF at the project root.
pub open spec fn pdf_path_spec(project: ProjectState) -> Seq<char> {
    let stem = match project.root_file {
        Some(f) => root_stem_spec(f@),
        None => "main"@,
    };
    join(project.root@, stem + ".pdf"@)
}

/// The PDF that a compilation of the project produces (see [`pdf_path_spec`]).
pub fn pdf_path_for_root(project: &ProjectState) -> (r: String)
    ensures
        r@ == pdf_path_spec(*project),
{
    let stem = match &project.root_file {
        Some(f) => root_stem(f.as_str()),
        None => "main".to_string(),
    };
    let sc = chars_of(stem.as_str());
    let ext = chars_of(".pdf");
    let name = concat_chars(&sc, &ext);
    let root = chars_of(project.root.as_str());
    let all = join_exec(&root, &name);
    string_of(&all)
}

/// latexmk's input: the root file relative to the project root (the whole
/// path when it lies elsewhere), written with `'/'`. The text is rebuilt
/// from the components, so `.` pieces and doubled separators inside it are
/// not kept (the shell hands over resolved paths, which hold none).
pub open spec fn latexmk_input_spec(root_file: Seq<char>, project_root: Seq<char>) -> Seq<char> {
    render(relative_components(root_file, project_root))
}

/// The path latexmk is given: relative to the project root, so that nested
/// root files such as `css/thesis.tex` compile from the project root.
pub fn latexmk_input(root_file: &str, project_root: &str) -> (r: String)
    ensures
        r@ == latexmk_input_spec(root_file@, project_root@),
{
    let cs = relative_components_exec(root_file, project_root);
    let v = render_exec(&cs);
    string_of(&v)
}

/// A project's settings file: `<root>/.texpresso/settings.json`.
pub open spec fn project_overrides_path_spec(root: Seq<char>) -> Seq<char> {
    join(join(root, ".texpresso"@), "settings.json"@)
}

/// The path of a project's override file.
pub fn project_overrides_path(project_root: &str) -> (r: String)
    ensures
        r@ == project_overrides_path_spec(project_root@),
{
    let root = chars_of(project_root);
    let dir = chars_of(".texpresso");
    let file = chars_of("settings.json");
    let d = join_exec(&root, &dir);
    let f = join_exec(&d, &file);
    string_of(&f)
}

/// Two paths name the same place when their components agree.
pub open spec fn same_path(a: Seq<char>, b: Seq<char>) -> bool {
    components(a) == components(b)
}

/// Do two paths name the same place.
pub fn same_path_exec(a: &str, b: &str) -> (r: bool)
    ensures
        r == same_path(a@, b@),
{
    let ca = components_str(a);
    let cb = components_str(b);
    if ca.len() != cb.len() {
        assert(views(ca@).len() != views(cb@).len());
        return false;
    }
    let mut i: usize = 0;
    while i < ca.len()
        invariant
            i <= ca.len() == cb.len(),
            views(ca@) == components(a@),
            views(cb@) == components(b@),
            forall|k: int| 0 <= k < i ==> ca@[k]@ == cb@[k]@,
        decreases ca.len() - i,
    {
        if !same_chars(&ca[i], &cb[i]) {
            assert(views(ca@)[i as int] != views(cb@)[i as int]);
            return false;
        }
        i = i + 1;
    }
    assert(views(ca@) =~= views(cb@));
    true
}

/// A settings file: named `settings.json` and either the global file or the
/// open project's override file.
pub open spec fn is_settings_path_spec(path: Seq<char>, global: Seq<char>, project_root: Option<Seq<char>>) -> bool {
    &&& file_name(path) == Some("settings.json"@)
    &&& (same_path(path, global) || match project_root {
        Some(root) => same_path(path, project_overrides_path_spec(root)),
        None => false,
    })
}

/// Is `path` one of the settings files being watched.
pub fn is_settings_path(path: &str, global: &str, project_root: Option<&str>) -> (r: bool)
    ensures
        r == is_settings_path_spec(path@, global@, match project_root {
            Some(p) => Some(p@),
            None => None,
        }),
{
    let named = match file_name_exec(path) {
        Some(n) => same_as_str(&n, "settings.json"),
        None => false,
    };
    if !named {
        return false;
    }
    if same_path_exec(path, global) {
        return true;
    }
    match project_root {
        Some(root) => {
            let o = project_overrides_path(root);
            same_path_exec(path, o.as_str())
        },
        None => false,
    }
}

/// What a changed path asks of the shell.
#[derive(Debug, Clone, Copy, PartialEq, Eq, Structural)]
pub enum ChangeRoute {
    /// A settings file: reload and broadcast.
    Settings,
    /// Nothing to do.
    Ignore,
    /// A path the file tree shows: the tree is refreshed, and a `.tex`
    /// file (`compile`) also asks for a compilation.
    Project { compile: bool },
}

/// Routing of a changed path: settings files first; outside a project
/// nothing; below the root, hidden and `tmp` paths nothing; any other path
/// refreshes the file tree (every extension, directories too), and a `.tex`
/// file also compiles.
pub open spec fn route_spec(path: Seq<char>, global: Seq<char>, project_root: Option<Seq<char>>) -> ChangeRoute {
    if is_settings_path_spec(path, global, project_root) {
        ChangeRoute::Settings
    } else {
        match project_root {
            None => ChangeRoute::Ignore,
            Some(root) => if hidden_or_tmp(path, root) {
                ChangeRoute::Ignore
            } else {
                ChangeRoute::Project { compile: extension(path) == Some("tex"@) }
            },
        }
    }
}

/// Decides what a changed path asks of the shell (see [`route_spec`]).
pub fn route_change(path: &str, global: &str, project_root: Option<&str>) -> (r: ChangeRoute)
    ensures
        r == route_spec(path@, global@, match project_root {
            Some(p) => Some(p@),
            None => None,
        }),
{
    if is_settings_path(path, global, project_root) {
        return ChangeRoute::Settings;
    }
    match project_root {
        None => ChangeRoute::Ignore,
        Some(root) => {
            if is_tree_excluded(path, root) {
                ChangeRoute::Ignore
            } else {
                ChangeRoute::Project { compile: !is_ignored(path, root) }
            }
        },
    }
}

/// The paths a watcher event stands for: a rename reported with both names
/// stands for its new name (the last path); any other event for all its
/// paths.
pub open spec fn event_paths_spec(rename_both: bool, paths: Seq<Seq<char>>) -> Seq<Seq<char>> {
    if rename_both {
        if paths.len() > 0 {
            seq![paths.last()]
        } else {
            Seq::empty()
        }
    } else {
        paths
    }
}

/// The changed paths of a watcher event (see [`event_paths_spec`]).
pub fn event_paths(rename_both: bool, paths: Vec<String>) -> (r: Vec<String>)
    ensures
        string_views(r@) == event_paths_spec(rename_both, string_views(paths@)),
{
    if rename_both {
        let mut out: Vec<String> = Vec::new();
        let n = paths.len();
        if n > 0 {
            out.push(paths[n - 1].clone());
        }
        assert(string_views(out@) =~= event_paths_spec(rename_both, string_views(paths@)));
        out
    } else {
        paths
    }
}

/// What a watcher command asks to stop and to start watching: the current
/// project root is always let go; a new root is watched recursively.
pub struct WatchPlan {
    pub unwatch: Option<String>,
    pub watch: Option<String>,
}

/// The plan for `cmd` while `current` is watched.
pub fn watch_plan(current: &Option<String>, cmd: &WatchCommand) -> (p: WatchPlan)
    ensures
        p.unwatch == *current,
        match *cmd {
            WatchCommand::SetProjectRoot(r) => p.watch == r,
        },
{
    let unwatch = match current {
        Some(c) => Some(c.clone()),
        None => None,
    };
    match cmd {
        WatchCommand::SetProjectRoot(Some(r)) => WatchPlan { unwatch, watch: Some(r.clone()) },
        WatchCommand::SetProjectRoot(None) => WatchPlan { unwatch, watch: None },
    }
}

/// The watched project root after `cmd`: a new root once watching it
/// succeeded (else the old value stays); none after closing.
pub fn root_after(current: Option<String>, cmd: WatchCommand, watched: bool) -> (r: Option<String>)
    ensures
        match cmd {
            WatchCommand::SetProjectRoot(Some(root)) => r == if watched {
                Some(root)
            } else {
                current
            },
            WatchCommand::SetProjectRoot(None) => r is None,
        },
{
    match cmd {
        WatchCommand::SetProjectRoot(Some(root)) => {
            if watched {
                Some(root)
            } else {
                current
            }
        },
        WatchCommand::SetProjectRoot(None) => None,
    }
}

} // verus!
