use texpresso_core::project::{
    extract_documentclass, extract_includes, find_candidates, is_hidden_or_tmp, is_ignored,
    is_tree_excluded, resolve, FakeFS, FsError, RootResolution, TexCollector, TreeCollector,
};
use texpresso_core::project::DirEntry;

const ROOT: &str = "proj";

/// Drives the `.tex` walk over an in-memory file system.
fn collect(fs: &FakeFS, root: &str) -> Result<Vec<String>, FsError> {
    let mut c = TexCollector::new(root);
    while let Some(dir) = c.next_dir() {
        let entries = fs.read_dir(&dir)?;
        c.absorb(entries);
    }
    Ok(c.finish())
}

fn fs_with(files: &[(&str, &str)]) -> FakeFS {
    let mut fs = FakeFS::new();
    for (path, content) in files {
        fs.put_file(path, content);
    }
    fs
}

fn detect(fs: &FakeFS, root: &str) -> RootResolution {
    let files = collect(fs, root).unwrap();
    let contents: Vec<Option<String>> = files.iter().map(|p| fs.file(p).map(str::to_owned)).collect();
    resolve(find_candidates(&files, root, &contents))
}

// ---- ignore rules ----

#[test]
fn tmp_dir_ignored() {
    assert!(is_ignored("proj/tmp/main.aux", ROOT));
    assert!(is_ignored("proj/tmp/main.tex", ROOT));
    assert!(is_hidden_or_tmp("proj/tmp/x", ROOT));
}

#[test]
fn hidden_entries_ignored() {
    assert!(is_ignored("proj/.git/config", ROOT));
    assert!(is_ignored("proj/.texpresso/settings.json", ROOT));
    assert!(is_hidden_or_tmp("proj/.git", ROOT));
}

#[test]
fn non_tex_ignored_for_compile_but_not_for_tree() {
    assert!(is_ignored("proj/notes.md", ROOT));
    assert!(!is_tree_excluded("proj/notes.md", ROOT));
    assert!(!is_ignored("proj/main.tex", ROOT));
}

#[test]
fn hidden_parent_before_root_not_ignored() {
    let root = "/home/u/.projects/foo";
    assert!(!is_hidden_or_tmp("/home/u/.projects/foo/main.tex", root));
    assert!(is_hidden_or_tmp("/home/u/.projects/foo/.git", root));
}

#[test]
fn single_dot_is_not_hidden_and_tmp_must_match_whole_name() {
    assert!(!is_hidden_or_tmp("proj/./main.tex", ROOT));
    assert!(!is_hidden_or_tmp("proj/tmpdir/main.tex", ROOT));
    assert!(is_hidden_or_tmp("proj/a/tmp", ROOT));
}

#[test]
fn path_outside_root_is_judged_whole() {
    // Not under the root: every component counts.
    assert!(is_hidden_or_tmp("/home/u/.projects/foo/main.tex", "other"));
    assert!(is_ignored("/x/main.TEX", "/x"));
}

// ---- the walk ----

#[test]
fn collect_tex_files_dfs_with_filters() {
    let mut fs = FakeFS::new();
    fs.put_file("proj/main.tex", "\\documentclass{article}");
    fs.put_file("proj/chapters/intro.tex", "intro");
    fs.put_file("proj/chapters/deep/extra.tex", "extra");
    fs.put_file("proj/tmp/main.aux", "aux");
    fs.put_file("proj/tmp/main.tex", "tmp tex");
    fs.put_file("proj/.git/HEAD", "ref");
    fs.put_file("proj/notes.md", "md");

    let files = collect(&fs, "proj").unwrap();
    assert_eq!(files, vec!["proj/chapters/deep/extra.tex", "proj/chapters/intro.tex", "proj/main.tex"]);
}

#[test]
fn collect_tex_files_missing_root_errors() {
    let fs = FakeFS::new();
    let result = collect(&fs, "nope");
    assert!(result.is_err());
}

#[test]
fn missing_root_error_says_the_directory_is_missing() {
    let fs = FakeFS::new();
    assert_eq!(collect(&fs, "nope"), Err(FsError::NotFound("目录不存在".to_string())));
}

#[test]
fn tree_listing_shows_every_extension_but_hides_tmp_and_hidden() {
    let mut fs = FakeFS::new();
    fs.put_file("proj/main.tex", "x");
    fs.put_file("proj/notes.md", "y");
    fs.put_file("proj/img/a.png", "z");
    fs.put_file("proj/tmp/main.aux", "aux");
    fs.put_file("proj/.git/HEAD", "ref");

    let mut c = TreeCollector::new("proj", "proj");
    let mut reads = 0;
    while let Some(dir) = c.next_dir() {
        c.absorb(fs.read_dir(&dir).unwrap());
        reads += 1;
    }
    assert_eq!(reads, 2);
    let mut listed: Vec<(String, String, bool)> =
        c.finish().into_iter().map(|e| (e.name, e.path, e.is_dir)).collect();
    listed.sort();
    assert_eq!(
        listed,
        vec![
            ("a.png".to_string(), "proj/img/a.png".to_string(), false),
            ("img".to_string(), "proj/img".to_string(), true),
            ("main.tex".to_string(), "proj/main.tex".to_string(), false),
            ("notes.md".to_string(), "proj/notes.md".to_string(), false),
        ]
    );
}

// ---- the in-memory file system ----

#[test]
fn fake_fs_lists_children_sorted_with_kinds() {
    let mut fs = FakeFS::new();
    fs.put_file("proj/b.tex", "b");
    fs.put_file("proj/a/x.tex", "x");
    fs.put_dir("proj/empty");
    assert_eq!(
        fs.read_dir("proj").unwrap(),
        vec![
            DirEntry { path: "proj/a".to_string(), is_dir: true },
            DirEntry { path: "proj/b.tex".to_string(), is_dir: false },
            DirEntry { path: "proj/empty".to_string(), is_dir: true },
        ]
    );
    assert_eq!(fs.read_dir("proj/empty").unwrap(), vec![]);
    assert_eq!(fs.read_to_string("proj/a/x.tex").unwrap(), "x");
    assert!(fs.read_to_string("proj/a").is_err());
    assert_eq!(fs.file("proj/b.tex"), Some("b"));
    assert_eq!(fs.file("proj/c.tex"), None);
}

#[test]
fn fake_fs_lists_a_directory_before_a_file_of_the_same_path() {
    let mut fs = FakeFS::new();
    fs.put_file("proj/x", "file");
    fs.put_dir("proj/x");
    fs.put_file("proj/a.tex", "a");
    assert_eq!(
        fs.read_dir("proj").unwrap(),
        vec![
            DirEntry { path: "proj/a.tex".to_string(), is_dir: false },
            DirEntry { path: "proj/x".to_string(), is_dir: true },
            DirEntry { path: "proj/x".to_string(), is_dir: false },
        ]
    );
}

#[test]
fn fake_fs_put_file_replaces_content() {
    let mut fs = FakeFS::new();
    fs.put_file("proj/a.tex", "one");
    fs.put_file("proj/a.tex", "two");
    assert_eq!(fs.file("proj/a.tex"), Some("two"));
    assert_eq!(fs.read_dir("proj").unwrap().len(), 1);
}

// ---- root detection ----

#[test]
fn extract_includes_basic() {
    let content = "\\input{chapters/intro}\n\\include{chapters/methods.tex}\n正文 \\input{ appendix }";
    assert_eq!(extract_includes(content), vec!["chapters/intro", "chapters/methods", "appendix"]);
}

#[test]
fn extract_includes_comment_false_positive_is_documented_limitation() {
    let content = "% 参考: \\input{old_stuff} 已废弃";
    assert_eq!(extract_includes(content), vec!["old_stuff"]);
}

#[test]
fn extract_documentclass_variants() {
    assert_eq!(extract_documentclass("\\documentclass{article}").as_deref(), Some("article"));
    assert_eq!(
        extract_documentclass("\\documentclass[12pt,a4paper]{ctexart}").as_deref(),
        Some("ctexart")
    );
    assert_eq!(extract_documentclass("\\usepackage{foo}"), None);
    assert_eq!(extract_documentclass("no class here"), None);
}

#[test]
fn unique_root_when_single_documentclass() {
    let fs = fs_with(&[
        ("proj/main.tex", "\\documentclass{article}\\input{chapters/intro}"),
        ("proj/chapters/intro.tex", "content"),
    ]);
    assert_eq!(detect(&fs, "proj"), RootResolution::Unique("proj/main.tex".to_string()));
}

#[test]
fn multiple_candidates_sorted() {
    let fs = fs_with(&[("proj/a.tex", "\\documentclass{article}"), ("proj/b.tex", "\\documentclass{book}")]);
    assert_eq!(
        detect(&fs, "proj"),
        RootResolution::Multiple(vec!["proj/a.tex".to_string(), "proj/b.tex".to_string()])
    );
}

#[test]
fn no_candidates() {
    let fs = fs_with(&[("proj/readme.tex", "no class here")]);
    assert_eq!(detect(&fs, "proj"), RootResolution::NoneFound);
}

#[test]
fn referenced_file_with_documentclass_is_not_candidate() {
    let fs = fs_with(&[
        ("proj/main.tex", "\\documentclass{article}\\input{sub}"),
        ("proj/sub.tex", "\\documentclass{article} sub content"),
    ]);
    assert_eq!(detect(&fs, "proj"), RootResolution::Unique("proj/main.tex".to_string()));
}

#[test]
fn backslash_reference_not_normalized() {
    let content = "\\input{chapters\\intro}";
    assert_eq!(extract_includes(content), vec!["chapters\\intro"]);
}

#[test]
fn deep_nested_files_found() {
    let fs = fs_with(&[
        ("proj/main.tex", "\\documentclass{report}\\include{chapters/a/ch1}"),
        ("proj/chapters/a/ch1.tex", "chapter"),
    ]);
    assert_eq!(detect(&fs, "proj"), RootResolution::Unique("proj/main.tex".to_string()));
}

#[test]
fn unreadable_file_is_neither_candidate_nor_reference() {
    let files = vec!["proj/a.tex".to_string(), "proj/b.tex".to_string()];
    let contents = vec![None, Some("\\documentclass{article}\\input{a}".to_string())];
    assert_eq!(
        resolve(find_candidates(&files, "proj", &contents)),
        RootResolution::Unique("proj/b.tex".to_string())
    );
    let contents2 = vec![Some("\\documentclass{article}".to_string()), None];
    assert_eq!(
        resolve(find_candidates(&files, "proj", &contents2)),
        RootResolution::Unique("proj/a.tex".to_string())
    );
}

#[test]
fn resolve_sorts_several_candidates() {
    let files = vec!["proj/z.tex".to_string(), "proj/b/a.tex".to_string(), "proj/a.tex".to_string()];
    let class = Some("\\documentclass{article}".to_string());
    let contents = vec![class.clone(), class.clone(), class];
    assert_eq!(
        resolve(find_candidates(&files, "proj", &contents)),
        RootResolution::Multiple(vec![
            "proj/a.tex".to_string(),
            "proj/b/a.tex".to_string(),
            "proj/z.tex".to_string()
        ])
    );
}
