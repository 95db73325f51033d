use texpresso_core::log_parser::{parse_log, LogScan, MessageKind};

#[test]
fn empty_log_yields_nothing() {
    assert!(parse_log("").is_empty());
    assert!(parse_log("\n\n").is_empty());
}

#[test]
fn pure_latexmk_noise_yields_nothing() {
    let log = "Latexmk: Run number 1 of rule 'xelatex'\n\
               ===========Latexmk: All targets are up-to-date===========\n";
    assert!(parse_log(log).is_empty());
}

#[test]
fn error_with_line_number() {
    let log = "! LaTeX Error: File `nope.sty' not found.\n\
               l.5 \\usepackage{nope}\n\
               ?\n";
    let msgs = parse_log(log);
    assert_eq!(msgs.len(), 1);
    assert_eq!(msgs[0].kind, MessageKind::Error);
    assert_eq!(msgs[0].line, Some(5));
    assert!(msgs[0].message.contains("File `nope.sty' not found."));
    assert!(!msgs[0].message.contains('?'));
}

#[test]
fn error_associated_with_current_file_from_stack() {
    let log = "(./main.tex\n\
               ! LaTeX Error: Something broke.\n\
               l.12 \\section{X}\n\
               )\n";
    let msgs = parse_log(log);
    assert_eq!(msgs.len(), 1);
    assert_eq!(msgs[0].kind, MessageKind::Error);
    assert_eq!(msgs[0].file.as_deref(), Some("./main.tex"));
    assert_eq!(msgs[0].line, Some(12));
}

#[test]
fn file_stack_push_pop_nested() {
    let log = "(./main.tex\n\
               (/usr/share/texlive/texmf-dist/tex/latex/base/article.cls\n\
               )\n\
               ! LaTeX Error: In main.\n\
               l.3 \\begin{document}\n\
               )\n";
    let msgs = parse_log(log);
    assert_eq!(msgs.len(), 1);
    assert_eq!(msgs[0].file.as_deref(), Some("./main.tex"));
}

#[test]
fn warning_classification() {
    let log = "LaTeX Warning: Citation `foo' undefined on page 1.\n\
               Overfull \\hbox (12.3pt too wide) in paragraph at lines 4--5\n\
               Package fancyhdr Warning: \\(\\headheight\\) is too small.\n";
    let msgs = parse_log(log);
    assert_eq!(msgs.len(), 3);
    for m in &msgs {
        assert_eq!(m.kind, MessageKind::Warning);
    }
}

#[test]
fn error_continuation_lines_aggregated() {
    let log = "! Undefined control sequence.\n\
               l.10 \\foo\n\
               bar baz\n";
    let msgs = parse_log(log);
    assert_eq!(msgs.len(), 1);
    assert!(msgs[0].message.contains("Undefined control sequence"));
    assert!(msgs[0].message.contains("bar baz"));
}

#[test]
fn multiple_errors_all_reported() {
    let log = "! First error.\n\
               l.1 a\n\
               ! Second error.\n\
               l.2 b\n";
    let msgs = parse_log(log);
    assert_eq!(msgs.len(), 2);
    assert!(msgs[0].message.contains("First error"));
    assert!(msgs[1].message.contains("Second error"));
    assert_eq!(msgs[1].line, Some(2));
}

#[test]
fn snapshot_content_error_log() {
    let log = r#"Latexmk: Run number 1 of rule 'xelatex'
This is XeTeX, Version 3.141592653-2.6-0.999996 (TeX Live 2024) (preloaded format=xelatex)
 restricted \write18 enabled.
entering extended mode
(/usr/local/texlive/2024/texmf-dist/tex/latex/base/article.cls
Document Class: article 2023/05/17 v1.4n Standard LaTeX document class
(/usr/local/texlive/2024/texmf-dist/tex/latex/base/size10.clo))
(./main.tex
LaTeX Warning: Citation `foo' undefined on page 1.
! LaTeX Error: File `nope.sty' not found.

Type X to quit or <RETURN> to proceed,
or enter new name. (Extension to read file)
Enter file name: 
l.5 \usepackage{nope}

?
! Emergency stop.
<*> main.tex

*** (job aborted, no legal \end found)
"#;
    let msgs = parse_log(log);
    assert_eq!(msgs.len(), 3);
    assert_eq!(msgs[0].kind, MessageKind::Warning);
    assert_eq!(msgs[0].message, "LaTeX Warning: Citation `foo' undefined on page 1.");
    assert_eq!(msgs[0].file.as_deref(), Some("./main.tex"));
    assert_eq!(msgs[0].line, None);
    assert_eq!(msgs[1].kind, MessageKind::Error);
    assert_eq!(msgs[1].message, "! LaTeX Error: File `nope.sty' not found.");
    assert_eq!(msgs[1].file.as_deref(), Some("./main.tex"));
    assert_eq!(msgs[1].line, Some(5));
    assert_eq!(msgs[1].raw, "! LaTeX Error: File `nope.sty' not found.");
    assert_eq!(msgs[2].kind, MessageKind::Error);
    assert_eq!(msgs[2].message, "! Emergency stop.\n<*> main.tex");
    assert_eq!(msgs[2].file.as_deref(), Some("./main.tex"));
    assert_eq!(msgs[2].line, None);
}

#[test]
fn snapshot_warning_only_log() {
    let log = r#"Latexmk: Run number 1 of rule 'xelatex'
(./main.tex
LaTeX Warning: Citation `bar' undefined on page 1.
Overfull \hbox (12.3pt too wide) in paragraph at lines 4--5
) 
(./chapters/intro.tex
Package fancyhdr Warning: \headheight is too small.
)
"#;
    let msgs = parse_log(log);
    assert_eq!(msgs.len(), 3);
    assert!(msgs.iter().all(|m| m.kind == MessageKind::Warning && m.line.is_none()));
    assert_eq!(msgs[0].file.as_deref(), Some("./main.tex"));
    assert_eq!(msgs[1].message, "Overfull \\hbox (12.3pt too wide) in paragraph at lines 4--5");
    assert_eq!(msgs[1].file.as_deref(), Some("./main.tex"));
    assert_eq!(msgs[2].message, "Package fancyhdr Warning: \\headheight is too small.");
    assert_eq!(msgs[2].file.as_deref(), Some("./chapters/intro.tex"));
}

#[test]
fn crlf_line_endings_are_stripped() {
    let msgs = parse_log("! Boom.\r\nl.7 x\r\n");
    assert_eq!(msgs.len(), 1);
    assert_eq!(msgs[0].message, "! Boom.");
    assert_eq!(msgs[0].raw, "! Boom.");
    assert_eq!(msgs[0].line, Some(7));
}

#[test]
fn line_marker_overflow_clears_line() {
    let msgs = parse_log("! Boom.\nl.5 a\nl.99999999999 b\n");
    assert_eq!(msgs[0].line, None);
}

#[test]
fn line_marker_ignored_for_warnings() {
    let msgs = parse_log("LaTeX Warning: w\nl.5 a\n");
    assert_eq!(msgs.len(), 1);
    assert_eq!(msgs[0].line, None);
}

#[test]
fn many_closers_pop_whole_stack() {
    let msgs = parse_log("(./a.tex\n(./b.tex\n)))))\n! E.\n");
    assert_eq!(msgs[0].file, None);
}

#[test]
fn scan_feed_uses_given_captures() {
    let mut scan = LogScan::new();
    scan.feed("! Oops.", None, None, None);
    scan.feed("l.42 text", Some("42".to_string()), None, None);
    scan.feed("anything", None, Some("./x.tex".to_string()), None);
    scan.feed("! Next.", None, None, None);
    let msgs = scan.finish();
    assert_eq!(msgs.len(), 2);
    assert_eq!(msgs[0].line, Some(42));
    assert_eq!(msgs[1].file.as_deref(), Some("./x.tex"));
}

#[test]
fn chinese_warning_is_a_warning() {
    let msgs = parse_log("LaTeX 警告: 引用未定义\n");
    assert_eq!(msgs.len(), 1);
    assert_eq!(msgs[0].kind, MessageKind::Warning);
    assert_eq!(msgs[0].message, "LaTeX 警告: 引用未定义");
}

#[test]
fn close_then_open_on_one_line_switches_file() {
    let msgs = parse_log("(./a.tex\n)(./b.tex\n! E.\n");
    assert_eq!(msgs.len(), 1);
    assert_eq!(msgs[0].kind, MessageKind::Error);
    assert_eq!(msgs[0].file.as_deref(), Some("./b.tex"));
    // Two closers then a new file: both levels are left.
    let nested = parse_log("(./a.tex\n(./sub.tex\n))(./c.tex\n! F.\n");
    assert_eq!(nested[0].file.as_deref(), Some("./c.tex"));
}

#[test]
fn blank_lines_do_not_join_a_message() {
    let msgs = parse_log("! Boom.\n\n   \nmore context\n");
    assert_eq!(msgs.len(), 1);
    assert_eq!(msgs[0].message, "! Boom.\nmore context");
}
