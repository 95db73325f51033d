use texpresso_core::runner::{compile_paths, errors_from_log, latexmk_args, run_outcome, RunEnd};
use texpresso_core::types::{CompileOutcome, CompileRequest, Engine, ErrorKind};

fn req(root_file: &str, root: &str, engine: Engine) -> CompileRequest {
    CompileRequest {
        root_file: root_file.to_string(),
        project_root: root.to_string(),
        engine,
        timeout_secs: 120,
    }
}

#[test]
fn latexmk_args_for_nested_root() {
    let r = req(r"C:\proj\css\thesis.tex", r"C:\proj", Engine::LuaLaTeX);
    assert_eq!(
        latexmk_args(&r),
        vec!["-lualatex", "-outdir=tmp", "-synctex=1", "-interaction=nonstopmode", "css/thesis.tex"]
    );
    let r2 = req("/home/u/p/main.tex", "/home/u/p", Engine::PdfLaTeX);
    assert_eq!(latexmk_args(&r2)[0], "-pdf");
    assert_eq!(latexmk_args(&r2)[4], "main.tex");
    assert_eq!(latexmk_args(&req("a.tex", "p", Engine::XeLaTeX))[0], "-xelatex");
}

#[test]
fn compile_paths_put_artifacts_in_tmp_and_pdf_at_root() {
    let p = compile_paths(&req("/home/u/p/css/thesis.tex", "/home/u/p", Engine::XeLaTeX));
    assert_eq!(p.tmp_dir, "/home/u/p/tmp");
    assert_eq!(p.pdf_src, "/home/u/p/tmp/thesis.pdf");
    assert_eq!(p.pdf_dst, "/home/u/p/thesis.pdf");
    assert_eq!(p.pdf_tmp, "/home/u/p/thesis.pdf.tmp");
    assert_eq!(p.log_path, "/home/u/p/tmp/thesis.log");

    let w = compile_paths(&req(r"C:\proj\main.tex", r"C:\proj", Engine::XeLaTeX));
    assert_eq!(w.pdf_src, r"C:\proj\tmp\main.pdf");
    assert_eq!(w.pdf_dst, r"C:\proj\main.pdf");
}

#[test]
fn errors_from_log_turns_every_message_into_a_content_error() {
    let log = "(./main.tex\n! Undefined control sequence.\nl.7 \\foo\nLaTeX Warning: Reference `x' undefined.\n)";
    let errs = errors_from_log(log);
    assert_eq!(errs.len(), 2);
    assert_eq!(errs[0].message, "! Undefined control sequence.");
    assert_eq!(errs[0].file.as_deref(), Some("./main.tex"));
    assert_eq!(errs[0].line, Some(7));
    assert_eq!(errs[0].kind, ErrorKind::ContentError);
    assert_eq!(errs[1].kind, ErrorKind::ContentError);
    assert_eq!(errs[1].line, None);
    assert!(errors_from_log("").is_empty());
}

#[test]
fn run_outcomes_for_each_ending() {
    let p = compile_paths(&req("/p/main.tex", "/p", Engine::XeLaTeX));
    assert_eq!(run_outcome(RunEnd::TimedOut, &p), CompileOutcome::Timeout);
    assert_eq!(run_outcome(RunEnd::Cancelled, &p), CompileOutcome::Aborted);
    assert_eq!(
        run_outcome(RunEnd::Succeeded { copy: Ok(()) }, &p),
        CompileOutcome::Success { pdf_path: "/p/main.pdf".to_string() }
    );
    assert_eq!(
        run_outcome(RunEnd::SpawnFailed("not found".into()), &p),
        CompileOutcome::IoError { message: "无法启动 latexmk（TeX Live 未安装？）：not found".to_string() }
    );
    assert_eq!(
        run_outcome(RunEnd::WaitFailed("gone".into()), &p),
        CompileOutcome::IoError { message: "等待 latexmk 失败：gone".to_string() }
    );
    assert_eq!(
        run_outcome(RunEnd::Succeeded { copy: Err("denied".into()) }, &p),
        CompileOutcome::IoError { message: "PDF 拷贝失败（/p/tmp/main.pdf → /p/main.pdf）：denied".to_string() }
    );
    assert_eq!(
        run_outcome(RunEnd::Failed { log: Err("missing".into()) }, &p),
        CompileOutcome::IoError { message: "编译失败且无法读取日志（/p/tmp/main.log）：missing".to_string() }
    );
    match run_outcome(RunEnd::Failed { log: Ok("! Emergency stop.\n".into()) }, &p) {
        CompileOutcome::ContentError { errors } => {
            assert_eq!(errors.len(), 1);
            assert_eq!(errors[0].message, "! Emergency stop.");
        }
        other => panic!("unexpected outcome {:?}", other),
    }
}
