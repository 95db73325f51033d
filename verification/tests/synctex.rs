use texpresso_core::synctex::{
    forward_error_message, parse_inverse_output, scan_forward_output, SourcePosition, SyncTexError,
};

/// A page position read from `synctex view` output: the fields come from the
/// library, the decimal coordinates are read here.
#[derive(Debug)]
struct PdfPosition {
    page: u32,
    x: f32,
    y: f32,
}

fn parse_forward(text: &str) -> Result<PdfPosition, SyncTexError> {
    let f = scan_forward_output(text);
    let x = f.x.and_then(|v| v.parse::<f32>().ok());
    let y = f.y.and_then(|v| v.parse::<f32>().ok());
    match (f.page, x, y) {
        (Some(page), Some(x), Some(y)) => Ok(PdfPosition { page, x, y }),
        _ => Err(SyncTexError::Parse(forward_error_message(text))),
    }
}

const FORWARD_SAMPLE: &str = "This is SyncTeX command line utility, version 1.5\n\
    SyncTeX result begin\n\
    Output:main.pdf\n\
    Page:1\n\
    x:337.1231\n\
    y:720.9981\n\
    h:100.000000\n\
    v:50.000000\n\
    W:400.000000\n\
    H:300.000000\n\
    before:\\\\section{Intro}\n\
    after:\n\
    SyncTeX result end\n";

#[test]
fn parse_forward_sample() {
    let pos = parse_forward(FORWARD_SAMPLE).unwrap();
    assert_eq!(pos.page, 1);
    assert!((pos.x - 337.1231).abs() < 1e-4);
    assert!((pos.y - 720.9981).abs() < 1e-4);
}

#[test]
fn parse_forward_missing_field_is_error() {
    let text = "Page:1\nx:10.0\n";
    let err = parse_forward(text).unwrap_err();
    assert!(err.message().contains("解析失败"));
}

#[test]
fn parse_forward_empty_is_error() {
    assert!(parse_forward("").is_err());
    assert!(parse_forward("SyncTeX result begin\nSyncTeX result end\n").is_err());
}

#[test]
fn parse_forward_tolerates_extra_lines() {
    let text = "garbage\nPage:3\nnoise\nx:1.5\ny:2.5\n";
    let pos = parse_forward(text).unwrap();
    assert_eq!(pos.page, 3);
}

#[test]
fn parse_forward_takes_the_first_complete_block() {
    let text = "Output:a.pdf\nPage:1\nx:10.0\ny:20.0\nOutput:a.pdf\nPage:2\nx:30.0\ny:40.0\n";
    let pos = parse_forward(text).unwrap();
    assert_eq!(pos.page, 1);
    assert!((pos.x - 10.0).abs() < 1e-4);
    assert!((pos.y - 20.0).abs() < 1e-4);
}

#[test]
fn incomplete_first_block_is_skipped() {
    let text = "Output:a.pdf\nPage:1\nx:10.0\nOutput:a.pdf\nPage:2\nx:30.0\ny:40.0\nOutput:a.pdf\nPage:3\nx:1\ny:1\n";
    let f = scan_forward_output(text);
    assert_eq!(f.page, Some(2));
    assert_eq!(f.x.as_deref(), Some("30.0"));
    assert_eq!(f.y.as_deref(), Some("40.0"));
    // No complete block: the last block is reported, and it lacks a field.
    let g = scan_forward_output("Output:a\nPage:1\nOutput:b\nx:2\n");
    assert_eq!(g.page, None);
    assert!(parse_forward("Output:a\nPage:1\nOutput:b\nx:2\n").is_err());
}

#[test]
fn scan_forward_keeps_raw_values_last_line_wins() {
    let f = scan_forward_output("  Page: 7 \nx:1\nx: 2.5 \ny:abc\n");
    assert_eq!(f.page, Some(7));
    assert_eq!(f.x.as_deref(), Some("2.5"));
    assert_eq!(f.y.as_deref(), Some("abc"));
    let g = scan_forward_output("Page:seven\n");
    assert_eq!(g.page, None);
    assert_eq!(g.x, None);
}

#[test]
fn forward_error_message_counts_lines_and_quotes_the_first() {
    assert_eq!(forward_error_message("Page:1\nx:10.0\n"), "缺少 Page/x/y 字段（得到 2 行）：Page:1");
    assert_eq!(forward_error_message(""), "缺少 Page/x/y 字段（得到 0 行）：");
}

const INVERSE_SAMPLE: &str = "This is SyncTeX command line utility, version 1.5\n\
    SyncTeX result begin\n\
    Output:main.pdf\n\
    File:main.tex\n\
    Line:12\n\
    Column:5\n\
    Offset:240\n\
    Context:\\\\section{Intro}\n\
    SyncTeX result end\n";

#[test]
fn parse_inverse_sample() {
    let pos = parse_inverse_output(INVERSE_SAMPLE).unwrap();
    assert_eq!(pos.file, "main.tex");
    assert_eq!(pos.line, 12);
    assert_eq!(pos.column, 5);
}

#[test]
fn parse_inverse_missing_field_is_error() {
    let err = parse_inverse_output("File:a.tex\nLine:1\n").unwrap_err();
    assert!(err.message().contains("Column"));
}

#[test]
fn parse_inverse_input_prefix_from_real_cli() {
    let text = [
        "This is SyncTeX command line utility, version 1.5",
        "SyncTeX result begin",
        "Output:main.pdf",
        "Input:/home/u/proj/tmp/main.bbl",
        "Line:8",
        "Column:-1",
        "Offset:0",
        "Context:",
        "SyncTeX result end",
    ]
    .join("\n");
    let pos = parse_inverse_output(&text).unwrap();
    assert_eq!(pos.file, "/home/u/proj/tmp/main.bbl");
    assert_eq!(pos.line, 8);
}

#[test]
fn parse_inverse_empty_is_error() {
    assert!(parse_inverse_output("").is_err());
}

#[test]
fn parse_inverse_error_message_is_exact() {
    assert_eq!(
        parse_inverse_output("File:a.tex\nLine:1\n"),
        Err(SyncTexError::Parse("缺少 Input/File、Line、Column 字段（得到 2 行）：File:a.tex".to_string()))
    );
}

#[test]
fn parse_inverse_bad_number_is_error_and_later_line_wins() {
    assert!(parse_inverse_output("File:a.tex\nLine:x\nColumn:1\n").is_err());
    assert!(parse_inverse_output("File:a.tex\nLine:-3\nColumn:1\n").is_err());
    assert_eq!(
        parse_inverse_output("File:a.tex\nInput:b.tex\nLine:2\nColumn:-1\nLine:4\n").unwrap(),
        SourcePosition { file: "b.tex".to_string(), line: 4, column: -1 }
    );
}

#[test]
fn sync_error_messages() {
    assert_eq!(SyncTexError::Io("boom".into()).message(), "同步失败：boom");
    assert_eq!(SyncTexError::Parse("x".into()).message(), "输出解析失败：x");
}
