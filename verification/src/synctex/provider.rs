//! Parsing what the `synctex` tool prints. Running the tool is left to the
//! caller; these functions only read its standard output.

use vstd::prelude::*;
use crate::text::{
    chars_of, concat_chars, decimal, decimal_chars, has_prefix_str, lines, lines_of,
    parse_i32_chars, parse_i32_spec, parse_u32_chars, parse_u32_spec, starts_with, string_of,
    string_views, sub_chars, trim, trim_chars, views,
};
use super::model::{SourcePosition, SyncTexError};

verus! {

/// The trimmed text after `prefix` on a trimmed line that starts with it.
pub open spec fn field_value(t: Seq<char>, prefix: Seq<char>) -> Seq<char> {
    trim(t.skip(prefix.len() as int))
}

/// Fields of `synctex edit` output: source file, line, column.
pub struct InverseFields {
    pub file: Option<Seq<char>>,
    pub line: Option<u32>,
    pub column: Option<i32>,
}

/// One output line: `Input:` (synctex 1.21) or `File:` (older) sets the
/// file; `Line:` and `Column:` set numbers (a value that does not parse
/// clears the field).
pub open spec fn inverse_step(f: InverseFields, line: Seq<char>) -> InverseFields {
    let t = trim(line);
    if starts_with(t, "Input:"@) {
        InverseFields { file: Some(field_value(t, "Input:"@)), line: f.line, column: f.column }
    } else if starts_with(t, "File:"@) {
        InverseFields { file: Some(field_value(t, "File:"@)), line: f.line, column: f.column }
    } else if starts_with(t, "Line:"@) {
        InverseFields { file: f.file, line: parse_u32_spec(field_value(t, "Line:"@)), column: f.column }
    } else if starts_with(t, "Column:"@) {
        InverseFields { file: f.file, line: f.line, column: parse_i32_spec(field_value(t, "Column:"@)) }
    } else {
        f
    }
}

/// The fields after the lines `ls`.
pub open spec fn inverse_fields(ls: Seq<Seq<char>>) -> InverseFields
    decreases ls.len(),
{
    if ls.len() == 0 {
        InverseFields { file: None, line: None, column: None }
    } else {
        inverse_step(inverse_fields(ls.drop_last()), ls.last())
    }
}

/// The first line of a text, or nothing.
pub open spec fn first_line(text: Seq<char>) -> Seq<char> {
    if lines(text).len() > 0 {
        lines(text)[0]
    } else {
        Seq::empty()
    }
}

/// The complaint when `synctex edit` output lacks a field.
pub open spec fn inverse_error_message(text: Seq<char>) -> Seq<char> {
    "缺少 Input/File、Line、Column 字段（得到 "@ + decimal(lines(text).len()) + " 行）："@ + first_line(text)
}

/// The complaint when `synctex view` output lacks a field.
pub open spec fn forward_error_message_spec(text: Seq<char>) -> Seq<char> {
    "缺少 Page/x/y 字段（得到 "@ + decimal(lines(text).len()) + " 行）："@ + first_line(text)
}

fn field_value_exec(t: &Vec<char>, n: usize) -> (r: Vec<char>)
    requires
        n <= t.len(),
    ensures
        r@ == trim(t@.skip(n as int)),
{
    let rest = sub_chars(t, n, t.len());
    assert(rest@ =~= t@.skip(n as int));
    trim_chars(&rest)
}

fn message_for(head: &str, text_lines: &Vec<Vec<char>>) -> (r: String)
    ensures
        r@ == head@ + decimal(text_lines@.len()) + " 行）："@ + (if text_lines@.len() > 0 {
            text_lines@[0]@
        } else {
            Seq::empty()
        }),
{
    let h = chars_of(head);
    let n = decimal_chars(text_lines.len() as u64);
    let mid = chars_of(" 行）：");
    let first: Vec<char> = if text_lines.len() > 0 {
        sub_chars(&text_lines[0], 0, text_lines[0].len())
    } else {
        Vec::new()
    };
    assert(text_lines@.len() > 0 ==> text_lines@[0]@.subrange(0, text_lines@[0]@.len() as int) =~= text_lines@[0]@);
    let a = concat_chars(&h, &n);
    let b = concat_chars(&a, &mid);
    let c = concat_chars(&b, &first);
    string_of(&c)
}

/// Parses `synctex edit` output. The file comes from `Input:` or `File:`,
/// then `Line:` and `Column:`; any of them missing is a parse error.
pub fn parse_inverse_output(text: &str) -> (r: Result<SourcePosition, SyncTexError>)
    ensures
        ({
            let f = inverse_fields(lines(text@));
            match r {
                Ok(p) => f.file == Some(p.file@) && f.line == Some(p.line) && f.column == Some(
                    p.column,
                ),
                Err(e) => (f.file is None || f.line is None || f.column is None) && (e matches SyncTexError::Parse(m) && m@ == inverse_error_message(text@)),
            }
        }),
{
    let chars = chars_of(text);
    let ls = lines_of(&chars);
    let mut file: Option<Vec<char>> = None;
    let mut line_no: Option<u32> = None;
    let mut column: Option<i32> = None;
    let mut k: usize = 0;
    while k < ls.len()
        invariant
            k <= ls.len(),
            ({
                let f = inverse_fields(views(ls@).take(k as int));
                &&& f.file == (match file {
                    Some(v) => Some(v@),
                    None => None,
                })
                &&& f.line == line_no
                &&& f.column == column
            }),
        decreases ls.len() - k,
    {
        proof {
            let vs = views(ls@);
            assert(vs.take(k + 1).drop_last() =~= vs.take(k as int));
            assert(vs.take(k + 1).last() == ls@[k as int]@);
        }
        let t = trim_chars(&ls[k]);
        if has_prefix_str(&t, "Input:") {
            let n = chars_of("Input:").len();
            file = Some(field_value_exec(&t, n));
        } else if has_prefix_str(&t, "File:") {
            let n = chars_of("File:").len();
            file = Some(field_value_exec(&t, n));
        } else if has_prefix_str(&t, "Line:") {
            let n = chars_of("Line:").len();
            let v = field_value_exec(&t, n);
            line_no = parse_u32_chars(&v);
        } else if has_prefix_str(&t, "Column:") {
            let n = chars_of("Column:").len();
            let v = field_value_exec(&t, n);
            column = parse_i32_chars(&v);
        }
        k = k + 1;
    }
    assert(views(ls@).take(ls.len() as int) =~= views(ls@));
    match (file, line_no, column) {
        (Some(f), Some(l), Some(c)) => Ok(SourcePosition { file: string_of(&f), line: l, column: c }),
        _ => Err(SyncTexError::Parse(message_for("缺少 Input/File、Line、Column 字段（得到 ", &ls))),
    }
}

/// A line of `synctex edit` output that names the source file.
pub open spec fn names_file(l: Seq<char>) -> bool {
    starts_with(trim(l), "Input:"@) || starts_with(trim(l), "File:"@)
}

/// The file that such a line names.
pub open spec fn file_named(l: Seq<char>) -> Seq<char> {
    if starts_with(trim(l), "Input:"@) {
        field_value(trim(l), "Input:"@)
    } else {
        field_value(trim(l), "File:"@)
    }
}

/// A line that gives the source line.
pub open spec fn names_line(l: Seq<char>) -> bool {
    starts_with(trim(l), "Line:"@)
}

/// A line that gives the source column.
pub open spec fn names_column(l: Seq<char>) -> bool {
    starts_with(trim(l), "Column:"@)
}

proof fn lemma_field_lines_disjoint(l: Seq<char>)
    ensures
        names_line(l) ==> !names_file(l),
        names_column(l) ==> !names_file(l) && !names_line(l),
{
    reveal_strlit("Input:");
    reveal_strlit("File:");
    reveal_strlit("Line:");
    reveal_strlit("Column:");
    let t = trim(l);
    if names_line(l) {
        assert(t[0] == t.subrange(0, 5)[0]);
    }
    if names_column(l) {
        assert(t[0] == t.subrange(0, 7)[0]);
    }
    if starts_with(t, "Input:"@) {
        assert(t[0] == t.subrange(0, 6)[0]);
    }
    if starts_with(t, "File:"@) {
        assert(t[0] == t.subrange(0, 5)[0]);
    }
}

#[verifier::spinoff_prover]
proof fn lemma_inverse_file_last(ls: Seq<Seq<char>>)
    ensures
        (forall|i: int| 0 <= i < ls.len() ==> !#[trigger] names_file(ls[i])) ==> inverse_fields(ls).file is None,
        forall|i: int|
            0 <= i < ls.len() && #[trigger] names_file(ls[i]) && (forall|j: int|
                i < j < ls.len() ==> !names_file(ls[j])) ==> inverse_fields(ls).file == Some(file_named(ls[i])),
    decreases ls.len(),
{
    if ls.len() > 0 {
        let init = ls.drop_last();
        let l = ls.last();
        let n = ls.len() - 1;
        assert(ls[n] == l);
        lemma_inverse_file_last(init);
        lemma_field_lines_disjoint(l);
        if forall|i: int| 0 <= i < ls.len() ==> !#[trigger] names_file(ls[i]) {
            assert(!names_file(ls[n]));
            assert forall|i: int| 0 <= i < init.len() implies !#[trigger] names_file(init[i]) by {
                assert(init[i] == ls[i]);
                assert(!names_file(ls[i]));
            }
        }
        assert forall|i: int|
            0 <= i < ls.len() && #[trigger] names_file(ls[i]) && (forall|j: int|
                i < j < ls.len() ==> !names_file(ls[j])) implies inverse_fields(ls).file == Some(file_named(ls[i])) by {
            if i < n {
                assert(!names_file(ls[n]));
                assert(init[i] == ls[i]);
                assert(names_file(init[i]));
                assert forall|j: int| i < j < init.len() implies !names_file(init[j]) by {
                    assert(init[j] == ls[j]);
                    assert(!names_file(ls[j]));
                }
            }
        }
    }
}

#[verifier::spinoff_prover]
proof fn lemma_inverse_line_last(ls: Seq<Seq<char>>)
    ensures
        (forall|i: int| 0 <= i < ls.len() ==> !#[trigger] names_line(ls[i])) ==> inverse_fields(ls).line is None,
        forall|i: int|
            0 <= i < ls.len() && #[trigger] names_line(ls[i]) && (forall|j: int|
                i < j < ls.len() ==> !names_line(ls[j])) ==> inverse_fields(ls).line == parse_u32_spec(field_value(trim(ls[i]), "Line:"@)),
    decreases ls.len(),
{
    if ls.len() > 0 {
        let init = ls.drop_last();
        let l = ls.last();
        let n = ls.len() - 1;
        assert(ls[n] == l);
        lemma_inverse_line_last(init);
        lemma_field_lines_disjoint(l);
        if forall|i: int| 0 <= i < ls.len() ==> !#[trigger] names_line(ls[i]) {
            assert(!names_line(ls[n]));
            assert forall|i: int| 0 <= i < init.len() implies !#[trigger] names_line(init[i]) by {
                assert(init[i] == ls[i]);
                assert(!names_line(ls[i]));
            }
        }
        assert forall|i: int|
            0 <= i < ls.len() && #[trigger] names_line(ls[i]) && (forall|j: int|
                i < j < ls.len() ==> !names_line(ls[j])) implies inverse_fields(ls).line == parse_u32_spec(field_value(trim(ls[i]), "Line:"@)) by {
            if i < n {
                assert(!names_line(ls[n]));
                assert(init[i] == ls[i]);
                assert(names_line(init[i]));
                assert forall|j: int| i < j < init.len() implies !names_line(init[j]) by {
                    assert(init[j] == ls[j]);
                    assert(!names_line(ls[j]));
                }
            }
        }
    }
}

#[verifier::spinoff_prover]
proof fn lemma_inverse_column_last(ls: Seq<Seq<char>>)
    ensures
        (forall|i: int| 0 <= i < ls.len() ==> !#[trigger] names_column(ls[i])) ==> inverse_fields(ls).column is None,
        forall|i: int|
            0 <= i < ls.len() && #[trigger] names_column(ls[i]) && (forall|j: int|
                i < j < ls.len() ==> !names_column(ls[j])) ==> inverse_fields(ls).column == parse_i32_spec(field_value(trim(ls[i]), "Column:"@)),
    decreases ls.len(),
{
    if ls.len() > 0 {
        let init = ls.drop_last();
        let l = ls.last();
        let n = ls.len() - 1;
        assert(ls[n] == l);
        lemma_inverse_column_last(init);
        lemma_field_lines_disjoint(l);
        if forall|i: int| 0 <= i < ls.len() ==> !#[trigger] names_column(ls[i]) {
            assert(!names_column(ls[n]));
            assert forall|i: int| 0 <= i < init.len() implies !#[trigger] names_column(init[i]) by {
                assert(init[i] == ls[i]);
                assert(!names_column(ls[i]));
            }
        }
        assert forall|i: int|
            0 <= i < ls.len() && #[trigger] names_column(ls[i]) && (forall|j: int|
                i < j < ls.len() ==> !names_column(ls[j])) implies inverse_fields(ls).column == parse_i32_spec(field_value(trim(ls[i]), "Column:"@)) by {
            if i < n {
                assert(!names_column(ls[n]));
                assert(init[i] == ls[i]);
                assert(names_column(init[i]));
                assert forall|j: int| i < j < init.len() implies !names_column(init[j]) by {
                    assert(init[j] == ls[j]);
                    assert(!names_column(ls[j]));
                }
            }
        }
    }
}

/// Reading `synctex edit` output, field by field: each field is taken from
/// the last line that gives it (`Input:` and `File:` both give the file),
/// whatever the order of the lines; a field that no line gives is missing.
pub proof fn lemma_inverse_last_line_wins(ls: Seq<Seq<char>>)
    ensures
        (forall|i: int| 0 <= i < ls.len() ==> !#[trigger] names_file(ls[i])) ==> inverse_fields(
            ls,
        ).file is None,
        forall|i: int|
            0 <= i < ls.len() && #[trigger] names_file(ls[i]) && (forall|j: int|
                i < j < ls.len() ==> !names_file(ls[j])) ==> inverse_fields(ls).file == Some(
                file_named(ls[i]),
            ),
        (forall|i: int| 0 <= i < ls.len() ==> !#[trigger] names_line(ls[i])) ==> inverse_fields(
            ls,
        ).line is None,
        forall|i: int|
            0 <= i < ls.len() && #[trigger] names_line(ls[i]) && (forall|j: int|
                i < j < ls.len() ==> !names_line(ls[j])) ==> inverse_fields(ls).line
                == parse_u32_spec(field_value(trim(ls[i]), "Line:"@)),
        (forall|i: int| 0 <= i < ls.len() ==> !#[trigger] names_column(ls[i])) ==> inverse_fields(
            ls,
        ).column is None,
        forall|i: int|
            0 <= i < ls.len() && #[trigger] names_column(ls[i]) && (forall|j: int|
                i < j < ls.len() ==> !names_column(ls[j])) ==> inverse_fields(ls).column
                == parse_i32_spec(field_value(trim(ls[i]), "Column:"@)),
{
    lemma_inverse_file_last(ls);
    lemma_inverse_line_last(ls);
    lemma_inverse_column_last(ls);
}

/// Fields of `synctex view` output: the page number and the raw text of the
/// `x:` and `y:` values (the coordinates are decimal fractions, read by the
/// caller).
#[derive(Debug, PartialEq, Eq)]
pub struct ForwardFields {
    pub page: Option<u32>,
    pub x: Option<String>,
    pub y: Option<String>,
}

/// Fields of `synctex view` output as contracts see them.
pub struct ForwardView {
    pub page: Option<u32>,
    pub x: Option<Seq<char>>,
    pub y: Option<Seq<char>>,
}

/// One output line: `Page:` sets the page (a value that does not parse
/// clears it); `x:` and `y:` keep the latest value text.
pub open spec fn forward_step(f: ForwardView, line: Seq<char>) -> ForwardView {
    let t = trim(line);
    if starts_with(t, "Page:"@) {
        ForwardView { page: parse_u32_spec(field_value(t, "Page:"@)), x: f.x, y: f.y }
    } else if starts_with(t, "x:"@) {
        ForwardView { page: f.page, x: Some(field_value(t, "x:"@)), y: f.y }
    } else if starts_with(t, "y:"@) {
        ForwardView { page: f.page, x: f.x, y: Some(field_value(t, "y:"@)) }
    } else {
        f
    }
}

/// A block with all three fields.
pub open spec fn complete(f: ForwardView) -> bool {
    f.page is Some && f.x is Some && f.y is Some
}

/// A block with no field yet.
pub open spec fn no_fields() -> ForwardView {
    ForwardView { page: None, x: None, y: None }
}

/// Reading the lines `ls` of `synctex view` output: the first complete
/// block met so far (if any) and the block under way. A line starting with
/// `Output:` closes the block under way and begins a new one (one source
/// position may hit several boxes, each reported in a block of its own).
pub open spec fn forward_scan(ls: Seq<Seq<char>>) -> (Option<ForwardView>, ForwardView)
    decreases ls.len(),
{
    if ls.len() == 0 {
        (None, no_fields())
    } else {
        let (found, cur) = forward_scan(ls.drop_last());
        if found is Some {
            (found, cur)
        } else if starts_with(trim(ls.last()), "Output:"@) {
            if complete(cur) {
                (Some(cur), cur)
            } else {
                (None, no_fields())
            }
        } else {
            (None, forward_step(cur, ls.last()))
        }
    }
}

/// The fields of the output: its first complete block; when no block is
/// complete, the last block (which then lacks a field).
pub open spec fn forward_fields(ls: Seq<Seq<char>>) -> ForwardView {
    match forward_scan(ls).0 {
        Some(b) => b,
        None => forward_scan(ls).1,
    }
}

/// A line that closes a block of `synctex view` output.
pub open spec fn is_output_line(l: Seq<char>) -> bool {
    starts_with(trim(l), "Output:"@)
}

/// A line that gives the page.
pub open spec fn names_page(l: Seq<char>) -> bool {
    starts_with(trim(l), "Page:"@)
}

/// A line that gives the `x:` value.
pub open spec fn names_x(l: Seq<char>) -> bool {
    starts_with(trim(l), "x:"@)
}

/// A line that gives the `y:` value.
pub open spec fn names_y(l: Seq<char>) -> bool {
    starts_with(trim(l), "y:"@)
}

proof fn lemma_forward_lines_disjoint(l: Seq<char>)
    ensures
        names_x(l) ==> !names_page(l),
        names_y(l) ==> !names_page(l) && !names_x(l),
{
    reveal_strlit("Page:");
    reveal_strlit("x:");
    reveal_strlit("y:");
    let t = trim(l);
    if names_page(l) {
        assert(t[0] == t.subrange(0, 5)[0]);
    }
    if names_x(l) {
        assert(t[0] == t.subrange(0, 2)[0]);
    }
    if names_y(l) {
        assert(t[0] == t.subrange(0, 2)[0]);
    }
}

/// Once a complete block has been read, the lines after it change nothing:
/// the first complete block is the answer.
pub proof fn lemma_forward_first_complete_block_kept(ls: Seq<Seq<char>>, more: Seq<Seq<char>>)
    requires
        forward_scan(ls).0 is Some,
    ensures
        forward_scan(ls + more).0 == forward_scan(ls).0,
        forward_fields(ls + more) == forward_fields(ls),
    decreases more.len(),
{
    if more.len() == 0 {
        assert(ls + more =~= ls);
    } else {
        lemma_forward_first_complete_block_kept(ls, more.drop_last());
        assert((ls + more).drop_last() =~= ls + more.drop_last());
    }
}

proof fn lemma_forward_no_block_found(ls: Seq<Seq<char>>)
    requires
        forall|i: int| 0 <= i < ls.len() ==> !#[trigger] is_output_line(ls[i]),
    ensures
        forward_scan(ls).0 is None,
        forward_fields(ls) == forward_scan(ls).1,
    decreases ls.len(),
{
    if ls.len() > 0 {
        let init = ls.drop_last();
        assert forall|i: int| 0 <= i < init.len() implies !#[trigger] is_output_line(init[i]) by {
            assert(init[i] == ls[i]);
        }
        assert(!is_output_line(ls[ls.len() - 1]));
        lemma_forward_no_block_found(init);
    }
}

#[verifier::spinoff_prover]
proof fn lemma_forward_page_last(ls: Seq<Seq<char>>)
    requires
        forall|i: int| 0 <= i < ls.len() ==> !#[trigger] is_output_line(ls[i]),
    ensures
        (forall|i: int| 0 <= i < ls.len() ==> !#[trigger] names_page(ls[i])) ==> forward_fields(ls).page is None,
        forall|i: int|
            0 <= i < ls.len() && #[trigger] names_page(ls[i]) && (forall|j: int|
                i < j < ls.len() ==> !names_page(ls[j])) ==> forward_fields(ls).page == parse_u32_spec(field_value(trim(ls[i]), "Page:"@)),
    decreases ls.len(),
{
    if ls.len() > 0 {
        let init = ls.drop_last();
        let l = ls.last();
        let n = ls.len() - 1;
        assert(ls[n] == l);
        assert forall|i: int| 0 <= i < init.len() implies !#[trigger] is_output_line(init[i]) by {
            assert(init[i] == ls[i]);
        }
        assert(!is_output_line(ls[n]));
        lemma_forward_no_block_found(ls);
        lemma_forward_no_block_found(init);
        assert(forward_scan(ls).1 == forward_step(forward_scan(init).1, l));
        lemma_forward_page_last(init);
        lemma_forward_lines_disjoint(l);
        if forall|i: int| 0 <= i < ls.len() ==> !#[trigger] names_page(ls[i]) {
            assert(!names_page(ls[n]));
            assert forall|i: int| 0 <= i < init.len() implies !#[trigger] names_page(init[i]) by {
                assert(init[i] == ls[i]);
                assert(!names_page(ls[i]));
            }
        }
        assert forall|i: int|
            0 <= i < ls.len() && #[trigger] names_page(ls[i]) && (forall|j: int|
                i < j < ls.len() ==> !names_page(ls[j])) implies forward_fields(ls).page == parse_u32_spec(field_value(trim(ls[i]), "Page:"@)) by {
            if i < n {
                assert(!names_page(ls[n]));
                assert(init[i] == ls[i]);
                assert(names_page(init[i]));
                assert forall|j: int| i < j < init.len() implies !names_page(init[j]) by {
                    assert(init[j] == ls[j]);
                    assert(!names_page(ls[j]));
                }
            }
        }
    }
}

#[verifier::spinoff_prover]
proof fn lemma_forward_x_last(ls: Seq<Seq<char>>)
    requires
        forall|i: int| 0 <= i < ls.len() ==> !#[trigger] is_output_line(ls[i]),
    ensures
        (forall|i: int| 0 <= i < ls.len() ==> !#[trigger] names_x(ls[i])) ==> forward_fields(ls).x is None,
        forall|i: int|
            0 <= i < ls.len() && #[trigger] names_x(ls[i]) && (forall|j: int|
                i < j < ls.len() ==> !names_x(ls[j])) ==> forward_fields(ls).x == Some(field_value(trim(ls[i]), "x:"@)),
    decreases ls.len(),
{
    if ls.len() > 0 {
        let init = ls.drop_last();
        let l = ls.last();
        let n = ls.len() - 1;
        assert(ls[n] == l);
        assert forall|i: int| 0 <= i < init.len() implies !#[trigger] is_output_line(init[i]) by {
            assert(init[i] == ls[i]);
        }
        assert(!is_output_line(ls[n]));
        lemma_forward_no_block_found(ls);
        lemma_forward_no_block_found(init);
        assert(forward_scan(ls).1 == forward_step(forward_scan(init).1, l));
        lemma_forward_x_last(init);
        lemma_forward_lines_disjoint(l);
        if forall|i: int| 0 <= i < ls.len() ==> !#[trigger] names_x(ls[i]) {
            assert(!names_x(ls[n]));
            assert forall|i: int| 0 <= i < init.len() implies !#[trigger] names_x(init[i]) by {
                assert(init[i] == ls[i]);
                assert(!names_x(ls[i]));
            }
        }
        assert forall|i: int|
            0 <= i < ls.len() && #[trigger] names_x(ls[i]) && (forall|j: int|
                i < j < ls.len() ==> !names_x(ls[j])) implies forward_fields(ls).x == Some(field_value(trim(ls[i]), "x:"@)) by {
            if i < n {
                assert(!names_x(ls[n]));
                assert(init[i] == ls[i]);
                assert(names_x(init[i]));
                assert forall|j: int| i < j < init.len() implies !names_x(init[j]) by {
                    assert(init[j] == ls[j]);
                    assert(!names_x(ls[j]));
                }
            }
        }
    }
}

#[verifier::spinoff_prover]
proof fn lemma_forward_y_last(ls: Seq<Seq<char>>)
    requires
        forall|i: int| 0 <= i < ls.len() ==> !#[trigger] is_output_line(ls[i]),
    ensures
        (forall|i: int| 0 <= i < ls.len() ==> !#[trigger] names_y(ls[i])) ==> forward_fields(ls).y is None,
        forall|i: int|
            0 <= i < ls.len() && #[trigger] names_y(ls[i]) && (forall|j: int|
                i < j < ls.len() ==> !names_y(ls[j])) ==> forward_fields(ls).y == Some(field_value(trim(ls[i]), "y:"@)),
    decreases ls.len(),
{
    if ls.len() > 0 {
        let init = ls.drop_last();
        let l = ls.last();
        let n = ls.len() - 1;
        assert(ls[n] == l);
        assert forall|i: int| 0 <= i < init.len() implies !#[trigger] is_output_line(init[i]) by {
            assert(init[i] == ls[i]);
        }
        assert(!is_output_line(ls[n]));
        lemma_forward_no_block_found(ls);
        lemma_forward_no_block_found(init);
        assert(forward_scan(ls).1 == forward_step(forward_scan(init).1, l));
        lemma_forward_y_last(init);
        lemma_forward_lines_disjoint(l);
        if forall|i: int| 0 <= i < ls.len() ==> !#[trigger] names_y(ls[i]) {
            assert(!names_y(ls[n]));
            assert forall|i: int| 0 <= i < init.len() implies !#[trigger] names_y(init[i]) by {
                assert(init[i] == ls[i]);
                assert(!names_y(ls[i]));
            }
        }
        assert forall|i: int|
            0 <= i < ls.len() && #[trigger] names_y(ls[i]) && (forall|j: int|
                i < j < ls.len() ==> !names_y(ls[j])) implies forward_fields(ls).y == Some(field_value(trim(ls[i]), "y:"@)) by {
            if i < n {
                assert(!names_y(ls[n]));
                assert(init[i] == ls[i]);
                assert(names_y(init[i]));
                assert forall|j: int| i < j < init.len() implies !names_y(init[j]) by {
                    assert(init[j] == ls[j]);
                    assert(!names_y(ls[j]));
                }
            }
        }
    }
}

/// Output with no `Output:` line is one block: each field is taken from the
/// last line that gives it, whatever the order of the lines; a field that
/// no line gives is missing.
pub proof fn lemma_forward_single_block(ls: Seq<Seq<char>>)
    requires
        forall|i: int| 0 <= i < ls.len() ==> !#[trigger] is_output_line(ls[i]),
    ensures
        forward_scan(ls).0 is None,
        (forall|i: int| 0 <= i < ls.len() ==> !#[trigger] names_page(ls[i])) ==> forward_fields(
            ls,
        ).page is None,
        forall|i: int|
            0 <= i < ls.len() && #[trigger] names_page(ls[i]) && (forall|j: int|
                i < j < ls.len() ==> !names_page(ls[j])) ==> forward_fields(ls).page
                == parse_u32_spec(field_value(trim(ls[i]), "Page:"@)),
        (forall|i: int| 0 <= i < ls.len() ==> !#[trigger] names_x(ls[i])) ==> forward_fields(
            ls,
        ).x is None,
        forall|i: int|
            0 <= i < ls.len() && #[trigger] names_x(ls[i]) && (forall|j: int|
                i < j < ls.len() ==> !names_x(ls[j])) ==> forward_fields(ls).x == Some(
                field_value(trim(ls[i]), "x:"@),
            ),
        (forall|i: int| 0 <= i < ls.len() ==> !#[trigger] names_y(ls[i])) ==> forward_fields(
            ls,
        ).y is None,
        forall|i: int|
            0 <= i < ls.len() && #[trigger] names_y(ls[i]) && (forall|j: int|
                i < j < ls.len() ==> !names_y(ls[j])) ==> forward_fields(ls).y == Some(
                field_value(trim(ls[i]), "y:"@),
            ),
{
    lemma_forward_no_block_found(ls);
    lemma_forward_page_last(ls);
    lemma_forward_x_last(ls);
    lemma_forward_y_last(ls);
}

/// Reads the `Page:`, `x:` and `y:` fields of `synctex view` output: those
/// of the first complete block (within a block the last line of each kind
/// wins).
pub fn scan_forward_output(text: &str) -> (r: ForwardFields)
    ensures
        ({
            let f = forward_fields(lines(text@));
            &&& f.page == r.page
            &&& f.x == r.x.deep_view()
            &&& f.y == r.y.deep_view()
        }),
{
    let chars = chars_of(text);
    let ls = lines_of(&chars);
    let mut page: Option<u32> = None;
    let mut x: Option<Vec<char>> = None;
    let mut y: Option<Vec<char>> = None;
    let mut done = false;
    let mut k: usize = 0;
    while k < ls.len()
        invariant
            k <= ls.len(),
            ({
                let (found, cur) = forward_scan(views(ls@).take(k as int));
                let f = match found {
                    Some(b) => b,
                    None => cur,
                };
                &&& done == (found is Some)
                &&& f.page == page
                &&& f.x == (match x {
                    Some(v) => Some(v@),
                    None => None,
                })
                &&& f.y == (match y {
                    Some(v) => Some(v@),
                    None => None,
                })
            }),
        decreases ls.len() - k,
    {
        proof {
            let vs = views(ls@);
            assert(vs.take(k + 1).drop_last() =~= vs.take(k as int));
            assert(vs.take(k + 1).last() == ls@[k as int]@);
        }
        if !done {
            let t = trim_chars(&ls[k]);
            if has_prefix_str(&t, "Output:") {
                if page.is_some() && x.is_some() && y.is_some() {
                    done = true;
                } else {
                    page = None;
                    x = None;
                    y = None;
                }
            } else if has_prefix_str(&t, "Page:") {
                let n = chars_of("Page:").len();
                let v = field_value_exec(&t, n);
                page = parse_u32_chars(&v);
            } else if has_prefix_str(&t, "x:") {
                let n = chars_of("x:").len();
                x = Some(field_value_exec(&t, n));
            } else if has_prefix_str(&t, "y:") {
                let n = chars_of("y:").len();
                y = Some(field_value_exec(&t, n));
            }
        }
        k = k + 1;
    }
    assert(views(ls@).take(ls.len() as int) =~= views(ls@));
    ForwardFields {
        page,
        x: match x {
            Some(v) => Some(string_of(&v)),
            None => None,
        },
        y: match y {
            Some(v) => Some(string_of(&v)),
            None => None,
        },
    }
}

/// The complaint when `synctex view` output lacks `Page`, `x` or `y`.
pub fn forward_error_message(text: &str) -> (r: String)
    ensures
        r@ == forward_error_message_spec(text@),
{
    let chars = chars_of(text);
    let ls = lines_of(&chars);
    message_for("缺少 Page/x/y 字段（得到 ", &ls)
}

/// The decimal notation of an integer, with `-` in front when negative.
pub open spec fn signed_decimal(i: int) -> Seq<char> {
    if i < 0 {
        seq!['-'] + decimal((-i) as nat)
    } else {
        decimal(i as nat)
    }
}

/// The `-i` argument of `synctex view`: `line:column:file`.
pub open spec fn forward_input_spec(file: Seq<char>, line: u32, column: i32) -> Seq<char> {
    decimal(line as nat) + ":"@ + signed_decimal(column as int) + ":"@ + file
}

/// The arguments of `synctex view` for a source position, a PDF and the
/// directory holding the SyncTeX data (the output directory, `tmp/`):
/// `view -i line:column:file -o pdf -d dir -x`.
pub fn forward_args(file: &str, line: u32, column: i32, pdf: &str, synctex_dir: &str) -> (r: Vec<String>)
    ensures
        string_views(r@) == seq![
            "view"@,
            "-i"@,
            forward_input_spec(file@, line, column),
            "-o"@,
            pdf@,
            "-d"@,
            synctex_dir@,
            "-x"@,
        ],
{
    let l = decimal_chars(line as u64);
    let c: Vec<char> = if column < 0 {
        let m: i64 = column as i64;
        let n: u64 = (0 - m) as u64;
        let digits = decimal_chars(n);
        let minus = chars_of("-");
        proof {
            reveal_strlit("-");
        }
        concat_chars(&minus, &digits)
    } else {
        decimal_chars(column as u64)
    };
    assert(c@ == signed_decimal(column as int));
    let colon = chars_of(":");
    let f = chars_of(file);
    let a = concat_chars(&l, &colon);
    let b = concat_chars(&a, &c);
    let d = concat_chars(&b, &colon);
    let input = concat_chars(&d, &f);
    assert(input@ == forward_input_spec(file@, line, column));
    let mut r: Vec<String> = Vec::new();
    r.push("view".to_string());
    r.push("-i".to_string());
    r.push(string_of(&input));
    r.push("-o".to_string());
    r.push(pdf.to_string());
    r.push("-d".to_string());
    r.push(synctex_dir.to_string());
    r.push("-x".to_string());
    assert(string_views(r@) =~= seq![
        "view"@,
        "-i"@,
        forward_input_spec(file@, line, column),
        "-o"@,
        pdf@,
        "-d"@,
        synctex_dir@,
        "-x"@,
    ]);
    r
}

} // verus!
