//! The line-by-line scanner of a TeX log.
//!
//! Each line is classified in this order (the first rule that applies wins):
//! 1. trimmed, it starts with `!`: a new error begins;
//! 2. trimmed, it matches `^l\.(\d+)`: the current error gets that line number;
//! 3. it matches the file-open pattern: the file is pushed on the file stack;
//! 4. trimmed, it starts with `)`: one file is popped per leading `)`, and a
//!    file opened right after them (`)(./b.tex`) is pushed;
//! 5. it is a warning line (`Warning` or `警告`): a new warning begins;
//! 6. it is noise (latexmk chatter, TeX banners and prompts) or blank:
//!    ignored;
//! 7. otherwise it continues the current message.

use vstd::prelude::*;
use crate::patterns::{first_capture, regex_first_capture};
use crate::text::{
    chars_of, contains, has_infix_str, has_prefix_str, lines, lines_of, parse_u32_chars,
    parse_u32_spec, same_as_str, starts_with, string_of, string_views, sub_chars, trim, trim_chars,
    views,
};
use super::model::{message_views, LogMessage, LogMessageView, MessageKind};

verus! {

/// The pattern of an `l.<n>` line marker.
pub open spec fn line_marker_pattern() -> Seq<char> {
    "^l\\.(\\d+)"@
}

/// The pattern of a line that opens a TeX input file: one or more `(`, then
/// the shortest path ending in one of the listed extensions.
pub open spec fn file_open_pattern() -> Seq<char> {
    "^\\(+([^()\\r\\n]*?\\.(?:tex|cls|sty|def|clo|cfg|fd|ltx|dtx|ins))"@
}

/// A warning line: it mentions `Warning` or `警告`, or reports an overfull
/// or underfull box.
pub open spec fn is_warning_text(t: Seq<char>) -> bool {
    contains(t, "Warning"@) || contains(t, "警告"@) || starts_with(t, "Overfull"@) || starts_with(
        t,
        "Underfull"@,
    )
}

/// A noise line: latexmk's own output, TeX's banner and echo lines, and its
/// interactive prompts.
pub open spec fn is_noise_text(t: Seq<char>) -> bool {
    ||| t == "?"@
    ||| starts_with(t, "Latexmk:"@)
    ||| starts_with(t, "==="@)
    ||| starts_with(t, "Run number"@)
    ||| starts_with(t, "This is "@)
    ||| starts_with(t, "entering extended mode"@)
    ||| starts_with(t, "restricted \\write18"@)
    ||| starts_with(t, "Document Class:"@)
    ||| starts_with(t, "Type X to quit"@)
    ||| starts_with(t, "or enter new name"@)
    ||| starts_with(t, "Enter file name:"@)
    ||| starts_with(t, "*** "@)
}

/// The scanner's state as contracts see it.
pub struct ScanView {
    /// Finished messages.
    pub done: Seq<LogMessageView>,
    /// Open input files, innermost last.
    pub stack: Seq<Seq<char>>,
    /// The message being gathered.
    pub current: Option<LogMessageView>,
}

/// The state before the first line.
pub open spec fn scan_start() -> ScanView {
    ScanView { done: Seq::empty(), stack: Seq::empty(), current: None }
}

/// The finished messages with the one under way appended.
pub open spec fn flushed(s: ScanView) -> Seq<LogMessageView> {
    match s.current {
        Some(m) => s.done.push(m),
        None => s.done,
    }
}

/// The innermost open file.
pub open spec fn top(stack: Seq<Seq<char>>) -> Option<Seq<char>> {
    if stack.len() > 0 {
        Some(stack.last())
    } else {
        None
    }
}

/// A new message of `kind` with text `t` begins on line `raw`.
pub open spec fn started(s: ScanView, kind: MessageKind, t: Seq<char>, raw: Seq<char>) -> ScanView {
    ScanView {
        done: flushed(s),
        stack: s.stack,
        current: Some(LogMessageView { kind, message: t, file: top(s.stack), line: None, raw }),
    }
}

/// The number of `)` that `t` starts with.
pub open spec fn leading_closers(t: Seq<char>) -> nat
    decreases t.len(),
{
    if t.len() > 0 && t[0] == ')' {
        1 + leading_closers(t.drop_first())
    } else {
        0
    }
}

/// What follows the leading `)` of a trimmed line (where a line such as
/// `)(./b.tex` opens the next file).
pub open spec fn after_closers(t: Seq<char>) -> Seq<char> {
    t.skip(leading_closers(t) as int)
}

/// The stack after `n` pops (a pop of an empty stack does nothing).
pub open spec fn popped(stack: Seq<Seq<char>>, n: nat) -> Seq<Seq<char>> {
    if n >= stack.len() {
        Seq::empty()
    } else {
        stack.take(stack.len() - n)
    }
}

/// One line of the log; `marker` is the line-marker capture of the trimmed
/// line, `opened` the file-open capture of the line, and `reopened` the
/// file-open capture of what follows the leading `)` of the trimmed line.
pub open spec fn scan_step(
    s: ScanView,
    line: Seq<char>,
    marker: Option<Seq<char>>,
    opened: Option<Seq<char>>,
    reopened: Option<Seq<char>>,
) -> ScanView {
    let t = trim(line);
    if t.len() > 0 && t[0] == '!' {
        started(s, MessageKind::Error, t, line)
    } else if marker is Some {
        match s.current {
            Some(m) => if m.kind == MessageKind::Error {
                ScanView {
                    done: s.done,
                    stack: s.stack,
                    current: Some(
                        LogMessageView {
                            kind: m.kind,
                            message: m.message,
                            file: m.file,
                            line: parse_u32_spec(marker->0),
                            raw: m.raw,
                        },
                    ),
                }
            } else {
                s
            },
            None => s,
        }
    } else if opened is Some {
        ScanView { done: s.done, stack: s.stack.push(opened->0), current: s.current }
    } else if t.len() > 0 && t[0] == ')' {
        let rest = popped(s.stack, leading_closers(t));
        ScanView {
            done: s.done,
            stack: match reopened {
                Some(f) => rest.push(f),
                None => rest,
            },
            current: s.current,
        }
    } else if is_warning_text(t) {
        started(s, MessageKind::Warning, t, line)
    } else if is_noise_text(t) || t.len() == 0 {
        s
    } else {
        match s.current {
            Some(m) => ScanView {
                done: s.done,
                stack: s.stack,
                current: Some(
                    LogMessageView {
                        kind: m.kind,
                        message: m.message + seq!['\n'] + t,
                        file: m.file,
                        line: m.line,
                        raw: m.raw,
                    },
                ),
            },
            None => s,
        }
    }
}

/// The state after the lines `ls`, with the captures that the `regex` crate
/// gives for each line.
pub open spec fn scan_lines(ls: Seq<Seq<char>>) -> ScanView
    decreases ls.len(),
{
    if ls.len() == 0 {
        scan_start()
    } else {
        let l = ls.last();
        scan_step(
            scan_lines(ls.drop_last()),
            l,
            regex_first_capture(line_marker_pattern(), trim(l), 1),
            regex_first_capture(file_open_pattern(), l, 1),
            regex_first_capture(file_open_pattern(), after_closers(trim(l)), 1),
        )
    }
}

/// The messages of a log text.
pub open spec fn parse_log_spec(text: Seq<char>) -> Seq<LogMessageView> {
    flushed(scan_lines(lines(text)))
}

/// The line scanner's state.
pub struct LogScan {
    done: Vec<LogMessage>,
    stack: Vec<String>,
    current: Option<LogMessage>,
}

impl View for LogScan {
    type V = ScanView;

    closed spec fn view(&self) -> ScanView {
        ScanView {
            done: message_views(self.done@),
            stack: string_views(self.stack@),
            current: match self.current {
                Some(m) => Some(m@),
                None => None,
            },
        }
    }
}

fn is_warning_line(t: &Vec<char>) -> (b: bool)
    ensures
        b == is_warning_text(t@),
{
    has_infix_str(t, "Warning") || has_infix_str(t, "警告") || has_prefix_str(t, "Overfull")
        || has_prefix_str(t, "Underfull")
}

fn is_noise(t: &Vec<char>) -> (b: bool)
    ensures
        b == is_noise_text(t@),
{
    same_as_str(t, "?") || has_prefix_str(t, "Latexmk:") || has_prefix_str(t, "===")
        || has_prefix_str(t, "Run number") || has_prefix_str(t, "This is ") || has_prefix_str(
        t,
        "entering extended mode",
    ) || has_prefix_str(t, "restricted \\write18") || has_prefix_str(t, "Document Class:")
        || has_prefix_str(t, "Type X to quit") || has_prefix_str(t, "or enter new name")
        || has_prefix_str(t, "Enter file name:") || has_prefix_str(t, "*** ")
}

fn leading_closers_exec(t: &Vec<char>) -> (n: usize)
    ensures
        n == leading_closers(t@),
        n <= t.len(),
{
    let mut i: usize = 0;
    assert(t@.skip(0) =~= t@);
    while i < t.len() && t[i] == ')'
        invariant
            i <= t.len(),
            leading_closers(t@) == i + leading_closers(t@.skip(i as int)),
        decreases t.len() - i,
    {
        assert(t@.skip(i as int).drop_first() =~= t@.skip(i + 1));
        i = i + 1;
    }
    i
}

impl LogScan {
    /// The state before the first line.
    pub fn new() -> (s: Self)
        ensures
            s@ == scan_start(),
    {
        let s = LogScan { done: Vec::new(), stack: Vec::new(), current: None };
        assert(s@.done =~= Seq::<LogMessageView>::empty());
        assert(s@.stack =~= Seq::<Seq<char>>::empty());
        s
    }

    fn flush(&mut self)
        ensures
            final(self)@.done == flushed(old(self)@),
            final(self)@.stack == old(self)@.stack,
            final(self)@.current is None,
    {
        let ghost before = self.done@;
        match self.current.take() {
            Some(m) => {
                self.done.push(m);
                assert(message_views(self.done@) =~= message_views(before).push(m@));
            },
            None => {},
        }
    }

    fn begin(&mut self, kind: MessageKind, t: &Vec<char>, line: &str)
        ensures
            final(self)@ == started(old(self)@, kind, t@, line@),
    {
        self.flush();
        let n = self.stack.len();
        let file = if n > 0 {
            Some(self.stack[n - 1].clone())
        } else {
            None
        };
        let msg = LogMessage {
            kind,
            message: string_of(t),
            file,
            line: None,
            raw: line.to_string(),
        };
        self.current = Some(msg);
    }

    /// Feeds one line. `line_marker` must be the capture that
    /// [`crate::patterns::first_capture`] gives for the line-marker pattern on
    /// the trimmed line, and `opened` the one for the file-open pattern on the
    /// line, and `reopened` the one for the file-open pattern on what follows
    /// the leading `)` of the trimmed line; the scanner only looks at each
    /// when the rules before it did not apply.
    pub fn feed(
        &mut self,
        line: &str,
        line_marker: Option<String>,
        opened: Option<String>,
        reopened: Option<String>,
    )
        ensures
            final(self)@ == scan_step(
                old(self)@,
                line@,
                line_marker.deep_view(),
                opened.deep_view(),
                reopened.deep_view(),
            ),
    {
        let lc = chars_of(line);
        let t = trim_chars(&lc);
        if t.len() > 0 && t[0] == '!' {
            self.begin(MessageKind::Error, &t, line);
        } else if let Some(d) = line_marker {
            match self.current.take() {
                Some(m) => {
                    let mut m = m;
                    if m.kind == MessageKind::Error {
                        let dc = chars_of(d.as_str());
                        m.line = parse_u32_chars(&dc);
                    }
                    self.current = Some(m);
                },
                None => {},
            }
        } else if let Some(p) = opened {
            let ghost before = self.stack@;
            self.stack.push(p);
            assert(string_views(self.stack@) =~= string_views(before).push(p@));
        } else if t.len() > 0 && t[0] == ')' {
            let n = leading_closers_exec(&t);
            let ghost orig = string_views(self.stack@);
            let mut k: usize = 0;
            assert(orig.take(orig.len() as int) =~= orig);
            while k < n && self.stack.len() > 0
                invariant
                    k <= n,
                    string_views(self.stack@) == popped(orig, k as nat),
                    self.done == old(self).done,
                    self.current == old(self).current,
                decreases n - k,
            {
                let ghost before = self.stack@;
                self.stack.pop();
                assert(string_views(self.stack@) =~= string_views(before).drop_last());
                k = k + 1;
                assert(string_views(self.stack@) =~= popped(orig, k as nat));
            }
            if k < n {
                assert(popped(orig, k as nat).len() == 0);
                assert(popped(orig, n as nat) =~= Seq::<Seq<char>>::empty());
                assert(string_views(self.stack@) =~= popped(orig, n as nat));
            }
            if let Some(f) = reopened {
                let ghost before = self.stack@;
                self.stack.push(f);
                assert(string_views(self.stack@) =~= string_views(before).push(f@));
            }
        } else if is_warning_line(&t) {
            self.begin(MessageKind::Warning, &t, line);
        } else if is_noise(&t) || t.len() == 0 {
        } else {
            match self.current.take() {
                Some(m) => {
                    let mut m = m;
                    let mut tail: Vec<char> = Vec::new();
                    tail.push('\n');
                    let mut i: usize = 0;
                    while i < t.len()
                        invariant
                            i <= t.len(),
                            tail@ == seq!['\n'] + t@.take(i as int),
                        decreases t.len() - i,
                    {
                        tail.push(t[i]);
                        i = i + 1;
                        assert(tail@ =~= seq!['\n'] + t@.take(i as int));
                    }
                    assert(t@.take(t.len() as int) =~= t@);
                    let mut chars = chars_of(m.message.as_str());
                    let mut j: usize = 0;
                    let ghost head = chars@;
                    while j < tail.len()
                        invariant
                            j <= tail.len(),
                            chars@ == head + tail@.take(j as int),
                        decreases tail.len() - j,
                    {
                        chars.push(tail[j]);
                        j = j + 1;
                        assert(chars@ =~= head + tail@.take(j as int));
                    }
                    assert(tail@.take(tail.len() as int) =~= tail@);
                    m.message = string_of(&chars);
                    assert(m.message@ =~= head + seq!['\n'] + t@);
                    self.current = Some(m);
                },
                None => {},
            }
        }
    }

    /// The messages, the one under way last.
    pub fn finish(self) -> (r: Vec<LogMessage>)
        ensures
            message_views(r@) == flushed(self@),
    {
        let mut s = self;
        s.flush();
        s.done
    }
}

/// Parses the full text of a `.log`: no state kept between calls, no I/O.
pub fn parse_log(text: &str) -> (r: Vec<LogMessage>)
    ensures
        message_views(r@) == parse_log_spec(text@),
{
    let chars = chars_of(text);
    let ls = lines_of(&chars);
    let mut scan = LogScan::new();
    let mut k: usize = 0;
    while k < ls.len()
        invariant
            k <= ls.len(),
            scan@ == scan_lines(views(ls@).take(k as int)),
        decreases ls.len() - k,
    {
        let line = &ls[k];
        let line_s = string_of(line);
        let t = trim_chars(line);
        let t_s = string_of(&t);
        let bang = t.len() > 0 && t[0] == '!';
        let marker = if bang {
            None
        } else {
            first_capture("^l\\.(\\d+)", t_s.as_str(), 1)
        };
        let opened = if bang || marker.is_some() {
            None
        } else {
            first_capture(
                "^\\(+([^()\\r\\n]*?\\.(?:tex|cls|sty|def|clo|cfg|fd|ltx|dtx|ins))",
                line_s.as_str(),
                1,
            )
        };
        let reopened = if bang || marker.is_some() || opened.is_some() || !(t.len() > 0 && t[0]
            == ')') {
            None
        } else {
            let n = leading_closers_exec(&t);
            let rest = sub_chars(&t, n, t.len());
            assert(rest@ =~= after_closers(t@));
            let rest_s = string_of(&rest);
            first_capture(
                "^\\(+([^()\\r\\n]*?\\.(?:tex|cls|sty|def|clo|cfg|fd|ltx|dtx|ins))",
                rest_s.as_str(),
                1,
            )
        };
        proof {
            let vs = views(ls@);
            assert(vs.take(k + 1).drop_last() =~= vs.take(k as int));
            assert(vs.take(k + 1).last() == line@);
        }
        scan.feed(line_s.as_str(), marker, opened, reopened);
        k = k + 1;
    }
    assert(views(ls@).take(ls.len() as int) =~= views(ls@));
    scan.finish()
}

/// A message as the scanner builds it: its text is not empty, it is an
/// error exactly when its text begins with `!`, and only errors carry a
/// line number.
pub open spec fn well_formed_message(m: LogMessageView) -> bool {
    &&& m.message.len() > 0
    &&& (m.kind == MessageKind::Error <==> m.message[0] == '!')
    &&& (m.kind == MessageKind::Warning ==> m.line is None)
}

/// Every message of the state is well formed.
pub open spec fn scan_ok(s: ScanView) -> bool {
    &&& forall|i: int| 0 <= i < s.done.len() ==> well_formed_message(#[trigger] s.done[i])
    &&& s.current matches Some(m) ==> well_formed_message(m)
}

proof fn lemma_step_ok(
    s: ScanView,
    line: Seq<char>,
    marker: Option<Seq<char>>,
    opened: Option<Seq<char>>,
    reopened: Option<Seq<char>>,
)
    requires
        scan_ok(s),
    ensures
        scan_ok(scan_step(s, line, marker, opened, reopened)),
{
    let t = trim(line);
    assert forall|i: int| 0 <= i < flushed(s).len() implies well_formed_message(#[trigger] flushed(s)[i]) by {
        if i < s.done.len() {
            assert(flushed(s)[i] == s.done[i]);
        }
    }
    if !(t.len() > 0 && t[0] == '!') && marker is None && opened is None && !(t.len() > 0 && t[0]
        == ')') && !is_warning_text(t) && !is_noise_text(t) && t.len() > 0 {
        if let Some(m) = s.current {
            let joined = m.message + seq!['\n'] + t;
            assert(joined[0] == m.message[0]);
        }
    }
    if !(t.len() > 0 && t[0] == '!') && marker is None && opened is None && !(t.len() > 0 && t[0]
        == ')') && is_warning_text(t) {
        if t.len() == 0 {
            assert(!contains(t, "警告"@)) by {
                reveal_strlit("警告");
            }
            assert(!contains(t, "Warning"@)) by {
                reveal_strlit("Warning");
            }
            assert(!starts_with(t, "Overfull"@)) by {
                reveal_strlit("Overfull");
            }
            assert(!starts_with(t, "Underfull"@)) by {
                reveal_strlit("Underfull");
            }
        }
    }
}

proof fn lemma_scan_lines_ok(ls: Seq<Seq<char>>)
    ensures
        scan_ok(scan_lines(ls)),
    decreases ls.len(),
{
    if ls.len() > 0 {
        lemma_scan_lines_ok(ls.drop_last());
        let l = ls.last();
        lemma_step_ok(
            scan_lines(ls.drop_last()),
            l,
            regex_first_capture(line_marker_pattern(), trim(l), 1),
            regex_first_capture(file_open_pattern(), l, 1),
            regex_first_capture(file_open_pattern(), after_closers(trim(l)), 1),
        );
    }
}

/// Every message of a parsed log is well formed: its text is not empty, it
/// is an error exactly when its text begins with `!`, and only errors carry
/// a line number.
pub proof fn lemma_parsed_messages_well_formed(text: Seq<char>)
    ensures
        forall|i: int| 0 <= i < parse_log_spec(text).len() ==> well_formed_message(
            #[trigger] parse_log_spec(text)[i],
        ),
{
    let s = scan_lines(lines(text));
    lemma_scan_lines_ok(lines(text));
    assert forall|i: int| 0 <= i < flushed(s).len() implies well_formed_message(#[trigger] flushed(s)[i]) by {
        if i < s.done.len() {
            assert(flushed(s)[i] == s.done[i]);
        }
    }
}

/// A continuation line (not blank, not noise, and none of the earlier rules
/// applies) is appended, after a line break and trimmed, to the message
/// under way, whether that message is an error or a warning; nothing else
/// changes. With no message under way it is dropped.
pub proof fn lemma_continuation_appended(s: ScanView, line: Seq<char>, reopened: Option<Seq<char>>)
    requires
        trim(line).len() > 0,
        trim(line)[0] != '!',
        trim(line)[0] != ')',
        !is_warning_text(trim(line)),
        !is_noise_text(trim(line)),
    ensures
        s.current matches Some(m) ==> scan_step(s, line, None, None, reopened) == (ScanView {
            done: s.done,
            stack: s.stack,
            current: Some(
                LogMessageView {
                    kind: m.kind,
                    message: m.message + seq!['\n'] + trim(line),
                    file: m.file,
                    line: m.line,
                    raw: m.raw,
                },
            ),
        }),
        s.current is None ==> scan_step(s, line, None, None, reopened) == s,
{
}

/// A line whose trimmed text starts with `!` closes the message under way
/// (it joins the finished ones) and begins an error: its text is the
/// trimmed line, its file the innermost open file, no line number yet, and
/// the line as it stood.
pub proof fn lemma_bang_starts_error(
    s: ScanView,
    line: Seq<char>,
    marker: Option<Seq<char>>,
    opened: Option<Seq<char>>,
    reopened: Option<Seq<char>>,
)
    requires
        trim(line).len() > 0,
        trim(line)[0] == '!',
    ensures
        ({
            let n = scan_step(s, line, marker, opened, reopened);
            &&& n.stack == s.stack
            &&& n.done == (match s.current {
                Some(m) => s.done.push(m),
                None => s.done,
            })
            &&& n.current == Some(
                LogMessageView {
                    kind: MessageKind::Error,
                    message: trim(line),
                    file: if s.stack.len() > 0 {
                        Some(s.stack[s.stack.len() - 1])
                    } else {
                        None
                    },
                    line: None,
                    raw: line,
                },
            )
        }),
{
}

/// A line-marker line gives the error under way the marker's number and
/// leaves a warning (or no message) alone.
pub proof fn lemma_marker_sets_error_line(
    s: ScanView,
    line: Seq<char>,
    marker: Seq<char>,
    opened: Option<Seq<char>>,
    reopened: Option<Seq<char>>,
)
    requires
        !(trim(line).len() > 0 && trim(line)[0] == '!'),
    ensures
        ({
            let n = scan_step(s, line, Some(marker), opened, reopened);
            &&& n.done == s.done
            &&& n.stack == s.stack
            &&& (s.current matches Some(m) ==> m.kind == MessageKind::Error ==> n.current == Some(
                LogMessageView {
                    kind: m.kind,
                    message: m.message,
                    file: m.file,
                    line: parse_u32_spec(marker),
                    raw: m.raw,
                },
            ))
            &&& (!(s.current matches Some(m) && m.kind == MessageKind::Error) ==> n.current
                == s.current)
        }),
{
}

/// A continuation line of a log: not blank, not noise, it starts neither
/// with `!` nor with `)`, it is no warning line, and neither the
/// line-marker pattern (on the trimmed line) nor the file-open pattern (on
/// the line) finds anything in it.
pub open spec fn is_continuation_line(l: Seq<char>) -> bool {
    let t = trim(l);
    &&& t.len() > 0
    &&& t[0] != '!'
    &&& t[0] != ')'
    &&& !is_warning_text(t)
    &&& !is_noise_text(t)
    &&& regex_first_capture(line_marker_pattern(), t, 1) is None
    &&& regex_first_capture(file_open_pattern(), l, 1) is None
}

/// What continuation lines add to a message: for each, a line break and the
/// trimmed line, in order.
pub open spec fn continuation_text(cont: Seq<Seq<char>>) -> Seq<char>
    decreases cont.len(),
{
    if cont.len() == 0 {
        Seq::empty()
    } else {
        continuation_text(cont.drop_last()) + seq!['\n'] + trim(cont.last())
    }
}

/// Continuation lines that follow a message under way extend its text, each
/// after a line break, whatever kind the message is; the finished messages,
/// the open files and the rest of the message stay as they were.
pub proof fn lemma_continuations_join(prefix: Seq<Seq<char>>, cont: Seq<Seq<char>>)
    requires
        scan_lines(prefix).current is Some,
        forall|i: int| 0 <= i < cont.len() ==> is_continuation_line(#[trigger] cont[i]),
    ensures
        ({
            let s = scan_lines(prefix);
            let m = s.current->0;
            scan_lines(prefix + cont) == (ScanView {
                done: s.done,
                stack: s.stack,
                current: Some(
                    LogMessageView {
                        kind: m.kind,
                        message: m.message + continuation_text(cont),
                        file: m.file,
                        line: m.line,
                        raw: m.raw,
                    },
                ),
            })
        }),
    decreases cont.len(),
{
    let s = scan_lines(prefix);
    let m = s.current->0;
    if cont.len() == 0 {
        assert(prefix + cont =~= prefix);
        assert(m.message + continuation_text(cont) =~= m.message);
    } else {
        let init = cont.drop_last();
        let l = cont.last();
        assert forall|i: int| 0 <= i < init.len() implies is_continuation_line(#[trigger] init[i]) by {
            assert(init[i] == cont[i]);
        }
        lemma_continuations_join(prefix, init);
        let all = prefix + cont;
        assert(all.drop_last() =~= prefix + init);
        assert(all.last() == l);
        assert(is_continuation_line(cont[cont.len() - 1]));
        let before = scan_lines(prefix + init);
        lemma_continuation_appended(before, l, regex_first_capture(file_open_pattern(), after_closers(trim(l)), 1));
        assert(m.message + continuation_text(init) + seq!['\n'] + trim(l) =~= m.message
            + continuation_text(cont));
    }
}

/// A log whose lines are one warning line followed by continuation lines
/// parses to a single warning: its text is the trimmed warning line with
/// each continuation line appended after a line break, with no file (none
/// is open), no line number, and the warning line as it stood.
pub proof fn lemma_warning_with_continuations(text: Seq<char>, w: Seq<char>, cont: Seq<Seq<char>>)
    requires
        lines(text) == seq![w] + cont,
        is_warning_text(trim(w)),
        !(trim(w).len() > 0 && (trim(w)[0] == '!' || trim(w)[0] == ')')),
        regex_first_capture(line_marker_pattern(), trim(w), 1) is None,
        regex_first_capture(file_open_pattern(), w, 1) is None,
        forall|i: int| 0 <= i < cont.len() ==> is_continuation_line(#[trigger] cont[i]),
    ensures
        parse_log_spec(text) == seq![
            LogMessageView {
                kind: MessageKind::Warning,
                message: trim(w) + continuation_text(cont),
                file: None,
                line: None,
                raw: w,
            },
        ],
{
    let first = seq![w];
    assert(first.drop_last() =~= Seq::<Seq<char>>::empty());
    assert(first.last() == w);
    assert(scan_lines(first.drop_last()) == scan_start());
    assert(scan_lines(first) == started(scan_start(), MessageKind::Warning, trim(w), w));
    lemma_continuations_join(first, cont);
    let s = scan_lines(first + cont);
    assert(s.done =~= Seq::<LogMessageView>::empty());
}

/// `leading_closers` counts the `)` that a text starts with: every one of
/// the first that many characters is `)`, and the next one, if any, is not.
pub proof fn lemma_leading_closers_counts(t: Seq<char>)
    ensures
        leading_closers(t) <= t.len(),
        forall|i: int| 0 <= i < leading_closers(t) ==> t[i] == ')',
        leading_closers(t) < t.len() ==> t[leading_closers(t) as int] != ')',
    decreases t.len(),
{
    if t.len() > 0 && t[0] == ')' {
        lemma_leading_closers_counts(t.drop_first());
        assert forall|i: int| 0 <= i < leading_closers(t) implies t[i] == ')' by {
            if i > 0 {
                assert(t[i] == t.drop_first()[i - 1]);
            }
        }
    }
}

/// A line that opens an input file (and is no error line and no line
/// marker) pushes that file on the stack; nothing else changes.
pub proof fn lemma_open_pushes_file(
    s: ScanView,
    line: Seq<char>,
    f: Seq<char>,
    reopened: Option<Seq<char>>,
)
    requires
        !(trim(line).len() > 0 && trim(line)[0] == '!'),
    ensures
        scan_step(s, line, None, Some(f), reopened) == (ScanView {
            done: s.done,
            stack: s.stack.push(f),
            current: s.current,
        }),
{
}

/// A line whose trimmed text starts with `)` (and that no earlier rule
/// takes) closes one open file per leading `)`, the innermost first, and
/// no more than are open; a file opened right after them is then pushed.
/// The messages do not change.
pub proof fn lemma_closers_pop(s: ScanView, line: Seq<char>, reopened: Option<Seq<char>>)
    requires
        trim(line).len() > 0,
        trim(line)[0] == ')',
    ensures
        ({
            let k = leading_closers(trim(line));
            let n = scan_step(s, line, None, None, reopened);
            let kept = if k >= s.stack.len() {
                Seq::<Seq<char>>::empty()
            } else {
                s.stack.subrange(0, s.stack.len() - k)
            };
            &&& k >= 1
            &&& n.done == s.done
            &&& n.current == s.current
            &&& n.stack == (match reopened {
                Some(f) => kept.push(f),
                None => kept,
            })
        }),
{
    let t = trim(line);
    assert(leading_closers(t) == 1 + leading_closers(t.drop_first()));
}

/// A warning line (no error line, no line marker, no file opened or
/// closed) closes the message under way and begins a warning: its text is
/// the trimmed line, its file the innermost open file, no line number, and
/// the line as it stood.
pub proof fn lemma_warning_starts(s: ScanView, line: Seq<char>, reopened: Option<Seq<char>>)
    requires
        !(trim(line).len() > 0 && (trim(line)[0] == '!' || trim(line)[0] == ')')),
        is_warning_text(trim(line)),
    ensures
        scan_step(s, line, None, None, reopened) == (ScanView {
            done: match s.current {
                Some(m) => s.done.push(m),
                None => s.done,
            },
            stack: s.stack,
            current: Some(
                LogMessageView {
                    kind: MessageKind::Warning,
                    message: trim(line),
                    file: if s.stack.len() > 0 {
                        Some(s.stack[s.stack.len() - 1])
                    } else {
                        None
                    },
                    line: None,
                    raw: line,
                },
            ),
        }),
{
}

/// Blank lines and noise lines (that no earlier rule takes) change nothing.
pub proof fn lemma_noise_ignored(s: ScanView, line: Seq<char>, reopened: Option<Seq<char>>)
    requires
        !(trim(line).len() > 0 && (trim(line)[0] == '!' || trim(line)[0] == ')')),
        !is_warning_text(trim(line)),
        trim(line).len() == 0 || is_noise_text(trim(line)),
    ensures
        scan_step(s, line, None, None, reopened) == s,
{
}

/// Finishing hands back the finished messages in order, with the one under
/// way, if any, last.
pub proof fn lemma_finish_keeps_order(s: ScanView)
    ensures
        flushed(s).take(s.done.len() as int) == s.done,
        s.current matches Some(m) ==> flushed(s).len() == s.done.len() + 1 && flushed(s).last() == m,
        s.current is None ==> flushed(s) == s.done,
{
    assert(flushed(s).take(s.done.len() as int) =~= s.done);
}

} // verus!
