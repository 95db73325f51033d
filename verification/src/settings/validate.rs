//! Range checks on settings and overrides.

use vstd::prelude::*;
use crate::path::split_pieces_state;
use crate::text::{chars_of, concat_chars, decimal, decimal_chars, string_of, string_views};
use super::model::{default_settings_spec, CompileOverrides, ProjectOverrides, Settings};

verus! {

/// Accepted compilation time limits: 5 to 600 seconds.
pub open spec fn timeout_ok(v: u64) -> bool {
    5 <= v && v <= 600
}

/// Accepted debounce delays: 100 to 2000 milliseconds.
pub open spec fn debounce_ok(v: u64) -> bool {
    100 <= v && v <= 2000
}

/// The complaint about a time limit out of range.
pub open spec fn timeout_message(v: u64) -> Seq<char> {
    "compile.timeout_secs 必须在 5..=600 之间（当前 "@ + decimal(v as nat) + "）"@
}

/// The complaint about a debounce delay out of range.
pub open spec fn debounce_message(v: u64) -> Seq<char> {
    "compile.debounce_ms 必须在 100..=2000 之间（当前 "@ + decimal(v as nat) + "）"@
}

/// Every piece of `s` between separators, empty ones included.
pub open spec fn all_pieces(s: Seq<char>) -> Seq<Seq<char>> {
    split_pieces_state(s).0.push(split_pieces_state(s).1)
}

/// What is wrong with the form of a manual root file: empty, or holding a
/// `..` piece (a path that could leave the project).
pub open spec fn root_file_problem(rf: Seq<char>) -> Option<Seq<char>> {
    if rf.len() == 0 {
        Some("root_file 不能为空"@)
    } else if all_pieces(rf).contains(seq!['.', '.']) {
        Some("root_file 不允许包含 .. 组件（疑似越权路径）"@)
    } else {
        None
    }
}

/// The complaints about effective settings, in order.
pub open spec fn settings_problems(s: Settings) -> Seq<Seq<char>> {
    (if timeout_ok(s.compile.timeout_secs) {
        Seq::empty()
    } else {
        seq![timeout_message(s.compile.timeout_secs)]
    }) + (if debounce_ok(s.compile.debounce_ms) {
        Seq::empty()
    } else {
        seq![debounce_message(s.compile.debounce_ms)]
    })
}

/// The complaints about a project's overrides, in order (only keys present
/// are checked).
pub open spec fn overrides_problems(o: ProjectOverrides) -> Seq<Seq<char>> {
    (match o.root_file {
        Some(rf) => match root_file_problem(rf@) {
            Some(m) => seq![m],
            None => Seq::empty(),
        },
        None => Seq::empty(),
    }) + (match o.compile {
        Some(c) => (match c.timeout_secs {
            Some(v) => if timeout_ok(v) {
                Seq::empty()
            } else {
                seq![timeout_message(v)]
            },
            None => Seq::empty(),
        }) + (match c.debounce_ms {
            Some(v) => if debounce_ok(v) {
                Seq::empty()
            } else {
                seq![debounce_message(v)]
            },
            None => Seq::empty(),
        }),
        None => Seq::empty(),
    })
}

/// Compilation overrides with the out-of-range values dropped.
pub open spec fn sanitized_compile(c: CompileOverrides) -> CompileOverrides {
    CompileOverrides {
        mode: c.mode,
        debounce_ms: match c.debounce_ms {
            Some(v) => if debounce_ok(v) {
                Some(v)
            } else {
                None
            },
            None => None,
        },
        timeout_secs: match c.timeout_secs {
            Some(v) => if timeout_ok(v) {
                Some(v)
            } else {
                None
            },
            None => None,
        },
        engine: c.engine,
    }
}

/// Overrides with every invalid value dropped (it then inherits).
pub open spec fn sanitized(o: ProjectOverrides) -> ProjectOverrides {
    ProjectOverrides {
        schema_version: o.schema_version,
        compile: match o.compile {
            Some(c) => Some(sanitized_compile(c)),
            None => None,
        },
        root_file: match o.root_file {
            Some(rf) => if root_file_problem(rf@) is Some {
                None
            } else {
                Some(rf)
            },
            None => None,
        },
    }
}

fn message_with_number(head: &str, v: u64, tail: &str) -> (r: String)
    ensures
        r@ == head@ + decimal(v as nat) + tail@,
{
    let h = chars_of(head);
    let d = decimal_chars(v);
    let t = chars_of(tail);
    let hd = concat_chars(&h, &d);
    let all = concat_chars(&hd, &t);
    string_of(&all)
}

fn timeout_message_exec(v: u64) -> (r: String)
    ensures
        r@ == timeout_message(v),
{
    message_with_number("compile.timeout_secs 必须在 5..=600 之间（当前 ", v, "）")
}

fn debounce_message_exec(v: u64) -> (r: String)
    ensures
        r@ == debounce_message(v),
{
    message_with_number("compile.debounce_ms 必须在 100..=2000 之间（当前 ", v, "）")
}

/// Does the path text hold a `..` piece between separators.
fn has_dotdot_piece(v: &Vec<char>) -> (b: bool)
    ensures
        b == all_pieces(v@).contains(seq!['.', '.']),
{
    let ghost dd: Seq<char> = seq!['.', '.'];
    let mut found = false;
    let mut cur_len: usize = 0;
    let mut cur_dots: bool = true;
    let mut i: usize = 0;
    assert(v@.take(0) =~= Seq::<char>::empty());
    while i < v.len()
        invariant
            i <= v.len(),
            dd == seq!['.', '.'],
            found == split_pieces_state(v@.take(i as int)).0.contains(dd),
            cur_len == split_pieces_state(v@.take(i as int)).1.len(),
            cur_len <= i,
            cur_dots == (forall|k: int| 0 <= k < cur_len ==> #[trigger] split_pieces_state(v@.take(i as int)).1[k] == '.'),
        decreases v.len() - i,
    {
        let c = v[i];
        let ghost st = split_pieces_state(v@.take(i as int));
        proof {
            assert(v@.take(i + 1).drop_last() =~= v@.take(i as int));
        }
        if c == '/' || c == '\\' {
            let is_dd = cur_len == 2 && cur_dots;
            proof {
                if cur_len == 2 && cur_dots {
                    assert(st.1 =~= dd);
                } else if st.1 == dd {
                    assert(st.1[0] == '.' && st.1[1] == '.');
                }
                let nd = st.0.push(st.1);
                if nd.contains(dd) && !st.0.contains(dd) {
                    let w = choose|w: int| 0 <= w < nd.len() && nd[w] == dd;
                    assert(w == st.0.len());
                }
                if st.0.contains(dd) {
                    let w = choose|w: int| 0 <= w < st.0.len() && st.0[w] == dd;
                    assert(nd[w] == dd);
                }
                if st.1 == dd {
                    assert(nd[st.0.len() as int] == dd);
                }
            }
            found = found || is_dd;
            cur_len = 0;
            cur_dots = true;
        } else {
            proof {
                let nc = st.1.push(c);
                assert(split_pieces_state(v@.take(i + 1)).1 == nc);
                if cur_dots && c == '.' {
                    assert forall|k: int| 0 <= k < cur_len + 1 implies #[trigger] nc[k] == '.' by {
                        if k < cur_len {
                            assert(nc[k] == st.1[k]);
                        }
                    }
                } else if !cur_dots {
                    let k = choose|k: int| 0 <= k < cur_len && st.1[k] != '.';
                    assert(nc[k] != '.');
                } else {
                    assert(nc[cur_len as int] == c);
                }
            }
            cur_dots = cur_dots && c == '.';
            cur_len = cur_len + 1;
        }
        i = i + 1;
    }
    assert(v@.take(v.len() as int) =~= v@);
    let ghost st = split_pieces_state(v@);
    let last_dd = cur_len == 2 && cur_dots;
    proof {
        if cur_len == 2 && cur_dots {
            assert(st.1 =~= dd);
        } else if st.1 == dd {
            assert(st.1[0] == '.' && st.1[1] == '.');
        }
        let nd = st.0.push(st.1);
        if nd.contains(dd) && !st.0.contains(dd) {
            let w = choose|w: int| 0 <= w < nd.len() && nd[w] == dd;
            assert(w == st.0.len());
        }
        if st.0.contains(dd) {
            let w = choose|w: int| 0 <= w < st.0.len() && st.0[w] == dd;
            assert(nd[w] == dd);
        }
        if st.1 == dd {
            assert(nd[st.0.len() as int] == dd);
        }
    }
    found || last_dd
}

/// The complaint about the form of a manual root file, if any.
pub fn validate_root_file_form(root_file: &str) -> (r: Option<String>)
    ensures
        r matches Some(m) ==> root_file_problem(root_file@) == Some(m@),
        r is None ==> root_file_problem(root_file@) is None,
{
    let v = chars_of(root_file);
    if v.len() == 0 {
        let m = "root_file 不能为空".to_string();
        return Some(m);
    }
    if has_dotdot_piece(&v) {
        let m = "root_file 不允许包含 .. 组件（疑似越权路径）".to_string();
        return Some(m);
    }
    None
}

/// Checks effective settings: the time limit must be 5..=600 s and the
/// debounce delay 100..=2000 ms. On failure every complaint is returned.
pub fn validate(s: &Settings) -> (r: Result<(), Vec<String>>)
    ensures
        r is Ok <==> settings_problems(*s).len() == 0,
        r matches Err(e) ==> string_views(e@) == settings_problems(*s),
{
    let mut errs: Vec<String> = Vec::new();
    let t = s.compile.timeout_secs;
    if !(5 <= t && t <= 600) {
        errs.push(timeout_message_exec(t));
    }
    let ghost mid = errs@;
    let d = s.compile.debounce_ms;
    if !(100 <= d && d <= 2000) {
        errs.push(debounce_message_exec(d));
    }
    assert(string_views(errs@) =~= settings_problems(*s));
    if errs.len() == 0 {
        Ok(())
    } else {
        Err(errs)
    }
}

/// Replaces, field by field, invalid override values with `None` so that they
/// inherit the global value; valid values stay. Used when loading overrides.
pub fn sanitize_overrides(o: &mut ProjectOverrides)
    ensures
        *final(o) == sanitized(*old(o)),
{
    let bad_root = match &o.root_file {
        Some(rf) => validate_root_file_form(rf.as_str()).is_some(),
        None => false,
    };
    if bad_root {
        o.root_file = None;
    }
    if let Some(c) = o.compile {
        let mut c2 = c;
        if let Some(t) = c.timeout_secs {
            if !(5 <= t && t <= 600) {
                c2.timeout_secs = None;
            }
        }
        if let Some(d) = c.debounce_ms {
            if !(100 <= d && d <= 2000) {
                c2.debounce_ms = None;
            }
        }
        o.compile = Some(c2);
    }
}

/// Checks a project's overrides (only the keys present): the root file's
/// form and the ranges. On failure every complaint is returned.
pub fn validate_overrides(o: &ProjectOverrides) -> (r: Result<(), Vec<String>>)
    ensures
        r is Ok <==> overrides_problems(*o).len() == 0,
        r matches Err(e) ==> string_views(e@) == overrides_problems(*o),
{
    let mut errs: Vec<String> = Vec::new();
    if let Some(rf) = &o.root_file {
        if let Some(m) = validate_root_file_form(rf.as_str()) {
            errs.push(m);
        }
    }
    let ghost first = errs@;
    if let Some(c) = o.compile {
        if let Some(v) = c.timeout_secs {
            if !(5 <= v && v <= 600) {
                errs.push(timeout_message_exec(v));
            }
        }
        if let Some(v) = c.debounce_ms {
            if !(100 <= v && v <= 2000) {
                errs.push(debounce_message_exec(v));
            }
        }
    }
    assert(string_views(errs@) =~= overrides_problems(*o));
    if errs.len() == 0 {
        Ok(())
    } else {
        Err(errs)
    }
}

/// The defaults pass validation.
pub proof fn lemma_defaults_are_valid()
    ensures
        settings_problems(default_settings_spec()).len() == 0,
{
}

/// Sanitizing leaves overrides that pass validation, keeps overrides that
/// already passed, and changes nothing more when repeated.
pub proof fn lemma_sanitize_laws(o: ProjectOverrides)
    ensures
        overrides_problems(sanitized(o)).len() == 0,
        overrides_problems(o).len() == 0 ==> sanitized(o) == o,
        sanitized(sanitized(o)) == sanitized(o),
{
    if overrides_problems(o).len() == 0 {
        let head: Seq<Seq<char>> = match o.root_file {
            Some(rf) => match root_file_problem(rf@) {
                Some(m) => seq![m],
                None => Seq::empty(),
            },
            None => Seq::empty(),
        };
        assert(head.len() <= overrides_problems(o).len());
        match o.compile {
            Some(c) => {
                let t: Seq<Seq<char>> = match c.timeout_secs {
                    Some(v) => if timeout_ok(v) { Seq::empty() } else { seq![timeout_message(v)] },
                    None => Seq::empty(),
                };
                let d: Seq<Seq<char>> = match c.debounce_ms {
                    Some(v) => if debounce_ok(v) { Seq::empty() } else { seq![debounce_message(v)] },
                    None => Seq::empty(),
                };
                assert(overrides_problems(o) == head + (t + d));
                assert(sanitized_compile(c) == c);
            },
            None => {},
        }
    }
}

/// Effective settings pass validation exactly when the time limit lies in
/// 5..=600 seconds and the debounce delay in 100..=2000 milliseconds; each
/// value out of range brings one complaint, the time limit's first.
pub proof fn lemma_settings_valid_iff_in_range(s: Settings)
    ensures
        settings_problems(s).len() == 0 <==> (5 <= s.compile.timeout_secs <= 600 && 100
            <= s.compile.debounce_ms <= 2000),
        !(5 <= s.compile.timeout_secs <= 600) ==> settings_problems(s)[0] == timeout_message(
            s.compile.timeout_secs,
        ),
        (5 <= s.compile.timeout_secs <= 600) && !(100 <= s.compile.debounce_ms <= 2000)
            ==> settings_problems(s) == seq![debounce_message(s.compile.debounce_ms)],
        settings_problems(s).len() == (if 5 <= s.compile.timeout_secs <= 600 { 0int } else { 1int })
            + (if 100 <= s.compile.debounce_ms <= 2000 { 0int } else { 1int }),
{
}

/// A project's overrides pass validation exactly when a root file, if set,
/// is not empty and has no `..` piece, and a time limit or debounce delay,
/// if set, lies in its accepted range.
pub proof fn lemma_overrides_valid_iff_in_range(o: ProjectOverrides)
    ensures
        overrides_problems(o).len() == 0 <==> {
            &&& (o.root_file matches Some(rf) ==> rf@.len() > 0 && !all_pieces(rf@).contains(
                seq!['.', '.'],
            ))
            &&& (o.compile matches Some(c) ==> {
                &&& (c.timeout_secs matches Some(v) ==> 5 <= v <= 600)
                &&& (c.debounce_ms matches Some(v) ==> 100 <= v <= 2000)
            })
        },
{
    let head: Seq<Seq<char>> = match o.root_file {
        Some(rf) => match root_file_problem(rf@) {
            Some(m) => seq![m],
            None => Seq::empty(),
        },
        None => Seq::empty(),
    };
    match o.compile {
        Some(c) => {
            let t: Seq<Seq<char>> = match c.timeout_secs {
                Some(v) => if timeout_ok(v) { Seq::empty() } else { seq![timeout_message(v)] },
                None => Seq::empty(),
            };
            let d: Seq<Seq<char>> = match c.debounce_ms {
                Some(v) => if debounce_ok(v) { Seq::empty() } else { seq![debounce_message(v)] },
                None => Seq::empty(),
            };
            assert(overrides_problems(o) == head + (t + d));
        },
        None => {
            assert(overrides_problems(o) == head + Seq::<Seq<char>>::empty());
        },
    }
}

} // verus!
