//! Regular-expression matching, done by the `regex` crate. The results are
//! named here and not restated: what a pattern captures is whatever the
//! `regex` crate's leftmost-first matching captures.

use vstd::prelude::*;

verus! {

/// The text of capture group `group` of the first match of `pattern` in
/// `text`; `None` when nothing matches, the group did not take part, or the
/// pattern does not compile.
pub uninterp spec fn regex_first_capture(pattern: Seq<char>, text: Seq<char>, group: nat) -> Option<Seq<char>>;

/// For every successive non-overlapping match of `pattern` in `text`, the
/// text of capture group `group` (`None` where the group did not take part);
/// empty when the pattern does not compile.
pub uninterp spec fn regex_all_captures(pattern: Seq<char>, text: Seq<char>, group: nat) -> Seq<Option<Seq<char>>>;

/// Trusted: compiles `pattern` with `regex::Regex::new` and returns group
/// `group` of `Regex::captures(text)`. The contract only says that the result
/// is [`regex_first_capture`] of the arguments, i.e. that it depends on them
/// alone.
#[verifier::external_body]
pub(crate) fn first_capture(pattern: &str, text: &str, group: usize) -> (r: Option<String>)
    ensures
        r.deep_view() == regex_first_capture(pattern@, text@, group as nat),
{
    let re = match regex::Regex::new(pattern) {
        Ok(re) => re,
        Err(_) => return None,
    };
    match re.captures(text) {
        Some(caps) => match caps.get(group) {
            Some(m) => Some(m.as_str().to_string()),
            None => None,
        },
        None => None,
    }
}

/// Trusted: compiles `pattern` with `regex::Regex::new` and returns group
/// `group` of each item of `Regex::captures_iter(text)`, in order. The
/// contract only says that the result is [`regex_all_captures`] of the
/// arguments.
#[verifier::external_body]
pub(crate) fn all_captures(pattern: &str, text: &str, group: usize) -> (r: Vec<Option<String>>)
    ensures
        r.deep_view() == regex_all_captures(pattern@, text@, group as nat),
{
    let re = match regex::Regex::new(pattern) {
        Ok(re) => re,
        Err(_) => return Vec::new(),
    };
    let mut out = Vec::new();
    for caps in re.captures_iter(text) {
        out.push(match caps.get(group) {
            Some(m) => Some(m.as_str().to_string()),
            None => None,
        });
    }
    out
}

} // verus!
