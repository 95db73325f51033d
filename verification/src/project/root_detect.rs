//! Root-file detection by regular-expression heuristics (no full TeX parse):
//! a candidate is a `.tex` that declares `\documentclass` and that no file
//! pulls in with `\input` or `\include`.
//!
//! Known limits, accepted: a reference inside a comment still counts;
//! `\includeonly` is not looked at; text is taken as UTF-8. A manual
//! `root_file` in the settings always overrides detection.

use vstd::prelude::*;
use crate::path::{rel_without_ext, rel_without_ext_exec, sort_paths, sorted_by_path, stable_arrangement};
use crate::patterns::{all_captures, first_capture, regex_all_captures, regex_first_capture};
use crate::text::{
    chars_of, ends_with, same_chars, string_of, string_views, sub_chars, trim, trim_chars,
};
use super::model::{RootCandidate, RootResolution};

verus! {

/// The pattern of an `\input{...}` or `\include{...}` reference.
pub open spec fn include_pattern() -> Seq<char> {
    "\\\\(input|include)\\{([^}]+)\\}"@
}

/// The pattern of a `\documentclass[...]{...}` declaration.
pub open spec fn documentclass_pattern() -> Seq<char> {
    "\\\\documentclass(\\[[^\\]]*\\])?\\{([^}]+)\\}"@
}

/// `s` with every trailing `.tex` removed (`trim_end_matches(".tex")`).
pub open spec fn strip_tex(s: Seq<char>) -> Seq<char>
    decreases s.len(),
{
    if s.len() >= 4 && ends_with(s, ".tex"@) {
        strip_tex(s.take(s.len() - 4))
    } else {
        s
    }
}

/// A reference as it is compared: trimmed, trailing `.tex` removed.
pub open spec fn normalize_ref(s: Seq<char>) -> Seq<char> {
    strip_tex(trim(s))
}

/// The normalized references among captures (a group that took no part
/// contributes nothing).
pub open spec fn refs_of(caps: Seq<Option<Seq<char>>>) -> Seq<Seq<char>>
    decreases caps.len(),
{
    if caps.len() == 0 {
        Seq::empty()
    } else {
        let front = refs_of(caps.drop_last());
        match caps.last() {
            Some(c) => front.push(normalize_ref(c)),
            None => front,
        }
    }
}

/// The references of a file's text, in order.
pub open spec fn includes_spec(content: Seq<char>) -> Seq<Seq<char>> {
    refs_of(regex_all_captures(include_pattern(), content, 2))
}

/// The document class a file's text declares, if any.
pub open spec fn documentclass_spec(content: Seq<char>) -> Option<Seq<char>> {
    regex_first_capture(documentclass_pattern(), content, 2)
}

fn strip_tex_exec(v: &Vec<char>) -> (r: Vec<char>)
    ensures
        r@ == strip_tex(v@),
{
    let mut n = v.len();
    assert(v@.take(n as int) =~= v@);
    while n >= 4 && v[n - 4] == '.' && v[n - 3] == 't' && v[n - 2] == 'e' && v[n - 1] == 'x'
        invariant
            n <= v.len(),
            strip_tex(v@) == strip_tex(v@.take(n as int)),
        decreases n,
    {
        proof {
            let t = v@.take(n as int);
            reveal_strlit(".tex");
            assert(t.subrange(t.len() - 4, t.len() as int) =~= ".tex"@);
            assert(t.take(t.len() - 4) =~= v@.take(n - 4));
        }
        n = n - 4;
    }
    proof {
        let t = v@.take(n as int);
        reveal_strlit(".tex");
        if t.len() >= 4 && ends_with(t, ".tex"@) {
            assert(t.subrange(t.len() - 4, t.len() as int)[0] == t[n - 4]);
            assert(t.subrange(t.len() - 4, t.len() as int)[1] == t[n - 3]);
            assert(t.subrange(t.len() - 4, t.len() as int)[2] == t[n - 2]);
            assert(t.subrange(t.len() - 4, t.len() as int)[3] == t[n - 1]);
        }
    }
    sub_chars(v, 0, n)
}

/// Extracts the `\input{...}` / `\include{...}` references of a text, each
/// trimmed and without trailing `.tex`.
pub fn extract_includes(content: &str) -> (r: Vec<String>)
    ensures
        string_views(r@) == includes_spec(content@),
{
    let caps = all_captures(r"\\(input|include)\{([^}]+)\}", content, 2);
    let ghost cv = caps.deep_view();
    let mut r: Vec<String> = Vec::new();
    let mut i: usize = 0;
    assert(cv.take(0) =~= Seq::<Option<Seq<char>>>::empty());
    while i < caps.len()
        invariant
            i <= caps.len(),
            cv == caps.deep_view(),
            string_views(r@) == refs_of(cv.take(i as int)),
        decreases caps.len() - i,
    {
        assert(cv.take(i + 1).drop_last() =~= cv.take(i as int));
        assert(cv.take(i + 1).last() == cv[i as int]);
        match &caps[i] {
            Some(c) => {
                let cc = chars_of(c.as_str());
                let t = trim_chars(&cc);
                let s = strip_tex_exec(&t);
                let ghost before = r@;
                r.push(string_of(&s));
                assert(string_views(r@) =~= string_views(before).push(s@));
            },
            None => {},
        }
        i = i + 1;
    }
    assert(cv.take(caps.len() as int) =~= cv);
    r
}

/// The class of a `\documentclass[...]{...}` declaration, if the text has one.
pub fn extract_documentclass(content: &str) -> (r: Option<String>)
    ensures
        r.deep_view() == documentclass_spec(content@),
{
    first_capture(r"\\documentclass(\[[^\]]*\])?\{([^}]+)\}", content, 2)
}

/// The text of file `i`, when it could be read.
pub open spec fn content_at(contents: Seq<Option<String>>, i: int) -> Option<Seq<char>> {
    if 0 <= i < contents.len() {
        match contents[i] {
            Some(c) => Some(c@),
            None => None,
        }
    } else {
        None
    }
}

/// The references made by the first `n` files.
pub open spec fn refs_upto(contents: Seq<Option<String>>, n: nat) -> Seq<Seq<char>>
    decreases n,
{
    if n == 0 {
        Seq::empty()
    } else {
        refs_upto(contents, (n - 1) as nat) + match content_at(contents, n - 1) {
            Some(c) => includes_spec(c),
            None => Seq::empty(),
        }
    }
}

/// File `i` declares a document class.
pub open spec fn declares_class(contents: Seq<Option<String>>, i: int) -> bool {
    match content_at(contents, i) {
        Some(c) => documentclass_spec(c) is Some,
        None => false,
    }
}

/// File `i` is a candidate: it declares a class and, relative to `root` and
/// without extension, is not among `refs`.
pub open spec fn is_candidate(
    files: Seq<String>,
    root: Seq<char>,
    contents: Seq<Option<String>>,
    refs: Seq<Seq<char>>,
    i: int,
) -> bool {
    declares_class(contents, i) && !refs.contains(rel_without_ext(files[i]@, root))
}

/// The candidates among the first `n` files, in file order.
pub open spec fn candidates_upto(
    files: Seq<String>,
    root: Seq<char>,
    contents: Seq<Option<String>>,
    refs: Seq<Seq<char>>,
    n: nat,
) -> Seq<Seq<char>>
    decreases n,
{
    if n == 0 {
        Seq::empty()
    } else {
        let front = candidates_upto(files, root, contents, refs, (n - 1) as nat);
        if is_candidate(files, root, contents, refs, n - 1) {
            front.push(files[n - 1]@)
        } else {
            front
        }
    }
}

/// The candidates among `files`.
pub open spec fn candidates_spec(files: Seq<String>, root: Seq<char>, contents: Seq<Option<String>>) -> Seq<Seq<char>> {
    candidates_upto(files, root, contents, refs_upto(contents, files.len()), files.len())
}

/// The paths of candidates.
pub open spec fn candidate_paths(v: Seq<RootCandidate>) -> Seq<String> {
    v.map_values(|c: RootCandidate| c.path)
}

fn contains_text(refs: &Vec<String>, x: &Vec<char>) -> (b: bool)
    ensures
        b == string_views(refs@).contains(x@),
{
    let mut i: usize = 0;
    while i < refs.len()
        invariant
            i <= refs.len(),
            forall|k: int| 0 <= k < i ==> refs@[k]@ != x@,
        decreases refs.len() - i,
    {
        let rc = chars_of(refs[i].as_str());
        if same_chars(&rc, x) {
            assert(string_views(refs@)[i as int] == x@);
            return true;
        }
        i = i + 1;
    }
    assert forall|k: int| 0 <= k < refs@.len() implies string_views(refs@)[k] != x@ by {
        assert(string_views(refs@)[k] == refs@[k]@);
    }
    false
}

/// The root-file candidates: files that declare `\documentclass` and that no
/// file references. `contents[i]` is the text of `files[i]`, `None` where it
/// could not be read (such a file neither references nor is a candidate).
pub fn find_candidates(files: &Vec<String>, root: &str, contents: &Vec<Option<String>>) -> (r: Vec<RootCandidate>)
    ensures
        string_views(candidate_paths(r@)) == candidates_spec(files@, root@, contents@),
{
    let mut refs: Vec<String> = Vec::new();
    let mut with_class: Vec<bool> = Vec::new();
    let mut i: usize = 0;
    while i < files.len()
        invariant
            i <= files.len(),
            string_views(refs@) == refs_upto(contents@, i as nat),
            with_class@.len() == i,
            forall|k: int| 0 <= k < i ==> with_class@[k] == declares_class(contents@, k),
        decreases files.len() - i,
    {
        if i < contents.len() {
            match &contents[i] {
                Some(text) => {
                    with_class.push(extract_documentclass(text.as_str()).is_some());
                    let found = extract_includes(text.as_str());
                    let ghost before = refs@;
                    let mut j: usize = 0;
                    while j < found.len()
                        invariant
                            j <= found.len(),
                            string_views(refs@) == string_views(before) + string_views(found@).take(j as int),
                        decreases found.len() - j,
                    {
                        let ghost b2 = refs@;
                        refs.push(found[j].clone());
                        j = j + 1;
                        assert(string_views(refs@) =~= string_views(b2).push(found@[j - 1]@));
                        assert(string_views(refs@) =~= string_views(before) + string_views(found@).take(j as int));
                    }
                    assert(string_views(found@).take(found.len() as int) =~= string_views(found@));
                },
                None => {
                    with_class.push(false);
                    assert(refs_upto(contents@, (i + 1) as nat) =~= refs_upto(contents@, i as nat));
                },
            }
        } else {
            with_class.push(false);
            assert(refs_upto(contents@, (i + 1) as nat) =~= refs_upto(contents@, i as nat));
        }
        i = i + 1;
    }
    let ghost refs_all = refs_upto(contents@, files.len() as nat);
    let mut r: Vec<RootCandidate> = Vec::new();
    let mut k: usize = 0;
    while k < files.len()
        invariant
            k <= files.len(),
            with_class@.len() == files.len(),
            forall|m: int| 0 <= m < files.len() ==> with_class@[m] == declares_class(contents@, m),
            string_views(refs@) == refs_all,
            refs_all == refs_upto(contents@, files.len() as nat),
            string_views(candidate_paths(r@)) == candidates_upto(files@, root@, contents@, refs_all, k as nat),
        decreases files.len() - k,
    {
        if with_class[k] {
            let rel = rel_without_ext_exec(files[k].as_str(), root);
            if !contains_text(&refs, &rel) {
                let ghost before = r@;
                r.push(RootCandidate { path: files[k].clone() });
                assert(string_views(candidate_paths(r@)) =~= string_views(candidate_paths(before)).push(files@[k as int]@));
            }
        }
        k = k + 1;
    }
    r
}

/// Settles detection: no candidate, exactly one (taken), or several (sorted
/// by path for a stable order).
pub fn resolve(candidates: Vec<RootCandidate>) -> (r: RootResolution)
    ensures
        candidates@.len() == 0 ==> r == RootResolution::NoneFound,
        candidates@.len() == 1 ==> r == RootResolution::Unique(candidates@[0].path),
        candidates@.len() >= 2 ==> (r matches RootResolution::Multiple(v) && sorted_by_path(v@)
            && v@.to_multiset() == candidate_paths(candidates@).to_multiset() && exists|idx: Seq<int>|
            stable_arrangement(candidate_paths(candidates@), v@, idx)),
{
    let n = candidates.len();
    if n == 0 {
        return RootResolution::NoneFound;
    }
    if n == 1 {
        let mut c = candidates;
        let only = c.pop().unwrap();
        return RootResolution::Unique(only.path);
    }
    let mut paths: Vec<String> = Vec::new();
    let mut i: usize = 0;
    while i < n
        invariant
            i <= n == candidates.len(),
            paths@ == candidate_paths(candidates@).take(i as int),
        decreases n - i,
    {
        paths.push(candidates[i].path.clone());
        i = i + 1;
        assert(paths@ =~= candidate_paths(candidates@).take(i as int));
    }
    assert(candidate_paths(candidates@).take(n as int) =~= candidate_paths(candidates@));
    RootResolution::Multiple(sort_paths(paths))
}

/// Every candidate declares a document class and is referenced by no file.
pub proof fn lemma_candidates_are_unreferenced_roots(
    files: Seq<String>,
    root: Seq<char>,
    contents: Seq<Option<String>>,
    refs: Seq<Seq<char>>,
    n: nat,
    x: Seq<char>,
)
    requires
        n <= files.len(),
        candidates_upto(files, root, contents, refs, n).contains(x),
    ensures
        exists|i: int| 0 <= i < n && files[i]@ == x && declares_class(contents, i) && !refs.contains(
            rel_without_ext(x, root),
        ),
    decreases n,
{
    let front = candidates_upto(files, root, contents, refs, (n - 1) as nat);
    if front.contains(x) {
        lemma_candidates_are_unreferenced_roots(files, root, contents, refs, (n - 1) as nat, x);
        let i = choose|i: int| 0 <= i < n - 1 && files[i]@ == x && declares_class(contents, i)
            && !refs.contains(rel_without_ext(x, root));
        assert(0 <= i < n);
    } else {
        let c = candidates_upto(files, root, contents, refs, n);
        let w = choose|w: int| 0 <= w < c.len() && c[w] == x;
        assert(is_candidate(files, root, contents, refs, n - 1));
        assert(files[n - 1]@ == x);
    }
}

/// File `j` references `r`: its text could be read and one of its
/// `\input`/`\include` references is `r`.
pub open spec fn file_refers(contents: Seq<Option<String>>, j: int, r: Seq<char>) -> bool {
    match content_at(contents, j) {
        Some(c) => includes_spec(c).contains(r),
        None => false,
    }
}

proof fn lemma_refs_upto_complete(contents: Seq<Option<String>>, n: nat, r: Seq<char>)
    ensures
        refs_upto(contents, n).contains(r) <==> exists|j: int| 0 <= j < n && #[trigger] file_refers(contents, j, r),
    decreases n,
{
    if n > 0 {
        lemma_refs_upto_complete(contents, (n - 1) as nat, r);
        let front = refs_upto(contents, (n - 1) as nat);
        let tail: Seq<Seq<char>> = match content_at(contents, n - 1) {
            Some(c) => includes_spec(c),
            None => Seq::empty(),
        };
        assert(refs_upto(contents, n) == front + tail);
        if (front + tail).contains(r) {
            let k = choose|k: int| 0 <= k < (front + tail).len() && (front + tail)[k] == r;
            if k < front.len() {
                assert(front[k] == r);
                assert(front.contains(r));
                let j = choose|j: int| 0 <= j < n - 1 && #[trigger] file_refers(contents, j, r);
                assert(0 <= j < n && file_refers(contents, j, r));
            } else {
                assert(tail[k - front.len()] == r);
                assert(tail.contains(r));
                assert(file_refers(contents, n - 1, r));
            }
        }
        if exists|j: int| 0 <= j < n && #[trigger] file_refers(contents, j, r) {
            let j = choose|j: int| 0 <= j < n && #[trigger] file_refers(contents, j, r);
            if j < n - 1 {
                let k = choose|k: int| 0 <= k < front.len() && front[k] == r;
                assert((front + tail)[k] == r);
            } else {
                let k = choose|k: int| 0 <= k < tail.len() && tail[k] == r;
                assert((front + tail)[front.len() + k] == r);
            }
            assert((front + tail).contains(r));
        }
    }
}

proof fn lemma_candidates_upto_complete(
    files: Seq<String>,
    root: Seq<char>,
    contents: Seq<Option<String>>,
    refs: Seq<Seq<char>>,
    n: nat,
    i: int,
)
    requires
        n <= files.len(),
        0 <= i < n,
        is_candidate(files, root, contents, refs, i),
    ensures
        candidates_upto(files, root, contents, refs, n).contains(files[i]@),
    decreases n,
{
    let front = candidates_upto(files, root, contents, refs, (n - 1) as nat);
    if i < n - 1 {
        lemma_candidates_upto_complete(files, root, contents, refs, (n - 1) as nat, i);
        let k = choose|k: int| 0 <= k < front.len() && front[k] == files[i]@;
        if is_candidate(files, root, contents, refs, n - 1) {
            assert(front.push(files[n - 1]@)[k] == files[i]@);
        }
    } else {
        assert(front.push(files[i]@)[front.len() as int] == files[i]@);
    }
}

/// Root-file detection: a file is a candidate exactly when it declares a
/// document class and no readable file, itself included, references it
/// (relative to the root, without extension) with any of its `\input` or
/// `\include` references.
pub proof fn lemma_candidates_are_exactly_the_unreferenced_roots(
    files: Seq<String>,
    root: Seq<char>,
    contents: Seq<Option<String>>,
)
    ensures
        forall|x: Seq<char>| #[trigger] candidates_spec(files, root, contents).contains(x) ==> exists|i: int|
            0 <= i < files.len() && files[i]@ == x && declares_class(contents, i) && forall|j: int|
                0 <= j < files.len() ==> !#[trigger] file_refers(contents, j, rel_without_ext(x, root)),
        forall|i: int|
            0 <= i < files.len() && declares_class(contents, i) && (forall|j: int|
                0 <= j < files.len() ==> !#[trigger] file_refers(contents, j, rel_without_ext(files[i]@, root)))
                ==> #[trigger] candidates_spec(files, root, contents).contains(files[i]@),
{
    let n = files.len();
    let refs = refs_upto(contents, n);
    assert forall|x: Seq<char>| #[trigger] candidates_spec(files, root, contents).contains(x) implies exists|i: int|
        0 <= i < files.len() && files[i]@ == x && declares_class(contents, i) && forall|j: int|
            0 <= j < files.len() ==> !#[trigger] file_refers(contents, j, rel_without_ext(x, root)) by {
        lemma_candidates_are_unreferenced_roots(files, root, contents, refs, n, x);
        lemma_refs_upto_complete(contents, n, rel_without_ext(x, root));
    }
    assert forall|i: int|
        0 <= i < files.len() && declares_class(contents, i) && (forall|j: int|
            0 <= j < files.len() ==> !#[trigger] file_refers(contents, j, rel_without_ext(files[i]@, root)))
            implies #[trigger] candidates_spec(files, root, contents).contains(files[i]@) by {
        lemma_refs_upto_complete(contents, n, rel_without_ext(files[i]@, root));
        lemma_candidates_upto_complete(files, root, contents, refs, n, i);
    }
}

} // verus!
