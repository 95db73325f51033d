//! Paths as the library sees them: text split into components at `'/'` and
//! `'\\'` (both separate components, as on Windows, the platform the
//! application ships on first). A leading separator gives a root component,
//! written as the empty sequence; `"."` survives only as the first component of
//! a path without root; empty pieces vanish. Drive prefixes such as `C:` are
//! ordinary components.

use vstd::prelude::*;
use crate::text::{chars_of, same_chars, sub_chars, views};

verus! {

/// Separates path components.
pub open spec fn is_sep(c: char) -> bool {
    c == '/' || c == '\\'
}

/// Splitting `s` at separators, read left to right: finished pieces and the
/// piece under way.
pub open spec fn split_pieces_state(s: Seq<char>) -> (Seq<Seq<char>>, Seq<char>)
    decreases s.len(),
{
    if s.len() == 0 {
        (Seq::empty(), Seq::empty())
    } else {
        let (done, cur) = split_pieces_state(s.drop_last());
        if is_sep(s.last()) {
            (done.push(cur), Seq::empty())
        } else {
            (done, cur.push(s.last()))
        }
    }
}

/// Does the path start with a separator.
pub open spec fn rooted(s: Seq<char>) -> bool {
    s.len() > 0 && is_sep(s[0])
}

/// Is the `i`-th piece a component: non-empty, and `"."` only in front of a
/// path without root.
pub open spec fn keep_piece(p: Seq<char>, i: int, root: bool) -> bool {
    p.len() > 0 && (p != seq!['.'] || (i == 0 && !root))
}

/// The pieces among `ps` that are components.
pub open spec fn kept(ps: Seq<Seq<char>>, root: bool) -> Seq<Seq<char>>
    decreases ps.len(),
{
    if ps.len() == 0 {
        Seq::empty()
    } else {
        let k = kept(ps.drop_last(), root);
        if keep_piece(ps.last(), ps.len() - 1, root) {
            k.push(ps.last())
        } else {
            k
        }
    }
}

/// The components of a path; a root is the empty sequence.
pub open spec fn components(s: Seq<char>) -> Seq<Seq<char>> {
    let (done, cur) = split_pieces_state(s);
    let k = kept(done.push(cur), rooted(s));
    if rooted(s) {
        seq![Seq::<char>::empty()] + k
    } else {
        k
    }
}

/// A component that names a file or directory (not root, `"."` or `".."`).
pub open spec fn is_normal(c: Seq<char>) -> bool {
    c.len() > 0 && c != seq!['.'] && c != seq!['.', '.']
}

/// `b` is a prefix of `a`.
pub open spec fn seq_starts_with(a: Seq<Seq<char>>, b: Seq<Seq<char>>) -> bool {
    b.len() <= a.len() && a.take(b.len() as int) == b
}

/// `Path::starts_with`: the components of `base` begin those of `path`.
pub open spec fn path_starts_with(path: Seq<char>, base: Seq<char>) -> bool {
    seq_starts_with(components(path), components(base))
}

/// The components of `path` after `base` when it starts with `base`, else all
/// of them (`path.strip_prefix(base).unwrap_or(path)`).
pub open spec fn relative_components(path: Seq<char>, base: Seq<char>) -> Seq<Seq<char>> {
    if path_starts_with(path, base) {
        components(path).skip(components(base).len() as int)
    } else {
        components(path)
    }
}

/// The last component when it is a normal one (`Path::file_name`).
pub open spec fn file_name(path: Seq<char>) -> Option<Seq<char>> {
    let cs = components(path);
    if cs.len() > 0 && is_normal(cs.last()) {
        Some(cs.last())
    } else {
        None
    }
}

/// Index of the last `'.'` in `s`, or -1.
pub open spec fn last_dot(s: Seq<char>) -> int
    decreases s.len(),
{
    if s.len() == 0 {
        -1
    } else if s.last() == '.' {
        s.len() - 1
    } else {
        last_dot(s.drop_last())
    }
}

/// The extension of a file name: the text after its last `'.'` when that dot
/// is not its first character.
pub open spec fn name_extension(name: Seq<char>) -> Option<Seq<char>> {
    let k = last_dot(name);
    if k <= 0 {
        None
    } else {
        Some(name.skip(k + 1))
    }
}

/// A file name without its extension.
pub open spec fn name_stem(name: Seq<char>) -> Seq<char> {
    let k = last_dot(name);
    if k <= 0 {
        name
    } else {
        name.take(k)
    }
}

/// `Path::extension`.
pub open spec fn extension(path: Seq<char>) -> Option<Seq<char>> {
    match file_name(path) {
        Some(n) => name_extension(n),
        None => None,
    }
}

/// `Path::file_stem`.
pub open spec fn file_stem(path: Seq<char>) -> Option<Seq<char>> {
    match file_name(path) {
        Some(n) => Some(name_stem(n)),
        None => None,
    }
}

/// Components rendered as text with `'/'` between them (a root renders as a
/// leading `'/'`).
pub open spec fn render(cs: Seq<Seq<char>>) -> Seq<char>
    decreases cs.len(),
{
    if cs.len() == 0 {
        Seq::empty()
    } else if cs.len() == 1 {
        if cs[0].len() == 0 {
            seq!['/']
        } else {
            cs[0]
        }
    } else {
        let front = render(cs.drop_last());
        if cs.len() == 2 && cs[0].len() == 0 {
            front + cs.last()
        } else {
            front + seq!['/'] + cs.last()
        }
    }
}

/// The last dot lies inside the text.
pub proof fn lemma_last_dot_bounds(s: Seq<char>)
    ensures
        -1 <= last_dot(s) < s.len(),
    decreases s.len(),
{
    if s.len() > 0 {
        lemma_last_dot_bounds(s.drop_last());
    }
}

/// Text without separators.
pub open spec fn plain(s: Seq<char>) -> bool {
    forall|i: int| 0 <= i < s.len() ==> !is_sep(#[trigger] s[i])
}

/// Appending text without separators extends the piece under way.
pub proof fn lemma_split_append_plain(base: Seq<char>, n: Seq<char>)
    requires
        plain(n),
    ensures
        split_pieces_state(base + n) == (split_pieces_state(base).0, split_pieces_state(base).1 + n),
    decreases n.len(),
{
    if n.len() == 0 {
        assert(base + n =~= base);
        assert(split_pieces_state(base).1 + n =~= split_pieces_state(base).1);
    } else {
        lemma_split_append_plain(base, n.drop_last());
        assert((base + n).drop_last() =~= base + n.drop_last());
        assert((base + n).last() == n.last());
        assert(!is_sep(n[n.len() - 1]));
        assert((split_pieces_state(base).1 + n.drop_last()).push(n.last()) =~= split_pieces_state(base).1 + n);
    }
}

/// Every piece of a split is plain.
proof fn lemma_split_pieces_plain(s: Seq<char>)
    ensures
        forall|i: int| 0 <= i < split_pieces_state(s).0.len() ==> plain(#[trigger] split_pieces_state(s).0[i]),
        plain(split_pieces_state(s).1),
    decreases s.len(),
{
    if s.len() > 0 {
        lemma_split_pieces_plain(s.drop_last());
        let (done, cur) = split_pieces_state(s.drop_last());
        if is_sep(s.last()) {
            assert forall|i: int| 0 <= i < done.push(cur).len() implies plain(#[trigger] done.push(cur)[i]) by {
                if i < done.len() {
                    assert(done.push(cur)[i] == done[i]);
                }
            }
        } else {
            assert(plain(cur.push(s.last()))) by {
                assert forall|i: int| 0 <= i < cur.push(s.last()).len() implies !is_sep(#[trigger] cur.push(s.last())[i]) by {
                    if i < cur.len() {
                        assert(cur.push(s.last())[i] == cur[i]);
                    }
                }
            }
        }
    }
}

/// What `kept` keeps is among the pieces.
proof fn lemma_kept_from(ps: Seq<Seq<char>>, root: bool)
    ensures
        forall|i: int| 0 <= i < kept(ps, root).len() ==> ps.contains(#[trigger] kept(ps, root)[i]),
    decreases ps.len(),
{
    if ps.len() > 0 {
        lemma_kept_from(ps.drop_last(), root);
        let k = kept(ps.drop_last(), root);
        assert forall|i: int| 0 <= i < kept(ps, root).len() implies ps.contains(#[trigger] kept(ps, root)[i]) by {
            if i < k.len() {
                assert(kept(ps, root)[i] == k[i]);
                let j = choose|j: int| 0 <= j < ps.drop_last().len() && ps.drop_last()[j] == k[i];
                assert(ps[j] == k[i]);
            } else {
                assert(ps[ps.len() - 1] == ps.last());
            }
        }
    }
}

/// Components hold no separators.
pub proof fn lemma_components_plain(s: Seq<char>)
    ensures
        forall|i: int| 0 <= i < components(s).len() ==> plain(#[trigger] components(s)[i]),
{
    lemma_split_pieces_plain(s);
    let (done, cur) = split_pieces_state(s);
    let ps = done.push(cur);
    lemma_kept_from(ps, rooted(s));
    let k = kept(ps, rooted(s));
    assert forall|i: int| 0 <= i < k.len() implies plain(#[trigger] k[i]) by {
        let j = choose|j: int| 0 <= j < ps.len() && ps[j] == k[i];
        if j < done.len() {
            assert(ps[j] == done[j]);
        }
    }
    assert forall|i: int| 0 <= i < components(s).len() implies plain(#[trigger] components(s)[i]) by {
        if rooted(s) {
            if i > 0 {
                assert(components(s)[i] == k[i - 1]);
            }
        }
    }
}

// ---------------------------------------------------------------- exec

/// Is `c` a separator.
pub fn is_sep_char(c: char) -> (b: bool)
    ensures
        b == is_sep(c),
{
    c == '/' || c == '\\'
}

fn keep_piece_exec(p: &Vec<char>, i: usize, root: bool) -> (b: bool)
    ensures
        b == keep_piece(p@, i as int, root),
{
    let is_dot = p.len() == 1 && p[0] == '.';
    proof {
        if p@.len() == 1 && p@[0] == '.' {
            assert(p@ =~= seq!['.']);
        }
    }
    p.len() > 0 && (!is_dot || (i == 0 && !root))
}

/// The components of the path `p` (see [`components`]).
pub fn components_of(p: &Vec<char>) -> (r: Vec<Vec<char>>)
    ensures
        views(r@) == components(p@),
{
    let root = p.len() > 0 && is_sep_char(p[0]);
    let mut r: Vec<Vec<char>> = Vec::new();
    if root {
        r.push(Vec::new());
    }
    let ghost front: Seq<Seq<char>> = if root { seq![Seq::<char>::empty()] } else { Seq::empty() };
    proof {
        assert(views(r@) =~= front);
        assert(p@.take(0) =~= Seq::<char>::empty());
        assert(front + kept(Seq::empty(), root) =~= front);
    }
    let mut cur: Vec<char> = Vec::new();
    let mut idx: usize = 0;
    let mut i: usize = 0;
    while i < p.len()
        invariant
            i <= p.len(),
            root == rooted(p@),
            idx <= i,
            split_pieces_state(p@.take(i as int)).1 == cur@,
            split_pieces_state(p@.take(i as int)).0.len() == idx,
            views(r@) == front + kept(split_pieces_state(p@.take(i as int)).0, root),
        decreases p.len() - i,
    {
        let c = p[i];
        let ghost done = split_pieces_state(p@.take(i as int)).0;
        proof {
            assert(p@.take(i + 1).drop_last() =~= p@.take(i as int));
        }
        if is_sep_char(c) {
            let keep = keep_piece_exec(&cur, idx, root);
            proof {
                assert(done.push(cur@).drop_last() =~= done);
            }
            if keep {
                let ghost old_r = r@;
                r.push(cur);
                proof {
                    assert(views(r@) =~= views(old_r).push(cur@));
                }
            }
            cur = Vec::new();
            idx = idx + 1;
        } else {
            cur.push(c);
        }
        i = i + 1;
    }
    proof {
        assert(p@.take(p.len() as int) =~= p@);
    }
    let ghost done = split_pieces_state(p@).0;
    let keep = keep_piece_exec(&cur, idx, root);
    proof {
        assert(done.push(cur@).drop_last() =~= done);
    }
    if keep {
        let ghost old_r = r@;
        r.push(cur);
        proof {
            assert(views(r@) =~= views(old_r).push(cur@));
        }
    }
    proof {
        assert(views(r@) =~= components(p@));
    }
    r
}

/// The components of the path text `s`.
pub fn components_str(s: &str) -> (r: Vec<Vec<char>>)
    ensures
        views(r@) == components(s@),
{
    let v = chars_of(s);
    components_of(&v)
}

/// Is `c` a normal component.
pub fn is_normal_exec(c: &Vec<char>) -> (b: bool)
    ensures
        b == is_normal(c@),
{
    let one_dot = c.len() == 1 && c[0] == '.';
    let two_dots = c.len() == 2 && c[0] == '.' && c[1] == '.';
    proof {
        if c@.len() == 1 && c@[0] == '.' {
            assert(c@ =~= seq!['.']);
        }
        if c@.len() == 2 && c@[0] == '.' && c@[1] == '.' {
            assert(c@ =~= seq!['.', '.']);
        }
    }
    c.len() > 0 && !one_dot && !two_dots
}

/// Do the components `b` begin the components `a`.
pub fn comps_start_with(a: &Vec<Vec<char>>, b: &Vec<Vec<char>>) -> (r: bool)
    ensures
        r == seq_starts_with(views(a@), views(b@)),
{
    if b.len() > a.len() {
        return false;
    }
    let mut i: usize = 0;
    while i < b.len()
        invariant
            i <= b.len() <= a.len(),
            forall|k: int| 0 <= k < i ==> a@[k]@ == b@[k]@,
        decreases b.len() - i,
    {
        if !same_chars(&a[i], &b[i]) {
            assert(views(a@).take(b.len() as int)[i as int] != views(b@)[i as int]);
            return false;
        }
        i = i + 1;
    }
    assert(views(a@).take(b.len() as int) =~= views(b@));
    true
}

/// `Path::starts_with` on path texts.
pub fn path_starts_with_exec(path: &str, base: &str) -> (r: bool)
    ensures
        r == path_starts_with(path@, base@),
{
    let a = components_str(path);
    let b = components_str(base);
    comps_start_with(&a, &b)
}

/// The components of `path` relative to `base` (see [`relative_components`]).
pub fn relative_components_exec(path: &str, base: &str) -> (r: Vec<Vec<char>>)
    ensures
        views(r@) == relative_components(path@, base@),
{
    let a = components_str(path);
    let b = components_str(base);
    if comps_start_with(&a, &b) {
        let mut r: Vec<Vec<char>> = Vec::new();
        let mut i = b.len();
        while i < a.len()
            invariant
                b.len() <= i <= a.len(),
                views(r@) == views(a@).subrange(b.len() as int, i as int),
            decreases a.len() - i,
        {
            let c = sub_chars(&a[i], 0, a[i].len());
            assert(a@[i as int]@.subrange(0, a@[i as int]@.len() as int) =~= a@[i as int]@);
            let ghost old_r = r@;
            r.push(c);
            assert(views(r@) =~= views(old_r).push(c@));
            i = i + 1;
            assert(views(r@) =~= views(a@).subrange(b.len() as int, i as int));
        }
        assert(views(a@).subrange(b.len() as int, a.len() as int) =~= views(a@).skip(b.len() as int));
        r
    } else {
        a
    }
}

/// Index of the last `'.'` in `v`, if any.
fn last_dot_exec(v: &Vec<char>) -> (r: Option<usize>)
    ensures
        r matches Some(k) ==> last_dot(v@) == k && k < v.len(),
        r is None ==> last_dot(v@) == -1,
{
    let mut j = v.len();
    assert(v@.take(j as int) =~= v@);
    while j > 0
        invariant
            j <= v.len(),
            last_dot(v@) == last_dot(v@.take(j as int)),
        decreases j,
    {
        assert(v@.take(j as int).drop_last() =~= v@.take(j - 1));
        if v[j - 1] == '.' {
            return Some(j - 1);
        }
        j = j - 1;
    }
    None
}

/// The file name of the path text `path` (see [`file_name`]).
pub fn file_name_exec(path: &str) -> (r: Option<Vec<char>>)
    ensures
        r matches Some(n) ==> file_name(path@) == Some(n@),
        r is None ==> file_name(path@) is None,
{
    let mut cs = components_str(path);
    let n = cs.len();
    if n == 0 {
        return None;
    }
    let last = cs.pop().unwrap();
    assert(last@ == views(cs@.push(last)).last());
    if is_normal_exec(&last) {
        Some(last)
    } else {
        None
    }
}

/// The extension of the path text `path` (see [`extension`]).
pub fn extension_exec(path: &str) -> (r: Option<Vec<char>>)
    ensures
        r matches Some(e) ==> extension(path@) == Some(e@),
        r is None ==> extension(path@) is None,
{
    match file_name_exec(path) {
        None => None,
        Some(name) => {
            match last_dot_exec(&name) {
                Some(k) if k > 0 => {
                    let e = sub_chars(&name, k + 1, name.len());
                    assert(e@ =~= name@.skip(k + 1));
                    Some(e)
                },
                _ => None,
            }
        }
    }
}

/// The file stem of the path text `path` (see [`file_stem`]).
pub fn file_stem_exec(path: &str) -> (r: Option<Vec<char>>)
    ensures
        r matches Some(e) ==> file_stem(path@) == Some(e@),
        r is None ==> file_stem(path@) is None,
{
    match file_name_exec(path) {
        None => None,
        Some(name) => {
            match last_dot_exec(&name) {
                Some(k) if k > 0 => {
                    let s = sub_chars(&name, 0, k);
                    assert(s@ =~= name@.take(k as int));
                    Some(s)
                },
                _ => Some(name),
            }
        }
    }
}


/// Components with the last one's extension dropped when it names a file
/// (what `Path::with_extension("")` does).
pub open spec fn strip_last_ext(cs: Seq<Seq<char>>) -> Seq<Seq<char>> {
    if cs.len() > 0 && is_normal(cs.last()) {
        cs.drop_last().push(name_stem(cs.last()))
    } else {
        cs
    }
}

/// Renders components (see [`render`]).
pub fn render_exec(cs: &Vec<Vec<char>>) -> (r: Vec<char>)
    ensures
        r@ == render(views(cs@)),
{
    let ghost vs = views(cs@);
    let mut r: Vec<char> = Vec::new();
    let mut i: usize = 0;
    assert(vs.take(0) =~= Seq::<Seq<char>>::empty());
    while i < cs.len()
        invariant
            i <= cs.len(),
            vs == views(cs@),
            r@ == render(vs.take(i as int)),
        decreases cs.len() - i,
    {
        let ghost t = vs.take(i + 1);
        assert(t.drop_last() =~= vs.take(i as int));
        assert(t.last() == cs@[i as int]@);
        assert(t[0] == cs@[0]@);
        if i == 0 {
            if cs[0].len() == 0 {
                r.push('/');
                assert(r@ =~= seq!['/']);
            } else {
                r = sub_chars(&cs[0], 0, cs[0].len());
                assert(r@ =~= cs@[0]@);
            }
        } else {
            let ghost front = r@;
            if !(i == 1 && cs[0].len() == 0) {
                r.push('/');
            }
            let ghost mid = r@;
            let c = &cs[i];
            let mut j: usize = 0;
            while j < c.len()
                invariant
                    j <= c.len(),
                    r@ == mid + c@.take(j as int),
                decreases c.len() - j,
            {
                r.push(c[j]);
                j = j + 1;
                assert(r@ =~= mid + c@.take(j as int));
            }
            assert(c@.take(c.len() as int) =~= c@);
            if i == 1 && cs[0].len() == 0 {
                assert(r@ =~= front + t.last());
            } else {
                assert(r@ =~= front + seq!['/'] + t.last());
            }
        }
        i = i + 1;
    }
    assert(vs.take(cs.len() as int) =~= vs);
    r
}

/// `name` without its extension (see [`name_stem`]).
pub fn name_stem_exec(name: &Vec<char>) -> (r: Vec<char>)
    ensures
        r@ == name_stem(name@),
{
    match last_dot_exec(name) {
        Some(k) if k > 0 => {
            let s = sub_chars(name, 0, k);
            assert(s@ =~= name@.take(k as int));
            s
        },
        _ => sub_chars(name, 0, name.len()),
    }
}

/// The path below `root` without the extension, written with `'/'`
/// (comparable with how `\input` references are written). The text is
/// rebuilt from the components: `.` pieces and doubled separators are not
/// kept (the walk produces paths that hold none).
pub open spec fn rel_without_ext(path: Seq<char>, root: Seq<char>) -> Seq<char> {
    render(strip_last_ext(relative_components(path, root)))
}

/// See [`rel_without_ext`].
pub fn rel_without_ext_exec(path: &str, root: &str) -> (r: Vec<char>)
    ensures
        r@ == rel_without_ext(path@, root@),
{
    let mut cs = relative_components_exec(path, root);
    let n = cs.len();
    if n > 0 && is_normal_exec(&cs[n - 1]) {
        let ghost before = views(cs@);
        let last = cs.pop().unwrap();
        assert(last@ == before.last());
        let stem = name_stem_exec(&last);
        cs.push(stem);
        assert(views(cs@) =~= before.drop_last().push(stem@));
    }
    render_exec(&cs)
}

// ---------------------------------------------------------------- order

/// Lexicographic order of character sequences by code point (for UTF-8 text
/// the same as byte order): negative, zero or positive.
pub open spec fn text_order(a: Seq<char>, b: Seq<char>) -> int
    decreases a.len(),
{
    if a.len() == 0 {
        if b.len() == 0 {
            0
        } else {
            -1
        }
    } else if b.len() == 0 {
        1
    } else if a[0] < b[0] {
        -1
    } else if a[0] > b[0] {
        1
    } else {
        text_order(a.drop_first(), b.drop_first())
    }
}

/// Rank of a component kind: root, `"."`, `".."`, then names.
pub open spec fn comp_rank(c: Seq<char>) -> int {
    if c.len() == 0 {
        0
    } else if c == seq!['.'] {
        1
    } else if c == seq!['.', '.'] {
        2
    } else {
        3
    }
}

/// Order of components: by kind, names by text.
pub open spec fn comp_order(a: Seq<char>, b: Seq<char>) -> int {
    if comp_rank(a) < comp_rank(b) {
        -1
    } else if comp_rank(a) > comp_rank(b) {
        1
    } else if comp_rank(a) == 3 {
        text_order(a, b)
    } else {
        0
    }
}

/// Lexicographic order of component sequences.
pub open spec fn comps_order(a: Seq<Seq<char>>, b: Seq<Seq<char>>) -> int
    decreases a.len(),
{
    if a.len() == 0 {
        if b.len() == 0 {
            0
        } else {
            -1
        }
    } else if b.len() == 0 {
        1
    } else if comp_order(a[0], b[0]) != 0 {
        comp_order(a[0], b[0])
    } else {
        comps_order(a.drop_first(), b.drop_first())
    }
}

/// The order of paths (`Ord for Path`): component by component.
pub open spec fn path_order(a: Seq<char>, b: Seq<char>) -> int {
    comps_order(components(a), components(b))
}

/// Swapping the arguments negates the text order.
pub proof fn lemma_text_order_antisym(a: Seq<char>, b: Seq<char>)
    ensures
        text_order(a, b) == -text_order(b, a),
        -1 <= text_order(a, b) <= 1,
    decreases a.len(),
{
    if a.len() > 0 && b.len() > 0 && a[0] == b[0] {
        lemma_text_order_antisym(a.drop_first(), b.drop_first());
    }
}

/// Swapping the arguments negates the path order.
pub proof fn lemma_comps_order_antisym(a: Seq<Seq<char>>, b: Seq<Seq<char>>)
    ensures
        comps_order(a, b) == -comps_order(b, a),
    decreases a.len(),
{
    if a.len() > 0 && b.len() > 0 {
        lemma_text_order_antisym(a[0], b[0]);
        if comp_order(a[0], b[0]) == 0 {
            lemma_comps_order_antisym(a.drop_first(), b.drop_first());
        }
    }
}

fn text_order_exec(a: &Vec<char>, b: &Vec<char>) -> (r: i8)
    ensures
        r == text_order(a@, b@),
{
    let mut i: usize = 0;
    assert(a@.skip(0) =~= a@);
    assert(b@.skip(0) =~= b@);
    while i < a.len() && i < b.len()
        invariant
            i <= a.len(),
            i <= b.len(),
            text_order(a@, b@) == text_order(a@.skip(i as int), b@.skip(i as int)),
        decreases a.len() - i,
    {
        if a[i] < b[i] {
            return -1;
        }
        if a[i] > b[i] {
            return 1;
        }
        assert(a@.skip(i as int).drop_first() =~= a@.skip(i + 1));
        assert(b@.skip(i as int).drop_first() =~= b@.skip(i + 1));
        i = i + 1;
    }
    if i == a.len() {
        if i == b.len() {
            0
        } else {
            -1
        }
    } else {
        1
    }
}

fn comp_rank_exec(c: &Vec<char>) -> (r: u8)
    ensures
        r == comp_rank(c@),
{
    let one_dot = c.len() == 1 && c[0] == '.';
    let two_dots = c.len() == 2 && c[0] == '.' && c[1] == '.';
    proof {
        if c@.len() == 1 && c@[0] == '.' {
            assert(c@ =~= seq!['.']);
        }
        if c@.len() == 2 && c@[0] == '.' && c@[1] == '.' {
            assert(c@ =~= seq!['.', '.']);
        }
    }
    if c.len() == 0 {
        0
    } else if one_dot {
        1
    } else if two_dots {
        2
    } else {
        3
    }
}

fn comp_order_exec(a: &Vec<char>, b: &Vec<char>) -> (r: i8)
    ensures
        r == comp_order(a@, b@),
{
    let ra = comp_rank_exec(a);
    let rb = comp_rank_exec(b);
    if ra < rb {
        -1
    } else if ra > rb {
        1
    } else if ra == 3 {
        text_order_exec(a, b)
    } else {
        0
    }
}

/// The order of two paths (see [`path_order`]).
pub fn path_order_exec(a: &str, b: &str) -> (r: i8)
    ensures
        r == path_order(a@, b@),
{
    let ca = components_str(a);
    let cb = components_str(b);
    let ghost va = views(ca@);
    let ghost vb = views(cb@);
    let mut i: usize = 0;
    assert(va.skip(0) =~= va);
    assert(vb.skip(0) =~= vb);
    while i < ca.len() && i < cb.len()
        invariant
            i <= ca.len(),
            i <= cb.len(),
            va == views(ca@),
            vb == views(cb@),
            va == components(a@),
            vb == components(b@),
            comps_order(va, vb) == comps_order(va.skip(i as int), vb.skip(i as int)),
        decreases ca.len() - i,
    {
        let c = comp_order_exec(&ca[i], &cb[i]);
        assert(va.skip(i as int)[0] == ca@[i as int]@);
        assert(vb.skip(i as int)[0] == cb@[i as int]@);
        assert(va.skip(i as int).len() > 0 && vb.skip(i as int).len() > 0);
        assert(c == comp_order(va.skip(i as int)[0], vb.skip(i as int)[0]));
        if c != 0 {
            assert(comps_order(va.skip(i as int), vb.skip(i as int)) == c as int);
            return c;
        }
        assert(va.skip(i as int).drop_first() =~= va.skip(i + 1));
        assert(vb.skip(i as int).drop_first() =~= vb.skip(i + 1));
        i = i + 1;
    }
    if i == ca.len() {
        if i == cb.len() {
            0
        } else {
            -1
        }
    } else {
        1
    }
}

/// Adjacent paths are in order.
pub open spec fn sorted_by_path(v: Seq<String>) -> bool {
    forall|i: int| 0 <= i < v.len() - 1 ==> path_order(#[trigger] v[i]@, v[i + 1]@) <= 0
}

/// `r` is `v` rearranged (`r[i]` is `v[idx[i]]`, each place of `v` used
/// once) such that two paths whose original order was swapped are strictly
/// ordered: paths that compare equal keep their original order.
pub open spec fn stable_arrangement(v: Seq<String>, r: Seq<String>, idx: Seq<int>) -> bool {
    &&& r.len() == v.len()
    &&& idx.len() == r.len()
    &&& forall|i: int| 0 <= i < r.len() ==> 0 <= #[trigger] idx[i] < v.len() && r[i] == v[idx[i]]
    &&& forall|i: int, j: int| 0 <= i < j < r.len() ==> #[trigger] idx[i] != #[trigger] idx[j]
    &&& forall|i: int, j: int|
        0 <= i < j < r.len() && #[trigger] idx[i] > #[trigger] idx[j] ==> path_order(r[i]@, r[j]@) < 0
}

proof fn lemma_insert_sorted(r: Seq<String>, p: int, x: String)
    requires
        sorted_by_path(r),
        0 <= p <= r.len(),
        p > 0 ==> path_order(r[p - 1]@, x@) <= 0,
        p < r.len() ==> path_order(r[p]@, x@) > 0,
    ensures
        sorted_by_path(r.insert(p, x)),
{
    let n = r.insert(p, x);
    if p < r.len() {
        lemma_comps_order_antisym(components(r[p]@), components(x@));
    }
    assert forall|i: int| 0 <= i < n.len() - 1 implies path_order(#[trigger] n[i]@, n[i + 1]@) <= 0 by {
        if i + 1 < p {
            assert(n[i] == r[i] && n[i + 1] == r[i + 1]);
        } else if i + 1 == p {
            assert(n[i] == r[i]);
        } else if i == p {
        } else {
            assert(n[i] == r[i - 1] && n[i + 1] == r[i]);
        }
    }
}

#[verifier::rlimit(40)]
proof fn lemma_insert_stable(vk: Seq<String>, r: Seq<String>, idx: Seq<int>, p: int, x: String)
    requires
        vk.len() > 0,
        x == vk.last(),
        stable_arrangement(vk.drop_last(), r, idx),
        0 <= p <= r.len(),
        forall|q: int| p <= q < r.len() ==> path_order(#[trigger] r[q]@, x@) > 0,
    ensures
        stable_arrangement(vk, r.insert(p, x), idx.insert(p, vk.len() - 1)),
{
    let k = vk.len() - 1;
    let n = r.insert(p, x);
    let ni = idx.insert(p, k);
    assert forall|i: int| 0 <= i < n.len() implies 0 <= #[trigger] ni[i] < vk.len() && n[i] == vk[ni[i]] by {
        if i < p {
            assert(ni[i] == idx[i] && n[i] == r[i]);
            assert(vk.drop_last()[idx[i]] == vk[idx[i]]);
        } else if i > p {
            assert(ni[i] == idx[i - 1] && n[i] == r[i - 1]);
            assert(vk.drop_last()[idx[i - 1]] == vk[idx[i - 1]]);
        }
    }
    assert forall|i: int, j: int| 0 <= i < j < n.len() implies #[trigger] ni[i] != #[trigger] ni[j] by {
        if i != p && j != p {
            let oi = if i < p { i } else { i - 1 };
            let oj = if j < p { j } else { j - 1 };
            assert(ni[i] == idx[oi] && ni[j] == idx[oj]);
        } else if i == p {
            assert(ni[j] == idx[j - 1]);
        } else {
            assert(ni[i] == idx[i]);
        }
    }
    assert forall|i: int, j: int|
        0 <= i < j < n.len() && #[trigger] ni[i] > #[trigger] ni[j] implies path_order(n[i]@, n[j]@) < 0 by {
        if i != p && j != p {
            let oi = if i < p { i } else { i - 1 };
            let oj = if j < p { j } else { j - 1 };
            assert(ni[i] == idx[oi] && ni[j] == idx[oj]);
            assert(n[i] == r[oi] && n[j] == r[oj]);
        } else if i == p {
            assert(n[j] == r[j - 1]);
            assert(path_order(r[j - 1]@, x@) > 0);
            lemma_comps_order_antisym(components(r[j - 1]@), components(x@));
        } else {
            assert(ni[i] == idx[i]);
        }
    }
}

/// Sorts paths by [`path_order`], equal paths keeping their order (a stable
/// insertion sort).
pub fn sort_paths(v: Vec<String>) -> (r: Vec<String>)
    ensures
        sorted_by_path(r@),
        r@.to_multiset() == v@.to_multiset(),
        exists|idx: Seq<int>| stable_arrangement(v@, r@, idx),
{
    broadcast use vstd::seq_lib::group_to_multiset_ensures;

    let mut r: Vec<String> = Vec::new();
    let ghost mut idx: Seq<int> = Seq::empty();
    let mut k: usize = 0;
    while k < v.len()
        invariant
            k <= v.len(),
            sorted_by_path(r@),
            r@.to_multiset() == v@.take(k as int).to_multiset(),
            stable_arrangement(v@.take(k as int), r@, idx),
        decreases v.len() - k,
    {
        let x = v[k].clone();
        let mut p: usize = r.len();
        while p > 0 && path_order_exec(r[p - 1].as_str(), x.as_str()) > 0
            invariant
                p <= r.len(),
                forall|q: int| p <= q < r.len() ==> path_order(#[trigger] r@[q]@, x@) > 0,
            decreases p,
        {
            p = p - 1;
        }
        let ghost old_r = r@;
        let ghost old_idx = idx;
        r.insert(p, x);
        proof {
            idx = old_idx.insert(p as int, k as int);
            assert(v@.take(k + 1).drop_last() =~= v@.take(k as int));
            assert(v@.take(k + 1).last() == x);
            lemma_insert_sorted(old_r, p as int, x);
            lemma_insert_stable(v@.take(k + 1), old_r, old_idx, p as int, x);
            vstd::seq_lib::to_multiset_insert(old_r, p as int, x);
            vstd::seq_lib::to_multiset_build(v@.take(k as int), v@[k as int]);
            assert(v@.take(k + 1) =~= v@.take(k as int).push(v@[k as int]));
        }
        k = k + 1;
    }
    assert(v@.take(v.len() as int) =~= v@);
    r
}

/// The components of `p`'s parent (`Path::parent`): none for the empty path
/// or a bare root.
pub open spec fn parent_components(p: Seq<char>) -> Option<Seq<Seq<char>>> {
    let cs = components(p);
    if cs.len() > 0 && cs.last().len() > 0 {
        Some(cs.drop_last())
    } else {
        None
    }
}

/// Is `a`'s parent the place `b` names.
pub fn parent_is(a: &str, b: &str) -> (r: bool)
    ensures
        r == (parent_components(a@) == Some(components(b@))),
{
    let ca = components_str(a);
    let cb = components_str(b);
    let n = ca.len();
    if n == 0 || ca[n - 1].len() == 0 {
        return false;
    }
    if n - 1 != cb.len() {
        assert(views(ca@).drop_last().len() != views(cb@).len());
        return false;
    }
    let mut i: usize = 0;
    while i < cb.len()
        invariant
            i <= cb.len() == n - 1,
            n == ca.len(),
            views(ca@) == components(a@),
            views(cb@) == components(b@),
            forall|k: int| 0 <= k < i ==> ca@[k]@ == cb@[k]@,
        decreases cb.len() - i,
    {
        if !same_chars(&ca[i], &cb[i]) {
            assert(views(ca@).drop_last()[i as int] != views(cb@)[i as int]);
            return false;
        }
        i = i + 1;
    }
    assert(views(ca@).drop_last() =~= views(cb@));
    true
}

} // verus!
