//! An in-memory file system: a registry of directories and a table of file
//! contents. Places are compared by their path components.

use vstd::prelude::*;
use crate::desktop::{same_path, same_path_exec};
use crate::path::{components, components_str, parent_components, parent_is, path_order, path_order_exec, render, render_exec};
use crate::text::{same_chars, string_of, views};
use super::model::DirEntry;

verus! {

/// A missing file or directory.
#[derive(Debug, PartialEq, Eq)]
pub enum FsError {
    NotFound(String),
}

/// Directories (by components) and files (path, content) held in memory.
#[derive(Debug, Default)]
pub struct FakeFS {
    dirs: Vec<Vec<Vec<char>>>,
    files: Vec<(String, String)>,
}

/// The components of the registered directories.
pub open spec fn dir_views(ds: Seq<Vec<Vec<char>>>) -> Seq<Seq<Seq<char>>> {
    ds.map_values(|d: Vec<Vec<char>>| views(d@))
}

/// Is the place `p` names a registered directory.
pub open spec fn dir_in(ds: Seq<Seq<Seq<char>>>, p: Seq<char>) -> bool {
    ds.contains(components(p))
}

/// The content stored for the place `p`.
pub open spec fn content_in(fs: Seq<(String, String)>, p: Seq<char>) -> Option<Seq<char>>
    decreases fs.len(),
{
    if fs.len() == 0 {
        None
    } else if same_path(fs.last().0@, p) {
        Some(fs.last().1@)
    } else {
        content_in(fs.drop_last(), p)
    }
}

/// Files without those stored for the place `p`.
pub open spec fn files_without(fs: Seq<(String, String)>, p: Seq<char>) -> Seq<(String, String)> {
    fs.filter(|e: (String, String)| !same_path(e.0@, p))
}

/// `q` is a directory that storing a file at `p` registers: a non-empty
/// proper prefix of `p`'s components.
pub open spec fn registered_ancestor(p: Seq<char>, q: Seq<Seq<char>>) -> bool {
    let cs = components(p);
    exists|k: int| 1 <= k < cs.len() && q == cs.take(k)
}

/// Is `d` (components) directly inside the place `p`.
pub open spec fn dir_child_of(d: Seq<Seq<char>>, p: Seq<char>) -> bool {
    d.len() > 0 && d.last().len() > 0 && d.drop_last() == components(p)
}

/// The entries of the directory `p`: its registered subdirectories, then
/// its files, before sorting.
pub open spec fn children(ds: Seq<Seq<Seq<char>>>, fs: Seq<(String, String)>, p: Seq<char>) -> Seq<(Seq<char>, bool)> {
    ds.filter(|d: Seq<Seq<char>>| dir_child_of(d, p)).map_values(|d: Seq<Seq<char>>| (render(d), true))
        + fs.filter(|e: (String, String)| parent_components(e.0@) == Some(components(p))).map_values(
        |e: (String, String)| (e.0@, false),
    )
}

/// The view of directory entries.
pub open spec fn entry_views(v: Seq<DirEntry>) -> Seq<(Seq<char>, bool)> {
    v.map_values(|e: DirEntry| (e.path@, e.is_dir))
}

/// Adjacent entries are in path order.
pub open spec fn entries_sorted(v: Seq<DirEntry>) -> bool {
    forall|i: int| 0 <= i < v.len() - 1 ==> path_order(#[trigger] v[i].path@, v[i + 1].path@) <= 0
}

/// Between entries of equal path a directory comes before a file.
pub open spec fn dirs_before_files(v: Seq<DirEntry>) -> bool {
    forall|i: int, j: int|
        0 <= i < j < v.len() && path_order(#[trigger] v[i].path@, #[trigger] v[j].path@) == 0
            && !v[i].is_dir ==> !v[j].is_dir
}

#[verifier::rlimit(40)]
proof fn lemma_entry_insert(r: Seq<DirEntry>, p: int, x: DirEntry)
    requires
        entries_sorted(r),
        dirs_before_files(r),
        0 <= p <= r.len(),
        p > 0 ==> path_order(r[p - 1].path@, x.path@) <= 0,
        forall|q: int| p <= q < r.len() ==> path_order(#[trigger] r[q].path@, x.path@) > 0,
        x.is_dir ==> forall|q: int| 0 <= q < r.len() ==> (#[trigger] r[q]).is_dir,
    ensures
        entries_sorted(r.insert(p, x)),
        dirs_before_files(r.insert(p, x)),
        x.is_dir ==> forall|q: int| 0 <= q < r.insert(p, x).len() ==> (#[trigger] r.insert(p, x)[q]).is_dir,
{
    let n = r.insert(p, x);
    if p < r.len() {
        crate::path::lemma_comps_order_antisym(components(r[p].path@), components(x.path@));
    }
    assert forall|i: int| 0 <= i < n.len() - 1 implies path_order(#[trigger] n[i].path@, n[i + 1].path@) <= 0 by {
        if i + 1 < p {
            assert(n[i] == r[i] && n[i + 1] == r[i + 1]);
        } else if i + 1 == p {
            assert(n[i] == r[i]);
        } else if i == p {
            assert(n[i] == x && n[i + 1] == r[i]);
        } else {
            assert(n[i] == r[i - 1] && n[i + 1] == r[i]);
        }
    }
    assert forall|i: int, j: int|
        0 <= i < j < n.len() && path_order(#[trigger] n[i].path@, #[trigger] n[j].path@) == 0
            && !n[i].is_dir implies !n[j].is_dir by {
        if i != p && j != p {
            let oi = if i < p { i } else { i - 1 };
            let oj = if j < p { j } else { j - 1 };
            assert(n[i] == r[oi] && n[j] == r[oj]);
        } else if i == p {
            assert(n[j] == r[j - 1]);
            crate::path::lemma_comps_order_antisym(components(r[j - 1].path@), components(x.path@));
        } else {
            assert(n[i] == r[i]);
            if x.is_dir {
                assert(r[i].is_dir);
            }
        }
    }
    assert forall|q: int| 0 <= q < n.len() && x.is_dir implies (#[trigger] n[q]).is_dir by {
        if q < p {
            assert(n[q] == r[q]);
        } else if q > p {
            assert(n[q] == r[q - 1]);
        }
    }
}

/// Sorts entries by path, stably (entries of equal path keep their order);
/// the directories come first in `v`.
fn sort_entries(v: Vec<DirEntry>) -> (r: Vec<DirEntry>)
    requires
        forall|i: int, j: int| 0 <= i < j < v@.len() && (#[trigger] v@[j]).is_dir ==> (#[trigger] v@[i]).is_dir,
    ensures
        entries_sorted(r@),
        entry_views(r@).to_multiset() == entry_views(v@).to_multiset(),
        dirs_before_files(r@),
{
    broadcast use vstd::seq_lib::group_to_multiset_ensures;

    let mut r: Vec<DirEntry> = Vec::new();
    let mut k: usize = 0;
    while k < v.len()
        invariant
            k <= v.len(),
            r@.len() == k,
            forall|i: int, j: int| 0 <= i < j < v@.len() && (#[trigger] v@[j]).is_dir ==> (#[trigger] v@[i]).is_dir,
            entries_sorted(r@),
            entry_views(r@).to_multiset() == entry_views(v@.take(k as int)).to_multiset(),
            dirs_before_files(r@),
            k > 0 && v@[k - 1].is_dir ==> forall|q: int| 0 <= q < r@.len() ==> (#[trigger] r@[q]).is_dir,
        decreases v.len() - k,
    {
        let x = v[k].clone();
        let mut p: usize = r.len();
        while p > 0 && path_order_exec(r[p - 1].path.as_str(), x.path.as_str()) > 0
            invariant
                p <= r.len(),
                forall|q: int| p <= q < r.len() ==> path_order(#[trigger] r@[q].path@, x.path@) > 0,
            decreases p,
        {
            p = p - 1;
        }
        let ghost old_r = r@;
        let ghost xg = x;
        r.insert(p, x);
        proof {
            assert(r@ == old_r.insert(p as int, xg));
            assert(xg == v@[k as int]);
            if xg.is_dir && k > 0 {
                assert(v@[k as int].is_dir);
                assert(v@[k - 1].is_dir);
            }
            lemma_entry_insert(old_r, p as int, xg);
            let xv = (xg.path@, xg.is_dir);
            assert(entry_views(r@) =~= entry_views(old_r).insert(p as int, xv));
            vstd::seq_lib::to_multiset_insert(entry_views(old_r), p as int, xv);
            assert(entry_views(v@.take(k + 1)) =~= entry_views(v@.take(k as int)).push(xv));
            vstd::seq_lib::to_multiset_build(entry_views(v@.take(k as int)), xv);
        }
        k = k + 1;
    }
    assert(v@.take(v.len() as int) =~= v@);
    r
}

proof fn lemma_files_without_other(fs: Seq<(String, String)>, p: Seq<char>, q: Seq<char>)
    requires
        !same_path(q, p),
    ensures
        content_in(files_without(fs, p), q) == content_in(fs, q),
    decreases fs.len(),
{
    reveal(Seq::filter);
    let f = |e: (String, String)| !same_path(e.0@, p);
    if fs.len() > 0 {
        lemma_files_without_other(fs.drop_last(), p, q);
        if f(fs.last()) {
            assert(fs.filter(f).drop_last() =~= fs.drop_last().filter(f));
        } else if same_path(fs.last().0@, q) {
            assert(components(p) == components(q));
        }
    }
}

fn copy_comps(cs: &Vec<Vec<char>>, n: usize) -> (r: Vec<Vec<char>>)
    requires
        n <= cs.len(),
    ensures
        views(r@) == views(cs@).take(n as int),
{
    let mut r: Vec<Vec<char>> = Vec::new();
    let mut m: usize = 0;
    while m < n
        invariant
            m <= n <= cs.len(),
            views(r@) == views(cs@).take(m as int),
        decreases n - m,
    {
        let c = crate::text::sub_chars(&cs[m], 0, cs[m].len());
        assert(c@ =~= cs@[m as int]@);
        let ghost rb = r@;
        r.push(c);
        m = m + 1;
        assert(views(r@) =~= views(rb).push(c@));
        assert(views(r@) =~= views(cs@).take(m as int));
    }
    r
}

fn same_comps(a: &Vec<Vec<char>>, b: &Vec<Vec<char>>) -> (r: bool)
    ensures
        r == (views(a@) == views(b@)),
{
    if a.len() != b.len() {
        assert(views(a@).len() != views(b@).len());
        return false;
    }
    let mut i: usize = 0;
    while i < a.len()
        invariant
            i <= a.len() == b.len(),
            forall|k: int| 0 <= k < i ==> a@[k]@ == b@[k]@,
        decreases a.len() - i,
    {
        if !same_chars(&a[i], &b[i]) {
            assert(views(a@)[i as int] != views(b@)[i as int]);
            return false;
        }
        i = i + 1;
    }
    assert(views(a@) =~= views(b@));
    true
}

impl FakeFS {
    /// The registered directories, by components.
    pub closed spec fn dir_list(&self) -> Seq<Seq<Seq<char>>> {
        dir_views(self.dirs@)
    }

    /// The stored files (path, content).
    pub closed spec fn file_list(&self) -> Seq<(String, String)> {
        self.files@
    }

    /// An empty file system.
    pub fn new() -> (fs: Self)
        ensures
            fs.dir_list().len() == 0,
            fs.file_list().len() == 0,
    {
        FakeFS { dirs: Vec::new(), files: Vec::new() }
    }

    fn remove_files(&mut self, path: &str)
        ensures
            final(self).files@ == files_without(old(self).files@, path@),
            final(self).dirs == old(self).dirs,
    {
        let mut old_files: Vec<(String, String)> = Vec::new();
        std::mem::swap(&mut old_files, &mut self.files);
        let mut kept: Vec<(String, String)> = Vec::new();
        let mut i: usize = 0;
        while i < old_files.len()
            invariant
                i <= old_files.len(),
                kept@ == files_without(old_files@.take(i as int), path@),
            decreases old_files.len() - i,
        {
            proof {
                reveal(Seq::filter);
                assert(old_files@.take(i + 1).drop_last() =~= old_files@.take(i as int));
            }
            let same = same_path_exec(old_files[i].0.as_str(), path);
            let ghost e = old_files@[i as int];
            assert(old_files@.take(i + 1).last() == e);
            if !same {
                let entry = (old_files[i].0.clone(), old_files[i].1.clone());
                assert(entry == e);
                kept.push(entry);
            }
            i = i + 1;
        }
        assert(old_files@.take(old_files.len() as int) =~= old_files@);
        self.files = kept;
    }

    fn is_dir_child(d: &Vec<Vec<char>>, cp: &Vec<Vec<char>>) -> (r: bool)
        ensures
            r == (views(d@).len() > 0 && views(d@).last().len() > 0 && views(d@).drop_last() == views(cp@)),
    {
        let n = d.len();
        if n == 0 || d[n - 1].len() == 0 {
            return false;
        }
        if n - 1 != cp.len() {
            assert(views(d@).drop_last().len() != views(cp@).len());
            return false;
        }
        let mut i: usize = 0;
        while i < cp.len()
            invariant
                i <= cp.len() == n - 1,
                n == d.len(),
                forall|k: int| 0 <= k < i ==> d@[k]@ == cp@[k]@,
            decreases cp.len() - i,
        {
            if !same_chars(&d[i], &cp[i]) {
                assert(views(d@).drop_last()[i as int] != views(cp@)[i as int]);
                return false;
            }
            i = i + 1;
        }
        assert(views(d@).drop_last() =~= views(cp@));
        true
    }

    /// The entries of a directory, sorted by path (a directory before a file
    /// of the same path): its subdirectories and files. `NotFound` when it
    /// has none and is not a registered directory.
    pub fn read_dir(&self, path: &str) -> (r: Result<Vec<DirEntry>, FsError>)
        ensures
            match r {
                Ok(v) => entries_sorted(v@) && dirs_before_files(v@) && entry_views(v@).to_multiset() == children(
                    self.dir_list(),
                    self.file_list(),
                    path@,
                ).to_multiset() && (children(self.dir_list(), self.file_list(), path@).len() > 0
                    || dir_in(self.dir_list(), path@)),
                Err(_) => children(self.dir_list(), self.file_list(), path@).len() == 0 && !dir_in(
                    self.dir_list(),
                    path@,
                ),
            },
    {
        let cp = components_str(path);
        let ghost ds = dir_views(self.dirs@);
        let ghost dpred = |d: Seq<Seq<char>>| dir_child_of(d, path@);
        let ghost dmap = |d: Seq<Seq<char>>| (render(d), true);
        let mut out: Vec<DirEntry> = Vec::new();
        let mut i: usize = 0;
        while i < self.dirs.len()
            invariant
                i <= self.dirs.len(),
                ds == dir_views(self.dirs@),
                views(cp@) == components(path@),
                entry_views(out@) == ds.take(i as int).filter(|d: Seq<Seq<char>>| dir_child_of(d, path@)).map_values(|d: Seq<Seq<char>>| (render(d), true)),
            decreases self.dirs.len() - i,
        {
            proof {
                reveal(Seq::filter);
                assert(ds.take(i + 1).drop_last() =~= ds.take(i as int));
                assert(ds.take(i + 1).last() == views(self.dirs@[i as int]@));
            }
            let ghost before = out@;
            if Self::is_dir_child(&self.dirs[i], &cp) {
                let rv = render_exec(&self.dirs[i]);
                out.push(DirEntry { path: string_of(&rv), is_dir: true });
                assert(entry_views(out@) =~= entry_views(before).push((rv@, true)));
            }
            i = i + 1;
        }
        assert(ds.take(self.dirs.len() as int) =~= ds);
        let ghost dir_part = entry_views(out@);
        let mut j: usize = 0;
        while j < self.files.len()
            invariant
                j <= self.files.len(),
                entry_views(out@) == dir_part + self.files@.take(j as int).filter(|e: (String, String)| parent_components(e.0@) == Some(components(path@))).map_values(|e: (String, String)| (e.0@, false)),
            decreases self.files.len() - j,
        {
            proof {
                reveal(Seq::filter);
                assert(self.files@.take(j + 1).drop_last() =~= self.files@.take(j as int));
                assert(self.files@.take(j + 1).last() == self.files@[j as int]);
            }
            let ghost before = out@;
            if parent_is(self.files[j].0.as_str(), path) {
                out.push(DirEntry { path: self.files[j].0.clone(), is_dir: false });
                assert(entry_views(out@) =~= entry_views(before).push((self.files@[j as int].0@, false)));
            }
            j = j + 1;
        }
        assert(self.files@.take(self.files.len() as int) =~= self.files@);
        assert(entry_views(out@) =~= children(dir_views(self.dirs@), self.files@, path@));
        proof {
            let dn = dir_part.len();
            assert forall|i: int, j: int| 0 <= i < j < out@.len() && (#[trigger] out@[j]).is_dir implies (#[trigger] out@[i]).is_dir by {
                assert(entry_views(out@)[j] == (out@[j].path@, out@[j].is_dir));
                assert(entry_views(out@)[i] == (out@[i].path@, out@[i].is_dir));
                if j >= dn {
                    assert(entry_views(out@)[j].1 == false);
                }
                assert(entry_views(out@)[i].1 == true);
            }
        }
        if out.len() == 0 && !self.has_dir_comps(&cp) {
            return Err(FsError::NotFound("目录不存在".to_string()));
        }
        Ok(sort_entries(out))
    }

    fn has_dir_comps(&self, c: &Vec<Vec<char>>) -> (r: bool)
        ensures
            r == dir_views(self.dirs@).contains(views(c@)),
    {
        let mut i: usize = 0;
        while i < self.dirs.len()
            invariant
                i <= self.dirs.len(),
                forall|k: int| 0 <= k < i ==> dir_views(self.dirs@)[k] != views(c@),
            decreases self.dirs.len() - i,
        {
            if same_comps(&self.dirs[i], c) {
                assert(dir_views(self.dirs@)[i as int] == views(c@));
                return true;
            }
            i = i + 1;
        }
        false
    }

    fn add_dir_comps(&mut self, c: Vec<Vec<char>>)
        ensures
            dir_views(final(self).dirs@) == if dir_views(old(self).dirs@).contains(views(c@)) {
                dir_views(old(self).dirs@)
            } else {
                dir_views(old(self).dirs@).push(views(c@))
            },
            final(self).files == old(self).files,
    {
        if self.has_dir_comps(&c) {
            return;
        }
        let ghost before = self.dirs@;
        let ghost cv = views(c@);
        self.dirs.push(c);
        assert(dir_views(self.dirs@) =~= dir_views(before).push(cv));
    }

    /// Registers a directory.
    pub fn put_dir(&mut self, path: &str)
        ensures
            forall|q: Seq<Seq<char>>| #[trigger] final(self).dir_list().contains(q) == (old(self).dir_list().contains(q) || q == components(path@)),
            final(self).file_list() == old(self).file_list(),
    {
        let c = components_str(path);
        let ghost before = dir_views(self.dirs@);
        self.add_dir_comps(c);
        proof {
            assert forall|q: Seq<Seq<char>>| #[trigger] dir_views(self.dirs@).contains(q) == (before.contains(q) || q == components(path@)) by {
                if !before.contains(components(path@)) {
                    if dir_views(self.dirs@).contains(q) {
                        let i = choose|i: int| 0 <= i < dir_views(self.dirs@).len() && dir_views(self.dirs@)[i] == q;
                        if i < before.len() {
                            assert(before[i] == q);
                        }
                    }
                    if before.contains(q) {
                        let i = choose|i: int| 0 <= i < before.len() && before[i] == q;
                        assert(dir_views(self.dirs@)[i] == q);
                    }
                    if q == components(path@) {
                        assert(dir_views(self.dirs@)[before.len() as int] == q);
                    }
                }
            }
        }
    }

    /// Stores a file, replacing what was stored for the same place, and
    /// registers every directory above it down from its first component.
    pub fn put_file(&mut self, path: &str, content: &str)
        ensures
            content_in(final(self).file_list(), path@) == Some(content@),
            forall|q: Seq<char>| !same_path(q, path@) ==> content_in(final(self).file_list(), q) == content_in(old(self).file_list(), q),
            forall|q: Seq<Seq<char>>| #[trigger] final(self).dir_list().contains(q) == (old(self).dir_list().contains(q) || registered_ancestor(path@, q)),
    {
        let ghost before_files = self.files@;
        self.remove_files(path);
        let ghost kept = self.files@;
        self.files.push((path.to_string(), content.to_string()));
        proof {
            assert(self.files@.drop_last() =~= kept);
            assert(same_path(path@, path@));
            assert forall|q: Seq<char>| !same_path(q, path@) implies content_in(self.files@, q) == content_in(before_files, q) by {
                if same_path(path@, q) {
                    assert(components(path@) == components(q));
                }
                lemma_files_without_other(before_files, path@, q);
            }
        }
        let cs = components_str(path);
        let ghost vs = views(cs@);
        let ghost dirs0 = dir_views(self.dirs@);
        let mut k: usize = 1;
        while k < cs.len()
            invariant
                1 <= k,
                vs == views(cs@),
                vs == components(path@),
                content_in(self.files@, path@) == Some(content@),
                forall|q: Seq<char>| !same_path(q, path@) ==> content_in(self.files@, q) == content_in(before_files, q),
                forall|q: Seq<Seq<char>>| #[trigger] dir_views(self.dirs@).contains(q) == (dirs0.contains(q) || exists|j: int| 1 <= j < k && j < vs.len() && q == vs.take(j)),
            decreases cs.len() - k,
        {
            let prefix = copy_comps(&cs, k);
            let ghost pv = views(prefix@);
            let ghost dirs1 = dir_views(self.dirs@);
            self.add_dir_comps(prefix);
            proof {
                assert forall|q: Seq<Seq<char>>| #[trigger] dir_views(self.dirs@).contains(q) == (dirs0.contains(q) || exists|j: int| 1 <= j < k + 1 && j < vs.len() && q == vs.take(j)) by {
                    if !dirs1.contains(pv) {
                        if dir_views(self.dirs@).contains(q) {
                            let i = choose|i: int| 0 <= i < dir_views(self.dirs@).len() && dir_views(self.dirs@)[i] == q;
                            if i < dirs1.len() {
                                assert(dirs1[i] == q);
                            }
                        }
                        if dirs1.contains(q) {
                            let i = choose|i: int| 0 <= i < dirs1.len() && dirs1[i] == q;
                            assert(dir_views(self.dirs@)[i] == q);
                        }
                        if q == pv {
                            assert(dir_views(self.dirs@)[dirs1.len() as int] == q);
                        }
                    }
                    if exists|j: int| 1 <= j < k + 1 && j < vs.len() && q == vs.take(j) {
                        let j = choose|j: int| 1 <= j < k + 1 && j < vs.len() && q == vs.take(j);
                        if j < k {
                            assert(exists|j2: int| 1 <= j2 < k && j2 < vs.len() && q == vs.take(j2));
                        } else {
                            assert(q == pv);
                        }
                    }
                }
            }
            k = k + 1;
        }
        proof {
            assert forall|q: Seq<Seq<char>>| #[trigger] dir_views(self.dirs@).contains(q) == (dirs0.contains(q) || registered_ancestor(path@, q)) by {
                if registered_ancestor(path@, q) {
                    let j = choose|j: int| 1 <= j < vs.len() && q == vs.take(j);
                    assert(1 <= j < k && j < vs.len() && q == vs.take(j));
                }
            }
        }
    }

    /// The stored content of a file.
    pub fn file(&self, path: &str) -> (r: Option<&str>)
        ensures
            match r {
                Some(s) => content_in(self.file_list(), path@) == Some(s@),
                None => content_in(self.file_list(), path@) is None,
            },
    {
        let mut i = self.files.len();
        assert(self.files@.take(i as int) =~= self.files@);
        while i > 0
            invariant
                i <= self.files.len(),
                content_in(self.files@, path@) == content_in(self.files@.take(i as int), path@),
            decreases i,
        {
            assert(self.files@.take(i as int).drop_last() =~= self.files@.take(i - 1));
            if same_path_exec(self.files[i - 1].0.as_str(), path) {
                return Some(self.files[i - 1].1.as_str());
            }
            i = i - 1;
        }
        None
    }

    /// The text of a file, or `NotFound`.
    pub fn read_to_string(&self, path: &str) -> (r: Result<String, FsError>)
        ensures
            match r {
                Ok(s) => content_in(self.file_list(), path@) == Some(s@),
                Err(_) => content_in(self.file_list(), path@) is None,
            },
    {
        match self.file(path) {
            Some(s) => Ok(s.to_string()),
            None => Err(FsError::NotFound("文件不存在".to_string())),
        }
    }
}

} // verus!
