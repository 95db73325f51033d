//! Walking a project's directories. The walk alternates reading a directory
//! (the caller's I/O) with deciding what to keep and where to go next (here):
//! the caller asks for the next directory, reads it, and hands its entries
//! back, until no directory is left. No symbolic links are followed: the
//! caller reports links as non-directories.

use vstd::prelude::*;
use crate::path::{
    extension, extension_exec, file_name, file_name_exec, sort_paths, sorted_by_path, stable_arrangement,
};
use crate::text::{same_as_str, string_of, string_views};
use crate::types::DirEntryInfo;
use super::model::DirEntry;
use super::scan::{hidden_or_tmp, ignored, is_hidden_or_tmp, is_tree_excluded};

verus! {

/// The `.tex` walk as contracts see it.
pub struct TexWalkView {
    pub root: Seq<char>,
    /// Directories still to read, the next one last.
    pub stack: Seq<Seq<char>>,
    /// `.tex` files found, in the order found.
    pub found: Seq<Seq<char>>,
}

/// One directory entry: hidden and `tmp` entries are skipped, directories
/// are to be read, `.tex` files are kept.
pub open spec fn tex_absorb_one(w: TexWalkView, path: Seq<char>, is_dir: bool) -> TexWalkView {
    if hidden_or_tmp(path, w.root) {
        w
    } else if is_dir {
        TexWalkView { root: w.root, stack: w.stack.push(path), found: w.found }
    } else if extension(path) == Some("tex"@) {
        TexWalkView { root: w.root, stack: w.stack, found: w.found.push(path) }
    } else {
        w
    }
}

/// The entries `es`, in order.
pub open spec fn tex_absorb(w: TexWalkView, es: Seq<DirEntry>) -> TexWalkView
    decreases es.len(),
{
    if es.len() == 0 {
        w
    } else {
        tex_absorb_one(tex_absorb(w, es.drop_last()), es.last().path@, es.last().is_dir)
    }
}

/// Collects the `.tex` files of a project (see the module documentation).
pub struct TexCollector {
    root: String,
    stack: Vec<String>,
    found: Vec<String>,
}

impl View for TexCollector {
    type V = TexWalkView;

    closed spec fn view(&self) -> TexWalkView {
        TexWalkView { root: self.root@, stack: string_views(self.stack@), found: string_views(self.found@) }
    }
}

impl TexCollector {
    /// The `.tex` files found, as strings.
    pub closed spec fn found_paths(&self) -> Seq<String> {
        self.found@
    }

    /// The found strings are the found paths.
    pub proof fn lemma_found_paths(&self)
        ensures
            string_views(self.found_paths()) == self@.found,
    {
    }

    /// A walk that starts at the project root.
    pub fn new(root: &str) -> (c: Self)
        ensures
            c@ == (TexWalkView { root: root@, stack: seq![root@], found: Seq::empty() }),
    {
        let mut stack: Vec<String> = Vec::new();
        stack.push(root.to_string());
        let c = TexCollector { root: root.to_string(), stack, found: Vec::new() };
        assert(c@.stack =~= seq![root@]);
        assert(c@.found =~= Seq::<Seq<char>>::empty());
        c
    }

    /// The next directory to read (the most recently found one), if any.
    pub fn next_dir(&mut self) -> (r: Option<String>)
        ensures
            old(self)@.stack.len() == 0 ==> r is None && final(self)@ == old(self)@,
            old(self)@.stack.len() > 0 ==> (r matches Some(d) && d@ == old(self)@.stack.last()
                && final(self)@ == (TexWalkView {
                root: old(self)@.root,
                stack: old(self)@.stack.drop_last(),
                found: old(self)@.found,
            })),
    {
        let ghost before = self.stack@;
        let r = self.stack.pop();
        proof {
            if before.len() > 0 {
                assert(string_views(self.stack@) =~= string_views(before).drop_last());
            }
        }
        r
    }

    /// Takes in the entries of the directory just read.
    pub fn absorb(&mut self, entries: Vec<DirEntry>)
        ensures
            final(self)@ == tex_absorb(old(self)@, entries@),
    {
        let mut i: usize = 0;
        assert(entries@.take(0) =~= Seq::<DirEntry>::empty());
        while i < entries.len()
            invariant
                i <= entries.len(),
                self@ == tex_absorb(old(self)@, entries@.take(i as int)),
            decreases entries.len() - i,
        {
            let e = &entries[i];
            proof {
                assert(entries@.take(i + 1).drop_last() =~= entries@.take(i as int));
                assert(entries@.take(i + 1).last() == *e);
            }
            if !is_hidden_or_tmp(e.path.as_str(), self.root.as_str()) {
                if e.is_dir {
                    let ghost before = self.stack@;
                    self.stack.push(e.path.clone());
                    assert(string_views(self.stack@) =~= string_views(before).push(e.path@));
                } else {
                    let is_tex = match extension_exec(e.path.as_str()) {
                        Some(x) => same_as_str(&x, "tex"),
                        None => false,
                    };
                    if is_tex {
                        let ghost before = self.found@;
                        self.found.push(e.path.clone());
                        assert(string_views(self.found@) =~= string_views(before).push(e.path@));
                    }
                }
            }
            i = i + 1;
        }
        assert(entries@.take(entries.len() as int) =~= entries@);
    }

    /// The `.tex` files found, sorted by path.
    pub fn finish(self) -> (r: Vec<String>)
        ensures
            sorted_by_path(r@),
            r@.to_multiset() == self.found_paths().to_multiset(),
            exists|idx: Seq<int>| stable_arrangement(self.found_paths(), r@, idx),
    {
        sort_paths(self.found)
    }
}

/// Collection and the watcher share one ignore rule: whatever the walk
/// collects is a file the watcher compiles on (not ignored), and the walk
/// never queues a hidden or `tmp` directory.
pub proof fn lemma_walk_keeps_what_is_not_ignored(w: TexWalkView, es: Seq<DirEntry>)
    requires
        forall|i: int| 0 <= i < w.found.len() ==> !ignored(#[trigger] w.found[i], w.root),
        forall|i: int| 0 <= i < w.stack.len() ==> #[trigger] w.stack[i] == w.root || !hidden_or_tmp(w.stack[i], w.root),
    ensures
        tex_absorb(w, es).root == w.root,
        forall|i: int| 0 <= i < tex_absorb(w, es).found.len() ==> !ignored(
            #[trigger] tex_absorb(w, es).found[i],
            w.root,
        ),
        forall|i: int| 0 <= i < tex_absorb(w, es).stack.len() ==> #[trigger] tex_absorb(w, es).stack[i]
            == w.root || !hidden_or_tmp(tex_absorb(w, es).stack[i], w.root),
    decreases es.len(),
{
    if es.len() > 0 {
        lemma_walk_keeps_what_is_not_ignored(w, es.drop_last());
        let v = tex_absorb(w, es.drop_last());
        let n = tex_absorb_one(v, es.last().path@, es.last().is_dir);
        assert(tex_absorb(w, es) == n);
        assert forall|i: int| 0 <= i < n.found.len() implies !ignored(#[trigger] n.found[i], w.root) by {
            if i < v.found.len() {
                assert(n.found[i] == v.found[i]);
            }
        }
        assert forall|i: int| 0 <= i < n.stack.len() implies #[trigger] n.stack[i] == w.root || !hidden_or_tmp(n.stack[i], w.root) by {
            if i < v.stack.len() {
                assert(n.stack[i] == v.stack[i]);
            }
        }
    }
}

/// The name shown for a path: its file name, or nothing.
pub open spec fn shown_name(path: Seq<char>) -> Seq<char> {
    match file_name(path) {
        Some(n) => n,
        None => Seq::empty(),
    }
}

/// An entry of the file tree as contracts see it: name, path, kind.
pub type TreeItem = (Seq<char>, Seq<char>, bool);

/// The views of listed entries.
pub open spec fn tree_items(v: Seq<DirEntryInfo>) -> Seq<TreeItem> {
    v.map_values(|e: DirEntryInfo| (e.name@, e.path@, e.is_dir))
}

/// The tree walk as contracts see it.
pub struct TreeWalkView {
    pub root: Seq<char>,
    /// Directories still to read, the next one last.
    pub stack: Seq<Seq<char>>,
    /// Entries listed, in the order found.
    pub listed: Seq<TreeItem>,
}

/// One directory entry: hidden and `tmp` entries are left out; any other
/// is listed with its file name, and a directory is also to be read.
pub open spec fn tree_absorb_one(w: TreeWalkView, path: Seq<char>, is_dir: bool) -> TreeWalkView {
    if hidden_or_tmp(path, w.root) {
        w
    } else {
        TreeWalkView {
            root: w.root,
            stack: if is_dir {
                w.stack.push(path)
            } else {
                w.stack
            },
            listed: w.listed.push((shown_name(path), path, is_dir)),
        }
    }
}

/// The entries `es`, in order.
pub open spec fn tree_absorb(w: TreeWalkView, es: Seq<DirEntry>) -> TreeWalkView
    decreases es.len(),
{
    if es.len() == 0 {
        w
    } else {
        tree_absorb_one(tree_absorb(w, es.drop_last()), es.last().path@, es.last().is_dir)
    }
}

/// Lists the file tree below a directory of the project, every extension
/// included, hidden and `tmp` entries left out.
pub struct TreeCollector {
    root: String,
    stack: Vec<String>,
    entries: Vec<DirEntryInfo>,
}

impl View for TreeCollector {
    type V = TreeWalkView;

    closed spec fn view(&self) -> TreeWalkView {
        TreeWalkView { root: self.root@, stack: string_views(self.stack@), listed: tree_items(self.entries@) }
    }
}

impl TreeCollector {
    /// A walk that starts at `start`, inside the project at `root`.
    pub fn new(start: &str, root: &str) -> (c: Self)
        ensures
            c@ == (TreeWalkView { root: root@, stack: seq![start@], listed: Seq::empty() }),
    {
        let mut stack: Vec<String> = Vec::new();
        stack.push(start.to_string());
        let c = TreeCollector { root: root.to_string(), stack, entries: Vec::new() };
        assert(c@.stack =~= seq![start@]);
        assert(c@.listed =~= Seq::<TreeItem>::empty());
        c
    }

    /// The next directory to read (the most recently found one), if any.
    pub fn next_dir(&mut self) -> (r: Option<String>)
        ensures
            old(self)@.stack.len() == 0 ==> r is None && final(self)@ == old(self)@,
            old(self)@.stack.len() > 0 ==> (r matches Some(d) && d@ == old(self)@.stack.last()
                && final(self)@ == (TreeWalkView {
                root: old(self)@.root,
                stack: old(self)@.stack.drop_last(),
                listed: old(self)@.listed,
            })),
    {
        let ghost before = self.stack@;
        let r = self.stack.pop();
        proof {
            if before.len() > 0 {
                assert(string_views(self.stack@) =~= string_views(before).drop_last());
            }
        }
        r
    }

    /// Takes in the entries of the directory just read.
    pub fn absorb(&mut self, entries: Vec<DirEntry>)
        ensures
            final(self)@ == tree_absorb(old(self)@, entries@),
    {
        let mut i: usize = 0;
        assert(entries@.take(0) =~= Seq::<DirEntry>::empty());
        while i < entries.len()
            invariant
                i <= entries.len(),
                self@ == tree_absorb(old(self)@, entries@.take(i as int)),
            decreases entries.len() - i,
        {
            let e = &entries[i];
            proof {
                assert(entries@.take(i + 1).drop_last() =~= entries@.take(i as int));
                assert(entries@.take(i + 1).last() == *e);
            }
            if !is_tree_excluded(e.path.as_str(), self.root.as_str()) {
                let name = match file_name_exec(e.path.as_str()) {
                    Some(n) => string_of(&n),
                    None => String::new(),
                };
                let info = DirEntryInfo { name, path: e.path.clone(), is_dir: e.is_dir };
                let ghost before = self.entries@;
                self.entries.push(info);
                assert(tree_items(self.entries@) =~= tree_items(before).push((shown_name(e.path@), e.path@, e.is_dir)));
                if e.is_dir {
                    let ghost sb = self.stack@;
                    self.stack.push(e.path.clone());
                    assert(string_views(self.stack@) =~= string_views(sb).push(e.path@));
                }
            }
            i = i + 1;
        }
        assert(entries@.take(entries.len() as int) =~= entries@);
    }

    /// The listed entries.
    pub fn finish(self) -> (r: Vec<DirEntryInfo>)
        ensures
            tree_items(r@) == self@.listed,
    {
        self.entries
    }
}

} // verus!
