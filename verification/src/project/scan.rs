//! Ignore rules, shared by the watcher and by file collection.

use vstd::prelude::*;
use crate::path::{extension, extension_exec, relative_components, relative_components_exec};
use crate::text::same_as_str;

verus! {

/// A component that hides what is under it: `tmp`, or a dot-name longer
/// than one character (such as `.git`).
pub open spec fn hidden_or_tmp_name(c: Seq<char>) -> bool {
    c == "tmp"@ || (c.len() > 1 && c[0] == '.')
}

/// Some component of `path` below `root` is `tmp` or hidden. Hidden
/// directories above the root do not count (`~/.projects/foo` is a fine root).
pub open spec fn hidden_or_tmp(path: Seq<char>, root: Seq<char>) -> bool {
    let rel = relative_components(path, root);
    exists|i: int| 0 <= i < rel.len() && hidden_or_tmp_name(#[trigger] rel[i])
}

/// Ignored for compilation: under `tmp/`, hidden, or not a `.tex` file.
pub open spec fn ignored(path: Seq<char>, root: Seq<char>) -> bool {
    hidden_or_tmp(path, root) || extension(path) != Some("tex"@)
}

/// Is some component of `path` below `root` `tmp` or hidden.
pub fn is_hidden_or_tmp(path: &str, root: &str) -> (b: bool)
    ensures
        b == hidden_or_tmp(path@, root@),
{
    let rel = relative_components_exec(path, root);
    let mut i: usize = 0;
    while i < rel.len()
        invariant
            i <= rel.len(),
            crate::text::views(rel@) == relative_components(path@, root@),
            forall|k: int| 0 <= k < i ==> !hidden_or_tmp_name(#[trigger] rel@[k]@),
        decreases rel.len() - i,
    {
        let c = &rel[i];
        let hidden = c.len() > 1 && c[0] == '.';
        if same_as_str(c, "tmp") || hidden {
            assert(crate::text::views(rel@)[i as int] == c@);
            return true;
        }
        i = i + 1;
    }
    proof {
        let rs = relative_components(path@, root@);
        assert forall|k: int| 0 <= k < rs.len() implies !hidden_or_tmp_name(#[trigger] rs[k]) by {
            assert(rs[k] == rel@[k]@);
        }
    }
    false
}

/// Ignored for compilation and collection: `tmp/`, hidden entries, and
/// anything that is not a `.tex` file.
pub fn is_ignored(path: &str, root: &str) -> (b: bool)
    ensures
        b == ignored(path@, root@),
{
    if is_hidden_or_tmp(path, root) {
        return true;
    }
    match extension_exec(path) {
        Some(e) => !same_as_str(&e, "tex"),
        None => true,
    }
}

/// Excluded from the file tree: only `tmp/` and hidden entries (the tree
/// shows every extension).
pub fn is_tree_excluded(path: &str, root: &str) -> (b: bool)
    ensures
        b == hidden_or_tmp(path@, root@),
{
    is_hidden_or_tmp(path, root)
}

/// Whatever the file tree hides is also ignored for compilation.
pub proof fn lemma_tree_excluded_is_ignored(path: Seq<char>, root: Seq<char>)
    ensures
        hidden_or_tmp(path, root) ==> ignored(path, root),
{
}

} // verus!
