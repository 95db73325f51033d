//! Settings storage bookkeeping. Reading and writing the files is the
//! shell's work; here: the global file's path, the effective settings, and
//! recognizing the shell's own writes when the watcher reports them (a
//! content hash is recorded per written path and consumed by the first
//! check).

use vstd::prelude::*;
use vstd::std_specs::hash::DefaultHasherAdditionalSpecFns;
use vstd::utf8::encode_utf8;
use std::collections::hash_map::DefaultHasher;
use std::hash::Hasher;
use crate::desktop::{same_path, same_path_exec};
use crate::path::components;
use crate::settings::merge::{merge, merged};
use crate::settings::model::{default_settings_spec, ProjectOverrides, Settings};
use crate::settings::validate::{
    lemma_defaults_are_valid, lemma_sanitize_laws, overrides_problems, sanitize_overrides, sanitized,
    settings_problems, validate,
};

verus! {

/// The value recorded for a text: a `DefaultHasher` fed its UTF-8 bytes.
pub open spec fn text_hash(content: Seq<char>) -> u64 {
    DefaultHasher::spec_finish(seq![encode_utf8(content)])
}

fn content_hash(content: &str) -> (h: u64)
    ensures
        h == text_hash(content@),
{
    let mut hasher = DefaultHasher::new();
    hasher.write(content.as_bytes());
    hasher.finish()
}

/// Does a change with `content` match the write recorded as `recorded`.
pub open spec fn recognizes(recorded: Option<u64>, content: Seq<char>) -> bool {
    recorded == Some(text_hash(content))
}

/// The hash recorded for `path` (the latest entry naming the same place).
pub open spec fn stored_in(entries: Seq<(String, u64)>, path: Seq<char>) -> Option<u64>
    decreases entries.len(),
{
    if entries.len() == 0 {
        None
    } else if same_path(entries.last().0@, path) {
        Some(entries.last().1)
    } else {
        stored_in(entries.drop_last(), path)
    }
}

/// Overrides that override nothing.
pub open spec fn no_overrides() -> ProjectOverrides {
    ProjectOverrides { schema_version: None, compile: None, root_file: None }
}

/// The global settings path and the recorded writes.
pub struct SettingsStorage {
    global_path: String,
    last_write: Vec<(String, u64)>,
}

/// Entries without those naming the same place as `path`.
pub open spec fn without(entries: Seq<(String, u64)>, path: Seq<char>) -> Seq<(String, u64)> {
    entries.filter(|e: (String, u64)| !same_path(e.0@, path))
}

proof fn lemma_without_other(entries: Seq<(String, u64)>, path: Seq<char>, q: Seq<char>)
    requires
        !same_path(q, path),
    ensures
        stored_in(without(entries, path), q) == stored_in(entries, q),
        stored_in(without(entries, path), path) is None,
    decreases entries.len(),
{
    reveal(Seq::filter);
    let f = |e: (String, u64)| !same_path(e.0@, path);
    if entries.len() > 0 {
        lemma_without_other(entries.drop_last(), path, q);
        assert(entries.filter(f) == if f(entries.last()) {
            entries.drop_last().filter(f).push(entries.last())
        } else {
            entries.drop_last().filter(f)
        });
        if f(entries.last()) {
            assert(entries.filter(f).drop_last() =~= entries.drop_last().filter(f));
        }
    }
}

proof fn lemma_without_self(entries: Seq<(String, u64)>, path: Seq<char>)
    ensures
        stored_in(without(entries, path), path) is None,
    decreases entries.len(),
{
    reveal(Seq::filter);
    let f = |e: (String, u64)| !same_path(e.0@, path);
    if entries.len() > 0 {
        lemma_without_self(entries.drop_last(), path);
        if f(entries.last()) {
            assert(entries.filter(f).drop_last() =~= entries.drop_last().filter(f));
        }
    }
}

impl SettingsStorage {
    /// The global settings path, as given.
    pub closed spec fn global_path_spec(&self) -> Seq<char> {
        self.global_path@
    }

    /// The hash recorded for `path`, if any.
    pub closed spec fn recorded(&self, path: Seq<char>) -> Option<u64> {
        stored_in(self.last_write@, path)
    }

    /// Storage for the global settings file at `global_path`; nothing
    /// recorded yet.
    pub fn new(global_path: String) -> (s: Self)
        ensures
            s.global_path_spec() == global_path@,
            forall|p: Seq<char>| s.recorded(p) is None,
    {
        SettingsStorage { global_path, last_write: Vec::new() }
    }

    /// The global settings file.
    pub fn global_path(&self) -> (r: &str)
        ensures
            r@ == self.global_path_spec(),
    {
        self.global_path.as_str()
    }

    fn recorded_hash(&self, path: &str) -> (r: Option<u64>)
        ensures
            r == self.recorded(path@),
    {
        let mut i = self.last_write.len();
        assert(self.last_write@.take(i as int) =~= self.last_write@);
        while i > 0
            invariant
                i <= self.last_write.len(),
                stored_in(self.last_write@, path@) == stored_in(self.last_write@.take(i as int), path@),
            decreases i,
        {
            assert(self.last_write@.take(i as int).drop_last() =~= self.last_write@.take(i - 1));
            if same_path_exec(self.last_write[i - 1].0.as_str(), path) {
                return Some(self.last_write[i - 1].1);
            }
            i = i - 1;
        }
        None
    }

    fn remove_entries(&mut self, path: &str)
        ensures
            final(self).last_write@ == without(old(self).last_write@, path@),
            final(self).global_path == old(self).global_path,
    {
        let mut old_entries: Vec<(String, u64)> = Vec::new();
        std::mem::swap(&mut old_entries, &mut self.last_write);
        let mut kept: Vec<(String, u64)> = Vec::new();
        let mut i: usize = 0;
        while i < old_entries.len()
            invariant
                i <= old_entries.len(),
                kept@ == without(old_entries@.take(i as int), path@),
            decreases old_entries.len() - i,
        {
            proof {
                reveal(Seq::filter);
                assert(old_entries@.take(i + 1).drop_last() =~= old_entries@.take(i as int));
            }
            let same = same_path_exec(old_entries[i].0.as_str(), path);
            let ghost e = old_entries@[i as int];
            assert(old_entries@.take(i + 1).last() == e);
            if !same {
                let entry = (old_entries[i].0.clone(), old_entries[i].1);
                assert(entry == e);
                kept.push(entry);
            }
            i = i + 1;
        }
        assert(old_entries@.take(old_entries.len() as int) =~= old_entries@);
        self.last_write = kept;
    }

    /// Records that the shell wrote `content` to `path` (replacing an
    /// earlier record for the same place).
    pub fn record_write(&mut self, path: &str, content: &str)
        ensures
            final(self).global_path_spec() == old(self).global_path_spec(),
            final(self).recorded(path@) == Some(text_hash(content@)),
            forall|q: Seq<char>| !same_path(q, path@) ==> final(self).recorded(q) == old(self).recorded(q),
    {
        let h = content_hash(content);
        self.remove_entries(path);
        let ghost mid = self.last_write@;
        self.last_write.push((path.to_string(), h));
        proof {
            assert(self.last_write@.drop_last() =~= mid);
            assert forall|q: Seq<char>| !same_path(q, path@) implies stored_in(self.last_write@, q) == stored_in(old(self).last_write@, q) by {
                assert(same_path(path@, path@));
                if same_path(path@, q) {
                    assert(components(path@) == components(q));
                }
                lemma_without_other(old(self).last_write@, path@, q);
            }
        }
    }

    /// Was this change of `path` the shell's own write? True when a write
    /// was recorded for the place and `content` hashes to the recorded
    /// value. The record is consumed either way.
    pub fn is_self_write(&mut self, path: &str, content: &str) -> (r: bool)
        ensures
            final(self).global_path_spec() == old(self).global_path_spec(),
            r == recognizes(old(self).recorded(path@), content@),
            final(self).recorded(path@) is None,
            forall|q: Seq<char>| !same_path(q, path@) ==> final(self).recorded(q) == old(self).recorded(q),
    {
        let found = self.recorded_hash(path);
        self.remove_entries(path);
        proof {
            lemma_without_self(old(self).last_write@, path@);
            assert forall|q: Seq<char>| !same_path(q, path@) implies stored_in(self.last_write@, q) == stored_in(old(self).last_write@, q) by {
                lemma_without_other(old(self).last_write@, path@, q);
            }
        }
        match found {
            Some(h) => h == content_hash(content),
            None => false,
        }
    }

    /// The global settings after reading the file: what was read when it
    /// parsed and passes validation; otherwise (missing, corrupt or out of
    /// range) the defaults, which must then be written back (the `bool`).
    pub fn global_from(parsed: Option<Settings>) -> (r: (Settings, bool))
        ensures
            match parsed {
                Some(s) => if settings_problems(s).len() == 0 {
                    r == (s, false)
                } else {
                    r == (default_settings_spec(), true)
                },
                None => r == (default_settings_spec(), true),
            },
            settings_problems(r.0).len() == 0,
    {
        proof {
            lemma_defaults_are_valid();
        }
        match parsed {
            Some(s) => {
                if validate(&s).is_ok() {
                    (s, false)
                } else {
                    (Settings::default(), true)
                }
            },
            None => (Settings::default(), true),
        }
    }

    /// A project's overrides after reading its file: what was read, cleaned
    /// field by field (an invalid value is dropped and inherits the global
    /// one, valid values stay); missing or corrupt: no overrides.
    pub fn overrides_from(parsed: Option<ProjectOverrides>) -> (r: ProjectOverrides)
        ensures
            match parsed {
                Some(o) => r == sanitized(o),
                None => r == no_overrides(),
            },
            overrides_problems(r).len() == 0,
    {
        proof {
            if parsed is Some {
                lemma_sanitize_laws(parsed->0);
            }
        }
        match parsed {
            Some(o) => {
                let mut o = o;
                sanitize_overrides(&mut o);
                o
            },
            None => ProjectOverrides { schema_version: None, compile: None, root_file: None },
        }
    }

    /// The effective settings: global merged with the project's overrides.
    pub fn effective(global: &Settings, overrides: &ProjectOverrides) -> (r: Settings)
        ensures
            r == merged(*global, *overrides),
    {
        merge(global, overrides)
    }
}

/// The self-write filter: what `record_write(p, c)` records is recognized
/// by `is_self_write(p, c)`; content that hashes differently is not; with
/// nothing recorded, no change is the shell's own.
pub proof fn lemma_own_write_is_recognized(content: Seq<char>, other: Seq<char>)
    ensures
        recognizes(Some(text_hash(content)), content),
        text_hash(other) != text_hash(content) ==> !recognizes(Some(text_hash(content)), other),
        !recognizes(None, other),
{
}

} // verus!
