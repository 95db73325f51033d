//! Merging a project's overrides into the global settings, and partial updates.

use vstd::prelude::*;
use super::model::{CompileSettings, ProjectOverrides, Settings, SettingsPatch};
use super::validate::{
    debounce_message, debounce_ok, overrides_problems, root_file_problem, settings_problems,
    timeout_message, timeout_ok, validate,
};
use crate::text::string_views;

verus! {

/// `o` when present, else `g`.
pub open spec fn or_else<T>(o: Option<T>, g: T) -> T {
    match o {
        Some(v) => v,
        None => g,
    }
}

/// Effective settings: every key the project overrides replaces the global
/// one; every other key is inherited.
pub open spec fn merged(global: Settings, o: ProjectOverrides) -> Settings {
    let c = global.compile;
    Settings {
        schema_version: or_else(o.schema_version, global.schema_version),
        compile: match o.compile {
            Some(oc) => CompileSettings {
                mode: or_else(oc.mode, c.mode),
                debounce_ms: or_else(oc.debounce_ms, c.debounce_ms),
                timeout_secs: or_else(oc.timeout_secs, c.timeout_secs),
                engine: or_else(oc.engine, c.engine),
            },
            None => c,
        },
        root_file: match o.root_file {
            Some(rf) => Some(rf),
            None => global.root_file,
        },
    }
}

/// Settings with the keys of a patch applied.
pub open spec fn patched(base: Settings, p: SettingsPatch) -> Settings {
    let c = base.compile;
    Settings {
        schema_version: base.schema_version,
        compile: CompileSettings {
            mode: or_else(p.mode, c.mode),
            debounce_ms: or_else(p.debounce_ms, c.debounce_ms),
            timeout_secs: or_else(p.timeout_secs, c.timeout_secs),
            engine: or_else(p.engine, c.engine),
        },
        root_file: match p.root_file {
            Some(rf) => rf,
            None => base.root_file,
        },
    }
}

/// Merges a project's overrides into the global settings, key by key.
pub fn merge(global: &Settings, o: &ProjectOverrides) -> (r: Settings)
    ensures
        r == merged(*global, *o),
{
    let g = global.clone();
    let compile = match o.compile {
        Some(oc) => CompileSettings {
            mode: match oc.mode {
                Some(m) => m,
                None => g.compile.mode,
            },
            debounce_ms: match oc.debounce_ms {
                Some(v) => v,
                None => g.compile.debounce_ms,
            },
            timeout_secs: match oc.timeout_secs {
                Some(v) => v,
                None => g.compile.timeout_secs,
            },
            engine: match oc.engine {
                Some(e) => e,
                None => g.compile.engine,
            },
        },
        None => g.compile,
    };
    let root_file = match &o.root_file {
        Some(rf) => Some(rf.clone()),
        None => g.root_file,
    };
    Settings {
        schema_version: match o.schema_version {
            Some(v) => v,
            None => g.schema_version,
        },
        compile,
        root_file,
    }
}

/// Applies a partial update. The patched settings are checked first: when
/// they are out of range, `base` is left as it was and every complaint is
/// returned; otherwise `base` becomes the patched settings.
pub fn apply_patch(base: &mut Settings, patch: &SettingsPatch) -> (r: Result<(), Vec<String>>)
    ensures
        r is Ok <==> settings_problems(patched(*old(base), *patch)).len() == 0,
        r is Ok ==> *final(base) == patched(*old(base), *patch),
        r matches Err(e) ==> *final(base) == *old(base) && string_views(e@) == settings_problems(
            patched(*old(base), *patch),
        ),
{
    let p = patch.clone();
    let c = base.compile;
    let candidate = Settings {
        schema_version: base.schema_version,
        compile: CompileSettings {
            mode: match p.mode {
                Some(m) => m,
                None => c.mode,
            },
            debounce_ms: match p.debounce_ms {
                Some(v) => v,
                None => c.debounce_ms,
            },
            timeout_secs: match p.timeout_secs {
                Some(v) => v,
                None => c.timeout_secs,
            },
            engine: match p.engine {
                Some(e) => e,
                None => c.engine,
            },
        },
        root_file: match p.root_file {
            Some(rf) => rf,
            None => base.root_file.clone(),
        },
    };
    match validate(&candidate) {
        Ok(()) => {
            *base = candidate;
            Ok(())
        },
        Err(e) => Err(e),
    }
}

/// Merging laws: overrides that override nothing leave the global settings
/// as they are; a key the project overrides always wins; and when both the
/// global settings and the overrides pass validation, so do the effective
/// settings.
pub proof fn lemma_merge_laws(global: Settings, o: ProjectOverrides)
    ensures
        merged(global, ProjectOverrides { schema_version: None, compile: None, root_file: None })
            == global,
        o.root_file matches Some(rf) ==> merged(global, o).root_file == Some(rf),
        o.compile matches Some(c) ==> (c.timeout_secs matches Some(t) ==> merged(
            global,
            o,
        ).compile.timeout_secs == t),
        settings_problems(global).len() == 0 && overrides_problems(o).len() == 0
            ==> settings_problems(merged(global, o)).len() == 0,
{
    if settings_problems(global).len() == 0 && overrides_problems(o).len() == 0 {
        let head: Seq<Seq<char>> = match o.root_file {
            Some(rf) => match root_file_problem(rf@) {
                Some(m) => seq![m],
                None => Seq::empty(),
            },
            None => Seq::empty(),
        };
        match o.compile {
            Some(c) => {
                let t: Seq<Seq<char>> = match c.timeout_secs {
                    Some(v) => if timeout_ok(v) { Seq::empty() } else { seq![timeout_message(v)] },
                    None => Seq::empty(),
                };
                let d: Seq<Seq<char>> = match c.debounce_ms {
                    Some(v) => if debounce_ok(v) { Seq::empty() } else { seq![debounce_message(v)] },
                    None => Seq::empty(),
                };
                assert(overrides_problems(o) == head + (t + d));
            },
            None => {},
        }
    }
}

/// A patch without keys changes nothing; applying the same patch twice
/// gives what applying it once gives.
pub proof fn lemma_patch_laws(base: Settings, p: SettingsPatch)
    ensures
        patched(base, SettingsPatch { mode: None, debounce_ms: None, timeout_secs: None, engine: None, root_file: None })
            == base,
        patched(patched(base, p), p) == patched(base, p),
{
}

/// Merging, key by key: a key the project overrides takes the project's
/// value; a key it leaves out (or a missing `compile` table) takes the
/// global value.
pub proof fn lemma_merge_each_key(global: Settings, o: ProjectOverrides)
    ensures
        o.schema_version matches Some(v) ==> merged(global, o).schema_version == v,
        o.schema_version is None ==> merged(global, o).schema_version == global.schema_version,
        o.root_file matches Some(f) ==> merged(global, o).root_file == Some(f),
        o.root_file is None ==> merged(global, o).root_file == global.root_file,
        o.compile is None ==> merged(global, o).compile == global.compile,
        o.compile matches Some(c) ==> {
            &&& (c.mode matches Some(v) ==> merged(global, o).compile.mode == v)
            &&& (c.mode is None ==> merged(global, o).compile.mode == global.compile.mode)
            &&& (c.debounce_ms matches Some(v) ==> merged(global, o).compile.debounce_ms == v)
            &&& (c.debounce_ms is None ==> merged(global, o).compile.debounce_ms
                == global.compile.debounce_ms)
            &&& (c.timeout_secs matches Some(v) ==> merged(global, o).compile.timeout_secs == v)
            &&& (c.timeout_secs is None ==> merged(global, o).compile.timeout_secs
                == global.compile.timeout_secs)
            &&& (c.engine matches Some(v) ==> merged(global, o).compile.engine == v)
            &&& (c.engine is None ==> merged(global, o).compile.engine == global.compile.engine)
        },
{
}

/// A partial update, key by key: a key the patch holds is set to its value
/// (for the root file, `Some(None)` clears it); a key it leaves out keeps
/// the value it had; the schema version never changes.
pub proof fn lemma_patch_each_key(base: Settings, p: SettingsPatch)
    ensures
        patched(base, p).schema_version == base.schema_version,
        p.mode matches Some(v) ==> patched(base, p).compile.mode == v,
        p.mode is None ==> patched(base, p).compile.mode == base.compile.mode,
        p.debounce_ms matches Some(v) ==> patched(base, p).compile.debounce_ms == v,
        p.debounce_ms is None ==> patched(base, p).compile.debounce_ms == base.compile.debounce_ms,
        p.timeout_secs matches Some(v) ==> patched(base, p).compile.timeout_secs == v,
        p.timeout_secs is None ==> patched(base, p).compile.timeout_secs == base.compile.timeout_secs,
        p.engine matches Some(v) ==> patched(base, p).compile.engine == v,
        p.engine is None ==> patched(base, p).compile.engine == base.compile.engine,
        p.root_file matches Some(rf) ==> patched(base, p).root_file == rf,
        p.root_file is None ==> patched(base, p).root_file == base.root_file,
{
}

} // verus!
