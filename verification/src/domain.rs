//! Mount modes and the per-module rules that choose one for each path.
use vstd::prelude::*;

use crate::text::{chars_of, starts_with, starts_with_chars};

verus! {

/// The mode a configuration names for modules without rules of their own.
#[derive(Debug, Clone, Copy, PartialEq, Eq, Structural)]
pub enum DefaultMode {
    Overlay,
    Magic,
    Hymofs,
}

/// How one path of a module is mounted.
#[derive(Debug, Clone, Copy, PartialEq, Eq, Structural)]
pub enum MountMode {
    Overlay,
    Magic,
    Hymofs,
    Kasumi,
    Ignore,
}

impl Default for DefaultMode {
    fn default() -> (r: Self)
        ensures
            r == DefaultMode::Overlay,
    {
        DefaultMode::Overlay
    }
}

impl Default for MountMode {
    fn default() -> (r: Self)
        ensures
            r == MountMode::Overlay,
    {
        MountMode::Overlay
    }
}

pub open spec fn default_as_mount_mode(m: DefaultMode) -> MountMode {
    match m {
        DefaultMode::Overlay => MountMode::Overlay,
        DefaultMode::Magic => MountMode::Magic,
        DefaultMode::Hymofs => MountMode::Hymofs,
    }
}

impl DefaultMode {
    pub fn as_mount_mode(&self) -> (r: MountMode)
        ensures
            r == default_as_mount_mode(*self),
    {
        match self {
            DefaultMode::Overlay => MountMode::Overlay,
            DefaultMode::Magic => MountMode::Magic,
            DefaultMode::Hymofs => MountMode::Hymofs,
        }
    }
}

/// A module's rules: a mode for the whole module and modes for given paths
/// (relative to the module root, such as `system/bin`).
#[derive(Debug, Clone)]
pub struct ModuleRules {
    pub default_mode: MountMode,
    pub paths: Vec<(String, MountMode)>,
}

/// `rel` is `key` or lies below it.
pub open spec fn path_matches(rel: Seq<char>, key: Seq<char>) -> bool {
    ||| rel == key
    ||| (rel.len() > key.len() && starts_with(rel, key) && rel[key.len() as int] == '/')
}

impl ModuleRules {
    /// The paths with their modes, as character sequences.
    pub open spec fn path_entries(&self) -> Seq<(Seq<char>, MountMode)> {
        self.paths@.map_values(|e: (String, MountMode)| (e.0@, e.1))
    }

    /// No path is named twice (the rules are a map from paths).
    pub open spec fn well_formed(&self) -> bool {
        forall|i: int, j: int|
            0 <= i < j < self.paths@.len() ==> #[trigger] self.paths@[i].0@
                != #[trigger] self.paths@[j].0@
    }

    /// Some named path covers `rel`.
    pub open spec fn has_match(&self, rel: Seq<char>) -> bool {
        exists|k: int| 0 <= k < self.paths@.len() && path_matches(rel, #[trigger] self.paths@[k].0@)
    }

    /// Entry `k` covers `rel`, and no covering path is longer.
    pub open spec fn is_longest_match(&self, rel: Seq<char>, k: int) -> bool {
        &&& 0 <= k < self.paths@.len()
        &&& path_matches(rel, self.paths@[k].0@)
        &&& forall|j: int|
            0 <= j < self.paths@.len() && path_matches(rel, #[trigger] self.paths@[j].0@)
                ==> self.paths@[j].0@.len() <= self.paths@[k].0@.len()
    }

    /// The mode for `relative_path`: that of the longest named path equal to
    /// it or above it, else the module's default mode.
    pub fn get_mode(&self, relative_path: &str) -> (r: MountMode)
        requires
            self.well_formed(),
        ensures
            !self.has_match(relative_path@) ==> r == self.default_mode,
            self.has_match(relative_path@) ==> exists|k: int|
                self.is_longest_match(relative_path@, k) && r == #[trigger] self.paths@[k].1,
    {
        let rel = chars_of(relative_path);
        let mut best: Option<MountMode> = None;
        let mut best_len: usize = 0;
        let ghost mut best_k: int = -1;
        let mut i: usize = 0;
        while i < self.paths.len()
            invariant
                i <= self.paths@.len(),
                rel@ == relative_path@,
                best is None <==> (forall|j: int|
                    0 <= j < i ==> !path_matches(rel@, #[trigger] self.paths@[j].0@)),
                best is Some ==> {
                    &&& 0 <= best_k < i
                    &&& path_matches(rel@, self.paths@[best_k].0@)
                    &&& best == Some(self.paths@[best_k].1)
                    &&& best_len == self.paths@[best_k].0@.len()
                    &&& forall|j: int|
                        0 <= j < i && path_matches(rel@, #[trigger] self.paths@[j].0@)
                            ==> self.paths@[j].0@.len() <= best_len
                },
            decreases self.paths@.len() - i,
        {
            let key = chars_of(self.paths[i].0.as_str());
            let is_exact = rel.len() == key.len() && starts_with_chars(&rel, &key);
            let is_prefix = rel.len() > key.len() && starts_with_chars(&rel, &key) && rel[key.len()]
                == '/';
            proof {
                if rel.len() == key.len() && starts_with(rel@, key@) {
                    assert(rel@ =~= key@);
                }
                if rel@ == key@ {
                    assert(rel@.take(key@.len() as int) =~= key@);
                }
            }
            if (is_exact || is_prefix) && (best.is_none() || key.len() >= best_len) {
                best = Some(self.paths[i].1);
                best_len = key.len();
                proof {
                    best_k = i as int;
                }
            }
            i = i + 1;
        }
        match best {
            Some(m) => m,
            None => self.default_mode,
        }
    }
}

/// Two named paths that both cover `rel` and have the same length are the
/// same path, so in well-formed rules the longest covering path is unique.
pub proof fn lemma_longest_match_unique(rules: ModuleRules, rel: Seq<char>, a: int, b: int)
    requires
        rules.well_formed(),
        rules.is_longest_match(rel, a),
        rules.is_longest_match(rel, b),
    ensures
        a == b,
{
    let ka = rules.paths@[a].0@;
    let kb = rules.paths@[b].0@;
    assert(ka.len() == kb.len());
    assert(ka =~= kb) by {
        assert(ka.len() <= rel.len());
        assert(rel.take(ka.len() as int) =~= ka) by {
            if rel != ka {
                assert(starts_with(rel, ka));
            }
        }
        assert(rel.take(kb.len() as int) =~= kb) by {
            if rel != kb {
                assert(starts_with(rel, kb));
            }
        }
    }
    if a != b {
        if a < b {
            assert(rules.paths@[a].0@ != rules.paths@[b].0@);
        } else {
            assert(rules.paths@[b].0@ != rules.paths@[a].0@);
        }
    }
}

impl ModuleRules {
    /// The mode `get_mode` gives `rel`.
    pub open spec fn mode_for(&self, rel: Seq<char>) -> MountMode {
        if self.has_match(rel) {
            self.paths@[choose|k: int| self.is_longest_match(rel, k)].1
        } else {
            self.default_mode
        }
    }
}

/// What `get_mode` promises pins its result to `mode_for`.
pub proof fn lemma_mode_for(rules: ModuleRules, rel: Seq<char>, r: MountMode)
    requires
        rules.well_formed(),
        !rules.has_match(rel) ==> r == rules.default_mode,
        rules.has_match(rel) ==> exists|k: int|
            rules.is_longest_match(rel, k) && r == #[trigger] rules.paths@[k].1,
    ensures
        r == rules.mode_for(rel),
{
    if rules.has_match(rel) {
        let k = choose|k: int| rules.is_longest_match(rel, k) && r == #[trigger] rules.paths@[k].1;
        let c = choose|k: int| rules.is_longest_match(rel, k);
        lemma_longest_match_unique(rules, rel, k, c);
    }
}

} // verus!
