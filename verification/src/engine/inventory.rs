//! The module inventory: which module directories count as modules, with
//! which rules, and what their `module.prop` says.
use vstd::prelude::*;

use crate::conf::schema::Config;
use crate::defs;
use crate::domain::{default_as_mount_mode, ModuleRules, MountMode};
use crate::strset::{str_lt, string_views};
use crate::text::{char_views, chars_of, copy_range, split_on, split_on_chars, string_from_chars, trim, trim_chars};

verus! {

/// A module the mounts are planned for.
#[derive(Debug, Clone)]
pub struct Module {
    pub id: String,
    pub source_path: String,
    pub rules: ModuleRules,
}

/// Directory names under the modules directory that are never modules.
pub open spec fn reserved_dir(id: Seq<char>) -> bool {
    id == "hybrid-mount"@ || id == "lost+found"@ || id == ".git"@ || id == ".idea"@ || id
        == ".vscode"@
}

pub fn is_reserved_module_dir(id: &str) -> (r: bool)
    ensures
        r == reserved_dir(id@),
{
    let s = String::from_str(id);
    s == String::from_str("hybrid-mount") || s == String::from_str("lost+found") || s
        == String::from_str(".git") || s == String::from_str(".idea") || s == String::from_str(
        ".vscode",
    )
}

/// Which of the marker files that keep a module from being mounted exist in
/// its directory.
#[derive(Debug, Clone, Copy)]
pub struct MarkerFiles {
    pub disable: bool,
    pub remove: bool,
    pub mount_error: bool,
    pub skip_mount: bool,
}

/// The names of the markers present, in the order disable, remove,
/// mount_error, skip_mount.
pub open spec fn markers_present(m: MarkerFiles) -> Seq<Seq<char>> {
    (if m.disable {
        seq![defs::DISABLE_FILE_NAME@]
    } else {
        Seq::empty()
    }) + (if m.remove {
        seq![defs::REMOVE_FILE_NAME@]
    } else {
        Seq::empty()
    }) + (if m.mount_error {
        seq![defs::MOUNT_ERROR_FILE_NAME@]
    } else {
        Seq::empty()
    }) + (if m.skip_mount {
        seq![defs::SKIP_MOUNT_FILE_NAME@]
    } else {
        Seq::empty()
    })
}

/// Each marker file present is reported, and only those: a module with
/// any marker is blocked, one with none is not.
pub proof fn lemma_markers_block(m: MarkerFiles)
    ensures
        m.disable <==> markers_present(m).contains(defs::DISABLE_FILE_NAME@),
        m.remove <==> markers_present(m).contains(defs::REMOVE_FILE_NAME@),
        m.mount_error <==> markers_present(m).contains(defs::MOUNT_ERROR_FILE_NAME@),
        m.skip_mount <==> markers_present(m).contains(defs::SKIP_MOUNT_FILE_NAME@),
        (markers_present(m).len() == 0) <==> !(m.disable || m.remove || m.mount_error || m.skip_mount),
{
    reveal_strlit("disable");
    reveal_strlit("remove");
    reveal_strlit("mount_error");
    reveal_strlit("skip_mount");
    let d = defs::DISABLE_FILE_NAME@;
    let r = defs::REMOVE_FILE_NAME@;
    let e = defs::MOUNT_ERROR_FILE_NAME@;
    let k = defs::SKIP_MOUNT_FILE_NAME@;
    assert(d != r && d != e && d != k && r != e && r != k && e != k) by {
        assert(d.len() != r.len() || d[0] != r[0]);
        assert(d[0] != e[0] && d[0] != k[0]);
        assert(r[0] != e[0] && r[0] != k[0]);
        assert(e[0] != k[0]);
    }
    let mp = markers_present(m);
    let a = if m.disable { seq![d] } else { Seq::empty() };
    let b = if m.remove { seq![r] } else { Seq::empty() };
    let c = if m.mount_error { seq![e] } else { Seq::empty() };
    let f = if m.skip_mount { seq![k] } else { Seq::empty() };
    assert(mp == a + b + c + f);
    assert forall|x: Seq<char>| mp.contains(x) <==> (a.contains(x) || b.contains(x) || c.contains(x) || f.contains(x)) by {
        if mp.contains(x) {
            let i = choose|i: int| 0 <= i < mp.len() && mp[i] == x;
            if i < a.len() {
                assert(a[i] == x);
            } else if i < a.len() + b.len() {
                assert(b[i - a.len()] == x);
            } else if i < a.len() + b.len() + c.len() {
                assert(c[i - a.len() - b.len()] == x);
            } else {
                assert(f[i - a.len() - b.len() - c.len()] == x);
            }
        }
        if a.contains(x) {
            assert(mp[0] == x);
        }
        if b.contains(x) {
            assert(mp[a.len() as int] == x);
        }
        if c.contains(x) {
            assert(mp[(a.len() + b.len()) as int] == x);
        }
        if f.contains(x) {
            assert(mp[(a.len() + b.len() + c.len()) as int] == x);
        }
    }
    if m.disable { assert(a[0] == d); }
    if m.remove { assert(b[0] == r); }
    if m.mount_error { assert(c[0] == e); }
    if m.skip_mount { assert(f[0] == k); }
}

/// No directory entry with a marker file is taken as a module.
pub proof fn lemma_marked_entry_skipped(e: ModuleDirEntry)
    ensures
        (e.markers.disable || e.markers.remove || e.markers.mount_error || e.markers.skip_mount) ==> !is_module_entry(e),
{
    lemma_markers_block(e.markers);
}

pub fn mount_block_markers(m: MarkerFiles) -> (r: Vec<String>)
    ensures
        string_views(r@) == markers_present(m),
{
    let mut v: Vec<String> = Vec::new();
    if m.disable {
        v.push(String::from_str(defs::DISABLE_FILE_NAME));
    }
    if m.remove {
        v.push(String::from_str(defs::REMOVE_FILE_NAME));
    }
    if m.mount_error {
        v.push(String::from_str(defs::MOUNT_ERROR_FILE_NAME));
    }
    if m.skip_mount {
        v.push(String::from_str(defs::SKIP_MOUNT_FILE_NAME));
    }
    assert(string_views(v@) =~= markers_present(m));
    v
}

/// A module is blocked when any marker is present.
pub fn has_mount_block_marker(m: MarkerFiles) -> (r: bool)
    ensures
        r == (markers_present(m).len() > 0),
{
    let markers = mount_block_markers(m);
    markers.len() > 0
}

/// The configured rules for `id`, if any.
pub open spec fn configured_rules(cfg: Config, id: Seq<char>) -> Option<ModuleRules> {
    if exists|i: int| 0 <= i < cfg.rules@.len() && (#[trigger] cfg.rules@[i]).0@ == id {
        Some(cfg.rules@[choose|i: int| 0 <= i < cfg.rules@.len() && (#[trigger] cfg.rules@[i]).0@ == id].1)
    } else {
        None
    }
}

/// The configuration names each module at most once.
pub open spec fn rules_keys_distinct(cfg: Config) -> bool {
    forall|i: int, j: int|
        0 <= i < j < cfg.rules@.len() ==> (#[trigger] cfg.rules@[i]).0@ != (#[trigger] cfg.rules@[j]).0@
}

/// `r` are the rules `load_module_rules` gives module `id`.
pub open spec fn rules_loaded(cfg: Config, id: Seq<char>, r: ModuleRules) -> bool {
    match configured_rules(cfg, id) {
        Some(g) => r.default_mode == g.default_mode && r.path_entries() == g.path_entries(),
        None => r.default_mode == default_as_mount_mode(cfg.default_mode) && r.paths@.len() == 0,
    }
}

/// The rules of module `module_id`: the configured ones when the
/// configuration names it, else the configuration's default mode and no
/// path rules.
pub fn load_module_rules(module_id: &str, cfg: &Config) -> (r: ModuleRules)
    requires
        rules_keys_distinct(*cfg),
    ensures
        rules_loaded(*cfg, module_id@, r),
{
    let id = String::from_str(module_id);
    let mut i: usize = 0;
    while i < cfg.rules.len()
        invariant
            i <= cfg.rules@.len(),
            id@ == module_id@,
            rules_keys_distinct(*cfg),
            forall|k: int| 0 <= k < i ==> (#[trigger] cfg.rules@[k]).0@ != module_id@,
        decreases cfg.rules@.len() - i,
    {
        if cfg.rules[i].0 == id {
            let g = &cfg.rules[i].1;
            let mut paths: Vec<(String, MountMode)> = Vec::new();
            let mut k: usize = 0;
            while k < g.paths.len()
                invariant
                    k <= g.paths@.len(),
                    paths@.map_values(|e: (String, MountMode)| (e.0@, e.1)) == g.path_entries().take(k as int),
                decreases g.paths@.len() - k,
            {
                let ghost before = paths@.map_values(|e: (String, MountMode)| (e.0@, e.1));
                paths.push((g.paths[k].0.clone(), g.paths[k].1));
                assert(paths@.map_values(|e: (String, MountMode)| (e.0@, e.1)) =~= before.push((g.paths@[k as int].0@, g.paths@[k as int].1)));
                assert(g.path_entries().take(k + 1) =~= g.path_entries().take(k as int).push(g.path_entries()[k as int]));
                k = k + 1;
            }
            assert(g.path_entries().take(g.paths@.len() as int) =~= g.path_entries());
            proof {
                let c = choose|c: int| 0 <= c < cfg.rules@.len() && (#[trigger] cfg.rules@[c]).0@ == module_id@;
                if c != i {
                    if c < i {
                        assert(cfg.rules@[c].0@ != cfg.rules@[i as int].0@);
                    } else {
                        assert(cfg.rules@[i as int].0@ != cfg.rules@[c].0@);
                    }
                }
            }
            let r = ModuleRules { default_mode: g.default_mode, paths };
            assert(r.path_entries() == paths@.map_values(|e: (String, MountMode)| (e.0@, e.1)));
            return r;
        }
        i = i + 1;
    }
    ModuleRules { default_mode: cfg.default_mode.as_mount_mode(), paths: Vec::new() }
}

/// A directory under the modules directory, as listed.
#[derive(Debug, Clone)]
pub struct ModuleDirEntry {
    pub id: String,
    pub path: String,
    pub is_dir: bool,
    pub markers: MarkerFiles,
}

/// The entry is a module: a directory, not reserved, and not blocked.
pub open spec fn is_module_entry(e: ModuleDirEntry) -> bool {
    e.is_dir && !reserved_dir(e.id@) && markers_present(e.markers).len() == 0
}

/// `m` is the module made of entry `e`.
pub open spec fn module_of_entry(cfg: Config, e: ModuleDirEntry, m: Module) -> bool {
    &&& m.id@ == e.id@
    &&& m.source_path@ == e.path@
    &&& rules_loaded(cfg, e.id@, m.rules)
}

/// The modules made of the module entries, in listing order.
pub open spec fn entry_modules_fit(cfg: Config, entries: Seq<ModuleDirEntry>, mods: Seq<Module>) -> bool
    decreases entries.len(),
{
    if entries.len() == 0 {
        mods.len() == 0
    } else if is_module_entry(entries.last()) {
        mods.len() > 0 && module_of_entry(cfg, entries.last(), mods.last()) && entry_modules_fit(
            cfg,
            entries.drop_last(),
            mods.drop_last(),
        )
    } else {
        entry_modules_fit(cfg, entries.drop_last(), mods)
    }
}

/// The module entries as modules, in listing order.
pub fn select_modules(entries: &Vec<ModuleDirEntry>, cfg: &Config) -> (r: Vec<Module>)
    requires
        rules_keys_distinct(*cfg),
    ensures
        entry_modules_fit(*cfg, entries@, r@),
{
    let mut out: Vec<Module> = Vec::new();
    let mut i: usize = 0;
    while i < entries.len()
        invariant
            i <= entries@.len(),
            rules_keys_distinct(*cfg),
            entry_modules_fit(*cfg, entries@.take(i as int), out@),
        decreases entries@.len() - i,
    {
        let e = &entries[i];
        proof {
            assert(entries@.take(i + 1).drop_last() =~= entries@.take(i as int));
            assert(entries@.take(i + 1).last() == *e);
        }
        let markers = mount_block_markers(e.markers);
        if e.is_dir && !is_reserved_module_dir(e.id.as_str()) && markers.len() == 0 {
            let m = Module {
                id: e.id.clone(),
                source_path: e.path.clone(),
                rules: load_module_rules(e.id.as_str(), cfg),
            };
            let ghost before = out@;
            out.push(m);
            assert(out@.drop_last() =~= before);
        }
        i = i + 1;
    }
    assert(entries@.take(entries@.len() as int) =~= entries@);
    out
}

/// The modules ordered by id; ids are distinct, so the order is strict.
pub fn sort_modules_by_id(mods: Vec<Module>) -> (r: Vec<Module>)
    ensures
        forall|i: int, j: int| 0 <= i < j < r@.len() ==> !crate::strset::seq_lt(#[trigger] r@[j].id@, #[trigger] r@[i].id@),
        r@.to_multiset() == mods@.to_multiset(),
{
    broadcast use vstd::seq_lib::to_multiset_insert;
    let ghost orig = mods@;
    let mut rest = mods;
    let mut out: Vec<Module> = Vec::new();
    proof {
        vstd::seq_lib::to_multiset_len(out@);
        vstd::multiset::lemma_multiset_empty_len(out@.to_multiset());
    }
    assert(out@.to_multiset() =~= vstd::multiset::Multiset::<Module>::empty());
    assert(out@.to_multiset().add(rest@.to_multiset()) =~= orig.to_multiset());
    while rest.len() > 0
        invariant
            forall|a: int, b: int| 0 <= a < b < out@.len() ==> !crate::strset::seq_lt(#[trigger] out@[b].id@, #[trigger] out@[a].id@),
            out@.to_multiset().add(rest@.to_multiset()) == orig.to_multiset(),
        decreases rest@.len(),
    {
        let ghost rest_before = rest@;
        let m = rest.remove(0);
        proof {
            vstd::seq_lib::to_multiset_remove(rest_before, 0);
        }
        let mut p: usize = 0;
        while p < out.len() && !str_lt(&m.id, &out[p].id)
            invariant
                p <= out@.len(),
                forall|k: int| 0 <= k < p ==> !crate::strset::seq_lt(m.id@, #[trigger] out@[k].id@),
            decreases out@.len() - p,
        {
            p = p + 1;
        }
        let ghost before = out@;
        proof {
            if p < before.len() {
                assert(crate::strset::seq_lt(m.id@, before[p as int].id@));
            }
        }
        out.insert(p, m);
        proof {
            let now = out@;
            assert(now == before.insert(p as int, m));
            assert forall|a: int, b: int| 0 <= a < b < now.len() implies !crate::strset::seq_lt(#[trigger] now[b].id@, #[trigger] now[a].id@) by {
                if b < p {
                    assert(now[a] == before[a] && now[b] == before[b]);
                } else if b == p {
                    assert(now[a] == before[a]);
                } else if a < p {
                    assert(now[a] == before[a] && now[b] == before[b - 1]);
                } else if a == p {
                    assert(now[b] == before[b - 1]);
                    if crate::strset::seq_lt(before[b - 1].id@, m.id@) {
                        crate::strset::lemma_lt_transitive(before[b - 1].id@, m.id@, before[p as int].id@);
                        if b - 1 == p {
                            crate::strset::lemma_lt_irreflexive(m.id@);
                            crate::strset::lemma_lt_asymmetric(m.id@, before[p as int].id@);
                        } else {
                            assert(!crate::strset::seq_lt(before[b - 1].id@, before[p as int].id@));
                        }
                    }
                } else {
                    assert(now[a] == before[a - 1] && now[b] == before[b - 1]);
                }
            }
            vstd::seq_lib::to_multiset_insert(before, p as int, m);
            assert(rest_before.to_multiset().contains(m)) by {
                vstd::seq_lib::to_multiset_contains(rest_before, m);
                assert(rest_before.contains(m)) by {
                    assert(rest_before[0] == m);
                }
            }
            assert(out@.to_multiset().add(rest@.to_multiset()) =~= orig.to_multiset());
        }
    }
    proof {
        vstd::seq_lib::to_multiset_len(rest@);
        vstd::multiset::lemma_multiset_empty_len(rest@.to_multiset());
    }
    assert(rest@.to_multiset() =~= vstd::multiset::Multiset::<Module>::empty());
    assert(out@.to_multiset().add(rest@.to_multiset()) =~= out@.to_multiset());
    out
}

/// What a module's `module.prop` says about it.
#[derive(Debug, Clone)]
pub struct ModuleProp {
    pub name: String,
    pub version: String,
    pub author: String,
    pub description: String,
}

pub struct PropView {
    pub name: Seq<char>,
    pub version: Seq<char>,
    pub author: Seq<char>,
    pub description: Seq<char>,
}

impl View for ModuleProp {
    type V = PropView;

    open spec fn view(&self) -> PropView {
        PropView {
            name: self.name@,
            version: self.version@,
            author: self.author@,
            description: self.description@,
        }
    }
}

impl Default for ModuleProp {
    fn default() -> (r: Self)
        ensures
            r@.name == Seq::<char>::empty() && r@.version == Seq::<char>::empty() && r@.author
                == Seq::<char>::empty() && r@.description == Seq::<char>::empty(),
    {
        ModuleProp {
            name: String::new(),
            version: String::new(),
            author: String::new(),
            description: String::new(),
        }
    }
}

/// The value when its trimmed form is not empty, else the fallback.
pub open spec fn or_default(v: Seq<char>, fallback: Seq<char>) -> Seq<char> {
    if trim(v).len() == 0 {
        fallback
    } else {
        v
    }
}

fn fill_blank(v: String, fallback: &str) -> (r: String)
    ensures
        r@ == or_default(v@, fallback@),
{
    let c = chars_of(v.as_str());
    let t = trim_chars(&c);
    if t.len() == 0 {
        String::from_str(fallback)
    } else {
        v
    }
}

/// The fields with blanks filled: the module id for the name, `unknown` for
/// the version and author, `No description` for the description.
pub fn normalize_module_prop(module_id: &str, prop: ModuleProp) -> (r: ModuleProp)
    ensures
        r@.name == or_default(prop@.name, module_id@),
        r@.version == or_default(prop@.version, "unknown"@),
        r@.author == or_default(prop@.author, "unknown"@),
        r@.description == or_default(prop@.description, "No description"@),
{
    ModuleProp {
        name: fill_blank(prop.name, module_id),
        version: fill_blank(prop.version, "unknown"),
        author: fill_blank(prop.author, "unknown"),
        description: fill_blank(prop.description, "No description"),
    }
}

/// A character a `module.prop` key may hold.
pub open spec fn is_key_char(c: char) -> bool {
    ('a' <= c && c <= 'z') || ('A' <= c && c <= 'Z') || ('0' <= c && c <= '9') || c == '_' || c == '.'
}

/// The length of the run of key characters that starts `s`.
pub open spec fn key_run(s: Seq<char>) -> nat
    decreases s.len(),
{
    if s.len() > 0 && is_key_char(s[0]) {
        1 + key_run(s.drop_first())
    } else {
        0
    }
}

/// The key and value of a line `key=value` (the line trimmed first), or
/// `None` for a line of another shape.
pub open spec fn prop_entry(line: Seq<char>) -> Option<(Seq<char>, Seq<char>)> {
    let t = trim(line);
    let k = key_run(t) as int;
    if k > 0 && k < t.len() && t[k] == '=' {
        Some((t.take(k), t.skip(k + 1)))
    } else {
        None
    }
}

/// The fields after the lines, each known key set by its last line.
pub open spec fn prop_after(lines: Seq<Seq<char>>) -> PropView
    decreases lines.len(),
{
    if lines.len() == 0 {
        PropView { name: Seq::empty(), version: Seq::empty(), author: Seq::empty(), description: Seq::empty() }
    } else {
        let p = prop_after(lines.drop_last());
        match prop_entry(lines.last()) {
            Some((k, v)) => if k == "name"@ {
                PropView { name: v, ..p }
            } else if k == "version"@ {
                PropView { version: v, ..p }
            } else if k == "author"@ {
                PropView { author: v, ..p }
            } else if k == "description"@ {
                PropView { description: v, ..p }
            } else {
                p
            },
            None => p,
        }
    }
}

fn is_key_char_exec(c: char) -> (r: bool)
    ensures
        r == is_key_char(c),
{
    ('a' <= c && c <= 'z') || ('A' <= c && c <= 'Z') || ('0' <= c && c <= '9') || c == '_' || c == '.'
}

fn key_run_exec(t: &Vec<char>) -> (r: usize)
    ensures
        r as int == key_run(t@) as int,
{
    let mut i: usize = 0;
    assert(t@.skip(0) =~= t@);
    while i < t.len() && is_key_char_exec(t[i])
        invariant
            i <= t@.len(),
            key_run(t@) == i + key_run(t@.skip(i as int)),
        decreases t@.len() - i,
    {
        assert(t@.skip(i as int).drop_first() =~= t@.skip(i + 1));
        i = i + 1;
    }
    i
}

fn line_entry(line: &Vec<char>) -> (r: Option<(Vec<char>, Vec<char>)>)
    ensures
        match r {
            Some((k, v)) => prop_entry(line@) == Some((k@, v@)),
            None => prop_entry(line@) is None,
        },
{
    let t = trim_chars(line);
    let k = key_run_exec(&t);
    if k > 0 && k < t.len() && t[k] == '=' {
        let key = copy_range(&t, 0, k);
        let value = copy_range(&t, k + 1, t.len());
        assert(key@ =~= t@.take(k as int));
        assert(value@ =~= t@.skip(k + 1));
        Some((key, value))
    } else {
        None
    }
}

fn chars_eq(a: &Vec<char>, b: &str) -> (r: bool)
    ensures
        r == (a@ == b@),
{
    let s = string_from_chars(a);
    let t = String::from_str(b);
    s == t
}

/// Reads the fields of a `module.prop` text: one `key=value` per line;
/// other keys and other lines are ignored.
pub fn parse_module_prop(text: &str) -> (r: ModuleProp)
    ensures
        r@ == prop_after(split_on(text@, '\n')),
{
    let v = chars_of(text);
    let lines = split_on_chars(&v, '\n');
    let ghost lv = char_views(lines@);
    let mut prop = ModuleProp::default();
    let mut i: usize = 0;
    assert(lv.take(0) =~= Seq::<Seq<char>>::empty());
    assert(prop@ == prop_after(lv.take(0)));
    while i < lines.len()
        invariant
            i <= lines@.len(),
            lv == char_views(lines@),
            lv == split_on(text@, '\n'),
            prop@ == prop_after(lv.take(i as int)),
        decreases lines@.len() - i,
    {
        proof {
            assert(lv.take(i + 1).drop_last() =~= lv.take(i as int));
            assert(lv.take(i + 1).last() == lines@[i as int]@);
        }
        match line_entry(&lines[i]) {
            Some((k, val)) => {
                let value = string_from_chars(&val);
                if chars_eq(&k, "name") {
                    prop.name = value;
                } else if chars_eq(&k, "version") {
                    prop.version = value;
                } else if chars_eq(&k, "author") {
                    prop.author = value;
                } else if chars_eq(&k, "description") {
                    prop.description = value;
                }
            },
            None => {},
        }
        i = i + 1;
    }
    assert(lv.take(lines@.len() as int) =~= lv);
    prop
}

/// The strategy name listed for a module's default mode.
pub open spec fn mode_label(m: MountMode) -> Seq<char> {
    match m {
        MountMode::Overlay => "auto"@,
        MountMode::Magic => "magic"@,
        MountMode::Hymofs => "hymofs"@,
        MountMode::Kasumi => "kasumi"@,
        MountMode::Ignore => "ignore"@,
    }
}

pub fn module_mode_label(m: MountMode) -> (r: &'static str)
    ensures
        r@ == mode_label(m),
{
    match m {
        MountMode::Overlay => "auto",
        MountMode::Magic => "magic",
        MountMode::Hymofs => "hymofs",
        MountMode::Kasumi => "kasumi",
        MountMode::Ignore => "ignore",
    }
}

/// `modules` are the modules of the directory entries, sorted by id: the
/// module entries (see `entry_modules_fit`), reordered.
pub open spec fn scanned(cfg: Config, entries: Seq<ModuleDirEntry>, modules: Seq<Module>) -> bool {
    &&& exists|sel: Seq<Module>| entry_modules_fit(cfg, entries, sel) && modules.to_multiset() == sel.to_multiset()
    &&& forall|i: int, j: int| 0 <= i < j < modules.len() ==> !crate::strset::seq_lt(#[trigger] modules[j].id@, #[trigger] modules[i].id@)
}

/// The modules of the modules directory, sorted by id: the module entries
/// (see `select_modules`), reordered.
pub fn scan(entries: &Vec<ModuleDirEntry>, cfg: &Config) -> (r: Vec<Module>)
    requires
        rules_keys_distinct(*cfg),
    ensures
        scanned(*cfg, entries@, r@),
{
    let selected = select_modules(entries, cfg);
    let ghost sel = selected@;
    let r = sort_modules_by_id(selected);
    assert(entry_modules_fit(*cfg, entries@, sel) && r@.to_multiset() == sel.to_multiset());
    r
}

} // verus!
