//! Planning: which mode serves each directory of a module, and which module
//! directories are stacked as overlay layers over which targets.
use vstd::prelude::*;

use crate::domain::{ModuleRules, MountMode};
use crate::engine::executor::{extract_module_id, involved_ids, involved_modules_of, module_id_of_path};
use crate::engine::plan::{MountPlan, OverlayOperation};
use crate::paths::{
    key_lt, key_lt_exec, lemma_key_asymmetric, lemma_key_irreflexive, lemma_key_total,
    lemma_key_transitive, path_key, path_key_exec, path_parts, path_view,
};
use crate::strset::{
    contains_string, extend_sorted, insert_sorted, lemma_sorted_seq, sorted_seq, sorted_unique,
    string_views, strictly_sorted,
};
use crate::text::{char_views, chars_of, starts_with, starts_with_chars};

verus! {

/// The mode a path is planned with: the kernel redirection modes need the
/// redirection backend, and are dropped without it.
pub open spec fn effective_mode(requested: MountMode, use_kasumi: bool) -> MountMode {
    if (requested == MountMode::Kasumi || requested == MountMode::Hymofs) && !use_kasumi {
        MountMode::Ignore
    } else {
        requested
    }
}

/// With the redirection backend usable, every requested mode is planned as
/// asked; without it, no path is planned for redirection, and the other
/// modes are kept.
pub proof fn lemma_effective_mode(requested: MountMode)
    ensures
        effective_mode(requested, true) == requested,
        effective_mode(requested, false) != MountMode::Kasumi,
        effective_mode(requested, false) != MountMode::Hymofs,
        requested != MountMode::Kasumi && requested != MountMode::Hymofs ==> effective_mode(requested, false)
            == requested,
{
}

pub fn effective_mount_mode(requested: MountMode, use_kasumi: bool) -> (r: MountMode)
    ensures
        r == effective_mode(requested, use_kasumi),
{
    if (requested == MountMode::Kasumi || requested == MountMode::Hymofs) && !use_kasumi {
        MountMode::Ignore
    } else {
        requested
    }
}

/// Some rule names a path strictly below `rel`.
pub open spec fn has_descendant_rule(paths: Seq<(String, MountMode)>, rel: Seq<char>) -> bool {
    exists|i: int|
        0 <= i < paths.len() && starts_with(#[trigger] paths[i].0@, rel + seq!['/'])
}

/// Whether a rule names a path below `relative_path`.
pub fn path_has_descendant_rule(paths: &Vec<(String, MountMode)>, relative_path: &str) -> (r: bool)
    ensures
        r == has_descendant_rule(paths@, relative_path@),
{
    let mut prefix = chars_of(relative_path);
    prefix.push('/');
    let mut i: usize = 0;
    while i < paths.len()
        invariant
            i <= paths@.len(),
            prefix@ == relative_path@ + seq!['/'],
            forall|k: int| 0 <= k < i ==> !starts_with(#[trigger] paths@[k].0@, relative_path@ + seq!['/']),
        decreases paths@.len() - i,
    {
        let key = chars_of(paths[i].0.as_str());
        if starts_with_chars(&key, &prefix) {
            return true;
        }
        i = i + 1;
    }
    false
}

/// The last component of a path when it is a name (`Path::file_name`), or
/// the empty text.
pub open spec fn file_name_or_empty(p: Seq<char>) -> Seq<char> {
    let n = path_view(p).names;
    if n.len() > 0 && n.last() != seq!['.', '.'] {
        n.last()
    } else {
        Seq::empty()
    }
}

/// The file name of `p`, or an empty string.
pub fn file_name_text(p: &str) -> (r: String)
    ensures
        r@ == file_name_or_empty(p@),
{
    let parts = path_parts(p);
    let n = parts.names.len();
    assert(parts.view_of().names.len() == n);
    if n > 0 {
        let last = &parts.names[n - 1];
        assert(parts.view_of().names.last() == last@);
        let v = chars_of(last.as_str());
        if v.len() == 2 && v[0] == '.' && v[1] == '.' {
            assert(v@ =~= seq!['.', '.']);
            String::new()
        } else {
            assert(v@ != seq!['.', '.']);
            last.clone()
        }
    } else {
        String::new()
    }
}

/// `base` with the relative name `name` appended (`Path::join`).
pub open spec fn join_name(base: Seq<char>, name: Seq<char>) -> Seq<char> {
    if base.len() == 0 || base.last() == '/' {
        base + name
    } else {
        base + seq!['/'] + name
    }
}

pub fn join_path(base: &str, name: &str) -> (r: String)
    ensures
        r@ == join_name(base@, name@),
{
    let v = chars_of(base);
    let mut out = String::from_str(base);
    if v.len() > 0 && v[v.len() - 1] != '/' {
        crate::text::push_char(&mut out, '/');
    }
    out.append(name);
    out
}

/// A child directory name that can be joined safely: not empty, no
/// separator, not `.` or `..`.
pub open spec fn valid_child_name(name: Seq<char>) -> bool {
    &&& name.len() > 0
    &&& !name.contains('/')
    &&& name != seq!['.']
    &&& name != seq!['.', '.']
}

pub fn is_valid_child_name(name: &str) -> (r: bool)
    ensures
        r == valid_child_name(name@),
{
    let v = chars_of(name);
    if v.len() == 0 {
        return false;
    }
    let mut i: usize = 0;
    while i < v.len()
        invariant
            i <= v@.len(),
            v@ == name@,
            forall|k: int| 0 <= k < i ==> v@[k] != '/',
        decreases v@.len() - i,
    {
        if v[i] == '/' {
            assert(name@[i as int] == '/');
            assert(name@.contains('/'));
            assert(!valid_child_name(name@));
            return false;
        }
        i = i + 1;
    }
    if v.len() == 1 && v[0] == '.' {
        assert(v@ =~= seq!['.']);
        return false;
    }
    if v.len() == 2 && v[0] == '.' && v[1] == '.' {
        assert(v@ =~= seq!['.', '.']);
        return false;
    }
    true
}

/// One directory of a module still to be planned.
#[derive(Debug, Clone)]
pub struct ProcessingItem {
    pub module_source: String,
    pub system_target: String,
    pub relative_path: String,
    pub partition_label: String,
}

pub struct ItemView {
    pub module_source: Seq<char>,
    pub system_target: Seq<char>,
    pub relative_path: Seq<char>,
    pub partition_label: Seq<char>,
}

impl View for ProcessingItem {
    type V = ItemView;

    open spec fn view(&self) -> ItemView {
        ItemView {
            module_source: self.module_source@,
            system_target: self.system_target@,
            relative_path: self.relative_path@,
            partition_label: self.partition_label@,
        }
    }
}

/// What a module directory holds: its subdirectories (name and path), and
/// whether it holds anything else (files, links).
#[derive(Debug, Clone)]
pub struct DirListing {
    pub child_dirs: Vec<(String, String)>,
    pub has_non_dir_entries: bool,
}

/// Which backends a module needs besides overlays.
#[derive(Debug, Clone, Copy, PartialEq, Eq, Structural)]
pub struct BackendPresence {
    pub magic: bool,
    pub kasumi: bool,
}

impl BackendPresence {
    pub fn none() -> (r: Self)
        ensures
            !r.magic && !r.kasumi,
    {
        BackendPresence { magic: false, kasumi: false }
    }

    pub fn merge(&mut self, other: Self)
        ensures
            final(self).magic == (old(self).magic || other.magic),
            final(self).kasumi == (old(self).kasumi || other.kasumi),
    {
        self.magic = self.magic || other.magic;
        self.kasumi = self.kasumi || other.kasumi;
    }
}

/// The layers stacked over one overlay target.
#[derive(Debug, Clone)]
pub struct OverlayGroup {
    pub target: String,
    pub key: Vec<Vec<char>>,
    pub partition: String,
    pub layers: Vec<String>,
}

pub struct GroupView {
    pub target: Seq<char>,
    pub key: Seq<Seq<char>>,
    pub partition: Seq<char>,
    pub layers: Seq<Seq<char>>,
}

impl View for OverlayGroup {
    type V = GroupView;

    open spec fn view(&self) -> GroupView {
        GroupView {
            target: self.target@,
            key: char_views(self.key@),
            partition: self.partition@,
            layers: string_views(self.layers@),
        }
    }
}

pub open spec fn group_views(g: Seq<OverlayGroup>) -> Seq<GroupView> {
    g.map_values(|x: OverlayGroup| x@)
}

/// Groups sorted by target as `Path` orders, each target once, each key
/// that of its target.
pub open spec fn groups_sorted(g: Seq<GroupView>) -> bool {
    &&& forall|i: int, j: int| 0 <= i < j < g.len() ==> key_lt(#[trigger] g[i].key, #[trigger] g[j].key)
    &&& forall|i: int| 0 <= i < g.len() ==> (#[trigger] g[i]).key == path_key(g[i].target)
}

/// Where a new key goes in sorted groups.
pub open spec fn insert_pos(g: Seq<GroupView>, key: Seq<Seq<char>>, p: int) -> bool {
    &&& 0 <= p <= g.len()
    &&& forall|j: int| 0 <= j < p ==> key_lt(#[trigger] g[j].key, key)
    &&& forall|j: int| p <= j < g.len() ==> key_lt(key, #[trigger] g[j].key)
}

/// The groups after `source` is queued over `target` (the map entry of the
/// target gets the layer; a new target starts a group with `label`).
pub open spec fn queued(g: Seq<GroupView>, target: Seq<char>, label: Seq<char>, source: Seq<char>) -> Seq<GroupView> {
    let key = path_key(target);
    if exists|i: int| 0 <= i < g.len() && (#[trigger] g[i]).key == key {
        let i = choose|i: int| 0 <= i < g.len() && (#[trigger] g[i]).key == key;
        g.update(i, GroupView { layers: g[i].layers.push(source), ..g[i] })
    } else {
        let p = choose|p: int| insert_pos(g, key, p);
        g.insert(p, GroupView { target, key, partition: label, layers: seq![source] })
    }
}

proof fn lemma_insert_pos_unique(g: Seq<GroupView>, key: Seq<Seq<char>>, p: int, q: int)
    requires
        insert_pos(g, key, p),
        insert_pos(g, key, q),
    ensures
        p == q,
{
    if p < q {
        assert(key_lt(key, g[p].key));
        assert(key_lt(g[p].key, key));
        lemma_key_asymmetric(key, g[p].key);
    } else if q < p {
        assert(key_lt(key, g[q].key));
        assert(key_lt(g[q].key, key));
        lemma_key_asymmetric(key, g[q].key);
    }
}

/// What the planner has gathered so far.
pub struct PlannerContext {
    pub use_kasumi: bool,
    pub overlay_fallback_enabled: bool,
    pub managed_partitions: Vec<String>,
    pub overlay_groups: Vec<OverlayGroup>,
}

impl PlannerContext {
    pub open spec fn well_formed(&self) -> bool {
        groups_sorted(group_views(self.overlay_groups@))
    }

    pub open spec fn groups(&self) -> Seq<GroupView> {
        group_views(self.overlay_groups@)
    }

    /// A planner with no overlay queued.
    pub fn new(
        enable_overlay_fallback: bool,
        use_kasumi: bool,
        managed_partitions: Vec<String>,
    ) -> (r: Self)
        ensures
            r.well_formed(),
            r.groups().len() == 0,
            r.use_kasumi == use_kasumi,
            r.overlay_fallback_enabled == enable_overlay_fallback,
            r.managed_partitions@ == managed_partitions@,
    {
        let r = PlannerContext {
            use_kasumi,
            overlay_fallback_enabled: enable_overlay_fallback,
            managed_partitions,
            overlay_groups: Vec::new(),
        };
        assert(r.groups() =~= Seq::<GroupView>::empty());
        r
    }

    /// Adds `module_source` as a layer over `resolved_target`.
    pub fn queue_overlay(&mut self, resolved_target: String, partition_label: &str, module_source: String)
        requires
            old(self).well_formed(),
        ensures
            final(self).well_formed(),
            final(self).groups() == queued(
                old(self).groups(),
                resolved_target@,
                partition_label@,
                module_source@,
            ),
            final(self).use_kasumi == old(self).use_kasumi,
            final(self).overlay_fallback_enabled == old(self).overlay_fallback_enabled,
            final(self).managed_partitions@ == old(self).managed_partitions@,
    {
        let ghost g = self.groups();
        let key = path_key_exec(resolved_target.as_str());
        let ghost kv = char_views(key@);
        let mut i: usize = 0;
        while i < self.overlay_groups.len() && key_lt_exec(&self.overlay_groups[i].key, &key)
            invariant
                i <= self.overlay_groups@.len(),
                g == group_views(self.overlay_groups@),
                kv == char_views(key@),
                forall|j: int| 0 <= j < i ==> key_lt(#[trigger] g[j].key, kv),
            decreases self.overlay_groups@.len() - i,
        {
            assert(g[i as int].key == char_views(self.overlay_groups@[i as int].key@));
            i = i + 1;
        }
        if i < self.overlay_groups.len() && !key_lt_exec(&key, &self.overlay_groups[i].key) {
            let ghost gi = g[i as int];
            assert(gi.key == char_views(self.overlay_groups@[i as int].key@));
            proof {
                lemma_key_total(gi.key, kv);
            }
            assert(gi.key == kv);
            let mut grp = self.overlay_groups.remove(i);
            grp.layers.push(module_source);
            self.overlay_groups.insert(i, grp);
            proof {
                assert(exists|k: int| 0 <= k < g.len() && (#[trigger] g[k]).key == kv);
                let c = choose|k: int| 0 <= k < g.len() && (#[trigger] g[k]).key == kv;
                if c < i {
                    lemma_key_asymmetric(g[c].key, kv);
                    lemma_key_irreflexive(kv);
                } else if c > i {
                    assert(key_lt(g[i as int].key, g[c].key));
                    lemma_key_irreflexive(kv);
                }
                assert(c == i);
                assert(string_views(grp.layers@) =~= gi.layers.push(module_source@));
                assert(self.groups() =~= g.update(i as int, GroupView { layers: gi.layers.push(module_source@), ..gi }));
            }
        } else {
            proof {
                if i < g.len() {
                    assert(g[i as int].key == char_views(self.overlay_groups@[i as int].key@));
                    lemma_key_total(g[i as int].key, kv);
                    lemma_key_asymmetric(g[i as int].key, kv);
                    assert(key_lt(kv, g[i as int].key));
                }
                assert forall|j: int| i <= j < g.len() implies key_lt(kv, #[trigger] g[j].key) by {
                    if j > i {
                        lemma_key_transitive(kv, g[i as int].key, g[j].key);
                    }
                }
                assert(insert_pos(g, kv, i as int));
                assert(!exists|k: int| 0 <= k < g.len() && (#[trigger] g[k]).key == kv) by {
                    if exists|k: int| 0 <= k < g.len() && (#[trigger] g[k]).key == kv {
                        let k = choose|k: int| 0 <= k < g.len() && (#[trigger] g[k]).key == kv;
                        if k < i {
                            lemma_key_irreflexive(kv);
                        } else {
                            lemma_key_irreflexive(kv);
                        }
                    }
                }
                let p = choose|p: int| insert_pos(g, kv, p);
                lemma_insert_pos_unique(g, kv, p, i as int);
            }
            let mut layers: Vec<String> = Vec::new();
            layers.push(module_source);
            let grp = OverlayGroup {
                target: resolved_target,
                key,
                partition: String::from_str(partition_label),
                layers,
            };
            self.overlay_groups.insert(i, grp);
            proof {
                assert(string_views(grp.layers@) =~= seq![module_source@]);
                assert(self.groups() =~= g.insert(i as int, grp@));
                let ng = self.groups();
                assert forall|a: int, b: int| 0 <= a < b < ng.len() implies key_lt(
                    #[trigger] ng[a].key,
                    #[trigger] ng[b].key,
                ) by {
                    if a < i && b == i {
                    } else if a == i {
                    } else if a < i && b > i {
                        lemma_key_transitive(ng[a].key, kv, ng[b].key);
                    } else if a < i {
                    } else {
                        assert(ng[a] == g[a - 1] && ng[b] == g[b - 1]);
                    }
                }
            }
        }
    }

    /// A target whose name is `system` or a managed partition is never
    /// overlaid whole: the planner descends into it.
    pub fn should_split_overlay_target(&self, resolved_target: &str) -> (r: bool)
        ensures
            r == (file_name_or_empty(resolved_target@) == "system"@ || string_views(
                self.managed_partitions@,
            ).contains(file_name_or_empty(resolved_target@))),
    {
        let name = file_name_text(resolved_target);
        let sys = String::from_str("system");
        let is_system = name == sys;
        proof {
            if string_views(self.managed_partitions@).contains(name@) {
                let k = choose|k: int| 0 <= k < string_views(self.managed_partitions@).len() && string_views(self.managed_partitions@)[k] == name@;
                assert(string_views(self.managed_partitions@).to_set().contains(name@));
            }
            if string_views(self.managed_partitions@).to_set().contains(name@) {
                assert(string_views(self.managed_partitions@).contains(name@));
            }
        }
        is_system || contains_string(&self.managed_partitions, &name)
    }

    /// The groups gathered, in target order.
    pub fn into_overlay_groups(self) -> (r: Vec<OverlayGroup>)
        ensures
            group_views(r@) == self.groups(),
    {
        self.overlay_groups
    }
}

/// The subdirectories of a listing as text: (name, path).
pub open spec fn listing_children(l: DirListing) -> Seq<(Seq<char>, Seq<char>)> {
    l.child_dirs@.map_values(|e: (String, String)| (e.0@, e.1@))
}

/// The items queued for the subdirectories with valid names, in listing
/// order.
pub open spec fn child_items(
    children: Seq<(Seq<char>, Seq<char>)>,
    base: Seq<char>,
    rel: Seq<char>,
    label: Seq<char>,
) -> Seq<ItemView>
    decreases children.len(),
{
    if children.len() == 0 {
        Seq::empty()
    } else {
        let prev = child_items(children.drop_last(), base, rel, label);
        let c = children.last();
        if valid_child_name(c.0) {
            prev.push(
                ItemView {
                    module_source: c.1,
                    system_target: join_name(base, c.0),
                    relative_path: join_name(rel, c.0),
                    partition_label: label,
                },
            )
        } else {
            prev
        }
    }
}

/// Which backends one directory needs, planned with `mode`.
pub open spec fn node_presence(
    mode: MountMode,
    direct: bool,
    has_children: bool,
    has_desc: bool,
    fallback: bool,
) -> BackendPresence {
    BackendPresence {
        magic: (mode == MountMode::Magic && (direct || has_children)) || (mode == MountMode::Overlay
            && direct && has_desc && fallback),
        kasumi: (mode == MountMode::Kasumi || mode == MountMode::Hymofs) && (direct || has_children),
    }
}

/// Whether the target of a directory is split (descended into) rather than
/// overlaid whole.
pub open spec fn splits(managed: Seq<Seq<char>>, resolved: Seq<char>) -> bool {
    file_name_or_empty(resolved) == "system"@ || managed.contains(file_name_or_empty(resolved))
}

/// One directory of the walk: what it needs, the groups after it, and the
/// subdirectories to walk next. `listing` is `None` when the directory could
/// not be read; `resolved` is where the target leads when it exists.
pub open spec fn visit_spec(
    ctx: PlannerContext,
    rules: ModuleRules,
    item: ItemView,
    listing: Option<DirListing>,
    target_exists: bool,
    resolved: Seq<char>,
) -> (BackendPresence, Seq<GroupView>, Seq<ItemView>) {
    match listing {
        None => (BackendPresence { magic: false, kasumi: false }, ctx.groups(), Seq::empty()),
        Some(l) => {
            let mode = effective_mode(rules.mode_for(item.relative_path), ctx.use_kasumi);
            let has_desc = has_descendant_rule(rules.paths@, item.relative_path);
            let presence = node_presence(
                mode,
                l.has_non_dir_entries,
                l.child_dirs@.len() > 0,
                has_desc,
                ctx.overlay_fallback_enabled,
            );
            let managed = string_views(ctx.managed_partitions@);
            if !has_desc && mode != MountMode::Overlay {
                (presence, ctx.groups(), Seq::empty())
            } else if !has_desc && !target_exists {
                (presence, ctx.groups(), Seq::empty())
            } else if !has_desc && !splits(managed, resolved) {
                (
                    presence,
                    queued(ctx.groups(), resolved, item.partition_label, item.module_source),
                    Seq::empty(),
                )
            } else {
                let base = if target_exists {
                    resolved
                } else {
                    item.system_target
                };
                let name = file_name_or_empty(base);
                let label = if name.len() == 0 {
                    item.partition_label
                } else {
                    name
                };
                (
                    presence,
                    ctx.groups(),
                    child_items(listing_children(l), base, item.relative_path, label),
                )
            }
        },
    }
}

pub open spec fn item_views(v: Seq<ProcessingItem>) -> Seq<ItemView> {
    v.map_values(|x: ProcessingItem| x@)
}

fn children_of(listing: &DirListing, base: &str, rel: &str, label: &str) -> (r: Vec<ProcessingItem>)
    ensures
        item_views(r@) == child_items(listing_children(*listing), base@, rel@, label@),
{
    let ghost cv = listing_children(*listing);
    let mut out: Vec<ProcessingItem> = Vec::new();
    let mut i: usize = 0;
    while i < listing.child_dirs.len()
        invariant
            i <= listing.child_dirs@.len(),
            cv == listing_children(*listing),
            item_views(out@) == child_items(cv.take(i as int), base@, rel@, label@),
        decreases listing.child_dirs@.len() - i,
    {
        let name = &listing.child_dirs[i].0;
        let path = &listing.child_dirs[i].1;
        proof {
            assert(cv.take(i + 1).drop_last() =~= cv.take(i as int));
            assert(cv.take(i + 1).last() == (name@, path@));
        }
        if is_valid_child_name(name.as_str()) {
            let it = ProcessingItem {
                module_source: path.clone(),
                system_target: join_path(base, name.as_str()),
                relative_path: join_path(rel, name.as_str()),
                partition_label: String::from_str(label),
            };
            let ghost before = item_views(out@);
            out.push(it);
            assert(item_views(out@) =~= before.push(it@));
        }
        i = i + 1;
    }
    assert(cv.take(cv.len() as int) =~= cv);
    out
}

impl PlannerContext {
    /// Plans one directory of a module's walk (see `visit_spec`) and returns
    /// what it needs and the subdirectories to walk next.
    pub fn visit_directory(
        &mut self,
        rules: &ModuleRules,
        item: ProcessingItem,
        listing: Option<DirListing>,
        target_exists: bool,
        resolved_target: String,
    ) -> (r: (BackendPresence, Vec<ProcessingItem>))
        requires
            old(self).well_formed(),
            rules.well_formed(),
        ensures
            final(self).well_formed(),
            (r.0, final(self).groups(), item_views(r.1@)) == visit_spec(
                *old(self),
                *rules,
                item@,
                listing,
                target_exists,
                resolved_target@,
            ),
            final(self).use_kasumi == old(self).use_kasumi,
            final(self).overlay_fallback_enabled == old(self).overlay_fallback_enabled,
            final(self).managed_partitions@ == old(self).managed_partitions@,
    {
        let ghost ctx = *self;
        let ghost iv = item@;
        let l = match listing {
            None => {
                let e: Vec<ProcessingItem> = Vec::new();
                assert(item_views(e@) =~= Seq::<ItemView>::empty());
                return (BackendPresence::none(), e);
            },
            Some(l) => l,
        };
        let requested = rules.get_mode(item.relative_path.as_str());
        proof {
            crate::domain::lemma_mode_for(*rules, item.relative_path@, requested);
        }
        let mode = effective_mount_mode(requested, self.use_kasumi);
        let has_desc = path_has_descendant_rule(&rules.paths, item.relative_path.as_str());
        let direct = l.has_non_dir_entries;
        let has_children = l.child_dirs.len() > 0;
        let presence = BackendPresence {
            magic: (mode == MountMode::Magic && (direct || has_children)) || (mode
                == MountMode::Overlay && direct && has_desc && self.overlay_fallback_enabled),
            kasumi: (mode == MountMode::Kasumi || mode == MountMode::Hymofs) && (direct
                || has_children),
        };
        let empty: Vec<ProcessingItem> = Vec::new();
        assert(item_views(empty@) =~= Seq::<ItemView>::empty());
        if !has_desc {
            if mode != MountMode::Overlay {
                return (presence, empty);
            }
            if !target_exists {
                return (presence, empty);
            }
            if !self.should_split_overlay_target(resolved_target.as_str()) {
                self.queue_overlay(
                    resolved_target,
                    item.partition_label.as_str(),
                    item.module_source,
                );
                return (presence, empty);
            }
        }
        let base = if target_exists {
            resolved_target
        } else {
            item.system_target
        };
        let name = file_name_text(base.as_str());
        let label = if name.as_str().is_empty() {
            item.partition_label
        } else {
            name
        };
        let children = children_of(
            &l,
            base.as_str(),
            item.relative_path.as_str(),
            label.as_str(),
        );
        (presence, children)
    }
}

/// The walk of one module's directories, breadth first: the directories
/// still to visit, front first, and what the visited ones needed.
#[derive(Debug)]
pub struct ModuleWalk {
    pub pending: Vec<ProcessingItem>,
    pub presence: BackendPresence,
}

impl ModuleWalk {
    /// A walk that starts at `roots`, in order.
    pub fn new(roots: Vec<ProcessingItem>) -> (r: Self)
        ensures
            r.pending@ == roots@,
            !r.presence.magic && !r.presence.kasumi,
    {
        ModuleWalk { pending: roots, presence: BackendPresence::none() }
    }

    /// The directory to visit next, if any is left.
    pub fn next_item(&self) -> (r: Option<&ProcessingItem>)
        ensures
            self.pending@.len() == 0 ==> r is None,
            self.pending@.len() > 0 ==> (r matches Some(it) && *it == self.pending@[0]),
    {
        if self.pending.len() == 0 {
            None
        } else {
            Some(&self.pending[0])
        }
    }

    /// Visits the next directory (see `visit_spec`): what it needs joins the
    /// walk's, and its subdirectories join the end of the queue.
    pub fn visit(
        &mut self,
        ctx: &mut PlannerContext,
        rules: &ModuleRules,
        listing: Option<DirListing>,
        target_exists: bool,
        resolved_target: String,
    )
        requires
            old(self).pending@.len() > 0,
            old(ctx).well_formed(),
            rules.well_formed(),
        ensures
            ({
                let (p, g, kids) = visit_spec(
                    *old(ctx),
                    *rules,
                    old(self).pending@[0]@,
                    listing,
                    target_exists,
                    resolved_target@,
                );
                &&& final(ctx).groups() == g
                &&& item_views(final(self).pending@) == item_views(old(self).pending@).drop_first() + kids
                &&& final(self).presence.magic == (old(self).presence.magic || p.magic)
                &&& final(self).presence.kasumi == (old(self).presence.kasumi || p.kasumi)
            }),
            final(ctx).well_formed(),
            final(ctx).use_kasumi == old(ctx).use_kasumi,
            final(ctx).overlay_fallback_enabled == old(ctx).overlay_fallback_enabled,
            final(ctx).managed_partitions@ == old(ctx).managed_partitions@,
    {
        let ghost before = item_views(self.pending@);
        let item = self.pending.remove(0);
        assert(item_views(self.pending@) =~= before.drop_first());
        let (p, children) = ctx.visit_directory(rules, item, listing, target_exists, resolved_target);
        self.presence.merge(p);
        let ghost mid = self.pending@;
        let mut children = children;
        let ghost kids = children@;
        self.pending.append(&mut children);
        assert(item_views(self.pending@) =~= item_views(mid) + item_views(kids));
    }
}

/// An entry of a module's content directory.
#[derive(Debug, Clone)]
pub struct RootEntry {
    pub name: String,
    pub path: String,
    pub is_dir: bool,
    pub is_symlink: bool,
}

/// The walks a module starts: one per real directory named after a managed
/// partition, in listing order.
pub open spec fn root_items(entries: Seq<RootEntry>, system_root: Seq<char>, managed: Seq<Seq<char>>) -> Seq<ItemView>
    decreases entries.len(),
{
    if entries.len() == 0 {
        Seq::empty()
    } else {
        let prev = root_items(entries.drop_last(), system_root, managed);
        let e = entries.last();
        if e.is_dir && !e.is_symlink && managed.contains(e.name@) {
            prev.push(
                ItemView {
                    module_source: e.path@,
                    system_target: join_name(system_root, e.name@),
                    relative_path: e.name@,
                    partition_label: e.name@,
                },
            )
        } else {
            prev
        }
    }
}

/// The first directory of each walk of a module (see `root_items`).
pub fn plan_module_roots(entries: &Vec<RootEntry>, system_root: &str, managed_partitions: &Vec<String>) -> (r: Vec<ProcessingItem>)
    ensures
        item_views(r@) == root_items(entries@, system_root@, string_views(managed_partitions@)),
{
    let ghost mv = string_views(managed_partitions@);
    let mut out: Vec<ProcessingItem> = Vec::new();
    let mut i: usize = 0;
    while i < entries.len()
        invariant
            i <= entries@.len(),
            mv == string_views(managed_partitions@),
            item_views(out@) == root_items(entries@.take(i as int), system_root@, mv),
        decreases entries@.len() - i,
    {
        let e = &entries[i];
        proof {
            assert(entries@.take(i + 1).drop_last() =~= entries@.take(i as int));
            assert(entries@.take(i + 1).last() == *e);
            if mv.contains(e.name@) {
                assert(mv.to_set().contains(e.name@));
            }
            if mv.to_set().contains(e.name@) {
                assert(mv.contains(e.name@));
            }
        }
        if e.is_dir && !e.is_symlink && contains_string(managed_partitions, &e.name) {
            let it = ProcessingItem {
                module_source: e.path.clone(),
                system_target: join_path(system_root, e.name.as_str()),
                relative_path: e.name.clone(),
                partition_label: e.name.clone(),
            };
            let ghost before = item_views(out@);
            out.push(it);
            assert(item_views(out@) =~= before.push(it@));
        }
        i = i + 1;
    }
    assert(entries@.take(entries@.len() as int) =~= entries@);
    out
}

/// The last place at which `id` stands in `ids`, or -1.
pub open spec fn last_index(ids: Seq<Seq<char>>, id: Seq<char>) -> int
    decreases ids.len(),
{
    if ids.len() == 0 {
        -1
    } else if ids.last() == id {
        ids.len() - 1
    } else {
        last_index(ids.drop_last(), id)
    }
}

/// Where a layer's module stands in the module order (the last place of
/// its id, where an id is listed twice); layers of unknown modules go last.
pub open spec fn layer_rank(ids: Seq<Seq<char>>, layer: Seq<char>) -> int {
    match module_id_of_path(layer) {
        Some(id) => if id.len() > 0 && last_index(ids, id) >= 0 {
            last_index(ids, id)
        } else {
            usize::MAX as int
        },
        None => usize::MAX as int,
    }
}

/// Layers sort by module order, then by path.
pub open spec fn layer_lt(ids: Seq<Seq<char>>, a: Seq<char>, b: Seq<char>) -> bool {
    layer_rank(ids, a) < layer_rank(ids, b) || (layer_rank(ids, a) == layer_rank(ids, b) && key_lt(
        path_key(a),
        path_key(b),
    ))
}

/// No layer sorts before an earlier one.
pub open spec fn layers_sorted(ids: Seq<Seq<char>>, s: Seq<Seq<char>>) -> bool {
    forall|i: int, j: int| 0 <= i < j < s.len() ==> !layer_lt(ids, #[trigger] s[j], #[trigger] s[i])
}

proof fn lemma_layer_lt_irreflexive(ids: Seq<Seq<char>>, a: Seq<char>)
    ensures
        !layer_lt(ids, a, a),
{
    lemma_key_irreflexive(path_key(a));
}

proof fn lemma_layer_lt_transitive(ids: Seq<Seq<char>>, a: Seq<char>, b: Seq<char>, c: Seq<char>)
    requires
        layer_lt(ids, a, b),
        layer_lt(ids, b, c),
    ensures
        layer_lt(ids, a, c),
{
    if layer_rank(ids, a) == layer_rank(ids, b) && layer_rank(ids, b) == layer_rank(ids, c) {
        lemma_key_transitive(path_key(a), path_key(b), path_key(c));
    }
}

fn layer_rank_exec(module_ids: &Vec<String>, layer: &str) -> (r: usize)
    ensures
        r as int == layer_rank(string_views(module_ids@), layer@),
{
    let ghost ids = string_views(module_ids@);
    match extract_module_id(layer) {
        None => usize::MAX,
        Some(id) => {
            if id.as_str().is_empty() {
                return usize::MAX;
            }
            assert(id@.len() > 0);
            assert(module_id_of_path(layer@) == Some(id@));
            let mut k: usize = module_ids.len();
            assert(ids.take(ids.len() as int) =~= ids);
            while k > 0
                invariant
                    k <= module_ids@.len(),
                    ids == string_views(module_ids@),
                    id@.len() > 0,
                    module_id_of_path(layer@) == Some(id@),
                    last_index(ids, id@) == last_index(ids.take(k as int), id@),
                decreases k,
            {
                assert(ids.take(k as int).drop_last() =~= ids.take(k - 1));
                assert(ids.take(k as int).last() == module_ids@[k - 1]@);
                if module_ids[k - 1] == id {
                    return k - 1;
                }
                k = k - 1;
            }
            assert(ids.take(0) =~= Seq::<Seq<char>>::empty());
            usize::MAX
        },
    }
}

/// The layers ordered by module order, then path, each kept.
pub fn sort_layers(layers: &Vec<String>, module_ids: &Vec<String>) -> (r: Vec<String>)
    ensures
        layers_sorted(string_views(module_ids@), string_views(r@)),
        string_views(r@).to_multiset() == string_views(layers@).to_multiset(),
{
    broadcast use vstd::seq_lib::to_multiset_insert;
    let ghost ids = string_views(module_ids@);
    let ghost lv = string_views(layers@);
    let mut out: Vec<String> = Vec::new();
    let mut ranks: Vec<usize> = Vec::new();
    let mut keys: Vec<Vec<Vec<char>>> = Vec::new();
    let mut i: usize = 0;
    assert(lv.take(0) =~= Seq::<Seq<char>>::empty());
    assert(string_views(out@) =~= Seq::<Seq<char>>::empty());
    while i < layers.len()
        invariant
            i <= layers@.len(),
            ids == string_views(module_ids@),
            lv == string_views(layers@),
            out@.len() == ranks@.len(),
            out@.len() == keys@.len(),
            forall|k: int| 0 <= k < out@.len() ==> #[trigger] ranks@[k] as int == layer_rank(ids, out@[k]@),
            forall|k: int| 0 <= k < out@.len() ==> char_views(#[trigger] keys@[k]@) == path_key(out@[k]@),
            layers_sorted(ids, string_views(out@)),
            string_views(out@).to_multiset() == lv.take(i as int).to_multiset(),
        decreases layers@.len() - i,
    {
        let x = &layers[i];
        let xr = layer_rank_exec(module_ids, x.as_str());
        let xk = path_key_exec(x.as_str());
        let ghost ov = string_views(out@);
        let mut p: usize = 0;
        while p < out.len() && !(xr < ranks[p] || (xr == ranks[p] && key_lt_exec(&xk, &keys[p])))
            invariant
                p <= out@.len(),
                out@.len() == ranks@.len(),
                out@.len() == keys@.len(),
                ov == string_views(out@),
                forall|k: int| 0 <= k < out@.len() ==> #[trigger] ranks@[k] as int == layer_rank(ids, out@[k]@),
                forall|k: int| 0 <= k < out@.len() ==> char_views(#[trigger] keys@[k]@) == path_key(out@[k]@),
                xr as int == layer_rank(ids, x@),
                char_views(xk@) == path_key(x@),
                forall|k: int| 0 <= k < p ==> !layer_lt(ids, x@, #[trigger] ov[k]),
            decreases out@.len() - p,
        {
            assert(ov[p as int] == out@[p as int]@);
            p = p + 1;
        }
        proof {
            if p < out@.len() {
                assert(ov[p as int] == out@[p as int]@);
                assert(layer_lt(ids, x@, ov[p as int]));
            }
        }
        let ghost old_ranks = ranks@;
        let ghost old_keys = keys@;
        let ghost old_out = out@;
        out.insert(p, x.clone());
        ranks.insert(p, xr);
        keys.insert(p, xk);
        proof {
            let nv = string_views(out@);
            assert(nv =~= ov.insert(p as int, x@));
            let big = p < ov.len();
            if big {
                assert(layer_lt(ids, x@, ov[p as int]));
            }
            assert forall|a: int, b: int| 0 <= a < b < nv.len() implies !layer_lt(ids, #[trigger] nv[b], #[trigger] nv[a]) by {
                if b < p {
                    assert(nv[a] == ov[a] && nv[b] == ov[b]);
                } else if b == p {
                    assert(nv[a] == ov[a] && nv[b] == x@);
                } else if a < p {
                    assert(nv[a] == ov[a] && nv[b] == ov[b - 1]);
                } else if a == p {
                    assert(nv[a] == x@ && nv[b] == ov[b - 1]);
                    assert(big);
                    if layer_lt(ids, ov[b - 1], x@) {
                        lemma_layer_lt_transitive(ids, ov[b - 1], x@, ov[p as int]);
                        if b - 1 == p {
                            lemma_layer_lt_irreflexive(ids, ov[p as int]);
                        } else {
                            assert(!layer_lt(ids, ov[b - 1], ov[p as int]));
                        }
                    }
                } else {
                    assert(nv[a] == ov[a - 1] && nv[b] == ov[b - 1]);
                }
            }
            assert(lv[i as int] == x@);
            assert(lv.take(i + 1) =~= lv.take(i as int).push(lv[i as int]));
            vstd::seq_lib::to_multiset_build(lv.take(i as int), lv[i as int]);
            vstd::seq_lib::to_multiset_insert(ov, p as int, x@);
            assert forall|k: int| 0 <= k < out@.len() implies #[trigger] ranks@[k] as int == layer_rank(ids, out@[k]@) by {
                if k > p {
                    assert(ranks@[k] == old_ranks[k - 1] && out@[k] == old_out[k - 1]);
                } else if k < p {
                    assert(ranks@[k] == old_ranks[k] && out@[k] == old_out[k]);
                }
            }
            assert forall|k: int| 0 <= k < out@.len() implies char_views(#[trigger] keys@[k]@) == path_key(out@[k]@) by {
                if k > p {
                    assert(keys@[k] == old_keys[k - 1] && out@[k] == old_out[k - 1]);
                } else if k < p {
                    assert(keys@[k] == old_keys[k] && out@[k] == old_out[k]);
                }
            }
        }
        i = i + 1;
    }
    assert(lv.take(layers@.len() as int) =~= lv);
    out
}

/// The groups whose target is a directory, in order.
pub open spec fn kept_groups(groups: Seq<GroupView>, is_dir: Seq<bool>) -> Seq<GroupView>
    decreases groups.len(),
{
    if groups.len() == 0 || is_dir.len() == 0 {
        Seq::empty()
    } else {
        let prev = kept_groups(groups.drop_last(), is_dir.drop_last());
        if is_dir.last() {
            prev.push(groups.last())
        } else {
            prev
        }
    }
}

proof fn lemma_kept_from(g: Seq<GroupView>, d: Seq<bool>)
    requires
        g.len() == d.len(),
    ensures
        forall|k: int| 0 <= k < kept_groups(g, d).len() ==> exists|m: int| 0 <= m < g.len() && #[trigger] kept_groups(g, d)[k] == g[m],
    decreases g.len(),
{
    if g.len() > 0 {
        lemma_kept_from(g.drop_last(), d.drop_last());
        let prev = kept_groups(g.drop_last(), d.drop_last());
        assert forall|k: int| 0 <= k < kept_groups(g, d).len() implies exists|m: int| 0 <= m < g.len() && #[trigger] kept_groups(g, d)[k] == g[m] by {
            if k < prev.len() {
                let m = choose|m: int| 0 <= m < g.drop_last().len() && #[trigger] prev[k] == g.drop_last()[m];
                assert(kept_groups(g, d)[k] == g[m]);
            } else {
                assert(kept_groups(g, d)[k] == g[g.len() - 1]);
            }
        }
    }
}

/// The groups a plan keeps are in target order when all of them are.
proof fn lemma_kept_sorted(g: Seq<GroupView>, d: Seq<bool>)
    requires
        g.len() == d.len(),
        groups_sorted(g),
    ensures
        groups_sorted(kept_groups(g, d)),
    decreases g.len(),
{
    if g.len() > 0 {
        let h = g.drop_last();
        assert(groups_sorted(h)) by {
            assert forall|i: int, j: int| 0 <= i < j < h.len() implies key_lt(#[trigger] h[i].key, #[trigger] h[j].key) by {
                assert(h[i] == g[i] && h[j] == g[j]);
            }
        }
        lemma_kept_sorted(h, d.drop_last());
        lemma_kept_from(h, d.drop_last());
        let prev = kept_groups(h, d.drop_last());
        let cur = kept_groups(g, d);
        if d.last() {
            assert forall|i: int, j: int| 0 <= i < j < cur.len() implies key_lt(#[trigger] cur[i].key, #[trigger] cur[j].key) by {
                if j < prev.len() {
                    assert(cur[i] == prev[i] && cur[j] == prev[j]);
                } else {
                    let m = choose|m: int| 0 <= m < h.len() && #[trigger] prev[i] == h[m];
                    assert(cur[i] == g[m]);
                    assert(cur[j] == g[g.len() - 1]);
                }
            }
            assert forall|i: int| 0 <= i < cur.len() implies (#[trigger] cur[i]).key == path_key(cur[i].target) by {
                if i < prev.len() {
                    assert(cur[i] == prev[i]);
                }
            }
        }
    }
}

/// Whether the groups are in target order, each target once, each key that
/// of its target (`groups_sorted`).
pub fn groups_in_target_order(groups: &Vec<OverlayGroup>) -> (r: bool)
    ensures
        r == groups_sorted(group_views(groups@)),
{
    let ghost g = group_views(groups@);
    let mut i: usize = 0;
    while i < groups.len()
        invariant
            i <= groups@.len(),
            g == group_views(groups@),
            forall|a: int, b: int| 0 <= a < b < i ==> key_lt(#[trigger] g[a].key, #[trigger] g[b].key),
            forall|a: int| 0 <= a < i ==> (#[trigger] g[a]).key == path_key(g[a].target),
        decreases groups@.len() - i,
    {
        let k = path_key_exec(groups[i].target.as_str());
        assert(g[i as int] == groups@[i as int]@);
        let same = !key_lt_exec(&k, &groups[i].key) && !key_lt_exec(&groups[i].key, &k);
        proof {
            lemma_key_total(char_views(k@), g[i as int].key);
        }
        if !same {
            proof {
                lemma_key_irreflexive(char_views(k@));
            }
            assert(g[i as int].key != path_key(g[i as int].target));
            return false;
        }
        if i > 0 && !key_lt_exec(&groups[i - 1].key, &groups[i].key) {
            assert(g[i - 1] == groups@[i - 1]@);
            assert(!key_lt(g[i - 1].key, g[i as int].key));
            return false;
        }
        proof {
            if i > 0 {
                assert(g[i - 1] == groups@[i - 1]@);
                assert forall|a: int| 0 <= a < i implies key_lt(#[trigger] g[a].key, g[i as int].key) by {
                    if a < i - 1 {
                        lemma_key_transitive(g[a].key, g[i - 1].key, g[i as int].key);
                    }
                }
            }
        }
        i = i + 1;
    }
    true
}

/// The modules with a layer in any of the groups.
pub open spec fn groups_module_ids(groups: Seq<GroupView>) -> Set<Seq<char>> {
    Set::new(
        |id: Seq<char>|
            exists|k: int| 0 <= k < groups.len() && #[trigger] involved_ids(groups[k].layers).contains(id),
    )
}

/// The operation planned for a kept group.
pub open spec fn op_matches(ids: Seq<Seq<char>>, op: OverlayOperation, g: GroupView) -> bool {
    &&& op.partition_name@ == g.partition
    &&& op.target@ == g.target
    &&& layers_sorted(ids, string_views(op.lowerdirs@))
    &&& string_views(op.lowerdirs@).to_multiset() == g.layers.to_multiset()
}

/// The plan made of the gathered groups (`target_is_dir` saying which
/// targets are directories), the module order `ids`, and the modules that
/// asked for magic mount and for HymoFS: one overlay operation per kept
/// group, in target order, its layers ordered by module order and path;
/// and the module lists, sorted.
pub open spec fn generated(
    plan: MountPlan,
    groups: Seq<GroupView>,
    target_is_dir: Seq<bool>,
    ids: Seq<Seq<char>>,
    magic: Seq<Seq<char>>,
    kasumi: Seq<Seq<char>>,
) -> bool {
    &&& plan.overlay_ops@.len() == kept_groups(groups, target_is_dir).len()
    &&& forall|i: int, j: int|
        0 <= i < j < plan.overlay_ops@.len() ==> key_lt(
            path_key(#[trigger] plan.overlay_ops@[i].target@),
            path_key(#[trigger] plan.overlay_ops@[j].target@),
        )
    &&& forall|k: int|
        0 <= k < plan.overlay_ops@.len() ==> op_matches(ids, #[trigger] plan.overlay_ops@[k], kept_groups(groups, target_is_dir)[k])
    &&& string_views(plan.overlay_module_ids@) == sorted_seq(groups_module_ids(kept_groups(groups, target_is_dir)))
    &&& string_views(plan.magic_module_ids@) == sorted_seq(magic.to_set())
    &&& string_views(plan.hymofs_module_ids@) == sorted_seq(kasumi.to_set())
    &&& plan.hymofs_add_rules@.len() == 0
    &&& plan.hymofs_merge_rules@.len() == 0
    &&& plan.hymofs_hide_rules@.len() == 0
}

/// Turns the gathered groups into the plan: one overlay operation per group
/// whose target is a directory (`target_is_dir`, in group order), its layers
/// ordered by module order and path; and the module lists, sorted.
pub fn generate(
    groups: Vec<OverlayGroup>,
    target_is_dir: &Vec<bool>,
    module_ids: &Vec<String>,
    magic_ids: &Vec<String>,
    kasumi_ids: &Vec<String>,
) -> (plan: MountPlan)
    requires
        groups@.len() == target_is_dir@.len(),
        groups_sorted(group_views(groups@)),
    ensures
        generated(
            plan,
            group_views(groups@),
            target_is_dir@,
            string_views(module_ids@),
            string_views(magic_ids@),
            string_views(kasumi_ids@),
        ),
{
    let ghost gv = group_views(groups@);
    let ghost ids = string_views(module_ids@);
    let mut ops: Vec<OverlayOperation> = Vec::new();
    let mut overlay_ids: Vec<String> = Vec::new();
    let mut i: usize = 0;
    assert(gv.take(0) =~= Seq::<GroupView>::empty());
    assert(target_is_dir@.take(0) =~= Seq::<bool>::empty());
    assert(string_views(overlay_ids@).to_set() =~= groups_module_ids(Seq::<GroupView>::empty()));
    while i < groups.len()
        invariant
            i <= groups@.len(),
            groups@.len() == target_is_dir@.len(),
            gv == group_views(groups@),
            ids == string_views(module_ids@),
            ops@.len() == kept_groups(gv.take(i as int), target_is_dir@.take(i as int)).len(),
            forall|k: int|
                0 <= k < ops@.len() ==> op_matches(
                    ids,
                    #[trigger] ops@[k],
                    kept_groups(gv.take(i as int), target_is_dir@.take(i as int))[k],
                ),
            strictly_sorted(string_views(overlay_ids@)),
            string_views(overlay_ids@).to_set() == groups_module_ids(
                kept_groups(gv.take(i as int), target_is_dir@.take(i as int)),
            ),
        decreases groups@.len() - i,
    {
        let ghost before = kept_groups(gv.take(i as int), target_is_dir@.take(i as int));
        proof {
            assert(gv.take(i + 1).drop_last() =~= gv.take(i as int));
            assert(target_is_dir@.take(i + 1).drop_last() =~= target_is_dir@.take(i as int));
            assert(gv.take(i + 1).last() == gv[i as int]);
            assert(target_is_dir@.take(i + 1).last() == target_is_dir@[i as int]);
        }
        if target_is_dir[i] {
            let g = &groups[i];
            assert(gv[i as int] == g@);
            let lowerdirs = sort_layers(&g.layers, module_ids);
            let ids_here = involved_modules_of(&g.layers);
            let ghost prev_set = string_views(overlay_ids@).to_set();
            extend_sorted(&mut overlay_ids, &ids_here);
            let op = OverlayOperation {
                partition_name: g.partition.clone(),
                target: g.target.clone(),
                lowerdirs,
            };
            ops.push(op);
            proof {
                let after = kept_groups(gv.take(i + 1), target_is_dir@.take(i + 1));
                assert(after == before.push(g@));
                assert forall|k: int| 0 <= k < ops@.len() implies op_matches(
                    ids,
                    #[trigger] ops@[k],
                    after[k],
                ) by {
                    if k < before.len() {
                        assert(after[k] == before[k]);
                    }
                }
                assert forall|id: Seq<char>|
                    string_views(overlay_ids@).to_set().contains(id) <==> groups_module_ids(after).contains(id) by {
                    if groups_module_ids(before).contains(id) {
                        let k = choose|k: int|
                            0 <= k < before.len() && #[trigger] involved_ids(before[k].layers).contains(id);
                        assert(after[k] == before[k]);
                    }
                    if involved_ids(g@.layers).contains(id) {
                        assert(after[before.len() as int] == g@);
                    }
                    if groups_module_ids(after).contains(id) {
                        let k = choose|k: int|
                            0 <= k < after.len() && #[trigger] involved_ids(after[k].layers).contains(id);
                        if k < before.len() {
                            assert(after[k] == before[k]);
                        }
                    }
                }
                assert(string_views(overlay_ids@).to_set() =~= groups_module_ids(after));
            }
        } else {
            proof {
                let after = kept_groups(gv.take(i + 1), target_is_dir@.take(i + 1));
                assert(after == before);
            }
        }
        i = i + 1;
    }
    proof {
        assert(gv.take(groups@.len() as int) =~= gv);
        assert(target_is_dir@.take(groups@.len() as int) =~= target_is_dir@);
        lemma_sorted_seq(string_views(overlay_ids@));
        lemma_kept_sorted(gv, target_is_dir@);
        let kg = kept_groups(gv, target_is_dir@);
        assert forall|a: int, b: int| 0 <= a < b < ops@.len() implies key_lt(
            path_key(#[trigger] ops@[a].target@),
            path_key(#[trigger] ops@[b].target@),
        ) by {
            assert(op_matches(ids, ops@[a], kg[a]));
            assert(op_matches(ids, ops@[b], kg[b]));
        }
    }
    let magic = sorted_unique(magic_ids);
    let kasumi = sorted_unique(kasumi_ids);
    proof {
        lemma_sorted_seq(string_views(magic@));
        lemma_sorted_seq(string_views(kasumi@));
    }
    MountPlan {
        overlay_ops: ops,
        hymofs_add_rules: Vec::new(),
        hymofs_merge_rules: Vec::new(),
        hymofs_hide_rules: Vec::new(),
        overlay_module_ids: overlay_ids,
        magic_module_ids: magic,
        hymofs_module_ids: kasumi,
    }
}

} // verus!
