//! The compiled HymoFS rules as a tree of target paths, for the debug dump:
//! each node carries the actions aimed at it, the modules they come from
//! and their sources. The nodes are held in path order, which is the order
//! in which the dump lists them.
use vstd::prelude::*;

use crate::engine::hymofs::{tree_file_type_from_dtype, tree_file_type_name, tree_type_of_dtype, CompiledRules, HymofsTreeFileType};
use crate::engine::plan::{HymofsAddRule, HymofsMergeRule};
use crate::paths::{key_lt, key_lt_exec, lemma_key_irreflexive, lemma_key_total, lemma_key_transitive, lemma_key_asymmetric};
use crate::strset::{insert_sorted, string_views, strictly_sorted};
use crate::text::char_views;

verus! {

/// One node: its path from the root, its kind, and what is aimed at it.
pub struct TreeNode {
    pub path: Vec<Vec<char>>,
    pub file_type: HymofsTreeFileType,
    /// The actions, in order.
    pub actions: Vec<String>,
    /// The modules, in order.
    pub modules: Vec<String>,
    /// The sources, in the order they came.
    pub sources: Vec<String>,
}

/// What a node holds, apart from where it is.
pub struct NodeView {
    pub file_type: HymofsTreeFileType,
    pub actions: Set<Seq<char>>,
    pub modules: Set<Seq<char>>,
    pub sources: Seq<Seq<char>>,
}

pub open spec fn key_of(n: TreeNode) -> Seq<Seq<char>> {
    char_views(n.path@)
}

pub open spec fn node_view(n: TreeNode) -> NodeView {
    NodeView {
        file_type: n.file_type,
        actions: string_views(n.actions@).to_set(),
        modules: string_views(n.modules@).to_set(),
        sources: string_views(n.sources@),
    }
}

/// A node made for a path that had none.
pub open spec fn fresh_node() -> NodeView {
    NodeView {
        file_type: HymofsTreeFileType::Directory,
        actions: Set::empty(),
        modules: Set::empty(),
        sources: Seq::empty(),
    }
}

/// The nodes are in strictly increasing path order.
pub open spec fn keys_sorted(s: Seq<TreeNode>) -> bool {
    forall|i: int, j: int| 0 <= i < j < s.len() ==> key_lt(#[trigger] key_of(s[i]), #[trigger] key_of(s[j]))
}

pub open spec fn node_ok(n: TreeNode) -> bool {
    strictly_sorted(string_views(n.actions@)) && strictly_sorted(string_views(n.modules@))
}

/// A tree: the root first, the nodes in path order, each node's actions and
/// modules in order.
pub open spec fn tree_ok(s: Seq<TreeNode>) -> bool {
    &&& s.len() > 0
    &&& key_of(s[0]) == Seq::<Seq<char>>::empty()
    &&& keys_sorted(s)
    &&& forall|i: int| 0 <= i < s.len() ==> #[trigger] node_ok(s[i])
}

pub open spec fn has_key(s: Seq<TreeNode>, k: Seq<Seq<char>>) -> bool {
    exists|i: int| 0 <= i < s.len() && key_of(s[i]) == k
}

pub open spec fn index_of_key(s: Seq<TreeNode>, k: Seq<Seq<char>>) -> int {
    choose|i: int| 0 <= i < s.len() && key_of(s[i]) == k
}

/// The tree as a map from paths to nodes.
pub open spec fn tree_map(s: Seq<TreeNode>) -> Map<Seq<Seq<char>>, NodeView> {
    Map::new(|k: Seq<Seq<char>>| has_key(s, k), |k: Seq<Seq<char>>| node_view(s[index_of_key(s, k)]))
}

/// The node at `p`, or a fresh one.
pub open spec fn node_or_fresh(m: Map<Seq<Seq<char>>, NodeView>, p: Seq<Seq<char>>) -> NodeView {
    if m.contains_key(p) {
        m[p]
    } else {
        fresh_node()
    }
}

/// In a tree the path picks out one node.
proof fn lemma_pick(s: Seq<TreeNode>, j: int)
    requires
        keys_sorted(s),
        0 <= j < s.len(),
    ensures
        has_key(s, key_of(s[j])),
        index_of_key(s, key_of(s[j])) == j,
{
    let k = key_of(s[j]);
    assert(has_key(s, k));
    let i = index_of_key(s, k);
    lemma_key_irreflexive(k);
    if i < j {
        assert(key_lt(key_of(s[i]), key_of(s[j])));
    } else if j < i {
        assert(key_lt(key_of(s[j]), key_of(s[i])));
    }
}

/// Replacing the node at `j` by one with the same path replaces its entry.
proof fn lemma_map_update(s: Seq<TreeNode>, j: int, n: TreeNode)
    requires
        keys_sorted(s),
        0 <= j < s.len(),
        key_of(n) == key_of(s[j]),
    ensures
        keys_sorted(s.update(j, n)),
        tree_map(s.update(j, n)) == tree_map(s).insert(key_of(n), node_view(n)),
{
    let t = s.update(j, n);
    assert forall|a: int, b: int| 0 <= a < b < t.len() implies key_lt(#[trigger] key_of(t[a]), #[trigger] key_of(t[b])) by {
        assert(key_of(t[a]) == key_of(s[a]));
        assert(key_of(t[b]) == key_of(s[b]));
    }
    assert forall|k: Seq<Seq<char>>| has_key(t, k) == has_key(s, k) by {
        if has_key(s, k) {
            let i = choose|i: int| 0 <= i < s.len() && key_of(s[i]) == k;
            assert(key_of(t[i]) == k);
        }
        if has_key(t, k) {
            let i = choose|i: int| 0 <= i < t.len() && key_of(t[i]) == k;
            assert(key_of(s[i]) == k);
        }
    }
    assert forall|k: Seq<Seq<char>>| #[trigger] tree_map(t).contains_key(k) implies tree_map(t)[k] == tree_map(s).insert(key_of(n), node_view(n))[k] by {
        let i = choose|i: int| 0 <= i < t.len() && key_of(t[i]) == k;
        lemma_pick(t, i);
        lemma_pick(s, i);
        assert(key_of(s[i]) == k);
        if i == j {
            assert(t[i] == n);
        } else {
            assert(t[i] == s[i]);
            lemma_key_irreflexive(k);
            if i < j {
                assert(key_lt(key_of(s[i]), key_of(s[j])));
            } else {
                assert(key_lt(key_of(s[j]), key_of(s[i])));
            }
            assert(k != key_of(n));
        }
    }
    assert(tree_map(t) =~= tree_map(s).insert(key_of(n), node_view(n)));
}

/// Inserting a node at its place in path order adds its entry.
proof fn lemma_map_insert(s: Seq<TreeNode>, pos: int, n: TreeNode)
    requires
        keys_sorted(s),
        0 <= pos <= s.len(),
        forall|i: int| 0 <= i < pos ==> key_lt(#[trigger] key_of(s[i]), key_of(n)),
        forall|i: int| pos <= i < s.len() ==> key_lt(key_of(n), #[trigger] key_of(s[i])),
    ensures
        keys_sorted(s.insert(pos, n)),
        !has_key(s, key_of(n)),
        tree_map(s.insert(pos, n)) == tree_map(s).insert(key_of(n), node_view(n)),
{
    let t = s.insert(pos, n);
    assert forall|a: int, b: int| 0 <= a < b < t.len() implies key_lt(#[trigger] key_of(t[a]), #[trigger] key_of(t[b])) by {
        if b < pos {
            assert(t[a] == s[a] && t[b] == s[b]);
        } else if b == pos {
            assert(t[a] == s[a] && t[b] == n);
        } else if a < pos {
            assert(t[a] == s[a] && t[b] == s[b - 1]);
            if pos < b - 1 || pos == b - 1 {
                assert(key_lt(key_of(n), key_of(s[b - 1])));
                lemma_key_transitive(key_of(s[a]), key_of(n), key_of(s[b - 1]));
            }
        } else if a == pos {
            assert(t[a] == n && t[b] == s[b - 1]);
        } else {
            assert(t[a] == s[a - 1] && t[b] == s[b - 1]);
        }
    }
    if has_key(s, key_of(n)) {
        let i = choose|i: int| 0 <= i < s.len() && key_of(s[i]) == key_of(n);
        lemma_key_irreflexive(key_of(n));
        assert(false);
    }
    assert forall|k: Seq<Seq<char>>| k != key_of(n) implies has_key(t, k) == has_key(s, k) by {
        if has_key(s, k) {
            let i = choose|i: int| 0 <= i < s.len() && key_of(s[i]) == k;
            if i < pos {
                assert(key_of(t[i]) == k);
            } else {
                assert(key_of(t[i + 1]) == k);
            }
        }
        if has_key(t, k) {
            let i = choose|i: int| 0 <= i < t.len() && key_of(t[i]) == k;
            if i < pos {
                assert(key_of(s[i]) == k);
            } else if i > pos {
                assert(key_of(s[i - 1]) == k);
            }
        }
    }
    assert(key_of(t[pos]) == key_of(n));
    lemma_pick(t, pos);
    assert forall|k: Seq<Seq<char>>| #[trigger] tree_map(t).contains_key(k) implies tree_map(t)[k] == tree_map(s).insert(key_of(n), node_view(n))[k] by {
        let i = choose|i: int| 0 <= i < t.len() && key_of(t[i]) == k;
        lemma_pick(t, i);
        if i < pos {
            lemma_pick(s, i);
            assert(t[i] == s[i]);
        } else if i > pos {
            lemma_pick(s, i - 1);
            assert(t[i] == s[i - 1]);
        }
    }
    assert(tree_map(t) =~= tree_map(s).insert(key_of(n), node_view(n)));
}

fn keys_equal(a: &Vec<Vec<char>>, b: &Vec<Vec<char>>) -> (r: bool)
    ensures
        r == (char_views(a@) == char_views(b@)),
{
    let x = key_lt_exec(a, b);
    let y = key_lt_exec(b, a);
    proof {
        lemma_key_total(char_views(a@), char_views(b@));
        lemma_key_irreflexive(char_views(a@));
    }
    !x && !y
}

fn copy_key(p: &Vec<Vec<char>>, k: usize) -> (r: Vec<Vec<char>>)
    requires
        k <= p@.len(),
    ensures
        char_views(r@) == char_views(p@).take(k as int),
{
    let mut r: Vec<Vec<char>> = Vec::new();
    let mut i: usize = 0;
    while i < k
        invariant
            i <= k <= p@.len(),
            char_views(r@) == char_views(p@).take(i as int),
        decreases k - i,
    {
        let c = crate::text::copy_range(&p[i], 0, p[i].len());
        assert(c@ =~= p@[i as int]@);
        let ghost before = char_views(r@);
        r.push(c);
        assert(char_views(r@) =~= before.push(p@[i as int]@));
        assert(char_views(p@).take(i + 1) =~= char_views(p@).take(i as int).push(p@[i as int]@));
        i = i + 1;
    }
    r
}

/// `p` is a proper prefix of `k`.
pub open spec fn below(p: Seq<Seq<char>>, k: Seq<Seq<char>>) -> bool {
    p.len() < k.len() && k.take(p.len() as int) == p
}

fn is_below(p: &Vec<Vec<char>>, k: &Vec<Vec<char>>) -> (r: bool)
    ensures
        r == below(char_views(p@), char_views(k@)),
{
    let ghost pv = char_views(p@);
    let ghost kv = char_views(k@);
    if p.len() >= k.len() {
        return false;
    }
    let mut i: usize = 0;
    while i < p.len()
        invariant
            i <= p@.len() < k@.len(),
            pv == char_views(p@),
            kv == char_views(k@),
            forall|j: int| 0 <= j < i ==> pv[j] == kv[j],
        decreases p@.len() - i,
    {
        if !crate::text::same_chars(&p[i], &k[i]) {
            assert(kv.take(pv.len() as int)[i as int] != pv[i as int]);
            return false;
        }
        i = i + 1;
    }
    assert(kv.take(pv.len() as int) =~= pv);
    true
}

/// Some node lies below `p`.
pub open spec fn has_desc(m: Map<Seq<Seq<char>>, NodeView>, p: Seq<Seq<char>>) -> bool {
    exists|k: Seq<Seq<char>>| m.contains_key(k) && below(p, k)
}

/// The sources with `s` added, unless a source that is the same path is
/// there already.
pub open spec fn add_source(srcs: Seq<Seq<char>>, s: Option<Seq<char>>) -> Seq<Seq<char>> {
    match s {
        Some(x) => if exists|i: int| 0 <= i < srcs.len() && crate::paths::same_path(srcs[i], x) {
            srcs
        } else {
            srcs.push(x)
        },
        None => srcs,
    }
}

/// A node of kind `t` with the action, module and source added.
pub open spec fn touched(
    v: NodeView,
    t: HymofsTreeFileType,
    action: Seq<char>,
    source: Option<Seq<char>>,
    module: Option<Seq<char>>,
) -> NodeView {
    NodeView {
        file_type: t,
        actions: v.actions.insert(action),
        modules: match module {
            Some(m) => v.modules.insert(m),
            None => v.modules,
        },
        sources: add_source(v.sources, source),
    }
}

/// The tree with the first `k` proper prefixes of `comps` made directories.
pub open spec fn with_dirs(m: Map<Seq<Seq<char>>, NodeView>, comps: Seq<Seq<char>>, k: nat) -> Map<Seq<Seq<char>>, NodeView>
    decreases k,
{
    if k == 0 {
        m
    } else {
        let d = with_dirs(m, comps, (k - 1) as nat);
        let p = comps.take(k as int);
        d.insert(p, NodeView { file_type: HymofsTreeFileType::Directory, ..node_or_fresh(d, p) })
    }
}

/// The tree after a rule aimed at the path `comps`: the nodes on the way
/// become directories, created where missing; the target node takes the
/// action, module and source, and the leaf kind unless something lies
/// below it; a rule at the root changes only what the root carries.
pub open spec fn rule_inserted(
    m: Map<Seq<Seq<char>>, NodeView>,
    comps: Seq<Seq<char>>,
    leaf: HymofsTreeFileType,
    action: Seq<char>,
    source: Option<Seq<char>>,
    module: Option<Seq<char>>,
) -> Map<Seq<Seq<char>>, NodeView> {
    if comps.len() == 0 {
        m.insert(comps, touched(node_or_fresh(m, comps), node_or_fresh(m, comps).file_type, action, source, module))
    } else {
        let d = with_dirs(m, comps, (comps.len() - 1) as nat);
        let t = if has_desc(m, comps) {
            HymofsTreeFileType::Directory
        } else {
            leaf
        };
        d.insert(comps, touched(node_or_fresh(d, comps), t, action, source, module))
    }
}

fn add_source_exec(srcs: &mut Vec<String>, s: &str)
    ensures
        string_views(final(srcs)@) == add_source(string_views(old(srcs)@), Some(s@)),
{
    let ghost sv = string_views(srcs@);
    let key = crate::paths::path_parts(s);
    let mut i: usize = 0;
    while i < srcs.len()
        invariant
            i <= srcs@.len(),
            *srcs == *old(srcs),
            sv == string_views(srcs@),
            key.view_of() == crate::paths::path_view(s@),
            forall|j: int| 0 <= j < i ==> !crate::paths::same_path(sv[j], s@),
        decreases srcs@.len() - i,
    {
        let here = crate::paths::path_parts(srcs[i].as_str());
        if crate::paths::same_parts(&here, &key) {
            assert(crate::paths::same_path(sv[i as int], s@));
            return;
        }
        i = i + 1;
    }
    srcs.push(String::from_str(s));
    assert(string_views(srcs@) =~= sv.push(s@));
}

pub open spec fn opt_str(o: Option<&str>) -> Option<Seq<char>> {
    match o {
        Some(s) => Some(s@),
        None => None,
    }
}

/// The rule tree.
pub struct RuleTree {
    pub nodes: Vec<TreeNode>,
}

impl RuleTree {
    pub open spec fn wf(&self) -> bool {
        tree_ok(self.nodes@)
    }

    pub open spec fn map(&self) -> Map<Seq<Seq<char>>, NodeView> {
        tree_map(self.nodes@)
    }

    /// A tree of the root alone.
    pub fn new_root() -> (r: Self)
        ensures
            r.wf(),
            r.map() == Map::<Seq<Seq<char>>, NodeView>::empty().insert(
                Seq::empty(),
                NodeView {
                    file_type: HymofsTreeFileType::Root,
                    actions: Set::empty(),
                    modules: Set::empty(),
                    sources: Seq::empty(),
                },
            ),
    {
        let root = TreeNode {
            path: Vec::new(),
            file_type: HymofsTreeFileType::Root,
            actions: Vec::new(),
            modules: Vec::new(),
            sources: Vec::new(),
        };
        let mut nodes: Vec<TreeNode> = Vec::new();
        nodes.push(root);
        let r = RuleTree { nodes };
        proof {
            assert(key_of(r.nodes@[0]) =~= Seq::<Seq<char>>::empty());
            assert(string_views(r.nodes@[0].actions@) =~= Seq::<Seq<char>>::empty());
            assert(string_views(r.nodes@[0].modules@) =~= Seq::<Seq<char>>::empty());
            assert(string_views(r.nodes@[0].sources@) =~= Seq::<Seq<char>>::empty());
            assert(string_views(r.nodes@[0].actions@).to_set() =~= Set::<Seq<char>>::empty());
            assert(string_views(r.nodes@[0].modules@).to_set() =~= Set::<Seq<char>>::empty());
            lemma_pick(r.nodes@, 0);
            assert forall|k: Seq<Seq<char>>| has_key(r.nodes@, k) == (k == Seq::<Seq<char>>::empty()) by {
                if has_key(r.nodes@, k) {
                    let i = choose|i: int| 0 <= i < r.nodes@.len() && key_of(r.nodes@[i]) == k;
                    assert(i == 0);
                }
            }
            assert(r.map() =~= Map::<Seq<Seq<char>>, NodeView>::empty().insert(
                Seq::empty(),
                NodeView {
                    file_type: HymofsTreeFileType::Root,
                    actions: Set::empty(),
                    modules: Set::empty(),
                    sources: Seq::empty(),
                },
            ));
        }
        r
    }

    /// Where `p` is or belongs in path order.
    fn locate(&self, p: &Vec<Vec<char>>) -> (r: (bool, usize))
        requires
            keys_sorted(self.nodes@),
        ensures
            r.1 <= self.nodes@.len(),
            forall|i: int| 0 <= i < r.1 ==> key_lt(#[trigger] key_of(self.nodes@[i]), char_views(p@)),
            r.0 ==> r.1 < self.nodes@.len() && key_of(self.nodes@[r.1 as int]) == char_views(p@),
            !r.0 ==> forall|i: int| r.1 <= i < self.nodes@.len() ==> key_lt(char_views(p@), #[trigger] key_of(self.nodes@[i])),
    {
        let ghost pv = char_views(p@);
        let mut i: usize = 0;
        while i < self.nodes.len() && key_lt_exec(&self.nodes[i].path, p)
            invariant
                i <= self.nodes@.len(),
                pv == char_views(p@),
                forall|j: int| 0 <= j < i ==> key_lt(#[trigger] key_of(self.nodes@[j]), pv),
            decreases self.nodes@.len() - i,
        {
            i = i + 1;
        }
        if i < self.nodes.len() && keys_equal(&self.nodes[i].path, p) {
            return (true, i);
        }
        proof {
            if i < self.nodes@.len() {
                let ki = key_of(self.nodes@[i as int]);
                lemma_key_total(ki, pv);
                assert(key_lt(pv, ki));
                assert forall|j: int| i <= j < self.nodes@.len() implies key_lt(pv, #[trigger] key_of(self.nodes@[j])) by {
                    if j > i {
                        assert(key_lt(key_of(self.nodes@[i as int]), key_of(self.nodes@[j])));
                        lemma_key_transitive(pv, ki, key_of(self.nodes@[j]));
                    }
                }
            }
        }
        (false, i)
    }

    /// The index of the node at `p`, made fresh where there was none.
    fn ensure_node(&mut self, p: &Vec<Vec<char>>) -> (idx: usize)
        requires
            old(self).wf(),
        ensures
            final(self).wf(),
            idx < final(self).nodes@.len(),
            key_of(final(self).nodes@[idx as int]) == char_views(p@),
            final(self).map() == old(self).map().insert(char_views(p@), node_or_fresh(old(self).map(), char_views(p@))),
    {
        let (found, pos) = self.locate(p);
        if found {
            proof {
                lemma_pick(self.nodes@, pos as int);
                assert(self.map().contains_key(char_views(p@)));
                assert(self.map().insert(char_views(p@), node_or_fresh(self.map(), char_views(p@))) =~= self.map());
            }
            return pos;
        }
        let ghost s0 = self.nodes@;
        let ghost m0 = self.map();
        proof {
            if pos == 0 {
                assert(key_lt(char_views(p@), key_of(s0[0])));
                assert(false);
            }
        }
        let path = copy_key(p, p.len());
        assert(char_views(p@).take(p@.len() as int) =~= char_views(p@));
        let n = TreeNode {
            path,
            file_type: HymofsTreeFileType::Directory,
            actions: Vec::new(),
            modules: Vec::new(),
            sources: Vec::new(),
        };
        proof {
            lemma_map_insert(s0, pos as int, n);
            assert(string_views(n.actions@) =~= Seq::<Seq<char>>::empty());
            assert(string_views(n.modules@) =~= Seq::<Seq<char>>::empty());
            assert(string_views(n.sources@) =~= Seq::<Seq<char>>::empty());
            assert(string_views(n.actions@).to_set() =~= Set::<Seq<char>>::empty());
            assert(string_views(n.modules@).to_set() =~= Set::<Seq<char>>::empty());
            assert(node_view(n) == fresh_node());
            assert(!m0.contains_key(char_views(p@)));
        }
        self.nodes.insert(pos, n);
        proof {
            assert(self.nodes@ == s0.insert(pos as int, n));
            assert(self.nodes@[0] == s0[0]);
            assert forall|i: int| 0 <= i < self.nodes@.len() implies #[trigger] node_ok(self.nodes@[i]) by {
                if i < pos {
                    assert(self.nodes@[i] == s0[i]);
                } else if i > pos {
                    assert(self.nodes@[i] == s0[i - 1]);
                } else {
                    assert(self.nodes@[i] == n);
                }
            }
        }
        pos
    }

    /// The node at `idx` with kind `t`.
    fn set_type(&mut self, idx: usize, t: HymofsTreeFileType)
        requires
            old(self).wf(),
            idx < old(self).nodes@.len(),
        ensures
            final(self).wf(),
            final(self).nodes@.len() == old(self).nodes@.len(),
            final(self).map() == old(self).map().insert(
                key_of(old(self).nodes@[idx as int]),
                NodeView { file_type: t, ..old(self).map()[key_of(old(self).nodes@[idx as int])] },
            ),
    {
        let ghost s0 = self.nodes@;
        proof {
            lemma_pick(s0, idx as int);
        }
        let mut nd = self.nodes.remove(idx);
        nd.file_type = t;
        self.nodes.insert(idx, nd);
        proof {
            assert(self.nodes@ =~= s0.update(idx as int, nd));
            lemma_map_update(s0, idx as int, nd);
            assert(node_view(nd) == NodeView { file_type: t, ..node_view(s0[idx as int]) });
            assert(self.nodes@[0] == s0[0] || idx == 0);
            assert forall|i: int| 0 <= i < self.nodes@.len() implies #[trigger] node_ok(self.nodes@[i]) by {
                if i != idx {
                    assert(self.nodes@[i] == s0[i]);
                } else {
                    assert(node_ok(s0[i]));
                }
            }
        }
    }

    /// The node at `idx` with kind `t`, the action, module and source added.
    fn touch(&mut self, idx: usize, t: HymofsTreeFileType, action: &str, source: Option<&str>, module: Option<&str>)
        requires
            old(self).wf(),
            idx < old(self).nodes@.len(),
        ensures
            final(self).wf(),
            final(self).map() == old(self).map().insert(
                key_of(old(self).nodes@[idx as int]),
                touched(old(self).map()[key_of(old(self).nodes@[idx as int])], t, action@, opt_str(source), opt_str(module)),
            ),
    {
        let ghost s0 = self.nodes@;
        proof {
            lemma_pick(s0, idx as int);
        }
        assert(node_ok(s0[idx as int]));
        let mut nd = self.nodes.remove(idx);
        let ghost n0 = nd;
        assert(nd == s0[idx as int]);
        nd.file_type = t;
        insert_sorted(&mut nd.actions, String::from_str(action));
        match module {
            Some(m) => {
                insert_sorted(&mut nd.modules, String::from_str(m));
            },
            None => {},
        }
        match source {
            Some(x) => {
                add_source_exec(&mut nd.sources, x);
            },
            None => {},
        }
        self.nodes.insert(idx, nd);
        proof {
            assert(self.nodes@ =~= s0.update(idx as int, nd));
            assert(key_of(nd) == key_of(s0[idx as int]));
            lemma_map_update(s0, idx as int, nd);
            assert(node_view(nd) == touched(node_view(n0), t, action@, opt_str(source), opt_str(module)));
            assert forall|i: int| 0 <= i < self.nodes@.len() implies #[trigger] node_ok(self.nodes@[i]) by {
                if i != idx {
                    assert(self.nodes@[i] == s0[i]);
                }
            }
        }
    }

    /// Adds a rule aimed at the path `comps` (see `rule_inserted`).
    pub fn insert_rule(
        &mut self,
        comps: &Vec<Vec<char>>,
        leaf: HymofsTreeFileType,
        action: &str,
        source: Option<&str>,
        module: Option<&str>,
    )
        requires
            old(self).wf(),
        ensures
            final(self).wf(),
            final(self).map() == rule_inserted(old(self).map(), char_views(comps@), leaf, action@, opt_str(source), opt_str(module)),
    {
        let ghost m0 = self.map();
        let ghost cv = char_views(comps@);
        let n = comps.len();
        let desc = self.has_descendant(comps);
        if n == 0 {
            let idx = self.ensure_node(comps);
            let t = self.nodes[idx].file_type;
            proof {
                assert(self.map() == m0);
                lemma_pick(self.nodes@, idx as int);
                assert(cv =~= Seq::<Seq<char>>::empty());
            }
            self.touch(idx, t, action, source, module);
            return;
        }
        let mut k: usize = 1;
        while k < n
            invariant
                1 <= k <= n,
                n == comps@.len(),
                cv == char_views(comps@),
                self.wf(),
                self.map() == with_dirs(m0, cv, (k - 1) as nat),
            decreases n - k,
        {
            let p = copy_key(comps, k);
            let ghost d = self.map();
            let idx = self.ensure_node(&p);
            let ghost e = self.map();
            proof {
                lemma_pick(self.nodes@, idx as int);
            }
            self.set_type(idx, HymofsTreeFileType::Directory);
            proof {
                assert(self.map() =~= d.insert(cv.take(k as int), NodeView { file_type: HymofsTreeFileType::Directory, ..node_or_fresh(d, cv.take(k as int)) }));
            }
            k = k + 1;
        }
        let ghost d = self.map();
        let idx = self.ensure_node(comps);
        let t = if desc {
            HymofsTreeFileType::Directory
        } else {
            leaf
        };
        proof {
            lemma_pick(self.nodes@, idx as int);
        }
        self.touch(idx, t, action, source, module);
        proof {
            assert(self.map() =~= d.insert(cv, touched(node_or_fresh(d, cv), t, action@, opt_str(source), opt_str(module))));
        }
    }

    /// Whether some node lies below `p`.
    fn has_descendant(&self, p: &Vec<Vec<char>>) -> (r: bool)
        ensures
            r == has_desc(tree_map(self.nodes@), char_views(p@)),
    {
        let mut i: usize = 0;
        while i < self.nodes.len()
            invariant
                i <= self.nodes@.len(),
                forall|j: int| 0 <= j < i ==> !below(char_views(p@), #[trigger] key_of(self.nodes@[j])),
            decreases self.nodes@.len() - i,
        {
            if is_below(p, &self.nodes[i].path) {
                proof {
                    let k = key_of(self.nodes@[i as int]);
                    assert(has_key(self.nodes@, k));
                    assert(tree_map(self.nodes@).contains_key(k));
                }
                return true;
            }
            i = i + 1;
        }
        proof {
            if has_desc(tree_map(self.nodes@), char_views(p@)) {
                let k = choose|k: Seq<Seq<char>>| tree_map(self.nodes@).contains_key(k) && below(char_views(p@), k);
                let j = choose|j: int| 0 <= j < self.nodes@.len() && key_of(self.nodes@[j]) == k;
                assert(!below(char_views(p@), key_of(self.nodes@[j])));
            }
        }
        false
    }
}

/// `d` levels of indentation, two spaces each.
pub open spec fn indent(d: nat) -> Seq<char>
    decreases d,
{
    if d == 0 {
        Seq::empty()
    } else {
        indent((d - 1) as nat) + "  "@
    }
}

/// The name a node is shown by: `/` for the root, else its last component.
pub open spec fn node_name(k: Seq<Seq<char>>) -> Seq<char> {
    if k.len() == 0 {
        "/"@
    } else {
        k.last()
    }
}

/// ` [a]` for each action `a`.
pub open spec fn action_tags(a: Seq<Seq<char>>) -> Seq<char>
    decreases a.len(),
{
    if a.len() == 0 {
        Seq::empty()
    } else {
        action_tags(a.drop_last()) + " ["@ + a.last() + "]"@
    }
}

/// The dump line of a node: indented by depth, its name and kind, its
/// actions, and its modules and sources where it has any.
pub open spec fn node_line(n: TreeNode) -> Seq<char> {
    let k = key_of(n);
    indent(k.len()) + node_name(k) + " ("@ + tree_file_type_name(n.file_type) + ")"@ + action_tags(
        string_views(n.actions@),
    ) + (if n.modules@.len() == 0 {
        Seq::empty()
    } else {
        " [modules="@ + crate::text::join_with(string_views(n.modules@), ","@) + "]"@
    }) + (if n.sources@.len() == 0 {
        Seq::empty()
    } else {
        " [sources="@ + crate::text::join_with(string_views(n.sources@), ","@) + "]"@
    }) + "\n"@
}

/// The dump: one line per node, in order.
pub open spec fn tree_text(s: Seq<TreeNode>) -> Seq<char>
    decreases s.len(),
{
    if s.len() == 0 {
        Seq::empty()
    } else {
        tree_text(s.drop_last()) + node_line(s.last())
    }
}

fn push_head(out: &mut String, n: &TreeNode)
    ensures
        final(out)@ == old(out)@ + indent(key_of(*n).len()) + node_name(key_of(*n)) + " ("@
            + tree_file_type_name(n.file_type) + ")"@,
{
    let ghost start = out@;
    let mut d: usize = 0;
    while d < n.path.len()
        invariant
            d <= n.path@.len(),
            out@ == start + indent(d as nat),
        decreases n.path@.len() - d,
    {
        out.append("  ");
        d = d + 1;
    }
    let ghost k = key_of(*n);
    if n.path.len() == 0 {
        out.append("/");
    } else {
        let name = crate::text::string_from_chars(&n.path[n.path.len() - 1]);
        assert(name@ == k.last());
        out.append(name.as_str());
    }
    out.append(" (");
    out.append(n.file_type.as_str());
    out.append(")");
}

fn push_actions(out: &mut String, actions: &Vec<String>)
    ensures
        final(out)@ == old(out)@ + action_tags(string_views(actions@)),
{
    let ghost head = out@;
    let ghost av = string_views(actions@);
    let mut i: usize = 0;
    while i < actions.len()
        invariant
            i <= actions@.len(),
            av == string_views(actions@),
            out@ == head + action_tags(av.take(i as int)),
        decreases actions@.len() - i,
    {
        out.append(" [");
        out.append(actions[i].as_str());
        out.append("]");
        assert(av.take(i + 1).drop_last() =~= av.take(i as int));
        i = i + 1;
    }
    assert(av.take(actions@.len() as int) =~= av);
}

/// ` [label...]` around the items joined with commas, where there are any.
pub open spec fn group_tag(label: Seq<char>, items: Seq<Seq<char>>) -> Seq<char> {
    if items.len() == 0 {
        Seq::empty()
    } else {
        label + crate::text::join_with(items, ","@) + "]"@
    }
}

fn push_group(out: &mut String, label: &str, items: &Vec<String>)
    ensures
        final(out)@ == old(out)@ + group_tag(label@, string_views(items@)),
{
    if items.len() > 0 {
        let ghost start = out@;
        out.append(label);
        let j = crate::text::join_strings(items, ",");
        assert(items@.map_values(|w: String| w@) =~= string_views(items@));
        out.append(j.as_str());
        out.append("]");
        assert(out@ =~= start + group_tag(label@, string_views(items@)));
    } else {
        assert(out@ =~= old(out)@ + group_tag(label@, string_views(items@)));
    }
}

fn push_line(out: &mut String, n: &TreeNode)
    ensures
        final(out)@ == old(out)@ + node_line(*n),
{
    let ghost start = out@;
    push_head(out, n);
    let ghost h = out@;
    push_actions(out, &n.actions);
    let ghost a = out@;
    push_group(out, " [modules=", &n.modules);
    let ghost m = out@;
    push_group(out, " [sources=", &n.sources);
    let ghost so = out@;
    out.append("\n");
    proof {
        let k = key_of(*n);
        let hd = indent(k.len()) + node_name(k) + " ("@ + tree_file_type_name(n.file_type) + ")"@;
        let at = action_tags(string_views(n.actions@));
        let mt = group_tag(" [modules="@, string_views(n.modules@));
        let st = group_tag(" [sources="@, string_views(n.sources@));
        assert(h =~= start + hd);
        assert(a =~= start + hd + at);
        assert(m =~= start + hd + at + mt);
        assert(so =~= start + hd + at + mt + st);
        assert(n.modules@.len() == 0 <==> string_views(n.modules@).len() == 0);
        assert(n.sources@.len() == 0 <==> string_views(n.sources@).len() == 0);
        assert(node_line(*n) =~= hd + at + mt + st + "\n"@);
        assert(out@ =~= start + node_line(*n));
    }
}

impl RuleTree {
    /// The dump of the tree.
    pub fn render(&self) -> (r: String)
        ensures
            r@ == tree_text(self.nodes@),
    {
        let mut out = String::new();
        let mut i: usize = 0;
        while i < self.nodes.len()
            invariant
                i <= self.nodes@.len(),
                out@ == tree_text(self.nodes@.take(i as int)),
            decreases self.nodes@.len() - i,
        {
            push_line(&mut out, &self.nodes[i]);
            assert(self.nodes@.take(i + 1).drop_last() =~= self.nodes@.take(i as int));
            i = i + 1;
        }
        assert(self.nodes@.take(self.nodes@.len() as int) =~= self.nodes@);
        out
    }
}

proof fn lemma_keys_unique(a: Seq<TreeNode>, b: Seq<TreeNode>)
    requires
        keys_sorted(a),
        keys_sorted(b),
        forall|k: Seq<Seq<char>>| has_key(a, k) == has_key(b, k),
    ensures
        a.len() == b.len(),
        forall|i: int| 0 <= i < a.len() ==> key_of(a[i]) == key_of(b[i]),
    decreases a.len(),
{
    if a.len() == 0 {
        if b.len() > 0 {
            assert(has_key(b, key_of(b[0])));
            assert(has_key(a, key_of(b[0])));
        }
    } else if b.len() == 0 {
        assert(has_key(a, key_of(a[0])));
        assert(has_key(b, key_of(a[0])));
    } else {
        let ka = key_of(a[0]);
        let kb = key_of(b[0]);
        assert(has_key(a, ka));
        assert(has_key(b, kb));
        if ka != kb {
            assert(has_key(b, ka));
            let ib = choose|i: int| 0 <= i < b.len() && key_of(b[i]) == ka;
            assert(ib != 0);
            assert(key_lt(key_of(b[0]), key_of(b[ib])));
            assert(has_key(a, kb));
            let ia = choose|i: int| 0 <= i < a.len() && key_of(a[i]) == kb;
            assert(ia != 0);
            assert(key_lt(key_of(a[0]), key_of(a[ia])));
            lemma_key_asymmetric(ka, kb);
        }
        let ra = a.drop_first();
        let rb = b.drop_first();
        assert forall|i: int, j: int| 0 <= i < j < ra.len() implies key_lt(#[trigger] key_of(ra[i]), #[trigger] key_of(ra[j])) by {
            assert(ra[i] == a[i + 1] && ra[j] == a[j + 1]);
        }
        assert forall|i: int, j: int| 0 <= i < j < rb.len() implies key_lt(#[trigger] key_of(rb[i]), #[trigger] key_of(rb[j])) by {
            assert(rb[i] == b[i + 1] && rb[j] == b[j + 1]);
        }
        assert forall|k: Seq<Seq<char>>| has_key(ra, k) == has_key(rb, k) by {
            if has_key(ra, k) {
                let i = choose|i: int| 0 <= i < ra.len() && key_of(ra[i]) == k;
                assert(key_of(a[i + 1]) == k);
                assert(key_lt(ka, k));
                lemma_key_irreflexive(k);
                assert(has_key(a, k));
                assert(has_key(b, k));
                let j = choose|j: int| 0 <= j < b.len() && key_of(b[j]) == k;
                assert(j != 0);
                assert(key_of(rb[j - 1]) == k);
            }
            if has_key(rb, k) {
                let i = choose|i: int| 0 <= i < rb.len() && key_of(rb[i]) == k;
                assert(key_of(b[i + 1]) == k);
                assert(key_lt(kb, k));
                lemma_key_irreflexive(k);
                assert(has_key(b, k));
                assert(has_key(a, k));
                let j = choose|j: int| 0 <= j < a.len() && key_of(a[j]) == k;
                assert(j != 0);
                assert(key_of(ra[j - 1]) == k);
            }
        }
        lemma_keys_unique(ra, rb);
        assert forall|i: int| 0 <= i < a.len() implies key_of(a[i]) == key_of(b[i]) by {
            if i > 0 {
                assert(a[i] == ra[i - 1] && b[i] == rb[i - 1]);
            }
        }
    }
}

proof fn lemma_text_eq(s1: Seq<TreeNode>, s2: Seq<TreeNode>)
    requires
        s1.len() == s2.len(),
        forall|i: int| 0 <= i < s1.len() ==> node_line(s1[i]) == node_line(s2[i]),
    ensures
        tree_text(s1) == tree_text(s2),
    decreases s1.len(),
{
    if s1.len() > 0 {
        lemma_text_eq(s1.drop_last(), s2.drop_last());
        assert(node_line(s1.last()) == node_line(s2[s2.len() - 1]));
    }
}

/// The dump is a function of the tree: two trees that hold the same nodes
/// at the same paths print the same text.
pub proof fn lemma_text_determined(s1: Seq<TreeNode>, s2: Seq<TreeNode>)
    requires
        tree_ok(s1),
        tree_ok(s2),
        tree_map(s1) == tree_map(s2),
    ensures
        tree_text(s1) == tree_text(s2),
{
    assert forall|k: Seq<Seq<char>>| has_key(s1, k) == has_key(s2, k) by {
        assert(tree_map(s1).contains_key(k) == has_key(s1, k));
        assert(tree_map(s2).contains_key(k) == has_key(s2, k));
    }
    lemma_keys_unique(s1, s2);
    assert forall|i: int| 0 <= i < s1.len() implies node_line(s1[i]) == node_line(s2[i]) by {
        let k = key_of(s1[i]);
        lemma_pick(s1, i);
        lemma_pick(s2, i);
        assert(tree_map(s1)[k] == node_view(s1[i]));
        assert(tree_map(s2)[k] == node_view(s2[i]));
        let (a, b) = (s1[i], s2[i]);
        assert(node_ok(a) && node_ok(b));
        crate::strset::lemma_sorted_set_unique(string_views(a.actions@), string_views(b.actions@));
        crate::strset::lemma_sorted_set_unique(string_views(a.modules@), string_views(b.modules@));
        assert(a.modules@.len() == string_views(a.modules@).len());
        assert(b.modules@.len() == string_views(b.modules@).len());
        assert(a.sources@.len() == string_views(a.sources@).len());
        assert(b.sources@.len() == string_views(b.sources@).len());
    }
    lemma_text_eq(s1, s2);
}

/// The names of a path that are real names: without `..`.
pub open spec fn normal_names(names: Seq<Seq<char>>) -> Seq<Seq<char>>
    decreases names.len(),
{
    if names.len() == 0 {
        Seq::empty()
    } else {
        let prev = normal_names(names.drop_last());
        if names.last() == seq!['.', '.'] {
            prev
        } else {
            prev.push(names.last())
        }
    }
}

/// Where a rule's target sits in the tree: the names of its path.
pub open spec fn tree_parts(p: Seq<char>) -> Seq<Seq<char>> {
    normal_names(crate::paths::path_view(p).names)
}

/// The components of a path as `Path::components` gives them, the root
/// written `/` and a leading current directory `.`.
pub open spec fn components(p: Seq<char>) -> Seq<Seq<char>> {
    let v = crate::paths::path_view(p);
    (if v.rooted {
        seq![seq!['/']]
    } else {
        Seq::<Seq<char>>::empty()
    }) + (if v.cur {
        seq![seq!['.']]
    } else {
        Seq::<Seq<char>>::empty()
    }) + v.names
}

pub open spec fn is_normal(c: Seq<char>) -> bool {
    c != seq!['/'] && c != seq!['.'] && c != seq!['.', '.']
}

/// The first plain name among the components.
pub open spec fn first_normal(cs: Seq<Seq<char>>) -> Option<Seq<char>>
    decreases cs.len(),
{
    if cs.len() == 0 {
        None
    } else if is_normal(cs[0]) {
        Some(cs[0])
    } else {
        first_normal(cs.drop_first())
    }
}

pub open spec fn comps_prefix(a: Seq<Seq<char>>, b: Seq<Seq<char>>) -> bool {
    a.len() <= b.len() && b.take(a.len() as int) == a
}

/// The module a rule's source belongs to: the first name under the
/// modules directory, or else under the mirror.
pub open spec fn module_of_source(source: Seq<char>, mirror: Seq<char>) -> Option<Seq<char>> {
    let sc = components(source);
    let mc = components(crate::defs::MODULES_DIR@);
    let rc = components(mirror);
    if comps_prefix(mc, sc) {
        first_normal(sc.skip(mc.len() as int))
    } else if comps_prefix(rc, sc) {
        first_normal(sc.skip(rc.len() as int))
    } else {
        None
    }
}

fn components_exec(p: &str) -> (r: Vec<String>)
    ensures
        string_views(r@) == components(p@),
{
    let parts = crate::paths::path_parts(p);
    let mut r: Vec<String> = Vec::new();
    if parts.rooted {
        r.push(String::from_str("/"));
    }
    if parts.cur {
        r.push(String::from_str("."));
    }
    proof {
        reveal_strlit("/");
        reveal_strlit(".");
        assert("/"@ =~= seq!['/']);
        assert("."@ =~= seq!['.']);
    }
    let ghost head = string_views(r@);
    assert(head =~= (if parts.rooted {
        seq![seq!['/']]
    } else {
        Seq::<Seq<char>>::empty()
    }) + (if parts.cur {
        seq![seq!['.']]
    } else {
        Seq::<Seq<char>>::empty()
    }));
    let ghost nv = parts.names@.map_values(|n: String| n@);
    let mut i: usize = 0;
    while i < parts.names.len()
        invariant
            i <= parts.names@.len(),
            nv == parts.names@.map_values(|n: String| n@),
            string_views(r@) == head + nv.take(i as int),
        decreases parts.names@.len() - i,
    {
        let ghost before = string_views(r@);
        r.push(parts.names[i].clone());
        assert(string_views(r@) =~= before.push(nv[i as int]));
        assert(nv.take(i + 1) =~= nv.take(i as int).push(nv[i as int]));
        i = i + 1;
    }
    assert(nv.take(nv.len() as int) =~= nv);
    r
}

fn prefix_exec(a: &Vec<String>, b: &Vec<String>) -> (r: bool)
    ensures
        r == comps_prefix(string_views(a@), string_views(b@)),
{
    let ghost av = string_views(a@);
    let ghost bv = string_views(b@);
    if a.len() > b.len() {
        return false;
    }
    let mut i: usize = 0;
    while i < a.len()
        invariant
            i <= a@.len() <= b@.len(),
            av == string_views(a@),
            bv == string_views(b@),
            forall|j: int| 0 <= j < i ==> av[j] == bv[j],
        decreases a@.len() - i,
    {
        if a[i] != b[i] {
            assert(bv.take(av.len() as int)[i as int] != av[i as int]);
            return false;
        }
        i = i + 1;
    }
    assert(bv.take(av.len() as int) =~= av);
    true
}

fn is_normal_exec(s: &String) -> (r: bool)
    ensures
        r == is_normal(s@),
{
    let v = crate::text::chars_of(s.as_str());
    if v.len() == 1 && (v[0] == '/' || v[0] == '.') {
        assert(v@ =~= seq![v@[0]]);
        return false;
    }
    if v.len() == 2 && v[0] == '.' && v[1] == '.' {
        assert(v@ =~= seq!['.', '.']);
        return false;
    }
    proof {
        if v@.len() == 1 {
            assert(v@ != seq!['/'] && v@ != seq!['.']) by {
                if v@ == seq!['/'] {
                    assert(v@[0] == '/');
                }
                if v@ == seq!['.'] {
                    assert(v@[0] == '.');
                }
            }
        }
        if v@.len() == 2 {
            assert(v@ != seq!['.', '.']) by {
                if v@ == seq!['.', '.'] {
                    assert(v@[0] == '.' && v@[1] == '.');
                }
            }
        }
    }
    true
}

fn first_normal_from(cs: &Vec<String>, start: usize) -> (r: Option<String>)
    requires
        start <= cs@.len(),
    ensures
        opt_string(r) == first_normal(string_views(cs@).skip(start as int)),
{
    let ghost cv = string_views(cs@);
    let mut i: usize = start;
    while i < cs.len()
        invariant
            start <= i <= cs@.len(),
            cv == string_views(cs@),
            first_normal(cv.skip(start as int)) == first_normal(cv.skip(i as int)),
        decreases cs@.len() - i,
    {
        assert(cv.skip(i as int)[0] == cv[i as int]);
        let normal = is_normal_exec(&cs[i]);
        if normal {
            return Some(cs[i].clone());
        }
        assert(cv.skip(i as int).drop_first() =~= cv.skip(i + 1));
        i = i + 1;
    }
    None
}

pub open spec fn opt_string(o: Option<String>) -> Option<Seq<char>> {
    match o {
        Some(s) => Some(s@),
        None => None,
    }
}

/// The module of a rule's source (see `module_of_source`).
pub fn extract_module_id_from_source(source: &str, mirror_path: &str) -> (r: Option<String>)
    ensures
        opt_string(r) == module_of_source(source@, mirror_path@),
{
    let sc = components_exec(source);
    let mc = components_exec(crate::defs::MODULES_DIR);
    if prefix_exec(&mc, &sc) {
        return first_normal_from(&sc, mc.len());
    }
    let rc = components_exec(mirror_path);
    if prefix_exec(&rc, &sc) {
        return first_normal_from(&sc, rc.len());
    }
    None
}

/// The tree path of a rule's target (see `tree_parts`).
pub fn tree_parts_exec(p: &str) -> (r: Vec<Vec<char>>)
    ensures
        char_views(r@) == tree_parts(p@),
{
    let parts = crate::paths::path_parts(p);
    let ghost nv = parts.names@.map_values(|n: String| n@);
    let mut r: Vec<Vec<char>> = Vec::new();
    let mut i: usize = 0;
    while i < parts.names.len()
        invariant
            i <= parts.names@.len(),
            nv == parts.names@.map_values(|n: String| n@),
            char_views(r@) == normal_names(nv.take(i as int)),
        decreases parts.names@.len() - i,
    {
        assert(nv.take(i + 1).drop_last() =~= nv.take(i as int));
        assert(nv.take(i + 1).last() == nv[i as int]);
        let c = crate::text::chars_of(parts.names[i].as_str());
        let dots = c.len() == 2 && c[0] == '.' && c[1] == '.';
        proof {
            if c@.len() == 2 && c@[0] == '.' && c@[1] == '.' {
                assert(c@ =~= seq!['.', '.']);
            }
        }
        if !dots {
            let ghost before = char_views(r@);
            r.push(c);
            assert(char_views(r@) =~= before.push(nv[i as int]));
        }
        i = i + 1;
    }
    assert(nv.take(nv.len() as int) =~= nv);
    r
}

/// The tree of the root alone.
pub open spec fn root_map() -> Map<Seq<Seq<char>>, NodeView> {
    Map::<Seq<Seq<char>>, NodeView>::empty().insert(
        Seq::empty(),
        NodeView {
            file_type: HymofsTreeFileType::Root,
            actions: Set::empty(),
            modules: Set::empty(),
            sources: Seq::empty(),
        },
    )
}

/// `m` with the merge rules added, in order.
pub open spec fn merges_in(m: Map<Seq<Seq<char>>, NodeView>, rules: Seq<HymofsMergeRule>, mirror: Seq<char>) -> Map<Seq<Seq<char>>, NodeView>
    decreases rules.len(),
{
    if rules.len() == 0 {
        m
    } else {
        let r = rules.last();
        rule_inserted(
            merges_in(m, rules.drop_last(), mirror),
            tree_parts(r.target@),
            HymofsTreeFileType::Directory,
            "MERGE"@,
            Some(r.source@),
            module_of_source(r.source@, mirror),
        )
    }
}

/// `m` with the add rules added, in order.
pub open spec fn adds_in(m: Map<Seq<Seq<char>>, NodeView>, rules: Seq<HymofsAddRule>, mirror: Seq<char>) -> Map<Seq<Seq<char>>, NodeView>
    decreases rules.len(),
{
    if rules.len() == 0 {
        m
    } else {
        let r = rules.last();
        rule_inserted(
            adds_in(m, rules.drop_last(), mirror),
            tree_parts(r.target@),
            tree_type_of_dtype(r.file_type),
            "ADD"@,
            Some(r.source@),
            module_of_source(r.source@, mirror),
        )
    }
}

/// `m` with the hidden paths added under `action`, in order.
pub open spec fn hides_in(m: Map<Seq<Seq<char>>, NodeView>, paths: Seq<Seq<char>>, action: Seq<char>) -> Map<Seq<Seq<char>>, NodeView>
    decreases paths.len(),
{
    if paths.len() == 0 {
        m
    } else {
        rule_inserted(
            hides_in(m, paths.drop_last(), action),
            tree_parts(paths.last()),
            HymofsTreeFileType::Hidden,
            action,
            None,
            None,
        )
    }
}

/// The tree of the compiled rules: the merges, then the adds, then the
/// hidden paths, then the paths the user hides.
pub open spec fn compiled_tree(c: CompiledRules, mirror: Seq<char>, user_hide: Seq<Seq<char>>) -> Map<Seq<Seq<char>>, NodeView> {
    hides_in(
        hides_in(
            adds_in(merges_in(root_map(), c.merge_rules@, mirror), c.add_rules@, mirror),
            string_views(c.hide_rules@),
            "HIDE"@,
        ),
        user_hide,
        "USER_HIDE"@,
    )
}

fn opt_as_str(o: &Option<String>) -> (r: Option<&str>)
    ensures
        opt_str(r) == opt_string(*o),
{
    match o {
        Some(s) => Some(s.as_str()),
        None => None,
    }
}

fn hide_all(t: &mut RuleTree, paths: &Vec<String>, action: &str)
    requires
        old(t).wf(),
    ensures
        final(t).wf(),
        final(t).map() == hides_in(old(t).map(), string_views(paths@), action@),
{
    let ghost m0 = t.map();
    let ghost pv = string_views(paths@);
    let mut i: usize = 0;
    while i < paths.len()
        invariant
            i <= paths@.len(),
            pv == string_views(paths@),
            t.wf(),
            t.map() == hides_in(m0, pv.take(i as int), action@),
        decreases paths@.len() - i,
    {
        let comps = tree_parts_exec(paths[i].as_str());
        t.insert_rule(&comps, HymofsTreeFileType::Hidden, action, None, None);
        assert(pv.take(i + 1).drop_last() =~= pv.take(i as int));
        assert(pv.take(i + 1).last() == paths@[i as int]@);
        i = i + 1;
    }
    assert(pv.take(paths@.len() as int) =~= pv);
}

/// The tree of the compiled rules (see `compiled_tree`).
pub fn build_compiled_tree(compiled: &CompiledRules, mirror_path: &str, user_hide_paths: &Vec<String>) -> (r: RuleTree)
    ensures
        r.wf(),
        r.map() == compiled_tree(*compiled, mirror_path@, string_views(user_hide_paths@)),
{
    let mut t = RuleTree::new_root();
    let ghost m0 = t.map();
    let mut i: usize = 0;
    while i < compiled.merge_rules.len()
        invariant
            i <= compiled.merge_rules@.len(),
            t.wf(),
            t.map() == merges_in(m0, compiled.merge_rules@.take(i as int), mirror_path@),
        decreases compiled.merge_rules@.len() - i,
    {
        let rule = &compiled.merge_rules[i];
        let comps = tree_parts_exec(rule.target.as_str());
        let module = extract_module_id_from_source(rule.source.as_str(), mirror_path);
        t.insert_rule(&comps, HymofsTreeFileType::Directory, "MERGE", Some(rule.source.as_str()), opt_as_str(&module));
        assert(compiled.merge_rules@.take(i + 1).drop_last() =~= compiled.merge_rules@.take(i as int));
        i = i + 1;
    }
    assert(compiled.merge_rules@.take(compiled.merge_rules@.len() as int) =~= compiled.merge_rules@);
    let ghost m1 = t.map();
    let mut i: usize = 0;
    while i < compiled.add_rules.len()
        invariant
            i <= compiled.add_rules@.len(),
            t.wf(),
            t.map() == adds_in(m1, compiled.add_rules@.take(i as int), mirror_path@),
        decreases compiled.add_rules@.len() - i,
    {
        let rule = &compiled.add_rules[i];
        let comps = tree_parts_exec(rule.target.as_str());
        let module = extract_module_id_from_source(rule.source.as_str(), mirror_path);
        let leaf = tree_file_type_from_dtype(rule.file_type);
        t.insert_rule(&comps, leaf, "ADD", Some(rule.source.as_str()), opt_as_str(&module));
        assert(compiled.add_rules@.take(i + 1).drop_last() =~= compiled.add_rules@.take(i as int));
        i = i + 1;
    }
    assert(compiled.add_rules@.take(compiled.add_rules@.len() as int) =~= compiled.add_rules@);
    hide_all(&mut t, &compiled.hide_rules, "HIDE");
    hide_all(&mut t, user_hide_paths, "USER_HIDE");
    t
}

/// The debug dump of the compiled rules as a tree; nothing when there are
/// no rules and no hidden paths.
pub fn render_compiled_tree(compiled: &CompiledRules, mirror_path: &str, user_hide_paths: &Vec<String>) -> (r: Option<String>)
    ensures
        r is None <==> (compiled.add_rules@.len() == 0 && compiled.merge_rules@.len() == 0
            && compiled.hide_rules@.len() == 0 && user_hide_paths@.len() == 0),
        r matches Some(text) ==> exists|s: Seq<TreeNode>|
            tree_ok(s) && tree_map(s) == compiled_tree(*compiled, mirror_path@, string_views(user_hide_paths@))
                && text@ == tree_text(s),
{
    if compiled.add_rules.len() == 0 && compiled.merge_rules.len() == 0 && compiled.hide_rules.len() == 0
        && user_hide_paths.len() == 0 {
        return None;
    }
    let t = build_compiled_tree(compiled, mirror_path, user_hide_paths);
    let text = t.render();
    assert(tree_ok(t.nodes@) && tree_map(t.nodes@) == compiled_tree(*compiled, mirror_path@, string_views(user_hide_paths@)) && text@ == tree_text(t.nodes@));
    Some(text)
}

} // verus!
