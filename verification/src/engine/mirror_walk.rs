//! The walk over a module's HymoFS mirror that compiles it into rules: the
//! partition roots to walk, and one step per entry, depth first, in the
//! order the directories list their entries.
use vstd::prelude::*;

use crate::domain::ModuleRules;
use crate::engine::hymofs::{build_dtype, compile_entry, compile_step, dtype_of, CompileStep, CompiledRules, EntryKind};
use crate::engine::hymofs_path::{probe_count, resolve_path_for_hymofs_with_root, resolved};
use crate::engine::planner::{join_name, join_path};
use crate::paths::{path_view, rooted_text};
use crate::strset::{lemma_sorted_seq, sorted_seq, sorted_unique, string_views};

verus! {

/// The partition roots of a module's mirror that are walked, in partition
/// order: those that are directories, each real directory once (the first
/// partition whose root resolves to it).
pub open spec fn roots_to_walk(roots: Seq<Seq<char>>, is_dir: Seq<bool>, canonical: Seq<Seq<char>>) -> Seq<int>
    decreases roots.len(),
{
    if roots.len() == 0 {
        Seq::empty()
    } else {
        let n = roots.len() - 1;
        let prev = roots_to_walk(roots.drop_last(), is_dir.drop_last(), canonical.drop_last());
        if is_dir[n] && !(exists|k: int| 0 <= k < n && is_dir[k] && canonical[k] == canonical[n]) {
            prev.push(n)
        } else {
            prev
        }
    }
}

/// Picks the partition roots to walk (see `roots_to_walk`): `is_dir` and
/// `canonical` say, for each root in order, whether it is a directory and
/// where it resolves to.
pub fn partition_roots_to_walk(roots: &Vec<String>, is_dir: &Vec<bool>, canonical: &Vec<String>) -> (r: Vec<usize>)
    requires
        roots@.len() == is_dir@.len(),
        roots@.len() == canonical@.len(),
    ensures
        r@.map_values(|i: usize| i as int) == roots_to_walk(string_views(roots@), is_dir@, string_views(canonical@)),
{
    let ghost rv = string_views(roots@);
    let ghost cv = string_views(canonical@);
    let mut out: Vec<usize> = Vec::new();
    let mut i: usize = 0;
    while i < roots.len()
        invariant
            i <= roots@.len(),
            roots@.len() == is_dir@.len(),
            roots@.len() == canonical@.len(),
            rv == string_views(roots@),
            cv == string_views(canonical@),
            out@.map_values(|i: usize| i as int) == roots_to_walk(rv.take(i as int), is_dir@.take(i as int), cv.take(i as int)),
        decreases roots@.len() - i,
    {
        let ghost rt = rv.take(i + 1);
        let ghost dt = is_dir@.take(i + 1);
        let ghost ct = cv.take(i + 1);
        assert(rt.drop_last() =~= rv.take(i as int));
        assert(dt.drop_last() =~= is_dir@.take(i as int));
        assert(ct.drop_last() =~= cv.take(i as int));
        let mut seen = false;
        if is_dir[i] {
            let mut k: usize = 0;
            while k < i && !seen
                invariant
                    k <= i < canonical@.len(),
                    i < is_dir@.len(),
                    cv == string_views(canonical@),
                    dt == is_dir@.take(i + 1),
                    ct == cv.take(i + 1),
                    seen ==> exists|j: int| 0 <= j < i && dt[j] && ct[j] == ct[i as int],
                    !seen ==> forall|j: int| 0 <= j < k ==> !(dt[j] && ct[j] == ct[i as int]),
                decreases i - k,
            {
                if is_dir[k] && canonical[k] == canonical[i] {
                    assert(dt[k as int] && ct[k as int] == ct[i as int]);
                    seen = true;
                }
                k = k + 1;
            }
        }
        proof {
            let n = i as int;
            assert(rt.len() - 1 == n);
            if !is_dir@[n] {
                assert(!dt[n]);
            }
            assert((is_dir@[n] && !seen) == (dt[n] && !(exists|j: int| 0 <= j < n && dt[j] && ct[j] == ct[n]))) by {
                if is_dir@[n] && !seen {
                    assert(forall|j: int| 0 <= j < n ==> !(dt[j] && ct[j] == ct[n]));
                }
            }
        }
        let ghost prev = out@.map_values(|i: usize| i as int);
        if is_dir[i] && !seen {
            out.push(i);
            assert(out@.map_values(|i: usize| i as int) =~= prev.push(i as int));
        }
        i = i + 1;
    }
    assert(rv.take(roots@.len() as int) =~= rv);
    assert(is_dir@.take(roots@.len() as int) =~= is_dir@);
    assert(cv.take(roots@.len() as int) =~= cv);
    out
}

/// An entry of the mirror still to look at.
#[derive(Debug, Clone)]
pub struct CompileItem {
    /// Where it is.
    pub path: String,
    /// Its path below the module's mirror root.
    pub relative: String,
    pub file_name: String,
}


pub open spec fn item_view(i: CompileItem) -> (Seq<char>, Seq<char>, Seq<char>) {
    (i.path@, i.relative@, i.file_name@)
}

pub open spec fn stack_view(s: Seq<CompileItem>) -> Seq<(Seq<char>, Seq<char>, Seq<char>)> {
    s.map_values(|i: CompileItem| item_view(i))
}

/// The entries of a directory at `path` (`relative` below the mirror
/// root), as they are pushed: the last of `names` first, so that the
/// first is looked at next.
pub open spec fn pushed_children(path: Seq<char>, relative: Seq<char>, names: Seq<Seq<char>>) -> Seq<(Seq<char>, Seq<char>, Seq<char>)>
    decreases names.len(),
{
    if names.len() == 0 {
        Seq::empty()
    } else {
        let n = names.last();
        seq![(join_name(path, n), join_name(relative, n), n)] + pushed_children(path, relative, names.drop_last())
    }
}

/// The names of `relative`, below `/`, as the rules address it.
pub open spec fn virtual_names(relative: Seq<char>) -> Seq<Seq<char>> {
    path_view(join_name("/"@, relative)).names
}

/// Where the rule for an entry at `relative` is anchored (see
/// `resolve_path_for_hymofs_with_root`).
pub open spec fn entry_target(system_root: Seq<char>, relative: Seq<char>, present: Seq<bool>) -> Seq<char> {
    rooted_text(resolved(path_view(system_root).names, virtual_names(relative), present))
}

/// The walk over one partition root of a module's mirror.
#[derive(Debug)]
pub struct CompileWalk {
    /// The entries still to look at; the last is next.
    pub stack: Vec<CompileItem>,
}

/// The names a directory lists, in name order, each once: the order the
/// walk looks at them in.
pub open spec fn walk_order(names: Seq<String>) -> Seq<Seq<char>> {
    sorted_seq(string_views(names).to_set())
}

/// Pushes the entries `listed` names, to be looked at in name order.
fn push_children(stack: &mut Vec<CompileItem>, path: &str, relative: &str, listed: &Vec<String>)
    ensures
        stack_view(final(stack)@) == stack_view(old(stack)@) + pushed_children(path@, relative@, walk_order(listed@)),
{
    let names = sorted_unique(listed);
    proof {
        lemma_sorted_seq(string_views(names@));
    }
    let names = &names;
    let ghost nv = string_views(names@);
    let ghost start = stack_view(stack@);
    let mut k: usize = names.len();
    assert(nv.take(nv.len() as int) =~= nv);
    assert(start + pushed_children(path@, relative@, nv.skip(nv.len() as int).take(0)) =~= start);
    while k > 0
        invariant
            k <= names@.len(),
            nv == string_views(names@),
            stack_view(stack@) + pushed_children(path@, relative@, nv.take(k as int)) == start + pushed_children(path@, relative@, nv),
        decreases k,
    {
        let name = names[k - 1].as_str();
        let item = CompileItem {
            path: join_path(path, name),
            relative: join_path(relative, name),
            file_name: String::from_str(name),
        };
        let ghost before = stack_view(stack@);
        stack.push(item);
        proof {
            let t = nv.take(k as int);
            assert(t.drop_last() =~= nv.take(k - 1));
            assert(t.last() == nv[k - 1]);
            assert(stack_view(stack@) =~= before.push(item_view(item)));
            assert(before.push(item_view(item)) + pushed_children(path@, relative@, nv.take(k - 1)) =~= before
                + pushed_children(path@, relative@, t));
        }
        k = k - 1;
    }
    assert(nv.take(0) =~= Seq::<Seq<char>>::empty());
    assert(stack_view(stack@) + Seq::<(Seq<char>, Seq<char>, Seq<char>)>::empty() =~= stack_view(stack@));
}

impl CompileWalk {
    /// The walk over the partition root at `root_path` of partition
    /// `partition`, whose directory lists `names`; entries are looked at in
    /// name order.
    pub fn new(root_path: &str, partition: &str, names: &Vec<String>) -> (r: Self)
        ensures
            stack_view(r.stack@) == pushed_children(root_path@, partition@, walk_order(names@)),
    {
        let mut stack: Vec<CompileItem> = Vec::new();
        assert(stack_view(stack@) =~= Seq::<(Seq<char>, Seq<char>, Seq<char>)>::empty());
        push_children(&mut stack, root_path, partition, names);
        assert(Seq::<(Seq<char>, Seq<char>, Seq<char>)>::empty() + pushed_children(root_path@, partition@, walk_order(names@))
            =~= pushed_children(root_path@, partition@, walk_order(names@)));
        CompileWalk { stack }
    }

    /// The entry to look at next, if any is left.
    pub fn next_item(&self) -> (r: Option<&CompileItem>)
        ensures
            self.stack@.len() == 0 ==> r is None,
            self.stack@.len() > 0 ==> (r matches Some(i) && *i == self.stack@.last()),
    {
        if self.stack.len() == 0 {
            None
        } else {
            Some(&self.stack[self.stack.len() - 1])
        }
    }

    /// Where the rule for the next entry is anchored under `system_root`,
    /// given the existence of the paths `hymofs_probe_paths` lists for it.
    pub fn next_target(&self, system_root: &str, present: &Vec<bool>) -> (r: String)
        requires
            self.stack@.len() > 0,
            path_view(system_root@).rooted,
            present@.len() == probe_count(path_view(system_root@).names, virtual_names(self.stack@.last().relative@)),
        ensures
            r@ == entry_target(system_root@, self.stack@.last().relative@, present@),
    {
        let item = &self.stack[self.stack.len() - 1];
        let v = join_path("/", item.relative.as_str());
        proof {
            reveal_strlit("/");
        }
        resolve_path_for_hymofs_with_root(system_root, v.as_str(), present)
    }

    /// Looks at the next entry: what it is (`kind`, and `rdev` for a
    /// device), whether its anchored target exists and is a directory, and
    /// for a directory the names it lists, which are looked at next, in name
    /// order. The entry's step (see
    /// `compile_step`) goes into `compiled` with the anchored target and the
    /// entry's path; a directory that is not merged is walked into.
    pub fn visit(
        &mut self,
        compiled: &mut CompiledRules,
        rules: &ModuleRules,
        system_root: &str,
        present: &Vec<bool>,
        kind: EntryKind,
        rdev: u64,
        target_exists: bool,
        target_is_dir: bool,
        children: &Vec<String>,
    ) -> (step: CompileStep)
        requires
            old(self).stack@.len() > 0,
            rules.well_formed(),
            path_view(system_root@).rooted,
            present@.len() == probe_count(
                path_view(system_root@).names,
                virtual_names(old(self).stack@.last().relative@),
            ),
        ensures
            ({
                let item = old(self).stack@.last();
                &&& step == compile_step(
                    *rules,
                    item.relative@,
                    item.file_name@,
                    kind,
                    target_exists,
                    target_is_dir,
                    dtype_of(kind, rdev),
                )
                &&& stack_view(final(self).stack@) == stack_view(old(self).stack@.drop_last()) + (if kind
                    == EntryKind::Dir && step != CompileStep::Merge {
                    pushed_children(item.path@, item.relative@, walk_order(children@))
                } else {
                    Seq::empty()
                })
                &&& CompiledRules::recorded(
                    *old(compiled),
                    *final(compiled),
                    step,
                    entry_target(system_root@, item.relative@, present@),
                    item.path@,
                )
            }),
    {
        let target = self.next_target(system_root, present);
        let item = self.stack.pop().unwrap();
        let dtype = build_dtype(kind, rdev);
        let step = compile_entry(
            rules,
            item.relative.as_str(),
            item.file_name.as_str(),
            kind,
            target_exists,
            target_is_dir,
            dtype,
        );
        let ghost base = self.stack@;
        assert(stack_view(base) == stack_view(old(self).stack@.drop_last()));
        let descend = kind == EntryKind::Dir && step != CompileStep::Merge;
        if descend {
            push_children(&mut self.stack, item.path.as_str(), item.relative.as_str(), children);
        } else {
            assert(stack_view(self.stack@) + Seq::<(Seq<char>, Seq<char>, Seq<char>)>::empty() =~= stack_view(self.stack@));
        }
        compiled.record(step, target, item.path);
        step
    }
}

} // verus!
