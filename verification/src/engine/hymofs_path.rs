//! Where a HymoFS rule for a path is anchored below a system root.
//!
//! The path is moved under the system root, and the walk goes up from its
//! parent until it meets the root, an ancestor that exists, or `/`. The
//! path is kept in its symlink-prefixed form (no canonicalisation), and
//! the result is given back relative to the system root again.
use vstd::prelude::*;

use crate::paths::{path_parts, path_view, rooted_string, rooted_text};

verus! {

/// The names held by a vector of strings.
pub open spec fn names_of(v: Seq<String>) -> Seq<Seq<char>> {
    v.map_values(|n: String| n@)
}

/// The `..` component.
pub open spec fn is_parent_name(c: Seq<char>) -> bool {
    c == seq!['.', '.']
}

/// The names of `s` other than `..`, in order.
pub open spec fn without_parent_names(s: Seq<Seq<char>>) -> Seq<Seq<char>>
    decreases s.len(),
{
    if s.len() == 0 {
        Seq::empty()
    } else {
        let prev = without_parent_names(s.drop_last());
        if is_parent_name(s.last()) {
            prev
        } else {
            prev.push(s.last())
        }
    }
}

/// The components of `path` placed under `root`.
pub open spec fn translated(root: Seq<Seq<char>>, names: Seq<Seq<char>>) -> Seq<Seq<char>> {
    root + names
}

/// The translated path has a parent and a file name: it is not `/` and
/// does not end in `..`.
pub open spec fn anchored(root: Seq<Seq<char>>, names: Seq<Seq<char>>) -> bool {
    let t = translated(root, names);
    t.len() > 0 && !is_parent_name(t.last())
}

/// How many ancestors of the translated path's parent the walk can ask
/// about, the parent itself first.
pub open spec fn probe_count(root: Seq<Seq<char>>, names: Seq<Seq<char>>) -> nat {
    if !anchored(root, names) {
        0
    } else if names.len() > 0 {
        names.len()
    } else {
        root.len()
    }
}

/// The ancestor `i` levels above `parent`.
pub open spec fn level(parent: Seq<Seq<char>>, i: nat) -> Seq<Seq<char>> {
    parent.take(parent.len() - i)
}

/// How many levels the walk goes up from `parent`: it stops at the root,
/// at an ancestor that `present` says exists, or at `/`.
pub open spec fn walk_stop(parent: Seq<Seq<char>>, root: Seq<Seq<char>>, present: Seq<bool>, i: nat) -> nat
    decreases parent.len() - i,
{
    if i >= parent.len() {
        parent.len()
    } else if level(parent, i) == root || present[i as int] {
        i
    } else {
        walk_stop(parent, root, present, i + 1)
    }
}

/// The path that is rebuilt: the ancestor the walk stopped at when it
/// exists (else the parent), the names walked over other than `..`, and
/// the file name.
pub open spec fn rebuilt(root: Seq<Seq<char>>, names: Seq<Seq<char>>, present: Seq<bool>) -> Seq<Seq<char>> {
    let t = translated(root, names);
    let parent = t.drop_last();
    let n = parent.len();
    let stop = walk_stop(parent, root, present, 0);
    let base = if present[stop as int] {
        level(parent, stop)
    } else {
        parent
    };
    base + without_parent_names(parent.subrange(n - stop, n as int)) + seq![t.last()]
}

/// The components of the anchored path, below `/` again: the rebuilt
/// path with the root taken off. Where the path cannot be anchored, or
/// the rebuilt path has left the root, the path itself below `/`.
pub open spec fn resolved(root: Seq<Seq<char>>, names: Seq<Seq<char>>, present: Seq<bool>) -> Seq<Seq<char>> {
    if !anchored(root, names) {
        names
    } else {
        let r = rebuilt(root, names, present);
        if root.len() == 0 {
            r
        } else if root.len() <= r.len() && r.take(root.len() as int) == root {
            r.skip(root.len() as int)
        } else {
            names
        }
    }
}

/// Which the `i`th path the walk asks about is, as text.
pub open spec fn probe_text(system_root: Seq<char>, path: Seq<char>, i: nat) -> Seq<char> {
    let t = translated(path_view(system_root).names, path_view(path).names);
    rooted_text(level(t.drop_last(), i))
}

fn is_parent_exec(n: &String) -> (r: bool)
    ensures
        r == is_parent_name(n@),
{
    let dd = String::from_str("..");
    proof {
        reveal_strlit("..");
    }
    assert(dd@ =~= seq!['.', '.']);
    *n == dd
}

/// Appends the names `src[from..to]`.
fn push_names(src: &Vec<String>, from: usize, to: usize, out: &mut Vec<String>)
    requires
        from <= to <= src@.len(),
    ensures
        names_of(final(out)@) == names_of(old(out)@) + names_of(src@).subrange(from as int, to as int),
{
    let ghost start = names_of(out@);
    let mut k: usize = from;
    while k < to
        invariant
            from <= k <= to <= src@.len(),
            names_of(out@) == start + names_of(src@).subrange(from as int, k as int),
        decreases to - k,
    {
        let ghost before = out@;
        out.push(src[k].clone());
        assert(names_of(out@) =~= names_of(before).push(src@[k as int]@));
        assert(names_of(src@).subrange(from as int, k + 1) =~= names_of(src@).subrange(
            from as int,
            k as int,
        ).push(src@[k as int]@));
        k = k + 1;
    }
}

/// Appends the names `src[from..to]` other than `..`.
fn push_names_without_parent(src: &Vec<String>, from: usize, to: usize, out: &mut Vec<String>)
    requires
        from <= to <= src@.len(),
    ensures
        names_of(final(out)@) == names_of(old(out)@) + without_parent_names(
            names_of(src@).subrange(from as int, to as int),
        ),
{
    let ghost start = names_of(out@);
    let mut k: usize = from;
    assert(names_of(src@).subrange(from as int, from as int) =~= Seq::<Seq<char>>::empty());
    assert(start + Seq::<Seq<char>>::empty() =~= start);
    while k < to
        invariant
            from <= k <= to <= src@.len(),
            names_of(out@) == start + without_parent_names(names_of(src@).subrange(from as int, k as int)),
        decreases to - k,
    {
        let ghost before = out@;
        let ghost sub = names_of(src@).subrange(from as int, k + 1);
        assert(sub.drop_last() =~= names_of(src@).subrange(from as int, k as int));
        assert(sub.last() == src@[k as int]@);
        if !is_parent_exec(&src[k]) {
            out.push(src[k].clone());
            assert(names_of(out@) =~= names_of(before).push(src@[k as int]@));
            assert(names_of(out@) =~= start + without_parent_names(sub));
        }
        k = k + 1;
    }
}

/// Whether `b` begins with the names of `a`.
fn names_prefix(a: &Vec<String>, b: &Vec<String>) -> (r: bool)
    ensures
        r == (a@.len() <= b@.len() && names_of(b@).take(a@.len() as int) == names_of(a@)),
{
    if a.len() > b.len() {
        return false;
    }
    let mut k: usize = 0;
    while k < a.len()
        invariant
            k <= a@.len() <= b@.len(),
            forall|j: int| 0 <= j < k ==> b@[j]@ == a@[j]@,
        decreases a@.len() - k,
    {
        if b[k] != a[k] {
            assert(names_of(b@).take(a@.len() as int)[k as int] != names_of(a@)[k as int]);
            return false;
        }
        k = k + 1;
    }
    assert(names_of(b@).take(a@.len() as int) =~= names_of(a@));
    true
}

/// The paths whose existence `resolve_path_for_hymofs_with_root` reads,
/// nearest first: the parent of `path` placed under `system_root`, then
/// each ancestor up to the root (or up to `/`).
pub fn hymofs_probe_paths(system_root: &str, path: &str) -> (r: Vec<String>)
    ensures
        r@.len() == probe_count(path_view(system_root@).names, path_view(path@).names),
        forall|i: int|
            0 <= i < r@.len() ==> #[trigger] r@[i]@ == probe_text(system_root@, path@, i as nat),
{
    let rp = path_parts(system_root);
    let pp = path_parts(path);
    let ghost root = path_view(system_root@).names;
    let ghost names = path_view(path@).names;
    let mut t: Vec<String> = Vec::new();
    push_names(&rp.names, 0, rp.names.len(), &mut t);
    push_names(&pp.names, 0, pp.names.len(), &mut t);
    assert(names_of(rp.names@).subrange(0, rp.names@.len() as int) =~= root);
    assert(names_of(pp.names@).subrange(0, pp.names@.len() as int) =~= names);
    assert(names_of(t@) =~= translated(root, names));
    let mut out: Vec<String> = Vec::new();
    if t.len() == 0 || is_parent_exec(&t[t.len() - 1]) {
        return out;
    }
    let n = t.len() - 1;
    let count = if pp.names.len() > 0 {
        pp.names.len()
    } else {
        rp.names.len()
    };
    let ghost parent = translated(root, names).drop_last();
    let mut i: usize = 0;
    while i < count
        invariant
            i <= count,
            root == path_view(system_root@).names,
            names == path_view(path@).names,
            count == probe_count(root, names),
            n + 1 == t@.len(),
            count <= n + 1,
            names_of(t@) == translated(root, names),
            parent == translated(root, names).drop_last(),
            out@.len() == i,
            forall|j: int| 0 <= j < i ==> #[trigger] out@[j]@ == probe_text(system_root@, path@, j as nat),
        decreases count - i,
    {
        let s = rooted_string(&t, n - i);
        assert(names_of(t@).take((n - i) as int) =~= level(parent, i as nat));
        assert(t@.map_values(|n: String| n@) =~= names_of(t@));
        assert(s@ == probe_text(system_root@, path@, i as nat));
        let ghost before = out@;
        out.push(s);
        assert forall|j: int| 0 <= j < i + 1 implies #[trigger] out@[j]@ == probe_text(system_root@, path@, j as nat) by {
            if j < i {
                assert(out@[j] == before[j]);
            }
        }
        i = i + 1;
    }
    out
}

/// Where the HymoFS rule for `path` is anchored, given the existence of
/// the paths that `hymofs_probe_paths` lists (`present[i]` for the `i`th).
/// `system_root` is an absolute path. The result is written in normal
/// form: `/` and the names joined by `/`.
pub fn resolve_path_for_hymofs_with_root(system_root: &str, path: &str, present: &Vec<bool>) -> (r: String)
    requires
        path_view(system_root@).rooted,
        present@.len() == probe_count(path_view(system_root@).names, path_view(path@).names),
    ensures
        r@ == rooted_text(resolved(path_view(system_root@).names, path_view(path@).names, present@)),
{
    let rp = path_parts(system_root);
    let pp = path_parts(path);
    let ghost root = path_view(system_root@).names;
    let ghost names = path_view(path@).names;
    assert(rp.names@.map_values(|n: String| n@) =~= names_of(rp.names@));
    assert(pp.names@.map_values(|n: String| n@) =~= names_of(pp.names@));
    let mut t: Vec<String> = Vec::new();
    push_names(&rp.names, 0, rp.names.len(), &mut t);
    push_names(&pp.names, 0, pp.names.len(), &mut t);
    assert(names_of(rp.names@).subrange(0, rp.names@.len() as int) =~= root);
    assert(names_of(pp.names@).subrange(0, pp.names@.len() as int) =~= names);
    assert(names_of(t@) =~= translated(root, names));
    if t.len() == 0 || is_parent_exec(&t[t.len() - 1]) {
        assert(pp.names@.map_values(|n: String| n@).take(pp.names@.len() as int) =~= names);
        return rooted_string(&pp.names, pp.names.len());
    }
    let n = t.len() - 1;
    let root_len = rp.names.len();
    let names_len = pp.names.len();
    let ghost parent = translated(root, names).drop_last();
    let mut i: usize = 0;
    while i < n && !(names_len > 0 && i + root_len == n) && !present[i]
        invariant
            root == path_view(system_root@).names,
            names == path_view(path@).names,
            parent == translated(root, names).drop_last(),
            names_of(t@) == translated(root, names),
            n + 1 == t@.len(),
            root_len == root.len(),
            names_len == names.len(),
            present@.len() == probe_count(root, names),
            probe_count(root, names) == if names_len > 0 { names_len as nat } else { root_len as nat },
            i <= n,
            i < present@.len(),
            walk_stop(parent, root, present@, 0) == walk_stop(parent, root, present@, i as nat),
        decreases n - i,
    {
        assert(level(parent, i as nat).len() == n - i);
        if names_len > 0 {
            assert(i + root_len != n);
        }
        assert(level(parent, i as nat) != root);
        i = i + 1;
    }
    proof {
        if i < n && names_len > 0 && i + root_len == n {
            assert(level(parent, i as nat) =~= root);
        }
    }
    assert(walk_stop(parent, root, present@, 0) == i);
    let mut out: Vec<String> = Vec::new();
    if present[i] {
        push_names(&t, 0, n - i, &mut out);
        assert(names_of(t@).subrange(0, (n - i) as int) =~= level(parent, i as nat));
    } else {
        push_names(&t, 0, n, &mut out);
        assert(names_of(t@).subrange(0, n as int) =~= parent);
    }
    push_names_without_parent(&t, n - i, n, &mut out);
    assert(names_of(t@).subrange((n - i) as int, n as int) =~= parent.subrange((n - i) as int, n as int));
    push_names(&t, n, n + 1, &mut out);
    assert(names_of(t@).subrange(n as int, n + 1) =~= seq![translated(root, names).last()]);
    assert(names_of(out@) =~= rebuilt(root, names, present@));
    if root_len == 0 {
        assert(out@.map_values(|n: String| n@).take(out@.len() as int) =~= names_of(out@));
        return rooted_string(&out, out.len());
    }
    if names_prefix(&rp.names, &out) {
        let mut rest: Vec<String> = Vec::new();
        push_names(&out, root_len, out.len(), &mut rest);
        assert(names_of(out@).subrange(root_len as int, out@.len() as int) =~= names_of(out@).skip(root_len as int));
        assert(rest@.map_values(|n: String| n@).take(rest@.len() as int) =~= names_of(rest@));
        return rooted_string(&rest, rest.len());
    }
    assert(pp.names@.map_values(|n: String| n@).take(pp.names@.len() as int) =~= names);
    rooted_string(&pp.names, pp.names.len())
}

proof fn lemma_without_parent_names_plain(s: Seq<Seq<char>>)
    requires
        forall|k: int| 0 <= k < s.len() ==> !is_parent_name(#[trigger] s[k]),
    ensures
        without_parent_names(s) == s,
    decreases s.len(),
{
    if s.len() > 0 {
        lemma_without_parent_names_plain(s.drop_last());
        assert(s.drop_last().push(s.last()) =~= s);
    }
}

/// The path is kept as given, not canonicalised: where the walk reaches an
/// ancestor that exists (at the latest the system root itself), the rule
/// is anchored at the path itself, below `/`.
pub proof fn lemma_existing_ancestor_keeps_path(root: Seq<Seq<char>>, names: Seq<Seq<char>>, present: Seq<bool>)
    requires
        present.len() == probe_count(root, names),
        forall|k: int| 0 <= k < translated(root, names).len() ==> !is_parent_name(#[trigger] translated(root, names)[k]),
        anchored(root, names) ==> present[walk_stop(translated(root, names).drop_last(), root, present, 0) as int],
    ensures
        resolved(root, names, present) == names,
{
    if anchored(root, names) {
        let t = translated(root, names);
        let parent = t.drop_last();
        let n = parent.len();
        let stop = lemma_walk_stop_bounds(parent, root, present, 0);
        let walked = parent.subrange(n - stop, n as int);
        assert forall|k: int| 0 <= k < walked.len() implies !is_parent_name(#[trigger] walked[k]) by {
            assert(walked[k] == t[n - stop + k]);
        }
        lemma_without_parent_names_plain(walked);
        let r = rebuilt(root, names, present);
        assert(r =~= t);
        if root.len() > 0 {
            assert(r.take(root.len() as int) =~= root);
            assert(r.skip(root.len() as int) =~= names);
        }
    }
}

proof fn lemma_walk_stop_bounds(parent: Seq<Seq<char>>, root: Seq<Seq<char>>, present: Seq<bool>, i: nat) -> (stop: nat)
    requires
        i <= parent.len(),
    ensures
        stop == walk_stop(parent, root, present, i),
        i <= stop <= parent.len(),
    decreases parent.len() - i,
{
    if i < parent.len() && !(level(parent, i) == root || present[i as int]) {
        lemma_walk_stop_bounds(parent, root, present, i + 1)
    } else {
        walk_stop(parent, root, present, i)
    }
}

} // verus!
