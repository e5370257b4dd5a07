//! Strings in the order Rust gives them (byte order of UTF-8, which is the
//! order of code points), and sorted sets of strings kept in vectors.
use vstd::prelude::*;

use crate::text::chars_of;

verus! {

/// The character sequences held by a sequence of strings.
pub open spec fn string_views(v: Seq<String>) -> Seq<Seq<char>> {
    v.map_values(|x: String| x@)
}

/// `a < b` for `String`: lexicographic on code points, a proper prefix first.
pub open spec fn seq_lt(a: Seq<char>, b: Seq<char>) -> bool
    decreases a.len(),
{
    if b.len() == 0 {
        false
    } else if a.len() == 0 {
        true
    } else if a[0] != b[0] {
        (a[0] as u32) < (b[0] as u32)
    } else {
        seq_lt(a.drop_first(), b.drop_first())
    }
}

pub proof fn lemma_lt_irreflexive(a: Seq<char>)
    ensures
        !seq_lt(a, a),
    decreases a.len(),
{
    if a.len() > 0 {
        lemma_lt_irreflexive(a.drop_first());
    }
}

pub proof fn lemma_lt_asymmetric(a: Seq<char>, b: Seq<char>)
    ensures
        !(seq_lt(a, b) && seq_lt(b, a)),
    decreases a.len(),
{
    if a.len() > 0 && b.len() > 0 && a[0] == b[0] {
        lemma_lt_asymmetric(a.drop_first(), b.drop_first());
    }
}

pub proof fn lemma_lt_total(a: Seq<char>, b: Seq<char>)
    ensures
        a != b ==> seq_lt(a, b) || seq_lt(b, a),
    decreases a.len(),
{
    if a.len() > 0 && b.len() > 0 && a[0] == b[0] {
        lemma_lt_total(a.drop_first(), b.drop_first());
        if a.drop_first() == b.drop_first() {
            assert(a =~= seq![a[0]] + a.drop_first());
            assert(b =~= seq![b[0]] + b.drop_first());
        }
    } else if a.len() == 0 && b.len() == 0 {
        assert(a =~= b);
    } else if a.len() > 0 && b.len() > 0 {
        // first characters differ, so their codes differ
        vstd::utf8::char_u32_cast(a[0], a[0] as u32);
        vstd::utf8::char_u32_cast(b[0], b[0] as u32);
        assert((a[0] as u32) != (b[0] as u32));
    }
}

pub proof fn lemma_lt_transitive(a: Seq<char>, b: Seq<char>, c: Seq<char>)
    requires
        seq_lt(a, b),
        seq_lt(b, c),
    ensures
        seq_lt(a, c),
    decreases a.len(),
{
    if a.len() > 0 && b.len() > 0 && c.len() > 0 && a[0] == b[0] && b[0] == c[0] {
        lemma_lt_transitive(a.drop_first(), b.drop_first(), c.drop_first());
    }
}

/// Every element is below every later one.
pub open spec fn strictly_sorted(s: Seq<Seq<char>>) -> bool {
    forall|i: int, j: int| 0 <= i < j < s.len() ==> seq_lt(#[trigger] s[i], #[trigger] s[j])
}

/// `a < b` on strings.
pub fn str_lt(a: &String, b: &String) -> (r: bool)
    ensures
        r == seq_lt(a@, b@),
{
    let x = chars_of(a.as_str());
    let y = chars_of(b.as_str());
    let mut i: usize = 0;
    assert(a@.skip(0) =~= a@);
    assert(b@.skip(0) =~= b@);
    while i < x.len() && i < y.len() && x[i] == y[i]
        invariant
            x@ == a@,
            y@ == b@,
            i <= x@.len(),
            i <= y@.len(),
            seq_lt(a@, b@) == seq_lt(a@.skip(i as int), b@.skip(i as int)),
        decreases x@.len() - i,
    {
        assert(a@.skip(i as int).drop_first() =~= a@.skip(i + 1));
        assert(b@.skip(i as int).drop_first() =~= b@.skip(i + 1));
        i = i + 1;
    }
    let ghost sa = a@.skip(i as int);
    let ghost sb = b@.skip(i as int);
    if i == y.len() {
        assert(sb.len() == 0);
        false
    } else if i == x.len() {
        assert(sa.len() == 0 && sb.len() > 0);
        true
    } else {
        assert(sa[0] == x@[i as int] && sb[0] == y@[i as int]);
        let r = (x[i] as u32) < (y[i] as u32);
        
        r
    }
}

/// Inserts `x` into the sorted vector `v` unless it is already there, as
/// `BTreeSet::insert` does.
pub fn insert_sorted(v: &mut Vec<String>, x: String)
    requires
        strictly_sorted(string_views(old(v)@)),
    ensures
        strictly_sorted(string_views(final(v)@)),
        string_views(final(v)@).to_set() == string_views(old(v)@).to_set().insert(x@),
{
    let ghost old_views = string_views(v@);
    let mut p: usize = 0;
    while p < v.len() && str_lt(&v[p], &x)
        invariant
            p <= v@.len(),
            string_views(v@) == old_views,
            strictly_sorted(old_views),
            forall|k: int| 0 <= k < p ==> seq_lt(#[trigger] old_views[k], x@),
        decreases v@.len() - p,
    {
        p = p + 1;
    }
    if p < v.len() && v[p] == x {
        assert(old_views[p as int] == x@);
        assert(old_views.to_set().insert(x@) =~= old_views.to_set());
        return;
    }
    let ghost xv = x@;
    proof {
        if p < old_views.len() {
            lemma_lt_total(old_views[p as int], xv);
        }
    }
    v.insert(p, x);
    let ghost nv = string_views(v@);
    assert(nv =~= old_views.insert(p as int, xv));
    assert forall|i: int, j: int| 0 <= i < j < nv.len() implies seq_lt(
        #[trigger] nv[i],
        #[trigger] nv[j],
    ) by {
        if j < p {
            assert(nv[i] == old_views[i] && nv[j] == old_views[j]);
        } else if j == p {
            assert(nv[i] == old_views[i]);
        } else if i == p {
            assert(nv[j] == old_views[j - 1]);
            if j - 1 > p {
                assert(seq_lt(old_views[p as int], old_views[j - 1]));
                lemma_lt_transitive(xv, old_views[p as int], old_views[j - 1]);
            }
        } else if i < p {
            assert(nv[i] == old_views[i] && nv[j] == old_views[j - 1]);
            assert(seq_lt(old_views[i], xv));
            if j - 1 >= p {
                assert(seq_lt(xv, old_views[j - 1])) by {
                    if j - 1 > p {
                        assert(seq_lt(old_views[p as int], old_views[j - 1]));
                        lemma_lt_transitive(xv, old_views[p as int], old_views[j - 1]);
                    }
                }
                lemma_lt_transitive(old_views[i], xv, old_views[j - 1]);
            }
        } else {
            assert(nv[i] == old_views[i - 1] && nv[j] == old_views[j - 1]);
        }
    }
    assert(nv.to_set() =~= old_views.to_set().insert(xv)) by {
        assert forall|e: Seq<char>| nv.to_set().contains(e) implies old_views.to_set().insert(
            xv,
        ).contains(e) by {
            let k = choose|k: int| 0 <= k < nv.len() && nv[k] == e;
            if k < p {
                assert(old_views[k] == e);
            } else if k > p {
                assert(old_views[k - 1] == e);
            }
        }
        assert forall|e: Seq<char>| old_views.to_set().insert(xv).contains(e) implies nv.to_set().contains(e) by {
            if e == xv {
                assert(nv[p as int] == e);
            } else {
                let k = choose|k: int| 0 <= k < old_views.len() && old_views[k] == e;
                if k < p {
                    assert(nv[k] == e);
                } else {
                    assert(nv[k + 1] == e);
                }
            }
        }
    }
}

/// The distinct strings of `v`, sorted (what collecting into a `BTreeSet`
/// and back, or sorting and deduplicating, gives).
pub fn sorted_unique(v: &Vec<String>) -> (r: Vec<String>)
    ensures
        strictly_sorted(string_views(r@)),
        string_views(r@).to_set() == string_views(v@).to_set(),
{
    let mut out: Vec<String> = Vec::new();
    let mut i: usize = 0;
    while i < v.len()
        invariant
            i <= v@.len(),
            strictly_sorted(string_views(out@)),
            string_views(out@).to_set() == string_views(v@).take(i as int).to_set(),
        decreases v@.len() - i,
    {
        insert_sorted(&mut out, v[i].clone());
        proof {
            let t = string_views(v@);
            assert(t.take(i + 1) =~= t.take(i as int).push(t[i as int]));
            t.take(i as int).lemma_push_to_set_commute(t[i as int]);
        }
        i = i + 1;
    }
    assert(string_views(v@).take(v@.len() as int) =~= string_views(v@));
    out
}

/// Adds every string of `items` to the sorted set `v`.
pub fn extend_sorted(v: &mut Vec<String>, items: &Vec<String>)
    requires
        strictly_sorted(string_views(old(v)@)),
    ensures
        strictly_sorted(string_views(final(v)@)),
        string_views(final(v)@).to_set() == string_views(old(v)@).to_set().union(
            string_views(items@).to_set(),
        ),
{
    let ghost start = string_views(v@).to_set();
    let ghost iv = string_views(items@);
    let mut i: usize = 0;
    assert(iv.take(0).to_set() =~= Set::<Seq<char>>::empty());
    assert(start.union(Set::<Seq<char>>::empty()) =~= start);
    while i < items.len()
        invariant
            i <= items@.len(),
            iv == string_views(items@),
            strictly_sorted(string_views(v@)),
            string_views(v@).to_set() == start.union(iv.take(i as int).to_set()),
        decreases items@.len() - i,
    {
        insert_sorted(v, items[i].clone());
        proof {
            assert(iv.take(i + 1) =~= iv.take(i as int).push(iv[i as int]));
            iv.take(i as int).lemma_push_to_set_commute(iv[i as int]);
            assert(start.union(iv.take(i + 1).to_set()) =~= start.union(iv.take(i as int).to_set()).insert(iv[i as int]));
        }
        i = i + 1;
    }
    assert(iv.take(items@.len() as int) =~= iv);
}

/// A strictly sorted sequence is fixed by the set of its items.
pub proof fn lemma_sorted_set_unique(a: Seq<Seq<char>>, b: Seq<Seq<char>>)
    requires
        strictly_sorted(a),
        strictly_sorted(b),
        a.to_set() == b.to_set(),
    ensures
        a == b,
    decreases a.len(),
{
    if a.len() == 0 {
        if b.len() > 0 {
            assert(b.to_set().contains(b[0]));
        }
    } else if b.len() == 0 {
        assert(a.to_set().contains(a[0]));
    } else {
        assert(a.to_set().contains(a[0]));
        assert(b.to_set().contains(b[0]));
        let ia = choose|k: int| 0 <= k < a.len() && a[k] == b[0];
        let ib = choose|k: int| 0 <= k < b.len() && b[k] == a[0];
        if a[0] != b[0] {
            assert(ia > 0);
            assert(ib > 0);
            assert(seq_lt(a[0], a[ia]));
            assert(seq_lt(b[0], b[ib]));
            lemma_lt_asymmetric(a[0], b[0]);
            assert(false);
        }
        let ra = a.drop_first();
        let rb = b.drop_first();
        assert forall|x: Seq<char>| ra.to_set().contains(x) implies rb.to_set().contains(x) by {
            let k = choose|k: int| 0 <= k < ra.len() && ra[k] == x;
            assert(a[k + 1] == x);
            assert(seq_lt(a[0], x));
            assert(b.to_set().contains(x));
            let kb = choose|j: int| 0 <= j < b.len() && b[j] == x;
            if kb == 0 {
                lemma_lt_irreflexive(x);
            }
            assert(rb[kb - 1] == x);
        }
        assert forall|x: Seq<char>| rb.to_set().contains(x) implies ra.to_set().contains(x) by {
            let k = choose|k: int| 0 <= k < rb.len() && rb[k] == x;
            assert(b[k + 1] == x);
            assert(seq_lt(b[0], x));
            assert(a.to_set().contains(x));
            let ka = choose|j: int| 0 <= j < a.len() && a[j] == x;
            if ka == 0 {
                lemma_lt_irreflexive(x);
            }
            assert(ra[ka - 1] == x);
        }
        assert(ra.to_set() =~= rb.to_set());
        lemma_sorted_set_unique(ra, rb);
        assert(a =~= seq![a[0]] + ra);
        assert(b =~= seq![b[0]] + rb);
    }
}

/// The strictly sorted sequence of the strings in `s`.
pub open spec fn sorted_seq(s: Set<Seq<char>>) -> Seq<Seq<char>> {
    choose|q: Seq<Seq<char>>| strictly_sorted(q) && q.to_set() == s
}

/// `q` with `x` put in its place in the order.
pub open spec fn insert_in_order(q: Seq<Seq<char>>, x: Seq<char>) -> Seq<Seq<char>>
    decreases q.len(),
{
    if q.len() == 0 {
        seq![x]
    } else if seq_lt(x, q[0]) {
        seq![x] + q
    } else {
        seq![q[0]] + insert_in_order(q.drop_first(), x)
    }
}

proof fn lemma_insert_in_order(q: Seq<Seq<char>>, x: Seq<char>)
    requires
        strictly_sorted(q),
        !q.to_set().contains(x),
    ensures
        strictly_sorted(insert_in_order(q, x)),
        insert_in_order(q, x).to_set() == q.to_set().insert(x),
        insert_in_order(q, x).len() == q.len() + 1,
        forall|k: int| 0 <= k < insert_in_order(q, x).len() ==> (#[trigger] insert_in_order(q, x)[k] == x || q.to_set().contains(insert_in_order(q, x)[k])),
    decreases q.len(),
{
    let r = insert_in_order(q, x);
    if q.len() == 0 {
        assert(r.to_set() =~= q.to_set().insert(x)) by {
            assert forall|y: Seq<char>| r.to_set().contains(y) <==> q.to_set().insert(x).contains(y) by {
                if r.to_set().contains(y) {
                    let k = choose|k: int| 0 <= k < r.len() && r[k] == y;
                }
                if y == x {
                    assert(r[0] == x);
                }
            }
        }
    } else {
        assert(q.to_set().contains(q[0]));
        if seq_lt(x, q[0]) {
            assert forall|i: int, j: int| 0 <= i < j < r.len() implies seq_lt(#[trigger] r[i], #[trigger] r[j]) by {
                if i > 0 {
                    assert(r[i] == q[i - 1] && r[j] == q[j - 1]);
                } else if j > 1 {
                    assert(r[j] == q[j - 1]);
                    lemma_lt_transitive(x, q[0], q[j - 1]);
                }
            }
            assert forall|y: Seq<char>| r.to_set().contains(y) <==> q.to_set().insert(x).contains(y) by {
                if r.to_set().contains(y) {
                    let k = choose|k: int| 0 <= k < r.len() && r[k] == y;
                    if k > 0 {
                        assert(q[k - 1] == y);
                    }
                }
                if q.to_set().contains(y) {
                    let k = choose|k: int| 0 <= k < q.len() && q[k] == y;
                    assert(r[k + 1] == y);
                }
                if y == x {
                    assert(r[0] == x);
                }
            }
            assert(r.to_set() =~= q.to_set().insert(x));
            assert forall|k: int| 0 <= k < r.len() implies (#[trigger] r[k] == x || q.to_set().contains(r[k])) by {
                if k > 0 {
                    assert(r[k] == q[k - 1]);
                }
            }
        } else {
            let t = q.drop_first();
            assert(strictly_sorted(t)) by {
                assert forall|i: int, j: int| 0 <= i < j < t.len() implies seq_lt(#[trigger] t[i], #[trigger] t[j]) by {
                    assert(t[i] == q[i + 1] && t[j] == q[j + 1]);
                }
            }
            assert(!t.to_set().contains(x)) by {
                if t.to_set().contains(x) {
                    let k = choose|k: int| 0 <= k < t.len() && t[k] == x;
                    assert(q[k + 1] == x);
                }
            }
            lemma_insert_in_order(t, x);
            let rt = insert_in_order(t, x);
            assert(r == seq![q[0]] + rt);
            assert(x != q[0]);
            lemma_lt_total(x, q[0]);
            assert forall|k: int| 0 <= k < rt.len() implies seq_lt(q[0], #[trigger] rt[k]) by {
                if rt[k] == x {
                } else {
                    assert(t.to_set().contains(rt[k]));
                    let m = choose|m: int| 0 <= m < t.len() && t[m] == rt[k];
                    assert(q[m + 1] == rt[k]);
                }
            }
            assert forall|i: int, j: int| 0 <= i < j < r.len() implies seq_lt(#[trigger] r[i], #[trigger] r[j]) by {
                if i == 0 {
                    assert(r[j] == rt[j - 1]);
                } else {
                    assert(r[i] == rt[i - 1] && r[j] == rt[j - 1]);
                }
            }
            assert forall|y: Seq<char>| r.to_set().contains(y) <==> q.to_set().insert(x).contains(y) by {
                if r.to_set().contains(y) {
                    let k = choose|k: int| 0 <= k < r.len() && r[k] == y;
                    if k > 0 {
                        assert(rt[k - 1] == y);
                        assert(rt.to_set().contains(y));
                        if y != x {
                            assert(t.to_set().contains(y));
                            let m = choose|m: int| 0 <= m < t.len() && t[m] == y;
                            assert(q[m + 1] == y);
                        }
                    }
                }
                if q.to_set().contains(y) {
                    let k = choose|k: int| 0 <= k < q.len() && q[k] == y;
                    if k == 0 {
                        assert(r[0] == y);
                    } else {
                        assert(t[k - 1] == y);
                        assert(t.to_set().insert(x).contains(y));
                        assert(rt.to_set().contains(y));
                        let m = choose|m: int| 0 <= m < rt.len() && rt[m] == y;
                        assert(r[m + 1] == y);
                    }
                }
                if y == x {
                    assert(rt.to_set().contains(x));
                    let m = choose|m: int| 0 <= m < rt.len() && rt[m] == x;
                    assert(r[m + 1] == x);
                }
            }
            assert(r.to_set() =~= q.to_set().insert(x));
            assert forall|k: int| 0 <= k < r.len() implies (#[trigger] r[k] == x || q.to_set().contains(r[k])) by {
                if k > 0 {
                    assert(r[k] == rt[k - 1]);
                    if rt[k - 1] != x {
                        let m = choose|m: int| 0 <= m < t.len() && t[m] == rt[k - 1];
                        assert(q[m + 1] == rt[k - 1]);
                    }
                }
            }
        }
    }
}

/// Every finite set of strings has its sorted sequence: `sorted_seq(s)` is
/// strictly sorted and holds exactly the strings of `s`.
pub proof fn lemma_sorted_seq_of_set(s: Set<Seq<char>>)
    requires
        s.finite(),
    ensures
        strictly_sorted(sorted_seq(s)),
        sorted_seq(s).to_set() == s,
        sorted_seq(s).len() == s.len(),
    decreases s.len(),
{
    if s.len() == 0 {
        let e = Seq::<Seq<char>>::empty();
        assert(e.to_set() =~= s) by {
            assert forall|y: Seq<char>| !s.contains(y) by {
                if s.contains(y) {
                    vstd::set_lib::lemma_set_empty_equivalency_len(s);
                }
            }
        }
        assert(strictly_sorted(e));
        let q = sorted_seq(s);
        assert(strictly_sorted(q) && q.to_set() == s);
        lemma_sorted_set_unique(q, e);
    } else {
        let x = s.choose();
        assert(s.contains(x)) by {
            vstd::set_lib::lemma_set_empty_equivalency_len(s);
        }
        let rest = s.remove(x);
        lemma_sorted_seq_of_set(rest);
        let q = sorted_seq(rest);
        assert(!q.to_set().contains(x));
        lemma_insert_in_order(q, x);
        let r = insert_in_order(q, x);
        assert(r.to_set() =~= s);
        assert(strictly_sorted(r) && r.to_set() == s);
        let c = sorted_seq(s);
        assert(strictly_sorted(c) && c.to_set() == s);
        lemma_sorted_set_unique(c, r);
    }
}

/// A strictly sorted sequence is the `sorted_seq` of its items.
pub proof fn lemma_sorted_seq(q: Seq<Seq<char>>)
    requires
        strictly_sorted(q),
    ensures
        sorted_seq(q.to_set()) == q,
{
    let r = sorted_seq(q.to_set());
    assert(strictly_sorted(r) && r.to_set() == q.to_set());
    lemma_sorted_set_unique(r, q);
}

/// Whether `x` is one of the strings of `v`.
pub fn contains_string(v: &Vec<String>, x: &String) -> (r: bool)
    ensures
        r == string_views(v@).to_set().contains(x@),
{
    let mut i: usize = 0;
    while i < v.len()
        invariant
            i <= v@.len(),
            forall|k: int| 0 <= k < i ==> v@[k]@ != x@,
        decreases v@.len() - i,
    {
        if v[i] == *x {
            assert(string_views(v@)[i as int] == x@);
            return true;
        }
        i = i + 1;
    }
    assert(!string_views(v@).contains(x@)) by {
        if string_views(v@).contains(x@) {
            let k = choose|k: int| 0 <= k < string_views(v@).len() && string_views(v@)[k] == x@;
            assert(v@[k]@ == x@);
        }
    }
    false
}

/// The strings of `v` that `keep` holds too, sorted, each once.
pub fn retain_in(v: &Vec<String>, keep: &Vec<String>) -> (r: Vec<String>)
    ensures
        strictly_sorted(string_views(r@)),
        string_views(r@).to_set() == string_views(v@).to_set().intersect(
            string_views(keep@).to_set(),
        ),
{
    let ghost vv = string_views(v@);
    let ghost kv = string_views(keep@).to_set();
    let mut out: Vec<String> = Vec::new();
    let mut i: usize = 0;
    assert(vv.take(0).to_set() =~= Set::<Seq<char>>::empty());
    assert(string_views(out@).to_set() =~= vv.take(0).to_set().intersect(kv));
    while i < v.len()
        invariant
            i <= v@.len(),
            vv == string_views(v@),
            kv == string_views(keep@).to_set(),
            strictly_sorted(string_views(out@)),
            string_views(out@).to_set() == vv.take(i as int).to_set().intersect(kv),
        decreases v@.len() - i,
    {
        proof {
            assert(vv.take(i + 1) =~= vv.take(i as int).push(vv[i as int]));
            vv.take(i as int).lemma_push_to_set_commute(vv[i as int]);
        }
        if contains_string(keep, &v[i]) {
            insert_sorted(&mut out, v[i].clone());
            assert(string_views(out@).to_set() =~= vv.take(i + 1).to_set().intersect(kv));
        } else {
            assert(string_views(out@).to_set() =~= vv.take(i + 1).to_set().intersect(kv));
        }
        i = i + 1;
    }
    assert(vv.take(v@.len() as int) =~= vv);
    out
}

} // verus!
