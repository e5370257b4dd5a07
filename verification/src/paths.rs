//! Paths as `std::path::Path` sees them: an optional root, an optional
//! leading `.`, and the names between separators, with repeated separators,
//! trailing separators and inner `.` names ignored.
use vstd::prelude::*;

use crate::strset::{lemma_lt_asymmetric, lemma_lt_irreflexive, lemma_lt_total, lemma_lt_transitive, seq_lt};
use crate::text::{char_views, chars_of, split_on, split_on_chars, string_from_chars};

verus! {

/// A path by its components.
pub struct PathView {
    pub rooted: bool,
    pub cur: bool,
    pub names: Seq<Seq<char>>,
}

/// The separator-delimited pieces that are names: not empty and not `.`.
pub open spec fn keep_names(pieces: Seq<Seq<char>>) -> Seq<Seq<char>>
    decreases pieces.len(),
{
    if pieces.len() == 0 {
        Seq::empty()
    } else {
        let prev = keep_names(pieces.drop_last());
        let p = pieces.last();
        if p.len() == 0 || p == seq!['.'] {
            prev
        } else {
            prev.push(p)
        }
    }
}

/// The components of the path written as `s`.
pub open spec fn path_view(s: Seq<char>) -> PathView {
    let rooted = s.len() > 0 && s[0] == '/';
    let pieces = split_on(s, '/');
    PathView {
        rooted,
        cur: !rooted && s.len() > 0 && pieces[0] == seq!['.'],
        names: keep_names(pieces),
    }
}

/// `Path` equality: the same components.
pub open spec fn same_path(a: Seq<char>, b: Seq<char>) -> bool {
    path_view(a) == path_view(b)
}

/// The path's components, for executable use.
pub struct PathParts {
    pub rooted: bool,
    pub cur: bool,
    pub names: Vec<String>,
}

impl PathParts {
    pub open spec fn view_of(&self) -> PathView {
        PathView { rooted: self.rooted, cur: self.cur, names: self.names@.map_values(|n: String| n@) }
    }
}

fn is_dot(p: &Vec<char>) -> (r: bool)
    ensures
        r == (p@ == seq!['.']),
{
    if p.len() == 1 && p[0] == '.' {
        assert(p@ =~= seq!['.']);
        true
    } else {
        false
    }
}

/// The components of `s`.
pub fn path_parts(s: &str) -> (r: PathParts)
    ensures
        r.view_of() == path_view(s@),
{
    let v = chars_of(s);
    let pieces = split_on_chars(&v, '/');
    let ghost pv = char_views(pieces@);
    proof {
        crate::text::lemma_split_on_nonempty(v@, '/');
    }
    let rooted = v.len() > 0 && v[0] == '/';
    let cur = !rooted && v.len() > 0 && is_dot(&pieces[0]);
    let mut names: Vec<String> = Vec::new();
    let mut i: usize = 0;
    while i < pieces.len()
        invariant
            i <= pieces@.len(),
            pv == char_views(pieces@),
            names@.map_values(|n: String| n@) == keep_names(pv.take(i as int)),
        decreases pieces@.len() - i,
    {
        assert(pv.take(i + 1).drop_last() =~= pv.take(i as int));
        assert(pv.take(i + 1).last() == pieces@[i as int]@);
        let dot = is_dot(&pieces[i]);
        if pieces[i].len() > 0 && !dot {
            let n = string_from_chars(&pieces[i]);
            let ghost prev = names@;
            names.push(n);
            assert(names@.map_values(|n: String| n@) =~= prev.map_values(|n: String| n@).push(
                pieces@[i as int]@,
            ));
        }
        i = i + 1;
    }
    assert(pv.take(pieces@.len() as int) =~= pv);
    PathParts { rooted, cur, names }
}

/// The two component lists are equal.
pub fn same_parts(a: &PathParts, b: &PathParts) -> (r: bool)
    ensures
        r == (a.view_of() == b.view_of()),
{
    if a.rooted != b.rooted || a.cur != b.cur || a.names.len() != b.names.len() {
        assert(a.names@.map_values(|n: String| n@).len() == a.names@.len());
        return false;
    }
    let ghost an = a.names@.map_values(|n: String| n@);
    let ghost bn = b.names@.map_values(|n: String| n@);
    let mut i: usize = 0;
    while i < a.names.len()
        invariant
            i <= a.names@.len(),
            a.names@.len() == b.names@.len(),
            an == a.names@.map_values(|n: String| n@),
            bn == b.names@.map_values(|n: String| n@),
            forall|k: int| 0 <= k < i ==> an[k] == bn[k],
        decreases a.names@.len() - i,
    {
        if a.names[i] != b.names[i] {
            assert(an[i as int] != bn[i as int]);
            return false;
        }
        i = i + 1;
    }
    assert(an =~= bn);
    true
}

/// The names joined with `/` after a leading `/`: how a rooted path of
/// these components is written.
pub open spec fn rooted_text(names: Seq<Seq<char>>) -> Seq<char>
    decreases names.len(),
{
    if names.len() == 0 {
        seq!['/']
    } else if names.len() == 1 {
        seq!['/'] + names[0]
    } else {
        rooted_text(names.drop_last()) + seq!['/'] + names.last()
    }
}

/// Writes a rooted path of the first `k` names.
pub fn rooted_string(names: &Vec<String>, k: usize) -> (r: String)
    requires
        k <= names@.len(),
    ensures
        r@ == rooted_text(names@.map_values(|n: String| n@).take(k as int)),
{
    let ghost nv = names@.map_values(|n: String| n@);
    let mut out = String::from_str("/");
    proof {
        reveal_strlit("/");
    }
    assert(out@ =~= seq!['/']);
    assert(nv.take(0) =~= Seq::<Seq<char>>::empty());
    let mut i: usize = 0;
    while i < k
        invariant
            i <= k <= names@.len(),
            nv == names@.map_values(|n: String| n@),
            out@ == rooted_text(nv.take(i as int)),
        decreases k - i,
    {
        let ghost before = out@;
        if i > 0 {
            crate::text::push_char(&mut out, '/');
        }
        out.append(names[i].as_str());
        proof {
            assert(nv.take(i + 1).drop_last() =~= nv.take(i as int));
            assert(nv.take(i + 1).last() == names@[i as int]@);
            if i == 0 {
                assert(out@ =~= seq!['/'] + nv.take(1)[0]);
            } else {
                assert(out@ =~= before + seq!['/'] + names@[i as int]@);
            }
        }
        i = i + 1;
    }
    out
}

/// How one component sorts among the others: the root first, then a
/// leading `.`, then `..`, then names in code point order, as
/// `std::path::Component` orders.
pub open spec fn comp_key(name: Seq<char>) -> Seq<char> {
    if name == seq!['.', '.'] {
        seq!['\u{2}']
    } else {
        seq!['\u{3}'] + name
    }
}

/// The sort key of a path: one entry per component.
pub open spec fn path_key(p: Seq<char>) -> Seq<Seq<char>> {
    let v = path_view(p);
    (if v.rooted {
        seq![seq!['\u{0}']]
    } else {
        Seq::<Seq<char>>::empty()
    }) + (if v.cur {
        seq![seq!['\u{1}']]
    } else {
        Seq::<Seq<char>>::empty()
    }) + v.names.map_values(|n: Seq<char>| comp_key(n))
}

/// Lexicographic order on component keys, as `Path`'s `Ord` compares.
pub open spec fn key_lt(a: Seq<Seq<char>>, b: Seq<Seq<char>>) -> bool
    decreases a.len(),
{
    if b.len() == 0 {
        false
    } else if a.len() == 0 {
        true
    } else if a[0] != b[0] {
        seq_lt(a[0], b[0])
    } else {
        key_lt(a.drop_first(), b.drop_first())
    }
}

pub proof fn lemma_key_irreflexive(a: Seq<Seq<char>>)
    ensures
        !key_lt(a, a),
    decreases a.len(),
{
    if a.len() > 0 {
        lemma_key_irreflexive(a.drop_first());
    }
}

pub proof fn lemma_key_asymmetric(a: Seq<Seq<char>>, b: Seq<Seq<char>>)
    ensures
        !(key_lt(a, b) && key_lt(b, a)),
    decreases a.len(),
{
    if a.len() > 0 && b.len() > 0 {
        if a[0] == b[0] {
            lemma_key_asymmetric(a.drop_first(), b.drop_first());
        } else {
            lemma_lt_asymmetric(a[0], b[0]);
        }
    }
}

pub proof fn lemma_key_total(a: Seq<Seq<char>>, b: Seq<Seq<char>>)
    ensures
        a != b ==> key_lt(a, b) || key_lt(b, a),
    decreases a.len(),
{
    if a.len() > 0 && b.len() > 0 {
        if a[0] == b[0] {
            lemma_key_total(a.drop_first(), b.drop_first());
            if a.drop_first() == b.drop_first() {
                assert(a =~= seq![a[0]] + a.drop_first());
                assert(b =~= seq![b[0]] + b.drop_first());
            }
        } else {
            lemma_lt_total(a[0], b[0]);
        }
    } else if a.len() == 0 && b.len() == 0 {
        assert(a =~= b);
    }
}

pub proof fn lemma_key_transitive(a: Seq<Seq<char>>, b: Seq<Seq<char>>, c: Seq<Seq<char>>)
    requires
        key_lt(a, b),
        key_lt(b, c),
    ensures
        key_lt(a, c),
    decreases a.len(),
{
    if a.len() > 0 && b.len() > 0 && c.len() > 0 {
        if a[0] == b[0] && b[0] == c[0] {
            lemma_key_transitive(a.drop_first(), b.drop_first(), c.drop_first());
        } else if a[0] == b[0] {
        } else if b[0] == c[0] {
        } else {
            lemma_lt_transitive(a[0], b[0], c[0]);
            if a[0] == c[0] {
                lemma_lt_asymmetric(a[0], b[0]);
            }
        }
    }
}

/// `a < b` on character sequences.
pub fn chars_lt(x: &Vec<char>, y: &Vec<char>) -> (r: bool)
    ensures
        r == seq_lt(x@, y@),
{
    let mut i: usize = 0;
    assert(x@.skip(0) =~= x@);
    assert(y@.skip(0) =~= y@);
    while i < x.len() && i < y.len() && x[i] == y[i]
        invariant
            i <= x@.len(),
            i <= y@.len(),
            seq_lt(x@, y@) == seq_lt(x@.skip(i as int), y@.skip(i as int)),
        decreases x@.len() - i,
    {
        assert(x@.skip(i as int).drop_first() =~= x@.skip(i + 1));
        assert(y@.skip(i as int).drop_first() =~= y@.skip(i + 1));
        i = i + 1;
    }
    let ghost sa = x@.skip(i as int);
    let ghost sb = y@.skip(i as int);
    if i == y.len() {
        assert(sb.len() == 0);
        false
    } else if i == x.len() {
        assert(sa.len() == 0 && sb.len() > 0);
        true
    } else {
        assert(sa[0] == x@[i as int] && sb[0] == y@[i as int]);
        (x[i] as u32) < (y[i] as u32)
    }
}

/// `key_lt` on keys held as vectors.
pub fn key_lt_exec(a: &Vec<Vec<char>>, b: &Vec<Vec<char>>) -> (r: bool)
    ensures
        r == key_lt(char_views(a@), char_views(b@)),
{
    let ghost av = char_views(a@);
    let ghost bv = char_views(b@);
    let mut i: usize = 0;
    assert(av.skip(0) =~= av);
    assert(bv.skip(0) =~= bv);
    while i < a.len() && i < b.len()
        invariant
            av == char_views(a@),
            bv == char_views(b@),
            i <= a@.len(),
            i <= b@.len(),
            forall|k: int| 0 <= k < i ==> av[k] == bv[k],
            key_lt(av, bv) == key_lt(av.skip(i as int), bv.skip(i as int)),
        decreases a@.len() - i,
    {
        let same = !chars_lt(&a[i], &b[i]) && !chars_lt(&b[i], &a[i]);
        proof {
            lemma_lt_total(av[i as int], bv[i as int]);
            lemma_lt_irreflexive(av[i as int]);
        }
        if !same {
            assert(av.skip(i as int)[0] == av[i as int]);
            assert(bv.skip(i as int)[0] == bv[i as int]);
            assert(av[i as int] != bv[i as int]);
            return chars_lt(&a[i], &b[i]);
        }
        assert(av.skip(i as int).drop_first() =~= av.skip(i + 1));
        assert(bv.skip(i as int).drop_first() =~= bv.skip(i + 1));
        i = i + 1;
    }
    i < b.len()
}

fn comp_key_exec(name: &String) -> (r: Vec<char>)
    ensures
        r@ == comp_key(name@),
{
    let v = chars_of(name.as_str());
    if v.len() == 2 && v[0] == '.' && v[1] == '.' {
        assert(v@ =~= seq!['.', '.']);
        let mut r: Vec<char> = Vec::new();
        r.push('\u{2}');
        assert(r@ =~= seq!['\u{2}']);
        r
    } else {
        let mut r: Vec<char> = Vec::new();
        r.push('\u{3}');
        let mut i: usize = 0;
        while i < v.len()
            invariant
                i <= v@.len(),
                r@ == seq!['\u{3}'] + v@.take(i as int),
            decreases v@.len() - i,
        {
            r.push(v[i]);
            i = i + 1;
            assert(r@ =~= seq!['\u{3}'] + v@.take(i as int));
        }
        assert(v@.take(v@.len() as int) =~= v@);
        assert(v@ != seq!['.', '.']);
        r
    }
}

/// The sort key of the path `s`.
pub fn path_key_exec(s: &str) -> (r: Vec<Vec<char>>)
    ensures
        char_views(r@) == path_key(s@),
{
    let parts = path_parts(s);
    let ghost nv = parts.names@.map_values(|n: String| n@);
    let mut r: Vec<Vec<char>> = Vec::new();
    if parts.rooted {
        let mut c: Vec<char> = Vec::new();
        c.push('\u{0}');
        r.push(c);
    }
    if parts.cur {
        let mut c: Vec<char> = Vec::new();
        c.push('\u{1}');
        r.push(c);
    }
    let ghost head = char_views(r@);
    assert(head =~= (if parts.rooted {
        seq![seq!['\u{0}']]
    } else {
        Seq::<Seq<char>>::empty()
    }) + (if parts.cur {
        seq![seq!['\u{1}']]
    } else {
        Seq::<Seq<char>>::empty()
    }));
    let mut i: usize = 0;
    while i < parts.names.len()
        invariant
            i <= parts.names@.len(),
            nv == parts.names@.map_values(|n: String| n@),
            char_views(r@) == head + nv.take(i as int).map_values(|n: Seq<char>| comp_key(n)),
        decreases parts.names@.len() - i,
    {
        let k = comp_key_exec(&parts.names[i]);
        let ghost before = char_views(r@);
        r.push(k);
        proof {
            assert(nv[i as int] == parts.names@[i as int]@);
            assert(nv.take(i + 1) =~= nv.take(i as int).push(nv[i as int]));
            assert(nv.take(i + 1).map_values(|n: Seq<char>| comp_key(n)) =~= nv.take(
                i as int,
            ).map_values(|n: Seq<char>| comp_key(n)).push(comp_key(nv[i as int])));
            assert(char_views(r@) =~= before.push(k@));
        }
        i = i + 1;
        assert(char_views(r@) =~= head + nv.take(i as int).map_values(|n: Seq<char>| comp_key(n)));
    }
    assert(nv.take(nv.len() as int) =~= nv);
    r
}

} // verus!
